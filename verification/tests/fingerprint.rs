use std::hash::Hasher;

use twox_hash::xxh3::HasherExt;
use twox_hash::Xxh3Hash128;

use dupfinder::fingerprint::{hash_content, FileEntry};

/// The streaming XXH3 digest with all bytes routed through the hasher's
/// internal buffer. Writes of at most 100 bytes stay on the buffered path —
/// a different split than the library uses, so agreement also checks that
/// write boundaries do not affect the digest. (A single large write would
/// take this twox_hash version's buffer-bypassing path, whose digest can
/// depend on unwritten buffer memory for some lengths.)
fn reference_digest(bytes: &[u8]) -> u128 {
    let mut hasher = Xxh3Hash128::default();
    for chunk in bytes.chunks(100) {
        hasher.write(chunk);
    }
    hasher.finish_ext()
}

/// For content of at most 4096 bytes the whole content is hashed: the
/// library's digest equals a plain XXH3 digest of all the bytes.
#[test]
fn small_content_hashed_in_full() {
    let content: Vec<u8> = b"hello".to_vec();
    assert_eq!(hash_content(&content), reference_digest(b"hello"));
}

#[test]
fn empty_content_digest_matches_reference() {
    let content: Vec<u8> = Vec::new();
    assert_eq!(hash_content(&content), reference_digest(b""));
}

#[test]
fn chunk_sized_content_hashed_in_full() {
    let content: Vec<u8> = vec![7u8; 4096];
    assert_eq!(hash_content(&content), reference_digest(&content));
}

/// Past one chunk, the byte at offset 4096 is skipped and everything else is
/// hashed: the digest equals a plain XXH3 digest of the content with that
/// byte spliced out.
#[test]
fn large_content_skips_byte_at_4096() {
    let mut content: Vec<u8> = Vec::new();
    for i in 0..10000u32 {
        content.push((i % 251) as u8);
    }
    let mut sampled: Vec<u8> = content[..4096].to_vec();
    sampled.extend_from_slice(&content[4097..]);
    assert_eq!(hash_content(&content), reference_digest(&sampled));
}

/// Two contents that differ only in the skipped byte collide on purpose:
/// the sparse fingerprint is a likely-duplicate signal, not a proof of
/// identical content.
#[test]
fn contents_differing_only_in_skipped_byte_collide() {
    let a: Vec<u8> = vec![1u8; 5000];
    let mut b = a.clone();
    b[4096] = 2;
    let ea = FileEntry::from_content("a".to_string(), &a);
    let eb = FileEntry::from_content("b".to_string(), &b);
    assert_eq!(ea.stats, eb.stats);
}

/// A difference in a hashed byte changes the digest.
#[test]
fn contents_differing_in_hashed_byte_do_not_collide() {
    let a: Vec<u8> = b"hello".to_vec();
    let b: Vec<u8> = b"world".to_vec();
    let ea = FileEntry::from_content("a".to_string(), &a);
    let eb = FileEntry::from_content("b".to_string(), &b);
    assert_ne!(ea.stats, eb.stats);
}

/// Identical small files always receive the same fingerprint.
#[test]
fn identical_small_files_same_fingerprint() {
    let content: Vec<u8> = b"hello".to_vec();
    let ea = FileEntry::from_content("one".to_string(), &content);
    let eb = FileEntry::from_content("two".to_string(), &content);
    assert_eq!(ea.stats, eb.stats);
    assert_eq!(ea.stats.size, 5);
}

/// The fingerprint's size field is the content's byte length.
#[test]
fn size_is_content_length() {
    let entry = FileEntry::from_content("f".to_string(), &vec![0u8; 123]);
    assert_eq!(entry.stats.size, 123);
    assert_eq!(entry.path, "f");
}

/// Zero-length files share one fingerprint, with size zero.
#[test]
fn zero_length_files_share_fingerprint() {
    let empty: Vec<u8> = Vec::new();
    let ea = FileEntry::from_content("a".to_string(), &empty);
    let eb = FileEntry::from_content("b".to_string(), &empty);
    assert_eq!(ea.stats, eb.stats);
    assert_eq!(ea.stats.size, 0);
}
