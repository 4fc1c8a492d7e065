pub mod args;
pub mod fingerprint;
pub mod grouping;
