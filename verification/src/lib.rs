//! Verified engines for a small suite of line-oriented text utilities:
//! concatenating with line numbers, truncating to the first lines or bytes,
//! collapsing consecutive duplicate lines, and counting lines, words, bytes
//! and characters. Each engine works on plain bytes and strings; opening
//! inputs and writing output stay with the caller.

pub mod cat;
pub mod decode;
pub mod errors;
pub mod head;
pub mod lines;
pub mod numfmt;
pub mod uniq;
pub mod wc;
