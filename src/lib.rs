//! Verified building blocks of a family of small Unix text utilities.
//!
//! The centre is `cut`'s range lists: `positions` reads a list such as
//! `1,3-5,7-` into zero-based half-open ranges, and `extract` applies them
//! to the bytes, characters or fields of a line. Around it stand the
//! decisions of the other tools: counting (`wc`), runs of equal lines
//! (`uniq`), line numbering (`cat`), merging sorted inputs (`comm`), line
//! filtering (`grep`), entry filtering (`find`), fortune files (`fortune`),
//! count arguments (`head`, `tail`) and month layout (`cal`). `decimal` and
//! `text` hold what they share.
pub mod cal;
pub mod cat;
pub mod comm;
pub mod decimal;
pub mod extract;
pub mod find;
pub mod fortune;
pub mod grep;
pub mod head;
pub mod positions;
pub mod tail;
pub mod text;
pub mod uniq;
pub mod wc;
