//! Toolkit for a racing game's binary container formats.
//!
//! The core is the `agt` archive codec: an enciphered, chunk-compressed
//! container holding named entries.  A seekable XOR keystream transform
//! (`cipher`) covers every byte from absolute offset 32 onward, each entry's
//! payload is deflated in independent 16 KiB chunks (`zlib`), and the
//! directory that locates the payloads is written with placeholder offsets
//! that are patched once the payload positions are known (`patch`).
//!
//! Sibling table formats (terrain, lane, model and object tables, and the
//! tab-separated `xlt` sheets) share the same byte-level reading style but
//! are neither enciphered nor compressed.

use vstd::prelude::*;

pub mod agt;
pub mod bytes;
pub mod cipher;
pub mod parsers;
pub mod patch;
pub mod stream;
pub mod strings;
pub mod strutil;
pub mod zlib;

verus! {

} // verus!
