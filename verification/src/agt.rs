//! The archive container: an enciphered, chunk-compressed set of named
//! entries (magic `NayaPack`).
//!
//! Layout, little-endian, after deciphering:
//! - header (32 bytes): 8-byte magic, u32 reserved, (u16, u16) version,
//!   u32 file count, 3 more reserved u32 fields;
//! - directory: per entry a u32 data offset, u32 chunk count,
//!   u32 decompressed length, u32 path byte length, then the UTF-8 path;
//! - per entry, at its data offset: `chunk_count` u16 compressed-chunk
//!   lengths followed by the concatenated compressed chunks.
//!
//! This module holds the record types, their byte-level specifications, and
//! the parse/serialize round-trip lemmas shared by the reader and builder.

use vstd::prelude::*;

pub mod builder;
pub mod reader;

use crate::zlib::{chunk_count_of, concat_all, inflate_of};
use vstd::bytes::{spec_u16_from_le_bytes, spec_u16_to_le_bytes, spec_u32_from_le_bytes, spec_u32_to_le_bytes};
use vstd::utf8::{decode_utf8, encode_utf8, valid_utf8};

verus! {

/// Archive header: magic plus fixed-width fields.  The reserved fields of
/// unknown meaning keep their stored values.
#[derive(Debug, Clone, Copy, PartialEq)]
pub struct Header {
    pub what: u32,
    pub version: (u16, u16),
    pub file_count: u32,
    pub what2: u32,
    pub what3: u32,
    pub what4: u32,
}

impl Default for Header {
    /// The header a fresh archive is written with: version 1.1, no entries,
    /// reserved fields zero.
    fn default() -> (r: Header)
        ensures
            r == (Header { what: 0, version: (1u16, 1u16), file_count: 0, what2: 0, what3: 0, what4: 0 }),
    {
        Header { what: 0, version: (1, 1), file_count: 0, what2: 0, what3: 0, what4: 0 }
    }
}

/// One directory record: where the entry's chunk data lives and under what
/// path it is stored.
#[derive(Debug, Clone, PartialEq)]
pub struct Entry {
    pub chunks_offset: u32,
    pub chunk_count: u32,
    pub decompressed_length: u32,
    pub path: String,
}

/// The mathematical image of an `Entry`.
pub ghost struct EntryV {
    pub chunks_offset: u32,
    pub chunk_count: u32,
    pub decompressed_length: u32,
    pub path: Seq<char>,
}

impl View for Entry {
    type V = EntryV;

    open spec fn view(&self) -> EntryV {
        EntryV {
            chunks_offset: self.chunks_offset,
            chunk_count: self.chunk_count,
            decompressed_length: self.decompressed_length,
            path: self.path@,
        }
    }
}

/// Why a header or directory failed to parse.
#[derive(Debug, Clone, Copy, PartialEq, Eq, Structural)]
pub enum FormatError {
    /// The stream does not begin with the archive magic.
    BadMagic,
    /// The stream ends before the record does.
    Truncated,
    /// An entry's path bytes are not valid UTF-8.
    BadPath,
}

/// Why an entry's data failed to decode.
#[derive(Debug, Clone, Copy, PartialEq, Eq, Structural)]
pub enum DecodeError {
    /// The chunk table or a chunk reaches past the end of the stream.
    Truncated,
    /// A compressed chunk is not a well-formed zlib stream.
    BadChunk,
}

/// Why an archive could not be built.
#[derive(Debug, Clone, Copy, PartialEq, Eq, Structural)]
pub enum BuildError {
    /// More entries than the file count field can hold.
    TooManyEntries,
    /// An entry's payload is longer than the length field can hold.
    EntryTooLarge,
    /// A path's UTF-8 form is longer than the length field can hold.
    PathTooLong,
    /// A deflated chunk is longer than its u16 table slot can hold.
    OversizedChunk,
    /// A data offset or the whole archive exceeds the u32 offset range.
    ArchiveTooLarge,
}

/// The 8-byte archive magic, `NayaPack`.
pub open spec fn spec_magic() -> Seq<u8> {
    seq![0x4eu8, 0x61u8, 0x79u8, 0x61u8, 0x50u8, 0x61u8, 0x63u8, 0x6bu8]
}

pub fn magic_bytes() -> (r: Vec<u8>)
    ensures
        r@ == spec_magic(),
{
    let mut v: Vec<u8> = Vec::new();
    v.push(0x4e);
    v.push(0x61);
    v.push(0x79);
    v.push(0x61);
    v.push(0x50);
    v.push(0x61);
    v.push(0x63);
    v.push(0x6b);
    proof {
        assert(v@ =~= spec_magic());
    }
    v
}

/// Number of bytes in a serialized header.
pub const HEADER_LEN: usize = 32;

/// The serialized form of a header.
pub open spec fn spec_header_bytes(h: Header) -> Seq<u8> {
    spec_magic() + spec_u32_to_le_bytes(h.what) + spec_u16_to_le_bytes(h.version.0)
        + spec_u16_to_le_bytes(h.version.1) + spec_u32_to_le_bytes(h.file_count)
        + spec_u32_to_le_bytes(h.what2) + spec_u32_to_le_bytes(h.what3) + spec_u32_to_le_bytes(
        h.what4,
    )
}

/// The serialized length of an entry record with path `p`.
pub open spec fn spec_entry_len(p: Seq<char>) -> int {
    16 + encode_utf8(p).len() as int
}

/// The serialized form of an entry record.
pub open spec fn spec_entry_bytes(e: EntryV) -> Seq<u8>
    recommends
        encode_utf8(e.path).len() <= u32::MAX,
{
    spec_u32_to_le_bytes(e.chunks_offset) + spec_u32_to_le_bytes(e.chunk_count)
        + spec_u32_to_le_bytes(e.decompressed_length) + spec_u32_to_le_bytes(
        encode_utf8(e.path).len() as u32,
    ) + encode_utf8(e.path)
}

/// The serialized form of a whole directory table.
pub open spec fn spec_table_bytes(entries: Seq<EntryV>) -> Seq<u8>
    decreases entries.len(),
{
    if entries.len() == 0 {
        Seq::empty()
    } else {
        spec_entry_bytes(entries[0]) + spec_table_bytes(entries.skip(1))
    }
}

/// The u32 at offset `off` of `s`, little-endian.
pub open spec fn le32_at(s: Seq<u8>, off: int) -> u32 {
    spec_u32_from_le_bytes(s.subrange(off, off + 4))
}

/// The u16 at offset `off` of `s`, little-endian.
pub open spec fn le16_at(s: Seq<u8>, off: int) -> u16 {
    spec_u16_from_le_bytes(s.subrange(off, off + 2))
}

/// What parsing the header of plaintext image `s` yields: the header, or
/// nothing when the image is shorter than a header or carries the wrong
/// magic.
pub open spec fn spec_parse_header(s: Seq<u8>) -> Option<Header> {
    if s.len() >= HEADER_LEN as int && s.subrange(0, 8) == spec_magic() {
        Some(
            Header {
                what: le32_at(s, 8),
                version: (le16_at(s, 12), le16_at(s, 14)),
                file_count: le32_at(s, 16),
                what2: le32_at(s, 20),
                what3: le32_at(s, 24),
                what4: le32_at(s, 28),
            },
        )
    } else {
        None
    }
}

/// What parsing one entry record at position `pos` yields: the record and
/// the position just past it, or nothing when the record is truncated or
/// its path is not valid UTF-8.
pub open spec fn spec_parse_entry(s: Seq<u8>, pos: int) -> Option<(EntryV, int)> {
    if 0 <= pos && pos + 16 <= s.len() {
        let path_len = le32_at(s, pos + 12) as int;
        if pos + 16 + path_len <= s.len() {
            let path_bytes = s.subrange(pos + 16, pos + 16 + path_len);
            if valid_utf8(path_bytes) {
                Some(
                    (
                        EntryV {
                            chunks_offset: le32_at(s, pos),
                            chunk_count: le32_at(s, pos + 4),
                            decompressed_length: le32_at(s, pos + 8),
                            path: decode_utf8(path_bytes),
                        },
                        pos + 16 + path_len,
                    ),
                )
            } else {
                None
            }
        } else {
            None
        }
    } else {
        None
    }
}

/// What parsing `n` consecutive entry records starting at `pos` yields.
pub open spec fn spec_parse_entries(s: Seq<u8>, pos: int, n: nat) -> Option<Seq<EntryV>>
    decreases n,
{
    if n == 0 {
        Some(Seq::empty())
    } else {
        match spec_parse_entry(s, pos) {
            None => None,
            Some((e, next)) => match spec_parse_entries(s, next, (n - 1) as nat) {
                None => None,
                Some(rest) => Some(seq![e] + rest),
            },
        }
    }
}

/// The chunk-length table read at `pos`: `n` little-endian u16 values.
pub open spec fn spec_chunk_lengths(s: Seq<u8>, pos: int, n: nat) -> Seq<u16> {
    Seq::new(n, |i: int| le16_at(s, pos + 2 * i))
}

/// Reading and inflating consecutive compressed chunks of the given
/// lengths, concatenating the decompressed bytes.
pub open spec fn spec_read_chunks(s: Seq<u8>, pos: int, lens: Seq<u16>) -> Option<Seq<u8>>
    decreases lens.len(),
{
    if lens.len() == 0 {
        Some(Seq::empty())
    } else if pos + lens[0] as int <= s.len() {
        match inflate_of(s.subrange(pos, pos + lens[0] as int)) {
            None => None,
            Some(d) => match spec_read_chunks(s, pos + lens[0] as int, lens.skip(1)) {
                None => None,
                Some(rest) => Some(d + rest),
            },
        }
    } else {
        None
    }
}

/// What decoding an entry's payload from plaintext image `s` yields: read
/// the chunk-length table at the entry's data offset, then inflate each
/// chunk in order.
pub open spec fn spec_entry_data(s: Seq<u8>, e: EntryV) -> Option<Seq<u8>> {
    let pos = e.chunks_offset as int;
    let n = e.chunk_count as nat;
    if n == 0 {
        Some(Seq::empty())
    } else if pos + 2 * n <= s.len() {
        spec_read_chunks(s, pos + 2 * n, spec_chunk_lengths(s, pos, n))
    } else {
        None
    }
}

/// A serialized header parses back to itself, whatever follows it.
pub proof fn lemma_parse_header_roundtrip(h: Header, rest: Seq<u8>)
    ensures
        spec_parse_header(spec_header_bytes(h) + rest) == Some(h),
{
    vstd::bytes::lemma_auto_spec_u32_to_from_le_bytes();
    vstd::bytes::lemma_auto_spec_u16_to_from_le_bytes();
    let s = spec_header_bytes(h) + rest;
    assert(s.subrange(0, 8) =~= spec_magic());
    assert(s.subrange(8, 12) =~= spec_u32_to_le_bytes(h.what));
    assert(s.subrange(12, 14) =~= spec_u16_to_le_bytes(h.version.0));
    assert(s.subrange(14, 16) =~= spec_u16_to_le_bytes(h.version.1));
    assert(s.subrange(16, 20) =~= spec_u32_to_le_bytes(h.file_count));
    assert(s.subrange(20, 24) =~= spec_u32_to_le_bytes(h.what2));
    assert(s.subrange(24, 28) =~= spec_u32_to_le_bytes(h.what3));
    assert(s.subrange(28, 32) =~= spec_u32_to_le_bytes(h.what4));
}

/// A serialized entry embedded at `pos` parses back to itself.
pub proof fn lemma_parse_entry_roundtrip(s: Seq<u8>, pos: int, e: EntryV)
    requires
        0 <= pos,
        encode_utf8(e.path).len() <= u32::MAX,
        pos + spec_entry_len(e.path) <= s.len(),
        s.subrange(pos, pos + spec_entry_len(e.path)) == spec_entry_bytes(e),
    ensures
        spec_parse_entry(s, pos) == Some((e, pos + spec_entry_len(e.path))),
{
    vstd::bytes::lemma_auto_spec_u32_to_from_le_bytes();
    let eb = spec_entry_bytes(e);
    let pb = encode_utf8(e.path);
    let plen = pb.len() as int;
    assert(s.subrange(pos, pos + 4) =~= spec_u32_to_le_bytes(e.chunks_offset)) by {
        assert forall|k: int| 0 <= k < 4 implies s.subrange(pos, pos + 4)[k]
            == spec_u32_to_le_bytes(e.chunks_offset)[k] by {
            assert(s[pos + k] == eb[k]);
        }
    }
    assert(s.subrange(pos + 4, pos + 8) =~= spec_u32_to_le_bytes(e.chunk_count)) by {
        assert forall|k: int| 0 <= k < 4 implies s.subrange(pos + 4, pos + 8)[k]
            == spec_u32_to_le_bytes(e.chunk_count)[k] by {
            assert(s[pos + 4 + k] == eb[4 + k]);
        }
    }
    assert(s.subrange(pos + 8, pos + 12) =~= spec_u32_to_le_bytes(e.decompressed_length)) by {
        assert forall|k: int| 0 <= k < 4 implies s.subrange(pos + 8, pos + 12)[k]
            == spec_u32_to_le_bytes(e.decompressed_length)[k] by {
            assert(s[pos + 8 + k] == eb[8 + k]);
        }
    }
    assert(s.subrange(pos + 12, pos + 16) =~= spec_u32_to_le_bytes(plen as u32)) by {
        assert forall|k: int| 0 <= k < 4 implies (#[trigger] s.subrange(pos + 12, pos + 16)[k])
            == spec_u32_to_le_bytes(plen as u32)[k] by {
            assert(s[pos + 12 + k] == eb[12 + k]);
        }
    }
    assert(le32_at(s, pos + 12) as int == plen);
    assert(s.subrange(pos + 16, pos + 16 + plen) =~= pb) by {
        assert forall|k: int| 0 <= k < plen implies s.subrange(pos + 16, pos + 16 + plen)[k]
            == pb[k] by {
            assert(s[pos + 16 + k] == eb[16 + k]);
        }
    }
    vstd::utf8::encode_utf8_valid_utf8(e.path);
    vstd::utf8::encode_utf8_decode_utf8(e.path);
    let parsed = spec_parse_entry(s, pos);
    assert(parsed matches Some((pe, next)) && pe == e && next == pos + spec_entry_len(e.path));
}

/// A serialized directory table embedded at `pos` parses back to itself.
pub proof fn lemma_parse_entries_roundtrip(s: Seq<u8>, pos: int, entries: Seq<EntryV>)
    requires
        0 <= pos,
        forall|i: int|
            0 <= i < entries.len() ==> encode_utf8(#[trigger] entries[i].path).len() <= u32::MAX,
        pos + spec_table_bytes(entries).len() <= s.len(),
        s.subrange(pos, pos + spec_table_bytes(entries).len()) == spec_table_bytes(entries),
    ensures
        spec_parse_entries(s, pos, entries.len()) == Some(entries),
    decreases entries.len(),
{
    if entries.len() == 0 {
        assert(spec_parse_entries(s, pos, 0) == Some(Seq::<EntryV>::empty()));
        assert(entries =~= Seq::<EntryV>::empty());
    } else {
        let e0 = entries[0];
        let eb = spec_entry_bytes(e0);
        let tb = spec_table_bytes(entries);
        let rest_tb = spec_table_bytes(entries.skip(1));
        assert(tb == eb + rest_tb);
        assert(eb.len() == spec_entry_len(e0.path)) by {
            vstd::bytes::lemma_auto_spec_u32_to_from_le_bytes();
        }
        assert(s.subrange(pos, pos + eb.len() as int) =~= eb) by {
            assert forall|k: int| 0 <= k < eb.len() implies s.subrange(pos, pos + eb.len() as int)[k]
                == eb[k] by {
                assert(s[pos + k] == tb[k]);
            }
        }
        lemma_parse_entry_roundtrip(s, pos, e0);
        let next = pos + spec_entry_len(e0.path);
        assert(s.subrange(next, next + rest_tb.len() as int) =~= rest_tb) by {
            assert forall|k: int|
                0 <= k < rest_tb.len() implies s.subrange(next, next + rest_tb.len() as int)[k]
                == rest_tb[k] by {
                assert(s[next + k] == tb[eb.len() + k]);
            }
        }
        assert forall|i: int|
            0 <= i < entries.skip(1).len() implies encode_utf8(
            #[trigger] entries.skip(1)[i].path,
        ).len() <= u32::MAX by {
            assert(entries.skip(1)[i] == entries[i + 1]);
        }
        lemma_parse_entries_roundtrip(s, next, entries.skip(1));
        assert(spec_parse_entries(s, pos, entries.len()) == Some(seq![e0] + entries.skip(1)));
        assert(seq![e0] + entries.skip(1) =~= entries);
    }
}

/// The little-endian serialization of a chunk-length table.
pub open spec fn spec_lens_bytes(lens: Seq<u16>) -> Seq<u8>
    decreases lens.len(),
{
    if lens.len() == 0 {
        Seq::empty()
    } else {
        spec_u16_to_le_bytes(lens[0]) + spec_lens_bytes(lens.skip(1))
    }
}

/// A serialized chunk-length table is twice as long as its entry count, and
/// reads back entry by entry.
pub proof fn lemma_lens_bytes(lens: Seq<u16>)
    ensures
        spec_lens_bytes(lens).len() == 2 * lens.len(),
        forall|i: int|
            0 <= i < lens.len() ==> spec_lens_bytes(lens).subrange(2 * i, 2 * i + 2)
                =~= spec_u16_to_le_bytes(#[trigger] lens[i]),
    decreases lens.len(),
{
    vstd::bytes::lemma_auto_spec_u16_to_from_le_bytes();
    if lens.len() > 0 {
        lemma_lens_bytes(lens.skip(1));
        let lb = spec_lens_bytes(lens);
        let rest = spec_lens_bytes(lens.skip(1));
        assert forall|i: int|
            0 <= i < lens.len() implies lb.subrange(2 * i, 2 * i + 2) =~= spec_u16_to_le_bytes(
            #[trigger] lens[i],
        ) by {
            if i == 0 {
                assert forall|k: int| 0 <= k < 2 implies lb.subrange(0, 2)[k]
                    == spec_u16_to_le_bytes(lens[0])[k] by {
                    assert(lb[k] == spec_u16_to_le_bytes(lens[0])[k]);
                }
            } else {
                assert(lens.skip(1)[i - 1] == lens[i]);
                assert(rest.subrange(2 * (i - 1), 2 * (i - 1) + 2) =~= spec_u16_to_le_bytes(
                    lens[i],
                ));
                assert forall|k: int| 0 <= k < 2 implies lb.subrange(2 * i, 2 * i + 2)[k]
                    == spec_u16_to_le_bytes(lens[i])[k] by {
                    assert(lb[2 * i + k] == rest[2 * (i - 1) + k]);
                }
            }
        }
    }
}

/// Consecutive compressed chunks embedded at `pos`, each inflating to its
/// slice, read back as the concatenation of the slices.
pub proof fn lemma_read_chunks_roundtrip(
    s: Seq<u8>,
    pos: int,
    lens: Seq<u16>,
    chunks: Seq<Seq<u8>>,
    datas: Seq<Seq<u8>>,
)
    requires
        0 <= pos,
        chunks.len() == lens.len(),
        datas.len() == lens.len(),
        forall|i: int| 0 <= i < lens.len() ==> (#[trigger] chunks[i]).len() == lens[i] as int,
        forall|i: int| 0 <= i < lens.len() ==> inflate_of(#[trigger] chunks[i]) == Some(datas[i]),
        pos + concat_all(chunks).len() <= s.len(),
        s.subrange(pos, pos + concat_all(chunks).len()) == concat_all(chunks),
    ensures
        spec_read_chunks(s, pos, lens) == Some(concat_all(datas)),
    decreases lens.len(),
{
    if lens.len() == 0 {
        assert(concat_all(datas) =~= Seq::<u8>::empty());
    } else {
        let c0 = chunks[0];
        let cb = concat_all(chunks);
        let rest_cb = concat_all(chunks.skip(1));
        assert(cb == c0 + rest_cb);
        assert(s.subrange(pos, pos + c0.len() as int) =~= c0) by {
            assert forall|k: int| 0 <= k < c0.len() implies s.subrange(pos, pos + c0.len() as int)[k]
                == c0[k] by {
                assert(s[pos + k] == cb[k]);
            }
        }
        assert(inflate_of(s.subrange(pos, pos + lens[0] as int)) == Some(datas[0]));
        let next = pos + c0.len() as int;
        assert(s.subrange(next, next + rest_cb.len() as int) =~= rest_cb) by {
            assert forall|k: int|
                0 <= k < rest_cb.len() implies s.subrange(next, next + rest_cb.len() as int)[k]
                == rest_cb[k] by {
                assert(s[next + k] == cb[c0.len() + k]);
            }
        }
        assert forall|i: int|
            0 <= i < lens.skip(1).len() implies (#[trigger] chunks.skip(1)[i]).len() == lens.skip(
            1,
        )[i] as int by {
            assert(chunks.skip(1)[i] == chunks[i + 1]);
            assert(lens.skip(1)[i] == lens[i + 1]);
        }
        assert forall|i: int|
            0 <= i < lens.skip(1).len() implies inflate_of(#[trigger] chunks.skip(1)[i]) == Some(
            datas.skip(1)[i],
        ) by {
            assert(chunks.skip(1)[i] == chunks[i + 1]);
            assert(datas.skip(1)[i] == datas[i + 1]);
        }
        lemma_read_chunks_roundtrip(s, next, lens.skip(1), chunks.skip(1), datas.skip(1));
        assert(spec_read_chunks(s, pos, lens) == Some(datas[0] + concat_all(datas.skip(1))));
        assert(datas[0] + concat_all(datas.skip(1)) == concat_all(datas));
    }
}

/// Serialize a header.
pub fn header_to_bytes(h: &Header) -> (r: Vec<u8>)
    ensures
        r@ == spec_header_bytes(*h),
        r@.len() == HEADER_LEN as int,
{
    let mut v = magic_bytes();
    let mut f = vstd::bytes::u32_to_le_bytes(h.what);
    v.append(&mut f);
    let mut f = vstd::bytes::u16_to_le_bytes(h.version.0);
    v.append(&mut f);
    let mut f = vstd::bytes::u16_to_le_bytes(h.version.1);
    v.append(&mut f);
    let mut f = vstd::bytes::u32_to_le_bytes(h.file_count);
    v.append(&mut f);
    let mut f = vstd::bytes::u32_to_le_bytes(h.what2);
    v.append(&mut f);
    let mut f = vstd::bytes::u32_to_le_bytes(h.what3);
    v.append(&mut f);
    let mut f = vstd::bytes::u32_to_le_bytes(h.what4);
    v.append(&mut f);
    proof {
        vstd::bytes::lemma_auto_spec_u32_to_from_le_bytes();
        vstd::bytes::lemma_auto_spec_u16_to_from_le_bytes();
        assert(v@ =~= spec_header_bytes(*h));
    }
    v
}

} // verus!
