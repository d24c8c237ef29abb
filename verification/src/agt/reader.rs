//! Random-access archive reading.
//!
//! Every operation seeks explicitly before it reads, so entries can be
//! visited repeatedly and in any order.  Contracts speak of the plaintext
//! image of the archive: the bytes after the keystream is removed.

use vstd::prelude::*;

use crate::agt::{
    spec_entry_data, spec_magic, spec_parse_entries, spec_parse_entry, spec_parse_header,
    DecodeError, Entry, EntryV, FormatError, Header, HEADER_LEN,
};
use crate::stream::XorReader;
use crate::strings::{bytes_eq, lemma_string_from_utf8_chars, string_from_utf8};
use crate::zlib::inflate_chunk;

verus! {

/// Reads an archive held in memory, deciphering with the given key.
pub struct AgtReader {
    reader: XorReader,
}

impl AgtReader {
    pub closed spec fn wf(&self) -> bool {
        self.reader.wf()
    }

    /// The plaintext image of the archive.
    pub closed spec fn plain(&self) -> Seq<u8> {
        self.reader.plain()
    }

    pub closed spec fn spec_key(&self) -> Seq<u8> {
        self.reader.spec_key()
    }

    /// The key must be non-empty for the keystream index to be defined.
    pub fn new(data: Vec<u8>, cipher: &[u8]) -> (r: AgtReader)
        requires
            cipher@.len() > 0,
        ensures
            r.wf(),
            r.spec_key() == cipher@,
            r.plain() == crate::cipher::apply_keystream(cipher@, data@),
    {
        AgtReader { reader: XorReader::new(data, vstd::slice::slice_to_vec(cipher)) }
    }

    /// Parse the 32-byte header at the start of the archive.
    pub fn read_header(&mut self) -> (r: Result<Header, FormatError>)
        requires
            old(self).wf(),
        ensures
            final(self).wf(),
            final(self).plain() == old(self).plain(),
            final(self).spec_key() == old(self).spec_key(),
            match r {
                Ok(h) => spec_parse_header(old(self).plain()) == Some(h),
                Err(FormatError::Truncated) => old(self).plain().len() < HEADER_LEN as int,
                Err(FormatError::BadMagic) => old(self).plain().len() >= HEADER_LEN as int
                    && old(self).plain().subrange(0, 8) != spec_magic(),
                Err(FormatError::BadPath) => false,
            },
    {
        let ghost s = self.plain();
        if self.reader.stream_len() < HEADER_LEN {
            return Err(FormatError::Truncated);
        }
        self.reader.seek_to(0);
        let magic = match self.reader.read_exact(8) {
            Some(v) => v,
            None => {
                return Err(FormatError::Truncated);
            },
        };
        let expected = crate::agt::magic_bytes();
        if !bytes_eq(&magic, &expected) {
            proof {
                assert(magic@ == s.subrange(0, 8));
            }
            return Err(FormatError::BadMagic);
        }
        let what = self.reader.read_u32().unwrap();
        let v0 = self.reader.read_u16().unwrap();
        let v1 = self.reader.read_u16().unwrap();
        let file_count = self.reader.read_u32().unwrap();
        let what2 = self.reader.read_u32().unwrap();
        let what3 = self.reader.read_u32().unwrap();
        let what4 = self.reader.read_u32().unwrap();
        let h = Header { what, version: (v0, v1), file_count, what2, what3, what4 };
        proof {
            assert(s.subrange(0, 8) == spec_magic());
            assert(spec_parse_header(s) == Some(h));
        }
        Ok(h)
    }

    /// Parse one directory record at the current position.
    fn read_entry(&mut self) -> (r: Result<Entry, FormatError>)
        requires
            old(self).wf(),
        ensures
            final(self).wf(),
            final(self).plain() == old(self).plain(),
            final(self).spec_key() == old(self).spec_key(),
            match r {
                Ok(e) => spec_parse_entry(old(self).plain(), old(self).spec_pos()) == Some(
                    (e@, final(self).spec_pos()),
                ),
                Err(_) => spec_parse_entry(old(self).plain(), old(self).spec_pos()) is None,
            },
    {
        let ghost s = self.plain();
        let ghost pos0 = self.spec_pos();
        let chunks_offset = match self.reader.read_u32() {
            Some(x) => x,
            None => {
                return Err(FormatError::Truncated);
            },
        };
        let chunk_count = match self.reader.read_u32() {
            Some(x) => x,
            None => {
                return Err(FormatError::Truncated);
            },
        };
        let decompressed_length = match self.reader.read_u32() {
            Some(x) => x,
            None => {
                return Err(FormatError::Truncated);
            },
        };
        let path_len = match self.reader.read_u32() {
            Some(x) => x,
            None => {
                return Err(FormatError::Truncated);
            },
        };
        let path_bytes = match self.reader.read_exact(path_len as usize) {
            Some(v) => v,
            None => {
                return Err(FormatError::Truncated);
            },
        };
        let path = match string_from_utf8(path_bytes) {
            Some(p) => p,
            None => {
                return Err(FormatError::BadPath);
            },
        };
        let e = Entry { chunks_offset, chunk_count, decompressed_length, path };
        proof {
            old(self).reader.lemma_pos_nonneg();
            let plen = path_len as int;
            assert(pos0 + 16 + plen <= s.len());
            let pb = s.subrange(pos0 + 16, pos0 + 16 + plen);
            lemma_string_from_utf8_chars(pb, e.path@);
            assert(crate::agt::le32_at(s, pos0) == chunks_offset);
            assert(crate::agt::le32_at(s, pos0 + 4) == chunk_count);
            assert(crate::agt::le32_at(s, pos0 + 8) == decompressed_length);
            assert(crate::agt::le32_at(s, pos0 + 12) == path_len);
            assert(vstd::utf8::valid_utf8(pb));
            assert(vstd::utf8::decode_utf8(pb) == e@.path);
            assert(self.spec_pos() == pos0 + 16 + plen);
            assert(spec_parse_entry(s, pos0) == Some((e@, self.spec_pos())));
        }
        Ok(e)
    }

    /// The reader's current position (directory records are consecutive).
    pub closed spec fn spec_pos(&self) -> int {
        self.reader.spec_pos()
    }

    /// Parse `file_count` directory records starting right after the
    /// header.
    pub fn read_entries(&mut self, file_count: u32) -> (r: Result<Vec<Entry>, FormatError>)
        requires
            old(self).wf(),
        ensures
            final(self).wf(),
            final(self).plain() == old(self).plain(),
            final(self).spec_key() == old(self).spec_key(),
            match r {
                Ok(v) => {
                    &&& spec_parse_entries(
                        old(self).plain(),
                        HEADER_LEN as int,
                        file_count as nat,
                    ) == Some(v@.map_values(|e: Entry| e@))
                    &&& v@.len() == file_count as int
                },
                Err(_) => spec_parse_entries(
                    old(self).plain(),
                    HEADER_LEN as int,
                    file_count as nat,
                ) is None,
            },
    {
        let ghost s = self.plain();
        self.reader.seek_to(HEADER_LEN);
        let mut entries: Vec<Entry> = Vec::new();
        let mut i: u32 = 0;
        proof {
            if spec_parse_entries(s, HEADER_LEN as int, file_count as nat) is Some {
                let all = spec_parse_entries(s, HEADER_LEN as int, file_count as nat).unwrap();
                assert(entries@.map_values(|e: Entry| e@) =~= Seq::<EntryV>::empty());
                assert(entries@.map_values(|e: Entry| e@) + all =~= all);
            }
        }
        while i < file_count
            invariant
                self.wf(),
                s == old(self).plain(),
                self.plain() == s,
                self.spec_key() == old(self).spec_key(),
                0 <= i <= file_count,
                entries@.len() == i as int,
                spec_parse_entries(s, HEADER_LEN as int, file_count as nat) matches Some(all)
                    ==> spec_parse_entries(s, self.spec_pos(), (file_count - i) as nat) matches
                    Some(rest) && all == entries@.map_values(|e: Entry| e@) + rest,
                (spec_parse_entries(s, self.spec_pos(), (file_count - i) as nat) is None)
                    <==> (spec_parse_entries(s, HEADER_LEN as int, file_count as nat) is None),
            decreases file_count - i,
        {
            let ghost pos_before = self.spec_pos();
            let ghost entries_before = entries@;
            let e = match self.read_entry() {
                Ok(e) => e,
                Err(err) => {
                    proof {
                        assert(spec_parse_entries(s, pos_before, (file_count - i) as nat) is None);
                    }
                    return Err(err);
                },
            };
            entries.push(e);
            i = i + 1;
            proof {
                let ghost m0 = entries_before.map_values(|e: Entry| e@);
                let ghost m1 = entries@.map_values(|e: Entry| e@);
                assert(entries@ == entries_before.push(e));
                assert(m1 =~= m0 + seq![e@]) by {
                    assert forall|k: int| 0 <= k < m1.len() implies m1[k] == (m0 + seq![e@])[k] by {
                        if k < m0.len() {
                            assert(entries@[k] == entries_before[k]);
                        } else {
                            assert(entries@[k] == e);
                        }
                    }
                }
                if spec_parse_entries(s, HEADER_LEN as int, file_count as nat) is Some {
                    let all = spec_parse_entries(s, HEADER_LEN as int, file_count as nat).unwrap();
                    let rest0 = spec_parse_entries(
                        s,
                        pos_before,
                        (file_count - (i - 1)) as nat,
                    ).unwrap();
                    let rest1 = spec_parse_entries(s, self.spec_pos(), (file_count - i) as nat);
                    assert(rest1 is Some);
                    assert(rest0 == seq![e@] + rest1.unwrap());
                    assert(all =~= m1 + rest1.unwrap());
                } else {
                    assert(spec_parse_entries(s, pos_before, (file_count - (i - 1)) as nat)
                        is None);
                    assert(spec_parse_entry(s, pos_before) is Some);
                    assert(spec_parse_entries(s, self.spec_pos(), (file_count - i) as nat)
                        is None);
                }
            }
        }
        proof {
            assert(spec_parse_entries(s, self.spec_pos(), 0) == Some(Seq::<EntryV>::empty()));
            if spec_parse_entries(s, HEADER_LEN as int, file_count as nat) is Some {
                let all = spec_parse_entries(s, HEADER_LEN as int, file_count as nat).unwrap();
                assert(all =~= entries@.map_values(|e: Entry| e@));
            } else {
                assert(false);
            }
        }
        Ok(entries)
    }

    /// Read and decompress the payload of one entry: seek to its data
    /// offset, read the chunk-length table, inflate each chunk in order.
    pub fn read_entry_data(&mut self, entry: &Entry) -> (r: Result<Vec<u8>, DecodeError>)
        requires
            old(self).wf(),
        ensures
            final(self).wf(),
            final(self).plain() == old(self).plain(),
            final(self).spec_key() == old(self).spec_key(),
            match r {
                Ok(v) => spec_entry_data(old(self).plain(), entry@) == Some(v@),
                Err(_) => spec_entry_data(old(self).plain(), entry@) is None,
            },
    {
        let ghost s = self.plain();
        let off = entry.chunks_offset as usize;
        let n = entry.chunk_count;
        if n == 0 {
            let empty: Vec<u8> = Vec::new();
            proof {
                assert(spec_entry_data(s, entry@) == Some(Seq::<u8>::empty()));
                assert(empty@ =~= Seq::<u8>::empty());
            }
            return Ok(empty);
        }
        self.reader.seek_to(off);
        let mut lens: Vec<u16> = Vec::new();
        let mut i: u32 = 0;
        while i < n
            invariant
                self.wf(),
                s == old(self).plain(),
                self.plain() == s,
                self.spec_key() == old(self).spec_key(),
                0 <= i <= n,
                n >= 1,
                n == entry.chunk_count,
                off == entry.chunks_offset as int,
                self.spec_pos() == off + 2 * i,
                i == 0 || off + 2 * i <= s.len(),
                lens@.len() == i as int,
                forall|k: int|
                    0 <= k < i ==> lens@[k] == crate::agt::le16_at(s, off + 2 * k),
            decreases n - i,
        {
            let l = match self.reader.read_u16() {
                Some(l) => l,
                None => {
                    proof {
                        assert(off + 2 * (i as int) + 2 > s.len());
                        assert(off + 2 * (n as int) > s.len());
                        assert(spec_entry_data(s, entry@) is None);
                    }
                    return Err(DecodeError::Truncated);
                },
            };
            lens.push(l);
            i = i + 1;
        }
        proof {
            assert(lens@ =~= crate::agt::spec_chunk_lengths(s, off as int, n as nat));
            assert(off + 2 * (n as int) <= s.len());
        }
        let ghost table_lens = lens@;
        let ghost data_start = self.spec_pos();
        let mut out: Vec<u8> = Vec::new();
        let mut j: u32 = 0;
        proof {
            assert(table_lens.skip(0) =~= table_lens);
            if crate::agt::spec_read_chunks(s, data_start, table_lens) is Some {
                let rest = crate::agt::spec_read_chunks(s, data_start, table_lens).unwrap();
                assert(out@ + rest =~= rest);
            }
        }
        while j < n
            invariant
                self.wf(),
                s == old(self).plain(),
                self.plain() == s,
                self.spec_key() == old(self).spec_key(),
                0 <= j <= n,
                n >= 1,
                n == entry.chunk_count,
                lens@ == table_lens,
                table_lens.len() == n as int,
                table_lens == crate::agt::spec_chunk_lengths(s, entry.chunks_offset as int, n as nat),
                entry.chunks_offset as int + 2 * (n as int) <= s.len(),
                data_start == entry.chunks_offset as int + 2 * (n as int),
                self.spec_pos() >= 0,
                match crate::agt::spec_read_chunks(s, self.spec_pos(), table_lens.skip(j as int)) {
                    Some(rest) => crate::agt::spec_read_chunks(s, data_start, table_lens) == Some(
                        out@ + rest,
                    ),
                    None => crate::agt::spec_read_chunks(s, data_start, table_lens) is None,
                },
            decreases n - j,
        {
            let ghost cur = self.spec_pos();
            let ghost tail = table_lens.skip(j as int);
            proof {
                assert(tail.len() == n - j);
                assert(tail[0] == table_lens[j as int]);
                assert(tail.skip(1) =~= table_lens.skip(j as int + 1));
            }
            let l = lens[j as usize];
            let chunk = match self.reader.read_exact(l as usize) {
                Some(c) => c,
                None => {
                    proof {
                        assert(cur + tail[0] as int > s.len());
                        assert(crate::agt::spec_read_chunks(s, cur, tail) is None);
                        assert(crate::agt::spec_read_chunks(s, data_start, table_lens) is None);
                        assert(spec_entry_data(s, entry@) is None);
                    }
                    return Err(DecodeError::Truncated);
                },
            };
            let mut inflated = match inflate_chunk(chunk.as_slice()) {
                Some(d) => d,
                None => {
                    proof {
                        assert(chunk@ == s.subrange(cur, cur + tail[0] as int));
                        assert(crate::agt::spec_read_chunks(s, cur, tail) is None);
                        assert(crate::agt::spec_read_chunks(s, data_start, table_lens) is None);
                        assert(spec_entry_data(s, entry@) is None);
                    }
                    return Err(DecodeError::BadChunk);
                },
            };
            let ghost out_before = out@;
            let ghost inflated_view = inflated@;
            out.append(&mut inflated);
            j = j + 1;
            proof {
                assert(chunk@ == s.subrange(cur, cur + tail[0] as int));
                assert(out@ == out_before + inflated_view);
                let rest1 = crate::agt::spec_read_chunks(s, self.spec_pos(), table_lens.skip(j as int));
                match rest1 {
                    Some(r1) => {
                        assert(crate::agt::spec_read_chunks(s, cur, tail) == Some(
                            inflated_view + r1,
                        ));
                        assert(out_before + (inflated_view + r1) =~= out@ + r1);
                    },
                    None => {
                        assert(crate::agt::spec_read_chunks(s, cur, tail) is None);
                    },
                }
            }
        }
        proof {
            assert(table_lens.skip(n as int) =~= Seq::<u16>::empty());
            assert(crate::agt::spec_read_chunks(s, self.spec_pos(), table_lens.skip(n as int))
                == Some(Seq::<u8>::empty()));
            assert(out@ + Seq::<u8>::empty() =~= out@);
            assert(crate::agt::spec_read_chunks(s, data_start, table_lens) == Some(out@));
            assert(spec_entry_data(s, entry@) == Some(out@));
        }
        Ok(out)
    }
}

} // verus!
