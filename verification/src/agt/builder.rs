//! Archive building.
//!
//! Entries are path → payload associations with last-write-wins semantics,
//! kept sorted by the UTF-8 form of the path.  `write` serializes the
//! directory with placeholder data offsets, deflates and writes each
//! payload in 16 KiB chunks behind its chunk-length table, then resolves
//! every placeholder — and its contract states that reading the result back
//! yields every original payload.

use vstd::prelude::*;

use crate::agt::{
    spec_entry_bytes, spec_entry_data, spec_entry_len, spec_header_bytes, spec_lens_bytes,
    spec_parse_entries, spec_parse_header, spec_table_bytes, BuildError, Entry, EntryV, Header,
};
use crate::cipher::apply_keystream;
use crate::strings::{bytes_lt, compare_bytes, lemma_bytes_lt_asymmetric, lemma_bytes_lt_irreflexive};
use crate::zlib::{chunk_count, chunk_count_of, chunk_slices, concat_all, deflate_chunk, deflate_of};
use vstd::utf8::encode_utf8;

verus! {

/// Where an entry's raw bytes come from.
pub enum AgtBuilderEntrySource {
    /// The entry is taken from an in-memory buffer.
    Memory { data: Vec<u8> },
}

impl AgtBuilderEntrySource {
    /// The raw payload bytes of this source.
    pub open spec fn spec_data(&self) -> Seq<u8> {
        match self {
            AgtBuilderEntrySource::Memory { data } => data@,
        }
    }

    /// The provisional directory record for this source: the data offset is
    /// not known yet, the chunk count is `ceil(len / 16384)`.
    pub fn entry(&self, path: String) -> (r: Entry)
        requires
            self.spec_data().len() <= u32::MAX,
        ensures
            r@ == placeholder_entry(path@, self.spec_data()),
    {
        match self {
            AgtBuilderEntrySource::Memory { data } => Entry {
                chunks_offset: 0,
                chunk_count: chunk_count(data.len()) as u32,
                decompressed_length: data.len() as u32,
                path,
            },
        }
    }
}

/// The directory record written during the first pass, before the entry's
/// data offset is known.
pub open spec fn placeholder_entry(p: Seq<char>, d: Seq<u8>) -> EntryV {
    EntryV {
        chunks_offset: 0,
        chunk_count: chunk_count_of(d.len()) as u32,
        decompressed_length: d.len() as u32,
        path: p,
    }
}

/// The directory record after its data offset has been resolved.
pub open spec fn final_entry(p: Seq<char>, d: Seq<u8>, off: u32) -> EntryV {
    EntryV {
        chunks_offset: off,
        chunk_count: chunk_count_of(d.len()) as u32,
        decompressed_length: d.len() as u32,
        path: p,
    }
}

/// Inserting `(p, d)` into a path-sorted association list: an entry with
/// the same path is replaced, otherwise the pair enters at its sorted
/// position.
pub open spec fn spec_add(
    es: Seq<(Seq<char>, Seq<u8>)>,
    p: Seq<char>,
    d: Seq<u8>,
) -> Seq<(Seq<char>, Seq<u8>)>
    decreases es.len(),
{
    if es.len() == 0 {
        seq![(p, d)]
    } else if bytes_lt(encode_utf8(p), encode_utf8(es[0].0)) {
        seq![(p, d)] + es
    } else if encode_utf8(p) == encode_utf8(es[0].0) {
        seq![(p, d)] + es.skip(1)
    } else {
        seq![es[0]] + spec_add(es.skip(1), p, d)
    }
}

/// Builds an archive from in-memory entries.
pub struct AgtBuilder {
    entry_sources: Vec<(String, Vec<u8>)>,
}

impl AgtBuilder {
    /// The path → payload associations, in path-sorted order.
    pub closed spec fn entries(&self) -> Seq<(Seq<char>, Seq<u8>)> {
        self.entry_sources@.map_values(|pd: (String, Vec<u8>)| (pd.0@, pd.1@))
    }

    /// The associations are strictly sorted by the paths' UTF-8 form; in
    /// particular every path occurs once.
    pub closed spec fn wf(&self) -> bool {
        forall|k: int|
            0 <= k < self.entries().len() - 1 ==> bytes_lt(
                encode_utf8(#[trigger] self.entries()[k].0),
                encode_utf8(self.entries()[k + 1].0),
            )
    }

    pub fn new() -> (r: AgtBuilder)
        ensures
            r.wf(),
            r.entries() == Seq::<(Seq<char>, Seq<u8>)>::empty(),
    {
        let r = AgtBuilder { entry_sources: Vec::new() };
        proof {
            assert(r.entries() =~= Seq::<(Seq<char>, Seq<u8>)>::empty());
        }
        r
    }

    /// Add an entry from memory; a later entry under the same path replaces
    /// the earlier one.
    #[verifier::rlimit(60)]
    pub fn add_entry_memory(&mut self, path: String, data: &[u8])
        requires
            old(self).wf(),
        ensures
            final(self).wf(),
            final(self).entries() == spec_add(old(self).entries(), path@, data@),
    {
        let ghost es = self.entries();
        let pb = path.as_str().as_bytes_vec();
        proof {
            assert(pb@ == encode_utf8(path@));
        }
        let n = self.entry_sources.len();
        let mut i: usize = 0;
        proof {
            assert(es.take(0) =~= Seq::<(Seq<char>, Seq<u8>)>::empty());
            assert(es.skip(0) =~= es);
            assert(es.take(0) + spec_add(es.skip(0), path@, data@) =~= spec_add(es, path@, data@));
        }
        while i < n
            invariant
                self == old(self),
                es == self.entries(),
                self.wf(),
                pb@ == encode_utf8(path@),
                n == es.len(),
                0 <= i <= n,
                forall|k: int|
                    0 <= k < i ==> bytes_lt(encode_utf8(#[trigger] es[k].0), encode_utf8(path@)),
                spec_add(es, path@, data@) == es.take(i as int) + spec_add(
                    es.skip(i as int),
                    path@,
                    data@,
                ),
            decreases n - i,
        {
            let sb = self.entry_sources[i].0.as_str().as_bytes_vec();
            proof {
                assert(sb@ == encode_utf8(es[i as int].0));
            }
            let c = compare_bytes(&sb, &pb);
            if c == 1 {
                // Same path: replace the payload (last write wins).
                self.entry_sources[i] = (path, vstd::slice::slice_to_vec(data));
                proof {
                    let target = spec_add(es, path@, data@);
                    let tail = es.skip(i as int);
                    assert(tail[0] == es[i as int]);
                    assert(encode_utf8(path@) == encode_utf8(es[i as int].0));
                    lemma_bytes_lt_irreflexive(encode_utf8(path@));
                    assert(tail.skip(1) =~= es.skip(i as int + 1));
                    assert(spec_add(tail, path@, data@) == seq![(path@, data@)] + es.skip(
                        i as int + 1,
                    ));
                    assert(self.entries() =~= es.take(i as int) + (seq![(path@, data@)] + es.skip(
                        i as int + 1,
                    ))) by {
                        assert forall|k: int|
                            0 <= k < self.entries().len() implies self.entries()[k] == (es.take(
                            i as int,
                        ) + (seq![(path@, data@)] + es.skip(i as int + 1)))[k] by {
                            if k != i as int {
                                assert(self.entry_sources@[k] == old(self).entry_sources@[k]);
                            }
                        }
                    }
                    assert(self.entries() == target);
                    assert forall|k: int|
                        0 <= k < self.entries().len() - 1 implies bytes_lt(
                        encode_utf8(#[trigger] self.entries()[k].0),
                        encode_utf8(self.entries()[k + 1].0),
                    ) by {
                        assert(bytes_lt(encode_utf8(es[k].0), encode_utf8(es[k + 1].0)));
                        if k == i as int {
                            assert(self.entries()[k].0 == path@);
                            assert(self.entries()[k + 1] == es[k + 1]);
                        } else if k + 1 == i as int {
                            assert(self.entries()[k] == es[k]);
                            assert(self.entries()[k + 1].0 == path@);
                        } else {
                            assert(self.entries()[k] == es[k]);
                            assert(self.entries()[k + 1] == es[k + 1]);
                        }
                    }
                }
                return ;
            }
            if c == 2 {
                // The new path comes first here: insert before position i.
                proof {
                    assert(bytes_lt(pb@, sb@));
                }
                self.entry_sources.insert(i, (path, vstd::slice::slice_to_vec(data)));
                proof {
                    let target = spec_add(es, path@, data@);
                    let tail = es.skip(i as int);
                    assert(tail[0] == es[i as int]);
                    assert(bytes_lt(encode_utf8(path@), encode_utf8(es[i as int].0)));
                    lemma_bytes_lt_asymmetric(encode_utf8(path@), encode_utf8(es[i as int].0));
                    assert(spec_add(tail, path@, data@) == seq![(path@, data@)] + tail);
                    assert(self.entries() =~= es.take(i as int) + (seq![(path@, data@)] + es.skip(
                        i as int,
                    ))) by {
                        assert forall|k: int|
                            0 <= k < self.entries().len() implies self.entries()[k] == (es.take(
                            i as int,
                        ) + (seq![(path@, data@)] + es.skip(i as int)))[k] by {
                            if k < i as int {
                                assert(self.entry_sources@[k] == old(self).entry_sources@[k]);
                            } else if k > i as int {
                                assert(self.entry_sources@[k] == old(self).entry_sources@[k - 1]);
                            }
                        }
                    }
                    assert(self.entries() == target);
                    assert forall|k: int|
                        0 <= k < self.entries().len() - 1 implies bytes_lt(
                        encode_utf8(#[trigger] self.entries()[k].0),
                        encode_utf8(self.entries()[k + 1].0),
                    ) by {
                        if k + 1 < i as int {
                            assert(self.entries()[k] == es[k]);
                            assert(self.entries()[k + 1] == es[k + 1]);
                            assert(bytes_lt(encode_utf8(es[k].0), encode_utf8(es[k + 1].0)));
                        } else if k + 1 == i as int {
                            assert(self.entries()[k] == es[k]);
                            assert(self.entries()[k + 1].0 == path@);
                            assert(bytes_lt(encode_utf8(es[k].0), encode_utf8(path@)));
                        } else if k == i as int {
                            assert(self.entries()[k].0 == path@);
                            assert(self.entries()[k + 1] == es[k]);
                            assert(bytes_lt(encode_utf8(path@), encode_utf8(es[i as int].0)));
                        } else {
                            assert(self.entries()[k] == es[k - 1]);
                            assert(self.entries()[k + 1] == es[k]);
                            assert(bytes_lt(encode_utf8(es[k - 1].0), encode_utf8(es[k].0)));
                        }
                    }
                }
                return ;
            }
            proof {
                lemma_bytes_lt_asymmetric(sb@, pb@);
                let tail = es.skip(i as int);
                assert(tail[0] == es[i as int]);
                assert(tail.skip(1) =~= es.skip(i as int + 1));
                assert(spec_add(tail, path@, data@) == seq![es[i as int]] + spec_add(
                    es.skip(i as int + 1),
                    path@,
                    data@,
                ));
                assert(es.take(i as int) + (seq![es[i as int]] + spec_add(
                    es.skip(i as int + 1),
                    path@,
                    data@,
                )) =~= es.take(i as int + 1) + spec_add(es.skip(i as int + 1), path@, data@));
            }
            i = i + 1;
        }
        let ghost target = spec_add(es, path@, data@);
        if i == n {
            // Every stored path comes before the new one: append.
            self.entry_sources.push((path, vstd::slice::slice_to_vec(data)));
            proof {
                assert(es.skip(n as int) =~= Seq::<(Seq<char>, Seq<u8>)>::empty());
                assert(spec_add(es.skip(n as int), path@, data@) == seq![(path@, data@)]);
                assert(self.entries() =~= es.take(n as int) + seq![(path@, data@)]) by {
                    assert forall|k: int| 0 <= k < self.entries().len() implies self.entries()[k]
                        == (es.take(n as int) + seq![(path@, data@)])[k] by {
                        if k < n as int {
                            assert(self.entry_sources@[k] == old(self).entry_sources@[k]);
                        }
                    }
                }
                assert(self.entries() == target);
                assert forall|k: int|
                    0 <= k < self.entries().len() - 1 implies bytes_lt(
                    encode_utf8(#[trigger] self.entries()[k].0),
                    encode_utf8(self.entries()[k + 1].0),
                ) by {
                    if k + 1 < n as int {
                        assert(es[k] == self.entries()[k]);
                        assert(es[k + 1] == self.entries()[k + 1]);
                    } else {
                        assert(self.entries()[k] == es[k]);
                        assert(bytes_lt(encode_utf8(es[k].0), encode_utf8(path@)));
                    }
                }
            }
            return ;
        }
    }

    /// Serialize the archive: header, directory with placeholder offsets,
    /// per-entry chunk data, then resolve every placeholder.  On success,
    /// deciphering the returned bytes yields an image whose header carries
    /// this entry count and whose directory and chunk data decode back to
    /// exactly the payloads that were added; the build succeeds if and only
    /// if every fixed-width field of the format can hold this entry set.
    pub fn write(self, cipher: &[u8]) -> (r: Result<Vec<u8>, BuildError>)
        requires
            self.wf(),
            cipher@.len() > 0,
        ensures
            ({
                let es = self.entries();
                &&& (r is Ok <==> spec_fits(es))
                &&& match r {
                    Ok(out) => ({
                        let plain = apply_keystream(cipher@, out@);
                        &&& spec_parse_header(plain) == Some(
                            Header {
                                what: 0,
                                version: (1u16, 1u16),
                                file_count: es.len() as u32,
                                what2: 0,
                                what3: 0,
                                what4: 0,
                            },
                        )
                        &&& spec_parse_entries(plain, 32, es.len()) matches Some(ev)
                            && ev.len() == es.len() && (forall|i: int|
                            0 <= i < es.len() ==> {
                                &&& (#[trigger] ev[i]).path == es[i].0
                                &&& ev[i].decompressed_length == es[i].1.len()
                                &&& ev[i].chunk_count == chunk_count_of(es[i].1.len())
                                &&& spec_entry_data(plain, ev[i]) == Some(es[i].1)
                            })
                    }),
                    Err(BuildError::TooManyEntries) => es.len() > u32::MAX,
                    Err(BuildError::EntryTooLarge) => exists|i: int|
                        0 <= i < es.len() && (#[trigger] es[i]).1.len() > u32::MAX,
                    Err(BuildError::PathTooLong) => exists|i: int|
                        0 <= i < es.len() && encode_utf8((#[trigger] es[i]).0).len() > u32::MAX,
                    Err(BuildError::OversizedChunk) => exists|i: int|
                        0 <= i < es.len() && !chunks_fit((#[trigger] es[i]).1),
                    Err(BuildError::ArchiveTooLarge) => spec_archive_len(es) > u32::MAX,
                }
            }),
    {
        let ghost es = self.entries();
        let n = self.entry_sources.len();
        if n > u32::MAX as usize {
            return Err(BuildError::TooManyEntries);
        }
        let mut w = crate::stream::XorWriter::new(vstd::slice::slice_to_vec(cipher));
        let header = Header {
            what: 0,
            version: (1, 1),
            file_count: n as u32,
            what2: 0,
            what3: 0,
            what4: 0,
        };
        let hb = crate::agt::header_to_bytes(&header);
        w.write_all(hb.as_slice());
        proof {
            crate::stream::lemma_spec_write_append(Seq::<u8>::empty(), hb@);
            assert(Seq::<u8>::empty() + hb@ =~= hb@);
            assert(es.take(0) =~= Seq::<(Seq<char>, Seq<u8>)>::empty());
            assert(entries_placeholder(es.take(0)) =~= Seq::<EntryV>::empty());
            assert(hb@ + spec_table_bytes(entries_placeholder(es.take(0))) =~= hb@);
        }
        // First pass: one placeholder directory record per entry, recording
        // each record's absolute position.
        let mut entry_offsets: Vec<usize> = Vec::new();
        let mut i: usize = 0;
        while i < n
            invariant
                es == self.entries(),
                n == es.len(),
                n <= u32::MAX,
                cipher@.len() > 0,
                w.wf(),
                w.spec_key() == cipher@,
                header == (Header {
                    what: 0,
                    version: (1u16, 1u16),
                    file_count: n as u32,
                    what2: 0,
                    what3: 0,
                    what4: 0,
                }),
                0 <= i <= n,
                entry_offsets@.len() == i as int,
                forall|k: int|
                    0 <= k < i ==> (#[trigger] entry_offsets@[k]) as int == 32 + spec_dir_len(
                        es.take(k),
                    ),
                forall|k: int| 0 <= k < i ==> (#[trigger] es[k]).1.len() <= u32::MAX,
                forall|k: int| 0 <= k < i ==> encode_utf8((#[trigger] es[k]).0).len() <= u32::MAX,
                w.plain() == spec_header_bytes(header) + spec_table_bytes(
                    entries_placeholder(es.take(i as int)),
                ),
                w.spec_pos() == w.plain().len(),
                w.plain().len() == 32 + spec_dir_len(es.take(i as int)),
                w.plain().len() <= u32::MAX,
            decreases n - i,
        {
            let dlen = self.entry_sources[i].1.len();
            if dlen > u32::MAX as usize {
                return Err(BuildError::EntryTooLarge);
            }
            let pb = self.entry_sources[i].0.as_str().as_bytes_vec();
            proof {
                assert(pb@ == encode_utf8(es[i as int].0));
            }
            if pb.len() > u32::MAX as usize {
                return Err(BuildError::PathTooLong);
            }
            let cc = chunk_count(dlen);
            let rec = entry_record(&pb, cc as u32, dlen as u32);
            let pos = w.position();
            if rec.len() > u32::MAX as usize - pos {
                proof {
                    lemma_dir_len_lower(es, i as int);
                    assert(rec@.len() == spec_entry_len(es[i as int].0));
                    assert(spec_archive_len(es) >= 32 + spec_dir_len(es.take(i as int))
                        + spec_entry_len(es[i as int].0));
                    assert(spec_archive_len(es) > u32::MAX);
                }
                return Err(BuildError::ArchiveTooLarge);
            }
            entry_offsets.push(pos);
            let ghost plain0 = w.plain();
            w.write_all(rec.as_slice());
            proof {
                crate::stream::lemma_spec_write_append(plain0, rec@);
                let pe = placeholder_entry(es[i as int].0, es[i as int].1);
                assert(rec@ =~= spec_entry_bytes(pe));
                assert(es.take(i as int + 1) =~= es.take(i as int).push(es[i as int]));
                assert(entries_placeholder(es.take(i as int + 1)) =~= entries_placeholder(
                    es.take(i as int),
                ).push(pe)) by {
                    assert forall|q: int|
                        0 <= q < i as int + 1 implies (#[trigger] entries_placeholder(
                        es.take(i as int + 1),
                    )[q]) == entries_placeholder(es.take(i as int)).push(pe)[q] by {
                        assert(es.take(i as int + 1)[q] == es[q]);
                        if q < i as int {
                            assert(es.take(i as int)[q] == es[q]);
                        }
                    }
                }
                lemma_table_bytes_push(entries_placeholder(es.take(i as int)), pe);
                assert(plain0 + rec@ =~= spec_header_bytes(header) + spec_table_bytes(
                    entries_placeholder(es.take(i as int + 1)),
                ));
                lemma_dir_len_push(es.take(i as int), es[i as int]);
            }
            i = i + 1;
        }
        proof {
            assert(es.take(n as int) =~= es);
        }
        // Second pass: per entry, record the data offset, reserve the
        // chunk-length table, deflate and write each 16 KiB slice, then
        // backfill the table.
        let ghost base = w.plain();
        let mut data_offsets: Vec<usize> = Vec::new();
        let mut i: usize = 0;
        proof {
            assert(spec_payload_bytes(es.take(0)) =~= Seq::<u8>::empty());
            assert(base + Seq::<u8>::empty() =~= base);
        }
        while i < n
            invariant
                es == self.entries(),
                n == es.len(),
                n <= u32::MAX,
                cipher@.len() > 0,
                w.wf(),
                w.spec_key() == cipher@,
                0 <= i <= n,
                base == spec_header_bytes(Header {
                    what: 0,
                    version: (1u16, 1u16),
                    file_count: n as u32,
                    what2: 0,
                    what3: 0,
                    what4: 0,
                }) + spec_table_bytes(entries_placeholder(es)),
                base.len() == 32 + spec_dir_len(es),
                data_offsets@.len() == i as int,
                forall|k: int|
                    0 <= k < i ==> (#[trigger] data_offsets@[k]) as int == base.len()
                        + spec_payload_bytes(es.take(k)).len(),
                forall|k: int| 0 <= k < i ==> (#[trigger] data_offsets@[k]) <= u32::MAX,
                forall|k: int| 0 <= k < i ==> chunks_fit((#[trigger] es[k]).1),
                forall|k: int| 0 <= k < i ==> chunks_invert((#[trigger] es[k]).1),
                forall|k: int| 0 <= k < n ==> (#[trigger] es[k]).1.len() <= u32::MAX,
                forall|k: int| 0 <= k < n ==> encode_utf8((#[trigger] es[k]).0).len() <= u32::MAX,
                w.plain() == base + spec_payload_bytes(es.take(i as int)),
                w.spec_pos() == w.plain().len(),
                w.plain().len() <= u32::MAX,
            decreases n - i,
        {
            let d_i = w.position();
            data_offsets.push(d_i);
            let dlen = self.entry_sources[i].1.len();
            let ghost data = es[i as int].1;
            let ghost slices = chunk_slices(data);
            let ghost comps = spec_chunks_of(data);
            proof {
                crate::zlib::lemma_chunk_slices(data);
                lemma_section_len(data);
                lemma_payload_split(es, i as int);
                assert(es.skip(i as int)[0] == es[i as int]);
                assert(es.skip(i as int).skip(1) =~= es.skip(i as int + 1));
                assert(spec_payload_bytes(es.skip(i as int)) == spec_section_bytes(data)
                    + spec_payload_bytes(es.skip(i as int + 1)));
            }
            let cc = chunk_count(dlen);
            if cc > u32::MAX as usize / 2 {
                proof {
                    assert(2 * chunk_count_of(data.len()) > u32::MAX);
                    lemma_archive_lower_section(es, i as int);
                }
                return Err(BuildError::ArchiveTooLarge);
            }
            let tbl = 2 * cc;
            if tbl > u32::MAX as usize - d_i {
                proof {
                    lemma_archive_lower_section(es, i as int);
                    assert(spec_archive_len(es) >= d_i as int + spec_section_bytes(data).len());
                }
                return Err(BuildError::ArchiveTooLarge);
            }
            // Reserve the chunk-length table; it is backfilled below.
            let zeros: Vec<u8> = vec![0u8; tbl];
            let ghost p0 = w.plain();
            w.write_all(zeros.as_slice());
            proof {
                crate::stream::lemma_spec_write_append(p0, zeros@);
                assert(comps.take(0) =~= Seq::<Seq<u8>>::empty());
                assert((p0 + zeros@) + concat_all(comps.take(0)) =~= p0 + zeros@);
                assert(data.skip(0) =~= data);
                assert(slices.skip(0) =~= chunk_slices(data.skip(0)));
            }
            let mut lens: Vec<u16> = Vec::new();
            let mut off: usize = 0;
            while off < dlen
                invariant
                    es == self.entries(),
                    n == es.len(),
                    0 <= i < n,
                    cipher@.len() > 0,
                    w.wf(),
                    w.spec_key() == cipher@,
                    data == es[i as int].1,
                    dlen == data.len(),
                    dlen <= u32::MAX,
                    slices == chunk_slices(data),
                    comps == spec_chunks_of(data),
                    slices.len() == chunk_count_of(data.len()),
                    forall|q: int|
                        0 <= q < slices.len() ==> 0 < (#[trigger] slices[q]).len()
                            <= crate::zlib::CHUNK_SIZE as int,
                    concat_all(slices) == data,
                    tbl == 2 * chunk_count_of(data.len()),
                    0 <= off <= dlen,
                    lens@.len() <= slices.len(),
                    slices.skip(lens@.len() as int) == chunk_slices(data.skip(off as int)),
                    off as int == data.len() - data.skip(off as int).len(),
                    forall|q: int|
                        0 <= q < lens@.len() ==> (#[trigger] lens@[q]) as int == deflate_of(
                            slices[q],
                        ).len(),
                    forall|q: int|
                        0 <= q < lens@.len() ==> deflate_of(#[trigger] slices[q]).len()
                            <= u16::MAX,
                    forall|q: int|
                        0 <= q < lens@.len() ==> crate::zlib::inflate_of(
                            deflate_of(#[trigger] slices[q]),
                        ) == Some(slices[q]),
                    p0 == base + spec_payload_bytes(es.take(i as int)),
                    p0.len() == d_i as int,
                    w.plain() == (p0 + zeros@) + concat_all(comps.take(lens@.len() as int)),
                    zeros@ == Seq::new(tbl as nat, |q: int| 0u8),
                    w.spec_pos() == w.plain().len(),
                    w.plain().len() <= u32::MAX,
                    spec_payload_bytes(es) == spec_payload_bytes(es.take(i as int))
                        + spec_payload_bytes(es.skip(i as int)),
                    spec_payload_bytes(es.skip(i as int)) == spec_section_bytes(data)
                        + spec_payload_bytes(es.skip(i as int + 1)),
                    spec_section_bytes(data).len() == 2 * chunk_count_of(data.len())
                        + concat_all(comps).len(),
                    base.len() == 32 + spec_dir_len(es),
                decreases dlen - off,
            {
                let ghost j = lens@.len() as int;
                let take_n = if dlen - off > crate::zlib::CHUNK_SIZE {
                    crate::zlib::CHUNK_SIZE
                } else {
                    dlen - off
                };
                let end = off + take_n;
                let chunk = vstd::slice::slice_subrange(
                    self.entry_sources[i].1.as_slice(),
                    off,
                    end,
                );
                proof {
                    let rem = data.skip(off as int);
                    assert(rem.len() == dlen - off);
                    assert(rem.len() > 0);
                    assert(chunk_slices(rem).len() > 0);
                    assert(j < slices.len());
                    if rem.len() <= crate::zlib::CHUNK_SIZE as int {
                        assert(chunk_slices(rem) == seq![rem]);
                        assert(slices.skip(j)[0] == rem);
                        assert(chunk@ =~= rem);
                        assert(data.skip(end as int) =~= rem.skip(rem.len() as int));
                        assert(chunk_slices(data.skip(end as int)) =~= chunk_slices(rem).skip(1));
                    } else {
                        assert(chunk_slices(rem) == seq![
                            rem.take(crate::zlib::CHUNK_SIZE as int),
                        ] + chunk_slices(rem.skip(crate::zlib::CHUNK_SIZE as int)));
                        assert(slices.skip(j)[0] == rem.take(crate::zlib::CHUNK_SIZE as int));
                        assert(chunk@ =~= rem.take(crate::zlib::CHUNK_SIZE as int));
                        assert(data.skip(end as int) =~= rem.skip(crate::zlib::CHUNK_SIZE as int));
                        assert(chunk_slices(rem).skip(1) =~= chunk_slices(
                            rem.skip(crate::zlib::CHUNK_SIZE as int),
                        ));
                    }
                    assert(slices.skip(j)[0] == slices[j]);
                    assert(chunk@ == slices[j]);
                    assert(slices.skip(j).skip(1) =~= slices.skip(j + 1));
                    assert(slices.skip(j + 1) == chunk_slices(data.skip(end as int)));
                }
                let comp = deflate_chunk(chunk);
                if comp.len() > 65535 {
                    proof {
                        assert(deflate_of(slices[j]).len() > u16::MAX);
                        assert(!chunks_fit(data));
                    }
                    return Err(BuildError::OversizedChunk);
                }
                let cpos = w.position();
                if comp.len() > u32::MAX as usize - cpos {
                    proof {
                        lemma_concat_all_split(comps, j);
                        assert(comps.skip(j)[0] == comps[j]);
                        assert(comps.skip(j).skip(1) =~= comps.skip(j + 1));
                        assert(concat_all(comps.skip(j)) == comps[j] + concat_all(
                            comps.skip(j + 1),
                        ));
                        assert(comps[j] == deflate_of(slices[j]));
                        assert(concat_all(comps).len() >= concat_all(comps.take(j)).len()
                            + comps[j].len());
                        assert(spec_archive_len(es) == base.len() + spec_payload_bytes(es).len());
                        assert(spec_payload_bytes(es).len() >= spec_payload_bytes(
                            es.take(i as int),
                        ).len() + spec_section_bytes(data).len());
                        assert(spec_archive_len(es) >= cpos as int + comp@.len());
                        assert(spec_archive_len(es) > u32::MAX);
                    }
                    return Err(BuildError::ArchiveTooLarge);
                }
                let ghost pc = w.plain();
                w.write_all(comp.as_slice());
                lens.push(comp.len() as u16);
                off = end;
                proof {
                    crate::stream::lemma_spec_write_append(pc, comp@);
                    assert(comps.take(j + 1) =~= comps.take(j).push(comps[j]));
                    lemma_concat_all_push(comps.take(j), comps[j]);
                    assert(comps[j] == deflate_of(slices[j]));
                    assert(comp@ == comps[j]);
                    assert(pc + comp@ =~= (p0 + zeros@) + concat_all(comps.take(j + 1)));
                }
            }
            proof {
                assert(data.skip(dlen as int) =~= Seq::<u8>::empty());
                assert(chunk_slices(data.skip(dlen as int)) =~= Seq::<Seq<u8>>::empty());
                assert(slices.skip(lens@.len() as int).len() == 0);
                assert(lens@.len() == slices.len());
                assert(lens@ =~= spec_lens_of(data));
                assert(chunks_fit(data));
                assert(chunks_invert(data));
                assert(comps.take(lens@.len() as int) =~= comps);
            }
            // Backfill the chunk-length table.
            let lb = lens_to_bytes(&lens);
            let end_pos = w.position();
            w.seek_to(d_i);
            let ghost pb2 = w.plain();
            w.write_all(lb.as_slice());
            w.seek_to(end_pos);
            proof {
                assert(lb@.len() == tbl as int);
                assert(pb2 == (p0 + zeros@) + concat_all(comps));
                crate::stream::lemma_spec_write_within(pb2, d_i as int, lb@);
                assert(pb2.take(d_i as int) =~= p0);
                assert(pb2.skip(d_i as int + tbl as int) =~= concat_all(comps));
                assert(w.plain() == p0 + lb@ + concat_all(comps));
                assert(p0 + lb@ + concat_all(comps) =~= p0 + spec_section_bytes(data));
                assert(es.take(i as int + 1) =~= es.take(i as int).push(es[i as int]));
                lemma_payload_push(es.take(i as int), es[i as int]);
                assert(p0 + spec_section_bytes(data) =~= base + spec_payload_bytes(
                    es.take(i as int + 1),
                ));
            }
            i = i + 1;
        }
        proof {
            assert(es.take(n as int) =~= es);
        }
        // Third pass: resolve every placeholder data offset in order.
        let ghost payload_all = spec_payload_bytes(es);
        let ghost offs = data_offsets@.map_values(|x: usize| x as u32);
        let ghost hdrb = spec_header_bytes(
            Header {
                what: 0,
                version: (1u16, 1u16),
                file_count: n as u32,
                what2: 0,
                what3: 0,
                what4: 0,
            },
        );
        proof {
            assert(mixed_entries(es, offs, 0) =~= entries_placeholder(es));
            assert(w.plain() == (hdrb + spec_table_bytes(mixed_entries(es, offs, 0)))
                + payload_all);
            assert(hdrb + spec_table_bytes(mixed_entries(es, offs, 0)) + payload_all =~= (hdrb
                + spec_table_bytes(mixed_entries(es, offs, 0))) + payload_all);
        }
        let mut k: usize = 0;
        while k < n
            invariant
                es == self.entries(),
                n == es.len(),
                n <= u32::MAX,
                cipher@.len() > 0,
                w.wf(),
                w.spec_key() == cipher@,
                0 <= k <= n,
                entry_offsets@.len() == n,
                data_offsets@.len() == n,
                offs == data_offsets@.map_values(|x: usize| x as u32),
                offs.len() == n,
                hdrb == spec_header_bytes(Header {
                    what: 0,
                    version: (1u16, 1u16),
                    file_count: n as u32,
                    what2: 0,
                    what3: 0,
                    what4: 0,
                }),
                hdrb.len() == 32,
                forall|q: int|
                    0 <= q < n ==> (#[trigger] entry_offsets@[q]) as int == 32 + spec_dir_len(
                        es.take(q),
                    ),
                forall|q: int|
                    0 <= q < n ==> (#[trigger] data_offsets@[q]) as int == (32 + spec_dir_len(es))
                        + spec_payload_bytes(es.take(q)).len(),
                forall|q: int| 0 <= q < n ==> (#[trigger] data_offsets@[q]) <= u32::MAX,
                forall|q: int| 0 <= q < n ==> encode_utf8((#[trigger] es[q]).0).len() <= u32::MAX,
                forall|q: int| 0 <= q < n ==> (#[trigger] es[q]).1.len() <= u32::MAX,
                forall|q: int| 0 <= q < n ==> chunks_fit((#[trigger] es[q]).1),
                forall|q: int| 0 <= q < n ==> chunks_invert((#[trigger] es[q]).1),
                payload_all == spec_payload_bytes(es),
                w.plain() == hdrb + spec_table_bytes(mixed_entries(es, offs, k as int))
                    + payload_all,
                w.plain().len() == spec_archive_len(es),
                w.plain().len() <= u32::MAX,
            decreases n - k,
        {
            let o_k = entry_offsets[k];
            let dv = data_offsets[k];
            let ghost s_before = w.plain();
            let ghost m0 = mixed_entries(es, offs, k as int);
            proof {
                lemma_dir_len_lower(es, k as int);
                assert(o_k as int + 16 <= 32 + spec_dir_len(es));
                assert(m0.take(k as int).len() == k as int);
                assert forall|q: int|
                    0 <= q < k as int implies (#[trigger] m0.take(k as int)[q]).path
                    == entries_placeholder(es.take(k as int))[q].path by {
                    assert(m0.take(k as int)[q] == m0[q]);
                    assert(es.take(k as int)[q] == es[q]);
                }
                lemma_table_len_same_paths(
                    m0.take(k as int),
                    entries_placeholder(es.take(k as int)),
                );
                assert(o_k as int == hdrb.len() + spec_table_bytes(m0.take(k as int)).len() as int);
            }
            crate::patch::resolve_u32(&mut w, o_k, dv as u32);
            proof {
                assert(offs[k as int] == dv as u32);
                lemma_patch_table_step(es, offs, k as int, hdrb, payload_all, s_before);
                assert(w.plain() == hdrb + spec_table_bytes(
                    mixed_entries(es, offs, k as int + 1),
                ) + payload_all);
                let m1 = mixed_entries(es, offs, k as int + 1);
                assert(m1.len() == entries_placeholder(es).len());
                assert forall|q: int|
                    0 <= q < m1.len() implies (#[trigger] m1[q]).path == entries_placeholder(
                    es,
                )[q].path by {
                }
                lemma_table_len_same_paths(m1, entries_placeholder(es));
                assert(w.plain().len() == spec_archive_len(es));
            }
            k = k + 1;
        }
        // Everything is in place: prove that the image reads back.
        proof {
            let plain = w.plain();
            let hdr = Header {
                what: 0,
                version: (1u16, 1u16),
                file_count: n as u32,
                what2: 0,
                what3: 0,
                what4: 0,
            };
            let ev = mixed_entries(es, offs, n as int);
            let tb = spec_table_bytes(ev);
            assert(plain =~= hdrb + (tb + payload_all));
            crate::agt::lemma_parse_header_roundtrip(hdr, tb + payload_all);
            assert(spec_parse_header(plain) == Some(hdr));
            assert(plain.subrange(32, 32 + tb.len() as int) =~= tb) by {
                assert forall|q: int|
                    0 <= q < tb.len() implies (#[trigger] plain.subrange(
                    32,
                    32 + tb.len() as int,
                )[q]) == tb[q] by {
                    assert(plain[32 + q] == (hdrb + tb + payload_all)[32 + q]);
                }
            }
            assert forall|q: int|
                0 <= q < ev.len() implies encode_utf8((#[trigger] ev[q]).path).len()
                <= u32::MAX by {
                assert(ev[q].path == es[q].0);
            }
            crate::agt::lemma_parse_entries_roundtrip(plain, 32, ev);
            assert(spec_parse_entries(plain, 32, n as nat) == Some(ev));
            assert forall|q: int|
                0 <= q < n implies spec_entry_data(plain, #[trigger] ev[q]) == Some(es[q].1) by {
                lemma_entry_data_at(es, offs, q, hdrb, plain);
            }
            assert(spec_fits(es));
        }
        Ok(w.into_bytes())
    }
}

impl Default for AgtBuilder {
    fn default() -> (r: AgtBuilder)
        ensures
            r.wf(),
            r.entries() == Seq::<(Seq<char>, Seq<u8>)>::empty(),
    {
        AgtBuilder::new()
    }
}

/// The deflated form of each chunk slice of a payload.
pub open spec fn spec_chunks_of(d: Seq<u8>) -> Seq<Seq<u8>> {
    chunk_slices(d).map_values(|c: Seq<u8>| deflate_of(c))
}

/// The chunk-length table values of a payload.
pub open spec fn spec_lens_of(d: Seq<u8>) -> Seq<u16> {
    chunk_slices(d).map_values(|c: Seq<u8>| deflate_of(c).len() as u16)
}

/// One payload's data section: its chunk-length table, then its compressed
/// chunks.
pub open spec fn spec_section_bytes(d: Seq<u8>) -> Seq<u8> {
    spec_lens_bytes(spec_lens_of(d)) + concat_all(spec_chunks_of(d))
}

/// Every deflated chunk of the payload fits a u16 table slot.
pub open spec fn chunks_fit(d: Seq<u8>) -> bool {
    forall|j: int|
        0 <= j < chunk_slices(d).len() ==> deflate_of(#[trigger] chunk_slices(d)[j]).len()
            <= u16::MAX
}

/// Every deflated chunk of the payload inflates back to its slice.
pub open spec fn chunks_invert(d: Seq<u8>) -> bool {
    forall|j: int|
        0 <= j < chunk_slices(d).len() ==> crate::zlib::inflate_of(
            deflate_of(#[trigger] chunk_slices(d)[j]),
        ) == Some(chunk_slices(d)[j])
}

/// The provisional directory records of an entry set.
pub open spec fn entries_placeholder(es: Seq<(Seq<char>, Seq<u8>)>) -> Seq<EntryV> {
    es.map_values(|pd: (Seq<char>, Seq<u8>)| placeholder_entry(pd.0, pd.1))
}

/// The directory with records before `k` resolved to their data offsets and
/// the rest still provisional.
pub open spec fn mixed_entries(es: Seq<(Seq<char>, Seq<u8>)>, offs: Seq<u32>, k: int) -> Seq<
    EntryV,
> {
    Seq::new(
        es.len(),
        |i: int|
            if i < k {
                final_entry(es[i].0, es[i].1, offs[i])
            } else {
                placeholder_entry(es[i].0, es[i].1)
            },
    )
}

/// The payload region: every entry's data section in order.
pub open spec fn spec_payload_bytes(es: Seq<(Seq<char>, Seq<u8>)>) -> Seq<u8>
    decreases es.len(),
{
    if es.len() == 0 {
        Seq::empty()
    } else {
        spec_section_bytes(es[0].1) + spec_payload_bytes(es.skip(1))
    }
}

/// Directory length in bytes.
pub open spec fn spec_dir_len(es: Seq<(Seq<char>, Seq<u8>)>) -> int {
    spec_table_bytes(entries_placeholder(es)).len() as int
}

/// Length of the whole serialized archive.
pub open spec fn spec_archive_len(es: Seq<(Seq<char>, Seq<u8>)>) -> int {
    32 + spec_dir_len(es) + spec_payload_bytes(es).len()
}

/// Whether every fixed-width field of the format can hold this entry set:
/// the entry count, each payload length and path length, each compressed
/// chunk length, and every data offset.
pub open spec fn spec_fits(es: Seq<(Seq<char>, Seq<u8>)>) -> bool {
    &&& es.len() <= u32::MAX
    &&& (forall|i: int| 0 <= i < es.len() ==> (#[trigger] es[i]).1.len() <= u32::MAX)
    &&& (forall|i: int| 0 <= i < es.len() ==> encode_utf8((#[trigger] es[i]).0).len() <= u32::MAX)
    &&& (forall|i: int| 0 <= i < es.len() ==> chunks_fit((#[trigger] es[i]).1))
    &&& spec_archive_len(es) <= u32::MAX
}

proof fn lemma_entry_bytes_len(e: EntryV)
    ensures
        spec_entry_bytes(e).len() == spec_entry_len(e.path),
{
    vstd::bytes::lemma_auto_spec_u32_to_from_le_bytes();
}

proof fn lemma_table_bytes_push(t: Seq<EntryV>, e: EntryV)
    ensures
        spec_table_bytes(t.push(e)) == spec_table_bytes(t) + spec_entry_bytes(e),
    decreases t.len(),
{
    if t.len() == 0 {
        assert(t.push(e)[0] == e);
        assert(t.push(e).skip(1) =~= Seq::<EntryV>::empty());
        assert(spec_entry_bytes(e) + spec_table_bytes(Seq::<EntryV>::empty()) =~= spec_entry_bytes(
            e,
        ));
        assert(spec_table_bytes(t) + spec_entry_bytes(e) =~= spec_entry_bytes(e));
    } else {
        assert(t.push(e)[0] == t[0]);
        assert(t.push(e).skip(1) =~= t.skip(1).push(e));
        lemma_table_bytes_push(t.skip(1), e);
        assert(spec_table_bytes(t.push(e)) == spec_entry_bytes(t[0]) + (spec_table_bytes(
            t.skip(1),
        ) + spec_entry_bytes(e)));
        assert(spec_entry_bytes(t[0]) + (spec_table_bytes(t.skip(1)) + spec_entry_bytes(e)) =~= (
        spec_entry_bytes(t[0]) + spec_table_bytes(t.skip(1))) + spec_entry_bytes(e));
    }
}

proof fn lemma_table_bytes_split(t: Seq<EntryV>, k: int)
    requires
        0 <= k <= t.len(),
    ensures
        spec_table_bytes(t) == spec_table_bytes(t.take(k)) + spec_table_bytes(t.skip(k)),
    decreases k,
{
    if k == 0 {
        assert(t.take(0) =~= Seq::<EntryV>::empty());
        assert(t.skip(0) =~= t);
        assert(spec_table_bytes(Seq::<EntryV>::empty()) + spec_table_bytes(t) =~= spec_table_bytes(
            t,
        ));
    } else {
        lemma_table_bytes_split(t.skip(1), k - 1);
        assert(t.skip(1).take(k - 1) =~= t.take(k).skip(1));
        assert(t.skip(1).skip(k - 1) =~= t.skip(k));
        assert(t.take(k)[0] == t[0]);
        assert(spec_table_bytes(t.take(k)) == spec_entry_bytes(t[0]) + spec_table_bytes(
            t.take(k).skip(1),
        ));
        assert(spec_table_bytes(t) == spec_entry_bytes(t[0]) + spec_table_bytes(t.skip(1)));
        assert(spec_table_bytes(t.skip(1)) == spec_table_bytes(t.take(k).skip(1))
            + spec_table_bytes(t.skip(k)));
        assert(spec_entry_bytes(t[0]) + (spec_table_bytes(t.take(k).skip(1)) + spec_table_bytes(
            t.skip(k),
        )) =~= (spec_entry_bytes(t[0]) + spec_table_bytes(t.take(k).skip(1))) + spec_table_bytes(
            t.skip(k),
        ));
    }
}

/// Two directories with the same paths occupy the same number of bytes.
proof fn lemma_table_len_same_paths(t1: Seq<EntryV>, t2: Seq<EntryV>)
    requires
        t1.len() == t2.len(),
        forall|i: int| 0 <= i < t1.len() ==> (#[trigger] t1[i]).path == t2[i].path,
    ensures
        spec_table_bytes(t1).len() == spec_table_bytes(t2).len(),
    decreases t1.len(),
{
    if t1.len() > 0 {
        lemma_entry_bytes_len(t1[0]);
        lemma_entry_bytes_len(t2[0]);
        assert forall|i: int|
            0 <= i < t1.skip(1).len() implies (#[trigger] t1.skip(1)[i]).path == t2.skip(
            1,
        )[i].path by {
            assert(t1.skip(1)[i] == t1[i + 1]);
            assert(t2.skip(1)[i] == t2[i + 1]);
        }
        lemma_table_len_same_paths(t1.skip(1), t2.skip(1));
    }
}

proof fn lemma_dir_len_push(es: Seq<(Seq<char>, Seq<u8>)>, pd: (Seq<char>, Seq<u8>))
    ensures
        spec_dir_len(es.push(pd)) == spec_dir_len(es) + spec_entry_len(pd.0),
{
    assert(entries_placeholder(es.push(pd)) =~= entries_placeholder(es).push(
        placeholder_entry(pd.0, pd.1),
    )) by {
        assert forall|i: int|
            0 <= i < es.len() + 1 implies (#[trigger] entries_placeholder(es.push(pd))[i])
            == entries_placeholder(es).push(placeholder_entry(pd.0, pd.1))[i] by {
            if i < es.len() {
                assert(es.push(pd)[i] == es[i]);
            } else {
                assert(es.push(pd)[i] == pd);
            }
        }
    }
    lemma_table_bytes_push(entries_placeholder(es), placeholder_entry(pd.0, pd.1));
    lemma_entry_bytes_len(placeholder_entry(pd.0, pd.1));
}

/// The whole directory is at least as long as any prefix plus the record
/// that follows it.
proof fn lemma_dir_len_lower(es: Seq<(Seq<char>, Seq<u8>)>, i: int)
    requires
        0 <= i < es.len(),
    ensures
        spec_dir_len(es) >= spec_dir_len(es.take(i)) + spec_entry_len(es[i].0),
{
    let t = entries_placeholder(es);
    lemma_table_bytes_split(t, i);
    assert(t.take(i) =~= entries_placeholder(es.take(i))) by {
        assert forall|k: int|
            0 <= k < i implies (#[trigger] t.take(i)[k]) == entries_placeholder(es.take(i))[k] by {
            assert(es.take(i)[k] == es[k]);
        }
    }
    assert(t.skip(i)[0] == t[i]);
    assert(t.skip(i).skip(1) =~= t.skip(i + 1));
    assert(spec_table_bytes(t.skip(i)) == spec_entry_bytes(t[i]) + spec_table_bytes(t.skip(i + 1)));
    lemma_entry_bytes_len(t[i]);
    assert(t[i].path == es[i].0);
}

proof fn lemma_payload_push(es: Seq<(Seq<char>, Seq<u8>)>, pd: (Seq<char>, Seq<u8>))
    ensures
        spec_payload_bytes(es.push(pd)) == spec_payload_bytes(es) + spec_section_bytes(pd.1),
    decreases es.len(),
{
    if es.len() == 0 {
        assert(es.push(pd)[0] == pd);
        assert(es.push(pd).skip(1) =~= Seq::<(Seq<char>, Seq<u8>)>::empty());
        assert(spec_section_bytes(pd.1) + spec_payload_bytes(Seq::<(Seq<char>, Seq<u8>)>::empty())
            =~= spec_section_bytes(pd.1));
        assert(spec_payload_bytes(es) + spec_section_bytes(pd.1) =~= spec_section_bytes(pd.1));
    } else {
        assert(es.push(pd)[0] == es[0]);
        assert(es.push(pd).skip(1) =~= es.skip(1).push(pd));
        lemma_payload_push(es.skip(1), pd);
        assert(spec_payload_bytes(es.push(pd)) == spec_section_bytes(es[0].1) + (
        spec_payload_bytes(es.skip(1)) + spec_section_bytes(pd.1)));
        assert(spec_section_bytes(es[0].1) + (spec_payload_bytes(es.skip(1)) + spec_section_bytes(
            pd.1,
        )) =~= (spec_section_bytes(es[0].1) + spec_payload_bytes(es.skip(1))) + spec_section_bytes(
            pd.1,
        ));
    }
}

proof fn lemma_payload_split(es: Seq<(Seq<char>, Seq<u8>)>, i: int)
    requires
        0 <= i <= es.len(),
    ensures
        spec_payload_bytes(es) == spec_payload_bytes(es.take(i)) + spec_payload_bytes(es.skip(i)),
    decreases i,
{
    if i == 0 {
        assert(es.take(0) =~= Seq::<(Seq<char>, Seq<u8>)>::empty());
        assert(es.skip(0) =~= es);
        assert(spec_payload_bytes(Seq::<(Seq<char>, Seq<u8>)>::empty()) + spec_payload_bytes(es)
            =~= spec_payload_bytes(es));
    } else {
        lemma_payload_split(es.skip(1), i - 1);
        assert(es.skip(1).take(i - 1) =~= es.take(i).skip(1));
        assert(es.skip(1).skip(i - 1) =~= es.skip(i));
        assert(es.take(i)[0] == es[0]);
        assert(spec_payload_bytes(es.take(i)) == spec_section_bytes(es[0].1) + spec_payload_bytes(
            es.take(i).skip(1),
        ));
        assert(spec_payload_bytes(es) == spec_section_bytes(es[0].1) + spec_payload_bytes(
            es.skip(1),
        ));
        assert(spec_payload_bytes(es.skip(1)) == spec_payload_bytes(es.take(i).skip(1))
            + spec_payload_bytes(es.skip(i)));
        assert(spec_section_bytes(es[0].1) + (spec_payload_bytes(es.take(i).skip(1))
            + spec_payload_bytes(es.skip(i))) =~= (spec_section_bytes(es[0].1)
            + spec_payload_bytes(es.take(i).skip(1))) + spec_payload_bytes(es.skip(i)));
    }
}

proof fn lemma_concat_all_push(cs: Seq<Seq<u8>>, c: Seq<u8>)
    ensures
        concat_all(cs.push(c)) == concat_all(cs) + c,
    decreases cs.len(),
{
    if cs.len() == 0 {
        assert(cs.push(c)[0] == c);
        assert(cs.push(c).skip(1) =~= Seq::<Seq<u8>>::empty());
        assert(c + concat_all(Seq::<Seq<u8>>::empty()) =~= c);
        assert(concat_all(cs) + c =~= c);
    } else {
        assert(cs.push(c)[0] == cs[0]);
        assert(cs.push(c).skip(1) =~= cs.skip(1).push(c));
        lemma_concat_all_push(cs.skip(1), c);
        assert(concat_all(cs.push(c)) == cs[0] + (concat_all(cs.skip(1)) + c));
        assert(cs[0] + (concat_all(cs.skip(1)) + c) =~= (cs[0] + concat_all(cs.skip(1))) + c);
    }
}

proof fn lemma_concat_all_split(cs: Seq<Seq<u8>>, j: int)
    requires
        0 <= j <= cs.len(),
    ensures
        concat_all(cs) == concat_all(cs.take(j)) + concat_all(cs.skip(j)),
    decreases j,
{
    if j == 0 {
        assert(cs.take(0) =~= Seq::<Seq<u8>>::empty());
        assert(cs.skip(0) =~= cs);
        assert(concat_all(Seq::<Seq<u8>>::empty()) + concat_all(cs) =~= concat_all(cs));
    } else {
        lemma_concat_all_split(cs.skip(1), j - 1);
        assert(cs.skip(1).take(j - 1) =~= cs.take(j).skip(1));
        assert(cs.skip(1).skip(j - 1) =~= cs.skip(j));
        assert(cs.take(j)[0] == cs[0]);
        assert(concat_all(cs.take(j)) == cs[0] + concat_all(cs.take(j).skip(1)));
        assert(concat_all(cs) == cs[0] + concat_all(cs.skip(1)));
        assert(concat_all(cs.skip(1)) == concat_all(cs.take(j).skip(1)) + concat_all(cs.skip(j)));
        assert(cs[0] + (concat_all(cs.take(j).skip(1)) + concat_all(cs.skip(j))) =~= (cs[0]
            + concat_all(cs.take(j).skip(1))) + concat_all(cs.skip(j)));
    }
}

proof fn lemma_lens_bytes_push(t: Seq<u16>, x: u16)
    ensures
        spec_lens_bytes(t.push(x)) == spec_lens_bytes(t) + vstd::bytes::spec_u16_to_le_bytes(x),
    decreases t.len(),
{
    if t.len() == 0 {
        assert(t.push(x)[0] == x);
        assert(t.push(x).skip(1) =~= Seq::<u16>::empty());
        assert(vstd::bytes::spec_u16_to_le_bytes(x) + spec_lens_bytes(Seq::<u16>::empty())
            =~= vstd::bytes::spec_u16_to_le_bytes(x));
        assert(spec_lens_bytes(t) + vstd::bytes::spec_u16_to_le_bytes(x)
            =~= vstd::bytes::spec_u16_to_le_bytes(x));
    } else {
        assert(t.push(x)[0] == t[0]);
        assert(t.push(x).skip(1) =~= t.skip(1).push(x));
        lemma_lens_bytes_push(t.skip(1), x);
        assert(spec_lens_bytes(t.push(x)) == vstd::bytes::spec_u16_to_le_bytes(t[0]) + (
        spec_lens_bytes(t.skip(1)) + vstd::bytes::spec_u16_to_le_bytes(x)));
        assert(vstd::bytes::spec_u16_to_le_bytes(t[0]) + (spec_lens_bytes(t.skip(1))
            + vstd::bytes::spec_u16_to_le_bytes(x)) =~= (vstd::bytes::spec_u16_to_le_bytes(t[0])
            + spec_lens_bytes(t.skip(1))) + vstd::bytes::spec_u16_to_le_bytes(x));
    }
}

/// The byte lengths of a payload's data section.
proof fn lemma_section_len(d: Seq<u8>)
    ensures
        spec_section_bytes(d).len() == 2 * chunk_count_of(d.len()) + concat_all(
            spec_chunks_of(d),
        ).len(),
{
    crate::agt::lemma_lens_bytes(spec_lens_of(d));
    crate::zlib::lemma_chunk_slices(d);
}

/// A chunk-length table embedded in a larger image reads back value by
/// value.
proof fn lemma_chunk_lengths_embedded(s: Seq<u8>, pos: int, lens: Seq<u16>)
    requires
        0 <= pos,
        pos + 2 * lens.len() <= s.len(),
        s.subrange(pos, pos + 2 * lens.len()) == spec_lens_bytes(lens),
    ensures
        crate::agt::spec_chunk_lengths(s, pos, lens.len()) == lens,
{
    vstd::bytes::lemma_auto_spec_u16_to_from_le_bytes();
    crate::agt::lemma_lens_bytes(lens);
    let lb = spec_lens_bytes(lens);
    assert forall|i: int|
        0 <= i < lens.len() implies (#[trigger] crate::agt::spec_chunk_lengths(
        s,
        pos,
        lens.len(),
    )[i]) == lens[i] by {
        assert(lb.subrange(2 * i, 2 * i + 2) =~= vstd::bytes::spec_u16_to_le_bytes(lens[i]));
        assert(s.subrange(pos + 2 * i, pos + 2 * i + 2) =~= lb.subrange(2 * i, 2 * i + 2)) by {
            assert forall|k: int|
                0 <= k < 2 implies (#[trigger] s.subrange(pos + 2 * i, pos + 2 * i + 2)[k])
                == lb.subrange(2 * i, 2 * i + 2)[k] by {
                assert(s.subrange(pos, pos + 2 * lens.len())[2 * i + k] == s[pos + 2 * i + k]);
                assert(lb[2 * i + k] == lb.subrange(2 * i, 2 * i + 2)[k]);
            }
        }
        assert(crate::agt::le16_at(s, pos + 2 * i) == vstd::bytes::spec_u16_from_le_bytes(
            vstd::bytes::spec_u16_to_le_bytes(lens[i]),
        ));
    }
    assert(crate::agt::spec_chunk_lengths(s, pos, lens.len()) =~= lens);
}

/// An entry record is its offset field followed by the fields that do not
/// depend on the offset.
proof fn lemma_entry_bytes_head(e: EntryV)
    ensures
        spec_entry_bytes(e) == vstd::bytes::spec_u32_to_le_bytes(e.chunks_offset)
            + entry_rest_bytes(e),
{
    assert(spec_entry_bytes(e) =~= vstd::bytes::spec_u32_to_le_bytes(e.chunks_offset)
        + entry_rest_bytes(e));
}

/// Everything of an entry record after its 4-byte offset field.
pub open spec fn entry_rest_bytes(e: EntryV) -> Seq<u8> {
    vstd::bytes::spec_u32_to_le_bytes(e.chunk_count) + vstd::bytes::spec_u32_to_le_bytes(
        e.decompressed_length,
    ) + vstd::bytes::spec_u32_to_le_bytes(encode_utf8(e.path).len() as u32) + encode_utf8(e.path)
}

/// Resolving the `k`-th placeholder turns the directory with `k` resolved
/// records into the directory with `k + 1` resolved records.
proof fn lemma_patch_table_step(
    es: Seq<(Seq<char>, Seq<u8>)>,
    offs: Seq<u32>,
    k: int,
    hdr: Seq<u8>,
    suffix: Seq<u8>,
    s: Seq<u8>,
)
    requires
        0 <= k < es.len(),
        offs.len() == es.len(),
        s == hdr + spec_table_bytes(mixed_entries(es, offs, k)) + suffix,
    ensures
        crate::patch::spec_patch(
            s,
            hdr.len() + spec_table_bytes(mixed_entries(es, offs, k).take(k)).len() as int,
            offs[k],
        ) == hdr + spec_table_bytes(mixed_entries(es, offs, k + 1)) + suffix,
{
    vstd::bytes::lemma_auto_spec_u32_to_from_le_bytes();
    let m0 = mixed_entries(es, offs, k);
    let m1 = mixed_entries(es, offs, k + 1);
    let a = spec_table_bytes(m0.take(k));
    let p: int = hdr.len() as int + a.len() as int;
    lemma_table_bytes_split(m0, k);
    lemma_table_bytes_split(m1, k);
    assert(m1.take(k) =~= m0.take(k));
    assert(m1.skip(k + 1) =~= m0.skip(k + 1)) by {
        assert forall|q: int|
            0 <= q < m1.skip(k + 1).len() implies (#[trigger] m1.skip(k + 1)[q]) == m0.skip(
            k + 1,
        )[q] by {
            assert(m1.skip(k + 1)[q] == m1[k + 1 + q]);
            assert(m0.skip(k + 1)[q] == m0[k + 1 + q]);
        }
    }
    assert(m0.skip(k)[0] == m0[k]);
    assert(m0.skip(k).skip(1) =~= m0.skip(k + 1));
    assert(spec_table_bytes(m0.skip(k)) == spec_entry_bytes(m0[k]) + spec_table_bytes(
        m0.skip(k + 1),
    ));
    assert(m1.skip(k)[0] == m1[k]);
    assert(m1.skip(k).skip(1) =~= m1.skip(k + 1));
    assert(spec_table_bytes(m1.skip(k)) == spec_entry_bytes(m1[k]) + spec_table_bytes(
        m1.skip(k + 1),
    ));
    lemma_entry_bytes_head(m0[k]);
    lemma_entry_bytes_head(m1[k]);
    assert(entry_rest_bytes(m0[k]) == entry_rest_bytes(m1[k]));
    let rest = entry_rest_bytes(m0[k]) + spec_table_bytes(m0.skip(k + 1)) + suffix;
    let b = vstd::bytes::spec_u32_to_le_bytes(offs[k]);
    assert(s =~= (hdr + a) + vstd::bytes::spec_u32_to_le_bytes(m0[k].chunks_offset) + rest);
    assert(p + 4 <= s.len());
    crate::stream::lemma_spec_write_within(s, p, b);
    assert(s.take(p) =~= hdr + a);
    assert(s.skip(p + 4) =~= rest);
    assert(m1[k].chunks_offset == offs[k]);
    assert(crate::patch::spec_patch(s, p, offs[k]) =~= hdr + spec_table_bytes(m1) + suffix);
}

/// Serialize a chunk-length table.
fn lens_to_bytes(lens: &Vec<u16>) -> (r: Vec<u8>)
    ensures
        r@ == spec_lens_bytes(lens@),
        r@.len() == 2 * lens@.len(),
{
    let mut r: Vec<u8> = Vec::new();
    let mut i: usize = 0;
    proof {
        crate::agt::lemma_lens_bytes(lens@);
        assert(lens@.take(0) =~= Seq::<u16>::empty());
        assert(r@ =~= spec_lens_bytes(lens@.take(0)));
    }
    while i < lens.len()
        invariant
            0 <= i <= lens@.len(),
            r@ == spec_lens_bytes(lens@.take(i as int)),
            r@.len() == 2 * i,
        decreases lens@.len() - i,
    {
        let mut b = vstd::bytes::u16_to_le_bytes(lens[i]);
        let ghost r0 = r@;
        r.append(&mut b);
        proof {
            assert(lens@.take(i as int + 1) =~= lens@.take(i as int).push(lens@[i as int]));
            lemma_lens_bytes_push(lens@.take(i as int), lens@[i as int]);
        }
        i = i + 1;
    }
    proof {
        assert(lens@.take(lens@.len() as int) =~= lens@);
        crate::agt::lemma_lens_bytes(lens@);
    }
    r
}

/// Serialize a placeholder directory record.
fn entry_record(path_bytes: &Vec<u8>, cc: u32, dl: u32) -> (r: Vec<u8>)
    requires
        path_bytes@.len() <= u32::MAX,
    ensures
        r@ == vstd::bytes::spec_u32_to_le_bytes(0u32) + vstd::bytes::spec_u32_to_le_bytes(cc)
            + vstd::bytes::spec_u32_to_le_bytes(dl) + vstd::bytes::spec_u32_to_le_bytes(
            path_bytes@.len() as u32,
        ) + path_bytes@,
        r@.len() == 16 + path_bytes@.len(),
{
    let mut r = vstd::bytes::u32_to_le_bytes(0);
    let mut b = vstd::bytes::u32_to_le_bytes(cc);
    r.append(&mut b);
    let mut b = vstd::bytes::u32_to_le_bytes(dl);
    r.append(&mut b);
    let mut b = vstd::bytes::u32_to_le_bytes(path_bytes.len() as u32);
    r.append(&mut b);
    let mut b = vstd::slice::slice_to_vec(path_bytes.as_slice());
    r.append(&mut b);
    proof {
        vstd::bytes::lemma_auto_spec_u32_to_from_le_bytes();
        assert(r@ =~= vstd::bytes::spec_u32_to_le_bytes(0u32) + vstd::bytes::spec_u32_to_le_bytes(
            cc,
        ) + vstd::bytes::spec_u32_to_le_bytes(dl) + vstd::bytes::spec_u32_to_le_bytes(
            path_bytes@.len() as u32,
        ) + path_bytes@);
    }
    r
}

/// The archive is at least as long as any entry's data offset plus its data
/// section.
proof fn lemma_archive_lower_section(es: Seq<(Seq<char>, Seq<u8>)>, i: int)
    requires
        0 <= i < es.len(),
    ensures
        spec_archive_len(es) >= (32 + spec_dir_len(es)) + spec_payload_bytes(es.take(i)).len()
            + spec_section_bytes(es[i].1).len(),
{
    lemma_payload_split(es, i);
    assert(es.skip(i)[0] == es[i]);
    assert(es.skip(i).skip(1) =~= es.skip(i + 1));
    assert(spec_payload_bytes(es.skip(i)) == spec_section_bytes(es[i].1) + spec_payload_bytes(
        es.skip(i + 1),
    ));
}

/// After the placeholders are resolved, decoding entry `q` of the finished
/// image yields its original payload.
proof fn lemma_entry_data_at(
    es: Seq<(Seq<char>, Seq<u8>)>,
    offs: Seq<u32>,
    q: int,
    hdrb: Seq<u8>,
    plain: Seq<u8>,
)
    requires
        0 <= q < es.len(),
        offs.len() == es.len(),
        hdrb.len() == 32,
        plain == hdrb + spec_table_bytes(mixed_entries(es, offs, es.len() as int))
            + spec_payload_bytes(es),
        offs[q] as int == (32 + spec_dir_len(es)) + spec_payload_bytes(es.take(q)).len(),
        chunks_fit(es[q].1),
        chunks_invert(es[q].1),
        es[q].1.len() <= u32::MAX,
    ensures
        spec_entry_data(plain, mixed_entries(es, offs, es.len() as int)[q]) == Some(es[q].1),
{
    let m = mixed_entries(es, offs, es.len() as int);
    let e = m[q];
    let data = es[q].1;
    let slices = chunk_slices(data);
    let lens = spec_lens_of(data);
    let comps = spec_chunks_of(data);
    crate::zlib::lemma_chunk_slices(data);
    crate::zlib::lemma_chunk_count_le(data.len());
    lemma_section_len(data);
    crate::agt::lemma_lens_bytes(lens);
    assert(e == final_entry(es[q].0, data, offs[q]));
    assert(e.chunk_count as nat == chunk_count_of(data.len()));
    let section = spec_section_bytes(data);
    let cc = slices.len() as int;
    let pos = e.chunks_offset as int;
    // The directory occupies [32, 32 + dir_len); the same length holds for
    // the resolved directory.
    assert(m.len() == entries_placeholder(es).len());
    assert forall|t: int|
        0 <= t < m.len() implies (#[trigger] m[t]).path == entries_placeholder(es)[t].path by {
    }
    lemma_table_len_same_paths(m, entries_placeholder(es));
    let tb = spec_table_bytes(m);
    assert(tb.len() as int == spec_dir_len(es));
    // Split the payload region around entry q's section.
    lemma_payload_split(es, q);
    assert(es.skip(q)[0] == es[q]);
    assert(es.skip(q).skip(1) =~= es.skip(q + 1));
    assert(spec_payload_bytes(es.skip(q)) == section + spec_payload_bytes(es.skip(q + 1)));
    let before = spec_payload_bytes(es.take(q));
    assert(pos == 32 + tb.len() + before.len());
    assert(pos + section.len() <= plain.len());
    assert(plain.subrange(pos, pos + section.len() as int) =~= section) by {
        assert forall|t: int|
            0 <= t < section.len() implies (#[trigger] plain.subrange(
            pos,
            pos + section.len() as int,
        )[t]) == section[t] by {
            assert(plain[pos + t] == spec_payload_bytes(es)[before.len() + t]);
            assert(spec_payload_bytes(es)[before.len() + t] == spec_payload_bytes(es.skip(q))[t]);
            assert(spec_payload_bytes(es.skip(q))[t] == section[t]);
        }
    }
    if cc == 0 {
        assert(data.len() == 0);
        assert(data =~= Seq::<u8>::empty());
        assert(e.chunk_count == 0);
        assert(spec_entry_data(plain, e) == Some(Seq::<u8>::empty()));
    } else {
        assert(e.chunk_count as int == cc);
        assert(section.len() == 2 * cc + concat_all(comps).len());
        assert(pos + 2 * cc <= plain.len());
        assert(plain.subrange(pos, pos + 2 * cc) =~= spec_lens_bytes(lens)) by {
            assert forall|t: int|
                0 <= t < 2 * cc implies (#[trigger] plain.subrange(pos, pos + 2 * cc)[t])
                == spec_lens_bytes(lens)[t] by {
                assert(plain.subrange(pos, pos + section.len() as int)[t] == section[t]);
                assert(section[t] == spec_lens_bytes(lens)[t]);
            }
        }
        assert(lens.len() == cc);
        lemma_chunk_lengths_embedded(plain, pos, lens);
        let cstart = pos + 2 * cc;
        assert(plain.subrange(cstart, cstart + concat_all(comps).len() as int) =~= concat_all(
            comps,
        )) by {
            assert forall|t: int|
                0 <= t < concat_all(comps).len() implies (#[trigger] plain.subrange(
                cstart,
                cstart + concat_all(comps).len() as int,
            )[t]) == concat_all(comps)[t] by {
                assert(plain.subrange(pos, pos + section.len() as int)[2 * cc + t] == section[2 * cc
                    + t]);
                assert(section[2 * cc + t] == concat_all(comps)[t]);
            }
        }
        assert forall|t: int|
            0 <= t < lens.len() implies (#[trigger] comps[t]).len() == lens[t] as int by {
            assert(deflate_of(slices[t]).len() <= u16::MAX);
        }
        assert forall|t: int|
            0 <= t < lens.len() implies crate::zlib::inflate_of(#[trigger] comps[t]) == Some(
            slices[t],
        ) by {
        }
        crate::agt::lemma_read_chunks_roundtrip(plain, cstart, lens, comps, slices);
        assert(crate::agt::spec_read_chunks(plain, cstart, lens) == Some(concat_all(slices)));
        assert(concat_all(slices) == data);
        assert(crate::agt::spec_chunk_lengths(plain, pos, e.chunk_count as nat) == lens);
        assert(spec_entry_data(plain, e) == Some(data));
    }
}

} // verus!
