//! Texture pack container: a flat run of entries, each a fixed-width
//! NUL-padded path, a padded size field, and the raw texture bytes.  The
//! layout generation is detected from where the first texture's `DDS `
//! magic appears.

use vstd::prelude::*;

use crate::bytes::{ByteReader, ByteWriter};
use crate::parsers::ParseError;
use vstd::utf8::encode_utf8;

verus! {

pub open spec fn spec_dds_magic() -> Seq<u8> {
    seq![0x44u8, 0x44u8, 0x53u8, 0x20u8]
}

pub fn dds_magic_bytes() -> (r: Vec<u8>)
    ensures
        r@ == spec_dds_magic(),
{
    let mut v: Vec<u8> = Vec::new();
    v.push(0x44);
    v.push(0x44);
    v.push(0x53);
    v.push(0x20);
    proof {
        assert(v@ =~= spec_dds_magic());
    }
    v
}

/// The two known layout generations.
#[derive(Debug, Clone, Copy, PartialEq, Eq, Structural)]
pub enum NtxVersion {
    New,
    Old,
}

impl NtxVersion {
    /// Fixed width of an entry's NUL-padded path field.
    pub fn path_length(&self) -> (r: usize)
        ensures
            r == match self {
                NtxVersion::New => 64int,
                NtxVersion::Old => 16int,
            },
    {
        match self {
            NtxVersion::New => 64,
            NtxVersion::Old => 16,
        }
    }

    /// Width of an entry's size field (a u32 padded to this width).
    pub fn size_length(&self) -> (r: usize)
        ensures
            r == match self {
                NtxVersion::New => 8int,
                NtxVersion::Old => 4int,
            },
    {
        match self {
            NtxVersion::New => 8,
            NtxVersion::Old => 4,
        }
    }
}

/// One texture entry: its path (up to the first NUL of the padded field)
/// and its raw bytes.
#[derive(Debug, Clone, PartialEq)]
pub struct NtxEntry {
    pub path: String,
    pub data: Vec<u8>,
}

/// A texture pack: the detected layout and its entries.
#[derive(Debug, Clone, PartialEq)]
pub struct Ntx {
    pub version: NtxVersion,
    pub entries: Vec<NtxEntry>,
}

/// Whether the buffer announces the given layout: the first entry's data,
/// which starts right after the path and size fields, begins with `DDS `.
pub open spec fn spec_version_ok(s: Seq<u8>, v: NtxVersion) -> bool {
    match v {
        NtxVersion::New => s.len() >= 76 && s.subrange(72, 76) == spec_dds_magic(),
        NtxVersion::Old => s.len() >= 24 && s.subrange(20, 24) == spec_dds_magic(),
    }
}

/// The serialized path field: the UTF-8 bytes padded with NULs to the
/// fixed width.
pub open spec fn spec_path_field(p: Seq<char>, width: int) -> Seq<u8>
    recommends
        encode_utf8(p).len() <= width,
{
    encode_utf8(p) + Seq::new((width - encode_utf8(p).len()) as nat, |q: int| 0u8)
}

/// One serialized entry: the padded path, the u32 size padded to the size
/// width, then the data bytes.
pub open spec fn spec_entry_bytes(e: NtxEntry, v: NtxVersion) -> Seq<u8> {
    let width = match v {
        NtxVersion::New => 64int,
        NtxVersion::Old => 16int,
    };
    let size_pad = match v {
        NtxVersion::New => 4int,
        NtxVersion::Old => 0int,
    };
    spec_path_field(e.path@, width) + vstd::bytes::spec_u32_to_le_bytes(e.data@.len() as u32)
        + Seq::new(size_pad as nat, |q: int| 0u8) + e.data@
}

/// The serialized entries from index `i` on.
pub open spec fn spec_entries_bytes(entries: Seq<NtxEntry>, v: NtxVersion, i: int) -> Seq<u8>
    decreases entries.len() - i,
{
    if i < 0 || i >= entries.len() {
        Seq::empty()
    } else {
        spec_entry_bytes(entries[i], v) + spec_entries_bytes(entries, v, i + 1)
    }
}

/// Whether an entry fits its fixed-width fields.
pub open spec fn spec_entry_fits(e: NtxEntry, v: NtxVersion) -> bool {
    &&& encode_utf8(e.path@).len() <= match v {
        NtxVersion::New => 64int,
        NtxVersion::Old => 16int,
    }
    &&& e.data@.len() <= u32::MAX
}

impl Ntx {
    /// Detect the layout, then read entries until the end of the buffer.
    pub fn parse(r: &mut ByteReader) -> (res: Result<Ntx, ParseError>)
        requires
            old(r).spec_pos() == 0,
        ensures
            final(r).bytes() == old(r).bytes(),
            match res {
                Ok(n) => spec_version_ok(old(r).bytes(), n.version),
                Err(_) => true,
            },
    {
        let ghost s = r.bytes();
        let total = r.stream_len();
        let dds = dds_magic_bytes();
        r.seek_to(72);
        let new_probe = r.read_exact(4);
        let is_new = match new_probe {
            Some(v4) => crate::strings::bytes_eq(&v4, &dds),
            None => false,
        };
        let version = if is_new {
            NtxVersion::New
        } else {
            r.seek_to(20);
            let old_probe = r.read_exact(4);
            let is_old = match old_probe {
                Some(v4) => crate::strings::bytes_eq(&v4, &dds),
                None => false,
            };
            if is_old {
                NtxVersion::Old
            } else {
                return Err(ParseError::BadMagic);
            }
        };
        r.seek_to(0);
        let mut entries: Vec<NtxEntry> = Vec::new();
        let mut pos: usize = 0;
        while pos < total
            invariant
                r.bytes() == s,
                s == old(r).bytes(),
                total == s.len(),
                r.spec_pos() == pos as int,
                spec_version_ok(s, version),
            decreases s.len() - pos,
        {
            let e = match NtxEntry::parse(r, version) {
                Ok(e) => e,
                Err(err) => {
                    return Err(err);
                },
            };
            entries.push(e);
            let newpos = r.position();
            if newpos <= pos {
                // An entry always occupies at least its fixed fields; this
                // branch is unreachable but keeps the loop measure obvious.
                proof {
                    assert(false);
                }
                return Err(ParseError::Truncated);
            }
            pos = newpos;
        }
        Ok(Ntx { version, entries })
    }

    /// Serialize every entry in order.
    pub fn write(&self, w: &mut ByteWriter) -> (res: Result<(), ParseError>)
        ensures
            match res {
                Ok(()) => {
                    &&& final(w).bytes() == old(w).bytes() + spec_entries_bytes(
                        self.entries@,
                        self.version,
                        0,
                    )
                    &&& forall|k: int|
                        0 <= k < self.entries@.len() ==> spec_entry_fits(
                            #[trigger] self.entries@[k],
                            self.version,
                        )
                },
                Err(_) => exists|k: int|
                    0 <= k < self.entries@.len() && !spec_entry_fits(
                        #[trigger] self.entries@[k],
                        self.version,
                    ),
            },
    {
        let mut i: usize = 0;
        proof {
            assert(old(w).bytes() + Seq::<u8>::empty() =~= old(w).bytes());
        }
        while i < self.entries.len()
            invariant
                0 <= i <= self.entries@.len(),
                w.bytes() + spec_entries_bytes(self.entries@, self.version, i as int) == old(
                    w,
                ).bytes() + spec_entries_bytes(self.entries@, self.version, 0),
                forall|k: int|
                    0 <= k < i ==> spec_entry_fits(#[trigger] self.entries@[k], self.version),
            decreases self.entries@.len() - i,
        {
            match self.entries[i].write(w, self.version) {
                Ok(()) => (),
                Err(e) => {
                    return Err(e);
                },
            }
            proof {
                assert(spec_entries_bytes(self.entries@, self.version, i as int)
                    == spec_entry_bytes(self.entries@[i as int], self.version)
                    + spec_entries_bytes(self.entries@, self.version, i as int + 1));
            }
            i = i + 1;
        }
        proof {
            assert(spec_entries_bytes(self.entries@, self.version, i as int) =~= Seq::<
                u8,
            >::empty());
            assert(w.bytes() + Seq::<u8>::empty() =~= w.bytes());
        }
        Ok(())
    }
}

impl NtxEntry {
    /// Parse one entry: the padded path, the padded u32 size, then that
    /// many data bytes.
    pub fn parse(r: &mut ByteReader, version: NtxVersion) -> (res: Result<NtxEntry, ParseError>)
        ensures
            final(r).bytes() == old(r).bytes(),
            match res {
                Ok(e) => ({
                    let s = old(r).bytes();
                    let pos = old(r).spec_pos();
                    let width = match version {
                        NtxVersion::New => 64int,
                        NtxVersion::Old => 16int,
                    };
                    let size_len = match version {
                        NtxVersion::New => 8int,
                        NtxVersion::Old => 4int,
                    };
                    let size = crate::agt::le32_at(s, pos + width) as int;
                    &&& pos + width + size_len + size <= s.len()
                    &&& encode_utf8(e.path@) == crate::parsers::strings::spec_until_nul(
                        s.subrange(pos, pos + width),
                        0,
                    )
                    &&& e.data@ == s.subrange(pos + width + size_len, pos + width + size_len
                        + size)
                    &&& final(r).spec_pos() == pos + width + size_len + size
                    &&& final(r).spec_pos() > pos
                }),
                Err(_) => true,
            },
    {
        let ghost pos0 = r.spec_pos();
        let path_len = version.path_length();
        let path_field = match r.read_exact(path_len) {
            Some(v) => v,
            None => {
                return Err(ParseError::Truncated);
            },
        };
        let mut path_bytes: Vec<u8> = Vec::new();
        let mut k: usize = 0;
        while k < path_field.len() && path_field[k] != 0
            invariant
                0 <= k <= path_field@.len(),
                forall|q: int| 0 <= q < k ==> path_field@[q] != 0,
                path_bytes@ == path_field@.take(k as int),
            decreases path_field@.len() - k,
        {
            let ghost pb0 = path_bytes@;
            path_bytes.push(path_field[k]);
            proof {
                assert(path_bytes@ =~= path_field@.take(k as int + 1));
            }
            k = k + 1;
        }
        proof {
            lemma_take_until_nul(path_field@, k as int);
        }
        let path = match crate::strings::string_from_utf8(path_bytes) {
            Some(s) => s,
            None => {
                return Err(ParseError::BadString);
            },
        };
        let size = match r.read_u32() {
            Some(x) => x,
            None => {
                return Err(ParseError::Truncated);
            },
        };
        let pad = version.size_length() - 4;
        if pad > 0 {
            match r.read_exact(pad) {
                Some(_) => (),
                None => {
                    return Err(ParseError::Truncated);
                },
            }
        }
        let data = match r.read_exact(size as usize) {
            Some(v) => v,
            None => {
                return Err(ParseError::Truncated);
            },
        };
        proof {
            r.lemma_pos_nonneg();
        }
        Ok(NtxEntry { path, data })
    }

    /// Serialize one entry: the path padded with NULs to the fixed width,
    /// the u32 size padded to the size width, then the data bytes.
    pub fn write(&self, w: &mut ByteWriter, version: NtxVersion) -> (res: Result<(), ParseError>)
        ensures
            match res {
                Ok(()) => spec_entry_fits(*self, version) && final(w).bytes() == old(w).bytes()
                    + spec_entry_bytes(*self, version),
                Err(_) => !spec_entry_fits(*self, version) && final(w).bytes() == old(w).bytes(),
            },
    {
        let path_len = version.path_length();
        let pb = self.path.as_str().as_bytes_vec();
        if pb.len() > path_len {
            return Err(ParseError::BadString);
        }
        if self.data.len() > u32::MAX as usize {
            return Err(ParseError::Truncated);
        }
        w.write_bytes(pb.as_slice());
        let ghost base = w.bytes();
        let mut k: usize = pb.len();
        proof {
            assert(base + Seq::new(0, |q: int| 0u8) =~= base);
        }
        while k < path_len
            invariant
                pb@.len() <= k <= path_len,
                w.bytes() == base + Seq::new((k - pb@.len()) as nat, |q: int| 0u8),
            decreases path_len - k,
        {
            w.write_u8(0);
            proof {
                assert(base + Seq::new((k - pb@.len()) as nat, |q: int| 0u8) + seq![0u8] =~= base
                    + Seq::new((k + 1 - pb@.len()) as nat, |q: int| 0u8));
            }
            k = k + 1;
        }
        w.write_u32(self.data.len() as u32);
        let ghost base2 = w.bytes();
        let mut p: usize = 4;
        let size_len = version.size_length();
        proof {
            assert(base2 + Seq::new(0, |q: int| 0u8) =~= base2);
        }
        while p < size_len
            invariant
                4 <= p,
                p <= size_len || (p == 4 && size_len <= 4),
                w.bytes() == base2 + Seq::new((p - 4) as nat, |q: int| 0u8),
            decreases size_len - p,
        {
            w.write_u8(0);
            proof {
                assert(base2 + Seq::new((p - 4) as nat, |q: int| 0u8) + seq![0u8] =~= base2
                    + Seq::new((p - 3) as nat, |q: int| 0u8));
            }
            p = p + 1;
        }
        w.write_bytes(self.data.as_slice());
        proof {
            assert(pb@ == encode_utf8(self.path@));
            assert(w.bytes() =~= old(w).bytes() + spec_entry_bytes(*self, version));
        }
        Ok(())
    }
}

/// The scanned prefix before the first NUL is what `spec_until_nul` reads.
proof fn lemma_take_until_nul(s: Seq<u8>, k: int)
    requires
        0 <= k <= s.len(),
        forall|q: int| 0 <= q < k ==> s[q] != 0,
        k < s.len() ==> s[k] == 0,
    ensures
        s.take(k) == crate::parsers::strings::spec_until_nul(s, 0),
    decreases k,
{
    lemma_take_until_nul_from(s, 0, k);
}

proof fn lemma_take_until_nul_from(s: Seq<u8>, p: int, k: int)
    requires
        0 <= p <= k <= s.len(),
        forall|q: int| p <= q < k ==> s[q] != 0,
        k < s.len() ==> s[k] == 0,
    ensures
        s.subrange(p, k) == crate::parsers::strings::spec_until_nul(s, p),
    decreases k - p,
{
    if p == k {
        assert(s.subrange(p, k) =~= Seq::<u8>::empty());
    } else {
        assert(s[p] != 0);
        lemma_take_until_nul_from(s, p + 1, k);
        assert(s.subrange(p, k) =~= seq![s[p]] + s.subrange(p + 1, k));
    }
}

} // verus!
