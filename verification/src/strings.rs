//! String codecs shared by the container parsers.

use vstd::prelude::*;

use vstd::utf8::{decode_utf8, encode_utf8, valid_utf8};

verus! {

/// Relies on String::from_utf8: it succeeds exactly on valid UTF-8 input,
/// and the returned string's UTF-8 form is the input bytes unchanged.
#[verifier::external_body]
pub fn string_from_utf8(v: Vec<u8>) -> (r: Option<String>)
    ensures
        match r {
            Some(s) => valid_utf8(v@) && encode_utf8(s@) == v@,
            None => !valid_utf8(v@),
        },
{
    match String::from_utf8(v) {
        Ok(s) => Some(s),
        Err(_) => None,
    }
}

/// A parsed string's characters are the decoding of its bytes.
pub proof fn lemma_string_from_utf8_chars(v: Seq<u8>, s: Seq<char>)
    requires
        encode_utf8(s) == v,
    ensures
        decode_utf8(v) == s,
        valid_utf8(v),
{
    vstd::utf8::encode_utf8_decode_utf8(s);
    vstd::utf8::encode_utf8_valid_utf8(s);
}

/// Whether two byte vectors hold the same bytes.
pub fn bytes_eq(a: &Vec<u8>, b: &Vec<u8>) -> (r: bool)
    ensures
        r == (a@ == b@),
{
    if a.len() != b.len() {
        proof {
            assert(a@.len() != b@.len());
        }
        return false;
    }
    let mut i: usize = 0;
    while i < a.len()
        invariant
            0 <= i <= a@.len(),
            a@.len() == b@.len(),
            forall|k: int| 0 <= k < i ==> a@[k] == b@[k],
        decreases a@.len() - i,
    {
        if a[i] != b[i] {
            return false;
        }
        i = i + 1;
    }
    proof {
        assert(a@ =~= b@);
    }
    true
}

/// Strict lexicographic order on byte sequences.
pub open spec fn bytes_lt(a: Seq<u8>, b: Seq<u8>) -> bool
    decreases a.len(),
{
    if b.len() == 0 {
        false
    } else if a.len() == 0 {
        true
    } else if a[0] < b[0] {
        true
    } else if a[0] > b[0] {
        false
    } else {
        bytes_lt(a.skip(1), b.skip(1))
    }
}

/// The order is strict: `a < b` rules out `b < a` and `a == b`.
pub proof fn lemma_bytes_lt_asymmetric(a: Seq<u8>, b: Seq<u8>)
    requires
        bytes_lt(a, b),
    ensures
        !bytes_lt(b, a),
        a != b,
    decreases a.len(),
{
    if b.len() == 0 {
    } else if a.len() == 0 {
    } else if a[0] < b[0] {
    } else if a[0] > b[0] {
    } else {
        lemma_bytes_lt_asymmetric(a.skip(1), b.skip(1));
        assert(a != b) by {
            if a == b {
                assert(a.skip(1) == b.skip(1));
            }
        }
    }
}

/// No sequence comes before itself.
pub proof fn lemma_bytes_lt_irreflexive(a: Seq<u8>)
    ensures
        !bytes_lt(a, a),
{
    if bytes_lt(a, a) {
        lemma_bytes_lt_asymmetric(a, a);
    }
}

/// Three-way comparison of byte vectors under `bytes_lt`: 0 when `a` comes
/// first, 1 when they are equal, 2 when `b` comes first.
pub fn compare_bytes(a: &Vec<u8>, b: &Vec<u8>) -> (r: u8)
    ensures
        r == 0 ==> bytes_lt(a@, b@),
        r == 1 ==> a@ == b@,
        r == 2 ==> bytes_lt(b@, a@),
        r == 0 || r == 1 || r == 2,
{
    let mut i: usize = 0;
    loop
        invariant
            0 <= i <= a@.len(),
            i <= b@.len(),
            a@.take(i as int) =~= b@.take(i as int),
        decreases a@.len() - i,
    {
        if i >= a.len() && i >= b.len() {
            proof {
                assert(a@ =~= a@.take(i as int));
                assert(b@ =~= b@.take(i as int));
            }
            return 1;
        }
        if i >= a.len() {
            proof {
                lemma_bytes_lt_prefix(a@, b@, i as int);
            }
            return 0;
        }
        if i >= b.len() {
            proof {
                lemma_bytes_lt_prefix(b@, a@, i as int);
            }
            return 2;
        }
        if a[i] < b[i] {
            proof {
                lemma_bytes_lt_diff(a@, b@, i as int);
            }
            return 0;
        }
        if a[i] > b[i] {
            proof {
                lemma_bytes_lt_diff(b@, a@, i as int);
            }
            return 2;
        }
        proof {
            assert(a@.take(i as int + 1) =~= b@.take(i as int + 1));
        }
        i = i + 1;
    }
}

/// A proper prefix comes first in the lexicographic order.
pub proof fn lemma_bytes_lt_prefix(a: Seq<u8>, b: Seq<u8>, i: int)
    requires
        0 <= i,
        a.len() == i,
        i < b.len(),
        a.take(i) == b.take(i),
    ensures
        bytes_lt(a, b),
    decreases i,
{
    if i == 0 {
    } else {
        assert(a.take(i)[0] == a[0]);
        assert(b.take(i)[0] == b[0]);
        assert(a.take(i)[0] == b.take(i)[0]);
        assert(a[0] == b[0]);
        assert(a.skip(1).take(i - 1) =~= b.skip(1).take(i - 1)) by {
            assert forall|k: int|
                0 <= k < i - 1 implies (#[trigger] a.skip(1).take(i - 1)[k]) == b.skip(1).take(
                i - 1,
            )[k] by {
                assert(a.skip(1).take(i - 1)[k] == a.skip(1)[k]);
                assert(a.skip(1)[k] == a[k + 1]);
                assert(b.skip(1).take(i - 1)[k] == b.skip(1)[k]);
                assert(b.skip(1)[k] == b[k + 1]);
                assert(a.take(i)[k + 1] == a[k + 1]);
                assert(b.take(i)[k + 1] == b[k + 1]);
                assert(a.take(i)[k + 1] == b.take(i)[k + 1]);
            }
        }
        lemma_bytes_lt_prefix(a.skip(1), b.skip(1), i - 1);
    }
}

/// Sequences that agree before `i` and differ at `i` order by that byte.
pub proof fn lemma_bytes_lt_diff(a: Seq<u8>, b: Seq<u8>, i: int)
    requires
        0 <= i < a.len(),
        i < b.len(),
        a.take(i) == b.take(i),
        a[i] < b[i],
    ensures
        bytes_lt(a, b),
    decreases i,
{
    if i == 0 {
    } else {
        assert(a.take(i)[0] == a[0]);
        assert(b.take(i)[0] == b[0]);
        assert(a.take(i)[0] == b.take(i)[0]);
        assert(a[0] == b[0]);
        assert(a.skip(1).take(i - 1) =~= b.skip(1).take(i - 1)) by {
            assert forall|k: int|
                0 <= k < i - 1 implies (#[trigger] a.skip(1).take(i - 1)[k]) == b.skip(1).take(
                i - 1,
            )[k] by {
                assert(a.skip(1).take(i - 1)[k] == a.skip(1)[k]);
                assert(a.skip(1)[k] == a[k + 1]);
                assert(b.skip(1).take(i - 1)[k] == b.skip(1)[k]);
                assert(b.skip(1)[k] == b[k + 1]);
                assert(a.take(i)[k + 1] == a[k + 1]);
                assert(b.take(i)[k + 1] == b[k + 1]);
                assert(a.take(i)[k + 1] == b.take(i)[k + 1]);
            }
        }
        assert(a.skip(1)[i - 1] == a[i]);
        assert(b.skip(1)[i - 1] == b[i]);
        lemma_bytes_lt_diff(a.skip(1), b.skip(1), i - 1);
    }
}


/// What str::encode_utf16 produces for these characters.
pub uninterp spec fn utf16_units_of(s: Seq<char>) -> Seq<u16>;

/// What String::from_utf16 produces for these code units: the decoded
/// characters, or nothing when the units are not well-formed UTF-16.
pub uninterp spec fn utf16_parse(units: Seq<u16>) -> Option<Seq<char>>;

/// Relies on str::encode_utf16 to produce the UTF-16 form of the string,
/// and on String::from_utf16 decoding that form back to the same
/// characters.
#[verifier::external_body]
pub fn utf16_encode(s: &str) -> (r: Vec<u16>)
    ensures
        r@ == utf16_units_of(s@),
        utf16_parse(r@) == Some(s@),
{
    s.encode_utf16().collect()
}

/// Relies on String::from_utf16: it succeeds exactly on well-formed UTF-16
/// input.
#[verifier::external_body]
pub fn utf16_decode(units: &Vec<u16>) -> (r: Option<String>)
    ensures
        match r {
            Some(s) => utf16_parse(units@) == Some(s@),
            None => utf16_parse(units@) is None,
        },
{
    match String::from_utf16(units.as_slice()) {
        Ok(s) => Some(s),
        Err(_) => None,
    }
}

} // verus!
