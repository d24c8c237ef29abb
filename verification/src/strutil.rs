//! Character-level helpers for the tab-separated sheet parsers: trimming
//! surrounding whitespace and reading decimal integers.

use vstd::prelude::*;

verus! {

/// The whitespace characters trimmed from cell values.
pub open spec fn is_space(c: char) -> bool {
    c == ' ' || c == '\t' || c == '\r' || c == '\n'
}

/// The string without leading and trailing whitespace.
pub open spec fn spec_trim(s: Seq<char>) -> Seq<char>
    decreases s.len(),
{
    if s.len() == 0 {
        s
    } else if is_space(s[0]) {
        spec_trim(s.skip(1))
    } else if is_space(s.last()) {
        spec_trim(s.drop_last())
    } else {
        s
    }
}

/// Trimming a string of nothing but whitespace leaves nothing.
proof fn lemma_trim_all_space(s: Seq<char>)
    requires
        forall|k: int| 0 <= k < s.len() ==> is_space(#[trigger] s[k]),
    ensures
        spec_trim(s) == Seq::<char>::empty(),
    decreases s.len(),
{
    if s.len() == 0 {
        assert(s =~= Seq::<char>::empty());
    } else {
        assert forall|k: int| 0 <= k < s.skip(1).len() implies is_space(#[trigger] s.skip(1)[k]) by {
            assert(s.skip(1)[k] == s[k + 1]);
        }
        lemma_trim_all_space(s.skip(1));
    }
}

/// Trimming keeps exactly the span from the first to the last non-space
/// character.
proof fn lemma_trim_range(s: Seq<char>, i: int, j: int)
    requires
        0 <= i <= j < s.len(),
        forall|k: int| 0 <= k < i ==> is_space(#[trigger] s[k]),
        forall|k: int| j < k < s.len() ==> is_space(#[trigger] s[k]),
        !is_space(s[i]),
        !is_space(s[j]),
    ensures
        spec_trim(s) == s.subrange(i, j + 1),
    decreases s.len(),
{
    if i > 0 {
        assert(is_space(s[0]));
        assert forall|k: int| 0 <= k < i - 1 implies is_space(#[trigger] s.skip(1)[k]) by {
            assert(s.skip(1)[k] == s[k + 1]);
        }
        assert forall|k: int| j - 1 < k < s.skip(1).len() implies is_space(
            #[trigger] s.skip(1)[k],
        ) by {
            assert(s.skip(1)[k] == s[k + 1]);
        }
        assert(s.skip(1)[i - 1] == s[i]);
        assert(s.skip(1)[j - 1] == s[j]);
        lemma_trim_range(s.skip(1), i - 1, j - 1);
        assert(s.skip(1).subrange(i - 1, j) =~= s.subrange(i, j + 1));
    } else if j < s.len() - 1 {
        assert(is_space(s.last()));
        assert(!is_space(s[0]));
        assert forall|k: int| j < k < s.drop_last().len() implies is_space(
            #[trigger] s.drop_last()[k],
        ) by {
            assert(s.drop_last()[k] == s[k]);
        }
        assert(s.drop_last()[i] == s[i]);
        assert(s.drop_last()[j] == s[j]);
        lemma_trim_range(s.drop_last(), i, j);
        assert(s.drop_last().subrange(i, j + 1) =~= s.subrange(i, j + 1));
    } else {
        assert(!is_space(s[0]));
        assert(!is_space(s.last()));
        assert(s.subrange(0, s.len() as int) =~= s);
    }
}

/// Whether `c` is one of the trimmed whitespace characters.
pub fn is_space_char(c: char) -> (r: bool)
    ensures
        r == is_space(c),
{
    c == ' ' || c == '\t' || c == '\r' || c == '\n'
}

/// The string without leading and trailing whitespace.
pub fn trim(s: &str) -> (r: String)
    ensures
        r@ == spec_trim(s@),
{
    let n = s.unicode_len();
    let mut i: usize = 0;
    while i < n && is_space_char(s.get_char(i))
        invariant
            0 <= i <= n,
            n == s@.len(),
            forall|k: int| 0 <= k < i ==> is_space(#[trigger] s@[k]),
        decreases n - i,
    {
        i = i + 1;
    }
    if i == n {
        proof {
            lemma_trim_all_space(s@);
        }
        let empty = String::new();
        return empty;
    }
    let mut j: usize = n - 1;
    while j > i && is_space_char(s.get_char(j))
        invariant
            i <= j < n,
            n == s@.len(),
            forall|k: int| j < k < n ==> is_space(#[trigger] s@[k]),
        decreases j,
    {
        j = j - 1;
    }
    if is_space_char(s.get_char(j)) {
        // Only possible when j == i, which contradicts s[i] not being a
        // space; treat defensively as the all-space case.
        proof {
            assert(false);
        }
        let empty = String::new();
        return empty;
    }
    let piece = s.substring_char(i, j + 1);
    proof {
        lemma_trim_range(s@, i as int, j as int);
    }
    piece.to_owned()
}

/// Whether `c` is a decimal digit.
pub open spec fn is_digit(c: char) -> bool {
    48 <= c as u32 <= 57
}

/// Whether every character is a decimal digit.
pub open spec fn digits_only(s: Seq<char>) -> bool {
    forall|k: int| 0 <= k < s.len() ==> is_digit(#[trigger] s[k])
}

/// The value of a digit string.
pub open spec fn digits_val(s: Seq<char>) -> int
    decreases s.len(),
{
    if s.len() == 0 {
        0
    } else {
        digits_val(s.drop_last()) * 10 + (s.last() as u32 - 48)
    }
}

/// Digit strings denote non-negative values.
proof fn lemma_digits_val_nonneg(s: Seq<char>)
    requires
        digits_only(s),
    ensures
        digits_val(s) >= 0,
    decreases s.len(),
{
    if s.len() > 0 {
        assert forall|k: int| 0 <= k < s.drop_last().len() implies is_digit(
            #[trigger] s.drop_last()[k],
        ) by {
            assert(s.drop_last()[k] == s[k]);
        }
        lemma_digits_val_nonneg(s.drop_last());
        assert(is_digit(s.last()));
    }
}

/// A longer digit prefix never denotes a smaller value.
proof fn lemma_digits_val_prefix(s: Seq<char>, k: int)
    requires
        digits_only(s),
        0 <= k <= s.len(),
    ensures
        digits_val(s.take(k)) <= digits_val(s),
    decreases s.len() - k,
{
    assert forall|q: int| 0 <= q < s.take(k).len() implies is_digit(#[trigger] s.take(k)[q]) by {
        assert(s.take(k)[q] == s[q]);
    }
    if k == s.len() {
        assert(s.take(k) =~= s);
    } else {
        assert(s.take(k + 1).drop_last() =~= s.take(k));
        assert(s.take(k + 1).last() == s[k]);
        assert(digits_val(s.take(k + 1)) == digits_val(s.take(k)) * 10 + (s[k] as u32 - 48));
        lemma_digits_val_nonneg(s.take(k));
        assert(is_digit(s[k]));
        assert(digits_val(s.take(k)) <= digits_val(s.take(k + 1)));
        lemma_digits_val_prefix(s, k + 1);
    }
}

/// What parsing a decimal `usize` yields: an optional leading `+`, then at
/// least one digit, with the value within range.
pub open spec fn spec_parse_usize(s: Seq<char>) -> Option<usize> {
    let body = if s.len() > 0 && s[0] == '+' {
        s.skip(1)
    } else {
        s
    };
    if body.len() == 0 || !digits_only(body) || digits_val(body) > usize::MAX {
        None
    } else {
        Some(digits_val(body) as usize)
    }
}

/// What parsing a decimal `isize` yields: an optional sign, then at least
/// one digit, with the value within range.
pub open spec fn spec_parse_isize(s: Seq<char>) -> Option<isize> {
    if s.len() > 0 && s[0] == '-' {
        let body = s.skip(1);
        if body.len() == 0 || !digits_only(body) || digits_val(body) > -(isize::MIN as int) {
            None
        } else {
            Some((-digits_val(body)) as isize)
        }
    } else {
        let body = if s.len() > 0 && s[0] == '+' {
            s.skip(1)
        } else {
            s
        };
        if body.len() == 0 || !digits_only(body) || digits_val(body) > isize::MAX {
            None
        } else {
            Some(digits_val(body) as isize)
        }
    }
}

/// Parse the digit body of a number starting at `start`, accumulating into
/// a `usize`.
fn parse_digits(s: &str, start: usize) -> (r: Option<usize>)
    requires
        start as int <= s@.len(),
    ensures
        ({
            let body = s@.skip(start as int);
            match r {
                Some(x) => digits_only(body) && body.len() > 0 && x as int == digits_val(body),
                None => body.len() == 0 || !digits_only(body) || digits_val(body) > usize::MAX,
            }
        }),
{
    let ghost body = s@.skip(start as int);
    let n = s.unicode_len();
    if start == n {
        return None;
    }
    let mut val: usize = 0;
    let mut i: usize = start;
    while i < n
        invariant
            start <= i <= n,
            n == s@.len(),
            body == s@.skip(start as int),
            body.len() == n - start,
            val as int == digits_val(body.take(i - start)),
            forall|k: int| 0 <= k < i - start ==> is_digit(#[trigger] body[k]),
        decreases n - i,
    {
        let c = s.get_char(i);
        proof {
            assert(body[i - start] == s@[i as int]);
        }
        let cu = c as u32;
        if cu < 48 || cu > 57 {
            proof {
                assert(!is_digit(body[i - start]));
            }
            return None;
        }
        let d = (cu - 48) as usize;
        let ghost prefix = body.take(i - start);
        proof {
            assert(body.take(i - start + 1).drop_last() =~= prefix);
            assert(body.take(i - start + 1).last() == body[i - start]);
            assert(digits_val(body.take(i - start + 1)) == digits_val(prefix) * 10 + d);
        }
        let v10 = match val.checked_mul(10) {
            Some(v) => v,
            None => {
                proof {
                    assert forall|k: int| 0 <= k < body.len() implies is_digit(
                        #[trigger] body[k],
                    ) || !digits_only(body) by {
                    }
                    if digits_only(body) {
                        lemma_digits_val_prefix(body, i - start + 1);
                        assert(digits_val(body) > usize::MAX);
                    }
                }
                return None;
            },
        };
        let v = match v10.checked_add(d) {
            Some(v) => v,
            None => {
                proof {
                    if digits_only(body) {
                        lemma_digits_val_prefix(body, i - start + 1);
                        assert(digits_val(body) > usize::MAX);
                    }
                }
                return None;
            },
        };
        val = v;
        i = i + 1;
    }
    proof {
        assert(body.take(body.len() as int) =~= body);
    }
    Some(val)
}

/// Parse a decimal `usize` as `usize::from_str` does: an optional leading
/// `+`, then at least one digit.
pub fn parse_usize(s: &String) -> (r: Option<usize>)
    ensures
        r == spec_parse_usize(s@),
{
    let st = s.as_str();
    let n = st.unicode_len();
    let start: usize = if n > 0 && st.get_char(0) == '+' {
        1
    } else {
        0
    };
    proof {
        if !(s@.len() > 0 && s@[0] == '+') {
            assert(s@.skip(0) =~= s@);
        }
    }
    parse_digits(st, start)
}

/// Parse a decimal `isize` as `isize::from_str` does: an optional sign,
/// then at least one digit.
pub fn parse_isize(s: &String) -> (r: Option<isize>)
    ensures
        r == spec_parse_isize(s@),
{
    let st = s.as_str();
    let n = st.unicode_len();
    if n > 0 && st.get_char(0) == '-' {
        let mag = match parse_digits(st, 1) {
            Some(m) => m,
            None => {
                return None;
            },
        };
        if mag <= isize::MAX as usize {
            Some(-(mag as isize))
        } else if mag == (isize::MAX as usize) + 1 {
            proof {
                assert(-(mag as int) == isize::MIN as int);
            }
            Some(isize::MIN)
        } else {
            None
        }
    } else {
        let start: usize = if n > 0 && st.get_char(0) == '+' {
            1
        } else {
            0
        };
        proof {
            if !(s@.len() > 0 && s@[0] == '+') {
                assert(s@.skip(0) =~= s@);
            }
        }
        let mag = match parse_digits(st, start) {
            Some(m) => m,
            None => {
                return None;
            },
        };
        if mag <= isize::MAX as usize {
            Some(mag as isize)
        } else {
            None
        }
    }
}

} // verus!
