//! Offset backpatching.
//!
//! During a forward serialization pass a field whose true value is not yet
//! known (typically an absolute offset) is written as a provisional 4-byte
//! placeholder and its absolute position is appended to an ordered list.
//! Once the payload is in place, the caller walks the recorded positions in
//! the same order and overwrites each field with its real value.

use vstd::prelude::*;

use crate::stream::{spec_write, XorWriter};
use vstd::bytes::{spec_u32_to_le_bytes, u32_to_le_bytes};

verus! {

/// The image after one resolution: `v` written little-endian at `pos`.
pub open spec fn spec_patch(s: Seq<u8>, pos: int, v: u32) -> Seq<u8> {
    spec_write(s, pos, spec_u32_to_le_bytes(v))
}

/// The image after resolving the recorded positions, in order, with the
/// matching values.
pub open spec fn spec_patch_all(s: Seq<u8>, positions: Seq<int>, values: Seq<u32>) -> Seq<u8>
    recommends
        positions.len() == values.len(),
    decreases positions.len(),
{
    if positions.len() == 0 {
        s
    } else {
        spec_patch_all(
            spec_patch(s, positions[0], values[0]),
            positions.skip(1),
            values.skip(1),
        )
    }
}

/// Whether position `k` lies inside one of the 4-byte placeholder fields.
pub open spec fn in_patched_field(positions: Seq<int>, k: int) -> bool {
    exists|i: int| 0 <= i < positions.len() && #[trigger] positions[i] <= k < positions[i] + 4
}

/// Law: the final content after resolving every placeholder in order does
/// not depend on the provisional values that were first written: two images
/// of equal length that agree everywhere outside the placeholder fields are
/// identical once all fields are resolved with the same values.
pub proof fn lemma_backpatch_determinism(
    s1: Seq<u8>,
    s2: Seq<u8>,
    positions: Seq<int>,
    values: Seq<u32>,
)
    requires
        s1.len() == s2.len(),
        positions.len() == values.len(),
        forall|i: int|
            0 <= i < positions.len() ==> 0 <= #[trigger] positions[i] && positions[i] + 4
                <= s1.len(),
        forall|k: int| 0 <= k < s1.len() && !in_patched_field(positions, k) ==> s1[k] == s2[k],
    ensures
        spec_patch_all(s1, positions, values) == spec_patch_all(s2, positions, values),
    decreases positions.len(),
{
    vstd::bytes::lemma_auto_spec_u32_to_from_le_bytes();
    if positions.len() == 0 {
        assert(s1 =~= s2);
    } else {
        let p0 = positions[0];
        let b = spec_u32_to_le_bytes(values[0]);
        let t1 = spec_patch(s1, p0, values[0]);
        let t2 = spec_patch(s2, p0, values[0]);
        assert(t1.len() == s1.len());
        assert(t2.len() == s2.len());
        assert forall|i: int|
            0 <= i < positions.skip(1).len() implies 0 <= #[trigger] positions.skip(1)[i]
            && positions.skip(1)[i] + 4 <= t1.len() by {
            assert(positions.skip(1)[i] == positions[i + 1]);
        }
        assert forall|k: int|
            0 <= k < t1.len() && !in_patched_field(positions.skip(1), k) implies t1[k]
            == t2[k] by {
            if p0 <= k < p0 + 4 {
                assert(t1[k] == b[k - p0]);
                assert(t2[k] == b[k - p0]);
            } else {
                assert(!in_patched_field(positions, k)) by {
                    if in_patched_field(positions, k) {
                        let i = choose|i: int|
                            0 <= i < positions.len() && #[trigger] positions[i] <= k
                                < positions[i] + 4;
                        assert(i != 0);
                        assert(positions.skip(1)[i - 1] == positions[i]);
                        assert(in_patched_field(positions.skip(1), k));
                    }
                }
                assert(s1[k] == s2[k]);
                assert(t1[k] == s1[k]);
                assert(t2[k] == s2[k]);
            }
        }
        lemma_backpatch_determinism(t1, t2, positions.skip(1), values.skip(1));
    }
}

/// Write a provisional 4-byte field at the current position and record that
/// position at the end of `offsets`.
pub fn write_placeholder_u32(w: &mut XorWriter, offsets: &mut Vec<usize>, provisional: u32)
    requires
        old(w).wf(),
        old(w).spec_pos() + 4 <= u32::MAX,
    ensures
        final(w).wf(),
        final(w).spec_key() == old(w).spec_key(),
        final(w).plain() == spec_patch(old(w).plain(), old(w).spec_pos(), provisional),
        final(w).spec_pos() == old(w).spec_pos() + 4,
        final(offsets)@ == old(offsets)@.push((old(w).spec_pos()) as usize),
{
    let p = w.position();
    offsets.push(p);
    let b = u32_to_le_bytes(provisional);
    w.write_all(b.as_slice());
}

/// Resolve one recorded placeholder: seek to its position and overwrite the
/// field with the real value, leaving the cursor just past the field.
pub fn resolve_u32(w: &mut XorWriter, position: usize, value: u32)
    requires
        old(w).wf(),
        position + 4 <= u32::MAX,
    ensures
        final(w).wf(),
        final(w).spec_key() == old(w).spec_key(),
        final(w).plain() == spec_patch(old(w).plain(), position as int, value),
        final(w).spec_pos() == position + 4,
{
    w.seek_to(position);
    let b = u32_to_le_bytes(value);
    w.write_all(b.as_slice());
}

} // verus!
