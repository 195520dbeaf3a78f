//! The map of the build rows that a full outer join has matched.
//!
//! The map has one row of flags per build chunk and one flag per row of that chunk. Flags are only
//! ever set: a build row whose flag is still clear once every probe is done has no partner.
use crate::bitmap::bitmap_bits;
use crate::bitmap::get_bit;
use crate::rows::select;
use arrow2::bitmap::Bitmap;
use vstd::prelude::*;

verus! {

/// The place of a build row: its chunk, and its row within that chunk.
#[derive(Clone, Copy, Debug, PartialEq, Eq, Structural)]
pub struct RowPtr {
    pub chunk_index: u32,
    pub row_index: u32,
}

/// The flags of a scan map.
pub open spec fn flags(map: Seq<Vec<bool>>) -> Seq<Seq<bool>> {
    map.map_values(|chunk: Vec<bool>| chunk@)
}

/// Whether a scan map has a flag for the build row at `ptr`.
pub open spec fn has_flag(map: Seq<Seq<bool>>, ptr: RowPtr) -> bool {
    &&& ptr.chunk_index < map.len()
    &&& ptr.row_index < map[ptr.chunk_index as int].len()
}

/// Whether a scan map has a flag for each of the build rows at `ptrs`.
pub open spec fn has_flags(map: Seq<Seq<bool>>, ptrs: Seq<RowPtr>) -> bool {
    forall|k: int| 0 <= k < ptrs.len() ==> has_flag(map, #[trigger] ptrs[k])
}

/// Whether the build row `row` of chunk `chunk` is among `ptrs`.
pub open spec fn points_at(ptrs: Seq<RowPtr>, chunk: int, row: int) -> bool {
    exists|k: int|
        0 <= k < ptrs.len() && (#[trigger] ptrs[k]).chunk_index == chunk && ptrs[k].row_index == row
}

/// A scan map with the flags of the build rows at `ptrs` set, and every other flag as it was.
pub open spec fn marked(map: Seq<Seq<bool>>, ptrs: Seq<RowPtr>) -> Seq<Seq<bool>> {
    Seq::new(
        map.len(),
        |c: int| Seq::new(map[c].len(), |r: int| map[c][r] || points_at(ptrs, c, r)),
    )
}

/// Sets the flag of one build row.
pub fn mark(map: &mut Vec<Vec<bool>>, ptr: RowPtr)
    requires
        has_flag(flags(old(map)@), ptr),
    ensures
        flags(final(map)@) == marked(flags(old(map)@), seq![ptr]),
{
    let ghost before = flags(map@);
    map[ptr.chunk_index as usize][ptr.row_index as usize] = true;
    assert(flags(map@) =~~= marked(before, seq![ptr])) by {
        assert forall|c: int, r: int|
            points_at(seq![ptr], c, r) == (ptr.chunk_index == c && ptr.row_index == r) by {
            assert(seq![ptr][0] == ptr);
        }
    }
}

/// Setting flags in two goes is setting them in one.
pub proof fn marked_in_turn(map: Seq<Seq<bool>>, first: Seq<RowPtr>, second: Seq<RowPtr>)
    ensures
        marked(marked(map, first), second) == marked(map, first + second),
{
    let both = first + second;
    assert forall|c: int, r: int|
        points_at(both, c, r) == (points_at(first, c, r) || points_at(second, c, r)) by {
        if points_at(first, c, r) {
            let k = choose|k: int|
                0 <= k < first.len() && (#[trigger] first[k]).chunk_index == c
                    && first[k].row_index == r;
            assert(both[k] == first[k]);
        }
        if points_at(second, c, r) {
            let k = choose|k: int|
                0 <= k < second.len() && (#[trigger] second[k]).chunk_index == c
                    && second[k].row_index == r;
            assert(both[first.len() + k] == second[k]);
        }
    }
    assert(marked(marked(map, first), second) =~~= marked(map, both));
}

/// A flag that is set stays set.
pub proof fn marked_keeps_flags(map: Seq<Seq<bool>>, ptrs: Seq<RowPtr>, chunk: int, row: int)
    requires
        0 <= chunk < map.len(),
        0 <= row < map[chunk].len(),
        map[chunk][row],
    ensures
        marked(map, ptrs)[chunk][row],
{
}

/// It does not matter which of two probes sets its flags first.
pub proof fn marked_in_either_order(map: Seq<Seq<bool>>, one: Seq<RowPtr>, other: Seq<RowPtr>)
    ensures
        marked(marked(map, one), other) == marked(marked(map, other), one),
{
    assert(marked(marked(map, one), other) =~~= marked(marked(map, other), one));
}

/// Setting the flags of no rows changes nothing.
pub proof fn marked_nothing(map: Seq<Seq<bool>>)
    ensures
        marked(map, Seq::empty()) == map,
{
    assert(marked(map, Seq::empty()) =~~= map);
}

/// Sets the flags of the build rows at `ptrs`.
pub fn mark_all(map: &mut Vec<Vec<bool>>, ptrs: &Vec<RowPtr>)
    requires
        has_flags(flags(old(map)@), ptrs@),
    ensures
        flags(final(map)@) == marked(flags(old(map)@), ptrs@),
{
    let ghost before = flags(map@);
    proof {
        marked_nothing(before);
        assert(ptrs@.take(0) =~= Seq::empty());
    }
    for i in 0..ptrs.len()
        invariant
            has_flags(before, ptrs@),
            flags(map@) == marked(before, ptrs@.take(i as int)),
    {
        assert(has_flag(before, ptrs@[i as int]));
        mark(map, ptrs[i]);
        proof {
            marked_in_turn(before, ptrs@.take(i as int), seq![ptrs@[i as int]]);
            assert(ptrs@.take(i as int) + seq![ptrs@[i as int]] =~= ptrs@.take(i + 1));
        }
    }
    assert(ptrs@.take(ptrs@.len() as int) =~= ptrs@);
}

/// Sets the flags of those build rows at `ptrs` whose bit in `validity` is set.
pub fn mark_selected(map: &mut Vec<Vec<bool>>, ptrs: &Vec<RowPtr>, validity: &Bitmap)
    requires
        ptrs@.len() <= bitmap_bits(*validity).len(),
        forall|k: int|
            0 <= k < ptrs@.len() && bitmap_bits(*validity)[k] ==> has_flag(
                flags(old(map)@),
                #[trigger] ptrs@[k],
            ),
    ensures
        flags(final(map)@) == marked(flags(old(map)@), select(ptrs@, bitmap_bits(*validity))),
{
    let ghost before = flags(map@);
    let ghost bits = bitmap_bits(*validity);
    proof {
        marked_nothing(before);
        assert(ptrs@.take(0) =~= Seq::empty());
    }
    for i in 0..ptrs.len()
        invariant
            bits == bitmap_bits(*validity),
            ptrs@.len() <= bits.len(),
            forall|k: int|
                0 <= k < ptrs@.len() && bits[k] ==> has_flag(before, #[trigger] ptrs@[k]),
            flags(map@) == marked(before, select(ptrs@.take(i as int), bits)),
    {
        let ghost done = select(ptrs@.take(i as int), bits);
        assert(ptrs@.take(i + 1).drop_last() =~= ptrs@.take(i as int));
        if get_bit(validity, i) {
            assert(has_flag(before, ptrs@[i as int]));
            mark(map, ptrs[i]);
            proof {
                marked_in_turn(before, done, seq![ptrs@[i as int]]);
                assert(done + seq![ptrs@[i as int]] =~= done.push(ptrs@[i as int]));
            }
        }
    }
    assert(ptrs@.take(ptrs@.len() as int) =~= ptrs@);
}

/// Setting flags sets those of the build rows named, and no other; and there are as many flags as
/// before.
pub proof fn marked_are_those_named(map: Seq<Seq<bool>>, ptrs: Seq<RowPtr>)
    ensures
        marked(map, ptrs).len() == map.len(),
        forall|c: int|
            0 <= c < map.len() ==> (#[trigger] marked(map, ptrs)[c]).len() == map[c].len(),
        forall|c: int, r: int|
            0 <= c < map.len() && 0 <= r < map[c].len() ==> (#[trigger] marked(map, ptrs)[c][r]
                <==> map[c][r] || exists|k: int|
                0 <= k < ptrs.len() && (#[trigger] ptrs[k]).chunk_index == c && ptrs[k].row_index
                    == r),
{
}

/// The flags of a map are those that it holds, and a row has one where its place lies within it.
pub proof fn flags_are_those_held(map: Seq<Vec<bool>>, ptr: RowPtr)
    ensures
        flags(map).len() == map.len(),
        forall|c: int| 0 <= c < map.len() ==> (#[trigger] flags(map)[c]) == map[c]@,
        has_flag(flags(map), ptr) <==> ptr.chunk_index < map.len() && ptr.row_index
            < map[ptr.chunk_index as int]@.len(),
{
}

} // verus!
