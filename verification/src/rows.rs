//! Which rows a join result consists of.
use crate::bitmap::all_clear;
use crate::bitmap::all_set;
use crate::scan_map::RowPtr;
use vstd::prelude::*;

verus! {

/// The elements of `s` whose bit in `bits` is set, in order.
pub open spec fn select<A>(s: Seq<A>, bits: Seq<bool>) -> Seq<A>
    decreases s.len(),
{
    if s.len() == 0 {
        Seq::empty()
    } else {
        let rest = select(s.drop_last(), bits);
        if bits[s.len() - 1] {
            rest.push(s.last())
        } else {
            rest
        }
    }
}

/// The probe rows that a list of runs stands for: a run `(row, count)` is `count` times `row`.
pub open spec fn expand(runs: Seq<(u32, u32)>) -> Seq<int>
    decreases runs.len(),
{
    if runs.len() == 0 {
        Seq::empty()
    } else {
        expand(runs.drop_last()) + Seq::new(runs.last().1 as nat, |k: int| runs.last().0 as int)
    }
}

/// Pairs each probe row of `runs` with the build row at the same position of `ptrs`.
pub open spec fn pair_up(runs: Seq<(u32, u32)>, ptrs: Seq<RowPtr>) -> Seq<(int, RowPtr)> {
    Seq::new(ptrs.len(), |k: int| (expand(runs)[k], ptrs[k]))
}

/// The pairs that probe row `row` forms with the build rows at `ptrs`.
pub open spec fn row_pairs(row: int, ptrs: Seq<RowPtr>) -> Seq<(int, RowPtr)> {
    Seq::new(ptrs.len(), |k: int| (row, ptrs[k]))
}

/// The joined pairs of the probe rows, where `matches[i]` are the build rows that match row `i`:
/// row by row, and within a row in the order of its matches.
pub open spec fn matched_rows(matches: Seq<Seq<RowPtr>>) -> Seq<(int, RowPtr)>
    decreases matches.len(),
{
    if matches.len() == 0 {
        Seq::empty()
    } else {
        matched_rows(matches.drop_last()) + row_pairs(matches.len() - 1, matches.last())
    }
}

/// The probe rows without a match, in order.
pub open spec fn unmatched_rows(matches: Seq<Seq<RowPtr>>) -> Seq<int>
    decreases matches.len(),
{
    if matches.len() == 0 {
        Seq::empty()
    } else {
        let rest = unmatched_rows(matches.drop_last());
        if matches.last().len() == 0 {
            rest.push(matches.len() - 1)
        } else {
            rest
        }
    }
}

/// The build rows of a list of pairs.
pub open spec fn build_rows(pairs: Seq<(int, RowPtr)>) -> Seq<RowPtr> {
    pairs.map_values(|pair: (int, RowPtr)| pair.1)
}

/// Runs added at the end are expanded at the end.
pub proof fn expand_push(runs: Seq<(u32, u32)>, row: u32, count: u32)
    ensures
        expand(runs.push((row, count))) == expand(runs) + Seq::new(
            count as nat,
            |k: int| row as int,
        ),
{
    assert(runs.push((row, count)).drop_last() =~= runs);
}

/// Two lists of runs are expanded one behind the other.
pub proof fn expand_append(first: Seq<(u32, u32)>, second: Seq<(u32, u32)>)
    ensures
        expand(first + second) == expand(first) + expand(second),
    decreases second.len(),
{
    if second.len() > 0 {
        expand_append(first, second.drop_last());
        assert((first + second).drop_last() =~= first + second.drop_last());
        assert(expand(first + second) =~= expand(first) + expand(second));
    } else {
        assert(first + second =~= first);
        assert(expand(first) + expand(second) =~= expand(first));
    }
}

/// Matches of one more row are paired up behind those at hand.
pub proof fn pair_up_push(
    runs: Seq<(u32, u32)>,
    ptrs: Seq<RowPtr>,
    row: nat,
    matched: Seq<RowPtr>,
)
    requires
        expand(runs).len() == ptrs.len(),
        row <= u32::MAX,
        matched.len() <= u32::MAX,
    ensures
        ({
            let more = runs.push((row as u32, matched.len() as u32));
            &&& expand(more).len() == ptrs.len() + matched.len()
            &&& pair_up(more, ptrs + matched) == pair_up(runs, ptrs) + row_pairs(
                row as int,
                matched,
            )
        }),
{
    expand_push(runs, row as u32, matched.len() as u32);
    let more = runs.push((row as u32, matched.len() as u32));
    assert(pair_up(more, ptrs + matched) =~= pair_up(runs, ptrs) + row_pairs(row as int, matched));
}

/// One more row adds its pairs, or itself where it has no match.
pub proof fn rows_of_one_more(matches: Seq<Seq<RowPtr>>, matched: Seq<RowPtr>)
    ensures
        matched_rows(matches.push(matched)) == matched_rows(matches) + row_pairs(
            matches.len() as int,
            matched,
        ),
        unmatched_rows(matches.push(matched)) == if matched.len() == 0 {
            unmatched_rows(matches).push(matches.len() as int)
        } else {
            unmatched_rows(matches)
        },
{
    assert(matches.push(matched).drop_last() =~= matches);
}

/// More matches of the last row add their pairs.
pub proof fn rows_of_more_matches(matches: Seq<Seq<RowPtr>>, matched: Seq<RowPtr>)
    requires
        matches.len() > 0,
    ensures
        ({
            let more = matches.update(matches.len() - 1, matches.last() + matched);
            &&& matched_rows(more) == matched_rows(matches) + row_pairs(
                matches.len() - 1,
                matched,
            )
            &&& matches.last().len() > 0 ==> unmatched_rows(more) == unmatched_rows(matches)
        }),
{
    let more = matches.update(matches.len() - 1, matches.last() + matched);
    assert(more.drop_last() =~= matches.drop_last());
    assert(matched_rows(more) =~= matched_rows(matches) + row_pairs(matches.len() - 1, matched));
}

/// Every probe row is in the join: with its matches, or without a match, but not both.
pub proof fn every_row_is_kept(matches: Seq<Seq<RowPtr>>, row: int)
    requires
        0 <= row < matches.len(),
    ensures
        matches[row].len() > 0 <==> exists|k: int|
            0 <= k < matched_rows(matches).len() && (#[trigger] matched_rows(matches)[k]).0 == row,
        matches[row].len() == 0 <==> unmatched_rows(matches).contains(row),
    decreases matches.len(),
{
    let rest = matches.drop_last();
    let pairs = matched_rows(matches);
    let alone = unmatched_rows(matches);
    rows_in_range(rest);
    if row < rest.len() {
        every_row_is_kept(rest, row);
        if rest[row].len() > 0 {
            let k = choose|k: int|
                0 <= k < matched_rows(rest).len() && (#[trigger] matched_rows(rest)[k]).0 == row;
            assert(pairs[k].0 == row);
        } else {
            assert forall|k: int| 0 <= k < pairs.len() implies (#[trigger] pairs[k]).0 != row by {
                if k < matched_rows(rest).len() {
                    assert(pairs[k] == matched_rows(rest)[k]);
                }
            }
            let k = choose|k: int|
                0 <= k < unmatched_rows(rest).len() && unmatched_rows(rest)[k] == row;
            assert(alone[k] == row);
        }
        if alone.contains(row) {
            let k = choose|k: int| 0 <= k < alone.len() && alone[k] == row;
            assert(unmatched_rows(rest)[k] == row);
        }
    } else {
        if matches[row].len() > 0 {
            assert(pairs[matched_rows(rest).len() as int].0 == row);
        } else {
            assert(alone[unmatched_rows(rest).len() as int] == row);
        }
    }
}

/// The rows of a join are rows of its input.
proof fn rows_in_range(matches: Seq<Seq<RowPtr>>)
    ensures
        forall|k: int|
            0 <= k < matched_rows(matches).len() ==> 0 <= (#[trigger] matched_rows(matches)[k]).0
                < matches.len(),
        forall|k: int|
            0 <= k < unmatched_rows(matches).len() ==> 0 <= #[trigger] unmatched_rows(matches)[k]
                < matches.len(),
    decreases matches.len(),
{
    if matches.len() > 0 {
        let rest = matches.drop_last();
        rows_in_range(rest);
        assert forall|k: int| 0 <= k < matched_rows(matches).len() implies 0 <= (
        #[trigger] matched_rows(matches)[k]).0 < matches.len() by {
            if k < matched_rows(rest).len() {
                assert(matched_rows(matches)[k] == matched_rows(rest)[k]);
            }
        }
        assert forall|k: int| 0 <= k < unmatched_rows(matches).len() implies 0
            <= #[trigger] unmatched_rows(matches)[k] < matches.len() by {
            if k < unmatched_rows(rest).len() {
                assert(unmatched_rows(matches)[k] == unmatched_rows(rest)[k]);
            }
        }
    }
}

/// A probe row is joined with each of its matches once, in their order.
pub proof fn row_is_joined_with_its_matches(matches: Seq<Seq<RowPtr>>, row: int)
    requires
        0 <= row < matches.len(),
    ensures
        matched_rows(matches).filter(|pair: (int, RowPtr)| pair.0 == row) == row_pairs(
            row,
            matches[row],
        ),
    decreases matches.len(),
{
    let rest = matches.drop_last();
    let of_row = |pair: (int, RowPtr)| pair.0 == row;
    let last = row_pairs(matches.len() - 1, matches.last());
    Seq::filter_distributes_over_add(matched_rows(rest), last, of_row);
    if row < rest.len() {
        row_is_joined_with_its_matches(rest, row);
        filter_none(last, of_row);
    } else {
        rows_in_range(rest);
        filter_none(matched_rows(rest), of_row);
        filter_all(last, of_row);
    }
    assert(matched_rows(matches).filter(of_row) =~= row_pairs(row, matches[row]));
}

proof fn filter_none<A>(s: Seq<A>, keep: spec_fn(A) -> bool)
    requires
        forall|k: int| 0 <= k < s.len() ==> !keep(#[trigger] s[k]),
    ensures
        s.filter(keep) == Seq::<A>::empty(),
    decreases s.len(),
{
    reveal(Seq::filter);
    if s.len() > 0 {
        assert forall|k: int| 0 <= k < s.drop_last().len() implies !keep(
            #[trigger] s.drop_last()[k],
        ) by {
            assert(s.drop_last()[k] == s[k]);
        }
        filter_none(s.drop_last(), keep);
    }
}

proof fn filter_all<A>(s: Seq<A>, keep: spec_fn(A) -> bool)
    requires
        forall|k: int| 0 <= k < s.len() ==> keep(#[trigger] s[k]),
    ensures
        s.filter(keep) == s,
    decreases s.len(),
{
    reveal(Seq::filter);
    if s.len() > 0 {
        assert forall|k: int| 0 <= k < s.drop_last().len() implies keep(
            #[trigger] s.drop_last()[k],
        ) by {
            assert(s.drop_last()[k] == s[k]);
        }
        filter_all(s.drop_last(), keep);
        assert(s.drop_last().push(s.last()) =~= s);
    } else {
        assert(s.filter(keep) =~= s);
    }
}

/// A probe row without a match is in the join once.
pub proof fn unmatched_row_is_kept_once(matches: Seq<Seq<RowPtr>>)
    ensures
        unmatched_rows(matches).no_duplicates(),
    decreases matches.len(),
{
    if matches.len() > 0 {
        unmatched_row_is_kept_once(matches.drop_last());
        rows_in_range(matches.drop_last());
    }
}

/// Where every bit is set, everything is selected.
pub proof fn select_all<A>(s: Seq<A>, n: nat)
    requires
        s.len() <= n,
    ensures
        select(s, all_set(n)) == s,
    decreases s.len(),
{
    if s.len() > 0 {
        select_all(s.drop_last(), n);
        assert(s.drop_last().push(s.last()) =~= s);
    } else {
        assert(select(s, all_set(n)) =~= s);
    }
}

/// Where every bit is clear, nothing is selected.
pub proof fn select_none<A>(s: Seq<A>, n: nat)
    requires
        s.len() <= n,
    ensures
        select(s, all_clear(n)) == Seq::<A>::empty(),
    decreases s.len(),
{
    if s.len() > 0 {
        select_none(s.drop_last(), n);
    }
}

/// Bits beyond the elements do not count.
pub proof fn select_by_first_bits<A>(s: Seq<A>, bits: Seq<bool>, n: int)
    requires
        s.len() <= n <= bits.len(),
    ensures
        select(s, bits.take(n)) == select(s, bits),
    decreases s.len(),
{
    if s.len() > 0 {
        select_by_first_bits(s.drop_last(), bits, n);
    }
}

/// The first entries of runs.
pub open spec fn run_rows(runs: Seq<(u32, u32)>) -> Seq<int> {
    runs.map_values(|run: (u32, u32)| run.0 as int)
}

/// Whether every run is of one row.
pub open spec fn all_single(runs: Seq<(u32, u32)>) -> bool {
    forall|k: int| 0 <= k < runs.len() ==> (#[trigger] runs[k]).1 == 1
}

/// Runs of one row each are expanded to their rows.
pub proof fn expand_single(runs: Seq<(u32, u32)>)
    requires
        all_single(runs),
    ensures
        expand(runs) == run_rows(runs),
    decreases runs.len(),
{
    if runs.len() > 0 {
        let rest = runs.drop_last();
        assert(all_single(rest)) by {
            assert forall|k: int| 0 <= k < rest.len() implies (#[trigger] rest[k]).1 == 1 by {
                assert(rest[k] == runs[k]);
            }
        }
        expand_single(rest);
        assert(runs[runs.len() - 1].1 == 1);
        assert(expand(runs) =~= run_rows(runs));
    } else {
        assert(expand(runs) =~= run_rows(runs));
    }
}

/// What is selected of two lists is selected of each.
pub proof fn select_append<A>(a: Seq<A>, b: Seq<A>, bits_a: Seq<bool>, bits_b: Seq<bool>)
    requires
        a.len() == bits_a.len(),
        b.len() <= bits_b.len(),
    ensures
        select(a + b, bits_a + bits_b) == select(a, bits_a) + select(b, bits_b),
    decreases b.len(),
{
    if b.len() > 0 {
        select_append(a, b.drop_last(), bits_a, bits_b);
        assert((a + b).drop_last() =~= a + b.drop_last());
        assert(select(a + b, bits_a + bits_b) =~= select(a, bits_a) + select(b, bits_b));
    } else {
        assert(a + b =~= a);
        assert((bits_a + bits_b).take(a.len() as int) =~= bits_a);
        select_by_first_bits(a, bits_a + bits_b, a.len() as int);
        assert(select(a, bits_a) + select(b, bits_b) =~= select(a, bits_a));
    }
}

/// The build rows of the selected pairs are the selected build rows.
pub proof fn select_build_rows(pairs: Seq<(int, RowPtr)>, bits: Seq<bool>)
    ensures
        build_rows(select(pairs, bits)) == select(build_rows(pairs), bits),
    decreases pairs.len(),
{
    if pairs.len() > 0 {
        select_build_rows(pairs.drop_last(), bits);
        assert(build_rows(pairs).drop_last() =~= build_rows(pairs.drop_last()));
    }
    assert(build_rows(select(pairs, bits)) =~= select(build_rows(pairs), bits));
}

/// How many of `pairs` are of the probe row `row`.
pub open spec fn pair_count(pairs: Seq<(int, RowPtr)>, row: int) -> nat
    decreases pairs.len(),
{
    if pairs.len() == 0 {
        0
    } else {
        pair_count(pairs.drop_last(), row) + if pairs.last().0 == row {
            1nat
        } else {
            0nat
        }
    }
}

/// The probe rows below `n` of which there is no pair among `pairs`, in order.
pub open spec fn rows_without_pair(pairs: Seq<(int, RowPtr)>, n: nat) -> Seq<int>
    decreases n,
{
    if n == 0 {
        Seq::empty()
    } else {
        let rest = rows_without_pair(pairs, (n - 1) as nat);
        if pair_count(pairs, n - 1) == 0 {
            rest.push(n - 1)
        } else {
            rest
        }
    }
}

/// Pairs of two lists are counted in each.
pub proof fn pair_count_append(a: Seq<(int, RowPtr)>, b: Seq<(int, RowPtr)>, row: int)
    ensures
        pair_count(a + b, row) == pair_count(a, row) + pair_count(b, row),
    decreases b.len(),
{
    if b.len() > 0 {
        pair_count_append(a, b.drop_last(), row);
        assert((a + b).drop_last() =~= a + b.drop_last());
    } else {
        assert(a + b =~= a);
    }
}

/// The pairs of one probe row count for that row.
pub proof fn pair_count_of_row(at: int, matched: Seq<RowPtr>, row: int)
    ensures
        pair_count(row_pairs(at, matched), row) == if at == row {
            matched.len()
        } else {
            0
        },
    decreases matched.len(),
{
    if matched.len() > 0 {
        pair_count_of_row(at, matched.drop_last(), row);
        assert(row_pairs(at, matched).drop_last() =~= row_pairs(at, matched.drop_last()));
    }
}

/// A pair counts for its row.
pub proof fn pair_is_counted(pairs: Seq<(int, RowPtr)>, row: int)
    ensures
        pair_count(pairs, row) > 0 <==> exists|k: int|
            0 <= k < pairs.len() && (#[trigger] pairs[k]).0 == row,
    decreases pairs.len(),
{
    if pairs.len() > 0 {
        let rest = pairs.drop_last();
        pair_is_counted(rest, row);
        if pairs.last().0 == row {
            assert(pairs[pairs.len() - 1].0 == row);
        }
        if pair_count(rest, row) > 0 {
            let k = choose|k: int| 0 <= k < rest.len() && (#[trigger] rest[k]).0 == row;
            assert(pairs[k].0 == row);
        }
        if exists|k: int| 0 <= k < pairs.len() && (#[trigger] pairs[k]).0 == row {
            let k = choose|k: int| 0 <= k < pairs.len() && (#[trigger] pairs[k]).0 == row;
            if k < rest.len() {
                assert(rest[k].0 == row);
            }
        }
    }
}

/// A probe row is among those without a pair exactly when there is no pair of it.
pub proof fn row_without_pair_has_none(pairs: Seq<(int, RowPtr)>, n: nat, row: int)
    ensures
        rows_without_pair(pairs, n).contains(row) <==> 0 <= row < n && pair_count(pairs, row) == 0,
        rows_without_pair(pairs, n).no_duplicates(),
        forall|k: int|
            0 <= k < rows_without_pair(pairs, n).len() ==> 0 <= #[trigger] rows_without_pair(
                pairs,
                n,
            )[k] < n,
    decreases n,
{
    let all = rows_without_pair(pairs, n);
    if n > 0 {
        let rest = rows_without_pair(pairs, (n - 1) as nat);
        row_without_pair_has_none(pairs, (n - 1) as nat, row);
        assert forall|k: int| 0 <= k < rest.len() implies all[k] == #[trigger] rest[k] by {}
        if rest.contains(row) {
            let k = choose|k: int| 0 <= k < rest.len() && rest[k] == row;
            assert(all[k] == row);
        }
        if row == n - 1 && pair_count(pairs, row) == 0 {
            assert(all[rest.len() as int] == row);
        }
        if all.contains(row) {
            let k = choose|k: int| 0 <= k < all.len() && all[k] == row;
            if k < rest.len() {
                assert(rest[k] == row);
            }
        }
    }
}

/// A row has as many pairs as it has matches, and one beyond the input has none.
pub proof fn pair_count_is_match_count(matches: Seq<Seq<RowPtr>>, row: int)
    ensures
        pair_count(matched_rows(matches), row) == if 0 <= row < matches.len() {
            matches[row].len()
        } else {
            0
        },
    decreases matches.len(),
{
    if matches.len() > 0 {
        pair_count_is_match_count(matches.drop_last(), row);
        pair_count_of_row(matches.len() - 1, matches.last(), row);
        pair_count_append(
            matched_rows(matches.drop_last()),
            row_pairs(matches.len() - 1, matches.last()),
            row,
        );
    }
}

/// Where every pair stays, the rows of which no pair stays are those without a match.
pub proof fn rows_without_pair_are_unmatched(matches: Seq<Seq<RowPtr>>)
    ensures
        rows_without_pair(matched_rows(matches), matches.len()) == unmatched_rows(matches),
{
    first_rows_without_pair_are_unmatched(matches, matches.len());
    assert(matches.take(matches.len() as int) =~= matches);
}

proof fn first_rows_without_pair_are_unmatched(matches: Seq<Seq<RowPtr>>, n: nat)
    requires
        n <= matches.len(),
    ensures
        rows_without_pair(matched_rows(matches), n) == unmatched_rows(matches.take(n as int)),
    decreases n,
{
    if n > 0 {
        first_rows_without_pair_are_unmatched(matches, (n - 1) as nat);
        pair_count_is_match_count(matches, n - 1);
        assert(matches.take(n as int).drop_last() =~= matches.take(n - 1));
    }
}

/// Of a list with one element more, that one is selected too exactly when its bit is set.
pub proof fn selected_by_their_bits<A>(s: Seq<A>, more: A, bits: Seq<bool>)
    ensures
        select(Seq::<A>::empty(), bits) == Seq::<A>::empty(),
        bits[s.len() as int] ==> select(s.push(more), bits) == select(s, bits).push(more),
        !bits[s.len() as int] ==> select(s.push(more), bits) == select(s, bits),
{
    assert(s.push(more).drop_last() =~= s);
}

/// What is selected is what has its bit set.
pub proof fn selected_have_their_bit_set<A>(s: Seq<A>, bits: Seq<bool>, a: A)
    ensures
        select(s, bits).contains(a) <==> exists|k: int|
            0 <= k < s.len() && bits[k] && #[trigger] s[k] == a,
    decreases s.len(),
{
    if s.len() > 0 {
        let rest = s.drop_last();
        let all = select(s, bits);
        let some = select(rest, bits);
        selected_have_their_bit_set(rest, bits, a);
        if some.contains(a) {
            let j = choose|j: int| 0 <= j < some.len() && some[j] == a;
            assert(all[j] == a);
            let k = choose|k: int| 0 <= k < rest.len() && bits[k] && #[trigger] rest[k] == a;
            assert(s[k] == a);
        }
        if bits[s.len() - 1] && s.last() == a {
            assert(all[some.len() as int] == a);
            assert(s[s.len() - 1] == a);
        }
        if all.contains(a) {
            let j = choose|j: int| 0 <= j < all.len() && all[j] == a;
            if j < some.len() {
                assert(some[j] == a);
            }
        }
        if exists|k: int| 0 <= k < s.len() && bits[k] && #[trigger] s[k] == a {
            let k = choose|k: int| 0 <= k < s.len() && bits[k] && #[trigger] s[k] == a;
            if k < rest.len() {
                assert(rest[k] == a);
            }
        }
    }
}

/// A run stands for its row as often as it says, and runs for their rows one behind the other.
pub proof fn runs_stand_for_their_rows(runs: Seq<(u32, u32)>, row: u32, count: u32)
    ensures
        expand(Seq::<(u32, u32)>::empty()).len() == 0,
        expand(runs.push((row, count))).len() == expand(runs).len() + count,
        forall|k: int|
            0 <= k < expand(runs).len() ==> #[trigger] expand(runs.push((row, count)))[k]
                == expand(runs)[k],
        forall|k: int|
            expand(runs).len() <= k < expand(runs).len() + count ==> #[trigger] expand(
                runs.push((row, count)),
            )[k] == row,
{
    expand_push(runs, row, count);
}

/// The joined pairs are, row by row, the row with each of its matches; the rows without a match are
/// those that have none, in order.
pub proof fn join_goes_row_by_row(matches: Seq<Seq<RowPtr>>, matched: Seq<RowPtr>)
    ensures
        matched_rows(Seq::<Seq<RowPtr>>::empty()).len() == 0,
        unmatched_rows(Seq::<Seq<RowPtr>>::empty()).len() == 0,
        matched_rows(matches.push(matched)) == matched_rows(matches) + Seq::new(
            matched.len(),
            |k: int| (matches.len() as int, matched[k]),
        ),
        matched.len() > 0 ==> unmatched_rows(matches.push(matched)) == unmatched_rows(matches),
        matched.len() == 0 ==> unmatched_rows(matches.push(matched)) == unmatched_rows(
            matches,
        ).push(matches.len() as int),
{
    rows_of_one_more(matches, matched);
    assert(row_pairs(matches.len() as int, matched) =~= Seq::new(
        matched.len(),
        |k: int| (matches.len() as int, matched[k]),
    ));
}

} // verus!
