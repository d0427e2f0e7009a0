//! The run assembler: groups stop-visit records by trip identifier into
//! ordered runs.
//!
//! Two modes, chosen at construction. The unsorted mode consumes the whole
//! input eagerly, groups every record under its trip, and sorts each run
//! by ascending stop-sequence number; the order in which different trips'
//! runs are then emitted is unspecified and callers must not depend on it.
//! The sorted mode assumes the input is already grouped contiguously by
//! trip and streams one maximal contiguous group per pull, never sorting
//! within a run and never holding more than one trip's records. When the
//! contiguity assumption is violated — a trip identifier reappears after
//! its group was closed — the sorted mode deliberately emits a second,
//! separate run under the same trip identifier rather than rejecting the
//! input; that behaviour is part of this type's contract.

use vstd::prelude::*;
use vstd::multiset::Multiset;

use crate::parse::str_eq;
use crate::transit::{StopTime, StopTimeV};

verus! {

broadcast use vstd::seq_lib::group_to_multiset_ensures;

/// The mathematical values of a sequence of stop visits.
pub open spec fn st_seq_view(s: Seq<StopTime>) -> Seq<StopTimeV> {
    Seq::new(s.len(), |i: int| s[i]@)
}

/// One trip's ordered stop visits.
#[derive(Debug, PartialEq, Clone)]
pub struct Run {
    pub trip: String,
    pub sequence: Vec<StopTime>,
}

/// The mathematical value of a `Run`.
pub struct RunV {
    pub trip: Seq<char>,
    pub sequence: Seq<StopTimeV>,
}

impl View for Run {
    type V = RunV;

    open spec fn view(&self) -> RunV {
        RunV { trip: self.trip@, sequence: st_seq_view(self.sequence@) }
    }
}

/// The mathematical values of a sequence of runs.
pub open spec fn runs_seq_view(s: Seq<Run>) -> Seq<RunV> {
    Seq::new(s.len(), |i: int| s[i]@)
}

/// Whether `s` is ordered by ascending stop-sequence number.
pub open spec fn sorted_by_stop_sequence(s: Seq<StopTimeV>) -> bool {
    forall|i: int, j: int| 0 <= i < j < s.len() ==> s[i].stop_sequence <= s[j].stop_sequence
}

/// The stop visits of `s` that belong to the trip named `trip`, in input
/// order.
pub open spec fn trip_filter(s: Seq<StopTimeV>, trip: Seq<char>) -> Seq<StopTimeV> {
    s.filter(|st: StopTimeV| st.trip_id == trip)
}

/// The end of the contiguous group that starts at `start`: the first
/// index at or after `i` whose trip differs from the group's, or the
/// input's end.
pub open spec fn group_end(s: Seq<StopTimeV>, start: int, i: int) -> int
    decreases s.len() - i,
{
    if i < 0 || i >= s.len() {
        i
    } else if s[i].trip_id != s[start].trip_id {
        i
    } else {
        group_end(s, start, i + 1)
    }
}

/// What the unsorted mode promises of its runs, as a relation between the
/// input and the grouped output: every run is non-empty, holds exactly the
/// input's records for its own trip, is sorted by ascending stop-sequence
/// number — precisely their stable sort, so equal sequence numbers keep
/// their input order — no two runs share a trip, and every input record's
/// trip has a run.
pub open spec fn unsorted_runs_of(input: Seq<StopTimeV>, runs: Seq<RunV>) -> bool {
    &&& forall|k: int| 0 <= k < runs.len() ==> (#[trigger] runs[k]).sequence.len() > 0
    &&& forall|k: int|
        0 <= k < runs.len() ==> sorted_by_stop_sequence((#[trigger] runs[k]).sequence)
    &&& forall|k: int|
        0 <= k < runs.len() ==> (#[trigger] runs[k]).sequence.to_multiset() == trip_filter(
            input,
            runs[k].trip,
        ).to_multiset()
    &&& forall|k: int|
        0 <= k < runs.len() ==> (#[trigger] runs[k]).sequence == stable_sort(
            trip_filter(input, runs[k].trip),
        )
    &&& forall|k1: int, k2: int|
        0 <= k1 < k2 < runs.len() ==> (#[trigger] runs[k1]).trip != (#[trigger] runs[k2]).trip
    &&& forall|j: int|
        0 <= j < input.len() ==> run_trips_cover(runs, (#[trigger] input[j]).trip_id)
}

/// Whether some run in `runs` carries the trip named `trip`.
pub open spec fn run_trips_cover(runs: Seq<RunV>, trip: Seq<char>) -> bool {
    exists|k: int| 0 <= k < runs.len() && (#[trigger] runs[k]).trip == trip
}

/// A run assembler: either the grouped and sorted runs still to be
/// emitted (unsorted mode), or the stop visits still to be grouped
/// (sorted mode).
pub enum Runs {
    Unsorted(Vec<Run>),
    Sorted(Vec<StopTime>),
}

/// The mathematical value of a `Runs`.
pub enum RunsV {
    Unsorted(Seq<RunV>),
    Sorted(Seq<StopTimeV>),
}

impl View for Runs {
    type V = RunsV;

    open spec fn view(&self) -> RunsV {
        match self {
            Runs::Unsorted(runs) => RunsV::Unsorted(runs_seq_view(runs@)),
            Runs::Sorted(items) => RunsV::Sorted(st_seq_view(items@)),
        }
    }
}

/// The multiset of a concatenation is the sum of the multisets.
proof fn lemma_to_multiset_of_add<A>(a: Seq<A>, b: Seq<A>)
    ensures
        (a + b).to_multiset() == a.to_multiset().add(b.to_multiset()),
    decreases b.len(),
{
    if b.len() == 0 {
        assert(a + b =~= a);
        assert(b.to_multiset() =~= Multiset::<A>::empty());
        assert(a.to_multiset().add(b.to_multiset()) =~= a.to_multiset());
    } else {
        lemma_to_multiset_of_add(a, b.drop_last());
        assert(a + b =~= (a + b.drop_last()).push(b.last()));
        assert(b =~= b.drop_last().push(b.last()));
        assert((a + b).to_multiset() =~= a.to_multiset().add(b.to_multiset()));
    }
}

/// Inserting an element anywhere adds it to the sequence's multiset.
proof fn lemma_to_multiset_of_insert<A>(s: Seq<A>, i: int, x: A)
    requires
        0 <= i <= s.len(),
    ensures
        s.insert(i, x).to_multiset() == s.to_multiset().insert(x),
{
    assert(s.insert(i, x) == s.subrange(0, i).push(x) + s.subrange(i, s.len() as int));
    lemma_to_multiset_of_add(s.subrange(0, i).push(x), s.subrange(i, s.len() as int));
    lemma_to_multiset_of_add(s.subrange(0, i), s.subrange(i, s.len() as int));
    assert(s =~= s.subrange(0, i) + s.subrange(i, s.len() as int));
    assert(s.insert(i, x).to_multiset() =~= s.to_multiset().insert(x));
}

/// Views of a sequence with one element removed.
proof fn lemma_st_seq_view_remove(s: Seq<StopTime>, i: int)
    requires
        0 <= i < s.len(),
    ensures
        st_seq_view(s.remove(i)) == st_seq_view(s).remove(i),
{
    s.remove_ensures(i);
    st_seq_view(s).remove_ensures(i);
    assert(st_seq_view(s.remove(i)) =~= st_seq_view(s).remove(i));
}

/// Views of a sequence with one element inserted.
proof fn lemma_st_seq_view_insert(s: Seq<StopTime>, i: int, x: StopTime)
    requires
        0 <= i <= s.len(),
    ensures
        st_seq_view(s.insert(i, x)) == st_seq_view(s).insert(i, x@),
{
    s.insert_ensures(i, x);
    st_seq_view(s).insert_ensures(i, x@);
    assert(st_seq_view(s.insert(i, x)) =~= st_seq_view(s).insert(i, x@));
}

/// Insert `x` into the sorted sequence `s`, after every element whose key
/// does not exceed `x`'s: equal keys keep their order.
pub open spec fn insert_stable(s: Seq<StopTimeV>, x: StopTimeV) -> Seq<StopTimeV>
    decreases s.len(),
{
    if s.len() == 0 {
        seq![x]
    } else if s.last().stop_sequence <= x.stop_sequence {
        s.push(x)
    } else {
        insert_stable(s.drop_last(), x).push(s.last())
    }
}

/// The stable sort of `s` by ascending stop-sequence number: ties keep
/// their input order.
pub open spec fn stable_sort(s: Seq<StopTimeV>) -> Seq<StopTimeV>
    decreases s.len(),
{
    if s.len() == 0 {
        Seq::empty()
    } else {
        insert_stable(stable_sort(s.drop_last()), s.last())
    }
}

/// Into a sorted sequence, the stable insertion puts `x` exactly at the
/// first position whose key exceeds `x`'s.
proof fn lemma_insert_stable_at(s: Seq<StopTimeV>, x: StopTimeV, j: int)
    requires
        sorted_by_stop_sequence(s),
        0 <= j <= s.len(),
        forall|m: int| 0 <= m < j ==> (#[trigger] s[m]).stop_sequence <= x.stop_sequence,
        j < s.len() ==> s[j].stop_sequence > x.stop_sequence,
    ensures
        insert_stable(s, x) == s.insert(j, x),
    decreases s.len(),
{
    if s.len() == 0 {
        assert(insert_stable(s, x) =~= s.insert(0, x));
    } else if s.last().stop_sequence <= x.stop_sequence {
        assert(j == s.len() as int) by {
            if j < s.len() {
                assert(s[j].stop_sequence <= s.last().stop_sequence);
            }
        }
        assert(s.push(x) =~= s.insert(s.len() as int, x));
    } else {
        assert(j < s.len());
        let d = s.drop_last();
        assert(sorted_by_stop_sequence(d)) by {
            assert(forall|a: int, b: int|
                0 <= a < b < d.len() ==> d[a] == s[a] && d[b] == s[b]);
        }
        lemma_insert_stable_at(d, x, j);
        d.insert_ensures(j, x);
        s.insert_ensures(j, x);
        assert(insert_stable(d, x).push(s.last()) =~= s.insert(j, x));
    }
}

/// Sort the stop visits in place: the result is exactly the stable sort of
/// the input by ascending stop-sequence number — the records are only
/// rearranged, and equal sequence numbers keep their input order.
fn sort_by_stop_sequence(v: &mut Vec<StopTime>)
    ensures
        sorted_by_stop_sequence(st_seq_view(final(v)@)),
        st_seq_view(final(v)@).to_multiset() == st_seq_view(old(v)@).to_multiset(),
        st_seq_view(final(v)@) == stable_sort(st_seq_view(old(v)@)),
{
    proof {
        let sv0 = st_seq_view(v@);
        if sv0.len() > 0 {
            assert(sv0.take(1).drop_last() =~= Seq::<StopTimeV>::empty());
            assert(stable_sort(sv0.take(1)) == insert_stable(
                stable_sort(sv0.take(1).drop_last()),
                sv0.take(1).last(),
            ));
            assert(stable_sort(sv0.take(1)) =~= sv0.take(1));
        }
    }
    let mut i: usize = 1;
    while i < v.len()
        invariant
            i >= 1,
            v@.len() == old(v)@.len(),
            v@.len() > 0 ==> i <= v@.len(),
            sorted_by_stop_sequence(st_seq_view(v@).take(if i <= v@.len() {
                i as int
            } else {
                v@.len() as int
            })),
            st_seq_view(v@).to_multiset() == st_seq_view(old(v)@).to_multiset(),
            st_seq_view(v@).take(if i <= v@.len() {
                i as int
            } else {
                v@.len() as int
            }) == stable_sort(st_seq_view(old(v)@).take(if i <= v@.len() {
                i as int
            } else {
                v@.len() as int
            })),
            st_seq_view(v@).skip(if i <= v@.len() {
                i as int
            } else {
                v@.len() as int
            }) == st_seq_view(old(v)@).skip(if i <= v@.len() {
                i as int
            } else {
                v@.len() as int
            }),
        decreases v@.len() - i,
    {
        let ghost vseq = v@;
        let ghost sv = st_seq_view(v@);
        // find where to put v[i]: after every earlier key not above it
        let mut j: usize = 0;
        while j < i && v[j].stop_sequence <= v[i].stop_sequence
            invariant
                0 <= j <= i < v@.len(),
                vseq == v@,
                sv == st_seq_view(v@),
                forall|m: int| 0 <= m < j ==> sv[m].stop_sequence <= sv[i as int].stop_sequence,
            decreases i - j,
        {
            proof {
                assert(sv[j as int] == v@[j as int]@);
                assert(sv[i as int] == v@[i as int]@);
            }
            j += 1;
        }
        let ghost exited_early = j < i;
        proof {
            if exited_early {
                assert(sv[j as int].stop_sequence > sv[i as int].stop_sequence);
            }
        }
        let x = v.remove(i);
        v.insert(j, x);
        proof {
            lemma_st_seq_view_remove(vseq, i as int);
            lemma_st_seq_view_insert(vseq.remove(i as int), j as int, x);
            let svr = sv.remove(i as int);
            let nv = st_seq_view(v@);
            assert(nv == svr.insert(j as int, x@));
            // the records are only rearranged
            lemma_to_multiset_of_insert(svr, j as int, x@);
            assert(sv.contains(x@)) by {
                assert(sv[i as int] == x@);
            }
            assert(sv.to_multiset().remove(x@).insert(x@) =~= sv.to_multiset());
            // the sorted prefix grew by one
            sv.remove_ensures(i as int);
            svr.insert_ensures(j as int, x@);
            assert(x@ == sv[i as int]);
            assert(forall|m: int| 0 <= m < j ==> nv[m] == sv[m]);
            assert(nv[j as int] == x@);
            assert(forall|m: int| j < m <= i ==> nv[m] == sv[m - 1]);
            assert(forall|a: int, b: int|
                0 <= a < b < i ==> sv.take(i as int)[a] == sv[a] && sv.take(i as int)[b] == sv[b]);
            assert forall|a: int, b: int| 0 <= a < b <= i as int implies nv[a].stop_sequence
                <= nv[b].stop_sequence by {
                if b < j {
                    assert(nv[a] == sv[a] && nv[b] == sv[b]);
                } else if b == j {
                    assert(nv[a] == sv[a] && nv[b] == x@);
                    assert(sv[a].stop_sequence <= x@.stop_sequence);
                } else {
                    assert(j < i);
                    assert(nv[b] == sv[b - 1]);
                    assert(sv[j as int].stop_sequence > x@.stop_sequence);
                    assert(sv[j as int].stop_sequence <= sv[b - 1].stop_sequence);
                    if a < j {
                        assert(nv[a] == sv[a]);
                        assert(sv[a].stop_sequence <= x@.stop_sequence);
                    } else if a == j {
                        assert(nv[a] == x@);
                    } else {
                        assert(nv[a] == sv[a - 1]);
                        assert(sv[a - 1].stop_sequence <= sv[b - 1].stop_sequence);
                    }
                }
            }
            assert(sorted_by_stop_sequence(nv.take(i + 1))) by {
                assert(forall|m: int| 0 <= m <= i ==> nv.take(i + 1)[m] == nv[m]);
            }
            // the grown prefix is the stable sort of the input's prefix
            let orig = st_seq_view(old(v)@);
            assert(sv.len() == orig.len());
            assert(sv.skip(i as int)[0] == orig.skip(i as int)[0]);
            assert(x@ == orig[i as int]);
            let prefix = sv.take(i as int);
            assert(forall|m: int| 0 <= m < i ==> prefix[m] == sv[m]);
            lemma_insert_stable_at(prefix, x@, j as int);
            prefix.insert_ensures(j as int, x@);
            assert(nv.take(i + 1) =~= prefix.insert(j as int, x@));
            assert(orig.take(i + 1).drop_last() =~= orig.take(i as int));
            assert(orig.take(i + 1).last() == orig[i as int]);
            assert(stable_sort(orig.take(i + 1)) == insert_stable(
                stable_sort(orig.take(i as int)),
                orig[i as int],
            ));
            assert(nv.take(i + 1) == stable_sort(orig.take(i + 1)));
            // beyond the prefix nothing moved
            assert forall|m: int| i + 1 <= m < nv.len() implies nv[m] == orig[m] by {
                assert(nv[m] == svr[m - 1]);
                assert(svr[m - 1] == sv[m]);
                assert(sv.skip(i as int)[m - i] == orig.skip(i as int)[m - i]);
            }
            assert(nv.skip(i + 1) =~= orig.skip(i + 1));
        }
        i += 1;
    }
    proof {
        if v@.len() > 0 {
            assert(st_seq_view(v@).take(v@.len() as int) =~= st_seq_view(v@));
            assert(st_seq_view(old(v)@).take(v@.len() as int) =~= st_seq_view(old(v)@));
        } else {
            assert(st_seq_view(v@).len() == 0);
            assert(st_seq_view(v@) =~= stable_sort(st_seq_view(old(v)@)));
        }
    }
}


/// Filtering a sequence extended by one record keeps the old filtrate and
/// appends the record exactly when its trip matches.
proof fn lemma_trip_filter_push(s: Seq<StopTimeV>, trip: Seq<char>, x: StopTimeV)
    ensures
        trip_filter(s.push(x), trip) == if x.trip_id == trip {
            trip_filter(s, trip).push(x)
        } else {
            trip_filter(s, trip)
        },
{
    reveal(Seq::filter);
    assert((s.push(x)).drop_last() =~= s);
    assert((s.push(x)).last() == x);
}

/// A trip that occurs in the input has a non-empty filtrate.
proof fn lemma_trip_filter_len_pos(s: Seq<StopTimeV>, trip: Seq<char>, j: int)
    requires
        0 <= j < s.len(),
        s[j].trip_id == trip,
    ensures
        trip_filter(s, trip).len() > 0,
    decreases s.len(),
{
    reveal(Seq::filter);
    if j == s.len() - 1 {
        assert(s.last() == s[j]);
    } else {
        assert(s.drop_last()[j] == s[j]);
        lemma_trip_filter_len_pos(s.drop_last(), trip, j);
    }
}

/// The trip names of a sequence of owned strings.
spec fn trips_view(s: Seq<String>) -> Seq<Seq<char>> {
    Seq::new(s.len(), |i: int| s[i]@)
}

/// Whether one of the collected trip names is `trip`.
spec fn covers(tv: Seq<Seq<char>>, trip: Seq<char>) -> bool {
    exists|k: int| 0 <= k < tv.len() && tv[k] == trip
}

/// Whether a record with trip `trip` stands among the first `upto` of the
/// input.
spec fn occurs(input: Seq<StopTimeV>, upto: int, trip: Seq<char>) -> bool {
    exists|j: int| 0 <= j < upto && j < input.len() && (#[trigger] input[j]).trip_id == trip
}

/// A collected trip stays collected when another name is added.
proof fn lemma_covers_push(tv: Seq<Seq<char>>, y: Seq<char>, trip: Seq<char>)
    requires
        covers(tv, trip),
    ensures
        covers(tv.push(y), trip),
{
    let k = choose|k: int| 0 <= k < tv.len() && tv[k] == trip;
    assert(tv.push(y)[k] == trip);
}

/// Characterizes `group_end` by its result: `n` closes the group starting
/// at the input's head when everything before `n` shares the head's trip
/// and `n` is the input's end or the first departure.
proof fn lemma_group_end_from(s: Seq<StopTimeV>, i: int, n: int)
    requires
        0 <= i <= n <= s.len(),
        forall|k: int| 0 <= k < n ==> (#[trigger] s[k]).trip_id == s[0].trip_id,
        n == s.len() || s[n].trip_id != s[0].trip_id,
    ensures
        group_end(s, 0, i) == n,
    decreases n - i,
{
    if i < n {
        lemma_group_end_from(s, i + 1, n);
    }
}

/// What closes the group at a non-empty input's head: everything before
/// `group_end` shares the head's trip, the group is not empty, and it ends
/// at the input's end or right before the first record of another trip.
pub proof fn lemma_group_end_properties(s: Seq<StopTimeV>)
    requires
        s.len() > 0,
    ensures
        0 < group_end(s, 0, 0) <= s.len(),
        forall|k: int| 0 <= k < group_end(s, 0, 0) ==> (#[trigger] s[k]).trip_id == s[0].trip_id,
        group_end(s, 0, 0) < s.len() ==> s[group_end(s, 0, 0)].trip_id != s[0].trip_id,
{
    lemma_group_end_properties_from(s, 0);
}

/// The part of `lemma_group_end_properties` that steps through the group.
proof fn lemma_group_end_properties_from(s: Seq<StopTimeV>, i: int)
    requires
        s.len() > 0,
        0 <= i <= s.len(),
        forall|k: int| 0 <= k < i ==> (#[trigger] s[k]).trip_id == s[0].trip_id,
    ensures
        i <= group_end(s, 0, i) <= s.len(),
        i < s.len() && s[i].trip_id == s[0].trip_id ==> i < group_end(s, 0, i),
        forall|k: int| 0 <= k < group_end(s, 0, i) ==> (#[trigger] s[k]).trip_id == s[0].trip_id,
        group_end(s, 0, i) < s.len() ==> s[group_end(s, 0, i)].trip_id != s[0].trip_id,
    decreases s.len() - i,
{
    if i < s.len() && s[i].trip_id == s[0].trip_id {
        lemma_group_end_properties_from(s, i + 1);
    }
}

impl Runs {
    /// Sorted/streaming mode over an input already grouped contiguously by
    /// trip: each pull emits one maximal contiguous group. The grouping is
    /// not re-validated: a trip identifier that reappears after its group
    /// was closed starts a second run under the same identifier.
    pub fn from_sorted(stop_times: Vec<StopTime>) -> (r: Runs)
        ensures
            r@ == RunsV::Sorted(st_seq_view(stop_times@)),
    {
        Runs::Sorted(stop_times)
    }

    /// Unsorted mode: consume the whole input, group every record under
    /// its trip, and sort each run by ascending stop-sequence number. The
    /// order in which different trips' runs are later emitted is
    /// unspecified; callers must not depend on it.
    pub fn from_unsorted(stop_times: Vec<StopTime>) -> (r: Runs)
        ensures
            r@ matches RunsV::Unsorted(runs) && unsorted_runs_of(st_seq_view(stop_times@), runs),
    {
        let ghost input = st_seq_view(stop_times@);
        // the distinct trips, in order of first appearance
        let mut trips: Vec<String> = Vec::new();
        let mut i: usize = 0;
        while i < stop_times.len()
            invariant
                input == st_seq_view(stop_times@),
                0 <= i <= stop_times@.len(),
                forall|k1: int, k2: int|
                    0 <= k1 < k2 < trips_view(trips@).len() ==> #[trigger] trips_view(trips@)[k1]
                        != #[trigger] trips_view(trips@)[k2],
                forall|j: int|
                    0 <= j < i ==> covers(trips_view(trips@), (#[trigger] input[j]).trip_id),
                forall|k: int|
                    0 <= k < trips_view(trips@).len() ==> occurs(
                        input,
                        i as int,
                        #[trigger] trips_view(trips@)[k],
                    ),
            decreases stop_times@.len() - i,
        {
            let ghost tv0 = trips_view(trips@);
            let ghost x = input[i as int].trip_id;
            let mut k: usize = 0;
            let mut seen: bool = false;
            while k < trips.len()
                invariant
                    input == st_seq_view(stop_times@),
                    0 <= i < stop_times@.len(),
                    x == input[i as int].trip_id,
                    tv0 == trips_view(trips@),
                    0 <= k <= trips@.len(),
                    seen ==> covers(tv0, x),
                    !seen ==> forall|m: int| 0 <= m < k ==> #[trigger] tv0[m] != x,
                decreases trips@.len() - k,
            {
                if str_eq(trips[k].as_str(), stop_times[i].trip_id.as_str()) {
                    proof {
                        assert(input[i as int] == stop_times@[i as int]@);
                        assert(tv0[k as int] == trips@[k as int]@);
                        assert(covers(tv0, x));
                    }
                    seen = true;
                }
                k += 1;
            }
            if !seen {
                trips.push(stop_times[i].trip_id.clone());
                proof {
                    let tv1 = trips_view(trips@);
                    assert(tv1 =~= tv0.push(x)) by {
                        assert(input[i as int] == stop_times@[i as int]@);
                    }
                    assert(tv1[tv0.len() as int] == x);
                    assert(covers(tv1, x));
                    assert forall|j: int| 0 <= j <= i as int implies covers(
                        tv1,
                        (#[trigger] input[j]).trip_id,
                    ) by {
                        if j < i as int {
                            lemma_covers_push(tv0, x, input[j].trip_id);
                        }
                    }
                    assert forall|kk: int| 0 <= kk < tv1.len() implies occurs(
                        input,
                        i + 1,
                        #[trigger] tv1[kk],
                    ) by {
                        if kk < tv0.len() {
                            assert(occurs(input, i as int, tv0[kk]));
                            let jw = choose|jw: int|
                                0 <= jw < i as int && jw < input.len() && (
                                #[trigger] input[jw]).trip_id == tv0[kk];
                            assert(occurs(input, i + 1, tv1[kk]));
                        } else {
                            assert(tv1[kk] == x);
                            assert(occurs(input, i + 1, x));
                        }
                    }
                }
            } else {
                proof {
                    assert forall|kk: int| 0 <= kk < tv0.len() implies occurs(
                        input,
                        i + 1,
                        #[trigger] tv0[kk],
                    ) by {
                        assert(occurs(input, i as int, tv0[kk]));
                        let jw = choose|jw: int|
                            0 <= jw < i as int && jw < input.len() && (
                            #[trigger] input[jw]).trip_id == tv0[kk];
                        assert(occurs(input, i + 1, tv0[kk]));
                    }
                    assert(occurs(input, i + 1, x));
                }
            }
            i += 1;
        }
        // build one run per trip: its records in input order, then sorted
        let mut runs: Vec<Run> = Vec::new();
        let mut t: usize = 0;
        while t < trips.len()
            invariant
                input == st_seq_view(stop_times@),
                0 <= t <= trips@.len(),
                runs@.len() == t,
                forall|k1: int, k2: int|
                    0 <= k1 < k2 < trips_view(trips@).len() ==> #[trigger] trips_view(trips@)[k1]
                        != #[trigger] trips_view(trips@)[k2],
                forall|j: int|
                    0 <= j < input.len() ==> covers(
                        trips_view(trips@),
                        (#[trigger] input[j]).trip_id,
                    ),
                forall|k: int|
                    0 <= k < trips_view(trips@).len() ==> occurs(
                        input,
                        input.len() as int,
                        #[trigger] trips_view(trips@)[k],
                    ),
                forall|k: int|
                    0 <= k < t ==> (#[trigger] runs_seq_view(runs@)[k]).trip == trips_view(
                        trips@,
                    )[k],
                forall|k: int|
                    0 <= k < t ==> sorted_by_stop_sequence(
                        (#[trigger] runs_seq_view(runs@)[k]).sequence,
                    ),
                forall|k: int|
                    0 <= k < t ==> (#[trigger] runs_seq_view(runs@)[k]).sequence.len() > 0,
                forall|k: int|
                    0 <= k < t ==> (#[trigger] runs_seq_view(runs@)[k]).sequence.to_multiset()
                        == trip_filter(input, trips_view(trips@)[k]).to_multiset(),
                forall|k: int|
                    0 <= k < t ==> (#[trigger] runs_seq_view(runs@)[k]).sequence == stable_sort(
                        trip_filter(input, trips_view(trips@)[k]),
                    ),
            decreases trips@.len() - t,
        {
            let ghost tr = trips_view(trips@)[t as int];
            let mut sequence: Vec<StopTime> = Vec::new();
            let mut j: usize = 0;
            while j < stop_times.len()
                invariant
                    input == st_seq_view(stop_times@),
                    0 <= t < trips@.len(),
                    tr == trips_view(trips@)[t as int],
                    0 <= j <= stop_times@.len(),
                    st_seq_view(sequence@) == trip_filter(input.take(j as int), tr),
                decreases stop_times@.len() - j,
            {
                let ghost seq_before = st_seq_view(sequence@);
                proof {
                    assert(input[j as int] == stop_times@[j as int]@);
                    assert(tr == trips@[t as int]@);
                }
                if str_eq(stop_times[j].trip_id.as_str(), trips[t].as_str()) {
                    sequence.push(stop_times[j].clone());
                    proof {
                        assert(st_seq_view(sequence@) =~= seq_before.push(input[j as int]));
                    }
                }
                proof {
                    assert(input.take(j + 1) =~= input.take(j as int).push(input[j as int]));
                    lemma_trip_filter_push(input.take(j as int), tr, input[j as int]);
                }
                j += 1;
            }
            proof {
                assert(input.take(input.len() as int) =~= input);
            }
            sort_by_stop_sequence(&mut sequence);
            proof {
                // the trip occurs in the input, so its run is not empty
                assert(occurs(input, input.len() as int, tr));
                let jw = choose|jw: int|
                    0 <= jw < input.len() && jw < input.len() && (#[trigger] input[jw]).trip_id
                        == tr;
                lemma_trip_filter_len_pos(input, tr, jw);
                assert(trip_filter(input, tr).to_multiset().len() == trip_filter(input, tr).len());
                assert(st_seq_view(sequence@).to_multiset().len() == st_seq_view(sequence@).len());
            }
            let ghost runs_before = runs_seq_view(runs@);
            let ghost seq_final = st_seq_view(sequence@);
            let run = Run { trip: trips[t].clone(), sequence };
            proof {
                assert(run@.trip == tr);
                assert(run@.sequence == seq_final);
            }
            runs.push(run);
            proof {
                let rv = runs_seq_view(runs@);
                assert(rv =~= runs_before.push(RunV { trip: tr, sequence: seq_final }));
            }
            t += 1;
        }
        proof {
            let rv = runs_seq_view(runs@);
            let tv = trips_view(trips@);
            assert forall|j: int| 0 <= j < input.len() implies run_trips_cover(
                rv,
                (#[trigger] input[j]).trip_id,
            ) by {
                assert(covers(tv, input[j].trip_id));
                let k = choose|k: int| 0 <= k < tv.len() && tv[k] == input[j].trip_id;
                assert(rv[k].trip == input[j].trip_id);
            }
        }
        Runs::Unsorted(runs)
    }

    /// Pull the next run.
    ///
    /// In unsorted mode: one of the grouped, sorted runs, each exactly
    /// once, then nothing. In sorted mode: the maximal contiguous group at
    /// the input's head — its trip, and its records in input order, never
    /// re-sorted — then the rest of the input stays for later pulls;
    /// nothing once the input is exhausted.
    pub fn next(&mut self) -> (r: Option<Run>)
        ensures
            match old(self)@ {
                RunsV::Unsorted(runs) => {
                    if runs.len() == 0 {
                        r is None && final(self)@ == old(self)@
                    } else {
                        &&& final(self)@ == RunsV::Unsorted(runs.drop_last())
                        &&& r matches Some(run) && run@ == runs.last()
                    }
                },
                RunsV::Sorted(s) => {
                    if s.len() == 0 {
                        r is None && final(self)@ == old(self)@
                    } else {
                        let end = group_end(s, 0, 0);
                        &&& final(self)@ == RunsV::Sorted(s.skip(end))
                        &&& r matches Some(run) && run@.trip == s[0].trip_id && run@.sequence
                            == s.subrange(0, end)
                    }
                },
            },
    {
        let mut tmp: Runs = Runs::Sorted(Vec::new());
        core::mem::swap(self, &mut tmp);
        match tmp {
            Runs::Unsorted(mut runs) => {
                let ghost rv = runs_seq_view(runs@);
                let r = runs.pop();
                proof {
                    if rv.len() > 0 {
                        assert(runs_seq_view(runs@) =~= rv.drop_last());
                    }
                }
                *self = Runs::Unsorted(runs);
                r
            },
            Runs::Sorted(mut items) => {
                if items.len() == 0 {
                    *self = Runs::Sorted(items);
                    return None;
                }
                let ghost s0 = st_seq_view(items@);
                let trip: String = items[0].trip_id.clone();
                let mut sequence: Vec<StopTime> = Vec::new();
                while items.len() > 0 && str_eq(items[0].trip_id.as_str(), trip.as_str())
                    invariant
                        s0.len() > 0,
                        trip@ == s0[0].trip_id,
                        sequence@.len() <= s0.len(),
                        st_seq_view(sequence@) == s0.take(sequence@.len() as int),
                        st_seq_view(items@) == s0.skip(sequence@.len() as int),
                        forall|k: int|
                            0 <= k < sequence@.len() ==> (#[trigger] s0[k]).trip_id
                                == s0[0].trip_id,
                    decreases items@.len(),
                {
                    let ghost n = sequence@.len() as int;
                    proof {
                        assert(items@.len() > 0);
                        assert(st_seq_view(items@).len() == items@.len());
                        assert(s0.skip(n).len() == s0.len() - n);
                        assert(n < s0.len());
                        assert(st_seq_view(items@)[0] == items@[0]@);
                        assert(s0.skip(n)[0] == s0[0 + n]);
                        assert(items@[0]@ == s0[n]);
                        assert(s0[n].trip_id == trip@);
                    }
                    let ghost items0 = items@;
                    let st = items.remove(0);
                    sequence.push(st);
                    proof {
                        assert(st_seq_view(sequence@) =~= s0.take(n + 1));
                        items0.remove_ensures(0);
                        assert forall|k: int| 0 <= k < items@.len() implies st_seq_view(items@)[k]
                            == s0.skip(n + 1)[k] by {
                            assert(items@[k] == items0[k + 1]);
                            assert(items0[k + 1]@ == st_seq_view(items0)[k + 1]);
                            assert(s0.skip(n)[k + 1] == s0[n + 1 + k]);
                            assert(s0.skip(n + 1)[k] == s0[k + (n + 1)]);
                        }
                        assert(st_seq_view(items@) =~= s0.skip(n + 1));
                    }
                }
                proof {
                    let n = sequence@.len() as int;
                    if items.len() == 0 {
                        assert(st_seq_view(items@).len() == 0);
                        assert(s0.skip(n).len() == 0);
                        lemma_group_end_from(s0, 0, n);
                    } else {
                        assert(st_seq_view(items@)[0] == items@[0]@);
                        assert(s0.skip(n)[0] == s0[0 + n]);
                        assert(s0[n].trip_id != trip@);
                        lemma_group_end_from(s0, 0, n);
                    }
                    assert(st_seq_view(sequence@) == s0.subrange(0, group_end(s0, 0, 0)));
                }
                let run = Run { trip, sequence };
                *self = Runs::Sorted(items);
                Some(run)
            },
        }
    }
}


/// The stop visits of `s` that do not belong to the trip named `trip`.
spec fn trip_reject(s: Seq<StopTimeV>, trip: Seq<char>) -> Seq<StopTimeV> {
    s.filter(|st: StopTimeV| st.trip_id != trip)
}

/// Rejecting from a sequence extended by one record keeps the old result
/// and appends the record exactly when its trip differs.
proof fn lemma_trip_reject_push(s: Seq<StopTimeV>, trip: Seq<char>, x: StopTimeV)
    ensures
        trip_reject(s.push(x), trip) == if x.trip_id != trip {
            trip_reject(s, trip).push(x)
        } else {
            trip_reject(s, trip)
        },
{
    reveal(Seq::filter);
    assert((s.push(x)).drop_last() =~= s);
    assert((s.push(x)).last() == x);
}

/// One trip's records and the other trips' records together are exactly
/// the input records.
proof fn lemma_trip_partition(s: Seq<StopTimeV>, trip: Seq<char>)
    ensures
        s.to_multiset() == trip_filter(s, trip).to_multiset().add(
            trip_reject(s, trip).to_multiset(),
        ),
    decreases s.len(),
{
    broadcast use vstd::seq_lib::group_to_multiset_ensures;

    if s.len() == 0 {
        reveal(Seq::filter);
        assert(s.to_multiset() =~= Multiset::<StopTimeV>::empty());
        assert(trip_filter(s, trip).to_multiset() =~= Multiset::<StopTimeV>::empty());
        assert(trip_reject(s, trip).to_multiset() =~= Multiset::<StopTimeV>::empty());
        assert(s.to_multiset() =~= trip_filter(s, trip).to_multiset().add(
            trip_reject(s, trip).to_multiset(),
        ));
    } else {
        let d = s.drop_last();
        let x = s.last();
        lemma_trip_partition(d, trip);
        lemma_trip_filter_push(d, trip, x);
        lemma_trip_reject_push(d, trip, x);
        assert(s =~= d.push(x));
        assert(s.to_multiset() == d.to_multiset().insert(x));
        if x.trip_id == trip {
            assert(trip_filter(s, trip).to_multiset() == trip_filter(d, trip).to_multiset().insert(
                x,
            ));
            assert(trip_filter(d, trip).to_multiset().insert(x).add(
                trip_reject(d, trip).to_multiset(),
            ) =~= d.to_multiset().insert(x));
        } else {
            assert(trip_reject(s, trip).to_multiset() == trip_reject(d, trip).to_multiset().insert(
                x,
            ));
            assert(trip_filter(d, trip).to_multiset().add(
                trip_reject(d, trip).to_multiset().insert(x),
            ) =~= d.to_multiset().insert(x));
        }
    }
}

/// Filtering for a trip unaffected by a rejection sees the same records.
proof fn lemma_trip_filter_of_reject(s: Seq<StopTimeV>, t0: Seq<char>, t: Seq<char>)
    requires
        t != t0,
    ensures
        trip_filter(trip_reject(s, t0), t) == trip_filter(s, t),
    decreases s.len(),
{
    if s.len() == 0 {
        reveal(Seq::filter);
    } else {
        let d = s.drop_last();
        let x = s.last();
        lemma_trip_filter_of_reject(d, t0, t);
        lemma_trip_reject_push(d, t0, x);
        lemma_trip_filter_push(d, t, x);
        assert(s =~= d.push(x));
        if x.trip_id != t0 {
            lemma_trip_filter_push(trip_reject(d, t0), t, x);
        }
    }
}

/// Every rejected record comes from the input and names another trip.
proof fn lemma_trip_reject_elems(s: Seq<StopTimeV>, t0: Seq<char>, i: int)
    requires
        0 <= i < trip_reject(s, t0).len(),
    ensures
        trip_reject(s, t0)[i].trip_id != t0,
        exists|j: int| 0 <= j < s.len() && s[j] == trip_reject(s, t0)[i],
    decreases s.len(),
{
    if s.len() > 0 {
        let d = s.drop_last();
        let x = s.last();
        assert(s =~= d.push(x));
        lemma_trip_reject_push(d, t0, x);
        let r = trip_reject(s, t0);
        if x.trip_id != t0 && i == r.len() - 1 {
            assert(r[i] == x);
            assert(s[s.len() - 1] == r[i]);
        } else {
            lemma_trip_reject_elems(d, t0, i);
            let j = choose|j: int| 0 <= j < d.len() && d[j] == trip_reject(d, t0)[i];
            assert(s[j] == r[i]);
        }
    }
}

/// All the records of a sequence of runs, as one multiset.
pub open spec fn runs_multiset(runs: Seq<RunV>) -> Multiset<StopTimeV>
    decreases runs.len(),
{
    if runs.len() == 0 {
        Multiset::empty()
    } else {
        runs_multiset(runs.drop_last()).add(runs.last().sequence.to_multiset())
    }
}

/// What the unsorted mode's grouping adds up to: the records of all its
/// runs together are exactly the input records — none lost, none invented,
/// none duplicated.
pub proof fn lemma_unsorted_union_is_input(input: Seq<StopTimeV>, runs: Seq<RunV>)
    requires
        unsorted_runs_of(input, runs),
    ensures
        runs_multiset(runs) == input.to_multiset(),
    decreases runs.len(),
{
    broadcast use vstd::seq_lib::group_to_multiset_ensures;

    if runs.len() == 0 {
        assert(input.to_multiset().len() == input.len());
        if input.len() > 0 {
            assert(run_trips_cover(runs, input[0].trip_id));
        }
        assert(input.to_multiset() =~= Multiset::<StopTimeV>::empty());
    } else {
        let rl = runs.last();
        let runs0 = runs.drop_last();
        let input0 = trip_reject(input, rl.trip);
        assert(runs =~= runs0.push(rl));
        // the shorter run list groups the input without the last run's trip
        {
            assert(rl == runs[runs.len() - 1]);
            assert forall|k: int| 0 <= k < runs0.len() implies (
            #[trigger] runs0[k]).sequence.to_multiset() == trip_filter(
                input0,
                runs0[k].trip,
            ).to_multiset() by {
                assert(runs0[k] == runs[k]);
                assert(runs[k].trip != rl.trip);
                lemma_trip_filter_of_reject(input, rl.trip, runs0[k].trip);
            }
            assert forall|k: int| 0 <= k < runs0.len() implies (
            #[trigger] runs0[k]).sequence == stable_sort(trip_filter(input0, runs0[k].trip)) by {
                assert(runs0[k] == runs[k]);
                assert(runs[k].trip != rl.trip);
                lemma_trip_filter_of_reject(input, rl.trip, runs0[k].trip);
            }
            assert forall|k1: int, k2: int| 0 <= k1 < k2 < runs0.len() implies (
            #[trigger] runs0[k1]).trip != (#[trigger] runs0[k2]).trip by {
                assert(runs0[k1] == runs[k1] && runs0[k2] == runs[k2]);
            }
            assert forall|j: int| 0 <= j < input0.len() implies run_trips_cover(
                runs0,
                (#[trigger] input0[j]).trip_id,
            ) by {
                lemma_trip_reject_elems(input, rl.trip, j);
                let jj = choose|jj: int| 0 <= jj < input.len() && input[jj] == input0[j];
                assert(run_trips_cover(runs, input[jj].trip_id));
                let k = choose|k: int|
                    0 <= k < runs.len() && (#[trigger] runs[k]).trip == input[jj].trip_id;
                assert(input0[j].trip_id != rl.trip);
                assert(k < runs0.len());
                assert(runs0[k] == runs[k]);
                assert(runs0[k].trip == input0[j].trip_id);
            }
            assert forall|k: int| 0 <= k < runs0.len() implies (
            #[trigger] runs0[k]).sequence.len() > 0 by {
                assert(runs0[k] == runs[k]);
            }
            assert forall|k: int| 0 <= k < runs0.len() implies sorted_by_stop_sequence(
                (#[trigger] runs0[k]).sequence,
            ) by {
                assert(runs0[k] == runs[k]);
            }
            assert(unsorted_runs_of(input0, runs0));
        }
        lemma_unsorted_union_is_input(input0, runs0);
        lemma_trip_partition(input, rl.trip);
        assert(rl.sequence.to_multiset() == trip_filter(input, rl.trip).to_multiset());
        assert(runs_multiset(runs) == runs_multiset(runs0).add(rl.sequence.to_multiset()));
        assert(input0.to_multiset().add(trip_filter(input, rl.trip).to_multiset())
            =~= trip_filter(input, rl.trip).to_multiset().add(input0.to_multiset()));
    }
}

} // verus!
