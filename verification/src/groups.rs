//! Grouping of consecutive equal elements: a lazy adapter that splits a
//! slice into its maximal runs, front to back.

use vstd::prelude::*;
use vstd::slice::slice_index_get;
use vstd::slice::slice_subrange;
use vstd::std_specs::cmp::PartialEqSpec;

verus! {

/// Index just past the leading run of `s` when the scan has already
/// accepted every element before position `i` as equal to the anchor
/// `s[0]`: keeps advancing while the current element equals the anchor.
pub open spec fn run_scan<T: PartialEq>(s: Seq<T>, i: int) -> int
    recommends
        1 <= i <= s.len(),
    decreases s.len() - i
        when i <= s.len()
{
    if i < s.len() && s[i].eq_spec(&s[0]) {
        run_scan(s, i + 1)
    } else {
        i
    }
}

/// Length of the maximal leading run of a nonempty sequence: the number
/// of consecutive elements, starting at the front, that are equal to the
/// first element under the element type's equality.
pub open spec fn first_run_len<T: PartialEq>(s: Seq<T>) -> int
    recommends
        s.len() > 0,
{
    run_scan(s, 1)
}

proof fn lemma_run_scan_props<T: PartialEq>(s: Seq<T>, i: int)
    requires
        1 <= i <= s.len(),
    ensures
        i <= run_scan(s, i) <= s.len(),
        forall|j: int| i <= j < run_scan(s, i) ==> s[j].eq_spec(&s[0]),
        run_scan(s, i) < s.len() ==> !s[run_scan(s, i)].eq_spec(&s[0]),
    decreases s.len() - i,
{
    if i < s.len() && s[i].eq_spec(&s[0]) {
        lemma_run_scan_props(s, i + 1);
    }
}

proof fn lemma_run_scan_determined<T: PartialEq>(s: Seq<T>, m: int, i: int)
    requires
        1 <= m <= i <= s.len(),
        forall|j: int| m <= j < i ==> s[j].eq_spec(&s[0]),
        i < s.len() ==> !s[i].eq_spec(&s[0]),
    ensures
        run_scan(s, m) == i,
    decreases i - m,
{
    if m < i {
        lemma_run_scan_determined(s, m + 1, i);
    }
}

/// Law: the leading run of a nonempty sequence is nonempty, internally
/// uniform (every later element of the run equals the anchor `s[0]` under
/// the element type's equality), and maximal (the element just past the
/// run, when there is one, differs from the anchor).
pub proof fn lemma_first_run_uniform_maximal<T: PartialEq>(s: Seq<T>)
    requires
        s.len() > 0,
    ensures
        1 <= first_run_len(s) <= s.len(),
        forall|j: int| 1 <= j < first_run_len(s) ==> s[j].eq_spec(&s[0]),
        first_run_len(s) < s.len() ==> !s[first_run_len(s)].eq_spec(&s[0]),
{
    lemma_run_scan_props(s, 1);
}

/// Law: under an equality that is symmetric and transitive, as `Eq`
/// demands of a well-behaved element type, the elements of the leading
/// run are pairwise equal, not only each equal to the anchor.
pub proof fn lemma_first_run_pairwise_equal<T: PartialEq>(s: Seq<T>)
    requires
        s.len() > 0,
        vstd::laws_eq::obeys_eq_spec_properties::<T>(),
    ensures
        forall|j1: int, j2: int|
            0 <= j1 < first_run_len(s) && 0 <= j2 < first_run_len(s) && j1 != j2 ==> s[j1].eq_spec(
                &s[j2],
            ),
{
    lemma_run_scan_props(s, 1);
    reveal(vstd::laws_eq::obeys_eq_spec_properties);
    assert forall|j1: int, j2: int|
        0 <= j1 < first_run_len(s) && 0 <= j2 < first_run_len(s) && j1 != j2 implies s[j1].eq_spec(
        &s[j2],
    ) by {
        if j1 == 0 {
            assert(s[j2].eq_spec(&s[0]));
        } else if j2 == 0 {
            assert(s[j1].eq_spec(&s[0]));
        } else {
            assert(s[j1].eq_spec(&s[0]));
            assert(s[j2].eq_spec(&s[0]));
            assert(s[0].eq_spec(&s[j2]));
        }
    }
}

/// Lazy producer of the maximal runs of consecutive equal elements of a
/// slice, front to back. Each run comes out as a contiguous subslice of
/// the backing storage; the elements still to be grouped are the view of
/// the adapter itself.
pub struct ConsGroup<'a, T> {
    remaining: &'a [T],
}

impl<'a, T> View for ConsGroup<'a, T> {
    type V = Seq<T>;

    closed spec fn view(&self) -> Seq<T> {
        self.remaining@
    }
}

impl<'a, T: Eq> ConsGroup<'a, T> {
    /// Builds a grouping adapter over the whole slice.
    pub fn new(slice: &'a [T]) -> (g: Self)
        ensures
            g@ == slice@,
    {
        Self { remaining: slice }
    }

    /// Produces the next maximal run of consecutive equal elements, or
    /// signals exhaustion when nothing remains. The run is the maximal
    /// uniform prefix of the remaining elements; what is left afterwards
    /// is exactly the rest, so the emitted runs concatenate back to the
    /// original slice. Exhaustion is terminal and idempotent: once empty,
    /// every later call signals exhaustion again and changes nothing.
    pub fn next(&mut self) -> (r: Option<&'a [T]>)
        requires
            T::obeys_eq_spec(),
        ensures
            r is Some <==> old(self)@.len() > 0,
            match r {
                Some(run) => {
                    &&& run@ == old(self)@.subrange(0, first_run_len(old(self)@))
                    &&& final(self)@ == old(self)@.skip(first_run_len(old(self)@))
                    &&& run@ + final(self)@ == old(self)@
                },
                None => final(self)@ == old(self)@,
            },
    {
        let len = self.remaining.len();
        if len == 0 {
            return None;
        }
        let anchor = slice_index_get(self.remaining, 0);
        let mut i: usize = 1;
        while i < len && *slice_index_get(self.remaining, i) == *anchor
            invariant
                T::obeys_eq_spec(),
                1 <= i <= len,
                len == self.remaining@.len(),
                *anchor == self.remaining@[0],
                forall|j: int| 1 <= j < i ==> self.remaining@[j].eq_spec(&self.remaining@[0]),
            decreases len - i,
        {
            i = i + 1;
        }
        proof {
            lemma_run_scan_determined(self.remaining@, 1, i as int);
        }
        let run = slice_subrange(self.remaining, 0, i);
        self.remaining = slice_subrange(self.remaining, i, len);
        proof {
            assert(self@ =~= old(self)@.skip(i as int));
            assert(run@ + self@ =~= old(self)@);
        }
        Some(run)
    }

    /// Drains the adapter and collects every remaining run. Law: the runs
    /// partition the remaining elements exactly — concatenated in order
    /// they reconstruct them with no gaps or overlaps — and each run is
    /// nonempty, internally uniform, and maximal: two neighbouring runs
    /// have anchors that differ under the element type's equality, so no
    /// two of them could be merged.
    pub fn collect_runs(self) -> (runs: Vec<&'a [T]>)
        requires
            T::obeys_eq_spec(),
        ensures
            run_views(runs@).flatten() == self@,
            runs@.len() == 0 <==> self@.len() == 0,
            forall|k: int| 0 <= k < runs@.len() ==> #[trigger] runs@[k]@.len() >= 1,
            forall|k: int, j: int|
                0 <= k < runs@.len() && 1 <= j < runs@[k]@.len() ==> #[trigger] runs@[k]@[j].eq_spec(
                    &runs@[k]@[0],
                ),
            forall|k: int|
                0 <= k < runs@.len() - 1 ==> !(#[trigger] runs@[k + 1]@[0].eq_spec(&runs@[k]@[0])),
    {
        let ghost s = self@;
        let mut a = self;
        let mut runs: Vec<&'a [T]> = Vec::new();
        let mut done = false;
        while !done
            invariant
                T::obeys_eq_spec(),
                run_views(runs@).flatten() + a@ =~= s,
                runs@.len() == 0 ==> a@ == s,
                a@.len() > 0 && runs@.len() > 0 ==> !a@[0].eq_spec(&runs@[runs@.len() - 1]@[0]),
                forall|k: int| 0 <= k < runs@.len() ==> #[trigger] runs@[k]@.len() >= 1,
                forall|k: int, j: int|
                    0 <= k < runs@.len() && 1 <= j < runs@[k]@.len() ==> #[trigger] runs@[k]@[j].eq_spec(
                        &runs@[k]@[0],
                    ),
                forall|k: int|
                    0 <= k < runs@.len() - 1 ==> !(#[trigger] runs@[k + 1]@[0].eq_spec(
                        &runs@[k]@[0],
                    )),
                done ==> a@.len() == 0,
            decreases (if done { 0int } else { a@.len() as int + 1 }),
        {
            let ghost rem = a@;
            match a.next() {
                Some(run) => {
                    proof {
                        lemma_first_run_uniform_maximal(rem);
                        run_views(runs@).lemma_flatten_push(run@);
                        assert(run_views(runs@.push(run)) =~= run_views(runs@).push(run@));
                    }
                    runs.push(run);
                },
                None => {
                    done = true;
                },
            }
        }
        proof {
            assert(run_views(runs@).flatten() + a@ =~= run_views(runs@).flatten());
        }
        runs
    }
}

/// The element sequences that a collection of runs stands for, run by run.
pub open spec fn run_views<T>(runs: Seq<&[T]>) -> Seq<Seq<T>> {
    runs.map_values(|r: &[T]| r@)
}

/// Brings the fluent `cons_group` form into scope: any slice of
/// equality-comparable elements can be split into its maximal runs.
pub trait ConsGroupExt<T: Eq>: View<V = Seq<T>> {
    /// Builds a grouping adapter over all the elements, in order.
    fn cons_group(&self) -> (g: ConsGroup<'_, T>)
        ensures
            g@ == self@,
    ;
}

impl<T: Eq> ConsGroupExt<T> for [T] {
    fn cons_group(&self) -> (g: ConsGroup<'_, T>) {
        ConsGroup::new(self)
    }
}

} // verus!
