//! Judging an update against a condition with a model: which earlier
//! decisions the model is shown, how its answer is read, and how fetched
//! pages are prepared for it.
use vstd::prelude::*;
use crate::text::{
    chars_to_string, contains, contains_exec, push_str, split_once, split_once_chars, starts_with,
    starts_with_chars, str_chars, str_eq, trim, trim_chars,
};
use vstd::utf8::{encode_utf8, is_char_boundary};
use vstd::string::StringSliceAdditionalSpecFns;

verus! {

/// Why judging an update failed.
#[derive(Debug)]
pub enum GetTruthValueError<Dec, Crit, Runner> {
    Runner(Runner),
    DecisionMemory(Dec),
    CriteriaMemory(Crit),
}

/// A judgement that was made: when (milliseconds since the Unix epoch), on
/// what, and whether the condition held.
#[derive(Debug)]
pub struct Decision<M> {
    pub time: i64,
    pub material: M,
    pub is_truthy: bool,
}

/// Which earlier decisions the model asks for.
#[derive(Debug, Clone, Copy, PartialEq, Eq, Structural)]
pub enum DecisionFilter {
    /// Those answered yes.
    Truthy,
    /// Those answered no.
    Falsy,
}

pub open spec fn filter_matches(f: Option<DecisionFilter>, truthy: bool) -> bool {
    match f {
        None => true,
        Some(DecisionFilter::Truthy) => truthy,
        Some(DecisionFilter::Falsy) => !truthy,
    }
}

impl DecisionFilter {
    /// Whether `decision` is one the filter asks for.
    pub fn matches<M>(&self, decision: &Decision<M>) -> (b: bool)
        ensures
            b == filter_matches(Some(*self), decision.is_truthy),
    {
        match self {
            DecisionFilter::Truthy => decision.is_truthy,
            DecisionFilter::Falsy => !decision.is_truthy,
        }
    }
}

/// The indices of the decisions (newest first) that `f` lets through, in
/// order.
pub open spec fn matching_indices(truthy: Seq<bool>, f: Option<DecisionFilter>) -> Seq<int>
    decreases truthy.len(),
{
    if truthy.len() == 0 {
        Seq::empty()
    } else {
        let rest = matching_indices(truthy.drop_last(), f);
        if filter_matches(f, truthy.last()) {
            rest.push(truthy.len() - 1)
        } else {
            rest
        }
    }
}

/// Skip `offset` of the matching decisions, then take up to `limit`.
pub open spec fn selected_indices(
    truthy: Seq<bool>,
    f: Option<DecisionFilter>,
    offset: nat,
    limit: nat,
) -> Seq<int> {
    let m = matching_indices(truthy, f);
    let lo = if offset <= m.len() {
        offset as int
    } else {
        m.len() as int
    };
    let hi = if lo + limit <= m.len() {
        lo + limit
    } else {
        m.len() as int
    };
    m.subrange(lo, hi)
}

proof fn lemma_matching_indices(truthy: Seq<bool>, f: Option<DecisionFilter>)
    ensures
        forall|a: int| 0 <= a < matching_indices(truthy, f).len() ==> {
            let i = #[trigger] matching_indices(truthy, f)[a];
            0 <= i < truthy.len() && filter_matches(f, truthy[i])
        },
        forall|a: int, b: int|
            0 <= a < b < matching_indices(truthy, f).len() ==> matching_indices(truthy, f)[a]
                < matching_indices(truthy, f)[b],
    decreases truthy.len(),
{
    if truthy.len() > 0 {
        let init = truthy.drop_last();
        lemma_matching_indices(init, f);
        let rest = matching_indices(init, f);
        let m = matching_indices(truthy, f);
        assert forall|a: int| 0 <= a < m.len() implies {
            let i = #[trigger] m[a];
            0 <= i < truthy.len() && filter_matches(f, truthy[i])
        } by {
            if a < rest.len() {
                let i = rest[a];
                assert(init[i] == truthy[i]);
            }
        }
        assert forall|a: int, b: int| 0 <= a < b < m.len() implies m[a] < m[b] by {
            if b < rest.len() {
                assert(rest[a] < rest[b]);
            } else {
                assert(rest[a] < init.len());
            }
        }
    }
}

/// The earlier decisions shown to the model when it asks for them: the
/// indices (into the decisions, newest first) of those `filter` lets
/// through, skipping `offset` (default 0) and taking at most `limit`
/// (default 3).
pub fn select_decisions(
    truthy: &Vec<bool>,
    filter: Option<DecisionFilter>,
    offset: Option<usize>,
    limit: Option<usize>,
) -> (r: Vec<usize>)
    ensures
        ({
            let sel = selected_indices(
                truthy@,
                filter,
                match offset {
                    Some(o) => o as nat,
                    None => 0,
                },
                match limit {
                    Some(l) => l as nat,
                    None => 3,
                },
            );
            &&& r@.len() == sel.len()
            &&& forall|a: int| 0 <= a < r@.len() ==> #[trigger] r@[a] as int == sel[a]
        }),
        forall|a: int| 0 <= a < r@.len() ==> #[trigger] r@[a] < truthy@.len(),
        forall|a: int, b: int| 0 <= a < b < r@.len() ==> r@[a] < r@[b],
{
    let off: usize = match offset {
        Some(o) => o,
        None => 0,
    };
    let lim: usize = match limit {
        Some(l) => l,
        None => 3,
    };
    let mut all: Vec<usize> = Vec::new();
    let mut i: usize = 0;
    while i < truthy.len()
        invariant
            i <= truthy@.len(),
            all@.len() == matching_indices(truthy@.take(i as int), filter).len(),
            forall|a: int| 0 <= a < all@.len() ==> #[trigger] all@[a] as int == matching_indices(truthy@.take(i as int), filter)[a],
        decreases truthy@.len() - i,
    {
        let keep = match filter {
            None => true,
            Some(DecisionFilter::Truthy) => truthy[i],
            Some(DecisionFilter::Falsy) => !truthy[i],
        };
        proof {
            assert(truthy@.take(i + 1).drop_last() =~= truthy@.take(i as int));
        }
        if keep {
            all.push(i);
        }
        i = i + 1;
    }
    proof {
        assert(truthy@.take(i as int) =~= truthy@);
        lemma_matching_indices(truthy@, filter);
    }
    let n = all.len();
    let lo = if off <= n { off } else { n };
    let hi = if lim <= n - lo { lo + lim } else { n };
    let mut r: Vec<usize> = Vec::new();
    let mut j: usize = lo;
    while j < hi
        invariant
            lo <= j <= hi <= all@.len(),
            r@.len() == j - lo,
            forall|a: int| 0 <= a < r@.len() ==> #[trigger] r@[a] == all@[lo + a],
        decreases hi - j,
    {
        r.push(all[j]);
        j = j + 1;
    }
    proof {
        let m = matching_indices(truthy@, filter);
        assert forall|a: int| 0 <= a < r@.len() implies #[trigger] r@[a] < truthy@.len() by {
            assert(all@[lo + a] as int == m[lo + a]);
        }
        assert forall|a: int, b: int| 0 <= a < b < r@.len() implies r@[a] < r@[b] by {
            assert(all@[lo + a] as int == m[lo + a]);
            assert(all@[lo + b] as int == m[lo + b]);
        }
    }
    r
}

/// The decisions with the entries at `indices` removed, the others kept in
/// order.
pub open spec fn without_indices<T>(s: Seq<T>, indices: Set<int>) -> Seq<T>
    decreases s.len(),
{
    if s.len() == 0 {
        s
    } else if indices.contains(s.len() - 1) {
        without_indices(s.drop_last(), indices)
    } else {
        without_indices(s.drop_last(), indices).push(s.last())
    }
}

proof fn lemma_without_indices_remove<T>(s: Seq<T>, indices: Set<int>, k: int)
    requires
        0 <= k < s.len(),
        forall|j: int| #[trigger] indices.contains(j) ==> j < k,
    ensures
        without_indices(s, indices.insert(k)) == without_indices(s.remove(k), indices),
    decreases s.len(),
{
    if k == s.len() - 1 {
        assert(s.remove(k) =~= s.drop_last());
        lemma_without_indices_same(s.drop_last(), indices, indices.insert(k));
    } else {
        lemma_without_indices_remove(s.drop_last(), indices, k);
        assert(s.remove(k).drop_last() =~= s.drop_last().remove(k));
        assert(s.remove(k).last() == s.last());
    }
}

proof fn lemma_without_indices_same<T>(s: Seq<T>, a: Set<int>, b: Set<int>)
    requires
        forall|j: int| 0 <= j < s.len() ==> (a.contains(j) <==> b.contains(j)),
    ensures
        without_indices(s, a) == without_indices(s, b),
    decreases s.len(),
{
    if s.len() > 0 {
        lemma_without_indices_same(s.drop_last(), a, b);
    }
}

/// Removes the entries at `indices` (ascending, without repetition), as
/// done with the decisions shown to the model so they are not shown again.
pub fn remove_selected<T>(items: &mut Vec<T>, indices: &Vec<usize>)
    requires
        forall|a: int, b: int| 0 <= a < b < indices@.len() ==> indices@[a] < indices@[b],
        forall|a: int| 0 <= a < indices@.len() ==> indices@[a] < old(items)@.len(),
    ensures
        final(items)@ == without_indices(
            old(items)@,
            indices@.map_values(|i: usize| i as int).to_set(),
        ),
{
    let ghost orig = items@;
    let ghost idxs = indices@.map_values(|i: usize| i as int);
    let ghost all = idxs.to_set();
    let mut k: usize = indices.len();
    proof {
        assert(idxs.take(k as int) =~= idxs);
    }
    while k > 0
        invariant
            k <= indices@.len(),
            forall|a: int, b: int| 0 <= a < b < indices@.len() ==> indices@[a] < indices@[b],
            forall|a: int| 0 <= a < indices@.len() ==> indices@[a] < orig.len(),
            idxs == indices@.map_values(|i: usize| i as int),
            all == idxs.to_set(),
            without_indices(orig, all) == without_indices(
                items@,
                idxs.take(k as int).to_set(),
            ),
            k > 0 ==> indices@[k - 1] < items@.len(),
            items@.len() == orig.len() - (indices@.len() - k),
        decreases k,
    {
        let idx = indices[k - 1];
        let ghost before = items@;
        let ghost small = idxs.take(k - 1).to_set();
        proof {
            assert(idxs.take(k as int) =~= idxs.take(k - 1).push(idxs[k - 1]));
            idxs.take(k - 1).lemma_push_to_set_commute(idxs[k - 1]);
            assert(idxs.take(k as int).to_set() =~= small.insert(idx as int));
            assert forall|j: int| #[trigger] small.contains(j) implies j < idx by {
                let a = choose|a: int| 0 <= a < k - 1 && #[trigger] idxs.take(k - 1)[a] == j;
                assert(indices@[a] < indices@[k - 1]);
            }
            lemma_without_indices_remove(before, small, idx as int);
        }
        items.remove(idx);
        proof {
            if k >= 2 {
                assert(indices@[k - 2] < indices@[k - 1]);
            }
        }
        k = k - 1;
    }
    proof {
        assert(idxs.take(0).to_set() =~= Set::<int>::empty());
        lemma_without_indices_empty(items@);
    }
}

proof fn lemma_without_indices_empty<T>(s: Seq<T>)
    ensures
        without_indices(s, Set::<int>::empty()) == s,
    decreases s.len(),
{
    if s.len() > 0 {
        lemma_without_indices_empty(s.drop_last());
        assert(s.drop_last().push(s.last()) =~= s);
    }
}

proof fn lemma_without_indices_from<T>(s: Seq<T>, indices: Set<int>)
    ensures
        forall|a: int|
            0 <= a < without_indices(s, indices).len() ==> s.contains(
                #[trigger] without_indices(s, indices)[a],
            ),
    decreases s.len(),
{
    if s.len() > 0 {
        let init = s.drop_last();
        lemma_without_indices_from(init, indices);
        let w = without_indices(s, indices);
        assert forall|a: int| 0 <= a < w.len() implies s.contains(#[trigger] w[a]) by {
            let wi = without_indices(init, indices);
            if a < wi.len() {
                assert(w[a] == wi[a]);
                let k = choose|k: int| 0 <= k < init.len() && init[k] == wi[a];
                assert(s[k] == init[k]);
            } else {
                assert(w[a] == s.last());
                assert(s[s.len() - 1] == s.last());
            }
        }
    }
}

/// The earlier decisions of a judging dialog that the model has not been
/// shown yet: their positions among all earlier decisions (newest first).
/// Each request of the model is answered from these, and what it was shown
/// is not shown again.
pub struct ShownDecisions {
    count: usize,
    remaining: Vec<usize>,
}

impl ShownDecisions {
    #[verifier::type_invariant]
    spec fn inv(self) -> bool {
        forall|a: int| 0 <= a < self.remaining@.len() ==> #[trigger] self.remaining@[a] < self.count
    }

    /// How many earlier decisions there are.
    pub closed spec fn spec_count(self) -> usize {
        self.count
    }

    /// The positions not shown yet, in order.
    pub closed spec fn spec_remaining(self) -> Seq<usize> {
        self.remaining@
    }

    /// None of `count` earlier decisions shown yet.
    pub fn new(count: usize) -> (s: Self)
        ensures
            s.spec_count() == count,
            s.spec_remaining() == Seq::new(count as nat, |i: int| i as usize),
    {
        let mut remaining: Vec<usize> = Vec::new();
        let mut i: usize = 0;
        while i < count
            invariant
                i <= count,
                remaining@ == Seq::new(i as nat, |k: int| k as usize),
            decreases count - i,
        {
            remaining.push(i);
            proof {
                assert(remaining@ =~= Seq::new((i + 1) as nat, |k: int| k as usize));
            }
            i = i + 1;
        }
        ShownDecisions { count, remaining }
    }

    /// The model asks for earlier decisions (`truthy` tells, for each of
    /// them, newest first, whether it said yes): the positions of those to
    /// show now, chosen among those not shown yet as [`select_decisions`]
    /// chooses, which then count as shown.
    pub fn show(
        &mut self,
        truthy: &Vec<bool>,
        filter: Option<DecisionFilter>,
        offset: Option<usize>,
        limit: Option<usize>,
    ) -> (r: Vec<usize>)
        requires
            truthy@.len() == old(self).spec_count(),
        ensures
            final(self).spec_count() == old(self).spec_count(),
            ({
                let rem = old(self).spec_remaining();
                let sub = rem.map_values(|i: usize| truthy@[i as int]);
                let sel = selected_indices(
                    sub,
                    filter,
                    match offset {
                        Some(o) => o as nat,
                        None => 0,
                    },
                    match limit {
                        Some(l) => l as nat,
                        None => 3,
                    },
                );
                &&& r@.len() == sel.len()
                &&& forall|a: int| 0 <= a < r@.len() ==> #[trigger] r@[a] == rem[sel[a]]
                &&& final(self).spec_remaining() == without_indices(rem, sel.to_set())
            }),
    {
        proof {
            use_type_invariant(&*self);
        }
        let ghost rem = self.remaining@;
        let mut sub: Vec<bool> = Vec::new();
        let mut i: usize = 0;
        while i < self.remaining.len()
            invariant
                rem == self.remaining@,
                i <= rem.len(),
                truthy@.len() == self.count,
                forall|a: int| 0 <= a < rem.len() ==> #[trigger] rem[a] < self.count,
                sub@ == rem.take(i as int).map_values(|k: usize| truthy@[k as int]),
            decreases rem.len() - i,
        {
            let k = self.remaining[i];
            sub.push(truthy[k]);
            proof {
                assert(sub@ =~= rem.take(i + 1).map_values(|k: usize| truthy@[k as int]));
            }
            i = i + 1;
        }
        proof {
            assert(rem.take(i as int) =~= rem);
        }
        let chosen = select_decisions(&sub, filter, offset, limit);
        let mut r: Vec<usize> = Vec::new();
        let mut j: usize = 0;
        while j < chosen.len()
            invariant
                rem == self.remaining@,
                sub@.len() == rem.len(),
                forall|a: int| 0 <= a < chosen@.len() ==> #[trigger] chosen@[a] < sub@.len(),
                j <= chosen@.len(),
                r@.len() == j,
                forall|a: int| 0 <= a < j ==> #[trigger] r@[a] == rem[chosen@[a] as int],
            decreases chosen@.len() - j,
        {
            r.push(self.remaining[chosen[j]]);
            j = j + 1;
        }
        let mut remaining: Vec<usize> = Vec::new();
        std::mem::swap(&mut remaining, &mut self.remaining);
        remove_selected(&mut remaining, &chosen);
        proof {
            let sel = selected_indices(
                sub@,
                filter,
                match offset {
                    Some(o) => o as nat,
                    None => 0,
                },
                match limit {
                    Some(l) => l as nat,
                    None => 3,
                },
            );
            assert(chosen@.map_values(|i: usize| i as int) =~= sel);
            lemma_without_indices_from(rem, sel.to_set());
            assert forall|a: int| 0 <= a < remaining@.len() implies #[trigger] remaining@[a] < self.count by {
                let k = choose|k: int| 0 <= k < rem.len() && rem[k] == remaining@[a];
            }
        }
        self.remaining = remaining;
        r
    }
}

/// How a model's answer is read: yes when it says "Yes" or "yes" anywhere.
pub open spec fn spec_is_truthy(response: Seq<char>) -> bool {
    contains(response, "Yes"@) || contains(response, "yes"@)
}

/// Whether the model's answer says yes.
pub fn is_truthy_response(response: &str) -> (b: bool)
    ensures
        b == spec_is_truthy(response@),
{
    let r = str_chars(response);
    let upper = str_chars("Yes");
    let lower = str_chars("yes");
    contains_exec(&r, &upper) || contains_exec(&r, &lower)
}

/// The decision to record once the model answered `reply` about
/// `material` at `time` (milliseconds since the Unix epoch): the condition
/// holds exactly when the answer says yes.
pub fn judge_outcome<M>(reply: &str, time: i64, material: M) -> (d: Decision<M>)
    ensures
        d.is_truthy == spec_is_truthy(reply@),
        d.time == time,
        d.material == material,
{
    Decision { time, material, is_truthy: is_truthy_response(reply) }
}

/// The answer recorded for an earlier decision in the dialog.
pub fn verdict_text(is_truthy: bool) -> (s: String)
    ensures
        s@ == (if is_truthy {
            "Yes"@
        } else {
            "No"@
        }),
{
    let v = if is_truthy {
        str_chars("Yes")
    } else {
        str_chars("No")
    };
    chars_to_string(&v)
}

/// The notes the model is given before judging: each criterion as a "- "
/// line, then, when earlier decisions exist, a reminder of that.
pub open spec fn spec_notes(criteria: Seq<Seq<char>>, seen_before: bool) -> Seq<Seq<char>> {
    let lines = criteria.map_values(|c: Seq<char>| "- "@ + c);
    if seen_before {
        lines.push("You have seen this series before."@)
    } else {
        lines
    }
}

pub fn notes_messages(criteria: &Vec<String>, seen_before: bool) -> (r: Vec<String>)
    ensures
        r@.map_values(|s: String| s@) == spec_notes(criteria@.map_values(|s: String| s@), seen_before),
{
    let ghost cv = criteria@.map_values(|s: String| s@);
    let mut r: Vec<String> = Vec::new();
    let mut i: usize = 0;
    while i < criteria.len()
        invariant
            i <= criteria@.len(),
            cv == criteria@.map_values(|s: String| s@),
            r@.len() == i,
            r@.map_values(|s: String| s@) == cv.take(i as int).map_values(|c: Seq<char>| "- "@ + c),
        decreases criteria@.len() - i,
    {
        let mut v: Vec<char> = Vec::new();
        push_str(&mut v, "- ");
        push_str(&mut v, criteria[i].as_str());
        let ghost before = r@;
        r.push(chars_to_string(&v));
        proof {
            assert(cv.take(i + 1) =~= cv.take(i as int).push(cv[i as int]));
            assert(v@ =~= "- "@ + cv[i as int]);
            let target = cv.take(i + 1).map_values(|c: Seq<char>| "- "@ + c);
            let prev_target = cv.take(i as int).map_values(|c: Seq<char>| "- "@ + c);
            let rv = r@.map_values(|s: String| s@);
            assert forall|a: int| 0 <= a < r@.len() implies #[trigger] rv[a] == target[a] by {
                if a < i {
                    assert(r@[a] == before[a]);
                    assert(before.map_values(|s: String| s@)[a] == prev_target[a]);
                }
            }
            assert(rv =~= target);
        }
        i = i + 1;
    }
    proof {
        assert(cv.take(i as int) =~= cv);
    }
    if seen_before {
        let v = str_chars("You have seen this series before.");
        let ghost before = r@;
        r.push(chars_to_string(&v));
        proof {
            assert(r@.map_values(|s: String| s@) =~= before.map_values(|s: String| s@).push("You have seen this series before."@));
        }
    }
    r
}

/// Where the model's request for earlier decisions is answered: the
/// position (newest first) of the first decision to show, that is the
/// decision after skipping `offset` (default 0) of those the filter lets
/// through; `None` when there is none.
pub open spec fn first_requested(truthy: Seq<bool>, f: Option<DecisionFilter>, offset: Option<usize>) -> Option<int> {
    let m = matching_indices(truthy, f);
    let off = match offset {
        Some(o) => o as int,
        None => 0,
    };
    if off < m.len() {
        Some(m[off])
    } else {
        None
    }
}

proof fn lemma_matching_prefix(s: Seq<bool>, f: Option<DecisionFilter>, j: int)
    requires
        0 <= j <= s.len(),
    ensures
        matching_indices(s.take(j), f).len() <= matching_indices(s, f).len(),
        forall|a: int| 0 <= a < matching_indices(s.take(j), f).len() ==> #[trigger] matching_indices(
            s.take(j),
            f,
        )[a] == matching_indices(s, f)[a],
    decreases s.len(),
{
    if j == s.len() {
        assert(s.take(j) =~= s);
    } else {
        let init = s.drop_last();
        assert(s.take(j) =~= init.take(j));
        lemma_matching_prefix(init, f, j);
    }
}

/// The model's request for earlier decisions, met one decision at a time
/// (newest first): it is answered at the first decision to show.
pub struct DecisionLookup {
    filter: Option<DecisionFilter>,
    offset: Option<usize>,
    skipped: usize,
}

impl DecisionLookup {
    pub closed spec fn spec_filter(&self) -> Option<DecisionFilter> {
        self.filter
    }

    pub closed spec fn spec_offset(&self) -> Option<usize> {
        self.offset
    }

    /// How many matching decisions were skipped so far.
    pub closed spec fn spec_skipped(&self) -> usize {
        self.skipped
    }

    pub fn new(filter: Option<DecisionFilter>, offset: Option<usize>) -> (s: Self)
        ensures
            s.spec_filter() == filter,
            s.spec_offset() == offset,
            s.spec_skipped() == 0,
    {
        DecisionLookup { filter, offset, skipped: 0 }
    }

    /// The next decision: whether it is the one to answer at. A decision the
    /// filter lets through is skipped while fewer than `offset` were.
    pub fn on_decision(&mut self, is_truthy: bool) -> (found: bool)
        ensures
            final(self).spec_filter() == old(self).spec_filter(),
            final(self).spec_offset() == old(self).spec_offset(),
            !filter_matches(old(self).spec_filter(), is_truthy) ==> !found && final(self).spec_skipped()
                == old(self).spec_skipped(),
            filter_matches(old(self).spec_filter(), is_truthy) ==> if old(self).spec_offset() matches Some(o)
                && old(self).spec_skipped() < o {
                !found && final(self).spec_skipped() == old(self).spec_skipped() + 1
            } else {
                found && final(self).spec_skipped() == old(self).spec_skipped()
            },
    {
        let keep = match self.filter {
            None => true,
            Some(DecisionFilter::Truthy) => is_truthy,
            Some(DecisionFilter::Falsy) => !is_truthy,
        };
        if !keep {
            return false;
        }
        if let Some(o) = self.offset {
            if self.skipped < o {
                self.skipped = self.skipped + 1;
                return false;
            }
        }
        true
    }
}

/// The position of the decision at which the request for earlier
/// decisions is answered, meeting the decisions (newest first) one by one.
pub fn previous_decision_index(
    truthy: &Vec<bool>,
    filter: Option<DecisionFilter>,
    offset: Option<usize>,
) -> (r: Option<usize>)
    ensures
        match r {
            Some(i) => first_requested(truthy@, filter, offset) == Some(i as int),
            None => first_requested(truthy@, filter, offset) is None,
        },
{
    let ghost off: int = match offset {
        Some(o) => o as int,
        None => 0,
    };
    let mut lookup = DecisionLookup::new(filter, offset);
    let mut i: usize = 0;
    while i < truthy.len()
        invariant
            i <= truthy@.len(),
            lookup.spec_filter() == filter,
            lookup.spec_offset() == offset,
            off == (match offset {
                Some(o) => o as int,
                None => 0,
            }),
            matching_indices(truthy@.take(i as int), filter).len() <= off,
            offset is Some ==> lookup.spec_skipped() == matching_indices(truthy@.take(i as int), filter).len(),
            offset is None ==> lookup.spec_skipped() == 0,
        decreases truthy@.len() - i,
    {
        proof {
            assert(truthy@.take(i + 1).drop_last() =~= truthy@.take(i as int));
            assert(truthy@.take(i + 1).last() == truthy@[i as int]);
        }
        if lookup.on_decision(truthy[i]) {
            proof {
                lemma_matching_prefix(truthy@, filter, i + 1);
                let before = matching_indices(truthy@.take(i as int), filter);
                let after = matching_indices(truthy@.take(i + 1), filter);
                assert(before.len() == off);
                assert(after == before.push(i as int));
                assert(after[off] == i as int);
            }
            return Some(i);
        }
        i = i + 1;
    }
    proof {
        assert(truthy@.take(i as int) =~= truthy@);
    }
    None
}

/// What the tool for earlier decisions answers: `None` when a decision is
/// to be shown (the dialog is interrupted to put the decisions in front),
/// otherwise the empty list "[]".
pub fn previous_decisions_reply(
    truthy: &Vec<bool>,
    filter: Option<DecisionFilter>,
    offset: Option<usize>,
) -> (r: Option<String>)
    ensures
        r is None <==> first_requested(truthy@, filter, offset) is Some,
        r matches Some(s) ==> s@ == "[]"@,
{
    match previous_decision_index(truthy, filter, offset) {
        Some(_) => None,
        None => {
            let v = str_chars("[]");
            Some(chars_to_string(&v))
        },
    }
}

/// When the model asks for earlier decisions and may see at least one,
/// it is shown some exactly when its request is answered, beginning with
/// the decision the request is answered at.
pub proof fn law_request_answered_with_selection(
    truthy: Seq<bool>,
    f: Option<DecisionFilter>,
    offset: Option<usize>,
    limit: nat,
)
    requires
        limit > 0,
    ensures
        ({
            let off = match offset {
                Some(o) => o as nat,
                None => 0,
            };
            let sel = selected_indices(truthy, f, off, limit);
            &&& first_requested(truthy, f, offset) is Some <==> sel.len() > 0
            &&& sel.len() > 0 ==> first_requested(truthy, f, offset) == Some(sel[0])
        }),
{
}

/// What `format!("{:?}", s)` gives for a string: it quoted, with special
/// characters escaped. A function of the characters alone.
pub uninterp spec fn str_debug(s: Seq<char>) -> Seq<char>;

/// `format!("{:?}", s)`; the contract names its result [`str_debug`].
#[verifier::external_body]
fn debug_quoted(s: &str) -> (r: String)
    ensures
        r@ == str_debug(s@),
{
    format!("{s:?}")
}

/// What `reqwest::Url::parse` makes of `text`: the parsed URL written out
/// again (`Url::to_string`), or the text of its error.
pub uninterp spec fn url_parse(text: Seq<char>) -> Result<Seq<char>, Seq<char>>;

/// `reqwest::Url::parse`, the URL written out with `to_string` and the
/// error as its text; the contract names the outcome [`url_parse`].
#[verifier::external_body]
fn parse_url(text: &str) -> (r: Result<String, String>)
    ensures
        match r {
            Ok(u) => url_parse(text@) == Ok::<Seq<char>, Seq<char>>(u@),
            Err(e) => url_parse(text@) == Err::<Seq<char>, Seq<char>>(e@),
        },
{
    reqwest::Url::parse(text).map(|u| u.to_string()).map_err(|e| e.to_string())
}

/// The page the model asked for: its address as the URL parser writes it,
/// or the reply that tells the model why it is none ("failure: " and the
/// parser's message).
pub fn fetch_target(url: &str) -> (r: Result<String, String>)
    ensures
        match url_parse(url@) {
            Ok(u) => r matches Ok(s) && s@ == u,
            Err(e) => r matches Err(m) && m@ == "failure: "@ + e,
        },
{
    match parse_url(url) {
        Ok(u) => Ok(u),
        Err(e) => Err(crate::optimize::ToolResult::Failure(e).to_string()),
    }
}

/// How a fetched page is handed to the model, by its content type.
#[derive(Debug, PartialEq, Eq)]
pub enum FetchPlan {
    /// Tell the model this instead of the page.
    Reply(String),
    /// The page's text as it is.
    Text,
    /// The page converted from HTML to Markdown.
    Markdown,
}

/// The subtype of a `text/..` content type: after the first `/`, up to a
/// further `/` or `;`, trimmed.
pub open spec fn text_subtype(ct: Seq<char>) -> Seq<char> {
    let after = match split_once(ct, "/"@) {
        Some((_, r)) => r,
        None => ct,
    };
    let seg = match split_once(after, "/"@) {
        Some((l, _)) => l,
        None => after,
    };
    let t = match split_once(seg, ";"@) {
        Some((l, _)) => l,
        None => seg,
    };
    trim(t)
}

pub open spec fn spec_fetch_plan(ct: Seq<char>, no_sanitize: Option<bool>) -> FetchPlanView {
    if !starts_with(ct, "text/"@) {
        FetchPlanView::Reply("expect a text content type, got "@ + str_debug(ct))
    } else {
        let t = text_subtype(ct);
        if t == "plain"@ {
            FetchPlanView::Text
        } else if t == "html"@ || t == "xml"@ {
            FetchPlanView::Markdown
        } else if no_sanitize == Some(true) {
            FetchPlanView::Text
        } else {
            FetchPlanView::Reply("unsupported: "@ + ct)
        }
    }
}

/// A plan, as the spec sees it.
pub enum FetchPlanView {
    Reply(Seq<char>),
    Text,
    Markdown,
}

pub open spec fn plan_view(p: FetchPlan) -> FetchPlanView {
    match p {
        FetchPlan::Reply(m) => FetchPlanView::Reply(m@),
        FetchPlan::Text => FetchPlanView::Text,
        FetchPlan::Markdown => FetchPlanView::Markdown,
    }
}

/// How a page with this content type is handed to the model: plain text
/// as it is, HTML and XML as Markdown, other text only when the model asked
/// for the raw text; anything but text is refused.
pub fn fetch_plan(content_type: &str, no_sanitize: Option<bool>) -> (p: FetchPlan)
    ensures
        plan_view(p) == spec_fetch_plan(content_type@, no_sanitize),
{
    let ct = str_chars(content_type);
    let prefix = str_chars("text/");
    if !starts_with_chars(&ct, &prefix) {
        let mut v = str_chars("expect a text content type, got ");
        let d = debug_quoted(content_type);
        push_str(&mut v, d.as_str());
        return FetchPlan::Reply(chars_to_string(&v));
    }
    let slash = str_chars("/");
    let semi = str_chars(";");
    let after = match split_once_chars(&ct, &slash) {
        Some((_, r)) => r,
        None => ct.clone(),
    };
    let seg = match split_once_chars(&after, &slash) {
        Some((l, _)) => l,
        None => after,
    };
    let t = match split_once_chars(&seg, &semi) {
        Some((l, _)) => l,
        None => seg,
    };
    let sub = trim_chars(&t);
    let sub_s = chars_to_string(&sub);
    if str_eq(sub_s.as_str(), "plain") {
        FetchPlan::Text
    } else if str_eq(sub_s.as_str(), "html") || str_eq(sub_s.as_str(), "xml") {
        FetchPlan::Markdown
    } else if no_sanitize == Some(true) {
        FetchPlan::Text
    } else {
        let mut v = str_chars("unsupported: ");
        push_str(&mut v, content_type);
        FetchPlan::Reply(chars_to_string(&v))
    }
}

/// The characters of converted content handed to the model: skip
/// `offset` (default 0) characters, then take at most `limit` (default
/// 5000) of them.
pub open spec fn clip_chars(s: Seq<char>, offset: Option<usize>, limit: Option<usize>) -> Seq<char> {
    let skip = match offset {
        Some(o) => o as int,
        None => 0,
    };
    let lim = match limit {
        Some(l) => l as int,
        None => 5000,
    };
    let lo = if skip <= s.len() {
        skip
    } else {
        s.len() as int
    };
    let hi = if lo + lim <= s.len() {
        lo + lim
    } else {
        s.len() as int
    };
    s.subrange(lo, hi)
}

/// The part of converted content handed to the model: `offset` characters
/// skipped, at most `limit` taken.
pub fn clip_content(content: &str, offset: Option<usize>, limit: Option<usize>) -> (r: String)
    ensures
        r@ == clip_chars(content@, offset, limit),
{
    let c = str_chars(content);
    let n = c.len();
    let skip: usize = match offset {
        Some(o) => o,
        None => 0,
    };
    let lim: usize = match limit {
        Some(l) => l,
        None => 5000,
    };
    let lo = if skip <= n { skip } else { n };
    let hi = if lim <= n - lo { lo + lim } else { n };
    let part = crate::text::slice_chars(&c, lo, hi);
    chars_to_string(&part)
}

/// What `html_to_markdown_rs::convert` makes of an HTML page with the
/// options this library uses (no SVG, Markdown output, reference-style
/// links): `None` when it fails, otherwise the converted content, which the
/// crate may leave out.
pub uninterp spec fn html_markdown(html: Seq<char>) -> Option<Option<Seq<char>>>;

/// `html_to_markdown_rs::convert` with SVG capture off, Markdown output and
/// reference-style links; the error as its text. The contract names the
/// outcome [`html_markdown`]; the error's text is not stated.
#[verifier::external_body]
fn convert_html(html: &str) -> (r: Result<Option<String>, String>)
    ensures
        r is Err <==> html_markdown(html@) is None,
        r matches Ok(c) ==> html_markdown(html@) == Some(
            match c {
                Some(s) => Some(s@),
                None => None::<Seq<char>>,
            },
        ),
{
    let options = html_to_markdown_rs::ConversionOptions::builder()
        .capture_svg(false)
        .output_format(html_to_markdown_rs::OutputFormat::Markdown)
        .link_style(html_to_markdown_rs::LinkStyle::Reference)
        .build();
    html_to_markdown_rs::convert(html, Some(options)).map(|r| r.content).map_err(|e| e.to_string())
}

/// An HTML page for the model: converted to Markdown and clipped to the
/// requested characters. `Err` when the conversion fails; `Ok(None)` when
/// the conversion gives no content.
pub fn markdown_reply(html: &str, offset: Option<usize>, limit: Option<usize>) -> (r: Result<
    Option<String>,
    String,
>)
    ensures
        r is Err <==> html_markdown(html@) is None,
        r matches Ok(None) ==> html_markdown(html@) == Some(None::<Seq<char>>),
        r matches Ok(Some(s)) ==> (html_markdown(html@) matches Some(Some(md)) && s@ == clip_chars(
            md,
            offset,
            limit,
        )),
{
    match convert_html(html) {
        Err(e) => Err(e),
        Ok(None) => Ok(None),
        Ok(Some(md)) => Ok(Some(clip_content(md.as_str(), offset, limit))),
    }
}

/// How `chrono` writes the instant `millis` (milliseconds since the Unix
/// epoch) in UTC with the format "%a %B %d %r %Y UTC"; `None` when the
/// instant is outside the dates `chrono` represents.
pub uninterp spec fn utc_time_text(millis: int) -> Option<Seq<char>>;

/// `chrono::DateTime::from_timestamp_millis` then `format("%a %B %d %r %Y
/// UTC")`; the contract names the result [`utc_time_text`].
#[verifier::external_body]
fn format_utc_time(millis: i64) -> (r: Option<String>)
    ensures
        r matches Some(s) ==> utc_time_text(millis as int) == Some(s@),
        r is None ==> utc_time_text(millis as int) is None,
{
    chrono::DateTime::from_timestamp_millis(millis).map(|t| t.format("%a %B %d %r %Y UTC").to_string())
}

/// The literals of the judging prompt: the condition, and the time of
/// judging (`now`, milliseconds since the Unix epoch) in words. `None` when
/// the time cannot be written.
pub fn judge_literals(condition: &str, now: i64) -> (r: Option<Vec<(String, String)>>)
    ensures
        utc_time_text(now as int) is None ==> r is None,
        utc_time_text(now as int) matches Some(t) ==> (r matches Some(v) && v@.len() == 2
            && v@[0].0@ == "condition"@ && v@[0].1@ == condition@ && v@[1].0@ == "time"@
            && v@[1].1@ == t),
{
    let time = match format_utc_time(now) {
        Some(t) => t,
        None => return None,
    };
    let mut v: Vec<(String, String)> = Vec::new();
    let k1 = str_chars("condition");
    let c = str_chars(condition);
    v.push((chars_to_string(&k1), chars_to_string(&c)));
    let k2 = str_chars("time");
    v.push((chars_to_string(&k2), time));
    Some(v)
}

} // verus!
