//! The decisions of the update stream: when a wake-up arrives, refresh the
//! source, fetch its items (oldest first), compare them newest-first with
//! what was already seen, stage the unseen ones up to the buffer size, then
//! mark them seen and hand them out oldest-first.
//!
//! The machine only decides; whoever drives it performs each requested
//! action (refresh, fetch, compare, persist) and reports the outcome back as
//! the next event. Items are named by their index in the fetched list.
use vstd::prelude::*;

verus! {

/// Where a round of the update stream stands.
#[derive(Clone, Copy, Debug, PartialEq, Eq)]
pub enum UpdatePhase {
    /// Waiting for the waker stream to request a round.
    Idle,
    /// The source is refreshing itself.
    UpdatingFeed,
    /// The source's items are being fetched.
    FetchingFeed,
    /// Items `next..total` are staged (none of them seen); item `next - 1`
    /// is being compared with the persisted state.
    Comparing { next: usize, total: usize },
    /// Item `current` is being persisted as seen; items `current + 1..total`
    /// remain staged.
    ClearingBuffer { current: usize, total: usize },
}

/// An outcome reported by whoever drives the machine.
#[derive(Clone, Copy, Debug, PartialEq, Eq)]
pub enum UpdateEvent {
    /// The waker stream produced a value: a round should start.
    WakerYielded,
    /// The waker stream is exhausted.
    WakerEnded,
    /// The waker stream is pending or produced a cancellation.
    WakerIdle,
    /// The source refreshed successfully.
    SourceUpdated,
    /// The source failed to refresh.
    SourceUpdateFailed,
    /// The source's items were fetched; this many of them.
    ItemsFetched(usize),
    /// Fetching the items failed.
    ItemsFetchFailed,
    /// The item under comparison has (`true`) or has not been seen.
    Compared(bool),
    /// The comparison failed.
    CompareFailed,
    /// The item was persisted as seen.
    Persisted,
    /// Persisting failed.
    PersistFailed,
    /// The in-flight operation has not finished yet.
    StillPending,
}

/// What the driver must do next.
#[derive(Clone, Copy, Debug, PartialEq, Eq)]
pub enum UpdateAction {
    /// Start refreshing the source.
    StartUpdate,
    /// Start fetching the source's items.
    StartFetch,
    /// Start comparing the item at this index with the persisted state.
    StartCompare(usize),
    /// Start persisting the item at this index as seen.
    StartPersist(usize),
    /// Yield this item (or `None` when the round found nothing new); if
    /// `next_persist` is given, start persisting that item before yielding.
    Emit { item: Option<usize>, next_persist: Option<usize> },
    /// Yield a fetch error; the round is over.
    EmitFetchError,
    /// Yield a persistence error; the round is over.
    EmitPersistenceError,
    /// End the stream.
    End,
    /// Nothing to do until woken again.
    Pending,
}

/// The update stream's decision state.
pub struct UpdateMachine {
    phase: UpdatePhase,
    buffer_size: usize,
}

/// Staged items are never more than the buffer size, and the indices stay
/// within the fetched list.
pub open spec fn phase_wf(phase: UpdatePhase, buffer_size: nat) -> bool {
    match phase {
        UpdatePhase::Comparing { next, total } => 0 < next <= total && total - next < buffer_size,
        UpdatePhase::ClearingBuffer { current, total } => current < total,
        _ => true,
    }
}

/// Once comparing stops with `next..total` staged: hand out the first
/// staged item, or report that nothing is new.
pub open spec fn spec_finish(next: usize, total: usize) -> (UpdatePhase, UpdateAction) {
    if next >= total {
        (UpdatePhase::Idle, UpdateAction::Emit { item: None, next_persist: None })
    } else {
        (UpdatePhase::ClearingBuffer { current: next, total }, UpdateAction::StartPersist(next))
    }
}

/// One decision: the next phase and the action for the driver.
pub open spec fn spec_step(phase: UpdatePhase, buffer_size: usize, ev: UpdateEvent) -> (
    UpdatePhase,
    UpdateAction,
) {
    match (phase, ev) {
        (UpdatePhase::Idle, UpdateEvent::WakerYielded) => (
            UpdatePhase::UpdatingFeed,
            UpdateAction::StartUpdate,
        ),
        (UpdatePhase::Idle, UpdateEvent::WakerEnded) => (UpdatePhase::Idle, UpdateAction::End),
        (UpdatePhase::UpdatingFeed, UpdateEvent::SourceUpdated) => (
            UpdatePhase::FetchingFeed,
            UpdateAction::StartFetch,
        ),
        (UpdatePhase::UpdatingFeed, UpdateEvent::SourceUpdateFailed) => (
            UpdatePhase::Idle,
            UpdateAction::EmitFetchError,
        ),
        (UpdatePhase::FetchingFeed, UpdateEvent::ItemsFetched(n)) => {
            if n > 0 && buffer_size > 0 {
                (UpdatePhase::Comparing { next: n, total: n }, UpdateAction::StartCompare(
                    (n - 1) as usize,
                ))
            } else {
                (UpdatePhase::Idle, UpdateAction::Emit { item: None, next_persist: None })
            }
        },
        (UpdatePhase::FetchingFeed, UpdateEvent::ItemsFetchFailed) => (
            UpdatePhase::Idle,
            UpdateAction::EmitFetchError,
        ),
        (UpdatePhase::Comparing { next, total }, UpdateEvent::Compared(seen)) => {
            if seen {
                spec_finish(next, total)
            } else {
                let staged = (next - 1) as usize;
                if staged > 0 && total - staged < buffer_size {
                    (UpdatePhase::Comparing { next: staged, total }, UpdateAction::StartCompare(
                        (staged - 1) as usize,
                    ))
                } else {
                    spec_finish(staged, total)
                }
            }
        },
        (UpdatePhase::Comparing { .. }, UpdateEvent::CompareFailed) => (
            UpdatePhase::Idle,
            UpdateAction::EmitPersistenceError,
        ),
        (UpdatePhase::ClearingBuffer { current, total }, UpdateEvent::Persisted) => {
            if current + 1 < total {
                (
                    UpdatePhase::ClearingBuffer { current: (current + 1) as usize, total },
                    UpdateAction::Emit {
                        item: Some(current),
                        next_persist: Some((current + 1) as usize),
                    },
                )
            } else {
                (UpdatePhase::Idle, UpdateAction::Emit { item: Some(current), next_persist: None })
            }
        },
        (UpdatePhase::ClearingBuffer { .. }, UpdateEvent::PersistFailed) => (
            UpdatePhase::Idle,
            UpdateAction::EmitPersistenceError,
        ),
        _ => (phase, UpdateAction::Pending),
    }
}

impl UpdateMachine {
    #[verifier::type_invariant]
    spec fn inv(self) -> bool {
        phase_wf(self.phase, self.buffer_size as nat)
    }

    pub closed spec fn spec_phase(self) -> UpdatePhase {
        self.phase
    }

    pub closed spec fn spec_buffer_size(self) -> usize {
        self.buffer_size
    }

    /// A machine waiting for its first wake-up that stages at most
    /// `buffer_size` items per round.
    pub fn new(buffer_size: usize) -> (m: Self)
        ensures
            m.spec_phase() == UpdatePhase::Idle,
            m.spec_buffer_size() == buffer_size,
    {
        UpdateMachine { phase: UpdatePhase::Idle, buffer_size }
    }

    pub fn phase(&self) -> (p: UpdatePhase)
        ensures
            p == self.spec_phase(),
            phase_wf(p, self.spec_buffer_size() as nat),
    {
        proof {
            use_type_invariant(self);
        }
        self.phase
    }

    pub fn buffer_size(&self) -> (b: usize)
        ensures
            b == self.spec_buffer_size(),
    {
        self.buffer_size
    }

    fn finish(next: usize, total: usize) -> (r: (UpdatePhase, UpdateAction))
        ensures
            r == spec_finish(next, total),
    {
        if next >= total {
            (UpdatePhase::Idle, UpdateAction::Emit { item: None, next_persist: None })
        } else {
            (UpdatePhase::ClearingBuffer { current: next, total }, UpdateAction::StartPersist(next))
        }
    }

    /// Takes an outcome, moves to the next phase and says what to do next.
    pub fn on_event(&mut self, ev: UpdateEvent) -> (action: UpdateAction)
        ensures
            (final(self).spec_phase(), action) == spec_step(
                old(self).spec_phase(),
                old(self).spec_buffer_size(),
                ev,
            ),
            final(self).spec_buffer_size() == old(self).spec_buffer_size(),
            phase_wf(final(self).spec_phase(), final(self).spec_buffer_size() as nat),
    {
        proof {
            use_type_invariant(&*self);
        }
        let bs = self.buffer_size;
        let (phase, action) = match (self.phase, ev) {
            (UpdatePhase::Idle, UpdateEvent::WakerYielded) => (
                UpdatePhase::UpdatingFeed,
                UpdateAction::StartUpdate,
            ),
            (UpdatePhase::Idle, UpdateEvent::WakerEnded) => (UpdatePhase::Idle, UpdateAction::End),
            (UpdatePhase::UpdatingFeed, UpdateEvent::SourceUpdated) => (
                UpdatePhase::FetchingFeed,
                UpdateAction::StartFetch,
            ),
            (UpdatePhase::UpdatingFeed, UpdateEvent::SourceUpdateFailed) => (
                UpdatePhase::Idle,
                UpdateAction::EmitFetchError,
            ),
            (UpdatePhase::FetchingFeed, UpdateEvent::ItemsFetched(n)) => {
                if n > 0 && bs > 0 {
                    (UpdatePhase::Comparing { next: n, total: n }, UpdateAction::StartCompare(
                        n - 1,
                    ))
                } else {
                    (UpdatePhase::Idle, UpdateAction::Emit { item: None, next_persist: None })
                }
            },
            (UpdatePhase::FetchingFeed, UpdateEvent::ItemsFetchFailed) => (
                UpdatePhase::Idle,
                UpdateAction::EmitFetchError,
            ),
            (UpdatePhase::Comparing { next, total }, UpdateEvent::Compared(seen)) => {
                if seen {
                    Self::finish(next, total)
                } else {
                    let staged = next - 1;
                    if staged > 0 && total - staged < bs {
                        (
                            UpdatePhase::Comparing { next: staged, total },
                            UpdateAction::StartCompare(staged - 1),
                        )
                    } else {
                        Self::finish(staged, total)
                    }
                }
            },
            (UpdatePhase::Comparing { .. }, UpdateEvent::CompareFailed) => (
                UpdatePhase::Idle,
                UpdateAction::EmitPersistenceError,
            ),
            (UpdatePhase::ClearingBuffer { current, total }, UpdateEvent::Persisted) => {
                if current + 1 < total {
                    (
                        UpdatePhase::ClearingBuffer { current: current + 1, total },
                        UpdateAction::Emit { item: Some(current), next_persist: Some(current + 1) },
                    )
                } else {
                    (UpdatePhase::Idle, UpdateAction::Emit { item: Some(current), next_persist: None })
                }
            },
            (UpdatePhase::ClearingBuffer { .. }, UpdateEvent::PersistFailed) => (
                UpdatePhase::Idle,
                UpdateAction::EmitPersistenceError,
            ),
            (p, _) => (p, UpdateAction::Pending),
        };
        self.phase = phase;
        action
    }
}

/// Scanning newest-first from index `next` (exclusive) with `staged` items
/// already staged: the index where staging stops. It stops at an item
/// already seen, at the start of the list, or when the buffer is full.
pub open spec fn staging_start(seen: Seq<bool>, next: int, staged: int, buffer_size: int) -> int
    decreases next,
{
    if next <= 0 || staged >= buffer_size || seen[next - 1] {
        next
    } else {
        staging_start(seen, next - 1, staged + 1, buffer_size)
    }
}

/// What one round yields when the fetched list has `seen.len()` items and
/// item `i` has been seen iff `seen[i]`: the staged items oldest first, or a
/// single `None` when nothing is new.
pub open spec fn round_output(seen: Seq<bool>, buffer_size: int) -> Seq<Option<int>> {
    let n = seen.len() as int;
    let k = staging_start(seen, n, 0, buffer_size);
    if k >= n {
        seq![None]
    } else {
        Seq::new((n - k) as nat, |j: int| Some(k + j))
    }
}

/// The event an honest driver reports in a phase, when the comparisons
/// answer from `seen` and every persist succeeds.
pub open spec fn honest_event(phase: UpdatePhase, seen: Seq<bool>) -> UpdateEvent {
    match phase {
        UpdatePhase::Comparing { next, total } => UpdateEvent::Compared(seen[next - 1]),
        _ => UpdateEvent::Persisted,
    }
}

/// The items yielded and persisted while driving the machine honestly for at
/// most `fuel` steps, until it is idle again.
pub open spec fn drive(phase: UpdatePhase, buffer_size: usize, seen: Seq<bool>, fuel: nat) -> (
    Seq<Option<int>>,
    Seq<int>,
    UpdatePhase,
)
    decreases fuel,
{
    if fuel == 0 || phase == UpdatePhase::Idle {
        (seq![], seq![], phase)
    } else {
        let (p2, a) = spec_step(phase, buffer_size, honest_event(phase, seen));
        let (ys, ps, last) = drive(p2, buffer_size, seen, (fuel - 1) as nat);
        let y: Seq<Option<int>> = match a {
            UpdateAction::Emit { item, .. } => seq![
                match item {
                    Some(i) => Some(i as int),
                    None => None,
                },
            ],
            _ => seq![],
        };
        let p: Seq<int> = match a {
            UpdateAction::StartPersist(i) => seq![i as int],
            UpdateAction::Emit { next_persist: Some(i), .. } => seq![i as int],
            _ => seq![],
        };
        (y + ys, p + ps, last)
    }
}

proof fn lemma_drive_clearing(current: usize, total: usize, buffer_size: usize, seen: Seq<bool>, fuel: nat)
    requires
        current < total,
        fuel >= total - current,
    ensures
        ({
            let (ys, ps, last) = drive(
                UpdatePhase::ClearingBuffer { current, total },
                buffer_size,
                seen,
                fuel,
            );
            &&& ys == Seq::new((total - current) as nat, |j: int| Some(current + j))
            &&& ps == Seq::new((total - current - 1) as nat, |j: int| current + 1 + j)
            &&& last == UpdatePhase::Idle
        }),
    decreases total - current,
{
    let phase = UpdatePhase::ClearingBuffer { current, total };
    let (p2, a) = spec_step(phase, buffer_size, honest_event(phase, seen));
    if current + 1 < total {
        lemma_drive_clearing((current + 1) as usize, total, buffer_size, seen, (fuel - 1) as nat);
        let (ys, ps, last) = drive(p2, buffer_size, seen, (fuel - 1) as nat);
        let (ys0, ps0, last0) = drive(phase, buffer_size, seen, fuel);
        assert(ys0 =~= Seq::new((total - current) as nat, |j: int| Some(current + j)));
        assert(ps0 =~= Seq::new((total - current - 1) as nat, |j: int| current + 1 + j));
    } else {
        assert(drive(UpdatePhase::Idle, buffer_size, seen, (fuel - 1) as nat) == (
            Seq::<Option<int>>::empty(),
            Seq::<int>::empty(),
            UpdatePhase::Idle,
        ));
        let (ys0, ps0, last0) = drive(phase, buffer_size, seen, fuel);
        assert(ys0 =~= Seq::new((total - current) as nat, |j: int| Some(current + j)));
        assert(ps0 =~= Seq::new((total - current - 1) as nat, |j: int| current + 1 + j));
    }
}

proof fn lemma_drive_comparing(
    next: usize,
    total: usize,
    buffer_size: usize,
    seen: Seq<bool>,
    fuel: nat,
)
    requires
        0 < next <= total,
        total - next < buffer_size,
        seen.len() == total,
        fuel >= next + total + 1,
    ensures
        ({
            let k = staging_start(seen, next as int, total - next, buffer_size as int);
            let (ys, ps, last) = drive(
                UpdatePhase::Comparing { next, total },
                buffer_size,
                seen,
                fuel,
            );
            &&& 0 <= k <= next
            &&& ys == (if k >= total {
                seq![None]
            } else {
                Seq::new((total - k) as nat, |j: int| Some(k + j))
            })
            &&& ps == (if k >= total {
                Seq::<int>::empty()
            } else {
                Seq::new((total - k) as nat, |j: int| k + j)
            })
            &&& last == UpdatePhase::Idle
        }),
    decreases next,
{
    let phase = UpdatePhase::Comparing { next, total };
    let (p2, a) = spec_step(phase, buffer_size, honest_event(phase, seen));
    let k = staging_start(seen, next as int, total - next, buffer_size as int);
    let (ys0, ps0, last0) = drive(phase, buffer_size, seen, fuel);
    if seen[next - 1] {
        assert(k == next);
        if next < total {
            lemma_drive_clearing(next, total, buffer_size, seen, (fuel - 1) as nat);
            assert(ps0 =~= Seq::new((total - k) as nat, |j: int| k + j));
        } else {
            assert(drive(UpdatePhase::Idle, buffer_size, seen, (fuel - 1) as nat) == (
                Seq::<Option<int>>::empty(),
                Seq::<int>::empty(),
                UpdatePhase::Idle,
            ));
            assert(ys0 =~= seq![None]);
        }
    } else {
        let staged = (next - 1) as usize;
        assert(k == staging_start(seen, staged as int, total - staged, buffer_size as int));
        if staged > 0 && total - staged < buffer_size {
            lemma_drive_comparing(staged, total, buffer_size, seen, (fuel - 1) as nat);
        } else {
            assert(k == staged);
            lemma_drive_clearing(staged, total, buffer_size, seen, (fuel - 1) as nat);
            assert(ps0 =~= Seq::new((total - k) as nat, |j: int| k + j));
        }
    }
}

/// A round law: once the items are fetched, answering every comparison from
/// `seen` and letting every persist succeed, the machine yields exactly
/// [`round_output`], persists exactly the yielded items in the same order,
/// and becomes idle again.
pub proof fn lemma_round(buffer_size: usize, seen: Seq<bool>)
    requires
        seen.len() <= usize::MAX,
    ensures
        ({
            let n = seen.len() as usize;
            let (p1, a1) = spec_step(UpdatePhase::FetchingFeed, buffer_size, UpdateEvent::ItemsFetched(n));
            let (ys, ps, last) = drive(p1, buffer_size, seen, 2 * seen.len() + 1);
            let out = if a1 is Emit { seq![None] + ys } else { ys };
            &&& out == round_output(seen, buffer_size as int)
            &&& ps == out.filter(|o: Option<int>| o is Some).map_values(|o: Option<int>| o->0)
            &&& last == UpdatePhase::Idle
        }),
{
    let n = seen.len() as usize;
    let (p1, a1) = spec_step(UpdatePhase::FetchingFeed, buffer_size, UpdateEvent::ItemsFetched(n));
    let out_spec = round_output(seen, buffer_size as int);
    if n > 0 && buffer_size > 0 {
        lemma_drive_comparing(n, n, buffer_size, seen, 2 * seen.len() + 1);
        let (ys, ps, last) = drive(p1, buffer_size, seen, 2 * seen.len() + 1);
        let k = staging_start(seen, n as int, 0, buffer_size as int);
        if k >= n {
            assert(ys.filter(|o: Option<int>| o is Some) =~= seq![]) by {
                reveal(Seq::filter);
                assert(ys.drop_last() =~= seq![]);
            }
        } else {
            lemma_all_some_filter(ys, k, (n - k) as nat);
            assert(ys.filter(|o: Option<int>| o is Some).map_values(|o: Option<int>| o->0) =~= ps);
        }
    } else {
        assert(staging_start(seen, n as int, 0, buffer_size as int) == n);
        let (ys, ps, last) = drive(p1, buffer_size, seen, 2 * seen.len() + 1);
        assert(seq![None] + ys =~= seq![None]);
        assert((seq![None] + ys).filter(|o: Option<int>| o is Some) =~= seq![]) by {
            reveal(Seq::filter);
            assert((seq![None] + ys).drop_last() =~= seq![]);
        }
    }
}

proof fn lemma_all_some_filter(ys: Seq<Option<int>>, k: int, len: nat)
    requires
        ys == Seq::new(len, |j: int| Some(k + j)),
    ensures
        ys.filter(|o: Option<int>| o is Some) == ys,
    decreases len,
{
    reveal(Seq::filter);
    if len > 0 {
        let shorter = Seq::new((len - 1) as nat, |j: int| Some(k + j));
        assert(ys.drop_last() =~= shorter);
        lemma_all_some_filter(shorter, k, (len - 1) as nat);
    } else {
        assert(ys =~= seq![]);
    }
}

/// Where staging stops: every staged item is unseen, and staging stopped for
/// a reason (the list start, a full buffer, or an item already seen).
pub proof fn lemma_staging_start(seen: Seq<bool>, buffer_size: int)
    ensures
        ({
            let n = seen.len() as int;
            let k = staging_start(seen, n, 0, buffer_size);
            &&& 0 <= k <= n
            &&& forall|i: int| k <= i < n ==> !seen[i]
            &&& k == 0 || n - k >= buffer_size || seen[k - 1]
            &&& n - k <= buffer_size || k == n
        }),
{
    lemma_staging_start_from(seen, seen.len() as int, 0, buffer_size);
}

proof fn lemma_staging_start_from(seen: Seq<bool>, next: int, staged: int, buffer_size: int)
    requires
        0 <= next <= seen.len(),
        staged == seen.len() - next,
        forall|i: int| next <= i < seen.len() ==> !seen[i],
        staged <= buffer_size || staged == 0,
    ensures
        ({
            let n = seen.len() as int;
            let k = staging_start(seen, next, staged, buffer_size);
            &&& 0 <= k <= next
            &&& forall|i: int| k <= i < n ==> !seen[i]
            &&& k == 0 || n - k >= buffer_size || seen[k - 1]
            &&& n - k <= buffer_size || k == n
        }),
    decreases next,
{
    if !(next <= 0 || staged >= buffer_size || seen[next - 1]) {
        lemma_staging_start_from(seen, next - 1, staged + 1, buffer_size);
    }
}

/// An item is handed out only once it has been persisted: an `Emit` of
/// item `i` comes only from persisting item `i` and its success.
pub proof fn law_persisted_before_yield(phase: UpdatePhase, buffer_size: usize, ev: UpdateEvent)
    ensures
        spec_step(phase, buffer_size, ev).1 matches UpdateAction::Emit { item: Some(i), .. } ==> (
        phase matches UpdatePhase::ClearingBuffer { current, .. } && current == i && ev
            == UpdateEvent::Persisted),
{
}

/// A failure ends the round: a failed refresh or fetch is reported as a
/// fetch error, a failed comparison or persist as a persistence error, and
/// the machine is idle again, asking for no further work on the store. A
/// failure reported while the machine waits on that very operation is
/// never ignored, and the next wake-up starts a fresh round.
pub proof fn law_failure_ends_round(phase: UpdatePhase, buffer_size: usize, ev: UpdateEvent)
    ensures
        ({
            let (p2, a) = spec_step(phase, buffer_size, ev);
            &&& (ev == UpdateEvent::SourceUpdateFailed || ev == UpdateEvent::ItemsFetchFailed) ==> (
            a == UpdateAction::Pending && p2 == phase || a == UpdateAction::EmitFetchError && p2
                == UpdatePhase::Idle)
            &&& (ev == UpdateEvent::CompareFailed || ev == UpdateEvent::PersistFailed) ==> (a
                == UpdateAction::Pending && p2 == phase || a == UpdateAction::EmitPersistenceError
                && p2 == UpdatePhase::Idle)
        }),
        spec_step(UpdatePhase::UpdatingFeed, buffer_size, UpdateEvent::SourceUpdateFailed) == (
            UpdatePhase::Idle,
            UpdateAction::EmitFetchError,
        ),
        spec_step(UpdatePhase::FetchingFeed, buffer_size, UpdateEvent::ItemsFetchFailed) == (
            UpdatePhase::Idle,
            UpdateAction::EmitFetchError,
        ),
        phase is Comparing ==> spec_step(phase, buffer_size, UpdateEvent::CompareFailed) == (
            UpdatePhase::Idle,
            UpdateAction::EmitPersistenceError,
        ),
        phase is ClearingBuffer ==> spec_step(phase, buffer_size, UpdateEvent::PersistFailed) == (
            UpdatePhase::Idle,
            UpdateAction::EmitPersistenceError,
        ),
        ({
            let failed = (phase == UpdatePhase::UpdatingFeed && ev == UpdateEvent::SourceUpdateFailed)
                || (phase == UpdatePhase::FetchingFeed && ev == UpdateEvent::ItemsFetchFailed)
                || (phase is Comparing && ev == UpdateEvent::CompareFailed)
                || (phase is ClearingBuffer && ev == UpdateEvent::PersistFailed);
            failed ==> spec_step(spec_step(phase, buffer_size, ev).0, buffer_size, UpdateEvent::WakerYielded)
                == (UpdatePhase::UpdatingFeed, UpdateAction::StartUpdate)
        }),
{
}

/// A wake-up starts a round with a refresh of the source; items are
/// fetched only after a refresh succeeded; when the waker ends while idle,
/// the stream ends; a cancelled or pending wake-up changes nothing.
pub proof fn law_round_starts_with_refresh(phase: UpdatePhase, buffer_size: usize, ev: UpdateEvent)
    ensures
        spec_step(UpdatePhase::Idle, buffer_size, UpdateEvent::WakerYielded) == (
            UpdatePhase::UpdatingFeed,
            UpdateAction::StartUpdate,
        ),
        spec_step(UpdatePhase::Idle, buffer_size, UpdateEvent::WakerEnded) == (
            UpdatePhase::Idle,
            UpdateAction::End,
        ),
        spec_step(UpdatePhase::Idle, buffer_size, UpdateEvent::WakerIdle) == (
            UpdatePhase::Idle,
            UpdateAction::Pending,
        ),
        spec_step(phase, buffer_size, ev).1 == UpdateAction::StartFetch ==> phase
            == UpdatePhase::UpdatingFeed && ev == UpdateEvent::SourceUpdated,
        spec_step(phase, buffer_size, ev).1 == UpdateAction::StartUpdate ==> phase
            == UpdatePhase::Idle && ev == UpdateEvent::WakerYielded,
{
}

} // verus!
