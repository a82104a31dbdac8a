use lib_common::update::{UpdateAction, UpdateEvent, UpdateMachine, UpdatePhase};

trait Persistence {
    fn update(&mut self, item: u64);
    fn cmp(&self, item: u64) -> bool;
}

/// Remembers only the last item marked seen.
#[derive(Default)]
struct LastSeen(Option<u64>);

impl Persistence for LastSeen {
    fn update(&mut self, item: u64) {
        self.0 = Some(item);
    }
    fn cmp(&self, item: u64) -> bool {
        self.0 == Some(item)
    }
}

/// Remembers every item marked seen.
#[derive(Default)]
struct AllSeen(Vec<u64>);

impl Persistence for AllSeen {
    fn update(&mut self, item: u64) {
        self.0.push(item);
    }
    fn cmp(&self, item: u64) -> bool {
        self.0.contains(&item)
    }
}

/// Drives one wake-up of the update stream over `items` and collects what
/// it yields, as a waker that yields once and then ends would.
fn run_once<P: Persistence>(items: &[u64], persistence: &mut P, buffer_size: usize) -> Vec<Option<u64>> {
    let mut m = UpdateMachine::new(buffer_size);
    let mut out = Vec::new();
    let mut woke = false;
    let mut action = m.on_event(UpdateEvent::WakerYielded);
    loop {
        action = match action {
            UpdateAction::StartUpdate => m.on_event(UpdateEvent::SourceUpdated),
            UpdateAction::StartFetch => m.on_event(UpdateEvent::ItemsFetched(items.len())),
            UpdateAction::StartCompare(i) => m.on_event(UpdateEvent::Compared(persistence.cmp(items[i]))),
            UpdateAction::StartPersist(i) => {
                persistence.update(items[i]);
                m.on_event(UpdateEvent::Persisted)
            }
            UpdateAction::Emit { item, next_persist } => {
                out.push(item.map(|i| items[i]));
                match next_persist {
                    Some(j) => {
                        persistence.update(items[j]);
                        m.on_event(UpdateEvent::Persisted)
                    }
                    None => {
                        woke = true;
                        m.on_event(UpdateEvent::WakerEnded)
                    }
                }
            }
            UpdateAction::End => break,
            other => panic!("unexpected action {other:?}"),
        };
    }
    assert!(woke);
    out
}

#[test]
fn test_update() {
    let mut source = vec![1, 2, 3];
    let mut persistence = LastSeen::default();
    let series: Vec<u64> = run_once(&source, &mut persistence, usize::MAX).into_iter().map(|n| n.unwrap()).collect();
    assert_eq!(series, vec![1, 2, 3]);

    let series = run_once(&source, &mut persistence, usize::MAX);
    assert_eq!(series[0], None);

    source.push(4);
    let series: Vec<u64> = run_once(&source, &mut persistence, usize::MAX).into_iter().map(|n| n.unwrap()).collect();
    assert_eq!(series, vec![4]);

    source.clear();
    let series = run_once(&source, &mut persistence, usize::MAX);
    assert_eq!(series, vec![None]);
}

#[test]
fn test_update_simple() {
    let mut source = vec![1, 2, 3];
    let mut persistence = AllSeen::default();
    let series: Vec<u64> = run_once(&source, &mut persistence, usize::MAX).into_iter().map(|n| n.unwrap()).collect();
    assert_eq!(series, vec![1, 2, 3]);

    let series = run_once(&source, &mut persistence, usize::MAX);
    assert_eq!(series[0], None);

    source.push(4);
    let series: Vec<u64> = run_once(&source, &mut persistence, usize::MAX).into_iter().map(|n| n.unwrap()).collect();
    assert_eq!(series, vec![4]);

    source.clear();
    let series = run_once(&source, &mut persistence, usize::MAX);
    assert_eq!(series, vec![None]);
}

#[test]
fn update_buffer_keeps_newest_items() {
    let source = vec![10, 20, 30, 40];
    let mut persistence = AllSeen::default();
    let series = run_once(&source, &mut persistence, 2);
    assert_eq!(series, vec![Some(30), Some(40)]);
    assert_eq!(persistence.0, vec![30, 40]);
}

#[test]
fn update_zero_buffer_yields_nothing_new() {
    let source = vec![1, 2];
    let mut persistence = AllSeen::default();
    assert_eq!(run_once(&source, &mut persistence, 0), vec![None]);
    assert!(persistence.0.is_empty());
}

#[test]
fn update_errors_end_the_round() {
    let mut m = UpdateMachine::new(5);
    assert_eq!(m.on_event(UpdateEvent::WakerYielded), UpdateAction::StartUpdate);
    assert_eq!(m.on_event(UpdateEvent::SourceUpdateFailed), UpdateAction::EmitFetchError);
    assert_eq!(m.phase(), UpdatePhase::Idle);
    assert_eq!(m.on_event(UpdateEvent::WakerYielded), UpdateAction::StartUpdate);
    assert_eq!(m.on_event(UpdateEvent::SourceUpdated), UpdateAction::StartFetch);
    assert_eq!(m.on_event(UpdateEvent::ItemsFetched(3)), UpdateAction::StartCompare(2));
    assert_eq!(m.on_event(UpdateEvent::CompareFailed), UpdateAction::EmitPersistenceError);
    assert_eq!(m.on_event(UpdateEvent::WakerIdle), UpdateAction::Pending);
    assert_eq!(m.on_event(UpdateEvent::WakerEnded), UpdateAction::End);
    assert_eq!(m.buffer_size(), 5);
}
