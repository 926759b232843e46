use ctx_sync_core::store::sync::{
    parse_counts, pull_plan, sync_loop, sync_start, sync_step, LoopResult, PullPlan, SyncDecision, SyncEvent,
    SyncOps, SyncStep,
};
use ctx_sync_core::Error;

/// Scripted responses; records how often each step ran.
#[derive(Default)]
struct FakeOps {
    ahead_behind: Vec<(u32, u32)>,
    rebase_conflict: Option<Vec<String>>,
    push_results: Vec<bool>,
    fetches: u32,
    rebases: u32,
    pushes: u32,
}

impl SyncOps for FakeOps {
    fn fetch(&mut self) -> Result<(), Error> {
        self.fetches += 1;
        Ok(())
    }

    fn ahead_behind(&mut self) -> Result<(u32, u32), Error> {
        Ok(self.ahead_behind.remove(0))
    }

    fn rebase(&mut self) -> Result<Option<Vec<String>>, Error> {
        self.rebases += 1;
        Ok(self.rebase_conflict.clone())
    }

    fn push(&mut self) -> Result<bool, Error> {
        self.pushes += 1;
        Ok(self.push_results.remove(0))
    }
}

#[test]
fn pushes_local_commits() {
    let mut ops = FakeOps {
        ahead_behind: vec![(1, 0)],
        push_results: vec![true],
        ..Default::default()
    };
    assert_eq!(sync_loop(&mut ops).0.unwrap(), LoopResult::Pushed { attempts: 1 });
    assert_eq!((ops.fetches, ops.rebases, ops.pushes), (1, 0, 1));
}

#[test]
fn retries_after_non_fast_forward() {
    let mut ops = FakeOps {
        ahead_behind: vec![(1, 0), (1, 1), (1, 0)],
        push_results: vec![false, true],
        ..Default::default()
    };
    assert_eq!(sync_loop(&mut ops).0.unwrap(), LoopResult::Pushed { attempts: 2 });
    assert_eq!((ops.fetches, ops.rebases, ops.pushes), (2, 1, 2));
}

#[test]
fn gives_up_after_three_rejections() {
    let mut ops = FakeOps {
        ahead_behind: vec![(1, 0); 3],
        push_results: vec![false; 3],
        ..Default::default()
    };
    let err = sync_loop(&mut ops).0.unwrap_err();
    assert!(matches!(err, Error::SyncRetryExceeded), "{err:?}");
    assert_eq!(err.exit_code(), 5);
    assert_eq!(ops.pushes, 3);
}

#[test]
fn stops_on_conflict_without_pushing() {
    let mut ops = FakeOps {
        ahead_behind: vec![(1, 1)],
        rebase_conflict: Some(vec!["20-architecture.md".into()]),
        ..Default::default()
    };
    assert_eq!(
        sync_loop(&mut ops).0.unwrap(),
        LoopResult::Conflict {
            files: vec!["20-architecture.md".into()]
        }
    );
    assert_eq!(ops.pushes, 0);
}

#[test]
fn nothing_to_push() {
    let mut ops = FakeOps {
        ahead_behind: vec![(0, 0)],
        ..Default::default()
    };
    assert_eq!(
        sync_loop(&mut ops).0.unwrap(),
        LoopResult::NothingToPush { attempts: 1 }
    );
    assert_eq!(ops.pushes, 0);
}

#[test]
fn fast_forward_only_is_nothing_to_push() {
    let mut ops = FakeOps {
        ahead_behind: vec![(0, 2), (0, 0)],
        ..Default::default()
    };
    assert_eq!(
        sync_loop(&mut ops).0.unwrap(),
        LoopResult::NothingToPush { attempts: 1 }
    );
    assert_eq!((ops.rebases, ops.pushes), (1, 0));
}

#[test]
fn machine_steps_through_one_attempt() {
    let m = sync_start();
    assert_eq!((m.attempt, m.next), (1, SyncStep::Fetch));
    let m = match sync_step(m, SyncEvent::Fetched) {
        SyncDecision::Continue(n) => n,
        other => panic!("{other:?}"),
    };
    assert_eq!(m.next, SyncStep::Count);
    let m = match sync_step(m, SyncEvent::Counted { ahead: 1, behind: 0 }) {
        SyncDecision::Continue(n) => n,
        other => panic!("{other:?}"),
    };
    assert_eq!(m.next, SyncStep::Push);
    let m = match sync_step(m, SyncEvent::PushAccepted(false)) {
        SyncDecision::Continue(n) => n,
        other => panic!("{other:?}"),
    };
    assert_eq!((m.attempt, m.next), (2, SyncStep::Fetch));
}

#[test]
fn pull_plans() {
    assert_eq!(pull_plan(0, 0), PullPlan::UpToDate);
    assert_eq!(pull_plan(2, 0), PullPlan::UpToDate);
    assert_eq!(pull_plan(0, 3), PullPlan::FastForward);
    assert_eq!(pull_plan(1, 1), PullPlan::Diverged { ahead: 1, behind: 1 });
}

#[test]
fn counts_are_read_from_rev_list_output() {
    assert_eq!(parse_counts("2\t5\n"), Some((2, 5)));
    assert_eq!(parse_counts("0\t0"), Some((0, 0)));
    assert_eq!(parse_counts("2 5\n"), None);
    assert_eq!(parse_counts("x\t1\n"), None);
    assert_eq!(parse_counts("4294967296\t1\n"), None);
    assert_eq!(parse_counts(""), None);
}
