use std::time::Duration;
use subprocess::child::{
    drop_plan, tree_kill_result, ChildAction, ChildEvent, ChildShutdown, ChildStep, DropPlan,
};
use subprocess::containment::{Attached, Signal, Teardown};
use subprocess::error::Error;

fn io_error() -> Error {
    Error::Io(std::io::Error::from(std::io::ErrorKind::PermissionDenied))
}

#[test]
fn child_graceful_shutdown_returns_the_status_when_it_exits_in_time() {
    let (state, action) = ChildShutdown::graceful(Duration::from_millis(50));
    assert!(matches!(action, ChildAction::Terminate));
    let state = match state.advance::<u8>(ChildEvent::Terminated(Ok(()))) {
        ChildStep::Next(s, ChildAction::WaitFor(g)) => {
            assert_eq!(g, Duration::from_millis(50));
            s
        }
        other => panic!("expected the grace wait, got {other:?}"),
    };
    assert!(matches!(state.advance(ChildEvent::Waited(Ok(Some(7u8)))), ChildStep::Done(Ok(7))));
}

#[test]
fn child_graceful_shutdown_kills_and_reaps_after_the_grace() {
    let (state, _) = ChildShutdown::graceful(Duration::ZERO);
    let state = match state.advance::<u8>(ChildEvent::Terminated(Ok(()))) {
        ChildStep::Next(s, _) => s,
        other => panic!("expected the grace wait, got {other:?}"),
    };
    let state = match state.advance::<u8>(ChildEvent::Waited(Ok(None))) {
        ChildStep::Next(s, ChildAction::Kill) => s,
        other => panic!("expected SIGKILL, got {other:?}"),
    };
    let state = match state.advance::<u8>(ChildEvent::Killed(Ok(()))) {
        ChildStep::Next(s, ChildAction::Reap) => s,
        other => panic!("expected the reap, got {other:?}"),
    };
    assert!(matches!(state.advance(ChildEvent::Reaped(Ok(9u8))), ChildStep::Done(Ok(9))));
}

#[test]
fn child_graceful_shutdown_surfaces_failures() {
    let (state, _) = ChildShutdown::graceful(Duration::ZERO);
    assert!(matches!(state.advance::<u8>(ChildEvent::Terminated(Err(io_error()))), ChildStep::Done(Err(_))));
    let (state, _) = ChildShutdown::graceful(Duration::ZERO);
    let state = match state.advance::<u8>(ChildEvent::Terminated(Ok(()))) {
        ChildStep::Next(s, _) => s,
        other => panic!("expected the grace wait, got {other:?}"),
    };
    let state = match state.advance::<u8>(ChildEvent::Waited(Ok(None))) {
        ChildStep::Next(s, _) => s,
        other => panic!("expected SIGKILL, got {other:?}"),
    };
    assert!(matches!(state.advance::<u8>(ChildEvent::Killed(Err(io_error()))), ChildStep::Done(Err(_))));
}

#[test]
fn dropping_kills_the_tree_then_the_child_unless_detached() {
    assert_eq!(drop_plan(&Attached::<()>::ProcessGroup(40), false), DropPlan::Leave);
    assert_eq!(
        drop_plan(&Attached::<()>::ProcessGroup(40), true),
        DropPlan::KillThenReap(Teardown::Group { pgid: 40, signal: Signal::Kill })
    );
    assert_eq!(drop_plan(&Attached::<()>::Uncontained, true), DropPlan::KillThenReap(Teardown::Nothing));
}

#[test]
fn tree_kill_reports_the_group_error_first() {
    assert!(tree_kill_result(Ok(()), Ok(())).is_ok());
    assert!(matches!(tree_kill_result(Ok(()), Err(io_error())), Err(Error::Io(_))));
    let group = Err(Error::Containment { detail: "group".to_string() });
    match tree_kill_result(group, Err(io_error())) {
        Err(Error::Containment { detail }) => assert_eq!(detail, "group"),
        other => panic!("expected the group error, got {other:?}"),
    }
}
