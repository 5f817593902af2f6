use subprocess::containment::{
    attach, is_nested, prepare, require_contained, unix_setup_for, Attached, ContainMode,
    ContainRequest, Containment, Nesting, Prepared, Signal, Teardown, UnixSetup, NESTED_ENV,
};
use subprocess::error::Error;
use subprocess::identity::ProcessId;

#[test]
fn containment_display_names_the_mechanism() {
    assert_eq!(Containment::JobObject.name(), "job object");
    assert_eq!(Containment::CgroupV2.name(), "cgroup v2");
    assert_eq!(Containment::ProcessGroup.name(), "process group");
    assert_eq!(Containment::Session.name(), "session");
    assert_eq!(Containment::TreeWalk.name(), "process-tree walk");
    assert_eq!(Containment::Delegated.name(), "delegated");
    assert_eq!(Containment::Uncontained.name(), "none");
}

#[test]
fn containment_can_teardown() {
    assert!(!Containment::Uncontained.can_teardown());
    assert!(!Containment::Delegated.can_teardown());
    for c in [
        Containment::CgroupV2,
        Containment::JobObject,
        Containment::ProcessGroup,
        Containment::Session,
        Containment::TreeWalk,
    ] {
        assert!(c.can_teardown(), "{c:?} must be teardown-capable");
    }
}

#[test]
fn nesting_defaults_to_mark() {
    assert_eq!(Nesting::default(), Nesting::Mark);
}

#[test]
fn contain_modes_are_distinct() {
    assert_ne!(ContainMode::Strongest, ContainMode::TreeWalk);
}

#[test]
fn contain_mode_session_is_distinct_from_strongest_and_treewalk() {
    assert_ne!(ContainMode::Session, ContainMode::Strongest);
    assert_ne!(ContainMode::Session, ContainMode::TreeWalk);
}

/// Without the marker the process is the root (not nested).
#[test]
fn is_nested_without_marker_is_false() {
    assert!(!is_nested(false));
}

/// With the marker the process is already inside a contained tree (nested).
#[test]
fn is_nested_with_marker_is_true() {
    assert!(is_nested(true));
}

/// Session mode selects `setsid` — never a process group.
#[test]
fn unix_setup_for_session_selects_setsid() {
    assert_eq!(unix_setup_for(Some(ContainMode::Session)), UnixSetup::Session);
}

/// Strongest selects a process group — never a session.
#[test]
fn unix_setup_for_strongest_selects_process_group() {
    assert_eq!(unix_setup_for(Some(ContainMode::Strongest)), UnixSetup::ProcessGroup);
}

/// Tree walk applies no pre-spawn grouping: it must catch process-group escapees.
#[test]
fn unix_setup_for_treewalk_selects_none() {
    assert_eq!(unix_setup_for(Some(ContainMode::TreeWalk)), UnixSetup::NoGrouping);
}

/// The uncontained fallback is well defined: a process group.
#[test]
fn unix_setup_for_none_mode_selects_process_group() {
    assert_eq!(unix_setup_for(None), UnixSetup::ProcessGroup);
}

#[test]
fn attached_is_actionable() {
    // No teardown mechanism -> not actionable.
    assert!(!Attached::<()>::Uncontained.is_actionable());
    assert!(!Attached::<()>::Delegated.is_actionable());
    // Every real mechanism is actionable.
    assert!(Attached::<()>::TreeWalk(ProcessId::from_parts_for_test(1, 1)).is_actionable());
    assert!(Attached::<()>::ProcessGroup(0).is_actionable());
    assert!(Attached::Cgroup(()).is_actionable());
}

/// A nested (`!is_root`) contained spawn yields both halves of the delegated
/// pair, for a kernel mechanism (Strongest) and for the tree walk.
#[test]
fn nested_attach_is_delegated() {
    for mode in [ContainMode::Strongest, ContainMode::TreeWalk] {
        let prepared = Prepared {
            mode: Some(mode),
            is_root: false,
            set_marker: false,
            setup: UnixSetup::NoGrouping,
            try_cgroup: false,
        };
        let (containment, attached) = attach::<()>(&prepared, 4242, None, None).expect("attach nested");
        assert_eq!(
            containment,
            Containment::Delegated,
            "nested member ({mode:?}) must report Containment::Delegated, got {containment:?}"
        );
        assert!(
            matches!(attached, Attached::Delegated),
            "nested member ({mode:?}) must be Attached::Delegated"
        );
    }
}

fn request(mode: Option<ContainMode>, nesting: Nesting) -> ContainRequest {
    ContainRequest { mode, nesting }
}

#[test]
fn contain_request_defaults_to_uncontained_marking() {
    let r = ContainRequest::default();
    assert_eq!(r.mode, None);
    assert_eq!(r.nesting, Nesting::Mark);
}

#[test]
fn nested_env_marker_name() {
    assert_eq!(NESTED_ENV, "__SUBPROCESS_GROUP_ROOT");
}

#[test]
fn prepare_uncontained_does_nothing() {
    let p = prepare(&request(None, Nesting::Mark), false);
    assert_eq!(
        p,
        Prepared {
            mode: None,
            is_root: false,
            set_marker: false,
            setup: UnixSetup::NoGrouping,
            try_cgroup: false,
        }
    );
}

#[test]
fn prepare_strongest_root_groups_marks_and_tries_cgroup() {
    let p = prepare(&request(Some(ContainMode::Strongest), Nesting::Mark), false);
    assert!(p.is_root);
    assert!(p.set_marker);
    assert_eq!(p.setup, UnixSetup::ProcessGroup);
    assert!(p.try_cgroup);
}

#[test]
fn prepare_session_root_uses_setsid_without_cgroup() {
    let p = prepare(&request(Some(ContainMode::Session), Nesting::Mark), false);
    assert!(p.is_root);
    assert_eq!(p.setup, UnixSetup::Session);
    assert!(!p.try_cgroup);
}

#[test]
fn prepare_treewalk_root_applies_no_grouping() {
    let p = prepare(&request(Some(ContainMode::TreeWalk), Nesting::Mark), false);
    assert!(p.is_root);
    assert_eq!(p.setup, UnixSetup::NoGrouping);
    assert!(!p.try_cgroup);
}

#[test]
fn prepare_opaque_root_leaves_descendants_unmarked() {
    let p = prepare(&request(Some(ContainMode::Strongest), Nesting::Opaque), false);
    assert!(p.is_root);
    assert!(!p.set_marker);
}

#[test]
fn prepare_nested_member_joins_its_ancestor() {
    let p = prepare(&request(Some(ContainMode::Strongest), Nesting::Mark), true);
    assert!(!p.is_root);
    assert!(!p.set_marker);
    assert_eq!(p.setup, UnixSetup::NoGrouping);
    assert!(!p.try_cgroup);
}

fn root_plan(mode: ContainMode) -> Prepared {
    prepare(&request(Some(mode), Nesting::Mark), false)
}

#[test]
fn attach_uncontained_is_lone_process() {
    let p = prepare(&request(None, Nesting::Mark), false);
    let (c, a) = attach::<()>(&p, 10, None, None).unwrap();
    assert_eq!(c, Containment::Uncontained);
    assert!(matches!(a, Attached::Uncontained));
    assert!(!c.can_teardown() && !a.is_actionable());
}

#[test]
fn attach_placed_cgroup_leaf_is_cgroup_v2() {
    let (c, a) = attach(&root_plan(ContainMode::Strongest), 10, Some(("leaf", true)), None).unwrap();
    assert_eq!(c, Containment::CgroupV2);
    assert!(matches!(a, Attached::Cgroup("leaf")));
}

#[test]
fn attach_unplaced_cgroup_leaf_falls_back_to_process_group() {
    let (c, a) = attach(&root_plan(ContainMode::Strongest), 10, Some(("leaf", false)), None).unwrap();
    assert_eq!(c, Containment::ProcessGroup);
    assert!(matches!(a, Attached::ProcessGroup(10)));
}

#[test]
fn attach_without_cgroup_is_process_group() {
    let (c, a) = attach::<()>(&root_plan(ContainMode::Strongest), 77, None, None).unwrap();
    assert_eq!(c, Containment::ProcessGroup);
    assert!(matches!(a, Attached::ProcessGroup(77)));
}

#[test]
fn attach_session_root_is_session_group() {
    let (c, a) = attach::<()>(&root_plan(ContainMode::Session), 55, None, None).unwrap();
    assert_eq!(c, Containment::Session);
    assert!(matches!(a, Attached::ProcessGroup(55)));
}

#[test]
fn attach_treewalk_root_keeps_its_identity() {
    let id = ProcessId::from_parts_for_test(55, 900);
    let (c, a) = attach::<()>(&root_plan(ContainMode::TreeWalk), 55, None, Some(id)).unwrap();
    assert_eq!(c, Containment::TreeWalk);
    assert!(matches!(a, Attached::TreeWalk(x) if x == id));
}

#[test]
fn attach_treewalk_root_that_vanished_is_a_containment_error() {
    let err = attach::<()>(&root_plan(ContainMode::TreeWalk), 55, None, None).unwrap_err();
    match err {
        Error::Containment { detail } => {
            assert_eq!(detail, "tree-walk root vanished before its identity could be read")
        }
        other => panic!("unexpected error {other:?}"),
    }
}

#[test]
fn teardown_of_each_mechanism() {
    let id = ProcessId::from_parts_for_test(9, 3);
    assert_eq!(Attached::<()>::Uncontained.hard_kill(), Teardown::Nothing);
    assert_eq!(Attached::<()>::Delegated.hard_kill(), Teardown::Nothing);
    assert_eq!(
        Attached::<()>::ProcessGroup(12).hard_kill(),
        Teardown::Group { pgid: 12, signal: Signal::Kill }
    );
    assert_eq!(
        Attached::<()>::ProcessGroup(12).terminate(),
        Teardown::Group { pgid: 12, signal: Signal::Term }
    );
    assert_eq!(Attached::Cgroup(()).hard_kill(), Teardown::Leaf { signal: Signal::Kill });
    assert_eq!(Attached::Cgroup(()).terminate(), Teardown::Leaf { signal: Signal::Term });
    assert_eq!(
        Attached::<()>::TreeWalk(id).terminate(),
        Teardown::Walk { root: id, signal: Signal::Term }
    );
}

#[test]
fn tree_operations_need_an_actionable_mechanism() {
    assert!(require_contained(&Attached::<()>::ProcessGroup(3), "linux").is_ok());
    assert!(require_contained(&Attached::Cgroup(()), "linux").is_ok());
    for a in [Attached::<()>::Uncontained, Attached::<()>::Delegated] {
        match require_contained(&a, "linux") {
            Err(Error::Unsupported { op, platform, .. }) => {
                assert_eq!(op, "tree teardown (kill_tree / terminate_tree)");
                assert_eq!(platform, "linux");
            }
            other => panic!("expected Unsupported, got {other:?}"),
        }
    }
}

#[test]
fn achieved_containment_agrees_with_the_mechanism() {
    let id = ProcessId::from_parts_for_test(8, 8);
    for mode in [None, Some(ContainMode::Strongest), Some(ContainMode::Session), Some(ContainMode::TreeWalk)] {
        for nested in [false, true] {
            for leaf in [None, Some(((), true)), Some(((), false))] {
                let p = prepare(&request(mode, Nesting::Mark), nested);
                let (c, a) = attach(&p, 8, leaf, Some(id)).unwrap();
                assert_eq!(c.can_teardown(), a.is_actionable(), "{mode:?} nested={nested}");
            }
        }
    }
}
