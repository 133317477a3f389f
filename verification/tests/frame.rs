use frame_selection::cdp::CdpEvent;
use frame_selection::element::{FrameContext, RefContext, RefMap};
use frame_selection::selection::{SelectedFrameState, SelectionStatus};
use frame_selection::string_map::StringMap;
use frame_selection::topology::{frame_reaches_top, FrameTarget, FrameTopology};
use frame_selection::tree::collect_frame_targets;
use serde_json::Value;

fn text(text: &str) -> Value {
    Value::String(text.to_string())
}

fn record(members: Vec<(&str, Value)>) -> Value {
    Value::Object(
        members
            .into_iter()
            .map(|(key, value)| (key.to_string(), value))
            .collect(),
    )
}

fn list(items: Vec<Value>) -> Value {
    Value::Array(items)
}

fn sessions(pairs: &[(&str, &str)]) -> StringMap<String> {
    let mut map = StringMap::new();
    for (frame, session) in pairs {
        map.insert(frame.to_string(), session.to_string());
    }
    map
}

fn setup() -> (SelectedFrameState, FrameContext, RefMap) {
    let mut frames = StringMap::new();
    for (id, sid, parent) in [
        ("top", "page", None),
        ("outer", "oopif", Some("top")),
        ("inner", "oopif", Some("outer")),
    ] {
        frames.insert(
            id.to_string(),
            FrameTarget {
                frame_id: id.into(),
                session_id: sid.into(),
                parent_id: parent.map(str::to_string),
                loader_id: Some("old-document".into()),
            },
        );
    }
    let lifecycle = SelectedFrameState {
        status: SelectionStatus::Ready,
        topology: Some(FrameTopology {
            top_frame_id: "top".into(),
            frames,
            incomplete: false,
        }),
        revision: 0,
    };
    let selected = FrameContext {
        frame_id: "inner".into(),
        session_id: "oopif".into(),
    };
    let mut refs = RefMap::new();
    for (id, frame) in [("e1", "outer"), ("e2", "inner")] {
        refs.add_with_frame(
            id.into(),
            Some(7),
            "button",
            "shared name",
            None,
            RefContext {
                frame_id: Some(frame),
                session_id: Some("oopif"),
            },
        );
    }
    (lifecycle, selected, refs)
}

fn event(method: &str, session: &str, params: Value) -> CdpEvent {
    CdpEvent {
        method: method.into(),
        session_id: Some(session.into()),
        params,
    }
}

#[test]
fn selected_frame_rebinds_without_retargeting_refs() {
    let (mut state, mut selected, mut refs) = setup();
    state.apply_event(
        &mut selected,
        &mut refs,
        &event(
            "Target.attachedToTarget",
            "oopif",
            record(vec![
                ("sessionId", text("new-owner")),
                (
                    "targetInfo",
                    record(vec![("type", text("iframe")), ("targetId", text("inner"))]),
                ),
            ]),
        ),
    );
    assert_eq!(selected.session_id, "new-owner");
    assert_eq!(state.status, SelectionStatus::Pending);
    assert!(
        refs.get("e1").is_some(),
        "parent-document iframe ref survives"
    );
    assert!(
        refs.get("e2").is_none(),
        "old backend IDs must not be rebound"
    );
    state.status = SelectionStatus::Ready;
    state.apply_event(
        &mut selected,
        &mut refs,
        &event(
            "Target.detachedFromTarget",
            "page",
            record(vec![("sessionId", text("old-owner"))]),
        ),
    );
    assert_eq!(state.status, SelectionStatus::Ready);
    state.apply_event(
        &mut selected,
        &mut refs,
        &event(
            "Page.frameDetached",
            "old-owner",
            record(vec![("frameId", text("inner")), ("reason", text("remove"))]),
        ),
    );
    assert_eq!(state.status, SelectionStatus::Ready);
}

#[test]
fn selected_frame_removal_is_sticky_but_swap_is_not() {
    let (mut state, mut selected, mut refs) = setup();
    state.apply_event(
        &mut selected,
        &mut refs,
        &event(
            "Page.frameDetached",
            "oopif",
            record(vec![("frameId", text("inner")), ("reason", text("swap"))]),
        ),
    );
    assert_eq!(state.status, SelectionStatus::Pending);
    state.apply_event(
        &mut selected,
        &mut refs,
        &event(
            "Page.frameDetached",
            "page",
            record(vec![("frameId", text("outer")), ("reason", text("remove"))]),
        ),
    );
    assert_eq!(state.status, SelectionStatus::Removed);
    state.apply_event(
        &mut selected,
        &mut refs,
        &event(
            "Target.attachedToTarget",
            "page",
            record(vec![
                ("sessionId", text("new")),
                (
                    "targetInfo",
                    record(vec![("type", text("iframe")), ("targetId", text("inner"))]),
                ),
            ]),
        ),
    );
    assert_eq!(state.status, SelectionStatus::Removed);
    assert_eq!(selected.session_id, "oopif");
}

#[test]
fn other_tabs_cannot_invalidate_the_selected_frame() {
    let (mut state, mut selected, mut refs) = setup();
    for (id, session) in [("other-frame", "page"), ("inner", "background-session")] {
        state.apply_event(
            &mut selected,
            &mut refs,
            &event(
                "Page.frameDetached",
                session,
                record(vec![("frameId", text(id)), ("reason", text("remove"))]),
            ),
        );
    }
    assert_eq!(state.status, SelectionStatus::Ready);
    assert!(refs.get("e2").is_some());
}

#[test]
fn navigation_invalidates_only_replaced_document_refs() {
    let (mut state, mut selected, mut refs) = setup();
    state.apply_event(
        &mut selected,
        &mut refs,
        &event(
            "Page.frameNavigated",
            "oopif",
            record(vec![(
                "frame",
                record(vec![("id", text("inner")), ("loaderId", text("new-document"))]),
            )]),
        ),
    );
    assert!(refs.get("e1").is_some());
    assert!(refs.get("e2").is_none());
    assert_eq!(state.status, SelectionStatus::Pending);
}

#[test]
fn frame_topology_prefers_owning_renderer_for_same_process_descendants() {
    let sessions = sessions(&[("outer", "oopif")]);
    let top_tree = record(vec![
        ("frame", record(vec![("id", text("top"))])),
        (
            "childFrames",
            list(vec![record(vec![
                (
                    "frame",
                    record(vec![("id", text("outer")), ("parentId", text("top"))]),
                ),
                (
                    "childFrames",
                    list(vec![record(vec![(
                        "frame",
                        record(vec![
                            ("id", text("inner")),
                            ("parentId", text("outer")),
                            ("loaderId", text("old-document")),
                        ]),
                    )])]),
                ),
            ])]),
        ),
    ]);
    let owner_tree = record(vec![
        (
            "frame",
            record(vec![("id", text("outer")), ("parentId", text("top"))]),
        ),
        (
            "childFrames",
            list(vec![record(vec![(
                "frame",
                record(vec![
                    ("id", text("inner")),
                    ("parentId", text("outer")),
                    ("loaderId", text("new-document")),
                ]),
            )])]),
        ),
    ]);
    // Queries can straddle navigation. Prefer the containing renderer's
    // document ID even though this child has no dedicated target session.
    for owner_first in [false, true] {
        let mut targets = StringMap::new();
        let trees = if owner_first {
            [(&owner_tree, "oopif"), (&top_tree, "page")]
        } else {
            [(&top_tree, "page"), (&owner_tree, "oopif")]
        };
        for (tree, session) in trees {
            collect_frame_targets(tree, session, &sessions, &mut targets);
        }
        let inner = targets.get("inner").unwrap();
        assert_eq!(inner.session_id, "oopif");
        assert_eq!(inner.loader_id.as_deref(), Some("new-document"));
    }
}

#[test]
fn frame_topology_retains_parent_link_when_child_target_is_queried_first() {
    let sessions = sessions(&[("outer", "outer-session"), ("inner", "inner-session")]);
    let parent_tree = record(vec![
        (
            "frame",
            record(vec![("id", text("outer")), ("parentId", text("top"))]),
        ),
        (
            "childFrames",
            list(vec![record(vec![(
                "frame",
                record(vec![
                    ("id", text("inner")),
                    ("parentId", text("outer")),
                    ("loaderId", text("parent-copy")),
                ]),
            )])]),
        ),
    ]);
    // A dedicated target's root can omit parentId. Its containing
    // renderer supplies the link needed to associate it with this tab.
    let child_tree = record(vec![(
        "frame",
        record(vec![
            ("id", text("inner")),
            ("loaderId", text("child-document")),
        ]),
    )]);
    for child_first in [false, true] {
        let mut targets = StringMap::new();
        let trees = if child_first {
            [
                (&child_tree, "inner-session"),
                (&parent_tree, "outer-session"),
            ]
        } else {
            [
                (&parent_tree, "outer-session"),
                (&child_tree, "inner-session"),
            ]
        };
        for (tree, session) in trees {
            collect_frame_targets(tree, session, &sessions, &mut targets);
        }
        assert_eq!(
            targets.get("inner").unwrap().loader_id.as_deref(),
            Some("child-document")
        );
        assert!(frame_reaches_top("inner", "top", &targets));
    }
}

#[test]
fn return_to_same_process_inherits_the_containing_oopif() {
    let tree = record(vec![
        (
            "frame",
            record(vec![("id", text("outer")), ("parentId", text("top"))]),
        ),
        (
            "childFrames",
            list(vec![record(vec![(
                "frame",
                record(vec![("id", text("inner")), ("parentId", text("outer"))]),
            )])]),
        ),
    ]);
    for dedicated in [true, false] {
        let sessions = if dedicated {
            sessions(&[("outer", "outer-session"), ("inner", "inner-session")])
        } else {
            sessions(&[("outer", "outer-session")])
        };
        let mut targets = StringMap::new();
        collect_frame_targets(&tree, "outer-session", &sessions, &mut targets);
        assert_eq!(
            targets.get("inner").unwrap().session_id,
            if dedicated {
                "inner-session"
            } else {
                "outer-session"
            }
        );
    }
}
