use frame_selection::cdp::{CdpEvent, LifecycleEvent};
use frame_selection::element::{FrameContext, RefContext, RefMap};
use frame_selection::selection::{
    SelectedFrameState, SelectionStatus, FRAME_GONE, FRAME_NOT_READY,
};
use frame_selection::string_map::StringMap;
use frame_selection::topology::{FrameTarget, FrameTopology};

struct Scene {
    state: SelectedFrameState,
    selected: FrameContext,
    refs: RefMap,
}

impl Scene {
    /// `inner` is selected; it lies in `outer`, which lies in `top`, and contains `leaf`.
    fn new() -> Scene {
        let mut frames = StringMap::new();
        for (id, session, parent) in [
            ("top", "page", None),
            ("outer", "oopif", Some("top")),
            ("inner", "oopif", Some("outer")),
            ("leaf", "leaf-session", Some("inner")),
            ("sibling", "page", Some("top")),
        ] {
            frames.insert(
                id.to_string(),
                FrameTarget {
                    frame_id: id.to_string(),
                    session_id: session.to_string(),
                    parent_id: parent.map(str::to_string),
                    loader_id: Some(format!("{}-document", id)),
                },
            );
        }
        let mut refs = RefMap::new();
        for (id, frame, session) in [
            ("e1", Some("top"), Some("page")),
            ("e2", Some("outer"), Some("oopif")),
            ("e3", Some("inner"), Some("oopif")),
            ("e4", Some("leaf"), Some("leaf-session")),
            ("e5", Some("sibling"), Some("page")),
            ("e6", None, None),
        ] {
            refs.add_with_frame(
                id.to_string(),
                Some(7),
                "button",
                "name",
                Some(2),
                RefContext { frame_id: frame, session_id: session },
            );
        }
        Scene {
            state: SelectedFrameState {
                status: SelectionStatus::Ready,
                topology: Some(FrameTopology {
                    top_frame_id: "top".to_string(),
                    frames,
                    incomplete: false,
                }),
                revision: 0,
            },
            selected: FrameContext {
                frame_id: "inner".to_string(),
                session_id: "oopif".to_string(),
            },
            refs,
        }
    }

    fn apply(&mut self, method: &str, session: Option<&str>, params: &str) {
        let event = CdpEvent {
            method: method.to_string(),
            session_id: session.map(str::to_string),
            params: serde_json::from_str(params).unwrap(),
        };
        self.state.apply_event(&mut self.selected, &mut self.refs, &event);
    }

    fn refs_left(&self) -> Vec<String> {
        let mut ids = self.refs.ids();
        ids.sort();
        ids
    }
}

const ALL: [&str; 6] = ["e1", "e2", "e3", "e4", "e5", "e6"];

#[test]
fn state_starts_pending() {
    let state = SelectedFrameState::default();
    assert_eq!(state.status, SelectionStatus::Pending);
    assert_eq!(SelectionStatus::default(), SelectionStatus::Pending);
    assert!(state.topology.is_none());
    assert_eq!(state.revision, 0);
}

#[test]
fn messages_say_what_to_do() {
    assert_eq!(
        FRAME_GONE,
        "Selected frame is no longer available. Run `frame main` or select the frame again."
    );
    assert_eq!(
        FRAME_NOT_READY,
        "Selected frame is not ready. Retry the command or run `frame main`."
    );
}

#[test]
fn refs_keep_what_they_were_given() {
    let scene = Scene::new();
    let entry = scene.refs.get("e3").unwrap();
    assert_eq!(entry.backend_node_id, Some(7));
    assert_eq!(entry.role, "button");
    assert_eq!(entry.name, "name");
    assert_eq!(entry.nth, Some(2));
    assert_eq!(entry.frame_id.as_deref(), Some("inner"));
    assert_eq!(entry.session_id.as_deref(), Some("oopif"));
    assert!(scene.refs.get("e7").is_none());
}

#[test]
fn document_goes_with_its_descendants() {
    let mut scene = Scene::new();
    scene.state.invalidate_document(&mut scene.refs, "outer");
    assert_eq!(scene.refs_left(), ["e1", "e5", "e6"]);
    scene.state.invalidate_document(&mut scene.refs, "unknown");
    assert_eq!(scene.refs_left(), ["e1", "e5", "e6"]);
}

#[test]
fn document_goes_alone_without_a_topology() {
    let mut scene = Scene::new();
    scene.state.topology = None;
    scene.state.invalidate_document(&mut scene.refs, "outer");
    assert_eq!(scene.refs_left(), ["e1", "e3", "e4", "e5", "e6"]);
}

#[test]
fn every_event_counts() {
    let mut scene = Scene::new();
    scene.apply("Network.requestWillBeSent", Some("oopif"), "{}");
    scene.apply("Page.frameDetached", Some("oopif"), "null");
    scene.apply("Page.frameNavigated", None, "[]");
    assert_eq!(scene.state.revision, 3);
    assert_eq!(scene.state.status, SelectionStatus::Ready);
    assert_eq!(scene.refs_left(), ALL);
    scene.state.revision = u64::MAX;
    scene.apply("Network.requestWillBeSent", None, "{}");
    assert_eq!(scene.state.revision, 0);
}

#[test]
fn attachment_moves_the_selected_iframe_only() {
    for params in [
        r#"{"sessionId":"new","targetInfo":{"type":"page","targetId":"inner"}}"#,
        r#"{"sessionId":"new","targetInfo":{"type":"iframe","targetId":"outer"}}"#,
        r#"{"sessionId":"oopif","targetInfo":{"type":"iframe","targetId":"inner"}}"#,
        r#"{"sessionId":5,"targetInfo":{"type":"iframe","targetId":"inner"}}"#,
        r#"{"targetInfo":{"type":"iframe","targetId":"inner"}}"#,
        r#"{"sessionId":"new","targetInfo":"iframe"}"#,
        r#"{"sessionId":"new"}"#,
    ] {
        let mut scene = Scene::new();
        scene.apply("Target.attachedToTarget", Some("page"), params);
        assert_eq!(scene.selected.session_id, "oopif");
        assert_eq!(scene.state.status, SelectionStatus::Ready);
        assert_eq!(scene.refs_left(), ALL);
    }
    let mut scene = Scene::new();
    let moved = r#"{"sessionId":"new","targetInfo":{"type":"iframe","targetId":"inner"}}"#;
    scene.apply("Target.attachedToTarget", Some("page"), moved);
    assert_eq!(scene.selected.frame_id, "inner");
    assert_eq!(scene.selected.session_id, "new");
    assert_eq!(scene.state.status, SelectionStatus::Pending);
    assert_eq!(scene.refs_left(), ["e1", "e2", "e5", "e6"]);
    scene.state.status = SelectionStatus::Ready;
    scene.apply("Target.attachedToTarget", Some("elsewhere"), moved);
    assert_eq!(scene.state.status, SelectionStatus::Ready);
    assert_eq!(scene.refs_left(), ["e1", "e2", "e5", "e6"]);
}

#[test]
fn detached_session_takes_its_refs() {
    let mut scene = Scene::new();
    scene.apply("Target.detachedFromTarget", Some("page"), r#"{"sessionId":"leaf-session"}"#);
    assert_eq!(scene.state.status, SelectionStatus::Ready);
    assert_eq!(scene.refs_left(), ["e1", "e2", "e3", "e5", "e6"]);
    scene.apply("Target.detachedFromTarget", Some("page"), r#"{"sessionId":"oopif"}"#);
    assert_eq!(scene.state.status, SelectionStatus::Pending);
    assert_eq!(scene.selected.session_id, "oopif");
    assert_eq!(scene.refs_left(), ["e1", "e5", "e6"]);
    scene.apply("Target.detachedFromTarget", Some("page"), r#"{"targetId":"top"}"#);
    assert_eq!(scene.refs_left(), ["e1", "e5", "e6"]);
}

#[test]
fn detached_frame_counts_from_its_own_or_its_parent_session() {
    for (frame, session, status, left) in [
        ("leaf", "leaf-session", SelectionStatus::Ready, vec!["e1", "e2", "e3", "e5", "e6"]),
        ("leaf", "oopif", SelectionStatus::Ready, vec!["e1", "e2", "e3", "e5", "e6"]),
        ("leaf", "page", SelectionStatus::Ready, ALL.to_vec()),
        ("outer", "page", SelectionStatus::Removed, vec!["e1", "e5", "e6"]),
        ("outer", "oopif", SelectionStatus::Removed, vec!["e1", "e5", "e6"]),
        ("sibling", "page", SelectionStatus::Ready, vec!["e1", "e2", "e3", "e4", "e6"]),
        ("inner", "leaf-session", SelectionStatus::Ready, ALL.to_vec()),
        ("unknown", "page", SelectionStatus::Ready, ALL.to_vec()),
    ] {
        let mut scene = Scene::new();
        let params = format!(r#"{{"frameId":"{}","reason":"remove"}}"#, frame);
        scene.apply("Page.frameDetached", Some(session), &params);
        assert_eq!(scene.state.status, status);
        assert_eq!(scene.refs_left(), left);
    }
}

#[test]
fn detaching_for_another_reason_is_no_removal() {
    for reason in [r#""swap""#, "null", "1", r#""Remove""#] {
        let mut scene = Scene::new();
        let params = format!(r#"{{"frameId":"inner","reason":{}}}"#, reason);
        scene.apply("Page.frameDetached", Some("oopif"), &params);
        assert_eq!(scene.state.status, SelectionStatus::Pending);
        assert_eq!(scene.refs_left(), ["e1", "e2", "e5", "e6"]);
    }
}

#[test]
fn event_without_a_session_comes_from_nobody() {
    let mut scene = Scene::new();
    scene.apply("Page.frameDetached", None, r#"{"frameId":"inner","reason":"remove"}"#);
    assert_eq!(scene.state.status, SelectionStatus::Ready);
    scene.selected.session_id = String::new();
    scene.apply("Page.frameDetached", None, r#"{"frameId":"inner","reason":"remove"}"#);
    assert_eq!(scene.state.status, SelectionStatus::Removed);
}

#[test]
fn same_document_keeps_refs() {
    for params in [
        r#"{"frame":{"id":"inner","loaderId":"inner-document"}}"#,
        r#"{"frame":{"id":"inner"}}"#,
        r#"{"frame":{"id":"inner","loaderId":3}}"#,
        r#"{"frame":{"loaderId":"new"}}"#,
        r#"{"frame":"inner"}"#,
    ] {
        let mut scene = Scene::new();
        scene.apply("Page.frameNavigated", Some("oopif"), params);
        assert_eq!(scene.state.status, SelectionStatus::Ready);
        assert_eq!(scene.refs_left(), ALL);
    }
    let mut scene = Scene::new();
    scene.apply("Page.frameNavigated", Some("page"), r#"{"frame":{"id":"sibling","loaderId":"new"}}"#);
    assert_eq!(scene.state.status, SelectionStatus::Ready);
    assert_eq!(scene.refs_left(), ["e1", "e2", "e3", "e4", "e6"]);
    scene.apply("Page.frameNavigated", Some("page"), r#"{"frame":{"id":"top","loaderId":"new"}}"#);
    assert_eq!(scene.state.status, SelectionStatus::Pending);
    assert_eq!(scene.refs_left(), ["e6"]);
}

#[test]
fn unrecorded_document_is_another_one() {
    let mut scene = Scene::new();
    scene.state.topology = None;
    scene.apply("Page.frameNavigated", Some("oopif"), r#"{"frame":{"id":"inner","loaderId":"any"}}"#);
    assert_eq!(scene.state.status, SelectionStatus::Pending);
    assert_eq!(scene.refs_left(), ["e1", "e2", "e4", "e5", "e6"]);
}

#[test]
fn removal_stays_but_refs_still_go() {
    let mut scene = Scene::new();
    scene.apply("Page.frameDetached", Some("oopif"), r#"{"frameId":"inner","reason":"remove"}"#);
    assert_eq!(scene.state.status, SelectionStatus::Removed);
    for (method, params) in [
        ("Target.attachedToTarget", r#"{"sessionId":"new","targetInfo":{"type":"iframe","targetId":"inner"}}"#),
        ("Target.detachedFromTarget", r#"{"sessionId":"oopif"}"#),
        ("Page.frameDetached", r#"{"frameId":"inner","reason":"swap"}"#),
        ("Page.frameNavigated", r#"{"frame":{"id":"inner","loaderId":"new"}}"#),
    ] {
        scene.apply(method, Some("oopif"), params);
        assert_eq!(scene.state.status, SelectionStatus::Removed);
        assert_eq!(scene.selected.session_id, "oopif");
    }
    assert_eq!(scene.refs_left(), ["e1", "e5", "e6"]);
    assert_eq!(scene.state.revision, 5);
}

#[test]
fn event_is_read_into_its_parts() {
    let event = CdpEvent {
        method: "Target.attachedToTarget".to_string(),
        session_id: None,
        params: serde_json::from_str(
            r#"{"sessionId":"s","targetInfo":{"type":"iframe","targetId":"t"}}"#,
        )
        .unwrap(),
    };
    match event.lifecycle_event() {
        LifecycleEvent::TargetAttached { kind, target_id, session_id } => {
            assert_eq!(kind.as_deref(), Some("iframe"));
            assert_eq!(target_id.as_deref(), Some("t"));
            assert_eq!(session_id.as_deref(), Some("s"));
        }
        other => panic!("{:?}", other),
    }
}

#[test]
fn parts_can_be_applied_without_json() {
    let mut scene = Scene::new();
    scene.state.apply_lifecycle(
        &mut scene.selected,
        &mut scene.refs,
        "oopif",
        &LifecycleEvent::FrameDetached {
            frame_id: Some("inner".to_string()),
            reason: Some("remove".to_string()),
        },
    );
    assert_eq!(scene.state.status, SelectionStatus::Removed);
    assert_eq!(scene.refs_left(), ["e1", "e2", "e5", "e6"]);
    assert_eq!(scene.state.revision, 1);
}
