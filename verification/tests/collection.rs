use frame_selection::collector::{read_reply, sessions_to_query, TopologyCollector, NO_TOP_FRAME};
use frame_selection::string_map::StringMap;
use frame_selection::text::{precedes, same_text};
use frame_selection::topology::{frame_reaches_top, retain_within_tab, FrameTarget, FrameTopology};
use frame_selection::tree::{
    collect_frame_targets, collect_frame_targets_in_session, collect_node_targets, read_frame_tree,
};
use serde_json::Value;

fn json(source: &str) -> Value {
    serde_json::from_str(source).unwrap()
}

fn sessions(pairs: &[(&str, &str)]) -> StringMap<String> {
    let mut map = StringMap::new();
    for (frame, session) in pairs {
        map.insert(frame.to_string(), session.to_string());
    }
    map
}

fn target(id: &str, session: &str, parent: Option<&str>, loader: Option<&str>) -> FrameTarget {
    FrameTarget {
        frame_id: id.to_string(),
        session_id: session.to_string(),
        parent_id: parent.map(str::to_string),
        loader_id: loader.map(str::to_string),
    }
}

fn frames(links: &[(&str, Option<&str>)]) -> StringMap<FrameTarget> {
    let mut map = StringMap::new();
    for (id, parent) in links {
        map.insert(id.to_string(), target(id, "page", *parent, None));
    }
    map
}

fn sorted_keys(map: &StringMap<FrameTarget>) -> Vec<String> {
    let mut keys = map.keys();
    keys.sort();
    keys
}

#[test]
fn text_is_ordered_by_its_bytes() {
    let words = ["", "a", "ab", "b", "z", "\u{e9}", "\u{ff5e}", "\u{1f600}"];
    for (i, a) in words.iter().enumerate() {
        for (j, b) in words.iter().enumerate() {
            assert_eq!(precedes(a, b), i < j);
            assert_eq!(precedes(a, b), a < b);
            assert_eq!(same_text(a, b), i == j);
        }
    }
}

#[test]
fn string_map_keeps_one_value_for_each_key() {
    let mut map = StringMap::new();
    map.insert("a".to_string(), "1".to_string());
    map.insert("b".to_string(), "2".to_string());
    map.insert("a".to_string(), "3".to_string());
    assert_eq!(map.get("a").map(String::as_str), Some("3"));
    assert_eq!(map.get("c"), None);
    let mut keys = map.keys();
    keys.sort();
    assert_eq!(keys, ["a", "b"]);
    let copy = map.clone();
    map.remove("a");
    map.remove("c");
    assert_eq!(map.get("a"), None);
    assert_eq!(
        map.into_entries(),
        vec![("b".to_string(), "2".to_string())]
    );
    assert_eq!(copy.get("a").map(String::as_str), Some("3"));
}

#[test]
fn a_frame_reaches_itself_and_its_ancestors() {
    let frames = frames(&[("top", None), ("outer", Some("top")), ("inner", Some("outer"))]);
    assert!(frame_reaches_top("inner", "inner", &frames));
    assert!(frame_reaches_top("inner", "outer", &frames));
    assert!(frame_reaches_top("inner", "top", &frames));
    assert!(!frame_reaches_top("outer", "inner", &frames));
    assert!(!frame_reaches_top("inner", "elsewhere", &frames));
    assert!(frame_reaches_top("unknown", "unknown", &frames));
    assert!(!frame_reaches_top("unknown", "top", &frames));
}

#[test]
fn a_frame_reaches_a_parent_that_is_not_known() {
    let frames = frames(&[("inner", Some("outer"))]);
    assert!(frame_reaches_top("inner", "outer", &frames));
    assert!(!frame_reaches_top("inner", "top", &frames));
}

#[test]
fn a_circle_of_parents_leads_nowhere() {
    let frames = frames(&[("a", Some("b")), ("b", Some("c")), ("c", Some("b")), ("self", Some("self"))]);
    assert!(!frame_reaches_top("a", "top", &frames));
    assert!(frame_reaches_top("a", "c", &frames));
    assert!(!frame_reaches_top("b", "a", &frames));
    assert!(!frame_reaches_top("self", "top", &frames));
}

#[test]
fn topology_knows_descendants() {
    let topology = FrameTopology {
        top_frame_id: "top".to_string(),
        frames: frames(&[("top", None), ("outer", Some("top"))]),
        incomplete: true,
    };
    let copy = topology.clone();
    assert!(copy.contains_descendant("outer", "top"));
    assert!(!copy.contains_descendant("top", "outer"));
    assert_eq!(copy.top_frame_id, "top");
    assert!(copy.incomplete);
}

#[test]
fn frames_are_listed_in_the_order_of_their_ids() {
    let topology = FrameTopology {
        top_frame_id: "m".to_string(),
        frames: frames(&[("m", None), ("z", Some("m")), ("a", Some("m")), ("ab", Some("a"))]),
        incomplete: false,
    };
    let ids: Vec<String> = topology
        .into_sorted_frames()
        .into_iter()
        .map(|frame| frame.frame_id)
        .collect();
    assert_eq!(ids, ["a", "ab", "m", "z"]);
}

#[test]
fn only_frames_of_the_tab_are_kept() {
    let mut known = frames(&[
        ("top", None),
        ("outer", Some("top")),
        ("inner", Some("outer")),
        ("background", None),
        ("below-background", Some("background")),
    ]);
    retain_within_tab(&mut known, "top");
    assert_eq!(sorted_keys(&known), ["inner", "outer", "top"]);
}

#[test]
fn the_target_and_not_the_key_decides_what_is_kept() {
    let mut known = StringMap::new();
    known.insert("top".to_string(), target("stray", "page", None, None));
    known.insert("stray".to_string(), target("top", "page", None, None));
    retain_within_tab(&mut known, "top");
    assert_eq!(known.keys(), ["stray"]);
}

#[test]
fn tree_without_a_frame_hands_the_session_down() {
    let tree = json(r#"{"childFrames":[{"frame":{"id":"a"}},{"frame":{"id":"b","parentId":7}}]}"#);
    let mut targets = StringMap::new();
    collect_frame_targets(&tree, "page", &sessions(&[("b", "own")]), &mut targets);
    assert_eq!(targets.get("a").unwrap().session_id, "page");
    let b = targets.get("b").unwrap();
    assert_eq!(b.session_id, "own");
    assert_eq!(b.parent_id, None);
    assert_eq!(b.loader_id, None);
}

#[test]
fn frame_without_an_id_is_passed_over_with_its_children() {
    for frame in ["null", "{}", r#"{"id":null}"#, r#"{"id":3}"#, "[]"] {
        let tree = json(&format!(
            r#"{{"frame":{frame},"childFrames":[{{"frame":{{"id":"a"}}}}]}}"#
        ));
        let mut targets = StringMap::new();
        collect_frame_targets(&tree, "page", &StringMap::new(), &mut targets);
        assert!(targets.keys().is_empty());
    }
}

#[test]
fn children_that_are_no_list_are_none() {
    for children in ["null", "{}", r#""a""#, "1"] {
        let tree = json(&format!(r#"{{"frame":{{"id":"top"}},"childFrames":{children}}}"#));
        let node = read_frame_tree(&tree);
        assert!(node.children.is_empty());
        assert_eq!(node.frame.unwrap().id.as_deref(), Some("top"));
    }
}

#[test]
fn tree_that_is_no_record_is_empty() {
    for tree in ["null", "[]", r#""frame""#, "true", "1.5"] {
        let node = read_frame_tree(&json(tree));
        assert!(node.frame.is_none());
        assert!(node.children.is_empty());
    }
}

#[test]
fn node_is_collected_like_its_tree() {
    let tree = json(
        r#"{"frame":{"id":"outer","loaderId":"d"},"childFrames":[{"frame":{"id":"inner","parentId":"outer"}}]}"#,
    );
    let sessions = sessions(&[("outer", "oopif")]);
    let node = read_frame_tree(&tree);
    let mut targets = StringMap::new();
    collect_node_targets(&node, "page", &sessions, &mut targets);
    let outer = targets.get("outer").unwrap();
    assert_eq!(outer.session_id, "oopif");
    assert_eq!(outer.loader_id.as_deref(), Some("d"));
    assert_eq!(targets.get("inner").unwrap().session_id, "oopif");
    assert_eq!(targets.get("inner").unwrap().parent_id.as_deref(), Some("outer"));

    let mut inherited = StringMap::new();
    collect_frame_targets_in_session(&node, "page", "around", &StringMap::new(), &mut inherited);
    assert_eq!(inherited.get("outer").unwrap().session_id, "around");
    assert_eq!(inherited.get("inner").unwrap().session_id, "around");
}

#[test]
fn owner_names_the_parent_last() {
    let sessions = sessions(&[("f", "own")]);
    let mut targets = StringMap::new();
    for (tree, session) in [
        (r#"{"frame":{"id":"f","parentId":"first","loaderId":"1"}}"#, "page"),
        (r#"{"frame":{"id":"f","parentId":"second","loaderId":"2"}}"#, "other"),
        (r#"{"frame":{"id":"f","parentId":"owner","loaderId":"3"}}"#, "own"),
        (r#"{"frame":{"id":"f","loaderId":"4"}}"#, "own"),
        (r#"{"frame":{"id":"f","parentId":"late","loaderId":"5"}}"#, "page"),
    ] {
        collect_frame_targets(&json(tree), session, &sessions, &mut targets);
    }
    let frame = targets.get("f").unwrap();
    assert_eq!(frame.session_id, "own");
    assert_eq!(frame.parent_id.as_deref(), Some("owner"));
    assert_eq!(frame.loader_id.as_deref(), Some("4"));
}

#[test]
fn first_report_stands_without_an_owner() {
    let sessions = sessions(&[("f", "own")]);
    let mut targets = StringMap::new();
    for (tree, session) in [
        (r#"{"frame":{"id":"f","loaderId":"1"}}"#, "page"),
        (r#"{"frame":{"id":"f","parentId":"first","loaderId":"2"}}"#, "page"),
        (r#"{"frame":{"id":"f","parentId":"second","loaderId":"3"}}"#, "page"),
    ] {
        collect_frame_targets(&json(tree), session, &sessions, &mut targets);
    }
    let frame = targets.get("f").unwrap();
    assert_eq!(frame.session_id, "own");
    assert_eq!(frame.parent_id.as_deref(), Some("first"));
    assert_eq!(frame.loader_id.as_deref(), Some("1"));
}

#[test]
fn sessions_are_asked_once_and_in_order() {
    let sessions = sessions(&[("a", "s2"), ("b", "s1"), ("c", "s2"), ("d", "s10")]);
    assert_eq!(sessions_to_query(&sessions), ["s1", "s10", "s2"]);
    assert!(sessions_to_query(&StringMap::new()).is_empty());
}

#[test]
fn reply_without_a_tree_is_none() {
    assert!(read_reply(&json("{}")).is_none());
    assert!(read_reply(&json(r#"["frameTree"]"#)).is_none());
    assert!(read_reply(&json(r#"{"frameTree":null}"#)).unwrap().frame.is_none());
    let tree = read_reply(&json(r#"{"frameTree":{"frame":{"id":"top"}}}"#)).unwrap();
    assert_eq!(tree.frame.unwrap().id.as_deref(), Some("top"));
}

#[test]
fn collection_needs_a_top_frame() {
    let sessions = StringMap::new();
    assert_eq!(NO_TOP_FRAME, "Could not determine top-level frame ID");
    for reply in [
        "{}",
        r#"{"frameTree":{}}"#,
        r#"{"frameTree":{"frame":{}}}"#,
        r#"{"frameTree":{"frame":{"id":1}}}"#,
    ] {
        let tree = read_reply(&json(reply));
        match TopologyCollector::start(tree.as_ref(), "page", &sessions) {
            Ok(_) => panic!("started without a top frame"),
            Err(error) => assert_eq!(error, NO_TOP_FRAME),
        }
    }
}

fn collect(
    top: &str,
    iframe_sessions: &StringMap<String>,
    replies: &[(&str, Option<&str>)],
) -> FrameTopology {
    let top_tree = read_reply(&json(top));
    let mut collector = match TopologyCollector::start(top_tree.as_ref(), "page", iframe_sessions) {
        Ok(collector) => collector,
        Err(error) => panic!("{}", error),
    };
    for (session, reply) in replies {
        assert_eq!(collector.pending().map(String::as_str), Some(*session));
        let tree = reply.and_then(|reply| read_reply(&json(reply)));
        collector = collector.record(tree.as_ref());
    }
    assert!(collector.pending().is_none());
    collector.finish()
}

#[test]
fn topology_is_collected_from_all_sessions() {
    let sessions = sessions(&[
        ("outer", "s-outer"),
        ("nested", "s-nested"),
        ("background-frame", "s-background"),
    ]);
    let topology = collect(
        r#"{"frameTree":{"frame":{"id":"top","loaderId":"t"},"childFrames":[{"frame":{"id":"outer","parentId":"top","loaderId":"stale"}}]}}"#,
        &sessions,
        &[
            (
                "s-background",
                Some(r#"{"frameTree":{"frame":{"id":"background-frame","parentId":"background-top"}}}"#),
            ),
            ("s-nested", Some(r#"{"frameTree":{"frame":{"id":"nested","loaderId":"n"}}}"#)),
            (
                "s-outer",
                Some(r#"{"frameTree":{"frame":{"id":"outer","loaderId":"o"},"childFrames":[{"frame":{"id":"nested","parentId":"outer","loaderId":"copy"}},{"frame":{"id":"same-process","parentId":"outer"}}]}}"#),
            ),
        ],
    );
    assert_eq!(topology.top_frame_id, "top");
    assert!(!topology.incomplete);
    assert_eq!(
        sorted_keys(&topology.frames),
        ["nested", "outer", "same-process", "top"]
    );
    let nested = topology.frames.get("nested").unwrap();
    assert_eq!(nested.session_id, "s-nested");
    assert_eq!(nested.parent_id.as_deref(), Some("outer"));
    assert_eq!(nested.loader_id.as_deref(), Some("n"));
    let outer = topology.frames.get("outer").unwrap();
    assert_eq!(outer.parent_id.as_deref(), Some("top"));
    assert_eq!(outer.loader_id.as_deref(), Some("o"));
    assert_eq!(topology.frames.get("same-process").unwrap().session_id, "s-outer");
    for id in topology.frames.keys() {
        assert!(topology.contains_descendant(&id, "top"));
    }
}

#[test]
fn failed_query_leaves_the_topology_incomplete() {
    let sessions = sessions(&[("a", "s1"), ("b", "s2")]);
    let top = r#"{"frameTree":{"frame":{"id":"top"},"childFrames":[{"frame":{"id":"a","parentId":"top"}}]}}"#;
    let answer = r#"{"frameTree":{"frame":{"id":"b","parentId":"top"}}}"#;
    let failed = collect(top, &sessions, &[("s1", None), ("s2", Some(answer))]);
    assert!(failed.incomplete);
    assert_eq!(sorted_keys(&failed.frames), ["a", "b", "top"]);
    let treeless = collect(top, &sessions, &[("s1", Some("{}")), ("s2", Some(answer))]);
    assert!(treeless.incomplete);
    let complete = collect(top, &sessions, &[("s1", Some(answer)), ("s2", Some(answer))]);
    assert!(!complete.incomplete);
}
