//! Frame trees: how the browser reports the frames that a session knows of, and how the reports of
//! several sessions are put together.

use crate::json::{json_contents, json_items, json_member, json_text, Json};
use crate::string_map::StringMap;
use crate::text::{optional_text, same_text};
use crate::topology::{FrameTarget, Frames, TargetView};
use serde_json::Value;
use vstd::prelude::*;

verus! {

/// What a tree says of one frame. A part that is missing, or is not text, is `None`.
#[derive(Debug)]
pub struct FrameInfo {
    pub id: Option<String>,
    pub parent_id: Option<String>,
    pub loader_id: Option<String>,
}

/// A frame with the frames that it contains.
#[derive(Debug)]
pub struct FrameNode {
    pub frame: Option<FrameInfo>,
    pub children: Vec<FrameNode>,
}

/// What a `FrameInfo` holds.
#[verifier::ext_equal]
pub struct InfoView {
    pub id: Option<Seq<char>>,
    pub parent_id: Option<Seq<char>>,
    pub loader_id: Option<Seq<char>>,
}

/// What a `FrameNode` holds.
#[verifier::ext_equal]
pub struct NodeView {
    pub frame: Option<InfoView>,
    pub children: Seq<NodeView>,
}

impl View for FrameInfo {
    type V = InfoView;

    open spec fn view(&self) -> InfoView {
        InfoView {
            id: optional_text(self.id),
            parent_id: optional_text(self.parent_id),
            loader_id: optional_text(self.loader_id),
        }
    }
}

impl FrameNode {
    pub open spec fn view(&self) -> NodeView
        decreases self,
    {
        NodeView {
            frame: match self.frame {
                Some(info) => Some(info@),
                None => None,
            },
            children: Seq::new(
                self.children@.len(),
                |i: int|
                    if 0 <= i < self.children@.len() {
                        self.children@[i].view()
                    } else {
                        arbitrary()
                    },
            ),
        }
    }
}

/// What a frame record says of its frame.
pub open spec fn frame_info(json: Json) -> InfoView {
    InfoView {
        id: json.member_text("id"@),
        parent_id: json.member_text("parentId"@),
        loader_id: json.member_text("loaderId"@),
    }
}

/// The frame tree that a JSON value describes.
pub open spec fn frame_node(json: Json) -> NodeView
    decreases json,
{
    NodeView {
        frame: match json.member("frame"@) {
            Some(frame) => Some(frame_info(frame)),
            None => None,
        },
        children: match json.member("childFrames"@) {
            Some(Json::List(items)) => Seq::new(
                items.len(),
                |i: int|
                    if 0 <= i < items.len() {
                        frame_node(items[i])
                    } else {
                        arbitrary()
                    },
            ),
            _ => Seq::empty(),
        },
    }
}

/// The text of a member of a record.
fn read_member_text(json: &Value, key: &str) -> (text: Option<String>)
    ensures
        optional_text(text) == json_contents(*json).member_text(key@),
{
    match json_member(json, key) {
        Some(member) => match json_text(member) {
            Some(text) => Some(text.to_owned()),
            None => None,
        },
        None => None,
    }
}

/// A child is smaller than the tree it stands in.
proof fn lemma_child_is_smaller(json: Json, items: Seq<Json>, i: int)
    requires
        json.member("childFrames"@) == Some(Json::List(items)),
        0 <= i < items.len(),
    ensures
        decreases_to!(json => items[i]),
{
    let members = json->Record_0;
    let list = members["childFrames"@];
    assert(decreases_to!(json => list));
    assert(decreases_to!(list => list->List_0));
    assert(decreases_to!(list->List_0 => list->List_0[i]));
}

/// Reads the frame tree that a JSON value describes.
pub fn read_frame_tree(tree: &Value) -> (node: FrameNode)
    ensures
        node@ == frame_node(json_contents(*tree)),
    decreases json_contents(*tree),
{
    let ghost json = json_contents(*tree);
    let frame = match json_member(tree, "frame") {
        Some(frame) => Some(
            FrameInfo {
                id: read_member_text(frame, "id"),
                parent_id: read_member_text(frame, "parentId"),
                loader_id: read_member_text(frame, "loaderId"),
            },
        ),
        None => None,
    };
    let mut children: Vec<FrameNode> = Vec::new();
    if let Some(member) = json_member(tree, "childFrames") {
        if let Some(items) = json_items(member) {
            let ghost list = json_contents(*member)->List_0;
            let mut i: usize = 0;
            while i < items.len()
                invariant
                    i <= items@.len(),
                    json == json_contents(*tree),
                    json.member("childFrames"@) == Some(Json::List(list)),
                    list == items@.map_values(|item: Value| json_contents(item)),
                    children@.len() == i,
                    forall|j: int| 0 <= j < i ==> (#[trigger] children@[j])@ == frame_node(list[j]),
                decreases items@.len() - i,
            {
                proof {
                    assert(list[i as int] == json_contents(items@[i as int]));
                    lemma_child_is_smaller(json, list, i as int);
                }
                let child = read_frame_tree(&items[i]);
                children.push(child);
                i = i + 1;
            }
        }
    }
    let node = FrameNode { frame, children };
    assert(node@.children =~= frame_node(json).children);
    node
}

/// One tree's account of one frame.
#[verifier::ext_equal]
pub struct Report {
    pub target: TargetView,
    /// The tree comes from the session that executes the frame.
    pub owned: bool,
}

/// The session that executes a frame: its own target's, or that of the nearest frame around it
/// with a target.
pub open spec fn executing_session(
    frame_id: Seq<char>,
    inherited: Seq<char>,
    sessions: Map<Seq<char>, Seq<char>>,
) -> Seq<char> {
    if sessions.contains_key(frame_id) {
        sessions[frame_id]
    } else {
        inherited
    }
}

/// What the tree that the session `query` gave says of `node` and the frames in it. A frame
/// without an ID is passed over with all that it contains.
pub open spec fn reports_in(
    node: NodeView,
    query: Seq<char>,
    inherited: Seq<char>,
    sessions: Map<Seq<char>, Seq<char>>,
) -> Seq<Report>
    decreases node,
{
    match node.frame {
        Some(info) => match info.id {
            Some(id) => {
                let session_id = executing_session(id, inherited, sessions);
                let report = Report {
                    target: TargetView {
                        frame_id: id,
                        session_id,
                        parent_id: info.parent_id,
                        loader_id: info.loader_id,
                    },
                    owned: session_id == query,
                };
                seq![report] + reports_among(node.children, query, session_id, sessions)
            },
            None => Seq::empty(),
        },
        None => reports_among(node.children, query, inherited, sessions),
    }
}

/// What a tree says of `nodes`, one after the other.
pub open spec fn reports_among(
    nodes: Seq<NodeView>,
    query: Seq<char>,
    inherited: Seq<char>,
    sessions: Map<Seq<char>, Seq<char>>,
) -> Seq<Report>
    decreases nodes,
{
    if nodes.len() == 0 {
        Seq::empty()
    } else {
        reports_among(nodes.drop_last(), query, inherited, sessions) + reports_in(
            nodes.last(),
            query,
            inherited,
            sessions,
        )
    }
}

/// `first`, or `second` in its absence.
pub open spec fn either(first: Option<Seq<char>>, second: Option<Seq<char>>) -> Option<Seq<char>> {
    match first {
        Some(text) => Some(text),
        None => second,
    }
}

/// What is known of a frame once `report` has come in. The session that executes the frame knows
/// best; what it leaves out of the parent link, and nothing else, is filled in from other reports.
pub open spec fn merged(frames: Frames, report: Report) -> TargetView {
    let target = report.target;
    if !frames.contains_key(target.frame_id) {
        target
    } else {
        let known = frames[target.frame_id];
        if report.owned {
            TargetView { parent_id: either(target.parent_id, known.parent_id), ..target }
        } else {
            TargetView { parent_id: either(known.parent_id, target.parent_id), ..known }
        }
    }
}

/// What is known once the reports have come in, in their order.
pub open spec fn merge_all(frames: Frames, reports: Seq<Report>) -> Frames
    decreases reports.len(),
{
    if reports.len() == 0 {
        frames
    } else {
        let before = merge_all(frames, reports.drop_last());
        before.insert(reports.last().target.frame_id, merged(before, reports.last()))
    }
}

proof fn lemma_merge_one(frames: Frames, report: Report)
    ensures
        merge_all(frames, seq![report]) == frames.insert(report.target.frame_id, merged(frames, report)),
{
    let reports = seq![report];
    assert(reports.drop_last() =~= Seq::empty());
    assert(merge_all(frames, reports.drop_last()) == frames);
    assert(reports.last() == report);
}

/// Reports can be taken into account in parts.
pub proof fn lemma_merge_concatenation(frames: Frames, a: Seq<Report>, b: Seq<Report>)
    ensures
        merge_all(frames, a + b) == merge_all(merge_all(frames, a), b),
    decreases b.len(),
{
    if b.len() == 0 {
        assert(a + b =~= a);
    } else {
        assert((a + b).drop_last() =~= a + b.drop_last());
        assert((a + b).last() == b.last());
        lemma_merge_concatenation(frames, a, b.drop_last());
    }
}

/// Takes one report into account.
fn merge_target(targets: &mut StringMap<FrameTarget>, target: FrameTarget, owned: bool)
    ensures
        ({
            let report = Report { target: target@, owned };
            final(targets)@ == old(targets)@.insert(target@.frame_id, merged(old(targets)@, report))
        }),
{
    let ghost report = Report { target: target@, owned };
    let id = target.frame_id.clone();
    let entry = match targets.get(id.as_str()) {
        None => target,
        Some(known) => if owned {
            let parent_id = match target.parent_id {
                Some(parent_id) => Some(parent_id),
                None => known.parent_id.clone(),
            };
            FrameTarget {
                frame_id: target.frame_id,
                session_id: target.session_id,
                parent_id,
                loader_id: target.loader_id,
            }
        } else {
            let parent_id = match &known.parent_id {
                Some(parent_id) => Some(parent_id.clone()),
                None => target.parent_id,
            };
            FrameTarget {
                frame_id: known.frame_id.clone(),
                session_id: known.session_id.clone(),
                parent_id,
                loader_id: known.loader_id.clone(),
            }
        },
    };
    assert(entry@ == merged(targets@, report));
    targets.insert(id, entry);
}

/// Takes the frames of a tree, as the session `query_session_id` gave it, into account.
pub fn collect_node_targets(
    node: &FrameNode,
    query_session_id: &str,
    iframe_sessions: &StringMap<String>,
    targets: &mut StringMap<FrameTarget>,
)
    ensures
        final(targets)@ == merge_all(
            old(targets)@,
            reports_in(node@, query_session_id@, query_session_id@, iframe_sessions@),
        ),
{
    collect_frame_targets_in_session(node, query_session_id, query_session_id, iframe_sessions, targets);
}

/// Takes `node` and the frames in it into account. The frame around it runs in
/// `parent_session_id`.
pub fn collect_frame_targets_in_session(
    node: &FrameNode,
    query_session_id: &str,
    parent_session_id: &str,
    iframe_sessions: &StringMap<String>,
    targets: &mut StringMap<FrameTarget>,
)
    ensures
        final(targets)@ == merge_all(
            old(targets)@,
            reports_in(node@, query_session_id@, parent_session_id@, iframe_sessions@),
        ),
    decreases node,
{
    let ghost query = query_session_id@;
    let ghost sessions = iframe_sessions@;
    let ghost mut done: Seq<Report> = Seq::empty();
    let session_id: String = match &node.frame {
        Some(info) => match &info.id {
            Some(id) => {
                // Same-process child frames have no target session of their own. They execute in
                // the nearest ancestor target, which may itself be an out-of-process iframe rather
                // than the top-level page.
                let session_id = match iframe_sessions.get(id.as_str()) {
                    Some(own) => own.clone(),
                    None => parent_session_id.to_owned(),
                };
                let target = FrameTarget {
                    frame_id: id.clone(),
                    session_id: session_id.clone(),
                    parent_id: info.parent_id.clone(),
                    loader_id: info.loader_id.clone(),
                };
                let owned = same_text(session_id.as_str(), query_session_id);
                proof {
                    done = seq![Report { target: target@, owned }];
                    lemma_merge_one(targets@, done[0]);
                }
                merge_target(targets, target, owned);
                session_id
            },
            None => {
                return ;
            },
        },
        None => parent_session_id.to_owned(),
    };
    let mut i: usize = 0;
    assert(node@.children.take(0) =~= Seq::empty());
    assert(done + reports_among(node@.children.take(0), query, session_id@, sessions) =~= done);
    while i < node.children.len()
        invariant
            i <= node.children@.len(),
            query == query_session_id@,
            sessions == iframe_sessions@,
            targets@ == merge_all(
                old(targets)@,
                done + reports_among(node@.children.take(i as int), query, session_id@, sessions),
            ),
        decreases node.children@.len() - i,
    {
        let ghost children = node@.children;
        let ghost so_far = done + reports_among(children.take(i as int), query, session_id@, sessions);
        proof {
            assert(children.take(i + 1).drop_last() =~= children.take(i as int));
            assert(children.take(i + 1).last() == node.children@[i as int]@);
            let next = reports_in(node.children@[i as int]@, query, session_id@, sessions);
            lemma_merge_concatenation(old(targets)@, so_far, next);
            assert(so_far + next =~= done + reports_among(children.take(i + 1), query, session_id@, sessions));
        }
        collect_frame_targets_in_session(
            &node.children[i],
            query_session_id,
            session_id.as_str(),
            iframe_sessions,
            targets,
        );
        i = i + 1;
    }
    proof {
        assert(node@.children.take(i as int) =~= node@.children);
        assert(done + reports_among(node@.children, query, session_id@, sessions) =~= reports_in(
            node@,
            query,
            parent_session_id@,
            sessions,
        ));
    }
}

/// Takes the frames of a JSON frame tree, as the session `query_session_id` gave it, into account.
pub fn collect_frame_targets(
    tree: &Value,
    query_session_id: &str,
    iframe_sessions: &StringMap<String>,
    targets: &mut StringMap<FrameTarget>,
)
    ensures
        final(targets)@ == merge_all(
            old(targets)@,
            reports_in(
                frame_node(json_contents(*tree)),
                query_session_id@,
                query_session_id@,
                iframe_sessions@,
            ),
        ),
{
    let node = read_frame_tree(tree);
    collect_node_targets(&node, query_session_id, iframe_sessions, targets);
}

} // verus!
