//! Where the reports of a frame tree come from: each is of one place in the tree, and each place that
//! counts has one.

use crate::collector::CollectionView;
use crate::merge_laws::{answer_reports, law_owner_decides, Answer};
use crate::topology::{Frames, TargetView};
use crate::tree::{lemma_merge_concatenation, merge_all, reports_among, reports_in, FrameInfo, FrameNode, InfoView, NodeView, Report};
use vstd::prelude::*;

verus! {

/// The node that a path leads to: at each step, the child with that number.
pub open spec fn node_at(tree: NodeView, path: Seq<int>) -> NodeView
    decreases path.len(),
{
    if path.len() == 0 {
        tree
    } else {
        node_at(tree.children[path[0]], path.skip(1))
    }
}

/// The path leads to a node of the tree, and not through a frame record without an ID.
pub open spec fn is_open(tree: NodeView, path: Seq<int>) -> bool
    decreases path.len(),
{
    path.len() > 0 ==> {
        &&& 0 <= path[0] < tree.children.len()
        &&& tree.frame matches Some(info) ==> info.id is Some
        &&& is_open(tree.children[path[0]], path.skip(1))
    }
}

/// The session that the node at the end of a path runs in: that of the last frame on the path that
/// has a target of its own, and `outside` where there is none.
pub open spec fn session_at(
    tree: NodeView,
    path: Seq<int>,
    outside: Seq<char>,
    sessions: Map<Seq<char>, Seq<char>>,
) -> Seq<char>
    decreases path.len(),
{
    let here = match tree.frame {
        Some(info) => match info.id {
            Some(id) => if sessions.contains_key(id) {
                sessions[id]
            } else {
                outside
            },
            None => outside,
        },
        None => outside,
    };
    if path.len() == 0 {
        here
    } else {
        session_at(tree.children[path[0]], path.skip(1), here, sessions)
    }
}

/// The report is of the frame at the end of the path, with the ID, the parent and the document that
/// the tree gives there.
pub open spec fn is_of_place(
    report: Report,
    tree: NodeView,
    path: Seq<int>,
    query: Seq<char>,
    outside: Seq<char>,
    sessions: Map<Seq<char>, Seq<char>>,
) -> bool {
    &&& is_open(tree, path)
    &&& node_at(tree, path).frame matches Some(info)
    &&& info.id == Some(report.target.frame_id)
    &&& info.parent_id == report.target.parent_id
    &&& info.loader_id == report.target.loader_id
    &&& report.target.session_id == session_at(tree, path, outside, sessions)
    &&& report.owned <==> session_at(tree, path, outside, sessions) == query
}

/// The session that the children of a node run in where they have no target of their own.
spec fn passed_on(node: NodeView, inherited: Seq<char>, sessions: Map<Seq<char>, Seq<char>>) -> Seq<char> {
    session_at(node, Seq::empty(), inherited, sessions)
}

proof fn lemma_among_has_each(
    nodes: Seq<NodeView>,
    query: Seq<char>,
    inherited: Seq<char>,
    sessions: Map<Seq<char>, Seq<char>>,
    k: int,
    report: Report,
)
    requires
        0 <= k < nodes.len(),
        reports_in(nodes[k], query, inherited, sessions).contains(report),
    ensures
        reports_among(nodes, query, inherited, sessions).contains(report),
    decreases nodes.len(),
{
    let all = reports_among(nodes, query, inherited, sessions);
    let before = reports_among(nodes.drop_last(), query, inherited, sessions);
    let added = reports_in(nodes.last(), query, inherited, sessions);
    if k == nodes.len() - 1 {
        let i = choose|i: int| 0 <= i < added.len() && added[i] == report;
        assert(all[before.len() + i] == report);
    } else {
        assert(nodes.drop_last()[k] == nodes[k]);
        lemma_among_has_each(nodes.drop_last(), query, inherited, sessions, k, report);
        let i = choose|i: int| 0 <= i < before.len() && before[i] == report;
        assert(all[i] == report);
    }
}

proof fn lemma_among_has_no_other(
    nodes: Seq<NodeView>,
    query: Seq<char>,
    inherited: Seq<char>,
    sessions: Map<Seq<char>, Seq<char>>,
    i: int,
) -> (k: int)
    requires
        0 <= i < reports_among(nodes, query, inherited, sessions).len(),
    ensures
        0 <= k < nodes.len(),
        reports_in(nodes[k], query, inherited, sessions).contains(
            reports_among(nodes, query, inherited, sessions)[i],
        ),
    decreases nodes.len(),
{
    let all = reports_among(nodes, query, inherited, sessions);
    let before = reports_among(nodes.drop_last(), query, inherited, sessions);
    let added = reports_in(nodes.last(), query, inherited, sessions);
    if i < before.len() {
        assert(all[i] == before[i]);
        let k = lemma_among_has_no_other(nodes.drop_last(), query, inherited, sessions, i);
        assert(nodes.drop_last()[k] == nodes[k]);
        k
    } else {
        assert(all[i] == added[i - before.len()]);
        nodes.len() - 1
    }
}

/// Each frame of a tree that has an ID, and does not stand inside a frame record without one, has a
/// report with its ID, its parent and its document as the tree has them. It runs in the session of
/// the nearest target around it, and counts as owned exactly if the tree comes from that session.
pub proof fn law_every_frame_is_reported(
    tree: NodeView,
    query: Seq<char>,
    inherited: Seq<char>,
    sessions: Map<Seq<char>, Seq<char>>,
    path: Seq<int>,
    info: InfoView,
    id: Seq<char>,
)
    requires
        is_open(tree, path),
        node_at(tree, path).frame == Some(info),
        info.id == Some(id),
    ensures
        reports_in(tree, query, inherited, sessions).contains(
            Report {
                target: TargetView {
                    frame_id: id,
                    session_id: session_at(tree, path, inherited, sessions),
                    parent_id: info.parent_id,
                    loader_id: info.loader_id,
                },
                owned: session_at(tree, path, inherited, sessions) == query,
            },
        ),
    decreases path.len(),
{
    let reports = reports_in(tree, query, inherited, sessions);
    let session_id = session_at(tree, path, inherited, sessions);
    let report = Report {
        target: TargetView { frame_id: id, session_id, parent_id: info.parent_id, loader_id: info.loader_id },
        owned: session_id == query,
    };
    if path.len() == 0 {
        assert(reports[0] == report);
    } else {
        let here = passed_on(tree, inherited, sessions);
        let child = tree.children[path[0]];
        law_every_frame_is_reported(child, query, here, sessions, path.skip(1), info, id);
        lemma_among_has_each(tree.children, query, here, sessions, path[0], report);
        let below = reports_among(tree.children, query, here, sessions);
        let i = choose|i: int| 0 <= i < below.len() && below[i] == report;
        if tree.frame is Some {
            assert(reports[i + 1] == below[i]);
        } else {
            assert(reports[i] == below[i]);
        }
    }
}

/// Each report is of a frame in the tree, which has an ID and does not stand inside a frame record
/// without one, with the ID, the parent and the document that the tree has there.
pub proof fn law_every_report_is_of_a_frame(
    tree: NodeView,
    query: Seq<char>,
    inherited: Seq<char>,
    sessions: Map<Seq<char>, Seq<char>>,
    i: int,
)
    requires
        0 <= i < reports_in(tree, query, inherited, sessions).len(),
    ensures
        exists|path: Seq<int>|
            #![trigger node_at(tree, path)]
            is_of_place(reports_in(tree, query, inherited, sessions)[i], tree, path, query, inherited, sessions),
{
    let path = lemma_place_of_report(tree, query, inherited, sessions, i);
    assert(node_at(tree, path).frame is Some);
}

proof fn lemma_place_of_report(
    tree: NodeView,
    query: Seq<char>,
    inherited: Seq<char>,
    sessions: Map<Seq<char>, Seq<char>>,
    i: int,
) -> (path: Seq<int>)
    requires
        0 <= i < reports_in(tree, query, inherited, sessions).len(),
    ensures
        is_of_place(reports_in(tree, query, inherited, sessions)[i], tree, path, query, inherited, sessions),
        tree.frame is Some && i > 0 ==> path.len() > 0,
    decreases tree,
{
    let reports = reports_in(tree, query, inherited, sessions);
    if tree.frame is Some && i == 0 {
        Seq::empty()
    } else {
        let here = passed_on(tree, inherited, sessions);
        let below = reports_among(tree.children, query, here, sessions);
        let j: int = if tree.frame is Some {
            i - 1
        } else {
            i
        };
        assert(reports[i] == below[j]);
        let k = lemma_among_has_no_other(tree.children, query, here, sessions, j);
        let of_child = reports_in(tree.children[k], query, here, sessions);
        let n = choose|n: int| 0 <= n < of_child.len() && of_child[n] == below[j];
        let rest = lemma_place_of_report(tree.children[k], query, here, sessions, n);
        let path = seq![k] + rest;
        assert(path.skip(1) =~= rest);
        path
    }
}

/// A frame without children has one report: of itself, with what the tree says of it. It runs in its
/// own target's session where it has one, and in that of the frame around it otherwise.
pub proof fn law_single_frame_has_one_report(
    info: InfoView,
    id: Seq<char>,
    query: Seq<char>,
    inherited: Seq<char>,
    sessions: Map<Seq<char>, Seq<char>>,
    reports: Seq<Report>,
)
    requires
        info.id == Some(id),
        reports == reports_in(NodeView { frame: Some(info), children: Seq::empty() }, query, inherited, sessions),
    ensures
        reports.len() == 1,
        reports[0].target.frame_id == id,
        reports[0].target.parent_id == info.parent_id,
        reports[0].target.loader_id == info.loader_id,
        sessions.contains_key(id) ==> reports[0].target.session_id == sessions[id],
        !sessions.contains_key(id) ==> reports[0].target.session_id == inherited,
        reports[0].owned <==> reports[0].target.session_id == query,
{
}

/// A frame record without an ID is passed over with all that it contains, and an empty node has
/// nothing to report.
pub proof fn law_nameless_frame_is_passed_over(
    info: InfoView,
    children: Seq<NodeView>,
    query: Seq<char>,
    inherited: Seq<char>,
    sessions: Map<Seq<char>, Seq<char>>,
)
    requires
        info.id is None,
    ensures
        reports_in(NodeView { frame: Some(info), children }, query, inherited, sessions).len() == 0,
        reports_in(NodeView { frame: None, children: Seq::empty() }, query, inherited, sessions).len() == 0,
{
}

/// One more child adds its reports behind those of the frame and of the children before it. It
/// inherits the session that the frame runs in, and what the frame inherits where there is no frame
/// record.
pub proof fn law_child_is_reported_last(
    frame: Option<InfoView>,
    children: Seq<NodeView>,
    child: NodeView,
    query: Seq<char>,
    inherited: Seq<char>,
    sessions: Map<Seq<char>, Seq<char>>,
)
    requires
        frame matches Some(info) ==> info.id is Some,
    ensures
        ({
            let before = NodeView { frame, children };
            let after = NodeView { frame, children: children.push(child) };
            let here = if frame is Some && sessions.contains_key(frame->0.id->0) {
                sessions[frame->0.id->0]
            } else {
                inherited
            };
            reports_in(after, query, inherited, sessions) == reports_in(before, query, inherited, sessions)
                + reports_in(child, query, here, sessions)
        }),
{
    let before = NodeView { frame, children };
    let after = NodeView { frame, children: children.push(child) };
    let here = passed_on(before, inherited, sessions);
    assert(children.push(child).drop_last() =~= children);
    assert(reports_among(after.children, query, here, sessions) == reports_among(children, query, here, sessions)
        + reports_in(child, query, here, sessions));
    assert(reports_in(after, query, inherited, sessions) =~= reports_in(before, query, inherited, sessions)
        + reports_in(child, query, here, sessions));
}

/// A frame that runs in the session that gave the tree is known, once the tree has been taken into
/// account, with that session and with the document that the tree gives it, whatever was known
/// before. The tree must not give the frame another document elsewhere.
pub proof fn law_own_document_is_collected(
    frames: Frames,
    tree: NodeView,
    query: Seq<char>,
    inherited: Seq<char>,
    sessions: Map<Seq<char>, Seq<char>>,
    path: Seq<int>,
    info: InfoView,
    id: Seq<char>,
)
    requires
        is_open(tree, path),
        node_at(tree, path).frame == Some(info),
        info.id == Some(id),
        session_at(tree, path, inherited, sessions) == query,
        forall|other: Seq<int>|
            is_open(tree, other) && (#[trigger] node_at(tree, other)).frame is Some && node_at(tree, other).frame->0.id
                == Some(id) ==> node_at(tree, other).frame->0.loader_id == info.loader_id,
    ensures
        merge_all(frames, reports_in(tree, query, inherited, sessions)).contains_key(id),
        merge_all(frames, reports_in(tree, query, inherited, sessions))[id].loader_id == info.loader_id,
        merge_all(frames, reports_in(tree, query, inherited, sessions))[id].session_id == query,
{
    let reports = reports_in(tree, query, inherited, sessions);
    law_every_frame_is_reported(tree, query, inherited, sessions, path, info, id);
    let from = choose|i: int| 0 <= i < reports.len() && reports[i].target.frame_id == id && reports[i].owned;
    let at = lemma_last_owned(reports, id, from);
    let place = lemma_place_of_report(tree, query, inherited, sessions, at);
    assert(node_at(tree, place).frame is Some);
    law_owner_decides(frames, reports, at);
}

proof fn lemma_last_owned(reports: Seq<Report>, id: Seq<char>, from: int) -> (at: int)
    requires
        0 <= from < reports.len(),
        reports[from].target.frame_id == id,
        reports[from].owned,
    ensures
        from <= at < reports.len(),
        reports[at].target.frame_id == id,
        reports[at].owned,
        forall|i: int| at < i < reports.len() && (#[trigger] reports[i]).target.frame_id == id ==> !reports[i].owned,
    decreases reports.len() - from,
{
    if exists|i: int| from < i < reports.len() && (#[trigger] reports[i]).target.frame_id == id && reports[i].owned {
        let i = choose|i: int|
            from < i < reports.len() && (#[trigger] reports[i]).target.frame_id == id && reports[i].owned;
        lemma_last_owned(reports, id, i)
    } else {
        from
    }
}

/// The document at the root of a tree is known as the tree has it, if the session that gave the tree
/// executes the root and the root's ID does not occur again below it.
pub proof fn law_root_document_is_collected(
    frames: Frames,
    tree: NodeView,
    query: Seq<char>,
    sessions: Map<Seq<char>, Seq<char>>,
    info: InfoView,
    id: Seq<char>,
)
    requires
        tree.frame == Some(info),
        info.id == Some(id),
        sessions.contains_key(id) ==> sessions[id] == query,
        forall|path: Seq<int>|
            path.len() > 0 && is_open(tree, path) && (#[trigger] node_at(tree, path)).frame is Some
                ==> node_at(tree, path).frame->0.id != Some(id),
    ensures
        merge_all(frames, reports_in(tree, query, query, sessions)).contains_key(id),
        merge_all(frames, reports_in(tree, query, query, sessions))[id].loader_id == info.loader_id,
        merge_all(frames, reports_in(tree, query, query, sessions))[id].session_id == query,
        info.parent_id is Some ==> merge_all(frames, reports_in(tree, query, query, sessions))[id].parent_id
            == info.parent_id,
        info.parent_id is None && frames.contains_key(id) ==> merge_all(
            frames,
            reports_in(tree, query, query, sessions),
        )[id].parent_id == frames[id].parent_id,
        info.parent_id is None && !frames.contains_key(id) ==> merge_all(
            frames,
            reports_in(tree, query, query, sessions),
        )[id].parent_id is None,
{
    let reports = reports_in(tree, query, query, sessions);
    let root = seq![reports[0]];
    let rest = reports.skip(1);
    assert(reports =~= root + rest);
    lemma_merge_concatenation(frames, root, rest);
    let none: Seq<Report> = Seq::empty();
    assert(root =~= none.push(reports[0]));
    law_report_is_merged(frames, none, reports[0]);
    assert(merge_all(frames, none) == frames);
    assert forall|i: int| 0 <= i < rest.len() implies (#[trigger] rest[i]).target.frame_id != id by {
        let place = lemma_place_of_report(tree, query, query, sessions, i + 1);
        assert(reports[i + 1] == rest[i]);
        assert(node_at(tree, place).frame is Some);
    }
    law_unreported_frame_is_left(merge_all(frames, root), rest, id);
}

/// Of a frame that was not known, one more report is what is known. Of a known one, a report of the
/// session that executes it replaces all but a parent link that it leaves out, and any other report
/// adds a parent link that is missing and nothing else. Other frames are left as they are.
pub proof fn law_report_is_merged(frames: Frames, reports: Seq<Report>, report: Report)
    ensures
        ({
            let before = merge_all(frames, reports);
            let after = merge_all(frames, reports.push(report));
            let id = report.target.frame_id;
            &&& forall|other: Seq<char>| #[trigger]
                after.contains_key(other) <==> before.contains_key(other) || other == id
            &&& forall|other: Seq<char>| #[trigger]
                before.contains_key(other) && other != id ==> after[other] == before[other]
            &&& !before.contains_key(id) ==> after[id] == report.target
            &&& before.contains_key(id) && report.owned ==> {
                &&& after[id].frame_id == id
                &&& after[id].session_id == report.target.session_id
                &&& after[id].loader_id == report.target.loader_id
                &&& report.target.parent_id is Some ==> after[id].parent_id == report.target.parent_id
                &&& report.target.parent_id is None ==> after[id].parent_id == before[id].parent_id
            }
            &&& before.contains_key(id) && !report.owned ==> {
                &&& after[id].frame_id == before[id].frame_id
                &&& after[id].session_id == before[id].session_id
                &&& after[id].loader_id == before[id].loader_id
                &&& before[id].parent_id is Some ==> after[id].parent_id == before[id].parent_id
                &&& before[id].parent_id is None ==> after[id].parent_id == report.target.parent_id
            }
        }),
        merge_all(frames, Seq::empty()) == frames,
{
    assert(reports.push(report).drop_last() =~= reports);
    assert(reports.push(report).last() == report);
}

/// A frame that no report speaks of is as it was.
pub proof fn law_unreported_frame_is_left(frames: Frames, reports: Seq<Report>, id: Seq<char>)
    requires
        forall|i: int| 0 <= i < reports.len() ==> (#[trigger] reports[i]).target.frame_id != id,
    ensures
        merge_all(frames, reports).contains_key(id) == frames.contains_key(id),
        frames.contains_key(id) ==> merge_all(frames, reports)[id] == frames[id],
    decreases reports.len(),
{
    if reports.len() > 0 {
        let front = reports.drop_last();
        assert(forall|i: int| 0 <= i < front.len() ==> #[trigger] front[i] == reports[i]);
        assert(reports[reports.len() - 1] == reports.last());
        law_unreported_frame_is_left(frames, front, id);
    }
}

/// A collection begins with nothing known. When the first pending session answers with a tree, that
/// tree is taken into account as that session's own; when it gives none, what is known stays as it
/// is and the collection is incomplete. Either way the session is no longer pending, and the others
/// are, in their order.
pub proof fn law_answer_is_taken_into_account(
    collection: CollectionView,
    tree: Option<NodeView>,
    after: CollectionView,
)
    requires
        collection.pending.len() > 0,
        after == collection.answered(tree),
    ensures
        collection.answers.len() == 0 ==> collection.known() == Map::<Seq<char>, TargetView>::empty(),
        tree matches Some(node) ==> after.known() == merge_all(
            collection.known(),
            reports_in(node, collection.pending[0], collection.pending[0], collection.sessions),
        ),
        tree is Some ==> after.incomplete == collection.incomplete,
        tree is None ==> after.known() == collection.known(),
        tree is None ==> after.incomplete,
        collection.pending == seq![collection.pending[0]] + after.pending,
        after.top_frame_id == collection.top_frame_id,
        after.sessions == collection.sessions,
{
    assert(collection.pending =~= seq![collection.pending[0]] + after.pending);
    if let Some(node) = tree {
        let answer = Answer { tree: node, session_id: collection.pending[0] };
        assert(collection.answers.push(answer).drop_last() =~= collection.answers);
        lemma_merge_concatenation(
            Map::empty(),
            answer_reports(collection.answers, collection.sessions),
            reports_in(node, answer.session_id, answer.session_id, collection.sessions),
        );
    }
}

/// The tab's own tree is taken into account as that of the session that gave it.
pub proof fn law_first_answer_is_the_tabs(collection: CollectionView, answer: Answer)
    requires
        collection.answers == seq![answer],
    ensures
        collection.known() == merge_all(
            Map::empty(),
            reports_in(answer.tree, answer.session_id, answer.session_id, collection.sessions),
        ),
{
    let none: Seq<Answer> = Seq::empty();
    assert(collection.answers.drop_last() =~= none);
    assert(collection.answers.last() == answer);
    let reports = reports_in(answer.tree, answer.session_id, answer.session_id, collection.sessions);
    assert(answer_reports(none, collection.sessions) + reports =~= reports);
}

/// A frame record and a tree are seen as their parts are.
pub proof fn law_tree_is_its_parts(info: FrameInfo, node: FrameNode)
    ensures
        info.id matches Some(id) ==> info@.id == Some(id@),
        info.id is None ==> info@.id is None,
        info.parent_id matches Some(parent_id) ==> info@.parent_id == Some(parent_id@),
        info.parent_id is None ==> info@.parent_id is None,
        info.loader_id matches Some(loader_id) ==> info@.loader_id == Some(loader_id@),
        info.loader_id is None ==> info@.loader_id is None,
        node.frame matches Some(record) ==> node@.frame == Some(record@),
        node.frame is None ==> node@.frame is None,
        node@.children.len() == node.children@.len(),
        forall|i: int| 0 <= i < node.children@.len() ==> node@.children[i] == (#[trigger] node.children@[i])@,
{
}

} // verus!
