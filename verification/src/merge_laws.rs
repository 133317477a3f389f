//! What holds of frame reports and of what is put together from them.

use crate::topology::{ancestor, keyed_by_id, parent_of, reaches, within_tab, Frames};
use crate::tree::{executing_session, merge_all, reports_among, reports_in, NodeView, Report};
use vstd::prelude::*;

verus! {

/// Some report speaks of the frame.
pub open spec fn reported(reports: Seq<Report>, frame_id: Seq<char>) -> bool {
    exists|i: int| 0 <= i < reports.len() && (#[trigger] reports[i]).target.frame_id == frame_id
}

/// Some report names the frame's parent.
pub open spec fn parent_named(reports: Seq<Report>, frame_id: Seq<char>) -> bool {
    exists|i: int|
        0 <= i < reports.len() && (#[trigger] reports[i]).target.frame_id == frame_id
            && reports[i].target.parent_id is Some
}

/// The report speaks of the frame, comes from the session that executes it, and names its parent.
pub open spec fn owner_names_parent(report: Report, frame_id: Seq<char>) -> bool {
    &&& report.target.frame_id == frame_id
    &&& report.owned
    &&& report.target.parent_id is Some
}

/// The reports leave no doubt about the frame's parent: those of its own session agree on it or,
/// where they do not name it, the others do.
pub open spec fn parent_settled(reports: Seq<Report>, frame_id: Seq<char>) -> bool {
    forall|i: int, j: int|
        0 <= i < reports.len() && 0 <= j < reports.len() && names_parent(
            reports,
            #[trigger] reports[i],
            frame_id,
        ) && names_parent(reports, #[trigger] reports[j], frame_id) ==> reports[i].target.parent_id
            == reports[j].target.parent_id
}

/// The report names the frame's parent, and none takes precedence over it for being the owner's.
pub open spec fn names_parent(reports: Seq<Report>, report: Report, frame_id: Seq<char>) -> bool {
    &&& report.target.frame_id == frame_id
    &&& report.target.parent_id is Some
    &&& report.owned || !exists|i: int| 0 <= i < reports.len() && owner_names_parent(#[trigger] reports[i], frame_id)
}

/// The reports leave no doubt about where the frame runs and which document it shows: those of its
/// own session agree on it or, where there are none, the others do.
pub open spec fn document_settled(reports: Seq<Report>, frame_id: Seq<char>) -> bool {
    forall|i: int, j: int|
        0 <= i < reports.len() && 0 <= j < reports.len() && describes(reports, #[trigger] reports[i], frame_id)
            && describes(reports, #[trigger] reports[j], frame_id) ==> reports[i].target.session_id
            == reports[j].target.session_id && reports[i].target.loader_id == reports[j].target.loader_id
}

/// The report speaks of the frame, and none takes precedence over it for being the owner's.
pub open spec fn describes(reports: Seq<Report>, report: Report, frame_id: Seq<char>) -> bool {
    &&& report.target.frame_id == frame_id
    &&& report.owned || !exists|i: int|
        0 <= i < reports.len() && (#[trigger] reports[i]).target.frame_id == frame_id && reports[i].owned
}

/// The two lists hold the same reports, in whatever order.
pub open spec fn same_reports(a: Seq<Report>, b: Seq<Report>) -> bool {
    forall|report: Report| a.contains(report) <==> b.contains(report)
}

/// The frames that are known are those that were known before and those that were reported.
pub proof fn law_reported_frames_are_known(frames: Frames, reports: Seq<Report>, frame_id: Seq<char>)
    ensures
        merge_all(frames, reports).contains_key(frame_id) <==> frames.contains_key(frame_id) || reported(
            reports,
            frame_id,
        ),
    decreases reports.len(),
{
    if reports.len() > 0 {
        let front = reports.drop_last();
        law_reported_frames_are_known(frames, front, frame_id);
        assert(forall|i: int| 0 <= i < front.len() ==> #[trigger] front[i] == reports[i]);
        if reported(front, frame_id) {
            let i = choose|i: int| 0 <= i < front.len() && (#[trigger] front[i]).target.frame_id == frame_id;
            assert(reports[i].target.frame_id == frame_id);
        }
        if reported(reports, frame_id) && reports.last().target.frame_id != frame_id {
            let i = choose|i: int| 0 <= i < reports.len() && (#[trigger] reports[i]).target.frame_id == frame_id;
            assert(front[i].target.frame_id == frame_id);
        }
        if reports.last().target.frame_id == frame_id {
            assert(reports[reports.len() - 1].target.frame_id == frame_id);
        }
    }
}

/// Frames stay stored under their own IDs.
pub proof fn law_merging_keeps_ids(frames: Frames, reports: Seq<Report>)
    requires
        keyed_by_id(frames),
    ensures
        keyed_by_id(merge_all(frames, reports)),
    decreases reports.len(),
{
    if reports.len() > 0 {
        law_merging_keeps_ids(frames, reports.drop_last());
    }
}

/// The session that executes a frame decides which document the frame shows and where it runs: its
/// last report stands against whatever other sessions reported before or after it.
pub proof fn law_owner_decides(frames: Frames, reports: Seq<Report>, at: int)
    requires
        0 <= at < reports.len(),
        reports[at].owned,
        forall|i: int|
            at < i < reports.len() && (#[trigger] reports[i]).target.frame_id == reports[at].target.frame_id
                ==> !reports[i].owned,
    ensures
        merge_all(frames, reports).contains_key(reports[at].target.frame_id),
        merge_all(frames, reports)[reports[at].target.frame_id].session_id == reports[at].target.session_id,
        merge_all(frames, reports)[reports[at].target.frame_id].loader_id == reports[at].target.loader_id,
    decreases reports.len(),
{
    let front = reports.drop_last();
    if at < front.len() {
        assert(forall|i: int| 0 <= i < front.len() ==> #[trigger] front[i] == reports[i]);
        law_owner_decides(frames, front, at);
        assert(reports[reports.len() - 1] == reports.last());
    }
}

/// A frame that its own session did not report, and that was not known before, is as its first
/// report has it.
pub proof fn law_first_report_stands(frames: Frames, reports: Seq<Report>, at: int)
    requires
        0 <= at < reports.len(),
        !frames.contains_key(reports[at].target.frame_id),
        forall|i: int| 0 <= i < at ==> (#[trigger] reports[i]).target.frame_id != reports[at].target.frame_id,
        forall|i: int|
            at < i < reports.len() && (#[trigger] reports[i]).target.frame_id == reports[at].target.frame_id
                ==> !reports[i].owned,
    ensures
        merge_all(frames, reports).contains_key(reports[at].target.frame_id),
        merge_all(frames, reports)[reports[at].target.frame_id].session_id == reports[at].target.session_id,
        merge_all(frames, reports)[reports[at].target.frame_id].loader_id == reports[at].target.loader_id,
    decreases reports.len(),
{
    let front = reports.drop_last();
    assert(forall|i: int| 0 <= i < front.len() ==> #[trigger] front[i] == reports[i]);
    if at < front.len() {
        law_first_report_stands(frames, front, at);
        assert(reports[reports.len() - 1] == reports.last());
    } else {
        law_reported_frames_are_known(frames, front, reports[at].target.frame_id);
    }
}

/// A parent link that any report gives is never lost, whichever session reported the frame first,
/// last or as its own.
pub proof fn law_parent_link_is_never_lost(frames: Frames, reports: Seq<Report>, frame_id: Seq<char>)
    ensures
        parent_of(merge_all(frames, reports), frame_id) is Some <==> parent_of(frames, frame_id) is Some
            || parent_named(reports, frame_id),
    decreases reports.len(),
{
    if reports.len() > 0 {
        let front = reports.drop_last();
        let last = reports.last();
        assert(forall|i: int| 0 <= i < front.len() ==> #[trigger] front[i] == reports[i]);
        assert(reports[reports.len() - 1] == last);
        law_parent_link_is_never_lost(frames, front, frame_id);
        if parent_named(front, frame_id) {
            let i = choose|i: int|
                0 <= i < front.len() && (#[trigger] front[i]).target.frame_id == frame_id
                    && front[i].target.parent_id is Some;
            assert(reports[i].target.frame_id == frame_id && reports[i].target.parent_id is Some);
        }
        if parent_named(reports, frame_id) && !(last.target.frame_id == frame_id && last.target.parent_id is Some) {
            let i = choose|i: int|
                0 <= i < reports.len() && (#[trigger] reports[i]).target.frame_id == frame_id
                    && reports[i].target.parent_id is Some;
            assert(front[i].target.frame_id == frame_id && front[i].target.parent_id is Some);
        }
    }
}

/// The parent is the one that the frame's own session named last, whatever else was reported.
pub proof fn law_owner_decides_parent(frames: Frames, reports: Seq<Report>, frame_id: Seq<char>, at: int)
    requires
        0 <= at < reports.len(),
        owner_names_parent(reports[at], frame_id),
        forall|i: int| at < i < reports.len() ==> !owner_names_parent(#[trigger] reports[i], frame_id),
    ensures
        parent_of(merge_all(frames, reports), frame_id) == reports[at].target.parent_id,
    decreases reports.len(),
{
    let front = reports.drop_last();
    if at < front.len() {
        assert(forall|i: int| 0 <= i < front.len() ==> #[trigger] front[i] == reports[i]);
        law_owner_decides_parent(frames, front, frame_id, at);
        assert(reports[reports.len() - 1] == reports.last());
        assert(!owner_names_parent(reports[reports.len() - 1], frame_id));
    }
}

/// Where the frame's own session did not name the parent, and it was not known before, it is the
/// one that was named first.
pub proof fn law_first_parent_stands(frames: Frames, reports: Seq<Report>, frame_id: Seq<char>, at: int)
    requires
        0 <= at < reports.len(),
        reports[at].target.frame_id == frame_id,
        reports[at].target.parent_id is Some,
        parent_of(frames, frame_id) is None,
        forall|i: int|
            0 <= i < at && (#[trigger] reports[i]).target.frame_id == frame_id ==> reports[i].target.parent_id is None,
        forall|i: int| 0 <= i < reports.len() ==> !owner_names_parent(#[trigger] reports[i], frame_id),
    ensures
        parent_of(merge_all(frames, reports), frame_id) == reports[at].target.parent_id,
    decreases reports.len(),
{
    let front = reports.drop_last();
    assert(forall|i: int| 0 <= i < front.len() ==> #[trigger] front[i] == reports[i]);
    assert(reports[reports.len() - 1] == reports.last());
    assert(!owner_names_parent(reports[reports.len() - 1], frame_id));
    if at < front.len() {
        law_first_parent_stands(frames, front, frame_id, at);
    } else {
        law_parent_link_is_never_lost(frames, front, frame_id);
        assert(!parent_named(front, frame_id));
    }
}

/// The place of the last report that satisfies `wanted`.
proof fn lemma_last_place(reports: Seq<Report>, wanted: spec_fn(Report) -> bool, from: int) -> (at: int)
    requires
        0 <= from < reports.len(),
        wanted(reports[from]),
    ensures
        from <= at < reports.len(),
        wanted(reports[at]),
        forall|i: int| at < i < reports.len() ==> !wanted(#[trigger] reports[i]),
    decreases reports.len() - from,
{
    if exists|i: int| from < i < reports.len() && wanted(#[trigger] reports[i]) {
        let i = choose|i: int| from < i < reports.len() && wanted(#[trigger] reports[i]);
        lemma_last_place(reports, wanted, i)
    } else {
        from
    }
}

/// The place of the first report that satisfies `wanted`.
proof fn lemma_first_place(reports: Seq<Report>, wanted: spec_fn(Report) -> bool, from: int) -> (at: int)
    requires
        0 <= from < reports.len(),
        wanted(reports[from]),
    ensures
        0 <= at <= from,
        wanted(reports[at]),
        forall|i: int| 0 <= i < at ==> !wanted(#[trigger] reports[i]),
    decreases from,
{
    if exists|i: int| 0 <= i < from && wanted(#[trigger] reports[i]) {
        let i = choose|i: int| 0 <= i < from && wanted(#[trigger] reports[i]);
        lemma_first_place(reports, wanted, i)
    } else {
        from
    }
}

/// The report that decides on the parent of a frame that is known from the reports alone.
proof fn lemma_parent_comes_from(reports: Seq<Report>, frame_id: Seq<char>) -> (at: int)
    requires
        parent_named(reports, frame_id),
    ensures
        0 <= at < reports.len(),
        names_parent(reports, reports[at], frame_id),
        parent_of(merge_all(Map::empty(), reports), frame_id) == reports[at].target.parent_id,
{
    let empty: Frames = Map::empty();
    if exists|i: int| 0 <= i < reports.len() && owner_names_parent(#[trigger] reports[i], frame_id) {
        let from = choose|i: int| 0 <= i < reports.len() && owner_names_parent(#[trigger] reports[i], frame_id);
        let wanted = |report: Report| owner_names_parent(report, frame_id);
        let at = lemma_last_place(reports, wanted, from);
        assert forall|i: int| at < i < reports.len() implies !owner_names_parent(#[trigger] reports[i], frame_id) by {
            assert(!wanted(reports[i]));
        }
        law_owner_decides_parent(empty, reports, frame_id, at);
        at
    } else {
        let from = choose|i: int|
            0 <= i < reports.len() && (#[trigger] reports[i]).target.frame_id == frame_id
                && reports[i].target.parent_id is Some;
        let wanted = |report: Report| report.target.frame_id == frame_id && report.target.parent_id is Some;
        let at = lemma_first_place(reports, wanted, from);
        assert forall|i: int|
            0 <= i < at && (#[trigger] reports[i]).target.frame_id == frame_id implies reports[i].target.parent_id is None by {
            assert(!wanted(reports[i]));
        }
        law_first_parent_stands(empty, reports, frame_id, at);
        at
    }
}

/// The report that decides on the session and the document of a frame that is known from the
/// reports alone.
proof fn lemma_document_comes_from(reports: Seq<Report>, frame_id: Seq<char>) -> (at: int)
    requires
        reported(reports, frame_id),
    ensures
        0 <= at < reports.len(),
        describes(reports, reports[at], frame_id),
        merge_all(Map::empty(), reports).contains_key(frame_id),
        merge_all(Map::empty(), reports)[frame_id].session_id == reports[at].target.session_id,
        merge_all(Map::empty(), reports)[frame_id].loader_id == reports[at].target.loader_id,
{
    let empty: Frames = Map::empty();
    if exists|i: int| 0 <= i < reports.len() && (#[trigger] reports[i]).target.frame_id == frame_id && reports[i].owned {
        let from = choose|i: int|
            0 <= i < reports.len() && (#[trigger] reports[i]).target.frame_id == frame_id && reports[i].owned;
        let wanted = |report: Report| report.target.frame_id == frame_id && report.owned;
        let at = lemma_last_place(reports, wanted, from);
        assert forall|i: int|
            at < i < reports.len() && (#[trigger] reports[i]).target.frame_id == frame_id implies !reports[i].owned by {
            assert(!wanted(reports[i]));
        }
        law_owner_decides(empty, reports, at);
        at
    } else {
        let from = choose|i: int| 0 <= i < reports.len() && (#[trigger] reports[i]).target.frame_id == frame_id;
        let wanted = |report: Report| report.target.frame_id == frame_id;
        let at = lemma_first_place(reports, wanted, from);
        assert forall|i: int| 0 <= i < at implies (#[trigger] reports[i]).target.frame_id != frame_id by {
            assert(!wanted(reports[i]));
        }
        law_first_report_stands(empty, reports, at);
        at
    }
}

/// The same reports in another order give precedence to the same ones.
proof fn lemma_same_reports(a: Seq<Report>, b: Seq<Report>, frame_id: Seq<char>)
    requires
        same_reports(a, b),
    ensures
        reported(a, frame_id) ==> reported(b, frame_id),
        parent_named(a, frame_id) ==> parent_named(b, frame_id),
        forall|report: Report| names_parent(b, report, frame_id) ==> names_parent(a, report, frame_id),
        forall|report: Report| describes(b, report, frame_id) ==> describes(a, report, frame_id),
{
    assert forall|i: int| 0 <= i < a.len() implies exists|j: int| 0 <= j < b.len() && b[j] == #[trigger] a[i] by {
        assert(a.contains(a[i]));
    }
    if reported(a, frame_id) {
        let i = choose|i: int| 0 <= i < a.len() && (#[trigger] a[i]).target.frame_id == frame_id;
        let j = choose|j: int| 0 <= j < b.len() && b[j] == a[i];
        assert(b[j].target.frame_id == frame_id);
    }
    if parent_named(a, frame_id) {
        let i = choose|i: int|
            0 <= i < a.len() && (#[trigger] a[i]).target.frame_id == frame_id && a[i].target.parent_id is Some;
        let j = choose|j: int| 0 <= j < b.len() && b[j] == a[i];
        assert(b[j].target.frame_id == frame_id && b[j].target.parent_id is Some);
    }
    if exists|i: int| 0 <= i < a.len() && owner_names_parent(#[trigger] a[i], frame_id) {
        let i = choose|i: int| 0 <= i < a.len() && owner_names_parent(#[trigger] a[i], frame_id);
        let j = choose|j: int| 0 <= j < b.len() && b[j] == a[i];
        assert(owner_names_parent(b[j], frame_id));
    }
    if exists|i: int| 0 <= i < a.len() && (#[trigger] a[i]).target.frame_id == frame_id && a[i].owned {
        let i = choose|i: int| 0 <= i < a.len() && (#[trigger] a[i]).target.frame_id == frame_id && a[i].owned;
        let j = choose|j: int| 0 <= j < b.len() && b[j] == a[i];
        assert(b[j].target.frame_id == frame_id && b[j].owned);
    }
}

proof fn lemma_settled_parent(a: Seq<Report>, b: Seq<Report>, frame_id: Seq<char>)
    requires
        same_reports(a, b),
        parent_settled(a, frame_id),
    ensures
        parent_of(merge_all(Map::empty(), a), frame_id) == parent_of(merge_all(Map::empty(), b), frame_id),
{
    lemma_same_reports(a, b, frame_id);
    lemma_same_reports(b, a, frame_id);
    law_parent_link_is_never_lost(Map::empty(), a, frame_id);
    law_parent_link_is_never_lost(Map::empty(), b, frame_id);
    if parent_named(a, frame_id) {
        let at_a = lemma_parent_comes_from(a, frame_id);
        let at_b = lemma_parent_comes_from(b, frame_id);
        assert(b.contains(b[at_b]));
        let twin = choose|i: int| 0 <= i < a.len() && a[i] == b[at_b];
        assert(names_parent(a, a[twin], frame_id) && names_parent(a, a[at_a], frame_id));
    }
}

proof fn lemma_ancestor_by_links(a: Frames, b: Frames, frame_id: Seq<char>, steps: nat)
    requires
        forall|id: Seq<char>| #[trigger] parent_of(a, id) == parent_of(b, id),
    ensures
        ancestor(a, frame_id, steps) == ancestor(b, frame_id, steps),
    decreases steps,
{
    if steps > 0 {
        lemma_ancestor_by_links(a, b, frame_id, (steps - 1) as nat);
    }
}

proof fn lemma_reaches_by_links(a: Frames, b: Frames, frame_id: Seq<char>, top_frame_id: Seq<char>)
    requires
        forall|id: Seq<char>| #[trigger] parent_of(a, id) == parent_of(b, id),
        reaches(a, frame_id, top_frame_id),
    ensures
        reaches(b, frame_id, top_frame_id),
{
    let steps = choose|steps: nat| #[trigger] ancestor(a, frame_id, steps) == Some(top_frame_id);
    lemma_ancestor_by_links(a, b, frame_id, steps);
    assert(ancestor(b, frame_id, steps) == Some(top_frame_id));
}

/// The order in which sessions are asked does not decide which frames are known, how they contain
/// one another, or which of them belong to a tab.
pub proof fn law_query_order_does_not_decide_membership(
    a: Seq<Report>,
    b: Seq<Report>,
    top_frame_id: Seq<char>,
)
    requires
        same_reports(a, b),
        forall|id: Seq<char>| #[trigger] parent_settled(a, id),
    ensures
        merge_all(Map::empty(), a).dom() == merge_all(Map::empty(), b).dom(),
        forall|id: Seq<char>| #[trigger]
            parent_of(merge_all(Map::empty(), a), id) == parent_of(merge_all(Map::empty(), b), id),
        within_tab(merge_all(Map::empty(), a), top_frame_id).dom() == within_tab(
            merge_all(Map::empty(), b),
            top_frame_id,
        ).dom(),
{
    let empty: Frames = Map::empty();
    let (known_a, known_b) = (merge_all(empty, a), merge_all(empty, b));
    assert forall|id: Seq<char>| known_a.contains_key(id) == known_b.contains_key(id) by {
        law_reported_frames_are_known(empty, a, id);
        law_reported_frames_are_known(empty, b, id);
        lemma_same_reports(a, b, id);
        lemma_same_reports(b, a, id);
    }
    assert(known_a.dom() =~= known_b.dom());
    assert forall|id: Seq<char>| #[trigger] parent_of(known_a, id) == parent_of(known_b, id) by {
        assert(parent_settled(a, id));
        lemma_settled_parent(a, b, id);
    }
    law_merging_keeps_ids(empty, a);
    law_merging_keeps_ids(empty, b);
    let (tab_a, tab_b) = (within_tab(known_a, top_frame_id), within_tab(known_b, top_frame_id));
    assert forall|id: Seq<char>| tab_a.contains_key(id) == tab_b.contains_key(id) by {
        if tab_a.contains_key(id) {
            lemma_reaches_by_links(known_a, known_b, id, top_frame_id);
        }
        if tab_b.contains_key(id) {
            lemma_reaches_by_links(known_b, known_a, id, top_frame_id);
        }
    }
    assert(tab_a.dom() =~= tab_b.dom());
}

/// The order in which sessions are asked does not decide what is known of a frame.
pub proof fn law_query_order_does_not_decide_frames(a: Seq<Report>, b: Seq<Report>, frame_id: Seq<char>)
    requires
        same_reports(a, b),
        parent_settled(a, frame_id),
        document_settled(a, frame_id),
    ensures
        merge_all(Map::empty(), a).contains_key(frame_id) == merge_all(Map::empty(), b).contains_key(frame_id),
        merge_all(Map::empty(), a).contains_key(frame_id) ==> merge_all(Map::empty(), a)[frame_id] == merge_all(
            Map::empty(),
            b,
        )[frame_id],
{
    let empty: Frames = Map::empty();
    lemma_same_reports(a, b, frame_id);
    lemma_same_reports(b, a, frame_id);
    law_reported_frames_are_known(empty, a, frame_id);
    law_reported_frames_are_known(empty, b, frame_id);
    if reported(a, frame_id) {
        let at_a = lemma_document_comes_from(a, frame_id);
        let at_b = lemma_document_comes_from(b, frame_id);
        assert(b.contains(b[at_b]));
        let twin = choose|i: int| 0 <= i < a.len() && a[i] == b[at_b];
        assert(describes(a, a[twin], frame_id) && describes(a, a[at_a], frame_id));
        lemma_settled_parent(a, b, frame_id);
        law_merging_keeps_ids(empty, a);
        law_merging_keeps_ids(empty, b);
        assert(merge_all(empty, a)[frame_id] =~= merge_all(empty, b)[frame_id]);
    }
}

proof fn lemma_dedicated_in(
    node: NodeView,
    query: Seq<char>,
    inherited: Seq<char>,
    sessions: Map<Seq<char>, Seq<char>>,
)
    ensures
        forall|i: int|
            0 <= i < reports_in(node, query, inherited, sessions).len() ==> dedicated(
                #[trigger] reports_in(node, query, inherited, sessions)[i],
                query,
                sessions,
            ),
    decreases node,
{
    let reports = reports_in(node, query, inherited, sessions);
    let session_id = match node.frame {
        Some(info) => match info.id {
            Some(id) => executing_session(id, inherited, sessions),
            None => inherited,
        },
        None => inherited,
    };
    lemma_dedicated_among(node.children, query, session_id, sessions);
    let below = reports_among(node.children, query, session_id, sessions);
    assert forall|i: int| 0 <= i < reports.len() implies dedicated(#[trigger] reports[i], query, sessions) by {
        if node.frame is None {
            assert(reports[i] == below[i]);
        } else if i > 0 {
            assert(reports[i] == below[i - 1]);
        }
    }
}

/// The report has the frame run in its own target's session where the frame has one, and counts as
/// owned exactly if the tree is of the session that the frame runs in.
pub open spec fn dedicated(report: Report, query: Seq<char>, sessions: Map<Seq<char>, Seq<char>>) -> bool {
    &&& sessions.contains_key(report.target.frame_id) ==> report.target.session_id
        == sessions[report.target.frame_id]
    &&& report.owned <==> report.target.session_id == query
}

proof fn lemma_dedicated_among(
    nodes: Seq<NodeView>,
    query: Seq<char>,
    inherited: Seq<char>,
    sessions: Map<Seq<char>, Seq<char>>,
)
    ensures
        forall|i: int|
            0 <= i < reports_among(nodes, query, inherited, sessions).len() ==> dedicated(
                #[trigger] reports_among(nodes, query, inherited, sessions)[i],
                query,
                sessions,
            ),
    decreases nodes,
{
    if nodes.len() > 0 {
        lemma_dedicated_among(nodes.drop_last(), query, inherited, sessions);
        lemma_dedicated_in(nodes.last(), query, inherited, sessions);
        let reports = reports_among(nodes, query, inherited, sessions);
        let before = reports_among(nodes.drop_last(), query, inherited, sessions);
        let added = reports_in(nodes.last(), query, inherited, sessions);
        assert forall|i: int| 0 <= i < reports.len() implies dedicated(#[trigger] reports[i], query, sessions) by {
            if i < before.len() {
                assert(reports[i] == before[i]);
            } else {
                assert(reports[i] == added[i - before.len()]);
            }
        }
    }
}

/// A frame with a target of its own is reported to run in that target's session, in every tree and
/// wherever it stands in it.
pub proof fn law_dedicated_session_is_reported(
    node: NodeView,
    query: Seq<char>,
    sessions: Map<Seq<char>, Seq<char>>,
    i: int,
)
    requires
        0 <= i < reports_in(node, query, query, sessions).len(),
    ensures
        dedicated(reports_in(node, query, query, sessions)[i], query, sessions),
{
    lemma_dedicated_in(node, query, query, sessions);
}

/// No frame of the tree has a target of its own.
pub open spec fn without_targets(node: NodeView, sessions: Map<Seq<char>, Seq<char>>) -> bool
    decreases node,
{
    &&& node.frame matches Some(info) ==> info.id matches Some(id) ==> !sessions.contains_key(id)
    &&& forall|i: int| 0 <= i < node.children.len() ==> without_targets(#[trigger] node.children[i], sessions)
}

/// Frames without a target of their own run in the session of the nearest frame around them that
/// has one: below a frame that runs in `inherited`, they all run there.
pub proof fn law_frames_without_target_inherit(
    node: NodeView,
    query: Seq<char>,
    inherited: Seq<char>,
    sessions: Map<Seq<char>, Seq<char>>,
)
    requires
        without_targets(node, sessions),
    ensures
        forall|i: int|
            0 <= i < reports_in(node, query, inherited, sessions).len() ==> (#[trigger] reports_in(
                node,
                query,
                inherited,
                sessions,
            )[i]).target.session_id == inherited,
    decreases node,
{
    lemma_inherit_among(node.children, query, inherited, sessions);
    let reports = reports_in(node, query, inherited, sessions);
    let below = reports_among(node.children, query, inherited, sessions);
    assert forall|i: int| 0 <= i < reports.len() implies (#[trigger] reports[i]).target.session_id == inherited by {
        if node.frame is Some && i > 0 {
            assert(reports[i] == below[i - 1]);
        }
    }
}

proof fn lemma_inherit_among(
    nodes: Seq<NodeView>,
    query: Seq<char>,
    inherited: Seq<char>,
    sessions: Map<Seq<char>, Seq<char>>,
)
    requires
        forall|i: int| 0 <= i < nodes.len() ==> without_targets(#[trigger] nodes[i], sessions),
    ensures
        forall|i: int|
            0 <= i < reports_among(nodes, query, inherited, sessions).len() ==> (#[trigger] reports_among(
                nodes,
                query,
                inherited,
                sessions,
            )[i]).target.session_id == inherited,
    decreases nodes,
{
    if nodes.len() > 0 {
        lemma_inherit_among(nodes.drop_last(), query, inherited, sessions);
        law_frames_without_target_inherit(nodes.last(), query, inherited, sessions);
    }
}

/// A tree and the session that gave it.
pub struct Answer {
    pub tree: NodeView,
    pub session_id: Seq<char>,
}

/// What the answers report, one after the other.
pub open spec fn answer_reports(answers: Seq<Answer>, sessions: Map<Seq<char>, Seq<char>>) -> Seq<Report>
    decreases answers.len(),
{
    if answers.len() == 0 {
        Seq::empty()
    } else {
        let last = answers.last();
        answer_reports(answers.drop_last(), sessions) + reports_in(
            last.tree,
            last.session_id,
            last.session_id,
            sessions,
        )
    }
}

/// Each report of a list of answers is a report of one of them, and the other way round.
proof fn lemma_reports_of_answers(answers: Seq<Answer>, sessions: Map<Seq<char>, Seq<char>>, report: Report)
    ensures
        answer_reports(answers, sessions).contains(report) <==> exists|i: int|
            0 <= i < answers.len() && reports_in(
                (#[trigger] answers[i]).tree,
                answers[i].session_id,
                answers[i].session_id,
                sessions,
            ).contains(report),
    decreases answers.len(),
{
    if answers.len() > 0 {
        let front = answers.drop_last();
        let last = answers.last();
        let before = answer_reports(front, sessions);
        let added = reports_in(last.tree, last.session_id, last.session_id, sessions);
        let all = answer_reports(answers, sessions);
        lemma_reports_of_answers(front, sessions, report);
        assert(forall|i: int| 0 <= i < front.len() ==> #[trigger] front[i] == answers[i]);
        assert(answers[answers.len() - 1] == last);
        if before.contains(report) {
            let i = choose|i: int| 0 <= i < before.len() && before[i] == report;
            assert(all[i] == report);
            let k = choose|k: int|
                0 <= k < front.len() && reports_in(
                    (#[trigger] front[k]).tree,
                    front[k].session_id,
                    front[k].session_id,
                    sessions,
                ).contains(report);
            assert(reports_in(answers[k].tree, answers[k].session_id, answers[k].session_id, sessions).contains(report));
        } else if added.contains(report) {
            let i = choose|i: int| 0 <= i < added.len() && added[i] == report;
            assert(all[before.len() + i] == report);
        } else {
            if all.contains(report) {
                let i = choose|i: int| 0 <= i < all.len() && all[i] == report;
                if i < before.len() {
                    assert(before[i] == report);
                } else {
                    assert(added[i - before.len()] == report);
                }
            }
            assert forall|k: int| 0 <= k < answers.len() implies !reports_in(
                (#[trigger] answers[k]).tree,
                answers[k].session_id,
                answers[k].session_id,
                sessions,
            ).contains(report) by {
                if k < front.len() {
                    assert(front[k] == answers[k]);
                }
            }
        }
    }
}

/// The same answers in another order bring the same reports.
pub proof fn law_reordered_answers_report_the_same(
    a: Seq<Answer>,
    b: Seq<Answer>,
    sessions: Map<Seq<char>, Seq<char>>,
)
    requires
        forall|answer: Answer| a.contains(answer) <==> b.contains(answer),
    ensures
        same_reports(answer_reports(a, sessions), answer_reports(b, sessions)),
{
    assert forall|report: Report|
        answer_reports(a, sessions).contains(report) == answer_reports(b, sessions).contains(report) by {
        lemma_reports_of_answers(a, sessions, report);
        lemma_reports_of_answers(b, sessions, report);
        if answer_reports(a, sessions).contains(report) {
            let i = choose|i: int|
                0 <= i < a.len() && reports_in(
                    (#[trigger] a[i]).tree,
                    a[i].session_id,
                    a[i].session_id,
                    sessions,
                ).contains(report);
            assert(a.contains(a[i]));
            let j = choose|j: int| 0 <= j < b.len() && b[j] == a[i];
            assert(reports_in(b[j].tree, b[j].session_id, b[j].session_id, sessions).contains(report));
        }
        if answer_reports(b, sessions).contains(report) {
            let i = choose|i: int|
                0 <= i < b.len() && reports_in(
                    (#[trigger] b[i]).tree,
                    b[i].session_id,
                    b[i].session_id,
                    sessions,
                ).contains(report);
            assert(b.contains(b[i]));
            let j = choose|j: int| 0 <= j < a.len() && a[j] == b[i];
            assert(reports_in(a[j].tree, a[j].session_id, a[j].session_id, sessions).contains(report));
        }
    }
}

/// The order in which sessions answer does not decide which frames belong to a tab.
pub proof fn law_answer_order_does_not_decide_membership(
    a: Seq<Answer>,
    b: Seq<Answer>,
    sessions: Map<Seq<char>, Seq<char>>,
    top_frame_id: Seq<char>,
)
    requires
        forall|answer: Answer| a.contains(answer) <==> b.contains(answer),
        forall|id: Seq<char>| #[trigger] parent_settled(answer_reports(a, sessions), id),
    ensures
        within_tab(merge_all(Map::empty(), answer_reports(a, sessions)), top_frame_id).dom() == within_tab(
            merge_all(Map::empty(), answer_reports(b, sessions)),
            top_frame_id,
        ).dom(),
{
    law_reordered_answers_report_the_same(a, b, sessions);
    law_query_order_does_not_decide_membership(
        answer_reports(a, sessions),
        answer_reports(b, sessions),
        top_frame_id,
    );
}

proof fn lemma_agreed_session(reports: Seq<Report>, frame_id: Seq<char>, session_id: Seq<char>)
    requires
        forall|i: int|
            0 <= i < reports.len() && (#[trigger] reports[i]).target.frame_id == frame_id
                ==> reports[i].target.session_id == session_id,
        merge_all(Map::empty(), reports).contains_key(frame_id),
    ensures
        merge_all(Map::empty(), reports)[frame_id].session_id == session_id,
    decreases reports.len(),
{
    let empty: Frames = Map::empty();
    if reports.len() > 0 {
        let front = reports.drop_last();
        assert(forall|i: int| 0 <= i < front.len() ==> #[trigger] front[i] == reports[i]);
        assert(reports[reports.len() - 1] == reports.last());
        if merge_all(empty, front).contains_key(frame_id) {
            lemma_agreed_session(front, frame_id, session_id);
        }
    }
}

/// Whatever the trees say, a frame with a target of its own comes out as running in that target's
/// session.
pub proof fn law_dedicated_session_wins(
    answers: Seq<Answer>,
    sessions: Map<Seq<char>, Seq<char>>,
    frame_id: Seq<char>,
)
    requires
        sessions.contains_key(frame_id),
        merge_all(Map::empty(), answer_reports(answers, sessions)).contains_key(frame_id),
    ensures
        merge_all(Map::empty(), answer_reports(answers, sessions))[frame_id].session_id == sessions[frame_id],
{
    let reports = answer_reports(answers, sessions);
    assert forall|i: int|
        0 <= i < reports.len() && (#[trigger] reports[i]).target.frame_id
            == frame_id implies reports[i].target.session_id == sessions[frame_id] by {
        let report = reports[i];
        assert(reports.contains(report));
        lemma_reports_of_answers(answers, sessions, report);
        let k = choose|k: int|
            0 <= k < answers.len() && reports_in(
                (#[trigger] answers[k]).tree,
                answers[k].session_id,
                answers[k].session_id,
                sessions,
            ).contains(report);
        let given = reports_in(answers[k].tree, answers[k].session_id, answers[k].session_id, sessions);
        let j = choose|j: int| 0 <= j < given.len() && given[j] == report;
        law_dedicated_session_is_reported(answers[k].tree, answers[k].session_id, sessions, j);
    }
    lemma_agreed_session(reports, frame_id, sessions[frame_id]);
}

} // verus!
