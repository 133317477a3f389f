//! What each kind of event does to a selection, told by the parts of the event, the recorded frames
//! and the refs.

use crate::cdp::EventView;
use crate::element::{FrameContext, RefEntry, Refs};
use crate::selection::{SelectedFrameState, Selection, SelectionStatus, StateView};
use crate::topology::{law_frame_descends_from_itself, reaches, TopologyView};
use vstd::prelude::*;

verus! {

/// Every event, of whatever kind and from whatever session, raises the revision by one, or starts it
/// over after the greatest one. None changes the selected ID, the recorded topology or a ref that is
/// left, and none adds a ref.
pub proof fn law_every_event_is_noted(selection: Selection, session: Seq<char>, event: EventView)
    ensures
        selection.state.revision < u64::MAX ==> selection.after(session, event).state.revision
            == selection.state.revision + 1,
        selection.state.revision == u64::MAX ==> selection.after(session, event).state.revision == 0,
        selection.after(session, event).state.topology == selection.state.topology,
        selection.after(session, event).selected.frame_id == selection.selected.frame_id,
        selection.after(session, event).refs.submap_of(selection.refs),
{
}

/// When a session is attached to the selected frame as to an iframe, the selection is bound to that
/// session, ready or pending as it may be. If it is another session than before, the selection is
/// pending and the refs in the selected frame and below it are gone, and no others; if it is the
/// same, nothing else changes. The session that reports it does not matter.
pub proof fn law_attached_session_is_taken(
    selection: Selection,
    session: Seq<char>,
    session_id: Seq<char>,
    after: Selection,
)
    requires
        selection.state.status != SelectionStatus::Removed,
        after == selection.after(
            session,
            EventView::TargetAttached {
                kind: Some("iframe"@),
                target_id: Some(selection.selected.frame_id),
                session_id: Some(session_id),
            },
        ),
    ensures
        after.selected.session_id == session_id,
        session_id != selection.selected.session_id ==> after.state.status == SelectionStatus::Pending,
        session_id != selection.selected.session_id ==> forall|id: Seq<char>| #[trigger]
            after.refs.contains_key(id) <==> selection.refs.contains_key(id) && !(selection.refs[id].frame_id matches Some(
                at,
            ) && (at == selection.selected.frame_id || (selection.state.topology matches Some(topology) && reaches(
                topology.frames,
                at,
                selection.selected.frame_id,
            )))),
        forall|id: Seq<char>| #[trigger] after.refs.contains_key(id) ==> after.refs[id] == selection.refs[id],
        session_id == selection.selected.session_id ==> after.state.status == selection.state.status,
        session_id == selection.selected.session_id ==> after.refs == selection.refs,
{
    if session_id == selection.selected.session_id {
        assert(after.refs =~= selection.refs);
    }
}

/// A session that is attached to something else, or not as to an iframe, or to a frame that was
/// removed, changes nothing, and neither does one that is not named.
pub proof fn law_other_attachments_change_nothing(
    selection: Selection,
    session: Seq<char>,
    kind: Option<Seq<char>>,
    target_id: Option<Seq<char>>,
    session_id: Option<Seq<char>>,
    after: Selection,
)
    requires
        selection.state.status == SelectionStatus::Removed || kind != Some("iframe"@) || target_id != Some(
            selection.selected.frame_id,
        ) || session_id is None,
        after == selection.after(session, EventView::TargetAttached { kind, target_id, session_id }),
    ensures
        after.state.status == selection.state.status,
        after.selected == selection.selected,
        after.refs == selection.refs,
{
    assert(after.refs =~= selection.refs);
}

/// When a session is detached, the refs to its elements are gone, and no others. The selection is
/// pending if it was bound to that session and was not removed, and is as it was otherwise.
pub proof fn law_detached_session_takes_its_refs(
    selection: Selection,
    session: Seq<char>,
    session_id: Seq<char>,
    after: Selection,
)
    requires
        after == selection.after(session, EventView::TargetDetached { session_id: Some(session_id) }),
    ensures
        after.selected == selection.selected,
        after.state.status == if selection.state.status != SelectionStatus::Removed && selection.selected.session_id
            == session_id {
            SelectionStatus::Pending
        } else {
            selection.state.status
        },
        forall|id: Seq<char>| #[trigger]
            after.refs.contains_key(id) <==> selection.refs.contains_key(id) && !(selection.refs[id].session_id matches Some(
                found_in,
            ) && found_in == session_id),
        forall|id: Seq<char>| #[trigger] after.refs.contains_key(id) ==> after.refs[id] == selection.refs[id],
{
}

/// Events that name no frame or no session, and those that tell nothing of frames, change nothing.
pub proof fn law_nameless_events_change_nothing(
    selection: Selection,
    session: Seq<char>,
    event: EventView,
    after: Selection,
)
    requires
        match event {
            EventView::TargetAttached { session_id, .. } => session_id is None,
            EventView::TargetDetached { session_id } => session_id is None,
            EventView::FrameDetached { frame_id, .. } => frame_id is None,
            EventView::FrameNavigated { frame_id, loader_id } => frame_id is None || loader_id is None,
            EventView::Other => true,
        },
        after == selection.after(session, event),
    ensures
        after.state.status == selection.state.status,
        after.selected == selection.selected,
        after.refs == selection.refs,
{
    assert(after.refs =~= selection.refs);
}

/// A frame that leaves its renderer takes the refs in it and below it, and no others, whether the
/// session that executes it reports this or the one that its parent is recorded in. For the selected
/// frame the session that executes it is the one that the selection is bound to; for another one it
/// is the recorded one. If the frame is the selected one or around it, and that was not removed, it
/// counts as removed for the reason `remove`, and as pending for any other.
pub proof fn law_detached_frame_takes_its_refs(
    selection: Selection,
    session: Seq<char>,
    frame_id: Seq<char>,
    reason: Option<Seq<char>>,
    after: Selection,
)
    requires
        ({
            ||| selection.selected.frame_id == frame_id && selection.selected.session_id == session
            ||| {
                &&& selection.selected.frame_id != frame_id
                &&& selection.state.topology matches Some(topology)
                &&& topology.frames.contains_key(frame_id)
                &&& topology.frames[frame_id].session_id == session
            }
            ||| {
                &&& selection.state.topology matches Some(topology)
                &&& topology.frames.contains_key(frame_id)
                &&& topology.frames[frame_id].parent_id matches Some(parent_id)
                &&& topology.frames.contains_key(parent_id)
                &&& topology.frames[parent_id].session_id == session
            }
        }),
        after == selection.after(session, EventView::FrameDetached { frame_id: Some(frame_id), reason }),
    ensures
        after.selected == selection.selected,
        after.state.status == if selection.state.status == SelectionStatus::Removed || !(selection.selected.frame_id == frame_id || (selection.state.topology matches Some(topology) && reaches(
            topology.frames,
            selection.selected.frame_id,
            frame_id,
        ))) {
            selection.state.status
        } else if reason == Some("remove"@) {
            SelectionStatus::Removed
        } else {
            SelectionStatus::Pending
        },
        forall|id: Seq<char>| #[trigger]
            after.refs.contains_key(id) <==> selection.refs.contains_key(id) && !(selection.refs[id].frame_id matches Some(
                at,
            ) && (at == frame_id || (selection.state.topology matches Some(topology) && reaches(
                topology.frames,
                at,
                frame_id,
            )))),
        forall|id: Seq<char>| #[trigger] after.refs.contains_key(id) ==> after.refs[id] == selection.refs[id],
{
}

/// The parent's session is heard on the selected frame too: a report from there that it was removed
/// removes the selection, and any other reason leaves it pending. No ref in the frame or below it is
/// left.
pub proof fn law_parent_reports_the_selected_frame(
    selection: Selection,
    topology: TopologyView,
    parent_id: Seq<char>,
    reason: Option<Seq<char>>,
    after: Selection,
)
    requires
        selection.state.topology == Some(topology),
        selection.state.status != SelectionStatus::Removed,
        topology.frames.contains_key(selection.selected.frame_id),
        topology.frames[selection.selected.frame_id].parent_id == Some(parent_id),
        topology.frames.contains_key(parent_id),
        after == selection.after(
            topology.frames[parent_id].session_id,
            EventView::FrameDetached { frame_id: Some(selection.selected.frame_id), reason },
        ),
    ensures
        reason == Some("remove"@) ==> after.state.status == SelectionStatus::Removed,
        reason != Some("remove"@) ==> after.state.status == SelectionStatus::Pending,
        forall|id: Seq<char>| #[trigger]
            after.refs.contains_key(id) && after.refs[id].frame_id is Some ==> !reaches(
                topology.frames,
                after.refs[id].frame_id->0,
                selection.selected.frame_id,
            ),
{
    law_detached_frame_takes_its_refs(
        selection,
        topology.frames[parent_id].session_id,
        selection.selected.frame_id,
        reason,
        after,
    );
}

/// A session that executes neither the frame nor its parent is not heard when it reports that the
/// frame left its renderer.
pub proof fn law_strangers_detach_nothing(
    selection: Selection,
    session: Seq<char>,
    frame_id: Seq<char>,
    reason: Option<Seq<char>>,
    after: Selection,
)
    requires
        selection.selected.frame_id == frame_id ==> selection.selected.session_id != session,
        selection.state.topology matches Some(topology) ==> topology.frames.contains_key(frame_id) ==> {
            &&& selection.selected.frame_id != frame_id ==> topology.frames[frame_id].session_id != session
            &&& topology.frames[frame_id].parent_id matches Some(parent_id) ==> topology.frames.contains_key(parent_id)
                ==> topology.frames[parent_id].session_id != session
        },
        after == selection.after(session, EventView::FrameDetached { frame_id: Some(frame_id), reason }),
    ensures
        after.state.status == selection.state.status,
        after.selected == selection.selected,
        after.refs == selection.refs,
{
    assert(after.refs =~= selection.refs);
}

/// A frame that shows another document than the recorded one takes the refs in it and below it, and
/// no others, whatever the status of the selection is, and whether the session that executes the
/// frame reports this or the one that its parent is recorded in. If the frame is the selected one or
/// around it, and that was not removed, the selection is pending.
pub proof fn law_other_document_takes_its_refs(
    selection: Selection,
    session: Seq<char>,
    frame_id: Seq<char>,
    loader_id: Seq<char>,
    after: Selection,
)
    requires
        ({
            ||| selection.selected.frame_id == frame_id && selection.selected.session_id == session
            ||| {
                &&& selection.selected.frame_id != frame_id
                &&& selection.state.topology matches Some(topology)
                &&& topology.frames.contains_key(frame_id)
                &&& topology.frames[frame_id].session_id == session
            }
            ||| {
                &&& selection.state.topology matches Some(topology)
                &&& topology.frames.contains_key(frame_id)
                &&& topology.frames[frame_id].parent_id matches Some(parent_id)
                &&& topology.frames.contains_key(parent_id)
                &&& topology.frames[parent_id].session_id == session
            }
        }),
        !(selection.state.topology matches Some(topology) && topology.frames.contains_key(frame_id)
            && topology.frames[frame_id].loader_id == Some(loader_id)),
        after == selection.after(
            session,
            EventView::FrameNavigated { frame_id: Some(frame_id), loader_id: Some(loader_id) },
        ),
    ensures
        after.selected == selection.selected,
        after.state.status == if selection.state.status == SelectionStatus::Removed || !(selection.selected.frame_id == frame_id || (selection.state.topology matches Some(topology) && reaches(
            topology.frames,
            selection.selected.frame_id,
            frame_id,
        ))) {
            selection.state.status
        } else {
            SelectionStatus::Pending
        },
        forall|id: Seq<char>| #[trigger]
            after.refs.contains_key(id) <==> selection.refs.contains_key(id) && !(selection.refs[id].frame_id matches Some(
                at,
            ) && (at == frame_id || (selection.state.topology matches Some(topology) && reaches(
                topology.frames,
                at,
                frame_id,
            )))),
        forall|id: Seq<char>| #[trigger] after.refs.contains_key(id) ==> after.refs[id] == selection.refs[id],
{
}

/// A frame that shows the recorded document changes nothing, whoever reports it, and a session that
/// executes neither the frame nor its parent is not heard whatever document it reports.
pub proof fn law_known_document_changes_nothing(
    selection: Selection,
    session: Seq<char>,
    frame_id: Seq<char>,
    loader_id: Seq<char>,
    after: Selection,
)
    requires
        ({
            ||| {
                &&& selection.state.topology matches Some(topology)
                &&& topology.frames.contains_key(frame_id)
                &&& topology.frames[frame_id].loader_id == Some(loader_id)
            }
            ||| {
                &&& selection.selected.frame_id == frame_id ==> selection.selected.session_id != session
                &&& selection.state.topology matches Some(topology) ==> topology.frames.contains_key(frame_id) ==> {
                    &&& selection.selected.frame_id != frame_id ==> topology.frames[frame_id].session_id != session
                    &&& topology.frames[frame_id].parent_id matches Some(parent_id) ==> topology.frames.contains_key(
                        parent_id,
                    ) ==> topology.frames[parent_id].session_id != session
                }
            }
        }),
        after == selection.after(
            session,
            EventView::FrameNavigated { frame_id: Some(frame_id), loader_id: Some(loader_id) },
        ),
    ensures
        after.state.status == selection.state.status,
        after.selected == selection.selected,
        after.refs == selection.refs,
{
    assert(after.refs =~= selection.refs);
}

/// After a swap the selected frame is pending, and a session that is attached to it then is taken:
/// being told first that the frame goes on elsewhere and then where leaves the selection bound to
/// the new session.
pub proof fn law_swap_then_attachment_is_followed(
    selection: Selection,
    reason: Option<Seq<char>>,
    from: Seq<char>,
    session_id: Seq<char>,
)
    requires
        selection.state.status != SelectionStatus::Removed,
        reason != Some("remove"@),
    ensures
        ({
            let swapped = selection.after(
                selection.selected.session_id,
                EventView::FrameDetached { frame_id: Some(selection.selected.frame_id), reason },
            );
            let attached = swapped.after(
                from,
                EventView::TargetAttached {
                    kind: Some("iframe"@),
                    target_id: Some(selection.selected.frame_id),
                    session_id: Some(session_id),
                },
            );
            &&& swapped.state.status == SelectionStatus::Pending
            &&& attached.state.status == SelectionStatus::Pending
            &&& attached.selected.frame_id == selection.selected.frame_id
            &&& attached.selected.session_id == session_id
        }),
{
}

/// Dropping a document drops the refs in its frame and in the frames below it in the recorded
/// topology, and leaves every other ref as it is; refs in no frame are left.
pub proof fn law_dropped_document_takes_its_refs(
    state: StateView,
    refs: Refs,
    frame_id: Seq<char>,
    id: Seq<char>,
)
    ensures
        refs.contains_key(id) && refs[id].frame_id is None ==> state.without_document(refs, frame_id).contains_key(id),
        refs.contains_key(id) && refs[id].frame_id == Some(frame_id) ==> !state.without_document(
            refs,
            frame_id,
        ).contains_key(id),
        state.topology matches Some(topology) ==> refs.contains_key(id) && refs[id].frame_id is Some ==> (
        state.without_document(refs, frame_id).contains_key(id) <==> !reaches(
            topology.frames,
            refs[id].frame_id->0,
            frame_id,
        )),
        state.topology is None ==> refs.contains_key(id) && refs[id].frame_id != Some(frame_id)
            ==> state.without_document(refs, frame_id).contains_key(id),
        state.without_document(refs, frame_id).contains_key(id) ==> refs.contains_key(id) && state.without_document(
            refs,
            frame_id,
        )[id] == refs[id],
{
    if let Some(topology) = state.topology {
        law_frame_descends_from_itself(topology.frames, frame_id);
    }
}

/// A state, a selected frame and an element are seen as their parts are.
pub proof fn law_selection_is_its_parts(state: SelectedFrameState, selected: FrameContext, entry: RefEntry)
    ensures
        state@.status == state.status,
        state@.revision == state.revision,
        state.topology matches Some(topology) ==> state@.topology == Some(topology@),
        state.topology is None ==> state@.topology is None,
        selected@.frame_id == selected.frame_id@,
        selected@.session_id == selected.session_id@,
        entry@.backend_node_id == entry.backend_node_id,
        entry@.role == entry.role@,
        entry@.name == entry.name@,
        entry@.nth == entry.nth,
        entry.frame_id matches Some(frame_id) ==> entry@.frame_id == Some(frame_id@),
        entry.frame_id is None ==> entry@.frame_id is None,
        entry.session_id matches Some(session_id) ==> entry@.session_id == Some(session_id@),
        entry.session_id is None ==> entry@.session_id is None,
{
}

} // verus!
