//! What holds of a selection whatever events arrive.

use crate::cdp::EventView;
use crate::element::Refs;
use crate::selection::{is_removal, next_revision, Selection, SelectionStatus, StateView};
use crate::topology::{law_frame_descends_from_itself, law_parent_is_not_below_its_child, parent_of, reaches, TopologyView};
use vstd::prelude::*;

verus! {

/// An event and the session that it came from.
pub struct Arrival {
    pub session: Seq<char>,
    pub event: EventView,
}

/// The selection after the events have arrived, in their order.
pub open spec fn after_all(selection: Selection, arrivals: Seq<Arrival>) -> Selection
    decreases arrivals.len(),
{
    if arrivals.len() == 0 {
        selection
    } else {
        after_all(selection, arrivals.drop_last()).after(arrivals.last().session, arrivals.last().event)
    }
}

/// The selection as it was, but for the revision.
pub open spec fn only_noted(selection: Selection) -> Selection {
    Selection {
        state: StateView { revision: next_revision(selection.state.revision), ..selection.state },
        ..selection
    }
}

/// A removed frame stays removed, and is not bound to another session, whatever events arrive.
pub proof fn law_removal_is_sticky(selection: Selection, arrivals: Seq<Arrival>)
    requires
        selection.state.status == SelectionStatus::Removed,
    ensures
        after_all(selection, arrivals).state.status == SelectionStatus::Removed,
        after_all(selection, arrivals).selected == selection.selected,
    decreases arrivals.len(),
{
    if arrivals.len() > 0 {
        law_removal_is_sticky(selection, arrivals.drop_last());
    }
}

/// The selected frame ID and the recorded topology survive whatever events arrive.
pub proof fn law_selected_frame_survives(selection: Selection, arrivals: Seq<Arrival>)
    ensures
        after_all(selection, arrivals).selected.frame_id == selection.selected.frame_id,
        after_all(selection, arrivals).state.topology == selection.state.topology,
    decreases arrivals.len(),
{
    if arrivals.len() > 0 {
        law_selected_frame_survives(selection, arrivals.drop_last());
    }
}

/// Events drop refs and do nothing else to them: a ref that is left refers to the same node of the
/// same session as before.
pub proof fn law_refs_are_never_rebound(selection: Selection, arrivals: Seq<Arrival>)
    ensures
        after_all(selection, arrivals).refs.submap_of(selection.refs),
    decreases arrivals.len(),
{
    if arrivals.len() > 0 {
        law_refs_are_never_rebound(selection, arrivals.drop_last());
        let before = after_all(selection, arrivals.drop_last());
        assert(after_all(selection, arrivals).refs.submap_of(before.refs));
    }
}

/// No event makes a selection ready that was not.
pub proof fn law_events_never_make_ready(selection: Selection, arrivals: Seq<Arrival>)
    requires
        after_all(selection, arrivals).state.status == SelectionStatus::Ready,
    ensures
        selection.state.status == SelectionStatus::Ready,
    decreases arrivals.len(),
{
    if arrivals.len() > 0 {
        law_events_never_make_ready(selection, arrivals.drop_last());
    }
}

/// The revision counts the events, modulo the range of its type.
pub proof fn law_revision_counts_events(selection: Selection, arrivals: Seq<Arrival>)
    ensures
        after_all(selection, arrivals).state.revision == (selection.state.revision + arrivals.len()) % 0x1_0000_0000_0000_0000,
    decreases arrivals.len(),
{
    let range: int = 0x1_0000_0000_0000_0000;
    if arrivals.len() > 0 {
        law_revision_counts_events(selection, arrivals.drop_last());
        let before = selection.state.revision + arrivals.len() - 1;
        assert(next_revision((before % range) as u64) == (before + 1) % range);
    } else {
        assert(selection.state.revision == selection.state.revision as int % range);
    }
}

/// An observation is out of date once events have arrived: fewer than the range of the revision
/// cannot bring it back to what it was.
pub proof fn law_events_change_the_revision(selection: Selection, arrivals: Seq<Arrival>)
    requires
        0 < arrivals.len() < 0x1_0000_0000_0000_0000,
    ensures
        after_all(selection, arrivals).state.revision != selection.state.revision,
{
    law_revision_counts_events(selection, arrivals);
}

/// The session executes neither the selected frame nor one of the recorded topology.
pub open spec fn is_foreign_session(selection: Selection, session: Seq<char>) -> bool {
    &&& session != selection.selected.session_id
    &&& selection.state.topology matches Some(topology) ==> forall|id: Seq<char>| #[trigger]
        topology.frames.contains_key(id) ==> topology.frames[id].session_id != session
}

/// The frame is neither selected nor recorded in the topology.
pub open spec fn is_foreign_frame(selection: Selection, frame_id: Seq<char>) -> bool {
    &&& frame_id != selection.selected.frame_id
    &&& selection.state.topology matches Some(topology) ==> !topology.frames.contains_key(frame_id)
}

/// The event is about another tab: another target was attached, a session was detached that neither
/// the selected frame nor a ref is bound to, or something happened to an unknown frame or in an
/// unknown session.
pub open spec fn is_of_another_tab(selection: Selection, session: Seq<char>, event: EventView) -> bool {
    match event {
        EventView::TargetAttached { target_id, .. } => target_id != Some(selection.selected.frame_id),
        EventView::TargetDetached { session_id } => {
            &&& session_id != Some(selection.selected.session_id)
            &&& forall|id: Seq<char>| #[trigger]
                selection.refs.contains_key(id) && selection.refs[id].session_id is Some
                    ==> selection.refs[id].session_id != session_id
        },
        EventView::FrameDetached { frame_id, .. } => frame_id matches Some(id) ==> is_foreign_frame(
            selection,
            id,
        ) || is_foreign_session(selection, session),
        EventView::FrameNavigated { frame_id, .. } => frame_id matches Some(id) ==> is_foreign_frame(
            selection,
            id,
        ) || is_foreign_session(selection, session),
        EventView::Other => true,
    }
}

/// Events of other tabs change nothing but the revision.
pub proof fn law_other_tabs_change_nothing(selection: Selection, session: Seq<char>, event: EventView)
    requires
        is_of_another_tab(selection, session, event),
    ensures
        selection.after(session, event) == only_noted(selection),
{
    assert(selection.after(session, event).refs =~= selection.refs);
}

/// A frame that shows the recorded document, or none that is named, keeps its refs and its status.
pub proof fn law_same_document_changes_nothing(
    selection: Selection,
    session: Seq<char>,
    frame_id: Seq<char>,
    loader_id: Option<Seq<char>>,
)
    requires
        loader_id is None || loader_id == selection.state.recorded_loader(frame_id),
    ensures
        selection.after(session, EventView::FrameNavigated { frame_id: Some(frame_id), loader_id }) == only_noted(
            selection,
        ),
{
    let event = EventView::FrameNavigated { frame_id: Some(frame_id), loader_id };
    assert(selection.after(session, event).refs =~= selection.refs);
}

/// When a frame around the selected one, or the selected one itself, leaves its renderer, the
/// selection is removed if the frame was, and pending if it goes on elsewhere.
pub proof fn law_removal_and_swap_differ(
    selection: Selection,
    session: Seq<char>,
    frame_id: Seq<char>,
    reason: Option<Seq<char>>,
)
    requires
        selection.state.status != SelectionStatus::Removed,
        selection.state.owns_event(selection.selected, frame_id, session),
        selection.state.below(selection.selected.frame_id, frame_id),
    ensures
        selection.after(session, EventView::FrameDetached { frame_id: Some(frame_id), reason }).state.status
            == if reason == Some("remove"@) {
            SelectionStatus::Removed
        } else {
            SelectionStatus::Pending
        },
{
    assert(is_removal(EventView::FrameDetached { frame_id: Some(frame_id), reason }) == (reason == Some("remove"@)));
}

/// When the selected frame moves to another session, the selection follows it there, is pending,
/// and keeps no ref to an element of the frame or of a frame below it.
pub proof fn law_moving_frame_is_followed(
    selection: Selection,
    session: Seq<char>,
    event: EventView,
    session_id: Seq<char>,
)
    requires
        selection.moves_to(event) == Some(session_id),
    ensures
        selection.after(session, event).selected.session_id == session_id,
        selection.after(session, event).state.status == SelectionStatus::Pending,
        selection.after(session, event).refs == selection.state.without_document(
            selection.refs,
            selection.selected.frame_id,
        ),
{
    assert(selection.after(session, event).refs =~= selection.state.without_document(
        selection.refs,
        selection.selected.frame_id,
    ));
}

/// Being told twice where the selected frame moved to changes nothing but the revision.
pub proof fn law_moving_once_is_enough(
    selection: Selection,
    session: Seq<char>,
    event: EventView,
    again: Seq<char>,
)
    requires
        selection.moves_to(event) is Some,
    ensures
        selection.after(session, event).after(again, event) == only_noted(selection.after(session, event)),
{
    let moved = selection.after(session, event);
    assert(moved.after(again, event).refs =~= moved.refs);
}

/// An iframe's node belongs to the document around it. A ref there outlives the iframe's document,
/// so that the frame can be selected again through it.
pub proof fn law_parent_side_ref_survives(
    state: StateView,
    refs: Refs,
    topology: TopologyView,
    id: Seq<char>,
    frame_id: Seq<char>,
    parent_id: Seq<char>,
)
    requires
        state.topology == Some(topology),
        parent_of(topology.frames, frame_id) == Some(parent_id),
        reaches(topology.frames, frame_id, topology.top_frame_id),
        parent_of(topology.frames, topology.top_frame_id) is None,
        refs.contains_key(id),
        refs[id].frame_id == Some(parent_id),
    ensures
        state.without_document(refs, frame_id).contains_key(id),
        state.without_document(refs, frame_id)[id] == refs[id],
{
    law_parent_is_not_below_its_child(topology.frames, frame_id, parent_id, topology.top_frame_id);
    law_frame_descends_from_itself(topology.frames, frame_id);
}

/// When a document goes away, the refs in it and in the frames below it go, and no others.
pub proof fn law_departure_takes_its_refs_only(
    selection: Selection,
    session: Seq<char>,
    event: EventView,
    departed: Seq<char>,
)
    requires
        selection.departed_frame(session, event) == Some(departed),
    ensures
        selection.after(session, event).refs == selection.state.without_document(selection.refs, departed),
{
    assert(selection.after(session, event).refs =~= selection.state.without_document(selection.refs, departed));
}

/// No ref is left in a document that went away, nor in the frames below it.
pub proof fn law_departed_refs_are_gone(
    selection: Selection,
    session: Seq<char>,
    event: EventView,
    departed: Seq<char>,
    frame_id: Seq<char>,
    id: Seq<char>,
)
    requires
        selection.departed_frame(session, event) == Some(departed),
        selection.state.below(frame_id, departed),
        selection.after(session, event).refs.contains_key(id),
    ensures
        selection.after(session, event).refs[id].frame_id != Some(frame_id),
{
}

} // verus!
