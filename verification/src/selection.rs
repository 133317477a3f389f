//! The selected frame as the browser's events change it.

use crate::cdp::{CdpEvent, EventView, LifecycleEvent};
use crate::element::{ContextView, EntryView, FrameContext, RefMap, Refs};
use crate::text::{optional_text, same_text, texts};
use crate::topology::{reaches, FrameTopology, TopologyView};
use vstd::prelude::*;

verus! {

/// The message for a selected frame that was removed.
pub const FRAME_GONE: &'static str =
    "Selected frame is no longer available. Run `frame main` or select the frame again.";

/// The message for a selected frame that has yet to be found again.
pub const FRAME_NOT_READY: &'static str = "Selected frame is not ready. Retry the command or run `frame main`.";

#[derive(Debug, Clone, Copy, PartialEq, Eq, Structural)]
pub enum SelectionStatus {
    /// The owning session and a default page context have been resolved.
    /// Application content may still be loading.
    Ready,
    /// A renderer swap or missing context needs another ownership check.
    Pending,
    /// The browsing frame was removed; matching HTML attributes cannot revive it.
    Removed,
}

impl Default for SelectionStatus {
    fn default() -> (status: Self)
        ensures
            status == SelectionStatus::Pending,
    {
        SelectionStatus::Pending
    }
}

/// The selected ID survives swaps; removal is sticky until explicit selection.
/// The last topology retains ancestry even after the browser removes the subtree.
#[derive(Debug)]
pub struct SelectedFrameState {
    pub status: SelectionStatus,
    pub topology: Option<FrameTopology>,
    /// Invalidates an absence observation if more lifecycle events arrive.
    pub revision: u64,
}

/// What a `SelectedFrameState` holds.
#[verifier::ext_equal]
pub struct StateView {
    pub status: SelectionStatus,
    pub topology: Option<TopologyView>,
    pub revision: u64,
}

impl View for SelectedFrameState {
    type V = StateView;

    open spec fn view(&self) -> StateView {
        StateView {
            status: self.status,
            topology: match self.topology {
                Some(topology) => Some(topology@),
                None => None,
            },
            revision: self.revision,
        }
    }
}

impl Default for SelectedFrameState {
    fn default() -> (state: Self)
        ensures
            state.status == SelectionStatus::Pending,
            state.topology is None,
            state.revision == 0,
    {
        SelectedFrameState { status: SelectionStatus::Pending, topology: None, revision: 0 }
    }
}

impl StateView {
    /// `frame_id` is `ancestor`, or lies below it in the recorded topology.
    pub open spec fn below(self, frame_id: Seq<char>, ancestor: Seq<char>) -> bool {
        frame_id == ancestor || (self.topology matches Some(topology) && reaches(topology.frames, frame_id, ancestor))
    }

    /// An event about `frame_id` from `session` concerns the tab of the selected frame. It comes
    /// from the session that executes the frame or, as the removal of a remote iframe is also
    /// reported by the renderer around it, from that of the frame's parent.
    pub open spec fn owns_event(self, selected: ContextView, frame_id: Seq<char>, session: Seq<char>) -> bool {
        ||| selected.frame_id == frame_id && selected.session_id == session
        ||| {
            &&& self.topology matches Some(topology)
            &&& topology.frames.contains_key(frame_id)
            &&& {
                let frame = topology.frames[frame_id];
                ||| (if selected.frame_id == frame_id {
                    selected.session_id
                } else {
                    frame.session_id
                }) == session
                ||| {
                    &&& frame.parent_id matches Some(parent_id)
                    &&& topology.frames.contains_key(parent_id)
                    &&& topology.frames[parent_id].session_id == session
                }
            }
        }
    }

    /// The document that the recorded topology has in `frame_id`.
    pub open spec fn recorded_loader(self, frame_id: Seq<char>) -> Option<Seq<char>> {
        match self.topology {
            Some(topology) => if topology.frames.contains_key(frame_id) {
                topology.frames[frame_id].loader_id
            } else {
                None
            },
            None => None,
        }
    }

    /// The refs without those in the document of `frame_id` and in the frames below it.
    pub open spec fn without_document(self, refs: Refs, frame_id: Seq<char>) -> Refs {
        Map::new(
            |id: Seq<char>|
                refs.contains_key(id) && !(refs[id].frame_id matches Some(at) && self.below(at, frame_id)),
            |id: Seq<char>| refs[id],
        )
    }
}

/// The state of the selection, the frame that is selected and the refs to elements.
#[verifier::ext_equal]
pub struct Selection {
    pub state: StateView,
    pub selected: ContextView,
    pub refs: Refs,
}

impl Selection {
    /// The session that the selected frame moves to: another one than it had has been attached to
    /// it as to an iframe, and it had not been removed.
    pub open spec fn moves_to(self, event: EventView) -> Option<Seq<char>> {
        match event {
            EventView::TargetAttached { kind, target_id, session_id: Some(session_id) } => if kind == Some(
                "iframe"@,
            ) && target_id == Some(self.selected.frame_id) && self.state.status != SelectionStatus::Removed
                && session_id != self.selected.session_id {
                Some(session_id)
            } else {
                None
            },
            _ => None,
        }
    }

    /// The frame whose document goes away: the selected one where it moves, one that leaves its
    /// renderer, or one that shows another document than the recorded one.
    pub open spec fn departed_frame(self, session: Seq<char>, event: EventView) -> Option<Seq<char>> {
        match event {
            EventView::TargetAttached { .. } => if self.moves_to(event) is Some {
                Some(self.selected.frame_id)
            } else {
                None
            },
            EventView::FrameDetached { frame_id: Some(frame_id), .. } => if self.state.owns_event(
                self.selected,
                frame_id,
                session,
            ) {
                Some(frame_id)
            } else {
                None
            },
            EventView::FrameNavigated { frame_id: Some(frame_id), loader_id: Some(loader_id) } => if self.state.owns_event(
                self.selected,
                frame_id,
                session,
            ) && self.state.recorded_loader(frame_id) != Some(loader_id) {
                Some(frame_id)
            } else {
                None
            },
            _ => None,
        }
    }

    /// The session that goes away.
    pub open spec fn departed_session(self, event: EventView) -> Option<Seq<char>> {
        match event {
            EventView::TargetDetached { session_id } => session_id,
            _ => None,
        }
    }

    /// The element goes away: its document does, or its session.
    pub open spec fn loses(self, entry: EntryView, session: Seq<char>, event: EventView) -> bool {
        ||| {
            &&& entry.frame_id matches Some(frame_id)
            &&& self.departed_frame(session, event) matches Some(departed)
            &&& self.state.below(frame_id, departed)
        }
        ||| {
            &&& self.departed_session(event) is Some
            &&& entry.session_id == self.departed_session(event)
        }
    }

    /// The selected frame has to be found again: its document goes away, or its session.
    pub open spec fn is_unsettled_by(self, session: Seq<char>, event: EventView) -> bool {
        ||| {
            &&& self.departed_frame(session, event) matches Some(departed)
            &&& self.state.below(self.selected.frame_id, departed)
        }
        ||| self.departed_session(event) == Some(self.selected.session_id)
    }

    /// What becomes of all this by an event from `session`.
    pub open spec fn after(self, session: Seq<char>, event: EventView) -> Selection {
        Selection {
            state: StateView {
                status: if self.state.status == SelectionStatus::Removed || !self.is_unsettled_by(session, event) {
                    self.state.status
                } else if is_removal(event) {
                    SelectionStatus::Removed
                } else {
                    SelectionStatus::Pending
                },
                topology: self.state.topology,
                revision: next_revision(self.state.revision),
            },
            selected: ContextView {
                frame_id: self.selected.frame_id,
                session_id: match self.moves_to(event) {
                    Some(session_id) => session_id,
                    None => self.selected.session_id,
                },
            },
            refs: Map::new(
                |id: Seq<char>| self.refs.contains_key(id) && !self.loses(self.refs[id], session, event),
                |id: Seq<char>| self.refs[id],
            ),
        }
    }
}

/// The frame left its renderer for good.
pub open spec fn is_removal(event: EventView) -> bool {
    event matches EventView::FrameDetached { reason, .. } && reason == Some("remove"@)
}

/// The revision after `revision`; the numbers start over after the greatest one.
pub open spec fn next_revision(revision: u64) -> u64 {
    if revision == u64::MAX {
        0
    } else {
        (revision + 1) as u64
    }
}

/// Whether an optional text is the given one.
fn is_text(text: &Option<String>, expected: &str) -> (is: bool)
    ensures
        is == (optional_text(*text) == Some(expected@)),
{
    match text {
        Some(t) => same_text(t.as_str(), expected),
        None => false,
    }
}

impl SelectedFrameState {
    fn below(&self, frame_id: &str, ancestor: &str) -> (below: bool)
        ensures
            below == self@.below(frame_id@, ancestor@),
    {
        same_text(frame_id, ancestor) || match &self.topology {
            Some(topology) => topology.contains_descendant(frame_id, ancestor),
            None => false,
        }
    }

    fn owns_event(&self, selected: &FrameContext, frame_id: &str, session: &str) -> (owns: bool)
        ensures
            owns == self@.owns_event(selected@, frame_id@, session@),
    {
        let is_selected = same_text(selected.frame_id.as_str(), frame_id);
        if is_selected && same_text(selected.session_id.as_str(), session) {
            return true;
        }
        let topology = match &self.topology {
            Some(topology) => topology,
            None => {
                return false;
            },
        };
        let frame = match topology.frames.get(frame_id) {
            Some(frame) => frame,
            None => {
                return false;
            },
        };
        // A remote iframe's removal is also reported by its parent renderer.
        let owner = if is_selected {
            &selected.session_id
        } else {
            &frame.session_id
        };
        if same_text(owner.as_str(), session) {
            return true;
        }
        match &frame.parent_id {
            Some(parent_id) => match topology.frames.get(parent_id.as_str()) {
                Some(parent) => same_text(parent.session_id.as_str(), session),
                None => false,
            },
            None => false,
        }
    }

    /// Drops refs in the departed document and its descendants. An iframe node belongs to its
    /// parent document, so a surviving parent-side ref can still be used to select the frame.
    pub fn invalidate_document(&self, refs: &mut RefMap, frame_id: &str)
        ensures
            final(refs)@ == self@.without_document(old(refs)@, frame_id@),
    {
        let ghost before = refs@;
        let ids = refs.ids();
        let mut i: usize = 0;
        while i < ids.len()
            invariant
                i <= ids@.len(),
                texts(ids@).no_duplicates(),
                forall|id: Seq<char>| texts(ids@).contains(id) <==> before.contains_key(id),
                forall|id: Seq<char>| #[trigger] refs@.contains_key(id) ==> before.contains_key(id) && refs@[id] == before[id],
                forall|j: int|
                    0 <= j < i ==> refs@.contains_key(#[trigger] texts(ids@)[j]) == self@.without_document(
                        before,
                        frame_id@,
                    ).contains_key(texts(ids@)[j]),
                forall|j: int| i <= j < ids@.len() ==> refs@.contains_key(#[trigger] texts(ids@)[j]),
            decreases ids@.len() - i,
        {
            let ghost listed = texts(ids@);
            assert(refs@.contains_key(listed[i as int]));
            assert(listed[i as int] == ids@[i as int]@);
            let departed = match refs.get(ids[i].as_str()) {
                Some(entry) => match &entry.frame_id {
                    Some(at) => self.below(at.as_str(), frame_id),
                    None => false,
                },
                None => false,
            };
            if departed {
                refs.remove(ids[i].as_str());
            }
            i = i + 1;
        }
        proof {
            assert forall|id: Seq<char>|
                refs@.contains_key(id) == self@.without_document(before, frame_id@).contains_key(id) by {
                if before.contains_key(id) {
                    assert(texts(ids@).contains(id));
                    let j = choose|j: int| 0 <= j < ids@.len() && texts(ids@)[j] == id;
                    assert(refs@.contains_key(texts(ids@)[j]) == self@.without_document(before, frame_id@).contains_key(
                        texts(ids@)[j],
                    ));
                }
            }
            assert(refs@ =~= self@.without_document(before, frame_id@));
        }
    }

    /// Consumes what an event from `session` tells of frames, in wire order. Events from other tabs
    /// cannot match this selection's recorded ancestry.
    pub fn apply_lifecycle(
        &mut self,
        selected: &mut FrameContext,
        refs: &mut RefMap,
        session: &str,
        event: &LifecycleEvent,
    )
        ensures
            final(self).topology == old(self).topology,
            (Selection { state: final(self)@, selected: final(selected)@, refs: final(refs)@ }) == (Selection {
                state: old(self)@,
                selected: old(selected)@,
                refs: old(refs)@,
            }).after(session@, event@),
    {
        let ghost before = Selection { state: self@, selected: selected@, refs: refs@ };
        self.revision = self.revision.wrapping_add(1);
        match event {
            LifecycleEvent::TargetAttached { kind, target_id, session_id } => {
                if is_text(kind, "iframe") && is_text(target_id, selected.frame_id.as_str()) {
                    if let Some(sid) = session_id {
                        if self.status != SelectionStatus::Removed && !same_text(
                            selected.session_id.as_str(),
                            sid.as_str(),
                        ) {
                            self.invalidate_document(refs, selected.frame_id.as_str());
                            selected.session_id = sid.clone();
                            self.status = SelectionStatus::Pending;
                        }
                    }
                }
            },
            LifecycleEvent::TargetDetached { session_id } => {
                if let Some(sid) = session_id {
                    drop_session_refs(refs, sid.as_str());
                    if self.status != SelectionStatus::Removed && same_text(
                        selected.session_id.as_str(),
                        sid.as_str(),
                    ) {
                        self.status = SelectionStatus::Pending;
                    }
                }
            },
            LifecycleEvent::FrameDetached { frame_id, reason } => {
                if let Some(id) = frame_id {
                    if self.owns_event(selected, id.as_str(), session) {
                        self.invalidate_document(refs, id.as_str());
                        if self.below(selected.frame_id.as_str(), id.as_str()) && self.status
                            != SelectionStatus::Removed {
                            self.status = if is_text(reason, "remove") {
                                SelectionStatus::Removed
                            } else {
                                SelectionStatus::Pending
                            };
                        }
                    }
                }
            },
            LifecycleEvent::FrameNavigated { frame_id, loader_id } => {
                if let Some(id) = frame_id {
                    if self.owns_event(selected, id.as_str(), session) {
                        if self.shows_another_document(id.as_str(), loader_id) {
                            self.invalidate_document(refs, id.as_str());
                            if self.below(selected.frame_id.as_str(), id.as_str()) && self.status
                                != SelectionStatus::Removed {
                                self.status = SelectionStatus::Pending;
                            }
                        }
                    }
                }
            },
            LifecycleEvent::Other => {},
        }
        assert(refs@ =~= before.after(session@, event@).refs);
    }

    /// Whether a document is named, and is not the one recorded for the frame.
    fn shows_another_document(&self, frame_id: &str, loader_id: &Option<String>) -> (another: bool)
        ensures
            another == (optional_text(*loader_id) is Some && self@.recorded_loader(frame_id@) != optional_text(
                *loader_id,
            )),
    {
        let loader = match loader_id {
            Some(loader) => loader,
            None => {
                return false;
            },
        };
        match &self.topology {
            Some(topology) => match topology.frames.get(frame_id) {
                Some(frame) => !is_text(&frame.loader_id, loader.as_str()),
                None => true,
            },
            None => true,
        }
    }

    /// Consumes an event before diagnostic filtering, in wire order. Events from other tabs cannot
    /// match this selection's recorded ancestry.
    pub fn apply_event(&mut self, selected: &mut FrameContext, refs: &mut RefMap, event: &CdpEvent)
        ensures
            final(self).topology == old(self).topology,
            (Selection { state: final(self)@, selected: final(selected)@, refs: final(refs)@ }) == (Selection {
                state: old(self)@,
                selected: old(selected)@,
                refs: old(refs)@,
            }).after(event.origin(), event.told()),
    {
        let told = event.lifecycle_event();
        match &event.session_id {
            Some(session) => {
                self.apply_lifecycle(selected, refs, session.as_str(), &told);
            },
            None => {
                let nobody = String::new();
                self.apply_lifecycle(selected, refs, nobody.as_str(), &told);
            },
        }
    }
}

/// Drops the refs to elements that were found in a session.
fn drop_session_refs(refs: &mut RefMap, session_id: &str)
    ensures
        final(refs)@ == without_session(old(refs)@, session_id@),
{
    let ghost before = refs@;
    let ids = refs.ids();
    let mut i: usize = 0;
    while i < ids.len()
        invariant
            i <= ids@.len(),
            texts(ids@).no_duplicates(),
            forall|id: Seq<char>| texts(ids@).contains(id) <==> before.contains_key(id),
            forall|id: Seq<char>| #[trigger] refs@.contains_key(id) ==> before.contains_key(id) && refs@[id] == before[id],
            forall|j: int|
                0 <= j < i ==> refs@.contains_key(#[trigger] texts(ids@)[j]) == without_session(
                    before,
                    session_id@,
                ).contains_key(texts(ids@)[j]),
            forall|j: int| i <= j < ids@.len() ==> refs@.contains_key(#[trigger] texts(ids@)[j]),
        decreases ids@.len() - i,
    {
        let ghost listed = texts(ids@);
        assert(refs@.contains_key(listed[i as int]));
        assert(listed[i as int] == ids@[i as int]@);
        let departed = match refs.get(ids[i].as_str()) {
            Some(entry) => is_text(&entry.session_id, session_id),
            None => false,
        };
        if departed {
            refs.remove(ids[i].as_str());
        }
        i = i + 1;
    }
    proof {
        assert forall|id: Seq<char>|
            refs@.contains_key(id) == without_session(before, session_id@).contains_key(id) by {
            if before.contains_key(id) {
                assert(texts(ids@).contains(id));
                let j = choose|j: int| 0 <= j < ids@.len() && texts(ids@)[j] == id;
                assert(refs@.contains_key(texts(ids@)[j]) == without_session(before, session_id@).contains_key(
                    texts(ids@)[j],
                ));
            }
        }
        assert(refs@ =~= without_session(before, session_id@));
    }
}

/// The refs without those to elements that were found in the session.
pub open spec fn without_session(refs: Refs, session_id: Seq<char>) -> Refs {
    Map::new(
        |id: Seq<char>| refs.contains_key(id) && refs[id].session_id != Some(session_id),
        |id: Seq<char>| refs[id],
    )
}

} // verus!
