//! The selected frame and the refs to elements in its documents.

use crate::string_map::StringMap;
use crate::text::{optional_text, texts};
use vstd::prelude::*;

verus! {

/// A browsing frame and the session that executes it.
#[derive(Debug)]
pub struct FrameContext {
    pub frame_id: String,
    pub session_id: String,
}

/// What a `FrameContext` holds.
#[verifier::ext_equal]
pub struct ContextView {
    pub frame_id: Seq<char>,
    pub session_id: Seq<char>,
}

impl View for FrameContext {
    type V = ContextView;

    open spec fn view(&self) -> ContextView {
        ContextView { frame_id: self.frame_id@, session_id: self.session_id@ }
    }
}

/// The frame and the session that an element was found in.
#[derive(Debug)]
pub struct RefContext<'a> {
    pub frame_id: Option<&'a str>,
    pub session_id: Option<&'a str>,
}

/// An element that can be referred to. Its node ID means something to its own session only.
#[derive(Debug)]
pub struct RefEntry {
    pub backend_node_id: Option<i64>,
    pub role: String,
    pub name: String,
    pub nth: Option<usize>,
    pub frame_id: Option<String>,
    pub session_id: Option<String>,
}

/// What a `RefEntry` holds.
#[verifier::ext_equal]
pub struct EntryView {
    pub backend_node_id: Option<i64>,
    pub role: Seq<char>,
    pub name: Seq<char>,
    pub nth: Option<usize>,
    pub frame_id: Option<Seq<char>>,
    pub session_id: Option<Seq<char>>,
}

/// Elements by the ref they go by.
pub type Refs = Map<Seq<char>, EntryView>;

impl View for RefEntry {
    type V = EntryView;

    open spec fn view(&self) -> EntryView {
        EntryView {
            backend_node_id: self.backend_node_id,
            role: self.role@,
            name: self.name@,
            nth: self.nth,
            frame_id: optional_text(self.frame_id),
            session_id: optional_text(self.session_id),
        }
    }
}

/// What an optional text holds.
pub open spec fn optional_str(text: Option<&str>) -> Option<Seq<char>> {
    match text {
        Some(t) => Some(t@),
        None => None,
    }
}

fn owned_text(text: Option<&str>) -> (owned: Option<String>)
    ensures
        optional_text(owned) == optional_str(text),
{
    match text {
        Some(t) => Some(t.to_owned()),
        None => None,
    }
}

/// The elements that can be referred to.
#[derive(Debug)]
pub struct RefMap {
    entries: StringMap<RefEntry>,
}

impl View for RefMap {
    type V = Refs;

    closed spec fn view(&self) -> Refs {
        self.entries@
    }
}

impl RefMap {
    /// No elements.
    pub fn new() -> (refs: Self)
        ensures
            refs@ == Map::<Seq<char>, EntryView>::empty(),
    {
        RefMap { entries: StringMap::new() }
    }

    /// Has `id` refer to an element, in place of what it referred to.
    pub fn add_with_frame(
        &mut self,
        id: String,
        backend_node_id: Option<i64>,
        role: &str,
        name: &str,
        nth: Option<usize>,
        context: RefContext<'_>,
    )
        ensures
            final(self)@ == old(self)@.insert(
                id@,
                (EntryView {
                    backend_node_id,
                    role: role@,
                    name: name@,
                    nth,
                    frame_id: optional_str(context.frame_id),
                    session_id: optional_str(context.session_id),
                }),
            ),
            context.frame_id matches Some(frame_id) ==> final(self)@[id@].frame_id == Some(frame_id@),
            context.frame_id is None ==> final(self)@[id@].frame_id is None,
            context.session_id matches Some(session_id) ==> final(self)@[id@].session_id == Some(session_id@),
            context.session_id is None ==> final(self)@[id@].session_id is None,
    {
        let entry = RefEntry {
            backend_node_id,
            role: role.to_owned(),
            name: name.to_owned(),
            nth,
            frame_id: owned_text(context.frame_id),
            session_id: owned_text(context.session_id),
        };
        self.entries.insert(id, entry);
    }

    /// The element that `id` refers to.
    pub fn get(&self, id: &str) -> (entry: Option<&RefEntry>)
        ensures
            match entry {
                Some(e) => self@.contains_key(id@) && e@ == self@[id@],
                None => !self@.contains_key(id@),
            },
    {
        self.entries.get(id)
    }

    /// Has `id` refer to nothing.
    pub fn remove(&mut self, id: &str)
        ensures
            final(self)@ == old(self)@.remove(id@),
    {
        self.entries.remove(id);
    }

    /// The refs in use, each once.
    pub fn ids(&self) -> (ids: Vec<String>)
        ensures
            texts(ids@).no_duplicates(),
            forall|id: Seq<char>| texts(ids@).contains(id) <==> self@.contains_key(id),
            forall|i: int, j: int| 0 <= i < j < ids@.len() ==> (#[trigger] ids@[i])@ != (#[trigger] ids@[j])@,
            forall|i: int| 0 <= i < ids@.len() ==> self@.contains_key((#[trigger] ids@[i])@),
            forall|id: Seq<char>| #[trigger]
                self@.contains_key(id) ==> exists|i: int| 0 <= i < ids@.len() && (#[trigger] ids@[i])@ == id,
    {
        self.entries.keys()
    }
}

} // verus!
