//! Putting a tab's topology together, one answer at a time.

use crate::json::{json_contents, json_member, Json};
use crate::merge_laws::{
    answer_reports, law_merging_keeps_ids, law_reported_frames_are_known, reported, Answer,
};
use crate::string_map::StringMap;
use crate::text::{
    lemma_text_order_total, lemma_text_order_transitive, precedes, same_text, strictly_sorted, text_precedes, texts,
};
use crate::topology::{
    keyed_by_id, law_frame_descends_from_itself, law_kept_frames_descend_from_top, reaches, retain_within_tab,
    within_tab, FrameTarget, FrameTopology, Frames, TopologyView,
};
use crate::tree::{
    collect_node_targets, frame_node, merge_all, read_frame_tree, reports_in, FrameNode, NodeView,
};
use serde_json::Value;
use vstd::prelude::*;

verus! {

/// The error for an answer that does not say which frame is the top one.
pub const NO_TOP_FRAME: &'static str = "Could not determine top-level frame ID";

/// The tree in the answer to a frame tree query.
pub open spec fn reply_tree(reply: Json) -> Option<NodeView> {
    match reply.member("frameTree"@) {
        Some(tree) => Some(frame_node(tree)),
        None => None,
    }
}

/// What an optional tree holds.
pub open spec fn optional_node(node: Option<&FrameNode>) -> Option<NodeView> {
    match node {
        Some(node) => Some(node@),
        None => None,
    }
}

/// Reads the tree in the answer to a frame tree query.
pub fn read_reply(reply: &Value) -> (tree: Option<FrameNode>)
    ensures
        match tree {
            Some(node) => reply_tree(json_contents(*reply)) == Some(node@),
            None => reply_tree(json_contents(*reply)) is None,
        },
{
    match json_member(reply, "frameTree") {
        Some(tree) => Some(read_frame_tree(tree)),
        None => None,
    }
}

/// Puts `session_id` into a sorted list, unless it is there.
fn insert_session(listed: &mut Vec<String>, session_id: &String)
    requires
        strictly_sorted(texts(old(listed)@)),
    ensures
        strictly_sorted(texts(final(listed)@)),
        forall|text: Seq<char>|
            texts(final(listed)@).contains(text) <==> texts(old(listed)@).contains(text) || text == session_id@,
{
    let ghost before = texts(listed@);
    let ghost new = session_id@;
    let mut at: usize = 0;
    while at < listed.len() && precedes(listed[at].as_str(), session_id.as_str())
        invariant
            at <= listed@.len(),
            before == texts(listed@),
            new == session_id@,
            forall|i: int| 0 <= i < at ==> text_precedes(#[trigger] before[i], new),
        decreases listed@.len() - at,
    {
        assert(before[at as int] == listed@[at as int]@);
        at = at + 1;
    }
    if at < listed.len() && same_text(listed[at].as_str(), session_id.as_str()) {
        assert(before[at as int] == new);
        return ;
    }
    proof {
        assert forall|i: int| at <= i < before.len() implies text_precedes(new, #[trigger] before[i]) by {
            let next = before[at as int];
            assert(next == listed@[at as int]@);
            lemma_text_order_total(new, next);
            if i > at {
                lemma_text_order_transitive(new, next, before[i]);
            }
        }
    }
    listed.insert(at, session_id.clone());
    proof {
        let after = texts(listed@);
        assert(after =~= before.insert(at as int, new));
        assert forall|i: int, j: int| 0 <= i < j < after.len() implies text_precedes(
            #[trigger] after[i],
            #[trigger] after[j],
        ) by {
            if i < at {
                assert(after[i] == before[i]);
            } else if i > at {
                assert(after[i] == before[i - 1]);
            }
            if j < at {
                assert(after[j] == before[j]);
            } else if j > at {
                assert(after[j] == before[j - 1]);
            }
        }
        assert forall|text: Seq<char>| after.contains(text) == (before.contains(text) || text == new) by {
            if before.contains(text) {
                let i = choose|i: int| 0 <= i < before.len() && before[i] == text;
                assert(after[if i < at { i } else { i + 1 }] == text);
            }
            if after.contains(text) && text != new {
                let i = choose|i: int| 0 <= i < after.len() && after[i] == text;
                assert(before[if i < at { i } else { i - 1 }] == text);
            }
            assert(after[at as int] == new);
        }
    }
}

/// The sessions of the attached iframes, each once, in order.
pub fn sessions_to_query(iframe_sessions: &StringMap<String>) -> (listed: Vec<String>)
    ensures
        strictly_sorted(texts(listed@)),
        forall|text: Seq<char>| texts(listed@).contains(text) <==> iframe_sessions@.contains_value(text),
        forall|i: int, j: int|
            0 <= i < j < listed@.len() ==> text_precedes((#[trigger] listed@[i])@, (#[trigger] listed@[j])@),
        forall|i: int| 0 <= i < listed@.len() ==> iframe_sessions@.contains_value((#[trigger] listed@[i])@),
        forall|id: Seq<char>| #[trigger]
            iframe_sessions@.contains_key(id) ==> exists|i: int|
                0 <= i < listed@.len() && (#[trigger] listed@[i])@ == iframe_sessions@[id],
{
    let frame_ids = iframe_sessions.keys();
    let mut listed: Vec<String> = Vec::new();
    let mut i: usize = 0;
    while i < frame_ids.len()
        invariant
            i <= frame_ids@.len(),
            strictly_sorted(texts(listed@)),
            forall|id: Seq<char>| texts(frame_ids@).contains(id) <==> iframe_sessions@.contains_key(id),
            forall|text: Seq<char>|
                texts(listed@).contains(text) <==> exists|j: int|
                    0 <= j < i && iframe_sessions@[#[trigger] texts(frame_ids@)[j]] == text,
        decreases frame_ids@.len() - i,
    {
        let ghost before = texts(listed@);
        let ghost ids = texts(frame_ids@);
        let ghost sessions = iframe_sessions@;
        assert(ids.contains(ids[i as int]));
        if let Some(session_id) = iframe_sessions.get(frame_ids[i].as_str()) {
            insert_session(&mut listed, session_id);
        }
        proof {
            assert forall|text: Seq<char>|
                texts(listed@).contains(text) == exists|j: int|
                    0 <= j < i + 1 && sessions[#[trigger] ids[j]] == text by {
                if before.contains(text) {
                    let j = choose|j: int| 0 <= j < i && sessions[#[trigger] ids[j]] == text;
                    assert(sessions[ids[j]] == text);
                }
                if text == sessions[ids[i as int]] {
                    assert(0 <= i < i + 1);
                }
                if exists|j: int| 0 <= j < i + 1 && sessions[#[trigger] ids[j]] == text {
                    let j = choose|j: int| 0 <= j < i + 1 && sessions[#[trigger] ids[j]] == text;
                    if j < i {
                        assert(before.contains(text));
                    }
                }
            }
        }
        i = i + 1;
    }
    proof {
        let ids = texts(frame_ids@);
        let sessions = iframe_sessions@;
        assert forall|text: Seq<char>| texts(listed@).contains(text) == sessions.contains_value(text) by {
            if texts(listed@).contains(text) {
                let j = choose|j: int| 0 <= j < ids.len() && sessions[#[trigger] ids[j]] == text;
                assert(ids.contains(ids[j]));
            }
            if sessions.contains_value(text) {
                let id = choose|id: Seq<char>| sessions.contains_key(id) && sessions[id] == text;
                assert(ids.contains(id));
                let j = choose|j: int| 0 <= j < ids.len() && ids[j] == id;
                assert(sessions[ids[j]] == text);
            }
        }
        let views = texts(listed@);
        assert forall|i: int, j: int| 0 <= i < j < listed@.len() implies text_precedes(
            (#[trigger] listed@[i])@,
            (#[trigger] listed@[j])@,
        ) by {
            assert(text_precedes(views[i], views[j]));
        }
        assert forall|i: int| 0 <= i < listed@.len() implies sessions.contains_value((#[trigger] listed@[i])@) by {
            assert(views.contains(views[i]));
        }
        assert forall|id: Seq<char>| #[trigger] sessions.contains_key(id) implies exists|i: int|
            0 <= i < listed@.len() && (#[trigger] listed@[i])@ == sessions[id] by {
            assert(sessions.contains_value(sessions[id]));
            assert(views.contains(sessions[id]));
            let i = choose|i: int| 0 <= i < views.len() && views[i] == sessions[id];
            assert(listed@[i]@ == sessions[id]);
        }
    }
    listed
}

/// How far the collection of a topology has come.
#[verifier::ext_equal]
pub struct CollectionView {
    pub top_frame_id: Seq<char>,
    /// The sessions of the frames that have a target of their own.
    pub sessions: Map<Seq<char>, Seq<char>>,
    /// The sessions that are still to be asked, in this order.
    pub pending: Seq<Seq<char>>,
    /// The trees that have come in.
    pub answers: Seq<Answer>,
    pub incomplete: bool,
}

impl CollectionView {
    /// What the trees that have come in say.
    pub open spec fn known(self) -> Frames {
        merge_all(Map::empty(), answer_reports(self.answers, self.sessions))
    }

    /// The first tree that came in is the tab's own.
    pub open spec fn begun(self) -> bool {
        &&& self.answers.len() > 0
        &&& root_id(self.answers[0].tree) == Some(self.top_frame_id)
    }

    /// The first of the pending sessions has answered with `tree`, or has failed to.
    pub open spec fn answered(self, tree: Option<NodeView>) -> CollectionView {
        CollectionView {
            pending: self.pending.drop_first(),
            answers: match tree {
                Some(tree) => self.answers.push(Answer { tree, session_id: self.pending[0] }),
                None => self.answers,
            },
            incomplete: self.incomplete || tree is None,
            ..self
        }
    }

    /// The pending sessions have answered one after the other.
    pub open spec fn answered_all(self, trees: Seq<Option<NodeView>>) -> CollectionView
        decreases trees.len(),
    {
        if trees.len() == 0 {
            self
        } else {
            self.answered_all(trees.drop_last()).answered(trees.last())
        }
    }
}

/// The ID of the frame at the root of a tree.
pub open spec fn root_id(tree: NodeView) -> Option<Seq<char>> {
    match tree.frame {
        Some(info) => info.id,
        None => None,
    }
}

/// Collects the topology of a tab. The session that is `pending` is to be asked for its frame
/// tree, and its answer recorded, until none is pending.
pub struct TopologyCollector<'a> {
    top_frame_id: String,
    iframe_sessions: &'a StringMap<String>,
    sessions: Vec<String>,
    asked: usize,
    targets: StringMap<FrameTarget>,
    incomplete: bool,
    answers: Ghost<Seq<Answer>>,
}

impl<'a> View for TopologyCollector<'a> {
    type V = CollectionView;

    closed spec fn view(&self) -> CollectionView {
        CollectionView {
            top_frame_id: self.top_frame_id@,
            sessions: self.iframe_sessions@,
            pending: texts(self.sessions@).skip(self.asked as int),
            answers: self.answers@,
            incomplete: self.incomplete,
        }
    }
}

impl<'a> TopologyCollector<'a> {
    #[verifier::type_invariant]
    spec fn consistent(&self) -> bool {
        &&& self.asked <= self.sessions@.len()
        &&& self.targets@ == self@.known()
        &&& self@.begun()
    }

    /// Begins with the tree that the tab's own session gave. Every session of an attached iframe
    /// is pending: the tab's tree can omit descendants below an out-of-process iframe, while the
    /// iframe's own tree shows them with the session that executes them.
    pub fn start(
        top_tree: Option<&FrameNode>,
        top_session_id: &str,
        iframe_sessions: &'a StringMap<String>,
    ) -> (started: Result<TopologyCollector<'a>, String>)
        ensures
            match started {
                Ok(collector) => {
                    &&& optional_node(top_tree) matches Some(tree)
                    &&& root_id(tree) == Some(collector@.top_frame_id)
                    &&& collector@.answers == seq![Answer { tree, session_id: top_session_id@ }]
                    &&& collector@.sessions == iframe_sessions@
                    &&& strictly_sorted(collector@.pending)
                    &&& forall|text: Seq<char>|
                        collector@.pending.contains(text) <==> iframe_sessions@.contains_value(text)
                    &&& !collector@.incomplete
                },
                Err(error) => {
                    &&& error@ == NO_TOP_FRAME@
                    &&& optional_node(top_tree) matches Some(tree) ==> root_id(tree) is None
                },
            },
            started is Ok <==> top_tree is Some && top_tree->0.frame is Some && top_tree->0.frame->0.id is Some,
            started matches Ok(collector) ==> {
                &&& collector@.top_frame_id == top_tree->0.frame->0.id->0@
                &&& collector@.answers.len() == 1
                &&& collector@.answers[0].tree == top_tree->0@
                &&& collector@.answers[0].session_id == top_session_id@
            },
    {
        let node = match top_tree {
            Some(node) => node,
            None => {
                return Err(NO_TOP_FRAME.to_owned());
            },
        };
        let top_frame_id = match &node.frame {
            Some(info) => match &info.id {
                Some(id) => id.clone(),
                None => {
                    return Err(NO_TOP_FRAME.to_owned());
                },
            },
            None => {
                return Err(NO_TOP_FRAME.to_owned());
            },
        };
        let mut targets: StringMap<FrameTarget> = StringMap::new();
        collect_node_targets(node, top_session_id, iframe_sessions, &mut targets);
        let sessions = sessions_to_query(iframe_sessions);
        let ghost answers = seq![Answer { tree: node@, session_id: top_session_id@ }];
        proof {
            lemma_first_answer(answers, iframe_sessions@);
            assert(texts(sessions@).skip(0) =~= texts(sessions@));
        }
        let collector = TopologyCollector {
            top_frame_id,
            iframe_sessions,
            sessions,
            asked: 0,
            targets,
            incomplete: false,
            answers: Ghost(answers),
        };
        Ok(collector)
    }

    /// The session to ask next.
    pub fn pending(&self) -> (session_id: Option<&String>)
        ensures
            match session_id {
                Some(session_id) => self@.pending.len() > 0 && session_id@ == self@.pending[0],
                None => self@.pending.len() == 0,
            },
    {
        proof {
            use_type_invariant(self);
        }
        if self.asked < self.sessions.len() {
            Some(&self.sessions[self.asked])
        } else {
            None
        }
    }

    /// Records what the pending session answered: its tree, or `None` where it gave none.
    pub fn record(self, tree: Option<&FrameNode>) -> (next: TopologyCollector<'a>)
        requires
            self@.pending.len() > 0,
        ensures
            next@ == self@.answered(optional_node(tree)),
            tree matches Some(node) ==> next@ == self@.answered(Some(node@)),
            tree is None ==> next@ == self@.answered(None),
    {
        proof {
            use_type_invariant(&self);
        }
        let TopologyCollector { top_frame_id, iframe_sessions, sessions, asked, targets, incomplete, answers } = self;
        let mut targets = targets;
        let mut incomplete = incomplete;
        let ghost mut answered = answers@;
        match tree {
            Some(node) => {
                collect_node_targets(node, sessions[asked].as_str(), iframe_sessions, &mut targets);
                proof {
                    let answer = Answer { tree: node@, session_id: sessions@[asked as int]@ };
                    lemma_next_answer(answered, answer, iframe_sessions@);
                    answered = answered.push(answer);
                }
            },
            None => {
                incomplete = true;
            },
        }
        assert(asked < sessions.len());
        assert(texts(sessions@).skip(asked + 1) =~= texts(sessions@).skip(asked as int).drop_first());
        TopologyCollector {
            top_frame_id,
            iframe_sessions,
            sessions,
            asked: asked + 1,
            targets,
            incomplete,
            answers: Ghost(answered),
        }
    }

    /// The topology, once every session has been asked. Sessions of other tabs may have answered
    /// too: only the frames that descend from the tab's top frame are kept.
    pub fn finish(self) -> (topology: FrameTopology)
        requires
            self@.pending.len() == 0,
        ensures
            topology@ == (TopologyView {
                top_frame_id: self@.top_frame_id,
                frames: within_tab(self@.known(), self@.top_frame_id),
                incomplete: self@.incomplete,
            }),
            topology@.frames.contains_key(topology@.top_frame_id),
            keyed_by_id(topology@.frames),
            forall|id: Seq<char>| #[trigger]
                topology@.frames.contains_key(id) ==> reaches(topology@.frames, id, topology@.top_frame_id),
    {
        proof {
            use_type_invariant(&self);
            law_top_frame_is_kept(self@);
            law_collected_frames_descend_from_top(self@);
        }
        let TopologyCollector { top_frame_id, targets, incomplete, .. } = self;
        let mut frames = targets;
        retain_within_tab(&mut frames, top_frame_id.as_str());
        FrameTopology { top_frame_id, frames, incomplete }
    }
}

proof fn lemma_first_answer(answers: Seq<Answer>, sessions: Map<Seq<char>, Seq<char>>)
    requires
        answers.len() == 1,
    ensures
        answer_reports(answers, sessions) == reports_in(
            answers[0].tree,
            answers[0].session_id,
            answers[0].session_id,
            sessions,
        ),
{
    assert(answers.drop_last() =~= Seq::empty());
    assert(answer_reports(answers.drop_last(), sessions) =~= Seq::empty());
    assert(answer_reports(answers, sessions) =~= reports_in(
        answers[0].tree,
        answers[0].session_id,
        answers[0].session_id,
        sessions,
    ));
}

proof fn lemma_next_answer(answers: Seq<Answer>, answer: Answer, sessions: Map<Seq<char>, Seq<char>>)
    ensures
        merge_all(Map::empty(), answer_reports(answers.push(answer), sessions)) == merge_all(
            merge_all(Map::empty(), answer_reports(answers, sessions)),
            reports_in(answer.tree, answer.session_id, answer.session_id, sessions),
        ),
{
    assert(answers.push(answer).drop_last() =~= answers);
    crate::tree::lemma_merge_concatenation(
        Map::empty(),
        answer_reports(answers, sessions),
        reports_in(answer.tree, answer.session_id, answer.session_id, sessions),
    );
}

proof fn lemma_first_report(answers: Seq<Answer>, sessions: Map<Seq<char>, Seq<char>>)
    requires
        answers.len() > 0,
        root_id(answers[0].tree) is Some,
    ensures
        answer_reports(answers, sessions).len() > 0,
        answer_reports(answers, sessions)[0].target.frame_id == root_id(answers[0].tree)->0,
    decreases answers.len(),
{
    if answers.len() == 1 {
        lemma_first_answer(answers, sessions);
    } else {
        assert(answers.drop_last()[0] == answers[0]);
        lemma_first_report(answers.drop_last(), sessions);
    }
}

/// The tab's top frame is in the topology.
pub proof fn law_top_frame_is_kept(collection: CollectionView)
    requires
        collection.begun(),
    ensures
        within_tab(collection.known(), collection.top_frame_id).contains_key(collection.top_frame_id),
{
    let reports = answer_reports(collection.answers, collection.sessions);
    let top = collection.top_frame_id;
    lemma_first_report(collection.answers, collection.sessions);
    assert(reported(reports, top)) by {
        assert(reports[0].target.frame_id == top);
    }
    law_reported_frames_are_known(Map::empty(), reports, top);
    law_merging_keeps_ids(Map::empty(), reports);
    law_frame_descends_from_itself(collection.known(), top);
}

/// Every frame of the topology descends from the tab's top frame through frames of the topology.
pub proof fn law_collected_frames_descend_from_top(collection: CollectionView)
    ensures
        keyed_by_id(within_tab(collection.known(), collection.top_frame_id)),
        forall|id: Seq<char>| #[trigger]
            within_tab(collection.known(), collection.top_frame_id).contains_key(id) ==> reaches(
                within_tab(collection.known(), collection.top_frame_id),
                id,
                collection.top_frame_id,
            ),
{
    let known = collection.known();
    let top = collection.top_frame_id;
    law_merging_keeps_ids(Map::empty(), answer_reports(collection.answers, collection.sessions));
    assert forall|id: Seq<char>| #[trigger] within_tab(known, top).contains_key(id) implies reaches(
        within_tab(known, top),
        id,
        top,
    ) by {
        law_kept_frames_descend_from_top(known, top, id);
    }
}

/// A collection stays begun whatever is answered.
pub proof fn law_answers_keep_the_tab(collection: CollectionView, tree: Option<NodeView>)
    requires
        collection.begun(),
    ensures
        collection.answered(tree).begun(),
        collection.answered(tree).top_frame_id == collection.top_frame_id,
{
}

/// A failed query is uncertainty: the topology counts as incomplete exactly if some session gave no
/// tree.
pub proof fn law_incomplete_iff_a_tree_is_missing(collection: CollectionView, trees: Seq<Option<NodeView>>)
    requires
        !collection.incomplete,
    ensures
        collection.answered_all(trees).incomplete <==> exists|i: int|
            0 <= i < trees.len() && (#[trigger] trees[i]) is None,
    decreases trees.len(),
{
    if trees.len() > 0 {
        let front = trees.drop_last();
        law_incomplete_iff_a_tree_is_missing(collection, front);
        assert(forall|i: int| 0 <= i < front.len() ==> #[trigger] front[i] == trees[i]);
        assert(trees[trees.len() - 1] == trees.last());
        if exists|i: int| 0 <= i < front.len() && (#[trigger] front[i]) is None {
            let i = choose|i: int| 0 <= i < front.len() && (#[trigger] front[i]) is None;
            assert(trees[i] is None);
        }
        if (exists|i: int| 0 <= i < trees.len() && (#[trigger] trees[i]) is None) && trees.last() is Some {
            let i = choose|i: int| 0 <= i < trees.len() && (#[trigger] trees[i]) is None;
            assert(front[i] is None);
        }
    }
}

} // verus!
