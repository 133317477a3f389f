//! The frames of a tab and how they contain one another.

use crate::string_map::{entry_views, StringMap};
use crate::text::{
    lemma_strictly_sorted_is_unique, lemma_text_order_irreflexive, lemma_text_order_total, lemma_text_order_transitive,
    optional_text, precedes, same_text, strictly_sorted, text_precedes, texts,
};
use vstd::hash_set::StringHashSet;
use vstd::prelude::*;

verus! {

/// A frame, the session that executes it, the frame that contains it and the document it shows.
#[derive(Debug)]
pub struct FrameTarget {
    pub frame_id: String,
    pub session_id: String,
    pub parent_id: Option<String>,
    pub loader_id: Option<String>,
}

/// What a `FrameTarget` holds.
#[verifier::ext_equal]
pub struct TargetView {
    pub frame_id: Seq<char>,
    pub session_id: Seq<char>,
    pub parent_id: Option<Seq<char>>,
    pub loader_id: Option<Seq<char>>,
}

/// Frames by their ID.
pub type Frames = Map<Seq<char>, TargetView>;

impl View for FrameTarget {
    type V = TargetView;

    open spec fn view(&self) -> TargetView {
        TargetView {
            frame_id: self.frame_id@,
            session_id: self.session_id@,
            parent_id: optional_text(self.parent_id),
            loader_id: optional_text(self.loader_id),
        }
    }
}

impl Clone for FrameTarget {
    fn clone(&self) -> (copy: Self)
        ensures
            copy@ == self@,
    {
        FrameTarget {
            frame_id: self.frame_id.clone(),
            session_id: self.session_id.clone(),
            parent_id: self.parent_id.clone(),
            loader_id: self.loader_id.clone(),
        }
    }
}

/// The frame that contains `frame_id`, where that is known.
pub open spec fn parent_of(frames: Frames, frame_id: Seq<char>) -> Option<Seq<char>> {
    if frames.contains_key(frame_id) {
        frames[frame_id].parent_id
    } else {
        None
    }
}

/// The frame that is `steps` parent links above `frame_id`.
pub open spec fn ancestor(frames: Frames, frame_id: Seq<char>, steps: nat) -> Option<Seq<char>>
    decreases steps,
{
    if steps == 0 {
        Some(frame_id)
    } else {
        match ancestor(frames, frame_id, (steps - 1) as nat) {
            Some(below) => parent_of(frames, below),
            None => None,
        }
    }
}

/// The parent links lead from `frame_id` to `top_frame_id` in some number of steps, which may be
/// none.
pub open spec fn reaches(frames: Frames, frame_id: Seq<char>, top_frame_id: Seq<char>) -> bool {
    exists|steps: nat| #[trigger] ancestor(frames, frame_id, steps) == Some(top_frame_id)
}

/// Whether the parent links lead from `frame_id` to `top_frame_id`. A circle of links leads
/// nowhere outside of it.
pub fn frame_reaches_top(frame_id: &str, top_frame_id: &str, targets: &StringMap<FrameTarget>) -> (reached: bool)
    ensures
        reached == reaches(targets@, frame_id@, top_frame_id@),
{
    let ghost frames = targets@;
    let ghost mut steps: nat = 0;
    let mut current: &str = frame_id;
    let mut visited = StringHashSet::new();
    proof {
        crate::string_map::lemma_string_map_is_finite(*targets);
    }
    loop
        invariant
            frames == targets@,
            frames.dom().finite(),
            ancestor(frames, frame_id@, steps) == Some(current@),
            forall|n: nat| n < steps ==> #[trigger] ancestor(frames, frame_id@, n) != Some(top_frame_id@),
            forall|id: Seq<char>| #[trigger]
                visited@.contains(id) <==> exists|n: nat|
                    n < steps && #[trigger] ancestor(frames, frame_id@, n) == Some(id),
            visited@.subset_of(frames.dom()),
        decreases frames.dom().len() - visited@.len(),
    {
        if same_text(current, top_frame_id) {
            return true;
        }
        let ghost seen = visited@;
        if !visited.insert(current.to_owned()) {
            proof {
                lemma_circle_never_leaves(frames, frame_id@, steps, top_frame_id@);
            }
            return false;
        }
        let parent_id: &str = match targets.get(current) {
            Some(target) => match &target.parent_id {
                Some(parent_id) => parent_id.as_str(),
                None => {
                    proof {
                        lemma_chain_ends(frames, frame_id@, steps, top_frame_id@);
                    }
                    return false;
                },
            },
            None => {
                proof {
                    lemma_chain_ends(frames, frame_id@, steps, top_frame_id@);
                }
                return false;
            },
        };
        proof {
            assert(visited@ == seen.insert(current@));
            assert(frames.dom().contains(current@));
            vstd::set_lib::lemma_set_subset_finite(frames.dom(), visited@);
            vstd::set_lib::lemma_len_subset(visited@, frames.dom());
            assert(visited@.len() == seen.len() + 1);
            assert(ancestor(frames, frame_id@, (steps + 1) as nat) == Some(parent_id@));
            assert forall|id: Seq<char>| #[trigger]
                visited@.contains(id) == exists|n: nat|
                    n < steps + 1 && #[trigger] ancestor(frames, frame_id@, n) == Some(id) by {
                if id == current@ {
                    assert(ancestor(frames, frame_id@, steps) == Some(id));
                }
                if seen.contains(id) {
                    let n = choose|n: nat|
                        n < steps && #[trigger] ancestor(frames, frame_id@, n) == Some(id);
                    assert(n < steps + 1);
                }
            }
            steps = steps + 1;
        }
        current = parent_id;
    }
}

/// A chain that comes back to where it has been goes on visiting the same frames.
proof fn lemma_circle_never_leaves(frames: Frames, frame_id: Seq<char>, steps: nat, top_frame_id: Seq<char>)
    requires
        ancestor(frames, frame_id, steps) is Some,
        exists|n: nat|
            n < steps && #[trigger] ancestor(frames, frame_id, n) == ancestor(frames, frame_id, steps),
        forall|n: nat| n < steps ==> #[trigger] ancestor(frames, frame_id, n) != Some(top_frame_id),
    ensures
        !reaches(frames, frame_id, top_frame_id),
{
    assert forall|n: nat| #[trigger] ancestor(frames, frame_id, n) != Some(top_frame_id) by {
        lemma_circle_repeats(frames, frame_id, steps, n);
    }
}

proof fn lemma_circle_repeats(frames: Frames, frame_id: Seq<char>, steps: nat, n: nat)
    requires
        exists|m: nat|
            m < steps && #[trigger] ancestor(frames, frame_id, m) == ancestor(frames, frame_id, steps),
    ensures
        exists|m: nat| m < steps && #[trigger] ancestor(frames, frame_id, m) == ancestor(frames, frame_id, n),
    decreases n,
{
    if n < steps {
        assert(ancestor(frames, frame_id, n) == ancestor(frames, frame_id, n));
    } else if n > steps {
        lemma_circle_repeats(frames, frame_id, steps, (n - 1) as nat);
        let m = choose|m: nat|
            m < steps && #[trigger] ancestor(frames, frame_id, m) == ancestor(frames, frame_id, (n - 1) as nat);
        assert(ancestor(frames, frame_id, (m + 1) as nat) == ancestor(frames, frame_id, n));
    }
}

/// A chain whose last frame has no known parent goes no further.
proof fn lemma_chain_ends(frames: Frames, frame_id: Seq<char>, steps: nat, top_frame_id: Seq<char>)
    requires
        ancestor(frames, frame_id, steps) matches Some(last) && last != top_frame_id && parent_of(frames, last) is None,
        forall|n: nat| n < steps ==> #[trigger] ancestor(frames, frame_id, n) != Some(top_frame_id),
    ensures
        !reaches(frames, frame_id, top_frame_id),
{
    assert forall|n: nat| #[trigger] ancestor(frames, frame_id, n) != Some(top_frame_id) by {
        if n > steps {
            lemma_nothing_above(frames, frame_id, steps, n);
        }
    }
}

proof fn lemma_nothing_above(frames: Frames, frame_id: Seq<char>, steps: nat, n: nat)
    requires
        ancestor(frames, frame_id, steps) matches Some(last) && parent_of(frames, last) is None,
        n > steps,
    ensures
        ancestor(frames, frame_id, n) is None,
    decreases n,
{
    if n > steps + 1 {
        lemma_nothing_above(frames, frame_id, steps, (n - 1) as nat);
    }
}

/// The frames of a tab, as the browser last reported them.
#[derive(Debug)]
pub struct FrameTopology {
    pub top_frame_id: String,
    pub frames: StringMap<FrameTarget>,
    /// A failed target query is uncertainty, not evidence of frame removal.
    pub incomplete: bool,
}

/// What a `FrameTopology` holds.
#[verifier::ext_equal]
pub struct TopologyView {
    pub top_frame_id: Seq<char>,
    pub frames: Frames,
    pub incomplete: bool,
}

impl View for FrameTopology {
    type V = TopologyView;

    open spec fn view(&self) -> TopologyView {
        TopologyView {
            top_frame_id: self.top_frame_id@,
            frames: self.frames@,
            incomplete: self.incomplete,
        }
    }
}

impl Clone for FrameTopology {
    fn clone(&self) -> (copy: Self)
        ensures
            copy@ == self@,
    {
        let copy = FrameTopology {
            top_frame_id: self.top_frame_id.clone(),
            frames: self.frames.clone(),
            incomplete: self.incomplete,
        };
        assert(copy.frames@ =~= self.frames@);
        copy
    }
}

impl FrameTopology {
    /// Whether `frame_id` is `ancestor` or lies below it.
    pub fn contains_descendant(&self, frame_id: &str, ancestor: &str) -> (below: bool)
        ensures
            below == reaches(self@.frames, frame_id@, ancestor@),
    {
        frame_reaches_top(frame_id, ancestor, &self.frames)
    }

    /// The frames, in the order of their IDs.
    pub fn into_sorted_frames(self) -> (listed: Vec<FrameTarget>)
        ensures
            lists_in_order(target_views(listed@), self@.frames),
            listed@.len() == self.frames@.dom().len(),
            forall|i: int| 0 <= i < listed@.len() ==> self.frames@.contains_value((#[trigger] listed@[i])@),
            forall|id: Seq<char>| #[trigger]
                self.frames@.contains_key(id) ==> exists|i: int|
                    0 <= i < listed@.len() && (#[trigger] listed@[i])@ == self.frames@[id],
            forall|i: int, j: int|
                0 <= i < j < listed@.len() ==> !text_precedes(
                    (#[trigger] listed@[j]).frame_id@,
                    (#[trigger] listed@[i]).frame_id@,
                ),
    {
        let ghost frames = self.frames@;
        let mut entries = self.frames.into_entries();
        let mut listed: Vec<FrameTarget> = Vec::new();
        let ghost mut ids: Seq<Seq<char>> = Seq::empty();
        proof {
            let views = entry_views(entries@);
            assert(forall|i: int| 0 <= i < entries@.len() ==> (#[trigger] entries@[i]).0@ == views[i].0);
            assert(forall|i: int| 0 <= i < entries@.len() ==> (#[trigger] entries@[i]).1@ == views[i].1);
        }
        while entries.len() > 0
            invariant
                sorted_by_id(target_views(listed@)),
                ids.no_duplicates(),
                ids.len() == listed@.len(),
                forall|i: int|
                    0 <= i < ids.len() ==> frames.contains_key(#[trigger] ids[i]) && listed@[i]@ == frames[ids[i]],
                forall|i: int, j: int|
                    0 <= i < j < entries@.len() ==> (#[trigger] entries@[i]).0@ != (#[trigger] entries@[j]).0@,
                forall|i: int|
                    0 <= i < entries@.len() ==> frames.contains_key((#[trigger] entries@[i]).0@)
                        && frames[entries@[i].0@] == entries@[i].1@ && !ids.contains(entries@[i].0@),
                forall|id: Seq<char>| #[trigger]
                    frames.contains_key(id) ==> ids.contains(id) || exists|i: int|
                        0 <= i < entries@.len() && (#[trigger] entries@[i]).0@ == id,
            decreases entries@.len(),
        {
            let ghost before = entries@;
            let ghost ids_before = ids;
            let (id, target) = entries.pop().unwrap();
            let at = insert_in_order(&mut listed, target);
            proof {
                ids = ids.insert(at as int, id@);
                lemma_inserted(ids_before, at as int, id@);
                assert(before.last().0@ == id@);
                assert forall|i: int| 0 <= i < entries@.len() implies frames.contains_key((#[trigger] entries@[i]).0@)
                    && frames[entries@[i].0@] == entries@[i].1@ && !ids.contains(entries@[i].0@) by {
                    assert(entries@[i] == before[i]);
                }
                assert forall|other: Seq<char>| #[trigger] frames.contains_key(other) implies ids.contains(other)
                    || exists|i: int| 0 <= i < entries@.len() && (#[trigger] entries@[i]).0@ == other by {
                    if !ids_before.contains(other) && other != id@ {
                        let i = choose|i: int| 0 <= i < before.len() && (#[trigger] before[i]).0@ == other;
                        assert(entries@[i] == before[i]);
                    }
                }
            }
        }
        proof {
            let views = target_views(listed@);
            assert(views =~= ids.map_values(|id: Seq<char>| frames[id]));
            assert forall|id: Seq<char>| ids.contains(id) == frames.contains_key(id) by {}
            assert(lists(views, ids, frames));
            ids.unique_seq_to_set();
            assert(ids.to_set() =~= frames.dom());
            assert forall|i: int, j: int| 0 <= i < j < listed@.len() implies !text_precedes(
                (#[trigger] listed@[j]).frame_id@,
                (#[trigger] listed@[i]).frame_id@,
            ) by {
                assert(!text_precedes(views[j].frame_id, views[i].frame_id));
            }
            assert forall|id: Seq<char>| #[trigger] frames.contains_key(id) implies exists|i: int|
                0 <= i < listed@.len() && (#[trigger] listed@[i])@ == frames[id] by {
                assert(ids.contains(id));
                let i = choose|i: int| 0 <= i < ids.len() && ids[i] == id;
                assert(listed@[i]@ == frames[ids[i]]);
            }
            assert forall|i: int| 0 <= i < listed@.len() implies frames.contains_value((#[trigger] listed@[i])@) by {
                assert(frames.contains_key(ids[i]));
            }
        }
        listed
    }
}

/// What a list of frames holds.
pub open spec fn target_views(targets: Seq<FrameTarget>) -> Seq<TargetView> {
    targets.map_values(|target: FrameTarget| target@)
}

/// No frame stands behind one with a greater ID.
pub open spec fn sorted_by_id(listed: Seq<TargetView>) -> bool {
    forall|i: int, j: int|
        0 <= i < j < listed.len() ==> !text_precedes((#[trigger] listed[j]).frame_id, (#[trigger] listed[i]).frame_id)
}

/// `listed` holds the frames under `ids`, which are the keys of `frames`, each once.
pub open spec fn lists(listed: Seq<TargetView>, ids: Seq<Seq<char>>, frames: Frames) -> bool {
    &&& ids.no_duplicates()
    &&& forall|id: Seq<char>| ids.contains(id) <==> frames.contains_key(id)
    &&& listed == ids.map_values(|id: Seq<char>| frames[id])
}

/// `listed` holds every frame of `frames` once, in the order of the IDs.
pub open spec fn lists_in_order(listed: Seq<TargetView>, frames: Frames) -> bool {
    &&& sorted_by_id(listed)
    &&& exists|ids: Seq<Seq<char>>| lists(listed, ids, frames)
}

proof fn lemma_inserted(ids: Seq<Seq<char>>, at: int, id: Seq<char>)
    requires
        ids.no_duplicates(),
        0 <= at <= ids.len(),
        !ids.contains(id),
    ensures
        ids.insert(at, id).no_duplicates(),
        forall|other: Seq<char>| ids.insert(at, id).contains(other) <==> ids.contains(other) || other == id,
{
    let after = ids.insert(at, id);
    assert(after[at] == id);
    assert forall|other: Seq<char>| after.contains(other) == (ids.contains(other) || other == id) by {
        if ids.contains(other) {
            let i = choose|i: int| 0 <= i < ids.len() && ids[i] == other;
            assert(after[if i < at { i } else { i + 1 }] == other);
        }
        if after.contains(other) && other != id {
            let i = choose|i: int| 0 <= i < after.len() && after[i] == other;
            assert(ids[if i < at { i } else { i - 1 }] == other);
        }
    }
}

/// Puts `target` behind the frames whose ID does not come after its own.
fn insert_in_order(listed: &mut Vec<FrameTarget>, target: FrameTarget) -> (at: usize)
    requires
        sorted_by_id(target_views(old(listed)@)),
    ensures
        at <= old(listed)@.len(),
        final(listed)@ == old(listed)@.insert(at as int, target),
        sorted_by_id(target_views(final(listed)@)),
{
    let ghost views = target_views(listed@);
    let mut at: usize = 0;
    while at < listed.len() && !precedes(target.frame_id.as_str(), listed[at].frame_id.as_str())
        invariant
            at <= listed@.len(),
            views == target_views(listed@),
            forall|i: int| 0 <= i < at ==> !text_precedes(target.frame_id@, (#[trigger] views[i]).frame_id),
        decreases listed@.len() - at,
    {
        assert(views[at as int].frame_id == listed@[at as int].frame_id@);
        at = at + 1;
    }
    let ghost id = target.frame_id@;
    proof {
        assert forall|i: int| at <= i < views.len() implies !text_precedes((#[trigger] views[i]).frame_id, id) by {
            assert(text_precedes(id, views[at as int].frame_id)) by {
                assert(views[at as int].frame_id == listed@[at as int].frame_id@);
            }
            if text_precedes(views[i].frame_id, id) {
                lemma_text_order_transitive(views[i].frame_id, id, views[at as int].frame_id);
                lemma_text_order_irreflexive(id);
                lemma_text_order_irreflexive(views[i].frame_id);
            }
        }
    }
    listed.insert(at, target);
    proof {
        let after = target_views(listed@);
        assert(after =~= views.insert(at as int, target@));
        assert forall|i: int, j: int| 0 <= i < j < after.len() implies !text_precedes(
            (#[trigger] after[j]).frame_id,
            (#[trigger] after[i]).frame_id,
        ) by {
            let ghost before = |k: int| if k < at { k } else { k - 1 };
            if i != at && j != at {
                assert(after[i] == views[before(i)]);
                assert(after[j] == views[before(j)]);
            } else if i == at {
                assert(after[j] == views[j - 1]);
            } else {
                assert(after[i] == views[i]);
            }
        }
    }
    at
}

/// Every frame is stored under its own ID.
pub open spec fn keyed_by_id(frames: Frames) -> bool {
    forall|id: Seq<char>| #[trigger] frames.contains_key(id) ==> frames[id].frame_id == id
}

/// The frames whose parent links lead to `top_frame_id`.
pub open spec fn within_tab(frames: Frames, top_frame_id: Seq<char>) -> Frames {
    Map::new(
        |id: Seq<char>| frames.contains_key(id) && reaches(frames, frames[id].frame_id, top_frame_id),
        |id: Seq<char>| frames[id],
    )
}

/// Drops the frames whose parent links do not lead to `top_frame_id`. The links are those of all
/// the frames there were.
pub fn retain_within_tab(targets: &mut StringMap<FrameTarget>, top_frame_id: &str)
    ensures
        final(targets)@ == within_tab(old(targets)@, top_frame_id@),
{
    let ghost frames = targets@;
    let ids = targets.keys();
    let mut stray: Vec<String> = Vec::new();
    let mut i: usize = 0;
    while i < ids.len()
        invariant
            i <= ids@.len(),
            targets@ == frames,
            forall|id: Seq<char>| texts(ids@).contains(id) <==> frames.contains_key(id),
            forall|id: Seq<char>|
                texts(stray@).contains(id) <==> texts(ids@).take(i as int).contains(id) && !reaches(
                    frames,
                    frames[id].frame_id,
                    top_frame_id@,
                ),
        decreases ids@.len() - i,
    {
        let ghost seen = texts(ids@).take(i as int);
        let ghost stray_before = texts(stray@);
        proof {
            let id = texts(ids@)[i as int];
            assert(texts(ids@).contains(id));
            assert(texts(ids@).take(i + 1) =~= seen.push(id));
            lemma_pushed(seen, id);
            lemma_pushed(stray_before, id);
        }
        if let Some(target) = targets.get(ids[i].as_str()) {
            if !frame_reaches_top(target.frame_id.as_str(), top_frame_id, targets) {
                stray.push(ids[i].clone());
                assert(texts(stray@) =~= stray_before.push(ids@[i as int]@));
            }
        }
        proof {
            let id = ids@[i as int]@;
            let stays = reaches(frames, frames[id].frame_id, top_frame_id@);
            assert(texts(stray@) == if stays { stray_before } else { stray_before.push(id) });
            assert forall|other: Seq<char>|
                texts(stray@).contains(other) == (texts(ids@).take(i + 1).contains(other) && !reaches(
                    frames,
                    frames[other].frame_id,
                    top_frame_id@,
                )) by {
                assert(stray_before.contains(other) == (seen.contains(other) && !reaches(
                    frames,
                    frames[other].frame_id,
                    top_frame_id@,
                )));
            }
        }
        i = i + 1;
    }
    assert(texts(ids@).take(i as int) =~= texts(ids@));
    let mut j: usize = 0;
    while j < stray.len()
        invariant
            j <= stray@.len(),
            forall|id: Seq<char>|
                targets@.contains_key(id) <==> frames.contains_key(id) && !texts(stray@).take(j as int).contains(id),
            forall|id: Seq<char>| #[trigger] targets@.contains_key(id) ==> targets@[id] == frames[id],
        decreases stray@.len() - j,
    {
        let ghost gone = texts(stray@).take(j as int);
        proof {
            let id = texts(stray@)[j as int];
            assert(texts(stray@).take(j + 1) =~= gone.push(id));
            lemma_pushed(gone, id);
        }
        targets.remove(stray[j].as_str());
        j = j + 1;
    }
    assert(texts(stray@).take(j as int) =~= texts(stray@));
    assert(targets@ =~= within_tab(frames, top_frame_id@));
}

proof fn lemma_pushed(list: Seq<Seq<char>>, text: Seq<char>)
    ensures
        forall|other: Seq<char>| list.push(text).contains(other) <==> list.contains(other) || other == text,
{
    let after = list.push(text);
    assert(after[list.len() as int] == text);
    assert forall|other: Seq<char>| after.contains(other) == (list.contains(other) || other == text) by {
        if list.contains(other) {
            let i = choose|i: int| 0 <= i < list.len() && list[i] == other;
            assert(after[i] == other);
        }
    }
}

/// Walking `m` links up from the frame that is `n` links above gives the frame that is `n + m`
/// links above.
proof fn lemma_ancestor_of_ancestor(frames: Frames, frame_id: Seq<char>, n: nat, m: nat)
    requires
        ancestor(frames, frame_id, n) is Some,
    ensures
        ancestor(frames, frame_id, n + m) == ancestor(frames, ancestor(frames, frame_id, n)->0, m),
    decreases m,
{
    if m > 0 {
        lemma_ancestor_of_ancestor(frames, frame_id, n, (m - 1) as nat);
    }
}

/// A frame counts as its own descendant, whether or not it is known.
pub proof fn law_frame_descends_from_itself(frames: Frames, frame_id: Seq<char>)
    ensures
        reaches(frames, frame_id, frame_id),
{
    assert(ancestor(frames, frame_id, 0) == Some(frame_id));
}

/// A frame descends from the frame that contains it.
pub proof fn law_frame_descends_from_its_parent(frames: Frames, frame_id: Seq<char>, parent_id: Seq<char>)
    requires
        parent_of(frames, frame_id) == Some(parent_id),
    ensures
        reaches(frames, frame_id, parent_id),
{
    assert(ancestor(frames, frame_id, 0) == Some(frame_id));
    assert(ancestor(frames, frame_id, 1) == Some(parent_id));
}

/// A descendant of a descendant is a descendant.
pub proof fn law_descent_is_transitive(frames: Frames, a: Seq<char>, b: Seq<char>, c: Seq<char>)
    requires
        reaches(frames, a, b),
        reaches(frames, b, c),
    ensures
        reaches(frames, a, c),
{
    let n = choose|n: nat| #[trigger] ancestor(frames, a, n) == Some(b);
    let m = choose|m: nat| #[trigger] ancestor(frames, b, m) == Some(c);
    lemma_ancestor_of_ancestor(frames, a, n, m);
    assert(ancestor(frames, a, n + m) == Some(c));
}

proof fn lemma_ancestors_below_are_known(frames: Frames, frame_id: Seq<char>, n: nat, m: nat)
    requires
        ancestor(frames, frame_id, m) is Some,
        n <= m,
    ensures
        ancestor(frames, frame_id, n) is Some,
    decreases m - n,
{
    if n < m {
        lemma_ancestors_below_are_known(frames, frame_id, n + 1, m);
    }
}

/// In a tab whose top frame has no parent, the frame that contains another one does not lie below
/// it: no document goes with that of a frame it contains.
pub proof fn law_parent_is_not_below_its_child(
    frames: Frames,
    frame_id: Seq<char>,
    parent_id: Seq<char>,
    top_frame_id: Seq<char>,
)
    requires
        parent_of(frames, frame_id) == Some(parent_id),
        reaches(frames, frame_id, top_frame_id),
        parent_of(frames, top_frame_id) is None,
    ensures
        !reaches(frames, parent_id, frame_id),
{
    if reaches(frames, parent_id, frame_id) {
        let m = choose|m: nat| #[trigger] ancestor(frames, parent_id, m) == Some(frame_id);
        let t = choose|t: nat| #[trigger] ancestor(frames, frame_id, t) == Some(top_frame_id);
        assert(ancestor(frames, frame_id, 0) == Some(frame_id));
        assert(ancestor(frames, frame_id, 1) == Some(parent_id));
        lemma_ancestor_of_ancestor(frames, frame_id, 1, m);
        assert(ancestor(frames, frame_id, 1 + m) == ancestor(frames, frame_id, 0));
        assert(ancestor(frames, frame_id, t + 1) is None);
        lemma_circle_repeats(frames, frame_id, 1 + m, t + 1);
        let n = choose|n: nat|
            n < 1 + m && #[trigger] ancestor(frames, frame_id, n) == ancestor(frames, frame_id, t + 1);
        lemma_ancestors_below_are_known(frames, frame_id, n, 1 + m);
    }
}

/// Every frame that is kept descends from the top frame through frames that are kept.
pub proof fn law_kept_frames_descend_from_top(frames: Frames, top_frame_id: Seq<char>, frame_id: Seq<char>)
    requires
        keyed_by_id(frames),
        within_tab(frames, top_frame_id).contains_key(frame_id),
    ensures
        reaches(within_tab(frames, top_frame_id), frame_id, top_frame_id),
{
    let n = choose|n: nat| #[trigger] ancestor(frames, frame_id, n) == Some(top_frame_id);
    lemma_kept_chain(frames, top_frame_id, frame_id, n, n);
    assert(ancestor(within_tab(frames, top_frame_id), frame_id, n) == Some(top_frame_id));
}

proof fn lemma_kept_chain(frames: Frames, top_frame_id: Seq<char>, frame_id: Seq<char>, n: nat, m: nat)
    requires
        keyed_by_id(frames),
        ancestor(frames, frame_id, n) == Some(top_frame_id),
        m <= n,
    ensures
        ancestor(within_tab(frames, top_frame_id), frame_id, m) == ancestor(frames, frame_id, m),
    decreases m,
{
    if m > 0 {
        let k = (m - 1) as nat;
        lemma_kept_chain(frames, top_frame_id, frame_id, n, k);
        lemma_ancestors_below_are_known(frames, frame_id, k, n);
        lemma_ancestors_below_are_known(frames, frame_id, m, n);
        let below = ancestor(frames, frame_id, k)->0;
        lemma_ancestor_of_ancestor(frames, frame_id, k, (n - k) as nat);
        assert(ancestor(frames, below, (n - k) as nat) == Some(top_frame_id));
        assert(within_tab(frames, top_frame_id).contains_key(below));
    }
}

/// Frames stored under their own IDs have one sorted listing only, and the IDs in it strictly
/// increase.
pub proof fn law_sorted_listing_is_unique(frames: Frames, a: Seq<TargetView>, b: Seq<TargetView>)
    requires
        keyed_by_id(frames),
        lists_in_order(a, frames),
        lists_in_order(b, frames),
    ensures
        a == b,
        strictly_sorted(a.map_values(|target: TargetView| target.frame_id)),
{
    let ids_a = choose|ids: Seq<Seq<char>>| lists(a, ids, frames);
    let ids_b = choose|ids: Seq<Seq<char>>| lists(b, ids, frames);
    lemma_listing_is_strict(frames, a, ids_a);
    lemma_listing_is_strict(frames, b, ids_b);
    lemma_strictly_sorted_is_unique(ids_a, ids_b);
    assert(a =~= b);
}

proof fn lemma_listing_is_strict(frames: Frames, listed: Seq<TargetView>, ids: Seq<Seq<char>>)
    requires
        keyed_by_id(frames),
        sorted_by_id(listed),
        lists(listed, ids, frames),
    ensures
        strictly_sorted(ids),
        listed.map_values(|target: TargetView| target.frame_id) == ids,
{
    assert forall|i: int| 0 <= i < ids.len() implies (#[trigger] listed[i]).frame_id == ids[i] by {
        assert(ids.contains(ids[i]));
    }
    assert forall|i: int, j: int| 0 <= i < j < ids.len() implies text_precedes(
        #[trigger] ids[i],
        #[trigger] ids[j],
    ) by {
        assert(listed[i].frame_id == ids[i]);
        assert(listed[j].frame_id == ids[j]);
        lemma_text_order_total(ids[i], ids[j]);
    }
    assert(listed.map_values(|target: TargetView| target.frame_id) =~= ids);
}

/// A frame descends from itself and from what its parent descends from, and from nothing else; a
/// frame without a known parent descends from itself alone.
pub proof fn law_descent_goes_through_the_parent(frames: Frames, frame_id: Seq<char>, top_frame_id: Seq<char>)
    ensures
        frames.contains_key(frame_id) && frames[frame_id].parent_id is Some ==> (reaches(
            frames,
            frame_id,
            top_frame_id,
        ) <==> frame_id == top_frame_id || reaches(frames, frames[frame_id].parent_id->0, top_frame_id)),
        !(frames.contains_key(frame_id) && frames[frame_id].parent_id is Some) ==> (reaches(
            frames,
            frame_id,
            top_frame_id,
        ) <==> frame_id == top_frame_id),
{
    law_frame_descends_from_itself(frames, frame_id);
    assert(ancestor(frames, frame_id, 0) == Some(frame_id));
    if frames.contains_key(frame_id) && frames[frame_id].parent_id is Some {
        let parent_id = frames[frame_id].parent_id->0;
        assert(ancestor(frames, frame_id, 1) == Some(parent_id));
        if reaches(frames, parent_id, top_frame_id) {
            law_frame_descends_from_its_parent(frames, frame_id, parent_id);
            law_descent_is_transitive(frames, frame_id, parent_id, top_frame_id);
        }
        if reaches(frames, frame_id, top_frame_id) && frame_id != top_frame_id {
            let n = choose|n: nat| #[trigger] ancestor(frames, frame_id, n) == Some(top_frame_id);
            lemma_ancestor_of_ancestor(frames, frame_id, 1, (n - 1) as nat);
            assert(ancestor(frames, parent_id, (n - 1) as nat) == Some(top_frame_id));
        }
    } else if reaches(frames, frame_id, top_frame_id) && frame_id != top_frame_id {
        let n = choose|n: nat| #[trigger] ancestor(frames, frame_id, n) == Some(top_frame_id);
        lemma_nothing_above(frames, frame_id, 0, n);
    }
}

/// Parent links do not lead out of a set of frames that holds the parents of all its frames. So a
/// frame in a circle descends from the frames of the circle alone.
pub proof fn law_descent_stays_among_parents(
    frames: Frames,
    frame_id: Seq<char>,
    top_frame_id: Seq<char>,
    among: Set<Seq<char>>,
)
    requires
        reaches(frames, frame_id, top_frame_id),
        among.contains(frame_id),
        forall|id: Seq<char>| #[trigger]
            among.contains(id) && frames.contains_key(id) && frames[id].parent_id is Some ==> among.contains(
                frames[id].parent_id->0,
            ),
    ensures
        among.contains(top_frame_id),
{
    let n = choose|n: nat| #[trigger] ancestor(frames, frame_id, n) == Some(top_frame_id);
    lemma_ancestor_among(frames, frame_id, among, n);
}

proof fn lemma_ancestor_among(frames: Frames, frame_id: Seq<char>, among: Set<Seq<char>>, n: nat)
    requires
        ancestor(frames, frame_id, n) is Some,
        among.contains(frame_id),
        forall|id: Seq<char>| #[trigger]
            among.contains(id) && frames.contains_key(id) && frames[id].parent_id is Some ==> among.contains(
                frames[id].parent_id->0,
            ),
    ensures
        among.contains(ancestor(frames, frame_id, n)->0),
    decreases n,
{
    if n > 0 {
        lemma_ancestor_among(frames, frame_id, among, (n - 1) as nat);
    }
}

/// A frame is kept exactly if it is known and descends from the top frame, and it is kept as it
/// was.
pub proof fn law_tab_keeps_its_frames(frames: Frames, top_frame_id: Seq<char>, id: Seq<char>)
    ensures
        within_tab(frames, top_frame_id).contains_key(id) <==> frames.contains_key(id) && reaches(
            frames,
            frames[id].frame_id,
            top_frame_id,
        ),
        within_tab(frames, top_frame_id).contains_key(id) ==> within_tab(frames, top_frame_id)[id] == frames[id],
{
}

/// A listing of frames that are stored under their own IDs holds each of them as it is stored, in
/// all its parts, and lists the IDs in their order.
pub proof fn law_listing_holds_the_frames(frames: Frames, listed: Seq<TargetView>)
    requires
        forall|id: Seq<char>| #[trigger] frames.contains_key(id) ==> frames[id].frame_id == id,
        lists_in_order(listed, frames),
    ensures
        forall|i: int|
            0 <= i < listed.len() ==> frames.contains_key((#[trigger] listed[i]).frame_id) && listed[i]
                == frames[listed[i].frame_id],
        forall|id: Seq<char>| #[trigger]
            frames.contains_key(id) ==> exists|i: int|
                0 <= i < listed.len() && (#[trigger] listed[i]).frame_id == id,
        forall|i: int, j: int|
            0 <= i < j < listed.len() ==> text_precedes(
                (#[trigger] listed[i]).frame_id,
                (#[trigger] listed[j]).frame_id,
            ),
{
    let ids = choose|ids: Seq<Seq<char>>| lists(listed, ids, frames);
    lemma_listing_is_strict(frames, listed, ids);
    assert forall|i: int| 0 <= i < listed.len() implies (#[trigger] listed[i]).frame_id == ids[i]
        && frames.contains_key(ids[i]) && listed[i] == frames[ids[i]] by {
        assert(ids.contains(ids[i]));
    }
    assert forall|id: Seq<char>| #[trigger] frames.contains_key(id) implies exists|i: int|
        0 <= i < listed.len() && (#[trigger] listed[i]).frame_id == id by {
        assert(ids.contains(id));
        let i = choose|i: int| 0 <= i < ids.len() && ids[i] == id;
        assert(listed[i].frame_id == id);
    }
    assert forall|i: int, j: int| 0 <= i < j < listed.len() implies text_precedes(
        (#[trigger] listed[i]).frame_id,
        (#[trigger] listed[j]).frame_id,
    ) by {
        assert(text_precedes(ids[i], ids[j]));
    }
}

/// A frame is seen as its parts are.
pub proof fn law_target_is_its_parts(target: FrameTarget)
    ensures
        target@.frame_id == target.frame_id@,
        target@.session_id == target.session_id@,
        target.parent_id matches Some(parent_id) ==> target@.parent_id == Some(parent_id@),
        target.parent_id is None ==> target@.parent_id is None,
        target.loader_id matches Some(loader_id) ==> target@.loader_id == Some(loader_id@),
        target.loader_id is None ==> target@.loader_id is None,
{
}

/// A topology is seen as its parts are.
pub proof fn law_topology_is_its_parts(topology: FrameTopology)
    ensures
        topology@.top_frame_id == topology.top_frame_id@,
        topology@.frames == topology.frames@,
        topology@.incomplete == topology.incomplete,
{
}

} // verus!
