//! What is read out of JSON values, told by the records, lists and texts in them.

use crate::cdp::{CdpEvent, EventView, LifecycleEvent};
use crate::collector::{reply_tree, root_id};
use crate::json::{json_contents, Json};
use crate::tree::{frame_node, NodeView};
use vstd::prelude::*;

verus! {

/// What was read is the text under the key, and nothing where there is none: the value is not a
/// record, lacks the key, or has something else than text there.
pub open spec fn is_text_under(json: Json, key: Seq<char>, read: Option<Seq<char>>) -> bool {
    match json {
        Json::Record(members) => if members.contains_key(key) {
            match members[key] {
                Json::Text(text) => read == Some(text),
                _ => read is None,
            }
        } else {
            read is None
        },
        _ => read is None,
    }
}

/// `is_text_under` for the record under another key.
pub open spec fn is_text_within(json: Json, outer: Seq<char>, key: Seq<char>, read: Option<Seq<char>>) -> bool {
    match json {
        Json::Record(members) => if members.contains_key(outer) {
            is_text_under(members[outer], key, read)
        } else {
            read is None
        },
        _ => read is None,
    }
}

/// The characters of an optional text.
pub open spec fn characters(text: Option<String>) -> Option<Seq<char>> {
    if text is Some {
        Some(text->0@)
    } else {
        None
    }
}

proof fn lemma_methods_differ()
    ensures
        "Target.attachedToTarget"@ != "Target.detachedFromTarget"@,
        "Target.attachedToTarget"@ != "Page.frameDetached"@,
        "Target.attachedToTarget"@ != "Page.frameNavigated"@,
        "Target.detachedFromTarget"@ != "Page.frameDetached"@,
        "Target.detachedFromTarget"@ != "Page.frameNavigated"@,
        "Page.frameDetached"@ != "Page.frameNavigated"@,
{
    reveal_strlit("Target.attachedToTarget");
    reveal_strlit("Target.detachedFromTarget");
    reveal_strlit("Page.frameDetached");
    reveal_strlit("Page.frameNavigated");
    assert("Target.attachedToTarget"@.len() == 23);
    assert("Target.detachedFromTarget"@.len() == 25);
    assert("Page.frameDetached"@.len() == 18);
    assert("Page.frameNavigated"@.len() == 19);
}

/// The attachment of a session tells the type and the ID of the target, as its record has them, and
/// the session.
pub proof fn law_attachment_is_read(event: CdpEvent, read: LifecycleEvent)
    requires
        event.method@ == "Target.attachedToTarget"@,
        read@ == event.told(),
    ensures
        read matches LifecycleEvent::TargetAttached { kind, target_id, session_id } && {
            &&& is_text_within(json_contents(event.params), "targetInfo"@, "type"@, characters(kind))
            &&& is_text_within(json_contents(event.params), "targetInfo"@, "targetId"@, characters(target_id))
            &&& is_text_under(json_contents(event.params), "sessionId"@, characters(session_id))
        },
{
}

/// The detachment of a session tells the session.
pub proof fn law_detachment_is_read(event: CdpEvent, read: LifecycleEvent)
    requires
        event.method@ == "Target.detachedFromTarget"@,
        read@ == event.told(),
    ensures
        read matches LifecycleEvent::TargetDetached { session_id } && is_text_under(
            json_contents(event.params),
            "sessionId"@,
            characters(session_id),
        ),
{
    lemma_methods_differ();
}

/// The departure of a frame tells the frame and the reason.
pub proof fn law_departure_is_read(event: CdpEvent, read: LifecycleEvent)
    requires
        event.method@ == "Page.frameDetached"@,
        read@ == event.told(),
    ensures
        read matches LifecycleEvent::FrameDetached { frame_id, reason } && {
            &&& is_text_under(json_contents(event.params), "frameId"@, characters(frame_id))
            &&& is_text_under(json_contents(event.params), "reason"@, characters(reason))
        },
{
    lemma_methods_differ();
}

/// The navigation of a frame tells the frame and the document, as the frame's record has them.
pub proof fn law_navigation_is_read(event: CdpEvent, read: LifecycleEvent)
    requires
        event.method@ == "Page.frameNavigated"@,
        read@ == event.told(),
    ensures
        read matches LifecycleEvent::FrameNavigated { frame_id, loader_id } && {
            &&& is_text_within(json_contents(event.params), "frame"@, "id"@, characters(frame_id))
            &&& is_text_within(json_contents(event.params), "frame"@, "loaderId"@, characters(loader_id))
        },
{
    lemma_methods_differ();
}

/// Events with any other method tell nothing of frames.
pub proof fn law_other_methods_tell_nothing(event: CdpEvent, read: LifecycleEvent)
    requires
        event.method@ != "Target.attachedToTarget"@,
        event.method@ != "Target.detachedFromTarget"@,
        event.method@ != "Page.frameDetached"@,
        event.method@ != "Page.frameNavigated"@,
        read@ == event.told(),
    ensures
        read == LifecycleEvent::Other,
{
}

/// What an event tells of frames is seen as its parts are.
pub proof fn law_told_event_is_its_parts(event: LifecycleEvent)
    ensures
        event matches LifecycleEvent::TargetAttached { kind, target_id, session_id } ==> event@
            == (EventView::TargetAttached {
            kind: characters(kind),
            target_id: characters(target_id),
            session_id: characters(session_id),
        }),
        event matches LifecycleEvent::TargetDetached { session_id } ==> event@ == (EventView::TargetDetached {
            session_id: characters(session_id),
        }),
        event matches LifecycleEvent::FrameDetached { frame_id, reason } ==> event@ == (EventView::FrameDetached {
            frame_id: characters(frame_id),
            reason: characters(reason),
        }),
        event matches LifecycleEvent::FrameNavigated { frame_id, loader_id } ==> event@
            == (EventView::FrameNavigated { frame_id: characters(frame_id), loader_id: characters(loader_id) }),
        event is Other ==> event@ == EventView::Other,
{
}

/// An event comes from the session that it names, and from the empty one where it names none.
pub proof fn law_origin_is_the_session(event: CdpEvent)
    ensures
        event.session_id matches Some(session_id) ==> event.origin() == session_id@,
        event.session_id is None ==> event.origin().len() == 0,
{
}

/// A tree is read from a record: its frame from the member `frame`, with the texts `id`, `parentId`
/// and `loaderId`, and its children from the list `childFrames`, one for each item and in the same
/// order. Without the list there are no children.
pub proof fn law_frame_tree_is_read(members: Map<Seq<char>, Json>, node: NodeView)
    requires
        node == frame_node(Json::Record(members)),
    ensures
        node.frame is Some <==> members.contains_key("frame"@),
        members.contains_key("frame"@) ==> is_text_under(members["frame"@], "id"@, node.frame->0.id),
        members.contains_key("frame"@) ==> is_text_under(members["frame"@], "parentId"@, node.frame->0.parent_id),
        members.contains_key("frame"@) ==> is_text_under(members["frame"@], "loaderId"@, node.frame->0.loader_id),
        members.contains_key("childFrames"@) ==> (members["childFrames"@] matches Json::List(items) ==> {
            &&& node.children.len() == items.len()
            &&& forall|i: int| 0 <= i < items.len() ==> #[trigger] node.children[i] == frame_node(items[i])
        }),
        !(members.contains_key("childFrames"@) && members["childFrames"@] is List) ==> node.children.len() == 0,
{
}

/// Anything but a record is a tree of nothing.
pub proof fn law_other_values_hold_no_frames(json: Json)
    requires
        json !is Record,
    ensures
        frame_node(json).frame is None,
        frame_node(json).children.len() == 0,
        reply_tree(json) is None,
{
}

/// An answer gives the tree under `frameTree`, whatever that holds, and none without it.
pub proof fn law_reply_gives_its_tree(members: Map<Seq<char>, Json>)
    ensures
        members.contains_key("frameTree"@) ==> reply_tree(Json::Record(members)) == Some(
            frame_node(members["frameTree"@]),
        ),
        !members.contains_key("frameTree"@) ==> reply_tree(Json::Record(members)) is None,
{
}

/// The root's ID is that of the frame record at the root, where there is one.
pub proof fn law_root_id_is_read(tree: NodeView)
    ensures
        tree.frame matches Some(info) ==> root_id(tree) == info.id,
        tree.frame is None ==> root_id(tree) is None,
{
}

} // verus!
