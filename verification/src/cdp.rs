//! The browser's events, as far as they tell of frames.

use crate::json::{json_at, json_contents, json_text, Json};
use crate::text::{optional_text, same_text};
use serde_json::Value;
use vstd::prelude::*;

verus! {

/// An event of the browser, with the session that it came from.
#[derive(Debug)]
pub struct CdpEvent {
    pub method: String,
    pub session_id: Option<String>,
    pub params: Value,
}

/// What an event tells of frames. A part that is missing, or is not text, is `None`.
#[derive(Debug)]
pub enum LifecycleEvent {
    /// A session has been attached to a target.
    TargetAttached { kind: Option<String>, target_id: Option<String>, session_id: Option<String> },
    /// A session has been detached from its target.
    TargetDetached { session_id: Option<String> },
    /// A frame has left a renderer: it was removed, or goes on in another one.
    FrameDetached { frame_id: Option<String>, reason: Option<String> },
    /// A frame shows a document.
    FrameNavigated { frame_id: Option<String>, loader_id: Option<String> },
    /// Nothing.
    Other,
}

/// What a `LifecycleEvent` holds.
#[verifier::ext_equal]
pub enum EventView {
    TargetAttached { kind: Option<Seq<char>>, target_id: Option<Seq<char>>, session_id: Option<Seq<char>> },
    TargetDetached { session_id: Option<Seq<char>> },
    FrameDetached { frame_id: Option<Seq<char>>, reason: Option<Seq<char>> },
    FrameNavigated { frame_id: Option<Seq<char>>, loader_id: Option<Seq<char>> },
    Other,
}

impl View for LifecycleEvent {
    type V = EventView;

    open spec fn view(&self) -> EventView {
        match *self {
            LifecycleEvent::TargetAttached { kind, target_id, session_id } => EventView::TargetAttached {
                kind: optional_text(kind),
                target_id: optional_text(target_id),
                session_id: optional_text(session_id),
            },
            LifecycleEvent::TargetDetached { session_id } => EventView::TargetDetached {
                session_id: optional_text(session_id),
            },
            LifecycleEvent::FrameDetached { frame_id, reason } => EventView::FrameDetached {
                frame_id: optional_text(frame_id),
                reason: optional_text(reason),
            },
            LifecycleEvent::FrameNavigated { frame_id, loader_id } => EventView::FrameNavigated {
                frame_id: optional_text(frame_id),
                loader_id: optional_text(loader_id),
            },
            LifecycleEvent::Other => EventView::Other,
        }
    }
}

/// What an event with this method and these parameters tells of frames.
pub open spec fn lifecycle(method: Seq<char>, params: Json) -> EventView {
    if method == "Target.attachedToTarget"@ {
        EventView::TargetAttached {
            kind: params.at("targetInfo"@).at("type"@).text(),
            target_id: params.at("targetInfo"@).at("targetId"@).text(),
            session_id: params.at("sessionId"@).text(),
        }
    } else if method == "Target.detachedFromTarget"@ {
        EventView::TargetDetached { session_id: params.at("sessionId"@).text() }
    } else if method == "Page.frameDetached"@ {
        EventView::FrameDetached {
            frame_id: params.at("frameId"@).text(),
            reason: params.at("reason"@).text(),
        }
    } else if method == "Page.frameNavigated"@ {
        EventView::FrameNavigated {
            frame_id: params.at("frame"@).at("id"@).text(),
            loader_id: params.at("frame"@).at("loaderId"@).text(),
        }
    } else {
        EventView::Other
    }
}

/// The text under a key of a record.
fn read_text(json: &Value, key: &str) -> (text: Option<String>)
    ensures
        optional_text(text) == json_contents(*json).at(key@).text(),
{
    match json_text(json_at(json, key)) {
        Some(text) => Some(text.to_owned()),
        None => None,
    }
}

impl CdpEvent {
    /// The session that the event came from; empty for the browser itself.
    pub open spec fn origin(self) -> Seq<char> {
        match self.session_id {
            Some(session_id) => session_id@,
            None => Seq::empty(),
        }
    }

    /// What the event tells of frames.
    pub open spec fn told(self) -> EventView {
        lifecycle(self.method@, json_contents(self.params))
    }

    /// Reads what the event tells of frames.
    pub fn lifecycle_event(&self) -> (event: LifecycleEvent)
        ensures
            event@ == self.told(),
    {
        let method = self.method.as_str();
        let params = &self.params;
        if same_text(method, "Target.attachedToTarget") {
            let info = json_at(params, "targetInfo");
            LifecycleEvent::TargetAttached {
                kind: read_text(info, "type"),
                target_id: read_text(info, "targetId"),
                session_id: read_text(params, "sessionId"),
            }
        } else if same_text(method, "Target.detachedFromTarget") {
            LifecycleEvent::TargetDetached { session_id: read_text(params, "sessionId") }
        } else if same_text(method, "Page.frameDetached") {
            LifecycleEvent::FrameDetached {
                frame_id: read_text(params, "frameId"),
                reason: read_text(params, "reason"),
            }
        } else if same_text(method, "Page.frameNavigated") {
            let frame = json_at(params, "frame");
            LifecycleEvent::FrameNavigated {
                frame_id: read_text(frame, "id"),
                loader_id: read_text(frame, "loaderId"),
            }
        } else {
            LifecycleEvent::Other
        }
    }
}

} // verus!
