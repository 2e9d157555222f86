//! Plain data carried between the transport and the verified logic:
//! endpoint configuration, decoded sync/login payloads, outgoing replies,
//! and the login failure taxonomy.

use vstd::prelude::*;

verus! {

/// Endpoint layout of the remote chat server.
pub struct MatrixConfig {
    pub protocol: &'static str,
    pub host: &'static str,
    pub login: &'static str,
    pub sync: &'static str,
    pub rooms: &'static str,
    pub send_message: &'static str,
    pub logout: &'static str,
}

/// A reply to be posted into a room.
#[derive(Debug, PartialEq, Eq)]
pub struct Message {
    pub room: String,
    pub message: String,
}

pub ghost struct MsgS {
    pub room: Seq<char>,
    pub message: Seq<char>,
}

impl View for Message {
    type V = MsgS;

    open spec fn view(&self) -> MsgS {
        MsgS { room: self.room@, message: self.message@ }
    }
}

impl DeepView for Message {
    type V = MsgS;

    open spec fn deep_view(&self) -> MsgS {
        self@
    }
}

/// How a login attempt failed.
#[derive(Debug, PartialEq, Eq, Structural, Clone, Copy)]
pub enum MatrixError {
    LogonFailure,
    ServerFailure,
    OtherFailure,
}

/// Decoded body of a successful login response.
pub struct MatrixLoginResponse {
    pub access_token: String,
}

/// Decoded body of a sync response; `rooms` is absent when the poll
/// returned no room data.
pub struct MatrixNextBatchResponse {
    pub next_batch: String,
    pub rooms: Option<MatrixRoomCollection>,
}

/// The joined rooms of a sync response, each with its timeline, in the
/// order the transport handed them over.
pub struct MatrixRoomCollection {
    pub join: Vec<(String, MatrixRoom)>,
}

pub struct MatrixRoom {
    pub timeline: MatrixTimeline,
}

pub struct MatrixTimeline {
    pub events: Vec<MatrixEvent>,
}

/// One room event; fields are optional because the server omits them for
/// non-message events.
pub struct MatrixEvent {
    pub content: Option<MatrixContent>,
    pub sender: Option<String>,
}

pub struct MatrixContent {
    pub body: Option<String>,
    pub msgtype: Option<String>,
}

pub ghost struct ContentS {
    pub body: Option<Seq<char>>,
    pub msgtype: Option<Seq<char>>,
}

pub ghost struct EventS {
    pub content: Option<ContentS>,
    pub sender: Option<Seq<char>>,
}

impl View for MatrixContent {
    type V = ContentS;

    open spec fn view(&self) -> ContentS {
        ContentS {
            body: match self.body {
                Some(ref b) => Some(b@),
                None => None,
            },
            msgtype: match self.msgtype {
                Some(ref m) => Some(m@),
                None => None,
            },
        }
    }
}

impl View for MatrixEvent {
    type V = EventS;

    open spec fn view(&self) -> EventS {
        EventS {
            content: match self.content {
                Some(ref c) => Some(c@),
                None => None,
            },
            sender: match self.sender {
                Some(ref s) => Some(s@),
                None => None,
            },
        }
    }
}

impl DeepView for MatrixEvent {
    type V = EventS;

    open spec fn deep_view(&self) -> EventS {
        self@
    }
}

impl View for MatrixTimeline {
    type V = Seq<EventS>;

    open spec fn view(&self) -> Seq<EventS> {
        self.events.deep_view()
    }
}

impl View for MatrixRoom {
    type V = Seq<EventS>;

    open spec fn view(&self) -> Seq<EventS> {
        self.timeline@
    }
}

impl DeepView for MatrixRoom {
    type V = Seq<EventS>;

    open spec fn deep_view(&self) -> Seq<EventS> {
        self@
    }
}

} // verus!
