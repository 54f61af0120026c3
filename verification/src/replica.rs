//! The binary state transport, and the surface's state as it is read out.

use vstd::prelude::*;

use crate::json::{
    empty_object, json_bool, json_number, json_opt_text, json_text, object, text_or_null, Json,
    JsonView,
};
use crate::mcp::{base64_text, encodable, picture_text};
use crate::text::{decimal, opt_text, to_decimal};

verus! {

/// What happens on a connection of the binary transport.
pub enum WsEvent {
    /// The state stream has a frame for the client.
    Outbound(Vec<u8>),
    /// The client fell so far behind that frames are lost.
    Lagged,
    /// The state stream ended.
    Ended,
    /// The client sent a frame, and the surface answers it or rejects it.
    Binary(Result<Vec<Vec<u8>>, String>),
    /// The client sent text.
    Text,
    /// The client asked whether the connection lives, or said so.
    Heartbeat,
    /// The client is gone.
    Gone,
}

/// What is done about it.
#[derive(Debug, PartialEq, Eq)]
pub enum WsAction {
    /// Send the client a frame. Where that fails, the connection is over.
    Send(Vec<u8>),
    /// Send these frames to every client.
    Broadcast(Vec<Vec<u8>>),
    Ignore,
    /// Tell the client that the connection ends, and end it.
    Close,
    /// End the connection.
    Stop,
}

/// The bytes of some frames.
pub open spec fn frames(list: Seq<Vec<u8>>) -> Seq<Seq<u8>> {
    Seq::new(list.len(), |i: int| list[i]@)
}

/// What is done, in contracts.
pub enum ActionView {
    Send(Seq<u8>),
    Broadcast(Seq<Seq<u8>>),
    Ignore,
    Close,
    Stop,
}

impl View for WsAction {
    type V = ActionView;

    open spec fn view(&self) -> ActionView {
        match self {
            WsAction::Send(frame) => ActionView::Send(frame@),
            WsAction::Broadcast(list) => ActionView::Broadcast(frames(list@)),
            WsAction::Ignore => ActionView::Ignore,
            WsAction::Close => ActionView::Close,
            WsAction::Stop => ActionView::Stop,
        }
    }
}

/// What is done about an event: a client that lost frames, sends text or sends
/// what the surface rejects is closed, so that it starts anew from the whole
/// state.
pub open spec fn reaction(event: WsEvent) -> ActionView {
    match event {
        WsEvent::Outbound(frame) => ActionView::Send(frame@),
        WsEvent::Lagged => ActionView::Close,
        WsEvent::Ended => ActionView::Close,
        WsEvent::Binary(Ok(replies)) => ActionView::Broadcast(frames(replies@)),
        WsEvent::Binary(Err(_)) => ActionView::Close,
        WsEvent::Text => ActionView::Close,
        WsEvent::Heartbeat => ActionView::Ignore,
        WsEvent::Gone => ActionView::Stop,
    }
}

/// Decides what is done about an event of the binary transport.
pub fn ws_step(event: WsEvent) -> (action: WsAction)
    ensures
        action@ == reaction(event),
{
    match event {
        WsEvent::Outbound(frame) => WsAction::Send(frame),
        WsEvent::Lagged => WsAction::Close,
        WsEvent::Ended => WsAction::Close,
        WsEvent::Binary(Ok(replies)) => WsAction::Broadcast(replies),
        WsEvent::Binary(Err(_)) => WsAction::Close,
        WsEvent::Text => WsAction::Close,
        WsEvent::Heartbeat => WsAction::Ignore,
        WsEvent::Gone => WsAction::Stop,
    }
}

/// A client never goes on with an incomplete history: losing frames, and a
/// frame that the surface rejects, end its connection.
pub proof fn law_an_incomplete_history_ends_the_connection(event: WsEvent)
    ensures
        event is Lagged || event is Text || (event matches WsEvent::Binary(outcome) && outcome
            is Err) ==> reaction(event) is Close,
        reaction(event) is Send || reaction(event) is Broadcast || reaction(event) is Ignore ==> {
            ||| event is Outbound
            ||| event is Heartbeat
            ||| event matches WsEvent::Binary(outcome) && outcome is Ok
        },
{
}

/// The surface's picture as it is read out, or what is said without one.
#[derive(Debug, PartialEq, Eq)]
pub enum PictureReply {
    Png(Vec<u8>),
    Text(String),
    Unavailable(String),
}

/// A picture reply in contracts.
pub enum PictureReplyView {
    Png(Seq<u8>),
    Text(Seq<char>),
    Unavailable(Seq<char>),
}

impl View for PictureReply {
    type V = PictureReplyView;

    open spec fn view(&self) -> PictureReplyView {
        match self {
            PictureReply::Png(bytes) => PictureReplyView::Png(bytes@),
            PictureReply::Text(text) => PictureReplyView::Text(text@),
            PictureReply::Unavailable(message) => PictureReplyView::Unavailable(message@),
        }
    }
}

/// What is said where there is no picture.
pub open spec fn no_picture(picture: Result<Option<Vec<u8>>, String>) -> Seq<char> {
    match picture {
        Ok(_) => "renderer unavailable"@,
        Err(error) => error@,
    }
}

/// The surface's picture, as bytes.
pub open spec fn picture_bytes(picture: Result<Option<Vec<u8>>, String>) -> PictureReplyView {
    match picture {
        Ok(Some(png)) => PictureReplyView::Png(png@),
        _ => PictureReplyView::Unavailable(no_picture(picture)),
    }
}

/// The surface's picture, as bytes.
pub fn state_png(picture: Result<Option<Vec<u8>>, String>) -> (reply: PictureReply)
    ensures
        reply@ == picture_bytes(picture),
{
    match picture {
        Ok(Some(png)) => PictureReply::Png(png),
        Ok(None) => PictureReply::Unavailable("renderer unavailable".to_owned()),
        Err(error) => PictureReply::Unavailable(error),
    }
}

/// The surface's picture, as text.
pub fn state_png_text(picture: Result<Option<Vec<u8>>, String>) -> (reply: PictureReply)
    requires
        picture matches Ok(Some(png)) ==> encodable(png@.len()),
    ensures
        reply@ == (match picture {
            Ok(Some(png)) => PictureReplyView::Text(base64_text(png@)),
            _ => PictureReplyView::Unavailable(no_picture(picture)),
        }),
{
    match picture {
        Ok(Some(png)) => PictureReply::Text(picture_text(&png)),
        Ok(None) => PictureReply::Unavailable("renderer unavailable".to_owned()),
        Err(error) => PictureReply::Unavailable(error),
    }
}

/// How the runtime is doing.
#[derive(Debug, PartialEq, Eq)]
pub struct Stats {
    pub ws_subscribers: usize,
    pub sse_subscribers: usize,
    pub provider: String,
    pub ready: bool,
    pub warming: bool,
    pub provider_error: Option<String>,
    pub busy: bool,
    pub audio: bool,
}

/// How the runtime is doing, on the wire.
pub open spec fn stats_value(stats: Stats) -> JsonView {
    empty_object().with(
        "ws_subscribers"@,
        JsonView::Number(decimal(stats.ws_subscribers as nat)),
    ).with("sse_subscribers"@, JsonView::Number(decimal(stats.sse_subscribers as nat))).with(
        "provider"@,
        JsonView::Text(stats.provider@),
    ).with("ready"@, JsonView::Bool(stats.ready)).with(
        "warming"@,
        JsonView::Bool(stats.warming),
    ).with("provider_error"@, text_or_null(opt_text(stats.provider_error))).with(
        "busy"@,
        JsonView::Bool(stats.busy),
    ).with("audio"@, JsonView::Bool(stats.audio))
}

/// How the runtime is doing, on the wire.
pub fn stats_json(stats: &Stats) -> (value: Json)
    ensures
        value@ == stats_value(*stats),
{
    object().with(
        "ws_subscribers",
        json_number(&to_decimal(stats.ws_subscribers as u64)),
    ).with("sse_subscribers", json_number(&to_decimal(stats.sse_subscribers as u64))).with(
        "provider",
        json_text(&stats.provider),
    ).with("ready", json_bool(stats.ready)).with("warming", json_bool(stats.warming)).with(
        "provider_error",
        json_opt_text(&stats.provider_error),
    ).with("busy", json_bool(stats.busy)).with("audio", json_bool(stats.audio))
}

/// What a surface without a binary transport says of it.
pub const BINARY_TRANSPORT_NOT_IMPLEMENTED: &'static str =
    "binary websocket transport is not implemented for this surface";

/// What a surface says and does on the binary transport. One that does not
/// implement it accepts nobody there, and nothing that they send.
pub trait SurfaceState {
    /// The frames for a client that connects, before anything that changes.
    fn ws_hello(&self) -> (frames: Result<Vec<Vec<u8>>, String>)
        default_ensures
            frames matches Err(message) && message@
                == "binary websocket transport is not implemented for this surface"@,
    {
        Err(BINARY_TRANSPORT_NOT_IMPLEMENTED.to_owned())
    }

    /// Takes a frame from a client, and gives the frames that everybody is sent
    /// for it.
    fn ws_receive(&self, data: &[u8]) -> (frames: Result<Vec<Vec<u8>>, String>)
        default_ensures
            frames matches Err(message) && message@
                == "binary websocket transport is not implemented for this surface"@,
    {
        Err(BINARY_TRANSPORT_NOT_IMPLEMENTED.to_owned())
    }
}

/// What a surface keeps beyond its state. Its context stands in every prompt.
pub trait SurfaceStore {
    /// Text for the assistant's prompt. A store without any gives none.
    fn context(&self) -> (text: String)
        default_ensures
            text@.len() == 0,
    {
        String::new()
    }
}

} // verus!
