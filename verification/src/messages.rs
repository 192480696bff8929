use vstd::prelude::*;

use crate::ids::ApplicationId;

verus! {

/// A message published to a channel.
#[derive(Debug)]
pub struct Message {
    pub name: Option<String>,
    pub data: serde_json::Value,
    pub client_id: Option<String>,
}

/// Messages published to a channel by a client of this node.
#[derive(Debug)]
pub struct ChannelMessagePublished {
    pub application_id: ApplicationId,
    pub channel: String,
    pub messages: Vec<Message>,
}

/// Messages submitted over HTTP, to be delivered on every node.
#[derive(Debug)]
pub struct ChannelMessageSubmitted {
    pub application_id: ApplicationId,
    pub channel: String,
    pub messages: Vec<Message>,
}

/// A WebSocket connection was opened.
#[derive(Debug)]
pub struct WebsocketConnected {
    pub connection_id: String,
}

/// A WebSocket connection was closed.
#[derive(Debug)]
pub struct WebsocketDisconnected {
    pub connection_id: String,
}

/// A request for an access token of a client.
#[derive(Debug)]
pub struct AccessTokenRequest {
    pub client_id: String,
}

/// An issued access token.
#[derive(Debug)]
pub struct AccessTokenResponse {
    pub application_id: String,
    pub client_id: String,
    pub jwt: String,
    pub ttl_seconds: u64,
}

/// The wire format of a WebSocket connection.
#[derive(PartialEq, Eq, Structural, Clone, Copy, Debug)]
pub enum WebsocketFormat {
    Json,
}

/// The query of a WebSocket connection request.
#[derive(Debug)]
pub struct WebSocketQuery {
    pub access_token: String,
    pub format: WebsocketFormat,
    pub heartbeats: bool,
}

/// The answer to an accepted HTTP publish: the identifier of its event.
#[derive(Debug)]
pub struct BroadcastMessageResponse {
    pub accepted: bool,
    pub event_id: u128,
}

/// The application an HTTP publish request is authenticated for.
#[derive(Debug)]
pub struct BroadcastApplication(pub ApplicationId);

/// One item or a list of items, as a request body may hold either.
#[derive(Debug)]
pub enum OneOrMany<T> {
    One(T),
    Many(Vec<T>),
}

impl<T> OneOrMany<T> {
    /// The items as a list.
    pub fn into_vec(self) -> (r: Vec<T>)
        ensures
            r@ == match self {
                OneOrMany::One(item) => seq![item],
                OneOrMany::Many(items) => items@,
            },
    {
        match self {
            OneOrMany::One(item) => {
                let mut items = Vec::new();
                items.push(item);
                proof {
                    assert(items@ =~= seq![item]);
                }
                items
            },
            OneOrMany::Many(items) => items,
        }
    }
}

} // verus!
