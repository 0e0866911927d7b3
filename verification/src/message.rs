//! Messages as they arrive from the network.
use vstd::prelude::*;

use crate::json::{Json, JsonModel};

verus! {

/// A message payload, in the forms that the monitor reads it.
#[derive(Debug)]
pub struct MessagePayload {
    /// Length in bytes.
    pub len: usize,
    /// The structured view: parsed JSON where the payload was JSON, a capped
    /// preview where it was too large.
    pub view: Json,
    /// The full payload, laid out for reading and copying.
    pub pretty: String,
    /// The payload on one line.
    pub text: String,
}

/// A payload, as a mathematical value.
pub struct PayloadModel {
    pub len: usize,
    pub view: JsonModel,
    pub pretty: Seq<char>,
    pub text: Seq<char>,
}

impl View for MessagePayload {
    type V = PayloadModel;

    open spec fn view(&self) -> PayloadModel {
        PayloadModel {
            len: self.len,
            view: self.view@,
            pretty: self.pretty@,
            text: self.text@,
        }
    }
}

/// One sample received on a key.
#[derive(Debug)]
pub struct ZenohMessage {
    pub key_expr: String,
    pub payload: MessagePayload,
    pub encoding: String,
    /// Length of the payload on the wire.
    pub payload_bytes: usize,
    pub timestamp: Option<String>,
    pub kind: String,
    pub attachment: Option<MessagePayload>,
    pub attachment_bytes: Option<usize>,
}

/// A message, as a mathematical value.
pub struct MessageModel {
    pub key_expr: Seq<char>,
    pub payload: PayloadModel,
    pub encoding: Seq<char>,
    pub payload_bytes: usize,
    pub timestamp: Option<Seq<char>>,
    pub kind: Seq<char>,
    pub attachment: Option<PayloadModel>,
    pub attachment_bytes: Option<usize>,
}

/// The view of an optional string.
pub open spec fn string_view(s: Option<String>) -> Option<Seq<char>> {
    match s {
        Some(s) => Some(s@),
        None => None,
    }
}

impl View for ZenohMessage {
    type V = MessageModel;

    open spec fn view(&self) -> MessageModel {
        MessageModel {
            key_expr: self.key_expr@,
            payload: self.payload@,
            encoding: self.encoding@,
            payload_bytes: self.payload_bytes,
            timestamp: string_view(self.timestamp),
            kind: self.kind@,
            attachment: match self.attachment {
                Some(a) => Some(a@),
                None => None,
            },
            attachment_bytes: self.attachment_bytes,
        }
    }
}

impl MessagePayload {
    /// A copy of the payload.
    pub fn duplicate(&self) -> (r: MessagePayload)
        ensures
            r@ == self@,
    {
        MessagePayload {
            len: self.len,
            view: self.view.duplicate(),
            pretty: self.pretty.clone(),
            text: self.text.clone(),
        }
    }
}

impl ZenohMessage {
    /// A copy of the message.
    pub fn duplicate(&self) -> (r: ZenohMessage)
        ensures
            r@ == self@,
    {
        let timestamp = match &self.timestamp {
            Some(t) => Some(t.clone()),
            None => None,
        };
        let attachment = match &self.attachment {
            Some(a) => Some(a.duplicate()),
            None => None,
        };
        ZenohMessage {
            key_expr: self.key_expr.clone(),
            payload: self.payload.duplicate(),
            encoding: self.encoding.clone(),
            payload_bytes: self.payload_bytes,
            timestamp,
            kind: self.kind.clone(),
            attachment,
            attachment_bytes: self.attachment_bytes,
        }
    }
}

} // verus!
