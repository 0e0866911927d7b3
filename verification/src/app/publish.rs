//! The publish editor: composing a message, and the guards in front of sending it.
use vstd::prelude::*;

use crate::app::publish_laws::{edits_one_field, law_editing_reaches_one_field};
use crate::app::types::{shortened, KeyCode, KeyEvent};
use crate::text::trim;
use crate::text::trimmed;

verus! {

/// Which line of the editor the cursor is on.
#[derive(Debug, Clone, Copy, PartialEq, Eq, Structural)]
pub enum PublishField {
    Key,
    Payload,
}

impl PublishField {
    pub open spec fn flipped(self) -> PublishField {
        match self {
            PublishField::Key => PublishField::Payload,
            PublishField::Payload => PublishField::Key,
        }
    }
}

/// The editor.
pub struct PublishEditor {
    /// Whether this session may write to the network at all.
    pub allow_publish: bool,
    pub publish_key: String,
    pub publish_payload: String,
    pub publish_field: PublishField,
    /// A message handed over for sending. The session lives elsewhere, so the
    /// editor can only ever hand over an intent.
    pub pending_publish: Option<(String, String)>,
    /// The key that the last message went to, or why it did not go.
    pub publish_result: Option<Result<String, String>>,
}

/// The editor, as a mathematical value.
pub struct PublishModel {
    pub allow_publish: bool,
    pub publish_key: Seq<char>,
    pub publish_payload: Seq<char>,
    pub publish_field: PublishField,
    pub pending_publish: Option<(Seq<char>, Seq<char>)>,
    pub publish_result: Option<Result<Seq<char>, Seq<char>>>,
}

/// The view of a pending message.
pub open spec fn pending_view(p: Option<(String, String)>) -> Option<(Seq<char>, Seq<char>)> {
    match p {
        Some((k, v)) => Some((k@, v@)),
        None => None,
    }
}

/// The view of a result.
pub open spec fn result_view(r: Option<Result<String, String>>) -> Option<
    Result<Seq<char>, Seq<char>>,
> {
    match r {
        Some(Ok(k)) => Some(Ok(k@)),
        Some(Err(e)) => Some(Err(e@)),
        None => None,
    }
}

impl View for PublishEditor {
    type V = PublishModel;

    open spec fn view(&self) -> PublishModel {
        PublishModel {
            allow_publish: self.allow_publish,
            publish_key: self.publish_key@,
            publish_payload: self.publish_payload@,
            publish_field: self.publish_field,
            pending_publish: pending_view(self.pending_publish),
            publish_result: result_view(self.publish_result),
        }
    }
}

/// Whether a text holds a wildcard. A wildcard put fans out to every matching
/// subscriber, which on a fleet is every vehicle at once.
pub open spec fn has_wildcard(s: Seq<char>) -> bool {
    s.contains('*')
}

/// Whether a text holds a wildcard.
fn wildcard(s: &str) -> (r: bool)
    ensures
        r == has_wildcard(s@),
{
    for c in it: s.chars()
        invariant
            it.seq() == s@,
            forall|i: int| 0 <= i < it.index() ==> s@[i] != '*',
    {
        if c == '*' {
            assert(s@[it.index() as int] == '*');
            return true;
        }
    }
    false
}

impl PublishModel {
    /// Why the composed message may not be sent, if it may not.
    pub open spec fn refusal(self) -> Option<Seq<char>> {
        let key = trimmed(self.publish_key);
        if !self.allow_publish {
            Some("publishing is not enabled"@)
        } else if key.len() == 0 {
            Some("key expression is empty"@)
        } else if has_wildcard(key) {
            Some("wildcards are not allowed here — name one key"@)
        } else {
            None
        }
    }

    /// After the send key: the message is handed over, or the refusal is shown.
    pub open spec fn armed(self) -> PublishModel {
        match self.refusal() {
            Some(why) => PublishModel { publish_result: Some(Err(why)), ..self },
            None => PublishModel {
                pending_publish: Some((trimmed(self.publish_key), self.publish_payload)),
                publish_result: None,
                ..self
            },
        }
    }

    /// The editor opened on a key, or on none.
    pub open spec fn opened(self, key: Option<Seq<char>>) -> PublishModel {
        let k = match key {
            Some(k) => k,
            None => Seq::empty(),
        };
        PublishModel {
            publish_key: k,
            publish_payload: Seq::empty(),
            publish_field: if k.len() == 0 {
                PublishField::Key
            } else {
                PublishField::Payload
            },
            publish_result: None,
            ..self
        }
    }

    /// After a character was typed.
    pub open spec fn typed(self, c: char) -> PublishModel {
        match self.publish_field {
            PublishField::Key => PublishModel { publish_key: self.publish_key.push(c), ..self },
            PublishField::Payload => PublishModel {
                publish_payload: self.publish_payload.push(c),
                ..self
            },
        }
    }

    /// After the last character was taken out.
    pub open spec fn rubbed_out(self) -> PublishModel {
        match self.publish_field {
            PublishField::Key => PublishModel { publish_key: shortened(self.publish_key), ..self },
            PublishField::Payload => PublishModel {
                publish_payload: shortened(self.publish_payload),
                ..self
            },
        }
    }

    /// After a key press in the editor. `Ctrl+Enter` sends, plain `Enter` does not:
    /// every other editor commits on `Enter`, and the muscle memory that dismisses
    /// a dialog must not be what writes to a live network.
    pub open spec fn pressed(self, key: KeyEvent) -> PublishModel {
        match key.code {
            KeyCode::Esc => PublishModel { publish_result: None, ..self },
            KeyCode::Tab | KeyCode::Down | KeyCode::Up => PublishModel {
                publish_field: self.publish_field.flipped(),
                ..self
            },
            KeyCode::Enter => if key.ctrl {
                self.armed()
            } else {
                self
            },
            KeyCode::Backspace => self.rubbed_out(),
            KeyCode::Char(c) => self.typed(c),
            _ => self,
        }
    }

    /// An editor of a session that may not write.
    pub open spec fn fresh() -> PublishModel {
        PublishModel {
            allow_publish: false,
            publish_key: Seq::empty(),
            publish_payload: Seq::empty(),
            publish_field: PublishField::Key,
            pending_publish: None,
            publish_result: None,
        }
    }
}

impl PublishEditor {
    /// An editor of a session that may not write.
    pub fn new() -> (e: PublishEditor)
        ensures
            e@ == PublishModel::fresh(),
    {
        PublishEditor {
            allow_publish: false,
            publish_key: String::new(),
            publish_payload: String::new(),
            publish_field: PublishField::Key,
            pending_publish: None,
            publish_result: None,
        }
    }

    /// Start composing, with the key filled in where there is one.
    pub fn open_on(&mut self, key: Option<String>)
        ensures
            final(self)@ == old(self)@.opened(crate::message::string_view(key)),
    {
        self.publish_key = match key {
            Some(k) => k,
            None => String::new(),
        };
        self.publish_payload = String::new();
        self.publish_field = if self.publish_key.as_str().is_empty() {
            PublishField::Key
        } else {
            PublishField::Payload
        };
        self.publish_result = None;
    }

    /// Hand the composed message over for sending.
    ///
    /// The permission is checked again here, so that the guarantee does not depend
    /// on how this was reached.
    pub fn arm_publish(&mut self)
        ensures
            final(self)@ == old(self)@.armed(),
    {
        if !self.allow_publish {
            self.publish_result = Some(Err("publishing is not enabled".to_owned()));
            return;
        }
        let key = trim(self.publish_key.as_str());
        if key.as_str().is_empty() {
            self.publish_result = Some(Err("key expression is empty".to_owned()));
            return;
        }
        if wildcard(key.as_str()) {
            self.publish_result = Some(
                Err("wildcards are not allowed here — name one key".to_owned()),
            );
            return;
        }
        self.pending_publish = Some((key, self.publish_payload.clone()));
        self.publish_result = None;
    }

    /// A key press in the editor; whether it closes the editor.
    pub fn handle_publish_key(&mut self, key: KeyEvent) -> (closes: bool)
        ensures
            final(self)@ == old(self)@.pressed(key),
            closes == (key.code == KeyCode::Esc),
            key.code is Char || key.code is Backspace ==> edits_one_field(
                old(self)@,
                key,
                final(self)@,
            ),
    {
        proof {
            if key.code is Char || key.code is Backspace {
                law_editing_reaches_one_field(self@, key);
            }
        }
        match key.code {
            KeyCode::Esc => {
                self.publish_result = None;
                return true;
            },
            KeyCode::Tab | KeyCode::Down | KeyCode::Up => {
                self.publish_field = match self.publish_field {
                    PublishField::Key => PublishField::Payload,
                    PublishField::Payload => PublishField::Key,
                };
            },
            KeyCode::Enter => {
                if key.ctrl {
                    self.arm_publish();
                }
            },
            KeyCode::Backspace => match self.publish_field {
                PublishField::Key => {
                    let _ = self.publish_key.pop();
                },
                PublishField::Payload => {
                    let _ = self.publish_payload.pop();
                },
            },
            KeyCode::Char(c) => match self.publish_field {
                PublishField::Key => {
                    self.publish_key.push(c);
                },
                PublishField::Payload => {
                    self.publish_payload.push(c);
                },
            },
            _ => {},
        }
        false
    }
}

/// Nothing is ever handed over for sending by a session that may not write.
pub proof fn law_nothing_is_sent_without_permission(m: PublishModel, key: KeyEvent)
    requires
        !m.allow_publish,
    ensures
        m.pressed(key).pending_publish == m.pending_publish,
        !m.pressed(key).allow_publish,
{
}

/// Only `Ctrl+Enter` hands a message over; every other key leaves what is pending
/// alone.
pub proof fn law_only_the_send_key_sends(m: PublishModel, key: KeyEvent)
    requires
        !(key.code == KeyCode::Enter && key.ctrl),
    ensures
        m.pressed(key).pending_publish == m.pending_publish,
{
}

/// What is handed over names exactly one key: it is the composed key, without the
/// space around it, not empty and without a wildcard.
pub proof fn law_what_is_sent_names_one_key(m: PublishModel, key: KeyEvent)
    requires
        m.pressed(key).pending_publish != m.pending_publish,
    ensures
        m.pressed(key).pending_publish == Some((trimmed(m.publish_key), m.publish_payload)),
        trimmed(m.publish_key).len() > 0,
        !has_wildcard(trimmed(m.publish_key)),
        m.allow_publish,
{
}

} // verus!
