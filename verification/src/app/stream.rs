//! The message stream: the most recent messages over all keys, newest first, with
//! a filter and a cursor that either follows the newest message or stays on the
//! one it was pinned to.
use std::collections::VecDeque;
use vstd::prelude::*;

use crate::app::tree_pane::{clamp_selection, clamped};
use crate::app::types::shortened;
use crate::message::{string_view, MessageModel, ZenohMessage};
use crate::text::{contains_text, occurs, same};

verus! {

/// Messages kept in the stream.
pub const STREAM_CAP: usize = 500;

/// Messages kept for the overview.
pub const RECENT_CAP: usize = 100;

/// The message stream.
pub struct Stream {
    /// The latest messages, newest first, whatever the stream does.
    pub recent_messages: VecDeque<ZenohMessage>,
    /// The messages of the stream, newest first.
    pub sub_messages: VecDeque<ZenohMessage>,
    /// New messages are not taken in.
    pub sub_paused: bool,
    /// The cursor, over the messages that pass the filter.
    pub sub_selected: usize,
    /// The cursor stays on the newest message.
    pub stream_follow: bool,
    /// Case-sensitive text filter; empty means no filtering.
    pub stream_filter: String,
    /// Exact key filter, which takes the place of the text filter.
    pub stream_key_filter: Option<String>,
    /// The filter is being edited.
    pub stream_filtering: bool,
}

/// The message stream, as a mathematical value.
pub struct StreamModel {
    pub recent_messages: Seq<MessageModel>,
    pub sub_messages: Seq<MessageModel>,
    pub sub_paused: bool,
    pub sub_selected: usize,
    pub stream_follow: bool,
    pub stream_filter: Seq<char>,
    pub stream_key_filter: Option<Seq<char>>,
    pub stream_filtering: bool,
}

/// The models of a list of messages.
pub open spec fn message_models(v: Seq<ZenohMessage>) -> Seq<MessageModel> {
    v.map_values(|m: ZenohMessage| m@)
}

impl View for Stream {
    type V = StreamModel;

    open spec fn view(&self) -> StreamModel {
        StreamModel {
            recent_messages: message_models(self.recent_messages@),
            sub_messages: message_models(self.sub_messages@),
            sub_paused: self.sub_paused,
            sub_selected: self.sub_selected,
            stream_follow: self.stream_follow,
            stream_filter: self.stream_filter@,
            stream_key_filter: string_view(self.stream_key_filter),
            stream_filtering: self.stream_filtering,
        }
    }
}

/// Whether a message passes the filters: the exact key where one is set, else the
/// text, looked for in the key, the payload and the attachment.
pub open spec fn admits(key: Option<Seq<char>>, text: Seq<char>, msg: MessageModel) -> bool {
    match key {
        Some(k) => msg.key_expr == k,
        None => {
            ||| text.len() == 0
            ||| occurs(msg.key_expr, text)
            ||| occurs(msg.payload.pretty, text)
            ||| (match msg.attachment {
                Some(a) => occurs(a.pretty, text),
                None => false,
            })
        },
    }
}

/// The messages that pass the filters, in order.
pub open spec fn admitted(
    key: Option<Seq<char>>,
    text: Seq<char>,
    msgs: Seq<MessageModel>,
) -> Seq<MessageModel>
    decreases msgs.len(),
{
    if msgs.len() == 0 {
        msgs
    } else {
        let before = admitted(key, text, msgs.drop_last());
        if admits(key, text, msgs.last()) {
            before.push(msgs.last())
        } else {
            before
        }
    }
}

/// The newest `cap` of some messages, with a new one in front.
pub open spec fn in_front(msg: MessageModel, msgs: Seq<MessageModel>, cap: nat) -> Seq<MessageModel> {
    let all = seq![msg] + msgs;
    if all.len() > cap {
        all.drop_last()
    } else {
        all
    }
}

impl StreamModel {
    /// The messages that pass the filters, newest first.
    pub open spec fn filtered(self) -> Seq<MessageModel> {
        admitted(self.stream_key_filter, self.stream_filter, self.sub_messages)
    }

    /// After making sure that the cursor is on a message.
    pub open spec fn on_a_message(self) -> StreamModel {
        StreamModel { sub_selected: clamped(self.sub_selected, self.filtered().len()), ..self }
    }

    /// After a message arrived. A pinned cursor moves along with the message that
    /// it is on; one that follows stays in front.
    pub open spec fn received(self, msg: MessageModel) -> StreamModel {
        let seen = StreamModel {
            recent_messages: in_front(msg, self.recent_messages, RECENT_CAP as nat),
            ..self
        };
        if self.sub_paused {
            seen
        } else {
            let taken = StreamModel {
                sub_messages: in_front(msg, self.sub_messages, STREAM_CAP as nat),
                ..seen
            };
            let shifts = !self.stream_follow && self.sub_selected > 0 && self.sub_selected
                < usize::MAX && admits(self.stream_key_filter, self.stream_filter, msg);
            let shifted = StreamModel {
                sub_selected: if shifts {
                    (self.sub_selected + 1) as usize
                } else {
                    self.sub_selected
                },
                ..taken
            };
            if self.stream_follow {
                StreamModel { sub_selected: 0, ..taken }
            } else {
                shifted.on_a_message()
            }
        }
    }

    /// After the cursor was sent back to the newest message.
    pub open spec fn following(self) -> StreamModel {
        StreamModel { stream_follow: true, sub_selected: 0, ..self }
    }

    /// After the cursor was pinned to a message.
    pub open spec fn pinned(self, at: usize) -> StreamModel {
        (StreamModel { stream_follow: false, sub_selected: at, ..self }).on_a_message()
    }

    /// After the stream was narrowed to one key.
    pub open spec fn narrowed(self, key: Seq<char>) -> StreamModel {
        (StreamModel {
            stream_filter: Seq::empty(),
            stream_key_filter: Some(key),
            stream_filtering: false,
            ..self
        }).on_a_message()
    }

    /// After a character was typed into the filter.
    pub open spec fn typed(self, c: char) -> StreamModel {
        (StreamModel {
            stream_filter: self.stream_filter.push(c),
            stream_key_filter: None,
            ..self
        }).on_a_message()
    }

    /// After the last character of the filter was taken out.
    pub open spec fn rubbed_out(self) -> StreamModel {
        (StreamModel {
            stream_filter: shortened(self.stream_filter),
            stream_key_filter: None,
            ..self
        }).on_a_message()
    }

    /// After the messages of a session were dropped. The filters, the pause and
    /// the follow mode are the user's and stay.
    pub open spec fn emptied(self) -> StreamModel {
        StreamModel {
            recent_messages: Seq::empty(),
            sub_messages: Seq::empty(),
            sub_selected: 0,
            ..self
        }
    }

    /// A new stream.
    pub open spec fn fresh() -> StreamModel {
        StreamModel {
            recent_messages: Seq::empty(),
            sub_messages: Seq::empty(),
            sub_paused: false,
            sub_selected: 0,
            stream_follow: true,
            stream_filter: Seq::empty(),
            stream_key_filter: None,
            stream_filtering: false,
        }
    }
}

/// Put a message in front of a bounded list.
fn put_in_front(msgs: &mut VecDeque<ZenohMessage>, msg: ZenohMessage, cap: usize)
    ensures
        message_models(final(msgs)@) == in_front(msg@, message_models(old(msgs)@), cap as nat),
{
    let ghost before = msgs@;
    let ghost m = msg@;
    msgs.push_front(msg);
    let ghost all = msgs@;
    assert(message_models(all) =~= seq![m] + message_models(before));
    if msgs.len() > cap {
        let _ = msgs.pop_back();
        assert(message_models(msgs@) =~= message_models(all).drop_last());
    }
}

impl Stream {
    /// A new, empty stream that follows the newest message.
    pub fn new() -> (s: Stream)
        ensures
            s@ == StreamModel::fresh(),
    {
        let s = Stream {
            recent_messages: VecDeque::new(),
            sub_messages: VecDeque::new(),
            sub_paused: false,
            sub_selected: 0,
            stream_follow: true,
            stream_filter: String::new(),
            stream_key_filter: None,
            stream_filtering: false,
        };
        assert(s@.recent_messages =~= Seq::empty());
        assert(s@.sub_messages =~= Seq::empty());
        s
    }

    /// Whether a message passes the filters.
    pub fn stream_message_matches(&self, msg: &ZenohMessage) -> (r: bool)
        ensures
            r == admits(self@.stream_key_filter, self@.stream_filter, msg@),
    {
        if let Some(key) = &self.stream_key_filter {
            return same(msg.key_expr.as_str(), key.as_str());
        }
        if self.stream_filter.as_str().is_empty() {
            return true;
        }
        if contains_text(msg.key_expr.as_str(), self.stream_filter.as_str()) {
            return true;
        }
        if contains_text(msg.payload.pretty.as_str(), self.stream_filter.as_str()) {
            return true;
        }
        match &msg.attachment {
            Some(a) => contains_text(a.pretty.as_str(), self.stream_filter.as_str()),
            None => false,
        }
    }

    /// The messages that pass the filters, newest first.
    pub fn filtered_sub_messages(&self) -> (v: Vec<&ZenohMessage>)
        ensures
            Seq::new(v@.len(), |i: int| v@[i]@) == self@.filtered(),
    {
        let mut v: Vec<&ZenohMessage> = Vec::new();
        let mut i: usize = 0;
        let ghost key = self@.stream_key_filter;
        let ghost text = self@.stream_filter;
        let ghost all = self@.sub_messages;
        assert(all.take(0) =~= Seq::empty());
        assert(Seq::new(v@.len(), |i: int| v@[i]@) =~= Seq::<MessageModel>::empty());
        while i < self.sub_messages.len()
            invariant
                i <= self.sub_messages@.len(),
                key == self@.stream_key_filter,
                text == self@.stream_filter,
                all == self@.sub_messages,
                Seq::new(v@.len(), |i: int| v@[i]@) == admitted(key, text, all.take(i as int)),
            decreases self.sub_messages@.len() - i,
        {
            let msg = &self.sub_messages[i];
            let ghost before = v@;
            proof {
                assert(all.take(i + 1).drop_last() =~= all.take(i as int));
                assert(all.take(i + 1).last() == msg@);
            }
            if self.stream_message_matches(msg) {
                v.push(msg);
                assert(Seq::new(v@.len(), |i: int| v@[i]@) =~= Seq::new(
                    before.len(),
                    |i: int| before[i]@,
                ).push(msg@));
            }
            i = i + 1;
        }
        assert(all.take(all.len() as int) =~= all);
        v
    }

    /// Keep the cursor on a message after a change to the list or the filter.
    pub fn clamp_stream_selection(&mut self)
        ensures
            final(self)@ == old(self)@.on_a_message(),
    {
        let len: usize = self.filtered_sub_messages().len();
        assert(len == self@.filtered().len());
        self.sub_selected = clamp_selection(self.sub_selected, len);
    }

    /// Take in a message.
    pub fn receive(&mut self, msg: &ZenohMessage)
        ensures
            final(self)@ == old(self)@.received(msg@),
    {
        let ghost before = self@;
        put_in_front(&mut self.recent_messages, msg.duplicate(), RECENT_CAP);
        if self.sub_paused {
            return;
        }
        let matches = self.stream_message_matches(msg);
        put_in_front(&mut self.sub_messages, msg.duplicate(), STREAM_CAP);
        if self.stream_follow {
            self.sub_selected = 0;
            return;
        }
        if matches && self.sub_selected > 0 && self.sub_selected < usize::MAX {
            self.sub_selected = self.sub_selected + 1;
        }
        self.clamp_stream_selection();
    }

    /// Send the cursor back to the newest message, and keep it there.
    pub fn follow_stream(&mut self)
        ensures
            final(self)@ == old(self)@.following(),
    {
        self.stream_follow = true;
        self.sub_selected = 0;
    }

    /// Pin the cursor to a message.
    pub fn pin_stream_at(&mut self, idx: usize)
        ensures
            final(self)@ == old(self)@.pinned(idx),
    {
        self.stream_follow = false;
        self.sub_selected = idx;
        self.clamp_stream_selection();
    }

    /// Narrow the stream to one key.
    pub fn narrow_to(&mut self, key: &str)
        ensures
            final(self)@ == old(self)@.narrowed(key@),
    {
        self.stream_filter = String::new();
        self.stream_key_filter = Some(key.to_owned());
        self.stream_filtering = false;
        self.clamp_stream_selection();
    }

    /// A character typed into the filter. Typing gives up an exact key filter.
    pub fn type_char(&mut self, c: char)
        ensures
            final(self)@ == old(self)@.typed(c),
    {
        self.stream_key_filter = None;
        self.stream_filter.push(c);
        self.clamp_stream_selection();
    }

    /// The last character of the filter taken out.
    pub fn rub_out(&mut self)
        ensures
            final(self)@ == old(self)@.rubbed_out(),
    {
        self.stream_key_filter = None;
        let _ = self.stream_filter.pop();
        self.clamp_stream_selection();
    }

    /// Drop the messages of a session.
    pub fn clear(&mut self)
        ensures
            final(self)@ == old(self)@.emptied(),
    {
        self.recent_messages = VecDeque::new();
        self.sub_messages = VecDeque::new();
        self.sub_selected = 0;
        assert(self@.recent_messages =~= Seq::empty());
        assert(self@.sub_messages =~= Seq::empty());
    }
}

proof fn lemma_admitted_in_front(
    key: Option<Seq<char>>,
    text: Seq<char>,
    msg: MessageModel,
    msgs: Seq<MessageModel>,
)
    ensures
        admitted(key, text, seq![msg] + msgs) == (if admits(key, text, msg) {
            seq![msg] + admitted(key, text, msgs)
        } else {
            admitted(key, text, msgs)
        }),
    decreases msgs.len(),
{
    let all = seq![msg] + msgs;
    if msgs.len() == 0 {
        assert(all.drop_last() =~= Seq::empty());
        assert(admitted(key, text, all.drop_last()) =~= Seq::empty());
        assert(admitted(key, text, all) =~= if admits(key, text, msg) {
            seq![msg] + admitted(key, text, msgs)
        } else {
            admitted(key, text, msgs)
        });
    } else {
        assert(all.drop_last() =~= seq![msg] + msgs.drop_last());
        assert(all.last() == msgs.last());
        lemma_admitted_in_front(key, text, msg, msgs.drop_last());
        if admits(key, text, msg) {
            let rest = admitted(key, text, msgs.drop_last());
            assert((seq![msg] + rest).push(msgs.last()) =~= seq![msg] + rest.push(msgs.last()));
        }
    }
}

/// Everything in the filtered stream passes the filter and is in the stream.
pub proof fn law_filtered_messages_pass_the_filter(s: StreamModel, i: int)
    requires
        0 <= i < s.filtered().len(),
    ensures
        admits(s.stream_key_filter, s.stream_filter, s.filtered()[i]),
        s.sub_messages.contains(s.filtered()[i]),
    decreases s.sub_messages.len(),
{
    let msgs = s.sub_messages;
    if msgs.len() > 0 {
        let shorter = StreamModel { sub_messages: msgs.drop_last(), ..s };
        if i < shorter.filtered().len() {
            law_filtered_messages_pass_the_filter(shorter, i);
            let at = choose|j: int|
                0 <= j < msgs.drop_last().len() && msgs.drop_last()[j] == shorter.filtered()[i];
            assert(msgs[at] == s.filtered()[i]);
        } else {
            assert(msgs[msgs.len() - 1] == s.filtered()[i]);
        }
    }
}

/// A pinned cursor stays on its message while others arrive, as long as the stream
/// still holds it: below the cap, with the cursor below the newest message, what
/// was under the cursor before is under it after.
pub proof fn law_a_pinned_cursor_stays_on_its_message(s: StreamModel, msg: MessageModel)
    requires
        !s.sub_paused,
        !s.stream_follow,
        s.sub_messages.len() < STREAM_CAP,
        0 < s.sub_selected < s.filtered().len(),
    ensures
        s.received(msg).sub_selected < s.received(msg).filtered().len(),
        s.received(msg).filtered()[s.received(msg).sub_selected as int]
            == s.filtered()[s.sub_selected as int],
{
    lemma_admitted_in_front(s.stream_key_filter, s.stream_filter, msg, s.sub_messages);
    lemma_admitted_bound(s.stream_key_filter, s.stream_filter, s.sub_messages);
}

proof fn lemma_admitted_bound(key: Option<Seq<char>>, text: Seq<char>, msgs: Seq<MessageModel>)
    ensures
        admitted(key, text, msgs).len() <= msgs.len(),
    decreases msgs.len(),
{
    if msgs.len() > 0 {
        lemma_admitted_bound(key, text, msgs.drop_last());
    }
}

/// A stream that follows keeps its cursor on the newest message, and a paused one
/// takes nothing in.
pub proof fn law_following_and_pausing(s: StreamModel, msg: MessageModel)
    ensures
        s.stream_follow && !s.sub_paused ==> s.received(msg).sub_selected == 0,
        s.sub_paused ==> s.received(msg).sub_messages == s.sub_messages && s.received(
            msg,
        ).sub_selected == s.sub_selected,
{
}

} // verus!
