//! What the message stream shows, in terms of the messages that came in.
use vstd::prelude::*;

use crate::app::stream::{admits, admitted, StreamModel};
use crate::message::MessageModel;
use crate::text_laws::{law_a_text_occurs_where_it_is_a_part, part_of};

verus! {

/// Whether a message is one that is asked for: on exactly the key where one is set, else
/// with the text in its key, its payload or its attachment.
pub open spec fn asked_for(key: Option<Seq<char>>, text: Seq<char>, msg: MessageModel) -> bool {
    match key {
        Some(k) => msg.key_expr == k,
        None => text.len() == 0 || part_of(text, msg.key_expr) || part_of(text, msg.payload.pretty)
            || (msg.attachment is Some && part_of(text, msg.attachment->0.pretty)),
    }
}

proof fn lemma_admits(key: Option<Seq<char>>, text: Seq<char>, msg: MessageModel)
    ensures
        admits(key, text, msg) == asked_for(key, text, msg),
{
    law_a_text_occurs_where_it_is_a_part(text, msg.key_expr);
    law_a_text_occurs_where_it_is_a_part(text, msg.payload.pretty);
    if let Some(a) = msg.attachment {
        law_a_text_occurs_where_it_is_a_part(text, a.pretty);
    }
}

/// The stream shows the messages that are asked for, all of them, in the order that they
/// have in the stream.
pub proof fn law_the_stream_shows_what_is_asked_for(s: StreamModel)
    ensures
        s.filtered() == s.sub_messages.filter(
            |m: MessageModel| asked_for(s.stream_key_filter, s.stream_filter, m),
        ),
{
    lemma_admitted(s.stream_key_filter, s.stream_filter, s.sub_messages);
}

proof fn lemma_admitted(key: Option<Seq<char>>, text: Seq<char>, msgs: Seq<MessageModel>)
    ensures
        admitted(key, text, msgs) == msgs.filter(|m: MessageModel| asked_for(key, text, m)),
    decreases msgs.len(),
{
    reveal(Seq::filter);
    if msgs.len() > 0 {
        lemma_admitted(key, text, msgs.drop_last());
        lemma_admits(key, text, msgs.last());
    }
}

/// The newest of some messages, newest first, up to a number of them.
pub open spec fn newest_first(msgs: Seq<MessageModel>, cap: nat) -> Seq<MessageModel> {
    Seq::new(
        if msgs.len() <= cap {
            msgs.len()
        } else {
            cap
        },
        |i: int| msgs[msgs.len() - 1 - i],
    )
}

/// The stream after the messages came in, one after another.
pub open spec fn after_hearing(s: StreamModel, msgs: Seq<MessageModel>) -> StreamModel
    decreases msgs.len(),
{
    if msgs.len() == 0 {
        s
    } else {
        after_hearing(s, msgs.drop_last()).received(msgs.last())
    }
}

/// A stream that started empty holds the newest 500 messages, newest first, and the
/// overview the newest 100 — a paused one keeps what it had, while the overview goes on.
/// The filters stay as they are, and a stream that follows stays on the newest message.
pub proof fn law_the_stream_holds_the_newest_messages(s: StreamModel, msgs: Seq<MessageModel>)
    requires
        s.sub_messages.len() == 0,
        s.recent_messages.len() == 0,
    ensures
        ({
            let after = after_hearing(s, msgs);
            &&& after.recent_messages == newest_first(msgs, 100)
            &&& !s.sub_paused ==> after.sub_messages == newest_first(msgs, 500)
            &&& s.sub_paused ==> after.sub_messages == s.sub_messages && after.sub_selected
                == s.sub_selected
            &&& after.sub_paused == s.sub_paused
            &&& after.stream_follow == s.stream_follow
            &&& after.stream_filter == s.stream_filter
            &&& after.stream_key_filter == s.stream_key_filter
            &&& after.stream_filtering == s.stream_filtering
            &&& s.stream_follow && !s.sub_paused && msgs.len() > 0 ==> after.sub_selected == 0
        }),
    decreases msgs.len(),
{
    if msgs.len() > 0 {
        let first = msgs.drop_last();
        law_the_stream_holds_the_newest_messages(s, first);
        let before = after_hearing(s, first);
        let after = before.received(msgs.last());
        lemma_in_front(first, msgs.last(), 100);
        lemma_in_front(first, msgs.last(), 500);
    } else {
        assert(newest_first(msgs, 100) =~= s.recent_messages);
        assert(newest_first(msgs, 500) =~= s.sub_messages);
    }
}

proof fn lemma_in_front(first: Seq<MessageModel>, msg: MessageModel, cap: nat)
    requires
        cap > 0,
    ensures
        crate::app::stream::in_front(msg, newest_first(first, cap), cap) == newest_first(
            first.push(msg),
            cap,
        ),
        first.push(msg).drop_last() == first,
{
    assert(first.push(msg).drop_last() =~= first);
    assert(crate::app::stream::in_front(msg, newest_first(first, cap), cap) =~= newest_first(
        first.push(msg),
        cap,
    ));
}

/// Typing a character into the filter and taking it out again leaves the text as it was,
/// and a character goes to the end of the text. Either way the text is what filters.
pub proof fn law_typing_narrows_by_the_text(s: StreamModel, c: char)
    ensures
        s.typed(c).stream_filter == s.stream_filter + seq![c],
        s.typed(c).stream_key_filter is None,
        s.typed(c).rubbed_out().stream_filter == s.stream_filter,
        s.rubbed_out().stream_key_filter is None,
        s.typed(c).sub_messages == s.sub_messages,
        s.rubbed_out().sub_messages == s.sub_messages,
        s.typed(c).filtered().len() > 0 && s.typed(c).filtered().len() <= usize::MAX ==> s.typed(c).sub_selected < s.typed(c).filtered().len(),
{
    assert(s.stream_filter.push(c) =~= s.stream_filter + seq![c]);
    assert(s.stream_filter.push(c).drop_last() =~= s.stream_filter);
}

/// A stream that was narrowed to a key shows the messages on exactly that key.
pub proof fn law_narrowing_shows_one_key(s: StreamModel, key: Seq<char>)
    ensures
        s.narrowed(key).sub_messages == s.sub_messages,
        s.narrowed(key).filtered() == s.sub_messages.filter(
            |m: MessageModel| m.key_expr == key,
        ),
{
    let n = s.narrowed(key);
    law_the_stream_shows_what_is_asked_for(n);
    assert((|m: MessageModel| asked_for(n.stream_key_filter, n.stream_filter, m)) =~= (
    |m: MessageModel| m.key_expr == key));
}

} // verus!
