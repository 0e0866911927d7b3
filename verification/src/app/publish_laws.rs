//! What the publish editor does with what is typed into it.
use vstd::prelude::*;

use crate::app::publish::{PublishField, PublishModel};
use crate::app::types::{KeyCode, KeyEvent};
use crate::text::trimmed;

verus! {

/// Typing a character and taking it out again gives back the editor as it was, in
/// either field and whatever else is held.
pub proof fn law_backspace_undoes_a_character(m: PublishModel, typing: KeyEvent, back: KeyEvent)
    requires
        typing.code is Char,
        back.code is Backspace,
    ensures
        m.pressed(typing).pressed(back) == m,
{
    let c = typing.code->Char_0;
    assert(m.publish_key.push(c).drop_last() =~= m.publish_key);
    assert(m.publish_payload.push(c).drop_last() =~= m.publish_payload);
}

/// Whether a key press edits the field that the cursor is on and nothing else: a character
/// goes to its end, and Backspace takes its last one out.
pub open spec fn edits_one_field(m: PublishModel, key: KeyEvent, after: PublishModel) -> bool {
    let (edited, edited_after, other, other_after) = match m.publish_field {
        PublishField::Key => (
            m.publish_key,
            after.publish_key,
            m.publish_payload,
            after.publish_payload,
        ),
        PublishField::Payload => (
            m.publish_payload,
            after.publish_payload,
            m.publish_key,
            after.publish_key,
        ),
    };
    &&& other_after == other
    &&& match key.code {
        KeyCode::Char(c) => edited_after == edited + seq![c],
        _ => edited.len() == 0 && edited_after == edited || edited.len() > 0 && edited_after
            == edited.take(edited.len() - 1),
    }
    &&& after.publish_field == m.publish_field
    &&& after.allow_publish == m.allow_publish
    &&& after.pending_publish == m.pending_publish
    &&& after.publish_result == m.publish_result
}

/// A character goes to the end of the field that is edited, and Backspace takes the last
/// one of that field out. The other field, what may be sent and what is pending are left
/// alone.
pub proof fn law_editing_reaches_one_field(m: PublishModel, key: KeyEvent)
    requires
        key.code is Char || key.code is Backspace,
    ensures
        edits_one_field(m, key, m.pressed(key)),
{
    if let KeyCode::Char(c) = key.code {
        assert(m.publish_key.push(c) =~= m.publish_key + seq![c]);
        assert(m.publish_payload.push(c) =~= m.publish_payload + seq![c]);
    }
    if m.publish_key.len() > 0 {
        assert(m.publish_key.drop_last() =~= m.publish_key.take(m.publish_key.len() - 1));
    }
    if m.publish_payload.len() > 0 {
        assert(m.publish_payload.drop_last() =~= m.publish_payload.take(
            m.publish_payload.len() - 1,
        ));
    }
}

/// Tab and the vertical arrows change over to the other field and back, and do nothing
/// else. The keys that neither edit, change over, send nor close do nothing.
pub proof fn law_changing_over_is_undone_by_itself(m: PublishModel, key: KeyEvent)
    ensures
        key.code is Tab || key.code is Up || key.code is Down ==> {
            &&& m.pressed(key).publish_field != m.publish_field
            &&& m.pressed(key) == (PublishModel {
                publish_field: m.pressed(key).publish_field,
                ..m
            })
            &&& m.pressed(key).pressed(key) == m
        },
        key.code is Left || key.code is Right || key.code is Other || (key.code is Enter
            && !key.ctrl) ==> m.pressed(key) == m,
        key.code is Esc ==> m.pressed(key) == (PublishModel { publish_result: None, ..m }),
{
}

/// The editor after the characters were typed one after another.
pub open spec fn after_typing(m: PublishModel, text: Seq<char>) -> PublishModel
    decreases text.len(),
{
    if text.len() == 0 {
        m
    } else {
        after_typing(m, text.drop_last()).pressed(
            KeyEvent { code: KeyCode::Char(text.last()), ctrl: false, shift: false },
        )
    }
}

proof fn lemma_typed_payload(m: PublishModel, text: Seq<char>)
    requires
        m.publish_field == PublishField::Payload,
    ensures
        after_typing(m, text) == (PublishModel {
            publish_payload: m.publish_payload + text,
            ..m
        }),
    decreases text.len(),
{
    if text.len() > 0 {
        lemma_typed_payload(m, text.drop_last());
        assert((m.publish_payload + text.drop_last()).push(text.last()) =~= m.publish_payload
            + text);
    } else {
        assert(m.publish_payload + text =~= m.publish_payload);
    }
}

/// Opened on a key, typed into and sent, the editor hands over exactly that key, without
/// the space around it, and exactly what was typed — if the session may write, the key
/// is not blank and names no wildcard. Otherwise nothing is handed over, and the editor
/// says why.
pub proof fn law_what_is_typed_is_what_is_sent(
    m: PublishModel,
    key: Seq<char>,
    text: Seq<char>,
    send: KeyEvent,
)
    requires
        key.len() > 0,
        send.code is Enter,
        send.ctrl,
    ensures
        ({
            let after = after_typing(m.opened(Some(key)), text).pressed(send);
            let good = m.allow_publish && trimmed(key).len() > 0 && !trimmed(key).contains('*');
            &&& after.publish_key == key
            &&& after.publish_payload == text
            &&& good ==> after.pending_publish == Some((trimmed(key), text))
                && after.publish_result is None
            &&& !good ==> after.pending_publish == m.pending_publish
                && after.publish_result is Some && after.publish_result->0 is Err
        }),
{
    let opened = m.opened(Some(key));
    lemma_typed_payload(opened, text);
    assert(Seq::<char>::empty() + text =~= text);
}

} // verus!
