//! Which fields of a payload can be plotted, and the numbers of a plot.
//!
//! The master pane already draws a sparkbar, but it plots *bandwidth* — how
//! much a key is sending, never what it is saying. A plot follows one numeric
//! field of the payload over the key's history.
use vstd::prelude::*;

use crate::history::{EntryModel, KeyHistory};
use crate::json::{
    find_member, json_wf, lemma_item_models, lemma_member_found, lemma_member_models, member,
    member_models, Json, JsonModel, Number, NumberModel,
};
use crate::keyed::lemma_ascending_distinct;
use crate::text::{
    cat3, lemma_one_piece, lemma_pieces_joined, lemma_pieces_non_empty, parse_position, pieces,
    position_named, split_on, texts, to_chars,
};

verus! {

/// A name as a step of a JSON pointer: a tilde is written `~0` and a slash `~1`.
pub open spec fn escaped(name: Seq<char>) -> Seq<char>
    decreases name.len(),
{
    if name.len() == 0 {
        name
    } else if name[0] == '~' {
        seq!['~', '0'] + escaped(name.skip(1))
    } else if name[0] == '/' {
        seq!['~', '1'] + escaped(name.skip(1))
    } else {
        seq![name[0]] + escaped(name.skip(1))
    }
}

fn escape(name: &str) -> (r: String)
    ensures
        r@ == escaped(name@),
{
    let chars = to_chars(name);
    let mut r = String::new();
    let mut i: usize = 0;
    proof {
        assert(name@.skip(0) =~= name@);
        assert(r@ + escaped(name@) =~= escaped(name@));
    }
    while i < chars.len()
        invariant
            i <= chars.len(),
            chars@ == name@,
            r@ + escaped(name@.skip(i as int)) == escaped(name@),
        decreases chars.len() - i,
    {
        let ghost before = r@;
        let ghost rest = name@.skip(i as int);
        assert(rest.skip(1) =~= name@.skip(i as int + 1));
        let c = chars[i];
        if c == '~' {
            r.push('~');
            r.push('0');
        } else if c == '/' {
            r.push('~');
            r.push('1');
        } else {
            r.push(c);
        }
        i += 1;
        assert(r@ + escaped(name@.skip(i as int)) =~= before + escaped(rest));
    }
    assert(name@.skip(i as int) =~= Seq::empty());
    assert(r@ + Seq::<char>::empty() =~= r@);
    r
}

/// The pointers to the numbers of a document, in document order. Array elements
/// are not looked into.
pub open spec fn number_pointers(v: JsonModel, path: Seq<char>) -> Seq<Seq<char>>
    decreases v,
{
    match v {
        JsonModel::Object(members) => member_pointers(members, path),
        JsonModel::Number(_) => seq![path],
        _ => Seq::empty(),
    }
}

pub open spec fn member_pointers(members: Seq<(Seq<char>, JsonModel)>, path: Seq<char>) -> Seq<
    Seq<char>,
>
    decreases members,
{
    if members.len() == 0 {
        Seq::empty()
    } else {
        let last = members[members.len() - 1];
        member_pointers(members.drop_last(), path) + number_pointers(
            last.1,
            path + "/"@ + escaped(last.0),
        )
    }
}

/// At most the first `max` of a list.
pub open spec fn at_most(v: Seq<Seq<char>>, max: nat) -> Seq<Seq<char>> {
    if v.len() <= max {
        v
    } else {
        v.take(max as int)
    }
}

/// Plottable JSON pointers in `v`, in document order, up to `max`.
///
/// Array elements are excluded. Index 2 of one message is not the same quantity
/// as index 2 of the next — a list of detected landmarks reorders, and plotting
/// position 2 over time would draw a line through unrelated values.
///
/// Booleans are excluded for the same reason a bar chart of true/false is not
/// useful: the detail pane already shows the flag, and a two-level sparkline
/// says nothing the value does not.
pub fn numeric_pointers(v: &Json, max: usize) -> (out: Vec<String>)
    ensures
        texts(out@) == at_most(number_pointers(v@, Seq::empty()), max as nat),
{
    let mut out: Vec<String> = Vec::new();
    assert(texts(out@) =~= Seq::empty());
    collect(v, String::new(), max, &mut out);
    assert(Seq::<Seq<char>>::empty() + number_pointers(v@, Seq::empty()) =~= number_pointers(
        v@,
        Seq::empty(),
    ));
    out
}

fn collect(v: &Json, path: String, max: usize, out: &mut Vec<String>)
    requires
        old(out)@.len() <= max,
    ensures
        texts(final(out)@) == at_most(texts(old(out)@) + number_pointers(v@, path@), max as nat),
        final(out)@.len() <= max,
    decreases v,
{
    let ghost start = texts(out@);
    if out.len() >= max {
        assert(at_most(start + number_pointers(v@, path@), max as nat) =~= start);
        return;
    }
    match v {
        Json::Object(members) => {
            let ghost all = member_models(members@);
            proof {
                lemma_member_models(members@);
                assert(all.take(0) =~= Seq::empty());
                assert(start + member_pointers(all.take(0), path@) =~= start);
            }
            let mut i: usize = 0;
            while i < members.len()
                invariant
                    i <= members.len(),
                    v == Json::Object(*members),
                    all == member_models(members@),
                    all.len() == members@.len(),
                    forall|k: int|
                        0 <= k < members@.len() ==> #[trigger] all[k] == (
                            members@[k].0@,
                            members@[k].1@,
                        ),
                    out@.len() <= max,
                    texts(out@) == at_most(
                        start + member_pointers(all.take(i as int), path@),
                        max as nat,
                    ),
                decreases members.len() - i,
            {
                proof {
                    assert(decreases_to!(v => v->Object_0@[i as int].1));
                    assert(all.take(i as int + 1).drop_last() =~= all.take(i as int));
                    assert(all.take(i as int + 1)[i as int] == all[i as int]);
                }
                let ghost below = path@ + "/"@ + escaped(members@[i as int].0@);
                let ghost before = start + member_pointers(all.take(i as int), path@);
                let ghost more = number_pointers(members@[i as int].1@, below);
                collect(
                    &members[i].1,
                    cat3(path.as_str(), "/", escape(members[i].0.as_str()).as_str()),
                    max,
                    out,
                );
                i += 1;
                assert(at_most(at_most(before, max as nat) + more, max as nat) =~= at_most(
                    before + more,
                    max as nat,
                ));
                assert(before + more =~= start + member_pointers(all.take(i as int), path@));
            }
            assert(all.take(i as int) =~= all);
        },
        Json::Number(_) => {
            let ghost raw = out@;
            out.push(path);
            assert(texts(out@) =~= start + seq![path@]);
        },
        _ => {
            assert(start + Seq::<Seq<char>>::empty() =~= start);
        },
    }
}

/// The field name a pointer refers to, for a label: what its last step stands for.
pub fn pointer_label(pointer: &str) -> (r: String)
    ensures
        r@ == step_name(pieces(pointer@, '/').last()),
{
    let step = last_step(pointer);
    unescape(unescape(step, '1', '/').as_str(), '0', '~')
}

/// What follows the last `/` of a pointer.
fn last_step(pointer: &str) -> (r: &str)
    ensures
        r@ == pieces(pointer@, '/').last(),
{
    let chars = to_chars(pointer);
    let n: usize = chars.len();
    let mut i: usize = n;
    proof {
        assert(pointer@.take(n as int) =~= pointer@);
        assert(pointer@.subrange(n as int, n as int) =~= Seq::empty());
        assert(pieces(pointer@.take(i as int), '/').last() + Seq::<char>::empty() =~= pieces(
            pointer@.take(i as int),
            '/',
        ).last());
    }
    while i > 0
        invariant
            chars@ == pointer@,
            n == chars.len(),
            i <= n,
            pieces(pointer@, '/').last() == pieces(pointer@.take(i as int), '/').last()
                + pointer@.subrange(i as int, n as int),
        decreases i,
    {
        proof {
            lemma_pieces_non_empty(pointer@.take(i as int - 1), '/');
            assert(pointer@.take(i as int).drop_last() =~= pointer@.take(i as int - 1));
            assert(pointer@.take(i as int).last() == chars@[i as int - 1]);
        }
        if chars[i - 1] == '/' {
            assert(Seq::<char>::empty() + pointer@.subrange(i as int, n as int)
                =~= pointer@.subrange(i as int, n as int));
            return pointer.substring_char(i, n);
        }
        proof {
            let before = pieces(pointer@.take(i as int - 1), '/').last();
            assert(before.push(chars@[i as int - 1]) + pointer@.subrange(i as int, n as int)
                =~= before + pointer@.subrange(i as int - 1, n as int));
        }
        i -= 1;
    }
    proof {
        assert(pointer@.take(0) =~= Seq::empty());
        assert(Seq::<char>::empty() + pointer@.subrange(0, n as int) =~= pointer@);
    }
    pointer
}

/// A text with each `~` before `mark`, and the mark, replaced by `to`.
pub open spec fn unescaped(s: Seq<char>, mark: char, to: char) -> Seq<char>
    decreases s.len(),
{
    if s.len() < 2 {
        s
    } else if s[0] == '~' && s[1] == mark {
        seq![to] + unescaped(s.skip(2), mark, to)
    } else {
        seq![s[0]] + unescaped(s.skip(1), mark, to)
    }
}

/// The name that a step of a pointer stands for: `~1` is a slash, then `~0` a tilde.
pub open spec fn step_name(step: Seq<char>) -> Seq<char> {
    unescaped(unescaped(step, '1', '/'), '0', '~')
}

fn unescape(s: &str, mark: char, to: char) -> (r: String)
    ensures
        r@ == unescaped(s@, mark, to),
{
    let chars = to_chars(s);
    let n: usize = chars.len();
    let mut r = String::new();
    let mut i: usize = 0;
    proof {
        assert(s@.skip(0) =~= s@);
        assert(r@ + unescaped(s@, mark, to) =~= unescaped(s@, mark, to));
    }
    while i < n
        invariant
            i <= n,
            n == chars.len(),
            chars@ == s@,
            r@ + unescaped(s@.skip(i as int), mark, to) == unescaped(s@, mark, to),
        decreases n - i,
    {
        let ghost before = r@;
        let ghost rest = s@.skip(i as int);
        if i + 1 < n && chars[i] == '~' && chars[i + 1] == mark {
            r.push(to);
            i += 2;
            assert(rest.skip(2) =~= s@.skip(i as int));
            assert(r@ + unescaped(rest.skip(2), mark, to) =~= before + (seq![to] + unescaped(
                rest.skip(2),
                mark,
                to,
            )));
        } else {
            r.push(chars[i]);
            i += 1;
            assert(rest.skip(1) =~= s@.skip(i as int));
            assert(r@ + unescaped(rest.skip(1), mark, to) =~= before + (seq![rest[0]] + unescaped(
                rest.skip(1),
                mark,
                to,
            )));
            if i == n {
                assert(rest =~= seq![rest[0]]);
                assert(rest.skip(1) =~= Seq::empty());
                assert(r@ + Seq::<char>::empty() =~= before + rest);
            }
        }
    }
    assert(s@.skip(n as int) =~= Seq::empty());
    assert(r@ + Seq::<char>::empty() =~= r@);
    r
}

/// What stands under a name: the member of an object, the element of an array.
pub open spec fn under(v: JsonModel, name: Seq<char>) -> Option<JsonModel> {
    match v {
        JsonModel::Object(members) => member(members, name),
        JsonModel::Array(items) => match position_named(name) {
            Some(i) => if i < items.len() {
                Some(items[i as int])
            } else {
                None
            },
            None => None,
        },
        _ => None,
    }
}

/// What the steps of a pointer lead to.
pub open spec fn walked(v: JsonModel, steps: Seq<Seq<char>>) -> Option<JsonModel>
    decreases steps.len(),
{
    if steps.len() == 0 {
        Some(v)
    } else {
        match under(v, step_name(steps[0])) {
            Some(child) => walked(child, steps.drop_first()),
            None => None,
        }
    }
}

/// What a JSON pointer leads to. The empty one leads to the document.
pub open spec fn pointed(v: JsonModel, pointer: Seq<char>) -> Option<JsonModel> {
    if pointer.len() == 0 {
        Some(v)
    } else if pointer[0] != '/' {
        None
    } else {
        walked(v, pieces(pointer, '/').drop_first())
    }
}

fn find_under<'a>(v: &'a Json, name: &str) -> (r: Option<&'a Json>)
    ensures
        match r {
            Some(child) => under(v@, name@) == Some(child@),
            None => under(v@, name@) is None,
        },
{
    match v {
        Json::Object(members) => find_member(members, name),
        Json::Array(items) => {
            proof {
                lemma_item_models(items@);
            }
            match parse_position(name, items.len()) {
                Some(i) => Some(&items[i]),
                None => None,
            }
        },
        _ => None,
    }
}

/// Follow a JSON pointer.
pub fn follow<'a>(v: &'a Json, pointer: &str) -> (r: Option<&'a Json>)
    ensures
        match r {
            Some(found) => pointed(v@, pointer@) == Some(found@),
            None => pointed(v@, pointer@) is None,
        },
{
    let chars = to_chars(pointer);
    if chars.len() == 0 {
        return Some(v);
    }
    if chars[0] != '/' {
        return None;
    }
    let steps = split_on(pointer, '/');
    let ghost all = pieces(pointer@, '/');
    proof {
        lemma_pieces_non_empty(pointer@, '/');
        assert(all.skip(1) =~= all.drop_first());
    }
    let mut at: &'a Json = v;
    let mut i: usize = 1;
    while i < steps.len()
        invariant
            1 <= i <= steps.len(),
            all == texts(steps@),
            pointed(v@, pointer@) == walked(at@, all.skip(i as int)),
        decreases steps.len() - i,
    {
        let name = unescape(unescape(steps[i].as_str(), '1', '/').as_str(), '0', '~');
        proof {
            assert(all.skip(i as int)[0] == steps@[i as int]@);
            assert(all.skip(i as int).drop_first() =~= all.skip(i as int + 1));
        }
        match find_under(at, name.as_str()) {
            Some(child) => {
                at = child;
            },
            None => {
                return None;
            },
        }
        i += 1;
    }
    assert(all.skip(i as int) =~= Seq::empty());
    Some(at)
}

/// The numbers that a pointer leads to in the entries of a key, which stand
/// newest first: oldest first, entries without such a number skipped.
pub open spec fn series(entries: Seq<EntryModel>, pointer: Seq<char>) -> Seq<NumberModel>
    decreases entries.len(),
{
    if entries.len() == 0 {
        Seq::empty()
    } else {
        let older = series(entries.drop_first(), pointer);
        match pointed(entries[0].view, pointer) {
            Some(JsonModel::Number(n)) => older.push(n),
            _ => older,
        }
    }
}

/// The models of a list of numbers.
pub open spec fn number_models(v: Seq<&Number>) -> Seq<NumberModel> {
    Seq::new(v.len(), |i: int| v[i]@)
}

/// Pull `pointer` out of every entry, oldest first.
///
/// Entries where the pointer is missing or not a number are skipped rather than
/// filled with zero: a gap in a field's presence is not the value dropping to
/// zero, and drawing it as one invents a cliff that never happened.
pub fn series_for<'a>(history: &'a KeyHistory, pointer: &str) -> (v: Vec<&'a Number>)
    ensures
        number_models(v@) == series(history@, pointer@),
{
    let mut v: Vec<&'a Number> = Vec::new();
    let mut i: usize = history.len();
    proof {
        assert(history@.skip(i as int) =~= Seq::empty());
        assert(number_models(v@) =~= Seq::empty());
    }
    while i > 0
        invariant
            i <= history@.len(),
            number_models(v@) == series(history@.skip(i as int), pointer@),
        decreases i,
    {
        i -= 1;
        proof {
            assert(history@.skip(i as int).drop_first() =~= history@.skip(i as int + 1));
            assert(history@.skip(i as int)[0] == history@[i as int]);
        }
        let ghost before = v@;
        if let Some(e) = history.entry(i) {
            match follow(&e.view, pointer) {
                Some(Json::Number(n)) => {
                    v.push(n);
                    assert(number_models(v@) =~= number_models(before).push(n@));
                },
                _ => {},
            }
        }
    }
    assert(history@.skip(0) =~= history@);
    v
}

/// A message adds its number at the end of the series, or nothing where it has
/// none: what was there stays.
pub proof fn law_a_message_extends_the_series(
    entry: EntryModel,
    entries: Seq<EntryModel>,
    pointer: Seq<char>,
)
    ensures
        match pointed(entry.view, pointer) {
            Some(JsonModel::Number(n)) => series(seq![entry] + entries, pointer) == series(
                entries,
                pointer,
            ).push(n),
            _ => series(seq![entry] + entries, pointer) == series(entries, pointer),
        },
{
    assert((seq![entry] + entries).drop_first() =~= entries);
}

/// A text in which every tilde is escaped, and nothing else.
spec fn tildes_escaped(s: Seq<char>) -> Seq<char>
    decreases s.len(),
{
    if s.len() == 0 {
        s
    } else if s[0] == '~' {
        seq!['~', '0'] + tildes_escaped(s.skip(1))
    } else {
        seq![s[0]] + tildes_escaped(s.skip(1))
    }
}

proof fn lemma_slashes_unescaped(s: Seq<char>)
    ensures
        unescaped(escaped(s), '1', '/') == tildes_escaped(s),
        !escaped(s).contains('/'),
    decreases s.len(),
{
    if s.len() > 0 {
        lemma_slashes_unescaped(s.skip(1));
        let rest = escaped(s.skip(1));
        let e = escaped(s);
        assert forall|k: int| 0 <= k < e.len() implies e[k] != '/' by {
            let n = e.len() - rest.len();
            if k >= n {
                assert(e[k] == rest[k - n]);
                assert(rest.contains(rest[k - n]));
            }
        }
        if s[0] == '/' {
            assert(e.skip(2) =~= rest);
        } else if s[0] == '~' {
            assert(e.skip(1) =~= seq!['0'] + rest);
            assert((seq!['0'] + rest).skip(1) =~= rest);
            reveal_with_fuel(unescaped, 3);
            assert(unescaped(seq!['0'] + rest, '1', '/') =~= seq!['0'] + unescaped(rest, '1', '/'));
            assert(unescaped(e, '1', '/') =~= seq!['~', '0'] + unescaped(rest, '1', '/'));
        } else {
            assert(e.skip(1) =~= rest);
            reveal_with_fuel(unescaped, 2);
            assert(unescaped(e, '1', '/') =~= seq![s[0]] + unescaped(rest, '1', '/'));
        }
    }
}

proof fn lemma_tildes_unescaped(s: Seq<char>)
    ensures
        unescaped(tildes_escaped(s), '0', '~') == s,
    decreases s.len(),
{
    if s.len() > 0 {
        lemma_tildes_unescaped(s.skip(1));
        let rest = tildes_escaped(s.skip(1));
        let e = tildes_escaped(s);
        assert(seq![s[0]] + s.skip(1) =~= s);
        if s[0] == '~' {
            assert(e.skip(2) =~= rest);
        } else {
            assert(e.skip(1) =~= rest);
            reveal_with_fuel(unescaped, 2);
            assert(unescaped(e, '0', '~') =~= seq![s[0]] + unescaped(rest, '0', '~'));
        }
    }
}

/// A name is read back from the step that it is written as, and the step holds no
/// slash.
pub proof fn law_a_name_survives_its_step(name: Seq<char>)
    ensures
        step_name(escaped(name)) == name,
        !escaped(name).contains('/'),
{
    lemma_slashes_unescaped(name);
    lemma_tildes_unescaped(name);
}

/// The pointers below a path are the path followed by the pointers of the document.
proof fn lemma_pointers_extend(v: JsonModel, path: Seq<char>)
    ensures
        number_pointers(v, path).len() == number_pointers(v, Seq::empty()).len(),
        forall|i: int|
            0 <= i < number_pointers(v, path).len() ==> #[trigger] number_pointers(v, path)[i]
                == path + number_pointers(v, Seq::empty())[i],
    decreases v, 1int,
{
    match v {
        JsonModel::Object(members) => {
            lemma_member_pointers_extend(members, path);
        },
        JsonModel::Number(_) => {
            assert(path + Seq::<char>::empty() =~= path);
        },
        _ => {},
    }
}

proof fn lemma_member_pointers_extend(members: Seq<(Seq<char>, JsonModel)>, path: Seq<char>)
    ensures
        member_pointers(members, path).len() == member_pointers(members, Seq::empty()).len(),
        forall|i: int|
            0 <= i < member_pointers(members, path).len() ==> #[trigger] member_pointers(
                members,
                path,
            )[i] == path + member_pointers(members, Seq::empty())[i],
    decreases members, 0int,
{
    if members.len() > 0 {
        let last = members[members.len() - 1];
        lemma_member_pointers_extend(members.drop_last(), path);
        let here = path + "/"@ + escaped(last.0);
        let there = Seq::<char>::empty() + "/"@ + escaped(last.0);
        lemma_pointers_extend(last.1, here);
        lemma_pointers_extend(last.1, there);
        assert(here =~= path + there);
        let n = member_pointers(members.drop_last(), path).len();
        assert forall|i: int| 0 <= i < member_pointers(members, path).len() implies #[trigger]
            member_pointers(members, path)[i] == path + member_pointers(members, Seq::empty())[i] by {
            if i >= n {
                let tail = number_pointers(last.1, Seq::empty())[i - n];
                assert(number_pointers(last.1, here)[i - n] == here + tail);
                assert(number_pointers(last.1, there)[i - n] == there + tail);
                assert(here + tail =~= path + (there + tail));
            }
        }
    }
}

/// A pointer is empty, or begins with a slash.
proof fn lemma_pointer_begins(v: JsonModel, i: int)
    requires
        0 <= i < number_pointers(v, Seq::empty()).len(),
    ensures
        v is Number ==> number_pointers(v, Seq::empty())[i] == Seq::<char>::empty(),
        !(v is Number) ==> number_pointers(v, Seq::empty())[i].len() > 0 && number_pointers(
            v,
            Seq::empty(),
        )[i][0] == '/',
{
    if let JsonModel::Object(members) = v {
        lemma_member_pointer(members, i);
    }
}

/// Which member a pointer goes into, and what is left of it there.
pub(crate) proof fn lemma_member_pointer(members: Seq<(Seq<char>, JsonModel)>, i: int) -> (at: (int, int))
    requires
        0 <= i < member_pointers(members, Seq::empty()).len(),
    ensures
        0 <= at.0 < members.len(),
        0 <= at.1 < number_pointers(members[at.0].1, Seq::empty()).len(),
        member_pointers(members, Seq::empty())[i] == seq!['/'] + escaped(members[at.0].0)
            + number_pointers(members[at.0].1, Seq::empty())[at.1],
        member_pointers(members, Seq::empty())[i].len() > 0,
        member_pointers(members, Seq::empty())[i][0] == '/',
    decreases members.len(),
{
    reveal_strlit("/");
    let last = members[members.len() - 1];
    let n = member_pointers(members.drop_last(), Seq::empty()).len();
    if i < n {
        let at = lemma_member_pointer(members.drop_last(), i);
        assert(members.drop_last()[at.0] == members[at.0]);
        at
    } else {
        let there = Seq::<char>::empty() + "/"@ + escaped(last.0);
        lemma_pointers_extend(last.1, there);
        assert(there =~= seq!['/'] + escaped(last.0));
        (members.len() - 1, i - n)
    }
}

/// A field that is offered can be followed: its pointer leads to a number.
pub proof fn law_an_offered_field_leads_to_a_number(v: JsonModel, i: int)
    requires
        json_wf(v),
        0 <= i < number_pointers(v, Seq::empty()).len(),
    ensures
        pointed(v, number_pointers(v, Seq::empty())[i]) matches Some(found) && found is Number,
    decreases v,
{
    let p = number_pointers(v, Seq::empty())[i];
    lemma_pointer_begins(v, i);
    if let JsonModel::Object(members) = v {
        let at = lemma_member_pointer(members, i);
        let name = escaped(members[at.0].0);
        let child = members[at.0].1;
        let rest = number_pointers(child, Seq::empty())[at.1];
        assert(decreases_to!(v => members[at.0].1));
        law_an_offered_field_leads_to_a_number(child, at.1);
        lemma_pointer_begins(child, at.1);
        law_a_name_survives_its_step(members[at.0].0);
        lemma_one_piece(name);
        lemma_ascending_distinct(Seq::new(members.len(), |k: int| members[k].0));
        lemma_member_found(members, at.0);
        let empty = Seq::<char>::empty();
        lemma_one_piece(empty);
        reveal_with_fuel(walked, 2);
        assert(under(v, step_name(name)) == Some(child));
        if rest.len() == 0 {
            assert(p =~= empty + seq!['/'] + name);
            lemma_pieces_joined(empty, name);
            assert(pieces(p, '/').drop_first() =~= seq![name]);
            assert(p[0] == '/');
            assert(seq![name].drop_first() =~= Seq::empty());
        } else {
            let q = rest.skip(1);
            assert(rest =~= empty + seq!['/'] + q);
            lemma_pieces_joined(empty, q);
            assert(pieces(rest, '/').drop_first() =~= pieces(q, '/'));
            assert(p =~= (empty + seq!['/'] + name) + seq!['/'] + q);
            lemma_pieces_joined(empty + seq!['/'] + name, q);
            lemma_pieces_joined(empty, name);
            assert(pieces(p, '/').drop_first() =~= seq![name] + pieces(q, '/'));
            assert((seq![name] + pieces(q, '/')).drop_first() =~= pieces(q, '/'));
            assert((seq![name] + pieces(q, '/'))[0] == name);
            assert(walked(v, pieces(p, '/').drop_first()) == walked(child, pieces(q, '/')));
        }
    }
}

/// What names lead to, through objects only.
pub open spec fn reached(v: JsonModel, names: Seq<Seq<char>>) -> Option<JsonModel>
    decreases names.len(),
{
    if names.len() == 0 {
        Some(v)
    } else {
        match v {
            JsonModel::Object(members) => match member(members, names[0]) {
                Some(child) => reached(child, names.drop_first()),
                None => None,
            },
            _ => None,
        }
    }
}

/// The JSON pointer that names are written as.
pub open spec fn pointer_to(names: Seq<Seq<char>>) -> Seq<char>
    decreases names.len(),
{
    if names.len() == 0 {
        Seq::empty()
    } else {
        seq!['/'] + escaped(names[0]) + pointer_to(names.drop_first())
    }
}

proof fn lemma_member_place(members: Seq<(Seq<char>, JsonModel)>, key: Seq<char>) -> (k: int)
    requires
        member(members, key) is Some,
    ensures
        0 <= k < members.len(),
        members[k].0 == key,
        member(members, key) == Some(members[k].1),
    decreases members.len(),
{
    if members[0].0 == key {
        0
    } else {
        let k = lemma_member_place(members.drop_first(), key);
        assert(members[k + 1] == members.drop_first()[k]);
        k + 1
    }
}

proof fn lemma_pointers_of_member(
    members: Seq<(Seq<char>, JsonModel)>,
    path: Seq<char>,
    k: int,
    p: Seq<char>,
)
    requires
        0 <= k < members.len(),
        number_pointers(members[k].1, path + "/"@ + escaped(members[k].0)).contains(p),
    ensures
        member_pointers(members, path).contains(p),
    decreases members.len(),
{
    let last = members[members.len() - 1];
    let before = member_pointers(members.drop_last(), path);
    let own = number_pointers(last.1, path + "/"@ + escaped(last.0));
    if k == members.len() - 1 {
        let i = own.index_of(p);
        assert((before + own)[before.len() + i] == p);
    } else {
        assert(members.drop_last()[k] == members[k]);
        lemma_pointers_of_member(members.drop_last(), path, k, p);
        let i = before.index_of(p);
        assert((before + own)[i] == p);
    }
}

/// Every number that can be reached through objects is among the fields, under the
/// pointer that its names are written as.
pub proof fn law_every_reachable_number_is_a_field(v: JsonModel, names: Seq<Seq<char>>)
    requires
        reached(v, names) matches Some(found) && found is Number,
    ensures
        number_pointers(v, Seq::empty()).contains(pointer_to(names)),
    decreases names.len(),
{
    let empty = Seq::<char>::empty();
    if names.len() == 0 {
        assert(number_pointers(v, empty)[0] == empty);
    } else if let JsonModel::Object(members) = v {
        reveal_strlit("/");
        let k = lemma_member_place(members, names[0]);
        let child = members[k].1;
        law_every_reachable_number_is_a_field(child, names.drop_first());
        let there = empty + "/"@ + escaped(names[0]);
        lemma_pointers_extend(child, there);
        let i = number_pointers(child, empty).index_of(pointer_to(names.drop_first()));
        assert(number_pointers(child, there)[i] == there + pointer_to(names.drop_first()));
        assert(there + pointer_to(names.drop_first()) =~= pointer_to(names));
        lemma_pointers_of_member(members, empty, k, pointer_to(names));
    }
}

} // verus!
