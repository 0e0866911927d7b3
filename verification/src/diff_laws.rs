//! What a diff says, in terms of the values that stand at the same place in both
//! documents.
use vstd::prelude::*;

use crate::diff::{
    changes, deeper, displaced, displaced_changes, displaced_lines, doc_lines, gone_item_changes,
    gone_items, gone_member_changes, gone_members, item_changes, item_lines, items_of, line,
    member_changes, member_lines, members_of, old_item, old_member, prefix, shown, Changes,
    DiffTag, LineModel,
};
use crate::json::{
    compact, holds_leaf, items_hold_leaf, json_eq, json_wf, lemma_member_found, member,
    members_hold_leaf, JsonModel, NumberModel,
};
use crate::keyed::lemma_ascending_distinct;
use crate::text::decimal;

verus! {

/// One step into a document.
pub enum Step {
    /// To the member of an object.
    Name(Seq<char>),
    /// To the element of an array.
    At(nat),
}

/// Whether an object has the named member at `k`.
pub open spec fn has_member(members: Seq<(Seq<char>, JsonModel)>, name: Seq<char>, k: int) -> bool {
    0 <= k < members.len() && members[k].0 == name
}

/// Where an object has the named member, if it has one.
pub open spec fn member_position(members: Seq<(Seq<char>, JsonModel)>, name: Seq<char>) -> int {
    choose|k: int| has_member(members, name, k)
}

/// The member of an object with the given name.
pub open spec fn named_member(members: Seq<(Seq<char>, JsonModel)>, name: Seq<char>) -> Option<
    JsonModel,
> {
    if exists|k: int| has_member(members, name, k) {
        Some(members[member_position(members, name)].1)
    } else {
        None
    }
}

/// What a step leads to.
pub open spec fn inside(v: JsonModel, s: Step) -> Option<JsonModel> {
    match s {
        Step::Name(name) => match v {
            JsonModel::Object(members) => named_member(members, name),
            _ => None,
        },
        Step::At(i) => match v {
            JsonModel::Array(items) => if i < items.len() {
                Some(items[i as int])
            } else {
                None
            },
            _ => None,
        },
    }
}

/// The value at a path.
pub open spec fn at(v: Option<JsonModel>, path: Seq<Step>) -> Option<JsonModel>
    decreases path.len(),
{
    match v {
        None => None,
        Some(v) => if path.len() == 0 {
            Some(v)
        } else {
            at(inside(v, path[0]), path.drop_first())
        },
    }
}

/// Whether two leaves are of the same kind and hold the same. The two zeros among the
/// floating-point numbers are one value.
pub open spec fn same_leaf(a: JsonModel, b: JsonModel) -> bool {
    match (a, b) {
        (JsonModel::Null, JsonModel::Null) => true,
        (JsonModel::Bool(x), JsonModel::Bool(y)) => x == y,
        (JsonModel::Text(x), JsonModel::Text(y)) => x == y,
        (
            JsonModel::Number(NumberModel::PosInt(x)),
            JsonModel::Number(NumberModel::PosInt(y)),
        ) => x == y,
        (
            JsonModel::Number(NumberModel::NegInt(x)),
            JsonModel::Number(NumberModel::NegInt(y)),
        ) => x == y,
        (
            JsonModel::Number(NumberModel::Float { bits: x, .. }),
            JsonModel::Number(NumberModel::Float { bits: y, .. }),
        ) => x == y || (x == 0 || x == 0x8000_0000_0000_0000) && (y == 0 || y
            == 0x8000_0000_0000_0000),
        _ => false,
    }
}

/// What a line of a document on its own stands for.
pub enum Place {
    /// It opens the container at the path.
    Opens(Seq<Step>),
    /// It closes the container at the path.
    Closes(Seq<Step>),
    /// It carries the leaf at the path.
    Carries(Seq<Step>),
}

/// The same place, seen from one step further out.
pub open spec fn outward(s: Step, place: Place) -> Place {
    match place {
        Place::Opens(p) => Place::Opens(seq![s] + p),
        Place::Closes(p) => Place::Closes(seq![s] + p),
        Place::Carries(p) => Place::Carries(seq![s] + p),
    }
}

pub open spec fn outward_all(s: Step, places: Seq<Place>) -> Seq<Place> {
    Seq::new(places.len(), |i: int| outward(s, places[i]))
}

/// The places of a document, from its first line to its last.
pub open spec fn places(v: JsonModel) -> Seq<Place>
    decreases v,
{
    match v {
        JsonModel::Object(members) => seq![Place::Opens(Seq::empty())] + member_places(members)
            + seq![Place::Closes(Seq::empty())],
        JsonModel::Array(items) => seq![Place::Opens(Seq::empty())] + item_places(items)
            + seq![Place::Closes(Seq::empty())],
        _ => seq![Place::Carries(Seq::empty())],
    }
}

pub open spec fn member_places(members: Seq<(Seq<char>, JsonModel)>) -> Seq<Place>
    decreases members,
{
    if members.len() == 0 {
        Seq::empty()
    } else {
        let last = members[members.len() - 1];
        member_places(members.drop_last()) + outward_all(Step::Name(last.0), places(last.1))
    }
}

pub open spec fn item_places(items: Seq<JsonModel>) -> Seq<Place>
    decreases items,
{
    if items.len() == 0 {
        Seq::empty()
    } else {
        item_places(items.drop_last()) + outward_all(
            Step::At((items.len() - 1) as nat),
            places(items[items.len() - 1]),
        )
    }
}

/// The lines of what is there now, with their verdicts.
pub open spec fn kept(lines: Seq<LineModel>) -> Seq<LineModel>
    decreases lines.len(),
{
    if lines.len() == 0 {
        Seq::empty()
    } else if lines.last().tag == DiffTag::Removed {
        kept(lines.drop_last())
    } else {
        kept(lines.drop_last()).push(lines.last())
    }
}

/// The indent `depth` levels further in, up to the deepest one there is.
pub open spec fn nested(indent: u16, depth: nat) -> int {
    if indent + depth <= u16::MAX {
        indent + depth
    } else {
        u16::MAX as int
    }
}

/// The object key that the value at a path sits under.
pub open spec fn label_at(path: Seq<Step>, label: Option<Seq<char>>) -> Seq<char> {
    let name = if path.len() == 0 {
        label
    } else {
        match path.last() {
            Step::Name(n) => Some(n),
            Step::At(_) => None,
        }
    };
    match name {
        Some(n) => n + seq![':', ' '],
        None => Seq::empty(),
    }
}

/// A leaf as it is written: strings in plain quotes.
pub open spec fn leaf_text(v: JsonModel) -> Seq<char> {
    match v {
        JsonModel::Null => seq!['n', 'u', 'l', 'l'],
        JsonModel::Bool(b) => if b {
            seq!['t', 'r', 'u', 'e']
        } else {
            seq!['f', 'a', 'l', 's', 'e']
        },
        JsonModel::Text(s) => seq!['"'] + s + seq!['"'],
        JsonModel::Number(NumberModel::PosInt(n)) => decimal(n as nat),
        JsonModel::Number(NumberModel::NegInt(n)) => if n < 0 {
            seq!['-'] + decimal((-n) as nat)
        } else {
            decimal(n as nat)
        },
        JsonModel::Number(NumberModel::Float { text, .. }) => text,
        _ => Seq::empty(),
    }
}

/// Whether a line says of a place what stands there in the current document and in the
/// previous one.
pub open spec fn says(
    l: LineModel,
    place: Place,
    cur: JsonModel,
    prev: Option<JsonModel>,
    indent: u16,
    label: Option<Seq<char>>,
) -> bool {
    match place {
        Place::Opens(p) => {
            &&& l.tag == DiffTag::Same
            &&& l.indent == nested(indent, p.len())
            &&& match at(Some(cur), p) {
                Some(JsonModel::Object(_)) => l.text == label_at(p, label) + seq!['{'],
                Some(JsonModel::Array(_)) => l.text == label_at(p, label) + seq!['['],
                _ => false,
            }
        },
        Place::Closes(p) => {
            &&& l.tag == DiffTag::Same
            &&& l.indent == nested(indent, p.len())
            &&& match at(Some(cur), p) {
                Some(JsonModel::Object(_)) => l.text == seq!['}'],
                Some(JsonModel::Array(_)) => l.text == seq![']'],
                _ => false,
            }
        },
        Place::Carries(p) => match at(Some(cur), p) {
            Some(v) => {
                &&& !(v is Object) && !(v is Array)
                &&& l.indent == nested(indent, p.len())
                &&& l.text == label_at(p, label) + leaf_text(v)
                &&& match at(prev, p) {
                    None => l.tag == DiffTag::Added,
                    Some(old) => l.tag == (if same_leaf(old, v) {
                        DiffTag::Same
                    } else {
                        DiffTag::Changed
                    }),
                }
            },
            None => false,
        },
    }
}

pub open spec fn says_all(
    lines: Seq<LineModel>,
    places: Seq<Place>,
    cur: JsonModel,
    prev: Option<JsonModel>,
    indent: u16,
    label: Option<Seq<char>>,
) -> bool {
    &&& lines.len() == places.len()
    &&& forall|i: int| 0 <= i < lines.len() ==> says(#[trigger] lines[i], places[i], cur, prev, indent, label)
}

proof fn lemma_kept_join(a: Seq<LineModel>, b: Seq<LineModel>)
    ensures
        kept(a + b) == kept(a) + kept(b),
    decreases b.len(),
{
    if b.len() == 0 {
        assert(a + b =~= a);
    } else {
        lemma_kept_join(a, b.drop_last());
        assert((a + b).drop_last() =~= a + b.drop_last());
        assert((a + b).last() == b.last());
    }
    assert(kept(a + b) =~= kept(a) + kept(b));
}

proof fn lemma_gone_members_not_kept(
    prev: Option<Seq<(Seq<char>, JsonModel)>>,
    members: Seq<(Seq<char>, JsonModel)>,
    indent: u16,
)
    ensures
        kept(gone_members(prev, members, indent)) == Seq::<LineModel>::empty(),
    decreases prev->0.len(),
{
    if let Some(m) = prev {
        if m.len() > 0 {
            let last = m[m.len() - 1];
            let before = gone_members(Some(m.drop_last()), members, indent);
            lemma_gone_members_not_kept(Some(m.drop_last()), members, indent);
            let gone = line(indent, last.0 + ": "@ + shown(last.1), DiffTag::Removed);
            assert(before.push(gone).drop_last() =~= before);
        }
    }
}

proof fn lemma_gone_items_not_kept(prev: Option<Seq<JsonModel>>, len: nat, indent: u16)
    ensures
        kept(gone_items(prev, len, indent)) == Seq::<LineModel>::empty(),
    decreases prev->0.len(),
{
    if let Some(a) = prev {
        if a.len() > len {
            let before = gone_items(Some(a.drop_last()), len, indent);
            lemma_gone_items_not_kept(Some(a.drop_last()), len, indent);
            let gone = line(indent, shown(a[a.len() - 1]), DiffTag::Removed);
            assert(before.push(gone).drop_last() =~= before);
        }
    }
}

proof fn lemma_kept_wrapped(
    lead: Seq<LineModel>,
    open: LineModel,
    inner: Seq<LineModel>,
    gone: Seq<LineModel>,
    close: LineModel,
)
    requires
        kept(lead) == Seq::<LineModel>::empty(),
        kept(gone) == Seq::<LineModel>::empty(),
        open.tag == DiffTag::Same,
        close.tag == DiffTag::Same,
    ensures
        kept(lead + seq![open] + inner + gone + seq![close]) == seq![open] + kept(inner)
            + seq![close],
{
    lemma_kept_join(lead, seq![open]);
    lemma_kept_join(lead + seq![open], inner);
    lemma_kept_join(lead + seq![open] + inner, gone);
    lemma_kept_join(lead + seq![open] + inner + gone, seq![close]);
    reveal_with_fuel(kept, 2);
    assert(seq![open].drop_last() =~= Seq::<LineModel>::empty());
    assert(seq![close].drop_last() =~= Seq::<LineModel>::empty());
    assert(kept(seq![open]) =~= seq![open]);
    assert(kept(seq![close]) =~= seq![close]);
    assert(kept(lead + seq![open] + inner + gone + seq![close]) =~= seq![open] + kept(inner)
        + seq![close]);
}

/// In a document whose objects name each member once, a step to a name and a lookup of
/// the name agree.
proof fn lemma_step_is_lookup(members: Seq<(Seq<char>, JsonModel)>, name: Seq<char>)
    requires
        json_wf(JsonModel::Object(members)),
    ensures
        inside(JsonModel::Object(members), Step::Name(name)) == member(members, name),
{
    let names = Seq::new(members.len(), |k: int| members[k].0);
    lemma_ascending_distinct(names);
    if exists|k: int| has_member(members, name, k) {
        let k = member_position(members, name);
        assert(has_member(members, name, k));
        lemma_member_found(members, k);
    } else {
        assert forall|k: int| 0 <= k < members.len() implies (#[trigger] members[k]).0 != name by {
            assert(!has_member(members, name, k));
        }
        lemma_not_a_member(members, name);
    }
}

proof fn lemma_not_a_member(members: Seq<(Seq<char>, JsonModel)>, name: Seq<char>)
    requires
        forall|k: int| 0 <= k < members.len() ==> (#[trigger] members[k]).0 != name,
    ensures
        member(members, name) is None,
    decreases members.len(),
{
    if members.len() > 0 {
        let rest = members.drop_first();
        assert forall|k: int| 0 <= k < rest.len() implies (#[trigger] rest[k]).0 != name by {
            assert(rest[k] == members[k + 1]);
        }
        lemma_not_a_member(rest, name);
    }
}

/// Whether an optional document is well-formed.
pub open spec fn wf_if_any(v: Option<JsonModel>) -> bool {
    v is Some ==> json_wf(v->0)
}

/// What a step leads to in an optional document.
spec fn inside_any(v: Option<JsonModel>, s: Step) -> Option<JsonModel> {
    match v {
        Some(v) => inside(v, s),
        None => None,
    }
}

proof fn lemma_says_outward(
    l: LineModel,
    place: Place,
    s: Step,
    child: JsonModel,
    old: Option<JsonModel>,
    cur: JsonModel,
    prev: Option<JsonModel>,
    indent: u16,
    label: Option<Seq<char>>,
)
    requires
        inside(cur, s) == Some(child),
        inside_any(prev, s) == old,
        says(
            l,
            place,
            child,
            old,
            deeper(indent),
            match s {
                Step::Name(n) => Some(n),
                Step::At(_) => None,
            },
        ),
    ensures
        says(l, outward(s, place), cur, prev, indent, label),
{
    let p = match place {
        Place::Opens(p) => p,
        Place::Closes(p) => p,
        Place::Carries(p) => p,
    };
    let far = seq![s] + p;
    assert(far[0] == s);
    assert(far.drop_first() =~= p);
    assert(at(Some(cur), far) == at(Some(child), p));
    assert(at(prev, far) == at(old, p));
    if p.len() == 0 {
        assert(far.last() == s);
    } else {
        assert(far.last() == p.last());
    }
    assert(nested(deeper(indent), p.len()) == nested(indent, far.len()));
}

proof fn lemma_says(cur: JsonModel, prev: Option<JsonModel>, indent: u16, label: Option<Seq<char>>)
    requires
        json_wf(cur),
        wf_if_any(prev),
    ensures
        says_all(
            kept(doc_lines(cur, prev, true, indent, label)),
            places(cur),
            cur,
            prev,
            indent,
            label,
        ),
    decreases cur, 1int, 0nat,
{
    let none = Seq::<Step>::empty();
    let lines = doc_lines(cur, prev, true, indent, label);
    reveal_strlit(": ");
    assert(prefix(label) =~= label_at(none, label));
    let lead = displaced_lines(cur, prev, indent, label);
    assert(kept(lead) =~= Seq::<LineModel>::empty()) by {
        reveal_with_fuel(kept, 2);
        if lead.len() > 0 {
            assert(lead.drop_last() =~= Seq::<LineModel>::empty());
        }
    }
    match cur {
        JsonModel::Object(members) => {
            let open = line(indent, prefix(label) + "{"@, DiffTag::Same);
            let close = line(indent, "}"@, DiffTag::Same);
            let inner = member_lines(members, members_of(prev), true, deeper(indent));
            let gone = gone_members(members_of(prev), members, deeper(indent));
            lemma_gone_members_not_kept(members_of(prev), members, deeper(indent));
            lemma_kept_wrapped(lead, open, inner, gone, close);
            lemma_says_members(cur, members, members.len(), prev, indent, label);
            assert(members.take(members.len() as int) =~= members);
            reveal_strlit("{");
            reveal_strlit("}");
            assert("{"@ =~= seq!['{']);
            assert("}"@ =~= seq!['}']);
            lemma_says_wrapped(open, kept(inner), close, member_places(members), cur, prev, indent, label);
        },
        JsonModel::Array(items) => {
            let open = line(indent, prefix(label) + "["@, DiffTag::Same);
            let close = line(indent, "]"@, DiffTag::Same);
            let inner = item_lines(items, items_of(prev), true, deeper(indent));
            let gone = gone_items(items_of(prev), items.len(), deeper(indent));
            lemma_gone_items_not_kept(items_of(prev), items.len(), deeper(indent));
            lemma_kept_wrapped(lead, open, inner, gone, close);
            lemma_says_items(cur, items, items.len(), prev, indent, label);
            assert(items.take(items.len() as int) =~= items);
            reveal_strlit("[");
            reveal_strlit("]");
            assert("["@ =~= seq!['[']);
            assert("]"@ =~= seq![']']);
            lemma_says_wrapped(open, kept(inner), close, item_places(items), cur, prev, indent, label);
        },
        _ => {
            lemma_leaf_text(cur);
            reveal_with_fuel(kept, 2);
            assert(lines.drop_last() =~= Seq::<LineModel>::empty());
            assert(kept(lines) =~= lines);
            assert(at(Some(cur), none) == Some(cur));
            assert(at(prev, none) == prev);
        },
    }
}

proof fn lemma_leaf_text(v: JsonModel)
    requires
        !(v is Object),
        !(v is Array),
    ensures
        shown(v) == leaf_text(v),
{
    reveal_strlit("null");
    reveal_strlit("true");
    reveal_strlit("false");
    reveal_strlit("\"");
    assert(shown(v) =~= leaf_text(v));
}

proof fn lemma_says_wrapped(
    open: LineModel,
    inner: Seq<LineModel>,
    close: LineModel,
    inner_places: Seq<Place>,
    cur: JsonModel,
    prev: Option<JsonModel>,
    indent: u16,
    label: Option<Seq<char>>,
)
    requires
        says(open, Place::Opens(Seq::empty()), cur, prev, indent, label),
        says(close, Place::Closes(Seq::empty()), cur, prev, indent, label),
        says_all(inner, inner_places, cur, prev, indent, label),
    ensures
        says_all(
            seq![open] + inner + seq![close],
            seq![Place::Opens(Seq::empty())] + inner_places + seq![Place::Closes(Seq::empty())],
            cur,
            prev,
            indent,
            label,
        ),
{
    let lines = seq![open] + inner + seq![close];
    let all = seq![Place::Opens(Seq::empty())] + inner_places + seq![Place::Closes(Seq::empty())];
    assert forall|i: int| 0 <= i < lines.len() implies says(
        #[trigger] lines[i],
        all[i],
        cur,
        prev,
        indent,
        label,
    ) by {
        if 0 < i < lines.len() - 1 {
            assert(lines[i] == inner[i - 1]);
            assert(all[i] == inner_places[i - 1]);
        }
    }
}

proof fn lemma_says_join(
    a: Seq<LineModel>,
    b: Seq<LineModel>,
    pa: Seq<Place>,
    pb: Seq<Place>,
    s: Step,
    child: JsonModel,
    old: Option<JsonModel>,
    cur: JsonModel,
    prev: Option<JsonModel>,
    indent: u16,
    label: Option<Seq<char>>,
)
    requires
        says_all(a, pa, cur, prev, indent, label),
        inside(cur, s) == Some(child),
        inside_any(prev, s) == old,
        says_all(
            b,
            pb,
            child,
            old,
            deeper(indent),
            match s {
                Step::Name(n) => Some(n),
                Step::At(_) => None,
            },
        ),
    ensures
        says_all(a + b, pa + outward_all(s, pb), cur, prev, indent, label),
{
    let all = pa + outward_all(s, pb);
    assert forall|i: int| 0 <= i < (a + b).len() implies says(
        #[trigger] (a + b)[i],
        all[i],
        cur,
        prev,
        indent,
        label,
    ) by {
        if i < a.len() {
            assert((a + b)[i] == a[i]);
        } else {
            let j = i - a.len();
            assert((a + b)[i] == b[j]);
            assert(all[i] == outward(s, pb[j]));
            lemma_says_outward(b[j], pb[j], s, child, old, cur, prev, indent, label);
        }
    }
}

proof fn lemma_says_members(
    cur: JsonModel,
    members: Seq<(Seq<char>, JsonModel)>,
    n: nat,
    prev: Option<JsonModel>,
    indent: u16,
    label: Option<Seq<char>>,
)
    requires
        cur == JsonModel::Object(members),
        json_wf(cur),
        wf_if_any(prev),
        n <= members.len(),
    ensures
        says_all(
            kept(member_lines(members.take(n as int), members_of(prev), true, deeper(indent))),
            member_places(members.take(n as int)),
            cur,
            prev,
            indent,
            label,
        ),
    decreases cur, 0int, n,
{
    if n > 0 {
        let first = members.take(n - 1);
        let last = members[n - 1];
        let old = old_member(members_of(prev), last.0);
        assert(members.take(n as int).drop_last() =~= first);
        assert(members.take(n as int)[n - 1] == last);
        lemma_says_members(cur, members, (n - 1) as nat, prev, indent, label);
        assert(decreases_to!(cur => cur->Object_0[n - 1].1));
        lemma_step_is_lookup(members, last.0);
        lemma_ascending_distinct(Seq::new(members.len(), |k: int| members[k].0));
        lemma_member_found(members, n - 1);
        if let Some(JsonModel::Object(before)) = prev {
            lemma_step_is_lookup(before, last.0);
            lemma_old_wf(before, last.0);
        }
        assert(inside_any(prev, Step::Name(last.0)) == old);
        lemma_says(last.1, old, deeper(indent), Some(last.0));
        let a = member_lines(first, members_of(prev), true, deeper(indent));
        let b = doc_lines(last.1, old, true, deeper(indent), Some(last.0));
        lemma_kept_join(a, b);
        lemma_says_join(
            kept(a),
            kept(b),
            member_places(first),
            places(last.1),
            Step::Name(last.0),
            last.1,
            old,
            cur,
            prev,
            indent,
            label,
        );
    }
}

proof fn lemma_old_wf(members: Seq<(Seq<char>, JsonModel)>, name: Seq<char>)
    requires
        json_wf(JsonModel::Object(members)),
    ensures
        wf_if_any(member(members, name)),
{
    lemma_step_is_lookup(members, name);
    if exists|k: int| has_member(members, name, k) {
        let k = member_position(members, name);
        assert(json_wf(members[k].1));
    }
}

proof fn lemma_says_items(
    cur: JsonModel,
    items: Seq<JsonModel>,
    n: nat,
    prev: Option<JsonModel>,
    indent: u16,
    label: Option<Seq<char>>,
)
    requires
        cur == JsonModel::Array(items),
        json_wf(cur),
        wf_if_any(prev),
        n <= items.len(),
    ensures
        says_all(
            kept(item_lines(items.take(n as int), items_of(prev), true, deeper(indent))),
            item_places(items.take(n as int)),
            cur,
            prev,
            indent,
            label,
        ),
    decreases cur, 0int, n,
{
    if n > 0 {
        let first = items.take(n - 1);
        let last = items[n - 1];
        let old = old_item(items_of(prev), n - 1);
        let s = Step::At((n - 1) as nat);
        assert(items.take(n as int).drop_last() =~= first);
        assert(items.take(n as int)[n - 1] == last);
        lemma_says_items(cur, items, (n - 1) as nat, prev, indent, label);
        assert(decreases_to!(cur => cur->Array_0[n - 1]));
        if let Some(JsonModel::Array(before)) = prev {
            if n - 1 < before.len() {
                assert(json_wf(before[n - 1]));
            }
        }
        assert(json_wf(items[n - 1]));
        lemma_says(last, old, deeper(indent), None);
        let a = item_lines(first, items_of(prev), true, deeper(indent));
        let b = doc_lines(last, old, true, deeper(indent), None);
        lemma_kept_join(a, b);
        lemma_says_join(
            kept(a),
            kept(b),
            item_places(first),
            places(last),
            s,
            last,
            old,
            cur,
            prev,
            indent,
            label,
        );
    }
}

/// Set aside the lines of what is gone, and the lines of a document against the one
/// before are those of its values, one by one: a container opens and closes unmarked,
/// and the line of a leaf is marked by what stood at the same path before. It is new
/// where nothing did, unchanged where an equal value did, and changed otherwise.
pub proof fn law_leaves_are_marked_by_what_stood_there(cur: JsonModel, prev: JsonModel)
    requires
        json_wf(cur),
        json_wf(prev),
    ensures
        says_all(
            kept(doc_lines(cur, Some(prev), true, 0, None)),
            places(cur),
            cur,
            Some(prev),
            0,
            None,
        ),
{
    lemma_says(cur, Some(prev), 0, None);
}

/// A leaf against a leaf is one line, and it is unmarked only where both hold the same.
pub proof fn law_a_flag_that_turned_over_is_marked(a: bool, b: bool)
    ensures
        ({
            let lines = doc_lines(JsonModel::Bool(a), Some(JsonModel::Bool(b)), true, 0, None);
            &&& lines.len() == 1
            &&& a != b ==> lines[0].tag == DiffTag::Changed
            &&& a == b ==> lines[0].tag == DiffTag::Same
        }),
{
}

// ---------------------------------------------------------------------------
// What is reported
// ---------------------------------------------------------------------------

/// Whether a value is no container.
pub open spec fn is_leaf(v: JsonModel) -> bool {
    !(v is Object) && !(v is Array)
}

/// Whether a path leads to a leaf of the value.
pub open spec fn leads_to_leaf(v: JsonModel, path: Seq<Step>) -> bool {
    match at(Some(v), path) {
        Some(leaf) => is_leaf(leaf),
        None => false,
    }
}

/// Whether two values are containers of the same kind.
pub open spec fn alike(a: Option<JsonModel>, b: Option<JsonModel>) -> bool {
    match (a, b) {
        (Some(JsonModel::Object(_)), Some(JsonModel::Object(_))) => true,
        (Some(JsonModel::Array(_)), Some(JsonModel::Array(_))) => true,
        _ => false,
    }
}

/// Whether a member or an element that a container had is not there any more.
pub open spec fn vanished(cur: JsonModel, prev: Option<JsonModel>, path: Seq<Step>) -> bool {
    &&& path.len() > 0
    &&& at(prev, path) is Some
    &&& at(Some(cur), path) is None
    &&& alike(at(Some(cur), path.drop_last()), at(prev, path.drop_last()))
}

/// Whether a container stands where something else did that was or held a leaf.
pub open spec fn gave_way(cur: JsonModel, prev: Option<JsonModel>, path: Seq<Step>) -> bool {
    match (at(Some(cur), path), at(prev, path)) {
        (Some(c), Some(p)) => {
            &&& !is_leaf(c)
            &&& !alike(Some(c), Some(p))
            &&& exists|leaf: Seq<Step>| leads_to_leaf(p, leaf)
        },
        _ => false,
    }
}

/// Whether the verdict is that on the path.
pub open spec fn reported(
    cur: JsonModel,
    prev: Option<JsonModel>,
    path: Seq<Step>,
    tag: DiffTag,
) -> bool {
    match tag {
        DiffTag::Added => leads_to_leaf(cur, path) && at(prev, path) is None,
        DiffTag::Changed => leads_to_leaf(cur, path) && at(prev, path) is Some && !same_leaf(
            at(prev, path)->0,
            at(Some(cur), path)->0,
        ),
        DiffTag::Removed => vanished(cur, prev, path) || gave_way(cur, prev, path),
        DiffTag::Same => false,
    }
}

/// A path as a text: each step behind a slash.
pub open spec fn path_text(path: Seq<Step>) -> Seq<char>
    decreases path.len(),
{
    if path.len() == 0 {
        Seq::empty()
    } else {
        path_text(path.drop_last()) + seq!['/'] + (match path.last() {
            Step::Name(n) => n,
            Step::At(i) => decimal(i),
        })
    }
}

/// Whether an entry of the report is there for a path below `base`.
spec fn grounded(
    cur: JsonModel,
    prev: Option<JsonModel>,
    base: Seq<Step>,
    key: Seq<char>,
    tag: DiffTag,
) -> bool {
    exists|path: Seq<Step>|
        #[trigger] reported(cur, prev, path, tag) && key == path_text(base + path)
}

/// Whether a report only grew, and by entries that are there for a path.
spec fn extends(
    before: Changes,
    after: Changes,
    cur: JsonModel,
    prev: Option<JsonModel>,
    base: Seq<Step>,
) -> bool {
    &&& before.dom().subset_of(after.dom())
    &&& forall|key: Seq<char>| #[trigger]
        after.dom().contains(key) ==> (before.dom().contains(key) && before[key] == after[key])
            || grounded(cur, prev, base, key, after[key])
}

proof fn lemma_extends_on(
    a: Changes,
    b: Changes,
    c: Changes,
    cur: JsonModel,
    prev: Option<JsonModel>,
    base: Seq<Step>,
)
    requires
        extends(a, b, cur, prev, base),
        extends(b, c, cur, prev, base),
    ensures
        extends(a, c, cur, prev, base),
{
    assert forall|key: Seq<char>| #[trigger] c.dom().contains(key) implies (a.dom().contains(key)
        && a[key] == c[key]) || grounded(cur, prev, base, key, c[key]) by {
        if !grounded(cur, prev, base, key, c[key]) {
            assert(b.dom().contains(key));
        }
    }
}

proof fn lemma_extends_by(
    m: Changes,
    cur: JsonModel,
    prev: Option<JsonModel>,
    base: Seq<Step>,
    path: Seq<Step>,
    tag: DiffTag,
)
    requires
        reported(cur, prev, path, tag),
    ensures
        extends(m, m.insert(path_text(base + path), tag), cur, prev, base),
{
    assert(grounded(cur, prev, base, path_text(base + path), tag));
}

/// A step down from an optional document, then the rest of the path.
proof fn lemma_at_step(v: Option<JsonModel>, s: Step, rest: Seq<Step>)
    ensures
        at(v, seq![s] + rest) == at(inside_any(v, s), rest),
{
    let path = seq![s] + rest;
    assert(path.drop_first() =~= rest);
    assert(path[0] == s);
}

/// What is reported of a part is reported of the whole.
proof fn lemma_reported_outward(
    s: Step,
    child: JsonModel,
    cur: JsonModel,
    prev: Option<JsonModel>,
    rest: Seq<Step>,
    tag: DiffTag,
)
    requires
        inside(cur, s) == Some(child),
    ensures
        reported(child, inside_any(prev, s), rest, tag) ==> reported(
            cur,
            prev,
            seq![s] + rest,
            tag,
        ),
        reported(cur, prev, seq![s] + rest, tag) && (rest.len() > 0 || at(
            Some(cur),
            seq![s],
        ) is Some) ==> reported(child, inside_any(prev, s), rest, tag),
{
    let path = seq![s] + rest;
    let old = inside_any(prev, s);
    lemma_at_step(Some(cur), s, rest);
    lemma_at_step(prev, s, rest);
    assert(inside_any(Some(cur), s) == Some(child));
    if rest.len() > 0 {
        assert(path.drop_last() =~= seq![s] + rest.drop_last());
        lemma_at_step(Some(cur), s, rest.drop_last());
        lemma_at_step(prev, s, rest.drop_last());
    } else {
        assert(path =~= seq![s]);
        assert(at(Some(child), rest) == Some(child));
    }
}

proof fn lemma_extends_outward(
    a: Changes,
    b: Changes,
    s: Step,
    child: JsonModel,
    cur: JsonModel,
    prev: Option<JsonModel>,
    base: Seq<Step>,
)
    requires
        inside(cur, s) == Some(child),
        extends(a, b, child, inside_any(prev, s), base.push(s)),
    ensures
        extends(a, b, cur, prev, base),
{
    let old = inside_any(prev, s);
    assert forall|key: Seq<char>| #[trigger] b.dom().contains(key) implies (a.dom().contains(key)
        && a[key] == b[key]) || grounded(cur, prev, base, key, b[key]) by {
        if grounded(child, old, base.push(s), key, b[key]) {
            let rest = choose|rest: Seq<Step>| #[trigger]
                reported(child, old, rest, b[key]) && key == path_text(base.push(s) + rest);
            lemma_reported_outward(s, child, cur, prev, rest, b[key]);
            assert(base.push(s) + rest =~= base + (seq![s] + rest));
            assert(reported(cur, prev, seq![s] + rest, b[key]));
        }
    }
}

/// A value holds a leaf exactly when a path leads to one.
proof fn lemma_holds_leaf(v: JsonModel)
    requires
        json_wf(v),
    ensures
        holds_leaf(v) <==> exists|path: Seq<Step>| leads_to_leaf(v, path),
    decreases v, 1int, 0nat,
{
    match v {
        JsonModel::Object(members) => {
            lemma_members_hold_leaf(v, members, members.len());
            assert(members.take(members.len() as int) =~= members);
            if exists|path: Seq<Step>| leads_to_leaf(v, path) {
                let path = choose|path: Seq<Step>| leads_to_leaf(v, path);
                let k = member_position(members, path[0]->Name_0);
                let rest = path.drop_first();
                assert(path.len() > 0);
                assert(path =~= seq![path[0]] + rest);
                lemma_at_step(Some(v), path[0], rest);
                assert(inside(v, path[0]) is Some);
                assert(leads_to_leaf(members[k].1, rest));
                assert(has_member(members, path[0]->Name_0, k));
            }
        },
        JsonModel::Array(items) => {
            lemma_items_hold_leaf(v, items, items.len());
            assert(items.take(items.len() as int) =~= items);
            if exists|path: Seq<Step>| leads_to_leaf(v, path) {
                let path = choose|path: Seq<Step>| leads_to_leaf(v, path);
                let rest = path.drop_first();
                assert(path.len() > 0);
                assert(path =~= seq![path[0]] + rest);
                lemma_at_step(Some(v), path[0], rest);
                assert(inside(v, path[0]) is Some);
                assert(leads_to_leaf(items[path[0]->At_0 as int], rest));
            }
        },
        _ => {
            assert(leads_to_leaf(v, Seq::empty()));
        },
    }
}

proof fn lemma_members_hold_leaf(v: JsonModel, members: Seq<(Seq<char>, JsonModel)>, n: nat)
    requires
        json_wf(v),
        v == JsonModel::Object(members),
        n <= members.len(),
    ensures
        members_hold_leaf(members.take(n as int)) ==> exists|path: Seq<Step>|
            leads_to_leaf(v, path),
        forall|k: int, path: Seq<Step>|
            0 <= k < n && #[trigger] leads_to_leaf(members[k].1, path) ==> members_hold_leaf(
                members.take(n as int),
            ),
    decreases v, 0int, n,
{
    if n > 0 {
        let last = members[n - 1];
        assert(members.take(n as int).drop_last() =~= members.take(n - 1));
        assert(members.take(n as int)[n - 1] == last);
        lemma_members_hold_leaf(v, members, (n - 1) as nat);
        assert(decreases_to!(v => v->Object_0[n - 1].1));
        lemma_holds_leaf(last.1);
        if holds_leaf(last.1) {
            let rest = choose|path: Seq<Step>| leads_to_leaf(last.1, path);
            let s = Step::Name(last.0);
            lemma_step_is_lookup(members, last.0);
            lemma_ascending_distinct(Seq::new(members.len(), |k: int| members[k].0));
            lemma_member_found(members, n - 1);
            lemma_at_step(Some(v), s, rest);
            assert(leads_to_leaf(v, seq![s] + rest));
        }
    }
}

proof fn lemma_items_hold_leaf(v: JsonModel, items: Seq<JsonModel>, n: nat)
    requires
        json_wf(v),
        v == JsonModel::Array(items),
        n <= items.len(),
    ensures
        items_hold_leaf(items.take(n as int)) ==> exists|path: Seq<Step>| leads_to_leaf(v, path),
        forall|k: int, path: Seq<Step>|
            0 <= k < n && #[trigger] leads_to_leaf(items[k], path) ==> items_hold_leaf(
                items.take(n as int),
            ),
    decreases v, 0int, n,
{
    if n > 0 {
        let last = items[n - 1];
        assert(items.take(n as int).drop_last() =~= items.take(n - 1));
        assert(items.take(n as int).last() == last);
        lemma_items_hold_leaf(v, items, (n - 1) as nat);
        assert(decreases_to!(v => v->Array_0[n - 1]));
        assert(json_wf(items[n - 1]));
        lemma_holds_leaf(last);
        if holds_leaf(last) {
            let rest = choose|path: Seq<Step>| leads_to_leaf(last, path);
            let s = Step::At((n - 1) as nat);
            lemma_at_step(Some(v), s, rest);
            assert(leads_to_leaf(v, seq![s] + rest));
        }
    }
}

/// Whether everything that is to be reported below a step is.
spec fn covers(
    m: Changes,
    cur: JsonModel,
    prev: Option<JsonModel>,
    base: Seq<Step>,
    path: Seq<Step>,
) -> bool {
    (exists|tag: DiffTag| reported(cur, prev, path, tag)) ==> m.dom().contains(
        path_text(base + path),
    )
}

proof fn lemma_path_text_step(base: Seq<Step>, s: Step)
    ensures
        path_text(base + seq![s]) == path_text(base.push(s)),
        path_text(base.push(s)) == crate::diff::step(
            path_text(base),
            match s {
                Step::Name(n) => n,
                Step::At(i) => decimal(i),
            },
        ),
{
    assert(base + seq![s] =~= base.push(s));
    assert(base.push(s).drop_last() =~= base);
    reveal_strlit("/");
    assert("/"@ =~= seq!['/']);
}

proof fn lemma_changes(cur: JsonModel, prev: Option<JsonModel>, base: Seq<Step>, m: Changes)
    requires
        json_wf(cur),
        wf_if_any(prev),
    ensures
        extends(m, changes(cur, prev, path_text(base), m), cur, prev, base),
        forall|path: Seq<Step>|
            covers(#[trigger] changes(cur, prev, path_text(base), m), cur, prev, base, path),
    decreases cur, 1int, 0nat,
{
    let none = Seq::<Step>::empty();
    let text = path_text(base);
    let all = changes(cur, prev, text, m);
    let led = displaced_changes(cur, prev, text, m);
    assert(base + none =~= base);
    assert(at(Some(cur), none) == Some(cur));
    assert(at(prev, none) == prev);
    if prev is Some {
        lemma_holds_leaf(prev->0);
    }
    assert(extends(m, led, cur, prev, base)) by {
        if displaced(cur, prev) is Some {
            assert(gave_way(cur, prev, none));
            assert(reported(cur, prev, none, DiffTag::Removed));
            lemma_extends_by(m, cur, prev, base, none, DiffTag::Removed);
        }
    }
    match cur {
        JsonModel::Object(members) => {
            let inner = member_changes(members, members_of(prev), text, led);
            lemma_member_changes(cur, members, members.len(), prev, base, led);
            assert(members.take(members.len() as int) =~= members);
            lemma_extends_on(m, led, inner, cur, prev, base);
            if let Some(JsonModel::Object(old)) = prev {
                lemma_gone_member_changes(cur, members, prev, old, old.len(), base, inner);
                assert(old.take(old.len() as int) =~= old);
                lemma_extends_on(m, inner, all, cur, prev, base);
            }
            assert forall|path: Seq<Step>| covers(all, cur, prev, base, path) by {
                if exists|tag: DiffTag| reported(cur, prev, path, tag) {
                    let tag = choose|tag: DiffTag| reported(cur, prev, path, tag);
                    if path.len() == 0 {
                        assert(path =~= none);
                        assert(led.dom().contains(text));
                    } else {
                        let s = path[0];
                        let rest = path.drop_first();
                        assert(path =~= seq![s] + rest);
                        lemma_at_step(Some(cur), s, rest);
                        lemma_at_step(prev, s, rest);
                        if inside(cur, s) is Some {
                            let k = member_position(members, s->Name_0);
                            assert(has_member(members, s->Name_0, k));
                            assert(at(Some(cur), seq![s]) is Some) by {
                                lemma_at_step(Some(cur), s, none);
                                assert(seq![s] + none =~= seq![s]);
                            }
                            lemma_reported_outward(s, members[k].1, cur, prev, rest, tag);
                            assert(covers(inner, cur, prev, base, seq![s] + rest));
                        } else {
                            if rest.len() > 0 {
                                assert(path.drop_last() =~= seq![s] + rest.drop_last());
                                lemma_at_step(Some(cur), s, rest.drop_last());
                            } else {
                                assert(path.drop_last() =~= none);
                                assert(vanished(cur, prev, path));
                                let old = prev->0->Object_0;
                                let k = member_position(old, s->Name_0);
                                assert(has_member(old, s->Name_0, k));
                                assert(path =~= seq![Step::Name(old[k].0)]);
                            }
                        }
                    }
                }
            }
        },
        JsonModel::Array(items) => {
            let inner = item_changes(items, items_of(prev), text, led);
            lemma_item_changes(cur, items, items.len(), prev, base, led);
            assert(items.take(items.len() as int) =~= items);
            lemma_extends_on(m, led, inner, cur, prev, base);
            if let Some(JsonModel::Array(old)) = prev {
                lemma_gone_item_changes(cur, items, prev, old, old.len(), base, inner);
                assert(old.take(old.len() as int) =~= old);
                lemma_extends_on(m, inner, all, cur, prev, base);
            }
            assert forall|path: Seq<Step>| covers(all, cur, prev, base, path) by {
                if exists|tag: DiffTag| reported(cur, prev, path, tag) {
                    let tag = choose|tag: DiffTag| reported(cur, prev, path, tag);
                    if path.len() == 0 {
                        assert(path =~= none);
                        assert(led.dom().contains(text));
                    } else {
                        let s = path[0];
                        let rest = path.drop_first();
                        assert(path =~= seq![s] + rest);
                        lemma_at_step(Some(cur), s, rest);
                        lemma_at_step(prev, s, rest);
                        if inside(cur, s) is Some {
                            let k = s->At_0 as int;
                            assert(s == Step::At(k as nat));
                            assert(at(Some(cur), seq![s]) is Some) by {
                                lemma_at_step(Some(cur), s, none);
                                assert(seq![s] + none =~= seq![s]);
                            }
                            lemma_reported_outward(s, items[k], cur, prev, rest, tag);
                            assert(covers(inner, cur, prev, base, seq![s] + rest));
                        } else {
                            if rest.len() > 0 {
                                assert(path.drop_last() =~= seq![s] + rest.drop_last());
                                lemma_at_step(Some(cur), s, rest.drop_last());
                            } else {
                                assert(path.drop_last() =~= none);
                                assert(vanished(cur, prev, path));
                                assert(path =~= seq![Step::At(s->At_0)]);
                            }
                        }
                    }
                }
            }
        },
        _ => {
            lemma_leaf_eq(cur, prev);
            assert(forall|v: JsonModel, s: Step| is_leaf(v) ==> #[trigger] inside(v, s) is None);
            match prev {
                None => {
                    assert(reported(cur, prev, none, DiffTag::Added));
                    lemma_extends_by(m, cur, prev, base, none, DiffTag::Added);
                },
                Some(p) => {
                    if !json_eq(p, cur) {
                        assert(reported(cur, prev, none, DiffTag::Changed));
                        lemma_extends_by(m, cur, prev, base, none, DiffTag::Changed);
                    }
                },
            }
            assert forall|path: Seq<Step>| covers(all, cur, prev, base, path) by {
                if exists|tag: DiffTag| reported(cur, prev, path, tag) {
                    let tag = choose|tag: DiffTag| reported(cur, prev, path, tag);
                    if path.len() == 0 {
                        assert(path =~= none);
                    } else {
                        assert(inside(cur, path[0]) is None);
                        assert(path =~= seq![path[0]] + path.drop_first());
                        lemma_at_step(Some(cur), path[0], path.drop_first());
                        if path.len() > 1 {
                            let q = path.drop_last();
                            assert(q =~= seq![path[0]] + q.drop_first());
                            lemma_at_step(Some(cur), path[0], q.drop_first());
                        } else {
                            assert(path.drop_last() =~= none);
                        }
                    }
                }
            }
        },
    }
}

proof fn lemma_leaf_eq(cur: JsonModel, prev: Option<JsonModel>)
    requires
        is_leaf(cur),
    ensures
        prev is Some ==> json_eq(prev->0, cur) == same_leaf(prev->0, cur),
{
}

proof fn lemma_member_changes(
    cur: JsonModel,
    members: Seq<(Seq<char>, JsonModel)>,
    n: nat,
    prev: Option<JsonModel>,
    base: Seq<Step>,
    m: Changes,
)
    requires
        cur == JsonModel::Object(members),
        json_wf(cur),
        wf_if_any(prev),
        n <= members.len(),
    ensures
        ({
            let after = member_changes(
                members.take(n as int),
                members_of(prev),
                path_text(base),
                m,
            );
            &&& extends(m, after, cur, prev, base)
            &&& forall|k: int, rest: Seq<Step>|
                0 <= k < n ==> #[trigger] covers(
                    after,
                    cur,
                    prev,
                    base,
                    seq![Step::Name(members[k].0)] + rest,
                )
        }),
    decreases cur, 0int, n,
{
    if n > 0 {
        let first = members.take(n - 1);
        let last = members[n - 1];
        let s = Step::Name(last.0);
        let old = old_member(members_of(prev), last.0);
        assert(members.take(n as int).drop_last() =~= first);
        assert(members.take(n as int)[n - 1] == last);
        lemma_member_changes(cur, members, (n - 1) as nat, prev, base, m);
        assert(decreases_to!(cur => cur->Object_0[n - 1].1));
        lemma_step_is_lookup(members, last.0);
        lemma_ascending_distinct(Seq::new(members.len(), |k: int| members[k].0));
        lemma_member_found(members, n - 1);
        if let Some(JsonModel::Object(before)) = prev {
            lemma_step_is_lookup(before, last.0);
            lemma_old_wf(before, last.0);
        }
        assert(inside_any(prev, s) == old);
        let mid = member_changes(first, members_of(prev), path_text(base), m);
        lemma_path_text_step(base, s);
        lemma_changes(last.1, old, base.push(s), mid);
        let after = changes(last.1, old, path_text(base.push(s)), mid);
        lemma_extends_outward(mid, after, s, last.1, cur, prev, base);
        lemma_extends_on(m, mid, after, cur, prev, base);
        assert forall|k: int, rest: Seq<Step>| 0 <= k < n implies #[trigger] covers(
            after,
            cur,
            prev,
            base,
            seq![Step::Name(members[k].0)] + rest,
        ) by {
            let path = seq![Step::Name(members[k].0)] + rest;
            if k < n - 1 {
                assert(covers(mid, cur, prev, base, path));
            } else if exists|tag: DiffTag| reported(cur, prev, path, tag) {
                let tag = choose|tag: DiffTag| reported(cur, prev, path, tag);
                assert(at(Some(cur), seq![s]) is Some) by {
                    lemma_at_step(Some(cur), s, Seq::empty());
                    assert(seq![s] + Seq::<Step>::empty() =~= seq![s]);
                }
                lemma_reported_outward(s, last.1, cur, prev, rest, tag);
                assert(covers(after, last.1, old, base.push(s), rest));
                assert(base.push(s) + rest =~= base + path);
            }
        }
    }
}

proof fn lemma_item_changes(
    cur: JsonModel,
    items: Seq<JsonModel>,
    n: nat,
    prev: Option<JsonModel>,
    base: Seq<Step>,
    m: Changes,
)
    requires
        cur == JsonModel::Array(items),
        json_wf(cur),
        wf_if_any(prev),
        n <= items.len(),
    ensures
        ({
            let after = item_changes(items.take(n as int), items_of(prev), path_text(base), m);
            &&& extends(m, after, cur, prev, base)
            &&& forall|k: int, rest: Seq<Step>|
                0 <= k < n ==> #[trigger] covers(
                    after,
                    cur,
                    prev,
                    base,
                    seq![Step::At(k as nat)] + rest,
                )
        }),
    decreases cur, 0int, n,
{
    if n > 0 {
        let first = items.take(n - 1);
        let last = items[n - 1];
        let s = Step::At((n - 1) as nat);
        let old = old_item(items_of(prev), n - 1);
        assert(items.take(n as int).drop_last() =~= first);
        assert(items.take(n as int)[n - 1] == last);
        lemma_item_changes(cur, items, (n - 1) as nat, prev, base, m);
        assert(decreases_to!(cur => cur->Array_0[n - 1]));
        assert(json_wf(items[n - 1]));
        if let Some(JsonModel::Array(before)) = prev {
            if n - 1 < before.len() {
                assert(json_wf(before[n - 1]));
            }
        }
        assert(inside_any(prev, s) == old);
        let mid = item_changes(first, items_of(prev), path_text(base), m);
        lemma_path_text_step(base, s);
        lemma_changes(last, old, base.push(s), mid);
        let after = changes(last, old, path_text(base.push(s)), mid);
        lemma_extends_outward(mid, after, s, last, cur, prev, base);
        lemma_extends_on(m, mid, after, cur, prev, base);
        assert forall|k: int, rest: Seq<Step>| 0 <= k < n implies #[trigger] covers(
            after,
            cur,
            prev,
            base,
            seq![Step::At(k as nat)] + rest,
        ) by {
            let path = seq![Step::At(k as nat)] + rest;
            if k < n - 1 {
                assert(covers(mid, cur, prev, base, path));
            } else if exists|tag: DiffTag| reported(cur, prev, path, tag) {
                let tag = choose|tag: DiffTag| reported(cur, prev, path, tag);
                assert(at(Some(cur), seq![s]) is Some) by {
                    lemma_at_step(Some(cur), s, Seq::empty());
                    assert(seq![s] + Seq::<Step>::empty() =~= seq![s]);
                }
                lemma_reported_outward(s, last, cur, prev, rest, tag);
                assert(covers(after, last, old, base.push(s), rest));
                assert(base.push(s) + rest =~= base + path);
            }
        }
    }
}

proof fn lemma_gone_member_changes(
    cur: JsonModel,
    members: Seq<(Seq<char>, JsonModel)>,
    prev: Option<JsonModel>,
    old: Seq<(Seq<char>, JsonModel)>,
    n: nat,
    base: Seq<Step>,
    m: Changes,
)
    requires
        cur == JsonModel::Object(members),
        prev == Some(JsonModel::Object(old)),
        json_wf(cur),
        wf_if_any(prev),
        n <= old.len(),
    ensures
        ({
            let after = gone_member_changes(
                Some(old.take(n as int)),
                members,
                path_text(base),
                m,
            );
            &&& extends(m, after, cur, prev, base)
            &&& forall|k: int|
                0 <= k < n && inside(cur, Step::Name((#[trigger] old[k]).0)) is None
                    ==> after.dom().contains(path_text(base + seq![Step::Name(old[k].0)]))
        }),
    decreases n,
{
    if n > 0 {
        let first = old.take(n - 1);
        let last = old[n - 1];
        let s = Step::Name(last.0);
        assert(old.take(n as int).drop_last() =~= first);
        assert(old.take(n as int)[n - 1] == last);
        lemma_gone_member_changes(cur, members, prev, old, (n - 1) as nat, base, m);
        let mid = gone_member_changes(Some(first), members, path_text(base), m);
        let after = gone_member_changes(Some(old.take(n as int)), members, path_text(base), m);
        lemma_step_is_lookup(members, last.0);
        lemma_step_is_lookup(old, last.0);
        lemma_ascending_distinct(Seq::new(old.len(), |k: int| old[k].0));
        lemma_member_found(old, n - 1);
        lemma_path_text_step(base, s);
        if member(members, last.0) is None {
            let path = seq![s];
            let none = Seq::<Step>::empty();
            assert(path =~= seq![s] + none);
            lemma_at_step(Some(cur), s, none);
            lemma_at_step(prev, s, none);
            assert(path.drop_last() =~= none);
            assert(vanished(cur, prev, path));
            lemma_extends_by(mid, cur, prev, base, path, DiffTag::Removed);
            lemma_extends_on(m, mid, after, cur, prev, base);
        }
    }
}

proof fn lemma_gone_item_changes(
    cur: JsonModel,
    items: Seq<JsonModel>,
    prev: Option<JsonModel>,
    old: Seq<JsonModel>,
    n: nat,
    base: Seq<Step>,
    m: Changes,
)
    requires
        cur == JsonModel::Array(items),
        prev == Some(JsonModel::Array(old)),
        n <= old.len(),
    ensures
        ({
            let after = gone_item_changes(
                Some(old.take(n as int)),
                items.len(),
                path_text(base),
                m,
            );
            &&& extends(m, after, cur, prev, base)
            &&& forall|k: nat|
                items.len() <= k < n ==> #[trigger] after.dom().contains(
                    path_text(base + seq![Step::At(k)]),
                )
        }),
    decreases n,
{
    if n > items.len() {
        let first = old.take(n - 1);
        let s = Step::At((n - 1) as nat);
        assert(old.take(n as int).drop_last() =~= first);
        lemma_gone_item_changes(cur, items, prev, old, (n - 1) as nat, base, m);
        let mid = gone_item_changes(Some(first), items.len(), path_text(base), m);
        let after = gone_item_changes(Some(old.take(n as int)), items.len(), path_text(base), m);
        lemma_path_text_step(base, s);
        let path = seq![s];
        let none = Seq::<Step>::empty();
        assert(path =~= seq![s] + none);
        lemma_at_step(Some(cur), s, none);
        lemma_at_step(prev, s, none);
        assert(path.drop_last() =~= none);
        assert(vanished(cur, prev, path));
        lemma_extends_by(mid, cur, prev, base, path, DiffTag::Removed);
        lemma_extends_on(m, mid, after, cur, prev, base);
    }
}

/// Whether a report is exactly what differs. Every entry is there for a path with its
/// verdict, and every path with a verdict has an entry.
pub open spec fn reports(all: Changes, cur: JsonModel, prev: JsonModel) -> bool {
    &&& forall|key: Seq<char>| #[trigger]
        all.dom().contains(key) ==> exists|path: Seq<Step>|
            #[trigger] reported(cur, Some(prev), path, all[key]) && key == path_text(path)
    &&& forall|path: Seq<Step>, tag: DiffTag| #[trigger]
        reported(cur, Some(prev), path, tag) ==> all.dom().contains(path_text(path))
}

/// What is reported is exactly what differs: a leaf that is new or not equal to what
/// stood at its path, a member or an element that its container has no more, and what
/// gave way to a container.
pub proof fn law_what_is_reported_is_what_differs(cur: JsonModel, prev: JsonModel)
    requires
        json_wf(cur),
        json_wf(prev),
    ensures
        reports(changes(cur, Some(prev), Seq::empty(), Map::empty()), cur, prev),
{
    let none = Seq::<Step>::empty();
    let all = changes(cur, Some(prev), path_text(none), Map::empty());
    lemma_changes(cur, Some(prev), none, Map::empty());
    assert forall|key: Seq<char>| #[trigger] all.dom().contains(key) implies exists|
        path: Seq<Step>,
    | #[trigger]
        reported(cur, Some(prev), path, all[key]) && key == path_text(path) by {
        assert(grounded(cur, Some(prev), none, key, all[key]));
        let path = choose|path: Seq<Step>| #[trigger]
            reported(cur, Some(prev), path, all[key]) && key == path_text(none + path);
        assert(none + path =~= path);
    }
    assert forall|path: Seq<Step>, tag: DiffTag| #[trigger]
        reported(cur, Some(prev), path, tag) implies all.dom().contains(path_text(path)) by {
        assert(covers(all, cur, Some(prev), none, path));
        assert(none + path =~= path);
    }
}

// ---------------------------------------------------------------------------
// The lines of what is gone
// ---------------------------------------------------------------------------

/// A value on a line of its own: a leaf as it is written, a container as compact JSON.
pub open spec fn value_text(v: JsonModel) -> Seq<char> {
    if is_leaf(v) {
        leaf_text(v)
    } else {
        compact(v)
    }
}

/// Whether a line tells of the value that is gone from a path.
pub open spec fn tells(
    l: LineModel,
    cur: JsonModel,
    prev: Option<JsonModel>,
    path: Seq<Step>,
    indent: u16,
    label: Option<Seq<char>>,
) -> bool {
    &&& reported(cur, prev, path, DiffTag::Removed)
    &&& l.indent == nested(indent, path.len())
    &&& l.text == label_at(path, label) + value_text(at(prev, path)->0)
}

proof fn lemma_contains_join(a: Seq<LineModel>, b: Seq<LineModel>, l: LineModel)
    ensures
        (a + b).contains(l) <==> a.contains(l) || b.contains(l),
{
    if a.contains(l) {
        assert((a + b)[a.index_of(l)] == l);
    }
    if b.contains(l) {
        assert((a + b)[a.len() + b.index_of(l)] == l);
    }
    if (a + b).contains(l) {
        let i = (a + b).index_of(l);
        if i < a.len() {
            assert(a[i] == l);
        } else {
            assert(b[i - a.len()] == l);
        }
    }
}

proof fn lemma_value_text(v: JsonModel)
    ensures
        shown(v) == value_text(v),
{
    if is_leaf(v) {
        lemma_leaf_text(v);
    }
}

proof fn lemma_tells_outward(
    l: LineModel,
    s: Step,
    child: JsonModel,
    cur: JsonModel,
    prev: Option<JsonModel>,
    rest: Seq<Step>,
    indent: u16,
    label: Option<Seq<char>>,
)
    requires
        inside(cur, s) == Some(child),
    ensures
        tells(
            l,
            child,
            inside_any(prev, s),
            rest,
            deeper(indent),
            match s {
                Step::Name(n) => Some(n),
                Step::At(_) => None,
            },
        ) <==> tells(l, cur, prev, seq![s] + rest, indent, label),
{
    let path = seq![s] + rest;
    let none = Seq::<Step>::empty();
    lemma_at_step(Some(cur), s, none);
    assert(seq![s] + none =~= seq![s]);
    lemma_reported_outward(s, child, cur, prev, rest, DiffTag::Removed);
    lemma_at_step(prev, s, rest);
    if rest.len() == 0 {
        assert(path.last() == s);
    } else {
        assert(path.last() == rest.last());
    }
    assert(nested(deeper(indent), rest.len()) == nested(indent, path.len()));
}

proof fn lemma_removed(
    cur: JsonModel,
    prev: Option<JsonModel>,
    indent: u16,
    label: Option<Seq<char>>,
    l: LineModel,
)
    requires
        json_wf(cur),
        wf_if_any(prev),
        l.tag == DiffTag::Removed,
    ensures
        doc_lines(cur, prev, true, indent, label).contains(l) <==> exists|path: Seq<Step>|
            tells(l, cur, prev, path, indent, label),
    decreases cur, 1int, 0nat,
{
    let none = Seq::<Step>::empty();
    let lines = doc_lines(cur, prev, true, indent, label);
    let lead = displaced_lines(cur, prev, indent, label);
    reveal_strlit(": ");
    assert(prefix(label) =~= label_at(none, label));
    assert(at(Some(cur), none) == Some(cur));
    assert(at(prev, none) == prev);
    if prev is Some {
        lemma_holds_leaf(prev->0);
        lemma_value_text(prev->0);
    }
    assert(!is_leaf(cur) ==> (lead.contains(l) <==> tells(l, cur, prev, none, indent, label))) by {
        if !is_leaf(cur) {
            if lead.contains(l) {
                assert(lead[0] == l);
                assert(gave_way(cur, prev, none));
            }
            if tells(l, cur, prev, none, indent, label) {
                assert(gave_way(cur, prev, none));
                assert(lead[0] == l);
            }
        }
    }
    match cur {
        JsonModel::Object(members) => {
            let open = seq![line(indent, prefix(label) + "{"@, DiffTag::Same)];
            let close = seq![line(indent, "}"@, DiffTag::Same)];
            let inner = member_lines(members, members_of(prev), true, deeper(indent));
            let gone = gone_members(members_of(prev), members, deeper(indent));
            lemma_contains_join(lead, open, l);
            lemma_contains_join(lead + open, inner, l);
            lemma_contains_join(lead + open + inner, gone, l);
            lemma_contains_join(lead + open + inner + gone, close, l);
            assert(!open.contains(l) && !close.contains(l));
            lemma_removed_members(cur, members, members.len(), prev, indent, label, l);
            assert(members.take(members.len() as int) =~= members);
            if let Some(JsonModel::Object(old)) = prev {
                lemma_gone_member_lines(cur, members, prev, old, old.len(), indent, label, l);
                assert(old.take(old.len() as int) =~= old);
            }
            if exists|path: Seq<Step>| tells(l, cur, prev, path, indent, label) {
                let path = choose|path: Seq<Step>| tells(l, cur, prev, path, indent, label);
                if path.len() == 0 {
                    assert(path =~= none);
                } else {
                    let s = path[0];
                    let rest = path.drop_first();
                    assert(path =~= seq![s] + rest);
                    lemma_at_step(Some(cur), s, rest);
                    if inside(cur, s) is Some {
                        let k = member_position(members, s->Name_0);
                        assert(has_member(members, s->Name_0, k));
                        assert(tells(
                            l,
                            cur,
                            prev,
                            seq![Step::Name(members[k].0)] + rest,
                            indent,
                            label,
                        ));
                    } else {
                        if rest.len() > 0 {
                            assert(path.drop_last() =~= seq![s] + rest.drop_last());
                            lemma_at_step(Some(cur), s, rest.drop_last());
                        } else {
                            assert(path.drop_last() =~= none);
                            lemma_at_step(prev, s, rest);
                            let old = prev->0->Object_0;
                            let k = member_position(old, s->Name_0);
                            assert(has_member(old, s->Name_0, k));
                            assert(path =~= seq![Step::Name(old[k].0)]);
                            assert(tells(
                                l,
                                cur,
                                prev,
                                seq![Step::Name(old[k].0)],
                                indent,
                                label,
                            ));
                        }
                    }
                }
            }
        },
        JsonModel::Array(items) => {
            let open = seq![line(indent, prefix(label) + "["@, DiffTag::Same)];
            let close = seq![line(indent, "]"@, DiffTag::Same)];
            let inner = item_lines(items, items_of(prev), true, deeper(indent));
            let gone = gone_items(items_of(prev), items.len(), deeper(indent));
            lemma_contains_join(lead, open, l);
            lemma_contains_join(lead + open, inner, l);
            lemma_contains_join(lead + open + inner, gone, l);
            lemma_contains_join(lead + open + inner + gone, close, l);
            assert(!open.contains(l) && !close.contains(l));
            lemma_removed_items(cur, items, items.len(), prev, indent, label, l);
            assert(items.take(items.len() as int) =~= items);
            if let Some(JsonModel::Array(old)) = prev {
                lemma_gone_item_lines(cur, items, prev, old, old.len(), indent, label, l);
                assert(old.take(old.len() as int) =~= old);
            }
            if exists|path: Seq<Step>| tells(l, cur, prev, path, indent, label) {
                let path = choose|path: Seq<Step>| tells(l, cur, prev, path, indent, label);
                if path.len() == 0 {
                    assert(path =~= none);
                } else {
                    let s = path[0];
                    let rest = path.drop_first();
                    assert(path =~= seq![s] + rest);
                    lemma_at_step(Some(cur), s, rest);
                    if inside(cur, s) is Some {
                        let k = s->At_0 as int;
                        assert(s == Step::At(k as nat));
                        assert(tells(
                            l,
                            cur,
                            prev,
                            seq![Step::At(k as nat)] + rest,
                            indent,
                            label,
                        ));
                    } else {
                        if rest.len() > 0 {
                            assert(path.drop_last() =~= seq![s] + rest.drop_last());
                            lemma_at_step(Some(cur), s, rest.drop_last());
                        } else {
                            assert(path.drop_last() =~= none);
                            lemma_at_step(prev, s, rest);
                            assert(path =~= seq![Step::At(s->At_0)]);
                            assert(tells(
                                l,
                                cur,
                                prev,
                                seq![Step::At(s->At_0)],
                                indent,
                                label,
                            ));
                        }
                    }
                }
            }
        },
        _ => {
            if lines.contains(l) {
                assert(lines[0] == l);
            }
            if exists|path: Seq<Step>| tells(l, cur, prev, path, indent, label) {
                let path = choose|path: Seq<Step>| tells(l, cur, prev, path, indent, label);
                if path.len() == 0 {
                    assert(path =~= none);
                } else {
                    assert(inside(cur, path[0]) is None);
                    assert(path =~= seq![path[0]] + path.drop_first());
                    lemma_at_step(Some(cur), path[0], path.drop_first());
                    if path.len() > 1 {
                        let q = path.drop_last();
                        assert(q =~= seq![path[0]] + q.drop_first());
                        lemma_at_step(Some(cur), path[0], q.drop_first());
                    } else {
                        assert(path.drop_last() =~= none);
                    }
                }
            }
        },
    }
}

proof fn lemma_removed_members(
    cur: JsonModel,
    members: Seq<(Seq<char>, JsonModel)>,
    n: nat,
    prev: Option<JsonModel>,
    indent: u16,
    label: Option<Seq<char>>,
    l: LineModel,
)
    requires
        cur == JsonModel::Object(members),
        json_wf(cur),
        wf_if_any(prev),
        n <= members.len(),
        l.tag == DiffTag::Removed,
    ensures
        member_lines(members.take(n as int), members_of(prev), true, deeper(indent)).contains(l)
            <==> exists|k: int, rest: Seq<Step>|
            0 <= k < n && #[trigger] tells(
                l,
                cur,
                prev,
                seq![Step::Name(members[k].0)] + rest,
                indent,
                label,
            ),
    decreases cur, 0int, n,
{
    if n > 0 {
        let first = members.take(n - 1);
        let last = members[n - 1];
        let s = Step::Name(last.0);
        let old = old_member(members_of(prev), last.0);
        assert(members.take(n as int).drop_last() =~= first);
        assert(members.take(n as int)[n - 1] == last);
        lemma_removed_members(cur, members, (n - 1) as nat, prev, indent, label, l);
        assert(decreases_to!(cur => cur->Object_0[n - 1].1));
        lemma_step_is_lookup(members, last.0);
        lemma_ascending_distinct(Seq::new(members.len(), |k: int| members[k].0));
        lemma_member_found(members, n - 1);
        if let Some(JsonModel::Object(before)) = prev {
            lemma_step_is_lookup(before, last.0);
            lemma_old_wf(before, last.0);
        }
        assert(inside_any(prev, s) == old);
        lemma_removed(last.1, old, deeper(indent), Some(last.0), l);
        let a = member_lines(first, members_of(prev), true, deeper(indent));
        let b = doc_lines(last.1, old, true, deeper(indent), Some(last.0));
        lemma_contains_join(a, b, l);
        if b.contains(l) {
            let rest = choose|rest: Seq<Step>|
                tells(l, last.1, old, rest, deeper(indent), Some(last.0));
            lemma_tells_outward(l, s, last.1, cur, prev, rest, indent, label);
            assert(tells(l, cur, prev, seq![Step::Name(members[n - 1].0)] + rest, indent, label));
        }
        if exists|k: int, rest: Seq<Step>|
            0 <= k < n && #[trigger] tells(
                l,
                cur,
                prev,
                seq![Step::Name(members[k].0)] + rest,
                indent,
                label,
            ) {
            let (k, rest) = choose|k: int, rest: Seq<Step>|
                0 <= k < n && #[trigger] tells(
                    l,
                    cur,
                    prev,
                    seq![Step::Name(members[k].0)] + rest,
                    indent,
                    label,
                );
            if k == n - 1 {
                lemma_tells_outward(l, s, last.1, cur, prev, rest, indent, label);
                assert(tells(l, last.1, old, rest, deeper(indent), Some(last.0)));
            }
        }
    }
}

proof fn lemma_removed_items(
    cur: JsonModel,
    items: Seq<JsonModel>,
    n: nat,
    prev: Option<JsonModel>,
    indent: u16,
    label: Option<Seq<char>>,
    l: LineModel,
)
    requires
        cur == JsonModel::Array(items),
        json_wf(cur),
        wf_if_any(prev),
        n <= items.len(),
        l.tag == DiffTag::Removed,
    ensures
        item_lines(items.take(n as int), items_of(prev), true, deeper(indent)).contains(l)
            <==> exists|k: int, rest: Seq<Step>|
            0 <= k < n && #[trigger] tells(
                l,
                cur,
                prev,
                seq![Step::At(k as nat)] + rest,
                indent,
                label,
            ),
    decreases cur, 0int, n,
{
    if n > 0 {
        let first = items.take(n - 1);
        let last = items[n - 1];
        let s = Step::At((n - 1) as nat);
        let old = old_item(items_of(prev), n - 1);
        assert(items.take(n as int).drop_last() =~= first);
        assert(items.take(n as int)[n - 1] == last);
        lemma_removed_items(cur, items, (n - 1) as nat, prev, indent, label, l);
        assert(decreases_to!(cur => cur->Array_0[n - 1]));
        assert(json_wf(items[n - 1]));
        if let Some(JsonModel::Array(before)) = prev {
            if n - 1 < before.len() {
                assert(json_wf(before[n - 1]));
            }
        }
        assert(inside_any(prev, s) == old);
        lemma_removed(last, old, deeper(indent), None, l);
        let a = item_lines(first, items_of(prev), true, deeper(indent));
        let b = doc_lines(last, old, true, deeper(indent), None);
        lemma_contains_join(a, b, l);
        if b.contains(l) {
            let rest = choose|rest: Seq<Step>| tells(l, last, old, rest, deeper(indent), None);
            lemma_tells_outward(l, s, last, cur, prev, rest, indent, label);
            assert(tells(l, cur, prev, seq![Step::At((n - 1) as nat)] + rest, indent, label));
        }
        if exists|k: int, rest: Seq<Step>|
            0 <= k < n && #[trigger] tells(
                l,
                cur,
                prev,
                seq![Step::At(k as nat)] + rest,
                indent,
                label,
            ) {
            let (k, rest) = choose|k: int, rest: Seq<Step>|
                0 <= k < n && #[trigger] tells(
                    l,
                    cur,
                    prev,
                    seq![Step::At(k as nat)] + rest,
                    indent,
                    label,
                );
            if k == n - 1 {
                lemma_tells_outward(l, s, last, cur, prev, rest, indent, label);
                assert(tells(l, last, old, rest, deeper(indent), None));
            }
        }
    }
}

proof fn lemma_gone_member_lines(
    cur: JsonModel,
    members: Seq<(Seq<char>, JsonModel)>,
    prev: Option<JsonModel>,
    old: Seq<(Seq<char>, JsonModel)>,
    n: nat,
    indent: u16,
    label: Option<Seq<char>>,
    l: LineModel,
)
    requires
        cur == JsonModel::Object(members),
        prev == Some(JsonModel::Object(old)),
        json_wf(cur),
        wf_if_any(prev),
        n <= old.len(),
        l.tag == DiffTag::Removed,
    ensures
        gone_members(Some(old.take(n as int)), members, deeper(indent)).contains(l)
            <==> exists|k: int|
            0 <= k < n && inside(cur, Step::Name(old[k].0)) is None && #[trigger] tells(
                l,
                cur,
                prev,
                seq![Step::Name(old[k].0)],
                indent,
                label,
            ),
    decreases n,
{
    if n > 0 {
        let first = old.take(n - 1);
        let last = old[n - 1];
        let s = Step::Name(last.0);
        let path = seq![s];
        let none = Seq::<Step>::empty();
        assert(old.take(n as int).drop_last() =~= first);
        assert(old.take(n as int)[n - 1] == last);
        lemma_gone_member_lines(cur, members, prev, old, (n - 1) as nat, indent, label, l);
        lemma_step_is_lookup(members, last.0);
        lemma_step_is_lookup(old, last.0);
        lemma_ascending_distinct(Seq::new(old.len(), |k: int| old[k].0));
        lemma_member_found(old, n - 1);
        assert(path =~= seq![s] + none);
        lemma_at_step(Some(cur), s, none);
        lemma_at_step(prev, s, none);
        assert(path.drop_last() =~= none);
        lemma_value_text(last.1);
        reveal_strlit(": ");
        assert(last.0 + ": "@ =~= label_at(path, label));
        let before = gone_members(Some(first), members, deeper(indent));
        if member(members, last.0) is None {
            let gone = line(deeper(indent), last.0 + ": "@ + shown(last.1), DiffTag::Removed);
            assert(vanished(cur, prev, path));
            lemma_contains_join(before, seq![gone], l);
            assert(before.push(gone) =~= before + seq![gone]);
            assert(seq![gone].contains(l) <==> l == gone) by {
                if l == gone {
                    assert(seq![gone][0] == l);
                }
            }
            assert(l == gone <==> tells(l, cur, prev, path, indent, label));
        }
    }
}

proof fn lemma_gone_item_lines(
    cur: JsonModel,
    items: Seq<JsonModel>,
    prev: Option<JsonModel>,
    old: Seq<JsonModel>,
    n: nat,
    indent: u16,
    label: Option<Seq<char>>,
    l: LineModel,
)
    requires
        cur == JsonModel::Array(items),
        prev == Some(JsonModel::Array(old)),
        n <= old.len(),
        l.tag == DiffTag::Removed,
    ensures
        gone_items(Some(old.take(n as int)), items.len(), deeper(indent)).contains(l)
            <==> exists|k: nat|
            items.len() <= k < n && #[trigger] tells(
                l,
                cur,
                prev,
                seq![Step::At(k)],
                indent,
                label,
            ),
    decreases n,
{
    if n > items.len() {
        let first = old.take(n - 1);
        let last = old[n - 1];
        let s = Step::At((n - 1) as nat);
        let path = seq![s];
        let none = Seq::<Step>::empty();
        assert(old.take(n as int).drop_last() =~= first);
        assert(old.take(n as int)[n - 1] == last);
        lemma_gone_item_lines(cur, items, prev, old, (n - 1) as nat, indent, label, l);
        assert(path =~= seq![s] + none);
        lemma_at_step(Some(cur), s, none);
        lemma_at_step(prev, s, none);
        assert(path.drop_last() =~= none);
        lemma_value_text(last);
        let before = gone_items(Some(first), items.len(), deeper(indent));
        let gone = line(deeper(indent), shown(last), DiffTag::Removed);
        assert(vanished(cur, prev, path));
        assert(label_at(path, label) + value_text(last) =~= value_text(last));
        lemma_contains_join(before, seq![gone], l);
        assert(before.push(gone) =~= before + seq![gone]);
        assert(seq![gone].contains(l) <==> l == gone) by {
            if l == gone {
                assert(seq![gone][0] == l);
            }
        }
        assert(l == gone <==> tells(l, cur, prev, path, indent, label));
    }
}

/// The lines of what is gone tell exactly of the members and elements that a container
/// has no more and of what gave way to a container, each by its name and what it was.
pub proof fn law_what_is_gone_is_told(cur: JsonModel, prev: JsonModel, l: LineModel)
    requires
        json_wf(cur),
        json_wf(prev),
        l.tag == DiffTag::Removed,
    ensures
        doc_lines(cur, Some(prev), true, 0, None).contains(l) <==> exists|path: Seq<Step>|
            tells(l, cur, Some(prev), path, 0, None),
{
    lemma_removed(cur, Some(prev), 0, None, l);
}

} // verus!
