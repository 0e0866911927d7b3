//! Parsed JSON documents as the payload views hold them.
use vstd::prelude::*;

use crate::text::{decimal, decimal_text, same};

verus! {

/// A JSON number.
///
/// Floating-point values are kept as the IEEE-754 bits of the double together
/// with its shortest decimal text; they are only ever compared and shown.
#[derive(Debug)]
pub enum Number {
    PosInt(u64),
    NegInt(i64),
    Float { bits: u64, text: String },
}

/// A JSON document. Object members stand in ascending order of key.
#[derive(Debug)]
pub enum Json {
    Null,
    Bool(bool),
    Number(Number),
    Text(String),
    Array(Vec<Json>),
    Object(Vec<(String, Json)>),
}

/// A JSON number, as a mathematical value.
pub enum NumberModel {
    PosInt(u64),
    NegInt(i64),
    Float { bits: u64, text: Seq<char> },
}

/// A JSON document, as a mathematical value.
pub enum JsonModel {
    Null,
    Bool(bool),
    Number(NumberModel),
    Text(Seq<char>),
    Array(Seq<JsonModel>),
    Object(Seq<(Seq<char>, JsonModel)>),
}

impl View for Number {
    type V = NumberModel;

    open spec fn view(&self) -> NumberModel {
        match self {
            Number::PosInt(n) => NumberModel::PosInt(*n),
            Number::NegInt(n) => NumberModel::NegInt(*n),
            Number::Float { bits, text } => NumberModel::Float { bits: *bits, text: text@ },
        }
    }
}

/// The models of array elements.
pub open spec fn item_models(items: Seq<Json>) -> Seq<JsonModel>
    decreases items,
{
    Seq::new(
        items.len(),
        |i: int|
            if 0 <= i < items.len() {
                items[i].model()
            } else {
                JsonModel::Null
            },
    )
}

/// The models of object members.
pub open spec fn member_models(members: Seq<(String, Json)>) -> Seq<(Seq<char>, JsonModel)>
    decreases members,
{
    Seq::new(
        members.len(),
        |i: int|
            if 0 <= i < members.len() {
                (members[i].0@, members[i].1.model())
            } else {
                (Seq::empty(), JsonModel::Null)
            },
    )
}

impl Json {
    pub open spec fn model(self) -> JsonModel
        decreases self,
    {
        match self {
            Json::Null => JsonModel::Null,
            Json::Bool(b) => JsonModel::Bool(b),
            Json::Number(n) => JsonModel::Number(n@),
            Json::Text(s) => JsonModel::Text(s@),
            Json::Array(items) => JsonModel::Array(item_models(items@)),
            Json::Object(members) => JsonModel::Object(member_models(members@)),
        }
    }
}

impl View for Json {
    type V = JsonModel;

    open spec fn view(&self) -> JsonModel {
        self.model()
    }
}

pub proof fn lemma_item_models(items: Seq<Json>)
    ensures
        item_models(items).len() == items.len(),
        forall|i: int| 0 <= i < items.len() ==> #[trigger] item_models(items)[i] == items[i]@,
{
    reveal_with_fuel(Json::model, 2);
}

pub proof fn lemma_member_models(members: Seq<(String, Json)>)
    ensures
        member_models(members).len() == members.len(),
        forall|i: int|
            0 <= i < members.len() ==> #[trigger] member_models(members)[i] == (
                members[i].0@,
                members[i].1@,
            ),
{
    reveal_with_fuel(Json::model, 2);
}

/// The bits of positive and negative zero, which compare equal.
pub open spec fn zero_bits(bits: u64) -> bool {
    bits == 0 || bits == 0x8000_0000_0000_0000
}

/// Whether two numbers are the same value of the same kind. `1` and `1.0` are
/// not.
pub open spec fn number_eq(a: NumberModel, b: NumberModel) -> bool {
    match (a, b) {
        (NumberModel::PosInt(x), NumberModel::PosInt(y)) => x == y,
        (NumberModel::NegInt(x), NumberModel::NegInt(y)) => x == y,
        (NumberModel::Float { bits: x, .. }, NumberModel::Float { bits: y, .. }) => x == y || (
        zero_bits(x) && zero_bits(y)),
        _ => false,
    }
}

/// Whether two documents are equal.
pub open spec fn json_eq(a: JsonModel, b: JsonModel) -> bool
    decreases a,
{
    match (a, b) {
        (JsonModel::Null, JsonModel::Null) => true,
        (JsonModel::Bool(x), JsonModel::Bool(y)) => x == y,
        (JsonModel::Number(x), JsonModel::Number(y)) => number_eq(x, y),
        (JsonModel::Text(x), JsonModel::Text(y)) => x == y,
        (JsonModel::Array(x), JsonModel::Array(y)) => x.len() == y.len() && forall|i: int|
            0 <= i < x.len() ==> json_eq(#[trigger] x[i], y[i]),
        (JsonModel::Object(x), JsonModel::Object(y)) => x.len() == y.len() && forall|i: int|
            0 <= i < x.len() ==> (#[trigger] x[i]).0 == y[i].0 && json_eq(x[i].1, y[i].1),
        _ => false,
    }
}

impl Number {
    /// Whether two numbers are the same value of the same kind.
    pub fn equals(&self, other: &Number) -> (r: bool)
        ensures
            r == number_eq(self@, other@),
    {
        match (self, other) {
            (Number::PosInt(x), Number::PosInt(y)) => *x == *y,
            (Number::NegInt(x), Number::NegInt(y)) => *x == *y,
            (Number::Float { bits: x, .. }, Number::Float { bits: y, .. }) => *x == *y || ((*x == 0
                || *x == 0x8000_0000_0000_0000) && (*y == 0 || *y == 0x8000_0000_0000_0000)),
            _ => false,
        }
    }

    /// The number as JSON writes it.
    pub fn text(&self) -> (s: String)
        ensures
            s@ == number_text(self@),
    {
        match self {
            Number::PosInt(n) => decimal_text(*n),
            Number::NegInt(n) => {
                if *n >= 0 {
                    decimal_text(*n as u64)
                } else {
                    let mut s = String::new();
                    s.push('-');
                    let magnitude: u64 = (-(*n as i128)) as u64;
                    s.append(decimal_text(magnitude).as_str());
                    assert(s@ =~= seq!['-'] + decimal((-(*n as int)) as nat));
                    s
                }
            },
            Number::Float { text, .. } => text.clone(),
        }
    }
}

/// The number as JSON writes it.
pub open spec fn number_text(n: NumberModel) -> Seq<char> {
    match n {
        NumberModel::PosInt(n) => decimal(n as nat),
        NumberModel::NegInt(n) => if n >= 0 {
            decimal(n as nat)
        } else {
            seq!['-'] + decimal((-n) as nat)
        },
        NumberModel::Float { text, .. } => text,
    }
}

impl Json {
    /// Whether two documents are equal.
    pub fn equals(&self, other: &Json) -> (r: bool)
        ensures
            r == json_eq(self@, other@),
        decreases self,
    {
        match (self, other) {
            (Json::Null, Json::Null) => true,
            (Json::Bool(x), Json::Bool(y)) => *x == *y,
            (Json::Number(x), Json::Number(y)) => x.equals(y),
            (Json::Text(x), Json::Text(y)) => same(x.as_str(), y.as_str()),
            (Json::Array(x), Json::Array(y)) => {
                proof {
                    lemma_item_models(x@);
                    lemma_item_models(y@);
                }
                if x.len() != y.len() {
                    return false;
                }
                let mut i: usize = 0;
                while i < x.len()
                    invariant
                        i <= x.len(),
                        x.len() == y.len(),
                        item_models(x@).len() == x@.len(),
                        item_models(y@).len() == y@.len(),
                        self == Json::Array(*x),
                        other == Json::Array(*y),
                        forall|k: int| 0 <= k < x@.len() ==> #[trigger] item_models(x@)[k] == x@[k]@,
                        forall|k: int| 0 <= k < y@.len() ==> #[trigger] item_models(y@)[k] == y@[k]@,
                        forall|k: int| 0 <= k < i ==> json_eq(#[trigger] item_models(x@)[k], item_models(y@)[k]),
                    decreases x.len() - i,
                {
                    assert(decreases_to!(self => self->Array_0@[i as int]));
                    if !x[i].equals(&y[i]) {
                        assert(!json_eq(item_models(x@)[i as int], item_models(y@)[i as int]));
                        return false;
                    }
                    i += 1;
                }
                true
            },
            (Json::Object(x), Json::Object(y)) => {
                proof {
                    lemma_member_models(x@);
                    lemma_member_models(y@);
                }
                if x.len() != y.len() {
                    return false;
                }
                let mut i: usize = 0;
                while i < x.len()
                    invariant
                        i <= x.len(),
                        x.len() == y.len(),
                        member_models(x@).len() == x@.len(),
                        member_models(y@).len() == y@.len(),
                        self == Json::Object(*x),
                        other == Json::Object(*y),
                        forall|k: int|
                            0 <= k < x@.len() ==> #[trigger] member_models(x@)[k] == (
                                x@[k].0@,
                                x@[k].1@,
                            ),
                        forall|k: int|
                            0 <= k < y@.len() ==> #[trigger] member_models(y@)[k] == (
                                y@[k].0@,
                                y@[k].1@,
                            ),
                        forall|k: int|
                            0 <= k < i ==> (#[trigger] member_models(x@)[k]).0 == member_models(y@)[k].0
                                && json_eq(member_models(x@)[k].1, member_models(y@)[k].1),
                    decreases x.len() - i,
                {
                    assert(decreases_to!(self => self->Object_0@[i as int].1));
                    if !same(x[i].0.as_str(), y[i].0.as_str()) || !x[i].1.equals(&y[i].1) {
                        assert(member_models(x@)[i as int] == (x@[i as int].0@, x@[i as int].1@));
                        assert(member_models(y@)[i as int] == (y@[i as int].0@, y@[i as int].1@));
                        return false;
                    }
                    i += 1;
                }
                true
            },
            _ => false,
        }
    }
}

/// Whether a document is a leaf or holds one: a value that is no container.
pub open spec fn holds_leaf(v: JsonModel) -> bool
    decreases v,
{
    match v {
        JsonModel::Array(items) => items_hold_leaf(items),
        JsonModel::Object(members) => members_hold_leaf(members),
        _ => true,
    }
}

pub open spec fn items_hold_leaf(items: Seq<JsonModel>) -> bool
    decreases items,
{
    items.len() > 0 && (holds_leaf(items.last()) || items_hold_leaf(items.drop_last()))
}

pub open spec fn members_hold_leaf(members: Seq<(Seq<char>, JsonModel)>) -> bool
    decreases members,
{
    members.len() > 0 && (holds_leaf(members[members.len() - 1].1) || members_hold_leaf(
        members.drop_last(),
    ))
}

impl Json {
    /// Whether the document is a value that is no container, or holds one.
    pub fn has_leaf(&self) -> (r: bool)
        ensures
            r == holds_leaf(self@),
        decreases self,
    {
        match self {
            Json::Array(items) => {
                let ghost all = item_models(items@);
                proof {
                    lemma_item_models(items@);
                    assert(all.take(all.len() as int) =~= all);
                }
                let mut n: usize = items.len();
                while n > 0
                    invariant
                        n <= items.len(),
                        self == Json::Array(*items),
                        self@ == JsonModel::Array(all),
                        all.len() == items@.len(),
                        forall|k: int| 0 <= k < items@.len() ==> #[trigger] all[k] == items@[k]@,
                        items_hold_leaf(all) == items_hold_leaf(all.take(n as int)),
                    decreases n,
                {
                    assert(decreases_to!(self => self->Array_0@[n - 1]));
                    assert(all.take(n as int).last() == items@[n - 1]@);
                    assert(all.take(n as int).drop_last() =~= all.take(n - 1));
                    if items[n - 1].has_leaf() {
                        return true;
                    }
                    n -= 1;
                }
                false
            },
            Json::Object(members) => {
                let ghost all = member_models(members@);
                proof {
                    lemma_member_models(members@);
                    assert(all.take(all.len() as int) =~= all);
                }
                let mut n: usize = members.len();
                while n > 0
                    invariant
                        n <= members.len(),
                        self == Json::Object(*members),
                        self@ == JsonModel::Object(all),
                        all.len() == members@.len(),
                        forall|k: int|
                            0 <= k < members@.len() ==> #[trigger] all[k] == (
                                members@[k].0@,
                                members@[k].1@,
                            ),
                        members_hold_leaf(all) == members_hold_leaf(all.take(n as int)),
                    decreases n,
                {
                    assert(decreases_to!(self => self->Object_0@[n - 1].1));
                    assert(all.take(n as int)[n - 1].1 == members@[n - 1].1@);
                    assert(all.take(n as int).drop_last() =~= all.take(n - 1));
                    if members[n - 1].1.has_leaf() {
                        return true;
                    }
                    n -= 1;
                }
                false
            },
            _ => true,
        }
    }
}

/// A hexadecimal digit, in lower case.
pub open spec fn hex_digit(d: int) -> char {
    "0123456789abcdef"@[d]
}

/// A character as it stands inside a JSON string: quotes, backslashes and control
/// characters are escaped, everything else stands for itself.
pub open spec fn json_char(c: char) -> Seq<char> {
    if c == '"' || c == '\\' {
        seq!['\\', c]
    } else if c == '\u{8}' {
        seq!['\\', 'b']
    } else if c == '\t' {
        seq!['\\', 't']
    } else if c == '\n' {
        seq!['\\', 'n']
    } else if c == '\u{c}' {
        seq!['\\', 'f']
    } else if c == '\r' {
        seq!['\\', 'r']
    } else if (c as u32) < 0x20 {
        seq!['\\', 'u', '0', '0', hex_digit(c as int / 16), hex_digit(c as int % 16)]
    } else {
        seq![c]
    }
}

/// The characters of a text as they stand inside a JSON string.
pub open spec fn json_chars(s: Seq<char>) -> Seq<char>
    decreases s.len(),
{
    if s.len() == 0 {
        Seq::empty()
    } else {
        json_chars(s.drop_last()) + json_char(s.last())
    }
}

/// The JSON form of a string: quoted and escaped.
pub open spec fn json_quoted(s: Seq<char>) -> Seq<char> {
    seq!['"'] + json_chars(s) + seq!['"']
}

/// `serde_json::Value::to_string` on a string value: quotes around the text, with
/// the short escapes for `"`, `\`, backspace, tab, line feed, form feed and carriage
/// return, and `\u00xx` for the other characters below the space.
#[verifier::external_body]
pub(crate) fn quoted(s: &str) -> (r: String)
    ensures
        r@ == json_quoted(s@),
{
    serde_json::Value::String(s.to_owned()).to_string()
}

/// The compact JSON text of a document.
pub open spec fn compact(v: JsonModel) -> Seq<char>
    decreases v,
{
    match v {
        JsonModel::Null => "null"@,
        JsonModel::Bool(b) => if b {
            "true"@
        } else {
            "false"@
        },
        JsonModel::Number(n) => number_text(n),
        JsonModel::Text(s) => json_quoted(s),
        JsonModel::Array(items) => seq!['['] + compact_items(items) + seq![']'],
        JsonModel::Object(members) => seq!['{'] + compact_members(members) + seq!['}'],
    }
}

/// Array elements in compact form, separated by commas.
pub open spec fn compact_items(items: Seq<JsonModel>) -> Seq<char>
    decreases items,
{
    if items.len() == 0 {
        Seq::empty()
    } else {
        let init = compact_items(items.drop_last());
        (if items.len() == 1 {
            init
        } else {
            init.push(',')
        }) + compact(items.last())
    }
}

/// Object members in compact form, separated by commas.
pub open spec fn compact_members(members: Seq<(Seq<char>, JsonModel)>) -> Seq<char>
    decreases members,
{
    if members.len() == 0 {
        Seq::empty()
    } else {
        let init = compact_members(members.drop_last());
        let last = members[members.len() - 1];
        (if members.len() == 1 {
            init
        } else {
            init.push(',')
        }) + json_quoted(last.0).push(':') + compact(last.1)
    }
}

impl Json {
    /// The compact JSON text of the document.
    pub fn compact_text(&self) -> (s: String)
        ensures
            s@ == compact(self@),
        decreases self,
    {
        match self {
            Json::Null => "null".to_owned(),
            Json::Bool(b) => if *b {
                "true".to_owned()
            } else {
                "false".to_owned()
            },
            Json::Number(n) => n.text(),
            Json::Text(s) => quoted(s.as_str()),
            Json::Array(items) => {
                let mut s = String::new();
                s.push('[');
                let ghost all = item_models(items@);
                proof {
                    lemma_item_models(items@);
                    assert(s@ =~= seq!['['] + compact_items(all.take(0)));
                }
                let mut i: usize = 0;
                while i < items.len()
                    invariant
                        i <= items.len(),
                        self == Json::Array(*items),
                        all == item_models(items@),
                        all.len() == items@.len(),
                        forall|k: int| 0 <= k < items@.len() ==> #[trigger] all[k] == items@[k]@,
                        s@ == seq!['['] + compact_items(all.take(i as int)),
                    decreases items.len() - i,
                {
                    assert(all.take(i as int + 1).drop_last() =~= all.take(i as int));
                    if i > 0 {
                        s.push(',');
                    }
                    assert(decreases_to!(self => self->Array_0@[i as int]));
                    let piece = items[i].compact_text();
                    s.append(piece.as_str());
                    i += 1;
                    assert(s@ =~= seq!['['] + compact_items(all.take(i as int)));
                }
                assert(all.take(i as int) =~= all);
                s.push(']');
                assert(s@ =~= compact(self@));
                s
            },
            Json::Object(members) => {
                let mut s = String::new();
                s.push('{');
                let ghost all = member_models(members@);
                proof {
                    lemma_member_models(members@);
                    assert(s@ =~= seq!['{'] + compact_members(all.take(0)));
                }
                let mut i: usize = 0;
                while i < members.len()
                    invariant
                        i <= members.len(),
                        self == Json::Object(*members),
                        all == member_models(members@),
                        all.len() == members@.len(),
                        forall|k: int|
                            0 <= k < members@.len() ==> #[trigger] all[k] == (
                                members@[k].0@,
                                members@[k].1@,
                            ),
                        s@ == seq!['{'] + compact_members(all.take(i as int)),
                    decreases members.len() - i,
                {
                    assert(all.take(i as int + 1).drop_last() =~= all.take(i as int));
                    if i > 0 {
                        s.push(',');
                    }
                    let name = quoted(members[i].0.as_str());
                    s.append(name.as_str());
                    s.push(':');
                    assert(decreases_to!(self => self->Object_0@[i as int].1));
                    let piece = members[i].1.compact_text();
                    s.append(piece.as_str());
                    i += 1;
                    assert(s@ =~= seq!['{'] + compact_members(all.take(i as int)));
                }
                assert(all.take(i as int) =~= all);
                s.push('}');
                assert(s@ =~= compact(self@));
                s
            },
        }
    }
}

impl Number {
    /// A copy of the number.
    pub fn duplicate(&self) -> (r: Number)
        ensures
            r@ == self@,
    {
        match self {
            Number::PosInt(n) => Number::PosInt(*n),
            Number::NegInt(n) => Number::NegInt(*n),
            Number::Float { bits, text } => Number::Float { bits: *bits, text: text.clone() },
        }
    }
}

impl Json {
    /// A copy of the document.
    pub fn duplicate(&self) -> (r: Json)
        ensures
            r@ == self@,
        decreases self,
    {
        match self {
            Json::Null => Json::Null,
            Json::Bool(b) => Json::Bool(*b),
            Json::Number(n) => Json::Number(n.duplicate()),
            Json::Text(s) => Json::Text(s.clone()),
            Json::Array(items) => {
                let mut out: Vec<Json> = Vec::new();
                let mut i: usize = 0;
                while i < items.len()
                    invariant
                        i <= items.len(),
                        self == Json::Array(*items),
                        out@.len() == i,
                        forall|k: int| 0 <= k < i ==> (#[trigger] out@[k])@ == items@[k]@,
                    decreases items.len() - i,
                {
                    assert(decreases_to!(self => self->Array_0@[i as int]));
                    out.push(items[i].duplicate());
                    i += 1;
                }
                proof {
                    lemma_item_models(items@);
                    lemma_item_models(out@);
                    assert(item_models(out@) =~= item_models(items@));
                }
                Json::Array(out)
            },
            Json::Object(members) => {
                let mut out: Vec<(String, Json)> = Vec::new();
                let mut i: usize = 0;
                while i < members.len()
                    invariant
                        i <= members.len(),
                        self == Json::Object(*members),
                        out@.len() == i,
                        forall|k: int|
                            0 <= k < i ==> (#[trigger] out@[k]).0@ == members@[k].0@ && out@[k].1@
                                == members@[k].1@,
                    decreases members.len() - i,
                {
                    assert(decreases_to!(self => self->Object_0@[i as int].1));
                    out.push((members[i].0.clone(), members[i].1.duplicate()));
                    i += 1;
                }
                proof {
                    lemma_member_models(members@);
                    lemma_member_models(out@);
                    assert(member_models(out@) =~= member_models(members@));
                }
                Json::Object(out)
            },
        }
    }
}

/// The value of the first member with the given key.
pub open spec fn member(members: Seq<(Seq<char>, JsonModel)>, key: Seq<char>) -> Option<JsonModel>
    decreases members.len(),
{
    if members.len() == 0 {
        None
    } else if members[0].0 == key {
        Some(members[0].1)
    } else {
        member(members.drop_first(), key)
    }
}

/// The value of the first member with the given key.
pub fn find_member<'a>(members: &'a Vec<(String, Json)>, key: &str) -> (r: Option<&'a Json>)
    ensures
        match r {
            Some(v) => member(member_models(members@), key@) == Some(v@),
            None => member(member_models(members@), key@) is None,
        },
{
    let ghost all = member_models(members@);
    proof {
        lemma_member_models(members@);
        assert(all.skip(0) =~= all);
    }
    let mut i: usize = 0;
    while i < members.len()
        invariant
            i <= members.len(),
            all == member_models(members@),
            all.len() == members@.len(),
            forall|k: int|
                0 <= k < members@.len() ==> #[trigger] all[k] == (members@[k].0@, members@[k].1@),
            member(all, key@) == member(all.skip(i as int), key@),
        decreases members.len() - i,
    {
        assert(all.skip(i as int)[0] == all[i as int]);
        if same(members[i].0.as_str(), key) {
            return Some(&members[i].1);
        }
        assert(all.skip(i as int).drop_first() =~= all.skip(i as int + 1));
        i += 1;
    }
    None
}

/// Every object in the document names each of its members once, in ascending
/// order.
pub open spec fn json_wf(v: JsonModel) -> bool
    decreases v,
{
    match v {
        JsonModel::Array(items) => forall|i: int|
            0 <= i < items.len() ==> json_wf(#[trigger] items[i]),
        JsonModel::Object(members) => {
            &&& crate::keyed::ascending(Seq::new(members.len(), |i: int| members[i].0))
            &&& forall|i: int| 0 <= i < members.len() ==> json_wf((#[trigger] members[i]).1)
        },
        _ => true,
    }
}

/// In an object whose members are named once each, a member is found under its
/// name.
pub proof fn lemma_member_found(members: Seq<(Seq<char>, JsonModel)>, i: int)
    requires
        0 <= i < members.len(),
        Seq::new(members.len(), |k: int| members[k].0).no_duplicates(),
    ensures
        member(members, members[i].0) == Some(members[i].1),
    decreases members.len(),
{
    let names = Seq::new(members.len(), |k: int| members[k].0);
    if i > 0 {
        assert(names[0] != names[i]);
        let rest = members.drop_first();
        let rest_names = Seq::new(rest.len(), |k: int| rest[k].0);
        assert forall|p: int, q: int| 0 <= p < rest.len() && 0 <= q < rest.len() && p != q implies
            rest_names[p] != rest_names[q] by {
            assert(names[p + 1] != names[q + 1]);
        }
        assert(rest[i - 1] == members[i]);
        lemma_member_found(rest, i - 1);
    }
}

impl Clone for Number {
    fn clone(&self) -> (r: Number)
        ensures
            r@ == self@,
    {
        self.duplicate()
    }
}

impl Clone for Json {
    fn clone(&self) -> (r: Json)
        ensures
            r@ == self@,
    {
        self.duplicate()
    }
}

} // verus!
