//! When documents are equal, and how they are written.
use vstd::prelude::*;

use crate::json::{compact, compact_items, compact_members, json_eq, JsonModel, NumberModel};

verus! {

/// Whether a document holds no floating-point number.
pub open spec fn floatless(v: JsonModel) -> bool
    decreases v,
{
    match v {
        JsonModel::Number(n) => !(n is Float),
        JsonModel::Array(items) => forall|i: int|
            0 <= i < items.len() ==> floatless(#[trigger] items[i]),
        JsonModel::Object(members) => forall|i: int|
            0 <= i < members.len() ==> floatless((#[trigger] members[i]).1),
        _ => true,
    }
}

/// Documents without floating-point numbers are equal exactly when they are the same.
pub proof fn law_equal_documents_are_the_same(a: JsonModel, b: JsonModel)
    requires
        floatless(a),
    ensures
        json_eq(a, b) <==> a == b,
    decreases a,
{
    match a {
        JsonModel::Array(x) => {
            if let JsonModel::Array(y) = b {
                assert forall|i: int| 0 <= i < x.len() && i < y.len() implies (json_eq(
                    #[trigger] x[i],
                    y[i],
                ) <==> x[i] == y[i]) by {
                    law_equal_documents_are_the_same(x[i], y[i]);
                }
                if json_eq(a, b) {
                    assert forall|i: int| 0 <= i < x.len() implies x[i] == y[i] by {
                        assert(json_eq(x[i], y[i]));
                    }
                    assert(x =~= y);
                }
            }
        },
        JsonModel::Object(x) => {
            if let JsonModel::Object(y) = b {
                assert forall|i: int| 0 <= i < x.len() && i < y.len() implies (json_eq(
                    (#[trigger] x[i]).1,
                    y[i].1,
                ) <==> x[i].1 == y[i].1) by {
                    law_equal_documents_are_the_same(x[i].1, y[i].1);
                }
                if json_eq(a, b) {
                    assert forall|i: int| 0 <= i < x.len() implies x[i] == y[i] by {
                        assert(x[i].0 == y[i].0 && json_eq(x[i].1, y[i].1));
                    }
                    assert(x =~= y);
                }
            }
        },
        _ => {},
    }
}

/// Whether two numbers are one value: of the same kind, and floating-point ones with the
/// same bits or both a zero.
pub proof fn law_zeros_are_one_number(x: u64, y: u64, a: Seq<char>, b: Seq<char>)
    ensures
        ({
            let p = JsonModel::Number(NumberModel::Float { bits: x, text: a });
            let q = JsonModel::Number(NumberModel::Float { bits: y, text: b });
            json_eq(p, q) <==> x == y || (x == 0 || x == 0x8000_0000_0000_0000) && (y == 0 || y
                == 0x8000_0000_0000_0000)
        }),
{
}

/// Elements are written in order with commas between them, in brackets, and members with
/// their names in front, in braces.
pub proof fn law_containers_are_written_part_by_part(
    items: Seq<JsonModel>,
    v: JsonModel,
    members: Seq<(Seq<char>, JsonModel)>,
    name: Seq<char>,
)
    ensures
        compact(JsonModel::Array(Seq::empty())) == seq!['[', ']'],
        compact(JsonModel::Object(Seq::empty())) == seq!['{', '}'],
        compact(JsonModel::Array(seq![v])) == seq!['['] + compact(v) + seq![']'],
        items.len() > 0 ==> compact(JsonModel::Array(items.push(v))) == compact(
            JsonModel::Array(items),
        ).drop_last() + seq![','] + compact(v) + seq![']'],
        compact(JsonModel::Object(seq![(name, v)])) == seq!['{'] + crate::json::json_quoted(name)
            + seq![':'] + compact(v) + seq!['}'],
        members.len() > 0 ==> compact(JsonModel::Object(members.push((name, v)))) == compact(
            JsonModel::Object(members),
        ).drop_last() + seq![','] + crate::json::json_quoted(name) + seq![':'] + compact(v)
            + seq!['}'],
{
    assert(compact(JsonModel::Array(Seq::empty())) =~= seq!['[', ']']);
    assert(compact(JsonModel::Object(Seq::empty())) =~= seq!['{', '}']);
    let one = seq![v];
    assert(one.drop_last() =~= Seq::<JsonModel>::empty());
    assert(one.last() == v);
    assert(compact_items(one) =~= compact(v));
    assert(compact(JsonModel::Array(one)) =~= seq!['['] + compact(v) + seq![']']);
    let more = items.push(v);
    assert(more.drop_last() =~= items);
    assert(more.last() == v);
    if items.len() > 0 {
        assert(compact(JsonModel::Array(more)) =~= compact(JsonModel::Array(items)).drop_last()
            + seq![','] + compact(v) + seq![']']);
    }
    let single = seq![(name, v)];
    assert(single.drop_last() =~= Seq::<(Seq<char>, JsonModel)>::empty());
    assert(single[0] == (name, v));
    assert(compact_members(single) =~= crate::json::json_quoted(name) + seq![':'] + compact(v));
    assert(compact(JsonModel::Object(single)) =~= seq!['{'] + crate::json::json_quoted(name)
        + seq![':'] + compact(v) + seq!['}']);
    let further = members.push((name, v));
    assert(further.drop_last() =~= members);
    assert(further[members.len() as int] == (name, v));
    if members.len() > 0 {
        assert(compact(JsonModel::Object(further)) =~= compact(
            JsonModel::Object(members),
        ).drop_last() + seq![','] + crate::json::json_quoted(name) + seq![':'] + compact(v)
            + seq!['}']);
    }
}

/// The value of a hexadecimal digit.
pub open spec fn hex_value(c: char) -> int {
    if '0' <= c <= '9' {
        c as int - '0' as int
    } else {
        c as int - 'a' as int + 10
    }
}

/// A text is written in quotes, character by character. A character stands for itself,
/// but for quotes, backslashes and control characters: those have a backslash in front of
/// them, of a letter, or of their number.
pub proof fn law_texts_are_written_by_the_character(s: Seq<char>, c: char)
    ensures
        compact(JsonModel::Text(Seq::empty())) == seq!['"', '"'],
        ({
            let before = compact(JsonModel::Text(s)).drop_last();
            let after = compact(JsonModel::Text(s.push(c)));
            let low = c as u32;
            &&& low >= 0x20 && c != '"' && c != '\\' ==> after == before.push(c).push('"')
            &&& c == '"' || c == '\\' ==> after == before.push('\\').push(c).push('"')
            &&& c == '\n' ==> after == before.push('\\').push('n').push('"')
            &&& c == '\t' ==> after == before.push('\\').push('t').push('"')
            &&& c == '\r' ==> after == before.push('\\').push('r').push('"')
            &&& low == 8 ==> after == before.push('\\').push('b').push('"')
            &&& low == 12 ==> after == before.push('\\').push('f').push('"')
            &&& low < 0x20 && low != 8 && low != 12 && c != '\n' && c != '\t' && c != '\r' ==> {
                let n = after.len();
                &&& n == before.len() + 7
                &&& after.take(before.len() as int) == before
                &&& after.subrange(before.len() as int, before.len() as int + 4) == seq![
                    '\\',
                    'u',
                    '0',
                    '0',
                ]
                &&& 16 * hex_value(after[n - 3]) + hex_value(after[n - 2]) == low
                &&& after.last() == '"'
            }
        }),
{
    let more = s.push(c);
    assert(more.drop_last() =~= s);
    let before = compact(JsonModel::Text(s)).drop_last();
    let after = compact(JsonModel::Text(more));
    assert(compact(JsonModel::Text(Seq::empty())) =~= seq!['"', '"']);
    assert(before =~= seq!['"'] + crate::json::json_chars(s));
    let e = crate::json::json_char(c);
    assert(after =~= before + e + seq!['"']);
    let low = c as u32;
    if low >= 0x20 && c != '"' && c != '\\' {
        assert(after =~= before.push(c).push('"'));
    } else if e.len() == 2 {
        assert(after =~= before.push('\\').push(e[1]).push('"'));
    } else {
        reveal_strlit("0123456789abcdef");
        assert(after.take(before.len() as int) =~= before);
        assert(after.subrange(before.len() as int, before.len() as int + 4) =~= seq![
            '\\',
            'u',
            '0',
            '0',
        ]);
    }
}

/// What has no parts is written as its word or its digits.
pub proof fn law_single_values_are_written_as_they_are(n: u64, i: i64)
    ensures
        compact(JsonModel::Null) == "null"@,
        compact(JsonModel::Bool(true)) == "true"@,
        compact(JsonModel::Bool(false)) == "false"@,
        compact(JsonModel::Number(NumberModel::PosInt(n))) == crate::text::decimal(n as nat),
        i < 0 ==> compact(JsonModel::Number(NumberModel::NegInt(i))) == seq!['-']
            + crate::text::decimal((-i) as nat),
{
}

} // verus!
