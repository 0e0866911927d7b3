//! What is plotted, in terms of the values in the documents.
use vstd::prelude::*;

use crate::history::EntryModel;
use crate::json::{json_wf, member, JsonModel, NumberModel};
use crate::plot::{
    escaped, lemma_member_pointer, law_a_name_survives_its_step, number_pointers, pointed,
    pointer_to, reached, series, walked,
};
use crate::text::{lemma_one_piece, lemma_pieces_joined, pieces};

verus! {

/// A step of a pointer is the name, character by character: a tilde is written `~0`, a
/// slash `~1`, and every other character stands for itself.
pub proof fn law_a_name_is_escaped_by_the_character(a: Seq<char>, b: Seq<char>, c: char)
    ensures
        escaped(a + b) == escaped(a) + escaped(b),
        escaped(seq!['~']) == seq!['~', '0'],
        escaped(seq!['/']) == seq!['~', '1'],
        c != '~' && c != '/' ==> escaped(seq![c]) == seq![c],
        escaped(Seq::empty()) == Seq::<char>::empty(),
    decreases a.len(),
{
    reveal_with_fuel(escaped, 2);
    assert(seq!['~'].skip(1) =~= Seq::<char>::empty());
    assert(seq!['/'].skip(1) =~= Seq::<char>::empty());
    assert(seq![c].skip(1) =~= Seq::<char>::empty());
    assert(escaped(seq!['~']) =~= seq!['~', '0']);
    assert(escaped(seq!['/']) =~= seq!['~', '1']);
    assert(c != '~' && c != '/' ==> escaped(seq![c]) =~= seq![c]);
    if a.len() == 0 {
        assert(a + b =~= b);
        assert(escaped(a) + escaped(b) =~= escaped(b));
    } else {
        law_a_name_is_escaped_by_the_character(a.skip(1), b, c);
        assert((a + b).skip(1) =~= a.skip(1) + b);
        assert((a + b)[0] == a[0]);
        assert(escaped(a + b) =~= escaped(a) + escaped(b));
    }
}

/// The fields that are offered are the numbers that names lead to through objects only,
/// each under the pointer that its names are written as. What stands in an array is not
/// offered, nor is anything but a number.
pub proof fn law_only_numbers_in_objects_are_offered(v: JsonModel, i: int) -> (names: Seq<
    Seq<char>,
>)
    requires
        json_wf(v),
        0 <= i < number_pointers(v, Seq::empty()).len(),
    ensures
        number_pointers(v, Seq::empty())[i] == pointer_to(names),
        reached(v, names) matches Some(found) && found is Number,
    decreases v,
{
    let none = Seq::<Seq<char>>::empty();
    match v {
        JsonModel::Object(members) => {
            let from = lemma_member_pointer(members, i);
            let child = members[from.0].1;
            assert(decreases_to!(v => v->Object_0[from.0].1));
            let rest = law_only_numbers_in_objects_are_offered(child, from.1);
            let names = seq![members[from.0].0] + rest;
            assert(names.drop_first() =~= rest);
            crate::keyed::lemma_ascending_distinct(
                Seq::new(members.len(), |k: int| members[k].0),
            );
            crate::json::lemma_member_found(members, from.0);
            names
        },
        _ => none,
    }
}

/// What a pointer to names leads to.
pub proof fn law_a_pointer_leads_where_its_names_do(v: JsonModel, names: Seq<Seq<char>>)
    requires
        reached(v, names) is Some,
    ensures
        pointed(v, pointer_to(names)) == reached(v, names),
{
    if names.len() > 0 {
        lemma_pointer_pieces(names);
        lemma_walked_reached(v, names);
    }
}

/// The steps of the pointer to names.
spec fn steps_of(names: Seq<Seq<char>>) -> Seq<Seq<char>> {
    Seq::new(names.len(), |i: int| escaped(names[i]))
}

proof fn lemma_pointer_pieces(names: Seq<Seq<char>>)
    requires
        names.len() > 0,
    ensures
        pieces(pointer_to(names), '/').drop_first() == steps_of(names),
        pointer_to(names).len() > 0,
        pointer_to(names)[0] == '/',
    decreases names.len(),
{
    let empty = Seq::<char>::empty();
    let name = escaped(names[0]);
    let rest = names.drop_first();
    law_a_name_survives_its_step(names[0]);
    lemma_one_piece(name);
    lemma_one_piece(empty);
    if rest.len() == 0 {
        assert(pointer_to(rest) =~= empty);
        assert(pointer_to(names) =~= empty + seq!['/'] + name);
        lemma_pieces_joined(empty, name);
        assert(pieces(pointer_to(names), '/').drop_first() =~= steps_of(names));
    } else {
        lemma_pointer_pieces(rest);
        let tail = pointer_to(rest).skip(1);
        assert(pointer_to(rest) =~= empty + seq!['/'] + tail);
        lemma_pieces_joined(empty, tail);
        assert(pieces(pointer_to(rest), '/').drop_first() =~= pieces(tail, '/'));
        assert(pointer_to(names) =~= (empty + seq!['/'] + name) + seq!['/'] + tail);
        lemma_pieces_joined(empty + seq!['/'] + name, tail);
        lemma_pieces_joined(empty, name);
        assert(pieces(pointer_to(names), '/').drop_first() =~= seq![name] + steps_of(rest));
        assert(steps_of(names) =~= seq![name] + steps_of(rest));
    }
}

proof fn lemma_walked_reached(v: JsonModel, names: Seq<Seq<char>>)
    requires
        reached(v, names) is Some,
    ensures
        walked(v, steps_of(names)) == reached(v, names),
    decreases names.len(),
{
    if names.len() > 0 {
        law_a_name_survives_its_step(names[0]);
        let child = member(v->Object_0, names[0])->0;
        lemma_walked_reached(child, names.drop_first());
        assert(steps_of(names).drop_first() =~= steps_of(names.drop_first()));
        assert(steps_of(names)[0] == escaped(names[0]));
    }
}

/// The number that a pointer leads to in an entry, if it does.
pub open spec fn number_in(e: EntryModel, pointer: Seq<char>) -> Option<NumberModel> {
    match pointed(e.view, pointer) {
        Some(JsonModel::Number(n)) => Some(n),
        _ => None,
    }
}

/// The series of a field are its numbers in the entries that have one, from the oldest
/// to the newest. Entries without one leave no gap.
pub proof fn law_the_series_are_the_numbers_from_old_to_new(
    entries: Seq<EntryModel>,
    pointer: Seq<char>,
)
    ensures
        ({
            let with = entries.reverse().filter(|e: EntryModel| number_in(e, pointer) is Some);
            series(entries, pointer) == with.map_values(
                |e: EntryModel| number_in(e, pointer)->0,
            )
        }),
    decreases entries.len(),
{
    reveal(Seq::filter);
    let p = |e: EntryModel| number_in(e, pointer) is Some;
    let f = |e: EntryModel| number_in(e, pointer)->0;
    if entries.len() > 0 {
        let older = entries.drop_first();
        law_the_series_are_the_numbers_from_old_to_new(older, pointer);
        assert(entries.reverse().drop_last() =~= older.reverse());
        assert(entries.reverse().last() == entries[0]);
        let with = older.reverse().filter(p);
        if number_in(entries[0], pointer) is Some {
            assert(with.push(entries[0]).map_values(f) =~= with.map_values(f).push(f(entries[0])));
        }
    } else {
        assert(entries.reverse() =~= Seq::<EntryModel>::empty());
        assert(series(entries, pointer) =~= entries.reverse().filter(p).map_values(f));
    }
}

} // verus!
