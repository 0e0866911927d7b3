//! What the text functions are, in terms of the texts alone.
use vstd::prelude::*;

use crate::text::{
    all_digits, decimal, digit, is_white_space, joined, non_empty, occurs, occurs_at, pieces,
    position_named, segments, spaced, spelled, stretches, text_lt, trimmed, trimmed_end,
    trimmed_start, words,
};

verus! {

/// Whether a text is a part of another: the other is that text, with something before
/// and something behind it.
pub open spec fn part_of(part: Seq<char>, whole: Seq<char>) -> bool {
    exists|before: Seq<char>, behind: Seq<char>|
        whole == #[trigger] (before + part + behind)
}

/// A text occurs in another exactly when it is a part of it.
pub proof fn law_a_text_occurs_where_it_is_a_part(part: Seq<char>, whole: Seq<char>)
    ensures
        occurs(whole, part) <==> part_of(part, whole),
{
    if occurs(whole, part) {
        let i = choose|i: int| occurs_at(whole, part, i);
        let before = whole.take(i);
        let behind = whole.skip(i + part.len());
        assert(whole =~= before + part + behind);
    }
    if part_of(part, whole) {
        let (before, behind) = choose|before: Seq<char>, behind: Seq<char>|
            whole == #[trigger] (before + part + behind);
        let i = before.len() as int;
        assert(whole.subrange(i, i + part.len()) =~= part);
        assert(occurs_at(whole, part, i));
    }
}

/// Whether two texts agree up to a position where the first has ended, or has the
/// lower character.
pub open spec fn first_differs_at(a: Seq<char>, b: Seq<char>, i: int) -> bool {
    &&& 0 <= i <= a.len()
    &&& i < b.len()
    &&& a.take(i) == b.take(i)
    &&& i == a.len() || (a[i] as int) < (b[i] as int)
}

/// Texts are in order by the first position at which they differ, and a text stands
/// behind those that it starts with.
pub proof fn law_texts_are_ordered_by_their_first_difference(a: Seq<char>, b: Seq<char>)
    ensures
        text_lt(a, b) <==> exists|i: int| first_differs_at(a, b, i),
    decreases a.len(),
{
    if a.len() == 0 {
        if b.len() > 0 {
            assert(a.take(0) =~= b.take(0));
            assert(first_differs_at(a, b, 0));
        }
    } else if b.len() > 0 {
        let x = a.drop_first();
        let y = b.drop_first();
        if a[0] != b[0] {
            if text_lt(a, b) {
                assert(a.take(0) =~= b.take(0));
                assert(first_differs_at(a, b, 0));
            }
            if exists|i: int| first_differs_at(a, b, i) {
                let i = choose|i: int| first_differs_at(a, b, i);
                if i > 0 {
                    assert(a.take(i)[0] == a[0]);
                    assert(b.take(i)[0] == b[0]);
                }
            }
        } else {
            law_texts_are_ordered_by_their_first_difference(x, y);
            if exists|i: int| first_differs_at(x, y, i) {
                let i = choose|i: int| first_differs_at(x, y, i);
                assert(a.take(i + 1) =~= seq![a[0]] + x.take(i));
                assert(b.take(i + 1) =~= seq![b[0]] + y.take(i));
                assert(first_differs_at(a, b, i + 1));
            }
            if exists|i: int| first_differs_at(a, b, i) {
                let i = choose|i: int| first_differs_at(a, b, i);
                assert(i > 0);
                assert(x.take(i - 1) =~= a.take(i).drop_first());
                assert(y.take(i - 1) =~= b.take(i).drop_first());
                assert(first_differs_at(x, y, i - 1));
            }
        }
    }
}

/// The number that a text of decimal digits stands for.
pub open spec fn number_of(s: Seq<char>) -> int
    decreases s.len(),
{
    if s.len() == 0 {
        0
    } else {
        10 * number_of(s.drop_last()) + (s.last() as int - '0' as int)
    }
}

/// A number is written in decimal digits that read back as the number, without a zero in
/// front of other digits.
pub proof fn law_a_number_is_read_back(n: nat)
    ensures
        number_of(decimal(n)) == n,
        decimal(n).len() > 0,
        forall|i: int| 0 <= i < decimal(n).len() ==> '0' <= #[trigger] decimal(n)[i] <= '9',
        decimal(n).len() > 1 ==> decimal(n)[0] != '0',
    decreases n,
{
    let d = digit(n);
    assert(d as int == '0' as int + n % 10);
    if n < 10 {
        assert(decimal(n).drop_last() =~= Seq::<char>::empty());
        reveal_with_fuel(number_of, 2);
    } else {
        law_a_number_is_read_back(n / 10);
        let s = decimal(n / 10);
        assert(decimal(n).drop_last() =~= s);
        assert(number_of(decimal(n)) == 10 * number_of(s) + n % 10);
        if n / 10 < 10 {
            assert(s[0] as int == '0' as int + (n / 10) % 10);
        } else {
            law_a_number_is_read_back(n / 10 / 10);
        }
        assert(decimal(n)[0] == s[0]);
    }
}

/// Trimming takes white space off both ends and nothing else.
pub proof fn law_trimming_takes_white_space_off_the_ends(s: Seq<char>)
    ensures
        exists|i: int, j: int|
            {
                &&& 0 <= i <= j <= s.len()
                &&& trimmed(s) == #[trigger] s.subrange(i, j)
                &&& forall|k: int| 0 <= k < i || j <= k < s.len() ==> is_white_space(#[trigger] s[k])
            },
        trimmed(s).len() > 0 ==> !is_white_space(trimmed(s)[0]) && !is_white_space(
            trimmed(s).last(),
        ),
{
    let i = lemma_trimmed_start(s);
    let t = trimmed_start(s);
    let j = lemma_trimmed_end(t);
    assert(trimmed(s) =~= s.subrange(i, i + j));
    assert forall|k: int| 0 <= k < i || i + j <= k < s.len() implies is_white_space(
        #[trigger] s[k],
    ) by {
        if k >= i + j {
            assert(t[k - i] == s[k]);
        }
    }
    if trimmed(s).len() > 0 {
        assert(trimmed(s)[0] == t[0]);
    }
}

proof fn lemma_trimmed_start(s: Seq<char>) -> (i: int)
    ensures
        0 <= i <= s.len(),
        trimmed_start(s) == s.skip(i),
        forall|k: int| 0 <= k < i ==> is_white_space(#[trigger] s[k]),
        trimmed_start(s).len() > 0 ==> !is_white_space(trimmed_start(s)[0]),
    decreases s.len(),
{
    if s.len() > 0 && is_white_space(s[0]) {
        let i = lemma_trimmed_start(s.drop_first());
        assert(s.drop_first().skip(i) =~= s.skip(i + 1));
        assert forall|k: int| 0 <= k < i + 1 implies is_white_space(#[trigger] s[k]) by {
            if k > 0 {
                assert(s.drop_first()[k - 1] == s[k]);
            }
        }
        i + 1
    } else {
        assert(s.skip(0) =~= s);
        0
    }
}

proof fn lemma_trimmed_end(s: Seq<char>) -> (j: int)
    ensures
        0 <= j <= s.len(),
        trimmed_end(s) == s.take(j),
        forall|k: int| j <= k < s.len() ==> is_white_space(#[trigger] s[k]),
        trimmed_end(s).len() > 0 ==> !is_white_space(trimmed_end(s).last()),
    decreases s.len(),
{
    if s.len() > 0 && is_white_space(s.last()) {
        let j = lemma_trimmed_end(s.drop_last());
        assert(s.drop_last().take(j) =~= s.take(j));
        assert forall|k: int| j <= k < s.len() implies is_white_space(#[trigger] s[k]) by {
            if k < s.len() - 1 {
                assert(s.drop_last()[k] == s[k]);
            }
        }
        j
    } else {
        assert(s.take(s.len() as int) =~= s);
        s.len() as int
    }
}

/// Texts joined by a separator.
pub open spec fn glued(v: Seq<Seq<char>>, sep: char) -> Seq<char>
    decreases v.len(),
{
    if v.len() == 0 {
        Seq::empty()
    } else if v.len() == 1 {
        v[0]
    } else {
        glued(v.drop_last(), sep) + seq![sep] + v.last()
    }
}

/// A text is its pieces with the separator between them, and no piece holds the
/// separator.
pub proof fn law_pieces_make_up_the_text(s: Seq<char>, sep: char)
    ensures
        pieces(s, sep).len() > 0,
        glued(pieces(s, sep), sep) == s,
        forall|i: int| 0 <= i < pieces(s, sep).len() ==> !(#[trigger] pieces(s, sep)[i]).contains(
            sep,
        ),
    decreases s.len(),
{
    let all = pieces(s, sep);
    if s.len() > 0 {
        let first = s.drop_last();
        let before = pieces(first, sep);
        law_pieces_make_up_the_text(first, sep);
        assert(s =~= first + seq![s.last()]);
        if s.last() == sep {
            assert(all.drop_last() =~= before);
            assert(glued(all, sep) =~= s);
            assert forall|i: int| 0 <= i < all.len() implies !(#[trigger] all[i]).contains(sep) by {
                if i < before.len() {
                    assert(all[i] == before[i]);
                }
            }
        } else {
            assert(all.drop_last() =~= before.drop_last());
            assert(all.last() == before.last().push(s.last()));
            if before.len() > 1 {
                assert(glued(before, sep) == glued(before.drop_last(), sep) + seq![sep]
                    + before.last());
            }
            assert(glued(all, sep) =~= s);
            assert forall|i: int| 0 <= i < all.len() implies !(#[trigger] all[i]).contains(sep) by {
                if i < before.len() - 1 {
                    assert(all[i] == before[i]);
                } else {
                    let p = before[before.len() - 1];
                    assert(!p.contains(sep));
                    if all[i].contains(sep) {
                        let k = all[i].index_of(sep);
                        if k < p.len() {
                            assert(p[k] == sep);
                        }
                    }
                }
            }
        }
    } else {
        assert(glued(all, sep) =~= s);
    }
}

/// The segments of a key are its pieces between slashes, without the empty ones.
pub proof fn law_segments_are_what_stands_between_slashes(key: Seq<char>)
    ensures
        segments(key) == pieces(key, '/').filter(|p: Seq<char>| p.len() > 0),
{
    lemma_non_empty(pieces(key, '/'));
}

proof fn lemma_non_empty(v: Seq<Seq<char>>)
    ensures
        non_empty(v) == v.filter(|p: Seq<char>| p.len() > 0),
    decreases v.len(),
{
    reveal(Seq::filter);
    if v.len() > 0 {
        lemma_non_empty(v.drop_last());
    }
}

/// Segments are joined with a slash between them.
pub proof fn law_segments_are_joined_by_slashes(segs: Seq<Seq<char>>)
    ensures
        joined(segs) == glued(segs, '/'),
    decreases segs.len(),
{
    if segs.len() > 1 {
        law_segments_are_joined_by_slashes(segs.drop_last());
        assert(joined(segs) =~= glued(segs, '/'));
    }
}

proof fn lemma_spelled(s: Seq<char>)
    requires
        forall|i: int| 0 <= i < s.len() ==> '0' <= #[trigger] s[i] <= '9',
    ensures
        spelled(s) == number_of(s),
    decreases s.len(),
{
    if s.len() > 0 {
        let first = s.drop_last();
        assert forall|i: int| 0 <= i < first.len() implies '0' <= #[trigger] first[i] <= '9' by {
            assert(first[i] == s[i]);
        }
        lemma_spelled(first);
        assert('0' <= s[s.len() - 1]);
    }
}

/// What digits spell is the number that they stand for.
pub(crate) proof fn lemma_digits_spell(s: Seq<char>)
    requires
        all_digits(s),
    ensures
        spelled(s) == number_of(s),
{
    assert forall|i: int| 0 <= i < s.len() implies '0' <= #[trigger] s[i] <= '9' by {
        assert(crate::text::is_digit(s[i]));
    }
    lemma_spelled(s);
}

/// A position is named by the decimal digits of its number, and by nothing else.
pub proof fn law_a_position_is_named_by_its_number(s: Seq<char>, n: nat)
    ensures
        position_named(decimal(n)) == Some(n),
        position_named(s) == Some(n) ==> number_of(s) == n && s.len() > 0 && (s.len() > 1 ==> s[0]
            != '0'),
{
    law_a_number_is_read_back(n);
    lemma_spelled(decimal(n));
    if all_digits(s) {
        lemma_digits_spell(s);
    }
    assert(all_digits(decimal(n)));
}

/// The words of a text, character by character: white space ends a word and is no part of
/// one; any other character goes on with the word before it, or begins one.
pub proof fn law_words_are_what_stands_between_white_space(s: Seq<char>, c: char)
    ensures
        words(Seq::empty()).len() == 0,
        is_white_space(c) ==> words(s.push(c)) == words(s),
        !is_white_space(c) && (s.len() == 0 || is_white_space(s.last())) ==> words(s.push(c))
            == words(s).push(seq![c]),
        !is_white_space(c) && s.len() > 0 && !is_white_space(s.last()) ==> words(s).len() > 0
            && words(s.push(c)) == words(s).drop_last().push(words(s).last().push(c)),
{
    let before = stretches(s);
    lemma_stretches(s);
    assert(s.push(c).drop_last() =~= s);
    let none = Seq::<char>::empty();
    assert(words(Seq::empty()) =~= Seq::<Seq<char>>::empty()) by {
        reveal_with_fuel(non_empty, 2);
        let v = seq![none];
        assert(stretches(Seq::empty()) == v);
        assert(v.last().len() == 0);
        assert(v.drop_last() =~= Seq::<Seq<char>>::empty());
    }
    assert(before =~= before.drop_last().push(before.last()));
    if is_white_space(c) {
        let v = before.push(none);
        assert(v.drop_last() =~= before);
    } else {
        let grown = before.last().push(c);
        let v = before.drop_last().push(grown);
        assert(stretches(s.push(c)) == v);
        assert(v.drop_last() =~= before.drop_last());
        assert(v.last() == grown);
        assert(words(s.push(c)) == non_empty(before.drop_last()).push(grown));
        if before.last().len() == 0 {
            assert(words(s) == non_empty(before.drop_last()));
            assert(grown =~= seq![c]);
        } else {
            assert(words(s) == non_empty(before.drop_last()).push(before.last()));
            assert(words(s).drop_last() =~= non_empty(before.drop_last()));
        }
    }
}

proof fn lemma_stretches(s: Seq<char>)
    ensures
        stretches(s).len() > 0,
        stretches(s).last().len() == 0 <==> s.len() == 0 || is_white_space(s.last()),
    decreases s.len(),
{
    if s.len() > 0 {
        lemma_stretches(s.drop_last());
    }
}

/// Words are joined by one space each.
pub proof fn law_words_are_joined_by_spaces(v: Seq<Seq<char>>, w: Seq<char>)
    ensures
        spaced(Seq::empty()) == Seq::<char>::empty(),
        spaced(seq![w]) == w,
        v.len() > 0 ==> spaced(v.push(w)) == spaced(v) + seq![' '] + w,
{
    if v.len() > 0 {
        assert(v.push(w).drop_last() =~= v);
        assert(spaced(v.push(w)) =~= spaced(v) + seq![' '] + w);
    }
}

} // verus!
