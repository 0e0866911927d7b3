//! Shared display formatting: timestamps and durations.
use vstd::prelude::*;

use crate::text::{
    all_digits, cat, cat4, chars_within, decimal, decimal_text, head_bytes_of, is_digit,
    lemma_head_bytes_fits, spelled, stripped_end, to_chars, unsigned_part,
};

verus! {

/// Position of the first occurrence of a character.
pub open spec fn first_of(s: Seq<char>, c: char) -> Option<int>
    decreases s.len(),
{
    if s.len() == 0 {
        None
    } else {
        match first_of(s.drop_last(), c) {
            Some(i) => Some(i),
            None => if s.last() == c {
                Some(s.len() - 1)
            } else {
                None
            },
        }
    }
}

pub(crate) proof fn lemma_first_of(s: Seq<char>, c: char)
    ensures
        match first_of(s, c) {
            Some(i) => 0 <= i < s.len() && s[i] == c && forall|k: int|
                0 <= k < i ==> #[trigger] s[k] != c,
            None => forall|k: int| 0 <= k < s.len() ==> #[trigger] s[k] != c,
        },
    decreases s.len(),
{
    if s.len() > 0 {
        lemma_first_of(s.drop_last(), c);
        assert forall|k: int| 0 <= k < s.len() - 1 implies #[trigger] s[k] == s.drop_last()[k] by {}
    }
}

proof fn lemma_first_of_unique(s: Seq<char>, c: char, i: int)
    requires
        0 <= i < s.len(),
        s[i] == c,
        forall|k: int| 0 <= k < i ==> #[trigger] s[k] != c,
    ensures
        first_of(s, c) == Some(i),
{
    lemma_first_of(s, c);
}

/// Position of the first occurrence of a character.
fn find_char(s: &Vec<char>, c: char) -> (r: Option<usize>)
    ensures
        match r {
            Some(i) => i < s.len() && first_of(s@, c) == Some(i as int),
            None => first_of(s@, c) is None,
        },
{
    let mut i: usize = 0;
    proof {
        lemma_first_of(s@, c);
    }
    while i < s.len()
        invariant
            i <= s.len(),
            forall|k: int| 0 <= k < i ==> #[trigger] s@[k] != c,
        decreases s.len() - i,
    {
        if s[i] == c {
            proof {
                lemma_first_of_unique(s@, c, i as int);
            }
            return Some(i);
        }
        i = i + 1;
    }
    proof {
        lemma_first_of(s@, c);
    }
    None
}

/// The time in a timestamp of the form `<time>/<id>`: sixty-four bits, whose upper
/// half counts seconds.
pub uninterp spec fn timestamp_time(raw: Seq<char>) -> Option<u64>;

/// `zenoh::time::Timestamp::from_str`, and the time of what it reads.
///
/// Claimed: whether it succeeds, and with which time, depends on the text alone; it
/// fails on a text without a slash; and where it succeeds, what stands before the
/// first slash spells the time in decimal. Which identifiers it takes behind the
/// slash is not stated.
#[verifier::external_body]
fn parse_timestamp(raw: &str) -> (r: Option<u64>)
    ensures
        r == timestamp_time(raw@),
        first_of(raw@, '/') is None ==> r is None,
        r matches Some(t) ==> first_of(raw@, '/') matches Some(i) && all_digits(
            unsigned_part(raw@.take(i)),
        ) && spelled(unsigned_part(raw@.take(i))) == t,
{
    match <zenoh::time::Timestamp as std::str::FromStr>::from_str(raw) {
        Ok(ts) => Some(ts.get_time().as_u64()),
        Err(_) => None,
    }
}

/// A time as `YYYY-MM-DDTHH:MM:SS.nnnnnnnnnZ`.
pub uninterp spec fn rfc3339_form(time: u64) -> Seq<char>;

/// Whether a text has the shape `dddd-dd-ddTdd:dd:dd.dddddddddZ`.
pub open spec fn date_shaped(s: Seq<char>) -> bool {
    &&& s.len() == 30
    &&& forall|i: int|
        #![trigger s[i]]
        0 <= i < 30 ==> if i == 4 || i == 7 {
            s[i] == '-'
        } else if i == 10 {
            s[i] == 'T'
        } else if i == 13 || i == 16 {
            s[i] == ':'
        } else if i == 19 {
            s[i] == '.'
        } else if i == 29 {
            s[i] == 'Z'
        } else {
            is_digit(s[i])
        }
}

/// `zenoh::time::NTP64::to_string_rfc3339_lossy`.
///
/// Claimed: the text depends on the time alone, and is a date and a time of day with
/// nine digits of fraction. The calendar arithmetic itself is not stated.
#[verifier::external_body]
fn rfc3339(time: u64) -> (s: String)
    ensures
        s@ == rfc3339_form(time),
        date_shaped(s@),
{
    zenoh::time::NTP64(time).to_string_rfc3339_lossy()
}

/// A text with every `T` made a space, and without a `Z` at its end.
pub open spec fn spaced_date(s: Seq<char>) -> Seq<char> {
    let cut = if s.len() > 0 && s.last() == 'Z' {
        s.drop_last()
    } else {
        s
    };
    cut.map_values(
        |c: char|
            if c == 'T' {
                ' '
            } else {
                c
            },
    )
}

/// At most `max` bytes behind the first dot, in whole characters.
pub open spec fn capped(s: Seq<char>, max: nat) -> Seq<char> {
    match first_of(s, '.') {
        Some(dot) => s.take(dot + 1) + head_bytes_of(s.skip(dot + 1), max),
        None => s,
    }
}

/// No zeros at the end behind the first dot, and no dot with nothing behind it.
pub open spec fn zeros_trimmed(s: Seq<char>) -> Seq<char> {
    match first_of(s, '.') {
        Some(dot) => {
            let kept = stripped_end(s.skip(dot + 1), |c: char| c == '0');
            if kept.len() == 0 {
                s.take(dot)
            } else {
                s.take(dot + 1) + kept
            }
        },
        None => s,
    }
}

/// How a timestamp is shown: readable where it can be read, verbatim where not.
pub open spec fn shown_timestamp(raw: Seq<char>) -> Seq<char> {
    if raw.len() == 0 {
        raw
    } else {
        match timestamp_time(raw) {
            Some(t) => readable(rfc3339_form(t)),
            None => raw,
        }
    }
}

/// A date and time, readable and with microseconds at most.
pub open spec fn readable(form: Seq<char>) -> Seq<char> {
    zeros_trimmed(capped(spaced_date(form), 6))
}

/// Text from the first `n` characters.
fn text_upto(chars: &Vec<char>, n: usize) -> (s: String)
    requires
        n <= chars.len(),
    ensures
        s@ == chars@.take(n as int),
{
    let mut s = String::new();
    let mut i: usize = 0;
    assert(s@ =~= chars@.take(0));
    while i < n
        invariant
            i <= n <= chars.len(),
            s@ == chars@.take(i as int),
        decreases n - i,
    {
        s.push(chars[i]);
        assert(s@ =~= chars@.take(i + 1));
        i = i + 1;
    }
    s
}

/// Cut the fraction of seconds in a `HH:MM:SS.ffffff` text to at most `max` digits. A
/// text with fewer, or with no fraction, is unchanged.
pub fn cap_fractional_digits(ts: String, max: usize) -> (r: String)
    ensures
        r@ == capped(ts@, max as nat),
{
    let chars = to_chars(ts.as_str());
    if let Some(dot) = find_char(&chars, '.') {
        let end: usize = chars_within(&chars, dot + 1, max);
        let r = text_upto(&chars, end);
        assert(r@ =~= capped(ts@, max as nat));
        return r;
    }
    ts
}

/// Drop the zeros at the end of the fraction, and the dot where nothing is left
/// behind it.
pub fn trim_fractional_zeros(ts: String) -> (r: String)
    ensures
        r@ == zeros_trimmed(ts@),
{
    let chars = to_chars(ts.as_str());
    match find_char(&chars, '.') {
        Some(dot) => {
            let ghost p = |c: char| c == '0';
            let ghost frac = ts@.skip(dot + 1);
            let mut end: usize = chars.len();
            assert(frac.take(frac.len() as int) =~= frac);
            while end > dot + 1 && chars[end - 1] == '0'
                invariant
                    dot + 1 <= end <= chars.len(),
                    chars@ == ts@,
                    frac == ts@.skip(dot + 1),
                    p == (|c: char| c == '0'),
                    stripped_end(frac, p) == stripped_end(frac.take(end - dot - 1), p),
                decreases end,
            {
                proof {
                    let part = frac.take(end - dot - 1);
                    assert(part.last() == chars@[end - 1]);
                    assert(part.drop_last() =~= frac.take(end - dot - 2));
                }
                end = end - 1;
            }
            proof {
                let part = frac.take(end - dot - 1);
                if end > dot + 1 {
                    assert(part.last() == chars@[end - 1]);
                }
                assert(stripped_end(part, p) == part);
                assert(stripped_end(frac, p) == part);
            }
            if end == dot + 1 {
                end = dot;
            } else {
                assert(ts@.take(end as int) =~= ts@.take(dot + 1) + frac.take(end - dot - 1));
            }
            text_upto(&chars, end)
        },
        None => ts,
    }
}

/// A date with a space between day and time, and no zone letter.
fn space_date(form: &str) -> (r: String)
    ensures
        r@ == spaced_date(form@),
{
    let chars = to_chars(form);
    let n: usize = if chars.len() > 0 && chars[chars.len() - 1] == 'Z' {
        chars.len() - 1
    } else {
        chars.len()
    };
    let mut s = String::new();
    let mut i: usize = 0;
    while i < n
        invariant
            i <= n <= chars.len(),
            s@.len() == i,
            forall|k: int|
                0 <= k < i ==> #[trigger] s@[k] == (if chars@[k] == 'T' {
                    ' '
                } else {
                    chars@[k]
                }),
        decreases n - i,
    {
        if chars[i] == 'T' {
            s.push(' ');
        } else {
            s.push(chars[i]);
        }
        i = i + 1;
    }
    assert(s@ =~= spaced_date(form@));
    s
}

/// Lay out a date and time for reading.
pub fn readable_date(form: &str) -> (r: String)
    ensures
        r@ == readable(form@),
{
    let spaced = space_date(form);
    // The width of the fraction is cut to microseconds, so that what is shown does
    // not depend on how precise the source is, and then loses its trailing zeros.
    trim_fractional_zeros(cap_fractional_digits(spaced, 6))
}

/// Render a timestamp as a readable `YYYY-MM-DD HH:MM:SS.ffffff`. What cannot be read
/// is passed through verbatim, so that a malformed timestamp is visible rather than
/// silently blank.
pub fn format_stream_timestamp(raw: &str) -> (r: String)
    ensures
        r@ == shown_timestamp(raw@),
        first_of(raw@, '/') is None ==> r@ == raw@,
{
    if raw.is_empty() {
        let r = raw.to_owned();
        return r;
    }
    match parse_timestamp(raw) {
        Some(time) => {
            let form = rfc3339(time);
            readable_date(form.as_str())
        },
        None => raw.to_owned(),
    }
}

/// Coarse "how long ago" of a quiet key: minutes, then hours.
pub open spec fn idle_words(secs: u64) -> Seq<char> {
    if secs < 3600 {
        decimal((secs / 60) as nat) + "m"@
    } else {
        decimal((secs / 3600) as nat) + "h"@ + decimal(((secs % 3600) / 60) as nat) + "m"@
    }
}

/// Coarse "how long ago" of a quiet key: minutes, then hours.
///
/// Deliberately blunt: the number answers "did this stop just now or hours ago", and
/// a second-accurate figure would invite reading precision into something that is
/// sampled once a second.
pub fn format_idle(secs: u64) -> (s: String)
    ensures
        s@ == idle_words(secs),
{
    if secs < 3600 {
        let m = decimal_text(secs / 60);
        cat(m.as_str(), "m")
    } else {
        let h = decimal_text(secs / 3600);
        let m = decimal_text((secs % 3600) / 60);
        let s = cat4(h.as_str(), "h", m.as_str(), "m");
        assert(s@ =~= idle_words(secs));
        s
    }
}

/// A capped text has at most `max` characters behind its first dot, and capping again
/// changes nothing.
pub proof fn law_capping_bounds_the_fraction(s: Seq<char>, max: nat)
    ensures
        first_of(capped(s, max), '.') matches Some(dot) ==> capped(s, max).len() <= dot + 1 + max,
        capped(capped(s, max), max) == capped(s, max),
        first_of(s, '.') is None ==> capped(s, max) == s,
{
    lemma_first_of(s, '.');
    match first_of(s, '.') {
        Some(dot) => {
            let c = capped(s, max);
            let kept = head_bytes_of(s.skip(dot + 1), max);
            lemma_head_bytes_fits(s.skip(dot + 1), max);
            assert(c[dot] == '.');
            assert forall|k: int| 0 <= k < dot implies #[trigger] c[k] != '.' by {
                assert(c[k] == s[k]);
            }
            lemma_first_of_unique(c, '.', dot);
            assert(c.skip(dot + 1) =~= kept);
            assert(c.take(dot + 1) =~= s.take(dot + 1));
        },
        None => {},
    }
}

/// A trimmed text does not end in a zero of its fraction, nor in its dot.
pub proof fn law_trimming_leaves_no_zero_behind_the_dot(s: Seq<char>)
    ensures
        first_of(zeros_trimmed(s), '.') matches Some(dot) ==> zeros_trimmed(s).len() > dot + 1
            && zeros_trimmed(s).last() != '0',
{
    lemma_first_of(s, '.');
    match first_of(s, '.') {
        Some(dot) => {
            let p = |c: char| c == '0';
            let kept = stripped_end(s.skip(dot + 1), p);
            lemma_stripped(s.skip(dot + 1), p);
            if kept.len() == 0 {
                let t = s.take(dot);
                lemma_first_of(t, '.');
                match first_of(t, '.') {
                    Some(i) => {
                        assert(s[i] == t[i]);
                    },
                    None => {},
                }
            } else {
                let t = s.take(dot + 1) + kept;
                assert(t[dot] == '.');
                assert forall|k: int| 0 <= k < dot implies #[trigger] t[k] != '.' by {
                    assert(t[k] == s[k]);
                }
                lemma_first_of_unique(t, '.', dot);
                assert(t.last() == kept.last());
            }
        },
        None => {},
    }
}

proof fn lemma_stripped(s: Seq<char>, p: spec_fn(char) -> bool)
    ensures
        stripped_end(s, p).len() > 0 ==> !p(stripped_end(s, p).last()),
        stripped_end(s, p).len() <= s.len(),
    decreases s.len(),
{
    if s.len() > 0 && p(s.last()) {
        lemma_stripped(s.drop_last(), p);
    }
}

} // verus!
