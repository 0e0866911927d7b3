//! Reading command keys typed with a Korean IME active.
//!
//! With the IME on, the terminal delivers the jamo the key produces, not the
//! key: `j` arrives as `ㅓ`, `q` as `ㅂ`. Every command in this app is a Latin
//! letter, so a forgotten IME makes the whole keyboard silently inert — no
//! error, no movement, nothing to suggest what is wrong.
//!
//! Mapping the jamo back to the key that produced it costs one lookup and
//! removes that failure entirely. The layout is 두벌식 (dubeolsik), which is
//! what essentially every Korean keyboard uses.
//!
//! This is for *commands only*. Text the user is typing — a filter, a payload,
//! a profile name — must stay exactly as entered, or Korean becomes
//! untypeable. The caller decides which context it is in.
use vstd::prelude::*;

verus! {

/// The key caps of the dubeolsik layout: the jamo under each lower-case letter.
pub open spec fn jamo_of(letter: char) -> Option<char> {
    match letter {
        'q' => Some('ㅂ'),
        'w' => Some('ㅈ'),
        'e' => Some('ㄷ'),
        'r' => Some('ㄱ'),
        't' => Some('ㅅ'),
        'y' => Some('ㅛ'),
        'u' => Some('ㅕ'),
        'i' => Some('ㅑ'),
        'o' => Some('ㅐ'),
        'p' => Some('ㅔ'),
        'a' => Some('ㅁ'),
        's' => Some('ㄴ'),
        'd' => Some('ㅇ'),
        'f' => Some('ㄹ'),
        'g' => Some('ㅎ'),
        'h' => Some('ㅗ'),
        'j' => Some('ㅓ'),
        'k' => Some('ㅏ'),
        'l' => Some('ㅣ'),
        'z' => Some('ㅋ'),
        'x' => Some('ㅌ'),
        'c' => Some('ㅊ'),
        'v' => Some('ㅍ'),
        'b' => Some('ㅠ'),
        'n' => Some('ㅜ'),
        'm' => Some('ㅡ'),
        _ => None,
    }
}

/// The seven key caps that change under Shift: the jamo of an upper-case letter.
pub open spec fn shifted_jamo_of(letter: char) -> Option<char> {
    match letter {
        'Q' => Some('ㅃ'),
        'W' => Some('ㅉ'),
        'E' => Some('ㄸ'),
        'R' => Some('ㄲ'),
        'T' => Some('ㅆ'),
        'O' => Some('ㅒ'),
        'P' => Some('ㅖ'),
        _ => None,
    }
}

pub open spec fn is_lower(c: char) -> bool {
    'a' as int <= c as int <= 'z' as int
}

pub open spec fn is_upper(c: char) -> bool {
    'A' as int <= c as int <= 'Z' as int
}

/// The upper-case form of a lower-case letter.
pub open spec fn raised(c: char) -> char {
    (c as int - 32) as char
}

/// Whether `key` is the Latin key that produced `c`: the letter whose cap bears
/// the jamo, raised by the modifier, or the shifted letter whose cap bears it.
pub open spec fn produces(key: char, c: char, shift: bool) -> bool {
    ||| shifted_jamo_of(key) == Some(c)
    ||| !shift && jamo_of(key) == Some(c)
    ||| shift && exists|low: char| #[trigger] jamo_of(low) == Some(c) && key == raised(low)
}

/// The upper-case letter of a jamo that only exists as Shift + key.
pub open spec fn shift_letter(c: char) -> Option<char> {
    match c {
        'ㅃ' => Some('Q'),
        'ㅉ' => Some('W'),
        'ㄸ' => Some('E'),
        'ㄲ' => Some('R'),
        'ㅆ' => Some('T'),
        'ㅒ' => Some('O'),
        'ㅖ' => Some('P'),
        _ => None,
    }
}

/// The letters of a jamo that an unshifted cap bears, of both cases.
pub open spec fn letters(c: char) -> Option<(char, char)> {
    match c {
        'ㅂ' => Some(('q', 'Q')),
        'ㅈ' => Some(('w', 'W')),
        'ㄷ' => Some(('e', 'E')),
        'ㄱ' => Some(('r', 'R')),
        'ㅅ' => Some(('t', 'T')),
        'ㅛ' => Some(('y', 'Y')),
        'ㅕ' => Some(('u', 'U')),
        'ㅑ' => Some(('i', 'I')),
        'ㅐ' => Some(('o', 'O')),
        'ㅔ' => Some(('p', 'P')),
        'ㅁ' => Some(('a', 'A')),
        'ㄴ' => Some(('s', 'S')),
        'ㅇ' => Some(('d', 'D')),
        'ㄹ' => Some(('f', 'F')),
        'ㅎ' => Some(('g', 'G')),
        'ㅗ' => Some(('h', 'H')),
        'ㅓ' => Some(('j', 'J')),
        'ㅏ' => Some(('k', 'K')),
        'ㅣ' => Some(('l', 'L')),
        'ㅋ' => Some(('z', 'Z')),
        'ㅌ' => Some(('x', 'X')),
        'ㅊ' => Some(('c', 'C')),
        'ㅍ' => Some(('v', 'V')),
        'ㅠ' => Some(('b', 'B')),
        'ㅜ' => Some(('n', 'N')),
        'ㅡ' => Some(('m', 'M')),
        _ => None,
    }
}

/// The key that produced `c`, if any did.
pub open spec fn latin(c: char, shift: bool) -> Option<char> {
    match shift_letter(c) {
        Some(upper) => Some(upper),
        None => match letters(c) {
            Some((lower, upper)) => Some(
                if shift {
                    upper
                } else {
                    lower
                },
            ),
            None => None,
        },
    }
}

/// The seven jamo that only exist as Shift + key.
fn shift_only(c: char) -> (r: Option<char>)
    ensures
        r == shift_letter(c),
{
    match c {
        'ㅃ' => Some('Q'),
        'ㅉ' => Some('W'),
        'ㄸ' => Some('E'),
        'ㄲ' => Some('R'),
        'ㅆ' => Some('T'),
        'ㅒ' => Some('O'),
        'ㅖ' => Some('P'),
        _ => None,
    }
}

/// The key whose unshifted cap bears the jamo, and its upper-case form.
fn base_key(c: char) -> (r: Option<(char, char)>)
    ensures
        r == letters(c),
{
    match c {
        // Consonants, top row.
        'ㅂ' => Some(('q', 'Q')),
        'ㅈ' => Some(('w', 'W')),
        'ㄷ' => Some(('e', 'E')),
        'ㄱ' => Some(('r', 'R')),
        'ㅅ' => Some(('t', 'T')),
        // Vowels, top row.
        'ㅛ' => Some(('y', 'Y')),
        'ㅕ' => Some(('u', 'U')),
        'ㅑ' => Some(('i', 'I')),
        'ㅐ' => Some(('o', 'O')),
        'ㅔ' => Some(('p', 'P')),
        // Consonants, home row.
        'ㅁ' => Some(('a', 'A')),
        'ㄴ' => Some(('s', 'S')),
        'ㅇ' => Some(('d', 'D')),
        'ㄹ' => Some(('f', 'F')),
        'ㅎ' => Some(('g', 'G')),
        // Vowels, home row.
        'ㅗ' => Some(('h', 'H')),
        'ㅓ' => Some(('j', 'J')),
        'ㅏ' => Some(('k', 'K')),
        'ㅣ' => Some(('l', 'L')),
        // Consonants, bottom row.
        'ㅋ' => Some(('z', 'Z')),
        'ㅌ' => Some(('x', 'X')),
        'ㅊ' => Some(('c', 'C')),
        'ㅍ' => Some(('v', 'V')),
        // Vowels, bottom row.
        'ㅠ' => Some(('b', 'B')),
        'ㅜ' => Some(('n', 'N')),
        'ㅡ' => Some(('m', 'M')),
        _ => None,
    }
}

/// The Latin key that produced `c` under dubeolsik, if `c` is a jamo.
///
/// `shift` decides case, because the layout cannot: only ㅂㅈㄷㄱㅅ and ㅐㅔ
/// change when shifted, so `c` and `C` both arrive as `ㅊ`. This app binds `q`
/// to quit and `Q` to query, so guessing here would be worse than not mapping
/// at all — the modifier is the only thing that can separate them.
///
/// The seven jamo that *are* shift-only (`ㅃㅉㄸㄲㅆㅒㅖ`) report uppercase
/// whatever `shift` says: they cannot be produced without it, and not every
/// terminal reports a modifier next to a character that already implies one.
pub fn latin_key(c: char, shift: bool) -> (r: Option<char>)
    ensures
        r == latin(c, shift),
{
    if let Some(upper) = shift_only(c) {
        return Some(upper);
    }
    match base_key(c) {
        Some((low, up)) => {
            if shift {
                Some(up)
            } else {
                Some(low)
            }
        },
        None => None,
    }
}

/// What is read is the key whose cap bears the jamo, and no other.
pub proof fn law_the_caps_are_read_back(key: char, c: char, shift: bool)
    ensures
        latin(c, shift) == Some(key) <==> produces(key, c, shift),
{
    if latin(c, shift) == Some(key) && shift && shift_letter(c) is None {
        assert(jamo_of((letters(c)->0).0) == Some(c));
    }
}

/// No two jamo claim the same unshifted key: a duplicate would mean that one of
/// them shadows a command silently.
pub proof fn law_no_two_jamo_claim_the_same_key(a: char, b: char)
    requires
        latin(a, false) is Some,
        latin(a, false) == latin(b, false),
    ensures
        a == b,
{
}

/// Every letter, of either case, can be typed with the IME on.
pub proof fn law_every_letter_is_reachable(letter: char) -> (c: char)
    requires
        is_lower(letter) || is_upper(letter),
    ensures
        latin(c, is_upper(letter)) == Some(letter),
{
    if is_lower(letter) {
        let c = jamo_of(letter)->0;
        law_the_caps_are_read_back(letter, c, false);
        c
    } else {
        let low = (letter as int + 32) as char;
        let c = match shifted_jamo_of(letter) {
            Some(c) => c,
            None => jamo_of(low)->0,
        };
        assert(raised(low) == letter);
        law_the_caps_are_read_back(letter, c, true);
        c
    }
}

/// The Hangul compatibility jamo that stand on key caps.
pub open spec fn is_jamo(c: char) -> bool {
    'ㄱ' as int <= c as int <= 'ㅣ' as int
}

/// Latin letters, digits, punctuation and composed syllables are left alone.
pub proof fn law_only_jamo_are_mapped(c: char, shift: bool)
    requires
        !is_jamo(c),
    ensures
        latin(c, shift) is None,
{
}

} // verus!
