//! Latin keys behind a Korean input method.

use zenmon::hangul::latin_key;

/// The Hangul Compatibility Jamo block, which is what an IME emits for a
/// single keypress.
const JAMO: std::ops::RangeInclusive<char> = '\u{3131}'..='\u{3163}';

#[test]
fn the_navigation_keys_survive_a_forgotten_ime() {
    // The ones that make the app feel dead when they stop working.
    assert_eq!(latin_key('ㅓ', false), Some('j'));
    assert_eq!(latin_key('ㅏ', false), Some('k'));
    assert_eq!(latin_key('ㅗ', false), Some('h'));
    assert_eq!(latin_key('ㅣ', false), Some('l'));
    assert_eq!(latin_key('ㅂ', false), Some('q'));
}

#[test]
fn case_comes_from_the_modifier_because_the_layout_cannot_supply_it() {
    // Shift+c is still ㅊ in dubeolsik — only ㅂㅈㄷㄱㅅ and ㅐㅔ change.
    assert_eq!(latin_key('ㅊ', false), Some('c'));
    assert_eq!(latin_key('ㅊ', true), Some('C'));
    assert_eq!(latin_key('ㅇ', true), Some('D'));
    assert_eq!(latin_key('ㅣ', true), Some('L'));
}

#[test]
fn shift_only_jamo_report_uppercase_even_without_the_modifier() {
    // `ㅃ` cannot be typed without Shift, and not every terminal reports
    // the modifier beside a character that already implies it. `q` quits
    // and `Q` queries, so this is not a distinction to leave to chance.
    assert_eq!(latin_key('ㅃ', false), Some('Q'));
    assert_eq!(latin_key('ㅃ', true), Some('Q'));
    assert_eq!(latin_key('ㅂ', false), Some('q'));
}

#[test]
fn every_command_letter_this_app_binds_is_reachable() {
    // If no (jamo, shift) pair produces a binding, a Korean-IME user
    // simply cannot press it.
    for want in "qdhjklzsfnmpyECDLPQY".chars() {
        let reachable = JAMO
            .clone()
            .any(|c| latin_key(c, false) == Some(want) || latin_key(c, true) == Some(want));
        assert!(reachable, "no jamo reaches `{want}`");
    }
}

#[test]
fn no_two_jamo_claim_the_same_unshifted_key() {
    // A duplicate would mean one of them shadows a command silently.
    let mut seen = std::collections::HashMap::new();
    for c in JAMO.clone() {
        if let Some(k) = latin_key(c, false) {
            if let Some(prev) = seen.insert(k, c) {
                panic!("`{k}` is claimed by both {prev} and {c}");
            }
        }
    }
}

#[test]
fn non_jamo_is_left_alone() {
    // Latin, digits, punctuation and composed syllables all pass through:
    // the caller reads `None` as "this was not an IME artefact".
    for c in ['j', 'Q', '1', '/', ':', ' ', '한', '글'] {
        assert_eq!(latin_key(c, false), None, "{c} should not map");
        assert_eq!(latin_key(c, true), None, "{c} should not map");
    }
}
