//! Text helpers: ordering, searching, splitting, trimming and number formatting.
use vstd::prelude::*;

verus! {

/// Strict lexicographic order on code points, which is the order `str` has.
pub open spec fn text_lt(a: Seq<char>, b: Seq<char>) -> bool
    decreases a.len(),
{
    if b.len() == 0 {
        false
    } else if a.len() == 0 {
        true
    } else if a[0] != b[0] {
        (a[0] as int) < (b[0] as int)
    } else {
        text_lt(a.drop_first(), b.drop_first())
    }
}

pub proof fn lemma_text_lt_irreflexive(a: Seq<char>)
    ensures
        !text_lt(a, a),
    decreases a.len(),
{
    if a.len() > 0 {
        lemma_text_lt_irreflexive(a.drop_first());
    }
}

pub proof fn lemma_text_lt_transitive(a: Seq<char>, b: Seq<char>, c: Seq<char>)
    requires
        text_lt(a, b),
        text_lt(b, c),
    ensures
        text_lt(a, c),
    decreases a.len(),
{
    if a.len() > 0 && b.len() > 0 && c.len() > 0 && a[0] == b[0] && b[0] == c[0] {
        lemma_text_lt_transitive(a.drop_first(), b.drop_first(), c.drop_first());
    }
}

pub proof fn lemma_text_lt_total(a: Seq<char>, b: Seq<char>)
    ensures
        text_lt(a, b) || a == b || text_lt(b, a),
    decreases a.len(),
{
    if a.len() == 0 || b.len() == 0 {
        if a.len() == b.len() {
            assert(a =~= b);
        }
    } else if a[0] == b[0] {
        lemma_text_lt_total(a.drop_first(), b.drop_first());
        if a.drop_first() == b.drop_first() {
            assert(a =~= seq![a[0]] + a.drop_first());
            assert(b =~= seq![b[0]] + b.drop_first());
            assert(a == b);
        }
    }
}

/// The characters of `s`, in order.
pub fn to_chars(s: &str) -> (v: Vec<char>)
    ensures
        v@ == s@,
{
    let mut v: Vec<char> = Vec::new();
    for c in it: s.chars()
        invariant
            it.seq() == s@,
            v@ == s@.take(it.index() as int),
    {
        v.push(c);
        assert(v@ =~= s@.take(it.index() as int + 1));
    }
    assert(s@.take(s@.len() as int) =~= s@);
    v
}

/// The code point of a character.
pub fn code(c: char) -> (n: u32)
    ensures
        n == c as int,
{
    c as u32
}

/// Whether `a` sorts strictly before `b`.
pub fn less(a: &str, b: &str) -> (r: bool)
    ensures
        r == text_lt(a@, b@),
{
    let mut x = a.chars();
    let mut y = b.chars();
    loop
        invariant
            text_lt(a@, b@) == text_lt(
                vstd::std_specs::iter::IteratorSpec::remaining(&x),
                vstd::std_specs::iter::IteratorSpec::remaining(&y),
            ),
            vstd::std_specs::iter::IteratorSpec::decrease(&x) is Some,
        decreases vstd::std_specs::iter::IteratorSpec::decrease(&x)->0,
    {
        match (x.next(), y.next()) {
            (_, None) => {
                return false;
            },
            (None, Some(_)) => {
                return true;
            },
            (Some(p), Some(q)) => {
                if p != q {
                    return code(p) < code(q);
                }
            },
        }
    }
}

/// Whether two texts hold the same characters.
pub fn same(a: &str, b: &str) -> (r: bool)
    ensures
        r == (a@ == b@),
{
    let mut x = a.chars();
    let mut y = b.chars();
    let ghost mut n: int = 0;
    loop
        invariant
            0 <= n <= a@.len(),
            n <= b@.len(),
            a@.take(n) == b@.take(n),
            vstd::std_specs::iter::IteratorSpec::remaining(&x) == a@.skip(n),
            vstd::std_specs::iter::IteratorSpec::remaining(&y) == b@.skip(n),
            vstd::std_specs::iter::IteratorSpec::decrease(&x) is Some,
        decreases vstd::std_specs::iter::IteratorSpec::decrease(&x)->0,
    {
        match (x.next(), y.next()) {
            (None, None) => {
                assert(a@.take(n) =~= a@);
                assert(b@.take(n) =~= b@);
                return true;
            },
            (Some(p), Some(q)) => {
                assert(p == a@[n] && q == b@[n]);
                if p != q {
                    return false;
                }
                proof {
                    assert(a@.take(n + 1) =~= a@.take(n).push(a@[n]));
                    assert(b@.take(n + 1) =~= b@.take(n).push(b@[n]));
                    assert(a@.skip(n).drop_first() =~= a@.skip(n + 1));
                    assert(b@.skip(n).drop_first() =~= b@.skip(n + 1));
                    n = n + 1;
                }
            },
            _ => {
                return false;
            },
        }
    }
}

/// `String::push` appends one character.
pub assume_specification[ String::push ](s: &mut String, c: char)
    ensures
        final(s)@ == old(s)@.push(c),
;

/// `String::pop` removes the last character and hands it out, or changes nothing
/// where there is none.
pub assume_specification[ String::pop ](s: &mut String) -> (r: Option<char>)
    ensures
        old(s)@.len() == 0 ==> r is None && final(s)@ == old(s)@,
        old(s)@.len() > 0 ==> r == Some(old(s)@.last()) && final(s)@ == old(s)@.drop_last(),
;

/// The views of a list of strings.
pub open spec fn texts(v: Seq<String>) -> Seq<Seq<char>> {
    Seq::new(v.len(), |i: int| v[i]@)
}

/// The concatenation of two texts.
pub fn cat(a: &str, b: &str) -> (s: String)
    ensures
        s@ == a@ + b@,
{
    let mut s = a.to_owned();
    s.append(b);
    s
}

/// The concatenation of three texts.
pub fn cat3(a: &str, b: &str, c: &str) -> (s: String)
    ensures
        s@ == a@ + b@ + c@,
{
    let mut s = a.to_owned();
    s.append(b);
    s.append(c);
    s
}

/// The concatenation of four texts.
pub fn cat4(a: &str, b: &str, c: &str, d: &str) -> (s: String)
    ensures
        s@ == a@ + b@ + c@ + d@,
{
    let mut s = a.to_owned();
    s.append(b);
    s.append(c);
    s.append(d);
    s
}

/// One decimal digit.
pub open spec fn digit(n: nat) -> char {
    ('0' as int + n % 10) as char
}

/// The decimal digits of `n`, without leading zeros.
pub open spec fn decimal(n: nat) -> Seq<char>
    decreases n,
{
    if n < 10 {
        seq![digit(n)]
    } else {
        decimal(n / 10).push(digit(n))
    }
}

fn digit_char(n: u64) -> (c: char)
    requires
        n < 10,
    ensures
        c == digit(n as nat),
{
    if n == 0 {
        '0'
    } else if n == 1 {
        '1'
    } else if n == 2 {
        '2'
    } else if n == 3 {
        '3'
    } else if n == 4 {
        '4'
    } else if n == 5 {
        '5'
    } else if n == 6 {
        '6'
    } else if n == 7 {
        '7'
    } else if n == 8 {
        '8'
    } else {
        '9'
    }
}

/// `n` in decimal.
pub fn decimal_text(n: u64) -> (s: String)
    ensures
        s@ == decimal(n as nat),
    decreases n,
{
    let c = digit_char(n % 10);
    if n < 10 {
        let mut s = String::new();
        s.push(c);
        assert(s@ =~= decimal(n as nat));
        s
    } else {
        let mut s = decimal_text(n / 10);
        s.push(c);
        s
    }
}

/// `n` in decimal, left-padded with zeros to `width` characters.
pub open spec fn zero_padded(n: nat, width: nat) -> Seq<char> {
    spread('0', (width - decimal(n).len()) as int) + decimal(n)
}

/// `n` in decimal, left-padded with zeros to `width` characters.
pub fn zero_pad(n: u64, width: usize) -> (s: String)
    ensures
        s@ == zero_padded(n as nat, width as nat),
{
    let digits = decimal_text(n);
    let len: usize = digits.as_str().unicode_len();
    let zeros = repeated('0', width.saturating_sub(len));
    let s = cat(zeros.as_str(), digits.as_str());
    assert(s@ =~= zero_padded(n as nat, width as nat));
    s
}

/// The lower case of an ASCII letter; any other character as it is.
pub open spec fn ascii_lower(c: char) -> char {
    if 'A' <= c && c <= 'Z' {
        (c as int + 32) as char
    } else {
        c
    }
}

/// A text with its ASCII letters in lower case.
pub open spec fn ascii_lowered(s: Seq<char>) -> Seq<char> {
    s.map_values(|c: char| ascii_lower(c))
}

/// A text with its ASCII letters in lower case.
pub fn ascii_lowercase(s: &str) -> (r: String)
    ensures
        r@ == ascii_lowered(s@),
{
    let mut r = String::new();
    for c in it: s.chars()
        invariant
            it.seq() == s@,
            r@ == ascii_lowered(s@.take(it.index() as int)),
    {
        let ghost before = r@;
        if 'A' <= c && c <= 'Z' {
            let n: u8 = c as u8;
            r.push((n + 32) as char);
        } else {
            r.push(c);
        }
        assert(s@.take(it.index() as int + 1) =~= s@.take(it.index() as int).push(c));
        assert(r@ =~= ascii_lowered(s@.take(it.index() as int + 1)));
    }
    assert(s@.take(s@.len() as int) =~= s@);
    r
}

/// Whether a character is a decimal digit.
pub open spec fn is_digit(c: char) -> bool {
    '0' <= c && c <= '9'
}

/// The number that decimal digits spell.
pub open spec fn spelled(s: Seq<char>) -> nat
    decreases s.len(),
{
    if s.len() == 0 {
        0
    } else {
        10 * spelled(s.drop_last()) + (s.last() as int - '0' as int) as nat
    }
}

/// Whether a text is a non-empty run of decimal digits.
pub open spec fn all_digits(s: Seq<char>) -> bool {
    s.len() > 0 && forall|i: int| 0 <= i < s.len() ==> is_digit(#[trigger] s[i])
}

/// The digits of a number written with an optional plus sign.
pub open spec fn unsigned_part(s: Seq<char>) -> Seq<char> {
    if s.len() > 0 && s[0] == '+' {
        s.skip(1)
    } else {
        s
    }
}

/// The number in a text that is written in decimal and fits sixteen bits.
pub open spec fn small_number(s: Seq<char>) -> Option<u16> {
    let d = unsigned_part(s);
    if all_digits(d) && spelled(d) <= u16::MAX {
        Some(spelled(d) as u16)
    } else {
        None
    }
}

proof fn lemma_spelled_grows(s: Seq<char>, n: int)
    requires
        0 <= n <= s.len(),
        forall|i: int| 0 <= i < s.len() ==> is_digit(#[trigger] s[i]),
    ensures
        spelled(s.take(n)) <= spelled(s),
    decreases s.len() - n,
{
    if n == s.len() {
        assert(s.take(n) =~= s);
    } else {
        lemma_spelled_grows(s, n + 1);
        assert(s.take(n + 1).drop_last() =~= s.take(n));
    }
}

/// Read a number that is written in decimal and fits sixteen bits.
pub fn parse_small(s: &str) -> (r: Option<u16>)
    ensures
        r == small_number(s@),
{
    let chars = to_chars(s);
    let start: usize = if chars.len() > 0 && chars[0] == '+' {
        1
    } else {
        0
    };
    let ghost d = unsigned_part(s@);
    assert(d =~= chars@.skip(start as int));
    if start >= chars.len() {
        return None;
    }
    let mut value: u32 = 0;
    let mut i: usize = start;
    assert(d.take(0) =~= Seq::empty());
    while i < chars.len()
        invariant
            start <= i <= chars.len(),
            start < chars.len(),
            d == chars@.skip(start as int),
            d == unsigned_part(s@),
            value == spelled(d.take(i - start)),
            value <= u16::MAX,
            forall|k: int| 0 <= k < i - start ==> is_digit(#[trigger] d[k]),
        decreases chars.len() - i,
    {
        let c = chars[i];
        assert(d[i - start] == c);
        if !('0' <= c && c <= '9') {
            return None;
        }
        proof {
            assert(d.take(i - start + 1).drop_last() =~= d.take(i - start));
            assert(d.take(i - start + 1).last() == c);
        }
        value = value * 10 + (code(c) - 48);
        if value > 65535 {
            proof {
                if all_digits(d) {
                    lemma_spelled_grows(d, i - start + 1);
                }
            }
            return None;
        }
        i = i + 1;
    }
    assert(d.take(d.len() as int) =~= d);
    Some(value as u16)
}

/// The position that a text names: written in decimal, without a leading zero.
pub open spec fn position_named(s: Seq<char>) -> Option<nat> {
    if all_digits(s) && (s.len() == 1 || s[0] != '0') {
        Some(spelled(s))
    } else {
        None
    }
}

/// Read a position below `len`.
pub fn parse_position(s: &str, len: usize) -> (r: Option<usize>)
    ensures
        match position_named(s@) {
            Some(n) => if n < len {
                r == Some(n as usize)
            } else {
                r is None
            },
            None => r is None,
        },
{
    let chars = to_chars(s);
    if chars.len() == 0 || (chars.len() > 1 && chars[0] == '0') {
        return None;
    }
    let mut value: u128 = 0;
    let mut i: usize = 0;
    assert(s@.take(0) =~= Seq::empty());
    while i < chars.len()
        invariant
            i <= chars.len(),
            chars.len() > 0,
            chars@ == s@,
            chars.len() == 1 || chars@[0] != '0',
            value == spelled(s@.take(i as int)),
            i == 0 ==> value == 0,
            i > 0 ==> value < len,
            forall|k: int| 0 <= k < i ==> is_digit(#[trigger] s@[k]),
        decreases chars.len() - i,
    {
        let c = chars[i];
        assert(s@[i as int] == c);
        if !('0' <= c && c <= '9') {
            return None;
        }
        proof {
            assert(s@.take(i as int + 1).drop_last() =~= s@.take(i as int));
            assert(s@.take(i as int + 1).last() == c);
        }
        value = value * 10 + (code(c) - 48) as u128;
        if value >= len as u128 {
            proof {
                if all_digits(s@) {
                    lemma_spelled_grows(s@, i as int + 1);
                }
            }
            return None;
        }
        i = i + 1;
    }
    assert(s@.take(s@.len() as int) =~= s@);
    Some(value as usize)
}

/// `count` copies of `c`; nothing for a negative count.
pub open spec fn spread(c: char, count: int) -> Seq<char> {
    Seq::new(
        if count > 0 {
            count as nat
        } else {
            0
        },
        |i: int| c,
    )
}

/// `count` copies of `c`.
pub fn repeated(c: char, count: usize) -> (s: String)
    ensures
        s@ == spread(c, count as int),
{
    let mut s = String::new();
    let mut i: usize = 0;
    while i < count
        invariant
            i <= count,
            s@ =~= spread(c, i as int),
        decreases count - i,
    {
        s.push(c);
        i += 1;
    }
    s
}

/// `s` followed by spaces up to `width` characters.
pub open spec fn left_aligned(s: Seq<char>, width: nat) -> Seq<char> {
    s + spread(' ', width - s.len())
}

/// `s` preceded by spaces up to `width` characters.
pub open spec fn right_aligned(s: Seq<char>, width: nat) -> Seq<char> {
    spread(' ', width - s.len()) + s
}

/// `s` padded on the right to `width` characters.
pub fn pad_right(s: &str, width: usize) -> (r: String)
    ensures
        r@ == left_aligned(s@, width as nat),
{
    let n: usize = s.unicode_len();
    let mut r = s.to_owned();
    if n < width {
        let pad = repeated(' ', width - n);
        r.append(pad.as_str());
    } else {
        assert(left_aligned(s@, width as nat) =~= s@);
    }
    r
}

/// `s` padded on the left to `width` characters.
pub fn pad_left(s: &str, width: usize) -> (r: String)
    ensures
        r@ == right_aligned(s@, width as nat),
{
    let n: usize = s.unicode_len();
    if n < width {
        let mut r = repeated(' ', width - n);
        r.append(s);
        r
    } else {
        assert(right_aligned(s@, width as nat) =~= s@);
        s.to_owned()
    }
}

/// Whether `needle` occurs in `hay` at position `i`.
pub open spec fn occurs_at(hay: Seq<char>, needle: Seq<char>, i: int) -> bool {
    0 <= i <= hay.len() - needle.len() && hay.subrange(i, i + needle.len()) == needle
}

/// Whether `needle` occurs somewhere in `hay`.
pub open spec fn occurs(hay: Seq<char>, needle: Seq<char>) -> bool {
    exists|i: int| occurs_at(hay, needle, i)
}

fn matches_at(hay: &Vec<char>, needle: &Vec<char>, i: usize) -> (r: bool)
    requires
        i + needle.len() <= hay.len(),
    ensures
        r == occurs_at(hay@, needle@, i as int),
{
    let mut j: usize = 0;
    while j < needle.len()
        invariant
            i + needle.len() <= hay.len(),
            j <= needle.len(),
            forall|k: int| 0 <= k < j ==> hay[i + k] == needle[k],
        decreases needle.len() - j,
    {
        if hay[i + j] != needle[j] {
            assert(hay@.subrange(i as int, i + needle.len())[j as int] != needle@[j as int]);
            return false;
        }
        j += 1;
    }
    assert(hay@.subrange(i as int, i + needle.len()) =~= needle@);
    true
}

/// Whether `needle` occurs somewhere in `hay`.
pub fn contains_text(hay: &str, needle: &str) -> (r: bool)
    ensures
        r == occurs(hay@, needle@),
{
    let h = to_chars(hay);
    let n = to_chars(needle);
    if n.len() > h.len() {
        return false;
    }
    let mut i: usize = 0;
    while i <= h.len() - n.len()
        invariant
            n.len() <= h.len(),
            h@ == hay@,
            n@ == needle@,
            i <= h.len() - n.len() + 1,
            forall|k: int| 0 <= k < i ==> !occurs_at(hay@, needle@, k),
        decreases h.len() - n.len() + 1 - i,
    {
        if matches_at(&h, &n, i) {
            return true;
        }
        if i == h.len() - n.len() {
            assert(forall|k: int| occurs_at(hay@, needle@, k) ==> k <= i);
            return false;
        }
        i += 1;
    }
    false
}

/// Names what `str::to_lowercase` returns: full Unicode lower-casing.
pub uninterp spec fn lowercased(s: Seq<char>) -> Seq<char>;

/// `str::to_lowercase`: a function of the text alone. Nothing is claimed of
/// which characters change, except that nothing comes of nothing.
#[verifier::external_body]
pub(crate) fn lowercase(s: &str) -> (r: String)
    ensures
        r@ == lowercased(s@),
        s@.len() == 0 ==> r@.len() == 0,
        s@.len() > 0 ==> r@.len() > 0,
{
    s.to_lowercase()
}

/// Characters with the Unicode `White_Space` property.
pub open spec fn is_white_space(c: char) -> bool {
    let n = c as int;
    ||| 9 <= n <= 13
    ||| n == 0x20
    ||| n == 0x85
    ||| n == 0xA0
    ||| n == 0x1680
    ||| 0x2000 <= n <= 0x200A
    ||| n == 0x2028
    ||| n == 0x2029
    ||| n == 0x202F
    ||| n == 0x205F
    ||| n == 0x3000
}

/// Whether `c` is white space.
pub fn white_space(c: char) -> (r: bool)
    ensures
        r == is_white_space(c),
{
    let n: u32 = c as u32;
    (9 <= n && n <= 13) || n == 0x20 || n == 0x85 || n == 0xA0 || n == 0x1680 || (0x2000 <= n && n
        <= 0x200A) || n == 0x2028 || n == 0x2029 || n == 0x202F || n == 0x205F || n == 0x3000
}

/// `s` without its leading white space.
pub open spec fn trimmed_start(s: Seq<char>) -> Seq<char>
    decreases s.len(),
{
    if s.len() > 0 && is_white_space(s[0]) {
        trimmed_start(s.drop_first())
    } else {
        s
    }
}

/// `s` without its trailing white space.
pub open spec fn trimmed_end(s: Seq<char>) -> Seq<char>
    decreases s.len(),
{
    if s.len() > 0 && is_white_space(s.last()) {
        trimmed_end(s.drop_last())
    } else {
        s
    }
}

/// `s` without white space at either end.
pub open spec fn trimmed(s: Seq<char>) -> Seq<char> {
    trimmed_end(trimmed_start(s))
}

/// `s` without white space at either end.
pub fn trim(s: &str) -> (r: String)
    ensures
        r@ == trimmed(s@),
{
    let v = to_chars(s);
    let mut i: usize = 0;
    assert(s@.skip(0) =~= s@);
    while i < v.len() && white_space(v[i])
        invariant
            v@ == s@,
            i <= v.len(),
            trimmed_start(s@) == trimmed_start(s@.skip(i as int)),
        decreases v.len() - i,
    {
        assert(s@.skip(i as int).drop_first() =~= s@.skip(i as int + 1));
        i += 1;
    }
    let mut j: usize = v.len();
    assert(s@.skip(i as int) =~= s@.subrange(i as int, j as int));
    while i < j && white_space(v[j - 1])
        invariant
            v@ == s@,
            i <= j <= v.len(),
            trimmed(s@) == trimmed_end(s@.subrange(i as int, j as int)),
        decreases j,
    {
        assert(s@.subrange(i as int, j as int).drop_last() =~= s@.subrange(i as int, j as int - 1));
        j -= 1;
    }
    s.substring_char(i, j).to_owned()
}

/// What `str::split` gives on one separator: the pieces between its
/// occurrences, empty ones included.
pub open spec fn pieces(s: Seq<char>, sep: char) -> Seq<Seq<char>>
    decreases s.len(),
{
    if s.len() == 0 {
        seq![Seq::<char>::empty()]
    } else {
        let before = pieces(s.drop_last(), sep);
        if s.last() == sep {
            before.push(Seq::<char>::empty())
        } else {
            before.drop_last().push(before.last().push(s.last()))
        }
    }
}

/// The texts of `v` that are not empty, in order.
pub open spec fn non_empty(v: Seq<Seq<char>>) -> Seq<Seq<char>>
    decreases v.len(),
{
    if v.len() == 0 {
        Seq::<Seq<char>>::empty()
    } else if v.last().len() == 0 {
        non_empty(v.drop_last())
    } else {
        non_empty(v.drop_last()).push(v.last())
    }
}

/// The non-empty `/`-separated segments of a key.
pub open spec fn segments(key: Seq<char>) -> Seq<Seq<char>> {
    non_empty(pieces(key, '/'))
}

pub proof fn lemma_pieces_non_empty(s: Seq<char>, sep: char)
    ensures
        pieces(s, sep).len() > 0,
    decreases s.len(),
{
    if s.len() > 0 {
        lemma_pieces_non_empty(s.drop_last(), sep);
    }
}

/// Texts with a separator between them split into the pieces of both.
pub proof fn lemma_pieces_joined(a: Seq<char>, b: Seq<char>)
    ensures
        pieces(a + seq!['/'] + b, '/') == pieces(a, '/') + pieces(b, '/'),
    decreases b.len(),
{
    lemma_pieces_non_empty(a, '/');
    lemma_pieces_non_empty(b, '/');
    let whole = a + seq!['/'] + b;
    if b.len() == 0 {
        assert(whole.drop_last() =~= a);
        assert(pieces(a, '/').push(Seq::empty()) =~= pieces(a, '/') + pieces(b, '/'));
    } else {
        assert(whole.drop_last() =~= a + seq!['/'] + b.drop_last());
        assert(whole.last() == b.last());
        lemma_pieces_joined(a, b.drop_last());
        lemma_pieces_non_empty(b.drop_last(), '/');
        let left = pieces(a, '/');
        let right = pieces(b.drop_last(), '/');
        assert((left + right).drop_last() =~= left + right.drop_last());
        assert((left + right).last() == right.last());
        if b.last() == '/' {
            assert((left + right).push(Seq::empty()) =~= left + right.push(Seq::empty()));
        } else {
            let longer = right.last().push(b.last());
            assert((left + right.drop_last()).push(longer) =~= left + right.drop_last().push(
                longer,
            ));
        }
    }
}

/// A text without the separator is one piece.
pub proof fn lemma_one_piece(s: Seq<char>)
    requires
        !s.contains('/'),
    ensures
        pieces(s, '/') == seq![s],
    decreases s.len(),
{
    if s.len() > 0 {
        assert(s.last() != '/') by {
            if s.last() == '/' {
                assert(s[s.len() - 1] == '/');
            }
        }
        assert(!s.drop_last().contains('/')) by {
            if s.drop_last().contains('/') {
                let k = s.drop_last().index_of('/');
                assert(s[k] == '/');
            }
        }
        lemma_one_piece(s.drop_last());
        let before = pieces(s.drop_last(), '/');
        assert(before.drop_last().push(before.last().push(s.last())) =~= seq![s]) by {
            assert(s.drop_last().push(s.last()) =~= s);
        }
    } else {
        assert(s =~= Seq::empty());
    }
}

/// The non-empty `/`-separated segments of a key.
pub fn split_key(key: &str) -> (v: Vec<String>)
    ensures
        texts(v@) == segments(key@),
{
    let mut out: Vec<String> = Vec::new();
    let mut cur = String::new();
    let chars = to_chars(key);
    let mut i: usize = 0;
    assert(texts(out@) =~= non_empty(pieces(key@.take(0), '/').drop_last()));
    assert(cur@ =~= pieces(key@.take(0), '/').last());
    while i < chars.len()
        invariant
            chars@ == key@,
            i <= chars.len(),
            texts(out@) == non_empty(pieces(key@.take(i as int), '/').drop_last()),
            cur@ == pieces(key@.take(i as int), '/').last(),
        decreases chars.len() - i,
    {
        let ghost before = pieces(key@.take(i as int), '/');
        let ghost out0 = out@;
        proof {
            lemma_pieces_non_empty(key@.take(i as int), '/');
            assert(key@.take(i as int + 1).drop_last() =~= key@.take(i as int));
            assert(key@.take(i as int + 1).last() == chars@[i as int]);
        }
        if chars[i] == '/' {
            assert(pieces(key@.take(i as int + 1), '/').drop_last() =~= before);
            if cur.as_str().is_empty() {
            } else {
                out.push(cur);
                assert(texts(out@) =~= texts(out0).push(cur@));
            }
            cur = String::new();
        } else {
            cur.push(chars[i]);
            assert(pieces(key@.take(i as int + 1), '/').drop_last() =~= before.drop_last());
        }
        i += 1;
    }
    assert(key@.take(key@.len() as int) =~= key@);
    proof {
        lemma_pieces_non_empty(key@, '/');
    }
    if !cur.as_str().is_empty() {
        let ghost out0 = out@;
        out.push(cur);
        assert(texts(out@) =~= texts(out0).push(cur@));
    }
    out
}

/// Segments joined by `/`.
pub open spec fn joined(segs: Seq<Seq<char>>) -> Seq<char>
    decreases segs.len(),
{
    if segs.len() == 0 {
        Seq::<char>::empty()
    } else if segs.len() == 1 {
        segs[0]
    } else {
        joined(segs.drop_last()).push('/') + segs.last()
    }
}

/// A key with its segments joined by single slashes.
pub fn normal_form(key: &str) -> (s: String)
    ensures
        s@ == joined(segments(key@)),
{
    let segs = split_key(key);
    let ghost all = texts(segs@);
    let mut s = String::new();
    let mut i: usize = 0;
    assert(all.take(0) =~= Seq::empty());
    while i < segs.len()
        invariant
            i <= segs.len(),
            all == texts(segs@),
            s@ == joined(all.take(i as int)),
        decreases segs.len() - i,
    {
        assert(all.take(i as int + 1).drop_last() =~= all.take(i as int));
        assert(all.take(i as int + 1).last() == segs@[i as int]@);
        if i > 0 {
            s.push('/');
        }
        s.append(segs[i].as_str());
        assert(s@ =~= joined(all.take(i as int + 1)));
        i += 1;
    }
    assert(all.take(i as int) =~= all);
    s
}

/// The stretches of `s` between its white-space characters, empty ones included.
pub open spec fn stretches(s: Seq<char>) -> Seq<Seq<char>>
    decreases s.len(),
{
    if s.len() == 0 {
        seq![Seq::<char>::empty()]
    } else {
        let before = stretches(s.drop_last());
        if is_white_space(s.last()) {
            before.push(Seq::<char>::empty())
        } else {
            before.drop_last().push(before.last().push(s.last()))
        }
    }
}

/// The white-space separated words of `s`.
pub open spec fn words(s: Seq<char>) -> Seq<Seq<char>> {
    non_empty(stretches(s))
}

proof fn lemma_stretches_non_empty(s: Seq<char>)
    ensures
        stretches(s).len() > 0,
    decreases s.len(),
{
    if s.len() > 0 {
        lemma_stretches_non_empty(s.drop_last());
    }
}

/// The white-space separated words of `s`.
pub fn split_words(s: &str) -> (v: Vec<String>)
    ensures
        texts(v@) == words(s@),
{
    let mut out: Vec<String> = Vec::new();
    let mut cur = String::new();
    let chars = to_chars(s);
    let mut i: usize = 0;
    assert(texts(out@) =~= non_empty(stretches(s@.take(0)).drop_last()));
    assert(cur@ =~= stretches(s@.take(0)).last());
    while i < chars.len()
        invariant
            chars@ == s@,
            i <= chars.len(),
            texts(out@) == non_empty(stretches(s@.take(i as int)).drop_last()),
            cur@ == stretches(s@.take(i as int)).last(),
        decreases chars.len() - i,
    {
        let ghost before = stretches(s@.take(i as int));
        let ghost out0 = out@;
        proof {
            lemma_stretches_non_empty(s@.take(i as int));
            assert(s@.take(i as int + 1).drop_last() =~= s@.take(i as int));
            assert(s@.take(i as int + 1).last() == chars@[i as int]);
        }
        if white_space(chars[i]) {
            assert(stretches(s@.take(i as int + 1)).drop_last() =~= before);
            if !cur.as_str().is_empty() {
                out.push(cur);
                assert(texts(out@) =~= texts(out0).push(cur@));
            }
            cur = String::new();
        } else {
            cur.push(chars[i]);
            assert(stretches(s@.take(i as int + 1)).drop_last() =~= before.drop_last());
        }
        i += 1;
    }
    assert(s@.take(s@.len() as int) =~= s@);
    proof {
        lemma_stretches_non_empty(s@);
    }
    if !cur.as_str().is_empty() {
        let ghost out0 = out@;
        out.push(cur);
        assert(texts(out@) =~= texts(out0).push(cur@));
    }
    out
}

/// The pieces between the occurrences of a separator, empty ones included.
pub fn split_on(s: &str, sep: char) -> (v: Vec<String>)
    ensures
        texts(v@) == pieces(s@, sep),
{
    let mut out: Vec<String> = Vec::new();
    let mut cur = String::new();
    let chars = to_chars(s);
    let mut i: usize = 0;
    assert(texts(out@) =~= pieces(s@.take(0), sep).drop_last());
    assert(cur@ =~= pieces(s@.take(0), sep).last());
    while i < chars.len()
        invariant
            chars@ == s@,
            i <= chars.len(),
            texts(out@) == pieces(s@.take(i as int), sep).drop_last(),
            cur@ == pieces(s@.take(i as int), sep).last(),
        decreases chars.len() - i,
    {
        let ghost before = pieces(s@.take(i as int), sep);
        let ghost out0 = out@;
        proof {
            lemma_pieces_non_empty(s@.take(i as int), sep);
            assert(s@.take(i as int + 1).drop_last() =~= s@.take(i as int));
            assert(s@.take(i as int + 1).last() == chars@[i as int]);
        }
        if chars[i] == sep {
            out.push(cur);
            assert(texts(out@) =~= texts(out0).push(cur@));
            assert(texts(out@) =~= before);
            assert(pieces(s@.take(i as int + 1), sep).drop_last() =~= before);
            cur = String::new();
        } else {
            cur.push(chars[i]);
            assert(pieces(s@.take(i as int + 1), sep).drop_last() =~= before.drop_last());
        }
        i += 1;
    }
    assert(s@.take(s@.len() as int) =~= s@);
    proof {
        lemma_pieces_non_empty(s@, sep);
    }
    let ghost out0 = out@;
    out.push(cur);
    assert(texts(out@) =~= texts(out0).push(cur@));
    assert(texts(out@) =~= pieces(s@, sep));
    out
}

/// The lines of a text as `str::lines` gives them: what a newline ends loses a
/// carriage return before it, and an empty rest after the last newline is no
/// line.
pub open spec fn lines_of(s: Seq<char>) -> Seq<Seq<char>> {
    let all = pieces(s, '\n');
    let ended = Seq::new((all.len() - 1) as nat, |i: int| without_return(all[i]));
    if all.last().len() == 0 {
        ended
    } else {
        ended.push(all.last())
    }
}

/// A line without the carriage return at its end.
pub open spec fn without_return(line: Seq<char>) -> Seq<char> {
    if line.len() > 0 && line.last() == '\r' {
        line.drop_last()
    } else {
        line
    }
}

fn strip_return(line: &str) -> (s: String)
    ensures
        s@ == without_return(line@),
{
    let n: usize = line.unicode_len();
    if n > 0 && line.get_char(n - 1) == '\r' {
        let s = line.substring_char(0, n - 1).to_owned();
        assert(s@ =~= line@.drop_last());
        s
    } else {
        line.to_owned()
    }
}

/// The lines of a text.
pub fn split_lines(s: &str) -> (v: Vec<String>)
    ensures
        texts(v@) == lines_of(s@),
{
    let all = split_on(s, '\n');
    let ghost ps = pieces(s@, '\n');
    let mut out: Vec<String> = Vec::new();
    proof {
        lemma_pieces_non_empty(s@, '\n');
        assert(texts(all@).len() == all@.len());
    }
    let n: usize = all.len() - 1;
    let mut i: usize = 0;
    while i < n
        invariant
            i <= n,
            n + 1 == all@.len(),
            texts(all@) == ps,
            texts(out@) =~= Seq::new(i as nat, |k: int| without_return(ps[k])),
        decreases n - i,
    {
        assert(ps[i as int] == all@[i as int]@);
        let ghost out0 = out@;
        out.push(strip_return(all[i].as_str()));
        i += 1;
        assert(texts(out@) =~= texts(out0).push(without_return(ps[i as int - 1])));
    }
    assert(ps.last() == all@[n as int]@);
    if !all[n].as_str().is_empty() {
        let ghost out0 = out@;
        out.push(all[n].clone());
        assert(texts(out@) =~= texts(out0).push(ps.last()));
    }
    assert(texts(out@) =~= lines_of(s@));
    out
}

/// `s` without the characters at its end that satisfy `p`.
pub open spec fn stripped_end(s: Seq<char>, p: spec_fn(char) -> bool) -> Seq<char>
    decreases s.len(),
{
    if s.len() > 0 && p(s.last()) {
        stripped_end(s.drop_last(), p)
    } else {
        s
    }
}

/// The last `n` characters of `s`.
pub open spec fn tail_of(s: Seq<char>, n: nat) -> Seq<char> {
    if s.len() <= n {
        s
    } else {
        s.skip(s.len() - n)
    }
}

/// The last `n` characters of `s`.
pub fn tail(s: &str, n: usize) -> (r: String)
    ensures
        r@ == tail_of(s@, n as nat),
{
    let len: usize = s.unicode_len();
    if len <= n {
        s.to_owned()
    } else {
        let r = s.substring_char(len - n, len).to_owned();
        assert(r@ =~= s@.skip(s@.len() - n));
        r
    }
}

/// The first `n` characters of `s`.
pub open spec fn head_of(s: Seq<char>, n: nat) -> Seq<char> {
    if s.len() <= n {
        s
    } else {
        s.take(n as int)
    }
}

/// The bytes of a character in UTF-8.
pub open spec fn utf8_width(c: char) -> nat {
    if (c as u32) < 0x80 {
        1
    } else if (c as u32) < 0x800 {
        2
    } else if (c as u32) < 0x1_0000 {
        3
    } else {
        4
    }
}

/// The start of `s` that takes at most `n` bytes, in whole characters.
pub open spec fn head_bytes_of(s: Seq<char>, n: nat) -> Seq<char>
    decreases s.len(),
{
    if s.len() == 0 || utf8_width(s[0]) > n {
        Seq::empty()
    } else {
        seq![s[0]] + head_bytes_of(s.skip(1), (n - utf8_width(s[0])) as nat)
    }
}

/// How many of the characters from `from` on take at most `n` bytes together.
pub fn chars_within(chars: &Vec<char>, from: usize, n: usize) -> (end: usize)
    requires
        from <= chars.len(),
    ensures
        from <= end <= chars.len(),
        chars@.subrange(from as int, end as int) == head_bytes_of(
            chars@.skip(from as int),
            n as nat,
        ),
{
    let mut end: usize = from;
    let mut left: usize = n;
    let ghost all = head_bytes_of(chars@.skip(from as int), n as nat);
    assert(chars@.subrange(from as int, from as int) + all =~= all);
    while end < chars.len()
        invariant_except_break
            from <= end <= chars.len(),
            chars@.subrange(from as int, end as int) + head_bytes_of(
                chars@.skip(end as int),
                left as nat,
            ) == all,
        ensures
            from <= end <= chars.len(),
            chars@.subrange(from as int, end as int) == all,
        decreases chars.len() - end,
    {
        let code: u32 = chars[end] as u32;
        let width: usize = if code < 0x80 {
            1
        } else if code < 0x800 {
            2
        } else if code < 0x1_0000 {
            3
        } else {
            4
        };
        let ghost rest = chars@.skip(end as int);
        assert(rest[0] == chars@[end as int]);
        if width > left {
            assert(chars@.subrange(from as int, end as int) + Seq::<char>::empty()
                =~= chars@.subrange(from as int, end as int));
            break;
        }
        assert(rest.skip(1) =~= chars@.skip(end as int + 1));
        assert(chars@.subrange(from as int, end as int + 1) =~= chars@.subrange(
            from as int,
            end as int,
        ) + seq![rest[0]]);
        end += 1;
        left -= width;
        assert(chars@.subrange(from as int, end as int) + head_bytes_of(
            chars@.skip(end as int),
            left as nat,
        ) =~= all);
        if end == chars.len() {
            assert(chars@.subrange(from as int, end as int) =~= all);
        }
    }
    end
}

/// The start of `s` that takes at most `n` bytes, in whole characters.
pub fn head_bytes(s: &str, n: usize) -> (r: String)
    ensures
        r@ == head_bytes_of(s@, n as nat),
{
    let chars = to_chars(s);
    let end: usize = chars_within(&chars, 0, n);
    assert(s@.skip(0) =~= s@);
    let r = s.substring_char(0, end).to_owned();
    assert(r@ =~= head_bytes_of(s@, n as nat));
    r
}

/// A text of characters of one byte each is cut after as many characters as bytes.
pub proof fn law_plain_text_is_cut_by_the_character(s: Seq<char>, n: nat)
    requires
        forall|i: int| 0 <= i < s.len() ==> utf8_width(#[trigger] s[i]) == 1,
    ensures
        head_bytes_of(s, n) == head_of(s, n),
    decreases s.len(),
{
    if s.len() > 0 && n > 0 {
        assert(utf8_width(s[0]) == 1);
        assert forall|i: int| 0 <= i < s.skip(1).len() implies utf8_width(
            #[trigger] s.skip(1)[i],
        ) == 1 by {
            assert(utf8_width(s[i + 1]) == 1);
        }
        law_plain_text_is_cut_by_the_character(s.skip(1), (n - 1) as nat);
        assert(seq![s[0]] + head_of(s.skip(1), (n - 1) as nat) =~= head_of(s, n));
    } else if s.len() > 0 {
        assert(utf8_width(s[0]) == 1);
        assert(head_of(s, n) =~= Seq::<char>::empty());
    }
}

/// What was cut to a number of bytes is no longer than that, and stays as it is.
pub proof fn lemma_head_bytes_fits(s: Seq<char>, n: nat)
    ensures
        head_bytes_of(s, n).len() <= n,
        head_bytes_of(head_bytes_of(s, n), n) == head_bytes_of(s, n),
        forall|i: int| 0 <= i < head_bytes_of(s, n).len() ==> #[trigger] head_bytes_of(s, n)[i] == s[i],
        head_bytes_of(s, n).len() <= s.len(),
    decreases s.len(),
{
    if s.len() > 0 && utf8_width(s[0]) <= n {
        let left = (n - utf8_width(s[0])) as nat;
        lemma_head_bytes_fits(s.skip(1), left);
        let h = head_bytes_of(s, n);
        assert(h.skip(1) =~= head_bytes_of(s.skip(1), left));
        assert(head_bytes_of(h, n) =~= h);
    }
}

/// The first `n` characters of `s`.
pub fn head(s: &str, n: usize) -> (r: String)
    ensures
        r@ == head_of(s@, n as nat),
{
    let len: usize = s.unicode_len();
    if len <= n {
        s.to_owned()
    } else {
        let r = s.substring_char(0, n).to_owned();
        assert(r@ =~= s@.take(n as int));
        r
    }
}

/// Texts joined by a space.
pub open spec fn spaced(v: Seq<Seq<char>>) -> Seq<char>
    decreases v.len(),
{
    if v.len() == 0 {
        Seq::empty()
    } else if v.len() == 1 {
        v[0]
    } else {
        spaced(v.drop_last()).push(' ') + v.last()
    }
}

/// Texts joined by a space.
pub fn join_spaced(v: &Vec<String>) -> (s: String)
    ensures
        s@ == spaced(texts(v@)),
{
    let ghost all = texts(v@);
    let mut s = String::new();
    let mut i: usize = 0;
    assert(all.take(0) =~= Seq::empty());
    while i < v.len()
        invariant
            i <= v.len(),
            all == texts(v@),
            s@ == spaced(all.take(i as int)),
        decreases v.len() - i,
    {
        proof {
            assert(all.take(i as int + 1).drop_last() =~= all.take(i as int));
            assert(all.take(i as int + 1).last() == v@[i as int]@);
            assert(i == 0 ==> spaced(all.take(0)) =~= Seq::empty());
        }
        if i > 0 {
            s.push(' ');
        }
        s.append(v[i].as_str());
        i += 1;
        assert(s@ =~= spaced(all.take(i as int)));
    }
    assert(all.take(i as int) =~= all);
    s
}

/// Names the form that Rust's `Debug` gives a string: quoted, with escapes.
pub uninterp spec fn debug_form(s: Seq<char>) -> Seq<char>;

/// `<str as Debug>::fmt`: the quoted, escaped form, which depends on the text
/// alone.
#[verifier::external_body]
pub(crate) fn debug_quoted(s: &str) -> (r: String)
    ensures
        r@ == debug_form(s@),
{
    format!("{:?}", s)
}

} // verus!
