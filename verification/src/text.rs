//! Text as sequences of characters: the small string operations that the rest
//! of the library is stated over.

use vstd::prelude::*;
use vstd::utf8::{decode_utf8, encode_scalar, encode_utf8, valid_utf8};

verus! {

/// Appends one character, as `String::push` documents.
pub assume_specification[ std::string::String::push ](s: &mut std::string::String, c: char)
    ensures
        final(s)@ == old(s)@.push(c),
;

/// Whether the Unicode tables of the standard library call `c` alphabetic or
/// numeric.
pub uninterp spec fn unicode_alphanumeric(c: char) -> bool;

/// `char::is_alphanumeric` looks `c` up in the Unicode tables: its answer is a
/// function of the character alone. Which characters those are is left unsaid.
pub assume_specification[ char::is_alphanumeric ](c: char) -> (r: bool)
    ensures
        r == unicode_alphanumeric(c),
;

/// The text that the standard library reads from bytes that may not be UTF-8.
pub uninterp spec fn lossy_text(bytes: Seq<u8>) -> Seq<char>;

/// `String::from_utf8_lossy`: the text is a function of the bytes, and bytes
/// that are UTF-8 are decoded as they stand. How many replacement characters
/// stand for malformed bytes is left unsaid.
#[verifier::external_body]
pub(crate) fn from_utf8_lossy(bytes: &Vec<u8>) -> (r: String)
    ensures
        r@ == lossy_text(bytes@),
        valid_utf8(bytes@) ==> r@ == decode_utf8(bytes@),
{
    String::from_utf8_lossy(bytes).into_owned()
}

/// What is known of the text that is read from bytes: those of a text in UTF-8 give
/// that text.
pub open spec fn decodes(bytes: Seq<u8>) -> bool {
    valid_utf8(bytes) ==> lossy_text(bytes) == decode_utf8(bytes)
}

/// Letters and digits: the ASCII ones, and beyond ASCII what Unicode says.
pub open spec fn letter_or_digit(c: char) -> bool {
    if (c as u32) < 128 {
        ('0' <= c <= '9') || ('A' <= c <= 'Z') || ('a' <= c <= 'z')
    } else {
        unicode_alphanumeric(c)
    }
}

pub fn alphanumeric(c: char) -> (r: bool)
    ensures
        r == letter_or_digit(c),
{
    if (c as u32) < 128 {
        ('0' <= c && c <= '9') || ('A' <= c && c <= 'Z') || ('a' <= c && c <= 'z')
    } else {
        c.is_alphanumeric()
    }
}

/// The characters with the Unicode property `White_Space`.
pub open spec fn is_white_space(c: char) -> bool {
    ||| '\u{9}' <= c <= '\u{d}'
    ||| c == ' '
    ||| c == '\u{85}'
    ||| c == '\u{a0}'
    ||| c == '\u{1680}'
    ||| '\u{2000}' <= c <= '\u{200a}'
    ||| '\u{2028}' <= c <= '\u{2029}'
    ||| c == '\u{202f}'
    ||| c == '\u{205f}'
    ||| c == '\u{3000}'
}

pub fn white_space(c: char) -> (r: bool)
    ensures
        r == is_white_space(c),
{
    ('\u{9}' <= c && c <= '\u{d}') || c == ' ' || c == '\u{85}' || c == '\u{a0}' || c == '\u{1680}'
        || ('\u{2000}' <= c && c <= '\u{200a}') || ('\u{2028}' <= c && c <= '\u{2029}') || c
        == '\u{202f}' || c == '\u{205f}' || c == '\u{3000}'
}

/// The characters of `s`, in order.
pub fn chars_of(s: &str) -> (r: Vec<char>)
    ensures
        r@ == s@,
{
    let mut r: Vec<char> = Vec::new();
    for c in it: s.chars()
        invariant
            r@ == it.seq().take(it.index()),
            it.seq() == s@,
    {
        r.push(c);
    }
    r
}

/// The text with the characters `from..to` of `chars`.
pub fn text_of(chars: &Vec<char>, from: usize, to: usize) -> (r: String)
    requires
        from <= to <= chars.len(),
    ensures
        r@ == chars@.subrange(from as int, to as int),
{
    let mut r: String = String::new();
    let mut i: usize = from;
    while i < to
        invariant
            from <= i <= to <= chars.len(),
            r@ == chars@.subrange(from as int, i as int),
        decreases to - i,
    {
        r.push(chars[i]);
        i = i + 1;
    }
    r
}

/// Whether the two texts have the same characters.
pub fn same(a: &str, b: &str) -> (r: bool)
    ensures
        r == (a@ == b@),
{
    a.to_owned() == b.to_owned()
}

/// Whether a text comes before another, character by character. UTF-8 keeps the
/// order of the characters, so their bytes are ordered in the same way.
pub open spec fn comes_before(a: Seq<char>, b: Seq<char>) -> bool
    decreases a.len(),
{
    if b.len() == 0 {
        false
    } else if a.len() == 0 {
        true
    } else if a[0] == b[0] {
        comes_before(a.skip(1), b.skip(1))
    } else {
        a[0] < b[0]
    }
}

pub fn precedes(a: &str, b: &str) -> (r: bool)
    ensures
        r == comes_before(a@, b@),
{
    let x: Vec<char> = chars_of(a);
    let y: Vec<char> = chars_of(b);
    let mut i: usize = 0;
    proof {
        assert(x@.skip(0) =~= a@);
        assert(y@.skip(0) =~= b@);
    }
    while i < x.len() && i < y.len() && x[i] == y[i]
        invariant
            i <= x.len(),
            i <= y.len(),
            comes_before(x@.skip(i as int), y@.skip(i as int)) == comes_before(a@, b@),
        decreases x.len() - i,
    {
        proof {
            assert(x@.skip(i as int).skip(1) =~= x@.skip(i + 1));
            assert(y@.skip(i as int).skip(1) =~= y@.skip(i + 1));
        }
        i = i + 1;
    }
    if i == y.len() {
        false
    } else if i == x.len() {
        true
    } else {
        x[i] < y[i]
    }
}

/// Of two texts that are not in order, the other order holds; and the order
/// carries over from text to text.
pub proof fn lemma_order(a: Seq<char>, b: Seq<char>, c: Seq<char>)
    ensures
        comes_before(a, b) ==> !comes_before(b, a),
        !comes_before(b, a) && !comes_before(c, b) ==> !comes_before(c, a),
    decreases a.len(),
{
    if a.len() > 0 && b.len() > 0 {
        if c.len() > 0 {
            lemma_order(a.skip(1), b.skip(1), c.skip(1));
        } else {
            lemma_order(a.skip(1), b.skip(1), c);
        }
    }
}

/// The texts with `sep` between each two of them.
pub open spec fn join(parts: Seq<Seq<char>>, sep: Seq<char>) -> Seq<char>
    decreases parts.len(),
{
    if parts.len() == 0 {
        Seq::empty()
    } else if parts.len() == 1 {
        parts[0]
    } else {
        join(parts.drop_last(), sep) + sep + parts.last()
    }
}

/// The characters of each text of a list.
pub open spec fn texts(parts: Seq<String>) -> Seq<Seq<char>> {
    parts.map_values(|s: String| s@)
}

/// The text, where there is one.
pub open spec fn optional_text(s: Option<String>) -> Option<Seq<char>> {
    match s {
        Some(s) => Some(s@),
        None => None,
    }
}

pub fn joined(parts: &Vec<String>, sep: &str) -> (r: String)
    ensures
        r@ == join(texts(parts@), sep@),
{
    let mut r: String = String::new();
    let mut i: usize = 0;
    while i < parts.len()
        invariant
            i <= parts.len(),
            r@ == join(texts(parts@).take(i as int), sep@),
        decreases parts.len() - i,
    {
        proof {
            assert(texts(parts@).take(i + 1).drop_last() =~= texts(parts@).take(i as int));
        }
        if i > 0 {
            r.append(sep);
        }
        r.append(&parts[i]);
        i = i + 1;
    }
    proof {
        assert(texts(parts@).take(i as int) =~= texts(parts@));
    }
    r
}

/// A copy of the list, text by text.
pub fn copied(parts: &Vec<String>) -> (r: Vec<String>)
    ensures
        texts(r@) == texts(parts@),
{
    let mut r: Vec<String> = Vec::new();
    let mut i: usize = 0;
    while i < parts.len()
        invariant
            i <= parts.len(),
            r.len() == i,
            forall|j: int| 0 <= j < i ==> (#[trigger] r@[j])@ == parts@[j]@,
        decreases parts.len() - i,
    {
        r.push(parts[i].clone());
        i = i + 1;
    }
    proof {
        assert(texts(r@) =~= texts(parts@));
    }
    r
}

/// Whether `item` is one of the texts.
pub fn listed(parts: &Vec<String>, item: &str) -> (r: bool)
    ensures
        r == texts(parts@).contains(item@),
{
    let mut i: usize = 0;
    while i < parts.len()
        invariant
            i <= parts.len(),
            forall|j: int| 0 <= j < i ==> texts(parts@)[j] != item@,
        decreases parts.len() - i,
    {
        if same(&parts[i], item) {
            proof {
                assert(texts(parts@)[i as int] == item@);
            }
            return true;
        }
        i = i + 1;
    }
    false
}

/// Whether `pattern` stands in `s` at index `at`.
pub open spec fn occurs_at(s: Seq<char>, pattern: Seq<char>, at: int) -> bool {
    0 <= at && at + pattern.len() <= s.len() && s.subrange(at, at + pattern.len()) == pattern
}

pub fn stands_at(chars: &Vec<char>, pattern: &Vec<char>, at: usize) -> (r: bool)
    ensures
        r == occurs_at(chars@, pattern@, at as int),
{
    if at > chars.len() || pattern.len() > chars.len() - at {
        return false;
    }
    let mut i: usize = 0;
    while i < pattern.len()
        invariant
            i <= pattern.len(),
            at <= chars.len(),
            pattern.len() <= chars.len() - at,
            forall|j: int| 0 <= j < i ==> chars@[at + j] == pattern@[j],
        decreases pattern.len() - i,
    {
        if chars[at + i] != pattern[i] {
            proof {
                assert(chars@.subrange(at as int, at + pattern.len())[i as int] == chars@[at + i]);
            }
            return false;
        }
        i = i + 1;
    }
    proof {
        assert(chars@.subrange(at as int, at + pattern.len()) =~= pattern@);
    }
    true
}

/// The digit character of a number below ten.
pub open spec fn digit(n: nat) -> char {
    (48 + n) as char
}

/// The decimal digits of a natural number, without leading zeros.
pub open spec fn decimal(n: nat) -> Seq<char>
    decreases n,
{
    if n < 10 {
        seq![digit(n)]
    } else {
        decimal(n / 10).push(digit(n % 10))
    }
}

/// The decimal text of an integer.
pub open spec fn decimal_int(n: int) -> Seq<char> {
    if n < 0 {
        seq!['-'] + decimal((-n) as nat)
    } else {
        decimal(n as nat)
    }
}

pub proof fn lemma_decimal_int_is_not_empty(n: int)
    ensures
        decimal_int(n).len() > 0,
{
}

pub fn decimal_text(n: u64) -> (r: String)
    ensures
        r@ == decimal(n as nat),
    decreases n,
{
    let last: char = (48u8 + (n % 10) as u8) as char;
    if n < 10 {
        let mut r: String = String::new();
        r.push(last);
        r
    } else {
        let mut r: String = decimal_text(n / 10);
        r.push(last);
        r
    }
}

pub fn decimal_int_text(n: i64) -> (r: String)
    ensures
        r@ == decimal_int(n as int),
{
    if n < 0 {
        let size: u64 = if n == i64::MIN {
            9223372036854775808u64
        } else {
            (-n) as u64
        };
        let mut r: String = String::new();
        r.push('-');
        r.append(&decimal_text(size));
        r
    } else {
        decimal_text(n as u64)
    }
}

/// `s` without the white space at its two ends.
pub open spec fn trim(s: Seq<char>) -> Seq<char>
    decreases s.len(),
{
    if s.len() > 0 && is_white_space(s[0]) {
        trim(s.skip(1))
    } else if s.len() > 0 && is_white_space(s.last()) {
        trim(s.drop_last())
    } else {
        s
    }
}

/// `str::trim`.
pub fn trimmed(s: &str) -> (r: String)
    ensures
        r@ == trim(s@),
{
    let chars: Vec<char> = chars_of(s);
    let mut from: usize = 0;
    let mut to: usize = chars.len();
    proof {
        assert(chars@.subrange(0, chars.len() as int) =~= s@);
    }
    while from < to && white_space(chars[from])
        invariant
            from <= to <= chars.len(),
            trim(chars@.subrange(from as int, to as int)) == trim(s@),
        decreases to - from,
    {
        proof {
            assert(chars@.subrange(from as int, to as int).skip(1) =~= chars@.subrange(
                from + 1,
                to as int,
            ));
        }
        from = from + 1;
    }
    while from < to && white_space(chars[to - 1])
        invariant
            from <= to <= chars.len(),
            from < to ==> !is_white_space(chars@[from as int]),
            trim(chars@.subrange(from as int, to as int)) == trim(s@),
        decreases to - from,
    {
        proof {
            assert(chars@.subrange(from as int, to as int).drop_last() =~= chars@.subrange(
                from as int,
                to - 1,
            ));
        }
        to = to - 1;
    }
    text_of(&chars, from, to)
}

/// The first `n` characters, or all of them where there are fewer.
pub open spec fn first_chars(s: Seq<char>, n: nat) -> Seq<char> {
    if n < s.len() {
        s.take(n as int)
    } else {
        s
    }
}

pub fn leading(s: &str, n: usize) -> (r: String)
    ensures
        r@ == first_chars(s@, n as nat),
{
    let chars: Vec<char> = chars_of(s);
    let to: usize = if n < chars.len() {
        n
    } else {
        chars.len()
    };
    text_of(&chars, 0, to)
}

/// The number of bytes that UTF-8 spends on `c`.
pub open spec fn width(c: char) -> nat {
    encode_scalar(c as u32).len()
}

/// Every character takes at least one byte.
pub proof fn lemma_width_is_positive(c: char)
    ensures
        width(c) > 0,
{
}

/// How many leading characters of `s` fit into `max` bytes of UTF-8.
pub open spec fn fitting(s: Seq<char>, max: nat) -> nat
    decreases s.len(),
{
    if s.len() == 0 || width(s[0]) > max {
        0
    } else {
        1 + fitting(s.skip(1), (max - width(s[0])) as nat)
    }
}

/// The longest prefix of whole characters that fits into `max` bytes of UTF-8.
pub open spec fn cut(s: Seq<char>, max: nat) -> Seq<char> {
    s.take(fitting(s, max) as int)
}

fn char_width(c: char) -> (r: usize)
    ensures
        r == width(c),
{
    let code: u32 = c as u32;
    if code < 0x80 {
        1
    } else if code < 0x800 {
        2
    } else if code < 0x10000 {
        3
    } else {
        4
    }
}

pub fn cut_text(s: &str, max: usize) -> (r: String)
    ensures
        r@ == cut(s@, max as nat),
{
    let chars: Vec<char> = chars_of(s);
    let mut left: usize = max;
    let mut i: usize = 0;
    proof {
        assert(chars@.skip(0) =~= s@);
    }
    while i < chars.len() && char_width(chars[i]) <= left
        invariant
            i <= chars.len(),
            chars@ == s@,
            i + fitting(chars@.skip(i as int), left as nat) == fitting(s@, max as nat),
        decreases chars.len() - i,
    {
        proof {
            assert(chars@.skip(i as int).skip(1) =~= chars@.skip(i + 1));
        }
        left = left - char_width(chars[i]);
        i = i + 1;
    }
    text_of(&chars, 0, i)
}

/// What is kept of a text that is cut to `max` bytes takes at most `max` bytes,
/// is a prefix of the text, and stops short of the text only where one more
/// character would not fit. A text that fits is kept whole.
pub proof fn cut_is_the_longest_prefix_that_fits(s: Seq<char>, max: nat)
    ensures
        fitting(s, max) <= s.len(),
        cut(s, max).is_prefix_of(s),
        encode_utf8(cut(s, max)).len() <= max,
        cut(s, max).len() < s.len() ==> encode_utf8(
            s.take((cut(s, max).len() + 1) as int),
        ).len() > max,
        encode_utf8(s).len() <= max ==> cut(s, max) == s,
    decreases s.len(),
{
    if s.len() == 0 || width(s[0]) > max {
        assert(cut(s, max) =~= Seq::<char>::empty());
        if s.len() > 0 {
            assert(s.take(1).drop_first() =~= Seq::<char>::empty());
            assert(s.take(1)[0] == s[0]);
            reveal_with_fuel(encode_utf8, 2);
        }
    } else {
        let rest = s.skip(1);
        let left = (max - width(s[0])) as nat;
        cut_is_the_longest_prefix_that_fits(rest, left);
        assert(s.drop_first() =~= rest);
        assert(cut(s, max).drop_first() =~= cut(rest, left));
        assert(cut(s, max)[0] == s[0]);
        if cut(s, max).len() < s.len() {
            let more = s.take((cut(s, max).len() + 1) as int);
            assert(more.drop_first() =~= rest.take((cut(rest, left).len() + 1) as int));
            assert(more[0] == s[0]);
        }
        if encode_utf8(s).len() <= max {
            assert(cut(s, max) =~= s);
        }
    }
}

// Laws

/// The number that decimal digits stand for.
pub open spec fn numeral_value(s: Seq<char>) -> nat
    decreases s.len(),
{
    if s.len() == 0 {
        0
    } else {
        numeral_value(s.drop_last()) * 10 + (s.last() as u32 - '0' as u32) as nat
    }
}

/// A natural number is written in digits that stand for it, without a zero in
/// front; an integer below zero is written as a minus sign and the number without
/// its sign.
pub proof fn decimal_stands_for_its_number(n: nat)
    ensures
        numeral_value(decimal(n)) == n,
        forall|i: int| 0 <= i < decimal(n).len() ==> '0' <= #[trigger] decimal(n)[i] <= '9',
        decimal(n).len() > 0,
        decimal(n).len() > 1 ==> decimal(n)[0] != '0',
        decimal_int(n as int) == decimal(n),
        n > 0 ==> decimal_int(-n) == seq!['-'] + decimal(n),
    decreases n,
{
    reveal_with_fuel(numeral_value, 2);
    if n < 10 {
        assert(decimal(n).drop_last() =~= Seq::<char>::empty());
        assert(decimal(n).last() == digit(n));
    } else {
        decimal_stands_for_its_number(n / 10);
        assert(decimal(n).drop_last() =~= decimal(n / 10));
        assert(decimal(n).last() == digit(n % 10));
        assert(decimal(n)[0] == decimal(n / 10)[0]);
        lemma_first_digit(n / 10);
        assert forall|i: int| 0 <= i < decimal(n).len() implies '0' <= #[trigger] decimal(n)[i]
            <= '9' by {
            if i < decimal(n / 10).len() {
                assert(decimal(n)[i] == decimal(n / 10)[i]);
            }
        }
    }
}

proof fn lemma_first_digit(n: nat)
    requires
        n > 0,
    ensures
        decimal(n).len() > 0,
        decimal(n)[0] != '0',
    decreases n,
{
    if n >= 10 {
        lemma_first_digit(n / 10);
        assert(decimal(n)[0] == decimal(n / 10)[0]);
    }
}

/// White space before and after a text is trimmed, and nothing else: what is left
/// begins and ends with other characters, or is empty.
pub proof fn trimming_takes_white_space_from_the_ends(
    before: Seq<char>,
    s: Seq<char>,
    after: Seq<char>,
)
    requires
        forall|i: int| 0 <= i < before.len() ==> is_white_space(#[trigger] before[i]),
        forall|i: int| 0 <= i < after.len() ==> is_white_space(#[trigger] after[i]),
        s.len() > 0 ==> !is_white_space(s[0]) && !is_white_space(s.last()),
    ensures
        trim(before + s + after) == s,
    decreases before.len() + after.len(),
{
    let t = before + s + after;
    if before.len() > 0 {
        let b = before.skip(1);
        assert(forall|i: int| 0 <= i < b.len() ==> b[i] == before[i + 1]);
        assert(t[0] == before[0]);
        assert(t.skip(1) =~= b + s + after);
        trimming_takes_white_space_from_the_ends(b, s, after);
    } else if after.len() > 0 {
        let a = after.drop_last();
        assert(forall|i: int| 0 <= i < a.len() ==> a[i] == after[i]);
        assert(t.last() == after[after.len() - 1]);
        if s.len() > 0 {
            assert(t[0] == s[0]);
            assert(t.drop_last() =~= before + s + a);
            trimming_takes_white_space_from_the_ends(before, s, a);
        } else {
            assert(t[0] == after[0]);
            let rest = after.skip(1);
            assert(forall|i: int| 0 <= i < rest.len() ==> rest[i] == after[i + 1]);
            assert(t.skip(1) =~= before + s + rest);
            trimming_takes_white_space_from_the_ends(before, s, rest);
        }
    } else {
        assert(t =~= s);
    }
}

/// Lists of texts are joined with one separator between the two lists, and one
/// text alone is joined as it stands.
pub proof fn joining_puts_one_separator_between(
    a: Seq<Seq<char>>,
    b: Seq<Seq<char>>,
    sep: Seq<char>,
)
    ensures
        join(Seq::empty(), sep) == Seq::<char>::empty(),
        a.len() == 1 ==> join(a, sep) == a[0],
        a.len() > 0 && b.len() > 0 ==> join(a + b, sep) == join(a, sep) + sep + join(b, sep),
    decreases b.len(),
{
    if a.len() > 0 && b.len() > 0 {
        let ab = a + b;
        assert(ab.last() == b.last());
        assert(ab.drop_last() =~= a + b.drop_last());
        if b.len() == 1 {
            assert(a + b.drop_last() =~= a);
        } else {
            joining_puts_one_separator_between(a, b.drop_last(), sep);
        }
        assert(join(ab, sep) =~= join(a, sep) + sep + join(b, sep));
    }
}

/// Of two texts that begin alike, the one with the smaller character at the first
/// place where they differ comes first, and a text comes before a longer one that
/// it begins.
pub proof fn first_difference_decides_the_order(
    p: Seq<char>,
    x: char,
    y: char,
    a: Seq<char>,
    b: Seq<char>,
)
    ensures
        x != y ==> (comes_before(p + seq![x] + a, p + seq![y] + b) <==> x < y),
        comes_before(p, p + seq![x] + a),
        !comes_before(p, p),
    decreases p.len(),
{
    let l = p + seq![x] + a;
    let r = p + seq![y] + b;
    if p.len() > 0 {
        let q = p.skip(1);
        first_difference_decides_the_order(q, x, y, a, b);
        assert(l.skip(1) =~= q + seq![x] + a);
        assert(r.skip(1) =~= q + seq![y] + b);
        assert(l[0] == p[0] && r[0] == p[0]);
    } else {
        assert(l[0] == x && r[0] == y);
    }
}

/// The letters and digits of ASCII are the 26 small and the 26 capital letters and
/// the ten digits; beyond ASCII the tables of Unicode decide.
pub proof fn letters_and_digits_are_told_apart(c: char)
    ensures
        (c as u32) < 128 ==> (letter_or_digit(c) <==> 'a' <= c <= 'z' || 'A' <= c <= 'Z' || '0' <= c
            <= '9'),
        (c as u32) >= 128 ==> letter_or_digit(c) == unicode_alphanumeric(c),
{
}

/// A list of texts is shown text by text, in order.
pub proof fn texts_are_shown_in_order(list: Seq<String>, i: int)
    requires
        0 <= i < list.len(),
    ensures
        texts(list).len() == list.len(),
        texts(list)[i] == list[i]@,
{
}

/// Of the characters of ASCII, those from the tab to the carriage return and the
/// space are white space; beyond them, the next line, the spaces that do not break
/// and those of a certain width, and the separators of lines and paragraphs.
pub proof fn white_space_is_told_apart(c: char)
    ensures
        (c as u32) < 128 ==> (is_white_space(c) <==> 9 <= c as u32 <= 13 || c as u32 == 32),
        128 <= c as u32 <= 0x1fff ==> (is_white_space(c) <==> c as u32 == 0x85 || c as u32 == 0xa0
            || c as u32 == 0x1680),
        (c as u32) >= 0x2000 ==> (is_white_space(c) <==> c as u32 <= 0x200a || 0x2028 <= c as u32
            <= 0x2029 || c as u32 == 0x202f || c as u32 == 0x205f || c as u32 == 0x3000),
{
}

} // verus!
