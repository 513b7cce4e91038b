//! Text helpers: what the rest of the library needs of strings, stated over
//! sequences of characters.
use vstd::prelude::*;
use vstd::string::*;
use vstd::utf8::is_ascii_chars;

verus! {

/// The views of a list of strings.
pub open spec fn texts(list: Seq<String>) -> Seq<Seq<char>> {
    list.map_values(|s: String| s@)
}

/// The view of an optional string.
pub open spec fn opt_text(text: Option<String>) -> Option<Seq<char>> {
    match text {
        Some(s) => Some(s@),
        None => None,
    }
}

/// The characters of `s`, in order.
pub(crate) fn chars_of(s: &str) -> (chars: Vec<char>)
    ensures
        chars@ == s@,
{
    let mut chars: Vec<char> = Vec::new();
    for c in it: s.chars()
        invariant
            it.seq() == s@,
            chars@ == s@.take(it.index() as int),
    {
        proof {
            assert(s@.take(it.index() + 1) == s@.take(it.index() as int).push(c));
        }
        chars.push(c);
    }
    assert(s@.take(s@.len() as int) == s@);
    chars
}

/// Whether two texts are the same.
pub(crate) fn same_text(a: &str, b: &str) -> (same: bool)
    ensures
        same == (a@ == b@),
{
    a.to_owned() == b.to_owned()
}

/// A copy of an optional string.
pub(crate) fn copy_opt(text: &Option<String>) -> (copy: Option<String>)
    ensures
        opt_text(copy) == opt_text(*text),
{
    match text {
        Some(s) => Some(s.clone()),
        None => None,
    }
}

/// A copy of a list of strings.
pub(crate) fn copy_texts(list: &Vec<String>) -> (copy: Vec<String>)
    ensures
        texts(copy@) == texts(list@),
{
    let mut copy: Vec<String> = Vec::new();
    let mut i: usize = 0;
    while i < list.len()
        invariant
            i <= list.len(),
            copy@.len() == i,
            forall|j: int| 0 <= j < i ==> (#[trigger] copy@[j])@ == list@[j]@,
        decreases list.len() - i,
    {
        copy.push(list[i].clone());
        i += 1;
    }
    assert(texts(copy@) =~= texts(list@));
    copy
}

// ---------------------------------------------------------------------------
// Trimming
// ---------------------------------------------------------------------------
/// The characters with the Unicode property White_Space.
pub open spec fn white_space(c: char) -> bool {
    ||| '\u{9}' <= c <= '\u{d}'
    ||| c == ' '
    ||| c == '\u{85}'
    ||| c == '\u{a0}'
    ||| c == '\u{1680}'
    ||| '\u{2000}' <= c <= '\u{200a}'
    ||| c == '\u{2028}'
    ||| c == '\u{2029}'
    ||| c == '\u{202f}'
    ||| c == '\u{205f}'
    ||| c == '\u{3000}'
}

/// The quotation marks that may surround a link on a command line.
pub open spec fn quote_mark(c: char) -> bool {
    c == '\'' || c == '"' || c == '`'
}

/// A class of characters that can be stripped from the ends of a text.
#[derive(Clone, Copy, PartialEq, Eq, Structural, Debug)]
pub enum CharClass {
    WhiteSpace,
    QuoteMark,
}

impl CharClass {
    /// Membership in the class.
    pub open spec fn has(self, c: char) -> bool {
        match self {
            CharClass::WhiteSpace => white_space(c),
            CharClass::QuoteMark => quote_mark(c),
        }
    }

    /// Whether `c` belongs to the class.
    pub fn contains(&self, c: char) -> (r: bool)
        ensures
            r == self.has(c),
    {
        match self {
            CharClass::WhiteSpace => {
                ('\u{9}' <= c && c <= '\u{d}') || c == ' ' || c == '\u{85}' || c == '\u{a0}' || c
                    == '\u{1680}' || ('\u{2000}' <= c && c <= '\u{200a}') || c == '\u{2028}' || c
                    == '\u{2029}' || c == '\u{202f}' || c == '\u{205f}' || c == '\u{3000}'
            },
            CharClass::QuoteMark => c == '\'' || c == '"' || c == '`',
        }
    }
}

/// `s` without its leading characters of the class.
pub open spec fn strip_front(s: Seq<char>, class: CharClass) -> Seq<char>
    decreases s.len(),
{
    if s.len() > 0 && class.has(s[0]) {
        strip_front(s.drop_first(), class)
    } else {
        s
    }
}

/// `s` without its trailing characters of the class.
pub open spec fn strip_back(s: Seq<char>, class: CharClass) -> Seq<char>
    decreases s.len(),
{
    if s.len() > 0 && class.has(s.last()) {
        strip_back(s.drop_last(), class)
    } else {
        s
    }
}

/// `s` without the characters of the class at either end.
pub open spec fn stripped(s: Seq<char>, class: CharClass) -> Seq<char> {
    strip_back(strip_front(s, class), class)
}

/// `s` without the white space at either end.
pub open spec fn trimmed(s: Seq<char>) -> Seq<char> {
    stripped(s, CharClass::WhiteSpace)
}

/// `s` without the characters of the class at either end.
pub(crate) fn strip(s: &str, class: CharClass) -> (r: &str)
    ensures
        r@ == stripped(s@, class),
{
    let chars = chars_of(s);
    let n: usize = chars.len();
    let mut from: usize = 0;
    assert(s@.skip(0) == s@);
    while from < n && class.contains(chars[from])
        invariant
            n == chars.len(),
            chars@ == s@,
            from <= n,
            strip_front(s@.skip(from as int), class) == strip_front(s@, class),
        decreases n - from,
    {
        assert(s@.skip(from as int).drop_first() == s@.skip(from + 1));
        from += 1;
    }
    let ghost front = s@.skip(from as int);
    assert(strip_front(s@, class) == front);
    let mut to: usize = n;
    assert(s@.subrange(from as int, n as int) == front);
    while to > from && class.contains(chars[to - 1])
        invariant
            n == chars.len(),
            chars@ == s@,
            from <= to <= n,
            strip_back(s@.subrange(from as int, to as int), class) == strip_back(front, class),
        decreases to,
    {
        assert(s@.subrange(from as int, to as int).drop_last() == s@.subrange(
            from as int,
            to - 1,
        ));
        to -= 1;
    }
    s.substring_char(from, to)
}

/// `s` without the white space at either end.
pub(crate) fn trim(s: &str) -> (r: &str)
    ensures
        r@ == trimmed(s@),
{
    strip(s, CharClass::WhiteSpace)
}

// ---------------------------------------------------------------------------
// Searching
// ---------------------------------------------------------------------------
/// How many characters stand before the first `c` in `s`; the length of `s`
/// where there is none.
pub open spec fn chars_before(s: Seq<char>, c: char) -> int
    decreases s.len(),
{
    if s.len() == 0 || s[0] == c {
        0
    } else {
        1 + chars_before(s.drop_first(), c)
    }
}

/// The two parts of `s` around its first `c`, where it has one.
pub open spec fn split_at_first(s: Seq<char>, c: char) -> Option<(Seq<char>, Seq<char>)> {
    let n = chars_before(s, c);
    if n < s.len() {
        Some((s.take(n), s.skip(n + 1)))
    } else {
        None
    }
}

/// How many characters stand after the last `c` in `s`; the length of `s`
/// where there is none.
pub open spec fn chars_after(s: Seq<char>, c: char) -> int
    decreases s.len(),
{
    if s.len() == 0 || s.last() == c {
        0
    } else {
        1 + chars_after(s.drop_last(), c)
    }
}

/// The text after the last `c` of `s`; all of `s` where it has none.
pub open spec fn after_last(s: Seq<char>, c: char) -> Seq<char> {
    s.skip(s.len() - chars_after(s, c))
}

/// The text before the first `c` of `s`; all of `s` where it has none.
pub open spec fn before_first(s: Seq<char>, c: char) -> Seq<char> {
    s.take(chars_before(s, c))
}

/// `s` begins with `prefix`.
pub open spec fn has_prefix(s: Seq<char>, prefix: Seq<char>) -> bool {
    prefix.len() <= s.len() && s.take(prefix.len() as int) == prefix
}

/// `part` occurs in `s`.
pub open spec fn has_part(s: Seq<char>, part: Seq<char>) -> bool {
    exists|i: int| 0 <= i <= s.len() && has_prefix(#[trigger] s.skip(i), part)
}

/// The text after the last `c` holds no `c`.
pub(crate) proof fn lemma_after_last(s: Seq<char>, c: char)
    ensures
        0 <= chars_after(s, c) <= s.len(),
        !after_last(s, c).contains(c),
    decreases s.len(),
{
    if s.len() > 0 && s.last() != c {
        let front = s.drop_last();
        lemma_after_last(front, c);
        let n = chars_after(s, c);
        let tail = after_last(s, c);
        assert forall|i: int| 0 <= i < tail.len() implies tail[i] != c by {
            if i < n - 1 {
                assert(after_last(front, c)[i] == tail[i]);
                assert(after_last(front, c).contains(tail[i]));
            } else {
                assert(tail[i] == s.last());
            }
        }
    }
}

/// The position of the first `c` in `s`, counted in characters; the length of
/// `s` where there is none.
fn position_of(s: &str, c: char) -> (n: usize)
    ensures
        n == chars_before(s@, c),
        n <= s@.len(),
{
    let chars = chars_of(s);
    let mut n: usize = 0;
    assert(s@.skip(0) == s@);
    while n < chars.len() && chars[n] != c
        invariant
            chars@ == s@,
            n <= chars.len(),
            n + chars_before(s@.skip(n as int), c) == chars_before(s@, c),
        decreases chars.len() - n,
    {
        assert(s@.skip(n as int).drop_first() == s@.skip(n + 1));
        n += 1;
    }
    n
}

/// The two parts of `s` around its first `c`, where it has one.
pub(crate) fn split_once(s: &str, c: char) -> (r: Option<(&str, &str)>)
    ensures
        match r {
            Some((a, b)) => split_at_first(s@, c) == Some((a@, b@)),
            None => split_at_first(s@, c) is None,
        },
{
    let n: usize = position_of(s, c);
    let len: usize = s.unicode_len();
    if n < len {
        let a = s.substring_char(0, n);
        let b = s.substring_char(n + 1, len);
        assert(a@ == s@.take(n as int));
        assert(b@ == s@.skip(n + 1));
        Some((a, b))
    } else {
        None
    }
}

/// The text before the first `c` of `s`; all of `s` where it has none.
pub(crate) fn text_before(s: &str, c: char) -> (r: &str)
    ensures
        r@ == before_first(s@, c),
{
    let n: usize = position_of(s, c);
    let r = s.substring_char(0, n);
    assert(r@ == s@.take(n as int));
    r
}

/// The text after the last `c` of `s`; all of `s` where it has none.
pub(crate) fn text_after(s: &str, c: char) -> (r: &str)
    ensures
        r@ == after_last(s@, c),
{
    let chars = chars_of(s);
    let len: usize = chars.len();
    let mut n: usize = len;
    assert(s@.take(len as int) == s@);
    while n > 0 && chars[n - 1] != c
        invariant
            chars@ == s@,
            len == chars.len(),
            n <= len,
            (len - n) + chars_after(s@.take(n as int), c) == chars_after(s@, c),
        decreases n,
    {
        assert(s@.take(n as int).drop_last() == s@.take(n - 1));
        n -= 1;
    }
    let r = s.substring_char(n, len);
    assert(r@ == s@.skip(n as int));
    r
}

/// Whether `s` begins with `prefix`.
pub(crate) fn starts_with(s: &str, prefix: &str) -> (r: bool)
    ensures
        r == has_prefix(s@, prefix@),
{
    let len: usize = s.unicode_len();
    let n: usize = prefix.unicode_len();
    if n > len {
        return false;
    }
    let head = s.substring_char(0, n);
    assert(head@ == s@.take(n as int));
    same_text(head, prefix)
}

/// Whether `part` occurs in `s`.
pub(crate) fn contains(s: &str, part: &str) -> (r: bool)
    ensures
        r == has_part(s@, part@),
{
    let len: usize = s.unicode_len();
    let mut i: usize = 0;
    while i <= len
        invariant
            len == s@.len(),
            0 <= i <= len + 1,
            forall|j: int| 0 <= j < i ==> !has_prefix(#[trigger] s@.skip(j), part@),
        decreases len + 1 - i,
    {
        let rest = s.substring_char(i, len);
        assert(rest@ == s@.skip(i as int));
        if starts_with(rest, part) {
            return true;
        }
        if i == len {
            return false;
        }
        i += 1;
    }
    false
}

// ---------------------------------------------------------------------------
// Joining
// ---------------------------------------------------------------------------
/// The two texts, one after the other.
pub(crate) fn joined(a: &str, b: &str) -> (r: String)
    ensures
        r@ == a@ + b@,
{
    a.to_owned().concat(b)
}

// ---------------------------------------------------------------------------
// Numbers
// ---------------------------------------------------------------------------
/// The decimal digit `d`, for `d` below ten.
pub open spec fn digit(d: int) -> char {
    if d == 0 {
        '0'
    } else if d == 1 {
        '1'
    } else if d == 2 {
        '2'
    } else if d == 3 {
        '3'
    } else if d == 4 {
        '4'
    } else if d == 5 {
        '5'
    } else if d == 6 {
        '6'
    } else if d == 7 {
        '7'
    } else if d == 8 {
        '8'
    } else {
        '9'
    }
}

/// `n` in decimal, without leading zeros.
pub open spec fn decimal(n: nat) -> Seq<char>
    decreases n,
{
    if n < 10 {
        seq![digit(n as int)]
    } else {
        decimal(n / 10).push(digit((n % 10) as int))
    }
}

/// `c` is a decimal digit.
pub open spec fn is_digit(c: char) -> bool {
    '0' <= c <= '9'
}

/// `s` is a run of one or more decimal digits.
pub open spec fn all_digits(s: Seq<char>) -> bool {
    s.len() > 0 && forall|i: int| 0 <= i < s.len() ==> is_digit(#[trigger] s[i])
}

/// The number that a run of decimal digits stands for.
pub open spec fn digits_value(s: Seq<char>) -> nat
    decreases s.len(),
{
    if s.len() == 0 {
        0
    } else {
        digits_value(s.drop_last()) * 10 + (s.last() as nat - '0' as nat) as nat
    }
}

/// Writing a number in decimal and reading the digits gives the number back.
pub proof fn lemma_decimal_round_trip(n: nat)
    ensures
        all_digits(decimal(n)),
        digits_value(decimal(n)) == n,
    decreases n,
{
    reveal_with_fuel(digits_value, 2);
    if n < 10 {
        assert(seq![digit(n as int)].drop_last() =~= Seq::<char>::empty());
    } else {
        lemma_decimal_round_trip(n / 10);
        let s = decimal(n);
        assert(s.drop_last() =~= decimal(n / 10));
        assert forall|i: int| 0 <= i < s.len() implies is_digit(#[trigger] s[i]) by {
            if i < s.len() - 1 {
                assert(s[i] == decimal(n / 10)[i]);
            }
        }
    }
}

proof fn lemma_digits_value_grows(s: Seq<char>, n: int)
    requires
        all_digits(s),
        0 <= n <= s.len(),
    ensures
        digits_value(s.take(n)) <= digits_value(s),
    decreases s.len(),
{
    if n == s.len() {
        assert(s.take(n) == s);
    } else if s.len() == 1 {
        assert(s.take(n) =~= Seq::<char>::empty());
    } else {
        let front = s.drop_last();
        assert forall|i: int| 0 <= i < front.len() implies is_digit(#[trigger] front[i]) by {
            assert(front[i] == s[i]);
        }
        lemma_digits_value_grows(front, n);
        assert(front.take(n) == s.take(n));
    }
}

/// `n` in decimal.
pub(crate) fn decimal_text(n: u64) -> (r: String)
    ensures
        r@ == decimal(n as nat),
    decreases n,
{
    let d: u64 = n % 10;
    let last: &str = if d == 0 {
        "0"
    } else if d == 1 {
        "1"
    } else if d == 2 {
        "2"
    } else if d == 3 {
        "3"
    } else if d == 4 {
        "4"
    } else if d == 5 {
        "5"
    } else if d == 6 {
        "6"
    } else if d == 7 {
        "7"
    } else if d == 8 {
        "8"
    } else {
        "9"
    };
    proof {
        reveal_strlit("0");
        reveal_strlit("1");
        reveal_strlit("2");
        reveal_strlit("3");
        reveal_strlit("4");
        reveal_strlit("5");
        reveal_strlit("6");
        reveal_strlit("7");
        reveal_strlit("8");
        reveal_strlit("9");
        assert(last@ =~= seq![digit(d as int)]);
    }
    if n < 10 {
        last.to_owned()
    } else {
        let front = decimal_text(n / 10);
        assert(front@ + last@ =~= decimal(n as nat));
        front.concat(last)
    }
}

/// The value of a run of decimal digits, where `s` is one and its value is at
/// most `limit`.
pub(crate) fn read_digits(s: &str, limit: u64) -> (r: Option<u64>)
    ensures
        match r {
            Some(n) => all_digits(s@) && n == digits_value(s@) && n <= limit,
            None => !all_digits(s@) || digits_value(s@) > limit,
        },
{
    let chars = chars_of(s);
    let n: usize = chars.len();
    if n == 0 {
        return None;
    }
    let mut i: usize = 0;
    while i < n
        invariant
            n == chars.len(),
            chars@ == s@,
            i <= n,
            forall|j: int| 0 <= j < i ==> is_digit(#[trigger] chars@[j]),
        decreases n - i,
    {
        let c = chars[i];
        if !('0' <= c && c <= '9') {
            assert(!is_digit(chars@[i as int]));
            return None;
        }
        i += 1;
    }
    assert(all_digits(s@));
    let mut value: u64 = 0;
    let mut k: usize = 0;
    assert(s@.take(0) =~= Seq::<char>::empty());
    while k < n
        invariant
            n == chars.len(),
            chars@ == s@,
            all_digits(s@),
            k <= n,
            value == digits_value(s@.take(k as int)),
            value <= limit,
        decreases n - k,
    {
        let c = chars[k];
        assert(is_digit(s@[k as int]));
        let d: u64 = (c as u64) - ('0' as u64);
        proof {
            assert(s@.take(k + 1).drop_last() =~= s@.take(k as int));
            assert(digits_value(s@.take(k + 1)) == value as nat * 10 + d);
            lemma_digits_value_grows(s@, k + 1);
        }
        if d > limit || value > (limit - d) / 10 {
            return None;
        }
        value = value * 10 + d;
        k += 1;
    }
    assert(s@.take(n as int) == s@);
    Some(value)
}

/// What reading `s` as an unsigned 64-bit number gives: an optional plus sign,
/// then digits only, with a value in range.
pub open spec fn u64_in(s: Seq<char>) -> Option<u64> {
    let digits = if s.len() > 0 && s[0] == '+' {
        s.drop_first()
    } else {
        s
    };
    if all_digits(digits) && digits_value(digits) <= u64::MAX {
        Some(digits_value(digits) as u64)
    } else {
        None
    }
}

/// Reads `s` as an unsigned 64-bit number.
pub(crate) fn read_u64(s: &str) -> (r: Option<u64>)
    ensures
        r == u64_in(s@),
{
    let len: usize = s.unicode_len();
    if len > 0 && s.get_char(0) == '+' {
        let rest = s.substring_char(1, len);
        assert(rest@ == s@.drop_first());
        read_digits(rest, u64::MAX)
    } else {
        read_digits(s, u64::MAX)
    }
}

// ---------------------------------------------------------------------------
// Letter case
// ---------------------------------------------------------------------------
/// An ASCII letter in lower case; any other character as it is.
pub open spec fn ascii_lower(c: char) -> char {
    if 'A' <= c <= 'Z' {
        ((c as u32) + 32) as char
    } else {
        c
    }
}

/// `s` with its ASCII letters in lower case.
pub open spec fn ascii_lowered(s: Seq<char>) -> Seq<char> {
    s.map_values(|c: char| ascii_lower(c))
}

/// What `str::to_lowercase` makes of a text.
pub uninterp spec fn lowercase(s: Seq<char>) -> Seq<char>;

/// Calls `str::to_lowercase`. Trusted: the result is a function of the text
/// alone, and of an ASCII text it is the text with its ASCII letters in lower
/// case. What it makes of other characters (the Unicode case mapping) is left
/// to the name `lowercase`.
#[verifier::external_body]
pub(crate) fn to_lowercase(s: &str) -> (r: String)
    ensures
        r@ == lowercase(s@),
        is_ascii_chars(s@) ==> r@ == ascii_lowered(s@),
{
    s.to_lowercase()
}

// ---------------------------------------------------------------------------
// What the helpers promise
// ---------------------------------------------------------------------------
/// White space in ASCII is the space and the five control characters from the tab
/// to the carriage return; beyond it, nineteen characters are white space. A
/// quotation mark is one of three.
pub proof fn law_classes_of_characters(c: char)
    ensures
        c <= '\u{7f}' ==> (CharClass::WhiteSpace.has(c) <==> c == ' ' || '\t' <= c <= '\r'),
        c > '\u{7f}' ==> (CharClass::WhiteSpace.has(c) <==> seq![
            0x85,
            0xa0,
            0x1680,
            0x2028,
            0x2029,
            0x202f,
            0x205f,
            0x3000int,
        ].contains(c as int) || 0x2000 <= c as int <= 0x200a),
        CharClass::WhiteSpace.has(c) == white_space(c),
        CharClass::QuoteMark.has(c) <==> c == '\'' || c == '"' || c == '`',
{
    let list = seq![0x85, 0xa0, 0x1680, 0x2028, 0x2029, 0x202f, 0x205f, 0x3000int];
    assert(list[0] == 0x85 && list[1] == 0xa0 && list[2] == 0x1680 && list[3] == 0x2028);
    assert(list[4] == 0x2029 && list[5] == 0x202f && list[6] == 0x205f && list[7] == 0x3000);
}

/// Where `s` is `mid` with characters of the class on either side, and `mid`
/// neither begins nor ends with one, `mid` is what stripping leaves of it.
pub proof fn law_stripping_leaves_the_middle(
    front: Seq<char>,
    mid: Seq<char>,
    back: Seq<char>,
    class: CharClass,
)
    requires
        forall|i: int| 0 <= i < front.len() ==> class.has(#[trigger] front[i]),
        forall|i: int| 0 <= i < back.len() ==> class.has(#[trigger] back[i]),
        mid.len() > 0 ==> !class.has(mid[0]) && !class.has(mid.last()),
    ensures
        stripped(front + mid + back, class) == mid,
    decreases front.len() + back.len(),
{
    let s = front + mid + back;
    if front.len() > 0 {
        assert(class.has(front[0]) && s[0] == front[0]);
        let rest = front.drop_first();
        assert forall|i: int| 0 <= i < rest.len() implies class.has(#[trigger] rest[i]) by {
            assert(rest[i] == front[i + 1]);
        }
        assert(s.drop_first() =~= rest + mid + back);
        law_stripping_leaves_the_middle(rest, mid, back, class);
    } else if mid.len() == 0 {
        if back.len() > 0 {
            assert(class.has(back[0]) && s[0] == back[0]);
            let rest = back.drop_first();
            assert forall|i: int| 0 <= i < rest.len() implies class.has(#[trigger] rest[i]) by {
                assert(rest[i] == back[i + 1]);
            }
            assert(s.drop_first() =~= front + mid + rest);
            law_stripping_leaves_the_middle(front, mid, rest, class);
        }
        assert(s.len() == 0 ==> s =~= mid);
    } else {
        assert(s[0] == mid[0]);
        assert(strip_front(s, class) == s);
        if back.len() > 0 {
            assert(class.has(back[back.len() - 1]) && s.last() == back.last());
            let rest = back.drop_last();
            let shorter = front + mid + rest;
            assert forall|i: int| 0 <= i < rest.len() implies class.has(#[trigger] rest[i]) by {
                assert(rest[i] == back[i]);
            }
            assert(s.drop_last() =~= shorter);
            assert(shorter[0] == mid[0]);
            assert(strip_front(shorter, class) == shorter);
            law_stripping_leaves_the_middle(front, mid, rest, class);
        } else {
            assert(s =~= mid);
        }
    }
}

/// Stripping takes nothing out of the middle of a text, leaves no character of
/// the class at either end, and takes nothing else away.
pub proof fn law_stripping_takes_the_ends(s: Seq<char>, class: CharClass) -> (r: (int, int))
    ensures
        0 <= r.0 <= r.1 <= s.len(),
        stripped(s, class) == s.subrange(r.0, r.1),
        forall|i: int| 0 <= i < r.0 || r.1 <= i < s.len() ==> class.has(#[trigger] s[i]),
        r.0 < r.1 ==> !class.has(s[r.0]) && !class.has(s[r.1 - 1]),
{
    let from = lemma_first_outside(s, class);
    let to = lemma_last_outside(s, class, from);
    let front = s.take(from);
    let mid = s.subrange(from, to);
    let back = s.skip(to);
    assert(front + mid + back =~= s);
    law_stripping_leaves_the_middle(front, mid, back, class);
    (from, to)
}

proof fn lemma_first_outside(s: Seq<char>, class: CharClass) -> (n: int)
    ensures
        0 <= n <= s.len(),
        forall|i: int| 0 <= i < n ==> class.has(#[trigger] s[i]),
        n < s.len() ==> !class.has(s[n]),
    decreases s.len(),
{
    if s.len() > 0 && class.has(s[0]) {
        let n = lemma_first_outside(s.drop_first(), class);
        assert forall|i: int| 0 <= i < n + 1 implies class.has(#[trigger] s[i]) by {
            if i > 0 {
                assert(s.drop_first()[i - 1] == s[i]);
            }
        }
        n + 1
    } else {
        0
    }
}

proof fn lemma_last_outside(s: Seq<char>, class: CharClass, from: int) -> (n: int)
    requires
        0 <= from <= s.len(),
    ensures
        from <= n <= s.len(),
        forall|i: int| n <= i < s.len() ==> class.has(#[trigger] s[i]),
        from < n ==> !class.has(s[n - 1]),
    decreases s.len(),
{
    if s.len() > from && class.has(s.last()) {
        let n = lemma_last_outside(s.drop_last(), class, from);
        assert forall|i: int| n <= i < s.len() implies class.has(#[trigger] s[i]) by {
            if i < s.len() - 1 {
                assert(s.drop_last()[i] == s[i]);
            }
        }
        n
    } else {
        s.len() as int
    }
}

/// A text is cut at the first `c` in it, and only where it has one.
pub proof fn law_texts_are_cut_at_the_first(a: Seq<char>, c: char, b: Seq<char>)
    requires
        !a.contains(c),
    ensures
        split_at_first(a.push(c) + b, c) == Some((a, b)),
        split_at_first(a, c) is None,
        before_first(a.push(c) + b, c) == a,
        before_first(a, c) == a,
{
    lemma_chars_before(a, c);
    lemma_chars_before(a.push(c) + b, c);
    let s = a.push(c) + b;
    let n = chars_before(s, c);
    assert(s[a.len() as int] == c);
    if n < a.len() {
        assert(s[n] == a[n]);
        assert(a.contains(a[n]));
    }
    assert(n == a.len());
    assert(s.take(n) =~= a);
    assert(s.skip(n + 1) =~= b);
    let m = chars_before(a, c);
    if m < a.len() {
        assert(a.contains(a[m]));
    }
    assert(a.take(m) =~= a);
}

/// The first `c` stands where `chars_before` says.
pub(crate) proof fn lemma_chars_before(s: Seq<char>, c: char)
    ensures
        0 <= chars_before(s, c) <= s.len(),
        forall|i: int| 0 <= i < chars_before(s, c) ==> #[trigger] s[i] != c,
        chars_before(s, c) < s.len() ==> s[chars_before(s, c)] == c,
    decreases s.len(),
{
    if s.len() > 0 && s[0] != c {
        let rest = s.drop_first();
        lemma_chars_before(rest, c);
        assert forall|i: int| 0 <= i < chars_before(s, c) implies #[trigger] s[i] != c by {
            if i > 0 {
                assert(rest[i - 1] == s[i]);
            }
        }
    }
}

/// What stands behind the last `c` of a text is found, whatever stands before
/// it; a text without `c` is all there is.
pub proof fn law_the_end_follows_the_last(a: Seq<char>, c: char, b: Seq<char>)
    requires
        !b.contains(c),
    ensures
        after_last(a.push(c) + b, c) == b,
        after_last(b, c) == b,
    decreases b.len(),
{
    let s = a.push(c) + b;
    if b.len() == 0 {
        assert(s.last() == c);
        assert(after_last(s, c) =~= b);
    } else {
        let rest = b.drop_last();
        assert(b.contains(b.last()));
        assert forall|i: int| 0 <= i < rest.len() implies #[trigger] rest[i] != c by {
            assert(b.contains(b[i]));
        }
        law_the_end_follows_the_last(a, c, rest);
        assert(s.drop_last() =~= a.push(c) + rest);
        lemma_after_last(a.push(c) + rest, c);
        lemma_after_last(rest, c);
        assert(after_last(a.push(c) + rest, c).len() == rest.len());
        assert(after_last(rest, c).len() == rest.len());
        assert(chars_after(s, c) == b.len());
        assert(after_last(s, c) =~= b);
        assert(chars_after(b, c) == b.len());
        assert(after_last(b, c) =~= b);
    }
}

/// A text begins with another exactly where it is the other and something more,
/// and holds another exactly where it has it between two more.
pub proof fn law_beginnings_and_parts(s: Seq<char>, part: Seq<char>)
    ensures
        has_prefix(s, part) <==> exists|rest: Seq<char>| s == #[trigger] (part + rest),
        has_part(s, part) <==> exists|a: Seq<char>, b: Seq<char>| s == #[trigger] (a + part + b),
{
    if has_prefix(s, part) {
        assert(s =~= part + s.skip(part.len() as int));
    }
    if exists|rest: Seq<char>| s == #[trigger] (part + rest) {
        let rest = choose|rest: Seq<char>| s == #[trigger] (part + rest);
        assert((part + rest).take(part.len() as int) =~= part);
    }
    if has_part(s, part) {
        let i = choose|i: int| 0 <= i <= s.len() && has_prefix(#[trigger] s.skip(i), part);
        let tail = s.skip(i);
        assert(s =~= s.take(i) + part + tail.skip(part.len() as int)) by {
            assert(tail =~= part + tail.skip(part.len() as int));
            assert(s =~= s.take(i) + tail);
        }
    }
    if exists|a: Seq<char>, b: Seq<char>| s == #[trigger] (a + part + b) {
        let (a, b) = choose|a: Seq<char>, b: Seq<char>| s == #[trigger] (a + part + b);
        assert(s.skip(a.len() as int) =~= part + b);
        assert((part + b).take(part.len() as int) =~= part);
        assert(has_prefix(s.skip(a.len() as int), part));
    }
}

/// `s` is a run of decimal digits that stands for `n`.
pub open spec fn reads_as(s: Seq<char>, n: int) -> bool {
    &&& s.len() > 0
    &&& forall|i: int| 0 <= i < s.len() ==> '0' <= #[trigger] s[i] <= '9'
    &&& digits_value(s) == n
}

/// A digit behind a run of digits counts as much as it says, and what stands
/// before it ten times as much as before.
pub proof fn law_digits_count_by_their_place(s: Seq<char>, c: char)
    requires
        '0' <= c <= '9',
    ensures
        digits_value(s.push(c)) == 10 * digits_value(s) + (c as int - '0' as int),
        digits_value(Seq::empty()) == 0,
{
    assert(s.push(c).drop_last() =~= s);
}

/// A number in decimal reads as the number and has no zero in front, unless it
/// is zero.
pub proof fn law_numbers_are_written_as_they_read(n: nat)
    ensures
        reads_as(decimal(n), n as int),
        decimal(n).len() > 1 ==> decimal(n)[0] != '0',
        n == 0 ==> decimal(n) == seq!['0'],
    decreases n,
{
    lemma_decimal_round_trip(n);
    assert forall|i: int| 0 <= i < decimal(n).len() implies '0' <= #[trigger] decimal(n)[i]
        <= '9' by {
        assert(is_digit(decimal(n)[i]));
    }
    if n >= 10 {
        law_numbers_are_written_as_they_read(n / 10);
        assert(decimal(n)[0] == decimal(n / 10)[0]);
        if decimal(n / 10).len() == 1 {
            reveal_with_fuel(digits_value, 2);
            assert(decimal(n / 10).drop_last() =~= Seq::<char>::empty());
        }
    }
}

/// Digits, with or without a plus sign before them, are read as the number that
/// they stand for, where it is in range; every other text is no number.
pub proof fn law_numbers_are_read(s: Seq<char>, n: u64)
    ensures
        u64_in(s) == Some(n) <==> reads_as(s, n as int) || s.len() > 0 && s[0] == '+' && reads_as(
            s.skip(1),
            n as int,
        ),
{
    let rest = s.skip(1);
    if s.len() > 0 {
        assert(s.drop_first() =~= rest);
    }
    assert(reads_as(s, n as int) ==> all_digits(s));
    assert(reads_as(rest, n as int) ==> all_digits(rest));
    assert(all_digits(s) ==> forall|i: int| 0 <= i < s.len() ==> is_digit(#[trigger] s[i]));
    assert(all_digits(rest) ==> forall|i: int|
        0 <= i < rest.len() ==> is_digit(#[trigger] rest[i]));
}

/// In lower case, a text has the same length, its ASCII capitals are the small
/// letters that are 32 further on, and every other character is as it was.
pub proof fn law_lower_case(s: Seq<char>, i: int)
    requires
        0 <= i < s.len(),
    ensures
        ascii_lowered(s).len() == s.len(),
        'A' <= s[i] <= 'Z' ==> ascii_lowered(s)[i] as int == s[i] as int + 32,
        !('A' <= s[i] <= 'Z') ==> ascii_lowered(s)[i] == s[i],
{
}

/// The value of a list of strings has the value of each string, in its place;
/// that of a string that may be missing is missing where the string is.
pub proof fn law_texts_are_what_strings_hold(list: Seq<String>, text: Option<String>)
    ensures
        texts(list).len() == list.len(),
        forall|i: int| 0 <= i < list.len() ==> #[trigger] texts(list)[i] == list[i]@,
        text matches Some(s) ==> opt_text(text) == Some(s@),
        text is None ==> opt_text(text) is None,
{
}

} // verus!
