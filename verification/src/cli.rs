//! What the command line asks for.
use crate::headers::{bare, blank, lemma_trimming_blanks};
use crate::text::{
    all_digits, ascii_lower, decimal, digits_value, has_prefix, is_digit, joined,
    law_stripping_leaves_the_middle, lemma_decimal_round_trip, opt_text, quote_mark, read_digits,
    reads_as, starts_with, strip, stripped, texts, trim, trimmed, white_space, CharClass,
};
use vstd::prelude::*;
use vstd::string::*;

verus! {

// ---------------------------------------------------------------------------
// Sizes
// ---------------------------------------------------------------------------
/// The number of bytes that a letter stands for behind a number, where it
/// stands for one.
pub open spec fn unit(c: char) -> Option<u64> {
    if ascii_lower(c) == 'k' {
        Some(1024)
    } else if ascii_lower(c) == 'm' {
        Some(1048576)
    } else if ascii_lower(c) == 'g' {
        Some(1073741824)
    } else {
        None
    }
}

/// The unit at the end of a size: how many characters it takes, and how many
/// bytes it stands for. It is a letter, or a letter and a "b", in either case.
pub open spec fn unit_at_end(size: Seq<char>) -> (int, u64) {
    let n = size.len();
    if n >= 2 && ascii_lower(size[n - 1]) == 'b' && unit(size[n - 2]) is Some {
        (2, unit(size[n - 2])->0)
    } else if n >= 1 && unit(size[n - 1]) is Some {
        (1, unit(size[n - 1])->0)
    } else {
        (0, 1)
    }
}

/// The largest of the numbers up to which floating-point arithmetic has every
/// whole number.
pub const EXACT: u64 = 9007199254740992;

/// A size.
#[derive(Debug)]
pub enum Size {
    /// So many bytes.
    Bytes(u64),
    /// A text that is not a plain whole number of moderate size, to be read as a
    /// floating-point number, times so many bytes.
    Scaled { number: String, multiplier: u64 },
}

/// The value of a [`Size`].
pub enum SizeView {
    Bytes(u64),
    Scaled { number: Seq<char>, multiplier: u64 },
}

impl View for Size {
    type V = SizeView;

    open spec fn view(&self) -> SizeView {
        match self {
            Size::Bytes(n) => SizeView::Bytes(*n),
            Size::Scaled { number, multiplier } => SizeView::Scaled {
                number: number@,
                multiplier: *multiplier,
            },
        }
    }
}

/// What so many times a unit are, up to the largest size there is.
pub open spec fn times(n: nat, bytes: u64) -> u64 {
    if n * bytes > u64::MAX {
        u64::MAX
    } else {
        (n * bytes) as u64
    }
}

/// The number before the unit of a size.
pub open spec fn number_in(text: Seq<char>) -> Seq<char> {
    let size = trimmed(text);
    trimmed(size.take(size.len() - unit_at_end(size).0))
}

/// The size that a text stands for. White space around the text and before the
/// unit does not count; a size that is too large is the largest there is.
pub open spec fn size_in(text: Seq<char>) -> SizeView {
    let number = number_in(text);
    let multiplier = unit_at_end(trimmed(text)).1;
    if all_digits(number) && digits_value(number) <= EXACT {
        SizeView::Bytes(times(digits_value(number), multiplier))
    } else {
        SizeView::Scaled { number, multiplier }
    }
}

/// The unit is not written with the Kelvin sign, whose lower case is the letter
/// "k".
pub open spec fn plain_unit(size: Seq<char>) -> bool {
    let n = size.len();
    &&& n >= 1 ==> size[n - 1] != '\u{212a}'
    &&& n >= 2 && ascii_lower(size[n - 1]) == 'b' ==> size[n - 2] != '\u{212a}'
}

/// The number of bytes that a letter stands for behind a number, where it
/// stands for one.
fn unit_of(c: char) -> (r: Option<u64>)
    ensures
        r == unit(c),
{
    if c == 'k' || c == 'K' {
        Some(1024)
    } else if c == 'm' || c == 'M' {
        Some(1048576)
    } else if c == 'g' || c == 'G' {
        Some(1073741824)
    } else {
        None
    }
}

/// Reads a size, such as "512k" or "1.5 GB". What cannot be read as a whole
/// number is left as a text.
pub fn parse_size(text: &str) -> (size: Size)
    requires
        plain_unit(trimmed(text@)),
    ensures
        size@ == size_in(text@),
{
    let s = trim(text);
    let len: usize = s.unicode_len();
    let mut taken: usize = 0;
    let mut multiplier: u64 = 1;
    if len >= 1 {
        let last = s.get_char(len - 1);
        if let Some(bytes) = unit_of(last) {
            taken = 1;
            multiplier = bytes;
        } else if (last == 'b' || last == 'B') && len >= 2 {
            if let Some(bytes) = unit_of(s.get_char(len - 2)) {
                taken = 2;
                multiplier = bytes;
            }
        }
    }
    assert((taken as int, multiplier) == unit_at_end(s@));
    let front = s.substring_char(0, len - taken);
    assert(front@ =~= s@.take(len - taken));
    let number = trim(front);
    match read_digits(number, EXACT) {
        Some(n) => {
            proof {
                lemma_scaling(n as int, multiplier as int);
            }
            if n > u64::MAX / multiplier {
                Size::Bytes(u64::MAX)
            } else {
                Size::Bytes(n * multiplier)
            }
        },
        None => Size::Scaled { number: number.to_owned(), multiplier },
    }
}

proof fn lemma_scaling(n: int, multiplier: int)
    requires
        n >= 0,
        multiplier > 0,
    ensures
        n > u64::MAX as int / multiplier <==> n * multiplier > u64::MAX,
{
    let most = u64::MAX as int;
    let q = most / multiplier;
    assert(q * multiplier <= most < (q + 1) * multiplier) by (nonlinear_arith)
        requires
            q == most / multiplier,
            multiplier > 0,
    ;
    if n > q {
        assert(n * multiplier >= (q + 1) * multiplier) by (nonlinear_arith)
            requires
                n >= q + 1,
                multiplier > 0,
        ;
    } else {
        assert(n * multiplier <= q * multiplier) by (nonlinear_arith)
            requires
                n <= q,
                multiplier > 0,
        ;
    }
}

/// What the user is told of a text that is no size.
pub open spec fn size_error_in(text: Seq<char>) -> Seq<char> {
    "无效的大小格式: "@ + trimmed(text)
}

/// What the user is told of a text that is no size.
pub fn size_error(text: &str) -> (message: String)
    ensures
        message@ == size_error_in(text@),
{
    joined("无效的大小格式: ", trim(text))
}

/// A whole number of moderate size stands for so many bytes; behind it a letter
/// of either case, with or without a "b", stands for its unit.
pub proof fn law_sizes_mean_what_they_say(n: nat, c: char, b: char)
    requires
        n <= EXACT,
        unit(c) is Some,
        ascii_lower(b) == 'b',
    ensures
        size_in(decimal(n)) == SizeView::Bytes(n as u64),
        size_in(decimal(n).push(c)) == SizeView::Bytes(times(n, unit(c)->0)),
        size_in(decimal(n).push(c).push(b)) == SizeView::Bytes(times(n, unit(c)->0)),
        unit(ascii_lower(c)) == unit(c),
{
    let number = decimal(n);
    lemma_decimal_round_trip(n);
    assert(is_digit(number[0]) && is_digit(number.last()));
    lemma_trimmed_stays(number);
    let short = number.push(c);
    let long = short.push(b);
    assert(long[number.len() as int] == c);
    lemma_trimmed_stays(short);
    lemma_trimmed_stays(long);
    assert(unit_at_end(number) == (0int, 1u64));
    assert(number.take(number.len() as int) =~= number);
    assert(n * 1u64 == n) by (nonlinear_arith);
    assert(short.take(short.len() - 1) =~= number);
    assert(long.take(long.len() - 2) =~= number);
}

/// A text that neither begins nor ends with white space stays when it is
/// trimmed.
proof fn lemma_trimmed_stays(s: Seq<char>)
    requires
        s.len() > 0,
        !white_space(s[0]),
        !white_space(s.last()),
    ensures
        trimmed(s) == s,
{
}

// ---------------------------------------------------------------------------
// Links
// ---------------------------------------------------------------------------
/// The link begins with a scheme that is known.
pub open spec fn has_scheme(link: Seq<char>) -> bool {
    ||| has_prefix(link, "http://"@)
    ||| has_prefix(link, "https://"@)
    ||| has_prefix(link, "socks5://"@)
}

/// The link that a text stands for, where it stands for one: the text without
/// white space, then without quotation marks around it, as a plain HTTP link
/// where it has no scheme.
pub open spec fn link_in(text: Seq<char>) -> Option<Seq<char>> {
    let link = stripped(trimmed(text), CharClass::QuoteMark);
    if link.len() == 0 {
        None
    } else if has_scheme(link) {
        Some(link)
    } else {
        Some("http://"@ + link)
    }
}

/// The links that a list of texts stands for.
pub open spec fn links_in(list: Seq<Seq<char>>) -> Seq<Seq<char>>
    decreases list.len(),
{
    if list.len() == 0 {
        Seq::empty()
    } else {
        match link_in(list.last()) {
            Some(link) => links_in(list.drop_last()).push(link),
            None => links_in(list.drop_last()),
        }
    }
}

/// Reads one link.
fn read_link(text: &str) -> (link: Option<String>)
    ensures
        opt_text(link) == link_in(text@),
{
    let link = strip(trim(text), CharClass::QuoteMark);
    if link.unicode_len() == 0 {
        None
    } else if starts_with(link, "http://") || starts_with(link, "https://") || starts_with(
        link,
        "socks5://",
    ) {
        Some(link.to_owned())
    } else {
        Some(joined("http://", link))
    }
}

/// The links that a list of texts stands for, in order.
pub fn normalize_urls(list: &Vec<String>) -> (links: Vec<String>)
    ensures
        texts(links@) == links_in(texts(list@)),
{
    let mut links: Vec<String> = Vec::new();
    let ghost all = texts(list@);
    let mut i: usize = 0;
    assert(all.take(0) =~= Seq::<Seq<char>>::empty());
    assert(texts(links@) =~= links_in(all.take(0)));
    while i < list.len()
        invariant
            all == texts(list@),
            i <= list.len(),
            texts(links@) == links_in(all.take(i as int)),
        decreases list.len() - i,
    {
        let ghost so_far = links@;
        let read = read_link(list[i].as_str());
        proof {
            assert(all.take(i + 1).drop_last() =~= all.take(i as int));
            assert(all.take(i + 1).last() == list@[i as int]@);
        }
        if let Some(link) = read {
            links.push(link);
            assert(texts(links@) =~= texts(so_far).push(link@));
        }
        i += 1;
    }
    assert(all.take(i as int) =~= all);
    links
}

/// Every link has a scheme that is known.
pub proof fn law_links_have_schemes(list: Seq<Seq<char>>)
    ensures
        forall|i: int| 0 <= i < links_in(list).len() ==> has_scheme(#[trigger] links_in(list)[i]),
        links_in(list).len() <= list.len(),
    decreases list.len(),
{
    if list.len() > 0 {
        law_links_have_schemes(list.drop_last());
        let text = list.last();
        if link_in(text) is Some {
            let link = link_in(text)->0;
            let bare = stripped(trimmed(text), CharClass::QuoteMark);
            if !has_scheme(bare) {
                assert(link.take("http://"@.len() as int) =~= "http://"@);
            }
            assert(has_scheme(link));
        }
    }
}

/// The lines that hold anything but white space, without the white space around
/// them.
pub open spec fn lines_in(lines: Seq<Seq<char>>) -> Seq<Seq<char>>
    decreases lines.len(),
{
    if lines.len() == 0 {
        Seq::empty()
    } else if trimmed(lines.last()).len() > 0 {
        lines_in(lines.drop_last()).push(trimmed(lines.last()))
    } else {
        lines_in(lines.drop_last())
    }
}

/// The texts that stand for links in a list of lines, one to a line.
pub fn links_from_lines(lines: &Vec<String>) -> (list: Vec<String>)
    ensures
        texts(list@) == lines_in(texts(lines@)),
{
    let mut list: Vec<String> = Vec::new();
    let ghost all = texts(lines@);
    let mut i: usize = 0;
    assert(all.take(0) =~= Seq::<Seq<char>>::empty());
    assert(texts(list@) =~= lines_in(all.take(0)));
    while i < lines.len()
        invariant
            all == texts(lines@),
            i <= lines.len(),
            texts(list@) == lines_in(all.take(i as int)),
        decreases lines.len() - i,
    {
        let ghost so_far = list@;
        let line = trim(lines[i].as_str());
        proof {
            assert(all.take(i + 1).drop_last() =~= all.take(i as int));
            assert(all.take(i + 1).last() == lines@[i as int]@);
        }
        if line.unicode_len() > 0 {
            let text = line.to_owned();
            list.push(text);
            assert(texts(list@) =~= texts(so_far).push(text@));
        }
        i += 1;
    }
    assert(all.take(i as int) =~= all);
    list
}

// ---------------------------------------------------------------------------
// What the command line means
// ---------------------------------------------------------------------------
/// A text is a link, which neither begins nor ends with white space or a
/// quotation mark, possibly between quotation marks, and these between blanks. It
/// stands for the link, character for character, where that begins with a scheme
/// that is known, and for "http://" and the whole of it where it does not.
pub proof fn law_links_are_taken_whole(
    link: Seq<char>,
    blanks: Seq<char>,
    more_blanks: Seq<char>,
    quotes: Seq<char>,
    more_quotes: Seq<char>,
)
    requires
        link.len() > 0,
        bare(link),
        !quote_mark(link[0]),
        !quote_mark(link.last()),
        blank(blanks) && blank(more_blanks),
        forall|i: int| 0 <= i < quotes.len() ==> quote_mark(#[trigger] quotes[i]),
        forall|i: int| 0 <= i < more_quotes.len() ==> quote_mark(#[trigger] more_quotes[i]),
    ensures
        ({
            let text = blanks + (quotes + link + more_quotes) + more_blanks;
            let known = has_prefix(link, "http://"@) || has_prefix(link, "https://"@) || has_prefix(
                link,
                "socks5://"@,
            );
            &&& known ==> link_in(text) == Some(link) && link_in(link) == Some(link)
            &&& !known ==> link_in(text) == Some("http://"@ + link) && link_in(link) == Some(
                "http://"@ + link,
            )
        }),
{
    let quoted = quotes + link + more_quotes;
    lemma_quoted(link, quotes, more_quotes);
    lemma_trimming_blanks(blanks, quoted, more_blanks);
    let none = Seq::<char>::empty();
    lemma_quoted(link, none, none);
    lemma_trimming_blanks(none, link, none);
    assert(none + link + none =~= link);
}

proof fn lemma_quoted(link: Seq<char>, quotes: Seq<char>, more_quotes: Seq<char>)
    requires
        link.len() > 0 ==> bare(link) && !quote_mark(link[0]) && !quote_mark(link.last()),
        forall|i: int| 0 <= i < quotes.len() ==> quote_mark(#[trigger] quotes[i]),
        forall|i: int| 0 <= i < more_quotes.len() ==> quote_mark(#[trigger] more_quotes[i]),
    ensures
        bare(quotes + link + more_quotes),
        stripped(quotes + link + more_quotes, CharClass::QuoteMark) == link,
{
    let class = CharClass::QuoteMark;
    let quoted = quotes + link + more_quotes;
    assert forall|i: int| 0 <= i < quotes.len() implies class.has(#[trigger] quotes[i]) by {
        assert(quote_mark(quotes[i]));
    }
    assert forall|i: int| 0 <= i < more_quotes.len() implies class.has(
        #[trigger] more_quotes[i],
    ) by {
        assert(quote_mark(more_quotes[i]));
    }
    law_stripping_leaves_the_middle(quotes, link, more_quotes, class);
    if quoted.len() > 0 {
        if quotes.len() > 0 {
            assert(quoted[0] == quotes[0]);
        } else if link.len() > 0 {
            assert(quoted[0] == link[0]);
        } else {
            assert(quoted[0] == more_quotes[0]);
        }
        if more_quotes.len() > 0 {
            assert(quoted.last() == more_quotes[more_quotes.len() - 1]);
        } else if link.len() > 0 {
            assert(quoted.last() == link.last());
        } else {
            assert(quoted.last() == quotes[quotes.len() - 1]);
        }
    }
}

/// A text of nothing but quotation marks between blanks stands for no link.
pub proof fn law_nothing_is_no_link(
    blanks: Seq<char>,
    quotes: Seq<char>,
    more_blanks: Seq<char>,
)
    requires
        blank(blanks) && blank(more_blanks),
        forall|i: int| 0 <= i < quotes.len() ==> quote_mark(#[trigger] quotes[i]),
    ensures
        link_in(blanks + quotes + more_blanks) is None,
{
    let none = Seq::<char>::empty();
    lemma_quoted(none, quotes, none);
    assert(quotes + none + none =~= quotes);
    lemma_trimming_blanks(blanks, quotes, more_blanks);
}

/// The links of two lists, one after the other, are those of the first and then
/// those of the second; one text gives the link that it stands for, and none
/// where it stands for none.
pub proof fn law_links_keep_their_order(a: Seq<Seq<char>>, b: Seq<Seq<char>>, text: Seq<char>)
    ensures
        links_in(a + b) == links_in(a) + links_in(b),
        link_in(text) matches Some(link) ==> links_in(seq![text]) == seq![link],
        link_in(text) is None ==> links_in(seq![text]) == Seq::<Seq<char>>::empty(),
        links_in(Seq::empty()) == Seq::<Seq<char>>::empty(),
    decreases b.len(),
{
    let one = seq![text];
    assert(one.drop_last() =~= Seq::<Seq<char>>::empty());
    assert(one.last() == text);
    reveal_with_fuel(links_in, 2);
    if link_in(text) is Some {
        assert(links_in(one) =~= seq![link_in(text)->0]);
    }
    if b.len() == 0 {
        assert(a + b =~= a);
    } else {
        law_links_keep_their_order(a, b.drop_last(), text);
        assert((a + b).drop_last() =~= a + b.drop_last());
        assert((a + b).last() == b.last());
        assert(links_in(a + b) =~= links_in(a) + links_in(b));
    }
}

/// The lines of two lists, one after the other, are read one after the other; a
/// line is read without the blanks around it, and not at all where there is
/// nothing else in it.
pub proof fn law_lines_keep_their_order(
    a: Seq<Seq<char>>,
    b: Seq<Seq<char>>,
    text: Seq<char>,
    blanks: Seq<char>,
    more_blanks: Seq<char>,
)
    requires
        bare(text),
        blank(blanks) && blank(more_blanks),
    ensures
        lines_in(a + b) == lines_in(a) + lines_in(b),
        text.len() > 0 ==> lines_in(seq![blanks + text + more_blanks]) == seq![text],
        text.len() == 0 ==> lines_in(seq![blanks + text + more_blanks]) == Seq::<
            Seq<char>,
        >::empty(),
        lines_in(Seq::empty()) == Seq::<Seq<char>>::empty(),
    decreases b.len(),
{
    let one = seq![blanks + text + more_blanks];
    lemma_trimming_blanks(blanks, text, more_blanks);
    assert(one.drop_last() =~= Seq::<Seq<char>>::empty());
    assert(one.last() == blanks + text + more_blanks);
    reveal_with_fuel(lines_in, 2);
    if text.len() > 0 {
        assert(lines_in(one) =~= seq![text]);
    }
    if b.len() == 0 {
        assert(a + b =~= a);
    } else {
        law_lines_keep_their_order(a, b.drop_last(), text, blanks, more_blanks);
        assert((a + b).drop_last() =~= a + b.drop_last());
        assert((a + b).last() == b.last());
        assert(lines_in(a + b) =~= lines_in(a) + lines_in(b));
    }
}

/// The smaller of a number and the largest size there is.
pub open spec fn at_most(n: int) -> u64 {
    if n > u64::MAX {
        u64::MAX
    } else {
        n as u64
    }
}

/// What a letter behind a number multiplies it by, where it does: each unit is
/// 1024 of the one before it.
pub open spec fn multiplies(c: char, by: int) -> bool {
    ||| (c == 'k' || c == 'K') && by == 1024
    ||| (c == 'm' || c == 'M') && by == 1024 * 1024
    ||| (c == 'g' || c == 'G') && by == 1024 * 1024 * 1024
}

/// The character can belong to a unit.
pub open spec fn unit_letter(c: char) -> bool {
    seq!['k', 'K', 'm', 'M', 'g', 'G', 'b', 'B'].contains(c)
}

/// A size is a run of digits and a unit, which is a letter of either case, with
/// or without a "b" of either case behind it, with blanks around either: it is so
/// many times the unit, and never more than the largest size there is. Digits
/// alone count bytes.
pub proof fn law_sizes_are_numbers_of_units(
    digits: Seq<char>,
    n: nat,
    c: char,
    by: int,
    b: char,
    b1: Seq<char>,
    b2: Seq<char>,
    b3: Seq<char>,
)
    requires
        reads_as(digits, n as int),
        n <= 0x20_0000_0000_0000,
        multiplies(c, by),
        b == 'b' || b == 'B',
        blank(b1) && blank(b2) && blank(b3),
    ensures
        size_in(b1 + digits + b3) == SizeView::Bytes(n as u64),
        size_in(b1 + (digits + b2).push(c) + b3) == SizeView::Bytes(at_most(n * by)),
        size_in(b1 + (digits + b2).push(c).push(b) + b3) == SizeView::Bytes(at_most(n * by)),
{
    assert('0' <= digits[0] <= '9' && '0' <= digits[digits.len() - 1] <= '9');
    lemma_sizes(digits, c, by, b, b1, b2, b3);
    assert(all_digits(digits));
    assert(n * 1 == n) by (nonlinear_arith);
}

/// What stands before the unit is kept as it is where it is not such a number,
/// together with what the unit stands for.
pub proof fn law_other_numbers_are_kept(
    number: Seq<char>,
    c: char,
    by: int,
    b: char,
    b1: Seq<char>,
    b2: Seq<char>,
    b3: Seq<char>,
)
    requires
        number.len() > 0,
        bare(number),
        !unit_letter(number.last()),
        forall|n: int| reads_as(number, n) ==> n > 0x20_0000_0000_0000,
        multiplies(c, by),
        b == 'b' || b == 'B',
        blank(b1) && blank(b2) && blank(b3),
    ensures
        size_in(b1 + number + b3) == (SizeView::Scaled { number, multiplier: 1 }),
        size_in(b1 + (number + b2).push(c) + b3) == (SizeView::Scaled {
            number,
            multiplier: by as u64,
        }),
        size_in(b1 + (number + b2).push(c).push(b) + b3) == (SizeView::Scaled {
            number,
            multiplier: by as u64,
        }),
{
    lemma_sizes(number, c, by, b, b1, b2, b3);
    if all_digits(number) {
        assert forall|i: int| 0 <= i < number.len() implies '0' <= #[trigger] number[i]
            <= '9' by {
            assert(is_digit(number[i]));
        }
        assert(reads_as(number, digits_value(number) as int));
    }
}

/// Whatever stands before the unit, it is found, and so is the unit.
proof fn lemma_sizes(
    number: Seq<char>,
    c: char,
    by: int,
    b: char,
    b1: Seq<char>,
    b2: Seq<char>,
    b3: Seq<char>,
)
    requires
        number.len() > 0,
        bare(number),
        !unit_letter(number.last()),
        multiplies(c, by),
        b == 'b' || b == 'B',
        blank(b1) && blank(b2) && blank(b3),
    ensures
        number_in(b1 + number + b3) == number,
        unit_at_end(trimmed(b1 + number + b3)) == (0int, 1u64),
        number_in(b1 + (number + b2).push(c) + b3) == number,
        unit_at_end(trimmed(b1 + (number + b2).push(c) + b3)) == (1int, by as u64),
        number_in(b1 + (number + b2).push(c).push(b) + b3) == number,
        unit_at_end(trimmed(b1 + (number + b2).push(c).push(b) + b3)) == (2int, by as u64),
{
    let none = Seq::<char>::empty();
    let letters = seq!['k', 'K', 'm', 'M', 'g', 'G', 'b', 'B'];
    assert(letters[0] == 'k' && letters[1] == 'K' && letters[2] == 'm' && letters[3] == 'M');
    assert(letters[4] == 'g' && letters[5] == 'G' && letters[6] == 'b' && letters[7] == 'B');
    lemma_trimming_blanks(b1, number, b3);
    assert(number.take(number.len() as int) =~= number);
    lemma_trimming_blanks(none, number, none);
    assert(none + number + none =~= number);
    let padded = number + b2;
    lemma_trimming_blanks(none, number, b2);
    assert(none + number + b2 =~= padded);
    let short = padded.push(c);
    let long = short.push(b);
    assert(short[0] == number[0] && long[0] == number[0]);
    lemma_trimming_blanks(b1, short, b3);
    lemma_trimming_blanks(b1, long, b3);
    assert(short.take(short.len() - 1) =~= padded);
    assert(long[long.len() - 2] == c);
    assert(long.take(long.len() - 2) =~= padded);
    assert(unit(c) == Some(by as u64));
}

/// What the user is told of a text that is no size holds the whole of it, but
/// for the blanks around it.
pub proof fn law_bad_sizes_are_shown(text: Seq<char>, blanks: Seq<char>, more_blanks: Seq<char>)
    requires
        bare(text),
        blank(blanks) && blank(more_blanks),
    ensures
        size_error_in(blanks + text + more_blanks) == "无效的大小格式: "@ + text,
{
    lemma_trimming_blanks(blanks, text, more_blanks);
}

/// The value of a size tells how many bytes it is, or which number times which
/// unit.
pub proof fn law_values_of_sizes(size: Size)
    ensures
        size matches Size::Bytes(n) ==> size@ == SizeView::Bytes(n),
        size is Scaled ==> size@ is Scaled && size@->number == size->number@
            && size@->multiplier == size->multiplier,
{
}

} // verus!
