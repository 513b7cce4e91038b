//! Header lines and credentials as users write them.
use crate::text::{
    ascii_lowered, law_stripping_leaves_the_middle, law_texts_are_cut_at_the_first, opt_text,
    split_at_first, split_once, texts, trim, trimmed, white_space, CharClass,
};
use vstd::prelude::*;

verus! {

/// The characters of which the name of a header consists.
pub open spec fn name_char(c: char) -> bool {
    ||| '0' <= c <= '9'
    ||| 'A' <= c <= 'Z'
    ||| 'a' <= c <= 'z'
    ||| '#' <= c <= '\''
    ||| '^' <= c <= '`'
    ||| c == '!'
    ||| c == '*'
    ||| c == '+'
    ||| c == '-'
    ||| c == '.'
    ||| c == '|'
    ||| c == '~'
}

/// `s` can be the name of a header.
pub open spec fn is_header_name(s: Seq<char>) -> bool {
    0 < s.len() <= 65535 && forall|i: int| 0 <= i < s.len() ==> name_char(#[trigger] s[i])
}

/// `s` can be the value of a header: it holds no control character but tabs.
pub open spec fn is_header_value(s: Seq<char>) -> bool {
    forall|i: int|
        0 <= i < s.len() ==> (#[trigger] s[i]) == '\t' || (s[i] >= ' ' && s[i] != '\u{7f}')
}

/// Calls `HeaderName::from_bytes` of the `http` crate, which `reqwest` hands
/// on. Trusted: it accepts exactly the texts of 1 to 65535 characters that
/// [`name_char`] admits, and gives the name in lower case.
#[verifier::external_body]
fn header_name(text: &str) -> (r: Option<String>)
    ensures
        match r {
            Some(name) => is_header_name(text@) && name@ == ascii_lowered(text@),
            None => !is_header_name(text@),
        },
{
    match reqwest::header::HeaderName::from_bytes(text.as_bytes()) {
        Ok(name) => Some(name.as_str().to_owned()),
        Err(_) => None,
    }
}

/// Calls `HeaderValue::from_str` of the `http` crate, which `reqwest` hands on.
/// Trusted: it accepts exactly the texts without control characters, tabs
/// excepted.
#[verifier::external_body]
fn header_value_ok(text: &str) -> (ok: bool)
    ensures
        ok == is_header_value(text@),
{
    reqwest::header::HeaderValue::from_str(text).is_ok()
}

/// One header of a request.
#[derive(Debug)]
pub struct HeaderLine {
    pub name: String,
    pub value: String,
}

/// The value of a [`HeaderLine`].
pub struct HeaderView {
    pub name: Seq<char>,
    pub value: Seq<char>,
}

impl View for HeaderLine {
    type V = HeaderView;

    open spec fn view(&self) -> HeaderView {
        HeaderView { name: self.name@, value: self.value@ }
    }
}

/// The values of a list of headers.
pub open spec fn header_views(lines: Seq<HeaderLine>) -> Seq<HeaderView> {
    lines.map_values(|line: HeaderLine| line@)
}

/// The header that the text "Key: Value" stands for, where it stands for one.
pub open spec fn header_in(text: Seq<char>) -> Option<HeaderView> {
    match split_at_first(text, ':') {
        Some((k, v)) => if is_header_name(trimmed(k)) && is_header_value(trimmed(v)) {
            Some(HeaderView { name: ascii_lowered(trimmed(k)), value: trimmed(v) })
        } else {
            None
        },
        None => None,
    }
}

/// The headers that a list of texts stands for; texts that stand for none are
/// passed over.
pub open spec fn headers_in(list: Seq<Seq<char>>) -> Seq<HeaderView>
    decreases list.len(),
{
    if list.len() == 0 {
        Seq::empty()
    } else {
        match header_in(list.last()) {
            Some(line) => headers_in(list.drop_last()).push(line),
            None => headers_in(list.drop_last()),
        }
    }
}

/// The headers of two lists one after the other are those of the first, then
/// those of the second: a text that stands for no header does not affect the
/// others.
pub proof fn law_headers_are_independent(a: Seq<Seq<char>>, b: Seq<Seq<char>>)
    ensures
        headers_in(a + b) == headers_in(a) + headers_in(b),
    decreases b.len(),
{
    if b.len() == 0 {
        assert(a + b =~= a);
    } else {
        law_headers_are_independent(a, b.drop_last());
        assert((a + b).drop_last() =~= a + b.drop_last());
        assert((a + b).last() == b.last());
    }
}

/// Reads one header line.
fn read_header(text: &str) -> (r: Option<HeaderLine>)
    ensures
        match r {
            Some(line) => header_in(text@) == Some(line@),
            None => header_in(text@) is None,
        },
{
    match split_once(text, ':') {
        Some((k, v)) => {
            let value = trim(v);
            match header_name(trim(k)) {
                Some(name) => if header_value_ok(value) {
                    Some(HeaderLine { name, value: value.to_owned() })
                } else {
                    None
                },
                None => None,
            }
        },
        None => None,
    }
}

/// The headers that a list of "Key: Value" texts stands for.
pub fn custom_headers(list: &Vec<String>) -> (lines: Vec<HeaderLine>)
    ensures
        header_views(lines@) == headers_in(texts(list@)),
{
    let mut lines: Vec<HeaderLine> = Vec::new();
    let ghost all = texts(list@);
    let mut i: usize = 0;
    assert(all.take(0) =~= Seq::<Seq<char>>::empty());
    assert(header_views(lines@) =~= headers_in(all.take(0)));
    while i < list.len()
        invariant
            all == texts(list@),
            i <= list.len(),
            header_views(lines@) == headers_in(all.take(i as int)),
        decreases list.len() - i,
    {
        let ghost so_far = lines@;
        let read = read_header(list[i].as_str());
        proof {
            assert(all.take(i + 1).drop_last() =~= all.take(i as int));
            assert(all.take(i + 1).last() == list@[i as int]@);
        }
        if let Some(line) = read {
            lines.push(line);
            assert(header_views(lines@) =~= header_views(so_far).push(line@));
        }
        i += 1;
    }
    assert(all.take(i as int) =~= all);
    lines
}

// ---------------------------------------------------------------------------
// One header to a name
// ---------------------------------------------------------------------------
/// No later header has the name of header `i`.
pub open spec fn is_last_of_name(list: Seq<HeaderView>, i: int) -> bool {
    forall|j: int| i < j < list.len() ==> (#[trigger] list[j]).name != list[i].name
}

/// Of the first `n` headers, those whose name no later header has.
pub open spec fn kept(list: Seq<HeaderView>, n: int) -> Seq<HeaderView>
    decreases n,
{
    if n <= 0 {
        Seq::empty()
    } else if is_last_of_name(list, n - 1) {
        kept(list, n - 1).push(list[n - 1])
    } else {
        kept(list, n - 1)
    }
}

/// The headers without those whose name a later one has.
pub open spec fn last_of_each_name(list: Seq<HeaderView>) -> Seq<HeaderView> {
    kept(list, list.len() as int)
}

/// The headers without those whose name a later one has: where a header is
/// given twice, the last counts.
pub fn last_headers(lines: &Vec<HeaderLine>) -> (r: Vec<HeaderLine>)
    ensures
        header_views(r@) == last_of_each_name(header_views(lines@)),
{
    let mut r: Vec<HeaderLine> = Vec::new();
    let ghost list = header_views(lines@);
    let n: usize = lines.len();
    let mut i: usize = 0;
    assert(header_views(r@) =~= kept(list, 0));
    while i < n
        invariant
            n == lines.len(),
            list == header_views(lines@),
            i <= n,
            header_views(r@) == kept(list, i as int),
        decreases n - i,
    {
        let mut last = true;
        let mut j: usize = i + 1;
        while j < n && last
            invariant
                n == lines.len(),
                list == header_views(lines@),
                i < j <= n,
                last ==> forall|k: int| i < k < j ==> (#[trigger] list[k]).name != list[i as int].name,
                !last ==> !is_last_of_name(list, i as int),
            decreases n - j,
        {
            if lines[j].name == lines[i].name {
                assert(list[j as int].name == list[i as int].name);
                last = false;
            } else {
                assert(list[j as int].name != list[i as int].name);
            }
            j += 1;
        }
        if last {
            let ghost so_far = r@;
            let line = HeaderLine { name: lines[i].name.clone(), value: lines[i].value.clone() };
            r.push(line);
            assert(header_views(r@) =~= header_views(so_far).push(line@));
            assert(line@ == list[i as int]);
        }
        i += 1;
    }
    r
}

/// Every name keeps exactly one header, the last that was given with it.
pub proof fn law_last_header_counts(list: Seq<HeaderView>)
    ensures
        forall|i: int, j: int|
            0 <= i < j < last_of_each_name(list).len() ==> (#[trigger] last_of_each_name(list)[i]).name
                != (#[trigger] last_of_each_name(list)[j]).name,
        forall|i: int|
            0 <= i < list.len() && #[trigger] is_last_of_name(list, i) ==> last_of_each_name(
                list,
            ).contains(list[i]),
{
    lemma_kept(list, list.len() as int);
}

/// The header is one of the first `n`, and the last of its name.
spec fn last_among(list: Seq<HeaderView>, n: int, line: HeaderView) -> bool {
    exists|k: int| 0 <= k < n && #[trigger] is_last_of_name(list, k) && line == list[k]
}

proof fn lemma_kept(list: Seq<HeaderView>, n: int)
    requires
        0 <= n <= list.len(),
    ensures
        forall|i: int, j: int|
            0 <= i < j < kept(list, n).len() ==> (#[trigger] kept(list, n)[i]).name != (
            #[trigger] kept(list, n)[j]).name,
        forall|i: int|
            0 <= i < kept(list, n).len() ==> last_among(list, n, #[trigger] kept(list, n)[i]),
        forall|k: int|
            0 <= k < n && #[trigger] is_last_of_name(list, k) ==> kept(list, n).contains(list[k]),
    decreases n,
{
    if n > 0 {
        lemma_kept(list, n - 1);
        let before = kept(list, n - 1);
        let now = kept(list, n);
        assert forall|i: int| 0 <= i < now.len() implies last_among(list, n, #[trigger] now[i]) by {
            if i < before.len() {
                assert(now[i] == before[i]);
                assert(last_among(list, n - 1, before[i]));
            } else {
                assert(is_last_of_name(list, n - 1) && now[i] == list[n - 1]);
            }
        }
        if is_last_of_name(list, n - 1) {
            assert(now.last() == list[n - 1]);
            assert forall|i: int, j: int| 0 <= i < j < now.len() implies (#[trigger] now[i]).name
                != (#[trigger] now[j]).name by {
                assert(now[i] == before[i]);
                if j < before.len() {
                    assert(now[j] == before[j]);
                } else {
                    assert(last_among(list, n - 1, before[i]));
                    let k = choose|k: int|
                        0 <= k < n - 1 && #[trigger] is_last_of_name(list, k) && before[i] == list[k];
                    assert(list[n - 1].name != list[k].name);
                }
            }
            assert forall|k: int| 0 <= k < n && #[trigger] is_last_of_name(list, k) implies now.contains(
                list[k],
            ) by {
                if k < n - 1 {
                    let i = choose|i: int| 0 <= i < before.len() && before[i] == list[k];
                    assert(now[i] == list[k]);
                } else {
                    assert(now[now.len() - 1] == list[k]);
                }
            }
        }
    }
}

// ---------------------------------------------------------------------------
// Credentials
// ---------------------------------------------------------------------------
/// The user and the password of "user:password".
pub open spec fn credentials_in(auth: Option<Seq<char>>) -> Option<(Seq<char>, Seq<char>)> {
    match auth {
        Some(text) => split_at_first(text, ':'),
        None => None,
    }
}

/// The value of an optional pair of texts.
pub open spec fn opt_pair(pair: Option<(String, String)>) -> Option<(Seq<char>, Seq<char>)> {
    match pair {
        Some((a, b)) => Some((a@, b@)),
        None => None,
    }
}

/// The user and the password of "user:password"; the password begins after the
/// first colon. `None` where there is no colon.
pub fn credentials(auth: &Option<String>) -> (pair: Option<(String, String)>)
    ensures
        opt_pair(pair) == credentials_in(opt_text(*auth)),
{
    match auth {
        Some(text) => match split_once(text.as_str(), ':') {
            Some((user, password)) => Some((user.to_owned(), password.to_owned())),
            None => None,
        },
        None => None,
    }
}

/// All of `s` is white space.
pub open spec fn blank(s: Seq<char>) -> bool {
    forall|i: int| 0 <= i < s.len() ==> white_space(#[trigger] s[i])
}

/// `s` neither begins nor ends with white space.
pub open spec fn bare(s: Seq<char>) -> bool {
    s.len() > 0 ==> !white_space(s[0]) && !white_space(s.last())
}

/// What is left of a bare text between blanks, when it is trimmed, is the text.
pub(crate) proof fn lemma_trimming_blanks(a: Seq<char>, s: Seq<char>, b: Seq<char>)
    requires
        blank(a),
        bare(s),
        blank(b),
    ensures
        trimmed(a + s + b) == s,
{
    assert forall|i: int| 0 <= i < a.len() implies CharClass::WhiteSpace.has(#[trigger] a[i]) by {
        assert(white_space(a[i]));
    }
    assert forall|i: int| 0 <= i < b.len() implies CharClass::WhiteSpace.has(#[trigger] b[i]) by {
        assert(white_space(b[i]));
    }
    law_stripping_leaves_the_middle(a, s, b, CharClass::WhiteSpace);
}

/// A header line is a name, a colon and a value, with blanks around either: the
/// header has the name in lower case and the whole of the value, colons and all.
/// A line whose name or value cannot stand in a header gives none, and neither
/// does one without a colon.
pub proof fn law_header_lines_are_read(
    name: Seq<char>,
    value: Seq<char>,
    b1: Seq<char>,
    b2: Seq<char>,
    b3: Seq<char>,
    b4: Seq<char>,
)
    requires
        bare(name),
        bare(value),
        blank(b1) && blank(b2) && blank(b3) && blank(b4),
        !name.contains(':'),
    ensures
        header_in((b1 + name + b2).push(':') + (b3 + value + b4)) == (if is_header_name(name)
            && is_header_value(value) {
            Some(HeaderView { name: ascii_lowered(name), value })
        } else {
            None
        }),
        header_in(b1 + name + b2) is None,
{
    let k = b1 + name + b2;
    let v = b3 + value + b4;
    assert(!k.contains(':')) by {
        if k.contains(':') {
            let i = choose|i: int| 0 <= i < k.len() && k[i] == ':';
            if i < b1.len() {
                assert(white_space(b1[i]));
            } else if i < b1.len() + name.len() {
                assert(name.contains(name[i - b1.len()]));
            } else {
                assert(white_space(b2[i - b1.len() - name.len()]));
            }
        }
    }
    law_texts_are_cut_at_the_first(k, ':', v);
    lemma_trimming_blanks(b1, name, b2);
    lemma_trimming_blanks(b3, value, b4);
}

/// One line gives the header that it stands for and no other; no lines give
/// none.
pub proof fn law_one_line_gives_one_header(text: Seq<char>)
    ensures
        headers_in(Seq::empty()) == Seq::<HeaderView>::empty(),
        header_in(text) matches Some(line) ==> headers_in(seq![text]) == seq![line],
        header_in(text) is None ==> headers_in(seq![text]) == Seq::<HeaderView>::empty(),
{
    let one = seq![text];
    assert(one.drop_last() =~= Seq::<Seq<char>>::empty());
    assert(one.last() == text);
    reveal_with_fuel(headers_in, 2);
    if header_in(text) is Some {
        assert(headers_in(one) =~= seq![header_in(text)->0]);
    }
}

/// Of the headers that are kept, each was given, and of its name no later one
/// was; what was given first comes first.
pub proof fn law_kept_headers_were_given(list: Seq<HeaderView>) -> (places: Seq<int>)
    ensures
        places.len() == last_of_each_name(list).len(),
        forall|i: int|
            0 <= i < places.len() ==> {
                &&& 0 <= #[trigger] places[i] < list.len()
                &&& last_of_each_name(list)[i] == list[places[i]]
                &&& forall|j: int|
                    places[i] < j < list.len() ==> (#[trigger] list[j]).name != list[places[i]].name
            },
        forall|i: int, j: int| 0 <= i < j < places.len() ==> places[i] < places[j],
        forall|k: int|
            0 <= k < list.len() && !places.contains(k) ==> exists|j: int|
                k < j < list.len() && (#[trigger] list[j]).name == (#[trigger] list[k]).name,
{
    let places = lemma_kept_places(list, list.len() as int);
    assert forall|k: int| 0 <= k < list.len() && !places.contains(k) implies exists|j: int|
        k < j < list.len() && (#[trigger] list[j]).name == (#[trigger] list[k]).name by {
        assert(!is_last_of_name(list, k));
    }
    places
}

proof fn lemma_kept_places(list: Seq<HeaderView>, n: int) -> (places: Seq<int>)
    requires
        0 <= n <= list.len(),
    ensures
        places.len() == kept(list, n).len(),
        forall|i: int|
            0 <= i < places.len() ==> {
                &&& 0 <= #[trigger] places[i] < n
                &&& kept(list, n)[i] == list[places[i]]
                &&& is_last_of_name(list, places[i])
            },
        forall|i: int, j: int| 0 <= i < j < places.len() ==> places[i] < places[j],
        forall|k: int| 0 <= k < n && !places.contains(k) ==> !#[trigger] is_last_of_name(list, k),
    decreases n,
{
    if n <= 0 {
        Seq::empty()
    } else {
        let before = lemma_kept_places(list, n - 1);
        if is_last_of_name(list, n - 1) {
            let places = before.push(n - 1);
            assert forall|i: int| 0 <= i < places.len() implies {
                &&& 0 <= #[trigger] places[i] < n
                &&& kept(list, n)[i] == list[places[i]]
                &&& is_last_of_name(list, places[i])
            } by {
                if i < before.len() {
                    assert(places[i] == before[i]);
                }
            }
            assert forall|k: int| 0 <= k < n && !places.contains(k) implies !#[trigger] is_last_of_name(
                list,
                k,
            ) by {
                assert(places[before.len() as int] == n - 1);
                if before.contains(k) {
                    let i = choose|i: int| 0 <= i < before.len() && before[i] == k;
                    assert(places[i] == k);
                }
            }
            places
        } else {
            before
        }
    }
}

/// Credentials are a user and a password with a colon between them, and the
/// password may hold colons of its own. Without a colon there are none.
pub proof fn law_credentials_are_user_and_password(user: Seq<char>, password: Seq<char>)
    requires
        !user.contains(':'),
    ensures
        credentials_in(Some(user.push(':') + password)) == Some((user, password)),
        credentials_in(Some(user)) is None,
        credentials_in(None) is None,
{
    law_texts_are_cut_at_the_first(user, ':', password);
}

/// The value of a list of headers has the name and the value of each, in its
/// place.
pub proof fn law_header_values(lines: Seq<HeaderLine>, i: int, pair: Option<(String, String)>)
    requires
        0 <= i < lines.len(),
    ensures
        header_views(lines).len() == lines.len(),
        header_views(lines)[i].name == lines[i].name@,
        header_views(lines)[i].value == lines[i].value@,
        pair matches Some((a, b)) ==> opt_pair(pair) == Some((a@, b@)),
        pair is None ==> opt_pair(pair) is None,
{
}

/// A name of a header is made of ASCII letters and digits and fifteen marks, and
/// has at least one character and at most 65535. A value may hold anything but
/// control characters, of which it may hold the tab.
pub proof fn law_characters_of_headers(s: Seq<char>, c: char)
    ensures
        name_char(c) <==> 'a' <= c <= 'z' || 'A' <= c <= 'Z' || '0' <= c <= '9'
            || "!#$%&'*+-.^_`|~"@.contains(c),
        is_header_name(s) <==> 1 <= s.len() < 0x10000 && forall|i: int|
            0 <= i < s.len() ==> name_char(#[trigger] s[i]),
        is_header_value(s) <==> forall|i: int|
            0 <= i < s.len() ==> (#[trigger] s[i] as int) == 9 || s[i] as int >= 32 && s[i] as int
                != 127,
{
    reveal_strlit("!#$%&'*+-.^_`|~");
    let marks = "!#$%&'*+-.^_`|~"@;
    assert(marks.len() == 15);
    assert(marks[0] == '!' && marks[1] == '#' && marks[2] == '$' && marks[3] == '%');
    assert(marks[4] == '&' && marks[5] == '\'' && marks[6] == '*' && marks[7] == '+');
    assert(marks[8] == '-' && marks[9] == '.' && marks[10] == '^' && marks[11] == '_');
    assert(marks[12] == '`' && marks[13] == '|' && marks[14] == '~');
    if is_header_value(s) {
        assert forall|i: int| 0 <= i < s.len() implies (#[trigger] s[i] as int) == 9
            || s[i] as int >= 32 && s[i] as int != 127 by {}
    }
    if forall|i: int|
        0 <= i < s.len() ==> (#[trigger] s[i] as int) == 9 || s[i] as int >= 32 && s[i] as int
            != 127 {
        assert forall|i: int| 0 <= i < s.len() implies (#[trigger] s[i]) == '\t' || (s[i] >= ' '
            && s[i] != '\u{7f}') by {
            assert(s[i] as int == 9 || s[i] as int >= 32 && s[i] as int != 127);
        }
    }
}

} // verus!
