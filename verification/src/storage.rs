//! Where the state of a download stands: in a file beside the downloaded one.
use crate::text::{after_last, chars_after, joined, lemma_after_last, opt_text};
use vstd::prelude::*;

verus! {

// ---------------------------------------------------------------------------
// Paths
// ---------------------------------------------------------------------------
/// A character that separates the parts of a path, on one platform or another.
pub open spec fn separator(c: char) -> bool {
    c == '/' || c == '\\'
}

/// The text begins as one that names a drive does: with a letter and a colon.
pub open spec fn names_drive(text: Seq<char>) -> bool {
    text.len() >= 2 && text[1] == ':' && ('a' <= text[0] <= 'z' || 'A' <= text[0] <= 'Z')
}

/// A path that means the same on Linux, macOS and Windows: nothing in it is a
/// separator on some of them alone, and it begins neither with a drive nor as the
/// name of a share does.
pub open spec fn portable(path: Seq<char>) -> bool {
    &&& !path.contains('\\')
    &&& !names_drive(path)
    &&& !(path.len() >= 2 && path[0] == '/' && path[1] == '/')
}

/// A text that names a file, or a directory, and nothing else.
pub open spec fn plain_name(name: Seq<char>) -> bool {
    &&& name.len() > 0
    &&& !name.contains('/')
    &&& !name.contains('\\')
    &&& !names_drive(name)
    &&& name != "."@
    &&& name != ".."@
}

/// How many characters stand after the last separator of a path; the length of
/// the path where it has none.
pub open spec fn last_part_len(path: Seq<char>) -> int
    decreases path.len(),
{
    if path.len() == 0 || separator(path.last()) {
        0
    } else {
        1 + last_part_len(path.drop_last())
    }
}

/// The last part lies within the path and holds no separator.
pub proof fn lemma_last_part_len(path: Seq<char>)
    ensures
        0 <= last_part_len(path) <= path.len(),
        forall|i: int| path.len() - last_part_len(path) <= i < path.len() ==> !separator(path[i]),
    decreases path.len(),
{
    if path.len() > 0 && !separator(path.last()) {
        lemma_last_part_len(path.drop_last());
        assert forall|i: int|
            path.len() - last_part_len(path) <= i < path.len() implies !separator(path[i]) by {
            if i < path.len() - 1 {
                assert(path.drop_last()[i] == path[i]);
            }
        }
    }
}

/// The parts of a path, in order. Separators that follow one another count as
/// one, one at the end does not count, and a dot alone is a part only where the
/// path begins with it.
pub open spec fn parts(path: Seq<char>) -> Seq<Seq<char>>
    decreases path.len(),
{
    proof {
        lemma_last_part_len(path);
    }
    let n = last_part_len(path);
    let last = path.skip(path.len() - n);
    if n == path.len() {
        if n == 0 {
            Seq::empty()
        } else {
            seq![last]
        }
    } else {
        let before = parts(path.take(path.len() - n - 1));
        if n == 0 || last == "."@ {
            before
        } else {
            before.push(last)
        }
    }
}

/// The path begins at the root.
pub open spec fn rooted(path: Seq<char>) -> bool {
    path.len() > 0 && separator(path[0])
}

/// The name of the file that a path leads to: its last part, unless that leads
/// up, or the path has no other part than the dot it begins with.
pub open spec fn name_in(path: Seq<char>) -> Option<Seq<char>> {
    let parts = parts(path);
    if parts.len() == 0 || parts.last() == "."@ || parts.last() == ".."@ {
        None
    } else {
        Some(parts.last())
    }
}

/// `path` is `name` alone, or the front of `other`, as it is written there, with
/// `name` behind a separator. Behind the root, it is the root's own.
pub open spec fn keeps_front(path: Seq<char>, other: Seq<char>, name: Seq<char>) -> bool {
    ||| path == name
    ||| exists|k: int, c: char|
        0 <= k < other.len() && separator(c) && (k == 0 ==> c == other[0]) && path == (
        #[trigger] other.take(k).push(c)) + name
}

/// `path` leads to the file `name` in the directory of the file that `other`
/// leads to, and that directory is written as it is there.
pub open spec fn beside(path: Seq<char>, other: Seq<char>, name: Seq<char>) -> bool {
    &&& rooted(path) == rooted(other)
    &&& parts(path) == parts(other).drop_last().push(name)
    &&& keeps_front(path, other, name)
}

/// What stands behind the last separator of a name.
pub open spec fn name_end(name: Seq<char>) -> Seq<char> {
    name.skip(name.len() - last_part_len(name))
}

/// `s` ends with `end`.
pub open spec fn ends_with(s: Seq<char>, end: Seq<char>) -> bool {
    end.len() <= s.len() && s.skip(s.len() - end.len()) == end
}

/// A portable path that is written without detours: it ends with the plain name
/// of a file, no separator follows another, and no dot stands alone right before
/// the name, unless the path begins with it.
pub open spec fn straight(path: Seq<char>) -> bool {
    let front = path.len() - last_part_len(path);
    &&& portable(path)
    &&& plain_name(name_end(path))
    &&& forall|i: int|
        0 < i < path.len() && separator(#[trigger] path[i]) ==> !separator(path[i - 1])
    &&& front >= 3 ==> !(path[front - 2] == '.' && separator(path[front - 3]))
}

/// `path` is the straight path `other` with the name `name` in place of its own.
/// The separator before the name may be another one, unless it is the root.
pub open spec fn renamed(path: Seq<char>, other: Seq<char>, name: Seq<char>) -> bool {
    let front = other.len() - last_part_len(other);
    if front == 0 {
        path == name
    } else {
        exists|c: char|
            separator(c) && (front == 1 ==> c == other[0]) && path == (#[trigger] other.take(
                front - 1,
            ).push(c)) + name
    }
}

/// The path begins as the name of a share does, with two separators.
pub open spec fn names_share(path: Seq<char>) -> bool {
    path.len() >= 2 && separator(path[0]) && separator(path[1])
}

/// The path leads into a share: behind the names of a server and of a share, two
/// more separators stand. A question mark or a dot in front would make it another
/// kind of path.
pub open spec fn within_share(path: Seq<char>) -> bool {
    &&& names_share(path)
    &&& path.len() >= 3 && !separator(path[2]) && path[2] != '?' && path[2] != '.'
    &&& exists|i: int, j: int|
        3 <= i < j < path.len() && separator(#[trigger] path[i]) && separator(#[trigger] path[j])
}

/// A path, of whatever platform, that ends in a name: behind the last separator
/// stands a plain one, which is not that of a share.
pub open spec fn ends_in_a_name(path: Seq<char>) -> bool {
    plain_name(name_end(path)) && (names_share(path) ==> within_share(path))
}

/// A drive, and right behind it a plain name.
pub open spec fn on_drive(path: Seq<char>) -> bool {
    names_drive(path) && plain_name(path.skip(2))
}

/// The path leads to a file, on every platform.
pub open spec fn leads_to_a_file(path: Seq<char>) -> bool {
    ends_in_a_name(path) || portable(path) && name_in(path) is Some
}

/// A path that ends in a name and is written without detours: no separator
/// follows another, and no dot stands alone between two.
pub open spec fn direct(path: Seq<char>) -> bool {
    &&& ends_in_a_name(path)
    &&& forall|i: int|
        0 < i < path.len() && separator(#[trigger] path[i]) ==> !separator(path[i - 1])
    &&& forall|i: int|
        2 <= i < path.len() && separator(#[trigger] path[i]) && path[i - 1] == '.' ==> !separator(
            path[i - 2],
        )
}

/// `sibling` is `name` where it stands for itself, or the direct path `path` with
/// `name` in place of its own name: of what stands behind the last slash, or
/// behind the last separator.
pub open spec fn in_place(sibling: Seq<char>, path: Seq<char>, name: Seq<char>) -> bool {
    ||| sibling == name
    ||| sibling == path.take(path.len() - after_last(path, '/').len()) + name
    ||| renamed(sibling, path, name)
}

/// `piece` stands somewhere in `s`.
pub open spec fn piece_of(piece: Seq<char>, s: Seq<char>) -> bool {
    exists|i: int|
        0 <= i <= s.len() - piece.len() && #[trigger] s.subrange(i, i + piece.len()) == piece
}

/// Calls `std::path::Path::file_name`. Trusted: of a path that means the same on
/// Linux, macOS and Windows, the name is that of the last part, and there is none
/// where that leads up, or is the dot that the path begins with. How another path
/// is taken apart depends on the platform: where it ends in a name, that is what
/// stands behind its last slash, or behind its last separator; where it is a name
/// on a drive, the drive belongs to the name or does not; otherwise it is only said
/// that the name is a piece of the path, and not an empty one.
#[verifier::external_body]
fn file_name(path: &str) -> (name: Option<String>)
    ensures
        portable(path@) ==> opt_text(name) == name_in(path@),
        ends_in_a_name(path@) ==> {
            ||| opt_text(name) == Some(after_last(path@, '/'))
            ||| opt_text(name) == Some(name_end(path@))
        },
        on_drive(path@) ==> opt_text(name) == Some(path@) || opt_text(name) == Some(path@.skip(2)),
        name matches Some(name) ==> name@.len() > 0 && piece_of(name@, path@),
{
    std::path::Path::new(path).file_name().map(|name| name.to_string_lossy().into_owned())
}

/// Calls `std::path::Path::with_file_name`. Trusted: of a path that means the
/// same on Linux, macOS and Windows and leads to a file, the result leads to the
/// named file in the same directory, and that is written as it is in the path.
/// Of a straight one, nothing but the name changes, and the separator before it.
/// Which separator that is depends on the platform. Of a direct path, of whatever
/// platform, what stands behind its last slash or its last separator is replaced by
/// the name; or the name stands alone, where the platform takes it for a path of its
/// own. Of a path that leads to a file on every platform, the last separator of the
/// result is the one before the name, or that of the name; of every path, the result
/// ends with what stands behind the separators of the name. Where nothing stands
/// behind them, or dots alone, nothing is said.
#[verifier::external_body]
fn with_file_name(path: &str, name: &str) -> (sibling: String)
    ensures
        portable(path@) && plain_name(name@) && name_in(path@) is Some ==> beside(
            sibling@,
            path@,
            name@,
        ),
        straight(path@) && plain_name(name@) ==> renamed(sibling@, path@, name@),
        direct(path@) && name@.len() > 0 && name@[0] != '/' && (names_drive(path@) ==> !separator(
            name@[0],
        )) ==> in_place(sibling@, path@, name@),
        leads_to_a_file(path@) && name_end(name@).len() > 2 ==> name_end(sibling@) == name_end(
            name@,
        ),
        name_end(name@).len() > 2 ==> ends_with(sibling@, name_end(name@)),
{
    std::path::Path::new(path).with_file_name(name).to_string_lossy().into_owned()
}

// ---------------------------------------------------------------------------
// The file beside the file
// ---------------------------------------------------------------------------
/// The name of the file that holds the state of the download of the file
/// `name`.
pub open spec fn meta_name(name: Seq<char>) -> Seq<char> {
    name + ".meta"@
}

/// The name of the file that holds the state of the download of the file
/// `name`.
pub fn meta_file_name(name: &str) -> (r: String)
    ensures
        r@ == meta_name(name@),
{
    joined(name, ".meta")
}

/// The files of downloads.
#[derive(Debug, Clone, Copy)]
pub struct FileManager;

impl FileManager {
    /// The path of the file that holds the state of a download to `path`: the
    /// path with ".meta" behind it. It leads to the same directory. A path that
    /// leads to no file stays as it is. How a path that is not [`portable`] is
    /// taken apart depends on the platform, and so it does where the name of the
    /// file would name a drive. Where such a path ends in a name, its state file,
    /// too, has that name with ".meta" behind it, and where it is direct, it takes
    /// the place of the name.
    pub fn get_meta_path(path: &str) -> (meta_path: String)
        ensures
            portable(path@) ==> match name_in(path@) {
                Some(name) => !names_drive(name) ==> beside(meta_path@, path@, meta_name(name)),
                None => meta_path@ == path@,
            },
            straight(path@) ==> renamed(meta_path@, path@, meta_name(name_end(path@))),
            portable(path@) && name_in(path@) is Some ==> name_end(meta_path@) == meta_name(
                name_in(path@)->0,
            ),
            ends_in_a_name(path@) ==> name_end(meta_path@) == meta_name(name_end(path@)),
            on_drive(path@) ==> ends_with(meta_path@, meta_name(path@.skip(2))),
            direct(path@) ==> {
                ||| in_place(meta_path@, path@, meta_name(after_last(path@, '/')))
                ||| in_place(meta_path@, path@, meta_name(name_end(path@)))
            },
            meta_path@ == path@ || named_after(meta_path@, path@),
    {
        proof {
            if straight(path@) {
                lemma_straight_paths_end_with_their_name(path@);
            }
        }
        match file_name(path) {
            Some(name) => {
                proof {
                    if portable(path@) && !names_drive(name@) {
                        lemma_meta_name_is_plain(path@);
                    }
                    lemma_meta_name_end(name@);
                    if ends_in_a_name(path@) {
                        lemma_names_of_a_path(path@);
                    }
                    if portable(path@) {
                        lemma_parts_are_clean(path@);
                        let own = parts(path@)[parts(path@).len() - 1];
                        lemma_no_separators(own);
                    }
                }
                let meta_path = with_file_name(path, meta_file_name(name.as_str()).as_str());
                proof {
                    if on_drive(path@) {
                        lemma_name_on_drive(path@, name@, meta_path@);
                    }
                }
                meta_path
            },
            None => path.to_owned(),
        }
    }
}

/// `meta_path` ends as the name of a state file does: with what ends some piece
/// of `path`, and ".meta".
pub open spec fn named_after(meta_path: Seq<char>, path: Seq<char>) -> bool {
    exists|name: Seq<char>| #[trigger]
        piece_of(name, path) && name.len() > 0 && ends_with(meta_path, meta_name(name_end(name)))
}

/// The end of the name of a state file is that of the name, and ".meta".
proof fn lemma_meta_name_end(name: Seq<char>)
    ensures
        name_end(meta_name(name)) == meta_name(name_end(name)),
        name_end(meta_name(name)).len() >= 5,
{
    reveal_strlit(".meta");
    let meta = meta_name(name);
    reveal_with_fuel(last_part_len, 6);
    lemma_last_part_len(name);
    let a = meta.drop_last();
    let b = a.drop_last();
    let c = b.drop_last();
    let d = c.drop_last();
    assert(meta.last() == 'a' && a.last() == 't' && b.last() == 'e' && c.last() == 'm' && d.last()
        == '.');
    assert(d.drop_last() =~= name);
    assert(last_part_len(meta) == 5 + last_part_len(name));
    assert(name_end(meta) =~= meta_name(name_end(name)));
}

/// A straight path leads to the file whose name it ends with.
proof fn lemma_straight_paths_end_with_their_name(path: Seq<char>)
    requires
        straight(path),
    ensures
        name_in(path) == Some(name_end(path)),
{
    lemma_last_part_len(path);
    assert(name_end(path).len() == last_part_len(path));
    assert(parts(path).last() == name_end(path));
}

/// What ends with the name of the state file of a name on a drive, with the drive
/// or without it, ends with that of the name.
proof fn lemma_name_on_drive(path: Seq<char>, name: Seq<char>, s: Seq<char>)
    requires
        on_drive(path),
        name == path || name == path.skip(2),
        ends_with(s, name_end(meta_name(name))),
    ensures
        ends_with(s, meta_name(path.skip(2))),
{
    let rest = path.skip(2);
    assert forall|c: char| separator(c) implies !name.contains(c) by {
        if name.contains(c) {
            let i = choose|i: int| 0 <= i < name.len() && name[i] == c;
            if name == path && i >= 2 {
                assert(rest[i - 2] == c);
            }
        }
    }
    assert(separator('/') && separator('\\'));
    lemma_no_separators(name);
    lemma_meta_name_end(name);
    let end = meta_name(name);
    let own = meta_name(rest);
    assert(end.skip(end.len() - own.len()) =~= own);
    assert(s.skip(s.len() - own.len()) =~= s.skip(s.len() - end.len()).skip(end.len() - own.len()));
}

/// A text without separators is all behind the last separator.
proof fn lemma_no_separators(s: Seq<char>)
    requires
        !s.contains('/'),
        !s.contains('\\'),
    ensures
        name_end(s) == s,
{
    lemma_last_part_is_longest(s, s.len() as int);
    lemma_last_part_len(s);
    assert(s.skip(0) =~= s);
}

/// What stands behind the last separator is at least as long as any end of the
/// text that holds none.
proof fn lemma_last_part_is_longest(s: Seq<char>, n: int)
    requires
        0 <= n <= s.len(),
        forall|i: int| s.len() - n <= i < s.len() ==> !separator(s[i]),
    ensures
        last_part_len(s) >= n,
    decreases n,
{
    if n > 0 {
        assert(!separator(s[s.len() - 1]));
        let front = s.drop_last();
        assert forall|i: int| front.len() - (n - 1) <= i < front.len() implies !separator(
            front[i],
        ) by {
            assert(front[i] == s[i]);
        }
        lemma_last_part_is_longest(front, n - 1);
    } else {
        lemma_last_part_len(s);
    }
}

/// What stands behind the last slash of a path and what stands behind its last
/// separator end alike; and in a direct path the first begins with no slash, and
/// with no separator at all where the path begins with a drive.
proof fn lemma_names_of_a_path(path: Seq<char>)
    requires
        ends_in_a_name(path),
    ensures
        name_end(after_last(path, '/')) == name_end(path),
        name_end(name_end(path)) == name_end(path),
        after_last(path, '/').len() > 0,
        after_last(path, '/')[0] != '/',
        direct(path) && names_drive(path) ==> !separator(after_last(path, '/')[0]),
        !separator(name_end(path)[0]),
{
    lemma_after_last(path, '/');
    lemma_last_part_len(path);
    let n = last_part_len(path);
    let m = chars_after(path, '/');
    let tail = after_last(path, '/');
    let last = name_end(path);
    lemma_after_last_is_longest(path, n);
    assert(tail.len() == m && m >= n);
    lemma_ends_alike(path, m);
    assert forall|c: char| separator(c) implies !last.contains(c) by {
        if last.contains(c) {
            let i = choose|i: int| 0 <= i < last.len() && last[i] == c;
            assert(path[path.len() - n + i] == c);
        }
    }
    lemma_no_separators(last);
    assert(last[0] == path[path.len() - n]);
    assert(tail.contains(tail[0]));
    lemma_slash_before(path);
    if direct(path) && names_drive(path) && m < path.len() {
        assert(tail[0] == path[path.len() - m]);
        assert(separator(path[path.len() - m - 1]));
    } else if m == path.len() {
        assert(tail[0] == path[0]);
    }
}

/// Where a slash stands in a text, one stands right before what is behind the
/// last of them.
proof fn lemma_slash_before(s: Seq<char>)
    ensures
        0 <= chars_after(s, '/') <= s.len(),
        chars_after(s, '/') < s.len() ==> s[s.len() - chars_after(s, '/') - 1] == '/',
    decreases s.len(),
{
    if s.len() > 0 && s.last() != '/' {
        lemma_slash_before(s.drop_last());
    }
}

proof fn lemma_after_last_is_longest(s: Seq<char>, n: int)
    requires
        0 <= n <= s.len(),
        forall|i: int| s.len() - n <= i < s.len() ==> !separator(s[i]),
    ensures
        chars_after(s, '/') >= n,
    decreases n,
{
    if n > 0 {
        assert(!separator(s[s.len() - 1]));
        let front = s.drop_last();
        assert forall|i: int| front.len() - (n - 1) <= i < front.len() implies !separator(
            front[i],
        ) by {
            assert(front[i] == s[i]);
        }
        lemma_after_last_is_longest(front, n - 1);
    } else {
        lemma_slash_before(s);
    }
}

/// An end of a text that reaches back to its last separator, or beyond, has the
/// same behind its own last separator.
proof fn lemma_ends_alike(s: Seq<char>, m: int)
    requires
        last_part_len(s) <= m <= s.len(),
        m == chars_after(s, '/'),
    ensures
        name_end(s.skip(s.len() - m)) == name_end(s),
{
    lemma_last_part_len(s);
    lemma_slash_before(s);
    let tail = s.skip(s.len() - m);
    let n = last_part_len(s);
    lemma_last_part_len(tail);
    assert forall|i: int| tail.len() - n <= i < tail.len() implies !separator(tail[i]) by {
        assert(tail[i] == s[s.len() - m + i]);
    }
    lemma_last_part_is_longest(tail, n);
    let k = last_part_len(tail);
    assert forall|i: int| s.len() - k <= i < s.len() implies !separator(s[i]) by {
        assert(s[i] == tail[i - (s.len() - m)]);
    }
    lemma_last_part_is_longest(s, k);
    assert(name_end(tail) =~= name_end(s));
}

/// Each part of a portable path is free of separators.
proof fn lemma_parts_are_clean(path: Seq<char>)
    requires
        portable(path),
    ensures
        forall|i: int|
            0 <= i < parts(path).len() ==> (#[trigger] parts(path)[i]).len() > 0
                && !parts(path)[i].contains('\\') && !parts(path)[i].contains('/'),
    decreases path.len(),
{
    lemma_last_part_len(path);
    let n = last_part_len(path);
    let last = path.skip(path.len() - n);
    assert(!last.contains('\\') && !last.contains('/')) by {
        assert forall|c: char| last.contains(c) implies path.contains(c) && !separator(c) by {
            let i = choose|i: int| 0 <= i < last.len() && last[i] == c;
            assert(path[path.len() - n + i] == c);
        }
    }
    if n < path.len() {
        let front = path.take(path.len() - n - 1);
        assert forall|c: char| front.contains(c) implies path.contains(c) by {
            let i = choose|i: int| 0 <= i < front.len() && front[i] == c;
            assert(path[i] == c);
        }
        lemma_parts_are_clean(front);
        assert forall|i: int| 0 <= i < parts(path).len() implies (#[trigger] parts(path)[i]).len()
            > 0 && !parts(path)[i].contains('\\') && !parts(path)[i].contains('/') by {
            if i < parts(front).len() {
                assert(parts(path)[i] == parts(front)[i]);
            }
        }
    }
}

proof fn lemma_meta_name_is_plain(path: Seq<char>)
    requires
        portable(path),
        name_in(path) is Some,
        !names_drive(name_in(path)->0),
    ensures
        plain_name(meta_name(name_in(path)->0)),
{
    reveal_strlit(".");
    reveal_strlit("..");
    reveal_strlit(".meta");
    lemma_parts_are_clean(path);
    let name = name_in(path)->0;
    assert(name == parts(path)[parts(path).len() - 1]);
    let meta = meta_name(name);
    assert forall|c: char| meta.contains(c) implies name.contains(c) || ".meta"@.contains(c) by {
        let i = choose|i: int| 0 <= i < meta.len() && meta[i] == c;
        if i < name.len() {
            assert(name[i] == c);
        } else {
            assert(".meta"@[i - name.len()] == c);
        }
    }
    assert(!".meta"@.contains('/') && !".meta"@.contains('\\'));
    assert(!names_drive(meta)) by {
        if name.len() >= 2 {
            assert(meta[0] == name[0] && meta[1] == name[1]);
        } else {
            assert(meta[1] == '.');
        }
    }
}

/// The state of a download stands in a file of its own, in the directory of the
/// downloaded file, under its name with ".meta" behind it; downloads to different
/// files have different ones.
pub proof fn law_state_stands_beside_the_file(
    path: Seq<char>,
    meta_path: Seq<char>,
    other: Seq<char>,
    other_meta_path: Seq<char>,
)
    requires
        name_in(path) is Some,
        name_in(other) is Some,
        beside(meta_path, path, meta_name(name_in(path)->0)),
        beside(other_meta_path, other, meta_name(name_in(other)->0)),
    ensures
        parts(meta_path) != parts(path),
        parts(meta_path).drop_last() == parts(path).drop_last(),
        parts(meta_path).last() == name_in(path)->0 + ".meta"@,
        parts(meta_path) == parts(other_meta_path) ==> parts(path) == parts(other),
        meta_path == other_meta_path ==> parts(path) == parts(other) && rooted(path) == rooted(
            other,
        ),
{
    reveal_strlit(".meta");
    let name = name_in(path)->0;
    let other_name = name_in(other)->0;
    let meta = meta_name(name);
    assert(parts(meta_path).last() == meta);
    assert(meta.len() == name.len() + 5);
    assert(parts(meta_path).drop_last() =~= parts(path).drop_last());
    if parts(meta_path) == parts(other_meta_path) {
        assert(parts(other_meta_path).last() == meta_name(other_name));
        assert(name =~= meta.take(meta.len() - 5));
        assert(other_name =~= meta_name(other_name).take(meta_name(other_name).len() - 5));
        assert(parts(other_meta_path).drop_last() =~= parts(other).drop_last());
        assert(parts(path) =~= parts(path).drop_last().push(name));
        assert(parts(other) =~= parts(other).drop_last().push(other_name));
    }
}

/// On every platform, the state of a download to a path that ends in a name
/// stands in a file of its own, and downloads to files of different names have
/// different ones.
pub proof fn law_state_has_a_name_of_its_own(
    path: Seq<char>,
    meta_path: Seq<char>,
    other: Seq<char>,
    other_meta_path: Seq<char>,
)
    requires
        ends_in_a_name(path),
        ends_in_a_name(other),
        name_end(meta_path) == meta_name(name_end(path)),
        name_end(other_meta_path) == meta_name(name_end(other)),
    ensures
        meta_path != path,
        ends_with(meta_path, name_end(path) + ".meta"@),
        name_end(meta_path) == name_end(path) + ".meta"@,
        name_end(path) != name_end(other) ==> meta_path != other_meta_path,
{
    reveal_strlit(".meta");
    lemma_last_part_len(meta_path);
    let name = name_end(path);
    let other_name = name_end(other);
    assert(meta_name(name).len() == name.len() + 5);
    if meta_path == other_meta_path {
        assert(name =~= meta_name(name).take(meta_name(name).len() - 5));
        assert(other_name =~= meta_name(other_name).take(meta_name(other_name).len() - 5));
    }
}

/// `name` is the name of a file, on every platform.
pub open spec fn file_named(name: Seq<char>) -> bool {
    &&& name.len() > 0
    &&& forall|i: int| 0 <= i < name.len() ==> #[trigger] name[i] != '/' && name[i] != '\\'
    &&& name != "."@ && name != ".."@
    &&& name.len() >= 2 ==> name[1] != ':'
}

/// `dir` is a directory, written without detours, on every platform.
pub open spec fn dir_named(dir: Seq<char>) -> bool {
    &&& dir.len() > 0
    &&& forall|i: int| 0 <= i < dir.len() ==> #[trigger] dir[i] != '\\'
    &&& dir.len() >= 2 ==> dir[1] != ':'
    &&& forall|i: int, j: int|
        0 <= i < dir.len() && j == i + 1 && j < dir.len() && #[trigger] dir[i] == '/' ==> (
        #[trigger] dir[j]) != '/'
    &&& dir.last() != '/' && dir.last() != '.'
}

proof fn lemma_file_named(name: Seq<char>)
    requires
        file_named(name),
    ensures
        plain_name(name),
        straight(name),
        name_end(name) == name,
        last_part_len(name) == name.len(),
{
    assert(!name.contains('/') && !name.contains('\\'));
    lemma_no_separators(name);
    lemma_last_part_len(name);
    assert(name_end(name).len() == last_part_len(name));
    assert(portable(name)) by {
        if name.len() >= 2 {
            assert(name[0] != '/');
        }
    }
}

proof fn lemma_last_part_behind(front: Seq<char>, name: Seq<char>)
    requires
        file_named(name),
    ensures
        last_part_len(front.push('/') + name) == name.len(),
        name_end(front.push('/') + name) == name,
{
    let path = front.push('/') + name;
    let n = front.len() as int;
    lemma_last_part_len(path);
    assert forall|j: int| path.len() - name.len() <= j < path.len() implies !separator(
        path[j],
    ) by {
        assert(path[j] == name[j - (n + 1)]);
    }
    lemma_last_part_is_longest(path, name.len() as int);
    assert(separator(path[n]));
    assert(name_end(path) =~= name);
}

proof fn lemma_file_in_dir(dir: Seq<char>, name: Seq<char>)
    requires
        file_named(name),
        dir_named(dir),
    ensures
        last_part_len(dir.push('/') + name) == name.len(),
        name_end(dir.push('/') + name) == name,
        straight(dir.push('/') + name),
{
    let path = dir.push('/') + name;
    let n = dir.len() as int;
    lemma_file_named(name);
    lemma_last_part_behind(dir, name);
    assert(separator(path[n]));
    assert(portable(path)) by {
        if path.contains('\\') {
            let j = choose|j: int| 0 <= j < path.len() && path[j] == '\\';
            if j < n {
                assert(path[j] == dir[j]);
            } else if j > n {
                assert(path[j] == name[j - (n + 1)]);
            }
        }
        assert(path[0] == dir[0]);
        if n >= 2 {
            assert(path[1] == dir[1]);
            assert(dir[0] == '/' ==> dir[1] != '/');
        } else {
            assert(path[1] == '/' && dir[0] == dir.last());
        }
    }
    assert forall|j: int| 0 < j < path.len() && separator(#[trigger] path[j]) implies !separator(
        path[j - 1],
    ) by {
        if j < n {
            assert(path[j] == dir[j] && path[j - 1] == dir[j - 1]);
        } else if j == n {
            assert(path[j - 1] == dir[n - 1]);
        } else {
            assert(path[j] == name[j - (n + 1)]);
        }
    }
    assert(path[n - 1] == dir[n - 1]);
}

/// The state of a download to the file `name` in the directory `dir` stands in
/// that directory, under the name and ".meta", with nothing else changed but
/// perhaps the separator between them; that of a download to `name` alone stands
/// under the name and ".meta".
pub proof fn law_plain_paths_have_plain_state_files(
    dir: Seq<char>,
    name: Seq<char>,
    meta_path: Seq<char>,
)
    requires
        file_named(name),
        dir_named(dir),
    ensures
        straight(name),
        straight(dir.push('/') + name),
        renamed(meta_path, name, meta_name(name_end(name))) ==> meta_path == name + ".meta"@,
        renamed(
            meta_path,
            dir.push('/') + name,
            meta_name(name_end(dir.push('/') + name)),
        ) ==> meta_path == dir.push('/') + name + ".meta"@ || meta_path == dir.push('\\') + name
            + ".meta"@,
{
    let path = dir.push('/') + name;
    lemma_file_named(name);
    lemma_file_in_dir(dir, name);
    let meta = meta_name(name);
    if renamed(meta_path, path, meta) {
        let front = path.len() - name.len();
        assert(path.take(front - 1) =~= dir);
        let c = choose|c: char|
            separator(c) && (front == 1 ==> c == path[0]) && meta_path == (#[trigger] path.take(
                front - 1,
            ).push(c)) + meta;
        assert(meta_path =~= dir.push(c) + name + ".meta"@);
    }
}

/// A path leads to the file whose name it ends with, whatever stands before it
/// and whether or not separators follow it. A path that ends with a dot alone
/// behind a separator leads where it would without it, and one that leads up at
/// its end leads to no file.
pub proof fn law_paths_lead_to_their_last_name(front: Seq<char>, name: Seq<char>)
    requires
        file_named(name),
    ensures
        name_in(name) == Some(name),
        name_in(front.push('/') + name) == Some(name),
        parts(front.push('/') + name) == parts(front).push(name),
        parts(front.push('/')) == parts(front),
        name_in(front.push('/')) == name_in(front),
        parts(front.push('/').push('.')) == parts(front),
        name_in(front.push('/').push('.').push('.')) is None,
        name_in(Seq::empty()) is None,
{
    reveal_strlit(".");
    reveal_strlit("..");
    reveal_with_fuel(last_part_len, 3);
    lemma_file_named(name);
    assert(name.skip(0) =~= name);
    let path = front.push('/') + name;
    lemma_last_part_behind(front, name);
    assert(path.take(path.len() - name.len() - 1) =~= front);
    assert(parts(path) == parts(front).push(name));
    let rooted = front.push('/');
    assert(rooted.take(rooted.len() - 1) =~= front);
    let dot = rooted.push('.');
    assert(dot.drop_last() =~= rooted);
    assert(last_part_len(dot) == 1);
    assert(dot.skip(dot.len() - 1) =~= "."@);
    assert(dot.take(dot.len() - 2) =~= front);
    let dots = dot.push('.');
    assert(dots.drop_last() =~= dot);
    assert(last_part_len(dots) == 2);
    assert(dots.skip(dots.len() - 2) =~= ".."@);
    assert(parts(dots).last() == ".."@);
}

} // verus!
