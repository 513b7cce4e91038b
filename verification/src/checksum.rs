//! Comparing a downloaded file with the digest that was expected of it.
use crate::errors::TaskError;
use crate::text::{ascii_lowered, copy_opt, lowercase, opt_text, same_text, to_lowercase};
use sha1::Digest;
use vstd::prelude::*;
use vstd::string::*;
use vstd::utf8::{encode_utf8, is_ascii_chars};

verus! {

// ---------------------------------------------------------------------------
// The hash functions
// ---------------------------------------------------------------------------
/// The running MD5 computation of the `md5` crate.
#[verifier::external_type_specification]
#[verifier::external_body]
pub struct ExMd5(md5::Context);

/// The running SHA-1 computation of the `sha1` crate.
#[verifier::external_type_specification]
#[verifier::external_body]
pub struct ExSha1(sha1::Sha1);

/// The running SHA-256 computation of the `sha2` crate.
#[verifier::external_type_specification]
#[verifier::external_body]
pub struct ExSha256(sha2::Sha256);

/// The bytes that a running MD5 computation has taken in.
pub uninterp spec fn md5_taken(context: md5::Context) -> Seq<u8>;

/// The bytes that a running SHA-1 computation has taken in.
pub uninterp spec fn sha1_taken(hasher: sha1::Sha1) -> Seq<u8>;

/// The bytes that a running SHA-256 computation has taken in.
pub uninterp spec fn sha256_taken(hasher: sha2::Sha256) -> Seq<u8>;

/// The MD5 digest of some bytes.
pub uninterp spec fn md5_digest(data: Seq<u8>) -> Seq<u8>;

/// The SHA-1 digest of some bytes.
pub uninterp spec fn sha1_digest(data: Seq<u8>) -> Seq<u8>;

/// The SHA-256 digest of some bytes.
pub uninterp spec fn sha256_digest(data: Seq<u8>) -> Seq<u8>;

/// Calls `md5::Context::new`. Trusted: nothing has been taken in.
#[verifier::external_body]
fn md5_new() -> (context: md5::Context)
    ensures
        md5_taken(context) == Seq::<u8>::empty(),
{
    md5::Context::new()
}

/// Calls `md5::Context::consume`. Trusted: the data is taken in after what was
/// taken in before.
#[verifier::external_body]
fn md5_take(context: &mut md5::Context, data: &[u8])
    ensures
        md5_taken(*final(context)) == md5_taken(*old(context)) + data@,
{
    context.consume(data);
}

/// Calls `md5::Context::finalize`. Trusted: the sixteen bytes of the digest are
/// a function of the bytes taken in. Which bytes is left to the name
/// `md5_digest`.
#[verifier::external_body]
fn md5_finish(context: md5::Context) -> (digest: Vec<u8>)
    ensures
        digest@ == md5_digest(md5_taken(context)),
        digest@.len() == 16,
{
    context.finalize().to_vec()
}

/// Calls `Sha1::new`. Trusted: nothing has been taken in.
#[verifier::external_body]
fn sha1_new() -> (hasher: sha1::Sha1)
    ensures
        sha1_taken(hasher) == Seq::<u8>::empty(),
{
    sha1::Sha1::new()
}

/// Calls `Sha1::update`. Trusted: the data is taken in after what was taken in
/// before.
#[verifier::external_body]
fn sha1_take(hasher: &mut sha1::Sha1, data: &[u8])
    ensures
        sha1_taken(*final(hasher)) == sha1_taken(*old(hasher)) + data@,
{
    hasher.update(data);
}

/// Calls `Sha1::finalize`. Trusted: the twenty bytes of the digest are a
/// function of the bytes taken in. Which bytes is left to the name
/// `sha1_digest`.
#[verifier::external_body]
fn sha1_finish(hasher: sha1::Sha1) -> (digest: Vec<u8>)
    ensures
        digest@ == sha1_digest(sha1_taken(hasher)),
        digest@.len() == 20,
{
    hasher.finalize().to_vec()
}

/// Calls `Sha256::new`. Trusted: nothing has been taken in.
#[verifier::external_body]
fn sha256_new() -> (hasher: sha2::Sha256)
    ensures
        sha256_taken(hasher) == Seq::<u8>::empty(),
{
    sha2::Sha256::new()
}

/// Calls `Sha256::update`. Trusted: the data is taken in after what was taken
/// in before.
#[verifier::external_body]
fn sha256_take(hasher: &mut sha2::Sha256, data: &[u8])
    ensures
        sha256_taken(*final(hasher)) == sha256_taken(*old(hasher)) + data@,
{
    hasher.update(data);
}

/// Calls `Sha256::finalize`. Trusted: the thirty-two bytes of the digest are a
/// function of the bytes taken in. Which bytes is left to the name
/// `sha256_digest`.
#[verifier::external_body]
fn sha256_finish(hasher: sha2::Sha256) -> (digest: Vec<u8>)
    ensures
        digest@ == sha256_digest(sha256_taken(hasher)),
        digest@.len() == 32,
{
    hasher.finalize().to_vec()
}

// ---------------------------------------------------------------------------
// Hexadecimal
// ---------------------------------------------------------------------------
/// The hexadecimal digit `d`, for `d` below sixteen.
pub open spec fn hex_digit(d: int) -> char {
    if d < 10 {
        ('0' as int + d) as char
    } else {
        ('a' as int + (d - 10)) as char
    }
}

/// Bytes in hexadecimal, two lower-case digits each.
pub open spec fn hex(bytes: Seq<u8>) -> Seq<char>
    decreases bytes.len(),
{
    if bytes.len() == 0 {
        Seq::empty()
    } else {
        hex(bytes.drop_last()).push(hex_digit(bytes.last() as int / 16)).push(
            hex_digit(bytes.last() as int % 16),
        )
    }
}

/// The hexadecimal digit `d`.
fn hex_digit_text(d: u8) -> (r: &'static str)
    requires
        d < 16,
    ensures
        r@ == seq![hex_digit(d as int)],
{
    let r = match d {
        0 => "0",
        1 => "1",
        2 => "2",
        3 => "3",
        4 => "4",
        5 => "5",
        6 => "6",
        7 => "7",
        8 => "8",
        9 => "9",
        10 => "a",
        11 => "b",
        12 => "c",
        13 => "d",
        14 => "e",
        _ => "f",
    };
    proof {
        reveal_strlit("0");
        reveal_strlit("1");
        reveal_strlit("2");
        reveal_strlit("3");
        reveal_strlit("4");
        reveal_strlit("5");
        reveal_strlit("6");
        reveal_strlit("7");
        reveal_strlit("8");
        reveal_strlit("9");
        reveal_strlit("a");
        reveal_strlit("b");
        reveal_strlit("c");
        reveal_strlit("d");
        reveal_strlit("e");
        reveal_strlit("f");
        assert(r@ =~= seq![hex_digit(d as int)]);
    }
    r
}

/// Bytes in hexadecimal.
fn hex_text(bytes: &Vec<u8>) -> (r: String)
    ensures
        r@ == hex(bytes@),
{
    let mut r = String::new();
    let mut i: usize = 0;
    assert(bytes@.take(0) =~= Seq::<u8>::empty());
    while i < bytes.len()
        invariant
            i <= bytes.len(),
            r@ == hex(bytes@.take(i as int)),
        decreases bytes.len() - i,
    {
        let b = bytes[i];
        let ghost before = r@;
        r.append(hex_digit_text(b / 16));
        r.append(hex_digit_text(b % 16));
        proof {
            assert(bytes@.take(i + 1).drop_last() =~= bytes@.take(i as int));
            assert(r@ =~= before.push(hex_digit(b as int / 16)).push(hex_digit(b as int % 16)));
        }
        i += 1;
    }
    assert(bytes@.take(i as int) =~= bytes@);
    r
}

// ---------------------------------------------------------------------------
// The check
// ---------------------------------------------------------------------------
/// A hash function.
#[derive(Debug, Clone, Copy, PartialEq, Eq, Structural)]
pub enum ChecksumKind {
    Md5,
    Sha1,
    Sha256,
}

impl ChecksumKind {
    /// The digest of some bytes.
    pub open spec fn digest(self, data: Seq<u8>) -> Seq<u8> {
        match self {
            ChecksumKind::Md5 => md5_digest(data),
            ChecksumKind::Sha1 => sha1_digest(data),
            ChecksumKind::Sha256 => sha256_digest(data),
        }
    }
}

/// The hash function whose digests, in hexadecimal, have this length.
pub open spec fn kind_of_len(len: nat) -> Option<ChecksumKind> {
    if len == 32 {
        Some(ChecksumKind::Md5)
    } else if len == 40 {
        Some(ChecksumKind::Sha1)
    } else if len == 64 {
        Some(ChecksumKind::Sha256)
    } else {
        None
    }
}

/// The hash function of an expected digest: its length in bytes, in lower case,
/// tells which.
pub open spec fn kind_of(expected: Seq<char>) -> Option<ChecksumKind> {
    kind_of_len(encode_utf8(lowercase(expected)).len())
}

/// The hash function whose digests, in hexadecimal, have the length of the
/// given text in bytes.
pub fn kind_for(lower: &str) -> (kind: Option<ChecksumKind>)
    ensures
        kind == kind_of_len(encode_utf8(lower@).len()),
{
    let len: usize = lower.as_bytes().len();
    if len == 32 {
        Some(ChecksumKind::Md5)
    } else if len == 40 {
        Some(ChecksumKind::Sha1)
    } else if len == 64 {
        Some(ChecksumKind::Sha256)
    } else {
        None
    }
}

/// Whether a digest is the expected one, which is given in hexadecimal and in
/// lower case.
pub fn digest_matches(digest: &Vec<u8>, lower: &str) -> (same: bool)
    ensures
        same == (hex(digest@) == lower@),
{
    same_text(hex_text(digest).as_str(), lower)
}

/// A running computation of a digest.
enum Running {
    Md5(md5::Context),
    Sha1(sha1::Sha1),
    Sha256(sha2::Sha256),
}

impl Running {
    spec fn kind(self) -> ChecksumKind {
        match self {
            Running::Md5(_) => ChecksumKind::Md5,
            Running::Sha1(_) => ChecksumKind::Sha1,
            Running::Sha256(_) => ChecksumKind::Sha256,
        }
    }

    spec fn taken(self) -> Seq<u8> {
        match self {
            Running::Md5(context) => md5_taken(context),
            Running::Sha1(hasher) => sha1_taken(hasher),
            Running::Sha256(hasher) => sha256_taken(hasher),
        }
    }
}

/// A file being compared with the digest that was expected of it.
pub struct ChecksumCheck {
    expected: String,
    running: Running,
}

impl ChecksumCheck {
    /// The expected digest, in lower case.
    pub closed spec fn expected(self) -> Seq<char> {
        self.expected@
    }

    /// The hash function.
    pub closed spec fn kind(self) -> ChecksumKind {
        self.running.kind()
    }

    /// The bytes of the file so far.
    pub closed spec fn taken(self) -> Seq<u8> {
        self.running.taken()
    }

    /// Begins the comparison; the length of the expected digest tells the hash
    /// function. Where it is the length of no digest, no file passes.
    pub fn start(expected: &str) -> (check: Result<Self, TaskError>)
        ensures
            match check {
                Ok(check) => {
                    &&& kind_of(expected@) == Some(check.kind())
                    &&& check.expected() == lowercase(expected@)
                    &&& check.taken() == Seq::<u8>::empty()
                },
                Err(e) => kind_of(expected@) is None && e == TaskError::ChecksumMismatch,
            },
            is_ascii_chars(expected@) ==> lowercase(expected@) == ascii_lowered(expected@)
                && kind_of(expected@) == kind_of_len(expected@.len()),
    {
        let lower = to_lowercase(expected);
        let kind = kind_for(lower.as_str());
        proof {
            if is_ascii_chars(expected@) {
                lemma_ascii_lowered_len(expected@);
            }
        }
        let running = match kind {
            Some(ChecksumKind::Md5) => Running::Md5(md5_new()),
            Some(ChecksumKind::Sha1) => Running::Sha1(sha1_new()),
            Some(ChecksumKind::Sha256) => Running::Sha256(sha256_new()),
            None => {
                return Err(TaskError::ChecksumMismatch);
            },
        };
        Ok(ChecksumCheck { expected: lower, running })
    }

    /// Takes in the next bytes of the file.
    pub fn feed(&mut self, data: &[u8])
        ensures
            final(self).kind() == old(self).kind(),
            final(self).expected() == old(self).expected(),
            final(self).taken() == old(self).taken() + data@,
    {
        match &mut self.running {
            Running::Md5(context) => md5_take(context, data),
            Running::Sha1(hasher) => sha1_take(hasher, data),
            Running::Sha256(hasher) => sha256_take(hasher, data),
        }
    }

    /// Succeeds exactly when the file is the expected one.
    pub fn finish(self) -> (r: Result<(), TaskError>)
        ensures
            r == (if hex(self.kind().digest(self.taken())) == self.expected() {
                Ok(())
            } else {
                Err(TaskError::ChecksumMismatch)
            }),
    {
        let digest = match self.running {
            Running::Md5(context) => md5_finish(context),
            Running::Sha1(hasher) => sha1_finish(hasher),
            Running::Sha256(hasher) => sha256_finish(hasher),
        };
        if digest_matches(&digest, self.expected.as_str()) {
            Ok(())
        } else {
            Err(TaskError::ChecksumMismatch)
        }
    }
}

// ---------------------------------------------------------------------------
// The end of a download
// ---------------------------------------------------------------------------
/// The data passes: no digest is expected of it, or its digest, in hexadecimal,
/// is the expected one in lower case.
pub open spec fn passes(checksum: Option<Seq<char>>, data: Seq<u8>) -> bool {
    match checksum {
        Some(expected) => match kind_of(expected) {
            Some(kind) => hex(kind.digest(data)) == lowercase(expected),
            None => false,
        },
        None => true,
    }
}

/// The bytes of the file make a difference: a digest of a known length is
/// expected.
pub open spec fn bytes_matter(checksum: Option<Seq<char>>) -> bool {
    match checksum {
        Some(expected) => kind_of(expected) is Some,
        None => false,
    }
}

/// The last that is done to a downloaded file: where a digest is expected of it,
/// it is read and compared.
pub struct FinalCheck {
    checksum: Option<String>,
    running: Option<ChecksumCheck>,
    taken: Ghost<Seq<u8>>,
}

impl FinalCheck {
    /// The digest that is expected, where one is.
    pub closed spec fn checksum(self) -> Option<Seq<char>> {
        opt_text(self.checksum)
    }

    /// The bytes of the file so far.
    pub closed spec fn taken(self) -> Seq<u8> {
        self.taken@
    }

    /// The running comparison is that of the bytes with the digest.
    #[verifier::type_invariant]
    spec fn valid(self) -> bool {
        match (self.checksum(), self.running) {
            (Some(expected), Some(check)) => {
                &&& kind_of(expected) == Some(check.kind())
                &&& check.expected() == lowercase(expected)
                &&& check.taken() == self.taken()
            },
            (Some(expected), None) => kind_of(expected) is None,
            (None, running) => running is None,
        }
    }

    /// Begins the check of a file.
    pub(crate) fn start(checksum: &Option<String>) -> (check: Self)
        ensures
            check.checksum() == opt_text(*checksum),
            check.taken() == Seq::<u8>::empty(),
    {
        let running = match checksum {
            Some(expected) => match ChecksumCheck::start(expected.as_str()) {
                Ok(check) => Some(check),
                Err(_) => None,
            },
            None => None,
        };
        FinalCheck { checksum: copy_opt(checksum), running, taken: Ghost(Seq::empty()) }
    }

    /// Whether the bytes of the file make a difference: they do where a digest
    /// of a known length is expected.
    pub fn reads_file(&self) -> (r: bool)
        ensures
            r == bytes_matter(self.checksum()),
    {
        proof {
            use_type_invariant(self);
        }
        self.running.is_some()
    }

    /// Takes in the next bytes of the file.
    pub fn feed(self, data: &[u8]) -> (after: Self)
        ensures
            after.checksum() == self.checksum(),
            after.taken() == self.taken() + data@,
    {
        proof {
            use_type_invariant(&self);
        }
        let running = match self.running {
            Some(check) => {
                let mut check = check;
                check.feed(data);
                Some(check)
            },
            None => None,
        };
        FinalCheck {
            checksum: self.checksum,
            running,
            taken: Ghost(self.taken@ + data@),
        }
    }

    /// Succeeds exactly when the file passes.
    pub fn finish(self) -> (r: Result<(), TaskError>)
        ensures
            r == (if passes(self.checksum(), self.taken()) {
                Ok(())
            } else {
                Err(TaskError::ChecksumMismatch)
            }),
    {
        proof {
            use_type_invariant(&self);
        }
        match self.running {
            Some(check) => check.finish(),
            None => match self.checksum {
                Some(_) => Err(TaskError::ChecksumMismatch),
                None => Ok(()),
            },
        }
    }
}

/// An ASCII text in lower case has as many bytes as characters.
proof fn lemma_ascii_lowered_len(s: Seq<char>)
    requires
        is_ascii_chars(s),
    ensures
        encode_utf8(ascii_lowered(s)).len() == s.len(),
{
    let low = ascii_lowered(s);
    assert forall|i: int| 0 <= i < low.len() implies '\0' <= #[trigger] low[i] <= '\u{7f}' by {
        assert('\0' <= s[i] <= '\u{7f}');
    }
    assert(is_ascii_chars(low));
    vstd::utf8::is_ascii_chars_encode_utf8(low);
}

/// The value of a hexadecimal digit in lower case.
pub open spec fn hex_value(c: char) -> int {
    if '0' <= c <= '9' {
        c as int - '0' as int
    } else {
        c as int - 'a' as int + 10
    }
}

/// Bytes in hexadecimal are two digits each, in order, the first of which counts
/// sixteen times as much as the second; the letters among them are small.
pub proof fn law_hexadecimal_shows_every_byte(bytes: Seq<u8>)
    ensures
        hex(bytes).len() == 2 * bytes.len(),
        forall|i: int|
            0 <= i < bytes.len() ==> #[trigger] bytes[i] == 16 * hex_value(hex(bytes)[2 * i])
                + hex_value(hex(bytes)[2 * i + 1]),
        forall|i: int|
            0 <= i < hex(bytes).len() ==> '0' <= #[trigger] hex(bytes)[i] <= '9' || 'a' <= hex(
                bytes,
            )[i] <= 'f',
    decreases bytes.len(),
{
    if bytes.len() > 0 {
        let front = bytes.drop_last();
        law_hexadecimal_shows_every_byte(front);
        let text = hex(bytes);
        let n = front.len();
        assert(text.len() == hex(front).len() + 2);
        assert forall|i: int| 0 <= i < text.len() implies '0' <= #[trigger] text[i] <= '9' || 'a'
            <= text[i] <= 'f' by {
            if i < 2 * n {
                assert(text[i] == hex(front)[i]);
            }
        }
        assert forall|i: int| 0 <= i < bytes.len() implies #[trigger] bytes[i] == 16 * hex_value(
            text[2 * i],
        ) + hex_value(text[2 * i + 1]) by {
            if i < n {
                assert(front[i] == bytes[i]);
                assert(text[2 * i] == hex(front)[2 * i]);
                assert(text[2 * i + 1] == hex(front)[2 * i + 1]);
            }
        }
    }
}

/// The text `expected` is, in lower case, the digest in hexadecimal.
pub open spec fn is_digest(expected: Seq<char>, digest: Seq<u8>) -> bool {
    lowercase(expected) == hex(digest)
}

proof fn lemma_hex_is_ascii(bytes: Seq<u8>)
    ensures
        encode_utf8(hex(bytes)).len() == 2 * bytes.len(),
{
    law_hexadecimal_shows_every_byte(bytes);
    let text = hex(bytes);
    assert forall|i: int| 0 <= i < text.len() implies '\0' <= #[trigger] text[i] <= '\u{7f}' by {}
    assert(is_ascii_chars(text));
    vstd::utf8::is_ascii_chars_encode_utf8(text);
}

/// A file passes exactly where no digest is expected of it, or where the one that
/// is expected is its MD5, SHA-1 or SHA-256 digest, in either case: whatever the
/// file, each of its three digests is accepted, and nothing else is. The digests
/// have sixteen, twenty and thirty-two bytes.
pub proof fn law_files_pass_by_their_digests(expected: Seq<char>, data: Seq<u8>)
    requires
        md5_digest(data).len() == 16,
        sha1_digest(data).len() == 20,
        sha256_digest(data).len() == 32,
    ensures
        passes(None, data),
        passes(Some(expected), data) <==> is_digest(expected, md5_digest(data)) || is_digest(
            expected,
            sha1_digest(data),
        ) || is_digest(expected, sha256_digest(data)),
{
    lemma_hex_is_ascii(md5_digest(data));
    lemma_hex_is_ascii(sha1_digest(data));
    lemma_hex_is_ascii(sha256_digest(data));
}

/// The hash function of an expected digest is told by its length: that of the
/// digests that it gives, two digits to a byte.
pub proof fn law_lengths_tell_hash_functions(len: nat)
    ensures
        kind_of_len(len) == Some(ChecksumKind::Md5) <==> len == 2 * 16,
        kind_of_len(len) == Some(ChecksumKind::Sha1) <==> len == 2 * 20,
        kind_of_len(len) == Some(ChecksumKind::Sha256) <==> len == 2 * 32,
{
}

/// Where the bytes of a file do not matter, any file passes that any other does,
/// so that none needs to be read. They matter exactly where the expected digest
/// has the length of one.
pub proof fn law_files_are_read_where_it_matters(
    checksum: Option<Seq<char>>,
    data: Seq<u8>,
    other: Seq<u8>,
)
    ensures
        !bytes_matter(checksum) ==> passes(checksum, data) == passes(checksum, other),
        bytes_matter(checksum) <==> checksum is Some && ({
            let len = encode_utf8(lowercase(checksum->0)).len();
            len == 32 || len == 40 || len == 64
        }),
{
}

} // verus!
