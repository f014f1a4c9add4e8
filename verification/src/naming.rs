//! Content-addressed local filenames: the upper-case hex MD5 digest of
//! the full remote URL string, followed by the remote file's extension.
//! The same remote URL always maps to the same local name, and the name
//! is filesystem-safe whatever the remote path looked like.

use vstd::prelude::*;

use crate::text::hex_digit_char;

verus! {

/// Errors of the filename derivation.
#[derive(Clone, Copy, PartialEq, Eq, Structural, Debug)]
pub enum NameError {
    /// No file extension could be read off the URL's last path segment.
    NoExtension,
}

/// The 16-byte MD5 digest of the UTF-8 encoding of a character
/// sequence.  Left uninterpreted: the digest is a function of the
/// input alone, computed by the `md5` crate.
pub uninterp spec fn md5_digest(s: Seq<char>) -> Seq<u8>;

/// Upper-case hex rendering of a byte sequence: two digits per byte,
/// high nibble first.
pub open spec fn hex_upper_of(bytes: Seq<u8>) -> Seq<char>
    decreases bytes.len(),
{
    if bytes.len() == 0 {
        Seq::<char>::empty()
    } else {
        seq![
            hex_digit_char(bytes[0] as int / 16),
            hex_digit_char(bytes[0] as int % 16),
        ] + hex_upper_of(bytes.drop_first())
    }
}

/// Relies on `md5::Md5` (through the `Digest` trait): the digest of the
/// string's UTF-8 bytes, a function of the input alone, 16 bytes long.
#[verifier::external_body]
fn md5_of(s: &str) -> (r: Vec<u8>)
    ensures
        r@ == md5_digest(s@),
        r@.len() == 16,
{
    <md5::Md5 as md5::Digest>::digest(s.as_bytes()).to_vec()
}

/// Relies on `base16ct::upper::encode_string`: upper-case hex, two
/// digits per byte, high nibble first.  It panics on inputs longer
/// than `usize::MAX / 2`, which the precondition rules out.
#[verifier::external_body]
fn hex_encode_upper(b: &Vec<u8>) -> (r: String)
    requires
        b@.len() <= usize::MAX / 2,
    ensures
        r@ == hex_upper_of(b@),
{
    base16ct::upper::encode_string(b.as_slice())
}

/// The upper-case hex MD5 digest of `s`, as a 32-character string.
pub fn md5sum(s: &str) -> (r: String)
    ensures
        r@ == hex_upper_of(md5_digest(s@)),
{
    let d = md5_of(s);
    hex_encode_upper(&d)
}

/// Two equal URL strings always get the same digest, hence the same
/// local filename: the naming is a pure function of the URL.
pub proof fn lemma_name_deterministic(u1: Seq<char>, u2: Seq<char>)
    requires
        u1 == u2,
    ensures
        spec_escape_filename(u1) == spec_escape_filename(u2),
{
}

/// The prefix of `s` before the first occurrence of `ch` (all of `s`
/// when `ch` does not occur).
pub open spec fn before_char(s: Seq<char>, ch: char) -> Seq<char>
    decreases s.len(),
{
    if s.len() == 0 {
        s
    } else if s[0] == ch {
        Seq::<char>::empty()
    } else {
        seq![s[0]] + before_char(s.drop_first(), ch)
    }
}

/// The suffix of `s` after the last occurrence of `ch` (all of `s`
/// when `ch` does not occur).
pub open spec fn after_last(s: Seq<char>, ch: char) -> Seq<char>
    decreases s.len(),
{
    if s.len() == 0 {
        s
    } else if s.last() == ch {
        Seq::<char>::empty()
    } else {
        after_last(s.drop_last(), ch).push(s.last())
    }
}

/// The URL with any fragment, then any query, stripped.
pub open spec fn spec_stripped_url(u: Seq<char>) -> Seq<char> {
    before_char(before_char(u, '#'), '?')
}

/// The last path segment of the stripped URL.
pub open spec fn spec_url_filename(u: Seq<char>) -> Seq<char> {
    after_last(spec_stripped_url(u), '/')
}

/// Whether the last path segment carries an extension: a dot at some
/// position after the first character (a lone leading dot hides the
/// rest of the name rather than marking an extension).
pub open spec fn spec_has_extension(u: Seq<char>) -> bool {
    exists|i: int| 0 < i < spec_url_filename(u).len() && spec_url_filename(u)[i] == '.'
}

/// The local filename for a remote URL: hex MD5 of the whole URL
/// string, a dot, and the extension of the URL's last path segment;
/// nothing when that segment has no extension.
pub open spec fn spec_escape_filename(u: Seq<char>) -> Option<Seq<char>> {
    if spec_has_extension(u) {
        Some(hex_upper_of(md5_digest(u)) + "."@ + after_last(spec_url_filename(u), '.'))
    } else {
        None
    }
}

/// Index of the first occurrence of `ch` in `s`, or `s`'s length.
fn find_first(s: &str, ch: char) -> (r: usize)
    ensures
        r <= s@.len(),
        forall|j: int| 0 <= j < r ==> s@[j] != ch,
        r < s@.len() ==> s@[r as int] == ch,
{
    let n = s.unicode_len();
    let mut i: usize = 0;
    while i < n
        invariant
            n == s@.len(),
            i <= n,
            forall|j: int| 0 <= j < i ==> s@[j] != ch,
        decreases n - i,
    {
        if s.get_char(i) == ch {
            return i;
        }
        i += 1;
    }
    i
}

/// Index of the last occurrence of `ch` in `s`, if any.
pub(crate) fn find_last_in(s: &str, ch: char) -> (r: Option<usize>)
    ensures
        match r {
            Some(i) => i < s@.len() && s@[i as int] == ch && forall|j: int|
                i < j < s@.len() ==> s@[j] != ch,
            None => forall|j: int| 0 <= j < s@.len() ==> s@[j] != ch,
        },
{
    let n = s.unicode_len();
    let mut found: Option<usize> = None;
    let mut i: usize = 0;
    while i < n
        invariant
            n == s@.len(),
            i <= n,
            match found {
                Some(k) => k < i && s@[k as int] == ch && forall|j: int|
                    k < j < i ==> s@[j] != ch,
                None => forall|j: int| 0 <= j < i ==> s@[j] != ch,
            },
        decreases n - i,
    {
        if s.get_char(i) == ch {
            found = Some(i);
        }
        i += 1;
    }
    found
}

/// `before_char` is the prefix up to the first occurrence.
proof fn lemma_before_char_take(s: Seq<char>, ch: char, i: int)
    requires
        0 <= i <= s.len(),
        forall|j: int| 0 <= j < i ==> s[j] != ch,
        i == s.len() || s[i] == ch,
    ensures
        before_char(s, ch) == s.take(i),
    decreases s.len(),
{
    if s.len() == 0 {
        assert(s.take(0) =~= s);
    } else if s[0] == ch {
        assert(i == 0);
        assert(s.take(0) =~= Seq::<char>::empty());
    } else {
        assert(i >= 1);
        lemma_before_char_take(s.drop_first(), ch, i - 1);
        assert(before_char(s, ch) =~= s.take(i));
    }
}

/// `after_last` is the suffix past the last occurrence.
pub(crate) proof fn lemma_after_last_skip(s: Seq<char>, ch: char, i: int)
    requires
        0 <= i <= s.len(),
        i == 0 || s[i - 1] == ch,
        forall|j: int| i <= j < s.len() ==> s[j] != ch,
    ensures
        after_last(s, ch) == s.skip(i),
    decreases s.len(),
{
    if s.len() == 0 {
        assert(s.skip(0) =~= s);
    } else if s.last() == ch {
        assert(i == s.len());
        assert(s.skip(i) =~= Seq::<char>::empty());
    } else {
        assert(i < s.len());
        assert(s.drop_last()[i - 1] == s[i - 1] || i == 0);
        lemma_after_last_skip(s.drop_last(), ch, i);
        assert(after_last(s, ch) =~= s.skip(i));
    }
}

/// Derives the local filename for a remote URL.
///
/// Succeeds exactly when the URL's last path segment (fragment and
/// query stripped) carries an extension; the name is then the hex MD5
/// of the whole URL string, a dot, and that extension.
pub fn escape_filename(url: &str) -> (r: Result<String, NameError>)
    ensures
        r is Ok <==> spec_escape_filename(url@) is Some,
        r is Ok ==> r->Ok_0@ == spec_escape_filename(url@)->0,
        r is Err ==> r->Err_0 == NameError::NoExtension,
{
    let h = find_first(url, '#');
    let s1 = url.substring_char(0, h);
    proof {
        lemma_before_char_take(url@, '#', h as int);
    }
    let q = find_first(s1, '?');
    let s2 = s1.substring_char(0, q);
    proof {
        lemma_before_char_take(s1@, '?', q as int);
        assert(s2@ == spec_stripped_url(url@));
    }
    let m = s2.unicode_len();
    let slash = find_last_in(s2, '/');
    let start: usize = match slash {
        Some(i) => i + 1,
        None => 0,
    };
    let fname = s2.substring_char(start, m);
    proof {
        lemma_after_last_skip(s2@, '/', start as int);
        assert(fname@ == spec_url_filename(url@));
    }
    let fl = fname.unicode_len();
    let dot = find_last_in(fname, '.');
    match dot {
        Some(di) => {
            if di == 0 {
                assert(!spec_has_extension(url@));
                Err(NameError::NoExtension)
            } else {
                let ext = fname.substring_char(di + 1, fl);
                proof {
                    lemma_after_last_skip(fname@, '.', di + 1 as int);
                    assert(fname@[di as int] == '.');
                    assert(spec_has_extension(url@));
                }
                let mut out = md5sum(url);
                out.append(".");
                out.append(ext);
                proof {
                    assert(out@ =~= hex_upper_of(md5_digest(url@)) + "."@ + after_last(
                        spec_url_filename(url@),
                        '.',
                    ));
                }
                Ok(out)
            }
        },
        None => {
            assert(!spec_has_extension(url@));
            Err(NameError::NoExtension)
        },
    }
}

} // verus!
