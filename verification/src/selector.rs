//! Content selector: turns a random seed and a content filter into a
//! deterministic API query, and picks one result out of the response.
//!
//! The query is built exactly as the remote image-board expects it: an
//! optional `page` parameter (omitted when the page is 0) and an
//! optional `tags` parameter holding resolution tags and a rating tag,
//! form-urlencoded and joined by `&`.

use vstd::prelude::*;

use crate::text::{dec_of, hex_digit_char, push_decimal, push_str_chars, string_from_chars};

verus! {

/// The fixed API endpoint every query starts from.
pub const API_ENDPOINT: &'static str = "https://konachan.com/post.json";

/// How many results of a page the selector draws from: the chosen
/// index is always in `[0, RESULT_WINDOW)`.
pub const RESULT_WINDOW: usize = 20;

/// Content filter for the remote search query.
#[derive(Clone, Copy, PartialEq, Eq, Structural, Debug)]
pub enum Filter {
    All,
    Safe,
    Explicit,
    Questionable,
}

/// Errors of the content-selection step.
#[derive(Clone, Copy, PartialEq, Eq, Structural, Debug)]
pub enum SelectionError {
    /// The filter name handed in is not one of the supported ones.
    UnsupportedFilter,
    /// The API response could not be read as a list of file references.
    QueryFailed,
    /// The drawn index lies beyond the end of the result list.
    ResultSetTooSmall,
}

/// The wire string of a filter, used in the `rating:` query tag.
pub open spec fn spec_filter_tag(f: Filter) -> Seq<char> {
    match f {
        Filter::All => ""@,
        Filter::Safe => "safe"@,
        Filter::Explicit => "explicit"@,
        Filter::Questionable => "questionable"@,
    }
}

/// The page-count ceiling the seed is reduced by, per filter and
/// resolution class.
pub open spec fn spec_limit(f: Filter, hi_resolution: bool) -> u32 {
    if hi_resolution {
        match f {
            Filter::All => 2000u32,
            Filter::Safe => 1200u32,
            Filter::Explicit => 300u32,
            Filter::Questionable => 650u32,
        }
    } else {
        match f {
            Filter::All => 13000u32,
            Filter::Safe => 2200u32,
            Filter::Explicit => 1400u32,
            Filter::Questionable => 2800u32,
        }
    }
}

/// The page a seed selects: the seed reduced modulo the ceiling.
pub open spec fn spec_page(seed: u32, f: Filter, hi_resolution: bool) -> u32 {
    (seed % spec_limit(f, hi_resolution)) as u32
}

/// ASCII lower-casing of one character; anything but `A`..`Z` is kept.
pub open spec fn lower_char(c: char) -> char {
    if 'A' <= c && c <= 'Z' {
        ((c as u8) + 32) as char
    } else {
        c
    }
}

/// ASCII lower-casing of a character sequence.
pub open spec fn lower_chars(s: Seq<char>) -> Seq<char> {
    s.map_values(|c: char| lower_char(c))
}

impl Filter {
    /// The wire string of the filter.
    pub fn tag(&self) -> (r: &'static str)
        ensures
            r@ == spec_filter_tag(*self),
    {
        match self {
            Filter::All => "",
            Filter::Safe => "safe",
            Filter::Explicit => "explicit",
            Filter::Questionable => "questionable",
        }
    }

    /// The page-count ceiling for this filter and resolution class.
    /// It is never zero, so reducing a seed modulo it is always defined.
    pub fn get_limit(&self, hi_resolution: bool) -> (r: u32)
        ensures
            r == spec_limit(*self, hi_resolution),
            r > 0,
    {
        if hi_resolution {
            match self {
                Filter::All => 2000,
                Filter::Safe => 1200,
                Filter::Explicit => 300,
                Filter::Questionable => 650,
            }
        } else {
            match self {
                Filter::All => 13000,
                Filter::Safe => 2200,
                Filter::Explicit => 1400,
                Filter::Questionable => 2800,
            }
        }
    }

    /// Parses a filter name, case-insensitively (ASCII).  Every string
    /// whose lower-casing is not exactly one of the four names is
    /// rejected.
    pub fn from_string(s: &str) -> (r: Result<Filter, SelectionError>)
        ensures
            lower_chars(s@) == "safe"@ ==> r == Ok::<Filter, SelectionError>(Filter::Safe),
            lower_chars(s@) == "explicit"@ ==> r == Ok::<Filter, SelectionError>(Filter::Explicit),
            lower_chars(s@) == "questionable"@ ==> r == Ok::<Filter, SelectionError>(
                Filter::Questionable,
            ),
            lower_chars(s@) == "none"@ ==> r == Ok::<Filter, SelectionError>(Filter::All),
            (lower_chars(s@) != "safe"@ && lower_chars(s@) != "explicit"@ && lower_chars(s@)
                != "questionable"@ && lower_chars(s@) != "none"@) ==> r == Err::<
                Filter,
                SelectionError,
            >(SelectionError::UnsupportedFilter),
    {
        proof {
            reveal_strlit("safe");
            reveal_strlit("explicit");
            reveal_strlit("questionable");
            reveal_strlit("none");
            assert("safe"@[0] == 's' && "none"@[0] == 'n');
            assert("safe"@ != "none"@);
            assert("safe"@.len() == 4 && "explicit"@.len() == 8 && "questionable"@.len() == 12
                && "none"@.len() == 4);
        }
        if eq_lowered(s, "safe") {
            Ok(Filter::Safe)
        } else if eq_lowered(s, "explicit") {
            Ok(Filter::Explicit)
        } else if eq_lowered(s, "questionable") {
            Ok(Filter::Questionable)
        } else if eq_lowered(s, "none") {
            Ok(Filter::All)
        } else {
            Err(SelectionError::UnsupportedFilter)
        }
    }
}

/// Whether the ASCII lower-casing of `s` is exactly `t`.
fn eq_lowered(s: &str, t: &str) -> (r: bool)
    ensures
        r == (lower_chars(s@) == t@),
{
    let n = s.unicode_len();
    let m = t.unicode_len();
    if n != m {
        assert(lower_chars(s@).len() == s@.len());
        return false;
    }
    let mut i: usize = 0;
    while i < n
        invariant
            n == s@.len() == t@.len(),
            i <= n,
            forall|j: int| 0 <= j < i ==> lower_char(s@[j]) == t@[j],
        decreases n - i,
    {
        let c = s.get_char(i);
        let lowered: char = if 'A' <= c && c <= 'Z' {
            (((c as u8) + 32) as char)
        } else {
            c
        };
        assert(lowered == lower_char(s@[i as int]));
        if lowered != t.get_char(i) {
            assert(lower_chars(s@)[i as int] != t@[i as int]);
            return false;
        }
        i += 1;
    }
    assert(lower_chars(s@) =~= t@);
    true
}

/// The page a seed selects for this filter and resolution class.
/// Deterministic in its arguments, and always below the ceiling.
pub fn page_for(seed: u32, filter: Filter, hi_resolution: bool) -> (r: u32)
    ensures
        r == spec_page(seed, filter, hi_resolution),
        r < spec_limit(filter, hi_resolution),
{
    seed % filter.get_limit(hi_resolution)
}

/// The page is always below the ceiling, whatever the seed, filter and
/// resolution class; and it is a function of those three alone.
pub proof fn lemma_page_in_range(seed: u32, filter: Filter, hi_resolution: bool)
    ensures
        spec_page(seed, filter, hi_resolution) < spec_limit(filter, hi_resolution),
{
}

/// Whether a character passes form-urlencoding unchanged.
pub open spec fn is_form_plain(c: char) -> bool {
    ('a' <= c && c <= 'z') || ('A' <= c && c <= 'Z') || ('0' <= c && c <= '9') || c == '*' || c
        == '-' || c == '.' || c == '_'
}

/// Form-urlencoding of one ASCII character: kept if plain, `+` for a
/// space, `%XX` (upper-case hex of the byte) otherwise.
pub open spec fn form_encode_char(c: char) -> Seq<char> {
    if is_form_plain(c) {
        seq![c]
    } else if c == ' ' {
        seq!['+']
    } else {
        seq!['%', hex_digit_char(c as int / 16), hex_digit_char(c as int % 16)]
    }
}

/// Form-urlencoding of an ASCII character sequence.
pub open spec fn form_encode(s: Seq<char>) -> Seq<char>
    decreases s.len(),
{
    if s.len() == 0 {
        Seq::<char>::empty()
    } else {
        form_encode_char(s[0]) + form_encode(s.drop_first())
    }
}

/// The raw (unencoded) value of the `tags` query parameter, or `None`
/// when no `tags` parameter is sent at all.
///
/// Resolution tags come first and the rating tag last, joined by single
/// spaces.  With the unfiltered setting there is no rating tag, and only
/// the first resolution tag is sent — or nothing, without resolution
/// tags.
pub open spec fn spec_tags_value(f: Filter, hi_resolution: bool) -> Option<Seq<char>> {
    if f is All {
        if hi_resolution {
            Some("width:2560.."@)
        } else {
            None
        }
    } else {
        if hi_resolution {
            Some("width:2560.. height:1600.. rating:"@ + spec_filter_tag(f))
        } else {
            Some("rating:"@ + spec_filter_tag(f))
        }
    }
}

/// The full query URL for one selection: endpoint, `?`, then the
/// `page` parameter (omitted when the page is 0) and the encoded
/// `tags` parameter (when present), joined by `&`.
pub open spec fn spec_query_url(page: u32, f: Filter, hi_resolution: bool) -> Seq<char> {
    let page_part: Seq<char> = if page != 0 {
        "page="@ + dec_of(page as int)
    } else {
        Seq::<char>::empty()
    };
    let tags_part: Seq<char> = match spec_tags_value(f, hi_resolution) {
        Some(v) => "tags="@ + form_encode(v),
        None => Seq::<char>::empty(),
    };
    let sep: Seq<char> = if page != 0 && spec_tags_value(f, hi_resolution) is Some {
        "&"@
    } else {
        Seq::<char>::empty()
    };
    API_ENDPOINT@ + "?"@ + page_part + sep + tags_part
}

/// Appends the form-urlencoding of `s` to `v`.
fn push_form_encoded(v: &mut Vec<char>, s: &str)
    ensures
        final(v)@ == old(v)@ + form_encode(s@),
{
    let n = s.unicode_len();
    let mut i: usize = 0;
    while i < n
        invariant
            n == s@.len(),
            i <= n,
            v@ == old(v)@ + form_encode(s@.subrange(0, i as int)),
        decreases n - i,
    {
        let c = s.get_char(i);
        if ('a' <= c && c <= 'z') || ('A' <= c && c <= 'Z') || ('0' <= c && c <= '9') || c == '*'
            || c == '-' || c == '.' || c == '_' {
            v.push(c);
        } else if c == ' ' {
            v.push('+');
        } else {
            v.push('%');
            let b = c as u32;
            v.push(hex_digit_of((b / 16) as u64));
            v.push(hex_digit_of((b % 16) as u64));
        }
        proof {
            lemma_form_encode_snoc(s@.subrange(0, i as int), s@[i as int]);
            assert(s@.subrange(0, i + 1 as int) =~= s@.subrange(0, i as int).push(s@[i as int]));
            assert(v@ =~= old(v)@ + form_encode(s@.subrange(0, i + 1 as int)));
        }
        i += 1;
    }
    assert(s@.subrange(0, n as int) =~= s@);
}

fn hex_digit_of(d: u64) -> (c: char)
    ensures
        c == hex_digit_char(d as int),
{
    if d == 0 {
        '0'
    } else if d == 1 {
        '1'
    } else if d == 2 {
        '2'
    } else if d == 3 {
        '3'
    } else if d == 4 {
        '4'
    } else if d == 5 {
        '5'
    } else if d == 6 {
        '6'
    } else if d == 7 {
        '7'
    } else if d == 8 {
        '8'
    } else if d == 9 {
        '9'
    } else if d == 10 {
        'A'
    } else if d == 11 {
        'B'
    } else if d == 12 {
        'C'
    } else if d == 13 {
        'D'
    } else if d == 14 {
        'E'
    } else {
        'F'
    }
}

/// Encoding a sequence with one character appended appends that
/// character's encoding.
proof fn lemma_form_encode_snoc(s: Seq<char>, c: char)
    ensures
        form_encode(s.push(c)) == form_encode(s) + form_encode_char(c),
    decreases s.len(),
{
    let t = s.push(c);
    if s.len() == 0 {
        assert(t.drop_first() =~= Seq::<char>::empty());
        assert(form_encode(t) == form_encode_char(t[0]) + form_encode(t.drop_first()));
        assert(t[0] == c);
        assert(form_encode(t) =~= form_encode(s) + form_encode_char(c));
    } else {
        assert(t[0] == s[0]);
        assert(t.drop_first() =~= s.drop_first().push(c));
        lemma_form_encode_snoc(s.drop_first(), c);
        assert(form_encode(t) == form_encode_char(t[0]) + form_encode(t.drop_first()));
        assert(form_encode(t.drop_first()) == form_encode(s.drop_first()) + form_encode_char(c));
        assert(form_encode(t) =~= form_encode(s) + form_encode_char(c));
    }
}

/// Builds the full query URL for one selection.
///
/// The result is exactly the endpoint, a `?`, the `page` parameter when
/// `page` is not 0, and the form-urlencoded `tags` parameter when one
/// is owed for this filter and resolution class.
pub fn gen_query(page: u32, filter: Filter, hi_resolution: bool) -> (r: String)
    ensures
        r@ == spec_query_url(page, filter, hi_resolution),
{
    let mut v: Vec<char> = Vec::new();
    push_str_chars(&mut v, API_ENDPOINT);
    push_str_chars(&mut v, "?");
    if page != 0 {
        push_str_chars(&mut v, "page=");
        push_decimal(&mut v, page as u64);
    }
    match filter {
        Filter::All => {
            if hi_resolution {
                if page != 0 {
                    push_str_chars(&mut v, "&");
                }
                push_str_chars(&mut v, "tags=");
                push_form_encoded(&mut v, "width:2560..");
            }
        },
        _ => {
            if page != 0 {
                push_str_chars(&mut v, "&");
            }
            push_str_chars(&mut v, "tags=");
            if hi_resolution {
                push_form_encoded(&mut v, "width:2560.. height:1600.. rating:");
            } else {
                push_form_encoded(&mut v, "rating:");
            }
            push_form_encoded(&mut v, filter.tag());
            proof {
                if hi_resolution {
                    lemma_form_encode_concat(
                        "width:2560.. height:1600.. rating:"@,
                        spec_filter_tag(filter),
                    );
                } else {
                    lemma_form_encode_concat("rating:"@, spec_filter_tag(filter));
                }
            }
        },
    }
    assert(v@ =~= spec_query_url(page, filter, hi_resolution));
    string_from_chars(v)
}

/// Encoding distributes over concatenation.
proof fn lemma_form_encode_concat(a: Seq<char>, b: Seq<char>)
    ensures
        form_encode(a + b) == form_encode(a) + form_encode(b),
    decreases a.len(),
{
    if a.len() == 0 {
        assert(a + b =~= b);
        assert(form_encode(a) + form_encode(b) =~= form_encode(b));
    } else {
        assert((a + b).drop_first() =~= a.drop_first() + b);
        lemma_form_encode_concat(a.drop_first(), b);
        assert(form_encode(a + b) =~= form_encode(a) + form_encode(b));
    }
}

/// Relies on `rand::random`: an arbitrary 32-bit draw from the thread
/// RNG; nothing is promised of its value.
#[verifier::external_body]
fn random_u32() -> u32 {
    rand::random::<u32>()
}

/// Relies on `rand::random`: an arbitrary machine-word draw from the
/// thread RNG; nothing is promised of its value.
#[verifier::external_body]
fn random_usize() -> usize {
    rand::random::<usize>()
}

/// Draws a random seed and reduces it to a page for this filter and
/// resolution class.  Whatever the draw, the page is below the
/// ceiling.
pub fn random_page(filter: Filter, hi_resolution: bool) -> (r: u32)
    ensures
        r < spec_limit(filter, hi_resolution),
{
    page_for(random_u32(), filter, hi_resolution)
}

/// Draws a random index in the fixed result window and checks it
/// against the actual result count.  With a full window's worth of
/// results selection always succeeds; on a shorter response it fails
/// exactly when the draw falls beyond the end, never reading out of
/// bounds.
pub fn random_pick(result_count: usize) -> (r: Result<usize, SelectionError>)
    ensures
        result_count >= RESULT_WINDOW ==> r is Ok,
        r is Ok ==> r->Ok_0 < RESULT_WINDOW && r->Ok_0 < result_count,
        r is Err ==> result_count < RESULT_WINDOW && r->Err_0
            == SelectionError::ResultSetTooSmall,
{
    pick_index(result_count, random_usize())
}

/// Reduces a raw random draw to an index in the fixed result window
/// and checks it against the actual result count.
///
/// The drawn index is `raw % RESULT_WINDOW`; when the response holds
/// fewer results than that, selection fails rather than reading out of
/// bounds.
pub fn pick_index(result_count: usize, raw: usize) -> (r: Result<usize, SelectionError>)
    ensures
        raw % RESULT_WINDOW < result_count ==> r == Ok::<usize, SelectionError>(
            (raw % RESULT_WINDOW) as usize,
        ),
        raw % RESULT_WINDOW >= result_count ==> r == Err::<usize, SelectionError>(
            SelectionError::ResultSetTooSmall,
        ),
{
    let choice = raw % RESULT_WINDOW;
    if choice < result_count {
        Ok(choice)
    } else {
        Err(SelectionError::ResultSetTooSmall)
    }
}

} // verus!
