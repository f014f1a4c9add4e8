//! Download-directory lifecycle: the well-known directory and
//! last-download pointer paths, decoding of the pointer file's
//! contents, the target path of a "save this wallpaper" copy, and
//! age-based garbage collection of downloaded files.

use vstd::prelude::*;

use crate::naming::{after_last, find_last_in, lemma_after_last_skip};

verus! {

/// Retention window of the garbage collector, in seconds: entries
/// modified longer ago than this are removed.
pub const GC_RETENTION_SECS: u64 = 1800;

/// Errors of the last-download pointer.
#[derive(Clone, Copy, PartialEq, Eq, Structural, Debug)]
pub enum PointerError {
    /// The pointer was never written.
    Missing,
    /// The stored bytes are not valid path text.
    Invalid,
}

/// The download directory under a temp directory.
pub open spec fn spec_dl_dir(temp: Seq<char>) -> Seq<char> {
    temp + "/konachan-wallpapers"@
}

/// The last-download pointer file under a temp directory.
pub open spec fn spec_fifo_file(temp: Seq<char>) -> Seq<char> {
    spec_dl_dir(temp) + "/.last_wallpaper"@
}

/// The path of the download directory under `temp_dir`.
pub fn dl_dir(temp_dir: &str) -> (r: String)
    ensures
        r@ == spec_dl_dir(temp_dir@),
{
    let mut s = temp_dir.to_owned();
    s.append("/konachan-wallpapers");
    s
}

/// The path of the last-download pointer file under `temp_dir`.
pub fn fifo_file(temp_dir: &str) -> (r: String)
    ensures
        r@ == spec_fifo_file(temp_dir@),
{
    let mut s = dl_dir(temp_dir);
    s.append("/.last_wallpaper");
    s
}

/// Relies on `String::from_utf8`: it succeeds exactly on valid UTF-8
/// and then returns the string of the decoded characters.
#[verifier::external_body]
fn string_from_utf8(v: Vec<u8>) -> (r: Option<String>)
    ensures
        r is Some <==> vstd::utf8::valid_utf8(v@),
        r is Some ==> r->0@ == vstd::utf8::decode_utf8(v@),
{
    match String::from_utf8(v) {
        Ok(s) => Some(s),
        Err(_) => None,
    }
}

/// Decodes the stored pointer bytes into a path string.  Succeeds
/// exactly on valid UTF-8 contents; anything else is an invalid
/// pointer.
pub fn parse_pointer(bytes: Vec<u8>) -> (r: Result<String, PointerError>)
    ensures
        r is Ok <==> vstd::utf8::valid_utf8(bytes@),
        r is Ok ==> r->Ok_0@ == vstd::utf8::decode_utf8(bytes@),
        r is Err ==> r->Err_0 == PointerError::Invalid,
{
    match string_from_utf8(bytes) {
        Some(s) => Ok(s),
        None => Err(PointerError::Invalid),
    }
}

/// Where a saved copy of `source_path` goes under `save_dir`: the
/// source's final path component appended to the directory.  Nothing
/// when the source path has no final component (it ends in `/`).
pub fn save_target(save_dir: &str, source_path: &str) -> (r: Option<String>)
    ensures
        r is Some <==> after_last(source_path@, '/').len() > 0,
        r is Some ==> r->0@ == save_dir@ + "/"@ + after_last(source_path@, '/'),
{
    let n = source_path.unicode_len();
    let slash = find_last_in(source_path, '/');
    let start: usize = match slash {
        Some(i) => i + 1,
        None => 0,
    };
    proof {
        lemma_after_last_skip(source_path@, '/', start as int);
    }
    if start == n {
        return None;
    }
    let fname = source_path.substring_char(start, n);
    let mut out = save_dir.to_owned();
    out.append("/");
    out.append(fname);
    proof {
        assert(out@ =~= save_dir@ + "/"@ + after_last(source_path@, '/'));
    }
    Some(out)
}

/// One directory entry as the garbage collector sees it: whether it
/// is a subdirectory, its modification time (seconds since the
/// epoch), and its size in bytes.
#[derive(Clone, Copy, PartialEq, Eq, Structural, Debug)]
pub struct GcEntry {
    pub is_dir: bool,
    pub mtime_secs: u64,
    pub size: u64,
}

/// Whether an entry is garbage at time `now`: not a directory, not
/// modified in the future (a future timestamp is defensively kept),
/// and strictly older than the retention window.
pub open spec fn is_garbage(e: GcEntry, now_secs: u64, retention_secs: u64) -> bool {
    &&& !e.is_dir
    &&& e.mtime_secs <= now_secs
    &&& now_secs - e.mtime_secs > retention_secs
}

/// Selects the entries the garbage collector should remove: exactly
/// the non-directory entries whose age at `now_secs` exceeds the
/// retention window.  Entries with a modification time in the future
/// are kept, never an error.
pub fn select_garbage(entries: &Vec<GcEntry>, now_secs: u64, retention_secs: u64) -> (r: Vec<
    bool,
>)
    ensures
        r@.len() == entries@.len(),
        forall|i: int|
            0 <= i < entries@.len() ==> r@[i] == is_garbage(entries@[i], now_secs, retention_secs),
{
    let n = entries.len();
    let mut r: Vec<bool> = Vec::new();
    let mut i: usize = 0;
    while i < n
        invariant
            n == entries@.len(),
            i <= n,
            r@.len() == i as int,
            forall|k: int|
                0 <= k < i ==> r@[k] == is_garbage(entries@[k], now_secs, retention_secs),
        decreases n - i,
    {
        let e = entries[i];
        let garbage = !e.is_dir && e.mtime_secs <= now_secs && now_secs - e.mtime_secs
            > retention_secs;
        r.push(garbage);
        i += 1;
    }
    r
}

/// How many entries a removal run took out.
pub open spec fn removed_count(removed: Seq<bool>) -> int
    decreases removed.len(),
{
    if removed.len() == 0 {
        0
    } else {
        removed_count(removed.drop_last()) + if removed.last() {
            1int
        } else {
            0int
        }
    }
}

/// How many bytes a removal run freed.
pub open spec fn freed_total(entries: Seq<GcEntry>, removed: Seq<bool>) -> int
    recommends
        entries.len() == removed.len(),
    decreases removed.len(),
{
    if removed.len() == 0 {
        0
    } else {
        freed_total(entries.drop_last(), removed.drop_last()) + if removed.last() {
            entries[removed.len() - 1].size as int
        } else {
            0int
        }
    }
}

/// Sums up one garbage-collection run: how many entries were actually
/// removed and how many bytes that freed.  `removed[i]` says whether
/// deleting entry `i` succeeded; a failed deletion counts nothing.
pub fn gc_totals(entries: &Vec<GcEntry>, removed: &Vec<bool>) -> (r: (usize, u128))
    requires
        entries@.len() == removed@.len(),
    ensures
        r.0 == removed_count(removed@),
        r.1 == freed_total(entries@, removed@),
{
    let n = entries.len();
    let mut count: usize = 0;
    let mut total: u128 = 0;
    let mut i: usize = 0;
    while i < n
        invariant
            n == entries@.len() == removed@.len(),
            i <= n,
            count <= i,
            count == removed_count(removed@.take(i as int)),
            total == freed_total(entries@.take(i as int), removed@.take(i as int)),
            total <= i * (u64::MAX as int),
        decreases n - i,
    {
        proof {
            assert(removed@.take(i + 1 as int).drop_last() =~= removed@.take(i as int));
            assert(entries@.take(i + 1 as int).drop_last() =~= entries@.take(i as int));
        }
        if removed[i] {
            count += 1;
            total += entries[i].size as u128;
        }
        i += 1;
    }
    proof {
        assert(removed@.take(n as int) =~= removed@);
        assert(entries@.take(n as int) =~= entries@);
    }
    (count, total)
}

} // verus!
