//! The invocation arguments the core works from, and their defaults.
//! Parsing the command line itself is left to the surrounding
//! program, which hands the plain values over.

use vstd::prelude::*;

verus! {

/// One invocation's settings.
#[derive(Clone, Debug)]
pub struct CliArg {
    /// Consider only images at or above 2560x1600.
    pub hi_resolution: bool,
    /// The content-filter name, parsed by `Filter::from_string`.
    pub filter: String,
    /// Show per-thread download progress.
    pub show_process: bool,
    /// Skip the desktop notification.
    pub disable_notification: bool,
    /// Save the last downloaded wallpaper instead of fetching one.
    pub save: bool,
    /// Which screen gets the wallpaper.
    pub screen_id: u8,
    /// How many byte ranges the download is split into.
    pub download_threads: u8,
}

/// The default content filter: no filtering.
pub fn default_filter() -> (r: String)
    ensures
        r@ == "none"@,
{
    "none".to_owned()
}

/// The default screen.
pub fn default_screen() -> (r: u8)
    ensures
        r == 0,
{
    0
}

/// The default download-thread count.
pub fn default_thread_number() -> (r: u8)
    ensures
        r == 4,
{
    4
}

} // verus!
