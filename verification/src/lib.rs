//! Verified core of a wallpaper fetcher: selects an image on a remote
//! image-board by a deterministic query built from a random seed and a
//! content filter, plans a chunked parallel download of the image into a
//! preallocated local file, and manages the download directory
//! (content-addressed filenames, a last-download pointer, age-based
//! garbage collection).

pub mod args;
pub mod download;
pub mod lifecycle;
pub mod naming;
pub mod selector;
pub mod text;
