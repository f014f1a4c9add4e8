use konachan_wallpaper::args::{default_filter, default_screen, default_thread_number};
use konachan_wallpaper::lifecycle::{
    dl_dir, fifo_file, gc_totals, parse_pointer, save_target, select_garbage, GcEntry,
    PointerError, GC_RETENTION_SECS,
};

#[test]
fn test_paths() {
    assert_eq!(dl_dir("/tmp"), "/tmp/konachan-wallpapers");
    assert_eq!(fifo_file("/tmp"), "/tmp/konachan-wallpapers/.last_wallpaper");
}

#[test]
fn test_parse_pointer() {
    let bytes = b"/tmp/konachan-wallpapers/ABC.png".to_vec();
    assert_eq!(
        parse_pointer(bytes),
        Ok("/tmp/konachan-wallpapers/ABC.png".to_string())
    );
    assert_eq!(parse_pointer(vec![0xff, 0xfe, 0x01]), Err(PointerError::Invalid));
}

#[test]
fn test_save_target() {
    assert_eq!(
        save_target("/home/u/Pictures/Anime", "/tmp/konachan-wallpapers/ABC.png"),
        Some("/home/u/Pictures/Anime/ABC.png".to_string())
    );
    assert_eq!(save_target("/home/u/Pictures/Anime", "/tmp/dir/"), None);
}

#[test]
fn test_try_gc_selection() {
    // One file aged 10 minutes, one aged 40 minutes, retention 30
    // minutes: exactly the 40-minute file is garbage.
    let now: u64 = 100_000;
    let entries = vec![
        GcEntry { is_dir: false, mtime_secs: now - 600, size: 111 },
        GcEntry { is_dir: false, mtime_secs: now - 2400, size: 2048 },
    ];
    let selected = select_garbage(&entries, now, GC_RETENTION_SECS);
    assert_eq!(selected, vec![false, true]);
    let (count, freed) = gc_totals(&entries, &selected);
    assert_eq!(count, 1);
    assert_eq!(freed, 2048);
}

#[test]
fn test_gc_keeps_directories_and_future_files() {
    let now: u64 = 100_000;
    let entries = vec![
        GcEntry { is_dir: true, mtime_secs: now - 9000, size: 1 },
        GcEntry { is_dir: false, mtime_secs: now + 100, size: 2 },
    ];
    let selected = select_garbage(&entries, now, GC_RETENTION_SECS);
    assert_eq!(selected, vec![false, false]);
}

#[test]
fn test_gc_retention_boundary() {
    let now: u64 = 100_000;
    let entries = vec![
        GcEntry { is_dir: false, mtime_secs: now - GC_RETENTION_SECS, size: 1 },
        GcEntry { is_dir: false, mtime_secs: now - GC_RETENTION_SECS - 1, size: 1 },
        GcEntry { is_dir: false, mtime_secs: now, size: 1 },
    ];
    let selected = select_garbage(&entries, now, GC_RETENTION_SECS);
    assert_eq!(selected, vec![false, true, false]);
}

#[test]
fn test_gc_totals_counts_only_removed() {
    // A failed deletion is reported but not counted.
    let entries = vec![
        GcEntry { is_dir: false, mtime_secs: 0, size: 100 },
        GcEntry { is_dir: false, mtime_secs: 0, size: 200 },
        GcEntry { is_dir: false, mtime_secs: 0, size: 400 },
    ];
    let removed = vec![true, false, true];
    let (count, freed) = gc_totals(&entries, &removed);
    assert_eq!(count, 2);
    assert_eq!(freed, 500);
}

#[test]
fn test_defaults() {
    assert_eq!(default_filter(), "none");
    assert_eq!(default_screen(), 0);
    assert_eq!(default_thread_number(), 4);
}
