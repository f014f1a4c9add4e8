use konachan_wallpaper::naming::{escape_filename, md5sum, NameError};

#[test]
fn test_md5sum() {
    let result = md5sum("fuckme");
    assert_eq!(result, "79CFDD0E92B120FAADD7EB253EB800D0");
}

#[test]
fn test_md5sum_shape() {
    let result = md5sum("");
    assert_eq!(result.len(), 32);
    assert!(result.chars().all(|c| c.is_ascii_hexdigit() && !c.is_ascii_lowercase()));
}

#[test]
fn test_md5sum_deterministic() {
    let a = md5sum("https://konachan.com/image/abc/pic.png");
    let b = md5sum("https://konachan.com/image/abc/pic.png");
    assert_eq!(a, b);
    let c = md5sum("https://konachan.com/image/abd/pic.png");
    assert_ne!(a, c);
}

#[test]
fn test_escape_filename_uses_digest_and_extension() {
    let url = "https://konachan.com/image/8007f7f332828bafa3a5877a2c5382d0/Konachan.com%20-%20347148.png";
    let name = escape_filename(url).unwrap();
    assert_eq!(name, format!("{}.png", md5sum(url)));
}

#[test]
fn test_escape_filename_strips_query_and_fragment() {
    // The hash covers the whole URL string, but the extension is read
    // off the path with query and fragment stripped.
    let url = "https://example.com/a/b.jpeg?x=1#frag";
    let name = escape_filename(url).unwrap();
    assert_eq!(name, format!("{}.jpeg", md5sum(url)));

    let url2 = "https://example.com/a/b.jpeg";
    let name2 = escape_filename(url2).unwrap();
    assert_ne!(name, name2);
    assert!(name2.ends_with(".jpeg"));
}

#[test]
fn test_escape_filename_no_extension() {
    assert_eq!(escape_filename("https://example.com/file"), Err(NameError::NoExtension));
    assert_eq!(escape_filename("https://example.com/a/.bashrc"), Err(NameError::NoExtension));
    assert_eq!(escape_filename("https://example.com/dir/"), Err(NameError::NoExtension));
}

#[test]
fn test_escape_filename_trailing_dot() {
    let url = "https://example.com/a/name.";
    let name = escape_filename(url).unwrap();
    assert_eq!(name, format!("{}.", md5sum(url)));
}
