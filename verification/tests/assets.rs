use moonbeam::assets::{get_mime_type, mime_for_extension};

#[test]
fn test_common_extensions() {
    assert_eq!(get_mime_type("index.html"), Some("text/html"));
    assert_eq!(get_mime_type("photo.jpg"), Some("image/jpeg"));
    assert_eq!(get_mime_type("document.pdf"), Some("application/pdf"));
    assert_eq!(get_mime_type("song.mp3"), Some("audio/mpeg"));
}

#[test]
fn test_case_insensitive() {
    assert_eq!(get_mime_type("file.HTML"), Some("text/html"));
    assert_eq!(get_mime_type("image.JpG"), Some("image/jpeg"));
}

#[test]
fn test_unknown_extension() {
    assert_eq!(get_mime_type("file.unknown"), None);
}

#[test]
fn test_no_extension() {
    assert_eq!(get_mime_type("README"), None);
}

#[test]
fn test_with_directory() {
    assert_eq!(get_mime_type("/path/to/file.json"), Some("application/json"));
}

#[test]
fn mime_hidden_file_has_no_extension() {
    assert_eq!(get_mime_type(".bashrc"), None);
    assert_eq!(get_mime_type("archive.tar.gz"), Some("application/gzip"));
    assert_eq!(get_mime_type("dir.d/file"), None);
}

#[test]
fn mime_every_group() {
    assert_eq!(mime_for_extension("md"), Some("text/markdown"));
    assert_eq!(mime_for_extension("svg"), Some("image/svg+xml"));
    assert_eq!(mime_for_extension("opus"), Some("audio/opus"));
    assert_eq!(mime_for_extension("mkv"), Some("video/x-matroska"));
    assert_eq!(mime_for_extension("war"), Some("application/java-archive"));
    assert_eq!(mime_for_extension("woff2"), Some("font/woff2"));
    assert_eq!(mime_for_extension("HTML"), None);
    assert_eq!(mime_for_extension(""), None);
}

#[test]
fn mime_unicode_lowercase_of_extension() {
    // KELVIN SIGN lowercases to an ASCII `k`.
    assert_eq!(get_mime_type("movie.M\u{212A}V"), Some("video/x-matroska"));
}
