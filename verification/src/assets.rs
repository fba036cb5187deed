//! MIME types of static assets, found from the extension of their file name.
use vstd::prelude::*;
use crate::text::text_eq;

verus! {

/// What `std::path::Path::extension` gives for a path, as text: the part of the file
/// name after its last `.`, or nothing when the path has no file name, the file name has
/// no `.`, or its only `.` is the first character.
pub uninterp spec fn path_extension(path: Seq<char>) -> Option<Seq<char>>;

/// What `str::to_lowercase` gives: the Unicode lowercase of a text.
pub uninterp spec fn unicode_lowercase(s: Seq<char>) -> Seq<char>;

/// Calls `Path::new(path).extension()` (std) and reads the result as text. The
/// contract names the result `path_extension` of the path.
#[verifier::external_body]
fn extension_of(path: &str) -> (r: Option<&str>)
    ensures
        opt_str(r) == path_extension(path@),
{
    std::path::Path::new(path).extension().and_then(|e| e.to_str())
}

/// Calls `str::to_lowercase` (std). The contract names the result `unicode_lowercase`
/// of the text.
#[verifier::external_body]
fn to_lowercase(s: &str) -> (r: String)
    ensures
        r@ == unicode_lowercase(s@),
{
    s.to_lowercase()
}

/// The view of an optional string slice.
pub open spec fn opt_str(s: Option<&str>) -> Option<Seq<char>> {
    match s {
        Some(t) => Some(t@),
        None => None,
    }
}

/// The MIME types of text files by extension.
pub open spec fn text_mime(ext: Seq<char>) -> Option<Seq<char>> {
    if ext == "txt"@ {
        Some("text/plain"@)
    } else if ext == "html"@ || ext == "htm"@ {
        Some("text/html"@)
    } else if ext == "css"@ {
        Some("text/css"@)
    } else if ext == "js"@ || ext == "mjs"@ {
        Some("text/javascript"@)
    } else if ext == "csv"@ {
        Some("text/csv"@)
    } else if ext == "xml"@ {
        Some("text/xml"@)
    } else if ext == "md"@ || ext == "markdown"@ {
        Some("text/markdown"@)
    } else if ext == "rtf"@ {
        Some("application/rtf"@)
    } else if ext == "tex"@ {
        Some("application/x-tex"@)
    } else {
        None
    }
}

/// Looks up the MIME type of text files.
fn text_mime_type(ext: &str) -> (r: Option<&'static str>)
    ensures
        opt_str(r) == text_mime(ext@),
{
    if text_eq(ext, "txt") {
        return Some("text/plain");
    }
    if text_eq(ext, "html") || text_eq(ext, "htm") {
        return Some("text/html");
    }
    if text_eq(ext, "css") {
        return Some("text/css");
    }
    if text_eq(ext, "js") || text_eq(ext, "mjs") {
        return Some("text/javascript");
    }
    if text_eq(ext, "csv") {
        return Some("text/csv");
    }
    if text_eq(ext, "xml") {
        return Some("text/xml");
    }
    if text_eq(ext, "md") || text_eq(ext, "markdown") {
        return Some("text/markdown");
    }
    if text_eq(ext, "rtf") {
        return Some("application/rtf");
    }
    if text_eq(ext, "tex") {
        return Some("application/x-tex");
    }
    None
}

/// The MIME types of image files by extension.
pub open spec fn image_mime(ext: Seq<char>) -> Option<Seq<char>> {
    if ext == "jpg"@ || ext == "jpeg"@ {
        Some("image/jpeg"@)
    } else if ext == "png"@ {
        Some("image/png"@)
    } else if ext == "gif"@ {
        Some("image/gif"@)
    } else if ext == "svg"@ {
        Some("image/svg+xml"@)
    } else if ext == "webp"@ {
        Some("image/webp"@)
    } else if ext == "bmp"@ {
        Some("image/bmp"@)
    } else if ext == "tif"@ || ext == "tiff"@ {
        Some("image/tiff"@)
    } else if ext == "ico"@ {
        Some("image/x-icon"@)
    } else if ext == "heic"@ || ext == "heif"@ {
        Some("image/heif"@)
    } else if ext == "avif"@ {
        Some("image/avif"@)
    } else {
        None
    }
}

/// Looks up the MIME type of image files.
fn image_mime_type(ext: &str) -> (r: Option<&'static str>)
    ensures
        opt_str(r) == image_mime(ext@),
{
    if text_eq(ext, "jpg") || text_eq(ext, "jpeg") {
        return Some("image/jpeg");
    }
    if text_eq(ext, "png") {
        return Some("image/png");
    }
    if text_eq(ext, "gif") {
        return Some("image/gif");
    }
    if text_eq(ext, "svg") {
        return Some("image/svg+xml");
    }
    if text_eq(ext, "webp") {
        return Some("image/webp");
    }
    if text_eq(ext, "bmp") {
        return Some("image/bmp");
    }
    if text_eq(ext, "tif") || text_eq(ext, "tiff") {
        return Some("image/tiff");
    }
    if text_eq(ext, "ico") {
        return Some("image/x-icon");
    }
    if text_eq(ext, "heic") || text_eq(ext, "heif") {
        return Some("image/heif");
    }
    if text_eq(ext, "avif") {
        return Some("image/avif");
    }
    None
}

/// The MIME types of audio files by extension.
pub open spec fn audio_mime(ext: Seq<char>) -> Option<Seq<char>> {
    if ext == "mp3"@ {
        Some("audio/mpeg"@)
    } else if ext == "wav"@ {
        Some("audio/wav"@)
    } else if ext == "ogg"@ || ext == "oga"@ {
        Some("audio/ogg"@)
    } else if ext == "weba"@ {
        Some("audio/webm"@)
    } else if ext == "aac"@ {
        Some("audio/aac"@)
    } else if ext == "flac"@ {
        Some("audio/flac"@)
    } else if ext == "m4a"@ {
        Some("audio/mp4"@)
    } else if ext == "opus"@ {
        Some("audio/opus"@)
    } else {
        None
    }
}

/// Looks up the MIME type of audio files.
fn audio_mime_type(ext: &str) -> (r: Option<&'static str>)
    ensures
        opt_str(r) == audio_mime(ext@),
{
    if text_eq(ext, "mp3") {
        return Some("audio/mpeg");
    }
    if text_eq(ext, "wav") {
        return Some("audio/wav");
    }
    if text_eq(ext, "ogg") || text_eq(ext, "oga") {
        return Some("audio/ogg");
    }
    if text_eq(ext, "weba") {
        return Some("audio/webm");
    }
    if text_eq(ext, "aac") {
        return Some("audio/aac");
    }
    if text_eq(ext, "flac") {
        return Some("audio/flac");
    }
    if text_eq(ext, "m4a") {
        return Some("audio/mp4");
    }
    if text_eq(ext, "opus") {
        return Some("audio/opus");
    }
    None
}

/// The MIME types of video files by extension.
pub open spec fn video_mime(ext: Seq<char>) -> Option<Seq<char>> {
    if ext == "mp4"@ || ext == "m4v"@ {
        Some("video/mp4"@)
    } else if ext == "mpeg"@ || ext == "mpg"@ {
        Some("video/mpeg"@)
    } else if ext == "webm"@ {
        Some("video/webm"@)
    } else if ext == "ogv"@ {
        Some("video/ogg"@)
    } else if ext == "avi"@ {
        Some("video/x-msvideo"@)
    } else if ext == "mov"@ || ext == "qt"@ {
        Some("video/quicktime"@)
    } else if ext == "mkv"@ {
        Some("video/x-matroska"@)
    } else if ext == "flv"@ {
        Some("video/x-flv"@)
    } else if ext == "wmv"@ {
        Some("video/x-ms-wmv"@)
    } else {
        None
    }
}

/// Looks up the MIME type of video files.
fn video_mime_type(ext: &str) -> (r: Option<&'static str>)
    ensures
        opt_str(r) == video_mime(ext@),
{
    if text_eq(ext, "mp4") || text_eq(ext, "m4v") {
        return Some("video/mp4");
    }
    if text_eq(ext, "mpeg") || text_eq(ext, "mpg") {
        return Some("video/mpeg");
    }
    if text_eq(ext, "webm") {
        return Some("video/webm");
    }
    if text_eq(ext, "ogv") {
        return Some("video/ogg");
    }
    if text_eq(ext, "avi") {
        return Some("video/x-msvideo");
    }
    if text_eq(ext, "mov") || text_eq(ext, "qt") {
        return Some("video/quicktime");
    }
    if text_eq(ext, "mkv") {
        return Some("video/x-matroska");
    }
    if text_eq(ext, "flv") {
        return Some("video/x-flv");
    }
    if text_eq(ext, "wmv") {
        return Some("video/x-ms-wmv");
    }
    None
}

/// The MIME types of application files by extension.
pub open spec fn application_mime(ext: Seq<char>) -> Option<Seq<char>> {
    if ext == "pdf"@ {
        Some("application/pdf"@)
    } else if ext == "zip"@ {
        Some("application/zip"@)
    } else if ext == "rar"@ {
        Some("application/x-rar-compressed"@)
    } else if ext == "json"@ {
        Some("application/json"@)
    } else if ext == "jsonld"@ {
        Some("application/ld+json"@)
    } else if ext == "doc"@ {
        Some("application/msword"@)
    } else if ext == "docx"@ {
        Some("application/vnd.openxmlformats-officedocument.wordprocessingml.document"@)
    } else if ext == "xls"@ {
        Some("application/vnd.ms-excel"@)
    } else if ext == "xlsx"@ {
        Some("application/vnd.openxmlformats-officedocument.spreadsheetml.sheet"@)
    } else if ext == "ppt"@ {
        Some("application/vnd.ms-powerpoint"@)
    } else if ext == "pptx"@ {
        Some("application/vnd.openxmlformats-officedocument.presentationml.presentation"@)
    } else if ext == "7z"@ {
        Some("application/x-7z-compressed"@)
    } else if ext == "tar"@ {
        Some("application/x-tar"@)
    } else if ext == "gz"@ || ext == "gzip"@ {
        Some("application/gzip"@)
    } else if ext == "bz"@ || ext == "bz2"@ {
        Some("application/x-bzip2"@)
    } else if ext == "apk"@ {
        Some("application/vnd.android.package-archive"@)
    } else if ext == "jar"@ {
        Some("application/java-archive"@)
    } else if ext == "war"@ {
        Some("application/java-archive"@)
    } else if ext == "exe"@ {
        Some("application/x-msdownload"@)
    } else if ext == "dmg"@ {
        Some("application/x-apple-diskimage"@)
    } else if ext == "deb"@ {
        Some("application/x-debian-package"@)
    } else if ext == "rpm"@ {
        Some("application/x-rpm"@)
    } else if ext == "bin"@ || ext == "dll"@ || ext == "so"@ {
        Some("application/octet-stream"@)
    } else if ext == "wasm"@ {
        Some("application/wasm"@)
    } else if ext == "sh"@ {
        Some("application/x-sh"@)
    } else if ext == "sql"@ {
        Some("application/sql"@)
    } else if ext == "yaml"@ || ext == "yml"@ {
        Some("application/x-yaml"@)
    } else if ext == "toml"@ {
        Some("application/toml"@)
    } else {
        None
    }
}

/// Looks up the MIME type of application files.
fn application_mime_type(ext: &str) -> (r: Option<&'static str>)
    ensures
        opt_str(r) == application_mime(ext@),
{
    if text_eq(ext, "pdf") {
        return Some("application/pdf");
    }
    if text_eq(ext, "zip") {
        return Some("application/zip");
    }
    if text_eq(ext, "rar") {
        return Some("application/x-rar-compressed");
    }
    if text_eq(ext, "json") {
        return Some("application/json");
    }
    if text_eq(ext, "jsonld") {
        return Some("application/ld+json");
    }
    if text_eq(ext, "doc") {
        return Some("application/msword");
    }
    if text_eq(ext, "docx") {
        return Some("application/vnd.openxmlformats-officedocument.wordprocessingml.document");
    }
    if text_eq(ext, "xls") {
        return Some("application/vnd.ms-excel");
    }
    if text_eq(ext, "xlsx") {
        return Some("application/vnd.openxmlformats-officedocument.spreadsheetml.sheet");
    }
    if text_eq(ext, "ppt") {
        return Some("application/vnd.ms-powerpoint");
    }
    if text_eq(ext, "pptx") {
        return Some("application/vnd.openxmlformats-officedocument.presentationml.presentation");
    }
    if text_eq(ext, "7z") {
        return Some("application/x-7z-compressed");
    }
    if text_eq(ext, "tar") {
        return Some("application/x-tar");
    }
    if text_eq(ext, "gz") || text_eq(ext, "gzip") {
        return Some("application/gzip");
    }
    if text_eq(ext, "bz") || text_eq(ext, "bz2") {
        return Some("application/x-bzip2");
    }
    if text_eq(ext, "apk") {
        return Some("application/vnd.android.package-archive");
    }
    if text_eq(ext, "jar") {
        return Some("application/java-archive");
    }
    if text_eq(ext, "war") {
        return Some("application/java-archive");
    }
    if text_eq(ext, "exe") {
        return Some("application/x-msdownload");
    }
    if text_eq(ext, "dmg") {
        return Some("application/x-apple-diskimage");
    }
    if text_eq(ext, "deb") {
        return Some("application/x-debian-package");
    }
    if text_eq(ext, "rpm") {
        return Some("application/x-rpm");
    }
    if text_eq(ext, "bin") || text_eq(ext, "dll") || text_eq(ext, "so") {
        return Some("application/octet-stream");
    }
    if text_eq(ext, "wasm") {
        return Some("application/wasm");
    }
    if text_eq(ext, "sh") {
        return Some("application/x-sh");
    }
    if text_eq(ext, "sql") {
        return Some("application/sql");
    }
    if text_eq(ext, "yaml") || text_eq(ext, "yml") {
        return Some("application/x-yaml");
    }
    if text_eq(ext, "toml") {
        return Some("application/toml");
    }
    None
}

/// The MIME types of font files by extension.
pub open spec fn font_mime(ext: Seq<char>) -> Option<Seq<char>> {
    if ext == "woff"@ {
        Some("font/woff"@)
    } else if ext == "woff2"@ {
        Some("font/woff2"@)
    } else if ext == "ttf"@ {
        Some("font/ttf"@)
    } else if ext == "otf"@ {
        Some("font/otf"@)
    } else {
        None
    }
}

/// Looks up the MIME type of font files.
fn font_mime_type(ext: &str) -> (r: Option<&'static str>)
    ensures
        opt_str(r) == font_mime(ext@),
{
    if text_eq(ext, "woff") {
        return Some("font/woff");
    }
    if text_eq(ext, "woff2") {
        return Some("font/woff2");
    }
    if text_eq(ext, "ttf") {
        return Some("font/ttf");
    }
    if text_eq(ext, "otf") {
        return Some("font/otf");
    }
    None
}

/// The MIME type for a lowercase file extension, if it is a known one.
pub open spec fn mime_for(ext: Seq<char>) -> Option<Seq<char>> {
    if text_mime(ext) is Some {
        text_mime(ext)
    } else if image_mime(ext) is Some {
        image_mime(ext)
    } else if audio_mime(ext) is Some {
        audio_mime(ext)
    } else if video_mime(ext) is Some {
        video_mime(ext)
    } else if application_mime(ext) is Some {
        application_mime(ext)
    } else {
        font_mime(ext)
    }
}

/// The characters of each known extension.
proof fn lemma_extension_chars()
    ensures
        "txt"@.len() == 3 && "txt"@[0] == 't' && "txt"@[1] == 'x' && "txt"@[2] == 't',
        "html"@.len() == 4 && "html"@[0] == 'h' && "html"@[1] == 't' && "html"@[2] == 'm' && "html"@[3] == 'l',
        "htm"@.len() == 3 && "htm"@[0] == 'h' && "htm"@[1] == 't' && "htm"@[2] == 'm',
        "css"@.len() == 3 && "css"@[0] == 'c' && "css"@[1] == 's' && "css"@[2] == 's',
        "js"@.len() == 2 && "js"@[0] == 'j' && "js"@[1] == 's',
        "mjs"@.len() == 3 && "mjs"@[0] == 'm' && "mjs"@[1] == 'j' && "mjs"@[2] == 's',
        "csv"@.len() == 3 && "csv"@[0] == 'c' && "csv"@[1] == 's' && "csv"@[2] == 'v',
        "xml"@.len() == 3 && "xml"@[0] == 'x' && "xml"@[1] == 'm' && "xml"@[2] == 'l',
        "md"@.len() == 2 && "md"@[0] == 'm' && "md"@[1] == 'd',
        "markdown"@.len() == 8 && "markdown"@[0] == 'm' && "markdown"@[1] == 'a' && "markdown"@[2] == 'r' && "markdown"@[3] == 'k' && "markdown"@[4] == 'd' && "markdown"@[5] == 'o' && "markdown"@[6] == 'w' && "markdown"@[7] == 'n',
        "rtf"@.len() == 3 && "rtf"@[0] == 'r' && "rtf"@[1] == 't' && "rtf"@[2] == 'f',
        "tex"@.len() == 3 && "tex"@[0] == 't' && "tex"@[1] == 'e' && "tex"@[2] == 'x',
        "jpg"@.len() == 3 && "jpg"@[0] == 'j' && "jpg"@[1] == 'p' && "jpg"@[2] == 'g',
        "jpeg"@.len() == 4 && "jpeg"@[0] == 'j' && "jpeg"@[1] == 'p' && "jpeg"@[2] == 'e' && "jpeg"@[3] == 'g',
        "png"@.len() == 3 && "png"@[0] == 'p' && "png"@[1] == 'n' && "png"@[2] == 'g',
        "gif"@.len() == 3 && "gif"@[0] == 'g' && "gif"@[1] == 'i' && "gif"@[2] == 'f',
        "svg"@.len() == 3 && "svg"@[0] == 's' && "svg"@[1] == 'v' && "svg"@[2] == 'g',
        "webp"@.len() == 4 && "webp"@[0] == 'w' && "webp"@[1] == 'e' && "webp"@[2] == 'b' && "webp"@[3] == 'p',
        "bmp"@.len() == 3 && "bmp"@[0] == 'b' && "bmp"@[1] == 'm' && "bmp"@[2] == 'p',
        "tif"@.len() == 3 && "tif"@[0] == 't' && "tif"@[1] == 'i' && "tif"@[2] == 'f',
        "tiff"@.len() == 4 && "tiff"@[0] == 't' && "tiff"@[1] == 'i' && "tiff"@[2] == 'f' && "tiff"@[3] == 'f',
        "ico"@.len() == 3 && "ico"@[0] == 'i' && "ico"@[1] == 'c' && "ico"@[2] == 'o',
        "heic"@.len() == 4 && "heic"@[0] == 'h' && "heic"@[1] == 'e' && "heic"@[2] == 'i' && "heic"@[3] == 'c',
        "heif"@.len() == 4 && "heif"@[0] == 'h' && "heif"@[1] == 'e' && "heif"@[2] == 'i' && "heif"@[3] == 'f',
        "avif"@.len() == 4 && "avif"@[0] == 'a' && "avif"@[1] == 'v' && "avif"@[2] == 'i' && "avif"@[3] == 'f',
        "mp3"@.len() == 3 && "mp3"@[0] == 'm' && "mp3"@[1] == 'p' && "mp3"@[2] == '3',
        "wav"@.len() == 3 && "wav"@[0] == 'w' && "wav"@[1] == 'a' && "wav"@[2] == 'v',
        "ogg"@.len() == 3 && "ogg"@[0] == 'o' && "ogg"@[1] == 'g' && "ogg"@[2] == 'g',
        "oga"@.len() == 3 && "oga"@[0] == 'o' && "oga"@[1] == 'g' && "oga"@[2] == 'a',
        "weba"@.len() == 4 && "weba"@[0] == 'w' && "weba"@[1] == 'e' && "weba"@[2] == 'b' && "weba"@[3] == 'a',
        "aac"@.len() == 3 && "aac"@[0] == 'a' && "aac"@[1] == 'a' && "aac"@[2] == 'c',
        "flac"@.len() == 4 && "flac"@[0] == 'f' && "flac"@[1] == 'l' && "flac"@[2] == 'a' && "flac"@[3] == 'c',
        "m4a"@.len() == 3 && "m4a"@[0] == 'm' && "m4a"@[1] == '4' && "m4a"@[2] == 'a',
        "opus"@.len() == 4 && "opus"@[0] == 'o' && "opus"@[1] == 'p' && "opus"@[2] == 'u' && "opus"@[3] == 's',
        "mp4"@.len() == 3 && "mp4"@[0] == 'm' && "mp4"@[1] == 'p' && "mp4"@[2] == '4',
        "m4v"@.len() == 3 && "m4v"@[0] == 'm' && "m4v"@[1] == '4' && "m4v"@[2] == 'v',
        "mpeg"@.len() == 4 && "mpeg"@[0] == 'm' && "mpeg"@[1] == 'p' && "mpeg"@[2] == 'e' && "mpeg"@[3] == 'g',
        "mpg"@.len() == 3 && "mpg"@[0] == 'm' && "mpg"@[1] == 'p' && "mpg"@[2] == 'g',
        "webm"@.len() == 4 && "webm"@[0] == 'w' && "webm"@[1] == 'e' && "webm"@[2] == 'b' && "webm"@[3] == 'm',
        "ogv"@.len() == 3 && "ogv"@[0] == 'o' && "ogv"@[1] == 'g' && "ogv"@[2] == 'v',
        "avi"@.len() == 3 && "avi"@[0] == 'a' && "avi"@[1] == 'v' && "avi"@[2] == 'i',
        "mov"@.len() == 3 && "mov"@[0] == 'm' && "mov"@[1] == 'o' && "mov"@[2] == 'v',
        "qt"@.len() == 2 && "qt"@[0] == 'q' && "qt"@[1] == 't',
        "mkv"@.len() == 3 && "mkv"@[0] == 'm' && "mkv"@[1] == 'k' && "mkv"@[2] == 'v',
        "flv"@.len() == 3 && "flv"@[0] == 'f' && "flv"@[1] == 'l' && "flv"@[2] == 'v',
        "wmv"@.len() == 3 && "wmv"@[0] == 'w' && "wmv"@[1] == 'm' && "wmv"@[2] == 'v',
        "pdf"@.len() == 3 && "pdf"@[0] == 'p' && "pdf"@[1] == 'd' && "pdf"@[2] == 'f',
        "zip"@.len() == 3 && "zip"@[0] == 'z' && "zip"@[1] == 'i' && "zip"@[2] == 'p',
        "rar"@.len() == 3 && "rar"@[0] == 'r' && "rar"@[1] == 'a' && "rar"@[2] == 'r',
        "json"@.len() == 4 && "json"@[0] == 'j' && "json"@[1] == 's' && "json"@[2] == 'o' && "json"@[3] == 'n',
        "jsonld"@.len() == 6 && "jsonld"@[0] == 'j' && "jsonld"@[1] == 's' && "jsonld"@[2] == 'o' && "jsonld"@[3] == 'n' && "jsonld"@[4] == 'l' && "jsonld"@[5] == 'd',
        "doc"@.len() == 3 && "doc"@[0] == 'd' && "doc"@[1] == 'o' && "doc"@[2] == 'c',
        "docx"@.len() == 4 && "docx"@[0] == 'd' && "docx"@[1] == 'o' && "docx"@[2] == 'c' && "docx"@[3] == 'x',
        "xls"@.len() == 3 && "xls"@[0] == 'x' && "xls"@[1] == 'l' && "xls"@[2] == 's',
        "xlsx"@.len() == 4 && "xlsx"@[0] == 'x' && "xlsx"@[1] == 'l' && "xlsx"@[2] == 's' && "xlsx"@[3] == 'x',
        "ppt"@.len() == 3 && "ppt"@[0] == 'p' && "ppt"@[1] == 'p' && "ppt"@[2] == 't',
        "pptx"@.len() == 4 && "pptx"@[0] == 'p' && "pptx"@[1] == 'p' && "pptx"@[2] == 't' && "pptx"@[3] == 'x',
        "7z"@.len() == 2 && "7z"@[0] == '7' && "7z"@[1] == 'z',
        "tar"@.len() == 3 && "tar"@[0] == 't' && "tar"@[1] == 'a' && "tar"@[2] == 'r',
        "gz"@.len() == 2 && "gz"@[0] == 'g' && "gz"@[1] == 'z',
        "gzip"@.len() == 4 && "gzip"@[0] == 'g' && "gzip"@[1] == 'z' && "gzip"@[2] == 'i' && "gzip"@[3] == 'p',
        "bz"@.len() == 2 && "bz"@[0] == 'b' && "bz"@[1] == 'z',
        "bz2"@.len() == 3 && "bz2"@[0] == 'b' && "bz2"@[1] == 'z' && "bz2"@[2] == '2',
        "apk"@.len() == 3 && "apk"@[0] == 'a' && "apk"@[1] == 'p' && "apk"@[2] == 'k',
        "jar"@.len() == 3 && "jar"@[0] == 'j' && "jar"@[1] == 'a' && "jar"@[2] == 'r',
        "war"@.len() == 3 && "war"@[0] == 'w' && "war"@[1] == 'a' && "war"@[2] == 'r',
        "exe"@.len() == 3 && "exe"@[0] == 'e' && "exe"@[1] == 'x' && "exe"@[2] == 'e',
        "dmg"@.len() == 3 && "dmg"@[0] == 'd' && "dmg"@[1] == 'm' && "dmg"@[2] == 'g',
        "deb"@.len() == 3 && "deb"@[0] == 'd' && "deb"@[1] == 'e' && "deb"@[2] == 'b',
        "rpm"@.len() == 3 && "rpm"@[0] == 'r' && "rpm"@[1] == 'p' && "rpm"@[2] == 'm',
        "bin"@.len() == 3 && "bin"@[0] == 'b' && "bin"@[1] == 'i' && "bin"@[2] == 'n',
        "dll"@.len() == 3 && "dll"@[0] == 'd' && "dll"@[1] == 'l' && "dll"@[2] == 'l',
        "so"@.len() == 2 && "so"@[0] == 's' && "so"@[1] == 'o',
        "wasm"@.len() == 4 && "wasm"@[0] == 'w' && "wasm"@[1] == 'a' && "wasm"@[2] == 's' && "wasm"@[3] == 'm',
        "sh"@.len() == 2 && "sh"@[0] == 's' && "sh"@[1] == 'h',
        "sql"@.len() == 3 && "sql"@[0] == 's' && "sql"@[1] == 'q' && "sql"@[2] == 'l',
        "yaml"@.len() == 4 && "yaml"@[0] == 'y' && "yaml"@[1] == 'a' && "yaml"@[2] == 'm' && "yaml"@[3] == 'l',
        "yml"@.len() == 3 && "yml"@[0] == 'y' && "yml"@[1] == 'm' && "yml"@[2] == 'l',
        "toml"@.len() == 4 && "toml"@[0] == 't' && "toml"@[1] == 'o' && "toml"@[2] == 'm' && "toml"@[3] == 'l',
        "woff"@.len() == 4 && "woff"@[0] == 'w' && "woff"@[1] == 'o' && "woff"@[2] == 'f' && "woff"@[3] == 'f',
        "woff2"@.len() == 5 && "woff2"@[0] == 'w' && "woff2"@[1] == 'o' && "woff2"@[2] == 'f' && "woff2"@[3] == 'f' && "woff2"@[4] == '2',
        "ttf"@.len() == 3 && "ttf"@[0] == 't' && "ttf"@[1] == 't' && "ttf"@[2] == 'f',
        "otf"@.len() == 3 && "otf"@[0] == 'o' && "otf"@[1] == 't' && "otf"@[2] == 'f',
{
    reveal_strlit("txt");
    reveal_strlit("html");
    reveal_strlit("htm");
    reveal_strlit("css");
    reveal_strlit("js");
    reveal_strlit("mjs");
    reveal_strlit("csv");
    reveal_strlit("xml");
    reveal_strlit("md");
    reveal_strlit("markdown");
    reveal_strlit("rtf");
    reveal_strlit("tex");
    reveal_strlit("jpg");
    reveal_strlit("jpeg");
    reveal_strlit("png");
    reveal_strlit("gif");
    reveal_strlit("svg");
    reveal_strlit("webp");
    reveal_strlit("bmp");
    reveal_strlit("tif");
    reveal_strlit("tiff");
    reveal_strlit("ico");
    reveal_strlit("heic");
    reveal_strlit("heif");
    reveal_strlit("avif");
    reveal_strlit("mp3");
    reveal_strlit("wav");
    reveal_strlit("ogg");
    reveal_strlit("oga");
    reveal_strlit("weba");
    reveal_strlit("aac");
    reveal_strlit("flac");
    reveal_strlit("m4a");
    reveal_strlit("opus");
    reveal_strlit("mp4");
    reveal_strlit("m4v");
    reveal_strlit("mpeg");
    reveal_strlit("mpg");
    reveal_strlit("webm");
    reveal_strlit("ogv");
    reveal_strlit("avi");
    reveal_strlit("mov");
    reveal_strlit("qt");
    reveal_strlit("mkv");
    reveal_strlit("flv");
    reveal_strlit("wmv");
    reveal_strlit("pdf");
    reveal_strlit("zip");
    reveal_strlit("rar");
    reveal_strlit("json");
    reveal_strlit("jsonld");
    reveal_strlit("doc");
    reveal_strlit("docx");
    reveal_strlit("xls");
    reveal_strlit("xlsx");
    reveal_strlit("ppt");
    reveal_strlit("pptx");
    reveal_strlit("7z");
    reveal_strlit("tar");
    reveal_strlit("gz");
    reveal_strlit("gzip");
    reveal_strlit("bz");
    reveal_strlit("bz2");
    reveal_strlit("apk");
    reveal_strlit("jar");
    reveal_strlit("war");
    reveal_strlit("exe");
    reveal_strlit("dmg");
    reveal_strlit("deb");
    reveal_strlit("rpm");
    reveal_strlit("bin");
    reveal_strlit("dll");
    reveal_strlit("so");
    reveal_strlit("wasm");
    reveal_strlit("sh");
    reveal_strlit("sql");
    reveal_strlit("yaml");
    reveal_strlit("yml");
    reveal_strlit("toml");
    reveal_strlit("woff");
    reveal_strlit("woff2");
    reveal_strlit("ttf");
    reveal_strlit("otf");
}

/// The registered MIME type of each known text file extension.
pub proof fn lemma_text_extensions()
    ensures
        mime_for("txt"@) == Some("text/plain"@),
        mime_for("html"@) == Some("text/html"@),
        mime_for("htm"@) == Some("text/html"@),
        mime_for("css"@) == Some("text/css"@),
        mime_for("js"@) == Some("text/javascript"@),
        mime_for("mjs"@) == Some("text/javascript"@),
        mime_for("csv"@) == Some("text/csv"@),
        mime_for("xml"@) == Some("text/xml"@),
        mime_for("md"@) == Some("text/markdown"@),
        mime_for("markdown"@) == Some("text/markdown"@),
        mime_for("rtf"@) == Some("application/rtf"@),
        mime_for("tex"@) == Some("application/x-tex"@),
{
    lemma_extension_chars();
}

/// The registered MIME type of each known image file extension.
pub proof fn lemma_image_extensions()
    ensures
        mime_for("jpg"@) == Some("image/jpeg"@),
        mime_for("jpeg"@) == Some("image/jpeg"@),
        mime_for("png"@) == Some("image/png"@),
        mime_for("gif"@) == Some("image/gif"@),
        mime_for("svg"@) == Some("image/svg+xml"@),
        mime_for("webp"@) == Some("image/webp"@),
        mime_for("bmp"@) == Some("image/bmp"@),
        mime_for("tif"@) == Some("image/tiff"@),
        mime_for("tiff"@) == Some("image/tiff"@),
        mime_for("ico"@) == Some("image/x-icon"@),
        mime_for("heic"@) == Some("image/heif"@),
        mime_for("heif"@) == Some("image/heif"@),
        mime_for("avif"@) == Some("image/avif"@),
{
    lemma_extension_chars();
}

/// The registered MIME type of each known audio file extension.
pub proof fn lemma_audio_extensions()
    ensures
        mime_for("mp3"@) == Some("audio/mpeg"@),
        mime_for("wav"@) == Some("audio/wav"@),
        mime_for("ogg"@) == Some("audio/ogg"@),
        mime_for("oga"@) == Some("audio/ogg"@),
        mime_for("weba"@) == Some("audio/webm"@),
        mime_for("aac"@) == Some("audio/aac"@),
        mime_for("flac"@) == Some("audio/flac"@),
        mime_for("m4a"@) == Some("audio/mp4"@),
        mime_for("opus"@) == Some("audio/opus"@),
{
    lemma_extension_chars();
}

/// The registered MIME type of each known video file extension.
pub proof fn lemma_video_extensions()
    ensures
        mime_for("mp4"@) == Some("video/mp4"@),
        mime_for("m4v"@) == Some("video/mp4"@),
        mime_for("mpeg"@) == Some("video/mpeg"@),
        mime_for("mpg"@) == Some("video/mpeg"@),
        mime_for("webm"@) == Some("video/webm"@),
        mime_for("ogv"@) == Some("video/ogg"@),
        mime_for("avi"@) == Some("video/x-msvideo"@),
        mime_for("mov"@) == Some("video/quicktime"@),
        mime_for("qt"@) == Some("video/quicktime"@),
        mime_for("mkv"@) == Some("video/x-matroska"@),
        mime_for("flv"@) == Some("video/x-flv"@),
        mime_for("wmv"@) == Some("video/x-ms-wmv"@),
{
    lemma_extension_chars();
}

/// The registered MIME type of each known application file extension.
pub proof fn lemma_application_extensions()
    ensures
        mime_for("pdf"@) == Some("application/pdf"@),
        mime_for("zip"@) == Some("application/zip"@),
        mime_for("rar"@) == Some("application/x-rar-compressed"@),
        mime_for("json"@) == Some("application/json"@),
        mime_for("jsonld"@) == Some("application/ld+json"@),
        mime_for("doc"@) == Some("application/msword"@),
        mime_for("docx"@) == Some("application/vnd.openxmlformats-officedocument.wordprocessingml.document"@),
        mime_for("xls"@) == Some("application/vnd.ms-excel"@),
        mime_for("xlsx"@) == Some("application/vnd.openxmlformats-officedocument.spreadsheetml.sheet"@),
        mime_for("ppt"@) == Some("application/vnd.ms-powerpoint"@),
        mime_for("pptx"@) == Some("application/vnd.openxmlformats-officedocument.presentationml.presentation"@),
        mime_for("7z"@) == Some("application/x-7z-compressed"@),
        mime_for("tar"@) == Some("application/x-tar"@),
        mime_for("gz"@) == Some("application/gzip"@),
        mime_for("gzip"@) == Some("application/gzip"@),
        mime_for("bz"@) == Some("application/x-bzip2"@),
        mime_for("bz2"@) == Some("application/x-bzip2"@),
        mime_for("apk"@) == Some("application/vnd.android.package-archive"@),
        mime_for("jar"@) == Some("application/java-archive"@),
        mime_for("war"@) == Some("application/java-archive"@),
        mime_for("exe"@) == Some("application/x-msdownload"@),
        mime_for("dmg"@) == Some("application/x-apple-diskimage"@),
        mime_for("deb"@) == Some("application/x-debian-package"@),
        mime_for("rpm"@) == Some("application/x-rpm"@),
        mime_for("bin"@) == Some("application/octet-stream"@),
        mime_for("dll"@) == Some("application/octet-stream"@),
        mime_for("so"@) == Some("application/octet-stream"@),
        mime_for("wasm"@) == Some("application/wasm"@),
        mime_for("sh"@) == Some("application/x-sh"@),
        mime_for("sql"@) == Some("application/sql"@),
        mime_for("yaml"@) == Some("application/x-yaml"@),
        mime_for("yml"@) == Some("application/x-yaml"@),
        mime_for("toml"@) == Some("application/toml"@),
{
    lemma_extension_chars();
}

/// The registered MIME type of each known font file extension.
pub proof fn lemma_font_extensions()
    ensures
        mime_for("woff"@) == Some("font/woff"@),
        mime_for("woff2"@) == Some("font/woff2"@),
        mime_for("ttf"@) == Some("font/ttf"@),
        mime_for("otf"@) == Some("font/otf"@),
{
    lemma_extension_chars();
}

/// Extensions outside the table have no MIME type: there is no default.
pub proof fn lemma_unknown_extensions(ext: Seq<char>)
    requires
        ext != "txt"@,
        ext != "html"@,
        ext != "htm"@,
        ext != "css"@,
        ext != "js"@,
        ext != "mjs"@,
        ext != "csv"@,
        ext != "xml"@,
        ext != "md"@,
        ext != "markdown"@,
        ext != "rtf"@,
        ext != "tex"@,
        ext != "jpg"@,
        ext != "jpeg"@,
        ext != "png"@,
        ext != "gif"@,
        ext != "svg"@,
        ext != "webp"@,
        ext != "bmp"@,
        ext != "tif"@,
        ext != "tiff"@,
        ext != "ico"@,
        ext != "heic"@,
        ext != "heif"@,
        ext != "avif"@,
        ext != "mp3"@,
        ext != "wav"@,
        ext != "ogg"@,
        ext != "oga"@,
        ext != "weba"@,
        ext != "aac"@,
        ext != "flac"@,
        ext != "m4a"@,
        ext != "opus"@,
        ext != "mp4"@,
        ext != "m4v"@,
        ext != "mpeg"@,
        ext != "mpg"@,
        ext != "webm"@,
        ext != "ogv"@,
        ext != "avi"@,
        ext != "mov"@,
        ext != "qt"@,
        ext != "mkv"@,
        ext != "flv"@,
        ext != "wmv"@,
        ext != "pdf"@,
        ext != "zip"@,
        ext != "rar"@,
        ext != "json"@,
        ext != "jsonld"@,
        ext != "doc"@,
        ext != "docx"@,
        ext != "xls"@,
        ext != "xlsx"@,
        ext != "ppt"@,
        ext != "pptx"@,
        ext != "7z"@,
        ext != "tar"@,
        ext != "gz"@,
        ext != "gzip"@,
        ext != "bz"@,
        ext != "bz2"@,
        ext != "apk"@,
        ext != "jar"@,
        ext != "war"@,
        ext != "exe"@,
        ext != "dmg"@,
        ext != "deb"@,
        ext != "rpm"@,
        ext != "bin"@,
        ext != "dll"@,
        ext != "so"@,
        ext != "wasm"@,
        ext != "sh"@,
        ext != "sql"@,
        ext != "yaml"@,
        ext != "yml"@,
        ext != "toml"@,
        ext != "woff"@,
        ext != "woff2"@,
        ext != "ttf"@,
        ext != "otf"@,
    ensures
        mime_for(ext) is None,
{
}

/// Returns the MIME type for a file extension, which must already be lowercase.
pub fn mime_for_extension(ext: &str) -> (r: Option<&'static str>)
    ensures
        opt_str(r) == mime_for(ext@),
{
    let r = text_mime_type(ext);
    if r.is_some() {
        return r;
    }
    let r = image_mime_type(ext);
    if r.is_some() {
        return r;
    }
    let r = audio_mime_type(ext);
    if r.is_some() {
        return r;
    }
    let r = video_mime_type(ext);
    if r.is_some() {
        return r;
    }
    let r = application_mime_type(ext);
    if r.is_some() {
        return r;
    }
    font_mime_type(ext)
}

/// Returns the MIME type for a file path, from the extension of its file name compared
/// without regard to case; `None` when the extension is missing or not a known one.
pub fn get_mime_type(path: &str) -> (r: Option<&'static str>)
    ensures
        match path_extension(path@) {
            None => r is None,
            Some(ext) => opt_str(r) == mime_for(unicode_lowercase(ext)),
        },
{
    let ext = match extension_of(path) {
        Some(e) => e,
        None => return None,
    };
    let lower = to_lowercase(ext);
    mime_for_extension(lower.as_str())
}

} // verus!
