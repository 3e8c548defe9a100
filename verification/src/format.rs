//! Container formats and their detection from a file name.

use vstd::prelude::*;
use vstd::string::*;
use crate::text::{lowercase_of, str_eq, to_lowercase};
use std::path::Path;

verus! {

/// Supported media container formats.
#[derive(Debug, Clone, PartialEq)]
pub enum MediaFormat {
    /// IVF, a length-prefixed frame container for VP8, VP9 and AV1 bitstreams.
    Ivf,
    /// Matroska or WebM.
    Matroska,
    /// Y4M, uncompressed video.
    Y4m,
    /// Any other format, with the lowercase extension that named it.
    Unknown(String),
}

/// A container format as contracts see it.
pub enum MediaFormatView {
    Ivf,
    Matroska,
    Y4m,
    Unknown(Seq<char>),
}

impl View for MediaFormat {
    type V = MediaFormatView;

    open spec fn view(&self) -> MediaFormatView {
        match self {
            MediaFormat::Ivf => MediaFormatView::Ivf,
            MediaFormat::Matroska => MediaFormatView::Matroska,
            MediaFormat::Y4m => MediaFormatView::Y4m,
            MediaFormat::Unknown(name) => MediaFormatView::Unknown(name@),
        }
    }
}

/// The format that a file extension stands for. The known extensions are
/// matched as written; any other is kept in lowercase.
pub open spec fn format_of_extension(extension: Option<Seq<char>>) -> MediaFormatView {
    match extension {
        None => MediaFormatView::Unknown(Seq::empty()),
        Some(ext) => if ext == "ivf"@ {
            MediaFormatView::Ivf
        } else if ext == "mkv"@ || ext == "webm"@ {
            MediaFormatView::Matroska
        } else if ext == "y4m"@ {
            MediaFormatView::Y4m
        } else {
            MediaFormatView::Unknown(lowercase_of(ext))
        },
    }
}

/// The short name of a format.
pub open spec fn format_name_spec(format: MediaFormatView) -> Seq<char> {
    match format {
        MediaFormatView::Ivf => "ivf"@,
        MediaFormatView::Matroska => "matroska"@,
        MediaFormatView::Y4m => "y4m"@,
        MediaFormatView::Unknown(name) => name,
    }
}

/// The descriptive name of a format.
pub open spec fn format_long_name_spec(format: MediaFormatView) -> Seq<char> {
    match format {
        MediaFormatView::Ivf => "Indeo Video Format (IVF)"@,
        MediaFormatView::Matroska => "Matroska/WebM container"@,
        MediaFormatView::Y4m => "YUV4MPEG2 uncompressed video"@,
        MediaFormatView::Unknown(name) => "Unknown format: "@ + name,
    }
}

/// What `Path::extension` makes of the path `path`: the extension of the file
/// that the path names, if it has one.
pub uninterp spec fn extension_of(path: Seq<char>) -> Option<Seq<char>>;

/// The text of an extension, where there is one.
pub open spec fn extension_text(extension: Option<String>) -> Option<Seq<char>> {
    match extension {
        Some(text) => Some(text@),
        None => None,
    }
}

/// The extension of the file that `path` names, by `Path::extension` of the
/// standard library: the part of the file name after its last dot, if it has
/// one that does not lead the name. The result is a function of the text of
/// the path alone; no file is looked at.
#[verifier::external_body]
pub(crate) fn path_extension(path: &str) -> (extension: Option<String>)
    ensures
        extension_text(extension) == extension_of(path@),
{
    match Path::new(path).extension() {
        Some(ext) => match ext.to_str() {
            Some(text) => Some(text.to_string()),
            None => None,
        },
        None => None,
    }
}

/// The format of the file that `path` names: the format that its extension
/// stands for.
pub open spec fn format_of_path(path: Seq<char>) -> MediaFormatView {
    format_of_extension(extension_of(path))
}

/// The format that the extension `extension` stands for.
pub fn format_from_extension(extension: Option<&str>) -> (format: MediaFormat)
    ensures
        format@ == format_of_extension(
            match extension {
                Some(ext) => Some(ext@),
                None => None,
            },
        ),
{
    match extension {
        None => MediaFormat::Unknown(String::new()),
        Some(ext) => {
            if str_eq(ext, "ivf") {
                MediaFormat::Ivf
            } else if str_eq(ext, "mkv") || str_eq(ext, "webm") {
                MediaFormat::Matroska
            } else if str_eq(ext, "y4m") {
                MediaFormat::Y4m
            } else {
                MediaFormat::Unknown(to_lowercase(ext))
            }
        },
    }
}

/// Detects the container format from the extension of a file name. The file is
/// not opened: the format is that of the extension and of nothing else.
pub fn detect_format(path: &str) -> (format: MediaFormat)
    ensures
        format@ == format_of_path(path@),
{
    let extension = path_extension(path);
    match &extension {
        Some(ext) => format_from_extension(Some(ext.as_str())),
        None => format_from_extension(None),
    }
}

/// A copy of `format`.
pub fn copy_format(format: &MediaFormat) -> (copy: MediaFormat)
    ensures
        copy@ == format@,
{
    match format {
        MediaFormat::Ivf => MediaFormat::Ivf,
        MediaFormat::Matroska => MediaFormat::Matroska,
        MediaFormat::Y4m => MediaFormat::Y4m,
        MediaFormat::Unknown(name) => MediaFormat::Unknown(name.clone()),
    }
}

/// The short name of `format`.
pub fn format_name(format: &MediaFormat) -> (name: String)
    ensures
        name@ == format_name_spec(format@),
{
    match format {
        MediaFormat::Ivf => "ivf".to_string(),
        MediaFormat::Matroska => "matroska".to_string(),
        MediaFormat::Y4m => "y4m".to_string(),
        MediaFormat::Unknown(name) => name.clone(),
    }
}

/// The descriptive name of `format`.
pub fn format_long_name(format: &MediaFormat) -> (name: String)
    ensures
        name@ == format_long_name_spec(format@),
{
    match format {
        MediaFormat::Ivf => "Indeo Video Format (IVF)".to_string(),
        MediaFormat::Matroska => "Matroska/WebM container".to_string(),
        MediaFormat::Y4m => "YUV4MPEG2 uncompressed video".to_string(),
        MediaFormat::Unknown(name) => {
            let mut text = "Unknown format: ".to_string();
            text.append(name.as_str());
            text
        },
    }
}

/// The table of extensions: `ivf` is IVF, `mkv` and `webm` are Matroska,
/// `y4m` is Y4M, and no extension at all is the unknown format without a name.
pub proof fn lemma_extension_table()
    ensures
        format_of_extension(Some("ivf"@)) == MediaFormatView::Ivf,
        format_of_extension(Some("mkv"@)) == MediaFormatView::Matroska,
        format_of_extension(Some("webm"@)) == MediaFormatView::Matroska,
        format_of_extension(Some("y4m"@)) == MediaFormatView::Y4m,
        format_of_extension(None) == MediaFormatView::Unknown(Seq::empty()),
{
    reveal_strlit("ivf");
    reveal_strlit("mkv");
    reveal_strlit("webm");
    reveal_strlit("y4m");
    assert("mkv"@[0] != "ivf"@[0]);
    assert("webm"@.len() != "ivf"@.len());
    assert("y4m"@[0] != "ivf"@[0]);
    assert("y4m"@[0] != "mkv"@[0]);
    assert("y4m"@.len() != "webm"@.len());
}

/// The format of a path is the format of its extension and of nothing else:
/// two paths with the same extension have the same format.
pub proof fn lemma_format_by_extension_only(first: Seq<char>, second: Seq<char>)
    requires
        extension_of(first) == extension_of(second),
    ensures
        format_of_path(first) == format_of_path(second),
{
}

} // verus!
