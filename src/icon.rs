//! Icon classification of listing entries.
use vstd::prelude::*;

use crate::path::{path_extension_of, PathComponent, TreePath};

verus! {

/// The icon of a listing entry, one per kind of file.
#[derive(Debug, Clone, Copy, PartialEq, Eq, Structural)]
pub enum Icon {
    Dir,
    Comp,
    Compressed,
    Doc,
    Xls,
    Ppt,
    Text,
    Pdf,
    Image,
    Ps,
    Sound,
    Movie,
    Mov,
    Java,
    Js,
    Php,
}

/// The icon of a file with extension `ext` (compared case-sensitively).
pub open spec fn icon_for_extension(ext: Seq<char>) -> Icon {
    if ext == "comp"@ {
        Icon::Comp
    } else if ext == "zip"@ || ext == "tar"@ || ext == "tgz"@ || ext == "rar"@ || ext == "gz"@
        || ext == "bz2"@ {
        Icon::Compressed
    } else if ext == "doc"@ || ext == "docx"@ {
        Icon::Doc
    } else if ext == "xls"@ || ext == "xlsx"@ {
        Icon::Xls
    } else if ext == "ppt"@ || ext == "pptx"@ {
        Icon::Ppt
    } else if ext == "pdf"@ {
        Icon::Pdf
    } else if ext == "jpg"@ || ext == "jpeg"@ || ext == "png"@ || ext == "gif"@ || ext == "tif"@
        || ext == "tiff"@ || ext == "webp"@ {
        Icon::Image
    } else if ext == "ps"@ {
        Icon::Ps
    } else if ext == "mp3"@ || ext == "wav"@ || ext == "m4a"@ || ext == "ogg"@ {
        Icon::Sound
    } else if ext == "wmv"@ || ext == "avi"@ || ext == "mp4"@ || ext == "webm"@ {
        Icon::Movie
    } else if ext == "mov"@ || ext == "qt"@ {
        Icon::Mov
    } else if ext == "java"@ {
        Icon::Java
    } else if ext == "js"@ {
        Icon::Js
    } else if ext == "php"@ {
        Icon::Php
    } else {
        Icon::Text
    }
}

/// The icon of an entry: directories have their own, files go by extension,
/// and a file without one is text.
pub open spec fn icon_of(cs: Seq<PathComponent>, is_dir: bool) -> Icon {
    if is_dir {
        Icon::Dir
    } else {
        match path_extension_of(cs) {
            Some(e) => icon_for_extension(e),
            None => Icon::Text,
        }
    }
}

/// The name of the bundled image that shows an icon.
pub open spec fn asset_file_of(icon: Icon) -> Seq<char> {
    match icon {
        Icon::Dir => "dir.png"@,
        Icon::Comp => "comp.png"@,
        Icon::Compressed => "compressed.gif"@,
        Icon::Doc => "doc.png"@,
        Icon::Xls => "xls.png"@,
        Icon::Ppt => "ppt.png"@,
        Icon::Text => "text.png"@,
        Icon::Pdf => "pdf.png"@,
        Icon::Image => "image.png"@,
        Icon::Ps => "ps.png"@,
        Icon::Sound => "sound.png"@,
        Icon::Movie => "movie-ms.gif"@,
        Icon::Mov => "mov.png"@,
        Icon::Java => "java.png"@,
        Icon::Js => "js.png"@,
        Icon::Php => "php.png"@,
    }
}

fn same_text(a: &String, b: &str) -> (r: bool)
    ensures
        r == (a@ == b@),
{
    *a == String::from_str(b)
}

/// The icon of a file with extension `ext`.
pub fn icon_for(ext: &String) -> (r: Icon)
    ensures
        r == icon_for_extension(ext@),
{
    if same_text(ext, "comp") {
        Icon::Comp
    } else if same_text(ext, "zip") || same_text(ext, "tar") || same_text(ext, "tgz") || same_text(
        ext,
        "rar",
    ) || same_text(ext, "gz") || same_text(ext, "bz2") {
        Icon::Compressed
    } else if same_text(ext, "doc") || same_text(ext, "docx") {
        Icon::Doc
    } else if same_text(ext, "xls") || same_text(ext, "xlsx") {
        Icon::Xls
    } else if same_text(ext, "ppt") || same_text(ext, "pptx") {
        Icon::Ppt
    } else if same_text(ext, "pdf") {
        Icon::Pdf
    } else if same_text(ext, "jpg") || same_text(ext, "jpeg") || same_text(ext, "png") || same_text(
        ext,
        "gif",
    ) || same_text(ext, "tif") || same_text(ext, "tiff") || same_text(ext, "webp") {
        Icon::Image
    } else if same_text(ext, "ps") {
        Icon::Ps
    } else if same_text(ext, "mp3") || same_text(ext, "wav") || same_text(ext, "m4a") || same_text(
        ext,
        "ogg",
    ) {
        Icon::Sound
    } else if same_text(ext, "wmv") || same_text(ext, "avi") || same_text(ext, "mp4") || same_text(
        ext,
        "webm",
    ) {
        Icon::Movie
    } else if same_text(ext, "mov") || same_text(ext, "qt") {
        Icon::Mov
    } else if same_text(ext, "java") {
        Icon::Java
    } else if same_text(ext, "js") {
        Icon::Js
    } else if same_text(ext, "php") {
        Icon::Php
    } else {
        Icon::Text
    }
}

/// The icon of the entry at `path`, which is a directory where `is_dir`.
pub fn icon(path: &TreePath, is_dir: bool) -> (r: Icon)
    ensures
        r == icon_of(path.components@, is_dir),
{
    if is_dir {
        return Icon::Dir;
    }
    match path.extension() {
        Some(e) => icon_for(&e),
        None => Icon::Text,
    }
}

impl Icon {
    /// The name of the bundled image that shows this icon.
    pub fn asset_file(&self) -> (r: &'static str)
        ensures
            r@ == asset_file_of(*self),
    {
        match self {
            Icon::Dir => "dir.png",
            Icon::Comp => "comp.png",
            Icon::Compressed => "compressed.gif",
            Icon::Doc => "doc.png",
            Icon::Xls => "xls.png",
            Icon::Ppt => "ppt.png",
            Icon::Text => "text.png",
            Icon::Pdf => "pdf.png",
            Icon::Image => "image.png",
            Icon::Ps => "ps.png",
            Icon::Sound => "sound.png",
            Icon::Movie => "movie-ms.gif",
            Icon::Mov => "mov.png",
            Icon::Java => "java.png",
            Icon::Js => "js.png",
            Icon::Php => "php.png",
        }
    }
}

} // verus!
