//! Human-readable descriptions for file extensions: a static table used to
//! label search and directory results.

use vstd::prelude::*;

use crate::strutil::{lower_seq, str_eq};

verus! {

/// The description that belongs to a lowercased extension.
pub open spec fn spec_description_lower(e: Seq<char>) -> Seq<char> {
    if e == "png"@ {
        "PNG image"@
    } else if e == "jpg"@ || e == "jpeg"@ {
        "JPEG image"@
    } else if e == "txt"@ {
        "Text file"@
    } else if e == "gif"@ {
        "GIF image"@
    } else if e == "bmp"@ {
        "Bitmap image"@
    } else if e == "pdf"@ {
        "PDF document"@
    } else if e == "doc"@ || e == "docx"@ {
        "Microsoft Word document"@
    } else if e == "xls"@ || e == "xlsx"@ {
        "Microsoft Excel spreadsheet"@
    } else if e == "ppt"@ || e == "pptx"@ {
        "Microsoft PowerPoint presentation"@
    } else if e == "mp3"@ {
        "MP3 audio"@
    } else if e == "wav"@ {
        "WAV audio"@
    } else if e == "mp4"@ {
        "MP4 video"@
    } else if e == "avi"@ {
        "AVI video"@
    } else if e == "zip"@ {
        "ZIP archive"@
    } else if e == "rar"@ {
        "RAR archive"@
    } else if e == "tar"@ {
        "Tarball archive"@
    } else if e == "7z"@ {
        "7-Zip archive"@
    } else if e == "html"@ || e == "htm"@ {
        "HTML document"@
    } else if e == "js"@ {
        "JavaScript file"@
    } else if e == "css"@ {
        "CSS file"@
    } else if e == "rs"@ {
        "Rust source file"@
    } else if e == "c"@ {
        "C source file"@
    } else if e == "cpp"@ {
        "C++ source file"@
    } else if e == "py"@ {
        "Python script"@
    } else if e == "go"@ {
        "Go source file"@
    } else if e == "java"@ {
        "Java source file"@
    } else if e == "md"@ {
        "Markdown document"@
    } else if e == "json"@ {
        "JSON file"@
    } else if e == "xml"@ {
        "XML file"@
    } else if e == "yml"@ || e == "yaml"@ {
        "YAML file"@
    } else if e == "toml"@ {
        "TOML file"@
    } else if e == "svg"@ {
        "SVG image"@
    } else if e == "ico"@ {
        "Icon"@
    } else if e == "exe"@ {
        "Executable"@
    } else if e == "app"@ {
        "Application"@
    } else if e == "bat"@ {
        "Batch file"@
    } else if e == "sh"@ {
        "Shell script"@
    } else if e == "ps1"@ {
        "PowerShell script"@
    } else if e == "ttf"@ {
        "TrueType font"@
    } else if e == "otf"@ {
        "OpenType font"@
    } else if e == "woff"@ {
        "Web Open Font Format (WOFF) font"@
    } else if e == "woff2"@ {
        "Web Open Font Format (WOFF2) font"@
    } else if e == "eot"@ {
        "Embedded OpenType font"@
    } else if e == "flac"@ {
        "FLAC audio"@
    } else if e == "ogg"@ {
        "Ogg audio"@
    } else if e == "webm"@ {
        "WebM video"@
    } else if e == "mkv"@ {
        "Matroska video"@
    } else if e == "mov"@ {
        "QuickTime video"@
    } else if e == "wmv"@ {
        "Windows Media Video"@
    } else if e == "mpg"@ || e == "mpeg"@ {
        "MPEG video"@
    } else if e == "m4v"@ {
        "M4V video"@
    } else if e == "m4a"@ {
        "M4A audio"@
    } else if e == "m4p"@ {
        "M4P audio"@
    } else if e == "m4b"@ {
        "M4B audio"@
    } else if e == "m4r"@ {
        "M4R audio"@
    } else if e == "3gp"@ {
        "3GP video"@
    } else if e == "3g2"@ {
        "3G2 video"@
    } else if e == "aac"@ {
        "AAC audio"@
    } else if e == "wma"@ {
        "Windows Media Audio"@
    } else if e == "webp"@ {
        "WebP image"@
    } else if e == "heic"@ {
        "HEIC image"@
    } else if e == "heif"@ {
        "HEIF image"@
    } else if e == "cr2"@ {
        "Canon Raw image"@
    } else if e == "nef"@ {
        "Nikon Raw image"@
    } else if e == "orf"@ {
        "Olympus Raw image"@
    } else if e == "arw"@ {
        "Sony Raw image"@
    } else if e == "rw2"@ {
        "Panasonic Raw image"@
    } else if e == "dng"@ {
        "Adobe Digital Negative image"@
    } else if e == "pef"@ {
        "Pentax Raw image"@
    } else if e == "srw"@ {
        "Samsung Raw image"@
    } else if e == "cr3"@ {
        "Canon Raw image"@
    } else if e == "nrw"@ {
        "Nikon Raw image"@
    } else if e == "rwl"@ {
        "Leica Raw image"@
    } else if e == "raf"@ {
        "Fuji Raw image"@
    } else if e == "x3f"@ {
        "Sigma Raw image"@
    } else if e == "erf"@ {
        "Epson Raw image"@
    } else if e == "kdc"@ {
        "Kodak Raw image"@
    } else if e == "mrw"@ {
        "Minolta Raw image"@
    } else if e == "dcr"@ {
        "Kodak Raw image"@
    } else if e == "mos"@ {
        "Leaf Raw image"@
    } else if e == "sr2"@ {
        "Sony Raw image"@
    } else if e == "srf"@ {
        "Sony Raw image"@
    } else if e == "3fr"@ {
        "Hasselblad Raw image"@
    } else if e == "fff"@ {
        "Hasselblad Raw image"@
    } else if e == "mef"@ {
        "Mamiya Raw image"@
    } else if e == "mdc"@ {
        "Minolta Raw image"@
    } else if e == "xmp"@ {
        "XMP file"@
    } else if e == "psd"@ {
        "Adobe Photoshop document"@
    } else if e == "ai"@ {
        "Adobe Illustrator document"@
    } else if e == "indd"@ {
        "Adobe InDesign document"@
    } else if e == "eps"@ {
        "Encapsulated PostScript file"@
    } else if e == "ps"@ {
        "PostScript file"@
    } else if e == "odt"@ {
        "OpenDocument Text document"@
    } else {
        "Unknown file type"@
    }
}

/// The description of an extension, compared case-insensitively.
pub open spec fn spec_file_description(ext: Seq<char>) -> Seq<char> {
    spec_description_lower(lower_seq(ext))
}

/// Maps a file extension to a human-readable description of the file type.
pub fn get_file_description(extension: &str) -> (r: &'static str)
    ensures
        r@ == spec_file_description(extension@),
{
    let lowered = crate::strutil::lower_ascii(extension);
    let e = lowered.as_str();
    if str_eq(e, "png") {
        "PNG image"
    } else if str_eq(e, "jpg") || str_eq(e, "jpeg") {
        "JPEG image"
    } else if str_eq(e, "txt") {
        "Text file"
    } else if str_eq(e, "gif") {
        "GIF image"
    } else if str_eq(e, "bmp") {
        "Bitmap image"
    } else if str_eq(e, "pdf") {
        "PDF document"
    } else if str_eq(e, "doc") || str_eq(e, "docx") {
        "Microsoft Word document"
    } else if str_eq(e, "xls") || str_eq(e, "xlsx") {
        "Microsoft Excel spreadsheet"
    } else if str_eq(e, "ppt") || str_eq(e, "pptx") {
        "Microsoft PowerPoint presentation"
    } else if str_eq(e, "mp3") {
        "MP3 audio"
    } else if str_eq(e, "wav") {
        "WAV audio"
    } else if str_eq(e, "mp4") {
        "MP4 video"
    } else if str_eq(e, "avi") {
        "AVI video"
    } else if str_eq(e, "zip") {
        "ZIP archive"
    } else if str_eq(e, "rar") {
        "RAR archive"
    } else if str_eq(e, "tar") {
        "Tarball archive"
    } else if str_eq(e, "7z") {
        "7-Zip archive"
    } else if str_eq(e, "html") || str_eq(e, "htm") {
        "HTML document"
    } else if str_eq(e, "js") {
        "JavaScript file"
    } else if str_eq(e, "css") {
        "CSS file"
    } else if str_eq(e, "rs") {
        "Rust source file"
    } else if str_eq(e, "c") {
        "C source file"
    } else if str_eq(e, "cpp") {
        "C++ source file"
    } else if str_eq(e, "py") {
        "Python script"
    } else if str_eq(e, "go") {
        "Go source file"
    } else if str_eq(e, "java") {
        "Java source file"
    } else if str_eq(e, "md") {
        "Markdown document"
    } else if str_eq(e, "json") {
        "JSON file"
    } else if str_eq(e, "xml") {
        "XML file"
    } else if str_eq(e, "yml") || str_eq(e, "yaml") {
        "YAML file"
    } else if str_eq(e, "toml") {
        "TOML file"
    } else if str_eq(e, "svg") {
        "SVG image"
    } else if str_eq(e, "ico") {
        "Icon"
    } else if str_eq(e, "exe") {
        "Executable"
    } else if str_eq(e, "app") {
        "Application"
    } else if str_eq(e, "bat") {
        "Batch file"
    } else if str_eq(e, "sh") {
        "Shell script"
    } else if str_eq(e, "ps1") {
        "PowerShell script"
    } else if str_eq(e, "ttf") {
        "TrueType font"
    } else if str_eq(e, "otf") {
        "OpenType font"
    } else if str_eq(e, "woff") {
        "Web Open Font Format (WOFF) font"
    } else if str_eq(e, "woff2") {
        "Web Open Font Format (WOFF2) font"
    } else if str_eq(e, "eot") {
        "Embedded OpenType font"
    } else if str_eq(e, "flac") {
        "FLAC audio"
    } else if str_eq(e, "ogg") {
        "Ogg audio"
    } else if str_eq(e, "webm") {
        "WebM video"
    } else if str_eq(e, "mkv") {
        "Matroska video"
    } else if str_eq(e, "mov") {
        "QuickTime video"
    } else if str_eq(e, "wmv") {
        "Windows Media Video"
    } else if str_eq(e, "mpg") || str_eq(e, "mpeg") {
        "MPEG video"
    } else if str_eq(e, "m4v") {
        "M4V video"
    } else if str_eq(e, "m4a") {
        "M4A audio"
    } else if str_eq(e, "m4p") {
        "M4P audio"
    } else if str_eq(e, "m4b") {
        "M4B audio"
    } else if str_eq(e, "m4r") {
        "M4R audio"
    } else if str_eq(e, "3gp") {
        "3GP video"
    } else if str_eq(e, "3g2") {
        "3G2 video"
    } else if str_eq(e, "aac") {
        "AAC audio"
    } else if str_eq(e, "wma") {
        "Windows Media Audio"
    } else if str_eq(e, "webp") {
        "WebP image"
    } else if str_eq(e, "heic") {
        "HEIC image"
    } else if str_eq(e, "heif") {
        "HEIF image"
    } else if str_eq(e, "cr2") {
        "Canon Raw image"
    } else if str_eq(e, "nef") {
        "Nikon Raw image"
    } else if str_eq(e, "orf") {
        "Olympus Raw image"
    } else if str_eq(e, "arw") {
        "Sony Raw image"
    } else if str_eq(e, "rw2") {
        "Panasonic Raw image"
    } else if str_eq(e, "dng") {
        "Adobe Digital Negative image"
    } else if str_eq(e, "pef") {
        "Pentax Raw image"
    } else if str_eq(e, "srw") {
        "Samsung Raw image"
    } else if str_eq(e, "cr3") {
        "Canon Raw image"
    } else if str_eq(e, "nrw") {
        "Nikon Raw image"
    } else if str_eq(e, "rwl") {
        "Leica Raw image"
    } else if str_eq(e, "raf") {
        "Fuji Raw image"
    } else if str_eq(e, "x3f") {
        "Sigma Raw image"
    } else if str_eq(e, "erf") {
        "Epson Raw image"
    } else if str_eq(e, "kdc") {
        "Kodak Raw image"
    } else if str_eq(e, "mrw") {
        "Minolta Raw image"
    } else if str_eq(e, "dcr") {
        "Kodak Raw image"
    } else if str_eq(e, "mos") {
        "Leaf Raw image"
    } else if str_eq(e, "sr2") {
        "Sony Raw image"
    } else if str_eq(e, "srf") {
        "Sony Raw image"
    } else if str_eq(e, "3fr") {
        "Hasselblad Raw image"
    } else if str_eq(e, "fff") {
        "Hasselblad Raw image"
    } else if str_eq(e, "mef") {
        "Mamiya Raw image"
    } else if str_eq(e, "mdc") {
        "Minolta Raw image"
    } else if str_eq(e, "xmp") {
        "XMP file"
    } else if str_eq(e, "psd") {
        "Adobe Photoshop document"
    } else if str_eq(e, "ai") {
        "Adobe Illustrator document"
    } else if str_eq(e, "indd") {
        "Adobe InDesign document"
    } else if str_eq(e, "eps") {
        "Encapsulated PostScript file"
    } else if str_eq(e, "ps") {
        "PostScript file"
    } else if str_eq(e, "odt") {
        "OpenDocument Text document"
    } else {
        "Unknown file type"
    }
}

} // verus!
