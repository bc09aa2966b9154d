//! File type detection by extension and by name, and MIME guesses.

use vstd::prelude::*;

use crate::paths::{extension, file_name, path_extension, path_file_name};
use crate::search::strip::is_word;
use crate::text::starts_with;
use crate::types::{FileType, Lang};

verus! {

/// The file type that an extension stands for; `Other` for any that is not
/// listed.
pub open spec fn type_of_extension(ext: Seq<char>) -> FileType {
    if ext == "ts"@ {
        FileType::Code(Lang::TypeScript)
    } else if ext == "tsx"@ {
        FileType::Code(Lang::Tsx)
    } else if ext == "js"@ || ext == "jsx"@ {
        FileType::Code(Lang::JavaScript)
    } else if ext == "py"@ || ext == "pyi"@ {
        FileType::Code(Lang::Python)
    } else if ext == "rs"@ {
        FileType::Code(Lang::Rust)
    } else if ext == "go"@ {
        FileType::Code(Lang::Go)
    } else if ext == "java"@ {
        FileType::Code(Lang::Java)
    } else if ext == "c"@ || ext == "h"@ {
        FileType::Code(Lang::C)
    } else if ext == "cpp"@ || ext == "hpp"@ || ext == "cc"@ || ext == "cxx"@ {
        FileType::Code(Lang::Cpp)
    } else if ext == "rb"@ {
        FileType::Code(Lang::Ruby)
    } else if ext == "swift"@ {
        FileType::Code(Lang::Swift)
    } else if ext == "kt"@ || ext == "kts"@ {
        FileType::Code(Lang::Kotlin)
    } else if ext == "cs"@ {
        FileType::Code(Lang::CSharp)
    } else if ext == "md"@ || ext == "mdx"@ || ext == "rst"@ {
        FileType::Markdown
    } else if ext == "json"@ || ext == "yaml"@ || ext == "yml"@ || ext == "toml"@ || ext == "xml"@
        || ext == "ini"@ {
        FileType::StructuredData
    } else if ext == "csv"@ || ext == "tsv"@ {
        FileType::Tabular
    } else if ext == "log"@ {
        FileType::Log
    } else {
        FileType::Other
    }
}

/// The file type that a file name without extension stands for.
pub open spec fn type_of_name(name: Option<Seq<char>>) -> FileType {
    match name {
        Some(n) => {
            if n == "Dockerfile"@ || n == "Containerfile"@ {
                FileType::Code(Lang::Dockerfile)
            } else if n == "Makefile"@ || n == "GNUmakefile"@ {
                FileType::Code(Lang::Make)
            } else if n == "Vagrantfile"@ || n == "Rakefile"@ {
                FileType::Code(Lang::Ruby)
            } else if ".env"@.is_prefix_of(n) {
                FileType::StructuredData
            } else {
                FileType::Other
            }
        },
        None => FileType::Other,
    }
}

/// The type of the file that `path` names: by its extension if it has one,
/// else by its name.
pub open spec fn file_type_of(path: Seq<char>) -> FileType {
    match extension(path) {
        Some(ext) => type_of_extension(ext),
        None => type_of_name(file_name(path)),
    }
}

/// Detects the type of a file that has no extension by its name.
pub fn file_type_from_name(path: &str) -> (t: FileType)
    ensures
        t == type_of_name(file_name(path@)),
{
    match path_file_name(path) {
        Some(n) => {
            if is_word(&n, "Dockerfile") || is_word(&n, "Containerfile") {
                FileType::Code(Lang::Dockerfile)
            } else if is_word(&n, "Makefile") || is_word(&n, "GNUmakefile") {
                FileType::Code(Lang::Make)
            } else if is_word(&n, "Vagrantfile") || is_word(&n, "Rakefile") {
                FileType::Code(Lang::Ruby)
            } else if starts_with(&n, ".env") {
                FileType::StructuredData
            } else {
                FileType::Other
            }
        },
        None => FileType::Other,
    }
}

/// Detects the type of a file by its extension, then by its name.
pub fn detect_file_type(path: &str) -> (t: FileType)
    ensures
        t == file_type_of(path@),
{
    match path_extension(path) {
        Some(ext) => {
            if is_word(&ext, "ts") {
                FileType::Code(Lang::TypeScript)
            } else if is_word(&ext, "tsx") {
                FileType::Code(Lang::Tsx)
            } else if is_word(&ext, "js") || is_word(&ext, "jsx") {
                FileType::Code(Lang::JavaScript)
            } else if is_word(&ext, "py") || is_word(&ext, "pyi") {
                FileType::Code(Lang::Python)
            } else if is_word(&ext, "rs") {
                FileType::Code(Lang::Rust)
            } else if is_word(&ext, "go") {
                FileType::Code(Lang::Go)
            } else if is_word(&ext, "java") {
                FileType::Code(Lang::Java)
            } else if is_word(&ext, "c") || is_word(&ext, "h") {
                FileType::Code(Lang::C)
            } else if is_word(&ext, "cpp") || is_word(&ext, "hpp") || is_word(&ext, "cc")
                || is_word(&ext, "cxx") {
                FileType::Code(Lang::Cpp)
            } else if is_word(&ext, "rb") {
                FileType::Code(Lang::Ruby)
            } else if is_word(&ext, "swift") {
                FileType::Code(Lang::Swift)
            } else if is_word(&ext, "kt") || is_word(&ext, "kts") {
                FileType::Code(Lang::Kotlin)
            } else if is_word(&ext, "cs") {
                FileType::Code(Lang::CSharp)
            } else if is_word(&ext, "md") || is_word(&ext, "mdx") || is_word(&ext, "rst") {
                FileType::Markdown
            } else if is_word(&ext, "json") || is_word(&ext, "yaml") || is_word(&ext, "yml")
                || is_word(&ext, "toml") || is_word(&ext, "xml") || is_word(&ext, "ini") {
                FileType::StructuredData
            } else if is_word(&ext, "csv") || is_word(&ext, "tsv") {
                FileType::Tabular
            } else if is_word(&ext, "log") {
                FileType::Log
            } else {
                FileType::Other
            }
        },
        None => file_type_from_name(path),
    }
}

/// The MIME type that an extension stands for in the header of a binary file.
pub open spec fn mime_of_extension(ext: Option<Seq<char>>) -> Seq<char> {
    match ext {
        Some(e) => {
            if e == "png"@ {
                "image/png"@
            } else if e == "jpg"@ || e == "jpeg"@ {
                "image/jpeg"@
            } else if e == "gif"@ {
                "image/gif"@
            } else if e == "svg"@ {
                "image/svg+xml"@
            } else if e == "webp"@ {
                "image/webp"@
            } else if e == "ico"@ {
                "image/x-icon"@
            } else if e == "pdf"@ {
                "application/pdf"@
            } else if e == "zip"@ {
                "application/zip"@
            } else if e == "gz"@ || e == "tgz"@ {
                "application/gzip"@
            } else if e == "tar"@ {
                "application/x-tar"@
            } else if e == "wasm"@ {
                "application/wasm"@
            } else if e == "woff"@ || e == "woff2"@ {
                "font/woff2"@
            } else if e == "ttf"@ || e == "otf"@ {
                "font/ttf"@
            } else if e == "mp3"@ {
                "audio/mpeg"@
            } else if e == "mp4"@ {
                "video/mp4"@
            } else {
                "application/octet-stream"@
            }
        },
        None => "application/octet-stream"@,
    }
}

/// Guesses the MIME type of a binary file from its extension.
pub fn mime_from_ext(path: &str) -> (mime: &'static str)
    ensures
        mime@ == mime_of_extension(extension(path@)),
{
    match path_extension(path) {
        Some(e) => {
            if is_word(&e, "png") {
                "image/png"
            } else if is_word(&e, "jpg") || is_word(&e, "jpeg") {
                "image/jpeg"
            } else if is_word(&e, "gif") {
                "image/gif"
            } else if is_word(&e, "svg") {
                "image/svg+xml"
            } else if is_word(&e, "webp") {
                "image/webp"
            } else if is_word(&e, "ico") {
                "image/x-icon"
            } else if is_word(&e, "pdf") {
                "application/pdf"
            } else if is_word(&e, "zip") {
                "application/zip"
            } else if is_word(&e, "gz") || is_word(&e, "tgz") {
                "application/gzip"
            } else if is_word(&e, "tar") {
                "application/x-tar"
            } else if is_word(&e, "wasm") {
                "application/wasm"
            } else if is_word(&e, "woff") || is_word(&e, "woff2") {
                "font/woff2"
            } else if is_word(&e, "ttf") || is_word(&e, "otf") {
                "font/ttf"
            } else if is_word(&e, "mp3") {
                "audio/mpeg"
            } else if is_word(&e, "mp4") {
                "video/mp4"
            } else {
                "application/octet-stream"
            }
        },
        None => "application/octet-stream",
    }
}

} // verus!
