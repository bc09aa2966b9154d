//! Noise stripping: which lines of an expanded definition are left out.
//!
//! Three kinds of lines are noise: a blank line that follows a blank line,
//! a line that is only a debug log call, and a plain comment. Doc comments
//! and comments that carry a marker such as `TODO` are kept.

use std::collections::HashSet;
use vstd::prelude::*;

use crate::paths::{extension, path_extension};
use crate::text::{
    ascii_upper, chars_eq, contains, contains_sub, lines, split_lines, starts_with, texts,
    to_chars, trim, trim_chars, upper_chars,
};

verus! {

/// The language families that have stripping rules.
#[derive(Clone, Copy, Debug, PartialEq, Eq, Structural)]
pub enum StripLang {
    Rust,
    Python,
    Go,
    JsTs,
    JavaKotlinCSharp,
    CppC,
}

/// The language family that a file extension stands for.
pub open spec fn lang_of_extension(ext: Seq<char>) -> Option<StripLang> {
    if ext == "rs"@ {
        Some(StripLang::Rust)
    } else if ext == "py"@ || ext == "pyi"@ {
        Some(StripLang::Python)
    } else if ext == "go"@ {
        Some(StripLang::Go)
    } else if ext == "js"@ || ext == "jsx"@ || ext == "ts"@ || ext == "tsx"@ || ext == "mjs"@
        || ext == "cjs"@ {
        Some(StripLang::JsTs)
    } else if ext == "java"@ || ext == "kt"@ || ext == "kts"@ || ext == "cs"@ || ext == "scala"@
        || ext == "sc"@ {
        Some(StripLang::JavaKotlinCSharp)
    } else if ext == "c"@ || ext == "h"@ || ext == "cpp"@ || ext == "hpp"@ || ext == "cc"@ || ext
        == "cxx"@ {
        Some(StripLang::CppC)
    } else {
        None
    }
}

/// The language family of the file that `path` names, by its extension.
pub open spec fn strip_lang(path: Seq<char>) -> Option<StripLang> {
    match extension(path) {
        Some(ext) => lang_of_extension(ext),
        None => None,
    }
}

/// Whether `text` is exactly `word`.
pub fn is_word(text: &Vec<char>, word: &str) -> (b: bool)
    ensures
        b == (text@ == word@),
{
    let w = to_chars(word);
    chars_eq(text, &w)
}

/// The language family of the file that `path` names, by its extension.
pub fn detect_lang(path: &str) -> (lang: Option<StripLang>)
    ensures
        lang == strip_lang(path@),
{
    match path_extension(path) {
        Some(ext) => {
            if is_word(&ext, "rs") {
                Some(StripLang::Rust)
            } else if is_word(&ext, "py") || is_word(&ext, "pyi") {
                Some(StripLang::Python)
            } else if is_word(&ext, "go") {
                Some(StripLang::Go)
            } else if is_word(&ext, "js") || is_word(&ext, "jsx") || is_word(&ext, "ts")
                || is_word(&ext, "tsx") || is_word(&ext, "mjs") || is_word(&ext, "cjs") {
                Some(StripLang::JsTs)
            } else if is_word(&ext, "java") || is_word(&ext, "kt") || is_word(&ext, "kts")
                || is_word(&ext, "cs") || is_word(&ext, "scala") || is_word(&ext, "sc") {
                Some(StripLang::JavaKotlinCSharp)
            } else if is_word(&ext, "c") || is_word(&ext, "h") || is_word(&ext, "cpp") || is_word(
                &ext,
                "hpp",
            ) || is_word(&ext, "cc") || is_word(&ext, "cxx") {
                Some(StripLang::CppC)
            } else {
                None
            }
        },
        None => None,
    }
}

/// Whether a trimmed line begins as a debug or trace log call of `lang`.
pub open spec fn debug_log(t: Seq<char>, lang: StripLang) -> bool {
    match lang {
        StripLang::Rust => "log::debug!"@.is_prefix_of(t) || "log::trace!"@.is_prefix_of(t)
            || "tracing::debug!"@.is_prefix_of(t) || "tracing::trace!"@.is_prefix_of(t)
            || "debug!("@.is_prefix_of(t) || "trace!("@.is_prefix_of(t) || "dbg!("@.is_prefix_of(
            t,
        ),
        StripLang::Python => "logger.debug("@.is_prefix_of(t) || "logging.debug("@.is_prefix_of(t)
            || "print("@.is_prefix_of(t) || "pprint("@.is_prefix_of(t)
            || "pprint.pprint("@.is_prefix_of(t),
        StripLang::Go => "log.Printf("@.is_prefix_of(t) || "log.Println("@.is_prefix_of(t)
            || "log.Print("@.is_prefix_of(t) || "fmt.Printf("@.is_prefix_of(t)
            || "fmt.Println("@.is_prefix_of(t) || "fmt.Print("@.is_prefix_of(t),
        StripLang::JsTs => "console.log("@.is_prefix_of(t) || "console.debug("@.is_prefix_of(t)
            || "console.trace("@.is_prefix_of(t),
        StripLang::JavaKotlinCSharp => "System.out.print"@.is_prefix_of(t)
            || "logger.debug("@.is_prefix_of(t) || "log.debug("@.is_prefix_of(t)
            || "Log.d("@.is_prefix_of(t) || "println("@.is_prefix_of(t),
        StripLang::CppC => "printf("@.is_prefix_of(t) || "std::cout"@.is_prefix_of(t)
            || "cout "@.is_prefix_of(t) || "cout<<"@.is_prefix_of(t),
    }
}

/// Whether the trimmed line is a debug or trace log call of `lang`.
pub fn is_debug_log(trimmed: &Vec<char>, lang: StripLang) -> (b: bool)
    ensures
        b == debug_log(trimmed@, lang),
{
    match lang {
        StripLang::Rust => starts_with(trimmed, "log::debug!") || starts_with(
            trimmed,
            "log::trace!",
        ) || starts_with(trimmed, "tracing::debug!") || starts_with(trimmed, "tracing::trace!")
            || starts_with(trimmed, "debug!(") || starts_with(trimmed, "trace!(") || starts_with(
            trimmed,
            "dbg!(",
        ),
        StripLang::Python => starts_with(trimmed, "logger.debug(") || starts_with(
            trimmed,
            "logging.debug(",
        ) || starts_with(trimmed, "print(") || starts_with(trimmed, "pprint(") || starts_with(
            trimmed,
            "pprint.pprint(",
        ),
        StripLang::Go => starts_with(trimmed, "log.Printf(") || starts_with(
            trimmed,
            "log.Println(",
        ) || starts_with(trimmed, "log.Print(") || starts_with(trimmed, "fmt.Printf(")
            || starts_with(trimmed, "fmt.Println(") || starts_with(trimmed, "fmt.Print("),
        StripLang::JsTs => starts_with(trimmed, "console.log(") || starts_with(
            trimmed,
            "console.debug(",
        ) || starts_with(trimmed, "console.trace("),
        StripLang::JavaKotlinCSharp => starts_with(trimmed, "System.out.print") || starts_with(
            trimmed,
            "logger.debug(",
        ) || starts_with(trimmed, "log.debug(") || starts_with(trimmed, "Log.d(") || starts_with(
            trimmed,
            "println(",
        ),
        StripLang::CppC => starts_with(trimmed, "printf(") || starts_with(trimmed, "std::cout")
            || starts_with(trimmed, "cout ") || starts_with(trimmed, "cout<<"),
    }
}

/// Whether a trimmed line is a documentation comment of `lang`, which is
/// always kept.
pub open spec fn doc_comment(t: Seq<char>, lang: StripLang) -> bool {
    match lang {
        StripLang::Rust => "///"@.is_prefix_of(t) || "//!"@.is_prefix_of(t) || "/**"@.is_prefix_of(
            t,
        ) || "#[doc"@.is_prefix_of(t),
        StripLang::Python => "\"\"\""@.is_prefix_of(t) || "'''"@.is_prefix_of(t),
        StripLang::Go => false,
        StripLang::JsTs => "/**"@.is_prefix_of(t) || "* "@.is_prefix_of(t) || t == "*/"@,
        StripLang::JavaKotlinCSharp => "/**"@.is_prefix_of(t) || "///"@.is_prefix_of(t),
        StripLang::CppC => "/**"@.is_prefix_of(t) || "///"@.is_prefix_of(t) || "//!"@.is_prefix_of(
            t,
        ),
    }
}

/// Whether a trimmed line begins as a line comment of `lang`.
pub open spec fn line_comment(t: Seq<char>, lang: StripLang) -> bool {
    match lang {
        StripLang::Python => "#"@.is_prefix_of(t),
        _ => "//"@.is_prefix_of(t),
    }
}

/// Whether the upper-cased line carries a marker that protects a comment.
pub open spec fn has_keep_marker(upper: Seq<char>) -> bool {
    contains_sub(upper, "TODO"@) || contains_sub(upper, "FIXME"@) || contains_sub(upper, "NOTE"@)
        || contains_sub(upper, "HACK"@) || contains_sub(upper, "SAFETY"@) || contains_sub(
        upper,
        "WARN"@,
    )
}

/// Whether a trimmed line is a plain comment that is left out.
pub open spec fn strippable_comment(t: Seq<char>, lang: StripLang) -> bool {
    !doc_comment(t, lang) && line_comment(t, lang) && !has_keep_marker(ascii_upper(t))
}

/// Whether the trimmed line is a documentation comment of `lang`.
fn is_doc_comment(trimmed: &Vec<char>, lang: StripLang) -> (b: bool)
    ensures
        b == doc_comment(trimmed@, lang),
{
    match lang {
        StripLang::Rust => starts_with(trimmed, "///") || starts_with(trimmed, "//!")
            || starts_with(trimmed, "/**") || starts_with(trimmed, "#[doc"),
        StripLang::Python => starts_with(trimmed, "\"\"\"") || starts_with(trimmed, "'''"),
        StripLang::Go => false,
        StripLang::JsTs => starts_with(trimmed, "/**") || starts_with(trimmed, "* ") || is_word(
            trimmed,
            "*/",
        ),
        StripLang::JavaKotlinCSharp => starts_with(trimmed, "/**") || starts_with(trimmed, "///"),
        StripLang::CppC => starts_with(trimmed, "/**") || starts_with(trimmed, "///")
            || starts_with(trimmed, "//!"),
    }
}

/// Whether the trimmed line is a plain comment that is left out: a line
/// comment that is no documentation and carries none of the markers `TODO`,
/// `FIXME`, `NOTE`, `HACK`, `SAFETY`, `WARN` in any letter case.
pub fn is_strippable_comment(trimmed: &Vec<char>, lang: StripLang) -> (b: bool)
    ensures
        b == strippable_comment(trimmed@, lang),
{
    if is_doc_comment(trimmed, lang) {
        return false;
    }
    let is_comment = match lang {
        StripLang::Python => starts_with(trimmed, "#"),
        _ => starts_with(trimmed, "//"),
    };
    if !is_comment {
        return false;
    }
    let upper = upper_chars(trimmed);
    !(contains(&upper, "TODO") || contains(&upper, "FIXME") || contains(&upper, "NOTE")
        || contains(&upper, "HACK") || contains(&upper, "SAFETY") || contains(&upper, "WARN"))
}

/// Whether line `n` (1-indexed) of `ls` is noise when rendering starts at
/// line `start`.
pub open spec fn is_noise_line(ls: Seq<Seq<char>>, start: int, n: int, lang: StripLang) -> bool {
    let t = trim(ls[n - 1]);
    if t.len() == 0 {
        n > start && trim(ls[n - 2]).len() == 0
    } else {
        debug_log(t, lang) || strippable_comment(t, lang)
    }
}

/// The 1-indexed numbers of the lines of `content` to leave out when the
/// definition at `def_range` is rendered.
///
/// No line is left out without a range, for a file of an unknown language
/// family, or when the range begins at line 0. Only lines that exist and lie
/// in the range are considered.
pub open spec fn noise_lines(content: Seq<char>, path: Seq<char>, def_range: Option<(u32, u32)>) -> Set<
    u32,
> {
    match def_range {
        None => Set::empty(),
        Some(range) => match strip_lang(path) {
            None => Set::empty(),
            Some(lang) => Set::new(
                |n: u32|
                    1 <= range.0 <= n <= range.1 && n <= lines(content).len() && is_noise_line(
                        lines(content),
                        range.0 as int,
                        n as int,
                        lang,
                    ),
            ),
        },
    }
}

/// The 1-indexed numbers of the lines to leave out when the definition at
/// `def_range` in `content` is rendered.
pub fn strip_noise(content: &str, path: &str, def_range: Option<(u32, u32)>) -> (skip: HashSet<u32>)
    ensures
        skip@ == noise_lines(content@, path@, def_range),
{
    let mut skip: HashSet<u32> = HashSet::new();
    let (range_start, range_end) = match def_range {
        Some(r) => r,
        None => {
            return skip;
        },
    };
    let lang = match detect_lang(path) {
        Some(l) => l,
        None => {
            return skip;
        },
    };
    let chars = to_chars(content);
    let ls = split_lines(&chars);
    let ghost all = lines(content@);
    if range_start == 0 || range_start > range_end || (range_start - 1) as u64 > ls.len() as u64 {
        assert(skip@ =~= noise_lines(content@, path@, def_range));
        return skip;
    }
    let mut prev_blank = false;
    let mut n: u64 = range_start as u64;
    while n <= range_end as u64 && n - 1 < ls.len() as u64
        invariant
            1 <= range_start <= n <= range_end + 1,
            n - 1 <= all.len(),
            def_range == Some((range_start, range_end)),
            strip_lang(path@) == Some(lang),
            all == lines(content@),
            texts(ls@) == all,
            prev_blank == (n > range_start && trim(all[n - 2]).len() == 0),
            forall|k: u32|
                skip@.contains(k) <==> (range_start <= k < n && is_noise_line(
                    all,
                    range_start as int,
                    k as int,
                    lang,
                )),
        decreases range_end + 1 - n,
    {
        let idx = (n - 1) as usize;
        let trimmed = trim_chars(&ls[idx]);
        assert(trimmed@ == trim(all[n - 1]));
        let blank = trimmed.len() == 0;
        let noise = if blank {
            prev_blank
        } else {
            is_debug_log(&trimmed, lang) || is_strippable_comment(&trimmed, lang)
        };
        assert(noise == is_noise_line(all, range_start as int, n as int, lang));
        if noise {
            skip.insert(n as u32);
        }
        prev_blank = blank;
        n += 1;
    }
    assert(skip@ =~= noise_lines(content@, path@, def_range));
    skip
}

} // verus!
