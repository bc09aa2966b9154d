//! Outlines: a compact summary of what a file holds.

pub mod code;
pub mod markdown;

use tree_sitter::Language;
use vstd::prelude::*;

use crate::read::outline::code::{code_outline, outline_of, outline_text};
use crate::read::outline::markdown::{markdown_outline, outline};
use crate::syntax::{is_tree_of, parse_tree, SyntaxNode};
use crate::types::FileType;

verus! {

/// The most headings that the outline of a Markdown file lists.
pub const MAX_MARKDOWN_LINES: usize = 100;

/// The most headings that the outline of a file above the size cap lists.
pub const MAX_CAPPED_LINES: usize = 50;

/// The outline of a code file from its syntax tree; nothing without a tree.
pub open spec fn tree_outline(root: Option<SyntaxNode>, content: Seq<char>) -> Seq<char> {
    match root {
        Some(r) => outline_text(
            outline_of(r, crate::bytes::byte_lines(vstd::utf8::encode_utf8(content))),
        ),
        None => Seq::empty(),
    }
}

/// Whether `text` is the outline of a file of type `file_type`: for code,
/// the outline of the syntax tree of its content in the grammar, and nothing
/// without a grammar or where the grammar is refused; for Markdown, its
/// headings, a hundred at most, or fifty for a file above the size cap; for
/// everything else, nothing.
pub open spec fn is_outline_of(
    text: Seq<char>,
    file_type: FileType,
    content: Seq<char>,
    buf: Seq<u8>,
    size_capped: bool,
    language: Option<&Language>,
) -> bool {
    match file_type {
        FileType::Code(_) => match language {
            Some(grammar) => exists|root: Option<SyntaxNode>|
                is_tree_of(root, *grammar, content) && text == tree_outline(root, content),
            None => text.len() == 0,
        },
        FileType::Markdown => text == markdown_outline(
            buf,
            if size_capped {
                MAX_CAPPED_LINES as nat
            } else {
                MAX_MARKDOWN_LINES as nat
            },
        ),
        _ => text.len() == 0,
    }
}

/// Generates the outline of a file by its type: for code, its declarations,
/// where a grammar is at hand and the content can be parsed; for Markdown,
/// its headings; for everything else, nothing.
pub fn generate(
    file_type: FileType,
    content: &str,
    buf: &[u8],
    size_capped: bool,
    language: Option<&Language>,
) -> (text: String)
    ensures
        is_outline_of(text@, file_type, content@, buf@, size_capped, language),
{
    match file_type {
        FileType::Code(_) => match language {
            Some(grammar) => {
                let root = parse_tree(grammar, content);
                let text = match &root {
                    Some(r) => code_outline(r, content),
                    None => String::new(),
                };
                assert(is_tree_of(root, *grammar, content@) && text@ =~= tree_outline(
                    root,
                    content@,
                ));
                text
            },
            None => String::new(),
        },
        FileType::Markdown => outline(
            buf,
            if size_capped {
                MAX_CAPPED_LINES
            } else {
                MAX_MARKDOWN_LINES
            },
        ),
        _ => String::new(),
    }
}

} // verus!
