//! What makes a syntax node a definition, and what name it defines.

use vstd::prelude::*;
use vstd::slice::slice_subrange;

use crate::bytes::{byte_texts, lossy_text, text_lossy};
use crate::search::strip::is_word;
use crate::syntax::SyntaxNode;
use crate::text::{contains, contains_sub, str_eq, string_views, to_chars};

verus! {

/// Whether a node of this kind defines something, in any of the grammars.
pub open spec fn definition_kind(kind: Seq<char>) -> bool {
    kind == "function_declaration"@ || kind == "function_definition"@ || kind == "function_item"@
        || kind == "method_definition"@ || kind == "method_declaration"@ || kind
        == "class_declaration"@ || kind == "class_definition"@ || kind == "struct_item"@ || kind
        == "interface_declaration"@ || kind == "type_alias_declaration"@ || kind == "type_item"@
        || kind == "enum_item"@ || kind == "enum_declaration"@ || kind == "lexical_declaration"@
        || kind == "variable_declaration"@ || kind == "const_item"@ || kind == "static_item"@
        || kind == "trait_item"@ || kind == "impl_item"@ || kind == "mod_item"@ || kind
        == "decorated_definition"@ || kind == "type_declaration"@ || kind == "export_statement"@
}

/// Whether a node of this kind defines something.
pub fn is_definition_kind(kind: &str) -> (b: bool)
    ensures
        b == definition_kind(kind@),
{
    let k = to_chars(kind);
    is_word(&k, "function_declaration") || is_word(&k, "function_definition") || is_word(
        &k,
        "function_item",
    ) || is_word(&k, "method_definition") || is_word(&k, "method_declaration") || is_word(
        &k,
        "class_declaration",
    ) || is_word(&k, "class_definition") || is_word(&k, "struct_item") || is_word(
        &k,
        "interface_declaration",
    ) || is_word(&k, "type_alias_declaration") || is_word(&k, "type_item") || is_word(
        &k,
        "enum_item",
    ) || is_word(&k, "enum_declaration") || is_word(&k, "lexical_declaration") || is_word(
        &k,
        "variable_declaration",
    ) || is_word(&k, "const_item") || is_word(&k, "static_item") || is_word(&k, "trait_item")
        || is_word(&k, "impl_item") || is_word(&k, "mod_item") || is_word(
        &k,
        "decorated_definition",
    ) || is_word(&k, "type_declaration") || is_word(&k, "export_statement")
}

/// The weight of a definition by the kind of its node: 100 for functions,
/// classes, structs, traits, interfaces, enums and types; 90 for
/// implementations; 80 for constants and statics; 70 for modules; 40 for
/// variables; 30 for exports; 50 for anything else.
pub open spec fn weight_of(kind: Seq<char>) -> u16 {
    if kind == "function_declaration"@ || kind == "function_definition"@ || kind
        == "function_item"@ || kind == "method_definition"@ || kind == "method_declaration"@
        || kind == "class_declaration"@ || kind == "class_definition"@ || kind == "struct_item"@
        || kind == "interface_declaration"@ || kind == "trait_item"@ || kind == "enum_item"@
        || kind == "enum_declaration"@ || kind == "type_item"@ || kind == "type_declaration"@
        || kind == "decorated_definition"@ {
        100
    } else if kind == "impl_item"@ {
        90
    } else if kind == "const_item"@ || kind == "static_item"@ {
        80
    } else if kind == "mod_item"@ {
        70
    } else if kind == "lexical_declaration"@ || kind == "variable_declaration"@ {
        40
    } else if kind == "export_statement"@ {
        30
    } else {
        50
    }
}

/// The weight of a definition by the kind of its node.
pub fn definition_weight(kind: &str) -> (w: u16)
    ensures
        w == weight_of(kind@),
{
    let k = to_chars(kind);
    if is_word(&k, "function_declaration") || is_word(&k, "function_definition") || is_word(
        &k,
        "function_item",
    ) || is_word(&k, "method_definition") || is_word(&k, "method_declaration") || is_word(
        &k,
        "class_declaration",
    ) || is_word(&k, "class_definition") || is_word(&k, "struct_item") || is_word(
        &k,
        "interface_declaration",
    ) || is_word(&k, "trait_item") || is_word(&k, "enum_item") || is_word(&k, "enum_declaration")
        || is_word(&k, "type_item") || is_word(&k, "type_declaration") || is_word(
        &k,
        "decorated_definition",
    ) {
        100
    } else if is_word(&k, "impl_item") {
        90
    } else if is_word(&k, "const_item") || is_word(&k, "static_item") {
        80
    } else if is_word(&k, "mod_item") {
        70
    } else if is_word(&k, "lexical_declaration") || is_word(&k, "variable_declaration") {
        40
    } else if is_word(&k, "export_statement") {
        30
    } else {
        50
    }
}

/// Whether the node fills the field `field` of its parent.
pub open spec fn has_field(node: SyntaxNode, field: Seq<char>) -> bool {
    node.field.is_some() && node.field.unwrap()@ == field
}

/// The index of the first of `children` that fills `field`, or their number.
pub open spec fn field_index(children: Seq<SyntaxNode>, field: Seq<char>) -> int
    decreases children.len(),
{
    if children.len() == 0 || has_field(children[0], field) {
        0
    } else {
        1 + field_index(children.drop_first(), field)
    }
}

/// `field_index` lies within the children or just behind them.
pub proof fn lemma_field_index_bounds(children: Seq<SyntaxNode>, field: Seq<char>)
    ensures
        0 <= field_index(children, field) <= children.len(),
    decreases children.len(),
{
    if children.len() > 0 && !has_field(children[0], field) {
        lemma_field_index_bounds(children.drop_first(), field);
    }
}

/// The first child of `node` that fills `field`.
pub fn child_by_field<'a>(node: &'a SyntaxNode, field: &str) -> (r: Option<&'a SyntaxNode>)
    ensures
        match r {
            Some(c) => 0 <= field_index(node.children@, field@) < node.children@.len() && *c
                == node.children@[field_index(node.children@, field@)],
            None => field_index(node.children@, field@) >= node.children@.len(),
        },
{
    let mut i: usize = 0;
    assert(node.children@.skip(0) =~= node.children@);
    while i < node.children.len()
        invariant
            i <= node.children@.len(),
            field_index(node.children@, field@) == i + field_index(
                node.children@.skip(i as int),
                field@,
            ),
        decreases node.children@.len() - i,
    {
        let child = &node.children[i];
        assert(node.children@.skip(i as int)[0] == *child);
        let found = match &child.field {
            Some(f) => str_eq(f.as_str(), field),
            None => false,
        };
        if found {
            return Some(child);
        }
        assert(node.children@.skip(i as int).drop_first() =~= node.children@.skip(i + 1));
        i += 1;
    }
    assert(node.children@.skip(node.children@.len() as int).len() == 0);
    None
}

/// The bytes of a node as far as they lie in the row where it begins: from
/// its start column to its end column if it ends in that row, else to the end
/// of the line. A node outside of the lines has none.
pub open spec fn node_bytes(node: SyntaxNode, lines: Seq<Seq<u8>>) -> Seq<u8> {
    if node.start_row >= lines.len() {
        Seq::empty()
    } else {
        let line = lines[node.start_row as int];
        let end = if node.start_row == node.end_row && node.end_column < line.len() {
            node.end_column as int
        } else {
            line.len() as int
        };
        if node.start_column <= end {
            line.subrange(node.start_column as int, end)
        } else {
            Seq::empty()
        }
    }
}

/// The text of a node: its bytes, read as UTF-8.
pub open spec fn node_text(node: SyntaxNode, lines: Seq<Seq<u8>>) -> Seq<char> {
    lossy_text(node_bytes(node, lines))
}

/// The text of a node, taken from the lines of its file.
pub fn node_text_simple(node: &SyntaxNode, lines: &Vec<Vec<u8>>) -> (text: String)
    ensures
        text@ == node_text(*node, byte_texts(lines@)),
{
    if node.start_row >= lines.len() {
        let empty: Vec<u8> = Vec::new();
        return text_lossy(empty.as_slice());
    }
    let line = lines[node.start_row].as_slice();
    let end: usize = if node.start_row == node.end_row && node.end_column < line.len() {
        node.end_column
    } else {
        line.len()
    };
    if node.start_column <= end {
        text_lossy(slice_subrange(line, node.start_column, end))
    } else {
        let empty: Vec<u8> = Vec::new();
        text_lossy(empty.as_slice())
    }
}

/// The name that the child in `field` gives to `node`, if there is such a
/// child with text: the text of the child, or, for a declarator that has a
/// name of its own, the text of that name.
pub open spec fn name_from_field(node: SyntaxNode, lines: Seq<Seq<u8>>, field: Seq<char>) -> Option<
    Seq<char>,
> {
    let k = field_index(node.children@, field);
    if 0 <= k < node.children@.len() {
        let child = node.children@[k];
        let text = node_text(child, lines);
        if text.len() == 0 {
            None
        } else if contains_sub(child.kind@, "declarator"@) {
            let j = field_index(child.children@, "name"@);
            if 0 <= j < child.children@.len() {
                Some(node_text(child.children@[j], lines))
            } else {
                Some(text)
            }
        } else {
            Some(text)
        }
    } else {
        None
    }
}

/// The index of the first of `children` whose kind is a definition kind, or
/// their number.
pub open spec fn definition_index(children: Seq<SyntaxNode>) -> int
    decreases children.len(),
{
    if children.len() == 0 || definition_kind(children[0].kind@) {
        0
    } else {
        1 + definition_index(children.drop_first())
    }
}

/// The name that a definition node defines: what the first of the fields
/// `name`, `identifier` and `declarator` gives; for an export statement
/// without these, the name of the first definition it holds.
pub open spec fn definition_name(node: SyntaxNode, lines: Seq<Seq<u8>>) -> Option<Seq<char>>
    decreases node,
{
    match name_from_field(node, lines, "name"@) {
        Some(t) => Some(t),
        None => match name_from_field(node, lines, "identifier"@) {
            Some(t) => Some(t),
            None => match name_from_field(node, lines, "declarator"@) {
                Some(t) => Some(t),
                None => {
                    let k = definition_index(node.children@);
                    if node.kind@ == "export_statement"@ && 0 <= k < node.children@.len() {
                        definition_name(node.children@[k], lines)
                    } else {
                        None
                    }
                },
            },
        },
    }
}

fn field_name(node: &SyntaxNode, lines: &Vec<Vec<u8>>, field: &str) -> (r: Option<String>)
    ensures
        match r {
            Some(t) => name_from_field(*node, byte_texts(lines@), field@) == Some(t@),
            None => name_from_field(*node, byte_texts(lines@), field@).is_none(),
        },
{
    match child_by_field(node, field) {
        Some(child) => {
            let text = node_text_simple(child, lines);
            if text.as_str().is_empty() {
                return None;
            }
            let kind = to_chars(child.kind.as_str());
            if contains(&kind, "declarator") {
                match child_by_field(child, "name") {
                    Some(id) => {
                        return Some(node_text_simple(id, lines));
                    },
                    None => {},
                }
            }
            Some(text)
        },
        None => None,
    }
}

fn first_definition_child(node: &SyntaxNode) -> (r: Option<usize>)
    ensures
        match r {
            Some(k) => k < node.children@.len() && definition_index(node.children@) == k,
            None => definition_index(node.children@) >= node.children@.len(),
        },
{
    let mut i: usize = 0;
    assert(node.children@.skip(0) =~= node.children@);
    while i < node.children.len()
        invariant
            i <= node.children@.len(),
            definition_index(node.children@) == i + definition_index(node.children@.skip(i as int)),
        decreases node.children@.len() - i,
    {
        assert(node.children@.skip(i as int)[0] == node.children@[i as int]);
        if is_definition_kind(node.children[i].kind.as_str()) {
            return Some(i);
        }
        assert(node.children@.skip(i as int).drop_first() =~= node.children@.skip(i + 1));
        i += 1;
    }
    assert(node.children@.skip(node.children@.len() as int).len() == 0);
    None
}

/// Extracts the name that a definition node defines.
pub fn extract_definition_name(node: &SyntaxNode, lines: &Vec<Vec<u8>>) -> (name: Option<String>)
    ensures
        match name {
            Some(t) => definition_name(*node, byte_texts(lines@)) == Some(t@),
            None => definition_name(*node, byte_texts(lines@)).is_none(),
        },
    decreases node,
{
    match field_name(node, lines, "name") {
        Some(t) => {
            return Some(t);
        },
        None => {},
    }
    match field_name(node, lines, "identifier") {
        Some(t) => {
            return Some(t);
        },
        None => {},
    }
    match field_name(node, lines, "declarator") {
        Some(t) => {
            return Some(t);
        },
        None => {},
    }
    if str_eq(node.kind.as_str(), "export_statement") {
        match first_definition_child(node) {
            Some(k) => {
                return extract_definition_name(&node.children[k], lines);
            },
            None => {},
        }
    }
    None
}

/// The text of the child of `node` in `field`, if there is such a child.
pub open spec fn field_text(node: SyntaxNode, lines: Seq<Seq<u8>>, field: Seq<char>) -> Option<
    Seq<char>,
> {
    let k = field_index(node.children@, field);
    if 0 <= k < node.children@.len() {
        Some(node_text(node.children@[k], lines))
    } else {
        None
    }
}

fn text_of_field(node: &SyntaxNode, lines: &Vec<Vec<u8>>, field: &str) -> (r: Option<String>)
    ensures
        match r {
            Some(t) => field_text(*node, byte_texts(lines@), field@) == Some(t@),
            None => field_text(*node, byte_texts(lines@), field@).is_none(),
        },
{
    match child_by_field(node, field) {
        Some(child) => Some(node_text_simple(child, lines)),
        None => None,
    }
}

/// The trait that an `impl Trait for Type` node implements; none for an
/// implementation without trait.
pub fn extract_impl_trait(node: &SyntaxNode, lines: &Vec<Vec<u8>>) -> (r: Option<String>)
    ensures
        match r {
            Some(t) => field_text(*node, byte_texts(lines@), "trait"@) == Some(t@),
            None => field_text(*node, byte_texts(lines@), "trait"@).is_none(),
        },
{
    text_of_field(node, lines, "trait")
}

/// The type that an `impl ... for Type` node implements for.
pub fn extract_impl_type(node: &SyntaxNode, lines: &Vec<Vec<u8>>) -> (r: Option<String>)
    ensures
        match r {
            Some(t) => field_text(*node, byte_texts(lines@), "type"@) == Some(t@),
            None => field_text(*node, byte_texts(lines@), "type"@).is_none(),
        },
{
    text_of_field(node, lines, "type")
}

/// Whether a child lists the interfaces that a class implements.
pub open spec fn interface_clause(kind: Seq<char>) -> bool {
    kind == "implements_clause"@ || kind == "super_interfaces"@
}

/// The interface names among the first `n` children of a clause: the texts
/// of the identifiers that have a text.
pub open spec fn clause_names(clause: SyntaxNode, lines: Seq<Seq<u8>>, n: int) -> Seq<Seq<char>>
    decreases n,
{
    if n <= 0 {
        Seq::empty()
    } else {
        let ident = clause.children@[n - 1];
        let rest = clause_names(clause, lines, n - 1);
        if contains_sub(ident.kind@, "identifier"@) && node_text(ident, lines).len() > 0 {
            rest.push(node_text(ident, lines))
        } else {
            rest
        }
    }
}

/// The interface names that the first `n` children of a class node list.
pub open spec fn interface_names(node: SyntaxNode, lines: Seq<Seq<u8>>, n: int) -> Seq<Seq<char>>
    decreases n,
{
    if n <= 0 {
        Seq::empty()
    } else {
        let child = node.children@[n - 1];
        let rest = interface_names(node, lines, n - 1);
        if interface_clause(child.kind@) {
            rest + clause_names(child, lines, child.children@.len() as int)
        } else {
            rest
        }
    }
}

/// The names of the interfaces that a class node implements.
pub fn extract_implemented_interfaces(node: &SyntaxNode, lines: &Vec<Vec<u8>>) -> (names: Vec<String>)
    ensures
        string_views(names@) == interface_names(
            *node,
            byte_texts(lines@),
            node.children@.len() as int,
        ),
{
    let mut names: Vec<String> = Vec::new();
    let ghost ls = byte_texts(lines@);
    let mut i: usize = 0;
    assert(string_views(names@) =~= interface_names(*node, ls, 0));
    while i < node.children.len()
        invariant
            i <= node.children@.len(),
            ls == byte_texts(lines@),
            string_views(names@) == interface_names(*node, ls, i as int),
        decreases node.children@.len() - i,
    {
        let child = &node.children[i];
        let kind = to_chars(child.kind.as_str());
        if is_word(&kind, "implements_clause") || is_word(&kind, "super_interfaces") {
            let ghost before = string_views(names@);
            let mut j: usize = 0;
            assert(before + clause_names(*child, ls, 0) =~= before);
            while j < child.children.len()
                invariant
                    j <= child.children@.len(),
                    ls == byte_texts(lines@),
                    string_views(names@) == before + clause_names(*child, ls, j as int),
                decreases child.children@.len() - j,
            {
                let ident = &child.children[j];
                let ghost so_far = string_views(names@);
                let ident_kind = to_chars(ident.kind.as_str());
                if contains(&ident_kind, "identifier") {
                    let text = node_text_simple(ident, lines);
                    if !text.as_str().is_empty() {
                        names.push(text);
                        assert(string_views(names@) =~= so_far.push(node_text(*ident, ls)));
                    }
                }
                j += 1;
                assert(string_views(names@) =~= before + clause_names(*child, ls, j as int));
            }
        }
        i += 1;
    }
    names
}

} // verus!
