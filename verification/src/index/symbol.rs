//! The symbol index: for each symbol name, the places that define it.
//!
//! The index is filled file by file from syntax trees. It lives in two
//! concurrent maps: names to locations, and indexed files to their mtime.

use dashmap::DashMap;
use tree_sitter::Language;
use vstd::prelude::*;

use crate::bytes::{byte_texts, split_byte_lines};
use crate::paths::{is_same_path, is_under, normal_form, normalize, path_is_under, same_path};
use crate::read::detect::{detect_file_type, file_type_of};
use crate::search::treesitter::{
    definition_kind, definition_name, extract_definition_name, extract_impl_trait,
    extract_impl_type, extract_implemented_interfaces, field_text, interface_names,
    is_definition_kind,
};
use crate::search::strip::is_word;
use crate::syntax::{is_tree_of, parse_tree, SyntaxNode};
use crate::text::{string_views, to_chars};
use crate::types::FileType;

verus! {

/// Files above this size are not indexed.
pub const MAX_FILE_SIZE: u64 = 500_000;

/// A place where a symbol appears.
#[derive(Debug)]
pub struct SymbolLocation {
    pub path: String,
    pub line: u32,
    pub is_definition: bool,
    /// Modification time of the file when it was indexed, in seconds since the
    /// Unix epoch.
    pub mtime: u64,
}

impl SymbolLocation {
    /// An owned copy of this location.
    pub fn duplicate(&self) -> (r: SymbolLocation)
        ensures
            r == *self,
    {
        SymbolLocation {
            path: self.path.clone(),
            line: self.line,
            is_definition: self.is_definition,
            mtime: self.mtime,
        }
    }
}

/// A symbol found in a file.
#[derive(Debug)]
pub struct Symbol {
    pub name: String,
    /// The line of the definition, counted from one.
    pub line: u32,
    pub is_definition: bool,
}

/// A symbol, as mathematics.
pub struct SymbolView {
    pub name: Seq<char>,
    pub line: u32,
    pub is_definition: bool,
}

impl View for Symbol {
    type V = SymbolView;

    open spec fn view(&self) -> SymbolView {
        SymbolView { name: self.name@, line: self.line, is_definition: self.is_definition }
    }
}

/// The views of a list of symbols.
pub open spec fn symbol_views(s: Seq<Symbol>) -> Seq<SymbolView> {
    Seq::new(s.len(), |i: int| s[i]@)
}

// ---------------------------------------------------------------------------
// Symbols of a syntax tree
// ---------------------------------------------------------------------------

/// The deepest level of a tree that is searched for definitions.
pub const MAX_DEPTH: usize = 3;

/// The line of a row: rows count from zero, lines from one.
pub open spec fn line_of(row: usize) -> u32 {
    if row >= u32::MAX {
        u32::MAX
    } else {
        (row + 1) as u32
    }
}

/// A definition named `name` at the line where `node` begins.
pub open spec fn defined(name: Seq<char>, node: SyntaxNode) -> SymbolView {
    SymbolView { name, line: line_of(node.start_row), is_definition: true }
}

/// The definitions named by `names`, all at the line where `node` begins.
pub open spec fn defined_all(names: Seq<Seq<char>>, node: SyntaxNode) -> Seq<SymbolView> {
    Seq::new(names.len(), |i: int| defined(names[i], node))
}

/// The symbols that a node contributes by itself: for a definition node its
/// name; for an implementation also the trait and the type; for a class also
/// the interfaces it implements.
pub open spec fn own_symbols(node: SyntaxNode, lines: Seq<Seq<u8>>) -> Seq<SymbolView> {
    if !definition_kind(node.kind@) {
        Seq::empty()
    } else {
        (match definition_name(node, lines) {
            Some(n) => seq![defined(n, node)],
            None => Seq::empty(),
        }) + (if node.kind@ == "impl_item"@ {
            (match field_text(node, lines, "trait"@) {
                Some(n) => seq![defined(n, node)],
                None => Seq::empty(),
            }) + (match field_text(node, lines, "type"@) {
                Some(n) => seq![defined(n, node)],
                None => Seq::empty(),
            })
        } else {
            Seq::empty()
        }) + (if node.kind@ == "class_declaration"@ || node.kind@ == "class_definition"@ {
            defined_all(interface_names(node, lines, node.children@.len() as int), node)
        } else {
            Seq::empty()
        })
    }
}

/// The symbols of a node at `depth` and of everything below it, down to
/// depth three, in the order of the text.
pub open spec fn walked(node: SyntaxNode, lines: Seq<Seq<u8>>, depth: int) -> Seq<SymbolView>
    decreases node, node.children@.len() + 1,
{
    if depth > MAX_DEPTH {
        Seq::empty()
    } else {
        own_symbols(node, lines) + walked_children(node, lines, depth, node.children@.len() as int)
    }
}

/// The symbols of the first `n` children of a node at `depth`.
pub open spec fn walked_children(node: SyntaxNode, lines: Seq<Seq<u8>>, depth: int, n: int) -> Seq<
    SymbolView,
>
    decreases node, n,
{
    if n <= 0 || n > node.children@.len() {
        Seq::empty()
    } else {
        walked_children(node, lines, depth, n - 1) + walked(node.children@[n - 1], lines, depth + 1)
    }
}

fn line_number(row: usize) -> (line: u32)
    ensures
        line == line_of(row),
{
    if row >= u32::MAX as usize {
        u32::MAX
    } else {
        (row + 1) as u32
    }
}

fn push_own_symbols(node: &SyntaxNode, lines: &Vec<Vec<u8>>, symbols: &mut Vec<Symbol>)
    ensures
        symbol_views(final(symbols)@) == symbol_views(old(symbols)@) + own_symbols(
            *node,
            byte_texts(lines@),
        ),
{
    let ghost start = symbol_views(symbols@);
    let ghost ls = byte_texts(lines@);
    let kind = to_chars(node.kind.as_str());
    if !is_definition_kind(node.kind.as_str()) {
        assert(start + own_symbols(*node, ls) =~= start);
        return ;
    }
    let line = line_number(node.start_row);
    match extract_definition_name(node, lines) {
        Some(name) => {
            symbols.push(Symbol { name, line, is_definition: true });
        },
        None => {},
    }
    let ghost first = symbol_views(symbols@);
    assert(first =~= start + (match definition_name(*node, ls) {
        Some(n) => seq![defined(n, *node)],
        None => Seq::empty(),
    }));
    if is_word(&kind, "impl_item") {
        match extract_impl_trait(node, lines) {
            Some(name) => {
                symbols.push(Symbol { name, line, is_definition: true });
            },
            None => {},
        }
        let ghost mid = symbol_views(symbols@);
        assert(mid =~= first + (match field_text(*node, ls, "trait"@) {
            Some(n) => seq![defined(n, *node)],
            None => Seq::empty(),
        }));
        match extract_impl_type(node, lines) {
            Some(name) => {
                symbols.push(Symbol { name, line, is_definition: true });
            },
            None => {},
        }
        assert(symbol_views(symbols@) =~= mid + (match field_text(*node, ls, "type"@) {
            Some(n) => seq![defined(n, *node)],
            None => Seq::empty(),
        }));
    }
    let ghost second = symbol_views(symbols@);
    if is_word(&kind, "class_declaration") || is_word(&kind, "class_definition") {
        let interfaces = extract_implemented_interfaces(node, lines);
        let ghost names = string_views(interfaces@);
        let n = interfaces.len();
        let mut i: usize = 0;
        assert(second + defined_all(names.take(0), *node) =~= second);
        while i < n
            invariant
                i <= n,
                n == interfaces@.len(),
                names == string_views(interfaces@),
                line == line_of(node.start_row),
                symbol_views(symbols@) == second + defined_all(names.take(i as int), *node),
            decreases n - i,
        {
            let ghost before = symbol_views(symbols@);
            let name = interfaces[i].clone();
            symbols.push(Symbol { name, line, is_definition: true });
            i += 1;
            assert(symbol_views(symbols@) =~= before.push(defined(names[i - 1], *node)));
            assert(defined_all(names.take(i as int), *node) =~= defined_all(
                names.take(i - 1),
                *node,
            ).push(defined(names[i - 1], *node)));
        }
        assert(names.take(n as int) =~= names);
    }
    assert(symbol_views(symbols@) =~= start + own_symbols(*node, ls));
}

/// Collects the symbols of a node and of everything below it, down to depth
/// three.
pub fn walk_definitions(node: &SyntaxNode, lines: &Vec<Vec<u8>>, symbols: &mut Vec<Symbol>, depth: usize)
    ensures
        symbol_views(final(symbols)@) == symbol_views(old(symbols)@) + walked(
            *node,
            byte_texts(lines@),
            depth as int,
        ),
    decreases node,
{
    let ghost start = symbol_views(symbols@);
    let ghost ls = byte_texts(lines@);
    if depth > MAX_DEPTH {
        assert(start + walked(*node, ls, depth as int) =~= start);
        return ;
    }
    push_own_symbols(node, lines, symbols);
    let ghost own = symbol_views(symbols@);
    let mut i: usize = 0;
    assert(own + walked_children(*node, ls, depth as int, 0) =~= own);
    while i < node.children.len()
        invariant
            i <= node.children@.len(),
            depth <= MAX_DEPTH,
            ls == byte_texts(lines@),
            symbol_views(symbols@) == own + walked_children(*node, ls, depth as int, i as int),
        decreases node.children@.len() - i,
    {
        let ghost before = symbol_views(symbols@);
        walk_definitions(&node.children[i], lines, symbols, depth + 1);
        i += 1;
        assert(symbol_views(symbols@) =~= own + walked_children(*node, ls, depth as int, i as int));
    }
    assert(symbol_views(symbols@) =~= start + walked(*node, ls, depth as int));
}

/// The symbols that the syntax tree of a file defines.
pub fn symbols_of_tree(root: &SyntaxNode, content: &str) -> (symbols: Vec<Symbol>)
    ensures
        symbol_views(symbols@) == walked(
            *root,
            crate::bytes::byte_lines(vstd::utf8::encode_utf8(content@)),
            0,
        ),
{
    let lines = split_byte_lines(content.as_bytes());
    let mut symbols: Vec<Symbol> = Vec::new();
    walk_definitions(root, &lines, &mut symbols, 0);
    assert(Seq::<SymbolView>::empty() + walked(*root, byte_texts(lines@), 0) =~= walked(
        *root,
        byte_texts(lines@),
        0,
    ));
    assert(symbol_views(Seq::<Symbol>::empty()) =~= Seq::<SymbolView>::empty());
    symbols
}

/// The symbols that a syntax tree defines over `content`; none without a
/// tree.
pub open spec fn tree_symbols(root: Option<SyntaxNode>, content: Seq<char>) -> Seq<SymbolView> {
    match root {
        Some(r) => walked(r, crate::bytes::byte_lines(vstd::utf8::encode_utf8(content)), 0),
        None => Seq::empty(),
    }
}

/// Whether `found` are the symbols that the file at `path` defines: none for
/// a file that is no code or without a grammar; else those of the syntax
/// tree of its content in the grammar, and none where the grammar is
/// refused.
pub open spec fn is_extraction(
    found: Seq<SymbolView>,
    path: Seq<char>,
    content: Seq<char>,
    language: Option<&Language>,
) -> bool {
    if !(file_type_of(path) is Code) || language.is_none() {
        found.len() == 0
    } else {
        exists|root: Option<SyntaxNode>|
            is_tree_of(root, *language.unwrap(), content) && found == tree_symbols(root, content)
    }
}

/// Extracts the symbols that a file defines: none for a file that is no
/// code, without a grammar, or that cannot be parsed; else those of its
/// syntax tree.
pub fn extract_symbols(path: &str, content: &str, language: Option<&Language>) -> (symbols: Vec<Symbol>)
    ensures
        is_extraction(symbol_views(symbols@), path@, content@, language),
{
    let is_code = match detect_file_type(path) {
        FileType::Code(_) => true,
        _ => false,
    };
    if !is_code {
        return Vec::new();
    }
    let grammar = match language {
        Some(g) => g,
        None => {
            return Vec::new();
        },
    };
    let root = parse_tree(grammar, content);
    let symbols = match &root {
        Some(r) => symbols_of_tree(r, content),
        None => Vec::new(),
    };
    assert(is_tree_of(root, *grammar, content@) && symbol_views(symbols@) =~= tree_symbols(
        root,
        content@,
    ));
    symbols
}

/// Whether a file is indexed: it is code, has a grammar, and is at most
/// 500 KB.
pub open spec fn indexable(path: Seq<char>, byte_len: u64, has_grammar: bool) -> bool {
    (file_type_of(path) is Code) && has_grammar && byte_len <= MAX_FILE_SIZE
}

/// Executable form of [`indexable`].
pub fn is_indexable(path: &str, byte_len: u64, has_grammar: bool) -> (b: bool)
    ensures
        b == indexable(path@, byte_len, has_grammar),
{
    let is_code = match detect_file_type(path) {
        FileType::Code(_) => true,
        _ => false,
    };
    is_code && has_grammar && byte_len <= MAX_FILE_SIZE
}

// ---------------------------------------------------------------------------
// The index
// ---------------------------------------------------------------------------

/// What the map of symbols holds: for each name its locations, in the order
/// in which they were added.
pub uninterp spec fn indexed_symbols(map: DashMap<String, Vec<SymbolLocation>>) -> Map<
    Seq<char>,
    Seq<SymbolLocation>,
>;

/// What the map of files holds: for each indexed path its mtime.
pub uninterp spec fn indexed_files(map: DashMap<String, u64>) -> Map<Seq<char>, u64>;

/// Whether `n` is the number of keys: there are finitely many, and `n` of
/// them.
pub open spec fn is_count(keys: Set<Seq<char>>, n: usize) -> bool {
    keys.finite() && keys.len() == n
}

/// Calls `DashMap::new`. Claimed: the new map holds nothing.
#[verifier::external_body]
fn new_symbol_map() -> (fresh: DashMap<String, Vec<SymbolLocation>>)
    ensures
        indexed_symbols(fresh) == (Map::<Seq<char>, Seq<SymbolLocation>>::empty()),
{
    DashMap::new()
}

/// Calls `DashMap::new`. Claimed: the new map holds nothing.
#[verifier::external_body]
fn new_file_map() -> (fresh: DashMap<String, u64>)
    ensures
        indexed_files(fresh) == (Map::<Seq<char>, u64>::empty()),
{
    DashMap::new()
}

/// Copies of the locations of `bucket`.
fn copy_locations(bucket: &Vec<SymbolLocation>) -> (r: Vec<SymbolLocation>)
    ensures
        r@ == bucket@,
{
    let mut r: Vec<SymbolLocation> = Vec::new();
    let mut i: usize = 0;
    while i < bucket.len()
        invariant
            i <= bucket.len(),
            r@ == bucket@.take(i as int),
        decreases bucket.len() - i,
    {
        r.push(bucket[i].duplicate());
        i += 1;
        assert(bucket@.take(i as int) =~= bucket@.take(i - 1).push(bucket@[i - 1]));
    }
    assert(bucket@.take(bucket@.len() as int) =~= bucket@);
    r
}

/// Calls `DashMap::view` with `copy_locations`. Claimed: `None` if the map
/// holds nothing under `name`, else a copy of the locations held there.
#[verifier::external_body]
fn symbol_bucket(map: &DashMap<String, Vec<SymbolLocation>>, name: &str) -> (r: Option<
    Vec<SymbolLocation>,
>)
    ensures
        r.is_some() == indexed_symbols(*map).dom().contains(name@),
        r.is_some() ==> r.unwrap()@ == indexed_symbols(*map)[name@],
{
    map.view(name, |_, bucket| copy_locations(bucket))
}

/// Calls `DashMap::insert`. Claimed: afterwards the map holds `bucket` under
/// `name`, in place of what it held there, and everything else as before.
#[verifier::external_body]
fn store_bucket(map: &mut DashMap<String, Vec<SymbolLocation>>, name: String, bucket: Vec<
    SymbolLocation,
>)
    ensures
        indexed_symbols(*final(map)) == indexed_symbols(*old(map)).insert(name@, bucket@),
{
    map.insert(name, bucket);
}

/// Calls `DashMap::iter` and copies the keys. Claimed: the result holds
/// exactly the names that the map holds, in no particular order.
#[verifier::external_body]
fn symbol_names(map: &DashMap<String, Vec<SymbolLocation>>) -> (names: Vec<String>)
    ensures
        forall|n: Seq<char>|
            indexed_symbols(*map).dom().contains(n) <==> exists|i: int|
                0 <= i < names@.len() && (#[trigger] names@[i])@ == n,
{
    map.iter().map(|entry| entry.key().clone()).collect()
}

/// Calls `DashMap::len`. Claimed: the number of names that the map holds.
#[verifier::external_body]
fn symbol_len(map: &DashMap<String, Vec<SymbolLocation>>) -> (n: usize)
    ensures
        is_count(indexed_symbols(*map).dom(), n),
{
    map.len()
}

/// Calls `DashMap::contains_key`. Claimed: whether the map holds `path`.
#[verifier::external_body]
fn file_is_indexed(map: &DashMap<String, u64>, path: &str) -> (b: bool)
    ensures
        b == indexed_files(*map).dom().contains(path@),
{
    map.contains_key(path)
}

/// Calls `DashMap::insert`. Claimed: afterwards the map holds `mtime` under
/// `path`, and everything else as before.
#[verifier::external_body]
fn store_file(map: &mut DashMap<String, u64>, path: String, mtime: u64)
    ensures
        indexed_files(*final(map)) == indexed_files(*old(map)).insert(path@, mtime),
{
    map.insert(path, mtime);
}

/// Calls `DashMap::iter` and copies the keys. Claimed: the result holds
/// exactly the paths that the map holds, in no particular order.
#[verifier::external_body]
fn file_paths(map: &DashMap<String, u64>) -> (paths: Vec<String>)
    ensures
        forall|p: Seq<char>|
            indexed_files(*map).dom().contains(p) <==> exists|i: int|
                0 <= i < paths@.len() && (#[trigger] paths@[i])@ == p,
{
    map.iter().map(|entry| entry.key().clone()).collect()
}

/// Calls `DashMap::len`. Claimed: the number of paths that the map holds.
#[verifier::external_body]
fn file_len(map: &DashMap<String, u64>) -> (n: usize)
    ensures
        is_count(indexed_files(*map).dom(), n),
{
    map.len()
}

/// A location, as mathematics.
pub struct LocationView {
    pub path: Seq<char>,
    pub line: u32,
    pub is_definition: bool,
    pub mtime: u64,
}

impl View for SymbolLocation {
    type V = LocationView;

    open spec fn view(&self) -> LocationView {
        LocationView {
            path: self.path@,
            line: self.line,
            is_definition: self.is_definition,
            mtime: self.mtime,
        }
    }
}

/// The views of a list of locations.
pub open spec fn location_views(s: Seq<SymbolLocation>) -> Seq<LocationView> {
    Seq::new(s.len(), |i: int| s[i]@)
}

/// The locations held under `name`; none if the name is not held.
pub open spec fn bucket_of(symbols: Map<Seq<char>, Seq<LocationView>>, name: Seq<char>) -> Seq<
    LocationView,
> {
    if symbols.dom().contains(name) {
        symbols[name]
    } else {
        Seq::empty()
    }
}

/// Whether a location is wanted by a lookup within `scope`: its path lies
/// under the scope, and it is a definition if only those are wanted.
pub open spec fn wanted(loc: LocationView, scope: Seq<char>, definitions_only: bool) -> bool {
    is_under(loc.path, scope) && (loc.is_definition || !definitions_only)
}

/// The locations of `bucket` that a lookup wants, in their order.
pub open spec fn selected(bucket: Seq<LocationView>, scope: Seq<char>, definitions_only: bool) -> Seq<
    LocationView,
>
    decreases bucket.len(),
{
    if bucket.len() == 0 {
        Seq::empty()
    } else if wanted(bucket.last(), scope, definitions_only) {
        selected(bucket.drop_last(), scope, definitions_only).push(bucket.last())
    } else {
        selected(bucket.drop_last(), scope, definitions_only)
    }
}

/// The locations of `bucket` outside of the file `path`, in their order.
pub open spec fn outside(bucket: Seq<LocationView>, path: Seq<char>) -> Seq<LocationView>
    decreases bucket.len(),
{
    if bucket.len() == 0 {
        Seq::empty()
    } else if is_same_path(bucket.last().path, path) {
        outside(bucket.drop_last(), path)
    } else {
        outside(bucket.drop_last(), path).push(bucket.last())
    }
}

/// The index without the locations in the file `path`. Names stay, even
/// where no location is left.
pub open spec fn without_file(symbols: Map<Seq<char>, Seq<LocationView>>, path: Seq<char>) -> Map<
    Seq<char>,
    Seq<LocationView>,
> {
    symbols.map_values(|bucket: Seq<LocationView>| outside(bucket, path))
}

/// The index with one more location, behind the others of its name.
pub open spec fn with_location(
    symbols: Map<Seq<char>, Seq<LocationView>>,
    name: Seq<char>,
    loc: LocationView,
) -> Map<Seq<char>, Seq<LocationView>> {
    symbols.insert(name, bucket_of(symbols, name).push(loc))
}

/// The index with a location for each of the first `n` of `found`, all in the
/// file `path` as of `mtime`.
pub open spec fn with_symbols(
    symbols: Map<Seq<char>, Seq<LocationView>>,
    path: Seq<char>,
    mtime: u64,
    found: Seq<SymbolView>,
    n: int,
) -> Map<Seq<char>, Seq<LocationView>>
    decreases n,
{
    if n <= 0 {
        symbols
    } else {
        with_location(
            with_symbols(symbols, path, mtime, found, n - 1),
            found[n - 1].name,
            LocationView {
                path,
                line: found[n - 1].line,
                is_definition: found[n - 1].is_definition,
                mtime,
            },
        )
    }
}

/// One file with the symbols found in it.
pub struct IndexedFile {
    pub path: String,
    pub mtime: u64,
    pub symbols: Vec<Symbol>,
}

/// What an index holds.
pub struct IndexView {
    /// The locations by name.
    pub symbols: Map<Seq<char>, Seq<LocationView>>,
    /// The mtime by indexed file; files are known by their normal form.
    pub files: Map<Seq<char>, u64>,
}

/// The index after one more file was recorded.
pub open spec fn with_file(index: IndexView, path: Seq<char>, mtime: u64, found: Seq<SymbolView>) -> IndexView {
    IndexView {
        symbols: with_symbols(index.symbols, path, mtime, found, found.len() as int),
        files: index.files.insert(normal_form(path), mtime),
    }
}

/// The index after the first `n` of `files` were recorded.
pub open spec fn with_files(index: IndexView, files: Seq<IndexedFile>, n: int) -> IndexView
    decreases n,
{
    if n <= 0 {
        index
    } else {
        with_file(
            with_files(index, files, n - 1),
            files[n - 1].path@,
            files[n - 1].mtime,
            symbol_views(files[n - 1].symbols@),
        )
    }
}

/// The index after one file was brought up to date: what was held for the
/// file is removed if the file was indexed before, then the file is recorded.
pub open spec fn reindexed(index: IndexView, path: Seq<char>, mtime: u64, found: Seq<SymbolView>) -> IndexView {
    let cleared = if index.files.dom().contains(normal_form(path)) {
        IndexView { symbols: without_file(index.symbols, path), files: index.files }
    } else {
        index
    };
    with_file(cleared, path, mtime, found)
}

/// The symbol index: names to locations, and indexed files to their mtime.
pub struct SymbolIndex {
    symbols: DashMap<String, Vec<SymbolLocation>>,
    indexed_files: DashMap<String, u64>,
}

impl View for SymbolIndex {
    type V = IndexView;

    closed spec fn view(&self) -> IndexView {
        IndexView {
            symbols: indexed_symbols(self.symbols).map_values(
                |bucket: Seq<SymbolLocation>| location_views(bucket),
            ),
            files: indexed_files(self.indexed_files),
        }
    }
}

impl SymbolIndex {
    /// An index that holds nothing.
    pub fn new() -> (index: SymbolIndex)
        ensures
            index@.symbols == Map::<Seq<char>, Seq<LocationView>>::empty(),
            index@.files == Map::<Seq<char>, u64>::empty(),
    {
        let index = SymbolIndex { symbols: new_symbol_map(), indexed_files: new_file_map() };
        assert(index@.symbols =~= Map::<Seq<char>, Seq<LocationView>>::empty());
        index
    }

    /// Whether some indexed file lies under `scope`.
    pub fn is_built(&self, scope: &str) -> (b: bool)
        ensures
            b == exists|p: Seq<char>| self@.files.dom().contains(p) && is_under(p, scope@),
    {
        let paths = file_paths(&self.indexed_files);
        let mut i: usize = 0;
        while i < paths.len()
            invariant
                i <= paths.len(),
                forall|p: Seq<char>|
                    self@.files.dom().contains(p) <==> exists|k: int|
                        0 <= k < paths@.len() && (#[trigger] paths@[k])@ == p,
                forall|j: int| 0 <= j < i ==> !is_under((#[trigger] paths@[j])@, scope@),
            decreases paths.len() - i,
        {
            if path_is_under(paths[i].as_str(), scope) {
                assert(0 <= i < paths@.len() && paths@[i as int]@ == paths@[i as int]@);
                assert(self@.files.dom().contains(paths@[i as int]@));
                return true;
            }
            i += 1;
        }
        proof {
            assert forall|p: Seq<char>| self@.files.dom().contains(p) implies !is_under(
                p,
                scope@,
            ) by {
                let k = choose|k: int| 0 <= k < paths@.len() && (#[trigger] paths@[k])@ == p;
                assert(!is_under(paths@[k]@, scope@));
            }
        }
        false
    }

    /// A copy of the bucket of `name`; empty if the name is not held.
    fn bucket(&self, name: &str) -> (r: Vec<SymbolLocation>)
        ensures
            location_views(r@) == bucket_of(self@.symbols, name@),
    {
        match symbol_bucket(&self.symbols, name) {
            Some(b) => b,
            None => {
                let empty: Vec<SymbolLocation> = Vec::new();
                assert(location_views(empty@) =~= Seq::<LocationView>::empty());
                empty
            },
        }
    }

    fn select(&self, name: &str, scope: &str, definitions_only: bool) -> (r: Vec<SymbolLocation>)
        ensures
            location_views(r@) == selected(
                bucket_of(self@.symbols, name@),
                scope@,
                definitions_only,
            ),
    {
        let bucket = self.bucket(name);
        let ghost all = location_views(bucket@);
        let mut r: Vec<SymbolLocation> = Vec::new();
        let mut i: usize = 0;
        assert(all.take(0) =~= Seq::<LocationView>::empty());
        assert(location_views(r@) =~= Seq::<LocationView>::empty());
        while i < bucket.len()
            invariant
                i <= bucket.len(),
                all == location_views(bucket@),
                location_views(r@) == selected(all.take(i as int), scope@, definitions_only),
            decreases bucket.len() - i,
        {
            let loc = &bucket[i];
            let ghost before = location_views(r@);
            proof {
                assert(all.take(i + 1).drop_last() =~= all.take(i as int));
                assert(all.take(i + 1).last() == loc@);
            }
            if (loc.is_definition || !definitions_only) && path_is_under(loc.path.as_str(), scope) {
                r.push(loc.duplicate());
                assert(location_views(r@) =~= before.push(loc@));
            }
            i += 1;
        }
        assert(all.take(all.len() as int) =~= all);
        r
    }

    /// The locations of the symbol `name` whose file lies under `scope`.
    pub fn lookup(&self, name: &str, scope: &str) -> (r: Vec<SymbolLocation>)
        ensures
            location_views(r@) == selected(bucket_of(self@.symbols, name@), scope@, false),
    {
        self.select(name, scope, false)
    }

    /// The definitions of the symbol `name` whose file lies under `scope`.
    pub fn lookup_definitions(&self, name: &str, scope: &str) -> (r: Vec<SymbolLocation>)
        ensures
            location_views(r@) == selected(bucket_of(self@.symbols, name@), scope@, true),
    {
        self.select(name, scope, true)
    }

    /// The number of symbol names in the index.
    pub fn symbol_count(&self) -> (n: usize)
        ensures
            is_count(self@.symbols.dom(), n),
    {
        let n = symbol_len(&self.symbols);
        assert(self@.symbols.dom() =~= indexed_symbols(self.symbols).dom());
        n
    }

    /// The number of indexed files.
    pub fn file_count(&self) -> (n: usize)
        ensures
            is_count(self@.files.dom(), n),
    {
        file_len(&self.indexed_files)
    }

    /// Adds one location behind the others of its name.
    fn add(&mut self, name: &str, loc: SymbolLocation)
        ensures
            final(self)@.files == old(self)@.files,
            final(self)@.symbols == with_location(old(self)@.symbols, name@, loc@),
    {
        let mut bucket = self.bucket(name);
        let ghost before = location_views(bucket@);
        bucket.push(loc);
        assert(location_views(bucket@) =~= before.push(loc@));
        store_bucket(&mut self.symbols, name.to_owned(), bucket);
        assert(self@.symbols =~= with_location(old(self)@.symbols, name@, loc@));
    }

    /// Notes the file `path` as indexed at `mtime` and adds a location for
    /// each of `symbols`.
    pub fn record(&mut self, path: &str, mtime: u64, symbols: &Vec<Symbol>)
        ensures
            final(self)@ == with_file(old(self)@, path@, mtime, symbol_views(symbols@)),
    {
        store_file(&mut self.indexed_files, normalize(path), mtime);
        let ghost found = symbol_views(symbols@);
        let mut i: usize = 0;
        while i < symbols.len()
            invariant
                i <= symbols.len(),
                found == symbol_views(symbols@),
                self@.files == old(self)@.files.insert(normal_form(path@), mtime),
                self@.symbols == with_symbols(old(self)@.symbols, path@, mtime, found, i as int),
            decreases symbols.len() - i,
        {
            let symbol = &symbols[i];
            let loc = SymbolLocation {
                path: path.to_owned(),
                line: symbol.line,
                is_definition: symbol.is_definition,
                mtime,
            };
            self.add(symbol.name.as_str(), loc);
            i += 1;
        }
    }

    /// Adds what was found in `files`, file by file.
    pub fn build(&mut self, files: &Vec<IndexedFile>)
        ensures
            final(self)@ == with_files(old(self)@, files@, files@.len() as int),
    {
        let mut i: usize = 0;
        while i < files.len()
            invariant
                i <= files.len(),
                self@ == with_files(old(self)@, files@, i as int),
            decreases files.len() - i,
        {
            let file = &files[i];
            self.record(file.path.as_str(), file.mtime, &file.symbols);
            i += 1;
        }
    }

    /// Removes the locations in the file `path` from every bucket.
    pub fn forget(&mut self, path: &str)
        ensures
            final(self)@.files == old(self)@.files,
            final(self)@.symbols == without_file(old(self)@.symbols, path@),
    {
        let names = symbol_names(&self.symbols);
        let ghost before = self@.symbols;
        assert(before.dom() =~= indexed_symbols(self.symbols).dom());
        let mut i: usize = 0;
        while i < names.len()
            invariant
                i <= names.len(),
                self@.files == old(self)@.files,
                before == old(self)@.symbols,
                self@.symbols.dom() == before.dom(),
                forall|n: Seq<char>|
                    before.dom().contains(n) <==> exists|k: int|
                        0 <= k < names@.len() && (#[trigger] names@[k])@ == n,
                forall|n: Seq<char>|
                    before.dom().contains(n) ==> #[trigger] self@.symbols[n] == if exists|k: int|
                        0 <= k < i && (#[trigger] names@[k])@ == n {
                        outside(before[n], path@)
                    } else {
                        before[n]
                    },
            decreases names.len() - i,
        {
            let name = &names[i];
            let ghost held = self@.symbols;
            assert(0 <= i < names@.len() && names@[i as int]@ == name@);
            assert(before.dom().contains(name@));
            let bucket = self.bucket(name.as_str());
            let ghost all = location_views(bucket@);
            let mut kept: Vec<SymbolLocation> = Vec::new();
            let mut j: usize = 0;
            assert(all.take(0) =~= Seq::<LocationView>::empty());
            assert(location_views(kept@) =~= Seq::<LocationView>::empty());
            while j < bucket.len()
                invariant
                    j <= bucket.len(),
                    all == location_views(bucket@),
                    location_views(kept@) == outside(all.take(j as int), path@),
                decreases bucket.len() - j,
            {
                let loc = &bucket[j];
                let ghost so_far = location_views(kept@);
                proof {
                    assert(all.take(j + 1).drop_last() =~= all.take(j as int));
                    assert(all.take(j + 1).last() == loc@);
                }
                if !same_path(loc.path.as_str(), path) {
                    kept.push(loc.duplicate());
                    assert(location_views(kept@) =~= so_far.push(loc@));
                }
                j += 1;
            }
            assert(all.take(all.len() as int) =~= all);
            proof {
                lemma_outside_idempotent(before[name@], path@);
            }
            store_bucket(&mut self.symbols, name.clone(), kept);
            proof {
                assert(self@.symbols =~= held.insert(name@, outside(all, path@)));
                assert(self@.symbols.dom() =~= before.dom());
                assert forall|n: Seq<char>| before.dom().contains(n) implies #[trigger] self@.symbols[n]
                    == if exists|k: int| 0 <= k < i + 1 && (#[trigger] names@[k])@ == n {
                    outside(before[n], path@)
                } else {
                    before[n]
                } by {
                    let done_before = exists|k: int| 0 <= k < i && (#[trigger] names@[k])@ == n;
                    let done_now = exists|k: int| 0 <= k < i + 1 && (#[trigger] names@[k])@ == n;
                    if done_before {
                        let k = choose|k: int| 0 <= k < i && (#[trigger] names@[k])@ == n;
                        assert(0 <= k < i + 1 && names@[k]@ == n);
                    }
                    if n == name@ {
                        assert(0 <= i < i + 1 && names@[i as int]@ == n);
                    }
                    if done_now && n != name@ {
                        let k = choose|k: int| 0 <= k < i + 1 && (#[trigger] names@[k])@ == n;
                        assert(0 <= k < i && names@[k]@ == n);
                    }
                }
            }
            i += 1;
        }
        proof {
            assert forall|n: Seq<char>| before.dom().contains(n) implies #[trigger] self@.symbols[n]
                == outside(before[n], path@) by {
                let k = choose|k: int| 0 <= k < names@.len() && (#[trigger] names@[k])@ == n;
                assert(0 <= k < i && names@[k]@ == n);
            }
            assert(self@.symbols =~= without_file(before, path@));
        }
    }

    /// Brings the index up to date for one file whose symbols are known: what
    /// was indexed for the file before is removed, then the file is recorded
    /// at `mtime` with `symbols`.
    pub fn index_symbols(&mut self, path: &str, mtime: u64, symbols: &Vec<Symbol>)
        ensures
            final(self)@ == reindexed(old(self)@, path@, mtime, symbol_views(symbols@)),
    {
        let key = normalize(path);
        if file_is_indexed(&self.indexed_files, key.as_str()) {
            self.forget(path);
        }
        self.record(path, mtime, symbols);
    }

    /// Brings the index up to date for one file: its symbols are extracted
    /// from `content` with `language`, and take the place of what was indexed
    /// for the file before.
    pub fn index_file(&mut self, path: &str, content: &str, mtime: u64, language: Option<&Language>)
        ensures
            exists|found: Seq<SymbolView>|
                is_extraction(found, path@, content@, language) && #[trigger] reindexed(
                    old(self)@,
                    path@,
                    mtime,
                    found,
                ) == final(self)@,
    {
        let symbols = extract_symbols(path, content, language);
        self.index_symbols(path, mtime, &symbols);
        assert(reindexed(old(self)@, path@, mtime, symbol_views(symbols@)) == self@);
    }
}

/// Removing the locations of a file twice is the same as removing them once.
pub proof fn lemma_outside_idempotent(bucket: Seq<LocationView>, path: Seq<char>)
    ensures
        outside(outside(bucket, path), path) == outside(bucket, path),
    decreases bucket.len(),
{
    if bucket.len() > 0 {
        lemma_outside_idempotent(bucket.drop_last(), path);
        if !is_same_path(bucket.last().path, path) {
            let rest = outside(bucket.drop_last(), path);
            assert(rest.push(bucket.last()).drop_last() =~= rest);
        }
    }
}

impl Default for SymbolIndex {
    /// An index that holds nothing.
    fn default() -> (index: SymbolIndex)
        ensures
            index@.symbols == Map::<Seq<char>, Seq<LocationView>>::empty(),
            index@.files == Map::<Seq<char>, u64>::empty(),
    {
        SymbolIndex::new()
    }
}

} // verus!
