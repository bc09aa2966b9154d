//! The data model: language tags, outline entries, matches and search results.

use vstd::prelude::*;

verus! {

/// A supported source language.
#[derive(Clone, Copy, Debug, PartialEq, Eq, Structural)]
pub enum Lang {
    Rust,
    TypeScript,
    JavaScript,
    Tsx,
    Python,
    Go,
    Java,
    C,
    Cpp,
    Ruby,
    Swift,
    Kotlin,
    CSharp,
    Dockerfile,
    Make,
}

/// What kind of file a path names.
#[derive(Clone, Copy, Debug, PartialEq, Eq, Structural)]
pub enum FileType {
    Code(Lang),
    Markdown,
    StructuredData,
    Tabular,
    Log,
    Binary,
    Generated,
    Other,
}

/// How a file is shown to the reader.
#[derive(Clone, Copy, Debug, PartialEq, Eq, Structural)]
pub enum ViewMode {
    Full,
    Outline,
    Keys,
    Section,
    Generated,
    Empty,
}

impl ViewMode {
    /// The word that stands for this mode in a header.
    pub open spec fn label_text(self) -> Seq<char> {
        match self {
            ViewMode::Full => "full"@,
            ViewMode::Outline => "outline"@,
            ViewMode::Keys => "keys"@,
            ViewMode::Section => "section"@,
            ViewMode::Generated => "generated"@,
            ViewMode::Empty => "empty"@,
        }
    }

    /// The word that stands for this mode in a header.
    pub fn label(&self) -> (s: &'static str)
        ensures
            s@ == self.label_text(),
    {
        match self {
            ViewMode::Full => "full",
            ViewMode::Outline => "outline",
            ViewMode::Keys => "keys",
            ViewMode::Section => "section",
            ViewMode::Generated => "generated",
            ViewMode::Empty => "empty",
        }
    }
}

/// The kind of declaration an outline entry stands for.
#[derive(Clone, Copy, Debug, PartialEq, Eq, Structural)]
pub enum OutlineKind {
    Import,
    Function,
    Method,
    Class,
    Struct,
    Interface,
    Enum,
    TypeAlias,
    Constant,
    Module,
    Impl,
    Field,
}

impl OutlineKind {
    /// Whether the kind is callable: a function or a method.
    pub open spec fn is_callable(self) -> bool {
        self == OutlineKind::Function || self == OutlineKind::Method
    }

    /// Executable form of [`OutlineKind::is_callable`].
    pub fn callable(&self) -> (b: bool)
        ensures
            b == self.is_callable(),
    {
        match self {
            OutlineKind::Function => true,
            OutlineKind::Method => true,
            _ => false,
        }
    }
}

/// A node of a file's structural outline. Lines are 1-indexed and inclusive.
#[derive(Debug)]
pub struct OutlineEntry {
    pub name: String,
    pub kind: OutlineKind,
    pub signature: Option<String>,
    pub start_line: u32,
    pub end_line: u32,
    pub children: Vec<OutlineEntry>,
}

impl OutlineEntry {
    /// The entry's own range is a valid 1-indexed inclusive range.
    pub open spec fn range_ok(&self) -> bool {
        1 <= self.start_line <= self.end_line
    }

    /// Every child lies inside this entry's range.
    pub open spec fn children_inside(&self) -> bool {
        forall|i: int|
            0 <= i < self.children@.len() ==> self.start_line
                <= (#[trigger] self.children@[i]).start_line && self.children@[i].end_line
                <= self.end_line
    }

    /// Children are in source order and do not overlap.
    pub open spec fn children_ordered(&self) -> bool {
        forall|i: int, j: int|
            0 <= i < j < self.children@.len() ==> (#[trigger] self.children@[i]).end_line < (
            #[trigger] self.children@[j]).start_line
    }

    /// The outline invariant, at this entry and at every entry below it.
    pub open spec fn well_formed(&self) -> bool
        decreases self,
    {
        &&& self.range_ok()
        &&& self.children_inside()
        &&& self.children_ordered()
        &&& forall|i: int|
            0 <= i < self.children@.len() ==> (#[trigger] self.children@[i]).well_formed()
    }

    /// Checks the outline invariant on this entry and everything below it.
    pub fn is_well_formed(&self) -> (ok: bool)
        ensures
            ok == self.well_formed(),
        decreases self,
    {
        if !(1 <= self.start_line && self.start_line <= self.end_line) {
            return false;
        }
        let n = self.children.len();
        let mut i: usize = 0;
        while i < n
            invariant
                n == self.children@.len(),
                i <= n,
                self.range_ok(),
                forall|j: int|
                    0 <= j < i ==> self.start_line <= (#[trigger] self.children@[j]).start_line
                        && self.children@[j].end_line <= self.end_line,
                forall|a: int, b: int|
                    0 <= a < b < i ==> (#[trigger] self.children@[a]).end_line < (
                    #[trigger] self.children@[b]).start_line,
                forall|j: int| 0 <= j < i ==> (#[trigger] self.children@[j]).well_formed(),
            decreases n - i,
        {
            let child = &self.children[i];
            if child.start_line < self.start_line || child.end_line > self.end_line {
                return false;
            }
            if i > 0 && self.children[i - 1].end_line >= child.start_line {
                return false;
            }
            if !child.is_well_formed() {
                return false;
            }
            proof {
                assert forall|a: int, b: int| 0 <= a < b < i + 1 implies (
                #[trigger] self.children@[a]).end_line < (
                #[trigger] self.children@[b]).start_line by {
                    if b == i && a < i - 1 {
                        assert(self.children@[i - 1].well_formed());
                        assert(self.children@[a].end_line < self.children@[i - 1].start_line);
                    }
                }
            }
            i += 1;
        }
        true
    }
}

/// A child of a well-formed entry has a valid range inside its parent's, and
/// two different children never share a line.
pub proof fn lemma_outline_children(parent: OutlineEntry, i: int, j: int)
    requires
        parent.well_formed(),
        0 <= i < j < parent.children@.len(),
    ensures
        1 <= parent.children@[i].start_line <= parent.children@[i].end_line,
        parent.start_line <= parent.children@[i].start_line,
        parent.children@[i].end_line <= parent.end_line,
        parent.children@[i].end_line < parent.children@[j].start_line,
{
    assert(parent.children@[i].well_formed());
    assert(parent.children@[j].well_formed());
}

/// An outline entry, as mathematics.
pub struct EntryView {
    pub name: Seq<char>,
    pub kind: OutlineKind,
    pub signature: Option<Seq<char>>,
    pub start_line: u32,
    pub end_line: u32,
    pub children: Seq<EntryView>,
}

/// What an entry holds, with everything below it.
pub open spec fn entry_view(e: OutlineEntry) -> EntryView
    decreases e, e.children@.len() + 1,
{
    EntryView {
        name: e.name@,
        kind: e.kind,
        signature: opt_string_view(e.signature),
        start_line: e.start_line,
        end_line: e.end_line,
        children: children_views(e, e.children@.len() as int),
    }
}

/// What the first `n` children of an entry hold.
pub open spec fn children_views(e: OutlineEntry, n: int) -> Seq<EntryView>
    decreases e, n,
{
    if n <= 0 || n > e.children@.len() {
        Seq::empty()
    } else {
        children_views(e, n - 1).push(entry_view(e.children@[n - 1]))
    }
}

/// What each of the entries holds.
pub open spec fn entry_views(entries: Seq<OutlineEntry>) -> Seq<EntryView> {
    Seq::new(entries.len(), |i: int| entry_view(entries[i]))
}

/// The views of the first `n` children of an entry are the views of its
/// children, one by one.
pub proof fn lemma_children_views(e: OutlineEntry, n: int)
    requires
        0 <= n <= e.children@.len(),
    ensures
        children_views(e, n) == entry_views(e.children@.take(n)),
        n == e.children@.len() ==> entry_view(e).children == entry_views(e.children@),
    decreases n,
{
    if n > 0 {
        lemma_children_views(e, n - 1);
        assert(e.children@.take(n) =~= e.children@.take(n - 1).push(e.children@[n - 1]));
    }
    assert(children_views(e, n) =~= entry_views(e.children@.take(n)));
    if n == e.children@.len() {
        assert(e.children@.take(n) =~= e.children@);
    }
}

/// One search hit.
#[derive(Debug)]
pub struct Match {
    pub path: String,
    pub line: u32,
    pub text: String,
    pub is_definition: bool,
    pub def_range: Option<(u32, u32)>,
    pub def_name: Option<String>,
    pub def_weight: u16,
    pub impl_target: Option<String>,
    pub exact: bool,
    pub file_lines: u32,
    /// Modification time of the file, in seconds since the Unix epoch.
    pub mtime: u64,
}

/// An owned copy of an optional string.
pub fn clone_opt_string(s: &Option<String>) -> (r: Option<String>)
    ensures
        r == *s,
{
    match s {
        Some(x) => Some(x.clone()),
        None => None,
    }
}

/// A match, as mathematics.
pub struct MatchView {
    pub path: Seq<char>,
    pub line: u32,
    pub text: Seq<char>,
    pub is_definition: bool,
    pub def_range: Option<(u32, u32)>,
    pub def_name: Option<Seq<char>>,
    pub def_weight: u16,
    pub impl_target: Option<Seq<char>>,
    pub exact: bool,
    pub file_lines: u32,
    pub mtime: u64,
}

/// The characters of an optional string.
pub open spec fn opt_string_view(s: Option<String>) -> Option<Seq<char>> {
    match s {
        Some(x) => Some(x@),
        None => None,
    }
}

impl View for Match {
    type V = MatchView;

    open spec fn view(&self) -> MatchView {
        MatchView {
            path: self.path@,
            line: self.line,
            text: self.text@,
            is_definition: self.is_definition,
            def_range: self.def_range,
            def_name: opt_string_view(self.def_name),
            def_weight: self.def_weight,
            impl_target: opt_string_view(self.impl_target),
            exact: self.exact,
            file_lines: self.file_lines,
            mtime: self.mtime,
        }
    }
}

/// The views of a list of matches.
pub open spec fn match_views(s: Seq<Match>) -> Seq<MatchView> {
    Seq::new(s.len(), |i: int| s[i]@)
}

impl Match {
    /// An owned copy of this match.
    pub fn duplicate(&self) -> (r: Match)
        ensures
            r == *self,
    {
        Match {
            path: self.path.clone(),
            line: self.line,
            text: self.text.clone(),
            is_definition: self.is_definition,
            def_range: self.def_range,
            def_name: clone_opt_string(&self.def_name),
            def_weight: self.def_weight,
            impl_target: clone_opt_string(&self.impl_target),
            exact: self.exact,
            file_lines: self.file_lines,
            mtime: self.mtime,
        }
    }
}

/// Owned copies of the matches, in the same order.
pub fn duplicate_matches(matches: &Vec<Match>) -> (r: Vec<Match>)
    ensures
        r@ == matches@,
{
    let mut r: Vec<Match> = Vec::new();
    let mut i: usize = 0;
    while i < matches.len()
        invariant
            i <= matches.len(),
            r@ == matches@.take(i as int),
        decreases matches.len() - i,
    {
        r.push(matches[i].duplicate());
        i += 1;
        assert(matches@.take(i as int) =~= matches@.take(i - 1).push(matches@[i - 1]));
    }
    assert(matches@.take(matches@.len() as int) =~= matches@);
    r
}

/// The result of one search: the ranked matches that are shown, and the counts
/// over everything that was found.
#[derive(Debug)]
pub struct SearchResult {
    pub query: String,
    pub scope: String,
    pub matches: Vec<Match>,
    pub total_found: usize,
    pub definitions: usize,
    pub usages: usize,
}

impl SearchResult {
    /// The counts agree with each other and with the matches shown.
    pub open spec fn well_formed(&self) -> bool {
        &&& self.definitions + self.usages <= self.total_found
        &&& self.matches@.len() <= self.total_found
    }
}

/// The estimated number of tokens in `byte_len` bytes of text.
pub open spec fn token_estimate(byte_len: u64) -> u64 {
    byte_len / 4
}

/// Estimates the number of tokens in `byte_len` bytes of text.
pub fn estimate_tokens(byte_len: u64) -> (tokens: u64)
    ensures
        tokens == token_estimate(byte_len),
        tokens == byte_len / 4,
{
    byte_len / 4
}

} // verus!
