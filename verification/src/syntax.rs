//! Syntax trees and queries, as far as the logic reads them.
//!
//! Parsing is the work of tree-sitter. What it finds is copied into plain
//! values: a tree of nodes with kind, field name and position, and the
//! captures of each query match.

use tree_sitter::{
    Language, Node, Parser, Query, QueryCapture, QueryCursor, StreamingIterator, Tree,
};
use vstd::prelude::*;

verus! {

/// `tree_sitter::Language`: a grammar.
#[verifier::external_type_specification]
#[verifier::external_body]
pub struct ExLanguage(Language);

/// `tree_sitter::Tree`: a parsed file.
#[verifier::external_type_specification]
#[verifier::external_body]
pub struct ExTree(Tree);

/// `tree_sitter::Node`: a node of a parsed file.
#[verifier::external_type_specification]
#[verifier::external_body]
pub struct ExNode<'tree>(Node<'tree>);

/// A node of a syntax tree. Rows and columns count from zero; columns count
/// bytes.
#[derive(Debug)]
pub struct SyntaxNode {
    /// The kind of the node in its grammar.
    pub kind: String,
    /// The name of the field that the node fills in its parent, if any.
    pub field: Option<String>,
    pub start_row: usize,
    pub start_column: usize,
    pub end_row: usize,
    pub end_column: usize,
    pub children: Vec<SyntaxNode>,
}

/// One node captured by a query match.
#[derive(Debug)]
pub struct Capture {
    /// The name of the capture in the query.
    pub name: String,
    /// The text of the node, if it is valid UTF-8.
    pub text: Option<String>,
    /// The row in which the node begins, counted from zero.
    pub row: usize,
}

/// One match of a query: its captures, in the order of the match.
#[derive(Debug)]
pub struct QueryHit {
    pub captures: Vec<Capture>,
}

/// The tree that `Parser::parse` makes of `content` with a parser that
/// `Parser::set_language` has given the grammar `language`; none where the
/// grammar is refused.
pub uninterp spec fn parsed(language: Language, content: Seq<char>) -> Option<Tree>;

/// The root of a tree, as `Tree::root_node` gives it.
pub uninterp spec fn tree_root(tree: Tree) -> Node<'static>;

/// The kind of a node, as `Node::kind` gives it.
pub uninterp spec fn node_kind(node: Node) -> Seq<char>;

/// Row and column at which a node begins, as `Node::start_position` gives
/// them.
pub uninterp spec fn node_start(node: Node) -> (usize, usize);

/// Row and column at which a node ends, as `Node::end_position` gives them.
pub uninterp spec fn node_end(node: Node) -> (usize, usize);

/// The number of children of a node, as `Node::child_count` gives it.
pub uninterp spec fn node_child_count(node: Node) -> u32;

/// The `i`-th child of a node, as `Node::child` gives it.
pub uninterp spec fn node_child(node: Node, i: u32) -> Option<Node<'static>>;

/// The name of the field that the `i`-th child of a node fills, as
/// `Node::field_name_for_child` gives it.
pub uninterp spec fn node_child_field(node: Node, i: u32) -> Option<Seq<char>>;

/// Calls `Parser::new`, `Parser::set_language` and `Parser::parse`. Claimed:
/// what comes back depends on the grammar and the content alone. It is
/// `None` where the grammar cannot be used.
#[verifier::external_body]
pub(crate) fn parse_source(language: &Language, content: &str) -> (tree: Option<Tree>)
    ensures
        tree == parsed(*language, content@),
{
    let mut parser = Parser::new();
    parser.set_language(language).ok()?;
    parser.parse(content, None)
}

/// Calls `Tree::root_node`. Claimed: the root depends on the tree alone.
#[verifier::external_body]
pub(crate) fn root_of<'tree>(tree: &'tree Tree) -> (root: Node<'tree>)
    ensures
        root == tree_root(*tree),
{
    tree.root_node()
}

/// Reads the kind of a node with `Node::kind`, and where it begins and ends,
/// each as row and column, with `Node::start_position` and
/// `Node::end_position`. Claimed: each depends on the node alone.
#[verifier::external_body]
pub(crate) fn node_facts(node: &Node<'_>) -> (facts: (String, (usize, usize), (usize, usize)))
    ensures
        facts.0@ == node_kind(*node),
        facts.1 == node_start(*node),
        facts.2 == node_end(*node),
{
    let (s, e) = (node.start_position(), node.end_position());
    (node.kind().to_string(), (s.row, s.column), (e.row, e.column))
}

/// Calls `Node::child_count`. Claimed: the count depends on the node alone.
#[verifier::external_body]
pub(crate) fn child_count(node: &Node<'_>) -> (n: u32)
    ensures
        n == node_child_count(*node),
{
    node.child_count()
}

/// Calls `Node::child`. Claimed: the child depends on the node and the index
/// alone.
#[verifier::external_body]
pub(crate) fn child_at<'tree>(node: &Node<'tree>, i: u32) -> (child: Option<Node<'tree>>)
    ensures
        child == node_child(*node, i),
{
    node.child(i)
}

/// Calls `Node::field_name_for_child`. Claimed: the name depends on the node
/// and the index alone.
#[verifier::external_body]
pub(crate) fn child_field(node: &Node<'_>, i: u32) -> (name: Option<String>)
    ensures
        crate::types::opt_string_view(name) == node_child_field(*node, i),
{
    node.field_name_for_child(i).map(String::from)
}

/// The deepest level of a syntax tree that is copied.
pub const MAX_TREE_DEPTH: usize = 512;

/// A node of a syntax tree, as mathematics.
pub struct NodeView {
    pub kind: Seq<char>,
    pub field: Option<Seq<char>>,
    pub start_row: usize,
    pub start_column: usize,
    pub end_row: usize,
    pub end_column: usize,
    pub children: Seq<NodeView>,
}

/// What a node holds, with everything below it.
pub open spec fn node_view(node: SyntaxNode) -> NodeView
    decreases node, node.children@.len() + 1,
{
    NodeView {
        kind: node.kind@,
        field: crate::types::opt_string_view(node.field),
        start_row: node.start_row,
        start_column: node.start_column,
        end_row: node.end_row,
        end_column: node.end_column,
        children: child_views(node, node.children@.len() as int),
    }
}

/// What the first `n` children of a node hold.
pub open spec fn child_views(node: SyntaxNode, n: int) -> Seq<NodeView>
    decreases node, n,
{
    if n <= 0 || n > node.children@.len() {
        Seq::empty()
    } else {
        child_views(node, n - 1).push(node_view(node.children@[n - 1]))
    }
}

/// What each of the nodes holds.
pub open spec fn node_views(nodes: Seq<SyntaxNode>) -> Seq<NodeView> {
    Seq::new(nodes.len(), |i: int| node_view(nodes[i]))
}

/// The views of the first `n` children of a node are the views of its
/// children, one by one.
pub proof fn lemma_child_views(node: SyntaxNode, n: int)
    requires
        0 <= n <= node.children@.len(),
    ensures
        child_views(node, n) == node_views(node.children@.take(n)),
        n == node.children@.len() ==> node_view(node).children == node_views(node.children@),
    decreases n,
{
    if n > 0 {
        lemma_child_views(node, n - 1);
        assert(node.children@.take(n) =~= node.children@.take(n - 1).push(node.children@[n - 1]));
    }
    assert(child_views(node, n) =~= node_views(node.children@.take(n)));
    if n == node.children@.len() {
        assert(node.children@.take(n) =~= node.children@);
    }
}

/// The copy of a node of a parsed file that fills the field `field`, with
/// what is below it down to `depth` levels below the node.
pub open spec fn copied(node: Node, field: Option<Seq<char>>, depth: nat) -> NodeView
    decreases depth, node_child_count(node) + 1,
{
    NodeView {
        kind: node_kind(node),
        field,
        start_row: node_start(node).0,
        start_column: node_start(node).1,
        end_row: node_end(node).0,
        end_column: node_end(node).1,
        children: copied_children(node, depth, node_child_count(node) as int),
    }
}

/// The copies of the first `n` children of a node, each with the field that
/// it fills, down to `depth` levels below the node; none at depth zero.
pub open spec fn copied_children(node: Node, depth: nat, n: int) -> Seq<NodeView>
    decreases depth, n,
{
    if n <= 0 || n > node_child_count(node) || depth == 0 {
        Seq::empty()
    } else {
        let before = copied_children(node, depth, n - 1);
        match node_child(node, (n - 1) as u32) {
            Some(child) => before.push(
                copied(child, node_child_field(node, (n - 1) as u32), (depth - 1) as nat),
            ),
            None => before,
        }
    }
}

/// The syntax tree of `content` in the grammar `language`, copied down to
/// 512 levels below its root; none where the grammar is refused.
pub open spec fn syntax_view(language: Language, content: Seq<char>) -> Option<NodeView> {
    match parsed(language, content) {
        Some(tree) => Some(copied(tree_root(tree), None, MAX_TREE_DEPTH as nat)),
        None => None,
    }
}

/// Whether `root` is the syntax tree of `content` in the grammar `language`:
/// the copy of the parsed tree, or nothing where the grammar is refused.
pub open spec fn is_tree_of(root: Option<SyntaxNode>, language: Language, content: Seq<char>) -> bool {
    match syntax_view(language, content) {
        Some(tree) => root.is_some() && node_view(root.unwrap()) == tree,
        None => root.is_none(),
    }
}

/// Whether a tree is no deeper than `depth` levels below its root.
pub open spec fn within_depth(node: SyntaxNode, depth: nat) -> bool
    decreases depth,
{
    if depth == 0 {
        node.children@.len() == 0
    } else {
        forall|i: int|
            0 <= i < node.children@.len() ==> within_depth(
                #[trigger] node.children@[i],
                (depth - 1) as nat,
            )
    }
}

/// Copies a node and what is below it, down to `depth` levels below the
/// node. The copy fills the field `field`.
pub(crate) fn copy_tree(node: &Node<'_>, field: Option<String>, depth: usize) -> (copy: SyntaxNode)
    ensures
        node_view(copy) == copied(*node, crate::types::opt_string_view(field), depth as nat),
        copy.field == field,
        within_depth(copy, depth as nat),
    decreases depth,
{
    let ghost given = field;
    let (kind, start, end) = node_facts(node);
    let mut copy = SyntaxNode {
        kind,
        field,
        start_row: start.0,
        start_column: start.1,
        end_row: end.0,
        end_column: end.1,
        children: Vec::new(),
    };
    let n = child_count(node);
    if depth == 0 {
        proof {
            lemma_child_views(copy, 0);
            assert(node_view(copy).children =~= Seq::<NodeView>::empty());
        }
        return copy;
    }
    let mut i: u32 = 0;
    assert(node_views(copy.children@) =~= copied_children(*node, depth as nat, 0));
    while i < n
        invariant
            i <= n,
            n == node_child_count(*node),
            depth > 0,
            copy.field == given,
            copy.kind@ == node_kind(*node),
            (copy.start_row, copy.start_column) == node_start(*node),
            (copy.end_row, copy.end_column) == node_end(*node),
            node_views(copy.children@) == copied_children(*node, depth as nat, i as int),
            forall|j: int|
                0 <= j < copy.children@.len() ==> within_depth(
                    #[trigger] copy.children@[j],
                    (depth - 1) as nat,
                ),
        decreases n - i,
    {
        let ghost before = copy.children@;
        match child_at(node, i) {
            Some(child) => {
                let below = copy_tree(&child, child_field(node, i), depth - 1);
                copy.children.push(below);
                assert(node_views(copy.children@) =~= node_views(before).push(node_view(below)));
            },
            None => {},
        }
        i += 1;
    }
    proof {
        lemma_child_views(copy, copy.children@.len() as int);
    }
    copy
}

/// `tree_sitter::Query`: a compiled query.
#[verifier::external_type_specification]
#[verifier::external_body]
pub struct ExQuery(Query);

/// The query that `Query::new` makes of `source` for the grammar `language`;
/// none where the query is refused.
pub uninterp spec fn query_of(language: Language, source: Seq<char>) -> Option<Query>;

/// The matches of a query on a tree over `content`, as `QueryCursor::matches`
/// yields them: for each match its captures, each with its name, its text
/// where that is valid UTF-8, and the row in which it begins.
pub uninterp spec fn query_hits(query: Query, tree: Tree, content: Seq<char>) -> Seq<QueryHit>;

/// The matches of the query `source` on the tree of `content` in the grammar
/// `language`; none where the query or the grammar is refused.
pub open spec fn query_result(language: Language, source: Seq<char>, content: Seq<char>) -> Option<
    Seq<QueryHit>,
> {
    match (query_of(language, source), parsed(language, content)) {
        (Some(query), Some(tree)) => Some(query_hits(query, tree, content)),
        _ => None,
    }
}

/// Whether `hits` are the matches of the query `source` on `content`.
pub open spec fn is_query_result(
    hits: Option<Vec<QueryHit>>,
    language: Language,
    source: Seq<char>,
    content: Seq<char>,
) -> bool {
    match hits {
        Some(h) => query_result(language, source, content) == Some(h@),
        None => query_result(language, source, content).is_none(),
    }
}

/// A capture with the given name, text and row.
pub fn capture_of(name: &str, text: Option<&str>, row: usize) -> (c: Capture)
    ensures
        c.name@ == name@,
        c.row == row,
        match text {
            Some(t) => c.text.is_some() && c.text.unwrap()@ == t@,
            None => c.text.is_none(),
        },
{
    Capture {
        name: name.to_owned(),
        text: match text {
            Some(t) => Some(t.to_owned()),
            None => None,
        },
        row,
    }
}

/// Calls `Query::new`. Claimed: what comes back depends on the grammar and
/// the source of the query alone; it is `None` where the query is refused.
#[verifier::external_body]
pub(crate) fn new_query(language: &Language, source: &str) -> (query: Option<Query>)
    ensures
        query == query_of(*language, source@),
{
    Query::new(language, source).ok()
}

/// Calls `QueryCursor::matches` on the tree and copies the captures of each
/// match, read with `Query::capture_names`, `Node::utf8_text` and
/// `Node::start_position`. The tree must be the tree of the content, so that
/// every node lies inside the text. Claimed: what comes back depends on the
/// query, the tree and the content alone.
#[verifier::external_body]
pub(crate) fn run_query(query: &Query, tree: &Tree, content: &str) -> (hits: Vec<QueryHit>)
    requires
        exists|language: Language| parsed(language, content@) == Some(*tree),
    ensures
        hits@ == query_hits(*query, *tree, content@),
{
    let (bytes, names) = (content.as_bytes(), query.capture_names());
    let mut cursor = QueryCursor::new();
    let mut matches = cursor.matches(query, tree.root_node(), bytes);
    let mut hits = Vec::new();
    while let Some(m) = matches.next() {
        let copy = |c: &QueryCapture| {
            let (text, row) = (c.node.utf8_text(bytes).ok(), c.node.start_position().row);
            capture_of(names[c.index as usize], text, row)
        };
        hits.push(QueryHit { captures: m.captures().iter().map(copy).collect() });
    }
    hits
}

/// Parses `content` with `language` into a syntax tree, which is copied down
/// to 512 levels below its root; `None` exactly where the grammar is refused.
pub fn parse_tree(language: &Language, content: &str) -> (root: Option<SyntaxNode>)
    ensures
        is_tree_of(root, *language, content@),
        match root {
            Some(tree) => within_depth(tree, MAX_TREE_DEPTH as nat),
            None => true,
        },
{
    match parse_source(language, content) {
        Some(tree) => Some(copy_tree(&root_of(&tree), None, MAX_TREE_DEPTH)),
        None => None,
    }
}

/// Runs the query `source` over `content`, parsed with `language`; `None`
/// exactly where the query or the grammar is refused.
pub fn query_matches(language: &Language, source: &str, content: &str) -> (hits: Option<
    Vec<QueryHit>,
>)
    ensures
        is_query_result(hits, *language, source@, content@),
{
    let query = match new_query(language, source) {
        Some(q) => q,
        None => {
            return None;
        },
    };
    match parse_source(language, content) {
        Some(tree) => Some(run_query(&query, &tree, content)),
        None => None,
    }
}

} // verus!
