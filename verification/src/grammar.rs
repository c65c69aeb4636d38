//! The boundary to the tree-sitter parser and the beancount grammar: parsing a
//! ledger text and reading the tree into plain values.

use vstd::prelude::*;
use vstd::string::StringSliceAdditionalSpecFns;
use vstd::utf8::{
    decode_utf8, encode_utf8, encode_utf8_decode_utf8, encode_utf8_valid_utf8, is_char_boundary,
    is_char_boundary_iff_not_is_continuation_byte, is_char_boundary_start_end_of_seq,
    valid_utf8_split,
};
use crate::error::Error;
use crate::syntax::{
    field_from_name, field_of_name, forest, kind_of_name, lemma_forest, node_kind_from_name,
    NodeKind, Position, SyntaxNode, SyntaxTree,
};

verus! {

/// `tree_sitter::Tree`, a parsed syntax tree: carried from the parser to the
/// functions that read it, never looked into.
#[verifier::external_type_specification]
#[verifier::external_body]
pub struct ExTree(tree_sitter::Tree);

/// `tree_sitter::LanguageError`, with which `Parser::set_language` refuses a
/// grammar of another version: only told apart from success.
#[verifier::external_type_specification]
#[verifier::external_body]
pub struct ExLanguageError(tree_sitter::LanguageError);

/// What the parser reports of one node.
pub struct NodeRecord {
    pub kind: String,
    pub start_byte: usize,
    pub end_byte: usize,
    pub start: Position,
    pub end: Position,
    pub child_count: usize,
}

/// A node record as a mathematical value.
pub struct NodeFacts {
    pub kind: Seq<char>,
    pub start_byte: usize,
    pub end_byte: usize,
    pub start: Position,
    pub end: Position,
    pub child_count: nat,
}

/// The characters of an optional string.
pub open spec fn optional_text(s: Option<String>) -> Option<Seq<char>> {
    match s {
        Some(s) => Some(s@),
        None => None,
    }
}

/// The characters of a list of optional strings.
pub open spec fn optional_texts(items: Seq<Option<String>>) -> Seq<Option<Seq<char>>> {
    items.map_values(|s: Option<String>| optional_text(s))
}

impl View for NodeRecord {
    type V = NodeFacts;

    open spec fn view(&self) -> NodeFacts {
        NodeFacts {
            kind: self.kind@,
            start_byte: self.start_byte,
            end_byte: self.end_byte,
            start: self.start,
            end: self.end,
            child_count: self.child_count as nat,
        }
    }
}

/// The outcome of parsing `text` with the beancount grammar.
pub uninterp spec fn ledger_tree(text: Seq<char>) -> Result<
    Option<tree_sitter::Tree>,
    tree_sitter::LanguageError,
>;

/// What `tree` holds at the end of `path`, a list of child indices that starts
/// at the root.
pub uninterp spec fn tree_node(tree: tree_sitter::Tree, path: Seq<usize>) -> Option<NodeFacts>;

/// The field names under which the node at the end of `path` holds its
/// children, child by child.
pub uninterp spec fn tree_child_fields(tree: tree_sitter::Tree, path: Seq<usize>) -> Option<
    Seq<Option<Seq<char>>>,
>;

/// The kind name and the byte range of the smallest named node of `tree` that
/// spans the range from `start` to `end`.
pub uninterp spec fn named_node_in_range(
    tree: tree_sitter::Tree,
    start: Position,
    end: Position,
) -> Option<(Seq<char>, usize, usize)>;

/// The longest text, in bytes, that the parser is given: it counts the bytes
/// of a text in 32 bits.
pub const MAX_TEXT_BYTES: usize = 0xffff_ffff;

/// Whether a text is short enough for the parser.
pub open spec fn fits_parser(text: Seq<char>) -> bool {
    encode_utf8(text).len() <= MAX_TEXT_BYTES
}

/// Parses `text` with a fresh `tree_sitter::Parser` to which the beancount
/// language is assigned: `Parser::set_language` decides between `Ok` and
/// `Err`, `Parser::parse` gives the tree. No timeout, cancellation flag or
/// earlier tree is involved, so the outcome depends on the text alone. The
/// parser addresses the bytes of the text with 32 bits, so longer texts are
/// kept from it.
#[verifier::external_body]
fn parse_ledger(text: &str) -> (r: Result<Option<tree_sitter::Tree>, tree_sitter::LanguageError>)
    requires
        fits_parser(text@),
    ensures
        r == ledger_tree(text@),
{
    let mut parser = tree_sitter::Parser::new();
    parser.set_language(tree_sitter_beancount::language())?;
    Ok(parser.parse(text, None))
}

/// Walks from `Tree::root_node` along `path` with `Node::child` and reports of
/// the node reached: `Node::kind`, `Node::start_byte`, `Node::end_byte`,
/// `Node::start_position`, `Node::end_position` and `Node::child_count`. `None`
/// where the path leaves the tree.
#[verifier::external_body]
fn node_at(tree: &tree_sitter::Tree, path: &Vec<usize>) -> (r: Option<NodeRecord>)
    ensures
        match r {
            Some(record) => tree_node(*tree, path@) == Some(record@),
            None => tree_node(*tree, path@) is None,
        },
{
    let mut node = tree.root_node();
    for i in path.iter() {
        node = node.child(*i)?;
    }
    let (start, end) = (node.start_position(), node.end_position());
    Some(NodeRecord {
        kind: node.kind().to_string(),
        start_byte: node.start_byte(),
        end_byte: node.end_byte(),
        start: Position { row: start.row, column: start.column },
        end: Position { row: end.row, column: end.column },
        child_count: node.child_count(),
    })
}

/// Walks from `Tree::root_node` along `path` with `Node::child`, then over the
/// children of the node reached with a `TreeCursor` (`Node::walk`,
/// `TreeCursor::goto_first_child`, `TreeCursor::goto_next_sibling`), and
/// reports for each child, in order, the field name under which it is held
/// (`TreeCursor::field_name`). `None` where the path leaves the tree.
#[verifier::external_body]
fn child_fields_at(tree: &tree_sitter::Tree, path: &Vec<usize>) -> (r: Option<Vec<Option<String>>>)
    ensures
        match r {
            Some(names) => tree_child_fields(*tree, path@) == Some(optional_texts(names@)),
            None => tree_child_fields(*tree, path@) is None,
        },
{
    let mut node = tree.root_node();
    for i in path.iter() {
        node = node.child(*i)?;
    }
    let mut cursor = node.walk();
    let mut names = Vec::new();
    let mut more = cursor.goto_first_child();
    while more {
        names.push(cursor.field_name().map(|name| name.to_string()));
        more = cursor.goto_next_sibling();
    }
    Some(names)
}

/// Asks `Node::named_descendant_for_point_range` of the root for the smallest
/// named node that spans the range, and reports its `Node::kind`,
/// `Node::start_byte` and `Node::end_byte`.
#[verifier::external_body]
fn named_node_at(tree: &tree_sitter::Tree, start: Position, end: Position) -> (r: Option<
    (String, usize, usize),
>)
    ensures
        match r {
            Some(found) => named_node_in_range(*tree, start, end) == Some(
                (found.0@, found.1, found.2),
            ),
            None => named_node_in_range(*tree, start, end) is None,
        },
{
    let from = tree_sitter::Point::new(start.row, start.column);
    let to = tree_sitter::Point::new(end.row, end.column);
    let node = tree.root_node().named_descendant_for_point_range(from, to)?;
    Some((node.kind().to_string(), node.start_byte(), node.end_byte()))
}

/// The text between two byte offsets of `text`, where both fall between
/// characters.
pub open spec fn text_span(text: Seq<char>, start: int, end: int) -> Option<Seq<char>> {
    let bytes = encode_utf8(text);
    if 0 <= start <= end <= bytes.len() && is_char_boundary(bytes, start) && is_char_boundary(
        bytes,
        end,
    ) {
        Some(decode_utf8(bytes.subrange(start, end)))
    } else {
        None
    }
}

/// Cuts the text between two byte offsets out of `text`.
pub fn span_text(text: &str, start: usize, end: usize) -> (r: Option<String>)
    ensures
        optional_text(r) == text_span(text@, start as int, end as int),
{
    if start <= end && end <= text.as_bytes().len() && text.is_char_boundary(start)
        && text.is_char_boundary(end) {
        let ghost bytes = text.spec_bytes();
        proof {
            encode_utf8_valid_utf8(text@);
            valid_utf8_split(bytes, end as int);
        }
        let (head, _) = text.split_at(end);
        proof {
            encode_utf8_valid_utf8(head@);
            if start < end {
                is_char_boundary_iff_not_is_continuation_byte(bytes, start as int);
                is_char_boundary_iff_not_is_continuation_byte(head.spec_bytes(), start as int);
            } else {
                is_char_boundary_start_end_of_seq(head.spec_bytes());
            }
        }
        let (_, middle) = head.split_at(start);
        proof {
            assert(middle.spec_bytes() =~= bytes.subrange(start as int, end as int));
            encode_utf8_decode_utf8(middle@);
        }
        Some(middle.to_owned())
    } else {
        None
    }
}

/// How many levels below the root a snapshot of the tree keeps.
pub const MAX_DEPTH: usize = 16;

/// The field name of child `index` in a list of field names; none where the
/// list is too short.
pub open spec fn field_at(fields: Seq<Option<Seq<char>>>, index: int) -> Option<Seq<char>> {
    if 0 <= index < fields.len() {
        fields[index]
    } else {
        None
    }
}

/// The node at the end of `path`, held by its parent under `field`, with its
/// descendants down to `depth` levels.
pub open spec fn snapshot(
    tree: tree_sitter::Tree,
    text: Seq<char>,
    path: Seq<usize>,
    field: Option<Seq<char>>,
    depth: nat,
) -> Result<SyntaxTree, Error>
    decreases depth, 0nat,
{
    match tree_node(tree, path) {
        None => Err(Error::InvalidState),
        Some(facts) => match text_span(text, facts.start_byte as int, facts.end_byte as int) {
            None => Err(Error::Utf8Error),
            Some(node_text) => {
                let children = if depth == 0 || facts.child_count == 0 {
                    Ok(Seq::<SyntaxTree>::empty())
                } else {
                    match tree_child_fields(tree, path) {
                        None => Err(Error::InvalidState),
                        Some(fields) => snapshot_children(
                            tree,
                            text,
                            path,
                            fields,
                            facts.child_count,
                            (depth - 1) as nat,
                        ),
                    }
                };
                match children {
                    Err(e) => Err(e),
                    Ok(children) => Ok(
                        SyntaxTree {
                            kind: kind_of_name(facts.kind),
                            field: field_of_name(field),
                            text: node_text,
                            start: facts.start,
                            end: facts.end,
                            children,
                        },
                    ),
                }
            },
        },
    }
}

/// The first `count` children of the node at the end of `path`, each with its
/// descendants down to `depth` levels. The first child that fails decides.
pub open spec fn snapshot_children(
    tree: tree_sitter::Tree,
    text: Seq<char>,
    path: Seq<usize>,
    fields: Seq<Option<Seq<char>>>,
    count: nat,
    depth: nat,
) -> Result<Seq<SyntaxTree>, Error>
    decreases depth, count + 1,
{
    if count == 0 {
        Ok(Seq::<SyntaxTree>::empty())
    } else {
        match snapshot_children(tree, text, path, fields, (count - 1) as nat, depth) {
            Err(e) => Err(e),
            Ok(before) => match snapshot(
                tree,
                text,
                path.push((count - 1) as usize),
                field_at(fields, count - 1),
                depth,
            ) {
                Err(e) => Err(e),
                Ok(child) => Ok(before.push(child)),
            },
        }
    }
}

/// The syntax tree of a ledger text, or why there is none.
pub open spec fn parsed_document(text: Seq<char>) -> Result<SyntaxTree, Error> {
    if !fits_parser(text) {
        Err(Error::InvalidState)
    } else {
        match ledger_tree(text) {
            Err(_) => Err(Error::LanguageError),
            Ok(None) => Err(Error::InvalidState),
            Ok(Some(tree)) => snapshot(tree, text, Seq::<usize>::empty(), None, MAX_DEPTH as nat),
        }
    }
}

/// A tree, or the error, as a mathematical value.
pub open spec fn outcome(r: Result<SyntaxNode, Error>) -> Result<SyntaxTree, Error> {
    match r {
        Ok(node) => Ok(node@),
        Err(e) => Err(e),
    }
}

/// Reads the node at the end of `path`, and its descendants down to `depth`
/// levels, into plain values.
fn read_node(
    tree: &tree_sitter::Tree,
    text: &str,
    path: &mut Vec<usize>,
    field: Option<&str>,
    depth: usize,
) -> (r: Result<SyntaxNode, Error>)
    ensures
        final(path)@ == old(path)@,
        outcome(r) == snapshot(
            *tree,
            text@,
            old(path)@,
            match field {
                Some(name) => Some(name@),
                None => None,
            },
            depth as nat,
        ),
    decreases depth,
{
    let record = match node_at(tree, path) {
        Some(record) => record,
        None => {
            return Err(Error::InvalidState);
        },
    };
    let node_text = match span_text(text, record.start_byte, record.end_byte) {
        Some(node_text) => node_text,
        None => {
            return Err(Error::Utf8Error);
        },
    };
    let ghost facts = tree_node(*tree, path@)->0;
    let mut children: Vec<SyntaxNode> = Vec::new();
    if depth > 0 && record.child_count > 0 {
        let fields = match child_fields_at(tree, path) {
            Some(fields) => fields,
            None => {
                return Err(Error::InvalidState);
            },
        };
        let ghost names = optional_texts(fields@);
        let mut i: usize = 0;
        while i < record.child_count
            invariant
                i <= record.child_count,
                depth > 0,
                path@ == old(path)@,
                tree_node(*tree, path@) == Some(facts),
                text_span(text@, facts.start_byte as int, facts.end_byte as int) == Some(
                    node_text@,
                ),
                facts.child_count == record.child_count,
                tree_child_fields(*tree, path@) == Some(names),
                names == optional_texts(fields@),
                children@.len() == i,
                snapshot_children(*tree, text@, path@, names, i as nat, (depth - 1) as nat) == Ok::<
                    Seq<SyntaxTree>,
                    Error,
                >(forest(children@, i as nat)),
            decreases record.child_count - i,
        {
            let child_field: Option<&str> = if i < fields.len() {
                match &fields[i] {
                    Some(name) => Some(name.as_str()),
                    None => None,
                }
            } else {
                None
            };
            path.push(i);
            let child = read_node(tree, text, path, child_field, depth - 1);
            path.pop();
            assert(path@ =~= old(path)@);
            match child {
                Err(e) => {
                    proof {
                        assert(snapshot_children(
                            *tree,
                            text@,
                            path@,
                            names,
                            (i + 1) as nat,
                            (depth - 1) as nat,
                        ) == Err::<Seq<SyntaxTree>, Error>(e));
                        lemma_snapshot_children_fail(
                            *tree,
                            text@,
                            path@,
                            names,
                            (i + 1) as nat,
                            record.child_count as nat,
                            (depth - 1) as nat,
                        );
                    }
                    return Err(e);
                },
                Ok(child) => {
                    let ghost before = forest(children@, i as nat);
                    let ghost earlier = children@;
                    let ghost child_tree = child@;
                    proof {
                        lemma_forest(children@, i as nat);
                    }
                    children.push(child);
                    proof {
                        lemma_forest(children@, (i + 1) as nat);
                        assert forall|k: int| 0 <= k < i + 1 implies forest(
                            children@,
                            (i + 1) as nat,
                        )[k] == before.push(child_tree)[k] by {
                            if k < i {
                                assert(children@[k] == earlier[k]);
                            }
                        }
                        assert(forest(children@, (i + 1) as nat) =~= before.push(child_tree));
                    }
                },
            }
            i += 1;
        }
    }
    let node = SyntaxNode {
        kind: node_kind_from_name(record.kind.as_str()),
        field: field_from_name(field),
        text: node_text,
        start: record.start,
        end: record.end,
        children,
    };
    proof {
        lemma_forest(node.children@, node.children@.len());
        assert(node@.children =~= forest(children@, children@.len()));
    }
    Ok(node)
}

/// Once a child fails, every longer list of children fails in the same way.
proof fn lemma_snapshot_children_fail(
    tree: tree_sitter::Tree,
    text: Seq<char>,
    path: Seq<usize>,
    fields: Seq<Option<Seq<char>>>,
    failed: nat,
    count: nat,
    depth: nat,
)
    requires
        failed <= count,
        snapshot_children(tree, text, path, fields, failed, depth) is Err,
    ensures
        snapshot_children(tree, text, path, fields, count, depth) == snapshot_children(
            tree,
            text,
            path,
            fields,
            failed,
            depth,
        ),
    decreases count,
{
    if failed < count {
        lemma_snapshot_children_fail(tree, text, path, fields, failed, (count - 1) as nat, depth);
    }
}

/// Parses a ledger text into its syntax tree.
pub fn parse_document(text: &str) -> (r: Result<SyntaxNode, Error>)
    ensures
        outcome(r) == parsed_document(text@),
{
    if text.as_bytes().len() > MAX_TEXT_BYTES {
        return Err(Error::InvalidState);
    }
    match parse_ledger(text) {
        Err(_) => Err(Error::LanguageError),
        Ok(None) => Err(Error::InvalidState),
        Ok(Some(tree)) => {
            let mut path: Vec<usize> = Vec::new();
            read_node(&tree, text, &mut path, None, MAX_DEPTH)
        },
    }
}

/// The smallest named node of the tree of `text` that spans the range from
/// `start` to `end`, as its kind and its text; none where no node spans it.
pub open spec fn located(text: Seq<char>, start: Position, end: Position) -> Result<
    Option<(NodeKind, Seq<char>)>,
    Error,
> {
    if !fits_parser(text) {
        Err(Error::InvalidState)
    } else {
        match ledger_tree(text) {
            Err(_) => Err(Error::LanguageError),
            Ok(None) => Err(Error::InvalidState),
            Ok(Some(tree)) => match named_node_in_range(tree, start, end) {
                None => Ok(None),
                Some(found) => match text_span(text, found.1 as int, found.2 as int) {
                    None => Err(Error::Utf8Error),
                    Some(node_text) => Ok(Some((kind_of_name(found.0), node_text))),
                },
            },
        }
    }
}

/// A located node, or the error, as a mathematical value.
pub open spec fn located_outcome(r: Result<Option<(NodeKind, String)>, Error>) -> Result<
    Option<(NodeKind, Seq<char>)>,
    Error,
> {
    match r {
        Ok(Some(found)) => Ok(Some((found.0, found.1@))),
        Ok(None) => Ok(None),
        Err(e) => Err(e),
    }
}

/// Parses `text` and finds the smallest named node that spans the range from
/// `start` to `end`.
pub fn locate(text: &str, start: Position, end: Position) -> (r: Result<
    Option<(NodeKind, String)>,
    Error,
>)
    ensures
        located_outcome(r) == located(text@, start, end),
{
    if text.as_bytes().len() > MAX_TEXT_BYTES {
        return Err(Error::InvalidState);
    }
    match parse_ledger(text) {
        Err(_) => Err(Error::LanguageError),
        Ok(None) => Err(Error::InvalidState),
        Ok(Some(tree)) => match named_node_at(&tree, start, end) {
            None => Ok(None),
            Some(found) => match span_text(text, found.1, found.2) {
                None => Err(Error::Utf8Error),
                Some(node_text) => Ok(Some((node_kind_from_name(found.0.as_str()), node_text))),
            },
        },
    }
}

} // verus!
