//! The concrete syntax tree of a ledger, as plain values.

use vstd::prelude::*;
use crate::text::same_text;

verus! {

/// The kinds of syntax node that indexing, completion and formatting tell apart.
#[derive(Clone, Copy, Debug, PartialEq, Eq, Structural)]
pub enum NodeKind {
    File,
    Transaction,
    PostingList,
    Posting,
    Amount,
    Account,
    Currency,
    Commodity,
    Include,
    OptionDirective,
    Plugin,
    Open,
    Text,
    Number,
    UnaryNumber,
    BinaryNumber,
    Comment,
    Identifier,
    Error,
    Other,
}

/// The field names under which a parent holds a child.
#[derive(Clone, Copy, Debug, PartialEq, Eq, Structural)]
pub enum FieldName {
    Unnamed,
    Date,
    Txn,
    TxnStrings,
    PostingList,
    Account,
    Amount,
    Currency,
    CostSpec,
    Comment,
    Key,
    Value,
    Other,
}

/// A place in a text: zero-based row and column.
#[derive(Clone, Copy, Debug, PartialEq, Eq, Structural)]
pub struct Position {
    pub row: usize,
    pub column: usize,
}

/// The kind that the grammar's name for a node stands for.
pub open spec fn kind_of_name(name: Seq<char>) -> NodeKind {
    if name == "file"@ {
        NodeKind::File
    } else if name == "transaction"@ {
        NodeKind::Transaction
    } else if name == "posting_or_kv_list"@ {
        NodeKind::PostingList
    } else if name == "posting"@ {
        NodeKind::Posting
    } else if name == "incomplete_amount"@ {
        NodeKind::Amount
    } else if name == "account"@ {
        NodeKind::Account
    } else if name == "currency"@ {
        NodeKind::Currency
    } else if name == "commodity"@ {
        NodeKind::Commodity
    } else if name == "include"@ {
        NodeKind::Include
    } else if name == "option"@ {
        NodeKind::OptionDirective
    } else if name == "plugin"@ {
        NodeKind::Plugin
    } else if name == "open"@ {
        NodeKind::Open
    } else if name == "string"@ {
        NodeKind::Text
    } else if name == "number"@ {
        NodeKind::Number
    } else if name == "unary_number_expr"@ {
        NodeKind::UnaryNumber
    } else if name == "binary_number_expr"@ {
        NodeKind::BinaryNumber
    } else if name == "comment"@ {
        NodeKind::Comment
    } else if name == "identifier"@ {
        NodeKind::Identifier
    } else if name == "ERROR"@ {
        NodeKind::Error
    } else {
        NodeKind::Other
    }
}

/// The field that the grammar's name for a field stands for.
pub open spec fn field_of_name(name: Option<Seq<char>>) -> FieldName {
    match name {
        None => FieldName::Unnamed,
        Some(name) => if name == "date"@ {
            FieldName::Date
        } else if name == "txn"@ {
            FieldName::Txn
        } else if name == "txn_strings"@ {
            FieldName::TxnStrings
        } else if name == "posting_or_kv_list"@ {
            FieldName::PostingList
        } else if name == "account"@ {
            FieldName::Account
        } else if name == "amount"@ {
            FieldName::Amount
        } else if name == "currency"@ {
            FieldName::Currency
        } else if name == "cost_spec"@ {
            FieldName::CostSpec
        } else if name == "comment"@ {
            FieldName::Comment
        } else if name == "key"@ {
            FieldName::Key
        } else if name == "value"@ {
            FieldName::Value
        } else {
            FieldName::Other
        },
    }
}

/// Reads a node kind from the grammar's name for it.
pub fn node_kind_from_name(name: &str) -> (kind: NodeKind)
    ensures
        kind == kind_of_name(name@),
{
    if same_text(name, "file") {
        NodeKind::File
    } else if same_text(name, "transaction") {
        NodeKind::Transaction
    } else if same_text(name, "posting_or_kv_list") {
        NodeKind::PostingList
    } else if same_text(name, "posting") {
        NodeKind::Posting
    } else if same_text(name, "incomplete_amount") {
        NodeKind::Amount
    } else if same_text(name, "account") {
        NodeKind::Account
    } else if same_text(name, "currency") {
        NodeKind::Currency
    } else if same_text(name, "commodity") {
        NodeKind::Commodity
    } else if same_text(name, "include") {
        NodeKind::Include
    } else if same_text(name, "option") {
        NodeKind::OptionDirective
    } else if same_text(name, "plugin") {
        NodeKind::Plugin
    } else if same_text(name, "open") {
        NodeKind::Open
    } else if same_text(name, "string") {
        NodeKind::Text
    } else if same_text(name, "number") {
        NodeKind::Number
    } else if same_text(name, "unary_number_expr") {
        NodeKind::UnaryNumber
    } else if same_text(name, "binary_number_expr") {
        NodeKind::BinaryNumber
    } else if same_text(name, "comment") {
        NodeKind::Comment
    } else if same_text(name, "identifier") {
        NodeKind::Identifier
    } else if same_text(name, "ERROR") {
        NodeKind::Error
    } else {
        NodeKind::Other
    }
}

/// Reads a field from the grammar's name for it.
pub fn field_from_name(name: Option<&str>) -> (field: FieldName)
    ensures
        field == field_of_name(
            match name {
                Some(n) => Some(n@),
                None => None,
            },
        ),
{
    match name {
        None => FieldName::Unnamed,
        Some(name) => if same_text(name, "date") {
            FieldName::Date
        } else if same_text(name, "txn") {
            FieldName::Txn
        } else if same_text(name, "txn_strings") {
            FieldName::TxnStrings
        } else if same_text(name, "posting_or_kv_list") {
            FieldName::PostingList
        } else if same_text(name, "account") {
            FieldName::Account
        } else if same_text(name, "amount") {
            FieldName::Amount
        } else if same_text(name, "currency") {
            FieldName::Currency
        } else if same_text(name, "cost_spec") {
            FieldName::CostSpec
        } else if same_text(name, "comment") {
            FieldName::Comment
        } else if same_text(name, "key") {
            FieldName::Key
        } else if same_text(name, "value") {
            FieldName::Value
        } else {
            FieldName::Other
        },
    }
}

/// A syntax node as a mathematical value: what the contracts speak of.
pub struct SyntaxTree {
    pub kind: NodeKind,
    pub field: FieldName,
    pub text: Seq<char>,
    pub start: Position,
    pub end: Position,
    pub children: Seq<SyntaxTree>,
}

/// A syntax node: its kind, the field under which its parent holds it, the
/// text it spans, where it starts and ends, and its children in order.
pub struct SyntaxNode {
    pub kind: NodeKind,
    pub field: FieldName,
    pub text: String,
    pub start: Position,
    pub end: Position,
    pub children: Vec<SyntaxNode>,
}

/// The trees of the first `count` nodes of a list.
pub open spec fn forest(nodes: Seq<SyntaxNode>, count: nat) -> Seq<SyntaxTree>
    decreases nodes, count,
{
    if count == 0 || count > nodes.len() {
        Seq::<SyntaxTree>::empty()
    } else {
        forest(nodes, (count - 1) as nat).push(tree_of(nodes[count - 1]))
    }
}

/// The tree that a node stands for.
pub open spec fn tree_of(node: SyntaxNode) -> SyntaxTree
    decreases node, 0nat,
{
    SyntaxTree {
        kind: node.kind,
        field: node.field,
        text: node.text@,
        start: node.start,
        end: node.end,
        children: forest(node.children@, node.children@.len()),
    }
}

impl View for SyntaxNode {
    type V = SyntaxTree;

    open spec fn view(&self) -> SyntaxTree {
        tree_of(*self)
    }
}

/// The trees of the first `count` nodes are the trees of these nodes, one
/// for one.
pub proof fn lemma_forest(nodes: Seq<SyntaxNode>, count: nat)
    requires
        count <= nodes.len(),
    ensures
        forest(nodes, count).len() == count,
        forall|i: int| 0 <= i < count ==> forest(nodes, count)[i] == (#[trigger] nodes[i])@,
    decreases count,
{
    if count > 0 {
        lemma_forest(nodes, (count - 1) as nat);
    }
}

/// The trees of a list of borrowed nodes.
pub open spec fn trees(nodes: Seq<&SyntaxNode>) -> Seq<SyntaxTree> {
    nodes.map_values(|n: &SyntaxNode| n@)
}

/// The test for a node's kind.
pub open spec fn has_kind(kind: NodeKind) -> spec_fn(SyntaxTree) -> bool {
    |n: SyntaxTree| n.kind == kind
}

/// The test for the field that holds a node.
pub open spec fn has_field(field: FieldName) -> spec_fn(SyntaxTree) -> bool {
    |n: SyntaxTree| n.field == field
}

/// The nodes of the given kind, in order.
pub open spec fn of_kind(nodes: Seq<SyntaxTree>, kind: NodeKind) -> Seq<SyntaxTree> {
    nodes.filter(has_kind(kind))
}

/// The nodes held under the given field, in order.
pub open spec fn in_field(nodes: Seq<SyntaxTree>, field: FieldName) -> Seq<SyntaxTree> {
    nodes.filter(has_field(field))
}

/// All children of the given nodes, parent by parent.
pub open spec fn children_of(nodes: Seq<SyntaxTree>) -> Seq<SyntaxTree> {
    nodes.map_values(|n: SyntaxTree| n.children).flatten()
}

/// The texts of the given nodes.
pub open spec fn texts_of(nodes: Seq<SyntaxTree>) -> Seq<Seq<char>> {
    nodes.map_values(|n: SyntaxTree| n.text)
}

impl SyntaxTree {
    /// The first child held under `field`, if there is one.
    pub open spec fn child_in_field(self, field: FieldName) -> Option<SyntaxTree> {
        let found = in_field(self.children, field);
        if found.len() > 0 {
            Some(found[0])
        } else {
            None
        }
    }
}

impl SyntaxNode {
    /// What the view of a node holds, field by field.
    pub proof fn lemma_view(&self)
        ensures
            self@.kind == self.kind,
            self@.field == self.field,
            self@.text == self.text@,
            self@.start == self.start,
            self@.end == self.end,
            self@.children.len() == self.children@.len(),
            forall|i: int|
                0 <= i < self.children@.len() ==> self@.children[i] == (#[trigger] self.children@[i])@,
    {
        lemma_forest(self.children@, self.children@.len());
    }

    /// The children, borrowed.
    pub fn child_nodes(&self) -> (nodes: Vec<&SyntaxNode>)
        ensures
            trees(nodes@) == self@.children,
    {
        let mut nodes: Vec<&SyntaxNode> = Vec::new();
        let mut i: usize = 0;
        while i < self.children.len()
            invariant
                i <= self.children.len(),
                nodes.len() == i,
                forall|j: int| 0 <= j < i ==> nodes@[j]@ == self.children@[j]@,
            decreases self.children.len() - i,
        {
            nodes.push(&self.children[i]);
            i += 1;
        }
        proof {
            self.lemma_view();
        }
        assert(trees(nodes@) =~= self@.children);
        nodes
    }

    /// The first child held under `field`, if there is one.
    pub fn child_by_field(&self, field: FieldName) -> (found: Option<&SyntaxNode>)
        ensures
            match found {
                Some(node) => self@.child_in_field(field) == Some(node@),
                None => self@.child_in_field(field) is None,
            },
    {
        let nodes = select_field(&self.child_nodes(), field);
        if nodes.len() > 0 {
            Some(nodes[0])
        } else {
            None
        }
    }
}

/// The nodes of the given kind, in order.
pub fn select_kind<'a>(nodes: &Vec<&'a SyntaxNode>, kind: NodeKind) -> (found: Vec<&'a SyntaxNode>)
    ensures
        trees(found@) == of_kind(trees(nodes@), kind),
{
    let mut found: Vec<&SyntaxNode> = Vec::new();
    let mut i: usize = 0;
    assert(trees(nodes@).take(0) =~= Seq::<SyntaxTree>::empty());
    assert(trees(found@) =~= Seq::<SyntaxTree>::empty());
    proof {
        reveal(Seq::filter);
    }
    while i < nodes.len()
        invariant
            i <= nodes.len(),
            trees(found@) == of_kind(trees(nodes@).take(i as int), kind),
        decreases nodes.len() - i,
    {
        let node = nodes[i];
        let ghost before = trees(found@);
        proof {
            let prefix = trees(nodes@).take(i as int + 1);
            assert(prefix.drop_last() =~= trees(nodes@).take(i as int));
            assert(prefix.last() == node@);
            node.lemma_view();
            assert(prefix =~= prefix.drop_last().push(node@));
            prefix.drop_last().lemma_filter_push(node@, has_kind(kind));
        }
        if node.kind == kind {
            found.push(node);
            assert(trees(found@) =~= before.push(node@));
        }
        i += 1;
    }
    assert(trees(nodes@).take(nodes.len() as int) =~= trees(nodes@));
    found
}

/// The nodes held under the given field, in order.
pub fn select_field<'a>(nodes: &Vec<&'a SyntaxNode>, field: FieldName) -> (found: Vec<
    &'a SyntaxNode,
>)
    ensures
        trees(found@) == in_field(trees(nodes@), field),
{
    let mut found: Vec<&SyntaxNode> = Vec::new();
    let mut i: usize = 0;
    assert(trees(nodes@).take(0) =~= Seq::<SyntaxTree>::empty());
    assert(trees(found@) =~= Seq::<SyntaxTree>::empty());
    proof {
        reveal(Seq::filter);
    }
    while i < nodes.len()
        invariant
            i <= nodes.len(),
            trees(found@) == in_field(trees(nodes@).take(i as int), field),
        decreases nodes.len() - i,
    {
        let node = nodes[i];
        let ghost before = trees(found@);
        proof {
            let prefix = trees(nodes@).take(i as int + 1);
            assert(prefix.drop_last() =~= trees(nodes@).take(i as int));
            assert(prefix.last() == node@);
            node.lemma_view();
            assert(prefix =~= prefix.drop_last().push(node@));
            prefix.drop_last().lemma_filter_push(node@, has_field(field));
        }
        if node.field == field {
            found.push(node);
            assert(trees(found@) =~= before.push(node@));
        }
        i += 1;
    }
    assert(trees(nodes@).take(nodes.len() as int) =~= trees(nodes@));
    found
}

/// All children of the given nodes, parent by parent.
pub fn children_of_all<'a>(nodes: &Vec<&'a SyntaxNode>) -> (found: Vec<&'a SyntaxNode>)
    ensures
        trees(found@) == children_of(trees(nodes@)),
{
    let mut found: Vec<&SyntaxNode> = Vec::new();
    let mut i: usize = 0;
    assert(trees(nodes@).take(0) =~= Seq::<SyntaxTree>::empty());
    assert(trees(found@) =~= Seq::<SyntaxTree>::empty());
    assert(children_of(Seq::<SyntaxTree>::empty()) =~= Seq::<SyntaxTree>::empty());
    while i < nodes.len()
        invariant
            i <= nodes.len(),
            trees(found@) == children_of(trees(nodes@).take(i as int)),
        decreases nodes.len() - i,
    {
        let node: &'a SyntaxNode = nodes[i];
        proof {
            let prefix = trees(nodes@).take(i as int + 1);
            let lists = trees(nodes@).take(i as int).map_values(|n: SyntaxTree| n.children);
            assert(prefix.map_values(|n: SyntaxTree| n.children) =~= lists.push(node@.children));
            lists.lemma_flatten_push(node@.children);
            node.lemma_view();
        }
        let ghost before = trees(found@);
        let mut j: usize = 0;
        while j < node.children.len()
            invariant
                j <= node.children.len(),
                node@.children.len() == node.children@.len(),
                forall|k: int|
                    0 <= k < node.children@.len() ==> node@.children[k] == (
                    #[trigger] node.children@[k])@,
                trees(found@) == before + node@.children.take(j as int),
            decreases node.children.len() - j,
        {
            let ghost sofar = trees(found@);
            found.push(&node.children[j]);
            assert(trees(found@) =~= sofar.push(node.children@[j as int]@));
            assert(node@.children.take(j as int + 1) =~= node@.children.take(j as int).push(
                node.children@[j as int]@,
            ));
            j += 1;
        }
        assert(node@.children.take(node.children.len() as int) =~= node@.children);
        i += 1;
    }
    assert(trees(nodes@).take(nodes.len() as int) =~= trees(nodes@));
    found
}

} // verus!
