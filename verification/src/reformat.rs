//! The canonical text of a ledger: one line per directive and posting,
//! amounts aligned at the decimal point, blank lines between directives kept.

use vstd::prelude::*;
use crate::error::Error;
use crate::grammar::{parse_document, parsed_document};
use crate::syntax::{trees, FieldName, NodeKind, SyntaxNode, SyntaxTree};
use crate::text::{
    append, byte_len, byte_length, chars_of, extend, find, first_position, join, join_with, pad,
    repeated, rows, string_of,
};
use vstd::utf8::is_ascii_chars;

verus! {

/// The column, counted from one, at which the decimal point of an amount
/// stands.
pub const DECIMAL_COLUMN: usize = 50;

/// The room between the end of an account name of `account_len` bytes and
/// the decimal point of its amount: the column of the point less the indent
/// of two, the blank after the name and the point itself.
pub open spec fn room(account_len: nat) -> nat {
    if account_len <= DECIMAL_COLUMN - 4 {
        (DECIMAL_COLUMN - 4 - account_len) as nat
    } else {
        0
    }
}

/// The number of blanks before a numeral whose integer part has
/// `integer_len` characters, after an account name of `account_len` bytes.
pub open spec fn padding(account_len: nat, integer_len: nat) -> nat {
    if integer_len <= room(account_len) {
        (room(account_len) - integer_len) as nat
    } else {
        0
    }
}

/// The text of the first child of `node` that is held under `field`.
pub open spec fn field_text(node: SyntaxTree, field: FieldName) -> Option<Seq<char>> {
    match node.child_in_field(field) {
        Some(child) => Some(child.text),
        None => None,
    }
}

/// An option directive: the keyword, the key and the value.
pub open spec fn option_text(node: SyntaxTree) -> Option<Seq<char>> {
    match (field_text(node, FieldName::Key), field_text(node, FieldName::Value)) {
        (Some(key), Some(value)) => Some("option "@ + key + " "@ + value),
        _ => None,
    }
}

/// A directive of a keyword and a name: the keyword and the text of the
/// second child.
pub open spec fn named_text(keyword: Seq<char>, node: SyntaxTree) -> Option<Seq<char>> {
    if node.children.len() >= 2 {
        Some(keyword + " "@ + node.children[1].text)
    } else {
        None
    }
}

/// An open directive: the date, the keyword and the account.
pub open spec fn open_text(node: SyntaxTree) -> Option<Seq<char>> {
    match (field_text(node, FieldName::Date), field_text(node, FieldName::Account)) {
        (Some(date), Some(account)) => Some(date + " open "@ + account),
        _ => None,
    }
}

/// Whether a node of this kind is a numeral: a number, or an expression of
/// numbers.
pub open spec fn is_numeral(kind: NodeKind) -> bool {
    kind == NodeKind::Number || kind == NodeKind::UnaryNumber || kind == NodeKind::BinaryNumber
}

/// An amount after an account name of `account_len` bytes: blanks that bring
/// the decimal point to its column, the numeral and the currency. The amount
/// has to be exactly a numeral, with a decimal point, and a currency.
pub open spec fn amount_text(amount: SyntaxTree, account_len: nat) -> Option<Seq<char>> {
    if amount.children.len() == 2 && is_numeral(amount.children[0].kind)
        && amount.children[1].kind == NodeKind::Currency {
        let numeral = amount.children[0].text;
        let point = first_position(numeral, '.');
        if point < numeral.len() {
            Some(
                repeated(' ', padding(account_len, point as nat)) + numeral + " "@
                    + amount.children[1].text,
            )
        } else {
            None
        }
    } else {
        None
    }
}

/// What follows the account of a posting that has an amount: the amount and,
/// where there is one, the cost.
pub open spec fn priced_text(posting: SyntaxTree, amount: SyntaxTree, account_len: nat) -> Option<
    Seq<char>,
> {
    match amount_text(amount, account_len) {
        None => None,
        Some(amount) => Some(
            " "@ + amount + match field_text(posting, FieldName::CostSpec) {
                Some(cost) => " "@ + cost,
                None => Seq::<char>::empty(),
            },
        ),
    }
}

/// The comment that ends a posting line, two blanks before it.
pub open spec fn trailing_comment(posting: SyntaxTree) -> Seq<char> {
    match field_text(posting, FieldName::Comment) {
        Some(comment) => "  "@ + comment,
        None => Seq::<char>::empty(),
    }
}

/// The line of a posting: the account, then the amount with its cost where
/// the posting has an amount, then the comment where it has one.
pub open spec fn posting_text(posting: SyntaxTree) -> Option<Seq<char>> {
    match field_text(posting, FieldName::Account) {
        None => None,
        Some(account) => match posting.child_in_field(FieldName::Amount) {
            None => Some("  "@ + account + trailing_comment(posting)),
            Some(amount) => match priced_text(posting, amount, byte_length(account)) {
                None => None,
                Some(priced) => Some("  "@ + account + priced + trailing_comment(posting)),
            },
        },
    }
}

/// Where the decimal point stands in the line of a posting that has an
/// amount, counted in characters from the start of the line.
pub open spec fn point_position(posting: SyntaxTree) -> int {
    let account = field_text(posting, FieldName::Account)->0;
    let numeral = posting.child_in_field(FieldName::Amount)->0.children[0].text;
    let point = first_position(numeral, '.');
    3 + account.len() + padding(byte_length(account), point as nat) + point
}

/// The lines of the first `count` children of a posting list: a comment as it
/// is, a posting as its line, each after two blanks; other children give no
/// line.
pub open spec fn posting_lines(nodes: Seq<SyntaxTree>, count: nat) -> Option<Seq<Seq<char>>>
    decreases count,
{
    if count == 0 || count > nodes.len() {
        Some(Seq::empty())
    } else {
        match posting_lines(nodes, (count - 1) as nat) {
            None => None,
            Some(before) => {
                let node = nodes[count - 1];
                if node.kind == NodeKind::Comment {
                    Some(before.push("  "@ + node.text))
                } else if node.kind == NodeKind::Posting {
                    match posting_text(node) {
                        Some(line) => Some(before.push(line)),
                        None => None,
                    }
                } else {
                    Some(before)
                }
            },
        }
    }
}

/// The texts of the first `count` nodes of a list.
pub open spec fn texts_among(nodes: Seq<SyntaxTree>, count: nat) -> Seq<Seq<char>>
    decreases count,
{
    if count == 0 || count > nodes.len() {
        Seq::empty()
    } else {
        texts_among(nodes, (count - 1) as nat).push(nodes[count - 1].text)
    }
}

/// The head line of a transaction: the date, the flag, and the payee and
/// narration, or the one string there is.
pub open spec fn transaction_head(node: SyntaxTree) -> Option<Seq<char>> {
    match (
        field_text(node, FieldName::Date),
        field_text(node, FieldName::Txn),
        node.child_in_field(FieldName::TxnStrings),
    ) {
        (Some(date), Some(flag), Some(strings)) => if 1 <= strings.children.len() <= 2 {
            Some(
                date + " "@ + flag + " "@ + join_with(
                    texts_among(strings.children, strings.children.len()),
                    ' ',
                ),
            )
        } else {
            None
        },
        _ => None,
    }
}

/// A transaction: its head line and, below it, the lines of its posting list.
pub open spec fn transaction_text(node: SyntaxTree) -> Option<Seq<char>> {
    match (transaction_head(node), node.child_in_field(FieldName::PostingList)) {
        (Some(head), Some(list)) => match posting_lines(list.children, list.children.len()) {
            Some(lines) => Some(head.push('\n') + join_with(lines, '\n')),
            None => None,
        },
        _ => None,
    }
}

/// Whether a node of this kind is formatted.
pub open spec fn is_formatted(kind: NodeKind) -> bool {
    kind == NodeKind::OptionDirective || kind == NodeKind::Plugin || kind == NodeKind::Include
        || kind == NodeKind::Open || kind == NodeKind::Transaction
}

/// The text of a directive of a kind that is formatted; none where the
/// directive lacks a part.
pub open spec fn directive_text(node: SyntaxTree) -> Option<Seq<char>> {
    if node.kind == NodeKind::OptionDirective {
        option_text(node)
    } else if node.kind == NodeKind::Plugin {
        named_text("plugin"@, node)
    } else if node.kind == NodeKind::Include {
        named_text("include"@, node)
    } else if node.kind == NodeKind::Open {
        open_text(node)
    } else {
        transaction_text(node)
    }
}

/// The empty rows between a node and the node after it. A directive that is
/// formatted ends with its last line, so every row from its end on is empty;
/// a node of another kind that ends within a row holds that row.
pub open spec fn empty_rows(node: SyntaxTree, next: SyntaxTree) -> nat {
    let held: int = if is_formatted(node.kind) || node.end.column == 0 {
        0
    } else {
        1
    };
    if next.start.row >= node.end.row + held {
        (next.start.row - node.end.row - held) as nat
    } else {
        0
    }
}

/// The empty rows between the node at `at` and the node after it; none after
/// the last node.
pub open spec fn empty_rows_after(nodes: Seq<SyntaxTree>, at: int) -> nat {
    if 0 <= at && at + 1 < nodes.len() {
        empty_rows(nodes[at], nodes[at + 1])
    } else {
        0
    }
}

/// The line breaks before a directive: none before the first, else one and
/// one more for each of the empty rows since the directive before it.
pub open spec fn separator(gap: Option<nat>) -> Seq<char> {
    match gap {
        Some(rows) => repeated('\n', rows + 1),
        None => Seq::empty(),
    }
}

/// The empty rows since the last directive, once `rows` more were passed.
pub open spec fn widened(gap: Option<nat>, rows: nat) -> Option<nat> {
    match gap {
        Some(before) => Some(before + rows),
        None => None,
    }
}

/// The text of the nodes from `from` on, where `gap` counts the empty rows
/// since the directive before them, if there is one. A directive of a kind
/// that is formatted gives its text, after the line breaks that part it from
/// the directive before it: the empty rows between the two are kept, the
/// rows of the nodes between them are not. A node of another kind gives no
/// text. A directive that lacks a part is an error.
pub open spec fn formatted_from(nodes: Seq<SyntaxTree>, from: nat, gap: Option<nat>) -> Result<
    Seq<char>,
    Error,
>
    decreases nodes.len() - from,
{
    if from >= nodes.len() {
        Ok(Seq::empty())
    } else {
        let node = nodes[from as int];
        let rows = empty_rows_after(nodes, from as int);
        if is_formatted(node.kind) {
            match directive_text(node) {
                None => Err(Error::UnexpectedFormat),
                Some(text) => match formatted_from(nodes, from + 1, Some(rows)) {
                    Err(e) => Err(e),
                    Ok(rest) => Ok(separator(gap) + text + rest),
                },
            }
        } else {
            formatted_from(nodes, from + 1, widened(gap, rows))
        }
    }
}

/// The canonical text of a syntax tree: that of the children of a file, or of
/// the one directive that the tree is. It starts with the first directive
/// and ends with the last.
pub open spec fn formatted(root: SyntaxTree) -> Result<Seq<char>, Error> {
    if root.kind == NodeKind::File {
        formatted_from(root.children, 0, None)
    } else {
        formatted_from(seq![root], 0, None)
    }
}

/// The canonical text of a ledger text.
pub open spec fn reformatted(text: Seq<char>) -> Result<Option<Seq<char>>, Error> {
    match parsed_document(text) {
        Err(e) => Err(e),
        Ok(root) => match formatted(root) {
            Err(e) => Err(e),
            Ok(canonical) => Ok(Some(canonical)),
        },
    }
}

/// Where the numeral has room, its decimal point stands at the decimal
/// column, whatever the length of the account name: in the line of the
/// posting, the bytes before the point are one fewer than the column. The
/// lengths are those in bytes; the integer part of a numeral is made of
/// characters that take one byte each.
pub proof fn lemma_decimal_point_column(posting: SyntaxTree)
    requires
        posting.child_in_field(FieldName::Amount) is Some,
        posting_text(posting) is Some,
        is_ascii_chars(
            posting.child_in_field(FieldName::Amount)->0.children[0].text.take(
                first_position(posting.child_in_field(FieldName::Amount)->0.children[0].text, '.'),
            ),
        ),
        byte_length(field_text(posting, FieldName::Account)->0) + first_position(
            posting.child_in_field(FieldName::Amount)->0.children[0].text,
            '.',
        ) <= DECIMAL_COLUMN - 4,
    ensures
        point_position(posting) < posting_text(posting)->0.len(),
        posting_text(posting)->0[point_position(posting)] == '.',
        byte_length(posting_text(posting)->0.take(point_position(posting))) == DECIMAL_COLUMN - 1,
{
    let account = field_text(posting, FieldName::Account)->0;
    let amount = posting.child_in_field(FieldName::Amount)->0;
    let numeral = amount.children[0].text;
    let point = first_position(numeral, '.');
    crate::text::lemma_first_position_bounds(numeral, '.');
    reveal_strlit("  ");
    reveal_strlit(" ");
    let blanks = repeated(' ', padding(byte_length(account), point as nat));
    let shown = amount_text(amount, byte_length(account))->0;
    assert(shown == blanks + numeral + " "@ + amount.children[1].text);
    let line = posting_text(posting)->0;
    let head = "  "@ + account + " "@ + blanks;
    let at = point_position(posting);
    assert(at == head.len() + point);
    assert(line =~= head + numeral + (line.skip((head.len() + numeral.len()) as int)));
    assert(line[at] == numeral[point]);
    let whole = numeral.take(point);
    assert(line.take(at) =~= "  "@ + (account + (" "@ + (blanks + whole))));
    crate::text::lemma_bytes_of_two(blanks, whole);
    crate::text::lemma_bytes_of_two(" "@, blanks + whole);
    crate::text::lemma_bytes_of_two(account, " "@ + (blanks + whole));
    crate::text::lemma_bytes_of_two("  "@, account + (" "@ + (blanks + whole)));
    crate::text::lemma_bytes_of_ascii(blanks);
    crate::text::lemma_bytes_of_ascii(whole);
    crate::text::lemma_bytes_of_ascii("  "@);
    crate::text::lemma_bytes_of_ascii(" "@);
}

/// Between two directives that are formatted stand as many line breaks as
/// there are rows from the end of the first to the start of the second, and
/// one more: the blank lines between them are kept.
pub proof fn lemma_blank_lines_kept(first: SyntaxTree, second: SyntaxTree)
    requires
        is_formatted(first.kind),
        is_formatted(second.kind),
        directive_text(first) is Some,
        directive_text(second) is Some,
        second.start.row >= first.end.row,
    ensures
        formatted_from(seq![first, second], 0, None) == Ok::<Seq<char>, Error>(
            directive_text(first)->0 + repeated(
                '\n',
                (second.start.row - first.end.row + 1) as nat,
            ) + directive_text(second)->0,
        ),
{
    let nodes = seq![first, second];
    let rows = empty_rows(first, second);
    assert(formatted_from(nodes, 2, Some(0nat)) == Ok::<Seq<char>, Error>(Seq::empty()));
    assert(formatted_from(nodes, 1, Some(rows)) == Ok::<Seq<char>, Error>(
        separator(Some(rows)) + directive_text(second)->0 + Seq::<char>::empty(),
    ));
    assert(formatted_from(nodes, 0, None) =~= Ok::<Seq<char>, Error>(
        directive_text(first)->0 + repeated('\n', rows + 1) + directive_text(second)->0,
    )) by {
        let t1 = directive_text(first)->0;
        let t2 = directive_text(second)->0;
        assert(separator(None) + t1 + (separator(Some(rows)) + t2 + Seq::<char>::empty()) =~= t1
            + repeated('\n', rows + 1) + t2);
    }
}

/// Where a node of another kind stands between two directives that are
/// formatted, the line breaks between the two are one and the empty rows
/// before and after that node: its own rows are left out, so the blank lines
/// do not grow.
pub proof fn lemma_passed_over_rows_are_left_out(
    first: SyntaxTree,
    other: SyntaxTree,
    second: SyntaxTree,
)
    requires
        is_formatted(first.kind),
        !is_formatted(other.kind),
        is_formatted(second.kind),
        directive_text(first) is Some,
        directive_text(second) is Some,
    ensures
        formatted_from(seq![first, other, second], 0, None) == Ok::<Seq<char>, Error>(
            directive_text(first)->0 + repeated(
                '\n',
                empty_rows(first, other) + empty_rows(other, second) + 1,
            ) + directive_text(second)->0,
        ),
{
    let nodes = seq![first, other, second];
    let before = empty_rows(first, other);
    let after = empty_rows(other, second);
    let t1 = directive_text(first)->0;
    let t2 = directive_text(second)->0;
    assert(formatted_from(nodes, 3, Some(0nat)) == Ok::<Seq<char>, Error>(Seq::empty()));
    assert(formatted_from(nodes, 2, Some(before + after)) == Ok::<Seq<char>, Error>(
        separator(Some(before + after)) + t2 + Seq::<char>::empty(),
    ));
    assert(formatted_from(nodes, 1, Some(before)) == formatted_from(
        nodes,
        2,
        Some(before + after),
    ));
    assert(separator(None) + t1 + (separator(Some(before + after)) + t2 + Seq::<char>::empty())
        =~= t1 + repeated('\n', before + after + 1) + t2);
}

/// A node of another kind after the last directive changes nothing.
pub proof fn lemma_trailing_node_is_left_out(
    nodes: Seq<SyntaxTree>,
    node: SyntaxTree,
    from: nat,
    gap: Option<nat>,
)
    requires
        !is_formatted(node.kind),
        from <= nodes.len(),
    ensures
        formatted_from(nodes.push(node), from, gap) == formatted_from(nodes, from, gap),
    decreases nodes.len() - from,
{
    let longer = nodes.push(node);
    if from < nodes.len() {
        assert(longer[from as int] == nodes[from as int]);
        let rows = empty_rows_after(nodes, from as int);
        let more = empty_rows_after(longer, from as int);
        if from + 1 < nodes.len() {
            assert(longer[from as int + 1] == nodes[from as int + 1]);
            assert(rows == more);
            lemma_trailing_node_is_left_out(nodes, node, from + 1, Some(rows));
            lemma_trailing_node_is_left_out(nodes, node, from + 1, widened(gap, rows));
        } else {
            assert(formatted_from(nodes, from + 1, Some(rows)) == Ok::<Seq<char>, Error>(
                Seq::empty(),
            ));
            assert(formatted_from(longer, from + 2, widened(Some(more), 0)) == Ok::<
                Seq<char>,
                Error,
            >(Seq::empty()));
            assert(formatted_from(longer, from + 1, Some(more)) == Ok::<Seq<char>, Error>(
                Seq::empty(),
            ));
            assert(formatted_from(longer, from + 2, widened(widened(gap, more), 0)) == Ok::<
                Seq<char>,
                Error,
            >(Seq::empty()));
            assert(formatted_from(longer, from + 1, widened(gap, more)) == Ok::<Seq<char>, Error>(
                Seq::empty(),
            ));
            assert(formatted_from(nodes, from + 1, widened(gap, rows)) == Ok::<Seq<char>, Error>(
                Seq::empty(),
            ));
        }
    } else {
        assert(formatted_from(longer, from + 1, widened(gap, 0)) == Ok::<Seq<char>, Error>(
            Seq::empty(),
        ));
    }
}

/// A text that ends with a directive ends with the text of that directive:
/// no line break follows it.
pub proof fn lemma_text_ends_with_last_directive(
    nodes: Seq<SyntaxTree>,
    from: nat,
    gap: Option<nat>,
)
    requires
        from < nodes.len(),
        is_formatted(nodes.last().kind),
        formatted_from(nodes, from, gap) is Ok,
    ensures
        directive_text(nodes.last()) is Some,
        directive_text(nodes.last())->0.is_suffix_of(formatted_from(nodes, from, gap)->Ok_0),
    decreases nodes.len() - from,
{
    let node = nodes[from as int];
    let rows = empty_rows_after(nodes, from as int);
    if from + 1 < nodes.len() {
        if is_formatted(node.kind) {
            lemma_text_ends_with_last_directive(nodes, from + 1, Some(rows));
            let text = directive_text(node)->0;
            let rest = formatted_from(nodes, from + 1, Some(rows))->Ok_0;
            let last = directive_text(nodes.last())->0;
            let whole = separator(gap) + text + rest;
            assert(whole.skip(whole.len() - last.len()) =~= rest.skip(rest.len() - last.len()));
        } else {
            lemma_text_ends_with_last_directive(nodes, from + 1, widened(gap, rows));
        }
    } else {
        let text = directive_text(node)->0;
        assert(formatted_from(nodes, from + 1, Some(rows)) == Ok::<Seq<char>, Error>(
            Seq::empty(),
        ));
        let whole = separator(gap) + text + Seq::<char>::empty();
        assert(whole.skip(whole.len() - text.len()) =~= text);
    }
}

/// The text of the first child of `node` that is held under `field`.
fn text_in_field(node: &SyntaxNode, field: FieldName) -> (r: Option<Vec<char>>)
    ensures
        match r {
            Some(text) => field_text(node@, field) == Some(text@),
            None => field_text(node@, field) is None,
        },
{
    match node.child_by_field(field) {
        Some(child) => {
            proof {
                child.lemma_view();
            }
            Some(chars_of(child.text.as_str()))
        },
        None => None,
    }
}

/// The characters, or none, as a mathematical value.
pub open spec fn shown(r: Option<Vec<char>>) -> Option<Seq<char>> {
    match r {
        Some(text) => Some(text@),
        None => None,
    }
}

/// Formats an option directive.
fn format_option(node: &SyntaxNode) -> (r: Option<Vec<char>>)
    ensures
        shown(r) == option_text(node@),
{
    let key = text_in_field(node, FieldName::Key);
    let value = text_in_field(node, FieldName::Value);
    match (key, value) {
        (Some(key), Some(value)) => {
            let mut out: Vec<char> = Vec::new();
            append(&mut out, "option ");
            extend(&mut out, &key);
            append(&mut out, " ");
            extend(&mut out, &value);
            assert(out@ =~= "option "@ + key@ + " "@ + value@);
            Some(out)
        },
        _ => None,
    }
}

/// Formats a directive of a keyword and a name.
fn format_named(keyword: &str, node: &SyntaxNode) -> (r: Option<Vec<char>>)
    ensures
        shown(r) == named_text(keyword@, node@),
{
    proof {
        node.lemma_view();
    }
    if node.children.len() >= 2 {
        proof {
            node.children[1].lemma_view();
        }
        let mut out: Vec<char> = Vec::new();
        append(&mut out, keyword);
        append(&mut out, " ");
        append(&mut out, node.children[1].text.as_str());
        assert(out@ =~= keyword@ + " "@ + node.children@[1].text@);
        Some(out)
    } else {
        None
    }
}

/// Formats an open directive.
fn format_open(node: &SyntaxNode) -> (r: Option<Vec<char>>)
    ensures
        shown(r) == open_text(node@),
{
    let date = text_in_field(node, FieldName::Date);
    let account = text_in_field(node, FieldName::Account);
    match (date, account) {
        (Some(date), Some(account)) => {
            let mut out: Vec<char> = Vec::new();
            extend(&mut out, &date);
            append(&mut out, " open ");
            extend(&mut out, &account);
            assert(out@ =~= date@ + " open "@ + account@);
            Some(out)
        },
        _ => None,
    }
}

/// Whether a node of this kind is a numeral.
fn numeral_kind(kind: NodeKind) -> (r: bool)
    ensures
        r == is_numeral(kind),
{
    kind == NodeKind::Number || kind == NodeKind::UnaryNumber || kind == NodeKind::BinaryNumber
}

/// Formats an amount after an account name of `account_len` bytes.
fn format_amount(amount: &SyntaxNode, account_len: usize) -> (r: Option<Vec<char>>)
    ensures
        shown(r) == amount_text(amount@, account_len as nat),
{
    proof {
        amount.lemma_view();
    }
    if amount.children.len() != 2 {
        return None;
    }
    proof {
        amount.children[0].lemma_view();
        amount.children[1].lemma_view();
    }
    if !numeral_kind(amount.children[0].kind) || amount.children[1].kind != NodeKind::Currency {
        return None;
    }
    let numeral = chars_of(amount.children[0].text.as_str());
    let point = find(&numeral, '.');
    if point >= numeral.len() {
        return None;
    }
    let room: usize = if account_len <= DECIMAL_COLUMN - 4 {
        DECIMAL_COLUMN - 4 - account_len
    } else {
        0
    };
    let blanks: usize = if point <= room {
        room - point
    } else {
        0
    };
    let mut out: Vec<char> = Vec::new();
    pad(&mut out, ' ', blanks);
    extend(&mut out, &numeral);
    append(&mut out, " ");
    append(&mut out, amount.children[1].text.as_str());
    assert(out@ =~= repeated(' ', padding(account_len as nat, point as nat)) + numeral@ + " "@
        + amount.children@[1].text@);
    Some(out)
}

/// Formats a posting.
fn format_posting(posting: &SyntaxNode) -> (r: Option<Vec<char>>)
    ensures
        shown(r) == posting_text(posting@),
{
    let named = match posting.child_by_field(FieldName::Account) {
        Some(named) => named,
        None => {
            return None;
        },
    };
    proof {
        named.lemma_view();
    }
    let account = chars_of(named.text.as_str());
    let account_len = byte_len(named.text.as_str());
    let mut out: Vec<char> = Vec::new();
    append(&mut out, "  ");
    extend(&mut out, &account);
    match posting.child_by_field(FieldName::Amount) {
        None => {},
        Some(amount) => {
            match format_amount(amount, account_len) {
                None => {
                    return None;
                },
                Some(text) => {
                    append(&mut out, " ");
                    extend(&mut out, &text);
                    match text_in_field(posting, FieldName::CostSpec) {
                        Some(cost) => {
                            append(&mut out, " ");
                            extend(&mut out, &cost);
                            assert(out@ =~= "  "@ + account@ + (" "@ + text@ + (" "@ + cost@)));
                        },
                        None => {
                            assert(out@ =~= "  "@ + account@ + (" "@ + text@ + Seq::<char>::empty()));
                        },
                    }
                },
            }
        },
    }
    let ghost before = out@;
    match text_in_field(posting, FieldName::Comment) {
        Some(comment) => {
            append(&mut out, "  ");
            extend(&mut out, &comment);
            assert(out@ =~= before + ("  "@ + comment@));
        },
        None => {
            assert(out@ =~= before + Seq::<char>::empty());
        },
    }
    Some(out)
}

/// Formats the children of a posting list, line by line.
fn format_postings(list: &SyntaxNode) -> (r: Option<Vec<char>>)
    ensures
        match r {
            Some(text) => posting_lines(list@.children, list@.children.len()) is Some
                && text@ == join_with(
                posting_lines(list@.children, list@.children.len())->0,
                '\n',
            ),
            None => posting_lines(list@.children, list@.children.len()) is None,
        },
{
    proof {
        list.lemma_view();
    }
    let mut lines: Vec<Vec<char>> = Vec::new();
    let mut i: usize = 0;
    assert(rows(lines@) =~= Seq::<Seq<char>>::empty());
    while i < list.children.len()
        invariant
            i <= list.children.len(),
            list@.children.len() == list.children@.len(),
            forall|k: int|
                0 <= k < list.children@.len() ==> list@.children[k] == (
                #[trigger] list.children@[k])@,
            posting_lines(list@.children, i as nat) == Some(rows(lines@)),
        decreases list.children.len() - i,
    {
        let node = &list.children[i];
        let ghost before = rows(lines@);
        proof {
            node.lemma_view();
        }
        if node.kind == NodeKind::Comment {
            let mut line: Vec<char> = Vec::new();
            append(&mut line, "  ");
            append(&mut line, node.text.as_str());
            let ghost added = line@;
            lines.push(line);
            assert(rows(lines@) =~= before.push(added));
        } else if node.kind == NodeKind::Posting {
            match format_posting(node) {
                Some(line) => {
                    let ghost added = line@;
                    lines.push(line);
                    assert(rows(lines@) =~= before.push(added));
                },
                None => {
                    proof {
                        lemma_posting_lines_fail(
                            list@.children,
                            (i + 1) as nat,
                            list@.children.len(),
                        );
                    }
                    return None;
                },
            }
        }
        i += 1;
    }
    Some(join(&lines, '\n'))
}

/// Once a line fails, every longer list of lines fails too.
proof fn lemma_posting_lines_fail(nodes: Seq<SyntaxTree>, failed: nat, count: nat)
    requires
        failed <= count <= nodes.len(),
        posting_lines(nodes, failed) is None,
    ensures
        posting_lines(nodes, count) is None,
    decreases count,
{
    if failed < count {
        lemma_posting_lines_fail(nodes, failed, (count - 1) as nat);
    }
}

/// Formats the head line of a transaction.
fn format_head(node: &SyntaxNode) -> (r: Option<Vec<char>>)
    ensures
        shown(r) == transaction_head(node@),
{
    let date = text_in_field(node, FieldName::Date);
    let flag = text_in_field(node, FieldName::Txn);
    let strings = node.child_by_field(FieldName::TxnStrings);
    match (date, flag, strings) {
        (Some(date), Some(flag), Some(strings)) => {
            proof {
                strings.lemma_view();
            }
            if strings.children.len() < 1 || strings.children.len() > 2 {
                return None;
            }
            let mut texts: Vec<Vec<char>> = Vec::new();
            let mut i: usize = 0;
            assert(rows(texts@) =~= Seq::<Seq<char>>::empty());
            while i < strings.children.len()
                invariant
                    i <= strings.children.len(),
                    strings@.children.len() == strings.children@.len(),
                    forall|k: int|
                        0 <= k < strings.children@.len() ==> strings@.children[k] == (
                        #[trigger] strings.children@[k])@,
                    rows(texts@) == texts_among(strings@.children, i as nat),
                decreases strings.children.len() - i,
            {
                let ghost before = rows(texts@);
                proof {
                    strings.children[i as int].lemma_view();
                }
                let text = chars_of(strings.children[i].text.as_str());
                let ghost added = text@;
                texts.push(text);
                assert(rows(texts@) =~= before.push(added));
                i += 1;
            }
            let mut out: Vec<char> = Vec::new();
            extend(&mut out, &date);
            append(&mut out, " ");
            extend(&mut out, &flag);
            append(&mut out, " ");
            let joined = join(&texts, ' ');
            extend(&mut out, &joined);
            assert(out@ =~= date@ + " "@ + flag@ + " "@ + joined@);
            Some(out)
        },
        _ => None,
    }
}

/// Formats a transaction.
fn format_transaction(node: &SyntaxNode) -> (r: Option<Vec<char>>)
    ensures
        shown(r) == transaction_text(node@),
{
    let head = format_head(node);
    let list = node.child_by_field(FieldName::PostingList);
    match (head, list) {
        (Some(head), Some(list)) => match format_postings(list) {
            Some(lines) => {
                let mut out = head;
                let ghost first = out@;
                out.push('\n');
                extend(&mut out, &lines);
                assert(out@ =~= first.push('\n') + lines@);
                Some(out)
            },
            None => None,
        },
        _ => None,
    }
}

/// Formats a directive of a kind that is formatted.
fn format_directive(node: &SyntaxNode) -> (r: Option<Vec<char>>)
    ensures
        shown(r) == directive_text(node@),
{
    proof {
        node.lemma_view();
    }
    if node.kind == NodeKind::OptionDirective {
        format_option(node)
    } else if node.kind == NodeKind::Plugin {
        format_named("plugin", node)
    } else if node.kind == NodeKind::Include {
        format_named("include", node)
    } else if node.kind == NodeKind::Open {
        format_open(node)
    } else {
        format_transaction(node)
    }
}

/// Whether a node of this kind is formatted.
fn formats(kind: NodeKind) -> (r: bool)
    ensures
        r == is_formatted(kind),
{
    kind == NodeKind::OptionDirective || kind == NodeKind::Plugin || kind == NodeKind::Include
        || kind == NodeKind::Open || kind == NodeKind::Transaction
}

/// A text or an error, as a mathematical value.
pub open spec fn text_outcome(r: Result<String, Error>) -> Result<Seq<char>, Error> {
    match r {
        Ok(text) => Ok(text@),
        Err(e) => Err(e),
    }
}

/// A canonical text, nothing or an error, as a mathematical value.
pub open spec fn canonical_outcome(r: Result<Option<String>, Error>) -> Result<
    Option<Seq<char>>,
    Error,
> {
    match r {
        Ok(Some(text)) => Ok(Some(text@)),
        Ok(None) => Ok(None),
        Err(e) => Err(e),
    }
}

/// `rest` after `out`, or the error of `rest`.
pub open spec fn continued(out: Seq<char>, rest: Result<Seq<char>, Error>) -> Result<
    Seq<char>,
    Error,
> {
    match rest {
        Ok(rest) => Ok(out + rest),
        Err(e) => Err(e),
    }
}

/// The empty rows between the node at `at` and the node after it.
fn rows_after(nodes: &Vec<&SyntaxNode>, at: usize) -> (rows: usize)
    requires
        at < nodes@.len(),
    ensures
        rows == empty_rows_after(trees(nodes@), at as int),
{
    if at >= nodes.len() - 1 {
        return 0;
    }
    let node = nodes[at];
    let next = nodes[at + 1];
    proof {
        assert(trees(nodes@)[at as int] == node@);
        assert(trees(nodes@)[at as int + 1] == next@);
        node.lemma_view();
        next.lemma_view();
    }
    if formats(node.kind) || node.end.column == 0 {
        if next.start.row >= node.end.row {
            next.start.row - node.end.row
        } else {
            0
        }
    } else if next.start.row > node.end.row {
        next.start.row - node.end.row - 1
    } else {
        0
    }
}

/// The empty rows since the last directive that was written, if one was.
pub open spec fn counted(written: bool, breaks: Seq<char>) -> Option<nat> {
    if written {
        Some(breaks.len())
    } else {
        None
    }
}

/// Formats a list of nodes.
fn format_all(nodes: &Vec<&SyntaxNode>) -> (r: Result<Vec<char>, Error>)
    ensures
        match r {
            Ok(text) => formatted_from(trees(nodes@), 0, None) == Ok::<Seq<char>, Error>(text@),
            Err(e) => formatted_from(trees(nodes@), 0, None) == Err::<Seq<char>, Error>(e),
        },
{
    let ghost items = trees(nodes@);
    let mut out: Vec<char> = Vec::new();
    let mut breaks: Vec<char> = Vec::new();
    let mut written = false;
    let mut i: usize = 0;
    assert(continued(out@, formatted_from(items, 0, None)) == formatted_from(items, 0, None)) by {
        match formatted_from(items, 0, None) {
            Ok(rest) => {
                assert(out@ + rest =~= rest);
            },
            Err(_) => {},
        }
    }
    assert(breaks@ =~= repeated('\n', 0));
    while i < nodes.len()
        invariant
            i <= nodes.len(),
            items == trees(nodes@),
            breaks@ == repeated('\n', breaks@.len()),
            formatted_from(items, 0, None) == continued(
                out@,
                formatted_from(items, i as nat, counted(written, breaks@)),
            ),
        decreases nodes.len() - i,
    {
        let node = nodes[i];
        let rows = rows_after(nodes, i);
        let ghost gap = counted(written, breaks@);
        proof {
            assert(items[i as int] == node@);
            node.lemma_view();
        }
        if formats(node.kind) {
            let text = match format_directive(node) {
                Some(text) => text,
                None => {
                    return Err(Error::UnexpectedFormat);
                },
            };
            let ghost before = out@;
            if written {
                out.push('\n');
                extend(&mut out, &breaks);
                assert(out@ =~= before + separator(gap)) by {
                    assert(seq!['\n'] + repeated('\n', breaks@.len()) =~= repeated(
                        '\n',
                        breaks@.len() + 1,
                    ));
                    assert(out@ =~= before + (seq!['\n'] + breaks@));
                }
            } else {
                assert(out@ =~= before + separator(gap));
            }
            extend(&mut out, &text);
            breaks = Vec::new();
            pad(&mut breaks, '\n', rows);
            written = true;
            proof {
                assert(breaks@ =~= repeated('\n', rows as nat));
                match formatted_from(items, (i + 1) as nat, Some(rows as nat)) {
                    Ok(rest) => {
                        assert(before + (separator(gap) + text@ + rest) =~= out@ + rest);
                    },
                    Err(_) => {},
                }
            }
        } else if written {
            let ghost earlier = breaks@.len();
            pad(&mut breaks, '\n', rows);
            assert(breaks@ =~= repeated('\n', earlier + rows as nat));
        }
        i += 1;
    }
    assert(out@ + Seq::<char>::empty() =~= out@);
    Ok(out)
}

/// Formats a syntax tree into its canonical text.
pub fn reformat_tree(root: &SyntaxNode) -> (r: Result<String, Error>)
    ensures
        text_outcome(r) == formatted(root@),
{
    proof {
        root.lemma_view();
    }
    let nodes = if root.kind == NodeKind::File {
        root.child_nodes()
    } else {
        let mut nodes: Vec<&SyntaxNode> = Vec::new();
        nodes.push(root);
        assert(trees(nodes@) =~= seq![root@]);
        nodes
    };
    match format_all(&nodes) {
        Ok(text) => Ok(string_of(&text)),
        Err(e) => Err(e),
    }
}

/// Formats a ledger text into its canonical text.
pub fn reformat(text: &str) -> (r: Result<Option<String>, Error>)
    ensures
        canonical_outcome(r) == reformatted(text@),
        r is Ok ==> r->Ok_0 is Some,
{
    let root = match parse_document(text) {
        Ok(root) => root,
        Err(e) => {
            return Err(e);
        },
    };
    match reformat_tree(&root) {
        Ok(canonical) => Ok(Some(canonical)),
        Err(e) => Err(e),
    }
}

} // verus!
