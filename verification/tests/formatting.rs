use beancount_language_server::grammar::parse_document;
use beancount_language_server::reformat::{reformat_tree, DECIMAL_COLUMN};
use beancount_language_server::syntax::{FieldName, NodeKind, Position, SyntaxNode};
use beancount_language_server::{reformat, Error};

fn canonical(text: &str) -> String {
    reformat(text).unwrap().unwrap()
}

fn node(kind: NodeKind, field: FieldName, text: &str, rows: (usize, usize), children: Vec<SyntaxNode>) -> SyntaxNode {
    SyntaxNode {
        kind,
        field,
        text: text.to_string(),
        start: Position { row: rows.0, column: 0 },
        end: Position { row: rows.1, column: 0 },
        children,
    }
}

fn leaf(kind: NodeKind, field: FieldName, text: &str) -> SyntaxNode {
    node(kind, field, text, (0, 0), vec![])
}

fn plugin(name: &str, rows: (usize, usize)) -> SyntaxNode {
    node(
        NodeKind::Plugin,
        FieldName::Unnamed,
        "",
        rows,
        vec![leaf(NodeKind::Plugin, FieldName::Unnamed, "plugin"), leaf(NodeKind::Text, FieldName::Unnamed, name)],
    )
}

fn posting(account: &str, amount: Option<(&str, &str)>) -> SyntaxNode {
    let mut children = vec![leaf(NodeKind::Account, FieldName::Account, account)];
    if let Some((numeral, currency)) = amount {
        children.push(node(
            NodeKind::Amount,
            FieldName::Amount,
            "",
            (0, 0),
            vec![
                leaf(NodeKind::Number, FieldName::Unnamed, numeral),
                leaf(NodeKind::Currency, FieldName::Unnamed, currency),
            ],
        ));
    }
    node(NodeKind::Posting, FieldName::Unnamed, "", (0, 0), children)
}

fn transaction(lines: Vec<SyntaxNode>) -> SyntaxNode {
    node(
        NodeKind::Transaction,
        FieldName::Unnamed,
        "",
        (0, 0),
        vec![
            leaf(NodeKind::Other, FieldName::Date, "2021-07-10"),
            leaf(NodeKind::Other, FieldName::Txn, "*"),
            node(
                NodeKind::Other,
                FieldName::TxnStrings,
                "",
                (0, 0),
                vec![leaf(NodeKind::Text, FieldName::Unnamed, "\"p\""), leaf(NodeKind::Text, FieldName::Unnamed, "\"n\"")],
            ),
            node(NodeKind::PostingList, FieldName::PostingList, "", (0, 0), lines),
        ],
    )
}

#[test]
fn directives_are_written_with_single_blanks() {
    assert_eq!(canonical("option   \"title\"    \"My ledger\"\n"), "option \"title\" \"My ledger\"");
    assert_eq!(canonical("  plugin   \"a.b\"\n"), "plugin \"a.b\"");
    assert_eq!(canonical("include     \"x.beancount\"\n"), "include \"x.beancount\"");
    assert_eq!(canonical("2021-01-01   open    Assets:Cash\n"), "2021-01-01 open Assets:Cash");
    assert_eq!(canonical("2021-01-01 open Assets:Cash   EUR,USD\n"), "2021-01-01 open Assets:Cash");
    assert_eq!(canonical(""), "");
}

#[test]
fn the_decimal_point_stands_at_its_column_whatever_the_account() {
    for account in ["Assets:A", "Expenses:Cash", "Liabilities:A-Very:Long:Account:Name"] {
        for numeral in ["1.5", "100.00", "-100.00", "1234567.891"] {
            let text = format!("2021-07-10 * \"a\" \"b\"\n  {}  {} EUR\n", account, numeral);
            let out = canonical(&text);
            let line = out.lines().nth(1).unwrap();
            assert_eq!(line.find('.'), Some(DECIMAL_COLUMN - 1));
            assert!(line.starts_with(&format!("  {} ", account)));
            assert!(line.ends_with(&format!("{} EUR", numeral)));
        }
    }
}

#[test]
fn an_account_that_is_too_long_pushes_the_amount_to_the_right() {
    let account = "Expenses:An:Account:Name:That:Is:Much:Longer:Than:The:Column";
    let text = format!("2021-07-10 * \"a\" \"b\"\n  {}  100.00 EUR\n", account);
    assert_eq!(
        canonical(&text),
        format!("2021-07-10 * \"a\" \"b\"\n  {} 100.00 EUR", account)
    );
    let text = "2021-07-10 * \"a\" \"b\"\n  Assets:Account:With:Forty:Three:Characters  12345.00 EUR\n";
    assert_eq!(
        canonical(text),
        "2021-07-10 * \"a\" \"b\"\n  Assets:Account:With:Forty:Three:Characters 12345.00 EUR"
    );
}

#[test]
fn blank_lines_between_directives_are_kept() {
    assert_eq!(canonical("plugin \"a\"\nplugin \"b\"\n"), "plugin \"a\"\nplugin \"b\"");
    assert_eq!(canonical("plugin \"a\"\n\nplugin \"b\"\n"), "plugin \"a\"\n\nplugin \"b\"");
    assert_eq!(canonical("plugin \"a\"\n\n\n\nplugin \"b\"\n\n\n"), "plugin \"a\"\n\n\n\nplugin \"b\"");
    assert_eq!(
        canonical("2021-07-10 * \"a\" \"b\"\n  Assets:Cash 1.00 EUR\n\n\n2021-01-01 open Assets:Cash\n"),
        "2021-07-10 * \"a\" \"b\"\n  Assets:Cash                                   1.00 EUR\n\n\n2021-01-01 open Assets:Cash"
    );
}

#[test]
fn comments_costs_and_postings_without_amounts_are_kept() {
    let text = "2021-07-10 * \"foo\" \"bar\"\n  ; a comment\n  Expenses:Cash  100.00 EUR {1.2 USD} ; trailing\n   ; another\n  Assets:Checking ; why\n  Assets:Cash\n";
    assert_eq!(
        canonical(text),
        "2021-07-10 * \"foo\" \"bar\"\n  ; a comment\n  Expenses:Cash                               100.00 EUR {1.2 USD}  ; trailing\n  ; another\n  Assets:Checking  ; why\n  Assets:Cash"
    );
}

#[test]
fn a_transaction_with_one_string_has_it_in_its_head() {
    assert_eq!(
        canonical("2021-07-10 txn \"only\"\n  Assets:Cash 1.00 EUR\n"),
        "2021-07-10 txn \"only\"\n  Assets:Cash                                   1.00 EUR"
    );
}

#[test]
fn a_directive_that_is_not_formatted_is_passed_over() {
    assert_eq!(
        canonical("plugin \"a\"\n\n2015-01-01 commodity USD\nplugin \"b\"\n"),
        "plugin \"a\"\n\nplugin \"b\""
    );
    assert_eq!(
        canonical("plugin \"a\"\n2015-01-01 commodity USD\n  name: \"x\"\nplugin \"b\"\n"),
        "plugin \"a\"\nplugin \"b\""
    );
    assert_eq!(
        canonical("plugin \"a\"\n\n2015-01-01 commodity USD\n\n\n2015-01-01 commodity EUR\n\nplugin \"b\"\n"),
        "plugin \"a\"\n\n\n\n\nplugin \"b\""
    );
    assert_eq!(canonical("plugin \"a\"\n\n2015-01-01 commodity USD\n"), "plugin \"a\"");
    assert_eq!(canonical("2015-01-01 commodity USD\nplugin \"b\"\n"), "plugin \"b\"");
    assert_eq!(canonical("2015-01-01 commodity USD\n"), "");
}

#[test]
fn a_comment_line_between_directives_leaves_no_blank_line() {
    assert_eq!(
        canonical("; a comment\nplugin \"a\"\n; between\nplugin \"b\"\n* heading\n"),
        "plugin \"a\"\nplugin \"b\""
    );
    assert_eq!(
        canonical("plugin \"a\"\n\n; between\n\n\nplugin \"b\"\n"),
        "plugin \"a\"\n\n\n\nplugin \"b\""
    );
}

#[test]
fn the_rows_of_a_node_that_is_passed_over_are_left_out() {
    let other = |rows: (usize, usize), column: usize| SyntaxNode {
        kind: NodeKind::Commodity,
        field: FieldName::Unnamed,
        text: String::new(),
        start: Position { row: rows.0, column: 0 },
        end: Position { row: rows.1, column },
        children: vec![],
    };
    let file = |children: Vec<SyntaxNode>| node(NodeKind::File, FieldName::Unnamed, "", (0, 0), children);
    let text = |children: Vec<SyntaxNode>| reformat_tree(&file(children)).unwrap();
    assert_eq!(
        text(vec![plugin("\"a\"", (0, 1)), other((1, 4), 0), plugin("\"b\"", (4, 5))]),
        "plugin \"a\"\nplugin \"b\""
    );
    assert_eq!(
        text(vec![plugin("\"a\"", (0, 1)), other((2, 4), 0), plugin("\"b\"", (7, 8))]),
        "plugin \"a\"\n\n\n\n\nplugin \"b\""
    );
    assert_eq!(
        text(vec![plugin("\"a\"", (0, 1)), other((1, 1), 9), plugin("\"b\"", (2, 3))]),
        "plugin \"a\"\nplugin \"b\""
    );
    assert_eq!(
        text(vec![plugin("\"a\"", (0, 1)), other((1, 1), 9), other((2, 2), 3), plugin("\"b\"", (4, 5))]),
        "plugin \"a\"\n\nplugin \"b\""
    );
    assert_eq!(
        text(vec![other((0, 1), 0), plugin("\"a\"", (3, 4)), other((6, 7), 0)]),
        "plugin \"a\""
    );
}

#[test]
fn a_transaction_without_postings_cannot_be_formatted() {
    assert_eq!(reformat("2021-07-10 * \"a\" \"b\"\n"), Err(Error::UnexpectedFormat));
    assert_eq!(reformat("plugin \"a\"\n2021-07-10 * \"a\" \"b\"\n"), Err(Error::UnexpectedFormat));
}

#[test]
fn a_transaction_without_strings_cannot_be_formatted() {
    assert_eq!(reformat("2021-07-10 *\n  Assets:Cash 1.00 EUR\n"), Err(Error::UnexpectedFormat));
}

#[test]
fn a_numeral_without_a_decimal_point_cannot_be_formatted() {
    assert_eq!(
        reformat("2021-07-10 * \"a\" \"b\"\n  Assets:Cash 100 EUR\n"),
        Err(Error::UnexpectedFormat)
    );
}

#[test]
fn a_tree_is_formatted_from_its_kinds_fields_and_rows() {
    let root = node(
        NodeKind::File,
        FieldName::Unnamed,
        "",
        (0, 9),
        vec![
            plugin("\"a\"", (0, 1)),
            plugin("\"b\"", (3, 4)),
            plugin("\"c\"", (4, 5)),
            plugin("\"d\"", (2, 3)),
            transaction(vec![
                leaf(NodeKind::Comment, FieldName::Unnamed, "; c"),
                leaf(NodeKind::Other, FieldName::Unnamed, "key: 1"),
                posting("Assets:Cash", Some(("-1.00", "EUR"))),
                posting("Assets:Bank", None),
            ]),
        ],
    );
    assert_eq!(
        reformat_tree(&root),
        Ok("plugin \"a\"\n\n\nplugin \"b\"\nplugin \"c\"\nplugin \"d\"\n2021-07-10 * \"p\" \"n\"\n  ; c\n  Assets:Cash                                  -1.00 EUR\n  Assets:Bank".to_string())
    );
}

#[test]
fn a_tree_that_is_one_directive_is_formatted_as_that_directive() {
    assert_eq!(reformat_tree(&plugin("\"a\"", (0, 1))), Ok("plugin \"a\"".to_string()));
    assert_eq!(reformat_tree(&leaf(NodeKind::Commodity, FieldName::Unnamed, "x")), Ok(String::new()));
    assert_eq!(reformat_tree(&leaf(NodeKind::Plugin, FieldName::Unnamed, "plugin")), Err(Error::UnexpectedFormat));
}

fn posting_of(amount: Vec<SyntaxNode>) -> SyntaxNode {
    node(
        NodeKind::Posting,
        FieldName::Unnamed,
        "",
        (0, 0),
        vec![
            leaf(NodeKind::Account, FieldName::Account, "Assets:Cash"),
            node(NodeKind::Amount, FieldName::Amount, "", (0, 0), amount),
        ],
    )
}

#[test]
fn a_malformed_amount_cannot_be_formatted() {
    let number = || leaf(NodeKind::Number, FieldName::Unnamed, "1.00");
    let currency = || leaf(NodeKind::Currency, FieldName::Unnamed, "EUR");
    let refused = |amount: Vec<SyntaxNode>| {
        assert_eq!(
            reformat_tree(&transaction(vec![posting_of(amount)])),
            Err(Error::UnexpectedFormat)
        );
    };
    refused(vec![number(), leaf(NodeKind::Other, FieldName::Unnamed, "~"), currency()]);
    refused(vec![currency(), number()]);
    refused(vec![number()]);
    refused(vec![]);
    refused(vec![number(), number()]);
    refused(vec![leaf(NodeKind::Comment, FieldName::Unnamed, "; 1.00"), currency()]);
    refused(vec![leaf(NodeKind::Currency, FieldName::Unnamed, "A.B"), currency()]);
    refused(vec![leaf(NodeKind::Other, FieldName::Unnamed, "1.00"), currency()]);
    refused(vec![leaf(NodeKind::Number, FieldName::Unnamed, "100"), currency()]);
    let nameless = node(NodeKind::Posting, FieldName::Unnamed, "", (0, 0), vec![]);
    assert_eq!(reformat_tree(&transaction(vec![nameless])), Err(Error::UnexpectedFormat));
}

#[test]
fn an_amount_is_a_number_or_an_expression_of_numbers() {
    let currency = || leaf(NodeKind::Currency, FieldName::Unnamed, "EUR");
    for kind in [NodeKind::Number, NodeKind::UnaryNumber, NodeKind::BinaryNumber] {
        let amount = vec![leaf(kind, FieldName::Unnamed, "-1.00"), currency()];
        assert_eq!(
            reformat_tree(&transaction(vec![posting_of(amount)])),
            Ok("2021-07-10 * \"p\" \"n\"\n  Assets:Cash                                  -1.00 EUR".to_string())
        );
    }
    assert_eq!(
        canonical("2021-07-10 * \"a\" \"b\"\n  Assets:Cash 1 + 2.50 EUR\n  Assets:Bank -(3.5) EUR\n"),
        "2021-07-10 * \"a\" \"b\"\n  Assets:Cash                               1 + 2.50 EUR\n  Assets:Bank                                 -(3.5) EUR"
    );
    let out = canonical("2021-07-10 * \"a\" \"b\"\n  Assets:Cash 1 + 2.50 EUR\n  Assets:Bank -(3.5) EUR\n");
    for line in out.lines().skip(1) {
        assert_eq!(line.find('.'), Some(DECIMAL_COLUMN - 1));
    }
}

#[test]
fn the_room_of_an_account_is_counted_in_bytes() {
    let out = canonical("2021-07-10 * \"a\" \"b\"\n  Assets:Bär  100.00 EUR\n  Assets:Bar  100.00 EUR\n");
    let lines: Vec<&str> = out.lines().collect();
    assert_eq!(lines[1], "  Assets:Bär                                 100.00 EUR");
    assert_eq!(lines[2], "  Assets:Bar                                  100.00 EUR");
    assert_eq!(lines[1].find('.'), Some(DECIMAL_COLUMN - 1));
    assert_eq!(lines[2].find('.'), Some(DECIMAL_COLUMN - 1));
    assert_eq!(lines[1].as_bytes()[DECIMAL_COLUMN - 1], b'.');
    assert_eq!(lines[1].chars().position(|c| c == '.'), Some(DECIMAL_COLUMN - 2));
}

#[test]
fn formatting_a_canonical_text_changes_nothing() {
    let texts = [
        "option \"operating_currency\" \"EUR\"\n\n  plugin \"beancount.plugins.implicit_prices\"\nplugin    \"beancount.plugins.check_commodity\"\n\ninclude \"commodities.beancount\"   ",
        "2021-07-10  ! \"foo\"     \"bar\"\n Expenses:Cash             100.00 EUR\n   Assets:Checking    -100.00 EUR\n        ",
        "2021-01-01 open Assets:Cash\n\n\n2021-07-10 * \"foo\" \"bar\"\n  ; a comment\n  Expenses:Cash  100.00 EUR {1.2 USD} ; trailing\n  Assets:Checking\n\nplugin \"x\"\n",
        "",
        "plugin \"a\"\n\n2015-01-01 commodity USD\nplugin \"b\"\n",
        "plugin \"a\"\n\n2015-01-01 commodity USD\n",
        "plugin \"a\"\n\n\n\nplugin \"b\"\n\n\n",
        "; a comment\nplugin \"a\"\n; between\nplugin \"b\"\n* heading\n\n",
        "plugin \"a\"\n\n; between\n\n\nplugin \"b\"\n2021-07-10 * \"a\" \"b\"\n  Assets:Bär  1 + 2.50 EUR\n",
        "2015-01-01 commodity USD\n  name: \"x\"\n\n2021-07-10 * \"a\" \"b\" #tag\n  Assets:Cash 1.00 EUR @ 2.00 USD\n  note: \"n\"\n  Assets:Bank\n   \n2021-07-11 balance Assets:Cash 1.00 EUR\n2021-07-12 txn \"only\"\n  Assets:Cash  -1.50 EUR\n\n\n2021-07-13 close Assets:Cash\n",
        "2021-07-10 \"foo\" \"bar\"\n  Expenses:Cash       100.00 EUR\n2021-07-11 * \"x\" \"y\"\n  Assets:A 1.0 EUR\n",
        "plugin \"a\" \"config\"\n2021-01-01 open Assets:Cash EUR,USD \"STRICT\"\n  key: 1\noption \"a\" \"b\"",
        "\n\n   \nplugin \"a\"\n   \n\t\nplugin \"b\"",
    ];
    for text in texts {
        let once = canonical(text);
        assert_eq!(canonical(&once), once);
    }
}

#[test]
fn a_canonical_text_ends_with_its_last_directive() {
    for text in ["plugin \"a\"\n\n\n", "plugin \"a\"\n\n2015-01-01 commodity USD\n\n", "plugin \"a\"\nplugin \"b\"\n; end\n"] {
        assert!(!canonical(text).ends_with('\n'));
    }
}

#[test]
fn the_tree_of_a_canonical_text_is_a_file() {
    let once = canonical("plugin   \"a\"\n");
    assert_eq!(parse_document(&once).unwrap().kind, NodeKind::File);
}
