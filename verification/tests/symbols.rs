use beancount_language_server::collections::{LocationMap, SourceLocation, TextSet};
use beancount_language_server::grammar::{parse_document, span_text, MAX_DEPTH};
use beancount_language_server::index::{find_file, included_files, index_document, SourceFile};
use beancount_language_server::syntax::{
    field_from_name, node_kind_from_name, FieldName, NodeKind, Position, SyntaxNode,
};
use beancount_language_server::{Data, Error};

fn file(path: &str, text: &str) -> SourceFile {
    SourceFile::read(path.to_string(), text.to_string())
}

fn node(kind: NodeKind, field: FieldName, text: &str, children: Vec<SyntaxNode>) -> SyntaxNode {
    SyntaxNode {
        kind,
        field,
        text: text.to_string(),
        start: Position { row: 0, column: 0 },
        end: Position { row: 0, column: 0 },
        children,
    }
}

fn names(set: &TextSet) -> Vec<String> {
    let mut names = set.items().clone();
    names.sort();
    names
}

#[test]
fn accounts_and_currencies_of_two_postings() {
    let text = "2021-07-10 * \"foo\" \"bar\"\n  Expenses:Cash 100.00 EUR\n  Assets:Checking -100.00 EUR\n";
    let data = Data::new("/a", &vec![file("/a", text)]).unwrap();
    assert_eq!(names(&data.accounts), vec!["Assets:Checking", "Expenses:Cash"]);
    assert_eq!(names(&data.currencies), vec!["EUR"]);
    assert_eq!(names(&data.payees), vec!["foo"]);
    assert_eq!(data.text, text);
    assert!(data.accounts.contains("Expenses:Cash"));
    assert!(!data.accounts.contains("Expenses"));
}

#[test]
fn commodities_are_located_at_their_directives() {
    let text = "2015-01-01 commodity USD\n  name: \"US Dollar\"\n\n2015-01-01 commodity EUR\n";
    let data = Data::new("/a", &vec![file("/a", text)]).unwrap();
    let usd = data.commodities.get("USD").unwrap();
    assert_eq!(usd.start, Position { row: 0, column: 0 });
    assert_eq!(usd.uri, "/a");
    let eur = data.commodities.get("EUR").unwrap();
    assert_eq!(eur.start, Position { row: 3, column: 0 });
    assert_eq!(eur.end, Position { row: 4, column: 0 });
    assert!(data.commodities.get("GBP").is_none());
    assert_eq!(data.commodities.keys(), &vec!["USD".to_string(), "EUR".to_string()]);
}

#[test]
fn a_later_definition_of_a_commodity_replaces_an_earlier_one() {
    let text = "2015-01-01 commodity USD\n2016-01-01 commodity USD\n";
    let data = Data::new("/a", &vec![file("/a", text)]).unwrap();
    assert_eq!(data.commodities.len(), 1);
    assert_eq!(data.commodities.get("USD").unwrap().start.row, 1);
}

#[test]
fn the_definition_of_an_included_ledger_points_at_that_ledger() {
    let files = vec![
        file("/l/main.beancount", "include \"c.beancount\"\n2021-07-10 * \"a\" \"b\"\n  Assets:Cash 1.00 USD\n"),
        file("/l/c.beancount", "2015-01-01 commodity USD\n"),
    ];
    let data = Data::new("/l/main.beancount", &files).unwrap();
    assert_eq!(data.commodities.get("USD").unwrap().uri, "/l/c.beancount");
}

#[test]
fn the_own_definition_wins_over_an_included_one() {
    let files = vec![
        file("/l/main.beancount", "include \"c.beancount\"\n\n\n2015-01-01 commodity USD\n"),
        file("/l/c.beancount", "2015-01-01 commodity USD\n2015-01-01 commodity EUR\n"),
    ];
    let data = Data::new("/l/main.beancount", &files).unwrap();
    let usd = data.commodities.get("USD").unwrap();
    assert_eq!(usd.uri, "/l/main.beancount");
    assert_eq!(usd.start.row, 3);
    assert_eq!(data.commodities.get("EUR").unwrap().uri, "/l/c.beancount");
}

#[test]
fn the_later_of_two_included_ledgers_wins() {
    let files = vec![
        file("/l/main.beancount", "include \"a.beancount\"\ninclude \"b.beancount\"\n"),
        file("/l/a.beancount", "2015-01-01 commodity USD\n"),
        file("/l/b.beancount", "2015-01-01 commodity USD\n"),
    ];
    let data = Data::new("/l/main.beancount", &files).unwrap();
    assert_eq!(data.commodities.get("USD").unwrap().uri, "/l/b.beancount");
}

#[test]
fn included_ledgers_are_indexed_through_each_other() {
    let files = vec![
        file("/l/main.beancount", "include \"sub/a.beancount\"\n"),
        file("/l/sub/a.beancount", "include \"b.beancount\"\n2021-07-10 * \"pa\" \"x\"\n  Assets:A 1.00 EUR\n"),
        file("/l/sub/b.beancount", "include \"/abs/c.beancount\"\n2021-07-10 * \"pb\" \"x\"\n  Assets:B 1.00 USD\n"),
        file("/abs/c.beancount", "2021-07-10 * \"pc\" \"x\"\n  Assets:C 1.00 CHF\n"),
    ];
    let data = Data::new("/l/main.beancount", &files).unwrap();
    assert_eq!(names(&data.accounts), vec!["Assets:A", "Assets:B", "Assets:C"]);
    assert_eq!(names(&data.currencies), vec!["CHF", "EUR", "USD"]);
    assert_eq!(names(&data.payees), vec!["pa", "pb", "pc"]);
    assert_eq!(data.text, "include \"sub/a.beancount\"\n");
}

#[test]
fn a_missing_included_ledger_is_passed_over() {
    let files = vec![file(
        "/l/main.beancount",
        "include \"gone.beancount\"\n2021-07-10 * \"a\" \"b\"\n  Assets:Cash 1.00 USD\n",
    )];
    let data = Data::new("/l/main.beancount", &files).unwrap();
    assert_eq!(names(&data.accounts), vec!["Assets:Cash"]);
}

#[test]
fn a_ledger_that_includes_itself_is_indexed_once() {
    let files = vec![
        file("/l/main.beancount", "include \"main.beancount\"\ninclude \"a.beancount\"\n2021-07-10 * \"a\" \"b\"\n  Assets:Cash 1.00 USD\n"),
        file("/l/a.beancount", "include \"main.beancount\"\n2015-01-01 commodity USD\n"),
    ];
    let data = Data::new("/l/main.beancount", &files).unwrap();
    assert_eq!(names(&data.accounts), vec!["Assets:Cash"]);
    assert_eq!(data.commodities.get("USD").unwrap().uri, "/l/a.beancount");
}

#[test]
fn a_missing_ledger_is_an_input_error() {
    assert!(matches!(Data::new("/a", &Vec::new()), Err(Error::IoError)));
    assert!(matches!(Data::new("/a", &vec![file("/b", "")]), Err(Error::IoError)));
}

#[test]
fn an_empty_ledger_has_an_empty_index() {
    let data = Data::new("/a", &vec![file("/a", "")]).unwrap();
    assert_eq!(data.accounts.len(), 0);
    assert_eq!(data.currencies.len(), 0);
    assert_eq!(data.payees.len(), 0);
    assert_eq!(data.commodities.len(), 0);
    assert_eq!(data.text, "");
}

#[test]
fn a_commodity_without_a_currency_is_an_invalid_state() {
    let root = node(
        NodeKind::File,
        FieldName::Unnamed,
        "",
        vec![node(NodeKind::Commodity, FieldName::Unnamed, "2015-01-01 commodity", vec![])],
    );
    assert!(matches!(index_document(&root, "/a", ""), Err(Error::InvalidState)));
}

#[test]
fn a_payee_needs_a_narration_beside_it() {
    let strings = |texts: &[&str]| {
        node(
            NodeKind::Other,
            FieldName::TxnStrings,
            "",
            texts.iter().map(|t| node(NodeKind::Text, FieldName::Unnamed, t, vec![])).collect(),
        )
    };
    let root = node(
        NodeKind::File,
        FieldName::Unnamed,
        "",
        vec![
            node(NodeKind::Transaction, FieldName::Unnamed, "", vec![strings(&["\"only\""])]),
            node(NodeKind::Transaction, FieldName::Unnamed, "", vec![strings(&["\"payee\"", "\"text\""])]),
            node(NodeKind::Transaction, FieldName::Unnamed, "", vec![]),
        ],
    );
    let data = index_document(&root, "/a", "").unwrap();
    assert_eq!(names(&data.payees), vec!["payee"]);
}

#[test]
fn an_empty_currency_is_left_out() {
    let posting = |currency: &str| {
        node(
            NodeKind::Posting,
            FieldName::Unnamed,
            "",
            vec![
                node(NodeKind::Account, FieldName::Account, "Assets:Cash", vec![]),
                node(
                    NodeKind::Amount,
                    FieldName::Amount,
                    "",
                    vec![
                        node(NodeKind::Other, FieldName::Unnamed, "1.00", vec![]),
                        node(NodeKind::Currency, FieldName::Unnamed, currency, vec![]),
                    ],
                ),
            ],
        )
    };
    let root = node(
        NodeKind::File,
        FieldName::Unnamed,
        "",
        vec![node(
            NodeKind::Transaction,
            FieldName::Unnamed,
            "",
            vec![node(NodeKind::PostingList, FieldName::PostingList, "", vec![posting(""), posting("EUR")])],
        )],
    );
    let data = index_document(&root, "/a", "").unwrap();
    assert_eq!(names(&data.currencies), vec!["EUR"]);
    assert_eq!(names(&data.accounts), vec!["Assets:Cash"]);
}

#[test]
fn included_files_are_named_without_quotes() {
    let root = parse_document("include \"a.beancount\"\ninclude \"sub/b.beancount\"\n").unwrap();
    assert_eq!(included_files(&root), vec!["a.beancount", "sub/b.beancount"]);
}

#[test]
fn the_last_file_of_a_path_is_found() {
    let files = vec![file("/a", "first"), file("/b", "other"), file("/a", "second")];
    assert_eq!(find_file(&files, "/a").unwrap().text, "second");
    assert_eq!(find_file(&files, "/b").unwrap().text, "other");
    assert!(find_file(&files, "/c").is_none());
}

#[test]
fn the_tree_of_a_ledger_has_kinds_fields_texts_and_places() {
    let root = parse_document("2021-01-01 open Assets:Cash\n").unwrap();
    assert_eq!(root.kind, NodeKind::File);
    assert_eq!(root.children.len(), 1);
    let open = &root.children[0];
    assert_eq!(open.kind, NodeKind::Open);
    assert_eq!(open.field, FieldName::Unnamed);
    assert_eq!(open.text, "2021-01-01 open Assets:Cash\n");
    assert_eq!(open.start, Position { row: 0, column: 0 });
    assert_eq!(open.end, Position { row: 1, column: 0 });
    assert_eq!(open.children.len(), 3);
    assert_eq!(open.children[0].field, FieldName::Date);
    assert_eq!(open.children[0].text, "2021-01-01");
    assert_eq!(open.children[2].kind, NodeKind::Account);
    assert_eq!(open.children[2].field, FieldName::Account);
    assert_eq!(open.children[2].text, "Assets:Cash");
    assert_eq!(open.children[2].start, Position { row: 0, column: 16 });
    assert_eq!(open.children[2].end, Position { row: 0, column: 27 });
}

#[test]
fn columns_count_bytes_and_texts_keep_their_characters() {
    let root = parse_document("2021-01-01 * \"é\" \"x\"\n  Assets:Cash 1.00 EUR\n").unwrap();
    let transaction = &root.children[0];
    let strings = transaction.child_by_field(FieldName::TxnStrings).unwrap();
    assert_eq!(strings.children[0].text, "\"é\"");
    assert_eq!(strings.children[1].start.column, 18);
}

#[test]
fn the_tree_is_kept_down_to_its_depth_only() {
    let mut text = String::from("2021-01-01 * \"a\" \"b\"\n  Assets:Cash ");
    text.push_str(&"(".repeat(40));
    text.push_str("1.00");
    text.push_str(&")".repeat(40));
    text.push_str(" EUR\n");
    let root = parse_document(&text).unwrap();
    fn depth(node: &SyntaxNode) -> usize {
        1 + node.children.iter().map(depth).max().unwrap_or(0)
    }
    assert!(depth(&root) <= MAX_DEPTH + 1);
    let data = Data::new("/a", &vec![file("/a", &text)]).unwrap();
    assert_eq!(names(&data.currencies), vec!["EUR"]);
}

#[test]
fn span_text_cuts_between_characters_only() {
    assert_eq!(span_text("a€b", 0, 1), Some("a".to_string()));
    assert_eq!(span_text("a€b", 1, 4), Some("€".to_string()));
    assert_eq!(span_text("a€b", 0, 5), Some("a€b".to_string()));
    assert_eq!(span_text("a€b", 2, 2), None);
    assert_eq!(span_text("a€b", 1, 3), None);
    assert_eq!(span_text("a€b", 2, 4), None);
    assert_eq!(span_text("a€b", 3, 2), None);
    assert_eq!(span_text("a€b", 0, 6), None);
    assert_eq!(span_text("", 0, 0), Some(String::new()));
}

#[test]
fn names_of_the_grammar_are_read_into_kinds_and_fields() {
    assert_eq!(node_kind_from_name("transaction"), NodeKind::Transaction);
    assert_eq!(node_kind_from_name("posting_or_kv_list"), NodeKind::PostingList);
    assert_eq!(node_kind_from_name("incomplete_amount"), NodeKind::Amount);
    assert_eq!(node_kind_from_name("string"), NodeKind::Text);
    assert_eq!(node_kind_from_name("number"), NodeKind::Number);
    assert_eq!(node_kind_from_name("unary_number_expr"), NodeKind::UnaryNumber);
    assert_eq!(node_kind_from_name("binary_number_expr"), NodeKind::BinaryNumber);
    assert_eq!(node_kind_from_name("ERROR"), NodeKind::Error);
    assert_eq!(node_kind_from_name("error"), NodeKind::Other);
    assert_eq!(node_kind_from_name("balance"), NodeKind::Other);
    assert_eq!(field_from_name(None), FieldName::Unnamed);
    assert_eq!(field_from_name(Some("txn_strings")), FieldName::TxnStrings);
    assert_eq!(field_from_name(Some("posting_or_kv_list")), FieldName::PostingList);
    assert_eq!(field_from_name(Some("cost_spec")), FieldName::CostSpec);
    assert_eq!(field_from_name(Some("price_annotation")), FieldName::Other);
}

#[test]
fn a_text_set_keeps_each_text_once_in_the_order_of_insertion() {
    let set = TextSet::new()
        .insert("b".to_string())
        .insert("a".to_string())
        .insert("b".to_string());
    assert_eq!(set.items(), &vec!["b".to_string(), "a".to_string()]);
    assert_eq!(set.len(), 2);
    assert!(set.contains("a"));
    assert!(!set.contains("c"));
    let other = TextSet::new().insert("c".to_string()).insert("a".to_string());
    let both = set.union(&other);
    assert_eq!(both.items(), &vec!["b".to_string(), "a".to_string(), "c".to_string()]);
}

#[test]
fn a_location_map_gives_a_key_its_last_place() {
    let place = |uri: &str, row: usize| SourceLocation {
        uri: uri.to_string(),
        start: Position { row, column: 0 },
        end: Position { row, column: 3 },
    };
    let map = LocationMap::new()
        .insert("USD".to_string(), place("/a", 1))
        .insert("EUR".to_string(), place("/a", 2))
        .insert("USD".to_string(), place("/b", 3));
    assert_eq!(map.len(), 2);
    assert_eq!(map.get("USD").unwrap().uri, "/b");
    assert_eq!(map.get("USD").unwrap().start.row, 3);
    assert_eq!(map.get("EUR").unwrap().start.row, 2);
    assert!(map.get("CHF").is_none());
    let other = LocationMap::new()
        .insert("EUR".to_string(), place("/c", 4))
        .insert("CHF".to_string(), place("/c", 5));
    let over = map.overlaid(&other);
    assert_eq!(over.len(), 3);
    assert_eq!(over.get("USD").unwrap().uri, "/b");
    assert_eq!(over.get("EUR").unwrap().uri, "/c");
    assert_eq!(over.get("CHF").unwrap().start.row, 5);
    assert_eq!(over.keys(), &vec!["USD".to_string(), "EUR".to_string(), "CHF".to_string()]);
}

#[test]
fn every_error_has_its_message() {
    assert_eq!(Error::IoError.message(), "I/O error");
    assert_eq!(Error::Utf8Error.message(), "UTF8 conversion error");
    assert_eq!(Error::LanguageError.message(), "Language error");
    assert_eq!(Error::TrieEmpty.message(), "Trie is empty");
    assert_eq!(Error::UriToPathConversion.message(), "Cannot convert URI to file path");
    assert_eq!(Error::UnexpectedFormat.message(), "Unexpected format error");
    assert_eq!(Error::InvalidState.message(), "Invalid state error");
}
