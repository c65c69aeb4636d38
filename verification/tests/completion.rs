use beancount_language_server::completion::{account_sequence_from, completion_response_from, State};
use beancount_language_server::grammar::locate;
use beancount_language_server::index::SourceFile;
use beancount_language_server::syntax::{NodeKind, Position};
use beancount_language_server::{Data, Error};

fn file(path: &str, text: &str) -> SourceFile {
    SourceFile::read(path.to_string(), text.to_string())
}

fn state_of(text: &str) -> State {
    State::load_ledgers(Data::new("/l/main.beancount", &vec![file("/l/main.beancount", text)]).unwrap())
}

fn sorted(mut items: Vec<String>) -> Vec<String> {
    items.sort();
    items
}

const LEDGER: &str = "2015-01-01 commodity EUR\n2021-07-11 * \"foo\" \"bar\"\n  Expenses:Foo:Bar  1.00 EUR\n  Expenses:Foo:Qux  2.00 USD\n  Assets:Cash  -3.00 EURO\n2021-07-12 * \"faa\" \"bar\"\n  Assets:Cash  0.00 EUR\n";

#[test]
fn nothing_is_completed_before_a_ledger_is_loaded() {
    let state = State::new().did_change(LEDGER.to_string());
    assert_eq!(state.completion(2, 10, None), Ok(None));
    assert_eq!(state.completion(2, 10, Some(":")), Ok(None));
}

#[test]
fn an_account_prefix_needs_a_trie() {
    let sequence = vec!["Expenses".to_string()];
    assert_eq!(completion_response_from(&sequence, &None), Err(Error::TrieEmpty));
    assert_eq!(State::new().handle_character_triggered("Expenses:"), Err(Error::TrieEmpty));
    assert_eq!(State::new().handle_account("Expenses:F"), Err(Error::TrieEmpty));
    assert_eq!(State::new().handle_currency("E"), Err(Error::TrieEmpty));
}

#[test]
fn the_segments_of_a_typed_account_leave_empty_pieces_out() {
    assert_eq!(account_sequence_from("Expenses:Foo:"), vec!["Expenses", "Foo"]);
    assert_eq!(account_sequence_from("Expenses"), vec!["Expenses"]);
    assert_eq!(account_sequence_from("::a::"), vec!["a"]);
    assert!(account_sequence_from("").is_empty());
    assert!(account_sequence_from(":").is_empty());
}

#[test]
fn a_typed_colon_completes_the_segments_before_it() {
    let state = state_of(LEDGER);
    let labels = state.handle_character_triggered("Expenses:").unwrap().unwrap();
    assert_eq!(sorted(labels), vec!["Foo:Bar", "Foo:Qux"]);
    let labels = state.handle_character_triggered("Expenses:Foo:").unwrap().unwrap();
    assert_eq!(sorted(labels), vec!["Bar", "Qux"]);
    let labels = state.handle_character_triggered("Expenses:Foo:Bar").unwrap().unwrap();
    assert_eq!(labels, vec![""]);
    let labels = state.handle_character_triggered("Income:").unwrap().unwrap();
    assert!(labels.is_empty());
    assert_eq!(state.handle_character_triggered(":"), Ok(None));
    assert_eq!(state.handle_character_triggered(""), Ok(None));
}

#[test]
fn an_account_is_completed_from_its_segments_without_the_last() {
    let state = state_of(LEDGER);
    let labels = state.handle_account("Expenses:F").unwrap().unwrap();
    assert_eq!(sorted(labels), vec!["Foo:Bar", "Foo:Qux"]);
    let labels = state.handle_account("Expenses:Foo:B").unwrap().unwrap();
    assert_eq!(sorted(labels), vec!["Bar", "Qux"]);
    assert_eq!(state.handle_account("Expenses"), Ok(None));
    assert_eq!(state.handle_account("Expenses:"), Ok(None));
    assert_eq!(state.handle_account(""), Ok(None));
}

#[test]
fn a_currency_is_completed_to_the_codes_that_start_with_it() {
    let state = state_of(LEDGER);
    let labels = state.handle_currency("EU").unwrap().unwrap();
    assert_eq!(sorted(labels), vec!["EUR", "EURO"]);
    let labels = state.handle_currency("U").unwrap().unwrap();
    assert_eq!(labels, vec!["USD"]);
    let labels = state.handle_currency("X").unwrap().unwrap();
    assert!(labels.is_empty());
    let labels = state.handle_currency("").unwrap().unwrap();
    assert_eq!(sorted(labels), vec!["EUR", "EURO", "USD"]);
}

#[test]
fn a_root_is_completed_from_what_follows_its_first_character() {
    let state = State::new();
    assert_eq!(state.handle_identifier("xpe"), Ok(Some(vec!["Expenses".to_string()])));
    assert_eq!(state.handle_identifier("ssets"), Ok(Some(vec!["Assets".to_string()])));
    assert_eq!(state.handle_identifier("i"), Ok(Some(vec!["Liabilities".to_string()])));
    assert_eq!(state.handle_identifier("q"), Ok(Some(vec!["Equity".to_string()])));
    assert_eq!(state.handle_identifier("evenue"), Ok(Some(vec!["Revenue".to_string()])));
    assert_eq!(state.handle_identifier(""), Ok(Some(vec!["Expenses".to_string()])));
    assert_eq!(state.handle_identifier("Expe"), Ok(None));
    assert_eq!(state.handle_identifier("xpensesx"), Ok(None));
    assert_eq!(state.handle_identifier("ncome"), Ok(None));
}

#[test]
fn a_payee_is_completed_from_its_beginning() {
    let state = state_of(LEDGER);
    assert_eq!(state.handle_error("\"f"), Ok(Some(vec!["foo".to_string(), "faa".to_string()])));
    assert_eq!(state.handle_error("\"fo \n\t"), Ok(Some(vec!["foo".to_string()])));
    assert_eq!(state.handle_error("fa"), Ok(Some(vec!["faa".to_string()])));
    assert_eq!(state.handle_error("\""), Ok(Some(vec!["foo".to_string(), "faa".to_string()])));
    assert_eq!(state.handle_error(""), Ok(Some(vec!["foo".to_string(), "faa".to_string()])));
    assert_eq!(state.handle_error("\"g"), Ok(None));
    assert_eq!(state.handle_error("\"\"f"), Ok(None));
    assert_eq!(State::new().handle_error("\"f"), Ok(None));
}

#[test]
fn the_kind_of_the_node_chooses_the_completion() {
    let state = state_of(LEDGER);
    assert_eq!(state.handle_node(NodeKind::Currency, "US"), Ok(Some(vec!["USD".to_string()])));
    assert_eq!(state.handle_node(NodeKind::Identifier, "xpe"), Ok(Some(vec!["Expenses".to_string()])));
    assert_eq!(sorted(state.handle_node(NodeKind::Account, "Expenses:Foo:").unwrap().unwrap()), vec!["Foo:Bar", "Foo:Qux"]);
    assert_eq!(state.handle_node(NodeKind::Error, "\"fo"), Ok(Some(vec!["foo".to_string()])));
    assert_eq!(state.handle_node(NodeKind::Transaction, "US"), Ok(None));
    assert_eq!(state.handle_node(NodeKind::Other, "xpe"), Ok(None));
    assert_eq!(state.handle_node(NodeKind::Text, "\"fo"), Ok(None));
}

#[test]
fn completion_looks_at_the_node_before_the_cursor() {
    let state = state_of(LEDGER);
    let labels = state.completion(2, 27, None).unwrap().unwrap();
    assert_eq!(sorted(labels), vec!["EUR", "EURO"]);
    let labels = state.completion(2, 10, None).unwrap().unwrap();
    assert_eq!(sorted(labels), vec!["Bar", "Qux"]);
    assert_eq!(state.completion(1, 3, None), Ok(None));
    assert_eq!(state.completion(100, 0, None), Ok(None));
}

#[test]
fn completion_after_a_colon_completes_the_account_before_it() {
    let state = state_of(LEDGER).did_change(
        "2021-07-11 * \"foo\" \"bar\"\n  Expenses:Foo:Bar  1.00 EUR\n  Expenses:\n".to_string(),
    );
    let labels = state.completion(1, 18, Some(":")).unwrap().unwrap();
    assert_eq!(labels, vec![""]);
    let labels = state.completion(1, 18, Some(".")).unwrap().unwrap();
    assert_eq!(sorted(labels), vec!["Bar", "Qux"]);
}

#[test]
fn completion_reads_the_changed_text() {
    let state = state_of(LEDGER).did_change("2021-07-11 * \"foo\" \"bar\"\n  Expe\n".to_string());
    assert_eq!(state.completion(1, 5, None), Ok(Some(vec!["Expenses".to_string()])));
    assert_eq!(state.text, "2021-07-11 * \"foo\" \"bar\"\n  Expe\n");
}

#[test]
fn locate_finds_the_smallest_named_node_of_a_range() {
    let at = |row, column| Position { row, column };
    assert_eq!(
        locate(LEDGER, at(2, 26), at(2, 27)),
        Ok(Some((NodeKind::Currency, "EUR".to_string())))
    );
    assert_eq!(
        locate(LEDGER, at(2, 3), at(2, 3)),
        Ok(Some((NodeKind::Account, "Expenses:Foo:Bar".to_string())))
    );
    assert_eq!(locate(LEDGER, at(0, 0), at(6, 0)).unwrap().unwrap().0, NodeKind::File);
    assert_eq!(locate("", at(0, 0), at(0, 0)), Ok(Some((NodeKind::File, String::new()))));
}

#[test]
fn a_currency_leads_to_its_definition() {
    let state = state_of(LEDGER);
    let place = state.goto_definition(2, 26).unwrap().unwrap();
    assert_eq!(place.uri, "/l/main.beancount");
    assert_eq!(place.start, Position { row: 0, column: 0 });
    assert_eq!(place.end, Position { row: 1, column: 0 });
    assert!(state.goto_definition(3, 26).unwrap().is_none());
    assert!(state.goto_definition(2, 5).unwrap().is_none());
    assert!(state.goto_definition(50, 5).unwrap().is_none());
}

#[test]
fn formatting_replaces_the_open_ledger_by_the_canonical_text() {
    let state = state_of(LEDGER).did_change("a\nb\nc\n\n".to_string());
    let edit = state.formatting("plugin   \"p\"\n").unwrap();
    assert_eq!(edit.start, Position { row: 0, column: 0 });
    assert_eq!(edit.end, Position { row: 4, column: 0 });
    assert_eq!(edit.new_text, "plugin \"p\"");
    let edit = State::new().formatting("").unwrap();
    assert_eq!(edit.end, Position { row: 0, column: 0 });
    assert_eq!(edit.new_text, "");
}

#[test]
fn formatting_fails_where_the_text_cannot_be_formatted() {
    let state = State::new();
    assert!(matches!(
        state.formatting("2021-07-10 * \"a\" \"b\"\n"),
        Err(Error::UnexpectedFormat)
    ));
}

#[test]
fn loading_a_ledger_takes_over_its_index() {
    let state = state_of(LEDGER);
    assert_eq!(state.text, LEDGER);
    assert!(state.account_trie.is_some());
    assert!(state.currency_trie.is_some());
    assert_eq!(state.payees.items(), &vec!["foo".to_string(), "faa".to_string()]);
    assert_eq!(state.commodities.keys(), &vec!["EUR".to_string()]);
    let empty = State::new();
    assert!(empty.account_trie.is_none());
    assert!(empty.currency_trie.is_none());
    assert_eq!(empty.text, "");
    assert_eq!(empty.payees.len(), 0);
    assert_eq!(empty.commodities.len(), 0);
}
