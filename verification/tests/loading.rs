use beancount_language_server::diagnostics::{diagnostics, read_line};
use beancount_language_server::index::SourceFile;
use beancount_language_server::loader::Loader;
use beancount_language_server::paths::choose_path;
use beancount_language_server::Data;

fn read(path: &str) -> Option<String> {
    match path {
        "/l/main.beancount" => Some("include \"a.beancount\"\ninclude \"gone.beancount\"\ninclude \"sub/b.beancount\"\n".to_string()),
        "/l/a.beancount" => Some("include \"main.beancount\"\ninclude \"sub/b.beancount\"\n".to_string()),
        "/l/sub/b.beancount" => Some("include \"/l/a.beancount\"\ninclude \"c.beancount\"\n".to_string()),
        "/l/sub/c.beancount" => Some("2015-01-01 commodity USD\n".to_string()),
        _ => None,
    }
}

#[test]
fn a_loader_starts_with_the_root() {
    let loader = Loader::new("/l/main.beancount");
    assert_eq!(loader.next(), Some(&"/l/main.beancount".to_string()));
    assert!(loader.files.is_empty());
}

#[test]
fn a_file_that_was_read_queues_what_it_includes() {
    let loader = Loader::new("/l/main.beancount").supply(read("/l/main.beancount"));
    assert_eq!(loader.files.len(), 1);
    assert_eq!(loader.files[0].path, "/l/main.beancount");
    assert_eq!(loader.pending, vec!["/l/a.beancount", "/l/gone.beancount", "/l/sub/b.beancount"]);
    assert_eq!(loader.next(), Some(&"/l/sub/b.beancount".to_string()));
}

#[test]
fn a_file_that_cannot_be_read_is_dropped() {
    let loader = Loader::new("/l/gone.beancount").supply(None);
    assert!(loader.files.is_empty());
    assert!(loader.pending.is_empty());
    assert_eq!(loader.next(), None);
    let loader = loader.supply(Some("plugin \"x\"\n".to_string()));
    assert!(loader.files.is_empty());
    assert!(loader.pending.is_empty());
}

#[test]
fn every_file_is_read_once() {
    let mut loader = Loader::new("/l/main.beancount");
    let mut asked: Vec<String> = Vec::new();
    while let Some(path) = loader.next().cloned() {
        assert!(asked.len() < 10);
        asked.push(path.clone());
        loader = loader.supply(read(&path));
    }
    assert_eq!(
        asked,
        vec!["/l/main.beancount", "/l/sub/b.beancount", "/l/sub/c.beancount", "/l/gone.beancount", "/l/a.beancount"]
    );
    let paths: Vec<&str> = loader.files.iter().map(|f| f.path.as_str()).collect();
    assert_eq!(paths, vec!["/l/main.beancount", "/l/sub/b.beancount", "/l/sub/c.beancount", "/l/a.beancount"]);
}

fn includes_of(path: &str, text: &str) -> Vec<String> {
    SourceFile::read(path.to_string(), text.to_string()).includes
}

#[test]
fn a_file_lists_the_paths_of_what_it_includes() {
    let file = SourceFile::read(
        "/l/main.beancount".to_string(),
        "include \"a.beancount\"\ninclude \"/x/b.beancount\"\ninclude \"sub/c.beancount\"\n".to_string(),
    );
    assert_eq!(file.path, "/l/main.beancount");
    assert_eq!(file.text, "include \"a.beancount\"\ninclude \"/x/b.beancount\"\ninclude \"sub/c.beancount\"\n");
    assert_eq!(file.includes, vec!["/l/a.beancount", "/x/b.beancount", "/l/sub/c.beancount"]);
    assert!(includes_of("/l/main.beancount", "plugin \"a\"\n").is_empty());
}

#[test]
fn a_relative_target_stands_beside_the_ledger() {
    assert_eq!(
        includes_of("/home/me/main.beancount", "include \"commodities.beancount\"\n"),
        vec!["/home/me/commodities.beancount"]
    );
    assert_eq!(includes_of("/main.beancount", "include \"other.beancount\"\n"), vec!["/other.beancount"]);
}

#[test]
fn a_target_of_a_relative_ledger_stays_as_it_is() {
    assert_eq!(includes_of("main.beancount", "include \"other.beancount\"\n"), vec!["other.beancount"]);
    assert_eq!(includes_of("", "include \"other.beancount\"\n"), vec!["other.beancount"]);
}

#[test]
fn the_path_of_an_included_ledger_is_chosen_from_what_the_platform_says() {
    let beside = || Some("C:\\l\\a.beancount".to_string());
    assert_eq!(choose_path("a.beancount", false, true, beside()), "C:\\l\\a.beancount");
    assert_eq!(choose_path("D:\\a.beancount", true, true, beside()), "D:\\a.beancount");
    assert_eq!(choose_path("a.beancount", false, false, beside()), "a.beancount");
    assert_eq!(choose_path("a.beancount", true, false, beside()), "a.beancount");
    assert_eq!(choose_path("a.beancount", false, true, None), "a.beancount");
}

#[test]
fn the_listed_paths_decide_what_is_included() {
    let text = "include \"a.beancount\"\ninclude \"b.beancount\"\n";
    let commodity = |path: &str, code: &str| SourceFile {
        path: path.to_string(),
        text: format!("2015-01-01 commodity {}\n", code),
        includes: vec![],
    };
    let main = |includes: Vec<&str>| SourceFile {
        path: "main".to_string(),
        text: text.to_string(),
        includes: includes.into_iter().map(|p| p.to_string()).collect(),
    };
    let codes = |includes: Vec<&str>| {
        let files = vec![main(includes), commodity("x", "USD"), commodity("y", "EUR"), commodity("z", "CHF")];
        Data::new("main", &files).unwrap().commodities.keys().clone()
    };
    assert_eq!(codes(vec!["x", "y"]), vec!["USD", "EUR"]);
    assert_eq!(codes(vec!["y"]), vec!["EUR"]);
    assert_eq!(codes(vec![]), Vec::<String>::new());
    assert_eq!(codes(vec!["x", "y", "z"]), vec!["USD", "EUR"]);
    assert_eq!(codes(vec!["gone", "z"]), vec!["CHF"]);
}

#[test]
fn a_line_with_a_file_a_number_and_a_message_is_a_diagnostic() {
    let line: Vec<char> = "/l/main.beancount:12:   Invalid currency".chars().collect();
    let found = read_line(&line).unwrap();
    assert_eq!(found.line, 11);
    assert_eq!(found.column, 0);
    assert_eq!(found.message, "Invalid currency");
}

#[test]
fn diagnostics_come_from_the_matching_lines_of_a_failed_run() {
    let errors = "main.beancount:3: Transaction does not balance\n\n   2021-07-10 * \"a\"\nTraceback:\nother.beancount:10:second\nx:0:\n:5: no file\nfile:: no number\nfile:1x: no number\nfile:7 no colon\n";
    let found = diagnostics(false, errors);
    let shown: Vec<(usize, usize, &str)> =
        found.iter().map(|d| (d.line, d.column, d.message.as_str())).collect();
    assert_eq!(
        shown,
        vec![(2, 0, "Transaction does not balance"), (9, 0, "second"), (0, 0, "")]
    );
}

#[test]
fn a_run_that_succeeded_has_no_diagnostics() {
    assert!(diagnostics(true, "main.beancount:3: Transaction does not balance\n").is_empty());
    assert!(diagnostics(false, "").is_empty());
}

#[test]
fn a_line_number_that_is_too_large_is_the_last_row() {
    let found = diagnostics(false, "f:99999999999999999999999999999999:m");
    assert_eq!(found[0].line, usize::MAX);
    let found = diagnostics(false, "f:18446744073709551615:m");
    assert_eq!(found[0].line, usize::MAX - 1);
    let found = diagnostics(false, "f:0001:m");
    assert_eq!(found[0].line, 0);
}
