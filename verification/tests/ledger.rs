use beancount_language_server::completion::State;
use beancount_language_server::index::SourceFile;
use beancount_language_server::{reformat, Data, Error};

fn file(path: &str, text: &str) -> SourceFile {
    SourceFile::read(path.to_string(), text.to_string())
}

fn single(text: &str) -> Result<Data, Error> {
    Data::new("/ledger/main.beancount", &vec![file("/ledger/main.beancount", text)])
}

fn loaded(text: &str) -> State {
    State::load_ledgers(single(text).unwrap())
}

#[test]
fn parse() -> Result<(), Error> {
    let data = single(
        r#"
        2021-07-10 "foo" "bar"
            Expenses:Cash       100.00 EUR
            Assets:Checking    -100.00 EUR
        "#,
    )?;

    assert_eq!(data.accounts.len(), 2);

    assert!(data
        .account_paths()
        .contains(&vec!["Expenses".to_string(), "Cash".to_string()]));
    assert!(data
        .account_paths()
        .contains(&vec!["Assets".to_string(), "Checking".to_string()]));

    assert_eq!(data.currencies.len(), 1);
    assert!(data.currency_keys().contains(&vec!['E', 'U', 'R']));

    Ok(())
}

#[test]
fn commodity_definition() -> Result<(), Error> {
    let data = single(
        r#"
        2015-01-01 commodity USD
          name: "US Dollar"
          type: "Currency"
        2015-01-01 commodity EUR
          name: "Euro"
          type: "Currency"
        "#,
    )?;

    assert_eq!(data.commodities.len(), 2);

    let usd_location = data.commodities.get("USD").unwrap();
    assert_eq!(usd_location.start.row, 1);

    let eur_location = data.commodities.get("EUR").unwrap();
    assert_eq!(eur_location.start.row, 4);

    Ok(())
}

#[test]
fn included_ledger() -> Result<(), Error> {
    let commodity_file_path = "/ledger/commodities.beancount";
    let main_file_path = "/ledger/main.beancount";
    let files = vec![
        file(
            commodity_file_path,
            r#"
        2015-01-01 commodity USD
          name: "US Dollar"
          type: "Currency"
        "#,
        ),
        file(
            main_file_path,
            r#"
        include "commodities.beancount"

        2021-07-10 * "foo" "bar"
            Expenses:Cash       100.00 USD
            Assets:Checking    -100.00 USD
        "#,
        ),
    ];

    let data = Data::new(main_file_path, &files)?;
    let usd_location = data.commodities.get("USD").unwrap();
    assert_eq!(usd_location.uri, commodity_file_path);

    Ok(())
}

#[test]
fn reformat_top_level() -> Result<(), Error> {
    let reformatted = reformat(
        r#"option "operating_currency" "EUR"

  plugin "beancount.plugins.implicit_prices"
plugin    "beancount.plugins.check_commodity"

include "commodities.beancount"   "#,
    )?;
    assert!(reformatted.is_some());
    let reformatted = reformatted.unwrap();

    let expected = r#"option "operating_currency" "EUR"

plugin "beancount.plugins.implicit_prices"
plugin "beancount.plugins.check_commodity"

include "commodities.beancount""#;

    assert_eq!(reformatted, expected);
    Ok(())
}

#[test]
fn reformat_transaction() -> Result<(), Error> {
    let reformatted = reformat(
        r#"2021-07-10  ! "foo"     "bar"
 Expenses:Cash             100.00 EUR
   Assets:Checking    -100.00 EUR
        "#,
    )?;
    assert!(reformatted.is_some());
    let reformatted = reformatted.unwrap();

    let expected = r#"2021-07-10 ! "foo" "bar"
  Expenses:Cash                               100.00 EUR
  Assets:Checking                            -100.00 EUR"#;
    assert_eq!(reformatted, expected);

    Ok(())
}

#[test]
fn complete_root_account() -> Result<(), Error> {
    let state = loaded(
        r#"2021-07-11 "foo" "bar"
  Expe
        "#,
    );

    let items = state.completion(1, 5, None).unwrap().unwrap();

    assert_eq!(items.len(), 1);
    assert_eq!(items[0], "Expenses");

    Ok(())
}

#[test]
fn complete_sub_account() -> Result<(), Error> {
    let state = loaded(
        r#"2021-07-11 "foo" "bar"
  Expenses:Foo:Bar
  Expenses:Foo:Qux
  Expenses:F
        "#,
    );

    let items = state.completion(3, 12, None).unwrap().unwrap();

    assert_eq!(items.len(), 3);
    for item in items {
        assert!(item == "F" || item == "Foo:Bar" || item == "Foo:Qux");
    }

    Ok(())
}

#[test]
fn complete_payee() -> Result<(), Error> {
    let state = loaded(
        r#"2021-07-11 "foo" "bar"
  Expenses:Foo:Bar
2021-07-11 "faa" "bar"
  Expenses:Foo:Bar
2021-07-11 "gaa" "bar"
  Expenses:Foo:Bar
2021-07-11 "f
        "#,
    );

    let items = state.completion(6, 12, None).unwrap().unwrap();

    assert_eq!(items.len(), 2);

    for item in items {
        assert!(item == "foo" || item == "faa");
    }

    Ok(())
}
