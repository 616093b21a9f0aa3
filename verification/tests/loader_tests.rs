use income_analysis::data_loader::{
    df_to_hashmap, get_available_years, load_data_from_csv, parse_amount,
};
use income_analysis::dates::{parse_date, Date};
use income_analysis::errors::IncomeError;
use income_analysis::records::{IncomeCollection, IncomeTable};

#[test]
fn test_df_to_hashmap() {
    let mut df = IncomeTable::new();
    df.push_row("2023-01-01".to_string(), "1000.0".to_string());
    df.push_row("2023-06-15".to_string(), "2000.0".to_string());
    df.push_row("2024-01-01".to_string(), "3000.0".to_string());
    df.push_row("2024-06-15".to_string(), "4000.0".to_string());

    let income_data = df_to_hashmap(&df).unwrap();

    assert_eq!(income_data.len(), 4);

    assert_eq!(
        income_data.get(Date::from_ymd(2023, 1, 1).unwrap()),
        Some(100000)
    );
    assert_eq!(
        income_data.get(Date::from_ymd(2023, 6, 15).unwrap()),
        Some(200000)
    );
    assert_eq!(
        income_data.get(Date::from_ymd(2024, 1, 1).unwrap()),
        Some(300000)
    );
    assert_eq!(
        income_data.get(Date::from_ymd(2024, 6, 15).unwrap()),
        Some(400000)
    );
}

#[test]
fn test_get_available_years() {
    let mut income_data = IncomeCollection::new();
    income_data.insert(Date::from_ymd(2023, 1, 1).unwrap(), 100000);
    income_data.insert(Date::from_ymd(2023, 6, 15).unwrap(), 200000);
    income_data.insert(Date::from_ymd(2024, 1, 1).unwrap(), 300000);
    income_data.insert(Date::from_ymd(2024, 6, 15).unwrap(), 400000);

    let mut years = get_available_years(&income_data);
    years.sort_unstable();
    assert_eq!(years, vec![2023, 2024]);
}

#[test]
fn round_trip_load_yields_exactly_the_rows() {
    let csv = "date,amount\n2023-01-01,1000.0\n2023-06-15,2000.0\n2024-01-01,3000.0\n2024-06-15,4000.0\n";
    let table = load_data_from_csv(csv).unwrap();
    assert_eq!(table.len(), 4);
    let coll = df_to_hashmap(&table).unwrap();
    assert_eq!(coll.len(), 4);
    assert_eq!(coll.get(Date::from_ymd(2023, 1, 1).unwrap()), Some(100000));
    assert_eq!(coll.get(Date::from_ymd(2023, 6, 15).unwrap()), Some(200000));
    assert_eq!(coll.get(Date::from_ymd(2024, 1, 1).unwrap()), Some(300000));
    assert_eq!(coll.get(Date::from_ymd(2024, 6, 15).unwrap()), Some(400000));
    assert_eq!(coll.get(Date::from_ymd(2025, 1, 1).unwrap()), None);
}

#[test]
fn loader_handles_crlf_extra_columns_and_blank_lines() {
    let csv = "id,date,note,amount\r\n7,2023-01-01,salary,12.50\r\n\r\n8,2024-02-29,bonus,-3.25\r\n";
    let table = load_data_from_csv(csv).unwrap();
    assert_eq!(table.len(), 2);
    let coll = df_to_hashmap(&table).unwrap();
    assert_eq!(coll.get(Date::from_ymd(2023, 1, 1).unwrap()), Some(1250));
    assert_eq!(coll.get(Date::from_ymd(2024, 2, 29).unwrap()), Some(-325));
}

#[test]
fn loader_rejects_missing_columns_and_ragged_rows() {
    assert_eq!(
        load_data_from_csv("").unwrap_err(),
        IncomeError::DataAccess
    );
    assert_eq!(
        load_data_from_csv("date,value\n2023-01-01,1.0\n").unwrap_err(),
        IncomeError::DataAccess
    );
    assert_eq!(
        load_data_from_csv("when,amount\n2023-01-01,1.0\n").unwrap_err(),
        IncomeError::DataAccess
    );
    assert_eq!(
        load_data_from_csv("date,amount\n2023-01-01\n").unwrap_err(),
        IncomeError::DataAccess
    );
}

#[test]
fn malformed_date_is_rejected_as_parse_error() {
    let table = load_data_from_csv("date,amount\n15/06/2023,1000.0\n").unwrap();
    assert_eq!(
        df_to_hashmap(&table).unwrap_err(),
        IncomeError::Parse { row: 0 }
    );

    let table2 =
        load_data_from_csv("date,amount\n2023-01-01,1000.0\n2023-6-15,2000.0\n").unwrap();
    assert_eq!(
        df_to_hashmap(&table2).unwrap_err(),
        IncomeError::Parse { row: 1 }
    );
}

#[test]
fn missing_amount_is_rejected_as_parse_error() {
    let table = load_data_from_csv("date,amount\n2023-01-01,\n").unwrap();
    assert_eq!(
        df_to_hashmap(&table).unwrap_err(),
        IncomeError::Parse { row: 0 }
    );
    let table2 = load_data_from_csv("date,amount\n2023-01-01,abc\n").unwrap();
    assert_eq!(
        df_to_hashmap(&table2).unwrap_err(),
        IncomeError::Parse { row: 0 }
    );
}

#[test]
fn duplicate_date_keeps_the_later_amount() {
    let csv = "date,amount\n2023-01-01,1000.0\n2023-01-01,2500.0\n";
    let table = load_data_from_csv(csv).unwrap();
    let coll = df_to_hashmap(&table).unwrap();
    assert_eq!(coll.len(), 1);
    assert_eq!(coll.get(Date::from_ymd(2023, 1, 1).unwrap()), Some(250000));
}

#[test]
fn date_grammar_is_strict() {
    assert_eq!(
        parse_date("2023-06-15"),
        Some(Date { year: 2023, month: 6, day: 15 })
    );
    assert_eq!(parse_date("15/06/2023"), None);
    assert_eq!(parse_date("2023-6-15"), None);
    assert_eq!(parse_date("2023-13-01"), None);
    assert_eq!(parse_date("2023-00-10"), None);
    assert_eq!(parse_date("2023-02-29"), None);
    assert_eq!(
        parse_date("2024-02-29"),
        Some(Date { year: 2024, month: 2, day: 29 })
    );
    assert_eq!(parse_date("1900-02-29"), None);
    assert_eq!(
        parse_date("2000-02-29"),
        Some(Date { year: 2000, month: 2, day: 29 })
    );
    assert_eq!(parse_date("2023-04-31"), None);
    assert_eq!(parse_date("2023-01-1"), None);
    assert_eq!(parse_date(" 2023-01-01"), None);
    assert_eq!(parse_date(""), None);
}

#[test]
fn amount_grammar_and_range() {
    assert_eq!(parse_amount("1000.0"), Some(100000));
    assert_eq!(parse_amount("1000"), Some(100000));
    assert_eq!(parse_amount("12.5"), Some(1250));
    assert_eq!(parse_amount("12.50"), Some(1250));
    assert_eq!(parse_amount("12.500"), Some(1250));
    assert_eq!(parse_amount("12.345"), None);
    assert_eq!(parse_amount("-1.25"), Some(-125));
    assert_eq!(parse_amount("0.05"), Some(5));
    assert_eq!(parse_amount(""), None);
    assert_eq!(parse_amount("-"), None);
    assert_eq!(parse_amount("1."), None);
    assert_eq!(parse_amount(".5"), None);
    assert_eq!(parse_amount("1e3"), None);
    assert_eq!(parse_amount("1,000"), None);
    assert_eq!(parse_amount("1000000000000000.00"), Some(100_000_000_000_000_000));
    assert_eq!(parse_amount("1000000000000000.01"), None);
    assert_eq!(parse_amount("9999999999999999"), None);
    assert_eq!(parse_amount("-1000000000000000"), Some(-100_000_000_000_000_000));
}

#[test]
fn years_present_are_distinct_regardless_of_order() {
    let mut income_data = IncomeCollection::new();
    income_data.insert(Date::from_ymd(2024, 6, 15).unwrap(), 400000);
    income_data.insert(Date::from_ymd(2023, 1, 1).unwrap(), 100000);
    income_data.insert(Date::from_ymd(2024, 1, 1).unwrap(), 300000);
    income_data.insert(Date::from_ymd(2023, 6, 15).unwrap(), 200000);

    let mut years = get_available_years(&income_data);
    years.sort_unstable();
    assert_eq!(years, vec![2023, 2024]);
}

#[test]
fn insert_overwrites_without_error() {
    let mut coll = IncomeCollection::new();
    coll.insert(Date::from_ymd(2023, 1, 1).unwrap(), 100000);
    coll.insert(Date::from_ymd(2023, 1, 1).unwrap(), 777);
    assert_eq!(coll.len(), 1);
    assert_eq!(coll.get(Date::from_ymd(2023, 1, 1).unwrap()), Some(777));
}
