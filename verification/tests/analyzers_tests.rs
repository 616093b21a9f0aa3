use income_analysis::analyzers::{analyze_overall_data, analyze_year_data, Scope};
use income_analysis::dates::Date;
use income_analysis::errors::IncomeError;
use income_analysis::records::IncomeCollection;

#[test]
fn test_analyze_year_data() {
    let mut income_data = IncomeCollection::new();
    income_data.insert(Date::from_ymd(2023, 1, 1).unwrap(), 100000);
    income_data.insert(Date::from_ymd(2023, 6, 15).unwrap(), 200000);
    income_data.insert(Date::from_ymd(2024, 1, 1).unwrap(), 300000);

    let analysis = analyze_year_data(2023, &income_data).unwrap();

    assert_eq!(analysis.scope, Scope::Year(2023));
    assert_eq!(analysis.total_income, 300000);
    assert!(analysis.average_equals_cents(150000));
    assert_eq!(analysis.max_income, 200000);
    assert_eq!(analysis.min_income, 100000);
    assert_eq!(analysis.twenty_four_percent, 7_200_000);
}

#[test]
fn test_analyze_overall_data() {
    let mut income_data = IncomeCollection::new();
    income_data.insert(Date::from_ymd(2023, 1, 1).unwrap(), 100000);
    income_data.insert(Date::from_ymd(2023, 6, 15).unwrap(), 200000);
    income_data.insert(Date::from_ymd(2024, 1, 1).unwrap(), 300000);
    income_data.insert(Date::from_ymd(2024, 6, 15).unwrap(), 400000);

    let analysis = analyze_overall_data(&income_data).unwrap();

    assert_eq!(analysis.scope, Scope::Overall);
    assert_eq!(analysis.total_income, 1_000_000);
    assert!(analysis.average_equals_cents(250000));
    assert_eq!(analysis.max_income, 400000);
    assert_eq!(analysis.min_income, 100000);
    assert_eq!(analysis.twenty_four_percent, 24_000_000);
}

#[test]
fn year_filter_excludes_other_years() {
    let mut with_extra = IncomeCollection::new();
    with_extra.insert(Date::from_ymd(2023, 1, 1).unwrap(), 100000);
    with_extra.insert(Date::from_ymd(2023, 6, 15).unwrap(), 200000);
    with_extra.insert(Date::from_ymd(2024, 12, 31).unwrap(), 999999);

    let analysis = analyze_year_data(2023, &with_extra).unwrap();
    assert_eq!(analysis.total_income, 300000);
    assert!(analysis.average_equals_cents(150000));
    assert_eq!(analysis.max_income, 200000);
    assert_eq!(analysis.min_income, 100000);
    assert_eq!(analysis.records.len(), 2);
}

#[test]
fn empty_year_fails_with_no_data() {
    let mut income_data = IncomeCollection::new();
    income_data.insert(Date::from_ymd(2023, 1, 1).unwrap(), 100000);

    let err = analyze_year_data(2025, &income_data).unwrap_err();
    assert_eq!(err, IncomeError::NoData { year: 2025 });
    assert_eq!(err.message(), "No data available for the year 2025");
}

#[test]
fn overall_of_empty_collection_fails_with_compute() {
    let income_data = IncomeCollection::new();
    let err = analyze_overall_data(&income_data).unwrap_err();
    assert_eq!(err, IncomeError::Compute);
}

#[test]
fn twenty_four_percent_is_exactly_24_percent_of_total() {
    let mut income_data = IncomeCollection::new();
    income_data.insert(Date::from_ymd(2023, 3, 3).unwrap(), 33333);
    income_data.insert(Date::from_ymd(2023, 4, 4).unwrap(), 77777);
    income_data.insert(Date::from_ymd(2024, 5, 5).unwrap(), -12345);

    let year = analyze_year_data(2023, &income_data).unwrap();
    assert_eq!(year.twenty_four_percent, year.total_income * 24);

    let overall = analyze_overall_data(&income_data).unwrap();
    assert_eq!(overall.twenty_four_percent, overall.total_income * 24);
    assert_eq!(overall.total_income, 33333 + 77777 - 12345);
}

#[test]
fn single_record_statistics() {
    let mut income_data = IncomeCollection::new();
    income_data.insert(Date::from_ymd(2023, 1, 1).unwrap(), 55555);

    let analysis = analyze_year_data(2023, &income_data).unwrap();
    assert_eq!(analysis.total_income, 55555);
    assert_eq!(analysis.max_income, 55555);
    assert_eq!(analysis.min_income, 55555);
    assert!(analysis.average_equals_cents(55555));
}
