use income_analysis::analyzers::{analyze_overall_data, analyze_year_data};
use income_analysis::cli::{invalid_argument_message, parse_args, print_usage, Mode};
use income_analysis::dates::Date;
use income_analysis::output::{print_overall_analysis, print_year_analysis};
use income_analysis::records::IncomeCollection;

#[test]
fn no_argument_and_all_select_the_same_mode() {
    assert_eq!(parse_args(None), Mode::All);
    assert_eq!(parse_args(Some("all")), Mode::All);
    assert_eq!(parse_args(None), parse_args(Some("all")));
}

#[test]
fn cli_dispatch_table() {
    assert_eq!(parse_args(Some("help")), Mode::Help);
    assert_eq!(parse_args(Some("2023")), Mode::Year(2023));
    assert_eq!(parse_args(Some("2024")), Mode::Year(2024));
    assert_eq!(parse_args(Some("7")), Mode::Year(7));
    assert_eq!(parse_args(Some("02023")), Mode::Invalid);
    assert_eq!(parse_args(Some("20x3")), Mode::Invalid);
    assert_eq!(parse_args(Some("-5")), Mode::Invalid);
    assert_eq!(parse_args(Some("ALL")), Mode::Invalid);
    assert_eq!(parse_args(Some("")), Mode::Invalid);
}

#[test]
fn usage_text_is_the_fixed_block() {
    let usage = print_usage();
    assert!(usage.starts_with("Income Analysis Tool\n"));
    assert!(usage.contains("help         Show this help message"));
    assert!(usage.contains("24% of total income"));
    assert_eq!(
        invalid_argument_message(),
        "Invalid argument. Use 'help' to see available options."
    );
}

#[test]
fn year_report_renders_exactly() {
    let mut income_data = IncomeCollection::new();
    income_data.insert(Date::from_ymd(2023, 1, 1).unwrap(), 100000);
    income_data.insert(Date::from_ymd(2023, 6, 15).unwrap(), 200000);
    income_data.insert(Date::from_ymd(2024, 1, 1).unwrap(), 300000);

    let analysis = analyze_year_data(2023, &income_data).unwrap();
    let text = print_year_analysis(&analysis);
    let expected = "\nIncome Data for 2023:\n\
2023-01-01  $1000.00\n\
2023-06-15  $2000.00\n\
Total Income for 2023: $3000.00\n\
Average Income for 2023: $1500.00\n\
Highest Income for 2023: $2000.00\n\
Lowest Income for 2023: $1000.00\n\
24% of Total Income for 2023: $720.00\n";
    assert_eq!(text, expected);
}

#[test]
fn overall_report_renders_exactly() {
    let mut income_data = IncomeCollection::new();
    income_data.insert(Date::from_ymd(2023, 1, 1).unwrap(), 100000);
    income_data.insert(Date::from_ymd(2023, 6, 15).unwrap(), 200000);
    income_data.insert(Date::from_ymd(2024, 1, 1).unwrap(), 300000);
    income_data.insert(Date::from_ymd(2024, 6, 15).unwrap(), 400000);

    let analysis = analyze_overall_data(&income_data).unwrap();
    let text = print_overall_analysis(&analysis);
    let expected = "\nOverall Income Data:\n\
2023-01-01  $1000.00\n\
2023-06-15  $2000.00\n\
2024-01-01  $3000.00\n\
2024-06-15  $4000.00\n\
Total Income (Overall): $10000.00\n\
Average Income (Overall): $2500.00\n\
Highest Income (Overall): $4000.00\n\
Lowest Income (Overall): $1000.00\n\
24% of Total Income (Overall): $2400.00\n";
    assert_eq!(text, expected);
}

#[test]
fn negative_and_rounded_figures_render_to_two_decimals() {
    let mut income_data = IncomeCollection::new();
    income_data.insert(Date::from_ymd(2023, 1, 1).unwrap(), -150);
    income_data.insert(Date::from_ymd(2023, 1, 2).unwrap(), 100);

    let analysis = analyze_year_data(2023, &income_data).unwrap();
    let text = print_year_analysis(&analysis);
    // total -50 cents; average -25 cents; 24% of -50 cents is -12 cents
    // once rounded (exactly -0.1200 dollars).
    assert!(text.contains("Total Income for 2023: $-0.50\n"));
    assert!(text.contains("Average Income for 2023: $-0.25\n"));
    assert!(text.contains("Highest Income for 2023: $1.00\n"));
    assert!(text.contains("Lowest Income for 2023: $-1.50\n"));
    assert!(text.contains("24% of Total Income for 2023: $-0.12\n"));
}
