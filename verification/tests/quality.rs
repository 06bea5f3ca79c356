use rca::quality::{
    find_summary, generate_quality_report, parse_each_file_uncovered_lines, parse_file_coverage,
    parse_percentage, parse_sloc_json, parse_tarpaulin_output, parse_total_coverage_data,
    read_counts, report_file_name, search_code_coverage_json, search_sloc_number_json,
    sloc_from_entries, Counts, Entry, ParseError,
};
use rca::report::Percentage;

fn chars(s: &str) -> Vec<char> {
    s.chars().collect()
}

fn value_of(p: &Percentage) -> f64 {
    p.to_text().parse::<f64>().unwrap()
}

const REPORT: &str = "Jan 01 00:00:00.000  INFO cargo_tarpaulin::report: Coverage Results:\n|| Uncovered Lines:\n|| src/main.rs: 10-12, 15\n|| src/lib.rs: 3\n|| Tested/Total Lines:\n|| src/main.rs: 4/8\n|| src/lib.rs: 1/2\n|| \n50.00% coverage, 5/10 lines covered";

#[test]
fn file_coverage_expands_ranges() {
    let file = parse_file_coverage("src/lib.rs: 12-15, 20").unwrap();
    assert_eq!(file.name, "src/lib.rs");
    assert_eq!(file.uncovered_lines, vec![12, 13, 14, 15, 20]);
}

#[test]
fn file_coverage_keeps_the_order_of_the_tokens() {
    let file = parse_file_coverage("a.rs:7,1-3,5").unwrap();
    assert_eq!(file.name, "a.rs");
    assert_eq!(file.uncovered_lines, vec![7, 1, 2, 3, 5]);
}

#[test]
fn file_coverage_of_a_single_line_range() {
    let file = parse_file_coverage("a.rs: 4-4").unwrap();
    assert_eq!(file.uncovered_lines, vec![4]);
}

#[test]
fn file_coverage_of_a_descending_range_is_empty() {
    let file = parse_file_coverage("a.rs: 9-4, 2").unwrap();
    assert_eq!(file.uncovered_lines, vec![2]);
}

#[test]
fn file_coverage_reaches_the_largest_line() {
    let file = parse_file_coverage("a.rs: 4294967294-4294967295").unwrap();
    assert_eq!(file.uncovered_lines, vec![4294967294, 4294967295]);
}

#[test]
fn file_coverage_without_colon_is_malformed() {
    assert_eq!(parse_file_coverage("src/lib.rs 12").unwrap_err(), ParseError::MalformedSection);
    assert_eq!(parse_file_coverage("").unwrap_err(), ParseError::MalformedSection);
}

#[test]
fn file_coverage_splits_at_the_first_colon() {
    assert_eq!(parse_file_coverage("a:1,2:3").unwrap_err(), ParseError::MalformedNumber);
    let file = parse_file_coverage(":1").unwrap();
    assert_eq!(file.name, "");
    assert_eq!(file.uncovered_lines, vec![1]);
}

#[test]
fn file_coverage_with_a_bad_number_is_malformed() {
    assert_eq!(parse_file_coverage("a.rs: 1, x").unwrap_err(), ParseError::MalformedNumber);
    assert_eq!(parse_file_coverage("a.rs:").unwrap_err(), ParseError::MalformedNumber);
    assert_eq!(parse_file_coverage("a.rs: 1,").unwrap_err(), ParseError::MalformedNumber);
    assert_eq!(
        parse_file_coverage("a.rs: 4294967296").unwrap_err(),
        ParseError::MalformedNumber
    );
}

#[test]
fn file_coverage_with_a_bad_range_is_malformed() {
    assert_eq!(parse_file_coverage("a.rs: 1-x").unwrap_err(), ParseError::MalformedRange);
    assert_eq!(parse_file_coverage("a.rs: -3").unwrap_err(), ParseError::MalformedRange);
    assert_eq!(parse_file_coverage("a.rs: 3-").unwrap_err(), ParseError::MalformedRange);
    assert_eq!(parse_file_coverage("a.rs: 1-2-3").unwrap_err(), ParseError::MalformedRange);
    assert_eq!(parse_file_coverage("a.rs: 1 - 2").unwrap_err(), ParseError::MalformedRange);
}

#[test]
fn file_coverage_reports_the_first_bad_token() {
    assert_eq!(parse_file_coverage("a.rs: 1-x, y").unwrap_err(), ParseError::MalformedRange);
    assert_eq!(parse_file_coverage("a.rs: y, 1-x").unwrap_err(), ParseError::MalformedNumber);
}

#[test]
fn each_file_is_read_in_order() {
    let files = parse_each_file_uncovered_lines(vec![
        "src/main.rs: 10-12, 15".to_string(),
        "src/lib.rs: 3".to_string(),
    ])
    .unwrap();
    assert_eq!(files.len(), 2);
    assert_eq!(files[0].name, "src/main.rs");
    assert_eq!(files[0].uncovered_lines, vec![10, 11, 12, 15]);
    assert_eq!(files[1].name, "src/lib.rs");
    assert_eq!(files[1].uncovered_lines, vec![3]);
}

#[test]
fn each_file_of_no_sections_is_empty() {
    assert!(parse_each_file_uncovered_lines(Vec::new()).unwrap().is_empty());
}

#[test]
fn each_file_fails_on_the_first_bad_section() {
    let r = parse_each_file_uncovered_lines(vec![
        "a.rs: 1".to_string(),
        "b.rs: 1-".to_string(),
        "c.rs".to_string(),
    ]);
    assert_eq!(r.unwrap_err(), ParseError::MalformedRange);
}

#[test]
fn summary_yields_percentage_and_counts() {
    let coverage =
        parse_total_coverage_data("85.5% coverage, 171/200 lines covered".to_string()).unwrap();
    assert_eq!(coverage.total_coverage_percentage.whole, 85);
    assert_eq!(coverage.total_coverage_percentage.fraction, vec![5]);
    assert_eq!(value_of(&coverage.total_coverage_percentage), 85.5);
    assert_eq!(coverage.num_covered_lines, 171);
    assert_eq!(coverage.total_lines, 200);
    assert!(coverage.file_coverage.is_empty());
}

#[test]
fn summary_leaves_out_the_zeros_at_the_end() {
    let coverage = parse_total_coverage_data("50.00% coverage, 5/10 lines covered".to_string())
        .unwrap();
    assert_eq!(coverage.total_coverage_percentage.whole, 50);
    assert!(coverage.total_coverage_percentage.fraction.is_empty());
    assert_eq!(value_of(&coverage.total_coverage_percentage), 50.0);
    let coverage = parse_total_coverage_data("7.0500%, 1/2".to_string()).unwrap();
    assert_eq!(coverage.total_coverage_percentage.whole, 7);
    assert_eq!(coverage.total_coverage_percentage.fraction, vec![0, 5]);
}

#[test]
fn summary_without_percent_sign_reads_the_whole_field() {
    let coverage = parse_total_coverage_data("12.25, 1/8".to_string()).unwrap();
    assert_eq!(coverage.total_coverage_percentage.whole, 12);
    assert_eq!(coverage.total_coverage_percentage.fraction, vec![2, 5]);
    assert_eq!(coverage.num_covered_lines, 1);
    assert_eq!(coverage.total_lines, 8);
}

#[test]
fn summary_ignores_what_follows_the_counts() {
    let coverage = parse_total_coverage_data(" 100% , 3/3/9 lines, more".to_string()).unwrap();
    assert_eq!(coverage.total_coverage_percentage.whole, 100);
    assert!(coverage.total_coverage_percentage.fraction.is_empty());
    assert_eq!(coverage.num_covered_lines, 3);
    assert_eq!(coverage.total_lines, 3);
}

#[test]
fn summary_with_a_bad_percentage_is_malformed() {
    for text in ["x% coverage, 1/2", "% coverage, 1/2", "", "1e2%, 1/2", "-1%, 1/2", "8 5%, 1/2"] {
        assert_eq!(
            parse_total_coverage_data(text.to_string()).unwrap_err(),
            ParseError::MalformedNumber
        );
    }
}

#[test]
fn summary_without_counts_is_malformed() {
    assert_eq!(
        parse_total_coverage_data("85.5% coverage".to_string()).unwrap_err(),
        ParseError::MalformedSection
    );
    assert_eq!(
        parse_total_coverage_data("85.5% coverage, 171 lines".to_string()).unwrap_err(),
        ParseError::MalformedSection
    );
}

#[test]
fn summary_with_bad_counts_is_malformed() {
    assert_eq!(
        parse_total_coverage_data("85.5%, a/200".to_string()).unwrap_err(),
        ParseError::MalformedNumber
    );
    assert_eq!(
        parse_total_coverage_data("85.5%, 171/".to_string()).unwrap_err(),
        ParseError::MalformedNumber
    );
}

#[test]
fn summary_with_more_covered_than_total_is_inconsistent() {
    assert_eq!(
        parse_total_coverage_data("85.5%, 201/200 lines".to_string()).unwrap_err(),
        ParseError::InconsistentSummary
    );
    assert!(parse_total_coverage_data("85.5%, 200/200 lines".to_string()).is_ok());
}

#[test]
fn percentage_lies_between_0_and_100() {
    assert!(parse_percentage(&chars("0")).is_some());
    assert!(parse_percentage(&chars("100")).is_some());
    assert!(parse_percentage(&chars("100.00")).is_some());
    assert!(parse_percentage(&chars("099.999")).is_some());
    assert!(parse_percentage(&chars("100.01")).is_none());
    assert!(parse_percentage(&chars("101")).is_none());
    assert!(parse_percentage(&chars("4294967297")).is_none());
}

#[test]
fn percentage_round_trips_through_its_text() {
    for text in ["0", "7", "85.5", "33.33", "100", "0.001", "99.999999999999999999"] {
        let p = parse_percentage(&chars(text)).unwrap();
        assert_eq!(p.to_text(), text);
        let q = parse_percentage(&chars(&p.to_text())).unwrap();
        assert_eq!((q.whole, q.fraction), (p.whole, p.fraction));
    }
    assert_eq!(parse_percentage(&chars("+050.500")).unwrap().to_text(), "50.5");
    assert_eq!(parse_percentage(&chars(".5")).unwrap().to_text(), "0.5");
    assert_eq!(parse_percentage(&chars("100.000")).unwrap().to_text(), "100");
    assert_eq!(Percentage { whole: 255, fraction: vec![1, 0] }.to_text(), "255.10");
}

#[test]
fn percentage_agrees_with_floats_on_samples() {
    for value in [0.0f64, 0.5, 1.0, 12.25, 33.33, 50.0, 85.5, 99.99, 100.0] {
        let p = parse_percentage(&chars(&value.to_string())).unwrap();
        assert_eq!(value_of(&p), value);
        assert_eq!(p.to_text(), value.to_string());
    }
}

#[test]
fn percentage_is_a_decimal_numeral() {
    let p = parse_percentage(&chars("+7.")).unwrap();
    assert_eq!((p.whole, p.fraction), (7, vec![]));
    let p = parse_percentage(&chars(".5")).unwrap();
    assert_eq!((p.whole, p.fraction), (0, vec![5]));
    let p = parse_percentage(&chars("3.1415")).unwrap();
    assert_eq!((p.whole, p.fraction), (3, vec![1, 4, 1, 5]));
    for text in ["", ".", "+", "1.2.3", "1,5", "1.x", "x.1", "inf", "nan", "1e1", " 1"] {
        assert!(parse_percentage(&chars(text)).is_none());
    }
}

#[test]
fn sections_leave_out_the_first_two() {
    assert_eq!(
        parse_tarpaulin_output("a|| b ||  c\n||d".to_string()),
        vec!["c".to_string(), "d".to_string()]
    );
    assert!(parse_tarpaulin_output("a||b".to_string()).is_empty());
    assert!(parse_tarpaulin_output("a".to_string()).is_empty());
    assert!(parse_tarpaulin_output("".to_string()).is_empty());
    assert_eq!(parse_tarpaulin_output("||||".to_string()), vec!["".to_string()]);
}

#[test]
fn sections_of_a_report() {
    assert_eq!(
        parse_tarpaulin_output(REPORT.to_string()),
        vec![
            "src/main.rs: 10-12, 15",
            "src/lib.rs: 3",
            "Tested/Total Lines:",
            "src/main.rs: 4/8",
            "src/lib.rs: 1/2",
            "50.00% coverage, 5/10 lines covered",
        ]
    );
}

#[test]
fn summary_is_found_at_its_first_marker() {
    let sections: Vec<String> =
        vec!["a".into(), "Total Lines".into(), "b".into(), "x Total Lines y".into()];
    assert_eq!(find_summary(&sections), Some(1));
    assert_eq!(find_summary(&vec!["a".to_string()]), None);
    assert_eq!(find_summary(&Vec::new()), None);
}

#[test]
fn coverage_report_is_read_whole() {
    let coverage = search_code_coverage_json(REPORT.to_string()).unwrap();
    assert_eq!(coverage.file_coverage.len(), 2);
    assert_eq!(coverage.file_coverage[0].name, "src/main.rs");
    assert_eq!(coverage.file_coverage[0].uncovered_lines, vec![10, 11, 12, 15]);
    assert_eq!(coverage.file_coverage[1].name, "src/lib.rs");
    assert_eq!(coverage.file_coverage[1].uncovered_lines, vec![3]);
    assert_eq!(value_of(&coverage.total_coverage_percentage), 50.0);
    assert_eq!(coverage.num_covered_lines, 5);
    assert_eq!(coverage.total_lines, 10);
    assert!(coverage.num_covered_lines <= coverage.total_lines);
}

#[test]
fn coverage_report_without_marker_lacks_its_summary() {
    assert_eq!(
        search_code_coverage_json("a||b||src/a.rs: 1||50% coverage, 1/2".to_string())
            .unwrap_err(),
        ParseError::MissingSummary
    );
    assert_eq!(search_code_coverage_json("".to_string()).unwrap_err(), ParseError::MissingSummary);
}

#[test]
fn coverage_report_reads_the_summary_before_the_files() {
    assert_eq!(
        search_code_coverage_json("a||b||src/a.rs||Total Lines||oops".to_string()).unwrap_err(),
        ParseError::MalformedNumber
    );
    assert_eq!(
        search_code_coverage_json("a||b||src/a.rs||Total Lines||50%, 1/2".to_string())
            .unwrap_err(),
        ParseError::MalformedSection
    );
    assert_eq!(
        search_code_coverage_json("a||b||src/a.rs: 2-||Total Lines||50%, 1/2".to_string())
            .unwrap_err(),
        ParseError::MalformedRange
    );
}

#[test]
fn coverage_report_with_the_marker_in_its_last_section() {
    assert_eq!(
        search_code_coverage_json("a||b||src/a.rs: 1||Total Lines".to_string()).unwrap_err(),
        ParseError::MalformedNumber
    );
}

fn counts(blanks: u64, code: u64, comments: u64) -> Counts {
    Counts { blanks: Some(blanks), code: Some(code), comments: Some(comments), inaccurate: None }
}

#[test]
fn entries_give_languages_and_totals() {
    let entries = vec![
        Entry { name: "Rust".to_string(), counts: Some(counts(5, 100, 10)) },
        Entry {
            name: "Total".to_string(),
            counts: Some(Counts {
                blanks: None,
                code: Some(120),
                comments: Some(12),
                inaccurate: Some(true),
            }),
        },
        Entry { name: "TOML".to_string(), counts: Some(counts(1, 20, 2)) },
    ];
    let sloc = sloc_from_entries(&entries).unwrap();
    assert_eq!(sloc.language_info.len(), 2);
    assert_eq!(sloc.language_info[0].language, "Rust");
    assert_eq!(sloc.language_info[0].blanks, 5);
    assert_eq!(sloc.language_info[0].code, 100);
    assert_eq!(sloc.language_info[0].comments, 10);
    assert_eq!(sloc.language_info[1].language, "TOML");
    assert_eq!(sloc.code, 120);
    assert_eq!(sloc.comments, 12);
    assert!(sloc.inaccurate);
}

#[test]
fn entries_without_total_leave_the_totals_at_zero() {
    let sloc = sloc_from_entries(&vec![Entry {
        name: "Rust".to_string(),
        counts: Some(counts(5, 100, 10)),
    }])
    .unwrap();
    assert_eq!((sloc.code, sloc.comments, sloc.inaccurate), (0, 0, false));
    let sloc = sloc_from_entries(&Vec::new()).unwrap();
    assert!(sloc.language_info.is_empty());
}

#[test]
fn entries_with_a_missing_count_are_malformed() {
    let no_object = vec![Entry { name: "Rust".to_string(), counts: None }];
    assert_eq!(sloc_from_entries(&no_object).unwrap_err(), ParseError::MalformedEntry);
    let no_blanks = vec![Entry {
        name: "Rust".to_string(),
        counts: Some(Counts {
            blanks: None,
            code: Some(1),
            comments: Some(1),
            inaccurate: Some(false),
        }),
    }];
    assert_eq!(sloc_from_entries(&no_blanks).unwrap_err(), ParseError::MalformedEntry);
    let no_flag = vec![Entry { name: "Total".to_string(), counts: Some(counts(1, 1, 1)) }];
    assert_eq!(sloc_from_entries(&no_flag).unwrap_err(), ParseError::MalformedEntry);
}

#[test]
fn one_malformed_entry_invalidates_the_whole() {
    let entries = vec![
        Entry { name: "Rust".to_string(), counts: Some(counts(5, 100, 10)) },
        Entry { name: "C".to_string(), counts: None },
        Entry { name: "TOML".to_string(), counts: Some(counts(1, 20, 2)) },
    ];
    assert_eq!(sloc_from_entries(&entries).unwrap_err(), ParseError::MalformedEntry);
}

fn object(text: &str) -> serde_json::Map<String, serde_json::Value> {
    serde_json::from_str(text).unwrap()
}

#[test]
fn sloc_round_trips() {
    let sloc = parse_sloc_json(object(
        r#"{"Rust": {"code":100,"comments":10,"blanks":5}, "Total": {"code":100,"comments":10,"blanks":5,"inaccurate":false}}"#,
    ))
    .unwrap();
    assert_eq!(sloc.language_info.len(), 1);
    assert_eq!(sloc.language_info[0].language, "Rust");
    assert_eq!(sloc.language_info[0].code, 100);
    assert_eq!(sloc.language_info[0].comments, 10);
    assert_eq!(sloc.language_info[0].blanks, 5);
    assert_eq!(sloc.code, 100);
    assert_eq!(sloc.comments, 10);
    assert_eq!(sloc.inaccurate, false);
}

#[test]
fn sloc_leaves_nested_details_aside() {
    let sloc = parse_sloc_json(object(
        r#"{"Rust": {"blanks":1,"children":{},"code":2,"comments":3,"reports":[{"name":"a.rs"}]},
            "Total": {"blanks":1,"children":{"Rust":[]},"code":2,"comments":3,"inaccurate":true,"reports":[]}}"#,
    ))
    .unwrap();
    assert_eq!(sloc.language_info.len(), 1);
    assert_eq!(
        (sloc.language_info[0].blanks, sloc.language_info[0].code, sloc.language_info[0].comments),
        (1, 2, 3)
    );
    assert_eq!((sloc.code, sloc.comments, sloc.inaccurate), (2, 3, true));
}

#[test]
fn sloc_of_an_empty_object_is_empty() {
    let sloc = parse_sloc_json(serde_json::Map::new()).unwrap();
    assert!(sloc.language_info.is_empty());
    assert_eq!((sloc.code, sloc.comments, sloc.inaccurate), (0, 0, false));
}

#[test]
fn sloc_with_a_wrong_shape_is_malformed() {
    for text in [
        r#"{"Rust": 1}"#,
        r#"{"Rust": {"code":100,"comments":10}}"#,
        r#"{"Rust": {"code":"100","comments":10,"blanks":5}}"#,
        r#"{"Rust": {"code":-1,"comments":10,"blanks":5}}"#,
        r#"{"Rust": {"code":1.5,"comments":10,"blanks":5}}"#,
        r#"{"Total": {"code":100,"comments":10,"blanks":5}}"#,
        r#"{"Total": {"code":100,"comments":10,"blanks":5,"inaccurate":0}}"#,
        r#"{"Rust": {"code":100,"comments":10,"blanks":5}, "Zig": []}"#,
    ] {
        assert_eq!(parse_sloc_json(object(text)).unwrap_err(), ParseError::MalformedEntry);
    }
}

#[test]
fn counts_are_read_from_an_object() {
    let value: serde_json::Value =
        serde_json::from_str(r#"{"blanks":7,"code":true,"inaccurate":false}"#).unwrap();
    let counts = read_counts(&value).unwrap();
    assert_eq!(counts.blanks, Some(7));
    assert_eq!(counts.code, None);
    assert_eq!(counts.comments, None);
    assert_eq!(counts.inaccurate, Some(false));
    assert!(read_counts(&serde_json::Value::Null).is_none());
    assert!(read_counts(&serde_json::Value::from(3u64)).is_none());
}

#[test]
fn line_counter_output_is_read() {
    let sloc = search_sloc_number_json(
        r#"{"Rust":{"blanks":5,"code":100,"comments":10},"TOML":{"blanks":0,"code":9,"comments":1},"Total":{"blanks":5,"code":109,"comments":11,"inaccurate":false}}"#,
    )
    .unwrap();
    assert_eq!(sloc.language_info.len(), 2);
    assert_eq!(sloc.language_info[0].language, "Rust");
    assert_eq!(sloc.language_info[1].language, "TOML");
    assert_eq!(sloc.code, 109);
}

#[test]
fn line_counter_output_that_is_no_object_is_invalid() {
    for text in ["", "not json", "[1,2]", "3", r#"{"Rust": "#, r#"{"a":1} x"#] {
        assert_eq!(search_sloc_number_json(text).unwrap_err(), ParseError::InvalidJson);
    }
}

#[test]
fn quality_report_holds_both_parts() {
    let quality = generate_quality_report(
        r#"{"Rust":{"blanks":5,"code":100,"comments":10},"Total":{"blanks":5,"code":100,"comments":10,"inaccurate":false}}"#,
        REPORT.to_string(),
    )
    .unwrap();
    assert_eq!(quality.sloc.code, 100);
    assert_eq!(quality.sloc.language_info.len(), 1);
    assert_eq!(quality.coverage.total_lines, 10);
    assert_eq!(quality.coverage.file_coverage.len(), 2);
}

#[test]
fn quality_report_reads_the_line_counts_first() {
    assert_eq!(
        generate_quality_report("nope", "nope".to_string()).unwrap_err(),
        ParseError::InvalidJson
    );
    assert_eq!(
        generate_quality_report("{}", "nope".to_string()).unwrap_err(),
        ParseError::MissingSummary
    );
}

#[test]
fn report_file_has_the_json_extension() {
    assert_eq!(report_file_name("quality_report"), "quality_report.json");
    assert_eq!(report_file_name(""), ".json");
}
