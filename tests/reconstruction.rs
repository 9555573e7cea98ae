use fixerr::{
    clean_and_normalize_field, detect_column_count, normalize_rows, reconstruct,
    reconstruct_records, render_output, Delimiter, FixError, HeaderMode, Stats,
};

fn run_with_headers(content: &str, stats: &mut Stats) -> Vec<Vec<String>> {
    reconstruct_records(content.as_bytes(), HeaderMode::HasHeaders, Delimiter::Comma, None, stats)
        .unwrap()
}

fn rows(data: &[&[&str]]) -> Vec<Vec<String>> {
    data.iter().map(|r| r.iter().map(|f| f.to_string()).collect()).collect()
}

#[test]
fn test_case_1_trailing_newline_split() {
    let content = "ID,Organization,Details,Amount\n9413154,Tbilisi Waters,Georgian Product\n,1722.63";
    let mut stats = Stats::default();
    let result = run_with_headers(content, &mut stats);

    assert_eq!(result.len(), 2);
    let stitched_details = &result[1][2];
    assert!(stitched_details.contains("Georgian Product"));
    assert!(stitched_details.contains('\n'));
    assert_eq!(clean_and_normalize_field(stitched_details), "Georgian Product");
}

#[test]
fn test_case_2_mid_value_split() {
    let content = "ID,Organization,Details,Amount\n9413155,Bodorna Waters,Mineral water from\nBodorna, 2909.20";
    let mut stats = Stats::default();
    let result = run_with_headers(content, &mut stats);

    assert_eq!(result.len(), 2);
    let details = &result[1][2];
    assert_eq!(clean_and_normalize_field(details), "Mineral water from Bodorna");
}

#[test]
fn test_case_3_multi_column_cascading_split() {
    let content = "ID,Organization,Details,Amount\n9413156,Gori\nBeverages,Product from\nGori, 3427.50";
    let mut stats = Stats::default();
    let result = run_with_headers(content, &mut stats);

    assert_eq!(result.len(), 2);
    let org = &result[1][1];
    assert_eq!(clean_and_normalize_field(org), "Gori Beverages");
    let details = &result[1][2];
    assert_eq!(clean_and_normalize_field(details), "Product from Gori");
}

#[test]
fn test_case_4_single_field_multi_row_fragmentation() {
    let content = "ID,Organization,Details,Amount\n9413157,Sairme Waters,This\nProduct\nIs from\nSarime,1736.10";
    let mut stats = Stats::default();
    let result = run_with_headers(content, &mut stats);

    assert_eq!(result.len(), 2);
    let details = &result[1][2];
    assert_eq!(clean_and_normalize_field(details), "This Product Is from Sarime");
}

#[test]
fn test_case_5_quoted_newline_flattening() {
    let content = "ID,Organization,Details,Amount\n9413158,Svaneti Waters,\"Mestia,\nGeorgia\",2505.25";
    let mut stats = Stats::default();
    let result = run_with_headers(content, &mut stats);

    assert_eq!(result.len(), 2);
    let details = &result[1][2];
    assert_eq!(clean_and_normalize_field(details), "Mestia, Georgia");
}

#[test]
fn test_clean_and_normalize_logic() {
    assert_eq!(clean_and_normalize_field("Word \n"), "Word");
    assert_eq!(clean_and_normalize_field("Hello  World"), "Hello World");
    assert_eq!(clean_and_normalize_field(" Item \t 1 "), "Item 1");
}

#[test]
fn normalize_edge_cases() {
    assert_eq!(clean_and_normalize_field(""), "");
    assert_eq!(clean_and_normalize_field(" \t\r\n "), "");
    assert_eq!(clean_and_normalize_field("a\r\nb"), "a b");
    assert_eq!(clean_and_normalize_field("x\u{a0}y\u{3000}z"), "x y z");
    assert_eq!(clean_and_normalize_field("Mestia,"), "Mestia,");
}

#[test]
fn normalize_twice_is_normalize_once() {
    for s in ["  a  b ", "\n\tx\n", "", "plain", "a \u{2028} b\u{85}c"] {
        let once = clean_and_normalize_field(s);
        assert_eq!(clean_and_normalize_field(&once), once);
    }
}

#[test]
fn full_width_rows_pass_through() {
    let input = rows(&[&["1", "a", "x"], &["2", "b", "y"], &["3", "c", "z"]]);
    let mut stats = Stats::default();
    let out = reconstruct(&input, 3, &mut stats);
    assert_eq!(out, input);
    assert_eq!(stats, Stats { total_rows: 3, fixed_rows: 0, removed_rows: 0 });
}

#[test]
fn clean_file_counts() {
    let content = "a,b\n1,2\n3,4\n5,6\n";
    let mut stats = Stats::default();
    let result = run_with_headers(content, &mut stats);
    assert_eq!(result.len(), 4);
    assert_eq!(stats.total_rows, 3);
    assert_eq!(stats.fixed_rows, 0);
    assert_eq!(stats.removed_rows, 0);
}

#[test]
fn total_excludes_header_row() {
    let content = "a,b,c\n1,2\n3,4,5\n";
    let mut stats = Stats::default();
    let result = run_with_headers(content, &mut stats);
    assert_eq!(stats.total_rows, 2);
    assert_eq!(result[0], vec!["a", "b", "c"]);

    let mut stats = Stats::default();
    let result = reconstruct_records(
        content.as_bytes(),
        HeaderMode::NoHeaders,
        Delimiter::Comma,
        Some(3),
        &mut stats,
    )
    .unwrap();
    assert_eq!(stats, Stats { total_rows: 3, fixed_rows: 0, removed_rows: 1 });
    assert_eq!(result, rows(&[&["a", "b", "c"]]));
}

#[test]
fn stitching_keeps_newlines() {
    let input = rows(&[&["1", "This"], &["Product"], &["Is from"], &["Sarime", "9"]]);
    let mut stats = Stats::default();
    let out = reconstruct(&input, 3, &mut stats);
    assert_eq!(out, rows(&[&["1", "This\nProduct\nIs from\nSarime", "9"]]));
    assert_eq!(stats, Stats { total_rows: 4, fixed_rows: 1, removed_rows: 0 });
    assert_eq!(clean_and_normalize_field(&out[0][1]), "This Product Is from Sarime");
}

#[test]
fn stitching_onto_empty_field_adds_no_newline() {
    let input = rows(&[&["1", ""], &["tail", "9"]]);
    let mut stats = Stats::default();
    let out = reconstruct(&input, 3, &mut stats);
    assert_eq!(out, rows(&[&["1", "tail", "9"]]));
}

#[test]
fn wide_row_while_idle_is_discarded() {
    let input = rows(&[&["1", "2", "3", "4"], &["a", "b", "c"]]);
    let mut stats = Stats::default();
    let out = reconstruct(&input, 3, &mut stats);
    assert_eq!(out, rows(&[&["a", "b", "c"]]));
    assert_eq!(stats, Stats { total_rows: 2, fixed_rows: 0, removed_rows: 1 });
}

#[test]
fn wide_row_while_accumulating_leaves_buffer() {
    let input = rows(&[&["1", "x"], &["p", "q", "r", "s"], &["y", "9"]]);
    let mut stats = Stats::default();
    let out = reconstruct(&input, 3, &mut stats);
    assert_eq!(out, rows(&[&["1", "x\ny", "9"]]));
    assert_eq!(stats, Stats { total_rows: 3, fixed_rows: 1, removed_rows: 1 });
}

#[test]
fn overshooting_buffer_is_discarded() {
    let input = rows(&[&["1", "x"], &["y", "2", "3"], &["a", "b", "c"]]);
    let mut stats = Stats::default();
    let out = reconstruct(&input, 3, &mut stats);
    assert_eq!(out, rows(&[&["a", "b", "c"]]));
    assert_eq!(stats, Stats { total_rows: 3, fixed_rows: 0, removed_rows: 1 });
}

#[test]
fn unfinished_tail_counts_once() {
    let content = "a,b,c\n1,2,3\n4,five\nsix";
    let mut stats = Stats::default();
    let result = run_with_headers(content, &mut stats);
    assert_eq!(result, rows(&[&["a", "b", "c"], &["1", "2", "3"]]));
    assert_eq!(stats, Stats { total_rows: 3, fixed_rows: 0, removed_rows: 1 });
}

#[test]
fn stats_accumulate() {
    let input = rows(&[&["1", "x"], &["y", "9"]]);
    let mut stats = Stats { total_rows: 10, fixed_rows: 2, removed_rows: 1 };
    reconstruct(&input, 3, &mut stats);
    assert_eq!(stats, Stats { total_rows: 12, fixed_rows: 3, removed_rows: 1 });
}

#[test]
fn semicolon_delimiter() {
    let content = "a;b\n1;x\ny\n";
    let mut stats = Stats::default();
    let result = reconstruct_records(
        content.as_bytes(),
        HeaderMode::HasHeaders,
        Delimiter::Semicolon,
        None,
        &mut stats,
    )
    .unwrap();
    assert_eq!(result, rows(&[&["a", "b"], &["1", "x"]]));
    assert_eq!(stats, Stats { total_rows: 2, fixed_rows: 0, removed_rows: 1 });
}

#[test]
fn missing_header_is_format_error() {
    let mut stats = Stats::default();
    let r = reconstruct_records(b"", HeaderMode::HasHeaders, Delimiter::Comma, None, &mut stats);
    assert_eq!(r, Err(FixError::Format));
    assert_eq!(stats, Stats::default());
}

#[test]
fn invalid_text_is_format_error() {
    let mut stats = Stats::default();
    let r = reconstruct_records(b"a,b\n\xff\xfe,1\n", HeaderMode::HasHeaders, Delimiter::Comma, None, &mut stats);
    assert_eq!(r, Err(FixError::Format));
}

#[test]
fn missing_or_zero_count_is_config_error() {
    let mut stats = Stats::default();
    let r = reconstruct_records(b"1,2\n", HeaderMode::NoHeaders, Delimiter::Comma, None, &mut stats);
    assert_eq!(r, Err(FixError::Config));
    let r = reconstruct_records(b"1,2\n", HeaderMode::NoHeaders, Delimiter::Comma, Some(0), &mut stats);
    assert_eq!(r, Err(FixError::Config));
    assert_eq!(stats, Stats::default());
}

#[test]
fn full_counters_are_count_overflow() {
    let mut stats = Stats { total_rows: usize::MAX, fixed_rows: 0, removed_rows: 0 };
    let r = reconstruct_records(b"a\n1\n", HeaderMode::HasHeaders, Delimiter::Comma, None, &mut stats);
    assert_eq!(r, Err(FixError::CountOverflow));
    assert_eq!(stats.total_rows, usize::MAX);
}

#[test]
fn detect_column_count_cases() {
    let r = rows(&[&["a", "b", "c"], &["1"]]);
    assert_eq!(detect_column_count(&r, HeaderMode::HasHeaders, None), Ok(3));
    assert_eq!(detect_column_count(&r, HeaderMode::NoHeaders, Some(5)), Ok(5));
    assert_eq!(detect_column_count(&Vec::new(), HeaderMode::HasHeaders, Some(2)), Err(FixError::Format));
    assert_eq!(detect_column_count(&r, HeaderMode::NoHeaders, None), Err(FixError::Config));
}

#[test]
fn render_output_normalizes_and_serializes() {
    let input = rows(&[&["ID", "Details"], &["1", " Mineral water\nfrom  Bodorna "]]);
    assert_eq!(
        normalize_rows(&input),
        rows(&[&["ID", "Details"], &["1", "Mineral water from Bodorna"]])
    );
    let bytes = render_output(&input, Delimiter::Comma).unwrap();
    assert_eq!(bytes, b"ID,Details\n1,Mineral water from Bodorna\n".to_vec());
    let bytes = render_output(&rows(&[&["a", "b;c"]]), Delimiter::Semicolon).unwrap();
    assert_eq!(bytes, b"a;\"b;c\"\n".to_vec());
    let bytes = render_output(&rows(&[&["a", "b"]]), Delimiter::Tab).unwrap();
    assert_eq!(bytes, b"a\tb\n".to_vec());
}

#[test]
fn render_output_unequal_rows_is_output_error() {
    let input = rows(&[&["a", "b"], &["c"]]);
    assert_eq!(render_output(&input, Delimiter::Pipe), Err(FixError::Output));
}

#[test]
fn delimiter_and_header_mode_values() {
    assert_eq!(Delimiter::Comma.as_byte(), b',');
    assert_eq!(Delimiter::Semicolon.as_byte(), b';');
    assert_eq!(Delimiter::Tab.as_byte(), b'\t');
    assert_eq!(Delimiter::Pipe.as_byte(), b'|');
    assert!(HeaderMode::HasHeaders.as_bool());
    assert!(!HeaderMode::NoHeaders.as_bool());
    assert_eq!(HeaderMode::default(), HeaderMode::HasHeaders);
    assert_eq!(Delimiter::default(), Delimiter::Comma);
}
