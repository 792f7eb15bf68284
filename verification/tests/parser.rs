use rsync_net_exporter::parser::{
    cell_range, find_header, is_data_line, is_header_line, is_ordered, parse_quota_lines,
    parse_quota_output, parse_row, read_columns, Column, ParseError, Quota,
};

const HEADER: &str = "Filesystem      Usage           SoftQuota       HardQuota       Files           BilledUsage     FreeSnaps       CustomSnaps";

fn chars(s: &str) -> Vec<char> {
    s.chars().collect()
}

fn decimal(cell: &str) -> f64 {
    cell.parse::<f64>().unwrap_or(0.0)
}

fn only_record(output: &str) -> Quota {
    let mut quotas = parse_quota_output(output).expect("Failed to parse");
    assert_eq!(quotas.len(), 1);
    quotas.remove(0)
}

fn empty_record() -> Quota {
    Quota {
        filesystem: String::new(),
        usage: String::new(),
        soft_quota: String::new(),
        hard_quota: String::new(),
        files: 0,
        billed_usage: String::new(),
        free_snaps: String::new(),
        custom_snaps: String::new(),
    }
}

#[test]
fn test_parse_quota_output_decimal() {
    let output = r#"
Disk Quotas for User de4183

Filesystem      Usage           SoftQuota       HardQuota       Files           BilledUsage     FreeSnaps       CustomSnaps

data2           55.542          112             123.2           22054           85.979                          30.437


   *All figures reported in GB

   **BilledUsage is the sum of Usage and CustomSnaps
"#;

    let quotas = parse_quota_output(output).expect("Failed to parse");
    assert_eq!(quotas.len(), 1);
    let q = &quotas[0];

    assert_eq!(q.filesystem, "data2");
    assert_eq!(decimal(&q.usage), 55.542);
    assert_eq!(decimal(&q.soft_quota), 112.0);
    assert_eq!(decimal(&q.hard_quota), 123.2);
    assert_eq!(q.files, 22054);
    assert_eq!(decimal(&q.billed_usage), 85.979);
    assert_eq!(decimal(&q.free_snaps), 0.0);
    assert_eq!(decimal(&q.custom_snaps), 30.437);
}

#[test]
fn test_parse_quota_output_integer_usage() {
    let output = r#"
Disk Quotas for User de4183

Filesystem      Usage         SoftQuota       HardQuota       Files           BilledUsage     FreeSnaps       CustomSnaps

data2           55            112             123.2           22054           85              10              30


   *All figures reported in GB

   **BilledUsage is the sum of Usage and CustomSnaps
"#;

    let quotas = parse_quota_output(output).expect("Failed to parse");
    assert_eq!(quotas.len(), 1);
    let q = &quotas[0];

    assert_eq!(q.filesystem, "data2");
    assert_eq!(decimal(&q.usage), 55.0);
    assert_eq!(decimal(&q.soft_quota), 112.0);
    assert_eq!(decimal(&q.hard_quota), 123.2);
    assert_eq!(q.files, 22054);
    assert_eq!(decimal(&q.billed_usage), 85.0);
    assert_eq!(decimal(&q.free_snaps), 10.0);
    assert_eq!(decimal(&q.custom_snaps), 30.0);
}

#[test]
fn one_row_under_the_full_header() {
    let row = "data2           55.542          112             123.2           22054           85.979                          30.437";
    let q = only_record(&format!("{}\n{}", HEADER, row));
    assert_eq!(
        q,
        Quota {
            filesystem: "data2".to_string(),
            usage: "55.542".to_string(),
            soft_quota: "112".to_string(),
            hard_quota: "123.2".to_string(),
            files: 22054,
            billed_usage: "85.979".to_string(),
            free_snaps: String::new(),
            custom_snaps: "30.437".to_string(),
        }
    );
    assert_eq!(decimal(&q.usage), 55.542);
    assert_eq!(decimal(&q.soft_quota), 112.0);
    assert_eq!(decimal(&q.hard_quota), 123.2);
    assert_eq!(decimal(&q.billed_usage), 85.979);
    assert_eq!(decimal(&q.free_snaps), 0.0);
    assert_eq!(decimal(&q.custom_snaps), 30.437);
}

#[test]
fn whole_numbers_read_as_decimals() {
    let row = "data2           55              112             123.2           22054           85              10              30";
    let q = only_record(&format!("{}\n{}", HEADER, row));
    assert_eq!(decimal(&q.usage), 55.0);
    assert_eq!(decimal(&q.billed_usage), 85.0);
    assert_eq!(decimal(&q.free_snaps), 10.0);
    assert_eq!(decimal(&q.custom_snaps), 30.0);
    let with_point = "data2           55.0            112             123.2           22054           85.0            10.0            30.0";
    let p = only_record(&format!("{}\n{}", HEADER, with_point));
    assert_eq!(decimal(&q.usage), decimal(&p.usage));
    assert_eq!(decimal(&q.billed_usage), decimal(&p.billed_usage));
    assert_eq!(decimal(&q.free_snaps), decimal(&p.free_snaps));
    assert_eq!(decimal(&q.custom_snaps), decimal(&p.custom_snaps));
}

#[test]
fn title_without_header_fails() {
    let r = parse_quota_output("Disk Quotas for User de4183\n");
    assert_eq!(r, Err(ParseError::HeaderNotFound));
    assert_eq!(ParseError::HeaderNotFound.message(), "Header line not found");
}

#[test]
fn empty_text_has_no_header() {
    assert_eq!(parse_quota_output(""), Err(ParseError::HeaderNotFound));
    assert_eq!(parse_quota_output("\n\n   \n"), Err(ParseError::HeaderNotFound));
    assert_eq!(parse_quota_lines(&Vec::new()), Err(ParseError::HeaderNotFound));
}

#[test]
fn header_alone_gives_no_records() {
    assert_eq!(parse_quota_output(HEADER), Ok(Vec::new()));
    assert_eq!(parse_quota_output(&format!("title\n\n{}\n", HEADER)), Ok(Vec::new()));
    assert_eq!(
        parse_quota_output(&format!("{}\n\n   \n  *note\n**note\n", HEADER)),
        Ok(Vec::new())
    );
}

#[test]
fn header_is_found_by_its_trimmed_start() {
    assert!(is_header_line(&chars("Filesystem")));
    assert!(is_header_line(&chars("   Filesystem   Usage  ")));
    assert!(is_header_line(&chars("\tFilesystems")));
    assert!(!is_header_line(&chars("filesystem")));
    assert!(!is_header_line(&chars("File system")));
    assert!(!is_header_line(&chars("Filesyste")));
    assert!(!is_header_line(&chars("The Filesystem")));
    assert!(!is_header_line(&chars("")));
}

#[test]
fn first_header_line_wins() {
    let lines = vec![chars("title"), chars(""), chars(" Filesystem A"), chars("Filesystem B")];
    assert_eq!(find_header(&lines), Some(2));
    assert_eq!(find_header(&vec![chars("a"), chars("b")]), None);
    assert_eq!(find_header(&Vec::new()), None);
    let q = parse_quota_lines(&lines).unwrap();
    assert_eq!(q.len(), 1);
    assert_eq!(q[0].filesystem, "ilesystem B");
}

#[test]
fn columns_start_where_header_words_start() {
    let cols = read_columns(&chars("  Filesystem  Usage\tOther   Files "));
    assert_eq!(
        cols,
        vec![
            Column { name: "Filesystem".to_string(), start: 2 },
            Column { name: "Usage".to_string(), start: 14 },
            Column { name: "Other".to_string(), start: 20 },
            Column { name: "Files".to_string(), start: 28 },
        ]
    );
    assert!(is_ordered(&cols));
    assert_eq!(read_columns(&chars("")), Vec::new());
    assert_eq!(read_columns(&chars("   \t ")), Vec::new());
    assert_eq!(read_columns(&chars("x")), vec![Column { name: "x".to_string(), start: 0 }]);
}

#[test]
fn column_offsets_count_characters() {
    let cols = read_columns(&chars("Filesystem ü Usage"));
    assert_eq!(cols[2], Column { name: "Usage".to_string(), start: 13 });
    let q = parse_row(&cols, &chars("dätä2      x 55"));
    assert_eq!(q.filesystem, "dätä2");
    assert_eq!(q.usage, "55");
}

#[test]
fn ordering_of_columns_is_decided() {
    let col = |start: usize| Column { name: "x".to_string(), start };
    assert!(is_ordered(&Vec::new()));
    assert!(is_ordered(&vec![col(7)]));
    assert!(is_ordered(&vec![col(0), col(1), col(9)]));
    assert!(!is_ordered(&vec![col(0), col(0)]));
    assert!(!is_ordered(&vec![col(0), col(5), col(4)]));
}

#[test]
fn data_rows_are_what_is_neither_blank_nor_starred() {
    assert!(is_data_line(&chars("data2  55")));
    assert!(is_data_line(&chars("   some stray prose")));
    assert!(is_data_line(&chars("a*")));
    assert!(!is_data_line(&chars("")));
    assert!(!is_data_line(&chars("  \t \u{a0} ")));
    assert!(!is_data_line(&chars("*note")));
    assert!(!is_data_line(&chars("   **BilledUsage is the sum")));
}

#[test]
fn cells_are_cut_at_column_starts() {
    let cols = read_columns(&chars("Filesystem  Usage  Files"));
    let line = chars("data2       55.5   7");
    assert_eq!(cell_range(&cols, 0, &line), (0, 5));
    assert_eq!(cell_range(&cols, 1, &line), (12, 16));
    assert_eq!(cell_range(&cols, 2, &line), (19, 20));
    let short = chars("data2       55");
    assert_eq!(cell_range(&cols, 1, &short), (12, 14));
    let (a, b) = cell_range(&cols, 2, &short);
    assert_eq!(a, b);
    let wide = chars("data2 overflowing 7");
    let (a, b) = cell_range(&cols, 0, &wide);
    assert_eq!(wide[a..b].iter().collect::<String>(), "data2 overfl");
    let (a, b) = cell_range(&cols, 1, &wide);
    assert_eq!(wide[a..b].iter().collect::<String>(), "owing 7");
    let (a, b) = cell_range(&cols, 2, &wide);
    assert_eq!(a, b);
}

#[test]
fn moving_a_cell_within_its_span_changes_nothing() {
    let cols = read_columns(&chars(HEADER));
    let a = parse_row(&cols, &chars("data2           55.542          112             123.2           22054"));
    let b = parse_row(&cols, &chars("data2                 55.542    112             123.2           22054"));
    let c = parse_row(&cols, &chars("data2                     55.542112             123.2           22054"));
    let d = parse_row(&cols, &chars("   data2        55.542             112             123.2        22054   "));
    assert_eq!(a.usage, "55.542");
    assert_eq!(a, b);
    assert_eq!(a, c);
    assert_eq!(a, d);
}

#[test]
fn blank_and_missing_cells_keep_the_default() {
    let cols = read_columns(&chars(HEADER));
    assert_eq!(parse_row(&cols, &chars("")), empty_record());
    assert_eq!(parse_row(&cols, &chars("                       ")), empty_record());
    let q = parse_row(&cols, &chars("data2"));
    assert_eq!(q, Quota { filesystem: "data2".to_string(), ..empty_record() });
    let q = parse_row(&cols, &chars("                55.5"));
    assert_eq!(q, Quota { usage: "55.5".to_string(), ..empty_record() });
    assert_eq!(decimal(&q.soft_quota), 0.0);
    assert_eq!(q.files, 0);
}

#[test]
fn cells_that_write_no_number_read_as_zero() {
    let row = "data2           n/a             -               1e3             many            85,9            --              0x10";
    let q = only_record(&format!("{}\n{}", HEADER, row));
    assert_eq!(q.usage, "n/a");
    assert_eq!(decimal(&q.usage), 0.0);
    assert_eq!(decimal(&q.soft_quota), 0.0);
    assert_eq!(decimal(&q.hard_quota), 1000.0);
    assert_eq!(q.files, 0);
    assert_eq!(decimal(&q.billed_usage), 0.0);
    assert_eq!(decimal(&q.free_snaps), 0.0);
    assert_eq!(decimal(&q.custom_snaps), 0.0);
}

#[test]
fn files_cell_is_read_as_an_integer() {
    let cols = read_columns(&chars("Filesystem Files"));
    let files = |row: &str| parse_row(&cols, &chars(row)).files;
    assert_eq!(files("data2      22054"), 22054);
    assert_eq!(files("data2      +7"), 7);
    assert_eq!(files("data2      007"), 7);
    assert_eq!(files("data2      18446744073709551615"), u64::MAX);
    assert_eq!(files("data2      18446744073709551616"), 0);
    assert_eq!(files("data2      22054.0"), 0);
    assert_eq!(files("data2      -1"), 0);
    assert_eq!(files("data2      12 34"), 0);
    assert_eq!(files("data2      "), 0);
}

#[test]
fn unknown_columns_only_keep_the_offsets_right() {
    let text = "Filesystem  Extra   Usage   More\ndata2       zzz     55      yyy\n";
    let q = only_record(text);
    assert_eq!(q, Quota { filesystem: "data2".to_string(), usage: "55".to_string(), ..empty_record() });
}

#[test]
fn rightmost_filled_column_of_a_name_wins() {
    let cols = read_columns(&chars("Usage  Usage  Usage"));
    assert_eq!(parse_row(&cols, &chars("1      2      3")).usage, "3");
    assert_eq!(parse_row(&cols, &chars("1      2")).usage, "2");
    assert_eq!(parse_row(&cols, &chars("1             ")).usage, "1");
    assert_eq!(parse_row(&cols, &chars("       2      ")).usage, "2");
}

#[test]
fn starred_and_blank_lines_leave_their_neighbours_alone() {
    let plain = format!("{}\ndata1           1\ndata2           2\n", HEADER);
    let noisy = format!(
        "\n*before\n{}\n\n*note\ndata1           1\n   \n  ** more\n\t\ndata2           2\n*end\n\n",
        HEADER
    );
    let a = parse_quota_output(&plain).unwrap();
    let b = parse_quota_output(&noisy).unwrap();
    assert_eq!(a.len(), 2);
    assert_eq!(a, b);
    assert_eq!(a[0].filesystem, "data1");
    assert_eq!(a[0].usage, "1");
    assert_eq!(a[1].filesystem, "data2");
    assert_eq!(a[1].usage, "2");
}

#[test]
fn stray_prose_below_the_header_is_a_row() {
    let text = format!("{}\nsomething went wrong here\n", HEADER);
    let q = only_record(&text);
    assert_eq!(q.filesystem, "something went w");
    assert_eq!(q.usage, "rong here");
    assert_eq!(decimal(&q.usage), 0.0);
}

#[test]
fn lines_above_the_header_are_ignored() {
    let text = format!("data0           9\n\ndata1  8\n{}\ndata2           55\n", HEADER);
    let q = only_record(&text);
    assert_eq!(q.filesystem, "data2");
    assert_eq!(q.usage, "55");
}

#[test]
fn a_second_header_line_is_a_row() {
    let text = format!("{}\n{}\n", HEADER, HEADER);
    let q = only_record(&text);
    assert_eq!(q.filesystem, "Filesystem");
    assert_eq!(q.usage, "Usage");
    assert_eq!(q.files, 0);
}

#[test]
fn carriage_returns_are_whitespace() {
    let text = format!("{}\r\ndata2           55.542\r\n\r\n*note\r\n", HEADER);
    let q = only_record(&text);
    assert_eq!(q.filesystem, "data2");
    assert_eq!(q.usage, "55.542");
    let lines: Vec<Vec<char>> = text.lines().map(|l| l.chars().collect()).collect();
    assert_eq!(parse_quota_lines(&lines), Ok(vec![q]));
}

#[test]
fn cell_texts_are_carried_as_written() {
    let q = only_record(
        "Filesystem      Usage           SoftQuota\ndata2           55.542          112\n",
    );
    assert_eq!(q.usage, "55.542");
    assert_eq!(q.soft_quota, "112");
    assert_eq!(q.hard_quota, "");
    assert_eq!(q.files, 0);
}
