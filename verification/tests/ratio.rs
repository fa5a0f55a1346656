use dscan11::ratio::{filled_cells, format_percent, format_scope_percent, percent_value};
use dscan11::table::{print_entries, truncate_end, truncate_middle, Row};

fn numbers() -> Vec<u64> {
    let mut list = vec![
        0,
        1,
        2,
        3,
        7,
        50,
        199,
        200,
        1_000,
        1_001,
        123_456_789,
        (1 << 53) - 1,
        (1 << 53) + 1,
        (1 << 60) + 12_345,
        u64::MAX - 1,
        u64::MAX,
    ];
    let mut x: u64 = 0x9e37_79b9_7f4a_7c15;
    for shift in 0..120u32 {
        x ^= x << 13;
        x ^= x >> 7;
        x ^= x << 17;
        list.push(x >> (shift % 60));
    }
    list
}

#[test]
fn formats_drive_percentages() {
    assert_eq!(format_percent(50, Some(200)).as_deref(), Some("25.0%"));
    assert_eq!(format_percent(1, Some(3)).as_deref(), Some("33.3%"));
    assert_eq!(format_percent(50, Some(0)), None);
    assert_eq!(format_percent(50, None), None);
    assert_eq!(format_scope_percent(50, Some(200)), "50 B / 200 B (25.0%)");
    assert_eq!(format_scope_percent(50, None), "50 B / n/a (n/a)");
}

#[test]
fn percentages_are_those_of_doubles() {
    for part in numbers() {
        for whole in numbers() {
            if whole == 0 {
                assert_eq!(percent_value(part, Some(whole)), None);
                continue;
            }
            let percent = part as f64 / whole as f64 * 100.0;
            assert_eq!(
                percent_value(part, Some(whole)).expect("percent").bits,
                percent.to_bits(),
                "{part} of {whole}"
            );
            assert_eq!(
                format_percent(part, Some(whole)),
                Some(format!("{percent:.1}%")),
                "{part} of {whole}"
            );
        }
    }
}

#[test]
fn bars_are_filled_as_doubles_round() {
    for part in numbers() {
        for whole in numbers() {
            let ratio = if whole == 0 {
                0.0
            } else {
                part as f64 / whole as f64
            };
            let expected = ((ratio * 24f64).round() as usize).min(24);
            assert_eq!(filled_cells(part, whole, 24), expected, "{part} of {whole}");
        }
    }
}

#[test]
fn texts_are_cut_to_fit() {
    assert_eq!(truncate_middle("abcdefghij", 10), "abcdefghij");
    assert_eq!(truncate_middle("abcdefghij", 8), "ab...hij");
    assert_eq!(truncate_middle("abcdefghij", 2), "..");
    assert_eq!(truncate_end("abcdefghij", 8), "abcde...");
    assert_eq!(truncate_end("\u{e4}\u{f6}\u{fc}\u{df}", 4), "\u{e4}\u{f6}\u{fc}\u{df}");
    assert_eq!(truncate_end("abcd", 3), "...");
}

#[test]
fn tables_have_fixed_columns() {
    let row = |percent: Option<&str>| Row {
        label: "x".repeat(40),
        size_bytes: 1_536,
        allocated_bytes: 2_048,
        usage_bytes: 1,
        percent: percent.map(str::to_string),
        detail: "a rather long detail".to_string(),
    };
    let mut out = vec!["title".to_string()];
    print_entries(&mut out, &vec![row(None)], 2, false, Some("90"));
    assert_eq!(out.len(), 3);
    assert_eq!(
        out[1],
        format!(
            "{:<24} {:>10}  {:>10}  {:<24}  {:<18}",
            "Name", "Size", "On Disk", "Usage", "Details"
        )
    );
    assert_eq!(
        out[2],
        format!(
            "{:<24} {:>10}  {:>10}  {}{}  {:<18}",
            format!("{}...{}", "x".repeat(10), "x".repeat(11)),
            "1.50 KB",
            "2.00 KB",
            "#".repeat(12),
            "-".repeat(12),
            "a rather long d..."
        )
    );
    let mut wide = Vec::new();
    print_entries(&mut wide, &vec![row(Some("1.5%")), row(None)], 0, true, Some("130"));
    assert_eq!(
        wide[0],
        format!(
            "{:<48} {:>10}  {:>10}  {:>8}  {:<24}  {:<18}",
            "Name", "Size", "On Disk", "% Drive", "Usage", "Details"
        )
    );
    assert!(wide[1].contains("      1.5%  ------------------------  "));
    assert!(wide[2].contains("       n/a  "));
    let mut none = Vec::new();
    print_entries(&mut none, &vec![], 0, true, None);
    assert_eq!(none, vec!["No cached entries."]);
}
