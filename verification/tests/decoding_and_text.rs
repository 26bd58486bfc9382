use sentrix::calendar::civil_from_days;
use sentrix::platform::win_helpers::{decode_output, has_content, parse_csv_line, CsvTable};
use sentrix::report::epoch_to_iso;
use sentrix::platform::patterns::matches_any_pattern;
use sentrix::text::{lines_of, str_contains, trimmed_string};

// ===== Decoding tool output =====

#[test]
fn decode_utf16le_mark_then_units() {
    assert_eq!(decode_output(&[0xFF, 0xFE, b'h', 0, b'i', 0]), "hi");
    // An odd last byte is dropped.
    assert_eq!(decode_output(&[0xFF, 0xFE, b'a', 0, b'b']), "a");
}

#[test]
fn decode_utf16be_mark_then_units() {
    assert_eq!(decode_output(&[0xFE, 0xFF, 0, b'h', 0, b'i']), "hi");
}

#[test]
fn decode_nul_heavy_text_as_utf16le() {
    assert_eq!(decode_output(&[b'a', 0, b'b', 0]), "ab");
    assert_eq!(decode_output(&[b'a', 0, b'b']), "a");
}

#[test]
fn decode_utf8_mark_is_dropped() {
    assert_eq!(decode_output(&[0xEF, 0xBB, 0xBF, b'x', b'y']), "xy");
    assert_eq!(decode_output(&[0xEF, 0xBB, 0xBF, b'a', 0, b'b', 0]), "ab");
}

#[test]
fn decode_utf16_with_surrogate_pairs() {
    let text = "a\u{1F600}b\u{10FFFF}\u{FFFD}";
    let mut le: Vec<u8> = vec![0xFF, 0xFE];
    le.extend(text.encode_utf16().flat_map(|u| u.to_le_bytes()));
    assert_eq!(decode_output(&le), text);
    let mut be: Vec<u8> = vec![0xFE, 0xFF];
    be.extend(text.encode_utf16().flat_map(|u| u.to_be_bytes()));
    assert_eq!(decode_output(&be), text);
    // A high surrogate not followed by a low one is replaced on its own.
    assert_eq!(decode_output(&[0xFF, 0xFE, 0x00, 0xD8, b'a', 0]), "\u{FFFD}a");
}

#[test]
fn decode_replaces_invalid_data() {
    assert_eq!(decode_output(&[b'a', 0xFF, b'b']), "a\u{FFFD}b");
    assert_eq!(decode_output(&[0xFF, 0xFE, 0x00, 0xD8]), "\u{FFFD}");
    assert_eq!(decode_output(&[]), "");
}

#[test]
fn output_with_content() {
    assert!(has_content(" x "));
    assert!(!has_content(" \r\n\t"));
    assert!(!has_content(""));
}

// ===== CSV =====

#[test]
fn csv_fields_written_quoted_read_back() {
    let fields = ["a\"b", "c\\d", "x,y", "", "plain"];
    let line: Vec<String> = fields
        .iter()
        .map(|f| format!("\"{}\"", f.replace('\\', "\\\\").replace('"', "\"\"")))
        .collect();
    let line = line.join(",");
    assert_eq!(line, "\"a\"\"b\",\"c\\\\d\",\"x,y\",\"\",\"plain\"");
    assert_eq!(parse_csv_line(&line), fields.to_vec());
}

#[test]
fn csv_fields_with_only_quotes_doubled_read_back() {
    let fields = ["a\"b", "C:\\dir\\x.exe", "x,y", "\\"];
    let line: Vec<String> = fields
        .iter()
        .map(|f| format!("\"{}\"", f.replace('"', "\"\"")))
        .collect();
    let line = line.join(",");
    assert_eq!(line, "\"a\"\"b\",\"C:\\dir\\x.exe\",\"x,y\",\"\\\"");
    assert_eq!(parse_csv_line(&line), fields.to_vec());
}

#[test]
fn csv_edge_cases() {
    assert_eq!(parse_csv_line(""), vec![""]);
    assert_eq!(parse_csv_line(","), vec!["", ""]);
    assert_eq!(parse_csv_line("a,b,"), vec!["a", "b", ""]);
    // An unterminated quote runs to the end of the line.
    assert_eq!(parse_csv_line("\"a,b"), vec!["a,b"]);
    // Outside quotes a backslash is kept as it is.
    assert_eq!(parse_csv_line("C:\\\\x,y"), vec!["C:\\\\x", "y"]);
}

#[test]
fn csv_table_rows_and_lookup() {
    let t = CsvTable::parse("\n  Name , PID \nfoo, 1 \n\nbar,2,extra\nbaz\n");
    assert_eq!(t.row_count(), 3);
    assert_eq!(t.rows.len(), 3);
    assert_eq!(t.get(t.row(0), "name"), Some("foo"));
    assert_eq!(t.get(t.row(0), "pid"), Some("1"));
    assert_eq!(t.get(t.row(1), "pid"), Some("2"));
    assert_eq!(t.get(t.row(2), "pid"), None);
    assert_eq!(t.get(t.row(0), "Name"), None);
    assert_eq!(t.get(t.row(0), "missing"), None);
    let empty = CsvTable::parse("   \n\n");
    assert_eq!(empty.row_count(), 0);
}

// ===== Calendar =====

#[test]
fn epoch_to_iso_more_values() {
    assert_eq!(epoch_to_iso(86_399), "1970-01-01T23:59:59Z");
    assert_eq!(epoch_to_iso(1_709_164_800), "2024-02-29T00:00:00Z");
    assert_eq!(epoch_to_iso(951_868_799), "2000-02-29T23:59:59Z");
    assert_eq!(epoch_to_iso(253_402_300_799), "9999-12-31T23:59:59Z");
    assert_eq!(epoch_to_iso(253_402_300_800), "10000-01-01T00:00:00Z");
    assert_eq!(epoch_to_iso(u64::MAX), "584554051223-11-09T07:00:15Z");
}

#[test]
fn later_times_give_later_texts() {
    let times = [0u64, 59, 60, 3_599, 86_399, 86_400, 951_782_399, 951_782_400, 4_107_542_400, 253_402_300_799];
    for w in times.windows(2) {
        assert!(epoch_to_iso(w[0]) < epoch_to_iso(w[1]), "{} {}", w[0], w[1]);
    }
}

#[test]
fn civil_dates_of_days() {
    assert_eq!(civil_from_days(0), (1970, 1, 1));
    assert_eq!(civil_from_days(59), (1970, 3, 1));
    assert_eq!(civil_from_days(11_016), (2000, 2, 29));
    assert_eq!(civil_from_days(47_540), (2100, 2, 28));
    assert_eq!(civil_from_days(47_541), (2100, 3, 1));
}

// ===== Text =====

#[test]
fn text_helpers() {
    // Lowercasing goes beyond ASCII.
    assert!(matches_any_pattern("MiXeD ÄÖ", &["mixed äö".to_string()]));
    assert_eq!(trimmed_string(" \t x y \u{3000}\n"), "x y");
    assert!(str_contains("hello world", "o w"));
    assert!(str_contains("abc", ""));
    assert!(!str_contains("abc", "abcd"));
    assert_eq!(lines_of("a\r\nb\n\nc"), vec!["a", "b", "", "c"]);
    assert_eq!(lines_of("a\n"), vec!["a"]);
    assert!(lines_of("").is_empty());
}
