use sentrix::platform::win_helpers::{decode_output, parse_csv_line, CsvTable};

#[test]
fn test_decode_utf16le_with_bom() {
    // "powershell" in UTF-16LE with BOM.
    let mut raw: Vec<u8> = vec![0xFF, 0xFE];
    raw.extend("powershell".encode_utf16().flat_map(|u| u.to_le_bytes()));
    assert_eq!(decode_output(&raw), "powershell");
}

#[test]
fn test_decode_bomless_utf16le() {
    let raw: Vec<u8> = "mshta"
        .encode_utf16()
        .flat_map(|u| u.to_le_bytes())
        .collect();
    assert_eq!(decode_output(&raw), "mshta");
}

#[test]
fn test_decode_utf16be_with_bom() {
    let mut raw: Vec<u8> = vec![0xFE, 0xFF];
    raw.extend("certutil".encode_utf16().flat_map(|u| u.to_be_bytes()));
    assert_eq!(decode_output(&raw), "certutil");
}

#[test]
fn test_decode_utf8_passthrough() {
    assert_eq!(decode_output(b"plain ascii"), "plain ascii");
    assert_eq!(decode_output("\u{00e9}".as_bytes()), "\u{00e9}");
    let mut bommed: Vec<u8> = vec![0xEF, 0xBB, 0xBF];
    bommed.extend(b"ok");
    assert_eq!(decode_output(&bommed), "ok");
}

#[test]
fn test_parse_csv_line_with_quoted_commas() {
    let line = r#"Node,"C:\path with,comma\evil.exe","evil, name",1234"#;
    let fields = parse_csv_line(line);
    assert_eq!(fields[0], "Node");
    assert_eq!(fields[1], r"C:\path with,comma\evil.exe");
    assert_eq!(fields[2], "evil, name");
    assert_eq!(fields[3], "1234");
}

#[test]
fn test_parse_csv_line_strips_tasklist_quotes() {
    let line = r#""chrome.exe","1234","Console""#;
    let fields = parse_csv_line(line);
    assert_eq!(fields, vec!["chrome.exe", "1234", "Console"]);
}

#[test]
fn test_parse_csv_line_escaped_quotes() {
    let line = r#"a,"say ""hi""",b"#;
    let fields = parse_csv_line(line);
    assert_eq!(fields[1], r#"say "hi""#);
}

#[test]
fn test_csv_table_lookup_by_header_name() {
    let table = CsvTable::parse(
        "Node,ExecutablePath,Name,ProcessId\r\nDESKTOP,C:\\path\\evil.exe,evil.exe,4242\r\n",
    );
    assert_eq!(table.rows.len(), 1);
    let row = &table.rows[0];
    assert_eq!(table.get(row, "executablepath"), Some(r"C:\path\evil.exe"));
    assert_eq!(table.get(row, "name"), Some("evil.exe"));
    assert_eq!(table.get(row, "processid"), Some("4242"));
    assert_eq!(table.get(row, "missing"), None);
}

#[test]
fn test_csv_table_handles_quoted_paths_with_commas() {
    let text = String::from(r#""ProcessId","Name","ExecutablePath""#)
        + "\r\n"
        + r#""7","svc, host","C:\\Program Files, Sub\\a.exe""#;
    let table = CsvTable::parse(&text);
    let row = &table.rows[0];
    assert_eq!(table.get(row, "name"), Some("svc, host"));
    assert_eq!(
        table.get(row, "executablepath"),
        Some(r"C:\Program Files, Sub\a.exe")
    );
}
