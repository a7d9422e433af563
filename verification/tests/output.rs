use rdap_utils::output::{exit_code, parse_format, OutputFormat};

#[test]
fn format_parsing() {
    assert_eq!("csv".parse::<OutputFormat>().unwrap(), OutputFormat::Csv);
    assert_eq!(
        "jsonl".parse::<OutputFormat>().unwrap(),
        OutputFormat::NdJson
    );
    assert_eq!(
        "JSONSEQ".parse::<OutputFormat>().unwrap(),
        OutputFormat::JsonSeq
    );
    assert!("bogus".parse::<OutputFormat>().is_err());
}

#[test]
fn unknown_format_message_lists_accepted_names() {
    assert_eq!(
        parse_format("BoGus"),
        Err("unknown format 'bogus' (expected one of: csv, json, ndjson, jsonseq)".to_string())
    );
}

#[test]
fn exit_code_is_zero_only_without_failures() {
    assert_eq!(exit_code(&Ok(0)), 0);
    assert_eq!(exit_code(&Ok(3)), 1);
    assert_eq!(exit_code(&Err("x".to_string())), 1);
}

use rdap_utils::output::{csv_table_document, json_array_document, json_lines_document, json_seq_document};

fn strings(v: &[&str]) -> Vec<String> {
    v.iter().map(|s| s.to_string()).collect()
}

fn header() -> Vec<String> {
    strings(&["a", "b", "error"])
}

fn rows() -> Vec<Vec<String>> {
    vec![strings(&["x", "y", ""]), strings(&["z", "w", "boom"])]
}

#[test]
fn csv_output_has_header_and_rows() {
    let buf = csv_table_document(&header(), &rows()).unwrap();
    let s = String::from_utf8(buf).unwrap();
    let lines: Vec<&str> = s.lines().collect();
    assert_eq!(lines[0], "a,b,error");
    assert_eq!(lines[1], "x,y,");
    assert_eq!(lines[2], "z,w,boom");
}

#[test]
fn csv_output_quotes_fields_that_need_it() {
    let r = vec![strings(&["p,q", "say \"hi\"", ""])];
    let s = String::from_utf8(csv_table_document(&header(), &r).unwrap()).unwrap();
    assert_eq!(s, "a,b,error\n\"p,q\",\"say \"\"hi\"\"\",\n");
}

#[test]
fn csv_output_refuses_rows_of_another_width() {
    assert!(csv_table_document(&header(), &vec![strings(&["only"])]).is_none());
}

#[test]
fn jsonseq_output_empty_is_empty() {
    let buf = json_seq_document(&Vec::new());
    assert!(buf.is_empty());
}

/// The JSON objects of the sample rows, keyed by the header.
fn objects() -> Vec<serde_json::Value> {
    rows()
        .into_iter()
        .map(|row| {
            let mut m = serde_json::Map::new();
            for (k, v) in header().into_iter().zip(row) {
                m.insert(k, serde_json::Value::String(v));
            }
            serde_json::Value::Object(m)
        })
        .collect()
}

fn texts() -> Vec<Vec<u8>> {
    objects().iter().map(|o| serde_json::to_vec(o).unwrap()).collect()
}

#[test]
fn json_output_is_an_array() {
    let array = serde_json::to_vec_pretty(&serde_json::Value::Array(objects())).unwrap();
    let buf = json_array_document(&array);
    let v: serde_json::Value = serde_json::from_slice(&buf).unwrap();
    assert!(v.is_array());
    assert_eq!(v.as_array().unwrap().len(), 2);
    assert_eq!(v[0]["error"], "");
    assert_eq!(v[1]["error"], "boom");
}

#[test]
fn jsonseq_output_uses_rfc7464_separators() {
    let buf = json_seq_document(&texts());
    assert_eq!(buf[0], 0x1f);
    // exactly one 0x1E separator between the two records
    assert_eq!(buf.iter().filter(|&&b| b == 0x1e).count(), 1);
    let sep = buf.iter().position(|&b| b == 0x1e).unwrap();
    assert!(serde_json::from_slice::<serde_json::Value>(&buf[1..sep]).is_ok());
    assert!(serde_json::from_slice::<serde_json::Value>(&buf[sep + 1..]).is_ok());
    let small = vec![b"{\"a\":1}".to_vec(), b"{\"b\":2}".to_vec()];
    assert_eq!(json_seq_document(&small), b"\x1f{\"a\":1}\x1e{\"b\":2}".to_vec());
}

#[test]
fn ndjson_output_is_one_object_per_line() {
    let buf = json_lines_document(&texts());
    let s = String::from_utf8(buf).unwrap();
    let lines: Vec<&str> = s.lines().collect();
    assert_eq!(lines.len(), 2);
    for line in lines {
        let v: serde_json::Value = serde_json::from_str(line).unwrap();
        assert!(v.is_object());
    }
    let small = vec![b"{\"a\":1}".to_vec(), b"{\"b\":2}".to_vec()];
    assert_eq!(json_lines_document(&small), b"{\"a\":1}\n{\"b\":2}\n".to_vec());
}

#[test]
fn json_array_document_ends_with_newline() {
    assert_eq!(json_array_document(&b"[]".to_vec()), b"[]\n".to_vec());
}

#[test]
fn format_names_round_trip() {
    for f in [OutputFormat::Csv, OutputFormat::Json, OutputFormat::NdJson, OutputFormat::JsonSeq] {
        assert_eq!(parse_format(f.name()), Ok(f));
    }
    assert_eq!(parse_format("json-lines"), Ok(OutputFormat::NdJson));
    assert_eq!(parse_format("Json-Sequences"), Ok(OutputFormat::JsonSeq));
}
