use parsing::error::{ErrorKind, ErrorLocation, ParseError};

#[test]
fn test_empty_data_error() {
    let err = ParseError::empty_data();
    assert_eq!(err.kind, ErrorKind::EmptyData);
    assert!(err.suggestion.is_some());
    println!("{}", err.to_string());
}

#[test]
fn test_invalid_key_column_error() {
    let err = ParseError::invalid_key_column("id");
    assert_eq!(err.kind, ErrorKind::InvalidKeyColumn);
    assert!(err.location.is_some());
    let loc = err.location.as_ref().unwrap();
    assert_eq!(loc.row, Some(0));
    println!("{}", err.to_string());
}

#[test]
fn test_duplicate_key_error() {
    let err = ParseError::duplicate_key("common.hello", 5, 15);
    assert_eq!(err.kind, ErrorKind::DuplicateKey);
    println!("{}", err.to_string());
}

#[test]
fn test_error_chaining() {
    let err = ParseError::new(ErrorKind::InvalidKeyFormat, "Key contains invalid characters")
        .with_key("hello world")
        .at_row(10)
        .with_suggestion("Remove spaces from key names");

    println!("{}", err.to_string());
    assert!(err.to_string().contains("row 11")); // 1-based
    assert!(err.to_string().contains("hello world"));
}

#[test]
fn invalid_key_column_is_located_at_header_first_column() {
    let err = ParseError::invalid_key_column("id");
    let loc = err.location.as_ref().unwrap();
    assert_eq!(loc.row, Some(0));
    assert_eq!(loc.column, Some(1));
    assert_eq!(loc.column_name.as_deref(), Some("id"));
    assert_eq!(loc.key, None);
    assert_eq!(err.message, "Invalid header: first column must be 'key', but found 'id'");
    assert_eq!(
        err.to_string(),
        "[INVALID_KEY_COLUMN] Invalid header: first column must be 'key', but found 'id' at row 1, column 1 ('id'). Suggestion: Rename the first column to 'key' (case-insensitive)"
    );
}

#[test]
fn display_without_location_or_suggestion() {
    let err = ParseError::new(ErrorKind::Unknown, "something");
    assert_eq!(err.to_string(), "[UNKNOWN_ERROR] something");
    let err = ParseError::worksheet_read_error("Sheet1", "broken");
    assert_eq!(err.kind, ErrorKind::WorksheetReadError);
    assert_eq!(err.to_string(), "[WORKSHEET_READ_ERROR] Failed to read worksheet 'Sheet1': broken");
}

#[test]
fn display_with_column_without_name_and_key() {
    let err = ParseError::new(ErrorKind::Unknown, "m").at_column(3, None).with_key("a.b");
    assert_eq!(err.to_string(), "[UNKNOWN_ERROR] m at column 3, key 'a.b'");
    let err = ParseError::new(ErrorKind::Unknown, "m").with_location(ErrorLocation {
        row: None,
        column: None,
        column_name: Some("en".to_string()),
        key: None,
    });
    assert_eq!(err.to_string(), "[UNKNOWN_ERROR] m");
}

#[test]
fn builders_keep_what_is_there() {
    let err = ParseError::new(ErrorKind::Unknown, "m").with_key("k").at_row(4).at_column(
        2,
        Some("ko".to_string()),
    );
    let loc = err.location.as_ref().unwrap();
    assert_eq!(loc.row, Some(4));
    assert_eq!(loc.column, Some(2));
    assert_eq!(loc.column_name.as_deref(), Some("ko"));
    assert_eq!(loc.key.as_deref(), Some("k"));
    assert_eq!(loc.display_row(), Some(5));
    let replaced = err.with_location(ErrorLocation {
        row: Some(1),
        column: None,
        column_name: None,
        key: None,
    });
    assert_eq!(replaced.location.as_ref().unwrap().key, None);
}

#[test]
fn row_is_shown_one_based_even_at_the_largest_row() {
    let err = ParseError::new(ErrorKind::Unknown, "m").at_row(usize::MAX);
    let expected = format!("[UNKNOWN_ERROR] m at row {}", usize::MAX as u128 + 1);
    assert_eq!(err.to_string(), expected);
}

#[test]
fn mixed_separators_lists_each_separator_once_in_order() {
    let err = ParseError::mixed_separators(vec!['/', '-', '/', '-'], ".", Some(2));
    assert_eq!(err.kind, ErrorKind::MixedSeparators);
    assert_eq!(
        err.message,
        "Mixed key separators found: expected '.', but found: -, / (row 2)"
    );
    let loc = err.location.as_ref().unwrap();
    assert_eq!(loc.row, Some(2));
    assert_eq!(loc.column, Some(1));
    assert_eq!(loc.column_name.as_deref(), Some("key"));
    assert_eq!(
        err.suggestion.as_deref(),
        Some("Use a single separator consistently ('.', '/', or '-')")
    );
    let err = ParseError::mixed_separators(vec!['/'], "-", None);
    assert_eq!(err.message, "Mixed key separators found: expected '-', but found: /");
    assert_eq!(err.location.as_ref().unwrap().row, None);
}

#[test]
fn messages_of_the_data_errors() {
    let err = ParseError::column_count_mismatch(7, 3, 5);
    assert_eq!(err.kind, ErrorKind::ColumnCountMismatch);
    assert_eq!(
        err.message,
        "Column count mismatch: expected 3 columns (from header), but found 5 (row 7)"
    );
    assert_eq!(err.location.as_ref().unwrap().row, Some(7));

    let err = ParseError::duplicate_key("common.hello", 5, 15);
    assert_eq!(
        err.message,
        "Duplicate key 'common.hello' found at row 15 (first occurrence at row 5)"
    );
    assert_eq!(err.location.as_ref().unwrap().row, Some(15));
    assert_eq!(err.location.as_ref().unwrap().key.as_deref(), Some("common.hello"));

    let err = ParseError::invalid_key_format("a b", 3, "spaces");
    assert_eq!(err.kind, ErrorKind::InvalidKeyFormat);
    assert_eq!(err.message, "Invalid key 'a b' at row 3: spaces");
    assert!(err.suggestion.is_none());

    let err = ParseError::missing_translation("a", "ko", 9);
    assert_eq!(err.kind, ErrorKind::MissingTranslation);
    assert_eq!(err.message, "Missing translation for key 'a' in language 'ko' at row 9");
    let loc = err.location.as_ref().unwrap();
    assert_eq!((loc.row, loc.column), (Some(9), Some(0)));
    assert_eq!(loc.column_name.as_deref(), Some("ko"));

    let err = ParseError::nested_key_conflict("a", "a.b");
    assert_eq!(err.kind, ErrorKind::NestedKeyConflict);
    assert_eq!(
        err.message,
        "Nested key conflict: 'a' and 'a.b' cannot coexist (one is a prefix of the other)"
    );
}

#[test]
fn messages_of_the_file_errors() {
    assert_eq!(ParseError::no_language_columns().kind, ErrorKind::NoLanguageColumns);
    assert_eq!(ParseError::no_language_columns().location.as_ref().unwrap().row, Some(0));
    let err = ParseError::excel_open_error("bad");
    assert_eq!(err.kind, ErrorKind::ExcelOpenError);
    assert_eq!(err.message, "Failed to open Excel file: bad");
    assert_eq!(ParseError::empty_workbook().kind, ErrorKind::EmptyWorkbook);
    assert_eq!(ParseError::empty_workbook().message, "Excel workbook has no sheets");
    assert_eq!(ParseError::empty_sheet().kind, ErrorKind::EmptySheet);
    assert_eq!(ParseError::empty_sheet().message, "Excel sheet is empty");
    let err = ParseError::csv_failure("oops", Some(3));
    assert_eq!(err.kind, ErrorKind::CsvParseError);
    assert_eq!(err.message, "CSV parsing error: oops (row 3)");
    assert_eq!(err.location.as_ref().unwrap().row, Some(3));
    let err = ParseError::csv_failure("oops", None);
    assert_eq!(err.message, "CSV parsing error: oops");
    assert!(err.location.is_none());
    let err = ParseError::utf8_failure(12);
    assert_eq!(err.kind, ErrorKind::Utf8Error);
    assert_eq!(err.message, "Invalid UTF-8 encoding at byte 12");
    assert_eq!(ParseError::io_failure("disk").message, "IO error: disk");
    assert_eq!(ParseError::io_failure("disk").kind, ErrorKind::IoError);
    assert_eq!(
        ParseError::json_serialize_failure("x").message,
        "Failed to serialize to JSON: x"
    );
    assert_eq!(ParseError::json_serialize_failure("x").kind, ErrorKind::JsonSerializeError);
    assert_eq!(
        ParseError::yaml_serialize_failure("x").message,
        "Failed to serialize to YAML: x"
    );
    assert_eq!(ParseError::yaml_serialize_failure("x").kind, ErrorKind::YamlSerializeError);
    assert_eq!(ParseError::invalid_json_root("en").kind, ErrorKind::JsonParseError);
}

#[test]
fn errors_of_outside_readers_keep_their_text() {
    let bad = std::str::from_utf8(&[b'a', 0xff, b'b']).unwrap_err();
    let err = ParseError::utf8_error(&bad);
    assert_eq!(err.kind, ErrorKind::Utf8Error);
    assert_eq!(err.message, "Invalid UTF-8 encoding at byte 1");

    let io = std::io::Error::new(std::io::ErrorKind::Other, "no disk");
    let err = ParseError::io_error(&io);
    assert_eq!(err.kind, ErrorKind::IoError);
    assert_eq!(err.message, "IO error: no disk");

    let json = serde_json::from_str::<serde_json::Value>("{").unwrap_err();
    let text = json.to_string();
    let err = ParseError::json_serialize_error(json);
    assert_eq!(err.kind, ErrorKind::JsonSerializeError);
    assert_eq!(err.message, format!("Failed to serialize to JSON: {}", text));

    let json = serde_json::from_str::<serde_json::Value>("[1,").unwrap_err();
    let text = json.to_string();
    let err = ParseError::json_parse_error("ko", json);
    assert_eq!(err.kind, ErrorKind::JsonParseError);
    assert_eq!(err.message, format!("Failed to parse JSON for language 'ko': {}", text));

    let yaml = serde_yaml::from_str::<serde_yaml::Value>("a: [").unwrap_err();
    let text = yaml.to_string();
    let err = ParseError::yaml_serialize_error(yaml);
    assert_eq!(err.kind, ErrorKind::YamlSerializeError);
    assert_eq!(err.message, format!("Failed to serialize to YAML: {}", text));
}

#[test]
fn kind_names() {
    assert_eq!(ErrorKind::EmptyData.to_string(), "EMPTY_DATA");
    assert_eq!(ErrorKind::InvalidKeyColumn.name(), "INVALID_KEY_COLUMN");
    assert_eq!(ErrorKind::NoLanguageColumns.name(), "NO_LANGUAGE_COLUMNS");
    assert_eq!(ErrorKind::MixedSeparators.name(), "MIXED_SEPARATORS");
    assert_eq!(ErrorKind::CsvParseError.name(), "CSV_PARSE_ERROR");
    assert_eq!(ErrorKind::Utf8Error.name(), "UTF8_ERROR");
    assert_eq!(ErrorKind::ExcelOpenError.name(), "EXCEL_OPEN_ERROR");
    assert_eq!(ErrorKind::EmptyWorkbook.name(), "EMPTY_WORKBOOK");
    assert_eq!(ErrorKind::EmptySheet.name(), "EMPTY_SHEET");
    assert_eq!(ErrorKind::WorksheetReadError.name(), "WORKSHEET_READ_ERROR");
    assert_eq!(ErrorKind::DuplicateKey.name(), "DUPLICATE_KEY");
    assert_eq!(ErrorKind::InvalidKeyFormat.name(), "INVALID_KEY_FORMAT");
    assert_eq!(ErrorKind::MissingTranslation.name(), "MISSING_TRANSLATION");
    assert_eq!(ErrorKind::ColumnCountMismatch.name(), "COLUMN_COUNT_MISMATCH");
    assert_eq!(ErrorKind::NestedKeyConflict.name(), "NESTED_KEY_CONFLICT");
    assert_eq!(ErrorKind::JsonParseError.name(), "JSON_PARSE_ERROR");
    assert_eq!(ErrorKind::JsonSerializeError.name(), "JSON_SERIALIZE_ERROR");
    assert_eq!(ErrorKind::YamlSerializeError.name(), "YAML_SERIALIZE_ERROR");
    assert_eq!(ErrorKind::IoError.name(), "IO_ERROR");
    assert_eq!(ErrorKind::Unknown.name(), "UNKNOWN_ERROR");
}

#[test]
fn outside_errors_convert_into_parse_errors() {
    let bad = std::str::from_utf8(&[0xc3, 0x28]).unwrap_err();
    let err: ParseError = bad.into();
    assert_eq!(err.kind, ErrorKind::Utf8Error);
    assert_eq!(err.message, "Invalid UTF-8 encoding at byte 0");
    let err: ParseError = std::io::Error::new(std::io::ErrorKind::Other, "gone").into();
    assert_eq!(err.message, "IO error: gone");
    let json = serde_json::from_str::<serde_json::Value>("nul").unwrap_err();
    let text = json.to_string();
    let err: ParseError = json.into();
    assert_eq!(err.message, format!("Failed to serialize to JSON: {}", text));
    let workbook = calamine::Error::Msg("no such sheet");
    let text = workbook.to_string();
    let err: ParseError = workbook.into();
    assert_eq!(err.kind, ErrorKind::ExcelOpenError);
    assert_eq!(err.message, format!("Excel error: {}", text));
    assert_eq!(ParseError::excel_error(&calamine::Error::Msg("x")).message, "Excel error: x");
    let mut reader = csv::ReaderBuilder::new().from_reader(&b"a,b\n1,2,3\n"[..]);
    let failure = reader.records().next().unwrap().unwrap_err();
    let text = failure.to_string();
    let direct = ParseError::csv_parse_error(&failure);
    assert_eq!(direct.kind, ErrorKind::CsvParseError);
    assert_eq!(direct.message, format!("CSV parsing error: {} (row 2)", text));
    assert_eq!(direct.location.as_ref().unwrap().row, Some(2));
    let err: ParseError = failure.into();
    assert_eq!(err.message, direct.message);
}

#[test]
fn test_error_to_json() {
    let err = ParseError::invalid_key_column("id");
    let json = err.to_json();
    println!("{}", json);
    assert!(json.contains("INVALID_KEY_COLUMN"));
    assert!(json.contains("\"row\":1")); // 1-based
}

#[test]
fn error_as_json_holds_every_part() {
    let err = ParseError::invalid_key_column("id");
    let value: serde_json::Value = serde_json::from_str(&err.to_json()).unwrap();
    assert_eq!(value["error"], serde_json::Value::Bool(true));
    assert_eq!(value["kind"], "INVALID_KEY_COLUMN");
    assert_eq!(value["message"], "Invalid header: first column must be 'key', but found 'id'");
    assert_eq!(value["location"]["row"], 1);
    assert_eq!(value["location"]["column"], 1);
    assert_eq!(value["location"]["columnName"], "id");
    assert!(value["location"]["key"].is_null());
    assert_eq!(value["suggestion"], "Rename the first column to 'key' (case-insensitive)");
    assert_eq!(value["fullMessage"], err.to_string().as_str());
    assert_eq!(value.as_object().unwrap().len(), 6);
    let bare = ParseError::new(ErrorKind::Unknown, "say \"x\"\n");
    assert_eq!(
        bare.to_json(),
        "{\"error\":true,\"fullMessage\":\"[UNKNOWN_ERROR] say \\\"x\\\"\\n\",\"kind\":\"UNKNOWN_ERROR\",\"location\":null,\"message\":\"say \\\"x\\\"\\n\",\"suggestion\":null}"
    );
    let doc = bare.with_key("k").to_document();
    assert_eq!(doc.keys(), vec!["error", "fullMessage", "kind", "location", "message", "suggestion"]);
    let location = doc.get("location").unwrap().as_object().unwrap();
    assert_eq!(location.keys(), vec!["column", "columnName", "key", "row"]);
    assert_eq!(location.get("key").unwrap().as_str(), Some("k"));
}
