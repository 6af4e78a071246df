use parsing::error::ErrorKind;
use parsing::parser::csv::{parse, parse_header_only, parse_records};
use parsing::parser::{assemble, build_nested_value, separator_of, validate_header};
use parsing::types::{OutputFormat, ParseOptions};
use parsing::value::{JsonMap, JsonValue};

fn text<'a>(value: Option<&'a JsonValue>) -> Option<&'a str> {
    value.and_then(|v| v.as_str())
}

fn strings(cells: &[&str]) -> Vec<String> {
    cells.iter().map(|c| c.to_string()).collect()
}

#[test]
fn test_validate_header_valid() {
    let headers = vec![
        "key".to_string(),
        "en".to_string(),
        "ko".to_string(),
        "ja".to_string(),
    ];
    let info = validate_header(&headers).unwrap();

    assert!(info.has_valid_key_column);
    assert_eq!(info.languages, vec!["en", "ko", "ja"]);
    assert_eq!(info.language_indices.get("en"), Some(&1));
    assert_eq!(info.language_indices.get("ko"), Some(&2));
    assert_eq!(info.language_indices.get("ja"), Some(&3));
}

#[test]
fn test_validate_header_invalid_key() {
    let headers = vec!["id".to_string(), "en".to_string()];
    let result = validate_header(&headers);
    assert!(result.is_err());
}

#[test]
fn test_validate_header_no_languages() {
    let headers = vec!["key".to_string()];
    let result = validate_header(&headers);
    assert!(result.is_err());
}

#[test]
fn test_build_nested_value() {
    let mut map = JsonMap::new();
    build_nested_value(&mut map, "common.button.submit", "Submit", ".");

    let common = map.get("common").unwrap().as_object().unwrap();
    let button = common.get("button").unwrap().as_object().unwrap();
    let submit = button.get("submit").unwrap().as_str().unwrap();

    assert_eq!(submit, "Submit");
}

#[test]
fn test_parse_simple_csv() {
    let csv_str = "key,en,ko\ngreeting,Hello,안녕하세요\nfarewell,Goodbye,안녕히 가세요";
    let csv_data = csv_str.as_bytes();

    let options = ParseOptions::default();
    let result = parse(csv_data, &options).unwrap();

    assert_eq!(result.languages, vec!["en", "ko"]);
    assert_eq!(result.row_count, 2);

    let en = result.data.get("en").unwrap();
    assert_eq!(text(en.get("greeting")).unwrap(), "Hello");
    assert_eq!(text(en.get("farewell")).unwrap(), "Goodbye");

    let ko = result.data.get("ko").unwrap();
    assert_eq!(text(ko.get("greeting")).unwrap(), "안녕하세요");
    assert_eq!(text(ko.get("farewell")).unwrap(), "안녕히 가세요");
}

#[test]
fn test_parse_nested_keys() {
    let csv_str = "key,en,ko\ncommon.button.submit,Submit,제출\ncommon.button.cancel,Cancel,취소";
    let csv_data = csv_str.as_bytes();

    let options = ParseOptions {
        separator: ".".to_string(),
        nested: true,
        ..Default::default()
    };
    let result = parse(csv_data, &options).unwrap();

    let en = result.data.get("en").unwrap();
    let common = en.get("common").unwrap().as_object().unwrap();
    let button = common.get("button").unwrap().as_object().unwrap();

    assert_eq!(text(button.get("submit")).unwrap(), "Submit");
    assert_eq!(text(button.get("cancel")).unwrap(), "Cancel");
}

#[test]
fn test_parse_header_only() {
    let csv_data = b"key,en,ko,ja,zh
row1,a,b,c,d";

    let languages = parse_header_only(csv_data).unwrap();
    assert_eq!(languages, vec!["en", "ko", "ja", "zh"]);
}

#[test]
fn test_parse_real_world_csv() {
    let csv_str = r#"key,en,ko,ja
common.hello,Hello,안녕하세요,こんにちは
common.goodbye,Goodbye,안녕히 가세요,さようなら
common.welcome,Welcome,환영합니다,ようこそ
auth.login,Login,로그인,ログイン
auth.logout,Logout,로그아웃,ログアウト
auth.signup,Sign up,회원가입,新規登録
errors.notFound,Page not found,페이지를 찾을 수 없습니다,ページが見つかりません
errors.serverError,Server error,서버 오류,サーバーエラー"#;

    let options = ParseOptions {
        separator: ".".to_string(),
        nested: true,
        ..Default::default()
    };
    let result = parse(csv_str.as_bytes(), &options).unwrap();

    assert_eq!(result.languages, vec!["en", "ko", "ja"]);
    assert_eq!(result.row_count, 8);

    let en = result.data.get("en").unwrap();
    let common = en.get("common").unwrap().as_object().unwrap();
    assert_eq!(text(common.get("hello")).unwrap(), "Hello");
    assert_eq!(text(common.get("goodbye")).unwrap(), "Goodbye");
    assert_eq!(text(common.get("welcome")).unwrap(), "Welcome");

    let auth = en.get("auth").unwrap().as_object().unwrap();
    assert_eq!(text(auth.get("login")).unwrap(), "Login");
    assert_eq!(text(auth.get("logout")).unwrap(), "Logout");
    assert_eq!(text(auth.get("signup")).unwrap(), "Sign up");

    let errors = en.get("errors").unwrap().as_object().unwrap();
    assert_eq!(text(errors.get("notFound")).unwrap(), "Page not found");
    assert_eq!(text(errors.get("serverError")).unwrap(), "Server error");

    let ko = result.data.get("ko").unwrap();
    let common_ko = ko.get("common").unwrap().as_object().unwrap();
    assert_eq!(text(common_ko.get("hello")).unwrap(), "안녕하세요");

    let ja = result.data.get("ja").unwrap();
    let auth_ja = ja.get("auth").unwrap().as_object().unwrap();
    assert_eq!(text(auth_ja.get("login")).unwrap(), "ログイン");
}

#[test]
fn test_parse_flat_keys() {
    let csv_str = r#"key,en,ko,ja
common.hello,Hello,안녕하세요,こんにちは
common.goodbye,Goodbye,안녕히 가세요,さようなら
auth.login,Login,로그인,ログイン"#;

    let options = ParseOptions {
        separator: ".".to_string(),
        nested: false,
        ..Default::default()
    };
    let result = parse(csv_str.as_bytes(), &options).unwrap();

    let en = result.data.get("en").unwrap();
    assert_eq!(text(en.get("common.hello")).unwrap(), "Hello");
    assert_eq!(text(en.get("common.goodbye")).unwrap(), "Goodbye");
    assert_eq!(text(en.get("auth.login")).unwrap(), "Login");

    let ko = result.data.get("ko").unwrap();
    assert_eq!(text(ko.get("common.hello")).unwrap(), "안녕하세요");
}

#[test]
fn test_parse_with_escape_sequences() {
    let csv_str = r#"key,en,ko
message.multiline,Hello\nWorld,안녕\n세상
message.tab,Name:\tJohn,이름:\t홍길동
message.quote,Say \"Hi\",\"안녕\"이라고 말해"#;

    let options = ParseOptions::default();
    let result = parse(csv_str.as_bytes(), &options).unwrap();

    let en = result.data.get("en").unwrap();
    let message = en.get("message").unwrap().as_object().unwrap();

    assert_eq!(text(message.get("multiline")).unwrap(), "Hello\nWorld");
    assert_eq!(text(message.get("tab")).unwrap(), "Name:\tJohn");
    assert_eq!(text(message.get("quote")).unwrap(), "Say \"Hi\"");

    let ko = result.data.get("ko").unwrap();
    let message_ko = ko.get("message").unwrap().as_object().unwrap();
    assert_eq!(text(message_ko.get("multiline")).unwrap(), "안녕\n세상");
}

#[test]
fn test_parse_without_escape_processing() {
    let csv_str = r#"key,en,ko
message,Hello\nWorld,안녕\n세상"#;

    let options = ParseOptions {
        process_escapes: false,
        ..Default::default()
    };
    let result = parse(csv_str.as_bytes(), &options).unwrap();

    let en = result.data.get("en").unwrap();
    assert_eq!(text(en.get("message")).unwrap(), "Hello\\nWorld");
}

#[test]
fn test_parse_with_variables() {
    let csv_str = r#"key,en,ko
greeting,Hello {{name}}!,안녕 {{name}}님!
count,You have {{count}} items,{{count}}개 항목이 있습니다"#;

    let options = ParseOptions::default();
    let result = parse(csv_str.as_bytes(), &options).unwrap();

    let en = result.data.get("en").unwrap();
    assert_eq!(text(en.get("greeting")).unwrap(), "Hello {{name}}!");
    assert_eq!(text(en.get("count")).unwrap(), "You have {{count}} items");

    let ko = result.data.get("ko").unwrap();
    assert_eq!(text(ko.get("greeting")).unwrap(), "안녕 {{name}}님!");
}

#[test]
fn test_parse_with_html_tags() {
    let csv_str = r#"key,en,ko
styled,Click <b>here</b>,<b>여기</b>를 클릭
link,Visit <a href="url">link</a>,<a href="url">링크</a> 방문"#;

    let options = ParseOptions::default();
    let result = parse(csv_str.as_bytes(), &options).unwrap();

    let en = result.data.get("en").unwrap();
    assert_eq!(text(en.get("styled")).unwrap(), "Click <b>here</b>");
    assert!(en.get("link").unwrap().as_str().unwrap().contains("<a href="));
}

#[test]
fn test_mixed_separators_error() {
    let csv_str = r#"key,en,ko
common.hello,Hello,안녕하세요
auth/login,Login,로그인"#;

    let options = ParseOptions {
        separator: ".".to_string(),
        ..Default::default()
    };
    let err = parse(csv_str.as_bytes(), &options).unwrap_err();
    assert_eq!(err.kind, ErrorKind::MixedSeparators);
}

#[test]
fn greeting_table_gives_one_document_per_language() {
    let result = parse("key,en,ko\ngreeting,Hello,안녕".as_bytes(), &ParseOptions::default()).unwrap();
    assert_eq!(result.languages, vec!["en", "ko"]);
    assert_eq!(result.row_count, 1);
    assert_eq!(result.data.keys(), vec!["en", "ko"]);
    let en = result.data.get("en").unwrap().as_object().unwrap();
    assert_eq!(en.keys(), vec!["greeting"]);
    assert_eq!(text(en.get("greeting")), Some("Hello"));
    let ko = result.data.get("ko").unwrap().as_object().unwrap();
    assert_eq!(ko.keys(), vec!["greeting"]);
    assert_eq!(text(ko.get("greeting")), Some("안녕"));
}

#[test]
fn escape_in_a_cell_is_decoded_or_kept() {
    let data = "key,en\nmsg.a,Hi\\nThere".as_bytes();
    let decoded = parse(data, &ParseOptions::default()).unwrap();
    let msg = decoded.data.get("en").unwrap().get("msg").unwrap();
    assert_eq!(text(msg.get("a")), Some("Hi\nThere"));
    let kept =
        parse(data, &ParseOptions { process_escapes: false, ..Default::default() }).unwrap();
    let msg = kept.data.get("en").unwrap().get("msg").unwrap();
    assert_eq!(text(msg.get("a")), Some("Hi\\nThere"));
}

#[test]
fn wrong_key_column_is_reported_at_the_header() {
    let err = parse("id,en\na,b".as_bytes(), &ParseOptions::default()).unwrap_err();
    assert_eq!(err.kind, ErrorKind::InvalidKeyColumn);
    let loc = err.location.as_ref().unwrap();
    assert_eq!(loc.row, Some(0));
    assert_eq!(loc.column, Some(1));
    let err = validate_header(&strings(&["id", "en"])).err().unwrap();
    assert_eq!(err.kind, ErrorKind::InvalidKeyColumn);
    assert_eq!(err.location.as_ref().unwrap().column_name.as_deref(), Some("id"));
}

#[test]
fn header_errors() {
    let none: Vec<String> = Vec::new();
    assert_eq!(validate_header(&none).err().unwrap().kind, ErrorKind::EmptyData);
    assert_eq!(
        validate_header(&strings(&["key", " ", ""])).err().unwrap().kind,
        ErrorKind::NoLanguageColumns
    );
    assert_eq!(parse(b"", &ParseOptions::default()).unwrap_err().kind, ErrorKind::EmptyData);
    assert_eq!(parse_header_only(b"").unwrap_err().kind, ErrorKind::EmptyData);
    assert_eq!(
        parse(b"key\na", &ParseOptions::default()).unwrap_err().kind,
        ErrorKind::NoLanguageColumns
    );
}

#[test]
fn header_is_trimmed_normalized_and_keeps_column_positions() {
    let info = validate_header(&strings(&["  KEY ", " EN_us ", "", "ko", "en-US"])).unwrap();
    assert_eq!(info.languages, vec!["en-US", "ko", "en-US"]);
    assert_eq!(info.language_indices.get("en-US"), Some(&4));
    assert_eq!(info.language_indices.get("ko"), Some(&3));
    assert_eq!(info.language_indices.get("EN_us"), None);
    assert_eq!(info.language_indices.len(), 2);
}

#[test]
fn languages_keep_header_order() {
    let languages = parse_header_only(b"key,zh_cn,,EN,ko\n").unwrap();
    assert_eq!(languages, vec!["zh-CN", "en", "ko"]);
    let result = parse(b"key,zh_cn,,EN,ko\na,1,2,3,4\n", &ParseOptions::default()).unwrap();
    assert_eq!(result.languages, vec!["zh-CN", "en", "ko"]);
    assert_eq!(result.data.keys(), vec!["en", "ko", "zh-CN"]);
    assert_eq!(text(result.data.get("en").unwrap().get("a")), Some("3"));
    assert_eq!(text(result.data.get("ko").unwrap().get("a")), Some("4"));
    assert_eq!(text(result.data.get("zh-CN").unwrap().get("a")), Some("1"));
}

#[test]
fn rows_without_key_are_counted_and_passed_over() {
    let data = "key,en,ko\n,x,y\n  ,x,y\na,1,\nb,,2\nc\n";
    let result = parse(data.as_bytes(), &ParseOptions::default()).unwrap();
    assert_eq!(result.row_count, 5);
    let en = result.data.get("en").unwrap().as_object().unwrap();
    assert_eq!(en.keys(), vec!["a"]);
    let ko = result.data.get("ko").unwrap().as_object().unwrap();
    assert_eq!(ko.keys(), vec!["b"]);
    assert!(en.get("b").is_none());
    assert!(ko.get("a").is_none());
    assert!(!en.contains_key("c"));
}

#[test]
fn missing_translation_gives_no_leaf() {
    let data = "key,en,ko\nmenu.open,Open,\nmenu.close,Close,닫기\n";
    let nested = parse(data.as_bytes(), &ParseOptions::default()).unwrap();
    let ko_menu = nested.data.get("ko").unwrap().get("menu").unwrap().as_object().unwrap();
    assert_eq!(ko_menu.keys(), vec!["close"]);
    let flat =
        parse(data.as_bytes(), &ParseOptions { nested: false, ..Default::default() }).unwrap();
    let ko = flat.data.get("ko").unwrap().as_object().unwrap();
    assert_eq!(ko.keys(), vec!["menu.close"]);
}

#[test]
fn language_without_any_translation_has_an_empty_document() {
    let result = parse(b"key,en,ko\na,1,\n", &ParseOptions::default()).unwrap();
    assert!(result.data.get("ko").unwrap().as_object().unwrap().is_empty());
    assert_eq!(result.data.len(), 2);
}

#[test]
fn any_other_separator_in_a_key_fails() {
    for (sep, key) in [(".", "a/b"), (".", "a-b"), ("/", "a.b"), ("/", "a-b"), ("-", "a.b"), ("-", "a/b")] {
        let data = format!("key,en\nx{}y,1\n{},2\n", sep, key);
        let options = ParseOptions { separator: sep.to_string(), ..Default::default() };
        let err = parse(data.as_bytes(), &options).unwrap_err();
        assert_eq!(err.kind, ErrorKind::MixedSeparators);
        assert_eq!(err.location.as_ref().unwrap().row, Some(2));
        let flat = ParseOptions { separator: sep.to_string(), nested: false, ..Default::default() };
        assert_eq!(parse(data.as_bytes(), &flat).unwrap_err().kind, ErrorKind::MixedSeparators);
    }
}

#[test]
fn mixed_separators_reports_first_row_and_all_characters() {
    let data = "key,en\na.b,1\nc/d,2\ne-f,3\ng/h,\n";
    let err = parse(data.as_bytes(), &ParseOptions::default()).unwrap_err();
    assert_eq!(
        err.message,
        "Mixed key separators found: expected '.', but found: -, / (row 2)"
    );
    let ok = parse(b"key,en\n,a/b\n /,1\n", &ParseOptions::default());
    assert_eq!(ok.unwrap_err().kind, ErrorKind::MixedSeparators);
    let ok = parse(b"key,en\n,a/b\nk,a/b\n", &ParseOptions::default()).unwrap();
    assert_eq!(text(ok.data.get("en").unwrap().get("k")), Some("a/b"));
}

#[test]
fn header_error_comes_before_mixed_separators() {
    let err = parse(b"id,en\na/b,1\n", &ParseOptions::default()).unwrap_err();
    assert_eq!(err.kind, ErrorKind::InvalidKeyColumn);
}

#[test]
fn later_rows_replace_earlier_ones() {
    let data = "key,en\na.b,1\na.b,2\na,3\nc,4\nc.d,5\n";
    let result = parse(data.as_bytes(), &ParseOptions::default()).unwrap();
    let en = result.data.get("en").unwrap().as_object().unwrap();
    assert_eq!(en.keys(), vec!["a", "c"]);
    assert_eq!(text(en.get("a")), Some("3"));
    let c = en.get("c").unwrap().as_object().unwrap();
    assert_eq!(text(c.get("d")), Some("5"));
    let flat =
        parse(data.as_bytes(), &ParseOptions { nested: false, ..Default::default() }).unwrap();
    let en = flat.data.get("en").unwrap().as_object().unwrap();
    assert_eq!(en.keys(), vec!["a", "a.b", "c", "c.d"]);
    assert_eq!(text(en.get("a.b")), Some("2"));
}

#[test]
fn keys_are_sorted_at_every_level() {
    let data = "key,en\nz.b,1\nz.a,2\nB,3\na,4\nz.Z,5\n";
    let result = parse(data.as_bytes(), &ParseOptions::default()).unwrap();
    let en = result.data.get("en").unwrap().as_object().unwrap();
    assert_eq!(en.keys(), vec!["B", "a", "z"]);
    assert_eq!(en.get("z").unwrap().as_object().unwrap().keys(), vec!["Z", "a", "b"]);
}

#[test]
fn other_separators_split_keys() {
    let options = ParseOptions { separator: "/".to_string(), ..Default::default() };
    let result = parse(b"key,en\na/b/c,1\n", &options).unwrap();
    let a = result.data.get("en").unwrap().get("a").unwrap();
    assert_eq!(text(a.get("b").unwrap().get("c")), Some("1"));
    let options = ParseOptions { separator: "-".to_string(), ..Default::default() };
    let result = parse(b"key,en\na-b,1\n", &options).unwrap();
    assert_eq!(text(result.data.get("en").unwrap().get("a").unwrap().get("b")), Some("1"));
    assert_eq!(separator_of("/"), '/');
    assert_eq!(separator_of(""), '.');
}

#[test]
fn empty_segments_are_keys_too() {
    let mut map = JsonMap::new();
    build_nested_value(&mut map, "a..b", "1", ".");
    build_nested_value(&mut map, "a.", "2", ".");
    let a = map.get("a").unwrap().as_object().unwrap();
    assert_eq!(a.keys(), vec![""]);
    assert_eq!(text(a.get("")), Some("2"));
    build_nested_value(&mut map, "plain", "3", ".");
    assert_eq!(text(map.get("plain")), Some("3"));
    build_nested_value(&mut map, "plain.x", "4", ".");
    assert_eq!(text(map.get("plain").unwrap().get("x")), Some("4"));
}

#[test]
fn quoted_fields_and_ragged_rows() {
    let data = "key,en,ko\n\"a\",\"x, y\",\"multi\nline\"\nb,only\nc,1,2,3,4\n";
    let result = parse(data.as_bytes(), &ParseOptions::default()).unwrap();
    assert_eq!(result.row_count, 3);
    assert_eq!(text(result.data.get("en").unwrap().get("a")), Some("x, y"));
    assert_eq!(text(result.data.get("ko").unwrap().get("a")), Some("multi\nline"));
    assert!(result.data.get("ko").unwrap().get("b").is_none());
    assert_eq!(text(result.data.get("ko").unwrap().get("c")), Some("2"));
}

#[test]
fn bytes_that_are_not_utf8_fail_as_csv_errors() {
    let err = parse(&[b'k', b'e', b'y', b',', 0xff, b'\n'], &ParseOptions::default()).unwrap_err();
    assert_eq!(err.kind, ErrorKind::CsvParseError);
    assert!(err.message.starts_with("CSV parsing error: "));
    let mut data = b"key,en\na,1\nb,".to_vec();
    data.push(0xff);
    data.push(b'\n');
    let err = parse(&data, &ParseOptions::default()).unwrap_err();
    assert_eq!(err.kind, ErrorKind::CsvParseError);
    assert_eq!(err.location.as_ref().unwrap().row, Some(3));
    assert!(err.message.ends_with("(row 3)"));
    assert_eq!(parse_header_only(&data).unwrap(), vec!["en"]);
    let mut bad_header = b"id,en\n".to_vec();
    bad_header.push(0xff);
    let err = parse(&bad_header, &ParseOptions::default()).unwrap_err();
    assert_eq!(err.kind, ErrorKind::InvalidKeyColumn);
}

#[test]
fn records_with_a_failure() {
    let rows = vec![strings(&["key", "en"]), strings(&["a", "1"])];
    let failure = parsing::error::ParseError::csv_failure("broken", Some(3));
    let err = parse_records(rows, Some(failure), &ParseOptions::default()).unwrap_err();
    assert_eq!(err.message, "CSV parsing error: broken (row 3)");
    let none: Vec<Vec<String>> = Vec::new();
    let failure = parsing::error::ParseError::csv_failure("broken", None);
    let err = parse_records(none, Some(failure), &ParseOptions::default()).unwrap_err();
    assert_eq!(err.kind, ErrorKind::CsvParseError);
    let rows = vec![strings(&["key", "en"]), strings(&["a", " 1 "])];
    let ok = parse_records(rows, None, &ParseOptions::default()).unwrap();
    assert_eq!(text(ok.data.get("en").unwrap().get("a")), Some("1"));
}

#[test]
fn assemble_takes_rows_as_they_are() {
    let header = strings(&["key", "en"]);
    let rows = vec![strings(&[" a.b ", " x\\ty "]), strings(&[]), strings(&["c"])];
    let result = assemble(&header, &rows, &ParseOptions::default()).unwrap();
    assert_eq!(result.row_count, 3);
    let en = result.data.get("en").unwrap().as_object().unwrap();
    assert_eq!(en.keys(), vec!["a"]);
    assert_eq!(text(en.get("a").unwrap().get("b")), Some("x\ty"));
}

#[test]
fn default_options() {
    let options = ParseOptions::default();
    assert_eq!(options.separator, ".");
    assert!(options.nested);
    assert!(options.process_escapes);
    assert_eq!(options.output_format, OutputFormat::Json);
    let info = parsing::types::HeaderInfo::new();
    assert!(!info.has_valid_key_column);
    assert!(info.languages.is_empty());
    assert!(info.language_indices.is_empty());
    let info = parsing::types::HeaderInfo::default();
    assert!(info.languages.is_empty());
}

#[test]
fn result_can_be_copied() {
    let result = parse(b"key,en\na.b,1\n", &ParseOptions::default()).unwrap();
    let copy = result.clone();
    assert_eq!(copy.languages, result.languages);
    assert_eq!(copy.data, result.data);
    assert_eq!(copy.row_count, result.row_count);
}

#[test]
fn the_order_of_the_rows_does_not_matter() {
    let first = "key,en,ko\nb.x,1,하나\na,2,둘\nb.y.z,3,\nc,4,넷\n";
    let second = "key,en,ko\nc,4,넷\nb.y.z,3,\nb.x,1,하나\na,2,둘\nc,4,넷\n";
    for nested in [true, false] {
        let options = ParseOptions { nested, ..Default::default() };
        let one = parse(first.as_bytes(), &options).unwrap();
        let two = parse(second.as_bytes(), &options).unwrap();
        assert_eq!(one.data, two.data);
        assert_eq!(one.languages, two.languages);
    }
}
