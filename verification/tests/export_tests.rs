use parsing::error::ErrorKind;
use parsing::export::{
    flatten, merge_documents, merge_jsons_to_csv, merge_jsons_to_table, table_to_csv,
    LangJsonInput, TableData,
};
use parsing::parser::build_nested_value;
use parsing::value::{JsonMap, JsonValue};

fn build_lang_content(prefix: &str, count: usize, skip_even: bool) -> String {
    let mut map = serde_json::Map::new();
    for i in 0..count {
        if skip_even && i % 2 == 0 {
            continue;
        }
        map.insert(
            format!("{prefix}{i}"),
            serde_json::Value::String(format!("value-{i}")),
        );
    }
    serde_json::to_string(&serde_json::Value::Object(map)).unwrap()
}

fn input(language: &str, content: &str) -> LangJsonInput {
    LangJsonInput { language: language.to_string(), content: content.to_string() }
}

#[test]
fn merges_and_fills_missing_values() {
    let inputs = vec![
        LangJsonInput {
            language: "en".to_string(),
            content: r#"{"app":{"hello":"Hello","bye":"Bye"}}"#.to_string(),
        },
        LangJsonInput {
            language: "ko".to_string(),
            content: r#"{"app":{"hello":"안녕"}}"#.to_string(),
        },
    ];

    let table = merge_jsons_to_table(&inputs, ".").unwrap();
    assert_eq!(table.header, vec!["key", "en", "ko"]);
    // keys sorted alphabetically
    assert_eq!(table.rows[0][0], "app.bye");
    assert_eq!(table.rows[0][1], "Bye");
    assert_eq!(table.rows[0][2], "");
    assert_eq!(table.rows[1][0], "app.hello");
    assert_eq!(table.rows[1][1], "Hello");
    assert_eq!(table.rows[1][2], "안녕");

    let csv = merge_jsons_to_csv(&inputs, ".").unwrap();
    assert!(csv.contains("app.bye,Bye,"));
    assert!(csv.contains("app.hello,Hello,안녕"));
}

#[test]
fn rejects_non_object_root() {
    let inputs = vec![LangJsonInput {
        language: "en".to_string(),
        content: r#"[{"hello":"world"}]"#.to_string(),
    }];

    let err = merge_jsons_to_table(&inputs, ".").unwrap_err();
    assert_eq!(err.kind, ErrorKind::JsonParseError);
}

#[test]
fn merges_large_dataset_and_fills_missing() {
    let count = 2000;
    let inputs = vec![
        LangJsonInput {
            language: "en".to_string(),
            content: build_lang_content("k", count, false), // full set
        },
        LangJsonInput {
            language: "ko".to_string(),
            content: build_lang_content("k", count, true), // only odd keys
        },
    ];

    let table = merge_jsons_to_table(&inputs, ".").unwrap();
    assert_eq!(table.header, vec!["key", "en", "ko"]);
    assert_eq!(table.rows.len(), count); // all keys retained

    // k0 should exist, ko missing -> empty string
    let k0 = table
        .rows
        .iter()
        .find(|row| row[0] == "k0")
        .expect("k0 missing");
    assert_eq!(k0[1], "value-0");
    assert_eq!(k0[2], "");

    // k1 should exist in both
    let k1 = table
        .rows
        .iter()
        .find(|row| row[0] == "k1")
        .expect("k1 missing");
    assert_eq!(k1[1], "value-1");
    assert_eq!(k1[2], "value-1");
}

#[test]
fn two_languages_merge_into_sorted_rows() {
    let inputs = vec![input("en", r#"{"b":"2","a":"1"}"#), input("ko", r#"{"a":"가"}"#)];
    let table = merge_jsons_to_table(&inputs, ".").unwrap();
    assert_eq!(table.header, vec!["key", "en", "ko"]);
    assert_eq!(table.rows, vec![vec!["a", "1", "가"], vec!["b", "2", ""]]);
    assert_eq!(merge_jsons_to_csv(&inputs, ".").unwrap(), "key,en,ko\na,1,가\nb,2,\n");
}

#[test]
fn leaves_that_are_no_strings_become_text() {
    let inputs = vec![input(
        "en",
        r#"{"n":null,"t":true,"i":42,"f":1.5,"l":[1,"x",{"k":null}],"o":{},"s":"s","d":{"x":{"y":-7}}}"#,
    )];
    let table = merge_jsons_to_table(&inputs, "/").unwrap();
    assert_eq!(
        table.rows,
        vec![
            vec!["d/x/y", "-7"],
            vec!["f", "1.5"],
            vec!["i", "42"],
            vec!["l", r#"[1,"x",{"k":null}]"#],
            vec!["n", ""],
            vec!["s", "s"],
            vec!["t", "true"],
        ]
    );
}

#[test]
fn merge_errors() {
    let none: Vec<LangJsonInput> = Vec::new();
    let err = merge_jsons_to_table(&none, ".").unwrap_err();
    assert_eq!(err.kind, ErrorKind::EmptyData);
    assert_eq!(
        err.suggestion.as_deref(),
        Some("Provide at least one JSON input with language and content")
    );
    let err = merge_jsons_to_table(&[input("en", "{}"), input("EN", "{}")], ".").unwrap_err();
    assert_eq!(err.kind, ErrorKind::Unknown);
    assert_eq!(err.message, "Duplicate language provided: 'en'");
    assert_eq!(err.suggestion.as_deref(), Some("Provide each language only once"));
    let err = merge_jsons_to_table(&[input("en", "{}"), input("ko", "{oops")], ".").unwrap_err();
    assert_eq!(err.kind, ErrorKind::JsonParseError);
    assert!(err.message.starts_with("Failed to parse JSON for language 'ko': "));
    let err = merge_jsons_to_table(&[input("KO", "\"text\"")], ".").unwrap_err();
    assert_eq!(err.kind, ErrorKind::JsonParseError);
    assert_eq!(err.message, "Invalid JSON for language 'KO': root must be an object");
    let err = merge_jsons_to_table(&[input("en", "{"), input("en", "[]")], ".").unwrap_err();
    assert!(err.message.starts_with("Failed to parse JSON for language 'en': "));
    let err = merge_jsons_to_csv(&[input("en", "[]")], ".").unwrap_err();
    assert_eq!(err.kind, ErrorKind::JsonParseError);
}

#[test]
fn languages_are_normalized_in_the_header() {
    let table =
        merge_jsons_to_table(&[input("zh_cn", r#"{"a":"1"}"#), input("EN", "{}")], ".").unwrap();
    assert_eq!(table.header, vec!["key", "zh-CN", "en"]);
    assert_eq!(table.rows, vec![vec!["a", "1", ""]]);
    let table = merge_jsons_to_table(&[input("en", "{}")], ".").unwrap();
    assert!(table.rows.is_empty());
}

#[test]
fn flat_keys_that_meet_keep_the_later_leaf() {
    let inputs = vec![input("en", r#"{"a":{"b":"nested"},"a.b":"flat","":{"x":"top"}}"#)];
    let table = merge_jsons_to_table(&inputs, ".").unwrap();
    assert_eq!(table.rows, vec![vec!["a.b", "flat"], vec!["x", "top"]]);
    let table = merge_jsons_to_table(&inputs, "").unwrap();
    assert_eq!(table.rows, vec![vec!["a.b", "flat"], vec!["ab", "nested"], vec!["x", "top"]]);
}

#[test]
fn documents_read_elsewhere_can_be_merged() {
    let mut en = JsonMap::new();
    en.insert("b".to_string(), JsonValue::Text("2".to_string()));
    en.insert("a".to_string(), JsonValue::Literal("1".to_string()));
    en.insert("c".to_string(), JsonValue::Null);
    let inputs = vec![
        ("en".to_string(), Ok(JsonValue::Object(en))),
        ("ko".to_string(), Ok(JsonValue::Object(JsonMap::new()))),
    ];
    let table = merge_documents(&inputs, ".").unwrap();
    assert_eq!(table.rows, vec![vec!["a", "1", ""], vec!["b", "2", ""], vec!["c", "", ""]]);
    let inputs = vec![("en".to_string(), Err("why".to_string()))];
    let err = merge_documents(&inputs, ".").unwrap_err();
    assert_eq!(err.message, "Failed to parse JSON for language 'en': why");
    let inputs = vec![("en".to_string(), Ok(JsonValue::Null))];
    assert_eq!(merge_documents(&inputs, ".").unwrap_err().kind, ErrorKind::JsonParseError);
}

#[test]
fn flattening_a_nested_document_and_nesting_again_gives_it_back() {
    let keys = ["app.title", "app.menu.open", "app.menu.close", "plain", "z.y.x.w", "a..b", "t."];
    let mut doc = JsonMap::new();
    for (i, key) in keys.iter().enumerate() {
        build_nested_value(&mut doc, key, &format!("v{}", i), ".");
    }
    let flat = flatten(&doc, ".");
    let mut sorted: Vec<String> = keys.iter().map(|k| k.to_string()).collect();
    sorted.sort();
    assert_eq!(flat.keys(), sorted);
    let mut again = JsonMap::new();
    for i in 0..flat.len() {
        let value = flat.value_at(i).as_str().unwrap().to_string();
        build_nested_value(&mut again, flat.key_at(i), &value, ".");
    }
    assert_eq!(again, doc);
    assert!(again != flat);
    assert_eq!(flatten(&again, ".").keys(), flat.keys());
}

#[test]
fn table_is_written_with_quotes_where_needed() {
    let table = TableData {
        header: vec!["key".to_string(), "en".to_string()],
        rows: vec![
            vec!["a".to_string(), "x, \"y\"".to_string()],
            vec!["b".to_string(), "two\nlines".to_string()],
        ],
    };
    assert_eq!(
        table_to_csv(&table).unwrap(),
        "key,en\na,\"x, \"\"y\"\"\"\nb,\"two\nlines\"\n"
    );
    let ragged = TableData {
        header: vec!["key".to_string(), "en".to_string()],
        rows: vec![vec!["a".to_string()]],
    };
    let err = table_to_csv(&ragged).unwrap_err();
    assert_eq!(err.kind, ErrorKind::CsvParseError);
}

#[test]
fn nesting_the_flat_form_in_any_order_gives_the_document_back() {
    let keys = ["app.title", "app.menu.open", "app.menu.close", "plain", "z.y.x.w", "a..b", "t."];
    let mut doc = JsonMap::new();
    for (i, key) in keys.iter().enumerate() {
        build_nested_value(&mut doc, key, &format!("v{}", i), ".");
    }
    let flat = flatten(&doc, ".");
    let entries: Vec<(String, String)> = (0..flat.len())
        .map(|i| (flat.key_at(i).clone(), flat.value_at(i).as_str().unwrap().to_string()))
        .collect();
    let count = entries.len();
    for shift in 0..count {
        for step in [1usize, 2, 3, 5] {
            let mut again = JsonMap::new();
            for n in 0..count {
                let (key, value) = &entries[(shift + n * step) % count];
                build_nested_value(&mut again, key, value, ".");
            }
            for n in 0..count {
                let (key, value) = &entries[(shift + n * step) % count];
                build_nested_value(&mut again, key, value, ".");
            }
            assert_eq!(again, doc, "shift {} step {}", shift, step);
        }
    }
    let mut reversed = JsonMap::new();
    for (key, value) in entries.iter().rev() {
        build_nested_value(&mut reversed, key, value, ".");
    }
    assert_eq!(reversed, doc);
}

#[test]
fn an_object_under_the_empty_key_at_the_top_does_not_come_back() {
    let mut doc = JsonMap::new();
    build_nested_value(&mut doc, ".x", "v", ".");
    assert_eq!(doc.keys(), vec![""]);
    let flat = flatten(&doc, ".");
    assert_eq!(flat.keys(), vec!["x"]);
    let mut again = JsonMap::new();
    build_nested_value(&mut again, flat.key_at(0), "v", ".");
    assert!(again != doc);
}
