use parsing::transform::rewrite_key_separator_in_csv;
use std::time::Instant;

fn table_text(rows: usize) -> String {
    let mut text = String::from("key,en,ko,ja\n");
    for i in 0..rows {
        text.push_str(&format!(
            "section{}.group-{}.item/{},\"Text, {}.{}\",글-{},テキスト/{}\n",
            i % 10,
            i % 7,
            i,
            i,
            i,
            i,
            i
        ));
    }
    text
}

fn expected_text(rows: usize) -> String {
    let mut text = String::from("key,en,ko,ja\n");
    for i in 0..rows {
        text.push_str(&format!(
            "section{}/group/{}/item/{},\"Text, {}.{}\",글-{},テキスト/{}\n",
            i % 10,
            i % 7,
            i,
            i,
            i,
            i,
            i
        ));
    }
    text
}

#[test]
fn bench_rewrite_separator_medium() {
    let csv_text = table_text(100);
    let start = Instant::now();
    let _out = rewrite_key_separator_in_csv(&csv_text, "/");
    let elapsed = start.elapsed();
    println!("📊 rewrite separator (medium.csv, {} bytes) -> {:?}", csv_text.len(), elapsed);
    assert_eq!(_out, expected_text(100));
}

#[test]
fn bench_rewrite_separator_large() {
    let csv_text = table_text(1000);
    let start = Instant::now();
    let _out = rewrite_key_separator_in_csv(&csv_text, "/");
    let elapsed = start.elapsed();
    println!("📊 rewrite separator (large.csv, {} bytes) -> {:?}", csv_text.len(), elapsed);
    assert_eq!(_out, expected_text(1000));
}

#[test]
fn bench_rewrite_separator_xlarge() {
    let csv_text = table_text(5000);
    let start = Instant::now();
    let _out = rewrite_key_separator_in_csv(&csv_text, "/");
    let elapsed = start.elapsed();
    println!("📊 rewrite separator (xlarge.csv, {} bytes) -> {:?}", csv_text.len(), elapsed);
    assert_eq!(_out, expected_text(5000));
}

#[test]
fn bench_rewrite_separator_xxlarge() {
    let csv_text = table_text(10000);
    let start = Instant::now();
    let _out = rewrite_key_separator_in_csv(&csv_text, "/");
    let elapsed = start.elapsed();
    println!("📊 rewrite separator (xxlarge.csv, {} bytes) -> {:?}", csv_text.len(), elapsed);
    assert_eq!(_out, expected_text(10000));
}

#[test]
fn only_keys_after_the_header_are_rewritten() {
    assert_eq!(rewrite_key_separator_in_csv("", "/"), "");
    assert_eq!(rewrite_key_separator_in_csv("a.b,c.d", "/"), "a.b,c.d");
    assert_eq!(rewrite_key_separator_in_csv("k.e-y,e/n\na.b-c/d,x.y-z/w", "/"), "k.e-y,e/n\na/b/c/d,x.y-z/w");
    assert_eq!(rewrite_key_separator_in_csv("key\na.b\nc-d", "::"), "key\na::b\nc::d");
    assert_eq!(rewrite_key_separator_in_csv("key,en\r\na.b,1\r\n", "-"), "key,en\r\na-b,1\r\n");
    assert_eq!(rewrite_key_separator_in_csv("key,en\na.b,1", ""), "key,en\nab,1");
}

#[test]
fn quoted_fields_keep_their_line_breaks_and_commas() {
    assert_eq!(
        rewrite_key_separator_in_csv("key,en\n\"a.b,c\",\"x\ny.z\"\nd.e,\"q\"\"r.s\"", "/"),
        "key,en\n\"a/b,c\",\"x\ny.z\"\nd/e,\"q\"\"r.s\""
    );
    assert_eq!(
        rewrite_key_separator_in_csv("\"key\nwith.break\",en\na.b,1", "/"),
        "\"key\nwith.break\",en\na/b,1"
    );
}
