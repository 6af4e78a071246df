use parsing::error::{ErrorKind, ParseError};
use parsing::parser::excel::{first_sheet_name, header_of_sheet, parse_sheet, sheet_to_csv};
use parsing::types::{ParseOptions, ParseResult};

fn first_sheet(data: &[u8]) -> Result<Vec<Vec<String>>, ParseError> {
    let mut workbook = calamine::open_workbook_auto_from_rs(std::io::Cursor::new(data))
        .map_err(|e| ParseError::excel_open_error(&e.to_string()))?;
    let names = calamine::Reader::sheet_names(&workbook);
    let name = first_sheet_name(&names)?;
    let range = calamine::Reader::worksheet_range(&mut workbook, &name)
        .map_err(|e| ParseError::worksheet_read_error(&name, &e.to_string()))?;
    Ok(range.rows().map(|row| row.iter().map(|cell| cell.to_string()).collect()).collect())
}

fn parse(data: &[u8], options: &ParseOptions) -> Result<ParseResult, ParseError> {
    parse_sheet(first_sheet(data)?, options)
}

fn parse_header_only(data: &[u8]) -> Result<Vec<String>, ParseError> {
    header_of_sheet(&first_sheet(data)?)
}

fn to_csv(data: &[u8]) -> Result<String, ParseError> {
    sheet_to_csv(first_sheet(data)?)
}

fn strings(cells: &[&str]) -> Vec<String> {
    cells.iter().map(|c| c.to_string()).collect()
}

#[test]
fn bytes_that_are_no_workbook_cannot_be_opened() {
    let err = parse(b"key,en\na,1\n", &ParseOptions::default()).unwrap_err();
    assert_eq!(err.kind, ErrorKind::ExcelOpenError);
    assert!(err.message.starts_with("Failed to open Excel file: "));
    assert!(err.message.len() > "Failed to open Excel file: ".len());
    let err = parse_header_only(b"").unwrap_err();
    assert_eq!(err.kind, ErrorKind::ExcelOpenError);
    assert_eq!(first_sheet(b"not a workbook").unwrap_err().kind, ErrorKind::ExcelOpenError);
}

#[test]
fn sheet_without_rows_is_empty() {
    let err = parse_sheet(Vec::new(), &ParseOptions::default()).unwrap_err();
    assert_eq!(err.kind, ErrorKind::EmptySheet);
    assert_eq!(header_of_sheet(&Vec::new()).unwrap_err().kind, ErrorKind::EmptySheet);
}

#[test]
fn sheet_rows_become_documents() {
    let rows = vec![
        strings(&[" key ", " en ", "ko"]),
        strings(&["menu.open", "Open", "열기"]),
        strings(&["", "", ""]),
        strings(&["menu.close", "Close", ""]),
    ];
    assert_eq!(header_of_sheet(&rows).unwrap(), vec!["en", "ko"]);
    let result = parse_sheet(rows, &ParseOptions::default()).unwrap();
    assert_eq!(result.row_count, 3);
    assert_eq!(result.languages, vec!["en", "ko"]);
    let en = result.data.get("en").unwrap().get("menu").unwrap().as_object().unwrap();
    assert_eq!(en.keys(), vec!["close", "open"]);
    let ko = result.data.get("ko").unwrap().get("menu").unwrap().as_object().unwrap();
    assert_eq!(ko.keys(), vec!["open"]);
}

#[test]
fn sheet_with_a_wrong_header_or_mixed_separators_fails() {
    let rows = vec![strings(&["id", "en"])];
    assert_eq!(header_of_sheet(&rows).unwrap_err().kind, ErrorKind::InvalidKeyColumn);
    assert_eq!(
        parse_sheet(rows, &ParseOptions::default()).unwrap_err().kind,
        ErrorKind::InvalidKeyColumn
    );
    let rows = vec![strings(&["key", "en"]), strings(&["a/b", "1"])];
    assert_eq!(
        parse_sheet(rows, &ParseOptions::default()).unwrap_err().kind,
        ErrorKind::MixedSeparators
    );
}

fn crc32(data: &[u8]) -> u32 {
    let mut crc: u32 = 0xffff_ffff;
    for byte in data {
        crc ^= *byte as u32;
        for _ in 0..8 {
            crc = if crc & 1 == 1 { (crc >> 1) ^ 0xedb8_8320 } else { crc >> 1 };
        }
    }
    !crc
}

fn zip_stored(files: &[(&str, String)]) -> Vec<u8> {
    let mut out: Vec<u8> = Vec::new();
    let mut directory: Vec<u8> = Vec::new();
    for (name, content) in files {
        let data = content.as_bytes();
        let offset = out.len() as u32;
        let crc = crc32(data);
        let mut header: Vec<u8> = Vec::new();
        header.extend_from_slice(&20u16.to_le_bytes());
        header.extend_from_slice(&0u16.to_le_bytes());
        header.extend_from_slice(&0u16.to_le_bytes());
        header.extend_from_slice(&0u16.to_le_bytes());
        header.extend_from_slice(&0x21u16.to_le_bytes());
        header.extend_from_slice(&crc.to_le_bytes());
        header.extend_from_slice(&(data.len() as u32).to_le_bytes());
        header.extend_from_slice(&(data.len() as u32).to_le_bytes());
        header.extend_from_slice(&(name.len() as u16).to_le_bytes());
        header.extend_from_slice(&0u16.to_le_bytes());
        out.extend_from_slice(&0x0403_4b50u32.to_le_bytes());
        out.extend_from_slice(&header);
        out.extend_from_slice(name.as_bytes());
        out.extend_from_slice(data);
        directory.extend_from_slice(&0x0201_4b50u32.to_le_bytes());
        directory.extend_from_slice(&20u16.to_le_bytes());
        directory.extend_from_slice(&header);
        directory.extend_from_slice(&0u16.to_le_bytes());
        directory.extend_from_slice(&0u16.to_le_bytes());
        directory.extend_from_slice(&0u16.to_le_bytes());
        directory.extend_from_slice(&0u32.to_le_bytes());
        directory.extend_from_slice(&offset.to_le_bytes());
        directory.extend_from_slice(name.as_bytes());
    }
    let start = out.len() as u32;
    out.extend_from_slice(&directory);
    out.extend_from_slice(&0x0605_4b50u32.to_le_bytes());
    out.extend_from_slice(&0u16.to_le_bytes());
    out.extend_from_slice(&0u16.to_le_bytes());
    out.extend_from_slice(&(files.len() as u16).to_le_bytes());
    out.extend_from_slice(&(files.len() as u16).to_le_bytes());
    out.extend_from_slice(&(directory.len() as u32).to_le_bytes());
    out.extend_from_slice(&start.to_le_bytes());
    out.extend_from_slice(&0u16.to_le_bytes());
    out
}

fn column_letter(index: usize) -> char {
    (b'A' + index as u8) as char
}

fn xml_text(text: &str) -> String {
    text.replace('&', "&amp;").replace('<', "&lt;").replace('>', "&gt;")
}

fn workbook(sheets: &[(&str, Vec<Vec<String>>)]) -> Vec<u8> {
    let mut types = String::from(
        "<?xml version=\"1.0\" encoding=\"UTF-8\"?><Types xmlns=\"http://schemas.openxmlformats.org/package/2006/content-types\"><Default Extension=\"rels\" ContentType=\"application/vnd.openxmlformats-package.relationships+xml\"/><Default Extension=\"xml\" ContentType=\"application/xml\"/><Override PartName=\"/xl/workbook.xml\" ContentType=\"application/vnd.openxmlformats-officedocument.spreadsheetml.sheet.main+xml\"/>",
    );
    let mut book = String::from(
        "<?xml version=\"1.0\" encoding=\"UTF-8\"?><workbook xmlns=\"http://schemas.openxmlformats.org/spreadsheetml/2006/main\" xmlns:r=\"http://schemas.openxmlformats.org/officeDocument/2006/relationships\"><sheets>",
    );
    let mut rels = String::from(
        "<?xml version=\"1.0\" encoding=\"UTF-8\"?><Relationships xmlns=\"http://schemas.openxmlformats.org/package/2006/relationships\">",
    );
    let mut parts: Vec<(String, String)> = Vec::new();
    for (n, (name, rows)) in sheets.iter().enumerate() {
        let id = n + 1;
        types.push_str(&format!(
            "<Override PartName=\"/xl/worksheets/sheet{}.xml\" ContentType=\"application/vnd.openxmlformats-officedocument.spreadsheetml.worksheet+xml\"/>",
            id
        ));
        book.push_str(&format!("<sheet name=\"{}\" sheetId=\"{}\" r:id=\"rId{}\"/>", name, id, id));
        rels.push_str(&format!(
            "<Relationship Id=\"rId{}\" Type=\"http://schemas.openxmlformats.org/officeDocument/2006/relationships/worksheet\" Target=\"worksheets/sheet{}.xml\"/>",
            id, id
        ));
        let mut sheet = String::from(
            "<?xml version=\"1.0\" encoding=\"UTF-8\"?><worksheet xmlns=\"http://schemas.openxmlformats.org/spreadsheetml/2006/main\"><sheetData>",
        );
        for (r, row) in rows.iter().enumerate() {
            sheet.push_str(&format!("<row r=\"{}\">", r + 1));
            for (c, cell) in row.iter().enumerate() {
                if !cell.is_empty() {
                    sheet.push_str(&format!(
                        "<c r=\"{}{}\" t=\"inlineStr\"><is><t xml:space=\"preserve\">{}</t></is></c>",
                        column_letter(c),
                        r + 1,
                        xml_text(cell)
                    ));
                }
            }
            sheet.push_str("</row>");
        }
        sheet.push_str("</sheetData></worksheet>");
        parts.push((format!("xl/worksheets/sheet{}.xml", id), sheet));
    }
    types.push_str("</Types>");
    book.push_str("</sheets></workbook>");
    rels.push_str("</Relationships>");
    let root = String::from(
        "<?xml version=\"1.0\" encoding=\"UTF-8\"?><Relationships xmlns=\"http://schemas.openxmlformats.org/package/2006/relationships\"><Relationship Id=\"rId1\" Type=\"http://schemas.openxmlformats.org/officeDocument/2006/relationships/officeDocument\" Target=\"xl/workbook.xml\"/></Relationships>",
    );
    let mut files: Vec<(&str, String)> = vec![
        ("[Content_Types].xml", types),
        ("_rels/.rels", root),
        ("xl/workbook.xml", book),
        ("xl/_rels/workbook.xml.rels", rels),
    ];
    for (name, content) in parts.iter() {
        files.push((name.as_str(), content.clone()));
    }
    zip_stored(&files)
}

fn translations(count: usize) -> Vec<Vec<String>> {
    let mut rows = vec![strings(&["key", "en", "ko"])];
    for i in 0..count {
        rows.push(vec![format!("group{}.item{}", i % 7, i), format!("Text {}", i), format!("글 {}", i)]);
    }
    rows
}

#[test]
fn test_excel_to_csv() {
    let data = workbook(&[("Sheet1", translations(100))]);
    let csv = to_csv(&data).unwrap();
    assert!(!csv.is_empty());
    println!("✅ excel_to_csv ok (medium.xlsx)");
}

#[test]
fn workbook_is_read_sheet_by_sheet_and_cell_by_cell() {
    let data = workbook(&[
        ("Words", vec![strings(&["key", "en", "ko"]), strings(&["a.b", "x & y", ""]), strings(&["c", " 1 ", "<b>둘</b>"])]),
        ("Other", vec![strings(&["id", "en"])]),
    ]);
    let rows = first_sheet(&data).unwrap();
    assert_eq!(
        rows,
        vec![strings(&["key", "en", "ko"]), strings(&["a.b", "x & y", ""]), strings(&["c", " 1 ", "<b>둘</b>"])]
    );
    assert_eq!(parse_header_only(&data).unwrap(), vec!["en", "ko"]);
    let result = parse(&data, &ParseOptions::default()).unwrap();
    assert_eq!(result.row_count, 2);
    assert_eq!(result.languages, vec!["en", "ko"]);
    let en = result.data.get("en").unwrap().as_object().unwrap();
    assert_eq!(en.keys(), vec!["a", "c"]);
    assert_eq!(en.get("a").unwrap().get("b").unwrap().as_str(), Some("x & y"));
    assert_eq!(en.get("c").unwrap().as_str(), Some("1"));
    let ko = result.data.get("ko").unwrap().as_object().unwrap();
    assert_eq!(ko.keys(), vec!["c"]);
    assert_eq!(
        to_csv(&data).unwrap(),
        "key,en,ko\na.b,x & y,\nc, 1 ,<b>둘</b>\n"
    );
}

#[test]
fn first_sheet_counts_not_the_others() {
    let data = workbook(&[("Bad", vec![strings(&["id", "en"])]), ("Good", translations(3))]);
    assert_eq!(parse(&data, &ParseOptions::default()).unwrap_err().kind, ErrorKind::InvalidKeyColumn);
    let data = workbook(&[("Good", translations(3)), ("Bad", vec![strings(&["id", "en"])])]);
    assert_eq!(parse(&data, &ParseOptions::default()).unwrap().row_count, 3);
}

#[test]
fn workbook_without_rows_or_sheets() {
    let data = workbook(&[("Empty", Vec::new())]);
    assert_eq!(parse(&data, &ParseOptions::default()).unwrap_err().kind, ErrorKind::EmptySheet);
    assert_eq!(parse_header_only(&data).unwrap_err().kind, ErrorKind::EmptySheet);
    assert_eq!(to_csv(&data).unwrap(), "");
    let data = workbook(&[]);
    assert_eq!(parse(&data, &ParseOptions::default()).unwrap_err().kind, ErrorKind::EmptyWorkbook);
}

#[test]
fn sheet_rows_are_written_as_csv() {
    let rows = vec![strings(&["key", "en"]), strings(&["a", "x,y"])];
    assert_eq!(sheet_to_csv(rows).unwrap(), "key,en\na,\"x,y\"\n");
    assert_eq!(sheet_to_csv(Vec::new()).unwrap(), "");
}

#[test]
fn first_sheet_is_the_one_taken() {
    assert_eq!(first_sheet_name(&strings(&["Words", "Other"])).unwrap(), "Words");
    let err = first_sheet_name(&[]).unwrap_err();
    assert_eq!(err.kind, ErrorKind::EmptyWorkbook);
    assert_eq!(err.message, "Excel workbook has no sheets");
}

#[test]
fn header_cells_are_trimmed_before_they_are_checked() {
    let rows = vec![strings(&["  id ", " en "]), strings(&["a", "1"])];
    let err = header_of_sheet(&rows).unwrap_err();
    assert_eq!(err.kind, ErrorKind::InvalidKeyColumn);
    assert_eq!(err.message, "Invalid header: first column must be 'key', but found 'id'");
    assert_eq!(err.location.as_ref().unwrap().column_name.as_deref(), Some("id"));
    let err = parse_sheet(rows, &ParseOptions::default()).unwrap_err();
    assert_eq!(err.message, "Invalid header: first column must be 'key', but found 'id'");
    assert_eq!(err.location.as_ref().unwrap().column_name.as_deref(), Some("id"));
    let data = workbook(&[("Sheet1", vec![strings(&[" Key ", " KO "]), strings(&[" a ", " 1 "])])]);
    let result = parse(&data, &ParseOptions::default()).unwrap();
    assert_eq!(result.languages, vec!["ko"]);
    assert_eq!(result.data.get("ko").unwrap().get("a").unwrap().as_str(), Some("1"));
}
