use ligotab::format::Format;
use ligotab::table::{Table, TableError};

fn rows_of(rows: &[&[&str]]) -> Vec<Vec<String>> {
    rows.iter().map(|row| row.iter().map(|s| s.to_string()).collect()).collect()
}

fn render(rows: &[&[&str]], format: Format) -> String {
    Table::create(rows_of(rows), format).unwrap().compose()
}

fn read(input: &[u8], format: Format) -> Result<Table, TableError> {
    Table::new(input, b',', None, None, true, b'"', true, format)
}

const CUSTOMERS: &str = "Index,Customer Id,First Name,Last Name,Company,City,Country,Phone 1,Phone 2,Email,Subscription Date,Website\n1,DD37Cf93aecA6Dc,Sheryl,Baxter,Rasmussen Group,East Leonard,Chile,229.077.5154,397.884.0519x718,zunigavanessa@smith.info,2020-08-24,http://www.stephenson.com/\n";

const CUSTOMERS_COMMENTED: &str = "Index,Customer Id,First Name,Last Name,Company,City,Country,Phone 1,Phone 2,Email,Subscription Date,Website\n#1,DD37Cf93aecA6Dc,Sheryl,Baxter,Rasmussen Group,East Leonard,Chile,229.077.5154,397.884.0519x718,zunigavanessa@smith.info,2020-08-24,http://www.stephenson.com/\n";

#[test]
fn test_new_csv_markdown() {
    let rows = rows_of(&[
        &[
            "Index",
            "Customer Id",
            "First Name",
            "Last Name",
            "Company",
            "City",
            "Country",
            "Phone 1",
            "Phone 2",
            "Email",
            "Subscription Date",
            "Website",
        ],
        &[
            "1",
            "DD37Cf93aecA6Dc",
            "Sheryl",
            "Baxter",
            "Rasmussen Group",
            "East Leonard",
            "Chile",
            "229.077.5154",
            "397.884.0519x718",
            "zunigavanessa@smith.info",
            "2020-08-24",
            "http://www.stephenson.com/",
        ],
    ]);
    let widths = vec![5, 15, 10, 9, 15, 12, 7, 12, 16, 24, 17, 26];

    let got = Table::new(
        CUSTOMERS.as_bytes(),
        b',',
        None,
        None,
        true,
        b'"',
        true,
        Format::Markdown,
    )
    .unwrap();

    assert_eq!(got.rows(), &rows);
    assert_eq!(got.widths(), &widths);
    assert_eq!(got.format(), Format::Markdown);
}

#[test]
fn test_new_csv_markdown_comment() {
    let rows = rows_of(&[&[
        "Index",
        "Customer Id",
        "First Name",
        "Last Name",
        "Company",
        "City",
        "Country",
        "Phone 1",
        "Phone 2",
        "Email",
        "Subscription Date",
        "Website",
    ]]);
    let widths = vec![5, 11, 10, 9, 7, 4, 7, 7, 7, 5, 17, 7];

    let got = Table::new(
        CUSTOMERS_COMMENTED.as_bytes(),
        b',',
        None,
        Some(b'#'),
        true,
        b'"',
        true,
        Format::Markdown,
    )
    .unwrap();

    assert_eq!(got.rows(), &rows);
    assert_eq!(got.widths(), &widths);
    assert_eq!(got.format(), Format::Markdown);
}

#[test]
fn markdown_pads_each_column_to_its_widest_field() {
    let got = render(&[&["A", "BB"], &["x", "yy"]], Format::Markdown);
    assert_eq!(got, "|A|BB|\n|-|--|\n|x|yy|");
}

#[test]
fn markdown_pads_with_trailing_spaces() {
    let got = render(&[&["Name", "N"], &["a", "longer"]], Format::Markdown);
    assert_eq!(got, "|Name|N     |\n|----|------|\n|a   |longer|");
}

#[test]
fn markdown_joins_data_rows_without_trailing_newline() {
    let got = render(&[&["h"], &["a"], &["bb"]], Format::Markdown);
    assert_eq!(got, "|h |\n|--|\n|a |\n|bb|");
}

#[test]
fn confluence_never_pads() {
    let got = render(&[&["A", "BB"], &["x", "yy"]], Format::Confluence);
    assert_eq!(got, "||A||BB||\n|x|yy|");
    let got = render(&[&["Name", "N"], &["a", "longer"]], Format::Confluence);
    assert_eq!(got, "||Name||N||\n|a|longer|");
}

#[test]
fn confluence_table_has_no_widths() {
    let table = Table::create(rows_of(&[&["A", "BB"], &["x", "yy"]]), Format::Confluence).unwrap();
    assert!(table.widths().is_empty());
}

#[test]
fn org_rule_crosses_at_plus() {
    let got = render(&[&["A", "BB"], &["x", "yy"]], Format::Org);
    assert_eq!(got, "|A|BB|\n|-+--|\n|x|yy|");
}

#[test]
fn rest_borders_every_data_row() {
    let got = render(&[&["A", "BB"], &["x", "yy"]], Format::ReStructuredText);
    assert_eq!(got, "+-+--+\n|A|BB|\n|=+==|\n|x|yy|\n+-+--+");
    let got = render(&[&["h"], &["a"], &["bb"]], Format::ReStructuredText);
    assert_eq!(got, "+--+\n|h |\n|==|\n|a |\n+--+\n|bb|\n+--+");
}

#[test]
fn header_only_renders_header_and_rule() {
    let header: &[&[&str]] = &[&["A", "BB"]];
    assert_eq!(render(header, Format::Markdown), "|A|BB|\n|-|--|\n");
    assert_eq!(render(header, Format::Org), "|A|BB|\n|-+--|\n");
    assert_eq!(render(header, Format::Confluence), "||A||BB||\n");
    assert_eq!(render(header, Format::ReStructuredText), "+-+--+\n|A|BB|\n|=+==|");
}

#[test]
fn zero_rows_are_an_error() {
    let made = Table::create(Vec::new(), Format::Markdown);
    assert!(matches!(made, Err(TableError::Empty)));
    let made = Table::create(Vec::new(), Format::Confluence);
    assert!(matches!(made, Err(TableError::Empty)));
}

#[test]
fn empty_input_is_an_error() {
    assert!(matches!(read(b"", Format::Markdown), Err(TableError::Empty)));
    let only_comments = Table::new(b"#a,b\n", b',', None, Some(b'#'), true, b'"', true, Format::Org);
    assert!(matches!(only_comments, Err(TableError::Empty)));
}

#[test]
fn width_is_longest_field_in_characters() {
    let table =
        Table::create(rows_of(&[&["日本", "x"], &["abc", ""], &["a", "yy"]]), Format::Markdown)
            .unwrap();
    assert_eq!(table.widths(), &vec![3, 2]);
    assert_eq!(table.compose(), "|日本 |x |\n|---|--|\n|abc|  |\n|a  |yy|");
}

#[test]
fn ragged_rows_do_not_fail() {
    let table = Table::create(rows_of(&[&["a", "b"], &["ccc"], &["d", "e", "f"]]), Format::Markdown)
        .unwrap();
    assert_eq!(table.widths(), &vec![3, 1]);
    assert_eq!(table.compose(), "|a  |b|\n|---|-|\n|ccc|\n|d  |e|");
}

#[test]
fn new_reads_and_renders() {
    let table = read(b"A,BB\nx,yy\n", Format::Markdown).unwrap();
    assert_eq!(table.compose(), "|A|BB|\n|-|--|\n|x|yy|");
}

#[test]
fn new_escapes_fields() {
    let table = read(b"a|b,{c}\n1,2\n", Format::Confluence).unwrap();
    assert_eq!(table.rows(), &rows_of(&[&["a\\|b", "\\{c\\}"], &["1", "2"]]));
    assert_eq!(table.compose(), "||a\\|b||\\{c\\}||\n|1|2|");
}

#[test]
fn new_honours_delimiter_and_terminator() {
    let table =
        Table::new(b"A;B!x;y!", b';', Some(b'!'), None, true, b'"', true, Format::Markdown)
            .unwrap();
    assert_eq!(table.compose(), "|A|B|\n|-|-|\n|x|y|");
}

#[test]
fn new_honours_quoting() {
    let quoted = read(b"\"a,b\",c\n", Format::Confluence).unwrap();
    assert_eq!(quoted.compose(), "||a,b||c||\n");
    let unquoted =
        Table::new(b"\"a\",c\n", b',', None, None, false, b'"', true, Format::Confluence).unwrap();
    assert_eq!(unquoted.compose(), "||\"a\"||c||\n");
    let single =
        Table::new(b"'a,b',c\n", b',', None, None, true, b'\'', true, Format::Confluence).unwrap();
    assert_eq!(single.compose(), "||a,b||c||\n");
}

#[test]
fn new_reports_unequal_records() {
    assert!(matches!(read(b"a,b\nc\n", Format::Markdown), Err(TableError::Parse(_))));
}

#[test]
fn new_reports_invalid_text() {
    assert!(matches!(read(b"\xff,a\n", Format::Markdown), Err(TableError::Parse(_))));
}

#[test]
fn rest_header_only_read_from_input_has_no_trailing_newline() {
    let table = read(b"A,BB\n", Format::ReStructuredText).unwrap();
    assert_eq!(table.compose(), "+-+--+\n|A|BB|\n|=+==|");
}

#[test]
fn from_records_escapes_and_lays_out() {
    let raw = rows_of(&[&["a|b", "{c}"], &["x", "yy"]]);
    let table = Table::from_records(&raw, Format::Markdown).unwrap();
    assert_eq!(table.rows(), &rows_of(&[&["a\\|b", "\\{c\\}"], &["x", "yy"]]));
    assert_eq!(table.widths(), &vec![4, 5]);
    assert_eq!(table.compose(), "|a\\|b|\\{c\\}|\n|----|-----|\n|x   |yy   |");
}

#[test]
fn from_records_without_records_is_an_error() {
    assert!(matches!(Table::from_records(&Vec::new(), Format::Org), Err(TableError::Empty)));
}
