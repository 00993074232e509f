use bsl_context::container::{headers_fit, parse_hex, HbkContainer, HexError};
use bsl_context::hbk_models::HbkError;
use bsl_context::toc::{parse_toc, tokenize};

#[test]
fn tokenize_simple_braces() {
    let toks = tokenize("{ 1 2 }");
    assert_eq!(toks, vec!["{", "1", "2", "}"]);
}

#[test]
fn tokenize_quoted_string() {
    let toks = tokenize(r#"{"ru" "Имя"}"#);
    assert_eq!(toks, vec!["{", "\"ru\"", "\"Имя\"", "}"]);
}

#[test]
fn tokenize_escaped_quote_inside_string() {
    let toks = tokenize(r#"{"ru" "Имя""с""кавычками"}"#);
    assert_eq!(toks, vec!["{", "\"ru\"", "\"Имя\"с\"кавычками\"", "}"]);
}

#[test]
fn tokenize_ignores_commas_and_bom() {
    let toks = tokenize("\u{FEFF}{ 1, 2 }");
    assert_eq!(toks, vec!["{", "1", "2", "}"]);
}

#[test]
fn parse_minimal_toc() {
    let content = r#"
        {
          1
          {
            10
            0
            0
            {
              0 0
              {
                0 0
                {"ru" "ОбщееНазваниеРу"}
                {"en" "GeneralNameEn"}
              }
              "v8help/topic.html"
            }
          }
        }"#;
    let toc = parse_toc(content).expect("toc parse ok");
    assert_eq!(toc.pages.len(), 1);
    assert_eq!(toc.pages[0].title.ru, "ОбщееНазваниеРу");
    assert_eq!(toc.pages[0].title.en, "GeneralNameEn");
    assert_eq!(toc.pages[0].html_path, "v8help/topic.html");
}

#[test]
fn parse_toc_hierarchy() {
    let content = r#"
        {
          1
          {
            1 0 2 2 3
            { 0 0 { 0 0 {"ru" "Корень"} {"en" "Root"} } "root.html" }
          }
          {
            2 1 0
            { 0 0 { 0 0 {"ru" "Первый"} {"en" "First"} } "child1.html" }
          }
          {
            3 1 0
            { 0 0 { 0 0 {"ru" "Второй"} {"en" "Second"} } "child2.html" }
          }
        }"#;
    let toc = parse_toc(content).expect("toc parse ok");
    assert_eq!(toc.pages.len(), 1);
    let root = &toc.pages[0];
    assert_eq!(root.title.ru, "Корень");
    assert_eq!(root.children.len(), 2);
    assert_eq!(root.children[0].title.ru, "Первый");
    assert_eq!(root.children[1].title.ru, "Второй");
}

#[test]
fn malformed_toc_is_an_error() {
    let r = parse_toc("{ 1 { 2 0 ");
    assert!(matches!(r, Err(HbkError::TocParse(_))));
}

#[test]
fn hex_long_strings() {
    let digits: Vec<char> = "0000001c".chars().collect();
    assert!(matches!(parse_hex(&digits), Ok(28)));
    let bad: Vec<char> = "00zz".chars().collect();
    assert!(matches!(parse_hex(&bad), Err(HexError::InvalidDigit)));
    assert!(matches!(parse_hex(&[]), Err(HexError::Empty)));
}

fn long(n: usize) -> Vec<u8> {
    let mut v = format!("{:08x}", n).into_bytes();
    v.push(b' ');
    v
}

/// A container with one entity named `name` whose body is `body`.
fn container(name: &str, body: &[u8]) -> Vec<u8> {
    let units: Vec<u8> = name.encode_utf16().flat_map(|u| u.to_le_bytes()).collect();
    let mut buf = vec![0u8; 18];
    buf.extend(long(12));
    buf.extend(long(12));
    buf.extend(vec![0u8; 11]);
    let header_at = buf.len() + 12;
    let body_at = header_at + 2 + 9 + 40 + units.len();
    buf.extend((header_at as i32).to_le_bytes());
    buf.extend((body_at as i32).to_le_bytes());
    buf.extend(i32::MAX.to_le_bytes());
    buf.extend([0u8; 2]);
    buf.extend(long(units.len() + 24));
    buf.extend(vec![0u8; 40]);
    buf.extend(units);
    buf.extend([0u8; 2]);
    buf.extend(long(body.len()));
    buf.extend(vec![0u8; 20]);
    buf.extend_from_slice(body);
    buf
}

#[test]
fn container_entity_roundtrip() {
    let bytes = container("PackBlock", b"hello");
    assert!(headers_fit(&bytes));
    let c = HbkContainer::from_bytes(bytes).expect("container");
    assert_eq!(c.entities.len(), 1);
    assert_eq!(c.entities[0].0, "PackBlock");
    assert_eq!(c.get_entity("PackBlock").expect("entity"), b"hello".to_vec());
}

#[test]
fn container_missing_entity() {
    let c = HbkContainer::from_bytes(container("PackBlock", b"x")).expect("container");
    assert!(matches!(c.get_entity("FileStorage"), Err(HbkError::EntityNotFound(_))));
}

#[test]
fn container_truncated_is_bad_format() {
    let mut bytes = container("PackBlock", b"hello");
    bytes.truncate(bytes.len() - 3);
    let c = HbkContainer::from_bytes(bytes).expect("container");
    assert!(matches!(c.get_entity("PackBlock"), Err(HbkError::BadFormat(_))));
}

#[test]
fn container_too_short_is_bad_format() {
    assert!(matches!(HbkContainer::from_bytes(vec![0u8; 10]), Err(HbkError::BadFormat(_))));
}

#[test]
fn lone_quote_in_place_of_a_string_is_an_error() {
    let r = parse_toc("{ 1 { 1 0 0 { 0 0 { 0 0 } \"");
    assert!(matches!(r, Err(HbkError::TocParse(_))));
}

#[test]
fn lone_quote_after_the_records_is_ignored() {
    let toc = parse_toc("{ 0 } \"").expect("toc parse ok");
    assert!(toc.pages.is_empty());
}

#[test]
fn entity_address_past_the_end_is_bad_format() {
    let c = HbkContainer { buffer: vec![0u8; 4], entities: vec![("PackBlock".to_string(), 4_000_000_000u32)] };
    assert!(matches!(c.get_entity("PackBlock"), Err(HbkError::BadFormat(_))));
}
