use std::io::{Cursor, Write};

use bsl_context::container::headers_fit;
use bsl_context::content::HbkContent;
use bsl_context::hbk_models::HbkError;
use bsl_context::loader::build_index;
use zip::write::SimpleFileOptions;
use zip::ZipWriter;

fn long(n: usize) -> Vec<u8> {
    let mut v = format!("{:08x}", n).into_bytes();
    v.push(b' ');
    v
}

/// A container holding the given entities.
fn container(entities: &[(&str, Vec<u8>)]) -> Vec<u8> {
    let infos_len = 12 * entities.len();
    let mut head = vec![0u8; 18];
    head.extend(long(infos_len));
    head.extend(long(infos_len));
    head.extend(vec![0u8; 11]);
    let mut blocks: Vec<u8> = Vec::new();
    let mut infos: Vec<u8> = Vec::new();
    let base = head.len() + infos_len;
    for (name, body) in entities {
        let units: Vec<u8> = name.encode_utf16().flat_map(|u| u.to_le_bytes()).collect();
        let header_at = base + blocks.len();
        blocks.extend([0u8; 2]);
        blocks.extend(long(units.len() + 24));
        blocks.extend(vec![0u8; 40]);
        blocks.extend(units);
        let body_at = base + blocks.len();
        blocks.extend([0u8; 2]);
        blocks.extend(long(body.len()));
        blocks.extend(vec![0u8; 20]);
        blocks.extend_from_slice(body);
        infos.extend((header_at as i32).to_le_bytes());
        infos.extend((body_at as i32).to_le_bytes());
        infos.extend(i32::MAX.to_le_bytes());
    }
    head.extend(infos);
    head.extend(blocks);
    head
}

fn zip_of(files: &[(&str, &str)]) -> Vec<u8> {
    let mut w = ZipWriter::new(Cursor::new(Vec::new()));
    for (name, text) in files {
        w.start_file(*name, SimpleFileOptions::default()).expect("start");
        w.write_all(text.as_bytes()).expect("write");
    }
    w.finish().expect("finish").into_inner()
}

const TOC: &str = r#"{
  1
  { 1 0 2 2 3 { 0 0 { 0 0 {"ru" "Глобальный контекст"} {"en" "Global context"} } "/Global context.html" } }
  { 2 1 1 4 { 0 0 { 0 0 {"ru" "Функции работы со строками"} {"en" "String functions"} } "/Global context/methods/catalog1.html" } }
  { 3 1 1 5 { 0 0 { 0 0 {"ru" "Свойства"} {"en" "Properties"} } "/Global context/props.html" } }
  { 4 2 0 { 0 0 { 0 0 {"ru" "СтрДлина"} {"en" "StrLen"} } "/Global context/methods/StrLen.html" } }
  { 5 3 0 { 0 0 { 0 0 {"ru" "РабочаяДата"} {"en" "WorkingDate"} } "/Global context/properties/WorkingDate.html" } }
  { 6 0 1 7 { 0 0 { 0 0 {"ru" "Системные перечисления"} {"en" "System enums"} } "/enums.html" } }
  { 7 6 1 8 { 0 0 { 0 0 {"ru" "ЦветТекста"} {"en" "TextColor"} } "/enums/TextColor.html" } }
  { 8 7 0 { 0 0 { 0 0 {"ru" "Красный"} {"en" "Red"} } "/enums/TextColor/properties/Red.html" } }
}"#;

fn sample_hbk() -> Vec<u8> {
    let pack = zip_of(&[("toc", TOC)]);
    let pages = zip_of(&[
        ("Global context.html", "<body><p class=\"V8SH_title\">Глобальный контекст</p></body>"),
        (
            "Global context/methods/StrLen.html",
            "<body><p class=\"V8SH_heading\">СтрДлина (StrLen)</p><p class=\"V8SH_chapter\">Синтаксис:</p><p>СтрДлина(&lt;Строка&gt;)</p><p class=\"V8SH_chapter\">Параметры:</p><div class=\"V8SH_rubric\">&lt;Строка&gt; (обязательный)</div><p class=\"V8SH_chapter\">Возвращаемое значение:</p><p>Тип: Число. Длина.</p></body>",
        ),
        (
            "Global context/properties/WorkingDate.html",
            "<body><p class=\"V8SH_heading\">РабочаяДата (WorkingDate)</p><p class=\"V8SH_chapter\">Описание:</p><p>Тип: Дата. Рабочая дата.</p></body>",
        ),
        ("enums/TextColor.html", "<body><p class=\"V8SH_heading\">ЦветТекста (TextColor)</p><p class=\"V8SH_chapter\">Описание:</p><p>Цвет.</p></body>"),
        ("enums/TextColor/properties/Red.html", "<body><p class=\"V8SH_heading\">Красный (Red)</p></body>"),
    ]);
    container(&[("PackBlock", pack), ("FileStorage", pages)])
}

#[test]
fn content_reads_toc_and_pages() {
    let bytes = sample_hbk();
    assert!(headers_fit(&bytes));
    let mut content = HbkContent::from_bytes(bytes).expect("content");
    assert_eq!(content.toc.pages.len(), 2);
    assert_eq!(content.toc.pages[0].title.ru, "Глобальный контекст");
    assert_eq!(content.toc.pages[0].children.len(), 2);
    let html = content.get_entry_text("/enums/TextColor.html").expect("page");
    assert!(html.contains("ЦветТекста"));
    assert_eq!(content.get_entry_text("enums/TextColor.html").expect("page"), html);
    assert!(matches!(content.get_entry_text("/missing.html"), Err(HbkError::HtmlEntryNotFound(_))));
    assert!(matches!(content.get_entry(""), Err(HbkError::HtmlEntryNotFound(_))));
}

#[test]
fn index_built_from_contents() {
    let mut content = HbkContent::from_bytes(sample_hbk()).expect("content");
    let index = build_index(&mut content);
    assert_eq!(index.global_methods.len(), 1);
    let m = &index.global_methods[0];
    assert_eq!(m.name_ru, "СтрДлина");
    assert_eq!(m.name_en, "StrLen");
    assert_eq!(m.return_type, "Число");
    assert_eq!(m.signatures.len(), 1);
    assert_eq!(m.signatures[0].parameters.len(), 1);
    assert!(m.signatures[0].parameters[0].required);
    assert_eq!(index.global_properties.len(), 1);
    assert_eq!(index.global_properties[0].value_type, "Дата");
    let colour = index.find_type("цветтекста").expect("enum type");
    assert_eq!(colour.enum_values.len(), 1);
    assert_eq!(colour.enum_values[0].name_ru, "Красный");
    assert_eq!(colour.enum_values[0].name_en, "Red");
    assert_eq!(index.enum_types_count(), 1);
}

#[test]
fn container_without_pages_fails() {
    let pack = zip_of(&[("toc", TOC)]);
    let bytes = container(&[("PackBlock", pack)]);
    assert!(matches!(HbkContent::from_bytes(bytes), Err(HbkError::EntityNotFound(_))));
}

#[test]
fn pack_block_not_zip_fails() {
    let bytes = container(&[("PackBlock", b"not a zip".to_vec()), ("FileStorage", zip_of(&[]))]);
    assert!(matches!(HbkContent::from_bytes(bytes), Err(HbkError::Inflate(_))));
}

#[test]
fn page_archive_not_zip_fails() {
    let bytes = container(&[("PackBlock", zip_of(&[("toc", TOC)])), ("FileStorage", b"not a zip".to_vec())]);
    assert!(matches!(HbkContent::from_bytes(bytes), Err(HbkError::Zip(_))));
}

#[test]
fn malformed_toc_in_pack_block_fails() {
    let bytes = container(&[("PackBlock", zip_of(&[("toc", "{ 1 { 2 ")])), ("FileStorage", zip_of(&[]))]);
    assert!(matches!(HbkContent::from_bytes(bytes), Err(HbkError::TocParse(_))));
}
