use bsl_context::blocks::{
    parse_example, parse_head_name, parse_parameters, parse_readonly, parse_related_objects,
    parse_syntax, parse_value_info, value_info_from_markdown,
};
use bsl_context::html::{
    chapters_from_nodes, collapse_whitespace, extract_text, markdown_of_events, split_chapters, to_markdown,
    BodyNode, HtmlEvent,
};
use bsl_context::pages::{
    parse_constructor_page, parse_enum_page, parse_enum_value_page, parse_method_page,
    parse_object_page, parse_property_page,
};

const METHOD_PAGE: &str = "<html><body>\n\
<p class=\"V8SH_heading\">СтрНайти (StrFind)</p>\n\
<p class=\"V8SH_chapter\">Синтаксис:</p>\n\
<p>СтрНайти(&lt;Строка&gt;, &lt;Подстрока&gt;)</p>\n\
<p class=\"V8SH_chapter\">Параметры:</p>\n\
<div class=\"V8SH_rubric\"><p>&lt;Строка&gt; (обязательный)</p></div>\n\
<p>Тип: Строка.</p>\n\
<div class=\"V8SH_rubric\"><p>&lt;Направление&gt; (необязательный)</p></div>\n\
<p class=\"V8SH_chapter\">Возвращаемое значение:</p>\n\
<p>Тип: Число. Позиция подстроки.</p>\n\
<p class=\"V8SH_chapter\">Описание:</p>\n\
<p>Находит <b>первое</b> вхождение.</p>\n\
<p class=\"V8SH_chapter\">См. также:</p>\n\
<a href=\"v8help://SyntaxHelperContext/def_String\">Строка</a>\n\
</body></html>";

#[test]
fn method_page_fields() {
    let m = parse_method_page(METHOD_PAGE);
    assert_eq!(m.name_ru, "СтрНайти");
    assert_eq!(m.name_en, "StrFind");
    assert_eq!(m.signatures.len(), 1);
    assert_eq!(m.signatures[0].name, "Основная");
    assert_eq!(m.signatures[0].syntax, "СтрНайти(<Строка>, <Подстрока>)");
    assert_eq!(m.signatures[0].parameters.len(), 2);
    assert_eq!(m.signatures[0].parameters[0].name, "Строка");
    assert!(!m.signatures[0].parameters[0].is_optional);
    assert_eq!(m.signatures[0].parameters[1].name, "Направление");
    assert!(m.signatures[0].parameters[1].is_optional);
    let rv = m.return_value.expect("return value");
    assert_eq!(rv.value_type, "Число");
    assert_eq!(rv.description, "Позиция подстроки.");
    assert_eq!(m.description, "Находит **первое** вхождение.");
    assert_eq!(m.related_objects.len(), 1);
    assert_eq!(m.related_objects[0].name, "Строка");
    assert_eq!(m.related_objects[0].href, "v8help://SyntaxHelperContext/def_String");
    assert!(m.example.is_none());
    assert!(m.note.is_none());
}

#[test]
fn method_page_overloads() {
    let html = "<body><p class=\"V8SH_heading\">Найти</p>\
<p class=\"V8SH_chapter\">Вариант синтаксиса: По строке</p>\
<p class=\"V8SH_chapter\">Синтаксис:</p><p>Найти(Строка)</p>\
<p class=\"V8SH_chapter\">Вариант синтаксиса: По числу</p>\
<p class=\"V8SH_chapter\">Синтаксис:</p><p>Найти(Число)</p>\
<p class=\"V8SH_chapter\">Описание варианта метода:</p><p>Ищет число.</p></body>";
    let m = parse_method_page(html);
    assert_eq!(m.signatures.len(), 2);
    assert_eq!(m.signatures[0].name, "По строке");
    assert_eq!(m.signatures[0].syntax, "Найти(Строка)");
    assert_eq!(m.signatures[1].name, "По числу");
    assert_eq!(m.signatures[1].syntax, "Найти(Число)");
    assert_eq!(m.signatures[1].description, "Ищет число.");
    assert_eq!(m.name_en, "");
}

#[test]
fn catalogue_method_page_has_no_signature() {
    let html = "<body><p class=\"V8SH_heading\">Функции</p><p class=\"V8SH_chapter\">Описание:</p><p>Раздел.</p></body>";
    let m = parse_method_page(html);
    assert!(m.signatures.is_empty());
    assert_eq!(m.description, "Раздел.");
}

#[test]
fn property_page_fields() {
    let html = "<body><p class=\"V8SH_heading\">Колонки (Columns)</p>\
<p class=\"V8SH_chapter\">Описание:</p><p>Тип: КоллекцияКолонок. Колонки таблицы.</p>\
<p class=\"V8SH_chapter\">Использование:</p><p>Только чтение.</p>\
<p class=\"V8SH_chapter\">Примечание:</p><p>Заметка.</p></body>";
    let p = parse_property_page(html);
    assert_eq!(p.name_ru, "Колонки");
    assert_eq!(p.name_en, "Columns");
    assert_eq!(p.value_type, "КоллекцияКолонок");
    assert_eq!(p.description, "Колонки таблицы.");
    assert!(p.readonly);
    assert_eq!(p.note.as_deref(), Some("Заметка."));
}

#[test]
fn object_page_fields() {
    let html = "<body><p class=\"V8SH_title\">ТаблицаЗначений (ValueTable)</p>\
<p class=\"V8SH_chapter\">Описание:</p><p>Таблица.</p>\
<p class=\"V8SH_chapter\">Пример:</p><p>Т = Новый ТаблицаЗначений;<br>Т.Очистить();</p>\
<p class=\"V8SH_chapter\">Методы:</p><p>игнорируется</p></body>";
    let o = parse_object_page(html);
    assert_eq!(o.name_ru, "ТаблицаЗначений");
    assert_eq!(o.name_en, "ValueTable");
    assert_eq!(o.description, "Таблица.");
    assert_eq!(o.example.as_deref(), Some("Т = Новый ТаблицаЗначений;\nТ.Очистить();"));
    assert!(o.methods.is_empty() && o.properties.is_empty() && o.constructors.is_empty());
}

#[test]
fn enum_and_value_pages() {
    let e = parse_enum_page("<body><p class=\"V8SH_heading\">ТипРазмещения (PlacementType)</p><p class=\"V8SH_chapter\">Описание:</p><p>Размещение.</p><p class=\"V8SH_chapter\">Примечание:</p><p>не читается</p></body>");
    assert_eq!(e.name_ru, "ТипРазмещения");
    assert_eq!(e.name_en, "PlacementType");
    assert_eq!(e.description, "Размещение.");
    assert!(e.values.is_empty());
    let v = parse_enum_value_page("<body><p class=\"V8SH_heading\">Переносить (Wrap)</p><p class=\"V8SH_chapter\">Описание:</p><p>Перенос слов.</p></body>");
    assert_eq!(v.name_ru, "Переносить");
    assert_eq!(v.name_en, "Wrap");
    assert_eq!(v.description, "Перенос слов.");
}

#[test]
fn constructor_page_fields() {
    let html = "<body><p class=\"V8SH_heading\">По умолчанию</p>\
<p class=\"V8SH_chapter\">Синтаксис:</p><p>Новый Массив(&lt;Количество&gt;)</p>\
<p class=\"V8SH_chapter\">Параметры:</p><div class=\"V8SH_rubric\">&lt;Количество&gt; (необязательный)</div></body>";
    let c = parse_constructor_page(html);
    assert_eq!(c.name, "По умолчанию");
    assert_eq!(c.syntax, "Новый Массив(<Количество>)");
    assert_eq!(c.parameters.len(), 1);
    assert_eq!(c.parameters[0].name, "Количество");
    assert!(c.parameters[0].is_optional);
}

#[test]
fn chapters_split_on_markers() {
    let chs = split_chapters("<body><p class=\"V8SH_title\">Т</p><hr><p>а</p><p class=\"V8SH_chapter\"> Описание: </p><p>б</p></body>");
    assert_eq!(chs.len(), 3);
    assert_eq!(chs[0].title, "");
    assert!(chs[0].body_html.contains("V8SH_title"));
    assert_eq!(chs[1].title, "");
    assert_eq!(chs[1].body_html, "<p>а</p>");
    assert_eq!(chs[2].title, "Описание:");
    assert_eq!(chs[2].body_html, "<p>б</p>");
}

#[test]
fn text_without_tags() {
    assert_eq!(extract_text("<p>  Один   <b>два</b>\n три </p>"), "Один два три");
    assert_eq!(parse_syntax("<p>А(&lt;Б&gt;)</p>"), "А(<Б>)");
}

#[test]
fn markdown_of_lists_and_headings() {
    let md = to_markdown("<h2>Заголовок</h2><p>Текст</p><ul><li>один</li><li>два</li></ul>");
    assert_eq!(md, "## Заголовок\n\nТекст\n\n* один\n* два");
}

#[test]
fn markdown_of_links() {
    let md = to_markdown("<p>См. <a href=\"https://x.ru\">сайт</a> и <a href=\"v8help://a\">Тип</a></p>");
    assert_eq!(md, "См. [сайт](https://x.ru) и `Тип`");
}

#[test]
fn markdown_of_code_and_pre() {
    assert_eq!(to_markdown("<p><i>к</i> <code>х</code></p>"), "*к* `х`");
    assert_eq!(to_markdown("<pre><code>а</code></pre>"), "```\nа\n```");
}

#[test]
fn example_line_breaks() {
    assert_eq!(parse_example("А&nbsp;=&nbsp;1;<BR>Б = 2;<br/>В = 3;"), "А = 1;\nБ = 2;\nВ = 3;");
}

#[test]
fn readonly_flag() {
    assert!(parse_readonly("<p>Только чтение.</p>"));
    assert!(!parse_readonly("<p>Чтение и запись.</p>"));
}

#[test]
fn value_info_needs_a_type() {
    assert!(parse_value_info("<p>Описание без типа</p>").is_none());
    assert!(parse_value_info("<p>Тип: </p>").is_none());
    let v = parse_value_info("<p>Значение. Тип: Булево</p>").expect("value");
    assert_eq!(v.value_type, "Булево");
    assert_eq!(v.description, "");
}

#[test]
fn head_names() {
    assert_eq!(
        parse_head_name("<p class=\"V8SH_title\">ТаблицаЗначений (ValueTable)</p>"),
        ("ТаблицаЗначений".to_string(), "ValueTable".to_string())
    );
    assert_eq!(
        parse_head_name("<p class=\"V8SH_heading\">Имя (Русское слово)</p>"),
        ("Имя (Русское слово)".to_string(), String::new())
    );
    assert_eq!(parse_head_name("<p>без заголовка</p>"), (String::new(), String::new()));
}

#[test]
fn related_links() {
    let r = parse_related_objects("<a href=\"v8help://x\">Строка ,  Число</a><a href=\"h\"> </a><a>Без ссылки</a>");
    assert_eq!(r.len(), 2);
    assert_eq!(r[0].name, "Строка, Число");
    assert_eq!(r[0].href, "v8help://x");
    assert_eq!(r[1].name, "Без ссылки");
    assert_eq!(r[1].href, "");
}

#[test]
fn parameters_from_rubrics() {
    let ps = parse_parameters("<div class=\"V8SH_rubric\">&lt;А&gt;</div><div class=\"V8SH_rubric\">  </div><div class=\"V8SH_rubric\">Б</div>");
    assert_eq!(ps.len(), 2);
    assert_eq!(ps[0].name, "А");
    assert!(!ps[0].is_optional);
    assert_eq!(ps[1].name, "Б");
    assert_eq!(ps[1].value_type, "");
}

#[test]
fn collapse_leaves_single_spaces() {
    assert_eq!(collapse_whitespace(" а \t\n б  "), " а б ");
    assert_eq!(collapse_whitespace(""), "");
}

#[test]
fn chapters_from_given_nodes() {
    let el = |name: &str, attr: Option<&str>, text: &str, html: &str| BodyNode::Element {
        name: name.to_string(),
        attr: attr.map(|a| a.to_string()),
        text: text.to_string(),
        html: html.to_string(),
    };
    let nodes = vec![
        el("p", Some("V8SH_title"), "Имя", "<p class=\"V8SH_title\">Имя</p>"),
        BodyNode::Text("\n".to_string()),
        el("P", Some("V8SH_chapter"), "  Синтаксис:\n", "<p>..</p>"),
        el("p", None, "А()", "<p>А()</p>"),
        BodyNode::Other,
        el("HR", None, "", "<hr>"),
    ];
    let chs = chapters_from_nodes(&nodes);
    assert_eq!(chs.len(), 3);
    assert_eq!(chs[0].body_html, "<p class=\"V8SH_title\">Имя</p>\n");
    assert_eq!(chs[1].title, "Синтаксис:");
    assert_eq!(chs[1].body_html, "<p>А()</p>");
    assert_eq!(chs[2].title, "");
    assert_eq!(chs[2].body_html, "");
}

#[test]
fn markdown_from_given_events() {
    let open = |n: &str, a: Option<&str>| HtmlEvent::Open { name: n.to_string(), attr: a.map(|x| x.to_string()) };
    let close = |n: &str| HtmlEvent::Close(n.to_string());
    let text = |t: &str| HtmlEvent::Text(t.to_string());
    let events = vec![
        HtmlEvent::Other,
        open("H3", None),
        text("Т"),
        close("H3"),
        open("ol", None),
        open("ul", None),
        open("li", None),
        text("вложенный"),
        close("li"),
        close("ul"),
        close("ol"),
        open("blockquote", None),
        open("a", Some("v8help://x")),
        text("  ссылка \n "),
        close("a"),
        close("blockquote"),
        open("a", None),
        text(" "),
        close("a"),
    ];
    assert_eq!(markdown_of_events(&events), "### Т\n\n  * вложенный\n> `ссылка`");
}

#[test]
fn value_info_from_given_markdown() {
    let v = value_info_from_markdown("Описание.\nТип:   Строка, Число. Значение **поля**.").expect("value");
    assert_eq!(v.value_type, "Строка, Число");
    assert_eq!(v.description, "Значение **поля**.");
    assert!(value_info_from_markdown("Тип:.").is_none());
}

#[test]
fn collapse_keeps_text_and_is_stable() {
    let once = collapse_whitespace("Таблица\t\n значений  ,\r\n строка");
    assert_eq!(once, "Таблица значений , строка");
    assert_eq!(collapse_whitespace(&once), once);
}
