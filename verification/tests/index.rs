use bsl_context::entities::{Constructor, EnumValue, Method, Parameter, Property, Signature, Type};
use bsl_context::expression::Profile;
use bsl_context::hbk_models::{DoubleLanguageString, Page};
use bsl_context::search::{SearchEngine, StartWithIndex};
use bsl_context::server::BslContextServer;
use bsl_context::storage::PlatformIndex;
use bsl_context::visitor::{classify_root, collect_root_pages, drill_down, is_catalog_page_path, RootKind};

fn ty(ru: &str, en: &str) -> Type {
    Type {
        name_ru: ru.into(),
        name_en: en.into(),
        description: String::new(),
        methods: Vec::new(),
        properties: Vec::new(),
        constructors: Vec::new(),
        enum_values: Vec::new(),
    }
}

fn sample_index() -> PlatformIndex {
    let mut index = PlatformIndex::new();
    let mut table = ty("ТаблицаЗначений", "ValueTable");
    table.description = "Таблица.".into();
    table.methods.push(Method {
        name_ru: "Добавить".into(),
        name_en: "Add".into(),
        description: "Добавляет строку.".into(),
        return_type: "СтрокаТаблицыЗначений".into(),
        signatures: vec![Signature { name: "Основная".into(), description: String::new(), parameters: Vec::new() }],
    });
    table.properties.push(Property {
        name_ru: "Колонки".into(),
        name_en: "Columns".into(),
        description: "Колонки таблицы.".into(),
        value_type: "КоллекцияКолонок".into(),
        readonly: true,
    });
    table.constructors.push(Constructor {
        name: "По умолчанию".into(),
        description: "Пустая таблица.".into(),
        parameters: vec![Parameter { name: "П".into(), value_type: "Число".into(), required: false, description: String::new() }],
    });
    index.insert_type(table);
    let mut colour = ty("ЦветТекста", "TextColor");
    colour.enum_values.push(EnumValue { name_ru: "Красный".into(), name_en: "Red".into(), description: String::new() });
    index.insert_type(colour);
    index.global_methods.push(Method {
        name_ru: "СтрДлина".into(),
        name_en: "StrLen".into(),
        description: "Длина строки.".into(),
        return_type: "Число".into(),
        signatures: Vec::new(),
    });
    index.global_properties.push(Property {
        name_ru: "РабочаяДата".into(),
        name_en: "WorkingDate".into(),
        description: String::new(),
        value_type: "Дата".into(),
        readonly: false,
    });
    index
}

#[test]
fn insert_then_find_ignores_case() {
    let index = sample_index();
    assert_eq!(index.find_type("таблицазначений").map(|t| t.name_en.as_str()), Some("ValueTable"));
    assert_eq!(index.find_type("ТАБЛИЦАЗНАЧЕНИЙ").map(|t| t.name_en.as_str()), Some("ValueTable"));
    assert!(index.find_type("Нет").is_none());
    assert_eq!(index.enum_types_count(), 1);
}

#[test]
fn insert_replaces_same_key() {
    let mut index = sample_index();
    index.insert_type(ty("таблицаЗНАЧЕНИЙ", "Replaced"));
    assert_eq!(index.types_len(), 2);
    assert_eq!(index.find_type("ТаблицаЗначений").map(|t| t.name_en.as_str()), Some("Replaced"));
    assert_eq!(index.find_type("ЦветТекста").map(|t| t.name_en.as_str()), Some("TextColor"));
}

#[test]
fn engine_finds_by_exact_name() {
    let index = sample_index();
    let engine = SearchEngine::from_index(&index);
    assert_eq!(engine.find_method("стрдлина").map(|m| m.name_en.as_str()), Some("StrLen"));
    assert_eq!(engine.find_property("РабочаяДата").map(|p| p.value_type.as_str()), Some("Дата"));
    assert_eq!(engine.find_type("цветтекста").map(|t| t.enum_values.len()), Some(1));
}

#[test]
fn search_by_prefix_and_limit() {
    let index = sample_index();
    let engine = SearchEngine::from_index(&index);
    let r = engine.search("табл", 10);
    assert_eq!(r.len(), 1);
    let none = engine.search("   ", 10);
    assert!(none.is_empty());
    let all = engine.search("ст", 1);
    assert!(all.len() <= 1);
}

#[test]
fn server_clamps_level() {
    let s = BslContextServer::with_defaults(sample_index(), 7, Profile::Strict);
    assert_eq!(s.default_validation_level, 2);
    assert_eq!(s.validation_settings(None, None), (2, Profile::Strict));
    assert_eq!(s.validation_settings(Some(0), Some("full")), (1, Profile::Full));
    let d = BslContextServer::new(sample_index());
    assert_eq!(d.default_validation_level, 1);
}

#[test]
fn server_members_and_errors() {
    let s = BslContextServer::new(sample_index());
    let members = s.get_members("таблицазначений");
    assert!(members.starts_with("# ТаблицаЗначений\n\nТаблица.\n\n"));
    assert_eq!(s.get_members("Нет"), "❌ **Не найдено:** тип 'Нет' не найден\n");
    assert!(s.get_member("ТаблицаЗначений", "добавить").starts_with("### Добавить\n\n"));
    assert_eq!(
        s.get_member("ТаблицаЗначений", "Удалить"),
        "❌ **Не найдено:** у типа 'ТаблицаЗначений' нет члена 'Удалить'\n"
    );
    assert_eq!(s.get_constructors("ЦветТекста"), "У типа 'ЦветТекста' нет конструкторов.\n");
    assert!(s.get_constructors("ТаблицаЗначений").starts_with("Конструкторы объекта ТаблицаЗначений\n"));
    assert!(s.get_enum_values("ЦветТекста").starts_with("Значения системного перечисления ЦветТекста\n\n"));
    assert_eq!(
        s.get_enum_values("ТаблицаЗначений"),
        "❌ **Тип не является системным перечислением:** 'ТаблицаЗначений' не имеет enum_values\n"
    );
}

#[test]
fn server_info_by_kind() {
    let s = BslContextServer::new(sample_index());
    assert!(s.info("СтрДлина", None).starts_with("### СтрДлина\n\n"));
    assert!(s.info("РабочаяДата", Some("PROPERTY")).starts_with("### РабочаяДата\n\n"));
    assert_eq!(
        s.info("СтрДлина", Some("type")),
        "❌ **Не найдено:** элемент 'СтрДлина' не найден в платформенном контексте\n"
    );
    assert!(s.search("стрдл", None).starts_with("# Результаты поиска: 'стрдл'\n\n"));
}

#[test]
fn server_validate_enum() {
    let s = BslContextServer::new(sample_index());
    let ok = s.validate_enum("ЦветТекста", "красный");
    assert!(ok.valid);
    assert!(ok.similar.is_empty());
    let bad = s.validate_enum("ЦветТекста", "Красны");
    assert!(!bad.valid);
    assert_eq!(bad.similar[0].name, "Красный");
    let r = s.validate_expression("А = ЦветТекста.Синий;", None, None);
    assert!(!r.valid);
}

fn page(ru: &str, path: &str) -> Page {
    Page::new(DoubleLanguageString::new(String::new(), ru.to_string()), path.to_string())
}

#[test]
fn root_kinds() {
    assert_eq!(classify_root(&page("Глобальный контекст", "/Global context.html")), RootKind::GlobalContext);
    assert_eq!(classify_root(&page("Системные перечисления", "/enums.html")), RootKind::EnumsCatalog);
    let mut en = page("", "/x.html");
    en.title.en = "Системные наборы значений".into();
    assert_eq!(classify_root(&en), RootKind::EnumsCatalog);
    assert_eq!(classify_root(&page("Общие объекты", "/objects.html")), RootKind::TypesCatalog);
}

#[test]
fn catalogue_paths() {
    assert!(is_catalog_page_path("objects/catalog123.html"));
    assert!(!is_catalog_page_path("objects/catalog.html"));
    assert!(!is_catalog_page_path("/catalog12.htm"));
    assert!(is_catalog_page_path("/a/catalog1.html#x"));
}

#[test]
fn drill_down_reaches_leaves() {
    let mut root = page("Общие объекты", "/objects.html");
    let mut cat = page("Раздел", "/objects/catalog7.html");
    cat.children.push(page("ТаблицаЗначений", "/objects/ValueTable.html"));
    cat.children.push(page("Пустая", ""));
    root.children.push(cat);
    root.children.push(page("Массив", "/objects/Array.html"));
    let mut out = Vec::new();
    drill_down(&root, &mut out);
    let names: Vec<&str> = out.iter().map(|p| p.title.ru.as_str()).collect();
    assert_eq!(names, vec!["ТаблицаЗначений", "Массив"]);
}

#[test]
fn root_pages_sorted() {
    let pages = vec![
        page("Глобальный контекст", "/Global context.html"),
        page("", ""),
        page("Системные перечисления", "/enums.html"),
        page("Общие объекты", "/objects.html"),
    ];
    let r = collect_root_pages(&pages);
    assert!(r.global_context.is_some());
    assert_eq!(r.enums.len(), 1);
    assert_eq!(r.types.len(), 1);
}

#[test]
fn engine_finds_method_by_english_name() {
    let mut index = PlatformIndex::new();
    index.global_methods.push(Method {
        name_ru: "СтрНайти".into(),
        name_en: "StrFind".into(),
        description: String::new(),
        return_type: String::new(),
        signatures: Vec::new(),
    });
    let engine = SearchEngine::from_index(&index);
    assert_eq!(engine.find_method("стрнайти").map(|m| m.name_ru.as_str()), Some("СтрНайти"));
    assert_eq!(engine.find_method("StrFind").map(|m| m.name_ru.as_str()), Some("СтрНайти"));
    assert_eq!(engine.find_method("strfind").map(|m| m.name_ru.as_str()), Some("СтрНайти"));
    assert!(engine.find_method("StrFin").is_none());
}

#[test]
fn catalogue_paths_with_other_decimal_digits() {
    assert!(is_catalog_page_path("/objects/catalog\u{0661}\u{0662}.html"));
    assert!(is_catalog_page_path("/objects/catalog\u{0967}.html"));
    assert!(is_catalog_page_path("/objects/catalog\u{FF11}\u{FF10}.html"));
    assert!(!is_catalog_page_path("/objects/catalog\u{00B2}.html"));
    assert!(!is_catalog_page_path("/objects/catalog\u{2160}.html"));
}

#[test]
fn drill_down_enters_pages_numbered_in_other_digits() {
    let mut root = page("Общие объекты", "/objects.html");
    let mut cat = page("Раздел", "/catalog\u{0661}.html");
    cat.children.push(page("Массив", "/objects/Array.html"));
    root.children.push(cat);
    let mut out = Vec::new();
    drill_down(&root, &mut out);
    let names: Vec<&str> = out.iter().map(|p| p.title.ru.as_str()).collect();
    assert_eq!(names, vec!["Массив"]);
}

fn first_key(x: &(String, i32)) -> &str {
    x.0.as_str()
}

#[test]
fn prefix_index_keeps_last_item_per_key_in_order() {
    let items = vec![("Бета".to_string(), 1), ("альфа".to_string(), 2), ("БЕТА".to_string(), 3), ("бетон".to_string(), 4)];
    let idx = StartWithIndex::from_iter_with(items, first_key);
    assert_eq!(idx.len(), 3);
    let all: Vec<i32> = idx.starts_with("").iter().map(|x| x.1).collect();
    assert_eq!(all, vec![2, 3, 4]);
    let bet: Vec<i32> = idx.starts_with("БЕТ").iter().map(|x| x.1).collect();
    assert_eq!(bet, vec![3, 4]);
    assert!(idx.starts_with("я").is_empty());
}

#[test]
fn engine_answers_as_the_index() {
    let index = sample_index();
    let engine = SearchEngine::from_index(&index);
    for n in ["таблицазначений", "ЦветТекста", "Нет"] {
        assert_eq!(engine.find_type(n).map(|t| t.name_en.clone()), index.find_type(n).map(|t| t.name_en.clone()));
    }
    for n in ["СтрДлина", "стрдлина"] {
        assert_eq!(engine.find_method(n).map(|m| m.name_en.clone()), index.find_global_method(n).map(|m| m.name_en.clone()));
    }
    assert!(index.find_global_method("Нет").is_none() && engine.find_method("Нет").is_none());
    for n in ["РабочаяДата", "рабочаядата", "Нет"] {
        assert_eq!(
            engine.find_property(n).map(|p| p.value_type.clone()),
            index.find_global_property(n).map(|p| p.value_type.clone())
        );
    }
}
