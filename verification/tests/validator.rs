use bsl_context::check::{levenshtein, top_similar, validate_method_call};
use bsl_context::entities::{EnumValue, Method, Parameter, Signature, Type};
use bsl_context::expression::{
    count_top_level_args, mask_strings_and_comments, validate_expression,
    validate_expression_at_level, validate_expression_with_profile, Confidence, ExprErrorKind,
    Profile,
};
use bsl_context::scope::{extract_scope_map, extract_type_annotations};
use bsl_context::storage::PlatformIndex;

fn enum_v(ru: &str) -> EnumValue {
    EnumValue { name_ru: ru.to_string(), name_en: String::new(), description: String::new() }
}

#[test]
fn levenshtein_basic() {
    assert_eq!(levenshtein("Перенос", "Переносить"), 3);
    assert_eq!(levenshtein("Авто", "Авто"), 0);
    assert_eq!(levenshtein("", "abc"), 3);
}

#[test]
fn similarity_finds_closest_value() {
    let values = vec![enum_v("Авто"), enum_v("Забивать"), enum_v("Обрезать"), enum_v("Переносить")];
    let top = top_similar("перенос", &values, 3);
    assert_eq!(top[0].name, "Переносить");
}

#[test]
fn mask_keeps_positions() {
    let src = "Если А = \"строка\" Тогда";
    let masked = mask_strings_and_comments(src);
    assert_eq!(masked.len(), src.len());
    assert!(masked.contains("Если А ="));
    assert!(!masked.contains("строка"));
}

#[test]
fn mask_handles_comment_to_eol() {
    let src = "А = 1; // комментарий\nБ = 2;";
    let masked = mask_strings_and_comments(src);
    assert!(masked.contains("А = 1;"));
    assert!(!masked.contains("комментарий"));
    assert!(masked.contains("Б = 2;"));
}

#[test]
fn count_args_simple() {
    assert_eq!(count_top_level_args(""), 0);
    assert_eq!(count_top_level_args(" "), 0);
    assert_eq!(count_top_level_args("а"), 1);
    assert_eq!(count_top_level_args("а, б, в"), 3);
    assert_eq!(count_top_level_args("а, Функция(б, в), г"), 3);
}

#[test]
fn confidence_mapping() {
    assert_eq!(ExprErrorKind::UnknownEnumValue.confidence(), Confidence::High);
    assert_eq!(ExprErrorKind::WrongArgumentCount.confidence(), Confidence::High);
    assert_eq!(ExprErrorKind::UnknownTypeMember.confidence(), Confidence::Low);
    assert_eq!(ExprErrorKind::UnknownNewType.confidence(), Confidence::Low);
    assert_eq!(ExprErrorKind::UnknownGlobalMethod.confidence(), Confidence::Low);
}

#[test]
fn profile_parse_or_default() {
    assert_eq!(Profile::parse_or_default(Some("strict")), Profile::Strict);
    assert_eq!(Profile::parse_or_default(Some("  STRICT ")), Profile::Strict);
    assert_eq!(Profile::parse_or_default(Some("full")), Profile::Full);
    assert_eq!(Profile::parse_or_default(Some("чтотоиное")), Profile::Full);
    assert_eq!(Profile::parse_or_default(None), Profile::Full);
    assert_eq!(Profile::default(), Profile::Full);
}

fn test_index() -> PlatformIndex {
    let mut index = PlatformIndex::new();
    index.insert_type(Type {
        name_ru: "ЦветТест".into(),
        name_en: "ColorTest".into(),
        description: String::new(),
        methods: Vec::new(),
        properties: Vec::new(),
        constructors: Vec::new(),
        enum_values: vec![EnumValue {
            name_ru: "Красный".into(),
            name_en: "Red".into(),
            description: String::new(),
        }],
    });
    index.insert_type(Type {
        name_ru: "СтруктураТест".into(),
        name_en: "StructTest".into(),
        description: String::new(),
        methods: vec![Method {
            name_ru: "Вставить".into(),
            name_en: "Insert".into(),
            description: String::new(),
            return_type: String::new(),
            signatures: Vec::new(),
        }],
        properties: Vec::new(),
        constructors: Vec::new(),
        enum_values: Vec::new(),
    });
    index
}

#[test]
fn profile_full_returns_all_findings() {
    let index = test_index();
    let src = "А = ЦветТест.Синий;\nБ = СтруктураТест.Опечатка;";
    let result = validate_expression_with_profile(&index, src, 1, Profile::Full);
    assert!(!result.valid);
    assert_eq!(result.errors.len(), 2, "full должен вернуть обе находки");
    assert!(result
        .errors
        .iter()
        .any(|e| e.kind == ExprErrorKind::UnknownEnumValue && e.confidence == Confidence::High));
    assert!(result
        .errors
        .iter()
        .any(|e| e.kind == ExprErrorKind::UnknownTypeMember && e.confidence == Confidence::Low));
}

#[test]
fn profile_strict_keeps_only_high_confidence() {
    let index = test_index();
    let src = "А = ЦветТест.Синий;\nБ = СтруктураТест.Опечатка;";
    let result = validate_expression_with_profile(&index, src, 2, Profile::Strict);
    assert!(!result.valid);
    assert_eq!(result.errors.len(), 1, "strict должен оставить только high-confidence находку");
    assert_eq!(result.errors[0].kind, ExprErrorKind::UnknownEnumValue);
    assert_eq!(result.errors[0].confidence, Confidence::High);
}

#[test]
fn extract_annotations_finds_type_directive() {
    let src = "// @type ТаблицаЗначений\nХ = СоздатьТЗ();\n";
    let annot = extract_type_annotations(src);
    assert_eq!(annot.values().next(), Some(&"ТаблицаЗначений".to_string()));
}

// ---------------------------------------------------------------------------
// Further cases
// ---------------------------------------------------------------------------

fn global_index() -> PlatformIndex {
    let mut index = test_index();
    index.global_methods.push(Method {
        name_ru: "СтрНайти".into(),
        name_en: "StrFind".into(),
        description: String::new(),
        return_type: "Число".into(),
        signatures: vec![Signature {
            name: "Основная".into(),
            description: String::new(),
            parameters: vec![
                Parameter { name: "Строка".into(), value_type: "Строка".into(), required: true, description: String::new() },
                Parameter { name: "Подстрока".into(), value_type: "Строка".into(), required: true, description: String::new() },
                Parameter { name: "Направление".into(), value_type: "Число".into(), required: false, description: String::new() },
            ],
        }],
    });
    index
}

#[test]
fn method_call_within_overload_is_valid() {
    let index = global_index();
    let r = validate_method_call(&index, "стрнайти", 2);
    assert!(r.valid);
    assert_eq!(r.method_name, "СтрНайти");
    assert_eq!(r.arg_count, 2);
    let r3 = validate_method_call(&index, "СтрНайти", 3);
    assert!(r3.valid);
}

#[test]
fn method_call_with_extra_argument_is_rejected() {
    let index = global_index();
    let r = validate_method_call(&index, "СтрНайти", 4);
    assert!(!r.valid);
    assert!(r.message.contains("не принимает 4 аргументов"));
}

#[test]
fn unknown_global_method_is_rejected() {
    let index = global_index();
    let r = validate_method_call(&index, "НетТакого", 1);
    assert!(!r.valid);
    assert!(r.signatures.is_empty());
}

#[test]
fn expression_with_wrong_argument_count() {
    let index = global_index();
    let r = validate_expression(&index, "Х = СтрНайти(А, Б, В, Г);");
    assert!(!r.valid);
    assert_eq!(r.errors.len(), 1);
    assert_eq!(r.errors[0].kind, ExprErrorKind::WrongArgumentCount);
    assert_eq!(r.errors[0].line, 1);
}

#[test]
fn strings_and_comments_are_not_checked() {
    let index = global_index();
    let r = validate_expression(&index, "Х = \"ЦветТест.Синий\"; // ЦветТест.Синий");
    assert!(r.valid);
    assert!(r.errors.is_empty());
}

#[test]
fn correct_enum_value_passes() {
    let index = test_index();
    let r = validate_expression(&index, "А = ЦветТест.Красный;");
    assert!(r.valid);
}

#[test]
fn unknown_new_type_is_low_confidence() {
    let index = test_index();
    let r = validate_expression(&index, "А = Новый НеизвестныйТип;");
    assert_eq!(r.errors.len(), 1);
    assert_eq!(r.errors[0].kind, ExprErrorKind::UnknownNewType);
    assert_eq!(r.errors[0].confidence, Confidence::Low);
}

#[test]
fn level2_follows_local_variable() {
    let index = test_index();
    let src = "Процедура П()\n    Х = Новый СтруктураТест;\n    Х.Опечатка();\nКонецПроцедуры";
    let l1 = validate_expression_at_level(&index, src, 1);
    assert!(l1.valid);
    let l2 = validate_expression_at_level(&index, src, 2);
    assert!(!l2.valid);
    assert_eq!(l2.errors[0].kind, ExprErrorKind::UnknownTypeMember);
}

#[test]
fn masked_text_keeps_byte_length_with_comment() {
    let src = "А = 1; // комментарий\nБ = \"ё\"\"ж\";";
    assert_eq!(mask_strings_and_comments(src).len(), src.len());
}

#[test]
fn higher_level_keeps_level1_findings() {
    let index = test_index();
    let src = "Процедура П()\n    Х = Новый СтруктураТест;\n    Х.Опечатка();\n    А = ЦветТест.Синий;\nКонецПроцедуры";
    let l1 = validate_expression_at_level(&index, src, 1);
    let l2 = validate_expression_at_level(&index, src, 2);
    assert_eq!(l1.errors.len(), 1);
    assert_eq!(l1.errors[0].kind, ExprErrorKind::UnknownEnumValue);
    assert!(l2.errors.iter().any(|e| e.kind == l1.errors[0].kind && e.line == l1.errors[0].line && e.col == l1.errors[0].col));
    assert_eq!(l2.errors.len(), 2);
}

#[test]
fn annotation_types_only_the_first_assignment_after_it() {
    let index = PlatformIndex::new();
    let src = "// @type ТаблицаЗначений\nХ = 1;\nУ = 2;\n";
    let cleaned = mask_strings_and_comments(src);
    let annotations = extract_type_annotations(src);
    let map = extract_scope_map(&index, &cleaned, &annotations);
    assert_eq!(map.scopes.len(), 1);
    assert_eq!(map.type_of_var(10, "х").map(|t| t.as_str()), Some("ТаблицаЗначений"));
    assert_eq!(map.type_of_var(10, "у"), None);
}

#[test]
fn annotation_stops_at_an_empty_line() {
    let index = PlatformIndex::new();
    let src = "// @type ТаблицаЗначений\n\nХ = 1;\n";
    let cleaned = mask_strings_and_comments(src);
    let annotations = extract_type_annotations(src);
    let map = extract_scope_map(&index, &cleaned, &annotations);
    assert_eq!(map.type_of_var(10, "х"), None);
}

#[test]
fn annotation_skips_lines_without_assignment() {
    let index = PlatformIndex::new();
    let src = "Процедура П()\n// @type Массив\nСообщить(1);\nМ = Получить();\nН = 2;\nКонецПроцедуры";
    let cleaned = mask_strings_and_comments(src);
    let annotations = extract_type_annotations(src);
    let map = extract_scope_map(&index, &cleaned, &annotations);
    assert_eq!(map.scopes.len(), 1);
    let inside = src.find("Н = 2").unwrap();
    assert_eq!(map.type_of_var(inside, "м").map(|t| t.as_str()), Some("Массив"));
    assert_eq!(map.type_of_var(inside, "н"), None);
}
