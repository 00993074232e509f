//! Parsers of whole help pages: methods (with their overloads), properties,
//! types, system enumerations and their values, constructors.
//!
//! A page is cut into chapters; the first holds the names, each other one is
//! read by the parser of its kind, chosen by the chapter's title. Chapters
//! a page kind does not read are skipped.
use vstd::prelude::*;

use crate::blocks::{
    example_of, head_name, parameters_of, parse_description, parse_example, parse_head_name,
    parse_note, parse_parameters, parse_readonly, parse_related_objects, parse_syntax,
    parse_value_info, related_of, value_info_of,
};
use crate::html::{markdown, page_chapters, plain_text, split_chapters, Chapter};
use crate::page_models::{
    ConstructorInfo, ConstructorInfoModel, EnumInfo, EnumInfoModel, EnumValueInfo,
    EnumValueInfoModel, MethodInfo, MethodInfoModel, MethodParameterInfo, MethodSignatureInfo,
    ObjectInfo, ObjectInfoModel, ParameterInfoModel, PropertyInfo, PropertyInfoModel,
    RelatedObject, SignatureInfoModel, };
use crate::seqs::lemma_deep_view_push;
use crate::text::{chars_of, copy_range, str_eq, starts_with_str, string_from_chars, trim, trim_vec};

verus! {

/// The html of the head of a page (its first chapter), empty without chapters.
pub open spec fn head_of(chs: Seq<(Seq<char>, Seq<char>)>) -> Seq<char> {
    if chs.len() > 0 {
        chs[0].1
    } else {
        Seq::empty()
    }
}

/// The chapters after the head.
pub open spec fn body_chapters(chs: Seq<(Seq<char>, Seq<char>)>) -> Seq<(Seq<char>, Seq<char>)> {
    if chs.len() > 0 {
        chs.drop_first()
    } else {
        chs
    }
}

fn head_html(chapters: &Vec<Chapter>) -> (r: &str)
    ensures
        r@ == head_of(chapters.deep_view()),
{
    if chapters.len() > 0 {
        chapters[0].body_html.as_str()
    } else {
        proof {
            reveal_strlit("");
        }
        ""
    }
}

// ---------------------------------------------------------------------------
// Chapters shared by several page kinds
// ---------------------------------------------------------------------------

/// Which of the optional chapters a page kind reads.
#[derive(Clone, Copy)]
pub struct Reads {
    pub example: bool,
    pub note: bool,
    pub syntax: bool,
}

/// What the shared chapters give.
pub struct SectionsModel {
    pub description: Seq<char>,
    pub example: Option<Seq<char>>,
    pub note: Option<Seq<char>>,
    pub related: Seq<(Seq<char>, Seq<char>)>,
    pub syntax: Seq<char>,
    pub parameters: Seq<ParameterInfoModel>,
}

pub open spec fn sections_start() -> SectionsModel {
    SectionsModel {
        description: Seq::empty(),
        example: None,
        note: None,
        related: Seq::empty(),
        syntax: Seq::empty(),
        parameters: Seq::empty(),
    }
}

/// What one chapter does: «Описание:», «См. также:» always; «Пример:»,
/// «Примечание:», «Синтаксис:» and «Параметры:» where the kind reads them.
pub open spec fn section_step(acc: SectionsModel, ch: (Seq<char>, Seq<char>), reads: Reads) -> SectionsModel {
    let title = ch.0;
    let body = ch.1;
    if title == "Описание:"@ {
        SectionsModel { description: markdown(body), ..acc }
    } else if title == "Пример:"@ && reads.example {
        SectionsModel { example: Some(example_of(body)), ..acc }
    } else if title == "См. также:"@ {
        SectionsModel { related: related_of(body), ..acc }
    } else if title == "Примечание:"@ && reads.note {
        SectionsModel { note: Some(markdown(body)), ..acc }
    } else if title == "Синтаксис:"@ && reads.syntax {
        SectionsModel { syntax: plain_text(body), ..acc }
    } else if title == "Параметры:"@ && reads.syntax {
        SectionsModel { parameters: parameters_of(body), ..acc }
    } else {
        acc
    }
}

pub open spec fn sections_of(chs: Seq<(Seq<char>, Seq<char>)>, reads: Reads) -> SectionsModel
    decreases chs.len(),
{
    if chs.len() == 0 {
        sections_start()
    } else {
        section_step(sections_of(chs.drop_last(), reads), chs.last(), reads)
    }
}

struct Sections {
    description: String,
    example: Option<String>,
    note: Option<String>,
    related: Vec<RelatedObject>,
    syntax: String,
    parameters: Vec<MethodParameterInfo>,
}

impl Sections {
    closed spec fn model(&self) -> SectionsModel {
        SectionsModel {
            description: self.description@,
            example: self.example.deep_view(),
            note: self.note.deep_view(),
            related: self.related.deep_view(),
            syntax: self.syntax@,
            parameters: self.parameters.deep_view(),
        }
    }
}

fn read_sections(chapters: &Vec<Chapter>, reads: Reads) -> (r: Sections)
    ensures
        r.model() == sections_of(body_chapters(chapters.deep_view()), reads),
{
    let mut acc = Sections {
        description: String::new(),
        example: None,
        note: None,
        related: Vec::new(),
        syntax: String::new(),
        parameters: Vec::new(),
    };
    proof {
        assert(acc.related.deep_view() =~= Seq::<(Seq<char>, Seq<char>)>::empty());
        assert(acc.parameters.deep_view() =~= Seq::<ParameterInfoModel>::empty());
        assert(acc.model() == sections_start());
    }
    if chapters.len() == 0 {
        return acc;
    }
    let ghost chs = body_chapters(chapters.deep_view());
    proof {
        assert(chs.take(0) =~= Seq::<(Seq<char>, Seq<char>)>::empty());
    }
    let mut i: usize = 1;
    while i < chapters.len()
        invariant
            1 <= i <= chapters.len(),
            chs == chapters.deep_view().drop_first(),
            acc.model() == sections_of(chs.take(i - 1), reads),
        decreases chapters.len() - i,
    {
        proof {
            let t = chs.take(i as int);
            assert(t.drop_last() =~= chs.take(i - 1));
            assert(t.last() == chapters[i as int].deep_view());
        }
        let title = chapters[i].title.as_str();
        let body = chapters[i].body_html.as_str();
        if str_eq(title, "Описание:") {
            acc.description = parse_description(body);
        } else if str_eq(title, "Пример:") && reads.example {
            acc.example = Some(parse_example(body));
        } else if str_eq(title, "См. также:") {
            acc.related = parse_related_objects(body);
        } else if str_eq(title, "Примечание:") && reads.note {
            acc.note = Some(parse_note(body));
        } else if str_eq(title, "Синтаксис:") && reads.syntax {
            acc.syntax = parse_syntax(body);
        } else if str_eq(title, "Параметры:") && reads.syntax {
            acc.parameters = parse_parameters(body);
        }
        i = i + 1;
    }
    proof {
        assert(chs.take(chs.len() as int) =~= chs);
    }
    acc
}

// ---------------------------------------------------------------------------
// Types, enumerations, enumeration values, constructors
// ---------------------------------------------------------------------------

pub open spec fn object_reads() -> Reads {
    Reads { example: true, note: true, syntax: false }
}

/// A type page: names, description, example, links and note. Its
/// properties, methods and constructors come from its child pages.
pub open spec fn object_of_chapters(chs: Seq<(Seq<char>, Seq<char>)>) -> ObjectInfoModel {
    let s = sections_of(body_chapters(chs), object_reads());
    ObjectInfoModel {
        name_ru: head_name(head_of(chs)).0,
        name_en: head_name(head_of(chs)).1,
        description: s.description,
        example: s.example,
        note: s.note,
        related_objects: s.related,
        properties: Seq::empty(),
        methods: Seq::empty(),
        constructors: Seq::empty(),
    }
}

/// Reads a type from the chapters of its page.
pub fn object_from_chapters(chapters: &Vec<Chapter>) -> (r: ObjectInfo)
    ensures
        r.deep_view() == object_of_chapters(chapters.deep_view()),
{
    let (name_ru, name_en) = parse_head_name(head_html(chapters));
    let s = read_sections(chapters, Reads { example: true, note: true, syntax: false });
    let r = ObjectInfo {
        name_ru,
        name_en,
        description: s.description,
        example: s.example,
        note: s.note,
        related_objects: s.related,
        properties: Vec::new(),
        methods: Vec::new(),
        constructors: Vec::new(),
    };
    proof {
        assert(r.properties.deep_view() =~= Seq::<PropertyInfoModel>::empty());
        assert(r.methods.deep_view() =~= Seq::<MethodInfoModel>::empty());
        assert(r.constructors.deep_view() =~= Seq::<ConstructorInfoModel>::empty());
    }
    r
}

/// Parses the page of a platform type.
pub fn parse_object_page(html: &str) -> (r: ObjectInfo)
    ensures
        r.deep_view() == object_of_chapters(page_chapters(html@)),
{
    let chapters = split_chapters(html);
    object_from_chapters(&chapters)
}

pub open spec fn enum_reads() -> Reads {
    Reads { example: true, note: false, syntax: false }
}

/// A system enumeration page: names, description, example and links. Its
/// values come from its child pages.
pub open spec fn enum_of_chapters(chs: Seq<(Seq<char>, Seq<char>)>) -> EnumInfoModel {
    let s = sections_of(body_chapters(chs), enum_reads());
    EnumInfoModel {
        name_ru: head_name(head_of(chs)).0,
        name_en: head_name(head_of(chs)).1,
        description: s.description,
        example: s.example,
        related_objects: s.related,
        values: Seq::empty(),
    }
}

/// Reads a system enumeration from the chapters of its page.
pub fn enum_from_chapters(chapters: &Vec<Chapter>) -> (r: EnumInfo)
    ensures
        r.deep_view() == enum_of_chapters(chapters.deep_view()),
{
    let (name_ru, name_en) = parse_head_name(head_html(chapters));
    let s = read_sections(chapters, Reads { example: true, note: false, syntax: false });
    let r = EnumInfo {
        name_ru,
        name_en,
        description: s.description,
        example: s.example,
        related_objects: s.related,
        values: Vec::new(),
    };
    proof {
        assert(r.values.deep_view() =~= Seq::<EnumValueInfoModel>::empty());
    }
    r
}

/// Parses the page of a system enumeration (without its values).
pub fn parse_enum_page(html: &str) -> (r: EnumInfo)
    ensures
        r.deep_view() == enum_of_chapters(page_chapters(html@)),
{
    let chapters = split_chapters(html);
    enum_from_chapters(&chapters)
}

pub open spec fn enum_value_reads() -> Reads {
    Reads { example: false, note: false, syntax: false }
}

/// A page of an enumeration value: names, description and links.
pub open spec fn enum_value_of_chapters(chs: Seq<(Seq<char>, Seq<char>)>) -> EnumValueInfoModel {
    let s = sections_of(body_chapters(chs), enum_value_reads());
    EnumValueInfoModel {
        name_ru: head_name(head_of(chs)).0,
        name_en: head_name(head_of(chs)).1,
        description: s.description,
        related_objects: s.related,
    }
}

/// Reads an enumeration value from the chapters of its page.
pub fn enum_value_from_chapters(chapters: &Vec<Chapter>) -> (r: EnumValueInfo)
    ensures
        r.deep_view() == enum_value_of_chapters(chapters.deep_view()),
{
    let (name_ru, name_en) = parse_head_name(head_html(chapters));
    let s = read_sections(chapters, Reads { example: false, note: false, syntax: false });
    EnumValueInfo { name_ru, name_en, description: s.description, related_objects: s.related }
}

/// Parses the page of a value of a system enumeration.
pub fn parse_enum_value_page(html: &str) -> (r: EnumValueInfo)
    ensures
        r.deep_view() == enum_value_of_chapters(page_chapters(html@)),
{
    let chapters = split_chapters(html);
    enum_value_from_chapters(&chapters)
}

pub open spec fn constructor_reads() -> Reads {
    Reads { example: true, note: true, syntax: true }
}

/// A constructor page: the Russian name of its head, syntax, parameters,
/// description, example, links and note.
pub open spec fn constructor_of_chapters(chs: Seq<(Seq<char>, Seq<char>)>) -> ConstructorInfoModel {
    let s = sections_of(body_chapters(chs), constructor_reads());
    ConstructorInfoModel {
        name: head_name(head_of(chs)).0,
        syntax: s.syntax,
        parameters: s.parameters,
        description: s.description,
        example: s.example,
        note: s.note,
        related_objects: s.related,
    }
}

/// Reads a constructor from the chapters of its page.
pub fn constructor_from_chapters(chapters: &Vec<Chapter>) -> (r: ConstructorInfo)
    ensures
        r.deep_view() == constructor_of_chapters(chapters.deep_view()),
{
    let (name_ru, _name_en) = parse_head_name(head_html(chapters));
    let s = read_sections(chapters, Reads { example: true, note: true, syntax: true });
    ConstructorInfo {
        name: name_ru,
        syntax: s.syntax,
        parameters: s.parameters,
        description: s.description,
        example: s.example,
        note: s.note,
        related_objects: s.related,
    }
}

/// Parses the page of a constructor.
pub fn parse_constructor_page(html: &str) -> (r: ConstructorInfo)
    ensures
        r.deep_view() == constructor_of_chapters(page_chapters(html@)),
{
    let chapters = split_chapters(html);
    constructor_from_chapters(&chapters)
}


// ---------------------------------------------------------------------------
// Properties
// ---------------------------------------------------------------------------

pub struct PropertyFieldsModel {
    pub description: Seq<char>,
    pub value_type: Seq<char>,
    pub readonly: bool,
    pub note: Option<Seq<char>>,
    pub related: Seq<(Seq<char>, Seq<char>)>,
}

/// What one chapter of a property page does: «Описание:» gives type and
/// description (when it names a type), «Использование:» the read-only flag,
/// «См. также:» the links, «Примечание:» the note.
pub open spec fn property_step(acc: PropertyFieldsModel, ch: (Seq<char>, Seq<char>)) -> PropertyFieldsModel {
    let title = ch.0;
    let body = ch.1;
    if title == "Описание:"@ {
        match value_info_of(body) {
            Some(v) => PropertyFieldsModel { value_type: v.0, description: v.1, ..acc },
            None => acc,
        }
    } else if title == "Использование:"@ {
        PropertyFieldsModel { readonly: "Только чтение"@.is_prefix_of(plain_text(body)), ..acc }
    } else if title == "См. также:"@ {
        PropertyFieldsModel { related: related_of(body), ..acc }
    } else if title == "Примечание:"@ {
        PropertyFieldsModel { note: Some(markdown(body)), ..acc }
    } else {
        acc
    }
}

pub open spec fn property_fields(chs: Seq<(Seq<char>, Seq<char>)>) -> PropertyFieldsModel
    decreases chs.len(),
{
    if chs.len() == 0 {
        PropertyFieldsModel {
            description: Seq::empty(),
            value_type: Seq::empty(),
            readonly: false,
            note: None,
            related: Seq::empty(),
        }
    } else {
        property_step(property_fields(chs.drop_last()), chs.last())
    }
}

pub open spec fn property_of_chapters(chs: Seq<(Seq<char>, Seq<char>)>) -> PropertyInfoModel {
    let f = property_fields(body_chapters(chs));
    PropertyInfoModel {
        name_ru: head_name(head_of(chs)).0,
        name_en: head_name(head_of(chs)).1,
        description: f.description,
        value_type: f.value_type,
        readonly: f.readonly,
        note: f.note,
        related_objects: f.related,
    }
}

/// Reads a property from the chapters of its page.
pub fn property_from_chapters(chapters: &Vec<Chapter>) -> (r: PropertyInfo)
    ensures
        r.deep_view() == property_of_chapters(chapters.deep_view()),
{
    let (name_ru, name_en) = parse_head_name(head_html(chapters));
    let mut r = PropertyInfo {
        name_ru,
        name_en,
        description: String::new(),
        value_type: String::new(),
        readonly: false,
        note: None,
        related_objects: Vec::new(),
    };
    proof {
        assert(r.related_objects.deep_view() =~= Seq::<(Seq<char>, Seq<char>)>::empty());
    }
    if chapters.len() == 0 {
        return r;
    }
    let ghost chs = body_chapters(chapters.deep_view());
    let ghost names = head_name(head_of(chapters.deep_view()));
    proof {
        assert(chs.take(0) =~= Seq::<(Seq<char>, Seq<char>)>::empty());
    }
    let mut i: usize = 1;
    while i < chapters.len()
        invariant
            1 <= i <= chapters.len(),
            chs == chapters.deep_view().drop_first(),
            r.name_ru@ == names.0,
            r.name_en@ == names.1,
            ({
                let f = property_fields(chs.take(i - 1));
                &&& r.description@ == f.description
                &&& r.value_type@ == f.value_type
                &&& r.readonly == f.readonly
                &&& r.note.deep_view() == f.note
                &&& r.related_objects.deep_view() == f.related
            }),
        decreases chapters.len() - i,
    {
        proof {
            let t = chs.take(i as int);
            assert(t.drop_last() =~= chs.take(i - 1));
            assert(t.last() == chapters[i as int].deep_view());
        }
        let title = chapters[i].title.as_str();
        let body = chapters[i].body_html.as_str();
        if str_eq(title, "Описание:") {
            match parse_value_info(body) {
                Some(info) => {
                    r.value_type = info.value_type;
                    r.description = info.description;
                },
                None => {},
            }
        } else if str_eq(title, "Использование:") {
            r.readonly = parse_readonly(body);
        } else if str_eq(title, "См. также:") {
            r.related_objects = parse_related_objects(body);
        } else if str_eq(title, "Примечание:") {
            r.note = Some(parse_note(body));
        }
        i = i + 1;
    }
    proof {
        assert(chs.take(chs.len() as int) =~= chs);
    }
    r
}

/// Parses the page of a property.
pub fn parse_property_page(html: &str) -> (r: PropertyInfo)
    ensures
        r.deep_view() == property_of_chapters(page_chapters(html@)),
{
    let chapters = split_chapters(html);
    property_from_chapters(&chapters)
}

// ---------------------------------------------------------------------------
// Methods
// ---------------------------------------------------------------------------

pub struct MethodFieldsModel {
    pub signatures: Seq<SignatureInfoModel>,
    pub description: Seq<char>,
    pub example: Option<Seq<char>>,
    pub note: Option<Seq<char>>,
    pub related: Seq<(Seq<char>, Seq<char>)>,
    pub return_value: Option<(Seq<char>, Seq<char>)>,
}

pub open spec fn empty_signature(name: Seq<char>) -> SignatureInfoModel {
    SignatureInfoModel {
        name,
        syntax: Seq::empty(),
        parameters: Seq::empty(),
        description: Seq::empty(),
    }
}

/// The overloads, with a first one named «Основная» when there is none yet.
pub open spec fn ensure_signature(sigs: Seq<SignatureInfoModel>) -> Seq<SignatureInfoModel> {
    if sigs.len() == 0 {
        seq![empty_signature("Основная"@)]
    } else {
        sigs
    }
}

pub open spec fn variant_marker() -> Seq<char> {
    "Вариант синтаксиса:"@
}

/// What one chapter of a method page does. A title starting with «Вариант
/// синтаксиса:» opens an overload named by the rest of it; «Синтаксис:»,
/// «Параметры:» and «Описание варианта метода:» fill the current overload
/// (opening «Основная» if there is none); «Возвращаемое значение:»,
/// «Описание:», «Пример:», «См. также:» and «Примечание:» belong to the method.
pub open spec fn method_step(acc: MethodFieldsModel, ch: (Seq<char>, Seq<char>)) -> MethodFieldsModel {
    let title = ch.0;
    let body = ch.1;
    let sigs = ensure_signature(acc.signatures);
    let last = sigs.last();
    if variant_marker().is_prefix_of(title) {
        MethodFieldsModel {
            signatures: acc.signatures.push(empty_signature(trim(title.skip(variant_marker().len() as int)))),
            ..acc
        }
    } else if title == "Синтаксис:"@ {
        MethodFieldsModel {
            signatures: sigs.update(sigs.len() - 1, SignatureInfoModel { syntax: plain_text(body), ..last }),
            ..acc
        }
    } else if title == "Параметры:"@ {
        MethodFieldsModel {
            signatures: sigs.update(sigs.len() - 1, SignatureInfoModel { parameters: parameters_of(body), ..last }),
            ..acc
        }
    } else if title == "Возвращаемое значение:"@ {
        MethodFieldsModel { return_value: value_info_of(body), ..acc }
    } else if title == "Описание варианта метода:"@ {
        MethodFieldsModel {
            signatures: sigs.update(sigs.len() - 1, SignatureInfoModel { description: markdown(body), ..last }),
            ..acc
        }
    } else if title == "Описание:"@ {
        MethodFieldsModel { description: markdown(body), ..acc }
    } else if title == "Пример:"@ {
        MethodFieldsModel { example: Some(example_of(body)), ..acc }
    } else if title == "См. также:"@ {
        MethodFieldsModel { related: related_of(body), ..acc }
    } else if title == "Примечание:"@ {
        MethodFieldsModel { note: Some(markdown(body)), ..acc }
    } else {
        acc
    }
}

pub open spec fn method_fields(chs: Seq<(Seq<char>, Seq<char>)>) -> MethodFieldsModel
    decreases chs.len(),
{
    if chs.len() == 0 {
        MethodFieldsModel {
            signatures: Seq::empty(),
            description: Seq::empty(),
            example: None,
            note: None,
            related: Seq::empty(),
            return_value: None,
        }
    } else {
        method_step(method_fields(chs.drop_last()), chs.last())
    }
}

pub open spec fn method_of_chapters(chs: Seq<(Seq<char>, Seq<char>)>) -> MethodInfoModel {
    let f = method_fields(body_chapters(chs));
    MethodInfoModel {
        name_ru: head_name(head_of(chs)).0,
        name_en: head_name(head_of(chs)).1,
        description: f.description,
        signatures: f.signatures,
        return_value: f.return_value,
        example: f.example,
        note: f.note,
        related_objects: f.related,
    }
}

fn new_signature(name: String) -> (r: MethodSignatureInfo)
    ensures
        r.deep_view() == empty_signature(name@),
{
    let r = MethodSignatureInfo {
        name,
        syntax: String::new(),
        parameters: Vec::new(),
        description: String::new(),
    };
    assert(r.parameters.deep_view() =~= Seq::<ParameterInfoModel>::empty());
    r
}

/// Takes the current overload out, opening «Основная» first if there is none.
fn take_current(sigs: &mut Vec<MethodSignatureInfo>) -> (r: MethodSignatureInfo)
    ensures
        ensure_signature(old(sigs).deep_view()).len() == final(sigs).deep_view().len() + 1,
        ensure_signature(old(sigs).deep_view()) == final(sigs).deep_view().push(r.deep_view()),
{
    if sigs.len() == 0 {
        let r = new_signature(String::from_str("Основная"));
        proof {
            assert(sigs.deep_view() =~= Seq::<SignatureInfoModel>::empty());
            assert(seq![r.deep_view()] =~= sigs.deep_view().push(r.deep_view()));
        }
        r
    } else {
        let ghost before = *sigs;
        let r = sigs.pop().unwrap();
        proof {
            assert(before@ =~= sigs@.push(r));
            lemma_deep_view_push(*sigs, before, r);
        }
        r
    }
}

fn put_back(sigs: &mut Vec<MethodSignatureInfo>, s: MethodSignatureInfo)
    ensures
        final(sigs).deep_view() == old(sigs).deep_view().push(s.deep_view()),
{
    let ghost before = *sigs;
    sigs.push(s);
    proof {
        lemma_deep_view_push(before, *sigs, s);
    }
}

/// Reads a method from the chapters of its page.
pub fn method_from_chapters(chapters: &Vec<Chapter>) -> (r: MethodInfo)
    ensures
        r.deep_view() == method_of_chapters(chapters.deep_view()),
{
    let (name_ru, name_en) = parse_head_name(head_html(chapters));
    let mut r = MethodInfo {
        name_ru,
        name_en,
        description: String::new(),
        signatures: Vec::new(),
        return_value: None,
        example: None,
        note: None,
        related_objects: Vec::new(),
    };
    proof {
        assert(r.related_objects.deep_view() =~= Seq::<(Seq<char>, Seq<char>)>::empty());
        assert(r.signatures.deep_view() =~= Seq::<SignatureInfoModel>::empty());
    }
    if chapters.len() == 0 {
        return r;
    }
    let ghost chs = body_chapters(chapters.deep_view());
    let ghost names = head_name(head_of(chapters.deep_view()));
    proof {
        assert(chs.take(0) =~= Seq::<(Seq<char>, Seq<char>)>::empty());
        reveal_strlit("Вариант синтаксиса:");
    }
    let marker = chars_of("Вариант синтаксиса:");
    let mut i: usize = 1;
    while i < chapters.len()
        invariant
            1 <= i <= chapters.len(),
            marker@ == variant_marker(),
            chs == chapters.deep_view().drop_first(),
            r.name_ru@ == names.0,
            r.name_en@ == names.1,
            ({
                let f = method_fields(chs.take(i - 1));
                &&& r.signatures.deep_view() == f.signatures
                &&& r.description@ == f.description
                &&& r.example.deep_view() == f.example
                &&& r.note.deep_view() == f.note
                &&& r.related_objects.deep_view() == f.related
                &&& r.return_value.deep_view() == f.return_value
            }),
        decreases chapters.len() - i,
    {
        proof {
            let t = chs.take(i as int);
            assert(t.drop_last() =~= chs.take(i - 1));
            assert(t.last() == chapters[i as int].deep_view());
        }
        let title = chapters[i].title.as_str();
        let body = chapters[i].body_html.as_str();
        if starts_with_str(title, "Вариант синтаксиса:") {
            let tv = chars_of(title);
            let rest = copy_range(tv.as_slice(), marker.len(), tv.len());
            assert(rest@ =~= title@.skip(variant_marker().len() as int));
            let name = string_from_chars(&trim_vec(rest.as_slice()));
            let s = new_signature(name);
            put_back(&mut r.signatures, s);
        } else if str_eq(title, "Синтаксис:") {
            let mut s = take_current(&mut r.signatures);
            s.syntax = parse_syntax(body);
            put_back(&mut r.signatures, s);
        } else if str_eq(title, "Параметры:") {
            let mut s = take_current(&mut r.signatures);
            s.parameters = parse_parameters(body);
            put_back(&mut r.signatures, s);
        } else if str_eq(title, "Возвращаемое значение:") {
            r.return_value = parse_value_info(body);
        } else if str_eq(title, "Описание варианта метода:") {
            let mut s = take_current(&mut r.signatures);
            s.description = parse_description(body);
            put_back(&mut r.signatures, s);
        } else if str_eq(title, "Описание:") {
            r.description = parse_description(body);
        } else if str_eq(title, "Пример:") {
            r.example = Some(parse_example(body));
        } else if str_eq(title, "См. также:") {
            r.related_objects = parse_related_objects(body);
        } else if str_eq(title, "Примечание:") {
            r.note = Some(parse_note(body));
        }
        i = i + 1;
    }
    proof {
        assert(chs.take(chs.len() as int) =~= chs);
    }
    r
}

/// Parses the page of a method, with its overloads.
pub fn parse_method_page(html: &str) -> (r: MethodInfo)
    ensures
        r.deep_view() == method_of_chapters(page_chapters(html@)),
{
    let chapters = split_chapters(html);
    method_from_chapters(&chapters)
}

} // verus!
