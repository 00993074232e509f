//! Markdown rendering of index entities for the answers of the MCP tools.
//!
//! Each renderer is specified by a template over the entity's model.
use vstd::prelude::*;

use crate::entities::{
    Constructor, ConstructorModel, Definition, DefinitionModel, EnumValue, EnumValueModel, Method,
    MethodModel, Parameter, ParameterModel, Property, PropertyModel, SignatureModel, Type, TypeModel,
    Signature,
};
use crate::seqs::{lemma_add_assoc, lemma_map_take_succ, lemma_take_full};
use crate::text::{chars_of, decimal, join, push_chars, push_str_chars, string_from_chars, usize_to_string};

verus! {

/// Concatenation of all parts in order.
pub open spec fn concat_all(parts: Seq<Seq<char>>) -> Seq<char>
    decreases parts.len(),
{
    if parts.len() == 0 {
        Seq::empty()
    } else {
        concat_all(parts.drop_last()) + parts.last()
    }
}

proof fn lemma_concat_push(parts: Seq<Seq<char>>, x: Seq<char>)
    ensures
        concat_all(parts.push(x)) == concat_all(parts) + x,
{
    assert(parts.push(x).drop_last() =~= parts);
}

proof fn lemma_join_push(parts: Seq<Seq<char>>, x: Seq<char>, sep: Seq<char>)
    ensures
        join(parts.push(x), sep) == if parts.len() == 0 {
            x
        } else {
            join(parts, sep) + sep + x
        },
{
    assert(parts.push(x).drop_last() =~= parts);
}

pub proof fn lemma_concat_step<A>(
    head: Seq<char>,
    s: Seq<A>,
    i: int,
    f: spec_fn(A) -> Seq<char>,
    before: Seq<char>,
    after: Seq<char>,
)
    requires
        0 <= i < s.len(),
        before == head + concat_all(s.take(i).map_values(f)),
        after == before + f(s[i]),
    ensures
        after == head + concat_all(s.take(i + 1).map_values(f)),
{
    lemma_map_take_succ(s, i, f);
    lemma_concat_push(s.take(i).map_values(f), f(s[i]));
    lemma_add_assoc(head, concat_all(s.take(i).map_values(f)), f(s[i]));
}

pub proof fn lemma_join_step<A>(
    head: Seq<char>,
    s: Seq<A>,
    i: int,
    f: spec_fn(A) -> Seq<char>,
    sep: Seq<char>,
    before: Seq<char>,
    after: Seq<char>,
)
    requires
        0 <= i < s.len(),
        before == head + join(s.take(i).map_values(f), sep),
        after == before + (if i > 0 {
            sep + f(s[i])
        } else {
            f(s[i])
        }),
    ensures
        after == head + join(s.take(i + 1).map_values(f), sep),
{
    lemma_map_take_succ(s, i, f);
    lemma_join_push(s.take(i).map_values(f), f(s[i]), sep);
    if i > 0 {
        lemma_add_assoc(head, join(s.take(i).map_values(f), sep), sep + f(s[i]));
        lemma_add_assoc(join(s.take(i).map_values(f), sep), sep, f(s[i]));
    } else {
        assert(s.take(i).map_values(f).len() == 0);
        assert(join(s.take(i).map_values(f), sep) =~= Seq::empty());
        assert(head + Seq::<char>::empty() =~= head);
    }
}

// ---------------------------------------------------------------------------
// Templates
// ---------------------------------------------------------------------------

pub open spec fn query_header(query: Seq<char>) -> Seq<char> {
    "# Результаты поиска: '"@ + query + "'\n\n"@
}

pub open spec fn inline_param(p: ParameterModel) -> Seq<char> {
    p.name + (if p.required {
        Seq::empty()
    } else {
        "?"@
    }) + ": "@ + p.value_type
}

pub open spec fn inline_params(ps: Seq<ParameterModel>) -> Seq<char> {
    join(ps.map_values(|p: ParameterModel| inline_param(p)), ", "@)
}

pub open spec fn param_line(p: ParameterModel) -> Seq<char> {
    "- **"@ + p.name + "** *("@ + p.value_type + ")* "@ + (if p.required {
        "(обязательный)"@
    } else {
        Seq::empty()
    }) + " - "@ + p.description + "\n"@
}

pub open spec fn signature_block(ps: Seq<ParameterModel>, call_name: Seq<char>) -> Seq<char> {
    "```bsl\n"@ + call_name + "("@ + inline_params(ps) + ")\n"@ + "```\n\n"@ + (if ps.len() > 0 {
        "### Параметры\n"@ + concat_all(ps.map_values(|p: ParameterModel| param_line(p))) + "\n"@
    } else {
        Seq::empty()
    })
}

pub open spec fn signature_section(s: SignatureModel, method_name: Seq<char>) -> Seq<char> {
    "## Сигнатура: "@ + s.name + " ("@ + s.description + ")\n"@ + signature_block(
        s.parameters,
        method_name,
    )
}

pub open spec fn signatures_text(ss: Seq<SignatureModel>, method_name: Seq<char>) -> Seq<char> {
    concat_all(ss.map_values(|s: SignatureModel| signature_section(s, method_name)))
}

pub open spec fn paragraph_if_any(text: Seq<char>) -> Seq<char> {
    if text.len() > 0 {
        text + "\n\n"@
    } else {
        Seq::empty()
    }
}

pub open spec fn method_text(m: MethodModel) -> Seq<char> {
    "### "@ + m.name_ru + "\n\n"@ + paragraph_if_any(m.description) + signatures_text(
        m.signatures,
        m.name_ru,
    ) + (if m.return_type.len() > 0 {
        "**Возвращаемый тип:** `"@ + m.return_type + "`\n\n"@
    } else {
        Seq::empty()
    })
}

pub open spec fn property_text(p: PropertyModel) -> Seq<char> {
    "### "@ + p.name_ru + "\n\n"@ + paragraph_if_any(p.description) + "**Тип:** `"@ + p.value_type
        + "`\n"@ + "**Только для чтения:** "@ + (if p.readonly {
        "Да"@
    } else {
        "Нет"@
    }) + "\n\n"@
}

pub open spec fn return_suffix(rt: Seq<char>) -> Seq<char> {
    if rt.len() == 0 {
        Seq::empty()
    } else {
        ": "@ + rt
    }
}

pub open spec fn overload_summary(m: MethodModel, s: SignatureModel) -> Seq<char> {
    "- "@ + m.name_ru + "("@ + inline_params(s.parameters) + ")"@ + return_suffix(m.return_type)
        + " - "@ + s.description + "\n"@
}

pub open spec fn method_summary(m: MethodModel) -> Seq<char> {
    if m.signatures.len() == 0 {
        "- "@ + m.name_ru + "()"@ + return_suffix(m.return_type) + " - "@ + m.description + "\n"@
    } else {
        concat_all(m.signatures.map_values(|s: SignatureModel| overload_summary(m, s)))
    }
}

pub open spec fn property_summary(p: PropertyModel) -> Seq<char> {
    "- "@ + p.name_ru + ": "@ + p.value_type + " - "@ + p.description + "\n"@
}

pub open spec fn constructor_summary(c: ConstructorModel) -> Seq<char> {
    "- "@ + c.name + " - "@ + c.description + "\n"@
}

pub open spec fn enum_value_summary(v: EnumValueModel) -> Seq<char> {
    if v.description.len() == 0 {
        "- "@ + v.name_ru + " (`"@ + v.name_en + "`)\n"@
    } else {
        "- "@ + v.name_ru + " (`"@ + v.name_en + "`) - "@ + v.description + "\n"@
    }
}

pub open spec fn type_methods_part(t: TypeModel) -> Seq<char> {
    if t.methods.len() > 0 {
        "## Методы\n\n"@ + concat_all(t.methods.map_values(|m: MethodModel| method_summary(m)))
    } else {
        Seq::empty()
    }
}

pub open spec fn type_properties_part(t: TypeModel) -> Seq<char> {
    if t.properties.len() > 0 {
        "\n## Свойства\n\n"@ + concat_all(
            t.properties.map_values(|p: PropertyModel| property_summary(p)),
        )
    } else {
        Seq::empty()
    }
}

pub open spec fn type_constructors_part(t: TypeModel) -> Seq<char> {
    if t.constructors.len() > 0 {
        "\n## Конструкторы\n\n"@ + concat_all(
            t.constructors.map_values(|c: ConstructorModel| constructor_summary(c)),
        )
    } else {
        Seq::empty()
    }
}

pub open spec fn type_values_part(t: TypeModel) -> Seq<char> {
    if t.enum_values.len() > 0 {
        "\n## Значения\n\n"@ + concat_all(
            t.enum_values.map_values(|v: EnumValueModel| enum_value_summary(v)),
        )
    } else {
        Seq::empty()
    }
}

/// Card of a type: heading, description, then the sections that are not empty.
pub open spec fn type_text(t: TypeModel) -> Seq<char> {
    "# "@ + t.name_ru + "\n\n"@ + paragraph_if_any(t.description) + type_methods_part(t)
        + type_properties_part(t) + type_constructors_part(t) + type_values_part(t)
}

pub open spec fn member_text(d: DefinitionModel) -> Seq<char> {
    match d {
        DefinitionModel::Type(t) => type_text(t),
        DefinitionModel::Method(m) => method_text(m),
        DefinitionModel::Property(p) => property_text(p),
    }
}

pub open spec fn result_entry(d: DefinitionModel) -> Seq<char> {
    "### "@ + d.name_ru() + "\n"@ + "**Тип элемента:** "@ + d.kind_label() + "\n"@
        + "**Описание:** "@ + (if d.description().len() == 0 {
        "Нет описания"@
    } else {
        d.description()
    }) + "\n\n"@
}

pub open spec fn search_results_text(rs: Seq<DefinitionModel>) -> Seq<char> {
    if rs.len() == 0 {
        "❌ **Не найдено:** Ничего не найдено для запроса\n"@
    } else if rs.len() == 1 {
        member_text(rs[0])
    } else {
        "## Найдено "@ + decimal(rs.len()) + " элементов\n\n"@ + concat_all(
            rs.map_values(|d: DefinitionModel| result_entry(d)),
        )
    }
}

pub open spec fn constructors_text(cs: Seq<ConstructorModel>, type_label: Seq<char>) -> Seq<char> {
    "Конструкторы объекта "@ + type_label + "\n"@ + concat_all(
        cs.map_values(
            |c: ConstructorModel|
                "## Конструктор: "@ + c.name + " ("@ + c.description + ")\n"@ + signature_block(
                    c.parameters,
                    "Новый "@ + type_label,
                ),
        ),
    )
}

pub open spec fn enum_values_text(vs: Seq<EnumValueModel>, type_label: Seq<char>) -> Seq<char> {
    "Значения системного перечисления "@ + type_label + "\n\n"@ + (if vs.len() == 0 {
        "❌ **Не найдено:** у типа нет значений (он не является системным перечислением)\n"@
    } else {
        concat_all(vs.map_values(|v: EnumValueModel| enum_value_summary(v)))
    })
}

// ---------------------------------------------------------------------------
// Renderers
// ---------------------------------------------------------------------------

pub fn format_query_header(query: &str) -> (r: String)
    ensures
        r@ == query_header(query@),
{
    let mut buf: Vec<char> = Vec::new();
    push_str_chars(&mut buf, "# Результаты поиска: '");
    push_str_chars(&mut buf, query);
    push_str_chars(&mut buf, "'\n\n");
    assert(buf@ =~= query_header(query@));
    string_from_chars(&buf)
}

fn push_inline_param(buf: &mut Vec<char>, p: &Parameter)
    ensures
        final(buf)@ == old(buf)@ + inline_param(p.deep_view()),
{
    let ghost start = buf@;
    push_str_chars(buf, p.name.as_str());
    if !p.required {
        push_str_chars(buf, "?");
    }
    push_str_chars(buf, ": ");
    push_str_chars(buf, p.value_type.as_str());
    assert(buf@ =~= start + inline_param(p.deep_view()));
}

#[verifier::loop_isolation(false)]
pub fn push_inline_params(buf: &mut Vec<char>, ps: &Vec<Parameter>)
    ensures
        final(buf)@ == old(buf)@ + inline_params(ps.deep_view()),
{
    let ghost start = buf@;
    let ghost f = |p: ParameterModel| inline_param(p);
    let ghost s = ps.deep_view();
    let mut i: usize = 0;
    assert(start =~= start + join(s.take(0).map_values(f), ", "@));
    while i < ps.len()
        invariant
            i <= ps@.len(),
            buf@ == start + join(s.take(i as int).map_values(f), ", "@),
        decreases ps.len() - i,
    {
        let ghost before = buf@;
        if i > 0 {
            push_str_chars(buf, ", ");
        }
        push_inline_param(buf, &ps[i]);
        proof {
            assert(f(s[i as int]) == inline_param(ps@[i as int].deep_view()));
            if i > 0 {
                lemma_add_assoc(before, ", "@, f(s[i as int]));
            }
            lemma_join_step(start, s, i as int, f, ", "@, before, buf@);
        }
        i = i + 1;
    }
    proof {
        lemma_take_full(s);
    }
}

#[verifier::loop_isolation(false)]
fn push_signature_block(buf: &mut Vec<char>, ps: &Vec<Parameter>, call_name: &[char])
    ensures
        final(buf)@ == old(buf)@ + signature_block(ps.deep_view(), call_name@),
{
    let ghost start = buf@;
    push_str_chars(buf, "```bsl\n");
    push_chars(buf, call_name);
    push_str_chars(buf, "(");
    push_inline_params(buf, ps);
    push_str_chars(buf, ")\n");
    push_str_chars(buf, "```\n\n");
    let ghost mid = buf@;
    assert(mid =~= start + ("```bsl\n"@ + call_name@ + "("@ + inline_params(ps.deep_view()) + ")\n"@
        + "```\n\n"@));
    if ps.len() > 0 {
        push_str_chars(buf, "### Параметры\n");
        let ghost f = |p: ParameterModel| param_line(p);
        let ghost s = ps.deep_view();
        let ghost head = buf@;
        assert(head =~= head + concat_all(s.take(0).map_values(f)));
        let mut i: usize = 0;
        while i < ps.len()
            invariant
                i <= ps@.len(),
                buf@ == head + concat_all(s.take(i as int).map_values(f)),
            decreases ps.len() - i,
        {
            let p = &ps[i];
            let ghost before = buf@;
            push_str_chars(buf, "- **");
            push_str_chars(buf, p.name.as_str());
            push_str_chars(buf, "** *(");
            push_str_chars(buf, p.value_type.as_str());
            push_str_chars(buf, ")* ");
            if p.required {
                push_str_chars(buf, "(обязательный)");
            }
            push_str_chars(buf, " - ");
            push_str_chars(buf, p.description.as_str());
            push_str_chars(buf, "\n");
            proof {
                assert(buf@ =~= before + f(s[i as int]));
                lemma_concat_step(head, s, i as int, f, before, buf@);
            }
            i = i + 1;
        }
        proof {
            lemma_take_full(s);
        }
        push_str_chars(buf, "\n");
        assert(buf@ =~= start + signature_block(ps.deep_view(), call_name@));
    } else {
        assert(buf@ =~= start + signature_block(ps.deep_view(), call_name@));
    }
}

fn push_signature_section(buf: &mut Vec<char>, s: &Signature, method_name: &[char])
    ensures
        final(buf)@ == old(buf)@ + signature_section(s.deep_view(), method_name@),
{
    let ghost start = buf@;
    push_str_chars(buf, "## Сигнатура: ");
    push_str_chars(buf, s.name.as_str());
    push_str_chars(buf, " (");
    push_str_chars(buf, s.description.as_str());
    push_str_chars(buf, ")\n");
    let ghost mid = buf@;
    push_signature_block(buf, &s.parameters, method_name);
    assert(buf@ =~= start + signature_section(s.deep_view(), method_name@));
}

#[verifier::loop_isolation(false)]
fn push_signatures(buf: &mut Vec<char>, ss: &Vec<Signature>, method_name: &[char])
    ensures
        final(buf)@ == old(buf)@ + signatures_text(ss.deep_view(), method_name@),
{
    let ghost start = buf@;
    let ghost f = |s: SignatureModel| signature_section(s, method_name@);
    let ghost s = ss.deep_view();
    assert(start =~= start + concat_all(s.take(0).map_values(f)));
    let mut i: usize = 0;
    while i < ss.len()
        invariant
            i <= ss@.len(),
            buf@ == start + concat_all(s.take(i as int).map_values(f)),
        decreases ss.len() - i,
    {
        let ghost before = buf@;
        push_signature_section(buf, &ss[i], method_name);
        proof {
            lemma_concat_step(start, s, i as int, f, before, buf@);
        }
        i = i + 1;
    }
    proof {
        lemma_take_full(s);
    }
}

fn push_paragraph_if_any(buf: &mut Vec<char>, text: &str)
    ensures
        final(buf)@ == old(buf)@ + paragraph_if_any(text@),
{
    let ghost start = buf@;
    if !text.is_empty() {
        push_str_chars(buf, text);
        push_str_chars(buf, "\n\n");
    }
    assert(buf@ =~= start + paragraph_if_any(text@));
}

fn push_method(buf: &mut Vec<char>, m: &Method)
    ensures
        final(buf)@ == old(buf)@ + method_text(m.deep_view()),
{
    let ghost start = buf@;
    push_str_chars(buf, "### ");
    push_str_chars(buf, m.name_ru.as_str());
    push_str_chars(buf, "\n\n");
    push_paragraph_if_any(buf, m.description.as_str());
    let name = chars_of(m.name_ru.as_str());
    push_signatures(buf, &m.signatures, name.as_slice());
    let ghost mid = buf@;
    if !m.return_type.as_str().is_empty() {
        push_str_chars(buf, "**Возвращаемый тип:** `");
        push_str_chars(buf, m.return_type.as_str());
        push_str_chars(buf, "`\n\n");
    }
    assert(buf@ =~= start + method_text(m.deep_view()));
}

pub fn format_method(m: &Method) -> (r: String)
    ensures
        r@ == method_text(m.deep_view()),
{
    let mut buf: Vec<char> = Vec::new();
    push_method(&mut buf, m);
    assert(buf@ =~= method_text(m.deep_view()));
    string_from_chars(&buf)
}

fn push_property(buf: &mut Vec<char>, p: &Property)
    ensures
        final(buf)@ == old(buf)@ + property_text(p.deep_view()),
{
    let ghost start = buf@;
    push_str_chars(buf, "### ");
    push_str_chars(buf, p.name_ru.as_str());
    push_str_chars(buf, "\n\n");
    push_paragraph_if_any(buf, p.description.as_str());
    push_str_chars(buf, "**Тип:** `");
    push_str_chars(buf, p.value_type.as_str());
    push_str_chars(buf, "`\n");
    push_str_chars(buf, "**Только для чтения:** ");
    if p.readonly {
        push_str_chars(buf, "Да");
    } else {
        push_str_chars(buf, "Нет");
    }
    push_str_chars(buf, "\n\n");
    assert(buf@ =~= start + property_text(p.deep_view()));
}

pub fn format_property(p: &Property) -> (r: String)
    ensures
        r@ == property_text(p.deep_view()),
{
    let mut buf: Vec<char> = Vec::new();
    push_property(&mut buf, p);
    assert(buf@ =~= property_text(p.deep_view()));
    string_from_chars(&buf)
}

fn push_overload_summary(buf: &mut Vec<char>, m: &Method, s: &Signature)
    ensures
        final(buf)@ == old(buf)@ + overload_summary(m.deep_view(), s.deep_view()),
{
    let ghost start = buf@;
    push_str_chars(buf, "- ");
    push_str_chars(buf, m.name_ru.as_str());
    push_str_chars(buf, "(");
    push_inline_params(buf, &s.parameters);
    push_str_chars(buf, ")");
    let ghost mid = buf@;
    if !m.return_type.as_str().is_empty() {
        push_str_chars(buf, ": ");
        push_str_chars(buf, m.return_type.as_str());
    }
    assert(buf@ =~= mid + return_suffix(m.return_type@));
    push_str_chars(buf, " - ");
    push_str_chars(buf, s.description.as_str());
    push_str_chars(buf, "\n");
    assert(buf@ =~= start + overload_summary(m.deep_view(), s.deep_view()));
}

#[verifier::loop_isolation(false)]
fn push_method_summary(buf: &mut Vec<char>, m: &Method)
    ensures
        final(buf)@ == old(buf)@ + method_summary(m.deep_view()),
{
    let ghost start = buf@;
    let ghost mm = m.deep_view();
    if m.signatures.len() == 0 {
        push_str_chars(buf, "- ");
        push_str_chars(buf, m.name_ru.as_str());
        push_str_chars(buf, "()");
        let ghost mid = buf@;
        if !m.return_type.as_str().is_empty() {
            push_str_chars(buf, ": ");
            push_str_chars(buf, m.return_type.as_str());
        }
        assert(buf@ =~= mid + return_suffix(m.return_type@));
        push_str_chars(buf, " - ");
        push_str_chars(buf, m.description.as_str());
        push_str_chars(buf, "\n");
        assert(buf@ =~= start + method_summary(mm));
    } else {
        let ghost f = |s: SignatureModel| overload_summary(mm, s);
        let ghost s = mm.signatures;
        assert(start =~= start + concat_all(s.take(0).map_values(f)));
        let mut i: usize = 0;
        while i < m.signatures.len()
            invariant
                i <= m.signatures@.len(),
                buf@ == start + concat_all(s.take(i as int).map_values(f)),
            decreases m.signatures.len() - i,
        {
            let ghost before = buf@;
            push_overload_summary(buf, m, &m.signatures[i]);
            proof {
                lemma_concat_step(start, s, i as int, f, before, buf@);
            }
            i = i + 1;
        }
        proof {
            lemma_take_full(s);
        }
    }
}

fn push_property_summary(buf: &mut Vec<char>, p: &Property)
    ensures
        final(buf)@ == old(buf)@ + property_summary(p.deep_view()),
{
    let ghost start = buf@;
    push_str_chars(buf, "- ");
    push_str_chars(buf, p.name_ru.as_str());
    push_str_chars(buf, ": ");
    push_str_chars(buf, p.value_type.as_str());
    push_str_chars(buf, " - ");
    push_str_chars(buf, p.description.as_str());
    push_str_chars(buf, "\n");
    assert(buf@ =~= start + property_summary(p.deep_view()));
}

fn push_constructor_summary(buf: &mut Vec<char>, c: &Constructor)
    ensures
        final(buf)@ == old(buf)@ + constructor_summary(c.deep_view()),
{
    let ghost start = buf@;
    push_str_chars(buf, "- ");
    push_str_chars(buf, c.name.as_str());
    push_str_chars(buf, " - ");
    push_str_chars(buf, c.description.as_str());
    push_str_chars(buf, "\n");
    assert(buf@ =~= start + constructor_summary(c.deep_view()));
}

fn push_enum_value_summary(buf: &mut Vec<char>, v: &EnumValue)
    ensures
        final(buf)@ == old(buf)@ + enum_value_summary(v.deep_view()),
{
    let ghost start = buf@;
    push_str_chars(buf, "- ");
    push_str_chars(buf, v.name_ru.as_str());
    push_str_chars(buf, " (`");
    push_str_chars(buf, v.name_en.as_str());
    if v.description.as_str().is_empty() {
        push_str_chars(buf, "`)\n");
    } else {
        push_str_chars(buf, "`) - ");
        push_str_chars(buf, v.description.as_str());
        push_str_chars(buf, "\n");
    }
    assert(buf@ =~= start + enum_value_summary(v.deep_view()));
}

#[verifier::loop_isolation(false)]
fn push_method_summaries(buf: &mut Vec<char>, ms: &Vec<Method>)
    ensures
        final(buf)@ == old(buf)@ + concat_all(
            ms.deep_view().map_values(|m: MethodModel| method_summary(m)),
        ),
{
    let ghost start = buf@;
    let ghost f = |m: MethodModel| method_summary(m);
    let ghost s = ms.deep_view();
    assert(start =~= start + concat_all(s.take(0).map_values(f)));
    let mut i: usize = 0;
    while i < ms.len()
        invariant
            i <= ms@.len(),
            buf@ == start + concat_all(s.take(i as int).map_values(f)),
        decreases ms.len() - i,
    {
        let ghost before = buf@;
        push_method_summary(buf, &ms[i]);
        proof {
            lemma_concat_step(start, s, i as int, f, before, buf@);
        }
        i = i + 1;
    }
    proof {
        lemma_take_full(s);
    }
}

#[verifier::loop_isolation(false)]
fn push_property_summaries(buf: &mut Vec<char>, ps: &Vec<Property>)
    ensures
        final(buf)@ == old(buf)@ + concat_all(
            ps.deep_view().map_values(|p: PropertyModel| property_summary(p)),
        ),
{
    let ghost start = buf@;
    let ghost f = |p: PropertyModel| property_summary(p);
    let ghost s = ps.deep_view();
    assert(start =~= start + concat_all(s.take(0).map_values(f)));
    let mut i: usize = 0;
    while i < ps.len()
        invariant
            i <= ps@.len(),
            buf@ == start + concat_all(s.take(i as int).map_values(f)),
        decreases ps.len() - i,
    {
        let ghost before = buf@;
        push_property_summary(buf, &ps[i]);
        proof {
            lemma_concat_step(start, s, i as int, f, before, buf@);
        }
        i = i + 1;
    }
    proof {
        lemma_take_full(s);
    }
}

#[verifier::loop_isolation(false)]
fn push_constructor_summaries(buf: &mut Vec<char>, cs: &Vec<Constructor>)
    ensures
        final(buf)@ == old(buf)@ + concat_all(
            cs.deep_view().map_values(|c: ConstructorModel| constructor_summary(c)),
        ),
{
    let ghost start = buf@;
    let ghost f = |c: ConstructorModel| constructor_summary(c);
    let ghost s = cs.deep_view();
    assert(start =~= start + concat_all(s.take(0).map_values(f)));
    let mut i: usize = 0;
    while i < cs.len()
        invariant
            i <= cs@.len(),
            buf@ == start + concat_all(s.take(i as int).map_values(f)),
        decreases cs.len() - i,
    {
        let ghost before = buf@;
        push_constructor_summary(buf, &cs[i]);
        proof {
            lemma_concat_step(start, s, i as int, f, before, buf@);
        }
        i = i + 1;
    }
    proof {
        lemma_take_full(s);
    }
}

#[verifier::loop_isolation(false)]
fn push_enum_values(buf: &mut Vec<char>, vs: &[EnumValue])
    ensures
        final(buf)@ == old(buf)@ + concat_all(
            vs.deep_view().map_values(|v: EnumValueModel| enum_value_summary(v)),
        ),
{
    let ghost start = buf@;
    let ghost f = |v: EnumValueModel| enum_value_summary(v);
    let ghost s = vs.deep_view();
    assert(start =~= start + concat_all(s.take(0).map_values(f)));
    let mut i: usize = 0;
    while i < vs.len()
        invariant
            i <= vs@.len(),
            buf@ == start + concat_all(s.take(i as int).map_values(f)),
        decreases vs.len() - i,
    {
        let ghost before = buf@;
        push_enum_value_summary(buf, &vs[i]);
        proof {
            lemma_concat_step(start, s, i as int, f, before, buf@);
        }
        i = i + 1;
    }
    proof {
        lemma_take_full(s);
    }
}

fn push_type(buf: &mut Vec<char>, t: &Type)
    ensures
        final(buf)@ == old(buf)@ + type_text(t.deep_view()),
{
    let ghost start = buf@;
    let ghost tm = t.deep_view();
    push_str_chars(buf, "# ");
    push_str_chars(buf, t.name_ru.as_str());
    push_str_chars(buf, "\n\n");
    push_paragraph_if_any(buf, t.description.as_str());
    let ghost a = buf@;
    if t.has_methods() {
        push_str_chars(buf, "## Методы\n\n");
        push_method_summaries(buf, &t.methods);
    }
    assert(buf@ =~= a + type_methods_part(tm));
    let ghost b = buf@;
    if t.has_properties() {
        push_str_chars(buf, "\n## Свойства\n\n");
        push_property_summaries(buf, &t.properties);
    }
    assert(buf@ =~= b + type_properties_part(tm));
    let ghost c = buf@;
    if t.has_constructors() {
        push_str_chars(buf, "\n## Конструкторы\n\n");
        push_constructor_summaries(buf, &t.constructors);
    }
    assert(buf@ =~= c + type_constructors_part(tm));
    let ghost d = buf@;
    if t.is_enum() {
        push_str_chars(buf, "\n## Значения\n\n");
        push_enum_values(buf, t.enum_values.as_slice());
    }
    assert(buf@ =~= d + type_values_part(tm));
    proof {
        let h = "# "@ + tm.name_ru + "\n\n"@ + paragraph_if_any(tm.description);
        assert(a =~= start + h);
        lemma_add_assoc(start, h, type_methods_part(tm));
        lemma_add_assoc(start, h + type_methods_part(tm), type_properties_part(tm));
        lemma_add_assoc(
            start,
            h + type_methods_part(tm) + type_properties_part(tm),
            type_constructors_part(tm),
        );
        lemma_add_assoc(
            start,
            h + type_methods_part(tm) + type_properties_part(tm) + type_constructors_part(tm),
            type_values_part(tm),
        );
    }
}

pub fn format_type(t: &Type) -> (r: String)
    ensures
        r@ == type_text(t.deep_view()),
{
    let mut buf: Vec<char> = Vec::new();
    push_type(&mut buf, t);
    assert(buf@ =~= type_text(t.deep_view()));
    string_from_chars(&buf)
}

fn push_member(buf: &mut Vec<char>, def: &Definition)
    ensures
        final(buf)@ == old(buf)@ + member_text(def.deep_view()),
{
    match def {
        Definition::Type(t) => push_type(buf, t),
        Definition::Method(m) => push_method(buf, m),
        Definition::Property(p) => push_property(buf, p),
    }
}

pub fn format_member(def: &Definition) -> (r: String)
    ensures
        r@ == member_text(def.deep_view()),
{
    let mut buf: Vec<char> = Vec::new();
    push_member(&mut buf, def);
    assert(buf@ =~= member_text(def.deep_view()));
    string_from_chars(&buf)
}

fn push_result_entry(buf: &mut Vec<char>, d: &Definition)
    ensures
        final(buf)@ == old(buf)@ + result_entry(d.deep_view()),
{
    let ghost start = buf@;
    push_str_chars(buf, "### ");
    push_str_chars(buf, d.name_ru());
    push_str_chars(buf, "\n");
    push_str_chars(buf, "**Тип элемента:** ");
    push_str_chars(buf, d.kind_label());
    push_str_chars(buf, "\n");
    push_str_chars(buf, "**Описание:** ");
    let desc = d.description();
    if desc.is_empty() {
        push_str_chars(buf, "Нет описания");
    } else {
        push_str_chars(buf, desc);
    }
    push_str_chars(buf, "\n\n");
    assert(buf@ =~= start + result_entry(d.deep_view()));
}

#[verifier::loop_isolation(false)]
pub fn format_search_results(results: &[Definition]) -> (r: String)
    ensures
        r@ == search_results_text(results.deep_view()),
{
    let ghost rs = results.deep_view();
    if results.len() == 0 {
        let s = String::from_str("❌ **Не найдено:** Ничего не найдено для запроса\n");
        return s;
    }
    if results.len() == 1 {
        return format_member(&results[0]);
    }
    let mut buf: Vec<char> = Vec::new();
    push_str_chars(&mut buf, "## Найдено ");
    let n = usize_to_string(results.len());
    push_str_chars(&mut buf, n.as_str());
    push_str_chars(&mut buf, " элементов\n\n");
    let ghost head = buf@;
    let ghost f = |d: DefinitionModel| result_entry(d);
    assert(head =~= head + concat_all(rs.take(0).map_values(f)));
    let mut i: usize = 0;
    while i < results.len()
        invariant
            i <= results@.len(),
            buf@ == head + concat_all(rs.take(i as int).map_values(f)),
        decreases results.len() - i,
    {
        let ghost before = buf@;
        push_result_entry(&mut buf, &results[i]);
        proof {
            lemma_concat_step(head, rs, i as int, f, before, buf@);
        }
        i = i + 1;
    }
    proof {
        lemma_take_full(rs);
    }
    assert(buf@ =~= search_results_text(rs));
    string_from_chars(&buf)
}

#[verifier::loop_isolation(false)]
pub fn format_constructors(constructors: &[Constructor], type_label: &str) -> (r: String)
    ensures
        r@ == constructors_text(constructors.deep_view(), type_label@),
{
    let ghost cs = constructors.deep_view();
    let mut buf: Vec<char> = Vec::new();
    push_str_chars(&mut buf, "Конструкторы объекта ");
    push_str_chars(&mut buf, type_label);
    push_str_chars(&mut buf, "\n");
    let mut call_name: Vec<char> = Vec::new();
    push_str_chars(&mut call_name, "Новый ");
    push_str_chars(&mut call_name, type_label);
    let ghost head = buf@;
    let ghost f = |c: ConstructorModel|
        "## Конструктор: "@ + c.name + " ("@ + c.description + ")\n"@ + signature_block(
            c.parameters,
            "Новый "@ + type_label@,
        );
    assert(head =~= head + concat_all(cs.take(0).map_values(f)));
    let mut i: usize = 0;
    while i < constructors.len()
        invariant
            i <= constructors@.len(),
            buf@ == head + concat_all(cs.take(i as int).map_values(f)),
        decreases constructors.len() - i,
    {
        let c = &constructors[i];
        let ghost before = buf@;
        push_str_chars(&mut buf, "## Конструктор: ");
        push_str_chars(&mut buf, c.name.as_str());
        push_str_chars(&mut buf, " (");
        push_str_chars(&mut buf, c.description.as_str());
        push_str_chars(&mut buf, ")\n");
        push_signature_block(&mut buf, &c.parameters, call_name.as_slice());
        proof {
            assert(buf@ =~= before + f(cs[i as int]));
            lemma_concat_step(head, cs, i as int, f, before, buf@);
        }
        i = i + 1;
    }
    proof {
        lemma_take_full(cs);
    }
    assert(buf@ =~= constructors_text(cs, type_label@));
    string_from_chars(&buf)
}

pub fn format_enum_values(values: &[EnumValue], type_label: &str) -> (r: String)
    ensures
        r@ == enum_values_text(values.deep_view(), type_label@),
{
    let mut buf: Vec<char> = Vec::new();
    push_str_chars(&mut buf, "Значения системного перечисления ");
    push_str_chars(&mut buf, type_label);
    push_str_chars(&mut buf, "\n\n");
    if values.len() == 0 {
        push_str_chars(
            &mut buf,
            "❌ **Не найдено:** у типа нет значений (он не является системным перечислением)\n",
        );
        assert(buf@ =~= enum_values_text(values.deep_view(), type_label@));
        return string_from_chars(&buf);
    }
    push_enum_values(&mut buf, values);
    assert(buf@ =~= enum_values_text(values.deep_view(), type_label@));
    string_from_chars(&buf)
}

} // verus!
