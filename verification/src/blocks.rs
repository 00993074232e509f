//! Parsers of the kinds of chapter a help page has: the head with the names,
//! descriptions and notes, examples, "see also" links, the read-only flag,
//! the type of a value, parameters and syntax.
use vstd::prelude::*;

use crate::html::{
    extract_text, fragment_selection, fragment_text, markdown, plain_text, raw_text,
    select_in_fragment, to_markdown,
};
use crate::page_models::{MethodParameterInfo, ParameterInfoModel, RelatedObject, ValueInfo};
use crate::seqs::lemma_deep_view_push;
use crate::text::{
    all_ascii, chars_of, collapse_chars, collapse_ws, contains_seq, first_occurrence_from, find_from, is_ascii_alnum, is_ascii_char, is_ascii_ws_char,
    occurs_at_exec, push_chars, starts_with_str, string_from_chars, trim, trim_start,
    trim_start_vec, trim_vec, copy_range, char_is_ascii_whitespace, contains_chars,
};

verus! {

// ---------------------------------------------------------------------------
// Names
// ---------------------------------------------------------------------------

/// Index of the last occurrence of `c` in `s`.
pub open spec fn last_index_of(s: Seq<char>, c: char) -> Option<int>
    decreases s.len(),
{
    if s.len() == 0 {
        None
    } else if s.last() == c {
        Some(s.len() - 1)
    } else {
        last_index_of(s.drop_last(), c)
    }
}

pub open spec fn english_name_char(c: char) -> bool {
    is_ascii_alnum(c) || is_ascii_ws_char(c) || c == '.'
}

/// Whether the text in brackets reads as an English name.
pub open spec fn looks_english(en: Seq<char>) -> bool {
    &&& ((en.len() > 0 && !en.contains(' ')) || (en.contains(' ') && all_ascii(en)))
    &&& forall|i: int| 0 <= i < en.len() ==> english_name_char(#[trigger] en[i])
}

/// "RuName(EnName)" as (RuName, EnName), both trimmed; a text without such a
/// pair stays whole (trimmed) as the Russian name.
pub open spec fn split_dual(text: Seq<char>) -> (Seq<char>, Seq<char>) {
    match (last_index_of(text, '('), last_index_of(text, ')')) {
        (Some(o), Some(c)) => if c > o && looks_english(trim(text.subrange(o + 1, c))) {
            (trim(text.take(o)), trim(text.subrange(o + 1, c)))
        } else {
            (trim(text), Seq::empty())
        },
        _ => (trim(text), Seq::empty()),
    }
}

proof fn lemma_last_index_bound(s: Seq<char>, c: char)
    requires
        last_index_of(s, c) is Some,
    ensures
        0 <= last_index_of(s, c)->0 < s.len(),
        s[last_index_of(s, c)->0] == c,
    decreases s.len(),
{
    if s.last() != c {
        lemma_last_index_bound(s.drop_last(), c);
    }
}

fn last_index(v: &[char], c: char) -> (r: Option<usize>)
    ensures
        match r {
            Some(i) => last_index_of(v@, c) == Some(i as int),
            None => last_index_of(v@, c) is None,
        },
{
    let mut i = v.len();
    assert(v@.take(i as int) =~= v@);
    while i > 0
        invariant
            i <= v@.len(),
            last_index_of(v@, c) == last_index_of(v@.take(i as int), c),
        decreases i,
    {
        assert(v@.take(i as int).drop_last() =~= v@.take(i - 1));
        if v[i - 1] == c {
            return Some(i - 1);
        }
        i = i - 1;
    }
    None
}

fn contains_char(v: &[char], c: char) -> (r: bool)
    ensures
        r == v@.contains(c),
{
    let mut i: usize = 0;
    while i < v.len()
        invariant
            i <= v@.len(),
            forall|j: int| 0 <= j < i ==> v@[j] != c,
        decreases v.len() - i,
    {
        if v[i] == c {
            return true;
        }
        i = i + 1;
    }
    false
}

fn looks_english_exec(en: &[char]) -> (r: bool)
    ensures
        r == looks_english(en@),
{
    let has_space = contains_char(en, ' ');
    let mut ascii = true;
    let mut chars_ok = true;
    let mut i: usize = 0;
    while i < en.len()
        invariant
            i <= en@.len(),
            ascii == (forall|j: int| 0 <= j < i ==> is_ascii_char(#[trigger] en@[j])),
            chars_ok == (forall|j: int| 0 <= j < i ==> english_name_char(#[trigger] en@[j])),
        decreases en.len() - i,
    {
        let c = en[i];
        if (c as u32) >= 0x80 {
            ascii = false;
        }
        if !((c >= 'a' && c <= 'z') || (c >= 'A' && c <= 'Z') || (c >= '0' && c <= '9')
            || char_is_ascii_whitespace(c) || c == '.') {
            chars_ok = false;
        }
        i = i + 1;
        proof {
            assert(ascii == (forall|j: int| 0 <= j < i ==> is_ascii_char(#[trigger] en@[j])));
            assert(chars_ok == (forall|j: int| 0 <= j < i ==> english_name_char(#[trigger] en@[j])));
        }
    }
    ((en.len() > 0 && !has_space) || (has_space && ascii)) && chars_ok
}

fn split_dual_exec(text: &[char]) -> (r: (String, String))
    ensures
        (r.0@, r.1@) == split_dual(text@),
{
    let whole = (string_from_chars(&trim_vec(text)), String::new());
    match (last_index(text, '('), last_index(text, ')')) {
        (Some(o), Some(c)) => {
            proof {
                lemma_last_index_bound(text@, '(');
                lemma_last_index_bound(text@, ')');
            }
            if c > o {
                let inner = copy_range(text, o + 1, c);
                let en = trim_vec(inner.as_slice());
                if looks_english_exec(en.as_slice()) {
                    let head = copy_range(text, 0, o);
                    let ru = trim_vec(head.as_slice());
                    assert(head@ =~= text@.take(o as int));
                    return (string_from_chars(&ru), string_from_chars(&en));
                }
            }
            whole
        },
        _ => whole,
    }
}

/// The names a heading text gives: nothing for an empty text, else the
/// text trimmed and collapsed, split as "RuName(EnName)".
pub open spec fn name_of_heading(raw: Seq<char>) -> (Seq<char>, Seq<char>) {
    let n = collapse_ws(trim(raw));
    if n.len() == 0 {
        (Seq::empty(), Seq::empty())
    } else {
        split_dual(n)
    }
}

pub open spec fn first_text(sel: Seq<(Seq<char>, Option<Seq<char>>)>) -> Option<Seq<char>> {
    if sel.len() > 0 {
        Some(sel[0].0)
    } else {
        None
    }
}

/// The text of the first `p.V8SH_heading` of the head, else of the first
/// `p.V8SH_title`, else nothing.
pub open spec fn head_text(html: Seq<char>) -> Seq<char> {
    match first_text(fragment_selection(html, "p.V8SH_heading"@, "href"@)) {
        Some(t) => t,
        None => match first_text(fragment_selection(html, "p.V8SH_title"@, "href"@)) {
            Some(t) => t,
            None => Seq::empty(),
        },
    }
}

pub open spec fn head_name(html: Seq<char>) -> (Seq<char>, Seq<char>) {
    name_of_heading(head_text(html))
}

/// The Russian and English names that a heading text gives.
pub fn name_from_heading(raw: &str) -> (r: (String, String))
    ensures
        (r.0@, r.1@) == name_of_heading(raw@),
{
    let v = chars_of(raw);
    let t = trim_vec(v.as_slice());
    let n = collapse_chars(t.as_slice());
    if n.len() == 0 {
        (String::new(), String::new())
    } else {
        split_dual_exec(n.as_slice())
    }
}

/// Names of the page from its head: the text of `<p class="V8SH_heading">`
/// or, failing that, of `<p class="V8SH_title">`, split as "RuName(EnName)".
pub fn parse_head_name(html: &str) -> (r: (String, String))
    ensures
        (r.0@, r.1@) == head_name(html@),
{
    let heading = select_in_fragment(html, "p.V8SH_heading", "href");
    if heading.len() > 0 {
        return name_from_heading(heading[0].0.as_str());
    }
    let title = select_in_fragment(html, "p.V8SH_title", "href");
    if title.len() > 0 {
        name_from_heading(title[0].0.as_str())
    } else {
        proof {
            reveal_strlit("");
        }
        name_from_heading("")
    }
}

// ---------------------------------------------------------------------------
// Descriptions, notes, syntax
// ---------------------------------------------------------------------------

/// Description chapter: html to Markdown.
pub fn parse_description(body_html: &str) -> (r: String)
    ensures
        r@ == markdown(body_html@),
{
    to_markdown(body_html)
}

/// Note chapter: html to Markdown, as a description.
pub fn parse_note(body_html: &str) -> (r: String)
    ensures
        r@ == markdown(body_html@),
{
    to_markdown(body_html)
}

/// Syntax chapter: the text without html.
pub fn parse_syntax(body_html: &str) -> (r: String)
    ensures
        r@ == plain_text(body_html@),
{
    extract_text(body_html)
}

/// Usage chapter: whether the text starts with «Только чтение».
pub fn parse_readonly(body_html: &str) -> (r: bool)
    ensures
        r == "Только чтение"@.is_prefix_of(plain_text(body_html@)),
{
    let t = extract_text(body_html);
    starts_with_str(t.as_str(), "Только чтение")
}

// ---------------------------------------------------------------------------
// Examples
// ---------------------------------------------------------------------------

/// `str::replace`: every non-overlapping occurrence of `p`, left to right,
/// replaced by `r` (for a non-empty `p`).
pub open spec fn replace_all(s: Seq<char>, p: Seq<char>, r: Seq<char>) -> Seq<char>
    decreases s.len(),
{
    if p.len() == 0 || s.len() < p.len() {
        s
    } else if s.take(p.len() as int) == p {
        r + replace_all(s.skip(p.len() as int), p, r)
    } else {
        seq![s[0]] + replace_all(s.skip(1), p, r)
    }
}

pub fn replace_chars(s: &[char], p: &[char], r: &[char]) -> (out: Vec<char>)
    requires
        p@.len() > 0,
    ensures
        out@ == replace_all(s@, p@, r@),
{
    let mut out: Vec<char> = Vec::new();
    let mut i: usize = 0;
    assert(s@.skip(0) =~= s@);
    while i < s.len()
        invariant
            p@.len() > 0,
            i <= s@.len(),
            out@ + replace_all(s@.skip(i as int), p@, r@) == replace_all(s@, p@, r@),
        decreases s.len() - i,
    {
        let ghost t = s@.skip(i as int);
        let ghost before = out@;
        if s.len() - i >= p.len() && occurs_at_exec(s, p, i) {
            proof {
                assert(t.take(p@.len() as int) =~= s@.subrange(i as int, i + p@.len()));
                assert(t.skip(p@.len() as int) =~= s@.skip(i + p@.len()));
            }
            push_chars(&mut out, r);
            i = i + p.len();
            proof {
                crate::seqs::lemma_add_assoc(before, r@, replace_all(s@.skip(i as int), p@, r@));
            }
        } else {
            proof {
                assert(t.skip(1) =~= s@.skip(i + 1));
                if t.len() < p@.len() {
                    assert(s@.skip(i + 1).len() < p@.len());
                    assert(t =~= seq![s@[i as int]] + s@.skip(i + 1));
                } else {
                    assert(t.take(p@.len() as int) =~= s@.subrange(i as int, i + p@.len()));
                }
            }
            out.push(s[i]);
            i = i + 1;
            proof {
                crate::seqs::lemma_add_assoc(
                    before,
                    seq![s@[i - 1]],
                    replace_all(s@.skip(i as int), p@, r@),
                );
            }
        }
    }
    proof {
        assert(s@.skip(s@.len() as int) =~= Seq::<char>::empty());
        assert(out@ + Seq::<char>::empty() =~= out@);
    }
    out
}

fn replace_str(s: &[char], p: &str, r: &str) -> (out: Vec<char>)
    requires
        p@.len() > 0,
    ensures
        out@ == replace_all(s@, p@, r@),
{
    let pv = chars_of(p);
    let rv = chars_of(r);
    replace_chars(s, pv.as_slice(), rv.as_slice())
}

/// Every no-break space turned into a plain space.
pub open spec fn nbsp_to_space(s: Seq<char>) -> Seq<char> {
    s.map_values(|c: char| if c == '\u{a0}' { ' ' } else { c })
}

/// The body of an example with its line-break tags turned into newlines.
pub open spec fn example_markup(body: Seq<char>) -> Seq<char> {
    replace_all(
        replace_all(
            replace_all(
                replace_all(replace_all(body, "<br>"@, "\n"@), "<br/>"@, "\n"@),
                "<br />"@,
                "\n"@,
            ),
            "<BR>"@,
            "\n"@,
        ),
        "<BR/>"@,
        "\n"@,
    )
}

/// The text of an example chapter.
pub open spec fn example_of(body: Seq<char>) -> Seq<char> {
    nbsp_to_space(trim(fragment_text(example_markup(body))))
}

/// The text of an example from the raw text of its chapter: trimmed, no-break
/// spaces made plain.
pub fn example_from_text(raw: &[char]) -> (r: String)
    ensures
        r@ == nbsp_to_space(trim(raw@)),
{
    let t = trim_vec(raw);
    let mut out: Vec<char> = Vec::new();
    let mut i: usize = 0;
    while i < t.len()
        invariant
            i <= t@.len(),
            out@ == nbsp_to_space(t@.take(i as int)),
        decreases t.len() - i,
    {
        let c = t[i];
        if c == '\u{a0}' {
            out.push(' ');
        } else {
            out.push(c);
        }
        i = i + 1;
        assert(out@ =~= nbsp_to_space(t@.take(i as int)));
    }
    assert(t@.take(t@.len() as int) =~= t@);
    string_from_chars(&out)
}

/// Example chapter: the text with each `<br>` (in its spellings) as a line
/// break.
pub fn parse_example(body_html: &str) -> (r: String)
    ensures
        r@ == example_of(body_html@),
{
    proof {
        reveal_strlit("<br>");
        reveal_strlit("<br/>");
        reveal_strlit("<br />");
        reveal_strlit("<BR>");
        reveal_strlit("<BR/>");
    }
    let v = chars_of(body_html);
    let a = replace_str(v.as_slice(), "<br>", "\n");
    let b = replace_str(a.as_slice(), "<br/>", "\n");
    let c = replace_str(b.as_slice(), "<br />", "\n");
    let d = replace_str(c.as_slice(), "<BR>", "\n");
    let e = replace_str(d.as_slice(), "<BR/>", "\n");
    let markup = string_from_chars(&e);
    let raw = raw_text(markup.as_str());
    example_from_text(raw.as_slice())
}

// ---------------------------------------------------------------------------
// "See also"
// ---------------------------------------------------------------------------

/// The name of a link: its text trimmed, " ," made ",", whitespace collapsed.
pub open spec fn link_name(raw: Seq<char>) -> Seq<char> {
    collapse_ws(replace_all(trim(raw), " ,"@, ","@))
}

/// The links with a non-empty name, as (name, href); a missing href is empty.
pub open spec fn links_of(sel: Seq<(Seq<char>, Option<Seq<char>>)>) -> Seq<(Seq<char>, Seq<char>)>
    decreases sel.len(),
{
    if sel.len() == 0 {
        Seq::empty()
    } else {
        let prev = links_of(sel.drop_last());
        let name = link_name(sel.last().0);
        if name.len() > 0 {
            prev.push(
                (
                    name,
                    match sel.last().1 {
                        Some(h) => h,
                        None => Seq::empty(),
                    },
                ),
            )
        } else {
            prev
        }
    }
}

pub open spec fn related_of(body: Seq<char>) -> Seq<(Seq<char>, Seq<char>)> {
    links_of(fragment_selection(body, "a"@, "href"@))
}

/// The links of the selected `<a>` elements (text, href).
pub fn links_from(sel: &Vec<(String, Option<String>)>) -> (r: Vec<RelatedObject>)
    ensures
        r.deep_view() == links_of(sel.deep_view()),
{
    proof {
        reveal_strlit(" ,");
    }
    let mut out: Vec<RelatedObject> = Vec::new();
    let mut i: usize = 0;
    while i < sel.len()
        invariant
            i <= sel.len(),
            " ,"@.len() > 0,
            out.deep_view() == links_of(sel.deep_view().take(i as int)),
        decreases sel.len() - i,
    {
        proof {
            let t = sel.deep_view().take(i + 1);
            assert(t.drop_last() =~= sel.deep_view().take(i as int));
            assert(t.last() == sel[i as int].deep_view());
        }
        let raw = chars_of(sel[i].0.as_str());
        let t = trim_vec(raw.as_slice());
        let rep = replace_str(t.as_slice(), " ,", ",");
        let name = collapse_chars(rep.as_slice());
        if name.len() > 0 {
            let href = match &sel[i].1 {
                Some(h) => h.clone(),
                None => String::new(),
            };
            let link = RelatedObject { name: string_from_chars(&name), href };
            let ghost before = out;
            out.push(link);
            proof {
                lemma_deep_view_push(before, out, link);
            }
        }
        i = i + 1;
    }
    proof {
        assert(sel.deep_view().take(sel.len() as int) =~= sel.deep_view());
    }
    out
}

/// "See also" chapter: for each `<a>`, its text as the name and its href.
pub fn parse_related_objects(body_html: &str) -> (r: Vec<RelatedObject>)
    ensures
        r.deep_view() == related_of(body_html@),
{
    let sel = select_in_fragment(body_html, "a", "href");
    links_from(&sel)
}

// ---------------------------------------------------------------------------
// Values
// ---------------------------------------------------------------------------

/// From the Markdown of a chapter: after the first «Тип:», the type up to the
/// first '.', and the rest as the description; `None` when there is no
/// «Тип:», nothing after it, or an empty type.
pub open spec fn value_info_of_markdown(md: Seq<char>) -> Option<(Seq<char>, Seq<char>)> {
    match first_occurrence_from(md, "Тип:"@, 0) {
        None => None,
        Some(idx) => {
            let rest = trim_start(md.skip(idx + "Тип:"@.len()));
            if rest.len() == 0 {
                None
            } else {
                let parts = match first_occurrence_from(rest, seq!['.'], 0) {
                    Some(d) => (trim(rest.take(d)), trim(rest.skip(d + 1))),
                    None => (trim(rest), Seq::empty()),
                };
                if parts.0.len() == 0 {
                    None
                } else {
                    Some(parts)
                }
            }
        },
    }
}

pub open spec fn value_info_of(body: Seq<char>) -> Option<(Seq<char>, Seq<char>)> {
    value_info_of_markdown(markdown(body))
}

/// Type and description from the Markdown of a chapter.
pub fn value_info_from_markdown(md: &str) -> (r: Option<ValueInfo>)
    ensures
        r.deep_view() == value_info_of_markdown(md@),
{
    let v = chars_of(md);
    let marker = chars_of("Тип:");
    match find_from(v.as_slice(), marker.as_slice(), 0) {
        None => None,
        Some(idx) => {
            proof {
                crate::text::lemma_first_occurrence_bound(v@, marker@, 0);
                assert(idx + marker@.len() <= v@.len());
            }
            let n = v.len();
            let m = marker.len();
            assert(idx + m <= n);
            let after = copy_range(v.as_slice(), idx + m, n);
            assert(after@ =~= v@.skip(idx + marker@.len()));
            let rest = trim_start_vec(after.as_slice());
            if rest.len() == 0 {
                return None;
            }
            let (name, desc) = match find_from(rest.as_slice(), &['.'], 0) {
                Some(d) => {
                    proof {
                        crate::text::lemma_first_occurrence_bound(rest@, ['.']@, 0);
                    }
                    let a = copy_range(rest.as_slice(), 0, d);
                    let b = copy_range(rest.as_slice(), d + 1, rest.len());
                    assert(a@ =~= rest@.take(d as int));
                    assert(b@ =~= rest@.skip(d + 1));
                    (trim_vec(a.as_slice()), trim_vec(b.as_slice()))
                },
                None => (trim_vec(rest.as_slice()), Vec::new()),
            };
            proof {
                assert(['.']@ =~= seq!['.']);
            }
            if name.len() == 0 {
                None
            } else {
                Some(ValueInfo { value_type: string_from_chars(&name), description: string_from_chars(&desc) })
            }
        },
    }
}

/// Return value or property description: the type after «Тип:» up to the
/// first '.', then the description; `None` without «Тип:» or without a type.
pub fn parse_value_info(body_html: &str) -> (r: Option<ValueInfo>)
    ensures
        r.deep_view() == value_info_of(body_html@),
{
    let md = to_markdown(body_html);
    value_info_from_markdown(md.as_str())
}

// ---------------------------------------------------------------------------
// Parameters
// ---------------------------------------------------------------------------

/// A parameter heading `<name> (необязательный)` as (name, optional); a text
/// not in angle brackets is the name as it stands.
pub open spec fn parameter_header(text: Seq<char>) -> (Seq<char>, bool) {
    let t = trim(text);
    if t.len() > 0 && t[0] == '<' {
        match first_occurrence_from(t, seq!['>'], 1) {
            Some(j) => (trim(t.subrange(1, j)), contains_seq(trim(t.skip(j + 1)), "необязательный"@)),
            None => (t, false),
        }
    } else {
        (t, false)
    }
}

/// One parameter per non-empty rubric text; type and description stay empty.
pub open spec fn params_of_texts(sel: Seq<(Seq<char>, Option<Seq<char>>)>) -> Seq<ParameterInfoModel>
    decreases sel.len(),
{
    if sel.len() == 0 {
        Seq::empty()
    } else {
        let prev = params_of_texts(sel.drop_last());
        let text = collapse_ws(trim(sel.last().0));
        if text.len() == 0 {
            prev
        } else {
            prev.push(
                ParameterInfoModel {
                    name: parameter_header(text).0,
                    value_type: Seq::empty(),
                    is_optional: parameter_header(text).1,
                    description: Seq::empty(),
                },
            )
        }
    }
}

pub open spec fn parameters_of(body: Seq<char>) -> Seq<ParameterInfoModel> {
    params_of_texts(fragment_selection(body, "div.V8SH_rubric"@, "href"@))
}

fn parameter_header_exec(text: &[char]) -> (r: (String, bool))
    ensures
        (r.0@, r.1) == parameter_header(text@),
{
    let t = trim_vec(text);
    if t.len() > 0 && t[0] == '<' {
        match find_from(t.as_slice(), &['>'], 1) {
            Some(j) => {
                proof {
                    crate::text::lemma_first_occurrence_bound(t@, ['>']@, 1);
                    assert(['>']@ =~= seq!['>']);
                }
                let inner = copy_range(t.as_slice(), 1, j);
                let name = trim_vec(inner.as_slice());
                let rest = copy_range(t.as_slice(), j + 1, t.len());
                assert(rest@ =~= t@.skip(j + 1));
                let after = trim_vec(rest.as_slice());
                let marker = chars_of("необязательный");
                let opt = contains_chars(after.as_slice(), marker.as_slice());
                (string_from_chars(&name), opt)
            },
            None => {
                proof {
                    assert(['>']@ =~= seq!['>']);
                }
                (string_from_chars(&t), false)
            },
        }
    } else {
        (string_from_chars(&t), false)
    }
}

/// The parameters of the selected rubrics (text of each).
pub fn parameters_from(sel: &Vec<(String, Option<String>)>) -> (r: Vec<MethodParameterInfo>)
    ensures
        r.deep_view() == params_of_texts(sel.deep_view()),
{
    let mut out: Vec<MethodParameterInfo> = Vec::new();
    let mut i: usize = 0;
    while i < sel.len()
        invariant
            i <= sel.len(),
            out.deep_view() == params_of_texts(sel.deep_view().take(i as int)),
        decreases sel.len() - i,
    {
        proof {
            let t = sel.deep_view().take(i + 1);
            assert(t.drop_last() =~= sel.deep_view().take(i as int));
            assert(t.last() == sel[i as int].deep_view());
        }
        let raw = chars_of(sel[i].0.as_str());
        let t = trim_vec(raw.as_slice());
        let text = collapse_chars(t.as_slice());
        if text.len() > 0 {
            let (name, is_optional) = parameter_header_exec(text.as_slice());
            let p = MethodParameterInfo {
                name,
                value_type: String::new(),
                is_optional,
                description: String::new(),
            };
            let ghost before = out;
            out.push(p);
            proof {
                lemma_deep_view_push(before, out, p);
            }
        }
        i = i + 1;
    }
    proof {
        assert(sel.deep_view().take(sel.len() as int) =~= sel.deep_view());
    }
    out
}

/// Parameters chapter: each `<div class="V8SH_rubric">` gives a parameter,
/// its heading `<name> (необязательный)` the name and whether it is optional.
pub fn parse_parameters(body_html: &str) -> (r: Vec<MethodParameterInfo>)
    ensures
        r.deep_view() == parameters_of(body_html@),
{
    let sel = select_in_fragment(body_html, "div.V8SH_rubric", "href");
    parameters_from(&sel)
}

} // verus!
