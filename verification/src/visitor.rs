//! Walking the table of contents of the platform help.
//!
//! A root page is the global context, a catalogue of system enumerations or
//! a catalogue of types; under a catalogue the leaf pages are reached through
//! the intermediate `catalogNNN.html` pages.
use vstd::prelude::*;

use crate::content::{entry_name, HbkContent};
use crate::hbk_models::{page_model, pages_model, Page, PageModel};
use vstd::utf8::{decode_utf8, valid_utf8};

use crate::html::page_chapters;
use crate::page_models::{
    ConstructorInfo, ConstructorInfoModel, EnumInfo, EnumInfoModel, EnumValueInfoModel, MethodInfo,
    MethodInfoModel, ObjectInfo, ObjectInfoModel, PropertyInfo, PropertyInfoModel,
};
use crate::pages::{
    constructor_of_chapters, enum_of_chapters, enum_value_of_chapters, method_of_chapters,
    object_of_chapters, parse_constructor_page, parse_enum_page, parse_enum_value_page,
    parse_method_page, parse_object_page, parse_property_page, property_of_chapters,
};
use crate::seqs::lemma_deep_view_push;
use crate::text::{
    char_is_decimal_digit, chars_of, contains_seq, contains_str, is_decimal_digit, occurs_at, occurs_at_exec, str_eq,
};

verus! {

/// The kind of a root page of the table of contents.
#[derive(Debug, Clone, Copy, PartialEq, Eq, Structural)]
pub enum RootKind {
    GlobalContext,
    EnumsCatalog,
    TypesCatalog,
}

pub open spec fn is_global_context(p: PageModel) -> bool {
    contains_seq(p.html_path, "Global context.html"@)
}

pub open spec fn is_enum_catalog_title(t: Seq<char>) -> bool {
    t == "Системные наборы значений"@ || t == "Системные перечисления"@
}

/// A catalogue of system enumerations, by either of its titles.
pub open spec fn is_enum_catalog(p: PageModel) -> bool {
    is_enum_catalog_title(p.title_ru) || is_enum_catalog_title(p.title_en)
}

pub open spec fn root_kind(p: PageModel) -> RootKind {
    if is_global_context(p) {
        RootKind::GlobalContext
    } else if is_enum_catalog(p) {
        RootKind::EnumsCatalog
    } else {
        RootKind::TypesCatalog
    }
}

fn is_enum_catalog_title_exec(t: &str) -> (r: bool)
    ensures
        r == is_enum_catalog_title(t@),
{
    str_eq(t, "Системные наборы значений") || str_eq(t, "Системные перечисления")
}

/// The kind of a root page: the global context by its path, a catalogue
/// of enumerations by its title, anything else a catalogue of types.
pub fn classify_root(page: &Page) -> (r: RootKind)
    ensures
        r == root_kind(page_model(*page)),
{
    if contains_str(page.html_path.as_str(), "Global context.html") {
        RootKind::GlobalContext
    } else if is_enum_catalog_title_exec(page.title.ru.as_str()) || is_enum_catalog_title_exec(
        page.title.en.as_str(),
    ) {
        RootKind::EnumsCatalog
    } else {
        RootKind::TypesCatalog
    }
}

// ---------------------------------------------------------------------------
// Catalogue pages
// ---------------------------------------------------------------------------

/// End of the run of decimal digits that starts at `i`.
pub open spec fn digits_end(s: Seq<char>, i: int) -> int
    decreases s.len() - i,
{
    if 0 <= i < s.len() && is_decimal_digit(s[i]) {
        digits_end(s, i + 1)
    } else {
        i
    }
}

/// `/catalog`, one or more decimal digits (any in Unicode), then `.html`,
/// starting at `i`.
pub open spec fn catalog_at(s: Seq<char>, i: int) -> bool {
    &&& occurs_at(s, "/catalog"@, i)
    &&& digits_end(s, i + "/catalog"@.len()) > i + "/catalog"@.len()
    &&& occurs_at(s, ".html"@, digits_end(s, i + "/catalog"@.len()))
}

/// A path with `/catalog<digits>.html` in it.
pub open spec fn is_catalog_path(s: Seq<char>) -> bool {
    exists|i: int| catalog_at(s, i)
}

proof fn lemma_digits_end_bounds(s: Seq<char>, i: int)
    requires
        0 <= i <= s.len(),
    ensures
        i <= digits_end(s, i) <= s.len(),
    decreases s.len() - i,
{
    if i < s.len() && is_decimal_digit(s[i]) {
        lemma_digits_end_bounds(s, i + 1);
    }
}

fn digits_end_exec(s: &[char], i: usize) -> (r: usize)
    requires
        i <= s@.len(),
    ensures
        r == digits_end(s@, i as int),
{
    let mut j = i;
    while j < s.len() && char_is_decimal_digit(s[j])
        invariant
            i <= j <= s@.len(),
            digits_end(s@, i as int) == digits_end(s@, j as int),
        decreases s.len() - j,
    {
        j = j + 1;
    }
    j
}

/// Whether a page path is that of an intermediate catalogue page.
pub fn is_catalog_page_path(path: &str) -> (r: bool)
    ensures
        r == is_catalog_path(path@),
{
    proof {
        reveal_strlit("/catalog");
        reveal_strlit(".html");
    }
    let s = chars_of(path);
    let cat = chars_of("/catalog");
    let html = chars_of(".html");
    let n = s.len();
    let mut i: usize = 0;
    while i < n
        invariant
            n == s@.len(),
            s@ == path@,
            cat@ == "/catalog"@,
            html@ == ".html"@,
            cat@.len() == 8,
            forall|k: int| 0 <= k < i ==> !catalog_at(s@, k),
        decreases n - i,
    {
        if occurs_at_exec(s.as_slice(), cat.as_slice(), i) {
            let d = digits_end_exec(s.as_slice(), i + 8);
            if d > i + 8 && occurs_at_exec(s.as_slice(), html.as_slice(), d) {
                assert(catalog_at(s@, i as int));
                return true;
            }
        }
        i = i + 1;
    }
    proof {
        assert forall|k: int| !catalog_at(s@, k) by {
            if k >= n {
                assert(!occurs_at(s@, "/catalog"@, k));
            }
        }
    }
    false
}

// ---------------------------------------------------------------------------
// Drilling down
// ---------------------------------------------------------------------------

/// The leaf pages among the first `k` children of `p`: children without a
/// path are skipped, catalogue pages are drilled into, others are leaves.
pub open spec fn leaves_among(p: PageModel, k: int) -> Seq<PageModel>
    decreases p, k,
{
    if k <= 0 || k > p.children.len() {
        Seq::empty()
    } else {
        let prev = leaves_among(p, k - 1);
        let c = p.children[k - 1];
        if c.html_path.len() == 0 {
            prev
        } else if is_catalog_path(c.html_path) {
            prev + leaves_among(c, c.children.len() as int)
        } else {
            prev.push(c)
        }
    }
}

/// The leaf pages under `p`.
pub open spec fn leaves_under(p: PageModel) -> Seq<PageModel> {
    leaves_among(p, p.children.len() as int)
}

pub open spec fn refs_model(s: Seq<&Page>) -> Seq<PageModel> {
    s.map_values(|p: &Page| page_model(*p))
}

/// Appends to `out` the leaf pages under `base`.
pub fn drill_down<'a>(base: &'a Page, out: &mut Vec<&'a Page>)
    ensures
        refs_model(final(out)@) == refs_model(old(out)@) + leaves_under(page_model(*base)),
    decreases base,
{
    let ghost start = refs_model(out@);
    let ghost pm = page_model(*base);
    let mut i: usize = 0;
    assert(pm.children.len() == base.children@.len());
    while i < base.children.len()
        invariant
            i <= base.children@.len(),
            pm == page_model(*base),
            pm.children.len() == base.children@.len(),
            refs_model(out@) == start + leaves_among(pm, i as int),
        decreases base.children.len() - i,
    {
        let child = &base.children[i];
        assert(pm.children[i as int] == page_model(*child));
        if child.html_path.as_str().is_empty() {
        } else if is_catalog_page_path(child.html_path.as_str()) {
            let ghost before = refs_model(out@);
            drill_down(child, out);
            proof {
                crate::seqs::lemma_add_assoc(start, leaves_among(pm, i as int), leaves_under(page_model(*child)));
            }
        } else {
            let ghost before = out@;
            out.push(child);
            proof {
                assert(refs_model(out@) =~= refs_model(before).push(page_model(*child)));
                assert(start + leaves_among(pm, i as int).push(page_model(*child)) =~= (start
                    + leaves_among(pm, i as int)).push(page_model(*child)));
            }
        }
        i = i + 1;
    }
}

// ---------------------------------------------------------------------------
// Root pages
// ---------------------------------------------------------------------------

/// The root pages by kind.
pub struct RootPages<'a> {
    pub global_context: Option<&'a Page>,
    pub enums: Vec<&'a Page>,
    pub types: Vec<&'a Page>,
}

pub struct RootPagesModel {
    pub global_context: Option<PageModel>,
    pub enums: Seq<PageModel>,
    pub types: Seq<PageModel>,
}

impl<'a> RootPages<'a> {
    pub open spec fn model(&self) -> RootPagesModel {
        RootPagesModel {
            global_context: match self.global_context {
                Some(p) => Some(page_model(*p)),
                None => None,
            },
            enums: refs_model(self.enums@),
            types: refs_model(self.types@),
        }
    }
}

/// The root pages sorted by kind; a page without path and children is
/// skipped, and of several global contexts the last one counts.
pub open spec fn roots_of(ps: Seq<PageModel>) -> RootPagesModel
    decreases ps.len(),
{
    if ps.len() == 0 {
        RootPagesModel { global_context: None, enums: Seq::empty(), types: Seq::empty() }
    } else {
        let prev = roots_of(ps.drop_last());
        let p = ps.last();
        if p.html_path.len() == 0 && p.children.len() == 0 {
            prev
        } else {
            match root_kind(p) {
                RootKind::GlobalContext => RootPagesModel { global_context: Some(p), ..prev },
                RootKind::EnumsCatalog => RootPagesModel { enums: prev.enums.push(p), ..prev },
                RootKind::TypesCatalog => RootPagesModel { types: prev.types.push(p), ..prev },
            }
        }
    }
}

/// Sorts the root pages of the table of contents by kind.
pub fn collect_root_pages(pages: &[Page]) -> (r: RootPages<'_>)
    ensures
        r.model() == roots_of(pages_model(pages@)),
{
    let mut r = RootPages { global_context: None, enums: Vec::new(), types: Vec::new() };
    let ghost all = pages_model(pages@);
    proof {
        assert(all.take(0) =~= Seq::<PageModel>::empty());
        assert(refs_model(r.enums@) =~= Seq::<PageModel>::empty());
        assert(refs_model(r.types@) =~= Seq::<PageModel>::empty());
    }
    let mut i: usize = 0;
    while i < pages.len()
        invariant
            i <= pages@.len(),
            all == pages_model(pages@),
            r.model() == roots_of(all.take(i as int)),
        decreases pages.len() - i,
    {
        let p = &pages[i];
        proof {
            let t = all.take(i + 1);
            assert(t.drop_last() =~= all.take(i as int));
            assert(t.last() == page_model(*p));
        }
        if p.html_path.as_str().is_empty() && p.children.len() == 0 {
        } else {
            match classify_root(p) {
                RootKind::GlobalContext => {
                    r.global_context = Some(p);
                },
                RootKind::EnumsCatalog => {
                    let ghost before = r.enums@;
                    r.enums.push(p);
                    assert(refs_model(r.enums@) =~= refs_model(before).push(page_model(*p)));
                },
                RootKind::TypesCatalog => {
                    let ghost before = r.types@;
                    r.types.push(p);
                    assert(refs_model(r.types@) =~= refs_model(before).push(page_model(*p)));
                },
            }
        }
        i = i + 1;
    }
    proof {
        assert(all.take(pages@.len() as int) =~= all);
    }
    r
}


// ---------------------------------------------------------------------------
// Reading pages
// ---------------------------------------------------------------------------

/// The text of the page at `path`: `None` for an empty path, a page the
/// archive lacks or cannot read, or one that is not UTF-8.
pub open spec fn page_text(files: Map<Seq<char>, Option<Seq<u8>>>, path: Seq<char>) -> Option<Seq<char>> {
    let name = entry_name(path);
    if path.len() > 0 && files.contains_key(name) && files[name] is Some && valid_utf8(
        files[name]->0,
    ) {
        Some(decode_utf8(files[name]->0))
    } else {
        None
    }
}

fn try_read_html(content: &mut HbkContent, html_path: &str) -> (r: Option<String>)
    ensures
        final(content).files() == old(content).files(),
        r.deep_view() == page_text(old(content).files(), html_path@),
{
    if html_path.is_empty() {
        return None;
    }
    match content.get_entry_text(html_path) {
        Ok(s) => Some(s),
        Err(_) => None,
    }
}

pub open spec fn path_has(p: PageModel, part: Seq<char>) -> bool {
    contains_seq(p.html_path, part)
}

/// The title a sub-page goes by: the Russian one, or the English one when
/// there is no Russian one.
pub open spec fn label_of(p: PageModel) -> Seq<char> {
    if p.title_ru.len() > 0 {
        p.title_ru
    } else {
        p.title_en
    }
}

fn label(p: &Page) -> (r: &str)
    ensures
        r@ == label_of(page_model(*p)),
{
    if !p.title.ru.as_str().is_empty() {
        p.title.ru.as_str()
    } else {
        p.title.en.as_str()
    }
}

// ---------------------------------------------------------------------------
// Enumerations
// ---------------------------------------------------------------------------

/// The values read from the `/properties/` children of an enumeration page.
pub open spec fn enum_values_among(files: Map<Seq<char>, Option<Seq<u8>>>, cs: Seq<PageModel>) -> Seq<EnumValueInfoModel>
    decreases cs.len(),
{
    if cs.len() == 0 {
        Seq::empty()
    } else {
        let prev = enum_values_among(files, cs.drop_last());
        let c = cs.last();
        if path_has(c, "/properties/"@) {
            match page_text(files, c.html_path) {
                Some(h) => prev.push(enum_value_of_chapters(page_chapters(h))),
                None => prev,
            }
        } else {
            prev
        }
    }
}

/// An enumeration with its values, `None` when its page cannot be read.
pub open spec fn enum_of_page(files: Map<Seq<char>, Option<Seq<u8>>>, p: PageModel) -> Option<EnumInfoModel> {
    match page_text(files, p.html_path) {
        None => None,
        Some(h) => Some(
            EnumInfoModel { values: enum_values_among(files, p.children), ..enum_of_chapters(page_chapters(h)) },
        ),
    }
}

/// Parses the page of a system enumeration and its values from its
/// `/properties/` children.
pub fn visit_enum_page(content: &mut HbkContent, page: &Page) -> (r: Option<EnumInfo>)
    ensures
        final(content).files() == old(content).files(),
        r.deep_view() == enum_of_page(old(content).files(), page_model(*page)),
{
    let ghost files = content.files();
    let ghost pm = page_model(*page);
    let html = match try_read_html(content, page.html_path.as_str()) {
        Some(h) => h,
        None => return None,
    };
    let mut info = parse_enum_page(html.as_str());
    proof {
        assert(info.values.deep_view() =~= enum_values_among(files, pm.children.take(0)));
    }
    let mut i: usize = 0;
    while i < page.children.len()
        invariant
            i <= page.children@.len(),
            pm == page_model(*page),
            pm.children.len() == page.children@.len(),
            content.files() == files,
            info.deep_view() == (EnumInfoModel {
                values: enum_values_among(files, pm.children.take(i as int)),
                ..enum_of_chapters(page_chapters(html@))
            }),
        decreases page.children.len() - i,
    {
        let child = &page.children[i];
        proof {
            let t = pm.children.take(i + 1);
            assert(t.drop_last() =~= pm.children.take(i as int));
            assert(t.last() == page_model(*child));
        }
        if contains_str(child.html_path.as_str(), "/properties/") {
            match try_read_html(content, child.html_path.as_str()) {
                Some(h) => {
                    let v = parse_enum_value_page(h.as_str());
                    let ghost before = info.values;
                    info.values.push(v);
                    proof {
                        lemma_deep_view_push(before, info.values, v);
                    }
                },
                None => {},
            }
        }
        i = i + 1;
    }
    proof {
        assert(pm.children.take(pm.children.len() as int) =~= pm.children);
    }
    Some(info)
}

// ---------------------------------------------------------------------------
// Members of types
// ---------------------------------------------------------------------------

/// The properties read from the `/properties/` children of a page, leaving
/// out those whose Russian title starts with '<'.
pub open spec fn properties_among(files: Map<Seq<char>, Option<Seq<u8>>>, cs: Seq<PageModel>) -> Seq<PropertyInfoModel>
    decreases cs.len(),
{
    if cs.len() == 0 {
        Seq::empty()
    } else {
        let prev = properties_among(files, cs.drop_last());
        let c = cs.last();
        if path_has(c, "/properties/"@) && !(c.title_ru.len() > 0 && c.title_ru[0] == '<') {
            match page_text(files, c.html_path) {
                Some(h) => prev.push(property_of_chapters(page_chapters(h))),
                None => prev,
            }
        } else {
            prev
        }
    }
}

/// Parses the property pages under a "Свойства" page.
pub fn visit_properties_page(content: &mut HbkContent, page: &Page) -> (r: Vec<PropertyInfo>)
    ensures
        final(content).files() == old(content).files(),
        r.deep_view() == properties_among(old(content).files(), page_model(*page).children),
{
    let ghost files = content.files();
    let ghost pm = page_model(*page);
    let mut out: Vec<PropertyInfo> = Vec::new();
    proof {
        assert(out.deep_view() =~= properties_among(files, pm.children.take(0)));
    }
    let mut i: usize = 0;
    while i < page.children.len()
        invariant
            i <= page.children@.len(),
            pm == page_model(*page),
            pm.children.len() == page.children@.len(),
            content.files() == files,
            out.deep_view() == properties_among(files, pm.children.take(i as int)),
        decreases page.children.len() - i,
    {
        let child = &page.children[i];
        proof {
            let t = pm.children.take(i + 1);
            assert(t.drop_last() =~= pm.children.take(i as int));
            assert(t.last() == page_model(*child));
        }
        let ru = child.title.ru.as_str();
        let pseudo = !ru.is_empty() && ru.get_char(0) == '<';
        if contains_str(child.html_path.as_str(), "/properties/") && !pseudo {
            match try_read_html(content, child.html_path.as_str()) {
                Some(h) => {
                    let v = parse_property_page(h.as_str());
                    let ghost before = out;
                    out.push(v);
                    proof {
                        lemma_deep_view_push(before, out, v);
                    }
                },
                None => {},
            }
        }
        i = i + 1;
    }
    proof {
        assert(pm.children.take(pm.children.len() as int) =~= pm.children);
    }
    out
}

/// The methods read from the children of a page; a page that gives no
/// overload (a catalogue page) is left out.
pub open spec fn methods_among(files: Map<Seq<char>, Option<Seq<u8>>>, cs: Seq<PageModel>) -> Seq<MethodInfoModel>
    decreases cs.len(),
{
    if cs.len() == 0 {
        Seq::empty()
    } else {
        let prev = methods_among(files, cs.drop_last());
        match page_text(files, cs.last().html_path) {
            Some(h) => if method_of_chapters(page_chapters(h)).signatures.len() > 0 {
                prev.push(method_of_chapters(page_chapters(h)))
            } else {
                prev
            },
            None => prev,
        }
    }
}

/// Parses the method pages under a "Методы" page.
pub fn visit_methods_page(content: &mut HbkContent, page: &Page) -> (r: Vec<MethodInfo>)
    ensures
        final(content).files() == old(content).files(),
        r.deep_view() == methods_among(old(content).files(), page_model(*page).children),
{
    let ghost files = content.files();
    let ghost pm = page_model(*page);
    let mut out: Vec<MethodInfo> = Vec::new();
    proof {
        assert(out.deep_view() =~= methods_among(files, pm.children.take(0)));
    }
    let mut i: usize = 0;
    while i < page.children.len()
        invariant
            i <= page.children@.len(),
            pm == page_model(*page),
            pm.children.len() == page.children@.len(),
            content.files() == files,
            out.deep_view() == methods_among(files, pm.children.take(i as int)),
        decreases page.children.len() - i,
    {
        let child = &page.children[i];
        proof {
            let t = pm.children.take(i + 1);
            assert(t.drop_last() =~= pm.children.take(i as int));
            assert(t.last() == page_model(*child));
        }
        match try_read_html(content, child.html_path.as_str()) {
            Some(h) => {
                let m = parse_method_page(h.as_str());
                if m.signatures.len() > 0 {
                    let ghost before = out;
                    out.push(m);
                    proof {
                        lemma_deep_view_push(before, out, m);
                    }
                }
            },
            None => {},
        }
        i = i + 1;
    }
    proof {
        assert(pm.children.take(pm.children.len() as int) =~= pm.children);
    }
    out
}

/// The constructors read from the `/ctors/` children of a page.
pub open spec fn constructors_among(files: Map<Seq<char>, Option<Seq<u8>>>, cs: Seq<PageModel>) -> Seq<ConstructorInfoModel>
    decreases cs.len(),
{
    if cs.len() == 0 {
        Seq::empty()
    } else {
        let prev = constructors_among(files, cs.drop_last());
        let c = cs.last();
        if path_has(c, "/ctors/"@) {
            match page_text(files, c.html_path) {
                Some(h) => prev.push(constructor_of_chapters(page_chapters(h))),
                None => prev,
            }
        } else {
            prev
        }
    }
}

/// Parses the constructor pages under a "Конструкторы" page.
pub fn visit_constructors_page(content: &mut HbkContent, page: &Page) -> (r: Vec<ConstructorInfo>)
    ensures
        final(content).files() == old(content).files(),
        r.deep_view() == constructors_among(old(content).files(), page_model(*page).children),
{
    let ghost files = content.files();
    let ghost pm = page_model(*page);
    let mut out: Vec<ConstructorInfo> = Vec::new();
    proof {
        assert(out.deep_view() =~= constructors_among(files, pm.children.take(0)));
    }
    let mut i: usize = 0;
    while i < page.children.len()
        invariant
            i <= page.children@.len(),
            pm == page_model(*page),
            pm.children.len() == page.children@.len(),
            content.files() == files,
            out.deep_view() == constructors_among(files, pm.children.take(i as int)),
        decreases page.children.len() - i,
    {
        let child = &page.children[i];
        proof {
            let t = pm.children.take(i + 1);
            assert(t.drop_last() =~= pm.children.take(i as int));
            assert(t.last() == page_model(*child));
        }
        if contains_str(child.html_path.as_str(), "/ctors/") {
            match try_read_html(content, child.html_path.as_str()) {
                Some(h) => {
                    let v = parse_constructor_page(h.as_str());
                    let ghost before = out;
                    out.push(v);
                    proof {
                        lemma_deep_view_push(before, out, v);
                    }
                },
                None => {},
            }
        }
        i = i + 1;
    }
    proof {
        assert(pm.children.take(pm.children.len() as int) =~= pm.children);
    }
    out
}

// ---------------------------------------------------------------------------
// Types
// ---------------------------------------------------------------------------

/// What the sub-pages of a type page fill in: properties under "Свойства",
/// methods under "Методы", constructors under "Конструкторы" (by label; a
/// later sub-page of the same label wins).
pub open spec fn type_members(files: Map<Seq<char>, Option<Seq<u8>>>, base: ObjectInfoModel, subs: Seq<PageModel>) -> ObjectInfoModel
    decreases subs.len(),
{
    if subs.len() == 0 {
        base
    } else {
        let prev = type_members(files, base, subs.drop_last());
        let sub = subs.last();
        let l = label_of(sub);
        if l == "Свойства"@ {
            ObjectInfoModel { properties: properties_among(files, sub.children), ..prev }
        } else if l == "Методы"@ {
            ObjectInfoModel { methods: methods_among(files, sub.children), ..prev }
        } else if l == "Конструкторы"@ {
            ObjectInfoModel { constructors: constructors_among(files, sub.children), ..prev }
        } else {
            prev
        }
    }
}

/// A type with its members, `None` when its page cannot be read.
pub open spec fn object_of_page(files: Map<Seq<char>, Option<Seq<u8>>>, p: PageModel) -> Option<ObjectInfoModel> {
    match page_text(files, p.html_path) {
        None => None,
        Some(h) => Some(type_members(files, object_of_chapters(page_chapters(h)), p.children)),
    }
}

/// Parses the page of a type and its members from its sub-pages.
pub fn visit_type_page(content: &mut HbkContent, page: &Page) -> (r: Option<ObjectInfo>)
    ensures
        final(content).files() == old(content).files(),
        r.deep_view() == object_of_page(old(content).files(), page_model(*page)),
{
    let ghost files = content.files();
    let ghost pm = page_model(*page);
    let html = match try_read_html(content, page.html_path.as_str()) {
        Some(h) => h,
        None => return None,
    };
    let mut info = parse_object_page(html.as_str());
    let ghost base = info.deep_view();
    proof {
        assert(pm.children.take(0) =~= Seq::<PageModel>::empty());
    }
    let mut i: usize = 0;
    while i < page.children.len()
        invariant
            i <= page.children@.len(),
            pm == page_model(*page),
            pm.children.len() == page.children@.len(),
            content.files() == files,
            info.deep_view() == type_members(files, base, pm.children.take(i as int)),
        decreases page.children.len() - i,
    {
        let sub = &page.children[i];
        proof {
            let t = pm.children.take(i + 1);
            assert(t.drop_last() =~= pm.children.take(i as int));
            assert(t.last() == page_model(*sub));
        }
        let l = label(sub);
        if str_eq(l, "Свойства") {
            info.properties = visit_properties_page(content, sub);
        } else if str_eq(l, "Методы") {
            info.methods = visit_methods_page(content, sub);
        } else if str_eq(l, "Конструкторы") {
            info.constructors = visit_constructors_page(content, sub);
        }
        i = i + 1;
    }
    proof {
        assert(pm.children.take(pm.children.len() as int) =~= pm.children);
    }
    Some(info)
}

// ---------------------------------------------------------------------------
// The global context
// ---------------------------------------------------------------------------

/// The global methods: those under each `/methods/` child of the global
/// context, in order.
pub open spec fn global_methods_among(files: Map<Seq<char>, Option<Seq<u8>>>, cs: Seq<PageModel>) -> Seq<MethodInfoModel>
    decreases cs.len(),
{
    if cs.len() == 0 {
        Seq::empty()
    } else {
        let prev = global_methods_among(files, cs.drop_last());
        if path_has(cs.last(), "/methods/"@) {
            prev + methods_among(files, cs.last().children)
        } else {
            prev
        }
    }
}

/// Collects the global methods from the sections of the global context.
pub fn collect_global_methods(content: &mut HbkContent, global: &Page) -> (r: Vec<MethodInfo>)
    ensures
        final(content).files() == old(content).files(),
        r.deep_view() == global_methods_among(old(content).files(), page_model(*global).children),
{
    let ghost files = content.files();
    let ghost pm = page_model(*global);
    let mut out: Vec<MethodInfo> = Vec::new();
    proof {
        assert(out.deep_view() =~= global_methods_among(files, pm.children.take(0)));
    }
    let mut i: usize = 0;
    while i < global.children.len()
        invariant
            i <= global.children@.len(),
            pm == page_model(*global),
            pm.children.len() == global.children@.len(),
            content.files() == files,
            out.deep_view() == global_methods_among(files, pm.children.take(i as int)),
        decreases global.children.len() - i,
    {
        let child = &global.children[i];
        proof {
            let t = pm.children.take(i + 1);
            assert(t.drop_last() =~= pm.children.take(i as int));
            assert(t.last() == page_model(*child));
        }
        if contains_str(child.html_path.as_str(), "/methods/") {
            let mut more = visit_methods_page(content, child);
            let ghost a = out.deep_view();
            let ghost b = more.deep_view();
            out.append(&mut more);
            proof {
                assert(out.deep_view() =~= a + b);
            }
        }
        i = i + 1;
    }
    proof {
        assert(pm.children.take(pm.children.len() as int) =~= pm.children);
    }
    out
}

/// The global properties: those under the first child labelled "Свойства".
pub open spec fn global_properties_among(files: Map<Seq<char>, Option<Seq<u8>>>, cs: Seq<PageModel>) -> Seq<PropertyInfoModel>
    decreases cs.len(),
{
    if cs.len() == 0 {
        Seq::empty()
    } else if label_of(cs[0]) == "Свойства"@ {
        properties_among(files, cs[0].children)
    } else {
        global_properties_among(files, cs.drop_first())
    }
}

/// Collects the global properties from the "Свойства" sub-page of the global context.
pub fn collect_global_properties(content: &mut HbkContent, global: &Page) -> (r: Vec<PropertyInfo>)
    ensures
        final(content).files() == old(content).files(),
        r.deep_view() == global_properties_among(old(content).files(), page_model(*global).children),
{
    let ghost files = content.files();
    let ghost pm = page_model(*global);
    let mut i: usize = 0;
    proof {
        assert(pm.children.skip(0) =~= pm.children);
    }
    while i < global.children.len()
        invariant
            i <= global.children@.len(),
            pm == page_model(*global),
            pm.children.len() == global.children@.len(),
            content.files() == files,
            files == old(content).files(),
            global_properties_among(files, pm.children) == global_properties_among(files, pm.children.skip(i as int)),
        decreases global.children.len() - i,
    {
        let child = &global.children[i];
        proof {
            let t = pm.children.skip(i as int);
            assert(t[0] == page_model(*child));
            assert(t.drop_first() =~= pm.children.skip(i + 1));
        }
        if str_eq(label(child), "Свойства") {
            return visit_properties_page(content, child);
        }
        i = i + 1;
    }
    proof {
        assert(pm.children.skip(i as int) =~= Seq::<PageModel>::empty());
    }
    Vec::new()
}

} // verus!
