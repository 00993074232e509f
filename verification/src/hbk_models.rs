//! Table of contents of the syntax assistant: a tree of pages with bilingual
//! titles, and the intermediate records of its text format.
use vstd::prelude::*;

verus! {

/// Errors of reading the help container.
#[derive(Debug, Clone)]
pub enum HbkError {
    /// The container file does not exist (its path).
    NotFound(String),
    /// Reading failed.
    Io(String),
    /// The container's layout is not what it should be.
    BadFormat(String),
    /// Unpacking the table of contents failed.
    Inflate(String),
    /// The page archive could not be opened.
    Zip(String),
    /// No entity of that name in the container.
    EntityNotFound(String),
    /// No page of that path in the page archive.
    HtmlEntryNotFound(String),
    /// The table of contents is malformed.
    TocParse(String),
}

/// A bilingual string (Russian and English), as the platform names things.
#[derive(Debug, Clone)]
pub struct DoubleLanguageString {
    pub en: String,
    pub ru: String,
}

impl DoubleLanguageString {
    pub fn new(en: String, ru: String) -> (r: Self)
        ensures
            r.en@ == en@,
            r.ru@ == ru@,
    {
        DoubleLanguageString { en, ru }
    }
}

/// A help page in the table of contents; the tree is formed by `children`.
#[derive(Debug)]
pub struct Page {
    pub title: DoubleLanguageString,
    pub html_path: String,
    pub children: Vec<Page>,
}

impl Page {
    pub fn new(title: DoubleLanguageString, html_path: String) -> (r: Self)
        ensures
            r.title.en@ == title.en@,
            r.title.ru@ == title.ru@,
            r.html_path@ == html_path@,
            r.children@.len() == 0,
    {
        Page { title, html_path, children: Vec::new() }
    }
}

pub struct PageModel {
    pub title_en: Seq<char>,
    pub title_ru: Seq<char>,
    pub html_path: Seq<char>,
    pub children: Seq<PageModel>,
}

/// The model of a page tree.
pub open spec fn page_model(p: Page) -> PageModel
    decreases p,
{
    PageModel {
        title_en: p.title.en@,
        title_ru: p.title.ru@,
        html_path: p.html_path@,
        children: Seq::new(
            p.children@.len(),
            |i: int|
                if 0 <= i < p.children@.len() {
                    page_model(p.children@[i])
                } else {
                    PageModel {
                        title_en: Seq::empty(),
                        title_ru: Seq::empty(),
                        html_path: Seq::empty(),
                        children: Seq::empty(),
                    }
                },
        ),
    }
}

pub open spec fn pages_model(ps: Seq<Page>) -> Seq<PageModel> {
    ps.map_values(|p: Page| page_model(p))
}

/// A record of the table of contents, before the tree is built.
#[derive(Debug, Clone)]
pub struct Chunk {
    pub id: i32,
    pub parent_id: i32,
    pub child_count: i32,
    pub child_ids: Vec<i32>,
    pub properties: PropertiesContainer,
}

#[derive(Debug, Clone)]
pub struct PropertiesContainer {
    pub number1: i32,
    pub number2: i32,
    pub name_container: NameContainer,
    pub html_path: String,
}

#[derive(Debug, Clone)]
pub struct NameContainer {
    pub number1: i32,
    pub number2: i32,
    pub name_objects: Vec<NameObject>,
}

#[derive(Debug, Clone)]
pub struct NameObject {
    pub language_code: String,
    pub name: String,
}

pub struct NameObjectModel {
    pub language_code: Seq<char>,
    pub name: Seq<char>,
}

pub struct NameContainerModel {
    pub number1: i32,
    pub number2: i32,
    pub name_objects: Seq<NameObjectModel>,
}

pub struct PropertiesModel {
    pub number1: i32,
    pub number2: i32,
    pub name_container: NameContainerModel,
    pub html_path: Seq<char>,
}

pub struct ChunkModel {
    pub id: i32,
    pub parent_id: i32,
    pub child_count: i32,
    pub child_ids: Seq<i32>,
    pub properties: PropertiesModel,
}

impl DeepView for NameObject {
    type V = NameObjectModel;

    open spec fn deep_view(&self) -> NameObjectModel {
        NameObjectModel { language_code: self.language_code@, name: self.name@ }
    }
}

impl DeepView for NameContainer {
    type V = NameContainerModel;

    open spec fn deep_view(&self) -> NameContainerModel {
        NameContainerModel {
            number1: self.number1,
            number2: self.number2,
            name_objects: self.name_objects.deep_view(),
        }
    }
}

impl DeepView for PropertiesContainer {
    type V = PropertiesModel;

    open spec fn deep_view(&self) -> PropertiesModel {
        PropertiesModel {
            number1: self.number1,
            number2: self.number2,
            name_container: self.name_container.deep_view(),
            html_path: self.html_path@,
        }
    }
}

impl DeepView for Chunk {
    type V = ChunkModel;

    open spec fn deep_view(&self) -> ChunkModel {
        ChunkModel {
            id: self.id,
            parent_id: self.parent_id,
            child_count: self.child_count,
            child_ids: self.child_ids@,
            properties: self.properties.deep_view(),
        }
    }
}

/// The table of contents: the root pages (children of the virtual root).
#[derive(Debug)]
pub struct Toc {
    pub pages: Vec<Page>,
}

/// A copy of a page tree.
pub fn copy_page(p: &Page) -> (r: Page)
    ensures
        page_model(r) == page_model(*p),
    decreases p,
{
    let mut children: Vec<Page> = Vec::new();
    let mut i: usize = 0;
    while i < p.children.len()
        invariant
            i <= p.children@.len(),
            children@.len() == i,
            forall|j: int| 0 <= j < i ==> page_model(#[trigger] children@[j]) == page_model(p.children@[j]),
        decreases p.children.len() - i,
    {
        let c = copy_page(&p.children[i]);
        children.push(c);
        i = i + 1;
    }
    let r = Page {
        title: DoubleLanguageString { en: p.title.en.clone(), ru: p.title.ru.clone() },
        html_path: p.html_path.clone(),
        children,
    };
    assert(page_model(r).children =~= page_model(*p).children);
    r
}

/// A copy of a sequence of page trees.
pub fn copy_pages(ps: &Vec<Page>) -> (r: Vec<Page>)
    ensures
        pages_model(r@) == pages_model(ps@),
{
    let mut out: Vec<Page> = Vec::new();
    let mut i: usize = 0;
    while i < ps.len()
        invariant
            i <= ps@.len(),
            out@.len() == i,
            forall|j: int| 0 <= j < i ==> page_model(#[trigger] out@[j]) == page_model(ps@[j]),
        decreases ps.len() - i,
    {
        out.push(copy_page(&ps[i]));
        i = i + 1;
    }
    assert(pages_model(out@) =~= pages_model(ps@));
    out
}

} // verus!
