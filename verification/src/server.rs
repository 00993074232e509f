//! What the tools of the MCP server answer: the index, the search engine built
//! from it, and the defaults of expression validation. The transport lives
//! outside the library; it hands each request's parameters to these methods.
use vstd::prelude::*;

use crate::check::{validate_enum, validate_method_call, EnumValidation, MethodCallValidation};
use crate::entities::{Definition, DefinitionModel, Method, MethodModel, Property, PropertyModel, Type, TypeModel};
use crate::expression::{
    profile_of, validate_expression_with_profile, ExpressionValidation, Profile,
};
use crate::format::{
    constructors_text, enum_values_text, format_constructors, format_enum_values, format_member,
    format_query_header, format_search_results, format_type, member_text, query_header,
    search_results_text, type_text,
};
use crate::lexis::byte_len;
use crate::search::{key_index, SearchEngine};
use crate::storage::{first_method_named, first_property_named, same_name, PlatformIndex};
use crate::text::{ascii_lowercase_seq, chars_of, lowercase, push_str_chars, str_eq, string_from_chars, to_ascii_lowercase};

verus! {

/// A validation level clamped into 1..=2.
pub open spec fn clamp_level(l: int) -> int {
    if l < 1 {
        1
    } else if l > 2 {
        2
    } else {
        l
    }
}

pub fn clamp_validation_level(l: u8) -> (r: u8)
    ensures
        r == clamp_level(l as int),
{
    if l < 1 {
        1
    } else if l > 2 {
        2
    } else {
        l
    }
}

/// The type the engine finds under a name, regardless of case.
pub open spec fn found_type(e: SearchEngine, name: Seq<char>) -> Option<TypeModel> {
    match key_index(e.types(), lowercase(name)) {
        Some(i) => Some(e.types()[i].1),
        None => None,
    }
}

/// What the engine finds under a name: a type, else a global method, else a
/// global property; or only the kind asked for.
pub open spec fn found_definition(e: SearchEngine, name: Seq<char>, kind: Option<Seq<char>>) -> Option<DefinitionModel> {
    let t = match key_index(e.types(), lowercase(name)) {
        Some(i) => Some(DefinitionModel::Type(e.types()[i].1)),
        None => None,
    };
    let m = match e.found_method(name) {
        Some(x) => Some(DefinitionModel::Method(x)),
        None => None,
    };
    let p = match key_index(e.properties(), lowercase(name)) {
        Some(i) => Some(DefinitionModel::Property(e.properties()[i].1)),
        None => None,
    };
    let k = match kind {
        Some(k) => Some(ascii_lowercase_seq(k)),
        None => None,
    };
    if k == Some("type"@) {
        t
    } else if k == Some("method"@) {
        m
    } else if k == Some("property"@) {
        p
    } else if t is Some {
        t
    } else if m is Some {
        m
    } else {
        p
    }
}


/// The first method model whose Russian name matches `q` regardless of case.
pub open spec fn first_method_model(s: Seq<MethodModel>, q: Seq<char>) -> Option<MethodModel>
    decreases s.len(),
{
    if s.len() == 0 {
        None
    } else {
        match first_method_model(s.drop_last(), q) {
            Some(m) => Some(m),
            None => if same_name(s.last().name_ru, q) {
                Some(s.last())
            } else {
                None
            },
        }
    }
}

/// The first property model whose Russian name matches `q` regardless of case.
pub open spec fn first_property_model(s: Seq<PropertyModel>, q: Seq<char>) -> Option<PropertyModel>
    decreases s.len(),
{
    if s.len() == 0 {
        None
    } else {
        match first_property_model(s.drop_last(), q) {
            Some(p) => Some(p),
            None => if same_name(s.last().name_ru, q) {
                Some(s.last())
            } else {
                None
            },
        }
    }
}

/// A member of a type by name: its first method of that name, else its
/// first property of that name.
pub open spec fn member_of(t: TypeModel, q: Seq<char>) -> Option<DefinitionModel> {
    match first_method_model(t.methods, q) {
        Some(m) => Some(DefinitionModel::Method(m)),
        None => match first_property_model(t.properties, q) {
            Some(p) => Some(DefinitionModel::Property(p)),
            None => None,
        },
    }
}

proof fn lemma_first_method_model(s: Seq<Method>, q: Seq<char>)
    ensures
        first_method_model(s.map_values(|m: Method| m.deep_view()), q) == match first_method_named(s, q) {
            Some(m) => Some(m.deep_view()),
            None => None,
        },
    decreases s.len(),
{
    let f = |m: Method| m.deep_view();
    if s.len() > 0 {
        lemma_first_method_model(s.drop_last(), q);
        assert(s.map_values(f).drop_last() =~= s.drop_last().map_values(f));
    }
}

proof fn lemma_first_property_model(s: Seq<Property>, q: Seq<char>)
    ensures
        first_property_model(s.map_values(|p: Property| p.deep_view()), q) == match first_property_named(s, q) {
            Some(p) => Some(p.deep_view()),
            None => None,
        },
    decreases s.len(),
{
    let f = |p: Property| p.deep_view();
    if s.len() > 0 {
        lemma_first_property_model(s.drop_last(), q);
        assert(s.map_values(f).drop_last() =~= s.drop_last().map_values(f));
    }
}

pub open spec fn type_not_found(name: Seq<char>) -> Seq<char> {
    "❌ **Не найдено:** тип '"@ + name + "' не найден\n"@
}

pub open spec fn element_not_found(name: Seq<char>) -> Seq<char> {
    "❌ **Не найдено:** элемент '"@ + name + "' не найден в платформенном контексте\n"@
}

pub open spec fn member_not_found(type_label: Seq<char>, member: Seq<char>) -> Seq<char> {
    "❌ **Не найдено:** у типа '"@ + type_label + "' нет члена '"@ + member + "'\n"@
}

pub open spec fn no_constructors(type_label: Seq<char>) -> Seq<char> {
    "У типа '"@ + type_label + "' нет конструкторов.\n"@
}

pub open spec fn not_an_enum(type_label: Seq<char>) -> Seq<char> {
    "❌ **Тип не является системным перечислением:** '"@ + type_label + "' не имеет enum_values\n"@
}

fn join3(a: &str, b: &str, c: &str) -> (r: String)
    ensures
        r@ == a@ + b@ + c@,
{
    let mut buf = chars_of(a);
    push_str_chars(&mut buf, b);
    push_str_chars(&mut buf, c);
    string_from_chars(&buf)
}

fn join5(a: &str, b: &str, c: &str, d: &str, e: &str) -> (r: String)
    ensures
        r@ == a@ + b@ + c@ + d@ + e@,
{
    let mut buf = chars_of(a);
    push_str_chars(&mut buf, b);
    push_str_chars(&mut buf, c);
    push_str_chars(&mut buf, d);
    push_str_chars(&mut buf, e);
    string_from_chars(&buf)
}

/// The state behind the tools: the index, its search engine and the
/// defaults of expression validation.
pub struct BslContextServer {
    pub index: PlatformIndex,
    pub engine: SearchEngine,
    /// Level used when a request names none (1 or 2).
    pub default_validation_level: u8,
    /// Profile used when a request names none.
    pub default_profile: Profile,
}

impl BslContextServer {
    /// Well-formed: the index keeps its invariant and the default level is 1 or 2.
    pub open spec fn wf(&self) -> bool {
        &&& self.index.wf()
        &&& 1 <= self.default_validation_level <= 2
    }

    /// A server with level 1 and the full profile.
    pub fn new(index: PlatformIndex) -> (r: Self)
        requires
            index.wf(),
        ensures
            r.wf(),
            r.index == index,
            r.default_validation_level == 1,
            r.default_profile == Profile::Full,
    {
        Self::with_defaults(index, 1, Profile::Full)
    }

    /// A server with the given default level (clamped) and the full profile.
    pub fn with_default_level(index: PlatformIndex, default_validation_level: u8) -> (r: Self)
        requires
            index.wf(),
        ensures
            r.wf(),
            r.index == index,
            r.default_validation_level == clamp_level(default_validation_level as int),
            r.default_profile == Profile::Full,
    {
        Self::with_defaults(index, default_validation_level, Profile::Full)
    }

    /// A server with the given defaults; the level is clamped into 1..=2 and
    /// the search engine is built from the index.
    pub fn with_defaults(index: PlatformIndex, default_validation_level: u8, default_profile: Profile) -> (r: Self)
        requires
            index.wf(),
        ensures
            r.wf(),
            r.index == index,
            r.default_validation_level == clamp_level(default_validation_level as int),
            r.default_profile == default_profile,
            r.engine.built_from(index),
    {
        let engine = SearchEngine::from_index(&index);
        BslContextServer {
            index,
            engine,
            default_validation_level: clamp_validation_level(default_validation_level),
            default_profile,
        }
    }

    /// Fuzzy search over types, global methods and global properties, as
    /// Markdown under a header naming the query; 10 results when no limit is given.
    pub fn search(&self, query: &str, limit: Option<usize>) -> (r: String)
        ensures
            r@ == query_header(query@) + search_results_text(
                self.engine.search_results(
                    query@,
                    match limit {
                        Some(l) => l as int,
                        None => 10,
                    },
                ),
            ),
    {
        let l = match limit {
            Some(l) => l,
            None => 10,
        };
        let results = self.engine.search(query, l);
        let head = format_query_header(query);
        let body = format_search_results(results.as_slice());
        let mut buf = chars_of(head.as_str());
        push_str_chars(&mut buf, body.as_str());
        string_from_chars(&buf)
    }

    /// The card of an element by exact name: of the kind asked for (`type`,
    /// `method`, `property`, in any ASCII case), else a type, a global method
    /// or a global property, in that order.
    pub fn info(&self, name: &str, kind: Option<&str>) -> (r: String)
        ensures
            r@ == match found_definition(
                self.engine,
                name@,
                match kind {
                    Some(k) => Some(k@),
                    None => None,
                },
            ) {
                Some(d) => member_text(d),
                None => element_not_found(name@),
            },
    {
        let k: Option<String> = match kind {
            Some(k) => Some(to_ascii_lowercase(k)),
            None => None,
        };
        let mut which: u8 = 0;
        match &k {
            Some(k) => {
                if str_eq(k.as_str(), "type") {
                    which = 1;
                } else if str_eq(k.as_str(), "method") {
                    which = 2;
                } else if str_eq(k.as_str(), "property") {
                    which = 3;
                }
            },
            None => {},
        }
        let t: Option<Definition> = match self.engine.find_type(name) {
            Some(t) => Some(Definition::Type(t.copy())),
            None => None,
        };
        let m: Option<Definition> = match self.engine.find_method(name) {
            Some(m) => Some(Definition::Method(m.copy())),
            None => None,
        };
        let p: Option<Definition> = match self.engine.find_property(name) {
            Some(p) => Some(Definition::Property(p.copy())),
            None => None,
        };
        let def = if which == 1 {
            t
        } else if which == 2 {
            m
        } else if which == 3 {
            p
        } else if t.is_some() {
            t
        } else if m.is_some() {
            m
        } else {
            p
        };
        match def {
            Some(d) => format_member(&d),
            None => join3("❌ **Не найдено:** элемент '", name, "' не найден в платформенном контексте\n"),
        }
    }

    /// A member of a type by exact names, regardless of case.
    pub fn get_member(&self, type_label: &str, member_name: &str) -> (r: String)
        ensures
            r@ == match found_type(self.engine, type_label@) {
                None => type_not_found(type_label@),
                Some(t) => match member_of(t, member_name@) {
                    Some(d) => member_text(d),
                    None => member_not_found(type_label@, member_name@),
                },
            },
    {
        let ty = match self.engine.find_type(type_label) {
            Some(t) => t,
            None => return join3("❌ **Не найдено:** тип '", type_label, "' не найден\n"),
        };
        proof {
            lemma_first_method_model(ty.methods@, member_name@);
            lemma_first_property_model(ty.properties@, member_name@);
            assert(ty.methods.deep_view() =~= ty.methods@.map_values(|m: Method| m.deep_view()));
            assert(ty.properties.deep_view() =~= ty.properties@.map_values(|p: Property| p.deep_view()));
            assert(found_type(self.engine, type_label@) == Some(ty.deep_view()));
        }
        match self.engine.find_type_member(ty, member_name) {
            Some(d) => format_member(&d),
            None => join5("❌ **Не найдено:** у типа '", type_label, "' нет члена '", member_name, "'\n"),
        }
    }

    /// All members of a type: its card.
    pub fn get_members(&self, type_label: &str) -> (r: String)
        ensures
            r@ == match found_type(self.engine, type_label@) {
                None => type_not_found(type_label@),
                Some(t) => type_text(t),
            },
    {
        match self.engine.find_type(type_label) {
            Some(t) => format_type(t),
            None => join3("❌ **Не найдено:** тип '", type_label, "' не найден\n"),
        }
    }

    /// The constructors of a type with their full signatures.
    pub fn get_constructors(&self, type_label: &str) -> (r: String)
        ensures
            r@ == match found_type(self.engine, type_label@) {
                None => type_not_found(type_label@),
                Some(t) => if t.constructors.len() == 0 {
                    no_constructors(type_label@)
                } else {
                    constructors_text(t.constructors, t.name_ru)
                },
            },
    {
        let ty = match self.engine.find_type(type_label) {
            Some(t) => t,
            None => return join3("❌ **Не найдено:** тип '", type_label, "' не найден\n"),
        };
        if !ty.has_constructors() {
            return join3("У типа '", type_label, "' нет конструкторов.\n");
        }
        format_constructors(ty.constructors.as_slice(), ty.name_ru.as_str())
    }

    /// The values of a system enumeration.
    pub fn get_enum_values(&self, type_label: &str) -> (r: String)
        ensures
            r@ == match found_type(self.engine, type_label@) {
                None => type_not_found(type_label@),
                Some(t) => if t.enum_values.len() == 0 {
                    not_an_enum(type_label@)
                } else {
                    enum_values_text(t.enum_values, t.name_ru)
                },
            },
    {
        let ty = match self.engine.find_type(type_label) {
            Some(t) => t,
            None => return join3("❌ **Не найдено:** тип '", type_label, "' не найден\n"),
        };
        if !ty.is_enum() {
            return join3("❌ **Тип не является системным перечислением:** '", type_label, "' не имеет enum_values\n");
        }
        format_enum_values(ty.enum_values.as_slice(), ty.name_ru.as_str())
    }

    /// Whether a value is legal for a system enumeration.
    pub fn validate_enum(&self, type_label: &str, value_name: &str) -> (r: EnumValidation)
        requires
            self.wf(),
        ensures
            (r.valid, r.enum_type@, r.value_name@, crate::seqs::strings_view(r.all_valid_values@), r.similar.deep_view(), r.message@)
                == crate::check::enum_answer(self.index.lookup_type(type_label@), type_label@, value_name@),
    {
        validate_enum(&self.index, type_label, value_name)
    }

    /// Whether a number of arguments fits an overload of a global method.
    pub fn validate_method_call(&self, method_name: &str, arg_count: usize) -> (r: MethodCallValidation)
        ensures
            (r.valid, r.method_name@, r.signatures.deep_view(), r.message@) == crate::check::method_call_answer(
                first_method_named(self.index.global_methods@, method_name@),
                method_name@,
                arg_count as nat,
            ),
            r.arg_count == arg_count,
    {
        validate_method_call(&self.index, method_name, arg_count)
    }

    /// The level and profile a validation request runs with: the level given
    /// (or the default) clamped into 1..=2; the profile named (or the default).
    pub fn validation_settings(&self, level: Option<u8>, profile: Option<&str>) -> (r: (u8, Profile))
        ensures
            r.0 == clamp_level(
                match level {
                    Some(l) => l as int,
                    None => self.default_validation_level as int,
                },
            ),
            r.1 == match profile {
                Some(p) => profile_of(Some(p@)),
                None => self.default_profile,
            },
    {
        let l = match level {
            Some(l) => l,
            None => self.default_validation_level,
        };
        let p = match profile {
            Some(s) => Profile::parse_or_default(Some(s)),
            None => self.default_profile,
        };
        (clamp_validation_level(l), p)
    }

    /// Validates a fragment of BSL with the level and profile of the request.
    pub fn validate_expression(&self, source: &str, level: Option<u8>, profile: Option<&str>) -> (r: ExpressionValidation)
        requires
            self.wf(),
            byte_len(source@) < u32::MAX,
        ensures
            ({
                let (l, p) = (
                    clamp_level(
                        match level {
                            Some(l) => l as int,
                            None => self.default_validation_level as int,
                        },
                    ),
                    match profile {
                        Some(s) => profile_of(Some(s@)),
                        None => self.default_profile,
                    },
                );
                r.errors.deep_view() == crate::expression::profile_findings(self.index, source@, l, p)
            }),
            r.valid == (r.errors@.len() == 0),
    {
        let (l, p) = self.validation_settings(level, profile);
        validate_expression_with_profile(&self.index, source, l, p)
    }
}


/// Parameters of the `search` tool.
pub struct SearchParams {
    /// The query (a Russian or English name), in any case.
    pub query: String,
    /// At most this many results (1..=50); 10 when not given.
    pub limit: Option<usize>,
}

/// Parameters of the `info` tool.
pub struct InfoParams {
    /// The name of an element, in any case.
    pub name: String,
    /// `type`, `method` or `property`; without it a type, then a method, then a property.
    pub kind: Option<String>,
}

/// Parameters of the tools that take a type name.
pub struct TypeNameParams {
    /// The Russian name of the type.
    pub type_label: String,
}

/// Parameters of the `get_member` tool.
pub struct GetMemberParams {
    pub type_label: String,
    pub member_name: String,
}

/// Parameters of the `validate_enum` tool.
pub struct ValidateEnumParams {
    /// The name of the enumeration type.
    pub type_label: String,
    /// The value checked.
    pub value_name: String,
}

/// Parameters of the `validate_method_call` tool.
pub struct ValidateMethodCallParams {
    /// The name of the global method.
    pub method_name: String,
    /// The number of arguments of the call.
    pub arg_count: usize,
}

/// Parameters of the `validate_expression` tool.
pub struct ValidateExpressionParams {
    /// The BSL fragment.
    pub source: String,
    /// Validation level (clamped into 1..=2); the server's default when not given.
    pub level: Option<u8>,
    /// `strict` or `full`; the server's default when not given.
    pub profile: Option<String>,
}

} // verus!
