//! Domain entities of the platform index: types, methods, properties,
//! constructors and system enumeration values.
//!
//! Each entity has a mathematical model (`DeepView`), in which strings are
//! character sequences; copies made by the library keep the model.
use vstd::prelude::*;

use crate::seqs::{lemma_deep_view_push, lemma_take_succ};

verus! {

/// Parameter of a method or constructor.
#[derive(Debug, Clone)]
pub struct Parameter {
    pub name: String,
    pub value_type: String,
    pub required: bool,
    pub description: String,
}

pub struct ParameterModel {
    pub name: Seq<char>,
    pub value_type: Seq<char>,
    pub required: bool,
    pub description: Seq<char>,
}

impl DeepView for Parameter {
    type V = ParameterModel;

    open spec fn deep_view(&self) -> ParameterModel {
        ParameterModel {
            name: self.name@,
            value_type: self.value_type@,
            required: self.required,
            description: self.description@,
        }
    }
}

impl Parameter {
    pub fn copy(&self) -> (r: Self)
        ensures
            r.deep_view() == self.deep_view(),
    {
        Parameter {
            name: self.name.clone(),
            value_type: self.value_type.clone(),
            required: self.required,
            description: self.description.clone(),
        }
    }
}

/// Overload of a method or constructor.
#[derive(Debug, Clone)]
pub struct Signature {
    pub name: String,
    pub description: String,
    pub parameters: Vec<Parameter>,
}

pub struct SignatureModel {
    pub name: Seq<char>,
    pub description: Seq<char>,
    pub parameters: Seq<ParameterModel>,
}

impl DeepView for Signature {
    type V = SignatureModel;

    open spec fn deep_view(&self) -> SignatureModel {
        SignatureModel {
            name: self.name@,
            description: self.description@,
            parameters: self.parameters.deep_view(),
        }
    }
}

pub fn copy_parameters(v: &Vec<Parameter>) -> (r: Vec<Parameter>)
    ensures
        r.deep_view() == v.deep_view(),
{
    let mut out: Vec<Parameter> = Vec::new();
    for i in 0..v.len()
        invariant
            out.deep_view() == v.deep_view().take(i as int),
    {
        let item = v[i].copy();
        let ghost prev = out;
        out.push(item);
        proof {
            lemma_deep_view_push(prev, out, item);
            lemma_take_succ(v.deep_view(), i as int);
        }
    }
    assert(v.deep_view().take(v.len() as int) =~= v.deep_view());
    out
}

impl Signature {
    pub fn copy(&self) -> (r: Self)
        ensures
            r.deep_view() == self.deep_view(),
    {
        Signature {
            name: self.name.clone(),
            description: self.description.clone(),
            parameters: copy_parameters(&self.parameters),
        }
    }
}

pub fn copy_signatures(v: &Vec<Signature>) -> (r: Vec<Signature>)
    ensures
        r.deep_view() == v.deep_view(),
{
    let mut out: Vec<Signature> = Vec::new();
    for i in 0..v.len()
        invariant
            out.deep_view() == v.deep_view().take(i as int),
    {
        let item = v[i].copy();
        let ghost prev = out;
        out.push(item);
        proof {
            lemma_deep_view_push(prev, out, item);
            lemma_take_succ(v.deep_view(), i as int);
        }
    }
    assert(v.deep_view().take(v.len() as int) =~= v.deep_view());
    out
}

/// A platform method (global or a member of a type).
#[derive(Debug, Clone)]
pub struct Method {
    pub name_ru: String,
    pub name_en: String,
    pub description: String,
    pub return_type: String,
    /// Overloads.
    pub signatures: Vec<Signature>,
}

pub struct MethodModel {
    pub name_ru: Seq<char>,
    pub name_en: Seq<char>,
    pub description: Seq<char>,
    pub return_type: Seq<char>,
    pub signatures: Seq<SignatureModel>,
}

impl DeepView for Method {
    type V = MethodModel;

    open spec fn deep_view(&self) -> MethodModel {
        MethodModel {
            name_ru: self.name_ru@,
            name_en: self.name_en@,
            description: self.description@,
            return_type: self.return_type@,
            signatures: self.signatures.deep_view(),
        }
    }
}

impl Method {
    pub fn copy(&self) -> (r: Self)
        ensures
            r.deep_view() == self.deep_view(),
    {
        Method {
            name_ru: self.name_ru.clone(),
            name_en: self.name_en.clone(),
            description: self.description.clone(),
            return_type: self.return_type.clone(),
            signatures: copy_signatures(&self.signatures),
        }
    }
}

pub fn copy_methods(v: &Vec<Method>) -> (r: Vec<Method>)
    ensures
        r.deep_view() == v.deep_view(),
{
    let mut out: Vec<Method> = Vec::new();
    for i in 0..v.len()
        invariant
            out.deep_view() == v.deep_view().take(i as int),
    {
        let item = v[i].copy();
        let ghost prev = out;
        out.push(item);
        proof {
            lemma_deep_view_push(prev, out, item);
            lemma_take_succ(v.deep_view(), i as int);
        }
    }
    assert(v.deep_view().take(v.len() as int) =~= v.deep_view());
    out
}

/// A property (global or a member of a type).
#[derive(Debug, Clone)]
pub struct Property {
    pub name_ru: String,
    pub name_en: String,
    pub description: String,
    pub value_type: String,
    pub readonly: bool,
}

pub struct PropertyModel {
    pub name_ru: Seq<char>,
    pub name_en: Seq<char>,
    pub description: Seq<char>,
    pub value_type: Seq<char>,
    pub readonly: bool,
}

impl DeepView for Property {
    type V = PropertyModel;

    open spec fn deep_view(&self) -> PropertyModel {
        PropertyModel {
            name_ru: self.name_ru@,
            name_en: self.name_en@,
            description: self.description@,
            value_type: self.value_type@,
            readonly: self.readonly,
        }
    }
}

impl Property {
    pub fn copy(&self) -> (r: Self)
        ensures
            r.deep_view() == self.deep_view(),
    {
        Property {
            name_ru: self.name_ru.clone(),
            name_en: self.name_en.clone(),
            description: self.description.clone(),
            value_type: self.value_type.clone(),
            readonly: self.readonly,
        }
    }
}

pub fn copy_properties(v: &Vec<Property>) -> (r: Vec<Property>)
    ensures
        r.deep_view() == v.deep_view(),
{
    let mut out: Vec<Property> = Vec::new();
    for i in 0..v.len()
        invariant
            out.deep_view() == v.deep_view().take(i as int),
    {
        let item = v[i].copy();
        let ghost prev = out;
        out.push(item);
        proof {
            lemma_deep_view_push(prev, out, item);
            lemma_take_succ(v.deep_view(), i as int);
        }
    }
    assert(v.deep_view().take(v.len() as int) =~= v.deep_view());
    out
}

/// An object constructor (`Новый ТипX(...)`).
#[derive(Debug, Clone)]
pub struct Constructor {
    pub name: String,
    pub description: String,
    pub parameters: Vec<Parameter>,
}

pub struct ConstructorModel {
    pub name: Seq<char>,
    pub description: Seq<char>,
    pub parameters: Seq<ParameterModel>,
}

impl DeepView for Constructor {
    type V = ConstructorModel;

    open spec fn deep_view(&self) -> ConstructorModel {
        ConstructorModel {
            name: self.name@,
            description: self.description@,
            parameters: self.parameters.deep_view(),
        }
    }
}

impl Constructor {
    pub fn copy(&self) -> (r: Self)
        ensures
            r.deep_view() == self.deep_view(),
    {
        Constructor {
            name: self.name.clone(),
            description: self.description.clone(),
            parameters: copy_parameters(&self.parameters),
        }
    }
}

pub fn copy_constructors(v: &Vec<Constructor>) -> (r: Vec<Constructor>)
    ensures
        r.deep_view() == v.deep_view(),
{
    let mut out: Vec<Constructor> = Vec::new();
    for i in 0..v.len()
        invariant
            out.deep_view() == v.deep_view().take(i as int),
    {
        let item = v[i].copy();
        let ghost prev = out;
        out.push(item);
        proof {
            lemma_deep_view_push(prev, out, item);
            lemma_take_succ(v.deep_view(), i as int);
        }
    }
    assert(v.deep_view().take(v.len() as int) =~= v.deep_view());
    out
}

/// A value of a system enumeration.
#[derive(Debug, Clone)]
pub struct EnumValue {
    pub name_ru: String,
    pub name_en: String,
    pub description: String,
}

pub struct EnumValueModel {
    pub name_ru: Seq<char>,
    pub name_en: Seq<char>,
    pub description: Seq<char>,
}

impl DeepView for EnumValue {
    type V = EnumValueModel;

    open spec fn deep_view(&self) -> EnumValueModel {
        EnumValueModel {
            name_ru: self.name_ru@,
            name_en: self.name_en@,
            description: self.description@,
        }
    }
}

impl EnumValue {
    pub fn copy(&self) -> (r: Self)
        ensures
            r.deep_view() == self.deep_view(),
    {
        EnumValue {
            name_ru: self.name_ru.clone(),
            name_en: self.name_en.clone(),
            description: self.description.clone(),
        }
    }
}

pub fn copy_enum_values(v: &Vec<EnumValue>) -> (r: Vec<EnumValue>)
    ensures
        r.deep_view() == v.deep_view(),
{
    let mut out: Vec<EnumValue> = Vec::new();
    for i in 0..v.len()
        invariant
            out.deep_view() == v.deep_view().take(i as int),
    {
        let item = v[i].copy();
        let ghost prev = out;
        out.push(item);
        proof {
            lemma_deep_view_push(prev, out, item);
            lemma_take_succ(v.deep_view(), i as int);
        }
    }
    assert(v.deep_view().take(v.len() as int) =~= v.deep_view());
    out
}

/// A platform type. A system enumeration is a type with non-empty
/// `enum_values` (and, as loaded, empty methods, properties and constructors).
#[derive(Debug, Clone)]
pub struct Type {
    pub name_ru: String,
    pub name_en: String,
    pub description: String,
    pub methods: Vec<Method>,
    pub properties: Vec<Property>,
    pub constructors: Vec<Constructor>,
    /// Non-empty only for enumeration types.
    pub enum_values: Vec<EnumValue>,
}

pub struct TypeModel {
    pub name_ru: Seq<char>,
    pub name_en: Seq<char>,
    pub description: Seq<char>,
    pub methods: Seq<MethodModel>,
    pub properties: Seq<PropertyModel>,
    pub constructors: Seq<ConstructorModel>,
    pub enum_values: Seq<EnumValueModel>,
}

impl DeepView for Type {
    type V = TypeModel;

    open spec fn deep_view(&self) -> TypeModel {
        TypeModel {
            name_ru: self.name_ru@,
            name_en: self.name_en@,
            description: self.description@,
            methods: self.methods.deep_view(),
            properties: self.properties.deep_view(),
            constructors: self.constructors.deep_view(),
            enum_values: self.enum_values.deep_view(),
        }
    }
}

impl Type {
    /// Whether the type has values of a system enumeration.
    pub fn is_enum(&self) -> (r: bool)
        ensures
            r == (self.enum_values@.len() > 0),
    {
        self.enum_values.len() > 0
    }

    pub fn has_methods(&self) -> (r: bool)
        ensures
            r == (self.methods@.len() > 0),
    {
        self.methods.len() > 0
    }

    pub fn has_properties(&self) -> (r: bool)
        ensures
            r == (self.properties@.len() > 0),
    {
        self.properties.len() > 0
    }

    pub fn has_constructors(&self) -> (r: bool)
        ensures
            r == (self.constructors@.len() > 0),
    {
        self.constructors.len() > 0
    }

    pub fn copy(&self) -> (r: Self)
        ensures
            r.deep_view() == self.deep_view(),
    {
        Type {
            name_ru: self.name_ru.clone(),
            name_en: self.name_en.clone(),
            description: self.description.clone(),
            methods: copy_methods(&self.methods),
            properties: copy_properties(&self.properties),
            constructors: copy_constructors(&self.constructors),
            enum_values: copy_enum_values(&self.enum_values),
        }
    }
}

/// A reference to an entity in search results.
#[derive(Debug, Clone)]
pub enum Definition {
    Method(Method),
    Property(Property),
    Type(Type),
}

pub enum DefinitionModel {
    Method(MethodModel),
    Property(PropertyModel),
    Type(TypeModel),
}

impl DeepView for Definition {
    type V = DefinitionModel;

    open spec fn deep_view(&self) -> DefinitionModel {
        match self {
            Definition::Method(m) => DefinitionModel::Method(m.deep_view()),
            Definition::Property(p) => DefinitionModel::Property(p.deep_view()),
            Definition::Type(t) => DefinitionModel::Type(t.deep_view()),
        }
    }
}

impl DefinitionModel {
    pub open spec fn name_ru(self) -> Seq<char> {
        match self {
            DefinitionModel::Method(m) => m.name_ru,
            DefinitionModel::Property(p) => p.name_ru,
            DefinitionModel::Type(t) => t.name_ru,
        }
    }

    pub open spec fn name_en(self) -> Seq<char> {
        match self {
            DefinitionModel::Method(m) => m.name_en,
            DefinitionModel::Property(p) => p.name_en,
            DefinitionModel::Type(t) => t.name_en,
        }
    }

    pub open spec fn description(self) -> Seq<char> {
        match self {
            DefinitionModel::Method(m) => m.description,
            DefinitionModel::Property(p) => p.description,
            DefinitionModel::Type(t) => t.description,
        }
    }

    pub open spec fn kind_label(self) -> Seq<char> {
        match self {
            DefinitionModel::Method(_) => "Method"@,
            DefinitionModel::Property(_) => "Property"@,
            DefinitionModel::Type(_) => "Type"@,
        }
    }
}

impl Definition {
    pub fn name_ru(&self) -> (r: &str)
        ensures
            r@ == self.deep_view().name_ru(),
    {
        match self {
            Definition::Method(m) => m.name_ru.as_str(),
            Definition::Property(p) => p.name_ru.as_str(),
            Definition::Type(t) => t.name_ru.as_str(),
        }
    }

    pub fn name_en(&self) -> (r: &str)
        ensures
            r@ == self.deep_view().name_en(),
    {
        match self {
            Definition::Method(m) => m.name_en.as_str(),
            Definition::Property(p) => p.name_en.as_str(),
            Definition::Type(t) => t.name_en.as_str(),
        }
    }

    pub fn description(&self) -> (r: &str)
        ensures
            r@ == self.deep_view().description(),
    {
        match self {
            Definition::Method(m) => m.description.as_str(),
            Definition::Property(p) => p.description.as_str(),
            Definition::Type(t) => t.description.as_str(),
        }
    }

    pub fn kind_label(&self) -> (r: &'static str)
        ensures
            r@ == self.deep_view().kind_label(),
    {
        match self {
            Definition::Method(_) => "Method",
            Definition::Property(_) => "Property",
            Definition::Type(_) => "Type",
        }
    }

    pub fn copy(&self) -> (r: Self)
        ensures
            r.deep_view() == self.deep_view(),
    {
        match self {
            Definition::Method(m) => Definition::Method(m.copy()),
            Definition::Property(p) => Definition::Property(p.copy()),
            Definition::Type(t) => Definition::Type(t.copy()),
        }
    }
}

pub fn copy_types(v: &Vec<Type>) -> (r: Vec<Type>)
    ensures
        r.deep_view() == v.deep_view(),
{
    let mut out: Vec<Type> = Vec::new();
    for i in 0..v.len()
        invariant
            out.deep_view() == v.deep_view().take(i as int),
    {
        let item = v[i].copy();
        let ghost prev = out;
        out.push(item);
        proof {
            lemma_deep_view_push(prev, out, item);
            lemma_take_succ(v.deep_view(), i as int);
        }
    }
    assert(v.deep_view().take(v.len() as int) =~= v.deep_view());
    out
}

} // verus!
