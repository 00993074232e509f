//! Mapping of parsed pages (`*Info`) to domain entities, without losing
//! signatures, constructors or enumeration values.
use vstd::prelude::*;

use crate::entities::{
    Constructor, ConstructorModel, EnumValue, EnumValueModel, Method, MethodModel, Parameter,
    ParameterModel, Property, PropertyModel, Signature, SignatureModel, Type, TypeModel,
};
use crate::seqs::{lemma_deep_view_push, lemma_map_take_succ};
use crate::page_models::{
    ConstructorInfoModel, EnumInfoModel, EnumValueInfoModel, MethodInfoModel, ObjectInfoModel,
    ParameterInfoModel, PropertyInfoModel, SignatureInfoModel,
    ConstructorInfo, EnumInfo, EnumValueInfo, MethodInfo, MethodParameterInfo, MethodSignatureInfo,
    ObjectInfo, PropertyInfo, ValueInfo,
};

verus! {

pub open spec fn parameter_model(info: MethodParameterInfo) -> ParameterModel {
    ParameterModel {
        name: info.name@,
        value_type: info.value_type@,
        required: !info.is_optional,
        description: info.description@,
    }
}

pub open spec fn parameters_model(v: Seq<MethodParameterInfo>) -> Seq<ParameterModel> {
    v.map_values(|p: MethodParameterInfo| parameter_model(p))
}

pub open spec fn signature_model(info: MethodSignatureInfo) -> SignatureModel {
    SignatureModel {
        name: info.name@,
        description: info.description@,
        parameters: parameters_model(info.parameters@),
    }
}

pub open spec fn return_type_of(v: Option<ValueInfo>) -> Seq<char> {
    match v {
        Some(v) => v.value_type@,
        None => Seq::empty(),
    }
}

pub open spec fn method_model(info: MethodInfo) -> MethodModel {
    MethodModel {
        name_ru: info.name_ru@,
        name_en: info.name_en@,
        description: info.description@,
        return_type: return_type_of(info.return_value),
        signatures: info.signatures@.map_values(|s: MethodSignatureInfo| signature_model(s)),
    }
}

pub open spec fn property_model(info: PropertyInfo) -> PropertyModel {
    PropertyModel {
        name_ru: info.name_ru@,
        name_en: info.name_en@,
        description: info.description@,
        value_type: info.value_type@,
        readonly: info.readonly,
    }
}

pub open spec fn constructor_model(info: ConstructorInfo) -> ConstructorModel {
    ConstructorModel {
        name: info.name@,
        description: info.description@,
        parameters: parameters_model(info.parameters@),
    }
}

pub open spec fn enum_value_model(info: EnumValueInfo) -> EnumValueModel {
    EnumValueModel { name_ru: info.name_ru@, name_en: info.name_en@, description: info.description@ }
}

pub open spec fn object_type_model(info: ObjectInfo) -> TypeModel {
    TypeModel {
        name_ru: info.name_ru@,
        name_en: info.name_en@,
        description: info.description@,
        methods: info.methods@.map_values(|m: MethodInfo| method_model(m)),
        properties: info.properties@.map_values(|p: PropertyInfo| property_model(p)),
        constructors: info.constructors@.map_values(|c: ConstructorInfo| constructor_model(c)),
        enum_values: Seq::empty(),
    }
}

pub open spec fn enum_type_model(info: EnumInfo) -> TypeModel {
    TypeModel {
        name_ru: info.name_ru@,
        name_en: info.name_en@,
        description: info.description@,
        methods: Seq::empty(),
        properties: Seq::empty(),
        constructors: Seq::empty(),
        enum_values: info.values@.map_values(|v: EnumValueInfo| enum_value_model(v)),
    }
}

pub fn parameter_from(info: &MethodParameterInfo) -> (r: Parameter)
    ensures
        r.deep_view() == parameter_model(*info),
{
    Parameter {
        name: info.name.clone(),
        value_type: info.value_type.clone(),
        required: !info.is_optional,
        description: info.description.clone(),
    }
}

fn parameters_from(v: &Vec<MethodParameterInfo>) -> (r: Vec<Parameter>)
    ensures
        r.deep_view() == parameters_model(v@),
{
    let mut out: Vec<Parameter> = Vec::new();
    for i in 0..v.len()
        invariant
            out.deep_view() == parameters_model(v@.take(i as int)),
    {
        let p = parameter_from(&v[i]);
        let ghost prev = out;
        out.push(p);
        proof {
            lemma_deep_view_push(prev, out, p);
            lemma_map_take_succ(v@, i as int, |p: MethodParameterInfo| parameter_model(p));
        }
    }
    assert(v@.take(v.len() as int) =~= v@);
    out
}

pub fn signature_from(info: &MethodSignatureInfo) -> (r: Signature)
    ensures
        r.deep_view() == signature_model(*info),
{
    Signature {
        name: info.name.clone(),
        description: info.description.clone(),
        parameters: parameters_from(&info.parameters),
    }
}

#[verifier::loop_isolation(false)]
pub fn method_from(info: &MethodInfo) -> (r: Method)
    ensures
        r.deep_view() == method_model(*info),
{
    let return_type = match &info.return_value {
        Some(v) => v.value_type.clone(),
        None => String::new(),
    };
    let mut signatures: Vec<Signature> = Vec::new();
    let ghost f = |s: MethodSignatureInfo| signature_model(s);
    for i in 0..info.signatures.len()
        invariant
            signatures.deep_view() == info.signatures@.take(i as int).map_values(f),
    {
        let item = signature_from(&info.signatures[i]);
        let ghost prev = signatures;
        signatures.push(item);
        proof {
            lemma_deep_view_push(prev, signatures, item);
            lemma_map_take_succ(info.signatures@, i as int, f);
            assert(f(info.signatures@[i as int]) == item.deep_view());
        }
    }
    assert(info.signatures@.take(info.signatures@.len() as int) =~= info.signatures@);
    Method {
        name_ru: info.name_ru.clone(),
        name_en: info.name_en.clone(),
        description: info.description.clone(),
        return_type,
        signatures,
    }
}

pub fn property_from(info: &PropertyInfo) -> (r: Property)
    ensures
        r.deep_view() == property_model(*info),
{
    Property {
        name_ru: info.name_ru.clone(),
        name_en: info.name_en.clone(),
        description: info.description.clone(),
        value_type: info.value_type.clone(),
        readonly: info.readonly,
    }
}

pub fn constructor_from(info: &ConstructorInfo) -> (r: Constructor)
    ensures
        r.deep_view() == constructor_model(*info),
{
    Constructor {
        name: info.name.clone(),
        description: info.description.clone(),
        parameters: parameters_from(&info.parameters),
    }
}

pub fn enum_value_from(info: &EnumValueInfo) -> (r: EnumValue)
    ensures
        r.deep_view() == enum_value_model(*info),
{
    EnumValue {
        name_ru: info.name_ru.clone(),
        name_en: info.name_en.clone(),
        description: info.description.clone(),
    }
}

/// Methods of many pages at once.
#[verifier::loop_isolation(false)]
pub fn methods_from(v: &Vec<MethodInfo>) -> (r: Vec<Method>)
    ensures
        r.deep_view() == v@.map_values(|m: MethodInfo| method_model(m)),
{
    let ghost f = |m: MethodInfo| method_model(m);
    let mut out: Vec<Method> = Vec::new();
    for i in 0..v.len()
        invariant
            out.deep_view() == v@.take(i as int).map_values(f),
    {
        let item = method_from(&v[i]);
        let ghost prev = out;
        out.push(item);
        proof {
            lemma_deep_view_push(prev, out, item);
            lemma_map_take_succ(v@, i as int, f);
            assert(f(v@[i as int]) == item.deep_view());
        }
    }
    assert(v@.take(v.len() as int) =~= v@);
    out
}

/// Properties of many pages at once.
#[verifier::loop_isolation(false)]
pub fn properties_from(v: &Vec<PropertyInfo>) -> (r: Vec<Property>)
    ensures
        r.deep_view() == v@.map_values(|p: PropertyInfo| property_model(p)),
{
    let ghost f = |p: PropertyInfo| property_model(p);
    let mut out: Vec<Property> = Vec::new();
    for i in 0..v.len()
        invariant
            out.deep_view() == v@.take(i as int).map_values(f),
    {
        let item = property_from(&v[i]);
        let ghost prev = out;
        out.push(item);
        proof {
            lemma_deep_view_push(prev, out, item);
            lemma_map_take_succ(v@, i as int, f);
            assert(f(v@[i as int]) == item.deep_view());
        }
    }
    assert(v@.take(v.len() as int) =~= v@);
    out
}

/// An ordinary type: methods, properties and constructors filled, no enumeration values.
#[verifier::loop_isolation(false)]
pub fn type_from_object(info: &ObjectInfo) -> (r: Type)
    ensures
        r.deep_view() == object_type_model(*info),
{
    let methods = methods_from(&info.methods);
    let properties = properties_from(&info.properties);
    let ghost f = |c: ConstructorInfo| constructor_model(c);
    let mut constructors: Vec<Constructor> = Vec::new();
    for i in 0..info.constructors.len()
        invariant
            constructors.deep_view() == info.constructors@.take(i as int).map_values(f),
    {
        let item = constructor_from(&info.constructors[i]);
        let ghost prev = constructors;
        constructors.push(item);
        proof {
            lemma_deep_view_push(prev, constructors, item);
            lemma_map_take_succ(info.constructors@, i as int, f);
            assert(f(info.constructors@[i as int]) == item.deep_view());
        }
    }
    assert(info.constructors@.take(info.constructors@.len() as int) =~= info.constructors@);
    let r = Type {
        name_ru: info.name_ru.clone(),
        name_en: info.name_en.clone(),
        description: info.description.clone(),
        methods,
        properties,
        constructors,
        enum_values: Vec::new(),
    };
    assert(r.deep_view().enum_values =~= Seq::empty());
    r
}

/// An enumeration type: enumeration values filled, other collections empty.
#[verifier::loop_isolation(false)]
pub fn type_from_enum(info: &EnumInfo) -> (r: Type)
    ensures
        r.deep_view() == enum_type_model(*info),
{
    let ghost f = |v: EnumValueInfo| enum_value_model(v);
    let mut values: Vec<EnumValue> = Vec::new();
    for i in 0..info.values.len()
        invariant
            values.deep_view() == info.values@.take(i as int).map_values(f),
    {
        let item = enum_value_from(&info.values[i]);
        let ghost prev = values;
        values.push(item);
        proof {
            lemma_deep_view_push(prev, values, item);
            lemma_map_take_succ(info.values@, i as int, f);
            assert(f(info.values@[i as int]) == item.deep_view());
        }
    }
    assert(info.values@.take(info.values@.len() as int) =~= info.values@);
    let r = Type {
        name_ru: info.name_ru.clone(),
        name_en: info.name_en.clone(),
        description: info.description.clone(),
        methods: Vec::new(),
        properties: Vec::new(),
        constructors: Vec::new(),
        enum_values: values,
    };
    assert(r.deep_view().methods =~= Seq::empty());
    assert(r.deep_view().properties =~= Seq::empty());
    assert(r.deep_view().constructors =~= Seq::empty());
    r
}


// ---------------------------------------------------------------------------
// The same mapping over the models of the parsed pages
// ---------------------------------------------------------------------------

pub open spec fn parameter_of(p: ParameterInfoModel) -> ParameterModel {
    ParameterModel {
        name: p.name,
        value_type: p.value_type,
        required: !p.is_optional,
        description: p.description,
    }
}

pub open spec fn signature_of(s: SignatureInfoModel) -> SignatureModel {
    SignatureModel {
        name: s.name,
        description: s.description,
        parameters: s.parameters.map_values(|p: ParameterInfoModel| parameter_of(p)),
    }
}

pub open spec fn method_of(m: MethodInfoModel) -> MethodModel {
    MethodModel {
        name_ru: m.name_ru,
        name_en: m.name_en,
        description: m.description,
        return_type: match m.return_value {
            Some(v) => v.0,
            None => Seq::empty(),
        },
        signatures: m.signatures.map_values(|s: SignatureInfoModel| signature_of(s)),
    }
}

pub open spec fn property_of(p: PropertyInfoModel) -> PropertyModel {
    PropertyModel {
        name_ru: p.name_ru,
        name_en: p.name_en,
        description: p.description,
        value_type: p.value_type,
        readonly: p.readonly,
    }
}

pub open spec fn constructor_of(c: ConstructorInfoModel) -> ConstructorModel {
    ConstructorModel {
        name: c.name,
        description: c.description,
        parameters: c.parameters.map_values(|p: ParameterInfoModel| parameter_of(p)),
    }
}

pub open spec fn enum_value_of(v: EnumValueInfoModel) -> EnumValueModel {
    EnumValueModel { name_ru: v.name_ru, name_en: v.name_en, description: v.description }
}

pub open spec fn object_type_of(o: ObjectInfoModel) -> TypeModel {
    TypeModel {
        name_ru: o.name_ru,
        name_en: o.name_en,
        description: o.description,
        methods: o.methods.map_values(|m: MethodInfoModel| method_of(m)),
        properties: o.properties.map_values(|p: PropertyInfoModel| property_of(p)),
        constructors: o.constructors.map_values(|c: ConstructorInfoModel| constructor_of(c)),
        enum_values: Seq::empty(),
    }
}

pub open spec fn enum_type_of(e: EnumInfoModel) -> TypeModel {
    TypeModel {
        name_ru: e.name_ru,
        name_en: e.name_en,
        description: e.description,
        methods: Seq::empty(),
        properties: Seq::empty(),
        constructors: Seq::empty(),
        enum_values: e.values.map_values(|v: EnumValueInfoModel| enum_value_of(v)),
    }
}

pub proof fn lemma_parameters_of(v: Vec<MethodParameterInfo>)
    ensures
        parameters_model(v@) == v.deep_view().map_values(|p: ParameterInfoModel| parameter_of(p)),
{
    assert(parameters_model(v@) =~= v.deep_view().map_values(|p: ParameterInfoModel| parameter_of(p)));
}

pub proof fn lemma_signature_of(s: MethodSignatureInfo)
    ensures
        signature_model(s) == signature_of(s.deep_view()),
{
    lemma_parameters_of(s.parameters);
}

pub proof fn lemma_method_of(m: MethodInfo)
    ensures
        method_model(m) == method_of(m.deep_view()),
{
    assert forall|i: int| 0 <= i < m.signatures@.len() implies signature_model(#[trigger] m.signatures@[i])
        == signature_of(m.signatures.deep_view()[i]) by {
        lemma_signature_of(m.signatures@[i]);
    }
    assert(m.signatures@.map_values(|s: MethodSignatureInfo| signature_model(s)) =~= m.signatures.deep_view().map_values(
        |s: SignatureInfoModel| signature_of(s),
    ));
}

pub proof fn lemma_property_of(p: PropertyInfo)
    ensures
        property_model(p) == property_of(p.deep_view()),
{
}

pub proof fn lemma_constructor_of(c: ConstructorInfo)
    ensures
        constructor_model(c) == constructor_of(c.deep_view()),
{
    lemma_parameters_of(c.parameters);
}

pub proof fn lemma_object_type_of(o: ObjectInfo)
    ensures
        object_type_model(o) == object_type_of(o.deep_view()),
{
    assert forall|i: int| 0 <= i < o.methods@.len() implies method_model(#[trigger] o.methods@[i])
        == method_of(o.methods.deep_view()[i]) by {
        lemma_method_of(o.methods@[i]);
    }
    assert forall|i: int| 0 <= i < o.constructors@.len() implies constructor_model(
        #[trigger] o.constructors@[i],
    ) == constructor_of(o.constructors.deep_view()[i]) by {
        lemma_constructor_of(o.constructors@[i]);
    }
    assert(o.methods@.map_values(|m: MethodInfo| method_model(m)) =~= o.methods.deep_view().map_values(
        |m: MethodInfoModel| method_of(m),
    ));
    assert(o.properties@.map_values(|p: PropertyInfo| property_model(p)) =~= o.properties.deep_view().map_values(
        |p: PropertyInfoModel| property_of(p),
    ));
    assert(o.constructors@.map_values(|c: ConstructorInfo| constructor_model(c)) =~= o.constructors.deep_view().map_values(
        |c: ConstructorInfoModel| constructor_of(c),
    ));
}

pub proof fn lemma_enum_type_of(e: EnumInfo)
    ensures
        enum_type_model(e) == enum_type_of(e.deep_view()),
{
    assert(e.values@.map_values(|v: EnumValueInfo| enum_value_model(v)) =~= e.values.deep_view().map_values(
        |v: EnumValueInfoModel| enum_value_of(v),
    ));
}

pub proof fn lemma_methods_of(v: Vec<MethodInfo>)
    ensures
        v@.map_values(|m: MethodInfo| method_model(m)) == v.deep_view().map_values(|m: MethodInfoModel| method_of(m)),
{
    assert forall|i: int| 0 <= i < v@.len() implies method_model(#[trigger] v@[i]) == method_of(
        v.deep_view()[i],
    ) by {
        lemma_method_of(v@[i]);
    }
    assert(v@.map_values(|m: MethodInfo| method_model(m)) =~= v.deep_view().map_values(
        |m: MethodInfoModel| method_of(m),
    ));
}

pub proof fn lemma_properties_of(v: Vec<PropertyInfo>)
    ensures
        v@.map_values(|p: PropertyInfo| property_model(p)) == v.deep_view().map_values(
            |p: PropertyInfoModel| property_of(p),
        ),
{
    assert(v@.map_values(|p: PropertyInfo| property_model(p)) =~= v.deep_view().map_values(
        |p: PropertyInfoModel| property_of(p),
    ));
}

} // verus!
