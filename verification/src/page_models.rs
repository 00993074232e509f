//! What the help-page parsers extract from a page: bilingual names,
//! descriptions, examples, signatures, parameters and "see also" links.
use vstd::prelude::*;

verus! {

/// A global or member method of the platform.
#[derive(Debug, Clone)]
pub struct MethodInfo {
    pub name_ru: String,
    pub name_en: String,
    pub description: String,
    /// Overloads. Most methods have a single overload named "Основная".
    pub signatures: Vec<MethodSignatureInfo>,
    pub return_value: Option<ValueInfo>,
    pub example: Option<String>,
    pub note: Option<String>,
    pub related_objects: Vec<RelatedObject>,
}

/// One overload: syntax, parameters and description.
#[derive(Debug, Clone)]
pub struct MethodSignatureInfo {
    pub name: String,
    pub syntax: String,
    pub parameters: Vec<MethodParameterInfo>,
    pub description: String,
}

/// A parameter of a method or constructor.
#[derive(Debug, Clone)]
pub struct MethodParameterInfo {
    pub name: String,
    pub value_type: String,
    pub is_optional: bool,
    pub description: String,
}

/// A global property or a property of a type.
#[derive(Debug, Clone)]
pub struct PropertyInfo {
    pub name_ru: String,
    pub name_en: String,
    pub description: String,
    pub value_type: String,
    pub readonly: bool,
    pub note: Option<String>,
    pub related_objects: Vec<RelatedObject>,
}

/// A platform type (an object, not a system enumeration).
#[derive(Debug, Clone)]
pub struct ObjectInfo {
    pub name_ru: String,
    pub name_en: String,
    pub description: String,
    pub example: Option<String>,
    pub note: Option<String>,
    pub related_objects: Vec<RelatedObject>,
    pub properties: Vec<PropertyInfo>,
    pub methods: Vec<MethodInfo>,
    pub constructors: Vec<ConstructorInfo>,
}

/// An object constructor (`Новый ТипX(...)`).
#[derive(Debug, Clone)]
pub struct ConstructorInfo {
    pub name: String,
    pub syntax: String,
    pub parameters: Vec<MethodParameterInfo>,
    pub description: String,
    pub example: Option<String>,
    pub note: Option<String>,
    pub related_objects: Vec<RelatedObject>,
}

/// A system enumeration with its values.
#[derive(Debug, Clone)]
pub struct EnumInfo {
    pub name_ru: String,
    pub name_en: String,
    pub description: String,
    pub example: Option<String>,
    pub related_objects: Vec<RelatedObject>,
    /// Filled from the child pages of the enumeration, not by the page parser.
    pub values: Vec<EnumValueInfo>,
}

/// One value of a system enumeration.
#[derive(Debug, Clone)]
pub struct EnumValueInfo {
    pub name_ru: String,
    pub name_en: String,
    pub description: String,
    pub related_objects: Vec<RelatedObject>,
}

/// A "see also" link to another help page.
#[derive(Debug, Clone)]
pub struct RelatedObject {
    pub name: String,
    pub href: String,
}

/// Type and description (of a return value or of a property).
#[derive(Debug, Clone)]
pub struct ValueInfo {
    pub value_type: String,
    pub description: String,
}


pub struct ParameterInfoModel {
    pub name: Seq<char>,
    pub value_type: Seq<char>,
    pub is_optional: bool,
    pub description: Seq<char>,
}

impl DeepView for MethodParameterInfo {
    type V = ParameterInfoModel;

    open spec fn deep_view(&self) -> ParameterInfoModel {
        ParameterInfoModel {
            name: self.name@,
            value_type: self.value_type@,
            is_optional: self.is_optional,
            description: self.description@,
        }
    }
}

pub struct SignatureInfoModel {
    pub name: Seq<char>,
    pub syntax: Seq<char>,
    pub parameters: Seq<ParameterInfoModel>,
    pub description: Seq<char>,
}

impl DeepView for MethodSignatureInfo {
    type V = SignatureInfoModel;

    open spec fn deep_view(&self) -> SignatureInfoModel {
        SignatureInfoModel {
            name: self.name@,
            syntax: self.syntax@,
            parameters: self.parameters.deep_view(),
            description: self.description@,
        }
    }
}

/// A link as (name, href).
impl DeepView for RelatedObject {
    type V = (Seq<char>, Seq<char>);

    open spec fn deep_view(&self) -> (Seq<char>, Seq<char>) {
        (self.name@, self.href@)
    }
}

/// A value as (type, description).
impl DeepView for ValueInfo {
    type V = (Seq<char>, Seq<char>);

    open spec fn deep_view(&self) -> (Seq<char>, Seq<char>) {
        (self.value_type@, self.description@)
    }
}

pub struct MethodInfoModel {
    pub name_ru: Seq<char>,
    pub name_en: Seq<char>,
    pub description: Seq<char>,
    pub signatures: Seq<SignatureInfoModel>,
    pub return_value: Option<(Seq<char>, Seq<char>)>,
    pub example: Option<Seq<char>>,
    pub note: Option<Seq<char>>,
    pub related_objects: Seq<(Seq<char>, Seq<char>)>,
}

impl DeepView for MethodInfo {
    type V = MethodInfoModel;

    open spec fn deep_view(&self) -> MethodInfoModel {
        MethodInfoModel {
            name_ru: self.name_ru@,
            name_en: self.name_en@,
            description: self.description@,
            signatures: self.signatures.deep_view(),
            return_value: self.return_value.deep_view(),
            example: self.example.deep_view(),
            note: self.note.deep_view(),
            related_objects: self.related_objects.deep_view(),
        }
    }
}

pub struct PropertyInfoModel {
    pub name_ru: Seq<char>,
    pub name_en: Seq<char>,
    pub description: Seq<char>,
    pub value_type: Seq<char>,
    pub readonly: bool,
    pub note: Option<Seq<char>>,
    pub related_objects: Seq<(Seq<char>, Seq<char>)>,
}

impl DeepView for PropertyInfo {
    type V = PropertyInfoModel;

    open spec fn deep_view(&self) -> PropertyInfoModel {
        PropertyInfoModel {
            name_ru: self.name_ru@,
            name_en: self.name_en@,
            description: self.description@,
            value_type: self.value_type@,
            readonly: self.readonly,
            note: self.note.deep_view(),
            related_objects: self.related_objects.deep_view(),
        }
    }
}

pub struct ConstructorInfoModel {
    pub name: Seq<char>,
    pub syntax: Seq<char>,
    pub parameters: Seq<ParameterInfoModel>,
    pub description: Seq<char>,
    pub example: Option<Seq<char>>,
    pub note: Option<Seq<char>>,
    pub related_objects: Seq<(Seq<char>, Seq<char>)>,
}

impl DeepView for ConstructorInfo {
    type V = ConstructorInfoModel;

    open spec fn deep_view(&self) -> ConstructorInfoModel {
        ConstructorInfoModel {
            name: self.name@,
            syntax: self.syntax@,
            parameters: self.parameters.deep_view(),
            description: self.description@,
            example: self.example.deep_view(),
            note: self.note.deep_view(),
            related_objects: self.related_objects.deep_view(),
        }
    }
}

pub struct ObjectInfoModel {
    pub name_ru: Seq<char>,
    pub name_en: Seq<char>,
    pub description: Seq<char>,
    pub example: Option<Seq<char>>,
    pub note: Option<Seq<char>>,
    pub related_objects: Seq<(Seq<char>, Seq<char>)>,
    pub properties: Seq<PropertyInfoModel>,
    pub methods: Seq<MethodInfoModel>,
    pub constructors: Seq<ConstructorInfoModel>,
}

impl DeepView for ObjectInfo {
    type V = ObjectInfoModel;

    open spec fn deep_view(&self) -> ObjectInfoModel {
        ObjectInfoModel {
            name_ru: self.name_ru@,
            name_en: self.name_en@,
            description: self.description@,
            example: self.example.deep_view(),
            note: self.note.deep_view(),
            related_objects: self.related_objects.deep_view(),
            properties: self.properties.deep_view(),
            methods: self.methods.deep_view(),
            constructors: self.constructors.deep_view(),
        }
    }
}

pub struct EnumValueInfoModel {
    pub name_ru: Seq<char>,
    pub name_en: Seq<char>,
    pub description: Seq<char>,
    pub related_objects: Seq<(Seq<char>, Seq<char>)>,
}

impl DeepView for EnumValueInfo {
    type V = EnumValueInfoModel;

    open spec fn deep_view(&self) -> EnumValueInfoModel {
        EnumValueInfoModel {
            name_ru: self.name_ru@,
            name_en: self.name_en@,
            description: self.description@,
            related_objects: self.related_objects.deep_view(),
        }
    }
}

pub struct EnumInfoModel {
    pub name_ru: Seq<char>,
    pub name_en: Seq<char>,
    pub description: Seq<char>,
    pub example: Option<Seq<char>>,
    pub related_objects: Seq<(Seq<char>, Seq<char>)>,
    pub values: Seq<EnumValueInfoModel>,
}

impl DeepView for EnumInfo {
    type V = EnumInfoModel;

    open spec fn deep_view(&self) -> EnumInfoModel {
        EnumInfoModel {
            name_ru: self.name_ru@,
            name_en: self.name_en@,
            description: self.description@,
            example: self.example.deep_view(),
            related_objects: self.related_objects.deep_view(),
            values: self.values.deep_view(),
        }
    }
}

} // verus!
