//! `PlatformIndex`: the storage of the platform context, with three
//! collections: global methods, global properties and types (ordinary types
//! and system enumerations together), the latter keyed by the lowercase
//! Russian name.
use vstd::prelude::*;

use crate::entities::{Method, Property, Type, TypeModel};
use crate::seqs::{lemma_take_full, lemma_take_succ};
use crate::text::{lowercase, to_lowercase};

verus! {

/// Storage of the platform context (read-only once loaded).
#[derive(Debug, Clone)]
pub struct PlatformIndex {
    pub global_methods: Vec<Method>,
    pub global_properties: Vec<Property>,
    /// Ordinary types and enumeration types together; no two share a key.
    pub types: Vec<Type>,
    /// `keys[i]` is the lowercase `name_ru` of `types[i]`.
    pub keys: Vec<String>,
}

/// The key under which a type is stored: its lowercase Russian name.
pub open spec fn type_key(t: Type) -> Seq<char> {
    lowercase(t.name_ru@)
}

/// Whether a method or property name matches a query regardless of case.
pub open spec fn same_name(name: Seq<char>, query: Seq<char>) -> bool {
    lowercase(name) == lowercase(query)
}

impl PlatformIndex {
    /// Keys are the lowercase names of the stored types, and no key occurs twice.
    pub open spec fn wf(&self) -> bool {
        &&& self.types@.len() == self.keys@.len()
        &&& forall|i: int|
            0 <= i < self.types@.len() ==> #[trigger] self.keys@[i]@ == type_key(self.types@[i])
        &&& forall|i: int, j: int|
            0 <= i < j < self.keys@.len() ==> self.keys@[i]@ != self.keys@[j]@
    }

    /// The stored types, in insertion order.
    pub open spec fn type_seq(&self) -> Seq<Type> {
        self.types@
    }

    /// Whether a type is stored under key `k`.
    pub open spec fn has_key(&self, k: Seq<char>) -> bool {
        exists|i: int| 0 <= i < self.type_seq().len() && type_key(#[trigger] self.type_seq()[i]) == k
    }

    pub fn new() -> (r: Self)
        ensures
            r.wf(),
            r.global_methods@.len() == 0,
            r.global_properties@.len() == 0,
            r.type_seq().len() == 0,
    {
        PlatformIndex {
            global_methods: Vec::new(),
            global_properties: Vec::new(),
            types: Vec::new(),
            keys: Vec::new(),
        }
    }

    /// The stored types.
    pub fn types(&self) -> (r: &Vec<Type>)
        ensures
            r@ == self.type_seq(),
    {
        &self.types
    }

    pub fn types_len(&self) -> (r: usize)
        ensures
            r == self.type_seq().len(),
    {
        self.types.len()
    }

    /// How many types have enumeration values (system enumerations).
    pub fn enum_types_count(&self) -> (r: usize)
        ensures
            r == count_enum_types(self.type_seq()),
    {
        let mut n: usize = 0;
        let mut i: usize = 0;
        while i < self.types.len()
            invariant
                i <= self.types@.len(),
                n == count_enum_types(self.types@.take(i as int)),
                n <= i,
            decreases self.types@.len() - i,
        {
            assert(self.types@.take(i + 1).drop_last() =~= self.types@.take(i as int));
            if self.types[i].is_enum() {
                n = n + 1;
            }
            i = i + 1;
        }
        assert(self.types@.take(self.types@.len() as int) =~= self.types@);
        n
    }

    /// Position of the type stored under `key`, if any.
    fn position_of_key(&self, key: &String) -> (r: Option<usize>)
        requires
            self.wf(),
        ensures
            match r {
                Some(i) => i < self.types@.len() && self.keys@[i as int]@ == key@,
                None => forall|i: int| 0 <= i < self.keys@.len() ==> self.keys@[i]@ != key@,
            },
    {
        let mut i: usize = 0;
        while i < self.keys.len()
            invariant
                self.wf(),
                i <= self.keys@.len(),
                forall|j: int| 0 <= j < i ==> self.keys@[j]@ != key@,
            decreases self.keys@.len() - i,
        {
            if self.keys[i] == *key {
                return Some(i);
            }
            i = i + 1;
        }
        None
    }

    /// The type stored under the lowercase form of `name`, if any.
    pub open spec fn lookup_type(&self, name: Seq<char>) -> Option<Type> {
        if self.has_key(lowercase(name)) {
            Some(self.type_seq()[self.index_of_key(lowercase(name))])
        } else {
            None
        }
    }

    /// Exact lookup of a type by its Russian name, regardless of case.
    pub fn find_type(&self, name_ru: &str) -> (r: Option<&Type>)
        requires
            self.wf(),
        ensures
            match r {
                Some(t) => self.lookup_type(name_ru@) == Some(*t),
                None => self.lookup_type(name_ru@) is None,
            },
    {
        let key = to_lowercase(name_ru);
        match self.position_of_key(&key) {
            Some(i) => {
                proof {
                    assert(self.keys@[i as int]@ == type_key(self.types@[i as int]));
                    self.lemma_index_of_key(i as int);
                }
                Some(&self.types[i])
            },
            None => {
                assert forall|i: int| 0 <= i < self.types@.len() implies type_key(
                    #[trigger] self.types@[i],
                ) != lowercase(name_ru@) by {
                    assert(self.keys@[i]@ == type_key(self.types@[i]));
                }
                None
            },
        }
    }

    /// Exact lookup of a global method by its Russian name, regardless of case:
    /// the first one that matches.
    pub fn find_global_method(&self, name_ru: &str) -> (r: Option<&Method>)
        ensures
            match r {
                Some(m) => first_method_named(self.global_methods@, name_ru@) == Some(*m),
                None => first_method_named(self.global_methods@, name_ru@) is None,
            },
    {
        find_method_named(&self.global_methods, name_ru)
    }

    /// Exact lookup of a global property by its Russian name, regardless of case:
    /// the first one that matches.
    pub fn find_global_property(&self, name_ru: &str) -> (r: Option<&Property>)
        ensures
            match r {
                Some(p) => first_property_named(self.global_properties@, name_ru@) == Some(*p),
                None => first_property_named(self.global_properties@, name_ru@) is None,
            },
    {
        find_property_named(&self.global_properties, name_ru)
    }

    /// Inserts a type; a type stored under the same key is replaced in place.
    pub fn insert_type(&mut self, ty: Type)
        requires
            old(self).wf(),
        ensures
            final(self).wf(),
            final(self).global_methods == old(self).global_methods,
            final(self).global_properties == old(self).global_properties,
            final(self).type_seq() == old(self).with_type(ty),
    {
        let key = to_lowercase(ty.name_ru.as_str());
        match self.position_of_key(&key) {
            Some(i) => {
                proof {
                    assert(self.types@[i as int] == self.types@[i as int]);
                    assert(type_key(self.types@[i as int]) == type_key(ty));
                    self.lemma_index_of_key(i as int);
                }
                self.types.set(i, ty);
            },
            None => {
                proof {
                    assert forall|j: int| 0 <= j < self.types@.len() implies type_key(
                        #[trigger] self.types@[j],
                    ) != type_key(ty) by {
                        assert(self.keys@[j]@ == type_key(self.types@[j]));
                    }
                }
                self.types.push(ty);
                self.keys.push(key);
            },
        }
    }

    /// The stored types after inserting `ty`: a type under the same key is
    /// replaced in place, else `ty` is appended.
    pub open spec fn with_type(&self, ty: Type) -> Seq<Type> {
        if self.has_key(type_key(ty)) {
            self.type_seq().update(self.index_of_key(type_key(ty)), ty)
        } else {
            self.type_seq().push(ty)
        }
    }

    /// The position of the type stored under key `k`.
    pub open spec fn index_of_key(&self, k: Seq<char>) -> int {
        choose|i: int| 0 <= i < self.type_seq().len() && type_key(#[trigger] self.type_seq()[i]) == k
    }

    pub proof fn lemma_index_of_key(&self, i: int)
        requires
            self.wf(),
            0 <= i < self.types@.len(),
        ensures
            self.has_key(type_key(self.types@[i])),
            self.index_of_key(type_key(self.types@[i])) == i,
    {
        let k = type_key(self.types@[i]);
        assert(self.keys@[i]@ == k);
        let j = self.index_of_key(k);
        assert(self.keys@[j]@ == type_key(self.types@[j]));
        if j != i {
            if j < i {
                assert(self.keys@[j]@ != self.keys@[i]@);
            } else {
                assert(self.keys@[i]@ != self.keys@[j]@);
            }
        }
    }

}

/// The first method whose Russian name matches `q` regardless of case.
pub open spec fn first_method_named(s: Seq<Method>, q: Seq<char>) -> Option<Method>
    decreases s.len(),
{
    if s.len() == 0 {
        None
    } else {
        match first_method_named(s.drop_last(), q) {
            Some(m) => Some(m),
            None => if same_name(s.last().name_ru@, q) {
                Some(s.last())
            } else {
                None
            },
        }
    }
}

/// The first property whose Russian name matches `q` regardless of case.
pub open spec fn first_property_named(s: Seq<Property>, q: Seq<char>) -> Option<Property>
    decreases s.len(),
{
    if s.len() == 0 {
        None
    } else {
        match first_property_named(s.drop_last(), q) {
            Some(p) => Some(p),
            None => if same_name(s.last().name_ru@, q) {
                Some(s.last())
            } else {
                None
            },
        }
    }
}

proof fn lemma_first_method_prefix(s: Seq<Method>, q: Seq<char>, k: int)
    requires
        0 <= k <= s.len(),
        first_method_named(s.take(k), q) is Some,
    ensures
        first_method_named(s, q) == first_method_named(s.take(k), q),
    decreases s.len() - k,
{
    if k < s.len() {
        assert(s.take(k + 1).drop_last() =~= s.take(k));
        lemma_first_method_prefix(s, q, k + 1);
    } else {
        assert(s.take(k) =~= s);
    }
}

proof fn lemma_first_property_prefix(s: Seq<Property>, q: Seq<char>, k: int)
    requires
        0 <= k <= s.len(),
        first_property_named(s.take(k), q) is Some,
    ensures
        first_property_named(s, q) == first_property_named(s.take(k), q),
    decreases s.len() - k,
{
    if k < s.len() {
        assert(s.take(k + 1).drop_last() =~= s.take(k));
        lemma_first_property_prefix(s, q, k + 1);
    } else {
        assert(s.take(k) =~= s);
    }
}

/// Number of types with enumeration values.
pub open spec fn count_enum_types(s: Seq<Type>) -> nat
    decreases s.len(),
{
    if s.len() == 0 {
        0
    } else {
        count_enum_types(s.drop_last()) + if s.last().enum_values@.len() > 0 {
            1nat
        } else {
            0nat
        }
    }
}

/// The first method whose Russian name matches regardless of case.
pub fn find_method_named<'a>(v: &'a Vec<Method>, name_ru: &str) -> (r: Option<&'a Method>)
    ensures
        match r {
            Some(m) => first_method_named(v@, name_ru@) == Some(*m),
            None => first_method_named(v@, name_ru@) is None,
        },
{
    let key = to_lowercase(name_ru);
    let mut i: usize = 0;
    while i < v.len()
        invariant
            i <= v@.len(),
            key@ == lowercase(name_ru@),
            first_method_named(v@.take(i as int), name_ru@) is None,
        decreases v@.len() - i,
    {
        let k = to_lowercase(v[i].name_ru.as_str());
        proof {
            lemma_take_succ(v@, i as int);
            assert(v@.take(i + 1).drop_last() =~= v@.take(i as int));
        }
        if k == key {
            proof {
                lemma_first_method_prefix(v@, name_ru@, i + 1);
            }
            return Some(&v[i]);
        }
        i = i + 1;
    }
    proof {
        lemma_take_full(v@);
    }
    None
}

/// The first property whose Russian name matches regardless of case.
pub fn find_property_named<'a>(v: &'a Vec<Property>, name_ru: &str) -> (r: Option<&'a Property>)
    ensures
        match r {
            Some(p) => first_property_named(v@, name_ru@) == Some(*p),
            None => first_property_named(v@, name_ru@) is None,
        },
{
    let key = to_lowercase(name_ru);
    let mut i: usize = 0;
    while i < v.len()
        invariant
            i <= v@.len(),
            key@ == lowercase(name_ru@),
            first_property_named(v@.take(i as int), name_ru@) is None,
        decreases v@.len() - i,
    {
        let k = to_lowercase(v[i].name_ru.as_str());
        proof {
            lemma_take_succ(v@, i as int);
            assert(v@.take(i + 1).drop_last() =~= v@.take(i as int));
        }
        if k == key {
            proof {
                lemma_first_property_prefix(v@, name_ru@, i + 1);
            }
            return Some(&v[i]);
        }
        i = i + 1;
    }
    proof {
        lemma_take_full(v@);
    }
    None
}


/// The models of stored types.
pub open spec fn models_of(s: Seq<Type>) -> Seq<TypeModel> {
    s.map_values(|t: Type| t.deep_view())
}

/// The key of a type model: its lowercase Russian name.
pub open spec fn model_key(t: TypeModel) -> Seq<char> {
    lowercase(t.name_ru)
}

/// Insertion by key over models: a type of the same key is replaced in
/// place, else the type is appended.
pub open spec fn insert_model(s: Seq<TypeModel>, t: TypeModel) -> Seq<TypeModel> {
    if exists|i: int| 0 <= i < s.len() && model_key(#[trigger] s[i]) == model_key(t) {
        s.update(choose|i: int| 0 <= i < s.len() && model_key(#[trigger] s[i]) == model_key(t), t)
    } else {
        s.push(t)
    }
}

/// Inserting the types one after another.
pub open spec fn insert_models(s: Seq<TypeModel>, ts: Seq<TypeModel>) -> Seq<TypeModel>
    decreases ts.len(),
{
    if ts.len() == 0 {
        s
    } else {
        insert_model(insert_models(s, ts.drop_last()), ts.last())
    }
}

/// What `insert_type` does, seen on the models.
pub proof fn lemma_insert_model(idx: PlatformIndex, ty: Type)
    requires
        idx.wf(),
    ensures
        models_of(idx.with_type(ty)) == insert_model(models_of(idx.type_seq()), ty.deep_view()),
{
    let ms = models_of(idx.type_seq());
    let k = type_key(ty);
    assert(model_key(ty.deep_view()) == k);
    if idx.has_key(k) {
        let a = idx.index_of_key(k);
        assert(model_key(ms[a]) == k);
        let b = choose|i: int| 0 <= i < ms.len() && model_key(#[trigger] ms[i]) == model_key(ty.deep_view());
        assert(type_key(idx.types@[b]) == k);
        idx.lemma_index_of_key(b);
        assert(models_of(idx.type_seq().update(a, ty)) =~= ms.update(a, ty.deep_view()));
    } else {
        assert forall|i: int| 0 <= i < ms.len() implies model_key(#[trigger] ms[i]) != k by {
            if model_key(ms[i]) == k {
                assert(type_key(idx.type_seq()[i]) == k);
            }
        }
        assert(models_of(idx.type_seq().push(ty)) =~= ms.push(ty.deep_view()));
    }
}

} // verus!
