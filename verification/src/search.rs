//! Search indexes over the platform index: exact lookup by lowercase name,
//! lookup by prefix in name order, and a search that tries prefixes, then
//! the words of the query in order, then substrings.
use vstd::prelude::*;
use vstd::utf8::{encode_utf8, encode_utf8_decode_utf8};

use crate::entities::{
    copy_methods, copy_properties, copy_types, Method, MethodModel, Property, PropertyModel, Type,
    TypeModel,
};
use crate::storage::{first_method_named, first_property_named, PlatformIndex};
use crate::entities::{Definition, DefinitionModel};
use crate::lexis::ws_end;
use crate::text::{contains_seq, first_occurrence_from, is_ws, lowercase, to_lowercase, trim};

verus! {

// ---------------------------------------------------------------------------
// The order of keys
// ---------------------------------------------------------------------------

/// Lexicographic order of byte strings.
pub open spec fn bytes_lt(a: Seq<u8>, b: Seq<u8>) -> bool
    decreases a.len(),
{
    if a.len() == 0 {
        b.len() > 0
    } else if b.len() == 0 {
        false
    } else if a[0] != b[0] {
        a[0] < b[0]
    } else {
        bytes_lt(a.drop_first(), b.drop_first())
    }
}

/// The order of `String`: lexicographic on the UTF-8 bytes.
pub open spec fn key_lt(a: Seq<char>, b: Seq<char>) -> bool {
    bytes_lt(encode_utf8(a), encode_utf8(b))
}

pub proof fn lemma_bytes_lt_irrefl(a: Seq<u8>)
    ensures
        !bytes_lt(a, a),
    decreases a.len(),
{
    if a.len() > 0 {
        lemma_bytes_lt_irrefl(a.drop_first());
    }
}

pub proof fn lemma_bytes_lt_trans(a: Seq<u8>, b: Seq<u8>, c: Seq<u8>)
    requires
        bytes_lt(a, b),
        bytes_lt(b, c),
    ensures
        bytes_lt(a, c),
    decreases a.len(),
{
    if a.len() > 0 && b.len() > 0 && c.len() > 0 && a[0] == b[0] && b[0] == c[0] {
        lemma_bytes_lt_trans(a.drop_first(), b.drop_first(), c.drop_first());
    }
}

pub proof fn lemma_bytes_lt_total(a: Seq<u8>, b: Seq<u8>)
    requires
        a != b,
    ensures
        bytes_lt(a, b) || bytes_lt(b, a),
    decreases a.len(),
{
    if a.len() > 0 && b.len() > 0 && a[0] == b[0] {
        if a.drop_first() == b.drop_first() {
            assert(a =~= seq![a[0]] + a.drop_first());
            assert(b =~= seq![b[0]] + b.drop_first());
        }
        lemma_bytes_lt_total(a.drop_first(), b.drop_first());
    } else if a.len() == 0 && b.len() == 0 {
        assert(a =~= b);
    }
}

pub proof fn lemma_key_lt_total(a: Seq<char>, b: Seq<char>)
    requires
        a != b,
    ensures
        key_lt(a, b) || key_lt(b, a),
{
    encode_utf8_decode_utf8(a);
    encode_utf8_decode_utf8(b);
    lemma_bytes_lt_total(encode_utf8(a), encode_utf8(b));
}

fn bytes_less(a: &[u8], b: &[u8]) -> (r: bool)
    ensures
        r == bytes_lt(a@, b@),
{
    let n = a.len();
    let m = b.len();
    let mut i: usize = 0;
    assert(a@.skip(0) =~= a@);
    assert(b@.skip(0) =~= b@);
    while i < n && i < m
        invariant
            n == a@.len(),
            m == b@.len(),
            i <= n,
            i <= m,
            bytes_lt(a@, b@) == bytes_lt(a@.skip(i as int), b@.skip(i as int)),
        decreases n - i,
    {
        let x = a[i];
        let y = b[i];
        proof {
            assert(a@.skip(i as int)[0] == x);
            assert(b@.skip(i as int)[0] == y);
            assert(a@.skip(i as int).drop_first() =~= a@.skip(i + 1));
            assert(b@.skip(i as int).drop_first() =~= b@.skip(i + 1));
        }
        if x != y {
            return x < y;
        }
        i = i + 1;
    }
    proof {
        if i == n {
            assert(a@.skip(i as int).len() == 0);
        } else {
            assert(b@.skip(i as int).len() == 0);
        }
    }
    n - i == 0 && m - i > 0
}

/// `a < b` in the order of `String`.
pub fn key_less(a: &str, b: &str) -> (r: bool)
    ensures
        r == key_lt(a@, b@),
{
    bytes_less(a.as_bytes(), b.as_bytes())
}

// ---------------------------------------------------------------------------
// Exact index
// ---------------------------------------------------------------------------

/// The first entry with key `k`.
pub open spec fn key_index<T>(es: Seq<(Seq<char>, T)>, k: Seq<char>) -> Option<int>
    decreases es.len(),
{
    if es.len() == 0 {
        None
    } else {
        match key_index(es.drop_last(), k) {
            Some(i) => Some(i),
            None => if es.last().0 == k {
                Some(es.len() - 1)
            } else {
                None
            },
        }
    }
}

/// Entry `(k, v)` added: it replaces the value of an entry with the same key,
/// or comes last.
pub open spec fn hash_insert<T>(es: Seq<(Seq<char>, T)>, k: Seq<char>, v: T) -> Seq<(Seq<char>, T)> {
    match key_index(es, k) {
        Some(i) => es.update(i, (k, v)),
        None => es.push((k, v)),
    }
}

/// The entries of the first `n` items under keys `ks`.
pub open spec fn hash_build<T>(ks: Seq<Seq<char>>, vs: Seq<T>, n: int) -> Seq<(Seq<char>, T)>
    decreases n,
{
    if n <= 0 {
        Seq::empty()
    } else {
        hash_insert(hash_build(ks, vs, n - 1), ks[n - 1], vs[n - 1])
    }
}

/// `k` is, lowercased, a key that `key` gives item `x`.
pub open spec fn key_of<T, K: Fn(&T) -> &str>(key: K, x: &T, k: Seq<char>) -> bool {
    exists|s: &str| #[trigger] key.ensures((x,), s) && k == lowercase(s@)
}

/// `ks` holds, lowercased, the keys that `key` gives the items.
pub open spec fn keys_by<T, K: Fn(&T) -> &str>(key: K, items: Seq<T>, ks: Seq<Seq<char>>) -> bool {
    &&& ks.len() == items.len()
    &&& forall|i: int| 0 <= i < items.len() ==> #[trigger] key_of(key, &items[i], ks[i])
}

pub proof fn lemma_key_index_range<T>(es: Seq<(Seq<char>, T)>, k: Seq<char>)
    ensures
        key_index(es, k) matches Some(i) ==> 0 <= i < es.len() && es[i].0 == k,
        key_index(es, k) is None ==> forall|j: int| 0 <= j < es.len() ==> es[j].0 != k,
    decreases es.len(),
{
    if es.len() > 0 {
        lemma_key_index_range(es.drop_last(), k);
        assert forall|j: int| 0 <= j < es.len() - 1 implies es[j] == es.drop_last()[j] by {}
    }
}

/// The entries of a vector of (String, item) pairs, keys as text.
pub open spec fn pairs_view<T>(v: Seq<(String, T)>) -> Seq<(Seq<char>, T)> {
    v.map_values(|e: (String, T)| (e.0@, e.1))
}

/// Exact lookup by lowercase name.
pub struct HashIndex<T> {
    inner: Vec<(String, T)>,
}

fn find_key<T>(inner: &Vec<(String, T)>, k: &str) -> (r: Option<usize>)
    ensures
        match key_index(pairs_view(inner@), k@) {
            Some(i) => r matches Some(x) && x as int == i && x < inner@.len(),
            None => r is None,
        },
{
    proof {
        lemma_key_index_range(pairs_view(inner@), k@);
    }
    let ghost es = pairs_view(inner@);
    let n = inner.len();
    let mut i: usize = 0;
    proof {
        assert(es.take(0) =~= Seq::<(Seq<char>, T)>::empty());
    }
    while i < n
        invariant
            n == inner@.len(),
            es == pairs_view(inner@),
            i <= n,
            key_index(es.take(i as int), k@) is None,
        decreases n - i,
    {
        proof {
            assert(es.take(i + 1).drop_last() =~= es.take(i as int));
        }
        if crate::text::str_eq(inner[i].0.as_str(), k) {
            proof {
                lemma_key_index_prefix(es, i + 1, k@);
            }
            return Some(i);
        }
        i = i + 1;
    }
    proof {
        assert(es.take(n as int) =~= es);
    }
    None
}

proof fn lemma_key_index_prefix<T>(es: Seq<(Seq<char>, T)>, m: int, k: Seq<char>)
    requires
        0 <= m <= es.len(),
        key_index(es.take(m), k) is Some,
    ensures
        key_index(es, k) == key_index(es.take(m), k),
    decreases es.len() - m,
{
    if m < es.len() {
        assert(es.take(m + 1).drop_last() =~= es.take(m));
        lemma_key_index_prefix(es, m + 1, k);
    } else {
        assert(es.take(m) =~= es);
    }
}

impl<T> HashIndex<T> {
    /// The entries: (lowercase key, item), no key twice.
    pub closed spec fn entries(&self) -> Seq<(Seq<char>, T)> {
        pairs_view(self.inner@)
    }

    /// Indexes the items under the lowercase form of the key `key` gives
    /// each; a later item with the same key replaces an earlier one.
    pub fn from_iter_with<K>(items: Vec<T>, key: K) -> (r: Self) where K: Fn(&T) -> &str
        requires
            forall|x: &T| #[trigger] key.requires((x,)),
        ensures
            exists|ks: Seq<Seq<char>>|
                keys_by(key, items@, ks) && r.entries() == hash_build(ks, items@, items@.len() as int),
    {
        let ghost all = items@;
        let ghost mut ks: Seq<Seq<char>> = Seq::empty();
        let mut inner: Vec<(String, T)> = Vec::new();
        for it in iter: items
            invariant
                forall|x: &T| #[trigger] key.requires((x,)),
                all == iter.seq(),
                ks.len() == iter.index(),
                forall|i: int| 0 <= i < ks.len() ==> #[trigger] key_of(key, &all[i], ks[i]),
                pairs_view(inner@) == hash_build(ks, all, ks.len() as int),
        {
            let ghost idx = iter.index();
            let s = key(&it);
            let k = to_lowercase(s);
            let ghost kk = k@;
            proof {
                assert(it == all[idx]);
                assert(key.ensures((&all[idx],), s));
            }
            let ghost prev = inner@;
            match find_key(&inner, k.as_str()) {
                Some(j) => {
                    inner.set(j, (k, it));
                    proof {
                        assert(pairs_view(inner@) =~= pairs_view(prev).update(j as int, (kk, it)));
                    }
                },
                None => {
                    inner.push((k, it));
                    proof {
                        assert(pairs_view(inner@) =~= pairs_view(prev).push((kk, it)));
                    }
                },
            }
            proof {
                assert(pairs_view(inner@) == hash_insert(pairs_view(prev), kk, all[idx]));
            }
            let ghost old_ks = ks;
            proof {
                let nks = ks.push(kk);
                assert(nks.take(idx) =~= ks);
                assert(hash_build(nks, all, idx + 1) == hash_insert(hash_build(nks, all, idx), kk, all[idx]));
                lemma_hash_build_prefix(ks, nks, all, idx);
                ks = nks;
                assert forall|i: int| 0 <= i < ks.len() implies #[trigger] key_of(key, &all[i], ks[i]) by {
                    if i == idx {
                        assert(key.ensures((&all[i],), s) && ks[i] == lowercase(s@));
                    } else {
                        assert(ks[i] == old_ks[i]);
                    }
                }
            }
        }
        proof {
            assert(keys_by(key, items@, ks));
        }
        HashIndex { inner }
    }

    /// The item stored under the lowercase form of `name`.
    pub fn get(&self, name: &str) -> (r: Option<&T>)
        ensures
            match key_index(self.entries(), lowercase(name@)) {
                Some(i) => r matches Some(x) && *x == self.entries()[i].1,
                None => r is None,
            },
    {
        let k = to_lowercase(name);
        match find_key(&self.inner, k.as_str()) {
            Some(i) => {
                assert(self.entries()[i as int].1 == self.inner@[i as int].1);
                Some(&self.inner[i].1)
            },
            None => None,
        }
    }

    pub fn len(&self) -> (r: usize)
        ensures
            r == self.entries().len(),
    {
        self.inner.len()
    }

    pub fn is_empty(&self) -> (r: bool)
        ensures
            r == (self.entries().len() == 0),
    {
        self.inner.len() == 0
    }
}

/// Building with keys that agree on a prefix gives the same entries.
proof fn lemma_hash_build_prefix<T>(ks1: Seq<Seq<char>>, ks2: Seq<Seq<char>>, vs: Seq<T>, n: int)
    requires
        0 <= n <= ks1.len(),
        n <= ks2.len(),
        forall|i: int| 0 <= i < n ==> ks1[i] == ks2[i],
    ensures
        hash_build(ks1, vs, n) == hash_build(ks2, vs, n),
    decreases n,
{
    if n > 0 {
        lemma_hash_build_prefix(ks1, ks2, vs, n - 1);
    }
}

// ---------------------------------------------------------------------------
// Prefix index
// ---------------------------------------------------------------------------

/// The first position whose key is not below `k` (the end when none).
pub open spec fn insert_pos<T>(es: Seq<(Seq<char>, T)>, k: Seq<char>, j: int) -> int
    decreases es.len() - j,
{
    if j < 0 || j >= es.len() || !key_lt(es[j].0, k) {
        j
    } else {
        insert_pos(es, k, j + 1)
    }
}

/// Entry `(k, v)` added in key order: it replaces the value of an entry with
/// the same key, or goes before the first greater key.
pub open spec fn sorted_insert<T>(es: Seq<(Seq<char>, T)>, k: Seq<char>, v: T) -> Seq<(Seq<char>, T)> {
    let j = insert_pos(es, k, 0);
    if j < es.len() && es[j].0 == k {
        es.update(j, (k, v))
    } else {
        es.insert(j, (k, v))
    }
}

/// The entries in key order of the first `n` items under keys `ks`.
pub open spec fn sorted_build<T>(ks: Seq<Seq<char>>, vs: Seq<T>, n: int) -> Seq<(Seq<char>, T)>
    decreases n,
{
    if n <= 0 {
        Seq::empty()
    } else {
        sorted_insert(sorted_build(ks, vs, n - 1), ks[n - 1], vs[n - 1])
    }
}

/// Keys strictly increase.
pub open spec fn sorted_keys<T>(es: Seq<(Seq<char>, T)>) -> bool {
    forall|i: int, j: int| 0 <= i < j < es.len() ==> key_lt(#[trigger] es[i].0, #[trigger] es[j].0)
}

/// The items whose key starts with `p`, in key order.
pub open spec fn with_prefix<T>(es: Seq<(Seq<char>, T)>, p: Seq<char>) -> Seq<T>
    decreases es.len(),
{
    if es.len() == 0 {
        Seq::empty()
    } else if p.is_prefix_of(es.last().0) {
        with_prefix(es.drop_last(), p).push(es.last().1)
    } else {
        with_prefix(es.drop_last(), p)
    }
}

pub proof fn lemma_insert_pos<T>(es: Seq<(Seq<char>, T)>, k: Seq<char>, j: int)
    requires
        0 <= j <= es.len(),
        forall|i: int| 0 <= i < j ==> key_lt(#[trigger] es[i].0, k),
    ensures
        j <= insert_pos(es, k, j) <= es.len(),
        forall|i: int| 0 <= i < insert_pos(es, k, j) ==> key_lt(#[trigger] es[i].0, k),
        insert_pos(es, k, j) < es.len() ==> !key_lt(es[insert_pos(es, k, j)].0, k),
    decreases es.len() - j,
{
    if j < es.len() && key_lt(es[j].0, k) {
        lemma_insert_pos(es, k, j + 1);
    }
}

/// Adding an entry keeps the keys in strictly increasing order.
pub proof fn lemma_sorted_insert<T>(es: Seq<(Seq<char>, T)>, k: Seq<char>, v: T)
    requires
        sorted_keys(es),
    ensures
        sorted_keys(sorted_insert(es, k, v)),
{
    lemma_insert_pos(es, k, 0);
    let j = insert_pos(es, k, 0);
    let r = sorted_insert(es, k, v);
    if j < es.len() && es[j].0 == k {
        assert forall|a: int, b: int| 0 <= a < b < r.len() implies key_lt(#[trigger] r[a].0, #[trigger] r[b].0) by {
            assert(r[a].0 == es[a].0);
            assert(r[b].0 == es[b].0);
        }
    } else {
        if j < es.len() {
            lemma_key_lt_total(es[j].0, k);
        }
        assert forall|a: int, b: int| 0 <= a < b < r.len() implies key_lt(#[trigger] r[a].0, #[trigger] r[b].0) by {
            if b < j {
                assert(r[a] == es[a] && r[b] == es[b]);
            } else if b == j {
                assert(r[a] == es[a]);
            } else if a < j {
                assert(r[a] == es[a] && r[b] == es[b - 1]);
                lemma_bytes_lt_trans(encode_utf8(es[a].0), encode_utf8(k), encode_utf8(es[j].0));
                if b - 1 > j {
                    lemma_bytes_lt_trans(encode_utf8(es[a].0), encode_utf8(es[j].0), encode_utf8(es[b - 1].0));
                }
            } else if a == j {
                assert(r[b] == es[b - 1]);
                if b - 1 > j {
                    lemma_bytes_lt_trans(encode_utf8(k), encode_utf8(es[j].0), encode_utf8(es[b - 1].0));
                }
            } else {
                assert(r[a] == es[a - 1] && r[b] == es[b - 1]);
            }
        }
    }
}

/// The entries of a prefix index are in strictly increasing key order.
pub proof fn lemma_sorted_build<T>(ks: Seq<Seq<char>>, vs: Seq<T>, n: int)
    ensures
        sorted_keys(sorted_build(ks, vs, n)),
    decreases n,
{
    if n > 0 {
        lemma_sorted_build(ks, vs, n - 1);
        lemma_sorted_insert(sorted_build(ks, vs, n - 1), ks[n - 1], vs[n - 1]);
    }
}

proof fn lemma_sorted_build_prefix<T>(ks1: Seq<Seq<char>>, ks2: Seq<Seq<char>>, vs: Seq<T>, n: int)
    requires
        0 <= n <= ks1.len(),
        n <= ks2.len(),
        forall|i: int| 0 <= i < n ==> ks1[i] == ks2[i],
    ensures
        sorted_build(ks1, vs, n) == sorted_build(ks2, vs, n),
    decreases n,
{
    if n > 0 {
        lemma_sorted_build_prefix(ks1, ks2, vs, n - 1);
    }
}

/// Lookup by prefix of the lowercase name, in name order.
pub struct StartWithIndex<T> {
    inner: Vec<(String, T)>,
}

impl<T> StartWithIndex<T> {
    /// The entries: (lowercase key, item) in strictly increasing key order.
    pub closed spec fn entries(&self) -> Seq<(Seq<char>, T)> {
        pairs_view(self.inner@)
    }

    /// Indexes the items in the order of the lowercase form of the key `key`
    /// gives each; a later item with the same key replaces an earlier one.
    pub fn from_iter_with<K>(items: Vec<T>, key: K) -> (r: Self) where K: Fn(&T) -> &str
        requires
            forall|x: &T| #[trigger] key.requires((x,)),
        ensures
            exists|ks: Seq<Seq<char>>|
                keys_by(key, items@, ks) && r.entries() == sorted_build(ks, items@, items@.len() as int),
    {
        let ghost all = items@;
        let ghost mut ks: Seq<Seq<char>> = Seq::empty();
        let mut inner: Vec<(String, T)> = Vec::new();
        for it in iter: items
            invariant
                forall|x: &T| #[trigger] key.requires((x,)),
                all == iter.seq(),
                ks.len() == iter.index(),
                forall|i: int| 0 <= i < ks.len() ==> #[trigger] key_of(key, &all[i], ks[i]),
                pairs_view(inner@) == sorted_build(ks, all, ks.len() as int),
        {
            let ghost idx = iter.index();
            let s = key(&it);
            let k = to_lowercase(s);
            let ghost kk = k@;
            proof {
                assert(it == all[idx]);
                assert(key.ensures((&all[idx],), s));
            }
            let ghost prev = inner@;
            let n = inner.len();
            let mut j: usize = 0;
            while j < n && key_less(inner[j].0.as_str(), k.as_str())
                invariant
                    n == inner@.len(),
                    inner@ == prev,
                    kk == k@,
                    j <= n,
                    insert_pos(pairs_view(prev), kk, 0) == insert_pos(pairs_view(prev), kk, j as int),
                decreases n - j,
            {
                assert(pairs_view(prev)[j as int].0 == inner@[j as int].0@);
                j = j + 1;
            }
            if j < n && crate::text::str_eq(inner[j].0.as_str(), k.as_str()) {
                inner.set(j, (k, it));
                proof {
                    assert(pairs_view(inner@) =~= pairs_view(prev).update(j as int, (kk, it)));
                }
            } else {
                inner.insert(j, (k, it));
                proof {
                    assert(pairs_view(inner@) =~= pairs_view(prev).insert(j as int, (kk, it)));
                }
            }
            proof {
                assert(pairs_view(inner@) == sorted_insert(pairs_view(prev), kk, all[idx]));
            }
            let ghost old_ks = ks;
            proof {
                let nks = ks.push(kk);
                assert(nks.take(idx) =~= ks);
                lemma_sorted_build_prefix(ks, nks, all, idx);
                ks = nks;
                assert forall|i: int| 0 <= i < ks.len() implies #[trigger] key_of(key, &all[i], ks[i]) by {
                    if i == idx {
                        assert(key.ensures((&all[i],), s) && ks[i] == lowercase(s@));
                    } else {
                        assert(ks[i] == old_ks[i]);
                    }
                }
            }
        }
        proof {
            assert(keys_by(key, items@, ks));
        }
        StartWithIndex { inner }
    }

    /// The items whose lowercase key starts with the lowercase form of
    /// `prefix`, in key order.
    pub fn starts_with(&self, prefix: &str) -> (r: Vec<&T>)
        ensures
            r@.map_values(|x: &T| *x) == with_prefix(self.entries(), lowercase(prefix@)),
    {
        let p = to_lowercase(prefix);
        let ghost es = self.entries();
        let n = self.inner.len();
        let mut out: Vec<&T> = Vec::new();
        let mut i: usize = 0;
        assert(es.take(0) =~= Seq::<(Seq<char>, T)>::empty());
        while i < n
            invariant
                n == self.inner@.len(),
                es == self.entries(),
                p@ == lowercase(prefix@),
                i <= n,
                out@.map_values(|x: &T| *x) == with_prefix(es.take(i as int), p@),
            decreases n - i,
        {
            let e = &self.inner[i];
            proof {
                assert(es.take(i + 1).drop_last() =~= es.take(i as int));
                assert(es.take(i + 1).last() == (e.0@, e.1));
            }
            if crate::text::starts_with_str(e.0.as_str(), p.as_str()) {
                let ghost prev = out@;
                out.push(&e.1);
                proof {
                    assert(out@.map_values(|x: &T| *x) =~= prev.map_values(|x: &T| *x).push(e.1));
                }
            }
            i = i + 1;
        }
        assert(es.take(n as int) =~= es);
        out
    }

    pub fn len(&self) -> (r: usize)
        ensures
            r == self.entries().len(),
    {
        self.inner.len()
    }

    pub fn is_empty(&self) -> (r: bool)
        ensures
            r == (self.entries().len() == 0),
    {
        self.inner.len() == 0
    }
}

// ---------------------------------------------------------------------------
// Entries seen through their items' models
// ---------------------------------------------------------------------------

pub open spec fn map_entries<T, U>(es: Seq<(Seq<char>, T)>, f: spec_fn(T) -> U) -> Seq<(Seq<char>, U)> {
    es.map_values(|e: (Seq<char>, T)| (e.0, f(e.1)))
}

proof fn lemma_key_index_map<T, U>(es: Seq<(Seq<char>, T)>, f: spec_fn(T) -> U, k: Seq<char>)
    ensures
        key_index(map_entries(es, f), k) == key_index(es, k),
    decreases es.len(),
{
    if es.len() > 0 {
        assert(map_entries(es, f).drop_last() =~= map_entries(es.drop_last(), f));
        lemma_key_index_map(es.drop_last(), f, k);
    }
}

proof fn lemma_insert_pos_map<T, U>(es: Seq<(Seq<char>, T)>, f: spec_fn(T) -> U, k: Seq<char>, j: int)
    ensures
        insert_pos(map_entries(es, f), k, j) == insert_pos(es, k, j),
    decreases es.len() - j,
{
    if 0 <= j < es.len() && key_lt(es[j].0, k) {
        lemma_insert_pos_map(es, f, k, j + 1);
    }
}

proof fn lemma_hash_build_map<T, U>(ks: Seq<Seq<char>>, vs: Seq<T>, f: spec_fn(T) -> U, n: int)
    requires
        n <= vs.len(),
    ensures
        map_entries(hash_build(ks, vs, n), f) == hash_build(ks, vs.map_values(f), n),
    decreases n,
{
    if n > 0 {
        lemma_hash_build_map(ks, vs, f, n - 1);
        let es = hash_build(ks, vs, n - 1);
        lemma_key_index_map(es, f, ks[n - 1]);
        lemma_key_index_range(es, ks[n - 1]);
        assert(map_entries(hash_insert(es, ks[n - 1], vs[n - 1]), f) =~= hash_insert(
            map_entries(es, f),
            ks[n - 1],
            f(vs[n - 1]),
        ));
    }
}

proof fn lemma_sorted_build_map<T, U>(ks: Seq<Seq<char>>, vs: Seq<T>, f: spec_fn(T) -> U, n: int)
    requires
        n <= vs.len(),
    ensures
        map_entries(sorted_build(ks, vs, n), f) == sorted_build(ks, vs.map_values(f), n),
    decreases n,
{
    if n > 0 {
        lemma_sorted_build_map(ks, vs, f, n - 1);
        let es = sorted_build(ks, vs, n - 1);
        lemma_insert_pos_map(es, f, ks[n - 1], 0);
        lemma_insert_pos(es, ks[n - 1], 0);
        assert(map_entries(sorted_insert(es, ks[n - 1], vs[n - 1]), f) =~= sorted_insert(
            map_entries(es, f),
            ks[n - 1],
            f(vs[n - 1]),
        ));
    }
}

// ---------------------------------------------------------------------------
// The search engine
// ---------------------------------------------------------------------------

/// With a key function whose result is `f` of its item, the keys are the
/// lowercase `f` of the items.
proof fn lemma_keys_fixed<T, K: Fn(&T) -> &str>(key: K, items: Seq<T>, ks: Seq<Seq<char>>, f: spec_fn(T) -> Seq<char>)
    requires
        keys_by(key, items, ks),
        forall|x: &T, s: &str| key.ensures((x,), s) ==> s@ == f(*x),
    ensures
        ks == items.map_values(|x: T| lowercase(f(x))),
{
    assert forall|i: int| 0 <= i < ks.len() implies ks[i] == lowercase(f(items[i])) by {
        assert(key_of(key, &items[i], ks[i]));
        let s = choose|s: &str| key.ensures((&items[i],), s) && ks[i] == lowercase(s@);
    }
    assert(ks =~= items.map_values(|x: T| lowercase(f(x))));
}

pub open spec fn method_keys(ms: Seq<Method>) -> Seq<Seq<char>> {
    ms.map_values(|m: Method| lowercase(m.name_ru@))
}

/// The keys of the methods by their English names.
pub open spec fn method_keys_en(ms: Seq<Method>) -> Seq<Seq<char>> {
    ms.map_values(|m: Method| lowercase(m.name_en@))
}

pub open spec fn property_keys(ps: Seq<Property>) -> Seq<Seq<char>> {
    ps.map_values(|p: Property| lowercase(p.name_ru@))
}

pub open spec fn type_keys(ts: Seq<Type>) -> Seq<Seq<char>> {
    ts.map_values(|t: Type| lowercase(t.name_ru@))
}

fn method_key(m: &Method) -> (r: &str)
    ensures
        r@ == m.name_ru@,
{
    m.name_ru.as_str()
}

fn method_key_en(m: &Method) -> (r: &str)
    ensures
        r@ == m.name_en@,
{
    m.name_en.as_str()
}

fn property_key(p: &Property) -> (r: &str)
    ensures
        r@ == p.name_ru@,
{
    p.name_ru.as_str()
}

fn type_key_name(t: &Type) -> (r: &str)
    ensures
        r@ == t.name_ru@,
{
    t.name_ru.as_str()
}

/// The search engine over a platform index.
pub struct SearchEngine {
    methods_hash: HashIndex<Method>,
    /// The global methods by their English names.
    methods_en_hash: HashIndex<Method>,
    properties_hash: HashIndex<Property>,
    types_hash: HashIndex<Type>,
    methods_prefix: StartWithIndex<Method>,
    properties_prefix: StartWithIndex<Property>,
    types_prefix: StartWithIndex<Type>,
}

impl SearchEngine {
    pub closed spec fn methods(&self) -> Seq<(Seq<char>, MethodModel)> {
        map_entries(self.methods_hash.entries(), |m: Method| m.deep_view())
    }

    pub closed spec fn methods_en(&self) -> Seq<(Seq<char>, MethodModel)> {
        map_entries(self.methods_en_hash.entries(), |m: Method| m.deep_view())
    }

    /// The method found under a name: by its Russian name, else by its
    /// English name, regardless of case.
    pub open spec fn found_method(&self, name: Seq<char>) -> Option<MethodModel> {
        match key_index(self.methods(), lowercase(name)) {
            Some(i) => Some(self.methods()[i].1),
            None => match key_index(self.methods_en(), lowercase(name)) {
                Some(i) => Some(self.methods_en()[i].1),
                None => None,
            },
        }
    }

    pub closed spec fn properties(&self) -> Seq<(Seq<char>, PropertyModel)> {
        map_entries(self.properties_hash.entries(), |p: Property| p.deep_view())
    }

    pub closed spec fn types(&self) -> Seq<(Seq<char>, TypeModel)> {
        map_entries(self.types_hash.entries(), |t: Type| t.deep_view())
    }

    pub closed spec fn methods_by_name(&self) -> Seq<(Seq<char>, MethodModel)> {
        map_entries(self.methods_prefix.entries(), |m: Method| m.deep_view())
    }

    pub closed spec fn properties_by_name(&self) -> Seq<(Seq<char>, PropertyModel)> {
        map_entries(self.properties_prefix.entries(), |p: Property| p.deep_view())
    }

    pub closed spec fn types_by_name(&self) -> Seq<(Seq<char>, TypeModel)> {
        map_entries(self.types_prefix.entries(), |t: Type| t.deep_view())
    }

    /// Whether the six indexes are those of the index's collections.
    pub open spec fn built_from(&self, index: PlatformIndex) -> bool {
        &&& self.methods() == hash_build(method_keys(index.global_methods@), index.global_methods.deep_view(), index.global_methods@.len() as int)
        &&& self.methods_en() == hash_build(method_keys_en(index.global_methods@), index.global_methods.deep_view(), index.global_methods@.len() as int)
        &&& self.properties() == hash_build(property_keys(index.global_properties@), index.global_properties.deep_view(), index.global_properties@.len() as int)
        &&& self.types() == hash_build(type_keys(index.types@), index.types.deep_view(), index.types@.len() as int)
        &&& self.methods_by_name() == sorted_build(method_keys(index.global_methods@), index.global_methods.deep_view(), index.global_methods@.len() as int)
        &&& self.properties_by_name() == sorted_build(property_keys(index.global_properties@), index.global_properties.deep_view(), index.global_properties@.len() as int)
        &&& self.types_by_name() == sorted_build(type_keys(index.types@), index.types.deep_view(), index.types@.len() as int)
    }

    /// Builds the six indexes of the global methods, the global properties
    /// and the types, each keyed by the lowercase Russian name.
    pub fn from_index(index: &PlatformIndex) -> (r: Self)
        ensures
            r.built_from(*index),
            r.methods() == hash_build(method_keys(index.global_methods@), index.global_methods.deep_view(), index.global_methods@.len() as int),
            r.methods_en() == hash_build(method_keys_en(index.global_methods@), index.global_methods.deep_view(), index.global_methods@.len() as int),
            r.properties() == hash_build(property_keys(index.global_properties@), index.global_properties.deep_view(), index.global_properties@.len() as int),
            r.types() == hash_build(type_keys(index.types@), index.types.deep_view(), index.types@.len() as int),
            r.methods_by_name() == sorted_build(method_keys(index.global_methods@), index.global_methods.deep_view(), index.global_methods@.len() as int),
            r.properties_by_name() == sorted_build(property_keys(index.global_properties@), index.global_properties.deep_view(), index.global_properties@.len() as int),
            r.types_by_name() == sorted_build(type_keys(index.types@), index.types.deep_view(), index.types@.len() as int),
    {
        let ms1 = copy_methods(&index.global_methods);
        let ghost m1 = ms1@;
        let methods_hash = HashIndex::from_iter_with(ms1, method_key);
        let ms2 = copy_methods(&index.global_methods);
        let ghost m2 = ms2@;
        let methods_prefix = StartWithIndex::from_iter_with(ms2, method_key);
        let ms3 = copy_methods(&index.global_methods);
        let ghost m3 = ms3@;
        let methods_en_hash = HashIndex::from_iter_with(ms3, method_key_en);
        let ps1 = copy_properties(&index.global_properties);
        let ghost p1 = ps1@;
        let properties_hash = HashIndex::from_iter_with(ps1, property_key);
        let ps2 = copy_properties(&index.global_properties);
        let ghost p2 = ps2@;
        let properties_prefix = StartWithIndex::from_iter_with(ps2, property_key);
        let ts1 = copy_types(&index.types);
        let ghost t1 = ts1@;
        let types_hash = HashIndex::from_iter_with(ts1, type_key_name);
        let ts2 = copy_types(&index.types);
        let ghost t2 = ts2@;
        let types_prefix = StartWithIndex::from_iter_with(ts2, type_key_name);
        proof {
            let gm = index.global_methods@;
            let gp = index.global_properties@;
            let gt = index.types@;
            let ks = choose|ks: Seq<Seq<char>>| keys_by(method_key, m1, ks) && methods_hash.entries() == hash_build(ks, m1, m1.len() as int);
            lemma_keys_fixed(method_key, m1, ks, |m: Method| m.name_ru@);
            lemma_hash_build_map(ks, m1, |m: Method| m.deep_view(), m1.len() as int);
            assert(m1.map_values(|m: Method| m.deep_view()) =~= index.global_methods.deep_view());
            assert(ks =~= method_keys(gm)) by {
                assert forall|i: int| 0 <= i < ks.len() implies ks[i] == method_keys(gm)[i] by {
                    assert(m1.map_values(|m: Method| m.deep_view())[i] == index.global_methods.deep_view()[i]);
                }
            }
            let ks = choose|ks: Seq<Seq<char>>| keys_by(method_key, m2, ks) && methods_prefix.entries() == sorted_build(ks, m2, m2.len() as int);
            lemma_keys_fixed(method_key, m2, ks, |m: Method| m.name_ru@);
            lemma_sorted_build_map(ks, m2, |m: Method| m.deep_view(), m2.len() as int);
            assert(m2.map_values(|m: Method| m.deep_view()) =~= index.global_methods.deep_view());
            assert(ks =~= method_keys(gm)) by {
                assert forall|i: int| 0 <= i < ks.len() implies ks[i] == method_keys(gm)[i] by {
                    assert(m2.map_values(|m: Method| m.deep_view())[i] == index.global_methods.deep_view()[i]);
                }
            }
            let ks = choose|ks: Seq<Seq<char>>| keys_by(method_key_en, m3, ks) && methods_en_hash.entries() == hash_build(ks, m3, m3.len() as int);
            lemma_keys_fixed(method_key_en, m3, ks, |m: Method| m.name_en@);
            lemma_hash_build_map(ks, m3, |m: Method| m.deep_view(), m3.len() as int);
            assert(m3.map_values(|m: Method| m.deep_view()) =~= index.global_methods.deep_view());
            assert(ks =~= method_keys_en(gm)) by {
                assert forall|i: int| 0 <= i < ks.len() implies ks[i] == method_keys_en(gm)[i] by {
                    assert(m3.map_values(|m: Method| m.deep_view())[i] == index.global_methods.deep_view()[i]);
                }
            }
            let ks = choose|ks: Seq<Seq<char>>| keys_by(property_key, p1, ks) && properties_hash.entries() == hash_build(ks, p1, p1.len() as int);
            lemma_keys_fixed(property_key, p1, ks, |p: Property| p.name_ru@);
            lemma_hash_build_map(ks, p1, |p: Property| p.deep_view(), p1.len() as int);
            assert(p1.map_values(|p: Property| p.deep_view()) =~= index.global_properties.deep_view());
            assert(ks =~= property_keys(gp)) by {
                assert forall|i: int| 0 <= i < ks.len() implies ks[i] == property_keys(gp)[i] by {
                    assert(p1.map_values(|p: Property| p.deep_view())[i] == index.global_properties.deep_view()[i]);
                }
            }
            let ks = choose|ks: Seq<Seq<char>>| keys_by(property_key, p2, ks) && properties_prefix.entries() == sorted_build(ks, p2, p2.len() as int);
            lemma_keys_fixed(property_key, p2, ks, |p: Property| p.name_ru@);
            lemma_sorted_build_map(ks, p2, |p: Property| p.deep_view(), p2.len() as int);
            assert(p2.map_values(|p: Property| p.deep_view()) =~= index.global_properties.deep_view());
            assert(ks =~= property_keys(gp)) by {
                assert forall|i: int| 0 <= i < ks.len() implies ks[i] == property_keys(gp)[i] by {
                    assert(p2.map_values(|p: Property| p.deep_view())[i] == index.global_properties.deep_view()[i]);
                }
            }
            let ks = choose|ks: Seq<Seq<char>>| keys_by(type_key_name, t1, ks) && types_hash.entries() == hash_build(ks, t1, t1.len() as int);
            lemma_keys_fixed(type_key_name, t1, ks, |t: Type| t.name_ru@);
            lemma_hash_build_map(ks, t1, |t: Type| t.deep_view(), t1.len() as int);
            assert(t1.map_values(|t: Type| t.deep_view()) =~= index.types.deep_view());
            assert(ks =~= type_keys(gt)) by {
                assert forall|i: int| 0 <= i < ks.len() implies ks[i] == type_keys(gt)[i] by {
                    assert(t1.map_values(|t: Type| t.deep_view())[i] == index.types.deep_view()[i]);
                }
            }
            let ks = choose|ks: Seq<Seq<char>>| keys_by(type_key_name, t2, ks) && types_prefix.entries() == sorted_build(ks, t2, t2.len() as int);
            lemma_keys_fixed(type_key_name, t2, ks, |t: Type| t.name_ru@);
            lemma_sorted_build_map(ks, t2, |t: Type| t.deep_view(), t2.len() as int);
            assert(t2.map_values(|t: Type| t.deep_view()) =~= index.types.deep_view());
            assert(ks =~= type_keys(gt)) by {
                assert forall|i: int| 0 <= i < ks.len() implies ks[i] == type_keys(gt)[i] by {
                    assert(t2.map_values(|t: Type| t.deep_view())[i] == index.types.deep_view()[i]);
                }
            }
        }
        let r = SearchEngine {
            methods_hash,
            methods_en_hash,
            properties_hash,
            types_hash,
            methods_prefix,
            properties_prefix,
            types_prefix,
        };
        r
    }
}

// ---------------------------------------------------------------------------
// Searching
// ---------------------------------------------------------------------------

/// The end of the run of non-blank characters from `i`.
pub open spec fn nonws_end(s: Seq<char>, i: int) -> int
    decreases s.len() - i,
{
    if 0 <= i < s.len() && !is_ws(s[i]) {
        nonws_end(s, i + 1)
    } else {
        i
    }
}

/// The words (runs of non-blank characters) from position `i` on.
pub open spec fn words_from(s: Seq<char>, i: int) -> Seq<Seq<char>>
    decreases s.len() - i,
{
    let j = ws_end(s, i);
    if i < 0 || j < i || j >= s.len() {
        Seq::empty()
    } else {
        let e = nonws_end(s, j);
        if e <= j || e > s.len() {
            Seq::empty()
        } else {
            seq![s.subrange(j, e)] + words_from(s, e)
        }
    }
}

/// `str::split_whitespace`.
pub open spec fn words_of(s: Seq<char>) -> Seq<Seq<char>> {
    words_from(s, 0)
}

/// The words occur in `h` in order, each after the end of the previous one,
/// from position `cursor` on.
pub open spec fn word_order(h: Seq<char>, ws: Seq<Seq<char>>, cursor: int) -> bool
    decreases ws.len(),
{
    if ws.len() == 0 {
        true
    } else {
        match first_occurrence_from(h, ws[0], cursor) {
            Some(p) => word_order(h, ws.drop_first(), p + ws[0].len()),
            None => false,
        }
    }
}

/// The words occur in order in the lowercase name.
pub open spec fn words_match(name: Seq<char>, ws: Seq<Seq<char>>) -> bool {
    word_order(lowercase(name), ws, 0)
}

/// The items of the entries that satisfy `pred`, in order.
pub open spec fn pick<T>(es: Seq<(Seq<char>, T)>, pred: spec_fn(T) -> bool) -> Seq<T>
    decreases es.len(),
{
    if es.len() == 0 {
        Seq::empty()
    } else if pred(es.last().1) {
        pick(es.drop_last(), pred).push(es.last().1)
    } else {
        pick(es.drop_last(), pred)
    }
}

/// The key by which results are told apart: kind and lowercase Russian name.
pub open spec fn def_key(d: DefinitionModel) -> Seq<char> {
    d.kind_label() + ":"@ + lowercase(d.name_ru())
}

/// A result added unless one with the same key is there already.
pub open spec fn add_unique(out: Seq<DefinitionModel>, d: DefinitionModel) -> Seq<DefinitionModel> {
    if exists|i: int| 0 <= i < out.len() && #[trigger] def_key(out[i]) == def_key(d) {
        out
    } else {
        out.push(d)
    }
}

/// Results added in order, each unless one with its key is there already.
pub open spec fn add_all(out: Seq<DefinitionModel>, ds: Seq<DefinitionModel>) -> Seq<DefinitionModel>
    decreases ds.len(),
{
    if ds.len() == 0 {
        out
    } else {
        add_unique(add_all(out, ds.drop_last()), ds.last())
    }
}

pub open spec fn as_types(ts: Seq<TypeModel>) -> Seq<DefinitionModel> {
    ts.map_values(|t: TypeModel| DefinitionModel::Type(t))
}

pub open spec fn as_methods(ms: Seq<MethodModel>) -> Seq<DefinitionModel> {
    ms.map_values(|m: MethodModel| DefinitionModel::Method(m))
}

pub open spec fn as_properties(ps: Seq<PropertyModel>) -> Seq<DefinitionModel> {
    ps.map_values(|p: PropertyModel| DefinitionModel::Property(p))
}

impl SearchEngine {
    /// Types, then methods, then properties whose name starts with `p`, each
    /// in name order.
    pub open spec fn prefix_defs(&self, p: Seq<char>) -> Seq<DefinitionModel> {
        as_types(with_prefix(self.types_by_name(), p)) + as_methods(
            with_prefix(self.methods_by_name(), p),
        ) + as_properties(with_prefix(self.properties_by_name(), p))
    }

    /// Types, then methods, then properties whose Russian or English name
    /// holds the words in order.
    pub open spec fn word_defs(&self, ws: Seq<Seq<char>>) -> Seq<DefinitionModel> {
        as_types(
            pick(
                self.types(),
                |t: TypeModel| words_match(t.name_ru, ws) || words_match(t.name_en, ws),
            ),
        ) + as_methods(
            pick(
                self.methods(),
                |m: MethodModel| words_match(m.name_ru, ws) || words_match(m.name_en, ws),
            ),
        ) + as_properties(
            pick(
                self.properties(),
                |p: PropertyModel| words_match(p.name_ru, ws) || words_match(p.name_en, ws),
            ),
        )
    }

    /// Types, then methods, then properties whose lowercase Russian or
    /// English name contains `q`.
    pub open spec fn substring_defs(&self, q: Seq<char>) -> Seq<DefinitionModel> {
        as_types(
            pick(
                self.types(),
                |t: TypeModel| contains_seq(lowercase(t.name_ru), q) || contains_seq(
                    lowercase(t.name_en),
                    q,
                ),
            ),
        ) + as_methods(
            pick(
                self.methods(),
                |m: MethodModel| contains_seq(lowercase(m.name_ru), q) || contains_seq(
                    lowercase(m.name_en),
                    q,
                ),
            ),
        ) + as_properties(
            pick(
                self.properties(),
                |p: PropertyModel| contains_seq(lowercase(p.name_ru), q) || contains_seq(
                    lowercase(p.name_en),
                    q,
                ),
            ),
        )
    }

    /// What a search gives: for the lowercase trimmed query, the prefix
    /// matches; then, for a query of several words, the names holding them in
    /// order; then, when nothing was found, the names containing the query;
    /// no two results with the same kind and name; at most `limit` results
    /// (at least 1, at most 50).
    pub open spec fn search_results(&self, query: Seq<char>, limit: int) -> Seq<DefinitionModel> {
        let q = lowercase(trim(query));
        if q.len() == 0 {
            Seq::empty()
        } else {
            let ws = words_of(q);
            let a = add_all(Seq::empty(), self.prefix_defs(lowercase(q)));
            let b = if ws.len() > 1 {
                add_all(a, self.word_defs(ws))
            } else {
                a
            };
            let c = if b.len() == 0 {
                add_all(b, self.substring_defs(q))
            } else {
                b
            };
            let cap = if limit < 1 {
                1
            } else if limit > 50 {
                50
            } else {
                limit
            };
            if c.len() > cap {
                c.take(cap)
            } else {
                c
            }
        }
    }
}

proof fn lemma_nonws_end(s: Seq<char>, i: int)
    requires
        0 <= i <= s.len(),
    ensures
        i <= nonws_end(s, i) <= s.len(),
    decreases s.len() - i,
{
    if i < s.len() && !is_ws(s[i]) {
        lemma_nonws_end(s, i + 1);
    }
}

/// `str::split_whitespace`, on characters.
fn split_words(s: &[char]) -> (r: Vec<Vec<char>>)
    ensures
        r@.map_values(|w: Vec<char>| w@) == words_of(s@),
{
    let n = s.len();
    let mut out: Vec<Vec<char>> = Vec::new();
    let mut i: usize = 0;
    assert(out@.map_values(|w: Vec<char>| w@) + words_from(s@, 0) =~= words_of(s@));
    while i < n
        invariant
            n == s@.len(),
            i <= n,
            out@.map_values(|w: Vec<char>| w@) + words_from(s@, i as int) == words_of(s@),
        decreases n - i,
    {
        let j = crate::lexis::ws_end_exec(s, i);
        if j >= n {
            assert(words_from(s@, i as int) =~= Seq::<Seq<char>>::empty());
            assert(words_from(s@, n as int) =~= Seq::<Seq<char>>::empty());
            i = n;
        } else {
            let mut e = j;
            while e < n && !crate::text::char_is_whitespace(s[e])
                invariant
                    j <= e <= n == s@.len(),
                    nonws_end(s@, j as int) == nonws_end(s@, e as int),
                decreases n - e,
            {
                e = e + 1;
            }
            proof {
                crate::lexis::lemma_ws_end_stop(s@, i as int);
                lemma_nonws_end(s@, j + 1);
                assert(!is_ws(s@[j as int]));
            }
            let w = crate::text::copy_range(s, j, e);
            let ghost prev = out@;
            out.push(w);
            proof {
                crate::seqs::lemma_map_push(prev, w, |w: Vec<char>| w@);
                assert(words_from(s@, i as int) == seq![s@.subrange(j as int, e as int)] + words_from(s@, e as int));
                assert(out@.map_values(|w: Vec<char>| w@) + words_from(s@, e as int) =~= words_of(s@));
            }
            i = e;
        }
    }
    proof {
        assert(words_from(s@, i as int) =~= Seq::<Seq<char>>::empty());
        assert(out@.map_values(|w: Vec<char>| w@) =~= words_of(s@));
    }
    out
}

fn word_order_exec(h: &[char], ws: &Vec<Vec<char>>) -> (r: bool)
    ensures
        r == word_order(h@, ws@.map_values(|w: Vec<char>| w@), 0),
{
    let ghost all = ws@.map_values(|w: Vec<char>| w@);
    let n = ws.len();
    let hn = h.len();
    let mut cursor: usize = 0;
    let mut i: usize = 0;
    assert(all.skip(0) =~= all);
    while i < n
        invariant
            n == ws@.len(),
            hn == h@.len(),
            all == ws@.map_values(|w: Vec<char>| w@),
            i <= n,
            cursor <= hn,
            word_order(h@, all, 0) == word_order(h@, all.skip(i as int), cursor as int),
        decreases n - i,
    {
        let w = &ws[i];
        proof {
            assert(all.skip(i as int)[0] == w@);
            assert(all.skip(i as int).drop_first() =~= all.skip(i + 1));
        }
        match crate::text::find_from(h, w.as_slice(), cursor) {
            Some(p) => {
                proof {
                    lemma_first_occurrence_bound(h@, w@, cursor as int);
                }
                cursor = p + w.len();
            },
            None => {
                return false;
            },
        }
        i = i + 1;
    }
    proof {
        assert(all.skip(n as int).len() == 0);
    }
    true
}

proof fn lemma_first_occurrence_bound(s: Seq<char>, t: Seq<char>, from: int)
    ensures
        first_occurrence_from(s, t, from) matches Some(p) ==> from <= p && p + t.len() <= s.len(),
    decreases s.len() + 1 - from,
{
    if from >= 0 && from + t.len() <= s.len() && !crate::text::occurs_at(s, t, from) {
        lemma_first_occurrence_bound(s, t, from + 1);
    }
}

proof fn lemma_add_all_concat(out: Seq<DefinitionModel>, a: Seq<DefinitionModel>, b: Seq<DefinitionModel>)
    ensures
        add_all(out, a + b) == add_all(add_all(out, a), b),
    decreases b.len(),
{
    if b.len() > 0 {
        assert((a + b).drop_last() =~= a + b.drop_last());
        assert((a + b).last() == b.last());
        lemma_add_all_concat(out, a, b.drop_last());
    } else {
        assert(a + b =~= a);
    }
}

/// Adds a result unless one with its key is there; `seen` holds the keys of
/// the results.
fn push_unique(out: &mut Vec<Definition>, seen: &mut Vec<String>, def: Definition)
    requires
        old(seen)@.map_values(|k: String| k@) == old(out).deep_view().map_values(|d: DefinitionModel| def_key(d)),
    ensures
        final(out).deep_view() == add_unique(old(out).deep_view(), def.deep_view()),
        final(seen)@.map_values(|k: String| k@) == final(out).deep_view().map_values(|d: DefinitionModel| def_key(d)),
{
    let mut key = String::new();
    crate::text::push_str(&mut key, def.kind_label());
    crate::text::push_str(&mut key, ":");
    let lname = to_lowercase(def.name_ru());
    crate::text::push_str(&mut key, lname.as_str());
    let ghost kk = key@;
    assert(kk == def_key(def.deep_view()));
    let ghost keys = seen@.map_values(|k: String| k@);
    let n = seen.len();
    let mut i: usize = 0;
    while i < n
        invariant
            n == seen@.len(),
            keys == seen@.map_values(|k: String| k@),
            keys == out.deep_view().map_values(|d: DefinitionModel| def_key(d)),
            kk == key@,
            kk == def_key(def.deep_view()),
            i <= n,
            forall|j: int| 0 <= j < i ==> keys[j] != kk,
        decreases n - i,
    {
        proof {
            assert(keys[i as int] == seen@[i as int]@);
            assert(keys.len() == out.deep_view().len());
            assert(out.deep_view().map_values(|d: DefinitionModel| def_key(d))[i as int] == def_key(out.deep_view()[i as int]));
        }
        if crate::text::str_eq(seen[i].as_str(), key.as_str()) {
            proof {
                assert(keys[i as int] == kk);
                assert(def_key(out.deep_view()[i as int]) == def_key(def.deep_view()));
            }
            return;
        }
        i = i + 1;
    }
    proof {
        assert forall|j: int| 0 <= j < out.deep_view().len() implies def_key(#[trigger] out.deep_view()[j]) != def_key(def.deep_view()) by {
            assert(keys.len() == out.deep_view().len());
            assert(keys[j] == def_key(out.deep_view()[j]));
        }
    }
    let ghost before_out = *out;
    let ghost before_seen = seen@;
    out.push(def);
    seen.push(key);
    proof {
        crate::seqs::lemma_deep_view_push(before_out, *out, def);
        crate::seqs::lemma_map_push(before_seen, key, |k: String| k@);
        crate::seqs::lemma_map_push(before_out.deep_view(), def.deep_view(), |d: DefinitionModel| def_key(d));
    }
}

/// Adds the results in order with `push_unique`.
fn push_all(out: &mut Vec<Definition>, seen: &mut Vec<String>, ds: Vec<Definition>)
    requires
        old(seen)@.map_values(|k: String| k@) == old(out).deep_view().map_values(|d: DefinitionModel| def_key(d)),
    ensures
        final(out).deep_view() == add_all(old(out).deep_view(), ds.deep_view()),
        final(seen)@.map_values(|k: String| k@) == final(out).deep_view().map_values(|d: DefinitionModel| def_key(d)),
{
    let ghost start = out.deep_view();
    let ghost all = ds.deep_view();
    let ghost mut k: int = 0;
    assert(all.take(0) =~= Seq::<DefinitionModel>::empty());
    for d in iter: ds
        invariant
            all.len() == iter.seq().len(),
            forall|j: int| 0 <= j < all.len() ==> #[trigger] all[j] == iter.seq()[j].deep_view(),
            seen@.map_values(|k: String| k@) == out.deep_view().map_values(|d: DefinitionModel| def_key(d)),
            out.deep_view() == add_all(start, all.take(iter.index() as int)),
    {
        let ghost idx = iter.index();
        proof {
            assert(all.take(idx + 1).drop_last() =~= all.take(idx));
            assert(all.take(idx + 1).last() == d.deep_view());
        }
        push_unique(out, seen, d);
    }
    proof {
        assert(all.take(all.len() as int) =~= all);
    }
}

proof fn lemma_pick_step<T>(es: Seq<(Seq<char>, T)>, pred: spec_fn(T) -> bool, i: int)
    requires
        0 <= i < es.len(),
    ensures
        pick(es.take(i + 1), pred) == if pred(es[i].1) {
            pick(es.take(i), pred).push(es[i].1)
        } else {
            pick(es.take(i), pred)
        },
{
    assert(es.take(i + 1).drop_last() =~= es.take(i));
}

proof fn lemma_with_prefix_map<T, U>(es: Seq<(Seq<char>, T)>, p: Seq<char>, f: spec_fn(T) -> U)
    ensures
        with_prefix(map_entries(es, f), p) == with_prefix(es, p).map_values(f),
    decreases es.len(),
{
    if es.len() > 0 {
        assert(map_entries(es, f).drop_last() =~= map_entries(es.drop_last(), f));
        lemma_with_prefix_map(es.drop_last(), p, f);
        assert(with_prefix(es.drop_last(), p).push(es.last().1).map_values(f) =~= with_prefix(es.drop_last(), p).map_values(f).push(f(es.last().1)));
    } else {
        assert(with_prefix(es, p).map_values(f) =~= Seq::<U>::empty());
    }
}

/// Whether the words occur in order in the lowercase name.
fn words_match_exec(name: &str, ws: &Vec<Vec<char>>) -> (r: bool)
    ensures
        r == words_match(name@, ws@.map_values(|w: Vec<char>| w@)),
{
    let l = to_lowercase(name);
    let cs = crate::text::chars_of(l.as_str());
    word_order_exec(cs.as_slice(), ws)
}

/// Whether the lowercase name contains `q`.
fn name_contains(name: &str, q: &str) -> (r: bool)
    ensures
        r == contains_seq(lowercase(name@), q@),
{
    let l = to_lowercase(name);
    crate::text::contains_str(l.as_str(), q)
}

impl SearchEngine {
    fn prefix_types(&self, p: &str) -> (r: Vec<Definition>)
        ensures
            r.deep_view() == as_types(with_prefix(self.types_by_name(), lowercase(p@))),
    {
        let found = self.types_prefix.starts_with(p);
        let ghost want = with_prefix(self.types_prefix.entries(), lowercase(p@));
        proof {
            lemma_with_prefix_map(self.types_prefix.entries(), lowercase(p@), |x: Type| x.deep_view());
        }
        let mut out: Vec<Definition> = Vec::new();
        let n = found.len();
        let mut i: usize = 0;
        while i < n
            invariant
                n == found@.len(),
                found@.map_values(|x: &Type| *x) == want,
                i <= n,
                out.deep_view() == as_types(want.take(i as int).map_values(|x: Type| x.deep_view())),
            decreases n - i,
        {
            let d = Definition::Type(found[i].copy());
            let ghost before = out;
            out.push(d);
            proof {
                crate::seqs::lemma_deep_view_push(before, out, d);
                assert(want[i as int] == *found@[i as int]);
                assert(out.deep_view() =~= as_types(want.take(i + 1).map_values(|x: Type| x.deep_view())));
            }
            i = i + 1;
        }
        proof {
            assert(want.take(n as int) =~= want);
        }
        out
    }

    fn words_types(&self, ws: &Vec<Vec<char>>) -> (r: Vec<Definition>)
        ensures
            r.deep_view() == as_types(pick(self.types(), |t: TypeModel| words_match(t.name_ru, ws@.map_values(|w: Vec<char>| w@)) || words_match(t.name_en, ws@.map_values(|w: Vec<char>| w@)))),
    {
        let ghost wsv = ws@.map_values(|w: Vec<char>| w@);
        let ghost pred = |t: TypeModel| words_match(t.name_ru, ws@.map_values(|w: Vec<char>| w@)) || words_match(t.name_en, ws@.map_values(|w: Vec<char>| w@));
        let ghost es = self.types();
        let mut out: Vec<Definition> = Vec::new();
        let n = self.types_hash.inner.len();
        let mut i: usize = 0;
        assert(es.take(0) =~= Seq::<(Seq<char>, TypeModel)>::empty());
        while i < n
            invariant
                n == self.types_hash.inner@.len(),
                es == self.types(),
                es.len() == n,
                wsv == ws@.map_values(|w: Vec<char>| w@),
                pred == (|t: TypeModel| words_match(t.name_ru, ws@.map_values(|w: Vec<char>| w@)) || words_match(t.name_en, ws@.map_values(|w: Vec<char>| w@))),
                i <= n,
                out.deep_view() == as_types(pick(es.take(i as int), pred)),
            decreases n - i,
        {
            let x = &self.types_hash.inner[i].1;
            proof {
                assert(es[i as int].1 == x.deep_view());
                lemma_pick_step(es, pred, i as int);
            }
            if words_match_exec(x.name_ru.as_str(), ws) || words_match_exec(x.name_en.as_str(), ws) {
                let d = Definition::Type(x.copy());
                let ghost before = out;
                out.push(d);
                proof {
                    crate::seqs::lemma_deep_view_push(before, out, d);
                    assert(out.deep_view() =~= as_types(pick(es.take(i + 1), pred)));
                }
            }
            i = i + 1;
        }
        proof {
            assert(es.take(n as int) =~= es);
        }
        out
    }

    fn substring_types(&self, q: &str) -> (r: Vec<Definition>)
        ensures
            r.deep_view() == as_types(pick(self.types(), |t: TypeModel| contains_seq(lowercase(t.name_ru), q@) || contains_seq(lowercase(t.name_en), q@))),
    {
        let ghost pred = |t: TypeModel| contains_seq(lowercase(t.name_ru), q@) || contains_seq(lowercase(t.name_en), q@);
        let ghost es = self.types();
        let mut out: Vec<Definition> = Vec::new();
        let n = self.types_hash.inner.len();
        let mut i: usize = 0;
        assert(es.take(0) =~= Seq::<(Seq<char>, TypeModel)>::empty());
        while i < n
            invariant
                n == self.types_hash.inner@.len(),
                es == self.types(),
                es.len() == n,
                pred == (|t: TypeModel| contains_seq(lowercase(t.name_ru), q@) || contains_seq(lowercase(t.name_en), q@)),
                i <= n,
                out.deep_view() == as_types(pick(es.take(i as int), pred)),
            decreases n - i,
        {
            let x = &self.types_hash.inner[i].1;
            proof {
                assert(es[i as int].1 == x.deep_view());
                lemma_pick_step(es, pred, i as int);
            }
            if name_contains(x.name_ru.as_str(), q) || name_contains(x.name_en.as_str(), q) {
                let d = Definition::Type(x.copy());
                let ghost before = out;
                out.push(d);
                proof {
                    crate::seqs::lemma_deep_view_push(before, out, d);
                    assert(out.deep_view() =~= as_types(pick(es.take(i + 1), pred)));
                }
            }
            i = i + 1;
        }
        proof {
            assert(es.take(n as int) =~= es);
        }
        out
    }

    fn prefix_methods(&self, p: &str) -> (r: Vec<Definition>)
        ensures
            r.deep_view() == as_methods(with_prefix(self.methods_by_name(), lowercase(p@))),
    {
        let found = self.methods_prefix.starts_with(p);
        let ghost want = with_prefix(self.methods_prefix.entries(), lowercase(p@));
        proof {
            lemma_with_prefix_map(self.methods_prefix.entries(), lowercase(p@), |x: Method| x.deep_view());
        }
        let mut out: Vec<Definition> = Vec::new();
        let n = found.len();
        let mut i: usize = 0;
        while i < n
            invariant
                n == found@.len(),
                found@.map_values(|x: &Method| *x) == want,
                i <= n,
                out.deep_view() == as_methods(want.take(i as int).map_values(|x: Method| x.deep_view())),
            decreases n - i,
        {
            let d = Definition::Method(found[i].copy());
            let ghost before = out;
            out.push(d);
            proof {
                crate::seqs::lemma_deep_view_push(before, out, d);
                assert(want[i as int] == *found@[i as int]);
                assert(out.deep_view() =~= as_methods(want.take(i + 1).map_values(|x: Method| x.deep_view())));
            }
            i = i + 1;
        }
        proof {
            assert(want.take(n as int) =~= want);
        }
        out
    }

    fn words_methods(&self, ws: &Vec<Vec<char>>) -> (r: Vec<Definition>)
        ensures
            r.deep_view() == as_methods(pick(self.methods(), |m: MethodModel| words_match(m.name_ru, ws@.map_values(|w: Vec<char>| w@)) || words_match(m.name_en, ws@.map_values(|w: Vec<char>| w@)))),
    {
        let ghost wsv = ws@.map_values(|w: Vec<char>| w@);
        let ghost pred = |m: MethodModel| words_match(m.name_ru, ws@.map_values(|w: Vec<char>| w@)) || words_match(m.name_en, ws@.map_values(|w: Vec<char>| w@));
        let ghost es = self.methods();
        let mut out: Vec<Definition> = Vec::new();
        let n = self.methods_hash.inner.len();
        let mut i: usize = 0;
        assert(es.take(0) =~= Seq::<(Seq<char>, MethodModel)>::empty());
        while i < n
            invariant
                n == self.methods_hash.inner@.len(),
                es == self.methods(),
                es.len() == n,
                wsv == ws@.map_values(|w: Vec<char>| w@),
                pred == (|m: MethodModel| words_match(m.name_ru, ws@.map_values(|w: Vec<char>| w@)) || words_match(m.name_en, ws@.map_values(|w: Vec<char>| w@))),
                i <= n,
                out.deep_view() == as_methods(pick(es.take(i as int), pred)),
            decreases n - i,
        {
            let x = &self.methods_hash.inner[i].1;
            proof {
                assert(es[i as int].1 == x.deep_view());
                lemma_pick_step(es, pred, i as int);
            }
            if words_match_exec(x.name_ru.as_str(), ws) || words_match_exec(x.name_en.as_str(), ws) {
                let d = Definition::Method(x.copy());
                let ghost before = out;
                out.push(d);
                proof {
                    crate::seqs::lemma_deep_view_push(before, out, d);
                    assert(out.deep_view() =~= as_methods(pick(es.take(i + 1), pred)));
                }
            }
            i = i + 1;
        }
        proof {
            assert(es.take(n as int) =~= es);
        }
        out
    }

    fn substring_methods(&self, q: &str) -> (r: Vec<Definition>)
        ensures
            r.deep_view() == as_methods(pick(self.methods(), |m: MethodModel| contains_seq(lowercase(m.name_ru), q@) || contains_seq(lowercase(m.name_en), q@))),
    {
        let ghost pred = |m: MethodModel| contains_seq(lowercase(m.name_ru), q@) || contains_seq(lowercase(m.name_en), q@);
        let ghost es = self.methods();
        let mut out: Vec<Definition> = Vec::new();
        let n = self.methods_hash.inner.len();
        let mut i: usize = 0;
        assert(es.take(0) =~= Seq::<(Seq<char>, MethodModel)>::empty());
        while i < n
            invariant
                n == self.methods_hash.inner@.len(),
                es == self.methods(),
                es.len() == n,
                pred == (|m: MethodModel| contains_seq(lowercase(m.name_ru), q@) || contains_seq(lowercase(m.name_en), q@)),
                i <= n,
                out.deep_view() == as_methods(pick(es.take(i as int), pred)),
            decreases n - i,
        {
            let x = &self.methods_hash.inner[i].1;
            proof {
                assert(es[i as int].1 == x.deep_view());
                lemma_pick_step(es, pred, i as int);
            }
            if name_contains(x.name_ru.as_str(), q) || name_contains(x.name_en.as_str(), q) {
                let d = Definition::Method(x.copy());
                let ghost before = out;
                out.push(d);
                proof {
                    crate::seqs::lemma_deep_view_push(before, out, d);
                    assert(out.deep_view() =~= as_methods(pick(es.take(i + 1), pred)));
                }
            }
            i = i + 1;
        }
        proof {
            assert(es.take(n as int) =~= es);
        }
        out
    }

    fn prefix_properties(&self, p: &str) -> (r: Vec<Definition>)
        ensures
            r.deep_view() == as_properties(with_prefix(self.properties_by_name(), lowercase(p@))),
    {
        let found = self.properties_prefix.starts_with(p);
        let ghost want = with_prefix(self.properties_prefix.entries(), lowercase(p@));
        proof {
            lemma_with_prefix_map(self.properties_prefix.entries(), lowercase(p@), |x: Property| x.deep_view());
        }
        let mut out: Vec<Definition> = Vec::new();
        let n = found.len();
        let mut i: usize = 0;
        while i < n
            invariant
                n == found@.len(),
                found@.map_values(|x: &Property| *x) == want,
                i <= n,
                out.deep_view() == as_properties(want.take(i as int).map_values(|x: Property| x.deep_view())),
            decreases n - i,
        {
            let d = Definition::Property(found[i].copy());
            let ghost before = out;
            out.push(d);
            proof {
                crate::seqs::lemma_deep_view_push(before, out, d);
                assert(want[i as int] == *found@[i as int]);
                assert(out.deep_view() =~= as_properties(want.take(i + 1).map_values(|x: Property| x.deep_view())));
            }
            i = i + 1;
        }
        proof {
            assert(want.take(n as int) =~= want);
        }
        out
    }

    fn words_properties(&self, ws: &Vec<Vec<char>>) -> (r: Vec<Definition>)
        ensures
            r.deep_view() == as_properties(pick(self.properties(), |p: PropertyModel| words_match(p.name_ru, ws@.map_values(|w: Vec<char>| w@)) || words_match(p.name_en, ws@.map_values(|w: Vec<char>| w@)))),
    {
        let ghost wsv = ws@.map_values(|w: Vec<char>| w@);
        let ghost pred = |p: PropertyModel| words_match(p.name_ru, ws@.map_values(|w: Vec<char>| w@)) || words_match(p.name_en, ws@.map_values(|w: Vec<char>| w@));
        let ghost es = self.properties();
        let mut out: Vec<Definition> = Vec::new();
        let n = self.properties_hash.inner.len();
        let mut i: usize = 0;
        assert(es.take(0) =~= Seq::<(Seq<char>, PropertyModel)>::empty());
        while i < n
            invariant
                n == self.properties_hash.inner@.len(),
                es == self.properties(),
                es.len() == n,
                wsv == ws@.map_values(|w: Vec<char>| w@),
                pred == (|p: PropertyModel| words_match(p.name_ru, ws@.map_values(|w: Vec<char>| w@)) || words_match(p.name_en, ws@.map_values(|w: Vec<char>| w@))),
                i <= n,
                out.deep_view() == as_properties(pick(es.take(i as int), pred)),
            decreases n - i,
        {
            let x = &self.properties_hash.inner[i].1;
            proof {
                assert(es[i as int].1 == x.deep_view());
                lemma_pick_step(es, pred, i as int);
            }
            if words_match_exec(x.name_ru.as_str(), ws) || words_match_exec(x.name_en.as_str(), ws) {
                let d = Definition::Property(x.copy());
                let ghost before = out;
                out.push(d);
                proof {
                    crate::seqs::lemma_deep_view_push(before, out, d);
                    assert(out.deep_view() =~= as_properties(pick(es.take(i + 1), pred)));
                }
            }
            i = i + 1;
        }
        proof {
            assert(es.take(n as int) =~= es);
        }
        out
    }

    fn substring_properties(&self, q: &str) -> (r: Vec<Definition>)
        ensures
            r.deep_view() == as_properties(pick(self.properties(), |p: PropertyModel| contains_seq(lowercase(p.name_ru), q@) || contains_seq(lowercase(p.name_en), q@))),
    {
        let ghost pred = |p: PropertyModel| contains_seq(lowercase(p.name_ru), q@) || contains_seq(lowercase(p.name_en), q@);
        let ghost es = self.properties();
        let mut out: Vec<Definition> = Vec::new();
        let n = self.properties_hash.inner.len();
        let mut i: usize = 0;
        assert(es.take(0) =~= Seq::<(Seq<char>, PropertyModel)>::empty());
        while i < n
            invariant
                n == self.properties_hash.inner@.len(),
                es == self.properties(),
                es.len() == n,
                pred == (|p: PropertyModel| contains_seq(lowercase(p.name_ru), q@) || contains_seq(lowercase(p.name_en), q@)),
                i <= n,
                out.deep_view() == as_properties(pick(es.take(i as int), pred)),
            decreases n - i,
        {
            let x = &self.properties_hash.inner[i].1;
            proof {
                assert(es[i as int].1 == x.deep_view());
                lemma_pick_step(es, pred, i as int);
            }
            if name_contains(x.name_ru.as_str(), q) || name_contains(x.name_en.as_str(), q) {
                let d = Definition::Property(x.copy());
                let ghost before = out;
                out.push(d);
                proof {
                    crate::seqs::lemma_deep_view_push(before, out, d);
                    assert(out.deep_view() =~= as_properties(pick(es.take(i + 1), pred)));
                }
            }
            i = i + 1;
        }
        proof {
            assert(es.take(n as int) =~= es);
        }
        out
    }

}

impl SearchEngine {
    /// Exact lookup of a global method by either of its names (Russian
    /// first, then English), regardless of case.
    pub fn find_method(&self, name: &str) -> (r: Option<&Method>)
        ensures
            match self.found_method(name@) {
                Some(m) => r matches Some(x) && x.deep_view() == m,
                None => r is None,
            },
    {
        proof {
            lemma_key_index_map(self.methods_hash.entries(), |m: Method| m.deep_view(), lowercase(name@));
            lemma_key_index_range(self.methods_hash.entries(), lowercase(name@));
            lemma_key_index_map(self.methods_en_hash.entries(), |m: Method| m.deep_view(), lowercase(name@));
            lemma_key_index_range(self.methods_en_hash.entries(), lowercase(name@));
        }
        match self.methods_hash.get(name) {
            Some(m) => Some(m),
            None => self.methods_en_hash.get(name),
        }
    }

    /// Exact lookup of a global property by name, regardless of case.
    pub fn find_property(&self, name: &str) -> (r: Option<&Property>)
        ensures
            match key_index(self.properties(), lowercase(name@)) {
                Some(i) => r matches Some(p) && p.deep_view() == self.properties()[i].1,
                None => r is None,
            },
    {
        proof {
            lemma_key_index_map(self.properties_hash.entries(), |p: Property| p.deep_view(), lowercase(name@));
            lemma_key_index_range(self.properties_hash.entries(), lowercase(name@));
        }
        self.properties_hash.get(name)
    }

    /// Exact lookup of a type by name, regardless of case.
    pub fn find_type(&self, name: &str) -> (r: Option<&Type>)
        ensures
            match key_index(self.types(), lowercase(name@)) {
                Some(i) => r matches Some(t) && t.deep_view() == self.types()[i].1,
                None => r is None,
            },
    {
        proof {
            lemma_key_index_map(self.types_hash.entries(), |t: Type| t.deep_view(), lowercase(name@));
            lemma_key_index_range(self.types_hash.entries(), lowercase(name@));
        }
        self.types_hash.get(name)
    }

    /// A member of a type by exact name, regardless of case: the first
    /// method of that Russian name, else the first property.
    pub fn find_type_member(&self, ty: &Type, name: &str) -> (r: Option<Definition>)
        ensures
            match first_method_named(ty.methods@, name@) {
                Some(m) => r matches Some(d) && d.deep_view() == DefinitionModel::Method(m.deep_view()),
                None => match first_property_named(ty.properties@, name@) {
                    Some(p) => r matches Some(d) && d.deep_view() == DefinitionModel::Property(p.deep_view()),
                    None => r is None,
                },
            },
    {
        match crate::storage::find_method_named(&ty.methods, name) {
            Some(m) => Some(Definition::Method(m.copy())),
            None => match crate::storage::find_property_named(&ty.properties, name) {
                Some(p) => Some(Definition::Property(p.copy())),
                None => None,
            },
        }
    }

    /// The search: prefix matches; for a query of several words, the names
    /// holding them in order; when nothing was found, the names containing
    /// the query; without repeats; at most `limit` results (1 to 50).
    pub fn search(&self, query: &str, limit: usize) -> (r: Vec<Definition>)
        ensures
            r.deep_view() == self.search_results(query@, limit as int),
    {
        let tq = crate::text::trim_string(query);
        let q = to_lowercase(tq.as_str());
        if q.as_str().is_empty() {
            return Vec::new();
        }
        let mut out: Vec<Definition> = Vec::new();
        let mut seen: Vec<String> = Vec::new();
        proof {
            assert(out.deep_view() =~= Seq::<DefinitionModel>::empty());
            assert(seen@.map_values(|k: String| k@) =~= out.deep_view().map_values(|d: DefinitionModel| def_key(d)));
        }
        let a1 = self.prefix_types(q.as_str());
        let a2 = self.prefix_methods(q.as_str());
        let a3 = self.prefix_properties(q.as_str());
        let ghost d1 = a1.deep_view();
        let ghost d2 = a2.deep_view();
        let ghost d3 = a3.deep_view();
        push_all(&mut out, &mut seen, a1);
        push_all(&mut out, &mut seen, a2);
        push_all(&mut out, &mut seen, a3);
        proof {
            lemma_add_all_concat(Seq::empty(), d1, d2);
            lemma_add_all_concat(Seq::empty(), d1 + d2, d3);
            assert(out.deep_view() == add_all(Seq::empty(), self.prefix_defs(lowercase(q@))));
        }
        let ghost a = out.deep_view();
        let qc = crate::text::chars_of(q.as_str());
        let words = split_words(qc.as_slice());
        if words.len() > 1 {
            let b1 = self.words_types(&words);
            let b2 = self.words_methods(&words);
            let b3 = self.words_properties(&words);
            push_all(&mut out, &mut seen, b1);
            push_all(&mut out, &mut seen, b2);
            push_all(&mut out, &mut seen, b3);
            proof {
                lemma_add_all_concat(a, b1.deep_view(), b2.deep_view());
                lemma_add_all_concat(a, b1.deep_view() + b2.deep_view(), b3.deep_view());
                assert(out.deep_view() == add_all(a, self.word_defs(words_of(q@))));
            }
        }
        let ghost b = out.deep_view();
        if out.len() == 0 {
            let c1 = self.substring_types(q.as_str());
            let c2 = self.substring_methods(q.as_str());
            let c3 = self.substring_properties(q.as_str());
            push_all(&mut out, &mut seen, c1);
            push_all(&mut out, &mut seen, c2);
            push_all(&mut out, &mut seen, c3);
            proof {
                lemma_add_all_concat(b, c1.deep_view(), c2.deep_view());
                lemma_add_all_concat(b, c1.deep_view() + c2.deep_view(), c3.deep_view());
                assert(out.deep_view() == add_all(b, self.substring_defs(q@)));
            }
        }
        let cap: usize = if limit < 1 {
            1
        } else if limit > 50 {
            50
        } else {
            limit
        };
        let ghost before = out;
        out.truncate(cap);
        proof {
            if before@.len() > cap {
                assert(out.deep_view() =~= before.deep_view().take(cap as int));
            } else {
                assert(out.deep_view() =~= before.deep_view());
            }
        }
        out
    }
}

} // verus!
