//! Properties of the library as a whole, each proved over the models that the
//! functions' own contracts use.
use vstd::prelude::*;

use crate::check::{any_fits, briefs_of, enum_answer, has_value, method_call_answer};
use crate::entities::{Method, Property, Type};
use crate::expression::{
    dot_error, dot_matches, findings, somes, expression_findings, keep_high, mask_from, masked, profile_findings, spaces, Confidence,
    ExprErrorModel, Profile,
};
use crate::hbk_models::PageModel;
use crate::html::{chapters_of_nodes, is_chapter_marker, BodyNodeModel};
use crate::lexis::{byte_len, lemma_byte_len_add, utf8_width};
use crate::storage::{first_method_named, first_property_named, same_name, type_key, PlatformIndex};
use crate::text::{collapse_ws, is_ws, lowercase};
use crate::visitor::{is_catalog_path, leaves_among, leaves_under};
use crate::entities::DefinitionModel;
use crate::pages::{method_fields, variant_marker};
use crate::search::{
    hash_build, hash_insert, key_index, lemma_key_index_range, method_keys, property_keys, type_keys,
    add_all, def_key, insert_pos, key_lt, lemma_bytes_lt_irrefl, lemma_insert_pos, lemma_sorted_build, sorted_build,
    sorted_insert, sorted_keys, SearchEngine,
};
use vstd::utf8::encode_utf8;
use crate::server::found_type;
use crate::content::entry_name;
use crate::check::{brief_model, fits, required_count};
use crate::expression::{has_enum_value, value_named};
use crate::entities::{MethodModel, ParameterModel, PropertyModel, SignatureModel, TypeModel};
use crate::expression::{has_member, left_blocked, method_named, property_named, resolve_head, ExprErrorKind};
use crate::format::property_text;
use crate::page_models::ObjectInfoModel;
use crate::scope::ScopeModel;
use crate::search::pick;
use crate::text::{contains_seq, trim};
use crate::visitor::{constructors_among, label_of, methods_among, page_text, path_has, properties_among, type_members};

verus! {

// ---------------------------------------------------------------------------
// The index
// ---------------------------------------------------------------------------

/// After a type is inserted, looking it up under any spelling of its Russian
/// name (regardless of case) gives that type.
pub proof fn law_insert_then_find(before: PlatformIndex, after: PlatformIndex, ty: Type, name: Seq<char>)
    requires
        before.wf(),
        after.wf(),
        after.type_seq() == before.with_type(ty),
        lowercase(name) == type_key(ty),
    ensures
        after.lookup_type(name) == Some(ty),
{
    let k = type_key(ty);
    let pos = if before.has_key(k) {
        before.index_of_key(k)
    } else {
        before.type_seq().len() as int
    };
    assert(0 <= pos < after.types@.len());
    assert(after.types@[pos] == ty);
    after.lemma_index_of_key(pos);
}

/// Inserting a type leaves the lookup of every other key as it was.
pub proof fn law_insert_keeps_others(before: PlatformIndex, after: PlatformIndex, ty: Type, name: Seq<char>)
    requires
        before.wf(),
        after.wf(),
        after.type_seq() == before.with_type(ty),
        lowercase(name) != type_key(ty),
    ensures
        after.lookup_type(name) == before.lookup_type(name),
{
    let k = lowercase(name);
    let b = before.type_seq();
    let a = after.type_seq();
    assert forall|i: int| 0 <= i < b.len() && type_key(#[trigger] b[i]) == k implies a[i] == b[i] by {
        if before.has_key(type_key(ty)) {
            let j = before.index_of_key(type_key(ty));
            assert(type_key(b[j]) == type_key(ty));
        }
    }
    if before.has_key(k) {
        let i = before.index_of_key(k);
        before.lemma_index_of_key(i);
        assert(a[i] == b[i]);
        after.lemma_index_of_key(i);
    } else {
        if after.has_key(k) {
            let i = after.index_of_key(k);
            assert(type_key(a[i]) == k);
            if i < b.len() {
                if before.has_key(type_key(ty)) && i == before.index_of_key(type_key(ty)) {
                    assert(a[i] == ty);
                } else {
                    assert(a[i] == b[i]);
                }
            } else {
                assert(a[i] == ty);
            }
        }
    }
}

/// Types are found regardless of case: two names with the same lowercase
/// form find the same type.
pub proof fn law_lookup_ignores_case(idx: PlatformIndex, a: Seq<char>, b: Seq<char>)
    requires
        lowercase(a) == lowercase(b),
    ensures
        idx.lookup_type(a) == idx.lookup_type(b),
{
}

/// The search engine finds types regardless of case.
pub proof fn law_engine_lookup_ignores_case(e: SearchEngine, a: Seq<char>, b: Seq<char>)
    requires
        lowercase(a) == lowercase(b),
    ensures
        found_type(e, a) == found_type(e, b),
{
}

/// A page path is looked up in the archive with or without its leading '/'.
pub proof fn law_leading_slash_ignored(p: Seq<char>)
    requires
        p.len() == 0 || p[0] != '/',
    ensures
        entry_name(seq!['/'] + p) == entry_name(p),
{
    assert((seq!['/'] + p).drop_first() =~= p);
}

// ---------------------------------------------------------------------------
// Validation
// ---------------------------------------------------------------------------

proof fn lemma_keep_high(es: Seq<ExprErrorModel>)
    ensures
        forall|i: int| 0 <= i < keep_high(es).len() ==> (#[trigger] keep_high(es)[i]).confidence
            == Confidence::High,
        forall|i: int| 0 <= i < keep_high(es).len() ==> es.contains(#[trigger] keep_high(es)[i]),
    decreases es.len(),
{
    if es.len() > 0 {
        lemma_keep_high(es.drop_last());
        let prev = keep_high(es.drop_last());
        assert forall|i: int| 0 <= i < prev.len() implies es.contains(#[trigger] prev[i]) by {
            let j = choose|j: int| 0 <= j < es.drop_last().len() && es.drop_last()[j] == prev[i];
            assert(es[j] == prev[i]);
        }
        assert(es[es.len() - 1] == es.last());
    }
}

/// The strict profile gives only high-confidence findings, each of them a
/// finding of level 1.
pub proof fn law_strict_is_high_level1(idx: PlatformIndex, src: Seq<char>, level: int)
    ensures
        forall|i: int|
            0 <= i < profile_findings(idx, src, level, Profile::Strict).len() ==> (
            #[trigger] profile_findings(idx, src, level, Profile::Strict)[i]).confidence == Confidence::High,
        forall|i: int|
            0 <= i < profile_findings(idx, src, level, Profile::Strict).len() ==> profile_findings(
                idx,
                src,
                1,
                Profile::Full,
            ).contains(#[trigger] profile_findings(idx, src, level, Profile::Strict)[i]),
{
    lemma_keep_high(expression_findings(idx, src, 1));
}

proof fn lemma_somes_within<X>(xs: Seq<Option<X>>, ys: Seq<Option<X>>, k: int)
    requires
        xs.len() == ys.len(),
        0 <= k <= xs.len(),
        forall|i: int| 0 <= i < xs.len() && #[trigger] xs[i] is Some ==> ys[i] == xs[i],
    ensures
        forall|i: int| 0 <= i < somes(xs, k).len() ==> somes(ys, k).contains(#[trigger] somes(xs, k)[i]),
    decreases k,
{
    if k > 0 {
        lemma_somes_within(xs, ys, k - 1);
        let a = somes(xs, k - 1);
        let b = somes(ys, k - 1);
        match xs[k - 1] {
            Some(x) => {
                assert(ys[k - 1] == Some(x));
                let bb = b.push(x);
                assert(somes(ys, k) == bb);
                assert forall|i: int| 0 <= i < a.push(x).len() implies bb.contains(#[trigger] a.push(x)[i]) by {
                    if i < a.len() {
                        assert(a.push(x)[i] == a[i]);
                        let j = choose|j: int| 0 <= j < b.len() && b[j] == a[i];
                        assert(bb[j] == b[j]);
                    } else {
                        assert(bb[b.len() as int] == x);
                    }
                }
            },
            None => {
                match ys[k - 1] {
                    Some(y) => {
                        let bb = b.push(y);
                        assert forall|i: int| 0 <= i < a.len() implies bb.contains(#[trigger] a[i]) by {
                            let j = choose|j: int| 0 <= j < b.len() && b[j] == a[i];
                            assert(bb[j] == b[j]);
                        }
                    },
                    None => {},
                }
            },
        }
    }
}

/// `a` is a subsequence of `b`: the elements of `a` occur in `b` in the same
/// order (matched from the back, which finds a match whenever one exists).
pub open spec fn subsequence<X>(a: Seq<X>, b: Seq<X>) -> bool
    decreases b.len(),
{
    if a.len() == 0 {
        true
    } else if b.len() == 0 {
        false
    } else if a.last() == b.last() {
        subsequence(a.drop_last(), b.drop_last())
    } else {
        subsequence(a, b.drop_last())
    }
}

proof fn lemma_subsequence_drop_last<X>(a: Seq<X>, b: Seq<X>)
    requires
        a.len() > 0,
        subsequence(a, b),
    ensures
        subsequence(a.drop_last(), b),
    decreases b.len(),
{
    if b.len() > 0 {
        if a.last() != b.last() {
            lemma_subsequence_drop_last(a, b.drop_last());
        }
        // Now `a` without its last element is a subsequence of `b` without
        // its last element; one element more of `b` keeps it so.
        if a.drop_last().len() > 0 {
            lemma_subsequence_drop_last(a.drop_last(), b.drop_last());
        }
    }
}

proof fn lemma_subsequence_push_right<X>(a: Seq<X>, b: Seq<X>, y: X)
    requires
        subsequence(a, b),
    ensures
        subsequence(a, b.push(y)),
{
    assert(b.push(y).drop_last() =~= b);
    if a.len() > 0 && a.last() == y {
        lemma_subsequence_drop_last(a, b);
    }
}

proof fn lemma_subsequence_push_both<X>(a: Seq<X>, b: Seq<X>, x: X)
    requires
        subsequence(a, b),
    ensures
        subsequence(a.push(x), b.push(x)),
{
    assert(a.push(x).drop_last() =~= a);
    assert(b.push(x).drop_last() =~= b);
}

proof fn lemma_subsequence_append<X>(a: Seq<X>, b: Seq<X>, r: Seq<X>)
    requires
        subsequence(a, b),
    ensures
        subsequence(a + r, b + r),
    decreases r.len(),
{
    if r.len() == 0 {
        assert(a + r =~= a);
        assert(b + r =~= b);
    } else {
        lemma_subsequence_append(a, b, r.drop_last());
        lemma_subsequence_push_both(a + r.drop_last(), b + r.drop_last(), r.last());
        assert((a + r.drop_last()).push(r.last()) =~= a + r);
        assert((b + r.drop_last()).push(r.last()) =~= b + r);
    }
}

proof fn lemma_somes_subsequence<X>(xs: Seq<Option<X>>, ys: Seq<Option<X>>, k: int)
    requires
        xs.len() == ys.len(),
        0 <= k <= xs.len(),
        forall|i: int| 0 <= i < xs.len() && #[trigger] xs[i] is Some ==> ys[i] == xs[i],
    ensures
        subsequence(somes(xs, k), somes(ys, k)),
    decreases k,
{
    if k > 0 {
        lemma_somes_subsequence(xs, ys, k - 1);
        let a = somes(xs, k - 1);
        let b = somes(ys, k - 1);
        match xs[k - 1] {
            Some(x) => {
                assert(ys[k - 1] == Some(x));
                lemma_subsequence_push_both(a, b, x);
            },
            None => match ys[k - 1] {
                Some(y) => lemma_subsequence_push_right(a, b, y),
                None => {},
            },
        }
    }
}

/// Inferring local types only adds findings: the findings of level 1 are a
/// subsequence of those at any higher level (each one is still reported, in
/// the same order relative to the others).
pub proof fn law_higher_level_keeps_findings(idx: PlatformIndex, src: Seq<char>, level: int)
    requires
        level >= 2,
    ensures
        subsequence(expression_findings(idx, src, 1), expression_findings(idx, src, level)),
        forall|i: int|
            0 <= i < expression_findings(idx, src, 1).len() ==> expression_findings(idx, src, level).contains(
                #[trigger] expression_findings(idx, src, 1)[i],
            ),
{
    let s = masked(src);
    let sc = crate::scope::scopes_of(idx, s, crate::scope::annotations_of(src));
    let ms = dot_matches(s, 0);
    let xs = ms.map_values(|m: (int, int, int)| dot_error(idx, None, s, m));
    let ys = ms.map_values(|m: (int, int, int)| dot_error(idx, Some(sc), s, m));
    assert forall|i: int| 0 <= i < xs.len() && #[trigger] xs[i] is Some implies ys[i] == xs[i] by {
        assert(xs[i] == dot_error(idx, None, s, ms[i]));
        assert(ys[i] == dot_error(idx, Some(sc), s, ms[i]));
    }
    lemma_somes_within(xs, ys, xs.len() as int);
    lemma_somes_subsequence(xs, ys, xs.len() as int);
    let a1 = somes(xs, xs.len() as int);
    let a2 = somes(ys, ys.len() as int);
    let rest = crate::expression::all_somes(
        crate::expression::new_matches(s, 0).map_values(|m: (int, int)| crate::expression::new_error(idx, s, m)),
    ) + crate::expression::all_somes(
        crate::expression::call_matches(s, 0).map_values(|m: (int, int)| crate::expression::call_error(idx, s, m)),
    );
    let f1 = expression_findings(idx, src, 1);
    let f2 = expression_findings(idx, src, level);
    assert(f1 =~= a1 + rest);
    assert(f2 =~= a2 + rest);
    lemma_subsequence_append(a1, a2, rest);
    assert forall|i: int| 0 <= i < f1.len() implies f2.contains(#[trigger] f1[i]) by {
        if i < a1.len() {
            assert(f1[i] == a1[i]);
            let j = choose|j: int| 0 <= j < a2.len() && a2[j] == a1[i];
            assert(f2[j] == a2[j]);
        } else {
            assert(f1[i] == rest[i - a1.len()]);
            assert(f2[a2.len() + (i - a1.len())] == rest[i - a1.len()]);
        }
    }
}

/// The verdict on a call of a global method: valid exactly when the method
/// is known and either has no described overloads or one of them takes that
/// many arguments.
pub proof fn law_method_call_verdict(found: Option<Method>, name: Seq<char>, n: nat)
    ensures
        method_call_answer(found, name, n).0 <==> (found matches Some(m) && (briefs_of(m).len() == 0
            || any_fits(briefs_of(m), n))),
{
}

/// The verdict on an enumeration value: valid exactly when the type is found,
/// is a system enumeration and has that value; close values are offered only
/// for an invalid one.
pub proof fn law_enum_verdict(found: Option<Type>, type_label: Seq<char>, value: Seq<char>)
    ensures
        enum_answer(found, type_label, value).0 <==> (found matches Some(t) && t.enum_values@.len() > 0
            && has_value(t.enum_values@, value)),
        enum_answer(found, type_label, value).0 ==> enum_answer(found, type_label, value).4.len() == 0,
{
}

/// Masking strings and comments keeps the length of the text in bytes, so
/// that every position in the masked text is the position in the source.
pub proof fn law_mask_keeps_byte_length(s: Seq<char>)
    ensures
        byte_len(masked(s)) == byte_len(s),
{
    lemma_mask_bytes(s, 0, 0);
    assert(s.skip(0) =~= s);
}

proof fn lemma_spaces_bytes(n: nat)
    ensures
        byte_len(spaces(n)) == n,
    decreases n,
{
    if n > 0 {
        assert(spaces(n).drop_last() =~= spaces((n - 1) as nat));
        lemma_spaces_bytes((n - 1) as nat);
    }
}

proof fn lemma_one_char_bytes(c: char)
    ensures
        byte_len(seq![c]) == utf8_width(c),
{
    assert(seq![c].drop_last() =~= Seq::<char>::empty());
    assert(byte_len(Seq::<char>::empty()) == 0);
}

proof fn lemma_mask_bytes(s: Seq<char>, i: int, mode: int)
    requires
        0 <= i <= s.len(),
    ensures
        byte_len(mask_from(s, i, mode)) == byte_len(s.skip(i)),
    decreases s.len() - i,
{
    if i < s.len() {
        let c = s[i];
        lemma_one_char_bytes(c);
        assert(s.skip(i) =~= seq![c] + s.skip(i + 1));
        lemma_byte_len_add(seq![c], s.skip(i + 1));
        lemma_spaces_bytes(1);
        lemma_spaces_bytes(2);
        lemma_spaces_bytes(utf8_width(c));
        if mode != 0 && mode != 1 && c == '"' && i + 1 < s.len() && s[i + 1] == '"' {
            let d = s[i + 1];
            lemma_one_char_bytes(d);
            assert(s.skip(i + 1) =~= seq![d] + s.skip(i + 2));
            lemma_byte_len_add(seq![d], s.skip(i + 2));
            lemma_mask_bytes(s, i + 2, 2);
            lemma_byte_len_add(spaces(2), mask_from(s, i + 2, 2));
        } else {
            let m0 = mask_from(s, i + 1, 0);
            let m1 = mask_from(s, i + 1, 1);
            let m2 = mask_from(s, i + 1, 2);
            lemma_mask_bytes(s, i + 1, 0);
            lemma_mask_bytes(s, i + 1, 1);
            lemma_mask_bytes(s, i + 1, 2);
            if mode == 0 {
                lemma_byte_len_add(spaces(1), m1);
                lemma_byte_len_add(spaces(1), m2);
                lemma_byte_len_add(seq![c], m0);
            } else if mode == 1 {
                lemma_byte_len_add(seq![c], m0);
                lemma_byte_len_add(seq![c], m1);
                lemma_byte_len_add(spaces(utf8_width(c)), m1);
            } else {
                lemma_byte_len_add(spaces(1), m0);
                lemma_byte_len_add(seq![c], m2);
                lemma_byte_len_add(spaces(utf8_width(c)), m2);
            }
        }
    } else {
        assert(s.skip(i) =~= Seq::<char>::empty());
    }
}

// ---------------------------------------------------------------------------
// Help pages and the table of contents
// ---------------------------------------------------------------------------

/// The number of chapter markers among the nodes.
pub open spec fn marker_count(ns: Seq<BodyNodeModel>) -> nat
    decreases ns.len(),
{
    if ns.len() == 0 {
        0
    } else {
        marker_count(ns.drop_last()) + if is_chapter_marker(ns.last()) {
            1nat
        } else {
            0nat
        }
    }
}

/// A page has one chapter more than it has markers, and its first chapter
/// (the head) has no title.
pub proof fn law_chapters_per_marker(ns: Seq<BodyNodeModel>)
    ensures
        chapters_of_nodes(ns).len() == marker_count(ns) + 1,
        chapters_of_nodes(ns)[0].0 == Seq::<char>::empty(),
    decreases ns.len(),
{
    if ns.len() > 0 {
        law_chapters_per_marker(ns.drop_last());
    }
}

/// Every leaf page reached by drilling down has a path, and it is not a
/// catalogue page.
pub proof fn law_leaves_are_pages(p: PageModel)
    ensures
        forall|i: int|
            0 <= i < leaves_under(p).len() ==> (#[trigger] leaves_under(p)[i]).html_path.len() > 0
                && !is_catalog_path(leaves_under(p)[i].html_path),
{
    lemma_leaves_among(p, p.children.len() as int);
}

proof fn lemma_leaves_among(p: PageModel, k: int)
    ensures
        forall|i: int|
            0 <= i < leaves_among(p, k).len() ==> (#[trigger] leaves_among(p, k)[i]).html_path.len() > 0
                && !is_catalog_path(leaves_among(p, k)[i].html_path),
    decreases p, k,
{
    if k <= 0 || k > p.children.len() {
    } else {
        lemma_leaves_among(p, k - 1);
        let c = p.children[k - 1];
        if c.html_path.len() == 0 {
            assert(leaves_among(p, k) == leaves_among(p, k - 1));
        } else if is_catalog_path(c.html_path) {
            lemma_leaves_among(c, c.children.len() as int);
            let a = leaves_among(p, k - 1);
            let b = leaves_among(c, c.children.len() as int);
            assert(leaves_among(p, k) == a + b);
            assert forall|i: int| 0 <= i < (a + b).len() implies (#[trigger] (a + b)[i]).html_path.len()
                > 0 && !is_catalog_path((a + b)[i].html_path) by {
                if i < a.len() {
                    assert((a + b)[i] == a[i]);
                } else {
                    assert((a + b)[i] == b[i - a.len()]);
                }
            }
        } else {
            let a = leaves_among(p, k - 1);
            assert(leaves_among(p, k) == a.push(c));
            assert forall|i: int| 0 <= i < a.push(c).len() implies (#[trigger] a.push(c)[i]).html_path.len()
                > 0 && !is_catalog_path(a.push(c)[i].html_path) by {
                if i < a.len() {
                    assert(a.push(c)[i] == a[i]);
                }
            }
        }
    }
}

// ---------------------------------------------------------------------------
// Text
// ---------------------------------------------------------------------------

/// Collapsing whitespace leaves no two whitespace characters in a row, and
/// every whitespace character left is a plain space.
pub proof fn law_collapse_single_spaces(s: Seq<char>)
    ensures
        forall|i: int| 0 <= i < collapse_ws(s).len() && is_ws(#[trigger] collapse_ws(s)[i]) ==> collapse_ws(s)[i] == ' ',
        forall|i: int|
            0 <= i < collapse_ws(s).len() - 1 ==> !(is_ws(#[trigger] collapse_ws(s)[i]) && is_ws(
                collapse_ws(s)[i + 1],
            )),
        collapse_ws(s).len() > 0 && is_ws(collapse_ws(s).last()) ==> s.len() > 0 && is_ws(s.last()),
    decreases s.len(),
{
    if s.len() > 0 {
        law_collapse_single_spaces(s.drop_last());
        let p = collapse_ws(s.drop_last());
        if is_ws(s.last()) {
            if s.len() >= 2 && is_ws(s[s.len() - 2]) {
                assert(s.drop_last().last() == s[s.len() - 2]);
            } else {
                let r = p.push(' ');
                assert forall|i: int| 0 <= i < r.len() - 1 implies !(is_ws(#[trigger] r[i]) && is_ws(r[i + 1])) by {
                    if i == r.len() - 2 {
                        if p.len() > 0 && is_ws(p.last()) {
                            assert(s.drop_last().len() > 0 && is_ws(s.drop_last().last()));
                        }
                    }
                }
            }
        } else {
            let r = p.push(s.last());
            assert forall|i: int| 0 <= i < r.len() - 1 implies !(is_ws(#[trigger] r[i]) && is_ws(r[i + 1])) by {
                if i == r.len() - 2 {
                    assert(r[i + 1] == s.last());
                }
            }
        }
    }
}


/// The characters of a text other than whitespace, in order.
pub open spec fn non_ws(s: Seq<char>) -> Seq<char>
    decreases s.len(),
{
    if s.len() == 0 {
        s
    } else if is_ws(s.last()) {
        non_ws(s.drop_last())
    } else {
        non_ws(s.drop_last()).push(s.last())
    }
}

proof fn lemma_collapse_fixed(t: Seq<char>)
    requires
        forall|i: int| 0 <= i < t.len() && is_ws(#[trigger] t[i]) ==> t[i] == ' ',
        forall|i: int| 0 <= i < t.len() - 1 ==> !(is_ws(#[trigger] t[i]) && is_ws(t[i + 1])),
    ensures
        collapse_ws(t) == t,
    decreases t.len(),
{
    if t.len() > 0 {
        let d = t.drop_last();
        assert forall|i: int| 0 <= i < d.len() - 1 implies !(is_ws(#[trigger] d[i]) && is_ws(d[i + 1])) by {
            assert(d[i] == t[i] && d[i + 1] == t[i + 1]);
        }
        assert forall|i: int| 0 <= i < d.len() && is_ws(#[trigger] d[i]) implies d[i] == ' ' by {
            assert(d[i] == t[i]);
        }
        lemma_collapse_fixed(d);
        if is_ws(t.last()) && t.len() >= 2 {
            assert(!is_ws(t[t.len() - 2]));
        }
        assert(d.push(t.last()) =~= t);
    }
}

/// Collapsing whitespace keeps every other character, in order, and once
/// done it changes nothing more.
pub proof fn law_collapse_keeps_text(s: Seq<char>)
    ensures
        non_ws(collapse_ws(s)) == non_ws(s),
        collapse_ws(collapse_ws(s)) == collapse_ws(s),
    decreases s.len(),
{
    law_collapse_single_spaces(s);
    lemma_collapse_fixed(collapse_ws(s));
    if s.len() > 0 {
        law_collapse_keeps_text(s.drop_last());
        let p = collapse_ws(s.drop_last());
        if is_ws(s.last()) {
            if !(s.len() >= 2 && is_ws(s[s.len() - 2])) {
                assert(p.push(' ').drop_last() =~= p);
            }
        } else {
            assert(p.push(s.last()).drop_last() =~= p);
        }
    }
}

// ---------------------------------------------------------------------------
// Search
// ---------------------------------------------------------------------------

/// The last of the first `n` positions whose key is `k`.
pub open spec fn latest(ks: Seq<Seq<char>>, k: Seq<char>, n: int) -> Option<int>
    decreases n,
{
    if n <= 0 {
        None
    } else if ks[n - 1] == k {
        Some(n - 1)
    } else {
        latest(ks, k, n - 1)
    }
}

proof fn lemma_latest(ks: Seq<Seq<char>>, k: Seq<char>, n: int)
    requires
        n <= ks.len(),
    ensures
        latest(ks, k, n) matches Some(j) ==> 0 <= j < n && ks[j] == k,
        forall|j: int| 0 <= j < n && ks[j] == k ==> latest(ks, k, n) is Some,
    decreases n,
{
    if n > 0 {
        lemma_latest(ks, k, n - 1);
    }
}

proof fn lemma_key_lt_ne(a: Seq<char>, b: Seq<char>)
    requires
        key_lt(a, b),
    ensures
        a != b,
{
    lemma_bytes_lt_irrefl(encode_utf8(a));
}

proof fn lemma_prefix_entries<T>(ks: Seq<Seq<char>>, vs: Seq<T>, n: int)
    requires
        0 <= n <= ks.len(),
        n <= vs.len(),
    ensures
        forall|i: int|
            0 <= i < sorted_build(ks, vs, n).len() ==> (latest(ks, #[trigger] sorted_build(ks, vs, n)[i].0, n) matches Some(
                j,
            ) && sorted_build(ks, vs, n)[i].1 == vs[j]),
        forall|j: int|
            #![trigger ks[j]]
            0 <= j < n ==> exists|i: int|
                0 <= i < sorted_build(ks, vs, n).len() && #[trigger] sorted_build(ks, vs, n)[i].0 == ks[j],
    decreases n,
{
    if n > 0 {
        lemma_prefix_entries(ks, vs, n - 1);
        lemma_sorted_build(ks, vs, n - 1);
        let es = sorted_build(ks, vs, n - 1);
        let k = ks[n - 1];
        let v = vs[n - 1];
        let r = sorted_build(ks, vs, n);
        assert(r == sorted_insert(es, k, v));
        lemma_insert_pos(es, k, 0);
        let j = insert_pos(es, k, 0);
        let updated = j < es.len() && es[j].0 == k;
        // No entry of `es` but the one replaced has key `k`.
        assert forall|i: int| 0 <= i < es.len() && !(updated && i == j) implies #[trigger] es[i].0 != k by {
            if i < j {
                lemma_key_lt_ne(es[i].0, k);
            } else if i > j {
                if updated {
                    lemma_key_lt_ne(k, es[i].0);
                } else {
                    assert(key_lt(es[j].0, es[i].0));
                }
            }
        }
        assert forall|i: int| 0 <= i < r.len() implies (latest(ks, #[trigger] r[i].0, n) matches Some(jj) && r[i].1
            == vs[jj]) by {
            if updated {
                if i != j {
                    assert(r[i] == es[i]);
                }
            } else if i < j {
                assert(r[i] == es[i]);
            } else if i > j {
                assert(r[i] == es[i - 1]);
            }
        }
        assert forall|jj: int| #![trigger ks[jj]] 0 <= jj < n implies exists|i: int| 0 <= i < r.len() && #[trigger] r[i].0 == ks[jj] by {
            if jj == n - 1 {
                assert(r[j].0 == k);
            } else {
                let i = choose|i: int| 0 <= i < es.len() && #[trigger] es[i].0 == ks[jj];
                if updated {
                    assert(r[i].0 == es[i].0);
                } else if i < j {
                    assert(r[i] == es[i]);
                } else {
                    assert(r[i + 1] == es[i]);
                }
            }
        }
    }
}

/// A prefix index built from items with keys `ks` holds each of their keys
/// once, in strictly increasing order, with the last item that had it: a
/// later item replaces an earlier one with the same key, and the index has
/// as many entries as there are distinct keys.
pub proof fn law_prefix_index_entries<T>(ks: Seq<Seq<char>>, vs: Seq<T>, n: int)
    requires
        0 <= n <= ks.len(),
        n <= vs.len(),
    ensures
        sorted_keys(sorted_build(ks, vs, n)),
        forall|i: int|
            0 <= i < sorted_build(ks, vs, n).len() ==> (latest(ks, #[trigger] sorted_build(ks, vs, n)[i].0, n) matches Some(
                j,
            ) && sorted_build(ks, vs, n)[i].1 == vs[j]),
        forall|j: int|
            #![trigger ks[j]]
            0 <= j < n ==> exists|i: int|
                0 <= i < sorted_build(ks, vs, n).len() && #[trigger] sorted_build(ks, vs, n)[i].0 == ks[j],
        sorted_build(ks, vs, n).len() == ks.take(n).to_set().len(),
{
    lemma_sorted_build(ks, vs, n);
    lemma_prefix_entries(ks, vs, n);
    let es = sorted_build(ks, vs, n);
    let keys = es.map_values(|e: (Seq<char>, T)| e.0);
    assert(keys.no_duplicates()) by {
        assert forall|a: int, b: int| 0 <= a < keys.len() && 0 <= b < keys.len() && a != b implies keys[a] != keys[b] by {
            if a < b {
                lemma_key_lt_ne(es[a].0, es[b].0);
            } else {
                lemma_key_lt_ne(es[b].0, es[a].0);
            }
        }
    }
    assert(keys.to_set() =~= ks.take(n).to_set()) by {
        assert forall|x: Seq<char>| keys.to_set().contains(x) implies ks.take(n).to_set().contains(x) by {
            let i = choose|i: int| 0 <= i < keys.len() && keys[i] == x;
            assert(keys[i] == es[i].0);
            lemma_latest(ks, es[i].0, n);
            let j = latest(ks, es[i].0, n)->0;
            assert(ks.take(n)[j] == x);
        }
        assert forall|x: Seq<char>| ks.take(n).to_set().contains(x) implies keys.to_set().contains(x) by {
            let j = choose|j: int| 0 <= j < ks.take(n).len() && ks.take(n)[j] == x;
            assert(ks[j] == x);
            let i = choose|i: int| 0 <= i < es.len() && #[trigger] es[i].0 == ks[j];
            assert(keys[i] == x);
        }
    }
    keys.unique_seq_to_set();
}

proof fn lemma_key_index_same_keys<T>(a: Seq<(Seq<char>, T)>, b: Seq<(Seq<char>, T)>, k: Seq<char>)
    requires
        a.len() == b.len(),
        forall|i: int| 0 <= i < a.len() ==> #[trigger] a[i].0 == b[i].0,
    ensures
        key_index(a, k) == key_index(b, k),
    decreases a.len(),
{
    if a.len() > 0 {
        lemma_key_index_same_keys(a.drop_last(), b.drop_last(), k);
        assert(a.last().0 == b[b.len() - 1].0);
    }
}

proof fn lemma_key_index_push<T>(es: Seq<(Seq<char>, T)>, e: (Seq<char>, T), k: Seq<char>)
    ensures
        key_index(es.push(e), k) == (match key_index(es, k) {
            Some(i) => Some(i),
            None => if e.0 == k {
                Some(es.len() as int)
            } else {
                None
            },
        }),
{
    assert(es.push(e).drop_last() =~= es);
}

/// Looking up key `k` in an exact index built from the first `n` items: the
/// entry holds the last of them with that key.
proof fn lemma_hash_build_lookup<T>(ks: Seq<Seq<char>>, vs: Seq<T>, n: int, k: Seq<char>)
    requires
        0 <= n <= ks.len(),
        n <= vs.len(),
    ensures
        match latest(ks, k, n) {
            Some(j) => key_index(hash_build(ks, vs, n), k) matches Some(i) && 0 <= i < hash_build(ks, vs, n).len()
                && hash_build(ks, vs, n)[i] == (k, vs[j]),
            None => key_index(hash_build(ks, vs, n), k) is None,
        },
    decreases n,
{
    if n > 0 {
        lemma_hash_build_lookup(ks, vs, n - 1, k);
        let es = hash_build(ks, vs, n - 1);
        let k2 = ks[n - 1];
        let v = vs[n - 1];
        let r = hash_build(ks, vs, n);
        assert(r == hash_insert(es, k2, v));
        lemma_key_index_range(es, k2);
        lemma_key_index_range(es, k);
        match key_index(es, k2) {
            Some(i2) => {
                lemma_key_index_same_keys(es, es.update(i2, (k2, v)), k);
            },
            None => {
                lemma_key_index_push(es, (k2, v), k);
            },
        }
    }
}

proof fn lemma_first_method(ms: Seq<Method>, q: Seq<char>)
    ensures
        first_method_named(ms, q) matches Some(m) ==> exists|j: int|
            0 <= j < ms.len() && m == ms[j] && #[trigger] method_keys(ms)[j] == lowercase(q),
        first_method_named(ms, q) is None ==> forall|j: int|
            0 <= j < ms.len() ==> #[trigger] method_keys(ms)[j] != lowercase(q),
    decreases ms.len(),
{
    if ms.len() > 0 {
        lemma_first_method(ms.drop_last(), q);
        let d = ms.drop_last();
        assert forall|j: int| 0 <= j < ms.len() - 1 implies #[trigger] method_keys(ms)[j] == method_keys(d)[j] by {
            assert(d[j] == ms[j]);
        }
        let last = ms.len() - 1;
        assert(method_keys(ms)[last] == lowercase(ms.last().name_ru@));
        match first_method_named(d, q) {
            Some(m) => {
                let j = choose|j: int| 0 <= j < d.len() && m == d[j] && #[trigger] method_keys(d)[j] == lowercase(q);
                assert(method_keys(ms)[j] == lowercase(q) && ms[j] == m);
            },
            None => {
                if same_name(ms.last().name_ru@, q) {
                    assert(method_keys(ms)[last] == lowercase(q));
                }
            },
        }
    }
}

proof fn lemma_first_property(ps: Seq<Property>, q: Seq<char>)
    ensures
        first_property_named(ps, q) matches Some(p) ==> exists|j: int|
            0 <= j < ps.len() && p == ps[j] && #[trigger] property_keys(ps)[j] == lowercase(q),
        first_property_named(ps, q) is None ==> forall|j: int|
            0 <= j < ps.len() ==> #[trigger] property_keys(ps)[j] != lowercase(q),
    decreases ps.len(),
{
    if ps.len() > 0 {
        lemma_first_property(ps.drop_last(), q);
        let d = ps.drop_last();
        assert forall|j: int| 0 <= j < ps.len() - 1 implies #[trigger] property_keys(ps)[j] == property_keys(d)[j] by {
            assert(d[j] == ps[j]);
        }
        let last = ps.len() - 1;
        assert(property_keys(ps)[last] == lowercase(ps.last().name_ru@));
        match first_property_named(d, q) {
            Some(m) => {
                let j = choose|j: int| 0 <= j < d.len() && m == d[j] && #[trigger] property_keys(d)[j] == lowercase(q);
                assert(property_keys(ps)[j] == lowercase(q) && ps[j] == m);
            },
            None => {
                if same_name(ps.last().name_ru@, q) {
                    assert(property_keys(ps)[last] == lowercase(q));
                }
            },
        }
    }
}

/// A search engine built from an index answers as the index does: a type
/// looked up by name is the index's type of that name, and, where no two
/// global methods (and no two global properties) share a Russian name
/// regardless of case, a global method or property looked up under its
/// Russian name is the index's.
pub proof fn law_engine_agrees_with_index(e: SearchEngine, idx: PlatformIndex, name: Seq<char>)
    requires
        idx.wf(),
        e.built_from(idx),
        method_keys(idx.global_methods@).no_duplicates(),
        property_keys(idx.global_properties@).no_duplicates(),
    ensures
        match idx.lookup_type(name) {
            Some(t) => key_index(e.types(), lowercase(name)) matches Some(i) && e.types()[i].1 == t.deep_view(),
            None => key_index(e.types(), lowercase(name)) is None,
        },
        match first_method_named(idx.global_methods@, name) {
            Some(m) => e.found_method(name) == Some(m.deep_view()),
            None => key_index(e.methods(), lowercase(name)) is None,
        },
        match first_property_named(idx.global_properties@, name) {
            Some(p) => key_index(e.properties(), lowercase(name)) matches Some(i) && e.properties()[i].1
                == p.deep_view(),
            None => key_index(e.properties(), lowercase(name)) is None,
        },
{
    let k = lowercase(name);
    // Types.
    let ts = idx.types@;
    let tks = type_keys(ts);
    lemma_hash_build_lookup(tks, idx.types.deep_view(), ts.len() as int, k);
    lemma_latest(tks, k, ts.len() as int);
    if idx.has_key(k) {
        let j = idx.index_of_key(k);
        assert(tks[j] == k);
        let jl = latest(tks, k, ts.len() as int)->0;
        if jl != j {
            assert(idx.keys@[j]@ == type_key(ts[j]));
            assert(idx.keys@[jl]@ == type_key(ts[jl]));
            if jl < j {
                assert(idx.keys@[jl]@ != idx.keys@[j]@);
            } else {
                assert(idx.keys@[j]@ != idx.keys@[jl]@);
            }
        }
    } else {
        assert forall|j: int| 0 <= j < ts.len() implies tks[j] != k by {
            if tks[j] == k {
                assert(type_key(idx.type_seq()[j]) == k);
                assert(idx.has_key(k));
            }
        }
    }
    // Methods.
    let ms = idx.global_methods@;
    let mks = method_keys(ms);
    lemma_hash_build_lookup(mks, idx.global_methods.deep_view(), ms.len() as int, k);
    lemma_latest(mks, k, ms.len() as int);
    lemma_first_method(ms, name);
    // Properties.
    let ps = idx.global_properties@;
    let pks = property_keys(ps);
    lemma_hash_build_lookup(pks, idx.global_properties.deep_view(), ps.len() as int, k);
    lemma_latest(pks, k, ps.len() as int);
    lemma_first_property(ps, name);
}

/// No two results share their kind and lowercase name.
pub open spec fn distinct_keys(s: Seq<DefinitionModel>) -> bool {
    forall|i: int, j: int| 0 <= i < j < s.len() ==> def_key(#[trigger] s[i]) != def_key(#[trigger] s[j])
}

proof fn lemma_add_all_distinct(out: Seq<DefinitionModel>, ds: Seq<DefinitionModel>)
    requires
        distinct_keys(out),
    ensures
        distinct_keys(add_all(out, ds)),
    decreases ds.len(),
{
    if ds.len() > 0 {
        lemma_add_all_distinct(out, ds.drop_last());
        let prev = add_all(out, ds.drop_last());
        let d = ds.last();
        if !(exists|i: int| 0 <= i < prev.len() && #[trigger] def_key(prev[i]) == def_key(d)) {
            let r = prev.push(d);
            assert forall|i: int, j: int| 0 <= i < j < r.len() implies def_key(#[trigger] r[i]) != def_key(#[trigger] r[j]) by {
                if j == r.len() - 1 {
                    assert(r[j] == d);
                    assert(r[i] == prev[i]);
                } else {
                    assert(r[i] == prev[i] && r[j] == prev[j]);
                }
            }
        }
    }
}

/// A search gives at most 50 results and at most the limit asked for (at
/// least one is always allowed), never two of the same kind and name.
pub proof fn law_search_results_bounded(e: SearchEngine, query: Seq<char>, limit: int)
    ensures
        e.search_results(query, limit).len() <= 50,
        e.search_results(query, limit).len() <= if limit < 1 {
            1
        } else {
            limit
        },
        distinct_keys(e.search_results(query, limit)),
{
    let q = lowercase(crate::text::trim(query));
    if q.len() > 0 {
        let ws = crate::search::words_of(q);
        let a = add_all(Seq::empty(), e.prefix_defs(lowercase(q)));
        lemma_add_all_distinct(Seq::empty(), e.prefix_defs(lowercase(q)));
        let b = if ws.len() > 1 {
            add_all(a, e.word_defs(ws))
        } else {
            a
        };
        if ws.len() > 1 {
            lemma_add_all_distinct(a, e.word_defs(ws));
        }
        let c = if b.len() == 0 {
            add_all(b, e.substring_defs(q))
        } else {
            b
        };
        if b.len() == 0 {
            lemma_add_all_distinct(b, e.substring_defs(q));
        }
        let r = e.search_results(query, limit);
        assert forall|i: int, j: int| 0 <= i < j < r.len() implies def_key(#[trigger] r[i]) != def_key(#[trigger] r[j]) by {
            assert(r[i] == c[i] && r[j] == c[j]);
        }
    }
}

// ---------------------------------------------------------------------------
// Method pages
// ---------------------------------------------------------------------------

/// No chapter title opens an overload.
pub open spec fn no_variants(chs: Seq<(Seq<char>, Seq<char>)>) -> bool {
    forall|i: int| 0 <= i < chs.len() ==> !variant_marker().is_prefix_of(#[trigger] chs[i].0)
}

/// A method page that declares no overload has at most one signature, and it
/// is named «Основная».
pub proof fn law_single_overload_is_main(chs: Seq<(Seq<char>, Seq<char>)>)
    requires
        no_variants(chs),
    ensures
        method_fields(chs).signatures.len() <= 1,
        method_fields(chs).signatures.len() == 1 ==> method_fields(chs).signatures[0].name == "Основная"@,
    decreases chs.len(),
{
    if chs.len() > 0 {
        assert(no_variants(chs.drop_last())) by {
            assert forall|i: int| 0 <= i < chs.drop_last().len() implies !variant_marker().is_prefix_of(
                #[trigger] chs.drop_last()[i].0,
            ) by {
                assert(chs.drop_last()[i] == chs[i]);
            }
        }
        law_single_overload_is_main(chs.drop_last());
        assert(!variant_marker().is_prefix_of(chs[chs.len() - 1].0));
    }
}


// ---------------------------------------------------------------------------
// Members of a type
// ---------------------------------------------------------------------------

/// One of the type's methods or properties has the Russian or English name
/// `m`, regardless of case.
pub open spec fn named_in(t: Type, m: Seq<char>) -> bool {
    ||| exists|i: int|
        #![trigger t.methods@[i]]
        0 <= i < t.methods@.len() && (lowercase(t.methods@[i].name_ru@) == lowercase(m) || lowercase(
            t.methods@[i].name_en@,
        ) == lowercase(m))
    ||| exists|i: int|
        #![trigger t.properties@[i]]
        0 <= i < t.properties@.len() && (lowercase(t.properties@[i].name_ru@) == lowercase(m) || lowercase(
            t.properties@[i].name_en@,
        ) == lowercase(m))
}

/// A type has a member named `m` exactly when one of its methods or one of
/// its properties has that Russian or English name, regardless of case.
pub proof fn law_member_by_name(t: Type, m: Seq<char>)
    ensures
        has_member(t, m) <==> named_in(t, m),
{
    if has_member(t, m) {
        if exists|i: int| 0 <= i < t.methods@.len() && #[trigger] method_named(t.methods@[i], m) {
            let i = choose|i: int| 0 <= i < t.methods@.len() && #[trigger] method_named(t.methods@[i], m);
            assert(0 <= i < t.methods@.len() && (lowercase(t.methods@[i].name_ru@) == lowercase(m) || lowercase(
                t.methods@[i].name_en@,
            ) == lowercase(m)));
        } else {
            let i = choose|i: int| 0 <= i < t.properties@.len() && #[trigger] property_named(t.properties@[i], m);
            assert(0 <= i < t.properties@.len() && (lowercase(t.properties@[i].name_ru@) == lowercase(m) || lowercase(
                t.properties@[i].name_en@,
            ) == lowercase(m)));
        }
    }
    if named_in(t, m) {
        if exists|i: int|
            #![trigger t.methods@[i]]
            0 <= i < t.methods@.len() && (lowercase(t.methods@[i].name_ru@) == lowercase(m) || lowercase(
                t.methods@[i].name_en@,
            ) == lowercase(m)) {
            let i = choose|i: int|
                #![trigger t.methods@[i]]
                0 <= i < t.methods@.len() && (lowercase(t.methods@[i].name_ru@) == lowercase(m) || lowercase(
                    t.methods@[i].name_en@,
                ) == lowercase(m));
            assert(method_named(t.methods@[i], m));
        } else {
            let i = choose|i: int|
                #![trigger t.properties@[i]]
                0 <= i < t.properties@.len() && (lowercase(t.properties@[i].name_ru@) == lowercase(m) || lowercase(
                    t.properties@[i].name_en@,
                ) == lowercase(m));
            assert(property_named(t.properties@[i], m));
        }
    }
}

/// A `Name.Member` reference whose name stands for a type that is not an
/// enumeration gives no finding when one of the type's methods or properties
/// has the member's name (Russian or English, any case), and an
/// unknown-member finding when none has.
pub proof fn law_member_reference(
    index: PlatformIndex,
    sm: Option<Seq<ScopeModel>>,
    s: Seq<char>,
    m: (int, int, int),
    tn: Seq<char>,
    t: Type,
)
    requires
        !left_blocked(s, m.0),
        resolve_head(index, sm, s, m.0, s.subrange(m.0, m.1)) == Some(tn),
        index.lookup_type(tn) == Some(t),
        t.enum_values@.len() == 0,
    ensures
        named_in(t, s.subrange(m.1 + 1, m.2)) ==> dot_error(index, sm, s, m) is None,
        !named_in(t, s.subrange(m.1 + 1, m.2)) ==> (dot_error(index, sm, s, m) matches Some(f) && f.kind
            == ExprErrorKind::UnknownTypeMember),
{
    law_member_by_name(t, s.subrange(m.1 + 1, m.2));
}

// ---------------------------------------------------------------------------
// Argument counts
// ---------------------------------------------------------------------------

proof fn lemma_required_filter(ps: Seq<ParameterModel>)
    ensures
        required_count(ps) == ps.filter(|p: ParameterModel| p.required).len(),
    decreases ps.len(),
{
    reveal(Seq::filter);
    if ps.len() > 0 {
        lemma_required_filter(ps.drop_last());
    }
}

/// A signature takes at least as many arguments as it has required
/// parameters and at most as many as it has parameters; so a call with fewer
/// arguments than its required parameters, or more than its parameters,
/// does not fit it.
pub proof fn law_signature_bounds(s: SignatureModel, n: nat)
    ensures
        brief_model(s).min_args == s.parameters.filter(|p: ParameterModel| p.required).len(),
        brief_model(s).max_args == s.parameters.len(),
        fits(brief_model(s), n) <==> (s.parameters.filter(|p: ParameterModel| p.required).len() <= n
            <= s.parameters.len()),
{
    lemma_required_filter(s.parameters);
}

// ---------------------------------------------------------------------------
// Search falls back on substrings
// ---------------------------------------------------------------------------

proof fn lemma_add_all_grows(out: Seq<DefinitionModel>, ds: Seq<DefinitionModel>)
    ensures
        add_all(out, ds).len() >= out.len(),
        ds.len() > 0 ==> add_all(out, ds).len() > 0,
    decreases ds.len(),
{
    if ds.len() > 0 {
        lemma_add_all_grows(out, ds.drop_last());
    }
}

proof fn lemma_pick_empty<T>(es: Seq<(Seq<char>, T)>, pred: spec_fn(T) -> bool)
    requires
        pick(es, pred).len() == 0,
    ensures
        forall|i: int| 0 <= i < es.len() ==> !pred(#[trigger] es[i].1),
    decreases es.len(),
{
    if es.len() > 0 {
        if pred(es.last().1) {
            assert(pick(es, pred).len() > 0);
        }
        lemma_pick_empty(es.drop_last(), pred);
        assert forall|i: int| 0 <= i < es.len() implies !pred(#[trigger] es[i].1) by {
            if i < es.len() - 1 {
                assert(es[i] == es.drop_last()[i]);
            }
        }
    }
}

/// A search finds nothing only when no type, method or property of the
/// engine has a lowercase Russian or English name that contains the
/// lowercase trimmed query: whatever no prefix or word match finds, the
/// names containing the query are found.
pub proof fn law_search_falls_back_on_substrings(e: SearchEngine, query: Seq<char>, limit: int)
    requires
        lowercase(trim(query)).len() > 0,
        e.search_results(query, limit).len() == 0,
    ensures
        forall|i: int|
            0 <= i < e.types().len() ==> !contains_seq(lowercase(#[trigger] e.types()[i].1.name_ru), lowercase(trim(query)))
                && !contains_seq(lowercase(e.types()[i].1.name_en), lowercase(trim(query))),
        forall|i: int|
            0 <= i < e.methods().len() ==> !contains_seq(lowercase(#[trigger] e.methods()[i].1.name_ru), lowercase(trim(query)))
                && !contains_seq(lowercase(e.methods()[i].1.name_en), lowercase(trim(query))),
        forall|i: int|
            0 <= i < e.properties().len() ==> !contains_seq(lowercase(#[trigger] e.properties()[i].1.name_ru), lowercase(trim(query)))
                && !contains_seq(lowercase(e.properties()[i].1.name_en), lowercase(trim(query))),
{
    let q = lowercase(trim(query));
    let ws = crate::search::words_of(q);
    let a = add_all(Seq::empty(), e.prefix_defs(lowercase(q)));
    let b = if ws.len() > 1 {
        add_all(a, e.word_defs(ws))
    } else {
        a
    };
    let sd = e.substring_defs(q);
    lemma_add_all_grows(b, sd);
    if b.len() > 0 {
        assert(e.search_results(query, limit).len() > 0);
    }
    if sd.len() > 0 {
        assert(e.search_results(query, limit).len() > 0);
    }
    let pt = pick(
        e.types(),
        |t: TypeModel| contains_seq(lowercase(t.name_ru), q) || contains_seq(lowercase(t.name_en), q),
    );
    let pm = pick(
        e.methods(),
        |m: MethodModel| contains_seq(lowercase(m.name_ru), q) || contains_seq(lowercase(m.name_en), q),
    );
    let pp = pick(
        e.properties(),
        |p: PropertyModel| contains_seq(lowercase(p.name_ru), q) || contains_seq(lowercase(p.name_en), q),
    );
    assert(sd.len() == pt.len() + pm.len() + pp.len());
    lemma_pick_empty(
        e.types(),
        |t: TypeModel| contains_seq(lowercase(t.name_ru), q) || contains_seq(lowercase(t.name_en), q),
    );
    lemma_pick_empty(
        e.methods(),
        |m: MethodModel| contains_seq(lowercase(m.name_ru), q) || contains_seq(lowercase(m.name_en), q),
    );
    lemma_pick_empty(
        e.properties(),
        |p: PropertyModel| contains_seq(lowercase(p.name_ru), q) || contains_seq(lowercase(p.name_en), q),
    );
}

// ---------------------------------------------------------------------------
// Members of a type page
// ---------------------------------------------------------------------------

/// The last of the first `n` sub-pages labelled `l`.
pub open spec fn last_labelled(subs: Seq<PageModel>, l: Seq<char>, n: int) -> Option<int>
    decreases n,
{
    if n <= 0 {
        None
    } else if label_of(subs[n - 1]) == l {
        Some(n - 1)
    } else {
        last_labelled(subs, l, n - 1)
    }
}

/// The properties, methods and constructors of a type come from its last
/// sub-page labelled "Свойства", "Методы" and "Конструкторы" respectively:
/// what the pages under it give; with no such sub-page they are those of
/// the type's own page.
pub proof fn law_type_members_by_label(
    files: Map<Seq<char>, Option<Seq<u8>>>,
    base: ObjectInfoModel,
    subs: Seq<PageModel>,
)
    ensures
        match last_labelled(subs, "Свойства"@, subs.len() as int) {
            Some(j) => type_members(files, base, subs).properties == properties_among(files, subs[j].children),
            None => type_members(files, base, subs).properties == base.properties,
        },
        match last_labelled(subs, "Методы"@, subs.len() as int) {
            Some(j) => type_members(files, base, subs).methods == methods_among(files, subs[j].children),
            None => type_members(files, base, subs).methods == base.methods,
        },
        match last_labelled(subs, "Конструкторы"@, subs.len() as int) {
            Some(j) => type_members(files, base, subs).constructors == constructors_among(files, subs[j].children),
            None => type_members(files, base, subs).constructors == base.constructors,
        },
    decreases subs.len(),
{
    if subs.len() > 0 {
        let d = subs.drop_last();
        law_type_members_by_label(files, base, d);
        proof_labels_distinct();
        let n = d.len() as int;
        lemma_last_labelled_prefix(d, subs, "Свойства"@, n);
        lemma_last_labelled_prefix(d, subs, "Методы"@, n);
        lemma_last_labelled_prefix(d, subs, "Конструкторы"@, n);
        assert forall|j: int| 0 <= j < n implies #[trigger] subs[j] == d[j] by {}
        let prev = type_members(files, base, d);
        let l = label_of(subs[n]);
        assert(subs.last() == subs[n]);
        assert(type_members(files, base, subs) == (if l == "Свойства"@ {
            ObjectInfoModel { properties: properties_among(files, subs[n].children), ..prev }
        } else if l == "Методы"@ {
            ObjectInfoModel { methods: methods_among(files, subs[n].children), ..prev }
        } else if l == "Конструкторы"@ {
            ObjectInfoModel { constructors: constructors_among(files, subs[n].children), ..prev }
        } else {
            prev
        }));
        assert(last_labelled(subs, "Свойства"@, n + 1) == (if l == "Свойства"@ {
            Some(n)
        } else {
            last_labelled(d, "Свойства"@, n)
        }));
        assert(last_labelled(subs, "Методы"@, n + 1) == (if l == "Методы"@ {
            Some(n)
        } else {
            last_labelled(d, "Методы"@, n)
        }));
        assert(last_labelled(subs, "Конструкторы"@, n + 1) == (if l == "Конструкторы"@ {
            Some(n)
        } else {
            last_labelled(d, "Конструкторы"@, n)
        }));
        if let Some(j) = last_labelled(d, "Свойства"@, n) {
            lemma_latest_label_range(d, "Свойства"@, n);
            assert(subs[j] == d[j]);
        }
        if let Some(j) = last_labelled(d, "Методы"@, n) {
            lemma_latest_label_range(d, "Методы"@, n);
            assert(subs[j] == d[j]);
        }
        if let Some(j) = last_labelled(d, "Конструкторы"@, n) {
            lemma_latest_label_range(d, "Конструкторы"@, n);
            assert(subs[j] == d[j]);
        }
        assert(subs.len() == n + 1);
    }
}

proof fn lemma_latest_label_range(subs: Seq<PageModel>, l: Seq<char>, n: int)
    ensures
        last_labelled(subs, l, n) matches Some(j) ==> 0 <= j < n,
    decreases n,
{
    if n > 0 {
        lemma_latest_label_range(subs, l, n - 1);
    }
}

proof fn proof_labels_distinct()
    ensures
        "Свойства"@ != "Методы"@,
        "Свойства"@ != "Конструкторы"@,
        "Методы"@ != "Конструкторы"@,
{
    reveal_strlit("Свойства");
    reveal_strlit("Методы");
    reveal_strlit("Конструкторы");
    assert("Свойства"@[0] != "Методы"@[0]);
    assert("Свойства"@[0] != "Конструкторы"@[0]);
    assert("Методы"@[0] != "Конструкторы"@[0]);
}

proof fn lemma_last_labelled_prefix(a: Seq<PageModel>, b: Seq<PageModel>, l: Seq<char>, n: int)
    requires
        0 <= n <= a.len(),
        n <= b.len(),
        forall|i: int| 0 <= i < n ==> a[i] == b[i],
    ensures
        last_labelled(a, l, n) == last_labelled(b, l, n),
    decreases n,
{
    if n > 0 {
        lemma_last_labelled_prefix(a, b, l, n - 1);
    }
}

/// A constructor is read from every `/ctors/` child page whose text can be
/// read: so there is at least one as soon as one such page exists, and never
/// more than there are children.
pub proof fn law_constructors_found(files: Map<Seq<char>, Option<Seq<u8>>>, cs: Seq<PageModel>)
    ensures
        constructors_among(files, cs).len() <= cs.len(),
        (exists|k: int|
            0 <= k < cs.len() && path_has(#[trigger] cs[k], "/ctors/"@) && page_text(files, cs[k].html_path) is Some)
            ==> constructors_among(files, cs).len() > 0,
    decreases cs.len(),
{
    if cs.len() > 0 {
        let d = cs.drop_last();
        law_constructors_found(files, d);
        if exists|k: int|
            0 <= k < cs.len() && path_has(#[trigger] cs[k], "/ctors/"@) && page_text(files, cs[k].html_path) is Some {
            let k = choose|k: int|
                0 <= k < cs.len() && path_has(#[trigger] cs[k], "/ctors/"@) && page_text(files, cs[k].html_path) is Some;
            if k < cs.len() - 1 {
                assert(d[k] == cs[k]);
                assert(constructors_among(files, d).len() > 0);
            }
        }
    }
}

// ---------------------------------------------------------------------------
// Property cards
// ---------------------------------------------------------------------------

/// A property card ends with the line "**Только для чтения:** Да" exactly
/// when the property is read-only, and with "**Только для чтения:** Нет"
/// exactly when it is not.
pub proof fn law_property_card_readonly(p: PropertyModel)
    ensures
        "**Только для чтения:** Да\n\n"@.is_suffix_of(property_text(p)) <==> p.readonly,
        "**Только для чтения:** Нет\n\n"@.is_suffix_of(property_text(p)) <==> !p.readonly,
{
    reveal_strlit("**Только для чтения:** Да\n\n");
    reveal_strlit("**Только для чтения:** Нет\n\n");
    reveal_strlit("**Только для чтения:** ");
    reveal_strlit("Да");
    reveal_strlit("Нет");
    reveal_strlit("\n\n");
    let yes = "**Только для чтения:** Да\n\n"@;
    let no = "**Только для чтения:** Нет\n\n"@;
    let t = property_text(p);
    let head = "### "@ + p.name_ru + "\n\n"@ + crate::format::paragraph_if_any(p.description) + "**Тип:** `"@
        + p.value_type + "`\n"@;
    let tail = "**Только для чтения:** "@ + (if p.readonly {
        "Да"@
    } else {
        "Нет"@
    }) + "\n\n"@;
    assert(t == head + tail);
    if p.readonly {
        assert(tail =~= yes);
        assert(t.subrange(t.len() - yes.len(), t.len() as int) =~= yes);
        // The card ends in "Да", not "ет".
        assert(t[t.len() - 4] == 'Д');
        assert(no[no.len() - 4] == 'е');
    } else {
        assert(tail =~= no);
        assert(t.subrange(t.len() - no.len(), t.len() as int) =~= no);
        assert(t[t.len() - 4] == 'е');
        assert(yes[yes.len() - 4] == 'Д');
    }
}


// ---------------------------------------------------------------------------
// Verdicts stated over the index's own data
// ---------------------------------------------------------------------------

/// A call of a global method with `n` arguments is accepted exactly when the
/// method has no described signature or one of its signatures has at most
/// `n` required parameters and at least `n` parameters.
pub proof fn law_call_valid_by_signatures(m: Method, name: Seq<char>, n: nat)
    ensures
        method_call_answer(Some(m), name, n).0 <==> (m.signatures@.len() == 0 || exists|i: int|
            #![trigger m.signatures@[i]]
            0 <= i < m.signatures@.len() && m.signatures@[i].deep_view().parameters.filter(
                |p: ParameterModel| p.required,
            ).len() <= n <= m.signatures@[i].deep_view().parameters.len()),
{
    let bs = briefs_of(m);
    assert(bs.len() == m.signatures@.len());
    assert forall|i: int| 0 <= i < bs.len() implies #[trigger] bs[i] == brief_model(m.signatures@[i].deep_view()) by {}
    if any_fits(bs, n) {
        let i = choose|i: int| 0 <= i < bs.len() && fits(#[trigger] bs[i], n);
        law_signature_bounds(m.signatures@[i].deep_view(), n);
        assert(bs[i] == brief_model(m.signatures@[i].deep_view()));
    }
    if exists|i: int|
        #![trigger m.signatures@[i]]
        0 <= i < m.signatures@.len() && m.signatures@[i].deep_view().parameters.filter(
            |p: ParameterModel| p.required,
        ).len() <= n <= m.signatures@[i].deep_view().parameters.len() {
        let i = choose|i: int|
            #![trigger m.signatures@[i]]
            0 <= i < m.signatures@.len() && m.signatures@[i].deep_view().parameters.filter(
                |p: ParameterModel| p.required,
            ).len() <= n <= m.signatures@[i].deep_view().parameters.len();
        law_signature_bounds(m.signatures@[i].deep_view(), n);
        assert(bs[i] == brief_model(m.signatures@[i].deep_view()));
        assert(fits(bs[i], n));
    }
}

/// One of the enumeration values has the Russian or English name `v`,
/// regardless of case.
pub open spec fn value_in(t: Type, v: Seq<char>) -> bool {
    exists|i: int|
        #![trigger t.enum_values@[i]]
        0 <= i < t.enum_values@.len() && (lowercase(t.enum_values@[i].name_ru@) == lowercase(v) || lowercase(
            t.enum_values@[i].name_en@,
        ) == lowercase(v))
}

/// A `Name.Value` reference whose name stands for a system enumeration gives
/// no finding when one of its values has that name (Russian or English, any
/// case), and an unknown-value finding when none has.
pub proof fn law_enum_reference(
    index: PlatformIndex,
    sm: Option<Seq<ScopeModel>>,
    s: Seq<char>,
    m: (int, int, int),
    tn: Seq<char>,
    t: Type,
)
    requires
        !left_blocked(s, m.0),
        resolve_head(index, sm, s, m.0, s.subrange(m.0, m.1)) == Some(tn),
        index.lookup_type(tn) == Some(t),
        t.enum_values@.len() > 0,
    ensures
        value_in(t, s.subrange(m.1 + 1, m.2)) ==> dot_error(index, sm, s, m) is None,
        !value_in(t, s.subrange(m.1 + 1, m.2)) ==> (dot_error(index, sm, s, m) matches Some(f) && f.kind
            == ExprErrorKind::UnknownEnumValue),
{
    let v = s.subrange(m.1 + 1, m.2);
    if has_enum_value(t, v) {
        let i = choose|i: int| 0 <= i < t.enum_values@.len() && #[trigger] value_named(t.enum_values@[i], v);
        assert(lowercase(t.enum_values@[i].name_ru@) == lowercase(v) || lowercase(t.enum_values@[i].name_en@) == lowercase(v));
    }
    if value_in(t, v) {
        let i = choose|i: int|
            #![trigger t.enum_values@[i]]
            0 <= i < t.enum_values@.len() && (lowercase(t.enum_values@[i].name_ru@) == lowercase(v) || lowercase(
                t.enum_values@[i].name_en@,
            ) == lowercase(v));
        assert(value_named(t.enum_values@[i], v));
    }
}

/// A property card opens with the property's Russian name as a heading.
pub proof fn law_property_card_heading(p: PropertyModel)
    ensures
        ("### "@ + p.name_ru + "\n\n"@).is_prefix_of(property_text(p)),
{
    let h = "### "@ + p.name_ru + "\n\n"@;
    assert(property_text(p).subrange(0, h.len() as int) =~= h);
}
} // verus!
