//! Point checks by exact name:
//! - [`validate_enum`]: `<TypeX>.<ValueY>` against the system enumerations;
//! - [`validate_method_call`]: the argument count of a global method call
//!   against its overloads.
use vstd::prelude::*;

use crate::entities::{EnumValue, Method, Parameter, ParameterModel, Signature, SignatureModel};
use crate::format::inline_params;
use crate::seqs::{lemma_add_assoc, lemma_deep_view_insert, strings_view, lemma_deep_view_push, lemma_map_take_succ, lemma_take_full, lemma_take_succ};
use crate::storage::{first_method_named, PlatformIndex};
use crate::text::{
    chars_of, decimal, join, lowercase, push_str_chars, string_from_chars, to_lowercase,
    usize_to_string,
};

verus! {

// ---------------------------------------------------------------------------
// Levenshtein distance
// ---------------------------------------------------------------------------

pub open spec fn min3(a: nat, b: nat, c: nat) -> nat {
    let m = if a <= b {
        a
    } else {
        b
    };
    if m <= c {
        m
    } else {
        c
    }
}

/// Edit distance (insertions, deletions, substitutions of characters).
pub open spec fn lev(a: Seq<char>, b: Seq<char>) -> nat
    decreases a.len() + b.len(),
{
    if a.len() == 0 {
        b.len()
    } else if b.len() == 0 {
        a.len()
    } else {
        min3(
            lev(a, b.drop_last()) + 1,
            lev(a.drop_last(), b) + 1,
            lev(a.drop_last(), b.drop_last()) + if a.last() == b.last() {
                0nat
            } else {
                1nat
            },
        )
    }
}

pub proof fn lemma_lev_bound(a: Seq<char>, b: Seq<char>)
    ensures
        lev(a, b) <= if a.len() >= b.len() {
            a.len()
        } else {
            b.len()
        },
    decreases a.len() + b.len(),
{
    if a.len() > 0 && b.len() > 0 {
        lemma_lev_bound(a.drop_last(), b.drop_last());
    }
}

/// Levenshtein distance between two strings, counted in characters.
pub fn levenshtein(a: &str, b: &str) -> (r: usize)
    ensures
        r == lev(a@, b@),
{
    let av = chars_of(a);
    let bv = chars_of(b);
    lev_chars(&av, &bv)
}

pub fn lev_chars(av: &Vec<char>, bv: &Vec<char>) -> (r: usize)
    ensures
        r == lev(av@, bv@),
{
    let n = av.len();
    let m = bv.len();
    if n == 0 {
        return m;
    }
    if m == 0 {
        return n;
    }
    let ghost big: int = if n >= m {
        n as int
    } else {
        m as int
    };
    let mut prev: Vec<u128> = Vec::new();
    prev.push(0);
    assert(bv@.take(0).len() == 0);
    for j in 0..m
        invariant
            m == bv@.len(),
            prev@.len() == j + 1,
            forall|k: int| 0 <= k <= j ==> prev@[k] == lev(av@.take(0), bv@.take(k)),
    {
        prev.push((j + 1) as u128);
        assert(av@.take(0).len() == 0);
    }
    let mut curr: Vec<u128> = Vec::new();
    for k in 0..m
        invariant
            curr@.len() == k,
    {
        curr.push(0);
    }
    curr.push(0);
    for ii in 0..n
        invariant
            n == av@.len(),
            m == bv@.len(),
            m > 0,
            big == if n >= m {
                n as int
            } else {
                m as int
            },
            prev@.len() == m + 1,
            curr@.len() == m + 1,
            forall|k: int| 0 <= k <= m ==> prev@[k] == lev(av@.take(ii as int), bv@.take(k)),
            forall|k: int| 0 <= k <= m ==> prev@[k] <= big,
    {
        let i = ii + 1;
        curr.set(0, i as u128);
        proof {
            assert(bv@.take(0).len() == 0);
            assert(av@.take(i as int).len() == i);
        }
        for jj in 0..m
            invariant
                1 <= i <= n,
                i == ii + 1,
                n == av@.len(),
                m == bv@.len(),
                big == if n >= m {
                    n as int
                } else {
                    m as int
                },
                prev@.len() == m + 1,
                curr@.len() == m + 1,
                forall|k: int| 0 <= k <= m ==> prev@[k] == lev(av@.take(i - 1), bv@.take(k)),
                forall|k: int| 0 <= k <= m ==> prev@[k] <= big,
                forall|k: int| 0 <= k <= jj ==> curr@[k] == lev(av@.take(i as int), bv@.take(k)),
                forall|k: int| 0 <= k <= jj ==> curr@[k] <= big,
        {
            let j = jj + 1;
            let cost: u128 = if av[i - 1] == bv[j - 1] {
                0
            } else {
                1
            };
            let ins = curr[j - 1] + 1;
            let del = prev[j] + 1;
            let sub = prev[j - 1] + cost;
            let mut best = if ins <= del {
                ins
            } else {
                del
            };
            if sub < best {
                best = sub;
            }
            proof {
                let a = av@.take(i as int);
                let b = bv@.take(j as int);
                assert(a.drop_last() =~= av@.take(i - 1));
                assert(b.drop_last() =~= bv@.take(j - 1));
                assert(a.last() == av@[i - 1]);
                assert(b.last() == bv@[j - 1]);
                lemma_lev_bound(a, b);
            }
            curr.set(j, best);
        }
        std::mem::swap(&mut prev, &mut curr);
    }
    proof {
        assert(av@.take(n as int) =~= av@);
        assert(bv@.take(m as int) =~= bv@);
    }
    prev[m] as usize
}

// ---------------------------------------------------------------------------
// Method calls
// ---------------------------------------------------------------------------

/// Short description of an overload returned to the client.
#[derive(Debug, Clone)]
pub struct SignatureBrief {
    pub name: String,
    pub min_args: usize,
    pub max_args: usize,
    pub formatted: String,
}

pub struct SignatureBriefModel {
    pub name: Seq<char>,
    pub min_args: nat,
    pub max_args: nat,
    pub formatted: Seq<char>,
}

impl DeepView for SignatureBrief {
    type V = SignatureBriefModel;

    open spec fn deep_view(&self) -> SignatureBriefModel {
        SignatureBriefModel {
            name: self.name@,
            min_args: self.min_args as nat,
            max_args: self.max_args as nat,
            formatted: self.formatted@,
        }
    }
}

/// Number of required parameters.
pub open spec fn required_count(ps: Seq<ParameterModel>) -> nat
    decreases ps.len(),
{
    if ps.len() == 0 {
        0
    } else {
        required_count(ps.drop_last()) + if ps.last().required {
            1nat
        } else {
            0nat
        }
    }
}

pub open spec fn brief_model(s: SignatureModel) -> SignatureBriefModel {
    SignatureBriefModel {
        name: s.name,
        min_args: required_count(s.parameters),
        max_args: s.parameters.len(),
        formatted: inline_params(s.parameters),
    }
}

proof fn lemma_required_count_bound(ps: Seq<ParameterModel>)
    ensures
        required_count(ps) <= ps.len(),
    decreases ps.len(),
{
    if ps.len() > 0 {
        lemma_required_count_bound(ps.drop_last());
    }
}

fn inline_params_string(ps: &Vec<Parameter>) -> (r: String)
    ensures
        r@ == inline_params(ps.deep_view()),
{
    let mut buf: Vec<char> = Vec::new();
    crate::format::push_inline_params(&mut buf, ps);
    assert(buf@ =~= inline_params(ps.deep_view()));
    string_from_chars(&buf)
}

/// Brief of an overload: the counts of required and of all parameters, and
/// the parameters inline.
pub fn brief_signature(s: &Signature) -> (r: SignatureBrief)
    ensures
        r.deep_view() == brief_model(s.deep_view()),
{
    let ghost ps = s.parameters.deep_view();
    let mut min_args: usize = 0;
    let mut i: usize = 0;
    while i < s.parameters.len()
        invariant
            i <= s.parameters@.len(),
            ps == s.parameters.deep_view(),
            min_args == required_count(ps.take(i as int)),
            min_args <= i,
        decreases s.parameters.len() - i,
    {
        proof {
            lemma_take_succ(ps, i as int);
            assert(ps.take(i + 1).drop_last() =~= ps.take(i as int));
        }
        if s.parameters[i].required {
            min_args = min_args + 1;
        }
        i = i + 1;
    }
    proof {
        lemma_take_full(ps);
    }
    SignatureBrief {
        name: s.name.clone(),
        min_args,
        max_args: s.parameters.len(),
        formatted: inline_params_string(&s.parameters),
    }
}

/// Result of checking a global method call.
#[derive(Debug, Clone)]
pub struct MethodCallValidation {
    pub valid: bool,
    pub method_name: String,
    pub arg_count: usize,
    /// All known overloads; empty when the method was not found.
    pub signatures: Vec<SignatureBrief>,
    pub message: String,
}

pub open spec fn fits(b: SignatureBriefModel, n: nat) -> bool {
    b.min_args <= n && n <= b.max_args
}

pub open spec fn any_fits(bs: Seq<SignatureBriefModel>, n: nat) -> bool {
    exists|i: int| 0 <= i < bs.len() && fits(#[trigger] bs[i], n)
}

pub open spec fn range_text(b: SignatureBriefModel) -> Seq<char> {
    if b.min_args == b.max_args {
        decimal(b.min_args)
    } else {
        decimal(b.min_args) + ".."@ + decimal(b.max_args)
    }
}

pub open spec fn briefs_of(m: Method) -> Seq<SignatureBriefModel> {
    m.signatures.deep_view().map_values(|s: SignatureModel| brief_model(s))
}

/// What `validate_method_call` answers, as a function of the method found.
pub open spec fn method_call_answer(found: Option<Method>, name: Seq<char>, n: nat) -> (
    bool,
    Seq<char>,
    Seq<SignatureBriefModel>,
    Seq<char>,
) {
    match found {
        None => (
            false,
            name,
            Seq::empty(),
            "❌ Глобальный метод '"@ + name + "' не найден в платформенном контексте."@,
        ),
        Some(m) => {
            let bs = briefs_of(m);
            if bs.len() == 0 {
                (
                    true,
                    m.name_ru@,
                    bs,
                    "⚠️ У метода '"@ + m.name_ru@
                        + "' нет описанных сигнатур — число аргументов не проверено."@,
                )
            } else if any_fits(bs, n) {
                (
                    true,
                    m.name_ru@,
                    bs,
                    "✅ Вызов '"@ + m.name_ru@ + "' с "@ + decimal(n) + " аргументами допустим."@,
                )
            } else {
                (
                    false,
                    m.name_ru@,
                    bs,
                    "❌ Метод '"@ + m.name_ru@ + "' не принимает "@ + decimal(n)
                        + " аргументов. Допустимо: "@ + join(
                        bs.map_values(|b: SignatureBriefModel| range_text(b)),
                        " / "@,
                    ) + "."@,
                )
            }
        },
    }
}

fn briefs(m: &Method) -> (r: Vec<SignatureBrief>)
    ensures
        r.deep_view() == briefs_of(*m),
{
    let ghost f = |s: SignatureModel| brief_model(s);
    let ghost ss = m.signatures.deep_view();
    let mut out: Vec<SignatureBrief> = Vec::new();
    let mut i: usize = 0;
    while i < m.signatures.len()
        invariant
            i <= m.signatures@.len(),
            ss == m.signatures.deep_view(),
            f == (|s: SignatureModel| brief_model(s)),
            out.deep_view() == ss.take(i as int).map_values(f),
        decreases m.signatures.len() - i,
    {
        let item = brief_signature(&m.signatures[i]);
        let ghost prev = out;
        out.push(item);
        proof {
            lemma_deep_view_push(prev, out, item);
            lemma_map_take_succ(ss, i as int, f);
        }
        i = i + 1;
    }
    proof {
        lemma_take_full(ss);
    }
    out
}

fn push_ranges(buf: &mut Vec<char>, bs: &Vec<SignatureBrief>)
    ensures
        final(buf)@ == old(buf)@ + join(
            bs.deep_view().map_values(|b: SignatureBriefModel| range_text(b)),
            " / "@,
        ),
{
    let ghost start = buf@;
    let ghost f = |b: SignatureBriefModel| range_text(b);
    let ghost s = bs.deep_view();
    let mut i: usize = 0;
    assert(start =~= start + join(s.take(0).map_values(f), " / "@));
    while i < bs.len()
        invariant
            i <= bs@.len(),
            s == bs.deep_view(),
            f == (|b: SignatureBriefModel| range_text(b)),
            buf@ == start + join(s.take(i as int).map_values(f), " / "@),
        decreases bs.len() - i,
    {
        let b = &bs[i];
        let ghost before = buf@;
        if i > 0 {
            push_str_chars(buf, " / ");
        }
        let lo = usize_to_string(b.min_args);
        push_str_chars(buf, lo.as_str());
        if b.min_args != b.max_args {
            push_str_chars(buf, "..");
            let hi = usize_to_string(b.max_args);
            push_str_chars(buf, hi.as_str());
        }
        proof {
            let piece = if i > 0 {
                " / "@ + f(s[i as int])
            } else {
                f(s[i as int])
            };
            assert(buf@ =~= before + piece);
            crate::format::lemma_join_step(start, s, i as int, f, " / "@, before, buf@);
        }
        i = i + 1;
    }
    proof {
        lemma_take_full(s);
    }
}

/// Checks a call of a global method: the argument count must fall within
/// `[min..=max]` of at least one overload. An unknown method is invalid; a
/// method without described overloads is valid (with a warning).
pub fn validate_method_call(index: &PlatformIndex, method_name: &str, arg_count: usize) -> (r:
    MethodCallValidation)
    ensures
        (r.valid, r.method_name@, r.signatures.deep_view(), r.message@) == method_call_answer(
            first_method_named(index.global_methods@, method_name@),
            method_name@,
            arg_count as nat,
        ),
        r.arg_count == arg_count,
{
    let found = index.find_global_method(method_name);
    match found {
        None => {
            let mut buf: Vec<char> = Vec::new();
            push_str_chars(&mut buf, "❌ Глобальный метод '");
            push_str_chars(&mut buf, method_name);
            push_str_chars(&mut buf, "' не найден в платформенном контексте.");
            let r = MethodCallValidation {
                valid: false,
                method_name: String::from_str(method_name),
                arg_count,
                signatures: Vec::new(),
                message: string_from_chars(&buf),
            };
            assert(r.signatures.deep_view() =~= Seq::empty());
            assert(buf@ =~= "❌ Глобальный метод '"@ + method_name@
                + "' не найден в платформенном контексте."@);
            r
        },
        Some(method) => {
            let signatures = briefs(method);
            let ghost bs = signatures.deep_view();
            let name = method.name_ru.as_str();
            if signatures.len() == 0 {
                let mut buf: Vec<char> = Vec::new();
                push_str_chars(&mut buf, "⚠️ У метода '");
                push_str_chars(&mut buf, name);
                push_str_chars(&mut buf, "' нет описанных сигнатур — число аргументов не проверено.");
                assert(buf@ =~= "⚠️ У метода '"@ + name@
                    + "' нет описанных сигнатур — число аргументов не проверено."@);
                return MethodCallValidation {
                    valid: true,
                    method_name: method.name_ru.clone(),
                    arg_count,
                    signatures,
                    message: string_from_chars(&buf),
                };
            }
            let mut any_match = false;
            let mut i: usize = 0;
            while i < signatures.len()
                invariant
                    i <= signatures@.len(),
                    bs == signatures.deep_view(),
                    any_match == exists|k: int| 0 <= k < i && fits(#[trigger] bs[k], arg_count as nat),
                decreases signatures.len() - i,
            {
                if arg_count >= signatures[i].min_args && arg_count <= signatures[i].max_args {
                    any_match = true;
                }
                proof {
                    assert(bs[i as int] == signatures@[i as int].deep_view());
                }
                i = i + 1;
            }
            let count = usize_to_string(arg_count);
            if any_match {
                let mut buf: Vec<char> = Vec::new();
                push_str_chars(&mut buf, "✅ Вызов '");
                push_str_chars(&mut buf, name);
                push_str_chars(&mut buf, "' с ");
                push_str_chars(&mut buf, count.as_str());
                push_str_chars(&mut buf, " аргументами допустим.");
                assert(buf@ =~= "✅ Вызов '"@ + name@ + "' с "@ + decimal(arg_count as nat)
                    + " аргументами допустим."@);
                MethodCallValidation {
                    valid: true,
                    method_name: method.name_ru.clone(),
                    arg_count,
                    signatures,
                    message: string_from_chars(&buf),
                }
            } else {
                let mut buf: Vec<char> = Vec::new();
                push_str_chars(&mut buf, "❌ Метод '");
                push_str_chars(&mut buf, name);
                push_str_chars(&mut buf, "' не принимает ");
                push_str_chars(&mut buf, count.as_str());
                push_str_chars(&mut buf, " аргументов. Допустимо: ");
                push_ranges(&mut buf, &signatures);
                push_str_chars(&mut buf, ".");
                assert(buf@ =~= "❌ Метод '"@ + name@ + "' не принимает "@ + decimal(
                    arg_count as nat,
                ) + " аргументов. Допустимо: "@ + join(
                    bs.map_values(|b: SignatureBriefModel| range_text(b)),
                    " / "@,
                ) + "."@);
                MethodCallValidation {
                    valid: false,
                    method_name: method.name_ru.clone(),
                    arg_count,
                    signatures,
                    message: string_from_chars(&buf),
                }
            }
        },
    }
}


// ---------------------------------------------------------------------------
// Enumeration values
// ---------------------------------------------------------------------------

/// A similar value suggested for an unknown enumeration value. Its score is
/// `1 - distance / max_len` (`1` when `max_len` is zero); suggestions are
/// ordered by decreasing score.
#[derive(Debug, Clone)]
pub struct SimilarValue {
    pub name: String,
    /// Levenshtein distance between the query and the compared name.
    pub distance: usize,
    /// The larger of the two character counts.
    pub max_len: usize,
}

pub struct SimilarModel {
    pub name: Seq<char>,
    pub distance: nat,
    pub max_len: nat,
}

impl DeepView for SimilarValue {
    type V = SimilarModel;

    open spec fn deep_view(&self) -> SimilarModel {
        SimilarModel {
            name: self.name@,
            distance: self.distance as nat,
            max_len: self.max_len as nat,
        }
    }
}

pub open spec fn max_nat(a: nat, b: nat) -> nat {
    if a >= b {
        a
    } else {
        b
    }
}

/// Candidate for the value `v` compared through its name `n`.
pub open spec fn candidate(q: Seq<char>, v: EnumValue, n: Seq<char>) -> SimilarModel {
    SimilarModel {
        name: v.name_ru@,
        distance: lev(q, lowercase(n)),
        max_len: max_nat(q.len(), lowercase(n).len()),
    }
}

/// Candidates of one value: through its Russian name, then its English name,
/// each when not empty.
pub open spec fn value_candidates(q: Seq<char>, v: EnumValue) -> Seq<SimilarModel> {
    (if v.name_ru@.len() > 0 {
        seq![candidate(q, v, v.name_ru@)]
    } else {
        Seq::empty()
    }) + (if v.name_en@.len() > 0 {
        seq![candidate(q, v, v.name_en@)]
    } else {
        Seq::empty()
    })
}

pub open spec fn candidates(q: Seq<char>, vs: Seq<EnumValue>) -> Seq<SimilarModel>
    decreases vs.len(),
{
    if vs.len() == 0 {
        Seq::empty()
    } else {
        candidates(q, vs.drop_last()) + value_candidates(q, vs.last())
    }
}

/// `x` scores strictly higher than `y` (compares `distance / max_len` exactly).
pub open spec fn better(x: SimilarModel, y: SimilarModel) -> bool {
    x.distance * max_nat(y.max_len, 1) < y.distance * max_nat(x.max_len, 1)
}

/// Where a stable insertion puts `x`: before the first element it beats.
pub open spec fn insert_pos(t: Seq<SimilarModel>, x: SimilarModel) -> nat
    decreases t.len(),
{
    if t.len() == 0 {
        0
    } else if better(x, t[0]) {
        0
    } else {
        1 + insert_pos(t.drop_first(), x)
    }
}

/// Stable sort by decreasing score.
pub open spec fn sort_by_score(s: Seq<SimilarModel>) -> Seq<SimilarModel>
    decreases s.len(),
{
    if s.len() == 0 {
        s
    } else {
        let t = sort_by_score(s.drop_last());
        t.insert(insert_pos(t, s.last()) as int, s.last())
    }
}

/// Keeps the first entry of each name (compared in lowercase).
pub open spec fn dedup_names(s: Seq<SimilarModel>, seen: Seq<Seq<char>>) -> Seq<SimilarModel>
    decreases s.len(),
{
    if s.len() == 0 {
        s
    } else if seen.contains(lowercase(s[0].name)) {
        dedup_names(s.drop_first(), seen)
    } else {
        seq![s[0]] + dedup_names(s.drop_first(), seen.push(lowercase(s[0].name)))
    }
}

/// The `top` best distinct suggestions for the lowercase query `q`.
pub open spec fn top_similar_spec(q: Seq<char>, vs: Seq<EnumValue>, top: nat) -> Seq<
    SimilarModel,
> {
    let d = dedup_names(sort_by_score(candidates(q, vs)), Seq::empty());
    if top <= d.len() {
        d.take(top as int)
    } else {
        d
    }
}

proof fn lemma_insert_pos_bound(t: Seq<SimilarModel>, x: SimilarModel)
    ensures
        insert_pos(t, x) <= t.len(),
    decreases t.len(),
{
    if t.len() > 0 && !better(x, t[0]) {
        lemma_insert_pos_bound(t.drop_first(), x);
    }
}

fn similar_of(q: &Vec<char>, v: &EnumValue, n: &str) -> (r: SimilarValue)
    ensures
        r.deep_view() == candidate(q@, *v, n@),
{
    let low = to_lowercase(n);
    let lv = chars_of(low.as_str());
    let d = lev_chars(q, &lv);
    let m = if q.len() >= lv.len() {
        q.len()
    } else {
        lv.len()
    };
    SimilarValue { name: v.name_ru.clone(), distance: d, max_len: m }
}

fn better_exec(x: &SimilarValue, y: &SimilarValue) -> (r: bool)
    ensures
        r == better(x.deep_view(), y.deep_view()),
{
    let xm: u128 = if x.max_len >= 1 {
        x.max_len as u128
    } else {
        1
    };
    let ym: u128 = if y.max_len >= 1 {
        y.max_len as u128
    } else {
        1
    };
    assert(x.distance as u128 * ym <= 0xffff_ffff_ffff_ffff * 0xffff_ffff_ffff_ffff) by (nonlinear_arith)
        requires
            x.distance <= 0xffff_ffff_ffff_ffff,
            ym <= 0xffff_ffff_ffff_ffff,
    ;
    assert(y.distance as u128 * xm <= 0xffff_ffff_ffff_ffff * 0xffff_ffff_ffff_ffff) by (nonlinear_arith)
        requires
            y.distance <= 0xffff_ffff_ffff_ffff,
            xm <= 0xffff_ffff_ffff_ffff,
    ;
    (x.distance as u128) * ym < (y.distance as u128) * xm
}

fn build_candidates(q: &Vec<char>, values: &[EnumValue]) -> (r: Vec<SimilarValue>)
    ensures
        r.deep_view() == candidates(q@, values@),
{
    let mut out: Vec<SimilarValue> = Vec::new();
    let mut i: usize = 0;
    while i < values.len()
        invariant
            i <= values@.len(),
            out.deep_view() == candidates(q@, values@.take(i as int)),
        decreases values.len() - i,
    {
        let v = &values[i];
        let ghost before = out.deep_view();
        if !v.name_ru.as_str().is_empty() {
            let c = similar_of(q, v, v.name_ru.as_str());
            let ghost prev = out;
            out.push(c);
            proof {
                lemma_deep_view_push(prev, out, c);
            }
        }
        let ghost mid = out.deep_view();
        if !v.name_en.as_str().is_empty() {
            let c = similar_of(q, v, v.name_en.as_str());
            let ghost prev = out;
            out.push(c);
            proof {
                lemma_deep_view_push(prev, out, c);
            }
        }
        proof {
            let vs = values@.take(i + 1);
            assert(vs.drop_last() =~= values@.take(i as int));
            assert(vs.last() == *v);
            assert(out.deep_view() =~= before + value_candidates(q@, *v));
        }
        i = i + 1;
    }
    proof {
        lemma_take_full(values@);
    }
    out
}

impl SimilarValue {
    pub fn copy(&self) -> (r: Self)
        ensures
            r.deep_view() == self.deep_view(),
    {
        SimilarValue { name: self.name.clone(), distance: self.distance, max_len: self.max_len }
    }
}

fn find_insert_pos(t: &Vec<SimilarValue>, x: &SimilarValue) -> (r: usize)
    ensures
        r == insert_pos(t.deep_view(), x.deep_view()),
{
    let ghost tv = t.deep_view();
    let ghost xv = x.deep_view();
    let mut k: usize = 0;
    proof {
        assert(tv.subrange(0, tv.len() as int) =~= tv);
    }
    while k < t.len() && !better_exec(x, &t[k])
        invariant
            k <= t@.len(),
            tv == t.deep_view(),
            xv == x.deep_view(),
            insert_pos(tv, xv) == k + insert_pos(tv.subrange(k as int, tv.len() as int), xv),
        decreases t.len() - k,
    {
        proof {
            let sub = tv.subrange(k as int, tv.len() as int);
            assert(sub[0] == tv[k as int]);
            assert(sub.drop_first() =~= tv.subrange(k + 1, tv.len() as int));
        }
        k = k + 1;
    }
    proof {
        let sub = tv.subrange(k as int, tv.len() as int);
        if k < t@.len() {
            assert(sub[0] == tv[k as int]);
        }
    }
    k
}

fn sort_candidates(c: &Vec<SimilarValue>) -> (r: Vec<SimilarValue>)
    ensures
        r.deep_view() == sort_by_score(c.deep_view()),
{
    let ghost cv = c.deep_view();
    let mut sorted: Vec<SimilarValue> = Vec::new();
    let mut i: usize = 0;
    assert(cv.take(0) =~= Seq::<SimilarModel>::empty());
    while i < c.len()
        invariant
            i <= c@.len(),
            cv == c.deep_view(),
            sorted.deep_view() == sort_by_score(cv.take(i as int)),
        decreases c.len() - i,
    {
        let x = c[i].copy();
        let pos = find_insert_pos(&sorted, &x);
        proof {
            lemma_insert_pos_bound(sorted.deep_view(), x.deep_view());
        }
        let ghost prev = sorted;
        sorted.insert(pos, x);
        proof {
            lemma_deep_view_insert(prev, sorted, pos as int, x);
            let s = cv.take(i + 1);
            assert(s.drop_last() =~= cv.take(i as int));
            assert(s.last() == x.deep_view());
        }
        i = i + 1;
    }
    proof {
        lemma_take_full(cv);
    }
    sorted
}

fn contains_string(v: &Vec<String>, k: &String) -> (r: bool)
    ensures
        r == strings_view(v@).contains(k@),
{
    let mut i: usize = 0;
    while i < v.len()
        invariant
            i <= v@.len(),
            forall|j: int| 0 <= j < i ==> v@[j]@ != k@,
        decreases v.len() - i,
    {
        if v[i] == *k {
            assert(strings_view(v@)[i as int] == k@);
            return true;
        }
        i = i + 1;
    }
    proof {
        if strings_view(v@).contains(k@) {
            let j = choose|j: int| 0 <= j < strings_view(v@).len() && strings_view(v@)[j] == k@;
            assert(v@[j]@ == k@);
        }
    }
    false
}

fn dedup_candidates(s: &Vec<SimilarValue>) -> (r: Vec<SimilarValue>)
    ensures
        r.deep_view() == dedup_names(s.deep_view(), Seq::empty()),
{
    let ghost sv = s.deep_view();
    let mut out: Vec<SimilarValue> = Vec::new();
    let mut seen: Vec<String> = Vec::new();
    let mut i: usize = 0;
    proof {
        assert(sv.skip(0) =~= sv);
        assert(strings_view(seen@) =~= Seq::<Seq<char>>::empty());
        assert(out.deep_view() + dedup_names(sv, Seq::empty()) =~= dedup_names(sv, Seq::empty()));
    }
    while i < s.len()
        invariant
            i <= s@.len(),
            sv == s.deep_view(),
            dedup_names(sv, Seq::empty()) == out.deep_view() + dedup_names(
                sv.skip(i as int),
                strings_view(seen@),
            ),
        decreases s.len() - i,
    {
        let key = to_lowercase(s[i].name.as_str());
        let ghost rest = sv.skip(i as int);
        proof {
            assert(rest[0] == sv[i as int]);
            assert(rest.drop_first() =~= sv.skip(i + 1));
        }
        if !contains_string(&seen, &key) {
            let x = s[i].copy();
            let ghost prev = out;
            let ghost seen_before = strings_view(seen@);
            out.push(x);
            seen.push(key);
            proof {
                lemma_deep_view_push(prev, out, x);
                assert(strings_view(seen@) =~= seen_before.push(key@));
                lemma_add_assoc(
                    prev.deep_view(),
                    seq![x.deep_view()],
                    dedup_names(sv.skip(i + 1), strings_view(seen@)),
                );
            }
        }
        i = i + 1;
    }
    proof {
        assert(sv.skip(sv.len() as int) =~= Seq::<SimilarModel>::empty());
        assert(out.deep_view() + Seq::<SimilarModel>::empty() =~= out.deep_view());
    }
    out
}

/// The `top` most similar distinct values to the lowercase query.
pub fn top_similar(query: &str, values: &[EnumValue], top: usize) -> (r: Vec<SimilarValue>)
    ensures
        r.deep_view() == top_similar_spec(query@, values@, top as nat),
{
    let q = chars_of(query);
    let cands = build_candidates(&q, values);
    let sorted = sort_candidates(&cands);
    let mut d = dedup_candidates(&sorted);
    let ghost dv = d.deep_view();
    let ghost before = d;
    d.truncate(top);
    proof {
        if top <= dv.len() {
            assert(d.deep_view() =~= dv.take(top as int));
        } else {
            assert(d@ == before@);
            assert(d.deep_view() =~= dv);
        }
    }
    d
}

/// Result of checking an enumeration value.
#[derive(Debug, Clone)]
pub struct EnumValidation {
    pub valid: bool,
    /// Name of the type (as stored, when found).
    pub enum_type: String,
    pub value_name: String,
    /// Russian names of all legal values; empty when the type is not an enumeration or not found.
    pub all_valid_values: Vec<String>,
    /// Up to five closest values (only when `valid` is false).
    pub similar: Vec<SimilarValue>,
    /// Human-readable text, always present.
    pub message: String,
}

pub open spec fn value_matches(v: EnumValue, value: Seq<char>) -> bool {
    lowercase(v.name_ru@) == lowercase(value) || lowercase(v.name_en@) == lowercase(value)
}

pub open spec fn has_value(vs: Seq<EnumValue>, value: Seq<char>) -> bool {
    exists|i: int| 0 <= i < vs.len() && value_matches(#[trigger] vs[i], value)
}

pub open spec fn suggestion_text(similar: Seq<SimilarModel>) -> Seq<char> {
    if similar.len() > 0 {
        " Похожее: '"@ + similar[0].name + "'."@
    } else {
        Seq::empty()
    }
}

/// What `validate_enum` answers, as a function of the type found:
/// (valid, type name, value name, all values, similar values, message).
pub open spec fn enum_answer(found: Option<crate::entities::Type>, type_label: Seq<char>, value: Seq<char>) -> (
    bool,
    Seq<char>,
    Seq<char>,
    Seq<Seq<char>>,
    Seq<SimilarModel>,
    Seq<char>,
) {
    match found {
        None => (
            false,
            type_label,
            value,
            Seq::empty(),
            Seq::empty(),
            "❌ Тип '"@ + type_label + "' не найден в платформенном контексте."@,
        ),
        Some(t) => if t.enum_values@.len() == 0 {
            (
                false,
                t.name_ru@,
                value,
                Seq::empty(),
                Seq::empty(),
                "❌ Тип '"@ + t.name_ru@ + "' не является системным перечислением."@,
            )
        } else {
            let all = t.enum_values@.map_values(|v: EnumValue| v.name_ru@);
            if has_value(t.enum_values@, value) {
                (
                    true,
                    t.name_ru@,
                    value,
                    all,
                    Seq::empty(),
                    "✅ Значение '"@ + value + "' допустимо для типа '"@ + t.name_ru@ + "'."@,
                )
            } else {
                let similar = top_similar_spec(lowercase(value), t.enum_values@, 5);
                (
                    false,
                    t.name_ru@,
                    value,
                    all,
                    similar,
                    "❌ Значение '"@ + value + "' не существует у типа '"@ + t.name_ru@ + "'."@
                        + suggestion_text(similar),
                )
            }
        },
    }
}

fn enum_value_names(vs: &Vec<EnumValue>) -> (r: Vec<String>)
    ensures
        strings_view(r@) == vs@.map_values(|v: EnumValue| v.name_ru@),
{
    let mut out: Vec<String> = Vec::new();
    let mut i: usize = 0;
    while i < vs.len()
        invariant
            i <= vs@.len(),
            strings_view(out@) == vs@.take(i as int).map_values(|v: EnumValue| v.name_ru@),
        decreases vs.len() - i,
    {
        let ghost prev = out@;
        let name = vs[i].name_ru.clone();
        out.push(name);
        proof {
            let f = |v: EnumValue| v.name_ru@;
            lemma_map_take_succ(vs@, i as int, f);
            assert(strings_view(out@) =~= strings_view(prev).push(name@));
            assert(f(vs@[i as int]) == name@);
        }
        i = i + 1;
    }
    proof {
        lemma_take_full(vs@);
    }
    out
}

fn enum_has_value(vs: &Vec<EnumValue>, value: &str) -> (r: bool)
    ensures
        r == has_value(vs@, value@),
{
    let key = to_lowercase(value);
    let mut i: usize = 0;
    while i < vs.len()
        invariant
            i <= vs@.len(),
            key@ == lowercase(value@),
            forall|j: int| 0 <= j < i ==> !value_matches(#[trigger] vs@[j], value@),
        decreases vs.len() - i,
    {
        let ru = to_lowercase(vs[i].name_ru.as_str());
        let en = to_lowercase(vs[i].name_en.as_str());
        if ru == key || en == key {
            assert(value_matches(vs@[i as int], value@));
            return true;
        }
        i = i + 1;
    }
    false
}

/// Checks a value of a system enumeration.
pub fn validate_enum(index: &PlatformIndex, type_label: &str, value_name: &str) -> (r:
    EnumValidation)
    requires
        index.wf(),
    ensures
        (r.valid, r.enum_type@, r.value_name@, strings_view(r.all_valid_values@), r.similar.deep_view(), r.message@)
            == enum_answer(index.lookup_type(type_label@), type_label@, value_name@),
{
    match index.find_type(type_label) {
        None => {
            let mut buf: Vec<char> = Vec::new();
            push_str_chars(&mut buf, "❌ Тип '");
            push_str_chars(&mut buf, type_label);
            push_str_chars(&mut buf, "' не найден в платформенном контексте.");
            assert(buf@ =~= "❌ Тип '"@ + type_label@ + "' не найден в платформенном контексте."@);
            let r = EnumValidation {
                valid: false,
                enum_type: String::from_str(type_label),
                value_name: String::from_str(value_name),
                all_valid_values: Vec::new(),
                similar: Vec::new(),
                message: string_from_chars(&buf),
            };
            assert(strings_view(r.all_valid_values@) =~= Seq::empty());
            assert(r.similar.deep_view() =~= Seq::empty());
            r
        },
        Some(ty) => {
            if !ty.is_enum() {
                let mut buf: Vec<char> = Vec::new();
                push_str_chars(&mut buf, "❌ Тип '");
                push_str_chars(&mut buf, ty.name_ru.as_str());
                push_str_chars(&mut buf, "' не является системным перечислением.");
                assert(buf@ =~= "❌ Тип '"@ + ty.name_ru@ + "' не является системным перечислением."@);
                let r = EnumValidation {
                    valid: false,
                    enum_type: ty.name_ru.clone(),
                    value_name: String::from_str(value_name),
                    all_valid_values: Vec::new(),
                    similar: Vec::new(),
                    message: string_from_chars(&buf),
                };
                assert(strings_view(r.all_valid_values@) =~= Seq::empty());
                assert(r.similar.deep_view() =~= Seq::empty());
                return r;
            }
            let valid = enum_has_value(&ty.enum_values, value_name);
            let all_valid_values = enum_value_names(&ty.enum_values);
            if valid {
                let mut buf: Vec<char> = Vec::new();
                push_str_chars(&mut buf, "✅ Значение '");
                push_str_chars(&mut buf, value_name);
                push_str_chars(&mut buf, "' допустимо для типа '");
                push_str_chars(&mut buf, ty.name_ru.as_str());
                push_str_chars(&mut buf, "'.");
                assert(buf@ =~= "✅ Значение '"@ + value_name@ + "' допустимо для типа '"@
                    + ty.name_ru@ + "'."@);
                let r = EnumValidation {
                    valid: true,
                    enum_type: ty.name_ru.clone(),
                    value_name: String::from_str(value_name),
                    all_valid_values,
                    similar: Vec::new(),
                    message: string_from_chars(&buf),
                };
                assert(r.similar.deep_view() =~= Seq::empty());
                r
            } else {
                let value_lower = to_lowercase(value_name);
                let similar = top_similar(value_lower.as_str(), ty.enum_values.as_slice(), 5);
                let mut buf: Vec<char> = Vec::new();
                push_str_chars(&mut buf, "❌ Значение '");
                push_str_chars(&mut buf, value_name);
                push_str_chars(&mut buf, "' не существует у типа '");
                push_str_chars(&mut buf, ty.name_ru.as_str());
                push_str_chars(&mut buf, "'.");
                let ghost mid = buf@;
                if similar.len() > 0 {
                    push_str_chars(&mut buf, " Похожее: '");
                    push_str_chars(&mut buf, similar[0].name.as_str());
                    push_str_chars(&mut buf, "'.");
                }
                assert(buf@ =~= "❌ Значение '"@ + value_name@ + "' не существует у типа '"@
                    + ty.name_ru@ + "'."@ + suggestion_text(similar.deep_view()));
                EnumValidation {
                    valid: false,
                    enum_type: ty.name_ru.clone(),
                    value_name: String::from_str(value_name),
                    all_valid_values,
                    similar,
                    message: string_from_chars(&buf),
                }
            }
        },
    }
}

} // verus!
