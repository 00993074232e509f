//! Local type inference inside one procedure: which variables have a known
//! platform type.
//!
//! A variable gets a type from
//! 1. an annotation `// @type TypeX` shortly before its assignment;
//! 2. `X = Новый TypeX` (or `New`), when the index knows `TypeX`;
//! 3. `X = TypeX.ValueY`, when `TypeX` is an enumeration of the index.
//!
//! Procedures are found as `Процедура`/`Функция` `Name(...)` up to the next
//! `КонецПроцедуры`/`КонецФункции` (keywords in any case); a text without
//! any is one scope. Offsets are byte offsets into the text.
use vstd::prelude::*;

use std::collections::HashMap;

use crate::lexis::{
    byte_len, byte_offsets, ci_match, ci_match_exec, id_start, is_id_start, is_id_start_ci,
    is_word, lemma_byte_len_take, lemma_run_end, lemma_ws_end, lit_match, lit_match_exec,
    new_kw_len, new_kw_len_exec, run_end, run_end_exec, str_byte_len, word_end, word_end_exec,
    ws_end, ws_end_exec,
};
use crate::storage::PlatformIndex;
use crate::text::{
    char_is_alphanumeric, chars_of, copy_range, lowercase, string_from_chars, to_lowercase, trim,
    trim_vec,
};

verus! {

broadcast use vstd::std_specs::hash::group_hash_axioms;

// ---------------------------------------------------------------------------
// Scopes
// ---------------------------------------------------------------------------

/// One scope: the variables of known type in the byte range `[start, end)`.
#[derive(Debug, Clone)]
pub struct Scope {
    pub byte_start: usize,
    pub byte_end: usize,
    /// (lowercase variable name, type name), in order of assignment; a later
    /// entry for the same name replaces an earlier one.
    pub vars: Vec<(String, String)>,
}

pub struct ScopeModel {
    pub start: int,
    pub end: int,
    pub vars: Seq<(Seq<char>, Seq<char>)>,
}

impl DeepView for Scope {
    type V = ScopeModel;

    open spec fn deep_view(&self) -> ScopeModel {
        ScopeModel {
            start: self.byte_start as int,
            end: self.byte_end as int,
            vars: self.vars.deep_view(),
        }
    }
}

/// The type of the last entry for `key`.
pub open spec fn var_type(vars: Seq<(Seq<char>, Seq<char>)>, key: Seq<char>) -> Option<Seq<char>>
    decreases vars.len(),
{
    if vars.len() == 0 {
        None
    } else if vars.last().0 == key {
        Some(vars.last().1)
    } else {
        var_type(vars.drop_last(), key)
    }
}

impl Scope {
    pub fn contains(&self, byte_idx: usize) -> (r: bool)
        ensures
            r == (self.byte_start <= byte_idx && byte_idx < self.byte_end),
    {
        byte_idx >= self.byte_start && byte_idx < self.byte_end
    }

    fn var(&self, key: &str) -> (r: Option<&String>)
        ensures
            match var_type(self.vars.deep_view(), key@) {
                Some(t) => r matches Some(s) && s@ == t,
                None => r is None,
            },
    {
        let ghost vs = self.vars.deep_view();
        let mut i = self.vars.len();
        assert(vs.take(i as int) =~= vs);
        while i > 0
            invariant
                i <= self.vars@.len(),
                vs == self.vars.deep_view(),
                var_type(vs, key@) == var_type(vs.take(i as int), key@),
            decreases i,
        {
            let e = &self.vars[i - 1];
            proof {
                assert(vs.take(i as int).drop_last() =~= vs.take(i - 1));
                assert(vs.take(i as int).last() == e.deep_view());
            }
            if crate::text::str_eq(e.0.as_str(), key) {
                return Some(&e.1);
            }
            i = i - 1;
        }
        None
    }
}

/// The scopes of a text, in order.
#[derive(Debug, Clone)]
pub struct ScopeMap {
    pub scopes: Vec<Scope>,
}

/// The index of the first scope whose range holds `idx`.
pub open spec fn first_scope(ss: Seq<ScopeModel>, idx: int) -> Option<int>
    decreases ss.len(),
{
    if ss.len() == 0 {
        None
    } else {
        match first_scope(ss.drop_last(), idx) {
            Some(i) => Some(i),
            None => if ss.last().start <= idx && idx < ss.last().end {
                Some(ss.len() - 1)
            } else {
                None
            },
        }
    }
}

/// The type of variable `name` (case ignored) in the scope that holds `idx`.
pub open spec fn scope_var_type(ss: Seq<ScopeModel>, idx: int, name: Seq<char>) -> Option<Seq<char>> {
    match first_scope(ss, idx) {
        Some(i) => var_type(ss[i].vars, lowercase(name)),
        None => None,
    }
}

proof fn lemma_first_scope_range(ss: Seq<ScopeModel>, idx: int)
    ensures
        first_scope(ss, idx) matches Some(i) ==> 0 <= i < ss.len(),
    decreases ss.len(),
{
    if ss.len() > 0 {
        lemma_first_scope_range(ss.drop_last(), idx);
    }
}

impl ScopeMap {
    /// The first scope whose range holds the byte offset.
    pub fn lookup(&self, byte_idx: usize) -> (r: Option<&Scope>)
        ensures
            match first_scope(self.scopes.deep_view(), byte_idx as int) {
                Some(i) => r matches Some(s) && s.deep_view() == self.scopes.deep_view()[i],
                None => r is None,
            },
    {
        let ghost ss = self.scopes.deep_view();
        let n = self.scopes.len();
        let mut i: usize = 0;
        assert(ss.take(0) =~= Seq::<ScopeModel>::empty());
        while i < n
            invariant
                n == self.scopes@.len(),
                ss == self.scopes.deep_view(),
                i <= n,
                first_scope(ss.take(i as int), byte_idx as int) is None,
            decreases n - i,
        {
            proof {
                assert(ss.take(i + 1).drop_last() =~= ss.take(i as int));
                assert(ss.take(i + 1).last() == self.scopes@[i as int].deep_view());
            }
            if self.scopes[i].contains(byte_idx) {
                proof {
                    lemma_first_scope_prefix(ss, i + 1, byte_idx as int);
                }
                return Some(&self.scopes[i]);
            }
            i = i + 1;
        }
        assert(ss.take(n as int) =~= ss);
        None
    }

    /// The type of a variable, regardless of case, in the scope that holds
    /// the byte offset.
    pub fn type_of_var(&self, byte_idx: usize, var_name: &str) -> (r: Option<&String>)
        ensures
            match scope_var_type(self.scopes.deep_view(), byte_idx as int, var_name@) {
                Some(t) => r matches Some(s) && s@ == t,
                None => r is None,
            },
    {
        proof {
            lemma_first_scope_range(self.scopes.deep_view(), byte_idx as int);
        }
        match self.lookup(byte_idx) {
            None => None,
            Some(scope) => {
                let key = to_lowercase(var_name);
                scope.var(key.as_str())
            },
        }
    }
}

/// A prefix of the scopes that already holds a match gives the same first
/// match as the whole.
proof fn lemma_first_scope_prefix(ss: Seq<ScopeModel>, k: int, idx: int)
    requires
        0 <= k <= ss.len(),
        first_scope(ss.take(k), idx) is Some,
    ensures
        first_scope(ss, idx) == first_scope(ss.take(k), idx),
    decreases ss.len() - k,
{
    if k < ss.len() {
        assert(ss.take(k + 1).drop_last() =~= ss.take(k));
        lemma_first_scope_prefix(ss, k + 1, idx);
    } else {
        assert(ss.take(k) =~= ss);
    }
}

// ---------------------------------------------------------------------------
// Annotations
// ---------------------------------------------------------------------------

/// An annotation `//`, blanks, `@type`, an optional `:`, at least one blank,
/// then a type name, at `p`: the range of the type name.
pub open spec fn annot_at(s: Seq<char>, p: int) -> Option<(int, int)> {
    if !lit_match(s, p, "//"@) {
        None
    } else {
        let w = ws_end(s, p + 2);
        if !lit_match(s, w, "@type"@) {
            None
        } else {
            let a = w + 5;
            let b = if a < s.len() && s[a] == ':' {
                a + 1
            } else {
                a
            };
            let w2 = ws_end(s, b);
            if w2 > b && w2 < s.len() && is_id_start(s[w2]) {
                Some((w2, run_end(s, w2, false)))
            } else {
                None
            }
        }
    }
}

/// The range in a found annotation ((0, 0) when none).
pub open spec fn annot_range(r: Option<(int, int)>) -> (int, int) {
    match r {
        Some(x) => x,
        None => (0, 0),
    }
}

pub proof fn lemma_annot_at(s: Seq<char>, p: int)
    requires
        0 <= p <= s.len(),
        annot_at(s, p) is Some,
    ensures
        p < annot_range(annot_at(s, p)).0 < annot_range(annot_at(s, p)).1 <= s.len(),
{
    lemma_ws_end(s, p + 2);
    let w = ws_end(s, p + 2);
    let a = w + 5;
    let b = if a < s.len() && s[a] == ':' {
        a + 1
    } else {
        a
    };
    lemma_ws_end(s, b);
    let w2 = ws_end(s, b);
    lemma_run_end(s, w2, false);
    lemma_run_end(s, w2 + 1, false);
}

/// The annotations from position `p` on: ranges of their type names.
pub open spec fn annot_matches(s: Seq<char>, p: int) -> Seq<(int, int)>
    decreases s.len() - p,
{
    if p < 0 || p >= s.len() {
        Seq::empty()
    } else {
        match annot_at(s, p) {
            Some((ts, te)) => if te > p && te <= s.len() {
                seq![(ts, te)] + annot_matches(s, te)
            } else {
                Seq::empty()
            },
            None => annot_matches(s, p + 1),
        }
    }
}

/// The position after the line break that follows `i` (the end when none).
pub open spec fn after_line(s: Seq<char>, i: int) -> int
    decreases s.len() - i,
{
    if i < 0 || i >= s.len() {
        s.len() as int
    } else if s[i] == '\n' {
        i + 1
    } else {
        after_line(s, i + 1)
    }
}

proof fn lemma_after_line(s: Seq<char>, i: int)
    requires
        0 <= i <= s.len(),
    ensures
        i <= after_line(s, i) <= s.len(),
    decreases s.len() - i,
{
    if i < s.len() && s[i] != '\n' {
        lemma_after_line(s, i + 1);
    }
}

/// The annotations of the first `k` matches: the byte offset of the start of
/// the line after each annotation, mapped to its type name (a later
/// annotation for the same line replaces an earlier one).
pub open spec fn annot_map(s: Seq<char>, ms: Seq<(int, int)>, k: int) -> Map<usize, Seq<char>>
    decreases k,
{
    if k <= 0 {
        Map::empty()
    } else {
        let (ts, te) = ms[k - 1];
        annot_map(s, ms, k - 1).insert(
            byte_len(s.take(after_line(s, te))) as usize,
            s.subrange(ts, te),
        )
    }
}

/// The annotations of a source text.
pub open spec fn annotations_of(s: Seq<char>) -> Map<usize, Seq<char>> {
    let ms = annot_matches(s, 0);
    annot_map(s, ms, ms.len() as int)
}

/// The annotations of a map as plain text.
pub open spec fn ann_view(h: Map<usize, String>) -> Map<usize, Seq<char>> {
    h.map_values(|v: String| v@)
}

fn annot_at_exec(s: &[char], p: usize) -> (r: Option<(usize, usize)>)
    requires
        p <= s@.len(),
    ensures
        match annot_at(s@, p as int) {
            Some((ts, te)) => r == Some((ts as usize, te as usize)),
            None => r is None,
        },
{
    let n = s.len();
    proof {
        reveal_strlit("//");
        reveal_strlit("@type");
    }
    if !lit_match_exec(s, p, "//") {
        return None;
    }
    let w = ws_end_exec(s, p + 2);
    if !lit_match_exec(s, w, "@type") {
        return None;
    }
    let a = w + 5;
    let b = if a < s.len() && s[a] == ':' {
        a + 1
    } else {
        a
    };
    let w2 = ws_end_exec(s, b);
    if w2 > b && w2 < s.len() && id_start(s[w2], false) {
        let te = run_end_exec(s, w2, false);
        Some((w2, te))
    } else {
        None
    }
}

fn after_line_exec(s: &[char], i: usize) -> (r: usize)
    requires
        i <= s@.len(),
    ensures
        r == after_line(s@, i as int),
{
    let n = s.len();
    let mut k = i;
    while k < n
        invariant
            i <= k <= n == s@.len(),
            after_line(s@, i as int) == after_line(s@, k as int),
        decreases n - k,
    {
        if s[k] == '\n' {
            return k + 1;
        }
        k = k + 1;
    }
    n
}

/// Finds every annotation `// @type TypeX` of a source text: the byte offset
/// of the line after it, mapped to the type name.
pub fn extract_type_annotations(src: &str) -> (r: HashMap<usize, String>)
    ensures
        ann_view(r@) == annotations_of(src@),
{
    let v = chars_of(src);
    let ghost s = v@;
    let n = v.len();
    let nb = str_byte_len(src);
    let offs = byte_offsets(v.as_slice());
    let ghost ms = annot_matches(s, 0);
    let mut out: HashMap<usize, String> = HashMap::new();
    let mut found: usize = 0;
    let mut p: usize = 0;
    proof {
        assert(ann_view(out@) =~= annot_map(s, ms, 0));
        assert(ms.subrange(0, 0) + annot_matches(s, 0) =~= ms);
    }
    while p < n
        invariant
            n == s.len(),
            s == v@,
            ms == annot_matches(s, 0),
            offs@.len() == n + 1,
            forall|i: int| 0 <= i <= n ==> #[trigger] offs@[i] == byte_len(s.take(i)),
            p <= n,
            found <= ms.len(),
            found <= p,
            ms.subrange(0, found as int) + annot_matches(s, p as int) == ms,
            ann_view(out@) == annot_map(s, ms, found as int),
        decreases n - p,
    {
        match annot_at_exec(v.as_slice(), p) {
            Some((ts, te)) => {
                proof {
                    lemma_annot_at(s, p as int);
                    lemma_after_line(s, te as int);
                }
                let eol = after_line_exec(v.as_slice(), te);
                let ty = string_from_chars(&copy_range(v.as_slice(), ts, te));
                let key = offs[eol];
                let ghost before = out@;
                out.insert(key, ty);
                proof {
                    assert(annot_matches(s, p as int) == seq![(ts as int, te as int)] + annot_matches(s, te as int));
                    assert(ms[found as int] == (ts as int, te as int)) by {
                        assert(ms == ms.subrange(0, found as int) + annot_matches(s, p as int));
                    }
                    assert(ms.subrange(0, found + 1) =~= ms.subrange(0, found as int).push((ts as int, te as int)));
                    assert(ms.subrange(0, found + 1) + annot_matches(s, te as int) =~= ms);
                    assert(ann_view(out@) =~= annot_map(s, ms, found + 1));
                }
                found = found + 1;
                p = te;
            },
            None => {
                p = p + 1;
            },
        }
    }
    proof {
        assert(ms.subrange(0, found as int) + Seq::<(int, int)>::empty() =~= ms.subrange(0, found as int));
        assert(found as int == ms.len());
    }
    out
}

// ---------------------------------------------------------------------------
// Assignments
// ---------------------------------------------------------------------------

/// Position `p` starts a line.
pub open spec fn line_start(b: Seq<char>, p: int) -> bool {
    p == 0 || (0 < p <= b.len() && b[p - 1] == '\n')
}

/// The end of the right-hand side that starts at `i`: the next `;` or line
/// break, or the end.
pub open spec fn stop_end(b: Seq<char>, i: int) -> int
    decreases b.len() - i,
{
    if 0 <= i < b.len() && b[i] != ';' && b[i] != '\n' {
        stop_end(b, i + 1)
    } else {
        i
    }
}

proof fn lemma_stop_end(b: Seq<char>, i: int)
    requires
        0 <= i <= b.len(),
    ensures
        i <= stop_end(b, i) <= b.len(),
    decreases b.len() - i,
{
    if i < b.len() && b[i] != ';' && b[i] != '\n' {
        lemma_stop_end(b, i + 1);
    }
}

/// An assignment `Name = rhs` at the start of a line (blanks, line breaks
/// included, may come first): the ranges of the name and of the right-hand
/// side.
pub open spec fn assign_at(b: Seq<char>, p: int) -> Option<(int, int, int, int)> {
    if 0 <= p < b.len() && line_start(b, p) {
        let w = ws_end(b, p);
        if w < b.len() && is_id_start(b[w]) {
            let r = run_end(b, w, false);
            let w2 = ws_end(b, r);
            if w2 < b.len() && b[w2] == '=' {
                let w3 = ws_end(b, w2 + 1);
                Some((w, r, w3, stop_end(b, w3)))
            } else {
                None
            }
        } else {
            None
        }
    } else {
        None
    }
}

proof fn lemma_assign_at(b: Seq<char>, p: int)
    requires
        assign_at(b, p) is Some,
    ensures
        assign_at(b, p) matches Some((w, r, w3, e)) && p <= w < r <= w3 <= e <= b.len() && e > p,
{
    lemma_ws_end(b, p);
    let w = ws_end(b, p);
    lemma_run_end(b, w, false);
    lemma_run_end(b, w + 1, false);
    let r = run_end(b, w, false);
    lemma_ws_end(b, r);
    let w2 = ws_end(b, r);
    lemma_ws_end(b, w2 + 1);
    lemma_stop_end(b, ws_end(b, w2 + 1));
}

/// The assignments from position `p` on.
pub open spec fn assign_matches(b: Seq<char>, p: int) -> Seq<(int, int, int, int)>
    decreases b.len() - p,
{
    if p < 0 || p >= b.len() {
        Seq::empty()
    } else {
        match assign_at(b, p) {
            Some((w, r, w3, e)) => if p < e && e <= b.len() {
                seq![(w, r, w3, e)] + assign_matches(b, e)
            } else {
                Seq::empty()
            },
            None => assign_matches(b, p + 1),
        }
    }
}

/// The byte offset, in the whole text, of character `j` of body `b`, which
/// starts at byte offset `start`.
pub open spec fn abs_of(b: Seq<char>, start: int, j: int) -> int {
    start + byte_len(b.take(j))
}

/// An empty line starts at `j`: nothing (or only a carriage return) before
/// its line break.
pub open spec fn empty_line_at(b: Seq<char>, j: int) -> bool {
    &&& 0 <= j < b.len()
    &&& line_start(b, j)
    &&& (b[j] == '\n' || (b[j] == '\r' && j + 1 < b.len() && b[j + 1] == '\n'))
}

/// An empty line of body `b` starts at or after byte offset `e` and before
/// character `w`.
pub open spec fn empty_line_between(b: Seq<char>, start: int, e: int, w: int) -> bool {
    exists|j: int| 0 <= j < w && abs_of(b, start, j) >= e && #[trigger] empty_line_at(b, j)
}

/// The annotation nearest before byte offset `abs` and after byte offset
/// `lo` (searching from `abs - d` down), with its offset.
pub open spec fn annot_near(ann: Map<usize, Seq<char>>, abs: int, lo: int, d: int) -> Option<(int, Seq<char>)>
    decreases abs - d + 1,
{
    if d < 0 || abs - d < 0 || abs - d <= lo {
        None
    } else if ann.contains_key((abs - d) as usize) {
        Some((abs - d, ann[(abs - d) as usize]))
    } else {
        annot_near(ann, abs, lo, d + 1)
    }
}

/// The annotation that types assignment `k` of the assignments `ms` of body
/// `b`: an annotation applies to the first assignment of the same body after
/// its line, up to an empty line. So it is the nearest annotation inside the
/// body, after the previous assignment and at or before this one, unless an
/// empty line lies between.
pub open spec fn annot_for(
    ann: Map<usize, Seq<char>>,
    b: Seq<char>,
    start: int,
    ms: Seq<(int, int, int, int)>,
    k: int,
) -> Option<Seq<char>> {
    let w = ms[k].0;
    let lo = if k == 0 {
        start - 1
    } else {
        abs_of(b, start, ms[k - 1].0)
    };
    match annot_near(ann, abs_of(b, start, w), lo, 0) {
        Some((e, t)) => if empty_line_between(b, start, e, w) {
            None
        } else {
            Some(t)
        },
        None => None,
    }
}

/// `Новый TypeX` (or `New`, in any case) at the start of a right-hand side:
/// the type name.
pub open spec fn new_rhs_type(t: Seq<char>) -> Option<Seq<char>> {
    let w0 = ws_end(t, 0);
    let k = new_kw_len(t, w0);
    if k == 0 {
        None
    } else {
        let a = w0 + k;
        let w1 = ws_end(t, a);
        if w1 > a && w1 < t.len() && is_id_start_ci(t[w1]) {
            Some(t.subrange(w1, run_end(t, w1, true)))
        } else {
            None
        }
    }
}

/// A right-hand side that is exactly `TypeX.ValueY`: the type name.
pub open spec fn enum_rhs_type(t: Seq<char>) -> Option<Seq<char>> {
    let w0 = ws_end(t, 0);
    if !(w0 < t.len() && is_id_start(t[w0])) {
        None
    } else {
        let r1 = run_end(t, w0, false);
        if r1 + 1 < t.len() && t[r1] == '.' && is_id_start(t[r1 + 1]) {
            let r2 = run_end(t, r1 + 1, false);
            if ws_end(t, r2) == t.len() {
                Some(t.subrange(w0, r1))
            } else {
                None
            }
        } else {
            None
        }
    }
}

/// The type an assignment gives its variable: its annotation first, then
/// `Новый TypeX` of a known type, then `EnumX.Value` of a known enumeration.
pub open spec fn assign_type(
    index: PlatformIndex,
    annotation: Option<Seq<char>>,
    rhs: Seq<char>,
) -> Option<Seq<char>> {
    match annotation {
        Some(t) => Some(t),
        None => {
            let by_new = match new_rhs_type(rhs) {
                Some(ty) => if index.lookup_type(ty) is Some {
                    Some(ty)
                } else {
                    None
                },
                None => None,
            };
            match by_new {
                Some(ty) => Some(ty),
                None => match enum_rhs_type(rhs) {
                    Some(ty) => match index.lookup_type(ty) {
                        Some(tt) => if tt.enum_values@.len() > 0 {
                            Some(ty)
                        } else {
                            None
                        },
                        None => None,
                    },
                    None => None,
                },
            }
        },
    }
}

/// The variables of the first `k` assignments `ms` of body `b`, which starts
/// at byte offset `start`.
pub open spec fn vars_of(
    index: PlatformIndex,
    b: Seq<char>,
    start: int,
    ann: Map<usize, Seq<char>>,
    ms: Seq<(int, int, int, int)>,
    k: int,
) -> Seq<(Seq<char>, Seq<char>)>
    decreases k,
{
    if k <= 0 {
        Seq::empty()
    } else {
        let prev = vars_of(index, b, start, ann, ms, k - 1);
        let (w, r, w3, e) = ms[k - 1];
        match assign_type(index, annot_for(ann, b, start, ms, k - 1), trim(b.subrange(w3, e))) {
            Some(t) => prev.push((lowercase(b.subrange(w, r)), t)),
            None => prev,
        }
    }
}

/// The scope of body `b`, which spans bytes `[start, end)`.
pub open spec fn scope_of(
    index: PlatformIndex,
    b: Seq<char>,
    start: int,
    end: int,
    ann: Map<usize, Seq<char>>,
) -> ScopeModel {
    let ms = assign_matches(b, 0);
    ScopeModel { start, end, vars: vars_of(index, b, start, ann, ms, ms.len() as int) }
}

fn stop_end_exec(b: &[char], i: usize) -> (r: usize)
    requires
        i <= b@.len(),
    ensures
        r == stop_end(b@, i as int),
{
    let n = b.len();
    let mut k = i;
    while k < n && b[k] != ';' && b[k] != '\n'
        invariant
            i <= k <= n == b@.len(),
            stop_end(b@, i as int) == stop_end(b@, k as int),
        decreases n - k,
    {
        k = k + 1;
    }
    k
}

fn assign_at_exec(b: &[char], p: usize) -> (res: Option<(usize, usize, usize, usize)>)
    requires
        p < b@.len(),
    ensures
        match assign_at(b@, p as int) {
            Some((w, r, w3, e)) => res == Some((w as usize, r as usize, w3 as usize, e as usize)),
            None => res is None,
        },
{
    let n = b.len();
    if !(p == 0 || b[p - 1] == '\n') {
        return None;
    }
    let w = ws_end_exec(b, p);
    if !(w < n && id_start(b[w], false)) {
        return None;
    }
    let r = run_end_exec(b, w, false);
    let w2 = ws_end_exec(b, r);
    if !(w2 < n && b[w2] == '=') {
        return None;
    }
    let w3 = ws_end_exec(b, w2 + 1);
    let e = stop_end_exec(b, w3);
    Some((w, r, w3, e))
}

/// An exclusive lower bound on byte offsets; `None` stands for none at all.
pub open spec fn lo_of(lo: Option<usize>) -> int {
    match lo {
        Some(l) => l as int,
        None => -1,
    }
}

fn annot_near_exec(ann: &HashMap<usize, String>, abs: usize, lo: Option<usize>) -> (r: Option<(usize, String)>)
    ensures
        match annot_near(ann_view(ann@), abs as int, lo_of(lo), 0) {
            Some((e, t)) => r matches Some((x, s)) && x == e && s@ == t,
            None => r is None,
        },
{
    let mut d: usize = 0;
    while d <= abs
        invariant
            annot_near(ann_view(ann@), abs as int, lo_of(lo), 0) == annot_near(ann_view(ann@), abs as int, lo_of(lo), d as int),
        decreases abs - d,
    {
        let p = abs - d;
        match lo {
            Some(l) => if p <= l {
                return None;
            },
            None => {},
        }
        match ann.get(&p) {
            Some(t) => {
                return Some((p, t.clone()));
            },
            None => {},
        }
        if d == abs {
            proof {
                assert(annot_near(ann_view(ann@), abs as int, lo_of(lo), d + 1) is None);
            }
            return None;
        }
        d = d + 1;
    }
    None
}

fn empty_line_at_exec(b: &[char], j: usize) -> (r: bool)
    ensures
        r == empty_line_at(b@, j as int),
{
    if j >= b.len() {
        return false;
    }
    if !(j == 0 || b[j - 1] == '\n') {
        return false;
    }
    b[j] == '\n' || (b[j] == '\r' && j + 1 < b.len() && b[j + 1] == '\n')
}

fn empty_line_between_exec(b: &[char], offs: &Vec<usize>, byte_start: usize, e: usize, w: usize) -> (r: bool)
    requires
        w <= b@.len(),
        offs@.len() == b@.len() + 1,
        forall|i: int| 0 <= i <= b@.len() ==> #[trigger] offs@[i] == byte_len(b@.take(i)),
        byte_start + byte_len(b@) <= usize::MAX,
    ensures
        r == empty_line_between(b@, byte_start as int, e as int, w as int),
{
    let mut j: usize = 0;
    while j < w
        invariant
            j <= w <= b@.len(),
            offs@.len() == b@.len() + 1,
            forall|i: int| 0 <= i <= b@.len() ==> #[trigger] offs@[i] == byte_len(b@.take(i)),
            byte_start + byte_len(b@) <= usize::MAX,
            forall|i: int|
                0 <= i < j ==> !(abs_of(b@, byte_start as int, i) >= e && #[trigger] empty_line_at(b@, i)),
        decreases w - j,
    {
        proof {
            lemma_byte_len_take(b@, j as int);
        }
        if byte_start + offs[j] >= e && empty_line_at_exec(b, j) {
            return true;
        }
        j = j + 1;
    }
    false
}

fn new_rhs_type_exec(t: &[char]) -> (r: Option<Vec<char>>)
    ensures
        match new_rhs_type(t@) {
            Some(ty) => r matches Some(v) && v@ == ty,
            None => r is None,
        },
{
    let n = t.len();
    let w0 = ws_end_exec(t, 0);
    let k = new_kw_len_exec(t, w0);
    if k == 0 {
        return None;
    }
    proof {
        reveal_strlit("новый");
        reveal_strlit("new");
    }
    let a = w0 + k;
    let w1 = ws_end_exec(t, a);
    if w1 > a && w1 < n && id_start(t[w1], true) {
        let e = run_end_exec(t, w1, true);
        Some(copy_range(t, w1, e))
    } else {
        None
    }
}

fn enum_rhs_type_exec(t: &[char]) -> (r: Option<Vec<char>>)
    ensures
        match enum_rhs_type(t@) {
            Some(ty) => r matches Some(v) && v@ == ty,
            None => r is None,
        },
{
    let n = t.len();
    let w0 = ws_end_exec(t, 0);
    if !(w0 < n && id_start(t[w0], false)) {
        return None;
    }
    let r1 = run_end_exec(t, w0, false);
    if r1 < n && r1 + 1 < n && t[r1] == '.' && id_start(t[r1 + 1], false) {
        let r2 = run_end_exec(t, r1 + 1, false);
        if ws_end_exec(t, r2) == n {
            Some(copy_range(t, w0, r1))
        } else {
            None
        }
    } else {
        None
    }
}

fn assign_type_exec(
    index: &PlatformIndex,
    annotation: Option<String>,
    rhs: &[char],
) -> (r: Option<String>)
    requires
        index.wf(),
    ensures
        match assign_type(*index, annotation.deep_view(), rhs@) {
            Some(t) => r matches Some(s) && s@ == t,
            None => r is None,
        },
{
    match annotation {
        Some(t) => {
            return Some(t);
        },
        None => {},
    }
    match new_rhs_type_exec(rhs) {
        Some(ty) => {
            let name = string_from_chars(&ty);
            if index.find_type(name.as_str()).is_some() {
                return Some(name);
            }
        },
        None => {},
    }
    match enum_rhs_type_exec(rhs) {
        Some(ty) => {
            let name = string_from_chars(&ty);
            match index.find_type(name.as_str()) {
                Some(tt) => if tt.is_enum() {
                    Some(name)
                } else {
                    None
                },
                None => None,
            }
        },
        None => None,
    }
}

/// The scope of one body: the variables whose type its assignments give.
fn build_scope(
    index: &PlatformIndex,
    b: &[char],
    byte_start: usize,
    byte_end: usize,
    annotations: &HashMap<usize, String>,
) -> (r: Scope)
    requires
        index.wf(),
        byte_start + byte_len(b@) <= usize::MAX,
    ensures
        r.deep_view() == scope_of(*index, b@, byte_start as int, byte_end as int, ann_view(annotations@)),
{
    let ghost ms = assign_matches(b@, 0);
    let ghost ann = ann_view(annotations@);
    let n = b.len();
    let offs = byte_offsets(b);
    let mut vars: Vec<(String, String)> = Vec::new();
    let mut found: usize = 0;
    let mut p: usize = 0;
    let mut prev_w: Option<usize> = None;
    proof {
        assert(ms.subrange(0, 0) + assign_matches(b@, 0) =~= ms);
    }
    while p < n
        invariant
            n == b@.len(),
            index.wf(),
            ms == assign_matches(b@, 0),
            ann == ann_view(annotations@),
            byte_start + byte_len(b@) <= usize::MAX,
            offs@.len() == n + 1,
            forall|i: int| 0 <= i <= n ==> #[trigger] offs@[i] == byte_len(b@.take(i)),
            p <= n,
            found <= p,
            found <= ms.len(),
            ms.subrange(0, found as int) + assign_matches(b@, p as int) == ms,
            vars.deep_view() == vars_of(*index, b@, byte_start as int, ann, ms, found as int),
            found == 0 ==> prev_w is None,
            found > 0 ==> (prev_w matches Some(pw) && pw as int == ms[found - 1].0 && pw < p),
        decreases n - p,
    {
        match assign_at_exec(b, p) {
            Some((w, r, w3, e)) => {
                proof {
                    lemma_assign_at(b@, p as int);
                    assert(assign_matches(b@, p as int) == seq![(w as int, r as int, w3 as int, e as int)] + assign_matches(b@, e as int));
                    assert(ms[found as int] == (w as int, r as int, w3 as int, e as int)) by {
                        assert(ms == ms.subrange(0, found as int) + assign_matches(b@, p as int));
                    }
                    assert(ms.subrange(0, found + 1) =~= ms.subrange(0, found as int).push((w as int, r as int, w3 as int, e as int)));
                    assert(ms.subrange(0, found + 1) + assign_matches(b@, e as int) =~= ms);
                    if w < n {
                        lemma_byte_len_take(b@, w as int);
                    } else {
                        assert(b@.take(w as int) =~= b@);
                    }
                }
                let abs = byte_start + offs[w];
                let lo: Option<usize> = match prev_w {
                    Some(pw) => {
                        proof {
                            lemma_byte_len_take(b@, pw as int);
                        }
                        Some(byte_start + offs[pw])
                    },
                    None => if byte_start == 0 {
                        None
                    } else {
                        Some(byte_start - 1)
                    },
                };
                let annotation = match annot_near_exec(annotations, abs, lo) {
                    Some((at, t)) => if empty_line_between_exec(b, &offs, byte_start, at, w) {
                        None
                    } else {
                        Some(t)
                    },
                    None => None,
                };
                proof {
                    assert(annotation.deep_view() == annot_for(ann, b@, byte_start as int, ms, found as int));
                }
                let rhs = trim_vec(&copy_range(b, w3, e));
                let ghost prev = vars.deep_view();
                match assign_type_exec(index, annotation, rhs.as_slice()) {
                    Some(t) => {
                        let lhs = string_from_chars(&copy_range(b, w, r));
                        let key = to_lowercase(lhs.as_str());
                        vars.push((key, t));
                        proof {
                            assert(vars.deep_view() =~= prev.push((lowercase(b@.subrange(w as int, r as int)), t@)));
                        }
                    },
                    None => {},
                }
                found = found + 1;
                prev_w = Some(w);
                p = e;
            },
            None => {
                p = p + 1;
            },
        }
    }
    proof {
        assert(ms.subrange(0, found as int) + Seq::<(int, int, int, int)>::empty() =~= ms.subrange(0, found as int));
    }
    Scope { byte_start, byte_end, vars }
}

// ---------------------------------------------------------------------------
// Procedures
// ---------------------------------------------------------------------------

/// The length of `Процедура` or `Функция` at `p`, regardless of case.
pub open spec fn head_kw_len(s: Seq<char>, p: int) -> int {
    if ci_match(s, p, "процедура"@) {
        9
    } else if ci_match(s, p, "функция"@) {
        7
    } else {
        0
    }
}

/// The length of `КонецПроцедуры` or `КонецФункции` at `k`, regardless of case.
pub open spec fn tail_kw_len(s: Seq<char>, k: int) -> int {
    if ci_match(s, k, "конецпроцедуры"@) {
        14
    } else if ci_match(s, k, "конецфункции"@) {
        12
    } else {
        0
    }
}

/// The first `)` at or after `i` (the end when none).
pub open spec fn close_paren(s: Seq<char>, i: int) -> int
    decreases s.len() - i,
{
    if 0 <= i < s.len() && s[i] != ')' {
        close_paren(s, i + 1)
    } else {
        i
    }
}

/// The first end keyword at or after `i`.
pub open spec fn tail_from(s: Seq<char>, i: int) -> Option<int>
    decreases s.len() - i,
{
    if i < 0 || i >= s.len() {
        None
    } else if tail_kw_len(s, i) > 0 {
        Some(i)
    } else {
        tail_from(s, i + 1)
    }
}

/// A procedure at `p`: keyword, blanks, a name, blanks, `(` up to the first
/// `)`, then anything up to the first end keyword; the end of the block.
pub open spec fn proc_at(s: Seq<char>, p: int) -> Option<int> {
    let kl = head_kw_len(s, p);
    if kl == 0 {
        None
    } else {
        let a = p + kl;
        let w = ws_end(s, a);
        if !(w > a && w < s.len() && is_word(s[w])) {
            None
        } else {
            let w2 = ws_end(s, word_end(s, w));
            if !(w2 < s.len() && s[w2] == '(') {
                None
            } else {
                let c = close_paren(s, w2 + 1);
                if c >= s.len() {
                    None
                } else {
                    match tail_from(s, c + 1) {
                        Some(k) => Some(k + tail_kw_len(s, k)),
                        None => None,
                    }
                }
            }
        }
    }
}

/// The procedure blocks from position `p` on: their character ranges.
pub open spec fn proc_matches(s: Seq<char>, p: int) -> Seq<(int, int)>
    decreases s.len() - p,
{
    if p < 0 || p >= s.len() {
        Seq::empty()
    } else {
        match proc_at(s, p) {
            Some(e) => if p < e && e <= s.len() {
                seq![(p, e)] + proc_matches(s, e)
            } else {
                Seq::empty()
            },
            None => proc_matches(s, p + 1),
        }
    }
}

/// The scopes of a cleaned text: one per procedure block, or one for the
/// whole text when it has none.
pub open spec fn scopes_of(index: PlatformIndex, s: Seq<char>, ann: Map<usize, Seq<char>>) -> Seq<
    ScopeModel,
> {
    let bs = proc_matches(s, 0);
    if bs.len() == 0 {
        seq![scope_of(index, s, 0, byte_len(s) as int, ann)]
    } else {
        Seq::new(
            bs.len(),
            |i: int|
                scope_of(
                    index,
                    s.subrange(bs[i].0, bs[i].1),
                    byte_len(s.take(bs[i].0)) as int,
                    byte_len(s.take(bs[i].1)) as int,
                    ann,
                ),
        )
    }
}

proof fn lemma_close_paren(s: Seq<char>, i: int)
    requires
        0 <= i <= s.len(),
    ensures
        i <= close_paren(s, i) <= s.len(),
    decreases s.len() - i,
{
    if i < s.len() && s[i] != ')' {
        lemma_close_paren(s, i + 1);
    }
}

proof fn lemma_tail_from(s: Seq<char>, i: int)
    requires
        0 <= i,
    ensures
        tail_from(s, i) matches Some(k) ==> i <= k && k + tail_kw_len(s, k) <= s.len(),
    decreases s.len() - i,
{
    reveal_strlit("конецпроцедуры");
    reveal_strlit("конецфункции");
    if i < s.len() && tail_kw_len(s, i) == 0 {
        lemma_tail_from(s, i + 1);
    }
}

fn tail_kw_len_exec(s: &[char], k: usize) -> (r: usize)
    ensures
        r == tail_kw_len(s@, k as int),
{
    if ci_match_exec(s, k, "конецпроцедуры") {
        proof {
            reveal_strlit("конецпроцедуры");
        }
        14
    } else if ci_match_exec(s, k, "конецфункции") {
        proof {
            reveal_strlit("конецфункции");
        }
        12
    } else {
        0
    }
}

#[verifier::loop_isolation(false)]
fn proc_at_exec(s: &[char], p: usize) -> (r: Option<usize>)
    requires
        p < s@.len(),
    ensures
        match proc_at(s@, p as int) {
            Some(e) => r matches Some(x) && x as int == e && p < e <= s@.len(),
            None => r is None,
        },
{
    let n = s.len();
    proof {
        reveal_strlit("процедура");
        reveal_strlit("функция");
    }
    let kl: usize = if ci_match_exec(s, p, "процедура") {
        9
    } else if ci_match_exec(s, p, "функция") {
        7
    } else {
        0
    };
    if kl == 0 {
        return None;
    }
    let a = p + kl;
    let w = ws_end_exec(s, a);
    if !(w > a && w < n && (char_is_alphanumeric(s[w]) || s[w] == '_')) {
        return None;
    }
    let r = word_end_exec(s, w);
    let w2 = ws_end_exec(s, r);
    if !(w2 < n && s[w2] == '(') {
        return None;
    }
    let mut c = w2 + 1;
    while c < n && s[c] != ')'
        invariant
            w2 + 1 <= c <= n == s@.len(),
            close_paren(s@, w2 + 1) == close_paren(s@, c as int),
        decreases n - c,
    {
        c = c + 1;
    }
    if c >= n {
        return None;
    }
    let mut k = c + 1;
    while k < n
        invariant
            c + 1 <= k <= n == s@.len(),
            tail_from(s@, c + 1) == tail_from(s@, k as int),
        decreases n - k,
    {
        let tl = tail_kw_len_exec(s, k);
        if tl > 0 {
            proof {
                lemma_tail_from(s@, k as int);
                assert(tail_from(s@, k as int) == Some(k as int));
                assert(proc_at(s@, p as int) == Some(k + tl));
            }
            return Some(k + tl);
        }
        k = k + 1;
    }
    None
}

/// The scopes of a text cleaned of strings and comments, with the
/// annotations of its source.
pub fn extract_scope_map(
    index: &PlatformIndex,
    cleaned: &str,
    annotations: &HashMap<usize, String>,
) -> (r: ScopeMap)
    requires
        index.wf(),
    ensures
        r.scopes.deep_view() == scopes_of(*index, cleaned@, ann_view(annotations@)),
{
    let v = chars_of(cleaned);
    let ghost s = v@;
    let n = v.len();
    let nb = str_byte_len(cleaned);
    let offs = byte_offsets(v.as_slice());
    let ghost bs = proc_matches(s, 0);
    let mut blocks: Vec<(usize, usize)> = Vec::new();
    let mut p: usize = 0;
    proof {
        assert(blocks@.map_values(|x: (usize, usize)| (x.0 as int, x.1 as int)) + proc_matches(s, 0) =~= bs);
    }
    while p < n
        invariant
            n == s.len(),
            s == v@,
            bs == proc_matches(s, 0),
            p <= n,
            forall|i: int| 0 <= i < blocks@.len() ==> #[trigger] blocks@[i].0 < blocks@[i].1 <= n,
            blocks@.map_values(|x: (usize, usize)| (x.0 as int, x.1 as int)) + proc_matches(s, p as int) == bs,
        decreases n - p,
    {
        match proc_at_exec(v.as_slice(), p) {
            Some(e) => {
                let ghost prev = blocks@;
                blocks.push((p, e));
                proof {
                    assert(forall|i: int| 0 <= i < prev.len() ==> blocks@[i] == prev[i]);
                    assert(blocks@[prev.len() as int] == (p, e));
                    assert(proc_matches(s, p as int) == seq![(p as int, e as int)] + proc_matches(s, e as int));
                    assert(blocks@.map_values(|x: (usize, usize)| (x.0 as int, x.1 as int)) =~= prev.map_values(|x: (usize, usize)| (x.0 as int, x.1 as int)).push((p as int, e as int)));
                    assert(blocks@.map_values(|x: (usize, usize)| (x.0 as int, x.1 as int)) + proc_matches(s, e as int) =~= bs);
                }
                p = e;
            },
            None => {
                p = p + 1;
            },
        }
    }
    proof {
        assert(blocks@.map_values(|x: (usize, usize)| (x.0 as int, x.1 as int)) =~= bs);
    }
    let mut scopes: Vec<Scope> = Vec::new();
    if blocks.len() == 0 {
        proof {
            assert(v@.take(n as int) =~= v@);
        }
        let sc = build_scope(index, v.as_slice(), 0, nb, annotations);
        scopes.push(sc);
        proof {
            assert(scopes.deep_view() =~= scopes_of(*index, s, ann_view(annotations@)));
        }
    } else {
        let m = blocks.len();
        let mut i: usize = 0;
        while i < m
            invariant
                m == blocks@.len(),
                m == bs.len(),
                index.wf(),
                n == s.len(),
                s == v@,
                nb == byte_len(s),
                offs@.len() == n + 1,
                forall|k: int| 0 <= k <= n ==> #[trigger] offs@[k] == byte_len(s.take(k)),
                forall|k: int| 0 <= k < m ==> #[trigger] blocks@[k].0 < blocks@[k].1 <= n,
                forall|k: int| 0 <= k < m ==> #[trigger] bs[k] == (blocks@[k].0 as int, blocks@[k].1 as int),
                bs == proc_matches(s, 0),
                i <= m,
                scopes@.len() == i,
                forall|k: int| 0 <= k < i ==> #[trigger] scopes.deep_view()[k] == scopes_of(*index, s, ann_view(annotations@))[k],
            decreases m - i,
        {
            let (st, en) = blocks[i];
            proof {
                assert(bs[i as int] == (st as int, en as int));
                lemma_byte_len_take(s, st as int);
                let body = s.subrange(st as int, en as int);
                assert(s.take(en as int) =~= s.take(st as int) + body);
                crate::lexis::lemma_byte_len_add(s.take(st as int), body);
                if en < n {
                    lemma_byte_len_take(s, en as int);
                } else {
                    assert(s.take(en as int) =~= s);
                }
            }
            let body = copy_range(v.as_slice(), st, en);
            let sc = build_scope(index, body.as_slice(), offs[st], offs[en], annotations);
            let ghost prev = scopes.deep_view();
            scopes.push(sc);
            proof {
                assert(scopes.deep_view() =~= prev.push(sc.deep_view()));
            }
            i = i + 1;
        }
        proof {
            assert(scopes.deep_view() =~= scopes_of(*index, s, ann_view(annotations@)));
        }
    }
    ScopeMap { scopes }
}

} // verus!
