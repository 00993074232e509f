//! Validation of BSL fragments against the platform index, without a full
//! parser. Three kinds of references are checked:
//!
//! - `Type.Member`, where `Type` names a type of the index (or, at level 2,
//!   a local variable whose type was inferred): the member must be a value of
//!   the enumeration, or a method or property of the type;
//! - `Новый Type` / `New Type`: the type must exist;
//! - `Method(args)` at the top level: for a known global method, the number
//!   of arguments must fit one of its signatures.
//!
//! String literals and comments are first replaced by blanks of the same
//! byte length, so that positions stay where they were.
use vstd::prelude::*;

use crate::check::{lemma_lev_bound, lev, lev_chars, method_call_answer, validate_method_call, SimilarValue};
use crate::entities::{EnumValue, Method, Property, Type};
use crate::scope::{annotations_of, scope_var_type, scopes_of, ScopeMap, ScopeModel};
use crate::storage::{first_method_named, same_name, PlatformIndex};
use crate::seqs::{lemma_map_push, lemma_map_take_succ};
use crate::lexis::{
    lemma_byte_len_take,
    byte_len, char_width, utf8_width, id_char, id_start, is_id_char_ci, is_id_start, is_id_start_ci, lemma_run_end, new_kw_len,
    new_kw_len_exec, run_end, run_end_exec, ws_end, ws_end_exec,
};
use crate::text::{
    is_ascii_ws_char, push_str, ascii_lowercase_seq, char_is_alphanumeric, chars_of, lowercase, str_eq,
    copy_range, string_from_chars, to_ascii_lowercase, to_lowercase, trim, trim_vec, unicode_alnum,
};

verus! {

// ---------------------------------------------------------------------------
// Kinds, confidence, profiles
// ---------------------------------------------------------------------------

/// How reliable a finding is.
#[derive(Debug, Clone, Copy, PartialEq, Eq, Structural)]
pub enum Confidence {
    /// An exact check against the index: false positives are all but excluded.
    High,
    /// Rests on inference or on the completeness of the index.
    Low,
}

#[derive(Debug, Clone, Copy, PartialEq, Eq, Structural)]
pub enum ExprErrorKind {
    UnknownEnumValue,
    UnknownTypeMember,
    UnknownNewType,
    WrongArgumentCount,
    UnknownGlobalMethod,
}

pub open spec fn confidence_of(k: ExprErrorKind) -> Confidence {
    match k {
        ExprErrorKind::UnknownEnumValue | ExprErrorKind::WrongArgumentCount => Confidence::High,
        _ => Confidence::Low,
    }
}

impl ExprErrorKind {
    /// The confidence of a finding of this kind: high for a missing
    /// enumeration value and a wrong argument count, low otherwise.
    pub fn confidence(self) -> (r: Confidence)
        ensures
            r == confidence_of(self),
    {
        match self {
            ExprErrorKind::UnknownEnumValue | ExprErrorKind::WrongArgumentCount => Confidence::High,
            ExprErrorKind::UnknownTypeMember
            | ExprErrorKind::UnknownNewType
            | ExprErrorKind::UnknownGlobalMethod => Confidence::Low,
        }
    }
}

/// Who reads the findings: `Strict` forces level 1 and keeps only the
/// high-confidence findings; `Full` (the default) keeps the level asked for
/// and every finding.
#[derive(Debug, Clone, Copy, PartialEq, Eq, Structural)]
pub enum Profile {
    Strict,
    Full,
}

impl Default for Profile {
    fn default() -> (r: Self)
        ensures
            r == Profile::Full,
    {
        Profile::Full
    }
}

/// The profile a client names: the trimmed, ASCII-lowercased text is
/// `strict` or `full`; anything else (or nothing) gives the default.
pub open spec fn profile_of(s: Option<Seq<char>>) -> Profile {
    match s {
        Some(v) => if ascii_lowercase_seq(trim(v)) == "strict"@ {
            Profile::Strict
        } else {
            Profile::Full
        },
        None => Profile::Full,
    }
}

impl Profile {
    /// Tolerant reading of a profile name: an unknown value gives the default.
    pub fn parse_or_default(s: Option<&str>) -> (r: Profile)
        ensures
            r == profile_of(
                match s {
                    Some(v) => Some(v@),
                    None => None,
                },
            ),
    {
        match s {
            None => Profile::default(),
            Some(v) => {
                let cs = chars_of(v);
                let t = trim_vec(cs.as_slice());
                let ts = string_from_chars(&t);
                let l = to_ascii_lowercase(ts.as_str());
                if str_eq(l.as_str(), "strict") {
                    Profile::Strict
                } else if str_eq(l.as_str(), "full") {
                    Profile::Full
                } else {
                    Profile::default()
                }
            },
        }
    }
}

// ---------------------------------------------------------------------------
// Masking strings and comments
// ---------------------------------------------------------------------------

pub open spec fn spaces(n: nat) -> Seq<char> {
    Seq::new(n, |i: int| ' ')
}

/// The masked text from position `i` on, in mode `mode`: 0 in code, 1 in a
/// `//` comment, 2 in a string literal. In a comment or a string every
/// character but a line break becomes as many blanks as it has bytes; the
/// quotes of a string and a doubled quote inside it become blanks too.
pub open spec fn mask_from(s: Seq<char>, i: int, mode: int) -> Seq<char>
    decreases s.len() - i,
{
    if i < 0 || i >= s.len() {
        Seq::empty()
    } else if mode == 0 {
        if s[i] == '/' && i + 1 < s.len() && s[i + 1] == '/' {
            spaces(1) + mask_from(s, i + 1, 1)
        } else if s[i] == '"' {
            spaces(1) + mask_from(s, i + 1, 2)
        } else {
            seq![s[i]] + mask_from(s, i + 1, 0)
        }
    } else if mode == 1 {
        if s[i] == '\n' {
            seq![s[i]] + mask_from(s, i + 1, 0)
        } else if s[i] == '\r' {
            seq![s[i]] + mask_from(s, i + 1, 1)
        } else {
            spaces(utf8_width(s[i])) + mask_from(s, i + 1, 1)
        }
    } else {
        if s[i] == '"' {
            if i + 1 < s.len() && s[i + 1] == '"' {
                spaces(2) + mask_from(s, i + 2, 2)
            } else {
                spaces(1) + mask_from(s, i + 1, 0)
            }
        } else if s[i] == '\n' || s[i] == '\r' {
            seq![s[i]] + mask_from(s, i + 1, 2)
        } else {
            spaces(utf8_width(s[i])) + mask_from(s, i + 1, 2)
        }
    }
}

/// The masked form of a source text.
pub open spec fn masked(s: Seq<char>) -> Seq<char> {
    mask_from(s, 0, 0)
}

fn push_spaces(out: &mut Vec<char>, n: usize)
    ensures
        final(out)@ == old(out)@ + spaces(n as nat),
{
    let ghost start = out@;
    let mut k: usize = 0;
    while k < n
        invariant
            k <= n,
            out@ == start + spaces(k as nat),
        decreases n - k,
    {
        out.push(' ');
        k = k + 1;
        assert(out@ =~= start + spaces(k as nat));
    }
}

/// Replaces string literals and `//` comments by blanks of the same byte
/// length; line breaks stay.
pub fn mask_strings_and_comments(src: &str) -> (r: String)
    ensures
        r@ == masked(src@),
{
    let v = chars_of(src);
    let n = v.len();
    let ghost s = v@;
    let mut out: Vec<char> = Vec::new();
    let mut i: usize = 0;
    let mut mode: u8 = 0;
    assert(out@ + mask_from(s, 0, 0) =~= mask_from(s, 0, 0));
    while i < n
        invariant
            n == s.len(),
            s == v@,
            i <= n,
            mode <= 2,
            out@ + mask_from(s, i as int, mode as int) == mask_from(s, 0, 0),
        decreases n - i,
    {
        let ghost before = out@;
        let ghost rest = mask_from(s, i as int, mode as int);
        let c = v[i];
        if mode == 0 {
            if c == '/' && i + 1 < n && v[i + 1] == '/' {
                out.push(' ');
                mode = 1;
                i = i + 1;
            } else if c == '"' {
                out.push(' ');
                mode = 2;
                i = i + 1;
            } else {
                out.push(c);
                i = i + 1;
            }
        } else if mode == 1 {
            if c == '\n' {
                out.push(c);
                mode = 0;
            } else if c == '\r' {
                out.push(c);
            } else {
                push_spaces(&mut out, char_width(c));
            }
            i = i + 1;
        } else {
            if c == '"' {
                if i + 1 < n && v[i + 1] == '"' {
                    push_spaces(&mut out, 2);
                    i = i + 2;
                } else {
                    out.push(' ');
                    mode = 0;
                    i = i + 1;
                }
            } else if c == '\n' || c == '\r' {
                out.push(c);
                i = i + 1;
            } else {
                push_spaces(&mut out, char_width(c));
                i = i + 1;
            }
        }
        proof {
            assert(seq![' '] =~= spaces(1));
            assert(before + rest == mask_from(s, 0, 0));
            assert(out@ + mask_from(s, i as int, mode as int) =~= before + rest);
        }
    }
    assert(out@ =~= out@ + mask_from(s, i as int, mode as int));
    string_from_chars(&out)
}

// ---------------------------------------------------------------------------
// Counting arguments, matching parentheses, positions
// ---------------------------------------------------------------------------

/// The bracket depth after the first `k` characters.
pub open spec fn depth(s: Seq<char>, k: int) -> int
    decreases k,
{
    if k <= 0 {
        0
    } else {
        let c = s[k - 1];
        let d = depth(s, k - 1);
        if c == '(' || c == '[' || c == '{' {
            d + 1
        } else if c == ')' || c == ']' || c == '}' {
            d - 1
        } else {
            d
        }
    }
}

/// The commas at depth 0 among the first `k` characters.
pub open spec fn top_commas(s: Seq<char>, k: int) -> nat
    decreases k,
{
    if k <= 0 {
        0
    } else {
        top_commas(s, k - 1) + if s[k - 1] == ',' && depth(s, k - 1) == 0 {
            1nat
        } else {
            0nat
        }
    }
}

/// The number of arguments in the text between a call's parentheses: 0 when
/// it is blank, else one more than its commas outside nested brackets.
pub open spec fn arg_count(s: Seq<char>) -> nat {
    if trim(s).len() == 0 {
        0
    } else {
        top_commas(s, s.len() as int) + 1
    }
}

pub fn count_top_level_args(args_text: &str) -> (r: usize)
    requires
        args_text@.len() < usize::MAX,
    ensures
        r == arg_count(args_text@),
{
    let v = chars_of(args_text);
    let t = trim_vec(v.as_slice());
    if t.len() == 0 {
        return 0;
    }
    let n = v.len();
    let ghost s = v@;
    let mut d: i128 = 0;
    let mut commas: usize = 0;
    let mut i: usize = 0;
    while i < n
        invariant
            n == s.len(),
            s == v@,
            i <= n,
            d == depth(s, i as int),
            -(i as int) <= d <= i,
            commas == top_commas(s, i as int),
            commas <= i,
            n < usize::MAX,
        decreases n - i,
    {
        let c = v[i];
        if c == '(' || c == '[' || c == '{' {
            d = d + 1;
        } else if c == ')' || c == ']' || c == '}' {
            d = d - 1;
        } else if c == ',' && d == 0 {
            commas = commas + 1;
        }
        i = i + 1;
    }
    commas + 1
}

/// The index of the parenthesis that closes the one at `open`.
pub open spec fn closing_from(s: Seq<char>, i: int, d: int) -> Option<int>
    decreases s.len() - i,
{
    if i < 0 || i >= s.len() {
        None
    } else if s[i] == '(' {
        closing_from(s, i + 1, d + 1)
    } else if s[i] == ')' {
        if d - 1 == 0 {
            Some(i)
        } else {
            closing_from(s, i + 1, d - 1)
        }
    } else {
        closing_from(s, i + 1, d)
    }
}

pub fn find_matching_paren(s: &[char], open: usize) -> (r: Option<usize>)
    requires
        open < s@.len(),
    ensures
        match closing_from(s@, open + 1, 1) {
            Some(c) => r == Some(c as usize),
            None => r is None,
        },
{
    let n = s.len();
    let mut d: usize = 1;
    let mut i: usize = open + 1;
    while i < n
        invariant
            n == s@.len(),
            open < i <= n,
            1 <= d <= i,
            closing_from(s@, open + 1, 1) == closing_from(s@, i as int, d as int),
        decreases n - i,
    {
        if s[i] == '(' {
            d = d + 1;
        } else if s[i] == ')' {
            if d == 1 {
                return Some(i);
            }
            d = d - 1;
        }
        i = i + 1;
    }
    None
}

/// The (line, column) of character `i`, both counted from 1.
pub open spec fn pos_of(s: Seq<char>, i: int) -> (int, int)
    decreases i,
{
    if i <= 0 {
        (1, 1)
    } else {
        let (l, c) = pos_of(s, i - 1);
        if s[i - 1] == '\n' {
            (l + 1, 1)
        } else {
            (l, c + 1)
        }
    }
}

proof fn lemma_pos_bound(s: Seq<char>, i: int)
    requires
        0 <= i,
    ensures
        1 <= pos_of(s, i).0 <= i + 1,
        1 <= pos_of(s, i).1 <= i + 1,
    decreases i,
{
    if i > 0 {
        lemma_pos_bound(s, i - 1);
    }
}

pub fn pos_at(s: &[char], i: usize) -> (r: (u32, u32))
    requires
        i <= s@.len(),
        s@.len() < u32::MAX,
    ensures
        r.0 as int == pos_of(s@, i as int).0,
        r.1 as int == pos_of(s@, i as int).1,
{
    let mut line: u32 = 1;
    let mut col: u32 = 1;
    let mut k: usize = 0;
    while k < i
        invariant
            k <= i <= s@.len() < u32::MAX,
            line as int == pos_of(s@, k as int).0,
            col as int == pos_of(s@, k as int).1,
        decreases i - k,
    {
        proof {
            lemma_pos_bound(s@, k as int);
        }
        if s[k] == '\n' {
            line = line + 1;
            col = 1;
        } else {
            col = col + 1;
        }
        k = k + 1;
    }
    (line, col)
}

// ---------------------------------------------------------------------------
// Keywords and boundaries
// ---------------------------------------------------------------------------

/// The BSL keywords that may stand before `(` without being a call.
pub open spec fn is_keyword_text(t: Seq<char>) -> bool {
    ||| t == "если"@
    ||| t == "тогда"@
    ||| t == "иначе"@
    ||| t == "иначеесли"@
    ||| t == "конецесли"@
    ||| t == "цикл"@
    ||| t == "конеццикла"@
    ||| t == "процедура"@
    ||| t == "конецпроцедуры"@
    ||| t == "функция"@
    ||| t == "конецфункции"@
    ||| t == "возврат"@
    ||| t == "и"@
    ||| t == "или"@
    ||| t == "не"@
    ||| t == "истина"@
    ||| t == "ложь"@
    ||| t == "новый"@
    ||| t == "if"@
    ||| t == "then"@
    ||| t == "else"@
    ||| t == "elsif"@
    ||| t == "endif"@
    ||| t == "while"@
    ||| t == "for"@
    ||| t == "each"@
    ||| t == "do"@
    ||| t == "enddo"@
    ||| t == "procedure"@
    ||| t == "endprocedure"@
    ||| t == "function"@
    ||| t == "endfunction"@
    ||| t == "return"@
    ||| t == "and"@
    ||| t == "or"@
    ||| t == "not"@
    ||| t == "true"@
    ||| t == "false"@
    ||| t == "new"@
}

/// Whether a word is a BSL keyword, regardless of case.
pub fn is_bsl_keyword(s: &str) -> (r: bool)
    ensures
        r == is_keyword_text(lowercase(s@)),
{
    let l = to_lowercase(s);
    let t = l.as_str();
    str_eq(t, "если") || str_eq(t, "тогда") || str_eq(t, "иначе") || str_eq(t, "иначеесли")
        || str_eq(t, "конецесли") || str_eq(t, "цикл") || str_eq(t, "конеццикла") || str_eq(
        t,
        "процедура",
    ) || str_eq(t, "конецпроцедуры") || str_eq(t, "функция") || str_eq(t, "конецфункции")
        || str_eq(t, "возврат") || str_eq(t, "и") || str_eq(t, "или") || str_eq(t, "не") || str_eq(
        t,
        "истина",
    ) || str_eq(t, "ложь") || str_eq(t, "новый") || str_eq(t, "if") || str_eq(t, "then")
        || str_eq(t, "else") || str_eq(t, "elsif") || str_eq(t, "endif") || str_eq(t, "while")
        || str_eq(t, "for") || str_eq(t, "each") || str_eq(t, "do") || str_eq(t, "enddo") || str_eq(
        t,
        "procedure",
    ) || str_eq(t, "endprocedure") || str_eq(t, "function") || str_eq(t, "endfunction")
        || str_eq(t, "return") || str_eq(t, "and") || str_eq(t, "or") || str_eq(t, "not")
        || str_eq(t, "true") || str_eq(t, "false") || str_eq(t, "new")
}

/// The character before position `i` is not part of a word (a letter or
/// digit in Unicode, or `_`).
pub open spec fn safe_left(s: Seq<char>, i: int) -> bool {
    i <= 0 || !(unicode_alnum(s[i - 1]) || s[i - 1] == '_')
}

pub fn is_safe_left_boundary(s: &[char], i: usize) -> (r: bool)
    requires
        i <= s@.len(),
    ensures
        r == safe_left(s@, i as int),
{
    if i == 0 {
        return true;
    }
    let c = s[i - 1];
    !(char_is_alphanumeric(c) || c == '_')
}

// ---------------------------------------------------------------------------
// Nearest names
// ---------------------------------------------------------------------------

/// The larger of the two lengths.
pub open spec fn max_len(a: Seq<char>, b: Seq<char>) -> nat {
    if a.len() >= b.len() {
        a.len()
    } else {
        b.len()
    }
}

/// Whether `a` is at least as similar to its query as `b` is to its own,
/// similarity being `1 - distance / max length` (1 for two empty texts).
/// Each pair is (distance, max length).
pub open spec fn at_least_as_similar(a: (nat, nat), b: (nat, nat)) -> bool {
    let (da, ma) = a;
    let (db, mb) = b;
    if ma == 0 {
        true
    } else if mb == 0 {
        false
    } else {
        (ma - da) * mb >= (mb - db) * ma
    }
}

/// (distance, max length) of a query and a candidate, both lowercased.
pub open spec fn score(t: Seq<char>, c: Seq<char>) -> (nat, nat) {
    (lev(t, lowercase(c)), max_len(t, lowercase(c)))
}

/// The index of the most similar candidate among the first `n`; the last one
/// among equals.
pub open spec fn best_index(t: Seq<char>, cs: Seq<Seq<char>>, n: int) -> int
    decreases n,
{
    if n <= 1 {
        0
    } else {
        let j = best_index(t, cs, n - 1);
        if at_least_as_similar(score(t, cs[n - 1]), score(t, cs[j])) {
            n - 1
        } else {
            j
        }
    }
}

/// The candidate most similar to `target` (case ignored), when its
/// similarity is above one half.
pub open spec fn closest(target: Seq<char>, cs: Seq<Seq<char>>) -> Option<Seq<char>> {
    if cs.len() == 0 {
        None
    } else {
        let t = lowercase(target);
        let i = best_index(t, cs, cs.len() as int);
        let (d, m) = score(t, cs[i]);
        if m == 0 || 2 * d < m {
            Some(cs[i])
        } else {
            None
        }
    }
}

proof fn lemma_best_index_range(t: Seq<char>, cs: Seq<Seq<char>>, n: int)
    requires
        1 <= n,
    ensures
        0 <= best_index(t, cs, n) < n,
    decreases n,
{
    if n > 1 {
        lemma_best_index_range(t, cs, n - 1);
    }
}

fn similar_at_least(a: (usize, usize), b: (usize, usize)) -> (r: bool)
    requires
        a.0 <= a.1,
        b.0 <= b.1,
    ensures
        r == at_least_as_similar((a.0 as nat, a.1 as nat), (b.0 as nat, b.1 as nat)),
{
    if a.1 == 0 {
        true
    } else if b.1 == 0 {
        false
    } else {
        let p: u128 = (a.1 - a.0) as u128;
        let q: u128 = b.1 as u128;
        let u: u128 = (b.1 - b.0) as u128;
        let w: u128 = a.1 as u128;
        proof {
            assert(p * q <= 0xffff_ffff_ffff_ffffu128 * 0xffff_ffff_ffff_ffffu128) by (nonlinear_arith)
                requires
                    p <= 0xffff_ffff_ffff_ffffu128,
                    q <= 0xffff_ffff_ffff_ffffu128,
            ;
            assert(u * w <= 0xffff_ffff_ffff_ffffu128 * 0xffff_ffff_ffff_ffffu128) by (nonlinear_arith)
                requires
                    u <= 0xffff_ffff_ffff_ffffu128,
                    w <= 0xffff_ffff_ffff_ffffu128,
            ;
        }
        let x: u128 = p * q;
        let y: u128 = u * w;
        x >= y
    }
}

fn score_exec(t: &Vec<char>, c: &str) -> (r: (usize, usize))
    ensures
        r.0 as nat == lev(t@, lowercase(c@)),
        r.1 as nat == max_len(t@, lowercase(c@)),
        r.0 <= r.1,
{
    let l = to_lowercase(c);
    let lv = chars_of(l.as_str());
    let d = lev_chars(t, &lv);
    proof {
        lemma_lev_bound(t@, lv@);
    }
    let m = if t.len() >= lv.len() {
        t.len()
    } else {
        lv.len()
    };
    (d, m)
}

/// The candidate most similar to `target`, when similar enough.
pub fn closest_str(target: &str, candidates: &Vec<String>) -> (r: Option<String>)
    ensures
        match closest(target@, candidates@.map_values(|c: String| c@)) {
            Some(c) => r matches Some(s) && s@ == c,
            None => r is None,
        },
{
    let ghost cs = candidates@.map_values(|c: String| c@);
    let n = candidates.len();
    if n == 0 {
        return None;
    }
    let tl = to_lowercase(target);
    let t = chars_of(tl.as_str());
    let mut best: usize = 0;
    let mut best_score = score_exec(&t, candidates[0].as_str());
    let mut i: usize = 1;
    while i < n
        invariant
            n == candidates@.len(),
            cs == candidates@.map_values(|c: String| c@),
            t@ == lowercase(target@),
            1 <= i <= n,
            best == best_index(t@, cs, i as int),
            best < i,
            best_score.0 as nat == score(t@, cs[best as int]).0,
            best_score.1 as nat == score(t@, cs[best as int]).1,
            best_score.0 <= best_score.1,
        decreases n - i,
    {
        let sc = score_exec(&t, candidates[i].as_str());
        proof {
            assert(cs[i as int] == candidates@[i as int]@);
        }
        if similar_at_least(sc, best_score) {
            best = i;
            best_score = sc;
        }
        i = i + 1;
    }
    if best_score.1 == 0 || 2 * (best_score.0 as u128) < (best_score.1 as u128) {
        Some(candidates[best].clone())
    } else {
        None
    }
}

// ---------------------------------------------------------------------------
// Finding the references
// ---------------------------------------------------------------------------

/// `Name.Member` at `p`: the end of the name and the end of the member.
pub open spec fn dot_at(s: Seq<char>, p: int) -> Option<(int, int)> {
    if 0 <= p < s.len() && is_id_start(s[p]) {
        let r = run_end(s, p, false);
        if r + 1 < s.len() && s[r] == '.' && is_id_start(s[r + 1]) {
            Some((r, run_end(s, r + 1, false)))
        } else {
            None
        }
    } else {
        None
    }
}

/// The `Name.Member` references from `p` on, each found after the previous
/// one: (name start, name end, member end).
pub open spec fn dot_matches(s: Seq<char>, p: int) -> Seq<(int, int, int)>
    decreases s.len() - p,
{
    if p < 0 || p >= s.len() {
        Seq::empty()
    } else {
        match dot_at(s, p) {
            Some((r, e)) => if p < e && e <= s.len() {
                seq![(p, r, e)] + dot_matches(s, e)
            } else {
                Seq::empty()
            },
            None => dot_matches(s, p + 1),
        }
    }
}

/// `Новый`/`New` (any case) at `q`, blanks, then a type name: its range.
pub open spec fn new_tail(s: Seq<char>, q: int) -> Option<(int, int)> {
    let k = new_kw_len(s, q);
    if k == 0 {
        None
    } else {
        let a = q + k;
        let w = ws_end(s, a);
        if w > a && w < s.len() && is_id_start_ci(s[w]) {
            Some((w, run_end(s, w, true)))
        } else {
            None
        }
    }
}

/// A `Новый Type` expression starting at `p`: at the very start of the text,
/// or after a character that is not part of a name.
pub open spec fn new_at(s: Seq<char>, p: int) -> Option<(int, int)> {
    if p == 0 && new_tail(s, 0) is Some {
        new_tail(s, 0)
    } else if 0 <= p < s.len() && !is_id_char_ci(s[p]) {
        new_tail(s, p + 1)
    } else {
        None
    }
}

/// The `Новый Type` expressions from `p` on: ranges of the type names.
pub open spec fn new_matches(s: Seq<char>, p: int) -> Seq<(int, int)>
    decreases s.len() - p,
{
    if p < 0 || p >= s.len() {
        Seq::empty()
    } else {
        match new_at(s, p) {
            Some((ts, te)) => if p < te && te <= s.len() {
                seq![(ts, te)] + new_matches(s, te)
            } else {
                Seq::empty()
            },
            None => new_matches(s, p + 1),
        }
    }
}

/// `Name (` at `p`: the end of the name.
pub open spec fn call_at(s: Seq<char>, p: int) -> Option<int> {
    if 0 <= p < s.len() && is_id_start(s[p]) {
        let r = run_end(s, p, false);
        let w = ws_end(s, r);
        if w < s.len() && s[w] == '(' {
            Some(r)
        } else {
            None
        }
    } else {
        None
    }
}

/// The `Name(` calls from `p` on: (name start, name end).
pub open spec fn call_matches(s: Seq<char>, p: int) -> Seq<(int, int)>
    decreases s.len() - p,
{
    if p < 0 || p >= s.len() {
        Seq::empty()
    } else {
        match call_at(s, p) {
            Some(r) => {
                let e = ws_end(s, r) + 1;
                if p < e && e <= s.len() {
                    seq![(p, r)] + call_matches(s, e)
                } else {
                    Seq::empty()
                }
            },
            None => call_matches(s, p + 1),
        }
    }
}

pub open spec fn int3(x: (usize, usize, usize)) -> (int, int, int) {
    (x.0 as int, x.1 as int, x.2 as int)
}

pub open spec fn int2(x: (usize, usize)) -> (int, int) {
    (x.0 as int, x.1 as int)
}

fn dot_scan(s: &[char]) -> (r: Vec<(usize, usize, usize)>)
    ensures
        r@.map_values(|x: (usize, usize, usize)| int3(x)) == dot_matches(s@, 0),
        forall|i: int| 0 <= i < r@.len() ==> #[trigger] r@[i].0 < r@[i].1 && r@[i].1 + 1 < r@[i].2 && r@[i].2 <= s@.len(),
{
    let n = s.len();
    let ghost ms = dot_matches(s@, 0);
    let mut out: Vec<(usize, usize, usize)> = Vec::new();
    let mut p: usize = 0;
    proof {
        assert(out@.map_values(|x: (usize, usize, usize)| int3(x)) + dot_matches(s@, 0) =~= ms);
    }
    while p < n
        invariant
            n == s@.len(),
            ms == dot_matches(s@, 0),
            p <= n,
            out@.map_values(|x: (usize, usize, usize)| int3(x)) + dot_matches(s@, p as int) == ms,
            forall|i: int| 0 <= i < out@.len() ==> #[trigger] out@[i].0 < out@[i].1 && out@[i].1 + 1 < out@[i].2 && out@[i].2 <= n,
        decreases n - p,
    {
        let mut matched = false;
        if id_start(s[p], false) {
            let r = run_end_exec(s, p, false);
            if r < n && r + 1 < n && s[r] == '.' && id_start(s[r + 1], false) {
                let e = run_end_exec(s, r + 1, false);
                proof {
                    lemma_run_end(s@, p as int, false);
                    lemma_run_end(s@, p + 1, false);
                    lemma_run_end(s@, r + 2, false);
                    assert(dot_matches(s@, p as int) == seq![(p as int, r as int, e as int)] + dot_matches(s@, e as int));
                }
                let ghost prev = out@;
                out.push((p, r, e));
                proof {
                    assert(forall|i: int| 0 <= i < prev.len() ==> out@[i] == prev[i]);
                    assert(out@.map_values(|x: (usize, usize, usize)| int3(x)) =~= prev.map_values(|x: (usize, usize, usize)| int3(x)).push((p as int, r as int, e as int)));
                    assert(out@.map_values(|x: (usize, usize, usize)| int3(x)) + dot_matches(s@, e as int) =~= ms);
                }
                p = e;
                matched = true;
            }
        }
        if !matched {
            p = p + 1;
        }
    }
    proof {
        assert(out@.map_values(|x: (usize, usize, usize)| int3(x)) =~= ms);
    }
    out
}

fn new_tail_exec(s: &[char], q: usize) -> (r: Option<(usize, usize)>)
    requires
        q <= s@.len(),
    ensures
        match new_tail(s@, q as int) {
            Some((ts, te)) => r matches Some((a, b)) && a as int == ts && b as int == te && q < ts < te
                <= s@.len(),
            None => r is None,
        },
{
    let n = s.len();
    proof {
        reveal_strlit("новый");
        reveal_strlit("new");
    }
    let k = new_kw_len_exec(s, q);
    if k == 0 {
        return None;
    }
    let a = q + k;
    let w = ws_end_exec(s, a);
    if w > a && w < n && id_start(s[w], true) {
        let e = run_end_exec(s, w, true);
        proof {
            lemma_run_end(s@, w + 1, true);
        }
        Some((w, e))
    } else {
        None
    }
}

fn new_scan(s: &[char]) -> (r: Vec<(usize, usize)>)
    ensures
        r@.map_values(|x: (usize, usize)| int2(x)) == new_matches(s@, 0),
        forall|i: int| 0 <= i < r@.len() ==> #[trigger] r@[i].0 < r@[i].1 && r@[i].1 <= s@.len(),
{
    let n = s.len();
    let ghost ms = new_matches(s@, 0);
    let mut out: Vec<(usize, usize)> = Vec::new();
    let mut p: usize = 0;
    proof {
        assert(out@.map_values(|x: (usize, usize)| int2(x)) + new_matches(s@, 0) =~= ms);
    }
    while p < n
        invariant
            n == s@.len(),
            ms == new_matches(s@, 0),
            p <= n,
            out@.map_values(|x: (usize, usize)| int2(x)) + new_matches(s@, p as int) == ms,
            forall|i: int| 0 <= i < out@.len() ==> #[trigger] out@[i].0 < out@[i].1 && out@[i].1 <= n,
        decreases n - p,
    {
        let mut found: Option<(usize, usize)> = None;
        if p == 0 {
            found = new_tail_exec(s, 0);
        }
        if found.is_none() && !id_char(s[p], true) {
            found = new_tail_exec(s, p + 1);
        }
        proof {
            assert(match new_at(s@, p as int) {
                Some((ts, te)) => found matches Some((a, b)) && a as int == ts && b as int == te && p < te <= n,
                None => found is None,
            });
        }
        match found {
            Some((ts, te)) => {
                proof {
                    assert(new_matches(s@, p as int) == seq![(ts as int, te as int)] + new_matches(s@, te as int));
                }
                let ghost prev = out@;
                out.push((ts, te));
                proof {
                    assert(forall|i: int| 0 <= i < prev.len() ==> out@[i] == prev[i]);
                    assert(out@.map_values(|x: (usize, usize)| int2(x)) =~= prev.map_values(|x: (usize, usize)| int2(x)).push((ts as int, te as int)));
                    assert(out@.map_values(|x: (usize, usize)| int2(x)) + new_matches(s@, te as int) =~= ms);
                }
                p = te;
            },
            None => {
                p = p + 1;
            },
        }
    }
    proof {
        assert(out@.map_values(|x: (usize, usize)| int2(x)) =~= ms);
    }
    out
}

fn call_scan(s: &[char]) -> (r: Vec<(usize, usize)>)
    ensures
        r@.map_values(|x: (usize, usize)| int2(x)) == call_matches(s@, 0),
        forall|i: int| 0 <= i < r@.len() ==> #[trigger] r@[i].0 < r@[i].1 && r@[i].1 <= s@.len(),
{
    let n = s.len();
    let ghost ms = call_matches(s@, 0);
    let mut out: Vec<(usize, usize)> = Vec::new();
    let mut p: usize = 0;
    proof {
        assert(out@.map_values(|x: (usize, usize)| int2(x)) + call_matches(s@, 0) =~= ms);
    }
    while p < n
        invariant
            n == s@.len(),
            ms == call_matches(s@, 0),
            p <= n,
            out@.map_values(|x: (usize, usize)| int2(x)) + call_matches(s@, p as int) == ms,
            forall|i: int| 0 <= i < out@.len() ==> #[trigger] out@[i].0 < out@[i].1 && out@[i].1 <= n,
        decreases n - p,
    {
        let mut matched = false;
        if id_start(s[p], false) {
            let r = run_end_exec(s, p, false);
            let w = ws_end_exec(s, r);
            if w < n && s[w] == '(' {
                proof {
                    lemma_run_end(s@, p + 1, false);
                    assert(call_matches(s@, p as int) == seq![(p as int, r as int)] + call_matches(s@, w + 1));
                }
                let ghost prev = out@;
                out.push((p, r));
                proof {
                    assert(forall|i: int| 0 <= i < prev.len() ==> out@[i] == prev[i]);
                    assert(out@.map_values(|x: (usize, usize)| int2(x)) =~= prev.map_values(|x: (usize, usize)| int2(x)).push((p as int, r as int)));
                    assert(out@.map_values(|x: (usize, usize)| int2(x)) + call_matches(s@, w + 1) =~= ms);
                }
                p = w + 1;
                matched = true;
            }
        }
        if !matched {
            p = p + 1;
        }
    }
    proof {
        assert(out@.map_values(|x: (usize, usize)| int2(x)) =~= ms);
    }
    out
}

// ---------------------------------------------------------------------------
// Findings
// ---------------------------------------------------------------------------

pub struct ExprError {
    pub line: u32,
    pub col: u32,
    pub kind: ExprErrorKind,
    pub message: String,
    /// Derived from `kind`, repeated so that a reader needs no mapping.
    pub confidence: Confidence,
    /// The nearest known name, if any.
    pub suggestion: Option<String>,
    pub similar: Vec<SimilarValue>,
}

pub struct ExprErrorModel {
    pub line: int,
    pub col: int,
    pub kind: ExprErrorKind,
    pub message: Seq<char>,
    pub confidence: Confidence,
    pub suggestion: Option<Seq<char>>,
    pub similar_count: nat,
}

pub open spec fn opt_view(o: Option<String>) -> Option<Seq<char>> {
    match o {
        Some(s) => Some(s@),
        None => None,
    }
}

impl DeepView for ExprError {
    type V = ExprErrorModel;

    open spec fn deep_view(&self) -> ExprErrorModel {
        ExprErrorModel {
            line: self.line as int,
            col: self.col as int,
            kind: self.kind,
            message: self.message@,
            confidence: self.confidence,
            suggestion: opt_view(self.suggestion),
            similar_count: self.similar@.len(),
        }
    }
}

/// The result of a validation.
pub struct ExpressionValidation {
    pub valid: bool,
    pub errors: Vec<ExprError>,
}

/// A finding of kind `kind` at character `at` of the cleaned text.
pub open spec fn finding(
    s: Seq<char>,
    at: int,
    kind: ExprErrorKind,
    message: Seq<char>,
    suggestion: Option<Seq<char>>,
) -> ExprErrorModel {
    ExprErrorModel {
        line: pos_of(s, at).0,
        col: pos_of(s, at).1,
        kind,
        message,
        confidence: confidence_of(kind),
        suggestion,
        similar_count: 0,
    }
}

/// `pre`, the suggestion and `'.`, when there is a suggestion.
pub open spec fn hint(sug: Option<Seq<char>>, pre: Seq<char>) -> Seq<char> {
    match sug {
        Some(x) => pre + x + "'."@,
        None => Seq::empty(),
    }
}

pub open spec fn enum_message(member: Seq<char>, owner: Seq<char>, sug: Option<Seq<char>>) -> Seq<
    char,
> {
    "Значение '"@ + member + "' не существует у типа-перечисления '"@ + owner + "'."@ + hint(
        sug,
        " Возможно, вы имели в виду '"@,
    )
}

pub open spec fn member_message(owner: Seq<char>, member: Seq<char>, sug: Option<Seq<char>>) -> Seq<
    char,
> {
    "У типа '"@ + owner + "' нет члена '"@ + member + "'."@ + hint(sug, " Возможно: '"@)
}

pub open spec fn new_message(ty: Seq<char>, sug: Option<Seq<char>>) -> Seq<char> {
    "Тип '"@ + ty + "' не найден в платформенном контексте (Новый '"@ + ty + "')."@ + hint(
        sug,
        " Возможно: '"@,
    )
}

/// The Russian names of the values of an enumeration.
pub open spec fn enum_names(t: Type) -> Seq<Seq<char>> {
    t.enum_values@.map_values(|v: EnumValue| v.name_ru@)
}

/// The Russian names of the methods, then of the properties, of a type.
pub open spec fn member_names(t: Type) -> Seq<Seq<char>> {
    t.methods@.map_values(|m: Method| m.name_ru@) + t.properties@.map_values(
        |p: Property| p.name_ru@,
    )
}

/// The Russian names of the types of the index, in its order.
pub open spec fn known_types(index: PlatformIndex) -> Seq<Seq<char>> {
    index.types@.map_values(|t: Type| t.name_ru@)
}

/// The enumeration has a value named `m` (Russian or English, any case).
pub open spec fn has_enum_value(t: Type, m: Seq<char>) -> bool {
    exists|i: int| 0 <= i < t.enum_values@.len() && #[trigger] value_named(t.enum_values@[i], m)
}

/// An enumeration value named `m` (Russian or English, any case).
pub open spec fn value_named(v: EnumValue, m: Seq<char>) -> bool {
    same_name(v.name_ru@, m) || same_name(v.name_en@, m)
}

/// A method named `m` (Russian or English, any case).
pub open spec fn method_named(x: Method, m: Seq<char>) -> bool {
    same_name(x.name_ru@, m) || same_name(x.name_en@, m)
}

/// A property named `m` (Russian or English, any case).
pub open spec fn property_named(x: Property, m: Seq<char>) -> bool {
    same_name(x.name_ru@, m) || same_name(x.name_en@, m)
}

/// The type has a method or a property named `m` (Russian or English, any case).
pub open spec fn has_member(t: Type, m: Seq<char>) -> bool {
    ||| exists|i: int| 0 <= i < t.methods@.len() && #[trigger] method_named(t.methods@[i], m)
    ||| exists|i: int| 0 <= i < t.properties@.len() && #[trigger] property_named(t.properties@[i], m)
}

/// The word before `h` rules the reference out: a `.` or a word character.
pub open spec fn left_blocked(s: Seq<char>, h: int) -> bool {
    h > 0 && (s[h - 1] == '.' || !safe_left(s, h))
}

/// The type the name at `h` stands for: a type of the index, else (at level
/// 2) the inferred type of a variable of that name.
pub open spec fn resolve_head(
    index: PlatformIndex,
    sm: Option<Seq<ScopeModel>>,
    s: Seq<char>,
    h: int,
    head: Seq<char>,
) -> Option<Seq<char>> {
    if index.lookup_type(head) is Some {
        Some(head)
    } else {
        match sm {
            Some(ss) => scope_var_type(ss, byte_len(s.take(h)) as int, head),
            None => None,
        }
    }
}

/// The finding for a `Name.Member` reference, if any.
pub open spec fn dot_error(
    index: PlatformIndex,
    sm: Option<Seq<ScopeModel>>,
    s: Seq<char>,
    m: (int, int, int),
) -> Option<ExprErrorModel> {
    let (h, r, e) = m;
    if left_blocked(s, h) {
        None
    } else {
        let head = s.subrange(h, r);
        let member = s.subrange(r + 1, e);
        match resolve_head(index, sm, s, h, head) {
            None => None,
            Some(tn) => match index.lookup_type(tn) {
                None => None,
                Some(t) => if t.enum_values@.len() > 0 {
                    if has_enum_value(t, member) {
                        None
                    } else {
                        let sug = closest(member, enum_names(t));
                        Some(
                            finding(
                                s,
                                r + 1,
                                ExprErrorKind::UnknownEnumValue,
                                enum_message(member, t.name_ru@, sug),
                                sug,
                            ),
                        )
                    }
                } else {
                    if has_member(t, member) {
                        None
                    } else {
                        let sug = closest(member, member_names(t));
                        Some(
                            finding(
                                s,
                                r + 1,
                                ExprErrorKind::UnknownTypeMember,
                                member_message(t.name_ru@, member, sug),
                                sug,
                            ),
                        )
                    }
                },
            },
        }
    }
}

/// The finding for a `Новый Type` expression, if any.
pub open spec fn new_error(index: PlatformIndex, s: Seq<char>, m: (int, int)) -> Option<ExprErrorModel> {
    let (ts, te) = m;
    let ty = s.subrange(ts, te);
    if index.lookup_type(ty) is Some {
        None
    } else {
        let sug = closest(ty, known_types(index));
        Some(finding(s, ts, ExprErrorKind::UnknownNewType, new_message(ty, sug), sug))
    }
}

/// The first position at or after `i` that is not ASCII white space.
pub open spec fn ascii_ws_end(s: Seq<char>, i: int) -> int
    decreases s.len() - i,
{
    if 0 <= i < s.len() && is_ascii_ws_char(s[i]) {
        ascii_ws_end(s, i + 1)
    } else {
        i
    }
}

/// The finding for a call `Name(...)`, if any: a known global method called
/// with a number of arguments that fits none of its signatures.
pub open spec fn call_error(index: PlatformIndex, s: Seq<char>, m: (int, int)) -> Option<ExprErrorModel> {
    let (h, r) = m;
    let head = s.subrange(h, r);
    if left_blocked(s, h) || is_keyword_text(lowercase(head)) {
        None
    } else if first_method_named(index.global_methods@, head) is None {
        None
    } else {
        let k = ascii_ws_end(s, r);
        if k >= s.len() || s[k] != '(' {
            None
        } else {
            match closing_from(s, k + 1, 1) {
                None => None,
                Some(c) => {
                    let n = arg_count(s.subrange(k + 1, c));
                    let (valid, _, _, msg) = method_call_answer(
                        first_method_named(index.global_methods@, head),
                        head,
                        n,
                    );
                    if valid {
                        None
                    } else {
                        Some(finding(s, h, ExprErrorKind::WrongArgumentCount, msg, None))
                    }
                },
            }
        }
    }
}

/// The findings among the first `k` options, in order.
pub open spec fn somes<X>(xs: Seq<Option<X>>, k: int) -> Seq<X>
    decreases k,
{
    if k <= 0 {
        Seq::empty()
    } else {
        match xs[k - 1] {
            Some(x) => somes(xs, k - 1).push(x),
            None => somes(xs, k - 1),
        }
    }
}

pub open spec fn all_somes<X>(xs: Seq<Option<X>>) -> Seq<X> {
    somes(xs, xs.len() as int)
}

/// Every finding of a cleaned text, at a level of inference given by the
/// scopes (`None` at level 1): `Name.Member`, then `Новый Type`, then calls.
pub open spec fn findings(index: PlatformIndex, sm: Option<Seq<ScopeModel>>, s: Seq<char>) -> Seq<
    ExprErrorModel,
> {
    all_somes(dot_matches(s, 0).map_values(|m: (int, int, int)| dot_error(index, sm, s, m)))
        + all_somes(new_matches(s, 0).map_values(|m: (int, int)| new_error(index, s, m)))
        + all_somes(call_matches(s, 0).map_values(|m: (int, int)| call_error(index, s, m)))
}

/// The findings for a source text at a level: level 2 and above infer the
/// types of local variables.
pub open spec fn expression_findings(index: PlatformIndex, src: Seq<char>, level: int) -> Seq<
    ExprErrorModel,
> {
    let s = masked(src);
    let sm = if level >= 2 {
        Some(scopes_of(index, s, annotations_of(src)))
    } else {
        None
    };
    findings(index, sm, s)
}

// ---------------------------------------------------------------------------
// Checking the references
// ---------------------------------------------------------------------------

pub open spec fn scopes_view(sm: Option<&ScopeMap>) -> Option<Seq<ScopeModel>> {
    match sm {
        Some(m) => Some(m.scopes.deep_view()),
        None => None,
    }
}

pub open spec fn opt_model(o: Option<ExprError>) -> Option<ExprErrorModel> {
    match o {
        Some(e) => Some(e.deep_view()),
        None => None,
    }
}

fn make_error(
    s: &[char],
    at: usize,
    kind: ExprErrorKind,
    message: String,
    suggestion: Option<String>,
) -> (r: ExprError)
    requires
        at <= s@.len(),
        s@.len() < u32::MAX,
    ensures
        r.deep_view() == finding(s@, at as int, kind, message@, opt_view(suggestion)),
{
    let (line, col) = pos_at(s, at);
    ExprError {
        line,
        col,
        kind,
        message,
        confidence: kind.confidence(),
        suggestion,
        similar: Vec::new(),
    }
}

fn push_hint(buf: &mut String, sug: &Option<String>, pre: &str)
    ensures
        final(buf)@ == old(buf)@ + hint(opt_view(*sug), pre@),
{
    match sug {
        Some(x) => {
            push_str(buf, pre);
            push_str(buf, x.as_str());
            push_str(buf, "'.");
        },
        None => {
            assert(old(buf)@ + Seq::<char>::empty() =~= old(buf)@);
        },
    }
}

fn names_vec_enum(t: &Type) -> (r: Vec<String>)
    ensures
        r@.map_values(|c: String| c@) == enum_names(*t),
{
    let mut out: Vec<String> = Vec::new();
    for i in 0..t.enum_values.len()
        invariant
            out@.map_values(|c: String| c@) == t.enum_values@.take(i as int).map_values(|v: EnumValue| v.name_ru@),
    {
        let ghost prev = out@;
        let c = t.enum_values[i].name_ru.clone();
        out.push(c);
        proof {
            lemma_map_push(prev, c, |c: String| c@);
            lemma_map_take_succ(t.enum_values@, i as int, |v: EnumValue| v.name_ru@);
        }
    }
    assert(t.enum_values@.take(t.enum_values@.len() as int) =~= t.enum_values@);
    out
}

fn names_vec_members(t: &Type) -> (r: Vec<String>)
    ensures
        r@.map_values(|c: String| c@) == member_names(*t),
{
    let mut out: Vec<String> = Vec::new();
    for i in 0..t.methods.len()
        invariant
            out@.map_values(|c: String| c@) == t.methods@.take(i as int).map_values(|m: Method| m.name_ru@),
    {
        let ghost prev = out@;
        let c = t.methods[i].name_ru.clone();
        out.push(c);
        proof {
            lemma_map_push(prev, c, |c: String| c@);
            lemma_map_take_succ(t.methods@, i as int, |m: Method| m.name_ru@);
        }
    }
    assert(t.methods@.take(t.methods@.len() as int) =~= t.methods@);
    let ghost mid = out@.map_values(|c: String| c@);
    for i in 0..t.properties.len()
        invariant
            mid == t.methods@.map_values(|m: Method| m.name_ru@),
            out@.map_values(|c: String| c@) == mid + t.properties@.take(i as int).map_values(|p: Property| p.name_ru@),
    {
        let ghost prev = out@;
        let c = t.properties[i].name_ru.clone();
        out.push(c);
        proof {
            lemma_map_push(prev, c, |c: String| c@);
            lemma_map_take_succ(t.properties@, i as int, |p: Property| p.name_ru@);
            assert(out@.map_values(|c: String| c@) =~= mid + t.properties@.take(i + 1).map_values(|p: Property| p.name_ru@));
        }
    }
    assert(t.properties@.take(t.properties@.len() as int) =~= t.properties@);
    out
}

fn names_vec_types(index: &PlatformIndex) -> (r: Vec<String>)
    ensures
        r@.map_values(|c: String| c@) == known_types(*index),
{
    let mut out: Vec<String> = Vec::new();
    for i in 0..index.types.len()
        invariant
            out@.map_values(|c: String| c@) == index.types@.take(i as int).map_values(|t: Type| t.name_ru@),
    {
        let ghost prev = out@;
        let c = index.types[i].name_ru.clone();
        out.push(c);
        proof {
            lemma_map_push(prev, c, |c: String| c@);
            lemma_map_take_succ(index.types@, i as int, |t: Type| t.name_ru@);
        }
    }
    assert(index.types@.take(index.types@.len() as int) =~= index.types@);
    out
}

fn enum_has_value(t: &Type, m_lower: &str, Ghost(member): Ghost<Seq<char>>) -> (r: bool)
    requires
        m_lower@ == lowercase(member),
    ensures
        r == has_enum_value(*t, member),
{
    let n = t.enum_values.len();
    let mut i: usize = 0;
    while i < n
        invariant
            n == t.enum_values@.len(),
            m_lower@ == lowercase(member),
            i <= n,
            forall|k: int| 0 <= k < i ==> !#[trigger] value_named(t.enum_values@[k], member),
        decreases n - i,
    {
        let a = to_lowercase(t.enum_values[i].name_ru.as_str());
        let b = to_lowercase(t.enum_values[i].name_en.as_str());
        if str_eq(a.as_str(), m_lower) || str_eq(b.as_str(), m_lower) {
            assert(value_named(t.enum_values@[i as int], member));
            return true;
        }
        assert(!value_named(t.enum_values@[i as int], member));
        i = i + 1;
    }
    false
}

fn type_has_member(t: &Type, m_lower: &str, Ghost(member): Ghost<Seq<char>>) -> (r: bool)
    requires
        m_lower@ == lowercase(member),
    ensures
        r == has_member(*t, member),
{
    let n = t.methods.len();
    let mut i: usize = 0;
    while i < n
        invariant
            n == t.methods@.len(),
            m_lower@ == lowercase(member),
            i <= n,
            forall|k: int| 0 <= k < i ==> !#[trigger] method_named(t.methods@[k], member),
        decreases n - i,
    {
        let a = to_lowercase(t.methods[i].name_ru.as_str());
        let b = to_lowercase(t.methods[i].name_en.as_str());
        if str_eq(a.as_str(), m_lower) || str_eq(b.as_str(), m_lower) {
            assert(method_named(t.methods@[i as int], member));
            return true;
        }
        assert(!method_named(t.methods@[i as int], member));
        i = i + 1;
    }
    let n2 = t.properties.len();
    let mut j: usize = 0;
    while j < n2
        invariant
            n2 == t.properties@.len(),
            m_lower@ == lowercase(member),
            j <= n2,
            forall|k: int| 0 <= k < t.methods@.len() ==> !#[trigger] method_named(t.methods@[k], member),
            forall|k: int| 0 <= k < j ==> !#[trigger] property_named(t.properties@[k], member),
        decreases n2 - j,
    {
        let a = to_lowercase(t.properties[j].name_ru.as_str());
        let b = to_lowercase(t.properties[j].name_en.as_str());
        if str_eq(a.as_str(), m_lower) || str_eq(b.as_str(), m_lower) {
            assert(property_named(t.properties@[j as int], member));
            return true;
        }
        assert(!property_named(t.properties@[j as int], member));
        j = j + 1;
    }
    false
}

fn dot_check(
    index: &PlatformIndex,
    s: &[char],
    offs: &Vec<usize>,
    scope_map: Option<&ScopeMap>,
    h: usize,
    r: usize,
    e: usize,
) -> (res: Option<ExprError>)
    requires
        index.wf(),
        h < r,
        r + 1 < e <= s@.len(),
        s@.len() < u32::MAX,
        offs@.len() == s@.len() + 1,
        forall|i: int| 0 <= i <= s@.len() ==> #[trigger] offs@[i] == byte_len(s@.take(i)),
    ensures
        opt_model(res) == dot_error(*index, scopes_view(scope_map), s@, (h as int, r as int, e as int)),
{
    if h > 0 && (s[h - 1] == '.' || !is_safe_left_boundary(s, h)) {
        return None;
    }
    let head = string_from_chars(&copy_range(s, h, r));
    let member = string_from_chars(&copy_range(s, r + 1, e));
    let resolved: Option<String> = match index.find_type(head.as_str()) {
        Some(_) => Some(head.clone()),
        None => match scope_map {
            Some(sm) => match sm.type_of_var(offs[h], head.as_str()) {
                Some(t) => Some(t.clone()),
                None => None,
            },
            None => None,
        },
    };
    let tn = match resolved {
        Some(t) => t,
        None => {
            return None;
        },
    };
    let ty = match index.find_type(tn.as_str()) {
        Some(t) => t,
        None => {
            return None;
        },
    };
    let m_lower = to_lowercase(member.as_str());
    if ty.is_enum() {
        if enum_has_value(ty, m_lower.as_str(), Ghost(member@)) {
            return None;
        }
        let allowed = names_vec_enum(ty);
        let sug = closest_str(member.as_str(), &allowed);
        let mut msg = String::new();
        push_str(&mut msg, "Значение '");
        push_str(&mut msg, member.as_str());
        push_str(&mut msg, "' не существует у типа-перечисления '");
        push_str(&mut msg, ty.name_ru.as_str());
        push_str(&mut msg, "'.");
        push_hint(&mut msg, &sug, " Возможно, вы имели в виду '");
        Some(make_error(s, r + 1, ExprErrorKind::UnknownEnumValue, msg, sug))
    } else {
        if type_has_member(ty, m_lower.as_str(), Ghost(member@)) {
            return None;
        }
        let allowed = names_vec_members(ty);
        let sug = closest_str(member.as_str(), &allowed);
        let mut msg = String::new();
        push_str(&mut msg, "У типа '");
        push_str(&mut msg, ty.name_ru.as_str());
        push_str(&mut msg, "' нет члена '");
        push_str(&mut msg, member.as_str());
        push_str(&mut msg, "'.");
        push_hint(&mut msg, &sug, " Возможно: '");
        Some(make_error(s, r + 1, ExprErrorKind::UnknownTypeMember, msg, sug))
    }
}

fn new_check(index: &PlatformIndex, s: &[char], ts: usize, te: usize) -> (res: Option<ExprError>)
    requires
        index.wf(),
        ts < te <= s@.len(),
        s@.len() < u32::MAX,
    ensures
        opt_model(res) == new_error(*index, s@, (ts as int, te as int)),
{
    let ty = string_from_chars(&copy_range(s, ts, te));
    if index.find_type(ty.as_str()).is_some() {
        return None;
    }
    let all = names_vec_types(index);
    let sug = closest_str(ty.as_str(), &all);
    let mut msg = String::new();
    push_str(&mut msg, "Тип '");
    push_str(&mut msg, ty.as_str());
    push_str(&mut msg, "' не найден в платформенном контексте (Новый '");
    push_str(&mut msg, ty.as_str());
    push_str(&mut msg, "').");
    push_hint(&mut msg, &sug, " Возможно: '");
    Some(make_error(s, ts, ExprErrorKind::UnknownNewType, msg, sug))
}

fn call_check(index: &PlatformIndex, s: &[char], h: usize, r: usize) -> (res: Option<ExprError>)
    requires
        index.wf(),
        h < r <= s@.len(),
        s@.len() < u32::MAX,
    ensures
        opt_model(res) == call_error(*index, s@, (h as int, r as int)),
{
    let n = s.len();
    if h > 0 && (s[h - 1] == '.' || !is_safe_left_boundary(s, h)) {
        return None;
    }
    let head = string_from_chars(&copy_range(s, h, r));
    if is_bsl_keyword(head.as_str()) {
        return None;
    }
    if index.find_global_method(head.as_str()).is_none() {
        return None;
    }
    let mut k = r;
    while k < n && crate::text::char_is_ascii_whitespace(s[k])
        invariant
            r <= k <= n == s@.len(),
            ascii_ws_end(s@, r as int) == ascii_ws_end(s@, k as int),
        decreases n - k,
    {
        k = k + 1;
    }
    if k >= n || s[k] != '(' {
        return None;
    }
    let close = match find_matching_paren(s, k) {
        Some(c) => c,
        None => {
            return None;
        },
    };
    proof {
        lemma_closing_range(s@, k + 1, 1);
    }
    let args = string_from_chars(&copy_range(s, k + 1, close));
    let count = count_top_level_args(args.as_str());
    let result = validate_method_call(index, head.as_str(), count);
    if !result.valid {
        Some(make_error(s, h, ExprErrorKind::WrongArgumentCount, result.message, None))
    } else {
        None
    }
}

proof fn lemma_closing_range(s: Seq<char>, i: int, d: int)
    requires
        0 <= i,
    ensures
        closing_from(s, i, d) matches Some(c) ==> i <= c < s.len(),
    decreases s.len() - i,
{
    if i < s.len() {
        if s[i] == '(' {
            lemma_closing_range(s, i + 1, d + 1);
        } else if s[i] == ')' {
            if d - 1 != 0 {
                lemma_closing_range(s, i + 1, d - 1);
            }
        } else {
            lemma_closing_range(s, i + 1, d);
        }
    }
}

proof fn lemma_somes_step<X>(xs: Seq<Option<X>>, k: int)
    requires
        0 <= k < xs.len(),
    ensures
        somes(xs, k + 1) == match xs[k] {
            Some(x) => somes(xs, k).push(x),
            None => somes(xs, k),
        },
{
}

/// The findings for the `Name.Member` references of a cleaned text.
fn check_type_dot_members(
    index: &PlatformIndex,
    s: &[char],
    offs: &Vec<usize>,
    scope_map: Option<&ScopeMap>,
    errors: &mut Vec<ExprError>,
)
    requires
        index.wf(),
        s@.len() < u32::MAX,
        offs@.len() == s@.len() + 1,
        forall|i: int| 0 <= i <= s@.len() ==> #[trigger] offs@[i] == byte_len(s@.take(i)),
    ensures
        final(errors).deep_view() == old(errors).deep_view() + all_somes(
            dot_matches(s@, 0).map_values(
                |m: (int, int, int)| dot_error(*index, scopes_view(scope_map), s@, m),
            ),
        ),
{
    let ms = dot_scan(s);
    let ghost xs = dot_matches(s@, 0).map_values(
        |m: (int, int, int)| dot_error(*index, scopes_view(scope_map), s@, m),
    );
    let ghost start = errors.deep_view();
    let n = ms.len();
    let mut i: usize = 0;
    assert(start + somes(xs, 0) =~= start);
    while i < n
        invariant
            n == ms@.len(),
            index.wf(),
            s@.len() < u32::MAX,
            offs@.len() == s@.len() + 1,
            forall|k: int| 0 <= k <= s@.len() ==> #[trigger] offs@[k] == byte_len(s@.take(k)),
            ms@.map_values(|x: (usize, usize, usize)| int3(x)) == dot_matches(s@, 0),
            forall|k: int| 0 <= k < ms@.len() ==> #[trigger] ms@[k].0 < ms@[k].1 && ms@[k].1 + 1 < ms@[k].2 && ms@[k].2 <= s@.len(),
            xs == dot_matches(s@, 0).map_values(
                |m: (int, int, int)| dot_error(*index, scopes_view(scope_map), s@, m),
            ),
            xs.len() == n,
            i <= n,
            errors.deep_view() == start + somes(xs, i as int),
        decreases n - i,
    {
        let (h, r, e) = ms[i];
        proof {
            assert(int3(ms@[i as int]) == dot_matches(s@, 0)[i as int]);
            lemma_somes_step(xs, i as int);
        }
        let ghost before_v = *errors;
        match dot_check(index, s, offs, scope_map, h, r, e) {
            Some(err) => {
                errors.push(err);
                proof {
                    crate::seqs::lemma_deep_view_push(before_v, *errors, err);
                }
                assert(errors.deep_view() =~= start + somes(xs, i + 1));
            },
            None => {},
        }
        i = i + 1;
    }
}

/// The findings for the `Новый Type` expressions of a cleaned text.
fn check_new_expressions(index: &PlatformIndex, s: &[char], errors: &mut Vec<ExprError>)
    requires
        index.wf(),
        s@.len() < u32::MAX,
    ensures
        final(errors).deep_view() == old(errors).deep_view() + all_somes(
            new_matches(s@, 0).map_values(|m: (int, int)| new_error(*index, s@, m)),
        ),
{
    let ms = new_scan(s);
    let ghost xs = new_matches(s@, 0).map_values(|m: (int, int)| new_error(*index, s@, m));
    let ghost start = errors.deep_view();
    let n = ms.len();
    let mut i: usize = 0;
    assert(start + somes(xs, 0) =~= start);
    while i < n
        invariant
            n == ms@.len(),
            index.wf(),
            s@.len() < u32::MAX,
            ms@.map_values(|x: (usize, usize)| int2(x)) == new_matches(s@, 0),
            forall|k: int| 0 <= k < ms@.len() ==> #[trigger] ms@[k].0 < ms@[k].1 && ms@[k].1 <= s@.len(),
            xs == new_matches(s@, 0).map_values(|m: (int, int)| new_error(*index, s@, m)),
            xs.len() == n,
            i <= n,
            errors.deep_view() == start + somes(xs, i as int),
        decreases n - i,
    {
        let (ts, te) = ms[i];
        proof {
            assert(int2(ms@[i as int]) == new_matches(s@, 0)[i as int]);
            lemma_somes_step(xs, i as int);
        }
        let ghost before_v = *errors;
        match new_check(index, s, ts, te) {
            Some(err) => {
                errors.push(err);
                proof {
                    crate::seqs::lemma_deep_view_push(before_v, *errors, err);
                }
                assert(errors.deep_view() =~= start + somes(xs, i + 1));
            },
            None => {},
        }
        i = i + 1;
    }
}

/// The findings for the calls of known global methods in a cleaned text.
fn check_global_calls(index: &PlatformIndex, s: &[char], errors: &mut Vec<ExprError>)
    requires
        index.wf(),
        s@.len() < u32::MAX,
    ensures
        final(errors).deep_view() == old(errors).deep_view() + all_somes(
            call_matches(s@, 0).map_values(|m: (int, int)| call_error(*index, s@, m)),
        ),
{
    let ms = call_scan(s);
    let ghost xs = call_matches(s@, 0).map_values(|m: (int, int)| call_error(*index, s@, m));
    let ghost start = errors.deep_view();
    let n = ms.len();
    let mut i: usize = 0;
    assert(start + somes(xs, 0) =~= start);
    while i < n
        invariant
            n == ms@.len(),
            index.wf(),
            s@.len() < u32::MAX,
            ms@.map_values(|x: (usize, usize)| int2(x)) == call_matches(s@, 0),
            forall|k: int| 0 <= k < ms@.len() ==> #[trigger] ms@[k].0 < ms@[k].1 && ms@[k].1 <= s@.len(),
            xs == call_matches(s@, 0).map_values(|m: (int, int)| call_error(*index, s@, m)),
            xs.len() == n,
            i <= n,
            errors.deep_view() == start + somes(xs, i as int),
        decreases n - i,
    {
        let (h, r) = ms[i];
        proof {
            assert(int2(ms@[i as int]) == call_matches(s@, 0)[i as int]);
            lemma_somes_step(xs, i as int);
        }
        let ghost before_v = *errors;
        match call_check(index, s, h, r) {
            Some(err) => {
                errors.push(err);
                proof {
                    crate::seqs::lemma_deep_view_push(before_v, *errors, err);
                }
                assert(errors.deep_view() =~= start + somes(xs, i + 1));
            },
            None => {},
        }
        i = i + 1;
    }
}

proof fn lemma_mask_len(s: Seq<char>, i: int, mode: int)
    requires
        0 <= i <= s.len(),
    ensures
        mask_from(s, i, mode).len() + byte_len(s.take(i)) <= byte_len(s),
    decreases s.len() - i,
{
    if i < s.len() {
        lemma_byte_len_take(s, i);
        let w = utf8_width(s[i]);
        assert(w >= 1);
        if mode == 2 && s[i] == '"' && i + 1 < s.len() && s[i + 1] == '"' {
            lemma_byte_len_take(s, i + 1);
            lemma_mask_len(s, i + 2, 2);
            assert(spaces(2).len() == 2);
        } else {
            if i + 1 < s.len() {
                lemma_byte_len_take(s, i + 1);
            } else {
                assert(s.take(i + 1) =~= s);
            }
            if mode == 0 {
                lemma_mask_len(s, i + 1, 0);
                lemma_mask_len(s, i + 1, 1);
                lemma_mask_len(s, i + 1, 2);
            } else if mode == 1 {
                lemma_mask_len(s, i + 1, 0);
                lemma_mask_len(s, i + 1, 1);
            } else {
                lemma_mask_len(s, i + 1, 0);
                lemma_mask_len(s, i + 1, 2);
            }
            assert(spaces(1).len() == 1);
            assert(spaces(w).len() == w);
        }
    } else {
        assert(s.take(i) =~= s);
    }
}

/// Validates a BSL fragment at level 1.
pub fn validate_expression(index: &PlatformIndex, source: &str) -> (r: ExpressionValidation)
    requires
        index.wf(),
        byte_len(source@) < u32::MAX,
    ensures
        r.errors.deep_view() == expression_findings(*index, source@, 1),
        r.valid == (r.errors@.len() == 0),
{
    validate_expression_at_level(index, source, 1)
}

/// Validates a BSL fragment at a level: 1 checks references written with a
/// type name, 2 and above also infer the types of local variables.
pub fn validate_expression_at_level(index: &PlatformIndex, source: &str, level: u8) -> (r:
    ExpressionValidation)
    requires
        index.wf(),
        byte_len(source@) < u32::MAX,
    ensures
        r.errors.deep_view() == expression_findings(*index, source@, level as int),
        r.valid == (r.errors@.len() == 0),
{
    let cleaned = mask_strings_and_comments(source);
    let v = chars_of(cleaned.as_str());
    proof {
        lemma_mask_len(source@, 0, 0);
        assert(source@.take(0) =~= Seq::<char>::empty());
        assert(byte_len(Seq::<char>::empty()) == 0);
        crate::lexis::lemma_byte_len_encode(cleaned@);
    }
    let scope_map = if level >= 2 {
        let annotations = crate::scope::extract_type_annotations(source);
        Some(crate::scope::extract_scope_map(index, cleaned.as_str(), &annotations))
    } else {
        None
    };
    let nb = crate::lexis::str_byte_len(cleaned.as_str());
    let offs = crate::lexis::byte_offsets(v.as_slice());
    let mut errors: Vec<ExprError> = Vec::new();
    let sm = match &scope_map {
        Some(m) => Some(m),
        None => None,
    };
    check_type_dot_members(index, v.as_slice(), &offs, sm, &mut errors);
    check_new_expressions(index, v.as_slice(), &mut errors);
    check_global_calls(index, v.as_slice(), &mut errors);
    proof {
        assert(Seq::<ExprErrorModel>::empty() + all_somes(dot_matches(v@, 0).map_values(
            |m: (int, int, int)| dot_error(*index, scopes_view(sm), v@, m),
        )) =~= all_somes(dot_matches(v@, 0).map_values(
            |m: (int, int, int)| dot_error(*index, scopes_view(sm), v@, m),
        )));
    }
    let valid = errors.len() == 0;
    ExpressionValidation { valid, errors }
}

/// The high-confidence findings, in order.
pub open spec fn keep_high(es: Seq<ExprErrorModel>) -> Seq<ExprErrorModel>
    decreases es.len(),
{
    if es.len() == 0 {
        Seq::empty()
    } else if es.last().confidence == Confidence::High {
        keep_high(es.drop_last()).push(es.last())
    } else {
        keep_high(es.drop_last())
    }
}

/// The findings a profile gives: `Strict` keeps the high-confidence findings
/// of level 1; `Full` gives every finding of the level asked for.
pub open spec fn profile_findings(index: PlatformIndex, src: Seq<char>, level: int, profile: Profile) -> Seq<
    ExprErrorModel,
> {
    if profile == Profile::Strict {
        keep_high(expression_findings(index, src, 1))
    } else {
        expression_findings(index, src, level)
    }
}

/// Validates a BSL fragment for a profile of reader.
pub fn validate_expression_with_profile(
    index: &PlatformIndex,
    source: &str,
    level: u8,
    profile: Profile,
) -> (r: ExpressionValidation)
    requires
        index.wf(),
        byte_len(source@) < u32::MAX,
    ensures
        r.errors.deep_view() == profile_findings(*index, source@, level as int, profile),
        r.valid == (r.errors@.len() == 0),
{
    let strict = profile == Profile::Strict;
    let effective: u8 = if strict {
        1
    } else {
        level
    };
    let result = validate_expression_at_level(index, source, effective);
    if !strict {
        return result;
    }
    let mut rest = result.errors;
    let ghost all = rest.deep_view();
    let mut kept: Vec<ExprError> = Vec::new();
    let ghost mut k: int = 0;
    assert(all.take(0) =~= Seq::<ExprErrorModel>::empty());
    while rest.len() > 0
        invariant
            0 <= k <= all.len(),
            rest.deep_view() == all.skip(k),
            kept.deep_view() == keep_high(all.take(k)),
        decreases rest@.len(),
    {
        let ghost before_rest = rest;
        let e = rest.remove(0);
        proof {
            assert(e == before_rest@[0]);
            assert(before_rest.deep_view().len() == before_rest@.len());
            assert(k < all.len());
            assert(before_rest.deep_view()[0] == before_rest@[0].deep_view());
            assert(all.skip(k)[0] == all[k]);
            assert(e.deep_view() == all[k]);
            assert(rest.deep_view() =~= all.skip(k + 1)) by {
                assert forall|j: int| 0 <= j < rest@.len() implies rest.deep_view()[j] == all.skip(k + 1)[j] by {
                    assert(rest@[j] == before_rest@[j + 1]);
                    assert(rest@.len() + 1 == before_rest@.len());
                    assert(rest.deep_view()[j] == rest@[j].deep_view());
                    assert(before_rest.deep_view()[j + 1] == before_rest@[j + 1].deep_view());
                    assert(before_rest.deep_view()[j + 1] == all.skip(k)[j + 1]);
                }
            }
            assert(all.take(k + 1).drop_last() =~= all.take(k));
            assert(all.take(k + 1).last() == all[k]);
        }
        if e.confidence == Confidence::High {
            let ghost before_kept = kept;
            kept.push(e);
            proof {
                crate::seqs::lemma_deep_view_push(before_kept, kept, e);
            }
        }
        proof {
            k = k + 1;
        }
    }
    proof {
        assert(all.take(k) =~= all);
    }
    let valid = kept.len() == 0;
    ExpressionValidation { valid, errors: kept }
}

} // verus!
