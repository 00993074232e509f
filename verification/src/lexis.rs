//! The lexical pieces of BSL that the validator looks for: identifiers,
//! blanks, keywords compared regardless of case, and byte offsets of
//! character positions.
use vstd::prelude::*;
use vstd::utf8::{char_is_scalar, encode_scalar, encode_utf8};

use crate::text::{char_is_alphanumeric, char_is_whitespace, is_ws, unicode_alnum};

verus! {

// ---------------------------------------------------------------------------
// Identifiers
// ---------------------------------------------------------------------------

/// A character that may start an identifier: a Latin or Russian letter, or `_`.
pub open spec fn is_id_start(c: char) -> bool {
    ('A' <= c && c <= 'Z') || ('a' <= c && c <= 'z') || ('А' <= c && c <= 'я') || c == 'Ё' || c
        == 'ё' || c == '_'
}

/// A character that may continue an identifier: also a decimal digit.
pub open spec fn is_id_char(c: char) -> bool {
    is_id_start(c) || ('0' <= c && c <= '9')
}

/// The characters that case-insensitive matching adds to the identifier
/// letters: the Kelvin sign and the long s (which fold to `k` and `s`), and
/// the old Cyrillic letter forms that fold into `а`..`я`.
pub open spec fn fold_extra_letter(c: char) -> bool {
    c == '\u{212A}' || c == '\u{17F}' || ('\u{1C80}' <= c && c <= '\u{1C86}')
}

/// `is_id_start` when letters are compared regardless of case.
pub open spec fn is_id_start_ci(c: char) -> bool {
    is_id_start(c) || fold_extra_letter(c)
}

/// `is_id_char` when letters are compared regardless of case.
pub open spec fn is_id_char_ci(c: char) -> bool {
    is_id_char(c) || fold_extra_letter(c)
}

pub fn id_start(c: char, ci: bool) -> (r: bool)
    ensures
        r == (if ci {
            is_id_start_ci(c)
        } else {
            is_id_start(c)
        }),
{
    let base = ('A' <= c && c <= 'Z') || ('a' <= c && c <= 'z') || ('А' <= c && c <= 'я') || c
        == 'Ё' || c == 'ё' || c == '_';
    if ci {
        base || c == '\u{212A}' || c == '\u{17F}' || ('\u{1C80}' <= c && c <= '\u{1C86}')
    } else {
        base
    }
}

pub fn id_char(c: char, ci: bool) -> (r: bool)
    ensures
        r == (if ci {
            is_id_char_ci(c)
        } else {
            is_id_char(c)
        }),
{
    id_start(c, ci) || ('0' <= c && c <= '9')
}

/// The end of the run of identifier characters that starts at `i`.
pub open spec fn run_end(s: Seq<char>, i: int, ci: bool) -> int
    decreases s.len() - i,
{
    if 0 <= i < s.len() && (if ci {
        is_id_char_ci(s[i])
    } else {
        is_id_char(s[i])
    }) {
        run_end(s, i + 1, ci)
    } else {
        i
    }
}

pub proof fn lemma_run_end(s: Seq<char>, i: int, ci: bool)
    requires
        0 <= i <= s.len(),
    ensures
        i <= run_end(s, i, ci) <= s.len(),
    decreases s.len() - i,
{
    if i < s.len() && (if ci {
        is_id_char_ci(s[i])
    } else {
        is_id_char(s[i])
    }) {
        lemma_run_end(s, i + 1, ci);
    }
}

pub fn run_end_exec(s: &[char], i: usize, ci: bool) -> (r: usize)
    requires
        i <= s@.len(),
    ensures
        r == run_end(s@, i as int, ci),
        i <= r <= s@.len(),
{
    let n = s.len();
    let mut k = i;
    while k < n && id_char(s[k], ci)
        invariant
            i <= k <= n == s@.len(),
            run_end(s@, i as int, ci) == run_end(s@, k as int, ci),
        decreases n - k,
    {
        k = k + 1;
    }
    k
}

// ---------------------------------------------------------------------------
// Blanks
// ---------------------------------------------------------------------------

/// The first position at or after `i` that is not Unicode white space.
pub open spec fn ws_end(s: Seq<char>, i: int) -> int
    decreases s.len() - i,
{
    if 0 <= i < s.len() && is_ws(s[i]) {
        ws_end(s, i + 1)
    } else {
        i
    }
}

pub proof fn lemma_ws_end(s: Seq<char>, i: int)
    requires
        0 <= i <= s.len(),
    ensures
        i <= ws_end(s, i) <= s.len(),
    decreases s.len() - i,
{
    if i < s.len() && is_ws(s[i]) {
        lemma_ws_end(s, i + 1);
    }
}

pub proof fn lemma_ws_end_stop(s: Seq<char>, i: int)
    requires
        0 <= i <= s.len(),
        ws_end(s, i) < s.len(),
    ensures
        !is_ws(s[ws_end(s, i)]),
    decreases s.len() - i,
{
    if i < s.len() && is_ws(s[i]) {
        lemma_ws_end_stop(s, i + 1);
    }
}

pub fn ws_end_exec(s: &[char], i: usize) -> (r: usize)
    requires
        i <= s@.len(),
    ensures
        r == ws_end(s@, i as int),
        i <= r <= s@.len(),
{
    let n = s.len();
    let mut k = i;
    while k < n && char_is_whitespace(s[k])
        invariant
            i <= k <= n == s@.len(),
            ws_end(s@, i as int) == ws_end(s@, k as int),
        decreases n - k,
    {
        k = k + 1;
    }
    k
}

/// A Unicode word character: a letter or digit, or `_`.
pub open spec fn is_word(c: char) -> bool {
    unicode_alnum(c) || c == '_'
}

/// The end of the run of word characters that starts at `i`.
pub open spec fn word_end(s: Seq<char>, i: int) -> int
    decreases s.len() - i,
{
    if 0 <= i < s.len() && is_word(s[i]) {
        word_end(s, i + 1)
    } else {
        i
    }
}

pub fn word_end_exec(s: &[char], i: usize) -> (r: usize)
    requires
        i <= s@.len(),
    ensures
        r == word_end(s@, i as int),
        i <= r <= s@.len(),
{
    let n = s.len();
    let mut k = i;
    while k < n && (char_is_alphanumeric(s[k]) || s[k] == '_')
        invariant
            i <= k <= n == s@.len(),
            word_end(s@, i as int) == word_end(s@, k as int),
        decreases n - k,
    {
        k = k + 1;
    }
    k
}

// ---------------------------------------------------------------------------
// Keywords regardless of case
// ---------------------------------------------------------------------------

/// The code of the capital of a lowercase Latin or Russian letter.
pub open spec fn upper_code(k: char) -> u32 {
    if ('a' <= k && k <= 'z') || ('а' <= k && k <= 'я') {
        ((k as u32) - 0x20) as u32
    } else if k == 'ё' {
        0x401
    } else {
        k as u32
    }
}

/// The characters that fold to the lowercase letter `k` besides its capital.
pub open spec fn folds_to(c: char, k: char) -> bool {
    ||| (k == 'в' && c == '\u{1C80}')
    ||| (k == 'д' && c == '\u{1C81}')
    ||| (k == 'о' && c == '\u{1C82}')
    ||| (k == 'с' && c == '\u{1C83}')
    ||| (k == 'т' && (c == '\u{1C84}' || c == '\u{1C85}'))
    ||| (k == 'ъ' && c == '\u{1C86}')
    ||| (k == 'k' && c == '\u{212A}')
    ||| (k == 's' && c == '\u{17F}')
}

/// Whether `c` equals the lowercase letter `k` regardless of case.
pub open spec fn ci_eq(c: char, k: char) -> bool {
    c == k || (c as u32) == upper_code(k) || folds_to(c, k)
}

pub fn ci_eq_exec(c: char, k: char) -> (r: bool)
    ensures
        r == ci_eq(c, k),
{
    let kc = k as u32;
    let up: u32 = if ('a' <= k && k <= 'z') || ('а' <= k && k <= 'я') {
        kc - 0x20
    } else if k == 'ё' {
        0x401
    } else {
        kc
    };
    c == k || (c as u32) == up || (k == 'в' && c == '\u{1C80}') || (k == 'д' && c == '\u{1C81}')
        || (k == 'о' && c == '\u{1C82}') || (k == 'с' && c == '\u{1C83}') || (k == 'т' && (c
        == '\u{1C84}' || c == '\u{1C85}')) || (k == 'ъ' && c == '\u{1C86}') || (k == 'k' && c
        == '\u{212A}') || (k == 's' && c == '\u{17F}')
}

/// Whether the lowercase word `kw` stands at `p`, regardless of case.
pub open spec fn ci_match(s: Seq<char>, p: int, kw: Seq<char>) -> bool {
    0 <= p && p + kw.len() <= s.len() && forall|i: int|
        0 <= i < kw.len() ==> #[trigger] ci_eq(s[p + i], kw[i])
}

pub fn ci_match_exec(s: &[char], p: usize, kw: &str) -> (r: bool)
    ensures
        r == ci_match(s@, p as int, kw@),
{
    let k = crate::text::chars_of(kw);
    let n = s.len();
    let m = k.len();
    if p > n || m > n - p {
        return false;
    }
    let mut i: usize = 0;
    while i < m
        invariant
            m == k@.len(),
            k@ == kw@,
            n == s@.len(),
            p + m <= n,
            i <= m,
            forall|j: int| 0 <= j < i ==> #[trigger] ci_eq(s@[p + j], k@[j]),
        decreases m - i,
    {
        if !ci_eq_exec(s[p + i], k[i]) {
            return false;
        }
        i = i + 1;
    }
    true
}

// ---------------------------------------------------------------------------
// Byte offsets
// ---------------------------------------------------------------------------

/// The number of bytes of a character in UTF-8.
pub open spec fn utf8_width(c: char) -> nat {
    if (c as u32) < 0x80 {
        1
    } else if (c as u32) < 0x800 {
        2
    } else if (c as u32) < 0x10000 {
        3
    } else {
        4
    }
}

/// The number of bytes of a text in UTF-8.
pub open spec fn byte_len(s: Seq<char>) -> nat
    decreases s.len(),
{
    if s.len() == 0 {
        0
    } else {
        byte_len(s.drop_last()) + utf8_width(s.last())
    }
}

pub proof fn lemma_byte_len_add(a: Seq<char>, b: Seq<char>)
    ensures
        byte_len(a + b) == byte_len(a) + byte_len(b),
    decreases b.len(),
{
    if b.len() > 0 {
        assert((a + b).drop_last() =~= a + b.drop_last());
        lemma_byte_len_add(a, b.drop_last());
    } else {
        assert(a + b =~= a);
    }
}

pub proof fn lemma_byte_len_encode(s: Seq<char>)
    ensures
        byte_len(s) == encode_utf8(s).len(),
    decreases s.len(),
{
    if s.len() > 0 {
        lemma_byte_len_encode(s.drop_first());
        assert(s =~= seq![s[0]] + s.drop_first());
        lemma_byte_len_add(seq![s[0]], s.drop_first());
        assert(seq![s[0]].drop_last() =~= Seq::<char>::empty());
        assert(seq![s[0]].last() == s[0]);
        assert(byte_len(Seq::<char>::empty()) == 0);
        assert(byte_len(seq![s[0]]) == utf8_width(s[0]));
        char_is_scalar(s[0]);
        let u = s[0] as u32;
        assert(encode_scalar(u).len() == utf8_width(s[0]));
        assert(encode_utf8(s) == encode_scalar(u) + encode_utf8(s.drop_first()));
    }
}

pub proof fn lemma_byte_len_take(s: Seq<char>, i: int)
    requires
        0 <= i < s.len(),
    ensures
        byte_len(s.take(i + 1)) == byte_len(s.take(i)) + utf8_width(s[i]),
        byte_len(s.take(i)) <= byte_len(s),
{
    assert(s.take(i + 1).drop_last() =~= s.take(i));
    assert(s =~= s.take(i) + s.skip(i));
    lemma_byte_len_add(s.take(i), s.skip(i));
}

/// The byte length of a string, with the fact that it equals `byte_len` of its
/// characters.
pub fn str_byte_len(s: &str) -> (r: usize)
    ensures
        r == byte_len(s@),
{
    proof {
        lemma_byte_len_encode(s@);
    }
    let b = s.as_bytes();
    b.len()
}

pub fn char_width(c: char) -> (r: usize)
    ensures
        r == utf8_width(c),
{
    let u = c as u32;
    if u < 0x80 {
        1
    } else if u < 0x800 {
        2
    } else if u < 0x10000 {
        3
    } else {
        4
    }
}

/// Whether the text `lit` stands at `p`, exactly.
pub open spec fn lit_match(s: Seq<char>, p: int, lit: Seq<char>) -> bool {
    0 <= p && p + lit.len() <= s.len() && s.subrange(p, p + lit.len()) == lit
}

pub fn lit_match_exec(s: &[char], p: usize, lit: &str) -> (r: bool)
    ensures
        r == lit_match(s@, p as int, lit@),
{
    let k = crate::text::chars_of(lit);
    let n = s.len();
    let m = k.len();
    if p > n || m > n - p {
        return false;
    }
    let mut i: usize = 0;
    while i < m
        invariant
            m == k@.len(),
            k@ == lit@,
            n == s@.len(),
            p + m <= n,
            i <= m,
            forall|j: int| 0 <= j < i ==> s@[p + j] == k@[j],
        decreases m - i,
    {
        if s[p + i] != k[i] {
            assert(s@.subrange(p as int, p + m)[i as int] != lit@[i as int]);
            return false;
        }
        i = i + 1;
    }
    assert(s@.subrange(p as int, p + m) =~= lit@);
    true
}

/// The length of the keyword `Новый` or `New` at `q`, regardless of case;
/// 0 when neither stands there.
pub open spec fn new_kw_len(s: Seq<char>, q: int) -> int {
    if ci_match(s, q, "новый"@) {
        5
    } else if ci_match(s, q, "new"@) {
        3
    } else {
        0
    }
}

pub fn new_kw_len_exec(s: &[char], q: usize) -> (r: usize)
    ensures
        r == new_kw_len(s@, q as int),
{
    if ci_match_exec(s, q, "новый") {
        5
    } else if ci_match_exec(s, q, "new") {
        3
    } else {
        0
    }
}

/// The offsets in bytes of every character position of a text.
pub fn byte_offsets(v: &[char]) -> (r: Vec<usize>)
    requires
        byte_len(v@) <= usize::MAX,
    ensures
        r@.len() == v@.len() + 1,
        forall|i: int| 0 <= i <= v@.len() ==> #[trigger] r@[i] == byte_len(v@.take(i)),
{
    let n = v.len();
    let mut r: Vec<usize> = Vec::new();
    let mut acc: usize = 0;
    r.push(0);
    assert(v@.take(0) =~= Seq::<char>::empty());
    let mut i: usize = 0;
    while i < n
        invariant
            n == v@.len(),
            byte_len(v@) <= usize::MAX,
            i <= n,
            r@.len() == i + 1,
            acc == byte_len(v@.take(i as int)),
            forall|k: int| 0 <= k <= i ==> #[trigger] r@[k] == byte_len(v@.take(k)),
        decreases n - i,
    {
        proof {
            lemma_byte_len_take(v@, i as int);
            if i + 1 < n {
                lemma_byte_len_take(v@, i + 1);
            } else {
                assert(v@.take(i + 1) =~= v@);
            }
        }
        acc = acc + char_width(v[i]);
        r.push(acc);
        i = i + 1;
    }
    r
}

} // verus!
