//! The text format of the table of contents.
//!
//! ```text
//! {
//!   N                       // number of root records
//!   {                       // record
//!     id parentId childCount childId1 childId2 ...
//!     {                     // properties
//!       n1 n2
//!       {                   // names
//!         n1 n2
//!         {"langCode" "name"}
//!         {"langCode" "name"}
//!       }
//!       "htmlPath"
//!     }
//!   }
//!   ...
//! }
//! ```
//!
//! Tokens are `{`, `}`, bare words (numbers) and quoted strings, in which `""`
//! stands for one quote. Commas and the byte order mark are ignored.
use vstd::prelude::*;
use std::collections::HashMap;

use crate::seqs::{lemma_deep_view_push, lemma_take_full, strings_view};
use crate::hbk_models::{
    page_model, pages_model, Chunk, ChunkModel, DoubleLanguageString, HbkError, Page, PageModel, Toc, NameContainer, NameContainerModel, NameObject, NameObjectModel,
    PropertiesContainer, PropertiesModel,
};
use crate::text::{
    ascii_lowercase_seq, to_ascii_lowercase, char_is_whitespace, chars_of, copy_range, is_ascii_digit, is_ws, push_str_chars, str_eq,
    string_from_chars, trim, trim_vec, usize_to_string,
};

verus! {

pub open spec fn bom() -> char {
    '\u{FEFF}'
}

/// Adds the pending word (trimmed) to the tokens, when there is one.
pub open spec fn flush(tokens: Seq<Seq<char>>, current: Seq<char>) -> Seq<Seq<char>> {
    if current.len() > 0 {
        tokens.push(trim(current))
    } else {
        tokens
    }
}

/// The scanner from position `i`, with the tokens so far, the pending
/// characters and whether a quoted string is open; it returns the tokens and
/// the characters still pending at the end.
pub open spec fn scan(
    c: Seq<char>,
    i: int,
    tokens: Seq<Seq<char>>,
    current: Seq<char>,
    in_string: bool,
) -> (Seq<Seq<char>>, Seq<char>)
    decreases c.len() - i,
{
    if i < 0 || i >= c.len() {
        (tokens, current)
    } else {
        let ch = c[i];
        if ch == bom() {
            scan(c, i + 1, tokens, current, in_string)
        } else if ch == '"' {
            if in_string {
                if i + 1 < c.len() && c[i + 1] == '"' {
                    scan(c, i + 2, tokens, current.push('"'), true)
                } else {
                    scan(c, i + 1, tokens.push(current.push('"')), Seq::empty(), false)
                }
            } else {
                scan(c, i + 1, flush(tokens, current), seq!['"'], true)
            }
        } else if in_string {
            scan(c, i + 1, tokens, current.push(ch), true)
        } else if is_ws(ch) {
            scan(c, i + 1, flush(tokens, current), Seq::empty(), false)
        } else if ch == '{' || ch == '}' || ch == ',' {
            scan(c, i + 1, flush(tokens, current).push(seq![ch]), Seq::empty(), false)
        } else {
            scan(c, i + 1, tokens, current.push(ch), false)
        }
    }
}

pub open spec fn kept_token(t: Seq<char>) -> bool {
    t.len() > 0 && t != seq![',']
}

/// Tokens without the empty ones and the commas.
pub open spec fn drop_separators(ts: Seq<Seq<char>>) -> Seq<Seq<char>>
    decreases ts.len(),
{
    if ts.len() == 0 {
        ts
    } else {
        drop_separators(ts.drop_last()) + if kept_token(ts.last()) {
            seq![ts.last()]
        } else {
            Seq::empty()
        }
    }
}

/// The tokens of a table-of-contents text.
pub open spec fn tokens_of(content: Seq<char>) -> Seq<Seq<char>> {
    let (ts, rest) = scan(content, 0, Seq::empty(), Seq::empty(), false);
    drop_separators(flush(ts, rest))
}

/// The model of a vector of character vectors.
pub open spec fn vv(v: Seq<Vec<char>>) -> Seq<Seq<char>> {
    v.map_values(|x: Vec<char>| x@)
}

fn flush_exec(tokens: &mut Vec<Vec<char>>, current: &Vec<char>)
    ensures
        vv(final(tokens)@) == flush(vv(old(tokens)@), current@),
{
    if current.len() > 0 {
        let t = trim_vec(current.as_slice());
        let ghost prev = *tokens;
        tokens.push(t);
        proof {
            assert(vv(tokens@) =~= vv(prev@).push(t@));
        }
    }
}

/// Splits a table-of-contents text into tokens.
pub fn tokenize(content: &str) -> (r: Vec<String>)
    ensures
        strings_view(r@) == tokens_of(content@),
{
    let chars = crate::text::chars_of(content);
    let n = chars.len();
    let mut tokens: Vec<Vec<char>> = Vec::new();
    let mut current: Vec<char> = Vec::new();
    let mut in_string = false;
    let mut i: usize = 0;
    assert(vv(tokens@) =~= Seq::<Seq<char>>::empty());
    assert(current@ =~= Seq::<char>::empty());
    while i < n
        invariant
            n == chars@.len(),
            chars@ == content@,
            i <= n,
            scan(chars@, 0, Seq::empty(), Seq::empty(), false) == scan(
                chars@,
                i as int,
                vv(tokens@),
                current@,
                in_string,
            ),
        decreases n - i,
    {
        let ch = chars[i];
        if ch == '\u{FEFF}' {
            i = i + 1;
            continue;
        }
        if ch == '"' {
            if in_string {
                if i + 1 < n && chars[i + 1] == '"' {
                    current.push('"');
                    i = i + 1;
                } else {
                    current.push(ch);
                    let t = current;
                    current = Vec::new();
                    let ghost prev = tokens;
                    tokens.push(t);
                    proof {
                        assert(vv(tokens@) =~= vv(prev@).push(t@));
                        assert(current@ =~= Seq::<char>::empty());
                    }
                    in_string = false;
                }
            } else {
                flush_exec(&mut tokens, &current);
                current = Vec::new();
                current.push(ch);
                assert(current@ =~= seq!['"']);
                in_string = true;
            }
        } else if in_string {
            current.push(ch);
        } else if char_is_whitespace(ch) {
            flush_exec(&mut tokens, &current);
            current = Vec::new();
            assert(current@ =~= Seq::<char>::empty());
        } else if ch == '{' || ch == '}' || ch == ',' {
            flush_exec(&mut tokens, &current);
            current = Vec::new();
            let mut t: Vec<char> = Vec::new();
            t.push(ch);
            let ghost prev = tokens;
            tokens.push(t);
            proof {
                assert(t@ =~= seq![ch]);
                assert(vv(tokens@) =~= vv(prev@).push(t@));
                assert(current@ =~= Seq::<char>::empty());
            }
        } else {
            current.push(ch);
        }
        i = i + 1;
    }
    flush_exec(&mut tokens, &current);
    // Drop empty tokens and commas.
    let ghost all = vv(tokens@);
    let mut out: Vec<String> = Vec::new();
    let mut k: usize = 0;
    while k < tokens.len()
        invariant
            k <= tokens@.len(),
            all == vv(tokens@),
            strings_view(out@) == drop_separators(all.take(k as int)),
        decreases tokens.len() - k,
    {
        let t = &tokens[k];
        let keep = t.len() > 0 && !(t.len() == 1 && t[0] == ',');
        proof {
            let s = all.take(k + 1);
            assert(s.drop_last() =~= all.take(k as int));
            assert(s.last() == t@);
            if t@.len() == 1 && t@[0] == ',' {
                assert(t@ =~= seq![',']);
            }
        }
        if keep {
            let st = string_from_chars(t);
            let ghost prev = out@;
            out.push(st);
            proof {
                assert(strings_view(out@) =~= strings_view(prev).push(st@));
            }
        } else {
            proof {
                assert(strings_view(out@) =~= drop_separators(all.take(k + 1)));
            }
        }
        k = k + 1;
    }
    proof {
        lemma_take_full(all);
    }
    out
}

// ---------------------------------------------------------------------------
// Numbers
// ---------------------------------------------------------------------------

pub open spec fn digit_val(c: char) -> int {
    (c as int) - ('0' as int)
}

pub open spec fn all_digits(s: Seq<char>) -> bool {
    forall|i: int| 0 <= i < s.len() ==> is_ascii_digit(#[trigger] s[i])
}

pub open spec fn dec_value(s: Seq<char>) -> int
    decreases s.len(),
{
    if s.len() == 0 {
        0
    } else {
        dec_value(s.drop_last()) * 10 + digit_val(s.last())
    }
}

/// `str::parse::<i32>`: an optional sign, then at least one ASCII digit, and
/// a value within the range of `i32`.
pub open spec fn parse_i32_spec(t: Seq<char>) -> Option<i32> {
    let neg = t.len() > 0 && t[0] == '-';
    let signed = t.len() > 0 && (t[0] == '-' || t[0] == '+');
    let digits = if signed {
        t.drop_first()
    } else {
        t
    };
    if digits.len() == 0 || !all_digits(digits) {
        None
    } else {
        let v = if neg {
            -dec_value(digits)
        } else {
            dec_value(digits)
        };
        if i32::MIN <= v && v <= i32::MAX {
            Some(v as i32)
        } else {
            None
        }
    }
}

proof fn lemma_dec_value_nonneg(s: Seq<char>)
    requires
        all_digits(s),
    ensures
        dec_value(s) >= 0,
    decreases s.len(),
{
    if s.len() > 0 {
        assert(all_digits(s.drop_last())) by {
            assert forall|i: int| 0 <= i < s.drop_last().len() implies is_ascii_digit(
                #[trigger] s.drop_last()[i],
            ) by {
                assert(s.drop_last()[i] == s[i]);
            }
        }
        lemma_dec_value_nonneg(s.drop_last());
        assert(is_ascii_digit(s[s.len() - 1]));
    }
}

proof fn lemma_dec_value_grows(s: Seq<char>, k: int)
    requires
        all_digits(s),
        0 <= k <= s.len(),
    ensures
        dec_value(s.take(k)) <= dec_value(s),
    decreases s.len() - k,
{
    if k < s.len() {
        let t = s.take(k + 1);
        assert(t.drop_last() =~= s.take(k));
        assert(all_digits(t)) by {
            assert forall|i: int| 0 <= i < t.len() implies is_ascii_digit(#[trigger] t[i]) by {
                assert(t[i] == s[i]);
            }
        }
        assert(all_digits(s.take(k))) by {
            assert forall|i: int| 0 <= i < s.take(k).len() implies is_ascii_digit(
                #[trigger] s.take(k)[i],
            ) by {
                assert(s.take(k)[i] == s[i]);
            }
        }
        lemma_dec_value_nonneg(s.take(k));
        assert(is_ascii_digit(s[k]));
        lemma_dec_value_grows(s, k + 1);
    } else {
        assert(s.take(k) =~= s);
    }
}

/// Parses a decimal `i32` as `str::parse` does.
pub fn parse_i32(t: &[char]) -> (r: Option<i32>)
    ensures
        r == parse_i32_spec(t@),
{
    let n = t.len();
    let neg = n > 0 && t[0] == '-';
    let signed = n > 0 && (t[0] == '-' || t[0] == '+');
    let start: usize = if signed {
        1
    } else {
        0
    };
    let ghost digits = if signed {
        t@.drop_first()
    } else {
        t@
    };
    assert(digits =~= t@.subrange(start as int, n as int));
    if start >= n {
        return None;
    }
    let mut acc: u64 = 0;
    let mut i = start;
    while i < n
        invariant
            start <= i <= n,
            n == t@.len(),
            digits == t@.subrange(start as int, n as int),
            signed == (t@.len() > 0 && (t@[0] == '-' || t@[0] == '+')),
            neg == (t@.len() > 0 && t@[0] == '-'),
            digits == (if signed {
                t@.drop_first()
            } else {
                t@
            }),
            all_digits(digits.take(i - start)),
            acc == dec_value(digits.take(i - start)),
            acc <= 0x8000_0000,
        decreases n - i,
    {
        let c = t[i];
        if !('0' <= c && c <= '9') {
            assert(digits[i - start] == c);
            assert(!is_ascii_digit(digits[i - start]));
            assert(!all_digits(digits));
            assert(parse_i32_spec(t@) is None);
            return None;
        }
        let d = (c as u64) - ('0' as u64);
        proof {
            let p = digits.take(i - start + 1);
            assert(p.drop_last() =~= digits.take(i - start));
            assert(p.last() == c);
            assert(all_digits(p)) by {
                assert forall|k: int| 0 <= k < p.len() implies is_ascii_digit(#[trigger] p[k]) by {
                    if k < p.len() - 1 {
                        assert(p[k] == digits.take(i - start)[k]);
                    }
                }
            }
        }
        acc = acc * 10 + d;
        proof {
            let p = digits.take(i - start + 1);
            assert(acc == dec_value(p));
        }
        i = i + 1;
        if acc > 0x8000_0000 {
            proof {
                if all_digits(digits) {
                    lemma_dec_value_grows(digits, i - start);
                    assert(dec_value(digits) > 0x8000_0000);
                }
            }
            return None;
        }
    }
    proof {
        assert(digits.take(n - start) =~= digits);
    }
    if neg {
        if acc <= 0x8000_0000 {
            let v: i64 = -(acc as i64);
            Some(v as i32)
        } else {
            None
        }
    } else {
        if acc <= 0x7fff_ffff {
            Some(acc as i32)
        } else {
            None
        }
    }
}

// ---------------------------------------------------------------------------
// Token stream
// ---------------------------------------------------------------------------

pub open spec fn expect_ok(ts: Seq<Seq<char>>, p: int, e: Seq<char>) -> bool {
    0 <= p < ts.len() && ts[p] == e
}

pub open spec fn number_at(ts: Seq<Seq<char>>, p: int) -> Option<i32> {
    if 0 <= p < ts.len() {
        parse_i32_spec(ts[p])
    } else {
        None
    }
}

/// A token quoted at both ends: a lone quote, the tail of a string left open
/// at the end of the text, is not one.
pub open spec fn quoted(t: Seq<char>) -> bool {
    t.len() >= 2 && t[0] == '"' && t.last() == '"'
}

pub open spec fn string_at(ts: Seq<Seq<char>>, p: int) -> Option<Seq<char>> {
    if 0 <= p < ts.len() && quoted(ts[p]) {
        Some(ts[p].subrange(1, ts[p].len() - 1))
    } else {
        None
    }
}

/// Position after reading one token at `p` (nothing is read past the end).
pub open spec fn after(ts: Seq<Seq<char>>, p: int) -> int {
    if p < ts.len() {
        p + 1
    } else {
        p
    }
}

struct TokenStream {
    tokens: Vec<String>,
    pos: usize,
}

impl TokenStream {
    spec fn tv(&self) -> Seq<Seq<char>> {
        strings_view(self.tokens@)
    }

    fn new(tokens: Vec<String>) -> (r: Self)
        ensures
            r.tv() == strings_view(tokens@),
            r.pos == 0,
    {
        TokenStream { tokens, pos: 0 }
    }

    fn peek(&self) -> (r: Option<&str>)
        ensures
            match r {
                Some(t) => self.pos < self.tv().len() && t@ == self.tv()[self.pos as int],
                None => self.pos >= self.tv().len(),
            },
    {
        if self.pos < self.tokens.len() {
            Some(self.tokens[self.pos].as_str())
        } else {
            None
        }
    }

    fn next(&mut self) -> (r: Option<String>)
        ensures
            final(self).tv() == old(self).tv(),
            final(self).pos == after(old(self).tv(), old(self).pos as int),
            match r {
                Some(t) => old(self).pos < old(self).tv().len() && t@ == old(self).tv()[old(
                    self,
                ).pos as int],
                None => old(self).pos >= old(self).tv().len(),
            },
    {
        if self.pos < self.tokens.len() {
            let t = self.tokens[self.pos].clone();
            self.pos = self.pos + 1;
            Some(t)
        } else {
            None
        }
    }

    fn expect(&mut self, expected: &str, ctx: &str) -> (r: Result<(), HbkError>)
        ensures
            final(self).tv() == old(self).tv(),
            final(self).pos == after(old(self).tv(), old(self).pos as int),
            r is Ok <==> expect_ok(old(self).tv(), old(self).pos as int, expected@),
            r matches Err(e) ==> e is TocParse,
    {
        match self.next() {
            None => Err(HbkError::TocParse(end_of_data(ctx))),
            Some(got) => {
                if str_eq(got.as_str(), expected) {
                    Ok(())
                } else {
                    let mut buf: Vec<char> = Vec::new();
                    push_str_chars(&mut buf, ctx);
                    push_str_chars(&mut buf, ": ожидался '");
                    push_str_chars(&mut buf, expected);
                    push_str_chars(&mut buf, "', получен '");
                    push_str_chars(&mut buf, got.as_str());
                    push_str_chars(&mut buf, "'");
                    Err(HbkError::TocParse(string_from_chars(&buf)))
                }
            },
        }
    }

    fn parse_number(&mut self, ctx: &str) -> (r: Result<i32, HbkError>)
        ensures
            final(self).tv() == old(self).tv(),
            final(self).pos == after(old(self).tv(), old(self).pos as int),
            match r {
                Ok(v) => number_at(old(self).tv(), old(self).pos as int) == Some(v),
                Err(e) => number_at(old(self).tv(), old(self).pos as int) is None && e is TocParse,
            },
    {
        match self.next() {
            None => Err(HbkError::TocParse(end_of_data(ctx))),
            Some(got) => {
                let cs = chars_of(got.as_str());
                match parse_i32(cs.as_slice()) {
                    Some(v) => Ok(v),
                    None => {
                        let mut buf: Vec<char> = Vec::new();
                        push_str_chars(&mut buf, ctx);
                        push_str_chars(&mut buf, ": ожидалось число, получено '");
                        push_str_chars(&mut buf, got.as_str());
                        push_str_chars(&mut buf, "'");
                        Err(HbkError::TocParse(string_from_chars(&buf)))
                    },
                }
            },
        }
    }

    fn parse_string(&mut self, ctx: &str) -> (r: Result<String, HbkError>)
        ensures
            final(self).tv() == old(self).tv(),
            final(self).pos == after(old(self).tv(), old(self).pos as int),
            match r {
                Ok(v) => string_at(old(self).tv(), old(self).pos as int) == Some(v@),
                Err(e) => string_at(old(self).tv(), old(self).pos as int) is None && e is TocParse,
            },
    {
        let ghost p = self.pos as int;
        match self.next() {
            None => Err(HbkError::TocParse(end_of_data(ctx))),
            Some(got) => {
                let cs = chars_of(got.as_str());
                let n = cs.len();
                if !(n >= 2 && cs[0] == '"' && cs[n - 1] == '"') {
                    let mut buf: Vec<char> = Vec::new();
                    push_str_chars(&mut buf, ctx);
                    push_str_chars(&mut buf, ": ожидалась строка в кавычках, получено '");
                    push_str_chars(&mut buf, got.as_str());
                    push_str_chars(&mut buf, "'");
                    return Err(HbkError::TocParse(string_from_chars(&buf)));
                }
                proof {
                    assert(self.tv()[p] == got@);
                }
                let inner = copy_range(cs.as_slice(), 1, n - 1);
                Ok(string_from_chars(&inner))
            },
        }
    }
}

fn end_of_data(ctx: &str) -> (r: String)
    ensures
        r@ == ctx@ + ": не найден токен (конец данных)"@,
{
    let mut buf: Vec<char> = Vec::new();
    push_str_chars(&mut buf, ctx);
    push_str_chars(&mut buf, ": не найден токен (конец данных)");
    string_from_chars(&buf)
}

// ---------------------------------------------------------------------------
// Records
// ---------------------------------------------------------------------------

pub open spec fn name_object_at(ts: Seq<Seq<char>>, p: int) -> Option<(NameObjectModel, int)> {
    if !expect_ok(ts, p, "{"@) {
        None
    } else {
        match string_at(ts, p + 1) {
            None => None,
            Some(code) => match string_at(ts, p + 2) {
                None => None,
                Some(name) => if expect_ok(ts, p + 3, "}"@) {
                    Some((NameObjectModel { language_code: code, name }, p + 4))
                } else {
                    None
                },
            },
        }
    }
}

/// Whether another name object follows at `p` (a token other than `}`).
pub open spec fn more_names(ts: Seq<Seq<char>>, p: int) -> bool {
    0 <= p < ts.len() && ts[p] != "}"@
}

/// Up to two name objects from `p`: the names and the position after them.
pub open spec fn names_at(ts: Seq<Seq<char>>, p: int) -> Option<(Seq<NameObjectModel>, int)> {
    if !more_names(ts, p) {
        Some((Seq::empty(), p))
    } else {
        match name_object_at(ts, p) {
            None => None,
            Some((o1, q1)) => if !more_names(ts, q1) {
                Some((seq![o1], q1))
            } else {
                match name_object_at(ts, q1) {
                    None => None,
                    Some((o2, q2)) => Some((seq![o1, o2], q2)),
                }
            },
        }
    }
}

pub open spec fn name_container_at(ts: Seq<Seq<char>>, p: int) -> Option<(NameContainerModel, int)> {
    if !expect_ok(ts, p, "{"@) {
        None
    } else {
        match number_at(ts, p + 1) {
            None => None,
            Some(n1) => match number_at(ts, p + 2) {
                None => None,
                Some(n2) => match names_at(ts, p + 3) {
                    None => None,
                    Some((objs, q)) => if expect_ok(ts, q, "}"@) {
                        Some((NameContainerModel { number1: n1, number2: n2, name_objects: objs }, q + 1))
                    } else {
                        None
                    },
                },
            },
        }
    }
}

pub open spec fn properties_at(ts: Seq<Seq<char>>, p: int) -> Option<(PropertiesModel, int)> {
    if !expect_ok(ts, p, "{"@) {
        None
    } else {
        match number_at(ts, p + 1) {
            None => None,
            Some(n1) => match number_at(ts, p + 2) {
                None => None,
                Some(n2) => match name_container_at(ts, p + 3) {
                    None => None,
                    Some((nc, q)) => match string_at(ts, q) {
                        None => None,
                        Some(html) => if expect_ok(ts, q + 1, "}"@) {
                            Some((PropertiesModel { number1: n1, number2: n2, name_container: nc, html_path: html }, q + 2))
                        } else {
                            None
                        },
                    },
                },
            },
        }
    }
}

/// `n` numbers from `p` on.
pub open spec fn numbers_at(ts: Seq<Seq<char>>, p: int, n: int) -> Option<Seq<i32>>
    decreases n,
{
    if n <= 0 {
        Some(Seq::empty())
    } else {
        match numbers_at(ts, p, n - 1) {
            None => None,
            Some(s) => match number_at(ts, p + n - 1) {
                None => None,
                Some(v) => Some(s.push(v)),
            },
        }
    }
}

pub open spec fn chunk_at(ts: Seq<Seq<char>>, p: int) -> Option<(ChunkModel, int)> {
    if !expect_ok(ts, p, "{"@) {
        None
    } else {
        match number_at(ts, p + 1) {
            None => None,
            Some(id) => match number_at(ts, p + 2) {
                None => None,
                Some(parent) => match number_at(ts, p + 3) {
                    None => None,
                    Some(count) => {
                        let k = if count > 0 {
                            count as int
                        } else {
                            0
                        };
                        match numbers_at(ts, p + 4, k) {
                            None => None,
                            Some(ids) => match properties_at(ts, p + 4 + k) {
                                None => None,
                                Some((pr, q)) => if expect_ok(ts, q, "}"@) {
                                    Some((ChunkModel { id, parent_id: parent, child_count: count, child_ids: ids, properties: pr }, q + 1))
                                } else {
                                    None
                                },
                            },
                        }
                    },
                },
            },
        }
    }
}

/// Records from `p` until a closing `}` or the end of the tokens.
pub open spec fn chunks_from(ts: Seq<Seq<char>>, p: int) -> Option<Seq<ChunkModel>>
    decreases ts.len() - p,
{
    if p < 0 || p >= ts.len() || ts[p] == "}"@ {
        Some(Seq::empty())
    } else {
        match chunk_at(ts, p) {
            None => None,
            Some((c, q)) => if q <= p {
                None
            } else {
                match chunks_from(ts, q) {
                    None => None,
                    Some(cs) => Some(seq![c] + cs),
                }
            },
        }
    }
}

/// The records of a table of contents: `{`, the root count, then the records.
pub open spec fn chunks_of(ts: Seq<Seq<char>>) -> Option<Seq<ChunkModel>> {
    if expect_ok(ts, 0, "{"@) && number_at(ts, 1) is Some {
        chunks_from(ts, 2)
    } else {
        None
    }
}

/// The position after a parsed record (0 when nothing was parsed).
pub open spec fn end_of<A>(r: Option<(A, int)>) -> int {
    match r {
        Some((_, q)) => q,
        None => 0,
    }
}

proof fn lemma_chunk_advances(ts: Seq<Seq<char>>, p: int)
    requires
        chunk_at(ts, p) is Some,
    ensures
        end_of(chunk_at(ts, p)) > p,
{
    let count = number_at(ts, p + 3)->0;
    let k = if count > 0 {
        count as int
    } else {
        0
    };
    let q = end_of(properties_at(ts, p + 4 + k));
    assert(q >= p + 4 + k);
}

fn parse_name_object(s: &mut TokenStream) -> (r: Result<NameObject, HbkError>)
    ensures
        final(s).tv() == old(s).tv(),
        match name_object_at(old(s).tv(), old(s).pos as int) {
            Some((m, q)) => r matches Ok(o) && o.deep_view() == m && final(s).pos == q,
            None => r matches Err(e) && e is TocParse,
        },
{
    s.expect("{", "NameObject: ожидался '{'")?;
    let language_code = s.parse_string("NameObject: ожидался languageCode")?;
    let name = s.parse_string("NameObject: ожидался name")?;
    s.expect("}", "NameObject: ожидался '}' в конце")?;
    Ok(NameObject { language_code, name })
}

fn peek_is_not_close(s: &TokenStream) -> (r: bool)
    ensures
        r == more_names(s.tv(), s.pos as int),
{
    match s.peek() {
        Some(t) => !str_eq(t, "}"),
        None => false,
    }
}

fn parse_name_container(s: &mut TokenStream) -> (r: Result<NameContainer, HbkError>)
    ensures
        final(s).tv() == old(s).tv(),
        match name_container_at(old(s).tv(), old(s).pos as int) {
            Some((m, q)) => r matches Ok(o) && o.deep_view() == m && final(s).pos == q,
            None => r matches Err(e) && e is TocParse,
        },
{
    s.expect("{", "NameContainer: ожидался '{'")?;
    let n1 = s.parse_number("NameContainer: ожидался number1")?;
    let n2 = s.parse_number("NameContainer: ожидался number2")?;
    let mut name_objects: Vec<NameObject> = Vec::new();
    if peek_is_not_close(s) {
        let o1 = parse_name_object(s)?;
        name_objects.push(o1);
        if peek_is_not_close(s) {
            let o2 = parse_name_object(s)?;
            name_objects.push(o2);
        }
    }
    s.expect("}", "NameContainer: ожидался '}' в конце")?;
    let r = NameContainer { number1: n1, number2: n2, name_objects };
    proof {
        let ts = old(s).tv();
        let p = old(s).pos as int;
        let (objs, _) = names_at(ts, p + 3)->0;
        assert(r.name_objects.deep_view() =~= objs);
    }
    Ok(r)
}

fn parse_properties_container(s: &mut TokenStream) -> (r: Result<PropertiesContainer, HbkError>)
    ensures
        final(s).tv() == old(s).tv(),
        match properties_at(old(s).tv(), old(s).pos as int) {
            Some((m, q)) => r matches Ok(o) && o.deep_view() == m && final(s).pos == q,
            None => r matches Err(e) && e is TocParse,
        },
{
    s.expect("{", "PropertiesContainer: ожидался '{'")?;
    let n1 = s.parse_number("PropertiesContainer: ожидался number1")?;
    let n2 = s.parse_number("PropertiesContainer: ожидался number2")?;
    let name_container = parse_name_container(s)?;
    let html_path = s.parse_string("PropertiesContainer: ожидался htmlPath")?;
    s.expect("}", "PropertiesContainer: ожидался '}' в конце")?;
    Ok(PropertiesContainer { number1: n1, number2: n2, name_container, html_path })
}

fn parse_chunk(s: &mut TokenStream) -> (r: Result<Chunk, HbkError>)
    ensures
        final(s).tv() == old(s).tv(),
        match chunk_at(old(s).tv(), old(s).pos as int) {
            Some((m, q)) => r matches Ok(o) && o.deep_view() == m && final(s).pos == q,
            None => r matches Err(e) && e is TocParse,
        },
{
    let ghost ts = s.tv();
    let ghost p = s.pos as int;
    s.expect("{", "Chunk: ожидался '{'")?;
    let id = s.parse_number("Chunk: ожидался id")?;
    let parent_id = s.parse_number("Chunk: ожидался parentId")?;
    let child_count = s.parse_number("Chunk: ожидался childCount")?;
    let mut child_ids: Vec<i32> = Vec::new();
    let mut i: i32 = 0;
    while i < child_count
        invariant
            0 <= i,
            i <= child_count || child_count < 0,
            child_count < 0 ==> i == 0,
            ts == old(s).tv(),
            p == old(s).pos,
            expect_ok(ts, p, "{"@),
            number_at(ts, p + 1) == Some(id),
            number_at(ts, p + 2) == Some(parent_id),
            number_at(ts, p + 3) == Some(child_count),
            s.tv() == ts,
            s.pos == p + 4 + i,
            numbers_at(ts, p + 4, i as int) == Some(child_ids@),
        decreases child_count - i,
    {
        let mut ctx: Vec<char> = Vec::new();
        push_str_chars(&mut ctx, "Chunk: ожидался childId #");
        let num = usize_to_string((i as usize) + 1);
        push_str_chars(&mut ctx, num.as_str());
        let ctx_s = string_from_chars(&ctx);
        let v = s.parse_number(ctx_s.as_str());
        match v {
            Ok(v) => {
                child_ids.push(v);
            },
            Err(e) => {
                proof {
                    assert(numbers_at(ts, p + 4, i + 1) is None);
                    lemma_numbers_fail(ts, p + 4, i + 1, if child_count > 0 { child_count as int } else { 0 });
                }
                return Err(e);
            },
        }
        i = i + 1;
    }
    let properties = parse_properties_container(s)?;
    s.expect("}", "Chunk: ожидался '}' в конце chunk")?;
    Ok(Chunk { id, parent_id, child_count, child_ids, properties })
}

proof fn lemma_numbers_fail(ts: Seq<Seq<char>>, p: int, i: int, n: int)
    requires
        0 <= i <= n,
        numbers_at(ts, p, i) is None,
    ensures
        numbers_at(ts, p, n) is None,
    decreases n - i,
{
    if i < n {
        lemma_numbers_fail(ts, p, i + 1, n);
    }
}

fn parse_chunks_tokens(s: &mut TokenStream) -> (r: Result<Vec<Chunk>, HbkError>)
    requires
        old(s).pos == 0,
    ensures
        match chunks_of(old(s).tv()) {
            Some(cs) => r matches Ok(v) && v.deep_view() == cs,
            None => r matches Err(e) && e is TocParse,
        },
{
    let ghost ts = s.tv();
    s.expect("{", "TableOfContent: ожидался '{'")?;
    let _root_count = s.parse_number("TableOfContent: ожидалось число chunkCount")?;
    let mut chunks: Vec<Chunk> = Vec::new();
    proof {
        assert(chunks.deep_view() + chunks_from(ts, 2)->0 =~= chunks_from(ts, 2)->0);
    }
    loop
        invariant
            s.tv() == ts,
            ts == old(s).tv(),
            2 <= s.pos <= ts.len(),
            chunks_of(ts) is Some ==> chunks_from(ts, s.pos as int) is Some && chunks_of(ts)->0
                == chunks.deep_view() + chunks_from(ts, s.pos as int)->0,
            chunks_of(ts) is None ==> chunks_from(ts, s.pos as int) is None,
            chunks_of(ts) == chunks_from(ts, 2),
        ensures
            chunks_of(ts) == Some(chunks.deep_view()),
        decreases ts.len() - s.pos,
    {
        let ghost p = s.pos as int;
        match s.peek() {
            None => {
                assert(chunks.deep_view() + Seq::<ChunkModel>::empty() =~= chunks.deep_view());
                break;
            },
            Some(t) => {
                if str_eq(t, "}") {
                    assert(chunks.deep_view() + Seq::<ChunkModel>::empty() =~= chunks.deep_view());
                    break;
                }
            },
        }
        let c = parse_chunk(s)?;
        proof {
            lemma_chunk_advances(ts, p);
        }
        let ghost prev = chunks;
        chunks.push(c);
        proof {
            lemma_deep_view_push(prev, chunks, c);
            let q = s.pos as int;
            if chunks_of(ts) is Some {
                crate::seqs::lemma_add_assoc(prev.deep_view(), seq![c.deep_view()], chunks_from(ts, q)->0);
            }
        }
    }
    Ok(chunks)
}

/// The records of a table-of-contents text.
pub fn parse_chunks(content: &str) -> (r: Result<Vec<Chunk>, HbkError>)
    ensures
        match chunks_of(tokens_of(content@)) {
            Some(cs) => r matches Ok(v) && v.deep_view() == cs,
            None => r matches Err(e) && e is TocParse,
        },
{
    let tokens = tokenize(content);
    let mut s = TokenStream::new(tokens);
    parse_chunks_tokens(&mut s)
}

// ---------------------------------------------------------------------------
// Titles
// ---------------------------------------------------------------------------

/// A text with every double quote taken out.
pub open spec fn unquoted(s: Seq<char>) -> Seq<char> {
    s.filter(|c: char| c != '"')
}

/// Removes every double quote from a text.
pub fn strip_quotes(s: &str) -> (r: String)
    ensures
        r@ == unquoted(s@),
{
    let v = chars_of(s);
    let mut out: Vec<char> = Vec::new();
    let n = v.len();
    let mut i: usize = 0;
    while i < n
        invariant
            n == v@.len(),
            v@ == s@,
            i <= n,
            out@ == unquoted(v@.take(i as int)),
        decreases n - i,
    {
        let c = v[i];
        proof {
            reveal(Seq::filter);
            assert(v@.take(i + 1).drop_last() =~= v@.take(i as int));
            assert(v@.take(i + 1).last() == c);
        }
        if c != '"' {
            out.push(c);
        }
        i = i + 1;
    }
    proof {
        lemma_take_full(v@);
    }
    string_from_chars(&out)
}

/// One name read into the pair (Russian, English): a name goes to the field
/// its language code names while that field is empty, else to the first
/// empty field.
pub open spec fn title_step(acc: (Seq<char>, Seq<char>), n: NameObjectModel) -> (Seq<char>, Seq<char>) {
    let name = unquoted(n.name);
    let lang = ascii_lowercase_seq(n.language_code);
    let (ru, en) = acc;
    if lang == "ru"@ && ru.len() == 0 {
        (name, en)
    } else if lang == "en"@ && en.len() == 0 {
        (ru, name)
    } else if ru.len() == 0 {
        (name, en)
    } else if en.len() == 0 {
        (ru, name)
    } else {
        (ru, en)
    }
}

/// The (Russian, English) title of a record's names.
pub open spec fn title_of(names: Seq<NameObjectModel>) -> (Seq<char>, Seq<char>)
    decreases names.len(),
{
    if names.len() == 0 {
        (Seq::empty(), Seq::empty())
    } else {
        title_step(title_of(names.drop_last()), names.last())
    }
}

/// The two-language title of a record.
pub fn chunk_title(chunk: &Chunk) -> (r: DoubleLanguageString)
    ensures
        (r.ru@, r.en@) == title_of(chunk.properties.name_container.name_objects.deep_view()),
{
    let names = &chunk.properties.name_container.name_objects;
    let ghost ns = names.deep_view();
    let mut ru = String::new();
    let mut en = String::new();
    let n = names.len();
    let mut i: usize = 0;
    while i < n
        invariant
            n == names@.len(),
            ns == names.deep_view(),
            i <= n,
            (ru@, en@) == title_of(ns.take(i as int)),
        decreases n - i,
    {
        let o = &names[i];
        proof {
            assert(ns.take(i + 1).drop_last() =~= ns.take(i as int));
            assert(ns.take(i + 1).last() == o.deep_view());
        }
        let name = strip_quotes(o.name.as_str());
        let lang = to_ascii_lowercase(o.language_code.as_str());
        if str_eq(lang.as_str(), "ru") && ru.as_str().is_empty() {
            ru = name;
        } else if str_eq(lang.as_str(), "en") && en.as_str().is_empty() {
            en = name;
        } else if ru.as_str().is_empty() {
            ru = name;
        } else if en.as_str().is_empty() {
            en = name;
        }
        i = i + 1;
    }
    proof {
        lemma_take_full(ns);
    }
    DoubleLanguageString::new(en, ru)
}

// ---------------------------------------------------------------------------
// The page tree
// ---------------------------------------------------------------------------

/// Record `k` gives a page: its id is not 0 (the reserved root) and no later
/// record has the same id (a later record with the same id replaces it).
pub open spec fn live(cs: Seq<ChunkModel>, k: int) -> bool {
    &&& 0 <= k < cs.len()
    &&& cs[k].id != 0
    &&& forall|j: int| k < j < cs.len() ==> #[trigger] cs[j].id != cs[k].id
}

/// Record `i` is the parent page of record `k`: a page that comes before `k`
/// and whose id is `k`'s parent id.
pub open spec fn parent_at(cs: Seq<ChunkModel>, k: int, i: int) -> bool {
    0 <= i < k && live(cs, i) && cs[i].id == cs[k].parent_id
}

/// Where the page of record `k` hangs: the index of its parent page, or -1
/// for the top level (no parent page comes before it).
pub open spec fn home(cs: Seq<ChunkModel>, k: int) -> int {
    if exists|i: int| parent_at(cs, k, i) {
        choose|i: int| parent_at(cs, k, i)
    } else {
        -1
    }
}

pub open spec fn empty_page() -> PageModel {
    PageModel {
        title_en: Seq::empty(),
        title_ru: Seq::empty(),
        html_path: Seq::empty(),
        children: Seq::empty(),
    }
}

/// The page of record `k` with its subtree.
pub open spec fn subtree(cs: Seq<ChunkModel>, k: int) -> PageModel
    decreases cs.len() - k, cs.len() - k,
{
    if 0 <= k < cs.len() {
        let (ru, en) = title_of(cs[k].properties.name_container.name_objects);
        PageModel {
            title_en: en,
            title_ru: ru,
            html_path: unquoted(cs[k].properties.html_path),
            children: kids(cs, k, k + 1),
        }
    } else {
        empty_page()
    }
}

/// The subtrees of the pages from record `j` on that hang under `k`
/// (-1: the top level), in record order.
pub open spec fn kids(cs: Seq<ChunkModel>, k: int, j: int) -> Seq<PageModel>
    decreases cs.len() - k, cs.len() - j,
{
    if j <= k || j >= cs.len() {
        Seq::empty()
    } else {
        let rest = kids(cs, k, j + 1);
        if live(cs, j) && home(cs, j) == k {
            seq![subtree(cs, j)] + rest
        } else {
            rest
        }
    }
}

/// The top-level pages of a table of contents made of the records `cs`.
pub open spec fn toc_model(cs: Seq<ChunkModel>) -> Seq<PageModel> {
    kids(cs, -1, 0)
}

/// `last` maps each id other than 0 to the index of its last record.
pub open spec fn last_index(cs: Seq<ChunkModel>, last: Map<i32, usize>) -> bool {
    &&& forall|x: i32| #[trigger]
        last.contains_key(x) ==> x != 0 && live(cs, last[x] as int) && cs[last[x] as int].id == x
    &&& forall|t: int| 0 <= t < cs.len() && cs[t].id != 0 ==> last.contains_key(#[trigger] cs[t].id)
}

proof fn lemma_live_unique(cs: Seq<ChunkModel>, i: int, j: int)
    requires
        live(cs, i),
        live(cs, j),
        cs[i].id == cs[j].id,
    ensures
        i == j,
{
    if i < j {
        assert(cs[j].id != cs[i].id);
    } else if j < i {
        assert(cs[i].id != cs[j].id);
    }
}

fn last_records(chunks: &Vec<Chunk>) -> (r: HashMap<i32, usize>)
    ensures
        last_index(chunks.deep_view(), r@),
{
    broadcast use vstd::std_specs::hash::group_hash_axioms;

    let ghost cs = chunks.deep_view();
    let n = chunks.len();
    let mut last: HashMap<i32, usize> = HashMap::new();
    let mut j: usize = 0;
    while j < n
        invariant
            n == cs.len(),
            cs == chunks.deep_view(),
            j <= n,
            forall|x: i32| #[trigger]
                last@.contains_key(x) ==> {
                    &&& x != 0
                    &&& last@[x] < j
                    &&& cs[last@[x] as int].id == x
                    &&& forall|t: int| last@[x] < t < j ==> #[trigger] cs[t].id != x
                },
            forall|t: int| 0 <= t < j && cs[t].id != 0 ==> last@.contains_key(#[trigger] cs[t].id),
        decreases n - j,
    {
        let id = chunks[j].id;
        if id != 0 {
            last.insert(id, j);
        }
        j = j + 1;
    }
    last
}

/// Whether record `m` gives a page.
fn is_live(chunks: &Vec<Chunk>, last: &HashMap<i32, usize>, m: usize) -> (r: bool)
    requires
        m < chunks.len(),
        last_index(chunks.deep_view(), last@),
    ensures
        r == live(chunks.deep_view(), m as int),
{
    broadcast use vstd::std_specs::hash::group_hash_axioms;

    let ghost cs = chunks.deep_view();
    let id = chunks[m].id;
    if id == 0 {
        return false;
    }
    match last.get(&id) {
        Some(i) => {
            proof {
                if live(cs, m as int) {
                    lemma_live_unique(cs, m as int, *i as int);
                }
            }
            *i == m
        },
        None => false,
    }
}

/// The index of the parent page of record `m`, `None` for the top level.
fn home_of(chunks: &Vec<Chunk>, last: &HashMap<i32, usize>, m: usize) -> (r: Option<usize>)
    requires
        m < chunks.len(),
        last_index(chunks.deep_view(), last@),
    ensures
        match r {
            Some(h) => home(chunks.deep_view(), m as int) == h as int && h < m,
            None => home(chunks.deep_view(), m as int) == -1,
        },
{
    broadcast use vstd::std_specs::hash::group_hash_axioms;

    let ghost cs = chunks.deep_view();
    let p = chunks[m].parent_id;
    match last.get(&p) {
        Some(i) => {
            let i = *i;
            if i < m {
                proof {
                    assert(parent_at(cs, m as int, i as int));
                    let c = choose|c: int| parent_at(cs, m as int, c);
                    lemma_live_unique(cs, c, i as int);
                }
                Some(i)
            } else {
                proof {
                    if exists|c: int| parent_at(cs, m as int, c) {
                        let c = choose|c: int| parent_at(cs, m as int, c);
                        lemma_live_unique(cs, c, i as int);
                    }
                }
                None
            }
        },
        None => {
            proof {
                if exists|c: int| parent_at(cs, m as int, c) {
                    let c = choose|c: int| parent_at(cs, m as int, c);
                    assert(last@.contains_key(cs[c].id));
                }
            }
            None
        },
    }
}

proof fn lemma_insert_front(ps: Seq<Page>, p: Page)
    ensures
        pages_model(ps.insert(0, p)) == seq![page_model(p)] + pages_model(ps),
{
    assert(pages_model(ps.insert(0, p)) =~= seq![page_model(p)] + pages_model(ps));
}

/// Builds the page tree of the records: each page goes under its parent page,
/// pages without one to the top level, children in record order.
pub fn build_tree(chunks: Vec<Chunk>) -> (r: Toc)
    ensures
        pages_model(r.pages@) == toc_model(chunks.deep_view()),
{
    let ghost cs = chunks.deep_view();
    let n = chunks.len();
    let last = last_records(&chunks);
    let mut acc: Vec<Vec<Page>> = Vec::new();
    let mut j: usize = 0;
    while j < n
        invariant
            j <= n,
            acc@.len() == j,
            forall|k: int| 0 <= k < j ==> (#[trigger] acc@[k])@.len() == 0,
        decreases n - j,
    {
        acc.push(Vec::new());
        j = j + 1;
    }
    proof {
        assert forall|k: int| 0 <= k < n implies pages_model(#[trigger] acc@[k]@) == kids(cs, k, n as int) by {
            assert(pages_model(acc@[k]@) =~= Seq::<PageModel>::empty());
        }
        assert(pages_model(Seq::<Page>::empty()) =~= kids(cs, -1, n as int));
    }
    let mut roots: Vec<Page> = Vec::new();
    let mut m: usize = n;
    while m > 0
        invariant
            n == chunks@.len(),
            cs == chunks.deep_view(),
            last_index(cs, last@),
            m <= n,
            acc@.len() == m,
            forall|k: int| 0 <= k < m ==> pages_model(#[trigger] acc@[k]@) == kids(cs, k, m as int),
            pages_model(roots@) == kids(cs, -1, m as int),
        decreases m,
    {
        m = m - 1;
        let ghost before = acc@;
        let ch = match acc.pop() {
            Some(v) => v,
            None => Vec::new(),
        };
        assert(pages_model(ch@) == kids(cs, m as int, m + 1));
        if is_live(&chunks, &last, m) {
            let title = chunk_title(&chunks[m]);
            let path = strip_quotes(chunks[m].properties.html_path.as_str());
            let page = Page { title, html_path: path, children: ch };
            proof {
                assert(page_model(page).children =~= pages_model(ch@));
                assert(page_model(page) == subtree(cs, m as int));
            }
            match home_of(&chunks, &last, m) {
                Some(h) => {
                    let ghost old_h = acc@[h as int];
                    acc[h].insert(0, page);
                    proof {
                        lemma_insert_front(old_h@, page);
                    }
                },
                None => {
                    let ghost old_roots = roots@;
                    roots.insert(0, page);
                    proof {
                        lemma_insert_front(old_roots, page);
                    }
                },
            }
        }
        proof {
            assert forall|k: int| 0 <= k < m implies pages_model(#[trigger] acc@[k]@) == kids(cs, k, m as int) by {
                assert(kids(cs, k, m as int) == (if live(cs, m as int) && home(cs, m as int) == k {
                    seq![subtree(cs, m as int)] + kids(cs, k, m + 1)
                } else {
                    kids(cs, k, m + 1)
                }));
                if !(live(cs, m as int) && home(cs, m as int) == k) {
                    assert(acc@[k] == before[k]);
                }
            }
        }
    }
    Toc { pages: roots }
}

/// Reads a table of contents: its records, then the page tree they make.
pub fn parse_toc(content: &str) -> (r: Result<Toc, HbkError>)
    ensures
        match chunks_of(tokens_of(content@)) {
            Some(cs) => r matches Ok(t) && pages_model(t.pages@) == toc_model(cs),
            None => r matches Err(e) && e is TocParse,
        },
{
    let chunks = parse_chunks(content)?;
    Ok(build_tree(chunks))
}

} // verus!
