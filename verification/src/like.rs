//! `LIKE` and `GLOB` patterns as ranges of an index.
//!
//! A pattern that starts with literal text only matches values between that text and the next
//! text after all those that start with it, so `col LIKE 'ab%'` can be looked up in an index on
//! `col` as `col >= 'ab' AND col < 'ac'`.
use vstd::prelude::*;
use vstd::string::*;
use vstd::utf8::{
    char_is_scalar, encode_scalar, encode_utf8, has_width_1_encoding, has_width_2_encoding,
    has_width_3_encoding, has_width_4_encoding, last_continuation_byte, leading_byte_width_1,
    leading_byte_width_2, leading_byte_width_3, leading_byte_width_4, second_last_continuation_byte,
    third_last_continuation_byte,
};

use crate::ast::{
    opt_name_view, exprs_view, function_args_view, BinaryOp, Expr, ExprView, FunctionArgs,
    FunctionArgsView, Literal, LiteralView,
};
use crate::schema::{Table, TableView};
use crate::text::{chars_of, lower, lower_char, lower_text, owned, same_text, string_of, upper};
use crate::vdbe::{Affinity, Collation};

verus! {

/// Which kind of pattern matching.
#[derive(Clone, Copy, PartialEq, Eq, Structural, Debug)]
pub enum LikeKind {
    /// `%` and `_` are wildcards; letters match in either case.
    Like,
    /// `*`, `?` and `[` are wildcards; letters match exactly.
    Glob,
}

/// A pattern that can be looked up as a range.
#[derive(Debug)]
pub struct LikeOpt {
    /// The column that is matched.
    pub column: String,
    /// The lower bound: the literal text that the pattern starts with.
    pub prefix: String,
    /// The upper bound; `None` when there is no text after all those that start with the prefix.
    pub upper: Option<String>,
    /// The range is exactly what the pattern matches.
    pub is_complete: bool,
    /// The pattern match itself.
    pub like_term: Expr,
}

/// The mathematical value of a [`LikeOpt`].
pub ghost struct LikeOptView {
    pub column: Seq<char>,
    pub prefix: Seq<char>,
    pub upper: Option<Seq<char>>,
    pub is_complete: bool,
    pub like_term: ExprView,
}

impl View for LikeOpt {
    type V = LikeOptView;

    open spec fn view(&self) -> LikeOptView {
        LikeOptView {
            column: self.column@,
            prefix: self.prefix@,
            upper: opt_name_view(self.upper),
            is_complete: self.is_complete,
            like_term: self.like_term@,
        }
    }
}

impl Clone for LikeOpt {
    fn clone(&self) -> (r: LikeOpt)
        ensures
            r@ == self@,
    {
        LikeOpt {
            column: self.column.clone(),
            prefix: self.prefix.clone(),
            upper: match &self.upper {
                None => None,
                Some(s) => Some(s.clone()),
            },
            is_complete: self.is_complete,
            like_term: self.like_term.clone(),
        }
    }
}

/// The mathematical values of some ranges.
pub open spec fn like_opts_view(s: Seq<LikeOpt>) -> Seq<LikeOptView> {
    Seq::new(s.len(), |i: int| s[i]@)
}

// ---- Patterns ----

/// The wildcard that matches any text.
pub open spec fn any_text(kind: LikeKind) -> char {
    match kind {
        LikeKind::Like => '%',
        LikeKind::Glob => '*',
    }
}

/// A wildcard of the pattern language.
pub open spec fn is_wildcard(kind: LikeKind, c: char) -> bool {
    match kind {
        LikeKind::Like => c == '%' || c == '_',
        LikeKind::Glob => c == '*' || c == '?' || c == '[',
    }
}

/// An ASCII character.
pub open spec fn is_ascii_char(c: char) -> bool {
    (c as u32) < 0x80
}

/// The end of the literal text that continues at `k`: the next wildcard that is not escaped, a
/// NUL or a replacement character, or the end of the pattern. The escape character `esc` is NUL
/// when there is none, and only escapes an ASCII character.
pub open spec fn literal_end(p: Seq<char>, kind: LikeKind, esc: char, k: int) -> int
    decreases p.len() - k,
{
    if k < 0 || k >= p.len() || p[k] == '\0' || is_wildcard(kind, p[k]) {
        k
    } else if esc != '\0' && p[k] == esc && k + 1 < p.len() && is_ascii_char(p[k + 1]) {
        literal_end(p, kind, esc, k + 2)
    } else if p[k] == '\u{FFFD}' {
        k
    } else {
        literal_end(p, kind, esc, k + 1)
    }
}

/// The characters from `k` to `n` without the escape characters.
pub open spec fn unescaped(p: Seq<char>, esc: char, n: int, k: int) -> Seq<char>
    decreases n - k,
{
    if k < 0 || k >= n || n > p.len() {
        Seq::empty()
    } else if esc != '\0' && p[k] == esc {
        if k + 1 >= n {
            Seq::empty()
        } else {
            seq![p[k + 1]] + unescaped(p, esc, n, k + 2)
        }
    } else {
        seq![p[k]] + unescaped(p, esc, n, k + 1)
    }
}

/// The text with its ASCII letters in upper case.
pub open spec fn upper_text(s: Seq<char>) -> Seq<char> {
    Seq::new(s.len(), |i: int| upper(s[i]))
}

/// The next character, if there is one. No character has a surrogate's number.
pub open spec fn next_char(c: char) -> Option<char> {
    if c == '\u{10FFFF}' {
        None
    } else if c == '\u{D7FF}' {
        Some('\u{E000}')
    } else {
        Some(((c as u32) + 1) as char)
    }
}

/// The first text after all those that start with `prefix`: its last character is the next one,
/// and where there is none the character before it is. There is no such text after the empty
/// prefix, nor where every character is the last one there is.
pub open spec fn next_text(prefix: Seq<char>) -> Option<Seq<char>>
    decreases prefix.len(),
{
    if prefix.len() == 0 {
        None
    } else {
        match next_char(prefix.last()) {
            Some(c) => Some(prefix.drop_last().push(c)),
            None => next_text(prefix.drop_last()),
        }
    }
}

/// The text ends with `@` or `A`, where the letters begin: as the upper bound of a match that takes
/// no account of case it does not part the texts cleanly.
pub open spec fn by_letters(h: Seq<char>) -> bool {
    h.len() > 0 && (h.last() == '@' || h.last() == 'A')
}

/// The range of a pattern, if it starts with literal text: its bounds, and whether it is exactly
/// what the pattern matches.
#[verifier::opaque]
pub open spec fn pattern_range(p: Seq<char>, kind: LikeKind, esc: char, no_case: bool) -> Option<
    (Seq<char>, Option<Seq<char>>, bool),
> {
    let n = literal_end(p, kind, esc, 0);
    let prefix = unescaped(p, esc, n, 0);
    if n == 0 || (n == 1 && esc != '\0' && p[0] == esc) || prefix.len() == 0 {
        None
    } else {
        let whole = n < p.len() && p[n] == any_text(kind) && (n + 1 >= p.len() || p[n + 1] == '\0');
        if no_case {
            let low = upper_text(prefix);
            match next_text(lower_text(prefix)) {
                None => Some((low, None, whole)),
                Some(h) => Some((low, Some(lower_text(h)), whole && !by_letters(h))),
            }
        } else {
            Some((prefix, next_text(prefix), whole))
        }
    }
}

/// The parts of a pattern match: its kind, what is matched, the pattern, and the escape
/// character (NUL when there is none).
#[verifier::opaque]
pub open spec fn match_parts(e: ExprView) -> Option<(LikeKind, ExprView, ExprView, char)> {
    match e {
        ExprView::Binary { op, left, right } => match op {
            BinaryOp::Like => Some((LikeKind::Like, *left, *right, '\0')),
            BinaryOp::Glob => Some((LikeKind::Glob, *left, *right, '\0')),
            _ => None,
        },
        ExprView::Function { name, distinct, args, filter, over } => match args {
            FunctionArgsView::Star => None,
            FunctionArgsView::List(v) => if name == "glob"@ && v.len() == 2 {
                Some((LikeKind::Glob, v[1], v[0], '\0'))
            } else if name == "like"@ && v.len() == 2 {
                Some((LikeKind::Like, v[1], v[0], '\0'))
            } else if name == "like"@ && v.len() == 3 {
                match v[2] {
                    ExprView::Literal(LiteralView::Text(t)) => if t.len() == 1 && is_ascii_char(
                        t[0],
                    ) {
                        Some((LikeKind::Like, v[1], v[0], t[0]))
                    } else {
                        None
                    },
                    _ => None,
                }
            } else {
                None
            },
        },
        _ => None,
    }
}

/// The range that a condition looks up, if it matches a text column whose collation is that of
/// the match against a literal pattern.
#[verifier::opaque]
pub open spec fn like_range(e: ExprView, t: TableView, case_sensitive: bool) -> Option<LikeOptView> {
    match match_parts(e) {
        None => None,
        Some((kind, ExprView::Column { schema, table, name }, ExprView::Literal(
            LiteralView::Text(p),
        ), esc)) => match t.column_index(name) {
            None => None,
            Some(i) => {
                let no_case = kind == LikeKind::Like && !case_sensitive;
                let needed = if no_case {
                    Collation::NoCase
                } else {
                    Collation::Binary
                };
                if t.columns[i as int].affinity != Affinity::Text || t.columns[i as int].collation
                    != needed || (esc != '\0' && is_wildcard(kind, esc)) {
                    None
                } else {
                    match pattern_range(p, kind, esc, no_case) {
                        None => None,
                        Some((prefix, upper, is_complete)) => Some(
                            LikeOptView { column: name, prefix, upper, is_complete, like_term: e },
                        ),
                    }
                }
            },
        },
        _ => None,
    }
}

// ---- Bounds ----

/// Trusted: `char::from_u32`. The contract claims that it gives the character with the number
/// `i`, and none exactly for the numbers that no character has: the surrogates and those above
/// `0x10FFFF`.
pub assume_specification[ char::from_u32 ](i: u32) -> (r: Option<char>)
    ensures
        r == (if i <= 0x10FFFF && !(0xD800 <= i <= 0xDFFF) {
            Some(i as char)
        } else {
            None
        }),
;

fn char_after(c: char) -> (r: Option<char>)
    ensures
        r == next_char(c),
{
    if c == '\u{D7FF}' {
        Some('\u{E000}')
    } else {
        char::from_u32(c as u32 + 1)
    }
}

/// The first text after all those that start with `prefix`, if there is one.
pub fn increment_last_utf8_byte(prefix: &str) -> (r: Option<String>)
    ensures
        opt_name_view(r) == next_text(prefix@),
{
    let cs = chars_of(prefix);
    let mut n: usize = cs.len();
    assert(cs@.take(n as int) =~= cs@);
    while n > 0
        invariant
            n <= cs@.len(),
            cs@ == prefix@,
            next_text(cs@.take(n as int)) == next_text(prefix@),
        decreases n,
    {
        let ghost all = cs@.take(n as int);
        assert(all.drop_last() =~= cs@.take(n - 1));
        if let Some(c) = char_after(cs[n - 1]) {
            let mut r = string_of(&cs, 0, n - 1);
            assert(cs@.subrange(0, n - 1) =~= all.drop_last());
            r.push(c);
            return Some(r);
        }
        n = n - 1;
    }
    None
}

fn upper_char(c: char) -> (r: char)
    ensures
        r == upper(c),
{
    if 'a' <= c && c <= 'z' {
        ((c as u8) - 32) as char
    } else {
        c
    }
}

fn fold(s: &str, up: bool) -> (r: String)
    ensures
        r@ == (if up {
            upper_text(s@)
        } else {
            lower_text(s@)
        }),
{
    let cs = chars_of(s);
    let ghost want = if up {
        upper_text(s@)
    } else {
        lower_text(s@)
    };
    let mut out = String::new();
    assert(want.take(0) =~= Seq::empty());
    for k in 0..cs.len()
        invariant
            cs@ == s@,
            want == (if up {
                upper_text(s@)
            } else {
                lower_text(s@)
            }),
            out@ == want.take(k as int),
    {
        let c = if up {
            upper_char(cs[k])
        } else {
            lower_char(cs[k])
        };
        out.push(c);
        assert(want.take(k + 1) =~= want.take(k as int).push(want[k as int]));
    }
    assert(want.take(cs@.len() as int) =~= want);
    out
}

fn wildcard(kind: LikeKind, c: char) -> (r: bool)
    ensures
        r == is_wildcard(kind, c),
{
    match kind {
        LikeKind::Like => c == '%' || c == '_',
        LikeKind::Glob => c == '*' || c == '?' || c == '[',
    }
}

fn find_literal_end(p: &Vec<char>, kind: LikeKind, esc: char) -> (n: usize)
    ensures
        n == literal_end(p@, kind, esc, 0),
        n <= p@.len(),
{
    let mut k: usize = 0;
    while k < p.len()
        invariant
            k <= p@.len(),
            literal_end(p@, kind, esc, k as int) == literal_end(p@, kind, esc, 0),
        decreases p@.len() - k,
    {
        let c = p[k];
        if c == '\0' || wildcard(kind, c) {
            return k;
        }
        if esc != '\0' && c == esc && k + 1 < p.len() && (p[k + 1] as u32) < 0x80 {
            k = k + 2;
        } else if c == '\u{FFFD}' {
            return k;
        } else {
            k = k + 1;
        }
    }
    k
}

fn without_escapes(p: &Vec<char>, esc: char, n: usize) -> (r: String)
    requires
        n <= p@.len(),
    ensures
        r@ == unescaped(p@, esc, n as int, 0),
{
    let mut out = String::new();
    let mut k: usize = 0;
    let ghost want = unescaped(p@, esc, n as int, 0);
    assert(out@ + want =~= want);
    while k < n
        invariant
            n <= p@.len(),
            k <= n,
            out@ + unescaped(p@, esc, n as int, k as int) == want,
            want == unescaped(p@, esc, n as int, 0),
        decreases n - k,
    {
        let ghost before = out@;
        if esc != '\0' && p[k] == esc {
            if k + 1 >= n {
                assert(unescaped(p@, esc, n as int, k as int) =~= Seq::<char>::empty());
                assert(out@ =~= want);
                return out;
            }
            out.push(p[k + 1]);
            assert(out@ + unescaped(p@, esc, n as int, k + 2) =~= before + (seq![p@[k + 1]]
                + unescaped(p@, esc, n as int, k + 2)));
            k = k + 2;
        } else {
            out.push(p[k]);
            assert(out@ + unescaped(p@, esc, n as int, k + 1) =~= before + (seq![p@[k as int]]
                + unescaped(p@, esc, n as int, k + 1)));
            k = k + 1;
        }
    }
    assert(unescaped(p@, esc, n as int, k as int) =~= Seq::<char>::empty());
    assert(out@ =~= want);
    out
}

/// The mathematical value of the range of a pattern.
pub open spec fn range_view(r: Option<(String, Option<String>, bool)>) -> Option<
    (Seq<char>, Option<Seq<char>>, bool),
> {
    match r {
        None => None,
        Some((p, u, c)) => Some((p@, opt_name_view(u), c)),
    }
}

fn bounds_of(pattern: &str, kind: LikeKind, esc: char, no_case: bool) -> (r: Option<
    (String, Option<String>, bool),
>)
    ensures
        range_view(r) == pattern_range(pattern@, kind, esc, no_case),
{
    reveal(pattern_range);
    let p = chars_of(pattern);
    let n: usize = find_literal_end(&p, kind, esc);
    if n == 0 {
        return None;
    }
    if n == 1 && esc != '\0' && p[0] == esc {
        return None;
    }
    let prefix = without_escapes(&p, esc, n);
    let plain = chars_of(prefix.as_str());
    if plain.len() == 0 {
        return None;
    }
    let wild = match kind {
        LikeKind::Like => '%',
        LikeKind::Glob => '*',
    };
    let whole = n < p.len() && p[n] == wild && (n + 1 >= p.len() || p[n + 1] == '\0');
    if no_case {
        let low = fold(prefix.as_str(), true);
        let small = fold(prefix.as_str(), false);
        match increment_last_utf8_byte(small.as_str()) {
            None => Some((low, None, whole)),
            Some(h) => {
                let hc = chars_of(h.as_str());
                let at_boundary = hc.len() > 0 && (hc[hc.len() - 1] == '@' || hc[hc.len() - 1]
                    == 'A');
                Some((low, Some(fold(h.as_str(), false)), whole && !at_boundary))
            },
        }
    } else {
        let upper = increment_last_utf8_byte(prefix.as_str());
        Some((prefix, upper, whole))
    }
}

/// The mathematical value of the parts of a match.
pub open spec fn parts_view(r: Option<(LikeKind, &Expr, &Expr, char)>) -> Option<
    (LikeKind, ExprView, ExprView, char),
> {
    match r {
        None => None,
        Some((k, a, b, c)) => Some((k, a@, b@, c)),
    }
}

fn split_match(e: &Expr) -> (r: Option<(LikeKind, &Expr, &Expr, char)>)
    ensures
        parts_view(r) == match_parts(e@),
{
    reveal(match_parts);
    match e {
        Expr::Binary { op, left, right } => match op {
            BinaryOp::Like => Some((LikeKind::Like, left, right, '\0')),
            BinaryOp::Glob => Some((LikeKind::Glob, left, right, '\0')),
            _ => None,
        },
        Expr::Function { name, distinct, args, filter, over } => {
            let is_like = same_text(name, &owned("like"));
            let is_glob = same_text(name, &owned("glob"));
            match args {
                FunctionArgs::Star => {
                    assert(function_args_view(*args) == FunctionArgsView::Star);
                    None
                },
                FunctionArgs::List(v) => {
                    let ghost vv = exprs_view(v@);
                    assert(function_args_view(*args) == FunctionArgsView::List(vv));
                    assert(forall|i: int| 0 <= i < v@.len() ==> vv[i] == (#[trigger] v@[i])@);
                    if is_glob && v.len() == 2 {
                        Some((LikeKind::Glob, &v[1], &v[0], '\0'))
                    } else if is_like && v.len() == 2 {
                        Some((LikeKind::Like, &v[1], &v[0], '\0'))
                    } else if is_like && v.len() == 3 {
                        assert(vv[2] == v@[2]@);
                        match &v[2] {
                            Expr::Literal(Literal::Text(t)) => {
                                let cs = chars_of(t.as_str());
                                if cs.len() == 1 && (cs[0] as u32) < 0x80 {
                                    Some((LikeKind::Like, &v[1], &v[0], cs[0]))
                                } else {
                                    None
                                }
                            },
                            _ => None,
                        }
                    } else {
                        None
                    }
                },
            }
        },
        _ => None,
    }
}

/// The mathematical value of an optional range.
pub open spec fn opt_like_view(r: Option<LikeOpt>) -> Option<LikeOptView> {
    match r {
        None => None,
        Some(o) => Some(o@),
    }
}

/// The range that a condition looks up, if it is a pattern match that can be.
pub fn analyze_like_term(e: &Expr, table: &Table, case_sensitive_like: bool) -> (r: Option<LikeOpt>)
    ensures
        opt_like_view(r) == like_range(e@, table@, case_sensitive_like),
{
    reveal(like_range);
    match split_match(e) {
        None => None,
        Some((kind, col_expr, pattern_expr, esc)) => {
            if let Expr::Column { schema, table: q, name } = col_expr {
                if let Expr::Literal(Literal::Text(pattern)) = pattern_expr {
                    if let Some(i) = table.column_index(name.as_str()) {
                        let no_case = kind == LikeKind::Like && !case_sensitive_like;
                        let needed = if no_case {
                            Collation::NoCase
                        } else {
                            Collation::Binary
                        };
                        assert(table@.columns[i as int] == table.columns@[i as int]@);
                        if table.columns[i].affinity != Affinity::Text
                            || table.columns[i].collation != needed || (esc != '\0' && wildcard(
                            kind,
                            esc,
                        )) {
                            return None;
                        }
                        return match bounds_of(pattern.as_str(), kind, esc, no_case) {
                            None => None,
                            Some((prefix, upper, is_complete)) => Some(
                                LikeOpt {
                                    column: name.clone(),
                                    prefix,
                                    upper,
                                    is_complete,
                                    like_term: e.clone(),
                                },
                            ),
                        };
                    }
                }
            }
            None
        },
    }
}

// ---- What a range holds ----

/// `a` comes before `b`: it is smaller at the first character that differs, or `b` goes on after
/// it. [`law_text_order_is_byte_order`] says that this is the order of their UTF-8 bytes.
pub open spec fn before(a: Seq<char>, b: Seq<char>) -> bool {
    exists|k: int| parts_at(a, b, k)
}

/// The texts are the same up to position `k`, where `a` ends or has the smaller character.
pub open spec fn parts_at(a: Seq<char>, b: Seq<char>, k: int) -> bool {
    &&& 0 <= k < b.len() && k <= a.len()
    &&& forall|i: int| 0 <= i < k ==> #[trigger] a[i] == b[i]
    &&& k == a.len() || a[k] < b[k]
}

/// The bytes `a` come before `b`: they are smaller at the first one that differs, or `b` goes on
/// after them.
pub open spec fn bytes_before(a: Seq<u8>, b: Seq<u8>) -> bool {
    exists|k: int| bytes_part_at(a, b, k)
}

/// The bytes are the same up to position `k`, where `a` ends or has the smaller one.
pub open spec fn bytes_part_at(a: Seq<u8>, b: Seq<u8>, k: int) -> bool {
    &&& 0 <= k < b.len() && k <= a.len()
    &&& forall|i: int| 0 <= i < k ==> #[trigger] a[i] == b[i]
    &&& k == a.len() || a[k] < b[k]
}

proof fn lemma_leading_bytes(c: u32)
    by (bit_vector)
    ensures
        has_width_1_encoding(c) ==> leading_byte_width_1(c) == c,
        0xC0 <= leading_byte_width_2(c) < 0xE0,
        0xE0 <= leading_byte_width_3(c) < 0xF0,
        0xF0 <= leading_byte_width_4(c),
{
}

proof fn lemma_order_of_two_bytes(c: u32, d: u32)
    by (bit_vector)
    requires
        has_width_2_encoding(c),
        has_width_2_encoding(d),
        c < d,
    ensures
        leading_byte_width_2(c) < leading_byte_width_2(d) || (leading_byte_width_2(c)
            == leading_byte_width_2(d) && last_continuation_byte(c) < last_continuation_byte(d)),
{
}

proof fn lemma_order_of_three_bytes(c: u32, d: u32)
    by (bit_vector)
    requires
        has_width_3_encoding(c),
        has_width_3_encoding(d),
        c < d,
    ensures
        leading_byte_width_3(c) < leading_byte_width_3(d) || (leading_byte_width_3(c)
            == leading_byte_width_3(d) && (second_last_continuation_byte(c)
            < second_last_continuation_byte(d) || (second_last_continuation_byte(c)
            == second_last_continuation_byte(d) && last_continuation_byte(c)
            < last_continuation_byte(d)))),
{
}

proof fn lemma_order_of_four_bytes(c: u32, d: u32)
    by (bit_vector)
    requires
        has_width_4_encoding(c),
        has_width_4_encoding(d),
        c < d,
    ensures
        leading_byte_width_4(c) < leading_byte_width_4(d) || (leading_byte_width_4(c)
            == leading_byte_width_4(d) && (third_last_continuation_byte(c)
            < third_last_continuation_byte(d) || (third_last_continuation_byte(c)
            == third_last_continuation_byte(d) && (second_last_continuation_byte(c)
            < second_last_continuation_byte(d) || (second_last_continuation_byte(c)
            == second_last_continuation_byte(d) && last_continuation_byte(c)
            < last_continuation_byte(d)))))),
{
}

/// The encodings of two characters part inside both of them, at a smaller byte of the smaller one.
proof fn lemma_scalar_order(c: char, d: char) -> (k: int)
    requires
        c < d,
    ensures
        bytes_part_at(encode_scalar(c as u32), encode_scalar(d as u32), k),
        k < encode_scalar(c as u32).len(),
{
    let (m, n) = (c as u32, d as u32);
    char_is_scalar(c);
    char_is_scalar(d);
    lemma_leading_bytes(m);
    lemma_leading_bytes(n);
    let (x, y) = (encode_scalar(m), encode_scalar(n));
    if x[0] < y[0] {
        0
    } else {
        if has_width_2_encoding(m) {
            lemma_order_of_two_bytes(m, n);
            1
        } else if has_width_3_encoding(m) {
            lemma_order_of_three_bytes(m, n);
            if x[1] < y[1] {
                1
            } else {
                2
            }
        } else {
            lemma_order_of_four_bytes(m, n);
            if x[1] < y[1] {
                1
            } else if x[2] < y[2] {
                2
            } else {
                3
            }
        }
    }
}

proof fn lemma_encoded_in_parts(s: Seq<char>, k: int)
    requires
        0 <= k <= s.len(),
    ensures
        encode_utf8(s) == encode_utf8(s.take(k)) + encode_utf8(s.skip(k)),
    decreases k,
{
    if k == 0 {
        assert(s.take(0) =~= Seq::empty());
        assert(s.skip(0) =~= s);
        assert(encode_utf8(s) =~= encode_utf8(s.take(0)) + encode_utf8(s.skip(0)));
    } else {
        let rest = s.drop_first();
        lemma_encoded_in_parts(rest, k - 1);
        assert(s.take(k).drop_first() =~= rest.take(k - 1));
        assert(s.skip(k) =~= rest.skip(k - 1));
        assert(encode_utf8(s) =~= encode_utf8(s.take(k)) + encode_utf8(s.skip(k)));
    }
}

proof fn lemma_bytes_follow(a: Seq<char>, b: Seq<char>)
    requires
        before(a, b),
    ensures
        bytes_before(encode_utf8(a), encode_utf8(b)),
{
    let k = choose|k: int| parts_at(a, b, k);
    lemma_encoded_in_parts(a, k);
    lemma_encoded_in_parts(b, k);
    assert(a.take(k) =~= b.take(k));
    let (x, y) = (encode_utf8(a), encode_utf8(b));
    let n = encode_utf8(a.take(k)).len() as int;
    assert(y == encode_utf8(a.take(k)) + encode_utf8(b.skip(k)));
    let tb = b.skip(k);
    let db = encode_scalar(tb[0] as u32);
    assert(encode_utf8(tb) == db + encode_utf8(tb.drop_first()));
    assert forall|i: int| 0 <= i < n implies #[trigger] x[i] == y[i] by {}
    if k == a.len() {
        assert(encode_utf8(a.skip(k)).len() == 0);
        assert(db.len() > 0);
        assert(bytes_part_at(x, y, n));
    } else {
        let ta = a.skip(k);
        let da = encode_scalar(ta[0] as u32);
        assert(encode_utf8(ta) == da + encode_utf8(ta.drop_first()));
        let j = lemma_scalar_order(ta[0], tb[0]);
        assert forall|i: int| 0 <= i < n + j implies #[trigger] x[i] == y[i] by {
            if i >= n {
                assert(x[i] == da[i - n]);
                assert(y[i] == db[i - n]);
            }
        }
        assert(x[n + j] == da[j]);
        assert(y[n + j] == db[j]);
        assert(bytes_part_at(x, y, n + j));
    }
}

proof fn lemma_bytes_one_way(a: Seq<u8>, b: Seq<u8>)
    requires
        bytes_before(a, b),
    ensures
        !bytes_before(b, a),
{
    if bytes_before(b, a) {
        let k = choose|k: int| bytes_part_at(a, b, k);
        let m = choose|m: int| bytes_part_at(b, a, m);
        if k < m {
            assert(a[k] == b[k]);
        } else if m < k {
            assert(b[m] == a[m]);
        }
    }
}

proof fn lemma_texts_compare(a: Seq<char>, b: Seq<char>, k: int)
    requires
        0 <= k <= a.len(),
        k <= b.len(),
        forall|i: int| 0 <= i < k ==> #[trigger] a[i] == b[i],
    ensures
        a == b || before(a, b) || before(b, a),
    decreases a.len() - k,
{
    if k == a.len() || k == b.len() || a[k] != b[k] {
        if a.len() == b.len() && k == a.len() {
            assert(a =~= b);
        } else if k == a.len() || (k < b.len() && a[k] < b[k]) {
            assert(parts_at(a, b, k));
        } else {
            assert(parts_at(b, a, k));
        }
    } else {
        lemma_texts_compare(a, b, k + 1);
    }
}

/// Texts compare as their UTF-8 bytes do.
pub proof fn law_text_order_is_byte_order(a: Seq<char>, b: Seq<char>)
    ensures
        before(a, b) <==> bytes_before(encode_utf8(a), encode_utf8(b)),
{
    if before(a, b) {
        lemma_bytes_follow(a, b);
    } else if bytes_before(encode_utf8(a), encode_utf8(b)) {
        lemma_bytes_one_way(encode_utf8(a), encode_utf8(b));
        lemma_texts_compare(a, b, 0);
        if before(b, a) {
            lemma_bytes_follow(b, a);
        }
    }
}

/// A text as a collation compares it: without regard to the case of ASCII letters, or as it is.
pub open spec fn collated(s: Seq<char>, no_case: bool) -> Seq<char> {
    if no_case {
        lower_text(s)
    } else {
        s
    }
}

/// The text lies between the bounds.
pub open spec fn in_range(
    v: Seq<char>,
    low: Seq<char>,
    high: Option<Seq<char>>,
    no_case: bool,
) -> bool {
    &&& !before(collated(v, no_case), collated(low, no_case))
    &&& high matches Some(h) ==> before(collated(v, no_case), collated(h, no_case))
}

/// `a` starts with `b`.
pub open spec fn starts_with(a: Seq<char>, b: Seq<char>) -> bool {
    b.len() <= a.len() && forall|i: int| 0 <= i < b.len() ==> #[trigger] a[i] == b[i]
}

/// Whether a character is in the set that a pattern lists from `k` on, and the position behind
/// the bracket that closes the list. A bracket that comes first is in the set, and `a-c` lists all
/// from `a` to `c`. `None` for a list that is not closed.
pub open spec fn listed(p: Seq<char>, k: int, c: char, first: bool, found: bool) -> Option<(bool, int)>
    decreases p.len() - k,
{
    if k < 0 || k >= p.len() || p[k] == '\0' {
        None
    } else if p[k] == ']' && !first {
        Some((found, k + 1))
    } else if k + 2 < p.len() && p[k + 1] == '-' && p[k + 2] != ']' && p[k + 2] != '\0' {
        listed(p, k + 3, c, false, found || p[k] <= c <= p[k + 2])
    } else {
        listed(p, k + 1, c, false, found || p[k] == c)
    }
}

/// The position behind the set that opens at `k`, if the character is in it. A set that starts
/// with `^` holds the characters that it does not list.
pub open spec fn set_end(p: Seq<char>, k: int, c: char) -> Option<int> {
    let inverted = k + 1 < p.len() && p[k + 1] == '^';
    match listed(
        p,
        if inverted {
            k + 2
        } else {
            k + 1
        },
        c,
        true,
        false,
    ) {
        Some((found, e)) => if found != inverted && e > k {
            Some(e)
        } else {
            None
        },
        None => None,
    }
}

/// The pattern from `k` on matches the text. A NUL ends the pattern, and an escaped character
/// stands for itself.
pub open spec fn text_fits(
    p: Seq<char>,
    kind: LikeKind,
    esc: char,
    no_case: bool,
    k: int,
    v: Seq<char>,
) -> bool
    decreases p.len() - k, v.len(),
{
    if k < 0 || k >= p.len() || p[k] == '\0' {
        v.len() == 0
    } else if p[k] == any_text(kind) {
        text_fits(p, kind, esc, no_case, k + 1, v) || (v.len() > 0 && text_fits(
            p,
            kind,
            esc,
            no_case,
            k,
            v.skip(1),
        ))
    } else if kind == LikeKind::Glob && p[k] == '[' {
        v.len() > 0 && (set_end(p, k, v[0]) matches Some(e) && k < e <= p.len() && text_fits(
            p,
            kind,
            esc,
            no_case,
            e,
            v.skip(1),
        ))
    } else if is_wildcard(kind, p[k]) {
        v.len() > 0 && text_fits(p, kind, esc, no_case, k + 1, v.skip(1))
    } else if esc != '\0' && p[k] == esc {
        k + 1 < p.len() && v.len() > 0 && collated(v, no_case)[0] == collated(p, no_case)[k + 1]
            && text_fits(p, kind, esc, no_case, k + 2, v.skip(1))
    } else {
        v.len() > 0 && collated(v, no_case)[0] == collated(p, no_case)[k] && text_fits(
            p,
            kind,
            esc,
            no_case,
            k + 1,
            v.skip(1),
        )
    }
}

proof fn lemma_literal_end(p: Seq<char>, kind: LikeKind, esc: char, k: int)
    requires
        0 <= k <= p.len(),
    ensures
        k <= literal_end(p, kind, esc, k) <= p.len(),
    decreases p.len() - k,
{
    if k == p.len() || p[k] == '\0' || is_wildcard(kind, p[k]) {
    } else if esc != '\0' && p[k] == esc && k + 1 < p.len() && is_ascii_char(p[k + 1]) {
        lemma_literal_end(p, kind, esc, k + 2);
    } else if p[k] == '\u{FFFD}' {
    } else {
        lemma_literal_end(p, kind, esc, k + 1);
    }
}

/// What a pattern matches starts with its literal text.
proof fn lemma_starts(
    p: Seq<char>,
    kind: LikeKind,
    esc: char,
    no_case: bool,
    k: int,
    v: Seq<char>,
)
    requires
        0 <= k <= p.len(),
        is_ascii_char(esc),
        text_fits(p, kind, esc, no_case, k, v),
    ensures
        starts_with(
            collated(v, no_case),
            collated(unescaped(p, esc, literal_end(p, kind, esc, k), k), no_case),
        ),
    decreases p.len() - k,
{
    reveal_with_fuel(literal_end, 3);
    let n = literal_end(p, kind, esc, k);
    lemma_literal_end(p, kind, esc, k);
    let x = unescaped(p, esc, n, k);
    if k + 1 < p.len() {
        lemma_literal_end(p, kind, esc, k + 1);
        lemma_literal_end(p, kind, esc, k + 2);
    }
    if k < n {
        let step: int = if esc != '\0' && p[k] == esc {
            2
        } else {
            1
        };
        if step == 2 && k + 1 >= n {
            assert(x.len() == 0);
        } else {
            assert(literal_end(p, kind, esc, k + step) == n);
            lemma_starts(p, kind, esc, no_case, k + step, v.skip(1));
            let y = unescaped(p, esc, n, k + step);
            assert(x =~= seq![p[k + step - 1]] + y);
            let cv = collated(v, no_case);
            let cx = collated(x, no_case);
            let cy = collated(y, no_case);
            assert forall|i: int| 0 <= i < cx.len() implies #[trigger] cv[i] == cx[i] by {
                if i > 0 {
                    assert(collated(v.skip(1), no_case)[i - 1] == cy[i - 1]);
                }
            }
        }
    }
}

proof fn lemma_any_text_fits(
    p: Seq<char>,
    kind: LikeKind,
    esc: char,
    no_case: bool,
    k: int,
    v: Seq<char>,
)
    requires
        0 <= k < p.len(),
        p[k] == any_text(kind),
        k + 1 >= p.len() || p[k + 1] == '\0',
    ensures
        text_fits(p, kind, esc, no_case, k, v),
    decreases v.len(),
{
    if v.len() == 0 {
        assert(text_fits(p, kind, esc, no_case, k + 1, v));
    } else {
        lemma_any_text_fits(p, kind, esc, no_case, k, v.skip(1));
    }
}

/// A pattern that is literal text and then matches any text matches all that start with it.
proof fn lemma_fits(
    p: Seq<char>,
    kind: LikeKind,
    esc: char,
    no_case: bool,
    k: int,
    v: Seq<char>,
)
    requires
        0 <= k <= p.len(),
        is_ascii_char(esc),
        ({
            let n = literal_end(p, kind, esc, k);
            n < p.len() && p[n] == any_text(kind) && (n + 1 >= p.len() || p[n + 1] == '\0')
        }),
        starts_with(
            collated(v, no_case),
            collated(unescaped(p, esc, literal_end(p, kind, esc, k), k), no_case),
        ),
    ensures
        text_fits(p, kind, esc, no_case, k, v),
    decreases p.len() - k,
{
    reveal_with_fuel(literal_end, 3);
    let n = literal_end(p, kind, esc, k);
    lemma_literal_end(p, kind, esc, k);
    let x = unescaped(p, esc, n, k);
    if k + 1 < p.len() {
        lemma_literal_end(p, kind, esc, k + 1);
        lemma_literal_end(p, kind, esc, k + 2);
    }
    if k == n {
        lemma_any_text_fits(p, kind, esc, no_case, k, v);
    } else {
        let step: int = if esc != '\0' && p[k] == esc {
            2
        } else {
            1
        };
        assert(!(step == 2 && k + 1 >= n));
        assert(literal_end(p, kind, esc, k + step) == n);
        let y = unescaped(p, esc, n, k + step);
        assert(x =~= seq![p[k + step - 1]] + y);
        let cv = collated(v, no_case);
        let cx = collated(x, no_case);
        let rest = collated(v.skip(1), no_case);
        let cy = collated(y, no_case);
        assert(cv[0] == cx[0]);
        assert forall|i: int| 0 <= i < cy.len() implies #[trigger] rest[i] == cy[i] by {
            assert(cv[i + 1] == cx[i + 1]);
        }
        lemma_fits(p, kind, esc, no_case, k + step, v.skip(1));
        assert(!is_wildcard(kind, p[k]) && p[k] != '\0');
        assert(cx[0] == collated(p, no_case)[k + step - 1]);
        assert(text_fits(p, kind, esc, no_case, k, v));
    }
}

proof fn lemma_char_bound(c: char)
    ensures
        c <= '\u{10FFFF}',
        next_char(c) matches Some(d) ==> c < d,
{
}

proof fn lemma_no_char_between(c: char, d: char, e: char)
    requires
        next_char(c) == Some(d),
        e < d,
    ensures
        e <= c,
{
}

proof fn lemma_last_chars(v: Seq<char>, x: Seq<char>, j: int)
    requires
        !before(v, x),
        0 <= j <= x.len(),
        j <= v.len(),
        forall|i: int| 0 <= i < j ==> #[trigger] v[i] == x[i],
        forall|i: int| j <= i < x.len() ==> #[trigger] x[i] == '\u{10FFFF}',
    ensures
        starts_with(v, x),
    decreases x.len() - j,
{
    if j < x.len() {
        assert(!parts_at(v, x, j));
        lemma_char_bound(v[j]);
        lemma_last_chars(v, x, j + 1);
    }
}

/// The shape of the text after all those that start with `x`.
proof fn lemma_next_text(x: Seq<char>) -> (m: int)
    ensures
        0 <= m <= x.len(),
        next_text(x) is None <==> m == 0,
        forall|i: int| m <= i < x.len() ==> #[trigger] x[i] == '\u{10FFFF}',
        next_text(x) matches Some(h) ==> h.len() == m && (forall|i: int|
            0 <= i < m - 1 ==> #[trigger] h[i] == x[i]) && next_char(x[m - 1]) == Some(h[m - 1]),
    decreases x.len(),
{
    if x.len() == 0 {
        0
    } else if next_char(x.last()) is Some {
        x.len() as int
    } else {
        let y = x.drop_last();
        let m = lemma_next_text(y);
        assert forall|i: int| m <= i < x.len() implies #[trigger] x[i] == '\u{10FFFF}' by {
            if i < y.len() {
                assert(y[i] == x[i]);
            }
        }
        m
    }
}

/// The texts that start with `x` are those that do not come before it and come before the next
/// text after all of them.
pub proof fn law_next_text_bounds_prefix(v: Seq<char>, x: Seq<char>)
    ensures
        starts_with(v, x) <==> !before(v, x) && (next_text(x) matches Some(h) ==> before(v, h)),
{
    let m = lemma_next_text(x);
    if starts_with(v, x) {
        assert forall|k: int| !(#[trigger] parts_at(v, x, k)) by {
            if 0 <= k < x.len() {
                assert(v[k] == x[k]);
            }
        }
        if let Some(h) = next_text(x) {
            assert(v[m - 1] == x[m - 1]);
            lemma_char_bound(x[m - 1]);
            assert forall|i: int| 0 <= i < m - 1 implies #[trigger] v[i] == h[i] by {
                assert(v[i] == x[i]);
            }
            assert(parts_at(v, h, m - 1));
        }
    } else if !before(v, x) && (next_text(x) matches Some(h) ==> before(v, h)) {
        if let Some(h) = next_text(x) {
            let k = choose|k: int| parts_at(v, h, k);
            assert forall|i: int| 0 <= i < k implies #[trigger] v[i] == x[i] by {
                assert(v[i] == h[i]);
                assert(h[i] == x[i]);
            }
            assert(!parts_at(v, x, k));
            if k < m - 1 {
                assert(h[k] == x[k]);
            }
            assert(k == m - 1 && k < v.len());
            lemma_no_char_between(x[k], h[k], v[k]);
            assert(v[k] == x[k]);
            lemma_last_chars(v, x, m);
        } else {
            lemma_last_chars(v, x, 0);
        }
    }
}

/// The text before which all those come that start with `x`, in lower case, is itself in lower
/// case unless it ends with `A`.
proof fn lemma_high(x: Seq<char>, h: Seq<char>)
    requires
        x == lower_text(x),
        next_text(x) == Some(h),
    ensures
        h.len() > 0,
        h.last() != 'A' ==> lower_text(h) == h,
        forall|v: Seq<char>| before(v, h) ==> before(v, lower_text(h)),
{
    let m = lemma_next_text(x);
    let low = lower_text(h);
    assert forall|i: int| 0 <= i < m - 1 implies #[trigger] low[i] == h[i] by {
        assert(h[i] == x[i]);
        assert(x[i] == lower_text(x)[i]);
    }
    assert(x[m - 1] == lower_text(x)[m - 1]);
    assert(low[m - 1] == lower(h[m - 1]));
    if h.last() != 'A' {
        assert(low =~= h);
    }
    assert forall|v: Seq<char>| before(v, h) implies before(v, low) by {
        let k = choose|k: int| parts_at(v, h, k);
        assert(parts_at(v, low, k));
    }
}

/// A pattern only matches texts that lie in its range, in the order of the collation that goes
/// with the match; and where the range is complete, it matches all of them.
pub proof fn law_range_holds_the_matches(
    p: Seq<char>,
    kind: LikeKind,
    esc: char,
    no_case: bool,
    v: Seq<char>,
)
    requires
        is_ascii_char(esc),
        pattern_range(p, kind, esc, no_case) is Some,
    ensures
        ({
            let (low, high, complete) = pattern_range(p, kind, esc, no_case)->0;
            &&& text_fits(p, kind, esc, no_case, 0, v) ==> in_range(v, low, high, no_case)
            &&& complete ==> (in_range(v, low, high, no_case) ==> text_fits(
                p,
                kind,
                esc,
                no_case,
                0,
                v,
            ))
        }),
{
    reveal(pattern_range);
    let (low, high, complete) = pattern_range(p, kind, esc, no_case)->0;
    let n = literal_end(p, kind, esc, 0);
    let prefix = unescaped(p, esc, n, 0);
    let x = collated(prefix, no_case);
    let cv = collated(v, no_case);
    assert(collated(low, no_case) =~= x);
    law_next_text_bounds_prefix(cv, x);
    if no_case {
        assert(lower_text(x) =~= x);
        if let Some(h) = next_text(x) {
            lemma_high(x, h);
            assert(lower_text(lower_text(h)) =~= lower_text(h));
        }
    }
    if text_fits(p, kind, esc, no_case, 0, v) {
        lemma_starts(p, kind, esc, no_case, 0, v);
    }
    if complete && in_range(v, low, high, no_case) {
        lemma_fits(p, kind, esc, no_case, 0, v);
    }
}

// ---- Conjunctions ----

/// The terms of a conjunction, left to right.
pub open spec fn conjuncts(e: ExprView) -> Seq<ExprView>
    decreases e,
{
    match e {
        ExprView::Binary { op, left, right } => if op == BinaryOp::And {
            conjuncts(*left) + conjuncts(*right)
        } else {
            seq![e]
        },
        _ => seq![e],
    }
}

/// Append the terms of a conjunction to `out`.
pub fn flatten_and(e: &Expr, out: &mut Vec<Expr>)
    ensures
        exprs_view(final(out)@) == exprs_view(old(out)@) + conjuncts(e@),
    decreases e,
{
    if let Expr::Binary { op, left, right } = e {
        if *op == BinaryOp::And {
            let ghost before = exprs_view(out@);
            flatten_and(left, out);
            flatten_and(right, out);
            assert(exprs_view(out@) =~= before + conjuncts(e@));
            return ;
        }
    }
    let ghost before = exprs_view(out@);
    out.push(e.clone());
    assert(exprs_view(out@) =~= before + seq![e@]);
}

/// The ranges of the first `n` conditions.
pub open spec fn like_ranges(es: Seq<ExprView>, t: TableView, case_sensitive: bool, n: int) -> Seq<
    LikeOptView,
>
    decreases n,
{
    if n <= 0 || n > es.len() {
        Seq::empty()
    } else {
        match like_range(es[n - 1], t, case_sensitive) {
            Some(o) => like_ranges(es, t, case_sensitive, n - 1).push(o),
            None => like_ranges(es, t, case_sensitive, n - 1),
        }
    }
}

/// The ranges that the pattern matches of a `WHERE` clause look up.
#[verifier::opaque]
pub open spec fn where_like_ranges(w: Option<ExprView>, t: TableView, case_sensitive: bool) -> Seq<
    LikeOptView,
> {
    match w {
        None => Seq::empty(),
        Some(e) => like_ranges(conjuncts(e), t, case_sensitive, conjuncts(e).len() as int),
    }
}

/// The ranges that the conditions of a `WHERE` clause look up.
pub fn collect_like_opts(w: &Option<Expr>, table: &Table, case_sensitive_like: bool) -> (r: Vec<
    LikeOpt,
>)
    ensures
        like_opts_view(r@) == where_like_ranges(
            match *w {
                None => None,
                Some(e) => Some(e@),
            },
            table@,
            case_sensitive_like,
        ),
{
    reveal(where_like_ranges);
    let mut out: Vec<LikeOpt> = Vec::new();
    assert(like_opts_view(out@) =~= Seq::empty());
    match w {
        None => out,
        Some(e) => {
            let mut terms: Vec<Expr> = Vec::new();
            assert(exprs_view(terms@) + conjuncts(e@) =~= conjuncts(e@));
            flatten_and(e, &mut terms);
            let ghost ts = exprs_view(terms@);
            for k in 0..terms.len()
                invariant
                    ts == exprs_view(terms@),
                    like_opts_view(out@) == like_ranges(
                        ts,
                        table@,
                        case_sensitive_like,
                        k as int,
                    ),
            {
                assert(ts[k as int] == terms@[k as int]@);
                let ghost before = like_opts_view(out@);
                if let Some(o) = analyze_like_term(&terms[k], table, case_sensitive_like) {
                    out.push(o);
                    assert(like_opts_view(out@) =~= before.push(o@));
                }
            }
            out
        },
    }
}

} // verus!
