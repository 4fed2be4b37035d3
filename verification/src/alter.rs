//! `ALTER TABLE`: rename a table or add a column to it, by rewriting the texts that the catalog
//! keeps.
//!
//! A text is searched character by character. The name of a table in a `CREATE` statement is
//! replaced where it stands, in the quotes that it stands in; the rest of the text stays as it is.
use vstd::prelude::*;

use crate::ast::{opt_name_view, Expr, ExprView, Literal, LiteralView};
use crate::builder::{group_asm, Asm, ProgramBuilder};
use crate::catalog::{emit_commit, emit_edit_row, gen_commit, gen_edit_row, CATALOG, CATALOG_ROOT};
use crate::emit::{begin, built, end_bare, gen_bare_epilogue, prologue};
use crate::scope::{opt_str_view, steady};
use crate::stmt::{
    constraints_view, AlterTableStmt, AlterTableView, ColumnConstraint, ColumnConstraintView,
    ColumnDef, ColumnDefView,
};
use crate::text::{
    cat3, chars_of, eq_ignore_case, eq_nocase, eq_nocase_equivalence, lower, lower_char, lower_text,
    owned, same_text, string_of, Error,
};
use crate::vdbe::{Opcode, Program};

verus! {

broadcast use group_asm;

// ---- Characters ----

/// A character of a bare name.
pub open spec fn is_name_char(c: char) -> bool {
    ||| 'a' <= c && c <= 'z'
    ||| 'A' <= c && c <= 'Z'
    ||| '0' <= c && c <= '9'
    ||| c == '_'
    ||| c == '$'
}

/// A blank between the words of a statement.
pub open spec fn is_blank(c: char) -> bool {
    c == ' ' || c == '\t' || c == '\n' || c == '\u{c}' || c == '\r'
}

/// A white-space character of Unicode.
pub open spec fn is_white(c: char) -> bool {
    let n = c as u32;
    ||| 0x9 <= n <= 0xd
    ||| n == 0x20
    ||| n == 0x85
    ||| n == 0xa0
    ||| n == 0x1680
    ||| 0x2000 <= n <= 0x200a
    ||| n == 0x2028
    ||| n == 0x2029
    ||| n == 0x202f
    ||| n == 0x205f
    ||| n == 0x3000
}

fn name_char(c: char) -> (r: bool)
    ensures
        r == is_name_char(c),
{
    ('a' <= c && c <= 'z') || ('A' <= c && c <= 'Z') || ('0' <= c && c <= '9') || c == '_' || c
        == '$'
}

fn blank(c: char) -> (r: bool)
    ensures
        r == is_blank(c),
{
    c == ' ' || c == '\t' || c == '\n' || c == '\u{c}' || c == '\r'
}

fn white(c: char) -> (r: bool)
    ensures
        r == is_white(c),
{
    let n: u32 = c as u32;
    (0x9 <= n && n <= 0xd) || n == 0x20 || n == 0x85 || n == 0xa0 || n == 0x1680 || (0x2000 <= n
        && n <= 0x200a) || n == 0x2028 || n == 0x2029 || n == 0x202f || n == 0x205f || n == 0x3000
}

// ---- Searching a text ----

/// The first position from `p` on that holds no blank.
pub open spec fn past_blanks(s: Seq<char>, p: int) -> int
    decreases s.len() - p,
{
    if 0 <= p < s.len() && is_blank(s[p]) {
        past_blanks(s, p + 1)
    } else {
        p
    }
}

/// The first position from `p` on that holds no character of a bare name.
pub open spec fn past_word(s: Seq<char>, p: int) -> int
    decreases s.len() - p,
{
    if 0 <= p < s.len() && is_name_char(s[p]) {
        past_word(s, p + 1)
    } else {
        p
    }
}

/// The position past the quote `q` that closes a name, from inside it. Two quotes in a row stand
/// for one. A name that is not closed goes to the end of the text.
pub open spec fn past_quoted(s: Seq<char>, q: char, p: int) -> int
    decreases s.len() - p,
{
    if p < 0 || p >= s.len() {
        p
    } else if s[p] == q {
        if p + 1 < s.len() && s[p + 1] == q {
            past_quoted(s, q, p + 2)
        } else {
            p + 1
        }
    } else {
        past_quoted(s, q, p + 1)
    }
}

/// A quote closes the name that the position is inside of.
pub open spec fn closed(s: Seq<char>, q: char, p: int) -> bool
    decreases s.len() - p,
{
    if p < 0 || p >= s.len() {
        false
    } else if s[p] == q {
        if p + 1 < s.len() && s[p + 1] == q {
            closed(s, q, p + 2)
        } else {
            true
        }
    } else {
        closed(s, q, p + 1)
    }
}

/// The text has the word `w` at position `p`.
pub open spec fn has_at(s: Seq<char>, w: Seq<char>, p: int) -> bool {
    0 <= p && p + w.len() <= s.len() && s.subrange(p, p + w.len()) == w
}

/// The first position from `p` on at which the text has `w`.
pub open spec fn first_at(s: Seq<char>, w: Seq<char>, p: int) -> Option<int>
    decreases s.len() - p,
{
    if p < 0 || p >= s.len() {
        None
    } else if has_at(s, w, p) {
        Some(p)
    } else {
        first_at(s, w, p + 1)
    }
}

/// The text has the keyword `w` at position `p`: no character of a bare name stands before it,
/// unless before `lo`, or after it.
pub open spec fn keyword_at(s: Seq<char>, w: Seq<char>, lo: int, p: int) -> bool {
    &&& has_at(s, w, p)
    &&& p == lo || !is_name_char(s[p - 1])
    &&& p + w.len() >= s.len() || !is_name_char(s[p + w.len() as int])
}

/// The first position from `p` on at which the text has the keyword `w`.
pub open spec fn keyword_from(s: Seq<char>, w: Seq<char>, lo: int, p: int) -> Option<int>
    decreases s.len() - p,
{
    if p < 0 || p >= s.len() {
        None
    } else if keyword_at(s, w, lo, p) {
        Some(p)
    } else {
        keyword_from(s, w, lo, p + 1)
    }
}

/// The search for no blank stays in the text.
pub proof fn lemma_past_blanks(s: Seq<char>, p: int)
    requires
        0 <= p <= s.len(),
    ensures
        p <= past_blanks(s, p) <= s.len(),
    decreases s.len() - p,
{
    if p < s.len() && is_blank(s[p]) {
        lemma_past_blanks(s, p + 1);
    }
}

/// The search for the end of a bare name stops at the first character that is no part of it.
pub proof fn lemma_past_word(s: Seq<char>, p: int)
    requires
        0 <= p <= s.len(),
    ensures
        p <= past_word(s, p) <= s.len(),
        past_word(s, p) < s.len() ==> !is_name_char(s[past_word(s, p)]),
        forall|i: int| p <= i < past_word(s, p) ==> is_name_char(#[trigger] s[i]),
    decreases s.len() - p,
{
    if p < s.len() && is_name_char(s[p]) {
        lemma_past_word(s, p + 1);
    }
}

/// The search for a closing quote stops behind it, or at the end of the text.
pub proof fn lemma_past_quoted(s: Seq<char>, q: char, p: int)
    requires
        0 <= p <= s.len(),
    ensures
        p <= past_quoted(s, q, p) <= s.len(),
        closed(s, q, p) ==> p < past_quoted(s, q, p) && s[past_quoted(s, q, p) - 1] == q,
        !closed(s, q, p) ==> past_quoted(s, q, p) == s.len(),
    decreases s.len() - p,
{
    if p < s.len() {
        if s[p] == q {
            if p + 1 < s.len() && s[p + 1] == q {
                lemma_past_quoted(s, q, p + 2);
            }
        } else {
            lemma_past_quoted(s, q, p + 1);
        }
    }
}

fn skip_whitespace(s: &Vec<char>, pos: usize) -> (r: usize)
    requires
        pos <= s@.len(),
    ensures
        r == past_blanks(s@, pos as int),
        pos <= r <= s@.len(),
{
    let mut p: usize = pos;
    while p < s.len() && blank(s[p])
        invariant
            pos <= p <= s@.len(),
            past_blanks(s@, p as int) == past_blanks(s@, pos as int),
        decreases s@.len() - p,
    {
        p = p + 1;
    }
    p
}

fn skip_word(s: &Vec<char>, pos: usize) -> (r: usize)
    requires
        pos <= s@.len(),
    ensures
        r == past_word(s@, pos as int),
        pos <= r <= s@.len(),
{
    let mut p: usize = pos;
    while p < s.len() && name_char(s[p])
        invariant
            pos <= p <= s@.len(),
            past_word(s@, p as int) == past_word(s@, pos as int),
        decreases s@.len() - p,
    {
        p = p + 1;
    }
    p
}

/// The position past a quoted name that starts at `pos`.
fn end_quoted(s: &Vec<char>, pos: usize, quote: char) -> (r: usize)
    requires
        pos < s@.len(),
    ensures
        r == past_quoted(s@, quote, pos + 1),
        pos < r <= s@.len(),
{
    let n: usize = s.len();
    let mut p: usize = pos + 1;
    while p < n
        invariant
            n == s@.len(),
            pos < p <= n,
            past_quoted(s@, quote, p as int) == past_quoted(s@, quote, pos + 1),
        decreases s@.len() - p,
    {
        if s[p] == quote {
            if p + 1 < n && s[p + 1] == quote {
                p = p + 2;
                continue;
            }
            return p + 1;
        }
        p = p + 1;
    }
    p
}

/// Whether the quoted name that starts at `pos` is closed.
fn is_closed(s: &Vec<char>, pos: usize, quote: char) -> (r: bool)
    requires
        pos < s@.len(),
    ensures
        r == closed(s@, quote, pos + 1),
{
    let n: usize = s.len();
    let mut p: usize = pos + 1;
    while p < n
        invariant
            n == s@.len(),
            pos < p <= n,
            closed(s@, quote, p as int) == closed(s@, quote, pos + 1),
        decreases s@.len() - p,
    {
        if s[p] == quote {
            if p + 1 < n && s[p + 1] == quote {
                p = p + 2;
                continue;
            }
            return true;
        }
        p = p + 1;
    }
    false
}

fn has_word(s: &Vec<char>, w: &Vec<char>, p: usize) -> (r: bool)
    requires
        p <= s@.len(),
    ensures
        r == has_at(s@, w@, p as int),
{
    if s.len() - p < w.len() {
        return false;
    }
    for i in 0..w.len()
        invariant
            p + w@.len() <= s@.len() <= usize::MAX,
            forall|j: int| 0 <= j < i ==> s@[p + j] == #[trigger] w@[j],
    {
        if s[p + i] != w[i] {
            assert(s@.subrange(p as int, p + w@.len())[i as int] != w@[i as int]);
            return false;
        }
    }
    assert(s@.subrange(p as int, p + w@.len()) =~= w@);
    true
}

fn find_word(s: &Vec<char>, w: &Vec<char>, from: usize) -> (r: Option<usize>)
    requires
        from <= s@.len(),
    ensures
        match r {
            Some(p) => first_at(s@, w@, from as int) == Some(p as int) && from <= p < s@.len()
                && p + w@.len() <= s@.len(),
            None => first_at(s@, w@, from as int) is None,
        },
{
    for p in from..s.len()
        invariant
            from <= s@.len(),
            first_at(s@, w@, p as int) == first_at(s@, w@, from as int),
    {
        if has_word(s, w, p) {
            return Some(p);
        }
    }
    None
}

/// The first place from `lo` on where the keyword `w` stands.
fn find_keyword(s: &Vec<char>, w: &Vec<char>, lo: usize) -> (r: Option<usize>)
    requires
        lo <= s@.len(),
    ensures
        match r {
            Some(p) => keyword_from(s@, w@, lo as int, lo as int) == Some(p as int) && lo <= p
                && p + w@.len() <= s@.len(),
            None => keyword_from(s@, w@, lo as int, lo as int) is None,
        },
{
    for p in lo..s.len()
        invariant
            lo <= s@.len() <= usize::MAX,
            keyword_from(s@, w@, lo as int, p as int) == keyword_from(
                s@,
                w@,
                lo as int,
                lo as int,
            ),
    {
        if has_word(s, w, p) {
            let before: bool = p == lo || !name_char(s[p - 1]);
            let after: usize = p + w.len();
            let behind: bool = after >= s.len() || !name_char(s[after]);
            if before && behind {
                return Some(p);
            }
        }
    }
    None
}

fn lower_chars(s: &Vec<char>) -> (r: Vec<char>)
    ensures
        r@ == lower_text(s@),
{
    let mut r: Vec<char> = Vec::new();
    for i in 0..s.len()
        invariant
            r@.len() == i,
            forall|j: int| 0 <= j < i ==> r@[j] == lower(s@[j]),
    {
        r.push(lower_char(s[i]));
    }
    assert(r@ =~= lower_text(s@));
    r
}

// ---- The head of a CREATE statement ----

/// The position past the words `TEMP`, `TEMPORARY` and `UNIQUE` from `p` on.
pub open spec fn past_options(s: Seq<char>, p: int) -> int
    decreases s.len() - p,
{
    if p < 0 || p > s.len() {
        p
    } else {
        proof {
            reveal_strlit("temporary");
            reveal_strlit("temp");
            reveal_strlit("unique");
            if has_at(s, "temporary"@, p) {
                lemma_past_blanks(s, p + "temporary"@.len());
            }
            if has_at(s, "temp"@, p) {
                lemma_past_blanks(s, p + "temp"@.len());
            }
            if has_at(s, "unique"@, p) {
                lemma_past_blanks(s, p + "unique"@.len());
            }
        }
        if has_at(s, "temporary"@, p) {
            past_options(s, past_blanks(s, p + "temporary"@.len()))
        } else if has_at(s, "temp"@, p) {
            past_options(s, past_blanks(s, p + "temp"@.len()))
        } else if has_at(s, "unique"@, p) {
            past_options(s, past_blanks(s, p + "unique"@.len()))
        } else {
            p
        }
    }
}

/// The position of the name of what a lower-case `CREATE` statement creates, if it creates a `kw`.
pub open spec fn created_at(s: Seq<char>, kw: Seq<char>) -> Option<int> {
    match first_at(s, "create"@, 0) {
        None => None,
        Some(start) => {
            let p = past_options(s, past_blanks(s, start + "create"@.len()));
            if !has_at(s, kw, p) {
                None
            } else {
                let p = past_blanks(s, p + kw.len());
                if has_at(s, "if not exists"@, p) {
                    Some(past_blanks(s, p + "if not exists"@.len()))
                } else {
                    Some(p)
                }
            }
        },
    }
}

fn skip_options(s: &Vec<char>, pos: usize) -> (r: usize)
    requires
        pos <= s@.len(),
    ensures
        r == past_options(s@, pos as int),
        pos <= r <= s@.len(),
{
    let temporary = chars_of("temporary");
    let temp = chars_of("temp");
    let unique = chars_of("unique");
    proof {
        reveal_strlit("temporary");
        reveal_strlit("temp");
        reveal_strlit("unique");
    }
    let n: usize = s.len();
    let mut p: usize = pos;
    loop
        invariant
            n == s@.len(),
            pos <= p <= n,
            temporary@ == "temporary"@,
            temp@ == "temp"@,
            unique@ == "unique"@,
            temporary@.len() > 0,
            temp@.len() > 0,
            unique@.len() > 0,
            past_options(s@, p as int) == past_options(s@, pos as int),
        decreases s@.len() - p,
    {
        if has_word(s, &temporary, p) {
            p = skip_whitespace(s, p + temporary.len());
        } else if has_word(s, &temp, p) {
            p = skip_whitespace(s, p + temp.len());
        } else if has_word(s, &unique, p) {
            p = skip_whitespace(s, p + unique.len());
        } else {
            return p;
        }
    }
}

/// The position of the name of what a lower-case `CREATE` statement creates.
fn strip_create_prefix(s: &Vec<char>, kw: &str) -> (r: Option<usize>)
    ensures
        match r {
            Some(p) => created_at(s@, kw@) == Some(p as int) && p <= s@.len(),
            None => created_at(s@, kw@) is None,
        },
{
    assert(s.len() == s@.len());
    let create = chars_of("create");
    let start: usize = match find_word(s, &create, 0) {
        Some(p) => p,
        None => {
            return None;
        },
    };
    let p: usize = skip_options(s, skip_whitespace(s, start + create.len()));
    let word = chars_of(kw);
    if !has_word(s, &word, p) {
        return None;
    }
    let p: usize = skip_whitespace(s, p + word.len());
    let guard = chars_of("if not exists");
    if has_word(s, &guard, p) {
        Some(skip_whitespace(s, p + guard.len()))
    } else {
        Some(p)
    }
}

// ---- Names ----

/// Each quote of a name doubled.
pub open spec fn doubled(s: Seq<char>, q: char) -> Seq<char>
    decreases s.len(),
{
    if s.len() == 0 {
        s
    } else if s[0] == q {
        seq![q, q] + doubled(s.skip(1), q)
    } else {
        seq![s[0]] + doubled(s.skip(1), q)
    }
}

/// Each pair of quotes made one, from left to right.
pub open spec fn undoubled(s: Seq<char>, q: char) -> Seq<char>
    decreases s.len(),
{
    if s.len() == 0 {
        s
    } else if s[0] == q && s.len() > 1 && s[1] == q {
        seq![q] + undoubled(s.skip(2), q)
    } else {
        seq![s[0]] + undoubled(s.skip(1), q)
    }
}

/// A name without its quotes. A name that is not quoted stays as it is.
pub open spec fn dequoted(s: Seq<char>) -> Seq<char> {
    if s.len() < 2 {
        s
    } else if (s[0] == '"' || s[0] == '`') && s.last() == s[0] {
        undoubled(s.subrange(1, s.len() - 1), s[0])
    } else if s[0] == '[' && s.last() == ']' {
        s.subrange(1, s.len() - 1)
    } else {
        s
    }
}

/// A name in quotes of the kind that `open` opens; bare if it opens none.
pub open spec fn enquoted(name: Seq<char>, open: char) -> Seq<char> {
    if open == '"' || open == '`' {
        seq![open] + doubled(name, open) + seq![open]
    } else if open == '[' {
        seq!['['] + name + seq![']']
    } else {
        name
    }
}

/// The position past the name at `p`; `None` for a bracket that is not closed.
pub open spec fn name_end(s: Seq<char>, p: int) -> Option<int> {
    if s[p] == '"' || s[p] == '`' {
        Some(past_quoted(s, s[p], p + 1))
    } else if s[p] == '[' {
        match first_at(s, "]"@, p + 1) {
            Some(e) => Some(e + 1),
            None => None,
        }
    } else {
        Some(past_word(s, p))
    }
}

/// The name at `p`, which ends before `e`, without its quotes.
pub open spec fn name_text(s: Seq<char>, p: int, e: int) -> Seq<char> {
    if s[p] == '"' || s[p] == '`' {
        undoubled(s.subrange(p + 1, e - 1), s[p])
    } else if s[p] == '[' {
        s.subrange(p + 1, e - 1)
    } else {
        s.subrange(p, e)
    }
}

/// The name at `p` is `name`: exactly if it is quoted, else up to case.
pub open spec fn names(s: Seq<char>, p: int, e: int, name: Seq<char>) -> bool {
    if s[p] == '"' || s[p] == '`' || s[p] == '[' {
        name_text(s, p, e) == name
    } else {
        eq_nocase(name_text(s, p, e), name)
    }
}

/// The text with the name at `p`, if it is `old`, replaced by `new`, in the same quotes. A name
/// whose quotes are not closed is no name.
pub open spec fn spliced(s: Seq<char>, p: int, old: Seq<char>, new: Seq<char>) -> Option<Seq<char>> {
    if p < 0 || p >= s.len() {
        None
    } else if (s[p] == '"' || s[p] == '`') && !closed(s, s[p], p + 1) {
        None
    } else {
        match name_end(s, p) {
            None => None,
            Some(e) => if names(s, p, e, old) {
                Some(s.subrange(0, p) + enquoted(new, s[p]) + s.subrange(e, s.len() as int))
            } else {
                None
            },
        }
    }
}

/// The position past the name at `p`, as far as there is one.
pub open spec fn past_name(s: Seq<char>, p: int) -> int {
    if p < 0 || p >= s.len() {
        p
    } else {
        match name_end(s, p) {
            Some(e) => e,
            None => p,
        }
    }
}

/// The position of the name after the keyword `ON` that follows the name at `p`.
pub open spec fn target_at(s: Seq<char>, p: int) -> Option<int> {
    match keyword_from(lower_text(s), "on"@, past_name(s, p), past_name(s, p)) {
        Some(k) => Some(past_blanks(s, k + "on"@.len())),
        None => None,
    }
}

/// The position of the table name in the text of a `CREATE TABLE`, `CREATE INDEX` or `CREATE
/// TRIGGER` statement.
pub open spec fn table_name_at(s: Seq<char>) -> Option<int> {
    match created_at(lower_text(s), "table"@) {
        Some(p) => Some(p),
        None => match created_at(lower_text(s), "index"@) {
            Some(p) => target_at(s, p),
            None => match created_at(lower_text(s), "trigger"@) {
                Some(p) => target_at(s, p),
                None => None,
            },
        },
    }
}

/// The text of a statement with the table name `old` replaced by `new`.
pub open spec fn renamed(s: Seq<char>, old: Seq<char>, new: Seq<char>) -> Option<Seq<char>> {
    match table_name_at(s) {
        Some(p) => spliced(s, p, old, new),
        None => None,
    }
}

/// Make each pair of quotes one, in the characters from `from` to `to`.
fn undouble(s: &Vec<char>, from: usize, to: usize, q: char) -> (r: String)
    requires
        from <= to <= s@.len(),
    ensures
        r@ == undoubled(s@.subrange(from as int, to as int), q),
{
    let ghost all = s@.subrange(from as int, to as int);
    let mut r: String = String::new();
    let mut k: usize = from;
    assert(all.skip(0) =~= all);
    assert(r@ + undoubled(all, q) =~= undoubled(all, q));
    while k < to
        invariant
            from <= k <= to <= s@.len(),
            all == s@.subrange(from as int, to as int),
            r@ + undoubled(all.skip(k - from), q) == undoubled(all, q),
        decreases to - k,
    {
        let ghost rest = all.skip(k - from);
        let ghost before = r@;
        assert(rest[0] == s@[k as int]);
        if s[k] == q && to - k > 1 && s[k + 1] == q {
            assert(rest[1] == s@[k + 1]);
            assert(rest.skip(2) =~= all.skip(k + 2 - from));
            r.push(q);
            assert(r@ + undoubled(rest.skip(2), q) =~= before + (seq![q] + undoubled(
                rest.skip(2),
                q,
            )));
            k = k + 2;
        } else {
            assert(rest.len() > 1 ==> rest[1] == s@[k + 1]);
            assert(rest.skip(1) =~= all.skip(k + 1 - from));
            r.push(s[k]);
            assert(r@ + undoubled(rest.skip(1), q) =~= before + (seq![rest[0]] + undoubled(
                rest.skip(1),
                q,
            )));
            k = k + 1;
        }
    }
    assert(all.skip(to - from) =~= Seq::empty());
    assert(r@ + Seq::<char>::empty() =~= r@);
    r
}

/// Double each quote of a name.
fn double(name: &str, q: char) -> (r: String)
    ensures
        r@ == doubled(name@, q),
{
    let v = chars_of(name);
    let mut r: String = String::new();
    assert(name@.skip(0) =~= name@);
    assert(r@ + doubled(name@, q) =~= doubled(name@, q));
    for k in 0..v.len()
        invariant
            v@ == name@,
            r@ + doubled(name@.skip(k as int), q) == doubled(name@, q),
    {
        let ghost rest = name@.skip(k as int);
        let ghost before = r@;
        assert(rest[0] == v@[k as int]);
        assert(rest.skip(1) =~= name@.skip(k + 1));
        if v[k] == q {
            r.push(q);
            r.push(q);
            assert(r@ + doubled(rest.skip(1), q) =~= before + (seq![q, q] + doubled(
                rest.skip(1),
                q,
            )));
        } else {
            r.push(v[k]);
            assert(r@ + doubled(rest.skip(1), q) =~= before + (seq![rest[0]] + doubled(
                rest.skip(1),
                q,
            )));
        }
    }
    assert(name@.skip(name@.len() as int) =~= Seq::empty());
    assert(r@ + Seq::<char>::empty() =~= r@);
    r
}

/// Take a name out of its quotes: `"..."`, `` `...` `` or `[...]`. A name that is not quoted stays
/// as it is.
pub fn dequote_ident(s: &str) -> (r: String)
    ensures
        r@ == dequoted(s@),
{
    let v = chars_of(s);
    let n: usize = v.len();
    if n < 2 {
        return owned(s);
    }
    let open: char = v[0];
    let last: char = v[n - 1];
    if open == '"' || open == '`' {
        if last == open {
            return undouble(&v, 1, n - 1, open);
        }
    } else if open == '[' {
        if last == ']' {
            return string_of(&v, 1, n - 1);
        }
    }
    owned(s)
}

/// Put a name in quotes of the kind that `open` opens.
fn enquote(name: &str, open: char) -> (r: String)
    ensures
        r@ == enquoted(name@, open),
{
    let mut r: String = String::new();
    if open == '"' || open == '`' {
        r.push(open);
        r.append(double(name, open).as_str());
        r.push(open);
        assert(r@ =~= enquoted(name@, open));
    } else if open == '[' {
        r.push('[');
        r.append(name);
        r.push(']');
        assert(r@ =~= enquoted(name@, open));
    } else {
        r.append(name);
        assert(r@ =~= name@);
    }
    r
}

/// The position past the name at `pos`; `None` for a bracket that is not closed.
fn end_of_name(s: &Vec<char>, pos: usize) -> (r: Option<usize>)
    requires
        pos < s@.len(),
    ensures
        match r {
            Some(e) => name_end(s@, pos as int) == Some(e as int) && pos <= e <= s@.len(),
            None => name_end(s@, pos as int) is None,
        },
        r matches Some(e) ==> s@[pos as int] == '[' ==> pos + 1 < e,
{
    assert(s.len() == s@.len());
    let c: char = s[pos];
    if c == '"' || c == '`' {
        Some(end_quoted(s, pos, c))
    } else if c == '[' {
        let close = chars_of("]");
        proof {
            reveal_strlit("]");
        }
        match find_word(s, &close, pos + 1) {
            Some(e) => Some(e + 1),
            None => None,
        }
    } else {
        Some(skip_word(s, pos))
    }
}

/// The position past the name at `pos`, as far as there is one.
fn skip_identifier(s: &Vec<char>, pos: usize) -> (r: usize)
    requires
        pos <= s@.len(),
    ensures
        r == past_name(s@, pos as int),
        r <= s@.len(),
{
    if pos >= s.len() {
        return pos;
    }
    match end_of_name(s, pos) {
        Some(e) => e,
        None => pos,
    }
}

/// Replace the name at `pos`, if it is `old`, by `new`.
fn splice_identifier(s: &Vec<char>, pos: usize, old: &str, new: &str) -> (r: Option<String>)
    requires
        pos <= s@.len(),
    ensures
        opt_name_view(r) == spliced(s@, pos as int, old@, new@),
{
    if pos >= s.len() {
        return None;
    }
    let end: usize = match end_of_name(s, pos) {
        Some(e) => e,
        None => {
            return None;
        },
    };
    let open: char = s[pos];
    if open == '"' || open == '`' {
        if !is_closed(s, pos, open) {
            return None;
        }
        proof {
            lemma_past_quoted(s@, open, pos + 1);
            assert(pos + 1 < end);
        }
        let text = undouble(s, pos + 1, end - 1, open);
        if !same_text(&text, &owned(old)) {
            return None;
        }
    } else if open == '[' {
        let text = string_of(s, pos + 1, end - 1);
        if !same_text(&text, &owned(old)) {
            return None;
        }
    } else {
        let text = string_of(s, pos, end);
        if !eq_ignore_case(text.as_str(), old) {
            return None;
        }
    }
    let head = string_of(s, 0, pos);
    let tail = string_of(s, end, s.len());
    Some(cat3(head.as_str(), enquote(new, open).as_str(), tail.as_str()))
}

/// The position of the name after the keyword `ON` that follows the name at `pos`.
fn find_target(s: &Vec<char>, low: &Vec<char>, pos: usize) -> (r: Option<usize>)
    requires
        pos <= s@.len(),
        low@ == lower_text(s@),
    ensures
        match r {
            Some(p) => target_at(s@, pos as int) == Some(p as int) && p <= s@.len(),
            None => target_at(s@, pos as int) is None,
        },
{
    let after: usize = skip_identifier(s, pos);
    let on = chars_of("on");
    assert(low.len() == low@.len());
    match find_keyword(low, &on, after) {
        Some(k) => Some(skip_whitespace(s, k + on.len())),
        None => None,
    }
}

fn find_table_name(s: &Vec<char>) -> (r: Option<usize>)
    ensures
        match r {
            Some(p) => table_name_at(s@) == Some(p as int) && p <= s@.len(),
            None => table_name_at(s@) is None,
        },
{
    let low = lower_chars(s);
    if let Some(p) = strip_create_prefix(&low, "table") {
        return Some(p);
    }
    if let Some(p) = strip_create_prefix(&low, "index") {
        return find_target(s, &low, p);
    }
    if let Some(p) = strip_create_prefix(&low, "trigger") {
        return find_target(s, &low, p);
    }
    None
}

/// Replace the table name `old` by `new` in the text of a `CREATE TABLE`, `CREATE INDEX` or
/// `CREATE TRIGGER` statement, in the quotes that it stands in. `None` if the statement does not
/// name that table. Both names are given without quotes.
pub fn rewrite_table_name_in_sql(sql: &str, old: &str, new: &str) -> (r: Option<String>)
    ensures
        opt_name_view(r) == renamed(sql@, old@, new@),
{
    let s = chars_of(sql);
    match find_table_name(&s) {
        Some(p) => splice_identifier(&s, p, old, new),
        None => None,
    }
}

// ---- A column added to the text of a table ----

/// The text without the white space at its end.
pub open spec fn trimmed_end(s: Seq<char>) -> Seq<char>
    decreases s.len(),
{
    if s.len() > 0 && is_white(s.last()) {
        trimmed_end(s.drop_last())
    } else {
        s
    }
}

/// The text without the white space at its start.
pub open spec fn trimmed_start(s: Seq<char>) -> Seq<char>
    decreases s.len(),
{
    if s.len() > 0 && is_white(s[0]) {
        trimmed_start(s.skip(1))
    } else {
        s
    }
}

/// The text without the white space at either end.
pub open spec fn trimmed(s: Seq<char>) -> Seq<char> {
    trimmed_end(trimmed_start(s))
}

/// The end of the part from `from` to `to` without the white space at its end.
fn trim_end(s: &Vec<char>, from: usize, to: usize) -> (r: usize)
    requires
        from <= to <= s@.len(),
    ensures
        from <= r <= to,
        s@.subrange(from as int, r as int) == trimmed_end(s@.subrange(from as int, to as int)),
{
    let mut e: usize = to;
    while e > from && white(s[e - 1])
        invariant
            from <= e <= to <= s@.len(),
            trimmed_end(s@.subrange(from as int, e as int)) == trimmed_end(
                s@.subrange(from as int, to as int),
            ),
        decreases e,
    {
        assert(s@.subrange(from as int, e as int).drop_last() =~= s@.subrange(from as int, e - 1));
        e = e - 1;
    }
    e
}

/// The start of the part from `from` to `to` without the white space at its start.
fn trim_start(s: &Vec<char>, from: usize, to: usize) -> (r: usize)
    requires
        from <= to <= s@.len(),
    ensures
        from <= r <= to,
        s@.subrange(r as int, to as int) == trimmed_start(s@.subrange(from as int, to as int)),
{
    let mut p: usize = from;
    while p < to && white(s[p])
        invariant
            from <= p <= to <= s@.len(),
            trimmed_start(s@.subrange(p as int, to as int)) == trimmed_start(
                s@.subrange(from as int, to as int),
            ),
        decreases to - p,
    {
        assert(s@.subrange(p as int, to as int).skip(1) =~= s@.subrange(p + 1, to as int));
        p = p + 1;
    }
    p
}

/// The position of the parenthesis that closes the last open one, from `i` on, where `depth` are
/// open, inside a string in quotes `q` if there is one. Two quotes in a row inside a string stand
/// for one.
pub open spec fn closing(s: Seq<char>, i: int, depth: int, q: Option<char>) -> Option<int>
    decreases s.len() - i,
{
    if i < 0 || i >= s.len() {
        None
    } else {
        match q {
            Some(c) => if s[i] == c {
                if i + 1 < s.len() && s[i + 1] == c {
                    closing(s, i + 2, depth, q)
                } else {
                    closing(s, i + 1, depth, None)
                }
            } else {
                closing(s, i + 1, depth, q)
            },
            None => if s[i] == '\'' || s[i] == '"' {
                closing(s, i + 1, depth, Some(s[i]))
            } else if s[i] == '(' {
                closing(s, i + 1, depth + 1, None)
            } else if s[i] == ')' {
                if depth == 1 {
                    Some(i)
                } else {
                    closing(s, i + 1, depth - 1, None)
                }
            } else {
                closing(s, i + 1, depth, None)
            },
        }
    }
}

/// The position of the parenthesis that closes the column list of a `CREATE TABLE` statement.
pub open spec fn columns_end(s: Seq<char>) -> Option<int> {
    match created_at(lower_text(s), "table"@) {
        None => None,
        Some(p) => {
            let q = past_blanks(s, past_name(s, p));
            if q >= s.len() || s[q] != '(' {
                None
            } else {
                closing(s, q, 0, None)
            }
        },
    }
}

/// The text of a `CREATE TABLE` statement with one more column.
pub open spec fn with_column(s: Seq<char>, def: Seq<char>) -> Option<Seq<char>> {
    match columns_end(s) {
        None => None,
        Some(i) => Some(trimmed_end(s.subrange(0, i)) + ", "@ + def + s.subrange(i, s.len() as int)),
    }
}

fn find_closing(s: &Vec<char>, open: usize) -> (r: Option<usize>)
    requires
        open < s@.len(),
        s@[open as int] == '(',
    ensures
        match r {
            Some(i) => closing(s@, open as int, 0, None) == Some(i as int) && i < s@.len(),
            None => closing(s@, open as int, 0, None) is None,
        },
{
    let n: usize = s.len();
    let mut depth: usize = 1;
    let mut i: usize = open + 1;
    let mut quote: Option<char> = None;
    while i < n
        invariant
            open < i <= n,
            n == s@.len(),
            1 <= depth <= i,
            closing(s@, i as int, depth as int, quote) == closing(s@, open as int, 0, None),
        decreases n - i,
    {
        let c: char = s[i];
        match quote {
            Some(q) => {
                if c == q {
                    if i + 1 < n && s[i + 1] == q {
                        i = i + 2;
                        continue;
                    }
                    quote = None;
                }
            },
            None => {
                if c == '\'' || c == '"' {
                    quote = Some(c);
                } else if c == '(' {
                    depth = depth + 1;
                } else if c == ')' {
                    if depth == 1 {
                        return Some(i);
                    }
                    depth = depth - 1;
                }
            },
        }
        i = i + 1;
    }
    None
}

/// Add a column definition to the text of a `CREATE TABLE` statement, at the end of its column
/// list. `None` if the list is not found.
pub fn splice_column_into_create_table(create_sql: &str, col_def_text: &str) -> (r: Option<String>)
    ensures
        opt_name_view(r) == with_column(create_sql@, col_def_text@),
{
    let s = chars_of(create_sql);
    let low = lower_chars(&s);
    let p: usize = match strip_create_prefix(&low, "table") {
        Some(p) => p,
        None => {
            return None;
        },
    };
    let open: usize = skip_whitespace(&s, skip_identifier(&s, p));
    if open >= s.len() || s[open] != '(' {
        return None;
    }
    match find_closing(&s, open) {
        Some(i) => {
            let e: usize = trim_end(&s, 0, i);
            let mut out: String = string_of(&s, 0, e);
            out.append(", ");
            out.append(col_def_text);
            out.append(string_of(&s, i, s.len()).as_str());
            Some(out)
        },
        None => None,
    }
}

/// The text without a semicolon at its end.
pub open spec fn without_semicolon(s: Seq<char>) -> Seq<char> {
    if s.len() > 0 && s.last() == ';' {
        s.drop_last()
    } else {
        s
    }
}

/// The column definition of an `ALTER TABLE ... ADD [COLUMN] ...` statement.
pub open spec fn added_column(s: Seq<char>) -> Option<Seq<char>> {
    match keyword_from(lower_text(s), "add"@, 0, 0) {
        None => None,
        Some(k) => {
            let p = past_blanks(s, k + "add"@.len());
            let p = if keyword_at(lower_text(s), "column"@, p, p) {
                past_blanks(s, p + "column"@.len())
            } else {
                p
            };
            let def = trimmed(without_semicolon(trimmed(s.subrange(p, s.len() as int))));
            if def.len() == 0 {
                None
            } else {
                Some(def)
            }
        },
    }
}

/// The part from `from` to `to` without the white space at either end.
fn trim(s: &Vec<char>, from: usize, to: usize) -> (r: (usize, usize))
    requires
        from <= to <= s@.len(),
    ensures
        from <= r.0 <= r.1 <= to,
        s@.subrange(r.0 as int, r.1 as int) == trimmed(s@.subrange(from as int, to as int)),
{
    let p: usize = trim_start(s, from, to);
    let e: usize = trim_end(s, p, to);
    (p, e)
}

/// The column definition of an `ALTER TABLE ... ADD [COLUMN] ...` statement, as it is written.
/// `None` if there is none.
pub fn extract_add_column_text(alter_sql: &str) -> (r: Option<String>)
    ensures
        opt_name_view(r) == added_column(alter_sql@),
{
    let s = chars_of(alter_sql);
    let low = lower_chars(&s);
    assert(low.len() == low@.len());
    let add = chars_of("add");
    let k: usize = match find_keyword(&low, &add, 0) {
        Some(k) => k,
        None => {
            return None;
        },
    };
    let mut p: usize = skip_whitespace(&s, k + add.len());
    let column = chars_of("column");
    if has_word(&low, &column, p) {
        let after: usize = p + column.len();
        if after >= low.len() || !name_char(low[after]) {
            p = skip_whitespace(&s, after);
        }
    }
    let ghost rest = s@.subrange(p as int, s@.len() as int);
    let (from, to): (usize, usize) = trim(&s, p, s.len());
    let ghost once = s@.subrange(from as int, to as int);
    let end: usize = if from < to && s[to - 1] == ';' {
        to - 1
    } else {
        to
    };
    assert(s@.subrange(from as int, end as int) =~= without_semicolon(once));
    let (from, to): (usize, usize) = trim(&s, from, end);
    if from == to {
        None
    } else {
        Some(string_of(&s, from, to))
    }
}

// ---- Laws of quoting and renaming ----

/// Doubling the quotes of a name and making each pair one again gives the name back.
pub proof fn law_doubling_undone(s: Seq<char>, q: char)
    ensures
        undoubled(doubled(s, q), q) == s,
    decreases s.len(),
{
    if s.len() > 0 {
        let d = doubled(s.skip(1), q);
        law_doubling_undone(s.skip(1), q);
        if s[0] == q {
            assert((seq![q, q] + d).skip(2) =~= d);
            assert(seq![q] + s.skip(1) =~= s);
        } else {
            assert((seq![s[0]] + d).skip(1) =~= d);
            assert(seq![s[0]] + s.skip(1) =~= s);
        }
    }
}

/// A name put in quotes and taken out of them again is the same name.
pub proof fn law_dequoting_undoes_quoting(name: Seq<char>, open: char)
    requires
        open == '"' || open == '`' || open == '[',
    ensures
        dequoted(enquoted(name, open)) == name,
{
    let s = enquoted(name, open);
    if open == '[' {
        assert(s.subrange(1, s.len() - 1) =~= name);
    } else {
        law_doubling_undone(name, open);
        assert(s.subrange(1, s.len() - 1) =~= doubled(name, open));
    }
}

/// A quoted name ends where its closing quote stands.
proof fn lemma_quoted_end(head: Seq<char>, name: Seq<char>, tail: Seq<char>, q: char)
    requires
        tail.len() > 0 ==> tail[0] != q,
    ensures
        past_quoted(head + doubled(name, q) + seq![q] + tail, q, head.len() as int) == head.len()
            + doubled(name, q).len() + 1,
        closed(head + doubled(name, q) + seq![q] + tail, q, head.len() as int),
    decreases name.len(),
{
    let s = head + doubled(name, q) + seq![q] + tail;
    let p = head.len() as int;
    if name.len() == 0 {
        assert(s[p] == q);
        if p + 1 < s.len() {
            assert(s[p + 1] == tail[0]);
        }
    } else {
        let d = doubled(name.skip(1), q);
        if name[0] == q {
            let h2 = head + seq![q, q];
            lemma_quoted_end(h2, name.skip(1), tail, q);
            assert(s =~= h2 + d + seq![q] + tail);
            assert(s[p] == q && s[p + 1] == q);
        } else {
            let h2 = head + seq![name[0]];
            lemma_quoted_end(h2, name.skip(1), tail, q);
            assert(s =~= h2 + d + seq![q] + tail);
            assert(s[p] == name[0]);
        }
    }
}

proof fn lemma_word_end(s: Seq<char>, p: int, e: int)
    requires
        0 <= p <= e <= s.len(),
        forall|i: int| p <= i < e ==> is_name_char(#[trigger] s[i]),
        e < s.len() ==> !is_name_char(s[e]),
    ensures
        past_word(s, p) == e,
    decreases e - p,
{
    if p < e {
        assert(is_name_char(s[p]));
        lemma_word_end(s, p + 1, e);
    }
}

proof fn lemma_first_bracket(s: Seq<char>, p: int, e: int)
    requires
        0 <= p <= e < s.len(),
        forall|i: int| p <= i < e ==> #[trigger] s[i] != ']',
        s[e] == ']',
    ensures
        first_at(s, "]"@, p) == Some(e),
    decreases e - p,
{
    reveal_strlit("]");
    assert(s.subrange(p, p + 1)[0] == s[p]);
    if p < e {
        assert(s.subrange(p, p + 1) != "]"@);
        lemma_first_bracket(s, p + 1, e);
    } else {
        assert(s.subrange(p, p + 1) =~= "]"@);
    }
}

proof fn lemma_bracket_found(s: Seq<char>, p: int)
    requires
        0 <= p,
    ensures
        first_at(s, "]"@, p) matches Some(e) ==> p <= e < s.len() && s[e] == ']' && forall|i: int|
            p <= i < e ==> #[trigger] s[i] != ']',
    decreases s.len() - p,
{
    reveal_strlit("]");
    if p < s.len() {
        assert(s.subrange(p, p + 1)[0] == s[p]);
        if has_at(s, "]"@, p) {
            assert("]"@[0] == ']');
        } else {
            lemma_bracket_found(s, p + 1);
            if s[p] == ']' {
                assert(s.subrange(p, p + 1) =~= "]"@);
            }
        }
    }
}

/// The name can stand in the quotes that `open` opens: a bare name is a word, and no bracket
/// closes inside brackets.
pub open spec fn fits(name: Seq<char>, open: char) -> bool {
    if open == '"' || open == '`' {
        true
    } else if open == '[' {
        !name.contains(']')
    } else {
        name.len() > 0 && forall|i: int| 0 <= i < name.len() ==> is_name_char(#[trigger] name[i])
    }
}

/// A text in which a name was replaced has the new name in the place of the old one.
pub proof fn law_renaming_takes(s: Seq<char>, p: int, old: Seq<char>, new: Seq<char>)
    requires
        spliced(s, p, old, new) is Some,
        fits(new, s[p]),
    ensures
        ({
            let t = spliced(s, p, old, new)->0;
            let e = p + enquoted(new, s[p]).len();
            &&& name_end(t, p) == Some(e)
            &&& s[p] == '"' || s[p] == '`' ==> closed(t, s[p], p + 1)
            &&& name_text(t, p, e) == new
            &&& t.subrange(0, p) == s.subrange(0, p)
            &&& t.subrange(e, t.len() as int) == s.subrange(name_end(s, p)->0, s.len() as int)
        }),
{
    let t = spliced(s, p, old, new)->0;
    let open = s[p];
    let e0 = name_end(s, p)->0;
    let mid = enquoted(new, open);
    let e = p + mid.len();
    let head = s.subrange(0, p);
    if open == '"' || open == '`' {
        lemma_past_quoted(s, open, p + 1);
        lemma_after_quote(s, open, p + 1);
        let tail = s.subrange(e0, s.len() as int);
        lemma_quoted_end(head + seq![open], new, tail, open);
        assert(t =~= head + seq![open] + doubled(new, open) + seq![open] + tail);
        assert(t[p] == open);
        assert(t.subrange(p + 1, e - 1) =~= doubled(new, open));
        law_doubling_undone(new, open);
    } else if open == '[' {
        lemma_bracket_found(s, p + 1);
        assert(t[p] == '[');
        assert forall|i: int| p + 1 <= i < e - 1 implies #[trigger] t[i] != ']' by {
            assert(t[i] == new[i - p - 1]);
            assert(new.contains(new[i - p - 1]));
        }
        assert(t[e - 1] == ']');
        lemma_first_bracket(t, p + 1, e - 1);
        assert(t.subrange(p + 1, e - 1) =~= new);
    } else {
        lemma_past_word(s, p);
        assert(t[p] == new[0]);
        assert(is_name_char(new[0]));
        assert forall|i: int| p <= i < e implies is_name_char(#[trigger] t[i]) by {
            assert(t[i] == new[i - p]);
        }
        if e < t.len() {
            assert(t[e] == s[e0]);
        }
        lemma_word_end(t, p, e);
        assert(t.subrange(p, e) =~= new);
    }
    assert(t.subrange(0, p) =~= head);
    assert(t.subrange(e, t.len() as int) =~= s.subrange(e0, s.len() as int));
}

/// What follows a closed quoted name is not its quote.
proof fn lemma_after_quote(s: Seq<char>, q: char, p: int)
    requires
        0 <= p <= s.len(),
        closed(s, q, p),
    ensures
        past_quoted(s, q, p) < s.len() ==> s[past_quoted(s, q, p)] != q,
    decreases s.len() - p,
{
    if p < s.len() {
        if s[p] == q {
            if p + 1 < s.len() && s[p + 1] == q {
                lemma_after_quote(s, q, p + 2);
            }
        } else {
            lemma_after_quote(s, q, p + 1);
        }
    }
}

/// The inside of a closed quoted name is its name with the quotes doubled.
proof fn lemma_inside(s: Seq<char>, q: char, p: int)
    requires
        0 <= p <= s.len(),
        closed(s, q, p),
    ensures
        p < past_quoted(s, q, p) <= s.len(),
        doubled(undoubled(s.subrange(p, past_quoted(s, q, p) - 1), q), q) == s.subrange(
            p,
            past_quoted(s, q, p) - 1,
        ),
    decreases s.len() - p,
{
    let e = past_quoted(s, q, p);
    lemma_past_quoted(s, q, p);
    let x = s.subrange(p, e - 1);
    if s[p] == q {
        if p + 1 < s.len() && s[p + 1] == q {
            lemma_inside(s, q, p + 2);
            lemma_past_quoted(s, q, p + 2);
            let y = s.subrange(p + 2, e - 1);
            assert(x.skip(2) =~= y);
            let u = seq![q] + undoubled(y, q);
            assert(u.skip(1) =~= undoubled(y, q));
            assert(undoubled(x, q) == u);
            assert(x =~= seq![q, q] + y);
        } else {
            assert(x =~= Seq::empty());
        }
    } else {
        lemma_inside(s, q, p + 1);
        lemma_past_quoted(s, q, p + 1);
        let y = s.subrange(p + 1, e - 1);
        assert(x.skip(1) =~= y);
        let u = seq![s[p]] + undoubled(y, q);
        assert(u.skip(1) =~= undoubled(y, q));
        assert(undoubled(x, q) == u);
        assert(x =~= seq![s[p]] + y);
    }
}

/// Replacing the name at `p` and replacing it back gives the first text back, if the text spelled
/// the old name just so.
pub proof fn law_replacing_undone(s: Seq<char>, p: int, old: Seq<char>, new: Seq<char>)
    requires
        spliced(s, p, old, new) is Some,
        fits(new, s[p]),
        name_text(s, p, name_end(s, p)->0) == old,
    ensures
        spliced(spliced(s, p, old, new)->0, p, new, old) == Some(s),
{
    let t = spliced(s, p, old, new)->0;
    let open = s[p];
    let e0 = name_end(s, p)->0;
    let e = p + enquoted(new, open).len();
    law_renaming_takes(s, p, old, new);
    eq_nocase_equivalence(new, new, new);
    let tail = s.subrange(e0, s.len() as int);
    if open == '"' || open == '`' {
        lemma_inside(s, open, p + 1);
        lemma_past_quoted(s, open, p + 1);
        assert(t[p] == open);
        assert(enquoted(old, open) =~= s.subrange(p, e0));
    } else if open == '[' {
        lemma_bracket_found(s, p + 1);
        assert(t[p] == '[');
        assert(enquoted(old, open) =~= s.subrange(p, e0));
    } else {
        lemma_past_word(s, p);
        assert(t[p] == new[0]);
        assert(is_name_char(new[0]));
        assert(enquoted(old, t[p]) == old);
    }
    assert(s =~= s.subrange(0, p) + s.subrange(p, e0) + tail);
}

// ---- Renaming back ----

/// The two texts are the same up to position `p`.
pub open spec fn alike(a: Seq<char>, b: Seq<char>, p: int) -> bool {
    0 <= p <= a.len() && p <= b.len() && forall|i: int| 0 <= i < p ==> #[trigger] a[i] == b[i]
}

proof fn lemma_alike_has(a: Seq<char>, b: Seq<char>, p: int, w: Seq<char>, q: int)
    requires
        alike(a, b, p),
        q + w.len() <= p,
    ensures
        has_at(a, w, q) == has_at(b, w, q),
{
    if 0 <= q {
        assert(a.subrange(q, q + w.len()) =~= b.subrange(q, q + w.len()));
    }
}

proof fn lemma_alike_first(a: Seq<char>, b: Seq<char>, p: int, w: Seq<char>, q: int)
    requires
        alike(a, b, p),
        w.len() > 0,
        0 <= q,
        first_at(a, w, q) matches Some(x) && x + w.len() <= p,
    ensures
        first_at(b, w, q) == first_at(a, w, q),
        q <= first_at(a, w, q)->0,
        has_at(a, w, first_at(a, w, q)->0),
    decreases a.len() - q,
{
    if !has_at(a, w, q) {
        lemma_alike_first(a, b, p, w, q + 1);
    }
    lemma_alike_has(a, b, p, w, q);
}

proof fn lemma_alike_blanks(a: Seq<char>, b: Seq<char>, p: int, q: int)
    requires
        alike(a, b, p),
        0 <= q,
        past_blanks(a, q) <= p,
        past_blanks(a, q) == p ==> p < b.len() && !is_blank(b[p]),
    ensures
        past_blanks(b, q) == past_blanks(a, q),
        q <= past_blanks(a, q),
    decreases a.len() - q,
{
    if q < a.len() && is_blank(a[q]) {
        lemma_past_blanks(a, q + 1);
        lemma_alike_blanks(a, b, p, q + 1);
    }
}

proof fn lemma_past_options(s: Seq<char>, p: int)
    requires
        0 <= p <= s.len(),
    ensures
        p <= past_options(s, p) <= s.len(),
    decreases s.len() - p,
{
    reveal_strlit("temporary");
    reveal_strlit("temp");
    reveal_strlit("unique");
    if has_at(s, "temporary"@, p) {
        lemma_past_blanks(s, p + 9);
        lemma_past_options(s, past_blanks(s, p + 9));
    } else if has_at(s, "temp"@, p) {
        lemma_past_blanks(s, p + 4);
        lemma_past_options(s, past_blanks(s, p + 4));
    } else if has_at(s, "unique"@, p) {
        lemma_past_blanks(s, p + 6);
        lemma_past_options(s, past_blanks(s, p + 6));
    }
}

/// A kind of object, which no option is spelled like.
spec fn kind_word(kw: Seq<char>) -> bool {
    kw.len() >= 5 && kw[0] != 'u' && kw[1] != 'e'
}

proof fn lemma_no_option(s: Seq<char>, kw: Seq<char>, p: int)
    requires
        kind_word(kw),
        has_at(s, kw, p),
    ensures
        past_options(s, p) == p,
{
    reveal_strlit("temporary");
    reveal_strlit("temp");
    reveal_strlit("unique");
    assert(s.subrange(p, p + kw.len())[0] == s[p]);
    assert(s.subrange(p, p + kw.len())[1] == s[p + 1]);
    if has_at(s, "temporary"@, p) {
        assert(s.subrange(p, p + 9)[1] == s[p + 1]);
    }
    if has_at(s, "temp"@, p) {
        assert(s.subrange(p, p + 4)[1] == s[p + 1]);
    }
    if has_at(s, "unique"@, p) {
        assert(s.subrange(p, p + 6)[0] == s[p]);
    }
}

proof fn lemma_alike_options(a: Seq<char>, b: Seq<char>, p: int, kw: Seq<char>, q: int)
    requires
        alike(a, b, p),
        0 <= q <= a.len(),
        kind_word(kw),
        has_at(a, kw, past_options(a, q)),
        past_options(a, q) + kw.len() <= p,
    ensures
        past_options(b, q) == past_options(a, q),
        has_at(b, kw, past_options(a, q)),
        q <= past_options(a, q),
    decreases a.len() - q,
{
    reveal_strlit("temporary");
    reveal_strlit("temp");
    reveal_strlit("unique");
    let r = past_options(a, q);
    lemma_past_options(a, q);
    lemma_alike_has(a, b, p, kw, r);
    if q == r {
        lemma_no_option(a, kw, q);
        lemma_no_option(b, kw, q);
    } else {
        let n: int = if has_at(a, "temporary"@, q) {
            9
        } else if has_at(a, "temp"@, q) {
            4
        } else {
            6
        };
        let next = past_blanks(a, q + n);
        lemma_past_blanks(a, q + n);
        lemma_past_options(a, next);
        lemma_alike_has(a, b, p, "temporary"@, q);
        lemma_alike_has(a, b, p, "temp"@, q);
        lemma_alike_has(a, b, p, "unique"@, q);
        lemma_alike_blanks(a, b, p, q + n);
        lemma_alike_options(a, b, p, kw, next);
    }
}

/// The position behind the kind of what a lower-case `CREATE` statement creates, if it is `kw`.
pub open spec fn kind_end(s: Seq<char>, kw: Seq<char>) -> Option<int> {
    match first_at(s, "create"@, 0) {
        None => None,
        Some(start) => {
            let p = past_options(s, past_blanks(s, start + "create"@.len()));
            if has_at(s, kw, p) {
                Some(past_blanks(s, p + kw.len()))
            } else {
                None
            }
        },
    }
}

/// The statement says `IF NOT EXISTS` before the name of the `kw` that it creates.
pub open spec fn guarded(s: Seq<char>, kw: Seq<char>) -> bool {
    kind_end(s, kw) matches Some(p) && has_at(s, "if not exists"@, p)
}

proof fn lemma_alike_kind(a: Seq<char>, b: Seq<char>, p: int, kw: Seq<char>)
    requires
        alike(a, b, p),
        p < b.len() && !is_blank(b[p]),
        kind_word(kw),
        kind_end(a, kw) matches Some(q) && q <= p,
    ensures
        kind_end(b, kw) == kind_end(a, kw),
        0 <= kind_end(a, kw)->0,
        forall|other: Seq<char>|
            kind_word(other) && other[1] != kw[1] ==> #[trigger] kind_end(a, other) is None
                && kind_end(b, other) is None,
{
    reveal_strlit("create");
    let start = first_at(a, "create"@, 0)->0;
    lemma_first_is(a, "create"@, 0);
    let q0 = past_blanks(a, start + 6);
    lemma_past_blanks(a, start + 6);
    let r = past_options(a, q0);
    lemma_past_options(a, q0);
    lemma_past_blanks(a, r + kw.len());
    lemma_alike_first(a, b, p, "create"@, 0);
    lemma_alike_blanks(a, b, p, start + 6);
    lemma_alike_options(a, b, p, kw, q0);
    lemma_alike_blanks(a, b, p, r + kw.len());
    assert forall|other: Seq<char>|
        kind_word(other) && other[1] != kw[1] implies #[trigger] kind_end(a, other) is None
        && kind_end(b, other) is None by {
        assert(a.subrange(r, r + kw.len())[1] == a[r + 1]);
        assert(b.subrange(r, r + kw.len())[1] == b[r + 1]);
        if has_at(a, other, r) {
            assert(a.subrange(r, r + other.len())[1] == a[r + 1]);
        }
        if has_at(b, other, r) {
            assert(b.subrange(r, r + other.len())[1] == b[r + 1]);
        }
    }
}

proof fn lemma_first_is(s: Seq<char>, w: Seq<char>, q: int)
    requires
        0 <= q,
    ensures
        first_at(s, w, q) matches Some(x) ==> q <= x && has_at(s, w, x),
    decreases s.len() - q,
{
    if q < s.len() && !has_at(s, w, q) {
        lemma_first_is(s, w, q + 1);
    }
}

proof fn lemma_alike_created(a: Seq<char>, b: Seq<char>, p: int, kw: Seq<char>)
    requires
        alike(a, b, p),
        p < b.len() && !is_blank(b[p]),
        kind_word(kw),
        created_at(a, kw) matches Some(q) && q <= p,
        guarded(a, kw) == guarded(b, kw),
    ensures
        created_at(b, kw) == created_at(a, kw),
        0 <= created_at(a, kw)->0,
        forall|other: Seq<char>|
            kind_word(other) && other[1] != kw[1] ==> #[trigger] created_at(b, other) is None,
{
    reveal_strlit("if not exists");
    reveal_strlit("create");
    let k = kind_end(a, kw)->0;
    lemma_first_is(a, "create"@, 0);
    let start = first_at(a, "create"@, 0)->0;
    lemma_past_blanks(a, start + 6);
    lemma_past_options(a, past_blanks(a, start + 6));
    lemma_past_blanks(a, past_options(a, past_blanks(a, start + 6)) + kw.len());
    if guarded(a, kw) {
        lemma_past_blanks(a, k + 13);
    }
    lemma_alike_kind(a, b, p, kw);
    if guarded(a, kw) {
        lemma_alike_blanks(a, b, p, k + 13);
    }
    assert forall|other: Seq<char>| kind_word(other) && other[1] != kw[1] implies
        #[trigger] created_at(b, other) is None by {
        assert(kind_end(a, other) is None && kind_end(b, other) is None);
    }
}

proof fn lemma_alike_quoted(a: Seq<char>, b: Seq<char>, p: int, q: char, x: int)
    requires
        alike(a, b, p),
        0 <= x,
        past_quoted(a, q, x) < p,
    ensures
        past_quoted(b, q, x) == past_quoted(a, q, x),
    decreases a.len() - x,
{
    if x < a.len() {
        if a[x] == q {
            if x + 1 < a.len() && a[x + 1] == q {
                lemma_past_quoted(a, q, x + 2);
                lemma_alike_quoted(a, b, p, q, x + 2);
            }
        } else {
            lemma_past_quoted(a, q, x + 1);
            lemma_alike_quoted(a, b, p, q, x + 1);
        }
    }
}

proof fn lemma_alike_keyword(a: Seq<char>, b: Seq<char>, p: int, w: Seq<char>, lo: int, x: int)
    requires
        alike(a, b, p),
        w.len() > 0,
        0 <= lo <= x,
        keyword_from(a, w, lo, x) matches Some(k) && k + w.len() <= p && (k + w.len() == p ==> p
            < b.len() && !is_name_char(b[p])),
    ensures
        keyword_from(b, w, lo, x) == keyword_from(a, w, lo, x),
        x <= keyword_from(a, w, lo, x)->0,
        has_at(a, w, keyword_from(a, w, lo, x)->0),
    decreases a.len() - x,
{
    if !keyword_at(a, w, lo, x) {
        lemma_alike_keyword(a, b, p, w, lo, x + 1);
    }
    lemma_alike_has(a, b, p, w, x);
}

proof fn lemma_no_bracket(s: Seq<char>, p: int)
    requires
        0 <= p,
        forall|i: int| p <= i < s.len() ==> #[trigger] s[i] != ']',
    ensures
        first_at(s, "]"@, p) is None,
    decreases s.len() - p,
{
    reveal_strlit("]");
    if p < s.len() {
        assert(s.subrange(p, p + 1)[0] == s[p]);
        lemma_no_bracket(s, p + 1);
    }
}

proof fn lemma_bracket_missing(s: Seq<char>, p: int)
    requires
        0 <= p,
        first_at(s, "]"@, p) is None,
    ensures
        forall|i: int| p <= i < s.len() ==> #[trigger] s[i] != ']',
    decreases s.len() - p,
{
    reveal_strlit("]");
    if p < s.len() {
        assert(s.subrange(p, p + 1)[0] == s[p]);
        if s[p] == ']' {
            assert(s.subrange(p, p + 1) =~= "]"@);
        }
        lemma_bracket_missing(s, p + 1);
    }
}

proof fn lemma_doubled_chars(s: Seq<char>, q: char, c: char)
    requires
        c != q,
        !s.contains(c),
    ensures
        !doubled(s, q).contains(c),
    decreases s.len(),
{
    if s.len() > 0 {
        assert(s.contains(s[0]));
        if s.skip(1).contains(c) {
            let i = choose|i: int| 0 <= i < s.skip(1).len() && s.skip(1)[i] == c;
            assert(s[i + 1] == c);
        }
        lemma_doubled_chars(s.skip(1), q, c);
        let d = doubled(s.skip(1), q);
        let all = doubled(s, q);
        if all.contains(c) {
            let i = choose|i: int| 0 <= i < all.len() && all[i] == c;
            let n: int = if s[0] == q {
                2
            } else {
                1
            };
            if i >= n {
                assert(all[i] == d[i - n]);
                assert(d.contains(c));
            }
        }
    }
}

/// The name of the index or trigger that the statement creates is opened by a bracket that
/// nothing closes.
pub open spec fn torn(s: Seq<char>) -> bool {
    let at = match created_at(lower_text(s), "index"@) {
        Some(p) => Some(p),
        None => created_at(lower_text(s), "trigger"@),
    };
    at matches Some(p) && 0 <= p < s.len() && s[p] == '[' && name_end(s, p) is None
}

proof fn lemma_alike_target(
    s: Seq<char>,
    p: int,
    at: int,
    old: Seq<char>,
    new: Seq<char>,
)
    requires
        0 <= at,
        target_at(s, at) == Some(p),
        spliced(s, p, old, new) is Some,
        fits(old, s[p]),
        fits(new, s[p]),
        name_text(s, p, name_end(s, p)->0) == old,
        at < s.len() && s[at] == '[' && name_end(s, at) is None ==> !new.contains(']'),
    ensures
        at <= past_name(s, at) < p,
        target_at(spliced(s, p, old, new)->0, at) == Some(p),
{
    reveal_strlit("on");
    let t = spliced(s, p, old, new)->0;
    let after = past_name(s, at);
    let k = keyword_from(lower_text(s), "on"@, after, after)->0;
    law_renaming_takes(s, p, old, new);
    lemma_spliced_alike(s, p, old, new);
    if at < s.len() {
        lemma_past_word(s, at);
        lemma_past_quoted(s, s[at], at + 1);
        lemma_bracket_found(s, at + 1);
    }
    lemma_keyword_is(lower_text(s), "on"@, after, after);
    lemma_past_blanks(s, k + 2);
    assert(after <= k && k + 2 <= p);
    if s[at] == '"' || s[at] == '`' {
        lemma_alike_quoted(s, t, p, s[at], at + 1);
    } else if s[at] == '[' {
        if name_end(s, at) is Some {
            reveal_strlit("]");
            lemma_alike_first(s, t, p, "]"@, at + 1);
        } else {
            lemma_bracket_missing(s, at + 1);
            let open = s[p];
            let mid = enquoted(new, open);
            if open == '"' || open == '`' {
                lemma_doubled_chars(new, open, ']');
            } else {
                lemma_bracket_found(s, p + 1);
            }
            assert forall|i: int| at + 1 <= i < t.len() implies #[trigger] t[i] != ']' by {
                if i < p {
                    assert(t[i] == s[i]);
                } else if i < p + mid.len() {
                    assert(t[i] == mid[i - p]);
                    if open == '"' || open == '`' {
                        let d = doubled(new, open);
                        if p < i < p + mid.len() - 1 {
                            assert(mid[i - p] == d[i - p - 1]);
                            assert(d.contains(d[i - p - 1]));
                        }
                    } else {
                        assert(new.contains(new[i - p]));
                    }
                } else {
                    let e0 = name_end(s, p)->0;
                    lemma_past_quoted(s, open, p + 1);
                    lemma_past_word(s, p);
                    assert(t[i] == s[i - p - mid.len() + e0]);
                }
            }
            lemma_no_bracket(t, at + 1);
        }
    } else {
        assert forall|i: int| at <= i < after implies is_name_char(#[trigger] t[i]) by {
            assert(t[i] == s[i]);
        }
        assert(t[after] == s[after]);
        lemma_word_end(t, at, after);
    }
    assert(past_name(t, at) == after);
    let low = lower_text(s);
    let lowt = lower_text(t);
    assert(alike(low, lowt, p));
    if k + 2 == p {
        assert(!is_name_char(low[p]));
        lemma_past_word(s, p);
        assert(s[p] == '"' || s[p] == '`' || s[p] == '[' || is_name_char(s[p]));
        assert(t[p] == s[p]);
    }
    lemma_alike_keyword(low, lowt, p, "on"@, after, after);
    lemma_alike_blanks(s, t, p, k + 2);
}

proof fn lemma_keyword_is(s: Seq<char>, w: Seq<char>, lo: int, q: int)
    requires
        0 <= q,
    ensures
        keyword_from(s, w, lo, q) matches Some(x) ==> q <= x && keyword_at(s, w, lo, x),
    decreases s.len() - q,
{
    if q < s.len() && !keyword_at(s, w, lo, q) {
        lemma_keyword_is(s, w, lo, q + 1);
    }
}

/// A replaced name leaves what stands before it, and begins with no blank.
proof fn lemma_spliced_alike(s: Seq<char>, p: int, old: Seq<char>, new: Seq<char>)
    requires
        spliced(s, p, old, new) is Some,
        fits(new, s[p]),
    ensures
        alike(s, spliced(s, p, old, new)->0, p),
        alike(lower_text(s), lower_text(spliced(s, p, old, new)->0), p),
        p < spliced(s, p, old, new)->0.len(),
        !is_blank(spliced(s, p, old, new)->0[p]),
        !is_blank(lower_text(spliced(s, p, old, new)->0)[p]),
        s[p] == '"' || s[p] == '`' || s[p] == '[' ==> spliced(s, p, old, new)->0[p] == s[p],
{
    let t = spliced(s, p, old, new)->0;
    let mid = enquoted(new, s[p]);
    lemma_past_quoted(s, s[p], p + 1);
    lemma_past_word(s, p);
    lemma_bracket_found(s, p + 1);
    assert(t[p] == mid[0]);
    if !(s[p] == '"' || s[p] == '`' || s[p] == '[') {
        assert(is_name_char(new[0]));
    }
    assert forall|i: int| 0 <= i < p implies #[trigger] s[i] == t[i] by {}
}

/// No keyword `ON` stands in `IF NOT EXISTS`, so a statement that has one between its kind and
/// `p` says `IF NOT EXISTS` whatever stands from `p` on.
proof fn lemma_guard_before_target(a: Seq<char>, b: Seq<char>, p: int, q: int, k: int)
    requires
        alike(a, b, p),
        0 <= q <= k,
        k + 2 <= p,
        has_at(a, "on"@, k),
    ensures
        has_at(a, "if not exists"@, q) == has_at(b, "if not exists"@, q),
{
    let w = "if not exists"@;
    reveal_strlit("if not exists");
    reveal_strlit("on");
    if q + 13 <= p {
        lemma_alike_has(a, b, p, w, q);
    } else {
        let j = k - q;
        assert(a.subrange(k, k + 2)[0] == a[k]);
        assert(a.subrange(k, k + 2)[1] == a[k + 1]);
        assert(a[k] == 'o' && a[k + 1] == 'n');
        assert(b[k] == 'o' && b[k + 1] == 'n');
        assert(0 <= j <= 11);
        assert(!(w[j] == 'o' && w[j + 1] == 'n'));
        if has_at(a, w, q) {
            assert(a.subrange(q, q + 13)[j] == a[k]);
            assert(a.subrange(q, q + 13)[j + 1] == a[k + 1]);
        }
        if has_at(b, w, q) {
            assert(b.subrange(q, q + 13)[j] == b[k]);
            assert(b.subrange(q, q + 13)[j + 1] == b[k + 1]);
        }
    }
}

/// Renaming a table in the text of a statement and renaming it back gives the first text back, if
/// the text spelled the old name just so and both names can stand in its quotes.
///
/// The new name must not make the words before it read as `IF NOT EXISTS`, and must not close a
/// bracket that the statement left open.
pub proof fn law_renaming_undone(s: Seq<char>, old: Seq<char>, new: Seq<char>)
    requires
        renamed(s, old, new) is Some,
        ({
            let p = table_name_at(s)->0;
            &&& name_text(s, p, name_end(s, p)->0) == old
            &&& fits(old, s[p])
            &&& fits(new, s[p])
        }),
        guarded(lower_text(renamed(s, old, new)->0), "table"@) == guarded(
            lower_text(s),
            "table"@,
        ),
        torn(s) ==> !new.contains(']'),
    ensures
        renamed(renamed(s, old, new)->0, new, old) == Some(s),
{
    reveal_strlit("table");
    reveal_strlit("index");
    reveal_strlit("trigger");
    let p = table_name_at(s)->0;
    let t = renamed(s, old, new)->0;
    let low = lower_text(s);
    let lowt = lower_text(t);
    lemma_spliced_alike(s, p, old, new);
    law_replacing_undone(s, p, old, new);
    if created_at(low, "table"@) is Some {
        lemma_alike_created(low, lowt, p, "table"@);
    } else {
        let kw = if created_at(low, "index"@) is Some {
            "index"@
        } else {
            "trigger"@
        };
        lemma_target_found(s, p, kw, old, new);
        assert(created_at(lowt, "table"@) is None);
    }
    assert(table_name_at(t) == Some(p));
}

proof fn lemma_target_found(s: Seq<char>, p: int, kw: Seq<char>, old: Seq<char>, new: Seq<char>)
    requires
        kind_word(kw),
        created_at(lower_text(s), kw) matches Some(at) && target_at(s, at) == Some(p) && (0 <= at
            < s.len() && s[at] == '[' && name_end(s, at) is None ==> !new.contains(']')),
        spliced(s, p, old, new) is Some,
        fits(old, s[p]),
        fits(new, s[p]),
        name_text(s, p, name_end(s, p)->0) == old,
    ensures
        created_at(lower_text(spliced(s, p, old, new)->0), kw) == created_at(lower_text(s), kw),
        target_at(spliced(s, p, old, new)->0, created_at(lower_text(s), kw)->0) == Some(p),
        forall|other: Seq<char>|
            kind_word(other) && other[1] != kw[1] ==> #[trigger] created_at(
                lower_text(spliced(s, p, old, new)->0),
                other,
            ) is None,
{
    reveal_strlit("create");
    reveal_strlit("if not exists");
    reveal_strlit("on");
    let t = spliced(s, p, old, new)->0;
    let low = lower_text(s);
    let lowt = lower_text(t);
    let at = created_at(low, kw)->0;
    let q = kind_end(low, kw)->0;
    lemma_first_is(low, "create"@, 0);
    let start = first_at(low, "create"@, 0)->0;
    lemma_past_blanks(low, start + 6);
    lemma_past_options(low, past_blanks(low, start + 6));
    lemma_past_blanks(low, past_options(low, past_blanks(low, start + 6)) + kw.len());
    if guarded(low, kw) {
        lemma_past_blanks(low, q + 13);
    }
    assert(0 <= q <= at);
    lemma_alike_target(s, p, at, old, new);
    lemma_spliced_alike(s, p, old, new);
    let after = past_name(s, at);
    let k = keyword_from(low, "on"@, after, after)->0;
    lemma_keyword_is(low, "on"@, after, after);
    lemma_past_blanks(s, k + 2);
    lemma_alike_kind(low, lowt, p, kw);
    lemma_guard_before_target(low, lowt, p, q, k);
    lemma_alike_created(low, lowt, p, kw);
}

// ---- Checks ----

/// Some constraint is of the given kind.
pub open spec fn has_constraint(cs: Seq<ColumnConstraintView>, kind: ColumnConstraintView) -> bool {
    exists|i: int| 0 <= i < cs.len() && #[trigger] cs[i] == kind
}

/// Some constraint gives a default value.
pub open spec fn has_default(cs: Seq<ColumnConstraintView>) -> bool {
    exists|i: int| 0 <= i < cs.len() && #[trigger] cs[i] is Default
}

/// Why a column cannot be added to a table; `None` if it can.
pub open spec fn column_refusal(c: ColumnDefView) -> Option<Seq<char>> {
    let cs = c.constraints;
    let null = ColumnConstraintView::Default(ExprView::Literal(LiteralView::Null));
    if has_constraint(cs, ColumnConstraintView::PrimaryKey) {
        Some("Cannot add a PRIMARY KEY column"@)
    } else if has_constraint(cs, ColumnConstraintView::Unique) {
        Some("Cannot add a UNIQUE column"@)
    } else if has_constraint(cs, ColumnConstraintView::NotNull) && (!has_default(cs)
        || has_constraint(cs, null)) {
        Some("Cannot add a NOT NULL column with default value NULL"@)
    } else {
        None
    }
}

/// Check that a column may be added to a table.
pub fn validate_add_column(col: &ColumnDef) -> (r: Result<(), Error>)
    ensures
        match r {
            Ok(_) => column_refusal(col@) is None,
            Err(e) => column_refusal(col@) == Some(e@),
        },
{
    let mut pk: bool = false;
    let mut unique: bool = false;
    let mut not_null: bool = false;
    let mut default: bool = false;
    let mut default_null: bool = false;
    let ghost cs = constraints_view(col.constraints@);
    let ghost null = ColumnConstraintView::Default(ExprView::Literal(LiteralView::Null));
    for k in 0..col.constraints.len()
        invariant
            cs == constraints_view(col.constraints@),
            null == ColumnConstraintView::Default(ExprView::Literal(LiteralView::Null)),
            pk == has_constraint(cs.take(k as int), ColumnConstraintView::PrimaryKey),
            unique == has_constraint(cs.take(k as int), ColumnConstraintView::Unique),
            not_null == has_constraint(cs.take(k as int), ColumnConstraintView::NotNull),
            default == has_default(cs.take(k as int)),
            default_null == has_constraint(cs.take(k as int), null),
    {
        let ghost now = cs.take(k + 1);
        let ghost here = cs[k as int];
        proof {
            assert(here == col.constraints@[k as int]@);
            assert(now[k as int] == here);
            assert forall|x: ColumnConstraintView|
                has_constraint(now, x) == (has_constraint(cs.take(k as int), x) || here == x) by {
                lemma_constraint_step(cs, k as int, x);
            }
            lemma_default_step(cs, k as int);
        }
        match &col.constraints[k] {
            ColumnConstraint::PrimaryKey => {
                pk = true;
            },
            ColumnConstraint::Unique => {
                unique = true;
            },
            ColumnConstraint::NotNull => {
                not_null = true;
            },
            ColumnConstraint::Default(e) => {
                default = true;
                if let Expr::Literal(Literal::Null) = e {
                    default_null = true;
                }
            },
            _ => {},
        }
    }
    assert(cs.take(cs.len() as int) =~= cs);
    if pk {
        return Err(Error::lit("Cannot add a PRIMARY KEY column"));
    }
    if unique {
        return Err(Error::lit("Cannot add a UNIQUE column"));
    }
    if not_null && (!default || default_null) {
        return Err(Error::lit("Cannot add a NOT NULL column with default value NULL"));
    }
    Ok(())
}

proof fn lemma_constraint_step(cs: Seq<ColumnConstraintView>, k: int, x: ColumnConstraintView)
    requires
        0 <= k < cs.len(),
    ensures
        has_constraint(cs.take(k + 1), x) == (has_constraint(cs.take(k), x) || cs[k] == x),
{
    let a = cs.take(k);
    let b = cs.take(k + 1);
    assert(forall|i: int| 0 <= i < k ==> #[trigger] a[i] == b[i]);
    assert(forall|i: int| 0 <= i < k ==> #[trigger] b[i] == a[i]);
    assert(b[k] == cs[k]);
}

proof fn lemma_default_step(cs: Seq<ColumnConstraintView>, k: int)
    requires
        0 <= k < cs.len(),
    ensures
        has_default(cs.take(k + 1)) == (has_default(cs.take(k)) || cs[k] is Default),
{
    let a = cs.take(k);
    let b = cs.take(k + 1);
    assert(forall|i: int| 0 <= i < k ==> #[trigger] a[i] == b[i]);
    assert(forall|i: int| 0 <= i < k ==> #[trigger] b[i] == a[i]);
    assert(b[k] == cs[k]);
}

// ---- Programs ----

/// A change of one row of the catalog. The row keeps its kind and its root page, and whatever else
/// there is no new value for.
#[derive(Debug)]
pub struct SchemaRowEdit {
    pub rowid: i64,
    pub new_name: Option<String>,
    pub new_tbl_name: Option<String>,
    pub new_sql: Option<String>,
}

/// The mathematical value of a [`SchemaRowEdit`].
pub ghost struct EditView {
    pub rowid: i64,
    pub new_name: Option<Seq<char>>,
    pub new_tbl_name: Option<Seq<char>>,
    pub new_sql: Option<Seq<char>>,
}

impl View for SchemaRowEdit {
    type V = EditView;

    open spec fn view(&self) -> EditView {
        EditView {
            rowid: self.rowid,
            new_name: opt_name_view(self.new_name),
            new_tbl_name: opt_name_view(self.new_tbl_name),
            new_sql: opt_name_view(self.new_sql),
        }
    }
}

impl Clone for SchemaRowEdit {
    fn clone(&self) -> (r: Self)
        ensures
            r@ == self@,
    {
        SchemaRowEdit {
            rowid: self.rowid,
            new_name: copied(&self.new_name),
            new_tbl_name: copied(&self.new_tbl_name),
            new_sql: copied(&self.new_sql),
        }
    }
}

fn copied(o: &Option<String>) -> (r: Option<String>)
    ensures
        opt_name_view(r) == opt_name_view(*o),
{
    match o {
        Some(t) => Some(t.clone()),
        None => None,
    }
}

fn text_of(o: &Option<String>) -> (r: Option<&str>)
    ensures
        opt_str_view(r) == opt_name_view(*o),
{
    match o {
        Some(t) => Some(t.as_str()),
        None => None,
    }
}

/// The mathematical values of some changes.
pub open spec fn edits_view(s: Seq<SchemaRowEdit>) -> Seq<EditView> {
    Seq::new(s.len(), |i: int| s[i]@)
}

/// The changes of rows from the `k`-th on.
pub open spec fn gen_edits(s: Asm, edits: Seq<EditView>, k: int) -> Asm
    decreases edits.len() - k,
{
    if s.err is Some || k < 0 || k >= edits.len() {
        s
    } else {
        let x = edits[k];
        gen_edits(
            gen_edit_row(s, x.rowid, x.new_name, x.new_tbl_name, x.new_sql),
            edits,
            k + 1,
        )
    }
}

/// A program that changes rows of the catalog.
#[verifier::opaque]
pub open spec fn gen_alter(edits: Seq<EditView>, cookie: u32) -> Asm {
    let s = prologue().emit(Opcode::Transaction, 0, 1, 0).emit(
        Opcode::OpenWrite,
        CATALOG,
        CATALOG_ROOT,
        0,
    ).note_cursor(CATALOG);
    gen_bare_epilogue(gen_commit(gen_edits(s, edits, 0), cookie))
}

/// The refusal of a statement that names a schema.
pub open spec fn qualified_refusal() -> Seq<char> {
    "schema-qualified ALTER TABLE is not yet supported"@
}

/// An `ALTER TABLE ... RENAME TO` statement.
#[verifier::opaque]
pub open spec fn gen_alter_rename(stmt: AlterTableView, cookie: u32, edits: Seq<EditView>) -> Asm {
    if stmt.schema is Some {
        Asm::start().fail(qualified_refusal())
    } else {
        gen_alter(edits, cookie)
    }
}

/// An `ALTER TABLE ... ADD COLUMN` statement: only the text of the table changes.
#[verifier::opaque]
pub open spec fn gen_alter_add(
    stmt: AlterTableView,
    cookie: u32,
    rowid: i64,
    old_sql: Seq<char>,
    def: Seq<char>,
) -> Asm {
    if stmt.schema is Some {
        Asm::start().fail(qualified_refusal())
    } else {
        match with_column(old_sql, def) {
            None => Asm::start().fail("cannot splice column into CREATE TABLE text"@),
            Some(sql) => gen_alter(
                seq![
                    EditView { rowid, new_name: None, new_tbl_name: None, new_sql: Some(sql) },
                ],
                cookie,
            ),
        }
    }
}

fn emit_edits(b: &mut ProgramBuilder, edits: &[SchemaRowEdit])
    ensures
        final(b)@ == gen_edits(old(b)@, edits_view(edits@), 0),
        steady(old(b)@, final(b)@),
{
    let ghost es = edits_view(edits@);
    let ghost want = gen_edits(b@, es, 0);
    for k in 0..edits.len()
        invariant
            es == edits_view(edits@),
            gen_edits(b@, es, k as int) == want,
            steady(old(b)@, b@),
    {
        let x = &edits[k];
        assert(es[k as int] == x@);
        emit_edit_row(
            b,
            x.rowid,
            text_of(&x.new_name),
            text_of(&x.new_tbl_name),
            text_of(&x.new_sql),
        );
    }
}

fn alter_program(edits: &[SchemaRowEdit], cookie: u32) -> (p: Program)
    ensures
        gen_alter(edits_view(edits@), cookie).err is None,
        p@ == gen_alter(edits_view(edits@), cookie).program(),
{
    reveal(gen_alter);
    let (mut b, setup, after_init) = begin();
    b.emit(Opcode::Transaction, 0, 1, 0);
    b.emit(Opcode::OpenWrite, CATALOG, CATALOG_ROOT, 0);
    b.note_cursor(CATALOG);
    emit_edits(&mut b, edits);
    emit_commit(&mut b, cookie);
    end_bare(b, setup, after_init)
}

/// Compile an `ALTER TABLE ... RENAME TO` statement. `edits` are the changes of the catalog rows
/// of the table and of what belongs to it, and `current_schema_cookie` is the schema cookie before
/// the statement runs.
pub fn compile_alter_rename_table(
    stmt: &AlterTableStmt,
    current_schema_cookie: u32,
    edits: &[SchemaRowEdit],
) -> (r: Result<Program, Error>)
    ensures
        built(r, gen_alter_rename(stmt@, current_schema_cookie, edits_view(edits@))),
{
    broadcast use crate::builder::asm_fail;

    reveal(gen_alter_rename);
    assert(stmt@.schema == opt_name_view(stmt.schema));
    if stmt.schema.is_some() {
        return Err(Error::lit("schema-qualified ALTER TABLE is not yet supported"));
    }
    Ok(alter_program(edits, current_schema_cookie))
}

/// Compile an `ALTER TABLE ... ADD COLUMN` statement. `table_rowid` is the rowid of the catalog row
/// of the table, `old_sql` the text in it, and `col_def_text` the definition of the column as the
/// statement writes it. The rows of the table stay as they are.
pub fn compile_alter_add_column(
    stmt: &AlterTableStmt,
    current_schema_cookie: u32,
    table_rowid: i64,
    old_sql: &str,
    col_def_text: &str,
) -> (r: Result<Program, Error>)
    ensures
        built(
            r,
            gen_alter_add(stmt@, current_schema_cookie, table_rowid, old_sql@, col_def_text@),
        ),
{
    broadcast use crate::builder::asm_fail;

    reveal(gen_alter_add);
    assert(stmt@.schema == opt_name_view(stmt.schema));
    if stmt.schema.is_some() {
        return Err(Error::lit("schema-qualified ALTER TABLE is not yet supported"));
    }
    let sql = match splice_column_into_create_table(old_sql, col_def_text) {
        Some(t) => t,
        None => {
            return Err(Error::lit("cannot splice column into CREATE TABLE text"));
        },
    };
    let edit = SchemaRowEdit {
        rowid: table_rowid,
        new_name: None,
        new_tbl_name: None,
        new_sql: Some(sql),
    };
    let ghost want = edit@;
    let mut edits: Vec<SchemaRowEdit> = Vec::new();
    edits.push(edit);
    assert(edits_view(edits@) =~= seq![want]);
    Ok(alter_program(edits.as_slice(), current_schema_cookie))
}

} // verus!
