//! The token model that the parsing logic works on: one `Tok` for each
//! sqlparser token, with the keyword it stands for and its text.
use vstd::prelude::*;

use crate::sql::eq_ascii_nocase;
use crate::sql::lexed;
use crate::sql::same_ignoring_ascii_case;
use crate::sql::TokenDesc;
use crate::sql::TokenTag;

verus! {

/// The keywords that the dispatcher and the admin clause parser look for.
#[derive(Debug, Clone, Copy, PartialEq, Eq, Structural)]
pub enum Kw {
    Admin,
    Show,
    Ddl,
    Jobs,
    Where,
    Other,
}

#[derive(Debug, Clone, Copy, PartialEq, Eq, Structural)]
pub enum TokKind {
    Word(Kw),
    Number,
    SemiColon,
    Whitespace,
    Other,
}

/// One token: its kind and its text, as an error message shows it.
#[derive(Debug, Clone, PartialEq, Eq)]
pub struct Tok {
    pub kind: TokKind,
    pub text: String,
}

/// The keyword that a word stands for, as sqlparser's tokenizer finds it: an
/// unquoted word whose text is the keyword up to the case of ASCII letters.
pub open spec fn word_kw(value: Seq<char>, quote: Option<char>) -> Kw {
    if quote is Some {
        Kw::Other
    } else if eq_ascii_nocase(value, "ADMIN"@) {
        Kw::Admin
    } else if eq_ascii_nocase(value, "SHOW"@) {
        Kw::Show
    } else if eq_ascii_nocase(value, "DDL"@) {
        Kw::Ddl
    } else if eq_ascii_nocase(value, "JOBS"@) {
        Kw::Jobs
    } else if eq_ascii_nocase(value, "WHERE"@) {
        Kw::Where
    } else {
        Kw::Other
    }
}

pub open spec fn kind_of(tag: TokenTag) -> TokKind {
    match tag {
        TokenTag::Word { value, quote } => TokKind::Word(word_kw(value@, quote)),
        TokenTag::Number => TokKind::Number,
        TokenTag::SemiColon => TokKind::SemiColon,
        TokenTag::Whitespace => TokKind::Whitespace,
        TokenTag::Other => TokKind::Other,
    }
}

/// The model of a token described by `d`.
pub open spec fn tok_of(d: TokenDesc) -> Tok {
    Tok { kind: kind_of(d.tag), text: d.text }
}

/// The token model of a text, where sqlparser's tokenizer accepts it.
pub open spec fn model_of(sql: Seq<char>) -> Seq<Tok> {
    match lexed(sql) {
        Some(d) => d.map_values(|x: TokenDesc| tok_of(x)),
        None => Seq::empty(),
    }
}

/// The first position at or after `i` that holds no whitespace, or the end.
pub open spec fn next_real(s: Seq<Tok>, i: int) -> int
    decreases s.len() - i,
{
    if i < 0 || i >= s.len() {
        s.len() as int
    } else if s[i].kind is Whitespace {
        next_real(s, i + 1)
    } else {
        i
    }
}

/// The first position at or after `i` that holds neither whitespace nor a
/// delimiter, or the end.
pub open spec fn next_stmt(s: Seq<Tok>, i: int) -> int
    decreases s.len() - i,
{
    if i < 0 || i >= s.len() {
        s.len() as int
    } else if s[i].kind is Whitespace || s[i].kind is SemiColon {
        next_stmt(s, i + 1)
    } else {
        i
    }
}

/// Some delimiter stands in `[i, j)`.
pub open spec fn has_delim(s: Seq<Tok>, i: int, j: int) -> bool {
    exists|k: int| i <= k < j && 0 <= k < s.len() && (#[trigger] s[k]).kind is SemiColon
}

/// Position `i` holds the keyword `k`.
pub open spec fn is_kw(s: Seq<Tok>, i: int, k: Kw) -> bool {
    0 <= i < s.len() && s[i].kind == TokKind::Word(k)
}

/// Position `i` is the end of the input or holds a delimiter.
pub open spec fn at_end(s: Seq<Tok>, i: int) -> bool {
    i >= s.len() || (0 <= i && s[i].kind is SemiColon)
}

/// The text of the token at `i`; past the end, `EOF`, as sqlparser shows
/// the end of input.
pub open spec fn text_at(s: Seq<Tok>, i: int) -> Seq<char> {
    if 0 <= i < s.len() {
        s[i].text@
    } else {
        "EOF"@
    }
}

pub proof fn lemma_next_real_bounds(s: Seq<Tok>, i: int)
    requires
        0 <= i,
    ensures
        i <= next_real(s, i) <= s.len() || (i > s.len() && next_real(s, i) == s.len()),
        next_real(s, i) < s.len() ==> !(s[next_real(s, i)].kind is Whitespace),
        forall|k: int| i <= k < next_real(s, i) ==> (#[trigger] s[k]).kind is Whitespace,
    decreases s.len() - i,
{
    if i < s.len() && s[i].kind is Whitespace {
        lemma_next_real_bounds(s, i + 1);
    }
}

pub proof fn lemma_next_stmt_bounds(s: Seq<Tok>, i: int)
    requires
        0 <= i,
    ensures
        i <= next_stmt(s, i) <= s.len() || (i > s.len() && next_stmt(s, i) == s.len()),
        next_stmt(s, i) < s.len() ==> !(s[next_stmt(s, i)].kind is Whitespace) && !(s[next_stmt(
            s,
            i,
        )].kind is SemiColon),
        forall|k: int|
            i <= k < next_stmt(s, i) ==> (#[trigger] s[k]).kind is Whitespace || s[k].kind is SemiColon,
    decreases s.len() - i,
{
    if i < s.len() && (s[i].kind is Whitespace || s[i].kind is SemiColon) {
        lemma_next_stmt_bounds(s, i + 1);
    }
}

fn word_keyword(value: &String, quote: Option<char>) -> (r: Kw)
    ensures
        r == word_kw(value@, quote),
{
    if quote.is_some() {
        Kw::Other
    } else if same_ignoring_ascii_case(value.as_str(), "ADMIN") {
        Kw::Admin
    } else if same_ignoring_ascii_case(value.as_str(), "SHOW") {
        Kw::Show
    } else if same_ignoring_ascii_case(value.as_str(), "DDL") {
        Kw::Ddl
    } else if same_ignoring_ascii_case(value.as_str(), "JOBS") {
        Kw::Jobs
    } else if same_ignoring_ascii_case(value.as_str(), "WHERE") {
        Kw::Where
    } else {
        Kw::Other
    }
}

/// The model of the token described by `d`.
pub fn classify(d: &TokenDesc) -> (r: Tok)
    ensures
        r == tok_of(*d),
{
    let kind = match &d.tag {
        TokenTag::Word { value, quote } => TokKind::Word(word_keyword(value, *quote)),
        TokenTag::Number => TokKind::Number,
        TokenTag::SemiColon => TokKind::SemiColon,
        TokenTag::Whitespace => TokKind::Whitespace,
        TokenTag::Other => TokKind::Other,
    };
    Tok { kind, text: d.text.clone() }
}

} // verus!
