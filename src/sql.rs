//! The calls this library makes into sqlparser, each behind a trusted item.
//!
//! Verified code sees sqlparser's tokens, statements, expressions and values
//! only as opaque values that it carries through; what it reads of a token is
//! the plain description that `tokenize` hands back beside them.
use vstd::prelude::*;

use sqlparser::ast::Expr;
use sqlparser::ast::Statement as SqlStatement;
use sqlparser::ast::Value;
use sqlparser::dialect::MySqlDialect;
use sqlparser::parser::Parser;
use sqlparser::parser::ParserError;
use sqlparser::tokenizer::Token;
use sqlparser::tokenizer::TokenWithSpan;
use sqlparser::tokenizer::Tokenizer;

verus! {

#[verifier::external_type_specification]
#[verifier::external_body]
pub struct ExParserError(ParserError);

#[verifier::external_type_specification]
#[verifier::external_body]
pub struct ExTokenWithSpan(TokenWithSpan);

#[verifier::external_type_specification]
#[verifier::external_body]
pub struct ExExpr(Expr);


#[verifier::external_type_specification]
#[verifier::external_body]
pub struct ExValue(Value);

#[verifier::external_type_specification]
#[verifier::external_body]
pub struct ExSqlStatement(SqlStatement);

/// What the parsing logic reads of the kind of a sqlparser token: a word
/// with its text and quote, or one of the other kinds it tells apart.
#[derive(Debug)]
pub enum TokenTag {
    Word { value: String, quote: Option<char> },
    Number,
    SemiColon,
    Whitespace,
    Other,
}

/// A sqlparser token as plain values: its kind, and its SQL text as the
/// `Display` of `Token` writes it.
#[derive(Debug)]
pub struct TokenDesc {
    pub tag: TokenTag,
    pub text: String,
}

/// The tokens that sqlparser's tokenizer (MySQL dialect) makes of a text, as
/// plain values; `None` where it fails.
pub uninterp spec fn lexed(sql: Seq<char>) -> Option<Seq<TokenDesc>>;

/// A character with the ASCII lower-case letters mapped to upper case.
pub open spec fn ascii_fold(c: char) -> u32 {
    if 97 <= (c as u32) <= 122 {
        (c as u32 - 32) as u32
    } else {
        c as u32
    }
}

/// The two texts are equal up to the case of ASCII letters.
pub open spec fn eq_ascii_nocase(a: Seq<char>, b: Seq<char>) -> bool {
    &&& a.len() == b.len()
    &&& forall|i: int| 0 <= i < a.len() ==> ascii_fold(#[trigger] a[i]) == ascii_fold(b[i])
}

/// Relies on `str::eq_ignore_ascii_case`: equality up to the case of ASCII
/// letters.
#[verifier::external_body]
pub(crate) fn same_ignoring_ascii_case(a: &str, b: &str) -> (r: bool)
    ensures
        r == eq_ascii_nocase(a@, b@),
{
    a.eq_ignore_ascii_case(b)
}

/// Relies on sqlparser's `Tokenizer::tokenize_with_location` under the MySQL
/// dialect, whitespace and comments included as tokens; each token is also
/// handed back as plain values. An empty text has no tokens.
#[verifier::external_body]
pub(crate) fn tokenize(sql: &str) -> (r: Result<(Vec<TokenWithSpan>, Vec<TokenDesc>), ParserError>)
    ensures
        r matches Ok((t, d)) ==> lexed(sql@) == Some(d@) && t.len() == d.len(),
        r is Err ==> lexed(sql@) is None,
        r is Ok || sql@.len() != 0,
        r matches Ok((t, d)) ==> sql@.len() != 0 || d@.len() == 0,
{
    let tokens = Tokenizer::new(&MySqlDialect {}, sql).tokenize_with_location()?;
    let mut descs = Vec::new();
    for t in &tokens {
        let tag = match &t.token {
            Token::Word(w) => TokenTag::Word { value: w.value.clone(), quote: w.quote_style },
            Token::Number(_, _) => TokenTag::Number,
            Token::SemiColon => TokenTag::SemiColon,
            Token::Whitespace(_) => TokenTag::Whitespace,
            _ => TokenTag::Other,
        };
        descs.push(TokenDesc { tag, text: t.token.to_string() });
    }
    Ok((tokens, descs))
}

/// Relies on sqlparser's `Parser::parse_statement` (MySQL dialect), run on
/// the tokens from `start` on; the second part of the result is
/// `Parser::index` afterwards, the number of tokens it took.
#[verifier::external_body]
pub(crate) fn parse_generic_statement(tokens: &Vec<TokenWithSpan>, start: usize) -> (r: Result<
    (Box<SqlStatement>, usize),
    ParserError,
>)
    requires
        start <= tokens.len(),
{
    let mut p = Parser::new(&MySqlDialect {}).with_tokens_with_locations(tokens[start..].to_vec());
    let s = p.parse_statement()?;
    Ok((Box::new(s), p.index()))
}

/// Relies on sqlparser's `Parser::parse_expr` (MySQL dialect), run on the
/// tokens from `start` on; the second part of the result is `Parser::index`
/// afterwards, the number of tokens it took.
#[verifier::external_body]
pub(crate) fn parse_expression(tokens: &Vec<TokenWithSpan>, start: usize) -> (r: Result<
    (Expr, usize),
    ParserError,
>)
    requires
        start <= tokens.len(),
{
    let mut p = Parser::new(&MySqlDialect {}).with_tokens_with_locations(tokens[start..].to_vec());
    let e = p.parse_expr()?;
    Ok((e, p.index()))
}

/// Relies on sqlparser's `Parser::parse_number_value` (MySQL dialect), run on
/// the tokens from `start` on; the value is taken out of its span.
#[verifier::external_body]
pub(crate) fn parse_number(tokens: &Vec<TokenWithSpan>, start: usize) -> (r: Result<Value, ParserError>)
    requires
        start <= tokens.len(),
{
    let mut p = Parser::new(&MySqlDialect {}).with_tokens_with_locations(tokens[start..].to_vec());
    Ok(p.parse_number_value()?.value)
}

/// Relies on the `Display` of sqlparser's `Value`: the value as SQL text.
#[verifier::external_body]
pub(crate) fn value_text(v: &Value) -> (r: String) {
    v.to_string()
}

/// Relies on the `Display` of sqlparser's `Expr`: the expression as SQL text.
#[verifier::external_body]
pub(crate) fn expr_text(e: &Expr) -> (r: String) {
    e.to_string()
}

/// Relies on the `Display` of sqlparser's `Statement`: the statement as SQL
/// text.
#[verifier::external_body]
pub(crate) fn statement_text(s: &SqlStatement) -> (r: String) {
    s.to_string()
}

} // verus!
