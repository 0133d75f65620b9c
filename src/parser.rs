//! The statement dispatcher and the admin clause parser, over a cursor on the
//! model of a tokenized script.
use vstd::prelude::*;

use std::collections::VecDeque;

use crate::admin::AdminStatement;
use crate::sql::parse_expression;
use crate::sql::parse_generic_statement;
use crate::sql::parse_number;
use crate::sql::tokenize;
use crate::statement::Statement;
use crate::token::at_end;
use crate::sql::lexed;
use crate::sql::TokenDesc;
use crate::token::classify;
use crate::token::model_of;
use crate::token::tok_of;
use crate::token::has_delim;
use crate::token::is_kw;
use crate::token::next_real;
use crate::token::next_stmt;
use crate::token::text_at;
use crate::token::Kw;
use crate::token::Tok;
use crate::token::TokKind;
use crate::token::lemma_next_real_bounds;
use crate::token::lemma_next_stmt_bounds;
use sqlparser::ast::Expr;
use sqlparser::ast::Value;
use sqlparser::parser::ParserError;
use sqlparser::tokenizer::TokenWithSpan;

verus! {

/// Why a parse failed.
#[derive(Debug, PartialEq, Eq)]
pub enum ParseError {
    /// A token that the admin grammar does not accept where it stands.
    UnexpectedToken { expected: String, found: String },
    /// A statement that does not follow its predecessor after a delimiter.
    UnexpectedEndOfStatement { found: String },
    /// An error that sqlparser's tokenizer or grammar reported.
    Sql(ParserError),
}

/// `r` is the error for `found` standing where `expected` was wanted.
pub open spec fn unexpected<T>(r: Result<T, ParseError>, expected: Seq<char>, found: Seq<char>) -> bool {
    match r {
        Err(ParseError::UnexpectedToken { expected: e, found: f }) => e@ == expected && f@ == found,
        _ => false,
    }
}

/// The error for `found` standing where `expected` was wanted.
pub fn parser_expected<T>(expected: &str, found: &str) -> (r: Result<T, ParseError>)
    ensures
        unexpected(r, expected@, found@),
{
    Err(ParseError::UnexpectedToken { expected: String::from_str(expected), found: String::from_str(found) })
}

/// The clause items of `ADMIN SHOW DDL JOBS` that a parse went through from
/// position `p` on: each is (whether it is a count, where it starts, where
/// the next one may start). A count is one number token; a predicate is
/// `WHERE` and the expression after it.
pub open spec fn clause_chain(s: Seq<Tok>, p: int, items: Seq<(bool, int, int)>) -> bool {
    &&& items.len() > 0 ==> items[0].1 == next_real(s, p)
    &&& forall|k: int| 0 < k < items.len() ==> #[trigger] items[k].1 == next_real(s, items[k - 1].2)
    &&& forall|k: int|
        0 <= k < items.len() ==> {
            &&& 0 <= #[trigger] items[k].1 < s.len()
            &&& items[k].0 ==> s[items[k].1].kind is Number && items[k].2 == items[k].1 + 1
            &&& !items[k].0 ==> is_kw(s, items[k].1, Kw::Where) && items[k].1 + 1 <= items[k].2
                <= s.len()
        }
}

pub open spec fn chain_end(p: int, items: Seq<(bool, int, int)>) -> int {
    if items.len() == 0 {
        p
    } else {
        items.last().2
    }
}

pub open spec fn has_count(items: Seq<(bool, int, int)>) -> bool {
    exists|k: int| 0 <= k < items.len() && (#[trigger] items[k]).0
}

pub open spec fn has_predicate(items: Seq<(bool, int, int)>) -> bool {
    exists|k: int| 0 <= k < items.len() && !(#[trigger] items[k]).0
}

/// What the body of `ADMIN SHOW DDL JOBS`, from position `p` on, parses to
/// after the clause items `items`, with `end` the position after it.
pub open spec fn jobs_items_outcome(
    s: Seq<Tok>,
    p: int,
    items: Seq<(bool, int, int)>,
    r: Result<Statement, ParseError>,
    end: int,
) -> bool {
    let at = next_real(s, chain_end(p, items));
    match r {
        Ok(Statement::Admin(AdminStatement::ShowDDLJobs { num, where_clause })) => {
            &&& at_end(s, at)
            &&& end == chain_end(p, items)
            &&& (num is Some <==> has_count(items))
            &&& (where_clause is Some <==> has_predicate(items))
        },
        Err(ParseError::Sql(_)) => at < s.len() && (s[at].kind is Number || is_kw(s, at, Kw::Where)),
        _ => {
            &&& !at_end(s, at)
            &&& !(s[at].kind is Number)
            &&& !is_kw(s, at, Kw::Where)
            &&& unexpected(r, "a number, WHERE or the end of the statement"@, text_at(s, at))
        },
    }
}

/// What the body of `ADMIN SHOW DDL JOBS`, from position `p` on, parses to,
/// with `end` the position after it.
pub open spec fn jobs_outcome(s: Seq<Tok>, p: int, r: Result<Statement, ParseError>, end: int) -> bool {
    exists|items: Seq<(bool, int, int)>|
        #[trigger] clause_chain(s, p, items) && jobs_items_outcome(s, p, items, r, end)
}

/// What the rest of `ADMIN SHOW DDL`, from position `p` on, parses to, with
/// `end` the position after it.
pub open spec fn ddl_outcome(s: Seq<Tok>, p: int, r: Result<Statement, ParseError>, end: int) -> bool {
    let c = next_real(s, p);
    if !is_kw(s, c, Kw::Jobs) {
        r matches Ok(Statement::Admin(AdminStatement::ShowDDL)) && end == p
    } else {
        jobs_outcome(s, c + 1, r, end)
    }
}

/// What the rest of `ADMIN SHOW`, from position `p` on, parses to, with
/// `end` the position after it.
pub open spec fn show_outcome(s: Seq<Tok>, p: int, r: Result<Statement, ParseError>, end: int) -> bool {
    let b = next_real(s, p);
    if !is_kw(s, b, Kw::Ddl) {
        unexpected(r, "DDL"@, text_at(s, b))
    } else {
        ddl_outcome(s, b + 1, r, end)
    }
}

/// What the admin clause, from position `p` just after `ADMIN`, parses to,
/// with `end` the position after it.
pub open spec fn admin_outcome(s: Seq<Tok>, p: int, r: Result<Statement, ParseError>, end: int) -> bool {
    let a = next_real(s, p);
    if !is_kw(s, a, Kw::Show) {
        unexpected(r, "SHOW"@, text_at(s, a))
    } else {
        show_outcome(s, a + 1, r, end)
    }
}

/// What one statement, from position `p` on, parses to, with `end` the
/// position after it: an admin statement where the first token is `ADMIN`,
/// else whatever sqlparser's grammar makes of it.
pub open spec fn statement_outcome(s: Seq<Tok>, p: int, r: Result<Statement, ParseError>, end: int) -> bool {
    let a = next_real(s, p);
    if is_kw(s, a, Kw::Admin) {
        admin_outcome(s, a + 1, r, end)
    } else {
        match r {
            Ok(st) => st is Statement && a <= end <= s.len(),
            Err(e) => e is Sql,
        }
    }
}

pub open spec fn script_end(p: int, spans: Seq<(int, int)>) -> int {
    if spans.len() == 0 {
        p
    } else {
        spans.last().1
    }
}

/// The statements `v` were parsed, in order, from the spans `spans` of a
/// script that starts at position `p`: each span starts after a run of
/// delimiters, at least one of them between two statements.
pub open spec fn script_chain(s: Seq<Tok>, p: int, spans: Seq<(int, int)>, v: Seq<Statement>) -> bool {
    &&& spans.len() == v.len()
    &&& spans.len() > 0 ==> spans[0].0 == next_stmt(s, p)
    &&& forall|k: int|
        0 < k < spans.len() ==> #[trigger] spans[k].0 == next_stmt(s, spans[k - 1].1) && has_delim(
            s,
            spans[k - 1].1,
            spans[k].0,
        )
    &&& forall|k: int|
        0 <= k < spans.len() ==> #[trigger] spans[k].0 < s.len() && spans[k].0 <= spans[k].1 <= s.len()
            && statement_outcome(
            s,
            spans[k].0,
            Ok(v[k]),
            spans[k].1,
        )
}

/// What a script, from position `p` on, parses to.
pub open spec fn script_outcome(s: Seq<Tok>, p: int, r: Result<VecDeque<Statement>, ParseError>) -> bool {
    match r {
        Ok(out) => exists|spans: Seq<(int, int)>|
            #[trigger] script_chain(s, p, spans, out@) && next_stmt(s, script_end(p, spans)) == s.len(),
        Err(e) => exists|spans: Seq<(int, int)>, v: Seq<Statement>|
            #[trigger] script_chain(s, p, spans, v) && {
                let n = next_stmt(s, script_end(p, spans));
                &&& n < s.len()
                &&& if spans.len() > 0 && !has_delim(s, script_end(p, spans), n) {
                    e matches ParseError::UnexpectedEndOfStatement { found } && found@ == text_at(s, n)
                } else {
                    statement_outcome(s, n, Err(e), n)
                }
            },
    }
}

proof fn lemma_chain_push(s: Seq<Tok>, p: int, items: Seq<(bool, int, int)>, x: (bool, int, int))
    requires
        clause_chain(s, p, items),
        x.1 == next_real(s, chain_end(p, items)),
        0 <= x.1 < s.len(),
        x.0 ==> s[x.1].kind is Number && x.2 == x.1 + 1,
        !x.0 ==> is_kw(s, x.1, Kw::Where) && x.1 + 1 <= x.2 <= s.len(),
    ensures
        clause_chain(s, p, items.push(x)),
        chain_end(p, items.push(x)) == x.2,
        has_count(items.push(x)) == (has_count(items) || x.0),
        has_predicate(items.push(x)) == (has_predicate(items) || !x.0),
{
    let n = items.push(x);
    assert(n[items.len() as int] == x);
    assert forall|k: int| 0 <= k < items.len() implies n[k] == items[k] by {}
    if has_count(items) {
        let k = choose|k: int| 0 <= k < items.len() && (#[trigger] items[k]).0;
        assert(n[k].0);
    }
    if has_predicate(items) {
        let k = choose|k: int| 0 <= k < items.len() && !(#[trigger] items[k]).0;
        assert(!n[k].0);
    }
    if has_count(n) && !x.0 {
        let k = choose|k: int| 0 <= k < n.len() && (#[trigger] n[k]).0;
        assert(items[k].0);
    }
    if has_predicate(n) && x.0 {
        let k = choose|k: int| 0 <= k < n.len() && !(#[trigger] n[k]).0;
        assert(!items[k].0);
    }
}

proof fn lemma_jobs_error_any_end(s: Seq<Tok>, p: int, r: Result<Statement, ParseError>, e1: int, e2: int)
    requires
        jobs_outcome(s, p, r, e1),
        r is Err,
    ensures
        jobs_outcome(s, p, r, e2),
{
    let items = choose|items: Seq<(bool, int, int)>|
        #[trigger] clause_chain(s, p, items) && jobs_items_outcome(s, p, items, r, e1);
    assert(clause_chain(s, p, items));
}

/// A failed statement fails the same way whatever position it is said to
/// end at.
proof fn lemma_error_any_end(s: Seq<Tok>, p: int, r: Result<Statement, ParseError>, e1: int, e2: int)
    requires
        statement_outcome(s, p, r, e1),
        r is Err,
    ensures
        statement_outcome(s, p, r, e2),
{
    let a = next_real(s, p);
    if is_kw(s, a, Kw::Admin) {
        let a2 = next_real(s, a + 1);
        if is_kw(s, a2, Kw::Show) {
            let b = next_real(s, a2 + 1);
            if is_kw(s, b, Kw::Ddl) {
                let c = next_real(s, b + 1);
                if is_kw(s, c, Kw::Jobs) {
                    lemma_jobs_error_any_end(s, c + 1, r, e1, e2);
                }
            }
        }
    }
}

/// A script of delimiters and whitespace alone parses to no statement.
pub proof fn lemma_delimiters_only(s: Seq<Tok>, r: Result<VecDeque<Statement>, ParseError>)
    requires
        script_outcome(s, 0, r),
        forall|k: int| 0 <= k < s.len() ==> (#[trigger] s[k]).kind is Whitespace || s[k].kind is SemiColon,
    ensures
        r matches Ok(v) && v@.len() == 0,
{
    lemma_next_stmt_bounds(s, 0);
    match r {
        Ok(out) => {
            let spans = choose|spans: Seq<(int, int)>|
                #[trigger] script_chain(s, 0, spans, out@) && next_stmt(s, script_end(0, spans)) == s.len();
            assert(spans.len() == 0);
        },
        Err(e) => {
            let (spans, v) = choose|spans: Seq<(int, int)>, v: Seq<Statement>|
                #[trigger] script_chain(s, 0, spans, v) && {
                    let n = next_stmt(s, script_end(0, spans));
                    &&& n < s.len()
                    &&& if spans.len() > 0 && !has_delim(s, script_end(0, spans), n) {
                        e matches ParseError::UnexpectedEndOfStatement { found } && found@ == text_at(s, n)
                    } else {
                        statement_outcome(s, n, Err(e), n)
                    }
                };
            assert(spans.len() == 0);
            assert(false);
        },
    }
}

/// The number of non-empty parts of `s` from `i` on, counting the
/// delimiters as separators; `inside` tells whether `i` is within a part
/// that has already been counted.
pub open spec fn parts_from(s: Seq<Tok>, i: int, inside: bool) -> nat
    decreases s.len() - i,
{
    if i < 0 || i >= s.len() {
        0
    } else if s[i].kind is Whitespace {
        parts_from(s, i + 1, inside)
    } else if s[i].kind is SemiColon {
        parts_from(s, i + 1, false)
    } else {
        (if inside {
            0nat
        } else {
            1nat
        }) + parts_from(s, i + 1, true)
    }
}

/// The number of delimiter-separated parts of `s` that hold more than
/// whitespace.
pub open spec fn part_count(s: Seq<Tok>) -> nat {
    parts_from(s, 0, false)
}

proof fn lemma_parts_over_delimiters(s: Seq<Tok>, i: int, j: int, inside: bool)
    requires
        0 <= i <= j <= s.len(),
        forall|k: int| i <= k < j ==> (#[trigger] s[k]).kind is Whitespace || s[k].kind is SemiColon,
    ensures
        parts_from(s, i, inside) == parts_from(
            s,
            j,
            if has_delim(s, i, j) {
                false
            } else {
                inside
            },
        ),
    decreases j - i,
{
    if i < j {
        let next = if s[i].kind is SemiColon {
            false
        } else {
            inside
        };
        lemma_parts_over_delimiters(s, i + 1, j, next);
        if s[i].kind is SemiColon {
            assert(has_delim(s, i, j));
            if has_delim(s, i + 1, j) {
                let k = choose|k: int| i + 1 <= k < j && 0 <= k < s.len() && (#[trigger] s[k]).kind is SemiColon;
                assert(i <= k < j);
            }
        } else {
            if has_delim(s, i, j) {
                let k = choose|k: int| i <= k < j && 0 <= k < s.len() && (#[trigger] s[k]).kind is SemiColon;
                assert(i + 1 <= k < j);
            }
            if has_delim(s, i + 1, j) {
                let k = choose|k: int| i + 1 <= k < j && 0 <= k < s.len() && (#[trigger] s[k]).kind is SemiColon;
                assert(i <= k < j);
            }
        }
    } else {
        assert(!has_delim(s, i, j));
    }
}

proof fn lemma_parts_within_statement(s: Seq<Tok>, i: int, j: int)
    requires
        0 <= i <= j <= s.len(),
        forall|k: int| i <= k < j ==> !((#[trigger] s[k]).kind is SemiColon),
    ensures
        parts_from(s, i, true) == parts_from(s, j, true),
    decreases j - i,
{
    if i < j {
        lemma_parts_within_statement(s, i + 1, j);
    }
}

proof fn lemma_parts_from_span(s: Seq<Tok>, p: int, spans: Seq<(int, int)>, v: Seq<Statement>, k: int)
    requires
        0 <= p <= s.len(),
        script_chain(s, p, spans, v),
        next_stmt(s, script_end(p, spans)) == s.len(),
        forall|m: int, j: int|
            #![trigger spans[m], s[j]]
            0 <= m < spans.len() && spans[m].0 <= j < spans[m].1 ==> !(s[j].kind is SemiColon),
        0 <= k < spans.len(),
    ensures
        parts_from(s, spans[k].0, false) == spans.len() - k,
    decreases spans.len() - k,
{
    let (start, end) = spans[k];
    if k == 0 {
        lemma_next_stmt_bounds(s, p);
    } else {
        lemma_next_stmt_bounds(s, spans[k - 1].1);
    }
    lemma_next_stmt_bounds(s, end);
    if end == start {
        if k + 1 < spans.len() {
            assert(spans[k + 1].0 == next_stmt(s, spans[k].1));
            assert(has_delim(s, spans[k].1, spans[k + 1].0));
        }
        assert(false);
    }
    assert forall|j: int| start + 1 <= j < end implies !((#[trigger] s[j]).kind is SemiColon) by {
        assert(spans[k].0 <= j < spans[k].1);
    }
    lemma_parts_within_statement(s, start + 1, end);
    if k + 1 < spans.len() {
        let next = spans[k + 1].0;
        assert(next == next_stmt(s, spans[k].1));
        assert(has_delim(s, spans[k].1, spans[k + 1].0));
        lemma_parts_over_delimiters(s, end, next, true);
        lemma_parts_from_span(s, p, spans, v, k + 1);
    } else {
        lemma_parts_over_delimiters(s, end, s.len() as int, true);
    }
}

/// A script whose statements hold no delimiter parses to one statement for
/// each delimiter-separated part that holds more than whitespace.
pub proof fn lemma_one_statement_per_part(s: Seq<Tok>, spans: Seq<(int, int)>, v: Seq<Statement>)
    requires
        script_chain(s, 0, spans, v),
        next_stmt(s, script_end(0, spans)) == s.len(),
        forall|m: int, j: int|
            #![trigger spans[m], s[j]]
            0 <= m < spans.len() && spans[m].0 <= j < spans[m].1 ==> !(s[j].kind is SemiColon),
    ensures
        v.len() == part_count(s),
{
    lemma_next_stmt_bounds(s, 0);
    lemma_parts_over_delimiters(s, 0, next_stmt(s, 0), false);
    if spans.len() > 0 {
        lemma_parts_from_span(s, 0, spans, v, 0);
    } else {
        lemma_parts_over_delimiters(s, 0, s.len() as int, false);
    }
}

/// The tokens `ADMIN SHOW DDL`, with any whitespace and nothing else after
/// them but a delimiter, parse back to `ShowDDL`; followed by `JOBS`, to
/// `ShowDDLJobs` with neither a count nor a predicate. These are the tokens
/// that the two statements render to.
pub proof fn lemma_keywords_parse_back(s: Seq<Tok>, p: int, r: Result<Statement, ParseError>, end: int)
    requires
        0 <= p,
        statement_outcome(s, p, r, end),
        is_kw(s, next_real(s, p), Kw::Admin),
        is_kw(s, next_real(s, next_real(s, p) + 1), Kw::Show),
        is_kw(s, next_real(s, next_real(s, next_real(s, p) + 1) + 1), Kw::Ddl),
    ensures
        ({
            let c = next_real(s, next_real(s, next_real(s, next_real(s, p) + 1) + 1) + 1);
            &&& at_end(s, c) ==> (r matches Ok(Statement::Admin(AdminStatement::ShowDDL)))
            &&& is_kw(s, c, Kw::Jobs) && at_end(s, next_real(s, c + 1)) ==> (r matches Ok(
                Statement::Admin(AdminStatement::ShowDDLJobs { num: None, where_clause: None }),
            ))
        }),
{
    let c = next_real(s, next_real(s, next_real(s, next_real(s, p) + 1) + 1) + 1);
    if is_kw(s, c, Kw::Jobs) && at_end(s, next_real(s, c + 1)) {
        let items = choose|items: Seq<(bool, int, int)>|
            #[trigger] clause_chain(s, c + 1, items) && jobs_items_outcome(s, c + 1, items, r, end);
        if items.len() > 0 {
            assert(items[0].1 == next_real(s, c + 1));
        }
        assert(items.len() == 0);
        assert(!has_count(items));
        assert(!has_predicate(items));
    }
}

/// A parser over one tokenized script: sqlparser's tokens, their model, and
/// the position of the first token not yet parsed.
pub struct TiDBParser {
    tokens: Vec<TokenWithSpan>,
    toks: Vec<Tok>,
    pos: usize,
}

impl TiDBParser {
    /// The model of the tokens.
    pub closed spec fn model(&self) -> Seq<Tok> {
        self.toks@
    }

    /// The position of the first token not yet parsed.
    pub closed spec fn position(&self) -> int {
        self.pos as int
    }

    pub closed spec fn wf(&self) -> bool {
        &&& self.tokens.len() == self.toks.len()
        &&& self.pos <= self.toks.len()
    }

    /// A parser over `sql`, tokenized under the MySQL dialect; it fails
    /// where the tokenizer does.
    pub fn new(sql: &str) -> (r: Result<Self, ParseError>)
        ensures
            r is Ok <==> lexed(sql@) is Some,
            r matches Ok(p) ==> p.wf() && p.position() == 0 && p.model() == model_of(sql@),
            r matches Err(e) ==> e is Sql,
            sql@.len() == 0 ==> (r matches Ok(p) && p.model().len() == 0),
    {
        match tokenize(sql) {
            Ok((tokens, descs)) => Ok(Self::from_tokens(tokens, &descs)),
            Err(e) => Err(ParseError::Sql(e)),
        }
    }

    /// A parser over tokens of sqlparser's tokenizer, described by `descs`.
    pub fn from_tokens(tokens: Vec<TokenWithSpan>, descs: &Vec<TokenDesc>) -> (r: Self)
        requires
            tokens.len() == descs.len(),
        ensures
            r.wf(),
            r.position() == 0,
            r.model() == descs@.map_values(|x: TokenDesc| tok_of(x)),
    {
        let mut toks: Vec<Tok> = Vec::new();
        let mut i: usize = 0;
        while i < descs.len()
            invariant
                i <= descs.len(),
                toks.len() == i,
                forall|k: int| 0 <= k < i ==> toks@[k] == tok_of(descs@[k]),
            decreases descs.len() - i,
        {
            toks.push(classify(&descs[i]));
            i = i + 1;
        }
        assert(toks@ =~= descs@.map_values(|x: TokenDesc| tok_of(x)));
        TiDBParser { tokens, toks, pos: 0 }
    }

    /// The first position at or after `i` that holds no whitespace.
    fn skip_whitespace(&self, i: usize) -> (r: usize)
        requires
            self.wf(),
            i <= self.toks.len(),
        ensures
            r == next_real(self.toks@, i as int),
            i <= r <= self.toks.len(),
    {
        let mut j = i;
        while j < self.toks.len() && matches!(self.toks[j].kind, TokKind::Whitespace)
            invariant
                i <= j <= self.toks.len(),
                next_real(self.toks@, j as int) == next_real(self.toks@, i as int),
            decreases self.toks.len() - j,
        {
            j = j + 1;
        }
        j
    }

    fn keyword_at(&self, i: usize, k: Kw) -> (r: bool)
        requires
            self.wf(),
        ensures
            r == is_kw(self.toks@, i as int, k),
    {
        i < self.toks.len() && self.toks[i].kind == TokKind::Word(k)
    }

    fn text_of(&self, i: usize) -> (r: String)
        requires
            self.wf(),
        ensures
            r@ == text_at(self.toks@, i as int),
    {
        if i < self.toks.len() {
            self.toks[i].text.clone()
        } else {
            String::from_str("EOF")
        }
    }

    /// Consumes the keyword `k` if it comes next; else fails naming the
    /// token that stands there.
    fn expect_keyword(&mut self, k: Kw, expected: &str) -> (r: Result<(), ParseError>)
        requires
            old(self).wf(),
        ensures
            final(self).wf(),
            final(self).toks@ == old(self).toks@,
            old(self).pos <= final(self).pos,
            ({
                let a = next_real(old(self).toks@, old(self).pos as int);
                if is_kw(old(self).toks@, a, k) {
                    r is Ok && final(self).pos == a + 1
                } else {
                    unexpected(r, expected@, text_at(old(self).toks@, a)) && final(self).pos == old(
                        self,
                    ).pos
                }
            }),
    {
        let a = self.skip_whitespace(self.pos);
        if self.keyword_at(a, k) {
            self.pos = a + 1;
            Ok(())
        } else {
            let found = self.text_of(a);
            parser_expected(expected, found.as_str())
        }
    }

    /// Parses the admin clause that follows `ADMIN`.
    pub fn parse_admin_statement(&mut self) -> (r: Result<Statement, ParseError>)
        requires
            old(self).wf(),
        ensures
            final(self).wf(),
            final(self).model() == old(self).model(),
            old(self).position() <= final(self).position(),
            admin_outcome(old(self).model(), old(self).position(), r, final(self).position()),
    {
        match self.expect_keyword(Kw::Show, "SHOW") {
            Ok(()) => self.parse_admin_show(),
            Err(e) => Err(e),
        }
    }

    fn parse_admin_show(&mut self) -> (r: Result<Statement, ParseError>)
        requires
            old(self).wf(),
        ensures
            final(self).wf(),
            final(self).toks@ == old(self).toks@,
            old(self).pos <= final(self).pos,
            show_outcome(old(self).toks@, old(self).pos as int, r, final(self).pos as int),
    {
        match self.expect_keyword(Kw::Ddl, "DDL") {
            Ok(()) => self.parse_admin_show_ddl(),
            Err(e) => Err(e),
        }
    }

    fn parse_admin_show_ddl(&mut self) -> (r: Result<Statement, ParseError>)
        requires
            old(self).wf(),
        ensures
            final(self).wf(),
            final(self).toks@ == old(self).toks@,
            old(self).pos <= final(self).pos,
            ddl_outcome(old(self).toks@, old(self).pos as int, r, final(self).pos as int),
    {
        let c = self.skip_whitespace(self.pos);
        if self.keyword_at(c, Kw::Jobs) {
            self.pos = c + 1;
            self.parse_admin_show_ddl_jobs()
        } else {
            Ok(Statement::Admin(AdminStatement::ShowDDL))
        }
    }

    fn parse_admin_show_ddl_jobs(&mut self) -> (r: Result<Statement, ParseError>)
        requires
            old(self).wf(),
        ensures
            final(self).wf(),
            final(self).toks@ == old(self).toks@,
            old(self).pos <= final(self).pos,
            jobs_outcome(old(self).toks@, old(self).pos as int, r, final(self).pos as int),
    {
        let ghost s = self.toks@;
        let ghost p = self.pos as int;
        let ghost mut items: Seq<(bool, int, int)> = Seq::empty();
        let mut num: Option<Value> = None;
        let mut where_clause: Option<Expr> = None;
        loop
            invariant
                self.wf(),
                self.toks@ == s,
                s == old(self).toks@,
                p == old(self).pos,
                p <= self.pos,
                clause_chain(s, p, items),
                self.pos == chain_end(p, items),
                num is Some <==> has_count(items),
                where_clause is Some <==> has_predicate(items),
            ensures
                self.wf(),
                self.toks@ == s,
                p <= self.pos,
                clause_chain(s, p, items),
                self.pos == chain_end(p, items),
                num is Some <==> has_count(items),
                where_clause is Some <==> has_predicate(items),
                at_end(s, next_real(s, self.pos as int)),
            decreases self.toks.len() - self.pos,
        {
            let at = self.skip_whitespace(self.pos);
            proof {
                lemma_next_real_bounds(s, self.pos as int);
            }
            if at >= self.toks.len() || matches!(self.toks[at].kind, TokKind::SemiColon) {
                break;
            }
            if matches!(self.toks[at].kind, TokKind::Number) {
                match parse_number(&self.tokens, at) {
                    Ok(v) => {
                        num = Some(v);
                    },
                    Err(e) => {
                        assert(clause_chain(s, p, items));
                        return Err(ParseError::Sql(e));
                    },
                }
                proof {
                    lemma_chain_push(s, p, items, (true, at as int, at + 1));
                    items = items.push((true, at as int, at + 1));
                }
                self.pos = at + 1;
            } else if self.keyword_at(at, Kw::Where) {
                let start = at + 1;
                match parse_expression(&self.tokens, start) {
                    Ok((e, used)) => {
                        where_clause = Some(e);
                        let after = if used > self.toks.len() - start {
                            self.toks.len()
                        } else {
                            start + used
                        };
                        proof {
                            lemma_chain_push(s, p, items, (false, at as int, after as int));
                            items = items.push((false, at as int, after as int));
                        }
                        self.pos = after;
                    },
                    Err(e) => {
                        assert(clause_chain(s, p, items));
                        return Err(ParseError::Sql(e));
                    },
                }
            } else {
                let found = self.text_of(at);
                let r = parser_expected("a number, WHERE or the end of the statement", found.as_str());
                assert(clause_chain(s, p, items));
                return r;
            }
        }
        assert(clause_chain(s, p, items));
        Ok(Statement::Admin(AdminStatement::ShowDDLJobs { num, where_clause }))
    }

    /// Parses one statement: the admin family where it starts with `ADMIN`,
    /// else sqlparser's grammar.
    pub fn parse_statement(&mut self) -> (r: Result<Statement, ParseError>)
        requires
            old(self).wf(),
        ensures
            final(self).wf(),
            final(self).model() == old(self).model(),
            old(self).position() <= final(self).position(),
            statement_outcome(old(self).model(), old(self).position(), r, final(self).position()),
    {
        let a = self.skip_whitespace(self.pos);
        if self.keyword_at(a, Kw::Admin) {
            self.pos = a + 1;
            self.parse_admin_statement()
        } else {
            match parse_generic_statement(&self.tokens, a) {
                Ok((st, used)) => {
                    self.pos = if used > self.toks.len() - a {
                        self.toks.len()
                    } else {
                        a + used
                    };
                    Ok(Statement::Statement(st))
                },
                Err(e) => Err(ParseError::Sql(e)),
            }
        }
    }

    /// Parses the rest of the script into statements separated by
    /// delimiters; empty statements are skipped.
    pub fn parse_statements(&mut self) -> (r: Result<VecDeque<Statement>, ParseError>)
        requires
            old(self).wf(),
        ensures
            final(self).wf(),
            final(self).model() == old(self).model(),
            script_outcome(old(self).model(), old(self).position(), r),
    {
        let ghost s = self.toks@;
        let ghost p = self.pos as int;
        let ghost mut spans: Seq<(int, int)> = Seq::empty();
        let mut stmts: VecDeque<Statement> = VecDeque::new();
        let mut expecting_statement_delimiter = false;
        loop
            invariant
                self.wf(),
                self.toks@ == s,
                s == old(self).toks@,
                p == old(self).pos,
                p <= self.pos,
                script_chain(s, p, spans, stmts@),
                self.pos == script_end(p, spans),
                expecting_statement_delimiter == (spans.len() > 0),
            decreases 2 * (self.toks.len() - self.pos) + if expecting_statement_delimiter {
                0int
            } else {
                1int
            },
        {
            let end = self.pos;
            let mut j = self.pos;
            let mut delimited = false;
            while j < self.toks.len() && (matches!(self.toks[j].kind, TokKind::Whitespace)
                || matches!(self.toks[j].kind, TokKind::SemiColon))
                invariant
                    self.wf(),
                    self.toks@ == s,
                    end <= j <= self.toks.len(),
                    next_stmt(s, j as int) == next_stmt(s, end as int),
                    delimited == has_delim(s, end as int, j as int),
                decreases self.toks.len() - j,
            {
                if matches!(self.toks[j].kind, TokKind::SemiColon) {
                    delimited = true;
                }
                proof {
                    if has_delim(s, end as int, j + 1) && !has_delim(s, end as int, j as int) {
                        let k = choose|k: int|
                            end <= k < j + 1 && 0 <= k < s.len() && (#[trigger] s[k]).kind is SemiColon;
                        assert(k == j);
                    }
                    if has_delim(s, end as int, j as int) {
                        let k = choose|k: int|
                            end <= k < j && 0 <= k < s.len() && (#[trigger] s[k]).kind is SemiColon;
                        assert(end <= k < j + 1);
                    }
                    if s[j as int].kind is SemiColon {
                        assert(end <= j < j + 1 && s[j as int].kind is SemiColon);
                    }
                }
                j = j + 1;
            }
            if j >= self.toks.len() {
                assert(next_stmt(s, j as int) == s.len());
                let r: Result<VecDeque<Statement>, ParseError> = Ok(stmts);
                assert(script_chain(s, p, spans, r->Ok_0@));
                return r;
            }
            if expecting_statement_delimiter && !delimited {
                let found = self.text_of(j);
                assert(script_chain(s, p, spans, stmts@));
                return Err(ParseError::UnexpectedEndOfStatement { found });
            }
            self.pos = j;
            let ghost before = spans;
            let ghost before_stmts = stmts@;
            proof {
                if delimited {
                    let k = choose|k: int|
                        end <= k < j && 0 <= k < s.len() && (#[trigger] s[k]).kind is SemiColon;
                }
                lemma_next_stmt_bounds(s, j as int);
                lemma_next_real_bounds(s, j as int);
            }
            match self.parse_statement() {
                Ok(st) => {
                    proof {
                        spans = spans.push((j as int, self.pos as int));
                    }
                    stmts.push_back(st);
                    assert forall|k: int| 0 <= k < before.len() implies spans[k] == before[k]
                        && stmts@[k] == before_stmts[k] by {}
                    assert(script_chain(s, p, spans, stmts@));
                },
                Err(e) => {
                    proof {
                        lemma_error_any_end(s, j as int, Err(e), self.pos as int, j as int);
                    }
                    assert(script_chain(s, p, spans, stmts@));
                    return Err(e);
                },
            }
            expecting_statement_delimiter = true;
        }
    }

    /// Parses a whole script: the statements of `sql`, in order.
    pub fn parse_sql(sql: &str) -> (r: Result<VecDeque<Statement>, ParseError>)
        ensures
            lexed(sql@) is Some ==> script_outcome(model_of(sql@), 0, r),
            lexed(sql@) is None ==> r matches Err(ParseError::Sql(_)),
            sql@.len() == 0 ==> (r matches Ok(v) && v@.len() == 0),
    {
        match Self::new(sql) {
            Ok(mut parser) => {
                let r = parser.parse_statements();
                proof {
                    if sql@.len() == 0 {
                        lemma_delimiters_only(parser.model(), r);
                    }
                }
                r
            },
            Err(e) => Err(e),
        }
    }
}
} // verus!
