//! The `ADMIN SHOW DDL` statement family and its rendering as SQL text.
use vstd::prelude::*;

use crate::sql::expr_text;
use crate::sql::value_text;
use sqlparser::ast::Expr;
use sqlparser::ast::Value;

verus! {

#[derive(Debug, Clone, PartialEq, Eq)]
pub enum AdminStatement {
    /// `ADMIN SHOW DDL`
    ShowDDL,
    /// `ADMIN SHOW DDL JOBS [<num>] [WHERE <where_clause>]`
    ShowDDLJobs { num: Option<Value>, where_clause: Option<Expr> },
}

/// The text of `ADMIN SHOW DDL JOBS`, given the text of its count and of its
/// predicate when they are present: the count comes before the predicate.
pub open spec fn jobs_text(num: Option<Seq<char>>, pred: Option<Seq<char>>) -> Seq<char> {
    "ADMIN SHOW DDL JOBS"@ + match num {
        Some(n) => " "@ + n,
        None => Seq::empty(),
    } + match pred {
        Some(p) => " WHERE "@ + p,
        None => Seq::empty(),
    }
}

pub open spec fn opt_view(s: Option<String>) -> Option<Seq<char>> {
    match s {
        Some(t) => Some(t@),
        None => None,
    }
}

/// Renders `ADMIN SHOW DDL JOBS` from the text of its parts.
pub fn render_show_ddl_jobs(num: Option<String>, pred: Option<String>) -> (r: String)
    ensures
        r@ == jobs_text(opt_view(num), opt_view(pred)),
{
    let mut out = String::from_str("ADMIN SHOW DDL JOBS");
    match &num {
        Some(n) => {
            out.append(" ");
            out.append(n.as_str());
        },
        None => {},
    }
    match &pred {
        Some(p) => {
            out.append(" WHERE ");
            out.append(p.as_str());
        },
        None => {},
    }
    proof {
        reveal_strlit("ADMIN SHOW DDL JOBS");
        reveal_strlit(" ");
        reveal_strlit(" WHERE ");
        assert(out@ =~= jobs_text(opt_view(num), opt_view(pred)));
    }
    out
}

impl AdminStatement {
    /// The statement as SQL text.
    pub fn to_string(&self) -> (r: String)
        ensures
            self is ShowDDL ==> r@ == "ADMIN SHOW DDL"@,
            self is ShowDDLJobs ==> exists|n: Option<Seq<char>>, p: Option<Seq<char>>|
                (n is Some <==> self->num is Some) && (p is Some <==> self->where_clause is Some)
                    && r@ == #[trigger] jobs_text(n, p),
    {
        match self {
            AdminStatement::ShowDDL => String::from_str("ADMIN SHOW DDL"),
            AdminStatement::ShowDDLJobs { num, where_clause } => {
                let n = match num {
                    Some(v) => Some(value_text(v)),
                    None => None,
                };
                let p = match where_clause {
                    Some(e) => Some(expr_text(e)),
                    None => None,
                };
                let r = render_show_ddl_jobs(n, p);
                assert(r@ == jobs_text(opt_view(n), opt_view(p)));
                r
            },
        }
    }
}

} // verus!
