//! The one statement type of the library: a statement of sqlparser's
//! grammar, or one of the admin family.
use vstd::prelude::*;

use crate::admin::AdminStatement;
use crate::sql::statement_text;
use sqlparser::ast::Statement as SqlStatement;

verus! {

#[derive(Debug, Clone, PartialEq, Eq)]
pub enum Statement {
    /// A statement of sqlparser's MySQL grammar.
    Statement(Box<SqlStatement>),
    Admin(AdminStatement),
}

impl Statement {
    /// The statement as SQL text.
    pub fn to_string(&self) -> (r: String)
        ensures
            self matches Statement::Admin(a) ==> {
                &&& a is ShowDDL ==> r@ == "ADMIN SHOW DDL"@
                &&& a is ShowDDLJobs ==> exists|n: Option<Seq<char>>, p: Option<Seq<char>>|
                    (n is Some <==> a->num is Some) && (p is Some <==> a->where_clause is Some) && r@
                        == #[trigger] crate::admin::jobs_text(n, p)
            },
    {
        match self {
            Statement::Statement(s) => statement_text(s),
            Statement::Admin(a) => a.to_string(),
        }
    }
}

} // verus!
