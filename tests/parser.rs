use sqlparser::ast::Expr;
use sqlparser::ast::Value;
use sqlparser::dialect::MySqlDialect;
use sqlparser::parser::Parser;
use tidbparser::admin::AdminStatement;
use tidbparser::parser::ParseError;
use tidbparser::parser::TiDBParser;
use tidbparser::statement::Statement;

fn parse_one(sql: &str) -> Result<Statement, ParseError> {
    let mut parser = TiDBParser::new(sql).unwrap();
    parser.parse_statement()
}

fn expr(sql: &str) -> Expr {
    Parser::new(&MySqlDialect {})
        .try_with_sql(sql)
        .unwrap()
        .parse_expr()
        .unwrap()
}

fn number(n: &str) -> Value {
    Value::Number(n.to_string(), false)
}

fn admin(s: Statement) -> AdminStatement {
    match s {
        Statement::Admin(a) => a,
        Statement::Statement(s) => panic!("not an admin statement: {s:?}"),
    }
}

#[test]
fn test_parse() {
    let sqls = vec![
        "admin show ddl;",
        "admin show ddl jobs;",
        "admin show ddl jobs where id > 0;",
        "admin show ddl jobs 20 where id = 0;",
    ];
    for sql in sqls {
        let mut parser = TiDBParser::new(sql).unwrap();
        let _ = parser
            .parse_statement()
            .expect(format!("Failed to parse sql: {} ", sql).as_str());
    }
}

#[test]
fn empty_script_has_no_statements() {
    assert_eq!(TiDBParser::parse_sql("").unwrap().len(), 0);
}

#[test]
fn delimiters_alone_give_no_statements() {
    assert_eq!(TiDBParser::parse_sql(";;;").unwrap().len(), 0);
    assert_eq!(TiDBParser::parse_sql(" ; ;\n;").unwrap().len(), 0);
}

#[test]
fn script_gives_one_statement_per_delimited_part() {
    let stmts = TiDBParser::parse_sql("SELECT 1; ADMIN SHOW DDL;; SELECT 2;").unwrap();
    assert_eq!(stmts.len(), 3);
    assert!(matches!(&stmts[0], Statement::Statement(_)));
    assert_eq!(stmts[0].to_string(), "SELECT 1");
    assert_eq!(stmts[1], Statement::Admin(AdminStatement::ShowDDL));
    assert_eq!(stmts[2].to_string(), "SELECT 2");
}

#[test]
fn script_without_trailing_delimiter() {
    let stmts = TiDBParser::parse_sql("ADMIN SHOW DDL JOBS 5; ADMIN SHOW DDL").unwrap();
    assert_eq!(stmts.len(), 2);
    assert_eq!(
        stmts[0],
        Statement::Admin(AdminStatement::ShowDDLJobs { num: Some(number("5")), where_clause: None })
    );
    assert_eq!(stmts[1], Statement::Admin(AdminStatement::ShowDDL));
}

#[test]
fn show_ddl_renders_exactly() {
    let s = parse_one("ADMIN SHOW DDL").unwrap();
    assert_eq!(s, Statement::Admin(AdminStatement::ShowDDL));
    assert_eq!(s.to_string(), "ADMIN SHOW DDL");
}

#[test]
fn show_ddl_jobs_without_clauses() {
    let s = parse_one("ADMIN SHOW DDL JOBS").unwrap();
    assert_eq!(
        s,
        Statement::Admin(AdminStatement::ShowDDLJobs { num: None, where_clause: None })
    );
    assert_eq!(s.to_string(), "ADMIN SHOW DDL JOBS");
}

#[test]
fn show_ddl_jobs_with_count_and_predicate() {
    let s = parse_one("ADMIN SHOW DDL JOBS 20 WHERE id = 0").unwrap();
    assert_eq!(
        s,
        Statement::Admin(AdminStatement::ShowDDLJobs {
            num: Some(number("20")),
            where_clause: Some(expr("id = 0")),
        })
    );
    assert_eq!(s.to_string(), "ADMIN SHOW DDL JOBS 20 WHERE id = 0");
}

#[test]
fn show_ddl_jobs_with_predicate_only() {
    let s = parse_one("ADMIN SHOW DDL JOBS WHERE id > 0").unwrap();
    assert_eq!(
        s,
        Statement::Admin(AdminStatement::ShowDDLJobs {
            num: None,
            where_clause: Some(expr("id > 0")),
        })
    );
    assert_eq!(s.to_string(), "ADMIN SHOW DDL JOBS WHERE id > 0");
}

#[test]
fn lower_case_keywords_are_recognised() {
    let s = parse_one("admin show ddl jobs 3").unwrap();
    assert_eq!(
        s,
        Statement::Admin(AdminStatement::ShowDDLJobs { num: Some(number("3")), where_clause: None })
    );
    assert_eq!(s.to_string(), "ADMIN SHOW DDL JOBS 3");
}

#[test]
fn predicate_before_count_renders_count_first() {
    let s = parse_one("ADMIN SHOW DDL JOBS WHERE id > 0 7").unwrap();
    assert_eq!(
        s,
        Statement::Admin(AdminStatement::ShowDDLJobs {
            num: Some(number("7")),
            where_clause: Some(expr("id > 0")),
        })
    );
    assert_eq!(s.to_string(), "ADMIN SHOW DDL JOBS 7 WHERE id > 0");
}

#[test]
fn second_count_overwrites_the_first() {
    let s = parse_one("ADMIN SHOW DDL JOBS 1 2").unwrap();
    assert_eq!(
        s,
        Statement::Admin(AdminStatement::ShowDDLJobs { num: Some(number("2")), where_clause: None })
    );
}

#[test]
fn missing_delimiter_between_statements() {
    let r = TiDBParser::parse_sql("ADMIN SHOW DDL ADMIN SHOW DDL");
    assert_eq!(
        r,
        Err(ParseError::UnexpectedEndOfStatement { found: "ADMIN".to_string() })
    );
}

#[test]
fn unknown_word_after_admin() {
    assert_eq!(
        parse_one("ADMIN FOO"),
        Err(ParseError::UnexpectedToken { expected: "SHOW".to_string(), found: "FOO".to_string() })
    );
}

#[test]
fn admin_alone_meets_end_of_input() {
    assert_eq!(
        parse_one("ADMIN"),
        Err(ParseError::UnexpectedToken { expected: "SHOW".to_string(), found: "EOF".to_string() })
    );
}

#[test]
fn unknown_word_after_admin_show() {
    assert_eq!(
        parse_one("ADMIN SHOW TABLES"),
        Err(ParseError::UnexpectedToken { expected: "DDL".to_string(), found: "TABLES".to_string() })
    );
}

#[test]
fn quoted_ddl_is_no_keyword() {
    assert_eq!(
        parse_one("ADMIN SHOW `DDL`"),
        Err(ParseError::UnexpectedToken { expected: "DDL".to_string(), found: "`DDL`".to_string() })
    );
}

#[test]
fn unexpected_token_in_jobs_clause() {
    assert_eq!(
        parse_one("ADMIN SHOW DDL JOBS FOO"),
        Err(ParseError::UnexpectedToken {
            expected: "a number, WHERE or the end of the statement".to_string(),
            found: "FOO".to_string(),
        })
    );
}

#[test]
fn show_ddl_followed_by_other_words_stops_after_ddl() {
    let r = TiDBParser::parse_sql("ADMIN SHOW DDL FOO");
    assert_eq!(
        r,
        Err(ParseError::UnexpectedEndOfStatement { found: "FOO".to_string() })
    );
}

#[test]
fn generic_statement_errors_come_from_sqlparser() {
    assert!(matches!(parse_one("SELEC 1"), Err(ParseError::Sql(_))));
    assert!(matches!(TiDBParser::parse_sql("SELECT 'x"), Err(ParseError::Sql(_))));
}

#[test]
fn bad_predicate_is_an_sqlparser_error() {
    assert!(matches!(parse_one("ADMIN SHOW DDL JOBS WHERE"), Err(ParseError::Sql(_))));
}

#[test]
fn rendered_admin_statements_parse_back_to_themselves() {
    for sql in [
        "ADMIN SHOW DDL",
        "admin show ddl jobs",
        "admin show ddl jobs 20",
        "admin show ddl jobs where id > 0",
        "admin show ddl jobs where id = 0 20",
        "ADMIN SHOW DDL JOBS 20 WHERE id = 0 AND state = 'done'",
    ] {
        let a = parse_one(sql).unwrap();
        let b = parse_one(&a.to_string()).unwrap();
        assert_eq!(a, b);
        assert!(matches!(admin(b), AdminStatement::ShowDDL | AdminStatement::ShowDDLJobs { .. }));
    }
}

#[test]
fn empty_statements_and_trailing_delimiter_are_skipped() {
    let stmts = TiDBParser::parse_sql(";ADMIN SHOW DDL;;;ADMIN SHOW DDL JOBS;").unwrap();
    assert_eq!(stmts.len(), 2);
    assert_eq!(stmts[0], Statement::Admin(AdminStatement::ShowDDL));
    assert_eq!(
        stmts[1],
        Statement::Admin(AdminStatement::ShowDDLJobs { num: None, where_clause: None })
    );
}

#[test]
fn keywords_match_up_to_ascii_case_only() {
    assert_eq!(
        parse_one("AdMiN sHoW dDl JoBs"),
        Ok(Statement::Admin(AdminStatement::ShowDDLJobs { num: None, where_clause: None }))
    );
    assert!(matches!(
        TiDBParser::parse_sql("ADMIN SHOW DDL \"JOBS\""),
        Err(ParseError::UnexpectedEndOfStatement { .. })
    ));
}

#[test]
fn first_error_is_returned() {
    assert_eq!(
        TiDBParser::parse_sql("ADMIN SHOW DDL; ADMIN FOO; ADMIN BAR"),
        Err(ParseError::UnexpectedToken { expected: "SHOW".to_string(), found: "FOO".to_string() })
    );
}
