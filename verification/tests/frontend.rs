use pagestore::ast::{Expression, Statement};
use pagestore::command::{Command, parse_command};
use pagestore::lexer::{Lexer, Token};
use pagestore::parser::Parser;
use pagestore::row::Row;
use pagestore::schema::{Column, Schema};
use pagestore::types::{DataType, Value};

#[test]
fn lexer_tokenizes_a_select() {
    let mut lx = Lexer::new("SELECT * FROM users WHERE id = 42;");
    assert!(matches!(lx.next_token(), Token::Select));
    assert!(matches!(lx.next_token(), Token::Star));
    assert!(matches!(lx.next_token(), Token::From));
    match lx.next_token() {
        Token::Identifier(s) => assert_eq!(s, "users"),
        t => panic!("unexpected token {:?}", t),
    }
    assert!(matches!(lx.next_token(), Token::Where));
    match lx.next_token() {
        Token::Identifier(s) => assert_eq!(s, "id"),
        t => panic!("unexpected token {:?}", t),
    }
    assert!(matches!(lx.next_token(), Token::Eq));
    assert!(matches!(lx.next_token(), Token::Integer(42)));
    assert!(matches!(lx.next_token(), Token::Semicolon));
    assert!(matches!(lx.next_token(), Token::Eof));
}

#[test]
fn lexer_keywords_are_case_insensitive() {
    let mut lx = Lexer::new("select InSeRt dElEtE");
    assert!(matches!(lx.next_token(), Token::Select));
    assert!(matches!(lx.next_token(), Token::Insert));
    assert!(matches!(lx.next_token(), Token::Delete));
}

#[test]
fn lexer_identifier_keeps_spelling() {
    let mut lx = Lexer::new("MyTable_1");
    match lx.next_token() {
        Token::Identifier(s) => assert_eq!(s, "MyTable_1"),
        t => panic!("unexpected token {:?}", t),
    }
}

#[test]
fn lexer_string_literal() {
    let mut lx = Lexer::new("'hello world' next");
    match lx.next_token() {
        Token::StringLit(s) => assert_eq!(s, "hello world"),
        t => panic!("unexpected token {:?}", t),
    }
    match lx.next_token() {
        Token::Identifier(s) => assert_eq!(s, "next"),
        t => panic!("unexpected token {:?}", t),
    }
}

#[test]
fn lexer_overflowing_integer_reads_as_zero() {
    let mut lx = Lexer::new("99999999999999999999999");
    assert!(matches!(lx.next_token(), Token::Integer(0)));
    let mut lx2 = Lexer::new("9223372036854775807");
    assert!(matches!(lx2.next_token(), Token::Integer(9223372036854775807)));
}

#[test]
fn lexer_skips_unicode_whitespace() {
    let mut lx = Lexer::new("\u{00A0}select\u{2003}*\u{000B};");
    assert!(matches!(lx.next_token(), Token::Select));
    assert!(matches!(lx.next_token(), Token::Star));
    assert!(matches!(lx.next_token(), Token::Semicolon));
    assert!(matches!(lx.next_token(), Token::Eof));
}

#[test]
fn lexer_skips_unknown_characters() {
    let mut lx = Lexer::new("@ # select");
    assert!(matches!(lx.next_token(), Token::Select));
    assert!(matches!(lx.next_token(), Token::Eof));
}

#[test]
fn parser_create_table() {
    let mut p = Parser::new("CREATE TABLE users (id int, name varchar);");
    match p.parse_statement().unwrap() {
        Statement::CreateTable { name, columns } => {
            assert_eq!(name, "users");
            assert_eq!(columns.len(), 2);
            assert_eq!(columns[0].name, "id");
            assert_eq!(columns[0].col_type, "int");
            assert_eq!(columns[1].name, "name");
            assert_eq!(columns[1].col_type, "varchar");
        },
        s => panic!("unexpected statement {:?}", s),
    }
}

#[test]
fn parser_select_with_filter() {
    let mut p = Parser::new("SELECT id, name FROM users WHERE id = 1;");
    match p.parse_statement().unwrap() {
        Statement::Select { columns, from, filter } => {
            assert_eq!(columns, vec!["id".to_string(), "name".to_string()]);
            assert_eq!(from, "users");
            match filter.unwrap() {
                Expression::BinaryOp { left, op, right } => {
                    assert!(matches!(*left, Expression::Identifier(ref s) if s == "id"));
                    assert_eq!(op, "=");
                    assert!(matches!(*right, Expression::Integer(1)));
                },
                e => panic!("unexpected expression {:?}", e),
            }
        },
        s => panic!("unexpected statement {:?}", s),
    }
}

#[test]
fn parser_insert_values() {
    let mut p = Parser::new("INSERT INTO t (a, b) VALUES (1, 'x');");
    match p.parse_statement().unwrap() {
        Statement::Insert { table, columns, values } => {
            assert_eq!(table, "t");
            assert_eq!(columns, vec!["a".to_string(), "b".to_string()]);
            assert_eq!(values.len(), 2);
            assert!(matches!(values[0], Expression::Integer(1)));
            assert!(matches!(values[1], Expression::Literal(ref s) if s == "x"));
        },
        s => panic!("unexpected statement {:?}", s),
    }
}

#[test]
fn parser_update_and_delete() {
    let mut p = Parser::new("UPDATE t SET a = 2 WHERE a = 1;");
    match p.parse_statement().unwrap() {
        Statement::Update { table, updates, filter } => {
            assert_eq!(table, "t");
            assert_eq!(updates.len(), 1);
            assert!(filter.is_some());
        },
        s => panic!("unexpected statement {:?}", s),
    }
    let mut q = Parser::new("DELETE FROM t;");
    match q.parse_statement().unwrap() {
        Statement::Delete { table, filter } => {
            assert_eq!(table, "t");
            assert!(filter.is_none());
        },
        s => panic!("unexpected statement {:?}", s),
    }
}

#[test]
fn parser_rejects_garbage() {
    let mut p = Parser::new("FLY TO the moon;");
    assert!(p.parse_statement().is_err());
    let mut q = Parser::new("CREATE users;");
    assert!(q.parse_statement().is_err());
}

#[test]
fn command_classification() {
    assert!(matches!(parse_command("   "), Command::Empty));
    assert!(matches!(parse_command(""), Command::Empty));
    // All Unicode whitespace counts: vertical tab, form feed, NBSP, ...
    assert!(matches!(parse_command("\u{000B}"), Command::Empty));
    assert!(matches!(parse_command(" \u{000C}\u{00A0}\u{2003} "), Command::Empty));
    match parse_command("\u{000B} .quit \u{3000}") {
        Command::Meta(s) => assert_eq!(s, ".quit"),
        c => panic!("unexpected command {:?}", c),
    }
    match parse_command("  .exit  ") {
        Command::Meta(s) => assert_eq!(s, ".exit"),
        c => panic!("unexpected command {:?}", c),
    }
    match parse_command("  select 1;  ") {
        Command::Statement(s) => assert_eq!(s, "select 1;"),
        c => panic!("unexpected command {:?}", c),
    }
}

#[test]
fn schema_primary_key_index() {
    let schema = Schema::new(
        "t".to_string(),
        vec![
            Column { name: "a".to_string(), data_type: DataType::Integer, is_primary_key: false },
            Column { name: "b".to_string(), data_type: DataType::Integer, is_primary_key: true },
            Column { name: "c".to_string(), data_type: DataType::Boolean, is_primary_key: true },
        ],
    );
    assert_eq!(schema.primary_key_index(), 1);
}

#[test]
fn value_serialize_sizes() {
    assert_eq!(Value::Integer(-5).serialize_size(), 4);
    assert_eq!(Value::Boolean(true).serialize_size(), 1);
    assert_eq!(Value::Varchar(b"abc".to_vec()).serialize_size(), 5);
}

#[test]
fn row_serialize_exact_bytes() {
    let row = Row::new(vec![
        Value::Integer(-2),
        Value::Boolean(true),
        Value::Varchar(b"hi".to_vec()),
    ]);
    let bytes = row.serialize();
    assert_eq!(bytes, vec![0xFE, 0xFF, 0xFF, 0xFF, 1, 2, 0, b'h', b'i']);
}

#[test]
fn row_round_trip() {
    let schema = Schema::new(
        "t".to_string(),
        vec![
            Column { name: "id".to_string(), data_type: DataType::Integer, is_primary_key: true },
            Column { name: "ok".to_string(), data_type: DataType::Boolean, is_primary_key: false },
            Column {
                name: "name".to_string(),
                data_type: DataType::Varchar,
                is_primary_key: false,
            },
        ],
    );
    let row = Row::new(vec![
        Value::Integer(123456789),
        Value::Boolean(false),
        Value::Varchar(b"storage engine".to_vec()),
    ]);
    let bytes = row.serialize();
    let back = Row::deserialize(&bytes, &schema);
    assert_eq!(back.values, row.values);
}
