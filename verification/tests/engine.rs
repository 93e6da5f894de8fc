use cliparse::bind::BoundValue;
use cliparse::errors::InvalidReason;
use cliparse::errors::ParseError;
use cliparse::report::render_error;
use cliparse::report::render_errors;
use cliparse::report::render_usage;
use cliparse::report::render_usize;
use cliparse::schema::ArgSpec;
use cliparse::schema::Arity;
use cliparse::schema::CommandSpec;
use cliparse::schema::GroupSpec;
use cliparse::schema::ValueKind;
use cliparse::token::Token;
use cliparse::token::TokenKind;
use cliparse::token::tokenize;
use cliparse::validate::parse_key_val;

fn sv(xs: &[&str]) -> Vec<String> {
    xs.iter().map(|s| s.to_string()).collect()
}

fn tiny_command() -> CommandSpec {
    CommandSpec {
        name: "t".to_string(),
        args: vec![
            ArgSpec {
                name: "x".to_string(),
                long: Some("x".to_string()),
                short: Some('x'),
                positional: false,
                arity: Arity::Exact(1),
                kind: ValueKind::Text,
                required: false,
                repeatable: false,
                default: Some(vec!["1".to_string()]),
            },
            ArgSpec {
                name: "quiet".to_string(),
                long: Some("quiet".to_string()),
                short: Some('q'),
                positional: false,
                arity: Arity::Exact(0),
                kind: ValueKind::Text,
                required: false,
                repeatable: false,
                default: None,
            },
        ],
        groups: Vec::new(),
        children: Vec::new(),
    }
}

#[test]
fn parse_key_val_splits_at_first_equals() {
    assert_eq!(
        parse_key_val("k=v"),
        Ok(("k".to_string(), "v".to_string()))
    );
    assert_eq!(
        parse_key_val("a=b=c"),
        Ok(("a".to_string(), "b=c".to_string()))
    );
    assert_eq!(parse_key_val("=v"), Ok(("".to_string(), "v".to_string())));
}

#[test]
fn parse_key_val_rejects_without_equals() {
    assert_eq!(
        parse_key_val("bad"),
        Err("invalid KEY=value: no `=` found in `bad`".to_string())
    );
}

#[test]
fn tokenizer_splits_glued_long_flag() {
    let c = tiny_command();
    let ts = tokenize(&sv(&["--x=7", "v"]), 0, &c).unwrap();
    assert_eq!(
        ts,
        vec![
            Token { kind: TokenKind::LongFlag, text: "x".to_string() },
            Token { kind: TokenKind::Value, text: "7".to_string() },
            Token { kind: TokenKind::Value, text: "v".to_string() },
        ]
    );
}

#[test]
fn tokenizer_expands_cluster_with_glued_value() {
    let c = tiny_command();
    let ts = tokenize(&sv(&["-qx7"]), 0, &c).unwrap();
    assert_eq!(
        ts,
        vec![
            Token { kind: TokenKind::ShortFlag, text: "q".to_string() },
            Token { kind: TokenKind::ShortFlag, text: "x".to_string() },
            Token { kind: TokenKind::Value, text: "7".to_string() },
        ]
    );
}

#[test]
fn tokenizer_marks_separator() {
    let c = tiny_command();
    let ts = tokenize(&sv(&["--", "-q"]), 0, &c).unwrap();
    assert_eq!(ts[0].kind, TokenKind::Separator);
    assert_eq!(ts[1], Token { kind: TokenKind::Value, text: "-q".to_string() });
}

#[test]
fn lone_dash_is_a_value() {
    let c = tiny_command();
    let ts = tokenize(&sv(&["-"]), 0, &c).unwrap();
    assert_eq!(ts, vec![Token { kind: TokenKind::Value, text: "-".to_string() }]);
}

#[test]
fn render_usize_exact() {
    assert_eq!(render_usize(0), "0".to_string());
    assert_eq!(render_usize(9), "9".to_string());
    assert_eq!(render_usize(907), "907".to_string());
}

#[test]
fn error_messages_exact() {
    assert_eq!(
        render_error(&ParseError::TokenError { text: "-zq".to_string() }),
        "malformed argument `-zq`".to_string()
    );
    assert_eq!(
        render_error(&ParseError::UnknownArgument { name: "bogus".to_string() }),
        "unknown argument `bogus`".to_string()
    );
    assert_eq!(
        render_error(&ParseError::ArityError { name: "set".to_string(), expected: 2, got: 1 }),
        "argument `set` expected 2 value(s), got 1".to_string()
    );
    assert_eq!(
        render_error(&ParseError::UnexpectedArgument { text: "extra".to_string() }),
        "unexpected argument `extra`".to_string()
    );
    assert_eq!(
        render_error(&ParseError::MissingRequired { names: sv(&["set", "get", "list"]) }),
        "missing required: set, get, list".to_string()
    );
    assert_eq!(
        render_error(&ParseError::ConflictingArguments { names: sv(&["set", "get"]) }),
        "conflicting arguments: set, get".to_string()
    );
    assert_eq!(
        render_error(
            &ParseError::InvalidValue {
                name: "options".to_string(),
                value: "bad".to_string(),
                reason: InvalidReason::NotKeyValue,
            }
        ),
        "invalid value `bad` for `options`: no `=` found".to_string()
    );
}

#[test]
fn error_report_one_line_each() {
    let errs = vec![
        ParseError::UnknownArgument { name: "a".to_string() },
        ParseError::UnexpectedArgument { text: "b".to_string() },
    ];
    assert_eq!(
        render_errors(&errs),
        "unknown argument `a`\nunexpected argument `b`\n".to_string()
    );
}

#[test]
fn usage_text_exact() {
    let c = tiny_command();
    assert_eq!(
        render_usage(&c),
        "usage: t\n  --x (default: 1)\n  --quiet\n".to_string()
    );
}

#[test]
fn usage_shows_positional() {
    let c = CommandSpec {
        name: "p".to_string(),
        args: vec![ArgSpec {
            name: "input".to_string(),
            long: None,
            short: None,
            positional: true,
            arity: Arity::AtLeastOne,
            kind: ValueKind::PathName,
            required: true,
            repeatable: false,
            default: None,
        }],
        groups: Vec::new(),
        children: Vec::new(),
    };
    assert_eq!(render_usage(&c), "usage: p\n  <input>\n".to_string());
}

#[test]
fn group_spec_holds_members() {
    let g = GroupSpec { members: sv(&["a", "b"]), required: true };
    assert_eq!(g.members.len(), 2);
    assert!(g.required);
}

#[test]
fn bound_value_equality() {
    let a = BoundValue { name: "n".to_string(), values: sv(&["1"]) };
    let b = BoundValue { name: "n".to_string(), values: sv(&["1"]) };
    assert_eq!(a, b);
}
