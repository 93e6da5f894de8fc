use cliparse::demo::demo_schema;
use cliparse::errors::InvalidReason;
use cliparse::errors::ParseError;
use cliparse::parse::ParseResult;
use cliparse::parse::parse;
use cliparse::render::render;

fn sv(xs: &[&str]) -> Vec<String> {
    xs.iter().map(|s| s.to_string()).collect()
}

fn values_of<'a>(r: &'a ParseResult, name: &str) -> Option<&'a Vec<String>> {
    for bv in &r.values {
        if bv.name == name {
            return Some(&bv.values);
        }
    }
    None
}

#[test]
fn config_set_binds_key_value() {
    let schema = demo_schema();
    let r = parse(&schema, &sv(&["config", "--set", "color", "blue"])).unwrap();
    assert_eq!(r.path, sv(&["config"]));
    assert_eq!(values_of(&r, "set").unwrap(), &sv(&["color", "blue"]));
    assert_eq!(values_of(&r, "file").unwrap(), &sv(&["config.yaml"]));
    assert_eq!(values_of(&r, "log_level").unwrap(), &sv(&["info"]));
}

#[test]
fn process_missing_input_files() {
    let schema = demo_schema();
    let errs = parse(&schema, &sv(&["process"])).unwrap_err();
    assert!(errs.iter().any(|e| matches!(
        e,
        ParseError::MissingRequired { names } if names == &sv(&["input_files"])
    )));
}

#[test]
fn process_invalid_options_value() {
    let schema = demo_schema();
    let errs = parse(
        &schema,
        &sv(&["process", "a.txt", "--options", "k=v", "--options", "bad"]),
    )
    .unwrap_err();
    assert_eq!(errs.len(), 1);
    assert!(matches!(
        &errs[0],
        ParseError::InvalidValue { name, value, reason: InvalidReason::NotKeyValue }
            if name == "options" && value == "bad"
    ));
}

#[test]
fn config_group_neither_is_missing_required() {
    let schema = demo_schema();
    let errs = parse(&schema, &sv(&["config"])).unwrap_err();
    assert!(errs.iter().any(|e| matches!(
        e,
        ParseError::MissingRequired { names } if names == &sv(&["set", "get", "list"])
    )));
}

#[test]
fn config_group_both_is_conflict() {
    let schema = demo_schema();
    let errs = parse(&schema, &sv(&["config", "--set", "a", "b", "--get", "x"])).unwrap_err();
    assert!(errs.iter().any(|e| matches!(
        e,
        ParseError::ConflictingArguments { names } if names == &sv(&["set", "get"])
    )));
}

#[test]
fn config_group_exactly_one_succeeds() {
    let schema = demo_schema();
    let r = parse(&schema, &sv(&["config", "--list"])).unwrap();
    assert_eq!(values_of(&r, "list").unwrap(), &Vec::<String>::new());
}

#[test]
fn config_set_arity_shortfall() {
    let schema = demo_schema();
    let errs = parse(&schema, &sv(&["config", "--set", "color"])).unwrap_err();
    assert!(errs.iter().any(|e| matches!(
        e,
        ParseError::ArityError { name, expected: 2, got: 1 } if name == "set"
    )));
}

#[test]
fn config_set_arity_exact_binds_in_order() {
    let schema = demo_schema();
    let r = parse(&schema, &sv(&["config", "--set", "a", "b"])).unwrap();
    assert_eq!(values_of(&r, "set").unwrap(), &sv(&["a", "b"]));
}

#[test]
fn parse_is_idempotent() {
    let schema = demo_schema();
    let args = sv(&["config", "--set", "color", "blue"]);
    let r1 = parse(&schema, &args);
    let r2 = parse(&schema, &args);
    assert_eq!(r1, r2);
    let bad = sv(&["process"]);
    assert_eq!(parse(&schema, &bad), parse(&schema, &bad));
}

#[test]
fn round_trip_rebinds_same_values() {
    let schema = demo_schema();
    let r1 = parse(&schema, &sv(&["config", "--set", "color", "blue"])).unwrap();
    let config = &schema.children[1];
    let rendered = render(config, &r1);
    let r2 = parse(config, &rendered).unwrap();
    assert_eq!(r1.values, r2.values);
    assert_eq!(r2.path, Vec::<String>::new());
}

#[test]
fn files_source_required() {
    let schema = demo_schema();
    let errs = parse(&schema, &sv(&["files"])).unwrap_err();
    assert!(errs.iter().any(|e| matches!(
        e,
        ParseError::MissingRequired { names } if names == &sv(&["source"])
    )));
}

#[test]
fn unknown_long_flag() {
    let schema = demo_schema();
    let errs = parse(&schema, &sv(&["config", "--bogus", "x"])).unwrap_err();
    assert_eq!(errs.len(), 1);
    assert!(matches!(&errs[0], ParseError::UnknownArgument { name } if name == "bogus"));
}

#[test]
fn unknown_cluster_letter_is_token_error() {
    let schema = demo_schema();
    let errs = parse(&schema, &sv(&["files", "-zq"])).unwrap_err();
    assert_eq!(errs.len(), 1);
    assert!(matches!(&errs[0], ParseError::TokenError { text } if text == "-zq"));
}

#[test]
fn separator_turns_flags_into_positionals() {
    let schema = demo_schema();
    let r = parse(&schema, &sv(&["process", "--", "--not-a-flag"])).unwrap();
    assert_eq!(values_of(&r, "input_files").unwrap(), &sv(&["--not-a-flag"]));
}

#[test]
fn cluster_of_switches() {
    let schema = demo_schema();
    let r = parse(&schema, &sv(&["files", "--source", "s", "-rv"])).unwrap();
    assert_eq!(values_of(&r, "recursive").unwrap(), &Vec::<String>::new());
    assert_eq!(values_of(&r, "verbose").unwrap(), &Vec::<String>::new());
}

#[test]
fn glued_long_value() {
    let schema = demo_schema();
    let r = parse(&schema, &sv(&["files", "--source=src.txt"])).unwrap();
    assert_eq!(values_of(&r, "source").unwrap(), &sv(&["src.txt"]));
}

#[test]
fn glued_short_value() {
    let schema = demo_schema();
    let r = parse(&schema, &sv(&["files", "-sfoo"])).unwrap();
    assert_eq!(values_of(&r, "source").unwrap(), &sv(&["foo"]));
}

#[test]
fn empty_args_select_root_with_defaults() {
    let schema = demo_schema();
    let r = parse(&schema, &sv(&[])).unwrap();
    assert_eq!(r.path, Vec::<String>::new());
    assert_eq!(values_of(&r, "log_level").unwrap(), &sv(&["info"]));
    assert!(values_of(&r, "verbose").is_none());
}

#[test]
fn unexpected_positional() {
    let schema = demo_schema();
    let errs = parse(&schema, &sv(&["config", "--list", "extra"])).unwrap_err();
    assert!(errs.iter().any(|e| matches!(
        e,
        ParseError::UnexpectedArgument { text } if text == "extra"
    )));
}

#[test]
fn threads_must_be_integer() {
    let schema = demo_schema();
    let errs = parse(&schema, &sv(&["process", "a.txt", "--threads", "abc"])).unwrap_err();
    assert!(errs.iter().any(|e| matches!(
        e,
        ParseError::InvalidValue { name, reason: InvalidReason::NotInteger, .. } if name == "threads"
    )));
}

#[test]
fn format_must_be_in_choice() {
    let schema = demo_schema();
    let errs = parse(&schema, &sv(&["process", "a.txt", "--format", "xml"])).unwrap_err();
    assert!(errs.iter().any(|e| matches!(
        e,
        ParseError::InvalidValue { name, reason: InvalidReason::NotInChoice, .. } if name == "format"
    )));
    let ok = parse(&schema, &sv(&["process", "a.txt", "--format", "json"])).unwrap();
    assert_eq!(values_of(&ok, "format").unwrap(), &sv(&["json"]));
}

#[test]
fn repeatable_flag_accumulates_in_order() {
    let schema = demo_schema();
    let r = parse(
        &schema,
        &sv(&["files", "--source", "s", "--patterns", "a", "b", "--patterns", "c"]),
    )
    .unwrap();
    assert_eq!(values_of(&r, "patterns").unwrap(), &sv(&["a", "b", "c"]));
}

#[test]
fn non_repeatable_flag_last_occurrence_wins() {
    let schema = demo_schema();
    let r = parse(&schema, &sv(&["files", "--source", "s1", "--source", "s2"])).unwrap();
    assert_eq!(values_of(&r, "source").unwrap(), &sv(&["s2"]));
}

#[test]
fn empty_string_is_a_value() {
    let schema = demo_schema();
    let r = parse(&schema, &sv(&["config", "--set", "", "x"])).unwrap();
    assert_eq!(values_of(&r, "set").unwrap(), &sv(&["", "x"]));
}

#[test]
fn aggregated_errors_report_everything_at_once() {
    let schema = demo_schema();
    let errs = parse(
        &schema,
        &sv(&["process", "--threads", "abc", "--format", "xml"]),
    )
    .unwrap_err();
    assert!(errs.iter().any(|e| matches!(
        e,
        ParseError::MissingRequired { names } if names == &sv(&["input_files"])
    )));
    assert!(errs.iter().any(|e| matches!(e, ParseError::InvalidValue { name, .. } if name == "threads")));
    assert!(errs.iter().any(|e| matches!(e, ParseError::InvalidValue { name, .. } if name == "format")));
}

#[test]
fn at_least_one_flag_with_no_value() {
    let schema = demo_schema();
    let errs = parse(&schema, &sv(&["files", "--source", "s", "--patterns"])).unwrap_err();
    assert!(errs.iter().any(|e| matches!(
        e,
        ParseError::ArityError { name, expected: 1, got: 0 } if name == "patterns"
    )));
}

#[test]
fn separator_stops_a_value_run() {
    let schema = demo_schema();
    let errs = parse(&schema, &sv(&["config", "--set", "a", "--", "b"])).unwrap_err();
    assert!(errs.iter().any(|e| matches!(
        e,
        ParseError::ArityError { name, expected: 2, got: 1 } if name == "set"
    )));
    assert!(errs.iter().any(|e| matches!(
        e,
        ParseError::UnexpectedArgument { text } if text == "b"
    )));
}
