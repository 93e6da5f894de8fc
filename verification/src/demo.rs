//! The illustrative schema: a small tool with three subcommands (file
//! operations, configuration management, data processing), built through
//! the registration API rather than derived from annotations.
//!
//! The spec predicates ([`demo_schema_spec`] and the per-command ones) pin
//! every declared argument field by field, so what [`demo_schema`] returns
//! is fixed by its contract alone.
//!
//! The two global options (`--log-level`, `--verbose`) are registered on
//! the root and on every subcommand, which is what a global option
//! compiles down to in this engine.

use vstd::prelude::*;
use vstd::string::StringExecFns;
use crate::schema::Arity;
use crate::schema::ArgSpec;
use crate::schema::CommandSpec;
use crate::schema::GroupSpec;
use crate::schema::ValueKind;

verus! {

/// One declared argument, every field but the value kind pinned.
pub open spec fn arg_is(
    a: ArgSpec,
    name: Seq<char>,
    long: Option<Seq<char>>,
    short: Option<char>,
    positional: bool,
    arity: Arity,
    required: bool,
    repeatable: bool,
    default: Option<Seq<Seq<char>>>,
) -> bool {
    &&& a.name@ == name
    &&& match long {
        Some(l) => a.long matches Some(x) && x@ == l,
        None => a.long is None,
    }
    &&& a.short == short
    &&& a.positional == positional
    &&& a.arity == arity
    &&& a.required == required
    &&& a.repeatable == repeatable
    &&& match default {
        Some(d) => a.default matches Some(x) && x.deep_view() == d,
        None => a.default is None,
    }
}

/// The two global options at positions `base` and `base + 1`: `log_level`
/// (a choice among the four levels, defaulting to `info`) and the
/// `verbose` switch.
pub open spec fn global_args_spec(args: Seq<ArgSpec>, base: int) -> bool {
    &&& arg_is(
        args[base],
        "log_level"@,
        Some("log-level"@),
        Some('l'),
        false,
        Arity::Exact(1usize),
        false,
        false,
        Some(seq!["info"@]),
    )
    &&& (args[base].kind matches ValueKind::Choice(vs) && vs.deep_view() == seq![
        "debug"@,
        "info"@,
        "warning"@,
        "error"@,
    ])
    &&& arg_is(
        args[base + 1],
        "verbose"@,
        Some("verbose"@),
        Some('v'),
        false,
        Arity::Exact(0usize),
        false,
        false,
        None,
    )
    &&& args[base + 1].kind == ValueKind::Text
}

/// The `files` subcommand, argument by argument.
pub open spec fn files_command_spec(c: CommandSpec) -> bool {
    &&& c.name@ == "files"@
    &&& c.children@.len() == 0
    &&& c.groups@.len() == 0
    &&& c.args@.len() == 7
    &&& arg_is(
        c.args@[0],
        "source"@,
        Some("source"@),
        Some('s'),
        false,
        Arity::Exact(1usize),
        true,
        false,
        None,
    )
    &&& c.args@[0].kind == ValueKind::PathName
    &&& arg_is(
        c.args@[1],
        "destination"@,
        Some("destination"@),
        Some('d'),
        false,
        Arity::Exact(1usize),
        false,
        false,
        None,
    )
    &&& c.args@[1].kind == ValueKind::PathName
    &&& arg_is(
        c.args@[2],
        "recursive"@,
        Some("recursive"@),
        Some('r'),
        false,
        Arity::Exact(0usize),
        false,
        false,
        None,
    )
    &&& c.args@[2].kind == ValueKind::Text
    &&& arg_is(
        c.args@[3],
        "patterns"@,
        Some("patterns"@),
        Some('p'),
        false,
        Arity::AtLeastOne,
        false,
        true,
        None,
    )
    &&& c.args@[3].kind == ValueKind::Text
    &&& arg_is(
        c.args@[4],
        "max_depth"@,
        Some("max-depth"@),
        None,
        false,
        Arity::Exact(1usize),
        false,
        false,
        Some(seq!["10"@]),
    )
    &&& c.args@[4].kind == ValueKind::Integer
    &&& global_args_spec(c.args@, 5)
}

/// The `config` subcommand, argument by argument, with its required group
/// over `set`, `get` and `list`.
pub open spec fn config_command_spec(c: CommandSpec) -> bool {
    &&& c.name@ == "config"@
    &&& c.children@.len() == 0
    &&& c.args@.len() == 6
    &&& arg_is(
        c.args@[0],
        "set"@,
        Some("set"@),
        Some('s'),
        false,
        Arity::Exact(2usize),
        false,
        false,
        None,
    )
    &&& c.args@[0].kind == ValueKind::Text
    &&& arg_is(
        c.args@[1],
        "get"@,
        Some("get"@),
        Some('g'),
        false,
        Arity::Exact(1usize),
        false,
        false,
        None,
    )
    &&& c.args@[1].kind == ValueKind::Text
    &&& arg_is(
        c.args@[2],
        "list"@,
        Some("list"@),
        None,
        false,
        Arity::Exact(0usize),
        false,
        false,
        None,
    )
    &&& c.args@[2].kind == ValueKind::Text
    &&& arg_is(
        c.args@[3],
        "file"@,
        Some("file"@),
        Some('f'),
        false,
        Arity::Exact(1usize),
        false,
        false,
        Some(seq!["config.yaml"@]),
    )
    &&& c.args@[3].kind == ValueKind::PathName
    &&& global_args_spec(c.args@, 4)
    &&& c.groups@.len() == 1
    &&& c.groups@[0].required
    &&& c.groups@[0].members.deep_view() == seq!["set"@, "get"@, "list"@]
}

/// The `process` subcommand, argument by argument.
pub open spec fn process_command_spec(c: CommandSpec) -> bool {
    &&& c.name@ == "process"@
    &&& c.children@.len() == 0
    &&& c.groups@.len() == 0
    &&& c.args@.len() == 8
    &&& arg_is(
        c.args@[0],
        "input_files"@,
        None,
        None,
        true,
        Arity::AtLeastOne,
        true,
        false,
        None,
    )
    &&& c.args@[0].kind == ValueKind::PathName
    &&& arg_is(
        c.args@[1],
        "format"@,
        Some("format"@),
        Some('f'),
        false,
        Arity::Exact(1usize),
        false,
        false,
        Some(seq!["text"@]),
    )
    &&& (c.args@[1].kind matches ValueKind::Choice(vs) && vs.deep_view() == seq![
        "json"@,
        "yaml"@,
        "text"@,
    ])
    &&& arg_is(
        c.args@[2],
        "threads"@,
        Some("threads"@),
        Some('t'),
        false,
        Arity::Exact(1usize),
        false,
        false,
        Some(seq!["1"@]),
    )
    &&& c.args@[2].kind == ValueKind::Integer
    &&& arg_is(
        c.args@[3],
        "batch_size"@,
        Some("batch-size"@),
        Some('b'),
        false,
        Arity::Exact(1usize),
        false,
        false,
        Some(seq!["100"@]),
    )
    &&& c.args@[3].kind == ValueKind::Integer
    &&& arg_is(
        c.args@[4],
        "dry_run"@,
        Some("dry-run"@),
        None,
        false,
        Arity::Exact(0usize),
        false,
        false,
        None,
    )
    &&& c.args@[4].kind == ValueKind::Text
    &&& arg_is(
        c.args@[5],
        "options"@,
        Some("options"@),
        Some('o'),
        false,
        Arity::Exact(1usize),
        false,
        true,
        None,
    )
    &&& c.args@[5].kind == ValueKind::KeyValue
    &&& global_args_spec(c.args@, 6)
}

/// The whole illustrative schema: the root with the two global options and
/// the three subcommands, each pinned by its own predicate.
pub open spec fn demo_schema_spec(c: CommandSpec) -> bool {
    &&& c.name@ == "mycli"@
    &&& c.groups@.len() == 0
    &&& c.args@.len() == 2
    &&& global_args_spec(c.args@, 0)
    &&& c.children@.len() == 3
    &&& files_command_spec(c.children@[0])
    &&& config_command_spec(c.children@[1])
    &&& process_command_spec(c.children@[2])
}

/// A flag argument with the given aliases and shape.
fn flag(
    name: &str,
    long: &str,
    short: Option<char>,
    arity: Arity,
    kind: ValueKind,
    required: bool,
    repeatable: bool,
) -> (r: ArgSpec)
    ensures
        r.name@ == name@,
        r.long matches Some(l) && l@ == long@,
        r.short == short,
        !r.positional,
        r.arity == arity,
        r.kind == kind,
        r.required == required,
        r.repeatable == repeatable,
        r.default is None,
{
    ArgSpec {
        name: String::from_str(name),
        long: Some(String::from_str(long)),
        short,
        positional: false,
        arity,
        kind,
        required,
        repeatable,
        default: None,
    }
}

/// `base`, with a one-value default.
fn with_default(base: ArgSpec, value: &str) -> (r: ArgSpec)
    ensures
        r == (ArgSpec {
            default: Some(r.default.unwrap()),
            ..base
        }),
        r.default matches Some(d) && d.deep_view() == seq![value@],
{
    let mut d: Vec<String> = Vec::new();
    d.push(String::from_str(value));
    proof {
        assert(d.deep_view() =~= seq![value@]);
    }
    ArgSpec { default: Some(d), ..base }
}

/// The closed value set of the logging level.
fn log_level_values() -> (r: Vec<String>)
    ensures
        r.deep_view() == seq!["debug"@, "info"@, "warning"@, "error"@],
{
    let mut v: Vec<String> = Vec::new();
    v.push(String::from_str("debug"));
    v.push(String::from_str("info"));
    v.push(String::from_str("warning"));
    v.push(String::from_str("error"));
    proof {
        assert(v.deep_view() =~= seq!["debug"@, "info"@, "warning"@, "error"@]);
    }
    v
}

/// Registers the two options every command of the tool accepts.
fn global_args(args: &mut Vec<ArgSpec>)
    ensures
        final(args)@.len() == old(args)@.len() + 2,
        forall|i: int| 0 <= i < old(args)@.len() ==> #[trigger] final(args)@[i] == old(args)@[i],
        global_args_spec(final(args)@, old(args)@.len() as int),
{
    let ll = flag(
        "log_level",
        "log-level",
        Some('l'),
        Arity::Exact(1),
        ValueKind::Choice(log_level_values()),
        false,
        false,
    );
    args.push(with_default(ll, "info"));
    args.push(flag("verbose", "verbose", Some('v'), Arity::Exact(0), ValueKind::Text, false, false));
}

/// The `files` subcommand: copy-style file operations.
fn files_command() -> (r: CommandSpec)
    ensures
        files_command_spec(r),
{
    let mut args: Vec<ArgSpec> = Vec::new();
    args.push(
        flag("source", "source", Some('s'), Arity::Exact(1), ValueKind::PathName, true, false),
    );
    args.push(
        flag(
            "destination",
            "destination",
            Some('d'),
            Arity::Exact(1),
            ValueKind::PathName,
            false,
            false,
        ),
    );
    args.push(
        flag("recursive", "recursive", Some('r'), Arity::Exact(0), ValueKind::Text, false, false),
    );
    args.push(
        flag("patterns", "patterns", Some('p'), Arity::AtLeastOne, ValueKind::Text, false, true),
    );
    let md = flag("max_depth", "max-depth", None, Arity::Exact(1), ValueKind::Integer, false, false);
    args.push(with_default(md, "10"));
    global_args(&mut args);
    CommandSpec {
        name: String::from_str("files"),
        args,
        groups: Vec::new(),
        children: Vec::new(),
    }
}

/// The `config` subcommand: exactly one of `set`, `get` or `list`.
fn config_command() -> (r: CommandSpec)
    ensures
        config_command_spec(r),
{
    let mut args: Vec<ArgSpec> = Vec::new();
    args.push(flag("set", "set", Some('s'), Arity::Exact(2), ValueKind::Text, false, false));
    args.push(flag("get", "get", Some('g'), Arity::Exact(1), ValueKind::Text, false, false));
    args.push(flag("list", "list", None, Arity::Exact(0), ValueKind::Text, false, false));
    let cf = flag("file", "file", Some('f'), Arity::Exact(1), ValueKind::PathName, false, false);
    args.push(with_default(cf, "config.yaml"));
    global_args(&mut args);
    let mut members: Vec<String> = Vec::new();
    members.push(String::from_str("set"));
    members.push(String::from_str("get"));
    members.push(String::from_str("list"));
    proof {
        assert(members.deep_view() =~= seq!["set"@, "get"@, "list"@]);
    }
    let mut groups: Vec<GroupSpec> = Vec::new();
    groups.push(GroupSpec { members, required: true });
    CommandSpec { name: String::from_str("config"), args, groups, children: Vec::new() }
}

/// The closed value set of the output format.
fn format_values() -> (r: Vec<String>)
    ensures
        r.deep_view() == seq!["json"@, "yaml"@, "text"@],
{
    let mut v: Vec<String> = Vec::new();
    v.push(String::from_str("json"));
    v.push(String::from_str("yaml"));
    v.push(String::from_str("text"));
    proof {
        assert(v.deep_view() =~= seq!["json"@, "yaml"@, "text"@]);
    }
    v
}

/// The `process` subcommand: batch processing of input files.
fn process_command() -> (r: CommandSpec)
    ensures
        process_command_spec(r),
{
    let mut args: Vec<ArgSpec> = Vec::new();
    args.push(
        ArgSpec {
            name: String::from_str("input_files"),
            long: None,
            short: None,
            positional: true,
            arity: Arity::AtLeastOne,
            kind: ValueKind::PathName,
            required: true,
            repeatable: false,
            default: None,
        },
    );
    let fm = flag(
        "format",
        "format",
        Some('f'),
        Arity::Exact(1),
        ValueKind::Choice(format_values()),
        false,
        false,
    );
    args.push(with_default(fm, "text"));
    let th = flag("threads", "threads", Some('t'), Arity::Exact(1), ValueKind::Integer, false, false);
    args.push(with_default(th, "1"));
    let bs = flag(
        "batch_size",
        "batch-size",
        Some('b'),
        Arity::Exact(1),
        ValueKind::Integer,
        false,
        false,
    );
    args.push(with_default(bs, "100"));
    args.push(flag("dry_run", "dry-run", None, Arity::Exact(0), ValueKind::Text, false, false));
    args.push(flag("options", "options", Some('o'), Arity::Exact(1), ValueKind::KeyValue, false, true));
    global_args(&mut args);
    CommandSpec {
        name: String::from_str("process"),
        args,
        groups: Vec::new(),
        children: Vec::new(),
    }
}

/// The whole illustrative schema: root command with the three subcommands,
/// exactly as [`demo_schema_spec`] pins it.
pub fn demo_schema() -> (r: CommandSpec)
    ensures
        demo_schema_spec(r),
{
    let mut args: Vec<ArgSpec> = Vec::new();
    global_args(&mut args);
    let mut children: Vec<CommandSpec> = Vec::new();
    children.push(files_command());
    children.push(config_command());
    children.push(process_command());
    CommandSpec { name: String::from_str("mycli"), args, groups: Vec::new(), children }
}

} // verus!
