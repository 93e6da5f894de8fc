//! The reporter: renders usage text and error messages as strings for the
//! caller to emit. Pure formatting; every function's output is pinned down
//! by a spec-level text.

use vstd::prelude::*;
use vstd::string::StringExecFns;
use crate::schema::ArgSpec;
use crate::schema::CommandSpec;
use crate::errors::ErrModel;
use crate::errors::InvalidReason;
use crate::errors::ParseError;

verus! {

/// The decimal digit character of `d`.
pub open spec fn digit_char(d: int) -> char {
    if d == 0 {
        '0'
    } else if d == 1 {
        '1'
    } else if d == 2 {
        '2'
    } else if d == 3 {
        '3'
    } else if d == 4 {
        '4'
    } else if d == 5 {
        '5'
    } else if d == 6 {
        '6'
    } else if d == 7 {
        '7'
    } else if d == 8 {
        '8'
    } else {
        '9'
    }
}

/// The decimal rendering of `n`, most significant digit first.
pub open spec fn dec_text(n: nat) -> Seq<char>
    decreases n,
{
    if n < 10 {
        seq![digit_char(n as int)]
    } else {
        dec_text(n / 10).push(digit_char((n % 10) as int))
    }
}

/// One decimal digit as a string slice.
fn digit_str(d: usize) -> (r: &'static str)
    requires
        d < 10,
    ensures
        r@ == seq![digit_char(d as int)],
{
    proof {
        reveal_strlit("0");
        reveal_strlit("1");
        reveal_strlit("2");
        reveal_strlit("3");
        reveal_strlit("4");
        reveal_strlit("5");
        reveal_strlit("6");
        reveal_strlit("7");
        reveal_strlit("8");
        reveal_strlit("9");
    }
    let r = match d {
        0 => "0",
        1 => "1",
        2 => "2",
        3 => "3",
        4 => "4",
        5 => "5",
        6 => "6",
        7 => "7",
        8 => "8",
        _ => "9",
    };
    proof {
        assert(r@ =~= seq![digit_char(d as int)]);
    }
    r
}

/// Renders `n` in decimal.
pub fn render_usize(n: usize) -> (r: String)
    ensures
        r@ == dec_text(n as nat),
    decreases n,
{
    if n < 10 {
        String::from_str(digit_str(n))
    } else {
        let mut s = render_usize(n / 10);
        s.append(digit_str(n % 10));
        proof {
            assert(s@ =~= dec_text(n as nat));
        }
        s
    }
}

/// The names joined with `", "`, from `i` on.
pub open spec fn joined_names(names: Seq<Seq<char>>, i: int) -> Seq<char>
    decreases names.len() - i,
{
    if i < 0 || i >= names.len() {
        Seq::empty()
    } else if i == names.len() - 1 {
        names[i]
    } else {
        names[i] + ", "@ + joined_names(names, i + 1)
    }
}

/// Joins the names with `", "`, from `i` on.
fn join_names(names: &Vec<String>, i: usize, out: &mut String)
    ensures
        final(out)@ == old(out)@ + joined_names(names.deep_view(), i as int),
    decreases names.len() - i,
{
    if i >= names.len() {
        assert(out@ =~= out@ + Seq::<char>::empty());
        return ;
    }
    out.append(names[i].as_str());
    if i + 1 < names.len() {
        out.append(", ");
        join_names(names, i + 1, out);
        proof {
            assert(out@ =~= old(out)@ + joined_names(names.deep_view(), i as int));
        }
    } else {
        proof {
            assert(names.deep_view()[i as int] == names@[i as int]@);
            assert(out@ =~= old(out)@ + joined_names(names.deep_view(), i as int));
        }
    }
}

/// What the reason of an invalid value reads as.
pub open spec fn reason_text(r: InvalidReason) -> Seq<char> {
    match r {
        InvalidReason::NotInteger => "not an integer"@,
        InvalidReason::NotKeyValue => "no `=` found"@,
        InvalidReason::NotInChoice => "not an allowed value"@,
    }
}

/// The one-line message of one failure.
pub open spec fn err_text(e: ErrModel) -> Seq<char> {
    match e {
        ErrModel::TokenError { text } => "malformed argument `"@ + text + "`"@,
        ErrModel::UnknownArgument { name } => "unknown argument `"@ + name + "`"@,
        ErrModel::ArityError { name, expected, got } => "argument `"@ + name + "` expected "@
            + dec_text(expected) + " value(s), got "@ + dec_text(got),
        ErrModel::UnexpectedArgument { text } => "unexpected argument `"@ + text + "`"@,
        ErrModel::MissingRequired { names } => "missing required: "@ + joined_names(names, 0),
        ErrModel::ConflictingArguments { names } => "conflicting arguments: "@ + joined_names(
            names,
            0,
        ),
        ErrModel::InvalidValue { name, value, reason } => "invalid value `"@ + value + "` for `"@
            + name + "`: "@ + reason_text(reason),
    }
}

/// Renders the one-line message of one failure.
pub fn render_error(e: &ParseError) -> (r: String)
    ensures
        r@ == err_text(e@),
{
    let mut out = String::new();
    match e {
        ParseError::TokenError { text } => {
            out.append("malformed argument `");
            out.append(text.as_str());
            out.append("`");
        },
        ParseError::UnknownArgument { name } => {
            out.append("unknown argument `");
            out.append(name.as_str());
            out.append("`");
        },
        ParseError::ArityError { name, expected, got } => {
            out.append("argument `");
            out.append(name.as_str());
            out.append("` expected ");
            let exp = render_usize(*expected);
            out.append(exp.as_str());
            out.append(" value(s), got ");
            let g = render_usize(*got);
            out.append(g.as_str());
        },
        ParseError::UnexpectedArgument { text } => {
            out.append("unexpected argument `");
            out.append(text.as_str());
            out.append("`");
        },
        ParseError::MissingRequired { names } => {
            out.append("missing required: ");
            join_names(names, 0, &mut out);
        },
        ParseError::ConflictingArguments { names } => {
            out.append("conflicting arguments: ");
            join_names(names, 0, &mut out);
        },
        ParseError::InvalidValue { name, value, reason } => {
            out.append("invalid value `");
            out.append(value.as_str());
            out.append("` for `");
            out.append(name.as_str());
            out.append("`: ");
            match reason {
                InvalidReason::NotInteger => out.append("not an integer"),
                InvalidReason::NotKeyValue => out.append("no `=` found"),
                InvalidReason::NotInChoice => out.append("not an allowed value"),
            }
        },
    }
    proof {
        assert(out@ =~= err_text(e@));
    }
    out
}

/// The whole report: one line per failure.
pub open spec fn report_text(errs: Seq<ErrModel>, i: int) -> Seq<char>
    decreases errs.len() - i,
{
    if i < 0 || i >= errs.len() {
        Seq::empty()
    } else {
        err_text(errs[i]) + "\n"@ + report_text(errs, i + 1)
    }
}

/// Renders every failure of one invocation, one line each.
pub fn render_errors(errs: &Vec<ParseError>) -> (r: String)
    ensures
        r@ == report_text(errs.deep_view(), 0),
{
    let mut out = String::new();
    let mut i: usize = 0;
    while i < errs.len()
        invariant
            0 <= i <= errs.len(),
            out@ == report_text(errs.deep_view(), 0).subrange(
                0,
                out@.len() as int,
            ) && report_text(errs.deep_view(), 0) == out@ + report_text(
                errs.deep_view(),
                i as int,
            ),
        decreases errs.len() - i,
    {
        let line = render_error(&errs[i]);
        out.append(line.as_str());
        out.append("\n");
        proof {
            assert(errs.deep_view()[i as int] == errs@[i as int]@);
            assert(report_text(errs.deep_view(), 0) =~= out@ + report_text(
                errs.deep_view(),
                i as int + 1,
            ));
            assert(out@ =~= report_text(errs.deep_view(), 0).subrange(0, out@.len() as int));
        }
        i = i + 1;
    }
    proof {
        assert(out@ =~= report_text(errs.deep_view(), 0));
    }
    out
}

/// The usage line of one argument: its syntax and, where one is declared,
/// its default.
pub open spec fn arg_usage_text(a: ArgSpec) -> Seq<char> {
    let head = if a.positional {
        "  <"@ + a.name@ + ">"@
    } else if a.long is Some {
        "  --"@ + a.long.unwrap()@
    } else {
        "  "@ + a.name@
    };
    let tail = if a.default is Some {
        " (default: "@ + joined_names(a.default.unwrap().deep_view(), 0) + ")"@
    } else {
        Seq::empty()
    };
    head + tail + "\n"@
}

/// The usage text of one command: its syntax line, then one line per
/// declared argument, defaults shown.
pub open spec fn usage_text(c: CommandSpec, i: int) -> Seq<char>
    decreases c.args@.len() - i,
{
    if i < 0 || i >= c.args@.len() {
        Seq::empty()
    } else {
        arg_usage_text(c.args@[i]) + usage_text(c, i + 1)
    }
}

/// The full usage text: `usage: <name>` then the per-argument lines.
pub open spec fn full_usage_text(c: CommandSpec) -> Seq<char> {
    "usage: "@ + c.name@ + "\n"@ + usage_text(c, 0)
}

/// Renders the usage text of the command: its name, then one line per
/// declared argument, defaults shown.
pub fn render_usage(c: &CommandSpec) -> (r: String)
    ensures
        r@ == full_usage_text(*c),
{
    let mut out = String::new();
    out.append("usage: ");
    out.append(c.name.as_str());
    out.append("\n");
    let mut i: usize = 0;
    while i < c.args.len()
        invariant
            0 <= i <= c.args.len(),
            full_usage_text(*c) == out@ + usage_text(*c, i as int),
        decreases c.args.len() - i,
    {
        let a = &c.args[i];
        if a.positional {
            out.append("  <");
            out.append(a.name.as_str());
            out.append(">");
        } else {
            match &a.long {
                Some(l) => {
                    out.append("  --");
                    out.append(l.as_str());
                },
                None => {
                    out.append("  ");
                    out.append(a.name.as_str());
                },
            }
        }
        match &a.default {
            Some(d) => {
                out.append(" (default: ");
                join_names(d, 0, &mut out);
                out.append(")");
            },
            None => {},
        }
        out.append("\n");
        proof {
            assert(full_usage_text(*c) =~= out@ + usage_text(*c, i as int + 1));
        }
        i = i + 1;
    }
    proof {
        assert(out@ =~= full_usage_text(*c));
    }
    out
}

} // verus!
