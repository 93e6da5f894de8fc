//! One parse invocation, end to end: command-path resolution, tokenizing,
//! binding, validation and default application, yielding a [`ParseResult`]
//! or the aggregated failures of the invocation.

use vstd::prelude::*;
use crate::schema::CommandSpec;
use crate::schema::lemma_find_child_props;
use crate::errors::ErrModel;
use crate::errors::ParseError;
use crate::token::tokenize;
use crate::token::tokenize_from;
use crate::bind::BoundModel;
use crate::bind::BoundValue;
use crate::bind::apply_defaults;
use crate::bind::apply_defaults_at;
use crate::bind::assign_positionals;
use crate::bind::assign_positionals_at;
use crate::bind::bind_flags;
use crate::bind::bind_flags_at;
use crate::bind::lemma_deep_push;
use crate::validate::group_errs;
use crate::validate::missing_required_errs;
use crate::validate::push_group_errs;
use crate::validate::push_missing_required;
use crate::validate::push_value_errs;
use crate::validate::value_errs;

verus! {

/// The immutable outcome of one successful parse: the selected command
/// path (subcommand names, in descent order) and the bindings, keyed by
/// argument name.
#[derive(Clone, Debug, PartialEq, Eq)]
pub struct ParseResult {
    /// The names of the subcommands descended into, in order; empty when
    /// the root command itself was selected.
    pub path: Vec<String>,
    /// One entry per bound argument name, in binding order.
    pub values: Vec<BoundValue>,
}

/// The mathematical model of a [`ParseResult`].
#[verifier::ext_equal]
pub ghost struct ResultModel {
    pub path: Seq<Seq<char>>,
    pub values: Seq<BoundModel>,
}

impl View for ParseResult {
    type V = ResultModel;

    open spec fn view(&self) -> ResultModel {
        ResultModel { path: self.path.deep_view(), values: self.values.deep_view() }
    }
}

/// Longest-prefix command-path resolution from `i` on: descend as long as
/// the next argument string names a declared child of the current command.
/// Yields the descended names, the active command and the index of the
/// first unconsumed argument.
pub open spec fn resolve_from(c: CommandSpec, args: Seq<Seq<char>>, i: int) -> (
    Seq<Seq<char>>,
    CommandSpec,
    int,
)
    decreases c,
    via resolve_from_decreases
{
    if i < 0 || i >= args.len() {
        (Seq::empty(), c, i)
    } else {
        match c.spec_find_child(args[i]) {
            Some(ci) => {
                let rest = resolve_from(c.children@[ci], args, i + 1);
                (seq![args[i]] + rest.0, rest.1, rest.2)
            },
            None => (Seq::empty(), c, i),
        }
    }
}

#[via_fn]
proof fn resolve_from_decreases(c: CommandSpec, args: Seq<Seq<char>>, i: int) {
    if 0 <= i < args.len() {
        lemma_find_child_props(c.children@, args[i], 0);
    }
}

/// Executable form of [`resolve_from`]: pushes the descended names onto
/// `path` and returns the active command with the first unconsumed index.
pub fn resolve<'a>(c: &'a CommandSpec, args: &Vec<String>, i: usize, path: &mut Vec<String>) -> (r:
    (&'a CommandSpec, usize))
    requires
        i <= args.len(),
    ensures
        ({
            let t = resolve_from(*c, args.deep_view(), i as int);
            &&& final(path).deep_view() == old(path).deep_view() + t.0
            &&& *r.0 == t.1
            &&& r.1 as int == t.2
            &&& i <= r.1 <= args.len()
        }),
    decreases args.len() - i,
{
    if i >= args.len() {
        assert(path.deep_view() =~= path.deep_view() + Seq::<Seq<char>>::empty());
        return (c, i);
    }
    proof {
        lemma_find_child_props(c.children@, args.deep_view()[i as int], 0);
    }
    match c.find_child(&args[i]) {
        Some(ci) => {
            let ghost p0 = *path;
            let x = args[i].clone();
            let ghost gx = x;
            path.push(x);
            proof {
                lemma_deep_push(p0, *path, gx);
            }
            let child = &c.children[ci];
            let r = resolve(child, args, i + 1, path);
            proof {
                let t = resolve_from(*c, args.deep_view(), i as int);
                assert(path.deep_view() =~= old(path).deep_view() + t.0);
            }
            r
        },
        None => {
            assert(path.deep_view() =~= path.deep_view() + Seq::<Seq<char>>::empty());
            (c, i)
        },
    }
}

/// What one parse invocation yields on the argument strings `args` against
/// the schema rooted at `root`: the resolved command path and the bindings
/// (defaults included), or every failure of the invocation. A lexical error
/// or an unknown flag stops the parse and stands alone; arity shortfalls,
/// unexpected positionals, missing required arguments, group violations
/// and invalid values are aggregated, in that order.
pub open spec fn parse_spec(root: CommandSpec, args: Seq<Seq<char>>) -> Result<
    ResultModel,
    Seq<ErrModel>,
> {
    let rp = resolve_from(root, args, 0);
    let path = rp.0;
    let active = rp.1;
    let start = rp.2;
    match tokenize_from(args, active, start, false) {
        Err(e) => Err(seq![e]),
        Ok(ts) => match bind_flags(ts, active, 0, Seq::empty(), Seq::empty(), Seq::empty()) {
            Err(e) => Err(seq![e]),
            Ok(t3) => {
                let t2 = assign_positionals(t3.1, 0, active.args@, 0, t3.0, t3.2);
                let bound = t2.0;
                let binding_errs = t2.1 + missing_required_errs(active.args@, 0, bound)
                    + group_errs(active.groups@, 0, bound);
                let full = apply_defaults(active.args@, 0, bound);
                let all_errs = binding_errs + value_errs(active, full, 0);
                if all_errs.len() == 0 {
                    Ok(ResultModel { path, values: full })
                } else {
                    Err(all_errs)
                }
            },
        },
    }
}

/// Parses the argument strings against the schema rooted at `root`,
/// exactly as [`parse_spec`] describes.
pub fn parse(root: &CommandSpec, args: &Vec<String>) -> (r: Result<ParseResult, Vec<ParseError>>)
    ensures
        match parse_spec(*root, args.deep_view()) {
            Ok(m) => r matches Ok(pr) && pr@ == m,
            Err(es) => r matches Err(v) && v.deep_view() == es,
        },
{
    let mut path: Vec<String> = Vec::new();
    proof {
        assert(path.deep_view() =~= Seq::<Seq<char>>::empty());
    }
    let (active, start) = resolve(root, args, 0, &mut path);
    match tokenize(args, start, active) {
        Err(e) => {
            let ghost ge = e;
            let mut es: Vec<ParseError> = Vec::new();
            es.push(e);
            proof {
                assert(es.deep_view() =~= seq![ge@]);
            }
            Err(es)
        },
        Ok(ts) => {
            let mut acc: Vec<BoundValue> = Vec::new();
            let mut pos: Vec<String> = Vec::new();
            let mut errs: Vec<ParseError> = Vec::new();
            proof {
                assert(acc.deep_view() =~= Seq::<BoundModel>::empty());
                assert(pos.deep_view() =~= Seq::<Seq<char>>::empty());
                assert(errs.deep_view() =~= Seq::<ErrModel>::empty());
            }
            match bind_flags_at(&ts, active, 0, &mut acc, &mut pos, &mut errs) {
                Err(e) => {
                    let ghost ge = e;
                    let mut es: Vec<ParseError> = Vec::new();
                    es.push(e);
                    proof {
                        assert(es.deep_view() =~= seq![ge@]);
                    }
                    Err(es)
                },
                Ok(()) => {
                    assign_positionals_at(&pos, 0, active, 0, &mut acc, &mut errs);
                    push_missing_required(active, 0, &acc, &mut errs);
                    push_group_errs(active, 0, &acc, &mut errs);
                    apply_defaults_at(active, 0, &mut acc);
                    push_value_errs(active, &acc, 0, &mut errs);
                    proof {
                        let rp = resolve_from(*root, args.deep_view(), 0);
                        let active_m = rp.1;
                        if let Ok(ts_m) = tokenize_from(args.deep_view(), active_m, rp.2, false) {
                            if let Ok(t3) = bind_flags(
                                ts_m,
                                active_m,
                                0,
                                Seq::empty(),
                                Seq::empty(),
                                Seq::empty(),
                            ) {
                                let t2 = assign_positionals(
                                    t3.1,
                                    0,
                                    active_m.args@,
                                    0,
                                    t3.0,
                                    t3.2,
                                );
                                let bound = t2.0;
                                let binding_errs = t2.1 + missing_required_errs(
                                    active_m.args@,
                                    0,
                                    bound,
                                ) + group_errs(active_m.groups@, 0, bound);
                                let full = apply_defaults(active_m.args@, 0, bound);
                                let all_errs = binding_errs + value_errs(active_m, full, 0);
                                assert(acc.deep_view() == full);
                                assert(errs.deep_view() =~= all_errs);
                            }
                        }
                    }
                    if errs.len() == 0 {
                        Ok(ParseResult { path, values: acc })
                    } else {
                        Err(errs)
                    }
                },
            }
        },
    }
}

} // verus!
