//! Engine-wide laws, stated over the parse model and proved once for every
//! schema and argument vector.

use vstd::prelude::*;
use crate::schema::CommandSpec;
use crate::schema::GroupSpec;
use crate::errors::ErrModel;
use crate::token::TokenKind;
use crate::token::TokenModel;
use crate::token::tokenize_from;
use crate::bind::BoundModel;
use crate::bind::apply_defaults;
use crate::bind::assign_positionals;
use crate::bind::bind_flags;
use crate::bind::lemma_value_run_le;
use crate::bind::lookup_from;
use crate::bind::spec_lookup;
use crate::bind::texts_range;
use crate::bind::upsert;
use crate::bind::value_run;
use crate::parse::ResultModel;
use crate::parse::parse_spec;
use crate::parse::resolve_from;
use crate::validate::bound_members;
use crate::validate::group_err_of;
use crate::validate::group_errs;
use crate::validate::missing_required_errs;
use crate::validate::value_errs;

verus! {

/// The command selected by path resolution.
pub open spec fn active_of(root: CommandSpec, args: Seq<Seq<char>>) -> CommandSpec {
    resolve_from(root, args, 0).1
}

/// The index of the first argument string path resolution leaves over.
pub open spec fn start_of(root: CommandSpec, args: Seq<Seq<char>>) -> int {
    resolve_from(root, args, 0).2
}

/// The bindings made from input tokens alone (no defaults), when
/// tokenizing and binding both succeed; empty otherwise.
pub open spec fn token_bound_of(root: CommandSpec, args: Seq<Seq<char>>) -> Seq<BoundModel> {
    let active = active_of(root, args);
    match tokenize_from(args, active, start_of(root, args), false) {
        Err(e) => Seq::empty(),
        Ok(ts) => match bind_flags(ts, active, 0, Seq::empty(), Seq::empty(), Seq::empty()) {
            Err(e) => Seq::empty(),
            Ok(t3) => assign_positionals(t3.1, 0, active.args@, 0, t3.0, t3.2).0,
        },
    }
}

/// Pushing a binding keeps every earlier lookup.
proof fn lemma_lookup_push(acc: Seq<BoundModel>, b: BoundModel, name: Seq<char>, i: int)
    requires
        0 <= i,
        lookup_from(acc, name, i) is Some,
    ensures
        lookup_from(acc.push(b), name, i) == lookup_from(acc, name, i),
    decreases acc.len() - i,
{
    if i < acc.len() && acc[i].name != name {
        lemma_lookup_push(acc, b, name, i + 1);
    }
}

/// Applying defaults keeps every binding made from input tokens.
proof fn lemma_defaults_keep_lookup(
    args: Seq<crate::schema::ArgSpec>,
    ai: int,
    acc: Seq<BoundModel>,
    name: Seq<char>,
)
    requires
        spec_lookup(acc, name) is Some,
    ensures
        spec_lookup(apply_defaults(args, ai, acc), name) is Some,
    decreases args.len() - ai,
{
    if 0 <= ai < args.len() {
        let a = args[ai];
        if spec_lookup(acc, a.name@) is None && a.default is Some {
            let pushed = acc.push(
                BoundModel { name: a.name@, values: a.default.unwrap().deep_view() },
            );
            lemma_lookup_push(acc, BoundModel { name: a.name@, values: a.default.unwrap().deep_view() }, name, 0);
            lemma_defaults_keep_lookup(args, ai + 1, pushed, name);
        } else {
            lemma_defaults_keep_lookup(args, ai + 1, acc, name);
        }
    }
}

/// No missing-required failures means every required argument is bound.
proof fn lemma_no_missing_means_bound(
    args: Seq<crate::schema::ArgSpec>,
    ai: int,
    bound: Seq<BoundModel>,
)
    requires
        0 <= ai,
        missing_required_errs(args, ai, bound).len() == 0,
    ensures
        forall|j: int|
            ai <= j < args.len() && #[trigger] args[j].required ==> spec_lookup(
                bound,
                args[j].name@,
            ) is Some,
    decreases args.len() - ai,
{
    if ai < args.len() {
        lemma_no_missing_means_bound(args, ai + 1, bound);
    }
}

/// Law: a successful parse satisfies the required set of the selected
/// command: every required argument has a binding in the result (and a
/// default alone never made that so, since the check runs before defaults
/// are applied).
pub proof fn lemma_parse_ok_required_bound(root: CommandSpec, args: Seq<Seq<char>>, m: ResultModel)
    requires
        parse_spec(root, args) == Ok::<ResultModel, Seq<ErrModel>>(m),
    ensures
        forall|ai: int|
            0 <= ai < active_of(root, args).args@.len() && #[trigger] active_of(
                root,
                args,
            ).args@[ai].required ==> spec_lookup(m.values, active_of(root, args).args@[ai].name@)
                is Some,
{
    let active = active_of(root, args);
    let bound = token_bound_of(root, args);
    lemma_no_missing_means_bound(active.args@, 0, bound);
    assert forall|ai: int|
        0 <= ai < active.args@.len() && #[trigger] active.args@[ai].required implies spec_lookup(
        m.values,
        active.args@[ai].name@,
    ) is Some by {
        lemma_defaults_keep_lookup(active.args@, 0, bound, active.args@[ai].name@);
    }
}

/// Law: when tokenizing and binding succeed and no constraint of the
/// selected command is violated, the parse as a whole succeeds.
pub proof fn lemma_parse_succeeds(root: CommandSpec, args: Seq<Seq<char>>)
    requires
        ({
            let active = active_of(root, args);
            &&& tokenize_from(args, active, start_of(root, args), false) matches Ok(ts)
            &&& bind_flags(ts, active, 0, Seq::empty(), Seq::empty(), Seq::empty()) matches Ok(t3)
            &&& assign_positionals(t3.1, 0, active.args@, 0, t3.0, t3.2).1 =~= Seq::<
                ErrModel,
            >::empty()
            &&& missing_required_errs(active.args@, 0, token_bound_of(root, args)).len() == 0
            &&& group_errs(active.groups@, 0, token_bound_of(root, args)).len() == 0
            &&& value_errs(
                active,
                apply_defaults(active.args@, 0, token_bound_of(root, args)),
                0,
            ).len() == 0
        }),
    ensures
        parse_spec(root, args) matches Ok(m) && m.values == apply_defaults(
            active_of(root, args).args@,
            0,
            token_bound_of(root, args),
        ),
{
}

/// Law: parsing is a function of the argument vector and the schema alone,
/// so re-parsing the same argument vector against the same registry yields
/// an equal outcome.
pub proof fn lemma_parse_idempotent(
    root: CommandSpec,
    args: Seq<Seq<char>>,
    r1: Result<ResultModel, Seq<ErrModel>>,
    r2: Result<ResultModel, Seq<ErrModel>>,
)
    requires
        r1 == parse_spec(root, args),
        r2 == parse_spec(root, args),
    ensures
        r1 == r2,
{
}

/// No group member bound means the group's bound-member list is empty.
proof fn lemma_bm_empty(members: Seq<Seq<char>>, mi: int, bound: Seq<BoundModel>)
    requires
        forall|j: int| mi <= j < members.len() ==> spec_lookup(bound, #[trigger] members[j]) is None,
    ensures
        bound_members(members, mi, bound).len() == 0,
    decreases members.len() - mi,
{
    if 0 <= mi < members.len() {
        lemma_bm_empty(members, mi + 1, bound);
    } else if mi < 0 {
        lemma_bm_empty(members, 0, bound);
    }
}

/// Two distinct bound members give a bound-member list of length at least
/// two.
proof fn lemma_bm_two(
    members: Seq<Seq<char>>,
    mi0: int,
    bound: Seq<BoundModel>,
    mi: int,
    mj: int,
)
    requires
        0 <= mi0 <= mi < mj < members.len(),
        spec_lookup(bound, members[mi]) is Some,
        spec_lookup(bound, members[mj]) is Some,
    ensures
        bound_members(members, mi0, bound).len() >= 2,
    decreases members.len() - mi0,
{
    if mi0 < mi {
        lemma_bm_two(members, mi0 + 1, bound, mi, mj);
    } else {
        lemma_bm_one_low(members, mi0 + 1, bound, mj);
    }
}

/// One bound member at or after `mi` gives a non-empty bound-member list.
proof fn lemma_bm_one_low(members: Seq<Seq<char>>, mi0: int, bound: Seq<BoundModel>, mi: int)
    requires
        0 <= mi0 <= mi < members.len(),
        spec_lookup(bound, members[mi]) is Some,
    ensures
        bound_members(members, mi0, bound).len() >= 1,
    decreases members.len() - mi0,
{
    if mi0 < mi {
        lemma_bm_one_low(members, mi0 + 1, bound, mi);
    }
}

/// Exactly one bound member gives a bound-member list of length one.
proof fn lemma_bm_single(members: Seq<Seq<char>>, mi0: int, bound: Seq<BoundModel>, mi: int)
    requires
        0 <= mi0 <= members.len(),
        mi < members.len(),
        mi0 <= mi ==> spec_lookup(bound, members[mi]) is Some,
        forall|j: int|
            mi0 <= j < members.len() && j != mi ==> spec_lookup(bound, #[trigger] members[j])
                is None,
    ensures
        mi0 <= mi ==> bound_members(members, mi0, bound).len() == 1,
        mi0 > mi ==> bound_members(members, mi0, bound).len() == 0,
    decreases members.len() - mi0,
{
    if mi0 < members.len() {
        lemma_bm_single(members, mi0 + 1, bound, mi);
    }
}

/// Law (mutual exclusion, missing side): a required group none of whose
/// members is bound yields exactly the missing-required failure naming its
/// members.
pub proof fn lemma_group_missing(g: GroupSpec, bound: Seq<BoundModel>)
    requires
        g.required,
        forall|j: int|
            0 <= j < g.members.deep_view().len() ==> spec_lookup(
                bound,
                #[trigger] g.members.deep_view()[j],
            ) is None,
    ensures
        group_err_of(g, bound) == seq![ErrModel::MissingRequired { names: g.members.deep_view() }],
{
    lemma_bm_empty(g.members.deep_view(), 0, bound);
}

/// Law (mutual exclusion, conflict side): a group with two distinct bound
/// members yields exactly one conflicting-arguments failure.
pub proof fn lemma_group_conflict(g: GroupSpec, bound: Seq<BoundModel>, mi: int, mj: int)
    requires
        0 <= mi < mj < g.members.deep_view().len(),
        spec_lookup(bound, g.members.deep_view()[mi]) is Some,
        spec_lookup(bound, g.members.deep_view()[mj]) is Some,
    ensures
        group_err_of(g, bound).len() == 1,
        group_err_of(g, bound)[0] matches ErrModel::ConflictingArguments { names },
{
    lemma_bm_two(g.members.deep_view(), 0, bound, mi, mj);
}

/// Law (mutual exclusion, success side): a group with exactly one bound
/// member yields no failure.
pub proof fn lemma_group_single(g: GroupSpec, bound: Seq<BoundModel>, mi: int)
    requires
        0 <= mi < g.members.deep_view().len(),
        spec_lookup(bound, g.members.deep_view()[mi]) is Some,
        forall|j: int|
            0 <= j < g.members.deep_view().len() && j != mi ==> spec_lookup(
                bound,
                #[trigger] g.members.deep_view()[j],
            ) is None,
    ensures
        group_err_of(g, bound) == Seq::<ErrModel>::empty(),
{
    lemma_bm_single(g.members.deep_view(), 0, bound, mi);
}

/// An empty group error list means every group is satisfied.
proof fn lemma_group_errs_empty(groups: Seq<GroupSpec>, gi: int, bound: Seq<BoundModel>)
    requires
        0 <= gi,
        group_errs(groups, gi, bound).len() == 0,
    ensures
        forall|j: int|
            gi <= j < groups.len() ==> (#[trigger] group_err_of(groups[j], bound)).len() == 0,
    decreases groups.len() - gi,
{
    if gi < groups.len() {
        lemma_group_errs_empty(groups, gi + 1, bound);
    }
}

/// Law (mutual exclusion at the parse level): a successful parse has no
/// group of the selected command with two distinct members bound from
/// input tokens.
pub proof fn lemma_parse_ok_no_conflict(
    root: CommandSpec,
    args: Seq<Seq<char>>,
    m: ResultModel,
    gi: int,
    mi: int,
    mj: int,
)
    requires
        parse_spec(root, args) == Ok::<ResultModel, Seq<ErrModel>>(m),
        0 <= gi < active_of(root, args).groups@.len(),
        0 <= mi < mj < active_of(root, args).groups@[gi].members.deep_view().len(),
    ensures
        !(spec_lookup(
            token_bound_of(root, args),
            active_of(root, args).groups@[gi].members.deep_view()[mi],
        ) is Some && spec_lookup(
            token_bound_of(root, args),
            active_of(root, args).groups@[gi].members.deep_view()[mj],
        ) is Some),
{
    let active = active_of(root, args);
    let bound = token_bound_of(root, args);
    let g = active.groups@[gi];
    lemma_group_errs_empty(active.groups@, 0, bound);
    if spec_lookup(bound, g.members.deep_view()[mi]) is Some && spec_lookup(
        bound,
        g.members.deep_view()[mj],
    ) is Some {
        lemma_group_conflict(g, bound, mi, mj);
    }
}

/// Law (mutual exclusion at the parse level, required side): a successful
/// parse has, for every required group of the selected command, at least
/// one member bound from input tokens.
pub proof fn lemma_parse_ok_required_group_satisfied(
    root: CommandSpec,
    args: Seq<Seq<char>>,
    m: ResultModel,
    gi: int,
)
    requires
        parse_spec(root, args) == Ok::<ResultModel, Seq<ErrModel>>(m),
        0 <= gi < active_of(root, args).groups@.len(),
        active_of(root, args).groups@[gi].required,
    ensures
        exists|mi: int|
            0 <= mi < active_of(root, args).groups@[gi].members.deep_view().len() && spec_lookup(
                token_bound_of(root, args),
                #[trigger] active_of(root, args).groups@[gi].members.deep_view()[mi],
            ) is Some,
{
    let active = active_of(root, args);
    let bound = token_bound_of(root, args);
    let g = active.groups@[gi];
    lemma_group_errs_empty(active.groups@, 0, bound);
    if forall|mi: int|
        0 <= mi < g.members.deep_view().len() ==> spec_lookup(
            bound,
            #[trigger] g.members.deep_view()[mi],
        ) is None {
        lemma_group_missing(g, bound);
        assert(false);
    }
}

/// A binder step only adds to the recorded failures: what is recorded
/// before stays, in place, in the outcome.
proof fn lemma_bind_errs_prefix(
    ts: Seq<TokenModel>,
    c: CommandSpec,
    i: int,
    acc: Seq<BoundModel>,
    pos: Seq<Seq<char>>,
    errs: Seq<ErrModel>,
)
    requires
        bind_flags(ts, c, i, acc, pos, errs) is Ok,
    ensures
        ({
            let out = bind_flags(ts, c, i, acc, pos, errs)->Ok_0.2;
            out.len() >= errs.len() && out.subrange(0, errs.len() as int) == errs
        }),
    decreases ts.len() - i,
{
    assert(errs.subrange(0, errs.len() as int) =~= errs);
    if 0 <= i < ts.len() {
        let t = ts[i];
        match t.kind {
            TokenKind::Value => {
                lemma_bind_errs_prefix(ts, c, i + 1, acc, pos.push(t.text), errs);
            },
            TokenKind::Separator => {},
            _ => {
                let found = if t.kind == TokenKind::LongFlag {
                    c.spec_find_long(t.text)
                } else if t.text.len() == 1 {
                    c.spec_find_short(t.text[0])
                } else {
                    None
                };
                if let Some(ai) = found {
                    let a = c.args@[ai];
                    if a.arity.spec_is_switch() {
                        lemma_bind_errs_prefix(
                            ts,
                            c,
                            i + 1,
                            upsert(acc, a.name@, Seq::empty(), a.repeatable),
                            pos,
                            errs,
                        );
                    } else {
                        let k = value_run(ts, i + 1);
                        let need = a.arity.spec_min();
                        lemma_value_run_le(ts, i + 1);
                        if k < need {
                            let e = ErrModel::ArityError { name: a.name@, expected: need, got: k };
                            lemma_bind_errs_prefix(ts, c, i + 1 + k, acc, pos, errs.push(e));
                            let out = bind_flags(ts, c, i, acc, pos, errs)->Ok_0.2;
                            assert(out.subrange(0, errs.len() as int) =~= errs);
                        } else {
                            let take = if a.arity is AtLeastOne {
                                k as int
                            } else {
                                need as int
                            };
                            lemma_bind_errs_prefix(
                                ts,
                                c,
                                i + 1 + take,
                                upsert(acc, a.name@, texts_range(ts, i + 1, i + 1 + take), a.repeatable),
                                pos,
                                errs,
                            );
                        }
                    }
                }
            },
        }
    }
}

/// Law (arity, shortfall side): a flag whose arity asks for more value
/// tokens than follow it leaves an arity failure, with the declared and
/// the actual count, in the binder's outcome.
pub proof fn lemma_arity_shortfall(
    ts: Seq<TokenModel>,
    c: CommandSpec,
    i: int,
    acc: Seq<BoundModel>,
    pos: Seq<Seq<char>>,
    errs: Seq<ErrModel>,
    ai: int,
)
    requires
        0 <= i < ts.len(),
        ts[i].kind == TokenKind::LongFlag,
        c.spec_find_long(ts[i].text) == Some(ai),
        0 <= ai < c.args@.len(),
        !c.args@[ai].arity.spec_is_switch(),
        value_run(ts, i + 1) < c.args@[ai].arity.spec_min(),
        bind_flags(ts, c, i, acc, pos, errs) is Ok,
    ensures
        ({
            let out = bind_flags(ts, c, i, acc, pos, errs)->Ok_0.2;
            out.len() > errs.len() && out[errs.len() as int] == ErrModel::ArityError {
                name: c.args@[ai].name@,
                expected: c.args@[ai].arity.spec_min(),
                got: value_run(ts, i + 1),
            }
        }),
{
    let a = c.args@[ai];
    let k = value_run(ts, i + 1);
    let e = ErrModel::ArityError { name: a.name@, expected: a.arity.spec_min(), got: k };
    lemma_value_run_le(ts, i + 1);
    lemma_bind_errs_prefix(ts, c, i + 1 + k, acc, pos, errs.push(e));
    let out = bind_flags(ts, c, i, acc, pos, errs)->Ok_0.2;
    assert(out.subrange(0, errs.len() as int + 1)[errs.len() as int] == e);
}

/// Law (arity, exact side): a flag of exact arity followed by exactly that
/// many value tokens binds them, in order, and binding continues past them.
pub proof fn lemma_arity_exact_binds(
    ts: Seq<TokenModel>,
    c: CommandSpec,
    i: int,
    acc: Seq<BoundModel>,
    pos: Seq<Seq<char>>,
    errs: Seq<ErrModel>,
    ai: int,
    n: int,
)
    requires
        0 <= i < ts.len(),
        ts[i].kind == TokenKind::LongFlag,
        c.spec_find_long(ts[i].text) == Some(ai),
        0 <= ai < c.args@.len(),
        c.args@[ai].arity == crate::schema::Arity::Exact(n as usize),
        0 < n <= usize::MAX,
        value_run(ts, i + 1) == n,
    ensures
        bind_flags(ts, c, i, acc, pos, errs) == bind_flags(
            ts,
            c,
            i + 1 + n,
            upsert(
                acc,
                c.args@[ai].name@,
                Seq::new(n as nat, |j: int| ts[i + 1 + j].text),
                c.args@[ai].repeatable,
            ),
            pos,
            errs,
        ),
{
    let a = c.args@[ai];
    assert(a.arity.spec_min() == n);
    assert(!a.arity.spec_is_switch());
    assert(texts_range(ts, i + 1, i + 1 + n) =~= Seq::new(n as nat, |j: int| ts[i + 1 + j].text));
}

} // verus!
