//! The validator: runs after binding, checking structural constraints and
//! per-value parsers, and aggregating every violation of one invocation.
//!
//! A required argument no input token bound is a missing-required failure
//! (a default never satisfies it); a required mutual-exclusion group with
//! no bound member likewise; any group with more than one bound member is a
//! conflict naming the offenders; and every raw bound value must pass its
//! argument's value kind.

use vstd::prelude::*;
use vstd::string::StrSliceExecFns;
use vstd::string::StringExecFns;
use crate::schema::ArgSpec;
use crate::schema::CommandSpec;
use crate::schema::GroupSpec;
use crate::schema::ValueKind;
use crate::errors::ErrModel;
use crate::errors::InvalidReason;
use crate::errors::ParseError;
use crate::bind::BoundModel;
use crate::bind::BoundValue;
use crate::bind::lemma_deep_push;
use crate::bind::lookup_from;
use crate::bind::spec_lookup;
use crate::token::find_eq_from;
use crate::token::find_eq;

verus! {

/// A decimal digit.
pub open spec fn is_digit(c: char) -> bool {
    '0' <= c && c <= '9'
}

/// A non-empty string of decimal digits.
pub open spec fn is_integer_text(s: Seq<char>) -> bool {
    s.len() > 0 && (forall|i: int| 0 <= i < s.len() ==> is_digit(s[i]))
}

/// Index of the first member of `vs` (from `i` on) reading `v`.
pub open spec fn choice_index_from(vs: Seq<Seq<char>>, v: Seq<char>, i: int) -> Option<int>
    decreases vs.len() - i,
{
    if i < 0 || i >= vs.len() {
        None
    } else if vs[i] == v {
        Some(i)
    } else {
        choice_index_from(vs, v, i + 1)
    }
}

/// Whether the raw value `v` satisfies the value kind `kind`.
pub open spec fn value_ok(kind: ValueKind, v: Seq<char>) -> bool {
    match kind {
        ValueKind::Text => true,
        ValueKind::PathName => true,
        ValueKind::Integer => is_integer_text(v),
        ValueKind::KeyValue => find_eq_from(v, 0) is Some,
        ValueKind::Choice(vs) => choice_index_from(vs.deep_view(), v, 0) is Some,
    }
}

/// The reason reported when a value fails `kind`.
pub open spec fn reason_of(kind: ValueKind) -> InvalidReason {
    match kind {
        ValueKind::Integer => InvalidReason::NotInteger,
        ValueKind::KeyValue => InvalidReason::NotKeyValue,
        ValueKind::Choice(vs) => InvalidReason::NotInChoice,
        _ => InvalidReason::NotInteger,
    }
}

/// The invalid-value failures among `vals[vi..]` bound to the argument `a`,
/// in order.
pub open spec fn value_errs_of(a: ArgSpec, vals: Seq<Seq<char>>, vi: int) -> Seq<ErrModel>
    decreases vals.len() - vi,
{
    if vi < 0 || vi >= vals.len() {
        Seq::empty()
    } else {
        let rest = value_errs_of(a, vals, vi + 1);
        if !value_ok(a.kind, vals[vi]) {
            seq![
                ErrModel::InvalidValue {
                    name: a.name@,
                    value: vals[vi],
                    reason: reason_of(a.kind),
                },
            ] + rest
        } else {
            rest
        }
    }
}

/// The invalid-value failures of every binding from `bi` on, in binding
/// order; a binding naming no declared argument contributes none.
pub open spec fn value_errs(c: CommandSpec, bound: Seq<BoundModel>, bi: int) -> Seq<ErrModel>
    decreases bound.len() - bi,
{
    if bi < 0 || bi >= bound.len() {
        Seq::empty()
    } else {
        let hd = match c.spec_find_named(bound[bi].name) {
            Some(ai) => value_errs_of(c.args@[ai], bound[bi].values, 0),
            None => Seq::empty(),
        };
        hd + value_errs(c, bound, bi + 1)
    }
}

/// One missing-required failure for each required argument from `ai` on
/// that no input token bound, in declaration order.
pub open spec fn missing_required_errs(args: Seq<ArgSpec>, ai: int, bound: Seq<BoundModel>) -> Seq<
    ErrModel,
>
    decreases args.len() - ai,
{
    if ai < 0 || ai >= args.len() {
        Seq::empty()
    } else {
        let rest = missing_required_errs(args, ai + 1, bound);
        if args[ai].required && spec_lookup(bound, args[ai].name@) is None {
            seq![ErrModel::MissingRequired { names: seq![args[ai].name@] }] + rest
        } else {
            rest
        }
    }
}

/// The group members from `mi` on that are bound, in member order.
pub open spec fn bound_members(
    members: Seq<Seq<char>>,
    mi: int,
    bound: Seq<BoundModel>,
) -> Seq<Seq<char>>
    decreases members.len() - mi,
{
    if mi < 0 || mi >= members.len() {
        Seq::empty()
    } else {
        let rest = bound_members(members, mi + 1, bound);
        if spec_lookup(bound, members[mi]) is Some {
            seq![members[mi]] + rest
        } else {
            rest
        }
    }
}

/// The failure of one mutual-exclusion group, if any: a required group with
/// no bound member is missing, any group with more than one bound member is
/// a conflict naming the bound members.
pub open spec fn group_err_of(g: GroupSpec, bound: Seq<BoundModel>) -> Seq<ErrModel> {
    let bm = bound_members(g.members.deep_view(), 0, bound);
    if g.required && bm.len() == 0 {
        seq![ErrModel::MissingRequired { names: g.members.deep_view() }]
    } else if bm.len() > 1 {
        seq![ErrModel::ConflictingArguments { names: bm }]
    } else {
        Seq::empty()
    }
}

/// The failures of the groups from `gi` on, in declaration order.
pub open spec fn group_errs(groups: Seq<GroupSpec>, gi: int, bound: Seq<BoundModel>) -> Seq<
    ErrModel,
>
    decreases groups.len() - gi,
{
    if gi < 0 || gi >= groups.len() {
        Seq::empty()
    } else {
        group_err_of(groups[gi], bound) + group_errs(groups, gi + 1, bound)
    }
}

/// Whether `v` is a non-empty string of decimal digits.
fn is_all_digits(v: &String) -> (r: bool)
    ensures
        r == is_integer_text(v@),
{
    let n = v.as_str().unicode_len();
    if n == 0 {
        return false;
    }
    let mut i: usize = 0;
    while i < n
        invariant
            0 <= i <= n == v@.len(),
            forall|j: int| 0 <= j < i ==> is_digit(v@[j]),
        decreases n - i,
    {
        let c = v.as_str().get_char(i);
        if c < '0' || c > '9' {
            proof {
                assert(!is_digit(v@[i as int]));
            }
            return false;
        }
        i = i + 1;
    }
    true
}

/// Whether `v` is a member of the closed value set `vs`.
fn choice_contains(vs: &Vec<String>, v: &String) -> (r: bool)
    ensures
        r == (choice_index_from(vs.deep_view(), v@, 0) is Some),
{
    let mut i: usize = 0;
    while i < vs.len()
        invariant
            0 <= i <= vs.len(),
            choice_index_from(vs.deep_view(), v@, 0) == choice_index_from(
                vs.deep_view(),
                v@,
                i as int,
            ),
        decreases vs.len() - i,
    {
        proof {
            assert(vs.deep_view().len() == vs.len());
            assert(vs.deep_view()[i as int] == vs@[i as int]@);
        }
        if vs[i].eq(v) {
            return true;
        }
        i = i + 1;
    }
    false
}

/// Executable form of [`value_ok`].
pub fn check_value(kind: &ValueKind, v: &String) -> (r: bool)
    ensures
        r == value_ok(*kind, v@),
{
    match kind {
        ValueKind::Text => true,
        ValueKind::PathName => true,
        ValueKind::Integer => is_all_digits(v),
        ValueKind::KeyValue => find_eq(v.as_str(), 0).is_some(),
        ValueKind::Choice(vs) => choice_contains(vs, v),
    }
}

/// Executable form of [`reason_of`].
fn reason_for(kind: &ValueKind) -> (r: InvalidReason)
    ensures
        r == reason_of(*kind),
{
    match kind {
        ValueKind::Integer => InvalidReason::NotInteger,
        ValueKind::KeyValue => InvalidReason::NotKeyValue,
        ValueKind::Choice(_) => InvalidReason::NotInChoice,
        _ => InvalidReason::NotInteger,
    }
}

/// Pushes the invalid-value failures of `vals[vi..]` for the argument `a`.
fn push_value_errs_of(a: &ArgSpec, vals: &Vec<String>, vi: usize, errs: &mut Vec<ParseError>)
    ensures
        final(errs).deep_view() == old(errs).deep_view() + value_errs_of(
            *a,
            vals.deep_view(),
            vi as int,
        ),
    decreases vals.len() - vi,
{
    if vi >= vals.len() {
        assert(errs.deep_view() =~= errs.deep_view() + Seq::<ErrModel>::empty());
        return ;
    }
    let ghost before = errs.deep_view();
    if !check_value(&a.kind, &vals[vi]) {
        let ghost e0 = *errs;
        let e = ParseError::InvalidValue {
            name: a.name.clone(),
            value: vals[vi].clone(),
            reason: reason_for(&a.kind),
        };
        let ghost ge = e;
        errs.push(e);
        proof {
            lemma_deep_push(e0, *errs, ge);
            assert(ge@ == ErrModel::InvalidValue {
                name: a.name@,
                value: vals.deep_view()[vi as int],
                reason: reason_of(a.kind),
            });
        }
    }
    push_value_errs_of(a, vals, vi + 1, errs);
    proof {
        assert(errs.deep_view() =~= before + value_errs_of(*a, vals.deep_view(), vi as int));
    }
}

/// Pushes the invalid-value failures of every binding from `bi` on.
pub fn push_value_errs(
    c: &CommandSpec,
    bound: &Vec<BoundValue>,
    bi: usize,
    errs: &mut Vec<ParseError>,
)
    ensures
        final(errs).deep_view() == old(errs).deep_view() + value_errs(
            *c,
            bound.deep_view(),
            bi as int,
        ),
    decreases bound.len() - bi,
{
    if bi >= bound.len() {
        assert(errs.deep_view() =~= errs.deep_view() + Seq::<ErrModel>::empty());
        return ;
    }
    let ghost before = errs.deep_view();
    match c.find_named(&bound[bi].name) {
        Some(ai) => {
            push_value_errs_of(&c.args[ai], &bound[bi].values, 0, errs);
        },
        None => {},
    }
    push_value_errs(c, bound, bi + 1, errs);
    proof {
        assert(errs.deep_view() =~= before + value_errs(*c, bound.deep_view(), bi as int));
    }
}

/// Pushes one missing-required failure for each required argument from `ai`
/// on that no input token bound.
pub fn push_missing_required(
    c: &CommandSpec,
    ai: usize,
    bound: &Vec<BoundValue>,
    errs: &mut Vec<ParseError>,
)
    ensures
        final(errs).deep_view() == old(errs).deep_view() + missing_required_errs(
            c.args@,
            ai as int,
            bound.deep_view(),
        ),
    decreases c.args.len() - ai,
{
    if ai >= c.args.len() {
        assert(errs.deep_view() =~= errs.deep_view() + Seq::<ErrModel>::empty());
        return ;
    }
    let ghost before = errs.deep_view();
    let a = &c.args[ai];
    if a.required && find_in_bound(bound, &a.name).is_none() {
        let ghost e0 = *errs;
        let mut names: Vec<String> = Vec::new();
        names.push(a.name.clone());
        let e = ParseError::MissingRequired { names };
        let ghost ge = e;
        errs.push(e);
        proof {
            lemma_deep_push(e0, *errs, ge);
            assert(ge@ =~~= ErrModel::MissingRequired { names: seq![a.name@] });
        }
    }
    push_missing_required(c, ai + 1, bound, errs);
    proof {
        assert(errs.deep_view() =~= before + missing_required_errs(
            c.args@,
            ai as int,
            bound.deep_view(),
        ));
    }
}

/// Executable lookup of a binding by name.
fn find_in_bound(bound: &Vec<BoundValue>, name: &String) -> (r: Option<usize>)
    ensures
        match r {
            Some(k) => spec_lookup(bound.deep_view(), name@) == Some(k as int) && k < bound.len(),
            None => spec_lookup(bound.deep_view(), name@) is None,
        },
{
    let mut i: usize = 0;
    while i < bound.len()
        invariant
            0 <= i <= bound.len(),
            lookup_from(bound.deep_view(), name@, 0) == lookup_from(
                bound.deep_view(),
                name@,
                i as int,
            ),
        decreases bound.len() - i,
    {
        if bound[i].name.eq(name) {
            return Some(i);
        }
        i = i + 1;
    }
    None
}

/// Collects the bound members of one group, in member order.
fn collect_bound_members(members: &Vec<String>, mi: usize, bound: &Vec<BoundValue>) -> (r: Vec<
    String,
>)
    ensures
        r.deep_view() == bound_members(members.deep_view(), mi as int, bound.deep_view()),
    decreases members.len() - mi,
{
    if mi >= members.len() {
        let r: Vec<String> = Vec::new();
        proof {
            assert(r.deep_view() =~= Seq::<Seq<char>>::empty());
        }
        return r;
    }
    let mut rest = collect_bound_members(members, mi + 1, bound);
    if find_in_bound(bound, &members[mi]).is_some() {
        let ghost r0 = rest;
        rest.insert(0, members[mi].clone());
        proof {
            assert forall|j: int| 0 <= j < rest@.len() implies rest.deep_view()[j] == (seq![
                members.deep_view()[mi as int],
            ] + r0.deep_view())[j] by {
                if j > 0 {
                    assert(rest.deep_view()[j] == rest@[j].deep_view());
                    assert(r0.deep_view()[j - 1] == r0@[j - 1].deep_view());
                }
            }
            assert(rest.deep_view() =~= seq![members.deep_view()[mi as int]] + r0.deep_view());
        }
    }
    rest
}

/// Pushes the failures of the groups from `gi` on.
pub fn push_group_errs(
    c: &CommandSpec,
    gi: usize,
    bound: &Vec<BoundValue>,
    errs: &mut Vec<ParseError>,
)
    ensures
        final(errs).deep_view() == old(errs).deep_view() + group_errs(
            c.groups@,
            gi as int,
            bound.deep_view(),
        ),
    decreases c.groups.len() - gi,
{
    if gi >= c.groups.len() {
        assert(errs.deep_view() =~= errs.deep_view() + Seq::<ErrModel>::empty());
        return ;
    }
    let ghost before = errs.deep_view();
    let g = &c.groups[gi];
    let bm = collect_bound_members(&g.members, 0, bound);
    if g.required && bm.len() == 0 {
        let ghost e0 = *errs;
        let nm = g.members.clone();
        proof {
            assert forall|j: int| 0 <= j < nm@.len() implies nm.deep_view()[j]
                == g.members.deep_view()[j] by {
                assert(cloned::<String>(g.members@[j], nm@[j]));
            }
            assert(nm.deep_view() =~= g.members.deep_view());
        }
        let e = ParseError::MissingRequired { names: nm };
        let ghost ge = e;
        errs.push(e);
        proof {
            lemma_deep_push(e0, *errs, ge);
            assert(ge@ =~~= ErrModel::MissingRequired { names: g.members.deep_view() });
        }
    } else if bm.len() > 1 {
        let ghost e0 = *errs;
        let e = ParseError::ConflictingArguments { names: bm };
        let ghost ge = e;
        errs.push(e);
        proof {
            lemma_deep_push(e0, *errs, ge);
        }
    }
    push_group_errs(c, gi + 1, bound, errs);
    proof {
        assert(errs.deep_view() =~= before + group_errs(c.groups@, gi as int, bound.deep_view()));
    }
}

/// The error message [`parse_key_val`] returns for a string without `=`.
pub open spec fn key_val_err_text(s: Seq<char>) -> Seq<char> {
    "invalid KEY=value: no `=` found in `"@ + s + "`"@
}

/// Splits `s` at its first `=` into a key/value pair; a string without `=`
/// is rejected with a message naming it.
pub fn parse_key_val(s: &str) -> (r: Result<(String, String), String>)
    ensures
        match find_eq_from(s@, 0) {
            Some(p) => r matches Ok(kv) && kv.0@ == s@.subrange(0, p) && kv.1@ == s@.subrange(
                p + 1,
                s@.len() as int,
            ),
            None => r matches Err(m) && m@ == key_val_err_text(s@),
        },
{
    let n = s.unicode_len();
    match find_eq(s, 0) {
        Some(p) => {
            let key = String::from_str(s.substring_char(0, p));
            let value = String::from_str(s.substring_char(p + 1, n));
            Ok((key, value))
        },
        None => {
            let mut m = String::from_str("invalid KEY=value: no `=` found in `");
            m.append(s);
            m.append("`");
            Err(m)
        },
    }
}


} // verus!
