//! The matcher/binder: consumes the token stream against the active
//! command, binding flag values and collecting positional tokens, then
//! assigns positionals to declared positional arguments and applies
//! defaults.
//!
//! A repeatable argument accumulates the values of its occurrences in
//! order; for any other the last occurrence wins. An unknown flag stops the
//! parse at once; arity shortfalls and unexpected positionals are recorded
//! and binding goes on, so every such failure of one invocation is
//! reported together.

use vstd::prelude::*;
use vstd::pervasive::VecAdditionalExecFns;
use crate::schema::Arity;
use crate::schema::ArgSpec;
use crate::schema::CommandSpec;
use crate::errors::ErrModel;
use crate::errors::ParseError;
use crate::token::Token;
use crate::token::TokenKind;
use crate::token::TokenModel;

verus! {

/// A pushed element appears as its model at the end of the deep view.
pub proof fn lemma_deep_push<T: DeepView>(v1: Vec<T>, v2: Vec<T>, x: T)
    requires
        v2@ == v1@.push(x),
    ensures
        v2.deep_view() == v1.deep_view().push(x.deep_view()),
{
    assert forall|j: int| 0 <= j < v2@.len() implies v2.deep_view()[j] == v1.deep_view().push(
        x.deep_view(),
    )[j] by {
        if j < v1@.len() {
            assert(v2.deep_view()[j] == v1@[j].deep_view());
            assert(v1.deep_view()[j] == v1@[j].deep_view());
        }
    }
    assert(v2.deep_view() =~= v1.deep_view().push(x.deep_view()));
}

/// Concatenation commutes with the deep view.
pub proof fn lemma_deep_concat<T: DeepView>(v: Vec<T>, v1: Vec<T>, v2: Vec<T>)
    requires
        v@ == v1@ + v2@,
    ensures
        v.deep_view() == v1.deep_view() + v2.deep_view(),
{
    assert forall|j: int| 0 <= j < v@.len() implies v.deep_view()[j] == (v1.deep_view()
        + v2.deep_view())[j] by {
        if j < v1@.len() {
            assert(v.deep_view()[j] == v1@[j].deep_view());
            assert(v1.deep_view()[j] == v1@[j].deep_view());
        } else {
            assert(v.deep_view()[j] == v2@[j - v1@.len()].deep_view());
            assert(v2.deep_view()[j - v1@.len()] == v2@[j - v1@.len()].deep_view());
        }
    }
    assert(v.deep_view() =~= v1.deep_view() + v2.deep_view());
}

/// The values bound to one argument name.
#[derive(Clone, Debug, PartialEq, Eq)]
pub struct BoundValue {
    /// The [`ArgSpec::name`] this binding belongs to.
    pub name: String,
    /// The raw value strings, in the order they were consumed. Empty for a
    /// boolean switch: its presence is the binding.
    pub values: Vec<String>,
}

/// The mathematical model of a [`BoundValue`].
#[verifier::ext_equal]
pub ghost struct BoundModel {
    pub name: Seq<char>,
    pub values: Seq<Seq<char>>,
}

impl View for BoundValue {
    type V = BoundModel;

    open spec fn view(&self) -> BoundModel {
        BoundModel { name: self.name@, values: self.values.deep_view() }
    }
}

impl DeepView for BoundValue {
    type V = BoundModel;

    open spec fn deep_view(&self) -> BoundModel {
        self.view()
    }
}

/// A found binding lies in range and carries the looked-up name.
pub proof fn lemma_lookup_props(acc: Seq<BoundModel>, name: Seq<char>, i: int)
    requires
        0 <= i,
    ensures
        match lookup_from(acc, name, i) {
            Some(k) => i <= k < acc.len() && acc[k].name == name,
            None => true,
        },
    decreases acc.len() - i,
{
    if i < acc.len() && acc[i].name != name {
        lemma_lookup_props(acc, name, i + 1);
    }
}

/// Index of the first binding named `name`, scanning from `i`.
pub open spec fn lookup_from(acc: Seq<BoundModel>, name: Seq<char>, i: int) -> Option<int>
    decreases acc.len() - i,
{
    if i < 0 || i >= acc.len() {
        None
    } else if acc[i].name == name {
        Some(i)
    } else {
        lookup_from(acc, name, i + 1)
    }
}

/// Index of the binding named `name`, if any.
pub open spec fn spec_lookup(acc: Seq<BoundModel>, name: Seq<char>) -> Option<int> {
    lookup_from(acc, name, 0)
}

/// Adds the binding `name := vals`: a repeatable argument appends to its
/// existing values, any other overwrites them; a first occurrence is
/// appended to the bindings in consumption order.
pub open spec fn upsert(
    acc: Seq<BoundModel>,
    name: Seq<char>,
    vals: Seq<Seq<char>>,
    repeatable: bool,
) -> Seq<BoundModel> {
    match spec_lookup(acc, name) {
        Some(k) => if repeatable {
            acc.update(k, BoundModel { name, values: acc[k].values + vals })
        } else {
            acc.update(k, BoundModel { name, values: vals })
        },
        None => acc.push(BoundModel { name, values: vals }),
    }
}

/// Executable form of [`spec_lookup`].
fn find_bound(acc: &Vec<BoundValue>, name: &String) -> (r: Option<usize>)
    ensures
        match r {
            Some(k) => spec_lookup(acc.deep_view(), name@) == Some(k as int) && k < acc.len(),
            None => spec_lookup(acc.deep_view(), name@) is None,
        },
{
    let mut i: usize = 0;
    while i < acc.len()
        invariant
            0 <= i <= acc.len(),
            lookup_from(acc.deep_view(), name@, 0) == lookup_from(acc.deep_view(), name@, i as int),
        decreases acc.len() - i,
    {
        if acc[i].name.eq(name) {
            return Some(i);
        }
        i = i + 1;
    }
    None
}

/// Executable form of [`upsert`]: merges `vals` into the bindings.
pub fn upsert_exec(acc: &mut Vec<BoundValue>, name: &String, vals: Vec<String>, repeatable: bool)
    ensures
        final(acc).deep_view() == upsert(old(acc).deep_view(), name@, vals.deep_view(), repeatable),
{
    let ghost before = acc.deep_view();
    let ghost gvals = vals.deep_view();
    proof {
        lemma_lookup_props(before, name@, 0);
    }
    match find_bound(acc, name) {
        None => {
            acc.push(BoundValue { name: name.clone(), values: vals });
            proof {
                assert(acc.deep_view() =~~= upsert(before, name@, gvals, repeatable));
            }
        },
        Some(k) => {
            if repeatable {
                let mut entry = acc.remove(k);
                let mut more = vals;
                entry.values.append(&mut more);
                acc.insert(k, entry);
                proof {
                    assert(acc.deep_view() =~~= upsert(before, name@, gvals, repeatable));
                }
            } else {
                let keep = acc[k].name.clone();
                acc.set(k, BoundValue { name: keep, values: vals });
                proof {
                    assert(acc.deep_view() =~~= upsert(before, name@, gvals, repeatable));
                }
            }
        },
    }
}

/// Number of consecutive plain-value tokens starting at `i`.
pub open spec fn value_run(ts: Seq<TokenModel>, i: int) -> nat
    decreases ts.len() - i,
{
    if i < 0 || i >= ts.len() || ts[i].kind != TokenKind::Value {
        0
    } else {
        1 + value_run(ts, i + 1)
    }
}

/// A value run never reaches past the end of the stream.
pub proof fn lemma_value_run_le(ts: Seq<TokenModel>, i: int)
    requires
        0 <= i <= ts.len(),
    ensures
        i + value_run(ts, i) <= ts.len(),
    decreases ts.len() - i,
{
    if i < ts.len() && ts[i].kind == TokenKind::Value {
        lemma_value_run_le(ts, i + 1);
    }
}

/// The texts of the tokens in `[from, to)`.
pub open spec fn texts_range(ts: Seq<TokenModel>, from: int, to: int) -> Seq<Seq<char>> {
    Seq::new((to - from) as nat, |i: int| ts[from + i].text)
}

/// Executable form of [`value_run`].
fn value_run_exec(ts: &Vec<Token>, i: usize) -> (r: usize)
    requires
        i <= ts.len(),
    ensures
        r == value_run(ts.deep_view(), i as int),
        i + r <= ts.len(),
    decreases ts.len() - i,
{
    proof {
        lemma_value_run_le(ts.deep_view(), i as int);
    }
    if i >= ts.len() {
        0
    } else {
        match ts[i].kind {
            TokenKind::Value => 1 + value_run_exec(ts, i + 1),
            _ => 0,
        }
    }
}

/// Copies the texts of the tokens in `[from, to)`.
fn take_texts(ts: &Vec<Token>, from: usize, to: usize) -> (r: Vec<String>)
    requires
        from <= to <= ts.len(),
    ensures
        r.deep_view() == texts_range(ts.deep_view(), from as int, to as int),
{
    let mut r: Vec<String> = Vec::new();
    proof {
        assert(r.deep_view() =~= texts_range(ts.deep_view(), from as int, from as int));
    }
    let mut k = from;
    while k < to
        invariant
            from <= k <= to <= ts.len(),
            r.deep_view() == texts_range(ts.deep_view(), from as int, k as int),
        decreases to - k,
    {
        let ghost r0 = r;
        let x = ts[k].text.clone();
        let ghost gx = x;
        r.push(x);
        proof {
            lemma_deep_push(r0, r, gx);
            assert(gx@ == ts.deep_view()[k as int].text);
            assert(r.deep_view() =~= texts_range(ts.deep_view(), from as int, k as int + 1));
        }
        k = k + 1;
    }
    r
}

/// The binder's flag pass over the token stream from `i` on: binds each
/// flag token's values per its arity, collects loose value tokens as
/// positionals (everything after a bare `--` is positional), records arity
/// shortfalls, and stops only on an unknown flag.
///
/// Returns the bindings, the positional texts and the recorded errors.
pub open spec fn bind_flags(
    ts: Seq<TokenModel>,
    c: CommandSpec,
    i: int,
    acc: Seq<BoundModel>,
    pos: Seq<Seq<char>>,
    errs: Seq<ErrModel>,
) -> Result<(Seq<BoundModel>, Seq<Seq<char>>, Seq<ErrModel>), ErrModel>
    decreases ts.len() - i,
    via bind_flags_decreases
{
    if i < 0 || i >= ts.len() {
        Ok((acc, pos, errs))
    } else {
        let t = ts[i];
        match t.kind {
            TokenKind::Value => bind_flags(ts, c, i + 1, acc, pos.push(t.text), errs),
            TokenKind::Separator => Ok(
                (acc, pos + texts_range(ts, i + 1, ts.len() as int), errs),
            ),
            _ => {
                let found = if t.kind == TokenKind::LongFlag {
                    c.spec_find_long(t.text)
                } else if t.text.len() == 1 {
                    c.spec_find_short(t.text[0])
                } else {
                    None
                };
                match found {
                    None => Err(ErrModel::UnknownArgument { name: t.text }),
                    Some(ai) => {
                        let a = c.args@[ai];
                        if a.arity.spec_is_switch() {
                            bind_flags(
                                ts,
                                c,
                                i + 1,
                                upsert(acc, a.name@, Seq::empty(), a.repeatable),
                                pos,
                                errs,
                            )
                        } else {
                            let k = value_run(ts, i + 1);
                            let need = a.arity.spec_min();
                            if k < need {
                                bind_flags(
                                    ts,
                                    c,
                                    i + 1 + k,
                                    acc,
                                    pos,
                                    errs.push(
                                        ErrModel::ArityError {
                                            name: a.name@,
                                            expected: need,
                                            got: k,
                                        },
                                    ),
                                )
                            } else {
                                let take = if a.arity is AtLeastOne {
                                    k as int
                                } else {
                                    need as int
                                };
                                bind_flags(
                                    ts,
                                    c,
                                    i + 1 + take,
                                    upsert(
                                        acc,
                                        a.name@,
                                        texts_range(ts, i + 1, i + 1 + take),
                                        a.repeatable,
                                    ),
                                    pos,
                                    errs,
                                )
                            }
                        }
                    },
                }
            },
        }
    }
}

#[via_fn]
proof fn bind_flags_decreases(
    ts: Seq<TokenModel>,
    c: CommandSpec,
    i: int,
    acc: Seq<BoundModel>,
    pos: Seq<Seq<char>>,
    errs: Seq<ErrModel>,
) {
    if 0 <= i < ts.len() {
        lemma_value_run_le(ts, i + 1);
    }
}

/// Executable form of [`bind_flags`]; on the unknown-flag error the three
/// buffers are unspecified and the caller discards them.
pub(crate) fn bind_flags_at(
    ts: &Vec<Token>,
    c: &CommandSpec,
    i: usize,
    acc: &mut Vec<BoundValue>,
    pos: &mut Vec<String>,
    errs: &mut Vec<ParseError>,
) -> (r: Result<(), ParseError>)
    ensures
        match bind_flags(
            ts.deep_view(),
            *c,
            i as int,
            old(acc).deep_view(),
            old(pos).deep_view(),
            old(errs).deep_view(),
        ) {
            Ok(t3) => r is Ok && final(acc).deep_view() == t3.0 && final(pos).deep_view() == t3.1
                && final(errs).deep_view() == t3.2,
            Err(e) => r matches Err(pe) && pe@ == e,
        },
    decreases ts.len() - i,
{
    if i >= ts.len() {
        return Ok(());
    }
    let t = &ts[i];
    match t.kind {
        TokenKind::Value => {
            let ghost p0 = *pos;
            let x = t.text.clone();
            let ghost gx = x;
            pos.push(x);
            proof {
                lemma_deep_push(p0, *pos, gx);
                assert(pos.deep_view() == old(pos).deep_view().push(
                    ts.deep_view()[i as int].text,
                ));
            }
            bind_flags_at(ts, c, i + 1, acc, pos, errs)
        },
        TokenKind::Separator => {
            let mut rest = take_texts(ts, i + 1, ts.len());
            let ghost p0 = *pos;
            let ghost r0 = rest;
            pos.append(&mut rest);
            proof {
                lemma_deep_concat(*pos, p0, r0);
                assert(pos.deep_view() == old(pos).deep_view() + texts_range(
                    ts.deep_view(),
                    i as int + 1,
                    ts.len() as int,
                ));
            }
            Ok(())
        },
        _ => {
            let is_long = match t.kind {
                TokenKind::LongFlag => true,
                _ => false,
            };
            let found: Option<usize> = if is_long {
                c.find_long(&t.text)
            } else {
                let n = t.text.as_str().unicode_len();
                if n == 1 {
                    c.find_short(t.text.as_str().get_char(0))
                } else {
                    None
                }
            };
            match found {
                None => Err(ParseError::UnknownArgument { name: t.text.clone() }),
                Some(ai) => {
                    let a = &c.args[ai];
                    if a.arity.is_switch() {
                        let none: Vec<String> = Vec::new();
                        proof {
                            assert(none.deep_view() =~= Seq::<Seq<char>>::empty());
                        }
                        upsert_exec(acc, &a.name, none, a.repeatable);
                        bind_flags_at(ts, c, i + 1, acc, pos, errs)
                    } else {
                        let k = value_run_exec(ts, i + 1);
                        let need = a.arity.min_values();
                        if k < need {
                            let ghost e0 = *errs;
                            let e = ParseError::ArityError {
                                name: a.name.clone(),
                                expected: need,
                                got: k,
                            };
                            let ghost ge = e;
                            errs.push(e);
                            proof {
                                lemma_deep_push(e0, *errs, ge);
                            }
                            bind_flags_at(ts, c, i + 1 + k, acc, pos, errs)
                        } else {
                            let take = match a.arity {
                                Arity::AtLeastOne => k,
                                Arity::Exact(_) => need,
                            };
                            let vals = take_texts(ts, i + 1, i + 1 + take);
                            upsert_exec(acc, &a.name, vals, a.repeatable);
                            bind_flags_at(ts, c, i + 1 + take, acc, pos, errs)
                        }
                    }
                },
            }
        },
    }
}

/// Assigns the collected positional texts `pos` (from `pj` on) to the
/// positional arguments among `args` (from `pi` on), in declaration order:
/// an exact arity takes that many texts (too few is an arity failure), a
/// one-or-more arity greedily takes the rest, and texts no positional
/// argument accepts are unexpected-argument failures.
pub open spec fn assign_positionals(
    pos: Seq<Seq<char>>,
    pj: int,
    args: Seq<ArgSpec>,
    pi: int,
    acc: Seq<BoundModel>,
    errs: Seq<ErrModel>,
) -> (Seq<BoundModel>, Seq<ErrModel>)
    decreases args.len() - pi,
{
    if pi < 0 || pi >= args.len() {
        (acc, errs + excess_errs(pos, pj))
    } else if !args[pi].positional {
        assign_positionals(pos, pj, args, pi + 1, acc, errs)
    } else {
        let a = args[pi];
        let avail = pos.len() - pj;
        if avail <= 0 {
            assign_positionals(pos, pj, args, pi + 1, acc, errs)
        } else {
            match a.arity {
                Arity::Exact(n) => if avail < n {
                    assign_positionals(
                        pos,
                        pos.len() as int,
                        args,
                        pi + 1,
                        acc,
                        errs.push(
                            ErrModel::ArityError {
                                name: a.name@,
                                expected: n as nat,
                                got: avail as nat,
                            },
                        ),
                    )
                } else {
                    assign_positionals(
                        pos,
                        pj + n,
                        args,
                        pi + 1,
                        upsert(acc, a.name@, pos.subrange(pj, pj + n), a.repeatable),
                        errs,
                    )
                },
                Arity::AtLeastOne => assign_positionals(
                    pos,
                    pos.len() as int,
                    args,
                    pi + 1,
                    upsert(acc, a.name@, pos.subrange(pj, pos.len() as int), a.repeatable),
                    errs,
                ),
            }
        }
    }
}

/// One unexpected-argument failure for each leftover positional text.
pub open spec fn excess_errs(pos: Seq<Seq<char>>, pj: int) -> Seq<ErrModel> {
    Seq::new((pos.len() - pj) as nat, |i: int| ErrModel::UnexpectedArgument { text: pos[pj + i] })
}

/// Copies `pos[from..to]`.
fn slice_strings(pos: &Vec<String>, from: usize, to: usize) -> (r: Vec<String>)
    requires
        from <= to <= pos.len(),
    ensures
        r.deep_view() == pos.deep_view().subrange(from as int, to as int),
{
    let mut r: Vec<String> = Vec::new();
    proof {
        assert(r.deep_view() =~= pos.deep_view().subrange(from as int, from as int));
    }
    let mut k = from;
    while k < to
        invariant
            from <= k <= to <= pos.len(),
            r.deep_view() == pos.deep_view().subrange(from as int, k as int),
        decreases to - k,
    {
        let ghost r0 = r;
        let x = pos[k].clone();
        let ghost gx = x;
        r.push(x);
        proof {
            lemma_deep_push(r0, r, gx);
            assert(gx@ == pos.deep_view()[k as int]);
            assert(r.deep_view() =~= pos.deep_view().subrange(from as int, k as int + 1));
        }
        k = k + 1;
    }
    r
}

/// Executable form of [`assign_positionals`].
pub(crate) fn assign_positionals_at(
    pos: &Vec<String>,
    pj: usize,
    c: &CommandSpec,
    pi: usize,
    acc: &mut Vec<BoundValue>,
    errs: &mut Vec<ParseError>,
)
    requires
        pj <= pos.len(),
    ensures
        ({
            let t2 = assign_positionals(
                pos.deep_view(),
                pj as int,
                c.args@,
                pi as int,
                old(acc).deep_view(),
                old(errs).deep_view(),
            );
            final(acc).deep_view() == t2.0 && final(errs).deep_view() == t2.1
        }),
    decreases c.args.len() - pi,
{
    if pi >= c.args.len() {
        let mut k = pj;
        while k < pos.len()
            invariant
                pj <= k <= pos.len(),
                errs.deep_view() == old(errs).deep_view() + excess_errs(
                    pos.deep_view(),
                    pj as int,
                ).take(k - pj),
                acc == old(acc),
            decreases pos.len() - k,
        {
            let ghost e0 = *errs;
            let e = ParseError::UnexpectedArgument { text: pos[k].clone() };
            let ghost ge = e;
            errs.push(e);
            proof {
                lemma_deep_push(e0, *errs, ge);
                assert(ge@ == ErrModel::UnexpectedArgument { text: pos.deep_view()[k as int] });
                assert(errs.deep_view() =~= old(errs).deep_view() + excess_errs(
                    pos.deep_view(),
                    pj as int,
                ).take(k + 1 - pj));
            }
            k = k + 1;
        }
        proof {
            assert(excess_errs(pos.deep_view(), pj as int).take(pos.len() - pj as int)
                =~= excess_errs(pos.deep_view(), pj as int));
        }
        return ;
    }
    let a = &c.args[pi];
    if !a.positional {
        assign_positionals_at(pos, pj, c, pi + 1, acc, errs);
        return ;
    }
    let avail = pos.len() - pj;
    if avail == 0 {
        assign_positionals_at(pos, pj, c, pi + 1, acc, errs);
        return ;
    }
    match a.arity {
        Arity::Exact(n) => {
            if avail < n {
                let ghost e0 = *errs;
                let e = ParseError::ArityError { name: a.name.clone(), expected: n, got: avail };
                let ghost ge = e;
                errs.push(e);
                proof {
                    lemma_deep_push(e0, *errs, ge);
                }
                assign_positionals_at(pos, pos.len(), c, pi + 1, acc, errs);
            } else {
                let vals = slice_strings(pos, pj, pj + n);
                upsert_exec(acc, &a.name, vals, a.repeatable);
                assign_positionals_at(pos, pj + n, c, pi + 1, acc, errs);
            }
        },
        Arity::AtLeastOne => {
            let vals = slice_strings(pos, pj, pos.len());
            upsert_exec(acc, &a.name, vals, a.repeatable);
            assign_positionals_at(pos, pos.len(), c, pi + 1, acc, errs);
        },
    }
}

/// Binds, after validation, every still-unbound argument that carries a
/// default to that default, in declaration order.
pub open spec fn apply_defaults(args: Seq<ArgSpec>, ai: int, acc: Seq<BoundModel>) -> Seq<
    BoundModel,
>
    decreases args.len() - ai,
{
    if ai < 0 || ai >= args.len() {
        acc
    } else {
        let a = args[ai];
        if spec_lookup(acc, a.name@) is None && a.default is Some {
            apply_defaults(
                args,
                ai + 1,
                acc.push(BoundModel { name: a.name@, values: a.default.unwrap().deep_view() }),
            )
        } else {
            apply_defaults(args, ai + 1, acc)
        }
    }
}

/// Executable form of [`apply_defaults`].
pub fn apply_defaults_at(c: &CommandSpec, ai: usize, acc: &mut Vec<BoundValue>)
    ensures
        final(acc).deep_view() == apply_defaults(c.args@, ai as int, old(acc).deep_view()),
    decreases c.args.len() - ai,
{
    if ai >= c.args.len() {
        return ;
    }
    let a = &c.args[ai];
    let have = find_bound(acc, &a.name);
    match (&have, &a.default) {
        (Option::None, Option::Some(d)) => {
            let vals = d.clone();
            proof {
                assert forall|j: int| 0 <= j < vals@.len() implies vals.deep_view()[j]
                    == d.deep_view()[j] by {
                    assert(cloned::<String>(d@[j], vals@[j]));
                }
                assert(vals.deep_view() =~= d.deep_view());
            }
            let ghost a0 = *acc;
            let entry = BoundValue { name: a.name.clone(), values: vals };
            let ghost gentry = entry;
            acc.push(entry);
            proof {
                lemma_deep_push(a0, *acc, gentry);
                assert(gentry@ =~~= BoundModel {
                    name: a.name@,
                    values: a.default.unwrap().deep_view(),
                });
            }
            apply_defaults_at(c, ai + 1, acc);
        },
        _ => {
            apply_defaults_at(c, ai + 1, acc);
        },
    }
}



} // verus!
