//! Rendering a parse outcome back to argument strings, and the round-trip
//! law: for bindings in stable canonical form, re-parsing the rendered
//! strings rebinds exactly the same values.

use vstd::prelude::*;
use vstd::string::StringExecFns;
use crate::schema::Arity;
use crate::schema::CommandSpec;
use crate::errors::ErrModel;
use crate::token::TokenKind;
use crate::token::TokenModel;
use crate::token::find_eq_from;
use crate::token::head_tokens_of;
use crate::token::is_separator_text;
use crate::token::tok;
use crate::token::tokenize_from;
use crate::bind::BoundModel;
use crate::bind::BoundValue;
use crate::bind::bind_flags;
use crate::bind::lemma_deep_push;
use crate::bind::spec_lookup;
use crate::bind::texts_range;
use crate::bind::upsert;
use crate::bind::value_run;
use crate::parse::ParseResult;

verus! {

/// The canonical argument strings of the bindings from `vi` on: for each
/// binding, `--<long alias>` followed by its values, in binding order.
/// A binding naming no declared argument renders as nothing.
pub open spec fn render_args(c: CommandSpec, vals: Seq<BoundModel>, vi: int) -> Seq<Seq<char>>
    decreases vals.len() - vi,
{
    if vi < 0 || vi >= vals.len() {
        Seq::empty()
    } else {
        let b = vals[vi];
        match c.spec_find_named(b.name) {
            Some(ai) => if c.args@[ai].long is Some {
                seq!["--"@ + c.args@[ai].long.unwrap()@] + b.values + render_args(c, vals, vi + 1)
            } else {
                render_args(c, vals, vi + 1)
            },
            None => render_args(c, vals, vi + 1),
        }
    }
}

/// A value string that re-tokenizes as a plain value: it does not begin
/// with `-`.
pub open spec fn plain_value_text(v: Seq<char>) -> bool {
    v.len() == 0 || v[0] != '-'
}

/// A binding in stable canonical form: it names a declared flag whose long
/// alias is non-empty, free of `=` and of a leading `-`, and is the alias
/// the binder resolves to this argument; the arity is exact and matches
/// the bound value count; and every value re-tokenizes as a plain value.
pub open spec fn stable_binding(c: CommandSpec, b: BoundModel) -> bool {
    match c.spec_find_named(b.name) {
        Some(ai) => {
            let a = c.args@[ai];
            &&& !a.positional
            &&& a.long is Some
            &&& a.long.unwrap()@.len() > 0
            &&& a.long.unwrap()@[0] != '-'
            &&& find_eq_from(a.long.unwrap()@, 0) is None
            &&& c.spec_find_long(a.long.unwrap()@) == Some(ai)
            &&& b.values.len() <= usize::MAX
            &&& a.arity == Arity::Exact(b.values.len() as usize)
            &&& forall|j: int| 0 <= j < b.values.len() ==> plain_value_text(#[trigger] b.values[j])
        },
        None => false,
    }
}

/// Bindings that render in stable canonical form: each is stable and their
/// names are distinct from `vi` on.
pub open spec fn renders_cleanly(c: CommandSpec, vals: Seq<BoundModel>, vi: int) -> bool {
    &&& forall|j: int| vi <= j < vals.len() ==> stable_binding(c, #[trigger] vals[j])
    &&& forall|j: int, k: int| vi <= j < k < vals.len() ==> vals[j].name != vals[k].name
}

/// The first `=` position is the same wherever the scan starts, when there
/// is none.
proof fn lemma_find_eq_none(s: Seq<char>, i: int)
    requires
        find_eq_from(s, 0) is None,
        0 <= i,
    ensures
        find_eq_from(s, i) is None,
    decreases i,
{
    if i > 0 {
        lemma_find_eq_none_step(s, 0, i);
    }
}

/// A scan that found no `=` from `lo` finds none from any later start.
proof fn lemma_find_eq_none_step(s: Seq<char>, lo: int, hi: int)
    requires
        0 <= lo <= hi,
        find_eq_from(s, lo) is None,
    ensures
        find_eq_from(s, hi) is None,
    decreases hi - lo,
{
    if lo < hi && lo < s.len() {
        lemma_find_eq_none_step(s, lo + 1, hi);
    }
}

/// The tokens of one rendered flag string: exactly its long-flag token.
proof fn lemma_flag_string_tokens(c: CommandSpec, long: Seq<char>)
    requires
        long.len() > 0,
        long[0] != '-',
        find_eq_from(long, 0) is None,
    ensures
        head_tokens_of("--"@ + long, c, false) == Ok::<_, ErrModel>(
            seq![tok(TokenKind::LongFlag, long)],
        ),
        !is_separator_text("--"@ + long),
{
    let s = "--"@ + long;
    reveal_strlit("--");
    assert(s.len() == 2 + long.len());
    assert(s.subrange(2, s.len() as int) =~= long);
    lemma_find_eq_none(long, 0);
    assert(find_eq_from(s.subrange(2, s.len() as int), 0) is None);
}

/// The tokens of one plain value string: exactly its value token.
proof fn lemma_value_string_tokens(c: CommandSpec, v: Seq<char>)
    requires
        plain_value_text(v),
    ensures
        head_tokens_of(v, c, false) == Ok::<_, ErrModel>(seq![tok(TokenKind::Value, v)]),
        !is_separator_text(v),
{
}

/// Tokenizing a suffix of a concatenation is tokenizing the suffix.
proof fn lemma_tokenize_shift(
    a1: Seq<Seq<char>>,
    a2: Seq<Seq<char>>,
    c: CommandSpec,
    j: int,
    b: bool,
)
    requires
        0 <= j,
    ensures
        tokenize_from(a1 + a2, c, a1.len() + j, b) == tokenize_from(a2, c, j, b),
    decreases a2.len() - j,
{
    if j < a2.len() {
        assert((a1 + a2)[a1.len() + j] == a2[j]);
        lemma_tokenize_shift(a1, a2, c, j + 1, b || is_separator_text(a2[j]));
    }
}

/// Tokenizing a concatenation free of separators concatenates the tokens.
proof fn lemma_tokenize_append(
    a1: Seq<Seq<char>>,
    a2: Seq<Seq<char>>,
    c: CommandSpec,
    i: int,
    t1: Seq<TokenModel>,
    t2: Seq<TokenModel>,
)
    requires
        0 <= i <= a1.len(),
        forall|j: int| i <= j < a1.len() ==> !is_separator_text(#[trigger] a1[j]),
        tokenize_from(a1, c, i, false) == Ok::<_, ErrModel>(t1),
        tokenize_from(a2, c, 0, false) == Ok::<_, ErrModel>(t2),
    ensures
        tokenize_from(a1 + a2, c, i, false) == Ok::<_, ErrModel>(t1 + t2),
    decreases a1.len() - i,
{
    if i >= a1.len() {
        lemma_tokenize_shift(a1, a2, c, i - a1.len(), false);
        assert(t1 =~= Seq::<TokenModel>::empty());
        assert(t1 + t2 =~= t2);
    } else {
        assert((a1 + a2)[i] == a1[i]);
        match head_tokens_of(a1[i], c, false) {
            Err(e) => {
                assert(false);
            },
            Ok(hd) => {
                let rest1 = tokenize_from(a1, c, i + 1, false)->Ok_0;
                lemma_tokenize_append(a1, a2, c, i + 1, rest1, t2);
                assert(t1 == hd + rest1);
                assert(hd + (rest1 + t2) =~= (hd + rest1) + t2);
            },
        }
    }
}

/// A run of exactly `n` value tokens, stopped by the stream's end or a
/// non-value token, has length `n`.
proof fn lemma_value_run_exact(ts: Seq<TokenModel>, i: int, n: int)
    requires
        0 <= i,
        0 <= n,
        i + n <= ts.len(),
        forall|j: int| i <= j < i + n ==> (#[trigger] ts[j]).kind == TokenKind::Value,
        i + n == ts.len() || ts[i + n].kind != TokenKind::Value,
    ensures
        value_run(ts, i) == n,
    decreases n,
{
    if n > 0 {
        lemma_value_run_exact(ts, i + 1, n - 1);
    }
}

/// Binding a suffix of a token concatenation is binding the suffix.
proof fn lemma_bind_shift(
    t1: Seq<TokenModel>,
    t2: Seq<TokenModel>,
    c: CommandSpec,
    j: int,
    acc: Seq<BoundModel>,
    pos: Seq<Seq<char>>,
    errs: Seq<ErrModel>,
)
    requires
        0 <= j,
    ensures
        bind_flags(t1 + t2, c, t1.len() + j, acc, pos, errs) == bind_flags(t2, c, j, acc, pos, errs),
    decreases t2.len() - j,
{
    if j < t2.len() {
        let ts = t1 + t2;
        let i = t1.len() + j;
        assert(ts[i] == t2[j]);
        lemma_value_run_shift(t1, t2, j + 1);
        assert(texts_range(ts, i + 1, ts.len() as int) =~= texts_range(t2, j + 1, t2.len() as int));
        let t = t2[j];
        match t.kind {
            TokenKind::Value => {
                lemma_bind_shift(t1, t2, c, j + 1, acc, pos.push(t.text), errs);
            },
            TokenKind::Separator => {},
            _ => {
                let found = if t.kind == TokenKind::LongFlag {
                    c.spec_find_long(t.text)
                } else if t.text.len() == 1 {
                    c.spec_find_short(t.text[0])
                } else {
                    None
                };
                if let Some(ai) = found {
                    let a = c.args@[ai];
                    if a.arity.spec_is_switch() {
                        lemma_bind_shift(
                            t1,
                            t2,
                            c,
                            j + 1,
                            upsert(acc, a.name@, Seq::empty(), a.repeatable),
                            pos,
                            errs,
                        );
                    } else {
                        let k = value_run(t2, j + 1) as int;
                        crate::bind::lemma_value_run_le(t2, j + 1);
                        let need = a.arity.spec_min();
                        assert(texts_range(ts, i + 1, i + 1 + k) =~= texts_range(
                            t2,
                            j + 1,
                            j + 1 + k,
                        ));
                        if k < need {
                            lemma_bind_shift(
                                t1,
                                t2,
                                c,
                                j + 1 + k,
                                acc,
                                pos,
                                errs.push(
                                    ErrModel::ArityError {
                                        name: a.name@,
                                        expected: need,
                                        got: k as nat,
                                    },
                                ),
                            );
                        } else {
                            let take = if a.arity is AtLeastOne {
                                k
                            } else {
                                need as int
                            };
                            assert(texts_range(ts, i + 1, i + 1 + take) =~= texts_range(
                                t2,
                                j + 1,
                                j + 1 + take,
                            ));
                            lemma_bind_shift(
                                t1,
                                t2,
                                c,
                                j + 1 + take,
                                upsert(
                                    acc,
                                    a.name@,
                                    texts_range(t2, j + 1, j + 1 + take),
                                    a.repeatable,
                                ),
                                pos,
                                errs,
                            );
                        }
                    }
                }
            },
        }
    }
}

/// A value run in a suffix of a concatenation is the suffix's value run.
proof fn lemma_value_run_shift(t1: Seq<TokenModel>, t2: Seq<TokenModel>, j: int)
    requires
        0 <= j,
    ensures
        value_run(t1 + t2, t1.len() + j) == value_run(t2, j),
    decreases t2.len() - j,
{
    if j < t2.len() {
        assert((t1 + t2)[t1.len() + j] == t2[j]);
        lemma_value_run_shift(t1, t2, j + 1);
    }
}

/// The rendered strings of clean bindings re-tokenize without error, and
/// the tokens of the first binding lead the stream.
proof fn lemma_render_tokens(c: CommandSpec, vals: Seq<BoundModel>, vi: int)
    requires
        0 <= vi,
        renders_cleanly(c, vals, vi),
    ensures
        ({
            let args = render_args(c, vals, vi);
            &&& tokenize_from(args, c, 0, false) is Ok
            &&& forall|j: int| 0 <= j < args.len() ==> !is_separator_text(#[trigger] args[j])
            &&& tokenize_from(args, c, 0, false)->Ok_0 == render_tokens(c, vals, vi)
        }),
    decreases vals.len() - vi,
{
    if vi < vals.len() {
        let b = vals[vi];
        let ai = c.spec_find_named(b.name).unwrap();
        crate::schema::lemma_find_named_props(c.args@, b.name, 0);
        let a = c.args@[ai];
        let long = a.long.unwrap()@;
        let flag_str = "--"@ + long;
        let head_args = seq![flag_str] + b.values;
        let rest_args = render_args(c, vals, vi + 1);
        lemma_render_tokens(c, vals, vi + 1);
        lemma_flag_string_tokens(c, long);
        let head_toks = seq![tok(TokenKind::LongFlag, long)] + value_toks(b.values, 0);
        lemma_head_args_tokens(c, b.values, flag_str, long);
        lemma_tokenize_append(
            head_args,
            rest_args,
            c,
            0,
            head_toks,
            render_tokens(c, vals, vi + 1),
        );
        assert(render_args(c, vals, vi) =~= head_args + rest_args);
        assert(render_tokens(c, vals, vi) =~= head_toks + render_tokens(c, vals, vi + 1));
    } else {
        assert(render_args(c, vals, vi) =~= Seq::<Seq<char>>::empty());
        assert(render_tokens(c, vals, vi) =~= Seq::<TokenModel>::empty());
    }
}

/// The token stream the rendered strings of the bindings from `vi` on
/// produce: a long-flag token, then one value token per value, for each.
pub open spec fn render_tokens(c: CommandSpec, vals: Seq<BoundModel>, vi: int) -> Seq<TokenModel>
    decreases vals.len() - vi,
{
    if vi < 0 || vi >= vals.len() {
        Seq::empty()
    } else {
        let b = vals[vi];
        match c.spec_find_named(b.name) {
            Some(ai) => if c.args@[ai].long is Some {
                seq![tok(TokenKind::LongFlag, c.args@[ai].long.unwrap()@)] + value_toks(b.values, 0)
                    + render_tokens(c, vals, vi + 1)
            } else {
                render_tokens(c, vals, vi + 1)
            },
            None => render_tokens(c, vals, vi + 1),
        }
    }
}

/// One value token per value string, from `j` on.
pub open spec fn value_toks(values: Seq<Seq<char>>, j: int) -> Seq<TokenModel>
    decreases values.len() - j,
{
    if j < 0 || j >= values.len() {
        Seq::empty()
    } else {
        seq![tok(TokenKind::Value, values[j])] + value_toks(values, j + 1)
    }
}

/// The flag string and the value strings of one binding tokenize to its
/// flag token and value tokens.
proof fn lemma_head_args_tokens(
    c: CommandSpec,
    values: Seq<Seq<char>>,
    flag_str: Seq<char>,
    long: Seq<char>,
)
    requires
        flag_str == "--"@ + long,
        long.len() > 0,
        long[0] != '-',
        find_eq_from(long, 0) is None,
        forall|j: int| 0 <= j < values.len() ==> plain_value_text(#[trigger] values[j]),
    ensures
        tokenize_from(seq![flag_str] + values, c, 0, false) == Ok::<_, ErrModel>(
            seq![tok(TokenKind::LongFlag, long)] + value_toks(values, 0),
        ),
        forall|j: int|
            0 <= j < (seq![flag_str] + values).len() ==> !is_separator_text(
                #[trigger] (seq![flag_str] + values)[j],
            ),
{
    lemma_flag_string_tokens(c, long);
    lemma_values_tokens(c, values, 0);
    assert(seq![flag_str][0] == flag_str);
    assert(tokenize_from(seq![flag_str], c, 1, false) == Ok::<_, ErrModel>(
        Seq::<TokenModel>::empty(),
    ));
    assert(seq![tok(TokenKind::LongFlag, long)] + Seq::<TokenModel>::empty() =~= seq![
        tok(TokenKind::LongFlag, long),
    ]);
    lemma_tokenize_append(
        seq![flag_str],
        values,
        c,
        0,
        seq![tok(TokenKind::LongFlag, long)],
        value_toks(values, 0),
    );
    assert forall|j: int|
        0 <= j < (seq![flag_str] + values).len() implies !is_separator_text(
        (seq![flag_str] + values)[j],
    ) by {
        if j > 0 {
            assert((seq![flag_str] + values)[j] == values[j - 1]);
            lemma_value_string_tokens(c, values[j - 1]);
        }
    }
}

/// Plain value strings tokenize to their value tokens.
proof fn lemma_values_tokens(c: CommandSpec, values: Seq<Seq<char>>, j: int)
    requires
        0 <= j,
        forall|k: int| 0 <= k < values.len() ==> plain_value_text(#[trigger] values[k]),
    ensures
        tokenize_from(values, c, j, false) == Ok::<_, ErrModel>(value_toks(values, j)),
    decreases values.len() - j,
{
    if j < values.len() {
        lemma_value_string_tokens(c, values[j]);
        lemma_values_tokens(c, values, j + 1);
    }
}

/// Binding the rendered tokens of clean bindings, none of whose names is
/// already bound, appends exactly those bindings.
proof fn lemma_bind_rendered(
    c: CommandSpec,
    vals: Seq<BoundModel>,
    vi: int,
    acc: Seq<BoundModel>,
    pos: Seq<Seq<char>>,
    errs: Seq<ErrModel>,
)
    requires
        0 <= vi <= vals.len(),
        renders_cleanly(c, vals, vi),
        forall|j: int|
            vi <= j < vals.len() ==> spec_lookup(acc, (#[trigger] vals[j]).name) is None,
    ensures
        bind_flags(render_tokens(c, vals, vi), c, 0, acc, pos, errs) == Ok::<_, ErrModel>(
            (acc + vals.subrange(vi, vals.len() as int), pos, errs),
        ),
    decreases vals.len() - vi, 1int,
{
    if vi >= vals.len() {
        assert(render_tokens(c, vals, vi) =~= Seq::<TokenModel>::empty());
        assert(acc + vals.subrange(vi, vals.len() as int) =~= acc);
    } else {
        let b = vals[vi];
        let ai = c.spec_find_named(b.name).unwrap();
        crate::schema::lemma_find_named_props(c.args@, b.name, 0);
        let a = c.args@[ai];
        let long = a.long.unwrap()@;
        let n = b.values.len() as int;
        let head = seq![tok(TokenKind::LongFlag, long)] + value_toks(b.values, 0);
        let rest = render_tokens(c, vals, vi + 1);
        let ts = render_tokens(c, vals, vi);
        assert(ts =~= head + rest);
        lemma_value_toks_len(b.values, 0);
        assert(ts[0] == tok(TokenKind::LongFlag, long));
        assert forall|j: int| 1 <= j < 1 + n implies (#[trigger] ts[j]).kind
            == TokenKind::Value && ts[j].text == b.values[j - 1] by {
            lemma_value_toks_index(b.values, 0, j - 1);
            assert(head[j] == value_toks(b.values, 0)[j - 1]);
        }
        if 1 + n < ts.len() {
            assert(ts[1 + n] == rest[0]);
            lemma_render_tokens_head(c, vals, vi + 1);
        }
        lemma_value_run_exact(ts, 1, n);
        if n == 0 {
            assert(a.arity.spec_is_switch());
            let acc2 = upsert(acc, a.name@, Seq::empty(), a.repeatable);
            crate::bind::lemma_lookup_props(acc, a.name@, 0);
            assert(a.name@ == b.name);
            assert(acc2 =~= acc.push(BoundModel { name: b.name, values: Seq::empty() }));
            assert(BoundModel { name: b.name, values: Seq::empty() } =~~= b);
            assert(acc2 == acc.push(b));
            lemma_rebind_step(c, vals, vi, acc, pos, errs, ts, head, rest, acc.push(b), 1);
        } else {
            assert(!a.arity.spec_is_switch());
            assert(value_run(ts, 1) == n);
            assert(a.arity.spec_min() == n);
            let taken = texts_range(ts, 1, 1 + n);
            assert(taken =~= b.values);
            let acc2 = upsert(acc, a.name@, b.values, a.repeatable);
            assert(a.name@ == b.name);
            assert(acc2 =~= acc.push(BoundModel { name: b.name, values: b.values }));
            assert(BoundModel { name: b.name, values: b.values } =~~= b);
            assert(acc2 == acc.push(b));
            lemma_rebind_step(c, vals, vi, acc, pos, errs, ts, head, rest, acc.push(b), 1 + n);
        }
    }
}

/// One step of the re-binding induction: after the head binding is
/// consumed, the rest of the stream rebinds the rest of the bindings.
proof fn lemma_rebind_step(
    c: CommandSpec,
    vals: Seq<BoundModel>,
    vi: int,
    acc: Seq<BoundModel>,
    pos: Seq<Seq<char>>,
    errs: Seq<ErrModel>,
    ts: Seq<TokenModel>,
    head: Seq<TokenModel>,
    rest: Seq<TokenModel>,
    acc2: Seq<BoundModel>,
    consumed: int,
)
    requires
        0 <= vi < vals.len(),
        renders_cleanly(c, vals, vi),
        forall|j: int|
            vi <= j < vals.len() ==> spec_lookup(acc, (#[trigger] vals[j]).name) is None,
        ts == render_tokens(c, vals, vi),
        ts == head + rest,
        head.len() == consumed,
        rest == render_tokens(c, vals, vi + 1),
        acc2 == acc.push(vals[vi]),
        bind_flags(ts, c, 0, acc, pos, errs) == bind_flags(ts, c, consumed, acc2, pos, errs),
    ensures
        bind_flags(render_tokens(c, vals, vi), c, 0, acc, pos, errs) == Ok::<_, ErrModel>(
            (acc + vals.subrange(vi, vals.len() as int), pos, errs),
        ),
    decreases vals.len() - vi, 0int,
{
    assert forall|j: int|
        vi + 1 <= j < vals.len() implies spec_lookup(acc2, (#[trigger] vals[j]).name) is None by {
        lemma_lookup_push_none(acc, vals[vi], vals[j].name);
    }
    lemma_bind_rendered(c, vals, vi + 1, acc2, pos, errs);
    lemma_bind_shift(head, rest, c, 0, acc2, pos, errs);
    assert(render_tokens(c, vals, vi) == ts);
    assert(acc2 + vals.subrange(vi + 1, vals.len() as int) =~= acc + vals.subrange(
        vi,
        vals.len() as int,
    ));
}

/// Pushing a binding of a different name keeps a lookup failing.
proof fn lemma_lookup_push_none(acc: Seq<BoundModel>, b: BoundModel, name: Seq<char>)
    requires
        spec_lookup(acc, name) is None,
        b.name != name,
    ensures
        spec_lookup(acc.push(b), name) is None,
{
    lemma_lookup_push_none_from(acc, b, name, 0);
}

/// Helper induction for [`lemma_lookup_push_none`].
proof fn lemma_lookup_push_none_from(acc: Seq<BoundModel>, b: BoundModel, name: Seq<char>, i: int)
    requires
        0 <= i,
        crate::bind::lookup_from(acc, name, i) is None,
        b.name != name,
    ensures
        crate::bind::lookup_from(acc.push(b), name, i) is None,
    decreases acc.len() + 1 - i,
{
    if i <= acc.len() {
        lemma_lookup_push_none_from(acc, b, name, i + 1);
    }
}

/// The length of the value-token sequence.
proof fn lemma_value_toks_len(values: Seq<Seq<char>>, j: int)
    requires
        0 <= j <= values.len(),
    ensures
        value_toks(values, j).len() == values.len() - j,
    decreases values.len() - j,
{
    if j < values.len() {
        lemma_value_toks_len(values, j + 1);
    }
}

/// The `k`-th value token carries the `j + k`-th value.
proof fn lemma_value_toks_index(values: Seq<Seq<char>>, j: int, k: int)
    requires
        0 <= j,
        0 <= k,
        j + k < values.len(),
    ensures
        value_toks(values, j).len() > k,
        value_toks(values, j)[k] == tok(TokenKind::Value, values[j + k]),
    decreases k,
{
    lemma_value_toks_len(values, j);
    if k > 0 {
        lemma_value_toks_index(values, j + 1, k - 1);
    }
}

/// A non-empty rendered token stream opens with a long-flag token.
proof fn lemma_render_tokens_head(c: CommandSpec, vals: Seq<BoundModel>, vi: int)
    requires
        0 <= vi,
        renders_cleanly(c, vals, vi),
        render_tokens(c, vals, vi).len() > 0,
    ensures
        render_tokens(c, vals, vi)[0].kind == TokenKind::LongFlag,
    decreases vals.len() - vi,
{
    if vi < vals.len() {
        let b = vals[vi];
        if c.spec_find_named(b.name) is Some {
        } else {
            lemma_render_tokens_head(c, vals, vi + 1);
        }
    }
}

/// Law (round trip): rendering bindings in stable canonical form back to
/// argument strings and re-parsing them through the tokenizer and the
/// binder yields exactly the same bindings, no positionals and no
/// failures.
pub proof fn lemma_round_trip(c: CommandSpec, vals: Seq<BoundModel>)
    requires
        renders_cleanly(c, vals, 0),
    ensures
        ({
            let args = render_args(c, vals, 0);
            &&& tokenize_from(args, c, 0, false) is Ok
            &&& bind_flags(
                tokenize_from(args, c, 0, false)->Ok_0,
                c,
                0,
                Seq::empty(),
                Seq::empty(),
                Seq::empty(),
            ) == Ok::<_, ErrModel>(
                (vals, Seq::<Seq<char>>::empty(), Seq::<ErrModel>::empty()),
            )
        }),
{
    lemma_render_tokens(c, vals, 0);
    lemma_bind_rendered(c, vals, 0, Seq::empty(), Seq::empty(), Seq::empty());
    assert(Seq::<BoundModel>::empty() + vals.subrange(0, vals.len() as int) =~= vals);
}

/// Renders the bindings of `r` back to canonical argument strings, exactly
/// as [`render_args`] describes.
pub fn render(c: &CommandSpec, r: &ParseResult) -> (out: Vec<String>)
    ensures
        out.deep_view() == render_args(*c, r@.values, 0),
{
    let mut out: Vec<String> = Vec::new();
    proof {
        assert(out.deep_view() =~= Seq::<Seq<char>>::empty());
        assert(render_args(*c, r@.values, 0) =~= out.deep_view() + render_args(*c, r@.values, 0));
    }
    let mut vi: usize = 0;
    while vi < r.values.len()
        invariant
            0 <= vi <= r.values.len(),
            render_args(*c, r@.values, 0) == out.deep_view() + render_args(
                *c,
                r@.values,
                vi as int,
            ),
        decreases r.values.len() - vi,
    {
        let b = &r.values[vi];
        let ghost o0 = out.deep_view();
        match c.find_named(&b.name) {
            Some(ai) => {
                match &c.args[ai].long {
                    Some(l) => {
                        let mut f = String::from_str("--");
                        f.append(l.as_str());
                        let ghost before = out;
                        let ghost gf = f;
                        out.push(f);
                        proof {
                            lemma_deep_push(before, out, gf);
                            assert(out.deep_view() =~= o0 + seq![gf@]
                                + b.values.deep_view().subrange(0, 0));
                        }
                        let mut j: usize = 0;
                        while j < b.values.len()
                            invariant
                                0 <= j <= b.values.len(),
                                out.deep_view() == o0 + seq![gf@] + b.values.deep_view().subrange(
                                    0,
                                    j as int,
                                ),
                            decreases b.values.len() - j,
                        {
                            let ghost b0 = out;
                            let v = b.values[j].clone();
                            let ghost gv = v;
                            out.push(v);
                            proof {
                                lemma_deep_push(b0, out, gv);
                                assert(gv@ == b.values.deep_view()[j as int]);
                                assert(out.deep_view() =~= o0 + seq![gf@]
                                    + b.values.deep_view().subrange(0, j as int + 1));
                            }
                            j = j + 1;
                        }
                        proof {
                            assert(b.values.deep_view().subrange(0, b.values.len() as int)
                                =~= b.values.deep_view());
                            assert(r@.values[vi as int] == b@);
                            assert(out.deep_view() =~= o0 + (seq![
                                "--"@ + c.args@[ai as int].long.unwrap()@,
                            ] + r@.values[vi as int].values));
                            assert(render_args(*c, r@.values, 0) =~= out.deep_view() + render_args(
                                *c,
                                r@.values,
                                vi as int + 1,
                            ));
                        }
                    },
                    None => {
                        proof {
                            assert(render_args(*c, r@.values, 0) =~= out.deep_view() + render_args(
                                *c,
                                r@.values,
                                vi as int + 1,
                            ));
                        }
                    },
                }
            },
            None => {
                proof {
                    assert(render_args(*c, r@.values, 0) =~= out.deep_view() + render_args(
                        *c,
                        r@.values,
                        vi as int + 1,
                    ));
                }
            },
        }
        vi = vi + 1;
    }
    proof {
        assert(render_args(*c, r@.values, vi as int) =~= Seq::<Seq<char>>::empty());
        assert(out.deep_view() =~= render_args(*c, r@.values, 0));
    }
    out
}

} // verus!
