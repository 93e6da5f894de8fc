//! The tokenizer: splits raw argument strings into a flat stream of lexical
//! tokens.
//!
//! `--flag=value` splits into a flag and a glued value; `--flag` stands
//! alone; a cluster `-abc` expands into one short flag per letter, except
//! that a letter whose flag consumes values takes the remaining letters as
//! its glued value; a bare `--` switches every later string to a plain
//! value. A cluster letter naming no declared short flag is a
//! [`crate::errors::ParseError::TokenError`].

use vstd::prelude::*;
use vstd::string::StrSliceExecFns;
use vstd::string::StringExecFns;
use crate::schema::CommandSpec;
use crate::errors::ErrModel;
use crate::errors::ParseError;

verus! {

/// The lexical kind of one token.
#[derive(Clone, Copy, Debug, PartialEq, Eq, Structural)]
pub enum TokenKind {
    /// `--name`: a long flag; the text is the name without the dashes.
    LongFlag,
    /// `-n`: a short flag; the text is the single letter.
    ShortFlag,
    /// A plain value.
    Value,
    /// The bare `--` that ends flag parsing.
    Separator,
}

/// One lexical unit of the argument stream; produced and consumed within a
/// single parse pass.
#[derive(Clone, Debug, PartialEq, Eq)]
pub struct Token {
    pub kind: TokenKind,
    pub text: String,
}

/// The mathematical model of a [`Token`].
#[verifier::ext_equal]
pub ghost struct TokenModel {
    pub kind: TokenKind,
    pub text: Seq<char>,
}

impl View for Token {
    type V = TokenModel;

    open spec fn view(&self) -> TokenModel {
        TokenModel { kind: self.kind, text: self.text@ }
    }
}

impl DeepView for Token {
    type V = TokenModel;

    open spec fn deep_view(&self) -> TokenModel {
        self.view()
    }
}

/// A model token of the given kind.
pub open spec fn tok(kind: TokenKind, text: Seq<char>) -> TokenModel {
    TokenModel { kind, text }
}

/// Position of the first `=` in `s` at or after `i`.
pub open spec fn find_eq_from(s: Seq<char>, i: int) -> Option<int>
    decreases s.len() - i,
{
    if i < 0 || i >= s.len() {
        None
    } else if s[i] == '=' {
        Some(i)
    } else {
        find_eq_from(s, i + 1)
    }
}

/// The bare `--` that ends flag parsing.
pub open spec fn is_separator_text(s: Seq<char>) -> bool {
    s.len() == 2 && s[0] == '-' && s[1] == '-'
}

/// `--` followed by at least one more character: a long flag, possibly with
/// a glued `=value`.
pub open spec fn is_long_text(s: Seq<char>) -> bool {
    s.len() > 2 && s[0] == '-' && s[1] == '-'
}

/// `-` followed by at least one character other than `-`: a short-flag
/// cluster. A lone `-` is a plain value.
pub open spec fn is_cluster_text(s: Seq<char>) -> bool {
    s.len() >= 2 && s[0] == '-' && s[1] != '-'
}

/// Tokens of one long-flag string: the name up to the first `=` and, when
/// an `=` is present, the rest as a glued value.
pub open spec fn long_tokens(s: Seq<char>) -> Seq<TokenModel> {
    let body = s.subrange(2, s.len() as int);
    match find_eq_from(body, 0) {
        Some(p) => seq![
            tok(TokenKind::LongFlag, body.subrange(0, p)),
            tok(TokenKind::Value, body.subrange(p + 1, body.len() as int)),
        ],
        None => seq![tok(TokenKind::LongFlag, body)],
    }
}

/// Tokens of the letters of a short-flag cluster `s` from position `j` on:
/// a switch letter yields one short flag; a letter whose flag consumes
/// values takes every later letter as its glued value; an unknown letter is
/// a lexical error carrying the whole cluster.
pub open spec fn cluster_tokens(c: CommandSpec, s: Seq<char>, j: int) -> Result<
    Seq<TokenModel>,
    ErrModel,
>
    decreases s.len() - j,
{
    if j < 1 || j >= s.len() {
        Ok(Seq::empty())
    } else {
        match c.spec_find_short(s[j]) {
            None => Err(ErrModel::TokenError { text: s }),
            Some(ai) => if c.args@[ai].arity.spec_is_switch() {
                match cluster_tokens(c, s, j + 1) {
                    Ok(rest) => Ok(seq![tok(TokenKind::ShortFlag, seq![s[j]])] + rest),
                    Err(e) => Err(e),
                }
            } else if j + 1 < s.len() {
                Ok(
                    seq![
                        tok(TokenKind::ShortFlag, seq![s[j]]),
                        tok(TokenKind::Value, s.subrange(j + 1, s.len() as int)),
                    ],
                )
            } else {
                Ok(seq![tok(TokenKind::ShortFlag, seq![s[j]])])
            },
        }
    }
}

/// The tokens contributed by the single argument string `s`.
pub open spec fn head_tokens_of(s: Seq<char>, c: CommandSpec, after_sep: bool) -> Result<
    Seq<TokenModel>,
    ErrModel,
> {
    if after_sep {
        Ok(seq![tok(TokenKind::Value, s)])
    } else if is_separator_text(s) {
        Ok(seq![tok(TokenKind::Separator, s)])
    } else if is_long_text(s) {
        Ok(long_tokens(s))
    } else if is_cluster_text(s) {
        cluster_tokens(c, s, 1)
    } else {
        Ok(seq![tok(TokenKind::Value, s)])
    }
}

/// The token stream of the argument strings from `i` on. `after_sep` says
/// that a bare `--` has already been seen, so everything left is a plain
/// value. The short-flag letters of the active command `c` decide how a
/// cluster expands.
pub open spec fn tokenize_from(
    args: Seq<Seq<char>>,
    c: CommandSpec,
    i: int,
    after_sep: bool,
) -> Result<Seq<TokenModel>, ErrModel>
    decreases args.len() - i,
{
    if i < 0 || i >= args.len() {
        Ok(Seq::empty())
    } else {
        let s = args[i];
        let next_sep = after_sep || is_separator_text(s);
        match head_tokens_of(s, c, after_sep) {
            Err(e) => Err(e),
            Ok(hd) => match tokenize_from(args, c, i + 1, next_sep) {
                Err(e) => Err(e),
                Ok(rest) => Ok(hd + rest),
            },
        }
    }
}

/// Pushes the expansion of the cluster string `s` (scanned from letter `j`)
/// onto `out`, or reports the lexical error [`cluster_tokens`] gives; on an
/// error `out` is unspecified and the caller discards it.
fn expand_cluster(s: &str, j: usize, c: &CommandSpec, out: &mut Vec<Token>) -> (r: Result<
    (),
    ParseError,
>)
    requires
        1 <= j,
    ensures
        match cluster_tokens(*c, s@, j as int) {
            Ok(ts) => r is Ok && final(out).deep_view() == old(out).deep_view() + ts,
            Err(e) => r matches Err(pe) && pe@ == e,
        },
    decreases s@.len() - j,
{
    let n = s.unicode_len();
    if j >= n {
        assert(out.deep_view() =~= out.deep_view() + Seq::<TokenModel>::empty());
        return Ok(());
    }
    let ch = s.get_char(j);
    match c.find_short(ch) {
        None => Err(ParseError::TokenError { text: s.to_owned() }),
        Some(ai) => {
            let letter = String::from_str(s.substring_char(j, j + 1));
            proof {
                assert(letter@ =~= seq![s@[j as int]]);
            }
            if c.args[ai].arity.is_switch() {
                let ghost before = out.deep_view();
                out.push(Token { kind: TokenKind::ShortFlag, text: letter });
                let r = expand_cluster(s, j + 1, c, out);
                proof {
                    if let Ok(rest) = cluster_tokens(*c, s@, j as int + 1) {
                        assert(out.deep_view() =~= before + (seq![
                            tok(TokenKind::ShortFlag, seq![s@[j as int]]),
                        ] + rest));
                    }
                }
                match r {
                    Ok(()) => Ok(()),
                    Err(e) => Err(e),
                }
            } else if j + 1 < n {
                let glued = String::from_str(s.substring_char(j + 1, n));
                let ghost before = out.deep_view();
                out.push(Token { kind: TokenKind::ShortFlag, text: letter });
                out.push(Token { kind: TokenKind::Value, text: glued });
                proof {
                    assert(out.deep_view() =~= before + seq![
                        tok(TokenKind::ShortFlag, seq![s@[j as int]]),
                        tok(TokenKind::Value, s@.subrange(j as int + 1, s@.len() as int)),
                    ]);
                }
                Ok(())
            } else {
                let ghost before = out.deep_view();
                out.push(Token { kind: TokenKind::ShortFlag, text: letter });
                proof {
                    assert(out.deep_view() =~= before + seq![
                        tok(TokenKind::ShortFlag, seq![s@[j as int]]),
                    ]);
                }
                Ok(())
            }
        },
    }
}

/// Whether `s` reads `--` exactly.
fn is_separator_arg(s: &str) -> (r: bool)
    ensures
        r == is_separator_text(s@),
{
    let n = s.unicode_len();
    n == 2 && s.get_char(0) == '-' && s.get_char(1) == '-'
}

/// First position of `=` in `s`, scanning from `i`.
pub(crate) fn find_eq(s: &str, i: usize) -> (r: Option<usize>)
    ensures
        match r {
            Some(p) => find_eq_from(s@, i as int) == Some(p as int) && p < s@.len(),
            None => find_eq_from(s@, i as int) is None,
        },
    decreases s@.len() - i,
{
    let n = s.unicode_len();
    if i >= n {
        None
    } else if s.get_char(i) == '=' {
        Some(i)
    } else {
        find_eq(s, i + 1)
    }
}

/// Pushes the tokens of one long-flag string onto `out`.
fn push_long_tokens(s: &str, out: &mut Vec<Token>)
    requires
        is_long_text(s@),
    ensures
        final(out).deep_view() == old(out).deep_view() + long_tokens(s@),
{
    let ghost before = out.deep_view();
    let n = s.unicode_len();
    let body = s.substring_char(2, n);
    let m = body.unicode_len();
    match find_eq(body, 0) {
        Some(p) => {
            let name = String::from_str(body.substring_char(0, p));
            let value = String::from_str(body.substring_char(p + 1, m));
            out.push(Token { kind: TokenKind::LongFlag, text: name });
            out.push(Token { kind: TokenKind::Value, text: value });
            proof {
                assert(out.deep_view() =~= before + long_tokens(s@));
            }
        },
        None => {
            let name = String::from_str(body);
            out.push(Token { kind: TokenKind::LongFlag, text: name });
            proof {
                assert(out.deep_view() =~= before + long_tokens(s@));
            }
        },
    }
}

/// Pushes the tokens of the argument strings from `i` on onto `out`, or
/// stops at the first lexical error; on an error `out` is unspecified and
/// the caller discards it.
fn tokenize_at(
    args: &Vec<String>,
    i: usize,
    c: &CommandSpec,
    after_sep: bool,
    out: &mut Vec<Token>,
) -> (r: Result<(), ParseError>)
    ensures
        match tokenize_from(args.deep_view(), *c, i as int, after_sep) {
            Ok(ts) => r is Ok && final(out).deep_view() == old(out).deep_view() + ts,
            Err(e) => r matches Err(pe) && pe@ == e,
        },
    decreases args.len() - i,
{
    if i >= args.len() {
        assert(out.deep_view() =~= out.deep_view() + Seq::<TokenModel>::empty());
        return Ok(());
    }
    let ghost before = out.deep_view();
    let s = &args[i];
    let sep_here = if after_sep {
        false
    } else {
        is_separator_arg(s.as_str())
    };
    let next_sep = after_sep || sep_here;
    if after_sep {
        out.push(Token { kind: TokenKind::Value, text: s.clone() });
    } else if sep_here {
        out.push(Token { kind: TokenKind::Separator, text: s.clone() });
    } else {
        let n = s.as_str().unicode_len();
        let first_dash = n >= 1 && s.as_str().get_char(0) == '-';
        let second_dash = n >= 2 && s.as_str().get_char(1) == '-';
        if first_dash && second_dash && n > 2 {
            push_long_tokens(s.as_str(), out);
        } else if first_dash && n >= 2 && !second_dash {
            match expand_cluster(s.as_str(), 1, c, out) {
                Ok(()) => {},
                Err(e) => {
                    return Err(e);
                },
            }
        } else {
            out.push(Token { kind: TokenKind::Value, text: s.clone() });
        }
    }
    let ghost after_head = out.deep_view();
    let r = tokenize_at(args, i + 1, c, next_sep, out);
    proof {
        let a = args.deep_view();
        if let Ok(hd) = head_tokens_of(a[i as int], *c, after_sep) {
            assert(after_head =~= before + hd);
            if let Ok(rest) = tokenize_from(a, *c, i as int + 1, next_sep) {
                assert(out.deep_view() =~= before + (hd + rest));
            }
        }
    }
    r
}

/// Tokenizes the argument strings from `start` on against the active
/// command `c`, exactly as [`tokenize_from`] describes.
pub fn tokenize(args: &Vec<String>, start: usize, c: &CommandSpec) -> (r: Result<
    Vec<Token>,
    ParseError,
>)
    ensures
        match tokenize_from(args.deep_view(), *c, start as int, false) {
            Ok(ts) => (r matches Ok(v) && v.deep_view() == ts),
            Err(e) => (r matches Err(pe) && pe@ == e),
        },
{
    let mut out: Vec<Token> = Vec::new();
    match tokenize_at(args, start, c, false, &mut out) {
        Ok(()) => {
            proof {
                if let Ok(ts) = tokenize_from(args.deep_view(), *c, start as int, false) {
                    assert(out.deep_view() =~= ts);
                }
            }
            Ok(out)
        },
        Err(e) => Err(e),
    }
}

} // verus!
