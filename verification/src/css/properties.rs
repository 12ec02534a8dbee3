//! Expansion of `var()` references in property values.
//!
//! A value is read as [`tokenize_value`] delivers it, flattened: the tokens of a nested
//! block (a function's arguments, or the inside of brackets) follow the token that opens
//! it and are ended by a `BlockEnd` token. Each `var(--name)` or `var(--name, fallback)`
//! is replaced by the variable's value, or by the fallback when the variable is not set.
//! The expanded value is read again, up to [`VAR_RESOLVE_LIMIT`] times, until no `var()`
//! is left.

use vstd::prelude::*;

use crate::css::selector::{eq_ignore_ascii_case, matches_name};
use crate::css::tokens::{
    opens_block, opens_block_kind, tokenize_value, value_tokens, views, CssToken, KindView, TokenKind, TokenView,
    NESTED_BLOCK_LIMIT,
};
use crate::css::variables::{lookup, VariableContext};
use vstd::string::StringExecFns;

verus! {

/// Why a value with `var()` references could not be expanded.
#[derive(Debug, Clone, Copy, PartialEq, Eq, Structural)]
pub enum VarResolveErrorKind {
    /// A `var(--x)` was encountered and `--x` was missing with no fallback.
    UnresolvedNoFallback,
    /// Too many iterative expansion passes.
    DepthExceeded,
    /// Parsing failed during variable expansion.
    ParseFailed,
}

/// Nested blocks may be opened at depths below this.

/// The position after the token at `j`, or the end.
pub open spec fn after(toks: Seq<TokenView>, j: int) -> int {
    if j < toks.len() {
        j + 1
    } else {
        toks.len() as int
    }
}

/// Whether a token cannot stand in a value: a closing bracket that ends no block, a
/// block that was not opened, or an opening bracket read as a delimiter.
pub open spec fn is_stray(k: KindView) -> bool {
    ||| k is CloseParenthesis
    ||| k is CloseSquareBracket
    ||| k is CloseCurlyBracket
    ||| k is Unopened
    ||| (k matches KindView::Delim(c) && (c == '(' || c == '[' || c == '{'))
}

/// Whether a token is whitespace or a comment.
pub open spec fn is_space(k: KindView) -> bool {
    k is WhiteSpace || k is Comment
}

/// The first position at or after `i` that is not whitespace.
pub open spec fn skip_ws(toks: Seq<TokenView>, i: int) -> int
    decreases toks.len() - i,
{
    if 0 <= i < toks.len() && is_space(toks[i].kind) {
        skip_ws(toks, i + 1)
    } else {
        i
    }
}

/// Going back from `j`, but not below `lo`, the position after the last token that is
/// neither whitespace nor a comment.
pub open spec fn space_end(toks: Seq<TokenView>, lo: int, j: int) -> int
    decreases j - lo,
{
    if lo < j && j <= toks.len() && is_space(toks[j - 1].kind) {
        space_end(toks, lo, j - 1)
    } else {
        j
    }
}

/// The source text of `toks[a..b]`.
pub open spec fn text_range(toks: Seq<TokenView>, a: int, b: int) -> Seq<char>
    decreases b - a,
{
    if b <= a || b > toks.len() || a < 0 {
        Seq::empty()
    } else {
        text_range(toks, a, b - 1) + toks[b - 1].text
    }
}

/// Checks the rest of a block from `i` (at nesting depth `depth`) without expanding
/// anything: nested blocks must be within the depth limit and no closing bracket may be
/// stray. Gives the position of the block's end.
pub open spec fn consume_level(toks: Seq<TokenView>, i: int, depth: int) -> Result<int, VarResolveErrorKind>
    decreases toks.len() - i,
{
    if i < 0 || i >= toks.len() {
        Ok(toks.len() as int)
    } else if toks[i].kind is BlockEnd {
        Ok(i)
    } else if is_stray(toks[i].kind) {
        Err(VarResolveErrorKind::ParseFailed)
    } else if opens_block(toks[i].kind) {
        if depth >= NESTED_BLOCK_LIMIT {
            Err(VarResolveErrorKind::ParseFailed)
        } else {
            match consume_level(toks, i + 1, depth + 1) {
                Err(e) => Err(e),
                Ok(j) => if j < i + 1 {
                    Err(VarResolveErrorKind::ParseFailed)
                } else {
                    consume_level(toks, after(toks, j), depth)
                },
            }
        }
    } else {
        consume_level(toks, i + 1, depth)
    }
}

/// The inside of a `var()` starting at `i` (at depth `depth`): skips whitespace, reads the
/// variable's name, then an optional comma and fallback. Gives the position of the
/// block's end and the replacement: the variable's value if it is set, else the
/// fallback's text (from its first non-whitespace token to the end of the block).
pub open spec fn var_call(toks: Seq<TokenView>, i: int, depth: int, vars: Seq<(usize, Seq<(Seq<char>, Seq<char>)>)>) -> Result<
    (int, Seq<char>),
    VarResolveErrorKind,
> {
    let a = skip_ws(toks, i);
    if a < 0 || a >= toks.len() || !(toks[a].kind is Ident) {
        Err(VarResolveErrorKind::ParseFailed)
    } else {
        let name = toks[a].kind->Ident_0;
        let b = skip_ws(toks, a + 1);
        let comma = 0 <= b < toks.len() && toks[b].kind is Comma;
        match lookup(vars, name) {
            Some(v) => if comma {
                match consume_level(toks, b + 1, depth) {
                    Ok(j) => Ok((j, v)),
                    Err(e) => Err(e),
                }
            } else if 0 <= b < toks.len() && !(toks[b].kind is BlockEnd) {
                Err(VarResolveErrorKind::ParseFailed)
            } else {
                Ok((b, v))
            },
            Option::None => if comma {
                let c = skip_ws(toks, b + 1);
                match consume_level(toks, c, depth) {
                    Ok(j) => Ok((j, text_range(toks, c, space_end(toks, c, j)))),
                    Err(e) => Err(e),
                }
            } else {
                Err(VarResolveErrorKind::UnresolvedNoFallback)
            },
        }
    }
}

/// Whether a function name is `var`, ignoring ASCII case.
pub open spec fn is_var_name(name: Seq<char>) -> bool {
    eq_ignore_ascii_case(name, "var"@)
}

/// Adds `out` and `found` in front of a level's result.
pub open spec fn prepend(r: Result<(int, Seq<char>, bool), VarResolveErrorKind>, out: Seq<char>, found: bool) -> Result<
    (int, Seq<char>, bool),
    VarResolveErrorKind,
> {
    match r {
        Err(e) => Err(e),
        Ok((k, rest, f)) => Ok((k, out + rest, found || f)),
    }
}

/// Expands the rest of a block from `i` (at nesting depth `depth`): gives the position of
/// the block's end, the expanded text, and whether some `var()` was expanded.
pub open spec fn walk_level(toks: Seq<TokenView>, i: int, depth: int, vars: Seq<(usize, Seq<(Seq<char>, Seq<char>)>)>) -> Result<
    (int, Seq<char>, bool),
    VarResolveErrorKind,
>
    decreases toks.len() - i,
{
    if i < 0 || i >= toks.len() {
        Ok((toks.len() as int, Seq::empty(), false))
    } else if toks[i].kind is BlockEnd {
        Ok((i, Seq::empty(), false))
    } else if is_stray(toks[i].kind) {
        Err(VarResolveErrorKind::ParseFailed)
    } else if opens_block(toks[i].kind) {
        if depth >= NESTED_BLOCK_LIMIT {
            Err(VarResolveErrorKind::ParseFailed)
        } else if toks[i].kind matches KindView::Function(name) && is_var_name(name) {
            match var_call(toks, i + 1, depth + 1, vars) {
                Err(e) => Err(e),
                Ok((j, rep)) => if j < i + 1 {
                    Err(VarResolveErrorKind::ParseFailed)
                } else {
                    prepend(walk_level(toks, after(toks, j), depth, vars), rep, true)
                },
            }
        } else {
            match walk_level(toks, i + 1, depth + 1, vars) {
                Err(e) => Err(e),
                Ok((j, inner, f)) => if j < i + 1 {
                    Err(VarResolveErrorKind::ParseFailed)
                } else {
                    prepend(
                        walk_level(toks, after(toks, j), depth, vars),
                        toks[i].text + inner + text_range(toks, j, after(toks, j)),
                        f,
                    )
                },
            }
        }
    } else {
        prepend(walk_level(toks, i + 1, depth, vars), toks[i].text, false)
    }
}

/// One expansion pass over a whole value: `None` when it holds no `var()`, else the
/// expanded text. A block end at the top level is refused.
pub open spec fn resolve_pass(toks: Seq<TokenView>, vars: Seq<(usize, Seq<(Seq<char>, Seq<char>)>)>) -> Result<
    Option<Seq<char>>,
    VarResolveErrorKind,
> {
    match walk_level(toks, 0, 0, vars) {
        Err(e) => Err(e),
        Ok((k, out, found)) => if k < toks.len() {
            Err(VarResolveErrorKind::ParseFailed)
        } else if found {
            Ok(Some(out))
        } else {
            Ok(Option::None)
        },
    }
}

proof fn lemma_prepend_twice(r: Result<(int, Seq<char>, bool), VarResolveErrorKind>, a: Seq<char>, fa: bool, b: Seq<char>, fb: bool)
    ensures
        prepend(prepend(r, a, fa), b, fb) == prepend(r, b + a, fb || fa),
{
    match r {
        Err(e) => {},
        Ok((k, rest, f)) => {
            assert(b + (a + rest) =~= (b + a) + rest);
        },
    }
}

fn skip_whitespace(toks: &[CssToken], i: usize) -> (r: usize)
    requires
        i <= views(toks@).len(),
    ensures
        r == skip_ws(views(toks@), i as int),
        i <= r <= views(toks@).len(),
{
    let mut j = i;
    while j < toks.len() && is_whitespace(&toks[j])
        invariant
            i <= j <= views(toks@).len(),
            skip_ws(views(toks@), i as int) == skip_ws(views(toks@), j as int),
        decreases views(toks@).len() - j,
    {
        j += 1;
    }
    j
}

/// Going back from `j` over whitespace and comments, but not below `lo`.
fn trailing_space_start(toks: &[CssToken], lo: usize, j: usize) -> (r: usize)
    requires
        lo <= j <= toks@.len(),
    ensures
        r == space_end(views(toks@), lo as int, j as int),
        lo <= r <= j,
{
    let mut e = j;
    while lo < e && is_whitespace(&toks[e - 1])
        invariant
            lo <= e <= j <= toks@.len(),
            space_end(views(toks@), lo as int, j as int) == space_end(views(toks@), lo as int, e as int),
        decreases e - lo,
    {
        e -= 1;
    }
    e
}

fn is_whitespace(t: &CssToken) -> (r: bool)
    ensures
        r == is_space(t.kind@),
{
    match t.kind {
        TokenKind::WhiteSpace => true,
        TokenKind::Comment => true,
        _ => false,
    }
}

fn is_stray_kind(k: &TokenKind) -> (r: bool)
    ensures
        r == is_stray(k@),
{
    match k {
        TokenKind::CloseParenthesis => true,
        TokenKind::CloseSquareBracket => true,
        TokenKind::CloseCurlyBracket => true,
        TokenKind::Unopened => true,
        TokenKind::Delim(c) => *c == '(' || *c == '[' || *c == '{',
        _ => false,
    }
}

fn is_comma(t: &CssToken) -> (r: bool)
    ensures
        r == (t.kind@ is Comma),
{
    match t.kind {
        TokenKind::Comma => true,
        _ => false,
    }
}

fn is_block_end(t: &CssToken) -> (r: bool)
    ensures
        r == (t.kind@ is BlockEnd),
{
    match t.kind {
        TokenKind::BlockEnd => true,
        _ => false,
    }
}

fn is_var_function(k: &TokenKind) -> (r: bool)
    ensures
        r == (k@ matches KindView::Function(name) && is_var_name(name)),
{
    match k {
        TokenKind::Function(name) => matches_name(name.as_str(), "var"),
        _ => false,
    }
}

/// Checks the rest of a block from `i` without expanding it; see [`consume_level`].
fn consume(toks: &[CssToken], i: usize, depth: usize) -> (r: Result<usize, VarResolveErrorKind>)
    requires
        i <= views(toks@).len(),
        depth <= NESTED_BLOCK_LIMIT,
    ensures
        match r {
            Ok(j) => consume_level(views(toks@), i as int, depth as int) == Ok::<int, VarResolveErrorKind>(j as int) && i <= j <= views(toks@).len(),
            Err(e) => consume_level(views(toks@), i as int, depth as int) == Err::<int, VarResolveErrorKind>(e),
        },
    decreases views(toks@).len() - i,
{
    let n = toks.len();
    let mut cur = i;
    loop
        invariant
            n == views(toks@).len(),
            i <= cur <= n,
            depth <= NESTED_BLOCK_LIMIT,
            consume_level(views(toks@), i as int, depth as int) == consume_level(views(toks@), cur as int, depth as int),
        decreases n - cur,
    {
        if cur >= n {
            return Ok(n);
        }
        let kind = &toks[cur].kind;
        if is_block_end(&toks[cur]) {
            return Ok(cur);
        } else if is_stray_kind(kind) {
            return Err(VarResolveErrorKind::ParseFailed);
        } else if opens_block_kind(kind) {
            if depth >= NESTED_BLOCK_LIMIT {
                return Err(VarResolveErrorKind::ParseFailed);
            }
            match consume(toks, cur + 1, depth + 1) {
                Err(e) => {
                    return Err(e);
                },
                Ok(j) => {
                    cur = if j < n {
                        j + 1
                    } else {
                        n
                    };
                },
            }
        } else {
            cur += 1;
        }
    }
}

/// The source text of `toks[a..b]`.
fn text_of(toks: &[CssToken], a: usize, b: usize) -> (r: String)
    requires
        a <= b <= views(toks@).len(),
    ensures
        r@ == text_range(views(toks@), a as int, b as int),
{
    let mut out = String::new();
    let mut k = a;
    while k < b
        invariant
            a <= k <= b <= views(toks@).len(),
            out@ == text_range(views(toks@), a as int, k as int),
        decreases b - k,
    {
        out.append(toks[k].text.as_str());
        k += 1;
    }
    out
}

/// Expands the inside of a `var()`; see [`var_call`].
fn var_call_exec(toks: &[CssToken], i: usize, depth: usize, vars: &VariableContext) -> (r: Result<(usize, String), VarResolveErrorKind>)
    requires
        i <= views(toks@).len(),
        depth <= NESTED_BLOCK_LIMIT,
        vars.wf(),
    ensures
        match r {
            Ok((j, rep)) => var_call(views(toks@), i as int, depth as int, vars@) == Ok::<(int, Seq<char>), VarResolveErrorKind>((j as int, rep@))
                && i <= j <= views(toks@).len(),
            Err(e) => var_call(views(toks@), i as int, depth as int, vars@) == Err::<(int, Seq<char>), VarResolveErrorKind>(e),
        },
{
    let n = toks.len();
    let a = skip_whitespace(toks, i);
    if a >= n {
        return Err(VarResolveErrorKind::ParseFailed);
    }
    let name = match &toks[a].kind {
        TokenKind::Ident(name) => name,
        _ => {
            return Err(VarResolveErrorKind::ParseFailed);
        },
    };
    let value = vars.get(name.as_str());
    let b = skip_whitespace(toks, a + 1);
    let comma = b < n && is_comma(&toks[b]);
    match value {
        Some(v) => {
            let mut rep = String::new();
            rep.append(v);
            proof {
                assert(rep@ =~= v@);
            }
            if comma {
                match consume(toks, b + 1, depth) {
                    Ok(j) => Ok((j, rep)),
                    Err(e) => Err(e),
                }
            } else if b < n && !is_block_end(&toks[b]) {
                Err(VarResolveErrorKind::ParseFailed)
            } else {
                Ok((b, rep))
            }
        },
        Option::None => {
            if comma {
                let c = skip_whitespace(toks, b + 1);
                match consume(toks, c, depth) {
                    Ok(j) => Ok((j, text_of(toks, c, trailing_space_start(toks, c, j)))),
                    Err(e) => Err(e),
                }
            } else {
                Err(VarResolveErrorKind::UnresolvedNoFallback)
            }
        },
    }
}

/// Expands the rest of a block from `i`; see [`walk_level`].
fn walk(toks: &[CssToken], i: usize, depth: usize, vars: &VariableContext) -> (r: Result<(usize, String, bool), VarResolveErrorKind>)
    requires
        i <= views(toks@).len(),
        depth <= NESTED_BLOCK_LIMIT,
        vars.wf(),
    ensures
        match r {
            Ok((k, out, found)) => walk_level(views(toks@), i as int, depth as int, vars@) == Ok::<(int, Seq<char>, bool), VarResolveErrorKind>(
                (k as int, out@, found),
            ) && i <= k <= views(toks@).len(),
            Err(e) => walk_level(views(toks@), i as int, depth as int, vars@) == Err::<(int, Seq<char>, bool), VarResolveErrorKind>(e),
        },
    decreases views(toks@).len() - i,
{
    let n = toks.len();
    let mut cur = i;
    let mut out = String::new();
    let mut found = false;
    proof {
        assert(Seq::<char>::empty() + Seq::<char>::empty() =~= Seq::<char>::empty());
        match walk_level(views(toks@), i as int, depth as int, vars@) {
            Err(e) => {},
            Ok((k, rest, f)) => {
                assert(out@ + rest =~= rest);
            },
        }
    }
    loop
        invariant
            n == views(toks@).len(),
            i <= cur <= n,
            depth <= NESTED_BLOCK_LIMIT,
            vars.wf(),
            walk_level(views(toks@), i as int, depth as int, vars@) == prepend(walk_level(views(toks@), cur as int, depth as int, vars@), out@, found),
        decreases n - cur,
    {
        if cur >= n {
            proof {
                assert(out@ + Seq::<char>::empty() =~= out@);
            }
            return Ok((n, out, found));
        }
        let ghost before = out@;
        let ghost found_before = found;
        let kind = &toks[cur].kind;
        if is_block_end(&toks[cur]) {
            proof {
                assert(out@ + Seq::<char>::empty() =~= out@);
            }
            return Ok((cur, out, found));
        } else if is_stray_kind(kind) {
            return Err(VarResolveErrorKind::ParseFailed);
        } else if opens_block_kind(kind) {
            if depth >= NESTED_BLOCK_LIMIT {
                return Err(VarResolveErrorKind::ParseFailed);
            }
            if is_var_function(kind) {
                match var_call_exec(toks, cur + 1, depth + 1, vars) {
                    Err(e) => {
                        return Err(e);
                    },
                    Ok((j, rep)) => {
                        let next = if j < n {
                            j + 1
                        } else {
                            n
                        };
                        out.append(rep.as_str());
                        proof {
                            lemma_prepend_twice(walk_level(views(toks@), next as int, depth as int, vars@), rep@, true, before, found_before);
                        }
                        found = true;
                        cur = next;
                    },
                }
            } else {
                match walk(toks, cur + 1, depth + 1, vars) {
                    Err(e) => {
                        return Err(e);
                    },
                    Ok((j, inner, f)) => {
                        let next = if j < n {
                            j + 1
                        } else {
                            n
                        };
                        let close = text_of(toks, j, next);
                        out.append(toks[cur].text.as_str());
                        out.append(inner.as_str());
                        out.append(close.as_str());
                        proof {
                            let piece = views(toks@)[cur as int].text + inner@ + close@;
                            assert(out@ =~= before + piece);
                            lemma_prepend_twice(walk_level(views(toks@), next as int, depth as int, vars@), piece, f, before, found_before);
                        }
                        found = found || f;
                        cur = next;
                    },
                }
            }
        } else {
            out.append(toks[cur].text.as_str());
            proof {
                lemma_prepend_twice(walk_level(views(toks@), cur + 1, depth as int, vars@), views(toks@)[cur as int].text, false, before, found_before);
            }
            cur += 1;
        }
    }
}

/// One expansion pass over a value: `None` when it holds no `var()`, else the value with
/// every `var()` replaced.
pub fn resolve_vars_pass(toks: &[CssToken], vars: &VariableContext) -> (r: Result<Option<String>, VarResolveErrorKind>)
    requires
        vars.wf(),
    ensures
        match r {
            Ok(Some(s)) => resolve_pass(views(toks@), vars@) == Ok::<Option<Seq<char>>, VarResolveErrorKind>(Some(s@)),
            Ok(Option::None) => resolve_pass(views(toks@), vars@) == Ok::<Option<Seq<char>>, VarResolveErrorKind>(Option::None),
            Err(e) => resolve_pass(views(toks@), vars@) == Err::<Option<Seq<char>>, VarResolveErrorKind>(e),
        },
{
    match walk(toks, 0, 0, vars) {
        Err(e) => Err(e),
        Ok((k, out, found)) => {
            if k < toks.len() {
                Err(VarResolveErrorKind::ParseFailed)
            } else if found {
                Ok(Some(out))
            } else {
                Ok(Option::None)
            }
        },
    }
}


/// Expansion passes made at most before a value is given up as cyclic.
pub const VAR_RESOLVE_LIMIT: usize = 8;

/// What follows an expansion pass.
#[derive(Debug)]
pub enum VarPassStep {
    /// Run another pass over this text.
    Again(String),
    /// Expansion is over, with this outcome: `None` when the value held no `var()`, else
    /// the fully expanded text.
    Done(Result<Option<String>, VarResolveErrorKind>),
}

/// Decides what follows pass number `pass` (counting from 0) of expanding a value.
/// `current` is the text that pass read when it was not the value itself (every pass but
/// the first), and `outcome` what the pass gave. A pass that expands nothing ends the
/// expansion with the text it read; a pass that expands something asks for another
/// pass, unless [`VAR_RESOLVE_LIMIT`] passes have been made; an error ends it.
pub fn after_var_pass(pass: usize, current: Option<String>, outcome: Result<Option<String>, VarResolveErrorKind>) -> (r: VarPassStep)
    ensures
        match outcome {
            Err(e) => r == VarPassStep::Done(Err(e)),
            Ok(Option::None) => match current {
                Option::None => r == VarPassStep::Done(Ok(Option::None)),
                Some(c) => r matches VarPassStep::Done(Ok(Some(t))) && t@ == c@,
            },
            Ok(Some(s)) => if pass + 1 < VAR_RESOLVE_LIMIT {
                r matches VarPassStep::Again(t) && t@ == s@
            } else {
                r == VarPassStep::Done(Err(VarResolveErrorKind::DepthExceeded))
            },
        },
{
    match outcome {
        Err(e) => VarPassStep::Done(Err(e)),
        Ok(Option::None) => VarPassStep::Done(Ok(current)),
        Ok(Some(s)) => {
            if pass < VAR_RESOLVE_LIMIT - 1 {
                VarPassStep::Again(s)
            } else {
                VarPassStep::Done(Err(VarResolveErrorKind::DepthExceeded))
            }
        },
    }
}

/// The outcome of expansion from pass number `pass` on, where `current` is the text that
/// pass reads when it is not the value `input` itself: each pass expands
/// [`value_tokens`] of its text with [`resolve_pass`], and what follows is as
/// [`after_var_pass`] decides.
pub open spec fn resolve_from(
    input: Seq<char>,
    current: Option<Seq<char>>,
    vars: Seq<(usize, Seq<(Seq<char>, Seq<char>)>)>,
    pass: nat,
) -> Result<Option<Seq<char>>, VarResolveErrorKind>
    decreases VAR_RESOLVE_LIMIT - pass,
{
    if pass >= VAR_RESOLVE_LIMIT {
        Err(VarResolveErrorKind::DepthExceeded)
    } else {
        let text = match current {
            Some(c) => c,
            Option::None => input,
        };
        match resolve_pass(value_tokens(text), vars) {
            Err(e) => Err(e),
            Ok(Option::None) => Ok(current),
            Ok(Some(s)) => if pass + 1 < VAR_RESOLVE_LIMIT {
                resolve_from(input, Some(s), vars, pass + 1)
            } else {
                Err(VarResolveErrorKind::DepthExceeded)
            },
        }
    }
}

/// The plain value of an optional text.
pub open spec fn opt_text(o: Option<String>) -> Option<Seq<char>> {
    match o {
        Some(s) => Some(s@),
        Option::None => Option::None,
    }
}

/// A value whose `var()` references could not be expanded: why, the value as it was
/// written, and where it was written.
#[derive(Debug, Clone, PartialEq, Eq)]
pub struct VarResolveError {
    pub kind: VarResolveErrorKind,
    pub value: String,
    pub line: u32,
    pub column: u32,
}

/// Expands the `var()` references of a property value `input`, written at `line` and
/// `column`, in passes, until a pass finds none (see [`after_var_pass`]): `None` when the
/// value holds none at all, else the expanded text; exactly [`resolve_from`] from the
/// first pass. An error carries the value as written and its place.
pub fn resolve_vars_iteratively(input: &str, line: u32, column: u32, vars: &VariableContext) -> (r: Result<Option<String>, VarResolveError>)
    requires
        vars.wf(),
    ensures
        match r {
            Ok(o) => resolve_from(input@, Option::None, vars@, 0) == Ok::<Option<Seq<char>>, VarResolveErrorKind>(opt_text(o)),
            Err(e) => resolve_from(input@, Option::None, vars@, 0) == Err::<Option<Seq<char>>, VarResolveErrorKind>(e.kind)
                && e.value@ == input@ && e.line == line && e.column == column,
        },
{
    let mut current: Option<String> = Option::None;
    let mut pass: usize = 0;
    loop
        invariant
            pass < VAR_RESOLVE_LIMIT,
            vars.wf(),
            resolve_from(input@, Option::None, vars@, 0) == resolve_from(input@, opt_text(current), vars@, pass as nat),
        decreases VAR_RESOLVE_LIMIT - pass,
    {
        let ghost cur = opt_text(current);
        let toks = match &current {
            Option::None => tokenize_value(input),
            Some(c) => tokenize_value(c.as_str()),
        };
        let outcome = resolve_vars_pass(toks.as_slice(), vars);
        match after_var_pass(pass, current, outcome) {
            VarPassStep::Done(r) => {
                return match r {
                    Ok(o) => Ok(o),
                    Err(kind) => {
                        let mut value = String::new();
                        value.append(input);
                        proof {
                            assert(value@ =~= input@);
                        }
                        Err(VarResolveError { kind, value, line, column })
                    },
                };
            },
            VarPassStep::Again(next) => {
                current = Some(next);
                pass = pass + 1;
            },
        }
    }
}

/// Expansion stops at a fixed point: when it gives an expanded text, a further pass over
/// that text finds no `var()` left.
pub proof fn law_expansion_ends_at_fixed_point(
    input: Seq<char>,
    current: Option<Seq<char>>,
    vars: Seq<(usize, Seq<(Seq<char>, Seq<char>)>)>,
    pass: nat,
)
    ensures
        resolve_from(input, current, vars, pass) matches Ok(Some(s)) ==> resolve_pass(value_tokens(s), vars) == Ok::<
            Option<Seq<char>>,
            VarResolveErrorKind,
        >(Option::None),
    decreases VAR_RESOLVE_LIMIT - pass,
{
    if pass < VAR_RESOLVE_LIMIT {
        let text = match current {
            Some(c) => c,
            Option::None => input,
        };
        match resolve_pass(value_tokens(text), vars) {
            Ok(Some(s)) => {
                if pass + 1 < VAR_RESOLVE_LIMIT {
                    law_expansion_ends_at_fixed_point(input, Some(s), vars, pass + 1);
                }
            },
            _ => {},
        }
    }
}

proof fn lemma_text_range_split(toks: Seq<TokenView>, a: int, b: int, c: int)
    requires
        0 <= a <= b <= c <= toks.len(),
    ensures
        text_range(toks, a, b) + text_range(toks, b, c) == text_range(toks, a, c),
    decreases c - b,
{
    if b == c {
        assert(text_range(toks, a, b) + Seq::<char>::empty() =~= text_range(toks, a, b));
    } else {
        lemma_text_range_split(toks, a, b, c - 1);
        assert(text_range(toks, a, b) + (text_range(toks, b, c - 1) + toks[c - 1].text) =~= (text_range(toks,
            a,
            b,
        ) + text_range(toks, b, c - 1)) + toks[c - 1].text);
    }
}

proof fn lemma_walk_without_var(toks: Seq<TokenView>, i: int, depth: int, vars: Seq<(usize, Seq<(Seq<char>, Seq<char>)>)>)
    requires
        0 <= i <= toks.len(),
    ensures
        match walk_level(toks, i, depth, vars) {
            Ok((k, out, found)) => i <= k <= toks.len() && (!found ==> out == text_range(toks, i, k)),
            Err(_) => true,
        },
    decreases toks.len() - i,
{
    if i >= toks.len() {
    } else if toks[i].kind is BlockEnd {
    } else if is_stray(toks[i].kind) {
    } else if opens_block(toks[i].kind) {
        if depth >= NESTED_BLOCK_LIMIT {
        } else if toks[i].kind matches KindView::Function(name) && is_var_name(name) {
            match var_call(toks, i + 1, depth + 1, vars) {
                Err(e) => {},
                Ok((j, rep)) => if j >= i + 1 {
                    if j <= toks.len() {
                        lemma_walk_without_var(toks, after(toks, j), depth, vars);
                    }
                },
            }
        } else {
            lemma_walk_without_var(toks, i + 1, depth + 1, vars);
            match walk_level(toks, i + 1, depth + 1, vars) {
                Err(e) => {},
                Ok((j, inner, f)) => if j >= i + 1 {
                    let n = after(toks, j);
                    lemma_walk_without_var(toks, n, depth, vars);
                    match walk_level(toks, n, depth, vars) {
                        Err(e) => {},
                        Ok((k, rest, g)) => {
                            if !f && !g {
                                lemma_text_range_split(toks, i, i + 1, j);
                                lemma_text_range_split(toks, i, j, n);
                                lemma_text_range_split(toks, i, n, k);
                                assert(text_range(toks, i, i + 1) =~= toks[i].text) by {
                                    assert(text_range(toks, i, i) =~= Seq::<char>::empty());
                                }
                                assert(toks[i].text + inner + text_range(toks, j, n) + rest =~= text_range(toks, i, k));
                            }
                        },
                    }
                },
            }
        }
    } else {
        lemma_walk_without_var(toks, i + 1, depth, vars);
        match walk_level(toks, i + 1, depth, vars) {
            Err(e) => {},
            Ok((k, rest, g)) => {
                lemma_text_range_split(toks, i, i + 1, k);
                assert(text_range(toks, i, i + 1) =~= toks[i].text) by {
                    assert(text_range(toks, i, i) =~= Seq::<char>::empty());
                }
            },
        }
    }
}

/// An expansion pass that meets no `var()` gives back the value's text unchanged, which
/// is why such a pass reports `None` and the value is used as it is.
pub proof fn law_pass_without_var_keeps_text(toks: Seq<TokenView>, vars: Seq<(usize, Seq<(Seq<char>, Seq<char>)>)>)
    ensures
        walk_level(toks, 0, 0, vars) matches Ok((k, out, found)) ==> (!found ==> out == text_range(toks, 0, k)),
{
    lemma_walk_without_var(toks, 0, 0, vars);
}

} // verus!
