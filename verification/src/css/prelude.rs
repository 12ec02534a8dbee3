//! Selector lists: the prelude of a style rule, such as `.panel > .title, .footer:hover`.

use vstd::prelude::*;

use crate::css::selector::{parse_selector, parse_selector_spec, Selector, SelectorToken};
use crate::interner::StringInterner;
use crate::css::tokens::{copy_text, outer_tokens, read_outer_tokens, views, CssToken, KindView, TokenKind, TokenView};

verus! {

/// Whether `s` is what the top-level token `t` is to a selector: the hash kinds are
/// one, the kinds that selectors do not use are `Other`.
pub open spec fn selector_token_of(t: TokenView, s: SelectorToken) -> bool {
    match t.kind {
        KindView::WhiteSpace => s is WhiteSpace,
        KindView::Delim(c) => s == SelectorToken::Delim(c),
        KindView::Colon => s is Colon,
        KindView::Ident(n) => s matches SelectorToken::Ident(m) && m@ == n,
        KindView::Comma => s is Comma,
        KindView::IDHash(n) => s matches SelectorToken::Hash(m) && m@ == n,
        KindView::Hash(n) => s matches SelectorToken::Hash(m) && m@ == n,
        _ => s is Other,
    }
}

/// What a token is to a selector; see [`selector_token_of`].
pub fn selector_token(t: &CssToken) -> (r: SelectorToken)
    ensures
        selector_token_of(t@, r),
{
    match &t.kind {
        TokenKind::WhiteSpace => SelectorToken::WhiteSpace,
        TokenKind::Delim(c) => SelectorToken::Delim(*c),
        TokenKind::Colon => SelectorToken::Colon,
        TokenKind::Ident(n) => SelectorToken::Ident(copy_text(n)),
        TokenKind::Comma => SelectorToken::Comma,
        TokenKind::IDHash(n) => SelectorToken::Hash(copy_text(n)),
        TokenKind::Hash(n) => SelectorToken::Hash(copy_text(n)),
        _ => SelectorToken::Other,
    }
}

/// The tokens of a rule's prelude as selector tokens: its top-level tokens, comments left
/// out (see [`outer_tokens`]), each as [`selector_token_of`] says.
pub fn read_selector_tokens(text: &str) -> (r: Vec<SelectorToken>)
    ensures
        r@.len() == outer_tokens(text@, false).len(),
        forall|i: int| 0 <= i < r@.len() ==> selector_token_of(#[trigger] outer_tokens(text@, false)[i], r@[i]),
{
    let toks = read_outer_tokens(text, false);
    let mut out: Vec<SelectorToken> = Vec::new();
    let mut i: usize = 0;
    while i < toks.len()
        invariant
            i <= toks@.len(),
            views(toks@) == outer_tokens(text@, false),
            out@.len() == i,
            forall|j: int| 0 <= j < i ==> selector_token_of(#[trigger] views(toks@)[j], out@[j]),
        decreases toks@.len() - i,
    {
        let s = selector_token(&toks[i]);
        out.push(s);
        i = i + 1;
    }
    proof {
        assert(views(toks@).len() == toks@.len());
    }
    out
}

/// The selectors of a list, split at its commas; a list without commas is one selector.
pub open spec fn split_commas(toks: Seq<SelectorToken>) -> Seq<Seq<SelectorToken>>
    decreases toks.len(),
{
    if toks.len() == 0 {
        seq![Seq::empty()]
    } else {
        let rest = split_commas(toks.drop_last());
        if toks.last() is Comma {
            rest.push(Seq::empty())
        } else {
            rest.update(rest.len() - 1, rest.last().push(toks.last()))
        }
    }
}

proof fn lemma_split_commas_len(toks: Seq<SelectorToken>)
    ensures
        split_commas(toks).len() >= 1,
    decreases toks.len(),
{
    if toks.len() > 0 {
        lemma_split_commas_len(toks.drop_last());
    }
}

/// Parses the selectors `parts` in order, interning into `names`, and stops at the first
/// invalid one; gives the selectors (or `None`) and the interner afterwards.
pub open spec fn parse_parts(parts: Seq<Seq<SelectorToken>>, names: Seq<Seq<char>>) -> (Option<Seq<Seq<Selector>>>, Seq<Seq<char>>)
    decreases parts.len(),
{
    if parts.len() == 0 {
        (Some(Seq::empty()), names)
    } else {
        let (prev, names1) = parse_parts(parts.drop_last(), names);
        match prev {
            Option::None => (Option::None, names1),
            Some(sels) => {
                let (r, names2) = parse_selector_spec(parts.last(), names1);
                match r {
                    Option::None => (Option::None, names2),
                    Some(s) => (Some(sels.push(s)), names2),
                }
            },
        }
    }
}

/// The selector list in `toks`, with the interner afterwards.
pub open spec fn parse_selector_list_spec(toks: Seq<SelectorToken>, names: Seq<Seq<char>>) -> (Option<Seq<Seq<Selector>>>, Seq<Seq<char>>) {
    parse_parts(split_commas(toks), names)
}

/// The total number of tokens in `parts`.
pub open spec fn parts_len(parts: Seq<Seq<SelectorToken>>) -> int
    decreases parts.len(),
{
    if parts.len() == 0 {
        0
    } else {
        parts_len(parts.drop_last()) + parts.last().len()
    }
}

proof fn lemma_split_commas_size(toks: Seq<SelectorToken>)
    ensures
        parts_len(split_commas(toks)) <= toks.len(),
        split_commas(toks).len() >= 1,
    decreases toks.len(),
{
    if toks.len() > 0 {
        let rest = split_commas(toks.drop_last());
        lemma_split_commas_size(toks.drop_last());
        if toks.last() is Comma {
            let u = rest.push(Seq::empty());
            assert(u.drop_last() =~= rest);
            assert(parts_len(u) == parts_len(rest) + 0);
            assert(split_commas(toks) == u);
        } else {
            let u = rest.update(rest.len() - 1, rest.last().push(toks.last()));
            assert(u.drop_last() =~= rest.drop_last());
            assert(parts_len(u) == parts_len(u.drop_last()) + u.last().len());
            assert(parts_len(rest) == parts_len(rest.drop_last()) + rest.last().len());
            assert(u.last().len() == rest.last().len() + 1);
            assert(split_commas(toks) == u);
        }
    } else {
        let s = split_commas(toks);
        assert(s.drop_last() =~= Seq::<Seq<SelectorToken>>::empty());
        assert(parts_len(s) == parts_len(s.drop_last()) + s.last().len());
    }
}

fn copy_token(t: &SelectorToken) -> (r: SelectorToken)
    ensures
        r == *t,
{
    match t {
        SelectorToken::WhiteSpace => SelectorToken::WhiteSpace,
        SelectorToken::Delim(c) => SelectorToken::Delim(*c),
        SelectorToken::Colon => SelectorToken::Colon,
        SelectorToken::Ident(s) => SelectorToken::Ident(s.clone()),
        SelectorToken::Comma => SelectorToken::Comma,
        SelectorToken::Hash(s) => SelectorToken::Hash(s.clone()),
        SelectorToken::Other => SelectorToken::Other,
    }
}

/// Splits a token list at its commas; see [`split_commas`].
fn split_at_commas(toks: &[SelectorToken]) -> (r: Vec<Vec<SelectorToken>>)
    ensures
        r@.len() == split_commas(toks@).len(),
        forall|i: int| 0 <= i < r@.len() ==> #[trigger] r@[i]@ == split_commas(toks@)[i],
{
    let mut parts: Vec<Vec<SelectorToken>> = Vec::new();
    let mut cur: Vec<SelectorToken> = Vec::new();
    let n = toks.len();
    let mut i: usize = 0;
    proof {
        assert(toks@.take(0) =~= Seq::<SelectorToken>::empty());
    }
    while i < n
        invariant
            n == toks@.len(),
            i <= n,
            parts@.len() + 1 == split_commas(toks@.take(i as int)).len(),
            forall|j: int| 0 <= j < parts@.len() ==> #[trigger] parts@[j]@ == split_commas(toks@.take(i as int))[j],
            cur@ == split_commas(toks@.take(i as int)).last(),
        decreases n - i,
    {
        let ghost pre = toks@.take(i as int);
        proof {
            assert(toks@.take(i + 1).drop_last() =~= pre);
            lemma_split_commas_len(pre);
        }
        match &toks[i] {
            SelectorToken::Comma => {
                parts.push(cur);
                cur = Vec::new();
            },
            _ => {
                cur.push(copy_token(&toks[i]));
            },
        }
        i += 1;
    }
    proof {
        assert(toks@.take(n as int) =~= toks@);
    }
    parts.push(cur);
    parts
}

proof fn lemma_parts_len_take(parts: Seq<Seq<SelectorToken>>, k: int)
    requires
        0 <= k <= parts.len(),
    ensures
        parts_len(parts.take(k)) <= parts_len(parts),
    decreases parts.len() - k,
{
    if k < parts.len() {
        lemma_parts_len_take(parts, k + 1);
        assert(parts.take(k + 1).drop_last() =~= parts.take(k));
    } else {
        assert(parts.take(k) =~= parts);
    }
}

/// The selectors of each entry of a list of selector lists, as sequences.
pub open spec fn selectors_view(v: Seq<Vec<Selector>>) -> Seq<Seq<Selector>> {
    v.map_values(|x: Vec<Selector>| x@)
}

/// Parses a selector list (the tokens of a rule's prelude, such as
/// `.panel > .title, .footer:hover`) into its selectors, interning class names. Gives
/// `None` as soon as one selector is invalid; see [`parse_selector`].
pub fn parse_selector_list(toks: &[SelectorToken], interner: &mut StringInterner) -> (r: Option<Vec<Vec<Selector>>>)
    requires
        old(interner).wf(),
        old(interner)@.len() + toks@.len() < u32::MAX,
    ensures
        final(interner).wf(),
        (match r {
            Some(v) => Some(selectors_view(v@)),
            Option::None => Option::None,
        }, final(interner)@) == parse_selector_list_spec(toks@, old(interner)@),
{
    let parts = split_at_commas(toks);
    let ghost pv = split_commas(toks@);
    proof {
        lemma_split_commas_size(toks@);
        assert(parts@.map_values(|v: Vec<SelectorToken>| v@) =~= pv);
    }
    let mut out: Vec<Vec<Selector>> = Vec::new();
    let mut k: usize = 0;
    proof {
        assert(pv.take(0) =~= Seq::<Seq<SelectorToken>>::empty());
        assert(selectors_view(out@) =~= Seq::<Seq<Selector>>::empty());
    }
    while k < parts.len()
        invariant
            pv == split_commas(toks@),
            parts@.len() == pv.len(),
            forall|i: int| 0 <= i < parts@.len() ==> #[trigger] parts@[i]@ == pv[i],
            parts_len(pv) <= toks@.len(),
            old(interner)@.len() + toks@.len() < u32::MAX,
            k <= parts@.len(),
            interner.wf(),
            interner@.len() <= old(interner)@.len() + parts_len(pv.take(k as int)),
            parse_parts(pv.take(k as int), old(interner)@) == (Some(selectors_view(out@)), interner@),
        decreases parts@.len() - k,
    {
        let ghost names1 = interner@;
        proof {
            lemma_parts_len_take(pv, k + 1);
            assert(pv.take(k + 1).drop_last() =~= pv.take(k as int));
            assert(pv.take(k + 1).last() == pv[k as int]);
        }
        match parse_selector(parts[k].as_slice(), interner) {
            Option::None => {
                proof {
                    assert(parse_selector_spec(pv[k as int], names1) == (Option::<Seq<Selector>>::None, interner@));
                    assert(parse_parts(pv.take(k + 1), old(interner)@) == (Option::<Seq<Seq<Selector>>>::None, interner@));
                    lemma_parse_parts_stops(pv, k as int + 1, old(interner)@);
                }
                return Option::None;
            },
            Some(sel) => {
                let ghost before_out = out@;
                out.push(sel);
                proof {
                    assert(selectors_view(out@) =~= selectors_view(before_out).push(sel@));
                }
                k += 1;
            },
        }
    }
    proof {
        assert(pv.take(k as int) =~= pv);
    }
    Some(out)
}

proof fn lemma_parse_parts_stops(parts: Seq<Seq<SelectorToken>>, k: int, names: Seq<Seq<char>>)
    requires
        0 <= k <= parts.len(),
        parse_parts(parts.take(k), names).0 is None,
    ensures
        parse_parts(parts, names) == parse_parts(parts.take(k), names),
    decreases parts.len() - k,
{
    if k < parts.len() {
        assert(parts.take(k + 1).drop_last() =~= parts.take(k));
        lemma_parse_parts_stops(parts, k + 1, names);
    } else {
        assert(parts.take(k) =~= parts);
    }
}

} // verus!
