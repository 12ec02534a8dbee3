//! CSS selectors: the selector grammar, specificity, and rule records.

use vstd::prelude::*;

use crate::interner::{no_duplicates, spec_intern, StrId, StringInterner};

verus! {

/// One component of a compound CSS selector.
#[derive(Debug, Clone, Copy, PartialEq, Eq, Structural)]
pub enum Selector {
    /// Represents a `.class` selector (interned).
    Class(StrId),
    /// Represents a `*` selector.
    Wildcard,
    /// Represents a "space" (U+0020) combinator.
    Descendant,
    /// Represents a `>` combinator.
    Child,
    /// Represents a `:hover` pseudo-class.
    Hover,
    /// Represents a `:focus` pseudo-class.
    Focus,
    /// Represents a `:active` pseudo-class.
    Active,
    /// Represents a `:disabled` pseudo-class.
    Disabled,
    /// Represents a `:enabled` pseudo-class.
    Enabled,
}

/// A token of a selector list, as the CSS tokenizer delivers it (comments removed).
#[derive(Debug, Clone, PartialEq, Eq)]
pub enum SelectorToken {
    /// A run of whitespace.
    WhiteSpace,
    /// A single delimiter character such as `>`, `*` or `.`.
    Delim(char),
    /// A `:`.
    Colon,
    /// An identifier.
    Ident(String),
    /// A `,`, which separates the selectors of a list.
    Comma,
    /// A `#` followed by a name.
    Hash(String),
    /// Any other token.
    Other,
}

impl SelectorToken {
    /// Returns `true` for a whitespace token.
    pub fn is_whitespace(&self) -> (r: bool)
        ensures
            r == (*self == SelectorToken::WhiteSpace),
    {
        match self {
            SelectorToken::WhiteSpace => true,
            _ => false,
        }
    }
}

/// The lower-case code of an ASCII letter; other characters keep their code.
pub open spec fn ascii_lower(c: char) -> u32 {
    if 'A' <= c && c <= 'Z' {
        (c as u32 + 32) as u32
    } else {
        c as u32
    }
}

/// `a` and `b` are equal when ASCII letters are compared without case.
pub open spec fn eq_ignore_ascii_case(a: Seq<char>, b: Seq<char>) -> bool {
    a.len() == b.len() && forall|i: int| 0 <= i < a.len() ==> ascii_lower(a[i]) == ascii_lower(b[i])
}

fn ascii_lower_exec(c: char) -> (r: u32)
    ensures
        r == ascii_lower(c),
{
    if 'A' <= c && c <= 'Z' {
        (c as u32) + 32
    } else {
        c as u32
    }
}

/// Compares a string with a lower-case ASCII name, ignoring ASCII case.
pub(crate) fn matches_name(s: &str, name: &str) -> (r: bool)
    ensures
        r == eq_ignore_ascii_case(s@, name@),
{
    let n = s.unicode_len();
    let m = name.unicode_len();
    if n != m {
        return false;
    }
    let mut i: usize = 0;
    while i < n
        invariant
            n == s@.len(),
            m == name@.len(),
            n == m,
            0 <= i <= n,
            forall|j: int| 0 <= j < i ==> ascii_lower(s@[j]) == ascii_lower(name@[j]),
        decreases n - i,
    {
        let a = ascii_lower_exec(s.get_char(i));
        let b = ascii_lower_exec(name.get_char(i));
        if a != b {
            return false;
        }
        i += 1;
    }
    true
}

pub open spec fn name_focus() -> Seq<char> {
    seq!['f', 'o', 'c', 'u', 's']
}

pub open spec fn name_hover() -> Seq<char> {
    seq!['h', 'o', 'v', 'e', 'r']
}

pub open spec fn name_active() -> Seq<char> {
    seq!['a', 'c', 't', 'i', 'v', 'e']
}

pub open spec fn name_disabled() -> Seq<char> {
    seq!['d', 'i', 's', 'a', 'b', 'l', 'e', 'd']
}

pub open spec fn name_enabled() -> Seq<char> {
    seq!['e', 'n', 'a', 'b', 'l', 'e', 'd']
}

/// The pseudo-class that an identifier after `:` names, if any.
pub open spec fn pseudo_class(name: Seq<char>) -> Option<Selector> {
    if eq_ignore_ascii_case(name, name_focus()) {
        Some(Selector::Focus)
    } else if eq_ignore_ascii_case(name, name_hover()) {
        Some(Selector::Hover)
    } else if eq_ignore_ascii_case(name, name_active()) {
        Some(Selector::Active)
    } else if eq_ignore_ascii_case(name, name_disabled()) {
        Some(Selector::Disabled)
    } else if eq_ignore_ascii_case(name, name_enabled()) {
        Some(Selector::Enabled)
    } else {
        Option::None
    }
}

/// Returns the pseudo-class named by `name`, compared without ASCII case.
pub fn pseudo_class_from_name(name: &str) -> (r: Option<Selector>)
    ensures
        r == pseudo_class(name@),
{
    proof {
        reveal_strlit("focus");
        reveal_strlit("hover");
        reveal_strlit("active");
        reveal_strlit("disabled");
        reveal_strlit("enabled");
    }
    assert("focus"@ =~= name_focus());
    assert("hover"@ =~= name_hover());
    assert("active"@ =~= name_active());
    assert("disabled"@ =~= name_disabled());
    assert("enabled"@ =~= name_enabled());
    if matches_name(name, "focus") {
        Some(Selector::Focus)
    } else if matches_name(name, "hover") {
        Some(Selector::Hover)
    } else if matches_name(name, "active") {
        Some(Selector::Active)
    } else if matches_name(name, "disabled") {
        Some(Selector::Disabled)
    } else if matches_name(name, "enabled") {
        Some(Selector::Enabled)
    } else {
        Option::None
    }
}

/// The first index at or after `i` that does not hold whitespace.
pub open spec fn skip_whitespace(toks: Seq<SelectorToken>, i: int) -> int
    decreases toks.len() - i,
{
    if i < toks.len() && toks[i] == SelectorToken::WhiteSpace {
        skip_whitespace(toks, i + 1)
    } else {
        i
    }
}

/// `acc` with the pending combinator, if any, appended.
pub open spec fn flush_pending(acc: Seq<Selector>, pending: Option<Selector>) -> Seq<Selector> {
    match pending {
        Some(c) => acc.push(c),
        Option::None => acc,
    }
}

/// The selectors of one comma-separated selector, read from `toks[i..]`.
///
/// `acc` holds the selectors read so far, `pending` a combinator not yet written,
/// `found` whether a class, wildcard or pseudo-class was read, and `names` the interner.
/// The result is `None` for an invalid selector, together with the interner afterwards.
pub open spec fn parse_selector_from(
    toks: Seq<SelectorToken>,
    i: int,
    names: Seq<Seq<char>>,
    acc: Seq<Selector>,
    pending: Option<Selector>,
    found: bool,
) -> (Option<Seq<Selector>>, Seq<Seq<char>>)
    decreases toks.len() - i, 1int,
{
    if i >= toks.len() {
        let pending = if pending == Some(Selector::Descendant) {
            Option::None
        } else {
            pending
        };
        if !found || pending is Some {
            (Option::None, names)
        } else {
            (Some(acc), names)
        }
    } else if i < 0 {
        (Option::None, names)
    } else {
        match toks[i] {
            SelectorToken::WhiteSpace => {
                let p = if found && pending is None {
                    Some(Selector::Descendant)
                } else {
                    pending
                };
                parse_selector_from(toks, i + 1, names, acc, p, found)
            },
            SelectorToken::Delim(c) => {
                if c == '>' {
                    parse_selector_from(toks, i + 1, names, acc, Some(Selector::Child), found)
                } else if c == '*' {
                    parse_selector_from(
                        toks,
                        i + 1,
                        names,
                        flush_pending(acc, pending).push(Selector::Wildcard),
                        Option::None,
                        true,
                    )
                } else if c == '.' {
                    parse_selector_from(toks, i + 1, names, acc, pending, found)
                } else {
                    (Option::None, names)
                }
            },
            SelectorToken::Colon => {
                let j = skip_whitespace(toks, i + 1);
                if j < toks.len() && toks[j] is Ident && pseudo_class(toks[j]->Ident_0@) is Some
                    && j > i {
                    parse_selector_from(
                        toks,
                        j + 1,
                        names,
                        flush_pending(acc, pending).push(pseudo_class(toks[j]->Ident_0@).unwrap()),
                        Option::None,
                        true,
                    )
                } else {
                    (Option::None, names)
                }
            },
            SelectorToken::Ident(s) => {
                let (names2, id) = spec_intern(names, s@);
                parse_selector_from(
                    toks,
                    i + 1,
                    names2,
                    flush_pending(acc, pending).push(Selector::Class(StrId(id as u32))),
                    Option::None,
                    true,
                )
            },
            SelectorToken::Comma | SelectorToken::Hash(_) | SelectorToken::Other => (Option::None, names),
        }
    }
}

/// The selectors of one comma-separated selector and the interner afterwards.
pub open spec fn parse_selector_spec(toks: Seq<SelectorToken>, names: Seq<Seq<char>>) -> (
    Option<Seq<Selector>>,
    Seq<Seq<char>>,
) {
    parse_selector_from(toks, 0, names, Seq::empty(), Option::None, false)
}

proof fn lemma_skip_whitespace(toks: Seq<SelectorToken>, i: int)
    requires
        0 <= i,
    ensures
        i <= skip_whitespace(toks, i),
        skip_whitespace(toks, i) >= toks.len() || toks[skip_whitespace(toks, i)]
            != SelectorToken::WhiteSpace,
        forall|k: int| i <= k < skip_whitespace(toks, i) ==> toks[k] == SelectorToken::WhiteSpace,
    decreases toks.len() - i,
{
    if i < toks.len() && toks[i] == SelectorToken::WhiteSpace {
        lemma_skip_whitespace(toks, i + 1);
    }
}

/// Parses the tokens of one comma-separated selector (such as `.panel > .title:hover`)
/// into its components, interning class names.
///
/// Returns `None` if the selector is invalid. Element names are treated as class names.
pub fn parse_selector(toks: &[SelectorToken], interner: &mut StringInterner) -> (r: Option<Vec<Selector>>)
    requires
        old(interner).wf(),
        old(interner)@.len() + toks@.len() < u32::MAX,
    ensures
        final(interner).wf(),
        final(interner)@.len() <= old(interner)@.len() + toks@.len(),
        (match r {
            Some(v) => Some(v@),
            Option::None => Option::None,
        }, final(interner)@) == parse_selector_spec(toks@, old(interner)@),
{
    let mut selectors: Vec<Selector> = Vec::new();
    let mut pending: Option<Selector> = Option::None;
    let mut found_class = false;
    let n = toks.len();
    let mut i: usize = 0;
    while i < n
        invariant
            n == toks@.len(),
            0 <= i <= n,
            interner.wf(),
            interner@.len() + (n - i) < u32::MAX,
            interner@.len() <= old(interner)@.len() + i,
            parse_selector_spec(toks@, old(interner)@) == parse_selector_from(
                toks@,
                i as int,
                interner@,
                selectors@,
                pending,
                found_class,
            ),
        decreases n - i,
    {
        match &toks[i] {
            SelectorToken::WhiteSpace => {
                if found_class && pending.is_none() {
                    pending = Some(Selector::Descendant);
                }
                i += 1;
            },
            SelectorToken::Delim(c) => {
                if *c == '>' {
                    pending = Some(Selector::Child);
                    i += 1;
                } else if *c == '*' {
                    if let Some(c) = pending {
                        selectors.push(c);
                    }
                    pending = Option::None;
                    selectors.push(Selector::Wildcard);
                    found_class = true;
                    i += 1;
                } else if *c == '.' {
                    i += 1;
                } else {
                    return Option::None;
                }
            },
            SelectorToken::Colon => {
                let ghost i0 = i as int;
                i += 1;
                proof {
                    lemma_skip_whitespace(toks@, i as int);
                }
                while i < n && toks[i].is_whitespace()
                    invariant
                        n == toks@.len(),
                        i0 < i <= n,
                        skip_whitespace(toks@, i0 + 1) == skip_whitespace(toks@, i as int),
                    decreases n - i,
                {
                    i += 1;
                }
                if i >= n {
                    return Option::None;
                }
                match &toks[i] {
                    SelectorToken::Ident(s) => {
                        if let Some(p) = pseudo_class_from_name(s.as_str()) {
                            if let Some(c) = pending {
                                selectors.push(c);
                            }
                            pending = Option::None;
                            selectors.push(p);
                            found_class = true;
                            i += 1;
                        } else {
                            return Option::None;
                        }
                    },
                    _ => {
                        return Option::None;
                    },
                }
            },
            SelectorToken::Ident(s) => {
                let ghost before = interner@;
                let id = interner.intern(s.as_str());
                proof {
                    crate::interner::lemma_intern_matches(before, interner@, s@, id.0 as int);
                }
                if let Some(c) = pending {
                    selectors.push(c);
                }
                pending = Option::None;
                selectors.push(Selector::Class(id));
                found_class = true;
                i += 1;
            },
            SelectorToken::Comma | SelectorToken::Hash(_) | SelectorToken::Other => {
                return Option::None;
            },
        }
    }
    if pending == Some(Selector::Descendant) {
        pending = Option::None;
    }
    if !found_class || pending.is_some() {
        return Option::None;
    }
    Some(selectors)
}

proof fn lemma_skip_whitespace_prefix(x: Seq<SelectorToken>, y: Seq<SelectorToken>, k: int)
    requires
        0 <= k,
        skip_whitespace(x, k) < x.len(),
    ensures
        skip_whitespace(x + y, k) == skip_whitespace(x, k),
    decreases x.len() - k,
{
    assert((x + y)[k] == x[k]);
    if x[k] == SelectorToken::WhiteSpace {
        lemma_skip_whitespace_prefix(x, y, k + 1);
    }
}

/// Reading `x + y` goes as reading `x` does, then goes on with `y` from the state in
/// which `x` ended; `zf` and `nf` say what `y` adds, and what the interner becomes, from
/// such a state.
proof fn lemma_parse_with_suffix(
    x: Seq<SelectorToken>,
    y: Seq<SelectorToken>,
    zf: spec_fn(Seq<Seq<char>>) -> Seq<Selector>,
    nf: spec_fn(Seq<Seq<char>>) -> Seq<Seq<char>>,
    i: int,
    names: Seq<Seq<char>>,
    acc: Seq<Selector>,
    pending: Option<Selector>,
    found: bool,
)
    requires
        0 <= i <= x.len(),
        parse_selector_from(x, i, names, acc, pending, found).0 is Some,
        forall|n: Seq<Seq<char>>, a: Seq<Selector>, p: Option<Selector>|
            (p is None || p == Some(Selector::Descendant)) ==> #[trigger] parse_selector_from(x + y, x.len() as int, n, a, p, true)
                == (Some(a + zf(n)), nf(n)),
    ensures
        parse_selector_from(x + y, i, names, acc, pending, found) == (
            Some(parse_selector_from(x, i, names, acc, pending, found).0.unwrap() + zf(parse_selector_from(x, i, names, acc, pending, found).1)),
            nf(parse_selector_from(x, i, names, acc, pending, found).1),
        ),
    decreases x.len() - i,
{
    if i == x.len() {
        assert(found);
    } else {
        assert((x + y)[i] == x[i]);
        match x[i] {
            SelectorToken::WhiteSpace => {
                let p = if found && pending is None {
                    Some(Selector::Descendant)
                } else {
                    pending
                };
                lemma_parse_with_suffix(x, y, zf, nf, i + 1, names, acc, p, found);
            },
            SelectorToken::Delim(c) => {
                if c == '>' {
                    lemma_parse_with_suffix(x, y, zf, nf, i + 1, names, acc, Some(Selector::Child), found);
                } else if c == '*' {
                    lemma_parse_with_suffix(x, y, zf, nf, i + 1, names, flush_pending(acc, pending).push(Selector::Wildcard), Option::None, true);
                } else if c == '.' {
                    lemma_parse_with_suffix(x, y, zf, nf, i + 1, names, acc, pending, found);
                }
            },
            SelectorToken::Colon => {
                let j = skip_whitespace(x, i + 1);
                lemma_skip_whitespace(x, i + 1);
                lemma_skip_whitespace_prefix(x, y, i + 1);
                assert((x + y)[j] == x[j]);
                lemma_parse_with_suffix(
                    x,
                    y,
                    zf,
                    nf,
                    j + 1,
                    names,
                    flush_pending(acc, pending).push(pseudo_class(x[j]->Ident_0@).unwrap()),
                    Option::None,
                    true,
                );
            },
            SelectorToken::Ident(s) => {
                let (names2, id) = spec_intern(names, s@);
                lemma_parse_with_suffix(
                    x,
                    y,
                    zf,
                    nf,
                    i + 1,
                    names2,
                    flush_pending(acc, pending).push(Selector::Class(StrId(id as u32))),
                    Option::None,
                    true,
                );
            },
            _ => {},
        }
    }
}

/// A pseudo-class written after whitespace applies to a descendant, and after `>` to a
/// child: when the tokens `x` parse to the selectors `v`, then `x :p` parses to `v`
/// followed by the descendant combinator and the pseudo-class, and `x > :p` to `v`
/// followed by the child combinator and the pseudo-class, the interner ending as it does
/// for `x`.
pub proof fn law_combinator_before_pseudo_class(x: Seq<SelectorToken>, p: SelectorToken, names: Seq<Seq<char>>)
    requires
        p is Ident,
        pseudo_class(p->Ident_0@) is Some,
        parse_selector_spec(x, names).0 is Some,
    ensures
        parse_selector_spec(x + seq![SelectorToken::WhiteSpace, SelectorToken::Colon, p], names) == (
            Some(parse_selector_spec(x, names).0.unwrap() + seq![Selector::Descendant, pseudo_class(p->Ident_0@).unwrap()]),
            parse_selector_spec(x, names).1,
        ),
        parse_selector_spec(x + seq![SelectorToken::Delim('>'), SelectorToken::Colon, p], names) == (
            Some(parse_selector_spec(x, names).0.unwrap() + seq![Selector::Child, pseudo_class(p->Ident_0@).unwrap()]),
            parse_selector_spec(x, names).1,
        ),
{
    let ps = pseudo_class(p->Ident_0@).unwrap();
    let yd = seq![SelectorToken::WhiteSpace, SelectorToken::Colon, p];
    let yc = seq![SelectorToken::Delim('>'), SelectorToken::Colon, p];
    let zd = seq![Selector::Descendant, ps];
    let zc = seq![Selector::Child, ps];
    let m = x.len() as int;
    assert forall|n: Seq<Seq<char>>, a: Seq<Selector>, q: Option<Selector>|
        (q is None || q == Some(Selector::Descendant)) implies #[trigger] parse_selector_from(x + yd, m, n, a, q, true) == (Some(a + zd), n) by {
        let t = x + yd;
        assert(t[m] == SelectorToken::WhiteSpace);
        assert(t[m + 1] == SelectorToken::Colon);
        assert(t[m + 2] == p);
        assert(skip_whitespace(t, m + 2) == m + 2);
        assert(parse_selector_from(t, m + 3, n, a.push(Selector::Descendant).push(ps), Option::None, true) == (Some(a.push(Selector::Descendant).push(ps)), n));
        assert(parse_selector_from(t, m + 1, n, a, Some(Selector::Descendant), true) == (Some(a.push(Selector::Descendant).push(ps)), n));
        assert(a.push(Selector::Descendant).push(ps) =~= a + zd);
    }
    assert forall|n: Seq<Seq<char>>, a: Seq<Selector>, q: Option<Selector>|
        (q is None || q == Some(Selector::Descendant)) implies #[trigger] parse_selector_from(x + yc, m, n, a, q, true) == (Some(a + zc), n) by {
        let t = x + yc;
        assert(t[m] == SelectorToken::Delim('>'));
        assert(t[m + 1] == SelectorToken::Colon);
        assert(t[m + 2] == p);
        assert(skip_whitespace(t, m + 2) == m + 2);
        assert(parse_selector_from(t, m + 3, n, a.push(Selector::Child).push(ps), Option::None, true) == (Some(a.push(Selector::Child).push(ps)), n));
        assert(parse_selector_from(t, m + 1, n, a, Some(Selector::Child), true) == (Some(a.push(Selector::Child).push(ps)), n));
        assert(a.push(Selector::Child).push(ps) =~= a + zc);
    }
    let same = |n: Seq<Seq<char>>| n;
    let fd = |n: Seq<Seq<char>>| zd;
    let fc = |n: Seq<Seq<char>>| zc;
    lemma_parse_with_suffix(x, yd, fd, same, 0, names, Seq::empty(), Option::None, false);
    lemma_parse_with_suffix(x, yc, fc, same, 0, names, Seq::empty(), Option::None, false);
}

/// A class written after whitespace applies to a descendant, and after `>` to a child:
/// when the tokens `x` parse to the selectors `v` (leaving the interner at `n`), then
/// `x .c` and `x > .c` parse to `v` followed by the descendant or the child combinator and
/// the class `c`, with its id from interning it into `n`.
pub proof fn law_combinator_before_class(x: Seq<SelectorToken>, c: SelectorToken, names: Seq<Seq<char>>)
    requires
        c is Ident,
        parse_selector_spec(x, names).0 is Some,
    ensures
        ({
            let v = parse_selector_spec(x, names).0.unwrap();
            let n = parse_selector_spec(x, names).1;
            let class = Selector::Class(StrId(spec_intern(n, c->Ident_0@).1 as u32));
            &&& parse_selector_spec(x + seq![SelectorToken::WhiteSpace, SelectorToken::Delim('.'), c], names) == (
                Some(v + seq![Selector::Descendant, class]),
                spec_intern(n, c->Ident_0@).0,
            )
            &&& parse_selector_spec(x + seq![SelectorToken::Delim('>'), SelectorToken::Delim('.'), c], names) == (
                Some(v + seq![Selector::Child, class]),
                spec_intern(n, c->Ident_0@).0,
            )
        }),
{
    let name = c->Ident_0@;
    let m = x.len() as int;
    let yd = seq![SelectorToken::WhiteSpace, SelectorToken::Delim('.'), c];
    let yc = seq![SelectorToken::Delim('>'), SelectorToken::Delim('.'), c];
    let cls = |n: Seq<Seq<char>>| Selector::Class(StrId(spec_intern(n, name).1 as u32));
    let nf = |n: Seq<Seq<char>>| spec_intern(n, name).0;
    let fd = |n: Seq<Seq<char>>| seq![Selector::Descendant, cls(n)];
    let fc = |n: Seq<Seq<char>>| seq![Selector::Child, cls(n)];
    assert forall|n: Seq<Seq<char>>, a: Seq<Selector>, q: Option<Selector>|
        (q is None || q == Some(Selector::Descendant)) implies #[trigger] parse_selector_from(x + yd, m, n, a, q, true) == (Some(a + fd(n)), nf(n)) by {
        let t = x + yd;
        assert(t[m] == SelectorToken::WhiteSpace);
        assert(t[m + 1] == SelectorToken::Delim('.'));
        assert(t[m + 2] == c);
        let a2 = a.push(Selector::Descendant).push(cls(n));
        assert(parse_selector_from(t, m + 3, nf(n), a2, Option::None, true) == (Some(a2), nf(n)));
        assert(parse_selector_from(t, m + 2, n, a, Some(Selector::Descendant), true) == (Some(a2), nf(n)));
        assert(parse_selector_from(t, m + 1, n, a, Some(Selector::Descendant), true) == (Some(a2), nf(n)));
        assert(a2 =~= a + fd(n));
    }
    assert forall|n: Seq<Seq<char>>, a: Seq<Selector>, q: Option<Selector>|
        (q is None || q == Some(Selector::Descendant)) implies #[trigger] parse_selector_from(x + yc, m, n, a, q, true) == (Some(a + fc(n)), nf(n)) by {
        let t = x + yc;
        assert(t[m] == SelectorToken::Delim('>'));
        assert(t[m + 1] == SelectorToken::Delim('.'));
        assert(t[m + 2] == c);
        let a2 = a.push(Selector::Child).push(cls(n));
        assert(parse_selector_from(t, m + 3, nf(n), a2, Option::None, true) == (Some(a2), nf(n)));
        assert(parse_selector_from(t, m + 2, n, a, Some(Selector::Child), true) == (Some(a2), nf(n)));
        assert(parse_selector_from(t, m + 1, n, a, Some(Selector::Child), true) == (Some(a2), nf(n)));
        assert(a2 =~= a + fc(n));
    }
    lemma_parse_with_suffix(x, yd, fd, nf, 0, names, Seq::empty(), Option::None, false);
    lemma_parse_with_suffix(x, yc, fc, nf, 0, names, Seq::empty(), Option::None, false);
}

} // verus!
