//! Property values as a flat list of CSS tokens.
//!
//! `cssparser` reads a value token by token; the contents of a block (a function's
//! arguments, or the inside of brackets) can only be read through a nested parse. The
//! reader here records every token with its source text, descends into each block, and
//! marks where the block ends, so that the rest of the library can work on plain values.
//!
//! What the tokenizer reads at a position of a text is named by [`css_token_at`]; the
//! whole flattened list that a value gives is [`flatten`] over it.

use vstd::prelude::*;

use cssparser::{ParseError, Parser, SourcePosition, Token};
use vstd::string::StringExecFns;

verus! {

/// Nested blocks may be opened at depths below this (`cssparser`'s own limit).
pub const NESTED_BLOCK_LIMIT: usize = 75;

/// A token of a value: one variant for each `cssparser` token that the library tells
/// apart, `Other` for the rest, and two marks of the reader's own.
#[derive(Debug, Clone, PartialEq, Eq)]
pub enum TokenKind {
    WhiteSpace,
    Comment,
    /// An identifier, with its (unescaped) name.
    Ident(String),
    /// A function's name and opening parenthesis; its arguments follow as a nested block.
    Function(String),
    ParenthesisBlock,
    SquareBracketBlock,
    CurlyBracketBlock,
    CloseParenthesis,
    CloseSquareBracket,
    CloseCurlyBracket,
    Comma,
    Delim(char),
    Colon,
    /// A `#` and a name that is an identifier.
    IDHash(String),
    /// A `#` and another name.
    Hash(String),
    /// A number, with its value when it is written as an integer that fits an `i32`.
    Number(Option<i32>),
    QuotedString,
    /// Any other token.
    Other,
    /// The end of the innermost nested block: its closing bracket, or empty text when the
    /// input ends first.
    BlockEnd,
    /// A block that could not be read (nested too deeply, or no reads left); nothing
    /// follows it.
    Unopened,
}

/// [`TokenKind`] with its names as sequences of characters.
pub enum KindView {
    WhiteSpace,
    Comment,
    Ident(Seq<char>),
    Function(Seq<char>),
    ParenthesisBlock,
    SquareBracketBlock,
    CurlyBracketBlock,
    CloseParenthesis,
    CloseSquareBracket,
    CloseCurlyBracket,
    Comma,
    Delim(char),
    Colon,
    IDHash(Seq<char>),
    Hash(Seq<char>),
    Number(Option<i32>),
    QuotedString,
    Other,
    BlockEnd,
    Unopened,
}

impl View for TokenKind {
    type V = KindView;

    open spec fn view(&self) -> KindView {
        match self {
            TokenKind::WhiteSpace => KindView::WhiteSpace,
            TokenKind::Comment => KindView::Comment,
            TokenKind::Ident(n) => KindView::Ident(n@),
            TokenKind::Function(n) => KindView::Function(n@),
            TokenKind::ParenthesisBlock => KindView::ParenthesisBlock,
            TokenKind::SquareBracketBlock => KindView::SquareBracketBlock,
            TokenKind::CurlyBracketBlock => KindView::CurlyBracketBlock,
            TokenKind::CloseParenthesis => KindView::CloseParenthesis,
            TokenKind::CloseSquareBracket => KindView::CloseSquareBracket,
            TokenKind::CloseCurlyBracket => KindView::CloseCurlyBracket,
            TokenKind::Comma => KindView::Comma,
            TokenKind::Delim(c) => KindView::Delim(*c),
            TokenKind::Colon => KindView::Colon,
            TokenKind::IDHash(n) => KindView::IDHash(n@),
            TokenKind::Hash(n) => KindView::Hash(n@),
            TokenKind::Number(v) => KindView::Number(*v),
            TokenKind::QuotedString => KindView::QuotedString,
            TokenKind::Other => KindView::Other,
            TokenKind::BlockEnd => KindView::BlockEnd,
            TokenKind::Unopened => KindView::Unopened,
        }
    }
}

/// A token of a value with its source text.
#[derive(Debug, Clone, PartialEq, Eq)]
pub struct CssToken {
    pub kind: TokenKind,
    pub text: String,
}

/// A token as plain values.
pub struct TokenView {
    pub kind: KindView,
    pub text: Seq<char>,
}

impl View for CssToken {
    type V = TokenView;

    open spec fn view(&self) -> TokenView {
        TokenView { kind: self.kind@, text: self.text@ }
    }
}

/// The views of a list of tokens.
pub open spec fn views(s: Seq<CssToken>) -> Seq<TokenView> {
    s.map_values(|t: CssToken| t@)
}

/// The token that `cssparser`'s tokenizer reads in `input` from character `pos`
/// (whitespace and comments included), and the position after it.
pub uninterp spec fn css_token_at(input: Seq<char>, pos: int) -> (KindView, int);

/// The character that closes the block a token opens, if it opens one.
pub open spec fn closer_of(k: KindView) -> Option<char> {
    match k {
        KindView::Function(_) => Some(')'),
        KindView::ParenthesisBlock => Some(')'),
        KindView::SquareBracketBlock => Some(']'),
        KindView::CurlyBracketBlock => Some('}'),
        _ => None,
    }
}

/// Whether a token opens a nested block.
pub open spec fn opens_block(k: KindView) -> bool {
    closer_of(k) is Some
}

/// Whether a block closed by `closer` (none at the top level) has no token left at `pos`:
/// the input ends, or its closing character comes.
pub open spec fn at_block_end(input: Seq<char>, pos: int, closer: Option<char>) -> bool {
    pos >= input.len() || (closer is Some && input[pos] == closer->Some_0)
}

/// Where the parser stands after the closing bracket of a block whose contents end at `q`.
pub open spec fn close_end(input: Seq<char>, q: int) -> int {
    if q < input.len() {
        q + 1
    } else {
        q
    }
}

/// The mark of a block that could not be read.
pub open spec fn unopened() -> TokenView {
    TokenView { kind: KindView::Unopened, text: Seq::empty() }
}

/// What reading a block gives: the tokens, where its contents end, whether reading
/// stopped early (the last token is then `Unopened`), and the reads left.
pub struct Flat {
    pub toks: Seq<TokenView>,
    pub end: int,
    pub aborted: bool,
    pub left: nat,
}

/// The tokens of the block that contains `pos`, from `pos` on, closed by `closer`, at
/// nesting depth `depth`, with at most `budget` reads: one per token and one at the end
/// of each block. Each token that opens a block is followed by the block's contents and
/// a `BlockEnd` token with the closing bracket's text.
pub open spec fn flatten(input: Seq<char>, pos: int, closer: Option<char>, depth: nat, budget: nat) -> Flat
    decreases budget,
{
    if budget == 0 {
        Flat { toks: seq![unopened()], end: pos, aborted: true, left: 0 }
    } else if at_block_end(input, pos, closer) {
        Flat { toks: Seq::empty(), end: pos, aborted: false, left: (budget - 1) as nat }
    } else {
        let k = css_token_at(input, pos).0;
        let e = css_token_at(input, pos).1;
        let t = TokenView { kind: k, text: input.subrange(pos, e) };
        let b = (budget - 1) as nat;
        if !opens_block(k) {
            let rest = flatten(input, e, closer, depth, b);
            Flat { toks: seq![t] + rest.toks, end: rest.end, aborted: rest.aborted, left: rest.left }
        } else if depth >= NESTED_BLOCK_LIMIT {
            Flat { toks: seq![t, unopened()], end: e, aborted: true, left: b }
        } else {
            let inner = flatten(input, e, closer_of(k), depth + 1, b);
            if inner.aborted {
                Flat { toks: seq![t] + inner.toks, end: inner.end, aborted: true, left: inner.left }
            } else if inner.left >= budget {
                Flat { toks: seq![t, unopened()], end: e, aborted: true, left: b }
            } else {
                let c = close_end(input, inner.end);
                let close = TokenView { kind: KindView::BlockEnd, text: input.subrange(inner.end, c) };
                let rest = flatten(input, c, closer, depth, inner.left);
                Flat {
                    toks: seq![t] + inner.toks + seq![close] + rest.toks,
                    end: rest.end,
                    aborted: rest.aborted,
                    left: rest.left,
                }
            }
        }
    }
}

/// Reading never takes more reads than it has, and takes one at least.
pub proof fn lemma_flatten_left(input: Seq<char>, pos: int, closer: Option<char>, depth: nat, budget: nat)
    ensures
        flatten(input, pos, closer, depth, budget).left <= budget,
        budget > 0 ==> flatten(input, pos, closer, depth, budget).left < budget,
    decreases budget,
{
    if budget > 0 && !at_block_end(input, pos, closer) {
        let k = css_token_at(input, pos).0;
        let e = css_token_at(input, pos).1;
        let b = (budget - 1) as nat;
        if !opens_block(k) {
            lemma_flatten_left(input, e, closer, depth, b);
        } else if depth < NESTED_BLOCK_LIMIT {
            let inner = flatten(input, e, closer_of(k), depth + 1, b);
            lemma_flatten_left(input, e, closer_of(k), depth + 1, b);
            if !inner.aborted && inner.left < budget {
                lemma_flatten_left(input, close_end(input, inner.end), closer, depth, inner.left);
            }
        }
    }
}

/// A read that stops early ends with the `Unopened` mark.
pub proof fn lemma_flatten_aborted(input: Seq<char>, pos: int, closer: Option<char>, depth: nat, budget: nat)
    ensures
        flatten(input, pos, closer, depth, budget).aborted ==> flatten(input, pos, closer, depth, budget).toks.len() > 0
            && flatten(input, pos, closer, depth, budget).toks.last() == unopened(),
    decreases budget,
{
    if budget > 0 && !at_block_end(input, pos, closer) {
        let k = css_token_at(input, pos).0;
        let e = css_token_at(input, pos).1;
        let t = TokenView { kind: k, text: input.subrange(pos, e) };
        let b = (budget - 1) as nat;
        if !opens_block(k) {
            lemma_flatten_aborted(input, e, closer, depth, b);
            let rest = flatten(input, e, closer, depth, b);
            if rest.aborted {
                assert((seq![t] + rest.toks)[rest.toks.len() as int] == rest.toks[rest.toks.len() - 1]);
            }
        } else if depth < NESTED_BLOCK_LIMIT {
            let inner = flatten(input, e, closer_of(k), depth + 1, b);
            lemma_flatten_aborted(input, e, closer_of(k), depth + 1, b);
            if inner.aborted {
                assert((seq![t] + inner.toks)[inner.toks.len() as int] == inner.toks[inner.toks.len() - 1]);
            } else if inner.left < budget {
                let c = close_end(input, inner.end);
                let close = TokenView { kind: KindView::BlockEnd, text: input.subrange(inner.end, c) };
                let rest = flatten(input, c, closer, depth, inner.left);
                lemma_flatten_aborted(input, c, closer, depth, inner.left);
                let whole = seq![t] + inner.toks + seq![close] + rest.toks;
                if rest.toks.len() > 0 {
                    assert(whole[whole.len() - 1] == rest.toks[rest.toks.len() - 1]);
                }
            }
        }
    }
}

/// The source texts of tokens, one after another.
pub open spec fn texts(toks: Seq<TokenView>) -> Seq<char>
    decreases toks.len(),
{
    if toks.len() == 0 {
        Seq::empty()
    } else {
        toks[0].text + texts(toks.drop_first())
    }
}

proof fn lemma_texts_append(a: Seq<TokenView>, b: Seq<TokenView>)
    ensures
        texts(a + b) == texts(a) + texts(b),
    decreases a.len(),
{
    if a.len() == 0 {
        assert(a + b =~= b);
        assert(Seq::<char>::empty() + texts(b) =~= texts(b));
    } else {
        assert((a + b).drop_first() =~= a.drop_first() + b);
        lemma_texts_append(a.drop_first(), b);
        assert(a[0].text + (texts(a.drop_first()) + texts(b)) =~= (a[0].text + texts(a.drop_first())) + texts(b));
    }
}

proof fn lemma_texts_one(t: TokenView)
    ensures
        texts(seq![t]) == t.text,
{
    assert(seq![t].drop_first() =~= Seq::<TokenView>::empty());
    assert(texts(seq![t].drop_first()) == Seq::<char>::empty());
    assert(seq![t][0] == t);
    assert(t.text + Seq::<char>::empty() =~= t.text);
}

/// The tokenizer moves on: the token read at any position of `input` ends after it,
/// within the input.
pub open spec fn tokens_advance(input: Seq<char>) -> bool {
    forall|p: int| 0 <= p < input.len() ==> p < #[trigger] css_token_at(input, p).1 <= input.len()
}

proof fn lemma_flatten_texts(input: Seq<char>, pos: int, closer: Option<char>, depth: nat, budget: nat)
    requires
        tokens_advance(input),
        0 <= pos <= input.len(),
    ensures
        pos <= flatten(input, pos, closer, depth, budget).end <= input.len(),
        texts(flatten(input, pos, closer, depth, budget).toks) == input.subrange(pos, flatten(input, pos, closer, depth, budget).end),
        !flatten(input, pos, closer, depth, budget).aborted ==> at_block_end(input, flatten(input, pos, closer, depth, budget).end, closer),
    decreases budget,
{
    let f = flatten(input, pos, closer, depth, budget);
    if budget == 0 {
        lemma_texts_one(unopened());
        assert(input.subrange(pos, pos) =~= Seq::<char>::empty());
    } else if at_block_end(input, pos, closer) {
        assert(input.subrange(pos, pos) =~= Seq::<char>::empty());
    } else {
        let k = css_token_at(input, pos).0;
        let e = css_token_at(input, pos).1;
        let t = TokenView { kind: k, text: input.subrange(pos, e) };
        let b = (budget - 1) as nat;
        lemma_texts_one(t);
        if !opens_block(k) {
            lemma_flatten_texts(input, e, closer, depth, b);
            let rest = flatten(input, e, closer, depth, b);
            lemma_texts_append(seq![t], rest.toks);
            assert(input.subrange(pos, e) + input.subrange(e, rest.end) =~= input.subrange(pos, rest.end));
        } else if depth >= NESTED_BLOCK_LIMIT {
            lemma_texts_append(seq![t], seq![unopened()]);
            lemma_texts_one(unopened());
            assert(seq![t, unopened()] =~= seq![t] + seq![unopened()]);
            assert(input.subrange(pos, e) + Seq::<char>::empty() =~= input.subrange(pos, e));
        } else {
            let inner = flatten(input, e, closer_of(k), depth + 1, b);
            lemma_flatten_texts(input, e, closer_of(k), depth + 1, b);
            if inner.aborted {
                lemma_texts_append(seq![t], inner.toks);
                assert(input.subrange(pos, e) + input.subrange(e, inner.end) =~= input.subrange(pos, inner.end));
            } else if inner.left >= budget {
                lemma_texts_append(seq![t], seq![unopened()]);
                lemma_texts_one(unopened());
                assert(seq![t, unopened()] =~= seq![t] + seq![unopened()]);
                assert(input.subrange(pos, e) + Seq::<char>::empty() =~= input.subrange(pos, e));
            } else {
                let c = close_end(input, inner.end);
                let close = TokenView { kind: KindView::BlockEnd, text: input.subrange(inner.end, c) };
                lemma_flatten_texts(input, c, closer, depth, inner.left);
                let rest = flatten(input, c, closer, depth, inner.left);
                lemma_texts_one(close);
                lemma_texts_append(seq![t], inner.toks);
                lemma_texts_append(seq![t] + inner.toks, seq![close]);
                lemma_texts_append(seq![t] + inner.toks + seq![close], rest.toks);
                assert(input.subrange(pos, e) + input.subrange(e, inner.end) + input.subrange(inner.end, c) + input.subrange(c, rest.end)
                    =~= input.subrange(pos, rest.end));
            }
        }
    }
}

/// Reading a value loses no text: the tokens' texts, one after another, spell the value
/// from its start; all of it, unless reading stopped early, and then the last token is
/// the `Unopened` mark.
pub proof fn law_tokens_spell_the_value(input: Seq<char>)
    requires
        tokens_advance(input),
    ensures
        texts(value_tokens(input)).len() <= input.len(),
        texts(value_tokens(input)) == input.subrange(0, texts(value_tokens(input)).len() as int),
        texts(value_tokens(input)) == input || (value_tokens(input).len() > 0 && value_tokens(input).last().kind is Unopened),
{
    let f = flatten(input, 0, None, 0, value_budget(input.len()));
    lemma_flatten_texts(input, 0, None, 0, value_budget(input.len()));
    lemma_flatten_aborted(input, 0, None, 0, value_budget(input.len()));
    if !f.aborted {
        assert(input.subrange(0, input.len() as int) =~= input);
    }
}

#[verifier::external_type_specification]
#[verifier::external_body]
pub struct ExParser<'i>(Parser<'i>);

#[verifier::external_type_specification]
#[verifier::external_body]
pub struct ExSourcePosition(SourcePosition);

#[verifier::external_type_specification]
#[verifier::external_body]
pub struct ExToken<'a>(Token<'a>);

/// A `cssparser` parser over `input`, with where it stands: `pos` characters in, inside
/// a block closed by `closer` (none at the top level) at nesting depth `depth`. `pending`
/// is the closer of the block that the token just read opens, which must be read next;
/// `broken` is set when a nested read stopped early and where the parser stands is not
/// known.
struct CssReader<'a, 'i> {
    parser: &'a mut Parser<'i>,
    input: Ghost<Seq<char>>,
    pos: Ghost<int>,
    closer: Ghost<Option<char>>,
    depth: Ghost<nat>,
    pending: Ghost<Option<char>>,
    broken: Ghost<bool>,
}

/// `cssparser::Parser::new`, kept in `slot`: a parser at the start of `input`, at the
/// top level, which opens at most [`NESTED_BLOCK_LIMIT`] nested blocks.
#[verifier::external_body]
fn new_reader<'a, 'i>(slot: &'a mut Option<Parser<'i>>, input: &'i str) -> (r: CssReader<'a, 'i>)
    ensures
        r.input@ == input@,
        r.pos@ == 0,
        r.closer@ is None,
        r.depth@ == 0,
        r.pending@ is None,
        !r.broken@,
{
    let parser = slot.insert(Parser::new(input));
    CssReader { parser, input: Ghost(input@), pos: Ghost(0), closer: Ghost(None), depth: Ghost(0), pending: Ghost(None), broken: Ghost(false) }
}

/// `cssparser::Parser::position`: where the reader's parser stands (an opaque position).
#[verifier::external_body]
fn position<'a, 'i>(rd: &CssReader<'a, 'i>) -> SourcePosition {
    rd.parser.position()
}

/// Tells apart the variants of a `cssparser` token that [`TokenKind`] names; the name
/// of an identifier or a function is copied. The rest goes to [`token_kind_rest`].
#[verifier::external_body]
fn token_kind<'t>(t: &Token<'t>) -> TokenKind {
    match t {
        Token::WhiteSpace(_) => TokenKind::WhiteSpace,
        Token::Comment(_) => TokenKind::Comment,
        Token::Ident(name) => TokenKind::Ident(name.to_string()),
        Token::Function(name) => TokenKind::Function(name.to_string()),
        Token::ParenthesisBlock => TokenKind::ParenthesisBlock,
        Token::SquareBracketBlock => TokenKind::SquareBracketBlock,
        Token::CurlyBracketBlock => TokenKind::CurlyBracketBlock,
        Token::CloseParenthesis => TokenKind::CloseParenthesis,
        Token::CloseSquareBracket => TokenKind::CloseSquareBracket,
        Token::CloseCurlyBracket => TokenKind::CloseCurlyBracket,
        Token::Comma => TokenKind::Comma,
        Token::Delim(c) => TokenKind::Delim(*c),
        _ => token_kind_rest(t),
    }
}

/// The rest of [`token_kind`]: the variants that only selectors and declaration values
/// tell apart; the number's integer value is copied.
#[verifier::external_body]
fn token_kind_rest<'t>(t: &Token<'t>) -> TokenKind {
    match t {
        Token::Colon => TokenKind::Colon,
        Token::IDHash(name) => TokenKind::IDHash(name.to_string()),
        Token::Hash(name) => TokenKind::Hash(name.to_string()),
        Token::Number { int_value, .. } => TokenKind::Number(*int_value),
        Token::QuotedString(_) => TokenKind::QuotedString,
        _ => TokenKind::Other,
    }
}

/// `cssparser::Parser::next_including_whitespace_and_comments`, with `position` before
/// and `slice_from` after it: at the end of the block (the input ends, or the block's
/// closing character comes) `None`, and the parser stays; otherwise the token
/// [`css_token_at`] names, with its text, and the parser stands after it. A token that
/// opens a block leaves that block pending.
#[verifier::external_body]
fn read_token<'a, 'i>(rd: &mut CssReader<'a, 'i>) -> (r: Option<CssToken>)
    requires
        old(rd).pending@ is None,
        !old(rd).broken@,
    ensures
        final(rd).input@ == old(rd).input@,
        final(rd).closer@ == old(rd).closer@,
        final(rd).depth@ == old(rd).depth@,
        final(rd).broken@ == old(rd).broken@,
        at_block_end(old(rd).input@, old(rd).pos@, old(rd).closer@) ==> r is None && final(rd).pos@ == old(rd).pos@
            && final(rd).pending@ is None,
        !at_block_end(old(rd).input@, old(rd).pos@, old(rd).closer@) ==> (r matches Some(t) && t@ == (TokenView {
            kind: css_token_at(old(rd).input@, old(rd).pos@).0,
            text: old(rd).input@.subrange(old(rd).pos@, css_token_at(old(rd).input@, old(rd).pos@).1),
        }) && final(rd).pos@ == css_token_at(old(rd).input@, old(rd).pos@).1 && old(rd).pos@ < final(rd).pos@
            <= old(rd).input@.len() && final(rd).pending@ == closer_of(t.kind@)),
{
    let start = rd.parser.position();
    let kind = match rd.parser.next_including_whitespace_and_comments() {
        Err(_) => return None,
        Ok(t) => token_kind(t),
    };
    Some(CssToken { kind, text: rd.parser.slice_from(start).to_string() })
}

/// `cssparser::Parser::parse_nested_block` on the pending block, whose contents
/// [`read_inner`] reads into `out`. At [`NESTED_BLOCK_LIMIT`] the parser refuses the
/// block: `None`, and nothing is read. Otherwise the contents are read as [`flatten`]
/// says; when that read ends normally, the text of the block's closing bracket (from
/// `slice_from`) comes back and the parser stands after it; when it stops early, `None`,
/// and where the parser stands is not stated.
#[verifier::external_body]
fn read_nested<'a, 'i>(rd: &mut CssReader<'a, 'i>, out: &mut Vec<CssToken>, budget: &mut usize) -> (r: Option<String>)
    requires
        old(rd).pending@ is Some,
        !old(rd).broken@,
    ensures
        final(rd).input@ == old(rd).input@,
        final(rd).closer@ == old(rd).closer@,
        final(rd).depth@ == old(rd).depth@,
        old(rd).depth@ >= NESTED_BLOCK_LIMIT ==> r is None && final(out)@ == old(out)@ && *final(budget) == *old(budget)
            && final(rd).pos@ == old(rd).pos@ && final(rd).pending@ is None && !final(rd).broken@,
        old(rd).depth@ < NESTED_BLOCK_LIMIT ==> ({
            let f = flatten(old(rd).input@, old(rd).pos@, old(rd).pending@, old(rd).depth@ + 1, *old(budget) as nat);
            &&& views(final(out)@) == views(old(out)@) + f.toks
            &&& *final(budget) == f.left
            &&& (r is Some <==> !f.aborted)
            &&& f.aborted ==> final(rd).broken@
            &&& (r matches Some(s) ==> (s@ == old(rd).input@.subrange(f.end, close_end(old(rd).input@, f.end))
                && final(rd).pos@ == close_end(old(rd).input@, f.end) && final(rd).pending@ is None && !final(rd).broken@))
        }),
{
    let (input, pos, closer, depth, pending, broken) = (rd.input, rd.pos, rd.closer, rd.depth, rd.pending, rd.broken);
    let end = rd.parser.parse_nested_block(|parser| {
        Ok::<Option<SourcePosition>, ParseError<()>>(read_inner(CssReader { parser, input, pos, closer, depth, pending, broken }, out, budget))
    });
    end.ok().flatten().map(|q| rd.parser.slice_from(q).to_string())
}

/// Reads the contents of the block that `sub`'s last token opened, one level deeper; gives
/// where they end when the read ended normally.
fn read_inner<'a, 'i>(sub: CssReader<'a, 'i>, out: &mut Vec<CssToken>, budget: &mut usize) -> (r: Option<SourcePosition>)
    requires
        sub.pending@ is Some,
        !sub.broken@,
        sub.depth@ < NESTED_BLOCK_LIMIT,
    ensures
        ({
            let f = flatten(sub.input@, sub.pos@, sub.pending@, sub.depth@ + 1, *old(budget) as nat);
            &&& views(final(out)@) == views(old(out)@) + f.toks
            &&& *final(budget) == f.left
            &&& (r is Some <==> !f.aborted)
        }),
{
    let mut rd = sub;
    rd.closer = rd.pending;
    rd.depth = Ghost(rd.depth@ + 1);
    rd.pending = Ghost(None);
    if read_block(&mut rd, out, budget) {
        Some(position(&rd))
    } else {
        Option::None
    }
}

/// The closing character of the block a token opens, if it opens one.
pub fn closer_of_kind(k: &TokenKind) -> (r: Option<char>)
    ensures
        r == closer_of(k@),
{
    match k {
        TokenKind::Function(_) => Some(')'),
        TokenKind::ParenthesisBlock => Some(')'),
        TokenKind::SquareBracketBlock => Some(']'),
        TokenKind::CurlyBracketBlock => Some('}'),
        _ => None,
    }
}

/// Whether a token opens a nested block.
pub fn opens_block_kind(k: &TokenKind) -> (r: bool)
    ensures
        r == opens_block(k@),
{
    closer_of_kind(k).is_some()
}

proof fn lemma_views_push(s: Seq<CssToken>, x: CssToken)
    ensures
        views(s.push(x)) == views(s).push(x@),
{
    assert(views(s.push(x)) =~= views(s).push(x@));
}

/// Reads the rest of the reader's block into `out` as [`flatten`] says; gives whether the
/// read ended normally (at the block's end) rather than early.
fn read_block<'a, 'i>(rd: &mut CssReader<'a, 'i>, out: &mut Vec<CssToken>, budget: &mut usize) -> (done: bool)
    requires
        old(rd).pending@ is None,
        !old(rd).broken@,
    ensures
        final(rd).input@ == old(rd).input@,
        final(rd).closer@ == old(rd).closer@,
        final(rd).depth@ == old(rd).depth@,
        ({
            let f = flatten(old(rd).input@, old(rd).pos@, old(rd).closer@, old(rd).depth@, *old(budget) as nat);
            &&& views(final(out)@) == views(old(out)@) + f.toks
            &&& *final(budget) == f.left
            &&& done == !f.aborted
            &&& done ==> final(rd).pos@ == f.end && final(rd).pending@ is None && !final(rd).broken@
        }),
{
    let ghost input = rd.input@;
    let ghost closer = rd.closer@;
    let ghost depth = rd.depth@;
    let ghost f0 = flatten(input, rd.pos@, closer, depth, *budget as nat);
    assert(views(out@) + f0.toks =~= views(old(out)@) + f0.toks);
    loop
        invariant
            rd.input@ == input,
            rd.closer@ == closer,
            rd.depth@ == depth,
            input == old(rd).input@,
            closer == old(rd).closer@,
            depth == old(rd).depth@,
            f0 == flatten(old(rd).input@, old(rd).pos@, old(rd).closer@, old(rd).depth@, *old(budget) as nat),
            rd.pending@ is None,
            !rd.broken@,
            ({
                let f = flatten(input, rd.pos@, closer, depth, *budget as nat);
                &&& views(out@) + f.toks == views(old(out)@) + f0.toks
                &&& f.end == f0.end
                &&& f.aborted == f0.aborted
                &&& f.left == f0.left
            }),
        decreases *budget,
    {
        let ghost b0 = out@;
        let ghost pos = rd.pos@;
        let ghost budget0 = *budget as nat;
        let ghost f = flatten(input, pos, closer, depth, budget0);
        if *budget == 0 {
            let t = CssToken { kind: TokenKind::Unopened, text: String::new() };
            out.push(t);
            proof {
                lemma_views_push(b0, t);
                assert(t@ == unopened());
                assert(views(b0) + f.toks =~= views(out@));
            }
            return false;
        }
        *budget = *budget - 1;
        match read_token(rd) {
            Option::None => {
                proof {
                    assert(views(b0) + f.toks =~= views(b0));
                }
                return true;
            },
            Some(tok) => {
                let ghost k = css_token_at(input, pos).0;
                let ghost e = css_token_at(input, pos).1;
                let ghost t = tok@;
                let ghost b = (budget0 - 1) as nat;
                if !opens_block_kind(&tok.kind) {
                    out.push(tok);
                    proof {
                        lemma_views_push(b0, tok);
                        let rest = flatten(input, e, closer, depth, b);
                        assert(f.toks == seq![t] + rest.toks);
                        assert(views(out@) + rest.toks =~= views(b0) + f.toks);
                    }
                } else {
                    out.push(tok);
                    proof {
                        lemma_views_push(b0, tok);
                    }
                    let ghost b1 = out@;
                    let nested = read_nested(rd, out, budget);
                    match nested {
                        Some(close) => {
                            let ghost b2 = out@;
                            let c = CssToken { kind: TokenKind::BlockEnd, text: close };
                            out.push(c);
                            proof {
                                lemma_views_push(b2, c);
                                let inner = flatten(input, e, closer_of(k), depth + 1, b);
                                lemma_flatten_left(input, e, closer_of(k), depth + 1, b);
                                let ce = close_end(input, inner.end);
                                let rest = flatten(input, ce, closer, depth, inner.left);
                                assert(f.toks == seq![t] + inner.toks + seq![c@] + rest.toks);
                                assert(views(out@) + rest.toks =~= views(b0) + f.toks);
                            }
                        },
                        Option::None => {
                            let ghost b2 = out@;
                            proof {
                                assert(views(b2).len() == b2.len());
                                assert(views(b1).len() == b1.len());
                                assert(b1.len() > 0);
                            }
                            let marked = match &out[out.len() - 1].kind {
                                TokenKind::Unopened => true,
                                _ => false,
                            };
                            if !marked {
                                let u = CssToken { kind: TokenKind::Unopened, text: String::new() };
                                out.push(u);
                                proof {
                                    lemma_views_push(b2, u);
                                    assert(u@ == unopened());
                                }
                            }
                            proof {
                                if depth < NESTED_BLOCK_LIMIT {
                                    let inner = flatten(input, e, closer_of(k), depth + 1, b);
                                    lemma_flatten_aborted(input, e, closer_of(k), depth + 1, b);
                                    assert(views(b2)[b2.len() - 1] == inner.toks[inner.toks.len() - 1]);
                                    assert(f.toks == seq![t] + inner.toks);
                                } else {
                                    assert(b2 == b1);
                                    assert(b2[b2.len() - 1] == tok);
                                }
                                assert(views(out@) =~= views(b0) + f.toks);
                            }
                            return false;
                        },
                    }
                }
            },
        }
    }
}

/// The reads a value of `n` characters is given: two for each character and one more
/// (each token takes at least one character, and each block's end one read), or as many
/// as a `usize` holds.
pub open spec fn value_budget(n: nat) -> nat {
    if n < usize::MAX / 2 {
        2 * n + 1
    } else {
        usize::MAX as nat
    }
}

/// The tokens of a text read as a property value: [`flatten`] over the whole text.
pub open spec fn value_tokens(text: Seq<char>) -> Seq<TokenView> {
    flatten(text, 0, None, 0, value_budget(text.len())).toks
}

/// The tokens of a property value, flattened: each block's contents follow the token
/// that opens it and end with a `BlockEnd` token.
pub fn tokenize_value(input: &str) -> (r: Vec<CssToken>)
    ensures
        views(r@) == value_tokens(input@),
{
    let mut slot: Option<Parser> = None;
    let mut rd = new_reader(&mut slot, input);
    let mut out: Vec<CssToken> = Vec::new();
    let n = input.unicode_len();
    let mut budget: usize = if n < usize::MAX / 2 {
        2 * n + 1
    } else {
        usize::MAX
    };
    let _done = read_block(&mut rd, &mut out, &mut budget);
    proof {
        assert(views(Seq::<CssToken>::empty()) =~= Seq::<TokenView>::empty());
        assert(Seq::<TokenView>::empty() + flatten(input@, 0, None, 0, value_budget(input@.len())).toks
            =~= flatten(input@, 0, None, 0, value_budget(input@.len())).toks);
    }
    out
}

/// The first `n` tokens of a flattened list seen from outside every nested block: the
/// tokens at the top level, comments (and whitespace too, where `skip_space` is set)
/// left out, as a parser that skips nested blocks reads them; and the nesting depth after
/// them.
pub open spec fn outer_scan(toks: Seq<TokenView>, n: int, skip_space: bool) -> (Seq<TokenView>, int)
    decreases n,
{
    if n <= 0 || n > toks.len() {
        (Seq::empty(), 0)
    } else {
        let acc = outer_scan(toks, n - 1, skip_space).0;
        let d = outer_scan(toks, n - 1, skip_space).1;
        let k = toks[n - 1].kind;
        let keep = d == 0 && !(k is BlockEnd) && !(k is Comment) && !(skip_space && k is WhiteSpace);
        (
            if keep {
                acc.push(toks[n - 1])
            } else {
                acc
            },
            if opens_block(k) {
                d + 1
            } else if k is BlockEnd && d > 0 {
                d - 1
            } else {
                d
            },
        )
    }
}

/// The top-level tokens of a text (see [`outer_scan`]).
pub open spec fn outer_tokens(text: Seq<char>, skip_space: bool) -> Seq<TokenView> {
    outer_scan(value_tokens(text), value_tokens(text).len() as int, skip_space).0
}

/// The top-level tokens of a text, comments left out, and whitespace too where
/// `skip_space` is set; nested blocks are skipped after the token that opens them.
pub fn read_outer_tokens(text: &str, skip_space: bool) -> (r: Vec<CssToken>)
    ensures
        views(r@) == outer_tokens(text@, skip_space),
{
    let toks = tokenize_value(text);
    let n = toks.len();
    let mut out: Vec<CssToken> = Vec::new();
    let mut depth: usize = 0;
    let mut i: usize = 0;
    while i < n
        invariant
            n == toks@.len(),
            i <= n,
            depth <= i,
            views(toks@) == value_tokens(text@),
            views(out@) == outer_scan(views(toks@), i as int, skip_space).0,
            depth == outer_scan(views(toks@), i as int, skip_space).1,
        decreases n - i,
    {
        let ghost before = out@;
        let t = &toks[i];
        let (is_end, is_comment, is_space) = match t.kind {
            TokenKind::BlockEnd => (true, false, false),
            TokenKind::Comment => (false, true, false),
            TokenKind::WhiteSpace => (false, false, true),
            _ => (false, false, false),
        };
        if depth == 0 && !is_end && !is_comment && !(skip_space && is_space) {
            out.push(t.clone_token());
            proof {
                lemma_views_push(before, out@.last());
            }
        }
        if opens_block_kind(&t.kind) {
            depth = depth + 1;
        } else if is_end && depth > 0 {
            depth = depth - 1;
        }
        i = i + 1;
    }
    proof {
        assert(views(toks@).len() == toks@.len());
    }
    out
}

impl TokenKind {
    /// A copy of the token kind.
    pub fn clone_kind(&self) -> (r: TokenKind)
        ensures
            r@ == self@,
    {
        match self {
            TokenKind::WhiteSpace => TokenKind::WhiteSpace,
            TokenKind::Comment => TokenKind::Comment,
            TokenKind::Ident(n) => TokenKind::Ident(copy_text(n)),
            TokenKind::Function(n) => TokenKind::Function(copy_text(n)),
            TokenKind::ParenthesisBlock => TokenKind::ParenthesisBlock,
            TokenKind::SquareBracketBlock => TokenKind::SquareBracketBlock,
            TokenKind::CurlyBracketBlock => TokenKind::CurlyBracketBlock,
            TokenKind::CloseParenthesis => TokenKind::CloseParenthesis,
            TokenKind::CloseSquareBracket => TokenKind::CloseSquareBracket,
            TokenKind::CloseCurlyBracket => TokenKind::CloseCurlyBracket,
            TokenKind::Comma => TokenKind::Comma,
            TokenKind::Delim(c) => TokenKind::Delim(*c),
            TokenKind::Colon => TokenKind::Colon,
            TokenKind::IDHash(n) => TokenKind::IDHash(copy_text(n)),
            TokenKind::Hash(n) => TokenKind::Hash(copy_text(n)),
            TokenKind::Number(v) => TokenKind::Number(*v),
            TokenKind::QuotedString => TokenKind::QuotedString,
            TokenKind::Other => TokenKind::Other,
            TokenKind::BlockEnd => TokenKind::BlockEnd,
            TokenKind::Unopened => TokenKind::Unopened,
        }
    }
}

impl CssToken {
    /// A copy of the token.
    pub fn clone_token(&self) -> (r: CssToken)
        ensures
            r@ == self@,
    {
        CssToken { kind: self.kind.clone_kind(), text: copy_text(&self.text) }
    }
}

/// A copy of a text.
pub fn copy_text(s: &String) -> (r: String)
    ensures
        r@ == s@,
{
    let mut r = String::new();
    r.append(s.as_str());
    proof {
        assert(r@ =~= s@);
    }
    r
}

} // verus!
