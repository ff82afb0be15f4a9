use vstd::prelude::*;
use crate::container::{condition_spans, container_end, container_is, Container};
use crate::import::{import_end, import_is, Import};
use crate::media::{media_is, media_rule_end, query_spans, Media};
use crate::sheet::{
    block_close, decls_end, rule_end, rule_parse_end, rule_set_end, value_end, consume_declarations, consume_rule, consume_rule_set, read_block, rule_spans,
    skip_rule, rule_is, rule_set_is, decls_is, lemma_rule_spans_cons,
    Declaration, Rule,
};
use crate::stream::{
    string_at, tok, ident_end, is_space, is_space_byte, starts_at, trimmed, trivia_end, until_end, ordered, Error,
    Span, Stream, AT, BANG, COMMA, DQUOTE, EQ, GT, LBRACE, LPAREN, LT, RBRACE, RPAREN, SEMI, SPACE,
};
use crate::supports::{supports_rule_end, supports_rule_is, Supports};

verus! {

/// The bytes of `not`.
pub open spec fn kw_not() -> Seq<u8> {
    seq![110u8, 111, 116]
}

/// The bytes of `and`.
pub open spec fn kw_and() -> Seq<u8> {
    seq![97u8, 110, 100]
}

/// The bytes of `or`.
pub open spec fn kw_or() -> Seq<u8> {
    seq![111u8, 114]
}

/// The bytes of `only`.
pub open spec fn kw_only() -> Seq<u8> {
    seq![111u8, 110, 108, 121]
}

/// `kw` stands at `p` and is followed by white space or by the end of input.
pub open spec fn keyword_at(d: Seq<u8>, p: int, kw: Seq<u8>) -> bool {
    &&& starts_at(d, p, kw)
    &&& (p + kw.len() == d.len() || is_space(d[p + kw.len()]))
}

/// At `q` a nested group starts: the keyword `not` or an opening parenthesis.
pub open spec fn opens_group(d: Seq<u8>, q: int) -> bool {
    keyword_at(d, q, kw_not()) || (0 <= q < d.len() && d[q] == LPAREN)
}

/// Tells whether the input at the cursor holds the keyword `keyword`, followed
/// by white space or by the end of input; nothing is consumed.
pub fn is_keyword(s: &Stream, keyword: &[u8]) -> (r: bool)
    requires
        s.wf(),
    ensures
        r == keyword_at(s.text(), s.at(), keyword@),
{
    if !s.starts_with(keyword) {
        return false;
    }
    let end = s.pos() + keyword.len();
    if end == s.len() {
        return true;
    }
    is_space_byte(s.byte_at(end))
}

pub fn is_not(s: &Stream) -> (r: bool)
    requires
        s.wf(),
    ensures
        r == keyword_at(s.text(), s.at(), kw_not()),
{
    let kw: [u8; 3] = [110, 111, 116];
    assert(kw@ == kw_not());
    is_keyword(s, &kw)
}

pub fn is_and(s: &Stream) -> (r: bool)
    requires
        s.wf(),
    ensures
        r == keyword_at(s.text(), s.at(), kw_and()),
{
    let kw: [u8; 3] = [97, 110, 100];
    assert(kw@ == kw_and());
    is_keyword(s, &kw)
}

pub fn is_or(s: &Stream) -> (r: bool)
    requires
        s.wf(),
    ensures
        r == keyword_at(s.text(), s.at(), kw_or()),
{
    let kw: [u8; 2] = [111, 114];
    assert(kw@ == kw_or());
    is_keyword(s, &kw)
}

pub fn is_only(s: &Stream) -> (r: bool)
    requires
        s.wf(),
    ensures
        r == keyword_at(s.text(), s.at(), kw_only()),
{
    let kw: [u8; 4] = [111, 110, 108, 121];
    assert(kw@ == kw_only());
    is_keyword(s, &kw)
}

proof fn lemma_single_eq(a: u8, x: u8)
    ensures
        (seq![a] == seq![x]) <==> (a == x),
{
    if seq![a] == seq![x] {
        assert(seq![a][0] == seq![x][0]);
    }
    if a == x {
        assert(seq![a] =~= seq![x]);
    }
}

proof fn lemma_pair_eq(a: u8, b: u8, x: u8, y: u8)
    ensures
        (seq![a, b] == seq![x, y]) <==> (a == x && b == y),
{
    if seq![a, b] == seq![x, y] {
        assert(seq![a, b][0] == seq![x, y][0]);
        assert(seq![a, b][1] == seq![x, y][1]);
    }
    if a == x && b == y {
        assert(seq![a, b] =~= seq![x, y]);
    }
}

/// A comparison operator.
#[derive(Clone, Copy, Debug, PartialEq, Eq, Structural)]
pub enum Comparison {
    /// `=` or `==`
    Equal,
    /// `!=`
    NotEqual,
    /// `<`
    Less,
    /// `>`
    Greater,
    /// `<=`
    LessEq,
    /// `>=`
    GreaterEq,
    /// Any other operator token, kept as it stands.
    Other(Span),
}

/// The operator that the token `tok` of `d` denotes.
pub open spec fn comparison_of(d: Seq<u8>, tok: Span) -> Comparison {
    let t = d.subrange(tok.start as int, tok.end as int);
    if t == seq![EQ] || t == seq![EQ, EQ] {
        Comparison::Equal
    } else if t == seq![GT] {
        Comparison::Greater
    } else if t == seq![LT] {
        Comparison::Less
    } else if t == seq![GT, EQ] {
        Comparison::GreaterEq
    } else if t == seq![LT, EQ] {
        Comparison::LessEq
    } else if t == seq![BANG, EQ] {
        Comparison::NotEqual
    } else {
        Comparison::Other(tok)
    }
}

/// Where `Comparison::consume` leaves the cursor when the operator token
/// starts at `p`: one byte past the run up to the next space, unless the input
/// ends there.
pub open spec fn operator_end(d: Seq<u8>, p: int) -> int {
    let u = until_end(d, p, seq![SPACE]);
    if u < d.len() {
        u + 1
    } else {
        u
    }
}

/// The operator token that `Comparison::consume` reads at `p`: the run of
/// bytes up to the next space, trimmed.
pub open spec fn operator_token(d: Seq<u8>, p: int) -> Span {
    trimmed(d, Span { start: p as usize, end: until_end(d, p, seq![SPACE]) as usize })
}

impl Comparison {
    /// The text leaves, in the order of the tree.
    pub open spec fn spans(&self) -> Seq<Span> {
        match self {
            Comparison::Other(t) => seq![*t],
            _ => Seq::empty(),
        }
    }

    /// Maps the token `tok` to its operator.
    pub fn classify(s: &Stream, tok: Span) -> (r: Comparison)
        requires
            tok.within(s.text().len() as int),
        ensures
            r == comparison_of(s.text(), tok),
    {
        let ghost t = s.text().subrange(tok.start as int, tok.end as int);
        let n = tok.end - tok.start;
        if n == 1 {
            let b = s.byte_at(tok.start);
            assert(t =~= seq![b]);
            proof {
                lemma_single_eq(b, EQ);
                lemma_single_eq(b, GT);
                lemma_single_eq(b, LT);
            }
            assert(t.len() == 1 && seq![EQ, EQ].len() == 2);
            if b == EQ {
                Comparison::Equal
            } else if b == GT {
                Comparison::Greater
            } else if b == LT {
                Comparison::Less
            } else {
                assert(t != seq![EQ, EQ] && t != seq![GT, EQ] && t != seq![LT, EQ] && t != seq![BANG, EQ]);
                Comparison::Other(tok)
            }
        } else if n == 2 {
            let a = s.byte_at(tok.start);
            let b = s.byte_at(tok.start + 1);
            assert(t =~= seq![a, b]);
            assert(t != seq![EQ] && t != seq![GT] && t != seq![LT]);
            proof {
                lemma_pair_eq(a, b, EQ, EQ);
                lemma_pair_eq(a, b, GT, EQ);
                lemma_pair_eq(a, b, LT, EQ);
                lemma_pair_eq(a, b, BANG, EQ);
            }
            if b != EQ {
                Comparison::Other(tok)
            } else if a == EQ {
                Comparison::Equal
            } else if a == GT {
                Comparison::GreaterEq
            } else if a == LT {
                Comparison::LessEq
            } else if a == BANG {
                Comparison::NotEqual
            } else {
                Comparison::Other(tok)
            }
        } else {
            assert(t.len() == n);
            assert(seq![EQ].len() == 1 && seq![EQ, EQ].len() == 2);
            Comparison::Other(tok)
        }
    }

    /// Reads an operator: the run of bytes up to the next space, trimmed, then
    /// one byte more (the space or the parenthesis that follows the operator).
    pub fn consume(s: &mut Stream) -> (r: Result<Comparison, Error>)
        requires
            old(s).wf(),
        ensures
            final(s).follows(*old(s)),
            r is Ok <==> trivia_end(old(s).text(), old(s).at()) is Some,
            r is Ok ==> ({
                let p = trivia_end(old(s).text(), old(s).at())->Some_0;
                let tok = operator_token(old(s).text(), p);
                &&& r == Ok::<Comparison, Error>(comparison_of(old(s).text(), tok))
                &&& final(s).at() == operator_end(old(s).text(), p)
                &&& ordered(r->Ok_0.spans(), old(s).at(), final(s).at())
            }),
    {
        match s.skip_spaces_and_comments() {
            Ok(()) => {},
            Err(e) => return Err(e),
        }
        let stops: [u8; 1] = [SPACE];
        assert(stops@ == seq![SPACE]);
        let raw = s.consume_until(&stops);
        proof {
            crate::stream::lemma_until_end(s.text(), raw.start as int, stops@);
        }
        let tok = s.trim(raw);
        s.step();
        Ok(Comparison::classify(s, tok))
    }
}

/// A combinator or modifier.
#[derive(Clone, Copy, Debug, PartialEq, Eq, Structural)]
pub enum Combinator {
    /// The next thing should not hold.
    Not,
    /// The previous or the next should hold.
    Or,
    /// The previous and the next should hold.
    And,
    /// Some other, likely custom, operator.
    Other(Span),
}

/// A keyword followed by a byte other than white space is not that keyword:
/// `not` does not stand at the start of `nothing`.
pub proof fn keyword_needs_boundary(d: Seq<u8>, p: int, kw: Seq<u8>)
    requires
        starts_at(d, p, kw),
        p + kw.len() < d.len(),
        !is_space(d[p + kw.len()]),
    ensures
        !keyword_at(d, p, kw),
{
}

/// An at-rule.
#[derive(Debug, PartialEq, Eq)]
pub enum AtRule {
    /// `@container`
    Container(Container),
    /// `@font-face`
    FontFace(Vec<Declaration>),
    /// `@import`
    Import(Import),
    /// `@keyframes`
    Keyframes {
        /// The animation name.
        name: Span,
        /// The frames, in order.
        frames: Vec<KeyFrame>,
    },
    /// `@layer`
    Layer(LayerType),
    /// `@media`
    Media(Media),
    /// `@namespace`
    Namespace {
        /// The prefix; `None` for the default namespace.
        name: Option<Span>,
        /// The namespace source, as the rule writes it.
        value: Span,
    },
    /// `@supports`
    Supports(Supports),
    /// Any other at-rule, kept as raw text.
    Other {
        /// The rule's identifier, as `made-up` in `@made-up`.
        ident: Span,
        /// What stands between the identifier and the block or `;`, trimmed.
        pre_block: Span,
        /// The inside of the block, trimmed; empty when there is no block.
        block: Span,
    },
}

/// A frame of an `@keyframes` rule.
#[derive(Debug, PartialEq, Eq)]
pub struct KeyFrame {
    /// The key: a percentage, `from` or `to`.
    pub key: Span,
    /// The declarations of the frame.
    pub declarations: Vec<Declaration>,
}

/// The two forms of `@layer`.
#[derive(Debug, PartialEq, Eq)]
pub enum LayerType {
    /// `@layer a, b;`
    Statement(Vec<Span>),
    /// `@layer name { rules }`; the name is `None` for an anonymous layer.
    Block { name: Option<Span>, rules: Vec<Rule> },
}

/// The untouched text of an at-rule: its identifier, what stands between the
/// identifier and the block or `;`, and the inside of the block if there is one.
#[derive(Clone, Copy, Debug, PartialEq, Eq, Structural)]
pub struct RawAtRule {
    pub ident: Span,
    pub prelude: Span,
    pub block: Option<Span>,
}

/// The raw form of the at-rule whose identifier starts at `p`, or `None`
/// when no identifier stands there.
pub open spec fn raw_at(d: Seq<u8>, p: int) -> Option<RawAtRule> {
    let e = ident_end(d, p, false);
    let u = until_end(d, e, seq![SEMI, LBRACE]);
    let c = block_close(d, u + 1, 0);
    if e <= p {
        None
    } else {
        Some(
            RawAtRule {
                ident: Span { start: p as usize, end: e as usize },
                prelude: Span { start: e as usize, end: u as usize },
                block: if u < d.len() && d[u] == LBRACE && c < d.len() {
                    Some(Span { start: (u + 1) as usize, end: c as usize })
                } else {
                    None
                },
            },
        )
    }
}

/// The at-rule `x` has the variant that the identifier at `p` selects; an
/// unknown identifier gives `Other` with that identifier.
pub open spec fn at_rule_tag_is(d: Seq<u8>, p: int, x: AtRule) -> bool {
    let e = ident_end(d, p, false);
    let t = d.subrange(p, e);
    match x {
        AtRule::Container(_) => t == name_container(),
        AtRule::FontFace(l) => t == name_font_face() && font_face_is(d, e, l@),
        AtRule::Import(i) => t == name_import() && import_is(d, e, i),
        AtRule::Keyframes { name, frames } => t == name_keyframes() && keyframes_is(
            d,
            e,
            name,
            frames@,
        ),
        AtRule::Layer(l) => t == name_layer() && layer_is(d, e, l),
        AtRule::Media(m) => t == name_media() && media_is(d, e, m),
        AtRule::Namespace { name, value } => t == name_namespace() && (namespace_parse(d, e) matches Some(
            (n2, v2, _),
        ) && n2 == name && v2 == value),
        AtRule::Supports(x) => t == name_supports() && supports_rule_is(d, e, x),
        AtRule::Other { ident, pre_block, block } => !known_rule(t) && ident == Span {
            start: p as usize,
            end: e as usize,
        } && (other_rule(d, e) matches Some((pb, bl, _)) && pb == pre_block && bl == block),
    }
}

/// Reads the raw form of the at-rule whose identifier starts at the cursor
/// (after its `@`), and puts the cursor back where it was.
pub fn peek_at_rule(s: &mut Stream) -> (r: Option<RawAtRule>)
    requires
        old(s).wf(),
    ensures
        final(s).text() == old(s).text(),
        final(s).at() == old(s).at(),
        final(s).wf(),
        r == raw_at(old(s).text(), old(s).at()),
        ({
            let d = old(s).text();
            let p = old(s).at();
            let e = ident_end(d, p, false);
            &&& r is Some <==> e > p
            &&& r matches Some(raw) ==> raw.ident == Span { start: p as usize, end: e as usize }
                && raw.prelude == Span {
                start: e as usize,
                end: until_end(d, e, seq![SEMI, LBRACE]) as usize,
            }
            &&& r matches Some(raw) ==> ({
                let u = until_end(d, e, seq![SEMI, LBRACE]);
                let c = block_close(d, u + 1, 0);
                raw.block == if u < d.len() && d[u] == LBRACE && c < d.len() {
                    Some(Span { start: (u + 1) as usize, end: c as usize })
                } else {
                    None
                }
            })
        }),
{
    let start = s.pos();
    let ident = match s.consume_ident() {
        Ok(i) => i,
        Err(_) => return None,
    };
    let stops: [u8; 2] = [SEMI, LBRACE];
    assert(stops@ == seq![SEMI, LBRACE]);
    let prelude = s.consume_until(&stops);
    let block = if s.is_curr(LBRACE) {
        match read_block(s) {
            Ok(b) => Some(b),
            Err(_) => None,
        }
    } else {
        None
    };
    s.reset_pos(start);
    Some(RawAtRule { ident, prelude, block })
}

/// A style sheet: ordinary rules and at-rules, each list in source order.
#[derive(Debug, PartialEq, Eq)]
pub struct StyleSheet {
    pub rules: Vec<Rule>,
    pub at_rules: Vec<AtRule>,
}

/// The bytes of `container`.
pub open spec fn name_container() -> Seq<u8> {
    seq![99u8, 111, 110, 116, 97, 105, 110, 101, 114]
}

/// The bytes of `font-face`.
pub open spec fn name_font_face() -> Seq<u8> {
    seq![102u8, 111, 110, 116, 45, 102, 97, 99, 101]
}

/// The bytes of `import`.
pub open spec fn name_import() -> Seq<u8> {
    seq![105u8, 109, 112, 111, 114, 116]
}

/// The bytes of `keyframes`.
pub open spec fn name_keyframes() -> Seq<u8> {
    seq![107u8, 101, 121, 102, 114, 97, 109, 101, 115]
}

/// The bytes of `layer`.
pub open spec fn name_layer() -> Seq<u8> {
    seq![108u8, 97, 121, 101, 114]
}

/// The bytes of `media`.
pub open spec fn name_media() -> Seq<u8> {
    seq![109u8, 101, 100, 105, 97]
}

/// The bytes of `namespace`.
pub open spec fn name_namespace() -> Seq<u8> {
    seq![110u8, 97, 109, 101, 115, 112, 97, 99, 101]
}

/// The bytes of `supports`.
pub open spec fn name_supports() -> Seq<u8> {
    seq![115u8, 117, 112, 112, 111, 114, 116, 115]
}

/// `t` names one of the at-rules that have a grammar of their own.
pub open spec fn known_rule(t: Seq<u8>) -> bool {
    t == name_container() || t == name_font_face() || t == name_import() || t == name_keyframes()
        || t == name_layer() || t == name_media() || t == name_namespace() || t == name_supports()
}

/// The text of `sp` is `lit`.
fn span_is(s: &Stream, sp: Span, lit: &[u8]) -> (r: bool)
    requires
        sp.within(s.text().len() as int),
    ensures
        r == (s.text().subrange(sp.start as int, sp.end as int) == lit@),
{
    if sp.end - sp.start != lit.len() {
        return false;
    }
    let mut i: usize = 0;
    while i < lit.len()
        invariant
            i <= lit.len(),
            sp.end - sp.start == lit.len(),
            sp.within(s.text().len() as int),
            forall|j: int| 0 <= j < i ==> s.text()[sp.start + j] == lit@[j],
        decreases lit.len() - i,
    {
        if s.byte_at(sp.start + i) != lit[i] {
            assert(s.text().subrange(sp.start as int, sp.end as int)[i as int] != lit@[i as int]);
            return false;
        }
        i += 1;
    }
    assert(s.text().subrange(sp.start as int, sp.end as int) =~= lit@);
    true
}

/// Where the frames of an `@keyframes` block read at `p` (after its `{`)
/// end, after the closing `}`, or `None`.
pub open spec fn frames_end(d: Seq<u8>, p: int) -> Option<int>
    decreases d.len() - p,
{
    if p < 0 || p > d.len() {
        None
    } else {
        match tok(d, p) {
            None => None,
            Some(a) => {
                let e = ident_end(d, a, true);
                if e <= a {
                    None
                } else {
                    match tok(d, e) {
                        None => None,
                        Some(b) => if !(b < d.len() && d[b] == LBRACE) {
                            None
                        } else {
                            match decls_end(d, b + 1) {
                                None => None,
                                Some(f) => {
                                    let f2 = if f < d.len() && d[f] == RBRACE {
                                        f + 1
                                    } else {
                                        f
                                    };
                                    match tok(d, f2) {
                                        None => None,
                                        Some(g) => if g >= d.len() {
                                            None
                                        } else if d[g] == RBRACE {
                                            Some(g + 1)
                                        } else if p < g {
                                            frames_end(d, g)
                                        } else {
                                            None
                                        },
                                    }
                                },
                            }
                        },
                    }
                }
            },
        }
    }
}

/// Where `@keyframes` read after its name, at `p`, ends, or `None`.
#[verifier::opaque]
pub open spec fn keyframes_end(d: Seq<u8>, p: int) -> Option<int> {
    match tok(d, p) {
        None => None,
        Some(a) => {
            let e = ident_end(d, a, false);
            if e <= a {
                None
            } else {
                match tok(d, e) {
                    None => None,
                    Some(b) => if b < d.len() && d[b] == LBRACE {
                        frames_end(d, b + 1)
                    } else {
                        None
                    },
                }
            }
        },
    }
}

/// Where `@font-face` read after its name, at `p`, ends, or `None`.
#[verifier::opaque]
pub open spec fn font_face_end(d: Seq<u8>, p: int) -> Option<int> {
    match tok(d, p) {
        None => None,
        Some(a) => {
            let a1 = if a < d.len() && d[a] == LBRACE {
                a + 1
            } else {
                a
            };
            match decls_end(d, a1) {
                None => None,
                Some(f) => match tok(d, f) {
                    None => None,
                    Some(g) => Some(
                        if g < d.len() && d[g] == RBRACE {
                            g + 1
                        } else {
                            g
                        },
                    ),
                },
            }
        },
    }
}

/// Where an at-rule read at `p` (after its `@`) ends, or `None` when it
/// cannot be read; the identifier chooses the grammar.
pub open spec fn at_rule_end(d: Seq<u8>, p: int) -> Option<int>
    decreases d.len() - p, 2int,
{
    let e = ident_end(d, p, false);
    if p < 0 || e <= p || e > d.len() {
        None
    } else {
        let t = d.subrange(p, e);
        if t == name_container() {
            container_end(d, e)
        } else if t == name_font_face() {
            font_face_end(d, e)
        } else if t == name_import() {
            import_end(d, e)
        } else if t == name_keyframes() {
            keyframes_end(d, e)
        } else if t == name_layer() {
            layer_end(d, e)
        } else if t == name_media() {
            media_rule_end(d, e)
        } else if t == name_namespace() {
            match namespace_parse(d, e) {
                Some((_, _, z)) => Some(z),
                None => None,
            }
        } else if t == name_supports() {
            supports_rule_end(d, e)
        } else {
            match other_rule(d, e) {
                Some((_, _, z)) => Some(z),
                None => None,
            }
        }
    }
}

/// Where reading a style sheet at `p` stops: at the end of input, at an
/// unterminated comment, or, when `nested`, at the `}` that closes the block.
/// A rule or at-rule that cannot be read is skipped to [`rule_end`].
pub open spec fn sheet_end(d: Seq<u8>, p: int, nested: bool) -> int
    decreases d.len() - p, 0int,
{
    if p < 0 || p >= d.len() {
        p
    } else {
        match trivia_end(d, p) {
            None => p,
            Some(a) => if !(p <= a < d.len()) {
                a
            } else if d[a] == RBRACE {
                if nested {
                    a
                } else {
                    sheet_end(d, a + 1, nested)
                }
            } else {
                let n = if d[a] == AT {
                    match at_rule_end(d, a + 1) {
                        Some(e) => if 0 <= e < d.len() && d[e] == SEMI {
                            e + 1
                        } else {
                            e
                        },
                        None => rule_end(d, a, 0),
                    }
                } else {
                    match rule_parse_end(d, a) {
                        Some(e) => e,
                        None => rule_end(d, a, 0),
                    }
                };
                if p < n <= d.len() {
                    sheet_end(d, n, nested)
                } else {
                    a
                }
            },
        }
    }
}

/// The rules, at-rules and raw at-rules that reading a style sheet at `p`
/// gives, each list in source order: a rule or at-rule that cannot be read is
/// skipped to [`rule_end`] and the ones after it are still read; each
/// at-rule met leaves its raw form, whether it parses or not.
#[verifier::opaque]
pub open spec fn sheet_is(
    d: Seq<u8>,
    p: int,
    nested: bool,
    rules: Seq<Rule>,
    ats: Seq<AtRule>,
    raws: Seq<RawAtRule>,
) -> bool
    decreases d.len() - p,
{
    let none = rules.len() == 0 && ats.len() == 0 && raws.len() == 0;
    if p < 0 || p >= d.len() {
        none
    } else {
        match trivia_end(d, p) {
            None => none,
            Some(a) => if !(p <= a < d.len()) {
                none
            } else if d[a] == RBRACE {
                if nested {
                    none
                } else {
                    sheet_is(d, a + 1, nested, rules, ats, raws)
                }
            } else if d[a] == AT {
                let raw_ok = match raw_at(d, a + 1) {
                    Some(x) => raws.len() > 0 && raws[0] == x,
                    None => true,
                };
                let raws_rest = match raw_at(d, a + 1) {
                    Some(_) => raws.subrange(1, raws.len() as int),
                    None => raws,
                };
                match at_rule_end(d, a + 1) {
                    Some(e) => {
                        let n = if 0 <= e < d.len() && d[e] == SEMI {
                            e + 1
                        } else {
                            e
                        };
                        if !(p < n <= d.len()) {
                            none
                        } else {
                            raw_ok && ats.len() > 0 && at_rule_tag_is(d, a + 1, ats[0]) && sheet_is(
                                d,
                                n,
                                nested,
                                rules,
                                ats.subrange(1, ats.len() as int),
                                raws_rest,
                            )
                        }
                    },
                    None => {
                        let n = rule_end(d, a, 0);
                        if !(p < n <= d.len()) {
                            none
                        } else {
                            raw_ok && sheet_is(d, n, nested, rules, ats, raws_rest)
                        }
                    },
                }
            } else {
                match rule_parse_end(d, a) {
                    Some(e) => if !(p < e <= d.len()) {
                        none
                    } else {
                        rules.len() > 0 && rule_is(d, a, rules[0]) && sheet_is(
                            d,
                            e,
                            nested,
                            rules.subrange(1, rules.len() as int),
                            ats,
                            raws,
                        )
                    },
                    None => {
                        let n = rule_end(d, a, 0);
                        if !(p < n <= d.len()) {
                            none
                        } else {
                            sheet_is(d, n, nested, rules, ats, raws)
                        }
                    },
                }
            },
        }
    }
}

/// `l` is the frames that reading an `@keyframes` block at `p` (after its
/// `{`) gives: each key with its declarations, in source order.
pub open spec fn frames_is(d: Seq<u8>, p: int, l: Seq<KeyFrame>) -> bool
    decreases l.len(),
{
    let a = tok(d, p)->Some_0;
    let e = ident_end(d, a, true);
    let b = tok(d, e)->Some_0;
    let f = decls_end(d, b + 1)->Some_0;
    let f2 = if f < d.len() && d[f] == RBRACE {
        f + 1
    } else {
        f
    };
    let g = tok(d, f2)->Some_0;
    &&& l.len() > 0
    &&& l[0].key == Span { start: a as usize, end: e as usize }
    &&& decls_is(d, b + 1, l[0].declarations@)
    &&& if g < d.len() && d[g] == RBRACE {
        l.len() == 1
    } else {
        frames_is(d, g, l.subrange(1, l.len() as int))
    }
}

/// Reads the frames of an `@keyframes` block, after its `{`, through the closing `}`.
#[verifier::spinoff_prover]
fn consume_frames(s: &mut Stream) -> (r: Result<Vec<KeyFrame>, Error>)
    requires
        old(s).wf(),
    ensures
        final(s).follows(*old(s)),
        r is Ok ==> final(s).at() > old(s).at(),
        r is Ok <==> frames_end(old(s).text(), old(s).at()) is Some,
        r is Ok ==> final(s).at() == frames_end(old(s).text(), old(s).at())->Some_0,
        r is Ok ==> frames_is(old(s).text(), old(s).at(), r->Ok_0@),
    decreases old(s).rest_len(),
{
    match s.skip_spaces_and_comments() {
        Ok(()) => {},
        Err(e) => return Err(e),
    }
    let key = match s.consume_ident_special() {
        Ok(k) => k,
        Err(e) => return Err(e),
    };
    match s.skip_spaces_and_comments() {
        Ok(()) => {},
        Err(e) => return Err(e),
    }
    match s.consume_byte(LBRACE) {
        Ok(()) => {},
        Err(e) => return Err(e),
    }
    let declarations = match consume_declarations(s) {
        Ok(d) => d,
        Err(e) => return Err(e),
    };
    let frame = KeyFrame { key, declarations };
    s.try_consume_byte(RBRACE);
    match s.skip_spaces_and_comments() {
        Ok(()) => {},
        Err(e) => return Err(e),
    }
    let b = match s.curr_byte() {
        Ok(b) => b,
        Err(e) => return Err(e),
    };
    if b == RBRACE {
        s.advance(1);
        let mut v: Vec<KeyFrame> = Vec::new();
        let ghost f2 = frame;
        v.push(frame);
        assert(v@ =~= seq![f2]);
        return Ok(v);
    }
    let mut rest = match consume_frames(s) {
        Ok(l) => l,
        Err(e) => return Err(e),
    };
    let ghost tail = rest@;
    let ghost f2 = frame;
    rest.insert(0, frame);
    proof {
        assert(rest@ =~= seq![f2] + tail);
        assert(rest@.subrange(1, rest@.len() as int) =~= tail);
    }
    Ok(rest)
}

/// Where the names of an `@layer` statement read from the `,` or `;` at `q`
/// end, after the `;`, or `None`.
pub open spec fn layer_names_end(d: Seq<u8>, q: int) -> Option<int>
    decreases d.len() - q,
{
    if q < 0 || q > d.len() {
        None
    } else if q < d.len() && d[q] == COMMA {
        match tok(d, q + 1) {
            None => None,
            Some(c) => {
                let e = ident_end(d, c, false);
                if e <= c {
                    None
                } else {
                    match tok(d, e) {
                        None => None,
                        Some(q2) => if q < q2 <= d.len() {
                            layer_names_end(d, q2)
                        } else {
                            None
                        },
                    }
                }
            },
        }
    } else if q < d.len() && d[q] == SEMI {
        Some(q + 1)
    } else {
        None
    }
}

/// Where `@layer` read after its name, at `p`, ends, or `None`.
pub open spec fn layer_end(d: Seq<u8>, p: int) -> Option<int> {
    match tok(d, p) {
        None => None,
        Some(a) => {
            let named = !(a < d.len() && d[a] == LBRACE);
            let e = if named {
                ident_end(d, a, false)
            } else {
                a
            };
            if named && e <= a {
                None
            } else {
                match tok(d, e) {
                    None => None,
                    Some(b) => if b >= d.len() {
                        None
                    } else if d[b] == LBRACE {
                        match tok(d, b + 1) {
                            None => None,
                            Some(c) => match rule_set_end(d, c) {
                                None => None,
                                Some(f) => match tok(d, f) {
                                    None => None,
                                    Some(g) => Some(
                                        if g < d.len() && d[g] == RBRACE {
                                            g + 1
                                        } else {
                                            g
                                        },
                                    ),
                                },
                            },
                        }
                    } else if !named {
                        None
                    } else if d[b] == COMMA {
                        layer_names_end(d, b)
                    } else if d[b] == SEMI {
                        Some(b + 1)
                    } else {
                        None
                    },
                }
            }
        },
    }
}

/// `name` and `frames` are what reading `@keyframes` after its name, at `p`,
/// gives.
#[verifier::opaque]
pub open spec fn keyframes_is(d: Seq<u8>, p: int, name: Span, frames: Seq<KeyFrame>) -> bool {
    let a = tok(d, p)->Some_0;
    &&& name == Span { start: a as usize, end: ident_end(d, a, false) as usize }
    &&& frames_is(d, tok(d, name.end as int)->Some_0 + 1, frames)
}

/// `x` is what reading `@layer` after its name, at `p`, gives: the names of a
/// statement, or the name and rules of a block.
#[verifier::opaque]
pub open spec fn layer_is(d: Seq<u8>, p: int, x: LayerType) -> bool {
    let a = tok(d, p)->Some_0;
    let named = !(a < d.len() && d[a] == LBRACE);
    let first = Span { start: a as usize, end: ident_end(d, a, false) as usize };
    match x {
        LayerType::Statement(names) => named && names@.len() >= 1 && names@[0] == first
            && layer_names_is(d, tok(d, first.end as int)->Some_0, names@.subrange(1, names@.len() as int)),
        LayerType::Block { name, rules } => {
            let b = tok(d, if named { first.end as int } else { a })->Some_0;
            &&& name == if named {
                Some(first)
            } else {
                None
            }
            &&& rule_set_is(d, tok(d, b + 1)->Some_0, rules@)
        },
    }
}

/// `l` is the declarations that reading `@font-face` after its name, at
/// `p`, gives.
#[verifier::opaque]
pub open spec fn font_face_is(d: Seq<u8>, p: int, l: Seq<Declaration>) -> bool {
    let a = tok(d, p)->Some_0;
    decls_is(d, if a < d.len() && d[a] == LBRACE { a + 1 } else { a }, l)
}

/// Reads what follows `@font-face`: its declaration block.
#[verifier::spinoff_prover]
fn consume_font_face(s: &mut Stream) -> (r: Result<Vec<Declaration>, Error>)
    requires
        old(s).wf(),
    ensures
        final(s).follows(*old(s)),
        r is Ok <==> font_face_end(old(s).text(), old(s).at()) is Some,
        r is Ok ==> final(s).at() == font_face_end(old(s).text(), old(s).at())->Some_0,
        r is Ok ==> font_face_is(old(s).text(), old(s).at(), r->Ok_0@),
{
    proof {
        reveal(font_face_is);
        reveal(font_face_end);
    }
    match s.skip_spaces_and_comments() {
        Ok(()) => {},
        Err(e) => return Err(e),
    }
    s.try_consume_byte(LBRACE);
    let declarations = match consume_declarations(s) {
        Ok(d) => d,
        Err(e) => return Err(e),
    };
    match s.skip_spaces_and_comments() {
        Ok(()) => {},
        Err(e) => return Err(e),
    }
    s.try_consume_byte(RBRACE);
    Ok(declarations)
}

/// Reads what follows `@keyframes`: the animation name and the frames.
#[verifier::spinoff_prover]
fn consume_keyframes(s: &mut Stream) -> (r: Result<(Span, Vec<KeyFrame>), Error>)
    requires
        old(s).wf(),
    ensures
        final(s).follows(*old(s)),
        r is Ok <==> keyframes_end(old(s).text(), old(s).at()) is Some,
        r is Ok ==> final(s).at() == keyframes_end(old(s).text(), old(s).at())->Some_0,
        r matches Ok((name, _)) ==> ({
            let a = tok(old(s).text(), old(s).at())->Some_0;
            name == Span { start: a as usize, end: ident_end(old(s).text(), a, false) as usize }
        }),
        r matches Ok((name, frames)) ==> keyframes_is(old(s).text(), old(s).at(), name, frames@),
{
    proof {
        reveal(keyframes_end);
        reveal(keyframes_is);
    }
    match s.skip_spaces_and_comments() {
        Ok(()) => {},
        Err(e) => return Err(e),
    }
    let name = match s.consume_ident() {
        Ok(n) => n,
        Err(e) => return Err(e),
    };
    match s.skip_spaces_and_comments() {
        Ok(()) => {},
        Err(e) => return Err(e),
    }
    match s.consume_byte(LBRACE) {
        Ok(()) => {},
        Err(e) => return Err(e),
    }
    match consume_frames(s) {
        Ok(frames) => Ok((name, frames)),
        Err(e) => Err(e),
    }
}

/// `l` is the names after the first of an `@layer` statement, read from the
/// `,` or `;` at `q`.
pub open spec fn layer_names_is(d: Seq<u8>, q: int, l: Seq<Span>) -> bool
    decreases l.len(),
{
    if q < d.len() && d[q] == COMMA {
        let c = tok(d, q + 1)->Some_0;
        let e = ident_end(d, c, false);
        l.len() > 0 && l[0] == Span { start: c as usize, end: e as usize } && layer_names_is(
            d,
            tok(d, e)->Some_0,
            l.subrange(1, l.len() as int),
        )
    } else {
        l.len() == 0
    }
}

/// Reads the names after the first of an `@layer` statement, from the `,`
/// or `;` at the cursor, through the closing `;`.
#[verifier::spinoff_prover]
fn consume_more_names(s: &mut Stream) -> (r: Result<Vec<Span>, Error>)
    requires
        old(s).wf(),
    ensures
        final(s).follows(*old(s)),
        r is Ok <==> layer_names_end(old(s).text(), old(s).at()) is Some,
        r is Ok ==> final(s).at() == layer_names_end(old(s).text(), old(s).at())->Some_0,
        r is Ok ==> layer_names_is(old(s).text(), old(s).at(), r->Ok_0@),
        r is Ok ==> ordered(r->Ok_0@, old(s).at(), final(s).at()),
    decreases old(s).rest_len(),
{
    if !s.is_curr(COMMA) {
        match s.consume_byte(SEMI) {
            Ok(()) => {},
            Err(e) => return Err(e),
        }
        let v: Vec<Span> = Vec::new();
        return Ok(v);
    }
    s.advance(1);
    match s.skip_spaces_and_comments() {
        Ok(()) => {},
        Err(e) => return Err(e),
    }
    let q = s.pos();
    let n = match s.consume_ident() {
        Ok(n) => n,
        Err(e) => return Err(e),
    };
    match s.skip_spaces_and_comments() {
        Ok(()) => {},
        Err(e) => return Err(e),
    }
    let m = s.pos();
    let mut rest = match consume_more_names(s) {
        Ok(l) => l,
        Err(e) => return Err(e),
    };
    proof {
        assert(seq![n][0] == n);
        crate::stream::lemma_ordered_widen(seq![n], q as int, m as int, q as int, m as int);
        crate::stream::lemma_ordered_concat(seq![n], rest@, q as int, m as int, s.at());
    }
    let ghost tail = rest@;
    rest.insert(0, n);
    proof {
        assert(rest@ =~= seq![n] + tail);
        assert(rest@.subrange(1, rest@.len() as int) =~= tail);
    }
    Ok(rest)
}

/// Reads what follows `@layer`: `name { rules }`, `{ rules }`, `a, b;` or `a;`.
#[verifier::spinoff_prover]
fn consume_layer(s: &mut Stream) -> (r: Result<LayerType, Error>)
    requires
        old(s).wf(),
    ensures
        final(s).follows(*old(s)),
        r matches Ok(LayerType::Statement(names)) ==> names@.len() >= 1 && ordered(
            names@,
            old(s).at(),
            final(s).at(),
        ),
        r matches Ok(LayerType::Block { name: Some(n), .. }) ==> ordered(
            seq![n],
            old(s).at(),
            final(s).at(),
        ),
        r is Ok <==> layer_end(old(s).text(), old(s).at()) is Some,
        r is Ok ==> final(s).at() == layer_end(old(s).text(), old(s).at())->Some_0,
        ({
            let d = old(s).text();
            let a = tok(d, old(s).at())->Some_0;
            let named = !(a < d.len() && d[a] == LBRACE);
            let first = Span { start: a as usize, end: ident_end(d, a, false) as usize };
            &&& r matches Ok(LayerType::Block { name, .. }) ==> name == if named {
                Some(first)
            } else {
                None
            }
            &&& r matches Ok(LayerType::Statement(names)) ==> named && names@[0] == first
            &&& r matches Ok(LayerType::Statement(names)) ==> layer_names_is(
                d,
                tok(d, first.end as int)->Some_0,
                names@.subrange(1, names@.len() as int),
            )
            &&& r matches Ok(LayerType::Block { rules, .. }) ==> ({
                let b = tok(d, if named { first.end as int } else { a })->Some_0;
                rule_set_is(d, tok(d, b + 1)->Some_0, rules@)
            })
        }),
        r is Ok ==> layer_is(old(s).text(), old(s).at(), r->Ok_0),
{
    proof {
        reveal(layer_is);
    }
    match s.skip_spaces_and_comments() {
        Ok(()) => {},
        Err(e) => return Err(e),
    }
    let name = if s.is_curr(LBRACE) {
        None
    } else {
        match s.consume_ident() {
            Ok(n) => Some(n),
            Err(e) => return Err(e),
        }
    };
    match s.skip_spaces_and_comments() {
        Ok(()) => {},
        Err(e) => return Err(e),
    }
    let b = match s.curr_byte() {
        Ok(b) => b,
        Err(e) => return Err(e),
    };
    if b == LBRACE {
        s.advance(1);
        match s.skip_spaces_and_comments() {
            Ok(()) => {},
            Err(e) => return Err(e),
        }
        let rules = match consume_rule_set(s) {
            Ok(r) => r,
            Err(e) => return Err(e),
        };
        match s.skip_spaces_and_comments() {
            Ok(()) => {},
            Err(e) => return Err(e),
        }
        s.try_consume_byte(RBRACE);
        return Ok(LayerType::Block { name, rules });
    }
    let first = match name {
        Some(n) => n,
        None => return Err(Error::InvalidIdent(s.pos())),
    };
    if b == COMMA {
        let more = match consume_more_names(s) {
            Ok(l) => l,
            Err(e) => return Err(e),
        };
        let mut names = more;
        let ghost tail = names@;
        names.insert(0, first);
        proof {
            assert(names@ =~= seq![first] + tail);
            assert(names@.subrange(1, names@.len() as int) =~= tail);
            assert(seq![first][0] == first);
        }
        Ok(LayerType::Statement(names))
    } else if b == SEMI {
        s.advance(1);
        let mut names: Vec<Span> = Vec::new();
        names.push(first);
        assert(names@ =~= seq![first]);
        assert(names@.subrange(1, names@.len() as int) =~= Seq::<Span>::empty());
        Ok(LayerType::Statement(names))
    } else {
        Err(Error::InvalidIdent(s.pos()))
    }
}

/// What reading `@namespace` after its name, at `p`, gives: the prefix, the
/// value as each form captures it, and where the cursor ends; `None` on failure.
pub open spec fn namespace_parse(d: Seq<u8>, p: int) -> Option<(Option<Span>, Span, int)> {
    match tok(d, p) {
        None => None,
        Some(a) => if a >= d.len() {
            None
        } else if d[a] == DQUOTE {
            match string_at(d, a) {
                None => None,
                Some((v, e)) => match tok(d, e) {
                    None => None,
                    Some(z) => if z < d.len() && d[z] == SEMI {
                        Some((None, v, z + 1))
                    } else {
                        None
                    },
                },
            }
        } else {
            let e1 = ident_end(d, a, false);
            if e1 <= a {
                None
            } else {
                match tok(d, e1) {
                    None => None,
                    Some(b) => if b >= d.len() {
                        None
                    } else if d[b] == LPAREN {
                        match tok(d, b + 1) {
                            None => None,
                            Some(c) => if c >= d.len() || d[c] == DQUOTE {
                                None
                            } else {
                                let e2 = ident_end(d, c, false);
                                if e2 <= c {
                                    None
                                } else {
                                    match tok(d, e2) {
                                        None => None,
                                        Some(z) => if z < d.len() && d[z] == RPAREN {
                                            match tok(d, z + 1) {
                                                None => None,
                                                Some(w) => if w < d.len() && d[w] == SEMI {
                                                    Some((None, Span { start: a as usize, end: (z + 1) as usize }, w + 1))
                                                } else {
                                                    None
                                                },
                                            }
                                        } else {
                                            None
                                        },
                                    }
                                }
                            },
                        }
                    } else {
                        let ve = value_end(d, b, 0, 0);
                        let t = trimmed(d, Span { start: b as usize, end: ve as usize });
                        if t.start >= t.end {
                            None
                        } else {
                            match tok(d, ve) {
                                None => None,
                                Some(w) => if w < d.len() && d[w] == SEMI {
                                    Some((Some(Span { start: a as usize, end: e1 as usize }), t, w + 1))
                                } else {
                                    None
                                },
                            }
                        }
                    },
                }
            }
        },
    }
}

/// Reads what follows `@namespace`: a quoted string, `url(...)`, or a prefix
/// followed by a value. The value keeps the text as each form writes it: the
/// inside of the quotes for a lone string, `url(...)` whole, and the value
/// after a prefix as it stands, quotes included.
#[verifier::spinoff_prover]
fn consume_namespace(s: &mut Stream) -> (r: Result<(Option<Span>, Span), Error>)
    requires
        old(s).wf(),
    ensures
        final(s).follows(*old(s)),
        r matches Ok((_, v)) ==> old(s).at() <= v.start <= v.end <= final(s).at(),
        r is Ok <==> namespace_parse(old(s).text(), old(s).at()) is Some,
        r matches Ok((n, v)) ==> namespace_parse(old(s).text(), old(s).at()) == Some(
            (n, v, final(s).at()),
        ),
{
    match s.skip_spaces_and_comments() {
        Ok(()) => {},
        Err(e) => return Err(e),
    }
    let b = match s.curr_byte() {
        Ok(b) => b,
        Err(e) => return Err(e),
    };
    if b == DQUOTE {
        let value = match s.consume_string() {
            Ok(v) => v,
            Err(e) => return Err(e),
        };
        match s.skip_spaces_and_comments() {
            Ok(()) => {},
            Err(e) => return Err(e),
        }
        return match s.consume_byte(SEMI) {
            Ok(()) => Ok((None, value)),
            Err(e) => Err(e),
        };
    }
    let start = s.pos();
    let prefix = match s.consume_ident() {
        Ok(i) => i,
        Err(e) => return Err(e),
    };
    match s.skip_spaces_and_comments() {
        Ok(()) => {},
        Err(e) => return Err(e),
    }
    let b2 = match s.curr_byte() {
        Ok(b) => b,
        Err(e) => return Err(e),
    };
    if b2 == LPAREN {
        s.advance(1);
        match s.skip_spaces_and_comments() {
            Ok(()) => {},
            Err(e) => return Err(e),
        }
        let b3 = match s.curr_byte() {
            Ok(b) => b,
            Err(e) => return Err(e),
        };
        if b3 == DQUOTE {
            match s.skip_spaces_and_comments() {
                Ok(()) => {},
                Err(e) => return Err(e),
            }
            match s.consume_byte(SEMI) {
                Ok(()) => {},
                Err(e) => return Err(e),
            }
        } else {
            match s.consume_ident() {
                Ok(_) => {},
                Err(e) => return Err(e),
            }
        }
        match s.skip_spaces_and_comments() {
            Ok(()) => {},
            Err(e) => return Err(e),
        }
        match s.consume_byte(RPAREN) {
            Ok(()) => {},
            Err(e) => return Err(e),
        }
        let value = Span { start, end: s.pos() };
        match s.skip_spaces_and_comments() {
            Ok(()) => {},
            Err(e) => return Err(e),
        }
        match s.consume_byte(SEMI) {
            Ok(()) => {},
            Err(e) => return Err(e),
        }
        Ok((None, value))
    } else {
        let value = match crate::sheet::consume_value(s) {
            Ok(v) => v,
            Err(e) => return Err(e),
        };
        assert(seq![value][0] == value);
        match s.skip_spaces_and_comments() {
            Ok(()) => {},
            Err(e) => return Err(e),
        }
        match s.consume_byte(SEMI) {
            Ok(()) => {},
            Err(e) => return Err(e),
        }
        Ok((Some(prefix), value))
    }
}

/// What reading an unknown at-rule after its identifier, at `e`, gives: the
/// trimmed text before the block or `;`, the trimmed inside of the block
/// (empty, at the cursor, when no block follows) and where the cursor ends.
pub open spec fn other_rule(d: Seq<u8>, e: int) -> Option<(Span, Span, int)> {
    let pre = until_end(d, e, seq![SEMI, LBRACE]);
    let pre_block = trimmed(d, Span { start: e as usize, end: pre as usize });
    match tok(d, pre) {
        None => None,
        Some(z) => if z < d.len() && d[z] == LBRACE {
            let c = block_close(d, z + 1, 0);
            if c < d.len() {
                Some((pre_block, trimmed(d, Span { start: (z + 1) as usize, end: c as usize }), c + 1))
            } else {
                None
            }
        } else {
            Some((pre_block, Span { start: z as usize, end: z as usize }, z))
        },
    }
}

/// Reads an at-rule that no grammar here knows: the text up to a block or
/// `;`, and the inside of the block if one follows.
fn consume_other(s: &mut Stream, ident: Span) -> (r: Result<AtRule, Error>)
    requires
        old(s).wf(),
        ident.within(old(s).at()),
    ensures
        final(s).follows(*old(s)),
        r is Ok ==> (r->Ok_0 matches AtRule::Other { ident: i, pre_block, .. } && i == ident
            && pre_block == trimmed(
            old(s).text(),
            Span {
                start: old(s).at() as usize,
                end: until_end(old(s).text(), old(s).at(), seq![SEMI, LBRACE]) as usize,
            },
        )),
        r is Err ==> r->Err_0 is InvalidComment || r->Err_0 is UnexpectedEndOfStream,
        r is Ok <==> other_rule(old(s).text(), old(s).at()) is Some,
        r is Ok ==> (r->Ok_0 matches AtRule::Other { pre_block, block, .. } && other_rule(
            old(s).text(),
            old(s).at(),
        ) == Some((pre_block, block, final(s).at()))),
        ({
            let d = old(s).text();
            let q = crate::stream::next_token(
                d,
                until_end(d, old(s).at(), seq![SEMI, LBRACE]),
            );
            !(q < d.len() && d[q] == LBRACE) ==> (r matches Ok(AtRule::Other { block, .. })
                ==> block.start == block.end)
        }),
{
    let stops: [u8; 2] = [SEMI, LBRACE];
    assert(stops@ == seq![SEMI, LBRACE]);
    let raw = s.consume_until(&stops);
    let pre_block = s.trim(raw);
    match s.skip_spaces_and_comments() {
        Ok(()) => {},
        Err(e) => return Err(e),
    }
    let block = if s.is_curr(LBRACE) {
        match read_block(s) {
            Ok(b) => s.trim(b),
            Err(_) => return Err(Error::UnexpectedEndOfStream(s.pos())),
        }
    } else {
        Span { start: s.pos(), end: s.pos() }
    };
    Ok(AtRule::Other { ident, pre_block, block })
}

impl AtRule {
    /// Reads an at-rule after its `@`: the identifier chooses the grammar,
    /// and an identifier that none knows gives `Other`.
    #[verifier::spinoff_prover]
    #[verifier::rlimit(100)]
    pub fn consume(s: &mut Stream) -> (r: Result<AtRule, Error>)
        requires
            old(s).wf(),
        ensures
            r is Ok <==> at_rule_end(old(s).text(), old(s).at()) is Some,
            r is Ok ==> final(s).at() == at_rule_end(old(s).text(), old(s).at())->Some_0,
            r is Ok ==> at_rule_tag_is(old(s).text(), old(s).at(), r->Ok_0),
            ({
                let d = old(s).text();
                let e = ident_end(d, old(s).at(), false);
                &&& r matches Ok(AtRule::Container(c)) ==> container_is(d, e, c)
                &&& r matches Ok(AtRule::Import(i)) ==> import_is(d, e, i)
                &&& r matches Ok(AtRule::Media(m)) ==> media_is(d, e, m)
                &&& r matches Ok(AtRule::Supports(x)) ==> supports_rule_is(d, e, x)
                &&& r matches Ok(AtRule::Layer(l)) ==> layer_is(d, e, l)
                &&& r matches Ok(AtRule::FontFace(l)) ==> font_face_is(d, e, l@)
                &&& r matches Ok(AtRule::Keyframes { name, frames }) ==> keyframes_is(d, e, name, frames@)
            }),
            final(s).follows(*old(s)),
            r is Ok ==> final(s).at() > old(s).at(),
            ({
                let d = old(s).text();
                let p = old(s).at();
                let e = ident_end(d, p, false);
                let t = d.subrange(p, e);
                &&& r is Ok ==> e > p
                &&& r matches Ok(AtRule::Container(_)) ==> t == name_container()
                &&& r matches Ok(AtRule::FontFace(_)) ==> t == name_font_face()
                &&& r matches Ok(AtRule::Import(_)) ==> t == name_import()
                &&& r matches Ok(AtRule::Keyframes { .. }) ==> t == name_keyframes()
                &&& r matches Ok(AtRule::Layer(_)) ==> t == name_layer()
                &&& r matches Ok(AtRule::Media(_)) ==> t == name_media()
                &&& r matches Ok(AtRule::Namespace { .. }) ==> t == name_namespace()
                &&& r matches Ok(AtRule::Supports(_)) ==> t == name_supports()
                &&& r matches Ok(AtRule::Other { ident, pre_block, .. }) ==> !known_rule(t)
                    && ident == Span { start: p as usize, end: e as usize } && pre_block
                    == trimmed(d, Span { start: e as usize, end: until_end(d, e, seq![SEMI, LBRACE]) as usize })
                &&& (e > p && !known_rule(t)) ==> (r is Ok || r->Err_0 is InvalidComment
                    || r->Err_0 is UnexpectedEndOfStream)
                &&& (e > p && !known_rule(t)) ==> (r is Ok <==> other_rule(d, e) is Some)
                &&& r is Ok ==> (r->Ok_0 matches AtRule::Other { pre_block, block, .. }
                    ==> other_rule(d, e) == Some((pre_block, block, final(s).at())))
                &&& t == name_media() ==> (r is Ok <==> media_rule_end(d, e) is Some) && (r is Ok
                    ==> final(s).at() == media_rule_end(d, e)->Some_0)
                &&& t == name_supports() ==> (r is Ok <==> supports_rule_end(d, e) is Some) && (r
                    is Ok ==> final(s).at() == supports_rule_end(d, e)->Some_0)
                &&& t == name_import() ==> (r is Ok <==> import_end(d, e) is Some) && (r is Ok
                    ==> final(s).at() == import_end(d, e)->Some_0)
                &&& t == name_namespace() ==> (r is Ok <==> namespace_parse(d, e) is Some)
                &&& t == name_keyframes() ==> (r is Ok <==> keyframes_end(d, e) is Some) && (r is Ok
                    ==> final(s).at() == keyframes_end(d, e)->Some_0)
                &&& t == name_font_face() ==> (r is Ok <==> font_face_end(d, e) is Some) && (r is Ok
                    ==> final(s).at() == font_face_end(d, e)->Some_0)
                &&& t == name_layer() ==> (r is Ok <==> layer_end(d, e) is Some) && (r is Ok
                    ==> final(s).at() == layer_end(d, e)->Some_0)
                &&& r matches Ok(AtRule::Namespace { name, value }) ==> namespace_parse(d, e) == Some(
                    (name, value, final(s).at()),
                )
                &&& r matches Ok(AtRule::Container(c)) ==> ordered(
                    condition_spans(c.conditions@),
                    p,
                    final(s).at(),
                )
                &&& r matches Ok(AtRule::Import(i)) ==> ordered(i.spans(), p, final(s).at())
                &&& r matches Ok(AtRule::Layer(LayerType::Statement(names))) ==> ordered(
                    names@,
                    p,
                    final(s).at(),
                )
                &&& r matches Ok(AtRule::Media(m)) ==> m.query@.len() >= 1 && ordered(
                    query_spans(m.query@),
                    p,
                    final(s).at(),
                )
                &&& r matches Ok(AtRule::Supports(x)) ==> ordered(
                    x.condition.spans(),
                    p,
                    final(s).at(),
                )
            }),
        decreases old(s).rest_len(), 2int,
    {
        let ghost d = old(s).text();
        let ghost p = old(s).at();
        let ident = match s.consume_ident() {
            Ok(i) => i,
            Err(e) => {
                proof {
                    crate::stream::lemma_ident_end(d, p, false);
                }
                assert(d.subrange(p, ident_end(d, p, false)).len() == 0);
                assert(name_media().len() == 5 && name_supports().len() == 8 && name_import().len() == 6
                    && name_namespace().len() == 9 && name_layer().len() == 5
                    && name_keyframes().len() == 9 && name_font_face().len() == 9);
                return Err(e);
            },
        };
        let n_container: [u8; 9] = [99, 111, 110, 116, 97, 105, 110, 101, 114];
        let n_font_face: [u8; 9] = [102, 111, 110, 116, 45, 102, 97, 99, 101];
        let n_import: [u8; 6] = [105, 109, 112, 111, 114, 116];
        let n_keyframes: [u8; 9] = [107, 101, 121, 102, 114, 97, 109, 101, 115];
        let n_layer: [u8; 5] = [108, 97, 121, 101, 114];
        let n_media: [u8; 5] = [109, 101, 100, 105, 97];
        let n_namespace: [u8; 9] = [110, 97, 109, 101, 115, 112, 97, 99, 101];
        let n_supports: [u8; 8] = [115, 117, 112, 112, 111, 114, 116, 115];
        assert(n_container@ == name_container() && n_font_face@ == name_font_face()
            && n_import@ == name_import() && n_keyframes@ == name_keyframes() && n_layer@
            == name_layer() && n_media@ == name_media() && n_namespace@ == name_namespace()
            && n_supports@ == name_supports());
        let ghost t = s.text().subrange(ident.start as int, ident.end as int);
        let is_container = span_is(s, ident, &n_container);
        let is_font_face = span_is(s, ident, &n_font_face);
        let is_import = span_is(s, ident, &n_import);
        let is_keyframes = span_is(s, ident, &n_keyframes);
        let is_layer = span_is(s, ident, &n_layer);
        let is_media = span_is(s, ident, &n_media);
        let is_namespace = span_is(s, ident, &n_namespace);
        let is_supports = span_is(s, ident, &n_supports);
        assert(known_rule(t) == (is_container || is_font_face || is_import || is_keyframes
            || is_layer || is_media || is_namespace || is_supports));
        if is_container {
            match Container::consume(s) {
                Ok(c) => Ok(AtRule::Container(c)),
                Err(e) => Err(e),
            }
        } else if is_font_face {
            match consume_font_face(s) {
                Ok(declarations) => Ok(AtRule::FontFace(declarations)),
                Err(e) => Err(e),
            }
        } else if is_import {
            match Import::consume(s) {
                Ok(i) => Ok(AtRule::Import(i)),
                Err(e) => Err(e),
            }
        } else if is_keyframes {
            match consume_keyframes(s) {
                Ok((name, frames)) => Ok(AtRule::Keyframes { name, frames }),
                Err(e) => Err(e),
            }
        } else if is_layer {
            match consume_layer(s) {
                Ok(l) => Ok(AtRule::Layer(l)),
                Err(e) => Err(e),
            }
        } else if is_media {
            match Media::consume(s) {
                Ok(m) => Ok(AtRule::Media(m)),
                Err(e) => Err(e),
            }
        } else if is_namespace {
            match consume_namespace(s) {
                Ok((name, value)) => Ok(AtRule::Namespace { name, value }),
                Err(e) => Err(e),
            }
        } else if is_supports {
            match Supports::consume(s) {
                Ok(x) => Ok(AtRule::Supports(x)),
                Err(e) => Err(e),
            }
        } else {
            consume_other(s, ident)
        }
    }
}

proof fn lemma_raw_suffix(
    o: Seq<RawAtRule>,
    raw0: Seq<RawAtRule>,
    raw1: Seq<RawAtRule>,
    fin: Seq<RawAtRule>,
    peeked: Option<RawAtRule>,
)
    requires
        raw0 == o,
        peeked matches Some(x) ==> raw1 == raw0.push(x),
        peeked is None ==> raw1 == raw0,
        fin.len() >= raw1.len(),
        fin.subrange(0, raw1.len() as int) == raw1,
    ensures
        fin.len() >= o.len(),
        fin.subrange(0, o.len() as int) == o,
        peeked matches Some(x) ==> fin.subrange(o.len() as int, fin.len() as int).len() > 0
            && fin.subrange(o.len() as int, fin.len() as int)[0] == x && fin.subrange(
            o.len() as int,
            fin.len() as int,
        ).subrange(1, fin.len() - o.len()) == fin.subrange(raw1.len() as int, fin.len() as int),
        peeked is None ==> fin.subrange(o.len() as int, fin.len() as int) == fin.subrange(
            raw1.len() as int,
            fin.len() as int,
        ),
{
    assert(fin.subrange(0, o.len() as int) =~= fin.subrange(0, raw1.len() as int).subrange(0, o.len() as int));
    if peeked is Some {
        let x = peeked->Some_0;
        assert(fin[o.len() as int] == raw1[o.len() as int]);
        assert(fin.subrange(o.len() as int, fin.len() as int).subrange(1, fin.len() - o.len()) =~= fin.subrange(
            raw1.len() as int,
            fin.len() as int,
        ));
    } else {
        assert(fin.subrange(o.len() as int, fin.len() as int) =~= fin.subrange(raw1.len() as int, fin.len() as int));
    }
}

impl StyleSheet {
    /// Parses a whole style sheet. It never fails: a rule that cannot be
    /// parsed is left out and parsing goes on after it.
    pub fn parse(text: &[u8]) -> (r: StyleSheet)
        ensures
            ordered(rule_spans(r.rules@), 0, text@.len() as int),
            exists|raws: Seq<RawAtRule>| #[trigger] sheet_is(text@, 0, false, r.rules@, r.at_rules@, raws),
    {
        let mut s = Stream::new(text);
        let mut raw: Vec<RawAtRule> = Vec::new();
        let r = StyleSheet::consume_rules(&mut s, false, &mut raw);
        proof {
            assert(raw@.subrange(0, raw@.len() as int) =~= raw@);
        }
        r
    }

    /// Parses a whole style sheet as [`StyleSheet::parse`] does, and also
    /// returns the raw form of each top-level at-rule met, whether it parsed
    /// or not, in source order.
    pub fn parse_with_raw(text: &[u8]) -> (r: (StyleSheet, Vec<RawAtRule>))
        ensures
            ordered(rule_spans(r.0.rules@), 0, text@.len() as int),
            sheet_is(text@, 0, false, r.0.rules@, r.0.at_rules@, r.1@),
    {
        let mut s = Stream::new(text);
        let mut raw: Vec<RawAtRule> = Vec::new();
        let sheet = StyleSheet::consume_rules(&mut s, false, &mut raw);
        proof {
            assert(raw@.subrange(0, raw@.len() as int) =~= raw@);
        }
        (sheet, raw)
    }

    /// Reads rules and at-rules up to the end of input, or, when `nested`, up
    /// to a `}` that is left unconsumed. A rule or at-rule that fails is
    /// skipped whole (see [`skip_rule`]) and reading goes on after it; a stray
    /// `}` at the top level is skipped too.
    #[verifier::spinoff_prover]
    #[verifier::rlimit(100)]
    pub fn consume_rules(s: &mut Stream, nested: bool, raw: &mut Vec<RawAtRule>) -> (r: StyleSheet)
        requires
            old(s).wf(),
        ensures
            final(s).follows(*old(s)),
            final(raw)@.len() >= old(raw)@.len(),
            final(raw)@.subrange(0, old(raw)@.len() as int) == old(raw)@,
            ordered(rule_spans(r.rules@), old(s).at(), final(s).at()),
            final(s).at() == sheet_end(old(s).text(), old(s).at(), nested),
            ({
                let d = final(s).text();
                let q = final(s).at();
                q == d.len() || trivia_end(d, q) is None || (nested && d[q] == RBRACE)
            }),
            sheet_is(
                old(s).text(),
                old(s).at(),
                nested,
                r.rules@,
                r.at_rules@,
                final(raw)@.subrange(old(raw)@.len() as int, final(raw)@.len() as int),
            ),
        decreases old(s).rest_len(), 3int,
    {
        proof {
            reveal_with_fuel(sheet_is, 1);
        }
        let before = s.pos();
        match s.skip_spaces_and_comments() {
            Ok(()) => {},
            Err(_) => {
                s.reset_pos(before);
                let sheet = StyleSheet { rules: Vec::new(), at_rules: Vec::new() };
                proof {
                    assert(raw@.subrange(old(raw)@.len() as int, raw@.len() as int) =~= Seq::<RawAtRule>::empty());
                    assert(rule_spans(sheet.rules@) =~= Seq::<Span>::empty());
                }
                return sheet;
            },
        }
        if s.at_end() || (nested && s.is_curr(RBRACE)) {
            let sheet = StyleSheet { rules: Vec::new(), at_rules: Vec::new() };
            proof {
                assert(raw@.subrange(old(raw)@.len() as int, raw@.len() as int) =~= Seq::<RawAtRule>::empty());
                assert(rule_spans(sheet.rules@) =~= Seq::<Span>::empty());
            }
            return sheet;
        }
        if s.is_curr(RBRACE) {
            s.advance(1);
            return StyleSheet::consume_rules(s, nested, raw);
        }
        proof {
            crate::stream::lemma_trivia_idem(old(s).text(), old(s).at());
            crate::stream::lemma_trivia_stops(s.text(), s.at());
        }
        if s.is_curr(AT) {
            StyleSheet::consume_at_item(s, nested, raw)
        } else {
            StyleSheet::consume_rule_item(s, nested, raw)
        }
    }

    /// Reads one at-rule at the cursor, then the rest of the sheet.
    #[verifier::spinoff_prover]
    #[verifier::rlimit(100)]
    fn consume_at_item(s: &mut Stream, nested: bool, raw: &mut Vec<RawAtRule>) -> (r: StyleSheet)
        requires
            old(s).wf(),
            old(s).at() < old(s).text().len(),
            old(s).byte() == AT,
        ensures
            final(s).follows(*old(s)),
            final(raw)@.len() >= old(raw)@.len(),
            final(raw)@.subrange(0, old(raw)@.len() as int) == old(raw)@,
            ordered(rule_spans(r.rules@), old(s).at(), final(s).at()),
            final(s).at() == sheet_end(old(s).text(), old(s).at(), nested),
            ({
                let d = final(s).text();
                let q = final(s).at();
                q == d.len() || trivia_end(d, q) is None || (nested && d[q] == RBRACE)
            }),
            sheet_is(
                old(s).text(),
                old(s).at(),
                nested,
                r.rules@,
                r.at_rules@,
                final(raw)@.subrange(old(raw)@.len() as int, final(raw)@.len() as int),
            ),
        decreases old(s).rest_len(), 2int,
    {
        proof {
            reveal_with_fuel(sheet_is, 1);
        }
        let start = s.pos();
        s.advance(1);
        let ghost raw0 = raw@;
        let peeked = peek_at_rule(s);
        if let Some(r) = peeked {
            raw.push(r);
        }
        let ghost raw1 = raw@;
        match AtRule::consume(s) {
            Ok(a) => {
                s.try_consume_byte(SEMI);
                let mut rest = StyleSheet::consume_rules(s, nested, raw);
                let ghost tail = rest.at_rules@;
                let ghost a2 = a;
                rest.at_rules.insert(0, a);
                proof {
                    assert(rest.at_rules@.subrange(1, rest.at_rules@.len() as int) =~= tail);
                    assert(rest.at_rules@[0] == a2);
                    lemma_raw_suffix(old(raw)@, raw0, raw1, raw@, peeked);
                }
                rest
            },
            Err(_) => {
                s.reset_pos(start);
                skip_rule(s);
                let rest = StyleSheet::consume_rules(s, nested, raw);
                proof {
                    lemma_raw_suffix(old(raw)@, raw0, raw1, raw@, peeked);
                }
                rest
            },
        }
    }

    /// Reads one ordinary rule at the cursor, then the rest of the sheet.
    #[verifier::spinoff_prover]
    #[verifier::rlimit(100)]
    fn consume_rule_item(s: &mut Stream, nested: bool, raw: &mut Vec<RawAtRule>) -> (r: StyleSheet)
        requires
            old(s).wf(),
            old(s).at() < old(s).text().len(),
            old(s).byte() != AT && old(s).byte() != RBRACE,
            !crate::stream::is_space(old(s).byte()),
            !(old(s).at() + 1 < old(s).text().len() && old(s).byte() == crate::stream::SLASH && old(s).text()[old(s).at() + 1] == crate::stream::STAR),
        ensures
            final(s).follows(*old(s)),
            final(raw)@.len() >= old(raw)@.len(),
            final(raw)@.subrange(0, old(raw)@.len() as int) == old(raw)@,
            ordered(rule_spans(r.rules@), old(s).at(), final(s).at()),
            final(s).at() == sheet_end(old(s).text(), old(s).at(), nested),
            ({
                let d = final(s).text();
                let q = final(s).at();
                q == d.len() || trivia_end(d, q) is None || (nested && d[q] == RBRACE)
            }),
            sheet_is(
                old(s).text(),
                old(s).at(),
                nested,
                r.rules@,
                r.at_rules@,
                final(raw)@.subrange(old(raw)@.len() as int, final(raw)@.len() as int),
            ),
        decreases old(s).rest_len(), 2int,
    {
        proof {
            reveal_with_fuel(sheet_is, 1);
        }
        let start = s.pos();
        match consume_rule(s) {
            Ok(rule) => {
                let mid = s.pos();
                let mut rest = StyleSheet::consume_rules(s, nested, raw);
                proof {
                    crate::stream::lemma_ordered_concat(rule.spans(), rule_spans(rest.rules@), start as int, mid as int, s.at());
                }
                let ghost tail = rest.rules@;
                let ghost r2 = rule;
                rest.rules.insert(0, rule);
                proof {
                    assert(rest.rules@ =~= seq![r2] + tail);
                    assert(rest.rules@.subrange(1, rest.rules@.len() as int) =~= tail);
                    lemma_rule_spans_cons(r2, tail);
                }
                rest
            },
            Err(_) => {
                s.reset_pos(start);
                skip_rule(s);
                StyleSheet::consume_rules(s, nested, raw)
            },
        }
    }
}

} // verus!
