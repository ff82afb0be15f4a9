use vstd::prelude::*;
use crate::at_rule::{
    is_and, is_not, is_only, is_or, keyword_at, kw_and, kw_not, kw_only, kw_or, opens_group,
    Comparison,
};
use crate::sheet::{block_rules_end, consume_rule_set, rule_set_is, rule_spans, Rule};
use crate::stream::{
    ident_end, next_token, tok,
    lemma_ordered_concat, ordered, starts_at, trimmed, trivia_end, until_end,
    Error, Span, Stream, COLON, EQ, GT, LBRACE, LPAREN, LT, RBRACE, RPAREN,
};

verus! {

/// An `@media` rule.
#[derive(Debug, PartialEq, Eq)]
pub struct Media {
    /// The queries, in order.
    pub query: Vec<MediaQuery>,
    /// The rules of the block.
    pub rules: Vec<Rule>,
}

/// `not` or `only` before a media type.
#[derive(Clone, Copy, Debug, PartialEq, Eq, Hash, Structural)]
pub enum MediaNotOnly {
    /// `not`
    Not,
    /// `only`
    Only,
}

/// One media query.
#[derive(Debug, PartialEq, Eq)]
pub enum MediaQuery {
    /// A condition: `not (...)` or `(...) [and|or (...)]*`.
    Condition(MediaCondition),
    /// `[not|only] <media-type> [and ...]*`: at this level only `and` joins.
    OtherThing {
        not_only: Option<MediaNotOnly>,
        media_type: Span,
        conditions: Vec<MediaConditionWithoutOr>,
    },
}

/// A media condition.
#[derive(Debug, PartialEq, Eq)]
pub enum MediaCondition {
    /// `not (...)`
    Not(Box<MediaInParens>),
    /// A first operand and the operands that follow it, each with its `and` or `or`.
    List { first: Box<MediaInParens>, conditions: Vec<MediaAndOr> },
}

/// A media condition in which operands can only be joined by `and`.
#[derive(Debug, PartialEq, Eq)]
pub enum MediaConditionWithoutOr {
    /// `not (...)`
    Not(MediaInParens),
    /// A first operand and the operands that follow it, each after `and`.
    Media { media: MediaInParens, conditions: Vec<MediaAnd> },
}

/// An operand that follows `and`.
#[derive(Debug, PartialEq, Eq)]
pub struct MediaAnd(pub MediaInParens);

/// An operand that follows `and` or `or`.
#[derive(Debug, PartialEq, Eq)]
pub enum MediaAndOr {
    /// Follows `and`.
    And(MediaInParens),
    /// Follows `or`.
    Or(MediaInParens),
}

/// A parenthesised operand.
#[derive(Debug, PartialEq, Eq)]
pub enum MediaInParens {
    /// A nested condition.
    Condition(MediaCondition),
    /// A feature.
    Feature(MediaFeature),
}

/// A media feature.
#[derive(Debug, PartialEq, Eq)]
pub enum MediaFeature {
    /// `(key: val)`
    KeyVal { key: Span, val: Span },
    /// `(name)`
    Name(Span),
    /// A comparison or a chain of two.
    Range(MediaRange),
}

/// A range comparison.
#[derive(Debug, PartialEq, Eq)]
pub enum MediaRange {
    /// `lhs comp rhs`
    Regular { lhs: Span, comp: Comparison, rhs: Span },
    /// `lhs < ident < rhs`
    LessThanChain { lhs: Span, ident: Span, rhs: Span },
    /// `lhs <= ident <= rhs`
    LessEqChain { lhs: Span, ident: Span, rhs: Span },
    /// `lhs > ident > rhs`
    GreaterThanChain { lhs: Span, ident: Span, rhs: Span },
    /// `lhs >= ident >= rhs`
    GreaterEqChain { lhs: Span, ident: Span, rhs: Span },
}

impl MediaRange {
    /// The text leaves, in the order of the tree.
    pub open spec fn spans(&self) -> Seq<Span> {
        match self {
            MediaRange::Regular { lhs, comp, rhs } => seq![*lhs] + comp.spans() + seq![*rhs],
            MediaRange::LessThanChain { lhs, ident, rhs } => seq![*lhs, *ident, *rhs],
            MediaRange::LessEqChain { lhs, ident, rhs } => seq![*lhs, *ident, *rhs],
            MediaRange::GreaterThanChain { lhs, ident, rhs } => seq![*lhs, *ident, *rhs],
            MediaRange::GreaterEqChain { lhs, ident, rhs } => seq![*lhs, *ident, *rhs],
        }
    }
}

impl MediaFeature {
    /// The text leaves, in the order of the tree.
    pub open spec fn spans(&self) -> Seq<Span> {
        match self {
            MediaFeature::KeyVal { key, val } => seq![*key, *val],
            MediaFeature::Name(n) => seq![*n],
            MediaFeature::Range(r) => r.spans(),
        }
    }
}

impl MediaCondition {
    /// The text leaves of the condition, in the order of the tree.
    pub open spec fn spans(&self) -> Seq<Span>
        decreases self,
    {
        match self {
            MediaCondition::Not(p) => p.spans(),
            MediaCondition::List { first, conditions } => first.spans() + media_and_or_spans(
                conditions@,
            ),
        }
    }
}

impl MediaInParens {
    /// The text leaves, in the order of the tree.
    pub open spec fn spans(&self) -> Seq<Span>
        decreases self,
    {
        match self {
            MediaInParens::Condition(c) => c.spans(),
            MediaInParens::Feature(f) => f.spans(),
        }
    }
}

impl MediaAndOr {
    /// The text leaves, in the order of the tree.
    pub open spec fn spans(&self) -> Seq<Span>
        decreases self,
    {
        match self {
            MediaAndOr::And(p) => p.spans(),
            MediaAndOr::Or(p) => p.spans(),
        }
    }
}

/// The spans of the items of `l`, in order.
pub open spec fn media_and_or_spans(l: Seq<MediaAndOr>) -> Seq<Span>
    decreases l,
{
    if l.len() == 0 {
        Seq::empty()
    } else {
        media_and_or_spans(l.subrange(0, l.len() - 1)) + l[l.len() - 1].spans()
    }
}

/// The spans of the items of `l`, in order.
pub open spec fn media_and_spans(l: Seq<MediaAnd>) -> Seq<Span>
    decreases l.len(),
{
    if l.len() == 0 {
        Seq::empty()
    } else {
        media_and_spans(l.drop_last()) + l.last().0.spans()
    }
}

impl MediaConditionWithoutOr {
    /// The text leaves, in the order of the tree.
    pub open spec fn spans(&self) -> Seq<Span> {
        match self {
            MediaConditionWithoutOr::Not(p) => p.spans(),
            MediaConditionWithoutOr::Media { media, conditions } => media.spans()
                + media_and_spans(conditions@),
        }
    }
}

/// The spans of the items of `l`, in order.
pub open spec fn without_or_spans(l: Seq<MediaConditionWithoutOr>) -> Seq<Span>
    decreases l.len(),
{
    if l.len() == 0 {
        Seq::empty()
    } else {
        without_or_spans(l.drop_last()) + l.last().spans()
    }
}

impl MediaQuery {
    /// The text leaves, in the order of the tree.
    pub open spec fn spans(&self) -> Seq<Span> {
        match self {
            MediaQuery::Condition(c) => c.spans(),
            MediaQuery::OtherThing { media_type, conditions, .. } => seq![*media_type]
                + without_or_spans(conditions@),
        }
    }
}

/// The spans of the items of `l`, in order.
pub open spec fn query_spans(l: Seq<MediaQuery>) -> Seq<Span>
    decreases l.len(),
{
    if l.len() == 0 {
        Seq::empty()
    } else {
        query_spans(l.drop_last()) + l.last().spans()
    }
}

/// The bytes that end an operand of a media feature.
pub open spec fn operand_stops() -> Seq<u8> {
    seq![GT, LT, EQ, RPAREN, COLON]
}

/// End of the operand that starts at `p`.
pub open spec fn operand_end(d: Seq<u8>, p: int) -> int {
    until_end(d, p, operand_stops())
}

/// The range operator at `p`, the longest of `<=`, `<`, `>=`, `>`, `=` that stands there.
pub open spec fn range_op_at(d: Seq<u8>, p: int) -> Option<Comparison> {
    if starts_at(d, p, seq![LT, EQ]) {
        Some(Comparison::LessEq)
    } else if starts_at(d, p, seq![LT]) {
        Some(Comparison::Less)
    } else if starts_at(d, p, seq![GT, EQ]) {
        Some(Comparison::GreaterEq)
    } else if starts_at(d, p, seq![GT]) {
        Some(Comparison::Greater)
    } else if starts_at(d, p, seq![EQ]) {
        Some(Comparison::Equal)
    } else {
        None
    }
}

/// The length of the range operator `c`.
pub open spec fn op_len(c: Comparison) -> int {
    match c {
        Comparison::LessEq | Comparison::GreaterEq => 2,
        _ => 1,
    }
}

/// Where the first operator of a range that starts at `p` stands.
pub open spec fn first_op_pos(d: Seq<u8>, p: int) -> int {
    next_token(d, operand_end(d, p))
}

/// Where the second operator of a range that starts at `p` stands, the first
/// being `op`.
pub open spec fn second_op_pos(d: Seq<u8>, p: int, op: Comparison) -> int {
    next_token(d, operand_end(d, next_token(d, first_op_pos(d, p) + op_len(op))))
}

/// The operand of a media feature that starts at `p`, trimmed.
pub open spec fn operand(d: Seq<u8>, p: int) -> Span {
    trimmed(d, Span { start: p as usize, end: operand_end(d, p) as usize })
}

/// What reading a range at `p` gives: `None` when it fails (an unterminated
/// comment, or a repeated `=`), `Some(None)` when no operator follows the
/// first operand, and otherwise the range and where the cursor ends.
pub open spec fn parse_range(d: Seq<u8>, p: int) -> Option<Option<(MediaRange, int)>> {
    let e1 = operand_end(d, p);
    let lhs = operand(d, p);
    match trivia_end(d, e1) {
        None => None,
        Some(q) => match range_op_at(d, q) {
            None => Some(None),
            Some(op) => match trivia_end(d, q + op_len(op)) {
                None => None,
                Some(m0) => {
                    let e2 = operand_end(d, m0);
                    let mid = operand(d, m0);
                    match trivia_end(d, e2) {
                        None => None,
                        Some(q2) => if range_op_at(d, q2) == Some(op) {
                            match trivia_end(d, q2 + op_len(op)) {
                                None => None,
                                Some(r0) => {
                                    let e3 = operand_end(d, r0);
                                    let rhs = operand(d, r0);
                                    match op {
                                        Comparison::Less => Some(Some((MediaRange::LessThanChain { lhs, ident: mid, rhs }, e3))),
                                        Comparison::LessEq => Some(Some((MediaRange::LessEqChain { lhs, ident: mid, rhs }, e3))),
                                        Comparison::Greater => Some(Some((MediaRange::GreaterThanChain { lhs, ident: mid, rhs }, e3))),
                                        Comparison::GreaterEq => Some(Some((MediaRange::GreaterEqChain { lhs, ident: mid, rhs }, e3))),
                                        _ => None,
                                    }
                                },
                            }
                        } else {
                            Some(Some((MediaRange::Regular { lhs, comp: op, rhs: mid }, q2)))
                        },
                    }
                },
            },
        },
    }
}

/// The first two operators of a range at `p` are both `=`.
pub open spec fn repeats_equal(d: Seq<u8>, p: int) -> bool {
    match trivia_end(d, operand_end(d, p)) {
        None => false,
        Some(q) => range_op_at(d, q) == Some(Comparison::Equal) && match trivia_end(d, q + 1) {
            None => false,
            Some(m0) => match trivia_end(d, operand_end(d, m0)) {
                None => false,
                Some(q2) => range_op_at(d, q2) == Some(Comparison::Equal) && trivia_end(
                    d,
                    q2 + 1,
                ) is Some,
            },
        },
    }
}

/// Closes a parenthesised form whose `)` should stand at `z`.
pub open spec fn close_paren<T>(d: Seq<u8>, z: int, x: T) -> Option<(T, int)> {
    if 0 <= z < d.len() && d[z] == RPAREN {
        Some((x, z + 1))
    } else {
        None
    }
}

/// What reading a media feature at `p` gives: the feature and where the
/// cursor ends, or `None` when it fails.
pub open spec fn parse_media_feature(d: Seq<u8>, p: int) -> Option<(MediaFeature, int)> {
    match trivia_end(d, p) {
        None => None,
        Some(a) => if !(a < d.len() && d[a] == LPAREN) {
            None
        } else {
            match trivia_end(d, a + 1) {
                None => None,
                Some(b) => match trivia_end(d, operand_end(d, b)) {
                    None => None,
                    Some(c) => if c < d.len() && d[c] == COLON {
                        match trivia_end(d, c + 1) {
                            None => None,
                            Some(v0) => match trivia_end(d, operand_end(d, v0)) {
                                None => None,
                                Some(z) => match close_paren(
                                    d,
                                    z,
                                    MediaFeature::KeyVal { key: operand(d, b), val: operand(d, v0) },
                                ) {
                                    None => None,
                                    Some((x, z1)) => match trivia_end(d, z1) {
                                        None => None,
                                        Some(w) => Some((x, w)),
                                    },
                                },
                            },
                        }
                    } else {
                        match parse_range(d, b) {
                            None => None,
                            Some(Some((m, e))) => match trivia_end(d, e) {
                                None => None,
                                Some(z) => close_paren(d, z, MediaFeature::Range(m)),
                            },
                            Some(None) => close_paren(d, c, MediaFeature::Name(operand(d, b))),
                        }
                    },
                },
            }
        },
    }
}

/// Where a parenthesised media operand read at `p` ends, or `None` when
/// reading it fails.
pub open spec fn mip_end(d: Seq<u8>, p: int) -> Option<int>
    decreases d.len() - p, 1int,
{
    if p < 0 || p > d.len() {
        None
    } else {
        match tok(d, p) {
            None => None,
            Some(a) => if !(a < d.len() && d[a] == LPAREN) {
                None
            } else {
                match tok(d, a + 1) {
                    None => None,
                    Some(b) => if opens_group(d, b) {
                        match mc_end(d, b) {
                            None => None,
                            Some(e) => match tok(d, e) {
                                None => None,
                                Some(z) => if z < d.len() && d[z] == RPAREN {
                                    Some(z + 1)
                                } else {
                                    None
                                },
                            },
                        }
                    } else {
                        match parse_media_feature(d, a) {
                            Some((_, e)) => Some(e),
                            None => None,
                        }
                    },
                }
            },
        }
    }
}

/// Where a media condition read at `p` ends, or `None` when reading it fails.
pub open spec fn mc_end(d: Seq<u8>, p: int) -> Option<int>
    decreases d.len() - p, 4int,
{
    if p < 0 || p > d.len() {
        None
    } else {
        match tok(d, p) {
            None => None,
            Some(a) => if keyword_at(d, a, kw_not()) {
                mip_end(d, a + 3)
            } else {
                match mip_end(d, a) {
                    None => None,
                    Some(m) => if p <= m <= d.len() {
                        media_list_end(d, m)
                    } else {
                        None
                    },
                }
            },
        }
    }
}

/// Where `and (...)` or `or (...)` read at `p` ends, or `None` when reading
/// it fails or neither keyword stands there.
pub open spec fn mao_end(d: Seq<u8>, p: int) -> Option<int>
    decreases d.len() - p, 2int,
{
    if p < 0 || p > d.len() {
        None
    } else {
        match tok(d, p) {
            None => None,
            Some(a) => if keyword_at(d, a, kw_and()) {
                mip_end(d, a + 3)
            } else if keyword_at(d, a, kw_or()) {
                mip_end(d, a + 2)
            } else {
                None
            },
        }
    }
}

/// `and` or `or` stands at `a`.
pub open spec fn joins_at(d: Seq<u8>, a: int) -> bool {
    keyword_at(d, a, kw_and()) || keyword_at(d, a, kw_or())
}

/// Where a run of `and`/`or` operands read at `p` ends (after the white space
/// that follows it), or `None` when reading one fails.
pub open spec fn media_list_end(d: Seq<u8>, p: int) -> Option<int>
    decreases d.len() - p, 3int,
{
    if p < 0 || p > d.len() {
        None
    } else {
        match tok(d, p) {
            None => None,
            Some(a) => if !joins_at(d, a) {
                Some(a)
            } else {
                match mao_end(d, a) {
                    None => None,
                    Some(m) => if p < m <= d.len() {
                        media_list_end(d, m)
                    } else {
                        None
                    },
                }
            },
        }
    }
}

/// `x` is the operand that reading at `p` gives.
pub open spec fn mip_is(d: Seq<u8>, p: int, x: MediaInParens) -> bool
    decreases x,
{
    let a = tok(d, p)->Some_0;
    let b = tok(d, a + 1)->Some_0;
    match x {
        MediaInParens::Condition(c) => opens_group(d, b) && mc_is(d, b, c),
        MediaInParens::Feature(f) => !opens_group(d, b) && parse_media_feature(d, a)->Some_0.0 == f,
    }
}

/// `x` is the condition that reading at `p` gives.
pub open spec fn mc_is(d: Seq<u8>, p: int, x: MediaCondition) -> bool
    decreases x,
{
    let a = tok(d, p)->Some_0;
    match x {
        MediaCondition::Not(i) => keyword_at(d, a, kw_not()) && mip_is(d, a + 3, *i),
        MediaCondition::List { first, conditions } => !keyword_at(d, a, kw_not()) && mip_is(
            d,
            a,
            *first,
        ) && media_list_is(d, mip_end(d, a)->Some_0, conditions@),
    }
}

/// `x` is the operand, with its keyword, that reading at `p` gives.
pub open spec fn mao_is(d: Seq<u8>, p: int, x: MediaAndOr) -> bool
    decreases x,
{
    let a = tok(d, p)->Some_0;
    match x {
        MediaAndOr::And(i) => keyword_at(d, a, kw_and()) && mip_is(d, a + 3, i),
        MediaAndOr::Or(i) => !keyword_at(d, a, kw_and()) && keyword_at(d, a, kw_or()) && mip_is(
            d,
            a + 2,
            i,
        ),
    }
}

/// `l` is the run of `and`/`or` operands that reading at `p` gives: the
/// first item is read at `p`, the rest where it ended, and no further
/// `and`/`or` follows the last.
pub open spec fn media_list_is(d: Seq<u8>, p: int, l: Seq<MediaAndOr>) -> bool
    decreases l,
{
    let a = tok(d, p)->Some_0;
    if l.len() == 0 {
        !joins_at(d, a)
    } else {
        joins_at(d, a) && mao_is(d, a, l[0]) && match mao_end(d, a) {
            Some(m) => media_list_is(d, m, l.subrange(1, l.len() as int)),
            None => false,
        }
    }
}

proof fn lemma_media_list_spans_cons(a: MediaAndOr, l: Seq<MediaAndOr>)
    ensures
        media_and_or_spans(seq![a] + l) == a.spans() + media_and_or_spans(l),
    decreases l.len(),
{
    let c = seq![a] + l;
    if l.len() == 0 {
        assert(c.subrange(0, c.len() - 1) =~= Seq::<MediaAndOr>::empty());
        assert(media_and_or_spans(Seq::<MediaAndOr>::empty()) =~= Seq::<Span>::empty());
        assert(a.spans() + Seq::<Span>::empty() =~= a.spans());
    } else {
        let init = l.subrange(0, l.len() - 1);
        lemma_media_list_spans_cons(a, init);
        assert(c.subrange(0, c.len() - 1) =~= seq![a] + init);
        assert(c[c.len() - 1] == l[l.len() - 1]);
        assert(a.spans() + media_and_or_spans(init) + l[l.len() - 1].spans() =~= a.spans() + (
        media_and_or_spans(init) + l[l.len() - 1].spans()));
    }
}

/// Reads an operand of a media feature: the bytes up to one of `> < = ) :`, trimmed.
pub fn consume_value2(s: &mut Stream) -> (r: Span)
    requires
        old(s).wf(),
    ensures
        final(s).follows(*old(s)),
        final(s).at() == operand_end(old(s).text(), old(s).at()),
        r == trimmed(
            old(s).text(),
            Span { start: old(s).at() as usize, end: final(s).at() as usize },
        ),
        ordered(seq![r], old(s).at(), final(s).at()),
{
    let stops: [u8; 5] = [GT, LT, EQ, RPAREN, COLON];
    assert(stops@ == operand_stops());
    let raw = s.consume_until(&stops);
    let r = s.trim(raw);
    assert(seq![r][0] == r);
    r
}

/// Reads the range operator at the cursor, if any, without moving.
fn range_op(s: &Stream) -> (r: Option<Comparison>)
    requires
        s.wf(),
    ensures
        r == range_op_at(s.text(), s.at()),
{
    let le: [u8; 2] = [LT, EQ];
    let lt: [u8; 1] = [LT];
    let ge: [u8; 2] = [GT, EQ];
    let gt: [u8; 1] = [GT];
    let eq: [u8; 1] = [EQ];
    assert(le@ == seq![LT, EQ] && lt@ == seq![LT] && ge@ == seq![GT, EQ] && gt@ == seq![GT]
        && eq@ == seq![EQ]);
    if s.starts_with(&le) {
        Some(Comparison::LessEq)
    } else if s.starts_with(&lt) {
        Some(Comparison::Less)
    } else if s.starts_with(&ge) {
        Some(Comparison::GreaterEq)
    } else if s.starts_with(&gt) {
        Some(Comparison::Greater)
    } else if s.starts_with(&eq) {
        Some(Comparison::Equal)
    } else {
        None
    }
}

impl MediaRange {
    /// Reads `lhs op mid`, and `op rhs` after it when the same operator
    /// repeats. Returns `None`, with the cursor back where it was, when no
    /// operator follows the first operand. A repeated `=` is an error.
    #[verifier::rlimit(100)]
    pub fn try_consume(s: &mut Stream) -> (r: Result<Option<MediaRange>, Error>)
        requires
            old(s).wf(),
        ensures
            final(s).follows(*old(s)),
            r is Ok <==> parse_range(old(s).text(), old(s).at()) is Some,
            r matches Ok(None) ==> parse_range(old(s).text(), old(s).at()) == Some(
                None::<(MediaRange, int)>,
            ) && final(s).at() == old(s).at(),
            r matches Ok(Some(m)) ==> parse_range(old(s).text(), old(s).at()) == Some(
                Some((m, final(s).at())),
            ),
            r matches Ok(Some(m)) ==> ordered(m.spans(), old(s).at(), final(s).at()),
            r matches Err(e) ==> (e is UnexpectedCombinator <==> repeats_equal(
                old(s).text(),
                old(s).at(),
            )),
    {
        let start = s.pos();
        let lhs = consume_value2(s);
        let p1 = s.pos();
        match s.skip_spaces_and_comments() {
            Ok(()) => {},
            Err(e) => return Err(e),
        }
        let comp = match range_op(s) {
            Some(c) => c,
            None => {
                s.reset_pos(start);
                return Ok(None);
            },
        };
        let n: usize = match comp {
            Comparison::LessEq | Comparison::GreaterEq => 2,
            _ => 1,
        };
        s.advance(n);
        match s.skip_spaces_and_comments() {
            Ok(()) => {},
            Err(e) => return Err(e),
        }
        let p2 = s.pos();
        let ident = consume_value2(s);
        let p3 = s.pos();
        match s.skip_spaces_and_comments() {
            Ok(()) => {},
            Err(e) => return Err(e),
        }
        let again = range_op(s);
        if again == Some(comp) {
            s.advance(n);
            match s.skip_spaces_and_comments() {
                Ok(()) => {},
                Err(e) => return Err(e),
            }
            let p4 = s.pos();
            let rhs = consume_value2(s);
            proof {
                assert(start <= p1 <= p2 <= p3 <= p4 <= s.at());
                crate::stream::lemma_ordered_widen(seq![ident], p2 as int, p3 as int, p1 as int, p3 as int);
                lemma_ordered_concat(seq![lhs], seq![ident], start as int, p1 as int, p3 as int);
                crate::stream::lemma_ordered_widen(seq![lhs] + seq![ident], start as int, p3 as int, start as int, p4 as int);
                lemma_ordered_concat(seq![lhs] + seq![ident], seq![rhs], start as int, p4 as int, s.at());
                assert(seq![lhs] + seq![ident] + seq![rhs] =~= seq![lhs, ident, rhs]);
            }
            let m = match comp {
                Comparison::Less => MediaRange::LessThanChain { lhs, ident, rhs },
                Comparison::LessEq => MediaRange::LessEqChain { lhs, ident, rhs },
                Comparison::Greater => MediaRange::GreaterThanChain { lhs, ident, rhs },
                Comparison::GreaterEq => MediaRange::GreaterEqChain { lhs, ident, rhs },
                _ => return Err(Error::UnexpectedCombinator(s.pos())),
            };
            assert(m.spans() == seq![lhs, ident, rhs]);
            Ok(Some(m))
        } else {
            let m = MediaRange::Regular { lhs, comp, rhs: ident };
            proof {
                lemma_ordered_concat(seq![lhs], seq![ident], start as int, p1 as int, p3 as int);
                assert(comp.spans() =~= Seq::<Span>::empty());
                assert(m.spans() =~= seq![lhs] + seq![ident]);
            }
            Ok(Some(m))
        }
    }
}

impl MediaFeature {
    /// Reads `(key: val)`, `(name)` or a parenthesised range. A `:` after the
    /// first operand makes a key and value; otherwise a range operator after
    /// it makes a range, and its absence a bare name.
    #[verifier::spinoff_prover]
    pub fn consume(s: &mut Stream) -> (r: Result<MediaFeature, Error>)
        requires
            old(s).wf(),
        ensures
            final(s).follows(*old(s)),
            r is Ok ==> ordered(r->Ok_0.spans(), old(s).at(), final(s).at()),
            r is Ok ==> final(s).at() > old(s).at(),
            r is Ok <==> parse_media_feature(old(s).text(), old(s).at()) is Some,
            r is Ok ==> (r->Ok_0, final(s).at()) == parse_media_feature(
                old(s).text(),
                old(s).at(),
            )->Some_0,
            ({
                let d = old(s).text();
                let p = next_token(d, next_token(d, old(s).at()) + 1);
                let q = next_token(d, operand_end(d, p));
                let colon = q < d.len() && d[q] == COLON;
                &&& r matches Ok(MediaFeature::KeyVal { .. }) ==> colon
                &&& r matches Ok(MediaFeature::Range(_)) ==> !colon && range_op_at(
                    d,
                    first_op_pos(d, p),
                ) is Some
                &&& r matches Ok(MediaFeature::Name(_)) ==> !colon && range_op_at(
                    d,
                    first_op_pos(d, p),
                ) is None
            }),
    {
        match s.skip_spaces_and_comments() {
            Ok(()) => {},
            Err(e) => return Err(e),
        }
        match s.consume_byte(LPAREN) {
            Ok(()) => {},
            Err(e) => return Err(e),
        }
        match s.skip_spaces_and_comments() {
            Ok(()) => {},
            Err(e) => return Err(e),
        }
        let p0 = s.pos();
        let first = consume_value2(s);
        let p1 = s.pos();
        match s.skip_spaces_and_comments() {
            Ok(()) => {},
            Err(e) => return Err(e),
        }
        let keyval = s.is_curr(COLON);
        let out = if keyval {
            s.advance(1);
            match s.skip_spaces_and_comments() {
                Ok(()) => {},
                Err(e) => return Err(e),
            }
            let second = consume_value2(s);
            proof {
                lemma_ordered_concat(seq![first], seq![second], p0 as int, p1 as int, s.at());
                assert(seq![first] + seq![second] =~= seq![first, second]);
            }
            MediaFeature::KeyVal { key: first, val: second }
        } else {
            s.reset_pos(p0);
            match MediaRange::try_consume(s) {
                Ok(Some(range)) => MediaFeature::Range(range),
                Ok(None) => {
                    let name = consume_value2(s);
                    MediaFeature::Name(name)
                },
                Err(e) => return Err(e),
            }
        };
        let p2 = s.pos();
        match s.skip_spaces_and_comments() {
            Ok(()) => {},
            Err(e) => return Err(e),
        }
        match s.consume_byte(RPAREN) {
            Ok(()) => {},
            Err(e) => return Err(e),
        }
        if keyval {
            match s.skip_spaces_and_comments() {
                Ok(()) => {},
                Err(e) => return Err(e),
            }
        }
        proof {
            crate::stream::lemma_ordered_widen(out.spans(), p0 as int, p2 as int, old(s).at(), s.at());
        }
        Ok(out)
    }
}

impl MediaInParens {
    /// Reads `( condition )` when `not` or `(` follows the opening parenthesis,
    /// and a feature otherwise.
    pub fn consume(s: &mut Stream) -> (r: Result<MediaInParens, Error>)
        requires
            old(s).wf(),
        ensures
            final(s).follows(*old(s)),
            r is Ok ==> ordered(r->Ok_0.spans(), old(s).at(), final(s).at()),
            r is Ok ==> final(s).at() > old(s).at(),
            ({
                let d = old(s).text();
                let q = next_token(d, next_token(d, old(s).at()) + 1);
                &&& r matches Ok(MediaInParens::Condition(_)) ==> opens_group(d, q)
                &&& r matches Ok(MediaInParens::Feature(_)) ==> !opens_group(d, q)
            }),
            r is Ok <==> mip_end(old(s).text(), old(s).at()) is Some,
            r is Ok ==> final(s).at() == mip_end(old(s).text(), old(s).at())->Some_0 && mip_is(
                old(s).text(),
                old(s).at(),
                r->Ok_0,
            ),
        decreases old(s).rest_len(), 1int,
    {
        match s.skip_spaces_and_comments() {
            Ok(()) => {},
            Err(e) => return Err(e),
        }
        let p = s.pos();
        match s.consume_byte(LPAREN) {
            Ok(()) => {},
            Err(e) => return Err(e),
        }
        match s.skip_spaces_and_comments() {
            Ok(()) => {},
            Err(e) => return Err(e),
        }
        if is_not(s) || s.is_curr(LPAREN) {
            let c = match MediaCondition::consume(s) {
                Ok(c) => c,
                Err(e) => return Err(e),
            };
            match s.skip_spaces_and_comments() {
                Ok(()) => {},
                Err(e) => return Err(e),
            }
            match s.consume_byte(RPAREN) {
                Ok(()) => {},
                Err(e) => return Err(e),
            }
            Ok(MediaInParens::Condition(c))
        } else {
            s.reset_pos(p);
            match MediaFeature::consume(s) {
                Ok(f) => Ok(MediaInParens::Feature(f)),
                Err(e) => Err(e),
            }
        }
    }
}

impl MediaCondition {
    /// Reads `not (...)`, or an operand followed by any number of operands
    /// each introduced by `and` or `or`.
    pub fn consume(s: &mut Stream) -> (r: Result<MediaCondition, Error>)
        requires
            old(s).wf(),
        ensures
            final(s).follows(*old(s)),
            r is Ok ==> ordered(r->Ok_0.spans(), old(s).at(), final(s).at()),
            r is Ok ==> final(s).at() > old(s).at(),
            r is Ok ==> trivia_end(old(s).text(), old(s).at()) is Some && (r->Ok_0 is Not
                <==> keyword_at(old(s).text(), next_token(old(s).text(), old(s).at()), kw_not())),
            r is Ok <==> mc_end(old(s).text(), old(s).at()) is Some,
            r is Ok ==> final(s).at() == mc_end(old(s).text(), old(s).at())->Some_0 && mc_is(
                old(s).text(),
                old(s).at(),
                r->Ok_0,
            ),
        decreases old(s).rest_len(), 4int,
    {
        match s.skip_spaces_and_comments() {
            Ok(()) => {},
            Err(e) => return Err(e),
        }
        let start = s.pos();
        if is_not(s) {
            s.advance(3);
            match MediaInParens::consume(s) {
                Ok(p) => Ok(MediaCondition::Not(Box::new(p))),
                Err(e) => Err(e),
            }
        } else {
            let first = match MediaInParens::consume(s) {
                Ok(p) => p,
                Err(e) => return Err(e),
            };
            let mid = s.pos();
            let conditions = match MediaAndOr::consume_many(s) {
                Ok(l) => l,
                Err(e) => return Err(e),
            };
            proof {
                lemma_ordered_concat(
                    first.spans(),
                    media_and_or_spans(conditions@),
                    start as int,
                    mid as int,
                    s.at(),
                );
            }
            Ok(MediaCondition::List { first: Box::new(first), conditions })
        }
    }
}

impl MediaAndOr {
    /// Reads `and (...)` or `or (...)`; anything else is an error.
    pub fn consume(s: &mut Stream) -> (r: Result<MediaAndOr, Error>)
        requires
            old(s).wf(),
        ensures
            final(s).follows(*old(s)),
            r is Ok ==> ordered(r->Ok_0.spans(), old(s).at(), final(s).at()),
            r is Ok ==> final(s).at() > old(s).at(),
            ({
                let d = old(s).text();
                let p = next_token(d, old(s).at());
                &&& r matches Ok(MediaAndOr::And(_)) ==> keyword_at(d, p, kw_and())
                &&& r matches Ok(MediaAndOr::Or(_)) ==> keyword_at(d, p, kw_or())
                &&& (trivia_end(d, old(s).at()) is Some && !keyword_at(d, p, kw_and())
                    && !keyword_at(d, p, kw_or())) ==> r matches Err(Error::InvalidIdent(_))
            }),
            r is Ok <==> mao_end(old(s).text(), old(s).at()) is Some,
            r is Ok ==> final(s).at() == mao_end(old(s).text(), old(s).at())->Some_0 && mao_is(
                old(s).text(),
                old(s).at(),
                r->Ok_0,
            ),
        decreases old(s).rest_len(), 2int,
    {
        match s.skip_spaces_and_comments() {
            Ok(()) => {},
            Err(e) => return Err(e),
        }
        if is_and(s) {
            s.advance(3);
            match MediaInParens::consume(s) {
                Ok(p) => Ok(MediaAndOr::And(p)),
                Err(e) => Err(e),
            }
        } else if is_or(s) {
            s.advance(2);
            match MediaInParens::consume(s) {
                Ok(p) => Ok(MediaAndOr::Or(p)),
                Err(e) => Err(e),
            }
        } else {
            Err(Error::InvalidIdent(s.pos()))
        }
    }

    /// Reads operands introduced by `and` or `or` for as long as there are any,
    /// in the order in which they stand.
    #[verifier::spinoff_prover]
    pub fn consume_many(s: &mut Stream) -> (r: Result<Vec<MediaAndOr>, Error>)
        requires
            old(s).wf(),
        ensures
            final(s).follows(*old(s)),
            r is Ok ==> ordered(media_and_or_spans(r->Ok_0@), old(s).at(), final(s).at()),
            r is Ok <==> media_list_end(old(s).text(), old(s).at()) is Some,
            r is Ok ==> final(s).at() == media_list_end(old(s).text(), old(s).at())->Some_0
                && media_list_is(old(s).text(), old(s).at(), r->Ok_0@),
        decreases old(s).rest_len(), 3int,
    {
        match s.skip_spaces_and_comments() {
            Ok(()) => {},
            Err(e) => return Err(e),
        }
        if !(is_and(s) || is_or(s)) {
            let v: Vec<MediaAndOr> = Vec::new();
            assert(media_and_or_spans(v@) =~= Seq::<Span>::empty());
            return Ok(v);
        }
        let mid = s.pos();
        let a = match MediaAndOr::consume(s) {
            Ok(a) => a,
            Err(e) => return Err(e),
        };
        let mid2 = s.pos();
        let mut rest = match MediaAndOr::consume_many(s) {
            Ok(l) => l,
            Err(e) => return Err(e),
        };
        proof {
            lemma_ordered_concat(a.spans(), media_and_or_spans(rest@), mid as int, mid2 as int, s.at());
        }
        let ghost tail = rest@;
        rest.insert(0, a);
        proof {
            assert(rest@.subrange(1, rest@.len() as int) =~= tail);
            assert(rest@[0] == a);
            lemma_media_list_spans_cons(a, tail);
            assert(rest@ =~= seq![a] + tail);
        }
        Ok(rest)
    }
}

/// Where a run of `and (...)` operands read at `p` ends (after the white
/// space that follows it), or `None` when reading one fails.
pub open spec fn and_list_end(d: Seq<u8>, p: int) -> Option<int>
    decreases d.len() - p,
{
    if p < 0 || p > d.len() {
        None
    } else {
        match tok(d, p) {
            None => None,
            Some(a) => if !keyword_at(d, a, kw_and()) {
                Some(a)
            } else {
                match mip_end(d, a + 3) {
                    None => None,
                    Some(e) => if p < e <= d.len() {
                        and_list_end(d, e)
                    } else {
                        None
                    },
                }
            },
        }
    }
}

/// `l` is the run of `and (...)` operands that reading at `p` gives.
pub open spec fn and_list_is(d: Seq<u8>, p: int, l: Seq<MediaAnd>) -> bool
    decreases l.len(),
{
    let a = tok(d, p)->Some_0;
    if l.len() == 0 {
        !keyword_at(d, a, kw_and())
    } else {
        keyword_at(d, a, kw_and()) && mip_is(d, a + 3, l[0].0) && mip_end(d, a + 3) is Some
            && and_list_is(d, mip_end(d, a + 3)->Some_0, l.subrange(1, l.len() as int))
    }
}

/// Where a media condition without `or` read at `p` ends, or `None`.
#[verifier::opaque]
pub open spec fn mcwo_end(d: Seq<u8>, p: int) -> Option<int> {
    match tok(d, p) {
        None => None,
        Some(a) => if keyword_at(d, a, kw_not()) {
            mip_end(d, a + 3)
        } else {
            match mip_end(d, a) {
                None => None,
                Some(m) => and_list_end(d, m),
            }
        },
    }
}

/// `x` is the condition without `or` that reading at `p` gives.
#[verifier::opaque]
pub open spec fn mcwo_is(d: Seq<u8>, p: int, x: MediaConditionWithoutOr) -> bool {
    let a = tok(d, p)->Some_0;
    match x {
        MediaConditionWithoutOr::Not(i) => keyword_at(d, a, kw_not()) && mip_is(d, a + 3, i),
        MediaConditionWithoutOr::Media { media, conditions } => !keyword_at(d, a, kw_not())
            && mip_is(d, a, media) && and_list_is(d, mip_end(d, a)->Some_0, conditions@),
    }
}

/// Where a run of `and <condition>` items read at `p` ends, or `None`.
#[verifier::opaque]
pub open spec fn wo_list_end(d: Seq<u8>, p: int) -> Option<int>
    decreases d.len() - p,
{
    if p < 0 || p > d.len() {
        None
    } else {
        match tok(d, p) {
            None => None,
            Some(a) => if !keyword_at(d, a, kw_and()) {
                Some(a)
            } else {
                match mcwo_end(d, a + 3) {
                    None => None,
                    Some(e) => if p < e <= d.len() {
                        wo_list_end(d, e)
                    } else {
                        None
                    },
                }
            },
        }
    }
}

/// `l` is the run of `and <condition>` items that reading at `p` gives.
#[verifier::opaque]
pub open spec fn wo_list_is(d: Seq<u8>, p: int, l: Seq<MediaConditionWithoutOr>) -> bool
    decreases l.len(),
{
    let a = tok(d, p)->Some_0;
    if l.len() == 0 {
        !keyword_at(d, a, kw_and())
    } else {
        keyword_at(d, a, kw_and()) && mcwo_is(d, a + 3, l[0]) && mcwo_end(d, a + 3) is Some
            && wo_list_is(d, mcwo_end(d, a + 3)->Some_0, l.subrange(1, l.len() as int))
    }
}

/// Where `<media-type> [and <condition>]*` read at `p` ends, or `None`.
pub open spec fn typed_end(d: Seq<u8>, p: int) -> Option<int> {
    let e = ident_end(d, p, false);
    if e <= p {
        None
    } else {
        wo_list_end(d, e)
    }
}

/// The media type and the conditions are what reading `<media-type> [and
/// <condition>]*` at `p` gives.
pub open spec fn typed_is(
    d: Seq<u8>,
    p: int,
    media_type: Span,
    conditions: Seq<MediaConditionWithoutOr>,
) -> bool {
    let e = ident_end(d, p, false);
    media_type == Span { start: p as usize, end: e as usize } && wo_list_is(d, e, conditions)
}

/// Where the part of a query after `not` read at `p` ends, or `None`.
pub open spec fn nq_end(d: Seq<u8>, p: int) -> Option<int> {
    match tok(d, p) {
        None => None,
        Some(b) => if b < d.len() && d[b] == LPAREN {
            mip_end(d, b)
        } else {
            typed_end(d, b)
        },
    }
}

/// Where a parenthesised condition query read at `a` ends, or `None`.
pub open spec fn pq_end(d: Seq<u8>, a: int) -> Option<int> {
    match mip_end(d, a) {
        None => None,
        Some(m) => media_list_end(d, m),
    }
}

/// Where a media query read at `p` ends, or `None` when reading it fails.
pub open spec fn mq_end(d: Seq<u8>, p: int) -> Option<int> {
    match tok(d, p) {
        None => None,
        Some(a) => if keyword_at(d, a, kw_not()) {
            nq_end(d, a + 3)
        } else if keyword_at(d, a, kw_only()) {
            match tok(d, a + 4) {
                None => None,
                Some(b) => typed_end(d, b),
            }
        } else if a < d.len() && d[a] == LPAREN {
            pq_end(d, a)
        } else {
            typed_end(d, a)
        },
    }
}

/// `x` is the media query that reading at `p` gives.
pub open spec fn mq_is(d: Seq<u8>, p: int, x: MediaQuery) -> bool {
    let a = tok(d, p)->Some_0;
    let b = tok(d, a + 3)->Some_0;
    let paren = a < d.len() && d[a] == LPAREN;
    let paren_b = b < d.len() && d[b] == LPAREN;
    match x {
        MediaQuery::Condition(MediaCondition::Not(i)) => keyword_at(d, a, kw_not()) && paren_b
            && mip_is(d, b, *i),
        MediaQuery::Condition(MediaCondition::List { first, conditions }) => !keyword_at(
            d,
            a,
            kw_not(),
        ) && !keyword_at(d, a, kw_only()) && paren && mip_is(d, a, *first) && media_list_is(
            d,
            mip_end(d, a)->Some_0,
            conditions@,
        ),
        MediaQuery::OtherThing { not_only, media_type, conditions } => if keyword_at(
            d,
            a,
            kw_not(),
        ) {
            not_only == Some(MediaNotOnly::Not) && !paren_b && typed_is(d, b, media_type, conditions@)
        } else if keyword_at(d, a, kw_only()) {
            not_only == Some(MediaNotOnly::Only) && typed_is(
                d,
                tok(d, a + 4)->Some_0,
                media_type,
                conditions@,
            )
        } else {
            not_only == None::<MediaNotOnly> && !paren && typed_is(d, a, media_type, conditions@)
        },
    }
}

proof fn lemma_and_spans_cons(a: MediaAnd, l: Seq<MediaAnd>)
    ensures
        media_and_spans(seq![a] + l) == a.0.spans() + media_and_spans(l),
    decreases l.len(),
{
    let c = seq![a] + l;
    if l.len() == 0 {
        assert(c.drop_last() =~= Seq::<MediaAnd>::empty());
        assert(media_and_spans(Seq::<MediaAnd>::empty()) =~= Seq::<Span>::empty());
        assert(a.0.spans() + Seq::<Span>::empty() =~= a.0.spans());
    } else {
        let init = l.drop_last();
        lemma_and_spans_cons(a, init);
        assert(c.drop_last() =~= seq![a] + init);
        assert(c.last() == l.last());
        assert(a.0.spans() + media_and_spans(init) + l.last().0.spans() =~= a.0.spans() + (
        media_and_spans(init) + l.last().0.spans()));
    }
}

proof fn lemma_wo_spans_cons(a: MediaConditionWithoutOr, l: Seq<MediaConditionWithoutOr>)
    ensures
        without_or_spans(seq![a] + l) == a.spans() + without_or_spans(l),
    decreases l.len(),
{
    let c = seq![a] + l;
    if l.len() == 0 {
        assert(c.drop_last() =~= Seq::<MediaConditionWithoutOr>::empty());
        assert(without_or_spans(Seq::<MediaConditionWithoutOr>::empty()) =~= Seq::<Span>::empty());
        assert(a.spans() + Seq::<Span>::empty() =~= a.spans());
    } else {
        let init = l.drop_last();
        lemma_wo_spans_cons(a, init);
        assert(c.drop_last() =~= seq![a] + init);
        assert(c.last() == l.last());
        assert(a.spans() + without_or_spans(init) + l.last().spans() =~= a.spans() + (
        without_or_spans(init) + l.last().spans()));
    }
}

/// Reads `and (...)` operands for as long as `and` follows.
#[verifier::spinoff_prover]
fn consume_ands(s: &mut Stream) -> (r: Result<Vec<MediaAnd>, Error>)
    requires
        old(s).wf(),
    ensures
        final(s).follows(*old(s)),
        r is Ok ==> ordered(media_and_spans(r->Ok_0@), old(s).at(), final(s).at()),
        r is Ok <==> and_list_end(old(s).text(), old(s).at()) is Some,
        r is Ok ==> final(s).at() == and_list_end(old(s).text(), old(s).at())->Some_0
            && and_list_is(old(s).text(), old(s).at(), r->Ok_0@),
    decreases old(s).rest_len(),
{
    match s.skip_spaces_and_comments() {
        Ok(()) => {},
        Err(e) => return Err(e),
    }
    if !is_and(s) {
        let v: Vec<MediaAnd> = Vec::new();
        assert(media_and_spans(v@) =~= Seq::<Span>::empty());
        return Ok(v);
    }
    let q = s.pos();
    s.advance(3);
    let p = match MediaInParens::consume(s) {
        Ok(p) => p,
        Err(e) => return Err(e),
    };
    let mid2 = s.pos();
    let mut rest = match consume_ands(s) {
        Ok(l) => l,
        Err(e) => return Err(e),
    };
    let a = MediaAnd(p);
    proof {
        lemma_ordered_concat(a.0.spans(), media_and_spans(rest@), q as int, mid2 as int, s.at());
    }
    let ghost tail = rest@;
    rest.insert(0, a);
    proof {
        assert(rest@.subrange(1, rest@.len() as int) =~= tail);
        assert(rest@ =~= seq![a] + tail);
        lemma_and_spans_cons(a, tail);
    }
    Ok(rest)
}

impl MediaConditionWithoutOr {
    /// Reads `not (...)`, or an operand followed by operands each introduced by `and`.
    #[verifier::spinoff_prover]
    pub fn consume(s: &mut Stream) -> (r: Result<MediaConditionWithoutOr, Error>)
        requires
            old(s).wf(),
        ensures
            final(s).follows(*old(s)),
            r is Ok ==> ordered(r->Ok_0.spans(), old(s).at(), final(s).at()),
            r is Ok ==> final(s).at() > old(s).at(),
            r is Ok <==> mcwo_end(old(s).text(), old(s).at()) is Some,
            r is Ok ==> final(s).at() == mcwo_end(old(s).text(), old(s).at())->Some_0 && mcwo_is(
                old(s).text(),
                old(s).at(),
                r->Ok_0,
            ),
    {
        proof {
            reveal(mcwo_end);
            reveal(mcwo_is);
        }
        match s.skip_spaces_and_comments() {
            Ok(()) => {},
            Err(e) => return Err(e),
        }
        let start = s.pos();
        if is_not(s) {
            s.advance(3);
            return match MediaInParens::consume(s) {
                Ok(p) => Ok(MediaConditionWithoutOr::Not(p)),
                Err(e) => Err(e),
            };
        }
        let media = match MediaInParens::consume(s) {
            Ok(p) => p,
            Err(e) => return Err(e),
        };
        let mid = s.pos();
        let conditions = match consume_ands(s) {
            Ok(c) => c,
            Err(e) => return Err(e),
        };
        proof {
            lemma_ordered_concat(media.spans(), media_and_spans(conditions@), start as int, mid as int, s.at());
        }
        Ok(MediaConditionWithoutOr::Media { media, conditions })
    }
}

/// Reads `and <condition>` items for as long as `and` follows.
#[verifier::spinoff_prover]
#[verifier::rlimit(100)]
fn consume_wo_list(s: &mut Stream) -> (r: Result<Vec<MediaConditionWithoutOr>, Error>)
    requires
        old(s).wf(),
    ensures
        final(s).follows(*old(s)),
        r is Ok ==> ordered(without_or_spans(r->Ok_0@), old(s).at(), final(s).at()),
        r is Ok <==> wo_list_end(old(s).text(), old(s).at()) is Some,
        r is Ok ==> final(s).at() == wo_list_end(old(s).text(), old(s).at())->Some_0
            && wo_list_is(old(s).text(), old(s).at(), r->Ok_0@),
    decreases old(s).rest_len(),
{
    let ghost d = old(s).text();
    let ghost p0 = old(s).at();
    proof {
        reveal_with_fuel(wo_list_end, 1);
        reveal_with_fuel(wo_list_is, 1);
    }
    match s.skip_spaces_and_comments() {
        Ok(()) => {},
        Err(e) => return Err(e),
    }
    assert(tok(d, p0) == Some(s.at()));
    if !is_and(s) {
        assert(wo_list_end(d, p0) == Some(s.at()));
        let v: Vec<MediaConditionWithoutOr> = Vec::new();
        assert(without_or_spans(v@) =~= Seq::<Span>::empty());
        return Ok(v);
    }
    let q = s.pos();
    s.advance(3);
    let c = match MediaConditionWithoutOr::consume(s) {
        Ok(c) => c,
        Err(e) => return Err(e),
    };
    let mid2 = s.pos();
    assert(mcwo_end(d, q + 3) == Some(mid2 as int));
    assert(wo_list_end(d, p0) == wo_list_end(d, mid2 as int));
    let mut rest = match consume_wo_list(s) {
        Ok(l) => l,
        Err(e) => return Err(e),
    };
    proof {
        lemma_ordered_concat(c.spans(), without_or_spans(rest@), q as int, mid2 as int, s.at());
    }
    let ghost tail = rest@;
    let ghost c2 = c;
    rest.insert(0, c);
    proof {
        assert(rest@.subrange(1, rest@.len() as int) =~= tail);
        assert(rest@ =~= seq![c2] + tail);
        lemma_wo_spans_cons(c2, tail);
        assert(rest@[0] == c2);
        assert(wo_list_is(d, p0, rest@));
    }
    Ok(rest)
}

/// Reads `<media-type> [and <condition>]*`, the part of a query after any
/// `not` or `only`.
#[verifier::spinoff_prover]
fn consume_typed(s: &mut Stream, not_only: Option<MediaNotOnly>) -> (r: Result<MediaQuery, Error>)
    requires
        old(s).wf(),
    ensures
        final(s).follows(*old(s)),
        r is Ok ==> ordered(r->Ok_0.spans(), old(s).at(), final(s).at()),
        r is Ok ==> final(s).at() > old(s).at(),
        r is Ok <==> typed_end(old(s).text(), old(s).at()) is Some,
        r is Ok ==> final(s).at() == typed_end(old(s).text(), old(s).at())->Some_0,
        r is Ok ==> (r->Ok_0 matches MediaQuery::OtherThing { not_only: n, media_type, conditions }
            && n == not_only && typed_is(old(s).text(), old(s).at(), media_type, conditions@)),
{
    let media_type = match s.consume_ident() {
        Ok(t) => t,
        Err(e) => return Err(e),
    };
    let mid = s.pos();
    let conditions = match consume_wo_list(s) {
        Ok(c) => c,
        Err(e) => return Err(e),
    };
    proof {
        assert(seq![media_type][0] == media_type);
        lemma_ordered_concat(seq![media_type], without_or_spans(conditions@), old(s).at(), mid as int, s.at());
    }
    Ok(MediaQuery::OtherThing { not_only, media_type, conditions })
}

/// Reads the part of a query after `not`: `(...)` or `<type> [and ...]*`.
fn consume_not_query(s: &mut Stream) -> (r: Result<MediaQuery, Error>)
    requires
        old(s).wf(),
    ensures
        final(s).follows(*old(s)),
        r is Ok ==> ordered(r->Ok_0.spans(), old(s).at(), final(s).at()),
        r is Ok ==> final(s).at() > old(s).at(),
        r is Ok <==> nq_end(old(s).text(), old(s).at()) is Some,
        r is Ok ==> final(s).at() == nq_end(old(s).text(), old(s).at())->Some_0,
        ({
            let d = old(s).text();
            let b = tok(d, old(s).at())->Some_0;
            let paren_b = b < d.len() && d[b] == LPAREN;
            &&& r matches Ok(MediaQuery::Condition(MediaCondition::Not(i))) ==> paren_b && mip_is(d, b, *i)
            &&& r matches Ok(MediaQuery::Condition(MediaCondition::List { .. })) ==> false
            &&& r matches Ok(MediaQuery::OtherThing { not_only, media_type, conditions }) ==> not_only
                == Some(MediaNotOnly::Not) && !paren_b && typed_is(d, b, media_type, conditions@)
        }),
{
    match s.skip_spaces_and_comments() {
        Ok(()) => {},
        Err(e) => return Err(e),
    }
    if s.is_curr(LPAREN) {
        match MediaInParens::consume(s) {
            Ok(p) => Ok(MediaQuery::Condition(MediaCondition::Not(Box::new(p)))),
            Err(e) => Err(e),
        }
    } else {
        consume_typed(s, Some(MediaNotOnly::Not))
    }
}

/// Reads a query that opens with a parenthesis: an operand and its
/// `and`/`or` operands.
fn consume_paren_query(s: &mut Stream) -> (r: Result<MediaQuery, Error>)
    requires
        old(s).wf(),
    ensures
        final(s).follows(*old(s)),
        r is Ok ==> ordered(r->Ok_0.spans(), old(s).at(), final(s).at()),
        r is Ok ==> final(s).at() > old(s).at(),
        r is Ok <==> pq_end(old(s).text(), old(s).at()) is Some,
        r is Ok ==> final(s).at() == pq_end(old(s).text(), old(s).at())->Some_0,
        ({
            let d = old(s).text();
            let a = old(s).at();
            r is Ok ==> (r->Ok_0 matches MediaQuery::Condition(
                MediaCondition::List { first, conditions },
            ) && mip_is(d, a, *first) && media_list_is(d, mip_end(d, a)->Some_0, conditions@))
        }),
{
    let start = s.pos();
    let first = match MediaInParens::consume(s) {
        Ok(p) => p,
        Err(e) => return Err(e),
    };
    let mid = s.pos();
    let conditions = match MediaAndOr::consume_many(s) {
        Ok(l) => l,
        Err(e) => return Err(e),
    };
    proof {
        lemma_ordered_concat(
            first.spans(),
            media_and_or_spans(conditions@),
            start as int,
            mid as int,
            s.at(),
        );
    }
    Ok(MediaQuery::Condition(MediaCondition::List { first: Box::new(first), conditions }))
}

impl MediaQuery {
    /// Reads one query: `not (...)`, `not <type> [and ...]*`,
    /// `only <type> [and ...]*`, a parenthesised condition with its `and` /
    /// `or` operands, or `<type> [and ...]*`.
    pub fn consume(s: &mut Stream) -> (r: Result<MediaQuery, Error>)
        requires
            old(s).wf(),
        ensures
            final(s).follows(*old(s)),
            r is Ok ==> ordered(r->Ok_0.spans(), old(s).at(), final(s).at()),
            r is Ok ==> final(s).at() > old(s).at(),
            r is Ok <==> mq_end(old(s).text(), old(s).at()) is Some,
            r is Ok ==> final(s).at() == mq_end(old(s).text(), old(s).at())->Some_0 && mq_is(
                old(s).text(),
                old(s).at(),
                r->Ok_0,
            ),
    {
        match s.skip_spaces_and_comments() {
            Ok(()) => {},
            Err(e) => return Err(e),
        }
        if is_not(s) {
            s.advance(3);
            consume_not_query(s)
        } else if is_only(s) {
            s.advance(4);
            match s.skip_spaces_and_comments() {
                Ok(()) => {},
                Err(e) => return Err(e),
            }
            consume_typed(s, Some(MediaNotOnly::Only))
        } else if s.is_curr(LPAREN) {
            consume_paren_query(s)
        } else {
            consume_typed(s, None)
        }
    }
}

/// Where the queries after the first, each after one separator byte, read at
/// `p` end (at the `{` of the block), or `None`.
#[verifier::opaque]
pub open spec fn more_queries_end(d: Seq<u8>, p: int) -> Option<int>
    decreases d.len() - p,
{
    if p < 0 || p > d.len() {
        None
    } else {
        match tok(d, p) {
            None => None,
            Some(a) => if a < d.len() && d[a] == LBRACE {
                Some(a)
            } else if a >= d.len() {
                None
            } else {
                match mq_end(d, a + 1) {
                    None => None,
                    Some(e) => if p < e <= d.len() {
                        more_queries_end(d, e)
                    } else {
                        None
                    },
                }
            },
        }
    }
}

/// `l` is the queries after the first that reading at `p` gives.
#[verifier::opaque]
pub open spec fn more_queries_is(d: Seq<u8>, p: int, l: Seq<MediaQuery>) -> bool
    decreases l.len(),
{
    let a = tok(d, p)->Some_0;
    if l.len() == 0 {
        a < d.len() && d[a] == LBRACE
    } else {
        !(a < d.len() && d[a] == LBRACE) && a < d.len() && mq_is(d, a + 1, l[0]) && mq_end(d, a + 1)
            is Some && more_queries_is(d, mq_end(d, a + 1)->Some_0, l.subrange(1, l.len() as int))
    }
}

/// Where an `@media` rule read at `p` (after its name) ends, or `None`.
#[verifier::opaque]
pub open spec fn media_rule_end(d: Seq<u8>, p: int) -> Option<int> {
    match mq_end(d, p) {
        None => None,
        Some(m) => match more_queries_end(d, m) {
            None => None,
            Some(b) => block_rules_end(d, b),
        },
    }
}

proof fn lemma_query_spans_cons(a: MediaQuery, l: Seq<MediaQuery>)
    ensures
        query_spans(seq![a] + l) == a.spans() + query_spans(l),
    decreases l.len(),
{
    let c = seq![a] + l;
    if l.len() == 0 {
        assert(c.drop_last() =~= Seq::<MediaQuery>::empty());
        assert(query_spans(Seq::<MediaQuery>::empty()) =~= Seq::<Span>::empty());
        assert(a.spans() + Seq::<Span>::empty() =~= a.spans());
    } else {
        let init = l.drop_last();
        lemma_query_spans_cons(a, init);
        assert(c.drop_last() =~= seq![a] + init);
        assert(c.last() == l.last());
        assert(a.spans() + query_spans(init) + l.last().spans() =~= a.spans() + (query_spans(init)
            + l.last().spans()));
    }
}

/// Reads the queries after the first, each after one separator byte, up to
/// the `{` of the block (not consumed).
#[verifier::spinoff_prover]
fn consume_more_queries(s: &mut Stream) -> (r: Result<Vec<MediaQuery>, Error>)
    requires
        old(s).wf(),
    ensures
        final(s).follows(*old(s)),
        r is Ok ==> ordered(query_spans(r->Ok_0@), old(s).at(), final(s).at()),
        r is Ok <==> more_queries_end(old(s).text(), old(s).at()) is Some,
        r is Ok ==> final(s).at() == more_queries_end(old(s).text(), old(s).at())->Some_0
            && more_queries_is(old(s).text(), old(s).at(), r->Ok_0@),
    decreases old(s).rest_len(),
{
    proof {
        reveal(more_queries_end);
        reveal(more_queries_is);
    }
    let ghost d = old(s).text();
    let ghost p0 = old(s).at();
    match s.skip_spaces_and_comments() {
        Ok(()) => {},
        Err(e) => return Err(e),
    }
    assert(tok(d, p0) == Some(s.at()));
    if s.is_curr(LBRACE) {
        let v: Vec<MediaQuery> = Vec::new();
        assert(query_spans(v@) =~= Seq::<Span>::empty());
        return Ok(v);
    }
    if s.at_end() {
        return Err(Error::UnexpectedEndOfStream(s.pos()));
    }
    let a = s.pos();
    s.advance(1);
    let q = match MediaQuery::consume(s) {
        Ok(q) => q,
        Err(e) => return Err(e),
    };
    let mid2 = s.pos();
    assert(more_queries_end(d, p0) == more_queries_end(d, mid2 as int));
    let mut rest = match consume_more_queries(s) {
        Ok(l) => l,
        Err(e) => return Err(e),
    };
    proof {
        lemma_ordered_concat(q.spans(), query_spans(rest@), (a + 1) as int, mid2 as int, s.at());
    }
    let ghost tail = rest@;
    let ghost q2 = q;
    rest.insert(0, q);
    proof {
        assert(rest@.subrange(1, rest@.len() as int) =~= tail);
        assert(rest@ =~= seq![q2] + tail);
        assert(rest@[0] == q2);
        lemma_query_spans_cons(q2, tail);
    }
    Ok(rest)
}

/// `m` is the `@media` rule that reading at `p` (after its name) gives.
#[verifier::opaque]
pub open spec fn media_is(d: Seq<u8>, p: int, m: Media) -> bool {
    &&& m.query@.len() >= 1
    &&& mq_is(d, p, m.query@[0])
    &&& more_queries_is(d, mq_end(d, p)->Some_0, m.query@.subrange(1, m.query@.len() as int))
    &&& rule_set_is(d, more_queries_end(d, mq_end(d, p)->Some_0)->Some_0 + 1, m.rules@)
}

impl Media {
    /// Reads the comma-separated queries and the block of an `@media` rule.
    #[verifier::spinoff_prover]
    pub fn consume(s: &mut Stream) -> (r: Result<Media, Error>)
        requires
            old(s).wf(),
        ensures
            final(s).follows(*old(s)),
            r is Ok ==> r->Ok_0.query@.len() >= 1,
            r is Ok ==> ordered(query_spans(r->Ok_0.query@), old(s).at(), final(s).at()),
            r is Ok ==> ordered(rule_spans(r->Ok_0.rules@), old(s).at(), final(s).at()),
            r is Ok <==> media_rule_end(old(s).text(), old(s).at()) is Some,
            r is Ok ==> final(s).at() == media_rule_end(old(s).text(), old(s).at())->Some_0,
            r is Ok ==> mq_is(old(s).text(), old(s).at(), r->Ok_0.query@[0]) && more_queries_is(
                old(s).text(),
                mq_end(old(s).text(), old(s).at())->Some_0,
                r->Ok_0.query@.subrange(1, r->Ok_0.query@.len() as int),
            ),
            r is Ok ==> rule_set_is(
                old(s).text(),
                more_queries_end(old(s).text(), mq_end(old(s).text(), old(s).at())->Some_0)->Some_0
                    + 1,
                r->Ok_0.rules@,
            ),
            r is Ok ==> media_is(old(s).text(), old(s).at(), r->Ok_0),
    {
        proof {
            reveal(media_is);
        }
        proof {
            reveal(media_rule_end);
        }
        let first = match MediaQuery::consume(s) {
            Ok(q) => q,
            Err(e) => return Err(e),
        };
        let m = s.pos();
        let mut query = match consume_more_queries(s) {
            Ok(l) => l,
            Err(e) => return Err(e),
        };
        proof {
            lemma_ordered_concat(first.spans(), query_spans(query@), old(s).at(), m as int, s.at());
        }
        let ghost tail = query@;
        let ghost f = first;
        query.insert(0, first);
        proof {
            assert(query@.subrange(1, query@.len() as int) =~= tail);
            assert(query@ =~= seq![f] + tail);
            lemma_query_spans_cons(f, tail);
        }
        match s.consume_byte(LBRACE) {
            Ok(()) => {},
            Err(e) => return Err(e),
        }
        let rules = match consume_rule_set(s) {
            Ok(r) => r,
            Err(e) => return Err(e),
        };
        match s.skip_spaces_and_comments() {
            Ok(()) => {},
            Err(e) => return Err(e),
        }
        match s.consume_byte(RBRACE) {
            Ok(()) => {},
            Err(e) => return Err(e),
        }
        Ok(Media { query, rules })
    }
}

} // verus!
