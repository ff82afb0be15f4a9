use vstd::prelude::*;
use crate::at_rule::{is_and, is_not, is_or, keyword_at, kw_and, kw_not, kw_or, opens_group};
use crate::sheet::{
    block_rules_end, consume_declaration, rule_set_is, consume_rule_set, parse_declaration, rule_spans, Declaration, Rule,
};
use crate::stream::{
    next_token, tok,
    lemma_ordered_concat, ordered, trivia_end, Error, Span, Stream, LBRACE, LPAREN, RBRACE,
    RPAREN,
};

verus! {

/// An `@supports` rule.
#[derive(Debug, PartialEq, Eq)]
pub struct Supports {
    /// The condition.
    pub condition: SupportsCondition,
    /// The rules of the block.
    pub rules: Vec<Rule>,
}

/// A supports condition.
#[derive(Debug, PartialEq, Eq)]
pub enum SupportsCondition {
    /// `not (...)`
    Not(SupportsInParens),
    /// A first operand and the operands that follow it, each with its `and` or `or`.
    List { first: SupportsInParens, list: Vec<SupportsAndOr> },
}

/// An operand that follows `and` or `or`.
#[derive(Debug, PartialEq, Eq)]
pub enum SupportsAndOr {
    /// Follows `and`.
    And(SupportsInParens),
    /// Follows `or`.
    Or(SupportsInParens),
}

/// A parenthesised operand.
#[derive(Debug, PartialEq, Eq)]
pub enum SupportsInParens {
    /// A nested condition.
    Condition(Box<SupportsCondition>),
    /// A `name: value` declaration.
    Feature(Declaration),
}

impl SupportsCondition {
    /// The text leaves of the condition, in the order of the tree.
    pub open spec fn spans(&self) -> Seq<Span>
        decreases self,
    {
        match self {
            SupportsCondition::Not(p) => p.spans(),
            SupportsCondition::List { first, list } => first.spans() + supports_list_spans(list@),
        }
    }
}

impl SupportsAndOr {
    /// The text leaves, in the order of the tree.
    pub open spec fn spans(&self) -> Seq<Span>
        decreases self,
    {
        match self {
            SupportsAndOr::And(p) => p.spans(),
            SupportsAndOr::Or(p) => p.spans(),
        }
    }
}

impl SupportsInParens {
    /// The text leaves, in the order of the tree.
    pub open spec fn spans(&self) -> Seq<Span>
        decreases self,
    {
        match self {
            SupportsInParens::Condition(c) => c.spans(),
            SupportsInParens::Feature(d) => d.spans(),
        }
    }
}

/// The spans of the items of `l`, in order.
pub open spec fn supports_list_spans(l: Seq<SupportsAndOr>) -> Seq<Span>
    decreases l,
{
    if l.len() == 0 {
        Seq::empty()
    } else {
        supports_list_spans(l.subrange(0, l.len() - 1)) + l[l.len() - 1].spans()
    }
}

/// Where a parenthesised supports operand read at `p` ends, or `None` when
/// reading it fails.
pub open spec fn sip_end(d: Seq<u8>, p: int) -> Option<int>
    decreases d.len() - p, 1int,
{
    if p < 0 || p > d.len() {
        None
    } else {
        match tok(d, p) {
            None => None,
            Some(a) => if !(a < d.len() && d[a] == LPAREN) {
                None
            } else {
                match tok(d, a + 1) {
                    None => None,
                    Some(c) => {
                        let inner = if opens_group(d, c) {
                            sc_end(d, a + 1)
                        } else {
                            match parse_declaration(d, c) {
                                Some((_, e)) => Some(e),
                                None => None,
                            }
                        };
                        match inner {
                            None => None,
                            Some(e) => match tok(d, e) {
                                None => None,
                                Some(z) => if z < d.len() && d[z] == RPAREN {
                                    Some(z + 1)
                                } else {
                                    None
                                },
                            },
                        }
                    },
                }
            },
        }
    }
}

/// Where a supports condition read at `p` ends, or `None` when reading it fails.
pub open spec fn sc_end(d: Seq<u8>, p: int) -> Option<int>
    decreases d.len() - p, 4int,
{
    if p < 0 || p > d.len() {
        None
    } else {
        match tok(d, p) {
            None => None,
            Some(a) => if keyword_at(d, a, kw_not()) {
                sip_end(d, a + 3)
            } else {
                match sip_end(d, a) {
                    None => None,
                    Some(m) => if p <= m <= d.len() {
                        supports_list_end(d, m)
                    } else {
                        None
                    },
                }
            },
        }
    }
}

/// What looking for `and (...)` or `or (...)` at `p` gives: `None` when
/// reading fails, `Some(None)` when neither keyword stands there, and the end
/// of the operand otherwise.
pub open spec fn sao_end(d: Seq<u8>, p: int) -> Option<Option<int>>
    decreases d.len() - p, 2int,
{
    if p < 0 || p > d.len() {
        None
    } else {
        match tok(d, p) {
            None => None,
            Some(a) => if keyword_at(d, a, kw_and()) {
                match sip_end(d, a + 3) {
                    Some(e) => Some(Some(e)),
                    None => None,
                }
            } else if keyword_at(d, a, kw_or()) {
                match sip_end(d, a + 2) {
                    Some(e) => Some(Some(e)),
                    None => None,
                }
            } else {
                Some(None)
            },
        }
    }
}

/// Where a run of `and`/`or` operands read at `p` ends, or `None` when
/// reading one fails.
pub open spec fn supports_list_end(d: Seq<u8>, p: int) -> Option<int>
    decreases d.len() - p, 3int,
{
    if p < 0 || p > d.len() {
        None
    } else {
        match sao_end(d, p) {
            None => None,
            Some(None) => tok(d, p),
            Some(Some(m)) => if p < m <= d.len() {
                supports_list_end(d, m)
            } else {
                None
            },
        }
    }
}

/// `x` is the operand that reading at `p` gives.
pub open spec fn sip_is(d: Seq<u8>, p: int, x: SupportsInParens) -> bool
    decreases x,
{
    let a = tok(d, p)->Some_0;
    let c = tok(d, a + 1)->Some_0;
    match x {
        SupportsInParens::Condition(b) => opens_group(d, c) && sc_is(d, a + 1, *b),
        SupportsInParens::Feature(dl) => !opens_group(d, c) && parse_declaration(d, c)->Some_0.0
            == dl,
    }
}

/// `x` is the condition that reading at `p` gives.
pub open spec fn sc_is(d: Seq<u8>, p: int, x: SupportsCondition) -> bool
    decreases x,
{
    let a = tok(d, p)->Some_0;
    match x {
        SupportsCondition::Not(i) => keyword_at(d, a, kw_not()) && sip_is(d, a + 3, i),
        SupportsCondition::List { first, list } => !keyword_at(d, a, kw_not()) && sip_is(
            d,
            a,
            first,
        ) && supports_list_is(d, sip_end(d, a)->Some_0, list@),
    }
}

/// `x` is the operand, with its keyword, that reading at `p` gives.
pub open spec fn sao_is(d: Seq<u8>, p: int, x: SupportsAndOr) -> bool
    decreases x,
{
    let a = tok(d, p)->Some_0;
    match x {
        SupportsAndOr::And(i) => keyword_at(d, a, kw_and()) && sip_is(d, a + 3, i),
        SupportsAndOr::Or(i) => !keyword_at(d, a, kw_and()) && keyword_at(d, a, kw_or()) && sip_is(
            d,
            a + 2,
            i,
        ),
    }
}

/// `l` is the run of `and`/`or` operands that reading at `p` gives: the
/// first item is read at `p`, the rest where it ended, and no further
/// `and`/`or` follows the last.
pub open spec fn supports_list_is(d: Seq<u8>, p: int, l: Seq<SupportsAndOr>) -> bool
    decreases l,
{
    if l.len() == 0 {
        sao_end(d, p) == Some(None::<int>)
    } else {
        match sao_end(d, p) {
            Some(Some(m)) => sao_is(d, p, l[0]) && supports_list_is(d, m, l.subrange(1, l.len() as int)),
            _ => false,
        }
    }
}

proof fn lemma_supports_list_cons(
    d: Seq<u8>,
    p: int,
    a: SupportsAndOr,
    tail: Seq<SupportsAndOr>,
    m: int,
)
    requires
        sao_end(d, p) == Some(Some(m)),
        sao_is(d, p, a),
        supports_list_is(d, m, tail),
    ensures
        supports_list_is(d, p, seq![a] + tail),
{
    let l = seq![a] + tail;
    assert(l.subrange(1, l.len() as int) =~= tail);
    assert(l[0] == a);
}

proof fn lemma_supports_list_nil(d: Seq<u8>, p: int)
    requires
        sao_end(d, p) == Some(None::<int>),
    ensures
        supports_list_is(d, p, Seq::<SupportsAndOr>::empty()),
{
}

proof fn lemma_supports_list_spans_cons(a: SupportsAndOr, l: Seq<SupportsAndOr>)
    ensures
        supports_list_spans(seq![a] + l) == a.spans() + supports_list_spans(l),
    decreases l.len(),
{
    let c = seq![a] + l;
    if l.len() == 0 {
        assert(c.subrange(0, c.len() - 1) =~= Seq::<SupportsAndOr>::empty());
        assert(supports_list_spans(Seq::<SupportsAndOr>::empty()) =~= Seq::<Span>::empty());
        assert(a.spans() + Seq::<Span>::empty() =~= a.spans());
    } else {
        let init = l.subrange(0, l.len() - 1);
        lemma_supports_list_spans_cons(a, init);
        assert(c.subrange(0, c.len() - 1) =~= seq![a] + init);
        assert(c[c.len() - 1] == l[l.len() - 1]);
        assert(a.spans() + supports_list_spans(init) + l[l.len() - 1].spans() =~= a.spans() + (
        supports_list_spans(init) + l[l.len() - 1].spans()));
    }
}

/// Where an `@supports` rule read at `p` (after its name) ends, or `None`.
#[verifier::opaque]
pub open spec fn supports_rule_end(d: Seq<u8>, p: int) -> Option<int> {
    match sc_end(d, p) {
        None => None,
        Some(e) => match tok(d, e) {
            None => None,
            Some(b) => block_rules_end(d, b),
        },
    }
}

/// `x` is the `@supports` rule that reading at `p` (after its name) gives.
#[verifier::opaque]
pub open spec fn supports_rule_is(d: Seq<u8>, p: int, x: Supports) -> bool {
    &&& sc_is(d, p, x.condition)
    &&& rule_set_is(d, tok(d, sc_end(d, p)->Some_0)->Some_0 + 1, x.rules@)
}

impl Supports {
    /// Reads the condition and the block of an `@supports` rule.
    pub fn consume(s: &mut Stream) -> (r: Result<Supports, Error>)
        requires
            old(s).wf(),
        ensures
            final(s).follows(*old(s)),
            r is Ok ==> ordered(r->Ok_0.condition.spans(), old(s).at(), final(s).at()),
            r is Ok ==> ordered(rule_spans(r->Ok_0.rules@), old(s).at(), final(s).at()),
            r is Ok <==> supports_rule_end(old(s).text(), old(s).at()) is Some,
            r is Ok ==> final(s).at() == supports_rule_end(old(s).text(), old(s).at())->Some_0
                && sc_is(old(s).text(), old(s).at(), r->Ok_0.condition),
            r is Ok ==> rule_set_is(
                old(s).text(),
                tok(old(s).text(), sc_end(old(s).text(), old(s).at())->Some_0)->Some_0 + 1,
                r->Ok_0.rules@,
            ),
            r is Ok ==> supports_rule_is(old(s).text(), old(s).at(), r->Ok_0),
    {
        proof {
            reveal(supports_rule_is);
        }
        proof {
            reveal(supports_rule_end);
        }
        let condition = match SupportsCondition::consume(s) {
            Ok(c) => c,
            Err(e) => return Err(e),
        };
        match s.skip_spaces_and_comments() {
            Ok(()) => {},
            Err(e) => return Err(e),
        }
        match s.consume_byte(LBRACE) {
            Ok(()) => {},
            Err(e) => return Err(e),
        }
        let rules = match consume_rule_set(s) {
            Ok(r) => r,
            Err(e) => return Err(e),
        };
        match s.skip_spaces_and_comments() {
            Ok(()) => {},
            Err(e) => return Err(e),
        }
        match s.consume_byte(RBRACE) {
            Ok(()) => {},
            Err(e) => return Err(e),
        }
        Ok(Supports { condition, rules })
    }
}

impl SupportsCondition {
    /// Reads `not (...)`, or an operand followed by any number of operands
    /// each introduced by `and` or `or`.
    pub fn consume(s: &mut Stream) -> (r: Result<SupportsCondition, Error>)
        requires
            old(s).wf(),
        ensures
            final(s).follows(*old(s)),
            r is Ok ==> ordered(r->Ok_0.spans(), old(s).at(), final(s).at()),
            r is Ok ==> trivia_end(old(s).text(), old(s).at()) is Some && (r->Ok_0 is Not
                <==> keyword_at(old(s).text(), next_token(old(s).text(), old(s).at()), kw_not())),
            r is Ok <==> sc_end(old(s).text(), old(s).at()) is Some,
            r is Ok ==> final(s).at() == sc_end(old(s).text(), old(s).at())->Some_0 && sc_is(
                old(s).text(),
                old(s).at(),
                r->Ok_0,
            ),
        decreases old(s).rest_len(), 4int,
    {
        match s.skip_spaces_and_comments() {
            Ok(()) => {},
            Err(e) => return Err(e),
        }
        let start = s.pos();
        let ghost d = old(s).text();
        let ghost p0 = old(s).at();
        if is_not(s) {
            s.advance(3);
            match SupportsInParens::consume(s) {
                Ok(p) => {
                    Ok(SupportsCondition::Not(p))
                },
                Err(e) => {
                    Err(e)
                },
            }
        } else {
            let first = match SupportsInParens::consume(s) {
                Ok(p) => p,
                Err(e) => {
                    return Err(e);
                },
            };
            let mid = s.pos();
            let list = match SupportsAndOr::consume_many(s) {
                Ok(l) => l,
                Err(e) => {
                    return Err(e);
                },
            };
            proof {
                lemma_ordered_concat(
                    first.spans(),
                    supports_list_spans(list@),
                    start as int,
                    mid as int,
                    s.at(),
                );
            }
            Ok(SupportsCondition::List { first, list })
        }
    }

    /// Reads a condition if one starts here (`not` or `(`); otherwise leaves
    /// the cursor where it was and returns `None`.
    pub fn try_consume(s: &mut Stream) -> (r: Result<Option<SupportsCondition>, Error>)
        requires
            old(s).wf(),
        ensures
            final(s).follows(*old(s)),
            r matches Ok(Some(c)) ==> ordered(c.spans(), old(s).at(), final(s).at()),
            r matches Ok(None) ==> final(s).at() == next_token(old(s).text(), old(s).at()),
            ({
                let d = old(s).text();
                let p = next_token(d, old(s).at());
                &&& r matches Ok(Some(_)) ==> opens_group(d, p)
                &&& r matches Ok(None) ==> !opens_group(d, p)
                &&& (trivia_end(d, old(s).at()) is Some && !opens_group(d, p)) ==> r matches Ok(
                    None,
                )
            }),
            ({
                let d = old(s).text();
                let p = old(s).at();
                &&& r is Ok <==> tok(d, p) is Some && (opens_group(d, tok(d, p)->Some_0) ==> sc_end(
                    d,
                    p,
                ) is Some)
                &&& r matches Ok(Some(c)) ==> final(s).at() == sc_end(d, p)->Some_0 && sc_is(d, p, c)
            }),
        decreases old(s).rest_len(), 5int,
    {
        let start = s.pos();
        match s.skip_spaces_and_comments() {
            Ok(()) => {},
            Err(e) => return Err(e),
        }
        if is_not(s) || s.is_curr(LPAREN) {
            s.reset_pos(start);
            match SupportsCondition::consume(s) {
                Ok(c) => Ok(Some(c)),
                Err(e) => Err(e),
            }
        } else {
            Ok(None)
        }
    }
}

impl SupportsAndOr {
    /// Reads `and (...)` or `or (...)` if one of the keywords stands next;
    /// otherwise leaves the cursor where it was and returns `None`.
    pub fn try_consume(s: &mut Stream) -> (r: Result<Option<SupportsAndOr>, Error>)
        requires
            old(s).wf(),
        ensures
            final(s).follows(*old(s)),
            r matches Ok(Some(a)) ==> ordered(a.spans(), old(s).at(), final(s).at())
                && final(s).at() > old(s).at(),
            r matches Ok(None) ==> final(s).at() == next_token(old(s).text(), old(s).at()),
            ({
                let d = old(s).text();
                let p = next_token(d, old(s).at());
                &&& r matches Ok(Some(SupportsAndOr::And(_))) ==> keyword_at(d, p, kw_and())
                &&& r matches Ok(Some(SupportsAndOr::Or(_))) ==> keyword_at(d, p, kw_or())
                &&& r matches Ok(None) ==> !keyword_at(d, p, kw_and()) && !keyword_at(d, p, kw_or())
                &&& (trivia_end(d, old(s).at()) is Some && !keyword_at(d, p, kw_and())
                    && !keyword_at(d, p, kw_or())) ==> r matches Ok(None)
            }),
            r is Ok <==> sao_end(old(s).text(), old(s).at()) is Some,
            r matches Ok(None) ==> sao_end(old(s).text(), old(s).at()) == Some(None::<int>),
            r matches Ok(None) ==> tok(old(s).text(), old(s).at()) == Some(final(s).at()),
            r matches Ok(Some(a)) ==> sao_end(old(s).text(), old(s).at()) == Some(
                Some(final(s).at()),
            ) && sao_is(old(s).text(), old(s).at(), a),
        decreases old(s).rest_len(), 2int,
    {
        let start = s.pos();
        match s.skip_spaces_and_comments() {
            Ok(()) => {},
            Err(e) => return Err(e),
        }
        if is_and(s) {
            s.advance(3);
            match SupportsInParens::consume(s) {
                Ok(p) => Ok(Some(SupportsAndOr::And(p))),
                Err(e) => Err(e),
            }
        } else if is_or(s) {
            s.advance(2);
            match SupportsInParens::consume(s) {
                Ok(p) => Ok(Some(SupportsAndOr::Or(p))),
                Err(e) => Err(e),
            }
        } else {
            Ok(None)
        }
    }

    /// Reads operands introduced by `and` or `or` for as long as there are any,
    /// in the order in which they stand.
    #[verifier::spinoff_prover]
    #[verifier::rlimit(100)]
    pub fn consume_many(s: &mut Stream) -> (r: Result<Vec<SupportsAndOr>, Error>)
        requires
            old(s).wf(),
        ensures
            final(s).follows(*old(s)),
            r is Ok ==> ordered(supports_list_spans(r->Ok_0@), old(s).at(), final(s).at()),
            r is Ok <==> supports_list_end(old(s).text(), old(s).at()) is Some,
            r is Ok ==> final(s).at() == supports_list_end(old(s).text(), old(s).at())->Some_0
                && supports_list_is(old(s).text(), old(s).at(), r->Ok_0@),
        decreases old(s).rest_len(), 3int,
    {
        match SupportsAndOr::try_consume(s) {
            Ok(Some(a)) => {
                let mid2 = s.pos();
                let mut rest = match SupportsAndOr::consume_many(s) {
                    Ok(l) => l,
                    Err(e) => return Err(e),
                };
                proof {
                    lemma_ordered_concat(
                        a.spans(),
                        supports_list_spans(rest@),
                        old(s).at(),
                        mid2 as int,
                        s.at(),
                    );
                }
                let ghost tail = rest@;
                rest.insert(0, a);
                proof {
                    assert(rest@.subrange(1, rest@.len() as int) =~= tail);
                    assert(rest@[0] == a);
                    lemma_supports_list_spans_cons(a, tail);
                    assert(rest@ =~= seq![a] + tail);
                    lemma_supports_list_cons(old(s).text(), old(s).at(), a, tail, mid2 as int);
                    assert(supports_list_end(old(s).text(), old(s).at()) == supports_list_end(
                        old(s).text(),
                        mid2 as int,
                    ));
                }
                Ok(rest)
            },
            Ok(None) => {
                let v: Vec<SupportsAndOr> = Vec::new();
                assert(supports_list_spans(v@) =~= Seq::<Span>::empty());
                proof {
                    assert(supports_list_end(old(s).text(), old(s).at()) == Some(s.at()));
                    lemma_supports_list_nil(old(s).text(), old(s).at());
                    assert(v@ =~= Seq::<SupportsAndOr>::empty());
                }
                Ok(v)
            },
            Err(e) => Err(e),
        }
    }
}

impl SupportsInParens {
    /// Reads `( condition )` when `not` or `(` follows the opening
    /// parenthesis, and `( name: value )` otherwise.
    pub fn consume(s: &mut Stream) -> (r: Result<SupportsInParens, Error>)
        requires
            old(s).wf(),
        ensures
            final(s).follows(*old(s)),
            r is Ok ==> ordered(r->Ok_0.spans(), old(s).at(), final(s).at()),
            r is Ok ==> final(s).at() > old(s).at(),
            ({
                let d = old(s).text();
                let q = next_token(d, next_token(d, old(s).at()) + 1);
                &&& r matches Ok(SupportsInParens::Condition(_)) ==> opens_group(d, q)
                &&& r matches Ok(SupportsInParens::Feature(_)) ==> !opens_group(d, q)
            }),
            r is Ok <==> sip_end(old(s).text(), old(s).at()) is Some,
            r is Ok ==> final(s).at() == sip_end(old(s).text(), old(s).at())->Some_0 && sip_is(
                old(s).text(),
                old(s).at(),
                r->Ok_0,
            ),
        decreases old(s).rest_len(), 1int,
    {
        match s.skip_spaces_and_comments() {
            Ok(()) => {},
            Err(e) => return Err(e),
        }
        match s.consume_byte(LPAREN) {
            Ok(()) => {},
            Err(e) => return Err(e),
        }
        let out = match SupportsCondition::try_consume(s) {
            Ok(Some(c)) => SupportsInParens::Condition(Box::new(c)),
            Ok(None) => match consume_declaration(s) {
                Ok(d) => SupportsInParens::Feature(d),
                Err(e) => return Err(e),
            },
            Err(e) => return Err(e),
        };
        match s.skip_spaces_and_comments() {
            Ok(()) => {},
            Err(e) => return Err(e),
        }
        match s.consume_byte(RPAREN) {
            Ok(()) => {},
            Err(e) => return Err(e),
        }
        Ok(out)
    }
}

} // verus!
