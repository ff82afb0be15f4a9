use vstd::prelude::*;
use crate::at_rule::{
    comparison_of, is_and, is_not, is_or, keyword_at, kw_and, kw_not, kw_or, operator_end,
    operator_token, opens_group, Comparison,
    sheet_end, sheet_is, RawAtRule, StyleSheet,
};
use crate::sheet::{consume_value, value_end};
use crate::stream::{
    next_token, tok, until_end,
    ident_end, trimmed, lemma_ordered_concat, lemma_ordered_widen, ordered, trivia_end, Error, Span, Stream, COLON,
    COMMA, LBRACE, LPAREN, RBRACE, RPAREN,
};

verus! {

/// An `@container` rule.
#[derive(Debug, PartialEq, Eq)]
pub struct Container {
    /// The comma-separated conditions, in order.
    pub conditions: Vec<ContainerCondition>,
    /// The contents of the block.
    pub contents: StyleSheet,
}

/// One condition of an `@container` rule.
#[derive(Debug, PartialEq, Eq)]
pub enum ContainerCondition {
    /// Only a container name.
    NameOnly(Span),
    /// Only a query.
    QueryOnly(ContainerQuery),
    /// A container name and a query.
    NameAndQuery { name: Span, query: ContainerQuery },
}

/// A container query.
#[derive(Debug, PartialEq, Eq)]
pub enum ContainerQuery {
    /// `not ...`
    Not(ContainerQueryInParens),
    /// A first operand and the operands that follow it, each with its `and` or `or`.
    List { first: ContainerQueryInParens, rest: Vec<ContainerQueryAndOr> },
}

/// An operand that follows `and` or `or`.
#[derive(Debug, PartialEq, Eq)]
pub enum ContainerQueryAndOr {
    /// Follows `and`.
    And(ContainerQueryInParens),
    /// Follows `or`.
    Or(ContainerQueryInParens),
}

/// An operand of a container query.
#[derive(Debug, PartialEq, Eq)]
pub enum ContainerQueryInParens {
    /// A nested query in parentheses.
    Query(Box<ContainerQuery>),
    /// A feature in parentheses.
    Feature(Feature),
    /// A function such as `style(...)` or `scroll-state(...)`.
    Function(ContainerFunction),
}

/// A field compared with a value.
#[derive(Clone, Copy, Debug, PartialEq, Eq, Structural)]
pub struct Feature {
    /// The field.
    pub key: Span,
    /// The comparison.
    pub comparison: Comparison,
    /// The value the field is compared with.
    pub value: Span,
}

/// A function-style query: a name and its parenthesised query.
#[derive(Debug, PartialEq, Eq)]
pub struct ContainerFunction {
    /// The name, as `style`.
    pub name: Span,
    /// The query.
    pub query: FunctionQuery,
}

/// The query inside a function.
#[derive(Debug, PartialEq, Eq)]
pub enum FunctionQuery {
    /// `not (...)`
    Not(FunctionInParens),
    /// A first operand and the operands that follow it, each with its `and` or `or`.
    List { first: FunctionInParens, rest: Vec<FunctionAndOr> },
}

/// An operand of a function query.
#[derive(Debug, PartialEq, Eq)]
pub enum FunctionInParens {
    /// A nested function, `(name(...))`.
    Query(Box<ContainerFunction>),
    /// `(key: value)`
    Feature(Feature),
}

/// A function operand that follows `and` or `or`.
#[derive(Debug, PartialEq, Eq)]
pub enum FunctionAndOr {
    /// Follows `and`.
    And(FunctionInParens),
    /// Follows `or`.
    Or(FunctionInParens),
}

impl Feature {
    /// The text leaves, in the order of the tree.
    pub open spec fn spans(&self) -> Seq<Span> {
        seq![self.key] + self.comparison.spans() + seq![self.value]
    }
}

impl ContainerCondition {
    /// The text leaves, in the order of the tree.
    pub open spec fn spans(&self) -> Seq<Span> {
        match self {
            ContainerCondition::NameOnly(n) => seq![*n],
            ContainerCondition::QueryOnly(q) => q.spans(),
            ContainerCondition::NameAndQuery { name, query } => seq![*name] + query.spans(),
        }
    }
}

impl ContainerQuery {
    /// The text leaves of the query, in the order of the tree.
    pub open spec fn spans(&self) -> Seq<Span>
        decreases self,
    {
        match self {
            ContainerQuery::Not(p) => p.spans(),
            ContainerQuery::List { first, rest } => first.spans() + query_list_spans(rest@),
        }
    }
}

impl ContainerQueryAndOr {
    /// The text leaves, in the order of the tree.
    pub open spec fn spans(&self) -> Seq<Span>
        decreases self,
    {
        match self {
            ContainerQueryAndOr::And(p) => p.spans(),
            ContainerQueryAndOr::Or(p) => p.spans(),
        }
    }
}

impl ContainerQueryInParens {
    /// The text leaves, in the order of the tree.
    pub open spec fn spans(&self) -> Seq<Span>
        decreases self,
    {
        match self {
            ContainerQueryInParens::Query(q) => q.spans(),
            ContainerQueryInParens::Feature(f) => f.spans(),
            ContainerQueryInParens::Function(f) => f.spans(),
        }
    }
}

/// The spans of the items of `l`, in order.
pub open spec fn query_list_spans(l: Seq<ContainerQueryAndOr>) -> Seq<Span>
    decreases l,
{
    if l.len() == 0 {
        Seq::empty()
    } else {
        query_list_spans(l.subrange(0, l.len() - 1)) + l[l.len() - 1].spans()
    }
}

impl ContainerFunction {
    /// The text leaves, in the order of the tree.
    pub open spec fn spans(&self) -> Seq<Span>
        decreases self,
    {
        seq![self.name] + self.query.spans()
    }
}

impl FunctionQuery {
    /// The text leaves, in the order of the tree.
    pub open spec fn spans(&self) -> Seq<Span>
        decreases self,
    {
        match self {
            FunctionQuery::Not(p) => p.spans(),
            FunctionQuery::List { first, rest } => first.spans() + function_list_spans(rest@),
        }
    }
}

impl FunctionInParens {
    /// The text leaves, in the order of the tree.
    pub open spec fn spans(&self) -> Seq<Span>
        decreases self,
    {
        match self {
            FunctionInParens::Query(f) => f.spans(),
            FunctionInParens::Feature(f) => f.spans(),
        }
    }
}

impl FunctionAndOr {
    /// The text leaves, in the order of the tree.
    pub open spec fn spans(&self) -> Seq<Span>
        decreases self,
    {
        match self {
            FunctionAndOr::And(p) => p.spans(),
            FunctionAndOr::Or(p) => p.spans(),
        }
    }
}

/// The spans of the items of `l`, in order.
pub open spec fn function_list_spans(l: Seq<FunctionAndOr>) -> Seq<Span>
    decreases l,
{
    if l.len() == 0 {
        Seq::empty()
    } else {
        function_list_spans(l.subrange(0, l.len() - 1)) + l[l.len() - 1].spans()
    }
}

/// A container query starts at `p`: `not`, `(`, or an identifier directly
/// followed by `(`.
pub open spec fn query_starts(d: Seq<u8>, p: int) -> bool {
    let e = ident_end(d, p, true);
    opens_group(d, p) || (p < e < d.len() && d[e] == LPAREN)
}

/// Where a function operand `(key: value)` or `(name(query))` read at `p`
/// ends, or `None` when reading it fails.
pub open spec fn fip_end(d: Seq<u8>, p: int) -> Option<int>
    decreases d.len() - p, 1int,
{
    if p < 0 || p > d.len() {
        None
    } else {
        match tok(d, p) {
            None => None,
            Some(a) => if !(a < d.len() && d[a] == LPAREN) {
                None
            } else {
                let e = ident_end(d, a + 1, true);
                if e <= a + 1 {
                    None
                } else {
                    match tok(d, e) {
                        None => None,
                        Some(b) => {
                            let inner = if b < d.len() && d[b] == COLON {
                                Some(until_end(d, b + 1, seq![RPAREN]))
                            } else if b < d.len() && d[b] == LPAREN {
                                match fq_end(d, b + 1) {
                                    None => None,
                                    Some(q) => match tok(d, q) {
                                        None => None,
                                        Some(z) => if z < d.len() && d[z] == RPAREN {
                                            Some(z + 1)
                                        } else {
                                            None
                                        },
                                    },
                                }
                            } else {
                                None
                            };
                            match inner {
                                None => None,
                                Some(u) => match tok(d, u) {
                                    None => None,
                                    Some(y) => if y < d.len() && d[y] == RPAREN {
                                        Some(y + 1)
                                    } else {
                                        None
                                    },
                                },
                            }
                        },
                    }
                }
            },
        }
    }
}

/// Where a function query read at `p` ends, or `None`.
pub open spec fn fq_end(d: Seq<u8>, p: int) -> Option<int>
    decreases d.len() - p, 4int,
{
    if p < 0 || p > d.len() {
        None
    } else {
        match tok(d, p) {
            None => None,
            Some(a) => if keyword_at(d, a, kw_not()) {
                fip_end(d, a + 3)
            } else {
                match fip_end(d, a) {
                    None => None,
                    Some(m) => if p <= m <= d.len() {
                        fao_list_end(d, m)
                    } else {
                        None
                    },
                }
            },
        }
    }
}

/// What looking for `and (...)` or `or (...)` in a function query at `p`
/// gives: `None` on failure, `Some(None)` when neither keyword stands there.
pub open spec fn fao_end(d: Seq<u8>, p: int) -> Option<Option<int>>
    decreases d.len() - p, 2int,
{
    if p < 0 || p > d.len() {
        None
    } else {
        match tok(d, p) {
            None => None,
            Some(a) => if keyword_at(d, a, kw_and()) {
                match fip_end(d, a + 3) {
                    Some(e) => Some(Some(e)),
                    None => None,
                }
            } else if keyword_at(d, a, kw_or()) {
                match fip_end(d, a + 2) {
                    Some(e) => Some(Some(e)),
                    None => None,
                }
            } else {
                Some(None)
            },
        }
    }
}

/// Where a run of function operands joined by `and`/`or` read at `p` ends.
pub open spec fn fao_list_end(d: Seq<u8>, p: int) -> Option<int>
    decreases d.len() - p, 3int,
{
    if p < 0 || p > d.len() {
        None
    } else {
        match fao_end(d, p) {
            None => None,
            Some(None) => tok(d, p),
            Some(Some(m)) => if p < m <= d.len() {
                fao_list_end(d, m)
            } else {
                None
            },
        }
    }
}

/// `x` is the function operand that reading at `p` gives.
pub open spec fn fip_is(d: Seq<u8>, p: int, x: FunctionInParens) -> bool
    decreases x,
{
    let a = tok(d, p)->Some_0;
    let e = ident_end(d, a + 1, true);
    let b = tok(d, e)->Some_0;
    match x {
        FunctionInParens::Feature(f) => b < d.len() && d[b] == COLON && f == Feature {
            key: Span { start: (a + 1) as usize, end: e as usize },
            comparison: Comparison::Equal,
            value: trimmed(
                d,
                Span { start: (b + 1) as usize, end: until_end(d, b + 1, seq![RPAREN]) as usize },
            ),
        },
        FunctionInParens::Query(cf) => !(b < d.len() && d[b] == COLON) && cf.name == Span {
            start: (a + 1) as usize,
            end: e as usize,
        } && fq_is(d, b + 1, cf.query),
    }
}

/// `x` is the function query that reading at `p` gives.
pub open spec fn fq_is(d: Seq<u8>, p: int, x: FunctionQuery) -> bool
    decreases x,
{
    let a = tok(d, p)->Some_0;
    match x {
        FunctionQuery::Not(i) => keyword_at(d, a, kw_not()) && fip_is(d, a + 3, i),
        FunctionQuery::List { first, rest } => !keyword_at(d, a, kw_not()) && fip_is(d, a, first)
            && fao_list_is(d, fip_end(d, a)->Some_0, rest@),
    }
}

/// `x` is the function operand, with its keyword, that reading at `p` gives.
pub open spec fn fao_is(d: Seq<u8>, p: int, x: FunctionAndOr) -> bool
    decreases x,
{
    let a = tok(d, p)->Some_0;
    match x {
        FunctionAndOr::And(i) => keyword_at(d, a, kw_and()) && fip_is(d, a + 3, i),
        FunctionAndOr::Or(i) => !keyword_at(d, a, kw_and()) && keyword_at(d, a, kw_or()) && fip_is(
            d,
            a + 2,
            i,
        ),
    }
}

/// `l` is the run of function operands that reading at `p` gives.
pub open spec fn fao_list_is(d: Seq<u8>, p: int, l: Seq<FunctionAndOr>) -> bool
    decreases l,
{
    if l.len() == 0 {
        fao_end(d, p) == Some(None::<int>)
    } else {
        match fao_end(d, p) {
            Some(Some(m)) => fao_is(d, p, l[0]) && fao_list_is(d, m, l.subrange(1, l.len() as int)),
            _ => false,
        }
    }
}

/// Where `name(...)` read at `p` ends, or `None`.
pub open spec fn cf_end(d: Seq<u8>, p: int) -> Option<int> {
    match tok(d, p) {
        None => None,
        Some(a) => {
            let e = ident_end(d, a, true);
            if e <= a {
                None
            } else {
                fq_end(d, e)
            }
        },
    }
}

/// `x` is the function that reading at `p` gives.
pub open spec fn cf_is(d: Seq<u8>, p: int, x: ContainerFunction) -> bool {
    let a = tok(d, p)->Some_0;
    let e = ident_end(d, a, true);
    x.name == Span { start: a as usize, end: e as usize } && fq_is(d, e, x.query)
}

/// Where a container query operand read at `p` ends, or `None`.
pub open spec fn cqip_end(d: Seq<u8>, p: int) -> Option<int>
    decreases d.len() - p, 1int,
{
    if p < 0 || p > d.len() {
        None
    } else {
        match tok(d, p) {
            None => None,
            Some(a) => if a < d.len() && d[a] == LPAREN {
                match tok(d, a + 1) {
                    None => None,
                    Some(b) => {
                        let inner = if opens_group(d, b) {
                            cq_end(d, b)
                        } else {
                            match parse_feature(d, b) {
                                Some((_, e)) => Some(e),
                                None => None,
                            }
                        };
                        match inner {
                            None => None,
                            Some(e) => match tok(d, e) {
                                None => None,
                                Some(z) => if z < d.len() && d[z] == RPAREN {
                                    Some(z + 1)
                                } else {
                                    None
                                },
                            },
                        }
                    },
                }
            } else {
                cf_end(d, a)
            },
        }
    }
}

/// Where a container query read at `p` ends, or `None`.
pub open spec fn cq_end(d: Seq<u8>, p: int) -> Option<int>
    decreases d.len() - p, 4int,
{
    if p < 0 || p > d.len() {
        None
    } else {
        match tok(d, p) {
            None => None,
            Some(a) => if keyword_at(d, a, kw_not()) {
                cqip_end(d, a + 3)
            } else {
                match cqip_end(d, a) {
                    None => None,
                    Some(m) => if p <= m <= d.len() {
                        cqao_list_end(d, m)
                    } else {
                        None
                    },
                }
            },
        }
    }
}

/// What looking for `and ...` or `or ...` in a container query at `p` gives.
pub open spec fn cqao_end(d: Seq<u8>, p: int) -> Option<Option<int>>
    decreases d.len() - p, 2int,
{
    if p < 0 || p > d.len() {
        None
    } else {
        match tok(d, p) {
            None => None,
            Some(a) => if keyword_at(d, a, kw_and()) {
                match cqip_end(d, a + 3) {
                    Some(e) => Some(Some(e)),
                    None => None,
                }
            } else if keyword_at(d, a, kw_or()) {
                match cqip_end(d, a + 2) {
                    Some(e) => Some(Some(e)),
                    None => None,
                }
            } else {
                Some(None)
            },
        }
    }
}

/// Where a run of container query operands joined by `and`/`or` read at `p` ends.
pub open spec fn cqao_list_end(d: Seq<u8>, p: int) -> Option<int>
    decreases d.len() - p, 3int,
{
    if p < 0 || p > d.len() {
        None
    } else {
        match cqao_end(d, p) {
            None => None,
            Some(None) => tok(d, p),
            Some(Some(m)) => if p < m <= d.len() {
                cqao_list_end(d, m)
            } else {
                None
            },
        }
    }
}

/// `x` is the container query operand that reading at `p` gives.
pub open spec fn cqip_is(d: Seq<u8>, p: int, x: ContainerQueryInParens) -> bool
    decreases x,
{
    let a = tok(d, p)->Some_0;
    let b = tok(d, a + 1)->Some_0;
    let paren = a < d.len() && d[a] == LPAREN;
    match x {
        ContainerQueryInParens::Query(q) => paren && opens_group(d, b) && cq_is(d, b, *q),
        ContainerQueryInParens::Feature(f) => paren && !opens_group(d, b) && parse_feature(
            d,
            b,
        )->Some_0.0 == f,
        ContainerQueryInParens::Function(cf) => !paren && cf_is(d, a, cf),
    }
}

/// `x` is the container query that reading at `p` gives.
pub open spec fn cq_is(d: Seq<u8>, p: int, x: ContainerQuery) -> bool
    decreases x,
{
    let a = tok(d, p)->Some_0;
    match x {
        ContainerQuery::Not(i) => keyword_at(d, a, kw_not()) && cqip_is(d, a + 3, i),
        ContainerQuery::List { first, rest } => !keyword_at(d, a, kw_not()) && cqip_is(d, a, first)
            && cqao_list_is(d, cqip_end(d, a)->Some_0, rest@),
    }
}

/// `x` is the container query operand, with its keyword, read at `p`.
pub open spec fn cqao_is(d: Seq<u8>, p: int, x: ContainerQueryAndOr) -> bool
    decreases x,
{
    let a = tok(d, p)->Some_0;
    match x {
        ContainerQueryAndOr::And(i) => keyword_at(d, a, kw_and()) && cqip_is(d, a + 3, i),
        ContainerQueryAndOr::Or(i) => !keyword_at(d, a, kw_and()) && keyword_at(d, a, kw_or())
            && cqip_is(d, a + 2, i),
    }
}

/// `l` is the run of container query operands that reading at `p` gives.
pub open spec fn cqao_list_is(d: Seq<u8>, p: int, l: Seq<ContainerQueryAndOr>) -> bool
    decreases l,
{
    if l.len() == 0 {
        cqao_end(d, p) == Some(None::<int>)
    } else {
        match cqao_end(d, p) {
            Some(Some(m)) => cqao_is(d, p, l[0]) && cqao_list_is(d, m, l.subrange(1, l.len() as int)),
            _ => false,
        }
    }
}

/// Where a container condition read at `p` ends, or `None`.
#[verifier::opaque]
pub open spec fn cc_end(d: Seq<u8>, p: int) -> Option<int> {
    match tok(d, p) {
        None => None,
        Some(a) => if query_starts(d, a) {
            cq_end(d, a)
        } else {
            let e = ident_end(d, a, false);
            if e <= a {
                None
            } else {
                match tok(d, e) {
                    None => None,
                    Some(c) => if query_starts(d, c) {
                        cq_end(d, c)
                    } else {
                        Some(c)
                    },
                }
            }
        },
    }
}

/// `x` is the container condition that reading at `p` gives.
#[verifier::opaque]
pub open spec fn cc_is(d: Seq<u8>, p: int, x: ContainerCondition) -> bool {
    let a = tok(d, p)->Some_0;
    let e = ident_end(d, a, false);
    let c = tok(d, e)->Some_0;
    match x {
        ContainerCondition::QueryOnly(q) => query_starts(d, a) && cq_is(d, a, q),
        ContainerCondition::NameOnly(n) => !query_starts(d, a) && n == Span {
            start: a as usize,
            end: e as usize,
        } && !query_starts(d, c),
        ContainerCondition::NameAndQuery { name, query } => !query_starts(d, a) && name == Span {
            start: a as usize,
            end: e as usize,
        } && query_starts(d, c) && cq_is(d, c, query),
    }
}

proof fn lemma_function_list_spans_cons(a: FunctionAndOr, l: Seq<FunctionAndOr>)
    ensures
        function_list_spans(seq![a] + l) == a.spans() + function_list_spans(l),
    decreases l.len(),
{
    let c = seq![a] + l;
    if l.len() == 0 {
        assert(c.subrange(0, c.len() - 1) =~= Seq::<FunctionAndOr>::empty());
        assert(function_list_spans(Seq::<FunctionAndOr>::empty()) =~= Seq::<Span>::empty());
        assert(a.spans() + Seq::<Span>::empty() =~= a.spans());
    } else {
        let init = l.subrange(0, l.len() - 1);
        lemma_function_list_spans_cons(a, init);
        assert(c.subrange(0, c.len() - 1) =~= seq![a] + init);
        assert(c[c.len() - 1] == l[l.len() - 1]);
        assert(a.spans() + function_list_spans(init) + l[l.len() - 1].spans() =~= a.spans() + (
        function_list_spans(init) + l[l.len() - 1].spans()));
    }
}

proof fn lemma_query_list_spans_cons(a: ContainerQueryAndOr, l: Seq<ContainerQueryAndOr>)
    ensures
        query_list_spans(seq![a] + l) == a.spans() + query_list_spans(l),
    decreases l.len(),
{
    let c = seq![a] + l;
    if l.len() == 0 {
        assert(c.subrange(0, c.len() - 1) =~= Seq::<ContainerQueryAndOr>::empty());
        assert(query_list_spans(Seq::<ContainerQueryAndOr>::empty()) =~= Seq::<Span>::empty());
        assert(a.spans() + Seq::<Span>::empty() =~= a.spans());
    } else {
        let init = l.subrange(0, l.len() - 1);
        lemma_query_list_spans_cons(a, init);
        assert(c.subrange(0, c.len() - 1) =~= seq![a] + init);
        assert(c[c.len() - 1] == l[l.len() - 1]);
        assert(a.spans() + query_list_spans(init) + l[l.len() - 1].spans() =~= a.spans() + (
        query_list_spans(init) + l[l.len() - 1].spans()));
    }
}

/// The spans of the items of `l`, in order.
pub open spec fn condition_spans(l: Seq<ContainerCondition>) -> Seq<Span>
    decreases l.len(),
{
    if l.len() == 0 {
        Seq::empty()
    } else {
        condition_spans(l.drop_last()) + l.last().spans()
    }
}

/// What reading a feature `key op value` at `p` gives: the feature and where
/// the cursor ends (at the end of the value), or `None` when it fails.
pub open spec fn parse_feature(d: Seq<u8>, p: int) -> Option<(Feature, int)> {
    match trivia_end(d, p) {
        None => None,
        Some(a) => {
            let e = ident_end(d, a, false);
            if e <= a {
                None
            } else {
                match trivia_end(d, e) {
                    None => None,
                    Some(b) => match trivia_end(d, b) {
                        None => None,
                        Some(c) => match trivia_end(d, operator_end(d, c)) {
                            None => None,
                            Some(v0) => {
                                let ve = value_end(d, v0, 0, 0);
                                let t = trimmed(d, Span { start: v0 as usize, end: ve as usize });
                                if t.start < t.end {
                                    Some(
                                        (
                                            Feature {
                                                key: Span { start: a as usize, end: e as usize },
                                                comparison: comparison_of(d, operator_token(d, c)),
                                                value: t,
                                            },
                                            ve,
                                        ),
                                    )
                                } else {
                                    None
                                }
                            },
                        },
                    },
                }
            }
        },
    }
}

impl Feature {
    /// Reads `key op value`: an identifier, an operator token and a value.
    pub fn consume(s: &mut Stream) -> (r: Result<Feature, Error>)
        requires
            old(s).wf(),
        ensures
            r is Ok <==> parse_feature(old(s).text(), old(s).at()) is Some,
            r is Ok ==> (r->Ok_0, final(s).at()) == parse_feature(old(s).text(), old(s).at())->Some_0,
            final(s).follows(*old(s)),
            r is Ok ==> ordered(r->Ok_0.spans(), old(s).at(), final(s).at()),
            r is Ok ==> final(s).at() > old(s).at(),
    {
        match s.skip_spaces_and_comments() {
            Ok(()) => {},
            Err(e) => return Err(e),
        }
        let p0 = s.pos();
        let key = match s.consume_ident() {
            Ok(k) => k,
            Err(e) => return Err(e),
        };
        match s.skip_spaces_and_comments() {
            Ok(()) => {},
            Err(e) => return Err(e),
        }
        let p1 = s.pos();
        let comparison = match Comparison::consume(s) {
            Ok(c) => c,
            Err(e) => return Err(e),
        };
        match s.skip_spaces_and_comments() {
            Ok(()) => {},
            Err(e) => return Err(e),
        }
        let p2 = s.pos();
        let value = match consume_value(s) {
            Ok(v) => v,
            Err(e) => return Err(e),
        };
        proof {
            assert(seq![key][0] == key);
            lemma_ordered_concat(seq![key], comparison.spans(), p0 as int, p1 as int, p2 as int);
            lemma_ordered_concat(
                seq![key] + comparison.spans(),
                seq![value],
                p0 as int,
                p2 as int,
                s.at(),
            );
        }
        Ok(Feature { key, comparison, value })
    }
}

impl FunctionInParens {
    /// Reads `(key: value)`, the value being everything up to `)`, or
    /// `(name(query))`, a nested function.
    #[verifier::spinoff_prover]
    pub fn consume(s: &mut Stream) -> (r: Result<FunctionInParens, Error>)
        requires
            old(s).wf(),
        ensures
            final(s).follows(*old(s)),
            r is Ok ==> ordered(r->Ok_0.spans(), old(s).at(), final(s).at()),
            r is Ok ==> final(s).at() > old(s).at(),
            r matches Ok(FunctionInParens::Feature(f)) ==> f.comparison == Comparison::Equal,
            r is Ok <==> fip_end(old(s).text(), old(s).at()) is Some,
            r is Ok ==> final(s).at() == fip_end(old(s).text(), old(s).at())->Some_0 && fip_is(
                old(s).text(),
                old(s).at(),
                r->Ok_0,
            ),
        decreases old(s).rest_len(), 1int,
    {
        match s.skip_spaces_and_comments() {
            Ok(()) => {},
            Err(e) => return Err(e),
        }
        match s.consume_byte(LPAREN) {
            Ok(()) => {},
            Err(e) => return Err(e),
        }
        let p0 = s.pos();
        let ident = match s.consume_ident_special() {
            Ok(i) => i,
            Err(e) => return Err(e),
        };
        match s.skip_spaces_and_comments() {
            Ok(()) => {},
            Err(e) => return Err(e),
        }
        let out = if s.is_curr(COLON) {
            s.advance(1);
            let p1 = s.pos();
            let stops: [u8; 1] = [RPAREN];
            assert(stops@ == seq![RPAREN]);
            let raw = s.consume_until(&stops);
            let value = s.trim(raw);
            let f = Feature { key: ident, comparison: Comparison::Equal, value };
            proof {
                assert(seq![ident][0] == ident && seq![value][0] == value);
                lemma_ordered_concat(seq![ident], seq![value], p0 as int, p1 as int, s.at());
                assert(f.spans() =~= seq![ident] + seq![value]);
            }
            FunctionInParens::Feature(f)
        } else {
            match s.consume_byte(LPAREN) {
                Ok(()) => {},
                Err(e) => return Err(e),
            }
            let p1 = s.pos();
            let query = match FunctionQuery::consume(s) {
                Ok(q) => q,
                Err(e) => return Err(e),
            };
            match s.skip_spaces_and_comments() {
                Ok(()) => {},
                Err(e) => return Err(e),
            }
            match s.consume_byte(RPAREN) {
                Ok(()) => {},
                Err(e) => return Err(e),
            }
            let f = ContainerFunction { name: ident, query };
            proof {
                assert(seq![ident][0] == ident);
                lemma_ordered_concat(seq![ident], f.query.spans(), p0 as int, p1 as int, s.at());
            }
            FunctionInParens::Query(Box::new(f))
        };
        let p2 = s.pos();
        match s.skip_spaces_and_comments() {
            Ok(()) => {},
            Err(e) => return Err(e),
        }
        match s.consume_byte(RPAREN) {
            Ok(()) => {},
            Err(e) => return Err(e),
        }
        proof {
            lemma_ordered_widen(out.spans(), p0 as int, p2 as int, old(s).at(), s.at());
        }
        Ok(out)
    }
}

impl FunctionQuery {
    /// Reads `not (...)`, or an operand followed by any number of operands
    /// each introduced by `and` or `or`.
    pub fn consume(s: &mut Stream) -> (r: Result<FunctionQuery, Error>)
        requires
            old(s).wf(),
        ensures
            final(s).follows(*old(s)),
            r is Ok ==> ordered(r->Ok_0.spans(), old(s).at(), final(s).at()),
            r is Ok ==> final(s).at() > old(s).at(),
            r is Ok ==> trivia_end(old(s).text(), old(s).at()) is Some && (r->Ok_0 is Not
                <==> keyword_at(old(s).text(), next_token(old(s).text(), old(s).at()), kw_not())),
            r is Ok <==> fq_end(old(s).text(), old(s).at()) is Some,
            r is Ok ==> final(s).at() == fq_end(old(s).text(), old(s).at())->Some_0 && fq_is(
                old(s).text(),
                old(s).at(),
                r->Ok_0,
            ),
        decreases old(s).rest_len(), 4int,
    {
        match s.skip_spaces_and_comments() {
            Ok(()) => {},
            Err(e) => return Err(e),
        }
        let start = s.pos();
        if is_not(s) {
            s.advance(3);
            match FunctionInParens::consume(s) {
                Ok(p) => Ok(FunctionQuery::Not(p)),
                Err(e) => Err(e),
            }
        } else {
            let first = match FunctionInParens::consume(s) {
                Ok(p) => p,
                Err(e) => return Err(e),
            };
            let mid = s.pos();
            let rest = match FunctionAndOr::consume_many(s) {
                Ok(l) => l,
                Err(e) => return Err(e),
            };
            proof {
                lemma_ordered_concat(
                    first.spans(),
                    function_list_spans(rest@),
                    start as int,
                    mid as int,
                    s.at(),
                );
            }
            Ok(FunctionQuery::List { first, rest })
        }
    }
}

impl FunctionAndOr {
    /// Reads `and (...)` or `or (...)` if one of the keywords stands next;
    /// otherwise leaves the cursor where it was and returns `None`.
    pub fn try_consume(s: &mut Stream) -> (r: Result<Option<FunctionAndOr>, Error>)
        requires
            old(s).wf(),
        ensures
            final(s).follows(*old(s)),
            r matches Ok(Some(a)) ==> ordered(a.spans(), old(s).at(), final(s).at())
                && final(s).at() > old(s).at(),
            r matches Ok(None) ==> final(s).at() == next_token(old(s).text(), old(s).at()),
            ({
                let d = old(s).text();
                let p = next_token(d, old(s).at());
                &&& r matches Ok(Some(FunctionAndOr::And(_))) ==> keyword_at(d, p, kw_and())
                &&& r matches Ok(Some(FunctionAndOr::Or(_))) ==> keyword_at(d, p, kw_or())
                &&& r matches Ok(None) ==> !keyword_at(d, p, kw_and()) && !keyword_at(d, p, kw_or())
                &&& (trivia_end(d, old(s).at()) is Some && !keyword_at(d, p, kw_and())
                    && !keyword_at(d, p, kw_or())) ==> r matches Ok(None)
            }),
            r is Ok <==> fao_end(old(s).text(), old(s).at()) is Some,
            r matches Ok(None) ==> fao_end(old(s).text(), old(s).at()) == Some(None::<int>),
            r matches Ok(None) ==> tok(old(s).text(), old(s).at()) == Some(final(s).at()),
            r matches Ok(Some(a)) ==> fao_end(old(s).text(), old(s).at()) == Some(
                Some(final(s).at()),
            ) && fao_is(old(s).text(), old(s).at(), a),
        decreases old(s).rest_len(), 2int,
    {
        let start = s.pos();
        match s.skip_spaces_and_comments() {
            Ok(()) => {},
            Err(e) => return Err(e),
        }
        if is_and(s) {
            s.advance(3);
            match FunctionInParens::consume(s) {
                Ok(p) => Ok(Some(FunctionAndOr::And(p))),
                Err(e) => Err(e),
            }
        } else if is_or(s) {
            s.advance(2);
            match FunctionInParens::consume(s) {
                Ok(p) => Ok(Some(FunctionAndOr::Or(p))),
                Err(e) => Err(e),
            }
        } else {
            Ok(None)
        }
    }

    /// Reads operands introduced by `and` or `or` for as long as there are any,
    /// in the order in which they stand.
    #[verifier::spinoff_prover]
    #[verifier::rlimit(100)]
    pub fn consume_many(s: &mut Stream) -> (r: Result<Vec<FunctionAndOr>, Error>)
        requires
            old(s).wf(),
        ensures
            final(s).follows(*old(s)),
            r is Ok ==> ordered(function_list_spans(r->Ok_0@), old(s).at(), final(s).at()),
            r is Ok <==> fao_list_end(old(s).text(), old(s).at()) is Some,
            r is Ok ==> final(s).at() == fao_list_end(old(s).text(), old(s).at())->Some_0
                && fao_list_is(old(s).text(), old(s).at(), r->Ok_0@),
        decreases old(s).rest_len(), 3int,
    {
        match FunctionAndOr::try_consume(s) {
            Ok(Some(a)) => {
                let mid2 = s.pos();
                let mut rest = match FunctionAndOr::consume_many(s) {
                    Ok(l) => l,
                    Err(e) => return Err(e),
                };
                proof {
                    lemma_ordered_concat(a.spans(), function_list_spans(rest@), old(s).at(), mid2 as int, s.at());
                }
                let ghost tail = rest@;
                rest.insert(0, a);
                proof {
                    assert(rest@.subrange(1, rest@.len() as int) =~= tail);
                    assert(rest@[0] == a);
                    lemma_function_list_spans_cons(a, tail);
                    assert(rest@ =~= seq![a] + tail);
                }
                Ok(rest)
            },
            Ok(None) => {
                assert(fao_list_end(old(s).text(), old(s).at()) == Some(s.at() as int));
                let v: Vec<FunctionAndOr> = Vec::new();
                assert(function_list_spans(v@) =~= Seq::<Span>::empty());
                Ok(v)
            },
            Err(e) => Err(e),
        }
    }
}

impl ContainerFunction {
    /// Reads `name(...)`.
    pub fn consume(s: &mut Stream) -> (r: Result<ContainerFunction, Error>)
        requires
            old(s).wf(),
        ensures
            final(s).follows(*old(s)),
            r is Ok ==> ordered(r->Ok_0.spans(), old(s).at(), final(s).at()),
            r is Ok ==> final(s).at() > old(s).at(),
            r is Ok <==> cf_end(old(s).text(), old(s).at()) is Some,
            r is Ok ==> final(s).at() == cf_end(old(s).text(), old(s).at())->Some_0 && cf_is(
                old(s).text(),
                old(s).at(),
                r->Ok_0,
            ),
    {
        match s.skip_spaces_and_comments() {
            Ok(()) => {},
            Err(e) => return Err(e),
        }
        let p0 = s.pos();
        let name = match s.consume_ident_special() {
            Ok(n) => n,
            Err(e) => return Err(e),
        };
        let p1 = s.pos();
        let query = match FunctionQuery::consume(s) {
            Ok(q) => q,
            Err(e) => return Err(e),
        };
        let f = ContainerFunction { name, query };
        proof {
            assert(seq![name][0] == name);
            lemma_ordered_concat(seq![name], f.query.spans(), p0 as int, p1 as int, s.at());
        }
        Ok(f)
    }
}

impl ContainerQueryInParens {
    /// Reads `( query )` when `not` or `(` follows the opening parenthesis,
    /// `( feature )` otherwise, and a function when no parenthesis opens.
    pub fn consume(s: &mut Stream) -> (r: Result<ContainerQueryInParens, Error>)
        requires
            old(s).wf(),
        ensures
            final(s).follows(*old(s)),
            r is Ok ==> ordered(r->Ok_0.spans(), old(s).at(), final(s).at()),
            r is Ok ==> final(s).at() > old(s).at(),
            ({
                let d = old(s).text();
                let p = next_token(d, old(s).at());
                let paren = p < d.len() && d[p] == LPAREN;
                let q = next_token(d, p + 1);
                &&& r matches Ok(ContainerQueryInParens::Function(_)) ==> !paren
                &&& r matches Ok(ContainerQueryInParens::Query(_)) ==> paren && opens_group(d, q)
                &&& r matches Ok(ContainerQueryInParens::Feature(_)) ==> paren && !opens_group(
                    d,
                    q,
                )
            }),
            r is Ok <==> cqip_end(old(s).text(), old(s).at()) is Some,
            r is Ok ==> final(s).at() == cqip_end(old(s).text(), old(s).at())->Some_0 && cqip_is(
                old(s).text(),
                old(s).at(),
                r->Ok_0,
            ),
        decreases old(s).rest_len(), 1int,
    {
        match s.skip_spaces_and_comments() {
            Ok(()) => {},
            Err(e) => return Err(e),
        }
        if s.is_curr(LPAREN) {
            s.advance(1);
            match s.skip_spaces_and_comments() {
                Ok(()) => {},
                Err(e) => return Err(e),
            }
            let out = if is_not(s) || s.is_curr(LPAREN) {
                match ContainerQuery::consume(s) {
                    Ok(q) => ContainerQueryInParens::Query(Box::new(q)),
                    Err(e) => return Err(e),
                }
            } else {
                match Feature::consume(s) {
                    Ok(f) => ContainerQueryInParens::Feature(f),
                    Err(e) => return Err(e),
                }
            };
            match s.skip_spaces_and_comments() {
                Ok(()) => {},
                Err(e) => return Err(e),
            }
            match s.consume_byte(RPAREN) {
                Ok(()) => {},
                Err(e) => return Err(e),
            }
            Ok(out)
        } else {
            match ContainerFunction::consume(s) {
                Ok(f) => Ok(ContainerQueryInParens::Function(f)),
                Err(e) => Err(e),
            }
        }
    }
}

impl ContainerQueryAndOr {
    /// Reads `and ...` or `or ...` if one of the keywords stands next;
    /// otherwise leaves the cursor where it was and returns `None`.
    pub fn try_consume(s: &mut Stream) -> (r: Result<Option<ContainerQueryAndOr>, Error>)
        requires
            old(s).wf(),
        ensures
            final(s).follows(*old(s)),
            r matches Ok(Some(a)) ==> ordered(a.spans(), old(s).at(), final(s).at())
                && final(s).at() > old(s).at(),
            r matches Ok(None) ==> final(s).at() == next_token(old(s).text(), old(s).at()),
            ({
                let d = old(s).text();
                let p = next_token(d, old(s).at());
                &&& r matches Ok(Some(ContainerQueryAndOr::And(_))) ==> keyword_at(d, p, kw_and())
                &&& r matches Ok(Some(ContainerQueryAndOr::Or(_))) ==> keyword_at(d, p, kw_or())
                &&& r matches Ok(None) ==> !keyword_at(d, p, kw_and()) && !keyword_at(d, p, kw_or())
                &&& (trivia_end(d, old(s).at()) is Some && !keyword_at(d, p, kw_and())
                    && !keyword_at(d, p, kw_or())) ==> r matches Ok(None)
            }),
            r is Ok <==> cqao_end(old(s).text(), old(s).at()) is Some,
            r matches Ok(None) ==> cqao_end(old(s).text(), old(s).at()) == Some(None::<int>),
            r matches Ok(None) ==> tok(old(s).text(), old(s).at()) == Some(final(s).at()),
            r matches Ok(Some(a)) ==> cqao_end(old(s).text(), old(s).at()) == Some(
                Some(final(s).at()),
            ) && cqao_is(old(s).text(), old(s).at(), a),
        decreases old(s).rest_len(), 2int,
    {
        let start = s.pos();
        match s.skip_spaces_and_comments() {
            Ok(()) => {},
            Err(e) => return Err(e),
        }
        if is_and(s) {
            s.advance(3);
            match ContainerQueryInParens::consume(s) {
                Ok(p) => Ok(Some(ContainerQueryAndOr::And(p))),
                Err(e) => Err(e),
            }
        } else if is_or(s) {
            s.advance(2);
            match ContainerQueryInParens::consume(s) {
                Ok(p) => Ok(Some(ContainerQueryAndOr::Or(p))),
                Err(e) => Err(e),
            }
        } else {
            Ok(None)
        }
    }

    /// Reads operands introduced by `and` or `or` for as long as there are any,
    /// in the order in which they stand.
    #[verifier::spinoff_prover]
    #[verifier::rlimit(100)]
    pub fn consume_many(s: &mut Stream) -> (r: Result<Vec<ContainerQueryAndOr>, Error>)
        requires
            old(s).wf(),
        ensures
            final(s).follows(*old(s)),
            r is Ok ==> ordered(query_list_spans(r->Ok_0@), old(s).at(), final(s).at()),
            r is Ok <==> cqao_list_end(old(s).text(), old(s).at()) is Some,
            r is Ok ==> final(s).at() == cqao_list_end(old(s).text(), old(s).at())->Some_0
                && cqao_list_is(old(s).text(), old(s).at(), r->Ok_0@),
        decreases old(s).rest_len(), 3int,
    {
        match ContainerQueryAndOr::try_consume(s) {
            Ok(Some(a)) => {
                let mid2 = s.pos();
                let mut rest = match ContainerQueryAndOr::consume_many(s) {
                    Ok(l) => l,
                    Err(e) => return Err(e),
                };
                proof {
                    lemma_ordered_concat(a.spans(), query_list_spans(rest@), old(s).at(), mid2 as int, s.at());
                }
                let ghost tail = rest@;
                rest.insert(0, a);
                proof {
                    assert(rest@.subrange(1, rest@.len() as int) =~= tail);
                    assert(rest@[0] == a);
                    lemma_query_list_spans_cons(a, tail);
                    assert(rest@ =~= seq![a] + tail);
                }
                Ok(rest)
            },
            Ok(None) => {
                assert(cqao_list_end(old(s).text(), old(s).at()) == Some(s.at() as int));
                let v: Vec<ContainerQueryAndOr> = Vec::new();
                assert(query_list_spans(v@) =~= Seq::<Span>::empty());
                Ok(v)
            },
            Err(e) => Err(e),
        }
    }
}

impl ContainerQuery {
    /// Reads `not ...`, or an operand followed by any number of operands each
    /// introduced by `and` or `or`.
    pub fn consume(s: &mut Stream) -> (r: Result<ContainerQuery, Error>)
        requires
            old(s).wf(),
        ensures
            final(s).follows(*old(s)),
            r is Ok ==> ordered(r->Ok_0.spans(), old(s).at(), final(s).at()),
            r is Ok ==> final(s).at() > old(s).at(),
            r is Ok ==> trivia_end(old(s).text(), old(s).at()) is Some && (r->Ok_0 is Not
                <==> keyword_at(old(s).text(), next_token(old(s).text(), old(s).at()), kw_not())),
            r is Ok <==> cq_end(old(s).text(), old(s).at()) is Some,
            r is Ok ==> final(s).at() == cq_end(old(s).text(), old(s).at())->Some_0 && cq_is(
                old(s).text(),
                old(s).at(),
                r->Ok_0,
            ),
        decreases old(s).rest_len(), 4int,
    {
        match s.skip_spaces_and_comments() {
            Ok(()) => {},
            Err(e) => return Err(e),
        }
        let start = s.pos();
        if is_not(s) {
            s.advance(3);
            match ContainerQueryInParens::consume(s) {
                Ok(p) => Ok(ContainerQuery::Not(p)),
                Err(e) => Err(e),
            }
        } else {
            let first = match ContainerQueryInParens::consume(s) {
                Ok(p) => p,
                Err(e) => return Err(e),
            };
            let mid = s.pos();
            let rest = match ContainerQueryAndOr::consume_many(s) {
                Ok(l) => l,
                Err(e) => return Err(e),
            };
            proof {
                lemma_ordered_concat(
                    first.spans(),
                    query_list_spans(rest@),
                    start as int,
                    mid as int,
                    s.at(),
                );
            }
            Ok(ContainerQuery::List { first, rest })
        }
    }

    /// Reads a query if one starts here: `(`, `not`, or an identifier directly
    /// followed by `(` (a function). Otherwise leaves the cursor where it was
    /// and returns `None`, so that the caller can read a container name.
    pub fn try_consume(s: &mut Stream) -> (r: Result<Option<ContainerQuery>, Error>)
        requires
            old(s).wf(),
        ensures
            final(s).follows(*old(s)),
            r matches Ok(Some(q)) ==> ordered(q.spans(), old(s).at(), final(s).at())
                && final(s).at() > old(s).at(),
            r matches Ok(None) ==> final(s).at() == next_token(old(s).text(), old(s).at()),
            ({
                let d = old(s).text();
                let p = next_token(d, old(s).at());
                &&& r matches Ok(None) ==> !query_starts(d, p)
                &&& (trivia_end(d, old(s).at()) is Some && !query_starts(d, p)) ==> r matches Ok(
                    None,
                )
            }),
            ({
                let d = old(s).text();
                let p = old(s).at();
                let a = tok(d, p)->Some_0;
                &&& r is Ok <==> tok(d, p) is Some && (query_starts(d, a) ==> cq_end(d, a) is Some)
                &&& r matches Ok(Some(q)) ==> final(s).at() == cq_end(d, a)->Some_0 && cq_is(d, a, q)
            }),
    {
        let start = s.pos();
        match s.skip_spaces_and_comments() {
            Ok(()) => {},
            Err(e) => return Err(e),
        }
        let p = s.pos();
        let starts = if s.is_curr(LPAREN) || is_not(s) {
            true
        } else {
            match s.consume_ident_special() {
                Ok(_) => s.is_curr(LPAREN),
                Err(_) => false,
            }
        };
        if starts {
            s.reset_pos(p);
            match ContainerQuery::consume(s) {
                Ok(q) => Ok(Some(q)),
                Err(e) => Err(e),
            }
        } else {
            s.reset_pos(p);
            Ok(None)
        }
    }
}

impl ContainerCondition {
    /// Reads a query, a container name, or a name followed by a query; an
    /// error when neither a name nor a query stands here.
    pub fn consume(s: &mut Stream) -> (r: Result<ContainerCondition, Error>)
        requires
            old(s).wf(),
        ensures
            final(s).follows(*old(s)),
            r is Ok ==> ordered(r->Ok_0.spans(), old(s).at(), final(s).at()),
            r is Ok ==> final(s).at() > old(s).at(),
            ({
                let d = old(s).text();
                let p = next_token(d, old(s).at());
                let e = ident_end(d, p, false);
                &&& r matches Ok(ContainerCondition::QueryOnly(_)) ==> query_starts(d, p)
                &&& r matches Ok(ContainerCondition::NameOnly(n)) ==> !query_starts(d, p) && n
                    == Span { start: p as usize, end: e as usize }
                &&& r matches Ok(ContainerCondition::NameAndQuery { name, .. }) ==> !query_starts(
                    d,
                    p,
                ) && name == Span { start: p as usize, end: e as usize }
                &&& (trivia_end(d, old(s).at()) is Some && !query_starts(d, p) && e == p) ==> r
                    == Err::<ContainerCondition, Error>(Error::InvalidValue(p as usize))
            }),
            r is Ok <==> cc_end(old(s).text(), old(s).at()) is Some,
            r is Ok ==> final(s).at() == cc_end(old(s).text(), old(s).at())->Some_0 && cc_is(
                old(s).text(),
                old(s).at(),
                r->Ok_0,
            ),
    {
        proof {
            reveal(cc_end);
            reveal(cc_is);
        }
        match s.skip_spaces_and_comments() {
            Ok(()) => {},
            Err(e) => return Err(e),
        }
        let p0 = s.pos();
        proof {
            crate::stream::lemma_trivia_idem(old(s).text(), old(s).at());
        }
        match ContainerQuery::try_consume(s) {
            Ok(Some(q)) => return Ok(ContainerCondition::QueryOnly(q)),
            Ok(None) => {},
            Err(e) => return Err(e),
        }
        let name = match s.consume_ident() {
            Ok(n) => n,
            Err(_) => return Err(Error::InvalidValue(p0)),
        };
        let p1 = s.pos();
        match ContainerQuery::try_consume(s) {
            Ok(Some(q)) => {
                proof {
                    assert(seq![name][0] == name);
                    lemma_ordered_concat(seq![name], q.spans(), p0 as int, p1 as int, s.at());
                }
                Ok(ContainerCondition::NameAndQuery { name, query: q })
            },
            Ok(None) => {
                assert(seq![name][0] == name);
                Ok(ContainerCondition::NameOnly(name))
            },
            Err(e) => Err(e),
        }
    }
}

/// Where the comma-separated conditions of an `@container` rule read at `p`
/// end, at the `{` of the block, or `None` when one of them cannot be read
/// or something other than `,` or `{` follows one.
#[verifier::opaque]
pub open spec fn cond_list_end(d: Seq<u8>, p: int) -> Option<int>
    decreases d.len() - p,
{
    if p < 0 || p > d.len() {
        None
    } else {
        match cc_end(d, p) {
            None => None,
            Some(e) => match tok(d, e) {
                None => None,
                Some(a) => if a < d.len() && d[a] == COMMA {
                    if p < a + 1 <= d.len() {
                        cond_list_end(d, a + 1)
                    } else {
                        None
                    }
                } else if a < d.len() && d[a] == LBRACE {
                    Some(a)
                } else {
                    None
                },
            },
        }
    }
}

/// `l` is the comma-separated conditions that reading at `p` gives.
#[verifier::opaque]
pub open spec fn cond_list_is(d: Seq<u8>, p: int, l: Seq<ContainerCondition>) -> bool
    decreases l.len(),
{
    let a = tok(d, cc_end(d, p)->Some_0)->Some_0;
    l.len() >= 1 && cc_is(d, p, l[0]) && if l.len() == 1 {
        a < d.len() && d[a] == LBRACE
    } else {
        a < d.len() && d[a] == COMMA && cond_list_is(d, a + 1, l.subrange(1, l.len() as int))
    }
}

proof fn lemma_condition_spans_cons(a: ContainerCondition, l: Seq<ContainerCondition>)
    ensures
        condition_spans(seq![a] + l) == a.spans() + condition_spans(l),
    decreases l.len(),
{
    let c = seq![a] + l;
    if l.len() == 0 {
        assert(c.drop_last() =~= Seq::<ContainerCondition>::empty());
        assert(condition_spans(Seq::<ContainerCondition>::empty()) =~= Seq::<Span>::empty());
        assert(a.spans() + Seq::<Span>::empty() =~= a.spans());
    } else {
        let init = l.drop_last();
        lemma_condition_spans_cons(a, init);
        assert(c.drop_last() =~= seq![a] + init);
        assert(c.last() == l.last());
        assert(a.spans() + condition_spans(init) + l.last().spans() =~= a.spans() + (
        condition_spans(init) + l.last().spans()));
    }
}

/// Reads the comma-separated conditions of an `@container` rule up to the
/// `{` of its block (not consumed).
#[verifier::spinoff_prover]
fn consume_conditions(s: &mut Stream) -> (r: Result<Vec<ContainerCondition>, Error>)
    requires
        old(s).wf(),
    ensures
        final(s).follows(*old(s)),
        r is Ok <==> cond_list_end(old(s).text(), old(s).at()) is Some,
        r is Ok ==> final(s).at() == cond_list_end(old(s).text(), old(s).at())->Some_0,
        r is Ok ==> cond_list_is(old(s).text(), old(s).at(), r->Ok_0@),
        r is Ok ==> ordered(condition_spans(r->Ok_0@), old(s).at(), final(s).at()),
        r is Ok ==> r->Ok_0@.len() >= 1,
        r is Ok ==> final(s).at() < final(s).text().len() && final(s).byte() == LBRACE,
    decreases old(s).rest_len(),
{
    proof {
        reveal_with_fuel(cond_list_end, 1);
        reveal_with_fuel(cond_list_is, 1);
    }
    let c = match ContainerCondition::consume(s) {
        Ok(c) => c,
        Err(e) => return Err(e),
    };
    let e1 = s.pos();
    match s.skip_spaces_and_comments() {
        Ok(()) => {},
        Err(e) => return Err(e),
    }
    if s.is_curr(COMMA) {
        s.advance(1);
        let mid2 = s.pos();
        let mut rest = match consume_conditions(s) {
            Ok(l) => l,
            Err(e) => return Err(e),
        };
        proof {
            lemma_ordered_concat(c.spans(), condition_spans(rest@), old(s).at(), mid2 as int, s.at());
        }
        let ghost tail = rest@;
        let ghost c2 = c;
        rest.insert(0, c);
        proof {
            assert(rest@.subrange(1, rest@.len() as int) =~= tail);
            assert(rest@ =~= seq![c2] + tail);
            assert(rest@[0] == c2);
            lemma_condition_spans_cons(c2, tail);
        }
        Ok(rest)
    } else if s.is_curr(LBRACE) {
        let mut v: Vec<ContainerCondition> = Vec::new();
        let ghost c2 = c;
        v.push(c);
        proof {
            assert(v@ =~= seq![c2]);
            lemma_condition_spans_cons(c2, Seq::empty());
            assert(seq![c2] + Seq::<ContainerCondition>::empty() =~= seq![c2]);
            assert(condition_spans(Seq::<ContainerCondition>::empty()) =~= Seq::<Span>::empty());
            assert(c2.spans() + Seq::<Span>::empty() =~= c2.spans());
        }
        Ok(v)
    } else {
        match s.curr_byte() {
            Ok(b) => Err(Error::InvalidByte { expected: LBRACE, actual: b, pos: s.pos() }),
            Err(e) => Err(e),
        }
    }
}

/// Where an `@container` rule read at `p` (after its name) ends: the
/// conditions, the `{`, the nested style sheet and the closing `}`.
pub open spec fn container_end(d: Seq<u8>, p: int) -> Option<int>
    decreases d.len() - p, 1int,
{
    match cond_list_end(d, p) {
        None => None,
        Some(b) => if !(p <= b < d.len()) {
            None
        } else {
            let z = sheet_end(d, b + 1, true);
            if 0 <= z < d.len() && d[z] == RBRACE {
                Some(z + 1)
            } else {
                None
            }
        },
    }
}

/// `c` is the `@container` rule that reading at `p` (after its name) gives:
/// its conditions, and the rules and at-rules of its block.
#[verifier::opaque]
pub open spec fn container_is(d: Seq<u8>, p: int, c: Container) -> bool {
    &&& cond_list_is(d, p, c.conditions@)
    &&& exists|raws: Seq<RawAtRule>| #[trigger] sheet_is(
        d,
        cond_list_end(d, p)->Some_0 + 1,
        true,
        c.contents.rules@,
        c.contents.at_rules@,
        raws,
    )
}

impl Container {
    /// Reads the comma-separated conditions and the block of an `@container`
    /// rule; the block is read as a style sheet of its own.
    #[verifier::spinoff_prover]
    #[verifier::rlimit(100)]
    pub fn consume(s: &mut Stream) -> (r: Result<Container, Error>)
        requires
            old(s).wf(),
        ensures
            final(s).follows(*old(s)),
            r is Ok ==> final(s).at() > old(s).at(),
            r is Ok ==> r->Ok_0.conditions@.len() >= 1,
            r is Ok ==> ordered(condition_spans(r->Ok_0.conditions@), old(s).at(), final(s).at()),
            cond_list_end(old(s).text(), old(s).at()) is None ==> r is Err,
            r is Ok ==> cond_list_is(old(s).text(), old(s).at(), r->Ok_0.conditions@),
            r is Ok <==> container_end(old(s).text(), old(s).at()) is Some,
            r is Ok ==> final(s).at() == container_end(old(s).text(), old(s).at())->Some_0,
            r is Ok ==> container_is(old(s).text(), old(s).at(), r->Ok_0),
        decreases old(s).rest_len(), 1int,
    {
        let conditions = match consume_conditions(s) {
            Ok(c) => c,
            Err(e) => return Err(e),
        };
        let ghost b1 = s.at() + 1;
        s.advance(1);
        let mut nested_raw: Vec<RawAtRule> = Vec::new();
        let contents = StyleSheet::consume_rules(s, true, &mut nested_raw);
        proof {
            assert(nested_raw@.subrange(0, nested_raw@.len() as int) =~= nested_raw@);
        }
        match s.consume_byte(RBRACE) {
            Ok(()) => {},
            Err(e) => return Err(e),
        }
        let ghost nr = nested_raw@;
        let result = Container { conditions, contents };
        proof {
            assert(sheet_is(old(s).text(), b1, true, result.contents.rules@, result.contents.at_rules@, nr));
            reveal(container_is);
        }
        Ok(result)
    }
}

} // verus!
