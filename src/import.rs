use vstd::prelude::*;
use crate::at_rule::{is_not, keyword_at, kw_not};
use crate::media::{mq_end, mq_is, query_spans, MediaQuery};
use crate::sheet::{consume_value, value_end, Declaration};
use crate::stream::{
    ident_end, next_token, string_at, tok, trimmed, trivia_end,
    lemma_ordered_concat, ordered, starts_at, Error, Span, Stream, COLON, COMMA, LPAREN, RPAREN,
    SEMI,
};
use crate::supports::{sc_end, sc_is, SupportsCondition};

verus! {

/// An `@import` rule.
#[derive(Debug, PartialEq, Eq)]
pub struct Import {
    /// Where to import from.
    pub url: ImportUrl,
    /// The layer clause, if any.
    pub layer: Option<ImportLayer>,
    /// The supports clause, if any.
    pub supports: Option<ImportConditionSupports>,
    /// The media queries, in order.
    pub media_queries: Vec<MediaQuery>,
}

/// The source of an `@import` rule; each span is the text between the quotes.
#[derive(Clone, Copy, Debug, PartialEq, Eq, Structural)]
pub enum ImportUrl {
    /// `url("...")`
    Url(Span),
    /// `src("...")`
    Src(Span),
    /// `"..."`
    String(Span),
}

/// The condition of a `supports(...)` clause.
#[derive(Debug, PartialEq, Eq)]
pub enum ImportConditionSupports {
    /// A supports condition.
    SupportsCondition(SupportsCondition),
    /// A `name: value` declaration.
    Declaration(Declaration),
}

/// The layer clause of an `@import` rule.
#[derive(Clone, Copy, Debug, PartialEq, Eq, Structural)]
pub enum ImportLayer {
    /// `layer`
    Layer,
    /// `layer(name)`
    Named(Span),
}

/// The bytes of `url`.
pub open spec fn kw_url() -> Seq<u8> {
    seq![117u8, 114, 108]
}

/// The bytes of `src`.
pub open spec fn kw_src() -> Seq<u8> {
    seq![115u8, 114, 99]
}

impl ImportLayer {
    /// The text leaves, in the order of the tree.
    pub open spec fn spans(&self) -> Seq<Span> {
        match self {
            ImportLayer::Layer => Seq::empty(),
            ImportLayer::Named(n) => seq![*n],
        }
    }
}

impl ImportConditionSupports {
    /// The text leaves, in the order of the tree.
    pub open spec fn spans(&self) -> Seq<Span> {
        match self {
            ImportConditionSupports::SupportsCondition(c) => c.spans(),
            ImportConditionSupports::Declaration(d) => d.spans(),
        }
    }
}

/// `x` is the `@import` rule that reading at `p` (after its name) gives.
#[verifier::opaque]
pub open spec fn import_is(d: Seq<u8>, p: int, x: Import) -> bool {
    let u = parse_url(d, p)->Some_0.1;
    let l1 = layer_clause(d, tok(d, u)->Some_0)->Some_0.1;
    let a2 = tok(d, l1)->Some_0;
    &&& x.url == parse_url(d, p)->Some_0.0
    &&& x.layer == layer_clause(d, tok(d, u)->Some_0)->Some_0.0
    &&& supports_is(d, a2, x.supports)
    &&& import_queries_is(d, supports_clause(d, a2)->Some_0, x.media_queries@)
}

impl Import {
    /// The text leaves of the rule: the source, the layer name, the supports
    /// clause and the media queries, in this order.
    pub open spec fn spans(&self) -> Seq<Span> {
        seq![self.url.span()] + layer_spans(self.layer) + supports_spans(self.supports) + query_spans(
            self.media_queries@,
        )
    }
}

/// The spans of a layer clause, if any.
pub open spec fn layer_spans(l: Option<ImportLayer>) -> Seq<Span> {
    match l {
        Some(l) => l.spans(),
        None => Seq::empty(),
    }
}

/// The spans of a supports clause, if any.
pub open spec fn supports_spans(c: Option<ImportConditionSupports>) -> Seq<Span> {
    match c {
        Some(c) => c.spans(),
        None => Seq::empty(),
    }
}

/// What reading the source of an `@import` at `p` gives: the source and
/// where the cursor ends, or `None` when it fails.
pub open spec fn parse_url(d: Seq<u8>, p: int) -> Option<(ImportUrl, int)> {
    match trivia_end(d, p) {
        None => None,
        Some(a) => if starts_at(d, a, kw_url()) || starts_at(d, a, kw_src()) {
            match trivia_end(d, a + 3) {
                None => None,
                Some(b) => if !(b < d.len() && d[b] == LPAREN) {
                    None
                } else {
                    match trivia_end(d, b + 1) {
                        None => None,
                        Some(c) => match string_at(d, c) {
                            None => None,
                            Some((sp, e)) => match trivia_end(d, e) {
                                None => None,
                                Some(z) => if z < d.len() && d[z] == RPAREN {
                                    Some(
                                        (
                                            if starts_at(d, a, kw_url()) {
                                                ImportUrl::Url(sp)
                                            } else {
                                                ImportUrl::Src(sp)
                                            },
                                            z + 1,
                                        ),
                                    )
                                } else {
                                    None
                                },
                            },
                        },
                    }
                },
            }
        } else {
            match string_at(d, a) {
                None => None,
                Some((sp, e)) => Some((ImportUrl::String(sp), e)),
            }
        },
    }
}

impl ImportUrl {
    /// The quoted text of the source.
    pub open spec fn span(&self) -> Span {
        match self {
            ImportUrl::Url(u) => *u,
            ImportUrl::Src(u) => *u,
            ImportUrl::String(u) => *u,
        }
    }

    /// Reads `url("...")`, `src("...")` or a quoted string.
    pub fn consume(s: &mut Stream) -> (r: Result<ImportUrl, Error>)
        requires
            old(s).wf(),
        ensures
            r is Ok <==> parse_url(old(s).text(), old(s).at()) is Some,
            r is Ok ==> (r->Ok_0, final(s).at()) == parse_url(old(s).text(), old(s).at())->Some_0,
            final(s).follows(*old(s)),
            r is Ok ==> ordered(seq![r->Ok_0.span()], old(s).at(), final(s).at()),
            r is Ok ==> final(s).at() > old(s).at(),
            ({
                let d = old(s).text();
                let p = next_token(d, old(s).at());
                &&& r matches Ok(ImportUrl::Url(_)) ==> starts_at(d, p, kw_url())
                &&& r matches Ok(ImportUrl::Src(_)) ==> starts_at(d, p, kw_src())
                &&& r matches Ok(ImportUrl::String(_)) ==> !starts_at(d, p, kw_url())
                    && !starts_at(d, p, kw_src())
            }),
    {
        match s.skip_spaces_and_comments() {
            Ok(()) => {},
            Err(e) => return Err(e),
        }
        let url: [u8; 3] = [117, 114, 108];
        let src: [u8; 3] = [115, 114, 99];
        assert(url@ == kw_url() && src@ == kw_src());
        let is_url = s.starts_with(&url);
        if is_url || s.starts_with(&src) {
            s.advance(3);
            match s.skip_spaces_and_comments() {
                Ok(()) => {},
                Err(e) => return Err(e),
            }
            match s.consume_byte(LPAREN) {
                Ok(()) => {},
                Err(e) => return Err(e),
            }
            match s.skip_spaces_and_comments() {
                Ok(()) => {},
                Err(e) => return Err(e),
            }
            let text = match s.consume_string() {
                Ok(t) => t,
                Err(e) => return Err(e),
            };
            match s.skip_spaces_and_comments() {
                Ok(()) => {},
                Err(e) => return Err(e),
            }
            match s.consume_byte(RPAREN) {
                Ok(()) => {},
                Err(e) => return Err(e),
            }
            let u = if is_url {
                ImportUrl::Url(text)
            } else {
                ImportUrl::Src(text)
            };
            assert(seq![u.span()][0] == text);
            Ok(u)
        } else {
            match s.consume_string() {
                Ok(t) => {
                    let u = ImportUrl::String(t);
                    assert(seq![u.span()][0] == t);
                    Ok(u)
                },
                Err(e) => Err(e),
            }
        }
    }
}

/// Reads the inside of a `supports(...)` clause: a `name: value` declaration
/// when one stands there, a supports condition otherwise.
fn consume_import_supports(s: &mut Stream) -> (r: Result<ImportConditionSupports, Error>)
    requires
        old(s).wf(),
    ensures
        final(s).follows(*old(s)),
        r is Ok ==> ordered(r->Ok_0.spans(), old(s).at(), final(s).at()),
        r is Ok <==> import_supports_end(old(s).text(), old(s).at()) is Some,
        r is Ok ==> final(s).at() == import_supports_end(old(s).text(), old(s).at())->Some_0,
        r is Ok ==> import_supports_is(old(s).text(), old(s).at(), r->Ok_0),
{
    proof {
        reveal(import_supports_end);
    }
    if is_not(s) {
        return match SupportsCondition::consume(s) {
            Ok(c) => Ok(ImportConditionSupports::SupportsCondition(c)),
            Err(e) => Err(e),
        };
    }
    let pos = s.pos();
    if let Ok(name) = s.consume_ident() {
        match s.skip_spaces_and_comments() {
            Ok(()) => {},
            Err(e) => return Err(e),
        }
        if s.is_curr(COLON) {
            s.advance(1);
            match s.skip_spaces_and_comments() {
                Ok(()) => {},
                Err(e) => return Err(e),
            }
            let p1 = s.pos();
            return match consume_value(s) {
                Ok(value) => {
                    let d = Declaration { name, value, important: false };
                    proof {
                        assert(seq![name][0] == name && seq![value][0] == value);
                        lemma_ordered_concat(seq![name], seq![value], pos as int, p1 as int, s.at());
                        assert(d.spans() =~= seq![name] + seq![value]);
                    }
                    Ok(ImportConditionSupports::Declaration(d))
                },
                Err(e) => Err(e),
            };
        }
    }
    s.reset_pos(pos);
    match SupportsCondition::consume(s) {
        Ok(c) => Ok(ImportConditionSupports::SupportsCondition(c)),
        Err(e) => Err(e),
    }
}

/// The bytes of `layer`.
pub open spec fn kw_layer() -> Seq<u8> {
    seq![108u8, 97, 121, 101, 114]
}

/// The bytes of `supports`.
pub open spec fn kw_supports() -> Seq<u8> {
    seq![115u8, 117, 112, 112, 111, 114, 116, 115]
}

/// What reading an optional `layer` or `layer(name)` clause at `a` gives:
/// the clause and where the cursor ends, or `None` on failure.
#[verifier::opaque]
pub open spec fn layer_clause(d: Seq<u8>, a: int) -> Option<(Option<ImportLayer>, int)> {
    if starts_at(d, a, kw_layer()) {
        let b = a + 5;
        if b < d.len() && d[b] == LPAREN {
            match tok(d, b + 1) {
                None => None,
                Some(c) => {
                    let e = ident_end(d, c, true);
                    if e <= c {
                        None
                    } else {
                        match tok(d, e) {
                            None => None,
                            Some(z) => if z < d.len() && d[z] == RPAREN {
                                Some((Some(ImportLayer::Named(Span { start: c as usize, end: e as usize })), z + 1))
                            } else {
                                None
                            },
                        }
                    }
                },
            }
        } else {
            Some((Some(ImportLayer::Layer), b))
        }
    } else {
        Some((None, a))
    }
}

/// Where the inside of a `supports(...)` clause read at `c` ends: a
/// declaration when an identifier and `:` stand there, a supports condition
/// otherwise.
#[verifier::opaque]
pub open spec fn import_supports_end(d: Seq<u8>, c: int) -> Option<int> {
    if keyword_at(d, c, kw_not()) {
        sc_end(d, c)
    } else {
        let e = ident_end(d, c, false);
        if e > c {
            match tok(d, e) {
                None => None,
                Some(b) => if b < d.len() && d[b] == COLON {
                    match tok(d, b + 1) {
                        None => None,
                        Some(v0) => {
                            let ve = value_end(d, v0, 0, 0);
                            let t = trimmed(d, Span { start: v0 as usize, end: ve as usize });
                            if t.start < t.end {
                                Some(ve)
                            } else {
                                None
                            }
                        },
                    }
                } else {
                    sc_end(d, c)
                },
            }
        } else {
            sc_end(d, c)
        }
    }
}

/// Where an optional `supports(...)` clause read at `a` ends, or `None`.
#[verifier::opaque]
pub open spec fn supports_clause(d: Seq<u8>, a: int) -> Option<int> {
    if starts_at(d, a, kw_supports()) {
        let b = a + 8;
        if !(b < d.len() && d[b] == LPAREN) {
            None
        } else {
            match tok(d, b + 1) {
                None => None,
                Some(c) => match import_supports_end(d, c) {
                    None => None,
                    Some(f) => match tok(d, f) {
                        None => None,
                        Some(z) => if z < d.len() && d[z] == RPAREN {
                            Some(z + 1)
                        } else {
                            None
                        },
                    },
                },
            }
        }
    } else {
        Some(a)
    }
}

/// Where the media queries of an `@import` read at `p` end, after the `;`.
#[verifier::opaque]
pub open spec fn import_queries_end(d: Seq<u8>, p: int) -> Option<int>
    decreases d.len() - p,
{
    if p < 0 || p > d.len() {
        None
    } else {
        match tok(d, p) {
            None => None,
            Some(a) => if a < d.len() && d[a] == SEMI {
                Some(a + 1)
            } else {
                match mq_end(d, a) {
                    None => None,
                    Some(e) => match tok(d, e) {
                        None => None,
                        Some(f) => {
                            let g = if f < d.len() && d[f] == COMMA {
                                f + 1
                            } else {
                                f
                            };
                            if p < g <= d.len() {
                                import_queries_end(d, g)
                            } else {
                                None
                            }
                        },
                    },
                }
            },
        }
    }
}

/// Where an `@import` rule read at `p` (after its name) ends, or `None`.
#[verifier::opaque]
pub open spec fn import_end(d: Seq<u8>, p: int) -> Option<int> {
    match parse_url(d, p) {
        None => None,
        Some((_, u)) => match tok(d, u) {
            None => None,
            Some(a) => match layer_clause(d, a) {
                None => None,
                Some((_, l1)) => match tok(d, l1) {
                    None => None,
                    Some(a2) => match supports_clause(d, a2) {
                        None => None,
                        Some(m) => import_queries_end(d, m),
                    },
                },
            },
        },
    }
}

/// At `c` a `supports(...)` clause holds a `name: value` declaration: an
/// identifier followed by `:`, and not the keyword `not`.
pub open spec fn decl_form(d: Seq<u8>, c: int) -> bool {
    let e = ident_end(d, c, false);
    &&& !keyword_at(d, c, kw_not())
    &&& e > c
    &&& tok(d, e) is Some
    &&& tok(d, e)->Some_0 < d.len()
    &&& d[tok(d, e)->Some_0] == COLON
}

/// `x` is what reading the inside of a `supports(...)` clause at `c` gives.
pub open spec fn import_supports_is(d: Seq<u8>, c: int, x: ImportConditionSupports) -> bool {
    match x {
        ImportConditionSupports::SupportsCondition(sc) => !decl_form(d, c) && sc_is(d, c, sc),
        ImportConditionSupports::Declaration(dl) => {
            let e = ident_end(d, c, false);
            let v0 = tok(d, tok(d, e)->Some_0 + 1)->Some_0;
            decl_form(d, c) && dl == Declaration {
                name: Span { start: c as usize, end: e as usize },
                value: trimmed(d, Span { start: v0 as usize, end: value_end(d, v0, 0, 0) as usize }),
                important: false,
            }
        },
    }
}

/// `c` is the optional `supports(...)` clause that reading at `a` gives.
pub open spec fn supports_is(d: Seq<u8>, a: int, c: Option<ImportConditionSupports>) -> bool {
    if starts_at(d, a, kw_supports()) {
        c is Some && import_supports_is(d, tok(d, a + 9)->Some_0, c->Some_0)
    } else {
        c is None
    }
}

/// `l` is the list of media queries that reading at `p` gives, up to the `;`.
pub open spec fn import_queries_is(d: Seq<u8>, p: int, l: Seq<MediaQuery>) -> bool
    decreases l.len(),
{
    let a = tok(d, p)->Some_0;
    if a < d.len() && d[a] == SEMI {
        l.len() == 0
    } else {
        let f = tok(d, mq_end(d, a)->Some_0)->Some_0;
        let g = if f < d.len() && d[f] == COMMA {
            f + 1
        } else {
            f
        };
        l.len() > 0 && mq_is(d, a, l[0]) && import_queries_is(d, g, l.subrange(1, l.len() as int))
    }
}

/// Reads an optional `layer` or `layer(name)` clause.
#[verifier::spinoff_prover]
fn consume_layer_clause(s: &mut Stream) -> (r: Result<Option<ImportLayer>, Error>)
    requires
        old(s).wf(),
    ensures
        final(s).follows(*old(s)),
        r is Ok <==> layer_clause(old(s).text(), old(s).at()) is Some,
        r is Ok ==> (r->Ok_0, final(s).at()) == layer_clause(old(s).text(), old(s).at())->Some_0,
        r is Ok ==> ordered(layer_spans(r->Ok_0), old(s).at(), final(s).at()),
{
    proof {
        reveal(layer_clause);
    }
    let layer_kw: [u8; 5] = [108, 97, 121, 101, 114];
    assert(layer_kw@ == kw_layer());
    if !s.starts_with(&layer_kw) {
        return Ok(None);
    }
    s.advance(5);
    if !s.is_curr(LPAREN) {
        return Ok(Some(ImportLayer::Layer));
    }
    s.advance(1);
    match s.skip_spaces_and_comments() {
        Ok(()) => {},
        Err(e) => return Err(e),
    }
    let name = match s.consume_ident_special() {
        Ok(n) => n,
        Err(e) => return Err(e),
    };
    match s.skip_spaces_and_comments() {
        Ok(()) => {},
        Err(e) => return Err(e),
    }
    match s.consume_byte(RPAREN) {
        Ok(()) => {},
        Err(e) => return Err(e),
    }
    assert(seq![name][0] == name);
    Ok(Some(ImportLayer::Named(name)))
}

/// Reads an optional `supports(...)` clause.
#[verifier::spinoff_prover]
fn consume_supports_clause(s: &mut Stream) -> (r: Result<Option<ImportConditionSupports>, Error>)
    requires
        old(s).wf(),
    ensures
        final(s).follows(*old(s)),
        r is Ok <==> supports_clause(old(s).text(), old(s).at()) is Some,
        r is Ok ==> final(s).at() == supports_clause(old(s).text(), old(s).at())->Some_0,
        r is Ok ==> ordered(supports_spans(r->Ok_0), old(s).at(), final(s).at()),
        r is Ok ==> supports_is(old(s).text(), old(s).at(), r->Ok_0),
{
    proof {
        reveal(supports_clause);
    }
    let supports_kw: [u8; 8] = [115, 117, 112, 112, 111, 114, 116, 115];
    assert(supports_kw@ == kw_supports());
    if !s.starts_with(&supports_kw) {
        return Ok(None);
    }
    s.advance(8);
    match s.consume_byte(LPAREN) {
        Ok(()) => {},
        Err(e) => return Err(e),
    }
    match s.skip_spaces_and_comments() {
        Ok(()) => {},
        Err(e) => return Err(e),
    }
    let c = match consume_import_supports(s) {
        Ok(c) => c,
        Err(e) => return Err(e),
    };
    match s.skip_spaces_and_comments() {
        Ok(()) => {},
        Err(e) => return Err(e),
    }
    match s.consume_byte(RPAREN) {
        Ok(()) => {},
        Err(e) => return Err(e),
    }
    Ok(Some(c))
}

proof fn lemma_import_query_spans_cons(a: MediaQuery, l: Seq<MediaQuery>)
    ensures
        query_spans(seq![a] + l) == a.spans() + query_spans(l),
    decreases l.len(),
{
    let c = seq![a] + l;
    if l.len() == 0 {
        assert(c.drop_last() =~= Seq::<MediaQuery>::empty());
        assert(query_spans(Seq::<MediaQuery>::empty()) =~= Seq::<Span>::empty());
        assert(a.spans() + Seq::<Span>::empty() =~= a.spans());
    } else {
        let init = l.drop_last();
        lemma_import_query_spans_cons(a, init);
        assert(c.drop_last() =~= seq![a] + init);
        assert(c.last() == l.last());
        assert(a.spans() + query_spans(init) + l.last().spans() =~= a.spans() + (query_spans(init)
            + l.last().spans()));
    }
}

/// Reads the media queries of an `@import`, separated by commas, and the
/// closing `;`.
#[verifier::spinoff_prover]
fn consume_import_queries(s: &mut Stream) -> (r: Result<Vec<MediaQuery>, Error>)
    requires
        old(s).wf(),
    ensures
        final(s).follows(*old(s)),
        r is Ok <==> import_queries_end(old(s).text(), old(s).at()) is Some,
        r is Ok ==> final(s).at() == import_queries_end(old(s).text(), old(s).at())->Some_0,
        r is Ok ==> ordered(query_spans(r->Ok_0@), old(s).at(), final(s).at()),
        r is Ok ==> import_queries_is(old(s).text(), old(s).at(), r->Ok_0@),
    decreases old(s).rest_len(),
{
    proof {
        reveal_with_fuel(import_queries_end, 1);
    }
    match s.skip_spaces_and_comments() {
        Ok(()) => {},
        Err(e) => return Err(e),
    }
    if s.is_curr(SEMI) {
        s.advance(1);
        let v: Vec<MediaQuery> = Vec::new();
        assert(query_spans(v@) =~= Seq::<Span>::empty());
        return Ok(v);
    }
    let q0 = s.pos();
    let q = match MediaQuery::consume(s) {
        Ok(q) => q,
        Err(e) => return Err(e),
    };
    match s.skip_spaces_and_comments() {
        Ok(()) => {},
        Err(e) => return Err(e),
    }
    s.try_consume_byte(COMMA);
    let mid2 = s.pos();
    let mut rest = match consume_import_queries(s) {
        Ok(l) => l,
        Err(e) => return Err(e),
    };
    proof {
        lemma_ordered_concat(q.spans(), query_spans(rest@), q0 as int, mid2 as int, s.at());
    }
    let ghost tail = rest@;
    let ghost q2 = q;
    rest.insert(0, q);
    proof {
        assert(rest@ =~= seq![q2] + tail);
        assert(rest@.subrange(1, rest@.len() as int) =~= tail);
        assert(rest@[0] == q2);
        lemma_import_query_spans_cons(q2, tail);
    }
    Ok(rest)
}

impl Import {
    /// Reads, in this order, the source, an optional `layer` or
    /// `layer(name)` clause, an optional `supports(...)` clause and the media
    /// queries up to the closing `;`.
    #[verifier::spinoff_prover]
    pub fn consume(s: &mut Stream) -> (r: Result<Import, Error>)
        requires
            old(s).wf(),
        ensures
            final(s).follows(*old(s)),
            r is Ok ==> final(s).at() > old(s).at(),
            r is Ok ==> ordered(r->Ok_0.spans(), old(s).at(), final(s).at()),
            r is Ok <==> import_end(old(s).text(), old(s).at()) is Some,
            r is Ok ==> final(s).at() == import_end(old(s).text(), old(s).at())->Some_0,
            r is Ok ==> r->Ok_0.url == parse_url(old(s).text(), old(s).at())->Some_0.0,
            r is Ok ==> r->Ok_0.layer == layer_clause(
                old(s).text(),
                tok(old(s).text(), parse_url(old(s).text(), old(s).at())->Some_0.1)->Some_0,
            )->Some_0.0,
            ({
                let d = old(s).text();
                let u = parse_url(d, old(s).at())->Some_0.1;
                let l1 = layer_clause(d, tok(d, u)->Some_0)->Some_0.1;
                let a2 = tok(d, l1)->Some_0;
                let m = supports_clause(d, a2)->Some_0;
                r is Ok ==> supports_is(d, a2, r->Ok_0.supports) && import_queries_is(
                    d,
                    m,
                    r->Ok_0.media_queries@,
                )
            }),
            r is Ok ==> import_is(old(s).text(), old(s).at(), r->Ok_0),
    {
        proof {
            reveal(import_is);
        }
        proof {
            reveal(import_end);
        }
        let url = match ImportUrl::consume(s) {
            Ok(u) => u,
            Err(e) => return Err(e),
        };
        let after_url = s.pos();
        match s.skip_spaces_and_comments() {
            Ok(()) => {},
            Err(e) => return Err(e),
        }
        let layer = match consume_layer_clause(s) {
            Ok(l) => l,
            Err(e) => return Err(e),
        };
        match s.skip_spaces_and_comments() {
            Ok(()) => {},
            Err(e) => return Err(e),
        }
        let l1 = s.pos();
        let supports = match consume_supports_clause(s) {
            Ok(c) => c,
            Err(e) => return Err(e),
        };
        let mid = s.pos();
        let media_queries = match consume_import_queries(s) {
            Ok(q) => q,
            Err(e) => return Err(e),
        };
        let imp = Import { url, layer, supports, media_queries };
        proof {
            let ls = layer_spans(layer);
            let ss = supports_spans(supports);
            lemma_ordered_concat(seq![url.span()], ls, old(s).at(), after_url as int, l1 as int);
            lemma_ordered_concat(seq![url.span()] + ls, ss, old(s).at(), l1 as int, mid as int);
            lemma_ordered_concat(
                seq![url.span()] + ls + ss,
                query_spans(imp.media_queries@),
                old(s).at(),
                mid as int,
                s.at(),
            );
            assert(imp.spans() == seq![url.span()] + ls + ss + query_spans(imp.media_queries@));
        }
        Ok(imp)
    }
}

} // verus!
