use vstd::prelude::*;
use crate::stream::{
    tok, until_end, ident_end, ordered, starts_at, trimmed, trivia_end, Error, Span, Stream, COLON, DQUOTE,
    AT, LBRACE, LPAREN, RBRACE, RPAREN, SEMI, SQUOTE,
};

verus! {

/// A `name: value` declaration.
#[derive(Clone, Copy, Debug, PartialEq, Eq, Structural)]
pub struct Declaration {
    /// The property name.
    pub name: Span,
    /// The value, trimmed, without a trailing `!important`.
    pub value: Span,
    /// The value ended in `!important`.
    pub important: bool,
}

impl Declaration {
    /// The text leaves, in the order of the tree.
    pub open spec fn spans(&self) -> Seq<Span> {
        seq![self.name, self.value]
    }
}

/// The spans of a list of declarations, in order.
pub open spec fn declaration_spans(l: Seq<Declaration>) -> Seq<Span>
    decreases l.len(),
{
    if l.len() == 0 {
        Seq::empty()
    } else {
        declaration_spans(l.drop_last()) + l.last().spans()
    }
}

/// End of a value that starts at `p`: the first `;` or `}` outside parentheses
/// and quotes, or a `)` that closes no parenthesis of the value, or the end
/// of input. `depth` counts the open parentheses, `quote` the open quote (0
/// for none).
pub open spec fn value_end(d: Seq<u8>, p: int, depth: nat, quote: u8) -> int
    decreases d.len() - p,
{
    if p < 0 || p >= d.len() {
        p
    } else if quote != 0 {
        value_end(d, p + 1, depth, if d[p] == quote { 0 } else { quote })
    } else if d[p] == DQUOTE || d[p] == SQUOTE {
        value_end(d, p + 1, depth, d[p])
    } else if d[p] == LPAREN {
        value_end(d, p + 1, depth + 1, 0)
    } else if d[p] == RPAREN {
        if depth == 0 {
            p
        } else {
            value_end(d, p + 1, (depth - 1) as nat, 0)
        }
    } else if (d[p] == SEMI || d[p] == RBRACE) && depth == 0 {
        p
    } else {
        value_end(d, p + 1, depth, 0)
    }
}

/// The bytes of `!important`.
pub open spec fn kw_important() -> Seq<u8> {
    seq![33u8, 105, 109, 112, 111, 114, 116, 97, 110, 116]
}

proof fn lemma_value_end(d: Seq<u8>, p: int, depth: nat, quote: u8)
    requires
        0 <= p <= d.len(),
    ensures
        p <= value_end(d, p, depth, quote) <= d.len(),
    decreases d.len() - p,
{
    if p < d.len() {
        if quote != 0 {
            lemma_value_end(d, p + 1, depth, if d[p] == quote { 0 } else { quote });
        } else if d[p] == DQUOTE || d[p] == SQUOTE {
            lemma_value_end(d, p + 1, depth, d[p]);
        } else if d[p] == LPAREN {
            lemma_value_end(d, p + 1, depth + 1, 0);
        } else if d[p] == RPAREN {
            if depth != 0 {
                lemma_value_end(d, p + 1, (depth - 1) as nat, 0);
            }
        } else if !((d[p] == SEMI || d[p] == RBRACE) && depth == 0) {
            lemma_value_end(d, p + 1, depth, 0);
        }
    }
}

/// Reads a value up to its end (see [`value_end`]) and returns it trimmed;
/// an empty value is an error.
pub fn consume_value(s: &mut Stream) -> (r: Result<Span, Error>)
    requires
        old(s).wf(),
    ensures
        final(s).follows(*old(s)),
        final(s).at() == value_end(old(s).text(), old(s).at(), 0, 0),
        ({
            let t = trimmed(
                old(s).text(),
                Span { start: old(s).at() as usize, end: final(s).at() as usize },
            );
            &&& r is Ok <==> t.start < t.end
            &&& r is Ok ==> r == Ok::<Span, Error>(t)
        }),
        r is Ok ==> ordered(seq![r->Ok_0], old(s).at(), final(s).at()),
{
    let start = s.pos();
    let n = s.len();
    let mut depth: usize = 0;
    let mut quote: u8 = 0;
    proof {
        lemma_value_end(s.text(), start as int, 0, 0);
    }
    loop
        invariant
            s.text() == old(s).text(),
            start == old(s).at(),
            n == s.text().len(),
            start <= s.at() <= n,
            depth <= s.at() - start,
            value_end(s.text(), s.at(), depth as nat, quote) == value_end(
                old(s).text(),
                start as int,
                0,
                0,
            ),
        ensures
            s.text() == old(s).text(),
            start <= s.at() <= n,
            n == s.text().len(),
            s.at() == value_end(old(s).text(), start as int, 0, 0),
        decreases n - s.at(),
    {
        let p = s.pos();
        if p >= n {
            break ;
        }
        let b = s.byte_at(p);
        if quote != 0 {
            if b == quote {
                quote = 0;
            }
        } else if b == DQUOTE || b == SQUOTE {
            quote = b;
        } else if b == LPAREN {
            depth = depth + 1;
        } else if b == RPAREN {
            if depth == 0 {
                break ;
            }
            depth = depth - 1;
        } else if (b == SEMI || b == RBRACE) && depth == 0 {
            break ;
        }
        s.advance(1);
    }
    let raw = Span { start, end: s.pos() };
    let t = s.trim(raw);
    if t.start < t.end {
        Ok(t)
    } else {
        Err(Error::InvalidValue(start))
    }
}

/// A value span with a trailing `!important` taken off: the remaining value,
/// trimmed, and whether it was there.
pub open spec fn strip_important_spec(d: Seq<u8>, v: Span) -> (Span, bool) {
    if v.end - v.start >= 10 && starts_at(d, v.end - 10, kw_important()) {
        (trimmed(d, Span { start: v.start, end: (v.end - 10) as usize }), true)
    } else {
        (v, false)
    }
}

/// What reading a declaration at `p` gives: the declaration and where the
/// cursor ends (at the end of the value), or `None` when it fails.
pub open spec fn parse_declaration(d: Seq<u8>, p: int) -> Option<(Declaration, int)> {
    match trivia_end(d, p) {
        None => None,
        Some(a) => {
            let e = ident_end(d, a, false);
            if e <= a {
                None
            } else {
                match trivia_end(d, e) {
                    None => None,
                    Some(b) => if !(b < d.len() && d[b] == COLON) {
                        None
                    } else {
                        match trivia_end(d, b + 1) {
                            None => None,
                            Some(c) => {
                                let ve = value_end(d, c, 0, 0);
                                let t = trimmed(d, Span { start: c as usize, end: ve as usize });
                                if t.start < t.end {
                                    let (v, imp) = strip_important_spec(d, t);
                                    Some(
                                        (
                                            Declaration {
                                                name: Span { start: a as usize, end: e as usize },
                                                value: v,
                                                important: imp,
                                            },
                                            ve,
                                        ),
                                    )
                                } else {
                                    None
                                }
                            },
                        }
                    },
                }
            }
        },
    }
}

/// Reads `name: value`, the name an identifier.
pub fn consume_declaration(s: &mut Stream) -> (r: Result<Declaration, Error>)
    requires
        old(s).wf(),
    ensures
        final(s).follows(*old(s)),
        r is Ok ==> ordered(r->Ok_0.spans(), old(s).at(), final(s).at()),
        r is Ok ==> ident_end(old(s).text(), r->Ok_0.name.start as int, false)
            == r->Ok_0.name.end > r->Ok_0.name.start,
        r is Ok ==> final(s).at() > old(s).at(),
        r is Ok <==> parse_declaration(old(s).text(), old(s).at()) is Some,
        r is Ok ==> (r->Ok_0, final(s).at()) == parse_declaration(old(s).text(), old(s).at())->Some_0,
{
    match s.skip_spaces_and_comments() {
        Ok(()) => {},
        Err(e) => return Err(e),
    }
    let name = match s.consume_ident() {
        Ok(n) => n,
        Err(e) => return Err(e),
    };
    match s.skip_spaces_and_comments() {
        Ok(()) => {},
        Err(e) => return Err(e),
    }
    match s.consume_byte(COLON) {
        Ok(()) => {},
        Err(e) => return Err(e),
    }
    match s.skip_spaces_and_comments() {
        Ok(()) => {},
        Err(e) => return Err(e),
    }
    let v = match consume_value(s) {
        Ok(v) => v,
        Err(e) => return Err(e),
    };
    assert(seq![v][0] == v);
    let (value, important) = strip_important(s, v);
    let d = Declaration { name, value, important };
    assert(d.spans()[0] == name && d.spans()[1] == value);
    Ok(d)
}

/// Drops a trailing `!important` from the value `v`.
fn strip_important(s: &Stream, v: Span) -> (r: (Span, bool))
    requires
        v.start < v.end <= s.text().len(),
    ensures
        v.start <= r.0.start <= r.0.end <= v.end,
        r.1 == (v.end - v.start >= 10 && starts_at(s.text(), v.end - 10, kw_important())),
        !r.1 ==> r.0 == v,
        r.1 ==> r.0 == trimmed(s.text(), Span { start: v.start, end: (v.end - 10) as usize }),
{
    if v.end - v.start < 10 {
        return (v, false);
    }
    let kw: [u8; 10] = [33, 105, 109, 112, 111, 114, 116, 97, 110, 116];
    assert(kw@ == kw_important());
    let n = s.len();
    let mut i: usize = 0;
    let base = v.end - 10;
    let mut same = true;
    while i < 10
        invariant
            i <= 10,
            base + 10 <= s.text().len(),
            n == s.text().len(),
            same == forall|j: int| 0 <= j < i ==> s.text()[base + j] == kw@[j],
        decreases 10 - i,
    {
        if s.byte_at(base + i) != kw[i] {
            same = false;
        }
        i += 1;
    }
    proof {
        if same {
            assert(s.text().subrange(base as int, base + 10) =~= kw@);
        } else {
            let j = choose|j: int| 0 <= j < 10 && s.text()[base + j] != kw@[j];
            assert(s.text().subrange(base as int, base + 10)[j] != kw@[j]);
        }
    }
    if same {
        let t = s.trim(Span { start: v.start, end: base });
        (t, true)
    } else {
        (v, false)
    }
}

/// The `}` that closes the current block, scanning from `p` with `depth`
/// nested blocks open, or the end of input.
pub open spec fn block_close(d: Seq<u8>, p: int, depth: nat) -> int
    decreases d.len() - p,
{
    if p < 0 || p >= d.len() {
        p
    } else if d[p] == RBRACE && depth == 0 {
        p
    } else if d[p] == LBRACE {
        block_close(d, p + 1, depth + 1)
    } else if d[p] == RBRACE {
        block_close(d, p + 1, (depth - 1) as nat)
    } else {
        block_close(d, p + 1, depth)
    }
}

/// Where reading declarations at `p` stops (at a `}` or the end of input), or
/// `None` for an unterminated comment.
pub open spec fn decls_end(d: Seq<u8>, p: int) -> Option<int>
    decreases d.len() - p,
{
    if p < 0 || p > d.len() {
        None
    } else {
        match tok(d, p) {
            None => None,
            Some(a) => if a == d.len() || d[a] == RBRACE {
                Some(a)
            } else {
                match parse_declaration(d, a) {
                    Some((_, e)) => {
                        let e2 = if 0 <= e < d.len() && d[e] == SEMI {
                            e + 1
                        } else {
                            e
                        };
                        if p < e2 <= d.len() {
                            decls_end(d, e2)
                        } else {
                            None
                        }
                    },
                    None => Some(block_close(d, a, 0)),
                }
            },
        }
    }
}

/// Where a rule `selector { declarations }` read at `a` ends, or `None`.
pub open spec fn rule_parse_end(d: Seq<u8>, a: int) -> Option<int> {
    let u = until_end(d, a, seq![LBRACE, RBRACE, SEMI]);
    let sel = trimmed(d, Span { start: a as usize, end: u as usize });
    if sel.start >= sel.end || !(u < d.len() && d[u] == LBRACE) {
        None
    } else {
        match decls_end(d, u + 1) {
            None => None,
            Some(f) => if f < d.len() && d[f] == RBRACE {
                Some(f + 1)
            } else {
                None
            },
        }
    }
}

/// Where reading rules at `p` stops (at a `}` or the end of input), a rule
/// that cannot be read being skipped to [`rule_end`]; `None` for an
/// unterminated comment.
pub open spec fn rule_set_end(d: Seq<u8>, p: int) -> Option<int>
    decreases d.len() - p,
{
    if p < 0 || p > d.len() {
        None
    } else {
        match tok(d, p) {
            None => None,
            Some(a) => if a == d.len() || d[a] == RBRACE {
                Some(a)
            } else {
                let e = if d[a] != AT && rule_parse_end(d, a) is Some {
                    rule_parse_end(d, a)->Some_0
                } else {
                    rule_end(d, a, 0)
                };
                if p < e <= d.len() {
                    rule_set_end(d, e)
                } else {
                    None
                }
            },
        }
    }
}

/// Where a block of rules whose `{` stands at `b` ends, after its `}`, or
/// `None` when it is not one.
pub open spec fn block_rules_end(d: Seq<u8>, b: int) -> Option<int> {
    if !(0 <= b < d.len() && d[b] == LBRACE) {
        None
    } else {
        match rule_set_end(d, b + 1) {
            None => None,
            Some(f) => match tok(d, f) {
                None => None,
                Some(z) => if z < d.len() && d[z] == RBRACE {
                    Some(z + 1)
                } else {
                    None
                },
            },
        }
    }
}

/// Moves to the `}` that closes the current block (not consumed), passing
/// over nested blocks, or to the end of input.
pub fn skip_to_block_end(s: &mut Stream)
    requires
        old(s).wf(),
    ensures
        final(s).follows(*old(s)),
        final(s).at() == final(s).text().len() || final(s).byte() == RBRACE,
        final(s).at() == block_close(old(s).text(), old(s).at(), 0),
{
    let mut depth: usize = 0;
    let n = s.len();
    while !s.at_end() && !(depth == 0 && s.is_curr(RBRACE))
        invariant
            old(s).wf(),
            s.follows(*old(s)),
            n == s.text().len(),
            depth <= s.at() - old(s).at(),
            block_close(s.text(), s.at(), depth as nat) == block_close(old(s).text(), old(s).at(), 0),
        decreases n - s.at(),
    {
        let b = s.byte_at(s.pos());
        if b == LBRACE {
            depth = depth + 1;
        } else if b == RBRACE {
            depth = depth - 1;
        }
        s.advance(1);
    }
}

/// `l` is the list of declarations that reading at `p` gives: each read
/// where the one before ended (after its `;`), up to a `}`, the end of input,
/// or the first declaration that cannot be read.
pub open spec fn decls_is(d: Seq<u8>, p: int, l: Seq<Declaration>) -> bool
    decreases l.len(),
{
    let a = tok(d, p)->Some_0;
    if a == d.len() || d[a] == RBRACE {
        l.len() == 0
    } else {
        match parse_declaration(d, a) {
            Some((dl, e)) => {
                let e2 = if 0 <= e < d.len() && d[e] == SEMI {
                    e + 1
                } else {
                    e
                };
                l.len() > 0 && l[0] == dl && decls_is(d, e2, l.subrange(1, l.len() as int))
            },
            None => l.len() == 0,
        }
    }
}

/// `x` is the rule that reading at `a` gives.
pub open spec fn rule_is(d: Seq<u8>, a: int, x: Rule) -> bool {
    let u = until_end(d, a, seq![LBRACE, RBRACE, SEMI]);
    &&& x.selector == trimmed(d, Span { start: a as usize, end: u as usize })
    &&& decls_is(d, u + 1, x.declarations@)
}

/// `l` is the list of rules that reading at `p` gives: the rules that parse,
/// in source order, those that do not (and nested at-rules) being skipped.
pub open spec fn rule_set_is(d: Seq<u8>, p: int, l: Seq<Rule>) -> bool
    decreases d.len() - p,
{
    if p < 0 || p > d.len() {
        false
    } else {
        match tok(d, p) {
            None => false,
            Some(a) => if a == d.len() || d[a] == RBRACE {
                l.len() == 0
            } else {
                let ok = d[a] != AT && rule_parse_end(d, a) is Some;
                let e = if ok {
                    rule_parse_end(d, a)->Some_0
                } else {
                    rule_end(d, a, 0)
                };
                if !(p < e <= d.len()) {
                    false
                } else if ok {
                    l.len() > 0 && rule_is(d, a, l[0]) && rule_set_is(d, e, l.subrange(1, l.len() as int))
                } else {
                    rule_set_is(d, e, l)
                }
            },
        }
    }
}

proof fn lemma_declaration_spans_cons(a: Declaration, l: Seq<Declaration>)
    ensures
        declaration_spans(seq![a] + l) == a.spans() + declaration_spans(l),
    decreases l.len(),
{
    let c = seq![a] + l;
    if l.len() == 0 {
        assert(c.drop_last() =~= Seq::<Declaration>::empty());
        assert(declaration_spans(Seq::<Declaration>::empty()) =~= Seq::<Span>::empty());
        assert(a.spans() + Seq::<Span>::empty() =~= a.spans());
    } else {
        let init = l.drop_last();
        lemma_declaration_spans_cons(a, init);
        assert(c.drop_last() =~= seq![a] + init);
        assert(c.last() == l.last());
        assert(a.spans() + declaration_spans(init) + l.last().spans() =~= a.spans() + (
        declaration_spans(init) + l.last().spans()));
    }
}

pub proof fn lemma_rule_spans_cons(a: Rule, l: Seq<Rule>)
    ensures
        rule_spans(seq![a] + l) == a.spans() + rule_spans(l),
    decreases l.len(),
{
    let c = seq![a] + l;
    if l.len() == 0 {
        assert(c.drop_last() =~= Seq::<Rule>::empty());
        assert(rule_spans(Seq::<Rule>::empty()) =~= Seq::<Span>::empty());
        assert(a.spans() + Seq::<Span>::empty() =~= a.spans());
    } else {
        let init = l.drop_last();
        lemma_rule_spans_cons(a, init);
        assert(c.drop_last() =~= seq![a] + init);
        assert(c.last() == l.last());
        assert(a.spans() + rule_spans(init) + l.last().spans() =~= a.spans() + (rule_spans(init)
            + l.last().spans()));
    }
}

/// Reads declarations up to a `}` (not consumed) or the end of input; each
/// may be followed by `;`. At the first declaration that cannot be read the
/// rest of the block is skipped: the declarations before it are kept, those
/// after it are dropped.
pub fn consume_declarations(s: &mut Stream) -> (r: Result<Vec<Declaration>, Error>)
    requires
        old(s).wf(),
    ensures
        final(s).follows(*old(s)),
        r is Ok ==> ordered(declaration_spans(r->Ok_0@), old(s).at(), final(s).at()),
        r is Ok ==> final(s).at() == final(s).text().len() || final(s).byte() == RBRACE,
        r matches Err(e) ==> e is InvalidComment,
        r is Ok <==> decls_end(old(s).text(), old(s).at()) is Some,
        r is Ok ==> final(s).at() == decls_end(old(s).text(), old(s).at())->Some_0,
        r is Ok ==> decls_is(old(s).text(), old(s).at(), r->Ok_0@),
    decreases old(s).rest_len(),
{
    match s.skip_spaces_and_comments() {
        Ok(()) => {},
        Err(e) => return Err(e),
    }
    if s.at_end() || s.is_curr(RBRACE) {
        let v: Vec<Declaration> = Vec::new();
        assert(declaration_spans(v@) =~= Seq::<Span>::empty());
        return Ok(v);
    }
    let mid = s.pos();
    let d = match consume_declaration(s) {
        Ok(d) => d,
        Err(_) => {
            s.reset_pos(mid);
            skip_to_block_end(s);
            let v: Vec<Declaration> = Vec::new();
            assert(declaration_spans(v@) =~= Seq::<Span>::empty());
            return Ok(v);
        },
    };
    s.try_consume_byte(SEMI);
    let mid2 = s.pos();
    let mut rest = match consume_declarations(s) {
        Ok(l) => l,
        Err(e) => return Err(e),
    };
    proof {
        crate::stream::lemma_ordered_concat(d.spans(), declaration_spans(rest@), mid as int, mid2 as int, s.at());
    }
    let ghost tail = rest@;
    rest.insert(0, d);
    proof {
        assert(rest@ =~= seq![d] + tail);
        assert(rest@.subrange(1, rest@.len() as int) =~= tail);
        lemma_declaration_spans_cons(d, tail);
    }
    Ok(rest)
}

/// An ordinary rule: a selector and its declarations.
#[derive(Clone, Debug, PartialEq, Eq)]
pub struct Rule {
    /// The selector text, trimmed.
    pub selector: Span,
    /// The declarations of the block.
    pub declarations: Vec<Declaration>,
}

impl Rule {
    /// The text leaves, in the order of the tree.
    pub open spec fn spans(&self) -> Seq<Span> {
        seq![self.selector] + declaration_spans(self.declarations@)
    }
}

/// The spans of a list of rules, in order.
pub open spec fn rule_spans(l: Seq<Rule>) -> Seq<Span>
    decreases l.len(),
{
    if l.len() == 0 {
        Seq::empty()
    } else {
        rule_spans(l.drop_last()) + l.last().spans()
    }
}

/// Reads `selector { declarations }`.
pub fn consume_rule(s: &mut Stream) -> (r: Result<Rule, Error>)
    requires
        old(s).wf(),
    ensures
        r is Ok <==> rule_parse_end(old(s).text(), old(s).at()) is Some,
        r is Ok ==> final(s).at() == rule_parse_end(old(s).text(), old(s).at())->Some_0,
        r is Ok ==> rule_is(old(s).text(), old(s).at(), r->Ok_0),
        r is Ok ==> r->Ok_0.selector == trimmed(
            old(s).text(),
            Span {
                start: old(s).at() as usize,
                end: until_end(old(s).text(), old(s).at(), seq![LBRACE, RBRACE, SEMI]) as usize,
            },
        ),
        final(s).follows(*old(s)),
        r is Ok ==> ordered(r->Ok_0.spans(), old(s).at(), final(s).at()),
        r is Ok ==> final(s).at() > old(s).at(),
{
    let start = s.pos();
    let stops: [u8; 3] = [LBRACE, RBRACE, SEMI];
    assert(stops@ == seq![LBRACE, RBRACE, SEMI]);
    let raw = s.consume_until(&stops);
    let selector = s.trim(raw);
    if selector.start == selector.end {
        return Err(Error::InvalidIdent(start));
    }
    match s.consume_byte(LBRACE) {
        Ok(()) => {},
        Err(e) => return Err(e),
    }
    let mid = s.pos();
    let declarations = match consume_declarations(s) {
        Ok(d) => d,
        Err(e) => return Err(e),
    };
    match s.consume_byte(RBRACE) {
        Ok(()) => {},
        Err(e) => return Err(e),
    }
    let rule = Rule { selector, declarations };
    proof {
        assert(seq![selector][0] == selector);
        crate::stream::lemma_ordered_concat(
            seq![selector],
            declaration_spans(rule.declarations@),
            start as int,
            mid as int,
            s.at(),
        );
    }
    Ok(rule)
}

/// Where a rule that could not be parsed ends, scanning from `p` with
/// `depth` braces open: just after the first `;` outside braces, just after
/// the `}` that closes the rule's first block, before a `}` that closes an
/// enclosing block, or at the end of input.
pub open spec fn rule_end(d: Seq<u8>, p: int, depth: nat) -> int
    decreases d.len() - p,
{
    if p < 0 || p >= d.len() {
        p
    } else if d[p] == LBRACE {
        rule_end(d, p + 1, depth + 1)
    } else if d[p] == RBRACE {
        if depth == 0 {
            p
        } else if depth == 1 {
            p + 1
        } else {
            rule_end(d, p + 1, (depth - 1) as nat)
        }
    } else if d[p] == SEMI && depth == 0 {
        p + 1
    } else {
        rule_end(d, p + 1, depth)
    }
}

/// Skips one rule that could not be parsed, to [`rule_end`]: the rules after
/// it are read from there.
pub fn skip_rule(s: &mut Stream)
    requires
        old(s).wf(),
        old(s).at() < old(s).text().len(),
        old(s).byte() != RBRACE,
    ensures
        final(s).follows(*old(s)),
        final(s).at() > old(s).at(),
        final(s).at() == rule_end(old(s).text(), old(s).at(), 0),
{
    let mut depth: usize = 0;
    let n = s.len();
    loop
        invariant
            old(s).wf(),
            s.follows(*old(s)),
            n == s.text().len(),
            old(s).at() < old(s).text().len(),
            old(s).byte() != RBRACE,
            depth <= s.at() - old(s).at(),
            s.at() == old(s).at() ==> depth == 0,
            rule_end(s.text(), s.at(), depth as nat) == rule_end(old(s).text(), old(s).at(), 0),
        decreases n - s.at(),
    {
        if s.at_end() {
            return;
        }
        let b = s.byte_at(s.pos());
        if b == LBRACE {
            depth = depth + 1;
        } else if b == RBRACE {
            if depth == 0 {
                return;
            }
            if depth == 1 {
                s.advance(1);
                return;
            }
            depth = depth - 1;
        } else if b == SEMI && depth == 0 {
            s.advance(1);
            return;
        }
        s.advance(1);
    }
}

/// Reads ordinary rules up to a `}` (not consumed) or the end of input. A rule
/// that cannot be parsed is skipped whole and the rules after it are still
/// read; nested at-rules are skipped.
#[verifier::spinoff_prover]
pub fn consume_rule_set(s: &mut Stream) -> (r: Result<Vec<Rule>, Error>)
    requires
        old(s).wf(),
    ensures
        r is Ok <==> rule_set_end(old(s).text(), old(s).at()) is Some,
        r is Ok ==> final(s).at() == rule_set_end(old(s).text(), old(s).at())->Some_0,
        final(s).follows(*old(s)),
        r is Ok ==> ordered(rule_spans(r->Ok_0@), old(s).at(), final(s).at()),
        r is Ok ==> final(s).at() == final(s).text().len() || final(s).byte() == RBRACE,
        r is Ok ==> rule_set_is(old(s).text(), old(s).at(), r->Ok_0@),
    decreases old(s).rest_len(),
{
    match s.skip_spaces_and_comments() {
        Ok(()) => {},
        Err(e) => return Err(e),
    }
    if s.at_end() || s.is_curr(RBRACE) {
        let v: Vec<Rule> = Vec::new();
        assert(rule_spans(v@) =~= Seq::<Span>::empty());
        return Ok(v);
    }
    let start = s.pos();
    if s.is_curr(AT) {
        skip_rule(s);
        return consume_rule_set(s);
    }
    match consume_rule(s) {
        Ok(rule) => {
            let mid2 = s.pos();
            let mut rest = match consume_rule_set(s) {
                Ok(l) => l,
                Err(e) => return Err(e),
            };
            proof {
                crate::stream::lemma_ordered_concat(rule.spans(), rule_spans(rest@), start as int, mid2 as int, s.at());
            }
            let ghost tail = rest@;
            let ghost r2 = rule;
            rest.insert(0, rule);
            proof {
                assert(rest@ =~= seq![r2] + tail);
                assert(rest@.subrange(1, rest@.len() as int) =~= tail);
                lemma_rule_spans_cons(r2, tail);
            }
            Ok(rest)
        },
        Err(_) => {
            s.reset_pos(start);
            skip_rule(s);
            consume_rule_set(s)
        },
    }
}

/// Reads a `{ ... }` block with nested braces balanced; returns what stands
/// between the outer braces and consumes the closing one.
pub fn read_block(s: &mut Stream) -> (r: Result<Span, Error>)
    requires
        old(s).wf(),
    ensures
        final(s).follows(*old(s)),
        r is Ok ==> ({
            let b = r->Ok_0;
            &&& old(s).at() < old(s).text().len() && old(s).byte() == LBRACE
            &&& b.start == old(s).at() + 1
            &&& b.start <= b.end < final(s).text().len()
            &&& final(s).text()[b.end as int] == RBRACE
            &&& final(s).at() == b.end + 1
        }),
        r is Ok <==> (old(s).at() < old(s).text().len() && old(s).byte() == LBRACE && block_close(
            old(s).text(),
            old(s).at() + 1,
            0,
        ) < old(s).text().len()),
        r is Ok ==> r->Ok_0.end == block_close(old(s).text(), old(s).at() + 1, 0),
{
    match s.consume_byte(LBRACE) {
        Ok(()) => {},
        Err(e) => return Err(e),
    }
    let start = s.pos();
    let n = s.len();
    let mut depth: usize = 0;
    loop
        invariant
            old(s).wf(),
            s.follows(*old(s)),
            n == s.text().len(),
            start == old(s).at() + 1,
            old(s).at() < old(s).text().len() && old(s).byte() == LBRACE,
            start <= s.at(),
            block_close(s.text(), s.at(), depth as nat) == block_close(old(s).text(), start as int, 0),
            depth <= s.at() - start,
        decreases n - s.at(),
    {
        if s.at_end() {
            return Err(Error::UnexpectedEndOfStream(s.pos()));
        }
        let b = s.byte_at(s.pos());
        if b == RBRACE {
            if depth == 0 {
                let end = s.pos();
                s.advance(1);
                return Ok(Span { start, end });
            }
            depth = depth - 1;
        } else if b == LBRACE {
            depth = depth + 1;
        }
        s.advance(1);
    }
}

} // verus!
