use vstd::prelude::*;

verus! {

pub const TAB: u8 = 9;

pub const LF: u8 = 10;

pub const FF: u8 = 12;

pub const CR: u8 = 13;

pub const SPACE: u8 = 32;

pub const BANG: u8 = 33;

pub const DQUOTE: u8 = 34;

pub const PERCENT: u8 = 37;

pub const SQUOTE: u8 = 39;

pub const LPAREN: u8 = 40;

pub const RPAREN: u8 = 41;

pub const STAR: u8 = 42;

pub const COMMA: u8 = 44;

pub const MINUS: u8 = 45;

pub const SLASH: u8 = 47;

pub const COLON: u8 = 58;

pub const SEMI: u8 = 59;

pub const LT: u8 = 60;

pub const EQ: u8 = 61;

pub const GT: u8 = 62;

pub const AT: u8 = 64;

pub const UNDERSCORE: u8 = 95;

pub const LBRACE: u8 = 123;

pub const RBRACE: u8 = 125;

/// A half-open byte range `start..end` of the parsed input.
///
/// Every textual field of the syntax tree is such a range: the tree borrows
/// nothing and the text is materialised on demand with [`Span::text`].
#[derive(Clone, Copy, Debug, PartialEq, Eq, Structural)]
pub struct Span {
    pub start: usize,
    pub end: usize,
}

impl Span {
    /// The span fits in an input of `len` bytes.
    pub open spec fn within(self, len: int) -> bool {
        self.start <= self.end <= len
    }

    /// The bytes of `src` that this span covers.
    pub fn text<'b>(&self, src: &'b [u8]) -> (r: &'b [u8])
        requires
            self.within(src@.len() as int),
        ensures
            r@ == src@.subrange(self.start as int, self.end as int),
    {
        vstd::slice::slice_subrange(src, self.start, self.end)
    }
}

/// Why a parse failed; each error carries the byte offset where it was detected.
#[derive(Clone, Copy, Debug, PartialEq, Eq, Structural)]
pub enum Error {
    /// The input ended where more was expected.
    UnexpectedEndOfStream(usize),
    /// A required byte was not there.
    InvalidByte { expected: u8, actual: u8, pos: usize },
    /// An identifier was expected and is absent.
    InvalidIdent(usize),
    /// A value was expected and is absent, or a condition is neither a name nor a query.
    InvalidValue(usize),
    /// A quoted string is missing or unterminated.
    InvalidString(usize),
    /// A comment is not terminated.
    InvalidComment(usize),
    /// A range chain uses an operator that cannot be chained.
    UnexpectedCombinator(usize),
}

/// A line and column, both counted from 1.
#[derive(Clone, Copy, Debug, PartialEq, Eq, Structural)]
pub struct TextPos {
    pub row: usize,
    pub col: usize,
}

/// The number of line feeds before `p`.
pub open spec fn lines_before(d: Seq<u8>, p: int) -> int
    decreases p,
{
    if p <= 0 {
        0
    } else {
        lines_before(d, p - 1) + if d[p - 1] == LF {
            1int
        } else {
            0int
        }
    }
}

/// Where the line that holds `p` starts.
pub open spec fn line_start(d: Seq<u8>, p: int) -> int
    decreases p,
{
    if p <= 0 {
        0
    } else if d[p - 1] == LF {
        p
    } else {
        line_start(d, p - 1)
    }
}

/// The bytes that count as white space: space, tab, CR, LF and form feed.
pub open spec fn is_space(b: u8) -> bool {
    b == SPACE || b == TAB || b == LF || b == CR || b == FF
}

/// The bytes of an identifier; the special form also admits `%` (as in `50%`).
pub open spec fn is_ident_byte(b: u8, special: bool) -> bool {
    (48 <= b <= 57) || (65 <= b <= 90) || (97 <= b <= 122) || b == MINUS || b == UNDERSCORE
        || b >= 128 || (special && b == PERCENT)
}

/// End of the run of white space that starts at `p`.
pub open spec fn spaces_end(d: Seq<u8>, p: int) -> int
    decreases d.len() - p,
{
    if 0 <= p < d.len() && is_space(d[p]) {
        spaces_end(d, p + 1)
    } else {
        p
    }
}

/// End of the run of identifier bytes that starts at `p`.
pub open spec fn ident_end(d: Seq<u8>, p: int, special: bool) -> int
    decreases d.len() - p,
{
    if 0 <= p < d.len() && is_ident_byte(d[p], special) {
        ident_end(d, p + 1, special)
    } else {
        p
    }
}

/// First position at or after `p` that holds one of `stops`, or the end of input.
pub open spec fn until_end(d: Seq<u8>, p: int, stops: Seq<u8>) -> int
    decreases d.len() - p,
{
    if 0 <= p < d.len() && !stops.contains(d[p]) {
        until_end(d, p + 1, stops)
    } else {
        p
    }
}

/// Where skipping white space and `/* */` comments from `p` ends; `None` when a
/// comment is not terminated.
pub open spec fn trivia_end(d: Seq<u8>, p: int) -> Option<int>
    decreases d.len() - p, 1int,
{
    if p < 0 || p >= d.len() {
        Some(p)
    } else if is_space(d[p]) {
        trivia_end(d, p + 1)
    } else if p + 1 < d.len() && d[p] == SLASH && d[p + 1] == STAR {
        comment_rest(d, p + 2)
    } else {
        Some(p)
    }
}

/// Continues [`trivia_end`] inside a comment whose body starts at `p`.
pub open spec fn comment_rest(d: Seq<u8>, p: int) -> Option<int>
    decreases d.len() - p, 0int,
{
    if p < 0 || p + 1 >= d.len() {
        None
    } else if d[p] == STAR && d[p + 1] == SLASH {
        trivia_end(d, p + 2)
    } else {
        comment_rest(d, p + 1)
    }
}

/// Where the next token starts at or after `p`, once white space and
/// comments are skipped; `None` for an unterminated comment or a position
/// outside the input.
pub open spec fn tok(d: Seq<u8>, p: int) -> Option<int> {
    match trivia_end(d, p) {
        Some(a) => if p <= a <= d.len() {
            Some(a)
        } else {
            None
        },
        None => None,
    }
}

/// Where the next token starts once white space and comments are skipped.
pub open spec fn next_token(d: Seq<u8>, p: int) -> int {
    trivia_end(d, p)->Some_0
}

/// The quoted string at `c`: the span between its quotes and the position
/// after the closing quote.
pub open spec fn string_at(d: Seq<u8>, c: int) -> Option<(Span, int)> {
    if 0 <= c < d.len() && (d[c] == DQUOTE || d[c] == SQUOTE) {
        let e = until_end(d, c + 1, seq![d[c]]);
        if e < d.len() {
            Some((Span { start: (c + 1) as usize, end: e as usize }, e + 1))
        } else {
            None
        }
    } else {
        None
    }
}

/// `lit` stands in `d` at `p`.
pub open spec fn starts_at(d: Seq<u8>, p: int, lit: Seq<u8>) -> bool {
    0 <= p && p + lit.len() <= d.len() && d.subrange(p, p + lit.len()) == lit
}

/// Start of `a..b` once leading white space is dropped.
pub open spec fn trim_start(d: Seq<u8>, a: int, b: int) -> int
    decreases b - a,
{
    if a < b && is_space(d[a]) {
        trim_start(d, a + 1, b)
    } else {
        a
    }
}

/// End of `a..b` once trailing white space is dropped.
pub open spec fn trim_end(d: Seq<u8>, a: int, b: int) -> int
    decreases b - a,
{
    if a < b && is_space(d[b - 1]) {
        trim_end(d, a, b - 1)
    } else {
        b
    }
}

/// `sp` with white space dropped at both ends.
pub open spec fn trimmed(d: Seq<u8>, sp: Span) -> Span {
    let a = trim_start(d, sp.start as int, sp.end as int);
    Span { start: a as usize, end: trim_end(d, a, sp.end as int) as usize }
}

/// The spans lie inside `lo..hi` and follow one another without overlap, in order.
pub open spec fn ordered(spans: Seq<Span>, lo: int, hi: int) -> bool {
    &&& forall|i: int| 0 <= i < spans.len() ==> lo <= #[trigger] spans[i].start <= spans[i].end <= hi
    &&& forall|i: int| 0 <= i < spans.len() - 1 ==> #[trigger] spans[i].end <= spans[i + 1].start
}

/// Two ordered runs of spans, the second after the first, make one.
pub proof fn lemma_ordered_concat(a: Seq<Span>, b: Seq<Span>, lo: int, mid: int, hi: int)
    requires
        ordered(a, lo, mid),
        ordered(b, mid, hi),
        lo <= mid <= hi,
    ensures
        ordered(a + b, lo, hi),
{
    let c = a + b;
    assert forall|i: int| 0 <= i < c.len() - 1 implies #[trigger] c[i].end <= c[i + 1].start by {
        if i + 1 < a.len() {
            assert(c[i] == a[i] && c[i + 1] == a[i + 1]);
            assert(a[i].end <= a[i + 1].start);
        } else if i + 1 == a.len() {
            assert(c[i] == a[i] && c[i + 1] == b[0]);
            assert(lo <= a[i].start <= a[i].end <= mid);
            assert(mid <= b[0].start <= b[0].end <= hi);
        } else {
            let k = i - a.len();
            assert(c[i] == b[k] && c[i + 1] == b[k + 1]);
            assert(b[k].end <= b[k + 1].start);
        }
    }
    assert forall|i: int| 0 <= i < c.len() implies lo <= #[trigger] c[i].start <= c[i].end <= hi by {
        if i < a.len() {
            assert(c[i] == a[i]);
            assert(lo <= a[i].start <= a[i].end <= mid);
        } else {
            let k = i - a.len();
            assert(c[i] == b[k]);
            assert(mid <= b[k].start <= b[k].end <= hi);
        }
    }
}

/// Spans ordered inside a range are ordered inside any wider range.
pub proof fn lemma_ordered_widen(a: Seq<Span>, lo: int, hi: int, lo2: int, hi2: int)
    requires
        ordered(a, lo, hi),
        lo2 <= lo,
        hi <= hi2,
    ensures
        ordered(a, lo2, hi2),
{
}

/// White space ends between its start and the end of input.
pub proof fn lemma_spaces_end(d: Seq<u8>, p: int)
    requires
        0 <= p <= d.len(),
    ensures
        p <= spaces_end(d, p) <= d.len(),
    decreases d.len() - p,
{
    if p < d.len() && is_space(d[p]) {
        lemma_spaces_end(d, p + 1);
    }
}

/// An identifier ends between its start and the end of input.
pub proof fn lemma_ident_end(d: Seq<u8>, p: int, special: bool)
    requires
        0 <= p <= d.len(),
    ensures
        p <= ident_end(d, p, special) <= d.len(),
    decreases d.len() - p,
{
    if p < d.len() && is_ident_byte(d[p], special) {
        lemma_ident_end(d, p + 1, special);
    }
}

/// The search for a stop byte ends between its start and the end of input.
pub proof fn lemma_until_end(d: Seq<u8>, p: int, stops: Seq<u8>)
    requires
        0 <= p <= d.len(),
    ensures
        p <= until_end(d, p, stops) <= d.len(),
    decreases d.len() - p,
{
    if p < d.len() && !stops.contains(d[p]) {
        lemma_until_end(d, p + 1, stops);
    }
}

/// Trimming keeps a range inside itself.
pub proof fn lemma_trim(d: Seq<u8>, a: int, b: int)
    requires
        0 <= a <= b <= d.len(),
    ensures
        a <= trim_start(d, a, b) <= trim_end(d, trim_start(d, a, b), b) <= b,
    decreases b - a,
{
    if a < b && is_space(d[a]) {
        lemma_trim(d, a + 1, b);
    } else {
        lemma_trim_end(d, a, b);
    }
}

proof fn lemma_trim_end(d: Seq<u8>, a: int, b: int)
    requires
        0 <= a <= b <= d.len(),
    ensures
        a <= trim_end(d, a, b) <= b,
    decreases b - a,
{
    if a < b && is_space(d[b - 1]) {
        lemma_trim_end(d, a, b - 1);
    }
}

/// Skipping white space and comments, when it succeeds, ends between its start and the end of input.
pub proof fn lemma_trivia(d: Seq<u8>, p: int)
    requires
        0 <= p <= d.len(),
    ensures
        trivia_end(d, p) matches Some(q) ==> p <= q <= d.len(),
    decreases d.len() - p, 1int,
{
    if p < d.len() {
        if is_space(d[p]) {
            lemma_trivia(d, p + 1);
        } else if p + 1 < d.len() && d[p] == SLASH && d[p + 1] == STAR {
            lemma_comment(d, p + 2);
        }
    }
}

/// Where skipping white space and comments stops, neither white space nor
/// the start of a comment stands.
pub proof fn lemma_trivia_stops(d: Seq<u8>, a: int)
    requires
        0 <= a < d.len(),
        trivia_end(d, a) == Some(a),
    ensures
        !is_space(d[a]),
        !(a + 1 < d.len() && d[a] == SLASH && d[a + 1] == STAR),
{
    if is_space(d[a]) {
        lemma_trivia(d, a + 1);
    } else if a + 1 < d.len() && d[a] == SLASH && d[a + 1] == STAR {
        lemma_comment(d, a + 2);
    }
}

/// Skipping white space and comments a second time goes nowhere.
pub proof fn lemma_trivia_idem(d: Seq<u8>, p: int)
    requires
        0 <= p <= d.len(),
        trivia_end(d, p) is Some,
    ensures
        trivia_end(d, trivia_end(d, p)->Some_0) == trivia_end(d, p),
    decreases d.len() - p, 1int,
{
    if p < d.len() {
        if is_space(d[p]) {
            lemma_trivia_idem(d, p + 1);
        } else if p + 1 < d.len() && d[p] == SLASH && d[p + 1] == STAR {
            lemma_comment_idem(d, p + 2);
        }
    }
}

proof fn lemma_comment_idem(d: Seq<u8>, p: int)
    requires
        0 <= p <= d.len(),
        comment_rest(d, p) is Some,
    ensures
        trivia_end(d, comment_rest(d, p)->Some_0) == comment_rest(d, p),
    decreases d.len() - p, 0int,
{
    if p + 1 < d.len() {
        if d[p] == STAR && d[p + 1] == SLASH {
            lemma_trivia_idem(d, p + 2);
        } else {
            lemma_comment_idem(d, p + 1);
        }
    }
}

proof fn lemma_comment(d: Seq<u8>, p: int)
    requires
        0 <= p <= d.len(),
    ensures
        comment_rest(d, p) matches Some(q) ==> p <= q <= d.len(),
    decreases d.len() - p, 0int,
{
    if p + 1 < d.len() {
        if d[p] == STAR && d[p + 1] == SLASH {
            lemma_trivia(d, p + 2);
        } else {
            lemma_comment(d, p + 1);
        }
    }
}

/// The white-space test of the grammar.
pub fn is_space_byte(b: u8) -> (r: bool)
    ensures
        r == is_space(b),
{
    b == SPACE || b == TAB || b == LF || b == CR || b == FF
}

fn is_ident_byte_exec(b: u8, special: bool) -> (r: bool)
    ensures
        r == is_ident_byte(b, special),
{
    (48 <= b && b <= 57) || (65 <= b && b <= 90) || (97 <= b && b <= 122) || b == MINUS || b
        == UNDERSCORE || b >= 128 || (special && b == PERCENT)
}

fn contains_byte(stops: &[u8], b: u8) -> (r: bool)
    ensures
        r == stops@.contains(b),
{
    let mut i: usize = 0;
    while i < stops.len()
        invariant
            i <= stops.len(),
            forall|j: int| 0 <= j < i ==> stops@[j] != b,
        decreases stops.len() - i,
    {
        if stops[i] == b {
            return true;
        }
        i += 1;
    }
    false
}

/// A cursor over the input: the bytes and a current position.
pub struct Stream<'a> {
    data: &'a [u8],
    pos: usize,
}

impl<'a> Stream<'a> {
    /// The whole input.
    pub closed spec fn text(&self) -> Seq<u8> {
        self.data@
    }

    /// The current position.
    pub closed spec fn at(&self) -> int {
        self.pos as int
    }

    /// The position lies inside the input, whose length fits in `usize`.
    pub open spec fn wf(&self) -> bool {
        &&& 0 <= self.at() <= self.text().len()
        &&& self.text().len() <= usize::MAX
    }

    /// Bytes left after the position.
    pub open spec fn rest_len(&self) -> int {
        self.text().len() - self.at()
    }

    /// `self` is `prev` moved forward, or left where it was, over the same input.
    pub open spec fn follows(&self, prev: Stream<'a>) -> bool {
        &&& self.text() == prev.text()
        &&& prev.at() <= self.at() <= self.text().len()
    }

    /// `self` holds the same input as `prev`, at any valid position.
    pub open spec fn same_text(&self, prev: Stream<'a>) -> bool {
        &&& self.text() == prev.text()
        &&& self.wf()
    }

    /// The byte at the position.
    pub open spec fn byte(&self) -> u8 {
        self.text()[self.at()]
    }

    pub fn new(data: &'a [u8]) -> (r: Self)
        ensures
            r.text() == data@,
            r.at() == 0,
            r.wf(),
    {
        let n = data.len();
        assert(data@.len() == n);
        Stream { data, pos: 0 }
    }

    pub fn pos(&self) -> (r: usize)
        ensures
            r == self.at(),
    {
        self.pos
    }

    pub fn len(&self) -> (r: usize)
        ensures
            r == self.text().len(),
    {
        self.data.len()
    }

    /// The line and column of the byte offset `p`, for error messages.
    pub fn text_pos_at(&self, p: usize) -> (r: TextPos)
        requires
            p <= self.text().len(),
            p < usize::MAX,
        ensures
            r.row == lines_before(self.text(), p as int) + 1,
            r.col == p - line_start(self.text(), p as int) + 1,
    {
        let mut row: usize = 1;
        let mut start: usize = 0;
        let mut i: usize = 0;
        while i < p
            invariant
                i <= p <= self.data@.len(),
                p < usize::MAX,
                row == lines_before(self.data@, i as int) + 1,
                start == line_start(self.data@, i as int),
                row <= i + 1,
                start <= i,
            decreases p - i,
        {
            if self.data[i] == LF {
                row = row + 1;
                start = i + 1;
            }
            i = i + 1;
        }
        TextPos { row, col: p - start + 1 }
    }

    /// The byte at offset `i` of the input.
    pub fn byte_at(&self, i: usize) -> (r: u8)
        requires
            i < self.text().len(),
        ensures
            r == self.text()[i as int],
    {
        self.data[i]
    }

    pub fn at_end(&self) -> (r: bool)
        requires
            self.wf(),
        ensures
            r == (self.at() >= self.text().len()),
    {
        self.pos >= self.data.len()
    }

    /// Moves back (or forward) to a position saved earlier.
    pub fn reset_pos(&mut self, p: usize)
        requires
            old(self).wf(),
            p <= old(self).text().len(),
        ensures
            final(self).text() == old(self).text(),
            final(self).at() == p,
            final(self).wf(),
    {
        self.pos = p;
    }

    /// The byte at the position; an error at the end of input.
    pub fn curr_byte(&self) -> (r: Result<u8, Error>)
        requires
            self.wf(),
        ensures
            self.at() < self.text().len() ==> r == Ok::<u8, Error>(self.byte()),
            self.at() >= self.text().len() ==> r == Err::<u8, Error>(
                Error::UnexpectedEndOfStream(self.at() as usize),
            ),
    {
        if self.pos < self.data.len() {
            Ok(self.data[self.pos])
        } else {
            Err(Error::UnexpectedEndOfStream(self.pos))
        }
    }

    /// The byte at the position is `c`.
    pub fn is_curr(&self, c: u8) -> (r: bool)
        requires
            self.wf(),
        ensures
            r == (self.at() < self.text().len() && self.byte() == c),
    {
        self.pos < self.data.len() && self.data[self.pos] == c
    }

    pub fn advance(&mut self, n: usize)
        requires
            old(self).wf(),
            old(self).at() + n <= old(self).text().len(),
        ensures
            final(self).follows(*old(self)),
            final(self).text() == old(self).text(),
            final(self).at() == old(self).at() + n,
    {
        self.pos = self.pos + n;
    }

    /// Moves one byte forward unless the input has ended.
    pub fn step(&mut self)
        requires
            old(self).wf(),
        ensures
            final(self).follows(*old(self)),
            final(self).text() == old(self).text(),
            final(self).at() == if old(self).at() < old(self).text().len() {
                old(self).at() + 1
            } else {
                old(self).at()
            },
    {
        if self.pos < self.data.len() {
            self.pos = self.pos + 1;
        }
    }

    /// `lit` stands at the position.
    pub fn starts_with(&self, lit: &[u8]) -> (r: bool)
        requires
            self.wf(),
        ensures
            r == starts_at(self.text(), self.at(), lit@),
    {
        if lit.len() > self.data.len() - self.pos {
            return false;
        }
        let mut i: usize = 0;
        while i < lit.len()
            invariant
                i <= lit.len(),
                self.pos + lit.len() <= self.data.len(),
                forall|j: int| 0 <= j < i ==> self.data@[self.pos + j] == lit@[j],
            decreases lit.len() - i,
        {
            if self.data[self.pos + i] != lit[i] {
                assert(self.text().subrange(self.at(), self.at() + lit@.len())[i as int]
                    != lit@[i as int]);
                return false;
            }
            i += 1;
        }
        assert(self.text().subrange(self.at(), self.at() + lit@.len()) =~= lit@);
        true
    }

    /// Skips white space.
    pub fn skip_spaces(&mut self)
        requires
            old(self).wf(),
        ensures
            final(self).follows(*old(self)),
            final(self).text() == old(self).text(),
            final(self).at() == spaces_end(old(self).text(), old(self).at()),
    {
        proof {
            lemma_spaces_end(self.data@, self.pos as int);
        }
        while self.pos < self.data.len() && is_space_byte(self.data[self.pos])
            invariant
                self.pos <= self.data.len(),
                self.data == old(self).data,
                spaces_end(self.data@, self.pos as int) == spaces_end(
                    old(self).data@,
                    old(self).pos as int,
                ),
            decreases self.data.len() - self.pos,
        {
            self.pos = self.pos + 1;
        }
    }

    /// Skips white space and `/* */` comments; fails on an unterminated comment.
    pub fn skip_spaces_and_comments(&mut self) -> (r: Result<(), Error>)
        requires
            old(self).wf(),
        ensures
            final(self).follows(*old(self)),
            r is Ok <==> trivia_end(old(self).text(), old(self).at()) is Some,
            r is Ok ==> Some(final(self).at()) == trivia_end(old(self).text(), old(self).at()),
            r matches Err(e) ==> e is InvalidComment,
            tok(old(self).text(), old(self).at()) == trivia_end(old(self).text(), old(self).at()),
    {
        proof {
            lemma_trivia(self.data@, self.pos as int);
        }
        loop
            invariant
                self.pos <= self.data.len(),
                old(self).pos <= self.pos,
                self.data == old(self).data,
                trivia_end(self.data@, self.pos as int) == trivia_end(
                    old(self).data@,
                    old(self).pos as int,
                ),
            decreases self.data.len() - self.pos,
        {
            if self.pos >= self.data.len() {
                return Ok(());
            }
            let b = self.data[self.pos];
            if is_space_byte(b) {
                self.pos = self.pos + 1;
            } else if b == SLASH && self.pos + 1 < self.data.len() && self.data[self.pos + 1]
                == STAR {
                self.pos = self.pos + 2;
                let ghost start = self.pos;
                loop
                    invariant_except_break
                        comment_rest(self.data@, self.pos as int) == trivia_end(
                            old(self).data@,
                            old(self).pos as int,
                        ),
                    invariant
                        self.pos <= self.data.len(),
                        start <= self.pos,
                        old(self).pos <= self.pos,
                        self.data == old(self).data,
                    ensures
                        trivia_end(self.data@, self.pos as int) == trivia_end(
                            old(self).data@,
                            old(self).pos as int,
                        ),
                    decreases self.data.len() - self.pos,
                {
                    if self.data.len() - self.pos <= 1 {
                        return Err(Error::InvalidComment(self.pos));
                    }
                    if self.data[self.pos] == STAR && self.data[self.pos + 1] == SLASH {
                        self.pos = self.pos + 2;
                        break ;
                    }
                    self.pos = self.pos + 1;
                }
            } else {
                return Ok(());
            }
        }
    }

    /// Consumes the byte `c`; fails at the end of input or on another byte.
    pub fn consume_byte(&mut self, c: u8) -> (r: Result<(), Error>)
        requires
            old(self).wf(),
        ensures
            final(self).follows(*old(self)),
            final(self).text() == old(self).text(),
            r is Ok <==> old(self).at() < old(self).text().len() && old(self).byte() == c,
            r is Ok ==> final(self).at() == old(self).at() + 1,
            r is Err ==> final(self).at() == old(self).at(),
    {
        if self.pos >= self.data.len() {
            return Err(Error::UnexpectedEndOfStream(self.pos));
        }
        let b = self.data[self.pos];
        if b != c {
            return Err(Error::InvalidByte { expected: c, actual: b, pos: self.pos });
        }
        self.pos = self.pos + 1;
        Ok(())
    }

    /// Consumes the byte `c` if it is there.
    pub fn try_consume_byte(&mut self, c: u8) -> (r: bool)
        requires
            old(self).wf(),
        ensures
            final(self).follows(*old(self)),
            final(self).text() == old(self).text(),
            r == (old(self).at() < old(self).text().len() && old(self).byte() == c),
            final(self).at() == old(self).at() + if r {
                1int
            } else {
                0int
            },
    {
        if self.pos < self.data.len() && self.data[self.pos] == c {
            self.pos = self.pos + 1;
            true
        } else {
            false
        }
    }

    fn consume_ident_impl(&mut self, special: bool) -> (r: Result<Span, Error>)
        requires
            old(self).wf(),
        ensures
            final(self).follows(*old(self)),
            final(self).text() == old(self).text(),
            ({
                let e = ident_end(old(self).text(), old(self).at(), special);
                &&& r is Ok <==> e > old(self).at()
                &&& r is Ok ==> r == Ok::<Span, Error>(
                    Span { start: old(self).at() as usize, end: e as usize },
                ) && final(self).at() == e
                &&& r is Err ==> final(self).at() == old(self).at() && r == Err::<Span, Error>(
                    Error::InvalidIdent(old(self).at() as usize),
                )
            }),
    {
        let start = self.pos;
        proof {
            lemma_ident_end(self.data@, self.pos as int, special);
        }
        while self.pos < self.data.len() && is_ident_byte_exec(self.data[self.pos], special)
            invariant
                start <= self.pos <= self.data.len(),
                self.data == old(self).data,
                start == old(self).pos,
                ident_end(self.data@, self.pos as int, special) == ident_end(
                    old(self).data@,
                    start as int,
                    special,
                ),
            decreases self.data.len() - self.pos,
        {
            self.pos = self.pos + 1;
        }
        if self.pos == start {
            Err(Error::InvalidIdent(start))
        } else {
            Ok(Span { start, end: self.pos })
        }
    }

    /// Consumes an identifier: a non-empty run of letters, digits, `-`, `_`
    /// and non-ASCII bytes.
    pub fn consume_ident(&mut self) -> (r: Result<Span, Error>)
        requires
            old(self).wf(),
        ensures
            final(self).follows(*old(self)),
            final(self).text() == old(self).text(),
            ({
                let e = ident_end(old(self).text(), old(self).at(), false);
                &&& r is Ok <==> e > old(self).at()
                &&& r is Ok ==> r == Ok::<Span, Error>(
                    Span { start: old(self).at() as usize, end: e as usize },
                ) && final(self).at() == e
                &&& r is Err ==> final(self).at() == old(self).at() && r == Err::<Span, Error>(
                    Error::InvalidIdent(old(self).at() as usize),
                )
            }),
    {
        self.consume_ident_impl(false)
    }

    /// Consumes an identifier that may also hold `%`, as a keyframe key does.
    pub fn consume_ident_special(&mut self) -> (r: Result<Span, Error>)
        requires
            old(self).wf(),
        ensures
            final(self).follows(*old(self)),
            final(self).text() == old(self).text(),
            ({
                let e = ident_end(old(self).text(), old(self).at(), true);
                &&& r is Ok <==> e > old(self).at()
                &&& r is Ok ==> r == Ok::<Span, Error>(
                    Span { start: old(self).at() as usize, end: e as usize },
                ) && final(self).at() == e
                &&& r is Err ==> final(self).at() == old(self).at() && r == Err::<Span, Error>(
                    Error::InvalidIdent(old(self).at() as usize),
                )
            }),
    {
        self.consume_ident_impl(true)
    }

    /// Consumes bytes up to (not including) the first of `stops`, or to the end.
    pub fn consume_until(&mut self, stops: &[u8]) -> (r: Span)
        requires
            old(self).wf(),
        ensures
            final(self).follows(*old(self)),
            final(self).text() == old(self).text(),
            r.start == old(self).at(),
            r.end == until_end(old(self).text(), old(self).at(), stops@),
            final(self).at() == r.end,
    {
        let start = self.pos;
        proof {
            lemma_until_end(self.data@, self.pos as int, stops@);
        }
        while self.pos < self.data.len() && !contains_byte(stops, self.data[self.pos])
            invariant
                start <= self.pos <= self.data.len(),
                self.data == old(self).data,
                start == old(self).pos,
                until_end(self.data@, self.pos as int, stops@) == until_end(
                    old(self).data@,
                    start as int,
                    stops@,
                ),
            decreases self.data.len() - self.pos,
        {
            self.pos = self.pos + 1;
        }
        Span { start, end: self.pos }
    }

    /// Consumes a string quoted with `"` or `'`; the span is what stands between the quotes.
    pub fn consume_string(&mut self) -> (r: Result<Span, Error>)
        requires
            old(self).wf(),
        ensures
            final(self).follows(*old(self)),
            r is Ok ==> ({
                let sp = r->Ok_0;
                let q = old(self).byte();
                &&& old(self).at() < old(self).text().len()
                &&& q == DQUOTE || q == SQUOTE
                &&& sp.start == old(self).at() + 1
                &&& sp.end == until_end(old(self).text(), old(self).at() + 1, seq![q])
                &&& sp.start <= sp.end < old(self).text().len()
                &&& final(self).at() == sp.end + 1
            }),
            (old(self).at() < old(self).text().len() && (old(self).byte() == DQUOTE
                || old(self).byte() == SQUOTE) && until_end(
                old(self).text(),
                old(self).at() + 1,
                seq![old(self).byte()],
            ) < old(self).text().len()) ==> r is Ok,
            r is Ok <==> string_at(old(self).text(), old(self).at()) is Some,
            r is Ok ==> (r->Ok_0, final(self).at()) == string_at(
                old(self).text(),
                old(self).at(),
            )->Some_0,
    {
        if self.pos >= self.data.len() {
            return Err(Error::UnexpectedEndOfStream(self.pos));
        }
        let q = self.data[self.pos];
        if q != DQUOTE && q != SQUOTE {
            return Err(Error::InvalidString(self.pos));
        }
        self.pos = self.pos + 1;
        let stops = [q];
        assert(stops@ == seq![q]);
        let sp = self.consume_until(&stops);
        proof {
            lemma_until_end(self.data@, sp.start as int, stops@);
        }
        if self.pos >= self.data.len() {
            return Err(Error::InvalidString(sp.start));
        }
        self.pos = self.pos + 1;
        Ok(sp)
    }

    /// `sp` with white space dropped at both ends.
    pub fn trim(&self, sp: Span) -> (r: Span)
        requires
            sp.within(self.text().len() as int),
        ensures
            r == trimmed(self.text(), sp),
            sp.start <= r.start <= r.end <= sp.end,
    {
        proof {
            lemma_trim(self.data@, sp.start as int, sp.end as int);
        }
        let mut a = sp.start;
        while a < sp.end && is_space_byte(self.data[a])
            invariant
                sp.start <= a <= sp.end <= self.data.len(),
                trim_start(self.data@, a as int, sp.end as int) == trim_start(
                    self.data@,
                    sp.start as int,
                    sp.end as int,
                ),
            decreases sp.end - a,
        {
            a = a + 1;
        }
        let mut b = sp.end;
        while a < b && is_space_byte(self.data[b - 1])
            invariant
                a <= b <= sp.end <= self.data.len(),
                trim_end(self.data@, a as int, b as int) == trim_end(
                    self.data@,
                    a as int,
                    sp.end as int,
                ),
            decreases b - a,
        {
            b = b - 1;
        }
        Span { start: a, end: b }
    }
}

} // verus!
