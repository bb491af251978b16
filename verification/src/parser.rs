//! The parser: recursive-descent precedence climbing over a token stream.
//!
//! Grammar, tightest binding innermost:
//! ```text
//! Expression         := AdditiveExpr
//! AdditiveExpr       := MultiplicativeExpr (("+" | "-") MultiplicativeExpr)*
//! MultiplicativeExpr := PrimaryExpr (("*" | "/") PrimaryExpr)*
//! PrimaryExpr        := Number | "(" AdditiveExpr ")"
//! ```
//! Each repetition folds the node built so far into the new left child, so
//! equal-precedence operators group to the left.  After the top-level
//! expression the next token must be the end-of-input token; anything else is
//! trailing input.
use vstd::prelude::*;

use crate::lexer::{is_digit_char, token_views, wf_tokens, Token, TokenV, Tokentype};

verus! {

/// One of the four binary operators.
#[derive(Clone, Copy, Debug, PartialEq, Eq, Structural)]
pub enum BinOp {
    Add,
    Sub,
    Mul,
    Div,
}

/// The abstract syntax tree: a number leaf or a binary operation whose
/// children it owns exclusively.
#[derive(Debug, PartialEq)]
pub enum Expr {
    Number(i64),
    BinaryExpr { left: Box<Expr>, operator: BinOp, right: Box<Expr> },
}

/// An error of the parser, each with the position (a token index) where it
/// was detected where one helps.
#[derive(Clone, Copy, Debug, PartialEq, Eq, Structural)]
pub enum ParseError {
    /// The grammar wanted one kind of token and found another.
    UnexpectedToken { expected: Tokentype, found: Tokentype, position: usize },
    /// An opening parenthesis without its closing one.
    UnbalancedParen,
    /// A complete expression followed by tokens other than end-of-input.
    TrailingInput,
    /// A number token whose text is not a digit run, or whose value does not
    /// fit the machine integer that a leaf holds.
    InvalidNumber { position: usize },
}

/// The numeric value of a digit sequence read left to right in base ten.
pub open spec fn digits_value(s: Seq<char>) -> int
    decreases s.len(),
{
    if s.len() == 0 {
        0
    } else {
        10 * digits_value(s.drop_last()) + (s.last() as int - '0' as int)
    }
}

/// A nonempty run of decimal digits.
pub open spec fn is_digit_seq(s: Seq<char>) -> bool {
    s.len() > 0 && forall|i: int| 0 <= i < s.len() ==> is_digit_char(#[trigger] s[i])
}

/// What a number token's text denotes: its base-ten value, if the text is a
/// digit run whose value fits the leaf type.
pub open spec fn token_number_value(v: Seq<char>) -> Option<int> {
    if is_digit_seq(v) && digits_value(v) <= i64::MAX {
        Some(digits_value(v))
    } else {
        None
    }
}

/// The value of a digit run is never negative.
pub proof fn lemma_digits_value_nonneg(s: Seq<char>)
    requires
        forall|i: int| 0 <= i < s.len() ==> is_digit_char(#[trigger] s[i]),
    ensures
        digits_value(s) >= 0,
    decreases s.len(),
{
    if s.len() > 0 {
        lemma_digits_value_nonneg(s.drop_last());
    }
}

/// Reading more digits never shrinks the value.
pub proof fn lemma_digits_value_extend(s: Seq<char>, k: int)
    requires
        0 <= k <= s.len(),
        forall|i: int| 0 <= i < s.len() ==> is_digit_char(#[trigger] s[i]),
    ensures
        digits_value(s.subrange(0, k)) <= digits_value(s),
    decreases s.len() - k,
{
    if k == s.len() {
        assert(s.subrange(0, k) =~= s);
    } else {
        let p = s.subrange(0, k);
        let q = s.subrange(0, k + 1);
        assert(q.drop_last() =~= p);
        lemma_digits_value_nonneg(p);
        lemma_digits_value_extend(s, k + 1);
    }
}

/// The token at a position; past the end it reads as the end-of-input token,
/// which no rule accepts.
pub open spec fn tok_at(toks: Seq<TokenV>, pos: int) -> TokenV {
    if 0 <= pos < toks.len() {
        toks[pos]
    } else {
        crate::lexer::eof_token()
    }
}

/// How many tokens remain from a position; the termination measure of the
/// grammar rules.  The rules recurse only where this measure visibly
/// shrinks; a successful sub-parse always advances the cursor, so those
/// guards never fail.
pub open spec fn rem(toks: Seq<TokenV>, pos: int) -> int {
    if pos <= toks.len() {
        toks.len() - pos
    } else {
        0
    }
}

/// `PrimaryExpr := Number | "(" AdditiveExpr ")"`: the node it yields at a
/// position and the position after it, or the error.
pub open spec fn sp_primary(toks: Seq<TokenV>, pos: int) -> Result<(Expr, int), ParseError>
    decreases rem(toks, pos), 1int,
{
    let t = tok_at(toks, pos);
    if t.kind == Tokentype::Number {
        match token_number_value(t.value) {
            Some(v) => Ok((Expr::Number(v as i64), pos + 1)),
            None => Err(ParseError::InvalidNumber { position: pos as usize }),
        }
    } else if t.kind == Tokentype::OpenParen {
        match sp_additive(toks, pos + 1) {
            Ok((e, p2)) => if tok_at(toks, p2).kind == Tokentype::CloseParen {
                Ok((e, p2 + 1))
            } else {
                Err(ParseError::UnbalancedParen)
            },
            Err(er) => Err(er),
        }
    } else {
        Err(
            ParseError::UnexpectedToken {
                expected: Tokentype::Number,
                found: t.kind,
                position: pos as usize,
            },
        )
    }
}

/// The `(("*" | "/") PrimaryExpr)*` tail: folds each factor into the left
/// child of a new node, so the chain groups to the left.
pub open spec fn sp_mult_rest(toks: Seq<TokenV>, pos: int, left: Expr) -> Result<
    (Expr, int),
    ParseError,
>
    decreases rem(toks, pos), 3int,
{
    let t = tok_at(toks, pos);
    if t.kind == Tokentype::Operator && (t.value == seq!['*'] || t.value == seq!['/']) {
        match sp_primary(toks, pos + 1) {
            Ok((right, p2)) => {
                let op = if t.value == seq!['*'] {
                    BinOp::Mul
                } else {
                    BinOp::Div
                };
                let e = Expr::BinaryExpr {
                    left: Box::new(left),
                    operator: op,
                    right: Box::new(right),
                };
                if rem(toks, p2) < rem(toks, pos) {
                    sp_mult_rest(toks, p2, e)
                } else {
                    Ok((e, p2))
                }
            },
            Err(er) => Err(er),
        }
    } else {
        Ok((left, pos))
    }
}

/// `MultiplicativeExpr := PrimaryExpr (("*" | "/") PrimaryExpr)*`.
pub open spec fn sp_mult(toks: Seq<TokenV>, pos: int) -> Result<(Expr, int), ParseError>
    decreases rem(toks, pos), 2int,
{
    match sp_primary(toks, pos) {
        Ok((left, p1)) => if rem(toks, p1) < rem(toks, pos) {
            sp_mult_rest(toks, p1, left)
        } else {
            Ok((left, p1))
        },
        Err(er) => Err(er),
    }
}

/// The `(("+" | "-") MultiplicativeExpr)*` tail: folds each term into the
/// left child of a new node, so the chain groups to the left.
pub open spec fn sp_add_rest(toks: Seq<TokenV>, pos: int, left: Expr) -> Result<
    (Expr, int),
    ParseError,
>
    decreases rem(toks, pos), 5int,
{
    let t = tok_at(toks, pos);
    if t.kind == Tokentype::Operator && (t.value == seq!['+'] || t.value == seq!['-']) {
        match sp_mult(toks, pos + 1) {
            Ok((right, p2)) => {
                let op = if t.value == seq!['+'] {
                    BinOp::Add
                } else {
                    BinOp::Sub
                };
                let e = Expr::BinaryExpr {
                    left: Box::new(left),
                    operator: op,
                    right: Box::new(right),
                };
                if rem(toks, p2) < rem(toks, pos) {
                    sp_add_rest(toks, p2, e)
                } else {
                    Ok((e, p2))
                }
            },
            Err(er) => Err(er),
        }
    } else {
        Ok((left, pos))
    }
}

/// `AdditiveExpr := MultiplicativeExpr (("+" | "-") MultiplicativeExpr)*`.
pub open spec fn sp_additive(toks: Seq<TokenV>, pos: int) -> Result<(Expr, int), ParseError>
    decreases rem(toks, pos), 4int,
{
    match sp_mult(toks, pos) {
        Ok((left, p1)) => if rem(toks, p1) < rem(toks, pos) {
            sp_add_rest(toks, p1, left)
        } else {
            Ok((left, p1))
        },
        Err(er) => Err(er),
    }
}

/// Progress of the grammar rules: whatever a rule accepts ends strictly
/// after where it started and inside the token stream, so the termination
/// guards inside the rules never fail.
pub proof fn lemma_parse_progress(toks: Seq<TokenV>, pos: int, left: Expr)
    ensures
        sp_primary(toks, pos) matches Ok((e, p)) ==> pos < p <= toks.len(),
        sp_mult(toks, pos) matches Ok((e, p)) ==> pos < p <= toks.len(),
        sp_additive(toks, pos) matches Ok((e, p)) ==> pos < p <= toks.len(),
        sp_mult_rest(toks, pos, left) matches Ok((e, p)) ==> pos <= p <= toks.len() || pos
            > toks.len(),
        sp_add_rest(toks, pos, left) matches Ok((e, p)) ==> pos <= p <= toks.len() || pos
            > toks.len(),
    decreases rem(toks, pos), 6int,
{
    let t = tok_at(toks, pos);
    if t.kind == Tokentype::OpenParen {
        lemma_parse_progress(toks, pos + 1, left);
        if sp_additive(toks, pos + 1) is Ok {
            let (e, p2) = sp_additive(toks, pos + 1)->Ok_0;
            if tok_at(toks, p2).kind == Tokentype::CloseParen {
                assert(p2 < toks.len());
            }
        }
    }
    if sp_primary(toks, pos) is Ok {
        let (e, p1) = sp_primary(toks, pos)->Ok_0;
        if rem(toks, p1) < rem(toks, pos) {
            lemma_parse_progress(toks, p1, e);
        }
    }
    if t.kind == Tokentype::Operator && (t.value == seq!['*'] || t.value == seq!['/'])
        && sp_primary(toks, pos + 1) is Ok {
        lemma_parse_progress(toks, pos + 1, left);
        let (right, p2) = sp_primary(toks, pos + 1)->Ok_0;
        if rem(toks, p2) < rem(toks, pos) {
            let e = Expr::BinaryExpr {
                left: Box::new(left),
                operator: if t.value == seq!['*'] {
                    BinOp::Mul
                } else {
                    BinOp::Div
                },
                right: Box::new(right),
            };
            lemma_parse_progress(toks, p2, e);
        }
    }
    if sp_mult(toks, pos) is Ok {
        let (e, p1) = sp_mult(toks, pos)->Ok_0;
        if rem(toks, p1) < rem(toks, pos) {
            lemma_parse_progress(toks, p1, e);
        }
    }
    if t.kind == Tokentype::Operator && (t.value == seq!['+'] || t.value == seq!['-'])
        && sp_mult(toks, pos + 1) is Ok {
        lemma_parse_progress(toks, pos + 1, left);
        let (right, p2) = sp_mult(toks, pos + 1)->Ok_0;
        if rem(toks, p2) < rem(toks, pos) {
            let e = Expr::BinaryExpr {
                left: Box::new(left),
                operator: if t.value == seq!['+'] {
                    BinOp::Add
                } else {
                    BinOp::Sub
                },
                right: Box::new(right),
            };
            lemma_parse_progress(toks, p2, e);
        }
    }
}

/// What parsing a whole token stream yields: the tree of the top-level
/// additive expression, provided the next token after it is the end-of-input
/// token; otherwise the error, trailing tokens included.
pub open spec fn spec_parse(toks: Seq<TokenV>) -> Result<Expr, ParseError> {
    match sp_additive(toks, 0) {
        Ok((e, p)) => if tok_at(toks, p).kind == Tokentype::EoF {
            Ok(e)
        } else {
            Err(ParseError::TrailingInput)
        },
        Err(er) => Err(er),
    }
}

/// The depth of a tree: a leaf has depth zero; a node stands one above its
/// deeper child.
pub open spec fn depth(e: Expr) -> nat
    decreases e,
{
    match e {
        Expr::Number(_) => 0,
        Expr::BinaryExpr { left, operator, right } => 1 + if depth(*left) >= depth(*right) {
            depth(*left)
        } else {
            depth(*right)
        },
    }
}

/// A left-leaning chain of `n` operator nodes: no steps is a bare leaf; each
/// further step hangs the chain so far on the left of a node whose right
/// child is a leaf.
pub open spec fn is_left_chain(e: Expr, n: nat) -> bool
    decreases n,
{
    if n == 0 {
        e is Number
    } else {
        e matches Expr::BinaryExpr { left, right, .. } && (*right) is Number && is_left_chain(
            *left,
            (n - 1) as nat,
        )
    }
}

/// One operator token of the chosen precedence level: `+`/`-` at the
/// additive level, `*`/`/` at the multiplicative one.
pub open spec fn is_chain_op(t: TokenV, additive: bool) -> bool {
    t.kind == Tokentype::Operator && if additive {
        t.value == seq!['+'] || t.value == seq!['-']
    } else {
        t.value == seq!['*'] || t.value == seq!['/']
    }
}

/// A flat chain of `k` equal-precedence operators between `k + 1` numbers:
/// number tokens with values at the even positions, operator tokens of one
/// precedence level at the odd ones, and the end-of-input token last.
pub open spec fn is_chain_tokens(toks: Seq<TokenV>, k: int, additive: bool) -> bool {
    &&& k >= 0
    &&& toks.len() == 2 * k + 2
    &&& (forall|i: int|
        0 <= i < 2 * k + 1 && i % 2 == 0 ==> (#[trigger] toks[i]).kind == Tokentype::Number
            && token_number_value(toks[i].value) is Some)
    &&& (forall|i: int| 0 <= i < 2 * k + 1 && i % 2 == 1 ==> is_chain_op(#[trigger] toks[i], additive))
    &&& toks[2 * k + 1].kind == Tokentype::EoF
}

/// A left-leaning chain of `n` nodes has depth exactly `n`.
pub proof fn lemma_left_chain_depth(e: Expr, n: nat)
    requires
        is_left_chain(e, n),
    ensures
        depth(e) == n,
    decreases n,
{
    if n > 0 {
        let left = e->BinaryExpr_left;
        let right = e->BinaryExpr_right;
        assert(depth(*right) == 0);
        lemma_left_chain_depth(*left, (n - 1) as nat);
        assert(depth(e) == 1 + depth(*left));
    }
}

/// A multiplicative expression that starts at a number token not followed by
/// a `*`/`/` operator is just that leaf.
proof fn lemma_mult_on_number(toks: Seq<TokenV>, pos: int)
    requires
        0 <= pos,
        pos + 1 < toks.len(),
        toks[pos].kind == Tokentype::Number,
        token_number_value(toks[pos].value) is Some,
        !(toks[pos + 1].kind == Tokentype::Operator && (toks[pos + 1].value == seq!['*']
            || toks[pos + 1].value == seq!['/'])),
    ensures
        sp_mult(toks, pos) matches Ok((e, p)) && p == pos + 1 && e is Number,
{
    assert(sp_primary(toks, pos) matches Ok((e, p)) && p == pos + 1 && e is Number);
}

/// Folding the `+`/`-` tail of a flat additive chain keeps the tree a
/// left-leaning chain and ends right before the end-of-input token.
proof fn lemma_add_rest_chain(toks: Seq<TokenV>, k: int, j: int, e: Expr)
    requires
        is_chain_tokens(toks, k, true),
        0 <= j <= k,
        is_left_chain(e, j as nat),
    ensures
        sp_add_rest(toks, 2 * j + 1, e) matches Ok((f, p)) && p == 2 * k + 1 && is_left_chain(
            f,
            k as nat,
        ),
    decreases k - j,
{
    if j == k {
        assert(tok_at(toks, 2 * j + 1).kind == Tokentype::EoF);
    } else {
        let t = tok_at(toks, 2 * j + 1);
        assert(is_chain_op(t, true));
        lemma_mult_on_number(toks, 2 * j + 2);
        let right = sp_mult(toks, 2 * j + 2)->Ok_0.0;
        let f = Expr::BinaryExpr {
            left: Box::new(e),
            operator: if t.value == seq!['+'] {
                BinOp::Add
            } else {
                BinOp::Sub
            },
            right: Box::new(right),
        };
        assert(is_left_chain(f, (j + 1) as nat));
        lemma_add_rest_chain(toks, k, j + 1, f);
    }
}

/// Folding the `*`/`/` tail of a flat multiplicative chain keeps the tree a
/// left-leaning chain and ends right before the end-of-input token.
proof fn lemma_mult_rest_chain(toks: Seq<TokenV>, k: int, j: int, e: Expr)
    requires
        is_chain_tokens(toks, k, false),
        0 <= j <= k,
        is_left_chain(e, j as nat),
    ensures
        sp_mult_rest(toks, 2 * j + 1, e) matches Ok((f, p)) && p == 2 * k + 1 && is_left_chain(
            f,
            k as nat,
        ),
    decreases k - j,
{
    if j == k {
        assert(tok_at(toks, 2 * j + 1).kind == Tokentype::EoF);
    } else {
        let t = tok_at(toks, 2 * j + 1);
        assert(is_chain_op(t, false));
        assert(sp_primary(toks, 2 * j + 2) matches Ok((r, p)) && p == 2 * j + 3 && r is Number);
        let right = sp_primary(toks, 2 * j + 2)->Ok_0.0;
        let f = Expr::BinaryExpr {
            left: Box::new(e),
            operator: if t.value == seq!['*'] {
                BinOp::Mul
            } else {
                BinOp::Div
            },
            right: Box::new(right),
        };
        assert(is_left_chain(f, (j + 1) as nat));
        lemma_mult_rest_chain(toks, k, j + 1, f);
    }
}

/// The tree-shape law at the additive level: a flat chain of `k` `+`/`-`
/// operators between numbers parses to a left-leaning chain of depth exactly
/// `k` — never to a right-leaning or balanced tree.
pub proof fn lemma_additive_chain_left_leaning(toks: Seq<TokenV>, k: int)
    requires
        is_chain_tokens(toks, k, true),
    ensures
        spec_parse(toks) matches Ok(e) && is_left_chain(e, k as nat) && depth(e) == k,
{
    assert(toks[1].kind != Tokentype::OpenParen && !is_chain_op(toks[1], false)) by {
        if k == 0 {
        } else {
            assert(is_chain_op(toks[1], true));
        }
    }
    lemma_mult_on_number(toks, 0);
    let left = sp_mult(toks, 0)->Ok_0.0;
    lemma_add_rest_chain(toks, k, 0, left);
    let e = sp_add_rest(toks, 1, left)->Ok_0.0;
    lemma_left_chain_depth(e, k as nat);
}

/// The tree-shape law at the multiplicative level: a flat chain of `k`
/// `*`/`/` operators between numbers parses to a left-leaning chain of depth
/// exactly `k`.
pub proof fn lemma_multiplicative_chain_left_leaning(toks: Seq<TokenV>, k: int)
    requires
        is_chain_tokens(toks, k, false),
    ensures
        spec_parse(toks) matches Ok(e) && is_left_chain(e, k as nat) && depth(e) == k,
{
    assert(sp_primary(toks, 0) matches Ok((e, p)) && p == 1 && e is Number);
    let left = sp_primary(toks, 0)->Ok_0.0;
    lemma_mult_rest_chain(toks, k, 0, left);
    let e = sp_mult_rest(toks, 1, left)->Ok_0.0;
    assert(tok_at(toks, 2 * k + 1).kind == Tokentype::EoF);
    lemma_left_chain_depth(e, k as nat);
}

/// Converts a number token's text to the machine integer a leaf holds:
/// `None` exactly when the text denotes no value (`token_number_value`).
pub fn digits_to_i64(v: &Vec<char>) -> (r: Option<i64>)
    ensures
        match r {
            Some(x) => token_number_value(v@) == Some(x as int),
            None => token_number_value(v@) == None::<int>,
        },
{
    if v.len() == 0 {
        return None;
    }
    let mut acc: i64 = 0;
    let mut i: usize = 0;
    while i < v.len()
        invariant
            0 <= i <= v@.len(),
            forall|j: int| 0 <= j < i ==> is_digit_char(#[trigger] v@[j]),
            0 <= acc <= i64::MAX,
            acc as int == digits_value(v@.subrange(0, i as int)),
        decreases v@.len() - i,
    {
        let c = v[i];
        if !('0' <= c && c <= '9') {
            return None;
        }
        let d = (c as u32 - '0' as u32) as i64;
        assert(0 <= d <= 9);
        let ghost prefix = v@.subrange(0, i as int + 1);
        proof {
            assert(prefix.drop_last() =~= v@.subrange(0, i as int));
            assert(digits_value(prefix) == 10 * acc + d);
        }
        if acc > (i64::MAX - d) / 10 {
            proof {
                assert(10 * acc + d > i64::MAX) by (nonlinear_arith)
                    requires
                        acc > (i64::MAX - d) / 10,
                        0 <= d <= 9,
                ;
                if is_digit_seq(v@) {
                    lemma_digits_value_extend(v@, i as int + 1);
                    assert(digits_value(v@) > i64::MAX);
                }
            }
            return None;
        }
        proof {
            assert(10 * acc + d <= i64::MAX) by (nonlinear_arith)
                requires
                    acc <= (i64::MAX - d) / 10,
                    0 <= d <= 9,
            ;
        }
        acc = acc * 10 + d;
        i = i + 1;
    }
    proof {
        assert(v@.subrange(0, v@.len() as int) =~= v@);
    }
    Some(acc)
}

/// Consumes the token stream strictly left to right through one cursor.
pub struct Parser {
    pub tokens: Vec<Token>,
    pub position: usize,
}

impl Parser {
    /// The views of the tokens this parser reads.
    pub open spec fn tokens_view(&self) -> Seq<TokenV> {
        token_views(self.tokens@)
    }

    pub fn new(tokens: Vec<Token>) -> (r: Parser)
        ensures
            r.tokens@ == tokens@,
            r.position == 0,
    {
        Parser { tokens, position: 0 }
    }

    /// The token under the cursor.
    pub fn at(&self) -> (t: &Token)
        requires
            self.position < self.tokens@.len(),
        ensures
            t@ == self.tokens_view()[self.position as int],
    {
        &self.tokens[self.position]
    }

    /// Returns the token under the cursor and moves past it.
    pub fn eat(&mut self) -> (t: Token)
        requires
            old(self).position < old(self).tokens@.len(),
        ensures
            final(self).tokens@ == old(self).tokens@,
            final(self).position == old(self).position + 1,
            t@ == old(self).tokens_view()[old(self).position as int],
    {
        let n = self.tokens.len();
        assert(self.position < n);
        let t = self.tokens[self.position].clone();
        self.position = self.position + 1;
        t
    }

    /// Consumes the token under the cursor if it has the expected kind;
    /// otherwise reports what was expected, what was found, and where.
    pub fn expect(&mut self, expected: Tokentype) -> (r: Result<Token, ParseError>)
        requires
            old(self).position < old(self).tokens@.len(),
        ensures
            final(self).tokens@ == old(self).tokens@,
            match r {
                Ok(t) => {
                    &&& old(self).tokens_view()[old(self).position as int].kind == expected
                    &&& t@ == old(self).tokens_view()[old(self).position as int]
                    &&& final(self).position == old(self).position + 1
                },
                Err(er) => {
                    &&& old(self).tokens_view()[old(self).position as int].kind != expected
                    &&& er == (ParseError::UnexpectedToken {
                        expected,
                        found: old(self).tokens_view()[old(self).position as int].kind,
                        position: old(self).position,
                    })
                    &&& final(self).position == old(self).position
                },
            },
    {
        let found = self.at().token_type;
        if found == expected {
            Ok(self.eat())
        } else {
            Err(ParseError::UnexpectedToken { expected, found, position: self.position })
        }
    }

    /// Whether the cursor stands on a token other than end-of-input.
    pub fn not_eof(&self) -> (r: bool)
        ensures
            r == (self.position < self.tokens@.len()
                && self.tokens_view()[self.position as int].kind != Tokentype::EoF),
    {
        if self.position < self.tokens.len() {
            self.tokens[self.position].token_type != Tokentype::EoF
        } else {
            false
        }
    }

    /// Parses the whole stream as one expression and demands that nothing
    /// but the end-of-input token follows it.  The result is exactly what
    /// `spec_parse` says for the stream.
    pub fn parse(&mut self) -> (r: Result<Expr, ParseError>)
        requires
            wf_tokens(old(self).tokens_view()),
            old(self).position == 0,
        ensures
            final(self).tokens@ == old(self).tokens@,
            r == spec_parse(old(self).tokens_view()),
    {
        let e = match self.parse_additive_expr() {
            Ok(e) => e,
            Err(er) => {
                return Err(er);
            },
        };
        if self.not_eof() {
            Err(ParseError::TrailingInput)
        } else {
            Ok(e)
        }
    }

    /// One additive level: a multiplicative expression, then any number of
    /// `+`/`-` steps, each folded into the left child.
    pub fn parse_additive_expr(&mut self) -> (r: Result<Expr, ParseError>)
        requires
            wf_tokens(old(self).tokens_view()),
            old(self).position < old(self).tokens@.len(),
        ensures
            final(self).tokens@ == old(self).tokens@,
            match r {
                Ok(e) => {
                    &&& sp_additive(old(self).tokens_view(), old(self).position as int)
                        == Ok::<_, ParseError>((e, final(self).position as int))
                    &&& old(self).position < final(self).position < old(self).tokens@.len()
                },
                Err(er) => sp_additive(old(self).tokens_view(), old(self).position as int)
                    == Err::<(Expr, int), _>(er),
            },
        decreases self.tokens@.len() - self.position, 3int,
    {
        let ghost toks0 = self.tokens@;
        let ghost tv = self.tokens_view();
        let ghost pos0 = self.position as int;
        let mut left = match self.parse_multiplicitive_expr() {
            Ok(e) => e,
            Err(er) => {
                return Err(er);
            },
        };
        loop
            invariant
                self.tokens@ == toks0,
                self.tokens_view() == tv,
                pos0 < self.position < self.tokens@.len(),
                sp_additive(tv, pos0) == sp_add_rest(tv, self.position as int, left),
            decreases self.tokens@.len() - self.position,
        {
            let ghost p = self.position as int;
            let is_add_op = {
                let t = self.at();
                t.token_type == Tokentype::Operator && t.value.len() == 1 && (t.value[0] == '+'
                    || t.value[0] == '-')
            };
            if !is_add_op {
                proof {
                    let t = tok_at(tv, p);
                    assert(t.value == seq!['+'] ==> t.value.len() == 1 && t.value[0] == '+');
                    assert(t.value == seq!['-'] ==> t.value.len() == 1 && t.value[0] == '-');
                }
                return Ok(left);
            }
            let op_token = self.eat();
            let op = if op_token.value[0] == '+' {
                BinOp::Add
            } else {
                BinOp::Sub
            };
            proof {
                let t = tok_at(tv, p);
                if op_token.value@[0] == '+' {
                    assert(t.value =~= seq!['+']);
                } else {
                    assert(t.value =~= seq!['-']);
                    assert(t.value != seq!['+']);
                }
            }
            let right = match self.parse_multiplicitive_expr() {
                Ok(e) => e,
                Err(er) => {
                    return Err(er);
                },
            };
            left = Expr::BinaryExpr { left: Box::new(left), operator: op, right: Box::new(right) };
        }
    }

    /// One multiplicative level: a primary expression, then any number of
    /// `*`/`/` steps, each folded into the left child.
    pub fn parse_multiplicitive_expr(&mut self) -> (r: Result<Expr, ParseError>)
        requires
            wf_tokens(old(self).tokens_view()),
            old(self).position < old(self).tokens@.len(),
        ensures
            final(self).tokens@ == old(self).tokens@,
            match r {
                Ok(e) => {
                    &&& sp_mult(old(self).tokens_view(), old(self).position as int)
                        == Ok::<_, ParseError>((e, final(self).position as int))
                    &&& old(self).position < final(self).position < old(self).tokens@.len()
                },
                Err(er) => sp_mult(old(self).tokens_view(), old(self).position as int)
                    == Err::<(Expr, int), _>(er),
            },
        decreases self.tokens@.len() - self.position, 2int,
    {
        let ghost toks0 = self.tokens@;
        let ghost tv = self.tokens_view();
        let ghost pos0 = self.position as int;
        let mut left = match self.parse_primary_expr() {
            Ok(e) => e,
            Err(er) => {
                return Err(er);
            },
        };
        loop
            invariant
                self.tokens@ == toks0,
                self.tokens_view() == tv,
                pos0 < self.position < self.tokens@.len(),
                sp_mult(tv, pos0) == sp_mult_rest(tv, self.position as int, left),
            decreases self.tokens@.len() - self.position,
        {
            let ghost p = self.position as int;
            let is_mul_op = {
                let t = self.at();
                t.token_type == Tokentype::Operator && t.value.len() == 1 && (t.value[0] == '*'
                    || t.value[0] == '/')
            };
            if !is_mul_op {
                proof {
                    let t = tok_at(tv, p);
                    assert(t.value == seq!['*'] ==> t.value.len() == 1 && t.value[0] == '*');
                    assert(t.value == seq!['/'] ==> t.value.len() == 1 && t.value[0] == '/');
                }
                return Ok(left);
            }
            let op_token = self.eat();
            let op = if op_token.value[0] == '*' {
                BinOp::Mul
            } else {
                BinOp::Div
            };
            proof {
                let t = tok_at(tv, p);
                if op_token.value@[0] == '*' {
                    assert(t.value =~= seq!['*']);
                } else {
                    assert(t.value =~= seq!['/']);
                    assert(t.value != seq!['*']);
                }
            }
            let right = match self.parse_primary_expr() {
                Ok(e) => e,
                Err(er) => {
                    return Err(er);
                },
            };
            left = Expr::BinaryExpr { left: Box::new(left), operator: op, right: Box::new(right) };
        }
    }

    /// One primary expression: a number leaf, or a parenthesized additive
    /// expression whose closing parenthesis must follow.
    pub fn parse_primary_expr(&mut self) -> (r: Result<Expr, ParseError>)
        requires
            wf_tokens(old(self).tokens_view()),
            old(self).position < old(self).tokens@.len(),
        ensures
            final(self).tokens@ == old(self).tokens@,
            match r {
                Ok(e) => {
                    &&& sp_primary(old(self).tokens_view(), old(self).position as int)
                        == Ok::<_, ParseError>((e, final(self).position as int))
                    &&& old(self).position < final(self).position < old(self).tokens@.len()
                },
                Err(er) => sp_primary(old(self).tokens_view(), old(self).position as int)
                    == Err::<(Expr, int), _>(er),
            },
        decreases self.tokens@.len() - self.position, 1int,
    {
        let kind = self.at().token_type;
        if kind == Tokentype::Number {
            let token = self.eat();
            match digits_to_i64(&token.value) {
                Some(x) => Ok(Expr::Number(x)),
                None => Err(ParseError::InvalidNumber { position: self.position - 1 }),
            }
        } else if kind == Tokentype::OpenParen {
            match self.expect(Tokentype::OpenParen) {
                Ok(_) => {},
                Err(er) => {
                    return Err(er);
                },
            }
            let e = match self.parse_additive_expr() {
                Ok(e) => e,
                Err(er) => {
                    return Err(er);
                },
            };
            let closing = self.at();
            if closing.token_type == Tokentype::CloseParen {
                self.eat();
                Ok(e)
            } else {
                Err(ParseError::UnbalancedParen)
            }
        } else {
            Err(
                ParseError::UnexpectedToken {
                    expected: Tokentype::Number,
                    found: kind,
                    position: self.position,
                },
            )
        }
    }
}

} // verus!
