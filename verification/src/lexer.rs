//! The tokenizer: turns a character sequence into a sequence of typed
//! tokens, terminated by exactly one end-of-input token.
//!
//! Digits are gathered greedily into one number token per maximal run;
//! `+ - * /` become one-character operator tokens; parentheses become their
//! own tokens; whitespace is skipped; any other character is a lex error.
use vstd::prelude::*;

verus! {

/// The kind of a token.
#[derive(Clone, Copy, Debug, PartialEq, Eq, Structural)]
pub enum Tokentype {
    Number,
    Operator,
    OpenParen,
    CloseParen,
    EoF,
}

/// One token: its text and its kind.
#[derive(Debug)]
pub struct Token {
    pub value: Vec<char>,
    pub token_type: Tokentype,
}

/// The mathematical image of a token: its text as a character sequence and
/// its kind.
pub ghost struct TokenV {
    pub value: Seq<char>,
    pub kind: Tokentype,
}

impl View for Token {
    type V = TokenV;

    open spec fn view(&self) -> TokenV {
        TokenV { value: self.value@, kind: self.token_type }
    }
}

impl Clone for Token {
    fn clone(&self) -> (r: Self)
        ensures
            r@ == self@,
    {
        Token { value: self.value.clone(), token_type: self.token_type }
    }
}

impl Token {
    pub fn new(value: Vec<char>, token_type: Tokentype) -> (r: Token)
        ensures
            r@ == (TokenV { value: value@, kind: token_type }),
    {
        Token { value, token_type }
    }
}

/// The token views of a token vector, in order.
pub open spec fn token_views(ts: Seq<Token>) -> Seq<TokenV> {
    ts.map(|i: int, t: Token| t@)
}

/// An error of the tokenizer: a character outside the supported alphabet,
/// with its position in the input.
#[derive(Clone, Copy, Debug, PartialEq, Eq, Structural)]
pub enum LexError {
    UnexpectedCharacter { character: char, position: usize },
}

pub open spec fn is_whitespace_char(c: char) -> bool {
    c == ' ' || c == '\t' || c == '\n' || c == '\r'
}

pub open spec fn is_digit_char(c: char) -> bool {
    '0' <= c && c <= '9'
}

pub open spec fn is_operator_char(c: char) -> bool {
    c == '+' || c == '-' || c == '*' || c == '/'
}

/// The end-of-input token.
pub open spec fn eof_token() -> TokenV {
    TokenV { value: Seq::empty(), kind: Tokentype::EoF }
}

/// The first position at or after `pos` whose character is not a digit; the
/// maximal digit run starting at `pos` ends there.
pub open spec fn digit_run_end(s: Seq<char>, pos: int) -> int
    decreases s.len() - pos,
{
    if 0 <= pos < s.len() && is_digit_char(s[pos]) {
        digit_run_end(s, pos + 1)
    } else {
        pos
    }
}

pub proof fn lemma_digit_run_end(s: Seq<char>, pos: int)
    requires
        0 <= pos <= s.len(),
    ensures
        pos <= digit_run_end(s, pos) <= s.len(),
        forall|i: int| pos <= i < digit_run_end(s, pos) ==> is_digit_char(s[i]),
        digit_run_end(s, pos) < s.len() ==> !is_digit_char(s[digit_run_end(s, pos)]),
    decreases s.len() - pos,
{
    if pos < s.len() && is_digit_char(s[pos]) {
        lemma_digit_run_end(s, pos + 1);
    }
}

/// The tokens of `s` from position `pos` on, or the first unsupported
/// character and its position.  A maximal digit run becomes one number
/// token; operators and parentheses become one-character tokens; whitespace
/// produces nothing; the sequence always ends with the end-of-input token.
pub open spec fn spec_tokenize_from(s: Seq<char>, pos: int) -> Result<Seq<TokenV>, (char, int)>
    decreases s.len() - pos,
{
    if !(0 <= pos < s.len()) {
        Ok(seq![eof_token()])
    } else {
        let c = s[pos];
        if is_whitespace_char(c) {
            spec_tokenize_from(s, pos + 1)
        } else if is_operator_char(c) {
            match spec_tokenize_from(s, pos + 1) {
                Ok(rest) => Ok(
                    seq![TokenV { value: seq![c], kind: Tokentype::Operator }] + rest,
                ),
                Err(e) => Err(e),
            }
        } else if c == '(' {
            match spec_tokenize_from(s, pos + 1) {
                Ok(rest) => Ok(
                    seq![TokenV { value: seq![c], kind: Tokentype::OpenParen }] + rest,
                ),
                Err(e) => Err(e),
            }
        } else if c == ')' {
            match spec_tokenize_from(s, pos + 1) {
                Ok(rest) => Ok(
                    seq![TokenV { value: seq![c], kind: Tokentype::CloseParen }] + rest,
                ),
                Err(e) => Err(e),
            }
        } else if is_digit_char(c) {
            let end = digit_run_end(s, pos);
            let next = if pos < end <= s.len() {
                end
            } else {
                pos + 1
            };
            match spec_tokenize_from(s, next) {
                Ok(rest) => Ok(
                    seq![TokenV { value: s.subrange(pos, next), kind: Tokentype::Number }] + rest,
                ),
                Err(e) => Err(e),
            }
        } else {
            Err((c, pos))
        }
    }
}

/// The tokens of a whole character sequence, or its first unsupported
/// character with its position.
pub open spec fn spec_tokenize(s: Seq<char>) -> Result<Seq<TokenV>, (char, int)> {
    spec_tokenize_from(s, 0)
}

/// A well-formed token stream: nonempty, ends with the end-of-input token,
/// and no end-of-input token stands anywhere before the final position.
pub open spec fn wf_tokens(toks: Seq<TokenV>) -> bool {
    &&& toks.len() > 0
    &&& toks.last().kind == Tokentype::EoF
    &&& forall|i: int| 0 <= i < toks.len() - 1 ==> (#[trigger] toks[i].kind) != Tokentype::EoF
}

/// Whatever the tokenizer accepts is a well-formed token stream.
pub proof fn lemma_tokenize_from_wf(s: Seq<char>, pos: int)
    ensures
        spec_tokenize_from(s, pos) matches Ok(tvs) ==> wf_tokens(tvs),
    decreases s.len() - pos,
{
    if 0 <= pos < s.len() {
        let c = s[pos];
        if is_whitespace_char(c) {
            lemma_tokenize_from_wf(s, pos + 1);
        } else if is_operator_char(c) || c == '(' || c == ')' {
            lemma_tokenize_from_wf(s, pos + 1);
        } else if is_digit_char(c) {
            let end = digit_run_end(s, pos);
            let next = if pos < end <= s.len() {
                end
            } else {
                pos + 1
            };
            lemma_tokenize_from_wf(s, next);
        }
    }
}

/// Tokenizing is deterministic: the token sequence — value and kind of every
/// token, in order — is a function of the text alone, so scanning the same
/// text twice yields token-for-token identical sequences.  `tokenize`
/// ensures that its result equals `spec_tokenize_from` of its input, so two
/// scans of equal texts agree.
pub proof fn lemma_tokenize_deterministic(s1: Seq<char>, s2: Seq<char>)
    requires
        s1 == s2,
    ensures
        spec_tokenize(s1) == spec_tokenize(s2),
{
}

/// Whatever `spec_tokenize` accepts is a well-formed token stream.
pub proof fn lemma_tokenize_wf(s: Seq<char>)
    ensures
        spec_tokenize(s) matches Ok(tvs) ==> wf_tokens(tvs),
{
    lemma_tokenize_from_wf(s, 0);
}

/// An error of the scanner is always reported at or after the position the
/// scan started from, and inside the input.
proof fn lemma_tokenize_err_position(s: Seq<char>, pos: int)
    requires
        0 <= pos,
    ensures
        spec_tokenize_from(s, pos) matches Err((c, q)) ==> pos <= q < s.len(),
    decreases s.len() - pos,
{
    if pos < s.len() {
        let c = s[pos];
        if is_whitespace_char(c) || is_operator_char(c) || c == '(' || c == ')' {
            lemma_tokenize_err_position(s, pos + 1);
        } else if is_digit_char(c) {
            let end = digit_run_end(s, pos);
            let next = if pos < end <= s.len() {
                end
            } else {
                pos + 1
            };
            lemma_tokenize_err_position(s, next);
        }
    }
}

/// Inserting one character shifts every digit run after it one place right.
proof fn lemma_digit_run_end_insert_after(s: Seq<char>, i: int, c: char, p: int)
    requires
        0 <= i <= p <= s.len(),
    ensures
        digit_run_end(s.insert(i, c), p + 1) == digit_run_end(s, p) + 1,
    decreases s.len() - p,
{
    s.insert_ensures(i, c);
    if p < s.len() && is_digit_char(s[p]) {
        lemma_digit_run_end_insert_after(s, i, c, p + 1);
    }
}

/// The scan after an inserted character sees the original suffix token for
/// token; only an error position moves one place right.
proof fn lemma_tokenize_insert_after(s: Seq<char>, i: int, c: char, p: int)
    requires
        0 <= i <= p <= s.len(),
    ensures
        spec_tokenize_from(s.insert(i, c), p + 1) == (match spec_tokenize_from(s, p) {
            Ok(t) => Ok::<_, (char, int)>(t),
            Err((c2, q)) => Err::<Seq<TokenV>, _>((c2, q + 1)),
        }),
    decreases s.len() - p,
{
    let s2 = s.insert(i, c);
    s.insert_ensures(i, c);
    if p < s.len() {
        let ch = s[p];
        assert(s2[p + 1] == ch);
        if is_whitespace_char(ch) || is_operator_char(ch) || ch == '(' || ch == ')' {
            lemma_tokenize_insert_after(s, i, c, p + 1);
        } else if is_digit_char(ch) {
            lemma_digit_run_end(s, p);
            let end = digit_run_end(s, p);
            lemma_digit_run_end_insert_after(s, i, c, p);
            assert(s2.subrange(p + 1, end + 1) =~= s.subrange(p, end));
            lemma_tokenize_insert_after(s, i, c, end);
        }
    }
}

/// A digit run that ends before the insertion point is not moved by
/// inserting a non-digit there.
proof fn lemma_digit_run_end_insert_before(s: Seq<char>, i: int, c: char, p: int)
    requires
        0 <= p <= i <= s.len(),
        !is_digit_char(c),
        digit_run_end(s, p) <= i,
    ensures
        digit_run_end(s.insert(i, c), p) == digit_run_end(s, p),
    decreases i - p,
{
    s.insert_ensures(i, c);
    lemma_digit_run_end(s, p);
    if p < i && is_digit_char(s[p]) {
        lemma_digit_run_end_insert_before(s, i, c, p + 1);
    }
}

/// The scan before an inserted whitespace character sees the original
/// tokens, provided the insertion does not split a digit run; only an error
/// position at or after the insertion point moves one place right.
proof fn lemma_tokenize_insert_before(s: Seq<char>, i: int, c: char, p: int)
    requires
        0 <= p <= i <= s.len(),
        is_whitespace_char(c),
        !(0 < i < s.len() && is_digit_char(s[i - 1]) && is_digit_char(s[i])),
    ensures
        spec_tokenize_from(s.insert(i, c), p) == (match spec_tokenize_from(s, p) {
            Ok(t) => Ok::<_, (char, int)>(t),
            Err((c2, q)) => Err::<Seq<TokenV>, _>(
                (c2, if q >= i {
                    q + 1
                } else {
                    q
                }),
            ),
        }),
    decreases i - p,
{
    let s2 = s.insert(i, c);
    s.insert_ensures(i, c);
    if p == i {
        lemma_tokenize_insert_after(s, i, c, i);
        lemma_tokenize_err_position(s, i);
    } else {
        let ch = s[p];
        assert(s2[p] == ch);
        if is_whitespace_char(ch) || is_operator_char(ch) || ch == '(' || ch == ')' {
            lemma_tokenize_insert_before(s, i, c, p + 1);
        } else if is_digit_char(ch) {
            lemma_digit_run_end(s, p);
            let end = digit_run_end(s, p);
            assert(end <= i) by {
                if end > i {
                    assert(is_digit_char(s[i - 1]) && is_digit_char(s[i]));
                }
            }
            lemma_digit_run_end_insert_before(s, i, c, p);
            assert(s2.subrange(p, end) =~= s.subrange(p, end));
            lemma_tokenize_insert_before(s, i, c, end);
        } else {
            lemma_tokenize_err_position(s, p);
        }
    }
}

/// The whitespace-insensitivity law: inserting a whitespace character at any
/// position that does not split a digit run leaves the token sequence
/// unchanged, token for token; only the position inside a reported lex error
/// moves past the insertion point.  Removing such whitespace is the same
/// statement read the other way around.
pub proof fn lemma_tokenize_whitespace_insensitive(s: Seq<char>, i: int, c: char)
    requires
        is_whitespace_char(c),
        0 <= i <= s.len(),
        !(0 < i < s.len() && is_digit_char(s[i - 1]) && is_digit_char(s[i])),
    ensures
        spec_tokenize(s.insert(i, c)) == (match spec_tokenize(s) {
            Ok(t) => Ok::<_, (char, int)>(t),
            Err((c2, q)) => Err::<Seq<TokenV>, _>(
                (c2, if q >= i {
                    q + 1
                } else {
                    q
                }),
            ),
        }),
{
    lemma_tokenize_insert_before(s, i, c, 0);
}

/// One scan step: appending the token that `spec_tokenize_from` produces at
/// `pos` keeps the tokens gathered so far a prefix of the full result.
proof fn lemma_tokenize_step(
    s: Seq<char>,
    start: int,
    pos: int,
    next: int,
    tv_old: Seq<TokenV>,
    tv_new: Seq<TokenV>,
    tok: TokenV,
)
    requires
        tv_new == tv_old + seq![tok],
        spec_tokenize_from(s, pos) == (match spec_tokenize_from(s, next) {
            Ok(rest) => Ok::<_, (char, int)>(seq![tok] + rest),
            Err(e) => Err(e),
        }),
        match spec_tokenize_from(s, pos) {
            Ok(rest) => spec_tokenize_from(s, start) == Ok::<_, (char, int)>(tv_old + rest),
            Err(e) => spec_tokenize_from(s, start) == Err::<Seq<TokenV>, _>(e),
        },
    ensures
        match spec_tokenize_from(s, next) {
            Ok(rest) => spec_tokenize_from(s, start) == Ok::<_, (char, int)>(tv_new + rest),
            Err(e) => spec_tokenize_from(s, start) == Err::<Seq<TokenV>, _>(e),
        },
{
    match spec_tokenize_from(s, next) {
        Ok(rest) => {
            assert(tv_old + (seq![tok] + rest) =~= tv_new + rest);
        },
        Err(_) => {
        },
    }
}

/// A single left-to-right scan over a character sequence with one cursor.
pub struct Lexer {
    pub input: Vec<char>,
    pub position: usize,
}

impl Lexer {
    pub fn new(input: Vec<char>) -> (r: Lexer)
        ensures
            r.input@ == input@,
            r.position == 0,
    {
        Lexer { input, position: 0 }
    }

    /// The character under the cursor, if the cursor is inside the input.
    pub fn at(&self) -> (r: Option<char>)
        ensures
            r == if self.position < self.input@.len() {
                Some(self.input@[self.position as int])
            } else {
                None::<char>
            },
    {
        if self.position < self.input.len() {
            Some(self.input[self.position])
        } else {
            None
        }
    }

    /// Moves the cursor one character to the right.
    pub fn advance(&mut self)
        requires
            old(self).position < usize::MAX,
        ensures
            final(self).input@ == old(self).input@,
            final(self).position == old(self).position + 1,
    {
        self.position = self.position + 1;
    }

    pub fn is_at_end(&self) -> (r: bool)
        ensures
            r == (self.position >= self.input@.len()),
    {
        self.position >= self.input.len()
    }

    /// Scans the input from the cursor to the end and returns the tokens, or
    /// the first unsupported character with its position.  The result is
    /// exactly what `spec_tokenize_from` says for the starting cursor.
    pub fn tokenize(&mut self) -> (r: Result<Vec<Token>, LexError>)
        requires
            old(self).position <= old(self).input@.len(),
        ensures
            final(self).input@ == old(self).input@,
            match spec_tokenize_from(old(self).input@, old(self).position as int) {
                Ok(tvs) => r matches Ok(ts) && token_views(ts@) == tvs,
                Err((c, p)) => r == Err::<Vec<Token>, _>(
                    LexError::UnexpectedCharacter { character: c, position: p as usize },
                ),
            },
    {
        let ghost s = self.input@;
        let ghost start = self.position as int;
        let mut tokens: Vec<Token> = Vec::new();

        while !self.is_at_end()
            invariant
                self.input@ == s,
                start <= self.position <= s.len(),
                match spec_tokenize_from(s, self.position as int) {
                    Ok(rest) => spec_tokenize_from(s, start) == Ok::<_, (char, int)>(
                        token_views(tokens@) + rest,
                    ),
                    Err(e) => spec_tokenize_from(s, start) == Err::<Seq<TokenV>, _>(e),
                },
            decreases s.len() - self.position,
        {
            let ghost pos = self.position as int;
            let ghost tv_old = token_views(tokens@);
            let n = self.input.len();
            assert(self.position < n);
            let c = self.input[self.position];
            if c == '+' || c == '-' || c == '*' || c == '/' {
                let mut value: Vec<char> = Vec::new();
                value.push(c);
                tokens.push(Token::new(value, Tokentype::Operator));
                self.advance();
                proof {
                    let tok = TokenV { value: seq![c], kind: Tokentype::Operator };
                    assert(token_views(tokens@) =~= tv_old + seq![tok]);
                    lemma_tokenize_step(s, start, pos, pos + 1, tv_old, token_views(tokens@), tok);
                }
            } else if '0' <= c && c <= '9' {
                let ghost run_end = digit_run_end(s, pos);
                proof {
                    lemma_digit_run_end(s, pos);
                }
                let mut num: Vec<char> = Vec::new();
                loop
                    invariant
                        self.input@ == s,
                        pos <= self.position <= s.len(),
                        pos < s.len(),
                        num@ == s.subrange(pos, self.position as int),
                        digit_run_end(s, pos) == digit_run_end(s, self.position as int),
                        run_end == digit_run_end(s, pos),
                    decreases s.len() - self.position,
                {
                    if self.position < self.input.len() {
                        let d = self.input[self.position];
                        if '0' <= d && d <= '9' {
                            num.push(d);
                            self.advance();
                            proof {
                                assert(num@ =~= s.subrange(pos, self.position as int));
                            }
                        } else {
                            break ;
                        }
                    } else {
                        break ;
                    }
                }
                proof {
                    assert(self.position as int == run_end);
                }
                tokens.push(Token::new(num, Tokentype::Number));
                proof {
                    let tok = TokenV { value: s.subrange(pos, run_end), kind: Tokentype::Number };
                    assert(token_views(tokens@) =~= tv_old + seq![tok]);
                    lemma_tokenize_step(s, start, pos, run_end, tv_old, token_views(tokens@), tok);
                }
            } else if c == '(' {
                let mut value: Vec<char> = Vec::new();
                value.push(c);
                self.advance();
                tokens.push(Token::new(value, Tokentype::OpenParen));
                proof {
                    let tok = TokenV { value: seq![c], kind: Tokentype::OpenParen };
                    assert(token_views(tokens@) =~= tv_old + seq![tok]);
                    lemma_tokenize_step(s, start, pos, pos + 1, tv_old, token_views(tokens@), tok);
                }
            } else if c == ')' {
                let mut value: Vec<char> = Vec::new();
                value.push(c);
                self.advance();
                tokens.push(Token::new(value, Tokentype::CloseParen));
                proof {
                    let tok = TokenV { value: seq![c], kind: Tokentype::CloseParen };
                    assert(token_views(tokens@) =~= tv_old + seq![tok]);
                    lemma_tokenize_step(s, start, pos, pos + 1, tv_old, token_views(tokens@), tok);
                }
            } else if c == '\n' || c == ' ' || c == '\r' || c == '\t' {
                self.advance();
            } else {
                return Err(LexError::UnexpectedCharacter { character: c, position: self.position });
            }
        }
        tokens.push(Token::new(Vec::new(), Tokentype::EoF));
        proof {
            assert(token_views(tokens@) =~= token_views(tokens@.drop_last()) + seq![eof_token()]);
        }
        Ok(tokens)
    }
}

} // verus!
