use vstd::prelude::*;
use crate::chars::{is_alpha_char, is_alpha_of, is_digit_char, is_digit_of, is_space_char,
    is_space_of};
use crate::errors::{CalcError, ErrorV};
use crate::strutil::string_from_range;
use crate::token::{Token, TokenType, TokenV, tokens_view};

verus! {

/// The characters that form single-character operator or punctuation tokens.
pub open spec fn is_op_char(c: char) -> bool {
    c == '+' || c == '-' || c == '*' || c == '/' || c == '^' || c == '(' || c == ')' || c == '='
}

pub open spec fn op_token_type(c: char) -> TokenType {
    if c == '+' {
        TokenType::Add
    } else if c == '-' {
        TokenType::Sub
    } else if c == '*' {
        TokenType::Mult
    } else if c == '/' {
        TokenType::Div
    } else if c == '^' {
        TokenType::Exp
    } else if c == '(' {
        TokenType::LParen
    } else if c == ')' {
        TokenType::RParen
    } else {
        TokenType::Assign
    }
}

/// The end of the run of ASCII digits that starts at `i`.
pub open spec fn scan_digits(text: Seq<char>, i: int) -> int
    decreases text.len() - i
        when 0 <= i <= text.len()
{
    if i < text.len() && is_digit_of(text[i]) {
        scan_digits(text, i + 1)
    } else {
        i
    }
}

/// The end of the run of alphabetic characters that starts at `i`.
pub open spec fn scan_alpha(text: Seq<char>, i: int) -> int
    decreases text.len() - i
        when 0 <= i <= text.len()
{
    if i < text.len() && is_alpha_of(text[i]) {
        scan_alpha(text, i + 1)
    } else {
        i
    }
}

/// The end of a numeric literal starting at `i`: a run of digits, optionally
/// followed by a decimal point and a second run of digits.
pub open spec fn number_end(text: Seq<char>, i: int) -> int {
    let d1 = scan_digits(text, i);
    if d1 < text.len() && text[d1] == '.' {
        scan_digits(text, d1 + 1)
    } else {
        d1
    }
}

/// The end-of-input token: its offset is the last valid index of the source
/// text, or zero for empty text, anchoring error arrows at end of line.
pub open spec fn eoi_token(text: Seq<char>) -> TokenV {
    TokenV {
        value: Seq::empty(),
        token: TokenType::EOI,
        start: if text.len() == 0 {
            0
        } else {
            (text.len() - 1) as nat
        },
    }
}

/// The next token of `text` at position `i`, and the position after it; or
/// the offset and character of the first unrecognized character. Operator
/// characters take priority, then whitespace is skipped, then a digit starts
/// a numeric literal and a letter starts an identifier. Every token's offset
/// is the index of its first character; end-of-input's is the last valid
/// index of the text.
pub open spec fn next_token_spec(text: Seq<char>, i: int) -> Result<(TokenV, int), (int, char)>
    decreases text.len() - i
        when 0 <= i <= text.len()
{
    if i >= text.len() {
        Ok((eoi_token(text), i))
    } else {
        let c = text[i];
        if is_op_char(c) {
            Ok((TokenV { value: seq![c], token: op_token_type(c), start: i as nat }, i + 1))
        } else if is_space_of(c) {
            next_token_spec(text, i + 1)
        } else if is_digit_of(c) {
            let end = number_end(text, i);
            Ok(
                (
                    TokenV {
                        value: text.subrange(i, end),
                        token: TokenType::Number,
                        start: i as nat,
                    },
                    end,
                ),
            )
        } else if is_alpha_of(c) {
            let end = scan_alpha(text, i);
            Ok(
                (
                    TokenV { value: text.subrange(i, end), token: TokenType::Ident, start: i as nat },
                    end,
                ),
            )
        } else {
            Err((i, c))
        }
    }
}

/// The shape of every numeric literal the lexer produces: one or more
/// digits, optionally followed by a decimal point and more digits. Every
/// text of this shape is a floating-point literal the host can read.
pub open spec fn literal_shape(s: Seq<char>) -> bool {
    let d1 = scan_digits(s, 0);
    &&& d1 > 0
    &&& (d1 == s.len() || (s[d1] == '.' && scan_digits(s, d1 + 1) == s.len()))
}

/// Every token sequence the lexer produces gives its numeric tokens that
/// shape.
pub open spec fn tokens_shaped(toks: Seq<TokenV>) -> bool {
    forall|k: int|
        0 <= k < toks.len() ==> ((#[trigger] toks[k]).token == TokenType::Number
            ==> literal_shape(toks[k].value))
}

proof fn lemma_scan_digits_bounds(text: Seq<char>, i: int)
    requires
        0 <= i <= text.len(),
    ensures
        i <= scan_digits(text, i) <= text.len(),
    decreases text.len() - i,
{
    if i < text.len() && is_digit_of(text[i]) {
        lemma_scan_digits_bounds(text, i + 1);
    }
}

proof fn lemma_scan_alpha_bounds(text: Seq<char>, i: int)
    requires
        0 <= i <= text.len(),
    ensures
        i <= scan_alpha(text, i) <= text.len(),
    decreases text.len() - i,
{
    if i < text.len() && is_alpha_of(text[i]) {
        lemma_scan_alpha_bounds(text, i + 1);
    }
}

proof fn lemma_number_end_bounds(text: Seq<char>, i: int)
    requires
        0 <= i <= text.len(),
    ensures
        i <= number_end(text, i) <= text.len(),
        i < text.len() && is_digit_of(text[i]) ==> i < number_end(text, i),
{
    lemma_scan_digits_bounds(text, i);
    if i < text.len() && is_digit_of(text[i]) {
        lemma_scan_digits_bounds(text, i + 1);
    }
    let d1 = scan_digits(text, i);
    if d1 < text.len() && text[d1] == '.' {
        lemma_scan_digits_bounds(text, d1 + 1);
    }
}

proof fn lemma_scan_digits_chars(text: Seq<char>, i: int)
    requires
        0 <= i <= text.len(),
    ensures
        i <= scan_digits(text, i) <= text.len(),
        forall|k: int| i <= k < scan_digits(text, i) ==> is_digit_of(#[trigger] text[k]),
        scan_digits(text, i) == text.len() || !is_digit_of(text[scan_digits(text, i)]),
    decreases text.len() - i,
{
    if i < text.len() && is_digit_of(text[i]) {
        lemma_scan_digits_chars(text, i + 1);
    }
}

proof fn lemma_scan_digits_exact(s: Seq<char>, i: int, m: int)
    requires
        0 <= i <= m <= s.len(),
        forall|k: int| i <= k < m ==> is_digit_of(#[trigger] s[k]),
        m == s.len() || !is_digit_of(s[m]),
    ensures
        scan_digits(s, i) == m,
    decreases m - i,
{
    if i < m {
        lemma_scan_digits_exact(s, i + 1, m);
    }
}

/// A numeric token's text has the literal shape.
proof fn lemma_number_token_shaped(text: Seq<char>, i: int)
    requires
        0 <= i < text.len(),
        is_digit_of(text[i]),
    ensures
        literal_shape(text.subrange(i, number_end(text, i))),
{
    lemma_scan_digits_chars(text, i);
    let d1 = scan_digits(text, i);
    if d1 < text.len() && text[d1] == '.' {
        lemma_scan_digits_chars(text, d1 + 1);
        let d2 = scan_digits(text, d1 + 1);
        let s = text.subrange(i, d2);
        assert forall|k: int| 0 <= k < d1 - i implies is_digit_of(#[trigger] s[k]) by {
            assert(s[k] == text[i + k]);
        }
        assert(!is_digit_of(s[d1 - i]));
        lemma_scan_digits_exact(s, 0, d1 - i);
        assert forall|k: int| d1 - i + 1 <= k < s.len() implies is_digit_of(#[trigger] s[k]) by {
            assert(s[k] == text[i + k]);
        }
        lemma_scan_digits_exact(s, d1 - i + 1, s.len() as int);
    } else {
        let s = text.subrange(i, d1);
        assert forall|k: int| 0 <= k < s.len() implies is_digit_of(#[trigger] s[k]) by {
            assert(s[k] == text[i + k]);
        }
        lemma_scan_digits_exact(s, 0, s.len() as int);
    }
}

proof fn lemma_next_token_shaped(text: Seq<char>, i: int)
    requires
        0 <= i <= text.len(),
    ensures
        next_token_spec(text, i) matches Ok((tok, _)) ==> (tok.token == TokenType::Number
            ==> literal_shape(tok.value)),
    decreases text.len() - i,
{
    if i < text.len() {
        let c = text[i];
        if is_op_char(c) {
        } else if is_space_of(c) {
            lemma_next_token_shaped(text, i + 1);
        } else if is_digit_of(c) {
            lemma_number_token_shaped(text, i);
        }
    }
}

/// Every numeric token in a lexed line has the literal shape.
pub proof fn lemma_lex_shaped(text: Seq<char>, i: int)
    requires
        0 <= i <= text.len(),
    ensures
        lex_from(text, i) matches Ok(toks) ==> tokens_shaped(toks),
    decreases text.len() - i,
{
    lemma_next_token_shaped(text, i);
    lemma_next_token_progress(text, i);
    match next_token_spec(text, i) {
        Err(_) => {},
        Ok((tok, j)) => {
            if tok.token == TokenType::EOI {
            } else if i < j <= text.len() {
                lemma_lex_shaped(text, j);
                match lex_from(text, j) {
                    Ok(rest) => {
                        assert forall|k: int|
                            0 <= k < (seq![tok] + rest).len() implies (((seq![tok]
                            + rest)[k]).token == TokenType::Number ==> literal_shape(
                            #[trigger] (seq![tok] + rest)[k].value,
                        )) by {
                            if k > 0 {
                                assert((seq![tok] + rest)[k] == rest[k - 1]);
                            }
                        }
                    },
                    Err(_) => {},
                }
            }
        },
    }
}

/// Every token advances the scan position, except end-of-input, which is
/// reached exactly at the end of the text.
proof fn lemma_next_token_progress(text: Seq<char>, i: int)
    requires
        0 <= i <= text.len(),
    ensures
        match next_token_spec(text, i) {
            Ok((tok, j)) => {
                &&& i <= j <= text.len()
                &&& (tok.token != TokenType::EOI ==> i < j)
                &&& (tok.token == TokenType::EOI ==> j == text.len())
            },
            Err((off, c)) => i <= off < text.len(),
        },
    decreases text.len() - i,
{
    if i >= text.len() {
    } else {
        let c = text[i];
        if is_op_char(c) {
        } else if is_space_of(c) {
            lemma_next_token_progress(text, i + 1);
        } else if is_digit_of(c) {
            lemma_number_end_bounds(text, i);
        } else if is_alpha_of(c) {
            lemma_scan_alpha_bounds(text, i + 1);
        }
    }
}

/// The full token sequence of `text` from position `i`, ending with the
/// end-of-input token.
pub open spec fn lex_from(text: Seq<char>, i: int) -> Result<Seq<TokenV>, (int, char)>
    decreases text.len() - i + 1
        when 0 <= i <= text.len()
{
    match next_token_spec(text, i) {
        Err(e) => Err(e),
        Ok((tok, j)) => {
            if tok.token == TokenType::EOI {
                Ok(seq![tok])
            } else if i < j <= text.len() {
                match lex_from(text, j) {
                    Err(e) => Err(e),
                    Ok(rest) => Ok(seq![tok] + rest),
                }
            } else {
                // never reached: a token other than end-of-input advances
                Err((i, text[i]))
            }
        },
    }
}

/// The token sequence of a whole line.
pub open spec fn lex_all(text: Seq<char>) -> Result<Seq<TokenV>, (int, char)> {
    lex_from(text, 0)
}

pub open spec fn lex_combine(
    prefix: Seq<TokenV>,
    r: Result<Seq<TokenV>, (int, char)>,
) -> Result<Seq<TokenV>, (int, char)> {
    match r {
        Ok(rest) => Ok(prefix + rest),
        Err(e) => Err(e),
    }
}

/// Scans a line of source text into tokens, one at a time.
pub struct Lexer {
    text: Vec<char>,
    src: String,
    pos: usize,
    current_char: Option<char>,
}

impl Lexer {
    /// The lexer's bookkeeping is coherent: the position is inside the text
    /// and the cached character is the one at the position.
    pub closed spec fn wf(&self) -> bool {
        &&& self.src@ == self.text@
        &&& self.pos <= self.text.len()
        &&& self.current_char == (if self.pos < self.text@.len() {
            Some(self.text@[self.pos as int])
        } else {
            None::<char>
        })
    }

    pub closed spec fn text_spec(&self) -> Seq<char> {
        self.text@
    }

    pub closed spec fn pos_spec(&self) -> int {
        self.pos as int
    }

    pub fn new(text: String) -> (l: Lexer)
        ensures
            l.wf(),
            l.text_spec() == text@,
            l.pos_spec() == 0,
    {
        let n = text.as_str().unicode_len();
        let mut chars: Vec<char> = Vec::new();
        let mut i: usize = 0;
        while i < n
            invariant
                n == text@.len(),
                i <= n,
                chars@ == text@.subrange(0, i as int),
            decreases n - i,
        {
            let c = text.as_str().get_char(i);
            chars.push(c);
            proof {
                assert(chars@ =~= text@.subrange(0, i + 1));
            }
            i += 1;
        }
        proof {
            assert(chars@ =~= text@);
        }
        let current_char = if chars.len() > 0 {
            Some(chars[0])
        } else {
            None
        };
        Lexer { text: chars, src: text, pos: 0, current_char }
    }

    fn advance(&mut self)
        requires
            old(self).wf(),
            old(self).pos < old(self).text@.len(),
        ensures
            final(self).wf(),
            final(self).text@ == old(self).text@,
            final(self).src == old(self).src,
            final(self).pos == old(self).pos + 1,
    {
        self.pos += 1;
        if self.pos < self.text.len() {
            self.current_char = Some(self.text[self.pos]);
        } else {
            self.current_char = None;
        }
    }

    fn at_space(&self) -> (r: bool)
        requires
            self.wf(),
        ensures
            r == (self.pos < self.text@.len() && is_space_of(self.text@[self.pos as int])),
    {
        match self.current_char {
            Some(c) => is_space_char(c),
            None => false,
        }
    }

    fn at_digit(&self) -> (r: bool)
        requires
            self.wf(),
        ensures
            r == (self.pos < self.text@.len() && is_digit_of(self.text@[self.pos as int])),
    {
        match self.current_char {
            Some(c) => is_digit_char(c),
            None => false,
        }
    }

    fn at_alpha(&self) -> (r: bool)
        requires
            self.wf(),
        ensures
            r == (self.pos < self.text@.len() && is_alpha_of(self.text@[self.pos as int])),
    {
        match self.current_char {
            Some(c) => is_alpha_char(c),
            None => false,
        }
    }

    fn at_dot(&self) -> (r: bool)
        requires
            self.wf(),
        ensures
            r == (self.pos < self.text@.len() && self.text@[self.pos as int] == '.'),
    {
        match self.current_char {
            Some(c) => c == '.',
            None => false,
        }
    }

    fn skip_whitespace(&mut self)
        requires
            old(self).wf(),
        ensures
            final(self).wf(),
            final(self).text@ == old(self).text@,
            final(self).src == old(self).src,
            old(self).pos <= final(self).pos,
            next_token_spec(final(self).text@, old(self).pos as int) == next_token_spec(
                final(self).text@,
                final(self).pos as int,
            ),
            final(self).pos == final(self).text@.len() || !is_space_of(
                final(self).text@[final(self).pos as int],
            ),
    {
        while self.at_space()
            invariant
                self.wf(),
                self.text@ == old(self).text@,
                self.src == old(self).src,
                old(self).pos <= self.pos,
                self.pos <= self.text@.len(),
                next_token_spec(self.text@, old(self).pos as int) == next_token_spec(
                    self.text@,
                    self.pos as int,
                ),
            decreases self.text@.len() - self.pos,
        {
            self.advance();
        }
    }

    fn number(&mut self) -> (t: Token)
        requires
            old(self).wf(),
            old(self).pos < old(self).text@.len(),
            is_digit_of(old(self).text@[old(self).pos as int]),
        ensures
            final(self).wf(),
            final(self).text@ == old(self).text@,
            final(self).src == old(self).src,
            final(self).pos as int == number_end(old(self).text@, old(self).pos as int),
            t@ == (TokenV {
                value: old(self).text@.subrange(
                    old(self).pos as int,
                    number_end(old(self).text@, old(self).pos as int),
                ),
                token: TokenType::Number,
                start: old(self).pos as nat,
            }),
    {
        let start = self.pos;
        while self.at_digit()
            invariant
                self.wf(),
                self.text@ == old(self).text@,
                self.src == old(self).src,
                start <= self.pos <= self.text@.len(),
                scan_digits(self.text@, start as int) == scan_digits(self.text@, self.pos as int),
            decreases self.text@.len() - self.pos,
        {
            self.advance();
        }
        assert(scan_digits(self.text@, start as int) == self.pos as int);
        if self.at_dot() {
            self.advance();
            let ghost d2 = self.pos as int;
            while self.at_digit()
                invariant
                    self.wf(),
                    self.text@ == old(self).text@,
                    self.src == old(self).src,
                    d2 <= self.pos <= self.text@.len(),
                    scan_digits(self.text@, d2) == scan_digits(self.text@, self.pos as int),
                decreases self.text@.len() - self.pos,
            {
                self.advance();
            }
            assert(scan_digits(self.text@, d2) == self.pos as int);
        }
        assert(self.pos as int == number_end(self.text@, start as int));
        let value = string_from_range(self.src.as_str(), start, self.pos);
        Token::new(value, TokenType::Number, start)
    }

    fn identifier(&mut self) -> (t: Token)
        requires
            old(self).wf(),
            old(self).pos < old(self).text@.len(),
            is_alpha_of(old(self).text@[old(self).pos as int]),
        ensures
            final(self).wf(),
            final(self).text@ == old(self).text@,
            final(self).src == old(self).src,
            final(self).pos as int == scan_alpha(old(self).text@, old(self).pos as int),
            t@ == (TokenV {
                value: old(self).text@.subrange(
                    old(self).pos as int,
                    scan_alpha(old(self).text@, old(self).pos as int),
                ),
                token: TokenType::Ident,
                start: old(self).pos as nat,
            }),
    {
        let start = self.pos;
        while self.at_alpha()
            invariant
                self.wf(),
                self.text@ == old(self).text@,
                self.src == old(self).src,
                start <= self.pos <= self.text@.len(),
                scan_alpha(self.text@, start as int) == scan_alpha(self.text@, self.pos as int),
            decreases self.text@.len() - self.pos,
        {
            self.advance();
        }
        let value = string_from_range(self.src.as_str(), start, self.pos);
        Token::new(value, TokenType::Ident, start)
    }

    /// The next token of the line, or the first unrecognized character.
    pub fn get_next_token(&mut self) -> (r: Result<Token, CalcError>)
        requires
            old(self).wf(),
        ensures
            final(self).wf(),
            final(self).text_spec() == old(self).text_spec(),
            old(self).pos_spec() <= final(self).pos_spec(),
            match r {
                Ok(tok) => next_token_spec(old(self).text_spec(), old(self).pos_spec()) == Ok::<
                    (TokenV, int),
                    (int, char),
                >((tok@, final(self).pos_spec())),
                Err(e) => {
                    &&& next_token_spec(old(self).text_spec(), old(self).pos_spec()) matches Err(
                        (off, c),
                    ) && e@ == (ErrorV::InvalidCharacter { offset: off as nat, found: c })
                },
            },
    {
        self.skip_whitespace();
        let ghost p = self.pos as int;
        match self.current_char {
            None => {
                let start = if self.text.len() == 0 {
                    0
                } else {
                    self.text.len() - 1
                };
                let t = Token::new(String::new(), TokenType::EOI, start);
                proof {
                    assert(t@ == eoi_token(self.text@));
                }
                Ok(t)
            },
            Some(c) => {
                if c == '+' {
                    let start = self.pos;
                    self.advance();
                    let t = Token::new(String::from_str("+"), TokenType::Add, start);
                    proof {
                        reveal_strlit("+");
                        assert(t@.value =~= seq![c]);
                    }
                    Ok(t)
                } else if c == '-' {
                    let start = self.pos;
                    self.advance();
                    let t = Token::new(String::from_str("-"), TokenType::Sub, start);
                    proof {
                        reveal_strlit("-");
                        assert(t@.value =~= seq![c]);
                    }
                    Ok(t)
                } else if c == '*' {
                    let start = self.pos;
                    self.advance();
                    let t = Token::new(String::from_str("*"), TokenType::Mult, start);
                    proof {
                        reveal_strlit("*");
                        assert(t@.value =~= seq![c]);
                    }
                    Ok(t)
                } else if c == '/' {
                    let start = self.pos;
                    self.advance();
                    let t = Token::new(String::from_str("/"), TokenType::Div, start);
                    proof {
                        reveal_strlit("/");
                        assert(t@.value =~= seq![c]);
                    }
                    Ok(t)
                } else if c == '^' {
                    let start = self.pos;
                    self.advance();
                    let t = Token::new(String::from_str("^"), TokenType::Exp, start);
                    proof {
                        reveal_strlit("^");
                        assert(t@.value =~= seq![c]);
                    }
                    Ok(t)
                } else if c == '(' {
                    let start = self.pos;
                    self.advance();
                    let t = Token::new(String::from_str("("), TokenType::LParen, start);
                    proof {
                        reveal_strlit("(");
                        assert(t@.value =~= seq![c]);
                    }
                    Ok(t)
                } else if c == ')' {
                    let start = self.pos;
                    self.advance();
                    let t = Token::new(String::from_str(")"), TokenType::RParen, start);
                    proof {
                        reveal_strlit(")");
                        assert(t@.value =~= seq![c]);
                    }
                    Ok(t)
                } else if c == '=' {
                    let start = self.pos;
                    self.advance();
                    let t = Token::new(String::from_str("="), TokenType::Assign, start);
                    proof {
                        reveal_strlit("=");
                        assert(t@.value =~= seq![c]);
                    }
                    Ok(t)
                } else if is_digit_char(c) {
                    proof {
                        lemma_number_end_bounds(self.text@, self.pos as int);
                    }
                    Ok(self.number())
                } else if is_alpha_char(c) {
                    proof {
                        lemma_scan_alpha_bounds(self.text@, self.pos as int);
                    }
                    Ok(self.identifier())
                } else {
                    Err(CalcError::InvalidCharacter { offset: self.pos, found: c })
                }
            },
        }
    }

    /// All tokens of the line, in order, ending with the end-of-input token.
    pub fn get_all_tokens(&mut self) -> (r: Result<Vec<Token>, CalcError>)
        requires
            old(self).wf(),
        ensures
            final(self).wf(),
            final(self).text_spec() == old(self).text_spec(),
            match r {
                Ok(toks) => lex_from(old(self).text_spec(), old(self).pos_spec()) == Ok::<
                    Seq<TokenV>,
                    (int, char),
                >(tokens_view(toks@)),
                Err(e) => {
                    &&& lex_from(old(self).text_spec(), old(self).pos_spec()) matches Err((off, c))
                        && e@ == (ErrorV::InvalidCharacter { offset: off as nat, found: c })
                },
            },
    {
        let mut res: Vec<Token> = Vec::new();
        loop
            invariant_except_break
                self.wf(),
                self.text@ == old(self).text@,
                self.pos <= self.text@.len(),
                old(self).pos <= self.pos,
                lex_combine(tokens_view(res@), lex_from(self.text@, self.pos as int))
                    == lex_from(old(self).text@, old(self).pos as int),
            ensures
                self.wf(),
                self.text@ == old(self).text@,
                lex_from(old(self).text@, old(self).pos as int) == Ok::<
                    Seq<TokenV>,
                    (int, char),
                >(tokens_view(res@)),
            decreases self.text@.len() - self.pos,
        {
            let ghost p0 = self.pos as int;
            let ghost res0 = res@;
            let tok = match self.get_next_token() {
                Ok(t) => t,
                Err(e) => {
                    proof {
                        lemma_next_token_progress(self.text@, p0);
                    }
                    return Err(e);
                },
            };
            let is_eoi = tok.token == TokenType::EOI;
            let ghost tv = tok@;
            res.push(tok);
            proof {
                lemma_next_token_progress(self.text@, p0);
                assert(tokens_view(res@) =~= tokens_view(res0).push(tv));
                if tv.token == TokenType::EOI {
                    assert(lex_from(self.text@, p0) == Ok::<Seq<TokenV>, (int, char)>(seq![tv]));
                    assert(tokens_view(res0) + seq![tv] =~= tokens_view(res@));
                } else {
                    assert(lex_from(self.text@, p0) == lex_combine(
                        seq![tv],
                        lex_from(self.text@, self.pos as int),
                    ));
                    assert forall|rest: Seq<TokenV>|
                        tokens_view(res0) + (seq![tv] + rest) =~= tokens_view(res@) + rest by {}
                }
            }
            if is_eoi {
                break;
            }
        }
        Ok(res)
    }
}

} // verus!
