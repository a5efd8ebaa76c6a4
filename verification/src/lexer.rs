//! The tokenizer: scans a source buffer character by character and produces
//! tokens on demand. Its behaviour is pinned by a specification-level
//! tokenizer (`spec_next_token`, `spec_tokenize`) that the executable code
//! is proved to follow exactly.

use vstd::prelude::*;

use crate::num::{all_digits, is_digit_char};
use crate::text::{char_is_alphabetic, chars_of, is_alphabetic_char, push_char};
use crate::token::{spec_lookup_ident, Token, TokenType};

verus! {

/// The whitespace the tokenizer skips: space, tab and newline.
pub open spec fn is_ws_char(c: char) -> bool {
    c == ' ' || c == '\t' || c == '\n'
}

/// Identifier characters: Unicode letters and the underscore.
pub open spec fn is_letter_char(c: char) -> bool {
    is_alphabetic_char(c) || c == '_'
}

/// The first position at or after `i` holding a non-whitespace character
/// (or the end of input).
pub open spec fn skip_ws(s: Seq<char>, i: int) -> int
    decreases s.len() - i,
    when 0 <= i <= s.len()
{
    if i < s.len() && is_ws_char(s[i]) {
        skip_ws(s, i + 1)
    } else {
        i
    }
}

/// The end of the maximal run of identifier characters starting at `i`.
pub open spec fn letters_end(s: Seq<char>, i: int) -> int
    decreases s.len() - i,
    when 0 <= i <= s.len()
{
    if i < s.len() && is_letter_char(s[i]) {
        letters_end(s, i + 1)
    } else {
        i
    }
}

/// The end of the maximal run of ASCII digits starting at `i`.
pub open spec fn digits_end(s: Seq<char>, i: int) -> int
    decreases s.len() - i,
    when 0 <= i <= s.len()
{
    if i < s.len() && is_digit_char(s[i]) {
        digits_end(s, i + 1)
    } else {
        i
    }
}

/// A token as the specification sees it: its kind and its text.
pub ghost struct SpecToken {
    pub kind: TokenType,
    pub text: Seq<char>,
}

/// The next token of `s` starting at position `i`, together with the
/// position just after it. Whitespace is skipped first; two-character
/// operators are recognized before their one-character prefixes; maximal
/// runs of letters become identifiers or keywords, maximal runs of digits
/// become integer tokens; exhausted input yields `Eof` (at the same
/// position, forever); anything else is one `Illegal` token.
pub open spec fn spec_next_token(s: Seq<char>, i: int) -> (SpecToken, int) {
    let j = skip_ws(s, i);
    if j >= s.len() {
        (SpecToken { kind: TokenType::Eof, text: ""@ }, j)
    } else {
        let c = s[j];
        if c == '=' {
            if j + 1 < s.len() && s[j + 1] == '=' {
                (SpecToken { kind: TokenType::Eq, text: "=="@ }, j + 2)
            } else {
                (SpecToken { kind: TokenType::Assign, text: seq![c] }, j + 1)
            }
        } else if c == '!' {
            if j + 1 < s.len() && s[j + 1] == '=' {
                (SpecToken { kind: TokenType::NotEq, text: "!="@ }, j + 2)
            } else {
                (SpecToken { kind: TokenType::Bang, text: seq![c] }, j + 1)
            }
        } else if c == ';' {
            (SpecToken { kind: TokenType::Semicolon, text: seq![c] }, j + 1)
        } else if c == '(' {
            (SpecToken { kind: TokenType::Lparen, text: seq![c] }, j + 1)
        } else if c == ')' {
            (SpecToken { kind: TokenType::Rparen, text: seq![c] }, j + 1)
        } else if c == ',' {
            (SpecToken { kind: TokenType::Comma, text: seq![c] }, j + 1)
        } else if c == '+' {
            (SpecToken { kind: TokenType::Plus, text: seq![c] }, j + 1)
        } else if c == '-' {
            (SpecToken { kind: TokenType::Minus, text: seq![c] }, j + 1)
        } else if c == '*' {
            (SpecToken { kind: TokenType::Asterisk, text: seq![c] }, j + 1)
        } else if c == '/' {
            (SpecToken { kind: TokenType::Slash, text: seq![c] }, j + 1)
        } else if c == '<' {
            (SpecToken { kind: TokenType::Lt, text: seq![c] }, j + 1)
        } else if c == '>' {
            (SpecToken { kind: TokenType::Gt, text: seq![c] }, j + 1)
        } else if c == '{' {
            (SpecToken { kind: TokenType::Lbrace, text: seq![c] }, j + 1)
        } else if c == '}' {
            (SpecToken { kind: TokenType::Rbrace, text: seq![c] }, j + 1)
        } else if is_digit_char(c) {
            let k = digits_end(s, j);
            (SpecToken { kind: TokenType::Int, text: s.subrange(j, k) }, k)
        } else if is_letter_char(c) {
            let k = letters_end(s, j);
            let text = s.subrange(j, k);
            (SpecToken { kind: spec_lookup_ident(text), text }, k)
        } else {
            (SpecToken { kind: TokenType::Illegal, text: seq![c] }, j + 1)
        }
    }
}

proof fn lemma_skip_ws_bounds(s: Seq<char>, i: int)
    requires
        0 <= i <= s.len(),
    ensures
        i <= skip_ws(s, i) <= s.len(),
    decreases s.len() - i,
{
    if i < s.len() && is_ws_char(s[i]) {
        lemma_skip_ws_bounds(s, i + 1);
    }
}

proof fn lemma_letters_end_bounds(s: Seq<char>, i: int)
    requires
        0 <= i <= s.len(),
    ensures
        i <= letters_end(s, i) <= s.len(),
    decreases s.len() - i,
{
    if i < s.len() && is_letter_char(s[i]) {
        lemma_letters_end_bounds(s, i + 1);
    }
}

proof fn lemma_digits_end_bounds(s: Seq<char>, i: int)
    requires
        0 <= i <= s.len(),
    ensures
        i <= digits_end(s, i) <= s.len(),
    decreases s.len() - i,
{
    if i < s.len() && is_digit_char(s[i]) {
        lemma_digits_end_bounds(s, i + 1);
    }
}

/// The tokenizer makes progress: the next token ends no earlier than it
/// begins, it is `Eof` exactly when only whitespace is left, and any other
/// token consumes at least one character.
pub proof fn lemma_next_token_progress(s: Seq<char>, i: int)
    requires
        0 <= i <= s.len(),
    ensures
        ({
            let (t, j) = spec_next_token(s, i);
            &&& i <= j <= s.len()
            &&& (t.kind != TokenType::Eof ==> j > i)
            &&& (t.kind == TokenType::Eof <==> skip_ws(s, i) >= s.len())
            &&& (t.kind == TokenType::Eof ==> j == s.len())
        }),
{
    lemma_skip_ws_bounds(s, i);
    let j = skip_ws(s, i);
    if j < s.len() {
        let c = s[j];
        if is_letter_char(c) {
            lemma_letters_end_bounds(s, j + 1);
            assert(letters_end(s, j) == letters_end(s, j + 1));
        }
        if is_digit_char(c) {
            lemma_digits_end_bounds(s, j + 1);
            assert(digits_end(s, j) == digits_end(s, j + 1));
        }
    }
}

/// All tokens of `s` from position `i` on, ending with the one `Eof` token.
pub open spec fn spec_tokenize(s: Seq<char>, i: int) -> Seq<SpecToken>
    decreases s.len() - i,
    when 0 <= i <= s.len()
    via spec_tokenize_dec
{
    let (t, j) = spec_next_token(s, i);
    if t.kind == TokenType::Eof {
        seq![t]
    } else {
        seq![t] + spec_tokenize(s, j)
    }
}

#[via_fn]
proof fn spec_tokenize_dec(s: Seq<char>, i: int) {
    lemma_next_token_progress(s, i);
}

/// Tokenizing to exhaustion always terminates; the token stream is never
/// empty, its final token is `Eof`, no earlier token is `Eof`, and asking
/// for another token once the input is exhausted yields `Eof` again,
/// forever, at the same position.
pub proof fn lemma_tokenize_final_eof(s: Seq<char>, i: int)
    requires
        0 <= i <= s.len(),
    ensures
        spec_tokenize(s, i).len() >= 1,
        spec_tokenize(s, i).last().kind == TokenType::Eof,
        forall|k: int| 0 <= k < spec_tokenize(s, i).len() - 1
            ==> (#[trigger] spec_tokenize(s, i)[k]).kind != TokenType::Eof,
        spec_next_token(s, s.len() as int).0.kind == TokenType::Eof,
        spec_next_token(s, s.len() as int).1 == s.len(),
    decreases s.len() - i,
{
    lemma_next_token_progress(s, i);
    lemma_skip_ws_bounds(s, s.len() as int);
    let (t, j) = spec_next_token(s, i);
    if t.kind != TokenType::Eof {
        lemma_tokenize_final_eof(s, j);
    }
}

proof fn lemma_digits_end_all(s: Seq<char>, i: int)
    requires
        0 <= i <= s.len(),
        all_digits(s),
    ensures
        digits_end(s, i) == s.len(),
    decreases s.len() - i,
{
    if i < s.len() {
        lemma_digits_end_all(s, i + 1);
    }
}

/// A non-empty run of digits tokenizes to one integer token carrying
/// exactly that text, followed by the `Eof` token.
pub proof fn lemma_tokenize_digits(s: Seq<char>)
    requires
        s.len() >= 1,
        all_digits(s),
    ensures
        spec_tokenize(s, 0) == seq![
            SpecToken { kind: TokenType::Int, text: s },
            SpecToken { kind: TokenType::Eof, text: ""@ },
        ],
{
    lemma_digits_end_all(s, 0);
    let c = s[0];
    assert(is_digit_char(c));
    assert(48 <= c as u32 <= 57);
    assert(!is_ws_char(c));
    assert(skip_ws(s, 0) == 0);
    let (t, j) = spec_next_token(s, 0);
    assert(t.kind == TokenType::Int && j == s.len());
    assert(t.text =~= s);
    lemma_skip_ws_bounds(s, s.len() as int);
    let (t2, j2) = spec_next_token(s, s.len() as int);
    assert(t2.kind == TokenType::Eof && t2.text == ""@);
    assert(spec_tokenize(s, s.len() as int) == seq![t2]);
    assert(spec_tokenize(s, 0) =~= seq![
        SpecToken { kind: TokenType::Int, text: s },
        SpecToken { kind: TokenType::Eof, text: ""@ },
    ]);
}

/// The tokenizer's state: the source buffer and the position of the next
/// unread character.
pub struct Lexer {
    input: Vec<char>,
    pos: usize,
}

impl Lexer {
    /// The source buffer under examination.
    pub closed spec fn src(&self) -> Seq<char> {
        self.input@
    }

    /// The position of the next unread character.
    pub closed spec fn at(&self) -> int {
        self.pos as int
    }

    pub open spec fn wf(&self) -> bool {
        0 <= self.at() <= self.src().len()
    }

    pub fn new(input: String) -> (l: Lexer)
        ensures
            l.wf(),
            l.src() == input@,
            l.at() == 0,
    {
        Lexer { input: chars_of(input.as_str()), pos: 0 }
    }

    fn is_letter(c: char) -> (r: bool)
        ensures
            r == is_letter_char(c),
    {
        char_is_alphabetic(c) || c == '_'
    }

    fn is_digit(c: char) -> (r: bool)
        ensures
            r == is_digit_char(c),
    {
        let u = c as u32;
        48 <= u && u <= 57
    }

    fn skip_whitespace(&mut self)
        requires
            old(self).wf(),
        ensures
            final(self).wf(),
            final(self).src() == old(self).src(),
            final(self).at() == skip_ws(old(self).src(), old(self).at()),
    {
        while self.pos < self.input.len()
            && (self.input[self.pos] == ' ' || self.input[self.pos] == '\t'
                || self.input[self.pos] == '\n')
            invariant
                self.wf(),
                self.src() == old(self).src(),
                skip_ws(self.src(), self.at()) == skip_ws(old(self).src(), old(self).at()),
            decreases self.src().len() - self.at(),
        {
            self.pos = self.pos + 1;
        }
    }

    #[verifier::loop_isolation(false)]
    fn read_identifier(&mut self) -> (r: String)
        requires
            old(self).wf(),
            old(self).at() < old(self).src().len(),
            is_letter_char(old(self).src()[old(self).at()]),
        ensures
            final(self).wf(),
            final(self).src() == old(self).src(),
            final(self).at() == letters_end(old(self).src(), old(self).at()),
            r@ == old(self).src().subrange(old(self).at(), final(self).at()),
    {
        let ghost start = self.at();
        let mut s = String::new();
        while self.pos < self.input.len() && Self::is_letter(self.input[self.pos])
            invariant
                self.wf(),
                self.src() == old(self).src(),
                start <= self.at(),
                s@ == self.src().subrange(start, self.at()),
                letters_end(self.src(), self.at()) == letters_end(self.src(), start),
            decreases self.src().len() - self.at(),
        {
            push_char(&mut s, self.input[self.pos]);
            self.pos = self.pos + 1;
            proof {
                assert(s@ =~= self.src().subrange(start, self.at()));
            }
        }
        s
    }

    #[verifier::loop_isolation(false)]
    fn read_number(&mut self) -> (r: String)
        requires
            old(self).wf(),
            old(self).at() < old(self).src().len(),
            is_digit_char(old(self).src()[old(self).at()]),
        ensures
            final(self).wf(),
            final(self).src() == old(self).src(),
            final(self).at() == digits_end(old(self).src(), old(self).at()),
            r@ == old(self).src().subrange(old(self).at(), final(self).at()),
    {
        let ghost start = self.at();
        let mut s = String::new();
        while self.pos < self.input.len() && Self::is_digit(self.input[self.pos])
            invariant
                self.wf(),
                self.src() == old(self).src(),
                start <= self.at(),
                s@ == self.src().subrange(start, self.at()),
                digits_end(self.src(), self.at()) == digits_end(self.src(), start),
            decreases self.src().len() - self.at(),
        {
            push_char(&mut s, self.input[self.pos]);
            self.pos = self.pos + 1;
            proof {
                assert(s@ =~= self.src().subrange(start, self.at()));
            }
        }
        s
    }

    fn char_string(c: char) -> (r: String)
        ensures
            r@ == seq![c],
    {
        let mut s = String::new();
        push_char(&mut s, c);
        proof {
            assert(s@ =~= seq![c]);
        }
        s
    }

    fn peek_char(&self) -> (r: char)
        requires
            self.wf(),
            self.at() < self.src().len(),
        ensures
            r == (if self.at() + 1 < self.src().len() {
                self.src()[self.at() + 1]
            } else {
                '\0'
            }),
    {
        if self.pos < self.input.len() - 1 {
            self.input[self.pos + 1]
        } else {
            '\0'
        }
    }

    /// Returns the next token and advances past it; a deterministic
    /// function of the remaining input that never fails. At exhaustion it
    /// returns `Eof` and stays put, so every further call returns `Eof`
    /// again.
    pub fn next_token(&mut self) -> (t: Token)
        requires
            old(self).wf(),
        ensures
            final(self).wf(),
            final(self).src() == old(self).src(),
            ({
                let (st, j) = spec_next_token(old(self).src(), old(self).at());
                &&& t.token_type == st.kind
                &&& t.literal@ == st.text
                &&& final(self).at() == j
            }),
    {
        self.skip_whitespace();
        proof {
            lemma_skip_ws_bounds(old(self).src(), old(self).at());
        }
        if self.pos >= self.input.len() {
            return Token::new(TokenType::Eof, "".to_owned());
        }
        let c = self.input[self.pos];
        match c {
            '=' => {
                if self.peek_char() == '=' {
                    self.pos = self.pos + 2;
                    Token::new(TokenType::Eq, "==".to_owned())
                } else {
                    self.pos = self.pos + 1;
                    Token::new(TokenType::Assign, Self::char_string(c))
                }
            }
            '!' => {
                if self.peek_char() == '=' {
                    self.pos = self.pos + 2;
                    Token::new(TokenType::NotEq, "!=".to_owned())
                } else {
                    self.pos = self.pos + 1;
                    Token::new(TokenType::Bang, Self::char_string(c))
                }
            }
            ';' => {
                self.pos = self.pos + 1;
                Token::new(TokenType::Semicolon, Self::char_string(c))
            }
            '(' => {
                self.pos = self.pos + 1;
                Token::new(TokenType::Lparen, Self::char_string(c))
            }
            ')' => {
                self.pos = self.pos + 1;
                Token::new(TokenType::Rparen, Self::char_string(c))
            }
            ',' => {
                self.pos = self.pos + 1;
                Token::new(TokenType::Comma, Self::char_string(c))
            }
            '+' => {
                self.pos = self.pos + 1;
                Token::new(TokenType::Plus, Self::char_string(c))
            }
            '-' => {
                self.pos = self.pos + 1;
                Token::new(TokenType::Minus, Self::char_string(c))
            }
            '*' => {
                self.pos = self.pos + 1;
                Token::new(TokenType::Asterisk, Self::char_string(c))
            }
            '/' => {
                self.pos = self.pos + 1;
                Token::new(TokenType::Slash, Self::char_string(c))
            }
            '<' => {
                self.pos = self.pos + 1;
                Token::new(TokenType::Lt, Self::char_string(c))
            }
            '>' => {
                self.pos = self.pos + 1;
                Token::new(TokenType::Gt, Self::char_string(c))
            }
            '{' => {
                self.pos = self.pos + 1;
                Token::new(TokenType::Lbrace, Self::char_string(c))
            }
            '}' => {
                self.pos = self.pos + 1;
                Token::new(TokenType::Rbrace, Self::char_string(c))
            }
            _ => {
                if Self::is_digit(c) {
                    let literal = self.read_number();
                    Token::new(TokenType::Int, literal)
                } else if Self::is_letter(c) {
                    let literal = self.read_identifier();
                    let token_type = TokenType::lookup_ident(literal.as_str());
                    Token::new(token_type, literal)
                } else {
                    self.pos = self.pos + 1;
                    Token::new(TokenType::Illegal, Self::char_string(c))
                }
            }
        }
    }
}

} // verus!
