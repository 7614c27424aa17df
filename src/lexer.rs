use vstd::prelude::*;
use crate::parser::{ParseError, ParseErrorView};
use crate::tokens::{Token, TokenView};

verus! {

/// Unicode's White_Space characters.
pub open spec fn is_whitespace(c: char) -> bool {
    ||| '\t' <= c <= '\r'
    ||| c == ' '
    ||| c == '\u{85}'
    ||| c == '\u{a0}'
    ||| c == '\u{1680}'
    ||| '\u{2000}' <= c <= '\u{200a}'
    ||| c == '\u{2028}'
    ||| c == '\u{2029}'
    ||| c == '\u{202f}'
    ||| c == '\u{205f}'
    ||| c == '\u{3000}'
}

/// Whether a character is alphabetic or numeric in Unicode's sense.
pub uninterp spec fn alphanumeric(c: char) -> bool;

/// Whether a character has Unicode's Alphabetic property.
pub uninterp spec fn alphabetic(c: char) -> bool;

/// For each position of a text, whether its character is alphabetic and
/// whether it is alphanumeric. Bare words start at an alphabetic character
/// and go on over alphanumeric characters and `_`.
pub struct CharFlags {
    pub alphabetic: Seq<bool>,
    pub alphanumeric: Seq<bool>,
}

/// The flags of `s` by Unicode's classification.
pub open spec fn unicode_flags(s: Seq<char>) -> CharFlags {
    CharFlags {
        alphabetic: Seq::new(s.len(), |i: int| alphabetic(s[i])),
        alphanumeric: Seq::new(s.len(), |i: int| alphanumeric(s[i])),
    }
}

pub open spec fn is_digit(c: char) -> bool {
    '0' <= c <= '9'
}

pub open spec fn is_number_char(c: char) -> bool {
    is_digit(c) || c == '.'
}

/// The runs of characters that the lexer consumes greedily.
#[derive(Clone, Copy)]
pub enum CharClass {
    Space,
    /// The inside of a string literal.
    StringBody,
    /// The characters after the first of a bare word.
    Word,
    Number,
}

/// Whether the character at index `i` of `s` is in class `k`.
pub open spec fn in_class(k: CharClass, s: Seq<char>, f: CharFlags, i: int) -> bool {
    match k {
        CharClass::Space => is_whitespace(s[i]),
        CharClass::StringBody => s[i] != '"',
        CharClass::Word => f.alphanumeric[i] || s[i] == '_',
        CharClass::Number => is_number_char(s[i]),
    }
}

/// The first index at or after `i` whose character is not in class `k`
/// (or the end of `s`).
pub open spec fn scan(s: Seq<char>, f: CharFlags, i: int, k: CharClass) -> int
    decreases s.len() - i,
{
    if 0 <= i < s.len() && in_class(k, s, f, i) {
        scan(s, f, i + 1, k)
    } else {
        i
    }
}

proof fn lemma_scan(s: Seq<char>, f: CharFlags, i: int, k: CharClass)
    requires
        0 <= i <= s.len(),
    ensures
        i <= scan(s, f, i, k) <= s.len(),
        forall|m: int| i <= m < scan(s, f, i, k) ==> #[trigger] in_class(k, s, f, m),
    decreases s.len() - i,
{
    if i < s.len() && in_class(k, s, f, i) {
        lemma_scan(s, f, i + 1, k);
    }
}

/// How many `.` a numeric literal holds.
pub open spec fn dot_count(w: Seq<char>) -> nat
    decreases w.len(),
{
    if w.len() == 0 {
        0
    } else {
        dot_count(w.drop_last()) + if w.last() == '.' { 1nat } else { 0nat }
    }
}

/// The number that a sequence of decimal digits denotes.
pub open spec fn digits_value(w: Seq<char>) -> int
    decreases w.len(),
{
    if w.len() == 0 {
        0
    } else {
        digits_value(w.drop_last()) * 10 + (w.last() as int - '0' as int)
    }
}

/// A bare word: a keyword or an identifier.
pub open spec fn word_token(w: Seq<char>) -> TokenView {
    if w == seq!['t', 'r', 'u', 'e'] {
        TokenView::BoolLiteral(true)
    } else if w == seq!['f', 'a', 'l', 's', 'e'] {
        TokenView::BoolLiteral(false)
    } else if w == seq!['n', 'u', 'l', 'l'] {
        TokenView::Null
    } else {
        TokenView::Identifier(w)
    }
}

/// The outcome of lexing one token.
pub enum LexStep {
    /// Only whitespace was left.
    End,
    /// A token, and the index just after its last character.
    Emit(TokenView, int),
    Fail(ParseErrorView),
}

/// A numeric literal `w` that ends at index `end`.
pub open spec fn number_step(w: Seq<char>, end: int) -> LexStep {
    if dot_count(w) == 0 {
        if digits_value(w) <= i32::MAX {
            LexStep::Emit(TokenView::IntegerLiteral(digits_value(w) as i32), end)
        } else {
            LexStep::Fail(ParseErrorView::InvalidNumber(w))
        }
    } else if dot_count(w) == 1 {
        LexStep::Emit(TokenView::FloatLiteral(w), end)
    } else {
        LexStep::Fail(ParseErrorView::InvalidNumber(w))
    }
}

/// Lexing the token that starts at or after `pos` (after whitespace).
pub open spec fn lex_step(s: Seq<char>, f: CharFlags, pos: int) -> LexStep {
    let i = scan(s, f, pos, CharClass::Space);
    if i >= s.len() {
        LexStep::End
    } else {
        let c = s[i];
        if c == '{' {
            LexStep::Emit(TokenView::ObjectOpen, i + 1)
        } else if c == '}' {
            LexStep::Emit(TokenView::ObjectClose, i + 1)
        } else if c == '[' {
            LexStep::Emit(TokenView::ArrayOpen, i + 1)
        } else if c == ']' {
            LexStep::Emit(TokenView::ArrayClose, i + 1)
        } else if c == ':' {
            LexStep::Emit(TokenView::Colon, i + 1)
        } else if c == ',' {
            LexStep::Emit(TokenView::Comma, i + 1)
        } else if c == '"' {
            let j = scan(s, f, i + 1, CharClass::StringBody);
            if j < s.len() {
                LexStep::Emit(TokenView::StringLiteral(s.subrange(i + 1, j)), j + 1)
            } else {
                LexStep::Fail(ParseErrorView::UnexpectedEndOfInput)
            }
        } else if is_digit(c) {
            let j = scan(s, f, i + 1, CharClass::Number);
            number_step(s.subrange(i, j), j)
        } else if f.alphabetic[i] {
            let j = scan(s, f, i + 1, CharClass::Word);
            LexStep::Emit(word_token(s.subrange(i, j)), j)
        } else {
            LexStep::Emit(TokenView::Unrecognized(c), i + 1)
        }
    }
}

/// The tokens that lexing yields from `pos` on, and why it stopped: `None` at the
/// end of the input, or the lexing error met.
pub struct TokenStream {
    pub tokens: Seq<TokenView>,
    pub stop: Option<ParseErrorView>,
}

pub open spec fn token_stream(s: Seq<char>, f: CharFlags, pos: int) -> TokenStream
    decreases s.len() - pos,
{
    match lex_step(s, f, pos) {
        LexStep::End => TokenStream { tokens: seq![], stop: None },
        LexStep::Fail(e) => TokenStream { tokens: seq![], stop: Some(e) },
        LexStep::Emit(t, next) => {
            // a token always consumes at least one character
            if pos < next <= s.len() {
                let rest = token_stream(s, f, next);
                TokenStream { tokens: seq![t] + rest.tokens, stop: rest.stop }
            } else {
                TokenStream { tokens: seq![], stop: None }
            }
        },
    }
}

/// Relies on `char::is_alphabetic`, which classifies by Unicode's tables.
#[verifier::external_body]
fn is_alphabetic(c: char) -> (r: bool)
    ensures
        r == alphabetic(c),
{
    c.is_alphabetic()
}

/// Relies on `char::is_alphanumeric`, which classifies by Unicode's tables.
#[verifier::external_body]
fn is_alphanumeric(c: char) -> (r: bool)
    ensures
        r == alphanumeric(c),
{
    c.is_alphanumeric()
}

/// Relies on `str::chars` with `collect`: the characters of `s` in order.
#[verifier::external_body]
fn chars_of(s: &str) -> (r: Vec<char>)
    ensures
        r@ == s@,
{
    s.chars().collect()
}

/// Relies on `String`'s `FromIterator<&char>`: the string of those characters.
#[verifier::external_body]
fn text_of(cs: &Vec<char>, from: usize, to: usize) -> (r: String)
    requires
        from <= to <= cs.len(),
    ensures
        r@ == cs@.subrange(from as int, to as int),
{
    cs[from..to].iter().collect()
}

fn char_is_whitespace(c: char) -> (r: bool)
    ensures
        r == is_whitespace(c),
{
    ('\t' <= c && c <= '\r') || c == ' ' || c == '\u{85}' || c == '\u{a0}' || c == '\u{1680}'
        || ('\u{2000}' <= c && c <= '\u{200a}') || c == '\u{2028}' || c == '\u{2029}'
        || c == '\u{202f}' || c == '\u{205f}' || c == '\u{3000}'
}

/// A forward-only cursor over the characters of a document.
pub struct Lexer {
    src: Vec<char>,
    /// Whether each character of `src` is alphabetic.
    alphabetic: Vec<bool>,
    /// Whether each character of `src` is alphanumeric.
    alphanumeric: Vec<bool>,
    /// Index of the next character not yet consumed.
    pos: usize,
}

impl Lexer {
    pub closed spec fn text(&self) -> Seq<char> {
        self.src@
    }

    pub closed spec fn position(&self) -> int {
        self.pos as int
    }

    pub closed spec fn flags(&self) -> CharFlags {
        CharFlags { alphabetic: self.alphabetic@, alphanumeric: self.alphanumeric@ }
    }

    pub closed spec fn wf(&self) -> bool {
        &&& self.pos <= self.src.len()
        &&& self.alphabetic.len() == self.src.len()
        &&& self.alphanumeric.len() == self.src.len()
    }

    /// What lexing yields from the current position on.
    pub closed spec fn stream(&self) -> TokenStream {
        token_stream(self.src@, self.flags(), self.pos as int)
    }

    /// A lexer at the start of `src`, which classifies characters by Unicode.
    pub fn new(src: &str) -> (r: Lexer)
        ensures
            r.wf(),
            r.text() == src@,
            r.position() == 0,
            r.flags() == unicode_flags(src@),
            r.stream() == token_stream(src@, unicode_flags(src@), 0),
    {
        let chars = chars_of(src);
        let mut alpha: Vec<bool> = Vec::new();
        let mut alnum: Vec<bool> = Vec::new();
        let mut i: usize = 0;
        while i < chars.len()
            invariant
                i <= chars.len(),
                alpha@.len() == i,
                alnum@.len() == i,
                forall|m: int| 0 <= m < i ==> #[trigger] alpha@[m] == alphabetic(chars@[m]),
                forall|m: int| 0 <= m < i ==> #[trigger] alnum@[m] == alphanumeric(chars@[m]),
            decreases chars.len() - i,
        {
            alpha.push(is_alphabetic(chars[i]));
            alnum.push(is_alphanumeric(chars[i]));
            i = i + 1;
        }
        let r = Lexer { src: chars, alphabetic: alpha, alphanumeric: alnum, pos: 0 };
        assert(r.flags().alphabetic =~= unicode_flags(src@).alphabetic);
        assert(r.flags().alphanumeric =~= unicode_flags(src@).alphanumeric);
        r
    }

    /// A lexer at the start of `src` that takes its character classification
    /// from the flags given, one of each per character of `src`.
    pub fn with_flags(src: &str, alphabetic_flags: Vec<bool>, alphanumeric_flags: Vec<bool>) -> (r:
        Lexer)
        requires
            alphabetic_flags@.len() == src@.len(),
            alphanumeric_flags@.len() == src@.len(),
        ensures
            r.wf(),
            r.text() == src@,
            r.position() == 0,
            r.flags() == (CharFlags {
                alphabetic: alphabetic_flags@,
                alphanumeric: alphanumeric_flags@,
            }),
            r.stream() == token_stream(src@, r.flags(), 0),
    {
        Lexer {
            src: chars_of(src),
            alphabetic: alphabetic_flags,
            alphanumeric: alphanumeric_flags,
            pos: 0,
        }
    }

    /// Whether the character at `j` is in class `k`.
    fn holds(&self, k: CharClass, j: usize) -> (r: bool)
        requires
            self.wf(),
            j < self.src.len(),
        ensures
            r == in_class(k, self.src@, self.flags(), j as int),
    {
        let c = self.src[j];
        match k {
            CharClass::Space => char_is_whitespace(c),
            CharClass::StringBody => c != '"',
            CharClass::Word => self.alphanumeric[j] || c == '_',
            CharClass::Number => ('0' <= c && c <= '9') || c == '.',
        }
    }

    /// The end of the run of class `k` that starts at `start`.
    fn skip(&self, start: usize, k: CharClass) -> (j: usize)
        requires
            self.wf(),
            start <= self.src.len(),
        ensures
            j == scan(self.src@, self.flags(), start as int, k),
            start <= j <= self.src.len(),
    {
        proof {
            lemma_scan(self.src@, self.flags(), start as int, k);
        }
        let mut j = start;
        while j < self.src.len() && self.holds(k, j)
            invariant
                self.wf(),
                start <= j <= self.src.len(),
                scan(self.src@, self.flags(), start as int, k) == scan(
                    self.src@,
                    self.flags(),
                    j as int,
                    k,
                ),
            decreases self.src.len() - j,
        {
            j = j + 1;
        }
        j
    }

    /// The token of the bare word at `from..to`.
    fn word(&self, from: usize, to: usize) -> (t: Token)
        requires
            from < to <= self.src.len(),
        ensures
            t@ == word_token(self.src@.subrange(from as int, to as int)),
    {
        let ghost w = self.src@.subrange(from as int, to as int);
        let ghost t_word = seq!['t', 'r', 'u', 'e'];
        let ghost f_word = seq!['f', 'a', 'l', 's', 'e'];
        let ghost n_word = seq!['n', 'u', 'l', 'l'];
        assert(t_word.len() == 4 && t_word[0] == 't' && t_word[1] == 'r' && t_word[2] == 'u'
            && t_word[3] == 'e');
        assert(f_word.len() == 5 && f_word[0] == 'f' && f_word[1] == 'a' && f_word[2] == 'l'
            && f_word[3] == 's' && f_word[4] == 'e');
        assert(n_word.len() == 4 && n_word[0] == 'n' && n_word[1] == 'u' && n_word[2] == 'l'
            && n_word[3] == 'l');
        let n = to - from;
        if n == 4 && self.src[from] == 't' && self.src[from + 1] == 'r' && self.src[from + 2] == 'u'
            && self.src[from + 3] == 'e' {
            assert(w =~= seq!['t', 'r', 'u', 'e']);
            Token::BoolLiteral(true)
        } else if n == 5 && self.src[from] == 'f' && self.src[from + 1] == 'a' && self.src[from + 2]
            == 'l' && self.src[from + 3] == 's' && self.src[from + 4] == 'e' {
            assert(w =~= seq!['f', 'a', 'l', 's', 'e']);
            Token::BoolLiteral(false)
        } else if n == 4 && self.src[from] == 'n' && self.src[from + 1] == 'u' && self.src[from + 2]
            == 'l' && self.src[from + 3] == 'l' {
            assert(w =~= seq!['n', 'u', 'l', 'l']);
            assert(w[0] != t_word[0]);
            Token::Null
        } else {
            proof {
                if w == seq!['t', 'r', 'u', 'e'] {
                    assert(w[0] == 't' && w[1] == 'r' && w[2] == 'u' && w[3] == 'e');
                }
                if w == seq!['f', 'a', 'l', 's', 'e'] {
                    assert(w[0] == 'f' && w[1] == 'a' && w[2] == 'l' && w[3] == 's' && w[4] == 'e');
                }
                if w == seq!['n', 'u', 'l', 'l'] {
                    assert(w[0] == 'n' && w[1] == 'u' && w[2] == 'l' && w[3] == 'l');
                }
            }
            Token::Identifier(text_of(&self.src, from, to))
        }
    }

    /// The outcome of the numeric literal at `from..to`.
    fn number(&self, from: usize, to: usize) -> (r: Result<Token, ParseError>)
        requires
            from < to <= self.src.len(),
            forall|m: int| from <= m < to ==> is_number_char(#[trigger] self.src@[m]),
        ensures
            match number_step(self.src@.subrange(from as int, to as int), to as int) {
                LexStep::Emit(t, _) => r matches Ok(tok) && tok@ == t,
                LexStep::Fail(e) => r matches Err(err) && err@ == e,
                LexStep::End => false,
            },
    {
        let ghost s = self.src@;
        let mut dots: usize = 0;
        let mut value: u64 = 0;
        let mut big = false;
        let mut k = from;
        assert(s.subrange(from as int, from as int) =~= Seq::<char>::empty());
        while k < to
            invariant
                from <= k <= to <= s.len(),
                s == self.src@,
                dots == dot_count(s.subrange(from as int, k as int)),
                dots <= k - from,
                dots == 0 && !big ==> value == digits_value(s.subrange(from as int, k as int))
                    && value <= i32::MAX,
                dots == 0 && big ==> digits_value(s.subrange(from as int, k as int)) > i32::MAX,
                forall|m: int| from <= m < to ==> is_number_char(#[trigger] s[m]),
            decreases to - k,
        {
            let c = self.src[k];
            let ghost prev = s.subrange(from as int, k as int);
            let ghost next = s.subrange(from as int, k + 1);
            assert(next.drop_last() =~= prev);
            assert(next.last() == c);
            if c == '.' {
                dots = dots + 1;
            } else if dots == 0 && !big {
                value = value * 10 + (c as u32 - '0' as u32) as u64;
                if value > 2147483647 {
                    big = true;
                }
            } else if dots == 0 {
                assert(digits_value(next) > i32::MAX) by (nonlinear_arith)
                    requires
                        digits_value(next) == digits_value(prev) * 10 + (c as int - '0' as int),
                        digits_value(prev) > i32::MAX,
                        '0' <= c <= '9',
                ;
            }
            k = k + 1;
        }
        assert(s.subrange(from as int, k as int) == s.subrange(from as int, to as int));
        if dots == 0 {
            if big {
                Err(ParseError::InvalidNumber(text_of(&self.src, from, to)))
            } else {
                Ok(Token::IntegerLiteral(value as i32))
            }
        } else if dots == 1 {
            Ok(Token::FloatLiteral(text_of(&self.src, from, to)))
        } else {
            Err(ParseError::InvalidNumber(text_of(&self.src, from, to)))
        }
    }

    /// Lexes the next token, after any whitespace. `Ok(None)` comes exactly
    /// when only whitespace is left; an unterminated string or a malformed
    /// number is an error.
    pub fn lex(&mut self) -> (r: Result<Option<Token>, ParseError>)
        requires
            old(self).wf(),
        ensures
            final(self).wf(),
            final(self).text() == old(self).text(),
            final(self).flags() == old(self).flags(),
            match lex_step(old(self).text(), old(self).flags(), old(self).position()) {
                LexStep::End => {
                    &&& r matches Ok(None)
                    &&& final(self).position() == old(self).text().len()
                },
                LexStep::Emit(t, next) => {
                    &&& r matches Ok(Some(tok)) && tok@ == t
                    &&& final(self).position() == next
                    &&& old(self).position() < next <= old(self).text().len()
                },
                LexStep::Fail(e) => r matches Err(err) && err@ == e,
            },
            old(self).stream().tokens.len() > 0 ==> {
                &&& r matches Ok(Some(tok)) && tok@ == old(self).stream().tokens[0]
                &&& final(self).stream() == (TokenStream {
                    tokens: old(self).stream().tokens.drop_first(),
                    stop: old(self).stream().stop,
                })
            },
            old(self).stream().tokens.len() == 0 ==> match old(self).stream().stop {
                None => r matches Ok(None) && final(self).stream() == old(self).stream(),
                Some(e) => r matches Err(err) && err@ == e,
            },
    {
        let ghost s = self.src@;
        let ghost pos = self.pos as int;
        let ghost f = self.flags();
        let len = self.src.len();
        let i = self.skip(self.pos, CharClass::Space);
        let r = if i >= len {
            self.pos = i;
            Ok(None)
        } else {
            let c = self.src[i];
            if c == '{' {
                self.pos = i + 1;
                Ok(Some(Token::ObjectOpen))
            } else if c == '}' {
                self.pos = i + 1;
                Ok(Some(Token::ObjectClose))
            } else if c == '[' {
                self.pos = i + 1;
                Ok(Some(Token::ArrayOpen))
            } else if c == ']' {
                self.pos = i + 1;
                Ok(Some(Token::ArrayClose))
            } else if c == ':' {
                self.pos = i + 1;
                Ok(Some(Token::Colon))
            } else if c == ',' {
                self.pos = i + 1;
                Ok(Some(Token::Comma))
            } else if c == '"' {
                let j = self.skip(i + 1, CharClass::StringBody);
                if j < len {
                    let t = text_of(&self.src, i + 1, j);
                    self.pos = j + 1;
                    Ok(Some(Token::StringLiteral(t)))
                } else {
                    self.pos = j;
                    Err(ParseError::UnexpectedEndOfInput)
                }
            } else if '0' <= c && c <= '9' {
                let j = self.skip(i + 1, CharClass::Number);
                proof {
                    lemma_scan(s, f, i + 1, CharClass::Number);
                    assert forall|m: int| i <= m < j implies is_number_char(#[trigger] s[m]) by {
                        if m > i {
                            assert(in_class(CharClass::Number, s, f, m));
                        }
                    }
                }
                self.pos = j;
                match self.number(i, j) {
                    Ok(t) => Ok(Some(t)),
                    Err(e) => Err(e),
                }
            } else if self.alphabetic[i] {
                let j = self.skip(i + 1, CharClass::Word);
                self.pos = j;
                Ok(Some(self.word(i, j)))
            } else {
                self.pos = i + 1;
                Ok(Some(Token::Unrecognized(c)))
            }
        };
        proof {
            if let LexStep::Emit(t, next) = lex_step(s, f, pos) {
                let rest = token_stream(s, f, next);
                assert((seq![t] + rest.tokens).drop_first() =~= rest.tokens);
            }
        }
        r
    }
}

} // verus!
