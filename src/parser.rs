use vstd::prelude::*;
use crate::lexer::{Lexer, TokenStream, token_stream, unicode_flags};
use crate::tokens::{Token, TokenView};
use crate::values::{
    Json,
    Value,
    ValueView,
    insert_member,
    lemma_insert_keeps_values_well_formed,
    well_formed,
};

verus! {

/// Why a document could not be parsed. Every error ends the parse.
#[derive(Debug, PartialEq)]
pub enum ParseError {
    /// The input ended where more was required (also inside a string).
    UnexpectedEndOfInput,
    /// A token stood where the grammar does not allow it.
    UnexpectedToken(Token),
    /// A specific character (`{` or `:`) was required.
    ExpectedCharacter(char),
    /// A numeric literal with more than one `.`, or an integer beyond `i32`.
    InvalidNumber(String),
}

/// The mathematical model of a [`ParseError`].
pub enum ParseErrorView {
    UnexpectedEndOfInput,
    UnexpectedToken(TokenView),
    ExpectedCharacter(char),
    InvalidNumber(Seq<char>),
}

impl View for ParseError {
    type V = ParseErrorView;

    open spec fn view(&self) -> ParseErrorView {
        match self {
            ParseError::UnexpectedEndOfInput => ParseErrorView::UnexpectedEndOfInput,
            ParseError::UnexpectedToken(t) => ParseErrorView::UnexpectedToken(t@),
            ParseError::ExpectedCharacter(c) => ParseErrorView::ExpectedCharacter(*c),
            ParseError::InvalidNumber(s) => ParseErrorView::InvalidNumber(s@),
        }
    }
}

/// The token at index `i` of a stream, or why there is none: the lexing error
/// that stopped the stream, else the end of the input.
pub open spec fn token_at(ts: TokenStream, i: int) -> Result<TokenView, ParseErrorView> {
    if 0 <= i < ts.tokens.len() {
        Ok(ts.tokens[i])
    } else {
        match ts.stop {
            Some(e) => Err(e),
            None => Err(ParseErrorView::UnexpectedEndOfInput),
        }
    }
}

/// The text of a token that may stand as an object key.
pub open spec fn key_text(t: TokenView) -> Option<Seq<char>> {
    match t {
        TokenView::StringLiteral(s) => Some(s),
        TokenView::Identifier(s) => Some(s),
        _ => None,
    }
}

/// What parsing yields: a value and the index of the first token after it.
pub type Parsed = Result<(ValueView, int), ParseErrorView>;

/// `value := string | integer | float | bool | null | array | object`, read
/// from token `i` on.
pub open spec fn parse_value(ts: TokenStream, i: int) -> Parsed
    decreases ts.tokens.len() - i, 0int,
{
    match token_at(ts, i) {
        Err(e) => Err(e),
        Ok(t) => match t {
            TokenView::StringLiteral(s) => Ok((ValueView::Str(s), i + 1)),
            TokenView::IntegerLiteral(n) => Ok((ValueView::Int(n), i + 1)),
            TokenView::FloatLiteral(s) => Ok((ValueView::Float(s), i + 1)),
            TokenView::BoolLiteral(b) => Ok((ValueView::Bool(b), i + 1)),
            TokenView::Null => Ok((ValueView::Null, i + 1)),
            TokenView::ArrayOpen => parse_array_rest(ts, i + 1),
            TokenView::ObjectOpen => parse_object_rest(ts, i + 1),
            _ => Err(ParseErrorView::UnexpectedToken(t)),
        },
    }
}

/// An array after its `[`, from token `i` on: `]`, `,]`, or elements.
pub open spec fn parse_array_rest(ts: TokenStream, i: int) -> Parsed
    decreases ts.tokens.len() - i, 2int,
{
    match token_at(ts, i) {
        Err(e) => Err(e),
        Ok(TokenView::ArrayClose) => Ok((ValueView::Array(seq![]), i + 1)),
        Ok(TokenView::Comma) => match token_at(ts, i + 1) {
            Err(e) => Err(e),
            Ok(TokenView::ArrayClose) => Ok((ValueView::Array(seq![]), i + 2)),
            Ok(t) => Err(ParseErrorView::UnexpectedToken(t)),
        },
        Ok(_) => parse_elements(ts, i, seq![]),
    }
}

/// Array elements from token `i` on, after the elements `acc`:
/// `value (',' value)* ','? ']'`.
pub open spec fn parse_elements(ts: TokenStream, i: int, acc: Seq<ValueView>) -> Parsed
    decreases ts.tokens.len() - i, 1int,
{
    match parse_value(ts, i) {
        Err(e) => Err(e),
        Ok((v, j)) => {
            let items = acc.push(v);
            match token_at(ts, j) {
                Err(e) => Err(e),
                Ok(TokenView::ArrayClose) => Ok((ValueView::Array(items), j + 1)),
                Ok(TokenView::Comma) => match token_at(ts, j + 1) {
                    Err(e) => Err(e),
                    Ok(TokenView::ArrayClose) => Ok((ValueView::Array(items), j + 2)),
                    Ok(_) => if i < j {
                        parse_elements(ts, j + 1, items)
                    } else {
                        // a value always takes at least one token
                        Err(ParseErrorView::UnexpectedEndOfInput)
                    },
                },
                Ok(t) => Err(ParseErrorView::UnexpectedToken(t)),
            }
        },
    }
}

/// An object after its `{`, from token `i` on: `}`, `,}`, or members.
pub open spec fn parse_object_rest(ts: TokenStream, i: int) -> Parsed
    decreases ts.tokens.len() - i, 2int,
{
    match token_at(ts, i) {
        Err(e) => Err(e),
        Ok(TokenView::ObjectClose) => Ok((ValueView::Object(seq![]), i + 1)),
        Ok(TokenView::Comma) => match token_at(ts, i + 1) {
            Err(e) => Err(e),
            Ok(TokenView::ObjectClose) => Ok((ValueView::Object(seq![]), i + 2)),
            Ok(t) => Err(ParseErrorView::UnexpectedToken(t)),
        },
        Ok(_) => parse_members(ts, i, seq![]),
    }
}

/// Object members from token `i` on, after the members `acc`:
/// `pair (',' pair)* ','? '}'` with `pair := key ':' value`. A repeated key
/// takes the later value.
pub open spec fn parse_members(
    ts: TokenStream,
    i: int,
    acc: Seq<(Seq<char>, ValueView)>,
) -> Parsed
    decreases ts.tokens.len() - i, 1int,
{
    match token_at(ts, i) {
        Err(e) => Err(e),
        Ok(t) => match key_text(t) {
            None => Err(ParseErrorView::UnexpectedToken(t)),
            Some(k) => match token_at(ts, i + 1) {
                Err(e) => Err(e),
                Ok(TokenView::Colon) => match parse_value(ts, i + 2) {
                    Err(e) => Err(e),
                    Ok((v, j)) => {
                        let members = insert_member(acc, k, v);
                        match token_at(ts, j) {
                            Err(e) => Err(e),
                            Ok(TokenView::ObjectClose) => Ok((ValueView::Object(members), j + 1)),
                            Ok(TokenView::Comma) => match token_at(ts, j + 1) {
                                Err(e) => Err(e),
                                Ok(TokenView::ObjectClose) => Ok(
                                    (ValueView::Object(members), j + 2),
                                ),
                                Ok(_) => if i < j {
                                    parse_members(ts, j + 1, members)
                                } else {
                                    // a value always takes at least one token
                                    Err(ParseErrorView::UnexpectedEndOfInput)
                                },
                            },
                            Ok(u) => Err(ParseErrorView::UnexpectedToken(u)),
                        }
                    },
                },
                Ok(_) => Err(ParseErrorView::ExpectedCharacter(':')),
            },
        },
    }
}

/// `document := object`: the object that the stream starts with, and the
/// index of the first token after it. Tokens after it are not read.
pub open spec fn parse_document_at(ts: TokenStream) -> Parsed {
    match token_at(ts, 0) {
        Err(e) => Err(e),
        Ok(TokenView::ObjectOpen) => parse_object_rest(ts, 1),
        Ok(_) => Err(ParseErrorView::ExpectedCharacter('{')),
    }
}

/// The value of the object that the stream starts with.
pub open spec fn parse_document(ts: TokenStream) -> Result<ValueView, ParseErrorView> {
    match parse_document_at(ts) {
        Ok((v, _)) => Ok(v),
        Err(e) => Err(e),
    }
}

/// What parsing the text `s` yields.
pub open spec fn parse_source(s: Seq<char>) -> Result<ValueView, ParseErrorView> {
    parse_document(token_stream(s, unicode_flags(s), 0))
}

/// The stream without its first `i` tokens.
pub open spec fn advanced(ts: TokenStream, i: int) -> TokenStream {
    TokenStream { tokens: ts.tokens.skip(i), stop: ts.stop }
}

/// The model of an executable parse outcome.
pub open spec fn outcome(r: Result<Value, ParseError>) -> Result<ValueView, ParseErrorView> {
    match r {
        Ok(v) => Ok(v.view()),
        Err(e) => Err(e@),
    }
}

/// Whether an executable outcome is the outcome `p` of a parse.
pub open spec fn outcome_is(r: Result<Value, ParseError>, p: Result<ValueView, ParseErrorView>) -> bool {
    outcome(r) == p
}

/// Parsing is a function of the text alone: two parses of the same text, each
/// by a fresh parser, give the same outcome.
pub proof fn lemma_parse_deterministic(
    s: Seq<char>,
    first: Result<Value, ParseError>,
    second: Result<Value, ParseError>,
)
    requires
        outcome_is(first, parse_source(s)),
        outcome_is(second, parse_source(s)),
    ensures
        outcome(first) == outcome(second),
{
}

/// A recursive-descent parser that pulls tokens from a [`Lexer`] one at a time.
pub struct Parser {
    lexer: Lexer,
}

impl Parser {
    pub closed spec fn wf(&self) -> bool {
        self.lexer.wf()
    }

    /// The tokens not yet consumed.
    pub closed spec fn stream(&self) -> TokenStream {
        self.lexer.stream()
    }

    /// A parser at the start of `src`.
    pub fn new(src: &str) -> (r: Parser)
        ensures
            r.wf(),
            r.stream() == token_stream(src@, unicode_flags(src@), 0),
    {
        Parser { lexer: Lexer::new(src) }
    }

    /// A parser that reads its tokens from `lexer`, from where it stands.
    pub fn from_lexer(lexer: Lexer) -> (r: Parser)
        requires
            lexer.wf(),
        ensures
            r.wf(),
            r.stream() == lexer.stream(),
    {
        Parser { lexer }
    }

    /// Consumes token `i` of `ts`.
    fn next(&mut self, Ghost(ts): Ghost<TokenStream>, Ghost(i): Ghost<int>) -> (r: Result<
        Token,
        ParseError,
    >)
        requires
            old(self).wf(),
            0 <= i <= ts.tokens.len(),
            old(self).stream() == advanced(ts, i),
        ensures
            final(self).wf(),
            match token_at(ts, i) {
                Ok(t) => {
                    &&& r matches Ok(tok) && tok@ == t
                    &&& final(self).stream() == advanced(ts, i + 1)
                },
                Err(e) => r matches Err(err) && err@ == e,
            },
            token_at(ts, i) is Err && ts.stop is None ==> final(self).stream() == old(self).stream(),
    {
        let r = self.lexer.lex();
        proof {
            if i < ts.tokens.len() {
                assert(ts.tokens.skip(i)[0] == ts.tokens[i]);
                assert(ts.tokens.skip(i).drop_first() =~= ts.tokens.skip(i + 1));
            }
        }
        match r {
            Ok(Some(t)) => Ok(t),
            Ok(None) => Err(ParseError::UnexpectedEndOfInput),
            Err(e) => Err(e),
        }
    }

    /// The value that starts with token `t`, token `i` of `ts`, already consumed.
    fn value_from(&mut self, t: Token, Ghost(ts): Ghost<TokenStream>, Ghost(i): Ghost<int>) -> (r:
        Result<Value, ParseError>)
        requires
            old(self).wf(),
            0 <= i < ts.tokens.len(),
            ts.tokens[i] == t@,
            old(self).stream() == advanced(ts, i + 1),
        ensures
            final(self).wf(),
            match parse_value(ts, i) {
                Ok((v, j)) => {
                    &&& r matches Ok(val) && val.view() == v && well_formed(v)
                    &&& final(self).stream() == advanced(ts, j)
                    &&& i < j <= ts.tokens.len()
                },
                Err(e) => r matches Err(err) && err@ == e,
            },
        decreases ts.tokens.len() - i, 0int,
    {
        match t {
            Token::StringLiteral(s) => Ok(Value::StringValue(s)),
            Token::IntegerLiteral(n) => Ok(Value::IntegerValue(n)),
            Token::FloatLiteral(s) => Ok(Value::FloatValue(s)),
            Token::BoolLiteral(b) => Ok(Value::BoolValue(b)),
            Token::Null => Ok(Value::NullValue),
            Token::ArrayOpen => self.array_from(Ghost(ts), Ghost(i + 1)),
            Token::ObjectOpen => self.object_from(Ghost(ts), Ghost(i + 1)),
            other => Err(ParseError::UnexpectedToken(other)),
        }
    }

    /// An array whose `[` was the token before token `i` of `ts`.
    fn array_from(&mut self, Ghost(ts): Ghost<TokenStream>, Ghost(i): Ghost<int>) -> (r: Result<
        Value,
        ParseError,
    >)
        requires
            old(self).wf(),
            0 < i <= ts.tokens.len(),
            old(self).stream() == advanced(ts, i),
        ensures
            final(self).wf(),
            match parse_array_rest(ts, i) {
                Ok((v, j)) => {
                    &&& r matches Ok(val) && val.view() == v && well_formed(v)
                    &&& final(self).stream() == advanced(ts, j)
                    &&& i < j <= ts.tokens.len()
                },
                Err(e) => r matches Err(err) && err@ == e,
            },
        decreases ts.tokens.len() - i, 2int,
    {
        let first = match self.next(Ghost(ts), Ghost(i)) {
            Ok(t) => t,
            Err(e) => return Err(e),
        };
        match first {
            Token::ArrayClose => {
                let r = Value::ArrayValue(Vec::new());
                assert(r.view()->Array_0 =~= Seq::<ValueView>::empty());
                return Ok(r);
            },
            Token::Comma => {
                match self.next(Ghost(ts), Ghost(i + 1)) {
                    Ok(Token::ArrayClose) => {
                        let r = Value::ArrayValue(Vec::new());
                        assert(r.view()->Array_0 =~= Seq::<ValueView>::empty());
                        return Ok(r);
                    },
                    Ok(other) => return Err(ParseError::UnexpectedToken(other)),
                    Err(e) => return Err(e),
                }
            },
            _ => {},
        }
        let mut items: Vec<Value> = Vec::new();
        let ghost mut acc: Seq<ValueView> = seq![];
        let mut t = first;
        let ghost mut k: int = i;
        loop
            invariant
                self.wf(),
                0 < i <= k < ts.tokens.len(),
                ts.tokens[k] == t@,
                self.stream() == advanced(ts, k + 1),
                parse_array_rest(ts, i) == parse_elements(ts, k, acc),
                items@.len() == acc.len(),
                forall|m: int| 0 <= m < acc.len() ==> (#[trigger] items@[m]).view() == acc[m],
                forall|m: int| 0 <= m < acc.len() ==> well_formed(#[trigger] acc[m]),
            decreases ts.tokens.len() - k,
        {
            let v = match self.value_from(t, Ghost(ts), Ghost(k)) {
                Ok(v) => v,
                Err(e) => return Err(e),
            };
            let ghost j = parse_value(ts, k)->Ok_0.1;
            items.push(v);
            proof {
                acc = acc.push(v.view());
            }
            match self.next(Ghost(ts), Ghost(j)) {
                Ok(Token::ArrayClose) => {
                    let r = Value::ArrayValue(items);
                    assert(r.view()->Array_0 =~= acc);
                    return Ok(r);
                },
                Ok(Token::Comma) => {
                    match self.next(Ghost(ts), Ghost(j + 1)) {
                        Ok(Token::ArrayClose) => {
                            let r = Value::ArrayValue(items);
                            assert(r.view()->Array_0 =~= acc);
                            return Ok(r);
                        },
                        Ok(u) => {
                            t = u;
                            proof {
                                k = j + 1;
                            }
                        },
                        Err(e) => return Err(e),
                    }
                },
                Ok(other) => return Err(ParseError::UnexpectedToken(other)),
                Err(e) => return Err(e),
            }
        }
    }

    /// An object whose `{` was the token before token `i` of `ts`.
    fn object_from(&mut self, Ghost(ts): Ghost<TokenStream>, Ghost(i): Ghost<int>) -> (r: Result<
        Value,
        ParseError,
    >)
        requires
            old(self).wf(),
            0 < i <= ts.tokens.len(),
            old(self).stream() == advanced(ts, i),
        ensures
            final(self).wf(),
            match parse_object_rest(ts, i) {
                Ok((v, j)) => {
                    &&& r matches Ok(val) && val.view() == v && well_formed(v)
                    &&& final(self).stream() == advanced(ts, j)
                    &&& i < j <= ts.tokens.len()
                },
                Err(e) => r matches Err(err) && err@ == e,
            },
        decreases ts.tokens.len() - i, 2int,
    {
        let first = match self.next(Ghost(ts), Ghost(i)) {
            Ok(t) => t,
            Err(e) => return Err(e),
        };
        match first {
            Token::ObjectClose => return Ok(Value::ObjectValue(Json::new())),
            Token::Comma => {
                match self.next(Ghost(ts), Ghost(i + 1)) {
                    Ok(Token::ObjectClose) => return Ok(Value::ObjectValue(Json::new())),
                    Ok(other) => return Err(ParseError::UnexpectedToken(other)),
                    Err(e) => return Err(e),
                }
            },
            _ => {},
        }
        let mut members = Json::new();
        let mut t = first;
        let ghost mut k: int = i;
        loop
            invariant
                self.wf(),
                0 < i <= k < ts.tokens.len(),
                ts.tokens[k] == t@,
                self.stream() == advanced(ts, k + 1),
                parse_object_rest(ts, i) == parse_members(ts, k, members@),
                members.wf(),
                forall|m: int| 0 <= m < members@.len() ==> well_formed(#[trigger] members@[m].1),
            decreases ts.tokens.len() - k,
        {
            let key = match t {
                Token::StringLiteral(s) => s,
                Token::Identifier(s) => s,
                other => return Err(ParseError::UnexpectedToken(other)),
            };
            match self.next(Ghost(ts), Ghost(k + 1)) {
                Ok(Token::Colon) => {},
                Ok(_) => return Err(ParseError::ExpectedCharacter(':')),
                Err(e) => return Err(e),
            }
            let vt = match self.next(Ghost(ts), Ghost(k + 2)) {
                Ok(vt) => vt,
                Err(e) => return Err(e),
            };
            let v = match self.value_from(vt, Ghost(ts), Ghost(k + 2)) {
                Ok(v) => v,
                Err(e) => return Err(e),
            };
            let ghost j = parse_value(ts, k + 2)->Ok_0.1;
            proof {
                lemma_insert_keeps_values_well_formed(members@, key@, v.view());
            }
            members.insert(key, v);
            match self.next(Ghost(ts), Ghost(j)) {
                Ok(Token::ObjectClose) => return Ok(Value::ObjectValue(members)),
                Ok(Token::Comma) => {
                    match self.next(Ghost(ts), Ghost(j + 1)) {
                        Ok(Token::ObjectClose) => return Ok(Value::ObjectValue(members)),
                        Ok(u) => {
                            t = u;
                            proof {
                                k = j + 1;
                            }
                        },
                        Err(e) => return Err(e),
                    }
                },
                Ok(other) => return Err(ParseError::UnexpectedToken(other)),
                Err(e) => return Err(e),
            }
        }
    }

    /// Parses one object from the tokens not yet consumed; what follows it is
    /// left unread.
    pub fn parse(&mut self) -> (r: Result<Value, ParseError>)
        requires
            old(self).wf(),
        ensures
            final(self).wf(),
            outcome_is(r, parse_document(old(self).stream())),
            r matches Ok(v) ==> well_formed(v.view()),
            parse_document_at(old(self).stream()) matches Ok((_, j)) ==> final(self).stream()
                == advanced(old(self).stream(), j),
    {
        let ghost ts = self.stream();
        assert(ts.tokens.skip(0) =~= ts.tokens);
        match self.next(Ghost(ts), Ghost(0)) {
            Ok(Token::ObjectOpen) => self.object_from(Ghost(ts), Ghost(1)),
            Ok(_) => Err(ParseError::ExpectedCharacter('{')),
            Err(e) => Err(e),
        }
    }
}

/// Parses the document `src`: one object, with anything after it ignored.
pub fn parse_str(src: &str) -> (r: Result<Value, ParseError>)
    ensures
        outcome_is(r, parse_source(src@)),
        r matches Ok(v) ==> well_formed(v.view()),
{
    let mut p = Parser::new(src);
    p.parse()
}

} // verus!
