//! The token stream the request parser consumes.
//!
//! Tokenizing raw text is an outside collaborator's job; this crate works on
//! the stream of typed tokens it yields.  `TokenReader` hands out one token
//! at a time and can skip a whole value — scalar, array or nested object —
//! which is what keeps unknown fields from derailing the parse.

use vstd::prelude::*;

verus! {

#[derive(Debug)]
pub enum Token {
    DictStart,
    DictEnd,
    ArrayStart,
    ArrayEnd,
    Str(String),
    Null,
    Bool(bool),
    Int(i64),
}

/// Why parsing the whole request was aborted; no partial result survives.
#[derive(Clone, Copy, Debug, PartialEq, Eq, Structural)]
pub enum ParseError {
    /// The token stream ended inside the request.
    UnexpectedEnd,
    /// The opening delimiter of an object is missing.
    ExpectedObject,
    /// A token that fits no shape at this position, such as a stray
    /// closing delimiter.
    UnexpectedToken,
    /// A known field's value has the wrong type.
    TypeMismatch,
    /// The reference marker sits on a field that takes no reference.
    UnsupportedReference,
    /// The value form and the reference form of one logical field are both
    /// present.
    ConflictingForms,
}

/// Where a skip that started with open delimiters `stack` (`true` marks an
/// object, `false` an array) ends: the tokens after the skipped value.
pub open spec fn spec_skip_from(s: Seq<Token>, stack: Seq<bool>) -> Result<Seq<Token>, ParseError>
    decreases s.len(),
{
    if s.len() == 0 {
        Err(ParseError::UnexpectedEnd)
    } else {
        let rest = s.drop_first();
        match s[0] {
            Token::ArrayStart => spec_skip_from(rest, stack.push(false)),
            Token::DictStart => spec_skip_from(rest, stack.push(true)),
            Token::ArrayEnd => if stack.len() > 0 && stack.last() == false {
                if stack.len() == 1 {
                    Ok(rest)
                } else {
                    spec_skip_from(rest, stack.drop_last())
                }
            } else {
                Err(ParseError::UnexpectedToken)
            },
            Token::DictEnd => if stack.len() > 0 && stack.last() == true {
                if stack.len() == 1 {
                    Ok(rest)
                } else {
                    spec_skip_from(rest, stack.drop_last())
                }
            } else {
                Err(ParseError::UnexpectedToken)
            },
            _ => if stack.len() == 0 {
                Ok(rest)
            } else {
                spec_skip_from(rest, stack)
            },
        }
    }
}

/// The tokens left after skipping exactly one value at the head of `s`.
pub open spec fn spec_skip_value(s: Seq<Token>) -> Result<Seq<Token>, ParseError> {
    spec_skip_from(s, Seq::empty())
}

/// `v` is one complete value: a skip consumes it entirely.
pub open spec fn is_value(v: Seq<Token>) -> bool {
    spec_skip_value(v) == Ok::<Seq<Token>, ParseError>(Seq::<Token>::empty())
}

/// A successful skip consumes at least one token.
pub proof fn lemma_skip_shrinks(s: Seq<Token>, stack: Seq<bool>)
    ensures
        spec_skip_from(s, stack) matches Ok(r) ==> r.len() < s.len(),
    decreases s.len(),
{
    if s.len() > 0 {
        let rest = s.drop_first();
        match s[0] {
            Token::ArrayStart => lemma_skip_shrinks(rest, stack.push(false)),
            Token::DictStart => lemma_skip_shrinks(rest, stack.push(true)),
            Token::ArrayEnd => lemma_skip_shrinks(rest, stack.drop_last()),
            Token::DictEnd => lemma_skip_shrinks(rest, stack.drop_last()),
            _ => lemma_skip_shrinks(rest, stack),
        }
    }
}

/// A skip reads nothing past the value it consumes: whatever follows the
/// value is left untouched behind it.
pub proof fn lemma_skip_extend(v: Seq<Token>, extra: Seq<Token>, stack: Seq<bool>, tail: Seq<Token>)
    requires
        spec_skip_from(v, stack) == Ok::<Seq<Token>, ParseError>(tail),
    ensures
        spec_skip_from(v + extra, stack) == Ok::<Seq<Token>, ParseError>(tail + extra),
    decreases v.len(),
{
    assert(v.len() > 0);
    assert((v + extra).len() > 0);
    assert((v + extra)[0] == v[0]);
    assert((v + extra).drop_first() =~= v.drop_first() + extra);
    let rest = v.drop_first();
    match v[0] {
        Token::ArrayStart => lemma_skip_extend(rest, extra, stack.push(false), tail),
        Token::DictStart => lemma_skip_extend(rest, extra, stack.push(true), tail),
        Token::ArrayEnd => {
            if stack.len() > 1 {
                lemma_skip_extend(rest, extra, stack.drop_last(), tail);
            }
        },
        Token::DictEnd => {
            if stack.len() > 1 {
                lemma_skip_extend(rest, extra, stack.drop_last(), tail);
            }
        },
        _ => {
            if stack.len() > 0 {
                lemma_skip_extend(rest, extra, stack, tail);
            }
        },
    }
}

/// Skipping one complete value — scalar, array or nested object — leaves
/// the stream positioned exactly at the tokens that follow it, so the next
/// sibling key is read correctly.
pub proof fn lemma_skip_to_next_sibling(v: Seq<Token>, rest: Seq<Token>)
    requires
        is_value(v),
    ensures
        spec_skip_value(v + rest) == Ok::<Seq<Token>, ParseError>(rest),
{
    lemma_skip_extend(v, rest, Seq::empty(), Seq::empty());
    assert(Seq::<Token>::empty() + rest =~= rest);
}

/// One string token, the shape of a key or an identifier value.
pub open spec fn spec_next_string(s: Seq<Token>) -> Result<(Seq<char>, Seq<Token>), ParseError> {
    if s.len() == 0 {
        Err(ParseError::UnexpectedEnd)
    } else {
        match s[0] {
            Token::Str(k) => Ok((k@, s.drop_first())),
            _ => Err(ParseError::TypeMismatch),
        }
    }
}

/// One string token or an explicit null.
pub open spec fn spec_next_string_or_null(s: Seq<Token>) -> Result<
    (Option<Seq<char>>, Seq<Token>),
    ParseError,
> {
    if s.len() == 0 {
        Err(ParseError::UnexpectedEnd)
    } else {
        match s[0] {
            Token::Str(k) => Ok((Some(k@), s.drop_first())),
            Token::Null => Ok((None, s.drop_first())),
            _ => Err(ParseError::TypeMismatch),
        }
    }
}

/// Inside an object: the next key, or the closing delimiter.
pub open spec fn spec_next_dict_key(s: Seq<Token>) -> Result<
    (Option<Seq<char>>, Seq<Token>),
    ParseError,
> {
    if s.len() == 0 {
        Err(ParseError::UnexpectedEnd)
    } else {
        match s[0] {
            Token::Str(k) => Ok((Some(k@), s.drop_first())),
            Token::DictEnd => Ok((None, s.drop_first())),
            _ => Err(ParseError::UnexpectedToken),
        }
    }
}

/// Inside an array of strings: the next element, or the closing delimiter.
pub open spec fn spec_next_string_or_array_end(s: Seq<Token>) -> Result<
    (Option<Seq<char>>, Seq<Token>),
    ParseError,
> {
    if s.len() == 0 {
        Err(ParseError::UnexpectedEnd)
    } else {
        match s[0] {
            Token::Str(k) => Ok((Some(k@), s.drop_first())),
            Token::ArrayEnd => Ok((None, s.drop_first())),
            _ => Err(ParseError::TypeMismatch),
        }
    }
}

/// The opening delimiter of an object.
pub open spec fn spec_expect_dict_start(s: Seq<Token>) -> Result<Seq<Token>, ParseError> {
    if s.len() == 0 {
        Err(ParseError::UnexpectedEnd)
    } else {
        match s[0] {
            Token::DictStart => Ok(s.drop_first()),
            _ => Err(ParseError::ExpectedObject),
        }
    }
}

/// The opening delimiter of an array, where a known field requires one.
pub open spec fn spec_expect_array_start(s: Seq<Token>) -> Result<Seq<Token>, ParseError> {
    if s.len() == 0 {
        Err(ParseError::UnexpectedEnd)
    } else {
        match s[0] {
            Token::ArrayStart => Ok(s.drop_first()),
            _ => Err(ParseError::TypeMismatch),
        }
    }
}

/// View of an optional owned string.
pub open spec fn opt_view(o: Option<String>) -> Option<Seq<char>> {
    match o {
        Some(s) => Some(s@),
        None => None,
    }
}

/// Cursor over a token stream.  All reading goes through it; every step is
/// described against `remaining()`, the tokens not yet consumed.
pub struct TokenReader {
    tokens: Vec<Token>,
    pos: usize,
}

impl TokenReader {
    pub closed spec fn wf(&self) -> bool {
        self.pos <= self.tokens@.len()
    }

    pub closed spec fn remaining(&self) -> Seq<Token> {
        self.tokens@.skip(self.pos as int)
    }

    pub fn new(tokens: Vec<Token>) -> (r: Self)
        ensures
            r.wf(),
            r.remaining() == tokens@,
    {
        let r = TokenReader { tokens, pos: 0 };
        proof {
            assert(r.remaining() =~= r.tokens@);
        }
        r
    }

    /// True when every token has been consumed.
    pub fn done(&self) -> (r: bool)
        requires
            self.wf(),
        ensures
            r == (self.remaining().len() == 0),
    {
        self.pos == self.tokens.len()
    }

    proof fn lemma_step(&self)
        requires
            self.wf(),
            self.remaining().len() > 0,
        ensures
            self.remaining()[0] == self.tokens@[self.pos as int],
            self.remaining().drop_first() =~= self.tokens@.skip(self.pos as int + 1),
    {
    }

    pub fn expect_dict_start(&mut self) -> (r: Result<(), ParseError>)
        requires
            old(self).wf(),
        ensures
            final(self).wf(),
            final(self).remaining().len() <= old(self).remaining().len(),
            match r {
                Ok(_) => spec_expect_dict_start(old(self).remaining()) == Ok::<
                    Seq<Token>,
                    ParseError,
                >(final(self).remaining()),
                Err(e) => spec_expect_dict_start(old(self).remaining()) == Err::<
                    Seq<Token>,
                    ParseError,
                >(e),
            },
    {
        if self.pos >= self.tokens.len() {
            return Err(ParseError::UnexpectedEnd);
        }
        proof {
            self.lemma_step();
        }
        match &self.tokens[self.pos] {
            Token::DictStart => {
                self.pos = self.pos + 1;
                Ok(())
            },
            _ => Err(ParseError::ExpectedObject),
        }
    }

    pub fn expect_array_start(&mut self) -> (r: Result<(), ParseError>)
        requires
            old(self).wf(),
        ensures
            final(self).wf(),
            final(self).remaining().len() <= old(self).remaining().len(),
            match r {
                Ok(_) => spec_expect_array_start(old(self).remaining()) == Ok::<
                    Seq<Token>,
                    ParseError,
                >(final(self).remaining()),
                Err(e) => spec_expect_array_start(old(self).remaining()) == Err::<
                    Seq<Token>,
                    ParseError,
                >(e),
            },
    {
        if self.pos >= self.tokens.len() {
            return Err(ParseError::UnexpectedEnd);
        }
        proof {
            self.lemma_step();
        }
        match &self.tokens[self.pos] {
            Token::ArrayStart => {
                self.pos = self.pos + 1;
                Ok(())
            },
            _ => Err(ParseError::TypeMismatch),
        }
    }

    pub fn next_string(&mut self) -> (r: Result<String, ParseError>)
        requires
            old(self).wf(),
        ensures
            final(self).wf(),
            final(self).remaining().len() <= old(self).remaining().len(),
            match r {
                Ok(v) => spec_next_string(old(self).remaining()) == Ok::<
                    (Seq<char>, Seq<Token>),
                    ParseError,
                >((v@, final(self).remaining())),
                Err(e) => spec_next_string(old(self).remaining()) == Err::<
                    (Seq<char>, Seq<Token>),
                    ParseError,
                >(e),
            },
    {
        if self.pos >= self.tokens.len() {
            return Err(ParseError::UnexpectedEnd);
        }
        proof {
            self.lemma_step();
        }
        match &self.tokens[self.pos] {
            Token::Str(k) => {
                let v = k.clone();
                self.pos = self.pos + 1;
                Ok(v)
            },
            _ => Err(ParseError::TypeMismatch),
        }
    }

    pub fn next_string_or_null(&mut self) -> (r: Result<Option<String>, ParseError>)
        requires
            old(self).wf(),
        ensures
            final(self).wf(),
            final(self).remaining().len() <= old(self).remaining().len(),
            match r {
                Ok(v) => spec_next_string_or_null(old(self).remaining()) == Ok::<
                    (Option<Seq<char>>, Seq<Token>),
                    ParseError,
                >((opt_view(v), final(self).remaining())),
                Err(e) => spec_next_string_or_null(old(self).remaining()) == Err::<
                    (Option<Seq<char>>, Seq<Token>),
                    ParseError,
                >(e),
            },
    {
        if self.pos >= self.tokens.len() {
            return Err(ParseError::UnexpectedEnd);
        }
        proof {
            self.lemma_step();
        }
        match &self.tokens[self.pos] {
            Token::Str(k) => {
                let v = k.clone();
                self.pos = self.pos + 1;
                Ok(Some(v))
            },
            Token::Null => {
                self.pos = self.pos + 1;
                Ok(None)
            },
            _ => Err(ParseError::TypeMismatch),
        }
    }

    pub fn next_dict_key(&mut self) -> (r: Result<Option<String>, ParseError>)
        requires
            old(self).wf(),
        ensures
            final(self).wf(),
            final(self).remaining().len() <= old(self).remaining().len(),
            match r {
                Ok(v) => spec_next_dict_key(old(self).remaining()) == Ok::<
                    (Option<Seq<char>>, Seq<Token>),
                    ParseError,
                >((opt_view(v), final(self).remaining())),
                Err(e) => spec_next_dict_key(old(self).remaining()) == Err::<
                    (Option<Seq<char>>, Seq<Token>),
                    ParseError,
                >(e),
            },
    {
        if self.pos >= self.tokens.len() {
            return Err(ParseError::UnexpectedEnd);
        }
        proof {
            self.lemma_step();
        }
        match &self.tokens[self.pos] {
            Token::Str(k) => {
                let v = k.clone();
                self.pos = self.pos + 1;
                Ok(Some(v))
            },
            Token::DictEnd => {
                self.pos = self.pos + 1;
                Ok(None)
            },
            _ => Err(ParseError::UnexpectedToken),
        }
    }

    pub fn next_string_or_array_end(&mut self) -> (r: Result<Option<String>, ParseError>)
        requires
            old(self).wf(),
        ensures
            final(self).wf(),
            final(self).remaining().len() <= old(self).remaining().len(),
            match r {
                Ok(v) => spec_next_string_or_array_end(old(self).remaining()) == Ok::<
                    (Option<Seq<char>>, Seq<Token>),
                    ParseError,
                >((opt_view(v), final(self).remaining())),
                Err(e) => spec_next_string_or_array_end(old(self).remaining()) == Err::<
                    (Option<Seq<char>>, Seq<Token>),
                    ParseError,
                >(e),
            },
    {
        if self.pos >= self.tokens.len() {
            return Err(ParseError::UnexpectedEnd);
        }
        proof {
            self.lemma_step();
        }
        match &self.tokens[self.pos] {
            Token::Str(k) => {
                let v = k.clone();
                self.pos = self.pos + 1;
                Ok(Some(v))
            },
            Token::ArrayEnd => {
                self.pos = self.pos + 1;
                Ok(None)
            },
            _ => Err(ParseError::TypeMismatch),
        }
    }

    /// Consume one whole value — scalar, array or nested object — without
    /// decoding it.  Unknown fields are skipped through this, never failed.
    pub fn skip_value(&mut self) -> (r: Result<(), ParseError>)
        requires
            old(self).wf(),
        ensures
            final(self).wf(),
            final(self).remaining().len() <= old(self).remaining().len(),
            match r {
                Ok(_) => spec_skip_value(old(self).remaining()) == Ok::<
                    Seq<Token>,
                    ParseError,
                >(final(self).remaining()),
                Err(e) => spec_skip_value(old(self).remaining()) == Err::<
                    Seq<Token>,
                    ParseError,
                >(e),
            },
    {
        let mut stack: Vec<bool> = Vec::new();
        loop
            invariant
                self.wf(),
                self.remaining().len() <= old(self).remaining().len(),
                spec_skip_value(old(self).remaining()) == spec_skip_from(
                    self.remaining(),
                    stack@,
                ),
            decreases self.tokens@.len() - self.pos,
        {
            if self.pos >= self.tokens.len() {
                return Err(ParseError::UnexpectedEnd);
            }
            proof {
                self.lemma_step();
            }
            match &self.tokens[self.pos] {
                Token::ArrayStart => {
                    stack.push(false);
                    self.pos = self.pos + 1;
                },
                Token::DictStart => {
                    stack.push(true);
                    self.pos = self.pos + 1;
                },
                Token::ArrayEnd => {
                    if stack.len() > 0 && stack[stack.len() - 1] == false {
                        self.pos = self.pos + 1;
                        if stack.len() == 1 {
                            return Ok(());
                        }
                        stack.pop();
                    } else {
                        return Err(ParseError::UnexpectedToken);
                    }
                },
                Token::DictEnd => {
                    if stack.len() > 0 && stack[stack.len() - 1] == true {
                        self.pos = self.pos + 1;
                        if stack.len() == 1 {
                            return Ok(());
                        }
                        stack.pop();
                    } else {
                        return Err(ParseError::UnexpectedToken);
                    }
                },
                _ => {
                    self.pos = self.pos + 1;
                    if stack.len() == 0 {
                        return Ok(());
                    }
                },
            }
        }
    }
}

} // verus!
