//! Splits a raw query string into free and quoted tokens.
//!
//! A `"` toggles quoting; inside quotes every character belongs to the token,
//! outside quotes any non-alphanumeric character separates tokens. Free tokens
//! are only emitted when non-empty, quoted tokens may be empty.

use vstd::prelude::*;

verus! {

/// A token of a raw search query: a bare word run, or the contents of a
/// double-quoted section.
#[derive(Debug, PartialEq, Eq)]
pub enum QueryToken<'a> {
    Free(&'a str),
    Quoted(&'a str),
}

/// Mathematical image of a token: the characters it covers, and whether it
/// came from a quoted section.
pub enum QueryTokenV {
    Free(Seq<char>),
    Quoted(Seq<char>),
}

impl<'a> View for QueryToken<'a> {
    type V = QueryTokenV;

    open spec fn view(&self) -> QueryTokenV {
        match self {
            QueryToken::Free(s) => QueryTokenV::Free(s@),
            QueryToken::Quoted(s) => QueryTokenV::Quoted(s@),
        }
    }
}

/// Scanner state: the char index where the current token started, in free or
/// quoted mode, or `Fused` once the input is exhausted.
#[derive(Clone, Copy, PartialEq, Eq, Structural)]
pub enum State {
    Free(usize),
    Quoted(usize),
    Fused,
}

impl State {
    fn is_quoted(&self) -> (r: bool)
        ensures
            r == (self is Quoted),
    {
        match self {
            State::Quoted(_) => true,
            _ => false,
        }
    }

    fn replace_by(&mut self, state: State) -> (r: State)
        ensures
            *final(self) == state,
            r == *old(self),
    {
        let prev = *self;
        *self = state;
        prev
    }
}

/// Whether a character counts as alphanumeric for token separation.
pub uninterp spec fn alphanumeric(c: char) -> bool;

/// Relies on char::is_alphanumeric: the answer depends on the character alone
/// (its Unicode Alphabetic or Number category).
#[verifier::external_body]
fn char_is_alphanumeric(c: char) -> (r: bool)
    ensures
        r == alphanumeric(c),
{
    c.is_alphanumeric()
}

/// One scanning step: from the characters, the state and the position,
/// the state and position after the next token is produced, and that token.
pub open spec fn next_spec(s: Seq<char>, st: State, pos: int) -> (State, int, Option<
    QueryTokenV,
>)
    decreases s.len() - pos,
{
    if pos < 0 || pos > s.len() {
        (State::Fused, pos, None)
    } else if pos == s.len() {
        match st {
            State::Free(start) => (
                State::Fused,
                pos,
                if start < s.len() {
                    Some(QueryTokenV::Free(s.subrange(start as int, s.len() as int)))
                } else {
                    None
                },
            ),
            State::Quoted(start) => (
                State::Fused,
                pos,
                Some(QueryTokenV::Quoted(s.subrange(start as int, s.len() as int))),
            ),
            State::Fused => (State::Fused, pos, None),
        }
    } else {
        let c = s[pos];
        if c == '"' {
            match st {
                State::Quoted(start) => (
                    State::Free((pos + 1) as usize),
                    pos + 1,
                    Some(QueryTokenV::Quoted(s.subrange(start as int, pos))),
                ),
                State::Free(start) => if start < pos {
                    (
                        State::Quoted((pos + 1) as usize),
                        pos + 1,
                        Some(QueryTokenV::Free(s.subrange(start as int, pos))),
                    )
                } else {
                    next_spec(s, State::Quoted((pos + 1) as usize), pos + 1)
                },
                State::Fused => (State::Free((pos + 1) as usize), pos + 1, None),
            }
        } else if !(st is Quoted) && !alphanumeric(c) {
            match st {
                State::Free(start) => if start < pos {
                    (
                        State::Free((pos + 1) as usize),
                        pos + 1,
                        Some(QueryTokenV::Free(s.subrange(start as int, pos))),
                    )
                } else {
                    next_spec(s, State::Free((pos + 1) as usize), pos + 1)
                },
                _ => next_spec(s, State::Free((pos + 1) as usize), pos + 1),
            }
        } else {
            next_spec(s, st, pos + 1)
        }
    }
}

/// Token scanner over a raw query string.
pub struct QueryTokens<'a> {
    state: State,
    string: &'a str,
    /// Characters already consumed.
    pos: usize,
    /// Character length of `string`, computed once.
    len: usize,
}

impl<'a> View for QueryTokens<'a> {
    type V = (State, Seq<char>, int);

    closed spec fn view(&self) -> (State, Seq<char>, int) {
        (self.state, self.string@, self.pos as int)
    }
}

impl<'a> QueryTokens<'a> {
    pub closed spec fn wf(&self) -> bool {
        &&& self.len == self.string@.len()
        &&& self.pos <= self.len
        &&& match self.state {
            State::Free(start) => start <= self.pos,
            State::Quoted(start) => start <= self.pos,
            State::Fused => true,
        }
    }

    pub fn new(query: &'a str) -> (r: QueryTokens<'a>)
        ensures
            r.wf(),
            r@ == (State::Free(0usize), query@, 0int),
    {
        let len = query.unicode_len();
        QueryTokens { state: State::Free(0), string: query, pos: 0, len }
    }

    /// Produces the next token, or `None` once the input is exhausted.
    #[verifier::loop_isolation(false)]
    pub fn next(&mut self) -> (r: Option<QueryToken<'a>>)
        requires
            old(self).wf(),
        ensures
            final(self).wf(),
            ({
                let (st2, pos2, tok) = next_spec(old(self)@.1, old(self)@.0, old(self)@.2);
                &&& final(self)@ == (st2, old(self)@.1, pos2)
                &&& match (r, tok) {
                    (None, None) => true,
                    (Some(t), Some(tv)) => t@ == tv,
                    _ => false,
                }
            }),
    {
        let ghost s0 = *self;
        loop
            invariant
                self.wf(),
                self.string == s0.string,
                self.len == s0.len,
                next_spec(s0.string@, s0.state, s0.pos as int) == next_spec(
                    self.string@,
                    self.state,
                    self.pos as int,
                ),
            decreases self.len - self.pos,
        {
            if self.pos >= self.len {
                let st = self.state.replace_by(State::Fused);
                match st {
                    State::Free(start) => {
                        if start < self.len {
                            return Some(QueryToken::Free(self.string.substring_char(start, self.len)));
                        } else {
                            return None;
                        }
                    },
                    State::Quoted(start) => {
                        return Some(QueryToken::Quoted(self.string.substring_char(start, self.len)));
                    },
                    State::Fused => {
                        return None;
                    },
                }
            }
            let i = self.pos;
            let c = self.string.get_char(i);
            let afteri = i + 1;
            if c == '"' {
                let st = self.state.replace_by(State::Free(afteri));
                match st {
                    State::Quoted(start) => {
                        let tok = self.string.substring_char(start, i);
                        self.pos = afteri;
                        return Some(QueryToken::Quoted(tok));
                    },
                    State::Free(start) => {
                        self.state = State::Quoted(afteri);
                        if start < i {
                            let tok = self.string.substring_char(start, i);
                            self.pos = afteri;
                            return Some(QueryToken::Free(tok));
                        } else {
                            self.pos = afteri;
                        }
                    },
                    State::Fused => {
                        self.pos = afteri;
                        return None;
                    },
                }
            } else if !self.state.is_quoted() && !char_is_alphanumeric(c) {
                match self.state.replace_by(State::Free(afteri)) {
                    State::Free(start) => {
                        if start < i {
                            let tok = self.string.substring_char(start, i);
                            self.pos = afteri;
                            return Some(QueryToken::Free(tok));
                        } else {
                            self.pos = afteri;
                        }
                    },
                    _ => {
                        self.pos = afteri;
                    },
                }
            } else {
                self.pos = afteri;
            }
        }
    }
}

} // verus!
