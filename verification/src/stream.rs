//! The token cursor: a forkable queue of tokens that counts what was taken
//! from its front.
use vstd::prelude::*;
use std::collections::VecDeque;
use vstd::std_specs::cmp::PartialEqSpecImpl;
use crate::error::{Level, ParseError, ParseErrorKind, ParseErrorKindView};
use crate::tokens::{Token, TokenView};

verus! {

/// A stream of tokens.
#[derive(Debug)]
pub struct MacroStream {
    stream: VecDeque<Token>,
    popped: usize,
}

/// What a [`MacroStream`] holds: the tokens that remain, front first, and the
/// number of tokens popped since it was made, forked or last committed to.
pub struct StreamView {
    pub tokens: Seq<TokenView>,
    pub popped: nat,
}

/// The views of the first `n` tokens of a queue.
spec fn prefix_view(queue: VecDeque<Token>, n: nat) -> Seq<TokenView>
    decreases queue, n,
{
    if n == 0 || n > queue@.len() {
        Seq::empty()
    } else {
        prefix_view(queue, (n - 1) as nat).push(queue@[n - 1].view())
    }
}

/// The views of a sequence of tokens, one by one.
pub open spec fn views(tokens: Seq<Token>) -> Seq<TokenView> {
    tokens.map_values(|t: Token| t@)
}

/// A counter that stops at the largest `usize` instead of wrapping.
pub open spec fn bump_by(n: nat, k: nat) -> nat {
    if n + k <= usize::MAX {
        n + k
    } else {
        usize::MAX as nat
    }
}

impl StreamView {
    /// The stream with no tokens and nothing popped.
    pub open spec fn empty() -> StreamView {
        StreamView { tokens: Seq::empty(), popped: 0 }
    }

    /// A fresh stream of the given tokens.
    pub open spec fn of(tokens: Seq<TokenView>) -> StreamView {
        StreamView { tokens, popped: 0 }
    }

    /// The token at the front, if there is one.
    pub open spec fn front(self) -> Option<TokenView> {
        if self.tokens.len() > 0 {
            Some(self.tokens[0])
        } else {
            None
        }
    }

    /// The stream after its first `n` tokens were popped; with fewer than `n`
    /// tokens, the stream as it is.
    pub open spec fn pop_many(self, n: nat) -> StreamView {
        if n <= self.tokens.len() {
            StreamView { tokens: self.tokens.skip(n as int), popped: bump_by(self.popped, n) }
        } else {
            self
        }
    }

    /// The stream after one token was popped; an empty stream stays as it is.
    pub open spec fn pop(self) -> StreamView {
        self.pop_many(1)
    }

    /// A copy to try something on: the same tokens, nothing popped yet.
    pub open spec fn fork(self) -> StreamView {
        StreamView { tokens: self.tokens, popped: 0 }
    }

    /// The stream after a fork was committed: what the fork has left, with the
    /// count of popped tokens starting over.
    pub open spec fn commit(self, fork: StreamView) -> StreamView {
        StreamView { tokens: fork.tokens, popped: 0 }
    }

    /// The streams hold as many tokens, and their tokens are pairwise
    /// structurally equal. How many tokens either has popped plays no part.
    pub open spec fn same_tokens(self, other: StreamView) -> bool
        decreases self, 1nat,
    {
        &&& self.tokens.len() == other.tokens.len()
        &&& forall|i: int|
            0 <= i < self.tokens.len() ==> (#[trigger] self.tokens[i]).same_as(other.tokens[i])
    }

    /// Equality of streams: the same count of popped tokens, and tokens that
    /// are pairwise structurally equal.
    pub open spec fn same_as(self, other: StreamView) -> bool {
        self.popped == other.popped && self.same_tokens(other)
    }
}

impl View for MacroStream {
    type V = StreamView;

    closed spec fn view(&self) -> StreamView
        decreases self, 0nat,
    {
        StreamView {
            tokens: prefix_view(self.stream, self.stream@.len()),
            popped: self.popped as nat,
        }
    }
}

/// `prefix_view` maps the tokens one by one.
proof fn lemma_prefix_view(queue: VecDeque<Token>, n: nat)
    requires
        n <= queue@.len(),
    ensures
        prefix_view(queue, n).len() == n,
        forall|i: int| 0 <= i < n ==> (#[trigger] prefix_view(queue, n)[i]) == queue@[i]@,
    decreases n,
{
    if n > 0 {
        lemma_prefix_view(queue, (n - 1) as nat);
        assert(prefix_view(queue, n) == prefix_view(queue, (n - 1) as nat).push(
            queue@[n - 1].view(),
        ));
    } else {
        assert(prefix_view(queue, n).len() == 0);
    }
}


/// The error of a stream that ended where a token was required.
fn end_of_input() -> (e: ParseError)
    ensures
        e@.error == ParseErrorKindView::UnexpectedEndOfInput(Seq::empty()),
        e@.level == Level::Error,
{
    let message = String::new();
    proof {
        assert(message@ =~= Seq::empty());
    }
    ParseError::call_site(ParseErrorKind::UnexpectedEndOfInput(message))
}

impl MacroStream {
    /// The tokens of the queue are the tokens of the view, one by one.
    proof fn lemma_view(&self)
        ensures
            self@.popped == self.popped,
            self@.tokens.len() == self.stream@.len(),
            forall|i: int|
                0 <= i < self.stream@.len() ==> (#[trigger] self@.tokens[i]) == self.stream@[i]@,
    {
        lemma_prefix_view(self.stream, self.stream@.len());
    }

    /// Create a new empty `MacroStream`.
    pub fn new() -> (s: Self)
        ensures
            s@ == StreamView::empty(),
    {
        let s = MacroStream { stream: VecDeque::new(), popped: 0 };
        proof {
            s.lemma_view();
            assert(s@.tokens =~= Seq::empty());
        }
        s
    }

    /// Determine how many tokens have been popped from the stream since it was
    /// made, forked or last committed to.
    pub fn popped(&self) -> (n: usize)
        ensures
            n == self@.popped,
    {
        self.popped
    }

    /// A stream of the given tokens, first to last.
    pub fn from_vec(tokens: Vec<Token>) -> (s: Self)
        ensures
            s@ == StreamView::of(views(tokens@)),
    {
        let mut tokens = tokens;
        let ghost all = tokens@;
        let mut stream: VecDeque<Token> = VecDeque::new();
        while tokens.len() > 0
            invariant
                tokens@.len() <= all.len(),
                tokens@ == all.take(tokens@.len() as int),
                stream@ == all.skip(tokens@.len() as int),
            decreases tokens@.len(),
        {
            let ghost before = tokens@;
            let t = tokens.pop().unwrap();
            proof {
                assert(tokens@ == before.drop_last());
                assert(tokens@ =~= all.take(tokens@.len() as int));
                assert(seq![t] + all.skip(before.len() as int) =~= all.skip(tokens@.len() as int));
            }
            stream.push_front(t);
        }
        let s = MacroStream { stream, popped: 0 };
        proof {
            s.lemma_view();
            assert(s.stream@ =~= all);
            assert(s@.tokens =~= views(all));
        }
        s
    }

    /// Pop a token from the stream.
    pub fn pop(&mut self) -> (t: Option<Token>)
        ensures
            final(self)@ == old(self)@.pop(),
            match t {
                Some(t) => old(self)@.front() == Some(t@),
                None => old(self)@.front() is None,
            },
    {
        proof {
            self.lemma_view();
        }
        let t = self.stream.pop_front();
        if t.is_some() {
            if self.popped < usize::MAX {
                self.popped += 1;
            }
        }
        proof {
            self.lemma_view();
            assert(self@.tokens =~= old(self)@.pop().tokens);
        }
        t
    }

    /// Peek at the next token in the stream.
    pub fn peek(&self) -> (t: Option<&Token>)
        ensures
            match t {
                Some(t) => self@.front() == Some(t@),
                None => self@.front() is None,
            },
    {
        self.peek_at(0)
    }

    /// Peek at the token at the given index in the stream.
    pub fn peek_at(&self, i: usize) -> (t: Option<&Token>)
        ensures
            match t {
                Some(t) => i < self@.tokens.len() && self@.tokens[i as int] == t@,
                None => i >= self@.tokens.len(),
            },
    {
        proof {
            self.lemma_view();
        }
        if i < self.stream.len() {
            Some(&self.stream[i])
        } else {
            None
        }
    }

    /// Pop a token from the stream, or return an error if the stream is empty.
    /// The error points at the span of the current macro invocation.
    pub fn pop_or_err(&mut self) -> (t: Result<Token, ParseError>)
        ensures
            final(self)@ == old(self)@.pop(),
            match t {
                Ok(t) => old(self)@.front() == Some(t@),
                Err(e) => {
                    &&& old(self)@.front() is None
                    &&& e@.error == ParseErrorKindView::UnexpectedEndOfInput(Seq::empty())
                    &&& e@.level == Level::Error
                },
            },
    {
        match self.pop() {
            Some(t) => Ok(t),
            None => Err(end_of_input()),
        }
    }

    /// Peek at the next token in the stream, or return an error if the stream
    /// is empty. The error points at the span of the current macro invocation.
    pub fn peek_or_err(&self) -> (t: Result<&Token, ParseError>)
        ensures
            match t {
                Ok(t) => self@.front() == Some(t@),
                Err(e) => {
                    &&& self@.front() is None
                    &&& e@.error == ParseErrorKindView::UnexpectedEndOfInput(Seq::empty())
                    &&& e@.level == Level::Error
                },
            },
    {
        match self.peek() {
            Some(t) => Ok(t),
            None => Err(end_of_input()),
        }
    }

    /// Determine if the stream is empty.
    pub fn is_empty(&self) -> (b: bool)
        ensures
            b == (self@.tokens.len() == 0),
    {
        proof {
            self.lemma_view();
        }
        self.stream.len() == 0
    }

    /// Push a token to the front of the stream.
    pub fn push_front(&mut self, token: Token)
        ensures
            final(self)@.tokens == seq![token@] + old(self)@.tokens,
            final(self)@.popped == old(self)@.popped,
    {
        proof {
            self.lemma_view();
        }
        self.stream.push_front(token);
        proof {
            self.lemma_view();
            assert(self@.tokens =~= seq![token@] + old(self)@.tokens);
        }
    }

    /// Push a token to the back of the stream.
    pub fn push_back(&mut self, token: Token)
        ensures
            final(self)@.tokens == old(self)@.tokens.push(token@),
            final(self)@.popped == old(self)@.popped,
    {
        proof {
            self.lemma_view();
        }
        self.stream.push_back(token);
        proof {
            self.lemma_view();
            assert(self@.tokens =~= old(self)@.tokens.push(token@));
        }
    }

    /// Get the length of the stream.
    pub fn len(&self) -> (n: usize)
        ensures
            n == self@.tokens.len(),
    {
        proof {
            self.lemma_view();
        }
        self.stream.len()
    }

    /// Fork the stream (clone the stream and reset the popped count).
    pub fn fork(&self) -> (fork: Self)
        ensures
            fork@ == self@.fork(),
        decreases self, 0nat,
    {
        let mut stream: VecDeque<Token> = VecDeque::new();
        let n = self.stream.len();
        let mut i: usize = 0;
        while i < n
            invariant
                n == self.stream@.len(),
                0 <= i <= n,
                stream@.len() == i,
                forall|j: int| 0 <= j < i ==> stream@[j]@ == self.stream@[j]@,
            decreases n - i,
        {
            let t = self.stream[i].clone();
            stream.push_back(t);
            i += 1;
        }
        let fork = MacroStream { stream, popped: 0 };
        proof {
            fork.lemma_view();
            self.lemma_view();
            assert(fork@.tokens =~= self@.tokens);
        }
        fork
    }

    /// Commit a fork: the stream takes over what the fork has left, and the
    /// count of popped tokens starts over.
    pub fn unfork(&mut self, other: Self)
        ensures
            final(self)@ == old(self)@.commit(other@),
    {
        proof {
            other.lemma_view();
        }
        self.stream = other.stream;
        self.popped = 0;
        proof {
            self.lemma_view();
            assert(self@.tokens =~= other@.tokens);
        }
    }

    /// Pop a number of tokens from the stream.
    pub fn pop_many(&mut self, p: usize)
        requires
            p <= old(self)@.tokens.len(),
        ensures
            final(self)@ == old(self)@.pop_many(p as nat),
    {
        let mut i: usize = 0;
        proof {
            assert(self@.tokens =~= old(self)@.pop_many(0).tokens);
        }
        while i < p
            invariant
                0 <= i <= p,
                p <= old(self)@.tokens.len(),
                self@ == old(self)@.pop_many(i as nat),
            decreases p - i,
        {
            let ghost before = self@;
            let _ = self.pop();
            i += 1;
            proof {
                assert(before.pop().tokens =~= old(self)@.pop_many(i as nat).tokens);
            }
        }
    }

    /// Take the first `p` tokens off the stream and hand them back as a stream
    /// of their own: what a fork that popped `p` tokens has consumed.
    pub fn popped_off_fork(&mut self, p: usize) -> (taken: Self)
        requires
            p <= old(self)@.tokens.len(),
        ensures
            final(self)@ == old(self)@.pop_many(p as nat),
            taken@ == StreamView::of(old(self)@.tokens.take(p as int)),
    {
        let mut taken = MacroStream::new();
        let mut i: usize = 0;
        proof {
            assert(self@.tokens =~= old(self)@.pop_many(0).tokens);
            assert(taken@.tokens =~= old(self)@.tokens.take(0));
        }
        while i < p
            invariant
                0 <= i <= p,
                p <= old(self)@.tokens.len(),
                self@ == old(self)@.pop_many(i as nat),
                taken@ == StreamView::of(old(self)@.tokens.take(i as int)),
            decreases p - i,
        {
            let ghost before = self@;
            let ghost had = taken@;
            match self.pop() {
                Some(t) => {
                    taken.push_back(t);
                },
                None => {},
            }
            i += 1;
            proof {
                assert(before.pop().tokens =~= old(self)@.pop_many(i as nat).tokens);
                assert(taken@.tokens =~= old(self)@.tokens.take(i as int));
            }
        }
        taken
    }

    /// Move the tokens of `other` to the back of the stream.
    pub fn append(&mut self, other: Self)
        ensures
            final(self)@.tokens == old(self)@.tokens + other@.tokens,
            final(self)@.popped == old(self)@.popped,
    {
        let ghost added = other@.tokens;
        let mut other = other;
        proof {
            self.lemma_view();
            other.lemma_view();
        }
        self.stream.append(&mut other.stream);
        proof {
            self.lemma_view();
            assert(self@.tokens =~= old(self)@.tokens + added);
        }
    }
}

impl MacroStream {
    /// Whether the streams hold as many tokens and their tokens are pairwise
    /// structurally equal, decided token by token.
    pub(crate) fn same_tokens(&self, other: &MacroStream) -> (same: bool)
        ensures
            same == self@.same_tokens(other@),
        decreases self, 1nat,
    {
        proof {
            self.lemma_view();
            other.lemma_view();
        }
        if self.stream.len() != other.stream.len() {
            return false;
        }
        let n = self.stream.len();
        let mut i: usize = 0;
        while i < n
            invariant
                n == self.stream@.len(),
                n == other.stream@.len(),
                n == self@.tokens.len(),
                n == other@.tokens.len(),
                0 <= i <= n,
                forall|j: int|
                    0 <= j < self.stream@.len() ==> (#[trigger] self@.tokens[j])
                        == self.stream@[j]@,
                forall|j: int|
                    0 <= j < other.stream@.len() ==> (#[trigger] other@.tokens[j])
                        == other.stream@[j]@,
                forall|j: int|
                    0 <= j < i ==> (#[trigger] self@.tokens[j]).same_as(other@.tokens[j]),
            decreases n - i,
        {
            if !self.stream[i].same_as(&other.stream[i]) {
                proof {
                    assert(!self@.tokens[i as int].same_as(other@.tokens[i as int]));
                }
                return false;
            }
            i += 1;
        }
        true
    }

    /// Equality of streams: the count of popped tokens, then the tokens.
    pub(crate) fn same_as(&self, other: &MacroStream) -> (same: bool)
        ensures
            same == self@.same_as(other@),
    {
        proof {
            self.lemma_view();
            other.lemma_view();
        }
        self.popped == other.popped && self.same_tokens(other)
    }
}

impl PartialEqSpecImpl for MacroStream {
    open spec fn obeys_eq_spec() -> bool {
        true
    }

    open spec fn eq_spec(&self, other: &MacroStream) -> bool {
        self@.same_as(other@)
    }
}

impl PartialEq for MacroStream {
    /// Two streams are equal when they have popped as many tokens and hold
    /// structurally equal tokens in the same order.
    fn eq(&self, other: &MacroStream) -> (same: bool) {
        self.same_as(other)
    }
}

impl Eq for MacroStream {}

impl Clone for MacroStream {
    fn clone(&self) -> (copy: Self)
        ensures
            copy@ == self@,
        decreases self, 1nat,
    {
        let mut copy = self.fork();
        copy.popped = self.popped;
        proof {
            copy.lemma_view();
            self.lemma_view();
            assert(copy@.tokens =~= self@.tokens);
        }
        copy
    }
}

impl Default for MacroStream {
    fn default() -> (s: Self)
        ensures
            s@ == StreamView::empty(),
    {
        MacroStream::new()
    }
}

} // verus!
