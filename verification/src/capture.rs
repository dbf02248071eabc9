//! The capture tree that matching produces.
use vstd::prelude::*;
use vstd::std_specs::convert::FromSpecImpl;
use crate::stream::{MacroStream, StreamView};
use crate::tokens::{Token, TokenView};

verus! {

/// A match of a `Pattern`.
///
/// The match of a sequence is the list of the matches of its patterns, with
/// the lists among them spliced in and the empty matches left out; the match
/// of a repetition is the list of the matches of its repetitions, each a list
/// of its own.
#[derive(Debug)]
pub enum Match {
    /// A single token.
    One(Token),
    /// The matches of a sequence or of a repetition, in order.
    Many(Vec<Match>),
    /// Nothing was matched, as by an optional pattern that was skipped.
    Zero,
}

/// What a [`Match`] holds.
pub enum MatchView {
    One(TokenView),
    Many(Seq<MatchView>),
    Zero,
}

/// The views of a sequence of matches, one by one.
pub open spec fn matches_view(matches: Seq<Match>) -> Seq<MatchView>
    decreases matches,
{
    if matches.len() == 0 {
        Seq::empty()
    } else {
        matches_view(matches.drop_last()).push(matches.last().view())
    }
}

/// The tokens at the leaves of a sequence of capture trees, left to right.
pub open spec fn leaves(matches: Seq<MatchView>) -> Seq<TokenView>
    decreases matches,
{
    if matches.len() == 0 {
        Seq::empty()
    } else {
        leaves(matches.drop_last()) + matches.last().tokens()
    }
}

impl MatchView {
    /// The tokens at the leaves of the capture tree, left to right.
    pub open spec fn tokens(self) -> Seq<TokenView>
        decreases self,
    {
        match self {
            MatchView::One(t) => seq![t],
            MatchView::Many(ms) => leaves(ms),
            MatchView::Zero => Seq::empty(),
        }
    }
}

impl View for Match {
    type V = MatchView;

    open spec fn view(&self) -> MatchView
        decreases self,
    {
        match self {
            Match::One(t) => MatchView::One(t@),
            Match::Many(ms) => MatchView::Many(matches_view(ms@)),
            Match::Zero => MatchView::Zero,
        }
    }
}

/// `matches_view` maps the matches one by one.
pub proof fn lemma_matches_view(matches: Seq<Match>)
    ensures
        matches_view(matches).len() == matches.len(),
        forall|i: int|
            0 <= i < matches.len() ==> (#[trigger] matches_view(matches)[i]) == matches[i]@,
    decreases matches.len(),
{
    if matches.len() > 0 {
        lemma_matches_view(matches.drop_last());
        assert(matches_view(matches) == matches_view(matches.drop_last()).push(
            matches.last().view(),
        ));
    } else {
        assert(matches_view(matches).len() == 0);
    }
}

/// The view of a list with one more match at its end.
pub proof fn lemma_matches_view_push(matches: Seq<Match>, m: Match)
    ensures
        matches_view(matches.push(m)) == matches_view(matches).push(m@),
{
    assert(matches.push(m).drop_last() =~= matches);
}

/// The view of two lists of matches, one after the other.
pub proof fn lemma_matches_view_concat(a: Seq<Match>, b: Seq<Match>)
    ensures
        matches_view(a + b) == matches_view(a) + matches_view(b),
{
    lemma_matches_view(a);
    lemma_matches_view(b);
    lemma_matches_view(a + b);
    assert(matches_view(a + b) =~= matches_view(a) + matches_view(b));
}

/// The leaves of two lists of trees, one after the other.
pub proof fn lemma_leaves_concat(a: Seq<MatchView>, b: Seq<MatchView>)
    ensures
        leaves(a + b) == leaves(a) + leaves(b),
    decreases b.len(),
{
    if b.len() == 0 {
        assert(a + b =~= a);
        assert(leaves(b) =~= Seq::empty());
        assert(leaves(a) + leaves(b) =~= leaves(a));
    } else {
        lemma_leaves_concat(a, b.drop_last());
        assert((a + b).drop_last() =~= a + b.drop_last());
        assert((a + b).last() == b.last());
        assert(leaves(a + b) == leaves(a + b.drop_last()) + b.last().tokens());
        assert(leaves(b) == leaves(b.drop_last()) + b.last().tokens());
        assert(leaves(a + b) =~= leaves(a) + leaves(b));
    }
}

impl Clone for Match {
    fn clone(&self) -> (copy: Self)
        ensures
            copy@ == self@,
        decreases self,
    {
        match self {
            Match::One(t) => Match::One(t.clone()),
            Match::Many(ms) => {
                proof {
                    assert(decreases_to!(self => ms@));
                }
                let mut copies: Vec<Match> = Vec::new();
                let n = ms.len();
                let mut i: usize = 0;
                while i < n
                    invariant
                        decreases_to!(self => ms@),
                        n == ms@.len(),
                        0 <= i <= n,
                        copies@.len() == i,
                        forall|j: int| 0 <= j < i ==> copies@[j]@ == ms@[j]@,
                    decreases n - i,
                {
                    let m = ms[i].clone();
                    copies.push(m);
                    i += 1;
                }
                proof {
                    lemma_matches_view(copies@);
                    lemma_matches_view(ms@);
                    assert(matches_view(copies@) =~= matches_view(ms@));
                }
                Match::Many(copies)
            },
            Match::Zero => Match::Zero,
        }
    }
}

impl Default for Match {
    fn default() -> (m: Self)
        ensures
            m@ == MatchView::Zero,
    {
        Match::Zero
    }
}

impl Match {
    /// Put the tokens at the leaves of the tree at the back of `stream`, left
    /// to right.
    fn append_to(self, stream: &mut MacroStream)
        ensures
            final(stream)@.tokens == old(stream)@.tokens + self@.tokens(),
            final(stream)@.popped == old(stream)@.popped,
        decreases self,
    {
        match self {
            Match::One(t) => {
                stream.push_back(t);
                proof {
                    assert(stream@.tokens =~= old(stream)@.tokens + seq![t@]);
                }
            },
            Match::Many(ms) => {
                let mut ms = ms;
                let ghost all = ms@;
                proof {
                    assert(decreases_to!(self => ms@));
                }
                let mut rest: Vec<Match> = Vec::new();
                // `rest` takes the matches last to first, so that they leave it
                // first to last.
                while ms.len() > 0
                    invariant
                        ms@.len() + rest@.len() == all.len(),
                        ms@ == all.take(ms@.len() as int),
                        forall|j: int|
                            0 <= j < rest@.len() ==> rest@[j] == all[all.len() - 1 - j],
                    decreases ms@.len(),
                {
                    let ghost before = ms@;
                    let m = ms.pop().unwrap();
                    proof {
                        assert(ms@ == before.drop_last());
                        assert(ms@ =~= all.take(ms@.len() as int));
                    }
                    rest.push(m);
                }
                let ghost n = all.len();
                while rest.len() > 0
                    invariant
                        decreases_to!(self => all),
                        n == all.len(),
                        rest@.len() <= n,
                        forall|j: int|
                            0 <= j < rest@.len() ==> rest@[j] == all[n - 1 - j],
                        stream@.popped == old(stream)@.popped,
                        stream@.tokens == old(stream)@.tokens + leaves(
                            matches_view(all.take(n - rest@.len())),
                        ),
                    decreases rest@.len(),
                {
                    let ghost k = n - rest@.len();
                    let ghost had = stream@.tokens;
                    let m = rest.pop().unwrap();
                    proof {
                        assert(m == all[k]);
                        assert(all.take(k + 1).drop_last() =~= all.take(k));
                        assert(all.take(k + 1).last() == m);
                        lemma_matches_view(all.take(k + 1));
                        lemma_matches_view(all.take(k));
                        assert(matches_view(all.take(k + 1)).drop_last() =~= matches_view(
                            all.take(k),
                        ));
                    }
                    m.append_to(stream);
                    proof {
                        assert(stream@.tokens =~= old(stream)@.tokens + leaves(
                            matches_view(all.take(k + 1)),
                        ));
                    }
                }
                proof {
                    assert(all.take(n as int) =~= all);
                }
            },
            Match::Zero => {
                proof {
                    assert(stream@.tokens =~= old(stream)@.tokens + self@.tokens());
                }
            },
        }
    }

    /// The tokens at the leaves of the tree as a stream of their own, left to
    /// right.
    pub fn into_stream(self) -> (stream: MacroStream)
        ensures
            stream@ == StreamView::of(self@.tokens()),
    {
        let mut stream = MacroStream::new();
        self.append_to(&mut stream);
        proof {
            assert(stream@.tokens =~= self@.tokens());
        }
        stream
    }

    /// The tokens of the tree as a stream, or `None` where nothing was
    /// matched.
    pub fn into_optional_stream(self) -> (stream: Option<MacroStream>)
        ensures
            match stream {
                Some(s) => !(self@ is Zero) && s@ == StreamView::of(self@.tokens()),
                None => self@ is Zero,
            },
    {
        match self {
            Match::Zero => None,
            m => Some(m.into_stream()),
        }
    }
}


impl FromSpecImpl<Match> for MacroStream {
    open spec fn obeys_from_spec() -> bool {
        false
    }

    open spec fn from_spec(m: Match) -> MacroStream {
        arbitrary()
    }
}

impl From<Match> for MacroStream {
    /// The tokens at the leaves of the tree as a stream of their own.
    fn from(m: Match) -> (stream: MacroStream)
        ensures
            stream@ == StreamView::of(m@.tokens()),
    {
        m.into_stream()
    }
}

impl FromSpecImpl<Match> for Option<MacroStream> {
    open spec fn obeys_from_spec() -> bool {
        false
    }

    open spec fn from_spec(m: Match) -> Option<MacroStream> {
        arbitrary()
    }
}

impl From<Match> for Option<MacroStream> {
    /// The tokens of the tree as a stream, or `None` where nothing was
    /// matched.
    fn from(m: Match) -> (stream: Option<MacroStream>)
        ensures
            match stream {
                Some(s) => !(m@ is Zero) && s@ == StreamView::of(m@.tokens()),
                None => m@ is Zero,
            },
    {
        m.into_optional_stream()
    }
}

} // verus!
