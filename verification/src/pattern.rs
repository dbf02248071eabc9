//! The pattern tree: what a grammar is made of, what it binds, and whether it
//! can be matched.
use vstd::prelude::*;
use proc_macro2::Span;
use crate::capture::{Match, MatchView};
use crate::error::{MacrosError, MacrosErrorView, ParseError, ParseErrorKind, ParseErrorKindView};
use crate::span::call_site;
use crate::stream::{MacroStream, StreamView};
use crate::tokens::{Delimiter, Token, TokenView};

verus! {

/// What a call of `set_match` or of a validator hands back, as a view.
pub open spec fn unit_result_view(r: Result<(), MacrosError>) -> Result<(), MacrosErrorView> {
    match r {
        Ok(()) => Ok(()),
        Err(e) => Err(e@),
    }
}

/// What a validator's verdict holds.
pub open spec fn verdict_view(r: Result<(), String>) -> Result<(), Seq<char>> {
    match r {
        Ok(()) => Ok(()),
        Err(e) => Err(e@),
    }
}

/// The trait for the output of a parser: the place where the named captures
/// of a grammar go.
pub trait ParserOutput: Sized {
    /// The predicates that a grammar for this output can hold in its
    /// `Validator` nodes.
    type Validator;

    /// Whether `set_match` and `validate` do what `set_match_spec` and
    /// `validate_spec` say. An implementation that does not say so is bound
    /// to nothing.
    open spec fn obeys_spec() -> bool {
        false
    }

    /// What `set_match` answers, and the output it leaves behind.
    open spec fn set_match_spec(self, k: Seq<char>, m: MatchView) -> (
        Result<(), MacrosErrorView>,
        Self,
    ) {
        arbitrary()
    }

    /// What `validate` answers, and the output it hands back.
    open spec fn validate_spec(self, validator: Self::Validator, m: MatchView) -> (
        Result<(), Seq<char>>,
        Self,
    ) {
        arbitrary()
    }

    /// Bind the capture `m` to the name `k`.
    fn set_match(&mut self, k: &str, m: Match) -> (r: Result<(), MacrosError>)
        ensures
            Self::obeys_spec() ==> (unit_result_view(r), *final(self)) == old(self).set_match_spec(
                k@,
                m@,
            ),
    ;

    /// The name of the parser.
    fn name() -> &'static str;

    /// Ask `validator` whether the capture `m` is acceptable, given the output
    /// so far. The output comes back, possibly changed, with the verdict.
    fn validate(self, validator: &Self::Validator, m: &Match) -> (r: (Result<(), String>, Self))
        ensures
            Self::obeys_spec() ==> (verdict_view(r.0), r.1) == self.validate_spec(*validator, m@),
    ;
}

/// A pattern to match against a `MacroStream`.
///
/// In the textual form of a grammar:
/// - `{...}?` is an optional pattern;
/// - `{... : name : type}@` binds what the pattern matched to the parameter `name`;
/// - `{...}*` is zero or more, not greedy: it repeats until the next pattern matches;
/// - `{...}**` is zero or more, greedy: it repeats as long as it can;
/// - `{...}+` and `{...}++` are one or more, not greedy and greedy;
/// - `{... | ... | ...}&` is a choice, tried in the order written;
/// - `{}$` is any one token;
/// - `{...}=` is a validator for the pattern before it;
/// - `{{...}}` is a group in braces to match;
/// - `~` before one of the endings makes a token to match of it, `~~` of the
///   tilde;
/// - anything else is a token to match exactly.
pub enum Pattern<T: ParserOutput> {
    Optional(Vec<Pattern<T>>),
    /// The pattern, the name it binds, and the tokens of the parameter's type.
    Parameter(Vec<Pattern<T>>, String, MacroStream),
    /// The pattern, and whether it is greedy.
    ZeroOrMore(Vec<Pattern<T>>, bool),
    /// The pattern, and whether it is greedy.
    OneOrMore(Vec<Pattern<T>>, bool),
    Choice(Vec<Vec<Pattern<T>>>),
    Token(Token),
    Group(Delimiter, Vec<Pattern<T>>),
    Any,
    /// The tokens the validator was written as, and the predicate itself.
    Validator(Option<MacroStream>, Option<T::Validator>),
}

/// What a [`Pattern`] holds.
pub enum PatternView<T: ParserOutput> {
    Optional(Seq<PatternView<T>>),
    Parameter(Seq<PatternView<T>>, Seq<char>, StreamView),
    ZeroOrMore(Seq<PatternView<T>>, bool),
    OneOrMore(Seq<PatternView<T>>, bool),
    Choice(Seq<Seq<PatternView<T>>>),
    Token(TokenView),
    Group(Delimiter, Seq<PatternView<T>>),
    Any,
    Validator(Option<StreamView>, Option<T::Validator>),
}

/// The views of a sequence of patterns, one by one.
pub open spec fn patterns_view<T: ParserOutput>(patterns: Seq<Pattern<T>>) -> Seq<PatternView<T>>
    decreases patterns,
{
    if patterns.len() == 0 {
        Seq::empty()
    } else {
        patterns_view(patterns.drop_last()).push(patterns.last().view())
    }
}

/// The views of the alternatives of a choice, one by one.
pub open spec fn alternatives_view<T: ParserOutput>(alternatives: Seq<Vec<Pattern<T>>>) -> Seq<
    Seq<PatternView<T>>,
>
    decreases alternatives,
{
    if alternatives.len() == 0 {
        Seq::empty()
    } else {
        alternatives_view(alternatives.drop_last()).push(patterns_view(alternatives.last()@))
    }
}

/// The view of a stream that may be absent.
pub open spec fn optional_stream_view(stream: Option<MacroStream>) -> Option<StreamView> {
    match stream {
        Some(s) => Some(s@),
        None => None,
    }
}

impl<T: ParserOutput> View for Pattern<T> {
    type V = PatternView<T>;

    open spec fn view(&self) -> PatternView<T>
        decreases self,
    {
        match self {
            Pattern::Optional(body) => PatternView::Optional(patterns_view(body@)),
            Pattern::Parameter(body, name, type_) => PatternView::Parameter(
                patterns_view(body@),
                name@,
                type_@,
            ),
            Pattern::ZeroOrMore(body, greedy) => PatternView::ZeroOrMore(
                patterns_view(body@),
                *greedy,
            ),
            Pattern::OneOrMore(body, greedy) => PatternView::OneOrMore(
                patterns_view(body@),
                *greedy,
            ),
            Pattern::Choice(alternatives) => PatternView::Choice(alternatives_view(alternatives@)),
            Pattern::Token(token) => PatternView::Token(token@),
            Pattern::Group(delimiter, body) => PatternView::Group(
                *delimiter,
                patterns_view(body@),
            ),
            Pattern::Any => PatternView::Any,
            Pattern::Validator(stream, predicate) => PatternView::Validator(
                optional_stream_view(*stream),
                *predicate,
            ),
        }
    }
}

/// `patterns_view` maps the patterns one by one.
pub proof fn lemma_patterns_view<T: ParserOutput>(patterns: Seq<Pattern<T>>)
    ensures
        patterns_view(patterns).len() == patterns.len(),
        forall|i: int|
            0 <= i < patterns.len() ==> (#[trigger] patterns_view(patterns)[i]) == patterns[i]@,
    decreases patterns.len(),
{
    if patterns.len() > 0 {
        lemma_patterns_view(patterns.drop_last());
        assert(patterns_view(patterns) == patterns_view(patterns.drop_last()).push(
            patterns.last().view(),
        ));
    } else {
        assert(patterns_view(patterns).len() == 0);
    }
}

/// `alternatives_view` maps the alternatives one by one.
pub proof fn lemma_alternatives_view<T: ParserOutput>(alternatives: Seq<Vec<Pattern<T>>>)
    ensures
        alternatives_view(alternatives).len() == alternatives.len(),
        forall|i: int|
            0 <= i < alternatives.len() ==> (#[trigger] alternatives_view(alternatives)[i])
                == patterns_view(alternatives[i]@),
    decreases alternatives.len(),
{
    if alternatives.len() > 0 {
        lemma_alternatives_view(alternatives.drop_last());
        assert(alternatives_view(alternatives) == alternatives_view(
            alternatives.drop_last(),
        ).push(patterns_view(alternatives.last()@)));
    } else {
        assert(alternatives_view(alternatives).len() == 0);
    }
}

/// The view of a pattern that may be absent.
pub open spec fn optional_view<T: ParserOutput>(pattern: Option<&Pattern<T>>) -> Option<
    PatternView<T>,
> {
    match pattern {
        Some(p) => Some(p@),
        None => None,
    }
}

/// The pattern at `i`, if the sequence is that long.
pub open spec fn pattern_at<T: ParserOutput>(patterns: Seq<PatternView<T>>, i: int) -> Option<
    PatternView<T>,
> {
    if 0 <= i < patterns.len() {
        Some(patterns[i])
    } else {
        None
    }
}

/// The size of the sequence from `from` on: the sum of the sizes of its patterns.
pub open spec fn tail_size<T: ParserOutput>(patterns: Seq<PatternView<T>>, from: int) -> nat
    decreases patterns, patterns.len() - from,
{
    if 0 <= from < patterns.len() {
        patterns[from].size() + tail_size(patterns, from + 1)
    } else {
        0
    }
}

/// The size of the alternatives from `from` on.
pub open spec fn alternatives_size<T: ParserOutput>(
    alternatives: Seq<Seq<PatternView<T>>>,
    from: int,
) -> nat
    decreases alternatives, alternatives.len() - from,
{
    if 0 <= from < alternatives.len() {
        1 + tail_size(alternatives[from], 0) + alternatives_size(alternatives, from + 1)
    } else {
        0
    }
}

/// The size of a pattern that may be absent.
pub open spec fn optional_size<T: ParserOutput>(pattern: Option<PatternView<T>>) -> nat {
    match pattern {
        Some(p) => p.size(),
        None => 0,
    }
}

/// A sequence takes a token whenever it matches: one of its patterns does.
pub open spec fn sequence_consuming<T: ParserOutput>(patterns: Seq<PatternView<T>>) -> bool
    decreases patterns, 1nat,
{
    exists|i: int| 0 <= i < patterns.len() && (#[trigger] patterns[i]).consuming()
}

/// The patterns at `i` and after it are both validators.
pub open spec fn validator_pair<T: ParserOutput>(patterns: Seq<PatternView<T>>, i: int) -> bool {
    &&& 0 <= i < patterns.len() - 1
    &&& patterns[i] is Validator
    &&& patterns[i + 1] is Validator
}

/// No validator stands first in the sequence, and none follows another.
pub open spec fn validators_placed<T: ParserOutput>(patterns: Seq<PatternView<T>>) -> bool {
    &&& patterns.len() > 0 ==> !(patterns[0] is Validator)
    &&& forall|i: int| !#[trigger] validator_pair(patterns, i)
}

/// A sequence is well formed when its validators are placed as they may be and
/// each of its patterns is well formed.
pub open spec fn sequence_well_formed<T: ParserOutput>(patterns: Seq<PatternView<T>>) -> bool
    decreases patterns, 1nat,
{
    &&& validators_placed(patterns)
    &&& forall|i: int| 0 <= i < patterns.len() ==> (#[trigger] patterns[i]).well_formed()
}

/// No validator in the sequence holds a predicate.
pub open spec fn sequence_unjudged<T: ParserOutput>(patterns: Seq<PatternView<T>>) -> bool
    decreases patterns, 1nat,
{
    forall|i: int| 0 <= i < patterns.len() ==> (#[trigger] patterns[i]).unjudged()
}

/// The pattern, if there is one, is not judged by a validator.
pub open spec fn optional_unjudged<T: ParserOutput>(pattern: Option<PatternView<T>>) -> bool {
    match pattern {
        Some(p) => p.unjudged(),
        None => true,
    }
}

/// No pattern of the sequence asks anything of the output.
pub open spec fn sequence_capture_free<T: ParserOutput>(patterns: Seq<PatternView<T>>) -> bool
    decreases patterns, 1nat,
{
    forall|i: int| 0 <= i < patterns.len() ==> (#[trigger] patterns[i]).capture_free()
}

/// The pattern, if there is one, asks nothing of the output.
pub open spec fn optional_capture_free<T: ParserOutput>(pattern: Option<PatternView<T>>) -> bool {
    match pattern {
        Some(p) => p.capture_free(),
        None => true,
    }
}

/// No pattern of the sequence matches a delimited group.
pub open spec fn sequence_group_free<T: ParserOutput>(patterns: Seq<PatternView<T>>) -> bool
    decreases patterns, 1nat,
{
    forall|i: int| 0 <= i < patterns.len() ==> (#[trigger] patterns[i]).group_free()
}

impl<T: ParserOutput> PatternView<T> {
    /// Neither the pattern nor a pattern in it matches a delimited group.
    pub open spec fn group_free(self) -> bool
        decreases self, 0nat,
    {
        match self {
            PatternView::Group(_, _) => false,
            PatternView::Optional(body) => sequence_group_free(body),
            PatternView::Parameter(body, _, _) => sequence_group_free(body),
            PatternView::ZeroOrMore(body, _) => sequence_group_free(body),
            PatternView::OneOrMore(body, _) => sequence_group_free(body),
            PatternView::Choice(alternatives) => forall|i: int|
                0 <= i < alternatives.len() ==> sequence_group_free(#[trigger] alternatives[i]),
            _ => true,
        }
    }

    /// Matching the pattern asks nothing of the output: no parameter is bound
    /// in it and no validator in it holds a predicate.
    pub open spec fn capture_free(self) -> bool
        decreases self, 0nat,
    {
        match self {
            PatternView::Parameter(_, _, _) => false,
            PatternView::Validator(_, Some(_)) => false,
            PatternView::Group(_, body) => sequence_capture_free(body),
            PatternView::Optional(body) => sequence_capture_free(body),
            PatternView::ZeroOrMore(body, _) => sequence_capture_free(body),
            PatternView::OneOrMore(body, _) => sequence_capture_free(body),
            PatternView::Choice(alternatives) => forall|i: int|
                0 <= i < alternatives.len() ==> sequence_capture_free(#[trigger] alternatives[i]),
            _ => true,
        }
    }

    /// Neither the pattern nor a pattern in it is a validator that holds a
    /// predicate.
    pub open spec fn unjudged(self) -> bool
        decreases self, 0nat,
    {
        match self {
            PatternView::Validator(_, Some(_)) => false,
            PatternView::Group(_, body) => sequence_unjudged(body),
            PatternView::Optional(body) => sequence_unjudged(body),
            PatternView::Parameter(body, _, _) => sequence_unjudged(body),
            PatternView::ZeroOrMore(body, _) => sequence_unjudged(body),
            PatternView::OneOrMore(body, _) => sequence_unjudged(body),
            PatternView::Choice(alternatives) => forall|i: int|
                0 <= i < alternatives.len() ==> sequence_unjudged(#[trigger] alternatives[i]),
            _ => true,
        }
    }

    /// The pattern is a validator that holds a predicate.
    pub open spec fn validates(self) -> bool {
        self matches PatternView::Validator(_, Some(_))
    }

    /// A measure of the pattern that is larger than that of any sequence in it.
    pub open spec fn size(self) -> nat
        decreases self, 0nat,
    {
        match self {
            PatternView::Optional(body) => 3 + tail_size(body, 0),
            PatternView::Parameter(body, _, _) => 3 + tail_size(body, 0),
            PatternView::ZeroOrMore(body, _) => 3 + tail_size(body, 0),
            PatternView::OneOrMore(body, _) => 3 + tail_size(body, 0),
            PatternView::Choice(alternatives) => 3 + alternatives_size(alternatives, 0),
            PatternView::Group(_, body) => 3 + tail_size(body, 0),
            _ => 1,
        }
    }

    /// The pattern takes at least one token whenever it matches. Validators,
    /// which match nothing, are not consuming.
    pub open spec fn consuming(self) -> bool
        decreases self, 0nat,
    {
        match self {
            PatternView::Any => true,
            PatternView::Token(_) => true,
            PatternView::Group(_, _) => true,
            PatternView::OneOrMore(body, _) => sequence_consuming(body),
            PatternView::Parameter(body, _, _) => sequence_consuming(body),
            PatternView::Choice(alternatives) => forall|i: int|
                0 <= i < alternatives.len() ==> sequence_consuming(#[trigger] alternatives[i]),
            _ => false,
        }
    }

    /// The pattern can be matched: in every sequence in it, no validator
    /// stands first and none follows another.
    pub open spec fn well_formed(self) -> bool
        decreases self, 0nat,
    {
        match self {
            PatternView::Optional(body) => sequence_well_formed(body),
            PatternView::Parameter(body, _, _) => sequence_well_formed(body),
            PatternView::ZeroOrMore(body, _) => sequence_well_formed(body),
            PatternView::OneOrMore(body, _) => sequence_well_formed(body),
            PatternView::Choice(alternatives) => forall|i: int|
                0 <= i < alternatives.len() ==> sequence_well_formed(#[trigger] alternatives[i]),
            PatternView::Group(_, body) => sequence_well_formed(body),
            _ => true,
        }
    }
}

/// The size of a sequence from a later pattern on is no more than its size
/// from its first pattern on.
pub proof fn lemma_tail_size_from<T: ParserOutput>(patterns: Seq<PatternView<T>>, i: int)
    requires
        0 <= i,
    ensures
        tail_size(patterns, i) <= tail_size(patterns, 0),
    decreases i,
{
    if i > 0 {
        lemma_tail_size_from(patterns, i - 1);
        assert(tail_size(patterns, i - 1) >= tail_size(patterns, i));
    }
}

/// The size of the alternatives covers each alternative.
pub proof fn lemma_alternatives_size_covers<T: ParserOutput>(
    alternatives: Seq<Seq<PatternView<T>>>,
    i: int,
)
    requires
        0 <= i < alternatives.len(),
    ensures
        tail_size(alternatives[i], 0) + 1 <= alternatives_size(alternatives, 0),
{
    lemma_alternatives_size_from(alternatives, i);
    assert(alternatives_size(alternatives, i) == 1 + tail_size(alternatives[i], 0)
        + alternatives_size(alternatives, i + 1));
}

/// The size of the alternatives from a later one on is no more than their
/// size from the first on.
pub proof fn lemma_alternatives_size_from<T: ParserOutput>(
    alternatives: Seq<Seq<PatternView<T>>>,
    i: int,
)
    requires
        0 <= i,
    ensures
        alternatives_size(alternatives, i) <= alternatives_size(alternatives, 0),
    decreases i,
{
    if i > 0 {
        lemma_alternatives_size_from(alternatives, i - 1);
        assert(alternatives_size(alternatives, i - 1) >= alternatives_size(alternatives, i));
    }
}


/// The size of a sequence covers each of its patterns.
pub proof fn lemma_tail_size_element<T: ParserOutput>(patterns: Seq<PatternView<T>>, i: int)
    requires
        0 <= i < patterns.len(),
    ensures
        patterns[i].size() <= tail_size(patterns, 0),
{
    lemma_tail_size_from(patterns, i);
    assert(tail_size(patterns, i) == patterns[i].size() + tail_size(patterns, i + 1));
}

impl<T: ParserOutput> Pattern<T> {
    /// Whether the pattern can be matched: in every sequence in it no
    /// validator stands first or follows another.
    pub fn is_well_formed(&self) -> (b: bool)
        ensures
            b == self@.well_formed(),
        decreases self@.size(), 0nat,
    {
        match self {
            Pattern::Optional(body) => Self::all_well_formed(body.as_slice()),
            Pattern::Parameter(body, _, _) => Self::all_well_formed(body.as_slice()),
            Pattern::ZeroOrMore(body, _) => Self::all_well_formed(body.as_slice()),
            Pattern::OneOrMore(body, _) => Self::all_well_formed(body.as_slice()),
            Pattern::Group(_, body) => Self::all_well_formed(body.as_slice()),
            Pattern::Choice(alternatives) => {
                let ghost views = alternatives_view(alternatives@);
                proof {
                    lemma_alternatives_view(alternatives@);
                }
                let n = alternatives.len();
                let mut i: usize = 0;
                while i < n
                    invariant
                        n == alternatives@.len(),
                        0 <= i <= n,
                        self@ == PatternView::<T>::Choice(views),
                        views == alternatives_view(alternatives@),
                        views.len() == n,
                        forall|j: int|
                            0 <= j < n ==> (#[trigger] views[j]) == patterns_view(
                                alternatives@[j]@,
                            ),
                        forall|j: int| 0 <= j < i ==> sequence_well_formed(#[trigger] views[j]),
                    decreases n - i,
                {
                    proof {
                        lemma_alternatives_size_covers(views, i as int);
                    }
                    if !Self::all_well_formed(alternatives[i].as_slice()) {
                        proof {
                            assert(!sequence_well_formed(views[i as int]));
                        }
                        return false;
                    }
                    i += 1;
                }
                true
            },
            _ => true,
        }
    }

    /// Whether no validator stands first in the sequence or follows another.
    pub fn validators_placed(patterns: &[Pattern<T>]) -> (b: bool)
        ensures
            b == validators_placed(patterns_view(patterns@)),
    {
        let ghost views = patterns_view(patterns@);
        proof {
            lemma_patterns_view(patterns@);
        }
        let n = patterns.len();
        let mut after_validator = true;
        let mut i: usize = 0;
        while i < n
            invariant
                n == patterns@.len(),
                0 <= i <= n,
                views == patterns_view(patterns@),
                views.len() == n,
                forall|j: int| 0 <= j < n ==> (#[trigger] views[j]) == patterns@[j]@,
                after_validator == (i == 0 || views[i - 1] is Validator),
                i > 0 ==> !(views[0] is Validator),
                forall|j: int| 0 <= j < i - 1 ==> !#[trigger] validator_pair(views, j),
            decreases n - i,
        {
            let is_validator = match &patterns[i] {
                Pattern::Validator(_, _) => true,
                _ => false,
            };
            proof {
                assert(is_validator == (views[i as int] is Validator));
            }
            if is_validator && after_validator {
                proof {
                    if i > 0 {
                        assert(validator_pair(views, i - 1));
                    }
                }
                return false;
            }
            after_validator = is_validator;
            i += 1;
        }
        proof {
            assert forall|j: int| !#[trigger] validator_pair(views, j) by {
                if 0 <= j < n - 1 {
                }
            }
        }
        true
    }

    /// Whether the sequence can be matched: its validators are placed as they
    /// may be and each of its patterns is well formed.
    pub fn all_well_formed(patterns: &[Pattern<T>]) -> (b: bool)
        ensures
            b == sequence_well_formed(patterns_view(patterns@)),
        decreases tail_size(patterns_view(patterns@), 0) + 1, 0nat,
    {
        if !Self::validators_placed(patterns) {
            return false;
        }
        let ghost views = patterns_view(patterns@);
        proof {
            lemma_patterns_view(patterns@);
        }
        let n = patterns.len();
        let mut i: usize = 0;
        while i < n
            invariant
                n == patterns@.len(),
                0 <= i <= n,
                views == patterns_view(patterns@),
                views.len() == n,
                validators_placed(views),
                forall|j: int| 0 <= j < n ==> (#[trigger] views[j]) == patterns@[j]@,
                forall|j: int| 0 <= j < i ==> (#[trigger] views[j]).well_formed(),
            decreases n - i,
        {
            proof {
                lemma_tail_size_element(views, i as int);
            }
            if !patterns[i].is_well_formed() {
                proof {
                    assert(!views[i as int].well_formed());
                }
                return false;
            }
            i += 1;
        }
        true
    }
}

/// A grammar: the patterns to match, one after the other.
pub struct ParserInput<T: ParserOutput> {
    pub patterns: Vec<Pattern<T>>,
}

impl<T: ParserOutput> ParserInput<T> {
    /// A grammar of the given patterns, which is then one that can be
    /// matched. A validator that stands first in a sequence, or after another
    /// validator, is refused, at `site`.
    pub fn new_at(patterns: Vec<Pattern<T>>, site: Span) -> (r: Result<Self, MacrosError>)
        ensures
            match r {
                Ok(grammar) => sequence_well_formed(patterns_view(patterns@)) && grammar.patterns
                    == patterns,
                Err(e) => !sequence_well_formed(patterns_view(patterns@)) && e@
                    == MacrosErrorView::at(site, ParseErrorKindView::InvalidValidatorPosition),
            },
    {
        if Pattern::all_well_formed(patterns.as_slice()) {
            Ok(ParserInput { patterns })
        } else {
            Err(
                MacrosError::Parse(
                    ParseError::new(site, ParseErrorKind::InvalidValidatorPosition),
                ),
            )
        }
    }

    /// A grammar of the given patterns. A validator that stands first in a
    /// sequence, or after another validator, is refused, at the span of the
    /// current macro invocation.
    pub fn new(patterns: Vec<Pattern<T>>) -> (r: Result<Self, MacrosError>)
        ensures
            match r {
                Ok(grammar) => sequence_well_formed(patterns_view(patterns@)) && grammar.patterns
                    == patterns,
                Err(e) => !sequence_well_formed(patterns_view(patterns@)) && (exists|site: Span|
                    e@ == #[trigger] MacrosErrorView::at(
                        site,
                        ParseErrorKindView::InvalidValidatorPosition,
                    )),
            },
    {
        let site = call_site();
        Self::new_at(patterns, site)
    }
}

/// A parameter of a grammar: its name, whether it is optional, whether it is
/// variadic, and the tokens of its type.
pub type Param = (String, bool, bool, MacroStream);

/// What a [`Param`] holds.
pub type ParamView = (Seq<char>, bool, bool, StreamView);

/// The view of a parameter.
pub open spec fn param_view(param: Param) -> ParamView {
    (param.0@, param.1, param.2, param.3@)
}

/// The views of a list of parameters, one by one.
pub open spec fn params_view(params: Seq<Param>) -> Seq<ParamView> {
    params.map_values(|p: Param| param_view(p))
}

/// The parameter, made optional or variadic where asked.
pub open spec fn marked(param: ParamView, optional: bool, variadic: bool) -> ParamView {
    (param.0, param.1 || optional, param.2 || variadic, param.3)
}

/// The parameters of a sequence: those of its patterns, in order.
pub open spec fn sequence_params<T: ParserOutput>(patterns: Seq<PatternView<T>>) -> Seq<ParamView>
    decreases patterns, 1nat,
{
    if patterns.len() == 0 {
        Seq::empty()
    } else {
        sequence_params(patterns.drop_last()) + patterns.last().params()
    }
}

/// The parameters of the alternatives of a choice, in order.
pub open spec fn alternatives_params<T: ParserOutput>(
    alternatives: Seq<Seq<PatternView<T>>>,
) -> Seq<ParamView>
    decreases alternatives, 2nat,
{
    if alternatives.len() == 0 {
        Seq::empty()
    } else {
        alternatives_params(alternatives.drop_last()) + sequence_params(alternatives.last())
    }
}

impl<T: ParserOutput> PatternView<T> {
    /// The parameters that the pattern binds, in the order in which matching
    /// binds them: those of an inner pattern before the parameter around it.
    /// A parameter in an optional pattern is optional, one in a repetition
    /// is variadic.
    pub open spec fn params(self) -> Seq<ParamView>
        decreases self, 0nat,
    {
        match self {
            PatternView::Group(_, body) => sequence_params(body),
            PatternView::Optional(body) => sequence_params(body).map_values(
                |p: ParamView| marked(p, true, false),
            ),
            PatternView::ZeroOrMore(body, _) => sequence_params(body).map_values(
                |p: ParamView| marked(p, false, true),
            ),
            PatternView::OneOrMore(body, _) => sequence_params(body).map_values(
                |p: ParamView| marked(p, false, true),
            ),
            PatternView::Choice(alternatives) => alternatives_params(alternatives),
            PatternView::Parameter(body, name, type_) => sequence_params(body).push(
                (name, false, false, type_),
            ),
            _ => Seq::empty(),
        }
    }
}

/// Put copies of the parameters of `from` at the end of `into`, made optional
/// or variadic where asked.
fn extend_params(into: &mut Vec<Param>, from: &Vec<Param>, optional: bool, variadic: bool)
    ensures
        params_view(final(into)@) == params_view(old(into)@) + params_view(from@).map_values(
            |p: ParamView| marked(p, optional, variadic),
        ),
{
    let n = from.len();
    let mut i: usize = 0;
    proof {
        assert(params_view(into@) =~= params_view(old(into)@) + params_view(
            from@.take(0),
        ).map_values(|p: ParamView| marked(p, optional, variadic)));
    }
    while i < n
        invariant
            n == from@.len(),
            0 <= i <= n,
            params_view(into@) == params_view(old(into)@) + params_view(
                from@.take(i as int),
            ).map_values(|p: ParamView| marked(p, optional, variadic)),
        decreases n - i,
    {
        let p = &from[i];
        let ghost had = into@;
        let copy: Param = (p.0.clone(), p.1 || optional, p.2 || variadic, p.3.clone());
        into.push(copy);
        proof {
            assert(param_view(copy) == marked(param_view(from@[i as int]), optional, variadic));
            assert(from@.take(i + 1) =~= from@.take(i as int).push(from@[i as int]));
            assert(params_view(into@) =~= params_view(had).push(param_view(copy)));
            assert(params_view(into@) =~= params_view(old(into)@) + params_view(
                from@.take(i + 1),
            ).map_values(|p: ParamView| marked(p, optional, variadic)));
        }
        i += 1;
    }
    proof {
        assert(from@.take(n as int) =~= from@);
    }
}

impl<T: ParserOutput> Pattern<T> {
    /// The parameters that the pattern binds: name, whether optional, whether
    /// variadic, and type.
    pub fn params(&self) -> (params: Vec<Param>)
        ensures
            params_view(params@) == self@.params(),
        decreases self@.size(), 0nat,
    {
        let mut params: Vec<Param> = Vec::new();
        proof {
            assert(params_view(params@) =~= Seq::empty());
        }
        match self {
            Pattern::Group(_, body) => {
                let inner = Self::sequence_params(body.as_slice());
                extend_params(&mut params, &inner, false, false);
                proof {
                    assert(params_view(params@) =~= params_view(inner@));
                }
            },
            Pattern::Optional(body) => {
                let inner = Self::sequence_params(body.as_slice());
                extend_params(&mut params, &inner, true, false);
                proof {
                    assert(params_view(params@) =~= self@.params());
                }
            },
            Pattern::ZeroOrMore(body, _) => {
                let inner = Self::sequence_params(body.as_slice());
                extend_params(&mut params, &inner, false, true);
                proof {
                    assert(params_view(params@) =~= self@.params());
                }
            },
            Pattern::OneOrMore(body, _) => {
                let inner = Self::sequence_params(body.as_slice());
                extend_params(&mut params, &inner, false, true);
                proof {
                    assert(params_view(params@) =~= self@.params());
                }
            },
            Pattern::Choice(alternatives) => {
                let ghost views = alternatives_view(alternatives@);
                proof {
                    lemma_alternatives_view(alternatives@);
                    assert(views.take(0) =~= Seq::empty());
                }
                let n = alternatives.len();
                let mut i: usize = 0;
                while i < n
                    invariant
                        n == alternatives@.len(),
                        0 <= i <= n,
                        self@ == PatternView::<T>::Choice(views),
                        views == alternatives_view(alternatives@),
                        views.len() == n,
                        forall|j: int|
                            0 <= j < n ==> (#[trigger] views[j]) == patterns_view(
                                alternatives@[j]@,
                            ),
                        params_view(params@) == alternatives_params(views.take(i as int)),
                    decreases n - i,
                {
                    proof {
                        lemma_alternatives_size_covers(views, i as int);
                    }
                    let inner = Self::sequence_params(alternatives[i].as_slice());
                    extend_params(&mut params, &inner, false, false);
                    proof {
                        assert(views.take(i + 1).drop_last() =~= views.take(i as int));
                        assert(views.take(i + 1).last() == views[i as int]);
                        assert(params_view(inner@).map_values(
                            |p: ParamView| marked(p, false, false),
                        ) =~= params_view(inner@));
                    }
                    i += 1;
                }
                proof {
                    assert(views.take(n as int) =~= views);
                }
            },
            Pattern::Parameter(body, name, type_) => {
                let inner = Self::sequence_params(body.as_slice());
                extend_params(&mut params, &inner, false, false);
                let ghost had = params@;
                let own: Param = (name.clone(), false, false, type_.clone());
                params.push(own);
                proof {
                    assert(params_view(had) =~= params_view(inner@));
                    assert(params_view(params@) =~= params_view(had).push(param_view(own)));
                }
            },
            _ => {},
        }
        params
    }

    /// The parameters that the patterns of a sequence bind, in order.
    pub fn sequence_params(patterns: &[Pattern<T>]) -> (params: Vec<Param>)
        ensures
            params_view(params@) == sequence_params(patterns_view(patterns@)),
        decreases tail_size(patterns_view(patterns@), 0) + 1, 0nat,
    {
        let mut params: Vec<Param> = Vec::new();
        let ghost views = patterns_view(patterns@);
        proof {
            lemma_patterns_view(patterns@);
            assert(params_view(params@) =~= Seq::empty());
            assert(views.take(0) =~= Seq::empty());
        }
        let n = patterns.len();
        let mut i: usize = 0;
        while i < n
            invariant
                n == patterns@.len(),
                0 <= i <= n,
                views == patterns_view(patterns@),
                views.len() == n,
                forall|j: int| 0 <= j < n ==> (#[trigger] views[j]) == patterns@[j]@,
                params_view(params@) == sequence_params(views.take(i as int)),
            decreases n - i,
        {
            proof {
                lemma_tail_size_element(views, i as int);
            }
            let inner = patterns[i].params();
            extend_params(&mut params, &inner, false, false);
            proof {
                assert(views.take(i + 1).drop_last() =~= views.take(i as int));
                assert(views.take(i + 1).last() == views[i as int]);
                assert(params_view(inner@).map_values(|p: ParamView| marked(p, false, false))
                    =~= params_view(inner@));
            }
            i += 1;
        }
        proof {
            assert(views.take(n as int) =~= views);
        }
        params
    }
}

impl<T: ParserOutput> ParserInput<T> {
    /// The parameters that the grammar binds: name, whether optional, whether
    /// variadic, and type.
    pub fn params(&self) -> (params: Vec<Param>)
        ensures
            params_view(params@) == sequence_params(patterns_view(self.patterns@)),
    {
        Pattern::sequence_params(self.patterns.as_slice())
    }
}

/// An output that takes every capture and keeps none.
pub struct Empty {}

impl ParserOutput for Empty {
    type Validator = ();

    open spec fn obeys_spec() -> bool {
        true
    }

    open spec fn set_match_spec(self, k: Seq<char>, m: MatchView) -> (
        Result<(), MacrosErrorView>,
        Self,
    ) {
        (Ok(()), self)
    }

    open spec fn validate_spec(self, validator: (), m: MatchView) -> (Result<(), Seq<char>>, Self) {
        (Ok(()), self)
    }

    fn set_match(&mut self, k: &str, m: Match) -> (r: Result<(), MacrosError>) {
        Ok(())
    }

    fn name() -> (name: &'static str)
        ensures
            name@ == "Empty"@,
    {
        "Empty"
    }

    fn validate(self, validator: &(), m: &Match) -> (r: (Result<(), String>, Self)) {
        (Ok(()), self)
    }
}

} // verus!
