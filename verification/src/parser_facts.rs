//! What the tool-call parsers answered about the texts they were asked about.
//!
//! The parsers are asked from outside: a function that needs an answer it does
//! not have returns the question, and is called again once the answer is there.
//! New identifiers are taken from a supply in the same way.

use crate::chat_types::{ParsedToolCalls, ParsedToolCallsView};
use crate::ids::{fresh_uuid, is_uuid_text};
use crate::text::same_text;
use vstd::prelude::*;

verus! {

/// What the marker matcher sees in a chunk of text: a whole marker, the start
/// of one at the end of the text, or none.
#[derive(Debug, PartialEq, Eq)]
pub enum MatchResult {
    Complete { prefix: String, marker: String, suffix: String },
    Partial { prefix: String, partial: String },
    NoMatch { content: String },
}

/// The content of a [`MatchResult`].
#[verifier::ext_equal]
pub enum MatchResultView {
    Complete { prefix: Seq<char>, marker: Seq<char>, suffix: Seq<char> },
    Partial { prefix: Seq<char>, partial: Seq<char> },
    NoMatch { content: Seq<char> },
}

impl DeepView for MatchResult {
    type V = MatchResultView;

    open spec fn deep_view(&self) -> MatchResultView {
        match self {
            MatchResult::Complete { prefix, marker, suffix } => MatchResultView::Complete {
                prefix: prefix@,
                marker: marker@,
                suffix: suffix@,
            },
            MatchResult::Partial { prefix, partial } => MatchResultView::Partial {
                prefix: prefix@,
                partial: partial@,
            },
            MatchResult::NoMatch { content } => MatchResultView::NoMatch { content: content@ },
        }
    }
}

/// A question to the parsers.
#[derive(Debug, PartialEq, Eq)]
pub enum ParserQuery {
    /// What does the marker matcher see in `content`, with `partial` held back before it?
    Marker { content: String, partial: String },
    /// Which tool calls does the configured parser find in `text`? With
    /// `finalize`, calls that the end of the text cut off are recovered.
    ToolCalls { text: String, finalize: bool },
    /// Does the configured parser see the start of a tool call in `text`?
    CallStart { text: String },
    /// Where, in characters, do the complete tool calls in `text` end?
    CallEnd { text: String },
    /// Which JSON tool calls stand in `text` between `<tools>` and `</tools>`?
    TaggedJson { text: String, recover: bool },
    /// Which JSON tool calls is `text` made of?
    BareJson { text: String, recover: bool },
    /// Which JSON text does the literal `text` stand for?
    Literal { text: String },
    /// How does `text` read without a brace that leaked in front of it?
    Repair { text: String },
    /// One more new identifier is needed.
    FreshId,
}

/// The content of a [`ParserQuery`].
#[verifier::ext_equal]
pub enum ParserQueryView {
    Marker { content: Seq<char>, partial: Seq<char> },
    ToolCalls { text: Seq<char>, finalize: bool },
    CallStart { text: Seq<char> },
    CallEnd { text: Seq<char> },
    TaggedJson { text: Seq<char>, recover: bool },
    BareJson { text: Seq<char>, recover: bool },
    Literal { text: Seq<char> },
    Repair { text: Seq<char> },
    FreshId,
}

impl DeepView for ParserQuery {
    type V = ParserQueryView;

    open spec fn deep_view(&self) -> ParserQueryView {
        match self {
            ParserQuery::Marker { content, partial } => ParserQueryView::Marker {
                content: content@,
                partial: partial@,
            },
            ParserQuery::ToolCalls { text, finalize } => ParserQueryView::ToolCalls {
                text: text@,
                finalize: *finalize,
            },
            ParserQuery::CallStart { text } => ParserQueryView::CallStart { text: text@ },
            ParserQuery::CallEnd { text } => ParserQueryView::CallEnd { text: text@ },
            ParserQuery::TaggedJson { text, recover } => ParserQueryView::TaggedJson {
                text: text@,
                recover: *recover,
            },
            ParserQuery::BareJson { text, recover } => ParserQueryView::BareJson {
                text: text@,
                recover: *recover,
            },
            ParserQuery::Literal { text } => ParserQueryView::Literal { text: text@ },
            ParserQuery::Repair { text } => ParserQueryView::Repair { text: text@ },
            ParserQuery::FreshId => ParserQueryView::FreshId,
        }
    }
}

/// An answer about a text.
#[derive(Debug, PartialEq, Eq)]
pub struct TextFact<A> {
    pub text: String,
    pub answer: A,
}

/// The content of a [`TextFact`].
#[verifier::ext_equal]
pub struct TextFactView<A> {
    pub text: Seq<char>,
    pub answer: A,
}

impl<A: DeepView> DeepView for TextFact<A> {
    type V = TextFactView<A::V>;

    open spec fn deep_view(&self) -> TextFactView<A::V> {
        TextFactView { text: self.text@, answer: self.answer.deep_view() }
    }
}

/// The first answer about `text`.
pub open spec fn answer_about<A>(facts: Seq<TextFactView<A>>, text: Seq<char>) -> Option<A>
    decreases facts.len(),
{
    if facts.len() == 0 {
        None
    } else if facts[0].text == text {
        Some(facts[0].answer)
    } else {
        answer_about(facts.subrange(1, facts.len() as int), text)
    }
}

/// The first answer about `text`.
pub fn find_answer<'a, A: DeepView>(facts: &'a Vec<TextFact<A>>, text: &str) -> (r: Option<&'a A>)
    ensures
        r matches Some(a) ==> answer_about(facts.deep_view(), text@) == Some(a.deep_view()),
        r is None ==> answer_about(facts.deep_view(), text@) is None,
{
    let ghost all = facts.deep_view();
    let mut i: usize = 0;
    assert(all.subrange(0, all.len() as int) =~= all);
    while i < facts.len()
        invariant
            all == facts.deep_view(),
            i <= facts@.len(),
            answer_about(all, text@) == answer_about(
                all.subrange(i as int, all.len() as int),
                text@,
            ),
        decreases facts@.len() - i,
    {
        let ghost rest = all.subrange(i as int, all.len() as int);
        assert(rest[0] == facts@[i as int].deep_view());
        if same_text(facts[i].text.as_str(), text) {
            return Some(&facts[i].answer);
        }
        assert(rest.subrange(1, rest.len() as int) =~= all.subrange(i + 1, all.len() as int));
        i += 1;
    }
    None
}

/// An answer of the marker matcher.
#[derive(Debug, PartialEq, Eq)]
pub struct MarkerFact {
    pub content: String,
    pub partial: String,
    pub answer: MatchResult,
}

/// The content of a [`MarkerFact`].
#[verifier::ext_equal]
pub struct MarkerFactView {
    pub content: Seq<char>,
    pub partial: Seq<char>,
    pub answer: MatchResultView,
}

impl DeepView for MarkerFact {
    type V = MarkerFactView;

    open spec fn deep_view(&self) -> MarkerFactView {
        MarkerFactView {
            content: self.content@,
            partial: self.partial@,
            answer: self.answer.deep_view(),
        }
    }
}

/// The first answer of the marker matcher about `content` after `partial`.
pub open spec fn marker_answer(
    facts: Seq<MarkerFactView>,
    content: Seq<char>,
    partial: Seq<char>,
) -> Option<MatchResultView>
    decreases facts.len(),
{
    if facts.len() == 0 {
        None
    } else if facts[0].content == content && facts[0].partial == partial {
        Some(facts[0].answer)
    } else {
        marker_answer(facts.subrange(1, facts.len() as int), content, partial)
    }
}

/// The answers that are there, and the supply of new identifiers.
#[derive(Debug, PartialEq, Eq)]
pub struct ParserFacts {
    pub markers: Vec<MarkerFact>,
    /// `None` stands for an error of the parser.
    pub tool_calls: Vec<TextFact<Option<ParsedToolCalls>>>,
    pub final_tool_calls: Vec<TextFact<Option<ParsedToolCalls>>>,
    pub call_starts: Vec<TextFact<bool>>,
    pub call_ends: Vec<TextFact<Option<usize>>>,
    pub tagged_json: Vec<TextFact<Option<ParsedToolCalls>>>,
    pub recovered_tagged_json: Vec<TextFact<Option<ParsedToolCalls>>>,
    pub bare_json: Vec<TextFact<Option<ParsedToolCalls>>>,
    pub recovered_bare_json: Vec<TextFact<Option<ParsedToolCalls>>>,
    pub literals: Vec<TextFact<String>>,
    pub repairs: Vec<TextFact<Option<String>>>,
    pub fresh_ids: Vec<String>,
}

/// The content of [`ParserFacts`].
#[verifier::ext_equal]
pub struct ParserFactsView {
    pub markers: Seq<MarkerFactView>,
    pub tool_calls: Seq<TextFactView<Option<ParsedToolCallsView>>>,
    pub final_tool_calls: Seq<TextFactView<Option<ParsedToolCallsView>>>,
    pub call_starts: Seq<TextFactView<bool>>,
    pub call_ends: Seq<TextFactView<Option<usize>>>,
    pub tagged_json: Seq<TextFactView<Option<ParsedToolCallsView>>>,
    pub recovered_tagged_json: Seq<TextFactView<Option<ParsedToolCallsView>>>,
    pub bare_json: Seq<TextFactView<Option<ParsedToolCallsView>>>,
    pub recovered_bare_json: Seq<TextFactView<Option<ParsedToolCallsView>>>,
    pub literals: Seq<TextFactView<Seq<char>>>,
    pub repairs: Seq<TextFactView<Option<Seq<char>>>>,
    pub fresh_ids: Seq<Seq<char>>,
}

impl DeepView for ParserFacts {
    type V = ParserFactsView;

    open spec fn deep_view(&self) -> ParserFactsView {
        ParserFactsView {
            markers: self.markers.deep_view(),
            tool_calls: self.tool_calls.deep_view(),
            final_tool_calls: self.final_tool_calls.deep_view(),
            call_starts: self.call_starts.deep_view(),
            call_ends: self.call_ends.deep_view(),
            tagged_json: self.tagged_json.deep_view(),
            recovered_tagged_json: self.recovered_tagged_json.deep_view(),
            bare_json: self.bare_json.deep_view(),
            recovered_bare_json: self.recovered_bare_json.deep_view(),
            literals: self.literals.deep_view(),
            repairs: self.repairs.deep_view(),
            fresh_ids: self.fresh_ids.deep_view(),
        }
    }
}

impl ParserFactsView {
    /// No answers, and no identifiers.
    pub open spec fn none() -> Self {
        ParserFactsView {
            markers: Seq::empty(),
            tool_calls: Seq::empty(),
            final_tool_calls: Seq::empty(),
            call_starts: Seq::empty(),
            call_ends: Seq::empty(),
            tagged_json: Seq::empty(),
            recovered_tagged_json: Seq::empty(),
            bare_json: Seq::empty(),
            recovered_bare_json: Seq::empty(),
            literals: Seq::empty(),
            repairs: Seq::empty(),
            fresh_ids: Seq::empty(),
        }
    }

    /// The tool calls in `text`, as far as the parser was asked.
    pub open spec fn calls_in(self, text: Seq<char>, finalize: bool) -> Option<
        Option<ParsedToolCallsView>,
    > {
        if finalize {
            answer_about(self.final_tool_calls, text)
        } else {
            answer_about(self.tool_calls, text)
        }
    }

    /// The JSON tool calls between tags in `text`, as far as the parser was asked.
    pub open spec fn tagged_in(self, text: Seq<char>, recover: bool) -> Option<
        Option<ParsedToolCallsView>,
    > {
        if recover {
            answer_about(self.recovered_tagged_json, text)
        } else {
            answer_about(self.tagged_json, text)
        }
    }

    /// The JSON tool calls that `text` is made of, as far as the parser was asked.
    pub open spec fn bare_in(self, text: Seq<char>, recover: bool) -> Option<
        Option<ParsedToolCallsView>,
    > {
        if recover {
            answer_about(self.recovered_bare_json, text)
        } else {
            answer_about(self.bare_json, text)
        }
    }

    /// An end of tool calls never lies behind the text.
    pub open spec fn wf(self) -> bool {
        forall|i: int|
            0 <= i < self.call_ends.len() ==> ((#[trigger] self.call_ends[i]).answer matches Some(
                end,
            ) ==> end <= self.call_ends[i].text.len())
    }
}

/// An end that was answered lies inside the text.
pub proof fn lemma_end_in_text(facts: Seq<TextFactView<Option<usize>>>, text: Seq<char>)
    requires
        forall|i: int|
            0 <= i < facts.len() ==> ((#[trigger] facts[i]).answer matches Some(end) ==> end
                <= facts[i].text.len()),
    ensures
        answer_about(facts, text) matches Some(Some(end)) ==> end <= text.len(),
    decreases facts.len(),
{
    if facts.len() > 0 && facts[0].text != text {
        let rest = facts.subrange(1, facts.len() as int);
        assert forall|i: int| 0 <= i < rest.len() implies ((#[trigger] rest[i]).answer matches Some(
            end,
        ) ==> end <= rest[i].text.len()) by {
            assert(rest[i] == facts[i + 1]);
        }
        lemma_end_in_text(rest, text);
    }
}

impl ParserFacts {
    /// No answers, and no identifiers.
    pub fn new() -> (r: Self)
        ensures
            r.deep_view() == ParserFactsView::none(),
            r.deep_view().wf(),
    {
        let r: ParserFacts = ParserFacts {
            markers: Vec::new(),
            tool_calls: Vec::new(),
            final_tool_calls: Vec::new(),
            call_starts: Vec::new(),
            call_ends: Vec::new(),
            tagged_json: Vec::new(),
            recovered_tagged_json: Vec::new(),
            bare_json: Vec::new(),
            recovered_bare_json: Vec::new(),
            literals: Vec::new(),
            repairs: Vec::new(),
            fresh_ids: Vec::new(),
        };
        assert(r.deep_view() =~= ParserFactsView::none());
        r
    }

    /// Adds a new identifier, a random UUID, to the supply; nothing else changes.
    pub fn add_fresh_id(&mut self)
        ensures
            exists|id: Seq<char>| #[trigger]
                is_uuid_text(id) && final(self).deep_view() == (ParserFactsView {
                    fresh_ids: old(self).deep_view().fresh_ids.push(id),
                    ..old(self).deep_view()
                }),
    {
        let id: String = fresh_uuid();
        let ghost before = self.fresh_ids.deep_view();
        self.fresh_ids.push(id);
        assert(self.fresh_ids.deep_view() =~= before.push(id@));
        assert(is_uuid_text(id@));
    }

    /// What the marker matcher answered about `content` after `partial`.
    pub fn marker(&self, content: &str, partial: &str) -> (r: Option<&MatchResult>)
        ensures
            r matches Some(a) ==> marker_answer(self.deep_view().markers, content@, partial@)
                == Some(a.deep_view()),
            r is None ==> marker_answer(self.deep_view().markers, content@, partial@) is None,
    {
        let ghost all = self.markers.deep_view();
        let mut i: usize = 0;
        assert(all.subrange(0, all.len() as int) =~= all);
        while i < self.markers.len()
            invariant
                all == self.markers.deep_view(),
                i <= self.markers@.len(),
                marker_answer(all, content@, partial@) == marker_answer(
                    all.subrange(i as int, all.len() as int),
                    content@,
                    partial@,
                ),
            decreases self.markers@.len() - i,
        {
            let ghost rest = all.subrange(i as int, all.len() as int);
            assert(rest[0] == self.markers@[i as int].deep_view());
            if same_text(self.markers[i].content.as_str(), content) && same_text(
                self.markers[i].partial.as_str(),
                partial,
            ) {
                return Some(&self.markers[i].answer);
            }
            assert(rest.subrange(1, rest.len() as int) =~= all.subrange(i + 1, all.len() as int));
            i += 1;
        }
        None
    }

    /// What the configured parser answered about `text`.
    pub fn calls(&self, text: &str, finalize: bool) -> (r: Option<&Option<ParsedToolCalls>>)
        ensures
            r matches Some(a) ==> self.deep_view().calls_in(text@, finalize) == Some(a.deep_view()),
            r is None ==> self.deep_view().calls_in(text@, finalize) is None,
    {
        if finalize {
            find_answer(&self.final_tool_calls, text)
        } else {
            find_answer(&self.tool_calls, text)
        }
    }

    /// What the parser of tagged JSON answered about `text`.
    pub fn tagged(&self, text: &str, recover: bool) -> (r: Option<&Option<ParsedToolCalls>>)
        ensures
            r matches Some(a) ==> self.deep_view().tagged_in(text@, recover) == Some(a.deep_view()),
            r is None ==> self.deep_view().tagged_in(text@, recover) is None,
    {
        if recover {
            find_answer(&self.recovered_tagged_json, text)
        } else {
            find_answer(&self.tagged_json, text)
        }
    }

    /// What the parser of bare JSON answered about `text`.
    pub fn bare(&self, text: &str, recover: bool) -> (r: Option<&Option<ParsedToolCalls>>)
        ensures
            r matches Some(a) ==> self.deep_view().bare_in(text@, recover) == Some(a.deep_view()),
            r is None ==> self.deep_view().bare_in(text@, recover) is None,
    {
        if recover {
            find_answer(&self.recovered_bare_json, text)
        } else {
            find_answer(&self.bare_json, text)
        }
    }
}

} // verus!
