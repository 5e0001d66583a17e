//! What becomes of the text of a choice once its stream has ended: the tool calls in it, the
//! reasoning in it, and the rest.

use crate::aggregate_final::{
    is_complete, lemma_completed_at, lemma_no_calls_made, nothing_to_repair,
};
use crate::aggregate_laws::{
    aggregated, law_streams_are_put_together, lemma_choice_at, without_errors,
};
use crate::aggregate_whole::{
    data_of, deltas_for, ends, fingerprints, items_given, last_given, law_choices_are_all_that_came,
    law_the_last_data_count, parts, texts, thoughts, usages,
};
use crate::aggregator::{
    calls_by_name, choice_called, choice_completed, choice_settled, choices_completed, joined,
    response_of, DeltaAggregatorView, ParsingOptionsView,
};
use crate::chat_types::{
    AnnotatedView, ChatChoiceView, ChatCompletionMessageContentView,
    ChatCompletionMessageToolCallView, FinishReason, ToolCallResponseView,
};
use crate::jail_ledger::finds_calls;
use crate::parser_facts::{answer_about, ParserFactsView};
use crate::text::{lemma_rfind_text, occurs_at, rfind_text};
use vstd::prelude::*;

verus! {

/// The calls of the response are those that a parser found, in its order.
pub open spec fn are_calls(
    made: Seq<ChatCompletionMessageToolCallView>,
    found: Seq<ToolCallResponseView>,
) -> bool {
    &&& made.len() == found.len()
    &&& forall|i: int|
        0 <= i < made.len() ==> {
            &&& (#[trigger] made[i]).id == found[i].id
            &&& made[i].function.name == found[i].function.name
            &&& made[i].function.arguments == found[i].function.arguments
        }
}

/// Content that is there where it is not empty.
pub open spec fn content_of(text: Seq<char>) -> Option<ChatCompletionMessageContentView> {
    if text.len() > 0 {
        Some(ChatCompletionMessageContentView::Text(text))
    } else {
        None
    }
}

/// A choice of which nothing came but text.
pub open spec fn only_text(chunks: Seq<AnnotatedView>, n: nat, index: u32) -> bool {
    let deltas = deltas_for(chunks, n, index);
    &&& items_given(thoughts(deltas)).len() == 0
    &&& items_given(parts(deltas)).len() == 0
    &&& items_given(texts(deltas)).len() > 0
    &&& !(exists|call: u32| is_complete(deltas, call))
}

/// The calls of tools that are named are picked from those found.
proof fn lemma_named_picked(found: Seq<ToolCallResponseView>, names: Seq<Seq<char>>)
    ensures
        are_calls(
            calls_by_name(found, names),
            found.filter(|call: ToolCallResponseView| names.contains(call.function.name)),
        ),
    decreases found.len(),
{
    reveal(Seq::filter);
    let pick = |call: ToolCallResponseView| names.contains(call.function.name);
    if found.len() > 0 {
        let front = found.drop_last();
        assert(front =~= found.subrange(0, found.len() - 1));
        lemma_named_picked(front, names);
        let a = calls_by_name(front, names);
        let b = front.filter(pick);
        let made = calls_by_name(found, names);
        let kept = found.filter(pick);
        assert forall|i: int| 0 <= i < made.len() implies {
            &&& (#[trigger] made[i]).id == kept[i].id
            &&& made[i].function.name == kept[i].function.name
            &&& made[i].function.arguments == kept[i].function.arguments
        } by {
            if i < a.len() {
                assert(made[i] == a[i] && kept[i] == b[i]);
            }
        }
    }
}

/// Where the text of a choice is searched for tool calls and the parser finds some, these
/// are the calls of the response, with their identifiers, names and arguments, in the order
/// in which they were found; the content is the text around them, and the choice ends with
/// the calls. Where it finds none, and JSON alone is no call, the text stays whole and the
/// finish reason is the last that came.
pub proof fn law_calls_in_text_are_made(
    chunks: Seq<AnnotatedView>,
    n: nat,
    options: ParsingOptionsView,
    facts: ParserFactsView,
    i: int,
)
    requires
        without_errors(chunks),
        n <= chunks.len(),
        choices_completed(aggregated(chunks, n).choices, options, facts) is Ok,
        0 <= i < aggregated(chunks, n).choices.len(),
        only_text(chunks, n, aggregated(chunks, n).choices[i].index),
        options.tool_call_parser is Some,
        nothing_to_repair(facts),
    ensures
        ({
            let deltas = deltas_for(chunks, n, aggregated(chunks, n).choices[i].index);
            let made = choices_completed(aggregated(chunks, n).choices, options, facts)->Ok_0[i];
            let text = items_given(texts(deltas));
            let answer = facts.calls_in(text, true);
            let bare = options.parse_bare_json_tool_calls && options.tool_names is Some
                && options.tool_names->0.len() > 0;
            &&& answer is Some
            &&& finds_calls(answer->0) ==> {
                &&& made.message.tool_calls is Some
                &&& are_calls(made.message.tool_calls->0, answer->0->0.calls)
                &&& made.message.content == (match answer->0->0.normal_text {
                    Some(rest) => content_of(rest),
                    None => None,
                })
                &&& made.finish_reason == Some(FinishReason::ToolCalls)
            }
            &&& answer->0 is None || (!finds_calls(answer->0) && !bare) ==> {
                &&& made.message.tool_calls is None
                &&& made.message.content == Some(ChatCompletionMessageContentView::Text(text))
                &&& made.finish_reason == last_given(ends(deltas))
            }
        }),
{
    lemma_only_text(chunks, n, options, facts, i);
}

/// The facts about a choice of which nothing came but text.
proof fn lemma_only_text(
    chunks: Seq<AnnotatedView>,
    n: nat,
    options: ParsingOptionsView,
    facts: ParserFactsView,
    i: int,
)
    requires
        without_errors(chunks),
        n <= chunks.len(),
        choices_completed(aggregated(chunks, n).choices, options, facts) is Ok,
        0 <= i < aggregated(chunks, n).choices.len(),
        only_text(chunks, n, aggregated(chunks, n).choices[i].index),
    ensures
        ({
            let choice = aggregated(chunks, n).choices[i];
            let deltas = deltas_for(chunks, n, choice.index);
            &&& choice_called(choice).tool_calls is None
            &&& choice.text == items_given(texts(deltas))
            &&& choice.content_parts.len() == 0
            &&& !choice.reasons()
            &&& choice.finish_reason == last_given(ends(deltas))
            &&& choice_called(choice).normalized().mirrored() == choice_called(choice)
            &&& choice_settled(choice, options, facts) is Ok
            &&& choices_completed(aggregated(chunks, n).choices, options, facts)->Ok_0[i]
                == choice_completed(
                choice_settled(choice, options, facts)->Ok_0,
            )
        }),
{
    let choices = aggregated(chunks, n).choices;
    let choice = choices[i];
    law_streams_are_put_together(chunks, n, choice.index, 0);
    lemma_choice_at(choices, i);
    lemma_completed_at(choices, options, facts, i);
    law_choices_are_all_that_came(chunks, n, choice.index);
    lemma_no_calls_made(chunks, n, i);
}

/// Where text of which something leaked in is repaired, the repaired text is the content;
/// where the answer is that nothing leaked in, the text is.
pub proof fn law_repaired_text_is_the_content(
    chunks: Seq<AnnotatedView>,
    n: nat,
    options: ParsingOptionsView,
    facts: ParserFactsView,
    i: int,
)
    requires
        without_errors(chunks),
        n <= chunks.len(),
        choices_completed(aggregated(chunks, n).choices, options, facts) is Ok,
        0 <= i < aggregated(chunks, n).choices.len(),
        only_text(chunks, n, aggregated(chunks, n).choices[i].index),
        options.tool_call_parser is None,
    ensures
        ({
            let deltas = deltas_for(chunks, n, aggregated(chunks, n).choices[i].index);
            let made = choices_completed(aggregated(chunks, n).choices, options, facts)->Ok_0[i];
            let text = items_given(texts(deltas));
            let answer = answer_about(facts.repairs, text);
            &&& answer is Some
            &&& made.message.content == content_of(
                match answer->0 {
                    Some(repaired) => repaired,
                    None => text,
                },
            )
            &&& made.message.tool_calls is None
            &&& made.finish_reason == last_given(ends(deltas))
        }),
{
    lemma_only_text(chunks, n, options, facts, i);
}

/// Where the parser finds no calls in the text of a choice, but JSON may be a call too, the
/// JSON between tags is searched, and then the text as a whole: of the calls that are found
/// there, those of tools that are named are the calls of the response, in their order.
pub proof fn law_json_in_text_is_called(
    chunks: Seq<AnnotatedView>,
    n: nat,
    options: ParsingOptionsView,
    facts: ParserFactsView,
    i: int,
    names: Seq<Seq<char>>,
)
    requires
        without_errors(chunks),
        n <= chunks.len(),
        choices_completed(aggregated(chunks, n).choices, options, facts) is Ok,
        0 <= i < aggregated(chunks, n).choices.len(),
        only_text(chunks, n, aggregated(chunks, n).choices[i].index),
        options.tool_call_parser is Some,
        options.parse_bare_json_tool_calls,
        options.tool_names == Some(names),
        names.len() > 0,
        nothing_to_repair(facts),
        ({
            let text = items_given(
                texts(deltas_for(chunks, n, aggregated(chunks, n).choices[i].index)),
            );
            &&& facts.calls_in(text, true) matches Some(Some(parsed))
            &&& parsed.calls.len() == 0
        }),
    ensures
        ({
            let deltas = deltas_for(chunks, n, aggregated(chunks, n).choices[i].index);
            let made = choices_completed(aggregated(chunks, n).choices, options, facts)->Ok_0[i];
            let text = items_given(texts(deltas));
            let pick = |call: ToolCallResponseView| names.contains(call.function.name);
            let tagged = facts.tagged_in(text, true);
            let bare = facts.bare_in(text, true);
            &&& tagged is Some
            &&& tagged->0 matches Some(found) ==> {
                let calls = found.calls.filter(pick);
                &&& calls.len() > 0 ==> {
                    &&& made.message.tool_calls is Some
                    &&& are_calls(made.message.tool_calls->0, calls)
                    &&& made.message.content == (match found.normal_text {
                        Some(rest) => content_of(rest),
                        None => None,
                    })
                    &&& made.finish_reason == Some(FinishReason::ToolCalls)
                }
                &&& calls.len() == 0 ==> bare is Some
                &&& calls.len() == 0 ==> (bare->0 matches Some(other) ==> {
                    let others = other.calls.filter(pick);
                    &&& others.len() > 0 ==> {
                        &&& made.message.tool_calls is Some
                        &&& are_calls(made.message.tool_calls->0, others)
                        &&& made.message.content == (match other.normal_text {
                            Some(rest) => content_of(rest),
                            None => None,
                        })
                        &&& made.finish_reason == Some(FinishReason::ToolCalls)
                    }
                    &&& others.len() == 0 ==> {
                        &&& made.message.tool_calls is None
                        &&& made.message.content == Some(
                            ChatCompletionMessageContentView::Text(text),
                        )
                        &&& made.finish_reason == last_given(ends(deltas))
                    }
                })
            }
        }),
{
    lemma_only_text(chunks, n, options, facts, i);
    let text = aggregated(chunks, n).choices[i].text;
    if let Some(Some(found)) = facts.tagged_in(text, true) {
        lemma_named_picked(found.calls, names);
    }
    if let Some(Some(other)) = facts.bare_in(text, true) {
        lemma_named_picked(other.calls, names);
    }
}

/// Where reasoning came, and the text goes on with it up to `</think>`, what stands in front
/// of the last `</think>` is put behind the reasoning, and what stands behind it, but for
/// line breaks in front, is the content.
pub proof fn law_reasoning_ends_where_it_says(
    chunks: Seq<AnnotatedView>,
    n: nat,
    options: ParsingOptionsView,
    facts: ParserFactsView,
    i: int,
    more: Seq<char>,
    rest: Seq<char>,
)
    requires
        without_errors(chunks),
        n <= chunks.len(),
        choices_completed(aggregated(chunks, n).choices, options, facts) is Ok,
        0 <= i < aggregated(chunks, n).choices.len(),
        options.tool_call_parser is None,
        nothing_to_repair(facts),
        ({
            let deltas = deltas_for(chunks, n, aggregated(chunks, n).choices[i].index);
            let text = items_given(texts(deltas));
            &&& items_given(thoughts(deltas)).len() > 0
            &&& items_given(parts(deltas)).len() == 0
            &&& text == more + "</think>"@ + rest
            &&& forall|k: int| more.len() < k ==> !occurs_at(text, "</think>"@, k)
            &&& rest.len() > 0 && rest[0] != '\n' && rest[0] != '\r'
        }),
    ensures
        ({
            let deltas = deltas_for(chunks, n, aggregated(chunks, n).choices[i].index);
            let made = choices_completed(aggregated(chunks, n).choices, options, facts)->Ok_0[i];
            &&& made.message.reasoning_content == Some(items_given(thoughts(deltas)) + more)
            &&& made.message.content == Some(ChatCompletionMessageContentView::Text(rest))
        }),
{
    let choices = aggregated(chunks, n).choices;
    let choice = choices[i];
    let deltas = deltas_for(chunks, n, choice.index);
    let text = items_given(texts(deltas));
    law_streams_are_put_together(chunks, n, choice.index, 0);
    lemma_choice_at(choices, i);
    lemma_completed_at(choices, options, facts, i);
    law_choices_are_all_that_came(chunks, n, choice.index);
    let end = "</think>"@;
    let at = more.len() as int;
    lemma_rfind_text(text, end);
    assert(text.subrange(at, at + end.len()) =~= end);
    assert(occurs_at(text, end, at));
    assert(rfind_text(text, end) == Some(at));
    assert(text.subrange(0, at) =~= more);
    assert(text.subrange(at + end.len(), text.len() as int) =~= rest);
}

/// A complete response says of its stream what the stream said of itself: the identifier,
/// the model, the time and the service tier of the last chunk, the last usage and the last
/// fingerprint; and its choices are all and nothing but the choices.
pub proof fn law_responses_name_their_stream(
    chunks: Seq<AnnotatedView>,
    n: nat,
    choices: Seq<ChatChoiceView>,
)
    requires
        without_errors(chunks),
        n <= chunks.len(),
        data_of(chunks, n).len() > 0,
    ensures
        ({
            let data = data_of(chunks, n);
            let made = response_of(aggregated(chunks, n), choices);
            &&& made.inner.id == data.last().inner.id
            &&& made.inner.object == "chat.completion"@
            &&& made.inner.created == data.last().inner.created
            &&& made.inner.model == data.last().inner.model
            &&& made.inner.service_tier == data.last().inner.service_tier
            &&& made.inner.usage == last_given(usages(data))
            &&& made.inner.system_fingerprint == last_given(fingerprints(data))
            &&& made.inner.choices == choices
            &&& made.nvext == aggregated(chunks, n).nvext
        }),
{
    law_the_last_data_count(chunks, n, Seq::empty());
}

/// Texts are joined with the separator between them and nothing else: one text is itself,
/// and two lists are joined each and the separator put between.
pub proof fn law_joining_separates(a: Seq<Seq<char>>, b: Seq<Seq<char>>, separator: Seq<char>)
    ensures
        a.len() == 1 ==> joined(a, separator) == a[0],
        a.len() > 0 && b.len() > 0 ==> joined(a + b, separator) == joined(a, separator)
            + separator + joined(b, separator),
    decreases b.len(),
{
    if a.len() > 0 && b.len() > 0 {
        let all = a + b;
        let front = b.subrange(0, b.len() - 1);
        assert(all.subrange(0, all.len() - 1) =~= a + front);
        if b.len() == 1 {
            assert(a + front =~= a);
        } else {
            law_joining_separates(a, front, separator);
        }
        assert(joined(all, separator) =~= joined(a, separator) + separator + joined(b, separator));
    }
}

/// An error that comes is the error of the aggregation, whatever came before: the text of
/// the error, or else the comments, or else that it is unknown.
pub proof fn law_errors_are_told(agg: DeltaAggregatorView, delta: AnnotatedView)
    requires
        delta.event == Some("error"@),
    ensures
        delta.error is Some ==> agg.after(delta).error == delta.error,
        delta.error is None ==> (delta.comment matches Some(comments) ==> {
            &&& agg.after(delta).error == Some(joined(comments, ", "@))
            &&& comments.len() == 1 ==> agg.after(delta).error == Some(comments[0])
        }),
        delta.error is None && delta.comment is None ==> agg.after(delta).error == Some(
            "unknown error"@,
        ),
{
}

} // verus!
