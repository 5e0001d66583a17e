//! Where the text of a jailed stream goes: each letter that comes leaves as text, stands in
//! a part that was parsed for tool calls, or is held back. Only blank text after a tool
//! call is dropped.

use crate::chat_types::{
    ChatChoiceStreamView, ChatCompletionMessageContentView, ChatCompletionMessageToolCallChunkView,
    ParsedToolCallsView, Role, ToolCallResponseView, ToolDefinitionView,
};
use crate::jail_parse::{
    any_contained, call_choice, calls_named, chunks_named, chunks_of, end_marker, ends_jail,
    known_calls, starts_jail,
};
use crate::jail_state::{
    finish_kept, free_text, jailed_text, logprobs_joined, piece, prefix_emitted, processed,
    released, trailed, ChoiceJailStateView, Processed,
};
use crate::jail_types::{ChoiceEmissionView, JailedStreamView};
use crate::parser_facts::{
    answer_about, lemma_end_in_text, marker_answer, MatchResultView, ParserFactsView,
    ParserQueryView,
};
use crate::text::{contains_text, find_text, is_blank, lemma_find_text, occurs_at};
use vstd::prelude::*;

verus! {

/// The text that a choice brings.
pub open spec fn text_in(choice: ChatChoiceStreamView) -> Seq<char> {
    match choice.delta.content {
        Some(ChatCompletionMessageContentView::Text(text)) => text,
        _ => Seq::empty(),
    }
}

/// The emission is what became of parsed text.
pub open spec fn is_answer(emission: ChoiceEmissionView) -> bool {
    emission is ToolCall || emission is Content
}

/// The text that an emission passes on as it came.
pub open spec fn said(emission: ChoiceEmissionView) -> Seq<char> {
    if is_answer(emission) {
        Seq::empty()
    } else {
        text_in(emission.choice())
    }
}

/// The text that emissions pass on as it came.
pub open spec fn spoken(emissions: Seq<ChoiceEmissionView>) -> Seq<char>
    decreases emissions.len(),
{
    if emissions.len() == 0 {
        Seq::empty()
    } else {
        spoken(emissions.drop_last()) + said(emissions.last())
    }
}

/// How many emissions are what became of parsed text.
pub open spec fn answered(emissions: Seq<ChoiceEmissionView>) -> nat
    decreases emissions.len(),
{
    if emissions.len() == 0 {
        0
    } else {
        answered(emissions.drop_last()) + if is_answer(emissions.last()) {
            1nat
        } else {
            0nat
        }
    }
}

/// What is held back of the text that came.
pub open spec fn held(state: ChoiceJailStateView) -> Seq<char> {
    if state.is_jailed {
        state.accumulated_content
    } else {
        state.partial_match_buffer
    }
}

/// The state of a choice that has not been stopped. Nothing of a marker is held back beside
/// jailed text.
pub open spec fn settled(state: ChoiceJailStateView) -> bool {
    &&& state.is_jailed ==> state.partial_match_buffer.len() == 0
    &&& !state.terminate_after_tool_call
}

/// Tool calls are looked for in the text, between markers.
pub open spec fn by_markers(jail: JailedStreamView) -> bool {
    jail.jail_mode is MarkerBased && !jail.is_poolside_v1()
}

/// The marker matcher took the text apart without changing it. Text in which it sees no
/// marker, behind the beginning of one that was held back, starts no jail.
pub open spec fn matcher_is_right(
    state: ChoiceJailStateView,
    content: Seq<char>,
    jail: JailedStreamView,
    facts: ParserFactsView,
) -> bool {
    let all = state.partial_match_buffer + content;
    match marker_answer(facts.markers, content, state.partial_match_buffer) {
        Some(MatchResultView::Complete { prefix, marker, suffix }) => prefix + (marker + suffix)
            == all,
        Some(MatchResultView::Partial { prefix, partial }) => prefix + partial == all,
        Some(MatchResultView::NoMatch { content: seen }) => seen == all && (
        state.partial_match_buffer.len() > 0 ==> starts_jail(
            jail,
            state.partial_match_buffer + seen,
            facts,
        ) == Ok::<bool, ParserQueryView>(false)),
        None => true,
    }
}

/// Text leaves, unless there is none of it or it is blank behind a tool call.
pub open spec fn shows(text: Seq<char>, calls: int) -> bool {
    text.len() > 0 && !(calls > 0 && is_blank(text))
}

/// The chunk calls what the parser found.
pub open spec fn calls_it(
    chunk: ChatCompletionMessageToolCallChunkView,
    call: ToolCallResponseView,
    number: int,
) -> bool {
    &&& chunk.id == Some(call.id)
    &&& chunk.function is Some
    &&& chunk.function->0.name == Some(call.function.name)
    &&& chunk.function->0.arguments == Some(call.function.arguments)
    &&& number <= u32::MAX ==> chunk.index == number
}

/// The chunks call what the parser found, in its order, numbered on from `calls`.
pub open spec fn calls_them(
    chunks: Seq<ChatCompletionMessageToolCallChunkView>,
    found: Seq<ToolCallResponseView>,
    calls: int,
) -> bool {
    &&& chunks.len() == found.len()
    &&& forall|i: int|
        0 <= i < found.len() ==> calls_it(#[trigger] chunks[i], found[i], calls + i)
}

/// The calls of the tool that is asked for, where one is; else all of them.
pub open spec fn wanted_calls(
    found: Seq<ToolCallResponseView>,
    named: Option<Seq<char>>,
) -> Seq<ToolCallResponseView> {
    match named {
        Some(name) => found.filter(|call: ToolCallResponseView| call.function.name == name),
        None => found,
    }
}

/// The calls of tools that are defined, where any are; else all of them.
pub open spec fn callable_calls(
    found: Seq<ToolCallResponseView>,
    tools: Option<Seq<ToolDefinitionView>>,
) -> Seq<ToolCallResponseView> {
    match tools {
        Some(list) => found.filter(
            |call: ToolCallResponseView|
                exists|i: int|
                    0 <= i < list.len() && (#[trigger] list[i]).name == call.function.name,
        ),
        None => found,
    }
}

/// The calls are made, all of them and no others; without calls there is nothing.
pub open spec fn makes_calls(
    chunks: Option<Seq<ChatCompletionMessageToolCallChunkView>>,
    wanted: Seq<ToolCallResponseView>,
    calls: int,
) -> bool {
    if wanted.len() == 0 {
        chunks is None
    } else {
        chunks is Some && calls_them(chunks->0, wanted, calls)
    }
}

/// A parser found tool calls.
pub open spec fn finds_calls(parsed: Option<ParsedToolCallsView>) -> bool {
    parsed is Some && parsed->0.calls.len() > 0
}

/// The emission is what became of the parsed `text`: the calls that the parser found, in
/// their order, with the rest of the text; or, where it found none, those between tags; or,
/// where there are none either and the parser left the text alone, the text.
pub open spec fn answers(
    emission: ChoiceEmissionView,
    text: Seq<char>,
    calls: int,
    finalize: bool,
    jail: JailedStreamView,
    facts: ParserFactsView,
) -> bool {
    let tool_calls = emission.choice().delta.tool_calls;
    &&& is_answer(emission)
    &&& emission.choice().delta.role == Some(Role::Assistant)
    &&& emission is ToolCall <==> tool_calls is Some
    &&& facts.calls_in(text, finalize) is Some
    &&& finds_calls(facts.calls_in(text, finalize)->0) ==> {
        let parsed = facts.calls_in(text, finalize)->0->0;
        &&& makes_calls(tool_calls, wanted_calls(parsed.calls, jail.named_tool_name), calls)
        &&& text_in(emission.choice()) == (match parsed.normal_text {
            Some(rest) => rest,
            None => Seq::<char>::empty(),
        })
    }
    &&& !finds_calls(facts.calls_in(text, finalize)->0) ==> {
        let tagged = facts.tagged_in(text, finalize);
        let callable = if finds_calls(tagged->0) {
            callable_calls(tagged->0->0.calls, jail.tool_definitions)
        } else {
            Seq::empty()
        };
        &&& tagged is Some
        &&& makes_calls(tool_calls, wanted_calls(callable, jail.named_tool_name), calls)
        &&& text_in(emission.choice()) == {
            let parsed = facts.calls_in(text, finalize)->0;
            if callable.len() > 0 || parsed is None || parsed->0.normal_text == Some(
                Seq::<char>::empty(),
            ) {
                Seq::<char>::empty()
            } else {
                text
            }
        }
    }
}

/// How many calls an emission makes.
pub open spec fn calls_made(emission: ChoiceEmissionView) -> int {
    match emission.choice().delta.tool_calls {
        Some(calls) => calls.len() as int,
        None => 0,
    }
}

/// Text in parts: what stands in front of the text that was parsed, if any was, and what
/// stands behind it.
#[verifier::ext_equal]
pub struct Parts {
    pub lead: Seq<char>,
    pub parsed: Option<Seq<char>>,
    pub trail: Seq<char>,
}

impl Parts {
    /// The parts together.
    pub open spec fn together(self) -> Seq<char> {
        match self.parsed {
            Some(text) => self.lead + text + self.trail,
            None => self.lead + self.trail,
        }
    }
}

/// What left is what the parts say, in their order.
pub open spec fn leaves(
    parts: Parts,
    before: ChoiceJailStateView,
    choice: ChatChoiceStreamView,
    done: Processed,
    jail: JailedStreamView,
    facts: ParserFactsView,
) -> bool {
    let calls = before.emitted_tool_calls_count as int;
    let after = done.state.emitted_tool_calls_count as int;
    let first = if shows(parts.lead, calls) {
        1int
    } else {
        0int
    };
    let middle = if parts.parsed is Some {
        1int
    } else {
        0int
    };
    let last = if shows(parts.trail, after) {
        1int
    } else {
        0int
    };
    let n = first + middle + last;
    if n == 0 {
        &&& done.emissions.len() == if choice.finish_reason is Some {
            1int
        } else {
            0int
        }
        &&& done.emissions.len() == 1 ==> done.emissions[0] is PassThrough
            && done.emissions[0].choice().delta.content is None
            && done.emissions[0].choice().delta.tool_calls is None
    } else {
        &&& done.emissions.len() == n
        &&& first == 1 ==> done.emissions[0] is PassThrough && text_in(done.emissions[0].choice())
            == parts.lead && done.emissions[0].choice().delta.role == choice.delta.role
        &&& middle == 1 ==> answers(
            done.emissions[first],
            parts.parsed->0,
            calls,
            false,
            jail,
            facts,
        )
        &&& last == 1 ==> done.emissions[n - 1] is Trailing && text_in(
            done.emissions[n - 1].choice(),
        ) == parts.trail && done.emissions[n - 1].choice().delta.role == choice.delta.role
    }
}

/// How many calls left.
pub open spec fn counts(parts: Parts, before: ChoiceJailStateView, done: Processed) -> bool {
    let calls = before.emitted_tool_calls_count as int;
    let after = done.state.emitted_tool_calls_count as int;
    match parts.parsed {
        None => after == calls,
        Some(_) => {
            let made = calls_made(
                done.emissions[if shows(parts.lead, calls) {
                    1
                } else {
                    0
                }],
            );
            &&& calls <= after
            &&& calls + made <= usize::MAX ==> after == calls + made
        },
    }
}

/// Which parts the text has: in front of a marker everything leaves, the beginning of a
/// marker waits, and from a marker on the text is jailed until the jail ends.
pub open spec fn parted(
    parts: Parts,
    before: ChoiceJailStateView,
    content: Seq<char>,
    done: Processed,
    jail: JailedStreamView,
    facts: ParserFactsView,
) -> bool {
    let rest = parts.trail + held(done.state);
    let jailed = match parts.parsed {
        Some(text) => text + rest,
        None => rest,
    };
    let closed = {
        &&& ends_jail(jail, jailed, facts) is Ok
        &&& ends_jail(jail, jailed, facts)->Ok_0.0 <==> parts.parsed is Some
        &&& parts.parsed matches Some(text) ==> {
            &&& ends_jail(jail, jailed, facts)->Ok_0.1 == text.len()
            &&& rest.len() > 0 ==> (starts_jail(jail, rest, facts) == Ok::<bool, ParserQueryView>(
                done.state.is_jailed,
            ))
            &&& rest.len() == 0 ==> !done.state.is_jailed
            &&& done.state.is_jailed ==> parts.trail.len() == 0
            &&& !done.state.is_jailed ==> held(done.state).len() == 0
        }
        &&& parts.parsed is None ==> parts.trail.len() == 0 && done.state.is_jailed
    };
    if before.is_jailed {
        parts.lead.len() == 0 && closed
    } else {
        match marker_answer(facts.markers, content, before.partial_match_buffer) {
            None => false,
            Some(MatchResultView::Complete { prefix, .. }) => parts.lead == prefix && closed,
            Some(MatchResultView::Partial { prefix, partial }) => {
                &&& parts.lead == prefix
                &&& parts.parsed is None
                &&& parts.trail.len() == 0
                &&& !done.state.is_jailed
                &&& held(done.state) == partial
            },
            Some(MatchResultView::NoMatch { .. }) => {
                &&& parts.parsed is None
                &&& parts.trail.len() == 0
                &&& before.partial_match_buffer.len() == 0 ==> (starts_jail(jail, content, facts)
                    == Ok::<bool, ParserQueryView>(done.state.is_jailed))
                &&& before.partial_match_buffer.len() > 0 ==> !done.state.is_jailed
                &&& done.state.is_jailed ==> parts.lead.len() == 0
                &&& !done.state.is_jailed ==> held(done.state).len() == 0
            },
        }
    }
}

/// Every letter that was held back or came is in one of the parts or is held back.
pub open spec fn accounted(
    parts: Parts,
    before: ChoiceJailStateView,
    choice: ChatChoiceStreamView,
    content: Seq<char>,
    done: Processed,
    jail: JailedStreamView,
    facts: ParserFactsView,
) -> bool {
    &&& held(before) + content == parts.together() + held(done.state)
    &&& leaves(parts, before, choice, done, jail, facts)
    &&& counts(parts, before, done)
    &&& parted(parts, before, content, done, jail, facts)
    &&& settled(done.state)
}

/// An end marker ends inside the text.
proof fn lemma_marker_inside(content: Seq<char>, sequences: Seq<Seq<char>>)
    ensures
        end_marker(content, sequences) matches Some(end) ==> 0 <= end <= content.len(),
    decreases sequences.len(),
{
    if sequences.len() > 0 {
        lemma_find_text(content, sequences[0]);
        lemma_marker_inside(content, sequences.subrange(1, sequences.len() as int));
    }
}

/// A jail ends inside the text.
proof fn lemma_end_inside(jail: JailedStreamView, content: Seq<char>, facts: ParserFactsView)
    requires
        jail.jail_mode is MarkerBased,
        facts.wf(),
    ensures
        ends_jail(jail, content, facts) matches Ok((true, end)) ==> 0 <= end <= content.len(),
{
    lemma_end_in_text(facts.call_ends, content);
    lemma_marker_inside(content, jail.jail_end_sequences);
}

/// The calls of defined tools are those that can be made.
proof fn lemma_known(found: Seq<ToolCallResponseView>, tools: Option<Seq<ToolDefinitionView>>)
    ensures
        known_calls(found, tools) == callable_calls(found, tools),
    decreases found.len(),
{
    reveal(Seq::filter);
    if found.len() > 0 {
        let front = found.drop_last();
        assert(front =~= found.subrange(0, found.len() - 1));
        lemma_known(front, tools);
        assert(front.push(found[found.len() - 1]) =~= found);
    } else {
        assert(known_calls(found, tools) =~= callable_calls(found, tools));
    }
}

/// The calls of the tool that is asked for are kept.
proof fn lemma_named(found: Seq<ToolCallResponseView>, name: Seq<char>)
    ensures
        calls_named(found, name) == wanted_calls(found, Some(name)),
    decreases found.len(),
{
    reveal(Seq::filter);
    if found.len() > 0 {
        let front = found.drop_last();
        assert(front =~= found.subrange(0, found.len() - 1));
        lemma_named(front, name);
    }
}

/// The chunks of the tool that is asked for are those of its calls.
proof fn lemma_chunks_named(found: Seq<ToolCallResponseView>, offset: int, name: Seq<char>)
    ensures
        ({
            let kept = chunks_named(chunks_of(found, offset), name);
            let wanted = wanted_calls(found, Some(name));
            &&& kept.len() == wanted.len()
            &&& forall|i: int|
                0 <= i < kept.len() ==> {
                    &&& (#[trigger] kept[i]).id == Some(wanted[i].id)
                    &&& kept[i].function is Some
                    &&& kept[i].function->0.name == Some(wanted[i].function.name)
                    &&& kept[i].function->0.arguments == Some(wanted[i].function.arguments)
                }
        }),
    decreases found.len(),
{
    reveal(Seq::filter);
    if found.len() > 0 {
        let n = found.len() - 1;
        let front = found.drop_last();
        let all = chunks_of(found, offset);
        assert(all.subrange(0, n) =~= chunks_of(front, offset));
        lemma_chunks_named(front, offset, name);
        let before = chunks_named(chunks_of(front, offset), name);
        let less = wanted_calls(front, Some(name));
        let kept = chunks_named(all, name);
        let wanted = wanted_calls(found, Some(name));
        assert forall|i: int| 0 <= i < kept.len() implies {
            &&& (#[trigger] kept[i]).id == Some(wanted[i].id)
            &&& kept[i].function is Some
            &&& kept[i].function->0.name == Some(wanted[i].function.name)
            &&& kept[i].function->0.arguments == Some(wanted[i].function.arguments)
        } by {
            if i < before.len() {
                assert(kept[i] == before[i] && wanted[i] == less[i]);
            }
        }
    }
}

/// The choice that is made from parsed text answers it.
pub(crate) proof fn lemma_choice_answers(
    emission: ChoiceEmissionView,
    made: ChatChoiceStreamView,
    index: u32,
    text: Seq<char>,
    base: ChatChoiceStreamView,
    calls: int,
    finalize: bool,
    jail: JailedStreamView,
    facts: ParserFactsView,
)
    requires
        by_markers(jail),
        0 <= calls,
        call_choice(jail, index, text, base, calls, finalize, facts) matches Ok(first)
            && made.delta.content == first.delta.content && made.delta.tool_calls
            == first.delta.tool_calls && made.delta.role == first.delta.role,
        emission.choice().delta.content == made.delta.content,
        emission.choice().delta.tool_calls == made.delta.tool_calls,
        emission.choice().delta.role == made.delta.role,
        emission is ToolCall || emission is Content,
        emission is ToolCall <==> made.delta.tool_calls is Some,
    ensures
        answers(emission, text, calls, finalize, jail, facts),
{
    let parsed = facts.calls_in(text, finalize)->0;
    if finds_calls(parsed) {
        if let Some(name) = jail.named_tool_name {
            lemma_named(parsed->0.calls, name);
        }
    } else {
        let tagged = facts.tagged_in(text, finalize)->0;
        if finds_calls(tagged) {
            lemma_known(tagged->0.calls, jail.tool_definitions);
            let callable = callable_calls(tagged->0.calls, jail.tool_definitions);
            if let Some(name) = jail.named_tool_name {
                lemma_chunks_named(callable, calls, name);
                if callable.len() == 0 {
                    lemma_named(callable, name);
                }
            }
        } else {
            let none = Seq::<ToolCallResponseView>::empty();
            if tagged is Some {
                assert(tagged->0.calls =~= none);
                assert(known_calls(none, jail.tool_definitions).len() == 0);
            }
            if let Some(name) = jail.named_tool_name {
                lemma_named(none, name);
                assert(calls_named(none, name).len() == 0);
            }
        }
    }
}

/// What becomes of parsed text answers it.
proof fn lemma_made_answers(
    before: Processed,
    made: ChatChoiceStreamView,
    index: u32,
    text: Seq<char>,
    base: ChatChoiceStreamView,
    jail: JailedStreamView,
    facts: ParserFactsView,
)
    requires
        by_markers(jail),
        settled(before.state),
        call_choice(
            jail,
            index,
            text,
            base,
            before.state.emitted_tool_calls_count as int,
            false,
            facts,
        ) matches Ok(first) && made == (ChatChoiceStreamView { logprobs: made.logprobs, ..first }),
    ensures
        ({
            let out = released(before, made, jail);
            &&& out.emissions.len() == before.emissions.len() + 1
            &&& out.emissions.drop_last() == before.emissions
            &&& answers(
                out.emissions.last(),
                text,
                before.state.emitted_tool_calls_count as int,
                false,
                jail,
                facts,
            )
            &&& out.state == (ChoiceJailStateView {
                emitted_tool_calls_count: out.state.emitted_tool_calls_count,
                ..before.state
            })
            &&& before.state.emitted_tool_calls_count <= out.state.emitted_tool_calls_count
            &&& before.state.emitted_tool_calls_count + calls_made(out.emissions.last())
                <= usize::MAX ==> out.state.emitted_tool_calls_count
                == before.state.emitted_tool_calls_count + calls_made(out.emissions.last())
        }),
{
    let out = released(before, made, jail);
    assert(out.emissions.drop_last() =~= before.emissions);
    lemma_choice_answers(
        out.emissions.last(),
        made,
        index,
        text,
        base,
        before.state.emitted_tool_calls_count as int,
        false,
        jail,
        facts,
    );
}

/// A choice whose chunk does not end it.
pub open spec fn going_on(choice: ChatChoiceStreamView) -> ChatChoiceStreamView {
    ChatChoiceStreamView { finish_reason: None, ..choice }
}

/// What stands behind parsed text is passed on, jailed again, or dropped where it is blank.
proof fn lemma_trailed(
    mid: Processed,
    choice: ChatChoiceStreamView,
    trailing: Seq<char>,
    after: Processed,
    jail: JailedStreamView,
    facts: ParserFactsView,
) -> (trail: Seq<char>)
    requires
        by_markers(jail),
        !mid.state.is_jailed,
        mid.state.partial_match_buffer.len() == 0,
        trailed(mid, choice, jail, trailing, facts) == Ok::<Processed, ParserQueryView>(after),
    ensures
        trail + held(after.state) == trailing,
        shows(trail, mid.state.emitted_tool_calls_count as int) ==> after.emissions
            == mid.emissions.push(ChoiceEmissionView::Trailing(piece(choice, trail))),
        !shows(trail, mid.state.emitted_tool_calls_count as int) ==> after.emissions
            == mid.emissions,
        after.state.emitted_tool_calls_count == mid.state.emitted_tool_calls_count,
        after.state.partial_match_buffer.len() == 0,
        after.state.terminate_after_tool_call == mid.state.terminate_after_tool_call,
        trailing.len() > 0 ==> starts_jail(jail, trailing, facts) == Ok::<bool, ParserQueryView>(
            after.state.is_jailed,
        ),
        trailing.len() == 0 ==> !after.state.is_jailed,
        after.state.is_jailed ==> trail.len() == 0,
        !after.state.is_jailed ==> held(after.state).len() == 0,
{
    if after.state.is_jailed {
        assert(Seq::<char>::empty() + held(after.state) =~= trailing);
        Seq::empty()
    } else {
        assert(trailing + held(after.state) =~= trailing);
        trailing
    }
}

/// Text that comes to a jailed choice is accounted for.
proof fn lemma_jailed_accounted(
    before: ChoiceJailStateView,
    choice: ChatChoiceStreamView,
    content: Seq<char>,
    after: Processed,
    jail: JailedStreamView,
    facts: ParserFactsView,
) -> (parts: Parts)
    requires
        by_markers(jail),
        facts.wf(),
        settled(before),
        before.is_jailed,
        jailed_text(before, choice, content, jail, facts) == Ok::<Processed, ParserQueryView>(
            after,
        ),
    ensures
        accounted(parts, before, going_on(choice), content, after, jail, facts),
{
    let all = before.accumulated_content + content;
    let none = Seq::<char>::empty();
    lemma_end_inside(jail, all, facts);
    let ends = ends_jail(jail, all, facts);
    if !ends->Ok_0.0 {
        let parts = Parts { lead: none, parsed: None, trail: none };
        assert(parts.together() + held(after.state) =~= all);
        assert(parts.trail + held(after.state) =~= all);
        parts
    } else {
        let split = ends->Ok_0.1;
        let text = all.subrange(0, split);
        let rest = all.subrange(split, all.len() as int);
        let logprobs = logprobs_joined(
            before.accumulated_logprobs,
            choice.logprobs,
        );
        let grown = Processed {
            state: ChoiceJailStateView {
                accumulated_content: all,
                accumulated_logprobs: logprobs,
                ..before
            },
            emissions: Seq::empty(),
        };
        let count = before.emitted_tool_calls_count as int;
        let first = call_choice(jail, choice.index, text, choice, count, false, facts)->Ok_0;
        let made = ChatChoiceStreamView { logprobs, ..first };
        lemma_made_answers(grown, made, choice.index, text, choice, jail, facts);
        let out = released(grown, made, jail);
        let mid = Processed { state: out.state.unjailed(), ..out };
        let trail = lemma_trailed(mid, choice, rest, after, jail, facts);
        let parts = Parts { lead: none, parsed: Some(text), trail };
        assert(text + rest =~= all);
        assert(parts.together() + held(after.state) =~= text + (trail + held(after.state)));
        assert(after.emissions[0] == out.emissions[0]);
        parts
    }
}

/// Text with a whole marker in it is accounted for.
proof fn lemma_marker_accounted(
    before: ChoiceJailStateView,
    choice: ChatChoiceStreamView,
    content: Seq<char>,
    after: Processed,
    jail: JailedStreamView,
    facts: ParserFactsView,
) -> (parts: Parts)
    requires
        by_markers(jail),
        facts.wf(),
        settled(before),
        !before.is_jailed,
        matcher_is_right(before, content, jail, facts),
        marker_answer(facts.markers, content, before.partial_match_buffer) is Some,
        marker_answer(facts.markers, content, before.partial_match_buffer)->0 is Complete,
        free_text(before, choice, content, jail, facts) == Ok::<Processed, ParserQueryView>(after),
    ensures
        accounted(parts, before, going_on(choice), content, after, jail, facts),
{
    let none = Seq::<char>::empty();
    match marker_answer(facts.markers, content, before.partial_match_buffer)->0 {
        MatchResultView::Complete { prefix, marker, suffix } => {
            let full = marker + suffix;
            let start = Processed {
                state: before,
                emissions: prefix_emitted(before, choice, jail, prefix),
            };
            let count = before.emitted_tool_calls_count as int;
            lemma_end_inside(jail, full, facts);
            let ends = ends_jail(jail, full, facts);
            if !ends->Ok_0.0 {
                let parts = Parts { lead: prefix, parsed: None, trail: none };
                assert(parts.together() + held(after.state) =~= prefix + full);
                assert(parts.trail + held(after.state) =~= full);
                parts
            } else {
                let split = ends->Ok_0.1;
                let text = full.subrange(0, split);
                let rest = full.subrange(split, full.len() as int);
                let made = call_choice(jail, choice.index, text, choice, count, false, facts)->Ok_0;
                lemma_made_answers(start, made, choice.index, text, choice, jail, facts);
                let mid = released(start, made, jail);
                let late = trailed(mid, choice, jail, rest, facts)->Ok_0;
                let empty_mid = Processed { state: mid.state.nothing_partial(), ..mid };
                let trail = lemma_trailed(empty_mid, choice, rest, after, jail, facts);
                let parts = Parts { lead: prefix, parsed: Some(text), trail };
                assert(text + rest =~= full);
                assert(parts.together() + held(after.state) =~= prefix + (text + (trail + held(
                    after.state,
                ))));
                let first = start.emissions.len() as int;
                assert(after.emissions[first] == mid.emissions.last());
                parts
            }
        },
        _ => Parts { lead: none, parsed: None, trail: none },
    }
}

/// Text without a whole marker in it is accounted for.
proof fn lemma_unmarked_accounted(
    before: ChoiceJailStateView,
    choice: ChatChoiceStreamView,
    content: Seq<char>,
    after: Processed,
    jail: JailedStreamView,
    facts: ParserFactsView,
) -> (parts: Parts)
    requires
        by_markers(jail),
        settled(before),
        !before.is_jailed,
        matcher_is_right(before, content, jail, facts),
        marker_answer(facts.markers, content, before.partial_match_buffer) is Some,
        !(marker_answer(facts.markers, content, before.partial_match_buffer)->0 is Complete),
        free_text(before, choice, content, jail, facts) == Ok::<Processed, ParserQueryView>(after),
    ensures
        accounted(parts, before, going_on(choice), content, after, jail, facts),
{
    let none = Seq::<char>::empty();
    match marker_answer(facts.markers, content, before.partial_match_buffer)->0 {
        MatchResultView::Partial { prefix, partial } => {
            let parts = Parts { lead: prefix, parsed: None, trail: none };
            assert(parts.together() + held(after.state) =~= prefix + partial);
            parts
        },
        MatchResultView::NoMatch { content: seen } => {
            if before.partial_match_buffer.len() == 0 {
                assert(before.partial_match_buffer + seen =~= seen);
                assert(before.partial_match_buffer + content =~= content);
            }
            if after.state.is_jailed {
                let parts = Parts { lead: none, parsed: None, trail: none };
                assert(parts.together() + held(after.state) =~= seen);
                parts
            } else {
                let parts = Parts { lead: seen, parsed: None, trail: none };
                assert(parts.together() + held(after.state) =~= seen);
                parts
            }
        },
        _ => Parts { lead: none, parsed: None, trail: none },
    }
}

/// The finish reason of a chunk changes nothing of the text.
proof fn lemma_finish_accounted(
    parts: Parts,
    before: ChoiceJailStateView,
    choice: ChatChoiceStreamView,
    content: Seq<char>,
    after: Processed,
    done: Processed,
    jail: JailedStreamView,
    facts: ParserFactsView,
)
    requires
        by_markers(jail),
        accounted(parts, before, going_on(choice), content, after, jail, facts),
        finish_kept(after, choice, jail, facts) == Ok::<Processed, ParserQueryView>(done),
    ensures
        accounted(parts, before, choice, content, done, jail, facts),
{
    assert(done.state == after.state);
    if after.emissions.len() > 0 {
        assert(done.emissions.len() == after.emissions.len());
        assert forall|i: int| 0 <= i < done.emissions.len() implies {
            let (a, b) = (#[trigger] done.emissions[i], after.emissions[i]);
            &&& a.choice().delta == b.choice().delta
            &&& (a is PassThrough) == (b is PassThrough)
            &&& (a is ToolCall) == (b is ToolCall)
            &&& (a is Content) == (b is Content)
            &&& (a is Trailing) == (b is Trailing)
        } by {}
    }
}

/// No text is lost where a jail waits for markers. What was held back, with what came behind
/// it, is the text that leaves in front of a tool call, the text that was parsed, the text
/// that leaves behind it, and what is held back now; and it leaves whole and in this order.
/// Where the matcher finds a marker, everything in front of it leaves.
pub proof fn law_no_text_is_lost(
    before: ChoiceJailStateView,
    choice: ChatChoiceStreamView,
    content: Seq<char>,
    done: Processed,
    jail: JailedStreamView,
    facts: ParserFactsView,
) -> (parts: Parts)
    requires
        by_markers(jail),
        facts.wf(),
        settled(before),
        !before.is_jailed ==> matcher_is_right(before, content, jail, facts),
        processed(before, choice, content, jail, facts) == Ok::<Processed, ParserQueryView>(done),
    ensures
        accounted(parts, before, choice, content, done, jail, facts),
        !before.is_jailed ==> (marker_answer(facts.markers, content, before.partial_match_buffer)
            matches Some(MatchResultView::Complete { prefix, .. }) ==> (
        before.emitted_tool_calls_count == 0 ==> prefix.is_prefix_of(spoken(done.emissions)))),
{
    reveal(processed);
    let after = if before.is_jailed {
        jailed_text(before, choice, content, jail, facts)->Ok_0
    } else {
        free_text(before, choice, content, jail, facts)->Ok_0
    };
    let parts = if before.is_jailed {
        lemma_jailed_accounted(before, choice, content, after, jail, facts)
    } else if marker_answer(
        facts.markers,
        content,
        before.partial_match_buffer,
    )->0 is Complete {
        lemma_marker_accounted(before, choice, content, after, jail, facts)
    } else {
        lemma_unmarked_accounted(before, choice, content, after, jail, facts)
    };
    lemma_finish_accounted(parts, before, choice, content, after, done, jail, facts);
    lemma_parts_spoken(parts, before, choice, done, jail, facts);
    parts
}

/// The text of a part, where it leaves.
pub open spec fn shown(text: Seq<char>, calls: int) -> Seq<char> {
    if shows(text, calls) {
        text
    } else {
        Seq::empty()
    }
}

/// What leaves as text is what stands in front of the parsed text and behind it.
proof fn lemma_parts_spoken(
    parts: Parts,
    before: ChoiceJailStateView,
    choice: ChatChoiceStreamView,
    done: Processed,
    jail: JailedStreamView,
    facts: ParserFactsView,
)
    requires
        leaves(parts, before, choice, done, jail, facts),
    ensures
        spoken(done.emissions) == shown(parts.lead, before.emitted_tool_calls_count as int) + shown(
            parts.trail,
            done.state.emitted_tool_calls_count as int,
        ),
        answered(done.emissions) == if parts.parsed is Some {
            1int
        } else {
            0int
        },
{
    reveal_with_fuel(spoken, 4);
    reveal_with_fuel(answered, 4);
    let e = done.emissions;
    if e.len() > 0 {
        assert(e.last() == e[e.len() - 1]);
        if e.len() > 1 {
            assert(e.drop_last().last() == e[e.len() - 2]);
        }
        if e.len() > 2 {
            assert(e.drop_last().drop_last().last() == e[e.len() - 3]);
        }
    }
    assert(spoken(e) =~= shown(parts.lead, before.emitted_tool_calls_count as int) + shown(
        parts.trail,
        done.state.emitted_tool_calls_count as int,
    ));
}

/// A piece of text of a choice, with what the parsers say of it.
pub struct Arrival {
    pub choice: ChatChoiceStreamView,
    pub content: Seq<char>,
    pub facts: ParserFactsView,
}

/// What pieces of text lead to, one behind the other; nothing where a question is open.
pub open spec fn ran(
    start: ChoiceJailStateView,
    arrivals: Seq<Arrival>,
    jail: JailedStreamView,
) -> Option<Processed>
    decreases arrivals.len(),
{
    if arrivals.len() == 0 {
        Some(Processed { state: start, emissions: Seq::empty() })
    } else {
        let now = arrivals.last();
        match ran(start, arrivals.drop_last(), jail) {
            None => None,
            Some(front) => match processed(
                front.state,
                now.choice,
                now.content,
                jail,
                now.facts,
            ) {
                Err(_) => None,
                Ok(done) => Some(
                    Processed { state: done.state, emissions: front.emissions + done.emissions },
                ),
            },
        }
    }
}

/// The text that came.
pub open spec fn text_of(arrivals: Seq<Arrival>) -> Seq<char>
    decreases arrivals.len(),
{
    if arrivals.len() == 0 {
        Seq::empty()
    } else {
        text_of(arrivals.drop_last()) + arrivals.last().content
    }
}

/// The parsers answer consistently all along.
pub open spec fn answered_rightly(
    start: ChoiceJailStateView,
    arrivals: Seq<Arrival>,
    jail: JailedStreamView,
) -> bool
    decreases arrivals.len(),
{
    arrivals.len() > 0 ==> {
        let now = arrivals.last();
        &&& answered_rightly(start, arrivals.drop_last(), jail)
        &&& now.facts.wf()
        &&& ran(start, arrivals.drop_last(), jail) matches Some(front) ==> (
        !front.state.is_jailed ==> matcher_is_right(front.state, now.content, jail, now.facts))
    }
}

/// What became of a piece of the text.
pub enum Fate {
    /// It left as it came.
    Passed,
    /// It was parsed for tool calls.
    Parsed,
    /// It was blank, and there was a tool call before it.
    Dropped,
}

/// A piece of the text, with what became of it.
pub struct Segment {
    pub text: Seq<char>,
    pub fate: Fate,
}

/// The text of all segments.
pub open spec fn segments_text(segments: Seq<Segment>) -> Seq<char>
    decreases segments.len(),
{
    if segments.len() == 0 {
        Seq::empty()
    } else {
        segments_text(segments.drop_last()) + segments.last().text
    }
}

/// The text of the segments that left as they came.
pub open spec fn segments_passed(segments: Seq<Segment>) -> Seq<char>
    decreases segments.len(),
{
    if segments.len() == 0 {
        Seq::empty()
    } else {
        segments_passed(segments.drop_last()) + if segments.last().fate is Passed {
            segments.last().text
        } else {
            Seq::empty()
        }
    }
}

/// How many segments were parsed.
pub open spec fn segments_parsed(segments: Seq<Segment>) -> nat
    decreases segments.len(),
{
    if segments.len() == 0 {
        0
    } else {
        segments_parsed(segments.drop_last()) + if segments.last().fate is Parsed {
            1nat
        } else {
            0nat
        }
    }
}

/// The segments are the whole text but for what is held back, what left of them is what
/// was said, each parsed one is answered once, and only blank text is dropped, and nothing
/// before the first tool call.
pub open spec fn tells(segments: Seq<Segment>, text: Seq<char>, done: Processed) -> bool {
    &&& segments_text(segments) + held(done.state) == text
    &&& segments_passed(segments) == spoken(done.emissions)
    &&& segments_parsed(segments) == answered(done.emissions)
    &&& forall|i: int|
        0 <= i < segments.len() && (#[trigger] segments[i]).fate is Dropped ==> is_blank(
            segments[i].text,
        ) && done.state.emitted_tool_calls_count > 0
}

/// The emissions of two runs are said one behind the other.
proof fn lemma_spoken_join(a: Seq<ChoiceEmissionView>, b: Seq<ChoiceEmissionView>)
    ensures
        spoken(a + b) == spoken(a) + spoken(b),
        answered(a + b) == answered(a) + answered(b),
    decreases b.len(),
{
    if b.len() == 0 {
        assert(a + b =~= a);
        assert(spoken(a) + spoken(b) =~= spoken(a));
    } else {
        assert((a + b).drop_last() =~= a + b.drop_last());
        lemma_spoken_join(a, b.drop_last());
        assert(spoken(a + b) =~= spoken(a) + spoken(b));
    }
}

/// One segment more.
proof fn lemma_segment(segments: Seq<Segment>, segment: Segment)
    ensures
        segments_text(segments.push(segment)) == segments_text(segments) + segment.text,
        segments_passed(segments.push(segment)) == segments_passed(segments)
            + if segment.fate is Passed {
            segment.text
        } else {
            Seq::empty()
        },
        segments_parsed(segments.push(segment)) == segments_parsed(segments)
            + if segment.fate is Parsed {
            1nat
        } else {
            0nat
        },
{
    assert(segments.push(segment).drop_last() =~= segments);
}

/// A part of the text that leaves, or is dropped.
pub open spec fn part(text: Seq<char>, calls: int) -> Segment {
    Segment {
        text,
        fate: if text.len() > 0 && !shows(text, calls) {
            Fate::Dropped
        } else {
            Fate::Passed
        },
    }
}

/// Over a whole stream that waits for markers, no text is lost: what came is, in its order,
/// the text that left as it came, the text that was parsed for tool calls and answered, and
/// what is still held back. Only blank text behind a tool call is dropped.
pub proof fn law_streams_lose_no_text(
    index: u32,
    arrivals: Seq<Arrival>,
    done: Processed,
    jail: JailedStreamView,
) -> (segments: Seq<Segment>)
    requires
        by_markers(jail),
        answered_rightly(ChoiceJailStateView::initial(index, false), arrivals, jail),
        ran(ChoiceJailStateView::initial(index, false), arrivals, jail) == Some(done),
    ensures
        tells(segments, text_of(arrivals), done),
        settled(done.state),
    decreases arrivals.len(),
{
    let start = ChoiceJailStateView::initial(index, false);
    if arrivals.len() == 0 {
        let segments = Seq::<Segment>::empty();
        assert(segments_text(segments) + held(done.state) =~= Seq::<char>::empty());
        segments
    } else {
        let now = arrivals.last();
        let front = ran(start, arrivals.drop_last(), jail)->0;
        let earlier = law_streams_lose_no_text(index, arrivals.drop_last(), front, jail);
        let step = processed(front.state, now.choice, now.content, jail, now.facts)->Ok_0;
        let parts = law_no_text_is_lost(
            front.state,
            now.choice,
            now.content,
            step,
            jail,
            now.facts,
        );
        lemma_parts_spoken(parts, front.state, now.choice, step, jail, now.facts);
        lemma_spoken_join(front.emissions, step.emissions);
        let calls = front.state.emitted_tool_calls_count as int;
        let after = step.state.emitted_tool_calls_count as int;
        let one = earlier.push(part(parts.lead, calls));
        lemma_segment(earlier, part(parts.lead, calls));
        let two = match parts.parsed {
            Some(text) => one.push(Segment { text, fate: Fate::Parsed }),
            None => one,
        };
        if parts.parsed is Some {
            lemma_segment(one, Segment { text: parts.parsed->0, fate: Fate::Parsed });
        }
        let segments = two.push(part(parts.trail, after));
        lemma_segment(two, part(parts.trail, after));
        assert(segments_text(segments) =~= segments_text(earlier) + parts.together());
        assert(segments_text(segments) + held(done.state) =~= segments_text(earlier) + (
        parts.together() + held(done.state)));
        assert(segments_text(earlier) + (held(front.state) + now.content) =~= (segments_text(
            earlier,
        ) + held(front.state)) + now.content);
        assert(segments_passed(segments) =~= spoken(front.emissions) + (shown(parts.lead, calls)
            + shown(parts.trail, after)));
        assert forall|i: int|
            0 <= i < segments.len() && (#[trigger] segments[i]).fate is Dropped implies is_blank(
            segments[i].text,
        ) && done.state.emitted_tool_calls_count > 0 by {
            if i < earlier.len() {
                assert(segments[i] == earlier[i]);
            }
        }
        segments
    }
}

/// The sequence stands somewhere in the text.
pub open spec fn stands_in(sequence: Seq<char>, text: Seq<char>) -> bool {
    exists|i: int| occurs_at(text, sequence, i)
}

/// A jail starts with text in which one of its start sequences stands, at whatever place;
/// without one, as its parser says, and where it has none not at all.
pub proof fn law_jails_start_at_their_sequences(
    jail: JailedStreamView,
    text: Seq<char>,
    facts: ParserFactsView,
    k: int,
)
    ensures
        0 <= k < jail.jail_start_sequences.len() && stands_in(jail.jail_start_sequences[k], text)
            ==> starts_jail(jail, text, facts) == Ok::<bool, ParserQueryView>(true),
        (forall|j: int|
            0 <= j < jail.jail_start_sequences.len() ==> !stands_in(
                #[trigger] jail.jail_start_sequences[j],
                text,
            )) ==> {
            let starts = starts_jail(jail, text, facts);
            &&& jail.tool_call_parser is None ==> starts == Ok::<bool, ParserQueryView>(false)
            &&& jail.tool_call_parser is Some ==> match answer_about(facts.call_starts, text) {
                Some(answer) => starts == Ok::<bool, ParserQueryView>(answer),
                None => starts is Err,
            }
        },
{
    if 0 <= k < jail.jail_start_sequences.len() {
        lemma_find_text(text, jail.jail_start_sequences[k]);
        if stands_in(jail.jail_start_sequences[k], text) {
            assert(contains_text(text, jail.jail_start_sequences[k]));
        }
    }
    if any_contained(text, jail.jail_start_sequences) {
        let j = choose|j: int|
            0 <= j < jail.jail_start_sequences.len() && contains_text(
                text,
                #[trigger] jail.jail_start_sequences[j],
            );
        lemma_find_text(text, jail.jail_start_sequences[j]);
        assert(occurs_at(
            text,
            jail.jail_start_sequences[j],
            find_text(text, jail.jail_start_sequences[j])->0,
        ));
        assert(stands_in(jail.jail_start_sequences[j], text));
    }
}

/// Which end sequence ends a jail.
proof fn lemma_end_found(text: Seq<char>, sequences: Seq<Seq<char>>)
    ensures
        end_marker(text, sequences) is None <==> forall|j: int|
            0 <= j < sequences.len() ==> !stands_in(#[trigger] sequences[j], text),
        end_marker(text, sequences) matches Some(end) ==> exists|j: int|
            0 <= j < sequences.len() && occurs_at(
                text,
                #[trigger] sequences[j],
                end - sequences[j].len(),
            ) && (forall|i: int|
                0 <= i < end - sequences[j].len() ==> !occurs_at(text, sequences[j], i)) && (
            forall|l: int| 0 <= l < j ==> !stands_in(#[trigger] sequences[l], text)),
    decreases sequences.len(),
{
    if sequences.len() > 0 {
        let first = sequences[0];
        let rest = sequences.subrange(1, sequences.len() as int);
        lemma_find_text(text, first);
        lemma_end_found(text, rest);
        if let Some(i) = find_text(text, first) {
            assert(occurs_at(text, first, i));
            assert(stands_in(sequences[0], text));
            assert(occurs_at(text, sequences[0], (i + first.len()) - sequences[0].len()));
        } else {
            assert(!stands_in(first, text));
            match end_marker(text, rest) {
                Some(end) => {
                    let j = choose|j: int|
                        0 <= j < rest.len() && occurs_at(
                            text,
                            #[trigger] rest[j],
                            end - rest[j].len(),
                        ) && (forall|i: int|
                            0 <= i < end - rest[j].len() ==> !occurs_at(text, rest[j], i)) && (
                        forall|l: int| 0 <= l < j ==> !stands_in(#[trigger] rest[l], text));
                    assert(sequences[j + 1] == rest[j]);
                    assert forall|l: int| 0 <= l < j + 1 implies !stands_in(
                        #[trigger] sequences[l],
                        text,
                    ) by {
                        if l > 0 {
                            assert(rest[l - 1] == sequences[l]);
                        }
                    }
                    assert(stands_in(sequences[j + 1], text));
                },
                None => {
                    assert forall|j: int| 0 <= j < sequences.len() implies !stands_in(
                        #[trigger] sequences[j],
                        text,
                    ) by {
                        if j > 0 {
                            assert(rest[j - 1] == sequences[j]);
                        }
                    }
                },
            }
        }
    }
}

/// A jail that waits for markers ends, where its parser finds calls in the text, where the
/// parser says that they end; else behind the first place where an end sequence stands, the
/// first of those that do; and where none stands it goes on.
pub proof fn law_jails_end_where_told(
    jail: JailedStreamView,
    text: Seq<char>,
    facts: ParserFactsView,
)
    requires
        jail.jail_mode is MarkerBased,
        jail.tool_call_parser is Some ==> facts.calls_in(text, false) is Some,
    ensures
        ({
            let ends = ends_jail(jail, text, facts);
            let calls = jail.tool_call_parser is Some && finds_calls(
                facts.calls_in(text, false)->0,
            );
            let sequences = jail.jail_end_sequences;
            &&& calls ==> match answer_about(facts.call_ends, text) {
                Some(Some(end)) => ends is Ok && ends->Ok_0 == (true, end as int),
                Some(None) => ends is Ok && !ends->Ok_0.0,
                None => ends is Err,
            }
            &&& !calls ==> ends is Ok && (ends->Ok_0.0 <==> exists|j: int|
                0 <= j < sequences.len() && stands_in(#[trigger] sequences[j], text))
            &&& !calls && ends->Ok_0.0 ==> exists|j: int|
                0 <= j < sequences.len() && occurs_at(
                    text,
                    #[trigger] sequences[j],
                    ends->Ok_0.1 - sequences[j].len(),
                ) && (forall|i: int|
                    0 <= i < ends->Ok_0.1 - sequences[j].len() ==> !occurs_at(
                        text,
                        sequences[j],
                        i,
                    )) && (forall|l: int|
                    0 <= l < j ==> !stands_in(#[trigger] sequences[l], text))
        }),
{
    lemma_end_found(text, jail.jail_end_sequences);
}

/// Lists that may not be there, one behind the other.
pub open spec fn chained(a: Option<Seq<u64>>, b: Option<Seq<u64>>) -> Seq<u64> {
    (if a is Some {
        a->0
    } else {
        Seq::empty()
    }) + (if b is Some {
        b->0
    } else {
        Seq::empty()
    })
}

/// The log-probabilities of jailed text wait with it: while the jail goes on those that come
/// are put behind those that wait, and when it ends all of them leave with what became of
/// the text.
pub proof fn law_probabilities_wait(
    before: ChoiceJailStateView,
    choice: ChatChoiceStreamView,
    content: Seq<char>,
    done: Processed,
    jail: JailedStreamView,
    facts: ParserFactsView,
)
    requires
        by_markers(jail),
        settled(before),
        before.is_jailed,
        processed(before, choice, content, jail, facts) == Ok::<Processed, ParserQueryView>(done),
        ends_jail(jail, before.accumulated_content + content, facts) is Ok,
    ensures
        ({
            let ended = ends_jail(jail, before.accumulated_content + content, facts)->Ok_0.0;
            let kept = if ended {
                done.emissions[0].choice().logprobs
            } else {
                done.state.accumulated_logprobs
            };
            &&& choice.logprobs is None ==> kept == before.accumulated_logprobs
            &&& choice.logprobs matches Some(new) ==> {
                let old_content = if before.accumulated_logprobs is Some {
                    before.accumulated_logprobs->0.content
                } else {
                    None
                };
                let old_refusal = if before.accumulated_logprobs is Some {
                    before.accumulated_logprobs->0.refusal
                } else {
                    None
                };
                &&& kept is Some
                &&& chained(kept->0.content, None) == chained(old_content, new.content)
                &&& chained(kept->0.refusal, None) == chained(old_refusal, new.refusal)
            }
        }),
{
    reveal(processed);
    let none = Seq::<u64>::empty();
    let logprobs = logprobs_joined(before.accumulated_logprobs, choice.logprobs);
    if let Some(joined) = logprobs {
        assert(chained(joined.content, None) =~= if joined.content is Some {
            joined.content->0
        } else {
            none
        });
        assert(chained(joined.refusal, None) =~= if joined.refusal is Some {
            joined.refusal->0
        } else {
            none
        });
    }
    if let Some(new) = choice.logprobs {
        let kept = logprobs->0;
        if let Some(old_ones) = before.accumulated_logprobs {
            assert(chained(kept.content, None) =~= chained(old_ones.content, new.content));
            assert(chained(kept.refusal, None) =~= chained(old_ones.refusal, new.refusal));
        } else {
            assert(chained(kept.content, None) =~= chained(None, new.content));
            assert(chained(kept.refusal, None) =~= chained(None, new.refusal));
        }
    }
    let after = jailed_text(before, choice, content, jail, facts)->Ok_0;
    let all = before.accumulated_content + content;
    let ends = ends_jail(jail, all, facts)->Ok_0;
    if ends.0 {
        let grown = Processed {
            state: ChoiceJailStateView {
                accumulated_content: all,
                accumulated_logprobs: logprobs,
                ..before
            },
            emissions: Seq::empty(),
        };
        let text = all.subrange(0, ends.1);
        let count = before.emitted_tool_calls_count as int;
        let first = call_choice(jail, choice.index, text, choice, count, false, facts)->Ok_0;
        let made = ChatChoiceStreamView { logprobs, ..first };
        lemma_made_answers(grown, made, choice.index, text, choice, jail, facts);
        let out = released(grown, made, jail);
        assert(out.emissions.len() == 1);
        assert(out.emissions[0].choice().logprobs == logprobs);
        let mid = Processed { state: out.state.unjailed(), ..out };
        let trail = lemma_trailed(
            mid,
            choice,
            all.subrange(ends.1, all.len() as int),
            after,
            jail,
            facts,
        );
        assert(after.emissions[0] == out.emissions[0]);
        assert(done.emissions[0].choice().logprobs == after.emissions[0].choice().logprobs);
    }
}

} // verus!
