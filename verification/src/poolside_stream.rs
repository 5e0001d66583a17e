//! What holds of `poolside_v1` markup over a whole stream, however its text is cut.

use crate::chat_types::{ChatCompletionMessageToolCallChunkView, ToolDefinitionView};
use crate::parser_facts::{answer_about, ParserFactsView, ParserQueryView, TextFactView};
use crate::poolside::{
    argued, delta_result, earlier, left_over, lemma_less_room, lemma_run_wf, lemma_start_room,
    lemma_step_progress, lemma_step_wf, lemma_tags, named, opened, poolside_run, poolside_step,
    start_run, step_outside, work_left, PoolsideOutcome, PoolsideRun, PoolsideToolView,
    PoolsideV1StreamDeltaView, PoolsideV1StreamStateView, ARG_KEY_START, TOOL_CALL_END,
    TOOL_CALL_START,
};
use crate::poolside_args::{
    all_stay, all_values, args_in, has_values, is_open, law_no_arguments_at_first,
    lemma_stay_twice, lemma_text_objects, literals_in, object_text,
};
use crate::poolside_laws::{
    arguments_at, head_at, ids_used, joined, law_pieces_do_not_matter, lemma_ids_in_reach, told,
};
use crate::text::{find_text, lemma_find_text, lemma_safe_len, occurs_at, safe_len, trim_spec};
use vstd::prelude::*;

verus! {

/// The text that pieces make together.
pub open spec fn whole_text(pieces: Seq<Seq<char>>) -> Seq<char>
    decreases pieces.len(),
{
    if pieces.len() == 0 {
        Seq::empty()
    } else {
        whole_text(pieces.drop_last()) + pieces.last()
    }
}

/// The parser after pieces of text, each with the answers that were known for it, and
/// what each of them released; nothing where an answer was missing.
pub open spec fn fed(
    state: PoolsideV1StreamStateView,
    pieces: Seq<Seq<char>>,
    tools: Option<Seq<ToolDefinitionView>>,
    facts: Seq<ParserFactsView>,
) -> Option<(PoolsideV1StreamStateView, Seq<PoolsideV1StreamDeltaView>)>
    decreases pieces.len(),
{
    if pieces.len() == 0 {
        Some((state, Seq::empty()))
    } else {
        match fed(state, pieces.drop_last(), tools, facts) {
            None => None,
            Some((before, deltas)) => match delta_result(
                before,
                pieces.last(),
                tools,
                facts[pieces.len() - 1],
            ) {
                Err(_) => None,
                Ok(run) => Some((run.state, deltas.push(run.delta))),
            },
        }
    }
}

/// The text that deltas release outside tool calls.
pub open spec fn told_by_all(deltas: Seq<PoolsideV1StreamDeltaView>) -> Seq<char>
    decreases deltas.len(),
{
    if deltas.len() == 0 {
        Seq::empty()
    } else {
        told_by_all(deltas.drop_last()) + told(deltas.last())
    }
}

/// The arguments that deltas release for the tool call at `index`.
pub open spec fn arguments_by_all(deltas: Seq<PoolsideV1StreamDeltaView>, index: u32) -> Seq<char>
    decreases deltas.len(),
{
    if deltas.len() == 0 {
        Seq::empty()
    } else {
        arguments_by_all(deltas.drop_last(), index) + arguments_at(deltas.last().tool_calls, index)
    }
}

/// What stands in a part of a text stands in the text.
proof fn lemma_none_in_part(hay: Seq<char>, tag: Seq<char>, from: int, to: int)
    requires
        0 <= from <= to <= hay.len(),
        find_text(hay, tag) is None,
    ensures
        find_text(hay.subrange(from, to), tag) is None,
{
    let part = hay.subrange(from, to);
    lemma_find_text(hay, tag);
    lemma_find_text(part, tag);
    if let Some(i) = find_text(part, tag) {
        assert(hay.subrange(from + i, from + i + tag.len()) =~= part.subrange(i, i + tag.len()));
        assert(occurs_at(hay, tag, from + i));
    }
}

/// A piece of text without a tool call is released, but for what may be the start of one.
proof fn lemma_plain_piece(
    state: PoolsideV1StreamStateView,
    text: Seq<char>,
    tools: Option<Seq<ToolDefinitionView>>,
    facts: ParserFactsView,
)
    requires
        !state.in_tool_call,
        find_text(state.buffer + text, TOOL_CALL_START@) is None,
    ensures
        delta_result(state, text, tools, facts) matches Ok(run) && {
            &&& told(run.delta) + run.state.buffer == state.buffer + text
            &&& run.delta.tool_calls.len() == 0
            &&& run.state == (PoolsideV1StreamStateView { buffer: run.state.buffer, ..state })
        },
{
    let all = state.buffer + text;
    let n = safe_len(all, TOOL_CALL_START@);
    lemma_safe_len(all, TOOL_CALL_START@, TOOL_CALL_START@.len() - 1);
    lemma_tags();
    let run = start_run(state, text);
    assert(poolside_step(run, tools, facts) == step_outside(run, facts));
    assert(step_outside(run, facts) is Paused);
    let last = step_outside(run, facts)->Paused_0;
    assert(told(last.delta) =~= all.subrange(0, n));
    assert(told(last.delta) + last.state.buffer =~= all);
}

/// Text without a tool call comes out whole, however it is cut: what the pieces release,
/// followed by what is left at the end, is the text. Nothing is left after that.
pub proof fn law_text_without_calls_comes_out_whole(
    pieces: Seq<Seq<char>>,
    tools: Option<Seq<ToolDefinitionView>>,
    facts: Seq<ParserFactsView>,
)
    requires
        find_text(whole_text(pieces), TOOL_CALL_START@) is None,
    ensures
        fed(PoolsideV1StreamStateView::initial(), pieces, tools, facts) matches Some((state, deltas))
            && {
            &&& told_by_all(deltas) + (match left_over(state).1 {
                Some(rest) => rest,
                None => Seq::empty(),
            }) == whole_text(pieces)
            &&& forall|i: int|
                0 <= i < deltas.len() ==> (#[trigger] deltas[i]).tool_calls.len() == 0
            &&& left_over(state).0.buffer.len() == 0
            &&& left_over(left_over(state).0).1 is None
        },
{
    lemma_plain_pieces(pieces, tools, facts);
}

proof fn lemma_plain_pieces(
    pieces: Seq<Seq<char>>,
    tools: Option<Seq<ToolDefinitionView>>,
    facts: Seq<ParserFactsView>,
)
    requires
        find_text(whole_text(pieces), TOOL_CALL_START@) is None,
    ensures
        fed(PoolsideV1StreamStateView::initial(), pieces, tools, facts) matches Some((state, deltas))
            && {
            &&& !state.in_tool_call
            &&& told_by_all(deltas) + state.buffer == whole_text(pieces)
            &&& forall|i: int|
                0 <= i < deltas.len() ==> (#[trigger] deltas[i]).tool_calls.len() == 0
        },
    decreases pieces.len(),
{
    let text = whole_text(pieces);
    let start = PoolsideV1StreamStateView::initial();
    if pieces.len() == 0 {
        assert(told_by_all(Seq::empty()) + start.buffer =~= text);
    } else {
        let front = pieces.drop_last();
        let earlier_text = whole_text(front);
        assert(text.subrange(0, earlier_text.len() as int) =~= earlier_text);
        lemma_none_in_part(text, TOOL_CALL_START@, 0, earlier_text.len() as int);
        lemma_plain_pieces(front, tools, facts);
        let (before, deltas) = fed(start, front, tools, facts)->0;
        let out = told_by_all(deltas);
        let rest = before.buffer + pieces.last();
        assert(text =~= out + rest);
        assert(text.subrange(out.len() as int, text.len() as int) =~= rest);
        lemma_none_in_part(text, TOOL_CALL_START@, out.len() as int, text.len() as int);
        lemma_plain_piece(before, pieces.last(), tools, facts[pieces.len() - 1]);
        let run = delta_result(before, pieces.last(), tools, facts[pieces.len() - 1])->Ok_0;
        let all = deltas.push(run.delta);
        assert(all.drop_last() =~= deltas);
        assert(told_by_all(all) + run.state.buffer =~= out + (told(run.delta) + run.state.buffer));
    }
}

/// A tool call without its identifier, which is random.
pub open spec fn unlabelled_tool(tool: PoolsideToolView) -> PoolsideToolView {
    PoolsideToolView { id: Seq::empty(), ..tool }
}

/// The parser without the identifiers of its tool calls.
pub open spec fn unlabelled_state(state: PoolsideV1StreamStateView) -> PoolsideV1StreamStateView {
    PoolsideV1StreamStateView {
        tools: Seq::new(state.tools.len(), |i: int| unlabelled_tool(state.tools[i])),
        ..state
    }
}

/// A chunk without its identifier; that it has one stays.
pub open spec fn unlabelled_chunk(
    chunk: ChatCompletionMessageToolCallChunkView,
) -> ChatCompletionMessageToolCallChunkView {
    ChatCompletionMessageToolCallChunkView {
        id: match chunk.id {
            Some(_) => Some(Seq::empty()),
            None => None,
        },
        ..chunk
    }
}

/// Chunks without their identifiers.
pub open spec fn unlabelled_chunks(
    chunks: Seq<ChatCompletionMessageToolCallChunkView>,
) -> Seq<ChatCompletionMessageToolCallChunkView> {
    Seq::new(chunks.len(), |i: int| unlabelled_chunk(chunks[i]))
}

/// What was released, without identifiers.
pub open spec fn unlabelled_delta(delta: PoolsideV1StreamDeltaView) -> PoolsideV1StreamDeltaView {
    PoolsideV1StreamDeltaView { tool_calls: unlabelled_chunks(delta.tool_calls), ..delta }
}

/// The parser at work, without identifiers.
pub open spec fn unlabelled(run: PoolsideRun) -> PoolsideRun {
    PoolsideRun {
        state: unlabelled_state(run.state),
        delta: unlabelled_delta(run.delta),
        used_ids: run.used_ids,
    }
}

/// Answers about literals, and a supply of `n` empty identifiers.
spec fn plain_facts(literals: Seq<TextFactView<Seq<char>>>, n: nat) -> ParserFactsView {
    ParserFactsView {
        literals,
        fresh_ids: Seq::new(n, |i: int| Seq::empty()),
        ..ParserFactsView::none()
    }
}

/// A change of the current tool call changes it without its identifier, too.
proof fn lemma_unlabelled_with(s: PoolsideV1StreamStateView, tool: PoolsideToolView)
    requires
        s.wf(),
        s.tools.len() > 0,
    ensures
        unlabelled_state(s.with_tool(tool)) == unlabelled_state(s).with_tool(unlabelled_tool(tool)),
        unlabelled_state(s).tool() == unlabelled_tool(s.tool()),
        unlabelled_state(s).index() == s.index(),
        unlabelled_state(s).wf(),
        0 <= s.index() < s.tools.len(),
{
    assert(unlabelled_state(s.with_tool(tool)).tools =~= unlabelled_state(s).with_tool(
        unlabelled_tool(tool),
    ).tools);
}

proof fn lemma_unlabelled_opened(
    chunks: Seq<ChatCompletionMessageToolCallChunkView>,
    at: u32,
)
    ensures
        unlabelled_chunks(opened(chunks, at)) == opened(unlabelled_chunks(chunks), at),
        opened(chunks, at).len() > 0,
{
    assert(unlabelled_chunks(opened(chunks, at)) =~= opened(unlabelled_chunks(chunks), at));
}

proof fn lemma_unlabelled_argued(
    chunks: Seq<ChatCompletionMessageToolCallChunkView>,
    at: u32,
    fragment: Seq<char>,
)
    ensures
        unlabelled_chunks(argued(chunks, at, fragment)) == argued(
            unlabelled_chunks(chunks),
            at,
            fragment,
        ),
{
    lemma_unlabelled_opened(chunks, at);
    assert(unlabelled_chunks(argued(chunks, at, fragment)) =~= argued(
        unlabelled_chunks(chunks),
        at,
        fragment,
    ));
}

proof fn lemma_unlabelled_named(
    chunks: Seq<ChatCompletionMessageToolCallChunkView>,
    at: u32,
    id: Seq<char>,
    name: Seq<char>,
)
    ensures
        unlabelled_chunks(named(chunks, at, id, name)) == named(
            unlabelled_chunks(chunks),
            at,
            Seq::empty(),
            name,
        ),
{
    lemma_unlabelled_opened(chunks, at);
    assert(unlabelled_chunks(named(chunks, at, id, name)) =~= named(
        unlabelled_chunks(chunks),
        at,
        Seq::empty(),
        name,
    ));
}

/// The outcomes of a step with identifiers and of one without are alike; the one without
/// may have more identifiers left.
spec fn alike(a: PoolsideOutcome, b: PoolsideOutcome) -> bool {
    match (a, b) {
        (PoolsideOutcome::Again(x), PoolsideOutcome::Again(y)) => unlabelled(x) == y,
        (PoolsideOutcome::Paused(x), PoolsideOutcome::Paused(y)) => unlabelled(x) == y,
        (PoolsideOutcome::Missing(_), _) => true,
        _ => false,
    }
}

/// The answers `known` stand among `literals`, too.
pub open spec fn covers(
    literals: Seq<TextFactView<Seq<char>>>,
    known: Seq<TextFactView<Seq<char>>>,
) -> bool {
    forall|text: Seq<char>| #[trigger]
        answer_about(known, text) is Some ==> answer_about(literals, text) == answer_about(
            known,
            text,
        )
}

/// A step does not depend on which identifiers there are, nor on answers that it does not
/// need.
proof fn lemma_step_unlabelled(
    run: PoolsideRun,
    tools: Option<Seq<ToolDefinitionView>>,
    facts: ParserFactsView,
    literals: Seq<TextFactView<Seq<char>>>,
    n: nat,
)
    requires
        run.state.wf(),
        run.state.has_room(Seq::empty()),
        0 <= run.used_ids,
        facts.fresh_ids.len() <= n,
        covers(literals, facts.literals),
    ensures
        alike(
            poolside_step(run, tools, facts),
            poolside_step(unlabelled(run), tools, plain_facts(literals, n)),
        ),
        literals == facts.literals && facts.fresh_ids.len() == n && poolside_step(run, tools, facts)
            is Missing ==> poolside_step(
            unlabelled(run),
            tools,
            plain_facts(literals, n),
        ) is Missing,
{
    let s = run.state;
    let plain = plain_facts(literals, n);
    lemma_tags();
    if !s.in_tool_call {
        if let Some(i) = find_text(s.buffer, TOOL_CALL_START@) {
            if run.used_ids < facts.fresh_ids.len() {
                let id = facts.fresh_ids[run.used_ids];
                let t = s.drained(i + TOOL_CALL_START@.len());
                assert(unlabelled_state(t.begun(id)).tools =~= unlabelled_state(t).begun(
                    Seq::empty(),
                ).tools);
                assert(plain.fresh_ids[run.used_ids] == Seq::<char>::empty());
            }
        }
    } else {
        lemma_unlabelled_with(s, s.tool());
        let at = s.index() as u32;
        if !s.current_tool_name_sent {
            let newline = find_text(s.buffer, "\n"@);
            let key = find_text(s.buffer, ARG_KEY_START@);
            let end = find_text(s.buffer, TOOL_CALL_END@);
            if let Some(cut) = earlier(earlier(newline, key), end) {
                let name = trim_spec(s.buffer.subrange(0, cut));
                lemma_unlabelled_named(run.delta.tool_calls, at, s.tool().id, name);
                let t = s.drained(cut + TOOL_CALL_END@.len()).finished();
                assert(unlabelled_state(t.reverted()).tools =~= unlabelled_state(
                    t,
                ).reverted().tools);
            }
        } else {
            lemma_changed_unlabelled(run, tools, facts, literals, n);
        }
    }
}

/// The steps inside a named tool call.
proof fn lemma_changed_unlabelled(
    run: PoolsideRun,
    tools: Option<Seq<ToolDefinitionView>>,
    facts: ParserFactsView,
    literals: Seq<TextFactView<Seq<char>>>,
    n: nat,
)
    requires
        run.state.wf(),
        run.state.in_tool_call,
        run.state.current_tool_name_sent,
        facts.fresh_ids.len() <= n,
        covers(literals, facts.literals),
    ensures
        alike(
            poolside_step(run, tools, facts),
            poolside_step(unlabelled(run), tools, plain_facts(literals, n)),
        ),
        literals == facts.literals && poolside_step(run, tools, facts)
            is Missing ==> poolside_step(
            unlabelled(run),
            tools,
            plain_facts(literals, n),
        ) is Missing,
{
    let s = run.state;
    let u = unlabelled(run);
    let plain = plain_facts(literals, n);
    lemma_unlabelled_with(s, s.tool());
    let at = s.index() as u32;
    match poolside_step(run, tools, facts) {
        PoolsideOutcome::Again(next) => {
            let tool = next.state.tools[s.index()];
            lemma_unlabelled_with(s, tool);
            assert forall|f: Seq<char>| #[trigger]
                argued(unlabelled_chunks(run.delta.tool_calls), at, f) == unlabelled_chunks(
                    argued(run.delta.tool_calls, at, f),
                ) by {
                lemma_unlabelled_argued(run.delta.tool_calls, at, f);
            }
            let other = poolside_step(u, tools, plain);
            assert(other is Again);
            let b = other->Again_0;
            assert(unlabelled(next).state.tools =~= b.state.tools);
            assert(unlabelled(next).delta.tool_calls =~= b.delta.tool_calls);
        },
        PoolsideOutcome::Paused(next) => {
            let tool = next.state.tools[s.index()];
            lemma_unlabelled_with(s, tool);
            assert forall|f: Seq<char>| #[trigger]
                argued(unlabelled_chunks(run.delta.tool_calls), at, f) == unlabelled_chunks(
                    argued(run.delta.tool_calls, at, f),
                ) by {
                lemma_unlabelled_argued(run.delta.tool_calls, at, f);
            }
            let other = poolside_step(u, tools, plain);
            assert(other is Paused);
            let b = other->Paused_0;
            assert(unlabelled(next).state.tools =~= b.state.tools);
            assert(unlabelled(next).delta.tool_calls =~= b.delta.tool_calls);
        },
        PoolsideOutcome::Missing(_) => {},
    }
}

/// A run does not depend on which identifiers there are, nor on answers that it does not
/// need.
proof fn lemma_run_unlabelled(
    run: PoolsideRun,
    tools: Option<Seq<ToolDefinitionView>>,
    facts: ParserFactsView,
    literals: Seq<TextFactView<Seq<char>>>,
    n: nat,
)
    requires
        run.state.wf(),
        run.state.has_room(Seq::empty()),
        0 <= run.used_ids,
        facts.fresh_ids.len() <= n,
        covers(literals, facts.literals),
    ensures
        poolside_run(run, tools, facts) matches Ok(last) ==> poolside_run(
            unlabelled(run),
            tools,
            plain_facts(literals, n),
        ) == Ok::<PoolsideRun, ParserQueryView>(unlabelled(last)),
        literals == facts.literals && facts.fresh_ids.len() == n && poolside_run(run, tools, facts)
            is Err ==> poolside_run(
            unlabelled(run),
            tools,
            plain_facts(literals, n),
        ) is Err,
    decreases work_left(run.state),
{
    lemma_step_unlabelled(run, tools, facts, literals, n);
    lemma_step_wf(run, tools, facts, Seq::empty());
    if let PoolsideOutcome::Again(next) = poolside_step(run, tools, facts) {
        lemma_step_progress(run, tools, facts);
        lemma_step_progress(unlabelled(run), tools, plain_facts(literals, n));
        lemma_run_unlabelled(next, tools, facts, literals, n);
    }
}

/// The name that chunks give to the tool call at `index`.
pub open spec fn name_at(
    chunks: Seq<ChatCompletionMessageToolCallChunkView>,
    index: u32,
) -> Option<Seq<char>> {
    match head_at(chunks, index) {
        Some((_, name)) => name,
        None => None,
    }
}

/// The name that deltas give last to the tool call at `index`.
pub open spec fn name_by_all(deltas: Seq<PoolsideV1StreamDeltaView>, index: u32) -> Option<
    Seq<char>,
>
    decreases deltas.len(),
{
    if deltas.len() == 0 {
        None
    } else if head_at(deltas.last().tool_calls, index) is Some {
        name_at(deltas.last().tool_calls, index)
    } else {
        name_by_all(deltas.drop_last(), index)
    }
}

/// `delta` released what `deltas` released, but for the identifiers.
pub open spec fn released_by_all(
    delta: PoolsideV1StreamDeltaView,
    deltas: Seq<PoolsideV1StreamDeltaView>,
) -> bool {
    &&& told(delta) == told_by_all(deltas)
    &&& forall|index: u32| #[trigger]
        arguments_at(delta.tool_calls, index) == arguments_by_all(deltas, index)
    &&& forall|index: u32|
        #![trigger head_at(delta.tool_calls, index)]
        name_at(delta.tool_calls, index) == name_by_all(deltas, index)
}

/// The answers given for the first `n` pieces stand among `literals`.
pub open spec fn covers_all(
    literals: Seq<TextFactView<Seq<char>>>,
    facts: Seq<ParserFactsView>,
    n: int,
) -> bool {
    forall|i: int| 0 <= i < n ==> covers(literals, (#[trigger] facts[i]).literals)
}

/// The answers about literals are those of one literal parser.
pub open spec fn given_by(
    literals: Seq<TextFactView<Seq<char>>>,
    parser: spec_fn(Seq<char>) -> Seq<char>,
) -> bool {
    forall|i: int| 0 <= i < literals.len() ==> (#[trigger] literals[i]).answer == parser(
        literals[i].text,
    )
}

/// The answers given for the first `n` pieces are those of one literal parser.
pub open spec fn all_given_by(
    facts: Seq<ParserFactsView>,
    parser: spec_fn(Seq<char>) -> Seq<char>,
    n: int,
) -> bool {
    forall|i: int| 0 <= i < n ==> given_by((#[trigger] facts[i]).literals, parser)
}

/// All answers about literals given for the first `n` pieces.
spec fn all_literals(facts: Seq<ParserFactsView>, n: int) -> Seq<TextFactView<Seq<char>>>
    decreases n,
{
    if n <= 0 {
        Seq::empty()
    } else {
        all_literals(facts, n - 1) + facts[n - 1].literals
    }
}

/// An answer of the literal parser is what the parser makes of the text.
proof fn lemma_given(
    literals: Seq<TextFactView<Seq<char>>>,
    parser: spec_fn(Seq<char>) -> Seq<char>,
    text: Seq<char>,
)
    requires
        given_by(literals, parser),
    ensures
        answer_about(literals, text) matches Some(answer) ==> answer == parser(text),
    decreases literals.len(),
{
    if literals.len() > 0 {
        let rest = literals.subrange(1, literals.len() as int);
        assert(literals[0].answer == parser(literals[0].text));
        assert forall|i: int| 0 <= i < rest.len() implies (#[trigger] rest[i]).answer == parser(
            rest[i].text,
        ) by {
            assert(rest[i] == literals[i + 1]);
        }
        lemma_given(rest, parser, text);
    }
}

/// Answers stay when more answers stand before or behind them.
proof fn lemma_joined_answers(
    a: Seq<TextFactView<Seq<char>>>,
    b: Seq<TextFactView<Seq<char>>>,
    text: Seq<char>,
)
    ensures
        answer_about(a + b, text) == (match answer_about(a, text) {
            Some(answer) => Some(answer),
            None => answer_about(b, text),
        }),
    decreases a.len(),
{
    if a.len() == 0 {
        assert(a + b =~= b);
    } else {
        let rest = a.subrange(1, a.len() as int);
        assert((a + b).subrange(1, (a + b).len() as int) =~= rest + b);
        lemma_joined_answers(rest, b, text);
    }
}

/// The answers of one parser agree with each other.
proof fn lemma_answers_agree(
    a: Seq<TextFactView<Seq<char>>>,
    b: Seq<TextFactView<Seq<char>>>,
    parser: spec_fn(Seq<char>) -> Seq<char>,
)
    requires
        given_by(a, parser),
        given_by(b, parser),
    ensures
        given_by(a + b, parser),
        covers(a + b, a),
        covers(a + b, b),
{
    let all = a + b;
    assert forall|i: int| 0 <= i < all.len() implies (#[trigger] all[i]).answer == parser(
        all[i].text,
    ) by {
        if i < a.len() {
            assert(all[i] == a[i]);
        } else {
            assert(all[i] == b[i - a.len()]);
        }
    }
    assert forall|text: Seq<char>| #[trigger] answer_about(a, text) is Some implies answer_about(
        all,
        text,
    ) == answer_about(a, text) by {
        lemma_joined_answers(a, b, text);
    }
    assert forall|text: Seq<char>| #[trigger] answer_about(b, text) is Some implies answer_about(
        all,
        text,
    ) == answer_about(b, text) by {
        lemma_joined_answers(a, b, text);
        lemma_given(a, parser, text);
        lemma_given(b, parser, text);
    }
}

/// All answers of one parser stand among all of them.
proof fn lemma_all_literals(
    facts: Seq<ParserFactsView>,
    parser: spec_fn(Seq<char>) -> Seq<char>,
    n: int,
)
    requires
        0 <= n,
        all_given_by(facts, parser, n),
    ensures
        given_by(all_literals(facts, n), parser),
        covers_all(all_literals(facts, n), facts, n),
    decreases n,
{
    if n > 0 {
        let front = all_literals(facts, n - 1);
        let all = all_literals(facts, n);
        lemma_all_literals(facts, parser, n - 1);
        assert(given_by(facts[n - 1].literals, parser));
        lemma_answers_agree(front, facts[n - 1].literals, parser);
        assert forall|i: int| 0 <= i < n implies covers(all, (#[trigger] facts[i]).literals) by {
            if i < n - 1 {
                assert(covers(front, facts[i].literals));
                assert forall|text: Seq<char>| #[trigger]
                    answer_about(facts[i].literals, text) is Some implies answer_about(all, text)
                    == answer_about(facts[i].literals, text) by {
                    assert(answer_about(front, text) is Some);
                }
            }
        }
    }
}

/// How many identifiers the first `n` answers hold.
pub open spec fn ids_total(facts: Seq<ParserFactsView>, n: int) -> nat
    decreases n,
{
    if n <= 0 {
        0
    } else {
        ids_total(facts, n - 1) + facts[n - 1].fresh_ids.len()
    }
}

/// Arguments and names do not depend on the identifiers.
proof fn lemma_unlabelled_at(
    chunks: Seq<ChatCompletionMessageToolCallChunkView>,
    index: u32,
)
    ensures
        arguments_at(unlabelled_chunks(chunks), index) == arguments_at(chunks, index),
        name_at(unlabelled_chunks(chunks), index) == name_at(chunks, index),
        head_at(unlabelled_chunks(chunks), index) is Some == head_at(chunks, index) is Some,
    decreases chunks.len(),
{
    if chunks.len() > 0 {
        let n = chunks.len() - 1;
        let front = chunks.subrange(0, n);
        lemma_unlabelled_at(front, index);
        assert(unlabelled_chunks(chunks).subrange(0, n) =~= unlabelled_chunks(front));
    }
}

/// Pieces keep the state consistent, and open no more tool calls than they have start tags.
pub proof fn lemma_fed_wf(
    state: PoolsideV1StreamStateView,
    pieces: Seq<Seq<char>>,
    tools: Option<Seq<ToolDefinitionView>>,
    facts: Seq<ParserFactsView>,
    rest: Seq<char>,
)
    requires
        state.wf(),
        state.has_room(whole_text(pieces) + rest),
    ensures
        fed(state, pieces, tools, facts) matches Some((after, deltas)) ==> {
            &&& after.wf()
            &&& after.calls_with(rest) <= state.calls_with(whole_text(pieces) + rest)
            &&& deltas.len() == pieces.len()
        },
    decreases pieces.len(),
{
    if pieces.len() > 0 {
        let front = pieces.drop_last();
        let more = pieces.last() + rest;
        assert(whole_text(front) + more =~= whole_text(pieces) + rest);
        lemma_fed_wf(state, front, tools, facts, more);
        if let Some((before, deltas)) = fed(state, front, tools, facts) {
            let last = facts[pieces.len() - 1];
            lemma_start_room(before, pieces.last(), rest);
            lemma_run_wf(start_run(before, pieces.last()), tools, last, rest);
        }
    } else {
        assert(whole_text(pieces) + rest =~= rest);
    }
}

/// What pieces lead to is, without identifiers, what the whole text leads to.
proof fn lemma_fed_whole(
    state: PoolsideV1StreamStateView,
    pieces: Seq<Seq<char>>,
    tools: Option<Seq<ToolDefinitionView>>,
    facts: Seq<ParserFactsView>,
    literals: Seq<TextFactView<Seq<char>>>,
    n: nat,
)
    requires
        state.wf(),
        state.has_room(whole_text(pieces)),
        pieces.len() > 0,
        covers_all(literals, facts, pieces.len() as int),
        ids_total(facts, pieces.len() as int) <= n,
    ensures
        fed(state, pieces, tools, facts) matches Some((after, deltas)) ==> (delta_result(
            unlabelled_state(state),
            whole_text(pieces),
            tools,
            plain_facts(literals, n),
        ) matches Ok(run) && {
            &&& run.state == unlabelled_state(after)
            &&& released_by_all(run.delta, deltas)
            &&& 0 <= run.used_ids <= ids_total(facts, pieces.len() as int)
        }),
    decreases pieces.len(),
{
    let count = pieces.len() as int;
    let front = pieces.drop_last();
    let text = pieces.last();
    let here = facts[count - 1];
    if let Some((after, deltas)) = fed(state, pieces, tools, facts) {
        let (before, earlier_deltas) = fed(state, front, tools, facts)->0;
        let start = start_run(before, text);
        let last = poolside_run(start, tools, here)->Ok_0;
        lemma_fed_wf(state, front, tools, facts, text);
        lemma_start_room(before, text, Seq::empty());
        lemma_less_room(state, whole_text(front), text);
        lemma_ids_in_reach(start, tools, here);
        assert(deltas.drop_last() =~= earlier_deltas);
        assert(unlabelled(start) =~= start_run(unlabelled_state(before), text));
        if front.len() == 0 {
            lemma_run_unlabelled(start, tools, here, literals, n);
            assert(whole_text(pieces) =~= text);
            let run = unlabelled(last);
            assert(earlier_deltas.len() == 0);
            assert(told_by_all(earlier_deltas) =~= Seq::<char>::empty());
            assert(told_by_all(deltas) =~= told(run.delta));
            assert forall|index: u32| #[trigger]
                arguments_at(run.delta.tool_calls, index) == arguments_by_all(deltas, index) by {
                lemma_unlabelled_at(last.delta.tool_calls, index);
                assert(arguments_by_all(earlier_deltas, index) =~= Seq::<char>::empty());
                assert(arguments_by_all(deltas, index) =~= arguments_at(
                    last.delta.tool_calls,
                    index,
                ));
            }
            assert forall|index: u32|
                #![trigger head_at(run.delta.tool_calls, index)]
                name_at(run.delta.tool_calls, index) == name_by_all(deltas, index) by {
                lemma_unlabelled_at(last.delta.tool_calls, index);
                assert(name_by_all(earlier_deltas, index) is None);
            }
        } else {
            let plain = plain_facts(literals, n);
            lemma_fed_whole(state, front, tools, facts, literals, n);
            let first = delta_result(unlabelled_state(state), whole_text(front), tools, plain)->Ok_0;
            let m = (n - first.used_ids) as nat;
            lemma_run_unlabelled(start, tools, here, literals, m);
            assert(ids_used(plain, first.used_ids) =~= plain_facts(literals, m));
            law_pieces_do_not_matter(
                unlabelled_state(state),
                whole_text(front),
                text,
                tools,
                plain,
            );
            let run = delta_result(
                unlabelled_state(state),
                whole_text(pieces),
                tools,
                plain,
            )->Ok_0;
            assert(joined(run.delta, first.delta, unlabelled(last).delta));
            assert forall|index: u32|
                #![trigger head_at(run.delta.tool_calls, index)]
                name_at(run.delta.tool_calls, index) == name_by_all(deltas, index) by {
                lemma_unlabelled_at(last.delta.tool_calls, index);
                assert(head_at(first.delta.tool_calls, index) == head_at(
                    first.delta.tool_calls,
                    index,
                ));
            }
            assert forall|index: u32| #[trigger]
                arguments_at(run.delta.tool_calls, index) == arguments_by_all(deltas, index) by {
                lemma_unlabelled_at(last.delta.tool_calls, index);
                assert(arguments_at(first.delta.tool_calls, index) == arguments_by_all(
                    earlier_deltas,
                    index,
                ));
            }
        }
    }
}

/// How a text is cut into pieces does not matter: in whatever pieces it comes, and
/// whatever identifiers are new, the parser ends up the same but for the identifiers, and
/// the pieces together release the same text, and the same names and arguments for every
/// tool call. Where no answer is missing for the pieces, none is missing for the whole, if
/// it has as many identifiers and the same answers about literals.
pub proof fn law_cuts_do_not_matter(
    state: PoolsideV1StreamStateView,
    pieces: Seq<Seq<char>>,
    tools: Option<Seq<ToolDefinitionView>>,
    facts: Seq<ParserFactsView>,
    whole_facts: ParserFactsView,
    parser: spec_fn(Seq<char>) -> Seq<char>,
)
    requires
        state.wf(),
        state.has_room(whole_text(pieces)),
        pieces.len() > 0,
        all_given_by(facts, parser, pieces.len() as int),
        given_by(whole_facts.literals, parser),
    ensures
        (
            fed(state, pieces, tools, facts),
            delta_result(state, whole_text(pieces), tools, whole_facts),
        ) matches (Some((after, deltas)), Ok(whole)) ==> {
            &&& unlabelled_state(after) == unlabelled_state(whole.state)
            &&& released_by_all(whole.delta, deltas)
        },
        fed(state, pieces, tools, facts) is Some && ids_total(facts, pieces.len() as int)
            <= whole_facts.fresh_ids.len() && covers_all(
            whole_facts.literals,
            facts,
            pieces.len() as int,
        ) ==> delta_result(
            state,
            whole_text(pieces),
            tools,
            whole_facts,
        ) is Ok,
{
    let n = ids_total(facts, pieces.len() as int) + whole_facts.fresh_ids.len();
    let start = start_run(state, whole_text(pieces));
    lemma_start_room(state, whole_text(pieces), Seq::empty());
    if let (Some((after, deltas)), Ok(whole)) = (
        fed(state, pieces, tools, facts),
        delta_result(state, whole_text(pieces), tools, whole_facts),
    ) {
        let count = pieces.len() as int;
        let given = all_literals(facts, count);
        let literals = given + whole_facts.literals;
        lemma_all_literals(facts, parser, count);
        lemma_answers_agree(given, whole_facts.literals, parser);
        assert forall|i: int| 0 <= i < count implies covers(
            literals,
            (#[trigger] facts[i]).literals,
        ) by {
            assert(covers(given, facts[i].literals));
            assert forall|text: Seq<char>| #[trigger]
                answer_about(facts[i].literals, text) is Some implies answer_about(literals, text)
                == answer_about(facts[i].literals, text) by {
                assert(answer_about(given, text) is Some);
            }
        }
        lemma_fed_whole(state, pieces, tools, facts, literals, n);
        lemma_run_unlabelled(start, tools, whole_facts, literals, n);
        assert(unlabelled(start) =~= start_run(unlabelled_state(state), whole_text(pieces)));
        let run = unlabelled(whole);
        assert(released_by_all(run.delta, deltas));
        assert forall|index: u32| #[trigger]
            arguments_at(whole.delta.tool_calls, index) == arguments_by_all(deltas, index) by {
            lemma_unlabelled_at(whole.delta.tool_calls, index);
            assert(arguments_at(run.delta.tool_calls, index) == arguments_by_all(deltas, index));
        }
        assert forall|index: u32|
            #![trigger head_at(whole.delta.tool_calls, index)]
            name_at(whole.delta.tool_calls, index) == name_by_all(deltas, index) by {
            lemma_unlabelled_at(whole.delta.tool_calls, index);
            assert(head_at(run.delta.tool_calls, index) == head_at(run.delta.tool_calls, index));
        }
    }
    let given = whole_facts.fresh_ids.len();
    if fed(state, pieces, tools, facts) is Some && ids_total(facts, pieces.len() as int) <= given
        && covers_all(whole_facts.literals, facts, pieces.len() as int) {
        lemma_fed_whole(state, pieces, tools, facts, whole_facts.literals, given);
        lemma_run_unlabelled(start, tools, whole_facts, whole_facts.literals, given);
        assert(unlabelled(start) =~= start_run(unlabelled_state(state), whole_text(pieces)));
    }
}

/// The literals of all answers are among `literals`.
pub open spec fn all_literals_in(
    facts: Seq<ParserFactsView>,
    literals: Set<Seq<char>>,
    n: int,
) -> bool {
    forall|k: int| 0 <= k < n ==> literals_in(#[trigger] facts[k], literals)
}

/// Pieces of text keep the arguments objects, and account for what they add to them.
proof fn lemma_fed_objects(
    state: PoolsideV1StreamStateView,
    values: Seq<Seq<Seq<char>>>,
    pieces: Seq<Seq<char>>,
    tools: Option<Seq<ToolDefinitionView>>,
    facts: Seq<ParserFactsView>,
    literals: Set<Seq<char>>,
    i: u32,
) -> (more: Seq<Seq<Seq<char>>>)
    requires
        state.wf(),
        state.has_room(whole_text(pieces)),
        all_values(state, values, literals),
        all_literals_in(facts, literals, pieces.len() as int),
    ensures
        fed(state, pieces, tools, facts) matches Some((after, deltas)) ==> {
            &&& all_values(after, more, literals)
            &&& all_stay(state, values, after, more)
            &&& args_in(after, i) == args_in(state, i) + arguments_by_all(deltas, i)
        },
    decreases pieces.len(),
{
    if pieces.len() == 0 {
        assert(args_in(state, i) + Seq::<char>::empty() =~= args_in(state, i));
        values
    } else {
        let front = pieces.drop_last();
        let here = facts[pieces.len() - 1];
        lemma_less_room(state, whole_text(front), pieces.last());
        let between = lemma_fed_objects(state, values, front, tools, facts, literals, i);
        match fed(state, front, tools, facts) {
            None => values,
            Some((before, deltas)) => {
                lemma_fed_wf(state, front, tools, facts, pieces.last());
                let more = lemma_text_objects(
                    before,
                    between,
                    pieces.last(),
                    tools,
                    here,
                    literals,
                    i,
                );
                if let Ok(run) = delta_result(before, pieces.last(), tools, here) {
                    let all = deltas.push(run.delta);
                    assert(all.drop_last() =~= deltas);
                    lemma_stay_twice(
                        state,
                        values,
                        before,
                        between,
                        run.state,
                        more,
                        literals,
                    );
                    assert(args_in(state, i) + arguments_by_all(all, i) =~= args_in(state, i)
                        + arguments_by_all(deltas, i) + arguments_at(run.delta.tool_calls, i));
                }
                more
            },
        }
    }
}

/// Over a whole stream, the argument fragments of a tool call that ended make, put
/// together, the text of one JSON object: its keys are those that were given, each once,
/// and its values are JSON strings or texts that the literal parser gave; without
/// arguments it is `{}`.
pub proof fn law_fragments_make_an_object(
    pieces: Seq<Seq<char>>,
    tools: Option<Seq<ToolDefinitionView>>,
    facts: Seq<ParserFactsView>,
    literals: Set<Seq<char>>,
    i: u32,
)
    requires
        PoolsideV1StreamStateView::initial().has_room(whole_text(pieces)),
        all_literals_in(facts, literals, pieces.len() as int),
    ensures
        fed(PoolsideV1StreamStateView::initial(), pieces, tools, facts) matches Some(
            (state, deltas),
        ) ==> i < state.tools.len() ==> {
            let tool = state.tools[i as int];
            &&& arguments_by_all(deltas, i) == tool.streamed_args
            &&& tool.args_closed == !(state.in_tool_call && i == state.index())
            &&& tool.args_closed ==> exists|values: Seq<Seq<char>>| #[trigger]
                has_values(tool, values, false, literals) && arguments_by_all(deltas, i)
                    == object_text(tool.seen_keys, values)
            &&& tool.seen_keys.no_duplicates()
            &&& tool.args_closed && tool.seen_keys.len() == 0 ==> arguments_by_all(deltas, i)
                == seq!['{', '}']
        },
{
    let start = PoolsideV1StreamStateView::initial();
    law_no_arguments_at_first(literals);
    let values = lemma_fed_objects(start, Seq::empty(), pieces, tools, facts, literals, i);
    if let Some((state, deltas)) = fed(start, pieces, tools, facts) {
        if i < state.tools.len() {
            let tool = state.tools[i as int];
            assert(has_values(tool, values[i as int], is_open(state, i as int), literals));
            assert(args_in(start, i) + arguments_by_all(deltas, i) =~= arguments_by_all(deltas, i));
        }
    }
}

/// Over a whole stream, the first value of a key counts: whatever text follows, the keys
/// that a tool call has and the values that are at their end stay as they are.
pub proof fn law_first_values_stay(
    state: PoolsideV1StreamStateView,
    values: Seq<Seq<Seq<char>>>,
    pieces: Seq<Seq<char>>,
    tools: Option<Seq<ToolDefinitionView>>,
    facts: Seq<ParserFactsView>,
    literals: Set<Seq<char>>,
)
    requires
        state.wf(),
        state.has_room(whole_text(pieces)),
        all_values(state, values, literals),
        all_literals_in(facts, literals, pieces.len() as int),
    ensures
        fed(state, pieces, tools, facts) matches Some((after, deltas)) ==> exists|
            more: Seq<Seq<Seq<char>>>,
        | #[trigger]
            all_values(after, more, literals) && all_stay(state, values, after, more),
{
    let more = lemma_fed_objects(state, values, pieces, tools, facts, literals, 0);
    if let Some((after, deltas)) = fed(state, pieces, tools, facts) {
        assert(all_values(after, more, literals));
    }
}

} // verus!
