//! How the JSON of a forced tool choice becomes tool calls.

use crate::chat_types::{
    ChatChoiceStreamView, ChatCompletionMessageContentView, ChatCompletionMessageToolCallChunkView,
    FunctionType,
};
use crate::jail_ledger::{calls_them, finds_calls};
use crate::jail_parse::{
    call_choice, choice_complete, chunks_named, entry_call, entry_chunks, forced_chunks, renumbered,
};
use crate::jail_state::{processed, ChoiceJailStateView};
use crate::jail_text::{
    controls_escaped, groups_in, json_fragment, json_lead, json_start, law_plain_text_is_kept,
    Groups,
};
use crate::jail_types::{JailModeView, JailedStreamView, ToolChoiceFormatView};
use crate::json::JsonView;
use crate::json_text::{json_text, parsed_json};
use crate::parser_facts::ParserFactsView;
use crate::text::{is_blank, is_space, lemma_rfind_text, occurs_at};
use crate::text_laws::{
    all_space, law_blank_is_all_space, law_trimming_takes_the_ends, lemma_trim_start,
};
use vstd::prelude::*;

verus! {

/// The text of a forced tool choice: the JSON between white space, or behind reasoning
/// that ends with `</think>`.
pub struct Framed {
    pub reasoning: Option<Seq<char>>,
    pub front: Seq<char>,
    pub json: Seq<char>,
    pub back: Seq<char>,
}

impl Framed {
    /// The whole text.
    pub open spec fn text(self) -> Seq<char> {
        match self.reasoning {
            None => self.front + self.json + self.back,
            Some(reasoning) => reasoning + "</think>"@ + (self.front + self.json),
        }
    }

    /// The JSON is framed by white space, and no reasoning ends in it. It holds no
    /// characters below the space.
    pub open spec fn wf(self) -> bool {
        &&& all_space(self.front)
        &&& all_space(self.back)
        &&& self.json.len() > 0
        &&& !is_space(self.json[0])
        &&& forall|i: int| 0 <= i < self.json.len() ==> !(' ' > #[trigger] self.json[i])
        &&& match self.reasoning {
            None => !is_space(self.json[self.json.len() - 1]) && forall|i: int|
                !occurs_at(self.text(), "</think>"@, i),
            Some(reasoning) => self.back.len() == 0 && forall|i: int|
                reasoning.len() < i ==> !occurs_at(self.text(), "</think>"@, i),
        }
    }

    /// The reasoning, where it says something.
    pub open spec fn told(self) -> Option<Seq<char>> {
        match self.reasoning {
            Some(reasoning) if !is_blank(reasoning) => Some(reasoning),
            _ => None,
        }
    }
}

/// The JSON is found in its frame.
proof fn lemma_framed(framed: Framed)
    requires
        framed.wf(),
    ensures
        json_fragment(framed.text()) == framed.json,
        controls_escaped(json_fragment(framed.text())) == framed.json,
        json_lead(framed.text()) == match framed.reasoning {
            Some(reasoning) => reasoning,
            None => Seq::empty(),
        },
{
    let text = framed.text();
    let end = "</think>"@;
    lemma_rfind_text(text, end);
    law_plain_text_is_kept(framed.json);
    match framed.reasoning {
        None => {
            law_trimming_takes_the_ends(framed.front, framed.json, framed.back);
        },
        Some(reasoning) => {
            let at = reasoning.len() as int;
            let rest = framed.front + framed.json;
            assert(text.subrange(at, at + end.len()) =~= end);
            assert(occurs_at(text, end, at));
            assert(text.subrange(at + end.len(), text.len() as int) =~= rest);
            assert(text.subrange(0, at) =~= reasoning);
            lemma_trim_start(framed.front, framed.json);
        },
    }
}

/// The chunk of the i-th call of a forced tool choice.
pub open spec fn calls_entry(
    chunk: ChatCompletionMessageToolCallChunkView,
    id: Seq<char>,
    name: Seq<char>,
    arguments: Seq<char>,
    number: int,
) -> bool {
    &&& chunk.id == Some("call-"@ + id)
    &&& chunk.tool_type == Some(FunctionType::Function)
    &&& chunk.function is Some
    &&& chunk.function->0.name == Some(name)
    &&& chunk.function->0.arguments == Some(arguments)
    &&& number <= u32::MAX ==> chunk.index == number
}

/// Where a named tool must be called, the JSON object that comes is its arguments, letter
/// by letter: one call of that tool leaves, and nothing of the JSON leaves as text. The
/// reasoning in front of the JSON stays reasoning.
pub proof fn law_a_forced_object_is_the_arguments(
    jail: JailedStreamView,
    tool_name: Seq<char>,
    framed: Framed,
    base: ChatChoiceStreamView,
    index: u32,
    facts: ParserFactsView,
)
    requires
        jail.jail_mode == (JailModeView::Immediate {
            format: ToolChoiceFormatView::SingleObject { tool_name },
        }),
        jail.named_tool_name is None || jail.named_tool_name == Some(tool_name),
        framed.wf(),
        parsed_json(framed.json) is Some,
        parsed_json(framed.json)->0 is Object,
        facts.bare_in(framed.json, false) is Some,
        !finds_calls(facts.bare_in(framed.json, false)->0),
        facts.fresh_ids.len() > 0,
    ensures
        call_choice(jail, index, framed.text(), base, 0, false, facts) matches Ok(made) && {
            &&& made.index == index
            &&& made.delta.tool_calls is Some
            &&& made.delta.tool_calls->0.len() == 1
            &&& calls_entry(
                made.delta.tool_calls->0[0],
                facts.fresh_ids[0],
                tool_name,
                framed.json,
                0,
            )
            &&& made.delta.content == Some(
                ChatCompletionMessageContentView::Text(Seq::<char>::empty()),
            )
            &&& made.delta.reasoning_content == framed.told()
            &&& made.finish_reason == base.finish_reason
            &&& made.logprobs == base.logprobs
        },
{
    lemma_framed(framed);
    let format = ToolChoiceFormatView::SingleObject { tool_name };
    let found = forced_chunks(jail, format, framed.text(), facts)->Ok_0;
    lemma_one_named(found.chunks, tool_name);
    lemma_empty_blank();
}

/// Nothing is blank.
proof fn lemma_empty_blank()
    ensures
        is_blank(Seq::<char>::empty()),
{
    law_blank_is_all_space(Seq::<char>::empty());
}

/// The only chunk, if it calls the tool, is all that is kept.
proof fn lemma_one_named(chunks: Seq<ChatCompletionMessageToolCallChunkView>, name: Seq<char>)
    requires
        chunks.len() == 1,
        chunks[0].function is Some,
        chunks[0].function->0.name == Some(name),
    ensures
        chunks_named(chunks, name) == chunks,
{
    let front = chunks.subrange(0, 0);
    assert(chunks_named(front, name) =~= Seq::empty());
    assert(Seq::<ChatCompletionMessageToolCallChunkView>::empty().push(chunks[0]) =~= chunks);
}

/// An entry of an array of calls: an object with a name and parameters.
pub open spec fn is_entry(entry: JsonView, name: Seq<char>, parameters: JsonView) -> bool {
    &&& entry is Object
    &&& entry->Object_0.contains_pair("name"@, JsonView::Text(name))
    &&& entry->Object_0.contains_pair("parameters"@, parameters)
}

/// The entries become chunks, one by one.
proof fn lemma_entries(
    entries: Seq<JsonView>,
    names: Seq<Seq<char>>,
    parameters: Seq<JsonView>,
    ids: Seq<Seq<char>>,
)
    requires
        entries.len() == names.len(),
        entries.len() == parameters.len(),
        entries.len() <= ids.len(),
        forall|i: int|
            0 <= i < entries.len() ==> is_entry(#[trigger] entries[i], names[i], parameters[i]),
    ensures
        entry_chunks(entries, ids) matches Ok(chunks) && {
            &&& chunks.len() == entries.len()
            &&& forall|i: int|
                0 <= i < entries.len() ==> {
                    let chunk = #[trigger] chunks[i];
                    &&& chunk.id == Some("call-"@ + ids[i])
                    &&& chunk.tool_type == Some(FunctionType::Function)
                    &&& chunk.function is Some
                    &&& chunk.function->0.name == Some(names[i])
                    &&& chunk.function->0.arguments == Some(json_text(parameters[i]))
                }
        },
    decreases entries.len(),
{
    if entries.len() > 0 {
        let n = entries.len() - 1;
        let front = entries.subrange(0, n);
        assert forall|i: int| 0 <= i < front.len() implies is_entry(
            #[trigger] front[i],
            names.subrange(0, n)[i],
            parameters.subrange(0, n)[i],
        ) by {
            assert(front[i] == entries[i]);
        }
        lemma_entries(front, names.subrange(0, n), parameters.subrange(0, n), ids);
        assert(is_entry(entries[n], names[n], parameters[n]));
        assert(entry_call(entries[n]) == Some((names[n], json_text(parameters[n]))));
        let before = entry_chunks(front, ids)->Ok_0;
        let after = entry_chunks(entries, ids)->Ok_0;
        assert forall|i: int| 0 <= i < entries.len() implies {
            let chunk = #[trigger] after[i];
            &&& chunk.id == Some("call-"@ + ids[i])
            &&& chunk.tool_type == Some(FunctionType::Function)
            &&& chunk.function is Some
            &&& chunk.function->0.name == Some(names[i])
            &&& chunk.function->0.arguments == Some(json_text(parameters[i]))
        } by {
            if i < n {
                assert(after[i] == before[i]);
            }
        }
    }
}

/// Where some tool must be called, each entry of the JSON array that comes is a call: of
/// the tool that it names, with its parameters, in the order of the array, numbered on
/// from the calls that left before. Nothing of the JSON leaves as text, and the reasoning in
/// front of it stays reasoning.
pub proof fn law_a_forced_array_is_the_calls(
    jail: JailedStreamView,
    framed: Framed,
    names: Seq<Seq<char>>,
    parameters: Seq<JsonView>,
    base: ChatChoiceStreamView,
    index: u32,
    calls: int,
    facts: ParserFactsView,
)
    requires
        jail.is_required(),
        jail.named_tool_name is None,
        0 <= calls,
        framed.wf(),
        parsed_json(framed.json) matches Some(JsonView::Array(entries)) && {
            &&& entries.len() > 0
            &&& entries.len() == names.len()
            &&& entries.len() == parameters.len()
            &&& entries.len() <= facts.fresh_ids.len()
            &&& forall|i: int|
                0 <= i < entries.len() ==> is_entry(#[trigger] entries[i], names[i], parameters[i])
        },
        facts.bare_in(framed.json, false) is Some,
        !finds_calls(facts.bare_in(framed.json, false)->0),
    ensures
        call_choice(jail, index, framed.text(), base, calls, false, facts) matches Ok(made) && {
            &&& made.index == index
            &&& made.delta.tool_calls is Some
            &&& made.delta.tool_calls->0.len() == names.len()
            &&& forall|i: int|
                0 <= i < names.len() ==> calls_entry(
                    #[trigger] made.delta.tool_calls->0[i],
                    facts.fresh_ids[i],
                    names[i],
                    json_text(parameters[i]),
                    calls + i,
                )
            &&& made.delta.content == Some(
                ChatCompletionMessageContentView::Text(Seq::<char>::empty()),
            )
            &&& made.delta.reasoning_content == framed.told()
            &&& made.finish_reason == base.finish_reason
            &&& made.logprobs == base.logprobs
        },
{
    lemma_framed(framed);
    lemma_empty_blank();
    let entries = parsed_json(framed.json)->0->Array_0;
    lemma_entries(entries, names, parameters, facts.fresh_ids);
    let chunks = entry_chunks(entries, facts.fresh_ids)->Ok_0;
    let made = call_choice(jail, index, framed.text(), base, calls, false, facts)->Ok_0;
    assert(made.delta.tool_calls == Some(renumbered(chunks, calls)));
    assert forall|i: int| 0 <= i < names.len() implies calls_entry(
        #[trigger] made.delta.tool_calls->0[i],
        facts.fresh_ids[i],
        names[i],
        json_text(parameters[i]),
        calls + i,
    ) by {
        assert(chunks[i].id == Some("call-"@ + facts.fresh_ids[i]));
    }
}

/// Where the JSON parser finds calls in the text of a forced tool choice, these are the
/// calls, in its order; of a named tool the first.
pub proof fn law_forced_calls_are_those_found(
    jail: JailedStreamView,
    format: ToolChoiceFormatView,
    framed: Framed,
    base: ChatChoiceStreamView,
    index: u32,
    facts: ParserFactsView,
)
    requires
        jail.jail_mode == (JailModeView::Immediate { format }),
        jail.named_tool_name is None,
        framed.wf(),
        facts.bare_in(framed.json, false) is Some,
        finds_calls(facts.bare_in(framed.json, false)->0),
    ensures
        call_choice(jail, index, framed.text(), base, 0, false, facts) matches Ok(made) && {
            let found = facts.bare_in(framed.json, false)->0->0.calls;
            &&& made.delta.tool_calls is Some
            &&& calls_them(
                made.delta.tool_calls->0,
                if format is SingleObject {
                    found.subrange(0, 1)
                } else {
                    found
                },
                0,
            )
            &&& made.delta.reasoning_content == framed.told()
        },
{
    lemma_framed(framed);
    lemma_empty_blank();
}

/// A forced tool choice is answered as soon as its JSON is complete: the calls leave in
/// one emission, nothing is held back any more, and the calls are counted.
pub proof fn law_complete_json_leaves_at_once(
    state: ChoiceJailStateView,
    choice: ChatChoiceStreamView,
    content: Seq<char>,
    jail: JailedStreamView,
    framed: Framed,
    facts: ParserFactsView,
)
    requires
        jail.jail_mode is Immediate,
        !jail.guards_duplicates(),
        state.is_jailed,
        !state.terminate_after_tool_call,
        framed.wf(),
        state.accumulated_content + content == framed.text(),
        match jail.jail_mode->format {
            ToolChoiceFormatView::SingleObject { .. } => parsed_json(framed.json) is Some
                && parsed_json(framed.json)->0 is Object,
            ToolChoiceFormatView::ArrayOfTools { .. } => parsed_json(framed.json) is Some
                && parsed_json(framed.json)->0 is Array && parsed_json(
                framed.json,
            )->0->Array_0.len() > 0,
        },
        call_choice(
            jail,
            choice.index,
            framed.text(),
            choice,
            state.emitted_tool_calls_count as int,
            false,
            facts,
        ) matches Ok(made) && made.delta.tool_calls is Some && made.delta.tool_calls->0.len() > 0,
    ensures
        processed(state, choice, content, jail, facts) matches Ok(done) && {
            let made = call_choice(
                jail,
                choice.index,
                framed.text(),
                choice,
                state.emitted_tool_calls_count as int,
                false,
                facts,
            )->Ok_0;
            &&& done.emissions.len() == 1
            &&& done.emissions[0] is ToolCall
            &&& done.emissions[0].choice().index == choice.index
            &&& done.emissions[0].choice().delta == made.delta
            &&& !done.state.is_jailed
            &&& done.state.accumulated_content.len() == 0
            &&& state.emitted_tool_calls_count + made.delta.tool_calls->0.len() <= usize::MAX
                ==> done.state.emitted_tool_calls_count == state.emitted_tool_calls_count
                + made.delta.tool_calls->0.len()
        },
{
    reveal(processed);
    lemma_framed(framed);
    let all = framed.text();
    assert(choice_complete(jail.jail_mode->format, all));
    assert(all.subrange(0, all.len() as int) =~= all);
}

/// How many brackets are open behind text without strings.
pub open spec fn depth(text: Seq<char>) -> int
    decreases text.len(),
{
    if text.len() == 0 {
        0
    } else {
        let c = text.last();
        depth(text.drop_last()) + if c == '{' || c == '[' {
            1int
        } else if c == '}' || c == ']' {
            -1int
        } else {
            0int
        }
    }
}

/// Neither brackets nor strings.
pub open spec fn is_prose(text: Seq<char>) -> bool {
    forall|i: int|
        0 <= i < text.len() ==> {
            let c = #[trigger] text[i];
            c != '{' && c != '[' && c != '}' && c != ']' && c != '"'
        }
}

/// A bracket that closes with the last letter and not before; no strings in it.
pub open spec fn is_group(text: Seq<char>) -> bool {
    &&& text.len() > 0
    &&& text[0] == '{' || text[0] == '['
    &&& forall|i: int| 0 <= i < text.len() ==> #[trigger] text[i] != '"'
    &&& forall|k: int| 0 < k < text.len() ==> depth(#[trigger] text.subrange(0, k)) > 0
}

/// Prose opens nothing.
proof fn lemma_prose(text: Seq<char>)
    requires
        is_prose(text),
    ensures
        groups_in(text) == Groups::none(),
    decreases text.len(),
{
    if text.len() > 0 {
        let front = text.subrange(0, text.len() - 1);
        assert forall|i: int| 0 <= i < front.len() implies {
            let c = #[trigger] front[i];
            c != '{' && c != '[' && c != '}' && c != ']' && c != '"'
        } by {
            assert(front[i] == text[i]);
        }
        lemma_prose(front);
        assert(text[text.len() - 1] != '{');
    }
}

/// A group behind prose is open until its last letter.
proof fn lemma_group_open(lead: Seq<char>, group: Seq<char>, k: int)
    requires
        is_prose(lead),
        is_group(group),
        0 < k <= group.len(),
    ensures
        groups_in(lead + group.subrange(0, k)) == (Groups {
            open: if depth(group.subrange(0, k)) < 0 {
                0
            } else {
                depth(group.subrange(0, k))
            },
            start: Some(lead.len() as int),
            in_string: false,
            escaped: false,
        }),
    decreases k,
{
    let part = group.subrange(0, k);
    let all = lead + part;
    let front = all.subrange(0, all.len() - 1);
    let less = group.subrange(0, k - 1);
    assert(front =~= lead + less);
    assert(all[all.len() - 1] == group[k - 1]);
    assert(part.drop_last() =~= less);
    assert(part.last() == group[k - 1]);
    if k == 1 {
        assert(front =~= lead);
        lemma_prose(lead);
        assert(depth(less) == 0);
    } else {
        lemma_group_open(lead, group, k - 1);
        assert(depth(less) > 0);
    }
}

/// Behind prose, the group of brackets at the end of a text is found where it begins.
pub proof fn law_json_behind_prose_is_found(lead: Seq<char>, group: Seq<char>)
    requires
        lead.len() > 0,
        is_prose(lead),
        is_group(group),
    ensures
        json_start(lead + group) == Some(lead.len() as int),
{
    lemma_group_open(lead, group, group.len() as int);
    assert(group.subrange(0, group.len() as int) =~= group);
}

/// In prose alone nothing is found.
pub proof fn law_prose_holds_no_json(text: Seq<char>)
    requires
        is_prose(text),
    ensures
        json_start(text) is None,
{
    lemma_prose(text);
}

} // verus!
