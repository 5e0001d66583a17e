//! What a stream adds up to, choice by choice.

use crate::aggregate_laws::{
    aggregated, choice_at, chunk_at, law_streams_are_put_together, lemma_choice_added,
    lemma_chunk_added, lemma_no_choice_at, lemma_no_chunk_at, without_errors,
};
use crate::aggregator::{
    ascending, blank_chunk, choice_grown, choice_indices, choices_added, chunk_indices,
    chunks_added, chunks_merged, new_choice, DeltaAggregatorView, DeltaChoiceView,
};
use crate::chat_types::{
    AnnotatedView, ChatChoiceStreamView, ChatCompletionMessageContentView,
    ChatCompletionMessageToolCallChunkView, CompletionUsage, FinishReason, FunctionType,
    NvCreateChatCompletionStreamResponseView, Role,
};
use crate::json::{member, JsonView};
use vstd::prelude::*;

verus! {

/// The first value that is given.
pub open spec fn first_given<A>(items: Seq<Option<A>>) -> Option<A>
    decreases items.len(),
{
    if items.len() == 0 {
        None
    } else if items[0] is Some {
        items[0]
    } else {
        first_given(items.skip(1))
    }
}

/// The last value that is given.
pub open spec fn last_given<A>(items: Seq<Option<A>>) -> Option<A>
    decreases items.len(),
{
    if items.len() == 0 {
        None
    } else if items.last() is Some {
        items.last()
    } else {
        last_given(items.drop_last())
    }
}

/// All that is given, one after the other; nothing where nothing is.
pub open spec fn all_given<A>(items: Seq<Option<Seq<A>>>) -> Option<Seq<A>>
    decreases items.len(),
{
    if items.len() == 0 {
        None
    } else {
        match (all_given(items.drop_last()), items.last()) {
            (None, last) => last,
            (front, None) => front,
            (Some(front), Some(last)) => Some(front + last),
        }
    }
}

/// All items of what is given, one after the other.
pub open spec fn items_given<A>(items: Seq<Option<Seq<A>>>) -> Seq<A> {
    match all_given(items) {
        Some(all) => all,
        None => Seq::empty(),
    }
}

proof fn lemma_first_push<A>(items: Seq<Option<A>>, item: Option<A>)
    ensures
        first_given(items.push(item)) == (if first_given(items) is Some {
            first_given(items)
        } else {
            item
        }),
    decreases items.len(),
{
    let all = items.push(item);
    if items.len() == 0 {
        assert(all.skip(1) =~= Seq::empty());
        assert(first_given(all.skip(1)) is None);
        assert(all[0] == item);
    } else {
        lemma_first_push(items.skip(1), item);
        assert(all.skip(1) =~= items.skip(1).push(item));
        assert(all[0] == items[0]);
    }
}

/// What a delta gives as text.
pub open spec fn text_given(delta: ChatChoiceStreamView) -> Option<Seq<char>> {
    match delta.delta.content {
        Some(ChatCompletionMessageContentView::Text(text)) => Some(text),
        _ => None,
    }
}

/// What a delta gives as parts of content.
pub open spec fn parts_given(delta: ChatChoiceStreamView) -> Option<Seq<u64>> {
    match delta.delta.content {
        Some(ChatCompletionMessageContentView::Parts(parts)) => Some(parts),
        _ => None,
    }
}

/// The texts of deltas.
pub open spec fn texts(deltas: Seq<ChatChoiceStreamView>) -> Seq<Option<Seq<char>>> {
    Seq::new(deltas.len(), |i: int| text_given(deltas[i]))
}

/// The content parts of deltas.
pub open spec fn parts(deltas: Seq<ChatChoiceStreamView>) -> Seq<Option<Seq<u64>>> {
    Seq::new(deltas.len(), |i: int| parts_given(deltas[i]))
}

/// The reasoning of deltas.
pub open spec fn thoughts(deltas: Seq<ChatChoiceStreamView>) -> Seq<Option<Seq<char>>> {
    Seq::new(deltas.len(), |i: int| deltas[i].delta.reasoning_content)
}

/// The roles of deltas.
pub open spec fn roles(deltas: Seq<ChatChoiceStreamView>) -> Seq<Option<Role>> {
    Seq::new(deltas.len(), |i: int| deltas[i].delta.role)
}

/// The finish reasons of deltas.
pub open spec fn ends(deltas: Seq<ChatChoiceStreamView>) -> Seq<Option<FinishReason>> {
    Seq::new(deltas.len(), |i: int| deltas[i].finish_reason)
}

/// The log-probabilities of content, or of refusals, of deltas.
pub open spec fn probabilities(deltas: Seq<ChatChoiceStreamView>, refusal: bool) -> Seq<
    Option<Seq<u64>>,
> {
    Seq::new(
        deltas.len(),
        |i: int|
            match deltas[i].logprobs {
                Some(given) => if refusal {
                    given.refusal
                } else {
                    given.content
                },
                None => None,
            },
    )
}

/// The fragments that deltas bring of the tool call at `call`, in their order.
pub open spec fn fragments_for(deltas: Seq<ChatChoiceStreamView>, call: u32) -> Seq<
    ChatCompletionMessageToolCallChunkView,
>
    decreases deltas.len(),
{
    if deltas.len() == 0 {
        Seq::empty()
    } else {
        fragments_for(deltas.drop_last(), call) + match deltas.last().delta.tool_calls {
            Some(chunks) => chunks_for(chunks, call),
            None => Seq::empty(),
        }
    }
}

/// The chunks of the tool call at `call`, in their order.
pub open spec fn chunks_for(
    chunks: Seq<ChatCompletionMessageToolCallChunkView>,
    call: u32,
) -> Seq<ChatCompletionMessageToolCallChunkView>
    decreases chunks.len(),
{
    if chunks.len() == 0 {
        Seq::empty()
    } else if chunks.last().index == call {
        chunks_for(chunks.drop_last(), call).push(chunks.last())
    } else {
        chunks_for(chunks.drop_last(), call)
    }
}

/// The identifiers of fragments.
pub open spec fn ids(fragments: Seq<ChatCompletionMessageToolCallChunkView>) -> Seq<
    Option<Seq<char>>,
> {
    Seq::new(fragments.len(), |i: int| fragments[i].id)
}

/// The types of fragments.
pub open spec fn types(fragments: Seq<ChatCompletionMessageToolCallChunkView>) -> Seq<
    Option<FunctionType>,
> {
    Seq::new(fragments.len(), |i: int| fragments[i].tool_type)
}

/// What a fragment gives as name.
pub open spec fn name_given(fragment: ChatCompletionMessageToolCallChunkView) -> Option<Seq<char>> {
    match fragment.function {
        Some(function) => function.name,
        None => None,
    }
}

/// What a fragment gives as arguments.
pub open spec fn arguments_given(
    fragment: ChatCompletionMessageToolCallChunkView,
) -> Option<Seq<char>> {
    match fragment.function {
        Some(function) => function.arguments,
        None => None,
    }
}

/// The names of fragments.
pub open spec fn names(fragments: Seq<ChatCompletionMessageToolCallChunkView>) -> Seq<
    Option<Seq<char>>,
> {
    Seq::new(fragments.len(), |i: int| name_given(fragments[i]))
}

/// The arguments of fragments.
pub open spec fn arguments(fragments: Seq<ChatCompletionMessageToolCallChunkView>) -> Seq<
    Option<Seq<char>>,
> {
    Seq::new(fragments.len(), |i: int| arguments_given(fragments[i]))
}

/// The deltas of the choice at `index`, in their order.
pub open spec fn deltas_in(deltas: Seq<ChatChoiceStreamView>, index: u32) -> Seq<
    ChatChoiceStreamView,
>
    decreases deltas.len(),
{
    if deltas.len() == 0 {
        Seq::empty()
    } else if deltas.last().index == index {
        deltas_in(deltas.drop_last(), index).push(deltas.last())
    } else {
        deltas_in(deltas.drop_last(), index)
    }
}

/// All deltas of the choice at `index` in the first `n` chunks of a stream.
pub open spec fn deltas_for(chunks: Seq<AnnotatedView>, n: nat, index: u32) -> Seq<
    ChatChoiceStreamView,
>
    decreases n,
{
    if n == 0 {
        Seq::empty()
    } else {
        deltas_for(chunks, (n - 1) as nat, index) + match chunks[n - 1].data {
            Some(data) => deltas_in(data.inner.choices, index),
            None => Seq::empty(),
        }
    }
}

/// A choice, if it is there, after more deltas for it.
spec fn grown_by(
    start: Option<DeltaChoiceView>,
    deltas: Seq<ChatChoiceStreamView>,
) -> Option<DeltaChoiceView>
    decreases deltas.len(),
{
    if deltas.len() == 0 {
        start
    } else {
        let last = deltas.last();
        Some(
            choice_grown(
                match grown_by(start, deltas.drop_last()) {
                    Some(choice) => choice,
                    None => new_choice(last.index, last.delta.role),
                },
                last,
            ),
        )
    }
}

proof fn lemma_grown_twice(
    start: Option<DeltaChoiceView>,
    a: Seq<ChatChoiceStreamView>,
    b: Seq<ChatChoiceStreamView>,
)
    ensures
        grown_by(grown_by(start, a), b) == grown_by(start, a + b),
    decreases b.len(),
{
    let all = a + b;
    if b.len() == 0 {
        assert(all =~= a);
    } else {
        lemma_grown_twice(start, a, b.drop_last());
        assert(all.drop_last() =~= a + b.drop_last());
        assert(all.last() == b.last());
    }
}

proof fn lemma_choices_grown(
    choices: Seq<DeltaChoiceView>,
    incoming: Seq<ChatChoiceStreamView>,
    index: u32,
)
    requires
        ascending(choice_indices(choices)),
    ensures
        ascending(choice_indices(choices_added(choices, incoming))),
        choice_at(choices_added(choices, incoming), index) == grown_by(
            choice_at(choices, index),
            deltas_in(incoming, index),
        ),
    decreases incoming.len(),
{
    if incoming.len() > 0 {
        let front = incoming.drop_last();
        let last = incoming.last();
        assert(incoming.subrange(0, incoming.len() - 1) =~= front);
        lemma_choices_grown(choices, front, index);
        let before = choices_added(choices, front);
        lemma_choice_added(before, last, index);
        if last.index == index {
            let some = deltas_in(front, index);
            assert(deltas_in(incoming, index).drop_last() =~= some);
        }
    }
}

proof fn lemma_stream_grown(chunks: Seq<AnnotatedView>, n: nat, index: u32)
    requires
        without_errors(chunks),
        n <= chunks.len(),
    ensures
        ascending(choice_indices(aggregated(chunks, n).choices)),
        aggregated(chunks, n).error is None,
        choice_at(aggregated(chunks, n).choices, index) == grown_by(
            None,
            deltas_for(chunks, n, index),
        ),
    decreases n,
{
    law_streams_are_put_together(chunks, n, index, 0);
    if n == 0 {
        lemma_no_choice_at(DeltaAggregatorView::initial().choices, index);
    } else {
        let m = (n - 1) as nat;
        lemma_stream_grown(chunks, m, index);
        assert(chunks[n - 1].event != Some("error"@));
        match chunks[n - 1].data {
            Some(data) => {
                lemma_choices_grown(aggregated(chunks, m).choices, data.inner.choices, index);
                lemma_grown_twice(
                    None,
                    deltas_for(chunks, m, index),
                    deltas_in(data.inner.choices, index),
                );
            },
            None => {
                assert(deltas_for(chunks, n, index) =~= deltas_for(chunks, m, index));
            },
        }
    }
}

proof fn lemma_grown_fields(deltas: Seq<ChatChoiceStreamView>, index: u32)
    requires
        forall|i: int| 0 <= i < deltas.len() ==> (#[trigger] deltas[i]).index == index,
    ensures
        grown_by(None, deltas) is Some <==> deltas.len() > 0,
        grown_by(None, deltas) matches Some(choice) ==> {
            &&& choice.index == index
            &&& choice.text == items_given(texts(deltas))
            &&& choice.content_parts == items_given(parts(deltas))
            &&& choice.reasoning_content == all_given(thoughts(deltas))
            &&& choice.role == first_given(roles(deltas))
            &&& choice.finish_reason == last_given(ends(deltas))
            &&& choice.tool_calls is None
        },
    decreases deltas.len(),
{
    if deltas.len() > 0 {
        let front = deltas.drop_last();
        let last = deltas.last();
        assert(last == deltas[deltas.len() - 1]);
        assert forall|i: int| 0 <= i < front.len() implies (#[trigger] front[i]).index == index by {
            assert(front[i] == deltas[i]);
        }
        lemma_grown_fields(front, index);
        assert(texts(deltas).drop_last() =~= texts(front));
        assert(parts(deltas).drop_last() =~= parts(front));
        assert(thoughts(deltas).drop_last() =~= thoughts(front));
        assert(ends(deltas).drop_last() =~= ends(front));
        assert(roles(deltas) =~= roles(front).push(last.delta.role));
        lemma_first_push(roles(front), last.delta.role);
        let choice = grown_by(None, deltas)->0;
        if front.len() == 0 {
            assert(texts(front) =~= Seq::empty() && parts(front) =~= Seq::empty());
            assert(thoughts(front) =~= Seq::empty() && roles(front) =~= Seq::empty());
            assert(ends(front) =~= Seq::empty());
        }
        assert(choice.text =~= items_given(texts(deltas)));
        assert(choice.content_parts =~= items_given(parts(deltas)));
        if let Some(more) = last.delta.reasoning_content {
            if all_given(thoughts(front)) is None {
                assert(Seq::<char>::empty() + more =~= more);
            }
        }
        assert(choice.reasoning_content == all_given(thoughts(deltas)));
    }
}

proof fn lemma_grown_probabilities(deltas: Seq<ChatChoiceStreamView>)
    ensures
        grown_by(None, deltas) matches Some(choice) ==> {
            &&& choice.logprobs is Some <==> exists|i: int|
                0 <= i < deltas.len() && (#[trigger] deltas[i]).logprobs is Some
            &&& choice.logprobs matches Some(given) ==> given.content == all_given(
                probabilities(deltas, false),
            ) && given.refusal == all_given(probabilities(deltas, true))
            &&& choice.logprobs is None ==> all_given(probabilities(deltas, false)) is None
                && all_given(probabilities(deltas, true)) is None
        },
    decreases deltas.len(),
{
    if deltas.len() > 0 {
        let front = deltas.drop_last();
        let last = deltas.last();
        lemma_grown_probabilities(front);
        assert(probabilities(deltas, false).drop_last() =~= probabilities(front, false));
        assert(probabilities(deltas, true).drop_last() =~= probabilities(front, true));
        if front.len() == 0 {
            assert(probabilities(front, false) =~= Seq::empty());
            assert(probabilities(front, true) =~= Seq::empty());
        } else if grown_by(None, front)->0.logprobs is Some {
            let i = choose|i: int| 0 <= i < front.len() && (#[trigger] front[i]).logprobs is Some;
            assert(deltas[i].logprobs is Some);
        }
        if last.logprobs is Some {
            assert(deltas[deltas.len() - 1].logprobs is Some);
        }
        if exists|i: int| 0 <= i < deltas.len() && (#[trigger] deltas[i]).logprobs is Some {
            let i = choose|i: int| 0 <= i < deltas.len() && (#[trigger] deltas[i]).logprobs is Some;
            if i < front.len() {
                assert(front[i].logprobs is Some);
            }
        }
    }
}

/// A merged chunk, if it is there, after more fragments for it.
spec fn merged_by(
    start: Option<ChatCompletionMessageToolCallChunkView>,
    fragments: Seq<ChatCompletionMessageToolCallChunkView>,
) -> Option<ChatCompletionMessageToolCallChunkView>
    decreases fragments.len(),
{
    if fragments.len() == 0 {
        start
    } else {
        let last = fragments.last();
        Some(
            chunks_merged(
                match merged_by(start, fragments.drop_last()) {
                    Some(chunk) => chunk,
                    None => blank_chunk(last.index),
                },
                last,
            ),
        )
    }
}

proof fn lemma_merged_twice(
    start: Option<ChatCompletionMessageToolCallChunkView>,
    a: Seq<ChatCompletionMessageToolCallChunkView>,
    b: Seq<ChatCompletionMessageToolCallChunkView>,
)
    ensures
        merged_by(merged_by(start, a), b) == merged_by(start, a + b),
    decreases b.len(),
{
    let all = a + b;
    if b.len() == 0 {
        assert(all =~= a);
    } else {
        lemma_merged_twice(start, a, b.drop_last());
        assert(all.drop_last() =~= a + b.drop_last());
        assert(all.last() == b.last());
    }
}

proof fn lemma_chunks_grown(
    chunks: Seq<ChatCompletionMessageToolCallChunkView>,
    incoming: Seq<ChatCompletionMessageToolCallChunkView>,
    call: u32,
)
    requires
        ascending(chunk_indices(chunks)),
    ensures
        ascending(chunk_indices(chunks_added(chunks, incoming))),
        chunk_at(chunks_added(chunks, incoming), call) == merged_by(
            chunk_at(chunks, call),
            chunks_for(incoming, call),
        ),
    decreases incoming.len(),
{
    if incoming.len() > 0 {
        let front = incoming.drop_last();
        let last = incoming.last();
        assert(incoming.subrange(0, incoming.len() - 1) =~= front);
        lemma_chunks_grown(chunks, front, call);
        lemma_chunk_added(chunks_added(chunks, front), last, call);
        if last.index == call {
            assert(chunks_for(incoming, call).drop_last() =~= chunks_for(front, call));
        }
    }
}

proof fn lemma_grown_calls(deltas: Seq<ChatChoiceStreamView>, call: u32)
    ensures
        grown_by(None, deltas) matches Some(choice) ==> {
            &&& ascending(chunk_indices(choice.tool_call_chunks))
            &&& chunk_at(choice.tool_call_chunks, call) == merged_by(
                None,
                fragments_for(deltas, call),
            )
        },
        deltas.len() == 0 ==> fragments_for(deltas, call).len() == 0,
    decreases deltas.len(),
{
    if deltas.len() > 0 {
        let front = deltas.drop_last();
        let last = deltas.last();
        lemma_grown_calls(front, call);
        let state = match grown_by(None, front) {
            Some(choice) => choice,
            None => new_choice(last.index, last.delta.role),
        };
        if front.len() == 0 {
            lemma_no_chunk_at(state.tool_call_chunks, call);
            assert(chunk_indices(state.tool_call_chunks) =~= Seq::empty());
        }
        assert(chunk_at(state.tool_call_chunks, call) == merged_by(
            None,
            fragments_for(front, call),
        ));
        match last.delta.tool_calls {
            Some(more) => {
                lemma_chunks_grown(state.tool_call_chunks, more, call);
                lemma_merged_twice(None, fragments_for(front, call), chunks_for(more, call));
            },
            None => {
                assert(fragments_for(deltas, call) =~= fragments_for(front, call));
            },
        }
    }
}

proof fn lemma_merged_fields(fragments: Seq<ChatCompletionMessageToolCallChunkView>, call: u32)
    requires
        forall|i: int| 0 <= i < fragments.len() ==> (#[trigger] fragments[i]).index == call,
    ensures
        merged_by(None, fragments) is Some <==> fragments.len() > 0,
        merged_by(None, fragments) matches Some(chunk) ==> {
            &&& chunk.index == call
            &&& chunk.id == first_given(ids(fragments))
            &&& chunk.tool_type == first_given(types(fragments))
            &&& name_given(chunk) == first_given(names(fragments))
            &&& arguments_given(chunk) == all_given(arguments(fragments))
            &&& chunk.function is Some <==> exists|i: int|
                0 <= i < fragments.len() && (#[trigger] fragments[i]).function is Some
        },
    decreases fragments.len(),
{
    if fragments.len() > 0 {
        let front = fragments.drop_last();
        let last = fragments.last();
        assert(last == fragments[fragments.len() - 1]);
        assert forall|i: int| 0 <= i < front.len() implies (#[trigger] front[i]).index == call by {
            assert(front[i] == fragments[i]);
        }
        lemma_merged_fields(front, call);
        assert(ids(fragments) =~= ids(front).push(last.id));
        assert(types(fragments) =~= types(front).push(last.tool_type));
        assert(names(fragments) =~= names(front).push(name_given(last)));
        assert(arguments(fragments).drop_last() =~= arguments(front));
        lemma_first_push(ids(front), last.id);
        lemma_first_push(types(front), last.tool_type);
        lemma_first_push(names(front), name_given(last));
        let chunk = merged_by(None, fragments)->0;
        if front.len() == 0 {
            assert(ids(front) =~= Seq::empty() && types(front) =~= Seq::empty());
            assert(names(front) =~= Seq::empty() && arguments(front) =~= Seq::empty());
        } else if merged_by(None, front)->0.function is Some {
            let i = choose|i: int| 0 <= i < front.len() && (#[trigger] front[i]).function is Some;
            assert(fragments[i].function is Some);
        }
        if last.function is Some {
            assert(fragments[fragments.len() - 1].function is Some);
        }
        if exists|i: int| 0 <= i < fragments.len() && (#[trigger] fragments[i]).function is Some {
            let i = choose|i: int|
                0 <= i < fragments.len() && (#[trigger] fragments[i]).function is Some;
            if i < front.len() {
                assert(front[i].function is Some);
            }
        }
        if let Some(more) = arguments_given(last) {
            if all_given(arguments(front)) is None {
                assert(Seq::<char>::empty() + more =~= more);
            }
        }
        assert(arguments_given(chunk) == all_given(arguments(fragments)));
    }
}

proof fn lemma_deltas_index(chunks: Seq<AnnotatedView>, n: nat, index: u32)
    ensures
        forall|i: int|
            0 <= i < deltas_for(chunks, n, index).len() ==> (#[trigger] deltas_for(
                chunks,
                n,
                index,
            )[i]).index == index,
    decreases n,
{
    if n > 0 {
        lemma_deltas_index(chunks, (n - 1) as nat, index);
        if let Some(data) = chunks[n - 1].data {
            lemma_deltas_in_index(data.inner.choices, index);
        }
    }
}

proof fn lemma_deltas_in_index(deltas: Seq<ChatChoiceStreamView>, index: u32)
    ensures
        forall|i: int|
            0 <= i < deltas_in(deltas, index).len() ==> (#[trigger] deltas_in(
                deltas,
                index,
            )[i]).index == index,
    decreases deltas.len(),
{
    if deltas.len() > 0 {
        lemma_deltas_in_index(deltas.drop_last(), index);
    }
}

proof fn lemma_fragments_index(deltas: Seq<ChatChoiceStreamView>, call: u32)
    ensures
        forall|i: int|
            0 <= i < fragments_for(deltas, call).len() ==> (#[trigger] fragments_for(
                deltas,
                call,
            )[i]).index == call,
    decreases deltas.len(),
{
    if deltas.len() > 0 {
        lemma_fragments_index(deltas.drop_last(), call);
        if let Some(chunks) = deltas.last().delta.tool_calls {
            lemma_chunks_for_index(chunks, call);
        }
    }
}

proof fn lemma_chunks_for_index(chunks: Seq<ChatCompletionMessageToolCallChunkView>, call: u32)
    ensures
        forall|i: int|
            0 <= i < chunks_for(chunks, call).len() ==> (#[trigger] chunks_for(
                chunks,
                call,
            )[i]).index == call,
    decreases chunks.len(),
{
    if chunks.len() > 0 {
        lemma_chunks_for_index(chunks.drop_last(), call);
    }
}

/// In a stream without errors a choice is all that came for it, whatever came for other
/// choices between: its text, its content parts, its reasoning and its log-probabilities
/// are put together in their order, its role is the first that came and its finish reason
/// the last.
pub proof fn law_choices_are_all_that_came(chunks: Seq<AnnotatedView>, n: nat, index: u32)
    requires
        without_errors(chunks),
        n <= chunks.len(),
    ensures
        ({
            let deltas = deltas_for(chunks, n, index);
            let made = choice_at(aggregated(chunks, n).choices, index);
            &&& made is Some <==> deltas.len() > 0
            &&& made matches Some(choice) ==> {
                &&& choice.index == index
                &&& choice.text == items_given(texts(deltas))
                &&& choice.content_parts == items_given(parts(deltas))
                &&& choice.reasoning_content == all_given(thoughts(deltas))
                &&& choice.role == first_given(roles(deltas))
                &&& choice.finish_reason == last_given(ends(deltas))
                &&& choice.tool_calls is None
                &&& choice.logprobs is Some <==> exists|i: int|
                    0 <= i < deltas.len() && (#[trigger] deltas[i]).logprobs is Some
                &&& choice.logprobs matches Some(given) ==> given.content == all_given(
                    probabilities(deltas, false),
                ) && given.refusal == all_given(probabilities(deltas, true))
            }
        }),
{
    lemma_stream_grown(chunks, n, index);
    lemma_deltas_index(chunks, n, index);
    lemma_grown_fields(deltas_for(chunks, n, index), index);
    lemma_grown_probabilities(deltas_for(chunks, n, index));
}

/// In a stream without errors a tool call is all that came for it: its identifier, its
/// type and its name are the first that came, and its arguments are put together in their
/// order.
pub proof fn law_calls_are_all_that_came(
    chunks: Seq<AnnotatedView>,
    n: nat,
    index: u32,
    call: u32,
)
    requires
        without_errors(chunks),
        n <= chunks.len(),
    ensures
        ({
            let fragments = fragments_for(deltas_for(chunks, n, index), call);
            let made = match choice_at(aggregated(chunks, n).choices, index) {
                Some(choice) => chunk_at(choice.tool_call_chunks, call),
                None => None,
            };
            &&& made is Some <==> fragments.len() > 0
            &&& made matches Some(chunk) ==> {
                &&& chunk.index == call
                &&& chunk.id == first_given(ids(fragments))
                &&& chunk.tool_type == first_given(types(fragments))
                &&& name_given(chunk) == first_given(names(fragments))
                &&& arguments_given(chunk) == all_given(arguments(fragments))
            }
        }),
{
    let deltas = deltas_for(chunks, n, index);
    lemma_stream_grown(chunks, n, index);
    lemma_deltas_index(chunks, n, index);
    lemma_grown_fields(deltas, index);
    lemma_grown_calls(deltas, call);
    lemma_fragments_index(deltas, call);
    lemma_merged_fields(fragments_for(deltas, call), call);
}

/// The data of the first `n` chunks of a stream.
pub open spec fn data_of(chunks: Seq<AnnotatedView>, n: nat) -> Seq<
    NvCreateChatCompletionStreamResponseView,
>
    decreases n,
{
    if n == 0 {
        Seq::empty()
    } else {
        match chunks[n - 1].data {
            Some(data) => data_of(chunks, (n - 1) as nat).push(data),
            None => data_of(chunks, (n - 1) as nat),
        }
    }
}

/// The usages of chunks.
pub open spec fn usages(data: Seq<NvCreateChatCompletionStreamResponseView>) -> Seq<
    Option<CompletionUsage>,
> {
    Seq::new(data.len(), |i: int| data[i].inner.usage)
}

/// The fingerprints of chunks.
pub open spec fn fingerprints(data: Seq<NvCreateChatCompletionStreamResponseView>) -> Seq<
    Option<Seq<char>>,
> {
    Seq::new(data.len(), |i: int| data[i].inner.system_fingerprint)
}

/// What the extension data of chunks hold under a key.
pub open spec fn extensions(
    data: Seq<NvCreateChatCompletionStreamResponseView>,
    key: Seq<char>,
) -> Seq<Option<JsonView>> {
    Seq::new(
        data.len(),
        |i: int|
            match data[i].nvext {
                Some(value) => member(value, key),
                None => None,
            },
    )
}

/// All extension data are objects.
pub open spec fn extensions_are_objects(
    data: Seq<NvCreateChatCompletionStreamResponseView>,
) -> bool {
    forall|i: int|
        0 <= i < data.len() ==> ((#[trigger] data[i]).nvext matches Some(value) ==> value is Object)
}

/// In a stream without errors the identifier, the model, the time and the service tier are
/// those of the last chunk with data, the usage and the fingerprint are the last that came,
/// and under each key of the extension data stands the last value that came for it.
pub proof fn law_the_last_data_count(chunks: Seq<AnnotatedView>, n: nat, key: Seq<char>)
    requires
        without_errors(chunks),
        n <= chunks.len(),
    ensures
        ({
            let data = data_of(chunks, n);
            let made = aggregated(chunks, n);
            &&& data.len() > 0 ==> {
                &&& made.id == data.last().inner.id
                &&& made.model == data.last().inner.model
                &&& made.created == data.last().inner.created
                &&& made.service_tier == data.last().inner.service_tier
            }
            &&& made.usage == last_given(usages(data))
            &&& made.system_fingerprint == last_given(fingerprints(data))
            &&& extensions_are_objects(data) ==> {
                &&& made.nvext matches Some(value) ==> value is Object
                &&& last_given(extensions(data, key)) == (match made.nvext {
                    Some(value) => member(value, key),
                    None => None,
                })
            }
        }),
    decreases n,
{
    let data = data_of(chunks, n);
    if n == 0 {
        assert(usages(data) =~= Seq::empty());
        assert(fingerprints(data) =~= Seq::empty());
        assert(extensions(data, key) =~= Seq::empty());
    } else {
        let m = (n - 1) as nat;
        let front = data_of(chunks, m);
        law_the_last_data_count(chunks, m, key);
        law_streams_are_put_together(chunks, m, 0, 0);
        assert(chunks[n - 1].event != Some("error"@));
        if let Some(last) = chunks[n - 1].data {
            assert(usages(data).drop_last() =~= usages(front));
            assert(fingerprints(data).drop_last() =~= fingerprints(front));
            assert(extensions(data, key).drop_last() =~= extensions(front, key));
            if extensions_are_objects(data) {
                assert(data[data.len() - 1] == last);
                assert forall|i: int| 0 <= i < front.len() implies (
                (#[trigger] front[i]).nvext matches Some(value) ==> value is Object) by {
                    assert(data[i] == front[i]);
                }
            }
        }
    }
}

} // verus!
