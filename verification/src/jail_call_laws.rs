//! What holds of the tool calls of a required tool choice over a whole stream.

use crate::chat_types::{ChatChoiceStreamView, ChatCompletionMessageToolCallChunkView};
use crate::jail_laws::{has_key, keys_differ, law_calls_leave_once, lemma_key_position};
use crate::jail_state::{
    dedupe_key, key_position, prepared, ChoiceJailStateView, KeyCountView, Sorted,
};
use crate::jail_types::JailedStreamView;
use crate::json_text::{json_text, parsed_json};
use crate::text::trim_spec;
use vstd::prelude::*;

verus! {

/// The tool calls of a choice.
pub open spec fn calls_of(choice: ChatChoiceStreamView) -> Seq<
    ChatCompletionMessageToolCallChunkView,
> {
    match choice.delta.tool_calls {
        Some(calls) => calls,
        None => Seq::empty(),
    }
}

/// The tool calls of choices, one choice after the other.
pub open spec fn calls_of_all(choices: Seq<ChatChoiceStreamView>) -> Seq<
    ChatCompletionMessageToolCallChunkView,
>
    decreases choices.len(),
{
    if choices.len() == 0 {
        Seq::empty()
    } else {
        calls_of_all(choices.drop_last()) + calls_of(choices.last())
    }
}

/// Choices prepared one after the other, from `state` on: what is remembered then, what
/// is left of each, and how many calls each has left.
pub open spec fn prepared_all(
    state: ChoiceJailStateView,
    choices: Seq<ChatChoiceStreamView>,
    jail: JailedStreamView,
) -> (ChoiceJailStateView, Seq<ChatChoiceStreamView>, Seq<int>)
    decreases choices.len(),
{
    if choices.len() == 0 {
        (state, Seq::empty(), Seq::empty())
    } else {
        let (before, left, counts) = prepared_all(state, choices.drop_last(), jail);
        let (after, ready, n) = prepared(before, choices.last(), jail);
        (after, left.push(ready), counts.push(n))
    }
}

/// `part` is what is left of `whole` without some of its items, in the same order.
pub open spec fn within<A>(part: Seq<A>, whole: Seq<A>) -> bool
    decreases whole.len(),
{
    ||| part.len() == 0
    ||| whole.len() > 0 && part.last() == whole.last() && within(
        part.drop_last(),
        whole.drop_last(),
    )
    ||| whole.len() > 0 && within(part, whole.drop_last())
}

/// Two tool calls are the same: the trimmed names are, and the arguments are equal JSON,
/// or the same text where they are no JSON.
pub open spec fn same_call(
    a: ChatCompletionMessageToolCallChunkView,
    b: ChatCompletionMessageToolCallChunkView,
) -> bool {
    &&& a.function matches Some(f) && f.name matches Some(name) && trim_spec(name).len() > 0
    &&& b.function matches Some(g) && g.name is Some
    &&& trim_spec(a.function->0.name->0) == trim_spec(b.function->0.name->0)
    &&& match (parsed_json(given_args(a)), parsed_json(given_args(b))) {
        (Some(x), Some(y)) => x == y,
        (None, None) => given_args(a) == given_args(b),
        _ => false,
    }
}

/// The trimmed argument text of a tool call.
pub open spec fn given_args(chunk: ChatCompletionMessageToolCallChunkView) -> Seq<char> {
    trim_spec(
        match chunk.function->0.arguments {
            Some(arguments) => arguments,
            None => Seq::empty(),
        },
    )
}

/// How often a call with that key is among the calls.
pub open spec fn sights(
    chunks: Seq<ChatCompletionMessageToolCallChunkView>,
    key: Seq<char>,
) -> nat
    decreases chunks.len(),
{
    if chunks.len() == 0 {
        0
    } else {
        sights(chunks.drop_last(), key) + (if dedupe_key(chunks.last()) == Some(key) {
            1nat
        } else {
            0
        })
    }
}

/// How often a call with that key came, as far as it is remembered.
pub open spec fn count_of(keys: Seq<KeyCountView>, key: Seq<char>) -> nat {
    match key_position(keys, key, 0) {
        Some(p) => keys[p].count as nat,
        None => 0,
    }
}

/// What is remembered is how often each call came, and none came a fourth time; once
/// one did, the rest does not count.
pub open spec fn remembers(
    keys: Seq<KeyCountView>,
    stopped: bool,
    chunks: Seq<ChatCompletionMessageToolCallChunkView>,
) -> bool {
    if stopped {
        exists|key: Seq<char>| #[trigger] sights(chunks, key) >= 4
    } else {
        forall|key: Seq<char>|
            #![trigger sights(chunks, key)]
            #![trigger count_of(keys, key)]
            sights(chunks, key) == count_of(keys, key) && count_of(keys, key) <= 3
    }
}

proof fn lemma_within_more<A>(part: Seq<A>, whole: Seq<A>, item: A)
    requires
        within(part, whole),
    ensures
        within(part, whole.push(item)),
        within(part.push(item), whole.push(item)),
{
    assert(whole.push(item).drop_last() =~= whole);
    assert(part.push(item).drop_last() =~= part);
}

proof fn lemma_kept_within(from: Sorted, chunks: Seq<ChatCompletionMessageToolCallChunkView>)
    requires
        from.kept.len() == 0,
    ensures
        within(from.over(chunks).kept, chunks),
    decreases chunks.len(),
{
    if chunks.len() > 0 {
        let front = chunks.subrange(0, chunks.len() - 1);
        lemma_kept_within(from, front);
        assert(front.push(chunks[chunks.len() - 1]) =~= chunks);
        lemma_within_more(from.over(front).kept, front, chunks[chunks.len() - 1]);
    }
}

proof fn lemma_sights_join(
    a: Seq<ChatCompletionMessageToolCallChunkView>,
    b: Seq<ChatCompletionMessageToolCallChunkView>,
    key: Seq<char>,
)
    ensures
        sights(a + b, key) == sights(a, key) + sights(b, key),
    decreases b.len(),
{
    if b.len() == 0 {
        assert(a + b =~= a);
    } else {
        assert((a + b).drop_last() =~= a + b.drop_last());
        assert((a + b).last() == b.last());
        lemma_sights_join(a, b.drop_last(), key);
    }
}

/// One more call is counted.
proof fn lemma_remembers_step(
    out: Sorted,
    chunks: Seq<ChatCompletionMessageToolCallChunkView>,
    chunk: ChatCompletionMessageToolCallChunkView,
)
    requires
        keys_differ(out.keys),
        remembers(out.keys, out.stopped, chunks),
    ensures
        remembers(out.step(chunk).keys, out.step(chunk).stopped, chunks.push(chunk)),
{
    let next = out.step(chunk);
    let all = chunks.push(chunk);
    assert(all.drop_last() =~= chunks);
    assert(all.last() == chunk);
    assert(forall|k: Seq<char>| #[trigger]
        sights(all, k) == sights(chunks, k) + (if dedupe_key(chunk) == Some(k) {
            1nat
        } else {
            0
        }));
    if out.stopped {
        let key = choose|key: Seq<char>| #[trigger] sights(chunks, key) >= 4;
        assert(sights(all, key) >= 4);
        assert(remembers(next.keys, next.stopped, all));
    } else {
        match dedupe_key(chunk) {
            None => {
                assert forall|k: Seq<char>|
                    sights(all, k) == count_of(next.keys, k) && count_of(next.keys, k) <= 3 by {
                    assert(sights(chunks, k) == count_of(out.keys, k));
                }
                assert(remembers(next.keys, next.stopped, all));
            },
            Some(key) => {
                lemma_key_position(out.keys, key, 0);
                assert(sights(chunks, key) == count_of(out.keys, key));
                if next.stopped {
                    assert(sights(all, key) >= 4);
                    assert(remembers(next.keys, next.stopped, all));
                } else {
                    assert forall|k: Seq<char>|
                        #![trigger sights(all, k)]
                        #![trigger count_of(next.keys, k)]
                        sights(all, k) == count_of(next.keys, k) && count_of(next.keys, k)
                            <= 3 by {
                        assert(sights(chunks, k) == count_of(out.keys, k));
                        lemma_key_position(out.keys, k, 0);
                        lemma_key_position(next.keys, k, 0);
                        match key_position(out.keys, key, 0) {
                            None => {
                                assert(next.keys[out.keys.len() as int].key == key);
                                if let Some(q) = key_position(out.keys, k, 0) {
                                    assert(next.keys[q].key == k);
                                    let p = key_position(next.keys, k, 0)->0;
                                    if p < out.keys.len() {
                                        assert(out.keys[p].key == k);
                                    }
                                    assert(p == q);
                                }
                                if let Some(p) = key_position(next.keys, k, 0) {
                                    if p < out.keys.len() {
                                        assert(out.keys[p].key == k);
                                    }
                                }
                            },
                            Some(at) => {
                                if let Some(q) = key_position(out.keys, k, 0) {
                                    assert(next.keys[q].key == k);
                                    let p = key_position(next.keys, k, 0)->0;
                                    assert(out.keys[p].key == k);
                                    assert(p == q);
                                }
                                if let Some(p) = key_position(next.keys, k, 0) {
                                    assert(out.keys[p].key == k);
                                }
                            },
                        }
                    }
                    assert(remembers(next.keys, next.stopped, all));
                }
            },
        }
    }
}

/// Calls of one more choice are counted.
proof fn lemma_remembers_over(
    keys: Seq<KeyCountView>,
    before: Seq<ChatCompletionMessageToolCallChunkView>,
    chunks: Seq<ChatCompletionMessageToolCallChunkView>,
)
    requires
        keys_differ(keys),
        remembers(keys, false, before),
    ensures
        ({
            let out = (Sorted { keys, kept: Seq::empty(), stopped: false }).over(chunks);
            remembers(out.keys, out.stopped, before + chunks)
        }),
    decreases chunks.len(),
{
    if chunks.len() == 0 {
        assert(before + chunks =~= before);
    } else {
        let n = chunks.len() - 1;
        let front = chunks.subrange(0, n);
        let out = (Sorted { keys, kept: Seq::empty(), stopped: false }).over(front);
        lemma_remembers_over(keys, before, front);
        crate::jail_laws::lemma_kept_over(keys, front);
        lemma_remembers_step(out, before + front, chunks[n]);
        assert((before + front).push(chunks[n]) =~= before + chunks);
    }
}

/// All calls differ in their keys, and their keys are remembered.
spec fn kept_apart(
    kept: Seq<ChatCompletionMessageToolCallChunkView>,
    keys: Seq<KeyCountView>,
) -> bool {
    &&& keys_differ(keys)
    &&& forall|i: int|
        0 <= i < kept.len() ==> (dedupe_key(#[trigger] kept[i]) matches Some(key) ==> has_key(
            keys,
            key,
        ))
    &&& forall|i: int, j: int|
        0 <= i < j < kept.len() && dedupe_key(#[trigger] kept[i]) is Some ==> dedupe_key(kept[i])
            != dedupe_key(#[trigger] kept[j])
}

/// One more choice keeps the calls apart and counted.
proof fn lemma_prepared_once(
    state: ChoiceJailStateView,
    choice: ChatChoiceStreamView,
    jail: JailedStreamView,
    kept: Seq<ChatCompletionMessageToolCallChunkView>,
    seen: Seq<ChatCompletionMessageToolCallChunkView>,
)
    requires
        jail.guards_duplicates(),
        kept_apart(kept, state.emitted_required_tool_call_keys),
        remembers(
            state.emitted_required_tool_call_keys,
            state.terminate_after_tool_call,
            seen,
        ),
    ensures
        ({
            let (after, ready, n) = prepared(state, choice, jail);
            &&& kept_apart(kept + calls_of(ready), after.emitted_required_tool_call_keys)
            &&& remembers(
                after.emitted_required_tool_call_keys,
                after.terminate_after_tool_call,
                seen + calls_of(choice),
            )
            &&& within(calls_of(ready), calls_of(choice))
            &&& n == calls_of(ready).len()
            &&& ready.delta.tool_calls is Some ==> n > 0
        }),
{
    let (after, ready, n) = prepared(state, choice, jail);
    let keys = state.emitted_required_tool_call_keys;
    match choice.delta.tool_calls {
        None => {
            assert(kept + calls_of(ready) =~= kept);
            assert(seen + calls_of(choice) =~= seen);
        },
        Some(chunks) => {
            let start = Sorted { keys, kept: Seq::empty(), stopped: false };
            let sorted = start.over(chunks);
            law_calls_leave_once(state, choice, jail);
            lemma_kept_within(start, chunks);
            let more = calls_of(ready);
            assert(more =~= sorted.kept);
            let all = kept + more;
            assert forall|i: int| 0 <= i < all.len() implies (dedupe_key(
                #[trigger] all[i],
            ) matches Some(key) ==> has_key(sorted.keys, key)) by {
                if i < kept.len() {
                    assert(all[i] == kept[i]);
                } else {
                    assert(all[i] == more[i - kept.len()]);
                }
            }
            assert forall|i: int, j: int|
                0 <= i < j < all.len() && dedupe_key(#[trigger] all[i])
                    is Some implies dedupe_key(all[i]) != dedupe_key(#[trigger] all[j]) by {
                if j < kept.len() {
                    assert(all[i] == kept[i] && all[j] == kept[j]);
                } else if i < kept.len() {
                    assert(all[i] == kept[i] && all[j] == more[j - kept.len()]);
                } else {
                    assert(all[i] == more[i - kept.len()] && all[j] == more[j - kept.len()]);
                }
            }
            if state.terminate_after_tool_call {
                let key = choose|key: Seq<char>| #[trigger] sights(seen, key) >= 4;
                lemma_sights_join(seen, chunks, key);
                assert(sights(seen + chunks, key) >= 4);
            } else {
                lemma_remembers_over(keys, seen, chunks);
            }
        },
    }
}

/// Choices prepared one after the other keep the calls apart and counted.
proof fn lemma_prepared_all(
    state: ChoiceJailStateView,
    choices: Seq<ChatChoiceStreamView>,
    jail: JailedStreamView,
)
    requires
        jail.guards_duplicates(),
        state.emitted_required_tool_call_keys.len() == 0,
        !state.terminate_after_tool_call,
    ensures
        ({
            let (after, left, counts) = prepared_all(state, choices, jail);
            &&& left.len() == choices.len()
            &&& counts.len() == choices.len()
            &&& kept_apart(calls_of_all(left), after.emitted_required_tool_call_keys)
            &&& remembers(
                after.emitted_required_tool_call_keys,
                after.terminate_after_tool_call,
                calls_of_all(choices),
            )
            &&& forall|i: int|
                0 <= i < choices.len() ==> {
                    &&& within(calls_of(#[trigger] left[i]), calls_of(choices[i]))
                    &&& counts[i] == calls_of(left[i]).len()
                    &&& left[i].delta.tool_calls is Some ==> counts[i] > 0
                }
        }),
    decreases choices.len(),
{
    let (after, left, counts) = prepared_all(state, choices, jail);
    if choices.len() > 0 {
        let front = choices.drop_last();
        let (before, first, first_counts) = prepared_all(state, front, jail);
        lemma_prepared_all(state, front, jail);
        lemma_prepared_once(
            before,
            choices.last(),
            jail,
            calls_of_all(first),
            calls_of_all(front),
        );
        assert(left.drop_last() =~= first);
        assert forall|i: int| 0 <= i < choices.len() implies {
            &&& within(calls_of(#[trigger] left[i]), calls_of(choices[i]))
            &&& counts[i] == calls_of(left[i]).len()
            &&& left[i].delta.tool_calls is Some ==> counts[i] > 0
        } by {
            if i < front.len() {
                assert(left[i] == first[i] && choices[i] == front[i]);
            }
        }
    }
}

/// Calls that are the same have the same key.
proof fn lemma_same_key(
    a: ChatCompletionMessageToolCallChunkView,
    b: ChatCompletionMessageToolCallChunkView,
)
    requires
        same_call(a, b),
    ensures
        dedupe_key(a) is Some,
        dedupe_key(a) == dedupe_key(b),
{
}

/// Where any tool is required, over all choices of a stream: of each choice some calls
/// are left, in their order, and they are counted; no two calls that are left are the
/// same; and the stream is told to end exactly where some call came four times.
pub proof fn law_no_call_leaves_twice_in_a_stream(
    index: u32,
    starts_jailed: bool,
    choices: Seq<ChatChoiceStreamView>,
    jail: JailedStreamView,
)
    requires
        jail.guards_duplicates(),
    ensures
        ({
            let (after, left, counts) = prepared_all(
                ChoiceJailStateView::initial(index, starts_jailed),
                choices,
                jail,
            );
            let kept = calls_of_all(left);
            &&& left.len() == choices.len()
            &&& forall|i: int|
                0 <= i < choices.len() ==> {
                    &&& within(calls_of(#[trigger] left[i]), calls_of(choices[i]))
                    &&& counts[i] == calls_of(left[i]).len()
                    &&& left[i].delta.tool_calls is Some ==> counts[i] > 0
                }
            &&& forall|i: int, j: int|
                0 <= i < j < kept.len() ==> !same_call(#[trigger] kept[i], #[trigger] kept[j])
            &&& after.terminate_after_tool_call <==> exists|key: Seq<char>| #[trigger]
                sights(calls_of_all(choices), key) >= 4
        }),
{
    let state = ChoiceJailStateView::initial(index, starts_jailed);
    lemma_prepared_all(state, choices, jail);
    let (after, left, counts) = prepared_all(state, choices, jail);
    let kept = calls_of_all(left);
    assert forall|i: int, j: int| 0 <= i < j < kept.len() implies !same_call(
        #[trigger] kept[i],
        #[trigger] kept[j],
    ) by {
        if same_call(kept[i], kept[j]) {
            lemma_same_key(kept[i], kept[j]);
        }
    }
}

/// The argument text by which a tool call is told from others: the text of the JSON, or the
/// text itself where it is no JSON.
pub open spec fn args_told(chunk: ChatCompletionMessageToolCallChunkView) -> Seq<char> {
    match parsed_json(given_args(chunk)) {
        Some(value) => json_text(value),
        None => given_args(chunk),
    }
}

/// The call has a name that says something, without the character that ends names in keys.
pub open spec fn has_plain_name(chunk: ChatCompletionMessageToolCallChunkView) -> bool {
    &&& chunk.function is Some
    &&& chunk.function->0.name is Some
    &&& trim_spec(chunk.function->0.name->0).len() > 0
    &&& !trim_spec(chunk.function->0.name->0).contains('\u{1f}')
}

/// Tool calls are taken for the same only where they are: two calls with one key have the
/// same trimmed name and the same arguments, so a call with another name or with other
/// arguments is never dropped as a repetition. Every call with a name has a key.
pub proof fn law_different_calls_are_told_apart(
    a: ChatCompletionMessageToolCallChunkView,
    b: ChatCompletionMessageToolCallChunkView,
)
    requires
        has_plain_name(a),
        has_plain_name(b),
    ensures
        dedupe_key(a) is Some,
        dedupe_key(a) == dedupe_key(b) ==> trim_spec(a.function->0.name->0) == trim_spec(
            b.function->0.name->0,
        ) && args_told(a) == args_told(b),
{
    let (x, y) = (trim_spec(a.function->0.name->0), trim_spec(b.function->0.name->0));
    let (p, q) = (args_told(a), args_told(b));
    let end = seq!['\u{1f}'];
    let (k, l) = (x + end + p, y + end + q);
    assert(dedupe_key(a) == Some(k) && dedupe_key(b) == Some(l));
    if k == l {
        if x.len() < y.len() {
            assert(k[x.len() as int] == '\u{1f}');
            assert(l[x.len() as int] == y[x.len() as int]);
            assert(y.contains(y[x.len() as int]));
        } else if y.len() < x.len() {
            assert(l[y.len() as int] == '\u{1f}');
            assert(k[y.len() as int] == x[y.len() as int]);
            assert(x.contains(x[y.len() as int]));
        }
        assert(x =~= k.subrange(0, x.len() as int));
        assert(y =~= l.subrange(0, y.len() as int));
        assert(p =~= k.subrange((x.len() + 1) as int, k.len() as int));
        assert(q =~= l.subrange((y.len() + 1) as int, l.len() as int));
    }
}

} // verus!
