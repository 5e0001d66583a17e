//! What holds of the `poolside_v1` parser however its text is cut into pieces.

use crate::chat_types::{ChatCompletionMessageToolCallChunkView, ToolDefinitionView};
use crate::json_text::{escaped_char, json_escaped, lemma_escaped_join};
use crate::parser_facts::{answer_about, ParserFactsView, ParserQueryView};
use crate::poolside::{
    argued, arguments_of, delta_result, earlier, empty_chunk, function_of, lemma_drained_start,
    lemma_key_order, lemma_start_room, lemma_step_progress, lemma_step_wf, lemma_tags,
    lemma_value_order, named, opened, poolside_run, poolside_step, start_run, step_between,
    step_name, step_outside, step_string, step_value, work_left, PoolsideOutcome, PoolsideRun,
    PoolsideV1StreamDeltaView, PoolsideV1StreamStateView, ARG_KEY_END, ARG_KEY_START, ARG_VALUE_END,
    ARG_VALUE_START, TOOL_CALL_END, TOOL_CALL_START,
};
use crate::text::{
    ends_with_prefix, find_text, lemma_find_text, lemma_safe_len, occurs_at, partial_suffix_len,
    safe_len, trim_spec,
};
use vstd::prelude::*;

verus! {

/// An occurrence stays one when more text comes.
proof fn lemma_occurs_extended(b: Seq<char>, more: Seq<char>, tag: Seq<char>, i: int)
    ensures
        occurs_at(b, tag, i) ==> occurs_at(b + more, tag, i),
        occurs_at(b + more, tag, i) && i + tag.len() <= b.len() ==> occurs_at(b, tag, i),
{
    if 0 <= i && i + tag.len() <= b.len() {
        assert((b + more).subrange(i, i + tag.len()) =~= b.subrange(i, i + tag.len()));
    }
}

/// What is found is found at the same place when more text comes.
proof fn lemma_find_extended(b: Seq<char>, more: Seq<char>, tag: Seq<char>)
    ensures
        find_text(b, tag) matches Some(i) ==> find_text(b + more, tag) == Some(i),
        find_text(b, tag) is None ==> (find_text(b + more, tag) matches Some(j) ==> j + tag.len()
            > b.len()),
{
    lemma_find_text(b, tag);
    lemma_find_text(b + more, tag);
    match find_text(b, tag) {
        Some(i) => {
            lemma_occurs_extended(b, more, tag, i);
            match find_text(b + more, tag) {
                Some(j) => {
                    lemma_occurs_extended(b, more, tag, j);
                    if j < i {
                        assert(!occurs_at(b, tag, j));
                    } else if i < j {
                        assert(!occurs_at(b + more, tag, i));
                    }
                },
                None => {
                    assert(!occurs_at(b + more, tag, i));
                },
            }
        },
        None => {
            match find_text(b + more, tag) {
                Some(j) => {
                    lemma_occurs_extended(b, more, tag, j);
                    assert(!occurs_at(b, tag, j));
                },
                None => {},
            }
        },
    }
}

/// The text from the place of the first occurrence on starts with it.
proof fn lemma_find_drained(b: Seq<char>, tag: Seq<char>, i: int)
    requires
        find_text(b, tag) == Some(i),
    ensures
        find_text(b.subrange(i, b.len() as int), tag) == Some(0int),
{
    lemma_find_text(b, tag);
    let rest = b.subrange(i, b.len() as int);
    lemma_find_text(rest, tag);
    assert(rest.subrange(0, tag.len() as int) =~= b.subrange(i, i + tag.len()));
    assert(occurs_at(rest, tag, 0));
    match find_text(rest, tag) {
        Some(j) => {
            if 0 < j {
                assert(!occurs_at(rest, tag, 0));
            }
        },
        None => {
            assert(!occurs_at(rest, tag, 0));
        },
    }
}

/// An occurrence holds the characters of the tag.
proof fn lemma_occurrence_char(b: Seq<char>, tag: Seq<char>, i: int, p: int)
    requires
        occurs_at(b, tag, i),
        i <= p < i + tag.len(),
    ensures
        b[p] == tag[p - i],
{
    assert(b.subrange(i, i + tag.len())[p - i] == b[p]);
}

/// The tags start with a bracket that they hold nowhere else.
proof fn lemma_tag_brackets()
    ensures
        forall|k: int| 0 < k < TOOL_CALL_END@.len() ==> #[trigger] TOOL_CALL_END@[k] != '<',
        forall|k: int| 0 < k < ARG_KEY_START@.len() ==> #[trigger] ARG_KEY_START@[k] != '<',
        forall|k: int| 0 <= k < TOOL_CALL_END@.len() ==> #[trigger] TOOL_CALL_END@[k] != '\n',
        forall|k: int| 0 <= k < ARG_KEY_START@.len() ==> #[trigger] ARG_KEY_START@[k] != '\n',
        TOOL_CALL_END@[0] == '<',
        ARG_KEY_START@[0] == '<',
        TOOL_CALL_END@[1] == '/',
        ARG_KEY_START@[1] == 'a',
        "\n"@[0] == '\n',
{
    reveal_strlit("</tool_call>");
    reveal_strlit("<arg_key>");
    reveal_strlit("\n");
}

/// The run with more text behind what it has.
pub open spec fn extended(run: PoolsideRun, more: Seq<char>) -> PoolsideRun {
    PoolsideRun {
        state: PoolsideV1StreamStateView { buffer: run.state.buffer + more, ..run.state },
        ..run
    }
}

/// What is left of a text that grew.
proof fn lemma_drained_extended(b: Seq<char>, more: Seq<char>, n: int)
    requires
        0 <= n <= b.len(),
    ensures
        (b + more).subrange(n, (b + more).len() as int) == b.subrange(n, b.len() as int) + more,
        (b + more).subrange(0, n) == b.subrange(0, n),
{
    assert((b + more).subrange(n, (b + more).len() as int) =~= b.subrange(n, b.len() as int)
        + more);
    assert((b + more).subrange(0, n) =~= b.subrange(0, n));
}

/// Where a step goes on or misses an answer, it does the same when more text comes.
proof fn lemma_again_extended(
    run: PoolsideRun,
    more: Seq<char>,
    tools: Option<Seq<ToolDefinitionView>>,
    facts: ParserFactsView,
)
    ensures
        poolside_step(run, tools, facts) matches PoolsideOutcome::Again(next) ==> poolside_step(
            extended(run, more),
            tools,
            facts,
        ) == PoolsideOutcome::Again(extended(next, more)),
        poolside_step(run, tools, facts) matches PoolsideOutcome::Missing(query) ==> poolside_step(
            extended(run, more),
            tools,
            facts,
        ) == PoolsideOutcome::Missing(query),
{
    let s = run.state;
    let b = s.buffer;
    lemma_tags();
    if !s.in_tool_call {
        lemma_find_text(b, TOOL_CALL_START@);
        lemma_find_extended(b, more, TOOL_CALL_START@);
        match find_text(b, TOOL_CALL_START@) {
            Some(i) => {
                lemma_drained_extended(b, more, i);
                lemma_drained_extended(b, more, i + TOOL_CALL_START@.len());
            },
            None => {},
        }
    } else if !s.current_tool_name_sent {
        lemma_name_extended(run, more);
    } else if s.streaming_string_value {
        lemma_find_text(b, ARG_VALUE_END@);
        lemma_find_extended(b, more, ARG_VALUE_END@);
        match find_text(b, ARG_VALUE_END@) {
            Some(i) => {
                lemma_drained_extended(b, more, i);
                lemma_drained_extended(b, more, i + ARG_VALUE_END@.len());
            },
            None => {},
        }
    } else if s.pending_key is Some {
        lemma_find_text(b, ARG_VALUE_START@);
        lemma_find_extended(b, more, ARG_VALUE_START@);
        match find_text(b, ARG_VALUE_START@) {
            Some(i) => {
                let rest = b.subrange(i, b.len() as int);
                lemma_drained_extended(b, more, i);
                lemma_drained_extended(rest, more, ARG_VALUE_START@.len() as int);
                lemma_find_text(rest, ARG_VALUE_END@);
                lemma_find_extended(rest, more, ARG_VALUE_END@);
                match find_text(rest, ARG_VALUE_END@) {
                    Some(end) => {
                        lemma_drained_start(b, ARG_VALUE_START@, i);
                        lemma_value_order(rest);
                        lemma_drained_extended(rest, more, end + ARG_VALUE_END@.len());
                        assert((rest + more).subrange(ARG_VALUE_START@.len() as int, end)
                            =~= rest.subrange(ARG_VALUE_START@.len() as int, end));
                    },
                    None => {},
                }
            },
            None => {},
        }
    } else {
        lemma_between_extended(run, more);
    }
}

/// The earliest of the places where a name ends stays the earliest.
proof fn lemma_name_extended(run: PoolsideRun, more: Seq<char>)
    ensures
        step_name(run) matches PoolsideOutcome::Again(next) ==> step_name(extended(run, more))
            == PoolsideOutcome::Again(extended(next, more)),
{
    let b = run.state.buffer;
    let all = b + more;
    let newline = find_text(b, "\n"@);
    let key = find_text(b, ARG_KEY_START@);
    let end = find_text(b, TOOL_CALL_END@);
    lemma_tags();
    lemma_tag_brackets();
    lemma_find_text(b, "\n"@);
    lemma_find_text(b, ARG_KEY_START@);
    lemma_find_text(b, TOOL_CALL_END@);
    lemma_find_text(all, "\n"@);
    lemma_find_text(all, ARG_KEY_START@);
    lemma_find_text(all, TOOL_CALL_END@);
    lemma_find_extended(b, more, "\n"@);
    lemma_find_extended(b, more, ARG_KEY_START@);
    lemma_find_extended(b, more, TOOL_CALL_END@);
    match earlier(earlier(newline, key), end) {
        None => {},
        Some(cut) => {
            assert(all[cut] == b[cut]);
            if newline == Some(cut) {
                lemma_occurrence_char(b, "\n"@, cut, cut);
            }
            if key == Some(cut) {
                lemma_occurrence_char(b, ARG_KEY_START@, cut, cut);
                lemma_occurrence_char(b, ARG_KEY_START@, cut, cut + 1);
                assert(all[cut + 1] == b[cut + 1]);
            }
            if end == Some(cut) {
                lemma_occurrence_char(b, TOOL_CALL_END@, cut, cut);
                lemma_occurrence_char(b, TOOL_CALL_END@, cut, cut + 1);
                assert(all[cut + 1] == b[cut + 1]);
            }
            if key is None {
                match find_text(all, ARG_KEY_START@) {
                    Some(j) => {
                        if j <= cut {
                            lemma_occurrence_char(all, ARG_KEY_START@, j, cut);
                            if j == cut {
                                lemma_occurrence_char(all, ARG_KEY_START@, j, cut + 1);
                            }
                            assert(false);
                        }
                    },
                    None => {},
                }
            }
            if end is None {
                match find_text(all, TOOL_CALL_END@) {
                    Some(j) => {
                        if j <= cut {
                            lemma_occurrence_char(all, TOOL_CALL_END@, j, cut);
                            if j == cut {
                                lemma_occurrence_char(all, TOOL_CALL_END@, j, cut + 1);
                            }
                            assert(false);
                        }
                    },
                    None => {},
                }
            }
            lemma_drained_extended(b, more, cut);
            if newline == Some(cut) {
                lemma_drained_extended(b, more, cut + 1);
            }
            if end == Some(cut) {
                lemma_drained_extended(b, more, cut + TOOL_CALL_END@.len());
            }
        },
    }
}

/// No end of a tool call comes before the start of an argument that is there.
proof fn lemma_no_end_before_key(b: Seq<char>, more: Seq<char>, k: int)
    requires
        find_text(b, ARG_KEY_START@) == Some(k),
        find_text(b, TOOL_CALL_END@) is None,
    ensures
        find_text(b + more, TOOL_CALL_END@) matches Some(e) ==> k < e,
{
    let all = b + more;
    lemma_tags();
    lemma_tag_brackets();
    lemma_find_text(b, ARG_KEY_START@);
    lemma_find_text(all, TOOL_CALL_END@);
    lemma_find_extended(b, more, TOOL_CALL_END@);
    match find_text(all, TOOL_CALL_END@) {
        Some(e) => {
            if e <= k {
                assert(all[k] == b[k] && all[k + 1] == b[k + 1]);
                lemma_occurrence_char(b, ARG_KEY_START@, k, k);
                lemma_occurrence_char(b, ARG_KEY_START@, k, k + 1);
                lemma_occurrence_char(all, TOOL_CALL_END@, e, k);
                if e == k {
                    lemma_occurrence_char(all, TOOL_CALL_END@, e, k + 1);
                }
                assert(false);
            }
        },
        None => {},
    }
}

proof fn lemma_between_extended(run: PoolsideRun, more: Seq<char>)
    ensures
        step_between(run) matches PoolsideOutcome::Again(next) ==> step_between(
            extended(run, more),
        ) == PoolsideOutcome::Again(extended(next, more)),
{
    let b = run.state.buffer;
    let end = find_text(b, TOOL_CALL_END@);
    let key = find_text(b, ARG_KEY_START@);
    lemma_tags();
    lemma_find_text(b, TOOL_CALL_END@);
    lemma_find_text(b, ARG_KEY_START@);
    lemma_find_extended(b, more, TOOL_CALL_END@);
    lemma_find_extended(b, more, ARG_KEY_START@);
    if end is Some && (key is None || end->0 < key->0) {
        lemma_drained_extended(b, more, end->0 + TOOL_CALL_END@.len());
    } else {
        match key {
            Some(k) => {
                let rest = b.subrange(k, b.len() as int);
                if end is None {
                    lemma_no_end_before_key(b, more, k);
                }
                lemma_drained_extended(b, more, k);
                lemma_find_text(rest, ARG_KEY_END@);
                lemma_find_extended(rest, more, ARG_KEY_END@);
                match find_text(rest, ARG_KEY_END@) {
                    Some(e) => {
                        lemma_drained_start(b, ARG_KEY_START@, k);
                        lemma_key_order(rest);
                        lemma_drained_extended(rest, more, e + ARG_KEY_END@.len());
                        assert((rest + more).subrange(ARG_KEY_START@.len() as int, e)
                            =~= rest.subrange(ARG_KEY_START@.len() as int, e));
                    },
                    None => {},
                }
            },
            None => {},
        }
    }
}


/// The end of a text that could be the start of a tag is the longest such end.
proof fn lemma_partial_longest(b: Seq<char>, tag: Seq<char>, n: int, m: int)
    requires
        partial_suffix_len(b, tag, n) < m <= n,
    ensures
        !ends_with_prefix(b, tag, m),
    decreases n,
{
    if n > 0 && !ends_with_prefix(b, tag, n) && m < n {
        lemma_partial_longest(b, tag, n - 1, m);
    }
}

/// What is held back is an end of the text that could be the start of the tag.
proof fn lemma_partial_is_one(b: Seq<char>, tag: Seq<char>, n: int)
    ensures
        partial_suffix_len(b, tag, n) > 0 ==> ends_with_prefix(
            b,
            tag,
            partial_suffix_len(b, tag, n),
        ),
    decreases n,
{
    if n > 0 && !ends_with_prefix(b, tag, n) {
        lemma_partial_is_one(b, tag, n - 1);
    }
}

/// Which end of a text could be the start of a tag depends on the end alone.
proof fn lemma_partial_unique(b: Seq<char>, tag: Seq<char>, n: int, m: int)
    requires
        0 <= m <= n,
        m > 0 ==> ends_with_prefix(b, tag, m),
        forall|k: int| m < k <= n ==> !ends_with_prefix(b, tag, k),
    ensures
        partial_suffix_len(b, tag, n) == m,
    decreases n,
{
    if n > m {
        assert(!ends_with_prefix(b, tag, n));
        lemma_partial_unique(b, tag, n - 1, m);
    }
}

/// When more text comes, only what was held back of a tag matters: the tag is found in
/// it, or the same end is held back.
proof fn lemma_held_back(b: Seq<char>, more: Seq<char>, tag: Seq<char>)
    requires
        tag.len() > 0,
        find_text(b, tag) is None,
    ensures
        ({
            let n = safe_len(b, tag);
            let held = b.subrange(n, b.len() as int);
            &&& 0 <= n <= b.len()
            &&& find_text(b + more, tag) matches Some(i) ==> n <= i && find_text(held + more, tag)
                == Some(i - n)
            &&& find_text(b + more, tag) is None ==> find_text(held + more, tag) is None
                && safe_len(b + more, tag) == n + safe_len(held + more, tag) && 0 <= safe_len(
                held + more,
                tag,
            ) <= (held + more).len()
        }),
{
    let n = safe_len(b, tag);
    let top = tag.len() - 1;
    lemma_safe_len(b, tag, top);
    let held = b.subrange(n, b.len() as int);
    let all = b + more;
    let rest = held + more;
    assert(rest =~= all.subrange(n, all.len() as int));
    lemma_find_text(b, tag);
    lemma_find_text(all, tag);
    lemma_find_text(rest, tag);
    assert forall|i: int| 0 <= i < n implies !occurs_at(all, tag, i) by {
        if occurs_at(all, tag, i) {
            lemma_occurs_extended(b, more, tag, i);
            assert(!occurs_at(b, tag, i));
            let m = b.len() - i;
            assert(m < tag.len());
            assert(b.subrange(i, b.len() as int) =~= tag.subrange(0, m)) by {
                assert forall|k: int| 0 <= k < m implies b.subrange(i, b.len() as int)[k]
                    == tag.subrange(0, m)[k] by {
                    lemma_occurrence_char(all, tag, i, i + k);
                }
            }
            assert(ends_with_prefix(b, tag, m));
            lemma_partial_longest(b, tag, top, m);
        }
    }
    assert forall|i: int| occurs_at(rest, tag, i) <==> #[trigger] occurs_at(all, tag, i + n)
        && i >= 0 by {
        if 0 <= i && i + tag.len() <= rest.len() {
            assert(rest.subrange(i, i + tag.len()) =~= all.subrange(i + n, i + n + tag.len()));
        }
    }
    match find_text(all, tag) {
        Some(i) => {
            assert(n <= i);
            assert(occurs_at(all, tag, (i - n) + n));
            assert(occurs_at(rest, tag, i - n));
            match find_text(rest, tag) {
                Some(j) => {
                    assert(occurs_at(all, tag, j + n));
                    if j < i - n {
                        assert(!occurs_at(all, tag, j + n));
                    } else if i - n < j {
                        assert(!occurs_at(rest, tag, i - n));
                    }
                },
                None => {
                    assert(!occurs_at(rest, tag, i - n));
                },
            }
        },
        None => {
            match find_text(rest, tag) {
                Some(j) => {
                    assert(occurs_at(all, tag, j + n));
                },
                None => {},
            }
            let q = partial_suffix_len(rest, tag, top);
            lemma_safe_len(rest, tag, top);
            lemma_partial_is_one(rest, tag, top);
            assert forall|m: int| 0 < m <= rest.len() && m <= top implies (ends_with_prefix(
                all,
                tag,
                m,
            ) <==> ends_with_prefix(rest, tag, m)) by {
                assert(all.subrange(all.len() - m, all.len() as int) =~= rest.subrange(
                    rest.len() - m,
                    rest.len() as int,
                ));
            }
            assert forall|m: int| q < m <= top implies !ends_with_prefix(all, tag, m) by {
                if ends_with_prefix(all, tag, m) {
                    if m <= rest.len() {
                        assert(ends_with_prefix(rest, tag, m));
                        lemma_partial_longest(rest, tag, top, m);
                    } else {
                        let start = all.len() - m;
                        let k = b.len() - start;
                        assert(b.subrange(start, b.len() as int) =~= tag.subrange(0, k)) by {
                            assert forall|p: int| 0 <= p < k implies b.subrange(
                                start,
                                b.len() as int,
                            )[p] == tag.subrange(0, k)[p] by {
                                assert(all.subrange(start, all.len() as int)[p] == tag.subrange(
                                    0,
                                    m,
                                )[p]);
                            }
                        }
                        assert(ends_with_prefix(b, tag, k));
                        lemma_partial_longest(b, tag, top, k);
                    }
                }
            }
            lemma_partial_unique(all, tag, top, q);
        },
    }
}

/// Text released in two pieces is text released at once.
proof fn lemma_released_twice(run: PoolsideRun, x: Seq<char>, y: Seq<char>)
    ensures
        run.released(x).released(y) == run.released(x + y),
{
    if x.len() == 0 {
        assert(x + y =~= y);
    }
    if y.len() == 0 {
        assert(x + y =~= x);
    }
    match run.delta.content {
        Some(c) => {
            assert((c + x) + y =~= c + (x + y));
        },
        None => {},
    }
}

/// Arguments released in two pieces are arguments released at once.
proof fn lemma_argued_twice(
    pending: Seq<ChatCompletionMessageToolCallChunkView>,
    index: u32,
    f: Seq<char>,
    g: Seq<char>,
)
    ensures
        argued(argued(pending, index, f), index, g) == argued(pending, index, f + g),
{
    let once = argued(pending, index, f);
    let all = opened(pending, index);
    assert(opened(once, index) == once);
    assert((arguments_of(all[all.len() - 1]) + f) + g =~= arguments_of(all[all.len() - 1]) + (f
        + g));
    assert(argued(once, index, g) =~= argued(pending, index, f + g));
}

/// Arguments added in two pieces are arguments added at once.
proof fn lemma_with_args_twice(s: PoolsideV1StreamStateView, f: Seq<char>, g: Seq<char>)
    requires
        0 <= s.index() < s.tools.len(),
    ensures
        s.with_args(f).with_args(g) == s.with_args(f + g),
{
    assert((s.tool().streamed_args + f) + g =~= s.tool().streamed_args + (f + g));
    assert(s.with_args(f).with_args(g).tools =~= s.with_args(f + g).tools);
}

/// Escaping makes no text empty.
proof fn lemma_escaped_not_empty(s: Seq<char>)
    requires
        s.len() > 0,
    ensures
        json_escaped(s).len() > 0,
{
    let n = s.len() - 1;
    assert(json_escaped(s) == json_escaped(s.subrange(0, n)) + escaped_char(s[n]));
    assert(escaped_char(s[n]).len() > 0);
}

/// Where the text outside tool calls pauses, more text leads on from what is held back.
proof fn lemma_outside_resumes(run: PoolsideRun, more: Seq<char>, facts: ParserFactsView)
    ensures
        step_outside(run, facts) matches PoolsideOutcome::Paused(last) ==> step_outside(
            extended(run, more),
            facts,
        ) == step_outside(extended(last, more), facts),
{
    let s = run.state;
    let b = s.buffer;
    lemma_tags();
    if find_text(b, TOOL_CALL_START@) is None {
        let n = safe_len(b, TOOL_CALL_START@);
        let held = b.subrange(n, b.len() as int);
        let all = b + more;
        let rest = held + more;
        lemma_held_back(b, more, TOOL_CALL_START@);
        lemma_find_text(all, TOOL_CALL_START@);
        assert(rest =~= all.subrange(n, all.len() as int));
        let last = run.released(b.subrange(0, n)).at(s.drained(n));
        match find_text(all, TOOL_CALL_START@) {
            Some(i) => {
                lemma_released_twice(run, b.subrange(0, n), rest.subrange(0, i - n));
                assert(b.subrange(0, n) + rest.subrange(0, i - n) =~= all.subrange(0, i));
                assert(rest.subrange(i - n + TOOL_CALL_START@.len(), rest.len() as int)
                    =~= all.subrange(i + TOOL_CALL_START@.len(), all.len() as int));
            },
            None => {
                let m = safe_len(rest, TOOL_CALL_START@);
                lemma_released_twice(run, b.subrange(0, n), rest.subrange(0, m));
                assert(b.subrange(0, n) + rest.subrange(0, m) =~= all.subrange(0, n + m));
                assert(rest.subrange(m, rest.len() as int) =~= all.subrange(
                    n + m,
                    all.len() as int,
                ));
            },
        }
    }
}

/// Where a string value pauses, more text leads on from what is held back.
proof fn lemma_string_resumes(run: PoolsideRun, more: Seq<char>)
    requires
        0 <= run.state.index() < run.state.tools.len(),
    ensures
        step_string(run) matches PoolsideOutcome::Paused(last) ==> step_string(
            extended(run, more),
        ) == step_string(extended(last, more)),
{
    let s = run.state;
    let b = s.buffer;
    lemma_tags();
    if find_text(b, ARG_VALUE_END@) is None {
        let n = safe_len(b, ARG_VALUE_END@);
        let held = b.subrange(n, b.len() as int);
        let all = b + more;
        let rest = held + more;
        let first = json_escaped(b.subrange(0, n));
        lemma_held_back(b, more, ARG_VALUE_END@);
        lemma_find_text(all, ARG_VALUE_END@);
        assert(rest =~= all.subrange(n, all.len() as int));
        if n == 0 {
            assert(held =~= b);
            assert(s.drained(0) == s);
        } else {
            lemma_escaped_not_empty(b.subrange(0, n));
            match find_text(all, ARG_VALUE_END@) {
                Some(i) => {
                    let second = json_escaped(rest.subrange(0, i - n));
                    lemma_escaped_join(b.subrange(0, n), rest.subrange(0, i - n));
                    assert(b.subrange(0, n) + rest.subrange(0, i - n) =~= all.subrange(0, i));
                    assert(first + (second + seq!['"']) =~= json_escaped(all.subrange(0, i))
                        + seq!['"']);
                    assert(rest.subrange(i - n + ARG_VALUE_END@.len(), rest.len() as int)
                        =~= all.subrange(i + ARG_VALUE_END@.len(), all.len() as int));
                    lemma_argued_twice(
                        run.delta.tool_calls,
                        s.index() as u32,
                        first,
                        second + seq!['"'],
                    );
                    let done = PoolsideV1StreamStateView {
                        streaming_string_value: false,
                        pending_key: None,
                        buffer: all.subrange(i + ARG_VALUE_END@.len(), all.len() as int),
                        ..s
                    };
                    lemma_with_args_twice(done, first, second + seq!['"']);
                },
                None => {
                    let m = safe_len(rest, ARG_VALUE_END@);
                    let second = json_escaped(rest.subrange(0, m));
                    lemma_escaped_join(b.subrange(0, n), rest.subrange(0, m));
                    assert(b.subrange(0, n) + rest.subrange(0, m) =~= all.subrange(0, n + m));
                    assert(rest.subrange(m, rest.len() as int) =~= all.subrange(
                        n + m,
                        all.len() as int,
                    ));
                    let done = PoolsideV1StreamStateView {
                        buffer: all.subrange(n + m, all.len() as int),
                        ..s
                    };
                    lemma_escaped_not_empty(all.subrange(0, n + m));
                    if m == 0 {
                        assert(rest.subrange(0, 0) =~= Seq::empty());
                        assert(all.subrange(0, n) =~= b.subrange(0, n));
                        assert(rest.subrange(0, rest.len() as int) =~= rest);
                    } else {
                        lemma_escaped_not_empty(rest.subrange(0, m));
                        lemma_argued_twice(
                            run.delta.tool_calls,
                            s.index() as u32,
                            first,
                            second,
                        );
                        lemma_with_args_twice(done, first, second);
                    }
                },
            }
        }
    }
}

/// Where an argument waits for its value, more text leads on from where the value starts.
proof fn lemma_value_resumes(
    run: PoolsideRun,
    more: Seq<char>,
    tools: Option<Seq<ToolDefinitionView>>,
    facts: ParserFactsView,
    key: Seq<char>,
)
    ensures
        step_value(run, tools, facts, key) matches PoolsideOutcome::Paused(last) ==> step_value(
            extended(run, more),
            tools,
            facts,
            key,
        ) == step_value(extended(last, more), tools, facts, key),
{
    let b = run.state.buffer;
    lemma_tags();
    lemma_find_text(b, ARG_VALUE_START@);
    lemma_find_extended(b, more, ARG_VALUE_START@);
    match find_text(b, ARG_VALUE_START@) {
        Some(i) => {
            let rest = b.subrange(i, b.len() as int);
            lemma_drained_extended(b, more, i);
            lemma_find_drained(b, ARG_VALUE_START@, i);
            lemma_find_extended(rest, more, ARG_VALUE_START@);
            assert((rest + more).subrange(0, (rest + more).len() as int) =~= rest + more);
        },
        None => {},
    }
}

/// Where a tool call waits for the name of an argument, more text leads on from where
/// the name starts.
proof fn lemma_between_resumes(run: PoolsideRun, more: Seq<char>)
    ensures
        step_between(run) matches PoolsideOutcome::Paused(last) ==> step_between(
            extended(run, more),
        ) == step_between(extended(last, more)),
{
    let b = run.state.buffer;
    let end = find_text(b, TOOL_CALL_END@);
    lemma_tags();
    lemma_find_text(b, TOOL_CALL_END@);
    lemma_find_text(b, ARG_KEY_START@);
    lemma_find_extended(b, more, TOOL_CALL_END@);
    lemma_find_extended(b, more, ARG_KEY_START@);
    match find_text(b, ARG_KEY_START@) {
        Some(k) => {
            let rest = b.subrange(k, b.len() as int);
            if end is None {
                lemma_no_end_before_key(b, more, k);
            }
            lemma_drained_extended(b, more, k);
            lemma_find_drained(b, ARG_KEY_START@, k);
            lemma_find_extended(rest, more, ARG_KEY_START@);
            lemma_find_text(rest + more, TOOL_CALL_END@);
            assert((rest + more).subrange(0, (rest + more).len() as int) =~= rest + more);
        },
        None => {},
    }
}

/// Where a run pauses, more text leads on from where it paused.
proof fn lemma_pause_resumes(
    run: PoolsideRun,
    more: Seq<char>,
    tools: Option<Seq<ToolDefinitionView>>,
    facts: ParserFactsView,
)
    requires
        run.state.wf(),
    ensures
        poolside_step(run, tools, facts) matches PoolsideOutcome::Paused(last) ==> poolside_step(
            extended(run, more),
            tools,
            facts,
        ) == poolside_step(extended(last, more), tools, facts),
{
    let s = run.state;
    if !s.in_tool_call {
        lemma_outside_resumes(run, more, facts);
    } else if !s.current_tool_name_sent {
    } else if s.streaming_string_value {
        lemma_string_resumes(run, more);
    } else {
        match s.pending_key {
            Some(key) => {
                lemma_value_resumes(run, more, tools, facts, key);
            },
            None => {
                lemma_between_resumes(run, more);
            },
        }
    }
}

/// A run that ended leads on, with more text, to where a run over all text leads.
proof fn lemma_run_resumes(
    run: PoolsideRun,
    more: Seq<char>,
    tools: Option<Seq<ToolDefinitionView>>,
    facts: ParserFactsView,
)
    requires
        run.state.wf(),
        run.state.has_room(Seq::empty()),
    ensures
        match poolside_run(run, tools, facts) {
            Ok(last) => poolside_run(extended(run, more), tools, facts) == poolside_run(
                extended(last, more),
                tools,
                facts,
            ),
            Err(query) => poolside_run(extended(run, more), tools, facts) == Err::<
                PoolsideRun,
                ParserQueryView,
            >(query),
        },
    decreases work_left(run.state),
{
    lemma_step_wf(run, tools, facts, Seq::empty());
    match poolside_step(run, tools, facts) {
        PoolsideOutcome::Again(next) => {
            lemma_step_progress(run, tools, facts);
            lemma_again_extended(run, more, tools, facts);
            lemma_run_resumes(next, more, tools, facts);
        },
        PoolsideOutcome::Paused(last) => {
            lemma_pause_resumes(run, more, tools, facts);
        },
        PoolsideOutcome::Missing(_) => {
            lemma_again_extended(run, more, tools, facts);
        },
    }
}

/// The text released outside tool calls.
pub open spec fn told(delta: PoolsideV1StreamDeltaView) -> Seq<char> {
    match delta.content {
        Some(text) => text,
        None => Seq::empty(),
    }
}

/// The arguments that chunks hold for the tool call at `index`.
pub open spec fn arguments_at(
    chunks: Seq<ChatCompletionMessageToolCallChunkView>,
    index: u32,
) -> Seq<char>
    decreases chunks.len(),
{
    if chunks.len() == 0 {
        Seq::empty()
    } else {
        let last = chunks[chunks.len() - 1];
        arguments_at(chunks.subrange(0, chunks.len() - 1), index) + (if last.index == index {
            arguments_of(last)
        } else {
            Seq::empty()
        })
    }
}

/// The identifier and the name that chunks give last to the tool call at `index`.
pub open spec fn head_at(
    chunks: Seq<ChatCompletionMessageToolCallChunkView>,
    index: u32,
) -> Option<(Seq<char>, Option<Seq<char>>)>
    decreases chunks.len(),
{
    if chunks.len() == 0 {
        None
    } else {
        let last = chunks[chunks.len() - 1];
        match last.id {
            Some(id) if last.index == index => Some((id, function_of(last).name)),
            _ => head_at(chunks.subrange(0, chunks.len() - 1), index),
        }
    }
}

/// `whole` released what `first` and then `second` released.
pub open spec fn joined(
    whole: PoolsideV1StreamDeltaView,
    first: PoolsideV1StreamDeltaView,
    second: PoolsideV1StreamDeltaView,
) -> bool {
    &&& told(whole) == told(first) + told(second)
    &&& forall|index: u32| #[trigger]
        arguments_at(whole.tool_calls, index) == arguments_at(first.tool_calls, index)
            + arguments_at(second.tool_calls, index)
    &&& forall|index: u32| #[trigger]
        head_at(whole.tool_calls, index) == (match head_at(second.tool_calls, index) {
            Some(head) => Some(head),
            None => head_at(first.tool_calls, index),
        })
}

/// The answers without the first `used` new identifiers.
pub open spec fn ids_used(facts: ParserFactsView, used: int) -> ParserFactsView {
    ParserFactsView {
        fresh_ids: facts.fresh_ids.subrange(used, facts.fresh_ids.len() as int),
        ..facts
    }
}

/// `x` is `y`, after `first` was released and `used` identifiers were used.
pub open spec fn follows(
    x: PoolsideRun,
    y: PoolsideRun,
    first: PoolsideV1StreamDeltaView,
    used: int,
) -> bool {
    &&& x.state == y.state
    &&& x.used_ids == used + y.used_ids
    &&& joined(x.delta, first, y.delta)
}

/// A chunk at the end changes its own tool call only.
proof fn lemma_chunk_opened(
    chunks: Seq<ChatCompletionMessageToolCallChunkView>,
    at: u32,
    index: u32,
)
    ensures
        arguments_at(opened(chunks, at), index) == arguments_at(chunks, index),
        head_at(opened(chunks, at), index) == head_at(chunks, index),
{
    let all = chunks.push(empty_chunk(at));
    assert(all.subrange(0, all.len() - 1) =~= chunks);
    assert(arguments_at(chunks, index) + Seq::<char>::empty() =~= arguments_at(chunks, index));
    assert(arguments_of(empty_chunk(at)) =~= Seq::<char>::empty());
}

/// Added arguments come last in their own tool call.
pub(crate) proof fn lemma_chunk_argued(
    chunks: Seq<ChatCompletionMessageToolCallChunkView>,
    at: u32,
    fragment: Seq<char>,
    index: u32,
)
    ensures
        arguments_at(argued(chunks, at, fragment), index) == arguments_at(chunks, index) + (if index
            == at {
            fragment
        } else {
            Seq::empty()
        }),
        head_at(argued(chunks, at, fragment), index) == head_at(chunks, index),
{
    let before = opened(chunks, at);
    let all = argued(chunks, at, fragment);
    let n = all.len() - 1;
    let rest = before.subrange(0, n);
    lemma_chunk_opened(chunks, at, index);
    assert(all.subrange(0, n) =~= rest);
    if index == at {
        assert(arguments_at(rest, index) + (arguments_of(before[n]) + fragment) =~= (arguments_at(
            rest,
            index,
        ) + arguments_of(before[n])) + fragment);
    } else {
        assert(arguments_at(chunks, index) + Seq::<char>::empty() =~= arguments_at(chunks, index));
    }
}

/// A name belongs to its own tool call.
pub(crate) proof fn lemma_chunk_named(
    chunks: Seq<ChatCompletionMessageToolCallChunkView>,
    at: u32,
    id: Seq<char>,
    name: Seq<char>,
    index: u32,
)
    ensures
        arguments_at(named(chunks, at, id, name), index) == arguments_at(chunks, index),
        head_at(named(chunks, at, id, name), index) == (if index == at {
            Some((id, Some(name)))
        } else {
            head_at(chunks, index)
        }),
{
    let before = opened(chunks, at);
    let all = named(chunks, at, id, name);
    let n = all.len() - 1;
    lemma_chunk_opened(chunks, at, index);
    assert(all.subrange(0, n) =~= before.subrange(0, n));
}

/// Releasing text keeps two runs alike.
proof fn lemma_follows_released(
    x: PoolsideRun,
    y: PoolsideRun,
    first: PoolsideV1StreamDeltaView,
    used: int,
    text: Seq<char>,
)
    requires
        follows(x, y, first, used),
    ensures
        follows(x.released(text), y.released(text), first, used),
{
    if text.len() == 0 {
        assert(x.released(text) == x);
        assert(y.released(text) == y);
    } else {
        assert(told(x.released(text).delta) =~= told(x.delta) + text);
        assert(told(y.released(text).delta) =~= told(y.delta) + text);
        assert((told(first) + told(y.delta)) + text =~= told(first) + (told(y.delta) + text));
    }
}

/// Releasing arguments keeps two runs alike.
proof fn lemma_follows_argument(
    x: PoolsideRun,
    y: PoolsideRun,
    first: PoolsideV1StreamDeltaView,
    used: int,
    fragment: Seq<char>,
)
    requires
        follows(x, y, first, used),
    ensures
        follows(x.argument(fragment), y.argument(fragment), first, used),
{
    let at = x.state.index() as u32;
    let xs = x.delta.tool_calls;
    let ys = y.delta.tool_calls;
    assert forall|index: u32| #[trigger]
        arguments_at(argued(xs, at, fragment), index) == arguments_at(first.tool_calls, index)
            + arguments_at(argued(ys, at, fragment), index) by {
        lemma_chunk_argued(xs, at, fragment, index);
        lemma_chunk_argued(ys, at, fragment, index);
        let part = if index == at {
            fragment
        } else {
            Seq::empty()
        };
        assert(arguments_at(xs, index) == arguments_at(first.tool_calls, index) + arguments_at(
            ys,
            index,
        ));
        assert((arguments_at(first.tool_calls, index) + arguments_at(ys, index)) + part
            =~= arguments_at(first.tool_calls, index) + (arguments_at(ys, index) + part));
    }
    assert forall|index: u32| #[trigger]
        head_at(argued(xs, at, fragment), index) == (match head_at(
            argued(ys, at, fragment),
            index,
        ) {
            Some(head) => Some(head),
            None => head_at(first.tool_calls, index),
        }) by {
        lemma_chunk_argued(xs, at, fragment, index);
        lemma_chunk_argued(ys, at, fragment, index);
        assert(head_at(xs, index) == head_at(xs, index));
    }
}

/// Releasing a name keeps two runs alike.
proof fn lemma_follows_named(
    x: PoolsideRun,
    y: PoolsideRun,
    first: PoolsideV1StreamDeltaView,
    used: int,
    name: Seq<char>,
)
    requires
        follows(x, y, first, used),
    ensures
        follows(x.name_sent(name), y.name_sent(name), first, used),
{
    let at = x.state.index() as u32;
    let id = x.state.tool().id;
    let xs = x.delta.tool_calls;
    let ys = y.delta.tool_calls;
    assert forall|index: u32| #[trigger]
        arguments_at(named(xs, at, id, name), index) == arguments_at(first.tool_calls, index)
            + arguments_at(named(ys, at, id, name), index) by {
        lemma_chunk_named(xs, at, id, name, index);
        lemma_chunk_named(ys, at, id, name, index);
        assert(arguments_at(xs, index) == arguments_at(first.tool_calls, index) + arguments_at(
            ys,
            index,
        ));
    }
    assert forall|index: u32| #[trigger]
        head_at(named(xs, at, id, name), index) == (match head_at(
            named(ys, at, id, name),
            index,
        ) {
            Some(head) => Some(head),
            None => head_at(first.tool_calls, index),
        }) by {
        lemma_chunk_named(xs, at, id, name, index);
        lemma_chunk_named(ys, at, id, name, index);
        assert(head_at(xs, index) == head_at(xs, index));
    }
}

/// One step keeps two runs alike.
proof fn lemma_step_follows(
    x: PoolsideRun,
    y: PoolsideRun,
    first: PoolsideV1StreamDeltaView,
    used: int,
    tools: Option<Seq<ToolDefinitionView>>,
    facts: ParserFactsView,
)
    requires
        follows(x, y, first, used),
        0 <= used <= facts.fresh_ids.len(),
        0 <= y.used_ids,
    ensures
        match (poolside_step(x, tools, facts), poolside_step(y, tools, ids_used(facts, used))) {
            (PoolsideOutcome::Again(a), PoolsideOutcome::Again(b)) => follows(a, b, first, used)
                && 0 <= b.used_ids,
            (PoolsideOutcome::Paused(a), PoolsideOutcome::Paused(b)) => follows(a, b, first, used),
            (PoolsideOutcome::Missing(p), PoolsideOutcome::Missing(q)) => p == q,
            _ => false,
        },
{
    let s = x.state;
    let b = s.buffer;
    if !s.in_tool_call {
        match find_text(b, TOOL_CALL_START@) {
            None => {
                lemma_follows_released(
                    x,
                    y,
                    first,
                    used,
                    b.subrange(0, safe_len(b, TOOL_CALL_START@)),
                );
            },
            Some(i) => {
                lemma_follows_released(x, y, first, used, b.subrange(0, i));
            },
        }
    } else if !s.current_tool_name_sent {
        let newline = find_text(b, "\n"@);
        let key = find_text(b, ARG_KEY_START@);
        let end = find_text(b, TOOL_CALL_END@);
        match earlier(earlier(newline, key), end) {
            None => {},
            Some(cut) => {
                let name = trim_spec(b.subrange(0, cut));
                let rest = PoolsideV1StreamStateView {
                    current_tool_name: Some(name),
                    current_tool_name_sent: true,
                    ..s.drained(
                        if newline == Some(cut) {
                            cut + 1
                        } else {
                            cut
                        },
                    )
                };
                lemma_follows_named(x.at(rest), y.at(rest), first, used, name);
            },
        }
    } else if s.streaming_string_value {
        match find_text(b, ARG_VALUE_END@) {
            Some(i) => {
                let fragment = json_escaped(b.subrange(0, i)) + seq!['"'];
                let next = PoolsideV1StreamStateView {
                    streaming_string_value: false,
                    pending_key: None,
                    ..s.drained(i + ARG_VALUE_END@.len())
                }.with_args(fragment);
                lemma_follows_argument(x.at(next), y.at(next), first, used, fragment);
            },
            None => {
                let n = safe_len(b, ARG_VALUE_END@);
                let fragment = json_escaped(b.subrange(0, n));
                let next = s.drained(n).with_args(fragment);
                lemma_follows_argument(x.at(next), y.at(next), first, used, fragment);
            },
        }
    } else {
        match s.pending_key {
            Some(key) => {
                lemma_value_follows(x, y, first, used, tools, facts, key);
            },
            None => {
                match find_text(b, TOOL_CALL_END@) {
                    Some(end) => {
                        let t = s.drained(end + TOOL_CALL_END@.len());
                        let next = t.closed().finished();
                        if let Some(fragment) = t.closing() {
                            lemma_follows_argument(x.at(next), y.at(next), first, used, fragment);
                        }
                    },
                    None => {},
                }
            },
        }
    }
}

/// The start of a value keeps two runs alike.
proof fn lemma_value_follows(
    x: PoolsideRun,
    y: PoolsideRun,
    first: PoolsideV1StreamDeltaView,
    used: int,
    tools: Option<Seq<ToolDefinitionView>>,
    facts: ParserFactsView,
    pending_key: Seq<char>,
)
    requires
        follows(x, y, first, used),
        0 <= used <= facts.fresh_ids.len(),
        0 <= y.used_ids,
    ensures
        match (
            step_value(x, tools, facts, pending_key),
            step_value(y, tools, ids_used(facts, used), pending_key),
        ) {
            (PoolsideOutcome::Again(a), PoolsideOutcome::Again(b)) => follows(a, b, first, used)
                && 0 <= b.used_ids,
            (PoolsideOutcome::Paused(a), PoolsideOutcome::Paused(b)) => follows(a, b, first, used),
            (PoolsideOutcome::Missing(p), PoolsideOutcome::Missing(q)) => p == q,
            _ => false,
        },
{
    match find_text(x.state.buffer, ARG_VALUE_START@) {
        None => {},
        Some(i) => {
            let s = x.state.drained(i);
            let key = trim_spec(pending_key);
            let opening = s.drained(ARG_VALUE_START@.len() as int);
            let string_start = opening.key_fragment(key) + seq!['"'];
            let string_state = PoolsideV1StreamStateView {
                streaming_string_value: true,
                ..opening.with_key(key).with_args(string_start)
            };
            lemma_follows_argument(
                x.at(string_state),
                y.at(string_state),
                first,
                used,
                string_start,
            );
            match find_text(s.buffer, ARG_VALUE_END@) {
                None => {},
                Some(end) => {
                    let raw = trim_spec(s.buffer.subrange(ARG_VALUE_START@.len() as int, end));
                    let t = PoolsideV1StreamStateView {
                        pending_key: None,
                        ..s.drained(end + ARG_VALUE_END@.len())
                    };
                    if let Some(json) = answer_about(facts.literals, raw) {
                        let fragment = t.key_fragment(key) + json;
                        let next = t.with_key(key).with_args(fragment);
                        lemma_follows_argument(x.at(next), y.at(next), first, used, fragment);
                    }
                },
            }
        },
    }
}

/// Two runs that are alike end alike.
proof fn lemma_run_follows(
    x: PoolsideRun,
    y: PoolsideRun,
    first: PoolsideV1StreamDeltaView,
    used: int,
    tools: Option<Seq<ToolDefinitionView>>,
    facts: ParserFactsView,
)
    requires
        follows(x, y, first, used),
        0 <= used <= facts.fresh_ids.len(),
        0 <= y.used_ids,
    ensures
        match (poolside_run(x, tools, facts), poolside_run(y, tools, ids_used(facts, used))) {
            (Ok(a), Ok(b)) => follows(a, b, first, used),
            (Err(p), Err(q)) => p == q,
            _ => false,
        },
    decreases work_left(x.state),
{
    lemma_step_follows(x, y, first, used, tools, facts);
    match (poolside_step(x, tools, facts), poolside_step(y, tools, ids_used(facts, used))) {
        (PoolsideOutcome::Again(a), PoolsideOutcome::Again(b)) => {
            lemma_step_progress(x, tools, facts);
            lemma_step_progress(y, tools, ids_used(facts, used));
            lemma_run_follows(a, b, first, used, tools, facts);
        },
        _ => {},
    }
}

/// A run uses no more identifiers than there are.
pub(crate) proof fn lemma_ids_in_reach(
    run: PoolsideRun,
    tools: Option<Seq<ToolDefinitionView>>,
    facts: ParserFactsView,
)
    requires
        0 <= run.used_ids <= facts.fresh_ids.len(),
    ensures
        poolside_run(run, tools, facts) matches Ok(last) ==> 0 <= last.used_ids
            <= facts.fresh_ids.len(),
    decreases work_left(run.state),
{
    match poolside_step(run, tools, facts) {
        PoolsideOutcome::Again(next) => {
            lemma_step_progress(run, tools, facts);
            lemma_ids_in_reach(next, tools, facts);
        },
        _ => {},
    }
}

/// Text that comes in two pieces makes of the parser what it makes when it
/// comes at once: the state is the same, and what the two pieces release is, put
/// together, what the whole text releases. The same answer is missing, if one is.
pub proof fn law_pieces_do_not_matter(
    state: PoolsideV1StreamStateView,
    a: Seq<char>,
    b: Seq<char>,
    tools: Option<Seq<ToolDefinitionView>>,
    facts: ParserFactsView,
)
    requires
        state.wf(),
        state.has_room(a),
    ensures
        match delta_result(state, a, tools, facts) {
            Ok(first) => match (
                delta_result(first.state, b, tools, ids_used(facts, first.used_ids)),
                delta_result(state, a + b, tools, facts),
            ) {
                (Ok(second), Ok(whole)) => {
                    &&& whole.state == second.state
                    &&& whole.used_ids == first.used_ids + second.used_ids
                    &&& joined(whole.delta, first.delta, second.delta)
                },
                (Err(p), Err(q)) => p == q,
                _ => false,
            },
            Err(query) => delta_result(state, a + b, tools, facts) == Err::<
                PoolsideRun,
                ParserQueryView,
            >(query),
        },
{
    let start = start_run(state, a);
    lemma_start_room(state, a, Seq::empty());
    assert(state.buffer + (a + b) =~= (state.buffer + a) + b);
    assert(start_run(state, a + b) == extended(start, b));
    lemma_run_resumes(start, b, tools, facts);
    lemma_ids_in_reach(start, tools, facts);
    if let Ok(first) = poolside_run(start, tools, facts) {
        let x = extended(first, b);
        let y = start_run(first.state, b);
        assert(told(x.delta) =~= told(first.delta) + told(y.delta));
        assert forall|index: u32| #[trigger]
            arguments_at(x.delta.tool_calls, index) == arguments_at(first.delta.tool_calls, index)
                + arguments_at(y.delta.tool_calls, index) by {
            assert(arguments_at(x.delta.tool_calls, index) + Seq::<char>::empty()
                =~= arguments_at(x.delta.tool_calls, index));
        }
        lemma_run_follows(x, y, first.delta, first.used_ids, tools, facts);
    }
}

} // verus!
