//! What the arguments of a `poolside_v1` tool call are, taken together.

use crate::chat_types::ToolDefinitionView;
use crate::json_text::{json_escaped, json_quoted, lemma_escaped_join};
use crate::parser_facts::{answer_about, ParserFactsView, TextFactView};
use crate::poolside::{
    argued, declared_string, delta_result, earlier, lemma_start_room, lemma_step_progress,
    lemma_step_wf, lemma_tags, new_tool, poolside_run, poolside_step, start_run, step_between,
    step_name, step_outside, step_string, step_value, work_left, PoolsideOutcome, PoolsideRun,
    PoolsideToolView, PoolsideV1StreamStateView, ARG_KEY_START, ARG_VALUE_END, ARG_VALUE_START,
    TOOL_CALL_END, TOOL_CALL_START,
};
use crate::poolside_laws::{arguments_at, lemma_chunk_argued, lemma_chunk_named};
use crate::text::{find_text, lemma_find_text, safe_len, trim_spec};
use vstd::prelude::*;

verus! {

/// The first `n` members of an object with these keys and values, without its end.
pub open spec fn members(keys: Seq<Seq<char>>, values: Seq<Seq<char>>, n: int) -> Seq<char>
    decreases n,
{
    if n <= 0 {
        Seq::empty()
    } else {
        members(keys, values, n - 1) + ((if n == 1 {
            seq!['{']
        } else {
            seq![',']
        }) + json_quoted(keys[n - 1]) + seq![':']) + values[n - 1]
    }
}

/// The text of an object with these keys and values.
pub open spec fn object_text(keys: Seq<Seq<char>>, values: Seq<Seq<char>>) -> Seq<char> {
    if keys.len() == 0 {
        seq!['{', '}']
    } else {
        members(keys, values, keys.len() as int) + seq!['}']
    }
}

/// The text of a value: a JSON string, or one of the literals.
pub open spec fn whole_value(value: Seq<char>, literals: Set<Seq<char>>) -> bool {
    literals.contains(value) || exists|s: Seq<char>| value == #[trigger] json_quoted(s)
}

/// The text of a string that is not yet at its end.
pub open spec fn open_string(value: Seq<char>) -> bool {
    exists|s: Seq<char>| value == seq!['"'] + #[trigger] json_escaped(s)
}

/// The arguments of a tool call so far are members with these values; the last of them
/// is still `open` where it is a string that has not ended.
pub open spec fn has_values(
    tool: PoolsideToolView,
    values: Seq<Seq<char>>,
    open: bool,
    literals: Set<Seq<char>>,
) -> bool {
    let n = tool.seen_keys.len();
    &&& values.len() == n
    &&& tool.args_started == (n > 0)
    &&& tool.seen_keys.no_duplicates()
    &&& forall|i: int|
        0 <= i < n - (if open {
            1int
        } else {
            0int
        }) ==> whole_value(#[trigger] values[i], literals)
    &&& open ==> n > 0 && !tool.args_closed && open_string(values[n - 1])
    &&& tool.streamed_args == if tool.args_closed {
        object_text(tool.seen_keys, values)
    } else {
        members(tool.seen_keys, values, n as int)
    }
}

/// The tool call at `i` is inside a string value.
pub open spec fn is_open(state: PoolsideV1StreamStateView, i: int) -> bool {
    state.in_tool_call && state.streaming_string_value && i == state.index()
}

/// The arguments of all tool calls are objects with these values, each key once, closed
/// for all but the open call, which has none before its name is known.
pub open spec fn all_values(
    state: PoolsideV1StreamStateView,
    values: Seq<Seq<Seq<char>>>,
    literals: Set<Seq<char>>,
) -> bool {
    &&& values.len() == state.tools.len()
    &&& forall|i: int|
        0 <= i < state.tools.len() ==> has_values(
            #[trigger] state.tools[i],
            values[i],
            is_open(state, i),
            literals,
        ) && state.tools[i].args_closed == !(state.in_tool_call && i == state.index())
    &&& state.in_tool_call && !state.current_tool_name_sent ==> !state.tool().args_started
        && !state.streaming_string_value
}

/// The arguments of all tool calls are objects, each key once, closed for all but the
/// open call, which has none before its name is known.
pub open spec fn all_objects(
    state: PoolsideV1StreamStateView,
    literals: Set<Seq<char>>,
) -> bool {
    exists|values: Seq<Seq<Seq<char>>>| all_values(state, values, literals)
}

/// How many values of the tool call at `i` are at their end.
pub open spec fn ended_values(
    state: PoolsideV1StreamStateView,
    values: Seq<Seq<Seq<char>>>,
    i: int,
) -> int {
    values[i].len() - (if is_open(state, i) {
        1int
    } else {
        0int
    })
}

/// The keys of a tool call, and its values that were at their end, are what they were;
/// more may follow them. A tool call that was dropped had none.
pub open spec fn values_stay(
    before: PoolsideV1StreamStateView,
    values: Seq<Seq<Seq<char>>>,
    after: PoolsideV1StreamStateView,
    more: Seq<Seq<Seq<char>>>,
    i: int,
) -> bool {
    if i < after.tools.len() {
        let n = ended_values(before, values, i);
        &&& before.tools[i].seen_keys.is_prefix_of(after.tools[i].seen_keys)
        &&& n <= ended_values(after, more, i)
        &&& forall|j: int| 0 <= j < n ==> #[trigger] more[i][j] == values[i][j]
    } else {
        before.tools[i].seen_keys.len() == 0
    }
}

/// The values of all tool calls stay.
pub open spec fn all_stay(
    before: PoolsideV1StreamStateView,
    values: Seq<Seq<Seq<char>>>,
    after: PoolsideV1StreamStateView,
    more: Seq<Seq<Seq<char>>>,
) -> bool {
    forall|i: int|
        0 <= i < before.tools.len() ==> #[trigger] values_stay(before, values, after, more, i)
}

/// The answers about literals are among `literals`.
pub open spec fn literals_in(facts: ParserFactsView, literals: Set<Seq<char>>) -> bool {
    forall|i: int|
        0 <= i < facts.literals.len() ==> literals.contains((#[trigger] facts.literals[i]).answer)
}

/// Members depend on their own keys and values only.
proof fn lemma_members_same(
    keys: Seq<Seq<char>>,
    values: Seq<Seq<char>>,
    more_keys: Seq<Seq<char>>,
    more_values: Seq<Seq<char>>,
    n: int,
)
    requires
        forall|i: int| 0 <= i < n ==> keys[i] == more_keys[i] && values[i] == more_values[i],
    ensures
        members(keys, values, n) == members(more_keys, more_values, n),
    decreases n,
{
    if n > 0 {
        lemma_members_same(keys, values, more_keys, more_values, n - 1);
    }
}

/// An answer that is found is among the answers.
proof fn lemma_answer_among(
    facts: Seq<TextFactView<Seq<char>>>,
    text: Seq<char>,
    literals: Set<Seq<char>>,
)
    requires
        forall|i: int| 0 <= i < facts.len() ==> literals.contains((#[trigger] facts[i]).answer),
    ensures
        answer_about(facts, text) matches Some(answer) ==> literals.contains(answer),
    decreases facts.len(),
{
    if facts.len() > 0 {
        let rest = facts.subrange(1, facts.len() as int);
        assert forall|i: int| 0 <= i < rest.len() implies literals.contains(
            (#[trigger] rest[i]).answer,
        ) by {
            assert(rest[i] == facts[i + 1]);
        }
        lemma_answer_among(rest, text, literals);
        assert(literals.contains(facts[0].answer));
    }
}

/// A new member with a value, or with the start of a string.
proof fn lemma_member_added(
    tool: PoolsideToolView,
    values: Seq<Seq<char>>,
    key: Seq<char>,
    value: Seq<char>,
    open: bool,
    literals: Set<Seq<char>>,
)
    requires
        has_values(tool, values, false, literals),
        !tool.args_closed,
        !tool.seen_keys.contains(key),
        if open {
            open_string(value)
        } else {
            whole_value(value, literals)
        },
    ensures
        has_values(
            PoolsideToolView {
                args_started: true,
                seen_keys: tool.seen_keys.push(key),
                streamed_args: tool.streamed_args + ((if tool.args_started {
                    seq![',']
                } else {
                    seq!['{']
                }) + json_quoted(key) + seq![':'] + value),
                ..tool
            },
            values.push(value),
            open,
            literals,
        ),
{
    let n = tool.seen_keys.len();
    let keys = tool.seen_keys.push(key);
    let more = values.push(value);
    let opening = (if n == 0 {
        seq!['{']
    } else {
        seq![',']
    }) + json_quoted(key) + seq![':'];
    lemma_members_same(tool.seen_keys, values, keys, more, n as int);
    assert(members(keys, more, n as int + 1) == members(keys, more, n as int) + opening + value);
    assert(tool.streamed_args + (opening + value) =~= members(keys, more, n as int) + opening
        + value);
    assert forall|i: int, j: int| 0 <= i < j < keys.len() implies keys[i] != keys[j] by {
        if j == n {
            assert(tool.seen_keys[i] == keys[i]);
            assert(tool.seen_keys.contains(keys[i]));
        } else {
            assert(keys[i] == tool.seen_keys[i] && keys[j] == tool.seen_keys[j]);
        }
    }
    assert forall|i: int|
        0 <= i < n + 1 - (if open {
            1int
        } else {
            0int
        }) implies whole_value(#[trigger] more[i], literals) by {
        if i < n {
            assert(more[i] == values[i]);
        }
    }
}

/// A string value that goes on, or that ends.
proof fn lemma_string_grows(
    tool: PoolsideToolView,
    values: Seq<Seq<char>>,
    text: Seq<char>,
    ends: bool,
    literals: Set<Seq<char>>,
) -> (more: Seq<Seq<char>>)
    requires
        has_values(tool, values, true, literals),
    ensures
        has_values(
            PoolsideToolView {
                streamed_args: tool.streamed_args + (json_escaped(text) + (if ends {
                    seq!['"']
                } else {
                    Seq::empty()
                })),
                ..tool
            },
            more,
            !ends,
            literals,
        ),
        more.len() == values.len(),
        forall|j: int| 0 <= j < values.len() - 1 ==> more[j] == values[j],
{
    let keys = tool.seen_keys;
    let n = keys.len() as int;
    let s = choose|s: Seq<char>| values[n - 1] == seq!['"'] + #[trigger] json_escaped(s);
    let fragment = json_escaped(text) + (if ends {
        seq!['"']
    } else {
        Seq::empty()
    });
    let last = values[n - 1] + fragment;
    let more = values.update(n - 1, last);
    lemma_escaped_join(s, text);
    if ends {
        assert(last =~= json_quoted(s + text));
        assert(whole_value(last, literals));
    } else {
        assert(last =~= seq!['"'] + json_escaped(s + text));
        assert(open_string(last));
    }
    lemma_members_same(keys, values, keys, more, n - 1);
    assert(members(keys, values, n) + fragment =~= members(keys, more, n));
    assert forall|i: int|
        0 <= i < n - (if !ends {
            1int
        } else {
            0int
        }) implies whole_value(#[trigger] more[i], literals) by {
        if i < n - 1 {
            assert(more[i] == values[i]);
        }
    }
    more
}

/// Where only the current tool call changed, the others are what they were.
proof fn lemma_tool_changed(
    s: PoolsideV1StreamStateView,
    all: Seq<Seq<Seq<char>>>,
    t: PoolsideV1StreamStateView,
    values: Seq<Seq<char>>,
    literals: Set<Seq<char>>,
)
    requires
        s.wf(),
        s.in_tool_call,
        all_values(s, all, literals),
        t.tools.len() == s.tools.len(),
        t.current_tool_id == s.current_tool_id,
        forall|i: int|
            0 <= i < s.tools.len() && i != s.index() ==> #[trigger] t.tools[i] == s.tools[i],
        has_values(t.tool(), values, is_open(t, t.index()), literals),
        t.in_tool_call ==> t.current_tool_name_sent,
        t.tool().args_closed == !t.in_tool_call,
        s.tool().seen_keys.is_prefix_of(t.tool().seen_keys),
        ended_values(s, all, s.index()) <= values.len() - (if is_open(t, t.index()) {
            1int
        } else {
            0int
        }),
        forall|j: int|
            0 <= j < ended_values(s, all, s.index()) ==> #[trigger] values[j]
                == all[s.index()][j],
    ensures
        all_values(t, all.update(s.index(), values), literals),
        all_stay(s, all, t, all.update(s.index(), values)),
{
    let more = all.update(s.index(), values);
    assert forall|i: int| 0 <= i < t.tools.len() implies has_values(
        #[trigger] t.tools[i],
        more[i],
        is_open(t, i),
        literals,
    ) && t.tools[i].args_closed == !(t.in_tool_call && i == t.index()) by {
        if i != s.index() {
            assert(has_values(s.tools[i], all[i], is_open(s, i), literals));
        }
    }
    assert forall|i: int| 0 <= i < s.tools.len() implies #[trigger] values_stay(
        s,
        all,
        t,
        more,
        i,
    ) by {
        if i != s.index() {
            assert(t.tools[i] == s.tools[i]);
            assert(more[i] == all[i]);
        }
    }
}

/// Where the tool calls are the same and none is inside a string, nothing changed.
proof fn lemma_tools_kept(
    s: PoolsideV1StreamStateView,
    all: Seq<Seq<Seq<char>>>,
    t: PoolsideV1StreamStateView,
    literals: Set<Seq<char>>,
)
    requires
        all_values(s, all, literals),
        t == (PoolsideV1StreamStateView { buffer: t.buffer, ..s }),
    ensures
        all_values(t, all, literals),
        all_stay(s, all, t, all),
{
    assert forall|i: int| 0 <= i < t.tools.len() implies has_values(
        #[trigger] t.tools[i],
        all[i],
        is_open(t, i),
        literals,
    ) && t.tools[i].args_closed == !(t.in_tool_call && i == t.index()) by {
        assert(has_values(s.tools[i], all[i], is_open(s, i), literals));
    }
}

/// What stays twice stays.
pub(crate) proof fn lemma_stay_twice(
    r: PoolsideV1StreamStateView,
    a: Seq<Seq<Seq<char>>>,
    s: PoolsideV1StreamStateView,
    b: Seq<Seq<Seq<char>>>,
    t: PoolsideV1StreamStateView,
    c: Seq<Seq<Seq<char>>>,
    literals: Set<Seq<char>>,
)
    requires
        all_values(r, a, literals),
        all_values(t, c, literals),
        all_stay(r, a, s, b),
        all_stay(s, b, t, c),
    ensures
        all_stay(r, a, t, c),
{
    assert forall|i: int| 0 <= i < r.tools.len() implies #[trigger] values_stay(r, a, t, c, i) by {
        assert(values_stay(r, a, s, b, i));
        assert(has_values(r.tools[i], a[i], is_open(r, i), literals));
        if i < s.tools.len() {
            assert(values_stay(s, b, t, c, i));
            if i < t.tools.len() {
                let keys = r.tools[i].seen_keys;
                assert(keys.is_prefix_of(t.tools[i].seen_keys)) by {
                    let first = s.tools[i].seen_keys;
                    let last = t.tools[i].seen_keys;
                    assert(first =~= last.subrange(0, first.len() as int));
                    assert(keys =~= first.subrange(0, keys.len() as int));
                    assert(keys =~= last.subrange(0, keys.len() as int));
                }
                assert forall|j: int| 0 <= j < ended_values(r, a, i) implies #[trigger] c[i][j]
                    == a[i][j] by {
                    assert(b[i][j] == a[i][j]);
                }
            }
        } else if i < t.tools.len() {
            assert(a[i].len() == 0);
            assert(has_values(t.tools[i], c[i], is_open(t, i), literals));
        }
    }
}

/// The arguments that the tool call at `i` has so far.
pub open spec fn args_in(state: PoolsideV1StreamStateView, i: u32) -> Seq<char> {
    if i < state.tools.len() {
        state.tools[i as int].streamed_args
    } else {
        Seq::empty()
    }
}

/// What the tool call at `i` has more than in `before` is what was released for it.
pub open spec fn accounted(before: PoolsideV1StreamStateView, run: PoolsideRun, i: u32) -> bool {
    args_in(run.state, i) == args_in(before, i) + arguments_at(run.delta.tool_calls, i)
}

/// A step leads to arguments that are objects with these values and accounted for.
spec fn step_keeps(
    state: PoolsideV1StreamStateView,
    values: Seq<Seq<Seq<char>>>,
    outcome: PoolsideOutcome,
    more: Seq<Seq<Seq<char>>>,
    before: PoolsideV1StreamStateView,
    literals: Set<Seq<char>>,
    i: u32,
) -> bool {
    match outcome {
        PoolsideOutcome::Again(next) | PoolsideOutcome::Paused(next) => {
            &&& all_values(next.state, more, literals)
            &&& all_stay(state, values, next.state, more)
            &&& accounted(before, next, i)
        },
        PoolsideOutcome::Missing(_) => true,
    }
}

/// A fragment that is both added and released stays accounted for.
proof fn lemma_fragment_accounted(
    before: PoolsideV1StreamStateView,
    run: PoolsideRun,
    next: PoolsideRun,
    fragment: Seq<char>,
    i: u32,
)
    requires
        run.state.wf(),
        run.state.in_tool_call,
        accounted(before, run, i),
        next.delta.tool_calls == argued(
            run.delta.tool_calls,
            run.state.index() as u32,
            fragment,
        ),
        next.state.tools.len() == run.state.tools.len(),
        next.state.tools[run.state.index()].streamed_args =~= run.state.tool().streamed_args
            + fragment,
        forall|k: int|
            0 <= k < run.state.tools.len() && k != run.state.index()
                ==> #[trigger] next.state.tools[k] == run.state.tools[k],
    ensures
        accounted(before, next, i),
{
    lemma_chunk_argued(run.delta.tool_calls, run.state.index() as u32, fragment, i);
    let so_far = arguments_at(run.delta.tool_calls, i);
    if i == run.state.index() {
        assert(args_in(before, i) + (so_far + fragment) =~= args_in(before, i) + so_far + fragment);
    } else {
        assert(so_far + Seq::<char>::empty() =~= so_far);
        assert(args_in(next.state, i) == args_in(run.state, i));
    }
}

/// One step keeps the arguments objects, and accounts for what it adds to them.
proof fn lemma_step_objects(
    before: PoolsideV1StreamStateView,
    run: PoolsideRun,
    values: Seq<Seq<Seq<char>>>,
    tools: Option<Seq<ToolDefinitionView>>,
    facts: ParserFactsView,
    literals: Set<Seq<char>>,
    i: u32,
) -> (more: Seq<Seq<Seq<char>>>)
    requires
        run.state.wf(),
        run.state.has_room(Seq::empty()),
        all_values(run.state, values, literals),
        literals_in(facts, literals),
        accounted(before, run, i),
    ensures
        step_keeps(
            run.state,
            values,
            poolside_step(run, tools, facts),
            more,
            before,
            literals,
            i,
        ),
{
    let s = run.state;
    lemma_tags();
    if !s.in_tool_call {
        lemma_outside_objects(before, run, values, facts, literals, i)
    } else if !s.current_tool_name_sent {
        lemma_name_objects(before, run, values, literals, i)
    } else if s.streaming_string_value {
        lemma_string_objects(before, run, values, literals, i)
    } else {
        match s.pending_key {
            Some(key) => lemma_value_objects(before, run, values, tools, facts, key, literals, i),
            None => lemma_between_objects(before, run, values, literals, i),
        }
    }
}

proof fn lemma_outside_objects(
    before: PoolsideV1StreamStateView,
    run: PoolsideRun,
    values: Seq<Seq<Seq<char>>>,
    facts: ParserFactsView,
    literals: Set<Seq<char>>,
    i: u32,
) -> (more: Seq<Seq<Seq<char>>>)
    requires
        run.state.wf(),
        run.state.has_room(Seq::empty()),
        !run.state.in_tool_call,
        all_values(run.state, values, literals),
        accounted(before, run, i),
    ensures
        step_keeps(run.state, values, step_outside(run, facts), more, before, literals, i),
{
    let s = run.state;
    lemma_tags();
    match find_text(s.buffer, TOOL_CALL_START@) {
        None => {
            let t = s.drained(safe_len(s.buffer, TOOL_CALL_START@));
            lemma_tools_kept(s, values, t, literals);
            values
        },
        Some(at) => if run.used_ids < facts.fresh_ids.len() {
            lemma_find_text(s.buffer, TOOL_CALL_START@);
            lemma_step_wf(run, None, facts, Seq::empty());
            let id = facts.fresh_ids[run.used_ids];
            let t = s.drained(at + TOOL_CALL_START@.len()).begun(id);
            let more = values.push(Seq::empty());
            assert(new_tool(id).streamed_args =~= members(
                new_tool(id).seen_keys,
                Seq::empty(),
                0,
            ));
            assert forall|k: int| 0 <= k < t.tools.len() implies has_values(
                #[trigger] t.tools[k],
                more[k],
                is_open(t, k),
                literals,
            ) && t.tools[k].args_closed == !(t.in_tool_call && k == t.index()) by {
                if k < s.tools.len() {
                    assert(has_values(s.tools[k], values[k], is_open(s, k), literals));
                }
            }
            assert(t.tool() == new_tool(id));
            assert forall|k: int| 0 <= k < s.tools.len() implies #[trigger] values_stay(
                s,
                values,
                t,
                more,
                k,
            ) by {
                assert(t.tools[k] == s.tools[k] && more[k] == values[k]);
            }
            more
        } else {
            values
        },
    }
}

proof fn lemma_name_objects(
    before: PoolsideV1StreamStateView,
    run: PoolsideRun,
    values: Seq<Seq<Seq<char>>>,
    literals: Set<Seq<char>>,
    i: u32,
) -> (more: Seq<Seq<Seq<char>>>)
    requires
        run.state.wf(),
        run.state.has_room(Seq::empty()),
        run.state.in_tool_call,
        !run.state.current_tool_name_sent,
        all_values(run.state, values, literals),
        accounted(before, run, i),
    ensures
        step_keeps(run.state, values, step_name(run), more, before, literals, i),
{
    let s = run.state;
    lemma_tags();
    let newline = find_text(s.buffer, "\n"@);
    let key = find_text(s.buffer, ARG_KEY_START@);
    let end = find_text(s.buffer, TOOL_CALL_END@);
    assert(has_values(s.tool(), values[s.index()], false, literals));
    match earlier(earlier(newline, key), end) {
        Some(cut) => {
            let name = trim_spec(s.buffer.subrange(0, cut));
            if name.len() == 0 && end == Some(cut) {
                let t = s.drained(cut + TOOL_CALL_END@.len()).finished().reverted();
                let more = values.subrange(0, values.len() - 1);
                assert forall|k: int| 0 <= k < t.tools.len() implies has_values(
                    #[trigger] t.tools[k],
                    more[k],
                    is_open(t, k),
                    literals,
                ) && t.tools[k].args_closed == !(t.in_tool_call && k == t.index()) by {
                    assert(has_values(s.tools[k], values[k], is_open(s, k), literals));
                }
                assert(args_in(t, i) =~= args_in(s, i));
                assert forall|k: int| 0 <= k < s.tools.len() implies #[trigger] values_stay(
                    s,
                    values,
                    t,
                    more,
                    k,
                ) by {
                    if k < t.tools.len() {
                        assert(t.tools[k] == s.tools[k] && more[k] == values[k]);
                    }
                }
                more
            } else {
                let next = step_name(run)->Again_0;
                lemma_tool_changed(s, values, next.state, values[s.index()], literals);
                lemma_chunk_named(run.delta.tool_calls, s.index() as u32, s.tool().id, name, i);
                values.update(s.index(), values[s.index()])
            }
        },
        None => {
            lemma_tools_kept(s, values, s, literals);
            values
        },
    }
}

proof fn lemma_string_objects(
    before: PoolsideV1StreamStateView,
    run: PoolsideRun,
    values: Seq<Seq<Seq<char>>>,
    literals: Set<Seq<char>>,
    i: u32,
) -> (more: Seq<Seq<Seq<char>>>)
    requires
        run.state.wf(),
        run.state.has_room(Seq::empty()),
        run.state.in_tool_call,
        run.state.current_tool_name_sent,
        run.state.streaming_string_value,
        all_values(run.state, values, literals),
        accounted(before, run, i),
    ensures
        step_keeps(run.state, values, step_string(run), more, before, literals, i),
{
    let s = run.state;
    let tool = s.tool();
    let own = values[s.index()];
    assert(has_values(tool, own, true, literals));
    match find_text(s.buffer, ARG_VALUE_END@) {
        Some(at) => {
            let text = s.buffer.subrange(0, at);
            let next = step_string(run)->Again_0;
            let grown = lemma_string_grows(tool, own, text, true, literals);
            lemma_tool_changed(s, values, next.state, grown, literals);
            lemma_fragment_accounted(before, run, next, json_escaped(text) + seq!['"'], i);
            values.update(s.index(), grown)
        },
        None => {
            let n = safe_len(s.buffer, ARG_VALUE_END@);
            let text = s.buffer.subrange(0, n);
            let next = step_string(run)->Paused_0;
            assert(json_escaped(text) + Seq::<char>::empty() =~= json_escaped(text));
            if n > 0 && json_escaped(text).len() > 0 {
                let grown = lemma_string_grows(tool, own, text, false, literals);
                lemma_tool_changed(s, values, next.state, grown, literals);
                lemma_fragment_accounted(before, run, next, json_escaped(text), i);
                values.update(s.index(), grown)
            } else {
                lemma_tools_kept(s, values, next.state, literals);
                values
            }
        },
    }
}

proof fn lemma_value_objects(
    before: PoolsideV1StreamStateView,
    run: PoolsideRun,
    values: Seq<Seq<Seq<char>>>,
    tools: Option<Seq<ToolDefinitionView>>,
    facts: ParserFactsView,
    pending_key: Seq<char>,
    literals: Set<Seq<char>>,
    i: u32,
) -> (more: Seq<Seq<Seq<char>>>)
    requires
        run.state.wf(),
        run.state.has_room(Seq::empty()),
        run.state.in_tool_call,
        run.state.current_tool_name_sent,
        !run.state.streaming_string_value,
        all_values(run.state, values, literals),
        literals_in(facts, literals),
        accounted(before, run, i),
    ensures
        step_keeps(
            run.state,
            values,
            step_value(run, tools, facts, pending_key),
            more,
            before,
            literals,
            i,
        ),
{
    let s = run.state;
    let tool = s.tool();
    let own = values[s.index()];
    let key = trim_spec(pending_key);
    let outcome = step_value(run, tools, facts, pending_key);
    assert(has_values(tool, own, false, literals));
    match find_text(s.buffer, ARG_VALUE_START@) {
        None => {
            lemma_tools_kept(s, values, s, literals);
            values
        },
        Some(at) => {
            let d = s.drained(at);
            let tool_name = match s.current_tool_name {
                Some(name) => name,
                None => Seq::empty(),
            };
            if declared_string(tools, tool_name, key) {
                let next = outcome->Again_0;
                if !tool.seen_keys.contains(key) {
                    assert(seq!['"'] =~= seq!['"'] + json_escaped(Seq::empty()));
                    assert(open_string(seq!['"']));
                    lemma_member_added(tool, own, key, seq!['"'], true, literals);
                    lemma_tool_changed(s, values, next.state, own.push(seq!['"']), literals);
                    lemma_fragment_accounted(
                        before,
                        run,
                        next,
                        s.key_fragment(key) + seq!['"'],
                        i,
                    );
                    values.update(s.index(), own.push(seq!['"']))
                } else {
                    lemma_tool_changed(s, values, next.state, own, literals);
                    values.update(s.index(), own)
                }
            } else {
                match find_text(d.buffer, ARG_VALUE_END@) {
                    None => {
                        lemma_tools_kept(s, values, d, literals);
                        values
                    },
                    Some(end) => {
                        let raw = trim_spec(d.buffer.subrange(ARG_VALUE_START@.len() as int, end));
                        if key.len() == 0 || tool.seen_keys.contains(key) {
                            let next = outcome->Again_0;
                            lemma_tool_changed(s, values, next.state, own, literals);
                            values.update(s.index(), own)
                        } else {
                            match answer_about(facts.literals, raw) {
                                Some(json) => {
                                    let next = outcome->Again_0;
                                    lemma_answer_among(facts.literals, raw, literals);
                                    lemma_member_added(tool, own, key, json, false, literals);
                                    lemma_tool_changed(
                                        s,
                                        values,
                                        next.state,
                                        own.push(json),
                                        literals,
                                    );
                                    lemma_fragment_accounted(
                                        before,
                                        run,
                                        next,
                                        s.key_fragment(key) + json,
                                        i,
                                    );
                                    values.update(s.index(), own.push(json))
                                },
                                None => values,
                            }
                        }
                    },
                }
            }
        },
    }
}

proof fn lemma_between_objects(
    before: PoolsideV1StreamStateView,
    run: PoolsideRun,
    values: Seq<Seq<Seq<char>>>,
    literals: Set<Seq<char>>,
    i: u32,
) -> (more: Seq<Seq<Seq<char>>>)
    requires
        run.state.wf(),
        run.state.has_room(Seq::empty()),
        run.state.in_tool_call,
        run.state.current_tool_name_sent,
        !run.state.streaming_string_value,
        all_values(run.state, values, literals),
        accounted(before, run, i),
    ensures
        step_keeps(run.state, values, step_between(run), more, before, literals, i),
{
    let s = run.state;
    let own = values[s.index()];
    assert(has_values(s.tool(), own, false, literals));
    match step_between(run) {
        PoolsideOutcome::Again(next) => {
            lemma_tool_changed(s, values, next.state, own, literals);
            if !next.state.in_tool_call {
                lemma_fragment_accounted(before, run, next, s.closing()->0, i);
            }
        },
        PoolsideOutcome::Paused(next) => {
            lemma_tool_changed(s, values, next.state, own, literals);
        },
        PoolsideOutcome::Missing(_) => {},
    }
    values.update(s.index(), own)
}

/// A run keeps the arguments objects, and accounts for what it adds to them.
proof fn lemma_run_objects(
    before: PoolsideV1StreamStateView,
    run: PoolsideRun,
    values: Seq<Seq<Seq<char>>>,
    tools: Option<Seq<ToolDefinitionView>>,
    facts: ParserFactsView,
    literals: Set<Seq<char>>,
    i: u32,
) -> (more: Seq<Seq<Seq<char>>>)
    requires
        run.state.wf(),
        run.state.has_room(Seq::empty()),
        all_values(run.state, values, literals),
        literals_in(facts, literals),
        accounted(before, run, i),
    ensures
        poolside_run(run, tools, facts) matches Ok(last) ==> {
            &&& all_values(last.state, more, literals)
            &&& all_stay(run.state, values, last.state, more)
            &&& accounted(before, last, i)
        },
    decreases work_left(run.state),
{
    let between = lemma_step_objects(before, run, values, tools, facts, literals, i);
    lemma_step_wf(run, tools, facts, Seq::empty());
    match poolside_step(run, tools, facts) {
        PoolsideOutcome::Again(next) => {
            lemma_step_progress(run, tools, facts);
            let more = lemma_run_objects(before, next, between, tools, facts, literals, i);
            if let Ok(last) = poolside_run(run, tools, facts) {
                lemma_stay_twice(
                    run.state,
                    values,
                    next.state,
                    between,
                    last.state,
                    more,
                    literals,
                );
            }
            more
        },
        _ => between,
    }
}

/// Before any text, no tool call has arguments.
pub proof fn law_no_arguments_at_first(literals: Set<Seq<char>>)
    ensures
        all_values(PoolsideV1StreamStateView::initial(), Seq::empty(), literals),
        all_objects(PoolsideV1StreamStateView::initial(), literals),
{
    assert(all_values(PoolsideV1StreamStateView::initial(), Seq::empty(), literals));
}

/// Whatever text comes, the arguments of every tool call are the members of a JSON
/// object, each key once: a value is a JSON string or a text that the literal parser
/// gave, and only the last value of the open call may be a string without its end.
/// The arguments of a call that ended are a whole object. Keys that a call has, and
/// values that are at their end, stay: of a key that comes again the first value counts.
pub proof fn law_arguments_are_an_object(
    state: PoolsideV1StreamStateView,
    values: Seq<Seq<Seq<char>>>,
    text: Seq<char>,
    tools: Option<Seq<ToolDefinitionView>>,
    facts: ParserFactsView,
    literals: Set<Seq<char>>,
)
    requires
        state.wf(),
        state.has_room(text),
        all_values(state, values, literals),
        literals_in(facts, literals),
    ensures
        delta_result(state, text, tools, facts) matches Ok(run) ==> exists|
            more: Seq<Seq<Seq<char>>>,
        | #[trigger]
            all_values(run.state, more, literals) && all_stay(state, values, run.state, more),
{
    let more = lemma_text_objects(state, values, text, tools, facts, literals, 0);
    if let Ok(run) = delta_result(state, text, tools, facts) {
        assert(all_values(run.state, more, literals));
    }
}

/// A piece of text keeps the arguments objects, and accounts for what it adds to them.
pub(crate) proof fn lemma_text_objects(
    state: PoolsideV1StreamStateView,
    values: Seq<Seq<Seq<char>>>,
    text: Seq<char>,
    tools: Option<Seq<ToolDefinitionView>>,
    facts: ParserFactsView,
    literals: Set<Seq<char>>,
    i: u32,
) -> (more: Seq<Seq<Seq<char>>>)
    requires
        state.wf(),
        state.has_room(text),
        all_values(state, values, literals),
        literals_in(facts, literals),
    ensures
        delta_result(state, text, tools, facts) matches Ok(run) ==> {
            &&& all_values(run.state, more, literals)
            &&& all_stay(state, values, run.state, more)
            &&& accounted(state, run, i)
        },
{
    let run = start_run(state, text);
    lemma_start_room(state, text, Seq::empty());
    lemma_tools_kept(state, values, run.state, literals);
    assert(args_in(state, i) + Seq::<char>::empty() =~= args_in(state, i));
    let more = lemma_run_objects(state, run, values, tools, facts, literals, i);
    if let Ok(last) = delta_result(state, text, tools, facts) {
        lemma_stay_twice(state, values, run.state, values, last.state, more, literals);
    }
    more
}

/// The arguments that a tool call has after a text are those it had before, followed
/// by what was released for it.
pub proof fn law_arguments_are_released(
    state: PoolsideV1StreamStateView,
    text: Seq<char>,
    tools: Option<Seq<ToolDefinitionView>>,
    facts: ParserFactsView,
    literals: Set<Seq<char>>,
    i: u32,
)
    requires
        state.wf(),
        state.has_room(text),
        all_objects(state, literals),
        literals_in(facts, literals),
    ensures
        delta_result(state, text, tools, facts) matches Ok(run) ==> {
            &&& all_objects(run.state, literals)
            &&& args_in(run.state, i) == args_in(state, i) + arguments_at(
                run.delta.tool_calls,
                i,
            )
        },
{
    let values = choose|values: Seq<Seq<Seq<char>>>| all_values(state, values, literals);
    let more = lemma_text_objects(state, values, text, tools, facts, literals, i);
    if let Ok(run) = delta_result(state, text, tools, facts) {
        assert(all_values(run.state, more, literals));
    }
}

} // verus!
