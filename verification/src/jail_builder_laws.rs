//! What holds of a jail that was configured.

use crate::jail_builder::{
    common_markers, nonempty, with_new, JailedStreamBuilderView, ParserTokensView,
};
use crate::jail_types::JailModeView;
use vstd::prelude::*;

verus! {

/// New items are put behind a list, each once: the list stays in front, everything new is
/// there, nothing else is, and what was added differs from all before it.
pub proof fn law_new_items_are_added_once(list: Seq<Seq<char>>, more: Seq<Seq<char>>)
    ensures
        ({
            let all = with_new(list, more);
            &&& list.is_prefix_of(all)
            &&& forall|item: Seq<char>| #[trigger]
                all.contains(item) <==> list.contains(item) || more.contains(item)
            &&& forall|i: int, j: int|
                0 <= i < j < all.len() && list.len() <= j ==> #[trigger] all[i] != #[trigger] all[j]
        }),
    decreases more.len(),
{
    let all = with_new(list, more);
    if more.len() > 0 {
        let n = more.len() - 1;
        let less = more.subrange(0, n);
        law_new_items_are_added_once(list, less);
        let front = with_new(list, less);
        assert forall|item: Seq<char>| #[trigger]
            all.contains(item) == (list.contains(item) || more.contains(item)) by {
            if more.contains(item) {
                let k = choose|k: int| 0 <= k < more.len() && more[k] == item;
                if k < n {
                    assert(less[k] == item);
                    assert(front.contains(item));
                }
            }
            if less.contains(item) {
                let k = choose|k: int| 0 <= k < less.len() && less[k] == item;
                assert(more[k] == item);
            }
            if all != front {
                assert(all[front.len() as int] == more[n]);
            }
            if front.contains(item) {
                let k = choose|k: int| 0 <= k < front.len() && front[k] == item;
                assert(all[k] == item);
            }
            if all.contains(item) && !front.contains(item) {
                let k = choose|k: int| 0 <= k < all.len() && all[k] == item;
                if k < front.len() {
                    assert(front[k] == item);
                }
                assert(more[n] == item);
            }
        }
        assert forall|i: int, j: int|
            0 <= i < j < all.len() && list.len() <= j implies #[trigger] all[i]
            != #[trigger] all[j] by {
            if j < front.len() {
                assert(all[i] == front[i] && all[j] == front[j]);
            } else {
                assert(all[i] == front[i]);
                assert(front.contains(all[i]));
            }
        }
        assert(list.is_prefix_of(all)) by {
            assert(all.subrange(0, list.len() as int) =~= front.subrange(0, list.len() as int));
        }
    } else {
        assert(list.subrange(0, list.len() as int) =~= list);
        assert forall|item: Seq<char>| #[trigger]
            all.contains(item) == (list.contains(item) || more.contains(item)) by {}
    }
}

/// What is not empty is picked from a list, in its order.
proof fn lemma_nonempty(list: Seq<Seq<char>>)
    ensures
        nonempty(list) == list.filter(|item: Seq<char>| item.len() > 0),
    decreases list.len(),
{
    reveal(Seq::filter);
    if list.len() > 0 {
        assert(list.drop_last() =~= list.subrange(0, list.len() - 1));
        lemma_nonempty(list.drop_last());
    }
}

/// A jail has the start and end sequences that were set for it; where none were set, those
/// of its parser, the empty ones left out of the ends; and where it has no parser, what was
/// set and nothing else.
pub proof fn law_sequences_are_those_set(
    builder: JailedStreamBuilderView,
    parser: Option<ParserTokensView>,
)
    ensures
        ({
            let jail = builder.built(parser);
            let known = builder.tool_call_parser is Some && parser is Some;
            &&& builder.jail_start_sequences.len() > 0 || !known ==> jail.jail_start_sequences
                == builder.jail_start_sequences
            &&& builder.jail_end_sequences.len() > 0 || !known ==> jail.jail_end_sequences
                == builder.jail_end_sequences
            &&& known && builder.jail_start_sequences.len() == 0 ==> jail.jail_start_sequences
                == parser->0.start_tokens
            &&& known && builder.jail_end_sequences.len() == 0 ==> jail.jail_end_sequences
                == parser->0.end_tokens.filter(|item: Seq<char>| item.len() > 0)
            &&& jail.tool_call_parser == builder.tool_call_parser
            &&& jail.named_tool_name == builder.named_tool_name
            &&& jail.tool_definitions == builder.tool_definitions
            &&& jail.emission_mode == builder.emission_mode
            &&& jail.defer_terminal_until_usage == builder.defer_terminal_until_usage
        }),
{
    if let Some(tokens) = parser {
        lemma_nonempty(tokens.end_tokens);
    }
}

/// Every start sequence of a jail is looked for. A jail without a parser looks for the
/// markers of the usual formats too; one with a parser for the start tokens of the parser;
/// and for nothing else, unless there is nothing to look for.
pub proof fn law_starts_are_looked_for(
    builder: JailedStreamBuilderView,
    parser: Option<ParserTokensView>,
    item: Seq<char>,
)
    ensures
        ({
            let jail = builder.built(parser);
            let wanted = jail.jail_start_sequences.contains(item) || (if builder.tool_call_parser
                is None {
                common_markers().contains(item)
            } else {
                parser is Some && parser->0.start_tokens.contains(item)
            });
            &&& wanted ==> jail.marker_patterns.contains(item)
            &&& jail.marker_patterns.contains(item) ==> wanted || (item == "__NEVER_MATCH__"@
                && jail.jail_start_sequences.len() == 0)
            &&& jail.marker_patterns.len() > 0
        }),
{
    let jail = builder.built(parser);
    let starts = jail.jail_start_sequences;
    if builder.tool_call_parser is None {
        law_new_items_are_added_once(starts, common_markers());
        assert(with_new(starts, common_markers()).contains(common_markers()[0]));
    } else if let Some(tokens) = parser {
        let all = starts + tokens.start_tokens;
        if starts.contains(item) {
            let k = choose|k: int| 0 <= k < starts.len() && starts[k] == item;
            assert(all[k] == item);
        }
        if tokens.start_tokens.contains(item) {
            let k = choose|k: int| 0 <= k < tokens.start_tokens.len() && tokens.start_tokens[k]
                == item;
            assert(all[starts.len() + k] == item);
        }
        if all.contains(item) {
            let k = choose|k: int| 0 <= k < all.len() && all[k] == item;
            if k < starts.len() {
                assert(starts[k] == item);
            } else {
                assert(tokens.start_tokens[k - starts.len()] == item);
            }
        }
        if all.len() == 0 {
            assert(jail.marker_patterns[0] == "__NEVER_MATCH__"@);
        }
    } else if starts.len() == 0 {
        assert(jail.marker_patterns[0] == "__NEVER_MATCH__"@);
    }
}

/// A required tool choice is complete after its first call exactly where there is one tool;
/// in every other case the mode is the one that was set.
pub proof fn law_one_tool_needs_one_call(
    builder: JailedStreamBuilderView,
    parser: Option<ParserTokensView>,
)
    ensures
        ({
            let jail = builder.built(parser);
            let one = builder.tool_definitions is Some && builder.tool_definitions->0.len() == 1;
            &&& builder.jail_mode is MarkerBased ==> jail.jail_mode is MarkerBased
            &&& builder.jail_mode matches JailModeView::Immediate { format } ==> {
                &&& format is SingleObject ==> jail.jail_mode == builder.jail_mode
                &&& format is ArrayOfTools && one ==> jail.is_terminal_choice()
                    && jail.is_required()
                &&& format is ArrayOfTools && !one ==> jail.jail_mode == builder.jail_mode
            }
        }),
{
}

} // verus!
