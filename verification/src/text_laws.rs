//! What holds of the small operations on text.

use crate::text::{
    append_optional_spec, decimal, ends_with_prefix, is_blank, is_space, lemma_safe_len,
    partial_suffix_len, safe_len, trim_end_spec, trim_spec, trim_start_spec,
};
use vstd::prelude::*;

verus! {

/// White space and nothing else.
pub open spec fn all_space(s: Seq<char>) -> bool {
    forall|i: int| 0 <= i < s.len() ==> is_space(#[trigger] s[i])
}

/// White space in front of text goes.
pub proof fn lemma_trim_start(space: Seq<char>, rest: Seq<char>)
    requires
        all_space(space),
        rest.len() > 0 ==> !is_space(rest[0]),
    ensures
        trim_start_spec(space + rest) == rest,
    decreases space.len(),
{
    let s = space + rest;
    if space.len() == 0 {
        assert(s =~= rest);
    } else {
        let less = space.subrange(1, space.len() as int);
        assert forall|i: int| 0 <= i < less.len() implies is_space(#[trigger] less[i]) by {
            assert(less[i] == space[i + 1]);
        }
        assert(s[0] == space[0]);
        lemma_trim_start(less, rest);
        assert(s.subrange(1, s.len() as int) =~= less + rest);
    }
}

/// White space behind text goes.
proof fn lemma_trim_end(rest: Seq<char>, space: Seq<char>)
    requires
        all_space(space),
        rest.len() > 0 ==> !is_space(rest[rest.len() - 1]),
    ensures
        trim_end_spec(rest + space) == rest,
    decreases space.len(),
{
    let s = rest + space;
    if space.len() == 0 {
        assert(s =~= rest);
    } else {
        let less = space.subrange(0, space.len() - 1);
        assert forall|i: int| 0 <= i < less.len() implies is_space(#[trigger] less[i]) by {
            assert(less[i] == space[i]);
        }
        assert(s[s.len() - 1] == space[space.len() - 1]);
        lemma_trim_end(rest, less);
        assert(s.subrange(0, s.len() - 1) =~= rest + less);
    }
}

/// Trimming takes the white space at both ends and nothing else.
pub proof fn law_trimming_takes_the_ends(front: Seq<char>, middle: Seq<char>, back: Seq<char>)
    requires
        all_space(front),
        all_space(back),
        middle.len() > 0 ==> !is_space(middle[0]) && !is_space(middle[middle.len() - 1]),
        middle.len() == 0 ==> back.len() == 0,
    ensures
        trim_spec(front + middle + back) == middle,
{
    assert(front + middle + back =~= front + (middle + back));
    lemma_trim_start(front, middle + back);
    lemma_trim_end(middle, back);
}

/// Text is blank where it is nothing but white space.
pub proof fn law_blank_is_all_space(s: Seq<char>)
    ensures
        is_blank(s) == all_space(s),
{
    if all_space(s) {
        let none = Seq::<char>::empty();
        assert(s + none + none =~= s);
        law_trimming_takes_the_ends(s, none, none);
    } else {
        lemma_start_kept(s);
        let rest = trim_start_spec(s);
        lemma_end_kept(rest);
    }
}

/// Text with something else than white space keeps it in front.
proof fn lemma_start_kept(s: Seq<char>)
    requires
        !all_space(s),
    ensures
        trim_start_spec(s).len() > 0,
        !is_space(trim_start_spec(s)[0]),
    decreases s.len(),
{
    if is_space(s[0]) {
        let rest = s.subrange(1, s.len() as int);
        let i = choose|i: int| 0 <= i < s.len() && !is_space(#[trigger] s[i]);
        assert(rest[i - 1] == s[i]);
        lemma_start_kept(rest);
    }
}

/// Text that begins with something else than white space does not vanish.
proof fn lemma_end_kept(s: Seq<char>)
    requires
        s.len() > 0,
        !is_space(s[0]),
    ensures
        trim_end_spec(s).len() > 0,
    decreases s.len(),
{
    if is_space(s[s.len() - 1]) {
        lemma_end_kept(s.subrange(0, s.len() - 1));
    }
}

/// The number that digits stand for.
pub open spec fn number_of(digits: Seq<char>) -> int
    decreases digits.len(),
{
    if digits.len() == 0 {
        0
    } else {
        10 * number_of(digits.drop_last()) + (digits.last() as int - '0' as int)
    }
}

/// A number is written in digits that stand for it, without needless zeros.
pub proof fn law_numbers_are_written_out(n: nat)
    ensures
        number_of(decimal(n)) == n,
        forall|i: int| 0 <= i < decimal(n).len() ==> '0' <= #[trigger] decimal(n)[i] <= '9',
        n > 0 ==> decimal(n)[0] != '0',
        decimal(n).len() > 0,
    decreases n,
{
    let digit = (('0' as int) + n % 10) as char;
    assert(digit as int == '0' as int + n % 10);
    if n < 10 {
        assert(decimal(n).drop_last() =~= Seq::<char>::empty());
        assert(number_of(Seq::<char>::empty()) == 0);
        assert(decimal(n).last() == digit);
    } else {
        law_numbers_are_written_out(n / 10);
        assert(decimal(n).drop_last() =~= decimal(n / 10));
        assert(decimal(n).last() == digit);
    }
}

/// The longest start of a marker at the end of text.
proof fn lemma_longest_start(s: Seq<char>, marker: Seq<char>, n: int)
    requires
        n <= marker.len(),
    ensures
        ends_with_prefix(s, marker, partial_suffix_len(s, marker, n)),
        forall|k: int|
            partial_suffix_len(s, marker, n) < k <= n ==> !ends_with_prefix(s, marker, k),
    decreases n,
{
    if n > 0 && !ends_with_prefix(s, marker, n) {
        lemma_longest_start(s, marker, n - 1);
    } else if n <= 0 {
        assert(s.subrange(s.len() as int, s.len() as int) =~= marker.subrange(0, 0));
    }
}

/// Of text at whose end a marker may begin, everything in front of the marker is safe to
/// pass on: what stays is a start of the marker, and no longer start of it, short of the
/// whole, ends the text.
pub proof fn law_markers_wait_whole(text: Seq<char>, marker: Seq<char>)
    requires
        marker.len() > 0,
    ensures
        0 <= safe_len(text, marker) <= text.len(),
        text.len() - safe_len(text, marker) < marker.len(),
        text.subrange(safe_len(text, marker), text.len() as int) == marker.subrange(
            0,
            text.len() - safe_len(text, marker),
        ),
        forall|i: int|
            0 <= i < safe_len(text, marker) && text.len() - i < marker.len() ==> #[trigger]
            text.subrange(i, text.len() as int) != marker.subrange(0, text.len() - i),
{
    lemma_safe_len(text, marker, marker.len() - 1);
    lemma_longest_start(text, marker, marker.len() - 1);
    assert forall|i: int|
        0 <= i < safe_len(text, marker) && text.len() - i < marker.len() implies #[trigger]
    text.subrange(i, text.len() as int) != marker.subrange(0, text.len() - i) by {
        assert(!ends_with_prefix(text, marker, text.len() - i));
    }
}

/// Fragments that are appended stand behind what was there; text that was never there and
/// gets no fragment stays away.
pub proof fn law_fragments_are_appended(target: Option<Seq<char>>, fragment: Seq<char>)
    ensures
        ({
            let after = append_optional_spec(target, fragment);
            &&& after is Some <==> target is Some || fragment.len() > 0
            &&& after is Some ==> after->0 == (if target is Some {
                target->0
            } else {
                Seq::empty()
            }) + fragment
        }),
{
    let none = Seq::<char>::empty();
    assert(none + fragment =~= fragment);
    if fragment.len() == 0 && target is Some {
        assert(target->0 + fragment =~= target->0);
    }
}

} // verus!
