//! Text as sequences of characters: searching, trimming and cutting.
//!
//! Positions count characters, not bytes.

use vstd::prelude::*;

verus! {

/// Appends one character (`String::push`).
pub assume_specification[ String::push ](s: &mut String, c: char)
    ensures
        final(s)@ == old(s)@.push(c),
;

/// `needle` stands in `hay` at position `i`.
pub open spec fn occurs_at(hay: Seq<char>, needle: Seq<char>, i: int) -> bool {
    0 <= i && i + needle.len() <= hay.len() && hay.subrange(i, i + needle.len()) == needle
}

/// At how many positions of `hay` `needle` stands.
pub open spec fn occurrences(hay: Seq<char>, needle: Seq<char>) -> nat
    decreases hay.len(),
{
    if hay.len() == 0 {
        0
    } else {
        occurrences(hay.subrange(1, hay.len() as int), needle) + (if occurs_at(hay, needle, 0) {
            1nat
        } else {
            0
        })
    }
}

/// `needle` stands somewhere in `hay`.
pub open spec fn contains_text(hay: Seq<char>, needle: Seq<char>) -> bool {
    find_text(hay, needle) is Some
}

/// The first position at or after `from` where `needle` stands.
pub open spec fn find_from(hay: Seq<char>, needle: Seq<char>, from: int) -> Option<int>
    decreases hay.len() - from,
{
    if from < 0 || from + needle.len() > hay.len() {
        None
    } else if hay.subrange(from, from + needle.len()) == needle {
        Some(from)
    } else if from >= hay.len() {
        None
    } else {
        find_from(hay, needle, from + 1)
    }
}

/// The first position where `needle` stands.
pub open spec fn find_text(hay: Seq<char>, needle: Seq<char>) -> Option<int> {
    find_from(hay, needle, 0)
}

/// The last position at or before `from` where `needle` stands.
pub open spec fn rfind_from(hay: Seq<char>, needle: Seq<char>, from: int) -> Option<int>
    decreases from + 1,
{
    if from < 0 {
        None
    } else if occurs_at(hay, needle, from) {
        Some(from)
    } else {
        rfind_from(hay, needle, from - 1)
    }
}

/// The last position where `needle` stands.
pub open spec fn rfind_text(hay: Seq<char>, needle: Seq<char>) -> Option<int> {
    rfind_from(hay, needle, hay.len() - needle.len())
}

/// Characters with the Unicode property `White_Space`.
pub open spec fn is_space(c: char) -> bool {
    ||| '\u{9}' <= c <= '\u{d}'
    ||| c == ' '
    ||| c == '\u{85}'
    ||| c == '\u{a0}'
    ||| c == '\u{1680}'
    ||| '\u{2000}' <= c <= '\u{200a}'
    ||| c == '\u{2028}'
    ||| c == '\u{2029}'
    ||| c == '\u{202f}'
    ||| c == '\u{205f}'
    ||| c == '\u{3000}'
}

/// `s` without its leading white space.
pub open spec fn trim_start_spec(s: Seq<char>) -> Seq<char>
    decreases s.len(),
{
    if s.len() > 0 && is_space(s[0]) {
        trim_start_spec(s.subrange(1, s.len() as int))
    } else {
        s
    }
}

/// `s` without its trailing white space.
pub open spec fn trim_end_spec(s: Seq<char>) -> Seq<char>
    decreases s.len(),
{
    if s.len() > 0 && is_space(s[s.len() - 1]) {
        trim_end_spec(s.subrange(0, s.len() - 1))
    } else {
        s
    }
}

/// `s` without its leading and trailing white space.
pub open spec fn trim_spec(s: Seq<char>) -> Seq<char> {
    trim_end_spec(trim_start_spec(s))
}

/// Nothing but white space.
pub open spec fn is_blank(s: Seq<char>) -> bool {
    trim_spec(s).len() == 0
}

/// What `find_from` finds is the first occurrence.
pub proof fn lemma_find_from(hay: Seq<char>, needle: Seq<char>, from: int)
    requires
        0 <= from,
    ensures
        find_from(hay, needle, from) matches Some(i) ==> {
            &&& from <= i
            &&& occurs_at(hay, needle, i)
            &&& forall|j: int| from <= j < i ==> !occurs_at(hay, needle, j)
        },
        find_from(hay, needle, from) is None ==> forall|j: int|
            from <= j ==> !occurs_at(hay, needle, j),
    decreases hay.len() - from,
{
    if from + needle.len() > hay.len() || hay.subrange(from, from + needle.len()) == needle {
    } else if from < hay.len() {
        lemma_find_from(hay, needle, from + 1);
    }
}

/// The first occurrence of `needle`, and that there is none before it.
pub proof fn lemma_find_text(hay: Seq<char>, needle: Seq<char>)
    ensures
        find_text(hay, needle) matches Some(i) ==> {
            &&& occurs_at(hay, needle, i)
            &&& 0 <= i <= i + needle.len() <= hay.len()
            &&& forall|j: int| 0 <= j < i ==> !occurs_at(hay, needle, j)
        },
        find_text(hay, needle) is None ==> forall|j: int| !occurs_at(hay, needle, j),
{
    lemma_find_from(hay, needle, 0);
}

/// What `rfind_from` finds is the last occurrence.
pub proof fn lemma_rfind_from(hay: Seq<char>, needle: Seq<char>, from: int)
    ensures
        rfind_from(hay, needle, from) matches Some(i) ==> {
            &&& i <= from
            &&& occurs_at(hay, needle, i)
            &&& forall|j: int| i < j <= from ==> !occurs_at(hay, needle, j)
        },
        rfind_from(hay, needle, from) is None ==> forall|j: int|
            j <= from ==> !occurs_at(hay, needle, j),
    decreases from + 1,
{
    if from >= 0 && !occurs_at(hay, needle, from) {
        lemma_rfind_from(hay, needle, from - 1);
    }
}

/// The last occurrence of `needle`, and that there is none behind it.
pub proof fn lemma_rfind_text(hay: Seq<char>, needle: Seq<char>)
    ensures
        rfind_text(hay, needle) matches Some(i) ==> {
            &&& occurs_at(hay, needle, i)
            &&& forall|j: int| i < j ==> !occurs_at(hay, needle, j)
        },
        rfind_text(hay, needle) is None ==> forall|j: int| !occurs_at(hay, needle, j),
{
    lemma_rfind_from(hay, needle, hay.len() - needle.len());
}

/// What follows the first `n` characters holds no more occurrences than the whole.
pub proof fn lemma_fewer_occurrences(hay: Seq<char>, needle: Seq<char>, n: int)
    requires
        0 <= n <= hay.len(),
    ensures
        occurrences(hay.subrange(n, hay.len() as int), needle) <= occurrences(hay, needle),
    decreases n,
{
    if n == 0 {
        assert(hay.subrange(0, hay.len() as int) =~= hay);
    } else {
        let rest = hay.subrange(1, hay.len() as int);
        lemma_fewer_occurrences(rest, needle, n - 1);
        assert(rest.subrange(n - 1, rest.len() as int) =~= hay.subrange(n, hay.len() as int));
    }
}

/// More text holds no fewer occurrences.
pub proof fn lemma_more_occurrences(hay: Seq<char>, more: Seq<char>, needle: Seq<char>)
    ensures
        occurrences(hay, needle) <= occurrences(hay + more, needle),
    decreases hay.len(),
{
    if hay.len() > 0 {
        let all = hay + more;
        let rest = hay.subrange(1, hay.len() as int);
        lemma_more_occurrences(rest, more, needle);
        assert(all.subrange(1, all.len() as int) =~= rest + more);
        if occurs_at(hay, needle, 0) {
            assert(all.subrange(0, needle.len() as int) =~= hay.subrange(0, needle.len() as int));
        }
    }
}

/// Behind an occurrence there is at least one occurrence less.
pub proof fn lemma_occurrence_passed(hay: Seq<char>, needle: Seq<char>, i: int)
    requires
        occurs_at(hay, needle, i),
        needle.len() > 0,
    ensures
        occurrences(hay.subrange(i + needle.len(), hay.len() as int), needle) < occurrences(
            hay,
            needle,
        ),
{
    let from = hay.subrange(i, hay.len() as int);
    let rest = from.subrange(1, from.len() as int);
    let n = needle.len() as int;
    lemma_fewer_occurrences(hay, needle, i);
    assert(from.subrange(0, n) =~= hay.subrange(i, i + n));
    lemma_fewer_occurrences(rest, needle, n - 1);
    assert(rest.subrange(n - 1, rest.len() as int) =~= hay.subrange(i + n, hay.len() as int));
}

/// Collects the characters of a text.
pub fn chars_of(s: &str) -> (r: Vec<char>)
    ensures
        r@ == s@,
{
    let mut out: Vec<char> = Vec::new();
    for c in it: s.chars()
        invariant
            it.seq() == s@,
            out@ == s@.subrange(0, it.index() as int),
    {
        out.push(c);
        assert(out@ =~= s@.subrange(0, it.index() + 1));
    }
    assert(s@.subrange(0, s@.len() as int) =~= s@);
    out
}

/// The characters from `from` up to `to` as a text.
pub fn slice_of(s: &str, from: usize, to: usize) -> (r: String)
    requires
        from <= to <= s@.len(),
    ensures
        r@ == s@.subrange(from as int, to as int),
{
    s.substring_char(from, to).to_owned()
}

fn matches_at(hay: &Vec<char>, needle: &Vec<char>, at: usize) -> (r: bool)
    requires
        at + needle@.len() <= hay@.len(),
    ensures
        r == (hay@.subrange(at as int, at + needle@.len()) == needle@),
{
    let mut k: usize = 0;
    while k < needle.len()
        invariant
            k <= needle@.len(),
            at + needle@.len() <= hay.len(),
            forall|j: int| 0 <= j < k ==> hay@[at + j] == needle@[j],
        decreases needle@.len() - k,
    {
        if hay[at + k] != needle[k] {
            assert(hay@.subrange(at as int, at + needle@.len())[k as int] != needle@[k as int]);
            return false;
        }
        k += 1;
    }
    assert(hay@.subrange(at as int, at + needle@.len()) =~= needle@);
    true
}

/// The position of the first occurrence of `needle`.
pub fn find(hay: &str, needle: &str) -> (r: Option<usize>)
    ensures
        r matches Some(i) ==> find_text(hay@, needle@) == Some(i as int),
        r is None ==> find_text(hay@, needle@) is None,
        r matches Some(i) ==> i + needle@.len() <= hay@.len() <= usize::MAX,
{
    let h: Vec<char> = chars_of(hay);
    let n: Vec<char> = chars_of(needle);
    if n.len() > h.len() {
        return None;
    }
    let len: usize = h.len();
    let last: usize = len - n.len();
    let mut i: usize = 0;
    while i <= last
        invariant
            h@ == hay@,
            n@ == needle@,
            len == h@.len(),
            last + n@.len() == len,
            i <= last + 1,
            find_text(hay@, needle@) == find_from(hay@, needle@, i as int),
        decreases last + 1 - i,
    {
        if matches_at(&h, &n, i) {
            return Some(i);
        }
        if i == last {
            assert(find_from(hay@, needle@, i + 1) is None);
            return None;
        }
        i += 1;
    }
    None
}

/// At how many positions of `hay` `needle` stands.
pub fn count_occurrences(hay: &str, needle: &str) -> (r: usize)
    ensures
        r == occurrences(hay@, needle@),
        r <= hay@.len() <= usize::MAX,
{
    let h: Vec<char> = chars_of(hay);
    let n: Vec<char> = chars_of(needle);
    let mut i: usize = h.len();
    let mut count: usize = 0;
    assert(h@.subrange(i as int, h@.len() as int) =~= Seq::empty());
    while i > 0
        invariant
            h@ == hay@,
            n@ == needle@,
            i <= h@.len(),
            count == occurrences(h@.subrange(i as int, h@.len() as int), n@),
            count <= h@.len() - i,
        decreases i,
    {
        let ghost rest = h@.subrange(i as int, h@.len() as int);
        i -= 1;
        let ghost longer = h@.subrange(i as int, h@.len() as int);
        assert(longer.subrange(1, longer.len() as int) =~= rest);
        if n.len() <= h.len() - i {
            assert(longer.subrange(0, n@.len() as int) =~= h@.subrange(i as int, i + n@.len()));
            if matches_at(&h, &n, i) {
                count += 1;
            }
        }
    }
    assert(h@.subrange(0, h@.len() as int) =~= h@);
    count
}

/// Whether `needle` stands in `hay`.
pub fn contains(hay: &str, needle: &str) -> (r: bool)
    ensures
        r == contains_text(hay@, needle@),
{
    find(hay, needle).is_some()
}

/// The position of the last occurrence of `needle`.
pub fn rfind(hay: &str, needle: &str) -> (r: Option<usize>)
    ensures
        r matches Some(i) ==> rfind_text(hay@, needle@) == Some(i as int),
        r is None ==> rfind_text(hay@, needle@) is None,
        r matches Some(i) ==> i + needle@.len() <= hay@.len() <= usize::MAX,
{
    let h: Vec<char> = chars_of(hay);
    let n: Vec<char> = chars_of(needle);
    if n.len() > h.len() {
        return None;
    }
    let len: usize = h.len();
    let mut i: usize = len - n.len();
    loop
        invariant
            h@ == hay@,
            n@ == needle@,
            len == h@.len(),
            i + n@.len() <= len,
            rfind_text(hay@, needle@) == rfind_from(hay@, needle@, i as int),
        decreases i,
    {
        if matches_at(&h, &n, i) {
            return Some(i);
        }
        if i == 0 {
            assert(rfind_from(hay@, needle@, -1) is None);
            return None;
        }
        i -= 1;
    }
}

/// Whether `c` is white space.
pub fn is_whitespace(c: char) -> (r: bool)
    ensures
        r == is_space(c),
{
    ('\u{9}' <= c && c <= '\u{d}') || c == ' ' || c == '\u{85}' || c == '\u{a0}' || c == '\u{1680}'
        || ('\u{2000}' <= c && c <= '\u{200a}') || c == '\u{2028}' || c == '\u{2029}' || c
        == '\u{202f}' || c == '\u{205f}' || c == '\u{3000}'
}

fn leading_spaces(h: &Vec<char>) -> (r: usize)
    ensures
        r <= h@.len(),
        trim_start_spec(h@) == h@.subrange(r as int, h@.len() as int),
{
    let mut i: usize = 0;
    assert(h@.subrange(0, h@.len() as int) =~= h@);
    while i < h.len() && is_whitespace(h[i])
        invariant
            i <= h@.len(),
            trim_start_spec(h@) == trim_start_spec(h@.subrange(i as int, h@.len() as int)),
        decreases h@.len() - i,
    {
        let ghost rest = h@.subrange(i as int, h@.len() as int);
        assert(rest.subrange(1, rest.len() as int) =~= h@.subrange(i + 1, h@.len() as int));
        i += 1;
    }
    i
}

/// `s` without its leading white space.
pub fn trim_start(s: &str) -> (r: String)
    ensures
        r@ == trim_start_spec(s@),
{
    let h: Vec<char> = chars_of(s);
    let lo: usize = leading_spaces(&h);
    slice_of(s, lo, h.len())
}

/// `s` without its leading and trailing white space.
pub fn trim(s: &str) -> (r: String)
    ensures
        r@ == trim_spec(s@),
{
    let h: Vec<char> = chars_of(s);
    let lo: usize = leading_spaces(&h);
    let mut hi: usize = h.len();
    let ghost body = h@.subrange(lo as int, h@.len() as int);
    while hi > lo && is_whitespace(h[hi - 1])
        invariant
            lo <= hi <= h@.len(),
            trim_end_spec(body) == trim_end_spec(h@.subrange(lo as int, hi as int)),
        decreases hi,
    {
        let ghost part = h@.subrange(lo as int, hi as int);
        assert(part.subrange(0, part.len() - 1) =~= h@.subrange(lo as int, hi - 1));
        hi -= 1;
    }
    slice_of(s, lo, hi)
}

/// Whether `s` holds nothing but white space.
pub fn blank(s: &str) -> (r: bool)
    ensures
        r == is_blank(s@),
{
    trim(s).as_str().is_empty()
}

/// Whether two texts are equal.
pub fn same_text(a: &str, b: &str) -> (r: bool)
    ensures
        r == (a@ == b@),
{
    let x: Vec<char> = chars_of(a);
    let y: Vec<char> = chars_of(b);
    x.len() == y.len() && matches_at_all(&x, &y)
}

fn matches_at_all(x: &Vec<char>, y: &Vec<char>) -> (r: bool)
    requires
        x@.len() == y@.len(),
    ensures
        r == (x@ == y@),
{
    assert(x@.subrange(0, x@.len() as int) =~= x@);
    matches_at(x, y, 0)
}

/// Whether `s` ends in the first `n` characters of `marker`.
pub open spec fn ends_with_prefix(s: Seq<char>, marker: Seq<char>, n: int) -> bool {
    0 <= n <= s.len() && s.subrange(s.len() - n, s.len() as int) == marker.subrange(0, n)
}

/// How long a start of `marker`, at most `n` and not all of it, stands at the end of `s`.
pub open spec fn partial_suffix_len(s: Seq<char>, marker: Seq<char>, n: int) -> int
    decreases n,
{
    if n <= 0 {
        0
    } else if ends_with_prefix(s, marker, n) {
        n
    } else {
        partial_suffix_len(s, marker, n - 1)
    }
}

/// How many characters of `buffer` cannot be the start of a `marker` that is
/// not complete yet.
pub open spec fn safe_len(buffer: Seq<char>, marker: Seq<char>) -> int {
    buffer.len() - partial_suffix_len(buffer, marker, marker.len() - 1)
}

/// The part of the buffer that is safe to release lies inside it.
pub proof fn lemma_safe_len(buffer: Seq<char>, marker: Seq<char>, n: int)
    ensures
        0 <= partial_suffix_len(buffer, marker, n) <= buffer.len(),
        n >= 0 ==> partial_suffix_len(buffer, marker, n) <= n,
    decreases n,
{
    if n > 0 && !ends_with_prefix(buffer, marker, n) {
        lemma_safe_len(buffer, marker, n - 1);
    }
}

/// The number of leading characters that cannot belong to a marker whose
/// start ends the buffer.
pub fn safe_len_before_partial_suffix(buffer: &str, marker: &str) -> (r: usize)
    ensures
        r == safe_len(buffer@, marker@),
        r <= buffer@.len(),
{
    let b: Vec<char> = chars_of(buffer);
    let m: Vec<char> = chars_of(marker);
    proof {
        lemma_safe_len(buffer@, marker@, marker@.len() - 1);
    }
    if m.len() == 0 {
        return b.len();
    }
    let mut i: usize = m.len() - 1;
    while i > 0
        invariant
            b@ == buffer@,
            m@ == marker@,
            i < m@.len(),
            partial_suffix_len(b@, m@, m@.len() - 1) == partial_suffix_len(b@, m@, i as int),
        decreases i,
    {
        if i <= b.len() {
            let head: Vec<char> = head_of(&m, i);
            if matches_at(&b, &head, b.len() - i) {
                assert(ends_with_prefix(b@, m@, i as int));
                return b.len() - i;
            }
        }
        i -= 1;
    }
    b.len()
}

fn head_of(m: &Vec<char>, n: usize) -> (r: Vec<char>)
    requires
        n <= m@.len(),
    ensures
        r@ == m@.subrange(0, n as int),
{
    let mut out: Vec<char> = Vec::new();
    let mut k: usize = 0;
    while k < n
        invariant
            k <= n <= m@.len(),
            out@ == m@.subrange(0, k as int),
        decreases n - k,
    {
        out.push(m[k]);
        k += 1;
        assert(out@ =~= m@.subrange(0, k as int));
    }
    out
}

/// Appends `fragment` to an optional text; an empty fragment changes nothing.
pub open spec fn append_optional_spec(target: Option<Seq<char>>, fragment: Seq<char>) -> Option<
    Seq<char>,
> {
    if fragment.len() == 0 {
        target
    } else {
        match target {
            Some(t) => Some(t + fragment),
            None => Some(fragment),
        }
    }
}

/// Appends `fragment` to `target`; an empty fragment changes nothing.
pub fn append_optional(target: &mut Option<String>, fragment: String)
    ensures
        final(target).deep_view() == append_optional_spec(old(target).deep_view(), fragment@),
{
    if fragment.as_str().is_empty() {
        return ;
    }
    match target.take() {
        None => {
            *target = Some(fragment);
        },
        Some(mut t) => {
            t.append(fragment.as_str());
            *target = Some(t);
        },
    }
}

/// Joins two texts.
pub fn join(a: &str, b: &str) -> (r: String)
    ensures
        r@ == a@ + b@,
{
    let mut out: String = a.to_owned();
    out.append(b);
    out
}

/// The digits of a number.
pub open spec fn decimal(n: nat) -> Seq<char>
    decreases n,
{
    let digit = (('0' as int) + n % 10) as char;
    if n < 10 {
        seq![digit]
    } else {
        decimal(n / 10).push(digit)
    }
}

/// The digits of a number.
pub fn decimal_text(n: usize) -> (r: String)
    ensures
        r@ == decimal(n as nat),
    decreases n,
{
    let digit: char = match n % 10 {
        0 => '0',
        1 => '1',
        2 => '2',
        3 => '3',
        4 => '4',
        5 => '5',
        6 => '6',
        7 => '7',
        8 => '8',
        _ => '9',
    };
    let mut out: String = if n < 10 {
        "".to_owned()
    } else {
        decimal_text(n / 10)
    };
    proof {
        reveal_strlit("");
        assert(""@ =~= Seq::empty());
    }
    out.push(digit);
    assert(n < 10 ==> out@ =~= seq![digit]);
    out
}

} // verus!
