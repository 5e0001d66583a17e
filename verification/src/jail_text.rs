//! Making the text of a forced tool choice fit for a JSON parser.

use crate::json_text::hex_digit;
use crate::text::{rfind, rfind_text, slice_of, trim, trim_spec, trim_start, trim_start_spec};
use vstd::prelude::*;

verus! {

/// The part of `content` that holds the JSON of a forced tool choice: what
/// follows the last end of a reasoning block, or all of it where nothing does.
pub open spec fn json_fragment(content: Seq<char>) -> Seq<char> {
    match rfind_text(content, "</think>"@) {
        Some(i) => {
            let suffix = trim_start_spec(
                content.subrange(i + "</think>"@.len(), content.len() as int),
            );
            if suffix.len() > 0 {
                suffix
            } else {
                trim_spec(content)
            }
        },
        None => trim_spec(content),
    }
}

/// The part of `content` that holds the JSON of a forced tool choice.
pub fn immediate_tool_choice_json_fragment(content: &str) -> (r: String)
    ensures
        r@ == json_fragment(content@),
{
    match rfind(content, "</think>") {
        Some(i) => {
            proof {
                reveal_strlit("</think>");
            }
            let n: usize = content.unicode_len();
            let suffix: String = trim_start(slice_of(content, i + 8, n).as_str());
            if !suffix.as_str().is_empty() {
                return suffix;
            }
        },
        None => {},
    }
    trim(content)
}

/// The reasoning in front of the JSON of a forced tool choice: what stands before the
/// last end of a reasoning block, where the JSON follows it.
pub open spec fn json_lead(content: Seq<char>) -> Seq<char> {
    match rfind_text(content, "</think>"@) {
        Some(i) => if trim_start_spec(
            content.subrange(i + "</think>"@.len(), content.len() as int),
        ).len() > 0 {
            content.subrange(0, i)
        } else {
            Seq::empty()
        },
        None => Seq::empty(),
    }
}

/// The reasoning in front of the JSON of a forced tool choice.
pub fn immediate_tool_choice_reasoning(content: &str) -> (r: String)
    ensures
        r@ == json_lead(content@),
{
    match rfind(content, "</think>") {
        Some(i) => {
            proof {
                reveal_strlit("</think>");
            }
            let n: usize = content.unicode_len();
            if !trim_start(slice_of(content, i + 8, n).as_str()).as_str().is_empty() {
                return slice_of(content, 0, i);
            }
        },
        None => {},
    }
    String::new()
}

/// Where a scan over text with brackets stands: how many are open, where the last group
/// of them began, whether it is inside a string of that group, and whether the next
/// character is escaped.
#[verifier::ext_equal]
pub struct Groups {
    pub open: int,
    pub start: Option<int>,
    pub in_string: bool,
    pub escaped: bool,
}

impl Groups {
    /// No brackets yet.
    pub open spec fn none() -> Groups {
        Groups { open: 0, start: None, in_string: false, escaped: false }
    }

    /// The scan after the character at position `at`.
    pub open spec fn step(self, c: char, at: int) -> Groups {
        if self.escaped {
            Groups { escaped: false, ..self }
        } else if self.in_string {
            Groups { escaped: c == '\\', in_string: c != '"', ..self }
        } else if c == '"' {
            Groups { in_string: self.open > 0, ..self }
        } else if c == '{' || c == '[' {
            Groups {
                open: self.open + 1,
                start: if self.open == 0 {
                    Some(at)
                } else {
                    self.start
                },
                ..self
            }
        } else if (c == '}' || c == ']') && self.open > 0 {
            Groups { open: self.open - 1, ..self }
        } else {
            self
        }
    }
}

/// The groups of brackets in `s`.
pub open spec fn groups_in(s: Seq<char>) -> Groups
    decreases s.len(),
{
    if s.len() == 0 {
        Groups::none()
    } else {
        groups_in(s.subrange(0, s.len() - 1)).step(s[s.len() - 1], s.len() - 1)
    }
}

/// Where the last outermost group of brackets in `s` begins, where text stands in front
/// of it.
pub open spec fn json_start(s: Seq<char>) -> Option<int> {
    match groups_in(s).start {
        Some(at) => if at > 0 {
            Some(at)
        } else {
            None
        },
        None => None,
    }
}

/// Where the last outermost group of brackets begins behind other text.
pub fn find_json_start(input: &str) -> (r: Option<usize>)
    ensures
        match r {
            Some(at) => json_start(input@) == Some(at as int) && 0 < at < input@.len(),
            None => json_start(input@) is None,
        },
{
    let mut open: usize = 0;
    let mut start: Option<usize> = None;
    let mut in_string: bool = false;
    let mut escaped: bool = false;
    let mut at: usize = 0;
    let n: usize = input.unicode_len();
    for c in it: input.chars()
        invariant
            it.seq() == input@,
            n == input@.len(),
            at == it.index(),
            open <= at,
            start matches Some(i) ==> i < at,
            groups_in(input@.subrange(0, at as int)) == (Groups {
                open: open as int,
                start: match start {
                    Some(i) => Some(i as int),
                    None => None,
                },
                in_string,
                escaped,
            }),
    {
        let ghost next = input@.subrange(0, at + 1);
        assert(next.subrange(0, next.len() - 1) =~= input@.subrange(0, at as int));
        assert(next[next.len() - 1] == c);
        if escaped {
            escaped = false;
        } else if in_string {
            escaped = c == '\\';
            in_string = c != '"';
        } else if c == '"' {
            in_string = open > 0;
        } else if c == '{' || c == '[' {
            if open == 0 {
                start = Some(at);
            }
            open += 1;
        } else if (c == '}' || c == ']') && open > 0 {
            open -= 1;
        }
        at += 1;
    }
    assert(input@.subrange(0, n as int) =~= input@);
    match start {
        Some(i) => if i > 0 {
            Some(i)
        } else {
            None
        },
        None => None,
    }
}

/// Where a scan over JSON text stands: what it wrote, whether it is inside a
/// string, and whether the next character is escaped.
#[verifier::ext_equal]
pub struct Scan {
    pub out: Seq<char>,
    pub in_string: bool,
    pub escaped: bool,
}

/// How a character below the space is written inside a string.
pub open spec fn control_escape(c: char) -> Seq<char> {
    if c == '\n' {
        seq!['\\', 'n']
    } else if c == '\r' {
        seq!['\\', 'r']
    } else if c == '\t' {
        seq!['\\', 't']
    } else {
        seq!['\\', 'u', '0', '0', hex_digit(c as int / 16), hex_digit(c as int % 16)]
    }
}

impl Scan {
    /// Nothing scanned.
    pub open spec fn start() -> Scan {
        Scan { out: Seq::empty(), in_string: false, escaped: false }
    }

    /// The scan after one more character.
    pub open spec fn step(self, c: char) -> Scan {
        if self.escaped {
            Scan { out: self.out.push(c), in_string: self.in_string, escaped: false }
        } else if self.in_string {
            if c == '\\' {
                Scan { out: self.out.push(c), in_string: true, escaped: true }
            } else if c == '"' {
                Scan { out: self.out.push(c), in_string: false, escaped: false }
            } else if ' ' > c {
                Scan { out: self.out + control_escape(c), in_string: true, escaped: false }
            } else {
                Scan { out: self.out.push(c), in_string: true, escaped: false }
            }
        } else {
            Scan { out: self.out.push(c), in_string: c == '"', escaped: false }
        }
    }

    /// The scan after all of `s`.
    pub open spec fn over(self, s: Seq<char>) -> Scan
        decreases s.len(),
    {
        if s.len() == 0 {
            self
        } else {
            self.over(s.subrange(0, s.len() - 1)).step(s[s.len() - 1])
        }
    }
}

/// `s` with the control characters inside its strings escaped.
pub open spec fn controls_escaped(s: Seq<char>) -> Seq<char> {
    Scan::start().over(s).out
}

/// The hexadecimal digit for `n`.
fn hex(n: u32) -> (r: char)
    requires
        n < 16,
    ensures
        r == hex_digit(n as int),
{
    match n {
        0 => '0',
        1 => '1',
        2 => '2',
        3 => '3',
        4 => '4',
        5 => '5',
        6 => '6',
        7 => '7',
        8 => '8',
        9 => '9',
        10 => 'a',
        11 => 'b',
        12 => 'c',
        13 => 'd',
        14 => 'e',
        _ => 'f',
    }
}

/// Writes a character below the space as it stands inside a string.
fn push_control(out: &mut String, c: char)
    requires
        ' ' > c,
    ensures
        final(out)@ == old(out)@ + control_escape(c),
{
    let ghost before = out@;
    out.push('\\');
    if c == '\n' {
        out.push('n');
    } else if c == '\r' {
        out.push('r');
    } else if c == '\t' {
        out.push('t');
    } else {
        let code: u32 = c as u32;
        out.push('u');
        out.push('0');
        out.push('0');
        out.push(hex(code / 16));
        out.push(hex(code % 16));
    }
    assert(out@ =~= before + control_escape(c));
}

/// Escapes the control characters inside the strings of a JSON text.
pub fn escape_json_string_control_chars(input: &str) -> (r: String)
    ensures
        r@ == controls_escaped(input@),
{
    let mut output: String = String::new();
    let mut in_string: bool = false;
    let mut escaped: bool = false;
    for ch in it: input.chars()
        invariant
            it.seq() == input@,
            (Scan { out: output@, in_string, escaped }) == Scan::start().over(
                input@.subrange(0, it.index() as int),
            ),
    {
        let ghost done = input@.subrange(0, it.index() as int);
        let ghost next = input@.subrange(0, it.index() + 1);
        assert(next.subrange(0, next.len() - 1) =~= done);
        assert(next[next.len() - 1] == ch);
        assert(Scan::start().over(next) == Scan::start().over(done).step(ch));
        if escaped {
            output.push(ch);
            escaped = false;
        } else if in_string {
            if ch == '\\' {
                output.push(ch);
                escaped = true;
            } else if ch == '"' {
                output.push(ch);
                in_string = false;
            } else if ' ' > ch {
                push_control(&mut output, ch);
            } else {
                output.push(ch);
            }
        } else {
            output.push(ch);
            if ch == '"' {
                in_string = true;
            }
        }
    }
    assert(input@.subrange(0, input@.len() as int) =~= input@);
    output
}

proof fn lemma_over_join(from: Scan, a: Seq<char>, b: Seq<char>)
    ensures
        from.over(a + b) == from.over(a).over(b),
    decreases b.len(),
{
    if b.len() == 0 {
        assert(a + b =~= a);
    } else {
        let n = b.len() - 1;
        let ab = a + b;
        assert(ab.subrange(0, ab.len() - 1) =~= a + b.subrange(0, n));
        assert(ab[ab.len() - 1] == b[n]);
        lemma_over_join(from, a, b.subrange(0, n));
    }
}

proof fn lemma_over_one(from: Scan, c: char)
    ensures
        from.over(seq![c]) == from.step(c),
{
    let one = seq![c];
    assert(one.subrange(0, 0) =~= Seq::<char>::empty());
    assert(from.over(one.subrange(0, 0)) == from);
}

/// Text in which every character is a space or above stays as it is.
pub proof fn law_plain_text_is_kept(s: Seq<char>)
    requires
        forall|i: int| 0 <= i < s.len() ==> !(' ' > #[trigger] s[i]),
    ensures
        controls_escaped(s) == s,
    decreases s.len(),
{
    if s.len() == 0 {
        assert(s =~= Seq::<char>::empty());
    } else {
        let front = s.subrange(0, s.len() - 1);
        assert forall|i: int| 0 <= i < front.len() implies !(' ' > #[trigger] front[i]) by {
            assert(front[i] == s[i]);
        }
        law_plain_text_is_kept(front);
        assert(front.push(s[s.len() - 1]) =~= s);
    }
}

proof fn lemma_hex_plain(n: int)
    requires
        0 <= n < 16,
    ensures
        !(' ' > hex_digit(n)),
        hex_digit(n) != '"',
        hex_digit(n) != '\\',
{
}

proof fn lemma_control_range(c: char)
    requires
        ' ' > c,
    ensures
        0 <= c as int <= 31,
{
}

/// Escaping what was escaped before changes nothing.
pub proof fn law_escaping_twice(s: Seq<char>)
    ensures
        controls_escaped(controls_escaped(s)) == controls_escaped(s),
{
    lemma_rescan(s);
}

proof fn lemma_rescan(s: Seq<char>)
    ensures
        Scan::start().over(controls_escaped(s)) == Scan::start().over(s),
    decreases s.len(),
{
    let start = Scan::start();
    if s.len() == 0 {
        assert(controls_escaped(s) =~= Seq::<char>::empty());
    } else {
        let n = s.len() - 1;
        let front = s.subrange(0, n);
        let c = s[n];
        lemma_rescan(front);
        let before = start.over(front);
        let written = controls_escaped(front);
        if !before.escaped && before.in_string && c != '\\' && c != '"' && ' ' > c {
            let e = control_escape(c);
            lemma_over_join(start, written, e);
            lemma_control_range(c);
            let low = c as int % 16;
            let high = c as int / 16;
            lemma_hex_plain(low);
            lemma_hex_plain(high);
            if c == '\n' || c == '\r' || c == '\t' {
                let x = e[1];
                assert(e =~= seq!['\\'] + seq![x]);
                lemma_over_join(before, seq!['\\'], seq![x]);
                lemma_over_one(before, '\\');
                lemma_over_one(before.step('\\'), x);
                assert(before.out.push('\\').push(x) =~= before.out + e);
            } else {
                assert(e =~= seq!['\\'] + seq!['u'] + seq!['0'] + seq!['0'] + seq![hex_digit(high)]
                    + seq![hex_digit(low)]);
                let s1 = before.step('\\');
                let s2 = s1.step('u');
                let s3 = s2.step('0');
                let s4 = s3.step('0');
                let s5 = s4.step(hex_digit(high));
                lemma_over_one(before, '\\');
                lemma_over_one(s1, 'u');
                lemma_over_one(s2, '0');
                lemma_over_one(s3, '0');
                lemma_over_one(s4, hex_digit(high));
                lemma_over_one(s5, hex_digit(low));
                lemma_over_join(before, seq!['\\'], seq!['u']);
                lemma_over_join(before, seq!['\\'] + seq!['u'], seq!['0']);
                lemma_over_join(before, seq!['\\'] + seq!['u'] + seq!['0'], seq!['0']);
                lemma_over_join(
                    before,
                    seq!['\\'] + seq!['u'] + seq!['0'] + seq!['0'],
                    seq![hex_digit(high)],
                );
                lemma_over_join(
                    before,
                    seq!['\\'] + seq!['u'] + seq!['0'] + seq!['0'] + seq![hex_digit(high)],
                    seq![hex_digit(low)],
                );
                assert(before.out.push('\\').push('u').push('0').push('0').push(
                    hex_digit(high),
                ).push(hex_digit(low)) =~= before.out + e);
            }
        } else {
            lemma_over_join(start, written, seq![c]);
            lemma_over_one(before, c);
            assert(written + seq![c] =~= written.push(c));
        }
    }
}

} // verus!
