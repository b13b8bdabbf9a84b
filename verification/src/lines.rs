//! Texts of lines that assign values to keys.

use vstd::prelude::*;

use crate::text::{find_char, to_chars};

verus! {

/// Whether a character is white space: it has the Unicode property `White_Space`.
pub open spec fn is_white(c: char) -> bool {
    let n = c as u32;
    ||| 0x9 <= n <= 0xD
    ||| n == 0x20 || n == 0x85 || n == 0xA0 || n == 0x1680
    ||| 0x2000 <= n <= 0x200A
    ||| n == 0x2028 || n == 0x2029 || n == 0x202F || n == 0x205F || n == 0x3000
}

/// A text without the white space at its start.
pub open spec fn trim_start(s: Seq<char>) -> Seq<char>
    decreases s.len(),
{
    if s.len() > 0 && is_white(s[0]) {
        trim_start(s.skip(1))
    } else {
        s
    }
}

/// A text without the white space at its end.
pub open spec fn trim_end(s: Seq<char>) -> Seq<char>
    decreases s.len(),
{
    if s.len() > 0 && is_white(s.last()) {
        trim_end(s.drop_last())
    } else {
        s
    }
}

/// A text without the white space at its start and its end.
pub open spec fn trim(s: Seq<char>) -> Seq<char> {
    trim_end(trim_start(s))
}

/// Whether a character is white space.
pub fn is_white_space(c: char) -> (white: bool)
    ensures
        white == is_white(c),
{
    let n: u32 = c as u32;
    (n >= 0x9 && n <= 0xD) || n == 0x20 || n == 0x85 || n == 0xA0 || n == 0x1680 || (n >= 0x2000
        && n <= 0x200A) || n == 0x2028 || n == 0x2029 || n == 0x202F || n == 0x205F || n == 0x3000
}

/// The part of a text between two places, without the white space at its start and its end.
pub fn trimmed(chars: &Vec<char>, from: usize, to: usize) -> (part: Vec<char>)
    requires
        from <= to <= chars@.len(),
    ensures
        part@ == trim(chars@.subrange(from as int, to as int)),
{
    let mut start: usize = from;
    while start < to && is_white_space(chars[start])
        invariant
            from <= start <= to <= chars@.len(),
            trim_start(chars@.subrange(from as int, to as int)) == trim_start(
                chars@.subrange(start as int, to as int),
            ),
        decreases to - start,
    {
        assert(chars@.subrange(start as int, to as int).skip(1) =~= chars@.subrange(
            start + 1,
            to as int,
        ));
        start = start + 1;
    }
    let ghost inner = chars@.subrange(start as int, to as int);
    assert(trim_start(chars@.subrange(from as int, to as int)) == inner);
    let mut end: usize = to;
    while end > start && is_white_space(chars[end - 1])
        invariant
            start <= end <= to <= chars@.len(),
            trim_end(inner) == trim_end(chars@.subrange(start as int, end as int)),
        decreases end - start,
    {
        assert(chars@.subrange(start as int, end as int).drop_last() =~= chars@.subrange(
            start as int,
            end - 1,
        ));
        end = end - 1;
    }
    let mut part: Vec<char> = Vec::new();
    let mut i: usize = start;
    while i < end
        invariant
            start <= i <= end <= chars@.len(),
            part@ == chars@.subrange(start as int, i as int),
        decreases end - i,
    {
        part.push(chars[i]);
        i = i + 1;
        assert(part@ =~= chars@.subrange(start as int, i as int));
    }
    part
}

/// The first place of a character.
pub open spec fn first_place(s: Seq<char>, c: char) -> Option<int>
    decreases s.len(),
{
    if s.len() == 0 {
        None
    } else if s[0] == c {
        Some(0)
    } else {
        match first_place(s.skip(1), c) {
            Some(at) => Some(at + 1),
            None => None,
        }
    }
}

/// The first place of a character is where it stands with none before it.
pub proof fn lemma_first_place(s: Seq<char>, c: char, at: int)
    requires
        0 <= at <= s.len(),
        forall|k: int| 0 <= k < at ==> s[k] != c,
        at < s.len() ==> s[at] == c,
    ensures
        first_place(s, c) == if at < s.len() {
            Some(at)
        } else {
            None
        },
    decreases s.len(),
{
    if s.len() > 0 && at > 0 {
        assert forall|k: int| 0 <= k < at - 1 implies s.skip(1)[k] != c by {
            assert(s.skip(1)[k] == s[k + 1]);
        }
        lemma_first_place(s.skip(1), c, at - 1);
    }
}

/// The lines of a text: what stands between its line ends.
pub open spec fn lines(s: Seq<char>) -> Seq<Seq<char>>
    decreases s.len(),
{
    match first_place(s, '\n') {
        Some(at) => if 0 <= at < s.len() {
            seq![s.take(at)] + lines(s.skip(at + 1))
        } else {
            seq![s]
        },
        None => seq![s],
    }
}

/// The key and the value of a line: what stands before and behind its first equals sign.
pub open spec fn assignment(line: Seq<char>) -> Option<(Seq<char>, Seq<char>)> {
    match first_place(line, '=') {
        Some(at) => Some((trim(line.take(at)), trim(line.skip(at + 1)))),
        None => None,
    }
}

/// The value that lines assign to a key; the last one counts.
pub open spec fn last_value(lines: Seq<Seq<char>>, key: Seq<char>) -> Option<Seq<char>>
    decreases lines.len(),
{
    if lines.len() == 0 {
        None
    } else {
        let earlier = last_value(lines.drop_last(), key);
        match assignment(lines.last()) {
            Some((assigned, value)) => if assigned == key {
                Some(value)
            } else {
                earlier
            },
            None => earlier,
        }
    }
}

/// A line of a text.
pub struct Line {
    /// Where the next line starts; nothing behind the last line.
    pub next: Option<usize>,
    /// The key and the value of the line.
    pub assignment: Option<(Vec<char>, Vec<char>)>,
}

/// Reads the line that starts at a place.
#[verifier::spinoff_prover]
#[verifier::rlimit(30)]
pub fn read_line(chars: &Vec<char>, from: usize) -> (line: Line)
    requires
        from <= chars@.len(),
    ensures
        ({
            let rest = chars@.skip(from as int);
            let text = match line.next {
                Some(next) => chars@.subrange(from as int, next - 1),
                None => rest,
            };
            &&& line.next matches Some(next) ==> from < next <= chars@.len()
            &&& lines(rest) == match line.next {
                Some(next) => seq![text] + lines(chars@.skip(next as int)),
                None => seq![text],
            }
            &&& assignment(text) == match line.assignment {
                Some((key, value)) => Some((key@, value@)),
                None => None,
            }
        }),
{
    let end: usize = find_char(chars, from, '\n');
    let ghost rest = chars@.skip(from as int);
    proof {
        lemma_first_place(rest, '\n', end - from);
    }
    let next: Option<usize> = if end < chars.len() {
        Some(end + 1)
    } else {
        None
    };
    let ghost text = rest.take(end - from);
    proof {
        if end < chars@.len() {
            assert(text =~= chars@.subrange(from as int, end as int));
            assert(rest.skip(end - from + 1) =~= chars@.skip(end + 1));
        } else {
            assert(text =~= rest);
        }
    }
    let mut at: usize = from;
    while at < end && chars[at] != '='
        invariant
            from <= at <= end <= chars@.len(),
            forall|k: int| from <= k < at ==> chars@[k] != '=',
        decreases end - at,
    {
        at = at + 1;
    }
    proof {
        assert forall|k: int| 0 <= k < at - from implies text[k] != '=' by {
            assert(text[k] == chars@[from + k]);
        }
        lemma_first_place(text, '=', at - from);
    }
    let assignment: Option<(Vec<char>, Vec<char>)> = if at < end {
        let key = trimmed(chars, from, at);
        let value = trimmed(chars, at + 1, end);
        assert(text.take(at - from) =~= chars@.subrange(from as int, at as int));
        assert(text.skip(at - from + 1) =~= chars@.subrange(at + 1, end as int));
        Some((key, value))
    } else {
        None
    };
    Line { next, assignment }
}

/// A text without white space is not changed by trimming.
pub proof fn lemma_trim_plain(s: Seq<char>)
    requires
        s.len() > 0 ==> !is_white(s[0]) && !is_white(s.last()),
    ensures
        trim(s) == s,
{
}

/// A line in front of a text is the first of its lines.
pub proof fn lemma_lines_of_front(line: Seq<char>, rest: Seq<char>)
    requires
        forall|k: int| 0 <= k < line.len() ==> line[k] != '\n',
    ensures
        lines(line.push('\n') + rest) == seq![line] + lines(rest),
{
    let s = line.push('\n') + rest;
    assert forall|k: int| 0 <= k < line.len() implies s[k] != '\n' by {
        assert(s[k] == line[k]);
    }
    assert(s[line.len() as int] == '\n');
    lemma_first_place(s, '\n', line.len() as int);
    assert(s.take(line.len() as int) =~= line);
    assert(s.skip(line.len() as int + 1) =~= rest);
}

/// A key and a value with an equals sign between them can be read back.
pub proof fn lemma_assignment_read_back(key: Seq<char>, value: Seq<char>)
    requires
        forall|k: int| 0 <= k < key.len() ==> key[k] != '=',
        trim(key) == key,
        trim(value) == value,
    ensures
        assignment(key.push('=') + value) == Some((key, value)),
{
    let s = key.push('=') + value;
    assert forall|k: int| 0 <= k < key.len() implies s[k] != '=' by {
        assert(s[k] == key[k]);
    }
    assert(s[key.len() as int] == '=');
    lemma_first_place(s, '=', key.len() as int);
    assert(s.take(key.len() as int) =~= key);
    assert(s.skip(key.len() as int + 1) =~= value);
}

/// Whether a text is "1" but for white space around it.
pub fn is_switched_on(content: &str) -> (on: bool)
    ensures
        on == (trim(content@) == seq!['1']),
{
    let chars = to_chars(content);
    let part = trimmed(&chars, 0, chars.len());
    assert(chars@.subrange(0, chars@.len() as int) =~= content@);
    let on = part.len() == 1 && part[0] == '1';
    assert(on ==> part@ =~= seq!['1']);
    on
}

/// Blanks, tabs and line ends are white space; letters, digits and punctuation are not.
pub proof fn law_white_space(c: char)
    ensures
        c == ' ' || c == '\t' || c == '\n' || c == '\r' ==> is_white(c),
        '!' <= c <= '~' ==> !is_white(c),
{
}

proof fn lemma_trim_start_front(white: Seq<char>, s: Seq<char>)
    requires
        forall|k: int| 0 <= k < white.len() ==> is_white(#[trigger] white[k]),
    ensures
        trim_start(white + s) == trim_start(s),
    decreases white.len(),
{
    if white.len() == 0 {
        assert(white + s =~= s);
    } else {
        let rest = white.skip(1);
        assert forall|k: int| 0 <= k < rest.len() implies is_white(#[trigger] rest[k]) by {
            assert(rest[k] == white[k + 1]);
        }
        lemma_trim_start_front(rest, s);
        assert(is_white(white[0]));
        assert((white + s).skip(1) =~= rest + s);
    }
}

proof fn lemma_trim_end_back(s: Seq<char>, white: Seq<char>)
    requires
        forall|k: int| 0 <= k < white.len() ==> is_white(#[trigger] white[k]),
    ensures
        trim_end(s + white) == trim_end(s),
    decreases white.len(),
{
    if white.len() == 0 {
        assert(s + white =~= s);
    } else {
        let rest = white.drop_last();
        assert forall|k: int| 0 <= k < rest.len() implies is_white(#[trigger] rest[k]) by {
            assert(rest[k] == white[k]);
        }
        lemma_trim_end_back(s, rest);
        assert(is_white(white[white.len() - 1]));
        assert((s + white).drop_last() =~= s + rest);
    }
}

/// Trimming takes away the white space around a text and nothing else.
pub proof fn law_trim_takes_white_space_away(
    before: Seq<char>,
    s: Seq<char>,
    after: Seq<char>,
)
    requires
        forall|k: int| 0 <= k < before.len() ==> is_white(#[trigger] before[k]),
        forall|k: int| 0 <= k < after.len() ==> is_white(#[trigger] after[k]),
        s.len() > 0,
        !is_white(s[0]),
        !is_white(s.last()),
    ensures
        trim(before + s + after) == s,
{
    assert(before + s + after =~= before + (s + after));
    lemma_trim_start_front(before, s + after);
    assert((s + after)[0] == s[0]);
    assert(trim_start(s + after) == s + after);
    lemma_trim_end_back(s, after);
}

/// A text is its lines with line ends between them, and no line holds a line end.
pub proof fn law_lines_make_up_the_text(line: Seq<char>, rest: Seq<char>)
    requires
        forall|k: int| 0 <= k < line.len() ==> line[k] != '\n',
    ensures
        lines(line) == seq![line],
        lines(line.push('\n') + rest) == seq![line] + lines(rest),
{
    lemma_first_place(line, '\n', line.len() as int);
    lemma_lines_of_front(line, rest);
}

/// A line assigns to its key what stands behind the first equals sign; white space around key and
/// value does not count, and further equals signs belong to the value. A line without an equals sign
/// assigns nothing.
pub proof fn law_lines_assign_values(key: Seq<char>, value: Seq<char>)
    requires
        forall|k: int| 0 <= k < key.len() ==> key[k] != '=',
    ensures
        assignment(key.push('=') + value) == Some((trim(key), trim(value))),
        assignment(key) is None,
{
    let s = key.push('=') + value;
    assert forall|k: int| 0 <= k < key.len() implies s[k] != '=' by {
        assert(s[k] == key[k]);
    }
    assert(s[key.len() as int] == '=');
    lemma_first_place(s, '=', key.len() as int);
    lemma_first_place(key, '=', key.len() as int);
    assert(s.take(key.len() as int) =~= key);
    assert(s.skip(key.len() as int + 1) =~= value);
}

/// The last line that assigns to a key counts, and a key that no line assigns to has no value.
pub proof fn law_last_assignment_counts(all: Seq<Seq<char>>, key: Seq<char>)
    ensures
        last_value(all, key) matches Some(value) ==> exists|i: int|
            0 <= i < all.len() && assignment(#[trigger] all[i]) == Some((key, value)) && forall|j: int|
                i < j < all.len() ==> !(assignment(#[trigger] all[j]) matches Some(found) && found.0
                    == key),
        last_value(all, key) is None ==> forall|j: int|
            0 <= j < all.len() ==> !(assignment(#[trigger] all[j]) matches Some(found) && found.0
                == key),
    decreases all.len(),
{
    if all.len() > 0 {
        let earlier = all.drop_last();
        let end = all.len() - 1;
        law_last_assignment_counts(earlier, key);
        if assignment(all[end]) matches Some(found) && found.0 == key {
            assert(assignment(all[end]) == Some((key, last_value(all, key)->0)));
        } else if last_value(earlier, key) is Some {
            let value = last_value(earlier, key)->0;
            let i = choose|i: int|
                0 <= i < earlier.len() && assignment(#[trigger] earlier[i]) == Some((key, value))
                    && forall|j: int|
                    i < j < earlier.len() ==> !(assignment(#[trigger] earlier[j]) matches Some(found)
                        && found.0 == key);
            assert(assignment(all[i]) == Some((key, value)));
            assert forall|j: int| i < j < all.len() implies !(assignment(
                #[trigger] all[j],
            ) matches Some(found) && found.0 == key) by {
                if j < end {
                    assert(earlier[j] == all[j]);
                }
            }
        } else {
            assert forall|j: int| 0 <= j < all.len() implies !(assignment(
                #[trigger] all[j],
            ) matches Some(found) && found.0 == key) by {
                if j < end {
                    assert(earlier[j] == all[j]);
                }
            }
        }
    }
}

} // verus!
