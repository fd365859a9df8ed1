//! Lines, columns and the trigger character in the text of a document.

use std::str::Chars;
use vstd::prelude::*;
use vstd::std_specs::iter::IteratorSpec;

verus! {

/// The character that begins an abbreviation.
pub const TRIGGER: char = '\\';

/// The number of UTF-16 code units that `c` takes: the unit in which a
/// column of a position is counted.
pub open spec fn utf16_width(c: char) -> nat {
    if (c as u32) < 0x10000 {
        1
    } else {
        2
    }
}

/// The number of UTF-16 code units that `text` takes.
pub open spec fn utf16_len(text: Seq<char>) -> nat
    decreases text.len(),
{
    if text.len() == 0 {
        0
    } else {
        utf16_len(text.drop_last()) + utf16_width(text.last())
    }
}

/// The position of the first line feed at or behind `from`, or the length
/// of `text` where none follows.
pub open spec fn break_from(text: Seq<char>, from: int) -> int
    decreases text.len() - from,
{
    if from < 0 || from >= text.len() {
        text.len() as int
    } else if text[from] == '\n' {
        from
    } else {
        break_from(text, from + 1)
    }
}

/// Where the line that starts at `from` and is broken at `at` ends: before
/// the carriage return of a line ending of two characters, else at `at`.
pub open spec fn line_end(text: Seq<char>, from: int, at: int) -> int {
    if from < at < text.len() && text[at - 1] == '\r' {
        at - 1
    } else {
        at
    }
}

/// Where line `n` lies, counting the lines from the one that starts at
/// `from`: its first position and the position behind its last character.
/// A line ends at a line feed, or at a carriage return with a line feed
/// behind it, or at the end of the text; the line ending is no part of it.
/// Behind the last line ending no further line begins.
pub open spec fn line_span(text: Seq<char>, from: int, n: nat) -> Option<(int, int)>
    decreases n,
{
    if from < 0 || from >= text.len() {
        None
    } else if n == 0 {
        Some((from, line_end(text, from, break_from(text, from))))
    } else {
        line_span(text, break_from(text, from) + 1, (n - 1) as nat)
    }
}

/// Line `n` of `text`, without its line ending; `None` where the text has
/// no such line.
pub open spec fn line_at(text: Seq<char>, n: nat) -> Option<Seq<char>> {
    match line_span(text, 0, n) {
        Some((start, end)) => Some(text.subrange(start, end)),
        None => None,
    }
}

/// Whether column `character` of `line` lies between two characters, at
/// the start or at the end of the line: some number of leading characters
/// takes exactly `character` code units.
pub open spec fn column_in_line(line: Seq<char>, character: nat) -> bool {
    exists|k: int| 0 <= k <= line.len() && utf16_len(#[trigger] line.take(k)) == character
}

/// What stands on `line` before column `character`; `None` where the
/// column is behind the end of the line or inside a character.
pub open spec fn before_column(line: Seq<char>, character: nat) -> Option<Seq<char>> {
    if column_in_line(line, character) {
        Some(
            line.take(
                choose|k: int|
                    0 <= k <= line.len() && utf16_len(#[trigger] line.take(k)) == character,
            ),
        )
    } else {
        None
    }
}

/// Whether `text` holds the trigger character.
pub open spec fn has_trigger(text: Seq<char>) -> bool {
    exists|i: int| 0 <= i < text.len() && text[i] == TRIGGER
}

/// Whether `i` is the position of the last trigger character in `text`.
pub open spec fn is_last_trigger(text: Seq<char>, i: int) -> bool {
    &&& 0 <= i < text.len()
    &&& text[i] == TRIGGER
    &&& forall|j: int| i < j < text.len() ==> text[j] != TRIGGER
}

/// What follows the last trigger character in `text`; `None` where `text`
/// holds no trigger character.
pub open spec fn after_trigger(text: Seq<char>) -> Option<Seq<char>> {
    if has_trigger(text) {
        Some(text.skip((choose|i: int| is_last_trigger(text, i)) + 1))
    } else {
        None
    }
}

/// The code units of a text are those of its parts.
pub proof fn lemma_utf16_len_concat(first: Seq<char>, second: Seq<char>)
    ensures
        utf16_len(first + second) == utf16_len(first) + utf16_len(second),
    decreases second.len(),
{
    if second.len() > 0 {
        assert((first + second).drop_last() == first + second.drop_last());
        lemma_utf16_len_concat(first, second.drop_last());
    }
}

/// One more character of a line takes one or two more code units.
pub proof fn lemma_utf16_len_take(line: Seq<char>, k: int)
    requires
        0 <= k < line.len(),
    ensures
        utf16_len(line.take(k + 1)) == utf16_len(line.take(k)) + utf16_width(line[k]),
{
    assert(line.take(k + 1).drop_last() == line.take(k));
}

/// More characters of a line take more code units.
pub proof fn lemma_utf16_len_grows(line: Seq<char>, j: int, k: int)
    requires
        0 <= j < k <= line.len(),
    ensures
        utf16_len(line.take(j)) < utf16_len(line.take(k)),
    decreases k - j,
{
    lemma_utf16_len_take(line, k - 1);
    if j < k - 1 {
        lemma_utf16_len_grows(line, j, k - 1);
    }
}

/// The first `k` characters of `line` are what stands before the column
/// that they reach.
pub proof fn lemma_before_column(line: Seq<char>, k: int)
    requires
        0 <= k <= line.len(),
    ensures
        before_column(line, utf16_len(line.take(k))) == Some(line.take(k)),
{
    let character = utf16_len(line.take(k));
    let chosen = choose|c: int|
        0 <= c <= line.len() && utf16_len(#[trigger] line.take(c)) == character;
    if chosen < k {
        lemma_utf16_len_grows(line, chosen, k);
    } else if k < chosen {
        lemma_utf16_len_grows(line, k, chosen);
    }
}

/// What follows the trigger character at `i`, the last one in `text`.
pub proof fn lemma_after_trigger(text: Seq<char>, i: int)
    requires
        is_last_trigger(text, i),
    ensures
        after_trigger(text) == Some(text.skip(i + 1)),
{
}

/// A text that holds the trigger character holds a last one.
pub proof fn lemma_last_trigger_exists(text: Seq<char>)
    requires
        has_trigger(text),
    ensures
        exists|i: int| is_last_trigger(text, i),
    decreases text.len(),
{
    if text.last() == TRIGGER {
        assert(is_last_trigger(text, text.len() - 1));
    } else {
        let some = choose|i: int| 0 <= i < text.len() && text[i] == TRIGGER;
        let rest = text.drop_last();
        assert(rest[some] == TRIGGER);
        lemma_last_trigger_exists(rest);
        let last = choose|i: int| is_last_trigger(rest, i);
        assert forall|j: int| last < j < text.len() implies text[j] != TRIGGER by {
            if j < rest.len() {
                assert(rest[j] == text[j]);
            }
        }
        assert(is_last_trigger(text, last));
    }
}

/// Where the first line feed at or behind `from` stands.
pub proof fn lemma_break_from(text: Seq<char>, from: int, at: int)
    requires
        0 <= from <= at <= text.len(),
        forall|j: int| from <= j < at ==> text[j] != '\n',
        at < text.len() ==> text[at] == '\n',
    ensures
        break_from(text, from) == at,
    decreases at - from,
{
    if from < at {
        lemma_break_from(text, from + 1, at);
    }
}

/// The characters of `text`, one by one.
pub(crate) fn chars_of(text: &str) -> (chars: Vec<char>)
    ensures
        chars@ == text@,
{
    broadcast use {vstd::string::axiom_spec_iter, vstd::string::next_postcondition};
    let mut rest = text.chars();
    let mut chars: Vec<char> = Vec::new();
    loop
        invariant
            chars@ + <Chars<'_> as IteratorSpec>::remaining(&rest) == text@,
            <Chars<'_> as IteratorSpec>::decrease(&rest) is Some,
        decreases <Chars<'_> as IteratorSpec>::decrease(&rest)->0,
    {
        match rest.next() {
            Some(c) => {
                chars.push(c);
            },
            None => {
                return chars;
            },
        }
    }
}

/// The number of UTF-16 code units that `c` takes.
pub(crate) fn utf16_units(c: char) -> (units: u64)
    ensures
        units == utf16_width(c),
{
    if (c as u32) < 0x10000 {
        1
    } else {
        2
    }
}

/// Where line `line` of `chars` lies: its first position and the position
/// behind its last character.
pub(crate) fn line_bounds(chars: &Vec<char>, line: u32) -> (bounds: Option<(usize, usize)>)
    ensures
        match bounds {
            Some((start, end)) => start <= end <= chars.len() && line_span(chars@, 0, line as nat)
                == Some((start as int, end as int)),
            None => line_span(chars@, 0, line as nat) is None,
        },
{
    let mut from: usize = 0;
    let mut left: u32 = line;
    loop
        invariant
            from <= chars.len(),
            line_span(chars@, 0, line as nat) == line_span(chars@, from as int, left as nat),
        decreases chars.len() - from,
    {
        if from >= chars.len() {
            return None;
        }
        let mut at: usize = from;
        while at < chars.len() && chars[at] != '\n'
            invariant
                from <= at <= chars.len(),
                forall|j: int| from <= j < at ==> chars[j] != '\n',
            decreases chars.len() - at,
        {
            at += 1;
        }
        proof {
            lemma_break_from(chars@, from as int, at as int);
        }
        if left == 0 {
            let end = if from < at && at < chars.len() && chars[at - 1] == '\r' {
                at - 1
            } else {
                at
            };
            return Some((from, end));
        }
        if at >= chars.len() {
            assert(line_span(chars@, at + 1, (left - 1) as nat) is None);
            return None;
        }
        from = at + 1;
        left -= 1;
    }
}

/// How many characters stand before column `character` on the line that
/// starts at `start` and ends before `end`; `None` where the column is
/// behind the end of the line or inside a character.
pub(crate) fn column_index(chars: &Vec<char>, start: usize, end: usize, character: u32) -> (index: Option<
    usize,
>)
    requires
        start <= end <= chars.len(),
    ensures
        match index {
            Some(k) => k <= end - start && before_column(
                chars@.subrange(start as int, end as int),
                character as nat,
            ) == Some(chars@.subrange(start as int, start + k)),
            None => before_column(chars@.subrange(start as int, end as int), character as nat)
                is None,
        },
{
    let ghost line = chars@.subrange(start as int, end as int);
    let mut k: usize = 0;
    let mut units: u64 = 0;
    while k < end - start && units < character as u64
        invariant
            start <= end <= chars.len(),
            line == chars@.subrange(start as int, end as int),
            k <= end - start,
            units == utf16_len(line.take(k as int)),
            units <= character + 1,
            k > 0 ==> utf16_len(line.take(k - 1)) < character,
        decreases end - start - k,
    {
        proof {
            lemma_utf16_len_take(line, k as int);
        }
        units = units + utf16_units(chars[start + k]);
        k += 1;
    }
    if units == character as u64 {
        proof {
            lemma_before_column(line, k as int);
        }
        Some(k)
    } else {
        proof {
            assert forall|j: int| 0 <= j <= line.len() implies utf16_len(#[trigger] line.take(j))
                != character by {
                if j < k - 1 {
                    lemma_utf16_len_grows(line, j, k - 1);
                } else if j > k {
                    lemma_utf16_len_grows(line, k as int, j);
                }
            }
        }
        None
    }
}

/// The position of the last trigger character among the first `len`
/// characters behind `start`, counted from `start`.
pub(crate) fn last_trigger(chars: &Vec<char>, start: usize, len: usize) -> (index: Option<usize>)
    requires
        start + len <= chars.len(),
    ensures
        match index {
            Some(i) => i < len && is_last_trigger(
                chars@.subrange(start as int, start + len),
                i as int,
            ),
            None => !has_trigger(chars@.subrange(start as int, start + len)),
        },
{
    let ghost typed = chars@.subrange(start as int, start + len);
    let mut i: usize = len;
    while i > 0
        invariant
            i <= len,
            start + len <= chars.len(),
            typed == chars@.subrange(start as int, start + len),
            forall|j: int| i <= j < len ==> typed[j] != TRIGGER,
        decreases i,
    {
        i -= 1;
        if chars[start + i] == TRIGGER {
            return Some(i);
        }
    }
    None
}

} // verus!
