//! The completion resolver: from the text before a cursor to positioned
//! replacement suggestions.

use crate::keymap::Keymap;
use crate::text::{
    after_trigger, before_column, chars_of, column_index, has_trigger, is_last_trigger,
    last_trigger, lemma_after_trigger, lemma_last_trigger_exists, lemma_utf16_len_concat, line_at, line_bounds, utf16_len, utf16_units,
    TRIGGER,
};
use crate::trie::Trie;
use vstd::prelude::*;

verus! {

/// A place in a document: a line, and a column counted in UTF-16 code
/// units. Both count from 0.
#[derive(Debug, Clone, Copy, PartialEq, Eq, Structural)]
pub struct Position {
    pub line: u32,
    pub character: u32,
}

/// The text between two places of a document.
#[derive(Debug, Clone, Copy, PartialEq, Eq, Structural)]
pub struct Span {
    pub start: Position,
    pub end: Position,
}

/// One suggestion: what to show, what to insert, and what to overwrite.
#[derive(Debug, Clone, PartialEq, Eq)]
pub struct CompletionCandidate {
    pub display_label: String,
    pub replacement_text: String,
    pub replacement_span: Span,
}

/// Mathematical model of a [`CompletionCandidate`].
pub ghost struct CandidateView {
    pub display_label: Seq<char>,
    pub replacement_text: Seq<char>,
    pub replacement_span: Span,
}

impl View for CompletionCandidate {
    type V = CandidateView;

    open spec fn view(&self) -> CandidateView {
        CandidateView {
            display_label: self.display_label@,
            replacement_text: self.replacement_text@,
            replacement_span: self.replacement_span,
        }
    }
}

impl DeepView for CompletionCandidate {
    type V = CandidateView;

    open spec fn deep_view(&self) -> CandidateView {
        self@
    }
}

/// The answer to a completion request: the prefix that was queried, and
/// one candidate for each output that the keymap holds for it.
#[derive(Debug, Clone, PartialEq, Eq)]
pub struct Completion {
    pub prefix: String,
    pub candidates: Vec<CompletionCandidate>,
}

/// Mathematical model of a [`Completion`].
pub ghost struct CompletionView {
    pub prefix: Seq<char>,
    pub candidates: Seq<CandidateView>,
}

impl View for Completion {
    type V = CompletionView;

    open spec fn view(&self) -> CompletionView {
        CompletionView { prefix: self.prefix@, candidates: self.candidates.deep_view() }
    }
}

impl DeepView for Completion {
    type V = CompletionView;

    open spec fn deep_view(&self) -> CompletionView {
        self@
    }
}

/// The prefix of a completion request: what stands between the last
/// trigger character before the cursor and the cursor, on the cursor's
/// line. `None` where the document has no such line, where the cursor is
/// behind the end of the line or inside a character, where no trigger
/// character stands before the cursor, and where nothing stands between
/// the trigger character and the cursor.
pub open spec fn typed_prefix(document: Seq<char>, position: Position) -> Option<Seq<char>> {
    match line_at(document, position.line as nat) {
        Some(line) => match before_column(line, position.character as nat) {
            Some(typed) => match after_trigger(typed) {
                Some(prefix) => if prefix.len() > 0 {
                    Some(prefix)
                } else {
                    None
                },
                None => None,
            },
            None => None,
        },
        None => None,
    }
}

/// What a candidate overwrites: the trigger character and the prefix, up
/// to the cursor.
pub open spec fn replaced_span(prefix: Seq<char>, position: Position) -> Span {
    Span {
        start: Position {
            line: position.line,
            character: (position.character - utf16_len(prefix) - 1) as u32,
        },
        end: position,
    }
}

/// The candidate for one output: labelled with the prefix, a space and the
/// output; it puts the output in the place of trigger and prefix.
pub open spec fn candidate_for(
    prefix: Seq<char>,
    output: Seq<char>,
    position: Position,
) -> CandidateView {
    CandidateView {
        display_label: prefix + seq![' '] + output,
        replacement_text: output,
        replacement_span: replaced_span(prefix, position),
    }
}

/// One candidate for each output, in the order of the outputs.
pub open spec fn candidates_for(
    prefix: Seq<char>,
    outputs: Seq<Seq<char>>,
    position: Position,
) -> Seq<CandidateView> {
    Seq::new(outputs.len(), |i: int| candidate_for(prefix, outputs[i], position))
}

/// The answer to a completion request at `position` in `document`: no
/// suggestions where there is no prefix to complete, else one candidate
/// for each output that the keymap yields for the prefix.
pub open spec fn completion_of(keymap: Trie, document: Seq<char>, position: Position) -> Option<
    CompletionView,
> {
    match typed_prefix(document, position) {
        Some(prefix) => Some(
            CompletionView {
                prefix,
                candidates: candidates_for(prefix, keymap.lookup(prefix), position),
            },
        ),
        None => None,
    }
}

/// The number of UTF-16 code units that the characters from `from` up to
/// `to` take.
fn code_units(chars: &Vec<char>, from: usize, to: usize) -> (units: u32)
    requires
        from <= to <= chars.len(),
        utf16_len(chars@.subrange(from as int, to as int)) <= u32::MAX,
    ensures
        units == utf16_len(chars@.subrange(from as int, to as int)),
{
    let ghost whole = chars@.subrange(from as int, to as int);
    let mut units: u64 = 0;
    let mut i: usize = from;
    while i < to
        invariant
            from <= i <= to <= chars.len(),
            whole == chars@.subrange(from as int, to as int),
            utf16_len(whole) <= u32::MAX,
            units == utf16_len(chars@.subrange(from as int, i as int)),
            units <= utf16_len(whole),
        decreases to - i,
    {
        proof {
            let next = chars@.subrange(from as int, i + 1);
            assert(next.drop_last() == chars@.subrange(from as int, i as int));
            assert(whole == next + chars@.subrange(i + 1, to as int));
            lemma_utf16_len_concat(next, chars@.subrange(i + 1, to as int));
        }
        units = units + utf16_units(chars[i]);
        i += 1;
    }
    units as u32
}

/// The prefix of a completion request at `position` in `document`, and
/// the column at which the trigger character before it stands.
fn extract_prefix(document: &str, position: Position) -> (found: Option<(String, u32)>)
    ensures
        match found {
            Some((prefix, start)) => typed_prefix(document@, position) == Some(prefix@) && start
                + utf16_len(prefix@) + 1 == position.character,
            None => typed_prefix(document@, position) is None,
        },
{
    let chars = chars_of(document);
    let (start, end) = match line_bounds(&chars, position.line) {
        Some(bounds) => bounds,
        None => {
            return None;
        },
    };
    let ghost line = chars@.subrange(start as int, end as int);
    let len = match column_index(&chars, start, end, position.character) {
        Some(len) => len,
        None => {
            return None;
        },
    };
    let ghost typed = chars@.subrange(start as int, start + len);
    let at = match last_trigger(&chars, start, len) {
        Some(at) => at,
        None => {
            return None;
        },
    };
    proof {
        lemma_after_trigger(typed, at as int);
    }
    let ghost prefix = typed.skip(at + 1);
    if at + 1 == len {
        return None;
    }
    proof {
        assert(prefix == chars@.subrange(start + at + 1, start + len));
        assert(typed == typed.take(at as int) + seq![TRIGGER] + prefix);
        lemma_utf16_len_concat(typed.take(at as int) + seq![TRIGGER], prefix);
        lemma_utf16_len_concat(typed.take(at as int), seq![TRIGGER]);
        assert(utf16_len(seq![TRIGGER]) == 1) by {
            reveal_with_fuel(utf16_len, 2);
        }
        lemma_column_units(line, position.character as nat, len as int);
    }
    let units = code_units(&chars, start + at + 1, start + len);
    let text = document.substring_char(start + at + 1, start + len);
    Some((text.to_owned(), position.character - units - 1))
}

/// The characters before a column take as many code units as the column
/// says.
proof fn lemma_column_units(line: Seq<char>, character: nat, k: int)
    requires
        0 <= k <= line.len(),
        before_column(line, character) == Some(line.take(k)),
    ensures
        utf16_len(line.take(k)) == character,
{
}

/// One candidate for each of `outputs`, for the prefix `prefix` that ends
/// at `position` and whose trigger character stands at column `start`.
fn candidates(outputs: Vec<String>, prefix: &str, position: Position, start: u32) -> (found: Vec<
    CompletionCandidate,
>)
    requires
        start + utf16_len(prefix@) + 1 == position.character,
    ensures
        found.deep_view() == candidates_for(prefix@, outputs.deep_view(), position),
{
    let span = Span { start: Position { line: position.line, character: start }, end: position };
    let mut found: Vec<CompletionCandidate> = Vec::new();
    let mut i: usize = 0;
    while i < outputs.len()
        invariant
            i <= outputs.len(),
            span == replaced_span(prefix@, position),
            found.len() == i,
            forall|j: int|
                0 <= j < i ==> (#[trigger] found[j])@ == candidate_for(
                    prefix@,
                    outputs[j]@,
                    position,
                ),
        decreases outputs.len() - i,
    {
        let mut label = prefix.to_owned();
        label.append(" ");
        label.append(outputs[i].as_str());
        proof {
            reveal_strlit(" ");
            assert(" "@ == seq![' ']);
        }
        found.push(
            CompletionCandidate {
                display_label: label,
                replacement_text: outputs[i].clone(),
                replacement_span: span,
            },
        );
        i += 1;
    }
    found
}

/// Answers a completion request at `position` in `document`. `None` is
/// "no suggestions": the document has no such line, the cursor is behind
/// the end of the line or inside a character, no trigger character stands
/// before the cursor on its line, or nothing stands between the trigger
/// character and the cursor. Else the answer holds the prefix and one
/// candidate for each output that the keymap yields for it, in the
/// keymap's order; a prefix that the keymap does not know gives an answer
/// without candidates.
pub fn complete(keymap: &Keymap, document: &str, position: Position) -> (completion: Option<
    Completion,
>)
    ensures
        completion.deep_view() == completion_of(keymap@, document@, position),
{
    match extract_prefix(document, position) {
        Some((prefix, start)) => {
            let outputs = keymap.lookup(prefix.as_str());
            let found = candidates(outputs, prefix.as_str(), position, start);
            Some(Completion { prefix, candidates: found })
        },
        None => None,
    }
}

/// `String::from`, for a `char`: the string that holds `c` and nothing
/// else.
#[verifier::external_body]
fn string_of_char(c: char) -> (text: String)
    ensures
        text@ == seq![c],
{
    String::from(c)
}

/// The characters on which a client is to ask for completion: the
/// printable ASCII characters from `!` to `~`, in order, each as a string.
/// The trigger character is one of them, and so is any ASCII character of
/// a mnemonic.
pub fn trigger_characters() -> (characters: Vec<String>)
    ensures
        characters.len() == 94,
        forall|i: int| 0 <= i < 94 ==> (#[trigger] characters[i])@ == seq![(0x21 + i) as char],
{
    let mut characters: Vec<String> = Vec::new();
    let mut code: u8 = 0x21;
    while code <= 0x7e
        invariant
            0x21 <= code <= 0x7f,
            characters.len() == code - 0x21,
            forall|i: int|
                0 <= i < characters.len() ==> (#[trigger] characters[i])@ == seq![
                    (0x21 + i) as char,
                ],
        decreases 0x7f - code,
    {
        characters.push(string_of_char(code as char));
        code += 1;
    }
    characters
}

/// A request with no trigger character before the cursor on its line gets
/// no suggestions.
pub proof fn law_no_trigger_no_suggestions(keymap: Trie, document: Seq<char>, position: Position)
    requires
        match line_at(document, position.line as nat) {
            Some(line) => match before_column(line, position.character as nat) {
                Some(typed) => !has_trigger(typed),
                None => true,
            },
            None => true,
        },
    ensures
        completion_of(keymap, document, position) is None,
{
}

/// A request with the cursor right behind the trigger character gets no
/// suggestions.
pub proof fn law_bare_trigger_no_suggestions(
    keymap: Trie,
    document: Seq<char>,
    position: Position,
)
    requires
        match line_at(document, position.line as nat) {
            Some(line) => match before_column(line, position.character as nat) {
                Some(typed) => typed.len() > 0 && typed.last() == TRIGGER,
                None => true,
            },
            None => true,
        },
    ensures
        completion_of(keymap, document, position) is None,
{
    match line_at(document, position.line as nat) {
        Some(line) => match before_column(line, position.character as nat) {
            Some(typed) => {
                lemma_after_trigger(typed, typed.len() - 1);
            },
            None => {},
        },
        None => {},
    }
}

/// Every candidate of an answer overwrites the same span: it ends at the
/// cursor, and starts on the cursor's line as many columns before the
/// cursor as the prefix and the trigger character take. The candidate
/// inserts its output and shows it behind the prefix.
pub proof fn law_candidate_span(keymap: Trie, document: Seq<char>, position: Position, i: int)
    requires
        completion_of(keymap, document, position) is Some,
        0 <= i < completion_of(keymap, document, position)->0.candidates.len(),
    ensures
        ({
            let answer = completion_of(keymap, document, position)->0;
            let candidate = answer.candidates[i];
            &&& answer.prefix.len() > 0
            &&& answer.candidates.len() == keymap.lookup(answer.prefix).len()
            &&& candidate.replacement_text == keymap.lookup(answer.prefix)[i]
            &&& candidate.display_label == answer.prefix + seq![' '] + candidate.replacement_text
            &&& candidate.replacement_span.end == position
            &&& candidate.replacement_span.start.line == position.line
            &&& candidate.replacement_span.start.character == position.character - utf16_len(
                answer.prefix,
            ) - 1
        }),
{
    let line = line_at(document, position.line as nat)->0;
    let typed = before_column(line, position.character as nat)->0;
    let prefix = after_trigger(typed)->0;
    lemma_last_trigger_exists(typed);
    let at = choose|at: int| is_last_trigger(typed, at);
    assert(typed == typed.take(at + 1) + prefix);
    lemma_utf16_len_concat(typed.take(at + 1), prefix);
}

} // verus!
