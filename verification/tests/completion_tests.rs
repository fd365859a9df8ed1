use aim_keymap::completion::{
    complete, trigger_characters, Completion, CompletionCandidate, Position, Span,
};
use aim_keymap::json::load_keymap;
use aim_keymap::keymap::Keymap;

fn keymap() -> Keymap {
    load_keymap(
        r#"{
            "G": {"l": {">>": ["λ"], "-": {">>": ["ƛ"]}}, "a": {">>": ["α"]}},
            "𝔸": {">>": ["A"]}
        }"#,
    )
    .unwrap()
}

fn at(line: u32, character: u32) -> Position {
    Position { line, character }
}

fn candidate(label: &str, text: &str, line: u32, start: u32, end: u32) -> CompletionCandidate {
    CompletionCandidate {
        display_label: label.to_string(),
        replacement_text: text.to_string(),
        replacement_span: Span { start: at(line, start), end: at(line, end) },
    }
}

#[test]
fn no_trigger_before_the_cursor_gives_no_suggestions() {
    assert_eq!(complete(&keymap(), "hello Gl", at(0, 8)), None);
    assert_eq!(complete(&keymap(), "", at(0, 0)), None);
    assert_eq!(complete(&keymap(), "Gl\\Gl", at(0, 2)), None);
    assert_eq!(complete(&keymap(), "\\Gl\nGl", at(1, 2)), None);
}

#[test]
fn bare_trigger_gives_no_suggestions() {
    assert_eq!(complete(&keymap(), "\\", at(0, 1)), None);
    assert_eq!(complete(&keymap(), "hello\\", at(0, 6)), None);
    assert_eq!(complete(&keymap(), "\\Gl\\", at(0, 4)), None);
}

#[test]
fn span_starts_at_the_trigger() {
    let answer = complete(&keymap(), "hello\\Gl-", at(0, 9)).unwrap();
    assert_eq!(answer.prefix, "Gl-");
    assert_eq!(answer.candidates, vec![candidate("Gl- ƛ", "ƛ", 0, 5, 9)]);
    assert_eq!(answer.candidates[0].replacement_span.start.character, 9 - 3 - 1);
}

#[test]
fn one_candidate_for_each_output() {
    let answer = complete(&keymap(), "\\G", at(0, 2)).unwrap();
    assert_eq!(
        answer,
        Completion {
            prefix: "G".to_string(),
            candidates: vec![
                candidate("G α", "α", 0, 0, 2),
                candidate("G λ", "λ", 0, 0, 2),
                candidate("G ƛ", "ƛ", 0, 0, 2),
            ],
        }
    );
}

#[test]
fn only_what_stands_before_the_cursor_counts() {
    let answer = complete(&keymap(), "x \\Gl- y", at(0, 5)).unwrap();
    assert_eq!(answer.prefix, "Gl");
    assert_eq!(
        answer.candidates,
        vec![candidate("Gl λ", "λ", 0, 2, 5), candidate("Gl ƛ", "ƛ", 0, 2, 5)]
    );
}

#[test]
fn the_last_trigger_counts() {
    let answer = complete(&keymap(), "\\Gl\\Ga", at(0, 6)).unwrap();
    assert_eq!(answer.prefix, "Ga");
    assert_eq!(answer.candidates, vec![candidate("Ga α", "α", 0, 3, 6)]);
}

#[test]
fn unknown_prefix_gives_an_answer_without_candidates() {
    let answer = complete(&keymap(), "\\zz", at(0, 3)).unwrap();
    assert_eq!(answer, Completion { prefix: "zz".to_string(), candidates: vec![] });
}

#[test]
fn the_cursor_line_is_used() {
    let document = "first\n  \\Ga\r\n\\Gl-\n";
    assert_eq!(complete(&keymap(), document, at(0, 5)), None);
    assert_eq!(
        complete(&keymap(), document, at(1, 5)).unwrap().candidates,
        vec![candidate("Ga α", "α", 1, 2, 5)]
    );
    assert_eq!(
        complete(&keymap(), document, at(2, 4)).unwrap().candidates,
        vec![candidate("Gl- ƛ", "ƛ", 2, 0, 4)]
    );
}

#[test]
fn position_outside_the_document_gives_no_suggestions() {
    let document = "first\n  \\Ga\r\n\\Gl-\n";
    assert_eq!(complete(&keymap(), document, at(3, 0)), None);
    assert_eq!(complete(&keymap(), document, at(7, 2)), None);
    assert_eq!(complete(&keymap(), document, at(1, 6)), None);
    assert_eq!(complete(&keymap(), document, at(2, 5)), None);
    assert_eq!(complete(&keymap(), document, at(u32::MAX, u32::MAX)), None);
    assert_eq!(complete(&keymap(), "\\Ga", at(0, 4)), None);
}

#[test]
fn line_ending_is_no_part_of_the_line() {
    assert_eq!(complete(&keymap(), "\\Ga\r\n", at(0, 4)), None);
    assert_eq!(complete(&keymap(), "\\Ga\r", at(0, 4)).unwrap().prefix, "Ga\r");
    assert_eq!(complete(&keymap(), "\n\\Ga", at(1, 3)).unwrap().prefix, "Ga");
    assert_eq!(complete(&keymap(), "\r\n\\Ga", at(1, 3)).unwrap().prefix, "Ga");
}

#[test]
fn columns_count_utf16_code_units() {
    let answer = complete(&keymap(), "𝔸\\Ga", at(0, 5)).unwrap();
    assert_eq!(answer.candidates, vec![candidate("Ga α", "α", 0, 2, 5)]);
    let answer = complete(&keymap(), "λ\\Ga", at(0, 4)).unwrap();
    assert_eq!(answer.candidates, vec![candidate("Ga α", "α", 0, 1, 4)]);
    let answer = complete(&keymap(), "x\\𝔸", at(0, 4)).unwrap();
    assert_eq!(answer.prefix, "𝔸");
    assert_eq!(answer.candidates, vec![candidate("𝔸 A", "A", 0, 1, 4)]);
}

#[test]
fn cursor_inside_a_character_gives_no_suggestions() {
    assert_eq!(complete(&keymap(), "x\\𝔸", at(0, 3)), None);
    assert_eq!(complete(&keymap(), "𝔸\\Ga", at(0, 1)), None);
}

#[test]
fn trigger_characters_are_the_printable_ascii_characters() {
    let characters = trigger_characters();
    assert_eq!(characters.len(), 94);
    assert_eq!(characters[0], "!");
    assert_eq!(characters[93], "~");
    assert_eq!(characters[('\\' as usize) - 0x21], "\\");
    for (i, c) in characters.iter().enumerate() {
        assert_eq!(c, &((0x21 + i as u8) as char).to_string());
    }
}
