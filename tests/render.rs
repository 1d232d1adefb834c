use tiny_browser::render::{step, strip, TagState};

#[test]
fn strips_tags() {
    assert_eq!(strip("a<b>c</b>d"), "acd");
}

#[test]
fn unclosed_tag_hides_the_rest() {
    assert_eq!(strip("<unclosed"), "");
    assert_eq!(strip("ab<c"), "ab");
}

#[test]
fn plain_text_and_empty_are_kept() {
    assert_eq!(strip(""), "");
    assert_eq!(strip("plain text, é"), "plain text, é");
}

#[test]
fn stray_closing_bracket_is_dropped() {
    assert_eq!(strip("a>b"), "ab");
}

#[test]
fn step_moves_between_states() {
    assert_eq!(step(TagState::Outside, '<'), (TagState::InsideTag, None));
    assert_eq!(step(TagState::InsideTag, 'x'), (TagState::InsideTag, None));
    assert_eq!(step(TagState::InsideTag, '>'), (TagState::Outside, None));
    assert_eq!(step(TagState::Outside, 'x'), (TagState::Outside, Some('x')));
}
