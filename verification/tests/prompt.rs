use markdraft::prompt::{Prompt, PromptKey, PromptStep};

fn typed(p: &Prompt) -> String {
    p.text.iter().collect()
}

#[test]
fn typing_inserts_at_the_cursor() {
    let mut p = Prompt::new(16);
    for c in "abc".chars() {
        assert_eq!(p.input(PromptKey::Character(c)), PromptStep::Editing);
    }
    assert_eq!(typed(&p), "abc");
    assert_eq!(p.cursor, 3);
    p.input(PromptKey::Left);
    p.input(PromptKey::Left);
    p.input(PromptKey::Character('x'));
    assert_eq!(typed(&p), "axbc");
    assert_eq!(p.cursor, 2);
}

#[test]
fn backspace_removes_before_cursor_and_saturates() {
    let mut p = Prompt::new(16);
    p.input(PromptKey::Backspace);
    assert_eq!(typed(&p), "");
    assert_eq!(p.cursor, 0);
    for c in "abc".chars() {
        p.input(PromptKey::Character(c));
    }
    p.input(PromptKey::Left);
    p.input(PromptKey::Backspace);
    assert_eq!(typed(&p), "ac");
    assert_eq!(p.cursor, 1);
}

#[test]
fn cursor_is_clamped_to_text_and_width() {
    let mut p = Prompt::new(4);
    p.input(PromptKey::Right);
    assert_eq!(p.cursor, 0);
    for c in "abcdef".chars() {
        p.input(PromptKey::Character(c));
    }
    assert_eq!(typed(&p), "abcdef");
    assert_eq!(p.cursor, 6);
    p.input(PromptKey::Right);
    assert_eq!(p.cursor, 3);
    p.input(PromptKey::Left);
    p.input(PromptKey::Left);
    p.input(PromptKey::Left);
    p.input(PromptKey::Left);
    assert_eq!(p.cursor, 0);
    p.input(PromptKey::Left);
    assert_eq!(p.cursor, 0);
}

#[test]
fn escape_cancels_and_enter_submits_without_touching_text() {
    let mut p = Prompt::new(8);
    p.input(PromptKey::Character('z'));
    assert_eq!(p.input(PromptKey::Escape), PromptStep::Cancelled);
    assert_eq!(p.input(PromptKey::Accept), PromptStep::Submitted);
    assert_eq!(typed(&p), "z");
}

#[test]
fn non_ascii_characters_are_ignored() {
    let mut p = Prompt::new(8);
    assert_eq!(p.input(PromptKey::Character('é')), PromptStep::Editing);
    assert_eq!(typed(&p), "");
    assert_eq!(p.cursor, 0);
    assert_eq!(p.input(PromptKey::Other), PromptStep::Editing);
    assert_eq!(typed(&p), "");
}
