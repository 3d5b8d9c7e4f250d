use markdraft::draw::Draw;
use markdraft::editor::{DraftEditor, ElementKind};
use markdraft::library::Library;
use markdraft::power::Power;
use markdraft::rotate::Dir;

fn lib_with(categories: &[&str], tags: &[&str]) -> Library {
    Library {
        marks: Vec::new(),
        available: Vec::new(),
        categories: categories.iter().map(|c| c.to_string()).collect(),
        tags: tags.iter().map(|t| t.to_string()).collect(),
    }
}

#[test]
fn add_plain_mark_appends_unconstrained_draw() {
    let mut ed = DraftEditor::new();
    assert_eq!(ed.max_line(), 0);
    ed.add_plain_mark();
    assert_eq!(ed.draws.len(), 1);
    assert!(ed.draws[0].power.is_none());
    assert!(ed.draws[0].category.is_none());
    assert!(ed.draws[0].tags.is_empty());
    assert_eq!(ed.max_line(), 1);
}

#[test]
fn add_or_modify_power_sets_supreme() {
    let mut ed = DraftEditor::new();
    ed.add_plain_mark();
    ed.add_or_modify_power();
    assert_eq!(ed.draws[0].power, Some(Power::Supreme));
    assert_eq!(ed.max_line(), 2);
    ed.add_or_modify_power();
    assert_eq!(ed.draws[0].power, Some(Power::Supreme));
    assert_eq!(ed.max_line(), 2);
}

#[test]
fn add_or_modify_category_takes_first_library_category() {
    let lib = lib_with(&["Armor", "Weapon"], &[]);
    let mut ed = DraftEditor::new();
    ed.add_plain_mark();
    ed.add_or_modify_category(&lib);
    assert_eq!(ed.draws[0].category.as_deref(), Some("Armor"));
}

#[test]
fn add_tag_takes_first_unused_and_stops_when_exhausted() {
    let lib = lib_with(&[], &["a", "b"]);
    let mut ed = DraftEditor::new();
    ed.add_plain_mark();
    ed.add_tag(&lib);
    assert_eq!(ed.draws[0].tags, vec!["a".to_string()]);
    ed.add_tag(&lib);
    assert_eq!(ed.draws[0].tags, vec!["a".to_string(), "b".to_string()]);
    ed.add_tag(&lib);
    assert_eq!(ed.draws[0].tags, vec!["a".to_string(), "b".to_string()]);
}

#[test]
fn cursor_moves_clamp_and_never_wrap() {
    let mut ed = DraftEditor::new();
    ed.move_down();
    assert_eq!(ed.line, 0);
    ed.move_up();
    assert_eq!(ed.line, 0);
    ed.add_plain_mark();
    ed.add_plain_mark();
    ed.move_down();
    assert_eq!(ed.line, 1);
    ed.move_down();
    assert_eq!(ed.line, 1);
    ed.move_up();
    assert_eq!(ed.line, 0);
    ed.move_up();
    assert_eq!(ed.line, 0);
}

#[test]
fn scroll_is_independent_and_clamped() {
    let mut ed = DraftEditor::new();
    ed.scroll_down();
    assert_eq!(ed.scroll, 0);
    ed.add_plain_mark();
    ed.add_plain_mark();
    ed.add_plain_mark();
    ed.scroll_down();
    ed.scroll_down();
    assert_eq!(ed.scroll, 2);
    // clamped to the last line, exactly as the cursor is
    ed.scroll_down();
    assert_eq!(ed.scroll, 2);
    assert_eq!(ed.line, 0);
    ed.scroll_up();
    assert_eq!(ed.scroll, 1);
    ed.scroll_up();
    ed.scroll_up();
    assert_eq!(ed.scroll, 0);
}

#[test]
fn line_addressing_round_trip_and_monotone() {
    let lib = lib_with(&["C1"], &["a", "b"]);
    let mut ed = DraftEditor::new();
    // draw 0: header + power + category + two tags (5 lines)
    ed.add_plain_mark();
    ed.add_or_modify_power();
    ed.add_or_modify_category(&lib);
    ed.add_tag(&lib);
    ed.add_tag(&lib);
    // draw 1: bare header (1 line)
    ed.add_plain_mark();
    // draw 2: header + power (2 lines)
    ed.add_plain_mark();
    let total = ed.max_line();
    assert_eq!(total, 7);
    let mut last_draw = 0usize;
    let mut expected = Vec::new();
    for line in 0..total {
        ed.line = line;
        let (d, o) = ed.get_selection();
        assert!(d >= last_draw);
        last_draw = d;
        expected.push((d, o));
    }
    assert_eq!(
        expected,
        vec![(0, 0), (0, 1), (0, 2), (0, 3), (0, 4), (1, 0), (2, 0)]
    );
    ed.line = 3;
    assert_eq!(ed.get_selected_draw(), 0);
    assert_eq!(ed.get_element_kind(), ElementKind::Tag(0));
    ed.line = 4;
    assert_eq!(ed.get_element_kind(), ElementKind::Tag(1));
    ed.line = 1;
    assert_eq!(ed.get_element_kind(), ElementKind::Power);
    ed.line = 2;
    assert_eq!(ed.get_element_kind(), ElementKind::Category);
    ed.line = 0;
    assert_eq!(ed.get_element_kind(), ElementKind::Mark);
}

#[test]
fn power_rotation_cycles_and_reverses() {
    let lib = lib_with(&[], &[]);
    let mut ed = DraftEditor::new();
    ed.add_plain_mark();
    ed.add_or_modify_power();
    ed.move_down();
    assert_eq!(ed.get_element_kind(), ElementKind::Power);
    ed.rotate_current_element(&lib, Dir::Left);
    assert_eq!(ed.draws[0].power, Some(Power::Unique));
    ed.rotate_current_element(&lib, Dir::Left);
    assert_eq!(ed.draws[0].power, Some(Power::BadKarma));
    ed.rotate_current_element(&lib, Dir::Right);
    ed.rotate_current_element(&lib, Dir::Right);
    assert_eq!(ed.draws[0].power, Some(Power::Supreme));
}

#[test]
fn category_rotation_cycles_through_library_set() {
    let lib = lib_with(&["A", "B", "C"], &[]);
    let mut ed = DraftEditor::new();
    ed.add_plain_mark();
    ed.add_or_modify_category(&lib);
    ed.move_down();
    assert_eq!(ed.get_element_kind(), ElementKind::Category);
    ed.rotate_current_element(&lib, Dir::Left);
    assert_eq!(ed.draws[0].category.as_deref(), Some("B"));
    ed.rotate_current_element(&lib, Dir::Left);
    assert_eq!(ed.draws[0].category.as_deref(), Some("C"));
    ed.rotate_current_element(&lib, Dir::Left);
    assert_eq!(ed.draws[0].category.as_deref(), Some("A"));
    ed.rotate_current_element(&lib, Dir::Right);
    assert_eq!(ed.draws[0].category.as_deref(), Some("C"));
}

#[test]
fn tag_rotation_skips_tags_used_elsewhere_in_the_draw() {
    let lib = lib_with(&[], &["a", "b", "c"]);
    let mut ed = DraftEditor::new();
    ed.add_plain_mark();
    ed.add_tag(&lib); // "a"
    ed.add_tag(&lib); // "b"
    ed.line = 2; // the second tag
    assert_eq!(ed.get_element_kind(), ElementKind::Tag(1));
    // candidates exclude "a": the cycle is [b, c]
    ed.rotate_current_element(&lib, Dir::Left);
    assert_eq!(ed.draws[0].tags, vec!["a".to_string(), "c".to_string()]);
    ed.rotate_current_element(&lib, Dir::Left);
    assert_eq!(ed.draws[0].tags, vec!["a".to_string(), "b".to_string()]);
}

#[test]
fn repeated_tag_rotation_never_duplicates_tags() {
    let lib = lib_with(&[], &["a", "b", "c", "d"]);
    let mut ed = DraftEditor::new();
    ed.add_plain_mark();
    ed.add_tag(&lib);
    ed.add_tag(&lib);
    ed.add_tag(&lib);
    for line in [1usize, 2, 3] {
        ed.line = line;
        for dir in [Dir::Left, Dir::Right, Dir::Left, Dir::Left] {
            ed.rotate_current_element(&lib, dir);
            let tags = &ed.draws[0].tags;
            for x in 0..tags.len() {
                for y in (x + 1)..tags.len() {
                    assert_ne!(tags[x], tags[y]);
                }
            }
        }
    }
}

#[test]
fn rotation_forward_then_backward_restores_value() {
    let lib = lib_with(&["A", "B", "C", "D"], &[]);
    let mut ed = DraftEditor::new();
    ed.add_plain_mark();
    ed.add_or_modify_category(&lib);
    ed.move_down();
    for k in 1..=4 {
        for _ in 0..k {
            ed.rotate_current_element(&lib, Dir::Left);
        }
        for _ in 0..k {
            ed.rotate_current_element(&lib, Dir::Right);
        }
        assert_eq!(ed.draws[0].category.as_deref(), Some("A"));
    }
}

#[test]
fn header_rotation_is_a_no_op() {
    let lib = lib_with(&["A"], &[]);
    let mut ed = DraftEditor::new();
    ed.add_plain_mark();
    ed.add_or_modify_power();
    ed.line = 0;
    ed.rotate_current_element(&lib, Dir::Left);
    assert_eq!(ed.draws[0].power, Some(Power::Supreme));
    assert!(ed.draws[0].category.is_none());
}

#[test]
fn deleting_header_removes_whole_draw_and_shifts_lines() {
    let lib = lib_with(&["C1"], &["a"]);
    let mut ed = DraftEditor::new();
    ed.add_plain_mark();
    ed.add_or_modify_power();
    ed.add_tag(&lib); // draw 0: 3 lines
    ed.add_plain_mark(); // draw 1: 1 line
    assert_eq!(ed.max_line(), 4);
    ed.line = 0;
    ed.delete_current_element();
    assert_eq!(ed.draws.len(), 1);
    assert_eq!(ed.max_line(), 1);
    assert_eq!(ed.line, 0);
    assert!(ed.draws[0].power.is_none());
}

#[test]
fn deleting_field_clears_only_that_field() {
    let lib = lib_with(&["C1"], &["a", "b"]);
    let mut ed = DraftEditor::new();
    ed.add_plain_mark();
    ed.add_or_modify_power();
    ed.add_or_modify_category(&lib);
    ed.add_tag(&lib);
    ed.add_tag(&lib);
    assert_eq!(ed.max_line(), 5);
    ed.line = 1; // power
    ed.delete_current_element();
    assert!(ed.draws[0].power.is_none());
    assert_eq!(ed.draws[0].category.as_deref(), Some("C1"));
    assert_eq!(ed.draws[0].tags.len(), 2);
    assert_eq!(ed.line, 0);
    ed.line = 3; // second tag (header 0, category 1, tags 2 and 3)
    assert_eq!(ed.get_element_kind(), ElementKind::Tag(1));
    ed.delete_current_element();
    assert_eq!(ed.draws[0].tags, vec!["a".to_string()]);
    assert_eq!(ed.line, 2);
    ed.line = 1;
    assert_eq!(ed.get_element_kind(), ElementKind::Category);
    ed.delete_current_element();
    assert!(ed.draws[0].category.is_none());
    assert_eq!(ed.draws[0].tags, vec!["a".to_string()]);
}
