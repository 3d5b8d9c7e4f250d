use markdraft::draw::Draw;
use markdraft::mark::Mark;
use markdraft::power::{power_matches_exec, rotate_power, Power};
use markdraft::results::{wrap_next, wrap_prev, Results};
use markdraft::rotate::{rotate_string, Dir};

fn entry(name: &str) -> (Vec<Mark>, Vec<Draw>) {
    let m = Mark {
        name: name.to_string(),
        power: Power::Moderate,
        category: String::new(),
        tags: Vec::new(),
        description: String::new(),
    };
    (vec![m], vec![Draw { power: None, category: None, tags: Vec::new() }])
}

#[test]
fn appended_entries_select_themselves() {
    let mut res = Results::new();
    assert_eq!(res.selected, None);
    let (m, d) = entry("first");
    res.record_execution(m, d);
    assert_eq!(res.selected, Some(0));
    let (m, d) = entry("second");
    res.record_execution(m, d);
    assert_eq!(res.selected, Some(1));
    assert_eq!(res.results.len(), 2);
    assert_eq!(res.results[0].0[0].name, "first");
    assert_eq!(res.results[1].0[0].name, "second");
}

#[test]
fn next_selection_wraps_to_first() {
    let mut res = Results::new();
    let (m, d) = entry("a");
    res.record_execution(m, d);
    let (m, d) = entry("b");
    res.record_execution(m, d);
    assert_eq!(res.selected, Some(1));
    res.next_selection();
    assert_eq!(res.selected, Some(0));
    res.next_selection();
    assert_eq!(res.selected, Some(1));
}

#[test]
fn prev_selection_wraps_to_last() {
    let mut res = Results::new();
    let (m, d) = entry("a");
    res.record_execution(m, d);
    let (m, d) = entry("b");
    res.record_execution(m, d);
    res.next_selection(); // to 0
    res.prev_selection();
    assert_eq!(res.selected, Some(1));
    res.prev_selection();
    assert_eq!(res.selected, Some(0));
}

#[test]
fn selection_on_empty_history_is_a_no_op() {
    let mut res = Results::new();
    res.next_selection();
    assert_eq!(res.selected, None);
    res.prev_selection();
    assert_eq!(res.selected, None);
}

#[test]
fn wrapping_cursor_arithmetic() {
    assert_eq!(wrap_next(None, 3), 0);
    assert_eq!(wrap_next(Some(0), 3), 1);
    assert_eq!(wrap_next(Some(2), 3), 0);
    assert_eq!(wrap_prev(None, 3), 0);
    assert_eq!(wrap_prev(Some(0), 3), 2);
    assert_eq!(wrap_prev(Some(2), 3), 1);
    assert_eq!(wrap_next(None, 0), 0);
    assert_eq!(wrap_prev(None, 0), 0);
}

#[test]
fn power_rotation_order_is_cyclic() {
    let order = [
        Power::BadKarma,
        Power::Poor,
        Power::Moderate,
        Power::Good,
        Power::Great,
        Power::Supreme,
        Power::Unique,
    ];
    for (i, p) in order.iter().enumerate() {
        assert_eq!(rotate_power(*p, true), order[(i + 1) % order.len()]);
        assert_eq!(rotate_power(*p, false), order[(i + order.len() - 1) % order.len()]);
        assert_eq!(rotate_power(rotate_power(*p, true), false), *p);
    }
}

#[test]
fn power_matching_rule() {
    assert!(power_matches_exec(Power::Great, Power::Great));
    assert!(!power_matches_exec(Power::Great, Power::Good));
    assert!(power_matches_exec(Power::BadKarma, Power::BadKarma));
    assert!(power_matches_exec(Power::BadKarma, Power::Poor));
    assert!(power_matches_exec(Power::BadKarma, Power::Moderate));
    assert!(!power_matches_exec(Power::BadKarma, Power::Good));
    assert!(!power_matches_exec(Power::Poor, Power::BadKarma));
}

#[test]
fn string_rotation_steps_and_falls_back() {
    let opts: Vec<String> = ["x", "y", "z"].iter().map(|s| s.to_string()).collect();
    assert_eq!(rotate_string(&opts, &"y".to_string(), Dir::Left), "z");
    assert_eq!(rotate_string(&opts, &"y".to_string(), Dir::Right), "x");
    assert_eq!(rotate_string(&opts, &"z".to_string(), Dir::Left), "x");
    assert_eq!(rotate_string(&opts, &"x".to_string(), Dir::Right), "z");
    // a value outside the candidate list is left unchanged
    assert_eq!(rotate_string(&opts, &"q".to_string(), Dir::Left), "q");
}
