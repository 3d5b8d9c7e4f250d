use markdraft::draw::Draw;
use markdraft::library::Library;
use markdraft::mark::{sentinel_mark, Mark};
use markdraft::power::Power;
use rand::rngs::StdRng;
use rand::SeedableRng;

fn mark(name: &str, power: Power, category: &str, tags: &[&str]) -> Mark {
    Mark {
        name: name.to_string(),
        power,
        category: category.to_string(),
        tags: tags.iter().map(|t| t.to_string()).collect(),
        description: String::new(),
    }
}

fn library(marks: Vec<Mark>) -> Library {
    let mut categories: Vec<String> = Vec::new();
    let mut tags: Vec<String> = Vec::new();
    for m in &marks {
        if !m.category.is_empty() && !categories.contains(&m.category) {
            categories.push(m.category.clone());
        }
        for t in &m.tags {
            if !tags.contains(t) {
                tags.push(t.clone());
            }
        }
    }
    let available = vec![true; marks.len()];
    Library { marks, available, categories, tags }
}

fn draw(power: Option<Power>, category: Option<&str>, tags: &[&str]) -> Draw {
    Draw {
        power,
        category: category.map(|c| c.to_string()),
        tags: tags.iter().map(|t| t.to_string()).collect(),
    }
}

#[test]
fn exact_power_constraint_selects_that_power() {
    let lib = library(vec![
        mark("A", Power::Great, "X", &[]),
        mark("B", Power::Poor, "X", &[]),
        mark("C", Power::Great, "Y", &[]),
    ]);
    let mut rng = StdRng::seed_from_u64(7);
    for _ in 0..50 {
        let r = lib.exec_draw(&vec![draw(Some(Power::Great), None, &[])], &mut rng);
        assert_eq!(r.len(), 1);
        assert_eq!(r[0].power, Power::Great);
        assert!(r[0].name == "A" || r[0].name == "C");
    }
}

#[test]
fn bad_karma_is_a_ceiling() {
    let lib = library(vec![
        mark("bad", Power::BadKarma, "", &[]),
        mark("poor", Power::Poor, "", &[]),
        mark("mod", Power::Moderate, "", &[]),
        mark("good", Power::Good, "", &[]),
        mark("great", Power::Great, "", &[]),
    ]);
    let mut rng = StdRng::seed_from_u64(11);
    for _ in 0..50 {
        let r = lib.exec_draw(&vec![draw(Some(Power::BadKarma), None, &[])], &mut rng);
        assert!(matches!(r[0].power, Power::BadKarma | Power::Poor | Power::Moderate));
    }
}

#[test]
fn resolved_names_are_distinct_when_pools_suffice() {
    let lib = library(vec![
        mark("A", Power::Great, "X", &[]),
        mark("B", Power::Great, "X", &[]),
        mark("C", Power::Great, "X", &[]),
    ]);
    let spec = draw(Some(Power::Great), None, &[]);
    let draws = vec![spec.duplicate(), spec.duplicate(), spec.duplicate()];
    let mut rng = StdRng::seed_from_u64(3);
    for _ in 0..50 {
        let r = lib.exec_draw(&draws, &mut rng);
        assert_eq!(r.len(), 3);
        assert!(r[0].name != r[1].name);
        assert!(r[0].name != r[2].name);
        assert!(r[1].name != r[2].name);
    }
}

#[test]
fn category_filter_is_exact_and_tags_are_conjunctive() {
    let lib = library(vec![
        mark("A", Power::Great, "X", &["t1", "t2"]),
        mark("B", Power::Great, "X", &["t1"]),
        mark("C", Power::Great, "Y", &["t1", "t2"]),
    ]);
    let mut rng = StdRng::seed_from_u64(5);
    let r = lib.exec_draw(&vec![draw(None, Some("X"), &["t1", "t2"])], &mut rng);
    assert_eq!(r[0].name, "A");
}

#[test]
fn empty_category_matches_only_empty_constraint() {
    let lib = library(vec![
        mark("blank", Power::Moderate, "", &[]),
        mark("catty", Power::Moderate, "X", &[]),
    ]);
    let mut rng = StdRng::seed_from_u64(9);
    let r = lib.exec_draw(&vec![draw(None, Some(""), &[])], &mut rng);
    assert_eq!(r[0].name, "blank");
}

#[test]
fn unavailable_marks_are_never_drawn() {
    let mut lib = library(vec![
        mark("A", Power::Great, "X", &[]),
        mark("B", Power::Great, "X", &[]),
    ]);
    lib.toggle_available(0);
    assert_eq!(lib.available, vec![false, true]);
    let mut rng = StdRng::seed_from_u64(13);
    for _ in 0..20 {
        let r = lib.exec_draw(&vec![draw(Some(Power::Great), None, &[])], &mut rng);
        assert_eq!(r[0].name, "B");
    }
}

#[test]
fn no_bias_toward_pool_order() {
    let lib = library(vec![
        mark("A", Power::Great, "X", &["t1"]),
        mark("B", Power::Great, "X", &[]),
    ]);
    let draws = vec![draw(Some(Power::Great), None, &[])];
    let mut rng = StdRng::seed_from_u64(42);
    let mut saw_a = false;
    let mut saw_b = false;
    for _ in 0..1000 {
        let r = lib.exec_draw(&draws, &mut rng);
        match r[0].name.as_str() {
            "A" => saw_a = true,
            "B" => saw_b = true,
            other => panic!("unexpected mark {other}"),
        }
    }
    assert!(saw_a && saw_b);
}

#[test]
fn impossible_category_resolves_to_sentinel() {
    let lib = library(vec![
        mark("A", Power::Great, "X", &[]),
        mark("B", Power::Poor, "Y", &[]),
    ]);
    let mut rng = StdRng::seed_from_u64(1);
    let r = lib.exec_draw(&vec![draw(None, Some("none-exists"), &[])], &mut rng);
    assert_eq!(r.len(), 1);
    assert_eq!(r[0].name, "STUPID");
    assert_eq!(r[0].power, Power::Poor);
    assert_eq!(r[0].category, "");
    assert!(r[0].tags.is_empty());
}

#[test]
fn exhausted_pool_falls_back_to_sentinel() {
    let lib = library(vec![mark("only", Power::Great, "X", &[])]);
    let spec = draw(Some(Power::Great), None, &[]);
    let draws = vec![spec.duplicate(), spec.duplicate()];
    let mut rng = StdRng::seed_from_u64(2);
    let r = lib.exec_draw(&draws, &mut rng);
    assert_eq!(r[0].name, "only");
    assert_eq!(r[1].name, "STUPID");
}

#[test]
fn sentinel_mark_shape() {
    let s = sentinel_mark();
    assert_eq!(s.name, "STUPID");
    assert_eq!(s.power, Power::Poor);
    assert_eq!(s.category, "");
    assert!(s.tags.is_empty());
    assert_eq!(s.description, "");
}
