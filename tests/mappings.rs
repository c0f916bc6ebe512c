use game_core::{
    Game, assign_ids, assign_unique_ids, mappings_from_trimmed, unique_mappings_from_trimmed,
};

fn strings(v: &[&str]) -> Vec<String> {
    v.iter().map(|s| s.to_string()).collect()
}

#[test]
fn manifest_then_images() {
    let lines = strings(&["grass\n", "water\n"]);
    let stems = strings(&["forest"]);
    let m = Game::<String, u8>::create_mappings(&lines, &stems);
    assert_eq!(m.len(), 3);
    assert_eq!(m.get("grass"), Some(&0));
    assert_eq!(m.get("water"), Some(&1));
    assert_eq!(m.get("forest"), Some(&2));
}

#[test]
fn lines_are_trimmed_and_blank_lines_skipped() {
    let lines = strings(&["  grass \r\n", "\n", "   \n", "\twater\n", ""]);
    let stems = strings(&["forest"]);
    let m = Game::<String, u8>::create_mappings(&lines, &stems);
    assert_eq!(m.len(), 3);
    assert_eq!(m.get("grass"), Some(&0));
    assert_eq!(m.get("water"), Some(&1));
    assert_eq!(m.get("forest"), Some(&2));
    assert_eq!(m.get("  grass \r\n"), None);
}

#[test]
fn empty_inputs_give_empty_table() {
    let m = Game::<String, u8>::create_mappings(&Vec::new(), &Vec::new());
    assert_eq!(m.len(), 0);
}

#[test]
fn later_name_overwrites_earlier() {
    let lines = strings(&["a\n", "b\n"]);
    let stems = strings(&["c", "a"]);
    let m = Game::<String, u8>::create_mappings(&lines, &stems);
    assert_eq!(m.len(), 3);
    assert_eq!(m.get("a"), Some(&3));
    assert_eq!(m.get("b"), Some(&1));
    assert_eq!(m.get("c"), Some(&2));
}

#[test]
fn building_twice_gives_same_table() {
    let lines = strings(&["grass\n", "water\n", "sand\n"]);
    let stems = strings(&["forest", "castle"]);
    let m1 = Game::<String, u8>::create_mappings(&lines, &stems);
    let m2 = Game::<String, u8>::create_mappings(&lines, &stems);
    assert_eq!(m1.len(), m2.len());
    for name in ["grass", "water", "sand", "forest", "castle"] {
        assert_eq!(m1.get(name), m2.get(name));
    }
}

#[test]
fn ids_unique_and_contiguous() {
    let lines = strings(&["a\n", "b\n", "c\n"]);
    let stems = strings(&["d", "e"]);
    let m = Game::<String, u8>::create_mappings(&lines, &stems);
    let mut ids: Vec<i16> = ["a", "b", "c", "d", "e"]
        .iter()
        .map(|n| *m.get(n).unwrap())
        .collect();
    ids.sort();
    assert_eq!(ids, vec![0, 1, 2, 3, 4]);
}

#[test]
fn unique_mappings_refuse_repeated_name() {
    let lines = strings(&["grass\n", "water\n"]);
    assert!(Game::<String, u8>::create_unique_mappings(&lines, &strings(&["grass"])).is_none());
    let m = Game::<String, u8>::create_unique_mappings(&lines, &strings(&["forest"])).unwrap();
    assert_eq!(m.get("forest"), Some(&2));
}

#[test]
fn unique_mappings_from_trimmed_skip_blank() {
    let trimmed = strings(&["x", "", "y"]);
    let m = unique_mappings_from_trimmed(&trimmed, &strings(&["z"])).unwrap();
    assert_eq!(m.get("x"), Some(&0));
    assert_eq!(m.get("y"), Some(&1));
    assert_eq!(m.get("z"), Some(&2));
    assert!(unique_mappings_from_trimmed(&trimmed, &strings(&["y"])).is_none());
}

#[test]
fn trimmed_lines_are_not_trimmed_again() {
    let trimmed = strings(&[" x ", "y"]);
    let m = mappings_from_trimmed(&trimmed, &Vec::new());
    assert_eq!(m.get(" x "), Some(&0));
    assert_eq!(m.get("x"), None);
    assert_eq!(m.get("y"), Some(&1));
}

#[test]
fn assign_ids_numbers_in_order() {
    let m = assign_ids(&strings(&["p", "q", "p"]));
    assert_eq!(m.len(), 2);
    assert_eq!(m.get("p"), Some(&2));
    assert_eq!(m.get("q"), Some(&1));
    assert!(assign_unique_ids(&strings(&["p", "q", "p"])).is_none());
    let u = assign_unique_ids(&strings(&["p", "q"])).unwrap();
    assert_eq!(u.get("q"), Some(&1));
}

#[test]
fn largest_table() {
    let names: Vec<String> = (0..32768).map(|i| format!("n{}", i)).collect();
    let m = assign_ids(&names);
    assert_eq!(m.len(), 32768);
    assert_eq!(m.get("n0"), Some(&0));
    assert_eq!(m.get("n32767"), Some(&32767));
}
