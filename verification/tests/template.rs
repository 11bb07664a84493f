use soft_supervisor::utils::string::{
    get_value_from_exp, replace_all_str, replace_all_str_from_map, _replace_range,
};
use soft_supervisor::vars::Vars;

fn map_of(pairs: &[(&str, &str)]) -> Vars {
    let mut vars = Vars::new();
    for (k, v) in pairs {
        vars.insert(k.to_string(), v.to_string());
    }
    vars
}

#[test]
fn get_value_from_exp_test() {
    let map = map_of(&[
        ("key1", "value1"),
        ("key2", "value2"),
        ("key3", "value3"),
        ("key4", "value4"),
        ("key5", "value5"),
        ("key6", "value6"),
    ]);
    assert_eq!(get_value_from_exp("{{key1}}", &map), Some("value1".to_string()));
    assert_eq!(get_value_from_exp("{{no_key1}}", &map), None);
    assert_eq!(get_value_from_exp("{{key10 ? key1}}", &map), Some("value1".to_string()));
}

#[test]
fn expansion_is_identity_without_placeholders() {
    let map = map_of(&[("key", "value")]);
    let plain = "no placeholders here, not even {unbalanced";
    let once = get_value_from_exp(plain, &map).unwrap();
    assert_eq!(once, plain);
    let twice = get_value_from_exp(&once, &map).unwrap();
    assert_eq!(twice, once);
}

#[test]
fn expansion_replaces_every_occurrence() {
    let map = map_of(&[("k", "V")]);
    assert_eq!(
        get_value_from_exp("{{k}} and {{k}} again", &map),
        Some("V and V again".to_string())
    );
}

#[test]
fn empty_candidate_yields_empty_string() {
    let map = map_of(&[("key1", "value1")]);
    assert_eq!(get_value_from_exp("a{{missing ? }}b", &map), Some("ab".to_string()));
}

#[test]
fn fallback_takes_first_resolvable_candidate() {
    let map = map_of(&[("second", "2"), ("third", "3")]);
    assert_eq!(get_value_from_exp("{{first ? second ? third}}", &map), Some("2".to_string()));
}

#[test]
fn one_unresolved_placeholder_fails_the_whole_expression() {
    let map = map_of(&[("known", "yes")]);
    assert_eq!(get_value_from_exp("{{known}}-{{unknown}}", &map), None);
}

#[test]
fn placeholder_does_not_cross_a_line_break() {
    let map = map_of(&[("a", "x")]);
    let text = "{{a\n}}";
    assert_eq!(get_value_from_exp(text, &map), Some(text.to_string()));
}

#[test]
fn replace_range_replaces_all_occurrences() {
    let mut s = "aabaa".to_string();
    _replace_range(&mut s, "aa", "c");
    assert_eq!(s, "cbc");
}

#[test]
fn replace_range_rescans_from_the_front() {
    // the substitution restarts after each replacement, so an
    // occurrence formed across a boundary is replaced too
    let mut s = "aab".to_string();
    _replace_range(&mut s, "ab", "b");
    assert_eq!(s, "b");
}

#[test]
fn replace_from_map_rescans_from_the_front() {
    let mut s = "aab".to_string();
    let map = map_of(&[("ab", "b")]);
    replace_all_str_from_map(&mut s, &map);
    assert_eq!(s, "b");
}

#[test]
fn replace_range_leaves_text_without_pattern() {
    let mut s = "hello".to_string();
    _replace_range(&mut s, "xyz", "q");
    assert_eq!(s, "hello");
}

#[test]
fn replace_all_str_applies_pairs_in_order() {
    let mut s = "{{a}}-{{b}}".to_string();
    let pairs = vec![
        ("{{a}}".to_string(), "1".to_string()),
        ("{{b}}".to_string(), "2".to_string()),
    ];
    replace_all_str(&mut s, &pairs);
    assert_eq!(s, "1-2");
}

#[test]
fn replace_all_str_from_map_uses_insertion_order() {
    let mut s = "{{x}}{{y}}".to_string();
    let map = map_of(&[("{{x}}", "A"), ("{{y}}", "B")]);
    replace_all_str_from_map(&mut s, &map);
    assert_eq!(s, "AB");
}
