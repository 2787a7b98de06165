use statusbar::style::{parse_rules, property_value, select_style};

const CSS: &str = "* {\n  color: #ffffff;\n  font-size: 16px;\n}\n\ncpu {\n  margin-right: 25px;\n}\n";

#[test]
fn rules_are_read_in_order() {
    let rules = parse_rules(CSS);
    assert_eq!(rules.len(), 2);
    assert_eq!(rules[0].selector, "*");
    assert_eq!(rules[1].selector, "cpu");
    assert_eq!(rules[1].body, "\n  margin-right: 25px;\n");
}

#[test]
fn empty_and_unclosed_sheets() {
    assert!(parse_rules("").is_empty());
    assert!(parse_rules("no braces here").is_empty());
    let rules = parse_rules("a { x: 1");
    assert_eq!(rules.len(), 1);
    assert_eq!(rules[0].body, " x: 1");
}

#[test]
fn module_block_is_preferred_over_wildcard() {
    let rules = parse_rules(CSS);
    assert_eq!(select_style(&rules, &"cpu".to_string()), Some(1));
    assert_eq!(select_style(&rules, &"audio".to_string()), Some(0));
}

#[test]
fn no_block_and_no_wildcard_selects_nothing() {
    let rules = parse_rules("cpu { color: red; }");
    assert_eq!(select_style(&rules, &"audio".to_string()), None);
    assert_eq!(select_style(&rules, &"cpu".to_string()), Some(0));
}

#[test]
fn declarations_are_looked_up_by_property() {
    let rules = parse_rules(CSS);
    assert_eq!(property_value(&rules[0].body, &"font-size".to_string()), Some("16px".to_string()));
    assert_eq!(property_value(&rules[0].body, &"color".to_string()), Some("#ffffff".to_string()));
    assert_eq!(property_value(&rules[0].body, &"margin-left".to_string()), None);
}
