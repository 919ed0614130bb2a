use bartib::ordering::str_lt;

#[test]
fn orders_by_code_point() {
    assert!(str_lt(&"alpha".to_string(), &"beta".to_string()));
    assert!(!str_lt(&"beta".to_string(), &"alpha".to_string()));
    assert!(str_lt(&"P1".to_string(), &"p1".to_string()));
}

#[test]
fn prefix_comes_first() {
    assert!(str_lt(&"dev".to_string(), &"devops".to_string()));
    assert!(!str_lt(&"devops".to_string(), &"dev".to_string()));
    assert!(str_lt(&"".to_string(), &"a".to_string()));
}

#[test]
fn equal_strings_are_not_ordered() {
    assert!(!str_lt(&"meet".to_string(), &"meet".to_string()));
    assert!(!str_lt(&"".to_string(), &"".to_string()));
}
