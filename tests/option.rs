use promptbox::option::{overwrite_from_option, overwrite_option_from_option, update_if_none};

#[test]
fn with_some() {
    let mut a = 1;
    let b = Some(2);
    overwrite_from_option(&mut a, &b);
    assert_eq!(a, 2);
}

#[test]
fn with_none() {
    let mut a = 1;
    let b = None;
    overwrite_from_option(&mut a, &b);
    assert_eq!(a, 1);
}

#[test]
fn option_some_with_some() {
    let mut a = Some(1);
    let b = Some(2);
    overwrite_option_from_option(&mut a, &b);
    assert_eq!(a, Some(2));
}

#[test]
fn some_with_some() {
    let mut a = Some(1);
    let b = Some(2);
    update_if_none(&mut a, &b);
    assert_eq!(a, Some(1));
}

#[test]
fn option_some_with_none() {
    let mut a = Some(1);
    let b = None;
    overwrite_option_from_option(&mut a, &b);
    assert_eq!(a, Some(1));
}

#[test]
fn some_with_none() {
    let mut a = Some(1);
    let b = None;
    update_if_none(&mut a, &b);
    assert_eq!(a, Some(1));
}

#[test]
fn option_none_with_some() {
    let mut a = None;
    let b = Some(2);
    overwrite_option_from_option(&mut a, &b);
    assert_eq!(a, Some(2));
}

#[test]
fn none_with_some() {
    let mut a = None;
    let b = Some(2);
    update_if_none(&mut a, &b);
    assert_eq!(a, Some(2));
}

#[test]
fn option_none_with_none() {
    let mut a: Option<usize> = None;
    let b = None;
    overwrite_option_from_option(&mut a, &b);
    assert_eq!(a, None);
}

#[test]
fn none_with_none() {
    let mut a: Option<usize> = None;
    let b = None;
    update_if_none(&mut a, &b);
    assert_eq!(a, None);
}

#[test]
fn overwrite_strings_clones_the_value() {
    let mut a = "old".to_string();
    overwrite_from_option(&mut a, &Some("new".to_string()));
    assert_eq!(a, "new");
}
