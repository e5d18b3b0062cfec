use ghreposync::text::{copy_text, decimal_string, field_change_of, same_text};

#[test]
fn decimal_renders_like_to_string() {
    for n in [0u64, 7, 10, 99, 100, 405, 1234567890, u64::MAX] {
        assert_eq!(decimal_string(n), n.to_string());
    }
}

#[test]
fn same_text_compares_content() {
    assert!(same_text(&None, &None));
    assert!(same_text(&Some("x".to_string()), &Some("x".to_string())));
    assert!(!same_text(&Some("x".to_string()), &None));
    assert!(!same_text(&Some("x".to_string()), &Some("X".to_string())));
    assert_eq!(copy_text(&Some("d".to_string())), Some("d".to_string()));
    assert_eq!(copy_text(&None), None);
}

#[test]
fn field_change_sets_clears_or_keeps() {
    let x = Some("x".to_string());
    assert_eq!(field_change_of(&x, &None), Some(Some("x".to_string())));
    assert_eq!(field_change_of(&None, &x), Some(None));
    assert_eq!(field_change_of(&None, &None), None);
}
