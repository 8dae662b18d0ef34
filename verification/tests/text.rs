use renderer::text::{byte_list_string, decimal_string, number_in_text};

#[test]
fn decimal_of_small_and_large_numbers() {
    assert_eq!(decimal_string(0), "0");
    assert_eq!(decimal_string(7), "7");
    assert_eq!(decimal_string(10), "10");
    assert_eq!(decimal_string(905), "905");
    assert_eq!(decimal_string(65535), "65535");
    assert_eq!(decimal_string(usize::MAX), format!("{}", usize::MAX));
}

#[test]
fn number_between_prefix_and_suffix() {
    assert_eq!(number_in_text("a ", 42, " b"), "a 42 b");
}

#[test]
fn byte_lists() {
    assert_eq!(byte_list_string(&[]), "[]");
    assert_eq!(byte_list_string(&[5]), "[5]");
    assert_eq!(byte_list_string(&[0, 10, 255]), "[0, 10, 255]");
}
