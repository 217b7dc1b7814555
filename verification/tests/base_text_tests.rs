use jj::base_text::{base_text_of, BaseTextError, MaterializedValue};

#[test]
fn the_text_of_a_file_is_its_base_text() {
    let text = base_text_of(MaterializedValue::File("fn main() {}\n".as_bytes().to_vec())).unwrap();
    assert_eq!(text, Some("fn main() {}\n".to_string()));
    let accented = base_text_of(MaterializedValue::File("héllo ✓".as_bytes().to_vec())).unwrap();
    assert_eq!(accented, Some("héllo ✓".to_string()));
}

#[test]
fn an_empty_file_is_not_a_missing_one() {
    assert_eq!(base_text_of(MaterializedValue::File(vec![])).unwrap(), Some(String::new()));
    assert_eq!(base_text_of(MaterializedValue::Other).unwrap(), None);
}

#[test]
fn a_file_that_is_no_text_has_no_base_text() {
    assert_eq!(base_text_of(MaterializedValue::File(vec![0xff, 0xfe, 0x00])).unwrap(), None);
    assert_eq!(base_text_of(MaterializedValue::File(vec![0xc3])).unwrap(), None);
}

#[test]
fn what_may_not_be_read_is_a_failure() {
    match base_text_of(MaterializedValue::AccessDenied("not allowed".to_string())) {
        Err(BaseTextError::AccessDenied { reason }) => assert_eq!(reason, "not allowed"),
        other => panic!("unexpected {other:?}"),
    }
}
