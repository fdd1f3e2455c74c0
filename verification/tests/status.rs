use model_lister::HttpStatus;

#[test]
fn a_status_code_lies_between_100_and_999() {
    assert!(HttpStatus::from_u16(0).is_none());
    assert!(HttpStatus::from_u16(99).is_none());
    assert!(HttpStatus::from_u16(100).is_some());
    assert!(HttpStatus::from_u16(999).is_some());
    assert!(HttpStatus::from_u16(1000).is_none());
    assert!(HttpStatus::from_u16(u16::MAX).is_none());
}

#[test]
fn a_status_gives_its_code_back() {
    assert_eq!(HttpStatus::from_u16(404).unwrap().as_u16(), 404);
    assert_eq!(HttpStatus::from_u16(100).unwrap().as_u16(), 100);
    assert_eq!(HttpStatus::from_u16(999).unwrap().as_u16(), 999);
}

#[test]
fn success_is_the_range_200_to_299() {
    assert!(!HttpStatus::from_u16(100).unwrap().is_success());
    assert!(!HttpStatus::from_u16(199).unwrap().is_success());
    assert!(HttpStatus::from_u16(200).unwrap().is_success());
    assert!(HttpStatus::from_u16(204).unwrap().is_success());
    assert!(HttpStatus::from_u16(299).unwrap().is_success());
    assert!(!HttpStatus::from_u16(300).unwrap().is_success());
    assert!(!HttpStatus::from_u16(404).unwrap().is_success());
    assert!(!HttpStatus::from_u16(500).unwrap().is_success());
    assert!(!HttpStatus::from_u16(999).unwrap().is_success());
}

#[test]
fn success_agrees_with_the_range_for_every_code() {
    let mut code: u16 = 100;
    while code <= 999 {
        let status = HttpStatus::from_u16(code).unwrap();
        assert_eq!(status.is_success(), (200..=299).contains(&code));
        code += 1;
    }
}

#[test]
fn a_status_is_shown_as_code_and_reason() {
    assert_eq!(HttpStatus::from_u16(200).unwrap().to_text(), "200 OK");
    assert_eq!(HttpStatus::from_u16(404).unwrap().to_text(), "404 Not Found");
    assert_eq!(
        HttpStatus::from_u16(500).unwrap().to_text(),
        "500 Internal Server Error"
    );
}

#[test]
fn a_status_without_a_reason_is_still_shown_with_its_code() {
    assert_eq!(
        HttpStatus::from_u16(599).unwrap().to_text(),
        "599 <unknown status code>"
    );
}

#[test]
fn every_status_text_begins_with_the_code_and_a_space() {
    let mut code: u16 = 100;
    while code <= 999 {
        let text = HttpStatus::from_u16(code).unwrap().to_text();
        assert!(text.starts_with(&format!("{} ", code)));
        code += 1;
    }
}

#[test]
fn statuses_compare_by_code() {
    assert_eq!(HttpStatus::from_u16(200), HttpStatus::from_u16(200));
    assert_ne!(HttpStatus::from_u16(200), HttpStatus::from_u16(201));
}
