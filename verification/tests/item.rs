use armonik_api::item::{derives_default, Kind};

#[test]
fn each_kind_names_its_macro() {
    assert_eq!(Kind::Message.derive(), "message");
    assert_eq!(Kind::Enumeration.derive(), "enumeration");
}

#[test]
fn default_is_found_only_as_a_bare_path() {
    assert!(derives_default(&vec!["Debug".to_string(), "Default".to_string()]));
    assert!(!derives_default(&vec!["std :: default :: Default".to_string()]));
    assert!(!derives_default(&Vec::new()));
}
