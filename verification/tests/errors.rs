use roead::byml::Byml;
use ukmm::error::{ContextData, UKError};

#[test]
fn context_of_invalid_byml() {
    let e = UKError::InvalidByml("Field".to_string(), Byml::I32(4));
    match e.context_data() {
        Some(ContextData::Byml(b)) => assert_eq!(b, Byml::I32(4)),
        other => panic!("unexpected {:?}", other),
    }
}

#[test]
fn context_of_missing_key() {
    let e = UKError::MissingAampKey("Key", Box::new(Some(ContextData::Byml(Byml::Bool(true)))));
    match e.context_data() {
        Some(ContextData::Byml(b)) => assert_eq!(b, Byml::Bool(true)),
        other => panic!("unexpected {:?}", other),
    }
    let e = UKError::MissingAampKey("Key", Box::new(None));
    assert!(e.context_data().is_none());
}

#[test]
fn no_context_for_plain_errors() {
    assert!(UKError::Other("x").context_data().is_none());
    assert!(UKError::OtherD("y".to_string()).context_data().is_none());
    assert!(UKError::MissingResource("z".to_string()).context_data().is_none());
}

#[test]
fn context_from_nodes() {
    let b = Byml::U32(3);
    match ContextData::from(&b) {
        ContextData::Byml(c) => assert_eq!(c, b),
        other => panic!("unexpected {:?}", other),
    }
}
