use sml::dsl::{add_spec, is_static_type, text_is_less, DataType, EventKind, EventSpecs, TypeShape};

fn named_path(name: &str) -> TypeShape {
    TypeShape::Path { qualified: false, segments: vec![name.to_string()], nested: Vec::new() }
}

fn borrowed(lifetime: &str, referent: TypeShape) -> TypeShape {
    TypeShape::Reference {
        lifetime: Some(lifetime.to_string()),
        mutable: false,
        referent: Box::new(referent),
    }
}

fn payload(text: &str, shape: TypeShape) -> DataType {
    DataType { text: text.to_string(), shape }
}

#[test]
fn accepts_static_types_and_rejects_borrowed_types() {
    assert!(is_static_type(&named_path("Event")));
    assert!(is_static_type(&borrowed("'static", named_path("Event"))));
    assert!(!is_static_type(&borrowed("'event", named_path("Event"))));
}

#[test]
fn excludes_lifecycle_and_wildcard_triggers() {
    let mut specs = EventSpecs::new();
    let ident = "Event".to_string();
    let ty = payload("Event", named_path("Event"));
    add_spec(&mut specs, &ident, EventKind::Entry, false, Some(&ty));
    add_spec(&mut specs, &ident, EventKind::Unexpected, true, Some(&ty));
    assert!(specs.is_empty());
}

#[test]
fn payloads_are_listed_by_type_text_with_the_first_name() {
    let mut specs = EventSpecs::new();
    let start = payload("Start", named_path("Start"));
    let alarm = payload("Alarm", named_path("Alarm"));
    add_spec(&mut specs, &"Zeta".to_string(), EventKind::Normal, false, Some(&start));
    add_spec(&mut specs, &"Beta".to_string(), EventKind::Unexpected, false, Some(&alarm));
    add_spec(&mut specs, &"Alpha".to_string(), EventKind::Normal, false, Some(&start));
    add_spec(&mut specs, &"Omega".to_string(), EventKind::Normal, false, Some(&start));
    add_spec(&mut specs, &"Gamma".to_string(), EventKind::Completion, false, Some(&start));
    add_spec(&mut specs, &"Delta".to_string(), EventKind::Normal, false, None);
    assert_eq!(specs.len(), 2);
    assert_eq!(specs.names(), vec!["Beta".to_string(), "Alpha".to_string()]);
    let texts: Vec<&str> = specs.types().iter().map(|ty| ty.text.as_str()).collect();
    assert_eq!(texts, vec!["Alarm", "Start"]);
}

#[test]
fn borrowed_payloads_are_not_offered_and_order_of_offers_does_not_matter() {
    let borrowed_ty = payload("& 'a str", borrowed("'a", named_path("str")));
    let mut specs = EventSpecs::new();
    add_spec(&mut specs, &"Text".to_string(), EventKind::Normal, false, Some(&borrowed_ty));
    assert!(specs.is_empty());

    let one = payload("One", named_path("One"));
    let two = payload("Two", named_path("Two"));
    let mut forward = EventSpecs::new();
    add_spec(&mut forward, &"B".to_string(), EventKind::Normal, false, Some(&one));
    add_spec(&mut forward, &"A".to_string(), EventKind::Normal, false, Some(&two));
    let mut backward = EventSpecs::new();
    add_spec(&mut backward, &"A".to_string(), EventKind::Normal, false, Some(&two));
    add_spec(&mut backward, &"B".to_string(), EventKind::Normal, false, Some(&one));
    assert_eq!(forward.names(), backward.names());
    assert_eq!(forward.names(), vec!["B".to_string(), "A".to_string()]);
}

#[test]
fn text_order_compares_characters_then_length() {
    assert!(text_is_less("Alpha", "Beta"));
    assert!(!text_is_less("Beta", "Alpha"));
    assert!(text_is_less("Ab", "Abc"));
    assert!(!text_is_less("Abc", "Abc"));
    assert!(text_is_less("Z", "a"));
    assert!(text_is_less("", "a"));
}
