use mux_stream::binding::{BindingError, Bindings};

#[test]
fn bindings_accept_distinct_tags() {
    let b = Bindings::new(vec![10, 20, 30]).unwrap();
    assert_eq!(b.len(), 3);
    assert_eq!(b.tag_at(0), 10);
    assert_eq!(b.tag_at(2), 30);
}

#[test]
fn bindings_refuse_empty_list() {
    assert_eq!(Bindings::new(vec![]).err(), Some(BindingError::Empty));
}

#[test]
fn bindings_refuse_first_repeated_tag() {
    assert_eq!(
        Bindings::new(vec![5, 7, 5, 7]).err(),
        Some(BindingError::DuplicateTag { index: 2 })
    );
    assert_eq!(
        Bindings::new(vec![1, 2, 3, 3]).err(),
        Some(BindingError::DuplicateTag { index: 3 })
    );
}

#[test]
fn route_of_finds_binding_position() {
    let b = Bindings::new(vec![4, 9, 2]).unwrap();
    assert_eq!(b.route_of(4), Some(0));
    assert_eq!(b.route_of(9), Some(1));
    assert_eq!(b.route_of(2), Some(2));
    assert_eq!(b.route_of(3), None);
}
