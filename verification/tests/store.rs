use mewah_core::{AnyValue, ComponentType, ComponentVec, FieldType, SchemaError};

fn int_schema(initial: isize) -> ComponentType {
    ComponentType::new(8, 8, vec![FieldType::Int { initial }])
}

#[test]
fn empty_store_after_conversion() {
    let store = ComponentVec::from(int_schema(0)).unwrap();
    assert_eq!(store.capacity(), 0);
    assert_eq!(store.component_count(), 0);
    assert_eq!(store.bytes_capacity(), 0);
    assert_eq!(store.stride(), 8);
}

#[test]
fn indices_in_order() {
    let mut store = ComponentVec::from(int_schema(0)).unwrap();
    for expected in 0..5usize {
        let index = store.make_component();
        assert_eq!(index, expected);
    }
    assert_eq!(store.component_count(), 5);
}

#[test]
fn initial_values_all_kinds() {
    // int at 0..8, float at 8..12, text at 16..40, any at 40..72
    let schema = ComponentType::new(
        72,
        8,
        vec![
            FieldType::Int { initial: -7 },
            FieldType::Float { initial: 1.5f32.to_bits() },
            FieldType::String { initial: "hi".to_string() },
            FieldType::Any { initial: AnyValue::String("x".to_string()) },
        ],
    );
    let mut store = ComponentVec::from(schema).unwrap();
    let index = store.make_component();
    assert_eq!(store.get_field(index, 0), Some(AnyValue::Int(-7)));
    assert_eq!(store.get_field(index, 1), Some(AnyValue::Float(1.5f32.to_bits())));
    assert_eq!(store.get_field(index, 2), Some(AnyValue::String("hi".to_string())));
    assert_eq!(store.get_field(index, 3), Some(AnyValue::String("x".to_string())));
}

#[test]
fn any_field_payload_kinds() {
    let schema = ComponentType::new(
        64,
        8,
        vec![
            FieldType::Any { initial: AnyValue::Int(-123456789) },
            FieldType::Any { initial: AnyValue::Float(0.25f32.to_bits()) },
        ],
    );
    let mut store = ComponentVec::from(schema).unwrap();
    let index = store.make_component();
    assert_eq!(store.get_field(index, 0), Some(AnyValue::Int(-123456789)));
    assert_eq!(store.get_field(index, 1), Some(AnyValue::Float(0.25f32.to_bits())));
}

#[test]
fn growth_preserves_values() {
    let schema = ComponentType::new(
        32,
        8,
        vec![
            FieldType::Int { initial: 42 },
            FieldType::String { initial: "keep".to_string() },
        ],
    );
    let mut store = ComponentVec::from(schema).unwrap();
    for n in 0..9usize {
        store.make_component();
        for i in 0..=n {
            assert_eq!(store.get_field(i, 0), Some(AnyValue::Int(42)));
            assert_eq!(store.get_field(i, 1), Some(AnyValue::String("keep".to_string())));
        }
    }
}

#[test]
fn liveness_in_range_present_out_of_range_absent() {
    let mut store = ComponentVec::from(int_schema(1)).unwrap();
    for _ in 0..3 {
        store.make_component();
    }
    for i in 0..3usize {
        assert!(store.get_component(i).is_some());
    }
    assert!(store.get_component(3).is_none());
    assert!(store.get_component(100).is_none());
}

#[test]
fn capacity_monotone_and_whole_slots() {
    let mut store = ComponentVec::from(int_schema(0)).unwrap();
    let mut last_capacity = store.capacity();
    for _ in 0..10 {
        store.make_component();
        let capacity = store.capacity();
        assert!(capacity >= last_capacity);
        assert_eq!(store.bytes_capacity() % store.stride(), 0);
        last_capacity = capacity;
    }
}

#[test]
fn scenario_int_and_text() {
    // int at 0..8, text at 8..32
    let schema = ComponentType::new(
        32,
        8,
        vec![
            FieldType::Int { initial: 0 },
            FieldType::String { initial: "".to_string() },
        ],
    );
    let mut store = ComponentVec::from(schema).unwrap();
    for expected in 0..5usize {
        assert_eq!(store.make_component(), expected);
    }
    assert!(store.capacity() >= 5);
    let slot = store.get_component(2);
    assert!(slot.is_some());
    assert_eq!(store.get_field(2, 0), Some(AnyValue::Int(0)));
    assert_eq!(store.get_field(2, 1), Some(AnyValue::String("".to_string())));
}

#[test]
fn scenario_illegal_pair_fails_deterministically() {
    for _ in 0..2 {
        let schema = ComponentType::new(4, 8, vec![]);
        match ComponentVec::from(schema) {
            Err(SchemaError::InvalidSizeAlign) => {},
            _ => panic!("a size that is not a multiple of the alignment must be rejected"),
        }
    }
}

#[test]
fn illegal_pairs_rejected() {
    // zero size
    assert!(matches!(
        ComponentVec::from(ComponentType::new(0, 1, vec![])),
        Err(SchemaError::InvalidSizeAlign)
    ));
    // alignment that is not a power of two
    assert!(matches!(
        ComponentVec::from(ComponentType::new(24, 6, vec![])),
        Err(SchemaError::InvalidSizeAlign)
    ));
    // zero alignment
    assert!(matches!(
        ComponentVec::from(ComponentType::new(8, 0, vec![])),
        Err(SchemaError::InvalidSizeAlign)
    ));
}

#[test]
fn incompatible_fields_rejected() {
    // two 8-byte fields cannot pack into 8 bytes
    let too_small = ComponentType::new(
        8,
        8,
        vec![FieldType::Int { initial: 0 }, FieldType::Int { initial: 0 }],
    );
    assert!(matches!(
        ComponentVec::from(too_small),
        Err(SchemaError::IncompatibleFields)
    ));
    // an 8-byte-aligned field under a 4-byte component alignment
    let underaligned = ComponentType::new(8, 4, vec![FieldType::Int { initial: 0 }]);
    assert!(matches!(
        ComponentVec::from(underaligned),
        Err(SchemaError::IncompatibleFields)
    ));
}

#[test]
fn get_field_out_of_range_absent() {
    let mut store = ComponentVec::from(int_schema(5)).unwrap();
    store.make_component();
    assert_eq!(store.get_field(1, 0), None);
    assert_eq!(store.get_field(0, 1), None);
    assert_eq!(store.get_field(7, 7), None);
}

#[test]
fn slot_handle_covers_whole_slot() {
    let mut store = ComponentVec::from(int_schema(-1)).unwrap();
    let index = store.make_component();
    let slot = store.get_component(index).unwrap();
    let bytes = slot.as_ptr();
    assert_eq!(bytes.len(), store.stride());
    // the stored image of -1 is all ones in every byte
    assert!(bytes.iter().all(|b| *b == 0xff));
}

#[test]
fn field_layout_constants() {
    assert_eq!(FieldType::Int { initial: 0 }.size(), 8);
    assert_eq!(FieldType::Int { initial: 0 }.align(), 8);
    assert_eq!(FieldType::Float { initial: 0 }.size(), 4);
    assert_eq!(FieldType::Float { initial: 0 }.align(), 4);
    assert_eq!(FieldType::String { initial: "".to_string() }.size(), 24);
    assert_eq!(FieldType::String { initial: "".to_string() }.align(), 8);
    assert_eq!(FieldType::Any { initial: AnyValue::Int(0) }.size(), 32);
    assert_eq!(FieldType::Any { initial: AnyValue::Int(0) }.align(), 8);
}

#[test]
fn any_value_equality() {
    assert_eq!(AnyValue::Int(3), AnyValue::Int(3));
    assert_ne!(AnyValue::Int(3), AnyValue::Int(4));
    assert_ne!(AnyValue::Int(3), AnyValue::Float(3));
    assert_eq!(
        AnyValue::String("ab".to_string()),
        AnyValue::String("ab".to_string())
    );
    assert_ne!(
        AnyValue::String("ab".to_string()),
        AnyValue::String("ba".to_string())
    );
    let v = AnyValue::String("dup".to_string());
    assert_eq!(v.duplicate(), v);
}
