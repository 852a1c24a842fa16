use core::time::Duration;
use mewah_core::{
    AnyValue, CacheDirective, ComponentType, ComponentVec, FieldType, LoadDirective, SchemaError,
    StaticAssetHeader, StaticAssetId,
};

#[test]
fn header_size_prefix_big_endian() {
    assert_eq!(mewah_core::header_size_from_prefix(&[0, 0, 0, 0, 0, 0, 1, 2]), 258);
    assert_eq!(mewah_core::header_size_from_prefix(&[0; 8]), 0);
    assert_eq!(
        mewah_core::header_size_from_prefix(&[1, 0, 0, 0, 0, 0, 0, 0]),
        1u64 << 56
    );
    assert_eq!(
        mewah_core::header_size_from_prefix(&[0xff; 8]),
        u64::MAX
    );
}

#[test]
fn stores_built_for_each_schema_in_order() {
    let schemas = vec![
        ComponentType::new(8, 8, vec![FieldType::Int { initial: 9 }]),
        ComponentType::new(4, 4, vec![FieldType::Float { initial: 0 }]),
    ];
    let mut stores = mewah_core::build_component_stores(schemas).unwrap();
    assert_eq!(stores.len(), 2);
    assert_eq!(stores[0].stride(), 8);
    assert_eq!(stores[1].stride(), 4);
    for store in stores.iter() {
        assert_eq!(store.component_count(), 0);
        assert_eq!(store.bytes_capacity(), 0);
    }
    let index = stores[0].make_component();
    assert_eq!(stores[0].get_field(index, 0), Some(AnyValue::Int(9)));
}

#[test]
fn store_building_stops_on_bad_schema() {
    let schemas = vec![
        ComponentType::new(8, 8, vec![FieldType::Int { initial: 0 }]),
        ComponentType::new(4, 8, vec![]),
    ];
    assert!(matches!(
        mewah_core::build_component_stores(schemas),
        Err(SchemaError::InvalidSizeAlign)
    ));
}

#[test]
fn asset_directives_carry_their_payloads() {
    let header = StaticAssetHeader {
        load_directive: LoadDirective::WhenNeeded,
        cache_directive: CacheDirective::Cache(Duration::from_secs(30)),
        index: 7,
    };
    assert_eq!(header.load_directive, LoadDirective::WhenNeeded);
    assert_eq!(
        header.cache_directive,
        CacheDirective::Cache(Duration::from_secs(30))
    );
    assert_ne!(header.cache_directive, CacheDirective::DontCache);
    assert_ne!(header.cache_directive, CacheDirective::CacheForever);
    assert_eq!(header.index, 7);
    let id = StaticAssetId(11);
    assert_eq!(id, StaticAssetId(11));
    assert!(StaticAssetId(3) < StaticAssetId(4));
}
