use neuro_compiler::lowering::collections::{collection_kind, collection_method, CollectionKind, ParamRole, ResultRole};

#[test]
fn the_three_standard_collections_are_recognised() {
    assert_eq!(collection_kind("Vec"), Some(CollectionKind::Vector));
    assert_eq!(collection_kind("HashMap"), Some(CollectionKind::HashMap));
    assert_eq!(collection_kind("BTreeMap"), Some(CollectionKind::BTreeMap));
    assert_eq!(collection_kind("VecDeque"), None);
}

#[test]
fn every_collection_has_len_and_clear() {
    for kind in [CollectionKind::Vector, CollectionKind::HashMap, CollectionKind::BTreeMap] {
        let len = collection_method(kind, "len").unwrap();
        assert!(len.params.is_empty());
        assert_eq!(len.result, ResultRole::Count);
        assert_eq!(collection_method(kind, "clear").unwrap().result, ResultRole::Nothing);
    }
}

#[test]
fn a_vector_pushes_values_and_reads_by_position() {
    let push = collection_method(CollectionKind::Vector, "push").unwrap();
    assert_eq!(push.params, vec![ParamRole::Value]);
    assert_eq!(push.result, ResultRole::Nothing);
    let get = collection_method(CollectionKind::Vector, "get").unwrap();
    assert_eq!(get.params, vec![ParamRole::Position]);
    assert_eq!(get.result, ResultRole::MaybeValue);
    assert_eq!(collection_method(CollectionKind::Vector, "pop").unwrap().result, ResultRole::MaybeValue);
    assert_eq!(collection_method(CollectionKind::Vector, "insert"), None);
}

#[test]
fn a_map_is_read_and_written_by_key() {
    for kind in [CollectionKind::HashMap, CollectionKind::BTreeMap] {
        let insert = collection_method(kind, "insert").unwrap();
        assert_eq!(insert.params, vec![ParamRole::Key, ParamRole::Value]);
        assert_eq!(insert.result, ResultRole::Nothing);
        let get = collection_method(kind, "get").unwrap();
        assert_eq!(get.params, vec![ParamRole::Key]);
        assert_eq!(get.result, ResultRole::MaybeValue);
        assert_eq!(collection_method(kind, "contains_key").unwrap().result, ResultRole::Truth);
        assert_eq!(collection_method(kind, "remove").unwrap().result, ResultRole::Truth);
        assert_eq!(collection_method(kind, "keys").unwrap().result, ResultRole::KeyList);
        assert_eq!(collection_method(kind, "push"), None);
    }
}
