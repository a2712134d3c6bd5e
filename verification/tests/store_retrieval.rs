use rag_pipeline::store::{
    execute_query, make_schema, prepare_data, query_store, VectorStore,
};
use rag_pipeline::RagError;

fn strings(items: &[&str]) -> Vec<String> {
    items.iter().map(|s| s.to_string()).collect()
}

#[test]
fn build_rows_succeeds_when_dimensions_agree() {
    let schema = make_schema(3);
    let rows = prepare_data(
        strings(&["id0", "id1"]),
        strings(&["chunk zero", "chunk one"]),
        strings(&["doc", "doc"]),
        vec![vec![1, 2, 3], vec![4, 5, 6]],
        3,
        schema,
    )
    .unwrap();
    assert_eq!(rows.len(), 2);
    assert_eq!(rows[0].id, "id0");
    assert_eq!(rows[0].content, "chunk zero");
    assert_eq!(rows[0].title, "doc");
    assert_eq!(rows[0].embedding, vec![1, 2, 3]);
    assert_eq!(rows[1].embedding, vec![4, 5, 6]);
}

#[test]
fn build_rows_rejects_wrong_embedding_length() {
    let schema = make_schema(3);
    let r = prepare_data(
        strings(&["id0", "id1"]),
        strings(&["a", "b"]),
        strings(&["t", "t"]),
        vec![vec![1, 2, 3], vec![4, 5]],
        3,
        schema,
    );
    assert!(matches!(r, Err(RagError::DimensionMismatch)));
}

#[test]
fn build_rows_rejects_disagreeing_column_lengths() {
    let schema = make_schema(3);
    let r = prepare_data(
        strings(&["id0"]),
        strings(&["a", "b"]),
        strings(&["t", "t"]),
        vec![vec![1, 2, 3], vec![4, 5, 6]],
        3,
        schema,
    );
    assert!(matches!(r, Err(RagError::DimensionMismatch)));
}

/// The embeddings of the retrieval round trip, scaled to fixed point by 10.
fn round_trip_store() -> VectorStore {
    let schema = make_schema(4);
    let rows = prepare_data(
        strings(&["a", "b", "c"]),
        strings(&["A", "B", "C"]),
        strings(&["t", "t", "t"]),
        vec![vec![1, 2, 3, 4], vec![9, 8, 7, 6], vec![4, 4, 4, 4]],
        4,
        schema,
    )
    .unwrap();
    let mut store = VectorStore::new();
    store.create_table("docs_embeddings", rows, schema).unwrap();
    store
}

#[test]
fn retrieval_round_trip_returns_nearest_row() {
    let store = round_trip_store();
    let table = store.get_table("docs_embeddings").unwrap();
    let found = execute_query(table, &vec![6, 7, 8, 5], 1).unwrap();
    assert_eq!(found, vec!["B"]);
}

#[test]
fn retrieval_orders_by_nondecreasing_distance() {
    let store = round_trip_store();
    let table = store.get_table("docs_embeddings").unwrap();
    let found = execute_query(table, &vec![6, 7, 8, 5], 3).unwrap();
    // Squared distances to the query: A 76, B 12, C 30.
    assert_eq!(found, vec!["B", "C", "A"]);
}

#[test]
fn retrieval_truncates_to_limit() {
    let store = round_trip_store();
    let table = store.get_table("docs_embeddings").unwrap();
    let found = execute_query(table, &vec![6, 7, 8, 5], 2).unwrap();
    assert_eq!(found, vec!["B", "C"]);
}

#[test]
fn retrieval_returns_fewer_rows_than_limit_when_table_is_small() {
    let store = round_trip_store();
    let table = store.get_table("docs_embeddings").unwrap();
    let found = execute_query(table, &vec![6, 7, 8, 5], 10).unwrap();
    assert_eq!(found.len(), 3);
}

#[test]
fn equal_distances_break_ties_by_insertion_order() {
    let schema = make_schema(2);
    let rows = prepare_data(
        strings(&["a", "b", "c"]),
        strings(&["first", "second", "third"]),
        strings(&["t", "t", "t"]),
        vec![vec![1, 0], vec![0, 1], vec![3, 0]],
        2,
        schema,
    )
    .unwrap();
    let mut store = VectorStore::new();
    store.create_table("ties", rows, schema).unwrap();
    let table = store.get_table("ties").unwrap();
    let found = execute_query(table, &vec![0, 0], 3).unwrap();
    assert_eq!(found, vec!["first", "second", "third"]);
}

#[test]
fn query_with_wrong_dimensionality_is_rejected() {
    let store = round_trip_store();
    let table = store.get_table("docs_embeddings").unwrap();
    let r = execute_query(table, &vec![6, 7, 8], 1);
    assert!(matches!(r, Err(RagError::DimensionMismatch)));
}

#[test]
fn querying_a_missing_table_is_a_store_error() {
    let store = round_trip_store();
    let r = query_store(&store, "absent", &vec![6, 7, 8, 5], 1);
    assert!(matches!(r, Err(RagError::StoreError)));
}

#[test]
fn query_store_reaches_the_named_table() {
    let store = round_trip_store();
    let found = query_store(&store, "docs_embeddings", &vec![6, 7, 8, 5], 1).unwrap();
    assert_eq!(found, vec!["B"]);
}

#[test]
fn recreating_a_table_replaces_its_rows_wholesale() {
    let schema = make_schema(2);
    let first = prepare_data(
        strings(&["a"]),
        strings(&["old row"]),
        strings(&["t"]),
        vec![vec![0, 0]],
        2,
        schema,
    )
    .unwrap();
    let second = prepare_data(
        strings(&["b", "c"]),
        strings(&["new row", "other new row"]),
        strings(&["t", "t"]),
        vec![vec![0, 0], vec![5, 5]],
        2,
        schema,
    )
    .unwrap();
    let mut store = VectorStore::new();
    store.create_table("docs", first, schema).unwrap();
    store.create_table("docs", second, schema).unwrap();
    let found = query_store(&store, "docs", &vec![0, 0], 10).unwrap();
    assert_eq!(found, vec!["new row", "other new row"]);
    assert!(!found.contains(&"old row".to_string()));
}

#[test]
fn tables_under_other_names_survive_an_overwrite() {
    let schema = make_schema(2);
    let keep = prepare_data(
        strings(&["k"]),
        strings(&["kept"]),
        strings(&["t"]),
        vec![vec![1, 1]],
        2,
        schema,
    )
    .unwrap();
    let first = prepare_data(
        strings(&["a"]),
        strings(&["old"]),
        strings(&["t"]),
        vec![vec![0, 0]],
        2,
        schema,
    )
    .unwrap();
    let second = prepare_data(
        strings(&["b"]),
        strings(&["new"]),
        strings(&["t"]),
        vec![vec![2, 2]],
        2,
        schema,
    )
    .unwrap();
    let mut store = VectorStore::new();
    store.create_table("other", keep, schema).unwrap();
    store.create_table("docs", first, schema).unwrap();
    store.create_table("docs", second, schema).unwrap();
    let found = query_store(&store, "other", &vec![1, 1], 10).unwrap();
    assert_eq!(found, vec!["kept"]);
}
