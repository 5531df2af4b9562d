use blockoli::blocks::{BlockType, CodeBlock, EmbeddedBlock};
use blockoli::error::IndexError;
use blockoli::sqlite::SQLite;
use blockoli::vector_store::VectorStore;

fn block(key: &str, name: Option<&str>, content: &str) -> CodeBlock {
    CodeBlock {
        node_key: key.to_string(),
        block_type: if name.is_some() { BlockType::Function } else { BlockType::NonFunction },
        content: content.to_string(),
        function_name: name.map(|n| n.to_string()),
        class_name: Some("Outer".to_string()),
        outgoing_calls: vec!["a::b".to_string(), "c".to_string()],
    }
}

fn row(b: CodeBlock, v: Vec<i32>) -> EmbeddedBlock {
    EmbeddedBlock { block: b, vectors: v }
}

#[test]
fn valid_names_are_accepted() {
    assert!(blockoli::names::validate_project_name("demo"));
    assert!(blockoli::names::validate_project_name("Project_42"));
    assert!(blockoli::names::validate_project_name("_"));
}

#[test]
fn invalid_names_are_rejected_everywhere() {
    let mut store = VectorStore::init_sqlite(2);
    store.create_project("ok").unwrap();
    for bad in ["", "bad-name", "a b", "x;DROP TABLE ok", "caf\u{e9}", "\u{661}"] {
        assert!(!blockoli::names::validate_project_name(bad));
        assert_eq!(store.create_project(bad), Err(IndexError::InvalidProjectName));
        assert_eq!(store.delete_project(bad), Err(IndexError::InvalidProjectName));
        assert_eq!(store.does_project_exist(bad), Err(IndexError::InvalidProjectName));
        assert_eq!(store.get_project_info(bad), Err(IndexError::InvalidProjectName));
        assert_eq!(
            store.insert_blocks(bad, vec![row(block("k", Some("f"), "x"), vec![1, 2])]),
            Err(IndexError::InvalidProjectName)
        );
        assert_eq!(store.get_all_function_blocks(bad), Err(IndexError::InvalidProjectName));
        assert_eq!(
            store.search_from_function_blocks(bad, "x".to_string()),
            Err(IndexError::InvalidProjectName)
        );
        assert_eq!(
            store.search_by_function_name(bad, "f".to_string()),
            Err(IndexError::InvalidProjectName)
        );
    }
    assert_eq!(store.does_project_exist("ok"), Ok(true));
    assert_eq!(store.get_project_info("ok").unwrap().unwrap().total_code_blocks, 0);
}

#[test]
fn create_twice_is_one_project() {
    let mut store = SQLite::new(2);
    store.create_table("p").unwrap();
    store.insert_blocks("p", vec![row(block("k", Some("f"), "x"), vec![1, 2])]).unwrap();
    store.create_table("p").unwrap();
    assert_eq!(store.does_project_exist("p"), Ok(true));
    assert_eq!(store.get_project_info("p").unwrap().unwrap().total_code_blocks, 1);
}

#[test]
fn delete_twice_is_a_no_op() {
    let mut store = SQLite::new(2);
    store.create_table("p").unwrap();
    store.create_table("q").unwrap();
    store.delete_project("p").unwrap();
    assert_eq!(store.does_project_exist("p"), Ok(false));
    assert_eq!(store.delete_project("p"), Ok(()));
    assert_eq!(store.does_project_exist("p"), Ok(false));
    assert_eq!(store.does_project_exist("q"), Ok(true));
    assert_eq!(store.get_project_info("p"), Ok(None));
}

#[test]
fn stored_block_reads_back_equal() {
    let mut store = SQLite::new(3);
    store.create_table("rt").unwrap();
    let b = block("node-1", Some("compute"), "fn compute() { 1 + 1 }");
    store.insert_blocks("rt", vec![row(b.clone(), vec![-7, 0, 2147483647])]).unwrap();
    assert_eq!(store.get_all_function_blocks("rt").unwrap(), vec![b.clone()]);
    assert_eq!(store.search_by_function_name("rt", "compute").unwrap(), vec![b.clone()]);
    let vectors = store.get_code_vectors("rt").unwrap();
    assert_eq!(vectors.len(), 1);
    assert_eq!(vectors[0].point, vec![-7, 0, 2147483647]);
    assert_eq!(vectors[0].code, b.content);
    assert_eq!(store.get_project_rows("rt").unwrap(), vec![row(b, vec![-7, 0, 2147483647])]);
}

#[test]
fn queries_skip_blocks_without_function_name() {
    let mut store = SQLite::new(1);
    store.create_table("p").unwrap();
    let f = block("k1", Some("run"), "let total = 1;");
    let g = block("k2", Some("walk"), "let Total = 2;");
    let plain = block("k3", None, "let total = 3;");
    let empty_name = block("k4", Some(""), "let total = 4;");
    store
        .insert_blocks(
            "p",
            vec![row(f.clone(), vec![1]), row(plain.clone(), vec![2]), row(g.clone(), vec![3]), row(empty_name.clone(), vec![4])],
        )
        .unwrap();
    assert_eq!(
        store.get_all_function_blocks("p").unwrap(),
        vec![f.clone(), g.clone(), empty_name.clone()]
    );
    assert_eq!(
        store.search_from_function_blocks("p", "total").unwrap(),
        vec![f.clone(), empty_name.clone()]
    );
    assert_eq!(store.search_from_function_blocks("p", "Total").unwrap(), vec![g.clone()]);
    assert_eq!(
        store.search_from_function_blocks("p", "").unwrap(),
        vec![f.clone(), g.clone(), empty_name.clone()]
    );
    assert_eq!(store.search_from_function_blocks("p", "absent").unwrap(), vec![]);
    assert_eq!(store.search_by_function_name("p", "walk").unwrap(), vec![g]);
    assert_eq!(store.search_by_function_name("p", "").unwrap(), vec![empty_name]);
    assert_eq!(store.search_by_function_name("p", "run2").unwrap(), vec![]);
    assert_eq!(store.get_code_vectors("p").unwrap().len(), 4);
}

#[test]
fn queries_on_missing_project_fail() {
    let store = SQLite::new(1);
    assert_eq!(store.get_all_function_blocks("none"), Err(IndexError::ProjectNotFound));
    assert_eq!(store.search_from_function_blocks("none", "x"), Err(IndexError::ProjectNotFound));
    assert_eq!(store.search_by_function_name("none", "x"), Err(IndexError::ProjectNotFound));
    assert_eq!(store.get_code_vectors("none").map(|v| v.len()), Err(IndexError::ProjectNotFound));
    assert_eq!(store.get_project_rows("none"), Err(IndexError::ProjectNotFound));
}

#[test]
fn insert_into_missing_project_fails() {
    let mut store = SQLite::new(1);
    assert_eq!(
        store.insert_blocks("none", vec![row(block("k", None, "x"), vec![1])]),
        Err(IndexError::ProjectNotFound)
    );
    assert_eq!(store.does_project_exist("none"), Ok(false));
}

#[test]
fn insert_with_wrong_dimension_stores_nothing() {
    let mut store = SQLite::new(2);
    store.create_table("p").unwrap();
    let good = row(block("k1", Some("f"), "x"), vec![1, 2]);
    let bad = row(block("k2", Some("g"), "y"), vec![1, 2, 3]);
    assert_eq!(store.insert_blocks("p", vec![good, bad]), Err(IndexError::StorageFailure));
    assert_eq!(store.get_project_info("p").unwrap().unwrap().total_code_blocks, 0);
    assert_eq!(store.dim(), 2);
}

#[test]
fn projects_are_isolated() {
    let mut store = SQLite::new(1);
    store.create_table("a").unwrap();
    store.create_table("b").unwrap();
    store.insert_blocks("a", vec![row(block("k", Some("f"), "x"), vec![1])]).unwrap();
    assert_eq!(store.get_all_function_blocks("b").unwrap(), vec![]);
    store.delete_project("a").unwrap();
    assert_eq!(store.get_all_function_blocks("b").unwrap(), vec![]);
    store.create_table("a").unwrap();
    assert_eq!(store.get_all_function_blocks("a").unwrap(), vec![]);
}
