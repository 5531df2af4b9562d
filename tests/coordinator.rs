use blockoli::blocks::{BlockType, CodeBlock, EmbeddedBlock};
use blockoli::embeddings::{EmbeddingModel, Embeddings};
use blockoli::error::IndexError;
use blockoli::vector_store::VectorStore;

/// Embeds a text as (length, number of 'f', number of 'b').
struct CountingModel;

impl EmbeddingModel for CountingModel {
    fn embed(&self, texts: &Vec<String>) -> Option<Vec<Vec<i32>>> {
        Some(
            texts
                .iter()
                .map(|t| {
                    vec![
                        t.chars().count() as i32,
                        t.chars().filter(|c| *c == 'f').count() as i32,
                        t.chars().filter(|c| *c == 'b').count() as i32,
                    ]
                })
                .collect(),
        )
    }
}

struct FailingModel;

impl EmbeddingModel for FailingModel {
    fn embed(&self, _texts: &Vec<String>) -> Option<Vec<Vec<i32>>> {
        None
    }
}

/// Returns vectors of two coordinates where three are expected.
struct ShortModel;

impl EmbeddingModel for ShortModel {
    fn embed(&self, texts: &Vec<String>) -> Option<Vec<Vec<i32>>> {
        Some(texts.iter().map(|_| vec![1, 2]).collect())
    }
}

/// Returns one vector fewer than asked for.
struct DroppingModel;

impl EmbeddingModel for DroppingModel {
    fn embed(&self, texts: &Vec<String>) -> Option<Vec<Vec<i32>>> {
        Some(texts.iter().skip(1).map(|_| vec![1, 2, 3]).collect())
    }
}

fn function_block(key: &str, name: &str, content: &str) -> CodeBlock {
    CodeBlock {
        node_key: key.to_string(),
        block_type: BlockType::Function,
        content: content.to_string(),
        function_name: Some(name.to_string()),
        class_name: None,
        outgoing_calls: vec!["helper".to_string(), "other".to_string()],
    }
}

fn plain_block(key: &str, content: &str) -> CodeBlock {
    CodeBlock {
        node_key: key.to_string(),
        block_type: BlockType::NonFunction,
        content: content.to_string(),
        function_name: None,
        class_name: Some("Holder".to_string()),
        outgoing_calls: vec![],
    }
}

#[test]
fn embed_many_keeps_order_and_length() {
    let texts = vec!["a".to_string(), "bb".to_string(), "fff".to_string()];
    let out = Embeddings::generate_vector_set(&CountingModel, texts, 3).unwrap();
    assert_eq!(out.len(), 3);
    assert_eq!(out[0].code, "a");
    assert_eq!(out[0].point, vec![1, 0, 0]);
    assert_eq!(out[1].code, "bb");
    assert_eq!(out[1].point, vec![2, 0, 2]);
    assert_eq!(out[2].code, "fff");
    assert_eq!(out[2].point, vec![3, 3, 0]);
}

#[test]
fn embed_many_fails_as_a_whole() {
    let texts = vec!["a".to_string(), "b".to_string()];
    assert_eq!(
        Embeddings::generate_vector_set(&FailingModel, texts.clone(), 3),
        Err(IndexError::EmbeddingFailure)
    );
    assert_eq!(
        Embeddings::generate_vector_set(&ShortModel, texts.clone(), 3),
        Err(IndexError::EmbeddingFailure)
    );
    assert_eq!(
        Embeddings::generate_vector_set(&DroppingModel, texts, 3),
        Err(IndexError::EmbeddingFailure)
    );
}

#[test]
fn embed_one_pairs_text_with_vector() {
    let v = Embeddings::generate_code_vector(&CountingModel, "fbf".to_string(), 3).unwrap();
    assert_eq!(v.code, "fbf");
    assert_eq!(v.point, vec![3, 2, 1]);
    assert_eq!(
        Embeddings::generate_code_vector(&ShortModel, "x".to_string(), 3),
        Err(IndexError::EmbeddingFailure)
    );
}

#[test]
fn end_to_end_demo_project() {
    let mut store = VectorStore::init_sqlite(3);
    store.create_project("demo").unwrap();
    let foo = function_block("k1", "foo", "fn foo() { f(f) }");
    let bar = function_block("k2", "bar", "fn bar() { b(b) }");
    store
        .generate_embeddings(&CountingModel, "demo", vec![foo.clone(), bar.clone()])
        .unwrap();
    let named = store.search_by_function_name("demo", "foo".to_string()).unwrap();
    assert_eq!(named, vec![foo.clone()]);
    let found = store
        .find_similar(&CountingModel, "demo", "fn foo() { f(f) }".to_string(), 1)
        .unwrap();
    assert_eq!(found.nearest, foo.content);
    assert_eq!(found.k_nearest, vec![foo.content.clone()]);
    let info = store.get_project_info("demo").unwrap().unwrap();
    assert_eq!(info.name, "demo");
    assert_eq!(info.total_code_blocks, 2);
}

#[test]
fn two_ingests_then_search_see_both() {
    let mut store = VectorStore::init_sqlite(3);
    store.create_project("proj").unwrap();
    let a = function_block("k1", "alpha", "fff");
    let b = function_block("k2", "beta", "bbbb");
    let c = plain_block("k3", "zz");
    store.generate_embeddings(&CountingModel, "proj", vec![a.clone()]).unwrap();
    store
        .generate_embeddings(&CountingModel, "proj", vec![b.clone(), c.clone()])
        .unwrap();
    let found = store.search(&CountingModel, "proj", "zz".to_string()).unwrap();
    assert_eq!(found.nearest, "zz");
    assert_eq!(found.k_nearest.len(), 3);
    let mut seen = found.k_nearest.clone();
    seen.sort();
    assert_eq!(seen, vec!["bbbb".to_string(), "fff".to_string(), "zz".to_string()]);
    assert_eq!(store.get_project_info("proj").unwrap().unwrap().total_code_blocks, 3);
}

#[test]
fn reingest_appends_rows() {
    let mut store = VectorStore::init_sqlite(3);
    store.create_project("p").unwrap();
    let a = function_block("k1", "alpha", "fff");
    store.generate_embeddings(&CountingModel, "p", vec![a.clone()]).unwrap();
    store.generate_embeddings(&CountingModel, "p", vec![a.clone()]).unwrap();
    assert_eq!(store.get_all_function_blocks("p").unwrap(), vec![a.clone(), a]);
}

#[test]
fn ingest_requires_existing_project() {
    let mut store = VectorStore::init_sqlite(3);
    let a = function_block("k1", "alpha", "fff");
    assert_eq!(
        store.generate_embeddings(&CountingModel, "missing", vec![a.clone()]),
        Err(IndexError::ProjectNotFound)
    );
    assert_eq!(
        store.generate_embeddings(&CountingModel, "bad-name", vec![a]),
        Err(IndexError::InvalidProjectName)
    );
}

#[test]
fn failed_embedding_stores_nothing() {
    let mut store = VectorStore::init_sqlite(3);
    store.create_project("p").unwrap();
    let a = function_block("k1", "alpha", "fff");
    assert_eq!(
        store.generate_embeddings(&FailingModel, "p", vec![a.clone()]),
        Err(IndexError::EmbeddingFailure)
    );
    assert_eq!(
        store.generate_embeddings(&ShortModel, "p", vec![a]),
        Err(IndexError::EmbeddingFailure)
    );
    assert_eq!(store.get_project_info("p").unwrap().unwrap().total_code_blocks, 0);
}

#[test]
fn empty_project_search_is_empty_index() {
    let mut store = VectorStore::init_sqlite(3);
    store.create_project("empty").unwrap();
    assert_eq!(
        store.find_similar(&CountingModel, "empty", "x".to_string(), 1),
        Err(IndexError::EmptyIndex)
    );
    assert_eq!(
        store.find_similar(&FailingModel, "empty", "x".to_string(), 1),
        Err(IndexError::EmptyIndex)
    );
    assert_eq!(store.get_all_function_blocks("empty").unwrap(), vec![]);
}

#[test]
fn search_reports_missing_project_and_model_failure() {
    let mut store = VectorStore::init_sqlite(3);
    assert_eq!(
        store.search(&CountingModel, "nope", "x".to_string()),
        Err(IndexError::ProjectNotFound)
    );
    store.create_project("p").unwrap();
    store
        .insert_blocks(
            "p",
            vec![EmbeddedBlock { block: function_block("k", "f", "f"), vectors: vec![1, 1, 0] }],
        )
        .unwrap();
    assert_eq!(
        store.search(&FailingModel, "p", "x".to_string()),
        Err(IndexError::EmbeddingFailure)
    );
    assert_eq!(
        store.search(&ShortModel, "p", "x".to_string()),
        Err(IndexError::EmbeddingFailure)
    );
}

#[test]
fn search_returns_at_most_five() {
    let mut store = VectorStore::init_sqlite(3);
    store.create_project("p").unwrap();
    let mut blocks = Vec::new();
    for i in 0..8 {
        blocks.push(function_block(&format!("k{}", i), "f", &"b".repeat(i + 1)));
    }
    store.generate_embeddings(&CountingModel, "p", blocks).unwrap();
    let found = store.search(&CountingModel, "p", "bb".to_string()).unwrap();
    assert_eq!(found.nearest, "bb");
    assert_eq!(
        found.k_nearest,
        vec!["bb", "b", "bbb", "bbbb", "bbbbb"].iter().map(|s| s.to_string()).collect::<Vec<_>>()
    );
}

#[test]
fn block_contents_in_block_order() {
    let a = function_block("k1", "alpha", "first");
    let b = plain_block("k2", "second");
    assert_eq!(
        VectorStore::block_contents(&vec![a, b]),
        vec!["first".to_string(), "second".to_string()]
    );
    assert!(VectorStore::block_contents(&vec![]).is_empty());
}

#[test]
fn ingest_vectors_pairs_by_position() {
    let mut store = VectorStore::init_sqlite(2);
    store.create_project("p").unwrap();
    let a = function_block("k1", "alpha", "aa");
    let b = plain_block("k2", "bb");
    let vectors = vec![
        blockoli::embeddings::Vector { point: vec![1, 2], code: "aa".to_string() },
        blockoli::embeddings::Vector { point: vec![3, 4], code: "bb".to_string() },
    ];
    store.ingest_vectors("p", &vec![a.clone(), b.clone()], &vectors).unwrap();
    assert_eq!(
        store.get_project_rows("p").unwrap(),
        vec![
            EmbeddedBlock { block: a.clone(), vectors: vec![1, 2] },
            EmbeddedBlock { block: b.clone(), vectors: vec![3, 4] },
        ]
    );
    assert_eq!(
        store.ingest_vectors("p", &vec![a.clone()], &vectors),
        Err(IndexError::EmbeddingFailure)
    );
    let short = vec![blockoli::embeddings::Vector { point: vec![1], code: "aa".to_string() }];
    assert_eq!(store.ingest_vectors("p", &vec![a.clone()], &short), Err(IndexError::EmbeddingFailure));
    assert_eq!(store.ingest_vectors("q", &vec![a.clone()], &short), Err(IndexError::ProjectNotFound));
    assert_eq!(store.ingest_vectors("q!", &vec![a], &short), Err(IndexError::InvalidProjectName));
    assert_eq!(store.get_project_info("p").unwrap().unwrap().total_code_blocks, 2);
}

#[test]
fn ingest_stores_the_model_vector_of_each_content() {
    let mut store = VectorStore::init_sqlite(3);
    store.create_project("p").unwrap();
    let a = function_block("k1", "alpha", "ffb");
    let b = plain_block("k2", "bbbb");
    store.generate_embeddings(&CountingModel, "p", vec![a.clone(), b.clone()]).unwrap();
    assert_eq!(
        store.get_project_rows("p").unwrap(),
        vec![
            EmbeddedBlock { block: a, vectors: vec![3, 2, 1] },
            EmbeddedBlock { block: b, vectors: vec![4, 0, 4] },
        ]
    );
}

#[test]
fn model_output_is_checked_before_pairing() {
    let texts = vec!["x".to_string(), "y".to_string()];
    assert_eq!(Embeddings::vectors_from_output(&texts, None, 2), Err(IndexError::EmbeddingFailure));
    assert_eq!(
        Embeddings::vectors_from_output(&texts, Some(vec![vec![1, 2]]), 2),
        Err(IndexError::EmbeddingFailure)
    );
    assert_eq!(
        Embeddings::vectors_from_output(&texts, Some(vec![vec![1, 2], vec![3]]), 2),
        Err(IndexError::EmbeddingFailure)
    );
    let out = Embeddings::vectors_from_output(&texts, Some(vec![vec![1, 2], vec![3, 4]]), 2).unwrap();
    assert_eq!(out[0].point, vec![1, 2]);
    assert_eq!(out[0].code, "x");
    assert_eq!(out[1].point, vec![3, 4]);
    assert_eq!(out[1].code, "y");
}
