use blockoli::embeddings::{
    distances_to, k_nearest_positions, nearest_position, squared_distance, Embeddings, Vector,
};
use blockoli::error::IndexError;
use blockoli::names::chars_of;
use blockoli::responses::{EmbeddingsResponse, ErrorResponse};
use blockoli::sqlite::contains_chars;

fn v(point: Vec<i32>, code: &str) -> Vector {
    Vector { point, code: code.to_string() }
}

fn toy() -> Embeddings {
    Embeddings::build(vec![v(vec![0, 0], "origin"), v(vec![3, 4], "far"), v(vec![1, 1], "near")], 2)
}

#[test]
fn squared_distance_is_exact() {
    assert_eq!(squared_distance(&vec![1, 2, 3], &vec![4, 6, 3]), 25);
    assert_eq!(squared_distance(&vec![], &vec![]), 0);
    assert_eq!(
        squared_distance(&vec![i32::MIN, i32::MIN], &vec![i32::MAX, i32::MAX]),
        2 * 18446744065119617025u128
    );
}

#[test]
fn nearest_picks_minimum_distance() {
    let index = toy();
    let q = v(vec![1, 2], "q");
    assert_eq!(index.nearest(&q).unwrap().code, "near");
    let q = v(vec![3, 3], "q");
    assert_eq!(index.nearest(&q).unwrap().code, "far");
}

#[test]
fn k_nearest_two_ascending() {
    let index = toy();
    let q = v(vec![0, 1], "q");
    let got: Vec<String> = index.k_nearest(&q, 2).into_iter().map(|p| p.code).collect();
    assert_eq!(got, vec!["origin".to_string(), "near".to_string()]);
    let all: Vec<String> = index.k_nearest(&q, 10).into_iter().map(|p| p.code).collect();
    assert_eq!(all, vec!["origin".to_string(), "near".to_string(), "far".to_string()]);
    assert!(index.k_nearest(&q, 0).is_empty());
}

#[test]
fn ties_keep_storage_order() {
    let index = Embeddings::build(vec![v(vec![2], "b"), v(vec![0], "a"), v(vec![2], "c")], 1);
    let q = v(vec![1], "q");
    assert_eq!(index.nearest(&q).unwrap().code, "b");
    let got: Vec<String> = index.k_nearest(&q, 3).into_iter().map(|p| p.code).collect();
    assert_eq!(got, vec!["b".to_string(), "a".to_string(), "c".to_string()]);
}

#[test]
fn empty_index_has_no_nearest() {
    let index = Embeddings::build(vec![], 2);
    let q = v(vec![0, 0], "q");
    assert_eq!(index.nearest(&q), Err(IndexError::EmptyIndex));
    assert!(index.k_nearest(&q, 3).is_empty());
    assert_eq!(index.query(&q, 3), Err(IndexError::EmptyIndex));
}

#[test]
fn query_answers_nearest_and_k_nearest() {
    let index = toy();
    let q = v(vec![4, 4], "q");
    let answer = index.query(&q, 2).unwrap();
    assert_eq!(answer.nearest, "far");
    assert_eq!(answer.k_nearest, vec!["far".to_string(), "near".to_string()]);
}

#[test]
fn positions_by_rank() {
    let ds = vec![5u128, 1, 5, 0, 9];
    assert_eq!(nearest_position(&ds), Some(3));
    assert_eq!(k_nearest_positions(&ds, 4), vec![3, 1, 0, 2]);
    assert_eq!(nearest_position(&vec![]), None);
    let pts = vec![v(vec![1, 1], "a"), v(vec![-1, 2], "b")];
    assert_eq!(distances_to(&pts, &vec![0, 0]), vec![2, 5]);
}

#[test]
fn substring_containment() {
    let hay = chars_of("fn total() {}");
    assert!(contains_chars(&hay, &chars_of("total")));
    assert!(contains_chars(&hay, &chars_of("")));
    assert!(!contains_chars(&hay, &chars_of("Total")));
    assert!(!contains_chars(&chars_of("ab"), &chars_of("abc")));
    assert_eq!(chars_of("h\u{e9}"), vec!['h', '\u{e9}']);
}

#[test]
fn response_messages() {
    assert_eq!(ErrorResponse::project_not_found("demo").message, "Project demo not found");
    assert_eq!(ErrorResponse::project_deleted("demo").message, "Deleted project demo");
    let r = EmbeddingsResponse::generated("demo", "/src/demo");
    assert_eq!(r.project_name, "demo");
    assert_eq!(r.project_path, "/src/demo");
    assert_eq!(r.message, "Generated embeddings for demo");
}
