use rag_system::ranking::{rank, DEFAULT_LIMIT, DEFAULT_MIN_SCORE};
use rag_system::store::{DocumentStore, NewDocument, ScoredDocument};
use rag_system::{Document, DocumentMetaData, RagError};

fn bits(values: &[f32]) -> Vec<u32> {
    values.iter().map(|v| v.to_bits()).collect()
}

fn floats(bits: &[u32]) -> Vec<f32> {
    bits.iter().map(|b| f32::from_bits(*b)).collect()
}

fn cosine(a: &[f32], b: &[f32]) -> f32 {
    let dot: f32 = a.iter().zip(b.iter()).map(|(x, y)| x * y).sum();
    let na: f32 = a.iter().map(|x| x * x).sum::<f32>().sqrt();
    let nb: f32 = b.iter().map(|x| x * x).sum::<f32>().sqrt();
    dot / (na * nb)
}

fn millionths(score: f32) -> i64 {
    (score as f64 * 1_000_000.0).ceil() as i64
}

fn document(id: &str, content: &str, index: usize, embedding: &[f32]) -> Document {
    Document {
        id: id.to_string(),
        content: content.to_string(),
        metadata: DocumentMetaData { index, source: "source.txt".to_string() },
        embedding: bits(embedding),
        created_at: "2025-01-01T00:00:00+00:00".to_string(),
    }
}

fn scores_for(store: &DocumentStore, query: &[f32]) -> Vec<i64> {
    store.list().iter().map(|d| millionths(cosine(&floats(&d.embedding), query))).collect()
}

fn ids(found: &[ScoredDocument]) -> Vec<String> {
    found.iter().map(|f| f.document.id.clone()).collect()
}

#[test]
fn similarity_search_ranks_by_cosine() {
    let mut store = DocumentStore::new(2);
    store.insert(document("east", "e", 0, &[1.0, 0.0])).unwrap();
    store.insert(document("north", "n", 1, &[0.0, 1.0])).unwrap();
    store.insert(document("both", "b", 2, &[1.0, 1.0])).unwrap();
    let scores = scores_for(&store, &[1.0, 0.0]);
    assert_eq!(scores, vec![1_000_000, 0, 707_107]);
    let found = store.search_similar(&scores, 2, 500_000).unwrap();
    assert_eq!(ids(&found), vec!["east", "both"]);
    assert_eq!(found[0].score, 1_000_000);
    assert_eq!(found[1].score, 707_107);
    assert_eq!(floats(&found[1].document.embedding), vec![1.0, 1.0]);
}

#[test]
fn search_keeps_only_scores_above_the_floor() {
    let mut store = DocumentStore::new(1);
    for (k, id) in ["a", "b", "c", "d"].iter().enumerate() {
        store.insert(document(id, "x", k, &[1.0])).unwrap();
    }
    let scores = vec![500_000, 500_001, -3, 900_000];
    let found = store.search_similar(&scores, 10, 500_000).unwrap();
    assert_eq!(ids(&found), vec!["d", "b"]);
    let none = store.search_similar(&scores, 10, 900_000).unwrap();
    assert!(none.is_empty());
    let nothing = store.search_similar(&scores, 0, -1_000_000).unwrap();
    assert!(nothing.is_empty());
}

#[test]
fn ties_go_to_the_record_written_first() {
    let mut store = DocumentStore::new(1);
    for (k, id) in ["a", "b", "c", "d", "e"].iter().enumerate() {
        store.insert(document(id, "x", k, &[1.0])).unwrap();
    }
    let scores = vec![7, 9, 7, 9, 7];
    let found = store.search_similar(&scores, 4, 0).unwrap();
    assert_eq!(ids(&found), vec!["b", "d", "a", "c"]);
    let all = store.search_similar(&scores, 50, 0).unwrap();
    assert_eq!(ids(&all), vec!["b", "d", "a", "c", "e"]);
}

#[test]
fn scores_must_match_the_records() {
    let mut store = DocumentStore::new(1);
    store.insert(document("a", "x", 0, &[1.0])).unwrap();
    assert_eq!(store.search_similar(&vec![], 5, 0).err(), Some(RagError::ValidationError));
    assert_eq!(store.search_similar(&vec![1, 2], 5, 0).err(), Some(RagError::ValidationError));
    let empty = DocumentStore::new(1);
    assert!(empty.search_similar(&vec![], 5, 0).unwrap().is_empty());
}

#[test]
fn ranking_of_plain_scores() {
    assert_eq!(rank(&vec![3, 1, 4, 1, 5, 9, 2, 6], 3, 1), vec![5, 7, 4]);
    assert_eq!(rank(&vec![3, 1, 4, 1, 5, 9, 2, 6], 100, 1), vec![5, 7, 4, 2, 0, 6]);
    assert_eq!(rank(&vec![5, 5, 5], 2, 4), vec![0, 1]);
    assert_eq!(rank(&vec![5, 5, 5], 2, 5), Vec::<usize>::new());
    assert_eq!(rank(&vec![], 2, 5), Vec::<usize>::new());
    assert_eq!(rank(&vec![i64::MIN, i64::MAX], 2, i64::MIN), vec![1]);
}

#[test]
fn ranking_agrees_with_a_stable_sort() {
    let scores: Vec<i64> = (0..60).map(|k: i64| (k * 37 + 11) % 17 - 5).collect();
    for limit in [0usize, 1, 2, 5, 30, 60, 100] {
        for floor in [-6i64, -1, 0, 3, 11] {
            let mut expected: Vec<usize> =
                (0..scores.len()).filter(|i| scores[*i] > floor).collect();
            expected.sort_by(|a, b| scores[*b].cmp(&scores[*a]));
            expected.truncate(limit);
            assert_eq!(rank(&scores, limit, floor), expected);
        }
    }
}

#[test]
fn retrieval_defaults() {
    assert_eq!(DEFAULT_LIMIT, 5);
    assert_eq!(DEFAULT_MIN_SCORE, millionths(0.5));
}

#[test]
fn duplicate_id_is_refused() {
    let mut store = DocumentStore::new(2);
    assert_eq!(store.insert(document("k", "first", 0, &[1.0, 0.0])), Ok("k".to_string()));
    assert_eq!(
        store.insert(document("k", "second", 1, &[0.0, 1.0])),
        Err(RagError::DuplicateIdError)
    );
    assert_eq!(store.len(), 1);
    let kept = store.read("k").unwrap();
    assert_eq!(kept.content, "first");
    assert_eq!(kept.metadata.index, 0);
    assert_eq!(floats(&kept.embedding), vec![1.0, 0.0]);
}

#[test]
fn duplicate_id_comes_before_the_dimension() {
    let mut store = DocumentStore::new(2);
    store.insert(document("k", "first", 0, &[1.0, 0.0])).unwrap();
    assert_eq!(store.insert(document("k", "bad", 1, &[1.0])), Err(RagError::DuplicateIdError));
}

#[test]
fn wrong_dimension_is_refused() {
    let mut store = DocumentStore::new(3);
    assert_eq!(store.dimension(), 3);
    assert_eq!(store.insert(document("k", "c", 0, &[1.0, 0.0])), Err(RagError::ValidationError));
    assert_eq!(store.insert(document("k", "c", 0, &[])), Err(RagError::ValidationError));
    assert_eq!(store.len(), 0);
    let record = NewDocument {
        id: None,
        content: "c".to_string(),
        metadata: DocumentMetaData { index: 0, source: "s".to_string() },
        embedding: bits(&[1.0]),
    };
    assert_eq!(store.write(record), Err(RagError::ValidationError));
    assert_eq!(store.len(), 0);
}

#[test]
fn write_with_a_given_id() {
    let mut store = DocumentStore::new(1);
    let record = |id: &str| NewDocument {
        id: Some(id.to_string()),
        content: "c".to_string(),
        metadata: DocumentMetaData { index: 4, source: "s".to_string() },
        embedding: bits(&[0.25]),
    };
    assert_eq!(store.write(record("mine")), Ok("mine".to_string()));
    assert_eq!(store.write(record("mine")), Err(RagError::DuplicateIdError));
    assert_eq!(store.write(record("yours")), Ok("yours".to_string()));
    assert_eq!(ids_of(&store), vec!["mine", "yours"]);
}

fn ids_of(store: &DocumentStore) -> Vec<String> {
    store.list().iter().map(|d| d.id.clone()).collect()
}

#[test]
fn write_draws_a_fresh_id() {
    let mut store = DocumentStore::new(1);
    let mut seen = Vec::new();
    for k in 0..20 {
        let record = NewDocument {
            id: None,
            content: format!("chunk {}", k),
            metadata: DocumentMetaData { index: k, source: "s".to_string() },
            embedding: bits(&[k as f32]),
        };
        let id = store.write(record).unwrap();
        assert_eq!(id.len(), 36);
        for (i, c) in id.chars().enumerate() {
            if i == 8 || i == 13 || i == 18 || i == 23 {
                assert_eq!(c, '-');
            } else {
                assert!(c.is_ascii_digit() || ('a'..='f').contains(&c));
            }
        }
        assert_eq!(id.chars().nth(14), Some('4'));
        assert!("89ab".contains(id.chars().nth(19).unwrap()));
        assert!(!seen.contains(&id));
        seen.push(id);
    }
    assert_eq!(ids_of(&store), seen);
    let last = store.read(&seen[19]).unwrap();
    assert_eq!(last.content, "chunk 19");
    assert_eq!(last.metadata.index, 19);
    let stamp: Vec<char> = last.created_at.chars().collect();
    assert!(stamp.len() == 25 || stamp.len() == 29 || stamp.len() == 32 || stamp.len() == 35);
    for (i, c) in stamp[..19].iter().enumerate() {
        match i {
            4 | 7 => assert_eq!(*c, '-'),
            10 => assert_eq!(*c, 'T'),
            13 | 16 => assert_eq!(*c, ':'),
            _ => assert!(c.is_ascii_digit()),
        }
    }
    if stamp.len() > 25 {
        assert_eq!(stamp[19], '.');
        assert!(stamp[20..stamp.len() - 6].iter().all(|c| c.is_ascii_digit()));
    }
    assert!(last.created_at.ends_with("+00:00"));
}

#[test]
fn read_list_and_delete() {
    let mut store = DocumentStore::new(1);
    assert!(store.read("a").is_none());
    assert!(store.list().is_empty());
    store.insert(document("a", "one", 0, &[1.0])).unwrap();
    store.insert(document("b", "two", 1, &[2.0])).unwrap();
    store.insert(document("c", "three", 2, &[3.0])).unwrap();
    assert_eq!(store.read("b").unwrap().content, "two");
    assert!(store.read("z").is_none());
    assert!(store.read("").is_none());
    store.delete("z");
    assert_eq!(ids_of(&store), vec!["a", "b", "c"]);
    store.delete("b");
    assert_eq!(ids_of(&store), vec!["a", "c"]);
    assert!(store.read("b").is_none());
    assert_eq!(store.read("c").unwrap().content, "three");
    store.delete("a");
    store.delete("c");
    assert_eq!(store.len(), 0);
}

#[test]
fn a_retired_key_is_never_taken_again() {
    let mut store = DocumentStore::new(1);
    store.insert(document("a", "one", 0, &[1.0])).unwrap();
    store.insert(document("b", "two", 1, &[2.0])).unwrap();
    store.delete("b");
    assert!(store.read("b").is_none());
    assert_eq!(store.insert(document("b", "again", 0, &[1.0])), Err(RagError::DuplicateIdError));
    let record = NewDocument {
        id: Some("b".to_string()),
        content: "again".to_string(),
        metadata: DocumentMetaData { index: 0, source: "s".to_string() },
        embedding: bits(&[1.0]),
    };
    assert_eq!(store.write(record), Err(RagError::DuplicateIdError));
    assert_eq!(ids_of(&store), vec!["a"]);
    store.delete("b");
    store.delete("never-there");
    assert_eq!(store.insert(document("never-there", "new", 0, &[1.0])), Ok("never-there".to_string()));
    assert_eq!(store.insert(document("c", "three", 0, &[1.0])), Ok("c".to_string()));
    assert_eq!(ids_of(&store), vec!["a", "never-there", "c"]);
}

#[test]
fn a_score_just_above_the_floor_is_kept() {
    let just_above = f32::from_bits(0.5f32.to_bits() + 1);
    let just_below = f32::from_bits(0.5f32.to_bits() - 1);
    assert_eq!(millionths(just_above), 500_001);
    assert_eq!(millionths(0.5), 500_000);
    assert_eq!(millionths(just_below), 500_000);
    assert_eq!(rank(&vec![millionths(just_below), millionths(0.5), millionths(just_above)], 5, DEFAULT_MIN_SCORE), vec![2]);
}

#[test]
fn copies_are_exact() {
    let d = document("a", "text", 3, &[0.5, -0.0, f32::MAX]);
    let e = d.clone();
    assert_eq!(e.id, d.id);
    assert_eq!(e.content, d.content);
    assert_eq!(e.metadata.index, 3);
    assert_eq!(e.metadata.source, d.metadata.source);
    assert_eq!(e.embedding, d.embedding);
    assert_eq!(e.created_at, d.created_at);
}
