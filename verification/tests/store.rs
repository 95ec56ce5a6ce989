use mehu::data::{Entity, MediaType, DB};

fn media(file_id: &str, media_type: MediaType) -> Entity {
    Entity::Media { id: 0, file_id: file_id.to_string(), media_type }
}

fn tag(media_id: i64, text: &str) -> Entity {
    Entity::Tag { id: 0, media_id, tag: text.to_string(), counter: 0 }
}

fn tag_rows(db: &DB, media_id: i64) -> Vec<(String, i64)> {
    db.read_tags(media_id)
        .into_iter()
        .map(|e| match e {
            Entity::Tag { tag, counter, .. } => (tag, counter),
            Entity::Media { .. } => panic!("media row among tags"),
        })
        .collect()
}

#[test]
fn upsert_media_idempotent() {
    let mut db = DB::new();
    let first = db.insert(media("F1", MediaType::Photo));
    let second = db.insert(media("F1", MediaType::Photo));
    assert_eq!(first, second);
    assert_eq!(db.media_count(), 1);
}

#[test]
fn same_file_reference_different_kind_is_a_new_row() {
    let mut db = DB::new();
    let a = db.insert(media("F1", MediaType::Photo));
    let b = db.insert(media("F1", MediaType::Mpeg4Gif));
    assert_ne!(a, b);
    assert_eq!(db.media_count(), 2);
}

#[test]
fn tag_case_folding() {
    let mut db = DB::new();
    let mid = db.insert(media("F1", MediaType::Photo));
    let first = db.insert(tag(mid, "Cat"));
    let second = db.insert(tag(mid, "cat"));
    assert_eq!(first, second);
    assert_eq!(db.tag_count(), 1);
    let rows = tag_rows(&db, mid);
    assert_eq!(rows, vec![("cat".to_string(), 0)]);
}

#[test]
fn read_media_with_mediaid_found_and_missing() {
    let mut db = DB::new();
    let mid = db.insert(media("F1", MediaType::Photo));
    match db.read_media_with_mediaid(mid) {
        Some(Entity::Media { id, file_id, media_type }) => {
            assert_eq!(id, mid);
            assert_eq!(file_id, "F1");
            assert!(matches!(media_type, MediaType::Photo));
        }
        _ => panic!("expected the stored media row"),
    }
    assert!(db.read_media_with_mediaid(42).is_none());
    assert!(db.read_media_with_mediaid(0).is_none());
    assert!(db.read_media_with_mediaid(-1).is_none());
}

#[test]
fn counter_bump_matches_case_sensitive_prefix() {
    let mut db = DB::new();
    let mid = db.insert(media("F1", MediaType::Photo));
    db.insert(tag(mid, "red"));
    db.insert(tag(mid, "car"));
    db.increase_tag_counter(mid, "re".to_string());
    assert_eq!(
        tag_rows(&db, mid),
        vec![("red".to_string(), 1), ("car".to_string(), 0)]
    );
    db.increase_tag_counter(mid, "RE".to_string());
    assert_eq!(
        tag_rows(&db, mid),
        vec![("red".to_string(), 1), ("car".to_string(), 0)]
    );
}

#[test]
fn counter_bump_touches_only_the_given_media() {
    let mut db = DB::new();
    let a = db.insert(media("A", MediaType::Photo));
    let b = db.insert(media("B", MediaType::Photo));
    db.insert(tag(a, "red"));
    db.insert(tag(b, "red"));
    db.increase_tag_counter(a, "red".to_string());
    assert_eq!(tag_rows(&db, a), vec![("red".to_string(), 1)]);
    assert_eq!(tag_rows(&db, b), vec![("red".to_string(), 0)]);
}

#[test]
fn ranking_prefers_higher_aggregate_counter() {
    let mut db = DB::new();
    let a = db.insert(media("A", MediaType::Photo));
    let b = db.insert(media("B", MediaType::Photo));
    db.insert(tag(a, "alpha"));
    db.insert(tag(b, "beta"));
    db.insert(tag(b, "bravo"));
    for _ in 0..5 {
        db.increase_tag_counter(a, "alpha".to_string());
    }
    db.increase_tag_counter(b, "beta".to_string());
    db.increase_tag_counter(b, "bravo".to_string());
    let listed: Vec<i64> = db
        .read_media()
        .into_iter()
        .map(|e| match e {
            Entity::Media { id, .. } => id,
            Entity::Tag { .. } => panic!("tag row in media listing"),
        })
        .collect();
    assert_eq!(listed, vec![a, b]);
}

#[test]
fn ranking_breaks_ties_by_insertion_order() {
    let mut db = DB::new();
    let a = db.insert(media("A", MediaType::Photo));
    let b = db.insert(media("B", MediaType::Photo));
    db.insert(tag(a, "x"));
    db.insert(tag(b, "y"));
    let listed: Vec<i64> = db
        .read_media()
        .into_iter()
        .map(|e| match e {
            Entity::Media { id, .. } => id,
            Entity::Tag { .. } => panic!("tag row in media listing"),
        })
        .collect();
    assert_eq!(listed, vec![a, b]);
}

#[test]
fn untagged_media_is_not_listed() {
    let mut db = DB::new();
    let a = db.insert(media("A", MediaType::Photo));
    let b = db.insert(media("B", MediaType::Photo));
    db.insert(tag(b, "only"));
    let listed: Vec<i64> = db
        .read_media()
        .into_iter()
        .map(|e| match e {
            Entity::Media { id, .. } => id,
            Entity::Tag { .. } => panic!("tag row in media listing"),
        })
        .collect();
    assert_eq!(listed, vec![b]);
    assert!(listed.iter().all(|&id| id != a));
}

#[test]
fn query_filters_by_tag_prefix() {
    let mut db = DB::new();
    let a = db.insert(media("A", MediaType::Photo));
    let b = db.insert(media("B", MediaType::Mpeg4Gif));
    db.insert(tag(a, "red"));
    db.insert(tag(b, "blue"));
    let listed: Vec<i64> = db
        .read_media_with_query("re".to_string())
        .into_iter()
        .map(|e| match e {
            Entity::Media { id, .. } => id,
            Entity::Tag { .. } => panic!("tag row in media listing"),
        })
        .collect();
    assert_eq!(listed, vec![a]);
    assert!(db.read_media_with_query("green".to_string()).is_empty());
}

#[test]
fn media_type_codes_round_trip() {
    assert_eq!(MediaType::Photo.code(), 0);
    assert_eq!(MediaType::Mpeg4Gif.code(), 1);
    assert_eq!(MediaType::ImageGif.code(), 2);
    assert!(matches!(MediaType::from_code(0), Some(MediaType::Photo)));
    assert!(matches!(MediaType::from_code(1), Some(MediaType::Mpeg4Gif)));
    assert!(matches!(MediaType::from_code(2), Some(MediaType::ImageGif)));
    assert!(MediaType::from_code(3).is_none());
    assert!(MediaType::from_code(-1).is_none());
}
