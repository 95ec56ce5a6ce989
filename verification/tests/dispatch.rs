use std::collections::HashMap;

use mehu::data::{Entity, MediaType, DB};
use mehu::telegram::{
    AnswerMessage, CallbackCommand, Chat, Message, PhotoSize, UpdateMessage, User,
};
use mehu::{
    handle_callback_query, handle_chosen_inline_result, handle_document, handle_media,
    handle_query, handle_reply_message, register_tag_prompt,
};

fn tag_rows(db: &DB, media_id: i64) -> Vec<(String, i64)> {
    db.read_tags(media_id)
        .into_iter()
        .map(|e| match e {
            Entity::Tag { tag, counter, .. } => (tag, counter),
            Entity::Media { .. } => panic!("media row among tags"),
        })
        .collect()
}

/// An upload, an empty search, and a selection, end to end.
#[test]
fn scenario_upload_search_select() {
    let mut db = DB::new();

    // The upload event: file reference "F1", kind photo, caption "red car".
    let message = Message {
        message_id: 1,
        photo: Some(vec![PhotoSize { file_id: "F1".to_string(), width: 100, height: 100 }]),
        caption: Some("red car".to_string()),
        from: None,
        chat: Chat { id: 5, _type: "private".to_string() },
        reply_to_message: None,
        text: None,
        document: None,
    };
    let media_id = match mehu::telegram::process_message(message) {
        UpdateMessage::Photo { file_id, tags } => {
            assert_eq!(file_id, "F1");
            handle_media(&mut db, file_id, tags, MediaType::Photo);
            1
        }
        _ => panic!("expected a photo event"),
    };
    assert_eq!(db.media_count(), 1);
    assert_eq!(
        tag_rows(&db, media_id),
        vec![("red".to_string(), 0), ("car".to_string(), 0)]
    );

    // The empty search lists the photo.
    let answers = handle_query(&db, "");
    assert_eq!(answers.len(), 1);
    match &answers[0] {
        AnswerMessage::Photo { file_id, media_id: listed } => {
            assert_eq!(file_id, "F1");
            assert_eq!(*listed, media_id);
        }
        _ => panic!("expected a photo answer"),
    }

    // The selection feedback bumps "red" and leaves "car" alone.
    handle_chosen_inline_result(&mut db, media_id, "red".to_string());
    assert_eq!(
        tag_rows(&db, media_id),
        vec![("red".to_string(), 1), ("car".to_string(), 0)]
    );
}

/// A "tag this" press, the prompt, the reply, and the consume-once rule.
#[test]
fn scenario_tag_prompt_reply() {
    let mut db = DB::new();
    handle_media(&mut db, "F1".to_string(), Vec::new(), MediaType::Photo);
    let media_id = 1;
    let mut cache: HashMap<i64, i64> = HashMap::new();

    let command = CallbackCommand::Tag { media_id, user_id: 10 };
    let prompt = handle_callback_query(&db, &command).expect("a photo must yield a prompt");
    assert_eq!(prompt.chat_id, 10);
    assert_eq!(prompt.photo, "F1");
    assert_eq!(prompt.caption, "How would you tag this media?");
    assert!(prompt.reply_markup.expect("forced reply expected").force_reply);

    // The send succeeded with outgoing message id 900: register the prompt.
    register_tag_prompt(&mut cache, 900, media_id);
    assert_eq!(cache.get(&900), Some(&media_id));

    // The matching reply tags the pending media and consumes the entry.
    handle_reply_message(&mut db, &mut cache, &900, "blue bike");
    assert_eq!(
        tag_rows(&db, media_id),
        vec![("blue".to_string(), 0), ("bike".to_string(), 0)]
    );
    assert!(!cache.contains_key(&900));

    // A second reply to the same prompt id is a no-op.
    handle_reply_message(&mut db, &mut cache, &900, "more tags");
    assert_eq!(
        tag_rows(&db, media_id),
        vec![("blue".to_string(), 0), ("bike".to_string(), 0)]
    );
    assert!(!cache.contains_key(&900));
}

#[test]
fn callback_for_missing_or_non_photo_media_is_dropped() {
    let mut db = DB::new();
    handle_media(&mut db, "G1".to_string(), Vec::new(), MediaType::Mpeg4Gif);
    let stale = CallbackCommand::Tag { media_id: 42, user_id: 10 };
    assert!(handle_callback_query(&db, &stale).is_none());
    let animation = CallbackCommand::Tag { media_id: 1, user_id: 10 };
    assert!(handle_callback_query(&db, &animation).is_none());
}

#[test]
fn unrelated_reply_is_ignored() {
    let mut db = DB::new();
    handle_media(&mut db, "F1".to_string(), Vec::new(), MediaType::Photo);
    let mut cache: HashMap<i64, i64> = HashMap::new();
    register_tag_prompt(&mut cache, 900, 1);
    handle_reply_message(&mut db, &mut cache, &901, "blue bike");
    assert!(tag_rows(&db, 1).is_empty());
    assert!(cache.contains_key(&900));
}

#[test]
fn only_recognized_video_documents_are_stored() {
    let mut db = DB::new();
    handle_document(
        &mut db,
        "D1".to_string(),
        "video/mp4".to_string(),
        vec!["loop".to_string()],
    );
    assert_eq!(db.media_count(), 1);
    let answers = handle_query(&db, "loop");
    assert_eq!(answers.len(), 1);
    assert!(matches!(&answers[0], AnswerMessage::Mpeg4Gif { file_id, .. } if file_id == "D1"));

    handle_document(
        &mut db,
        "D2".to_string(),
        "application/pdf".to_string(),
        vec!["doc".to_string()],
    );
    assert_eq!(db.media_count(), 1);
}

#[test]
fn upload_skips_empty_candidate_tags() {
    let mut db = DB::new();
    handle_media(
        &mut db,
        "F1".to_string(),
        vec!["red".to_string(), String::new(), "car".to_string()],
        MediaType::Photo,
    );
    assert_eq!(
        tag_rows(&db, 1),
        vec![("red".to_string(), 0), ("car".to_string(), 0)]
    );
}

#[test]
fn upload_tags_fold_against_earlier_ones() {
    let mut db = DB::new();
    handle_media(
        &mut db,
        "F1".to_string(),
        vec!["Red".to_string(), "red".to_string()],
        MediaType::Photo,
    );
    assert_eq!(tag_rows(&db, 1), vec![("red".to_string(), 0)]);
}

#[test]
fn search_maps_each_kind_to_its_answer() {
    let mut db = DB::new();
    handle_media(&mut db, "F1".to_string(), vec!["a".to_string()], MediaType::Photo);
    handle_media(&mut db, "F2".to_string(), vec!["b".to_string()], MediaType::Mpeg4Gif);
    let answers = handle_query(&db, "");
    assert_eq!(answers.len(), 2);
    assert!(matches!(&answers[0], AnswerMessage::Photo { file_id, .. } if file_id == "F1"));
    assert!(matches!(&answers[1], AnswerMessage::Mpeg4Gif { file_id, .. } if file_id == "F2"));
}

#[test]
fn sender_name_is_not_a_candidate_tag() {
    let message = Message {
        message_id: 1,
        photo: Some(vec![PhotoSize { file_id: "F1".to_string(), width: 1, height: 1 }]),
        caption: None,
        from: Some(User { id: 9, first_name: "Ann".to_string() }),
        chat: Chat { id: 5, _type: "private".to_string() },
        reply_to_message: None,
        text: None,
        document: None,
    };
    let mut db = DB::new();
    match mehu::telegram::process_message(message) {
        UpdateMessage::Photo { file_id, tags } => {
            assert!(tags.is_empty());
            handle_media(&mut db, file_id, tags, MediaType::Photo);
        }
        _ => panic!("expected a photo event"),
    }
    assert_eq!(db.media_count(), 1);
    assert!(tag_rows(&db, 1).is_empty());
}
