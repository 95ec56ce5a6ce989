use mehu::telegram::{
    Answer, AnswerMessage, CallbackCommand, Chat, ChosenInlineResult, GetUpdatesResponse,
    InlineQuery, Message, MessageResponse, MinimalMessage, PhotoSize, PollCursor, Update,
    UpdateMessage, User, CallbackQuery, Document, build_answer_list, build_answer_message,
    build_inline_keyboard, parse_response_message_id, process_message, process_update,
    LONG_POLLING_TIMEOUT,
};

fn bare_update(update_id: i64) -> Update {
    Update {
        update_id,
        inline_query: None,
        chosen_inline_result: None,
        message: None,
        callback_query: None,
    }
}

fn bare_message() -> Message {
    Message {
        message_id: 1,
        photo: None,
        caption: None,
        from: None,
        chat: Chat { id: 5, _type: "private".to_string() },
        reply_to_message: None,
        text: None,
        document: None,
    }
}

fn user(id: i64, first_name: &str) -> User {
    User { id, first_name: first_name.to_string() }
}

#[test]
fn inline_query_update_is_classified_first() {
    let mut u = bare_update(1);
    u.inline_query = Some(InlineQuery {
        id: "q1".to_string(),
        from: user(9, "Ann"),
        query: "red".to_string(),
    });
    match process_update(u) {
        UpdateMessage::InlineQuery { inline_query_id, query } => {
            assert_eq!(inline_query_id, "q1");
            assert_eq!(query, "red");
        }
        _ => panic!("expected an inline query event"),
    }
}

#[test]
fn chosen_result_update_parses_the_echoed_id() {
    let mut u = bare_update(2);
    u.chosen_inline_result = Some(ChosenInlineResult {
        result_id: "3".to_string(),
        from: user(9, "Ann"),
        query: "red".to_string(),
    });
    match process_update(u) {
        UpdateMessage::ChosenInlineResult { media_id, query } => {
            assert_eq!(media_id, 3);
            assert_eq!(query, "red");
        }
        _ => panic!("expected a chosen-result event"),
    }
}

#[test]
fn unparseable_result_id_is_ignored_not_fatal() {
    let mut u = bare_update(3);
    u.chosen_inline_result = Some(ChosenInlineResult {
        result_id: "not-a-number".to_string(),
        from: user(9, "Ann"),
        query: "red".to_string(),
    });
    assert!(matches!(process_update(u), UpdateMessage::NoEvent));
}

#[test]
fn callback_update_carries_subject_and_user() {
    let mut u = bare_update(4);
    u.callback_query = Some(CallbackQuery {
        id: "cb".to_string(),
        from: user(77, "Bob"),
        data: "5".to_string(),
    });
    match process_update(u) {
        UpdateMessage::CallbackQuery(CallbackCommand::Tag { media_id, user_id }) => {
            assert_eq!(media_id, 5);
            assert_eq!(user_id, 77);
        }
        _ => panic!("expected a callback event"),
    }
}

#[test]
fn unparseable_callback_payload_is_ignored() {
    let mut u = bare_update(5);
    u.callback_query = Some(CallbackQuery {
        id: "cb".to_string(),
        from: user(77, "Bob"),
        data: "tag-me".to_string(),
    });
    assert!(matches!(process_update(u), UpdateMessage::NoEvent));
}

#[test]
fn empty_update_is_no_event() {
    assert!(matches!(process_update(bare_update(6)), UpdateMessage::NoEvent));
}

#[test]
fn photo_message_takes_last_variant_and_caption_tokens() {
    let mut m = bare_message();
    m.photo = Some(vec![
        PhotoSize { file_id: "small".to_string(), width: 10, height: 10 },
        PhotoSize { file_id: "large".to_string(), width: 100, height: 100 },
    ]);
    m.caption = Some("red car".to_string());
    m.from = Some(user(9, "Ann"));
    match process_message(m) {
        UpdateMessage::Photo { file_id, tags } => {
            assert_eq!(file_id, "large");
            // Candidate tags come from the caption alone; the sender's
            // name is not one of them.
            assert_eq!(tags, vec!["red", "car"]);
        }
        _ => panic!("expected a photo event"),
    }
}

#[test]
fn empty_photo_list_falls_through_to_document() {
    let mut m = bare_message();
    m.photo = Some(Vec::new());
    m.document = Some(Document { file_id: "D1".to_string(), mime_type: "video/mp4".to_string() });
    match process_message(m) {
        UpdateMessage::Document { file_id, mime_type, tags } => {
            assert_eq!(file_id, "D1");
            assert_eq!(mime_type, "video/mp4");
            assert!(tags.is_empty());
        }
        _ => panic!("expected a document event"),
    }
}

#[test]
fn reply_message_is_classified_by_its_target() {
    let mut m = bare_message();
    m.reply_to_message = Some(MinimalMessage { message_id: 900 });
    m.text = Some("blue bike".to_string());
    match process_message(m) {
        UpdateMessage::ReplyToMessage { message_id, text } => {
            assert_eq!(message_id, 900);
            assert_eq!(text, "blue bike");
        }
        _ => panic!("expected a reply event"),
    }
}

#[test]
fn plain_text_without_reply_target_is_no_event() {
    let mut m = bare_message();
    m.text = Some("hello".to_string());
    assert!(matches!(process_message(m), UpdateMessage::NoEvent));
}

#[test]
fn keyboard_button_carries_the_decimal_media_id() {
    let markup = build_inline_keyboard(&37).expect("keyboard expected");
    assert_eq!(markup.inline_keyboard.len(), 1);
    assert_eq!(markup.inline_keyboard[0].len(), 1);
    let button = &markup.inline_keyboard[0][0];
    assert_eq!(button.text, "\u{1f516}");
    assert_eq!(button.callback_data.as_deref(), Some("37"));
}

#[test]
fn answer_message_becomes_a_typed_wire_item() {
    let photo = AnswerMessage::Photo { file_id: "F1".to_string(), media_id: 7 };
    match build_answer_message(&photo) {
        Some(Answer::Photo(p)) => {
            assert_eq!(p._type, "photo");
            assert_eq!(p.id, "7");
            assert_eq!(p.photo_file_id, "F1");
            let markup = p.reply_markup.expect("keyboard expected");
            assert_eq!(markup.inline_keyboard[0][0].callback_data.as_deref(), Some("7"));
        }
        _ => panic!("expected a photo answer"),
    }
    let gif = AnswerMessage::Mpeg4Gif { file_id: "F2".to_string(), media_id: 8 };
    match build_answer_message(&gif) {
        Some(Answer::Mpeg4Gif(g)) => {
            assert_eq!(g._type, "mpeg4_gif");
            assert_eq!(g.id, "8");
            assert_eq!(g.mpeg4_file_id, "F2");
        }
        _ => panic!("expected an animation answer"),
    }
    assert!(build_answer_message(&AnswerMessage::NoAnswer).is_none());
}

#[test]
fn answer_list_skips_placeholders_and_keeps_order() {
    let messages = vec![
        AnswerMessage::Photo { file_id: "F1".to_string(), media_id: 1 },
        AnswerMessage::NoAnswer,
        AnswerMessage::Mpeg4Gif { file_id: "F2".to_string(), media_id: 2 },
    ];
    let answers = build_answer_list(&messages);
    assert_eq!(answers.len(), 2);
    assert!(matches!(&answers[0], Answer::Photo(p) if p.id == "1"));
    assert!(matches!(&answers[1], Answer::Mpeg4Gif(g) if g.id == "2"));
}

#[test]
fn send_response_yields_an_id_only_on_success() {
    let ok = MessageResponse { ok: true, result: MinimalMessage { message_id: 900 } };
    assert_eq!(parse_response_message_id(ok), Some(900));
    let failed = MessageResponse { ok: false, result: MinimalMessage { message_id: 900 } };
    assert_eq!(parse_response_message_id(failed), None);
}

fn ok_batch(ids: &[i64]) -> GetUpdatesResponse {
    GetUpdatesResponse { ok: true, result: ids.iter().map(|&i| bare_update(i)).collect() }
}

#[test]
fn cursor_monotonicity() {
    let mut cursor = PollCursor::new();
    let first = cursor.request();
    assert_eq!(first.timeout, LONG_POLLING_TIMEOUT);
    assert_eq!(first.offset, None);

    let delivered = cursor.ingest(ok_batch(&[1, 2, 5]));
    assert_eq!(delivered.len(), 3);
    assert_eq!(cursor.request().offset, Some(6));

    // A failed response advances nothing.
    let nothing = cursor.ingest(GetUpdatesResponse { ok: false, result: vec![bare_update(99)] });
    assert!(nothing.is_empty());
    assert_eq!(cursor.request().offset, Some(6));

    let delivered = cursor.ingest(ok_batch(&[7]));
    assert_eq!(delivered.len(), 1);
    assert_eq!(cursor.request().offset, Some(8));

    // Replaying an already-acknowledged batch never moves the offset back.
    cursor.ingest(ok_batch(&[1, 2, 5]));
    assert_eq!(cursor.request().offset, Some(8));
}

#[test]
fn cursor_takes_the_largest_id_of_an_unordered_batch() {
    let mut cursor = PollCursor::new();
    cursor.ingest(ok_batch(&[10, 9]));
    assert_eq!(cursor.request().offset, Some(11));
}
