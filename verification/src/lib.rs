//! A media-tagging message bot, split into a verified core.
//!
//! The crate models three cooperating parts: a persistent entity store for
//! media and their tags (`data`), a classifier and cursor for the remote
//! long-polling API (`telegram`), and the dispatcher rules that connect the
//! two (this module). Network and storage I/O live outside the library; the
//! functions here compute every decision the service makes.

use vstd::prelude::*;

pub mod data;
pub mod telegram;
pub mod text;

use std::collections::HashMap;

use crate::data::is_media_entry;
use crate::data::ranked_listing;
use crate::data::spec_bump;
use crate::data::spec_upsert_media;
use crate::data::spec_upsert_tag;
use crate::data::DB;
use crate::data::Entity;
use crate::data::MediaType;
use crate::data::StoreView;
use crate::telegram::AnswerMessage;
use crate::telegram::CallbackCommand;
use crate::telegram::ForceReply;
use crate::telegram::SendPhoto;
use crate::text::lemma_split_spec_len;
use crate::text::lower_of;
use crate::text::split_spaces;
use crate::text::split_spec;
use crate::text::str_eq;

verus! {

broadcast use vstd::std_specs::hash::group_hash_axioms;

/// Runtime configuration handed to the service at startup: the API
/// credential and the directory that holds the persistent store.
pub struct Config {
    pub api_key: String,
    pub database_path: String,
}

/// The store after a list of candidate tags is applied to a media id:
/// every nonempty token is case-folded and upserted, in order; empty tokens
/// are skipped.
pub open spec fn spec_upsert_tag_tokens(s: StoreView, media_id: int, raw: Seq<Seq<char>>) -> StoreView
    decreases raw.len(),
{
    if raw.len() == 0 {
        s
    } else {
        let s1 = if raw[0].len() == 0 {
            s
        } else {
            spec_upsert_tag(s, media_id, lower_of(raw[0])).0
        };
        spec_upsert_tag_tokens(s1, media_id, raw.drop_first())
    }
}

/// Applying the tokens of `raw.push(x)` is applying those of `raw`, then `x`.
proof fn lemma_upsert_tag_tokens_snoc(s: StoreView, media_id: int, raw: Seq<Seq<char>>, x: Seq<char>)
    ensures
        spec_upsert_tag_tokens(s, media_id, raw.push(x)) == if x.len() == 0 {
            spec_upsert_tag_tokens(s, media_id, raw)
        } else {
            spec_upsert_tag(spec_upsert_tag_tokens(s, media_id, raw), media_id, lower_of(x)).0
        },
    decreases raw.len(),
{
    if raw.len() == 0 {
        assert(raw.push(x)[0] == x);
        assert(raw.push(x).drop_first() =~= Seq::<Seq<char>>::empty());
        assert(spec_upsert_tag_tokens(s, media_id, raw) == s);
        let s1 = if x.len() == 0 {
            s
        } else {
            spec_upsert_tag(s, media_id, lower_of(x)).0
        };
        assert(spec_upsert_tag_tokens(s1, media_id, Seq::<Seq<char>>::empty()) == s1);
    } else {
        assert(raw.push(x)[0] == raw[0]);
        assert(raw.push(x).drop_first() =~= raw.drop_first().push(x));
        let s1 = if raw[0].len() == 0 {
            s
        } else {
            spec_upsert_tag(s, media_id, lower_of(raw[0])).0
        };
        lemma_upsert_tag_tokens_snoc(s1, media_id, raw.drop_first(), x);
    }
}

/// The store after an upload event: the media row is upserted, then every
/// nonempty candidate tag is upserted against the resulting media id.
pub open spec fn spec_handle_media(
    s: StoreView,
    file_id: Seq<char>,
    kind: MediaType,
    tags: Seq<Seq<char>>,
) -> StoreView {
    let (s1, media_id) = spec_upsert_media(s, file_id, kind);
    spec_upsert_tag_tokens(s1, media_id, tags)
}

/// Handles an incoming media upload: insert-or-fetch the media row, then
/// upsert each nonempty candidate tag against it.
#[verifier::loop_isolation(false)]
pub fn handle_media(db: &mut DB, file_id: String, tags: Vec<String>, media_type: MediaType)
    requires
        old(db)@.media.len() < i64::MAX,
        old(db)@.tags.len() + tags@.len() <= i64::MAX,
    ensures
        final(db)@ == spec_handle_media(old(db)@, file_id@, media_type, tags.deep_view()),
{
    let ghost s0 = db@;
    let ghost raw = tags.deep_view();
    let media_id = db.insert(Entity::Media { id: 0, file_id, media_type });
    let ghost s1 = db@;
    let ghost mid = media_id as int;
    proof {
        assert(raw.take(0) =~= Seq::<Seq<char>>::empty());
    }
    let n = tags.len();
    let mut i: usize = 0;
    while i < n
        invariant
            i <= n,
            n == raw.len(),
            tags.deep_view() == raw,
            db@ == spec_upsert_tag_tokens(s1, mid, raw.take(i as int)),
            db@.tags.len() <= s1.tags.len() + i,
            db@.media == s1.media,
        decreases n - i,
    {
        proof {
            assert(raw.take(i as int + 1) =~= raw.take(i as int).push(raw[i as int]));
            lemma_upsert_tag_tokens_snoc(s1, mid, raw.take(i as int), raw[i as int]);
        }
        if !tags[i].as_str().is_empty() {
            db.insert(Entity::Tag { id: 0, media_id, tag: tags[i].clone(), counter: 0 });
        }
        i = i + 1;
    }
    proof {
        assert(raw.take(n as int) =~= raw);
    }
}

/// Handles a selection notification: relevance feedback bumps the counter of
/// every tag of the chosen media whose text starts with the echoed query.
pub fn handle_chosen_inline_result(db: &mut DB, media_id: i64, query: String)
    ensures
        final(db)@ == spec_bump(old(db)@, media_id as int, query@),
{
    db.increase_tag_counter(media_id, query);
}

/// Handles an incoming document: only a recognized video container is taken
/// in (as an animated media upload); any other MIME type is ignored.
pub fn handle_document(db: &mut DB, file_id: String, mime_type: String, tags: Vec<String>)
    requires
        old(db)@.media.len() < i64::MAX,
        old(db)@.tags.len() + tags@.len() <= i64::MAX,
    ensures
        mime_type@ == "video/mp4"@ ==> final(db)@ == spec_handle_media(
            old(db)@,
            file_id@,
            MediaType::Mpeg4Gif,
            tags.deep_view(),
        ),
        mime_type@ != "video/mp4"@ ==> final(db)@ == old(db)@,
{
    if str_eq(mime_type.as_str(), "video/mp4") {
        handle_media(db, file_id, tags, MediaType::Mpeg4Gif);
    }
}

/// Whether `m` is the outbound answer entry for the retrieval entry `e`:
/// photos and animations carry their stored file reference and id, and a
/// kind that cannot be answered inline becomes a placeholder.
pub open spec fn answer_entry_for(e: Entity, m: AnswerMessage) -> bool {
    e matches Entity::Media { id, file_id, media_type } && match media_type {
        MediaType::Photo => m matches AnswerMessage::Photo { file_id: f, media_id } && f@
            == file_id@ && media_id == id,
        MediaType::Mpeg4Gif => m matches AnswerMessage::Mpeg4Gif { file_id: f, media_id } && f@
            == file_id@ && media_id == id,
        MediaType::ImageGif => m is NoAnswer,
    }
}

/// The retrieval filter that a search text asks for: none when the text is
/// empty, the text as a tag prefix otherwise.
pub open spec fn query_prefix(q: Seq<char>) -> Option<Seq<char>> {
    if q.len() == 0 {
        None
    } else {
        Some(q)
    }
}

/// Handles a free-text search: an empty query lists everything that carries
/// a tag, any other query lists the media having a tag with that prefix; the
/// ranked entries are mapped one-for-one to answer entries.
#[verifier::loop_isolation(false)]
pub fn handle_query(db: &DB, query: &str) -> (r: Vec<AnswerMessage>)
    ensures
        exists|entries: Seq<Entity>|
            {
                &&& #[trigger] ranked_listing(db@, query_prefix(query@), entries)
                &&& r@.len() == entries.len()
                &&& forall|k: int| 0 <= k < entries.len() ==> answer_entry_for(entries[k], #[trigger] r@[k])
            },
{
    let results = if query.is_empty() {
        db.read_media()
    } else {
        db.read_media_with_query(query.to_owned())
    };
    let ghost entries = results@;
    let mut out: Vec<AnswerMessage> = Vec::new();
    let n = results.len();
    let mut i: usize = 0;
    while i < n
        invariant
            i <= n,
            n == entries.len(),
            results@ == entries,
            out@.len() == i,
            forall|j: int| 0 <= j < entries.len() ==> is_media_entry(db@, #[trigger] entries[j]),
            forall|j: int| 0 <= j < i ==> answer_entry_for(entries[j], #[trigger] out@[j]),
        decreases n - i,
    {
        match &results[i] {
            Entity::Media { id, file_id, media_type } => {
                match media_type {
                    MediaType::Photo => {
                        out.push(AnswerMessage::Photo { file_id: file_id.clone(), media_id: *id });
                    },
                    MediaType::Mpeg4Gif => {
                        out.push(
                            AnswerMessage::Mpeg4Gif { file_id: file_id.clone(), media_id: *id },
                        );
                    },
                    MediaType::ImageGif => {
                        out.push(AnswerMessage::NoAnswer);
                    },
                }
            },
            Entity::Tag { .. } => {
                // A retrieval entry is always a media row.
                proof {
                    assert(false);
                }
                out.push(AnswerMessage::NoAnswer);
            },
        }
        i = i + 1;
    }
    out
}

/// What the dispatcher sends back for a "tag this" button press: when the
/// subject resolves to a stored photo, that photo is sent to the pressing
/// user with a forced-reply tagging prompt; anything else is dropped.
pub open spec fn spec_tag_prompt(s: StoreView, cmd: CallbackCommand, r: Option<SendPhoto>) -> bool {
    cmd matches CallbackCommand::Tag { media_id, user_id } ==> {
        if 1 <= media_id <= s.media.len() && s.media[media_id - 1].media_type
            == MediaType::Photo {
            r matches Some(p) && p.chat_id == user_id && p.photo@ == s.media[media_id - 1].file_id
                && p.caption@ == "How would you tag this media?"@ && (p.reply_markup matches Some(fr)
                && fr.force_reply)
        } else {
            r is None
        }
    }
}

/// Handles a "tag this" button press: resolves the subject id in the store
/// and, when it is a photo, returns the forced-reply prompt to send. A stale
/// or non-photo subject is dropped without error.
pub fn handle_callback_query(db: &DB, command: &CallbackCommand) -> (r: Option<SendPhoto>)
    ensures
        spec_tag_prompt(db@, *command, r),
{
    match command {
        CallbackCommand::Tag { media_id, user_id } => {
            match db.read_media_with_mediaid(*media_id) {
                Some(e) => match e {
                    Entity::Media { file_id, media_type, .. } => match media_type {
                        MediaType::Photo => Some(
                            SendPhoto {
                                chat_id: *user_id,
                                photo: file_id,
                                caption: String::from_str("How would you tag this media?"),
                                reply_markup: Some(ForceReply { force_reply: true }),
                            },
                        ),
                        _ => None,
                    },
                    Entity::Tag { .. } => None,
                },
                None => None,
            }
        },
    }
}

/// Registers a pending tag prompt: from now on the correlator maps the
/// outgoing message id to the media id that awaits tags.
pub fn register_tag_prompt(cache: &mut HashMap<i64, i64>, message_id: i64, media_id: i64)
    ensures
        final(cache)@ == old(cache)@.insert(message_id, media_id),
{
    cache.insert(message_id, media_id);
}

/// The store and correlator after a reply event: when the replied-to message
/// id is a pending prompt, the reply's tokens are upserted as tags of the
/// pending media id and the entry is consumed; otherwise nothing changes.
pub open spec fn spec_handle_reply(
    s: StoreView,
    cache: Map<i64, i64>,
    message_id: i64,
    text: Seq<char>,
) -> (StoreView, Map<i64, i64>) {
    if cache.contains_key(message_id) {
        (
            spec_upsert_tag_tokens(s, cache[message_id] as int, split_spec(text)),
            cache.remove(message_id),
        )
    } else {
        (s, cache)
    }
}

/// Handles a reply to an earlier message: when the replied-to message is a
/// pending tag prompt, every token of the reply becomes a tag of the pending
/// media id and the prompt is consumed; an unrelated reply is ignored.
#[verifier::loop_isolation(false)]
pub fn handle_reply_message(db: &mut DB, cache: &mut HashMap<i64, i64>, message_id: &i64, text: &str)
    requires
        old(db)@.tags.len() + text@.len() <= i64::MAX,
    ensures
        ({
            let (s2, c2) = spec_handle_reply(old(db)@, old(cache)@, *message_id, text@);
            final(db)@ == s2 && final(cache)@ == c2
        }),
{
    if cache.contains_key(message_id) {
        let media_id: i64 = match cache.get(message_id) {
            Some(v) => *v,
            None => 0,
        };
        let tokens = split_spaces(text);
        let ghost raw = tokens.deep_view();
        let ghost s0 = db@;
        let ghost mid = media_id as int;
        proof {
            lemma_split_spec_len(text@);
            assert(raw.take(0) =~= Seq::<Seq<char>>::empty());
        }
        let n = tokens.len();
        let mut i: usize = 0;
        while i < n
            invariant
                i <= n,
                n == raw.len(),
                tokens.deep_view() == raw,
                raw.len() <= text@.len(),
                db@ == spec_upsert_tag_tokens(s0, mid, raw.take(i as int)),
                db@.tags.len() <= s0.tags.len() + i,
                db@.media == s0.media,
            decreases n - i,
        {
            proof {
                assert(raw.take(i as int + 1) =~= raw.take(i as int).push(raw[i as int]));
                lemma_upsert_tag_tokens_snoc(s0, mid, raw.take(i as int), raw[i as int]);
            }
            if !tokens[i].as_str().is_empty() {
                db.insert(Entity::Tag { id: 0, media_id, tag: tokens[i].clone(), counter: 0 });
            }
            i = i + 1;
        }
        proof {
            assert(raw.take(n as int) =~= raw);
        }
        cache.remove(message_id);
    }
}

/// Law: a pending prompt is consumed exactly once. Processing a reply with
/// some prompt id removes the entry, so processing the same reply a second
/// time changes neither the store nor the correlator.
pub proof fn lemma_reply_consume_once(
    s: StoreView,
    cache: Map<i64, i64>,
    message_id: i64,
    text: Seq<char>,
)
    ensures
        ({
            let (s1, c1) = spec_handle_reply(s, cache, message_id, text);
            let (s2, c2) = spec_handle_reply(s1, c1, message_id, text);
            s2 == s1 && c2 == c1
        }),
{
}

} // verus!

