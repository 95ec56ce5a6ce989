//! The remote-API boundary: the wire shapes of the long-polling endpoint,
//! the classifier that turns raw updates into typed events, the builders for
//! outbound answers, and the resumable poll cursor.
//!
//! Nothing here performs I/O. The surrounding program fetches and decodes
//! the payloads and hands them in as plain values; every decision about them
//! is made, and proved, here.

use vstd::prelude::*;

use crate::data::indices_where;
use crate::data::lemma_indices_where_take_step;
use crate::text::dec_int;
use crate::text::i64_to_string;
use crate::text::parse_i64;
use crate::text::parsed_i64;
use crate::text::split_spaces;
use crate::text::split_spec;

verus! {

/// How many time units one long-poll request may wait for news.
pub const LONG_POLLING_TIMEOUT: u16 = 600;

/// A remote user.
pub struct User {
    pub id: i64,
    pub first_name: String,
}

/// A remote conversation.
pub struct Chat {
    pub id: i64,
    pub _type: String,
}

/// An incoming free-text search request.
pub struct InlineQuery {
    pub id: String,
    pub from: User,
    pub query: String,
}

/// An incoming button press; `data` carries the button's opaque payload.
pub struct CallbackQuery {
    pub id: String,
    pub from: User,
    pub data: String,
}

/// A single-button keyboard attached to an outbound answer item.
pub struct InlineKeyboardMarkup {
    pub inline_keyboard: Vec<Vec<InlineKeyboardButton>>,
}

/// One keyboard button; its payload is echoed back in a `CallbackQuery`.
pub struct InlineKeyboardButton {
    pub text: String,
    pub callback_data: Option<String>,
}

/// Notification that a user picked one of the answers sent earlier.
pub struct ChosenInlineResult {
    pub result_id: String,
    pub from: User,
    pub query: String,
}

/// The outbound reply to an `InlineQuery`.
pub struct AnswerInlineQuery {
    pub inline_query_id: String,
    pub results: Vec<Answer>,
}

/// An answer item that shows a stored photo.
pub struct InlineQueryResultCachedPhoto {
    pub _type: String,
    pub id: String,
    pub photo_file_id: String,
    pub reply_markup: Option<InlineKeyboardMarkup>,
}

/// An answer item that shows a stored animation.
pub struct InlineQueryResultCachedMpeg4Gif {
    pub _type: String,
    pub id: String,
    pub mpeg4_file_id: String,
    pub reply_markup: Option<InlineKeyboardMarkup>,
}

/// One outbound answer item, typed by the media kind it shows.
pub enum Answer {
    Photo(InlineQueryResultCachedPhoto),
    Mpeg4Gif(InlineQueryResultCachedMpeg4Gif),
}

/// One raw update as the remote API reports it.
pub struct Update {
    pub update_id: i64,
    pub inline_query: Option<InlineQuery>,
    pub chosen_inline_result: Option<ChosenInlineResult>,
    pub message: Option<Message>,
    pub callback_query: Option<CallbackQuery>,
}

/// The body of one long-poll response.
pub struct GetUpdatesResponse {
    pub ok: bool,
    pub result: Vec<Update>,
}

/// The body of one long-poll request.
pub struct GetUpdates {
    pub timeout: u16,
    pub offset: Option<i64>,
}

/// One resolution variant of an incoming photo.
pub struct PhotoSize {
    pub file_id: String,
    pub width: u32,
    pub height: u32,
}

/// An incoming document attachment.
pub struct Document {
    pub file_id: String,
    pub mime_type: String,
}

/// The response to an outbound send; `result` names the created message.
pub struct MessageResponse {
    pub ok: bool,
    pub result: MinimalMessage,
}

/// An incoming message.
pub struct Message {
    pub message_id: i64,
    pub photo: Option<Vec<PhotoSize>>,
    pub caption: Option<String>,
    pub from: Option<User>,
    pub chat: Chat,
    pub reply_to_message: Option<MinimalMessage>,
    pub text: Option<String>,
    pub document: Option<Document>,
}

/// A message reference: just its id.
pub struct MinimalMessage {
    pub message_id: i64,
}

/// Asks the remote user for a direct reply to the sent message.
pub struct ForceReply {
    pub force_reply: bool,
}

/// The body of an outbound photo send.
pub struct SendPhoto {
    pub chat_id: i64,
    pub photo: String,
    pub caption: String,
    pub reply_markup: Option<ForceReply>,
}

/// A classified incoming event, ready for dispatch.
pub enum UpdateMessage {
    NoEvent,
    InlineQuery { inline_query_id: String, query: String },
    ChosenInlineResult { media_id: i64, query: String },
    Photo { file_id: String, tags: Vec<String> },
    Document { file_id: String, mime_type: String, tags: Vec<String> },
    CallbackQuery(CallbackCommand),
    ReplyToMessage { message_id: i64, text: String },
}

/// What a button press asks for.
pub enum CallbackCommand {
    Tag { media_id: i64, user_id: i64 },
}

/// One entry of an outbound answer list, typed by media kind;
/// `NoAnswer` marks an entry that cannot be shown and is skipped.
pub enum AnswerMessage {
    NoAnswer,
    Photo { file_id: String, media_id: i64 },
    Mpeg4Gif { file_id: String, media_id: i64 },
}

/// The candidate tags of a message: its whitespace-tokenized caption, and
/// nothing else. A message without a caption offers no candidates.
pub open spec fn spec_message_tags(m: Message) -> Seq<Seq<char>> {
    match m.caption {
        Some(c) => split_spec(c@),
        None => Seq::empty(),
    }
}

/// How a message that carries no usable photo is classified: a document,
/// then a reply to an earlier message; anything else is no event.
pub open spec fn message_event_rest(m: Message, r: UpdateMessage) -> bool {
    match m.document {
        Some(d) => r matches UpdateMessage::Document { file_id, mime_type, tags } && file_id@
            == d.file_id@ && mime_type@ == d.mime_type@ && tags.deep_view() == spec_message_tags(m),
        None => match (m.reply_to_message, m.text) {
            (Some(rm), Some(t)) => r matches UpdateMessage::ReplyToMessage { message_id, text }
                && message_id == rm.message_id && text@ == t@,
            _ => r is NoEvent,
        },
    }
}

/// How an incoming message is classified: a photo message wins (its
/// highest-resolution variant is kept), then a document, then a reply to an
/// earlier message; anything else is no event.
pub open spec fn message_event(m: Message, r: UpdateMessage) -> bool {
    match m.photo {
        Some(ps) => if ps@.len() > 0 {
            r matches UpdateMessage::Photo { file_id, tags } && file_id@ == ps@.last().file_id@
                && tags.deep_view() == spec_message_tags(m)
        } else {
            message_event_rest(m, r)
        },
        None => message_event_rest(m, r),
    }
}

/// How a raw update is classified. The payload kinds are tried in a fixed
/// order; an opaque id that does not parse as an integer makes the update a
/// non-event rather than an error.
pub open spec fn update_event(u: Update, r: UpdateMessage) -> bool {
    match u.inline_query {
        Some(q) => r matches UpdateMessage::InlineQuery { inline_query_id, query }
            && inline_query_id@ == q.id@ && query@ == q.query@,
        None => match u.message {
            Some(m) => message_event(m, r),
            None => match u.chosen_inline_result {
                Some(c) => match parsed_i64(c.result_id@) {
                    Some(v) => r matches UpdateMessage::ChosenInlineResult { media_id, query }
                        && media_id == v && query@ == c.query@,
                    None => r is NoEvent,
                },
                None => match u.callback_query {
                    Some(cq) => match parsed_i64(cq.data@) {
                        Some(v) => r matches UpdateMessage::CallbackQuery(cmd)
                            && cmd matches CallbackCommand::Tag { media_id, user_id } && media_id
                            == v && user_id == cq.from.id,
                        None => r is NoEvent,
                    },
                    None => r is NoEvent,
                },
            },
        },
    }
}

/// Classifies one incoming message into a typed event.
pub fn process_message(message: Message) -> (r: UpdateMessage)
    ensures
        message_event(message, r),
{
    let Message { photo, caption, reply_to_message, text, document, .. } = message;
    let tags: Vec<String>;
    match caption {
        Some(c) => {
            tags = split_spaces(c.as_str());
        },
        None => {
            tags = Vec::new();
            proof {
                assert(tags.deep_view() =~= Seq::<Seq<char>>::empty());
            }
        },
    }
    proof {
        assert(tags.deep_view() =~= spec_message_tags(message));
    }
    match photo {
        Some(photos) => {
            if photos.len() > 0 {
                let idx = photos.len() - 1;
                proof {
                    assert(photos@.last() == photos@[idx as int]);
                }
                return UpdateMessage::Photo { file_id: photos[idx].file_id.clone(), tags };
            }
        },
        None => {},
    }
    match document {
        Some(d) => {
            return UpdateMessage::Document { file_id: d.file_id, mime_type: d.mime_type, tags };
        },
        None => {},
    }
    match (reply_to_message, text) {
        (Some(rm), Some(t)) => {
            return UpdateMessage::ReplyToMessage { message_id: rm.message_id, text: t };
        },
        _ => {},
    }
    UpdateMessage::NoEvent
}

/// Classifies one raw update into a typed event.
pub fn process_update(update: Update) -> (r: UpdateMessage)
    ensures
        update_event(update, r),
{
    let Update { inline_query, chosen_inline_result, message, callback_query, .. } = update;
    match inline_query {
        Some(q) => {
            return UpdateMessage::InlineQuery { inline_query_id: q.id, query: q.query };
        },
        None => {},
    }
    match message {
        Some(m) => {
            return process_message(m);
        },
        None => {},
    }
    match chosen_inline_result {
        Some(c) => {
            match parse_i64(c.result_id.as_str()) {
                Some(media_id) => {
                    return UpdateMessage::ChosenInlineResult { media_id, query: c.query };
                },
                None => {
                    return UpdateMessage::NoEvent;
                },
            }
        },
        None => {},
    }
    match callback_query {
        Some(cq) => {
            match parse_i64(cq.data.as_str()) {
                Some(media_id) => {
                    return UpdateMessage::CallbackQuery(
                        CallbackCommand::Tag { media_id, user_id: cq.from.id },
                    );
                },
                None => {
                    return UpdateMessage::NoEvent;
                },
            }
        },
        None => {},
    }
    UpdateMessage::NoEvent
}

/// What the single-button tag keyboard for a media id looks like.
pub open spec fn spec_keyboard(k: InlineKeyboardMarkup, media_id: int) -> bool {
    &&& k.inline_keyboard@.len() == 1
    &&& k.inline_keyboard@[0]@.len() == 1
    &&& k.inline_keyboard@[0]@[0].text@ == "\u{1f516}"@
    &&& k.inline_keyboard@[0]@[0].callback_data matches Some(d) && d@ == dec_int(media_id)
}

/// Builds the one-button keyboard whose payload is the decimal media id.
pub fn build_inline_keyboard(media_id: &i64) -> (r: Option<InlineKeyboardMarkup>)
    ensures
        r matches Some(k) && spec_keyboard(k, *media_id as int),
{
    let tag_button = InlineKeyboardButton {
        text: String::from_str("\u{1f516}"),
        callback_data: Some(i64_to_string(*media_id)),
    };
    let mut inline_keyboard: Vec<InlineKeyboardButton> = Vec::new();
    inline_keyboard.push(tag_button);
    let mut v: Vec<Vec<InlineKeyboardButton>> = Vec::new();
    v.push(inline_keyboard);
    Some(InlineKeyboardMarkup { inline_keyboard: v })
}

/// Whether `a` is the wire answer for the answer entry `m`: the right item
/// kind, the decimal media id, the stored file reference, and the tag
/// keyboard.
pub open spec fn spec_answer_for(m: AnswerMessage, a: Answer) -> bool {
    match m {
        AnswerMessage::Photo { file_id, media_id } => a matches Answer::Photo(p) && p._type@
            == "photo"@ && p.id@ == dec_int(media_id as int) && p.photo_file_id@ == file_id@ && (
        p.reply_markup matches Some(k) && spec_keyboard(k, media_id as int)),
        AnswerMessage::Mpeg4Gif { file_id, media_id } => a matches Answer::Mpeg4Gif(g) && g._type@
            == "mpeg4_gif"@ && g.id@ == dec_int(media_id as int) && g.mpeg4_file_id@ == file_id@
            && (g.reply_markup matches Some(k) && spec_keyboard(k, media_id as int)),
        AnswerMessage::NoAnswer => false,
    }
}

/// Builds the wire answer for one answer entry; a placeholder entry yields
/// nothing.
pub fn build_answer_message(message: &AnswerMessage) -> (r: Option<Answer>)
    ensures
        r is Some <==> !(message is NoAnswer),
        r matches Some(a) ==> spec_answer_for(*message, a),
{
    match message {
        AnswerMessage::Photo { file_id, media_id } => Some(
            Answer::Photo(
                InlineQueryResultCachedPhoto {
                    _type: String::from_str("photo"),
                    id: i64_to_string(*media_id),
                    photo_file_id: file_id.clone(),
                    reply_markup: build_inline_keyboard(media_id),
                },
            ),
        ),
        AnswerMessage::Mpeg4Gif { file_id, media_id } => Some(
            Answer::Mpeg4Gif(
                InlineQueryResultCachedMpeg4Gif {
                    _type: String::from_str("mpeg4_gif"),
                    id: i64_to_string(*media_id),
                    mpeg4_file_id: file_id.clone(),
                    reply_markup: build_inline_keyboard(media_id),
                },
            ),
        ),
        AnswerMessage::NoAnswer => None,
    }
}

/// Builds the wire answers for a whole answer list, in order, skipping the
/// placeholder entries.
#[verifier::loop_isolation(false)]
pub fn build_answer_list(messages: &Vec<AnswerMessage>) -> (r: Vec<Answer>)
    ensures
        ({
            let idx = indices_where(messages@, |m: AnswerMessage| !(m is NoAnswer));
            &&& r@.len() == idx.len()
            &&& forall|k: int|
                0 <= k < idx.len() ==> spec_answer_for(messages@[idx[k]], #[trigger] r@[k])
        }),
{
    let ghost p = |m: AnswerMessage| !(m is NoAnswer);
    let mut out: Vec<Answer> = Vec::new();
    let n = messages.len();
    let mut i: usize = 0;
    proof {
        assert(messages@.take(0) =~= Seq::<AnswerMessage>::empty());
    }
    while i < n
        invariant
            i <= n,
            n == messages@.len(),
            out@.len() == indices_where(messages@.take(i as int), p).len(),
            forall|k: int|
                0 <= k < out@.len() ==> spec_answer_for(
                    messages@[indices_where(messages@.take(i as int), p)[k]],
                    #[trigger] out@[k],
                ),
        decreases n - i,
    {
        proof {
            lemma_indices_where_take_step(messages@, p, i as int);
        }
        match build_answer_message(&messages[i]) {
            Some(a) => {
                out.push(a);
            },
            None => {},
        }
        i = i + 1;
    }
    proof {
        assert(messages@.take(n as int) =~= messages@);
    }
    out
}

/// Reads the outgoing message id out of a decoded send response: the id when
/// the remote service reported success, nothing otherwise.
pub fn parse_response_message_id(response: MessageResponse) -> (r: Option<i64>)
    ensures
        r == if response.ok {
            Some(response.result.message_id)
        } else {
            None::<i64>
        },
{
    if response.ok {
        Some(response.result.message_id)
    } else {
        None
    }
}

/// The update ids of a batch, in delivery order.
pub open spec fn ids_of(us: Seq<Update>) -> Seq<i64> {
    Seq::new(us.len(), |i: int| us[i].update_id)
}

/// The cursor after a batch: the largest update id seen, starting from the
/// previous cursor.
pub open spec fn max_id(cur: Option<i64>, us: Seq<Update>) -> Option<i64>
    decreases us.len(),
{
    if us.len() == 0 {
        cur
    } else {
        let prev = max_id(cur, us.drop_last());
        match prev {
            None => Some(us.last().update_id),
            Some(p) => if us.last().update_id > p {
                Some(us.last().update_id)
            } else {
                Some(p)
            },
        }
    }
}

/// The poll cursor: the monotonic marker that makes long-polling resumable.
/// It remembers the largest update id ever ingested and asks the next poll
/// for strictly newer updates only, so no acknowledged update is ever
/// requested again.
pub struct PollCursor {
    latest_update_id: Option<i64>,
    seen: Ghost<Seq<i64>>,
}

impl PollCursor {
    /// Every update id ever ingested (ghost bookkeeping for the contracts).
    pub closed spec fn seen_ids(&self) -> Seq<i64> {
        self.seen@
    }

    /// The largest update id ingested so far, if any.
    pub closed spec fn cursor(&self) -> Option<i64> {
        self.latest_update_id
    }

    #[verifier::type_invariant]
    closed spec fn inv(self) -> bool {
        &&& self.latest_update_id matches Some(l) ==> l < i64::MAX
        &&& self.latest_update_id is None ==> self.seen@.len() == 0
        &&& forall|k: int|
            0 <= k < self.seen@.len() ==> (self.latest_update_id matches Some(l) && #[trigger] self.seen@[k] <= l)
    }

    /// A fresh cursor that has seen nothing.
    pub fn new() -> (c: PollCursor)
        ensures
            c.seen_ids() == Seq::<i64>::empty(),
            c.cursor() is None,
    {
        PollCursor { latest_update_id: None, seen: Ghost(Seq::empty()) }
    }

    /// The next long-poll request. Its offset, when one exists, strictly
    /// exceeds every update id ever ingested, so an acknowledged batch is
    /// never requested again; before anything was ingested no offset is
    /// sent.
    pub fn request(&self) -> (r: GetUpdates)
        ensures
            r.timeout == LONG_POLLING_TIMEOUT,
            r.offset == match self.cursor() {
                None => None::<i64>,
                Some(l) => Some((l + 1) as i64),
            },
            r.offset matches Some(o) ==> forall|k: int|
                0 <= k < self.seen_ids().len() ==> o > #[trigger] self.seen_ids()[k],
            self.seen_ids().len() > 0 ==> r.offset is Some,
    {
        proof {
            use_type_invariant(&*self);
        }
        let offset = match self.latest_update_id {
            None => None,
            Some(l) => Some(l + 1),
        };
        GetUpdates { timeout: LONG_POLLING_TIMEOUT, offset }
    }

    /// Ingests one long-poll response. A failed response (`ok` false)
    /// changes nothing and delivers nothing, so the same events are fetched
    /// again later; a successful one advances the cursor to the largest
    /// update id of the batch and hands the batch back for in-order
    /// delivery.
    #[verifier::loop_isolation(false)]
    pub fn ingest(&mut self, response: GetUpdatesResponse) -> (r: Vec<Update>)
        requires
            forall|k: int|
                0 <= k < response.result@.len() ==> (#[trigger] response.result@[k]).update_id
                    < i64::MAX,
        ensures
            !response.ok ==> final(self).seen_ids() == old(self).seen_ids() && final(self).cursor()
                == old(self).cursor() && r@.len() == 0,
            response.ok ==> r@ == response.result@ && final(self).seen_ids() == old(
                self,
            ).seen_ids() + ids_of(response.result@) && final(self).cursor() == max_id(
                old(self).cursor(),
                response.result@,
            ),
    {
        proof {
            use_type_invariant(&*self);
        }
        if !response.ok {
            return Vec::new();
        }
        let updates = response.result;
        let ghost us = updates@;
        let ghost seen0 = self.seen@;
        let ghost cur0 = self.latest_update_id;
        let n = updates.len();
        let mut i: usize = 0;
        proof {
            assert(us.take(0) =~= Seq::<Update>::empty());
            assert(ids_of(us.take(0)) =~= Seq::<i64>::empty());
            assert(seen0 + ids_of(us.take(0)) =~= seen0);
        }
        while i < n
            invariant
                i <= n,
                n == us.len(),
                updates@ == us,
                self.seen@ == seen0 + ids_of(us.take(i as int)),
                self.latest_update_id == max_id(cur0, us.take(i as int)),
                self.inv(),
            decreases n - i,
        {
            let uid = updates[i].update_id;
            proof {
                assert(us.take(i as int + 1).drop_last() =~= us.take(i as int));
                assert(us.take(i as int + 1).last() == us[i as int]);
            }
            match self.latest_update_id {
                None => {
                    self.latest_update_id = Some(uid);
                },
                Some(l) => {
                    if uid > l {
                        self.latest_update_id = Some(uid);
                    }
                },
            }
            proof {
                self.seen@ = self.seen@.push(uid);
                assert(self.seen@ =~= seen0 + ids_of(us.take(i as int + 1)));
            }
            i = i + 1;
        }
        proof {
            assert(us.take(n as int) =~= us);
        }
        updates
    }
}

} // verus!
