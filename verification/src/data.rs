//! The persistent entity store: media rows and tag rows with idempotent
//! insert-or-fetch semantics, relevance counters, and ranked retrieval.
//!
//! Rows are modelled by the ghost [`StoreView`]: a sequence of media records
//! and a sequence of tag records. A media row's surrogate id is its position
//! in the sequence plus one, and likewise for tag rows. Every mutating
//! operation is specified as a pure transition function on [`StoreView`].

use vstd::prelude::*;

use crate::text::lower_of;
use crate::text::str_eq;
use crate::text::str_is_prefix;
use crate::text::to_lowercase;

verus! {

/// The kind of a stored media item.
#[derive(Clone, Copy, Debug, PartialEq, Eq, Structural)]
pub enum MediaType {
    Photo,
    Mpeg4Gif,
    ImageGif,
}

impl MediaType {
    /// The integer column value that stands for this kind in external storage.
    pub open spec fn spec_code(self) -> i64 {
        match self {
            MediaType::Photo => 0,
            MediaType::Mpeg4Gif => 1,
            MediaType::ImageGif => 2,
        }
    }

    /// Encodes the kind as its storage column value.
    pub fn code(&self) -> (r: i64)
        ensures
            r == self.spec_code(),
    {
        match self {
            MediaType::Photo => 0,
            MediaType::Mpeg4Gif => 1,
            MediaType::ImageGif => 2,
        }
    }

    /// Decodes a storage column value back into a kind; unknown values are
    /// reported as `None` rather than ending the process.
    pub fn from_code(code: i64) -> (r: Option<MediaType>)
        ensures
            r == if code == 0 {
                Some(MediaType::Photo)
            } else if code == 1 {
                Some(MediaType::Mpeg4Gif)
            } else if code == 2 {
                Some(MediaType::ImageGif)
            } else {
                None::<MediaType>
            },
    {
        if code == 0 {
            Some(MediaType::Photo)
        } else if code == 1 {
            Some(MediaType::Mpeg4Gif)
        } else if code == 2 {
            Some(MediaType::ImageGif)
        } else {
            None
        }
    }
}

/// A row of the store, as handed to and returned by the store's operations.
pub enum Entity {
    Media { id: i64, file_id: String, media_type: MediaType },
    Tag { id: i64, media_id: i64, tag: String, counter: i64 },
}

/// Ghost image of one media row. The surrogate id of the row at position
/// `i` of a store's media sequence is `i + 1`.
#[verifier::ext_equal]
pub ghost struct MediaView {
    pub file_id: Seq<char>,
    pub media_type: MediaType,
}

/// Ghost image of one tag row. The surrogate id of the row at position `i`
/// of a store's tag sequence is `i + 1`.
#[verifier::ext_equal]
pub ghost struct TagView {
    pub media_id: int,
    pub tag: Seq<char>,
    pub counter: int,
}

/// Ghost image of the whole store.
#[verifier::ext_equal]
pub ghost struct StoreView {
    pub media: Seq<MediaView>,
    pub tags: Seq<TagView>,
}

/// The store that holds no rows at all.
pub open spec fn empty_store() -> StoreView {
    StoreView { media: Seq::empty(), tags: Seq::empty() }
}

/// Whether the media row at position `i` carries the key `(file_id, kind)`.
pub open spec fn media_key_at(m: Seq<MediaView>, i: int, file_id: Seq<char>, kind: MediaType) -> bool {
    m[i].file_id == file_id && m[i].media_type == kind
}

/// Whether some media row carries the key `(file_id, kind)`.
pub open spec fn has_media(m: Seq<MediaView>, file_id: Seq<char>, kind: MediaType) -> bool {
    exists|i: int| 0 <= i < m.len() && #[trigger] media_key_at(m, i, file_id, kind)
}

/// The position of the media row with key `(file_id, kind)`; meaningful
/// only when `has_media` holds (and unique under `store_wf`).
pub open spec fn media_index(m: Seq<MediaView>, file_id: Seq<char>, kind: MediaType) -> int {
    choose|i: int| 0 <= i < m.len() && #[trigger] media_key_at(m, i, file_id, kind)
}

/// Whether the tag row at position `i` carries the key `(media_id, text)`.
pub open spec fn tag_key_at(t: Seq<TagView>, i: int, media_id: int, text: Seq<char>) -> bool {
    t[i].media_id == media_id && t[i].tag == text
}

/// Whether some tag row carries the key `(media_id, text)`.
pub open spec fn has_tag(t: Seq<TagView>, media_id: int, text: Seq<char>) -> bool {
    exists|i: int| 0 <= i < t.len() && #[trigger] tag_key_at(t, i, media_id, text)
}

/// The position of the tag row with key `(media_id, text)`; meaningful only
/// when `has_tag` holds (and unique under `store_wf`).
pub open spec fn tag_index(t: Seq<TagView>, media_id: int, text: Seq<char>) -> int {
    choose|i: int| 0 <= i < t.len() && #[trigger] tag_key_at(t, i, media_id, text)
}

/// Media keys are pairwise distinct.
pub open spec fn media_unique(m: Seq<MediaView>) -> bool {
    forall|i: int, j: int|
        0 <= i < j < m.len() ==> !(#[trigger] media_key_at(m, j, m[i].file_id, m[i].media_type))
}

/// Tag keys are pairwise distinct.
pub open spec fn tags_unique(t: Seq<TagView>) -> bool {
    forall|i: int, j: int|
        0 <= i < j < t.len() ==> !(#[trigger] tag_key_at(t, j, t[i].media_id, t[i].tag))
}

/// Well-formedness of the media table: keys are pairwise distinct and a
/// fresh surrogate id always fits in an `i64`.
pub open spec fn media_wf(m: Seq<MediaView>) -> bool {
    &&& media_unique(m)
    &&& m.len() <= i64::MAX
}

/// Well-formedness of the tag table: keys are pairwise distinct, counters
/// stay in `0 ..= i64::MAX`, and a fresh surrogate id fits in an `i64`.
pub open spec fn tags_wf(t: Seq<TagView>) -> bool {
    &&& tags_unique(t)
    &&& forall|i: int| 0 <= i < t.len() ==> 0 <= (#[trigger] t[i]).counter <= i64::MAX
    &&& t.len() <= i64::MAX
}

/// Well-formedness of the whole store.
pub open spec fn store_wf(s: StoreView) -> bool {
    media_wf(s.media) && tags_wf(s.tags)
}

/// Insert-or-fetch on the media table: if the key is present the store is
/// unchanged and the existing row's id is returned; otherwise one row is
/// appended and its fresh id is returned.
pub open spec fn spec_upsert_media(s: StoreView, file_id: Seq<char>, kind: MediaType) -> (StoreView, int) {
    if has_media(s.media, file_id, kind) {
        (s, media_index(s.media, file_id, kind) + 1)
    } else {
        (
            StoreView {
                media: s.media.push(MediaView { file_id: file_id, media_type: kind }),
                tags: s.tags,
            },
            s.media.len() as int + 1,
        )
    }
}

/// One feedback step on a counter; the counter sticks at `i64::MAX` rather
/// than wrapping.
pub open spec fn bumped(c: int) -> int {
    if c == i64::MAX {
        c
    } else {
        c + 1
    }
}

/// The selection-feedback transition: every tag of `media_id` whose text
/// starts with `prefix` has its counter increased by one; all other rows and
/// the media table are untouched.
pub open spec fn spec_bump(s: StoreView, media_id: int, prefix: Seq<char>) -> StoreView {
    StoreView {
        media: s.media,
        tags: Seq::new(
            s.tags.len(),
            |i: int|
                if s.tags[i].media_id == media_id && prefix.is_prefix_of(s.tags[i].tag) {
                    TagView {
                        media_id: s.tags[i].media_id,
                        tag: s.tags[i].tag,
                        counter: bumped(s.tags[i].counter),
                    }
                } else {
                    s.tags[i]
                },
        ),
    }
}

/// The positions (ascending) of the elements of `s` that satisfy `p`.
pub open spec fn indices_where<T>(s: Seq<T>, p: spec_fn(T) -> bool) -> Seq<int>
    decreases s.len(),
{
    if s.len() == 0 {
        Seq::empty()
    } else if p(s.last()) {
        indices_where(s.drop_last(), p).push(s.len() - 1)
    } else {
        indices_where(s.drop_last(), p)
    }
}

/// Extending the scanned prefix by one element appends its position exactly
/// when the element satisfies the predicate.
pub proof fn lemma_indices_where_take_step<T>(s: Seq<T>, p: spec_fn(T) -> bool, i: int)
    requires
        0 <= i < s.len(),
    ensures
        indices_where(s.take(i + 1), p) == if p(s[i]) {
            indices_where(s.take(i), p).push(i)
        } else {
            indices_where(s.take(i), p)
        },
{
    assert(s.take(i + 1).drop_last() =~= s.take(i));
    assert(s.take(i + 1).last() == s[i]);
}

/// Insert-or-fetch on the tag table, keyed by the already case-folded text.
/// A fresh row starts with counter zero.
pub open spec fn spec_upsert_tag(s: StoreView, media_id: int, text: Seq<char>) -> (StoreView, int) {
    if has_tag(s.tags, media_id, text) {
        (s, tag_index(s.tags, media_id, text) + 1)
    } else {
        (
            StoreView {
                media: s.media,
                tags: s.tags.push(TagView { media_id: media_id, tag: text, counter: 0 }),
            },
            s.tags.len() as int + 1,
        )
    }
}

/// The aggregate relevance of a media id: the sum of the counters of all
/// its tag rows.
pub open spec fn tag_score(t: Seq<TagView>, media_id: int) -> int
    decreases t.len(),
{
    if t.len() == 0 {
        0
    } else {
        tag_score(t.drop_last(), media_id) + if t.last().media_id == media_id {
            t.last().counter
        } else {
            0
        }
    }
}

/// Scanning one more row adds that row's counter exactly when it belongs to
/// the media id.
proof fn lemma_tag_score_take_step(t: Seq<TagView>, media_id: int, i: int)
    requires
        0 <= i < t.len(),
    ensures
        tag_score(t.take(i + 1), media_id) == tag_score(t.take(i), media_id) + if t[i].media_id
            == media_id {
            t[i].counter
        } else {
            0
        },
{
    assert(t.take(i + 1).drop_last() =~= t.take(i));
    assert(t.take(i + 1).last() == t[i]);
}

/// Whether the media id has at least one tag row.
pub open spec fn has_tag_for(t: Seq<TagView>, media_id: int) -> bool {
    exists|i: int| 0 <= i < t.len() && (#[trigger] t[i]).media_id == media_id
}

/// Whether the media id has at least one tag row whose text starts with
/// `prefix`.
pub open spec fn has_tag_with_prefix(t: Seq<TagView>, media_id: int, prefix: Seq<char>) -> bool {
    exists|i: int|
        0 <= i < t.len() && (#[trigger] t[i]).media_id == media_id && prefix.is_prefix_of(t[i].tag)
}

/// The retrieval order: media `a` comes before media `b` when its aggregate
/// counter is strictly larger, with ties broken by insertion order (the
/// smaller surrogate id first).
pub open spec fn ranked_before(s: StoreView, a: int, b: int) -> bool {
    ||| tag_score(s.tags, a) > tag_score(s.tags, b)
    ||| (tag_score(s.tags, a) == tag_score(s.tags, b) && a < b)
}

/// Whether a media id qualifies for a retrieval: it must exist, have at
/// least one tag row, and, when a prefix is given, have a tag row whose text
/// starts with that prefix.
pub open spec fn listed_media(s: StoreView, media_id: int, prefix: Option<Seq<char>>) -> bool {
    &&& 1 <= media_id <= s.media.len()
    &&& match prefix {
        None => has_tag_for(s.tags, media_id),
        Some(p) => has_tag_with_prefix(s.tags, media_id, p),
    }
}

/// The optional query string seen as an optional character sequence.
pub open spec fn query_view(query: Option<&String>) -> Option<Seq<char>> {
    match query {
        None => None,
        Some(q) => Some(q@),
    }
}

/// Carries the three retrieval promises from an id list over to the entity
/// list built from it.
proof fn lemma_listing_transfer(s: StoreView, p: Option<Seq<char>>, ids: Seq<i64>, r: Seq<Entity>)
    requires
        forall|k: int| 0 <= k < ids.len() ==> listed_media(s, (#[trigger] ids[k]) as int, p),
        forall|k1: int, k2: int|
            0 <= k1 < k2 < ids.len() ==> ranked_before(s, ids[k1] as int, ids[k2] as int),
        forall|mid: int|
            #[trigger] listed_media(s, mid, p) ==> exists|k: int|
                0 <= k < ids.len() && (#[trigger] ids[k]) as int == mid,
        r.len() == ids.len(),
        forall|k: int|
            0 <= k < ids.len() ==> is_media_entry(s, #[trigger] r[k]) && entry_id(r[k]) == ids[k] as int,
    ensures
        ranked_listing(s, p, r),
{
    assert forall|mid: int| #[trigger] listed_media(s, mid, p) implies exists|k: int|
        0 <= k < r.len() && entry_id(#[trigger] r[k]) == mid by {
        let k = choose|k: int| 0 <= k < ids.len() && (#[trigger] ids[k]) as int == mid;
        assert(entry_id(r[k]) == mid);
    }
    assert forall|k1: int, k2: int|
        0 <= k1 < k2 < r.len() implies ranked_before(s, entry_id(r[k1]), entry_id(r[k2])) by {
        assert(ranked_before(s, ids[k1] as int, ids[k2] as int));
    }
}

/// Whether `e` reports the media row `entry_id(e)` of store `s` faithfully.
pub open spec fn is_media_entry(s: StoreView, e: Entity) -> bool {
    e matches Entity::Media { id, file_id, media_type } && 1 <= id <= s.media.len() && file_id@
        == s.media[id - 1].file_id && media_type == s.media[id - 1].media_type
}

/// The media id that a retrieval entry reports.
pub open spec fn entry_id(e: Entity) -> int
    recommends
        e is Media,
{
    e->Media_id as int
}

/// What both retrieval operations promise: every entry faithfully reports a
/// qualifying media row, entries are ordered by rank, and every qualifying
/// media id appears.
pub open spec fn ranked_listing(s: StoreView, prefix: Option<Seq<char>>, r: Seq<Entity>) -> bool {
    &&& forall|k: int|
        0 <= k < r.len() ==> is_media_entry(s, #[trigger] r[k]) && listed_media(
            s,
            entry_id(r[k]),
            prefix,
        )
    &&& forall|k1: int, k2: int|
        0 <= k1 < k2 < r.len() ==> ranked_before(s, entry_id(r[k1]), entry_id(r[k2]))
    &&& forall|mid: int|
        #[trigger] listed_media(s, mid, prefix) ==> exists|k: int|
            0 <= k < r.len() && entry_id(#[trigger] r[k]) == mid
}

/// How many media rows carry the key `(file_id, kind)`.
pub open spec fn count_media(m: Seq<MediaView>, file_id: Seq<char>, kind: MediaType) -> int
    decreases m.len(),
{
    if m.len() == 0 {
        0
    } else {
        count_media(m.drop_last(), file_id, kind) + if m.last().file_id == file_id
            && m.last().media_type == kind {
            1int
        } else {
            0int
        }
    }
}

/// How many tag rows carry the key `(media_id, text)`.
pub open spec fn count_tags(t: Seq<TagView>, media_id: int, text: Seq<char>) -> int
    decreases t.len(),
{
    if t.len() == 0 {
        0
    } else {
        count_tags(t.drop_last(), media_id, text) + if t.last().media_id == media_id
            && t.last().tag == text {
            1int
        } else {
            0int
        }
    }
}

proof fn lemma_count_media_absent(m: Seq<MediaView>, file_id: Seq<char>, kind: MediaType)
    requires
        !has_media(m, file_id, kind),
    ensures
        count_media(m, file_id, kind) == 0,
    decreases m.len(),
{
    if m.len() > 0 {
        if m.last().file_id == file_id && m.last().media_type == kind {
            assert(media_key_at(m, m.len() - 1, file_id, kind));
        }
        if has_media(m.drop_last(), file_id, kind) {
            let i = choose|i: int|
                0 <= i < m.drop_last().len() && #[trigger] media_key_at(m.drop_last(), i, file_id, kind);
            assert(media_key_at(m, i, file_id, kind));
        }
        lemma_count_media_absent(m.drop_last(), file_id, kind);
    }
}

proof fn lemma_count_tags_absent(t: Seq<TagView>, media_id: int, text: Seq<char>)
    requires
        !has_tag(t, media_id, text),
    ensures
        count_tags(t, media_id, text) == 0,
    decreases t.len(),
{
    if t.len() > 0 {
        if t.last().media_id == media_id && t.last().tag == text {
            assert(tag_key_at(t, t.len() - 1, media_id, text));
        }
        if has_tag(t.drop_last(), media_id, text) {
            let i = choose|i: int|
                0 <= i < t.drop_last().len() && #[trigger] tag_key_at(t.drop_last(), i, media_id, text);
            assert(tag_key_at(t, i, media_id, text));
        }
        lemma_count_tags_absent(t.drop_last(), media_id, text);
    }
}

proof fn lemma_count_media_present(m: Seq<MediaView>, file_id: Seq<char>, kind: MediaType)
    requires
        media_unique(m),
        has_media(m, file_id, kind),
    ensures
        count_media(m, file_id, kind) == 1,
    decreases m.len(),
{
    let w = choose|i: int| 0 <= i < m.len() && #[trigger] media_key_at(m, i, file_id, kind);
    if m.last().file_id == file_id && m.last().media_type == kind {
        if has_media(m.drop_last(), file_id, kind) {
            let i = choose|i: int|
                0 <= i < m.drop_last().len() && #[trigger] media_key_at(m.drop_last(), i, file_id, kind);
            assert(media_key_at(m, m.len() - 1, m[i].file_id, m[i].media_type));
        }
        lemma_count_media_absent(m.drop_last(), file_id, kind);
    } else {
        assert(w < m.len() - 1);
        assert(media_key_at(m.drop_last(), w, file_id, kind));
        assert forall|i: int, j: int|
            0 <= i < j < m.drop_last().len() implies !(#[trigger] media_key_at(
            m.drop_last(),
            j,
            m.drop_last()[i].file_id,
            m.drop_last()[i].media_type,
        )) by {
            if media_key_at(m.drop_last(), j, m.drop_last()[i].file_id, m.drop_last()[i].media_type) {
                assert(media_key_at(m, j, m[i].file_id, m[i].media_type));
            }
        }
        lemma_count_media_present(m.drop_last(), file_id, kind);
    }
}

proof fn lemma_count_tags_present(t: Seq<TagView>, media_id: int, text: Seq<char>)
    requires
        tags_unique(t),
        has_tag(t, media_id, text),
    ensures
        count_tags(t, media_id, text) == 1,
    decreases t.len(),
{
    let w = choose|i: int| 0 <= i < t.len() && #[trigger] tag_key_at(t, i, media_id, text);
    if t.last().media_id == media_id && t.last().tag == text {
        if has_tag(t.drop_last(), media_id, text) {
            let i = choose|i: int|
                0 <= i < t.drop_last().len() && #[trigger] tag_key_at(t.drop_last(), i, media_id, text);
            assert(tag_key_at(t, t.len() - 1, t[i].media_id, t[i].tag));
        }
        lemma_count_tags_absent(t.drop_last(), media_id, text);
    } else {
        assert(w < t.len() - 1);
        assert(tag_key_at(t.drop_last(), w, media_id, text));
        assert forall|i: int, j: int|
            0 <= i < j < t.drop_last().len() implies !(#[trigger] tag_key_at(
            t.drop_last(),
            j,
            t.drop_last()[i].media_id,
            t.drop_last()[i].tag,
        )) by {
            if tag_key_at(t.drop_last(), j, t.drop_last()[i].media_id, t.drop_last()[i].tag) {
                assert(tag_key_at(t, j, t[i].media_id, t[i].tag));
            }
        }
        lemma_count_tags_present(t.drop_last(), media_id, text);
    }
}

/// Law: upserting the same `(file_reference, kind)` pair twice returns the
/// same id both times, the second call leaves the store exactly as the first
/// left it, and the media table then holds exactly one row for that pair.
pub proof fn lemma_upsert_media_idempotent(s: StoreView, file_id: Seq<char>, kind: MediaType)
    requires
        media_unique(s.media),
    ensures
        ({
            let (s1, id1) = spec_upsert_media(s, file_id, kind);
            let (s2, id2) = spec_upsert_media(s1, file_id, kind);
            &&& s2 == s1
            &&& id2 == id1
            &&& count_media(s1.media, file_id, kind) == 1
        }),
{
    let (s1, id1) = spec_upsert_media(s, file_id, kind);
    if has_media(s.media, file_id, kind) {
        lemma_count_media_present(s.media, file_id, kind);
    } else {
        let m1 = s.media.push(MediaView { file_id: file_id, media_type: kind });
        assert(media_key_at(m1, s.media.len() as int, file_id, kind));
        assert forall|i: int, j: int|
            0 <= i < j < m1.len() implies !(#[trigger] media_key_at(m1, j, m1[i].file_id, m1[i].media_type)) by {
            if media_key_at(m1, j, m1[i].file_id, m1[i].media_type) {
                if j == m1.len() - 1 {
                    assert(media_key_at(s.media, i, file_id, kind));
                } else {
                    assert(media_key_at(s.media, j, s.media[i].file_id, s.media[i].media_type));
                }
            }
        }
        assert forall|i: int|
            0 <= i < m1.len() && #[trigger] media_key_at(m1, i, file_id, kind) implies i == s.media.len() by {
            if i < m1.len() - 1 {
                assert(media_key_at(s.media, i, file_id, kind));
            }
        }
        assert(media_index(m1, file_id, kind) == s.media.len());
        lemma_count_media_present(m1, file_id, kind);
    }
}

/// Law: two tag upserts against the same media id whose texts fold to the
/// same sequence collapse to one row. The second call returns the same row
/// id, changes nothing, and the tag table holds exactly one row for that
/// `(media_id, text)` key.
pub proof fn lemma_upsert_tag_idempotent(s: StoreView, media_id: int, text: Seq<char>)
    requires
        tags_unique(s.tags),
    ensures
        ({
            let (s1, id1) = spec_upsert_tag(s, media_id, text);
            let (s2, id2) = spec_upsert_tag(s1, media_id, text);
            &&& s2 == s1
            &&& id2 == id1
            &&& count_tags(s1.tags, media_id, text) == 1
        }),
{
    let (s1, id1) = spec_upsert_tag(s, media_id, text);
    if has_tag(s.tags, media_id, text) {
        lemma_count_tags_present(s.tags, media_id, text);
    } else {
        let t1 = s.tags.push(TagView { media_id: media_id, tag: text, counter: 0 });
        assert(tag_key_at(t1, s.tags.len() as int, media_id, text));
        assert forall|i: int, j: int|
            0 <= i < j < t1.len() implies !(#[trigger] tag_key_at(t1, j, t1[i].media_id, t1[i].tag)) by {
            if tag_key_at(t1, j, t1[i].media_id, t1[i].tag) {
                if j == t1.len() - 1 {
                    assert(tag_key_at(s.tags, i, media_id, text));
                } else {
                    assert(tag_key_at(s.tags, j, s.tags[i].media_id, s.tags[i].tag));
                }
            }
        }
        assert forall|i: int|
            0 <= i < t1.len() && #[trigger] tag_key_at(t1, i, media_id, text) implies i == s.tags.len() by {
            if i < t1.len() - 1 {
                assert(tag_key_at(s.tags, i, media_id, text));
            }
        }
        assert(tag_index(t1, media_id, text) == s.tags.len());
        lemma_count_tags_present(t1, media_id, text);
    }
}

struct MediaRecord {
    file_id: String,
    media_type: MediaType,
}

struct TagRecord {
    media_id: i64,
    tag: String,
    counter: i64,
}

/// The store itself. All reads and writes go through the methods below,
/// whose contracts are stated over the ghost [`StoreView`].
pub struct DB {
    media: Vec<MediaRecord>,
    tags: Vec<TagRecord>,
}

spec fn media_views(rows: Seq<MediaRecord>) -> Seq<MediaView> {
    Seq::new(
        rows.len(),
        |i: int| MediaView { file_id: rows[i].file_id@, media_type: rows[i].media_type },
    )
}

spec fn tag_views(rows: Seq<TagRecord>) -> Seq<TagView> {
    Seq::new(
        rows.len(),
        |i: int|
            TagView {
                media_id: rows[i].media_id as int,
                tag: rows[i].tag@,
                counter: rows[i].counter as int,
            },
    )
}

impl View for DB {
    type V = StoreView;

    closed spec fn view(&self) -> StoreView {
        StoreView { media: media_views(self.media@), tags: tag_views(self.tags@) }
    }
}

impl DB {
    #[verifier::type_invariant]
    spec fn inv(self) -> bool {
        store_wf(self@)
    }

    /// Opens an empty store.
    pub fn new() -> (db: DB)
        ensures
            db@ == empty_store(),
    {
        let db = DB { media: Vec::new(), tags: Vec::new() };
        proof {
            assert(db@ =~= empty_store());
        }
        db
    }

    /// How many media rows the store holds.
    pub fn media_count(&self) -> (r: usize)
        ensures
            r == self@.media.len(),
    {
        self.media.len()
    }

    /// How many tag rows the store holds.
    pub fn tag_count(&self) -> (r: usize)
        ensures
            r == self@.tags.len(),
    {
        self.tags.len()
    }

    /// Applies selection feedback: the counter of every tag of `media_id`
    /// whose text starts with `query` is increased by one (sticking at
    /// `i64::MAX`). The prefix match is case-sensitive.
    #[verifier::loop_isolation(false)]
    pub fn increase_tag_counter(&mut self, media_id: i64, query: String)
        ensures
            final(self)@ == spec_bump(old(self)@, media_id as int, query@),
    {
        proof {
            use_type_invariant(&*self);
        }
        let ghost pre = self@;
        let mut rows: Vec<TagRecord> = Vec::new();
        core::mem::swap(&mut rows, &mut self.tags);
        let n = rows.len();
        let mut i: usize = 0;
        while i < n
            invariant
                i <= n,
                rows@.len() == n,
                n == pre.tags.len(),
                forall|k: int|
                    i <= k < n ==> #[trigger] tag_views(rows@)[k] == pre.tags[k],
                forall|k: int|
                    0 <= k < i ==> #[trigger] tag_views(rows@)[k] == spec_bump(
                        pre,
                        media_id as int,
                        query@,
                    ).tags[k],
            decreases n - i,
        {
            let matches_row = rows[i].media_id == media_id
                && str_is_prefix(query.as_str(), rows[i].tag.as_str());
            if matches_row {
                let c = rows[i].counter;
                proof {
                    assert(tag_views(rows@)[i as int] == pre.tags[i as int]);
                    assert(0 <= pre.tags[i as int].counter <= i64::MAX);
                }
                let nc: i64 = if c == i64::MAX {
                    c
                } else {
                    c + 1
                };
                let ghost prev = rows@;
                let row = &mut rows[i];
                row.counter = nc;
                proof {
                    assert forall|k: int| 0 <= k < n && k != i implies #[trigger] tag_views(
                        rows@,
                    )[k] == tag_views(prev)[k] by {
                        assert(rows@[k] == prev[k]);
                    }
                    assert(tag_views(rows@)[i as int] == spec_bump(pre, media_id as int, query@).tags[i as int]);
                }
            } else {
                proof {
                    assert(tag_views(rows@)[i as int] == spec_bump(pre, media_id as int, query@).tags[i as int]);
                }
            }
            i = i + 1;
        }
        proof {
            assert(tag_views(rows@) =~= spec_bump(pre, media_id as int, query@).tags);
            let nt = tag_views(rows@);
            assert forall|a: int, b: int|
                0 <= a < b < nt.len() implies !(#[trigger] tag_key_at(nt, b, nt[a].media_id, nt[a].tag)) by {
                if tag_key_at(nt, b, nt[a].media_id, nt[a].tag) {
                    assert(tag_key_at(pre.tags, b, pre.tags[a].media_id, pre.tags[a].tag));
                }
            }
            assert(tags_wf(nt));
        }
        self.tags = rows;
        proof {
            assert(self@ =~= spec_bump(pre, media_id as int, query@));
        }
    }

    /// Fetches the media row with the given surrogate id, or `None` when no
    /// such row exists.
    pub fn read_media_with_mediaid(&self, media_id: i64) -> (r: Option<Entity>)
        ensures
            1 <= media_id <= self@.media.len() ==> (r matches Some(e) && e matches Entity::Media {
                id,
                file_id,
                media_type,
            } && id == media_id && file_id@ == self@.media[media_id - 1].file_id && media_type
                == self@.media[media_id - 1].media_type),
            !(1 <= media_id <= self@.media.len()) ==> r is None,
    {
        proof {
            use_type_invariant(&*self);
        }
        if media_id >= 1 && media_id <= self.media.len() as i64 {
            let idx = (media_id - 1) as usize;
            Some(
                Entity::Media {
                    id: media_id,
                    file_id: self.media[idx].file_id.clone(),
                    media_type: self.media[idx].media_type,
                },
            )
        } else {
            None
        }
    }

    /// Returns every tag row of the given media id, in insertion order,
    /// with each row's surrogate id, text and counter.
    #[verifier::loop_isolation(false)]
    pub fn read_tags(&self, media_id: i64) -> (r: Vec<Entity>)
        ensures
            ({
                let idx = indices_where(self@.tags, |t: TagView| t.media_id == media_id as int);
                &&& r@.len() == idx.len()
                &&& forall|k: int|
                    0 <= k < idx.len() ==> ((#[trigger] r@[k]) matches Entity::Tag {
                        id,
                        media_id: m,
                        tag,
                        counter,
                    } && id == idx[k] + 1 && m == media_id && tag@ == self@.tags[idx[k]].tag
                        && counter == self@.tags[idx[k]].counter)
            }),
    {
        proof {
            use_type_invariant(&*self);
        }
        let ghost p = |t: TagView| t.media_id == media_id as int;
        let mut out: Vec<Entity> = Vec::new();
        let n = self.tags.len();
        let mut i: usize = 0;
        proof {
            assert(self@.tags.take(0) =~= Seq::<TagView>::empty());
        }
        while i < n
            invariant
                i <= n,
                n == self@.tags.len(),
                out@.len() == indices_where(self@.tags.take(i as int), p).len(),
                forall|k: int|
                    0 <= k < out@.len() ==> ({
                        let idx = indices_where(self@.tags.take(i as int), p);
                        (#[trigger] out@[k]) matches Entity::Tag { id, media_id: m, tag, counter }
                            && id == idx[k] + 1 && m == media_id && tag@ == self@.tags[idx[k]].tag
                            && counter == self@.tags[idx[k]].counter
                    }),
            decreases n - i,
        {
            proof {
                lemma_indices_where_take_step(self@.tags, p, i as int);
            }
            if self.tags[i].media_id == media_id {
                out.push(
                    Entity::Tag {
                        id: (i + 1) as i64,
                        media_id,
                        tag: self.tags[i].tag.clone(),
                        counter: self.tags[i].counter,
                    },
                );
            }
            i = i + 1;
        }
        proof {
            assert(self@.tags.take(n as int) =~= self@.tags);
        }
        out
    }

    /// Sum of the counters of all tag rows of `media_id`. The accumulator is
    /// wide enough that the sum can never overflow.
    #[verifier::loop_isolation(false)]
    fn score(&self, media_id: i64) -> (r: u128)
        ensures
            r as int == tag_score(self@.tags, media_id as int),
    {
        proof {
            use_type_invariant(&*self);
            assert(self@.tags.take(0) =~= Seq::<TagView>::empty());
        }
        let n = self.tags.len();
        let mut acc: u128 = 0;
        let mut i: usize = 0;
        while i < n
            invariant
                i <= n,
                n == self@.tags.len(),
                acc as int == tag_score(self@.tags.take(i as int), media_id as int),
                acc as int <= (i as int) * (i64::MAX as int),
            decreases n - i,
        {
            proof {
                lemma_tag_score_take_step(self@.tags, media_id as int, i as int);
                assert(n as int <= u64::MAX as int);
                vstd::arithmetic::mul::lemma_mul_inequality(
                    i as int + 1,
                    u64::MAX as int,
                    i64::MAX as int,
                );
            }
            if self.tags[i].media_id == media_id {
                let c = self.tags[i].counter;
                proof {
                    assert(0 <= self@.tags[i as int].counter <= i64::MAX);
                    assert(c as int == self@.tags[i as int].counter);
                }
                acc = acc + (c as u128);
            }
            i = i + 1;
        }
        proof {
            assert(self@.tags.take(n as int) =~= self@.tags);
        }
        acc
    }

    /// Whether `media_id` has a tag row, or, when a query is given, a tag
    /// row whose text starts with the query.
    #[verifier::loop_isolation(false)]
    fn qualifies(&self, media_id: i64, query: Option<&String>) -> (r: bool)
        ensures
            r == match query_view(query) {
                None => has_tag_for(self@.tags, media_id as int),
                Some(p) => has_tag_with_prefix(self@.tags, media_id as int, p),
            },
    {
        proof {
            use_type_invariant(&*self);
        }
        let n = self.tags.len();
        let mut i: usize = 0;
        while i < n
            invariant
                i <= n,
                n == self@.tags.len(),
                forall|k: int|
                    0 <= k < i ==> !((#[trigger] self@.tags[k]).media_id == media_id as int
                        && match query_view(query) {
                        None => true,
                        Some(p) => p.is_prefix_of(self@.tags[k].tag),
                    }),
            decreases n - i,
        {
            if self.tags[i].media_id == media_id {
                match query {
                    None => {
                        proof {
                            assert((self@.tags[i as int]).media_id == media_id as int);
                            assert(has_tag_for(self@.tags, media_id as int));
                        }
                        return true;
                    },
                    Some(q) => {
                        if str_is_prefix(q.as_str(), self.tags[i].tag.as_str()) {
                            proof {
                                assert((self@.tags[i as int]).media_id == media_id as int);
                                assert(q@.is_prefix_of(self@.tags[i as int].tag));
                                assert(has_tag_with_prefix(self@.tags, media_id as int, q@));
                            }
                            return true;
                        }
                    },
                }
            }
            i = i + 1;
        }
        false
    }

    /// Whether media `a` ranks strictly before media `b` in retrieval order.
    fn ranked_lt(&self, a: i64, b: i64) -> (r: bool)
        ensures
            r == ranked_before(self@, a as int, b as int),
    {
        let sa = self.score(a);
        let sb = self.score(b);
        sa > sb || (sa == sb && a < b)
    }

    /// The qualifying media ids, ordered by rank.
    #[verifier::loop_isolation(false)]
    fn ranked_ids(&self, query: Option<&String>) -> (r: Vec<i64>)
        ensures
            ({
                let p = query_view(query);
                &&& forall|k: int|
                    0 <= k < r@.len() ==> listed_media(self@, (#[trigger] r@[k]) as int, p)
                &&& forall|k1: int, k2: int|
                    0 <= k1 < k2 < r@.len() ==> ranked_before(self@, r@[k1] as int, r@[k2] as int)
                &&& forall|mid: int|
                    #[trigger] listed_media(self@, mid, p) ==> exists|k: int|
                        0 <= k < r@.len() && (#[trigger] r@[k]) as int == mid
            }),
    {
        proof {
            use_type_invariant(&*self);
        }
        let ghost p = query_view(query);
        let mut out: Vec<i64> = Vec::new();
        let n = self.media.len();
        let mut idx: usize = 0;
        while idx < n
            invariant
                idx <= n,
                n == self@.media.len(),
                store_wf(self@),
                forall|k: int|
                    0 <= k < out@.len() ==> 1 <= (#[trigger] out@[k]) as int <= idx && listed_media(
                        self@,
                        out@[k] as int,
                        p,
                    ),
                forall|k1: int, k2: int|
                    0 <= k1 < k2 < out@.len() ==> ranked_before(
                        self@,
                        out@[k1] as int,
                        out@[k2] as int,
                    ),
                forall|mid: int|
                    1 <= mid <= idx && #[trigger] listed_media(self@, mid, p) ==> exists|k: int|
                        0 <= k < out@.len() && (#[trigger] out@[k]) as int == mid,
            decreases n - idx,
        {
            let mid = (idx + 1) as i64;
            if self.qualifies(mid, query) {
                let mut pos: usize = 0;
                while pos < out.len() && self.ranked_lt(out[pos], mid)
                    invariant
                        pos <= out@.len(),
                        forall|k: int|
                            0 <= k < pos ==> ranked_before(self@, (#[trigger] out@[k]) as int, mid as int),
                    decreases out@.len() - pos,
                {
                    pos = pos + 1;
                }
                let ghost prev = out@;
                out.insert(pos, mid);
                proof {
                    assert(out@ == prev.insert(pos as int, mid));
                    assert forall|k1: int, k2: int|
                        0 <= k1 < k2 < out@.len() implies ranked_before(
                        self@,
                        out@[k1] as int,
                        out@[k2] as int,
                    ) by {
                        if k2 < pos {
                            assert(out@[k1] == prev[k1] && out@[k2] == prev[k2]);
                        } else if k1 < pos && k2 == pos {
                            assert(out@[k1] == prev[k1]);
                            assert(ranked_before(self@, prev[k1] as int, mid as int));
                        } else if k1 < pos && k2 > pos {
                            assert(out@[k1] == prev[k1] && out@[k2] == prev[k2 - 1]);
                            assert(ranked_before(self@, prev[k1] as int, prev[k2 - 1] as int));
                        } else if k1 == pos {
                            assert(out@[k2] == prev[k2 - 1]);
                            assert((pos as int) < prev.len() + 1);
                            assert(!ranked_before(self@, prev[pos as int] as int, mid as int));
                            assert(prev[pos as int] as int <= idx);
                            assert(ranked_before(self@, mid as int, prev[pos as int] as int));
                            if k2 - 1 > pos {
                                assert(ranked_before(self@, prev[pos as int] as int, prev[k2 - 1] as int));
                            }
                        } else {
                            assert(out@[k1] == prev[k1 - 1] && out@[k2] == prev[k2 - 1]);
                        }
                    }
                    assert forall|m: int|
                        1 <= m <= idx + 1 && #[trigger] listed_media(self@, m, p) implies exists|k: int|
                        0 <= k < out@.len() && (#[trigger] out@[k]) as int == m by {
                        if m == mid as int {
                            assert(out@[pos as int] as int == m);
                        } else {
                            let j = choose|j: int|
                                0 <= j < prev.len() && (#[trigger] prev[j]) as int == m;
                            if j < pos {
                                assert(out@[j] as int == m);
                            } else {
                                assert(out@[j + 1] as int == m);
                            }
                        }
                    }
                }
            } else {
                proof {
                    assert(!listed_media(self@, (idx + 1) as int, p));
                }
            }
            idx = idx + 1;
        }
        out
    }

    /// All media that carry at least one tag, best ranked first: descending
    /// aggregate tag counter, ties in insertion order.
    #[verifier::loop_isolation(false)]
    pub fn read_media(&self) -> (r: Vec<Entity>)
        ensures
            ranked_listing(self@, None, r@),
    {
        proof {
            use_type_invariant(&*self);
        }
        let ids = self.ranked_ids(None);
        let ghost gids = ids@;
        let r = self.entries_for(ids);
        proof {
            lemma_listing_transfer(self@, None, gids, r@);
        }
        r
    }

    /// All media that carry at least one tag whose text starts with `query`,
    /// best ranked first: descending aggregate tag counter, ties in
    /// insertion order. The prefix match is case-sensitive.
    #[verifier::loop_isolation(false)]
    pub fn read_media_with_query(&self, query: String) -> (r: Vec<Entity>)
        ensures
            ranked_listing(self@, Some(query@), r@),
    {
        proof {
            use_type_invariant(&*self);
        }
        let ids = self.ranked_ids(Some(&query));
        let ghost gids = ids@;
        let r = self.entries_for(ids);
        proof {
            lemma_listing_transfer(self@, Some(query@), gids, r@);
        }
        r
    }

    /// Turns a ranked id list into the corresponding media entries.
    #[verifier::loop_isolation(false)]
    fn entries_for(&self, ids: Vec<i64>) -> (r: Vec<Entity>)
        requires
            forall|k: int| 0 <= k < ids@.len() ==> 1 <= (#[trigger] ids@[k]) as int <= self@.media.len(),
        ensures
            r@.len() == ids@.len(),
            forall|k: int|
                0 <= k < ids@.len() ==> is_media_entry(self@, #[trigger] r@[k]) && entry_id(r@[k])
                    == ids@[k] as int,
    {
        proof {
            use_type_invariant(&*self);
        }
        let mut out: Vec<Entity> = Vec::new();
        let mut k: usize = 0;
        while k < ids.len()
            invariant
                k <= ids@.len(),
                out@.len() == k,
                forall|j: int|
                    0 <= j < k ==> is_media_entry(self@, #[trigger] out@[j]) && entry_id(out@[j])
                        == ids@[j] as int,
            decreases ids@.len() - k,
        {
            let mid = ids[k];
            let n = self.media.len();
            proof {
                assert(n == self@.media.len());
                assert(1 <= (ids@[k as int]) as int <= self@.media.len());
            }
            let i = (mid - 1) as usize;
            let e = Entity::Media {
                id: mid,
                file_id: self.media[i].file_id.clone(),
                media_type: self.media[i].media_type,
            };
            let ghost ge = e;
            proof {
                assert(ge->Media_id == mid);
                assert(ge->Media_file_id@ == self.media@[mid - 1].file_id@);
                assert(self@.media[mid - 1].file_id == self.media@[mid - 1].file_id@);
                assert(ge->Media_media_type == self@.media[mid - 1].media_type);
                assert(is_media_entry(self@, ge));
            }
            out.push(e);
            proof {
                assert(out@[k as int] == ge);
            }
            k = k + 1;
        }
        out
    }

    /// Idempotent insert-or-fetch of a row. A `Media` entity is keyed by
    /// `(file_id, media_type)`; a `Tag` entity is keyed by `(media_id, tag)`
    /// with the text case-folded before both the lookup and the insert. The
    /// `id` and `counter` fields of the argument are ignored; the returned
    /// id is the stored row's surrogate id.
    #[verifier::loop_isolation(false)]
    pub fn insert(&mut self, entity: Entity) -> (r: i64)
        requires
            entity matches Entity::Media { .. } ==> old(self)@.media.len() < i64::MAX,
            entity matches Entity::Tag { .. } ==> old(self)@.tags.len() < i64::MAX,
        ensures
            entity matches Entity::Media { file_id, media_type, .. } ==> ({
                let (s, id) = spec_upsert_media(old(self)@, file_id@, media_type);
                final(self)@ == s && r as int == id
            }),
            entity matches Entity::Tag { media_id, tag, .. } ==> ({
                let (s, id) = spec_upsert_tag(old(self)@, media_id as int, lower_of(tag@));
                final(self)@ == s && r as int == id
            }),
    {
        proof {
            use_type_invariant(&*self);
        }
        match entity {
            Entity::Media { file_id, media_type, .. } => {
                proof {
                    assert(entity is Media);
                    assert(entity->Media_file_id == file_id);
                    assert(entity->Media_media_type == media_type);
                }
                let n = self.media.len();
                let mut i: usize = 0;
                while i < n
                    invariant
                        *self == *old(self),
                        n == self@.media.len(),
                        i <= n,
                        store_wf(self@),
                        forall|k: int| 0 <= k < i ==> !(#[trigger] media_key_at(self@.media, k, file_id@, media_type)),
                    decreases n - i,
                {
                    if str_eq(self.media[i].file_id.as_str(), file_id.as_str())
                        && self.media[i].media_type == media_type {
                        proof {
                            assert(media_key_at(self@.media, i as int, file_id@, media_type));
                            let j = media_index(self@.media, file_id@, media_type);
                            if j < i {
                                assert(media_key_at(
                                    self@.media,
                                    i as int,
                                    self@.media[j].file_id,
                                    self@.media[j].media_type,
                                ));
                            }
                            if j > i {
                                assert(media_key_at(
                                    self@.media,
                                    j,
                                    self@.media[i as int].file_id,
                                    self@.media[i as int].media_type,
                                ));
                            }
                            assert(j == i as int);
                        }
                        return (i + 1) as i64;
                    }
                    i = i + 1;
                }
                proof {
                    assert(!has_media(self@.media, file_id@, media_type));
                }
                let ghost pre = self@;
                let ghost fid = file_id@;
                let mut rows: Vec<MediaRecord> = Vec::new();
                core::mem::swap(&mut rows, &mut self.media);
                rows.push(MediaRecord { file_id, media_type });
                proof {
                    let nm = media_views(rows@);
                    assert(nm =~= pre.media.push(MediaView { file_id: fid, media_type: media_type }));
                    assert forall|a: int, b: int|
                        0 <= a < b < nm.len() implies !(#[trigger] media_key_at(
                        nm,
                        b,
                        nm[a].file_id,
                        nm[a].media_type,
                    )) by {
                        if b + 1 == nm.len() {
                            if media_key_at(nm, b, nm[a].file_id, nm[a].media_type) {
                                assert(media_key_at(pre.media, a, fid, media_type));
                            }
                        } else {
                            assert(!media_key_at(pre.media, b, pre.media[a].file_id, pre.media[a].media_type));
                        }
                    }
                    assert(media_wf(nm));
                }
                self.media = rows;
                proof {
                    assert(self@ =~= spec_upsert_media(pre, fid, media_type).0);
                }
                self.media.len() as i64
            },
            Entity::Tag { media_id, tag, .. } => {
                let folded = to_lowercase(tag.as_str());
                let n = self.tags.len();
                let mut i: usize = 0;
                while i < n
                    invariant
                        *self == *old(self),
                        n == self@.tags.len(),
                        i <= n,
                        store_wf(self@),
                        folded@ == lower_of(tag@),
                        forall|k: int| 0 <= k < i ==> !(#[trigger] tag_key_at(self@.tags, k, media_id as int, folded@)),
                    decreases n - i,
                {
                    if self.tags[i].media_id == media_id
                        && str_eq(self.tags[i].tag.as_str(), folded.as_str()) {
                        proof {
                            assert(tag_key_at(self@.tags, i as int, media_id as int, folded@));
                            let j = tag_index(self@.tags, media_id as int, folded@);
                            if j < i {
                                assert(tag_key_at(self@.tags, i as int, self@.tags[j].media_id, self@.tags[j].tag));
                            }
                            if j > i {
                                assert(tag_key_at(self@.tags, j, self@.tags[i as int].media_id, self@.tags[i as int].tag));
                            }
                            assert(j == i as int);
                        }
                        return (i + 1) as i64;
                    }
                    i = i + 1;
                }
                proof {
                    assert(!has_tag(self@.tags, media_id as int, folded@));
                }
                let ghost pre = self@;
                let ghost ftext = folded@;
                let mut rows: Vec<TagRecord> = Vec::new();
                core::mem::swap(&mut rows, &mut self.tags);
                rows.push(TagRecord { media_id, tag: folded, counter: 0 });
                proof {
                    let nt = tag_views(rows@);
                    assert(nt =~= pre.tags.push(
                        TagView { media_id: media_id as int, tag: ftext, counter: 0 },
                    ));
                    assert forall|a: int, b: int|
                        0 <= a < b < nt.len() implies !(#[trigger] tag_key_at(
                        nt,
                        b,
                        nt[a].media_id,
                        nt[a].tag,
                    )) by {
                        if b + 1 == nt.len() {
                            if tag_key_at(nt, b, nt[a].media_id, nt[a].tag) {
                                assert(tag_key_at(pre.tags, a, media_id as int, ftext));
                            }
                        } else {
                            assert(!tag_key_at(pre.tags, b, pre.tags[a].media_id, pre.tags[a].tag));
                        }
                    }
                    assert(tags_wf(nt));
                }
                self.tags = rows;
                proof {
                    assert(self@ =~= spec_upsert_tag(pre, media_id as int, lower_of(tag@)).0);
                }
                self.tags.len() as i64
            },
        }
    }
}

} // verus!
