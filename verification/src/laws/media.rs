//! What is promised of what yt-dlp says of a URL.
use vstd::prelude::*;

use crate::json;
use crate::json::JsonView;
use crate::order;
use crate::tasks::resolve;
use crate::text;

verus! {

/// The format states this height, cut to 32 bits, and has a picture.
pub open spec fn shows(format: JsonView, height: u32) -> bool {
    &&& json::member(format, "vcodec"@) != Some(JsonView::Text("none"@))
    &&& json::member(format, "height"@) matches Some(JsonView::Number(Some(n))) && n
        % 0x1_0000_0000 == height
}

proof fn lemma_shows(format: JsonView, height: u32)
    requires
        height > 0,
    ensures
        resolve::height_in(format) == Some(height) <==> shows(format, height),
{
}

proof fn lemma_labels_differ(a: u32, b: u32)
    requires
        text::decimal(a as nat).push('p') == text::decimal(b as nat).push('p'),
    ensures
        a == b,
{
    text::decimal_reads_back(a as nat);
    text::decimal_reads_back(b as nat);
    assert(text::decimal(a as nat).push('p').drop_last() =~= text::decimal(a as nat));
    assert(text::decimal(b as nat).push('p').drop_last() =~= text::decimal(b as nat));
}

/// A height is offered exactly when some format with a picture has it, whatever else the format
/// says: one without sound counts as one with sound.
pub proof fn every_picture_is_offered(url: Seq<char>, value: JsonView, height: u32)
    requires
        height > 0,
    ensures
        resolve::media_in(url, value).available_qualities.contains(
            text::decimal(height as nat).push('p'),
        ) <==> (json::member(value, "formats"@) matches Some(JsonView::Array(formats)) && exists|
            i: int,
        |
            0 <= i < formats.len() && shows(#[trigger] formats[i], height)),
{
    let labels = resolve::media_in(url, value).available_qualities;
    let label = text::decimal(height as nat).push('p');
    match json::member(value, "formats"@) {
        Some(JsonView::Array(formats)) => {
            let heights = resolve::heights_in(formats);
            resolve::heights_fall(formats, height);
            if labels.contains(label) {
                let k = choose|k: int| 0 <= k < labels.len() && labels[k] == label;
                lemma_labels_differ(heights[k], height);
                assert(heights.contains(height));
                let i = choose|i: int|
                    0 <= i < formats.len() && resolve::height_in(#[trigger] formats[i]) == Some(
                        height,
                    );
                lemma_shows(formats[i], height);
                assert(shows(formats[i], height));
            }
            if exists|i: int| 0 <= i < formats.len() && shows(#[trigger] formats[i], height) {
                let i = choose|i: int| 0 <= i < formats.len() && shows(#[trigger] formats[i], height);
                lemma_shows(formats[i], height);
                assert(heights.contains(height));
                let k = choose|k: int| 0 <= k < heights.len() && heights[k] == height;
                assert(labels[k] == label);
            }
        },
        _ => {
            assert(labels.len() == 0);
        },
    }
}

proof fn lemma_heights_positive(formats: Seq<JsonView>)
    ensures
        forall|k: int|
            0 <= k < resolve::heights_in(formats).len() ==> #[trigger] resolve::heights_in(
                formats,
            )[k] > 0,
{
    let heights = resolve::heights_in(formats);
    assert forall|k: int| 0 <= k < heights.len() implies #[trigger] heights[k] > 0 by {
        resolve::heights_fall(formats, heights[k]);
        assert(heights.contains(heights[k]));
    }
}

/// The qualities that are offered are heights, each with a `p` behind it, the greatest first and
/// each only once.
pub proof fn qualities_fall(url: Seq<char>, value: JsonView, i: int, j: int)
    requires
        0 <= i < j < resolve::media_in(url, value).available_qualities.len(),
    ensures
        exists|a: u32, b: u32|
            a > b > 0 && resolve::media_in(url, value).available_qualities[i]
                == #[trigger] text::decimal(a as nat).push('p') && resolve::media_in(
                url,
                value,
            ).available_qualities[j] == #[trigger] text::decimal(b as nat).push('p'),
{
    match json::member(value, "formats"@) {
        Some(JsonView::Array(formats)) => {
            let heights = resolve::heights_in(formats);
            resolve::heights_fall(formats, 0);
            lemma_heights_positive(formats);
            let labels = resolve::media_in(url, value).available_qualities;
            assert(labels[i] == text::decimal(heights[i] as nat).push('p'));
            assert(labels[j] == text::decimal(heights[j] as nat).push('p'));
            assert(heights[i] > heights[j]);
        },
        _ => {},
    }
}

/// The text of the first of these members that is there.
pub open spec fn text_of_either(value: JsonView, a: Seq<char>, b: Seq<char>) -> Option<Seq<char>> {
    match (json::member(value, a), json::member(value, b)) {
        (Some(JsonView::Text(s)), _) => Some(s),
        (Some(_), _) => None,
        (None, Some(JsonView::Text(s))) => Some(s),
        _ => None,
    }
}

/// The number of the first of these members that is there.
pub open spec fn number_of_either(value: JsonView, a: Seq<char>, b: Seq<char>) -> Option<u64> {
    match (json::member(value, a), json::member(value, b)) {
        (Some(JsonView::Number(n)), _) => n,
        (Some(_), _) => None,
        (None, Some(JsonView::Number(n))) => n,
        _ => None,
    }
}

/// The text of a member.
pub open spec fn text_of(value: JsonView, key: Seq<char>) -> Option<Seq<char>> {
    match json::member(value, key) {
        Some(JsonView::Text(s)) => Some(s),
        _ => None,
    }
}

/// The number of a member.
pub open spec fn number_of(value: JsonView, key: Seq<char>) -> Option<u64> {
    match json::member(value, key) {
        Some(JsonView::Number(n)) => n,
        _ => None,
    }
}

/// Of a medium each member of the document says one thing, and a medium without a title is called
/// `Untitled`. It is a playlist where the document calls it one or, where it does not say what it
/// is, lists entries.
pub proof fn a_medium_is_what_its_document_says(url: Seq<char>, value: JsonView)
    ensures
        ({
            let m = resolve::media_in(url, value);
            &&& m.source_url == url
            &&& text_of(value, "title"@) is Some ==> Some(m.title) == text_of(value, "title"@)
            &&& text_of(value, "title"@) is None ==> m.title == "Untitled"@
            &&& m.extractor == text_of(value, "extractor"@)
            &&& m.video_id == text_of(value, "id"@)
            &&& m.uploader == text_of_either(value, "uploader"@, "channel"@)
            &&& m.duration_seconds == number_of(value, "duration"@)
            &&& m.thumbnail_url == text_of(value, "thumbnail"@)
            &&& m.estimated_size_bytes == number_of_either(
                value,
                "filesize_approx"@,
                "filesize"@,
            )
            &&& m.playlist_title == text_of_either(value, "playlist_title"@, "title"@)
            &&& text_of(value, "_type"@) is Some ==> (m.is_playlist <==> text_of(value, "_type"@)
                == Some("playlist"@))
            &&& text_of(value, "_type"@) is None ==> (m.is_playlist <==> json::member(
                value,
                "entries"@,
            ) is Some)
            &&& number_of(value, "playlist_count"@) is Some ==> m.playlist_count == number_of(
                value,
                "playlist_count"@,
            )
            &&& json::member(value, "entries"@) !is Some || json::member(value, "entries"@)->0
                !is Array ==> m.entries.len() == 0 && m.playlist_count == number_of(
                value,
                "playlist_count"@,
            )
        }),
{
}

proof fn lemma_entries(url: Seq<char>, values: Seq<JsonView>)
    ensures
        resolve::entries_in(url, values) == values.filter(
            |v: JsonView| v is Object,
        ).map_values(|v: JsonView| resolve::entry_in(url, v)->0),
        resolve::object_count(values) == values.filter(|v: JsonView| v is Object).len(),
    decreases values.len(),
{
    reveal(Seq::filter);
    let pred = |v: JsonView| v is Object;
    let make = |v: JsonView| resolve::entry_in(url, v)->0;
    if values.len() > 0 {
        let head = values.drop_last();
        lemma_entries(url, head);
        if values.last() is Object {
            assert(head.filter(pred).push(values.last()).map_values(make) =~= head.filter(
                pred,
            ).map_values(make).push(make(values.last())));
        }
        assert(resolve::entries_in(url, values) =~= values.filter(pred).map_values(make));
    } else {
        assert(resolve::entries_in(url, values) =~= values.filter(pred).map_values(make));
    }
}

/// A playlist has an item for each object that its document lists, in that order, and no other; and
/// where the document does not say how many there are, that many.
pub proof fn every_entry_is_an_item(url: Seq<char>, value: JsonView, items: Seq<JsonView>)
    requires
        json::member(value, "entries"@) == Some(JsonView::Array(items)),
    ensures
        ({
            let m = resolve::media_in(url, value);
            let objects = items.filter(|v: JsonView| v is Object);
            &&& m.entries.len() == objects.len()
            &&& forall|k: int|
                0 <= k < objects.len() ==> resolve::entry_in(url, #[trigger] objects[k]) == Some(
                    m.entries[k],
                )
            &&& number_of(value, "playlist_count"@) is None ==> m.playlist_count == Some(
                objects.len() as u64,
            )
        }),
{
    lemma_entries(url, items);
    let pred = |v: JsonView| v is Object;
    let objects = items.filter(pred);
    let m = resolve::media_in(url, value);
    assert forall|k: int| 0 <= k < objects.len() implies resolve::entry_in(
        url,
        #[trigger] objects[k],
    ) == Some(m.entries[k]) by {
        items.lemma_filter_pred(pred, k);
    }
}

/// Of an item of a playlist each member of its object says one thing, and one without a title is
/// called `Untitled`. Its address is the first that is stated, if that is a web address; else that
/// of the video on YouTube, where it is one; else that of the playlist.
pub proof fn an_item_is_what_its_object_says(url: Seq<char>, value: JsonView)
    ensures
        value !is Object ==> resolve::entry_in(url, value) is None,
        value is Object ==> resolve::entry_in(url, value) is Some && ({
            let e = resolve::entry_in(url, value)->0;
            let stated = match json::member(value, "webpage_url"@) {
                Some(v) => Some(v),
                None => match json::member(value, "original_url"@) {
                    Some(v) => Some(v),
                    None => json::member(value, "url"@),
                },
            };
            let on_youtube = match e.extractor {
                Some(name) => text::occurs(text::lowered(name), "youtube"@),
                None => false,
            };
            &&& text_of(value, "title"@) is Some ==> Some(e.title) == text_of(value, "title"@)
            &&& text_of(value, "title"@) is None ==> e.title == "Untitled"@
            &&& e.extractor == text_of(value, "extractor"@)
            &&& e.video_id == text_of(value, "id"@)
            &&& e.uploader == text_of_either(value, "uploader"@, "channel"@)
            &&& e.duration_seconds == number_of(value, "duration"@)
            &&& e.thumbnail_url == text_of(value, "thumbnail"@)
            &&& e.estimated_size_bytes == number_of_either(
                value,
                "filesize_approx"@,
                "filesize"@,
            )
            &&& e.playlist_index == number_of_either(
                value,
                "playlist_index"@,
                "playlist_autonumber"@,
            )
            &&& match stated {
                Some(JsonView::Text(s)) if text::begins(s, "http://"@) || text::begins(
                    s,
                    "https://"@,
                ) => e.source_url == s,
                _ => if on_youtube && e.video_id is Some {
                    e.source_url == "https://www.youtube.com/watch?v="@ + e.video_id->0
                } else {
                    e.source_url == url
                },
            }
        }),
{
}

/// A language is offered exactly when the document names it among the subtitles or among the
/// automatic captions, only once, and as generated exactly when it is not among the subtitles.
/// What was written comes before what was generated, and each part is in the order of the codes.
pub proof fn every_language_is_offered_once(
    url: Seq<char>,
    value: JsonView,
    code: Seq<char>,
    i: int,
    j: int,
)
    ensures
        ({
            let all = resolve::media_in(url, value).available_subtitles;
            let written = json::member(value, "subtitles"@);
            let generated = json::member(value, "automatic_captions"@);
            &&& (exists|k: int| 0 <= k < all.len() && (#[trigger] all[k]).language_code == code)
                <==> names(written, code) || names(generated, code)
            &&& 0 <= i < all.len() ==> (all[i].is_auto <==> !names(
                written,
                all[i].language_code,
            ))
            &&& 0 <= i < j < all.len() ==> {
                &&& all[i].language_code != all[j].language_code
                &&& all[i].is_auto ==> all[j].is_auto
                &&& all[i].is_auto == all[j].is_auto ==> order::lex_le(
                    all[i].language_code,
                    all[j].language_code,
                )
            }
        }),
{
    let all = resolve::media_in(url, value).available_subtitles;
    let written = json::member(value, "subtitles"@);
    let generated = json::member(value, "automatic_captions"@);
    resolve::languages_are_offered(value, code);
    lemma_names(written, code);
    lemma_names(generated, code);
    assert(resolve::offered(all, code) <==> exists|k: int|
        0 <= k < all.len() && (#[trigger] all[k]).language_code == code);
    if 0 <= i < all.len() {
        lemma_names(written, all[i].language_code);
        assert(all[i].is_auto <==> !json::names_in(written).contains(all[i].language_code));
    }
    if 0 <= i < j < all.len() {
        let key = resolve::subtitle_key();
        let a = key(all[i]);
        let b = key(all[j]);
        assert(order::lex_le(a, b));
        assert(a.skip(1) =~= all[i].language_code);
        assert(b.skip(1) =~= all[j].language_code);
        assert(a[0] == (if all[i].is_auto {
            '1'
        } else {
            '0'
        }));
        assert(b[0] == (if all[j].is_auto {
            '1'
        } else {
            '0'
        }));
    }
}

/// The value is an object that has a member of this name.
pub open spec fn names(value: Option<JsonView>, name: Seq<char>) -> bool {
    value matches Some(JsonView::Object(entries)) && exists|k: int|
        0 <= k < entries.len() && (#[trigger] entries[k]).0 == name
}

proof fn lemma_names(value: Option<JsonView>, name: Seq<char>)
    ensures
        json::names_in(value).contains(name) <==> names(value, name),
{
    let list = json::names_in(value);
    match value {
        Some(JsonView::Object(entries)) => {
            if list.contains(name) {
                let k = choose|k: int| 0 <= k < list.len() && list[k] == name;
                assert(entries[k].0 == name);
            }
            if names(value, name) {
                let k = choose|k: int| 0 <= k < entries.len() && (#[trigger] entries[k]).0 == name;
                assert(list[k] == name);
            }
        },
        _ => {},
    }
}

}
