//! What yt-dlp says of a URL.
use vstd::hash_set::StringHashSet;
use vstd::prelude::*;

use crate::json;
use crate::json::{Json, JsonView};
use crate::order;
use crate::tasks::requests;
use crate::tasks::requests::{
    EntryView, MediaView, ResolvedMedia, ResolvedPlaylistEntry, SubtitleOption, SubtitleView,
};
use crate::text;

verus! {

// ---------------------------------------------------------------------------
// Items of a playlist
// ---------------------------------------------------------------------------

/// A web address.
pub open spec fn web_address(url: Seq<char>) -> bool {
    text::begins(url, "http://"@) || text::begins(url, "https://"@)
}

/// Whether this is a web address.
pub fn is_web_address(url: &str) -> (r: bool)
    ensures
        r == web_address(url@),
{
    text::starts_with(url, "http://") || text::starts_with(url, "https://")
}

/// An extractor for YouTube.
pub open spec fn for_youtube(extractor: Option<Seq<char>>) -> bool {
    extractor matches Some(e) && text::occurs(text::lowered(e), "youtube"@)
}

/// Whether this is an extractor for YouTube.
pub fn is_for_youtube(extractor: Option<&str>) -> (r: bool)
    ensures
        r == for_youtube(text::str_opt(extractor)),
{
    match extractor {
        Some(e) => text::contains(text::to_lower(e).as_str(), "youtube"),
        None => false,
    }
}

/// The address of a video on YouTube.
pub open spec fn watch_address(video_id: Seq<char>) -> Seq<char> {
    "https://www.youtube.com/watch?v="@ + video_id
}

/// The address of an item: the one that is stated, if it is one; else the one on YouTube, where
/// it is a video from there; else that of the playlist.
pub open spec fn entry_address(
    stated: Option<Seq<char>>,
    extractor: Option<Seq<char>>,
    video_id: Option<Seq<char>>,
    playlist_url: Seq<char>,
) -> Seq<char> {
    if stated is Some && web_address(stated->0) {
        stated->0
    } else if for_youtube(extractor) && video_id is Some {
        watch_address(video_id->0)
    } else {
        playlist_url
    }
}

/// The address of an item.
pub fn choose_entry_address(
    stated: Option<String>,
    extractor: Option<&str>,
    video_id: Option<&str>,
    playlist_url: &str,
) -> (r: String)
    ensures
        r@ == entry_address(
            text::text_opt(stated),
            text::str_opt(extractor),
            text::str_opt(video_id),
            playlist_url@,
        ),
{
    if let Some(url) = stated {
        if is_web_address(url.as_str()) {
            return url;
        }
    }
    if is_for_youtube(extractor) {
        if let Some(id) = video_id {
            return text::joined("https://www.youtube.com/watch?v=", id);
        }
    }
    playlist_url.to_owned()
}

/// The first member that is there of three.
pub open spec fn any_of_three(
    value: JsonView,
    a: Seq<char>,
    b: Seq<char>,
    c: Seq<char>,
) -> Option<JsonView> {
    match json::either(value, a, b) {
        Some(found) => Some(found),
        None => json::member(value, c),
    }
}

/// The string, or a stand-in where there is none.
pub open spec fn text_or(value: Option<Seq<char>>, other: Seq<char>) -> Seq<char> {
    match value {
        Some(s) => s,
        None => other,
    }
}

fn text_else(value: Option<String>, other: &str) -> (r: String)
    ensures
        r@ == text_or(text::text_opt(value), other@),
{
    match value {
        Some(s) => s,
        None => other.to_owned(),
    }
}

/// What a document says of an item of a playlist; `None` where it is no object.
pub open spec fn entry_in(playlist_url: Seq<char>, value: JsonView) -> Option<EntryView> {
    if value is Object {
        let extractor = json::text_in(json::member(value, "extractor"@));
        let video_id = json::text_in(json::member(value, "id"@));
        Some(
            EntryView {
                source_url: entry_address(
                    json::text_in(
                        any_of_three(value, "webpage_url"@, "original_url"@, "url"@),
                    ),
                    extractor,
                    video_id,
                    playlist_url,
                ),
                title: text_or(json::text_in(json::member(value, "title"@)), "Untitled"@),
                extractor,
                video_id,
                uploader: json::text_in(json::either(value, "uploader"@, "channel"@)),
                duration_seconds: json::number_in(json::member(value, "duration"@)),
                thumbnail_url: json::text_in(json::member(value, "thumbnail"@)),
                estimated_size_bytes: json::number_in(
                    json::either(value, "filesize_approx"@, "filesize"@),
                ),
                playlist_index: json::number_in(
                    json::either(value, "playlist_index"@, "playlist_autonumber"@),
                ),
            },
        )
    } else {
        None
    }
}

/// What an item that may be absent says.
pub open spec fn entry_opt(entry: Option<ResolvedPlaylistEntry>) -> Option<EntryView> {
    match entry {
        Some(e) => Some(e@),
        None => None,
    }
}

/// What a document says of an item of a playlist; `None` where it is no object.
pub fn resolve_playlist_entry(playlist_url: &str, value: &Json) -> (r: Option<
    ResolvedPlaylistEntry,
>)
    ensures
        entry_opt(r) == entry_in(playlist_url@, value@),
{
    if !value.is_object() {
        return None;
    }
    let extractor = json::as_text(value.get("extractor"));
    let video_id = json::as_text(value.get("id"));
    let stated = match value.get_either("webpage_url", "original_url") {
        Some(found) => Some(found),
        None => value.get("url"),
    };
    let source_url = choose_entry_address(
        json::as_text(stated),
        text::borrow_opt(&extractor),
        text::borrow_opt(&video_id),
        playlist_url,
    );
    Some(
        ResolvedPlaylistEntry {
            source_url,
            title: text_else(json::as_text(value.get("title")), "Untitled"),
            extractor,
            video_id,
            uploader: json::as_text(value.get_either("uploader", "channel")),
            duration_seconds: json::as_number(value.get("duration")),
            thumbnail_url: json::as_text(value.get("thumbnail")),
            estimated_size_bytes: json::as_number(
                value.get_either("filesize_approx", "filesize"),
            ),
            playlist_index: json::as_number(
                value.get_either("playlist_index", "playlist_autonumber"),
            ),
        },
    )
}

/// The items that these documents speak of, those that are objects.
pub open spec fn entries_in(playlist_url: Seq<char>, values: Seq<JsonView>) -> Seq<EntryView>
    decreases values.len(),
{
    if values.len() == 0 {
        Seq::empty()
    } else {
        let rest = entries_in(playlist_url, values.drop_last());
        match entry_in(playlist_url, values.last()) {
            Some(entry) => rest.push(entry),
            None => rest,
        }
    }
}

fn resolve_entries(playlist_url: &str, values: &Vec<Json>) -> (r: Vec<ResolvedPlaylistEntry>)
    ensures
        requests::entries_view(r@) == entries_in(playlist_url@, json::values_view(values@)),
{
    let ghost all = json::values_view(values@);
    let mut entries: Vec<ResolvedPlaylistEntry> = Vec::new();
    let mut i: usize = 0;
    assert(all.take(0) =~= Seq::<JsonView>::empty());
    assert(requests::entries_view(entries@) =~= entries_in(playlist_url@, all.take(0)));
    while i < values.len()
        invariant
            i <= values.len(),
            all == json::values_view(values@),
            requests::entries_view(entries@) == entries_in(playlist_url@, all.take(i as int)),
        decreases values.len() - i,
    {
        let ghost before = entries@;
        assert(all.take(i + 1).drop_last() =~= all.take(i as int));
        assert(all.take(i + 1).last() == values@[i as int]@);
        if let Some(entry) = resolve_playlist_entry(playlist_url, &values[i]) {
            entries.push(entry);
            assert(requests::entries_view(entries@) =~= requests::entries_view(before).push(
                entry@,
            ));
        }
        i = i + 1;
    }
    assert(all.take(i as int) =~= all);
    entries
}

/// How many of the documents are objects.
pub open spec fn object_count(values: Seq<JsonView>) -> nat
    decreases values.len(),
{
    if values.len() == 0 {
        0
    } else if values.last() is Object {
        object_count(values.drop_last()) + 1
    } else {
        object_count(values.drop_last())
    }
}

fn count_objects(values: &Vec<Json>) -> (r: u64)
    ensures
        r == object_count(json::values_view(values@)),
{
    let ghost all = json::values_view(values@);
    let mut n: usize = 0;
    let mut i: usize = 0;
    assert(all.take(0) =~= Seq::<JsonView>::empty());
    while i < values.len()
        invariant
            i <= values.len(),
            n <= i,
            all == json::values_view(values@),
            n == object_count(all.take(i as int)),
        decreases values.len() - i,
    {
        assert(all.take(i + 1).drop_last() =~= all.take(i as int));
        assert(all.take(i + 1).last() == values@[i as int]@);
        if values[i].is_object() {
            n = n + 1;
        }
        i = i + 1;
    }
    assert(all.take(i as int) =~= all);
    n as u64
}

// ---------------------------------------------------------------------------
// Qualities
// ---------------------------------------------------------------------------

/// The height of a video format, as far as a picture is in it; `None` where there is none.
pub open spec fn height_in(format: JsonView) -> Option<u32> {
    if json::text_in(json::member(format, "vcodec"@)) == Some("none"@) {
        None
    } else {
        match json::number_in(json::member(format, "height"@)) {
            Some(h) => if h % 0x1_0000_0000 == 0 {
                None
            } else {
                Some((h % 0x1_0000_0000) as u32)
            },
            None => None,
        }
    }
}

/// The list with one more height, greatest first, each only once.
pub open spec fn ranked(list: Seq<u32>, height: u32) -> Seq<u32>
    decreases list.len(),
{
    if list.len() == 0 || height > list[0] {
        seq![height] + list
    } else if height == list[0] {
        list
    } else {
        seq![list[0]] + ranked(list.skip(1), height)
    }
}

/// The heights of these formats, greatest first, each only once.
pub open spec fn heights_in(formats: Seq<JsonView>) -> Seq<u32>
    decreases formats.len(),
{
    if formats.len() == 0 {
        Seq::empty()
    } else {
        let rest = heights_in(formats.drop_last());
        match height_in(formats.last()) {
            Some(h) => ranked(rest, h),
            None => rest,
        }
    }
}

/// What a height is called.
pub open spec fn height_label(height: u32) -> Seq<char> {
    text::decimal(height as nat).push('p')
}

/// The qualities in which a video can be had.
pub open spec fn qualities_in(value: JsonView) -> Seq<Seq<char>> {
    match json::items_in(json::member(value, "formats"@)) {
        Some(formats) => {
            let heights = heights_in(formats);
            Seq::new(heights.len(), |i: int| height_label(heights[i]))
        },
        None => Seq::empty(),
    }
}

fn format_height(format: &Json) -> (r: Option<u32>)
    ensures
        r == height_in(format@),
{
    if let Some(codec) = json::as_text(format.get("vcodec")) {
        if text::same(codec.as_str(), "none") {
            return None;
        }
    }
    match json::as_number(format.get("height")) {
        Some(h) => {
            let low: u64 = h % 0x1_0000_0000;
            if low == 0 {
                None
            } else {
                Some(low as u32)
            }
        },
        None => None,
    }
}

proof fn lemma_ranked_at(list: Seq<u32>, height: u32, k: int)
    requires
        0 <= k <= list.len(),
        forall|i: int| 0 <= i < k ==> #[trigger] list[i] > height,
        k < list.len() ==> list[k] <= height,
    ensures
        ranked(list, height) == (if k < list.len() && list[k] == height {
            list
        } else {
            list.insert(k, height)
        }),
    decreases k,
{
    if k == 0 {
        if list.len() == 0 || height > list[0] {
            assert(seq![height] + list =~= list.insert(0, height));
        }
    } else {
        let rest = list.skip(1);
        assert(list[0] > height);
        assert forall|i: int| 0 <= i < k - 1 implies #[trigger] rest[i] > height by {
            assert(rest[i] == list[i + 1]);
        }
        if k < list.len() {
            assert(rest[k - 1] == list[k]);
        }
        lemma_ranked_at(rest, height, k - 1);
        if k < list.len() && list[k] == height {
            assert(seq![list[0]] + rest =~= list);
        } else {
            assert(seq![list[0]] + rest.insert(k - 1, height) =~= list.insert(k, height));
        }
    }
}

fn rank(list: &mut Vec<u32>, height: u32)
    ensures
        final(list)@ == ranked(old(list)@, height),
{
    let mut k: usize = 0;
    while k < list.len() && list[k] > height
        invariant
            k <= list.len(),
            list@ == old(list)@,
            forall|i: int| 0 <= i < k ==> #[trigger] list@[i] > height,
        decreases list.len() - k,
    {
        k = k + 1;
    }
    proof {
        lemma_ranked_at(list@, height, k as int);
    }
    if k < list.len() && list[k] == height {
    } else {
        list.insert(k, height);
    }
}

/// The qualities in which a video can be had.
pub fn extract_available_qualities(value: &Json) -> (r: Vec<String>)
    ensures
        text::texts(r@) == qualities_in(value@),
{
    let mut labels: Vec<String> = Vec::new();
    if let Some(formats) = json::as_items(value.get("formats")) {
        let ghost all = json::values_view(formats@);
        let mut heights: Vec<u32> = Vec::new();
        let mut i: usize = 0;
        assert(all.take(0) =~= Seq::<JsonView>::empty());
        assert(heights@ =~= heights_in(all.take(0)));
        while i < formats.len()
            invariant
                i <= formats.len(),
                all == json::values_view(formats@),
                heights@ == heights_in(all.take(i as int)),
            decreases formats.len() - i,
        {
            assert(all.take(i + 1).drop_last() =~= all.take(i as int));
            assert(all.take(i + 1).last() == formats@[i as int]@);
            if let Some(h) = format_height(&formats[i]) {
                rank(&mut heights, h);
            }
            i = i + 1;
        }
        assert(all.take(i as int) =~= all);
        let mut k: usize = 0;
        while k < heights.len()
            invariant
                k <= heights.len(),
                labels.len() == k,
                forall|j: int|
                    0 <= j < k ==> (#[trigger] labels@[j])@ == height_label(heights@[j]),
            decreases heights.len() - k,
        {
            let mut label = text::to_decimal(heights[k] as u64);
            label.push('p');
            labels.push(label);
            k = k + 1;
        }
    }
    assert(text::texts(labels@) =~= qualities_in(value@));
    labels
}

// ---------------------------------------------------------------------------
// Subtitles
// ---------------------------------------------------------------------------

/// The options with one for each of these languages that has none yet.
pub open spec fn with_languages(
    options: Seq<SubtitleView>,
    codes: Seq<Seq<char>>,
    is_auto: bool,
) -> Seq<SubtitleView>
    decreases codes.len(),
{
    if codes.len() == 0 {
        options
    } else {
        let before = with_languages(options, codes.drop_last(), is_auto);
        if offered(before, codes.last()) {
            before
        } else {
            before.push(SubtitleView { language_code: codes.last(), is_auto })
        }
    }
}

/// There is an option for this language.
pub open spec fn offered(options: Seq<SubtitleView>, code: Seq<char>) -> bool {
    exists|i: int| 0 <= i < options.len() && (#[trigger] options[i]).language_code == code
}

/// What subtitles are sorted by: those that were written before those that were generated, then
/// by language.
pub open spec fn subtitle_key() -> spec_fn(SubtitleView) -> Seq<char> {
    |option: SubtitleView|
        seq![
            if option.is_auto {
                '1'
            } else {
                '0'
            },
        ] + option.language_code
}

/// The subtitles that can be had, in order.
pub open spec fn subtitles_in(value: JsonView) -> Seq<SubtitleView> {
    let written = json::names_in(json::member(value, "subtitles"@));
    let generated = json::names_in(json::member(value, "automatic_captions"@));
    order::sorted_by(
        with_languages(with_languages(Seq::empty(), written, false), generated, true),
        subtitle_key(),
    )
}

/// The index of languages knows exactly those for which there is an option.
pub open spec fn languages_fit(
    seen: Set<Seq<char>>,
    options: Seq<SubtitleView>,
) -> bool {
    forall|code: Seq<char>| #[trigger] seen.contains(code) <==> offered(options, code)
}

proof fn lemma_offered_push(options: Seq<SubtitleView>, option: SubtitleView, code: Seq<char>)
    ensures
        offered(options.push(option), code) <==> offered(options, code) || code
            == option.language_code,
{
    let more = options.push(option);
    if offered(options, code) {
        let i = choose|i: int|
            0 <= i < options.len() && (#[trigger] options[i]).language_code == code;
        assert(more[i].language_code == code);
    }
    if code == option.language_code {
        assert(more[options.len() as int].language_code == code);
    }
    if offered(more, code) && code != option.language_code {
        let i = choose|i: int| 0 <= i < more.len() && (#[trigger] more[i]).language_code == code;
        assert(options[i].language_code == code);
    }
}

fn add_languages(
    options: &mut Vec<SubtitleOption>,
    seen: &mut StringHashSet,
    codes: &Vec<String>,
    is_auto: bool,
)
    requires
        languages_fit(old(seen)@, requests::subtitles_view(old(options)@)),
    ensures
        languages_fit(final(seen)@, requests::subtitles_view(final(options)@)),
        requests::subtitles_view(final(options)@) == with_languages(
            requests::subtitles_view(old(options)@),
            text::texts(codes@),
            is_auto,
        ),
{
    let ghost all = text::texts(codes@);
    let ghost start = requests::subtitles_view(options@);
    let mut i: usize = 0;
    assert(all.take(0) =~= Seq::<Seq<char>>::empty());
    while i < codes.len()
        invariant
            i <= codes.len(),
            all == text::texts(codes@),
            languages_fit(seen@, requests::subtitles_view(options@)),
            requests::subtitles_view(options@) == with_languages(
                start,
                all.take(i as int),
                is_auto,
            ),
        decreases codes.len() - i,
    {
        let ghost before = requests::subtitles_view(options@);
        let ghost code = codes@[i as int]@;
        assert(all.take(i + 1).drop_last() =~= all.take(i as int));
        assert(all.take(i + 1).last() == code);
        let ghost seen_before = seen@;
        if seen.insert(codes[i].clone()) {
            options.push(SubtitleOption { language_code: codes[i].clone(), is_auto });
            let ghost option = SubtitleView { language_code: code, is_auto };
            assert(requests::subtitles_view(options@) =~= before.push(option));
            assert forall|c: Seq<char>| #[trigger] seen@.contains(c) <==> offered(
                requests::subtitles_view(options@),
                c,
            ) by {
                lemma_offered_push(before, option, c);
                assert(seen_before.contains(c) <==> offered(before, c));
            }
        } else {
            assert(seen@ =~= seen_before);
        }
        i = i + 1;
    }
    assert(all.take(i as int) =~= all);
}

/// The subtitles that can be had.
pub fn extract_available_subtitles(value: &Json) -> (r: Vec<SubtitleOption>)
    ensures
        requests::subtitles_view(r@) == subtitles_in(value@),
{
    let written = json::as_names(value.get("subtitles"));
    let generated = json::as_names(value.get("automatic_captions"));
    let mut options: Vec<SubtitleOption> = Vec::new();
    let mut seen = StringHashSet::new();
    assert(requests::subtitles_view(options@) =~= Seq::<SubtitleView>::empty());
    add_languages(&mut options, &mut seen, &written, false);
    add_languages(&mut options, &mut seen, &generated, true);
    let ghost unsorted = requests::subtitles_view(options@);
    let mut keyed: Vec<(Vec<char>, SubtitleOption)> = Vec::new();
    let mut i: usize = 0;
    while i < options.len()
        invariant
            i <= options.len(),
            keyed.len() == i,
            forall|j: int|
                0 <= j < i ==> (#[trigger] keyed@[j]).1@ == options@[j]@ && keyed@[j].0@
                    == subtitle_key()(options@[j]@),
        decreases options.len() - i,
    {
        let mut key: Vec<char> = Vec::new();
        key.push(
            if options[i].is_auto {
                '1'
            } else {
                '0'
            },
        );
        let mut rest = text::chars_of(options[i].language_code.as_str());
        let ghost flag = key@;
        key.append(&mut rest);
        assert(key@ =~= subtitle_key()(options@[i as int]@));
        keyed.push((key, options[i].clone()));
        i = i + 1;
    }
    let ghost pairs = keyed@;
    let ghost key_of = |p: (Vec<char>, SubtitleOption)| p.0@;
    let ghost option_of = |p: (Vec<char>, SubtitleOption)| p.1@;
    let sorted = order::sort_keyed(keyed);
    proof {
        assert(pairs.map_values(option_of) =~= unsorted);
        order::lemma_sorted_maps(pairs, key_of, option_of, subtitle_key());
    }
    let ghost expected = subtitles_in(value@);
    assert(sorted@.map_values(option_of) == expected);
    let mut r: Vec<SubtitleOption> = Vec::new();
    let mut k: usize = 0;
    while k < sorted.len()
        invariant
            k <= sorted.len(),
            r.len() == k,
            forall|j: int| 0 <= j < k ==> (#[trigger] r@[j])@ == sorted@[j].1@,
        decreases sorted.len() - k,
    {
        r.push(sorted[k].1.clone());
        k = k + 1;
    }
    assert(requests::subtitles_view(r@) =~= sorted@.map_values(option_of));
    r
}

// ---------------------------------------------------------------------------
// The whole document
// ---------------------------------------------------------------------------

/// The document speaks of a playlist.
pub open spec fn speaks_of_playlist(value: JsonView) -> bool {
    match json::text_in(json::member(value, "_type"@)) {
        Some(kind) => kind == "playlist"@,
        None => json::member(value, "entries"@) is Some,
    }
}

/// Whether the document speaks of a playlist.
pub fn is_playlist(value: &Json) -> (r: bool)
    ensures
        r == speaks_of_playlist(value@),
{
    match json::as_text(value.get("_type")) {
        Some(kind) => text::same(kind.as_str(), "playlist"),
        None => value.get("entries").is_some(),
    }
}

/// How many items the playlist has: what the document says, or else how many it lists.
pub open spec fn count_in(value: JsonView) -> Option<u64> {
    match json::number_in(json::member(value, "playlist_count"@)) {
        Some(n) => Some(n),
        None => match json::items_in(json::member(value, "entries"@)) {
            Some(items) => Some(object_count(items) as u64),
            None => None,
        },
    }
}

/// What a document says of the media behind a URL.
pub open spec fn media_in(url: Seq<char>, value: JsonView) -> MediaView {
    MediaView {
        source_url: url,
        title: text_or(json::text_in(json::member(value, "title"@)), "Untitled"@),
        extractor: json::text_in(json::member(value, "extractor"@)),
        video_id: json::text_in(json::member(value, "id"@)),
        uploader: json::text_in(json::either(value, "uploader"@, "channel"@)),
        duration_seconds: json::number_in(json::member(value, "duration"@)),
        thumbnail_url: json::text_in(json::member(value, "thumbnail"@)),
        estimated_size_bytes: json::number_in(
            json::either(value, "filesize_approx"@, "filesize"@),
        ),
        is_playlist: speaks_of_playlist(value),
        playlist_title: json::text_in(json::either(value, "playlist_title"@, "title"@)),
        playlist_count: count_in(value),
        entries: match json::items_in(json::member(value, "entries"@)) {
            Some(items) => entries_in(url, items),
            None => Seq::empty(),
        },
        available_qualities: qualities_in(value),
        available_subtitles: subtitles_in(value),
    }
}

/// What a document says of the media behind a URL.
pub fn resolve_from_json(url: &str, value: &Json) -> (r: ResolvedMedia)
    ensures
        r@ == media_in(url@, value@),
{
    let items = json::as_items(value.get("entries"));
    let playlist_count = match json::as_number(value.get("playlist_count")) {
        Some(n) => Some(n),
        None => match items {
            Some(list) => Some(count_objects(list)),
            None => None,
        },
    };
    let entries = match items {
        Some(list) => resolve_entries(url, list),
        None => Vec::new(),
    };
    let media = ResolvedMedia {
        source_url: url.to_owned(),
        title: text_else(json::as_text(value.get("title")), "Untitled"),
        extractor: json::as_text(value.get("extractor")),
        video_id: json::as_text(value.get("id")),
        uploader: json::as_text(value.get_either("uploader", "channel")),
        duration_seconds: json::as_number(value.get("duration")),
        thumbnail_url: json::as_text(value.get("thumbnail")),
        estimated_size_bytes: json::as_number(value.get_either("filesize_approx", "filesize")),
        is_playlist: is_playlist(value),
        playlist_title: json::as_text(value.get_either("playlist_title", "title")),
        playlist_count,
        entries,
        available_qualities: extract_available_qualities(value),
        available_subtitles: extract_available_subtitles(value),
    };
    assert(media@ =~= media_in(url@, value@));
    media
}

// ---------------------------------------------------------------------------
// Laws of what is offered
// ---------------------------------------------------------------------------

/// Greatest first, each only once.
pub open spec fn falling(list: Seq<u32>) -> bool {
    forall|i: int, j: int| 0 <= i < j < list.len() ==> #[trigger] list[i] > #[trigger] list[j]
}

proof fn lemma_ranked(list: Seq<u32>, height: u32, other: u32)
    requires
        falling(list),
    ensures
        falling(ranked(list, height)),
        ranked(list, height).contains(other) <==> list.contains(other) || other == height,
        ranked(list, height).len() > 0 && (list.len() == 0 || ranked(list, height)[0] == list[0]
            || ranked(list, height)[0] == height),
    decreases list.len(),
{
    let r = ranked(list, height);
    if list.len() == 0 || height > list[0] {
        assert(r[0] == height);
        assert forall|i: int, j: int| 0 <= i < j < r.len() implies #[trigger] r[i]
            > #[trigger] r[j] by {
            assert(r[j] == list[j - 1]);
            if i > 0 {
                assert(r[i] == list[i - 1]);
            }
        }
        if list.contains(other) {
            let k = choose|k: int| 0 <= k < list.len() && list[k] == other;
            assert(r[k + 1] == other);
        }
        if r.contains(other) && other != height {
            let k = choose|k: int| 0 <= k < r.len() && r[k] == other;
            assert(list[k - 1] == other);
        }
    } else if height == list[0] {
    } else {
        let rest = list.skip(1);
        let tail = ranked(rest, height);
        assert(falling(rest)) by {
            assert forall|i: int, j: int| 0 <= i < j < rest.len() implies #[trigger] rest[i]
                > #[trigger] rest[j] by {
                assert(rest[i] == list[i + 1] && rest[j] == list[j + 1]);
            }
        }
        lemma_ranked(rest, height, other);
        assert forall|i: int, j: int| 0 <= i < j < r.len() implies #[trigger] r[i]
            > #[trigger] r[j] by {
            assert(r[j] == tail[j - 1]);
            if i > 0 {
                assert(r[i] == tail[i - 1]);
            } else {
                assert(r[0] == list[0]);
                assert(tail.contains(tail[j - 1]));
                lemma_ranked(rest, height, tail[j - 1]);
                if rest.contains(tail[j - 1]) {
                    let k = choose|k: int| 0 <= k < rest.len() && rest[k] == tail[j - 1];
                    assert(list[k + 1] == tail[j - 1]);
                }
            }
        }
        if list.contains(other) {
            let k = choose|k: int| 0 <= k < list.len() && list[k] == other;
            if k > 0 {
                assert(rest[k - 1] == other);
                let m = choose|m: int| 0 <= m < tail.len() && tail[m] == other;
                assert(r[m + 1] == other);
            } else {
                assert(r[0] == other);
            }
        }
        if other == height {
            let m = choose|m: int| 0 <= m < tail.len() && tail[m] == other;
            assert(r[m + 1] == other);
        }
        if r.contains(other) {
            let k = choose|k: int| 0 <= k < r.len() && r[k] == other;
            if k > 0 {
                assert(tail[k - 1] == other);
                if rest.contains(other) {
                    let m = choose|m: int| 0 <= m < rest.len() && rest[m] == other;
                    assert(list[m + 1] == other);
                }
            } else {
                assert(list[0] == other);
            }
        }
    }
}

/// The heights that are offered fall from the greatest to the least, each stands there once, and
/// they are exactly those of the formats with a picture.
pub proof fn heights_fall(formats: Seq<JsonView>, height: u32)
    ensures
        falling(heights_in(formats)),
        heights_in(formats).contains(height) <==> exists|i: int|
            0 <= i < formats.len() && height_in(#[trigger] formats[i]) == Some(height),
    decreases formats.len(),
{
    if formats.len() > 0 {
        let head = formats.drop_last();
        heights_fall(head, height);
        let rest = heights_in(head);
        match height_in(formats.last()) {
            Some(h) => {
                lemma_ranked(rest, h, height);
                if h == height {
                    assert(height_in(formats[formats.len() - 1]) == Some(height));
                }
            },
            None => {},
        }
        if exists|i: int| 0 <= i < head.len() && height_in(#[trigger] head[i]) == Some(height) {
            let i = choose|i: int|
                0 <= i < head.len() && height_in(#[trigger] head[i]) == Some(height);
            assert(height_in(formats[i]) == Some(height));
        }
        if exists|i: int|
            0 <= i < formats.len() && height_in(#[trigger] formats[i]) == Some(height) {
            let i = choose|i: int|
                0 <= i < formats.len() && height_in(#[trigger] formats[i]) == Some(height);
            if i < head.len() {
                assert(height_in(head[i]) == Some(height));
            }
        }
    }
}

proof fn lemma_with_languages(
    options: Seq<SubtitleView>,
    codes: Seq<Seq<char>>,
    is_auto: bool,
    code: Seq<char>,
)
    ensures
        offered(with_languages(options, codes, is_auto), code) <==> offered(options, code)
            || codes.contains(code),
    decreases codes.len(),
{
    if codes.len() > 0 {
        let head = codes.drop_last();
        let before = with_languages(options, head, is_auto);
        lemma_with_languages(options, head, is_auto, code);
        lemma_with_languages(options, head, is_auto, codes.last());
        lemma_offered_push(
            before,
            SubtitleView { language_code: codes.last(), is_auto },
            code,
        );
        assert(codes.contains(code) <==> head.contains(code) || code == codes.last()) by {
            if head.contains(code) {
                let k = choose|k: int| 0 <= k < head.len() && head[k] == code;
                assert(codes[k] == code);
            }
            if code == codes.last() {
                assert(codes[codes.len() - 1] == code);
            }
            if codes.contains(code) && code != codes.last() {
                let k = choose|k: int| 0 <= k < codes.len() && codes[k] == code;
                assert(head[k] == code);
            }
        }
    }
}

/// No language is offered twice.
pub open spec fn languages_differ(options: Seq<SubtitleView>) -> bool {
    forall|i: int, j: int|
        0 <= i < j < options.len() ==> (#[trigger] options[i]).language_code != (
        #[trigger] options[j]).language_code
}

proof fn lemma_languages_differ(
    options: Seq<SubtitleView>,
    codes: Seq<Seq<char>>,
    is_auto: bool,
)
    requires
        languages_differ(options),
    ensures
        ({
            let all = with_languages(options, codes, is_auto);
            &&& languages_differ(all)
            &&& options.is_prefix_of(all)
            &&& forall|i: int|
                options.len() <= i < all.len() ==> (#[trigger] all[i]).is_auto == is_auto
                    && !offered(options, all[i].language_code)
        }),
    decreases codes.len(),
{
    if codes.len() > 0 {
        let before = with_languages(options, codes.drop_last(), is_auto);
        let all = with_languages(options, codes, is_auto);
        lemma_languages_differ(options, codes.drop_last(), is_auto);
        if !offered(before, codes.last()) {
            assert forall|i: int| 0 <= i < before.len() implies (#[trigger] all[i]).language_code
                != codes.last() by {
                assert(before[i].language_code != codes.last());
            }
            assert(!offered(options, codes.last())) by {
                if offered(options, codes.last()) {
                    let k = choose|k: int|
                        0 <= k < options.len() && (#[trigger] options[k]).language_code
                            == codes.last();
                    assert(before[k].language_code == codes.last());
                }
            }
            assert(options.is_prefix_of(all));
        }
    }
}

/// A language is offered exactly when there are subtitles or captions in it, only once, and as
/// generated only where nothing was written in it. What is offered is sorted: what was written
/// before what was generated, then by language.
pub proof fn languages_are_offered(value: JsonView, code: Seq<char>)
    ensures
        languages_differ(subtitles_in(value)),
        forall|i: int|
            0 <= i < subtitles_in(value).len() ==> ((#[trigger] subtitles_in(value)[i]).is_auto
                <==> !json::names_in(json::member(value, "subtitles"@)).contains(
                subtitles_in(value)[i].language_code,
            )),
        offered(subtitles_in(value), code) <==> json::names_in(
            json::member(value, "subtitles"@),
        ).contains(code) || json::names_in(json::member(value, "automatic_captions"@)).contains(
            code,
        ),
        order::ascending(subtitles_in(value), subtitle_key()),
{
    let written = json::names_in(json::member(value, "subtitles"@));
    let generated = json::names_in(json::member(value, "automatic_captions"@));
    let first = with_languages(Seq::empty(), written, false);
    let all = with_languages(first, generated, true);
    let sorted = subtitles_in(value);
    lemma_with_languages(Seq::empty(), written, false, code);
    lemma_with_languages(first, generated, true, code);
    order::sorting_ascends(all, subtitle_key());
    order::lemma_sorted_len(all, subtitle_key());
    lemma_languages_differ(Seq::empty(), written, false);
    lemma_languages_differ(first, generated, true);
    assert forall|i: int| 0 <= i < all.len() implies ((#[trigger] all[i]).is_auto
        <==> !written.contains(all[i].language_code)) by {
        let language = all[i].language_code;
        lemma_with_languages(Seq::empty(), written, false, language);
        if i < first.len() {
            assert(first[i] == all[i]);
            assert(offered(first, language));
        }
    }
    assert forall|a: int, b: int| 0 <= a < b < sorted.len() implies (
    #[trigger] sorted[a]).language_code != (#[trigger] sorted[b]).language_code by {
        let i = order::lemma_rank_onto(all, subtitle_key(), a);
        let j = order::lemma_rank_onto(all, subtitle_key(), b);
        order::lemma_rank(all, subtitle_key(), i);
        order::lemma_rank(all, subtitle_key(), j);
        assert(all[i].language_code != all[j].language_code);
    }
    assert forall|a: int| 0 <= a < sorted.len() implies ((#[trigger] sorted[a]).is_auto
        <==> !written.contains(sorted[a].language_code)) by {
        let i = order::lemma_rank_onto(all, subtitle_key(), a);
        order::lemma_rank(all, subtitle_key(), i);
        assert(sorted[a] == all[i]);
    }
    if offered(all, code) {
        let i = choose|i: int| 0 <= i < all.len() && (#[trigger] all[i]).language_code == code;
        order::lemma_rank(all, subtitle_key(), i);
        assert(sorted[order::rank(all, subtitle_key(), i)].language_code == code);
    }
    if offered(sorted, code) {
        let a = choose|a: int|
            0 <= a < sorted.len() && (#[trigger] sorted[a]).language_code == code;
        let i = order::lemma_rank_onto(all, subtitle_key(), a);
        order::lemma_rank(all, subtitle_key(), i);
        assert(all[i].language_code == code);
    }
}

}
