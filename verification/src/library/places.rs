//! Places below the download root, and names in it.
use vstd::prelude::*;

use crate::library::errors::{LibraryError, LibraryErrorView};
use crate::order;
use crate::paths;
use crate::text;

verus! {

// ---------------------------------------------------------------------------
// Places below the download root
// ---------------------------------------------------------------------------

/// Where the last slash of a path stands; one before its first character where it has none.
pub open spec fn last_slash(path: Seq<char>) -> int
    decreases path.len(),
{
    if path.len() == 0 {
        -1
    } else if path.last() == '/' {
        path.len() - 1
    } else {
        last_slash(path.drop_last())
    }
}

/// The folder that a path is in; the download root where it has no slash.
pub open spec fn folder_of(path: Seq<char>) -> Seq<char> {
    if last_slash(path) < 0 {
        Seq::empty()
    } else {
        path.take(last_slash(path))
    }
}

/// The last name in a path.
pub open spec fn base_of(path: Seq<char>) -> Seq<char> {
    path.skip(last_slash(path) + 1)
}

/// The place of this name in a folder.
pub open spec fn place_in(folder: Seq<char>, name: Seq<char>) -> Seq<char> {
    if folder.len() == 0 {
        name
    } else {
        folder.push('/') + name
    }
}

proof fn lemma_last_slash(path: Seq<char>)
    ensures
        -1 <= last_slash(path) < path.len(),
        last_slash(path) >= 0 ==> path[last_slash(path)] == '/',
        forall|i: int| last_slash(path) < i < path.len() ==> #[trigger] path[i] != '/',
    decreases path.len(),
{
    if path.len() > 0 && path.last() != '/' {
        lemma_last_slash(path.drop_last());
        assert forall|i: int| last_slash(path) < i < path.len() implies #[trigger] path[i]
            != '/' by {
            if i < path.len() - 1 {
                assert(path.drop_last()[i] == path[i]);
            }
        }
    }
}

proof fn lemma_last_slash_is(path: Seq<char>, k: int)
    requires
        -1 <= k < path.len(),
        k >= 0 ==> path[k] == '/',
        forall|i: int| k < i < path.len() ==> #[trigger] path[i] != '/',
    ensures
        last_slash(path) == k,
{
    lemma_last_slash(path);
}

/// Where the last slash of a path stands, counted from one; zero where it has none.
fn find_last_slash(v: &Vec<char>) -> (r: usize)
    ensures
        r <= v.len(),
        r == last_slash(v@) + 1,
{
    let mut i: usize = v.len();
    while i > 0 && v[i - 1] != '/'
        invariant
            i <= v.len(),
            forall|j: int| i <= j < v.len() ==> #[trigger] v@[j] != '/',
        decreases i,
    {
        i = i - 1;
    }
    proof {
        lemma_last_slash_is(v@, i - 1);
    }
    i
}

/// The folder that a path is in.
pub fn parent_folder(path: &str) -> (r: String)
    ensures
        r@ == folder_of(path@),
{
    let v = text::chars_of(path);
    let n = find_last_slash(&v);
    if n == 0 {
        let none = String::new();
        assert(none@ =~= Seq::<char>::empty());
        none
    } else {
        assert(v@.subrange(0, n - 1) =~= v@.take(n - 1));
        text::slice_text(&v, 0, n - 1)
    }
}

/// The last name in a path.
pub fn base_name(path: &str) -> (r: String)
    ensures
        r@ == base_of(path@),
{
    let v = text::chars_of(path);
    let n = find_last_slash(&v);
    assert(v@.subrange(n as int, v.len() as int) =~= v@.skip(n as int));
    text::slice_text(&v, n, v.len())
}

/// The place of this name in a folder.
pub fn place_below(folder: &str, name: &str) -> (r: String)
    ensures
        r@ == place_in(folder@, name@),
{
    if folder.is_empty() {
        return name.to_owned();
    }
    let mut place = folder.to_owned();
    place.push('/');
    place.append(name);
    place
}

/// The last name in a path holds no slash.
pub proof fn lemma_base_has_no_slash(path: Seq<char>)
    ensures
        !base_of(path).contains('/'),
{
    lemma_last_slash(path);
    if base_of(path).contains('/') {
        let k = choose|k: int| 0 <= k < base_of(path).len() && base_of(path)[k] == '/';
        assert(path[last_slash(path) + 1 + k] == '/');
    }
}

/// A place in a folder lies in it, and has the name that it was given.
pub proof fn a_place_lies_in_its_folder(folder: Seq<char>, name: Seq<char>)
    requires
        !name.contains('/'),
    ensures
        base_of(place_in(folder, name)) == name,
        folder_of(place_in(folder, name)) == folder,
        folder.len() > 0 ==> paths::within(place_in(folder, name), folder),
{
    let place = place_in(folder, name);
    let k = if folder.len() == 0 {
        -1
    } else {
        folder.len() as int
    };
    assert forall|i: int| k < i < place.len() implies #[trigger] place[i] != '/' by {
        assert(name[i - k - 1] == place[i]);
        assert(name.contains(name[i - k - 1]));
    }
    lemma_last_slash_is(place, k);
    assert(place.skip(k + 1) =~= name);
    if folder.len() > 0 {
        assert(place.take(k) =~= folder);
        assert(place.subrange(0, k + 1) =~= folder.push('/'));
    }
}

// ---------------------------------------------------------------------------
// Several paths
// ---------------------------------------------------------------------------

/// One of the paths would leave the download root.
pub open spec fn some_escape(values: Seq<Seq<char>>, windows: bool) -> bool {
    exists|i: int| 0 <= i < values.len() && paths::escapes(#[trigger] values[i], windows)
}

/// The paths in the form in which they are kept.
pub open spec fn all_normalized(values: Seq<Seq<char>>) -> Seq<Seq<char>> {
    Seq::new(values.len(), |i: int| paths::normalized(values[i]))
}

/// The path is one of the list, or lies below one.
pub open spec fn covered(path: Seq<char>, list: Seq<Seq<char>>) -> bool {
    exists|i: int| 0 <= i < list.len() && paths::within(path, #[trigger] list[i])
}

/// Those paths that lie below none before them, but for the download root itself.
pub open spec fn topmost(list: Seq<Seq<char>>) -> Seq<Seq<char>>
    decreases list.len(),
{
    if list.len() == 0 {
        list
    } else {
        let rest = topmost(list.drop_last());
        if list.last().len() == 0 || covered(list.last(), rest) {
            rest
        } else {
            rest.push(list.last())
        }
    }
}

/// The items that a list of paths stands for: each only once, and none that goes with another.
pub open spec fn deduped(values: Seq<Seq<char>>) -> Seq<Seq<char>> {
    topmost(order::sorted_by(all_normalized(values), order::by_itself()))
}

fn is_covered(path: &str, list: &Vec<String>) -> (r: bool)
    ensures
        r == covered(path@, text::texts(list@)),
{
    let ghost all = text::texts(list@);
    let mut i: usize = 0;
    while i < list.len()
        invariant
            i <= list.len(),
            all == text::texts(list@),
            forall|j: int| 0 <= j < i ==> !paths::within(path@, #[trigger] all[j]),
        decreases list.len() - i,
    {
        assert(all[i as int] == list@[i as int]@);
        if paths::is_same_or_descendant(path, list[i].as_str()) {
            return true;
        }
        i = i + 1;
    }
    false
}

/// The items that a list of paths stands for; `None` where one would leave the download root.
pub fn dedupe_paths(values: &Vec<String>, windows: bool) -> (r: Option<Vec<String>>)
    ensures
        match r {
            Some(list) => !some_escape(text::texts(values@), windows) && text::texts(list@)
                == deduped(text::texts(values@)),
            None => some_escape(text::texts(values@), windows),
        },
{
    let ghost all = text::texts(values@);
    let mut normal: Vec<String> = Vec::new();
    let mut i: usize = 0;
    while i < values.len()
        invariant
            i <= values.len(),
            all == text::texts(values@),
            normal.len() == i,
            forall|j: int| 0 <= j < i ==> (#[trigger] normal@[j])@ == paths::normalized(all[j]),
            forall|j: int| 0 <= j < i ==> !paths::escapes(#[trigger] all[j], windows),
        decreases values.len() - i,
    {
        assert(all[i as int] == values@[i as int]@);
        match paths::normalize(values[i].as_str(), windows) {
            Some(path) => {
                normal.push(path);
            },
            None => {
                return None;
            },
        }
        i = i + 1;
    }
    assert(text::texts(normal@) =~= all_normalized(all));
    let sorted = order::sort_texts(normal);
    let ghost list = text::texts(sorted@);
    let mut kept: Vec<String> = Vec::new();
    let mut k: usize = 0;
    assert(list.take(0) =~= Seq::<Seq<char>>::empty());
    assert(text::texts(kept@) =~= topmost(list.take(0)));
    while k < sorted.len()
        invariant
            k <= sorted.len(),
            list == text::texts(sorted@),
            text::texts(kept@) == topmost(list.take(k as int)),
        decreases sorted.len() - k,
    {
        let ghost before = kept@;
        assert(list.take(k + 1).drop_last() =~= list.take(k as int));
        assert(list.take(k + 1).last() == sorted@[k as int]@);
        if !sorted[k].as_str().is_empty() && !is_covered(sorted[k].as_str(), &kept) {
            kept.push(sorted[k].clone());
            assert(text::texts(kept@) =~= text::texts(before).push(sorted@[k as int]@));
        }
        k = k + 1;
    }
    assert(list.take(k as int) =~= list);
    Some(kept)
}

proof fn lemma_topmost(list: Seq<Seq<char>>)
    ensures
        forall|i: int|
            0 <= i < topmost(list).len() ==> (#[trigger] topmost(list)[i]).len() > 0
                && list.contains(topmost(list)[i]),
        forall|i: int|
            0 <= i < list.len() && (#[trigger] list[i]).len() > 0 ==> covered(
                list[i],
                topmost(list),
            ),
    decreases list.len(),
{
    if list.len() > 0 {
        let head = list.drop_last();
        let rest = topmost(head);
        let all = topmost(list);
        lemma_topmost(head);
        assert(list[list.len() - 1] == list.last());
        assert(forall|i: int| 0 <= i < head.len() ==> #[trigger] head[i] == list[i]);
        assert forall|i: int| 0 <= i < rest.len() implies list.contains(#[trigger] rest[i]) by {
            let k = choose|k: int| 0 <= k < head.len() && head[k] == rest[i];
            assert(list[k] == rest[i]);
        }
        assert forall|i: int| 0 <= i < list.len() && (#[trigger] list[i]).len() > 0 implies covered(
            list[i],
            all,
        ) by {
            if i < head.len() {
                assert(covered(head[i], rest));
                let k = choose|k: int|
                    0 <= k < rest.len() && paths::within(head[i], #[trigger] rest[k]);
                assert(all[k] == rest[k]);
            } else if covered(list.last(), rest) {
                assert(all == rest);
            } else {
                assert(all[all.len() - 1] == list.last());
            }
        }
    }
}

proof fn lemma_prefix_comes_first(a: Seq<char>, b: Seq<char>)
    requires
        a.len() <= b.len(),
        b.take(a.len() as int) == a,
    ensures
        order::lex_le(a, b),
    decreases a.len(),
{
    if a.len() > 0 {
        assert(b.take(a.len() as int)[0] == b[0]);
        assert(b.skip(1).take(a.len() - 1) =~= a.skip(1)) by {
            assert(b.take(a.len() as int).skip(1) =~= b.skip(1).take(a.len() - 1));
        }
        lemma_prefix_comes_first(a.skip(1), b.skip(1));
    }
}

proof fn lemma_topmost_apart(list: Seq<Seq<char>>)
    requires
        order::ascending(list, order::by_itself()),
    ensures
        forall|i: int, j: int|
            0 <= i < topmost(list).len() && 0 <= j < topmost(list).len() && i != j
                ==> !paths::within(#[trigger] topmost(list)[i], #[trigger] topmost(list)[j]),
    decreases list.len(),
{
    if list.len() > 0 {
        let head = list.drop_last();
        let last = list.last();
        let rest = topmost(head);
        let all = topmost(list);
        let key = order::by_itself();
        assert(order::ascending(head, key)) by {
            assert forall|i: int, j: int| 0 <= i <= j < head.len() implies order::lex_le(
                key(#[trigger] head[i]),
                key(#[trigger] head[j]),
            ) by {
                assert(order::lex_le(key(list[i]), key(list[j])));
            }
        }
        lemma_topmost_apart(head);
        lemma_topmost(head);
        if last.len() > 0 && !covered(last, rest) {
            assert forall|i: int, j: int|
                0 <= i < all.len() && 0 <= j < all.len() && i != j implies !paths::within(
                #[trigger] all[i],
                #[trigger] all[j],
            ) by {
                if i < rest.len() && j < rest.len() {
                    assert(all[i] == rest[i] && all[j] == rest[j]);
                } else if j < rest.len() {
                    assert(all[j] == rest[j]);
                } else {
                    assert(all[i] == rest[i]);
                    let k = choose|k: int| 0 <= k < head.len() && head[k] == rest[i];
                    assert(order::lex_le(key(list[k]), key(list[list.len() - 1])));
                    if paths::within(rest[i], last) {
                        if rest[i] == last {
                            assert(paths::within(last, rest[i]));
                        } else {
                            let prefix = last.push('/');
                            assert(rest[i].take(last.len() as int) =~= last) by {
                                assert forall|m: int| 0 <= m < last.len() implies rest[i][m]
                                    == last[m] by {
                                    assert(rest[i].subrange(0, prefix.len() as int)[m]
                                        == prefix[m]);
                                }
                            }
                            lemma_prefix_comes_first(last, rest[i]);
                            order::lemma_lex_total(last, rest[i]);
                        }
                    }
                }
            }
        }
    }
}

/// No item is taken twice, nor together with a folder that it is in; and every item that was
/// named, but for the download root itself, is taken or goes with a folder that is.
pub proof fn items_are_taken_once(values: Seq<Seq<char>>, i: int, j: int)
    ensures
        0 <= i < deduped(values).len() && 0 <= j < deduped(values).len() && i != j
            ==> !paths::within(deduped(values)[i], deduped(values)[j]),
        0 <= i < deduped(values).len() ==> deduped(values)[i].len() > 0 && all_normalized(
            values,
        ).contains(deduped(values)[i]),
        0 <= i < values.len() && paths::normalized(values[i]).len() > 0 ==> covered(
            paths::normalized(values[i]),
            deduped(values),
        ),
{
    let normal = all_normalized(values);
    let sorted = order::sorted_by(normal, order::by_itself());
    order::sorting_ascends(normal, order::by_itself());
    order::lemma_sorted_len(normal, order::by_itself());
    lemma_topmost(sorted);
    lemma_topmost_apart(sorted);
    if 0 <= i < deduped(values).len() {
        let k = choose|k: int| 0 <= k < sorted.len() && sorted[k] == deduped(values)[i];
        order::lemma_sorted_members(normal, order::by_itself(), k);
    }
    if 0 <= i < values.len() {
        order::lemma_rank(normal, order::by_itself(), i);
        assert(sorted[order::rank(normal, order::by_itself(), i)] == normal[i]);
    }
}

// ---------------------------------------------------------------------------
// Names of folders
// ---------------------------------------------------------------------------

/// A character that Windows does not allow in a name.
pub open spec fn unsupported(c: char) -> bool {
    c == '<' || c == '>' || c == ':' || c == '"' || c == '|' || c == '?' || c == '*'
}

/// The text holds one of these characters.
pub open spec fn holds_separator(s: Seq<char>) -> bool {
    exists|i: int| 0 <= i < s.len() && (#[trigger] s[i] == '/' || s[i] == '\\')
}

/// The text holds a character that Windows does not allow in a name.
pub open spec fn holds_unsupported(s: Seq<char>) -> bool {
    exists|i: int| 0 <= i < s.len() && unsupported(#[trigger] s[i])
}

/// Why a folder cannot have this name; `None` where it can.
pub open spec fn name_fault(name: Seq<char>, windows: bool) -> Option<LibraryErrorView> {
    let t = text::trimmed(name);
    if t.len() == 0 {
        Some(LibraryErrorView::EmptyName)
    } else if t == "."@ || t == ".."@ {
        Some(LibraryErrorView::BadName)
    } else if holds_separator(t) {
        Some(LibraryErrorView::NameWithSeparator)
    } else if windows && holds_unsupported(t) {
        Some(LibraryErrorView::NameUnsupported)
    } else {
        None
    }
}

fn has_separator(v: &Vec<char>) -> (r: bool)
    ensures
        r == holds_separator(v@),
{
    let mut i: usize = 0;
    while i < v.len()
        invariant
            i <= v.len(),
            forall|j: int| 0 <= j < i ==> !(#[trigger] v@[j] == '/' || v@[j] == '\\'),
        decreases v.len() - i,
    {
        if v[i] == '/' || v[i] == '\\' {
            return true;
        }
        i = i + 1;
    }
    false
}

fn has_unsupported(v: &Vec<char>) -> (r: bool)
    ensures
        r == holds_unsupported(v@),
{
    let mut i: usize = 0;
    while i < v.len()
        invariant
            i <= v.len(),
            forall|j: int| 0 <= j < i ==> !unsupported(#[trigger] v@[j]),
        decreases v.len() - i,
    {
        let c = v[i];
        if c == '<' || c == '>' || c == ':' || c == '"' || c == '|' || c == '?' || c == '*' {
            assert(unsupported(v@[i as int]));
            return true;
        }
        i = i + 1;
    }
    false
}

/// The name of a folder, without white space around it, or why a folder cannot have it.
pub fn validate_folder_name(name: &str, windows: bool) -> (r: Result<String, LibraryError>)
    ensures
        match name_fault(name@, windows) {
            Some(error) => r is Err && r->Err_0@ == error,
            None => r is Ok && r->Ok_0@ == text::trimmed(name@),
        },
{
    let t = text::trim(name);
    if t.as_str().is_empty() {
        return Err(LibraryError::EmptyName);
    }
    if text::same(t.as_str(), ".") || text::same(t.as_str(), "..") {
        return Err(LibraryError::BadName);
    }
    let v = text::chars_of(t.as_str());
    if has_separator(&v) {
        return Err(LibraryError::NameWithSeparator);
    }
    if windows && has_unsupported(&v) {
        return Err(LibraryError::NameUnsupported);
    }
    Ok(t)
}

}
