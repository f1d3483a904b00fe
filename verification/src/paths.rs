//! Places on disk, and paths relative to the download root.
use vstd::prelude::*;

use crate::text;

verus! {

/// A place on disk: `base`, joined with each of `segments` in turn.
///
/// How a platform writes the joined path down is left to the caller that touches the disk.
pub struct FsPath {
    pub base: String,
    pub segments: Vec<String>,
}

/// What an [`FsPath`] says.
#[verifier::ext_equal]
pub struct FsPathView {
    pub base: Seq<char>,
    pub segments: Seq<Seq<char>>,
}

impl View for FsPath {
    type V = FsPathView;

    open spec fn view(&self) -> FsPathView {
        FsPathView { base: self.base@, segments: text::texts(self.segments@) }
    }
}

/// The path of `base` itself.
pub open spec fn at(base: Seq<char>) -> FsPathView {
    FsPathView { base, segments: Seq::empty() }
}

impl FsPathView {
    /// This path joined with `segment`.
    pub open spec fn join(self, segment: Seq<char>) -> FsPathView {
        FsPathView { base: self.base, segments: self.segments.push(segment) }
    }
}

impl Clone for FsPath {
    fn clone(&self) -> (r: Self)
        ensures
            r@ == self@,
    {
        FsPath { base: self.base.clone(), segments: text::clone_texts(&self.segments) }
    }
}

impl FsPath {
    /// The path of `base` itself.
    pub fn new(base: &str) -> (r: Self)
        ensures
            r@ == at(base@),
    {
        let r = FsPath { base: base.to_owned(), segments: Vec::new() };
        assert(r@ =~= at(base@));
        r
    }

    /// This path joined with `segment`.
    pub fn join(&self, segment: &str) -> (r: Self)
        ensures
            r@ == self@.join(segment@),
    {
        let mut segments = text::clone_texts(&self.segments);
        segments.push(segment.to_owned());
        let r = FsPath { base: self.base.clone(), segments };
        assert(r@ =~= self@.join(segment@));
        r
    }
}

// ---------------------------------------------------------------------------
// Paths relative to the download root
// ---------------------------------------------------------------------------

/// `path` is `ancestor` or lies below it.
pub open spec fn within(path: Seq<char>, ancestor: Seq<char>) -> bool {
    path == ancestor || text::begins(path, ancestor.push('/'))
}

/// Whether `path` is `ancestor` or lies below it.
pub fn is_same_or_descendant(path: &str, ancestor: &str) -> (r: bool)
    ensures
        r == within(path@, ancestor@),
{
    if text::same(path, ancestor) {
        return true;
    }
    let mut prefix = ancestor.to_owned();
    prefix.push('/');
    text::starts_with(path, prefix.as_str())
}

/// What lies within something that lies within `c` lies within `c`.
pub proof fn within_is_transitive(a: Seq<char>, b: Seq<char>, c: Seq<char>)
    requires
        within(a, b),
        within(b, c),
    ensures
        within(a, c),
{
    if a != b && b != c {
        let p = c.push('/');
        assert(a.subrange(0, p.len() as int) =~= b.subrange(0, p.len() as int)) by {
            let q = b.push('/');
            assert forall|i: int| 0 <= i < p.len() implies a[i] == b[i] by {
                assert(a.subrange(0, q.len() as int)[i] == q[i]);
            }
        }
    }
}

/// A piece that names an ASCII drive letter, such as `C:`.
pub open spec fn names_drive(piece: Seq<char>) -> bool {
    piece.len() >= 2 && ('A' <= piece[0] <= 'Z' || 'a' <= piece[0] <= 'z') && piece[1] == ':'
}

/// A piece that leads out of the directory it stands in. On Windows a drive letter does, too.
pub open spec fn leads_out(piece: Seq<char>, windows: bool) -> bool {
    piece == seq!['.', '.'] || (windows && names_drive(piece))
}

/// A piece that counts: neither empty nor the directory it stands in.
pub open spec fn counts(piece: Seq<char>) -> bool {
    piece.len() > 0 && piece != seq!['.']
}

/// The pieces that count, in order.
pub open spec fn counting(pieces: Seq<Seq<char>>) -> Seq<Seq<char>>
    decreases pieces.len(),
{
    if pieces.len() == 0 {
        pieces
    } else if counts(pieces.last()) {
        counting(pieces.drop_last()).push(pieces.last())
    } else {
        counting(pieces.drop_last())
    }
}

/// The pieces of a path that a user typed, slashes of either kind between them.
pub open spec fn typed_pieces(value: Seq<char>) -> Seq<Seq<char>> {
    text::split_on(text::replaced(text::trimmed(value), '\\', '/'), '/')
}

/// A path that a user typed would leave the download root: it starts at some other root, or a
/// piece of it leads out.
pub open spec fn escapes(value: Seq<char>, windows: bool) -> bool {
    let typed = text::replaced(text::trimmed(value), '\\', '/');
    (typed.len() > 0 && typed[0] == '/') || exists|i: int|
        0 <= i < typed_pieces(value).len() && leads_out(#[trigger] typed_pieces(value)[i], windows)
}

/// The pieces of a path as the system reads it. Only Windows takes backslashes for slashes.
pub open spec fn system_pieces(path: Seq<char>, windows: bool) -> Seq<Seq<char>> {
    text::split_on(
        if windows {
            text::replaced(path, '\\', '/')
        } else {
            path
        },
        '/',
    )
}

/// The directories, from a root down, in which one stands after following the pieces from there;
/// `None` where they rise above the root.
pub open spec fn walked(pieces: Seq<Seq<char>>) -> Option<Seq<Seq<char>>>
    decreases pieces.len(),
{
    if pieces.len() == 0 {
        Some(Seq::empty())
    } else {
        match walked(pieces.drop_last()) {
            None => None,
            Some(names) => if pieces.last() == seq!['.', '.'] {
                if names.len() == 0 {
                    None
                } else {
                    Some(names.drop_last())
                }
            } else if counts(pieces.last()) {
                Some(names.push(pieces.last()))
            } else {
                Some(names)
            },
        }
    }
}

/// A path that does not start where it is joined to: it starts at the root of the system or, on
/// Windows, at a drive.
pub open spec fn starts_elsewhere(path: Seq<char>, windows: bool) -> bool {
    path.len() > 0 && (path[0] == '/' || (windows && (path[0] == '\\' || names_drive(path))))
}

/// A path that, joined to a root, leads out of it: it starts elsewhere, or it rises above the root.
pub open spec fn leaves_root(path: Seq<char>, windows: bool) -> bool {
    starts_elsewhere(path, windows) || walked(system_pieces(path, windows)) is None
}

/// A path that a user typed, in the one form in which it is kept: the pieces that count, with a
/// slash between each two. The download root is the empty path.
pub open spec fn normalized(value: Seq<char>) -> Seq<char> {
    text::join(counting(typed_pieces(value)), seq!['/'])
}

fn is_dots(piece: &Vec<char>, n: usize) -> (r: bool)
    requires
        n == 1 || n == 2,
    ensures
        r == (if n == 1 {
            piece@ == seq!['.']
        } else {
            piece@ == seq!['.', '.']
        }),
{
    let r = piece.len() == n && piece[0] == '.' && piece[n - 1] == '.';
    proof {
        if r {
            if n == 1 {
                assert(piece@ =~= seq!['.']);
            } else {
                assert(piece@ =~= seq!['.', '.']);
            }
        }
    }
    r
}

/// Whether a piece leads out of the directory it stands in.
fn is_leading_out(piece: &str, windows: bool) -> (r: bool)
    ensures
        r == leads_out(piece@, windows),
{
    let v = text::chars_of(piece);
    if is_dots(&v, 2) {
        return true;
    }
    windows && v.len() >= 2 && (('A' <= v[0] && v[0] <= 'Z') || ('a' <= v[0] && v[0] <= 'z'))
        && v[1] == ':'
}

/// Whether a piece counts.
fn is_counting(piece: &str) -> (r: bool)
    ensures
        r == counts(piece@),
{
    let v = text::chars_of(piece);
    v.len() > 0 && !is_dots(&v, 1)
}

/// The pieces that count, in order.
fn keep_counting(pieces: &Vec<String>) -> (r: Vec<String>)
    ensures
        text::texts(r@) == counting(text::texts(pieces@)),
{
    let ghost all = text::texts(pieces@);
    let mut kept: Vec<String> = Vec::new();
    let mut i: usize = 0;
    assert(all.take(0) =~= Seq::<Seq<char>>::empty());
    assert(text::texts(kept@) =~= counting(all.take(0)));
    while i < pieces.len()
        invariant
            i <= pieces.len(),
            text::texts(pieces@) == all,
            text::texts(kept@) == counting(all.take(i as int)),
        decreases pieces.len() - i,
    {
        let ghost before = kept@;
        assert(all[i as int] == pieces@[i as int]@);
        if is_counting(pieces[i].as_str()) {
            kept.push(pieces[i].clone());
            assert(text::texts(kept@) =~= text::texts(before).push(all[i as int]));
        }
        i = i + 1;
        assert(all.take(i as int).drop_last() =~= all.take(i - 1));
    }
    assert(all.take(i as int) =~= all);
    kept
}

/// Whether a path that a user typed would leave the download root.
pub fn does_escape(value: &str, windows: bool) -> (r: bool)
    ensures
        r == escapes(value@, windows),
{
    let trimmed_value = text::trim(value);
    let typed = text::replace_char(trimmed_value.as_str(), '\\', '/');
    let first = text::chars_of(typed.as_str());
    if first.len() > 0 && first[0] == '/' {
        return true;
    }
    let pieces = text::split_text(typed.as_str(), '/');
    let ghost all = typed_pieces(value@);
    assert(text::texts(pieces@) == all);
    let mut i: usize = 0;
    while i < pieces.len()
        invariant
            i <= pieces.len(),
            text::texts(pieces@) == all,
            all == typed_pieces(value@),
            forall|j: int| 0 <= j < i ==> !leads_out(#[trigger] all[j], windows),
        decreases pieces.len() - i,
    {
        assert(all[i as int] == pieces@[i as int]@);
        if is_leading_out(pieces[i].as_str(), windows) {
            assert(leads_out(typed_pieces(value@)[i as int], windows));
            return true;
        }
        i = i + 1;
    }
    false
}

/// Whether a path, joined to a root, leads out of it.
pub fn does_leave_root(path: &str, windows: bool) -> (r: bool)
    ensures
        r == leaves_root(path@, windows),
{
    let v = text::chars_of(path);
    if v.len() > 0 && (v[0] == '/' || (windows && v[0] == '\\')) {
        return true;
    }
    if windows && v.len() >= 2 && (('A' <= v[0] && v[0] <= 'Z') || ('a' <= v[0] && v[0] <= 'z'))
        && v[1] == ':' {
        return true;
    }
    let read = if windows {
        text::replace_char(path, '\\', '/')
    } else {
        path.to_owned()
    };
    let pieces = text::split_text(read.as_str(), '/');
    let ghost all = system_pieces(path@, windows);
    assert(text::texts(pieces@) == all);
    let mut depth: usize = 0;
    let mut i: usize = 0;
    assert(all.take(0) =~= Seq::<Seq<char>>::empty());
    while i < pieces.len()
        invariant
            i <= pieces.len(),
            depth <= i,
            text::texts(pieces@) == all,
            all == system_pieces(path@, windows),
            walked(all.take(i as int)) is Some,
            walked(all.take(i as int))->0.len() == depth,
        decreases pieces.len() - i,
    {
        assert(all[i as int] == pieces@[i as int]@);
        assert(all.take(i + 1).drop_last() =~= all.take(i as int));
        let piece = text::chars_of(pieces[i].as_str());
        if is_dots(&piece, 2) {
            if depth == 0 {
                proof {
                    assert(walked(all.take(i + 1)) is None);
                    if walked(all) is Some {
                        lemma_walked(all, i + 1);
                    }
                }
                return true;
            }
            depth = depth - 1;
        } else if is_counting(pieces[i].as_str()) {
            depth = depth + 1;
        }
        i = i + 1;
    }
    assert(all.take(i as int) =~= all);
    false
}

/// The form in which a path that a user typed is kept; `None` where it would leave the download
/// root.
pub fn normalize(value: &str, windows: bool) -> (r: Option<String>)
    ensures
        r is None <==> escapes(value@, windows),
        r matches Some(path) ==> path@ == normalized(value@),
{
    if does_escape(value, windows) {
        None
    } else {
        Some(kept_form(value))
    }
}

/// The form in which a path that a user typed is kept, wherever it leads.
pub fn kept_form(value: &str) -> (r: String)
    ensures
        r@ == normalized(value@),
{
    let trimmed_value = text::trim(value);
    let typed = text::replace_char(trimmed_value.as_str(), '\\', '/');
    let pieces = text::split_text(typed.as_str(), '/');
    let kept = keep_counting(&pieces);
    proof {
        reveal_strlit("/");
        assert("/"@ =~= seq!['/']);
    }
    text::join_texts(&kept, "/")
}

/// The last piece that counts, unless it leads out.
pub fn last_name(pieces: &Vec<String>) -> (r: Option<String>)
    ensures
        ({
            let counted = counting(text::texts(pieces@));
            match r {
                Some(name) => counted.len() > 0 && name@ == counted.last() && name@ != seq![
                    '.',
                    '.',
                ],
                None => counted.len() == 0 || counted.last() == seq!['.', '.'],
            }
        }),
{
    let ghost all = text::texts(pieces@);
    let mut i: usize = pieces.len();
    assert(all.take(i as int) =~= all);
    while i > 0
        invariant
            i <= pieces.len(),
            all == text::texts(pieces@),
            counting(all.take(i as int)) == counting(all),
        decreases i,
    {
        assert(all.take(i as int).drop_last() =~= all.take(i - 1));
        assert(all.take(i as int).last() == pieces@[i - 1]@);
        if is_counting(pieces[i - 1].as_str()) {
            let v = text::chars_of(pieces[i - 1].as_str());
            if is_dots(&v, 2) {
                return None;
            }
            return Some(pieces[i - 1].clone());
        }
        i = i - 1;
    }
    assert(all.take(0) =~= Seq::<Seq<char>>::empty());
    None
}

// ---------------------------------------------------------------------------
// Laws of paths
// ---------------------------------------------------------------------------

proof fn lemma_counting(pieces: Seq<Seq<char>>, i: int)
    requires
        0 <= i < counting(pieces).len(),
    ensures
        counts(counting(pieces)[i]),
        exists|k: int| 0 <= k < pieces.len() && pieces[k] == counting(pieces)[i],
    decreases pieces.len(),
{
    let head = pieces.drop_last();
    let rest = counting(head);
    if i < rest.len() {
        lemma_counting(head, i);
        let k = choose|k: int| 0 <= k < head.len() && head[k] == rest[i];
        assert(pieces[k] == rest[i]);
    } else {
        assert(pieces[pieces.len() - 1] == counting(pieces)[i]);
    }
}

proof fn lemma_all_count(pieces: Seq<Seq<char>>)
    requires
        forall|i: int| 0 <= i < pieces.len() ==> counts(#[trigger] pieces[i]),
    ensures
        counting(pieces) == pieces,
    decreases pieces.len(),
{
    if pieces.len() > 0 {
        let head = pieces.drop_last();
        assert forall|i: int| 0 <= i < head.len() implies counts(#[trigger] head[i]) by {
            assert(head[i] == pieces[i]);
        }
        lemma_all_count(head);
        assert(counts(pieces[pieces.len() - 1]));
        assert(head.push(pieces.last()) =~= pieces);
    }
}

proof fn lemma_kept_pieces(value: Seq<char>, i: int)
    requires
        0 <= i < counting(typed_pieces(value)).len(),
    ensures
        ({
            let piece = counting(typed_pieces(value))[i];
            &&& counts(piece)
            &&& !piece.contains('/')
            &&& !piece.contains('\\')
            &&& typed_pieces(value).contains(piece)
        }),
{
    let typed = text::replaced(text::trimmed(value), '\\', '/');
    let pieces = typed_pieces(value);
    let piece = counting(pieces)[i];
    lemma_counting(pieces, i);
    let k = choose|k: int| 0 <= k < pieces.len() && pieces[k] == piece;
    text::lemma_pieces(typed, '/', k, '\\');
    if piece.contains('\\') {
        let m = choose|m: int| 0 <= m < typed.len() && typed[m] == '\\';
        assert(typed[m] != '\\');
    }
}

/// A path that a user typed and that is not refused stays below the download root: it is the
/// root itself, or it is a run of names with slashes between them, none of which is empty, stands
/// for the folder it is in, or leads out of it.
pub proof fn typed_paths_stay_below_the_root(value: Seq<char>, windows: bool, i: int)
    requires
        !escapes(value, windows),
    ensures
        ({
            let path = normalized(value);
            let pieces = text::split_on(path, '/');
            path.len() == 0 || (0 <= i < pieces.len() ==> counts(pieces[i]) && !leads_out(
                pieces[i],
                windows,
            ) && !pieces[i].contains('/') && !pieces[i].contains('\\'))
        }),
{
    let path = normalized(value);
    let kept = counting(typed_pieces(value));
    if kept.len() > 0 {
        assert forall|k: int| 0 <= k < kept.len() implies !(#[trigger] kept[k]).contains('/') by {
            lemma_kept_pieces(value, k);
        }
        text::splitting_undoes_joining(kept, '/');
        if 0 <= i < kept.len() {
            lemma_kept_pieces(value, i);
            let k = choose|k: int|
                0 <= k < typed_pieces(value).len() && typed_pieces(value)[k] == kept[i];
            assert(!leads_out(typed_pieces(value)[k], windows));
        }
    }
}

/// A path in the form in which it is kept is kept as it is, unless white space stands at one of
/// its ends.
pub proof fn normalizing_twice_changes_nothing(value: Seq<char>, windows: bool)
    requires
        text::trimmed(normalized(value)) == normalized(value),
    ensures
        normalized(normalized(value)) == normalized(value),
        !escapes(value, windows) ==> !escapes(normalized(value), windows),
{
    let path = normalized(value);
    let kept = counting(typed_pieces(value));
    assert forall|k: int| 0 <= k < kept.len() implies !(#[trigger] kept[k]).contains('\\') by {
        lemma_kept_pieces(value, k);
    }
    assert(!seq!['/'].contains('\\'));
    text::lemma_joined_holds(kept, seq!['/'], '\\');
    assert(text::replaced(path, '\\', '/') =~= path) by {
        assert forall|k: int| 0 <= k < path.len() implies path[k] != '\\' by {
            assert(path.contains(path[k]));
        }
    }
    if kept.len() > 0 {
        assert forall|k: int| 0 <= k < kept.len() implies !(#[trigger] kept[k]).contains('/') by {
            lemma_kept_pieces(value, k);
        }
        text::splitting_undoes_joining(kept, '/');
        assert forall|k: int| 0 <= k < kept.len() implies counts(#[trigger] kept[k]) by {
            lemma_kept_pieces(value, k);
        }
        lemma_all_count(kept);
        assert(typed_pieces(path) == kept);
        if !escapes(value, windows) {
            assert forall|k: int| 0 <= k < kept.len() implies !leads_out(
                #[trigger] kept[k],
                windows,
            ) by {
                lemma_kept_pieces(value, k);
                let m = choose|m: int|
                    0 <= m < typed_pieces(value).len() && typed_pieces(value)[m] == kept[k];
                assert(!leads_out(typed_pieces(value)[m], windows));
            }
            lemma_first_character(kept);
        }
    } else {
        assert(path =~= Seq::<char>::empty());
        text::lemma_upto(path, '/');
        assert(typed_pieces(path) =~= seq![path]);
        assert(counting(seq![path].drop_last()) =~= Seq::<Seq<char>>::empty());
        assert(counting(typed_pieces(path)) =~= Seq::<Seq<char>>::empty());
    }
}

proof fn lemma_first_character(pieces: Seq<Seq<char>>)
    requires
        pieces.len() > 0,
        pieces[0].len() > 0,
        !pieces[0].contains('/'),
    ensures
        text::join(pieces, seq!['/']).len() > 0,
        text::join(pieces, seq!['/'])[0] == pieces[0][0],
        pieces[0][0] != '/',
    decreases pieces.len(),
{
    assert(pieces[0].contains(pieces[0][0]));
    if pieces.len() > 1 {
        lemma_first_character(pieces.drop_last());
    }
}

proof fn lemma_walked(pieces: Seq<Seq<char>>, n: int)
    requires
        walked(pieces) is Some,
        0 <= n <= pieces.len(),
    ensures
        walked(pieces.take(n)) is Some,
        forall|k: int|
            0 <= k < walked(pieces)->0.len() ==> counts(#[trigger] walked(pieces)->0[k])
                && walked(pieces)->0[k] != seq!['.', '.'] && pieces.contains(walked(pieces)->0[k]),
    decreases pieces.len(),
{
    assert(pieces.take(pieces.len() as int) =~= pieces);
    if pieces.len() > 0 {
        let head = pieces.drop_last();
        if n < pieces.len() {
            lemma_walked(head, n);
            assert(head.take(n) =~= pieces.take(n));
        } else {
            lemma_walked(head, n - 1);
        }
        let names = walked(pieces)->0;
        let before = walked(head)->0;
        assert forall|k: int| 0 <= k < names.len() implies counts(#[trigger] names[k]) && names[k]
            != seq!['.', '.'] && pieces.contains(names[k]) by {
            if k < before.len() {
                assert(names[k] == before[k]);
                let m = choose|m: int| 0 <= m < head.len() && head[m] == before[k];
                assert(pieces[m] == before[k]);
            } else {
                assert(pieces[pieces.len() - 1] == names[k]);
            }
        }
    }
}

/// A path that does not leave the root at which it starts leads, from there, to the root itself or
/// to what lies below it by names alone, none of which is empty or stands for another directory.
/// On the way it never rises above the root.
pub proof fn what_does_not_leave_stays_below(path: Seq<char>, windows: bool, n: int, k: int)
    requires
        !leaves_root(path, windows),
    ensures
        ({
            let pieces = system_pieces(path, windows);
            let names = walked(pieces)->0;
            &&& !starts_elsewhere(path, windows)
            &&& walked(pieces) is Some
            &&& 0 <= n <= pieces.len() ==> walked(pieces.take(n)) is Some
            &&& 0 <= k < names.len() ==> counts(names[k]) && names[k] != seq!['.', '.']
                && !names[k].contains('/') && (windows ==> !names[k].contains('\\'))
        }),
{
    let read = text::replaced(path, '\\', '/');
    let slashed = if windows {
        read
    } else {
        path
    };
    let pieces = system_pieces(path, windows);
    let names = walked(pieces)->0;
    lemma_walked(pieces, pieces.len() as int);
    if 0 <= n <= pieces.len() {
        lemma_walked(pieces, n);
    }
    if 0 <= k < names.len() {
        assert(pieces.contains(names[k]));
        let m = choose|m: int| 0 <= m < pieces.len() && pieces[m] == names[k];
        text::lemma_pieces(slashed, '/', m, '\\');
        if windows && names[k].contains('\\') {
            let j = choose|j: int| 0 <= j < read.len() && read[j] == '\\';
            assert(read[j] != '\\');
        }
    }
}

/// A path of white space alone leaves no root.
pub proof fn blank_paths_stay(path: Seq<char>, windows: bool)
    requires
        text::blank(path),
    ensures
        !leaves_root(path, windows),
{
    text::lemma_blank(path);
    let read = text::replaced(path, '\\', '/');
    assert forall|i: int| 0 <= i < path.len() implies read[i] == path[i] by {
        assert(text::white(path[i]));
    }
    assert(read =~= path);
    text::lemma_upto(path, '/');
    if text::upto(path, '/') < path.len() {
        assert(text::white(path[text::upto(path, '/')]));
    }
    assert(system_pieces(path, windows) =~= seq![path]);
    assert(path != seq!['.', '.']) by {
        if path == seq!['.', '.'] {
            assert(text::white(path[0]));
        }
    }
    if path.len() > 0 {
        assert(text::white(path[0]));
    }
    assert(seq![path].drop_last() =~= Seq::<Seq<char>>::empty());
    assert(walked(Seq::<Seq<char>>::empty()) is Some);
    assert(walked(seq![path]) is Some);
}

}
