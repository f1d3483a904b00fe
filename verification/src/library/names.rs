//! Names and places of what is in the library.
use vstd::hash_set::StringHashSet;
use vstd::prelude::*;

use crate::text;

verus! {

/// A file or folder that was moved: where it was, and where it is.
pub struct PathChange {
    pub from: String,
    pub to: String,
}

/// What a [`PathChange`] says.
#[verifier::ext_equal]
pub struct ChangeView {
    pub from: Seq<char>,
    pub to: Seq<char>,
}

impl View for PathChange {
    type V = ChangeView;

    open spec fn view(&self) -> ChangeView {
        ChangeView { from: self.from@, to: self.to@ }
    }
}

/// What each change says.
pub open spec fn changes_view(changes: Seq<PathChange>) -> Seq<ChangeView> {
    Seq::new(changes.len(), |i: int| changes[i]@)
}

/// The names of the files in the library, each of them once.
pub struct FilenameSet {
    names: Vec<String>,
    index: StringHashSet,
}

impl View for FilenameSet {
    type V = Seq<Seq<char>>;

    closed spec fn view(&self) -> Seq<Seq<char>> {
        text::texts(self.names@)
    }
}

/// The names with one more, unless it is there already.
pub open spec fn with_name(names: Seq<Seq<char>>, name: Seq<char>) -> Seq<Seq<char>> {
    if names.contains(name) {
        names
    } else {
        names.push(name)
    }
}

/// The names with these in addition, each of them once.
pub open spec fn with_names(names: Seq<Seq<char>>, more: Seq<Seq<char>>) -> Seq<Seq<char>>
    decreases more.len(),
{
    if more.len() == 0 {
        names
    } else {
        with_name(with_names(names, more.drop_last()), more.last())
    }
}

impl FilenameSet {
    /// Each name is there once, and the index knows exactly the names.
    pub closed spec fn wf(self) -> bool {
        &&& text::texts(self.names@).no_duplicates()
        &&& forall|name: Seq<char>| #[trigger]
            self.index@.contains(name) <==> text::texts(self.names@).contains(name)
    }

    /// No names.
    pub fn new() -> (r: Self)
        ensures
            r.wf(),
            r@ == Seq::<Seq<char>>::empty(),
    {
        let names: Vec<String> = Vec::new();
        assert(text::texts(names@) =~= Seq::<Seq<char>>::empty());
        FilenameSet { names, index: StringHashSet::new() }
    }

    /// Whether the name is there.
    pub fn contains(&self, name: &str) -> (r: bool)
        requires
            self.wf(),
        ensures
            r == self@.contains(name@),
    {
        self.index.contains(name)
    }

    /// The names, in the order in which they came.
    pub fn names(&self) -> (r: &Vec<String>)
        ensures
            text::texts(r@) == self@,
    {
        &self.names
    }

    /// Takes in a name.
    pub fn insert(&mut self, name: String)
        requires
            old(self).wf(),
        ensures
            final(self).wf(),
            final(self)@ == with_name(old(self)@, name@),
    {
        let ghost before = text::texts(self.names@);
        let ghost shown = name@;
        if !self.index.contains(name.as_str()) {
            let _ = self.index.insert(name.clone());
            self.names.push(name);
            let ghost after = text::texts(self.names@);
            assert(after =~= before.push(shown));
            assert forall|other: Seq<char>| #[trigger]
                self.index@.contains(other) <==> after.contains(other) by {
                if before.contains(other) {
                    let k = choose|k: int| 0 <= k < before.len() && before[k] == other;
                    assert(after[k] == other);
                }
                if other == shown {
                    assert(after[after.len() - 1] == other);
                }
                if after.contains(other) && other != shown {
                    let k = choose|k: int| 0 <= k < after.len() && after[k] == other;
                    assert(before[k] == other);
                }
            }
            assert forall|i: int, j: int|
                0 <= i < after.len() && 0 <= j < after.len() && i != j implies after[i]
                != after[j] by {
                if i < before.len() && j < before.len() {
                } else if i < before.len() {
                    assert(before.contains(before[i]));
                } else {
                    assert(before.contains(before[j]));
                }
            }
        }
    }

    /// Takes in these names.
    pub fn extend(&mut self, names: &Vec<String>)
        requires
            old(self).wf(),
        ensures
            final(self).wf(),
            final(self)@ == with_names(old(self)@, text::texts(names@)),
    {
        let ghost all = text::texts(names@);
        let ghost start = self@;
        let mut i: usize = 0;
        assert(all.take(0) =~= Seq::<Seq<char>>::empty());
        while i < names.len()
            invariant
                i <= names.len(),
                all == text::texts(names@),
                self.wf(),
                self@ == with_names(start, all.take(i as int)),
            decreases names.len() - i,
        {
            self.insert(names[i].clone());
            i = i + 1;
            assert(all.take(i as int).drop_last() =~= all.take(i - 1));
            assert(all.take(i as int).last() == names@[i - 1]@);
        }
        assert(all.take(i as int) =~= all);
    }
}

/// A set of names holds what was in it and what was put in it, each of them once.
pub proof fn names_are_a_set(names: Seq<Seq<char>>, more: Seq<Seq<char>>, name: Seq<char>)
    ensures
        with_names(names, more).contains(name) <==> names.contains(name) || more.contains(name),
        names.no_duplicates() ==> with_names(names, more).no_duplicates(),
    decreases more.len(),
{
    if more.len() > 0 {
        let head = more.drop_last();
        let last = more.last();
        let before = with_names(names, head);
        let after = with_names(names, more);
        names_are_a_set(names, head, name);
        names_are_a_set(names, head, last);
        assert(more.contains(name) <==> head.contains(name) || name == last) by {
            if head.contains(name) {
                let k = choose|k: int| 0 <= k < head.len() && head[k] == name;
                assert(more[k] == name);
            }
            if name == last {
                assert(more[more.len() - 1] == name);
            }
            if more.contains(name) && name != last {
                let k = choose|k: int| 0 <= k < more.len() && more[k] == name;
                assert(head[k] == name);
            }
        }
        if !before.contains(last) {
            assert(after.contains(name) <==> before.contains(name) || name == last) by {
                if before.contains(name) {
                    let k = choose|k: int| 0 <= k < before.len() && before[k] == name;
                    assert(after[k] == name);
                }
                if name == last {
                    assert(after[after.len() - 1] == name);
                }
                if after.contains(name) && name != last {
                    let k = choose|k: int| 0 <= k < after.len() && after[k] == name;
                    assert(before[k] == name);
                }
            }
            if names.no_duplicates() {
                assert forall|i: int, j: int|
                    0 <= i < after.len() && 0 <= j < after.len() && i != j implies after[i]
                    != after[j] by {
                    if i < before.len() && j < before.len() {
                    } else if i < before.len() {
                        assert(before.contains(before[i]));
                    } else {
                        assert(before.contains(before[j]));
                    }
                }
            }
        }
    }
}

}
