//! The library as a tree.
use vstd::prelude::*;

use crate::library::names;
use crate::library::names::FilenameSet;
use crate::order;
use crate::text;

verus! {

// ---------------------------------------------------------------------------
// What is found on disk
// ---------------------------------------------------------------------------

/// Something that was found in a folder.
pub struct ScannedEntry {
    /// Its name, with a stand-in for what cannot be written down.
    pub name: String,
    /// All of its name can be written down.
    pub exact: bool,
    /// Where it is below the download root, where that can be written down.
    pub path: Option<String>,
    pub is_dir: bool,
    pub size: Option<u64>,
    /// What is in it, where it is a folder.
    pub children: Vec<ScannedEntry>,
}

/// What a [`ScannedEntry`] says.
#[verifier::ext_equal]
pub struct ScannedView {
    pub name: Seq<char>,
    pub exact: bool,
    pub path: Option<Seq<char>>,
    pub is_dir: bool,
    pub size: Option<u64>,
    pub children: Seq<ScannedView>,
}

/// What an entry says.
pub open spec fn scanned_view(entry: ScannedEntry) -> ScannedView
    decreases entry,
{
    ScannedView {
        name: entry.name@,
        exact: entry.exact,
        path: text::text_opt(entry.path),
        is_dir: entry.is_dir,
        size: entry.size,
        children: Seq::new(
            entry.children@.len(),
            |i: int|
                if 0 <= i < entry.children@.len() {
                    scanned_view(entry.children@[i])
                } else {
                    arbitrary()
                },
        ),
    }
}

impl View for ScannedEntry {
    type V = ScannedView;

    open spec fn view(&self) -> ScannedView {
        scanned_view(*self)
    }
}

/// What each entry says.
pub open spec fn entries_view(entries: Seq<ScannedEntry>) -> Seq<ScannedView> {
    Seq::new(entries.len(), |i: int| entries[i]@)
}

// ---------------------------------------------------------------------------
// Names
// ---------------------------------------------------------------------------

/// The names of all files, those in folders at the place of the folder.
pub open spec fn names_below(entries: Seq<ScannedView>) -> Seq<Seq<char>>
    decreases entries,
{
    if entries.len() == 0 {
        Seq::empty()
    } else {
        let rest = names_below(entries.drop_last());
        let last = entries.last();
        if last.is_dir {
            rest + names_below(last.children)
        } else if last.exact {
            rest.push(last.name)
        } else {
            rest
        }
    }
}

fn add_names(entries: &Vec<ScannedEntry>, list: &mut Vec<String>)
    ensures
        text::texts(final(list)@) == text::texts(old(list)@) + names_below(
            entries_view(entries@),
        ),
    decreases entries,
{
    let ghost all = entries_view(entries@);
    let ghost start = text::texts(list@);
    let mut i: usize = 0;
    assert(all.take(0) =~= Seq::<ScannedView>::empty());
    assert(start =~= start + names_below(all.take(0)));
    while i < entries.len()
        invariant
            i <= entries.len(),
            all == entries_view(entries@),
            text::texts(list@) == start + names_below(all.take(i as int)),
        decreases entries.len() - i,
    {
        let ghost before = list@;
        let ghost part = names_below(all.take(i as int));
        assert(all.take(i + 1).drop_last() =~= all.take(i as int));
        assert(all.take(i + 1).last() == entries@[i as int]@);
        if entries[i].is_dir {
            assert(entries_view(entries@[i as int].children@)
                =~= entries@[i as int]@.children);
            add_names(&entries[i].children, list);
            assert(text::texts(list@) =~= start + names_below(all.take(i + 1)));
        } else if entries[i].exact {
            list.push(entries[i].name.clone());
            assert(text::texts(list@) =~= text::texts(before).push(entries@[i as int]@.name));
            assert(text::texts(list@) =~= start + names_below(all.take(i + 1)));
        }
        i = i + 1;
    }
    assert(all.take(i as int) =~= all);
}

/// The names of all files that were found.
pub fn collect_filenames(entries: &Vec<ScannedEntry>) -> (r: FilenameSet)
    ensures
        r.wf(),
        r@ == names::with_names(Seq::empty(), names_below(entries_view(entries@))),
{
    let mut list: Vec<String> = Vec::new();
    assert(text::texts(list@) =~= Seq::<Seq<char>>::empty());
    add_names(entries, &mut list);
    assert(text::texts(list@) =~= names_below(entries_view(entries@)));
    let mut known = FilenameSet::new();
    known.extend(&list);
    known
}

// ---------------------------------------------------------------------------
// The tree
// ---------------------------------------------------------------------------

/// A folder or file, as it is shown.
pub struct LibraryNode {
    pub name: String,
    pub relative_path: String,
    pub item_type: String,
    pub size_bytes: Option<u64>,
    pub children: Vec<LibraryNode>,
}

/// What a [`LibraryNode`] says.
#[verifier::ext_equal]
pub struct NodeView {
    pub name: Seq<char>,
    pub relative_path: Seq<char>,
    pub item_type: Seq<char>,
    pub size_bytes: Option<u64>,
    pub children: Seq<NodeView>,
}

/// What a node says.
pub open spec fn node_view(node: LibraryNode) -> NodeView
    decreases node,
{
    NodeView {
        name: node.name@,
        relative_path: node.relative_path@,
        item_type: node.item_type@,
        size_bytes: node.size_bytes,
        children: Seq::new(
            node.children@.len(),
            |i: int|
                if 0 <= i < node.children@.len() {
                    node_view(node.children@[i])
                } else {
                    arbitrary()
                },
        ),
    }
}

impl View for LibraryNode {
    type V = NodeView;

    open spec fn view(&self) -> NodeView {
        node_view(*self)
    }
}

/// What each node says.
pub open spec fn nodes_view(nodes: Seq<LibraryNode>) -> Seq<NodeView> {
    Seq::new(nodes.len(), |i: int| nodes[i]@)
}

/// The library as it is shown.
pub struct LibraryTreeResponse {
    pub root_path: String,
    pub nodes: Vec<LibraryNode>,
}

/// What is not shown: folders whose names begin with a dot, and files that are not finished or
/// only describe others.
pub open spec fn hidden(name: Seq<char>, is_dir: bool) -> bool {
    if is_dir {
        text::begins(name, "."@)
    } else {
        text::ends(name, ".part"@) || text::ends(name, ".ytdl"@) || text::ends(name, ".temp"@)
            || text::occurs(name, ".frag"@) || text::ends(name, ".info.json"@)
    }
}

/// Whether something is not shown.
pub fn should_hide(name: &str, is_dir: bool) -> (r: bool)
    ensures
        r == hidden(name@, is_dir),
{
    if is_dir {
        return text::starts_with(name, ".");
    }
    text::ends_with(name, ".part") || text::ends_with(name, ".ytdl") || text::ends_with(
        name,
        ".temp",
    ) || text::contains(name, ".frag") || text::ends_with(name, ".info.json")
}

/// How a place below the download root is written; empty where it cannot be written down.
pub open spec fn kept_path(path: Option<Seq<char>>) -> Seq<char> {
    match path {
        Some(p) => text::replaced(p, '\\', '/'),
        None => Seq::empty(),
    }
}

/// What nodes are sorted by: folders before files, then by name in lower case.
pub open spec fn node_key() -> spec_fn(NodeView) -> Seq<char> {
    |node: NodeView|
        seq![
            if node.item_type == "directory"@ {
                '0'
            } else {
                '1'
            },
        ] + text::lowercased(node.name)
}

/// How an entry is shown.
pub open spec fn node_of(entry: ScannedView) -> NodeView
    decreases entry, 2nat,
{
    NodeView {
        name: entry.name,
        relative_path: kept_path(entry.path),
        item_type: if entry.is_dir {
            "directory"@
        } else {
            "file"@
        },
        size_bytes: if entry.is_dir {
            None
        } else {
            entry.size
        },
        children: if entry.is_dir {
            tree_of(entry.children)
        } else {
            Seq::empty()
        },
    }
}

/// The nodes for those entries that are shown, as they were found.
pub open spec fn nodes_of(entries: Seq<ScannedView>) -> Seq<NodeView>
    decreases entries, 0nat,
{
    if entries.len() == 0 {
        Seq::empty()
    } else {
        let rest = nodes_of(entries.drop_last());
        if hidden(entries.last().name, entries.last().is_dir) {
            rest
        } else {
            rest.push(node_of(entries.last()))
        }
    }
}

/// The nodes for those entries that are shown, in order.
pub open spec fn tree_of(entries: Seq<ScannedView>) -> Seq<NodeView>
    decreases entries, 1nat,
{
    order::sorted_by(nodes_of(entries), node_key())
}

fn key_of(name: &str, is_dir: bool) -> (r: Vec<char>)
    ensures
        r@ == seq![
            if is_dir {
                '0'
            } else {
                '1'
            },
        ] + text::lowercased(name@),
{
    let mut key: Vec<char> = Vec::new();
    key.push(
        if is_dir {
            '0'
        } else {
            '1'
        },
    );
    let lower = text::lowercase(name);
    let mut rest = text::chars_of(lower.as_str());
    key.append(&mut rest);
    assert(key@ =~= seq![
        if is_dir {
            '0'
        } else {
            '1'
        },
    ] + text::lowercased(name@));
    key
}

/// The nodes behind the keys, in order.
fn take_nodes(keyed: Vec<(Vec<char>, LibraryNode)>) -> (r: Vec<LibraryNode>)
    ensures
        r@.len() == keyed@.len(),
        forall|i: int| 0 <= i < r@.len() ==> #[trigger] r@[i] == keyed@[i].1,
{
    let ghost all = keyed@;
    let ghost n = keyed@.len();
    let mut forward = keyed;
    let mut backward: Vec<LibraryNode> = Vec::new();
    while forward.len() > 0
        invariant
            n == all.len(),
            forward.len() + backward.len() == n,
            forall|i: int| 0 <= i < forward.len() ==> #[trigger] forward@[i] == all[i],
            forall|i: int|
                0 <= i < backward.len() ==> #[trigger] backward@[i] == all[n - 1 - i].1,
        decreases forward.len(),
    {
        let ghost left = forward@;
        if let Some(pair) = forward.pop() {
            assert(pair == left[left.len() - 1]);
            backward.push(pair.1);
        }
    }
    let mut nodes: Vec<LibraryNode> = Vec::new();
    while backward.len() > 0
        invariant
            n == all.len(),
            nodes.len() + backward.len() == n,
            forall|i: int|
                0 <= i < backward.len() ==> #[trigger] backward@[i] == all[n - 1 - i].1,
            forall|i: int| 0 <= i < nodes.len() ==> #[trigger] nodes@[i] == all[i].1,
        decreases backward.len(),
    {
        let ghost left = backward@;
        if let Some(node) = backward.pop() {
            assert(node == left[left.len() - 1]);
            nodes.push(node);
        }
    }
    nodes
}

fn build_nodes(entries: &Vec<ScannedEntry>) -> (r: Vec<LibraryNode>)
    ensures
        nodes_view(r@) == tree_of(entries_view(entries@)),
    decreases entries,
{
    let ghost all = entries_view(entries@);
    let ghost key = |p: (Vec<char>, LibraryNode)| p.0@;
    let ghost node_in = |p: (Vec<char>, LibraryNode)| p.1@;
    let mut keyed: Vec<(Vec<char>, LibraryNode)> = Vec::new();
    let mut i: usize = 0;
    assert(all.take(0) =~= Seq::<ScannedView>::empty());
    assert(keyed@.map_values(node_in) =~= nodes_of(all.take(0)));
    while i < entries.len()
        invariant
            i <= entries.len(),
            all == entries_view(entries@),
            node_in == (|p: (Vec<char>, LibraryNode)| p.1@),
            keyed@.map_values(node_in) == nodes_of(all.take(i as int)),
            forall|j: int|
                0 <= j < keyed.len() ==> (#[trigger] keyed@[j]).0@ == node_key()(keyed@[j].1@),
        decreases entries.len() - i,
    {
        let ghost before = keyed@;
        let ghost entry = entries@[i as int]@;
        assert(all.take(i + 1).drop_last() =~= all.take(i as int));
        assert(all.take(i + 1).last() == entry);
        if !should_hide(entries[i].name.as_str(), entries[i].is_dir) {
            let children = if entries[i].is_dir {
                assert(entries_view(entries@[i as int].children@) =~= entry.children);
                build_nodes(&entries[i].children)
            } else {
                let none: Vec<LibraryNode> = Vec::new();
                assert(nodes_view(none@) =~= Seq::<NodeView>::empty());
                none
            };
            let relative_path = match &entries[i].path {
                Some(path) => text::replace_char(path.as_str(), '\\', '/'),
                None => {
                    let none = String::new();
                    assert(none@ =~= Seq::<char>::empty());
                    none
                },
            };
            let item_type = if entries[i].is_dir {
                "directory".to_owned()
            } else {
                "file".to_owned()
            };
            let node = LibraryNode {
                name: entries[i].name.clone(),
                relative_path,
                item_type,
                size_bytes: if entries[i].is_dir {
                    None
                } else {
                    entries[i].size
                },
                children,
            };
            proof {
                reveal_strlit("directory");
                reveal_strlit("file");
                assert("directory"@.len() != "file"@.len());
                assert(node@.children =~= nodes_view(node.children@));
                assert(node@ =~= node_of(entry));
            }
            let node_key_chars = key_of(entries[i].name.as_str(), entries[i].is_dir);
            keyed.push((node_key_chars, node));
            assert(keyed@.map_values(node_in) =~= before.map_values(node_in).push(node@));
        }
        i = i + 1;
    }
    assert(all.take(i as int) =~= all);
    let ghost pairs = keyed@;
    let sorted = order::sort_keyed(keyed);
    proof {
        order::lemma_sorted_maps(pairs, key, node_in, node_key());
    }
    let ghost ordered = sorted@;
    let nodes = take_nodes(sorted);
    assert(nodes_view(nodes@) =~= ordered.map_values(node_in));
    nodes
}

/// The library as it is shown, given what was found below the download root.
pub fn build_tree(root_path: String, entries: &Vec<ScannedEntry>) -> (r: LibraryTreeResponse)
    ensures
        r.root_path@ == root_path@,
        nodes_view(r.nodes@) == tree_of(entries_view(entries@)),
{
    LibraryTreeResponse { root_path, nodes: build_nodes(entries) }
}

// ---------------------------------------------------------------------------
// Laws of the tree
// ---------------------------------------------------------------------------

proof fn lemma_nodes_of(entries: Seq<ScannedView>)
    ensures
        forall|k: int|
            0 <= k < nodes_of(entries).len() ==> shown_from(
                #[trigger] nodes_of(entries)[k],
                entries,
            ),
        forall|i: int|
            0 <= i < entries.len() && !hidden((#[trigger] entries[i]).name, entries[i].is_dir)
                ==> nodes_of(entries).contains(node_of(entries[i])),
    decreases entries.len(),
{
    if entries.len() > 0 {
        let head = entries.drop_last();
        let rest = nodes_of(head);
        let all = nodes_of(entries);
        lemma_nodes_of(head);
        assert forall|k: int| 0 <= k < all.len() implies shown_from(#[trigger] all[k], entries) by {
            if k < rest.len() {
                assert(shown_from(rest[k], head));
                let i = choose|i: int|
                    0 <= i < head.len() && rest[k] == node_of(#[trigger] head[i]) && !hidden(
                        head[i].name,
                        head[i].is_dir,
                    );
                assert(entries[i] == head[i]);
            } else {
                assert(all[k] == node_of(entries[entries.len() - 1]));
            }
        }
        assert forall|i: int|
            0 <= i < entries.len() && !hidden(
                (#[trigger] entries[i]).name,
                entries[i].is_dir,
            ) implies all.contains(node_of(entries[i])) by {
            if i < head.len() {
                assert(head[i] == entries[i]);
                let k = choose|k: int| 0 <= k < rest.len() && rest[k] == node_of(head[i]);
                assert(all[k] == node_of(entries[i]));
            } else {
                assert(all[all.len() - 1] == node_of(entries[i]));
            }
        }
    }
}

/// The node shows one of the entries, and that one is not hidden.
pub open spec fn shown_from(node: NodeView, entries: Seq<ScannedView>) -> bool {
    exists|i: int|
        0 <= i < entries.len() && node == node_of(#[trigger] entries[i]) && !hidden(
            entries[i].name,
            entries[i].is_dir,
        )
}

/// The tree shows exactly what is not hidden, folders before files, each of the two by name in
/// lower case.
pub proof fn the_tree_shows_what_is_there(entries: Seq<ScannedView>, i: int, j: int)
    ensures
        order::ascending(tree_of(entries), node_key()),
        0 <= i < entries.len() && !hidden(entries[i].name, entries[i].is_dir) ==> tree_of(
            entries,
        ).contains(node_of(entries[i])),
        0 <= i < tree_of(entries).len() ==> shown_from(tree_of(entries)[i], entries),
        0 <= i < j < tree_of(entries).len() && tree_of(entries)[j].item_type == "directory"@
            ==> tree_of(entries)[i].item_type == "directory"@,
{
    let nodes = nodes_of(entries);
    let tree = tree_of(entries);
    lemma_nodes_of(entries);
    order::sorting_ascends(nodes, node_key());
    order::lemma_sorted_len(nodes, node_key());
    if 0 <= i < entries.len() && !hidden(entries[i].name, entries[i].is_dir) {
        let k = choose|k: int| 0 <= k < nodes.len() && nodes[k] == node_of(entries[i]);
        order::lemma_rank(nodes, node_key(), k);
        assert(tree[order::rank(nodes, node_key(), k)] == node_of(entries[i]));
    }
    if 0 <= i < tree.len() {
        let k = order::lemma_rank_onto(nodes, node_key(), i);
        order::lemma_rank(nodes, node_key(), k);
        assert(shown_from(nodes[k], entries));
    }
    if 0 <= i < j < tree.len() && tree[j].item_type == "directory"@ {
        let a = node_key()(tree[i]);
        let b = node_key()(tree[j]);
        assert(order::lex_le(a, b));
        assert(b[0] == '0');
        if tree[i].item_type != "directory"@ {
            assert(a[0] == '1');
        }
    }
}

}
