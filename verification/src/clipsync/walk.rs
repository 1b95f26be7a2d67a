//! Listing the files that are offered: a set of chosen files and directories, with everything
//! below them.
use crate::clipsync::manifest::{Entry, Manifest, MAX_MANIFEST_ENTRIES};
use crate::clipsync::order::{
    keys_at, keys_of, lemma_order_has, lemma_order_of, lex_le, order_of, sort_order,
};
use crate::text::chars_of;
use std::collections::HashMap;
use vstd::prelude::*;

verus! {

broadcast use vstd::std_specs::hash::group_hash_axioms;

/// How deep directories are followed.
pub const MAX_DEPTH: usize = 64;

/// What something in the file system is.
pub enum NodeKind {
    /// A link, which is not followed.
    Symlink,
    /// A directory with what is in it, as far as that could be read.
    Dir(Vec<FsNode>),
    /// A file of a size.
    File(u64),
    /// Anything else, or something that could not be looked at.
    Other,
}

/// Something in the file system: its path, and its path relative to where the list starts, if it
/// has one.
pub struct FsNode {
    pub path: Vec<u8>,
    pub relpath: Option<String>,
    pub kind: NodeKind,
}

/// An entry of a list, with its path as a sequence of characters.
#[verifier::ext_equal]
pub struct EntryModel {
    pub file_id: u32,
    pub relpath: Seq<char>,
    pub size: u64,
    pub is_dir: bool,
}

/// What a walk has found: the entries, and where the contents of the files are.
#[verifier::ext_equal]
pub struct WalkModel {
    pub entries: Seq<EntryModel>,
    pub paths: Map<u32, Seq<u8>>,
}

/// A path with every backslash made a slash.
pub open spec fn slashed(s: Seq<char>) -> Seq<char> {
    Seq::new(
        s.len(),
        |i: int|
            if s[i] == '\\' {
                '/'
            } else {
                s[i]
            },
    )
}

impl Entry {
    /// The entry with its path as a sequence of characters.
    pub open spec fn model(self) -> EntryModel {
        EntryModel {
            file_id: self.file_id,
            relpath: self.relpath@,
            size: self.size,
            is_dir: self.is_dir,
        }
    }
}

impl WalkModel {
    /// Nothing found yet.
    pub open spec fn nothing() -> WalkModel {
        WalkModel { entries: Seq::empty(), paths: Map::empty() }
    }

    /// One entry more.
    pub open spec fn with(self, relpath: Seq<char>, size: u64, is_dir: bool) -> WalkModel {
        WalkModel {
            entries: self.entries.push(
                EntryModel {
                    file_id: self.entries.len() as u32,
                    relpath: relpath,
                    size: size,
                    is_dir: is_dir,
                },
            ),
            ..self
        }
    }

    /// Entries are numbered in order, there are not too many, and the paths are those of exactly
    /// the entries that are files.
    pub open spec fn wf(self) -> bool {
        &&& self.entries.len() <= MAX_MANIFEST_ENTRIES
        &&& forall|i: int| 0 <= i < self.entries.len() ==> (#[trigger] self.entries[i]).file_id == i
        &&& forall|id: u32| #[trigger]
            self.paths.contains_key(id) <==> id < self.entries.len()
                && !self.entries[id as int].is_dir
    }
}

/// The nodes of a directory in the order in which they are visited.
pub open spec fn visit_order(nodes: Seq<FsNode>) -> Seq<FsNode> {
    let order = order_of(node_keys(nodes));
    Seq::new(order.len(), |i: int| nodes[order[i]])
}

/// The paths of some nodes.
pub open spec fn node_keys(nodes: Seq<FsNode>) -> Seq<Seq<u8>> {
    Seq::new(nodes.len(), |i: int| nodes[i].path@)
}

/// What has been found once a node has been visited: a directory is listed before what is in it,
/// and links and special files are left out.
pub open spec fn walked(node: FsNode, found: WalkModel, depth: nat) -> WalkModel
    decreases 66 - depth, 0nat,
{
    if found.entries.len() >= MAX_MANIFEST_ENTRIES || depth > MAX_DEPTH {
        found
    } else {
        match (node.relpath, node.kind) {
            (Some(rel), NodeKind::Dir(kids)) => walked_all(
                visit_order(kids@),
                found.with(slashed(rel@), 0, true),
                depth + 1,
            ),
            (Some(rel), NodeKind::File(size)) => {
                let listed = found.with(slashed(rel@), size, false);
                WalkModel {
                    paths: listed.paths.insert(found.entries.len() as u32, node.path@),
                    ..listed
                }
            },
            _ => found,
        }
    }
}

/// What has been found once some nodes have been visited in order.
pub open spec fn walked_all(nodes: Seq<FsNode>, found: WalkModel, depth: nat) -> WalkModel
    decreases 66 - depth, nodes.len(),
{
    if nodes.len() == 0 {
        found
    } else {
        walked(nodes.last(), walked_all(nodes.drop_last(), found, depth), depth)
    }
}

/// What the lists of a walk stand for.
pub open spec fn found_in(entries: Seq<Entry>, paths: Map<u32, Vec<u8>>) -> WalkModel {
    WalkModel {
        entries: Seq::new(entries.len(), |i: int| entries[i].model()),
        paths: paths.map_values(|p: Vec<u8>| p@),
    }
}

proof fn lemma_walked_wf(node: FsNode, found: WalkModel, depth: nat)
    requires
        found.wf(),
    ensures
        walked(node, found, depth).wf(),
        found.entries.is_prefix_of(walked(node, found, depth).entries),
    decreases 66 - depth, 0nat,
{
    if found.entries.len() < MAX_MANIFEST_ENTRIES && depth <= MAX_DEPTH {
        if let Some(rel) = node.relpath {
            match node.kind {
                NodeKind::Dir(kids) => {
                    let next = found.with(slashed(rel@), 0, true);
                    assert(next.wf());
                    lemma_walked_all_wf(visit_order(kids@), next, depth + 1);
                    assert(found.entries =~= next.entries.take(found.entries.len() as int));
                    lemma_prefix(
                        found.entries,
                        next.entries,
                        walked_all(visit_order(kids@), next, depth + 1).entries,
                    );
                },
                NodeKind::File(size) => {
                    let next = walked(node, found, depth);
                    assert(next.wf());
                    assert(found.entries =~= next.entries.take(found.entries.len() as int));
                },
                _ => {},
            }
        }
    }
}

proof fn lemma_prefix(a: Seq<EntryModel>, b: Seq<EntryModel>, c: Seq<EntryModel>)
    requires
        a.is_prefix_of(b),
        b.is_prefix_of(c),
    ensures
        a.is_prefix_of(c),
{
    assert(a =~= c.take(a.len() as int)) by {
        assert forall|i: int| 0 <= i < a.len() implies a[i] == c[i] by {
            assert(a[i] == b.take(a.len() as int)[i]);
            assert(b[i] == c.take(b.len() as int)[i]);
        }
    }
}

proof fn lemma_walked_all_wf(nodes: Seq<FsNode>, found: WalkModel, depth: nat)
    requires
        found.wf(),
    ensures
        walked_all(nodes, found, depth).wf(),
        found.entries.is_prefix_of(walked_all(nodes, found, depth).entries),
    decreases 66 - depth, nodes.len(),
{
    if nodes.len() > 0 {
        let init = walked_all(nodes.drop_last(), found, depth);
        lemma_walked_all_wf(nodes.drop_last(), found, depth);
        lemma_walked_wf(nodes.last(), init, depth);
        lemma_prefix(
            found.entries,
            init.entries,
            walked(nodes.last(), init, depth).entries,
        );
    }
}

/// A list is numbered in order, within the limit that its receiver checks, and the contents of all
/// its files, and of nothing else, can be found.
pub proof fn law_list_is_consistent(roots: Seq<FsNode>)
    ensures
        walked_all(roots, WalkModel::nothing(), 0).wf(),
{
    lemma_walked_all_wf(roots, WalkModel::nothing(), 0);
}

/// Visiting more never changes what has been listed already.
pub proof fn law_walk_only_adds(nodes: Seq<FsNode>, found: WalkModel, depth: nat)
    requires
        found.wf(),
    ensures
        found.entries.is_prefix_of(walked_all(nodes, found, depth).entries),
{
    lemma_walked_all_wf(nodes, found, depth);
}

fn slashed_string(s: &str) -> (r: String)
    ensures
        r@ == slashed(s@),
{
    let chars: Vec<char> = chars_of(s);
    let n: usize = chars.len();
    let mut r: String = String::new();
    let mut i: usize = 0;
    while i < n
        invariant
            i <= n,
            n == chars@.len(),
            chars@ == s@,
            r@ == slashed(s@).take(i as int),
        decreases n - i,
    {
        if chars[i] == '\\' {
            r.push('/');
        } else {
            r.push(chars[i]);
        }
        i = i + 1;
        assert(slashed(s@).take(i as int) =~= slashed(s@).take(i - 1).push(slashed(s@)[i - 1]));
    }
    assert(slashed(s@).take(n as int) =~= slashed(s@));
    r
}

/// Does a walk that has listed this many entries go on at this depth?
pub fn walk_goes_on(entries: usize, depth: usize) -> (b: bool)
    ensures
        b == (entries < MAX_MANIFEST_ENTRIES && depth <= MAX_DEPTH),
{
    entries < MAX_MANIFEST_ENTRIES && depth <= MAX_DEPTH
}

/// The order in which the nodes of a directory are visited, as indices.
pub fn node_order(nodes: &[FsNode]) -> (order: Vec<usize>)
    ensures
        order@.len() == nodes@.len(),
        forall|i: int| 0 <= i < order@.len() ==> (#[trigger] order@[i]) < nodes@.len(),
        forall|i: int|
            0 <= i < order@.len() ==> nodes@[(#[trigger] order@[i]) as int] == visit_order(
                nodes@,
            )[i],
        visit_order(nodes@).len() == nodes@.len(),
{
    let n: usize = nodes.len();
    let mut keys: Vec<Vec<u8>> = Vec::new();
    let mut i: usize = 0;
    while i < n
        invariant
            i <= n,
            n == nodes@.len(),
            keys@.len() == i,
            forall|k: int| 0 <= k < i ==> (#[trigger] keys@[k])@ == nodes@[k].path@,
        decreases n - i,
    {
        keys.push(vstd::slice::slice_to_vec(nodes[i].path.as_slice()));
        i = i + 1;
    }
    assert(keys_of(keys@) =~= node_keys(nodes@));
    let order: Vec<usize> = sort_order(keys.as_slice());
    proof {
        let sorted = order_of(node_keys(nodes@));
        assert forall|k: int| 0 <= k < order@.len() implies nodes@[(#[trigger] order@[k]) as int]
            == visit_order(nodes@)[k] by {
            assert(Seq::new(order@.len(), |j: int| order@[j] as int)[k] == sorted[k]);
        }
    }
    order
}

fn list_entry(entries: &mut Vec<Entry>, relpath: &str, size: u64, is_dir: bool) -> (id: u32)
    requires
        old(entries)@.len() < MAX_MANIFEST_ENTRIES,
    ensures
        id == old(entries)@.len(),
        forall|paths: Map<u32, Vec<u8>>|
            #[trigger] found_in(final(entries)@, paths) == found_in(old(entries)@, paths).with(
                slashed(relpath@),
                size,
                is_dir,
            ),
{
    let id: u32 = entries.len() as u32;
    let e: Entry = Entry {
        file_id: id,
        relpath: slashed_string(relpath),
        size: size,
        is_dir: is_dir,
    };
    let ghost before = entries@;
    entries.push(e);
    proof {
        assert forall|paths: Map<u32, Vec<u8>>|
            #[trigger] found_in(entries@, paths) == found_in(before, paths).with(
                slashed(relpath@),
                size,
                is_dir,
            ) by {
            assert(found_in(entries@, paths).entries =~= found_in(before, paths).with(
                slashed(relpath@),
                size,
                is_dir,
            ).entries);
        }
    }
    id
}

/// Visits a node.
fn walk(node: &FsNode, entries: &mut Vec<Entry>, paths: &mut HashMap<u32, Vec<u8>>, depth: usize)
    ensures
        found_in(final(entries)@, final(paths)@) == walked(
            *node,
            found_in(old(entries)@, old(paths)@),
            depth as nat,
        ),
    decreases 66 - depth, 0nat,
{
    if !walk_goes_on(entries.len(), depth) {
        return ;
    }
    let rel: &str = match &node.relpath {
        Some(r) => r.as_str(),
        None => {
            return ;
        },
    };
    match &node.kind {
        NodeKind::Dir(kids) => {
            let _ = list_entry(entries, rel, 0, true);
            let order: Vec<usize> = node_order(kids.as_slice());
            walk_all(kids.as_slice(), order.as_slice(), entries, paths, depth + 1);
            proof {
                let visited = visit_order(kids@);
                assert(Seq::new(order@.len(), |i: int| kids@[order@[i] as int]) =~= visited);
            }
        },
        NodeKind::File(size) => {
            let id: u32 = list_entry(entries, rel, *size, false);
            let path: Vec<u8> = vstd::slice::slice_to_vec(node.path.as_slice());
            let ghost old_paths = paths@;
            paths.insert(id, path);
            proof {
                let model = |p: Vec<u8>| p@;
                assert(paths@.map_values(model) =~= old_paths.map_values(model).insert(
                    id,
                    node.path@,
                ));
            }
        },
        NodeKind::Symlink => {},
        NodeKind::Other => {},
    }
}

/// Visits the nodes of a directory in a given order.
fn walk_all(
    nodes: &[FsNode],
    order: &[usize],
    entries: &mut Vec<Entry>,
    paths: &mut HashMap<u32, Vec<u8>>,
    depth: usize,
)
    requires
        forall|i: int| 0 <= i < order@.len() ==> (#[trigger] order@[i]) < nodes@.len(),
        depth <= MAX_DEPTH + 1,
    ensures
        found_in(final(entries)@, final(paths)@) == walked_all(
            Seq::new(order@.len(), |i: int| nodes@[order@[i] as int]),
            found_in(old(entries)@, old(paths)@),
            depth as nat,
        ),
    decreases 66 - depth, order@.len() + 1,
{
    let ghost all = Seq::new(order@.len(), |i: int| nodes@[order@[i] as int]);
    let ghost start = found_in(entries@, paths@);
    let n: usize = order.len();
    let mut k: usize = 0;
    assert(all.take(0) =~= Seq::<FsNode>::empty());
    while k < n
        invariant
            k <= n,
            n == order@.len(),
            depth <= MAX_DEPTH + 1,
            forall|i: int| 0 <= i < order@.len() ==> (#[trigger] order@[i]) < nodes@.len(),
            all == Seq::new(order@.len(), |i: int| nodes@[order@[i] as int]),
            found_in(entries@, paths@) == walked_all(all.take(k as int), start, depth as nat),
        decreases n - k,
    {
        walk(&nodes[order[k]], entries, paths, depth);
        k = k + 1;
        assert(all.take(k as int).drop_last() =~= all.take(k - 1));
    }
    assert(all.take(n as int) =~= all);
}

/// An offer of files: the list for the peer, and where the contents are.
pub struct BuiltOffer {
    pub manifest: Manifest,
    /// The paths of the entries that are files, by their numbers.
    pub paths: HashMap<u32, Vec<u8>>,
}

/// Lists a set of chosen files and directories, in the order in which they were chosen.
pub fn build_manifest(session_id: u32, roots: &[FsNode]) -> (offer: BuiltOffer)
    ensures
        offer.manifest.session_id == session_id,
        found_in(offer.manifest.entries@, offer.paths@) == walked_all(
            roots@,
            WalkModel::nothing(),
            0,
        ),
        found_in(offer.manifest.entries@, offer.paths@).wf(),
{
    let mut entries: Vec<Entry> = Vec::new();
    let mut paths: HashMap<u32, Vec<u8>> = HashMap::new();
    let n: usize = roots.len();
    let mut i: usize = 0;
    proof {
        assert(found_in(entries@, paths@) =~= WalkModel::nothing());
        assert(roots@.take(0) =~= Seq::<FsNode>::empty());
    }
    while i < n
        invariant
            i <= n,
            n == roots@.len(),
            found_in(entries@, paths@) == walked_all(
                roots@.take(i as int),
                WalkModel::nothing(),
                0,
            ),
        decreases n - i,
    {
        walk(&roots[i], &mut entries, &mut paths, 0);
        i = i + 1;
        assert(roots@.take(i as int).drop_last() =~= roots@.take(i - 1));
    }
    assert(roots@.take(n as int) =~= roots@);
    proof {
        law_list_is_consistent(roots@);
    }
    BuiltOffer { manifest: Manifest { session_id: session_id, entries: entries }, paths: paths }
}

/// Only backslashes are changed in the path of an entry.
pub proof fn law_only_backslashes_are_turned(s: Seq<char>, i: int)
    requires
        0 <= i < s.len(),
    ensures
        slashed(s).len() == s.len(),
        s[i] == '\\' ==> slashed(s)[i] == '/',
        s[i] != '\\' ==> slashed(s)[i] == s[i],
{
}

/// A file is listed as one entry with its own path and size, under the next number, by which its
/// contents are then found.
pub proof fn law_file_is_listed(node: FsNode, rel: String, size: u64, found: WalkModel, depth: nat)
    requires
        found.entries.len() < 65536,
        depth <= 64,
        node.relpath == Some(rel),
        node.kind == NodeKind::File(size),
    ensures
        ({
            let r = walked(node, found, depth);
            let id = found.entries.len() as u32;
            &&& r.entries.drop_last() == found.entries
            &&& r.entries.len() == found.entries.len() + 1
            &&& r.entries.last().file_id == id
            &&& r.entries.last().relpath == slashed(rel@)
            &&& r.entries.last().size == size
            &&& !r.entries.last().is_dir
            &&& r.paths == found.paths.insert(id, node.path@)
        }),
{
    assert(walked(node, found, depth).entries.drop_last() =~= found.entries);
}

/// A directory is listed as one entry without a size, and then what is in it, one level deeper.
pub proof fn law_directory_is_listed_before_its_contents(
    node: FsNode,
    rel: String,
    kids: Vec<FsNode>,
    found: WalkModel,
    depth: nat,
)
    requires
        found.wf(),
        found.entries.len() < 65536,
        depth <= 64,
        node.relpath == Some(rel),
        node.kind == NodeKind::Dir(kids),
    ensures
        ({
            let r = walked(node, found, depth);
            let n = found.entries.len() as int;
            let dir = EntryModel {
                file_id: n as u32,
                relpath: slashed(rel@),
                size: 0,
                is_dir: true,
            };
            &&& found.entries.is_prefix_of(r.entries)
            &&& r.entries.len() > n
            &&& r.entries[n] == dir
            &&& r == walked_all(
                visit_order(kids@),
                WalkModel { entries: found.entries.push(dir), paths: found.paths },
                depth + 1,
            )
            &&& kids@.len() == 0 ==> r.entries == found.entries.push(dir)
        }),
{
    let n = found.entries.len() as int;
    let dir = EntryModel { file_id: n as u32, relpath: slashed(rel@), size: 0, is_dir: true };
    let next = WalkModel { entries: found.entries.push(dir), paths: found.paths };
    assert(next == found.with(slashed(rel@), 0, true));
    assert(next.wf());
    lemma_walked_wf(node, found, depth);
    lemma_walked_all_wf(visit_order(kids@), next, depth + 1);
    let r = walked(node, found, depth);
    assert(r == walked_all(visit_order(kids@), next, depth + 1));
    assert(next.entries[n] == r.entries[n]) by {
        assert(next.entries =~= r.entries.take(next.entries.len() as int));
    }
    if kids@.len() == 0 {
        lemma_order_of(node_keys(kids@));
        assert(visit_order(kids@).len() == 0);
    }
}

/// Links, special files and what has no path are left out, and so is everything once the list is
/// full or the directories are too deep.
pub proof fn law_left_out_of_the_list(node: FsNode, found: WalkModel, depth: nat)
    ensures
        node.kind is Symlink || node.kind is Other || node.relpath is None || depth > 64
            || found.entries.len() >= 65536 ==> walked(node, found, depth) == found,
{
}

/// Nodes are visited one after the other: what the second ones add comes behind what the first ones
/// have added.
pub proof fn law_nodes_are_visited_in_order(
    a: Seq<FsNode>,
    b: Seq<FsNode>,
    found: WalkModel,
    depth: nat,
)
    ensures
        walked_all(a + b, found, depth) == walked_all(b, walked_all(a, found, depth), depth),
        a.len() == 1 ==> walked_all(a, found, depth) == walked(a[0], found, depth),
        a.len() == 0 ==> walked_all(a, found, depth) == found,
        WalkModel::nothing().entries.len() == 0,
        WalkModel::nothing().paths == Map::<u32, Seq<u8>>::empty(),
    decreases b.len(),
{
    if a.len() == 1 {
        let none = a.drop_last();
        assert(walked_all(none, found, depth) == found);
        assert(walked_all(a, found, depth) == walked(a.last(), found, depth));
    }
    if b.len() == 0 {
        assert(a + b =~= a);
    } else {
        assert((a + b).drop_last() =~= a + b.drop_last());
        law_nodes_are_visited_in_order(a, b.drop_last(), found, depth);
    }
}

/// What is in a directory is visited in the order of its paths, each of it once.
pub proof fn law_visited_by_path_and_once(nodes: Seq<FsNode>)
    ensures
        visit_order(nodes).len() == nodes.len(),
        forall|i: int, j: int|
            0 <= i < j < nodes.len() ==> lex_le(
                (#[trigger] visit_order(nodes)[i]).path@,
                (#[trigger] visit_order(nodes)[j]).path@,
            ),
        forall|k: int|
            0 <= k < nodes.len() ==> visit_order(nodes).contains(#[trigger] nodes[k]),
{
    let keys = node_keys(nodes);
    let order = order_of(keys);
    lemma_order_of(keys);
    let v = visit_order(nodes);
    assert forall|i: int, j: int| 0 <= i < j < nodes.len() implies lex_le(
        (#[trigger] v[i]).path@,
        (#[trigger] v[j]).path@,
    ) by {
        assert(lex_le(keys_at(keys, order)[i], keys_at(keys, order)[j]));
    }
    assert forall|k: int| 0 <= k < nodes.len() implies v.contains(#[trigger] nodes[k]) by {
        let i = lemma_order_has(keys, k);
        assert(v[i] == nodes[k]);
    }
}

/// A list is read as it stands: entry by entry with all its fields, and path by path.
pub proof fn law_lists_are_read_as_they_stand(
    entries: Seq<Entry>,
    paths: Map<u32, Vec<u8>>,
    i: int,
    id: u32,
)
    ensures
        ({
            let f = found_in(entries, paths);
            &&& f.entries.len() == entries.len()
            &&& 0 <= i < entries.len() ==> f.entries[i].file_id == entries[i].file_id
                && f.entries[i].relpath == entries[i].relpath@ && f.entries[i].size
                == entries[i].size && f.entries[i].is_dir == entries[i].is_dir
            &&& f.paths.contains_key(id) <==> paths.contains_key(id)
            &&& paths.contains_key(id) ==> f.paths[id] == paths[id]@
        }),
{
}

/// In a consistent list every entry has its place as its number, and exactly the files have paths.
pub proof fn law_consistent_lists(found: WalkModel, i: int)
    requires
        found.wf(),
        0 <= i < found.entries.len(),
    ensures
        found.entries.len() <= 65536,
        found.entries[i].file_id == i,
        found.paths.contains_key(i as u32) <==> !found.entries[i].is_dir,
        forall|id: u32| id >= found.entries.len() ==> !(#[trigger] found.paths.contains_key(id)),
{
    let id = i as u32;
    assert(found.paths.contains_key(id) <==> id < found.entries.len()
        && !found.entries[id as int].is_dir);
}

} // verus!
