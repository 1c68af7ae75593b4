//! Asset records and the in-memory file tree.
//!
//! The file tree is a two-variant recursive structure: a directory maps path
//! segment names to child nodes, and a leaf holds one ingested asset record.
//! Directory children are kept as a vector of `(name, node)` pairs whose names
//! are pairwise distinct.

use vstd::prelude::*;
use crate::path::views_of;
use crate::texture::{PixelFormat, TextureMetadata};

verus! {

broadcast use vstd::std_specs::vec::axiom_vec_index_decreases;

/// The kind tag of an asset payload.
#[derive(Clone, Copy, Debug, PartialEq, Eq, Structural)]
pub enum AssetType {
    Texture,
}

/// A decoded texture payload: its metadata descriptor and the tightly packed
/// RGBA8 pixel bytes.
#[derive(Debug)]
pub struct TextureAssetData {
    pub settings: TextureMetadata,
    pub data: Vec<u8>,
}

impl TextureAssetData {
    pub fn new(settings: TextureMetadata, data: Vec<u8>) -> (r: TextureAssetData)
        ensures
            r.settings == settings,
            r.data == data,
    {
        TextureAssetData { settings, data }
    }
}

/// The kind-tagged payload of an asset. Texture is the only kind this core
/// produces; future kinds are added as variants.
#[derive(Debug)]
pub enum AssetData {
    Texture(TextureAssetData),
}

impl AssetData {
    /// The kind tag of this payload.
    pub fn asset_type(&self) -> (t: AssetType)
        ensures
            t == AssetType::Texture,
    {
        match self {
            AssetData::Texture(_) => AssetType::Texture,
        }
    }
}

/// One ingested asset: its display path (the bare file name), the source
/// file's last-modified time at ingestion, a random stable identifier, an
/// optional thumbnail identifier, and the payload.
#[derive(Debug)]
pub struct Asset {
    pub path: String,
    pub timestamp: i64,
    pub uid: u64,
    pub thumbnail_id: Option<u64>,
    pub data: AssetData,
}

impl Asset {
    pub fn new(path: &str, timestamp: i64, uid: u64, thumbnail_id: Option<u64>, data: AssetData) -> (r: Asset)
        ensures
            r.path@ == path@,
            r.timestamp == timestamp,
            r.uid == uid,
            r.thumbnail_id == thumbnail_id,
            r.data == data,
    {
        Asset { path: String::from_str(path), timestamp, uid, thumbnail_id, data }
    }

    /// The payload length and dimension bookkeeping that every ingested
    /// texture satisfies: the payload is tightly packed RGBA8, so its length
    /// is four bytes per source pixel, and the format tag is RGBA8-sRGB.
    pub open spec fn wf(self) -> bool {
        match self.data {
            AssetData::Texture(t) => {
                &&& t.settings.format == PixelFormat::R8G8B8A8Srgb
                &&& t.data@.len() == t.settings.data_size.uncompressed as int
                &&& t.settings.data_size.uncompressed as int == 4 * (t.settings.source_size.width as int) * (t.settings.source_size.height as int)
                &&& t.settings.data_size.compressed == 0
            },
        }
    }
}

/// A node of the file tree: either a directory of named children or a leaf
/// asset record.
#[derive(Debug)]
pub enum FileTreeNode {
    Directory(Vec<(String, FileTreeNode)>),
    File(Asset),
}

/// The first child of `ch` whose name is `name`, if any.
pub open spec fn find_child(ch: Seq<(String, FileTreeNode)>, name: Seq<char>) -> Option<FileTreeNode>
    decreases ch.len(),
{
    if ch.len() == 0 {
        None
    } else if ch[0].0@ == name {
        Some(ch[0].1)
    } else {
        find_child(ch.drop_first(), name)
    }
}

/// Child names are pairwise distinct within one directory.
pub open spec fn names_distinct(ch: Seq<(String, FileTreeNode)>) -> bool {
    forall|i: int, j: int| 0 <= i < j < ch.len() ==> ch[i].0@ != ch[j].0@
}

impl FileTreeNode {
    /// Well-formedness of the tree: within each directory the child names are
    /// pairwise distinct, a leaf child is stored under its asset's own path
    /// (which is a bare file name), and every asset satisfies its payload
    /// invariant.
    pub open spec fn wf(self) -> bool
        decreases self,
    {
        match self {
            FileTreeNode::File(a) => a.wf(),
            FileTreeNode::Directory(ch) => {
                &&& names_distinct(ch@)
                &&& forall|i: int| 0 <= i < ch@.len() ==> (#[trigger] ch@[i].1).wf()
                &&& forall|i: int| 0 <= i < ch@.len()
                    ==> ((#[trigger] ch@[i].1) matches FileTreeNode::File(a) ==> a.path@ == ch@[i].0@)
            },
        }
    }

    /// Resolve a sequence of path segments starting at this node. An empty
    /// sequence resolves to the node itself; a segment is resolved among the
    /// children of a directory, and resolution fails at a leaf.
    pub open spec fn lookup(self, segs: Seq<Seq<char>>) -> Option<FileTreeNode>
        decreases segs.len(),
    {
        if segs.len() == 0 {
            Some(self)
        } else {
            match self {
                FileTreeNode::File(_) => None,
                FileTreeNode::Directory(ch) => {
                    match find_child(ch@, segs[0]) {
                        Option::None => None,
                        Option::Some(c) => c.lookup(segs.drop_first()),
                    }
                },
            }
        }
    }

    /// The asset stored at `segs`, if `segs` resolves to a leaf.
    pub open spec fn file_at(self, segs: Seq<Seq<char>>) -> Option<Asset> {
        match self.lookup(segs) {
            Option::Some(FileTreeNode::File(a)) => Some(a),
            _ => None,
        }
    }

    /// Whether walking the directory path `segs` from this node meets no
    /// leaf: the walk may run into ground that does not exist yet, but a
    /// leaf standing where a directory is required is an obstruction.
    pub open spec fn dir_path_clear(self, segs: Seq<Seq<char>>) -> bool
        decreases segs.len(),
    {
        match self {
            FileTreeNode::File(_) => false,
            FileTreeNode::Directory(ch) => segs.len() == 0 || match find_child(ch@, segs[0]) {
                Option::None => true,
                Option::Some(c) => c.dir_path_clear(segs.drop_first()),
            },
        }
    }
}

/// A found child stands at its index: with distinct names, the first match
/// is the match.
pub proof fn lemma_find_child_at(ch: Seq<(String, FileTreeNode)>, name: Seq<char>, k: int)
    requires
        names_distinct(ch),
        0 <= k < ch.len(),
        ch[k].0@ == name,
    ensures
        find_child(ch, name) == Some(ch[k].1),
    decreases ch.len(),
{
    if k > 0 {
        assert(ch[0].0@ != name);
        lemma_find_child_at(ch.drop_first(), name, k - 1);
    }
}

/// A name misses exactly when no child carries it.
pub proof fn lemma_find_child_none_iff(ch: Seq<(String, FileTreeNode)>, name: Seq<char>)
    ensures
        (find_child(ch, name) is None) <==> (forall|k: int|
            0 <= k < ch.len() ==> (#[trigger] ch[k].0)@ != name),
    decreases ch.len(),
{
    if ch.len() > 0 {
        lemma_find_child_none_iff(ch.drop_first(), name);
        if ch[0].0@ != name {
            assert(forall|k: int|
                1 <= k < ch.len() ==> (#[trigger] ch[k].0)@ == ch.drop_first()[k - 1].0@);
        }
    }
}

/// A found child is one of the children.
pub proof fn lemma_find_child_some(ch: Seq<(String, FileTreeNode)>, name: Seq<char>)
    requires
        find_child(ch, name) is Some,
    ensures
        exists|k: int|
            0 <= k < ch.len() && (#[trigger] ch[k]).0@ == name && ch[k].1 == find_child(
                ch,
                name,
            )->Some_0,
    decreases ch.len(),
{
    if ch.len() > 0 && ch[0].0@ != name {
        lemma_find_child_some(ch.drop_first(), name);
        let k = choose|k: int|
            0 <= k < ch.drop_first().len() && (#[trigger] ch.drop_first()[k]).0@ == name
                && ch.drop_first()[k].1 == find_child(ch.drop_first(), name)->Some_0;
        assert(ch[k + 1] == ch.drop_first()[k]);
    }
}

/// Every node that a well-formed tree resolves is itself well-formed.
pub proof fn lemma_lookup_wf(node: FileTreeNode, segs: Seq<Seq<char>>)
    requires
        node.wf(),
        node.lookup(segs) is Some,
    ensures
        node.lookup(segs)->Some_0.wf(),
    decreases segs.len(),
{
    if segs.len() > 0 {
        let ch = node->Directory_0;
        lemma_find_child_some(ch@, segs[0]);
        let c = find_child(ch@, segs[0])->Some_0;
        assert(c.wf());
        lemma_lookup_wf(c, segs.drop_first());
    }
}

/// Resolving one more segment steps through the directory reached.
pub proof fn lemma_lookup_push(node: FileTreeNode, p: Seq<Seq<char>>, x: Seq<char>)
    ensures
        node.lookup(p.push(x)) == (match node.lookup(p) {
            Option::Some(FileTreeNode::Directory(ch)) => find_child(ch@, x),
            _ => None,
        }),
    decreases p.len(),
{
    if p.len() == 0 {
        assert(p.push(x)[0] == x);
        assert(p.push(x).drop_first() =~= Seq::<Seq<char>>::empty());
        match node {
            FileTreeNode::File(_) => {
            },
            FileTreeNode::Directory(ch) => {
                match find_child(ch@, x) {
                    Option::None => {
                    },
                    Option::Some(c) => {
                        assert(c.lookup(Seq::<Seq<char>>::empty()) == Some(c));
                    },
                }
            },
        }
    } else {
        assert(p.push(x)[0] == p[0]);
        assert(p.push(x).drop_first() =~= p.drop_first().push(x));
        match node {
            FileTreeNode::File(_) => {
            },
            FileTreeNode::Directory(ch) => {
                match find_child(ch@, p[0]) {
                    Option::None => {
                    },
                    Option::Some(c) => {
                        lemma_lookup_push(c, p.drop_first(), x);
                    },
                }
            },
        }
    }
}

/// A walk that resolves a node is unobstructed up to its last segment.
pub proof fn lemma_found_implies_clear(node: FileTreeNode, segs: Seq<Seq<char>>)
    requires
        segs.len() >= 1,
        node.lookup(segs) is Some,
    ensures
        node.dir_path_clear(segs.drop_last()),
    decreases segs.len(),
{
    let ds = segs.drop_last();
    match node {
        FileTreeNode::File(_) => {
            assert(node.lookup(segs) is None);
        },
        FileTreeNode::Directory(ch) => {
            if segs.len() == 1 {
                assert(ds =~= Seq::<Seq<char>>::empty());
            } else {
                assert(ds[0] == segs[0]);
                match find_child(ch@, segs[0]) {
                    Option::None => {
                        assert(node.lookup(segs) is None);
                    },
                    Option::Some(c) => {
                        lemma_found_implies_clear(c, segs.drop_first());
                        assert(ds.drop_first() =~= segs.drop_first().drop_last());
                        assert(find_child(ch@, ds[0]) == Some(c));
                    },
                }
            }
        },
    }
}

/// Replacing the child at its own name changes that name's binding and no
/// other.
pub proof fn lemma_find_child_update(
    ch: Seq<(String, FileTreeNode)>,
    i: int,
    pair: (String, FileTreeNode),
)
    requires
        names_distinct(ch),
        0 <= i < ch.len(),
        ch[i].0@ == pair.0@,
    ensures
        find_child(ch.update(i, pair), pair.0@) == Some(pair.1),
        forall|name: Seq<char>|
            name != pair.0@ ==> find_child(ch.update(i, pair), name) == find_child(ch, name),
    decreases ch.len(),
{
    let up = ch.update(i, pair);
    if i == 0 {
        assert(up[0] == pair);
        assert(up.drop_first() =~= ch.drop_first());
        assert(find_child(up, pair.0@) == Some(pair.1));
        assert forall|name: Seq<char>| name != pair.0@ implies find_child(up, name) == find_child(
            ch,
            name,
        ) by {
            assert(up.drop_first() =~= ch.drop_first());
        }
    } else {
        assert(up[0] == ch[0]);
        assert(ch[0].0@ != pair.0@);
        assert(up.drop_first() =~= ch.drop_first().update(i - 1, pair));
        lemma_find_child_update(ch.drop_first(), i - 1, pair);
        assert(find_child(up, pair.0@) == Some(pair.1));
        assert forall|name: Seq<char>| name != pair.0@ implies find_child(up, name) == find_child(
            ch,
            name,
        ) by {
            if ch[0].0@ == name {
            } else {
                assert(find_child(ch.drop_first().update(i - 1, pair), name) == find_child(
                    ch.drop_first(),
                    name,
                ));
            }
        }
    }
}

/// Appending a child binds its name when the name was absent, and changes no
/// other binding.
pub proof fn lemma_find_child_push(ch: Seq<(String, FileTreeNode)>, pair: (String, FileTreeNode))
    ensures
        forall|name: Seq<char>| #![all_triggers]
            find_child(ch.push(pair), name) == (if find_child(ch, name) is Some {
                find_child(ch, name)
            } else if name == pair.0@ {
                Some(pair.1)
            } else {
                None
            }),
    decreases ch.len(),
{
    let up = ch.push(pair);
    if ch.len() == 0 {
        assert(up[0] == pair);
        assert(up.drop_first() =~= Seq::<(String, FileTreeNode)>::empty());
        assert forall|name: Seq<char>| #![all_triggers]
            find_child(up, name) == (if find_child(ch, name) is Some {
                find_child(ch, name)
            } else if name == pair.0@ {
                Some(pair.1)
            } else {
                None
            }) by {
            if name != pair.0@ {
                assert(find_child(up.drop_first(), name) is None);
            }
        }
    } else {
        assert(up[0] == ch[0]);
        assert(up.drop_first() =~= ch.drop_first().push(pair));
        lemma_find_child_push(ch.drop_first(), pair);
        assert forall|name: Seq<char>| #![all_triggers]
            find_child(up, name) == (if find_child(ch, name) is Some {
                find_child(ch, name)
            } else if name == pair.0@ {
                Some(pair.1)
            } else {
                None
            }) by {
            if ch[0].0@ != name {
                assert(find_child(ch.drop_first().push(pair), name) == (if find_child(
                    ch.drop_first(),
                    name,
                ) is Some {
                    find_child(ch.drop_first(), name)
                } else if name == pair.0@ {
                    Some(pair.1)
                } else {
                    None
                }));
            }
        }
    }
}

/// Finds the index of the child named `name`, if one exists.
pub fn find_child_idx(ch: &Vec<(String, FileTreeNode)>, name: &str) -> (r: Option<usize>)
    ensures
        match r {
            Option::Some(i) => i < ch@.len() && ch@[i as int].0@ == name@,
            Option::None => forall|k: int| 0 <= k < ch@.len() ==> (#[trigger] ch@[k].0)@ != name@,
        },
{
    let n = ch.len();
    let mut i: usize = 0;
    while i < n
        invariant
            0 <= i <= n,
            n == ch@.len(),
            forall|k: int| 0 <= k < i ==> (#[trigger] ch@[k].0)@ != name@,
        decreases n - i,
    {
        if crate::path::str_eq(ch[i].0.as_str(), name) {
            return Some(i);
        }
        i += 1;
    }
    None
}

/// Resolves `segs` from `node`, index `idx` onward, returning the node
/// reached.
pub fn lookup_node<'a>(node: &'a FileTreeNode, segs: &Vec<String>, idx: usize) -> (r: Option<
    &'a FileTreeNode,
>)
    requires
        node.wf(),
        idx <= segs@.len(),
    ensures
        match r {
            Option::Some(n) => node.lookup(views_of(segs@).skip(idx as int)) == Some(*n),
            Option::None => node.lookup(views_of(segs@).skip(idx as int)) is None,
        },
    decreases segs@.len() - idx,
{
    let ghost ds = views_of(segs@).skip(idx as int);
    if idx == segs.len() {
        proof {
            assert(ds.len() == 0);
        }
        return Some(node);
    }
    proof {
        assert(ds[0] == segs@[idx as int]@);
        assert(ds.drop_first() =~= views_of(segs@).skip(idx + 1));
    }
    match node {
        FileTreeNode::File(_) => None,
        FileTreeNode::Directory(ch) => {
            match find_child_idx(ch, segs[idx].as_str()) {
                Option::None => {
                    proof {
                        lemma_find_child_none_iff(ch@, ds[0]);
                    }
                    None
                },
                Option::Some(i) => {
                    proof {
                        lemma_find_child_at(ch@, ds[0], i as int);
                    }
                    lookup_node(&ch[i].1, segs, idx + 1)
                },
            }
        },
    }
}

/// An empty directory holds no file and obstructs no walk.
pub proof fn lemma_empty_dir(d: FileTreeNode, q: Seq<Seq<char>>)
    requires
        d matches FileTreeNode::Directory(ch) && ch@.len() == 0,
    ensures
        d.file_at(q) is None,
        d.dir_path_clear(q),
{
    if q.len() > 0 {
        let ch = d->Directory_0;
        assert(find_child(ch@, q[0]) is None);
    }
}

/// With equal heads, prefixhood is decided by the tails.
pub proof fn lemma_prefix_step(t: Seq<Seq<char>>, q: Seq<Seq<char>>)
    requires
        t.len() >= 1,
        q.len() >= 1,
        t[0] == q[0],
    ensures
        t.is_prefix_of(q) <==> t.drop_first().is_prefix_of(q.drop_first()),
{
    if t.len() <= q.len() {
        assert(t.drop_first().len() <= q.drop_first().len());
        let n = t.len() as int;
        assert forall|k: int| 0 <= k < n - 1 implies #[trigger] q.drop_first().subrange(
            0,
            n - 1,
        )[k] == q[k + 1] by {}
        if t =~= q.subrange(0, n) {
            assert forall|k: int| 0 <= k < n - 1 implies t.drop_first()[k] == q.drop_first()
                .subrange(0, n - 1)[k] by {
                assert(t.drop_first()[k] == t[k + 1]);
                assert(t[k + 1] == q.subrange(0, n)[k + 1]);
            }
            assert(t.drop_first() =~= q.drop_first().subrange(0, n - 1));
        }
        if t.drop_first() =~= q.drop_first().subrange(0, n - 1) {
            assert forall|k: int| 0 <= k < n implies t[k] == q.subrange(0, n)[k] by {
                if k > 0 {
                    assert(t[k] == t.drop_first()[k - 1]);
                    assert(q.drop_first().subrange(0, n - 1)[k - 1] == q[k]);
                }
            }
            assert(t =~= q.subrange(0, n));
        }
    }
}


/// Walks the directory path `dirsegs[idx..]` from `node` without touching
/// it, reporting whether the walk is unobstructed by a leaf.
pub fn path_clear(node: &FileTreeNode, dirsegs: &Vec<String>, idx: usize) -> (r: bool)
    requires
        node.wf(),
        idx <= dirsegs@.len(),
    ensures
        r == node.dir_path_clear(views_of(dirsegs@).skip(idx as int)),
    decreases dirsegs@.len() - idx,
{
    let ghost ds = views_of(dirsegs@).skip(idx as int);
    match node {
        FileTreeNode::File(_) => false,
        FileTreeNode::Directory(ch) => {
            if idx == dirsegs.len() {
                proof {
                    assert(ds.len() == 0);
                }
                return true;
            }
            proof {
                assert(ds[0] == dirsegs@[idx as int]@);
                assert(ds.drop_first() =~= views_of(dirsegs@).skip(idx + 1));
            }
            match find_child_idx(ch, dirsegs[idx].as_str()) {
                Option::None => {
                    proof {
                        lemma_find_child_none_iff(ch@, ds[0]);
                    }
                    true
                },
                Option::Some(i) => {
                    proof {
                        lemma_find_child_at(ch@, ds[0], i as int);
                    }
                    path_clear(&ch[i].1, dirsegs, idx + 1)
                },
            }
        },
    }
}

/// Walks the directory path `dirsegs[idx..]` from `node`, creating missing
/// directories, and, when `asset` is given, stores it under `filename` in
/// the directory reached, replacing any child of that name. The walk must
/// be unobstructed.
#[verifier::rlimit(100)]
pub fn ingest_at(
    node: FileTreeNode,
    dirsegs: &Vec<String>,
    idx: usize,
    filename: &String,
    asset: Option<Asset>,
) -> (t: FileTreeNode)
    requires
        node.wf(),
        idx <= dirsegs@.len(),
        node.dir_path_clear(views_of(dirsegs@).skip(idx as int)),
        asset matches Some(a) ==> a.wf() && a.path@ == filename@,
    ensures
        ({
            let ds = views_of(dirsegs@).skip(idx as int);
            let target = ds.push(filename@);
            &&& t.wf()
            &&& t is Directory
            &&& t.lookup(ds) is Some && t.lookup(ds)->Some_0 is Directory
            &&& match asset {
                Option::Some(a) => t.file_at(target) == Some(a),
                Option::None => true,
            }
            &&& asset is None ==> (forall|q: Seq<Seq<char>>|
                #[trigger] t.file_at(q) == node.file_at(q))
            &&& asset is None ==> (forall|q: Seq<Seq<char>>|
                #[trigger] t.dir_path_clear(q) == node.dir_path_clear(q))
            &&& forall|q: Seq<Seq<char>>|
                !target.is_prefix_of(q) ==> #[trigger] t.file_at(q) == node.file_at(q)
            &&& forall|q: Seq<Seq<char>>|
                !target.is_prefix_of(q) ==> #[trigger] t.dir_path_clear(q)
                    == node.dir_path_clear(q)
        }),
    decreases dirsegs@.len() - idx,
{
    let ghost node0 = node;
    let ghost assetg = asset;
    let ghost ds = views_of(dirsegs@).skip(idx as int);
    let ghost target = ds.push(filename@);
    let mut ch: Vec<(String, FileTreeNode)>;
    match node {
        FileTreeNode::File(a0) => {
            proof {
                assert(false);
            }
            return (FileTreeNode::File(a0));
        },
        FileTreeNode::Directory(c) => {
            ch = c;
        },
    }
    let ghost ch0 = ch@;
    proof {
        assert(node0 == FileTreeNode::Directory(ch));
    }
    if idx == dirsegs.len() {
        proof {
            assert(ds.len() == 0);
            assert(target[0] == filename@);
            assert(target.drop_first() =~= Seq::<Seq<char>>::empty());
        }
        match asset {
            Option::None => {
                let t = FileTreeNode::Directory(ch);
                proof {
                    assert(t == node0);
                    assert(t.lookup(ds) == Some(t));
                    assert(forall|q: Seq<Seq<char>>| #[trigger] t.file_at(q) == node0.file_at(q));
                    assert(forall|q: Seq<Seq<char>>| #[trigger] t.dir_path_clear(q) == node0.dir_path_clear(q));
                }
                return t;
            },
            Option::Some(a) => {
                let ghost ag = a;
                let pair = (String::from_str(filename.as_str()), FileTreeNode::File(a));
                let ghost pairg = pair;
                proof {
                    assert(pairg.0@ == filename@);
                    assert(pairg.1 == FileTreeNode::File(ag));
                    assert(pairg.1.wf());
                    assert(FileTreeNode::File(ag).file_at(Seq::<Seq<char>>::empty()) == Some(ag));
                }
                match find_child_idx(&ch, filename.as_str()) {
                    Option::Some(i) => {
                        ch.remove(i);
                        ch.insert(i, pair);
                        proof {
                            assert(ch@ =~= ch0.update(i as int, pairg));
                            lemma_find_child_update(ch0, i as int, pairg);
                        }
                    },
                    Option::None => {
                        ch.push(pair);
                        proof {
                            assert(ch@ =~= ch0.push(pairg));
                            lemma_find_child_push(ch0, pairg);
                            lemma_find_child_none_iff(ch0, filename@);
                        }
                    },
                }
                let t = FileTreeNode::Directory(ch);
                proof {
                    assert forall|i2: int, j2: int| 0 <= i2 < j2 < ch@.len() implies ch@[i2].0@
                        != ch@[j2].0@ by {
                        assert(ch@[i2].0@ == ch0[i2].0@ || ch@[i2].0@ == filename@);
                        assert(ch@[j2].0@ == ch0[j2].0@ || ch@[j2].0@ == filename@);
                    }
                    assert forall|k: int| 0 <= k < ch@.len() implies (#[trigger] ch@[k].1).wf()
                        && (ch@[k].1 matches FileTreeNode::File(fa) ==> fa.path@
                        == ch@[k].0@) by {
                        if ch@[k] == pairg {
                        } else {
                            assert(ch@[k] == ch0[k]);
                        }
                    }
                    assert(t.wf());
                    assert(t.lookup(ds) == Some(t));
                    assert(find_child(ch@, filename@) == Some(pairg.1));
                    assert(t.lookup(target) == pairg.1.lookup(target.drop_first()));
                    assert(t.file_at(target) == Some(ag));
                    assert forall|q: Seq<Seq<char>>| !target.is_prefix_of(q) implies #[trigger] t
                        .file_at(q) == node0.file_at(q) by {
                        if q.len() == 0 {
                        } else if q[0] == filename@ {
                            assert(target =~= q.subrange(0, 1));
                            assert(target.is_prefix_of(q));
                        } else {
                            assert(find_child(ch@, q[0]) == find_child(ch0, q[0]));
                        }
                    }
                    assert forall|q: Seq<Seq<char>>| !target.is_prefix_of(q) implies #[trigger] t
                        .dir_path_clear(q) == node0.dir_path_clear(q) by {
                        if q.len() == 0 {
                        } else if q[0] == filename@ {
                            assert(target =~= q.subrange(0, 1));
                            assert(target.is_prefix_of(q));
                        } else {
                            assert(find_child(ch@, q[0]) == find_child(ch0, q[0]));
                        }
                    }
                }
                return t;
            },
        }
    }
    proof {
        assert(ds.len() >= 1);
        assert(ds[0] == dirsegs@[idx as int]@);
        assert(ds.drop_first() =~= views_of(dirsegs@).skip(idx + 1));
        assert(target[0] == ds[0]);
        assert(target.drop_first() =~= ds.drop_first().push(filename@));
    }
    let ghost dst = ds.drop_first();
    let ghost targett = target.drop_first();
    let seg = &dirsegs[idx];
    match find_child_idx(&ch, seg.as_str()) {
        Option::Some(i) => {
            proof {
                lemma_find_child_at(ch0, ds[0], i as int);
            }
            let (key, child) = ch.remove(i);
            let ghost keyg = key;
            let ghost childg = child;
            proof {
                assert(childg == ch0[i as int].1);
                assert(keyg == ch0[i as int].0);
                assert(childg.wf());
                assert(childg.dir_path_clear(dst));
            }
            let child2 = ingest_at(child, dirsegs, idx + 1, filename, asset);
            let ghost child2g = child2;
            ch.insert(i, (key, child2));
            let t = FileTreeNode::Directory(ch);
            proof {
                assert(ch@ =~= ch0.update(i as int, (keyg, child2g)));
                lemma_find_child_update(ch0, i as int, (keyg, child2g));
                assert forall|i2: int, j2: int| 0 <= i2 < j2 < ch@.len() implies ch@[i2].0@
                    != ch@[j2].0@ by {
                    assert(ch@[i2].0@ == ch0[i2].0@);
                    assert(ch@[j2].0@ == ch0[j2].0@);
                }
                assert forall|k: int| 0 <= k < ch@.len() implies (#[trigger] ch@[k].1).wf() && (
                ch@[k].1 matches FileTreeNode::File(fa) ==> fa.path@ == ch@[k].0@) by {
                    if k != i {
                        assert(ch@[k] == ch0[k]);
                    } else {
                        assert(ch@[k].1 == child2g);
                    }
                }
                assert(t.wf());
                assert(find_child(ch@, ds[0]) == Some(child2g));
                assert(t.lookup(ds) == child2g.lookup(dst));
                assert(t.lookup(target) == child2g.lookup(targett));
                if assetg is Some {
                    assert(t.file_at(target) == child2g.file_at(targett));
                }
                assert forall|q: Seq<Seq<char>>| !target.is_prefix_of(q) implies #[trigger] t
                    .file_at(q) == node0.file_at(q) by {
                    if q.len() == 0 {
                    } else if q[0] == ds[0] {
                        lemma_prefix_step(target, q);
                        assert(!targett.is_prefix_of(q.drop_first()));
                        assert(t.file_at(q) == child2g.file_at(q.drop_first()));
                        assert(node0.file_at(q) == childg.file_at(q.drop_first()));
                    } else {
                        assert(find_child(ch@, q[0]) == find_child(ch0, q[0]));
                    }
                }
                assert forall|q: Seq<Seq<char>>| !target.is_prefix_of(q) implies #[trigger] t
                    .dir_path_clear(q) == node0.dir_path_clear(q) by {
                    if q.len() == 0 {
                    } else if q[0] == ds[0] {
                        lemma_prefix_step(target, q);
                        assert(!targett.is_prefix_of(q.drop_first()));
                        assert(t.dir_path_clear(q) == child2g.dir_path_clear(q.drop_first()));
                        assert(node0.dir_path_clear(q) == childg.dir_path_clear(q.drop_first()));
                    } else {
                        assert(find_child(ch@, q[0]) == find_child(ch0, q[0]));
                    }
                }
                if assetg is None {
                    assert forall|q: Seq<Seq<char>>| #[trigger] t.file_at(q) == node0.file_at(
                        q,
                    ) by {
                        if q.len() == 0 {
                        } else if q[0] == ds[0] {
                            assert(t.file_at(q) == child2g.file_at(q.drop_first()));
                            assert(node0.file_at(q) == childg.file_at(q.drop_first()));
                        } else {
                            assert(find_child(ch@, q[0]) == find_child(ch0, q[0]));
                        }
                    }
                    assert forall|q: Seq<Seq<char>>| #[trigger] t.dir_path_clear(q)
                        == node0.dir_path_clear(q) by {
                        if q.len() == 0 {
                        } else if q[0] == ds[0] {
                            assert(t.dir_path_clear(q) == child2g.dir_path_clear(
                                q.drop_first(),
                            ));
                            assert(node0.dir_path_clear(q) == childg.dir_path_clear(
                                q.drop_first(),
                            ));
                        } else {
                            assert(find_child(ch@, q[0]) == find_child(ch0, q[0]));
                        }
                    }
                }
            }
            t
        },
        Option::None => {
            proof {
                lemma_find_child_none_iff(ch0, ds[0]);
                assert(find_child(ch0, ds[0]) is None);
            }
            let sub = FileTreeNode::Directory(Vec::new());
            let ghost subg = sub;
            proof {
                assert(subg.wf());
                lemma_empty_dir(subg, dst);
            }
            let child2 = ingest_at(sub, dirsegs, idx + 1, filename, asset);
            let ghost child2g = child2;
            let pair = (String::from_str(seg.as_str()), child2);
            let ghost pairg = pair;
            ch.push(pair);
            let t = FileTreeNode::Directory(ch);
            proof {
                assert(pairg.0@ == ds[0]);
                assert(ch@ =~= ch0.push(pairg));
                lemma_find_child_push(ch0, pairg);
                assert forall|i2: int, j2: int| 0 <= i2 < j2 < ch@.len() implies ch@[i2].0@
                    != ch@[j2].0@ by {
                    if j2 < ch0.len() {
                        assert(ch@[i2] == ch0[i2] && ch@[j2] == ch0[j2]);
                    } else {
                        assert(ch@[i2] == ch0[i2] && ch@[j2] == pairg);
                    }
                }
                assert forall|k: int| 0 <= k < ch@.len() implies (#[trigger] ch@[k].1).wf() && (
                ch@[k].1 matches FileTreeNode::File(fa) ==> fa.path@ == ch@[k].0@) by {
                    if k < ch0.len() {
                        assert(ch@[k] == ch0[k]);
                    } else {
                        assert(ch@[k].1 == child2g);
                    }
                }
                assert(t.wf());
                assert(find_child(ch@, ds[0]) == Some(child2g));
                assert(t.lookup(ds) == child2g.lookup(dst));
                assert(t.lookup(target) == child2g.lookup(targett));
                if assetg is Some {
                    assert(t.file_at(target) == child2g.file_at(targett));
                }
                assert forall|q: Seq<Seq<char>>| !target.is_prefix_of(q) implies #[trigger] t
                    .file_at(q) == node0.file_at(q) by {
                    if q.len() == 0 {
                    } else if q[0] == ds[0] {
                        lemma_prefix_step(target, q);
                        assert(!targett.is_prefix_of(q.drop_first()));
                        assert(t.file_at(q) == child2g.file_at(q.drop_first()));
                        assert(child2g.file_at(q.drop_first()) == subg.file_at(q.drop_first()));
                        lemma_empty_dir(subg, q.drop_first());
                        assert(node0.file_at(q) is None);
                    } else {
                        assert(find_child(ch@, q[0]) == find_child(ch0, q[0]));
                    }
                }
                assert forall|q: Seq<Seq<char>>| !target.is_prefix_of(q) implies #[trigger] t
                    .dir_path_clear(q) == node0.dir_path_clear(q) by {
                    if q.len() == 0 {
                    } else if q[0] == ds[0] {
                        lemma_prefix_step(target, q);
                        assert(!targett.is_prefix_of(q.drop_first()));
                        assert(t.dir_path_clear(q) == child2g.dir_path_clear(q.drop_first()));
                        assert(child2g.dir_path_clear(q.drop_first()) == subg.dir_path_clear(
                            q.drop_first(),
                        ));
                        lemma_empty_dir(subg, q.drop_first());
                        assert(node0.dir_path_clear(q));
                    } else {
                        assert(find_child(ch@, q[0]) == find_child(ch0, q[0]));
                    }
                }
                if assetg is None {
                    assert forall|q: Seq<Seq<char>>| #[trigger] t.file_at(q) == node0.file_at(
                        q,
                    ) by {
                        if q.len() == 0 {
                        } else if q[0] == ds[0] {
                            assert(t.file_at(q) == child2g.file_at(q.drop_first()));
                            assert(child2g.file_at(q.drop_first()) == subg.file_at(
                                q.drop_first(),
                            ));
                            lemma_empty_dir(subg, q.drop_first());
                            assert(node0.file_at(q) is None);
                        } else {
                            assert(find_child(ch@, q[0]) == find_child(ch0, q[0]));
                        }
                    }
                    assert forall|q: Seq<Seq<char>>| #[trigger] t.dir_path_clear(q)
                        == node0.dir_path_clear(q) by {
                        if q.len() == 0 {
                        } else if q[0] == ds[0] {
                            assert(t.dir_path_clear(q) == child2g.dir_path_clear(
                                q.drop_first(),
                            ));
                            assert(child2g.dir_path_clear(q.drop_first()) == subg.dir_path_clear(
                                q.drop_first(),
                            ));
                            lemma_empty_dir(subg, q.drop_first());
                            assert(node0.dir_path_clear(q));
                        } else {
                            assert(find_child(ch@, q[0]) == find_child(ch0, q[0]));
                        }
                    }
                }
            }
            t
        },
    }
}

} // verus!
