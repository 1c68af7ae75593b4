//! The asset registry: the file tree, the identifier map and the GPU upload
//! cache, with the rescan and lookup operations.
//!
//! Filesystem walking and the GPU upload itself are outside work: the
//! registry exposes one decision step per walked file (`scan_entry`), one
//! ingestion step (`apply_ingest`), and one query/store pair for the upload
//! cache (`get_texture_step`, `store_texture`). The application layer drives
//! those steps around its walker and its device queue.

use vstd::prelude::*;
use std::collections::HashMap;
use crate::asset::{
    find_child, find_child_idx, ingest_at, lemma_find_child_at, lemma_find_child_none_iff,
    lookup_node, path_clear, Asset, AssetData, FileTreeNode,
};
use crate::decode::{ingestible, process_file, spec_payload, spec_settings};
use crate::path::{
    filter_nonempty, join_segments, nonempty_segs, spec_join, spec_split, spec_strip_from,
    split_from, str_eq, strip_prefix_repeated, views_of,
};
use crate::texture::{PixelFormat, Texture};

verus! {

broadcast use vstd::std_specs::hash::group_hash_axioms;

/// The errors the registry surfaces: a base path that does not resolve at
/// construction, an error of the directory walker, and a reserved wrapper
/// for other diagnostics.
#[derive(Debug)]
pub enum AssetRegistryError {
    PathDoesNotExist(String),
    WalkDirError(String),
    Other(String),
}

impl AssetRegistryError {
    /// A human-readable account of the error.
    pub fn describe(&self) -> (r: String)
        ensures
            match self {
                AssetRegistryError::PathDoesNotExist(p) => r@ == "Path does not exist: '"@ + p@
                    + "'"@,
                AssetRegistryError::WalkDirError(m) => r@ == m@,
                AssetRegistryError::Other(m) => r@ == m@,
            },
    {
        match self {
            AssetRegistryError::PathDoesNotExist(p) => {
                let mut s = String::from_str("Path does not exist: '");
                s.append(p.as_str());
                s.append("'");
                s
            },
            AssetRegistryError::WalkDirError(m) => String::from_str(m.as_str()),
            AssetRegistryError::Other(m) => String::from_str(m.as_str()),
        }
    }
}

/// What a rescan should do with one walked file.
#[derive(Clone, Copy, Debug, PartialEq, Eq, Structural)]
pub enum ScanDecision {
    /// An entry with the same name and an equal timestamp is already
    /// indexed: do not ingest.
    Skip,
    /// The file is new or its timestamp changed: read it and ingest.
    Ingest,
    /// A leaf stands where a directory is required; the walk cannot proceed.
    PathConflict,
    /// The walked path has no segments beyond the base root.
    BadPath,
}

/// What one ingestion step did.
#[derive(Clone, Copy, Debug, PartialEq, Eq, Structural)]
pub enum IngestOutcome {
    /// An asset was decoded and stored; its fresh identifier is carried.
    Added { uid: u64 },
    /// The file is not ingestible (extension or color type unsupported);
    /// only missing directories were created.
    Skipped,
    /// A leaf stands where a directory is required; nothing was changed.
    PathConflict,
    /// The walked path has no segments beyond the base root.
    BadPath,
}

/// The payload handed to the external uploader on a cache miss.
pub struct UploadRequest {
    pub data: Vec<u8>,
    pub width: u32,
    pub height: u32,
    pub format: PixelFormat,
}

/// The answer of the upload cache for one path.
pub enum TextureQuery {
    /// No asset resolves at the path.
    NoAsset,
    /// The path was uploaded before; here is the memoized handle.
    Cached(Texture),
    /// The asset exists but was never uploaded: hand this to the uploader,
    /// then store the handle.
    NeedsUpload(UploadRequest),
}

/// The first handle stored under `key`, if any.
pub open spec fn cache_find(c: Seq<(String, Texture)>, key: Seq<char>) -> Option<Texture>
    decreases c.len(),
{
    if c.len() == 0 {
        None
    } else if c[0].0@ == key {
        Some(c[0].1)
    } else {
        cache_find(c.drop_first(), key)
    }
}

/// The path segments of `path` relative to the base root: split on
/// separators, with the first segment (the base-path root) dropped.
pub open spec fn norm_segs(path: Seq<char>) -> Seq<Seq<char>> {
    spec_split(path).drop_first()
}

/// The decision for one walked file with segments `segs` (directory path
/// plus file name) and modification time `mtime`.
pub open spec fn decision_of(tree: FileTreeNode, segs: Seq<Seq<char>>, mtime: i64) -> ScanDecision
    recommends
        segs.len() >= 1,
{
    if !tree.dir_path_clear(segs.drop_last()) {
        ScanDecision::PathConflict
    } else {
        match tree.file_at(segs) {
            Option::Some(a) => if a.timestamp == mtime {
                ScanDecision::Skip
            } else {
                ScanDecision::Ingest
            },
            Option::None => ScanDecision::Ingest,
        }
    }
}

/// The assets of the leaf children of a directory, in child order.
pub open spec fn dir_files(ch: Seq<(String, FileTreeNode)>) -> Seq<Asset>
    decreases ch.len(),
{
    if ch.len() == 0 {
        Seq::empty()
    } else {
        let r = dir_files(ch.drop_last());
        match ch.last().1 {
            FileTreeNode::File(a) => r.push(a),
            FileTreeNode::Directory(_) => r,
        }
    }
}

/// The registry: base path prefixes, the file tree, the path-keyed upload
/// cache, and the identifier-to-path map.
#[derive(Debug)]
pub struct AssetRegistry {
    pub base_path_relative: String,
    pub base_path_absolute: String,
    pub file_tree: FileTreeNode,
    pub cached_texture_arcs: Vec<(String, Texture)>,
    pub uid_to_path: HashMap<u64, String>,
}

impl AssetRegistry {
    /// The registry's invariant: the file tree is a well-formed directory.
    pub open spec fn wf(self) -> bool {
        &&& self.file_tree.wf()
        &&& self.file_tree is Directory
    }

    /// The decision `scan_entry` reaches for a walked path and time.
    pub open spec fn scan_decision_spec(self, path: Seq<char>, mtime: i64) -> ScanDecision {
        let segs = norm_segs(path);
        if segs.len() == 0 {
            ScanDecision::BadPath
        } else {
            decision_of(self.file_tree, segs, mtime)
        }
    }

    /// The asset `get_asset` resolves: the base-path prefix is stripped
    /// repeatedly, the remainder split on separators, empty segments
    /// dropped, and the walk must end at a leaf.
    pub open spec fn get_asset_spec(self, path: Seq<char>) -> Option<Asset> {
        let segs = nonempty_segs(
            spec_split(path.skip(spec_strip_from(path, self.base_path_absolute@, 0))),
        );
        if segs.len() == 0 {
            None
        } else {
            self.file_tree.file_at(segs)
        }
    }

    /// The listing `get_assets_in_directory` returns: the path split on
    /// separators must resolve to a directory, whose leaf children are
    /// listed in order.
    pub open spec fn assets_in_directory_spec(self, path: Seq<char>) -> Option<Seq<Asset>> {
        match self.file_tree.lookup(spec_split(path)) {
            Option::Some(FileTreeNode::Directory(ch)) => Some(dir_files(ch@)),
            _ => None,
        }
    }

    /// Builds a registry over an existing base path. The caller reports
    /// whether the relative base path resolves on the filesystem;
    /// construction fails exactly when it does not.
    pub fn new(base_path_relative: &str, base_path_absolute: &str, base_exists: bool) -> (r:
        Result<AssetRegistry, AssetRegistryError>)
        ensures
            match r {
                Result::Ok(reg) => {
                    &&& base_exists
                    &&& reg.wf()
                    &&& reg.base_path_relative@ == base_path_relative@
                    &&& reg.base_path_absolute@ == base_path_absolute@
                    &&& reg.file_tree matches FileTreeNode::Directory(ch) && ch@.len() == 0
                    &&& reg.cached_texture_arcs@.len() == 0
                    &&& reg.uid_to_path@ == Map::<u64, String>::empty()
                },
                Result::Err(e) => {
                    &&& !base_exists
                    &&& e matches AssetRegistryError::PathDoesNotExist(p) && p@
                        == base_path_relative@
                },
            },
    {
        if base_exists {
            Ok(
                AssetRegistry {
                    base_path_relative: String::from_str(base_path_relative),
                    base_path_absolute: String::from_str(base_path_absolute),
                    file_tree: FileTreeNode::Directory(Vec::new()),
                    cached_texture_arcs: Vec::new(),
                    uid_to_path: HashMap::new(),
                },
            )
        } else {
            Err(AssetRegistryError::PathDoesNotExist(String::from_str(base_path_relative)))
        }
    }

    /// Decides what a rescan should do with one walked file, given its
    /// full path as the walker yields it and its modification time.
    pub fn scan_entry(&self, full_path: &str, mtime: i64) -> (d: ScanDecision)
        requires
            self.wf(),
        ensures
            d == self.scan_decision_spec(full_path@, mtime),
    {
        let mut segs = split_from(full_path, 0);
        proof {
            assert(full_path@.skip(0int) =~= full_path@);
        }
        segs.remove(0);
        proof {
            assert(views_of(segs@) =~= norm_segs(full_path@));
        }
        if segs.len() == 0 {
            return ScanDecision::BadPath;
        }
        let d = decide_at(&self.file_tree, &segs, 0, mtime);
        proof {
            assert(views_of(segs@).skip(0int) =~= views_of(segs@));
        }
        d
    }

    /// Ingests one walked file: creates the missing directories on its
    /// path, decodes its bytes, and stores the asset under its file name,
    /// replacing any entry of that name; the fresh identifier is recorded
    /// against the slash-joined relative path. Files that are not
    /// ingestible only have their directories created. An obstructed path
    /// changes nothing.
    pub fn apply_ingest(&mut self, full_path: &str, mtime: i64, bytes: &[u8]) -> (o: IngestOutcome)
        requires
            old(self).wf(),
            full_path@.len() < usize::MAX,
        ensures
            final(self).wf(),
            final(self).base_path_relative == old(self).base_path_relative,
            final(self).base_path_absolute == old(self).base_path_absolute,
            final(self).cached_texture_arcs == old(self).cached_texture_arcs,
            ({
                let segs = norm_segs(full_path@);
                let ds = segs.drop_last();
                let f = segs.last();
                &&& (o is BadPath <==> segs.len() == 0)
                &&& segs.len() >= 1 ==> (o is PathConflict <==> !old(
                    self,
                ).file_tree.dir_path_clear(ds))
                &&& (o is BadPath || o is PathConflict) ==> final(self).file_tree == old(
                    self,
                ).file_tree && final(self).uid_to_path@ == old(self).uid_to_path@
                &&& (segs.len() >= 1 && old(self).file_tree.dir_path_clear(ds)) ==> {
                    &&& (o matches IngestOutcome::Added { .. } <==> ingestible(f, bytes@))
                    &&& final(self).file_tree.lookup(ds) is Some
                    &&& final(self).file_tree.lookup(ds)->Some_0 is Directory
                    &&& forall|q: Seq<Seq<char>>|
                        !segs.is_prefix_of(q) ==> #[trigger] final(self).file_tree.file_at(q)
                            == old(self).file_tree.file_at(q)
                    &&& forall|q: Seq<Seq<char>>|
                        !segs.is_prefix_of(q) ==> #[trigger] final(self).file_tree.dir_path_clear(
                            q,
                        ) == old(self).file_tree.dir_path_clear(q)
                }
                &&& match o {
                    IngestOutcome::Added { uid } => {
                        &&& final(self).file_tree.file_at(segs) matches Some(a) && (a.path@ == f
                            && a.timestamp == mtime && a.uid == uid && a.thumbnail_id is None
                            && (a.data matches AssetData::Texture(t) && (t.data@ == spec_payload(
                            bytes@,
                        ) && t.settings == spec_settings(bytes@))))
                        &&& final(self).uid_to_path@.contains_key(uid)
                        &&& final(self).uid_to_path@[uid]@ == spec_join(segs)
                        &&& forall|k: u64|
                            k != uid ==> #[trigger] final(self).uid_to_path@.contains_key(k)
                                == old(self).uid_to_path@.contains_key(k)
                        &&& forall|k: u64|
                            k != uid && old(self).uid_to_path@.contains_key(k)
                                ==> final(self).uid_to_path@[k] == #[trigger] old(
                                self,
                            ).uid_to_path@[k]
                    },
                    IngestOutcome::Skipped => {
                        &&& final(self).uid_to_path@ == old(self).uid_to_path@
                        &&& forall|q: Seq<Seq<char>>| #[trigger]
                            final(self).file_tree.file_at(q) == old(self).file_tree.file_at(q)
                        &&& forall|q: Seq<Seq<char>>| #[trigger]
                            final(self).file_tree.dir_path_clear(q) == old(
                                self,
                            ).file_tree.dir_path_clear(q)
                    },
                    _ => true,
                }
            }),
    {
        let mut segs = split_from(full_path, 0);
        proof {
            assert(full_path@.skip(0int) =~= full_path@);
        }
        segs.remove(0);
        proof {
            assert(views_of(segs@) =~= norm_segs(full_path@));
        }
        if segs.len() == 0 {
            return IngestOutcome::BadPath;
        }
        let filename = match segs.pop() {
            Option::Some(f) => f,
            Option::None => {
                proof {
                    assert(false);
                }
                String::new()
            },
        };
        let ghost allsegs = norm_segs(full_path@);
        proof {
            assert(views_of(segs@) =~= allsegs.drop_last());
            assert(filename@ == allsegs.last());
        }
        if !path_clear(&self.file_tree, &segs, 0) {
            proof {
                assert(views_of(segs@).skip(0) =~= views_of(segs@));
            }
            return IngestOutcome::PathConflict;
        }
        proof {
            assert(views_of(segs@).skip(0) =~= views_of(segs@));
            crate::path::lemma_split_seg_len(full_path@);
            let sp = spec_split(full_path@);
            assert(allsegs == sp.drop_first());
            assert(filename@ == sp[sp.len() - 1]);
            assert(filename@.len() <= full_path@.len());
        }
        let asset_opt = process_file(filename.as_str(), mtime, bytes);
        let mut tree = FileTreeNode::Directory(Vec::new());
        core::mem::swap(&mut tree, &mut self.file_tree);
        let ghost tree0 = tree;
        match asset_opt {
            Option::None => {
                let t = ingest_at(tree, &segs, 0, &filename, None);
                self.file_tree = t;
                proof {
                    assert(allsegs.drop_last().push(allsegs.last()) =~= allsegs);
                }
                IngestOutcome::Skipped
            },
            Option::Some(asset) => {
                let uid = asset.uid;
                let ghost assetg = asset;
                let t = ingest_at(tree, &segs, 0, &filename, Some(asset));
                self.file_tree = t;
                segs.push(filename);
                proof {
                    assert(views_of(segs@) =~= allsegs);
                }
                let joined = join_segments(&segs);
                self.uid_to_path.insert(uid, joined);
                proof {
                    assert(allsegs.drop_last().push(allsegs.last()) =~= allsegs);
                    assert(final(self).file_tree.file_at(allsegs) == Some(assetg));
                }
                IngestOutcome::Added { uid }
            },
        }
    }

    /// Resolves an asset by path: the absolute base prefix is stripped,
    /// the remainder split on separators with empty segments dropped, and
    /// the walk from the root must end exactly at a leaf.
    pub fn get_asset(&self, path: &str) -> (r: Option<&Asset>)
        requires
            self.wf(),
        ensures
            match r {
                Option::Some(a) => self.get_asset_spec(path@) == Some(*a),
                Option::None => self.get_asset_spec(path@) is None,
            },
    {
        let k = strip_prefix_repeated(path, self.base_path_absolute.as_str());
        let raw = split_from(path, k);
        let segs = filter_nonempty(raw);
        if segs.len() == 0 {
            return None;
        }
        proof {
            assert(views_of(segs@).skip(0) =~= views_of(segs@));
        }
        match lookup_node(&self.file_tree, &segs, 0) {
            Option::Some(node) => match node {
                FileTreeNode::File(a) => Some(a),
                FileTreeNode::Directory(_) => None,
            },
            Option::None => None,
        }
    }

    /// Lists the leaf children of the directory that `path` resolves to,
    /// in child order. A path that misses, or that resolves to a file,
    /// yields nothing.
    pub fn get_assets_in_directory(&self, path: &str) -> (r: Option<Vec<&Asset>>)
        requires
            self.wf(),
        ensures
            match r {
                Option::Some(v) => self.assets_in_directory_spec(path@) matches Some(s) && v@
                    .map_values(|a: &Asset| *a) == s,
                Option::None => self.assets_in_directory_spec(path@) is None,
            },
    {
        let segs = split_from(path, 0);
        proof {
            assert(path@.skip(0int) =~= path@);
            assert(views_of(segs@).skip(0int) =~= views_of(segs@));
        }
        match lookup_node(&self.file_tree, &segs, 0) {
            Option::Some(node) => match node {
                FileTreeNode::Directory(ch) => {
                    let n = ch.len();
                    let mut out: Vec<&Asset> = Vec::new();
                    proof {
                        assert(ch@.take(0) =~= Seq::<(String, FileTreeNode)>::empty());
                        assert(out@.map_values(|a: &Asset| *a) =~= dir_files(ch@.take(0)));
                    }
                    let mut i: usize = 0;
                    while i < n
                        invariant
                            0 <= i <= n,
                            n == ch@.len(),
                            out@.map_values(|a: &Asset| *a) == dir_files(ch@.take(i as int)),
                        decreases n - i,
                    {
                        proof {
                            assert(ch@.take(i + 1).drop_last() =~= ch@.take(i as int));
                            assert(ch@.take(i + 1).last() == ch@[i as int]);
                        }
                        match &ch[i] {
                            (_, FileTreeNode::File(a)) => {
                                out.push(a);
                                proof {
                                    assert(out@.map_values(|a: &Asset| *a) =~= dir_files(
                                        ch@.take(i as int),
                                    ).push(ch@[i as int].1->File_0));
                                }
                            },
                            _ => {
                                proof {
                                    assert(out@.map_values(|a: &Asset| *a) =~= dir_files(
                                        ch@.take(i + 1),
                                    ));
                                }
                            },
                        }
                        i += 1;
                    }
                    proof {
                        assert(ch@.take(n as int) =~= ch@);
                    }
                    Some(out)
                },
                FileTreeNode::File(_) => None,
            },
            Option::None => None,
        }
    }

    /// The slash-joined path recorded for an identifier at its ingestion.
    pub fn get_path_from_id(&self, id: u64) -> (r: Option<&String>)
        ensures
            match r {
                Option::Some(p) => self.uid_to_path@.contains_key(id) && *p
                    == self.uid_to_path@[id],
                Option::None => !self.uid_to_path@.contains_key(id),
            },
    {
        self.uid_to_path.get(&id)
    }

    /// One step of the upload cache: no asset, a memoized handle, or the
    /// payload that the external uploader needs. The payload handed out is
    /// the asset's own RGBA8 bytes and source extent; its format tag is
    /// RGBA8-sRGB because ingestion produces nothing else.
    /// Whether a call for `path` would have to invoke the external
    /// uploader: an asset resolves there and no handle is memoized yet.
    pub open spec fn upload_needed(self, path: Seq<char>) -> bool {
        self.get_asset_spec(path) is Some && cache_find(self.cached_texture_arcs@, path) is None
    }

    pub fn get_texture_step(&self, path: &str) -> (q: TextureQuery)
        requires
            self.wf(),
        ensures
            q is NeedsUpload <==> self.upload_needed(path@),
            match q {
                TextureQuery::NoAsset => self.get_asset_spec(path@) is None,
                TextureQuery::Cached(t) => self.get_asset_spec(path@) is Some && cache_find(
                    self.cached_texture_arcs@,
                    path@,
                ) == Some(t),
                TextureQuery::NeedsUpload(req) => {
                    &&& self.get_asset_spec(path@) matches Some(a) && (a.data matches
                        AssetData::Texture(td) && (req.data@ == td.data@ && req.width
                        == td.settings.source_size.width && req.height
                        == td.settings.source_size.height && req.format == td.settings.format))
                    &&& cache_find(self.cached_texture_arcs@, path@) is None
                    &&& req.format == PixelFormat::R8G8B8A8Srgb
                },
            },
    {
        let asset = match self.get_asset(path) {
            Option::Some(a) => a,
            Option::None => {
                return TextureQuery::NoAsset;
            },
        };
        match cache_get(&self.cached_texture_arcs, path) {
            Option::Some(t) => TextureQuery::Cached(t),
            Option::None => {
                match &asset.data {
                    AssetData::Texture(td) => {
                        proof {
                            lemma_resolved_asset_invariants(*self, path@);
                        }
                        TextureQuery::NeedsUpload(
                            UploadRequest {
                                data: copy_bytes(&td.data),
                                width: td.settings.source_size.width,
                                height: td.settings.source_size.height,
                                format: td.settings.format,
                            },
                        )
                    },
                }
            },
        }
    }

    /// Memoizes an uploaded handle under the caller-supplied path string.
    /// A later query for the same path finds this handle; other paths are
    /// untouched.
    pub fn store_texture(&mut self, path: &str, tex: Texture)
        ensures
            final(self).wf() == old(self).wf(),
            final(self).file_tree == old(self).file_tree,
            final(self).uid_to_path == old(self).uid_to_path,
            final(self).base_path_relative == old(self).base_path_relative,
            final(self).base_path_absolute == old(self).base_path_absolute,
            cache_find(final(self).cached_texture_arcs@, path@) == Some(tex),
            forall|k: Seq<char>|
                k != path@ ==> #[trigger] cache_find(final(self).cached_texture_arcs@, k)
                    == cache_find(old(self).cached_texture_arcs@, k),
    {
        let ghost c0 = self.cached_texture_arcs@;
        let pair = (String::from_str(path), tex);
        let ghost pairg = pair;
        self.cached_texture_arcs.insert(0, pair);
        proof {
            assert(self.cached_texture_arcs@[0] == pairg);
            assert(self.cached_texture_arcs@.drop_first() =~= c0);
        }
    }
}

/// Every asset a well-formed registry resolves satisfies the payload
/// bookkeeping: its payload is tightly packed RGBA8 whose length equals the
/// recorded uncompressed size and four bytes per source pixel, nothing is
/// compressed, and the format tag is RGBA8-sRGB.
pub proof fn lemma_resolved_asset_invariants(reg: AssetRegistry, path: Seq<char>)
    requires
        reg.wf(),
        reg.get_asset_spec(path) is Some,
    ensures
        ({
            let a = reg.get_asset_spec(path)->Some_0;
            &&& a.data matches AssetData::Texture(t) && {
                &&& t.settings.format == PixelFormat::R8G8B8A8Srgb
                &&& t.data@.len() == t.settings.data_size.uncompressed as int
                &&& t.settings.data_size.uncompressed as int == 4 * (
                t.settings.source_size.width as int) * (t.settings.source_size.height as int)
                &&& t.settings.data_size.compressed == 0
            }
        }),
{
    let segs = nonempty_segs(
        spec_split(path.skip(spec_strip_from(path, reg.base_path_absolute@, 0))),
    );
    crate::asset::lemma_lookup_wf(reg.file_tree, segs);
}

/// Copies a byte buffer; the copy holds exactly the same bytes.
fn copy_bytes(src: &Vec<u8>) -> (out: Vec<u8>)
    ensures
        out@ == src@,
{
    let n = src.len();
    let mut out: Vec<u8> = Vec::new();
    let mut i: usize = 0;
    while i < n
        invariant
            0 <= i <= n,
            n == src@.len(),
            out@ == src@.take(i as int),
        decreases n - i,
    {
        out.push(src[i]);
        proof {
            assert(out@ =~= src@.take(i + 1));
        }
        i += 1;
    }
    proof {
        assert(src@.take(n as int) =~= src@);
    }
    out
}

/// Finds the first memoized handle for `path`.
fn cache_get(cache: &Vec<(String, Texture)>, path: &str) -> (r: Option<Texture>)
    ensures
        r == cache_find(cache@, path@),
{
    let n = cache.len();
    let mut i: usize = 0;
    proof {
        assert(cache@.skip(0int) =~= cache@);
    }
    while i < n
        invariant
            0 <= i <= n,
            n == cache@.len(),
            cache_find(cache@, path@) == cache_find(cache@.skip(i as int), path@),
        decreases n - i,
    {
        proof {
            assert(cache@.skip(i as int)[0] == cache@[i as int]);
            assert(cache@.skip(i as int).drop_first() =~= cache@.skip(i + 1));
        }
        if str_eq(cache[i].0.as_str(), path) {
            return Some(cache[i].1);
        }
        i += 1;
    }
    proof {
        assert(cache@.skip(n as int) =~= Seq::<(String, Texture)>::empty());
    }
    None
}

/// Law: a file indexed by the tree stands alone under its name. When a
/// well-formed registry resolves a file at `segs`, the directory it lives
/// in holds a child of that name, and no two children of that directory
/// share a name, so the entry is the only one.
pub proof fn lemma_indexed_entry_unique(reg: AssetRegistry, segs: Seq<Seq<char>>)
    requires
        reg.wf(),
        segs.len() >= 1,
        reg.file_tree.file_at(segs) is Some,
    ensures
        ({
            let d = reg.file_tree.lookup(segs.drop_last());
            &&& d is Some && d->Some_0 is Directory
            &&& exists|i: int|
                0 <= i < d->Some_0->Directory_0@.len() && (
                #[trigger] d->Some_0->Directory_0@[i]).0@ == segs.last()
            &&& forall|i: int, j: int|
                0 <= i < d->Some_0->Directory_0@.len() && 0 <= j
                    < d->Some_0->Directory_0@.len() && (
                #[trigger] d->Some_0->Directory_0@[i]).0@ == segs.last() && (
                #[trigger] d->Some_0->Directory_0@[j]).0@ == segs.last() ==> i == j
        }),
{
    let ds = segs.drop_last();
    let f = segs.last();
    crate::asset::lemma_lookup_push(reg.file_tree, ds, f);
    assert(ds.push(f) =~= segs);
    let d = reg.file_tree.lookup(ds);
    assert(d is Some && d->Some_0 is Directory);
    let ch = d->Some_0->Directory_0;
    crate::asset::lemma_find_child_some(ch@, f);
    crate::asset::lemma_lookup_wf(reg.file_tree, ds);
    assert(crate::asset::names_distinct(ch@));
    assert forall|i: int, j: int|
        0 <= i < ch@.len() && 0 <= j < ch@.len() && (#[trigger] ch@[i]).0@ == f && (
        #[trigger] ch@[j]).0@ == f implies i == j by {
        if i < j {
            assert(ch@[i].0@ != ch@[j].0@);
        }
        if j < i {
            assert(ch@[j].0@ != ch@[i].0@);
        }
    }
}

/// Law: the segments a rescan derives from a walked path never hold a
/// separator, so the slash-joined path recorded for an identifier splits
/// back into exactly those segments.
pub proof fn lemma_norm_segs_sep_free(path: Seq<char>)
    ensures
        forall|k: int|
            0 <= k < norm_segs(path).len() ==> crate::path::sep_free(
                #[trigger] norm_segs(path)[k],
            ),
{
    crate::path::lemma_split_shape(path);
    assert forall|k: int| 0 <= k < norm_segs(path).len() implies crate::path::sep_free(
        #[trigger] norm_segs(path)[k],
    ) by {
        assert(norm_segs(path)[k] == spec_split(path)[k + 1]);
    }
}

/// Law: every identifier recorded by an ingestion resolves. An ingested
/// entry's identifier is recorded against the slash-joined entry segments;
/// splitting that recorded path leads back to the very file that carries
/// the identifier.
pub proof fn lemma_recorded_uid_resolves(tree: FileTreeNode, segs: Seq<Seq<char>>, uid: u64)
    requires
        segs.len() >= 1,
        forall|k: int| 0 <= k < segs.len() ==> crate::path::sep_free(#[trigger] segs[k]),
        tree.file_at(segs) matches Some(a) && a.uid == uid,
    ensures
        tree.file_at(spec_split(spec_join(segs))) matches Some(a) && a.uid == uid,
{
    crate::path::lemma_split_join(segs);
}

/// Law: rescanning with no filesystem change ingests nothing. Once an
/// entry with a matching timestamp stands in the tree, the decision for
/// that same walked file is Skip.
pub proof fn lemma_rescan_idempotent(tree: FileTreeNode, segs: Seq<Seq<char>>, mtime: i64)
    requires
        segs.len() >= 1,
        tree.file_at(segs) matches Some(a) && a.timestamp == mtime,
    ensures
        decision_of(tree, segs, mtime) == ScanDecision::Skip,
{
    crate::asset::lemma_found_implies_clear(tree, segs);
}

/// Law: the decision for one walked file reads only that entry and its
/// directory walk. Together with the frame conditions of `apply_ingest`
/// (an ingestion leaves every entry off its own path untouched), a second
/// rescan over an unchanged filesystem decides Skip for every file.
pub proof fn lemma_decision_local(t1: FileTreeNode, t2: FileTreeNode, segs: Seq<Seq<char>>, mtime: i64)
    requires
        segs.len() >= 1,
        t2.file_at(segs) == t1.file_at(segs),
        t2.dir_path_clear(segs.drop_last()) == t1.dir_path_clear(segs.drop_last()),
    ensures
        decision_of(t2, segs, mtime) == decision_of(t1, segs, mtime),
{
}

/// Law: at most one upload per path. Once a handle is memoized for a path
/// (as `store_texture` ensures), no later query for that path needs the
/// uploader again, and every later query returns that same handle, since
/// the memoized handle is a function of the cache and the path.
pub proof fn lemma_upload_at_most_once(reg: AssetRegistry, path: Seq<char>)
    requires
        cache_find(reg.cached_texture_arcs@, path) is Some,
    ensures
        !reg.upload_needed(path),
{
}

/// Law: an absolute path and its base-relative remainder resolve the same
/// asset. When stripping the absolute base prefix consumes it exactly once
/// from the prefixed spelling and does not touch the bare spelling, both
/// spellings walk the same segments.
pub proof fn lemma_absolute_and_relative_agree(reg: AssetRegistry, sub: Seq<char>)
    requires
        spec_strip_from(sub, reg.base_path_absolute@, 0) == 0,
        spec_strip_from(
            reg.base_path_absolute@ + seq!['/'] + sub,
            reg.base_path_absolute@,
            0,
        ) == reg.base_path_absolute@.len(),
    ensures
        reg.get_asset_spec(reg.base_path_absolute@ + seq!['/'] + sub) == reg.get_asset_spec(sub),
{
    let base = reg.base_path_absolute@;
    let full = base + seq!['/'] + sub;
    assert(full.skip(base.len() as int) =~= seq!['/'] + sub);
    assert(sub.skip(0int) =~= sub);
    crate::path::lemma_split_sep_prepend(sub);
    crate::path::lemma_nonempty_drop_empty_head(spec_split(sub));
}

/// Decides for the walked-file segments `segs[idx..]` from `node`, where
/// the last segment is the file name and the rest the directory path.
fn decide_at(node: &FileTreeNode, segs: &Vec<String>, idx: usize, mtime: i64) -> (d: ScanDecision)
    requires
        node.wf(),
        idx < segs@.len(),
    ensures
        d == decision_of(*node, views_of(segs@).skip(idx as int), mtime),
    decreases segs@.len() - idx,
{
    let ghost suffix = views_of(segs@).skip(idx as int);
    let ghost ds = suffix.drop_last();
    proof {
        assert(suffix.len() >= 1);
        assert(suffix[0] == segs@[idx as int]@);
    }
    if idx == segs.len() - 1 {
        proof {
            assert(ds =~= Seq::<Seq<char>>::empty());
            assert(suffix =~= seq![segs@[idx as int]@]);
            assert(suffix.drop_first() =~= Seq::<Seq<char>>::empty());
        }
        match node {
            FileTreeNode::File(_) => ScanDecision::PathConflict,
            FileTreeNode::Directory(ch) => {
                match find_child_idx(ch, segs[idx].as_str()) {
                    Option::None => {
                        proof {
                            lemma_find_child_none_iff(ch@, suffix[0]);
                        }
                        ScanDecision::Ingest
                    },
                    Option::Some(i) => {
                        proof {
                            lemma_find_child_at(ch@, suffix[0], i as int);
                            let c = ch@[i as int].1;
                            assert(suffix.len() == 1);
                            assert(find_child(ch@, suffix[0]) == Some(c));
                            assert(suffix.drop_first() == Seq::<Seq<char>>::empty());
                            assert(c.lookup(Seq::<Seq<char>>::empty()) == Some(c));
                            assert(node.lookup(suffix) == c.lookup(suffix.drop_first()));
                            assert(node.lookup(suffix) == Some(c));
                        }
                        match &ch[i].1 {
                            FileTreeNode::File(a) => {
                                proof {
                                    assert(node.file_at(suffix) == Some(*a));
                                }
                                if a.timestamp == mtime {
                                    ScanDecision::Skip
                                } else {
                                    ScanDecision::Ingest
                                }
                            },
                            FileTreeNode::Directory(_) => {
                                proof {
                                    assert(node.file_at(suffix) is None);
                                }
                                ScanDecision::Ingest
                            },
                        }
                    },
                }
            },
        }
    } else {
        proof {
            assert(suffix.len() >= 2);
            assert(suffix.drop_first() =~= views_of(segs@).skip(idx + 1));
            assert(suffix.drop_first().drop_last() =~= ds.drop_first());
            assert(ds[0] == suffix[0]);
            assert(suffix.drop_first().last() == suffix.last());
        }
        match node {
            FileTreeNode::File(_) => ScanDecision::PathConflict,
            FileTreeNode::Directory(ch) => {
                match find_child_idx(ch, segs[idx].as_str()) {
                    Option::None => {
                        proof {
                            lemma_find_child_none_iff(ch@, suffix[0]);
                        }
                        ScanDecision::Ingest
                    },
                    Option::Some(i) => {
                        proof {
                            lemma_find_child_at(ch@, suffix[0], i as int);
                            assert(node.dir_path_clear(ds) == ch@[i as int].1.dir_path_clear(
                                ds.drop_first(),
                            ));
                            assert(node.file_at(suffix) == ch@[i as int].1.file_at(
                                suffix.drop_first(),
                            ));
                        }
                        decide_at(&ch[i].1, segs, idx + 1, mtime)
                    },
                }
            },
        }
    }
}

} // verus!
