use vstd::prelude::*;
use crate::content::{bytes_at, has_id, hash_of, lemma_bytes_at, store_wf, ContentStore, CoreError};
use crate::diff::{lemma_diff_self, manifest_diff, manifest_is_wf, manifest_wf, report_empty};
use crate::model::{
    clone_targets, refs_view, str_eq, strs_view, targets_view, AssetRef, Manifest, ManifestV,
    Target, TargetV,
};

verus! {

/// A named file of a packaged bundle.
pub struct BundleFile {
    pub name: String,
    pub bytes: Vec<u8>,
}

impl View for BundleFile {
    type V = (Seq<char>, Seq<u8>);

    open spec fn view(&self) -> (Seq<char>, Seq<u8>) {
        (self.name@, self.bytes@)
    }
}

pub open spec fn files_view(s: Seq<BundleFile>) -> Seq<(Seq<char>, Seq<u8>)> {
    s.map_values(|f: BundleFile| f@)
}

/// An unpacked project bundle: the manifest's targets, the declared names of the assets
/// it references, in order, and the asset files of the container.
pub struct Bundle {
    pub targets: Vec<Target>,
    pub asset_names: Vec<String>,
    pub files: Vec<BundleFile>,
}

pub struct BundleV {
    pub targets: Seq<TargetV>,
    pub asset_names: Seq<Seq<char>>,
    pub files: Seq<(Seq<char>, Seq<u8>)>,
}

impl View for Bundle {
    type V = BundleV;

    open spec fn view(&self) -> BundleV {
        BundleV {
            targets: targets_view(self.targets@),
            asset_names: strs_view(self.asset_names@),
            files: files_view(self.files@),
        }
    }
}

/// The bytes of the first file named `n`.
pub open spec fn lookup_file(s: Seq<(Seq<char>, Seq<u8>)>, n: Seq<char>) -> Option<Seq<u8>>
    decreases s.len(),
{
    if s.len() == 0 {
        None
    } else if s[0].0 == n {
        Some(s[0].1)
    } else {
        lookup_file(s.drop_first(), n)
    }
}

/// Every asset that the manifest references is in the container.
pub open spec fn bundle_complete(b: BundleV) -> bool {
    forall|i: int| 0 <= i < b.asset_names.len() ==> lookup_file(b.files, #[trigger] b.asset_names[i]) is Some
}

/// The asset references of an ingested bundle: each declared name with the hash of its file.
pub open spec fn ingest_refs(b: BundleV) -> Seq<(Seq<char>, u64)> {
    Seq::new(b.asset_names.len(), |i: int| (b.asset_names[i], hash_of(lookup_file(b.files, b.asset_names[i])->Some_0)))
}

/// The canonical decomposition of one bundle: its manifest and the distinct assets it references.
pub struct WorkingTree {
    manifest: Manifest,
    store: ContentStore,
}

pub struct TreeV {
    pub manifest: ManifestV,
    pub store: Seq<(u64, Seq<u8>)>,
}

impl View for WorkingTree {
    type V = TreeV;

    closed spec fn view(&self) -> TreeV {
        TreeV { manifest: self.manifest@, store: self.store@ }
    }
}

/// A tree view is well formed: its manifest is well formed, and its store is canonical and
/// holds exactly the assets that the manifest references.
pub open spec fn tree_wf(t: TreeV) -> bool {
    &&& manifest_wf(t.manifest)
    &&& store_wf(t.store)
    &&& forall|i: int| 0 <= i < t.manifest.assets.len() ==> has_id(t.store, #[trigger] t.manifest.assets[i].1)
    &&& forall|id: u64| has_id(t.store, id) ==> exists|i: int| 0 <= i < t.manifest.assets.len() && t.manifest.assets[i].1 == id
}

impl WorkingTree {
    /// The manifest of the tree.
    pub fn manifest(&self) -> (r: &Manifest)
        ensures
            r@ == self@.manifest,
    {
        &self.manifest
    }

    /// The content store of the tree.
    pub fn store(&self) -> (r: &ContentStore)
        ensures
            r@ == self@.store,
            r.wf() <==> store_wf(self@.store),
    {
        &self.store
    }

    /// Whether two trees are identical: same manifest and same stored files.
    pub fn same_as(&self, other: &WorkingTree) -> (r: bool)
        ensures
            r == (self@ == other@),
    {
        let r = crate::model::manifest_eq(&self.manifest, &other.manifest) && self.store.same_as(&other.store);
        proof {
            if self.manifest@ == other.manifest@ && self.store@ == other.store@ {
                assert(self@ == other@);
            }
        }
        r
    }
}

impl Clone for WorkingTree {
    fn clone(&self) -> (r: WorkingTree)
        ensures
            r@ == self@,
    {
        WorkingTree { manifest: self.manifest.clone(), store: self.store.clone() }
    }
}

/// Finds the position of the first file named `n`.
fn find_file(s: &Vec<BundleFile>, n: &String) -> (r: Option<usize>)
    ensures
        match r {
            Some(k) => k < s@.len() && lookup_file(files_view(s@), n@) == Some(s@[k as int].bytes@),
            None => lookup_file(files_view(s@), n@) is None,
        },
{
    let mut i: usize = 0;
    assert(files_view(s@).subrange(0, s@.len() as int) =~= files_view(s@));
    while i < s.len()
        invariant
            i <= s@.len(),
            lookup_file(files_view(s@), n@) == lookup_file(
                files_view(s@).subrange(i as int, s@.len() as int),
                n@,
            ),
        decreases s@.len() - i,
    {
        let ghost sub = files_view(s@).subrange(i as int, s@.len() as int);
        assert(sub.drop_first() =~= files_view(s@).subrange(i as int + 1, s@.len() as int));
        assert(sub[0] == s@[i as int]@);
        if str_eq(&s[i].name, n) {
            return Some(i);
        }
        i = i + 1;
    }
    None
}

/// Turns an unpacked bundle into a working tree, storing each referenced asset once under
/// its content hash. Fails with `MalformedArchive` when a referenced asset is missing, or
/// when target names, block ids, variable names or list ids repeat within their scope.
pub fn ingest(b: Bundle) -> (r: Result<WorkingTree, CoreError>)
    ensures
        r is Ok <==> bundle_complete(b@) && manifest_wf(ingest_manifest(b@)),
        r is Ok ==> tree_wf(r->Ok_0@) && r->Ok_0@.manifest == (ManifestV {
            targets: b@.targets,
            assets: ingest_refs(b@),
        }),
        r is Err ==> r->Err_0 == CoreError::MalformedArchive,
{
    let ghost bv = b@;
    let mut store = ContentStore::new();
    let mut refs: Vec<AssetRef> = Vec::new();
    let mut i: usize = 0;
    while i < b.asset_names.len()
        invariant
            bv == b@,
            bv.asset_names == strs_view(b.asset_names@),
            bv.files == files_view(b.files@),
            i <= b.asset_names@.len(),
            store.wf(),
            refs@.len() == i,
            forall|k: int| 0 <= k < i ==> lookup_file(bv.files, #[trigger] bv.asset_names[k]) is Some,
            forall|k: int| 0 <= k < i ==> #[trigger] refs_view(refs@)[k] == ingest_refs(bv)[k],
            forall|k: int| 0 <= k < i ==> has_id(store@, #[trigger] refs@[k].id),
            forall|id: u64| has_id(store@, id) ==> exists|k: int| 0 <= k < i && refs@[k].id == id,
        decreases b.asset_names@.len() - i,
    {
        assert(bv.asset_names[i as int] == b.asset_names@[i as int]@);
        match find_file(&b.files, &b.asset_names[i]) {
            None => {
                assert(lookup_file(bv.files, bv.asset_names[i as int]) is None);
                assert(!bundle_complete(bv));
                return Err(CoreError::MalformedArchive);
            },
            Some(k) => {
                let bytes = b.files[k].bytes.clone();
                let ghost prev_refs = refs@;
                let id = store.put(bytes);
                refs.push(AssetRef { name: b.asset_names[i].clone(), id });
                proof {
                    assert(refs@[i as int].id == id);
                    assert(refs_view(refs@)[i as int] == ingest_refs(bv)[i as int]);
                    assert forall|k2: int| 0 <= k2 < i + 1 implies #[trigger] refs_view(refs@)[k2] == ingest_refs(bv)[k2] by {
                        if k2 < i {
                            assert(refs@[k2] == prev_refs[k2]);
                            assert(refs_view(prev_refs)[k2] == ingest_refs(bv)[k2]);
                        }
                    }
                    assert forall|k2: int| 0 <= k2 < i + 1 implies has_id(store@, #[trigger] refs@[k2].id) by {
                        if k2 < i {
                            assert(refs@[k2] == prev_refs[k2]);
                        }
                    }
                    assert forall|id2: u64| has_id(store@, id2) implies exists|k: int| 0 <= k < i + 1 && refs@[k].id == id2 by {
                        if id2 == id {
                            assert(refs@[i as int].id == id2);
                        } else {
                            let k = choose|k: int| 0 <= k < i && prev_refs[k].id == id2;
                            assert(refs@[k].id == id2);
                        }
                    }
                }
            },
        }
        i = i + 1;
    }
    let m = Manifest { targets: b.targets, assets: refs };
    proof {
        assert(refs_view(m.assets@) =~= ingest_refs(bv));
        assert forall|id: u64| has_id(store@, id) implies exists|k: int| 0 <= k < m@.assets.len() && m@.assets[k].1 == id by {
            let k = choose|k: int| 0 <= k < i && m.assets@[k].id == id;
            assert(m@.assets[k].1 == m.assets@[k].id);
        }
        assert forall|k: int| 0 <= k < m@.assets.len() implies has_id(store@, #[trigger] m@.assets[k].1) by {
            assert(m@.assets[k].1 == m.assets@[k].id);
        }
    }
    if !manifest_is_wf(&m) {
        return Err(CoreError::MalformedArchive);
    }
    let t = WorkingTree { manifest: m, store };
    assert(t@.manifest.targets == bv.targets);
    assert(t@.manifest.assets == ingest_refs(bv));
    assert(store_wf(t@.store));
    assert(tree_wf(t@));
    Ok(t)
}

/// The manifest that ingesting bundle `b` produces.
pub open spec fn ingest_manifest(b: BundleV) -> ManifestV {
    ManifestV { targets: b.targets, assets: ingest_refs(b) }
}

/// The bundle that exporting tree `t` produces: the targets, every referenced asset
/// under its declared name, and one file per reference with the stored bytes.
pub open spec fn export_view(t: TreeV) -> BundleV {
    BundleV {
        targets: t.manifest.targets,
        asset_names: t.manifest.assets.map_values(|p: (Seq<char>, u64)| p.0),
        files: t.manifest.assets.map_values(|p: (Seq<char>, u64)| (p.0, bytes_at(t.store, p.1))),
    }
}

/// Re-packages a working tree, including every referenced asset under its declared name.
pub fn export(t: &WorkingTree) -> (r: Bundle)
    requires
        tree_wf(t@),
    ensures
        r@ == export_view(t@),
{
    let ghost tv = t@;
    let mut names: Vec<String> = Vec::new();
    let mut files: Vec<BundleFile> = Vec::new();
    let refs = &t.manifest.assets;
    let mut i: usize = 0;
    while i < refs.len()
        invariant
            tv == t@,
            tree_wf(tv),
            i <= refs@.len(),
            refs@ == t.manifest.assets@,
            names@.len() == i,
            files@.len() == i,
            strs_view(names@) == export_view(tv).asset_names.subrange(0, i as int),
            files_view(files@) == export_view(tv).files.subrange(0, i as int),
        decreases refs@.len() - i,
    {
        assert(tv.manifest.assets[i as int] == refs@[i as int]@);
        let bytes = match t.store.get(refs[i].id) {
            Ok(b) => b,
            Err(_) => {
                assert(has_id(tv.store, tv.manifest.assets[i as int].1));
                Vec::new()
            },
        };
        let ghost bv = bytes@;
        assert(bv == bytes_at(tv.store, tv.manifest.assets[i as int].1));
        names.push(refs[i].name.clone());
        files.push(BundleFile { name: refs[i].name.clone(), bytes });
        assert(strs_view(names@)[i as int] == export_view(tv).asset_names[i as int]);
        assert(files_view(files@)[i as int] == export_view(tv).files[i as int]);
        assert(strs_view(names@) =~= export_view(tv).asset_names.subrange(0, i as int + 1));
        assert(files_view(files@) =~= export_view(tv).files.subrange(0, i as int + 1));
        i = i + 1;
    }
    assert(export_view(tv).asset_names.subrange(0, i as int) =~= export_view(tv).asset_names);
    assert(export_view(tv).files.subrange(0, i as int) =~= export_view(tv).files);
    Bundle { targets: clone_targets(&t.manifest.targets), asset_names: names, files }
}

proof fn lemma_lookup_file(s: Seq<(Seq<char>, Seq<u8>)>, n: Seq<char>)
    ensures
        lookup_file(s, n) is Some <==> exists|j: int| 0 <= j < s.len() && s[j].0 == n,
        lookup_file(s, n) is Some ==> exists|j: int|
            0 <= j < s.len() && s[j].0 == n && s[j].1 == lookup_file(s, n)->Some_0,
    decreases s.len(),
{
    if s.len() > 0 {
        lemma_lookup_file(s.drop_first(), n);
        if s[0].0 != n {
            if exists|j: int| 0 <= j < s.len() && s[j].0 == n {
                let j = choose|j: int| 0 <= j < s.len() && s[j].0 == n;
                assert(s.drop_first()[j - 1].0 == n);
            }
            if lookup_file(s, n) is Some {
                let j = choose|j: int|
                    0 <= j < s.drop_first().len() && s.drop_first()[j].0 == n && s.drop_first()[j].1
                        == lookup_file(s, n)->Some_0;
                assert(s[j + 1] == s.drop_first()[j]);
            }
        }
    }
}

proof fn lemma_hash_of_stored(v: Seq<(u64, Seq<u8>)>, id: u64)
    requires
        store_wf(v),
        has_id(v, id),
    ensures
        hash_of(bytes_at(v, id)) == id,
{
    let i = choose|i: int| 0 <= i < v.len() && v[i].0 == id;
    lemma_bytes_at(v, i);
}

/// Round trip: exporting the tree that ingesting a valid bundle gives, and ingesting the
/// result again, succeeds and yields the same manifest, so comparing the two reports nothing.
pub proof fn lemma_round_trip(b: BundleV, t: TreeV)
    requires
        bundle_complete(b),
        tree_wf(t),
        t.manifest == ingest_manifest(b),
    ensures
        bundle_complete(export_view(t)),
        manifest_wf(ingest_manifest(export_view(t))),
        ingest_manifest(export_view(t)) == t.manifest,
        report_empty(manifest_diff(t.manifest, ingest_manifest(export_view(t)))),
{
    let b2 = export_view(t);
    let refs = t.manifest.assets;
    assert forall|i: int| 0 <= i < b2.asset_names.len() implies lookup_file(
        b2.files,
        #[trigger] b2.asset_names[i],
    ) is Some && hash_of(lookup_file(b2.files, b2.asset_names[i])->Some_0) == refs[i].1 by {
        let n = b2.asset_names[i];
        assert(b2.files[i].0 == n);
        lemma_lookup_file(b2.files, n);
        let j = choose|j: int|
            0 <= j < b2.files.len() && b2.files[j].0 == n && b2.files[j].1 == lookup_file(
                b2.files,
                n,
            )->Some_0;
        assert(refs[j].0 == n && refs[i].0 == n);
        assert(refs[j] == ingest_refs(b)[j]);
        assert(refs[i] == ingest_refs(b)[i]);
        assert(b.asset_names[j] == n && b.asset_names[i] == n);
        assert(refs[j].1 == refs[i].1);
        lemma_hash_of_stored(t.store, refs[i].1);
    }
    assert(ingest_refs(b2) =~= refs);
    lemma_diff_self(t.manifest);
}

/// Assets with identical bytes under different declared names are stored once: both
/// references carry the same content id, the store holds one entry under it, and
/// exporting still lists both declared names.
pub proof fn lemma_asset_dedup(b: BundleV, t: TreeV, i: int, j: int)
    requires
        bundle_complete(b),
        tree_wf(t),
        t.manifest == ingest_manifest(b),
        0 <= i < b.asset_names.len(),
        0 <= j < b.asset_names.len(),
        lookup_file(b.files, b.asset_names[i]) == lookup_file(b.files, b.asset_names[j]),
    ensures
        t.manifest.assets[i].1 == t.manifest.assets[j].1,
        has_id(t.store, t.manifest.assets[i].1),
        forall|k1: int, k2: int|
            0 <= k1 < t.store.len() && 0 <= k2 < t.store.len() && t.store[k1].0 == t.manifest.assets[i].1
                && t.store[k2].0 == t.manifest.assets[i].1 ==> k1 == k2,
        export_view(t).asset_names[i] == b.asset_names[i],
        export_view(t).asset_names[j] == b.asset_names[j],
{
    assert(t.manifest.assets[i] == ingest_refs(b)[i]);
    assert(t.manifest.assets[j] == ingest_refs(b)[j]);
    assert forall|k1: int, k2: int|
        0 <= k1 < t.store.len() && 0 <= k2 < t.store.len() && t.store[k1].0 == t.manifest.assets[i].1
            && t.store[k2].0 == t.manifest.assets[i].1 implies k1 == k2 by {
        if k1 < k2 {
            assert(t.store[k1].0 < t.store[k2].0);
        } else if k2 < k1 {
            assert(t.store[k2].0 < t.store[k1].0);
        }
    }
}

} // verus!
