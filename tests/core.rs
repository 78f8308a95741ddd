use scratch_git::codec::{export, ingest, Bundle, BundleFile, WorkingTree};
use scratch_git::content::{content_hash, ContentStore, CoreError, FNV_OFFSET};
use scratch_git::diff::{diff, DeltaKind, DiffReport};
use scratch_git::model::{Block, ListVar, Slot, Target};
use scratch_git::repo::{diff_sides, Projects, Repository, Side};

fn s(x: &str) -> String {
    x.to_string()
}

fn slot(n: &str, v: &str) -> Slot {
    Slot { name: s(n), value: s(v) }
}

fn block(id: &str, opcode: &str, fields: Vec<Slot>) -> Block {
    Block { id: s(id), opcode: s(opcode), fields, inputs: vec![], parent: None, next: None }
}

fn target(name: &str, blocks: Vec<Block>) -> Target {
    Target { name: s(name), blocks, variables: vec![], lists: vec![], unmodeled: s("{}") }
}

fn file(name: &str, bytes: &[u8]) -> BundleFile {
    BundleFile { name: s(name), bytes: bytes.to_vec() }
}

fn bundle(targets: Vec<Target>, names: &[&str], files: Vec<BundleFile>) -> Bundle {
    Bundle { targets, asset_names: names.iter().map(|n| s(n)).collect(), files }
}

fn tree(targets: Vec<Target>, names: &[&str], files: Vec<BundleFile>) -> WorkingTree {
    match ingest(bundle(targets, names, files)) {
        Ok(t) => t,
        Err(e) => panic!("ingest failed: {:?}", e),
    }
}

fn is_empty(r: &DiffReport) -> bool {
    r.added_targets.is_empty()
        && r.removed_targets.is_empty()
        && r.modified_targets.is_empty()
        && r.added_assets.is_empty()
        && r.removed_assets.is_empty()
}

fn sample_targets() -> Vec<Target> {
    vec![
        target("Stage", vec![]),
        target(
            "Sprite1",
            vec![
                block("b1", "move_steps", vec![slot("STEPS", "10")]),
                block("b2", "turn_right", vec![slot("DEGREES", "15")]),
            ],
        ),
    ]
}

#[test]
fn hash_of_known_values() {
    assert_eq!(content_hash(&vec![]), FNV_OFFSET);
    assert_eq!(content_hash(&b"a".to_vec()), 0xaf63dc4c8601ec8c);
    assert_eq!(content_hash(&b"foobar".to_vec()), 0x85944171f73967e8);
}

#[test]
fn store_put_is_idempotent_and_get_misses() {
    let mut st = ContentStore::new();
    let a = st.put(b"abc".to_vec());
    let b = st.put(b"abc".to_vec());
    assert_eq!(a, b);
    assert_eq!(st.len(), 1);
    let c = st.put(b"xyz".to_vec());
    assert_ne!(a, c);
    assert_eq!(st.len(), 2);
    assert!(st.contains(a));
    assert_eq!(st.get(c).unwrap(), b"xyz".to_vec());
    assert_eq!(st.get(c ^ 1).unwrap_err(), CoreError::MissingAsset);
}

#[test]
fn ingest_missing_asset_is_malformed() {
    let b = bundle(sample_targets(), &["cat.svg"], vec![file("dog.svg", b"<svg/>")]);
    assert_eq!(ingest(b).err(), Some(CoreError::MalformedArchive));
}

#[test]
fn ingest_repeated_block_id_is_malformed() {
    let t = vec![target(
        "Sprite1",
        vec![block("b1", "move_steps", vec![]), block("b1", "turn_right", vec![])],
    )];
    assert_eq!(ingest(bundle(t, &[], vec![])).err(), Some(CoreError::MalformedArchive));
    let t = vec![target("Sprite1", vec![]), target("Sprite1", vec![])];
    assert_eq!(ingest(bundle(t, &[], vec![])).err(), Some(CoreError::MalformedArchive));
}

#[test]
fn round_trip_reports_no_change() {
    let t = tree(sample_targets(), &["cat.svg", "meow.wav"], vec![file("cat.svg", b"<svg/>"), file("meow.wav", b"RIFF")]);
    let exported = export(&t);
    assert_eq!(exported.asset_names, vec![s("cat.svg"), s("meow.wav")]);
    assert_eq!(exported.files[0].bytes, b"<svg/>".to_vec());
    assert_eq!(exported.files[1].bytes, b"RIFF".to_vec());
    let t2 = ingest(exported).unwrap();
    assert!(is_empty(&diff(t.manifest(), t2.manifest())));
    assert!(t.same_as(&t2));
}

#[test]
fn identical_assets_are_stored_once() {
    let t = tree(
        sample_targets(),
        &["a.png", "b.png"],
        vec![file("a.png", b"same bytes"), file("b.png", b"same bytes")],
    );
    assert_eq!(t.store().len(), 1);
    assert_eq!(t.manifest().assets[0].id, t.manifest().assets[1].id);
    assert_eq!(t.manifest().assets[0].id, content_hash(&b"same bytes".to_vec()));
    let exported = export(&t);
    assert_eq!(exported.asset_names, vec![s("a.png"), s("b.png")]);
    assert_eq!(exported.files[1].bytes, b"same bytes".to_vec());
}

#[test]
fn diff_with_itself_is_empty() {
    let t = tree(sample_targets(), &["cat.svg"], vec![file("cat.svg", b"<svg/>")]);
    assert!(is_empty(&diff(t.manifest(), t.manifest())));
}

#[test]
fn unchanged_block_is_not_reported() {
    let a = tree(sample_targets(), &[], vec![]);
    let mut tb = sample_targets();
    tb[1].blocks[0].fields[0].value = s("11");
    tb[1].blocks.push(block("b3", "say", vec![slot("MESSAGE", "hi")]));
    let b = tree(tb, &[], vec![]);
    let r = diff(a.manifest(), b.manifest());
    assert_eq!(r.modified_targets.len(), 1);
    let td = &r.modified_targets[0];
    assert_eq!(td.added_blocks, vec![s("b3")]);
    assert!(td.removed_blocks.is_empty());
    assert_eq!(td.modified_blocks.len(), 1);
    assert_eq!(td.modified_blocks[0].id, s("b1"));
    assert!(!td.added_blocks.contains(&s("b2")));
    assert!(td.modified_blocks.iter().all(|c| c.id != s("b2")));
}

#[test]
fn changed_field_is_the_only_delta() {
    let a = tree(vec![target("Sprite1", vec![block("b1", "move_steps", vec![slot("STEPS", "10")])])], &[], vec![]);
    let b = tree(vec![target("Sprite1", vec![block("b1", "move_steps", vec![slot("STEPS", "20")])])], &[], vec![]);
    let r = diff(a.manifest(), b.manifest());
    assert!(r.added_targets.is_empty() && r.removed_targets.is_empty());
    assert!(r.added_assets.is_empty() && r.removed_assets.is_empty());
    assert_eq!(r.modified_targets.len(), 1);
    let td = &r.modified_targets[0];
    assert_eq!(td.name, s("Sprite1"));
    assert!(td.added_blocks.is_empty() && td.removed_blocks.is_empty());
    assert!(td.variables.is_empty() && td.lists.is_empty() && td.text.is_none());
    assert_eq!(td.modified_blocks.len(), 1);
    let c = &td.modified_blocks[0];
    assert_eq!(c.id, s("b1"));
    assert_eq!(c.deltas.len(), 1);
    assert_eq!(c.deltas[0].kind, DeltaKind::Field);
    assert_eq!(c.deltas[0].name, s("STEPS"));
    assert_eq!(c.deltas[0].old, Some(s("10")));
    assert_eq!(c.deltas[0].new, Some(s("20")));
}

#[test]
fn opcode_links_variables_lists_and_text_are_compared() {
    let mut x = target("Sprite1", vec![block("b1", "move_steps", vec![])]);
    x.variables = vec![slot("v1", "0"), slot("v2", "5")];
    x.lists = vec![ListVar { id: s("l1"), items: vec![s("a")] }];
    let mut y = target("Sprite1", vec![block("b1", "turn_right", vec![])]);
    y.blocks[0].next = Some(s("b9"));
    y.variables = vec![slot("v1", "1"), slot("v3", "7")];
    y.lists = vec![ListVar { id: s("l1"), items: vec![s("a"), s("b")] }];
    y.unmodeled = s("{\"ext\":1}");
    let a = tree(vec![x, target("Stage", vec![])], &[], vec![]);
    let b = tree(vec![y, target("Sprite2", vec![])], &[], vec![]);
    let r = diff(a.manifest(), b.manifest());
    assert_eq!(r.added_targets, vec![s("Sprite2")]);
    assert_eq!(r.removed_targets, vec![s("Stage")]);
    let td = &r.modified_targets[0];
    let kinds: Vec<DeltaKind> = td.modified_blocks[0].deltas.iter().map(|d| d.kind).collect();
    assert_eq!(kinds, vec![DeltaKind::Opcode, DeltaKind::Next]);
    assert_eq!(td.modified_blocks[0].deltas[1].new, Some(s("b9")));
    let vars: Vec<(String, Option<String>, Option<String>)> =
        td.variables.iter().map(|d| (d.name.clone(), d.old.clone(), d.new.clone())).collect();
    assert_eq!(
        vars,
        vec![
            (s("v1"), Some(s("0")), Some(s("1"))),
            (s("v2"), Some(s("5")), None),
            (s("v3"), None, Some(s("7"))),
        ]
    );
    assert_eq!(td.lists.len(), 1);
    assert_eq!(td.lists[0].new, Some(vec![s("a"), s("b")]));
    assert_eq!(td.text, Some((s("{}"), s("{\"ext\":1}"))));
}

#[test]
fn committing_the_same_tree_twice() {
    let mut repo = Repository::new();
    let t = tree(sample_targets(), &[], vec![]);
    assert_eq!(repo.commit(t.clone(), s("first"), s("ann"), 1), Ok(0));
    assert_eq!(repo.commit(t.clone(), s("again"), s("ann"), 2), Err(CoreError::NothingToCommit));
    assert_eq!(repo.head(), Some(0));
    assert_eq!(repo.log(), vec![0]);
}

#[test]
fn two_commits_then_log_and_diff() {
    let mut repo = Repository::new();
    let a = tree(sample_targets(), &["cat.svg"], vec![file("cat.svg", b"<svg/>")]);
    let b = tree(
        sample_targets(),
        &["cat.svg", "x.wav"],
        vec![file("cat.svg", b"<svg/>"), file("x.wav", b"RIFFx")],
    );
    let ra = repo.commit(a.clone(), s("A"), s("ann"), 10).unwrap();
    let rb = repo.commit(b.clone(), s("B"), s("ann"), 20).unwrap();
    assert_eq!(repo.log(), vec![rb, ra]);
    assert_eq!(repo.revision(rb).unwrap().parent(), Some(ra));
    assert_eq!(repo.revision(rb).unwrap().message(), &s("B"));
    let r = diff_sides(&repo, &b, Side::Revision(ra), Side::Revision(rb)).unwrap();
    assert_eq!(r.added_assets, vec![content_hash(&b"RIFFx".to_vec())]);
    assert!(r.removed_assets.is_empty());
    assert!(r.added_targets.is_empty() && r.removed_targets.is_empty() && r.modified_targets.is_empty());
    assert!(repo.read(ra).unwrap().same_as(&a));
    assert_eq!(repo.read(7).err(), Some(CoreError::UnknownRevision));
    assert_eq!(diff_sides(&repo, &b, Side::Revision(9), Side::Working).err(), Some(CoreError::UnknownRevision));
    assert!(is_empty(&diff_sides(&repo, &b, Side::Working, Side::Revision(rb)).unwrap()));
}

#[test]
fn push_to_diverged_remote_is_rejected() {
    let base = tree(sample_targets(), &[], vec![]);
    let mut local = Repository::new();
    local.commit(base.clone(), s("base"), s("ann"), 1).unwrap();
    let mut remote = Repository::new();
    assert_eq!(remote.pull(&local), Ok(()));
    let mut t1 = sample_targets();
    t1[0].unmodeled = s("{\"local\":1}");
    local.commit(tree(t1, &[], vec![]), s("local"), s("ann"), 2).unwrap();
    let mut t2 = sample_targets();
    t2[0].unmodeled = s("{\"remote\":1}");
    remote.commit(tree(t2, &[], vec![]), s("remote"), s("bob"), 3).unwrap();
    let before = local.log();
    assert_eq!(local.push(&mut remote), Err(CoreError::RemoteRejected));
    assert_eq!(local.log(), before);
    assert_eq!(remote.revision(1).unwrap().author(), &s("bob"));
    assert_eq!(local.pull(&remote), Err(CoreError::RemoteRejected));
    assert_eq!(local.log(), before);
}

#[test]
fn push_fast_forwards_remote() {
    let mut local = Repository::new();
    local.commit(tree(sample_targets(), &[], vec![]), s("one"), s("ann"), 1).unwrap();
    let mut remote = Repository::new();
    assert_eq!(local.push(&mut remote), Ok(()));
    let mut t = sample_targets();
    t[0].unmodeled = s("{\"v\":2}");
    local.commit(tree(t, &[], vec![]), s("two"), s("ann"), 2).unwrap();
    assert_eq!(local.push(&mut remote), Ok(()));
    assert_eq!(remote.log(), vec![1, 0]);
    assert!(remote.is_prefix_of(&local) && local.is_prefix_of(&remote));
}

#[test]
fn projects_open_once_and_commit_separately() {
    let mut p = Projects::new();
    let a = p.open_or_init(&s("alpha"));
    let b = p.open_or_init(&s("beta"));
    assert_eq!(p.open_or_init(&s("alpha")), a);
    assert_ne!(a, b);
    let t = tree(sample_targets(), &[], vec![]);
    assert_eq!(p.commit(&s("alpha"), t.clone(), s("one"), s("ann"), 1), Ok(0));
    assert_eq!(p.commit(&s("alpha"), t.clone(), s("two"), s("ann"), 2), Err(CoreError::NothingToCommit));
    assert_eq!(p.commit(&s("gamma"), t.clone(), s("one"), s("ann"), 3), Ok(0));
    assert_eq!(p.history(&s("alpha")).unwrap().log(), vec![0]);
    assert_eq!(p.history(&s("beta")).unwrap().log(), Vec::<u64>::new());
    assert_eq!(p.history(&s("gamma")).unwrap().log(), vec![0]);
    assert!(p.history(&s("delta")).is_none());
}
