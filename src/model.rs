use vstd::prelude::*;

verus! {

/// A named value: a block field or input, or a variable.
pub struct Slot {
    pub name: String,
    pub value: String,
}

/// The view of a slot: (name, value).
pub type SlotV = (Seq<char>, Seq<char>);

impl View for Slot {
    type V = SlotV;

    open spec fn view(&self) -> SlotV {
        (self.name@, self.value@)
    }
}

impl Clone for Slot {
    fn clone(&self) -> (r: Slot)
        ensures
            r@ == self@,
    {
        Slot { name: self.name.clone(), value: self.value.clone() }
    }
}

/// The view of an optional string.
pub open spec fn opt_view(o: Option<String>) -> Option<Seq<char>> {
    match o {
        Some(s) => Some(s@),
        None => None,
    }
}

/// The view of a sequence of slots.
pub open spec fn slots_view(s: Seq<Slot>) -> Seq<SlotV> {
    s.map_values(|x: Slot| x@)
}

/// One node of a block program, with its stable id.
pub struct Block {
    pub id: String,
    pub opcode: String,
    pub fields: Vec<Slot>,
    pub inputs: Vec<Slot>,
    pub parent: Option<String>,
    pub next: Option<String>,
}

pub struct BlockV {
    pub id: Seq<char>,
    pub opcode: Seq<char>,
    pub fields: Seq<SlotV>,
    pub inputs: Seq<SlotV>,
    pub parent: Option<Seq<char>>,
    pub next: Option<Seq<char>>,
}

impl View for Block {
    type V = BlockV;

    open spec fn view(&self) -> BlockV {
        BlockV {
            id: self.id@,
            opcode: self.opcode@,
            fields: slots_view(self.fields@),
            inputs: slots_view(self.inputs@),
            parent: opt_view(self.parent),
            next: opt_view(self.next),
        }
    }
}

/// Clones an optional string.
pub fn clone_opt(o: &Option<String>) -> (r: Option<String>)
    ensures
        opt_view(r) == opt_view(*o),
{
    match o {
        Some(s) => Some(s.clone()),
        None => None,
    }
}

fn clone_slots(v: &Vec<Slot>) -> (r: Vec<Slot>)
    ensures
        slots_view(r@) == slots_view(v@),
{
    let r = v.clone();
    assert(slots_view(r@) =~= slots_view(v@));
    r
}

impl Clone for Block {
    fn clone(&self) -> (r: Block)
        ensures
            r@ == self@,
    {
        Block {
            id: self.id.clone(),
            opcode: self.opcode.clone(),
            fields: clone_slots(&self.fields),
            inputs: clone_slots(&self.inputs),
            parent: clone_opt(&self.parent),
            next: clone_opt(&self.next),
        }
    }
}

/// The view of a sequence of strings.
pub open spec fn strs_view(s: Seq<String>) -> Seq<Seq<char>> {
    s.map_values(|x: String| x@)
}

/// The view of a sequence of blocks.
pub open spec fn blocks_view(s: Seq<Block>) -> Seq<BlockV> {
    s.map_values(|x: Block| x@)
}

/// A list variable: its id and ordered values.
pub struct ListVar {
    pub id: String,
    pub items: Vec<String>,
}

/// The view of a list variable: (id, values).
pub type ListV = (Seq<char>, Seq<Seq<char>>);

impl View for ListVar {
    type V = ListV;

    open spec fn view(&self) -> ListV {
        (self.id@, strs_view(self.items@))
    }
}

impl Clone for ListVar {
    fn clone(&self) -> (r: ListVar)
        ensures
            r@ == self@,
    {
        let items = self.items.clone();
        assert(strs_view(items@) =~= strs_view(self.items@));
        ListVar { id: self.id.clone(), items }
    }
}

/// The view of a sequence of list variables.
pub open spec fn lists_view(s: Seq<ListVar>) -> Seq<ListV> {
    s.map_values(|x: ListVar| x@)
}

/// The stage or one sprite. `unmodeled` holds the canonical text of the parts of the
/// target that the structural model does not cover.
pub struct Target {
    pub name: String,
    pub blocks: Vec<Block>,
    pub variables: Vec<Slot>,
    pub lists: Vec<ListVar>,
    pub unmodeled: String,
}

pub struct TargetV {
    pub name: Seq<char>,
    pub blocks: Seq<BlockV>,
    pub variables: Seq<SlotV>,
    pub lists: Seq<ListV>,
    pub unmodeled: Seq<char>,
}

impl View for Target {
    type V = TargetV;

    open spec fn view(&self) -> TargetV {
        TargetV {
            name: self.name@,
            blocks: blocks_view(self.blocks@),
            variables: slots_view(self.variables@),
            lists: lists_view(self.lists@),
            unmodeled: self.unmodeled@,
        }
    }
}

impl Clone for Target {
    fn clone(&self) -> (r: Target)
        ensures
            r@ == self@,
    {
        let blocks = self.blocks.clone();
        assert(blocks_view(blocks@) =~= blocks_view(self.blocks@));
        let lists = self.lists.clone();
        assert(lists_view(lists@) =~= lists_view(self.lists@));
        Target {
            name: self.name.clone(),
            blocks,
            variables: clone_slots(&self.variables),
            lists,
            unmodeled: self.unmodeled.clone(),
        }
    }
}

/// The view of a sequence of targets.
pub open spec fn targets_view(s: Seq<Target>) -> Seq<TargetV> {
    s.map_values(|x: Target| x@)
}

/// Clones a sequence of targets.
pub fn clone_targets(v: &Vec<Target>) -> (r: Vec<Target>)
    ensures
        targets_view(r@) == targets_view(v@),
{
    let r = v.clone();
    assert(targets_view(r@) =~= targets_view(v@));
    r
}

/// Whether two strings are equal.
pub fn str_eq(a: &String, b: &String) -> (r: bool)
    ensures
        r == (a@ == b@),
{
    a.eq(b)
}

fn opt_eq(a: &Option<String>, b: &Option<String>) -> (r: bool)
    ensures
        r == (opt_view(*a) == opt_view(*b)),
{
    match (a, b) {
        (Some(x), Some(y)) => str_eq(x, y),
        (None, None) => true,
        _ => false,
    }
}

/// Whether two slot sequences have the same view.
pub fn slots_eq(a: &Vec<Slot>, b: &Vec<Slot>) -> (r: bool)
    ensures
        r == (slots_view(a@) == slots_view(b@)),
{
    if a.len() != b.len() {
        proof {
            assert(slots_view(a@).len() != slots_view(b@).len());
        }
        return false;
    }
    let mut i: usize = 0;
    while i < a.len()
        invariant
            a@.len() == b@.len(),
            i <= a@.len(),
            forall|k: int| 0 <= k < i ==> a@[k]@ == b@[k]@,
        decreases a@.len() - i,
    {
        if !str_eq(&a[i].name, &b[i].name) || !str_eq(&a[i].value, &b[i].value) {
            proof {
                assert(slots_view(a@)[i as int] != slots_view(b@)[i as int]);
            }
            return false;
        }
        i = i + 1;
    }
    assert(slots_view(a@) =~= slots_view(b@));
    true
}

/// Whether two blocks have the same view.
pub fn block_eq(a: &Block, b: &Block) -> (r: bool)
    ensures
        r == (a@ == b@),
{
    str_eq(&a.id, &b.id) && str_eq(&a.opcode, &b.opcode) && slots_eq(&a.fields, &b.fields)
        && slots_eq(&a.inputs, &b.inputs) && opt_eq(&a.parent, &b.parent) && opt_eq(
        &a.next,
        &b.next,
    )
}

/// Whether two string sequences have the same view.
pub fn strs_eq(a: &Vec<String>, b: &Vec<String>) -> (r: bool)
    ensures
        r == (strs_view(a@) == strs_view(b@)),
{
    if a.len() != b.len() {
        proof {
            assert(strs_view(a@).len() != strs_view(b@).len());
        }
        return false;
    }
    let mut i: usize = 0;
    while i < a.len()
        invariant
            a@.len() == b@.len(),
            i <= a@.len(),
            forall|k: int| 0 <= k < i ==> a@[k]@ == b@[k]@,
        decreases a@.len() - i,
    {
        if !str_eq(&a[i], &b[i]) {
            proof {
                assert(strs_view(a@)[i as int] != strs_view(b@)[i as int]);
            }
            return false;
        }
        i = i + 1;
    }
    assert(strs_view(a@) =~= strs_view(b@));
    true
}

/// A reference from the manifest to an asset: its declared file name and content id.
pub struct AssetRef {
    pub name: String,
    pub id: u64,
}

impl View for AssetRef {
    type V = (Seq<char>, u64);

    open spec fn view(&self) -> (Seq<char>, u64) {
        (self.name@, self.id)
    }
}

impl Clone for AssetRef {
    fn clone(&self) -> (r: AssetRef)
        ensures
            r@ == self@,
    {
        AssetRef { name: self.name.clone(), id: self.id }
    }
}

pub open spec fn refs_view(s: Seq<AssetRef>) -> Seq<(Seq<char>, u64)> {
    s.map_values(|x: AssetRef| x@)
}

/// The block-program definition: its targets and the assets it references.
pub struct Manifest {
    pub targets: Vec<Target>,
    pub assets: Vec<AssetRef>,
}

pub struct ManifestV {
    pub targets: Seq<TargetV>,
    pub assets: Seq<(Seq<char>, u64)>,
}

impl View for Manifest {
    type V = ManifestV;

    open spec fn view(&self) -> ManifestV {
        ManifestV { targets: targets_view(self.targets@), assets: refs_view(self.assets@) }
    }
}

impl Clone for Manifest {
    fn clone(&self) -> (r: Manifest)
        ensures
            r@ == self@,
    {
        let assets = self.assets.clone();
        assert(refs_view(assets@) =~= refs_view(self.assets@));
        Manifest { targets: clone_targets(&self.targets), assets }
    }
}

fn targets_eq_at(a: &Target, b: &Target) -> (r: bool)
    ensures
        r == (a@ == b@),
{
    if !str_eq(&a.name, &b.name) || !slots_eq(&a.variables, &b.variables) || !str_eq(&a.unmodeled, &b.unmodeled) {
        return false;
    }
    if a.blocks.len() != b.blocks.len() || a.lists.len() != b.lists.len() {
        proof {
            assert(a@.blocks.len() != b@.blocks.len() || a@.lists.len() != b@.lists.len());
        }
        return false;
    }
    let mut i: usize = 0;
    while i < a.blocks.len()
        invariant
            a.blocks@.len() == b.blocks@.len(),
            i <= a.blocks@.len(),
            forall|k: int| 0 <= k < i ==> a.blocks@[k]@ == b.blocks@[k]@,
        decreases a.blocks@.len() - i,
    {
        if !block_eq(&a.blocks[i], &b.blocks[i]) {
            proof {
                assert(a@.blocks[i as int] != b@.blocks[i as int]);
            }
            return false;
        }
        i = i + 1;
    }
    let mut j: usize = 0;
    while j < a.lists.len()
        invariant
            a.lists@.len() == b.lists@.len(),
            j <= a.lists@.len(),
            forall|k: int| 0 <= k < j ==> a.lists@[k]@ == b.lists@[k]@,
        decreases a.lists@.len() - j,
    {
        if !str_eq(&a.lists[j].id, &b.lists[j].id) || !strs_eq(&a.lists[j].items, &b.lists[j].items) {
            proof {
                assert(a@.lists[j as int] != b@.lists[j as int]);
            }
            return false;
        }
        j = j + 1;
    }
    assert(a@.blocks =~= b@.blocks);
    assert(a@.lists =~= b@.lists);
    true
}

/// Whether two manifests have the same view.
pub fn manifest_eq(a: &Manifest, b: &Manifest) -> (r: bool)
    ensures
        r == (a@ == b@),
{
    if a.targets.len() != b.targets.len() || a.assets.len() != b.assets.len() {
        proof {
            assert(a@.targets.len() != b@.targets.len() || a@.assets.len() != b@.assets.len());
        }
        return false;
    }
    let mut i: usize = 0;
    while i < a.targets.len()
        invariant
            a.targets@.len() == b.targets@.len(),
            i <= a.targets@.len(),
            forall|k: int| 0 <= k < i ==> a.targets@[k]@ == b.targets@[k]@,
        decreases a.targets@.len() - i,
    {
        if !targets_eq_at(&a.targets[i], &b.targets[i]) {
            proof {
                assert(a@.targets[i as int] != b@.targets[i as int]);
            }
            return false;
        }
        i = i + 1;
    }
    let mut j: usize = 0;
    while j < a.assets.len()
        invariant
            a.assets@.len() == b.assets@.len(),
            j <= a.assets@.len(),
            forall|k: int| 0 <= k < j ==> a.assets@[k]@ == b.assets@[k]@,
        decreases a.assets@.len() - j,
    {
        if !str_eq(&a.assets[j].name, &b.assets[j].name) || a.assets[j].id != b.assets[j].id {
            proof {
                assert(a@.assets[j as int] != b@.assets[j as int]);
            }
            return false;
        }
        j = j + 1;
    }
    assert(a@.targets =~= b@.targets);
    assert(a@.assets =~= b@.assets);
    true
}

} // verus!
