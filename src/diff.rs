use vstd::prelude::*;
use crate::model::{
    blocks_view, clone_opt, lists_view, opt_view, slots_view, str_eq, strs_eq, strs_view, targets_view,
    Block, BlockV, ListV, ListVar, Slot, SlotV, Target, TargetV, Manifest, ManifestV, refs_view, AssetRef,
};

verus! {

/// What part of an entity a delta is about.
#[derive(Debug, Clone, Copy, PartialEq, Eq, Structural)]
pub enum DeltaKind {
    Opcode,
    Field,
    Input,
    Parent,
    Next,
    Variable,
}

/// One changed value: `old` is absent for an added key, `new` for a removed one.
pub struct Delta {
    pub kind: DeltaKind,
    pub name: String,
    pub old: Option<String>,
    pub new: Option<String>,
}

pub struct DeltaV {
    pub kind: DeltaKind,
    pub name: Seq<char>,
    pub old: Option<Seq<char>>,
    pub new: Option<Seq<char>>,
}

impl View for Delta {
    type V = DeltaV;

    open spec fn view(&self) -> DeltaV {
        DeltaV { kind: self.kind, name: self.name@, old: opt_view(self.old), new: opt_view(self.new) }
    }
}

pub open spec fn deltas_view(s: Seq<Delta>) -> Seq<DeltaV> {
    s.map_values(|d: Delta| d@)
}

/// The value of the first slot named `n`.
pub open spec fn lookup_slot(s: Seq<SlotV>, n: Seq<char>) -> Option<Seq<char>>
    decreases s.len(),
{
    if s.len() == 0 {
        None
    } else if s[0].0 == n {
        Some(s[0].1)
    } else {
        lookup_slot(s.drop_first(), n)
    }
}

/// Deltas for the slots of `a` that `b` changes or drops, in the order of `a`.
pub open spec fn changed_slots(kind: DeltaKind, a: Seq<SlotV>, b: Seq<SlotV>) -> Seq<DeltaV>
    decreases a.len(),
{
    if a.len() == 0 {
        seq![]
    } else {
        let rest = changed_slots(kind, a.drop_last(), b);
        let n = a.last().0;
        let v = a.last().1;
        match lookup_slot(b, n) {
            None => rest.push(DeltaV { kind, name: n, old: Some(v), new: None }),
            Some(w) => if w == v {
                rest
            } else {
                rest.push(DeltaV { kind, name: n, old: Some(v), new: Some(w) })
            },
        }
    }
}

/// Deltas for the slots of `b` whose names `a` lacks, in the order of `b`.
pub open spec fn new_slots(kind: DeltaKind, a: Seq<SlotV>, b: Seq<SlotV>) -> Seq<DeltaV>
    decreases b.len(),
{
    if b.len() == 0 {
        seq![]
    } else {
        let rest = new_slots(kind, a, b.drop_last());
        let n = b.last().0;
        if lookup_slot(a, n) is None {
            rest.push(DeltaV { kind, name: n, old: None, new: Some(b.last().1) })
        } else {
            rest
        }
    }
}

/// All slot deltas from `a` to `b`.
pub open spec fn slot_deltas(kind: DeltaKind, a: Seq<SlotV>, b: Seq<SlotV>) -> Seq<DeltaV> {
    changed_slots(kind, a, b) + new_slots(kind, a, b)
}

/// A delta of a single optional value, present only when the values differ.
pub open spec fn value_delta(kind: DeltaKind, a: Option<Seq<char>>, b: Option<Seq<char>>) -> Seq<
    DeltaV,
> {
    if a == b {
        seq![]
    } else {
        seq![DeltaV { kind, name: seq![], old: a, new: b }]
    }
}

/// The deltas between two versions of one block.
pub open spec fn block_deltas(x: BlockV, y: BlockV) -> Seq<DeltaV> {
    value_delta(DeltaKind::Opcode, Some(x.opcode), Some(y.opcode)) + slot_deltas(
        DeltaKind::Field,
        x.fields,
        y.fields,
    ) + slot_deltas(DeltaKind::Input, x.inputs, y.inputs) + value_delta(
        DeltaKind::Parent,
        x.parent,
        y.parent,
    ) + value_delta(DeltaKind::Next, x.next, y.next)
}

proof fn lemma_changed_slots_step(kind: DeltaKind, a: Seq<SlotV>, b: Seq<SlotV>, i: int)
    requires
        0 <= i < a.len(),
    ensures
        changed_slots(kind, a.subrange(0, i + 1), b) == (match lookup_slot(b, a[i].0) {
            None => changed_slots(kind, a.subrange(0, i), b).push(
                DeltaV { kind, name: a[i].0, old: Some(a[i].1), new: None },
            ),
            Some(w) => if w == a[i].1 {
                changed_slots(kind, a.subrange(0, i), b)
            } else {
                changed_slots(kind, a.subrange(0, i), b).push(
                    DeltaV { kind, name: a[i].0, old: Some(a[i].1), new: Some(w) },
                )
            },
        }),
{
    assert(a.subrange(0, i + 1).drop_last() =~= a.subrange(0, i));
    assert(a.subrange(0, i + 1).last() == a[i]);
}

proof fn lemma_new_slots_step(kind: DeltaKind, a: Seq<SlotV>, b: Seq<SlotV>, j: int)
    requires
        0 <= j < b.len(),
    ensures
        new_slots(kind, a, b.subrange(0, j + 1)) == if lookup_slot(a, b[j].0) is None {
            new_slots(kind, a, b.subrange(0, j)).push(
                DeltaV { kind, name: b[j].0, old: None, new: Some(b[j].1) },
            )
        } else {
            new_slots(kind, a, b.subrange(0, j))
        },
{
    assert(b.subrange(0, j + 1).drop_last() =~= b.subrange(0, j));
    assert(b.subrange(0, j + 1).last() == b[j]);
}

/// Finds the value of the first slot named `n`.
pub fn find_slot(s: &Vec<Slot>, n: &String) -> (r: Option<String>)
    ensures
        opt_view(r) == lookup_slot(slots_view(s@), n@),
{
    let mut i: usize = 0;
    assert(slots_view(s@).subrange(0, s@.len() as int) =~= slots_view(s@));
    while i < s.len()
        invariant
            i <= s@.len(),
            lookup_slot(slots_view(s@), n@) == lookup_slot(
                slots_view(s@).subrange(i as int, s@.len() as int),
                n@,
            ),
        decreases s@.len() - i,
    {
        let ghost sub = slots_view(s@).subrange(i as int, s@.len() as int);
        assert(sub.drop_first() =~= slots_view(s@).subrange(i as int + 1, s@.len() as int));
        assert(sub[0] == s@[i as int]@);
        if str_eq(&s[i].name, n) {
            return Some(s[i].value.clone());
        }
        i = i + 1;
    }
    None
}

fn push_delta(
    out: &mut Vec<Delta>,
    kind: DeltaKind,
    name: String,
    before: Option<String>,
    after: Option<String>,
)
    ensures
        deltas_view(final(out)@) == deltas_view(old(out)@).push(
            DeltaV { kind, name: name@, old: opt_view(before), new: opt_view(after) },
        ),
{
    out.push(Delta { kind, name, old: before, new: after });
    assert(deltas_view(final(out)@) =~= deltas_view(old(out)@).push(
        DeltaV { kind, name: name@, old: opt_view(before), new: opt_view(after) },
    ));
}

/// Appends to `out` the deltas of the slots `a` to `b`.
pub fn diff_slots(kind: DeltaKind, a: &Vec<Slot>, b: &Vec<Slot>, out: &mut Vec<Delta>)
    ensures
        deltas_view(final(out)@) == deltas_view(old(out)@) + slot_deltas(
            kind,
            slots_view(a@),
            slots_view(b@),
        ),
{
    let ghost av = slots_view(a@);
    let ghost bv = slots_view(b@);
    let ghost start = deltas_view(out@);
    let mut i: usize = 0;
    while i < a.len()
        invariant
            av == slots_view(a@),
            bv == slots_view(b@),
            i <= a@.len(),
            deltas_view(out@) == start + changed_slots(kind, av.subrange(0, i as int), bv),
        decreases a@.len() - i,
    {
        proof {
            lemma_changed_slots_step(kind, av, bv, i as int);
        }
        let ghost pre = deltas_view(out@);
        let ghost prev = changed_slots(kind, av.subrange(0, i as int), bv);
        let ghost c = changed_slots(kind, av.subrange(0, i as int + 1), bv);
        assert(av[i as int] == a@[i as int]@);
        let found = find_slot(b, &a[i].name);
        match found {
            None => {
                push_delta(out, kind, a[i].name.clone(), Some(a[i].value.clone()), None);
                assert(start + c =~= pre.push(c.last()));
            },
            Some(w) => {
                if !str_eq(&w, &a[i].value) {
                    push_delta(out, kind, a[i].name.clone(), Some(a[i].value.clone()), Some(w));
                    assert(start + c =~= pre.push(c.last()));
                }
            },
        }
        i = i + 1;
    }
    assert(av.subrange(0, a@.len() as int) =~= av);
    let ghost mid = deltas_view(out@);
    let mut j: usize = 0;
    while j < b.len()
        invariant
            bv == slots_view(b@),
            av == slots_view(a@),
            j <= b@.len(),
            deltas_view(out@) == mid + new_slots(kind, av, bv.subrange(0, j as int)),
        decreases b@.len() - j,
    {
        proof {
            lemma_new_slots_step(kind, av, bv, j as int);
        }
        let ghost pre = deltas_view(out@);
        let ghost c = new_slots(kind, av, bv.subrange(0, j as int + 1));
        assert(bv[j as int] == b@[j as int]@);
        let found = find_slot(a, &b[j].name);
        if found.is_none() {
            push_delta(out, kind, b[j].name.clone(), None, Some(b[j].value.clone()));
            assert(mid + c =~= pre.push(c.last()));
        }
        j = j + 1;
    }
    assert(bv.subrange(0, b@.len() as int) =~= bv);
    assert(deltas_view(out@) =~= start + slot_deltas(kind, av, bv));
}

fn diff_value(kind: DeltaKind, a: &Option<String>, b: &Option<String>, out: &mut Vec<Delta>)
    ensures
        deltas_view(final(out)@) == deltas_view(old(out)@) + value_delta(
            kind,
            opt_view(*a),
            opt_view(*b),
        ),
{
    let same = match (a, b) {
        (Some(x), Some(y)) => str_eq(x, y),
        (None, None) => true,
        _ => false,
    };
    if same {
        assert(deltas_view(out@) =~= deltas_view(out@) + value_delta(kind, opt_view(*a), opt_view(*b)));
    } else {
        let empty = String::new();
        let ghost pre = deltas_view(out@);
        push_delta(out, kind, empty, clone_opt(a), clone_opt(b));
        assert(deltas_view(out@) =~= pre + value_delta(kind, opt_view(*a), opt_view(*b)));
    }
}

/// The first block with id `id`.
pub open spec fn lookup_block(s: Seq<BlockV>, id: Seq<char>) -> Option<BlockV>
    decreases s.len(),
{
    if s.len() == 0 {
        None
    } else if s[0].id == id {
        Some(s[0])
    } else {
        lookup_block(s.drop_first(), id)
    }
}

/// The ids of the blocks of `b` whose id `a` lacks, in the order of `b`.
pub open spec fn new_blocks(a: Seq<BlockV>, b: Seq<BlockV>) -> Seq<Seq<char>>
    decreases b.len(),
{
    if b.len() == 0 {
        seq![]
    } else {
        let rest = new_blocks(a, b.drop_last());
        if lookup_block(a, b.last().id) is None {
            rest.push(b.last().id)
        } else {
            rest
        }
    }
}

/// A block present in both versions that differs, with its deltas.
pub struct BlockChange {
    pub id: String,
    pub deltas: Vec<Delta>,
}

pub struct BlockChangeV {
    pub id: Seq<char>,
    pub deltas: Seq<DeltaV>,
}

impl View for BlockChange {
    type V = BlockChangeV;

    open spec fn view(&self) -> BlockChangeV {
        BlockChangeV { id: self.id@, deltas: deltas_view(self.deltas@) }
    }
}

pub open spec fn changes_view(s: Seq<BlockChange>) -> Seq<BlockChangeV> {
    s.map_values(|c: BlockChange| c@)
}

/// The blocks of `a` that `b` holds under the same id but in another form, in the order of `a`.
pub open spec fn changed_blocks(a: Seq<BlockV>, b: Seq<BlockV>) -> Seq<BlockChangeV>
    decreases a.len(),
{
    if a.len() == 0 {
        seq![]
    } else {
        let rest = changed_blocks(a.drop_last(), b);
        let x = a.last();
        match lookup_block(b, x.id) {
            Some(y) => if y != x {
                rest.push(BlockChangeV { id: x.id, deltas: block_deltas(x, y) })
            } else {
                rest
            },
            None => rest,
        }
    }
}

proof fn lemma_new_blocks_step(a: Seq<BlockV>, b: Seq<BlockV>, j: int)
    requires
        0 <= j < b.len(),
    ensures
        new_blocks(a, b.subrange(0, j + 1)) == if lookup_block(a, b[j].id) is None {
            new_blocks(a, b.subrange(0, j)).push(b[j].id)
        } else {
            new_blocks(a, b.subrange(0, j))
        },
{
    assert(b.subrange(0, j + 1).drop_last() =~= b.subrange(0, j));
    assert(b.subrange(0, j + 1).last() == b[j]);
}

proof fn lemma_changed_blocks_step(a: Seq<BlockV>, b: Seq<BlockV>, i: int)
    requires
        0 <= i < a.len(),
    ensures
        changed_blocks(a.subrange(0, i + 1), b) == (match lookup_block(b, a[i].id) {
            Some(y) => if y != a[i] {
                changed_blocks(a.subrange(0, i), b).push(
                    BlockChangeV { id: a[i].id, deltas: block_deltas(a[i], y) },
                )
            } else {
                changed_blocks(a.subrange(0, i), b)
            },
            None => changed_blocks(a.subrange(0, i), b),
        }),
{
    assert(a.subrange(0, i + 1).drop_last() =~= a.subrange(0, i));
    assert(a.subrange(0, i + 1).last() == a[i]);
}

/// Finds the position of the first block with id `id`.
pub fn find_block(s: &Vec<Block>, id: &String) -> (r: Option<usize>)
    ensures
        match r {
            Some(k) => k < s@.len() && lookup_block(blocks_view(s@), id@) == Some(s@[k as int]@),
            None => lookup_block(blocks_view(s@), id@) is None,
        },
{
    let mut i: usize = 0;
    assert(blocks_view(s@).subrange(0, s@.len() as int) =~= blocks_view(s@));
    while i < s.len()
        invariant
            i <= s@.len(),
            lookup_block(blocks_view(s@), id@) == lookup_block(
                blocks_view(s@).subrange(i as int, s@.len() as int),
                id@,
            ),
        decreases s@.len() - i,
    {
        let ghost sub = blocks_view(s@).subrange(i as int, s@.len() as int);
        assert(sub.drop_first() =~= blocks_view(s@).subrange(i as int + 1, s@.len() as int));
        assert(sub[0] == s@[i as int]@);
        if str_eq(&s[i].id, id) {
            return Some(i);
        }
        i = i + 1;
    }
    None
}

/// The deltas between two versions of one block.
pub fn diff_block(x: &Block, y: &Block) -> (r: Vec<Delta>)
    ensures
        deltas_view(r@) == block_deltas(x@, y@),
{
    let mut out: Vec<Delta> = Vec::new();
    let ghost e = deltas_view(out@);
    assert(e =~= seq![]);
    let xo = Some(x.opcode.clone());
    let yo = Some(y.opcode.clone());
    diff_value(DeltaKind::Opcode, &xo, &yo, &mut out);
    diff_slots(DeltaKind::Field, &x.fields, &y.fields, &mut out);
    diff_slots(DeltaKind::Input, &x.inputs, &y.inputs, &mut out);
    diff_value(DeltaKind::Parent, &x.parent, &y.parent, &mut out);
    diff_value(DeltaKind::Next, &x.next, &y.next, &mut out);
    assert(deltas_view(out@) =~= block_deltas(x@, y@));
    out
}

/// The ids of the blocks of `b` that `a` lacks.
pub fn diff_new_blocks(a: &Vec<Block>, b: &Vec<Block>) -> (r: Vec<String>)
    ensures
        strs_view(r@) == new_blocks(blocks_view(a@), blocks_view(b@)),
{
    let ghost av = blocks_view(a@);
    let ghost bv = blocks_view(b@);
    let mut out: Vec<String> = Vec::new();
    let mut j: usize = 0;
    assert(strs_view(out@) =~= new_blocks(av, bv.subrange(0, 0)));
    while j < b.len()
        invariant
            av == blocks_view(a@),
            bv == blocks_view(b@),
            j <= b@.len(),
            strs_view(out@) == new_blocks(av, bv.subrange(0, j as int)),
        decreases b@.len() - j,
    {
        proof {
            lemma_new_blocks_step(av, bv, j as int);
        }
        assert(bv[j as int] == b@[j as int]@);
        let ghost pre = strs_view(out@);
        if find_block(a, &b[j].id).is_none() {
            out.push(b[j].id.clone());
            assert(strs_view(out@) =~= pre.push(bv[j as int].id));
        }
        j = j + 1;
    }
    assert(bv.subrange(0, b@.len() as int) =~= bv);
    out
}

/// The blocks of `a` that `b` holds in another form.
pub fn diff_changed_blocks(a: &Vec<Block>, b: &Vec<Block>) -> (r: Vec<BlockChange>)
    ensures
        changes_view(r@) == changed_blocks(blocks_view(a@), blocks_view(b@)),
{
    let ghost av = blocks_view(a@);
    let ghost bv = blocks_view(b@);
    let mut out: Vec<BlockChange> = Vec::new();
    let mut i: usize = 0;
    assert(changes_view(out@) =~= changed_blocks(av.subrange(0, 0), bv));
    while i < a.len()
        invariant
            av == blocks_view(a@),
            bv == blocks_view(b@),
            i <= a@.len(),
            changes_view(out@) == changed_blocks(av.subrange(0, i as int), bv),
        decreases a@.len() - i,
    {
        proof {
            lemma_changed_blocks_step(av, bv, i as int);
        }
        assert(av[i as int] == a@[i as int]@);
        let ghost pre = changes_view(out@);
        match find_block(b, &a[i].id) {
            Some(k) => {
                if !crate::model::block_eq(&a[i], &b[k]) {
                    let deltas = diff_block(&a[i], &b[k]);
                    out.push(BlockChange { id: a[i].id.clone(), deltas });
                    assert(changes_view(out@) =~= pre.push(
                        BlockChangeV { id: av[i as int].id, deltas: block_deltas(av[i as int], b@[k as int]@) },
                    ));
                }
            },
            None => {},
        }
        i = i + 1;
    }
    assert(av.subrange(0, a@.len() as int) =~= av);
    out
}

/// The values of the first list with id `id`.
pub open spec fn lookup_list(s: Seq<ListV>, id: Seq<char>) -> Option<Seq<Seq<char>>>
    decreases s.len(),
{
    if s.len() == 0 {
        None
    } else if s[0].0 == id {
        Some(s[0].1)
    } else {
        lookup_list(s.drop_first(), id)
    }
}

/// A changed list: `old` is absent for an added list, `new` for a removed one.
pub struct ListDelta {
    pub id: String,
    pub old: Option<Vec<String>>,
    pub new: Option<Vec<String>>,
}

pub struct ListDeltaV {
    pub id: Seq<char>,
    pub old: Option<Seq<Seq<char>>>,
    pub new: Option<Seq<Seq<char>>>,
}

pub open spec fn opt_strs_view(o: Option<Vec<String>>) -> Option<Seq<Seq<char>>> {
    match o {
        Some(v) => Some(strs_view(v@)),
        None => None,
    }
}

impl View for ListDelta {
    type V = ListDeltaV;

    open spec fn view(&self) -> ListDeltaV {
        ListDeltaV { id: self.id@, old: opt_strs_view(self.old), new: opt_strs_view(self.new) }
    }
}

pub open spec fn list_deltas_view(s: Seq<ListDelta>) -> Seq<ListDeltaV> {
    s.map_values(|d: ListDelta| d@)
}

/// Deltas for the lists of `a` that `b` changes or drops, in the order of `a`.
pub open spec fn changed_lists(a: Seq<ListV>, b: Seq<ListV>) -> Seq<ListDeltaV>
    decreases a.len(),
{
    if a.len() == 0 {
        seq![]
    } else {
        let rest = changed_lists(a.drop_last(), b);
        let x = a.last();
        match lookup_list(b, x.0) {
            None => rest.push(ListDeltaV { id: x.0, old: Some(x.1), new: None }),
            Some(w) => if w == x.1 {
                rest
            } else {
                rest.push(ListDeltaV { id: x.0, old: Some(x.1), new: Some(w) })
            },
        }
    }
}

/// Deltas for the lists of `b` whose ids `a` lacks, in the order of `b`.
pub open spec fn new_lists(a: Seq<ListV>, b: Seq<ListV>) -> Seq<ListDeltaV>
    decreases b.len(),
{
    if b.len() == 0 {
        seq![]
    } else {
        let rest = new_lists(a, b.drop_last());
        if lookup_list(a, b.last().0) is None {
            rest.push(ListDeltaV { id: b.last().0, old: None, new: Some(b.last().1) })
        } else {
            rest
        }
    }
}

pub open spec fn list_deltas(a: Seq<ListV>, b: Seq<ListV>) -> Seq<ListDeltaV> {
    changed_lists(a, b) + new_lists(a, b)
}

proof fn lemma_changed_lists_step(a: Seq<ListV>, b: Seq<ListV>, i: int)
    requires
        0 <= i < a.len(),
    ensures
        changed_lists(a.subrange(0, i + 1), b) == (match lookup_list(b, a[i].0) {
            None => changed_lists(a.subrange(0, i), b).push(
                ListDeltaV { id: a[i].0, old: Some(a[i].1), new: None },
            ),
            Some(w) => if w == a[i].1 {
                changed_lists(a.subrange(0, i), b)
            } else {
                changed_lists(a.subrange(0, i), b).push(
                    ListDeltaV { id: a[i].0, old: Some(a[i].1), new: Some(w) },
                )
            },
        }),
{
    assert(a.subrange(0, i + 1).drop_last() =~= a.subrange(0, i));
    assert(a.subrange(0, i + 1).last() == a[i]);
}

proof fn lemma_new_lists_step(a: Seq<ListV>, b: Seq<ListV>, j: int)
    requires
        0 <= j < b.len(),
    ensures
        new_lists(a, b.subrange(0, j + 1)) == if lookup_list(a, b[j].0) is None {
            new_lists(a, b.subrange(0, j)).push(
                ListDeltaV { id: b[j].0, old: None, new: Some(b[j].1) },
            )
        } else {
            new_lists(a, b.subrange(0, j))
        },
{
    assert(b.subrange(0, j + 1).drop_last() =~= b.subrange(0, j));
    assert(b.subrange(0, j + 1).last() == b[j]);
}

fn clone_strs(v: &Vec<String>) -> (r: Vec<String>)
    ensures
        strs_view(r@) == strs_view(v@),
{
    let r = v.clone();
    assert(strs_view(r@) =~= strs_view(v@));
    r
}

/// Finds the position of the first list with id `id`.
pub fn find_list(s: &Vec<ListVar>, id: &String) -> (r: Option<usize>)
    ensures
        match r {
            Some(k) => k < s@.len() && lookup_list(lists_view(s@), id@) == Some(s@[k as int]@.1),
            None => lookup_list(lists_view(s@), id@) is None,
        },
{
    let mut i: usize = 0;
    assert(lists_view(s@).subrange(0, s@.len() as int) =~= lists_view(s@));
    while i < s.len()
        invariant
            i <= s@.len(),
            lookup_list(lists_view(s@), id@) == lookup_list(
                lists_view(s@).subrange(i as int, s@.len() as int),
                id@,
            ),
        decreases s@.len() - i,
    {
        let ghost sub = lists_view(s@).subrange(i as int, s@.len() as int);
        assert(sub.drop_first() =~= lists_view(s@).subrange(i as int + 1, s@.len() as int));
        assert(sub[0] == s@[i as int]@);
        if str_eq(&s[i].id, id) {
            return Some(i);
        }
        i = i + 1;
    }
    None
}

/// The deltas of the lists `a` to `b`.
pub fn diff_lists(a: &Vec<ListVar>, b: &Vec<ListVar>) -> (r: Vec<ListDelta>)
    ensures
        list_deltas_view(r@) == list_deltas(lists_view(a@), lists_view(b@)),
{
    let ghost av = lists_view(a@);
    let ghost bv = lists_view(b@);
    let mut out: Vec<ListDelta> = Vec::new();
    let mut i: usize = 0;
    assert(list_deltas_view(out@) =~= changed_lists(av.subrange(0, 0), bv));
    while i < a.len()
        invariant
            av == lists_view(a@),
            bv == lists_view(b@),
            i <= a@.len(),
            list_deltas_view(out@) == changed_lists(av.subrange(0, i as int), bv),
        decreases a@.len() - i,
    {
        proof {
            lemma_changed_lists_step(av, bv, i as int);
        }
        assert(av[i as int] == a@[i as int]@);
        let ghost pre = list_deltas_view(out@);
        match find_list(b, &a[i].id) {
            None => {
                out.push(ListDelta { id: a[i].id.clone(), old: Some(clone_strs(&a[i].items)), new: None });
                assert(list_deltas_view(out@) =~= pre.push(
                    ListDeltaV { id: av[i as int].0, old: Some(av[i as int].1), new: None },
                ));
            },
            Some(k) => {
                if !strs_eq(&a[i].items, &b[k].items) {
                    out.push(ListDelta {
                        id: a[i].id.clone(),
                        old: Some(clone_strs(&a[i].items)),
                        new: Some(clone_strs(&b[k].items)),
                    });
                    assert(list_deltas_view(out@) =~= pre.push(
                        ListDeltaV { id: av[i as int].0, old: Some(av[i as int].1), new: Some(b@[k as int]@.1) },
                    ));
                }
            },
        }
        i = i + 1;
    }
    assert(av.subrange(0, a@.len() as int) =~= av);
    let ghost mid = list_deltas_view(out@);
    let mut j: usize = 0;
    while j < b.len()
        invariant
            av == lists_view(a@),
            bv == lists_view(b@),
            j <= b@.len(),
            list_deltas_view(out@) == mid + new_lists(av, bv.subrange(0, j as int)),
        decreases b@.len() - j,
    {
        proof {
            lemma_new_lists_step(av, bv, j as int);
        }
        assert(bv[j as int] == b@[j as int]@);
        let ghost pre = list_deltas_view(out@);
        if find_list(a, &b[j].id).is_none() {
            out.push(ListDelta { id: b[j].id.clone(), old: None, new: Some(clone_strs(&b[j].items)) });
            assert(list_deltas_view(out@) =~= pre.push(
                ListDeltaV { id: bv[j as int].0, old: None, new: Some(bv[j as int].1) },
            ));
            assert(mid + new_lists(av, bv.subrange(0, j as int + 1)) =~= list_deltas_view(out@));
        }
        j = j + 1;
    }
    assert(bv.subrange(0, b@.len() as int) =~= bv);
    assert(list_deltas_view(out@) =~= list_deltas(av, bv));
    out
}

/// The comparison of one target present in both versions.
pub struct TargetDiff {
    pub name: String,
    pub added_blocks: Vec<String>,
    pub removed_blocks: Vec<String>,
    pub modified_blocks: Vec<BlockChange>,
    pub variables: Vec<Delta>,
    pub lists: Vec<ListDelta>,
    pub text: Option<(String, String)>,
}

pub struct TargetDiffV {
    pub name: Seq<char>,
    pub added_blocks: Seq<Seq<char>>,
    pub removed_blocks: Seq<Seq<char>>,
    pub modified_blocks: Seq<BlockChangeV>,
    pub variables: Seq<DeltaV>,
    pub lists: Seq<ListDeltaV>,
    pub text: Option<(Seq<char>, Seq<char>)>,
}

pub open spec fn text_view(t: Option<(String, String)>) -> Option<(Seq<char>, Seq<char>)> {
    match t {
        Some(p) => Some((p.0@, p.1@)),
        None => None,
    }
}

impl View for TargetDiff {
    type V = TargetDiffV;

    open spec fn view(&self) -> TargetDiffV {
        TargetDiffV {
            name: self.name@,
            added_blocks: strs_view(self.added_blocks@),
            removed_blocks: strs_view(self.removed_blocks@),
            modified_blocks: changes_view(self.modified_blocks@),
            variables: deltas_view(self.variables@),
            lists: list_deltas_view(self.lists@),
            text: text_view(self.text),
        }
    }
}

/// The comparison of two versions of one target.
pub open spec fn target_diff(x: TargetV, y: TargetV) -> TargetDiffV {
    TargetDiffV {
        name: x.name,
        added_blocks: new_blocks(x.blocks, y.blocks),
        removed_blocks: new_blocks(y.blocks, x.blocks),
        modified_blocks: changed_blocks(x.blocks, y.blocks),
        variables: slot_deltas(DeltaKind::Variable, x.variables, y.variables),
        lists: list_deltas(x.lists, y.lists),
        text: if x.unmodeled == y.unmodeled {
            None
        } else {
            Some((x.unmodeled, y.unmodeled))
        },
    }
}

/// Whether a target comparison reports no change in any section.
pub open spec fn target_diff_empty(d: TargetDiffV) -> bool {
    &&& d.added_blocks.len() == 0
    &&& d.removed_blocks.len() == 0
    &&& d.modified_blocks.len() == 0
    &&& d.variables.len() == 0
    &&& d.lists.len() == 0
    &&& d.text is None
}

/// Compares two versions of one target.
pub fn diff_target(x: &Target, y: &Target) -> (r: TargetDiff)
    ensures
        r@ == target_diff(x@, y@),
{
    let mut variables: Vec<Delta> = Vec::new();
    assert(deltas_view(variables@) =~= seq![]);
    diff_slots(DeltaKind::Variable, &x.variables, &y.variables, &mut variables);
    assert(deltas_view(variables@) =~= slot_deltas(DeltaKind::Variable, x@.variables, y@.variables));
    let text = if str_eq(&x.unmodeled, &y.unmodeled) {
        None
    } else {
        Some((x.unmodeled.clone(), y.unmodeled.clone()))
    };
    TargetDiff {
        name: x.name.clone(),
        added_blocks: diff_new_blocks(&x.blocks, &y.blocks),
        removed_blocks: diff_new_blocks(&y.blocks, &x.blocks),
        modified_blocks: diff_changed_blocks(&x.blocks, &y.blocks),
        variables,
        lists: diff_lists(&x.lists, &y.lists),
        text,
    }
}

/// The first target named `n`.
pub open spec fn lookup_target(s: Seq<TargetV>, n: Seq<char>) -> Option<TargetV>
    decreases s.len(),
{
    if s.len() == 0 {
        None
    } else if s[0].name == n {
        Some(s[0])
    } else {
        lookup_target(s.drop_first(), n)
    }
}

/// The names of the targets of `b` that `a` lacks, in the order of `b`.
pub open spec fn new_targets(a: Seq<TargetV>, b: Seq<TargetV>) -> Seq<Seq<char>>
    decreases b.len(),
{
    if b.len() == 0 {
        seq![]
    } else {
        let rest = new_targets(a, b.drop_last());
        if lookup_target(a, b.last().name) is None {
            rest.push(b.last().name)
        } else {
            rest
        }
    }
}

/// The comparisons of the targets of `a` present in `b` that report a change, in the order of `a`.
pub open spec fn changed_targets(a: Seq<TargetV>, b: Seq<TargetV>) -> Seq<TargetDiffV>
    decreases a.len(),
{
    if a.len() == 0 {
        seq![]
    } else {
        let rest = changed_targets(a.drop_last(), b);
        match lookup_target(b, a.last().name) {
            Some(y) => if target_diff_empty(target_diff(a.last(), y)) {
                rest
            } else {
                rest.push(target_diff(a.last(), y))
            },
            None => rest,
        }
    }
}

/// Whether some asset reference of `s` has content id `id`.
pub open spec fn refs_id(s: Seq<(Seq<char>, u64)>, id: u64) -> bool {
    exists|i: int| 0 <= i < s.len() && s[i].1 == id
}

/// The content ids referenced by `b` and not by `a`, each once, in order of first reference in `b`.
pub open spec fn new_assets(a: Seq<(Seq<char>, u64)>, b: Seq<(Seq<char>, u64)>) -> Seq<u64>
    decreases b.len(),
{
    if b.len() == 0 {
        seq![]
    } else {
        let rest = new_assets(a, b.drop_last());
        let id = b.last().1;
        if !refs_id(a, id) && !refs_id(b.drop_last(), id) {
            rest.push(id)
        } else {
            rest
        }
    }
}

/// The structured difference between two manifests.
pub struct DiffReport {
    pub added_targets: Vec<String>,
    pub removed_targets: Vec<String>,
    pub modified_targets: Vec<TargetDiff>,
    pub added_assets: Vec<u64>,
    pub removed_assets: Vec<u64>,
}

pub struct DiffReportV {
    pub added_targets: Seq<Seq<char>>,
    pub removed_targets: Seq<Seq<char>>,
    pub modified_targets: Seq<TargetDiffV>,
    pub added_assets: Seq<u64>,
    pub removed_assets: Seq<u64>,
}

pub open spec fn target_diffs_view(s: Seq<TargetDiff>) -> Seq<TargetDiffV> {
    s.map_values(|d: TargetDiff| d@)
}

impl View for DiffReport {
    type V = DiffReportV;

    open spec fn view(&self) -> DiffReportV {
        DiffReportV {
            added_targets: strs_view(self.added_targets@),
            removed_targets: strs_view(self.removed_targets@),
            modified_targets: target_diffs_view(self.modified_targets@),
            added_assets: self.added_assets@,
            removed_assets: self.removed_assets@,
        }
    }
}

/// The structured difference from manifest `a` to manifest `b`.
pub open spec fn manifest_diff(a: ManifestV, b: ManifestV) -> DiffReportV {
    DiffReportV {
        added_targets: new_targets(a.targets, b.targets),
        removed_targets: new_targets(b.targets, a.targets),
        modified_targets: changed_targets(a.targets, b.targets),
        added_assets: new_assets(a.assets, b.assets),
        removed_assets: new_assets(b.assets, a.assets),
    }
}

/// Whether a report holds no change in any section.
pub open spec fn report_empty(r: DiffReportV) -> bool {
    &&& r.added_targets.len() == 0
    &&& r.removed_targets.len() == 0
    &&& r.modified_targets.len() == 0
    &&& r.added_assets.len() == 0
    &&& r.removed_assets.len() == 0
}

proof fn lemma_new_targets_step(a: Seq<TargetV>, b: Seq<TargetV>, j: int)
    requires
        0 <= j < b.len(),
    ensures
        new_targets(a, b.subrange(0, j + 1)) == if lookup_target(a, b[j].name) is None {
            new_targets(a, b.subrange(0, j)).push(b[j].name)
        } else {
            new_targets(a, b.subrange(0, j))
        },
{
    assert(b.subrange(0, j + 1).drop_last() =~= b.subrange(0, j));
    assert(b.subrange(0, j + 1).last() == b[j]);
}

proof fn lemma_changed_targets_step(a: Seq<TargetV>, b: Seq<TargetV>, i: int)
    requires
        0 <= i < a.len(),
    ensures
        changed_targets(a.subrange(0, i + 1), b) == (match lookup_target(b, a[i].name) {
            Some(y) => if target_diff_empty(target_diff(a[i], y)) {
                changed_targets(a.subrange(0, i), b)
            } else {
                changed_targets(a.subrange(0, i), b).push(target_diff(a[i], y))
            },
            None => changed_targets(a.subrange(0, i), b),
        }),
{
    assert(a.subrange(0, i + 1).drop_last() =~= a.subrange(0, i));
    assert(a.subrange(0, i + 1).last() == a[i]);
}

proof fn lemma_new_assets_step(a: Seq<(Seq<char>, u64)>, b: Seq<(Seq<char>, u64)>, j: int)
    requires
        0 <= j < b.len(),
    ensures
        new_assets(a, b.subrange(0, j + 1)) == if !refs_id(a, b[j].1) && !refs_id(
            b.subrange(0, j),
            b[j].1,
        ) {
            new_assets(a, b.subrange(0, j)).push(b[j].1)
        } else {
            new_assets(a, b.subrange(0, j))
        },
{
    assert(b.subrange(0, j + 1).drop_last() =~= b.subrange(0, j));
    assert(b.subrange(0, j + 1).last() == b[j]);
}

/// Finds the position of the first target named `n`.
pub fn find_target(s: &Vec<Target>, n: &String) -> (r: Option<usize>)
    ensures
        match r {
            Some(k) => k < s@.len() && lookup_target(targets_view(s@), n@) == Some(s@[k as int]@),
            None => lookup_target(targets_view(s@), n@) is None,
        },
{
    let mut i: usize = 0;
    assert(targets_view(s@).subrange(0, s@.len() as int) =~= targets_view(s@));
    while i < s.len()
        invariant
            i <= s@.len(),
            lookup_target(targets_view(s@), n@) == lookup_target(
                targets_view(s@).subrange(i as int, s@.len() as int),
                n@,
            ),
        decreases s@.len() - i,
    {
        let ghost sub = targets_view(s@).subrange(i as int, s@.len() as int);
        assert(sub.drop_first() =~= targets_view(s@).subrange(i as int + 1, s@.len() as int));
        assert(sub[0] == s@[i as int]@);
        if str_eq(&s[i].name, n) {
            return Some(i);
        }
        i = i + 1;
    }
    None
}

/// Whether some reference among the first `end` of `s` has content id `id`.
fn refs_contain(s: &Vec<AssetRef>, end: usize, id: u64) -> (r: bool)
    requires
        end <= s@.len(),
    ensures
        r == refs_id(refs_view(s@).subrange(0, end as int), id),
{
    let ghost v = refs_view(s@).subrange(0, end as int);
    let mut i: usize = 0;
    while i < end
        invariant
            end <= s@.len(),
            v == refs_view(s@).subrange(0, end as int),
            i <= end,
            forall|k: int| 0 <= k < i ==> s@[k].id != id,
        decreases end - i,
    {
        if s[i].id == id {
            assert(v[i as int].1 == id);
            return true;
        }
        i = i + 1;
    }
    assert forall|k: int| 0 <= k < v.len() implies v[k].1 != id by {
        assert(v[k] == s@[k]@);
    }
    false
}

/// The content ids referenced by `b` and not by `a`, each once.
pub fn diff_new_assets(a: &Vec<AssetRef>, b: &Vec<AssetRef>) -> (r: Vec<u64>)
    ensures
        r@ == new_assets(refs_view(a@), refs_view(b@)),
{
    let ghost av = refs_view(a@);
    let ghost bv = refs_view(b@);
    let mut out: Vec<u64> = Vec::new();
    let mut j: usize = 0;
    assert(av.subrange(0, a@.len() as int) =~= av);
    assert(out@ =~= new_assets(av, bv.subrange(0, 0)));
    while j < b.len()
        invariant
            av == refs_view(a@),
            bv == refs_view(b@),
            av.subrange(0, a@.len() as int) == av,
            j <= b@.len(),
            out@ == new_assets(av, bv.subrange(0, j as int)),
        decreases b@.len() - j,
    {
        proof {
            lemma_new_assets_step(av, bv, j as int);
        }
        assert(bv[j as int] == b@[j as int]@);
        let in_a = refs_contain(a, a.len(), b[j].id);
        let seen = refs_contain(b, j, b[j].id);
        if !in_a && !seen {
            out.push(b[j].id);
        }
        j = j + 1;
    }
    assert(bv.subrange(0, b@.len() as int) =~= bv);
    out
}

/// Compares manifest `a` with manifest `b`.
pub fn diff(a: &Manifest, b: &Manifest) -> (r: DiffReport)
    ensures
        r@ == manifest_diff(a@, b@),
{
    let ghost av = targets_view(a.targets@);
    let ghost bv = targets_view(b.targets@);
    let mut added: Vec<String> = Vec::new();
    let mut j: usize = 0;
    assert(strs_view(added@) =~= new_targets(av, bv.subrange(0, 0)));
    while j < b.targets.len()
        invariant
            av == targets_view(a.targets@),
            bv == targets_view(b.targets@),
            j <= b.targets@.len(),
            strs_view(added@) == new_targets(av, bv.subrange(0, j as int)),
        decreases b.targets@.len() - j,
    {
        proof {
            lemma_new_targets_step(av, bv, j as int);
        }
        assert(bv[j as int] == b.targets@[j as int]@);
        let ghost pre = strs_view(added@);
        if find_target(&a.targets, &b.targets[j].name).is_none() {
            added.push(b.targets[j].name.clone());
            assert(strs_view(added@) =~= pre.push(bv[j as int].name));
        }
        j = j + 1;
    }
    assert(bv.subrange(0, b.targets@.len() as int) =~= bv);
    let mut removed: Vec<String> = Vec::new();
    let mut modified: Vec<TargetDiff> = Vec::new();
    let mut i: usize = 0;
    assert(strs_view(removed@) =~= new_targets(bv, av.subrange(0, 0)));
    assert(target_diffs_view(modified@) =~= changed_targets(av.subrange(0, 0), bv));
    while i < a.targets.len()
        invariant
            av == targets_view(a.targets@),
            bv == targets_view(b.targets@),
            i <= a.targets@.len(),
            strs_view(removed@) == new_targets(bv, av.subrange(0, i as int)),
            target_diffs_view(modified@) == changed_targets(av.subrange(0, i as int), bv),
        decreases a.targets@.len() - i,
    {
        proof {
            lemma_new_targets_step(bv, av, i as int);
            lemma_changed_targets_step(av, bv, i as int);
        }
        assert(av[i as int] == a.targets@[i as int]@);
        let ghost pre_r = strs_view(removed@);
        let ghost pre_m = target_diffs_view(modified@);
        match find_target(&b.targets, &a.targets[i].name) {
            None => {
                removed.push(a.targets[i].name.clone());
                assert(strs_view(removed@) =~= pre_r.push(av[i as int].name));
            },
            Some(k) => {
                let d = diff_target(&a.targets[i], &b.targets[k]);
                if !(d.added_blocks.len() == 0 && d.removed_blocks.len() == 0
                    && d.modified_blocks.len() == 0 && d.variables.len() == 0 && d.lists.len() == 0
                    && d.text.is_none()) {
                    let ghost dv = d@;
                    modified.push(d);
                    assert(target_diffs_view(modified@) =~= pre_m.push(dv));
                }
            },
        }
        i = i + 1;
    }
    assert(av.subrange(0, a.targets@.len() as int) =~= av);
    DiffReport {
        added_targets: added,
        removed_targets: removed,
        modified_targets: modified,
        added_assets: diff_new_assets(&a.assets, &b.assets),
        removed_assets: diff_new_assets(&b.assets, &a.assets),
    }
}

/// Block ids are unique within the sequence.
pub open spec fn unique_blocks(s: Seq<BlockV>) -> bool {
    forall|i: int, j: int| 0 <= i < j < s.len() ==> s[i].id != s[j].id
}

/// Slot names are unique within the sequence.
pub open spec fn unique_slots(s: Seq<SlotV>) -> bool {
    forall|i: int, j: int| 0 <= i < j < s.len() ==> s[i].0 != s[j].0
}

/// List ids are unique within the sequence.
pub open spec fn unique_lists(s: Seq<ListV>) -> bool {
    forall|i: int, j: int| 0 <= i < j < s.len() ==> s[i].0 != s[j].0
}

/// Target names are unique within the sequence.
pub open spec fn unique_targets(s: Seq<TargetV>) -> bool {
    forall|i: int, j: int| 0 <= i < j < s.len() ==> s[i].name != s[j].name
}

/// A target is well formed: its block ids, variable names and list ids are each unique.
pub open spec fn target_wf(t: TargetV) -> bool {
    &&& unique_blocks(t.blocks)
    &&& unique_slots(t.variables)
    &&& unique_lists(t.lists)
    &&& forall|i: int| 0 <= i < t.blocks.len() ==> unique_slots(#[trigger] t.blocks[i].fields)
        && unique_slots(t.blocks[i].inputs)
}

/// A manifest is well formed: target names are unique and every target is well formed.
pub open spec fn manifest_wf(m: ManifestV) -> bool {
    &&& unique_targets(m.targets)
    &&& forall|i: int| 0 <= i < m.targets.len() ==> target_wf(#[trigger] m.targets[i])
}

proof fn lemma_lookup_slot_at(s: Seq<SlotV>, i: int)
    requires
        unique_slots(s),
        0 <= i < s.len(),
    ensures
        lookup_slot(s, s[i].0) == Some(s[i].1),
    decreases s.len(),
{
    if i > 0 {
        assert(s[0].0 != s[i].0);
        lemma_lookup_slot_at(s.drop_first(), i - 1);
    }
}

proof fn lemma_lookup_block_at(s: Seq<BlockV>, i: int)
    requires
        unique_blocks(s),
        0 <= i < s.len(),
    ensures
        lookup_block(s, s[i].id) == Some(s[i]),
    decreases s.len(),
{
    if i > 0 {
        assert(s[0].id != s[i].id);
        lemma_lookup_block_at(s.drop_first(), i - 1);
    }
}

proof fn lemma_lookup_list_at(s: Seq<ListV>, i: int)
    requires
        unique_lists(s),
        0 <= i < s.len(),
    ensures
        lookup_list(s, s[i].0) == Some(s[i].1),
    decreases s.len(),
{
    if i > 0 {
        assert(s[0].0 != s[i].0);
        lemma_lookup_list_at(s.drop_first(), i - 1);
    }
}

proof fn lemma_lookup_target_at(s: Seq<TargetV>, i: int)
    requires
        unique_targets(s),
        0 <= i < s.len(),
    ensures
        lookup_target(s, s[i].name) == Some(s[i]),
    decreases s.len(),
{
    if i > 0 {
        assert(s[0].name != s[i].name);
        lemma_lookup_target_at(s.drop_first(), i - 1);
    }
}

proof fn lemma_slots_self_prefix(kind: DeltaKind, a: Seq<SlotV>, n: int)
    requires
        unique_slots(a),
        0 <= n <= a.len(),
    ensures
        changed_slots(kind, a.subrange(0, n), a).len() == 0,
        new_slots(kind, a, a.subrange(0, n)).len() == 0,
    decreases n,
{
    if n > 0 {
        lemma_slots_self_prefix(kind, a, n - 1);
        lemma_changed_slots_step(kind, a, a, n - 1);
        lemma_new_slots_step(kind, a, a, n - 1);
        lemma_lookup_slot_at(a, n - 1);
    }
}

proof fn lemma_slot_deltas_self(kind: DeltaKind, a: Seq<SlotV>)
    requires
        unique_slots(a),
    ensures
        slot_deltas(kind, a, a).len() == 0,
{
    lemma_slots_self_prefix(kind, a, a.len() as int);
    assert(a.subrange(0, a.len() as int) =~= a);
}

proof fn lemma_lists_self_prefix(a: Seq<ListV>, n: int)
    requires
        unique_lists(a),
        0 <= n <= a.len(),
    ensures
        changed_lists(a.subrange(0, n), a).len() == 0,
        new_lists(a, a.subrange(0, n)).len() == 0,
    decreases n,
{
    if n > 0 {
        lemma_lists_self_prefix(a, n - 1);
        lemma_changed_lists_step(a, a, n - 1);
        lemma_new_lists_step(a, a, n - 1);
        lemma_lookup_list_at(a, n - 1);
    }
}

proof fn lemma_list_deltas_self(a: Seq<ListV>)
    requires
        unique_lists(a),
    ensures
        list_deltas(a, a).len() == 0,
{
    lemma_lists_self_prefix(a, a.len() as int);
    assert(a.subrange(0, a.len() as int) =~= a);
}

proof fn lemma_blocks_self_prefix(a: Seq<BlockV>, n: int)
    requires
        unique_blocks(a),
        0 <= n <= a.len(),
    ensures
        changed_blocks(a.subrange(0, n), a).len() == 0,
        new_blocks(a, a.subrange(0, n)).len() == 0,
    decreases n,
{
    if n > 0 {
        lemma_blocks_self_prefix(a, n - 1);
        lemma_changed_blocks_step(a, a, n - 1);
        lemma_new_blocks_step(a, a, n - 1);
        lemma_lookup_block_at(a, n - 1);
    }
}

proof fn lemma_blocks_self(a: Seq<BlockV>)
    requires
        unique_blocks(a),
    ensures
        new_blocks(a, a).len() == 0,
        changed_blocks(a, a).len() == 0,
{
    lemma_blocks_self_prefix(a, a.len() as int);
    assert(a.subrange(0, a.len() as int) =~= a);
}

proof fn lemma_targets_self_prefix(m: ManifestV, n: int)
    requires
        manifest_wf(m),
        0 <= n <= m.targets.len(),
    ensures
        changed_targets(m.targets.subrange(0, n), m.targets).len() == 0,
        new_targets(m.targets, m.targets.subrange(0, n)).len() == 0,
    decreases n,
{
    if n > 0 {
        let a = m.targets;
        lemma_targets_self_prefix(m, n - 1);
        lemma_changed_targets_step(a, a, n - 1);
        lemma_new_targets_step(a, a, n - 1);
        lemma_lookup_target_at(a, n - 1);
        lemma_target_diff_self(a[n - 1]);
    }
}

proof fn lemma_assets_self_prefix(r: Seq<(Seq<char>, u64)>, n: int)
    requires
        0 <= n <= r.len(),
    ensures
        new_assets(r, r.subrange(0, n)).len() == 0,
    decreases n,
{
    if n > 0 {
        lemma_assets_self_prefix(r, n - 1);
        lemma_new_assets_step(r, r, n - 1);
        assert(refs_id(r, r[n - 1].1));
    }
}

/// Comparing a well-formed target with itself reports nothing.
pub proof fn lemma_target_diff_self(t: TargetV)
    requires
        target_wf(t),
    ensures
        target_diff_empty(target_diff(t, t)),
{
    lemma_blocks_self(t.blocks);
    lemma_slot_deltas_self(DeltaKind::Variable, t.variables);
    lemma_list_deltas_self(t.lists);
}

/// Comparing a well-formed manifest with itself gives a report that is empty in every section.
pub proof fn lemma_diff_self(m: ManifestV)
    requires
        manifest_wf(m),
    ensures
        report_empty(manifest_diff(m, m)),
{
    lemma_targets_self_prefix(m, m.targets.len() as int);
    assert(m.targets.subrange(0, m.targets.len() as int) =~= m.targets);
    lemma_assets_self_prefix(m.assets, m.assets.len() as int);
    assert(m.assets.subrange(0, m.assets.len() as int) =~= m.assets);
}

proof fn lemma_new_blocks_absent(a: Seq<BlockV>, b: Seq<BlockV>, k: int)
    requires
        0 <= k < new_blocks(a, b).len(),
    ensures
        lookup_block(a, new_blocks(a, b)[k]) is None,
    decreases b.len(),
{
    if b.len() > 0 {
        let rest = new_blocks(a, b.drop_last());
        if k < rest.len() {
            lemma_new_blocks_absent(a, b.drop_last(), k);
        }
    }
}

proof fn lemma_changed_blocks_differ(a: Seq<BlockV>, b: Seq<BlockV>, k: int)
    requires
        0 <= k < changed_blocks(a, b).len(),
    ensures
        exists|i: int|
            0 <= i < a.len() && a[i].id == changed_blocks(a, b)[k].id && lookup_block(b, a[i].id)
                != Some(a[i]),
    decreases a.len(),
{
    if a.len() > 0 {
        let rest = changed_blocks(a.drop_last(), b);
        if k < rest.len() {
            lemma_changed_blocks_differ(a.drop_last(), b, k);
            let i = choose|i: int|
                0 <= i < a.drop_last().len() && a.drop_last()[i].id == rest[k].id && lookup_block(
                    b,
                    a.drop_last()[i].id,
                ) != Some(a.drop_last()[i]);
            assert(a[i] == a.drop_last()[i]);
        } else {
            assert(a[a.len() - 1] == a.last());
        }
    }
}

/// A block present unchanged in both versions of a well-formed target is reported
/// neither as added, nor as removed, nor as modified.
pub proof fn lemma_unchanged_block_unreported(x: TargetV, y: TargetV, blk: BlockV)
    requires
        target_wf(x),
        target_wf(y),
        x.blocks.contains(blk),
        y.blocks.contains(blk),
    ensures
        !target_diff(x, y).added_blocks.contains(blk.id),
        !target_diff(x, y).removed_blocks.contains(blk.id),
        forall|k: int|
            0 <= k < target_diff(x, y).modified_blocks.len()
                ==> #[trigger] target_diff(x, y).modified_blocks[k].id != blk.id,
{
    let ix = choose|i: int| 0 <= i < x.blocks.len() && x.blocks[i] == blk;
    let iy = choose|i: int| 0 <= i < y.blocks.len() && y.blocks[i] == blk;
    lemma_lookup_block_at(x.blocks, ix);
    lemma_lookup_block_at(y.blocks, iy);
    if target_diff(x, y).added_blocks.contains(blk.id) {
        let k = choose|k: int| 0 <= k < new_blocks(x.blocks, y.blocks).len()
            && new_blocks(x.blocks, y.blocks)[k] == blk.id;
        lemma_new_blocks_absent(x.blocks, y.blocks, k);
    }
    if target_diff(x, y).removed_blocks.contains(blk.id) {
        let k = choose|k: int| 0 <= k < new_blocks(y.blocks, x.blocks).len()
            && new_blocks(y.blocks, x.blocks)[k] == blk.id;
        lemma_new_blocks_absent(y.blocks, x.blocks, k);
    }
    assert forall|k: int|
        0 <= k < target_diff(x, y).modified_blocks.len()
            implies #[trigger] target_diff(x, y).modified_blocks[k].id != blk.id by {
        lemma_changed_blocks_differ(x.blocks, y.blocks, k);
        let i = choose|i: int|
            0 <= i < x.blocks.len() && x.blocks[i].id == changed_blocks(x.blocks, y.blocks)[k].id
                && lookup_block(y.blocks, x.blocks[i].id) != Some(x.blocks[i]);
        if x.blocks[i].id == blk.id {
            if i != ix {
                if i < ix {
                    assert(x.blocks[i].id != x.blocks[ix].id);
                } else {
                    assert(x.blocks[ix].id != x.blocks[i].id);
                }
            }
        }
    }
}

fn slots_unique(s: &Vec<Slot>) -> (r: bool)
    ensures
        r == unique_slots(slots_view(s@)),
{
    let ghost v = slots_view(s@);
    let mut j: usize = 0;
    while j < s.len()
        invariant
            v == slots_view(s@),
            j <= s@.len(),
            forall|a: int, b: int| 0 <= a < b < j ==> v[a].0 != v[b].0,
        decreases s@.len() - j,
    {
        let mut i: usize = 0;
        while i < j
            invariant
                v == slots_view(s@),
                i <= j < s@.len(),
                forall|a: int, b: int| 0 <= a < b < j ==> v[a].0 != v[b].0,
                forall|a: int| 0 <= a < i ==> v[a].0 != v[j as int].0,
            decreases j - i,
        {
            if str_eq(&s[i].name, &s[j].name) {
                assert(v[i as int].0 == v[j as int].0);
                return false;
            }
            i = i + 1;
        }
        j = j + 1;
    }
    true
}

fn blocks_unique(s: &Vec<Block>) -> (r: bool)
    ensures
        r == unique_blocks(blocks_view(s@)),
{
    let ghost v = blocks_view(s@);
    let mut j: usize = 0;
    while j < s.len()
        invariant
            v == blocks_view(s@),
            j <= s@.len(),
            forall|a: int, b: int| 0 <= a < b < j ==> v[a].id != v[b].id,
        decreases s@.len() - j,
    {
        let mut i: usize = 0;
        while i < j
            invariant
                v == blocks_view(s@),
                i <= j < s@.len(),
                forall|a: int, b: int| 0 <= a < b < j ==> v[a].id != v[b].id,
                forall|a: int| 0 <= a < i ==> v[a].id != v[j as int].id,
            decreases j - i,
        {
            if str_eq(&s[i].id, &s[j].id) {
                assert(v[i as int].id == v[j as int].id);
                return false;
            }
            i = i + 1;
        }
        j = j + 1;
    }
    true
}

fn lists_unique(s: &Vec<ListVar>) -> (r: bool)
    ensures
        r == unique_lists(lists_view(s@)),
{
    let ghost v = lists_view(s@);
    let mut j: usize = 0;
    while j < s.len()
        invariant
            v == lists_view(s@),
            j <= s@.len(),
            forall|a: int, b: int| 0 <= a < b < j ==> v[a].0 != v[b].0,
        decreases s@.len() - j,
    {
        let mut i: usize = 0;
        while i < j
            invariant
                v == lists_view(s@),
                i <= j < s@.len(),
                forall|a: int, b: int| 0 <= a < b < j ==> v[a].0 != v[b].0,
                forall|a: int| 0 <= a < i ==> v[a].0 != v[j as int].0,
            decreases j - i,
        {
            if str_eq(&s[i].id, &s[j].id) {
                assert(v[i as int].0 == v[j as int].0);
                return false;
            }
            i = i + 1;
        }
        j = j + 1;
    }
    true
}

fn targets_unique(s: &Vec<Target>) -> (r: bool)
    ensures
        r == unique_targets(targets_view(s@)),
{
    let ghost v = targets_view(s@);
    let mut j: usize = 0;
    while j < s.len()
        invariant
            v == targets_view(s@),
            j <= s@.len(),
            forall|a: int, b: int| 0 <= a < b < j ==> v[a].name != v[b].name,
        decreases s@.len() - j,
    {
        let mut i: usize = 0;
        while i < j
            invariant
                v == targets_view(s@),
                i <= j < s@.len(),
                forall|a: int, b: int| 0 <= a < b < j ==> v[a].name != v[b].name,
                forall|a: int| 0 <= a < i ==> v[a].name != v[j as int].name,
            decreases j - i,
        {
            if str_eq(&s[i].name, &s[j].name) {
                assert(v[i as int].name == v[j as int].name);
                return false;
            }
            i = i + 1;
        }
        j = j + 1;
    }
    true
}

/// Whether a target is well formed.
pub fn target_is_wf(t: &Target) -> (r: bool)
    ensures
        r == target_wf(t@),
{
    if !blocks_unique(&t.blocks) || !slots_unique(&t.variables) || !lists_unique(&t.lists) {
        return false;
    }
    let mut i: usize = 0;
    while i < t.blocks.len()
        invariant
            i <= t.blocks@.len(),
            forall|k: int| 0 <= k < i ==> unique_slots(#[trigger] t@.blocks[k].fields) && unique_slots(t@.blocks[k].inputs),
        decreases t.blocks@.len() - i,
    {
        assert(t@.blocks[i as int] == t.blocks@[i as int]@);
        if !slots_unique(&t.blocks[i].fields) || !slots_unique(&t.blocks[i].inputs) {
            assert(!(unique_slots(t@.blocks[i as int].fields) && unique_slots(t@.blocks[i as int].inputs)));
            assert(t@.blocks.len() == t.blocks@.len());
            assert(0 <= i < t@.blocks.len());
            let ghost fi = t@.blocks[i as int].fields;
            assert(!target_wf(t@));
            return false;
        }
        i = i + 1;
    }
    true
}

/// Whether a manifest is well formed.
pub fn manifest_is_wf(m: &Manifest) -> (r: bool)
    ensures
        r == manifest_wf(m@),
{
    if !targets_unique(&m.targets) {
        return false;
    }
    let mut i: usize = 0;
    while i < m.targets.len()
        invariant
            i <= m.targets@.len(),
            forall|k: int| 0 <= k < i ==> target_wf(#[trigger] m@.targets[k]),
        decreases m.targets@.len() - i,
    {
        assert(m@.targets[i as int] == m.targets@[i as int]@);
        if !target_is_wf(&m.targets[i]) {
            return false;
        }
        i = i + 1;
    }
    true
}

} // verus!
