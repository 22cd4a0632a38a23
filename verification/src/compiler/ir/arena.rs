//! Keys of the IR's arenas.
//!
//! Every instruction, basic block, function and global lives in one arena and
//! is named elsewhere by a small copyable key. Each kind of entity has a key
//! type of its own, so that a key of one kind cannot be handed to an arena of
//! another.
//!
//! The arenas themselves are slot maps. The verifier does not look inside
//! one: what an arena holds is named by a function of this module, and each
//! slot-map operation that the library uses is wrapped here with a contract
//! over that name.

use crate::compiler::ir::value::basic_block::BasicBlock;
use crate::compiler::ir::value::func::Func;
use crate::compiler::ir::value::global::Global;
use crate::compiler::ir::value::inst::Inst;
use slotmap::{DefaultKey, Key, KeyData, SlotMap};
use vstd::prelude::*;

verus! {

/// Names an instruction within the function that created it.
#[derive(Clone, Copy, Debug, PartialEq, Eq, Hash, Structural)]
pub struct InstId {
    raw: u64,
}

/// Names a basic block within the function that created it.
#[derive(Clone, Copy, Debug, PartialEq, Eq, Hash, Structural)]
pub struct BBId {
    raw: u64,
}

/// Names a function of a module.
#[derive(Clone, Copy, Debug, PartialEq, Eq, Hash, Structural)]
pub struct FuncId {
    raw: u64,
}

/// Names a global variable of a module.
#[derive(Clone, Copy, Debug, PartialEq, Eq, Hash, Structural)]
pub struct GlobalId {
    raw: u64,
}

/// Names a parameter of a function by its position.
#[derive(Clone, Copy, Debug, PartialEq, Eq, Hash, Structural)]
pub struct ParamId {
    pub position: usize,
}

impl InstId {
    /// The number that the listing shows for the instruction.
    pub closed spec fn number(self) -> u64 {
        self.raw % 0x1_0000_0000
    }

    /// The number that the listing shows for the instruction.
    pub fn index(&self) -> (r: u64)
        ensures
            r == self.number(),
    {
        self.raw % 0x1_0000_0000
    }
}

impl BBId {
    /// The number that the listing shows for the block.
    pub closed spec fn number(self) -> u64 {
        self.raw % 0x1_0000_0000
    }

    /// The number that the listing shows for the block.
    pub fn index(&self) -> (r: u64)
        ensures
            r == self.number(),
    {
        self.raw % 0x1_0000_0000
    }
}

impl FuncId {
    /// The number that the listing shows for the function.
    pub closed spec fn number(self) -> u64 {
        self.raw % 0x1_0000_0000
    }

    /// The number that the listing shows for the function.
    pub fn index(&self) -> (r: u64)
        ensures
            r == self.number(),
    {
        self.raw % 0x1_0000_0000
    }
}

impl GlobalId {
    /// The number that the listing shows for the global.
    pub closed spec fn number(self) -> u64 {
        self.raw % 0x1_0000_0000
    }

    /// The number that the listing shows for the global.
    pub fn index(&self) -> (r: u64)
        ensures
            r == self.number(),
    {
        self.raw % 0x1_0000_0000
    }
}

/// An arena is full at this many entities: an insertion needs fewer.
pub const ARENA_LIMIT: usize = 0xffff_fffe;

/// Storage that owns entities of one kind and hands out a key for each.
/// It is a `slotmap::SlotMap` with the crate's default key.
///
/// A key type of this module holds the bits of a slot-map key. Only this
/// module makes keys, from what an arena hands out and from the null key, so
/// the bits of every key are those of a key that a slot map made.
#[derive(Debug)]
#[verifier::external_body]
#[verifier::reject_recursive_types(V)]
pub struct Arena<V> {
    slots: SlotMap<DefaultKey, V>,
}

/// The instructions that an arena holds, each under the key that the arena
/// gave out for it.
pub uninterp spec fn inst_arena_view(a: Arena<Inst>) -> Map<InstId, Inst>;

/// The basic blocks that an arena holds, each under the key that the arena
/// gave out for it.
pub uninterp spec fn block_arena_view(a: Arena<BasicBlock>) -> Map<BBId, BasicBlock>;

/// The functions that an arena holds, each under the key that the arena gave
/// out for it.
pub uninterp spec fn func_arena_view(a: Arena<Func>) -> Map<FuncId, Func>;

/// The globals that an arena holds, each under the key that the arena gave
/// out for it.
pub uninterp spec fn global_arena_view(a: Arena<Global>) -> Map<GlobalId, Global>;

/// The bits of the null key, `slotmap::Key::null`. The slot map documents it
/// as a key that never names an entity; the contract claims nothing.
#[verifier::external_body]
fn null_key_bits() -> u64 {
    DefaultKey::null().data().as_ffi()
}

impl Default for InstId {
    fn default() -> InstId {
        InstId { raw: null_key_bits() }
    }
}

impl Default for BBId {
    fn default() -> BBId {
        BBId { raw: null_key_bits() }
    }
}

impl Default for FuncId {
    fn default() -> FuncId {
        FuncId { raw: null_key_bits() }
    }
}

impl Default for GlobalId {
    fn default() -> GlobalId {
        GlobalId { raw: null_key_bits() }
    }
}

/// `SlotMap::new`: an arena that holds nothing.
#[verifier::external_body]
pub(crate) fn inst_arena_new() -> (arena: Arena<Inst>)
    ensures
        forall|id: InstId| !inst_arena_view(arena).contains_key(id),
{
    Arena { slots: SlotMap::new() }
}

/// `SlotMap::len`: the number of entities held.
#[verifier::external_body]
pub(crate) fn inst_arena_len(a: &Arena<Inst>) -> (n: usize)
    ensures
        n == inst_arena_view(*a).dom().len(),
{
    a.slots.len()
}

/// `SlotMap::insert`: stores the entity under a key that named nothing
/// before, and leaves every other entry as it was. The slot map panics when
/// it is full, which the bound on the number of entities excludes.
#[verifier::external_body]
pub(crate) fn inst_arena_insert(a: &mut Arena<Inst>, v: Inst) -> (id: InstId)
    requires
        inst_arena_view(*old(a)).dom().len() < ARENA_LIMIT,
    ensures
        !inst_arena_view(*old(a)).contains_key(id),
        inst_arena_view(*final(a)) == inst_arena_view(*old(a)).insert(id, v),
{
    InstId { raw: a.slots.insert(v).data().as_ffi() }
}

/// `SlotMap::get`: the entity that the key names, if it names one.
#[verifier::external_body]
pub(crate) fn inst_arena_get(a: &Arena<Inst>, id: InstId) -> (r: Option<&Inst>)
    ensures
        r == if inst_arena_view(*a).contains_key(id) {
            Some(&inst_arena_view(*a)[id])
        } else {
            None
        },
{
    a.slots.get(KeyData::from_ffi(id.raw).into())
}

/// `SlotMap::new`: an arena that holds nothing.
#[verifier::external_body]
pub(crate) fn block_arena_new() -> (arena: Arena<BasicBlock>)
    ensures
        forall|id: BBId| !block_arena_view(arena).contains_key(id),
{
    Arena { slots: SlotMap::new() }
}

/// `SlotMap::len`: the number of entities held.
#[verifier::external_body]
pub(crate) fn block_arena_len(a: &Arena<BasicBlock>) -> (n: usize)
    ensures
        n == block_arena_view(*a).dom().len(),
{
    a.slots.len()
}

/// `SlotMap::insert`: stores the entity under a key that named nothing
/// before, and leaves every other entry as it was. The slot map panics when
/// it is full, which the bound on the number of entities excludes.
#[verifier::external_body]
pub(crate) fn block_arena_insert(a: &mut Arena<BasicBlock>, v: BasicBlock) -> (id: BBId)
    requires
        block_arena_view(*old(a)).dom().len() < ARENA_LIMIT,
    ensures
        !block_arena_view(*old(a)).contains_key(id),
        block_arena_view(*final(a)) == block_arena_view(*old(a)).insert(id, v),
{
    BBId { raw: a.slots.insert(v).data().as_ffi() }
}

/// `SlotMap::get`: the entity that the key names, if it names one.
#[verifier::external_body]
pub(crate) fn block_arena_get(a: &Arena<BasicBlock>, id: BBId) -> (r: Option<&BasicBlock>)
    ensures
        r == if block_arena_view(*a).contains_key(id) {
            Some(&block_arena_view(*a)[id])
        } else {
            None
        },
{
    a.slots.get(KeyData::from_ffi(id.raw).into())
}

/// `SlotMap::get_mut`: the entity that the key names, for the caller to
/// change in place. The arena ends up holding, under that key, whatever the
/// caller leaves there; nothing else changes.
#[verifier::external_body]
pub(crate) fn block_arena_get_mut(a: &mut Arena<BasicBlock>, id: BBId) -> (r: Option<
    &mut BasicBlock,
>)
    ensures
        match r {
            Some(v) => block_arena_view(*old(a)).contains_key(id) && *v == block_arena_view(
                *old(a),
            )[id] && block_arena_view(*final(a)) == block_arena_view(*old(a)).insert(
                id,
                *final(v),
            ),
            None => !block_arena_view(*old(a)).contains_key(id) && block_arena_view(*final(a))
                == block_arena_view(*old(a)),
        },
{
    a.slots.get_mut(KeyData::from_ffi(id.raw).into())
}

/// `SlotMap::new`: an arena that holds nothing.
#[verifier::external_body]
pub(crate) fn func_arena_new() -> (arena: Arena<Func>)
    ensures
        forall|id: FuncId| !func_arena_view(arena).contains_key(id),
{
    Arena { slots: SlotMap::new() }
}

/// `SlotMap::len`: the number of entities held.
#[verifier::external_body]
pub(crate) fn func_arena_len(a: &Arena<Func>) -> (n: usize)
    ensures
        n == func_arena_view(*a).dom().len(),
{
    a.slots.len()
}

/// `SlotMap::insert`: stores the entity under a key that named nothing
/// before, and leaves every other entry as it was. The slot map panics when
/// it is full, which the bound on the number of entities excludes.
#[verifier::external_body]
pub(crate) fn func_arena_insert(a: &mut Arena<Func>, v: Func) -> (id: FuncId)
    requires
        func_arena_view(*old(a)).dom().len() < ARENA_LIMIT,
    ensures
        !func_arena_view(*old(a)).contains_key(id),
        func_arena_view(*final(a)) == func_arena_view(*old(a)).insert(id, v),
{
    FuncId { raw: a.slots.insert(v).data().as_ffi() }
}

/// `SlotMap::get`: the entity that the key names, if it names one.
#[verifier::external_body]
pub(crate) fn func_arena_get(a: &Arena<Func>, id: FuncId) -> (r: Option<&Func>)
    ensures
        r == if func_arena_view(*a).contains_key(id) {
            Some(&func_arena_view(*a)[id])
        } else {
            None
        },
{
    a.slots.get(KeyData::from_ffi(id.raw).into())
}

/// `SlotMap::get_mut`: the entity that the key names, for the caller to
/// change in place. The arena ends up holding, under that key, whatever the
/// caller leaves there; nothing else changes.
#[verifier::external_body]
pub(crate) fn func_arena_get_mut(a: &mut Arena<Func>, id: FuncId) -> (r: Option<&mut Func>)
    ensures
        match r {
            Some(v) => func_arena_view(*old(a)).contains_key(id) && *v == func_arena_view(
                *old(a),
            )[id] && func_arena_view(*final(a)) == func_arena_view(*old(a)).insert(
                id,
                *final(v),
            ),
            None => !func_arena_view(*old(a)).contains_key(id) && func_arena_view(*final(a))
                == func_arena_view(*old(a)),
        },
{
    a.slots.get_mut(KeyData::from_ffi(id.raw).into())
}

/// `SlotMap::new`: an arena that holds nothing.
#[verifier::external_body]
pub(crate) fn global_arena_new() -> (arena: Arena<Global>)
    ensures
        forall|id: GlobalId| !global_arena_view(arena).contains_key(id),
{
    Arena { slots: SlotMap::new() }
}

/// `SlotMap::len`: the number of entities held.
#[verifier::external_body]
pub(crate) fn global_arena_len(a: &Arena<Global>) -> (n: usize)
    ensures
        n == global_arena_view(*a).dom().len(),
{
    a.slots.len()
}

/// `SlotMap::insert`: stores the entity under a key that named nothing
/// before, and leaves every other entry as it was. The slot map panics when
/// it is full, which the bound on the number of entities excludes.
#[verifier::external_body]
pub(crate) fn global_arena_insert(a: &mut Arena<Global>, v: Global) -> (id: GlobalId)
    requires
        global_arena_view(*old(a)).dom().len() < ARENA_LIMIT,
    ensures
        !global_arena_view(*old(a)).contains_key(id),
        global_arena_view(*final(a)) == global_arena_view(*old(a)).insert(id, v),
{
    GlobalId { raw: a.slots.insert(v).data().as_ffi() }
}

/// `SlotMap::get`: the entity that the key names, if it names one.
#[verifier::external_body]
pub(crate) fn global_arena_get(a: &Arena<Global>, id: GlobalId) -> (r: Option<&Global>)
    ensures
        r == if global_arena_view(*a).contains_key(id) {
            Some(&global_arena_view(*a)[id])
        } else {
            None
        },
{
    a.slots.get(KeyData::from_ffi(id.raw).into())
}

/// `SlotMap::clone`: an arena with the same keys, each naming a clone of
/// what it names in the given arena.
#[verifier::external_body]
pub(crate) fn inst_arena_clone(a: &Arena<Inst>) -> (r: Arena<Inst>)
    ensures
        inst_arena_view(r).dom() == inst_arena_view(*a).dom(),
        forall|id: InstId|
            inst_arena_view(*a).contains_key(id) ==> cloned::<Inst>(
                inst_arena_view(*a)[id],
                #[trigger] inst_arena_view(r)[id],
            ),
{
    Arena { slots: a.slots.clone() }
}

/// `SlotMap::clone`: an arena with the same keys, each naming a clone of
/// what it names in the given arena.
#[verifier::external_body]
pub(crate) fn block_arena_clone(a: &Arena<BasicBlock>) -> (r: Arena<BasicBlock>)
    ensures
        block_arena_view(r).dom() == block_arena_view(*a).dom(),
        forall|id: BBId|
            block_arena_view(*a).contains_key(id) ==> cloned::<BasicBlock>(
                block_arena_view(*a)[id],
                #[trigger] block_arena_view(r)[id],
            ),
{
    Arena { slots: a.slots.clone() }
}

} // verus!
