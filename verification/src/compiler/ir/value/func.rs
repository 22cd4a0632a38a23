//! Functions: the owners of basic blocks and instructions.

use crate::compiler::ir::arena::{
    block_arena_clone, block_arena_get, block_arena_get_mut, block_arena_insert, block_arena_len,
    block_arena_new, block_arena_view, inst_arena_clone, inst_arena_get, inst_arena_insert,
    inst_arena_len, inst_arena_new, inst_arena_view, Arena, BBId, InstId, ParamId, ARENA_LIMIT,
};
use crate::compiler::ir::value::basic_block::BasicBlock;
use crate::compiler::ir::value::global::Param;
use crate::compiler::ir::value::inst::{Inst, InstKind};
use crate::compiler::ir::value::ty::{IrTy, TyShape};
use crate::compiler::ir::value::value::Value;
use vstd::prelude::*;

verus! {

/// One declared or defined routine. It owns an arena of instructions and an
/// arena of basic blocks; a key of either is meaningful in this function only.
#[derive(Debug)]
pub struct Func {
    pub name: String,
    pub ty: IrTy,
    /// A builtin has no body: its arenas stay empty.
    pub is_builtin: bool,
    /// The entry block: the first block that was created.
    pub first_block: Option<BBId>,
    pub params: Vec<Param>,
    pub instructions_arena: Arena<Inst>,
    pub basic_block_arena: Arena<BasicBlock>,
    /// The blocks in the order in which the listing shows them.
    pub layout: Vec<BBId>,
}

pub type IrFunc = Func;

impl Func {
    /// The instructions of the function, by key.
    #[verifier::inline]
    pub open spec fn insts(&self) -> Map<InstId, Inst> {
        inst_arena_view(self.instructions_arena)
    }

    /// The basic blocks of the function, by key.
    #[verifier::inline]
    pub open spec fn blocks(&self) -> Map<BBId, BasicBlock> {
        block_arena_view(self.basic_block_arena)
    }

    /// The instructions of a block, in order.
    #[verifier::inline]
    pub open spec fn code(&self, bb: BBId) -> Seq<InstId> {
        self.blocks()[bb].insts@
    }

    /// Whether the last instruction of a block is a terminator.
    pub open spec fn terminated(&self, bb: BBId) -> bool {
        self.code(bb).len() > 0 && self.insts()[self.code(bb).last()].kind.terminates()
    }

    /// No instruction of a block but its last is a terminator.
    pub open spec fn tidy(&self, bb: BBId) -> bool {
        forall|i: int|
            0 <= i < self.code(bb).len() - 1 ==> !(#[trigger] self.insts()[self.code(
                bb,
            )[i]]).kind.terminates()
    }

    /// A block is sealed when it ends in a terminator and holds no other.
    pub open spec fn sealed(&self, bb: BBId) -> bool {
        self.terminated(bb) && self.tidy(bb)
    }

    /// The blocks that do not end in a terminator yet.
    pub open spec fn open_blocks(&self) -> Set<BBId> {
        Set::new(|bb: BBId| self.blocks().contains_key(bb) && !self.terminated(bb))
    }

    /// The structural invariant: both arenas are finite; the layout lists
    /// each block once and nothing else; the entry block, once there is one,
    /// is a block of the function and there is none only while the function
    /// has no block; every instruction that a block lists is in the
    /// instruction arena; each parameter knows its position.
    pub open spec fn wf(&self) -> bool {
        &&& self.insts().dom().finite()
        &&& self.blocks().dom().finite()
        &&& self.layout@.no_duplicates()
        &&& (forall|bb: BBId| self.blocks().contains_key(bb) <==> self.layout@.contains(bb))
        &&& (match self.first_block {
            Some(bb) => self.blocks().contains_key(bb),
            None => self.layout@.len() == 0,
        })
        &&& (forall|bb: BBId, i: int|
            self.blocks().contains_key(bb) && 0 <= i < self.code(bb).len()
                ==> self.insts().contains_key(#[trigger] self.code(bb)[i]))
        &&& (forall|i: int|
            0 <= i < self.params@.len() ==> (#[trigger] self.params@[i]).position == i)
    }

    /// `self` has the name, type, builtin flag and parameters of `pre`.
    pub open spec fn same_header(&self, pre: &Func) -> bool {
        &&& self.name == pre.name
        &&& self.ty == pre.ty
        &&& self.is_builtin == pre.is_builtin
        &&& self.params == pre.params
    }

    /// `self` is `pre` with one more block, `bb`, which is empty; every
    /// other block and every instruction is as it was. The layout and the
    /// entry block are not spoken of.
    pub open spec fn with_new_block(&self, pre: &Func, bb: BBId) -> bool {
        &&& self.same_header(pre)
        &&& !pre.blocks().contains_key(bb)
        &&& self.blocks().dom() == pre.blocks().dom().insert(bb)
        &&& (forall|b: BBId|
            pre.blocks().contains_key(b) ==> self.blocks()[b] == pre.blocks()[b])
        &&& self.code(bb) == Seq::<InstId>::empty()
        &&& self.insts() == pre.insts()
    }

    /// `self` is `pre` with one more instruction, `made` under the key
    /// `inst`, appended to the block `bb`; every other block and instruction,
    /// the layout and the entry block are as they were.
    pub open spec fn with_new_inst(&self, pre: &Func, bb: BBId, inst: InstId, made: Inst) -> bool {
        &&& self.same_header(pre)
        &&& self.layout == pre.layout
        &&& self.first_block == pre.first_block
        &&& !pre.insts().contains_key(inst)
        &&& self.insts() == pre.insts().insert(inst, made)
        &&& self.blocks().dom() == pre.blocks().dom()
        &&& self.code(bb) == pre.code(bb).push(inst)
        &&& (forall|b: BBId|
            b != bb && pre.blocks().contains_key(b) ==> self.blocks()[b] == pre.blocks()[b])
    }

    /// `self` is `pre` with one more parameter, of type `ty`, at the end;
    /// nothing else differs.
    pub open spec fn with_new_param(&self, pre: &Func, ty: IrTy) -> bool {
        &&& self.name == pre.name
        &&& self.ty == pre.ty
        &&& self.is_builtin == pre.is_builtin
        &&& self.params@ == pre.params@.push((Param { ty, position: pre.params.len() }))
        &&& self.insts() == pre.insts()
        &&& self.blocks() == pre.blocks()
        &&& self.layout == pre.layout
        &&& self.first_block == pre.first_block
    }

    /// The entry block after a block `bb` was created: the one there was, or
    /// `bb` if there was none.
    pub open spec fn entry_after(pre: &Func, bb: BBId) -> Option<BBId> {
        if pre.first_block is None {
            Some(bb)
        } else {
            pre.first_block
        }
    }

    /// A function without blocks, instructions or parameters.
    pub fn new(name: &str, ty: IrTy, is_builtin: bool) -> (r: Func)
        ensures
            r.wf(),
            r.name@ == name@,
            r.ty == ty,
            r.is_builtin == is_builtin,
            r.first_block is None,
            r.params@.len() == 0,
            r.layout@.len() == 0,
            r.insts() == Map::<InstId, Inst>::empty(),
            r.blocks() == Map::<BBId, BasicBlock>::empty(),
    {
        let r = Func {
            name: name.to_owned(),
            ty,
            is_builtin,
            first_block: None,
            params: Vec::new(),
            instructions_arena: inst_arena_new(),
            basic_block_arena: block_arena_new(),
            layout: Vec::new(),
        };
        assert(r.insts() =~= Map::<InstId, Inst>::empty());
        assert(r.blocks() =~= Map::<BBId, BasicBlock>::empty());
        r
    }

    /// The block that a key names, if it names one here.
    pub fn get_bb(&self, bb: BBId) -> (r: Option<&BasicBlock>)
        ensures
            r == if self.blocks().contains_key(bb) {
                Some(&self.blocks()[bb])
            } else {
                None
            },
    {
        block_arena_get(&self.basic_block_arena, bb)
    }

    /// The block that a key names, for the caller to change in place. The
    /// function ends up holding, under that key, what the caller leaves
    /// there.
    pub fn get_bb_mut(&mut self, bb: BBId) -> (r: Option<&mut BasicBlock>)
        ensures
            match r {
                Some(b) => old(self).blocks().contains_key(bb) && *b == old(self).blocks()[bb]
                    && final(self).blocks() == old(self).blocks().insert(bb, *final(b)),
                None => !old(self).blocks().contains_key(bb) && final(self).blocks() == old(
                    self,
                ).blocks(),
            },
            final(self).insts() == old(self).insts(),
            final(self).same_header(old(self)),
            final(self).layout == old(self).layout,
            final(self).first_block == old(self).first_block,
    {
        block_arena_get_mut(&mut self.basic_block_arena, bb)
    }

    /// The instruction that a key names, if it names one here.
    pub fn get_inst(&self, inst: InstId) -> (r: Option<&Inst>)
        ensures
            r == if self.insts().contains_key(inst) {
                Some(&self.insts()[inst])
            } else {
                None
            },
    {
        inst_arena_get(&self.instructions_arena, inst)
    }

    /// Whether another block can be created.
    pub fn has_room_for_block(&self) -> (r: bool)
        ensures
            r == (self.blocks().dom().len() < ARENA_LIMIT),
    {
        block_arena_len(&self.basic_block_arena) < ARENA_LIMIT
    }

    /// Whether another instruction can be created.
    pub fn has_room_for_inst(&self) -> (r: bool)
        ensures
            r == (self.insts().dom().len() < ARENA_LIMIT),
    {
        inst_arena_len(&self.instructions_arena) < ARENA_LIMIT
    }

    /// Whether a block ends in a terminator.
    pub fn is_terminated(&self, bb: BBId) -> (r: bool)
        requires
            self.wf(),
            self.blocks().contains_key(bb),
        ensures
            r == self.terminated(bb),
    {
        match block_arena_get(&self.basic_block_arena, bb) {
            Some(block) => match block.last() {
                Some(inst) => match inst_arena_get(&self.instructions_arena, inst) {
                    Some(i) => i.kind.is_terminator(),
                    None => false,
                },
                None => false,
            },
            None => false,
        }
    }

    /// Creates an empty block and puts it last in the layout. The first block
    /// that a function gets becomes its entry block, for good.
    pub fn build_bb(&mut self) -> (bb: BBId)
        requires
            old(self).wf(),
            old(self).blocks().dom().len() < ARENA_LIMIT,
        ensures
            final(self).wf(),
            final(self).with_new_block(old(self), bb),
            final(self).layout@ == old(self).layout@.push(bb),
            final(self).first_block == Func::entry_after(old(self), bb),
    {
        let bb = block_arena_insert(&mut self.basic_block_arena, BasicBlock::new());
        self.layout.push(bb);
        if self.first_block.is_none() {
            self.first_block = Some(bb);
        }
        proof {
            let before = old(self).layout@;
            assert(!before.contains(bb));
            assert(self.blocks().dom() =~= old(self).blocks().dom().insert(bb));
            assert forall|b: BBId| self.blocks().contains_key(b) <==> self.layout@.contains(
                b,
            ) by {
                if b == bb {
                    assert(self.layout@[before.len() as int] == bb);
                } else if before.contains(b) {
                    let i = choose|i: int| 0 <= i < before.len() && before[i] == b;
                    assert(self.layout@[i] == b);
                }
            }
            assert forall|b: BBId, i: int|
                self.blocks().contains_key(b) && 0 <= i < self.code(b).len() implies self.insts().contains_key(
                #[trigger] self.code(b)[i],
            ) by {
                if b != bb {
                    assert(self.code(b)[i] == old(self).code(b)[i]);
                }
            }
        }
        bb
    }

    /// Creates an empty block and puts it right behind `after` in the layout.
    pub fn build_bb_after_cur(&mut self, after: BBId) -> (bb: BBId)
        requires
            old(self).wf(),
            old(self).blocks().contains_key(after),
            old(self).blocks().dom().len() < ARENA_LIMIT,
        ensures
            final(self).wf(),
            final(self).with_new_block(old(self), bb),
            final(self).layout@ == old(self).layout@.insert(
                old(self).layout@.index_of(after) + 1,
                bb,
            ),
            final(self).first_block == old(self).first_block,
    {
        let mut at: usize = 0;
        while at < self.layout.len() && self.layout[at] != after
            invariant
                at <= self.layout@.len(),
                forall|j: int| 0 <= j < at ==> self.layout@[j] != after,
            decreases self.layout@.len() - at,
        {
            at += 1;
        }
        proof {
            let before = self.layout@;
            assert(before.contains(after));
            let k = before.index_of(after);
            assert(0 <= k < before.len() && before[k] == after);
            assert(at == k) by {
                if at < k {
                } else if k < at {
                }
            }
        }
        let bb = block_arena_insert(&mut self.basic_block_arena, BasicBlock::new());
        self.layout.insert(at + 1, bb);
        proof {
            let before = old(self).layout@;
            assert(!before.contains(bb));
            assert(self.blocks().dom() =~= old(self).blocks().dom().insert(bb));
            assert forall|b: BBId| self.blocks().contains_key(b) <==> self.layout@.contains(
                b,
            ) by {
                if b == bb {
                    assert(self.layout@[at + 1] == bb);
                } else if before.contains(b) {
                    let i = choose|i: int| 0 <= i < before.len() && before[i] == b;
                    if i <= at {
                        assert(self.layout@[i] == b);
                    } else {
                        assert(self.layout@[i + 1] == b);
                    }
                }
            }
            assert forall|b: BBId, i: int|
                self.blocks().contains_key(b) && 0 <= i < self.code(b).len() implies self.insts().contains_key(
                #[trigger] self.code(b)[i],
            ) by {
                if b != bb {
                    assert(self.code(b)[i] == old(self).code(b)[i]);
                }
            }
            assert(self.layout@.no_duplicates()) by {
                assert forall|i: int, j: int|
                    0 <= i < self.layout@.len() && 0 <= j < self.layout@.len() && i != j implies self.layout@[i]
                    != self.layout@[j] by {
                    let oi = if i <= at { i } else { i - 1 };
                    let oj = if j <= at { j } else { j - 1 };
                    if i == at + 1 {
                        assert(before[oj] == self.layout@[j]);
                    } else if j == at + 1 {
                        assert(before[oi] == self.layout@[i]);
                    } else {
                        assert(before[oi] == self.layout@[i]);
                        assert(before[oj] == self.layout@[j]);
                    }
                }
            }
        }
        bb
    }

    /// Creates an instruction and appends it to a block.
    pub fn build_inst_at_end(&mut self, inst_kind: InstKind, ty: IrTy, bb: BBId) -> (inst: InstId)
        requires
            old(self).wf(),
            old(self).blocks().contains_key(bb),
            old(self).insts().dom().len() < ARENA_LIMIT,
        ensures
            final(self).wf(),
            final(self).with_new_inst(old(self), bb, inst, (Inst { kind: inst_kind, ty })),
    {
        let inst = inst_arena_insert(&mut self.instructions_arena, Inst { kind: inst_kind, ty });
        match block_arena_get_mut(&mut self.basic_block_arena, bb) {
            Some(block) => {
                block.push(inst);
            },
            None => {},
        }
        proof {
            assert(self.blocks().dom() =~= old(self).blocks().dom());
            assert forall|b: BBId, i: int|
                self.blocks().contains_key(b) && 0 <= i < self.code(b).len() implies self.insts().contains_key(
                #[trigger] self.code(b)[i],
            ) by {
                if b == bb {
                    if i < old(self).code(bb).len() {
                        assert(self.code(b)[i] == old(self).code(b)[i]);
                    }
                } else {
                    assert(self.code(b)[i] == old(self).code(b)[i]);
                }
            }
        }
        inst
    }

    /// Appends a parameter of the given type, and returns its key.
    pub fn build_func_param(&mut self, ty: IrTy) -> (param: ParamId)
        requires
            old(self).wf(),
        ensures
            final(self).wf(),
            param.position == old(self).params@.len(),
            final(self).with_new_param(old(self), ty),
    {
        let position = self.params.len();
        self.params.push(Param { ty, position });
        proof {
            assert forall|i: int| 0 <= i < self.params@.len() implies (
            #[trigger] self.params@[i]).position == i by {
                if i < position {
                    assert(self.params@[i] == old(self).params@[i]);
                }
            }
        }
        ParamId { position }
    }
}

impl Value for Func {
    open spec fn ty_shape(&self) -> TyShape {
        self.ty@
    }

    fn get_ty(&self) -> (r: IrTy) {
        self.ty.clone()
    }
}

/// An instruction appended to one block leaves every other block as it
/// was, sealed or not.
pub proof fn lemma_others_kept(pre: Func, post: Func, bb: BBId, inst: InstId, made: Inst, b: BBId)
    requires
        pre.wf(),
        post.with_new_inst(&pre, bb, inst, made),
        b != bb,
        pre.blocks().contains_key(b),
    ensures
        post.code(b) == pre.code(b),
        post.sealed(b) == pre.sealed(b),
{
    assert(post.blocks()[b] == pre.blocks()[b]);
    assert forall|i: int| 0 <= i < pre.code(b).len() implies post.insts()[post.code(b)[i]]
        == pre.insts()[pre.code(b)[i]] by {
        assert(pre.insts().contains_key(pre.code(b)[i]));
    }
    if pre.code(b).len() > 0 {
        assert(pre.code(b).last() == pre.code(b)[pre.code(b).len() - 1]);
    }
    if pre.tidy(b) {
        assert(post.tidy(b));
    }
    if post.tidy(b) {
        assert forall|i: int| 0 <= i < pre.code(b).len() - 1 implies !(
        #[trigger] pre.insts()[pre.code(b)[i]]).kind.terminates() by {
            assert(!post.insts()[post.code(b)[i]].kind.terminates());
        }
    }
}

/// A terminator appended to a block that holds none seals it: the block
/// ends in exactly that terminator, and nothing stands behind it. Every other
/// block is as it was, sealed or not.
pub proof fn lemma_terminator_seals(pre: Func, post: Func, bb: BBId, inst: InstId, made: Inst)
    requires
        pre.wf(),
        pre.blocks().contains_key(bb),
        post.with_new_inst(&pre, bb, inst, made),
        made.kind.terminates(),
        pre.tidy(bb),
        !pre.terminated(bb),
    ensures
        post.sealed(bb),
        post.code(bb) == pre.code(bb).push(inst),
        post.insts()[post.code(bb).last()] == made,
        forall|b: BBId|
            b != bb && pre.blocks().contains_key(b) ==> post.code(b) == pre.code(b) && post.sealed(
                b,
            ) == pre.sealed(b),
{
    assert(post.code(bb).last() == inst);
    assert forall|i: int| 0 <= i < post.code(bb).len() - 1 implies !(#[trigger] post.insts()[post.code(
        bb,
    )[i]]).kind.terminates() by {
        assert(post.code(bb)[i] == pre.code(bb)[i]);
        assert(pre.insts().contains_key(pre.code(bb)[i]));
        if i == pre.code(bb).len() - 1 {
            assert(pre.code(bb).last() == pre.code(bb)[i]);
        }
    }
    assert forall|b: BBId| b != bb && pre.blocks().contains_key(b) implies post.code(b)
        == pre.code(b) && post.sealed(b) == pre.sealed(b) by {
        lemma_others_kept(pre, post, bb, inst, made, b);
    }
}

impl Clone for Func {
    /// A copy with the same keys: the same header, layout and entry block,
    /// the same instructions in every block, and for every instruction one
    /// of the same kind and type.
    fn clone(&self) -> (r: Func)
        ensures
            r.name@ == self.name@,
            r.ty@ == self.ty@,
            r.is_builtin == self.is_builtin,
            r.first_block == self.first_block,
            r.layout@ == self.layout@,
            r.params@.len() == self.params@.len(),
            forall|i: int|
                0 <= i < self.params@.len() ==> (#[trigger] r.params@[i]).ty@ == self.params@[i].ty@
                    && r.params@[i].position == self.params@[i].position,
            r.blocks().dom() == self.blocks().dom(),
            forall|bb: BBId| self.blocks().contains_key(bb) ==> #[trigger] r.code(bb) == self.code(bb),
            r.insts().dom() == self.insts().dom(),
            forall|i: InstId|
                self.insts().contains_key(i) ==> self.insts()[i].kind.same(
                    (#[trigger] r.insts()[i]).kind,
                ) && r.insts()[i].ty@ == self.insts()[i].ty@,
            self.wf() ==> r.wf(),
    {
        let mut params: Vec<Param> = Vec::new();
        let mut i: usize = 0;
        while i < self.params.len()
            invariant
                i <= self.params@.len(),
                params@.len() == i,
                forall|j: int|
                    0 <= j < i ==> (#[trigger] params@[j]).ty@ == self.params@[j].ty@
                        && params@[j].position == self.params@[j].position,
            decreases self.params@.len() - i,
        {
            params.push(self.params[i].clone());
            i += 1;
        }
        let mut layout: Vec<BBId> = Vec::new();
        let mut k: usize = 0;
        while k < self.layout.len()
            invariant
                k <= self.layout@.len(),
                layout@ == self.layout@.take(k as int),
            decreases self.layout@.len() - k,
        {
            layout.push(self.layout[k]);
            proof {
                assert(self.layout@.take(k + 1) =~= self.layout@.take(k as int).push(
                    self.layout@[k as int],
                ));
            }
            k += 1;
        }
        proof {
            assert(self.layout@.take(self.layout@.len() as int) =~= self.layout@);
        }
        let r = Func {
            name: self.name.clone(),
            ty: self.ty.clone(),
            is_builtin: self.is_builtin,
            first_block: self.first_block,
            params,
            instructions_arena: inst_arena_clone(&self.instructions_arena),
            basic_block_arena: block_arena_clone(&self.basic_block_arena),
            layout,
        };
        proof {
            assert forall|bb: BBId| self.blocks().contains_key(bb) implies #[trigger] r.code(bb)
                == self.code(bb) by {
                assert(cloned::<BasicBlock>(self.blocks()[bb], r.blocks()[bb]));
            }
            assert forall|i: InstId| self.insts().contains_key(i) implies self.insts()[i].kind.same(
                (#[trigger] r.insts()[i]).kind,
            ) && r.insts()[i].ty@ == self.insts()[i].ty@ by {
                assert(cloned::<Inst>(self.insts()[i], r.insts()[i]));
                lemma_same_self(self.insts()[i].kind);
            }
            if self.wf() {
                assert forall|bb: BBId| r.blocks().contains_key(bb) <==> r.layout@.contains(
                    bb,
                ) by {
                    assert(self.blocks().dom().contains(bb) == r.blocks().dom().contains(bb));
                }
                assert forall|bb: BBId, i: int|
                    r.blocks().contains_key(bb) && 0 <= i < r.code(bb).len() implies r.insts().contains_key(
                    #[trigger] r.code(bb)[i],
                ) by {
                    assert(self.blocks().dom().contains(bb));
                    assert(self.insts().contains_key(self.code(bb)[i]));
                    assert(self.insts().dom().contains(self.code(bb)[i]));
                }
            }
        }
        r
    }
}

/// A kind does the same as itself.
pub proof fn lemma_same_self(kind: InstKind)
    ensures
        kind.same(kind),
{
    match kind {
        InstKind::Call { args, .. } => {
            assert forall|i: int| 0 <= i < args@.len() implies (#[trigger] args@[i]).same(
                args@[i],
            ) by {}
        },
        _ => {},
    }
}

} // verus!
