//! The builder's cursor: scopes, the module under construction, and where
//! the next instruction goes.

use crate::compiler::ir::arena::{BBId, FuncId, GlobalId, InstId, ParamId, ARENA_LIMIT};
use crate::compiler::ir::value::basic_block::BasicBlock;
use crate::compiler::ir::value::func::{lemma_others_kept, lemma_terminator_seals, Func, IrFunc};
use crate::compiler::ir::value::global::Global;
use crate::compiler::ir::value::inst::{Inst, InstKind};
use crate::compiler::ir::value::module::Module;
use crate::compiler::ir::value::ty::{shapes_of, FuncTy, IrTy};
use crate::compiler::ir::value::value::{Operand, Value};
use crate::compiler::syntax::ast::{AstTy, LiteralExpr};
use vstd::hash_map::StringHashMap;
use vstd::prelude::*;

verus! {

/// What an identifier resolves to.
#[derive(Clone, Copy, Debug, PartialEq, Eq, Structural)]
pub enum NameId {
    Inst(InstId),
    Func(FuncId),
    Global(GlobalId),
    Param(ParamId),
}

impl NameId {
    /// The instruction key, if the name is bound to an instruction.
    pub fn as_inst(&self) -> (r: Option<&InstId>)
        ensures
            r == match self {
                NameId::Inst(x) => Some(x),
                _ => None,
            },
    {
        match self {
            NameId::Inst(x) => Some(x),
            _ => None,
        }
    }

    /// The function key, if the name is bound to a function.
    pub fn as_func(&self) -> (r: Option<&FuncId>)
        ensures
            r == match self {
                NameId::Func(x) => Some(x),
                _ => None,
            },
    {
        match self {
            NameId::Func(x) => Some(x),
            _ => None,
        }
    }

    /// The global key, if the name is bound to a global.
    pub fn as_global(&self) -> (r: Option<&GlobalId>)
        ensures
            r == match self {
                NameId::Global(x) => Some(x),
                _ => None,
            },
    {
        match self {
            NameId::Global(x) => Some(x),
            _ => None,
        }
    }

    /// The parameter key, if the name is bound to a parameter.
    pub fn as_param(&self) -> (r: Option<&ParamId>)
        ensures
            r == match self {
                NameId::Param(x) => Some(x),
                _ => None,
            },
    {
        match self {
            NameId::Param(x) => Some(x),
            _ => None,
        }
    }
}

impl Operand {
    /// The operand that reads what a name is bound to. A function is no
    /// operand.
    pub fn from(name_id: NameId) -> (r: Operand)
        requires
            !(name_id is Func),
        ensures
            name_id matches NameId::Inst(x) ==> r == Operand::Inst(x),
            name_id matches NameId::Global(x) ==> r == Operand::Global(x),
            name_id matches NameId::Param(x) ==> r == Operand::Param(x),
    {
        match name_id {
            NameId::Inst(x) => Operand::Inst(x),
            NameId::Global(x) => Operand::Global(x),
            NameId::Param(x) => Operand::Param(x),
            NameId::Func(_) => Operand::Param(ParamId { position: 0 }),
        }
    }
}

/// One scope after an attempt to bind `name`: a name that is bound already
/// keeps its binding.
pub open spec fn bound<T>(scope: Map<Seq<char>, T>, name: Seq<char>, value: T) -> Map<
    Seq<char>,
    T,
> {
    if scope.contains_key(name) {
        scope
    } else {
        scope.insert(name, value)
    }
}

/// The binding that a name resolves to: that of the innermost scope that
/// binds it.
pub open spec fn lookup<T>(scopes: Seq<Map<Seq<char>, T>>, name: Seq<char>) -> Option<T>
    decreases scopes.len(),
{
    if scopes.len() == 0 {
        None
    } else if scopes.last().contains_key(name) {
        Some(scopes.last()[name])
    } else {
        lookup(scopes.drop_last(), name)
    }
}

/// The scope stack after a scope was opened.
pub open spec fn pushed<T>(scopes: Seq<Map<Seq<char>, T>>) -> Seq<Map<Seq<char>, T>> {
    scopes.push(Map::empty())
}

/// The scope stack after the innermost scope was closed; an empty stack
/// stays empty.
pub open spec fn popped<T>(scopes: Seq<Map<Seq<char>, T>>) -> Seq<Map<Seq<char>, T>> {
    if scopes.len() == 0 {
        scopes
    } else {
        scopes.drop_last()
    }
}

/// The scope stack after an attempt to bind `name` in the innermost scope.
pub open spec fn inserted<T>(scopes: Seq<Map<Seq<char>, T>>, name: Seq<char>, value: T) -> Seq<
    Map<Seq<char>, T>,
>
    recommends
        scopes.len() > 0,
{
    scopes.update(scopes.len() - 1, bound(scopes.last(), name, value))
}

/// Whether an attempt to bind `name` in the innermost scope fails: it does
/// when that scope binds the name already.
pub open spec fn insert_fails<T>(scopes: Seq<Map<Seq<char>, T>>, name: Seq<char>) -> bool
    recommends
        scopes.len() > 0,
{
    scopes.last().contains_key(name)
}

/// A name resolves to a binding of one of the scopes.
pub proof fn lemma_lookup_found<T>(scopes: Seq<Map<Seq<char>, T>>, name: Seq<char>)
    requires
        lookup(scopes, name) is Some,
    ensures
        exists|i: int|
            0 <= i < scopes.len() && scopes[i].contains_key(name) && #[trigger] scopes[i][name]
                == lookup(scopes, name)->0,
    decreases scopes.len(),
{
    if scopes.last().contains_key(name) {
        assert(scopes[scopes.len() - 1][name] == lookup(scopes, name)->0);
    } else {
        lemma_lookup_found(scopes.drop_last(), name);
        let i = choose|i: int|
            0 <= i < scopes.drop_last().len() && scopes.drop_last()[i].contains_key(name)
                && #[trigger] scopes.drop_last()[i][name] == lookup(scopes.drop_last(), name)->0;
        assert(scopes[i][name] == lookup(scopes, name)->0);
    }
}

/// Opening a scope, binding a name in it and closing it again leaves the
/// scope stack as it was: no name resolves differently afterwards, and a name
/// that was bound nowhere before is bound nowhere after.
pub proof fn lemma_scope_leaves_no_trace<T>(
    scopes: Seq<Map<Seq<char>, T>>,
    name: Seq<char>,
    value: T,
)
    ensures
        popped(inserted(pushed(scopes), name, value)) == scopes,
        forall|other: Seq<char>| #[trigger]
            lookup(popped(inserted(pushed(scopes), name, value)), other) == lookup(scopes, other),
        lookup(inserted(pushed(scopes), name, value), name) == Some(value),
{
    let inner = inserted(pushed(scopes), name, value);
    assert(popped(inner) =~= scopes);
    assert(inner.last().contains_key(name));
}

/// Binding a name twice in one scope: the second attempt fails and changes
/// nothing, and where the first attempt succeeded the name goes on resolving
/// to the first value.
pub proof fn lemma_second_binding_fails<T>(
    scopes: Seq<Map<Seq<char>, T>>,
    name: Seq<char>,
    first: T,
    second: T,
)
    requires
        scopes.len() > 0,
    ensures
        insert_fails(inserted(scopes, name, first), name),
        inserted(inserted(scopes, name, first), name, second) == inserted(scopes, name, first),
        !insert_fails(scopes, name) ==> lookup(
            inserted(inserted(scopes, name, first), name, second),
            name,
        ) == Some(first),
{
    let once = inserted(scopes, name, first);
    let twice = inserted(once, name, second);
    assert(once.last() == bound(scopes.last(), name, first));
    assert(twice =~= once);
}

/// One lexical level: the names bound in it.
#[verifier::reject_recursive_types(T)]
pub struct Scope<T> {
    pub vars: StringHashMap<T>,
}

impl<T> View for Scope<T> {
    type V = Map<Seq<char>, T>;

    open spec fn view(&self) -> Map<Seq<char>, T> {
        self.vars@
    }
}

impl<T> Scope<T> {
    /// A scope that binds nothing.
    pub fn new() -> (r: Scope<T>)
        ensures
            r@ == Map::<Seq<char>, T>::empty(),
    {
        Scope { vars: StringHashMap::new() }
    }

    /// What a name is bound to in this scope, if it is bound here.
    pub fn find(&self, name: &str) -> (r: Option<&T>)
        ensures
            r == if self@.contains_key(name@) {
                Some(&self@[name@])
            } else {
                None
            },
    {
        self.vars.get(name)
    }

    /// Binds a name, unless this scope binds it already. Returns the new
    /// binding, or `None` where the name was taken, in which case nothing
    /// changes.
    pub fn insert(&mut self, name: String, value: T) -> (r: Option<&T>)
        ensures
            final(self)@ == bound(old(self)@, name@, value),
            r == if old(self)@.contains_key(name@) {
                None
            } else {
                Some(&value)
            },
    {
        if self.vars.contains_key(name.as_str()) {
            None
        } else {
            let key = name.clone();
            self.vars.insert(name, value);
            self.vars.get(key.as_str())
        }
    }
}

/// A stack of scopes, the innermost last.
#[verifier::reject_recursive_types(T)]
pub struct ScopeBuilder<T> {
    pub scopes: Vec<Scope<T>>,
}

impl<T> View for ScopeBuilder<T> {
    type V = Seq<Map<Seq<char>, T>>;

    open spec fn view(&self) -> Seq<Map<Seq<char>, T>> {
        Seq::new(self.scopes@.len(), |i: int| self.scopes@[i]@)
    }
}

impl<T> ScopeBuilder<T> {
    /// A stack without scopes.
    pub fn new() -> (r: ScopeBuilder<T>)
        ensures
            r@ == Seq::<Map<Seq<char>, T>>::empty(),
    {
        ScopeBuilder { scopes: Vec::new() }
    }

    /// Opens a scope.
    pub fn push_scope(&mut self)
        ensures
            final(self)@ == pushed(old(self)@),
    {
        self.scopes.push(Scope::new());
    }

    /// Closes the innermost scope and forgets its bindings.
    pub fn pop_scope(&mut self)
        ensures
            final(self)@ == popped(old(self)@),
    {
        self.scopes.pop();
    }

    /// Resolves a name: the innermost scope that binds it decides.
    pub fn find_name_rec(&self, name: &str) -> (r: Option<&T>)
        ensures
            r == match lookup(self@, name@) {
                Some(v) => Some(&v),
                None => None,
            },
    {
        let mut i: usize = self.scopes.len();
        assert(self@.take(i as int) =~= self@);
        while i > 0
            invariant
                i <= self.scopes@.len(),
                lookup(self@, name@) == lookup(self@.take(i as int), name@),
            decreases i,
        {
            i -= 1;
            let found = self.scopes[i].find(name);
            proof {
                let upto = self@.take(i + 1);
                assert(upto.last() == self.scopes@[i as int]@);
                assert(upto.drop_last() =~= self@.take(i as int));
            }
            if found.is_some() {
                return found;
            }
        }
        None
    }

    /// Binds a name in the innermost scope, unless that scope binds it
    /// already; bindings of outer scopes may be shadowed. Returns the new
    /// binding, or `None` where the name was taken, in which case nothing
    /// changes. There must be a scope to bind in.
    pub fn insert(&mut self, name: &str, id: T) -> (r: Option<&T>)
        requires
            old(self)@.len() > 0,
        ensures
            final(self)@ == inserted(old(self)@, name@, id),
            r == if insert_fails(old(self)@, name@) {
                None
            } else {
                Some(&id)
            },
    {
        let last = self.scopes.len() - 1;
        self.scopes[last].insert(name.to_owned(), id)
    }
}

/// The blocks that `break` and `continue` jump to inside one loop.
#[derive(Clone, Copy, Debug, PartialEq, Eq, Structural)]
pub struct BCTarget {
    pub break_target: BBId,
    pub continue_target: BBId,
}

/// The single mutable cursor of a build: the scopes, the module under
/// construction, the function and the block that instructions currently go
/// to, and the jump targets of the loops that are open, innermost last.
pub struct Context {
    pub scope_builder: ScopeBuilder<NameId>,
    pub cur_module: Module,
    pub cur_func: FuncId,
    pub cur_bb: BBId,
    pub loop_targets: Vec<BCTarget>,
}

impl Context {
    /// The function that the cursor is in.
    #[verifier::inline]
    pub open spec fn cur(&self) -> Func {
        self.cur_module.funcs()[self.cur_func]
    }

    /// The module is well formed.
    pub open spec fn wf(&self) -> bool {
        self.cur_module.wf()
    }

    /// The cursor names a function of the module.
    pub open spec fn in_func(&self) -> bool {
        self.cur_module.funcs().contains_key(self.cur_func)
    }

    /// The cursor names a function of the module and a block of that
    /// function.
    pub open spec fn at_block(&self) -> bool {
        self.in_func() && self.cur().blocks().contains_key(self.cur_bb)
    }

    /// Nothing differs from `pre` but the function that the cursor is in.
    pub open spec fn same_but_cur(&self, pre: &Context) -> bool {
        &&& self.scope_builder@ == pre.scope_builder@
        &&& self.cur_func == pre.cur_func
        &&& self.cur_bb == pre.cur_bb
        &&& self.loop_targets@ == pre.loop_targets@
        &&& self.cur_module.funcs() == pre.cur_module.funcs().insert(self.cur_func, self.cur())
        &&& self.cur_module.globals() == pre.cur_module.globals()
        &&& self.cur_module.func_order == pre.cur_module.func_order
        &&& self.cur_module.global_order == pre.cur_module.global_order
    }

    /// Nothing differs from `pre` but the module.
    pub open spec fn same_but_module(&self, pre: &Context) -> bool {
        &&& self.scope_builder@ == pre.scope_builder@
        &&& self.cur_func == pre.cur_func
        &&& self.cur_bb == pre.cur_bb
        &&& self.loop_targets@ == pre.loop_targets@
    }

    /// A context with an empty module, no scope and no open loop. Its cursor
    /// names nothing yet.
    pub fn new() -> (r: Context)
        ensures
            r.wf(),
            r.scope_builder@.len() == 0,
            r.cur_module.funcs() == Map::<FuncId, Func>::empty(),
            r.cur_module.globals() == Map::<GlobalId, Global>::empty(),
            r.cur_module.func_order@.len() == 0,
            r.cur_module.global_order@.len() == 0,
            r.loop_targets@.len() == 0,
            !r.in_func(),
    {
        Context {
            scope_builder: ScopeBuilder::new(),
            cur_module: Module::new(),
            cur_func: Default::default(),
            cur_bb: Default::default(),
            loop_targets: Vec::new(),
        }
    }

    /// The block that instructions currently go to.
    pub fn get_cur_bb_id(&self) -> (r: BBId)
        ensures
            r == self.cur_bb,
    {
        self.cur_bb
    }

    /// The function that the cursor is in, for the caller to change in place.
    pub fn get_cur_func_mut(&mut self) -> (r: &mut IrFunc)
        requires
            old(self).in_func(),
        ensures
            *r == old(self).cur(),
            *final(r) == final(self).cur(),
            final(self).same_but_cur(old(self)),
    {
        let cur_func = self.cur_func;
        self.cur_module.get_func_mut(cur_func).unwrap()
    }

    /// The block that the cursor is at, for the caller to change in place.
    pub fn get_cur_bb_mut(&mut self) -> (r: &mut BasicBlock)
        requires
            old(self).at_block(),
        ensures
            *r == old(self).cur().blocks()[old(self).cur_bb],
            final(self).same_but_cur(old(self)),
            final(self).cur().blocks() == old(self).cur().blocks().insert(
                old(self).cur_bb,
                *final(r),
            ),
            final(self).cur().insts() == old(self).cur().insts(),
            final(self).cur().same_header(&old(self).cur()),
            final(self).cur().layout == old(self).cur().layout,
            final(self).cur().first_block == old(self).cur().first_block,
    {
        let bb = self.cur_bb;
        self.get_cur_func_mut().get_bb_mut(bb).unwrap()
    }

    /// The type of a function of the module.
    pub fn get_func_ty(&self, func: FuncId) -> (r: FuncTy)
        requires
            self.cur_module.funcs().contains_key(func),
            self.cur_module.funcs()[func].ty is Func,
        ensures
            r.ret_ty@ == self.cur_module.funcs()[func].ty->Func_0.ret_ty@,
            r.params_ty@.len() == self.cur_module.funcs()[func].ty->Func_0.params_ty@.len(),
            shapes_of(r.params_ty@) == shapes_of(
                self.cur_module.funcs()[func].ty->Func_0.params_ty@,
            ),
    {
        let func_ty = self.cur_module.get_func(func).unwrap().get_ty();
        proof {
            let declared = self.cur_module.funcs()[func].ty;
            assert(func_ty@->Func_1 =~= shapes_of(func_ty->Func_0.params_ty@));
            assert(declared@->Func_1 =~= shapes_of(declared->Func_0.params_ty@));
        }
        *func_ty.into_func().unwrap()
    }

    /// Moves the cursor to a block.
    pub fn set_cur_bb(&mut self, bb: BBId)
        ensures
            final(self).cur_bb == bb,
            final(self).scope_builder == old(self).scope_builder,
            final(self).cur_module == old(self).cur_module,
            final(self).cur_func == old(self).cur_func,
            final(self).loop_targets == old(self).loop_targets,
    {
        self.cur_bb = bb;
    }

    /// Moves the cursor to a function.
    pub fn set_cur_func(&mut self, func: FuncId)
        ensures
            final(self).cur_func == func,
            final(self).scope_builder == old(self).scope_builder,
            final(self).cur_module == old(self).cur_module,
            final(self).cur_bb == old(self).cur_bb,
            final(self).loop_targets == old(self).loop_targets,
    {
        self.cur_func = func;
    }

    /// Appends an instruction to a block of the current function.
    pub fn build_inst_end(&mut self, inst_kind: InstKind, ty: IrTy, bb: BBId) -> (inst: InstId)
        requires
            old(self).wf(),
            old(self).in_func(),
            old(self).cur().blocks().contains_key(bb),
            old(self).cur().insts().dom().len() < ARENA_LIMIT,
        ensures
            final(self).wf(),
            final(self).same_but_cur(old(self)),
            final(self).cur().with_new_inst(&old(self).cur(), bb, inst, (Inst { kind: inst_kind, ty })),
            inst_kind.terminates() && old(self).cur().tidy(bb) && !old(self).cur().terminated(bb)
                ==> final(self).cur().sealed(bb),
            forall|b: BBId|
                b != bb && old(self).cur().blocks().contains_key(b) ==> final(self).cur().code(b)
                    == old(self).cur().code(b) && final(self).cur().sealed(b) == old(
                    self,
                ).cur().sealed(b),
    {
        let inst = self.get_cur_func_mut().build_inst_at_end(inst_kind, ty, bb);
        proof {
            let pre = old(self).cur();
            let post = self.cur();
            let made = Inst { kind: inst_kind, ty };
            if inst_kind.terminates() && pre.tidy(bb) && !pre.terminated(bb) {
                lemma_terminator_seals(pre, post, bb, inst, made);
            }
            assert forall|b: BBId| b != bb && pre.blocks().contains_key(b) implies post.code(b)
                == pre.code(b) && post.sealed(b) == pre.sealed(b) by {
                lemma_others_kept(pre, post, bb, inst, made, b);
            }
        }
        inst
    }

    /// Appends an instruction to the current block.
    pub fn build_inst_end_of_cur(&mut self, inst_kind: InstKind, ty: IrTy) -> (inst: InstId)
        requires
            old(self).wf(),
            old(self).at_block(),
            old(self).cur().insts().dom().len() < ARENA_LIMIT,
        ensures
            final(self).wf(),
            final(self).same_but_cur(old(self)),
            final(self).cur().with_new_inst(
                &old(self).cur(),
                old(self).cur_bb,
                inst,
                (Inst { kind: inst_kind, ty }),
            ),
            inst_kind.terminates() && old(self).cur().tidy(old(self).cur_bb) && !old(
                self,
            ).cur().terminated(old(self).cur_bb) ==> final(self).cur().sealed(old(self).cur_bb),
            forall|b: BBId|
                b != old(self).cur_bb && old(self).cur().blocks().contains_key(b) ==> final(self).cur().code(b) == old(self).cur().code(b) && final(self).cur().sealed(b) == old(
                    self,
                ).cur().sealed(b),
    {
        let cur_bb = self.cur_bb;
        self.build_inst_end(inst_kind, ty, cur_bb)
    }

    /// Creates an empty block right behind the current one in the layout.
    /// The cursor stays where it is.
    pub fn build_bb_after_cur(&mut self) -> (bb: BBId)
        requires
            old(self).wf(),
            old(self).at_block(),
            old(self).cur().blocks().dom().len() < ARENA_LIMIT,
        ensures
            final(self).wf(),
            final(self).same_but_cur(old(self)),
            final(self).cur().with_new_block(&old(self).cur(), bb),
            final(self).cur().layout@ == old(self).cur().layout@.insert(
                old(self).cur().layout@.index_of(old(self).cur_bb) + 1,
                bb,
            ),
            final(self).cur().first_block == old(self).cur().first_block,
    {
        let bb = self.cur_bb;
        self.get_cur_func_mut().build_bb_after_cur(bb)
    }

    /// Creates an empty block at the end of the layout. The cursor stays
    /// where it is.
    pub fn build_bb(&mut self) -> (bb: BBId)
        requires
            old(self).wf(),
            old(self).in_func(),
            old(self).cur().blocks().dom().len() < ARENA_LIMIT,
        ensures
            final(self).wf(),
            final(self).same_but_cur(old(self)),
            final(self).cur().with_new_block(&old(self).cur(), bb),
            final(self).cur().layout@ == old(self).cur().layout@.push(bb),
            final(self).cur().first_block == Func::entry_after(&old(self).cur(), bb),
    {
        self.get_cur_func_mut().build_bb()
    }

    /// Declares a function in the module.
    pub fn build_func(&mut self, func: IrFunc) -> (id: FuncId)
        requires
            old(self).wf(),
            func.wf(),
            old(self).cur_module.funcs().dom().len() < ARENA_LIMIT,
        ensures
            final(self).wf(),
            final(self).same_but_module(old(self)),
            !old(self).cur_module.funcs().contains_key(id),
            final(self).cur_module.funcs() == old(self).cur_module.funcs().insert(id, func),
            final(self).cur_module.func_order@ == old(self).cur_module.func_order@.push(id),
            final(self).cur_module.globals() == old(self).cur_module.globals(),
            final(self).cur_module.global_order == old(self).cur_module.global_order,
    {
        self.cur_module.build_func(func)
    }

    /// Declares a global in the module.
    pub fn build_global(&mut self, global: Global) -> (id: GlobalId)
        requires
            old(self).wf(),
            old(self).cur_module.globals().dom().len() < ARENA_LIMIT,
        ensures
            final(self).wf(),
            final(self).same_but_module(old(self)),
            !old(self).cur_module.globals().contains_key(id),
            final(self).cur_module.globals() == old(self).cur_module.globals().insert(id, global),
            final(self).cur_module.global_order@ == old(self).cur_module.global_order@.push(id),
            final(self).cur_module.funcs() == old(self).cur_module.funcs(),
            final(self).cur_module.func_order == old(self).cur_module.func_order,
    {
        self.cur_module.build_global(global)
    }

    /// Appends a parameter to the current function.
    pub fn build_func_param(&mut self, ty: IrTy) -> (param: ParamId)
        requires
            old(self).wf(),
            old(self).in_func(),
        ensures
            final(self).wf(),
            final(self).same_but_cur(old(self)),
            param.position == old(self).cur().params@.len(),
            final(self).cur().with_new_param(&old(self).cur(), ty),
    {
        self.get_cur_func_mut().build_func_param(ty)
    }
}

/// What is known of a declared name besides its binding.
#[derive(Debug)]
pub struct NameTyInfo {
    pub ty: AstTy,
    pub const_val: Option<LiteralExpr>,
    pub is_const: bool,
}

impl Clone for NameTyInfo {
    fn clone(&self) -> (r: NameTyInfo)
        ensures
            r.ty.ir_shape() == self.ty.ir_shape(),
            r.ty.resolved() == self.ty.resolved(),
            r.is_const == self.is_const,
            match (r.const_val, self.const_val) {
                (Some(a), Some(b)) => a.const_shape() == b.const_shape() && a.typed() == b.typed(),
                (None, None) => true,
                _ => false,
            },
    {
        NameTyInfo {
            ty: self.ty.clone(),
            const_val: match &self.const_val {
                Some(lit) => Some(lit.clone()),
                None => None,
            },
            is_const: self.is_const,
        }
    }
}

} // verus!
