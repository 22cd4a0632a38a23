//! Modules: one compilation unit each.

use crate::compiler::ir::arena::{
    func_arena_get, func_arena_get_mut, func_arena_insert, func_arena_len, func_arena_new,
    func_arena_view, global_arena_get, global_arena_insert, global_arena_len, global_arena_new,
    global_arena_view, Arena, FuncId, GlobalId, ARENA_LIMIT,
};
use crate::compiler::ir::value::func::Func;
use crate::compiler::ir::value::global::Global;
use vstd::prelude::*;

verus! {

/// A compilation unit: its functions and its globals, each in an arena. The
/// module holds no control flow of its own.
#[derive(Debug)]
pub struct Module {
    pub func_arena: Arena<Func>,
    pub global_arena: Arena<Global>,
    /// The functions in the order of their declaration.
    pub func_order: Vec<FuncId>,
    /// The globals in the order of their declaration.
    pub global_order: Vec<GlobalId>,
}

impl Module {
    /// The functions of the module, by key.
    #[verifier::inline]
    pub open spec fn funcs(&self) -> Map<FuncId, Func> {
        func_arena_view(self.func_arena)
    }

    /// The globals of the module, by key.
    #[verifier::inline]
    pub open spec fn globals(&self) -> Map<GlobalId, Global> {
        global_arena_view(self.global_arena)
    }

    /// The structural invariant: both arenas are finite, every function is
    /// well formed, and the two orders list each entity once and nothing
    /// else.
    pub open spec fn wf(&self) -> bool {
        &&& self.funcs().dom().finite()
        &&& self.globals().dom().finite()
        &&& (forall|f: FuncId| self.funcs().contains_key(f) ==> (#[trigger] self.funcs()[f]).wf())
        &&& self.func_order@.no_duplicates()
        &&& self.global_order@.no_duplicates()
        &&& (forall|f: FuncId| self.funcs().contains_key(f) <==> self.func_order@.contains(f))
        &&& (forall|g: GlobalId|
            self.globals().contains_key(g) <==> self.global_order@.contains(g))
    }

    /// A module without functions or globals.
    pub fn new() -> (r: Module)
        ensures
            r.wf(),
            r.funcs() == Map::<FuncId, Func>::empty(),
            r.globals() == Map::<GlobalId, Global>::empty(),
            r.func_order@.len() == 0,
            r.global_order@.len() == 0,
    {
        let r = Module {
            func_arena: func_arena_new(),
            global_arena: global_arena_new(),
            func_order: Vec::new(),
            global_order: Vec::new(),
        };
        assert(r.funcs() =~= Map::<FuncId, Func>::empty());
        assert(r.globals() =~= Map::<GlobalId, Global>::empty());
        r
    }

    /// Whether another function can be declared.
    pub fn has_room_for_func(&self) -> (r: bool)
        ensures
            r == (self.funcs().dom().len() < ARENA_LIMIT),
    {
        func_arena_len(&self.func_arena) < ARENA_LIMIT
    }

    /// Whether another global can be declared.
    pub fn has_room_for_global(&self) -> (r: bool)
        ensures
            r == (self.globals().dom().len() < ARENA_LIMIT),
    {
        global_arena_len(&self.global_arena) < ARENA_LIMIT
    }

    /// Declares a function and returns its key.
    pub fn build_func(&mut self, func: Func) -> (id: FuncId)
        requires
            old(self).wf(),
            func.wf(),
            old(self).funcs().dom().len() < ARENA_LIMIT,
        ensures
            final(self).wf(),
            !old(self).funcs().contains_key(id),
            final(self).funcs() == old(self).funcs().insert(id, func),
            final(self).func_order@ == old(self).func_order@.push(id),
            final(self).globals() == old(self).globals(),
            final(self).global_order == old(self).global_order,
    {
        let id = func_arena_insert(&mut self.func_arena, func);
        self.func_order.push(id);
        proof {
            let before = old(self).func_order@;
            assert(!before.contains(id));
            assert forall|f: FuncId| self.funcs().contains_key(f) <==> self.func_order@.contains(
                f,
            ) by {
                if f == id {
                    assert(self.func_order@[before.len() as int] == id);
                } else if before.contains(f) {
                    let i = choose|i: int| 0 <= i < before.len() && before[i] == f;
                    assert(self.func_order@[i] == f);
                }
            }
        }
        id
    }

    /// Declares a global and returns its key.
    pub fn build_global(&mut self, global: Global) -> (id: GlobalId)
        requires
            old(self).wf(),
            old(self).globals().dom().len() < ARENA_LIMIT,
        ensures
            final(self).wf(),
            !old(self).globals().contains_key(id),
            final(self).globals() == old(self).globals().insert(id, global),
            final(self).global_order@ == old(self).global_order@.push(id),
            final(self).funcs() == old(self).funcs(),
            final(self).func_order == old(self).func_order,
    {
        let id = global_arena_insert(&mut self.global_arena, global);
        self.global_order.push(id);
        proof {
            let before = old(self).global_order@;
            assert(!before.contains(id));
            assert forall|g: GlobalId|
                self.globals().contains_key(g) <==> self.global_order@.contains(g) by {
                if g == id {
                    assert(self.global_order@[before.len() as int] == id);
                } else if before.contains(g) {
                    let i = choose|i: int| 0 <= i < before.len() && before[i] == g;
                    assert(self.global_order@[i] == g);
                }
            }
        }
        id
    }

    /// The function that a key names, if it names one.
    pub fn get_func(&self, id: FuncId) -> (r: Option<&Func>)
        ensures
            r == if self.funcs().contains_key(id) {
                Some(&self.funcs()[id])
            } else {
                None
            },
    {
        func_arena_get(&self.func_arena, id)
    }

    /// The function that a key names, for the caller to change in place. The
    /// module ends up holding, under that key, what the caller leaves there.
    pub fn get_func_mut(&mut self, id: FuncId) -> (r: Option<&mut Func>)
        ensures
            match r {
                Some(f) => old(self).funcs().contains_key(id) && *f == old(self).funcs()[id]
                    && final(self).funcs() == old(self).funcs().insert(id, *final(f)),
                None => !old(self).funcs().contains_key(id) && final(self).funcs() == old(
                    self,
                ).funcs(),
            },
            final(self).globals() == old(self).globals(),
            final(self).func_order == old(self).func_order,
            final(self).global_order == old(self).global_order,
    {
        func_arena_get_mut(&mut self.func_arena, id)
    }

    /// The global that a key names, if it names one.
    pub fn get_global(&self, id: GlobalId) -> (r: Option<&Global>)
        ensures
            r == if self.globals().contains_key(id) {
                Some(&self.globals()[id])
            } else {
                None
            },
    {
        global_arena_get(&self.global_arena, id)
    }
}

} // verus!
