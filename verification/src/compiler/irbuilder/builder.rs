//! Lowering of the syntax tree into the IR, one case per kind of node.

use crate::compiler::ir::arena::{BBId, FuncId, GlobalId, InstId, ParamId, ARENA_LIMIT};
use crate::compiler::ir::value::constant::Constant;
use crate::compiler::ir::value::func::Func;
use crate::compiler::ir::value::global::Global;
use crate::compiler::ir::value::inst::{Inst, InstKind};
use crate::compiler::ir::value::module::Module;
use crate::compiler::ir::value::ty::{shapes_of, FuncTy, IrTy, TyShape, BOOL_BITS};
use crate::compiler::ir::value::value::Operand;
use crate::compiler::irbuilder::code::{
    arm_ends, arm_runs, assign_runs, block_ends, decl_runs, denote_all, denotes, here,
    body_ends, func_runs, if_runs, jump_runs, lemma_at_kept, lemma_extends_twice,
    lemma_runs_list_kept, lemma_runs_list_skipped, list_steps, return_runs, runs, runs_list, seen,
    stands, while_runs, with_params, Place, Scopes,
};
use crate::compiler::irbuilder::context::{
    insert_fails, inserted, lemma_lookup_found, lookup, pushed, BCTarget, Context, NameId,
};
use crate::compiler::irbuilder::err::{Error, ErrorShape};
use crate::compiler::irbuilder::rules::{
    all_fall_through, args_cost, args_err, declared_arity, env_of, expr_cost, expr_err,
    falls_through, first_of, lemma_args_cost_grows, lemma_stmt_costs_grow, stmt_blocks,
    stmt_insts, stmts_blocks, stmts_insts,
    value_cost,
    func_res, global_res, item_res, items_res, lemma_env_stable, lemma_env_steps,
    lemma_lookup_env, params_res, stmt_res, stmts_res, target_err, Binding, Env,
};
use crate::compiler::syntax::ast::{
    all_checked, AstTy, Expr, FuncDecl, GlobalDecl, Item, ParamDecl, Program, Stmt,
};
use vstd::prelude::*;

verus! {

impl Context {
    /// The state in which code can be appended: the module is well formed,
    /// the cursor is at a block of a function, a scope is open, every
    /// function has a function type, every function that a scope names is in
    /// the module, and no block of the current function holds a terminator
    /// before its end.
    pub open spec fn steady(&self) -> bool {
        &&& self.wf()
        &&& self.at_block()
        &&& self.scope_builder@.len() > 0
        &&& self.names_known()
        &&& (forall|f: FuncId|
            self.cur_module.funcs().contains_key(f) ==> (#[trigger] self.cur_module.funcs()[f]).ty is Func)
        &&& (forall|bb: BBId| self.cur().blocks().contains_key(bb) ==> self.cur().tidy(bb))
    }

    /// Every function that a scope names is in the module.
    pub open spec fn names_known(&self) -> bool {
        forall|i: int, name: Seq<char>|
            0 <= i < self.scope_builder@.len() && self.scope_builder@[i].contains_key(name)
                ==> match #[trigger] self.scope_builder@[i][name] {
                NameId::Func(f) => self.cur_module.funcs().contains_key(f),
                _ => true,
            }
    }

    /// What the names in scope stand for.
    pub open spec fn env(&self) -> Env {
        env_of(self.scope_builder@, self.cur_module.funcs())
    }

    /// Where the cursor stands: behind the last instruction of the current
    /// block, with the scopes that are open.
    pub open spec fn place(&self) -> Place {
        Place {
            bb: self.cur_bb,
            at: self.cur().code(self.cur_bb).len() as int,
            scopes: self.scope_builder@,
        }
    }

    /// The current block does not end in a terminator yet.
    pub open spec fn open(&self) -> bool {
        !self.cur().terminated(self.cur_bb)
    }

    /// The current function can hold no more instructions, or no more
    /// blocks.
    pub open spec fn out_of_room(&self) -> bool {
        self.in_func() && (self.cur().insts().dom().len() >= ARENA_LIMIT
            || self.cur().blocks().dom().len() >= ARENA_LIMIT)
    }

    /// The cursor is in the function that it was in, which has gained at
    /// most so many instructions and so many blocks; the module has the
    /// functions and the globals that it had.
    pub open spec fn within(&self, pre: &Context, insts: nat, blocks: nat) -> bool {
        &&& self.cur_func == pre.cur_func
        &&& self.in_func()
        &&& self.cur_module.funcs().dom() == pre.cur_module.funcs().dom()
        &&& self.cur_module.globals() == pre.cur_module.globals()
        &&& self.cur().insts().dom().len() <= pre.cur().insts().dom().len() + insts
        &&& self.cur().blocks().dom().len() <= pre.cur().blocks().dom().len() + blocks
    }

    /// The current function has room for so many instructions and so many
    /// blocks more.
    pub open spec fn has_room(&self, insts: nat, blocks: nat) -> bool {
        &&& self.cur().insts().dom().len() + insts < ARENA_LIMIT
        &&& self.cur().blocks().dom().len() + blocks < ARENA_LIMIT
    }

    /// The module has gained at most so many functions and so many globals.
    pub open spec fn counted(&self, pre: &Context, funcs: nat, globals: nat) -> bool {
        &&& self.cur_module.funcs().dom().len() <= pre.cur_module.funcs().dom().len() + funcs
        &&& self.cur_module.globals().dom().len() <= pre.cur_module.globals().dom().len()
            + globals
    }

    /// An arena that the build appends to holds as much as it can.
    pub open spec fn exhausted(&self) -> bool {
        ||| self.cur_module.funcs().dom().len() >= ARENA_LIMIT
        ||| self.cur_module.globals().dom().len() >= ARENA_LIMIT
        ||| self.out_of_room()
    }

    /// The current block is the block that was current in `pre`, with one
    /// more instruction at its end, of a kind and a type that `is` accepts.
    pub open spec fn appended(&self, pre: &Context, inst: InstId, is: spec_fn(Inst) -> bool) -> bool {
        &&& !pre.cur().insts().contains_key(inst)
        &&& self.cur().insts().contains_key(inst)
        &&& self.cur().code(pre.cur_bb) == pre.cur().code(pre.cur_bb).push(inst)
        &&& is(self.cur().insts()[inst])
    }

    /// What lowering an expression yields: a literal is its constant, and a
    /// parameter is itself, without any instruction; a variable that has a
    /// place is the load from that place, and an operation or a call is its
    /// instruction, which is the last of the current block and has the type
    /// of the expression.
    pub open spec fn yields(&self, pre: &Context, e: &Expr, op: Operand) -> bool {
        match e {
            Expr::Literal(lit) => op matches Operand::Const(c) && c@ == lit.const_shape()
                && self.cur().code(pre.cur_bb) == pre.cur().code(pre.cur_bb),
            Expr::Var { name, ty } => match lookup(pre.scope_builder@, name@) {
                Some(NameId::Param(p)) => op == Operand::Param(p) && self.cur().code(pre.cur_bb)
                    == pre.cur().code(pre.cur_bb),
                Some(NameId::Inst(slot)) => op matches Operand::Inst(i) && self.appended(
                    pre,
                    i,
                    |made: Inst|
                        made.kind == (InstKind::Load { addr: Operand::Inst(slot) }) && made.ty@
                            == ty.ir_shape(),
                ),
                Some(NameId::Global(g)) => op matches Operand::Inst(i) && self.appended(
                    pre,
                    i,
                    |made: Inst|
                        made.kind == (InstKind::Load { addr: Operand::Global(g) }) && made.ty@
                            == ty.ir_shape(),
                ),
                _ => false,
            },
            Expr::Unary { op: o, ty, .. } => op matches Operand::Inst(i) && self.cur().insts().contains_key(
                i,
            ) && self.cur().code(pre.cur_bb).len() > 0 && self.cur().code(pre.cur_bb).last() == i
                && (self.cur().insts()[i].kind matches InstKind::Unary { op: made, .. } && made
                == o) && self.cur().insts()[i].ty@ == ty.ir_shape(),
            Expr::Binary { op: o, ty, .. } => op matches Operand::Inst(i) && self.cur().insts().contains_key(
                i,
            ) && self.cur().code(pre.cur_bb).len() > 0 && self.cur().code(pre.cur_bb).last() == i
                && (self.cur().insts()[i].kind matches InstKind::Binary { op: made, .. } && made
                == o) && self.cur().insts()[i].ty@ == ty.ir_shape(),
            Expr::Call { callee, args, ty } => op matches Operand::Inst(i) && self.cur().insts().contains_key(
                i,
            ) && self.cur().code(pre.cur_bb).len() > 0 && self.cur().code(pre.cur_bb).last() == i
                && (self.cur().insts()[i].kind matches InstKind::Call { func, args: passed }
                && lookup(pre.scope_builder@, callee@) == Some(NameId::Func(func)) && passed@.len()
                == args@.len()) && self.cur().insts()[i].ty@ == ty.ir_shape(),
        }
    }

    /// A block of the current function has a last instruction, which `is`
    /// accepts.
    pub open spec fn ends_with(&self, bb: BBId, is: spec_fn(Inst) -> bool) -> bool {
        &&& self.cur().code(bb).len() > 0
        &&& self.cur().insts().contains_key(self.cur().code(bb).last())
        &&& is(self.cur().insts()[self.cur().code(bb).last()])
    }

    /// What lowering a statement leaves at the place where it began.
    ///
    /// A declaration binds its name to a new instruction that reserves
    /// storage for the declared type, and where it has an initial value the
    /// block ends in the store of that value into the storage. An assignment
    /// ends the block with a store into the place that the name is bound to.
    /// `return` ends it with a return, with a value exactly if it was given
    /// one; `break` and `continue` end it with a jump to the exit and to the
    /// condition of the innermost open loop.
    ///
    /// Behind an `if` the cursor is at a new, empty block, and the block
    /// that was current ends in a branch to two new blocks, the second of
    /// which is the block under the cursor exactly if there is no second arm.
    /// Behind a `while` the cursor is at a new, empty block, and the block
    /// that was current ends in a jump to a new block, which ends in a branch
    /// to another new block and to the block under the cursor.
    pub open spec fn did(&self, pre: &Context, s: &Stmt) -> bool {
        match s {
            Stmt::Decl { name, ty, init } => self.declared(pre, name@, ty, init),
            Stmt::Assign { name, value } => self.assigned(pre, name@, value),
            Stmt::Expr(e) => exists|op: Operand|
                self.yields(pre, e, op) && denotes(self.cur().insts(), pre.scope_builder@, op, e),
            Stmt::Block(_) => runs(self.cur(), pre.loop_targets@, s, pre.place(), self.place()),
            Stmt::If { cond, else_arm, .. } => !pre.cur().blocks().contains_key(self.cur_bb)
                && self.cur().code(self.cur_bb).len() == 0 && self.ends_with(
                pre.cur_bb,
                |made: Inst|
                    made.kind matches InstKind::Branch { cond: c, then_bb, else_bb }
                        && denotes(self.cur().insts(), pre.scope_builder@, c, cond) && self.is_new(
                        pre,
                        then_bb,
                    ) && self.is_new(pre, else_bb) && then_bb != self.cur_bb && then_bb != else_bb
                        && (else_arm is None <==> else_bb == self.cur_bb),
            ),
            Stmt::While { cond, .. } => !pre.cur().blocks().contains_key(self.cur_bb) && self.cur().code(
                self.cur_bb,
            ).len() == 0 && self.ends_with(
                pre.cur_bb,
                |made: Inst|
                    made.kind matches InstKind::Jump { target } && self.is_new(pre, target)
                        && target != self.cur_bb && self.ends_with(
                        target,
                        |branch: Inst|
                            branch.kind matches InstKind::Branch { cond: c, then_bb, else_bb }
                                && denotes(self.cur().insts(), pre.scope_builder@, c, cond)
                                && self.is_new(pre, then_bb) && then_bb != target && then_bb
                                != self.cur_bb && else_bb == self.cur_bb,
                    ),
            ),
            Stmt::Break => pre.loop_targets@.len() > 0 ==> self.ends_with(
                pre.cur_bb,
                |made: Inst|
                    made.kind == (InstKind::Jump {
                        target: pre.loop_targets@.last().break_target,
                    }),
            ),
            Stmt::Continue => pre.loop_targets@.len() > 0 ==> self.ends_with(
                pre.cur_bb,
                |made: Inst|
                    made.kind == (InstKind::Jump {
                        target: pre.loop_targets@.last().continue_target,
                    }),
            ),
            Stmt::Return(value) => self.returned(pre, value),
        }
    }

    /// What lowering a declaration leaves behind: the name is bound to a new
    /// instruction that reserves storage for the declared type, and where
    /// there is an initial value the block ends in the store, into the
    /// storage, of an operand that stands for that value.
    pub open spec fn declared(
        &self,
        pre: &Context,
        name: Seq<char>,
        ty: &AstTy,
        init: &Option<Expr>,
    ) -> bool {
        match lookup(self.scope_builder@, name) {
            Some(NameId::Inst(slot)) => {
                &&& !pre.cur().insts().contains_key(slot)
                &&& self.cur().insts().contains_key(slot)
                &&& self.cur().insts()[slot].kind is Alloca
                &&& self.cur().insts()[slot].ty@ == TyShape::Ptr(Box::new(ty.ir_shape()))
                &&& match init {
                    Some(e) => self.ends_with(
                        pre.cur_bb,
                        |made: Inst|
                            match made.kind {
                                InstKind::Store { addr, value } => addr == Operand::Inst(slot)
                                    && denotes(self.cur().insts(), pre.scope_builder@, value, e),
                                _ => false,
                            },
                    ),
                    None => self.cur().code(pre.cur_bb) == pre.cur().code(pre.cur_bb).push(slot),
                }
            },
            _ => false,
        }
    }

    /// What lowering an assignment leaves behind: the block ends in a store,
    /// into the place that the name was bound to, of an operand that stands
    /// for the value.
    pub open spec fn assigned(&self, pre: &Context, name: Seq<char>, value: &Expr) -> bool {
        self.ends_with(
            pre.cur_bb,
            |made: Inst|
                match made.kind {
                    InstKind::Store { addr, value: v } => denotes(
                        self.cur().insts(),
                        pre.scope_builder@,
                        v,
                        value,
                    ) && match lookup(pre.scope_builder@, name) {
                        Some(NameId::Inst(slot)) => addr == Operand::Inst(slot),
                        Some(NameId::Global(g)) => addr == Operand::Global(g),
                        _ => false,
                    },
                    _ => false,
                },
        )
    }

    /// What lowering `return` leaves behind: the block ends in a return of
    /// an operand that stands for the value, or of nothing where no value was
    /// given.
    pub open spec fn returned(&self, pre: &Context, value: &Option<Expr>) -> bool {
        self.ends_with(
            pre.cur_bb,
            |made: Inst|
                match made.kind {
                    InstKind::Ret { returned } => match value {
                        Some(e) => returned is Some && denotes(
                            self.cur().insts(),
                            pre.scope_builder@,
                            returned->0,
                            e,
                        ),
                        None => returned is None,
                    },
                    _ => false,
                },
        )
    }

    /// A block of the current function that `pre` did not have.
    pub open spec fn is_new(&self, pre: &Context, bb: BBId) -> bool {
        self.cur().blocks().contains_key(bb) && !pre.cur().blocks().contains_key(bb)
    }

    /// What lowering a statement, or a list of statements, owes. `want` is
    /// what the rules say of it and `falls` whether control goes on behind
    /// it. On success the names in scope are those that the rules give, the
    /// state is steady and has grown from `pre`, the scopes below the
    /// innermost are untouched, and the current block is open exactly if
    /// control goes on. A failure is the error that the rules give, or has
    /// no specific cause where the current function is out of room. The
    /// function gains at most `insts` instructions and `blocks` blocks, and
    /// where it has room for as many and the rules give no error, success is
    /// owed.
    pub open spec fn lowered(
        &self,
        pre: &Context,
        r: Result<(), Error>,
        want: Result<Env, ErrorShape>,
        falls: bool,
        insts: nat,
        blocks: nat,
    ) -> bool {
        &&& self.within(pre, insts, blocks)
        &&& want is Ok && pre.has_room(insts, blocks) ==> r is Ok
        &&& match r {
            Ok(_) => {
                &&& want == Ok::<Env, ErrorShape>(self.env())
                &&& self.steady()
                &&& self.grown(pre)
                &&& self.scope_builder@.len() == pre.scope_builder@.len()
                &&& self.scope_builder@.drop_last() == pre.scope_builder@.drop_last()
                &&& self.open() == falls
            },
            Err(err) => want == Err::<Env, ErrorShape>(err@) || (err@ == ErrorShape::NoCause
                && self.out_of_room()),
        }
    }

    /// The frame of every piece of lowering: the cursor stays in its
    /// function; the module keeps its globals and its functions, each with
    /// its type, and every function but the current one as it was; the
    /// current function keeps its blocks.
    pub open spec fn framed(&self, pre: &Context) -> bool {
        &&& self.cur_func == pre.cur_func
        &&& self.cur_module.funcs().dom() == pre.cur_module.funcs().dom()
        &&& self.cur_module.globals() == pre.cur_module.globals()
        &&& self.cur_module.func_order == pre.cur_module.func_order
        &&& self.cur_module.global_order == pre.cur_module.global_order
        &&& (forall|f: FuncId|
            pre.cur_module.funcs().contains_key(f) ==> (#[trigger] self.cur_module.funcs()[f]).ty
                == pre.cur_module.funcs()[f].ty)
        &&& (forall|f: FuncId|
            pre.cur_module.funcs().contains_key(f) && f != pre.cur_func ==> (
            #[trigger] self.cur_module.funcs()[f]) == pre.cur_module.funcs()[f])
        &&& self.cur().name == pre.cur().name
        &&& self.cur().is_builtin == pre.cur().is_builtin
        &&& self.cur().first_block == pre.cur().first_block
        &&& pre.cur().blocks().dom().subset_of(self.cur().blocks().dom())
    }

    /// No instruction of the current function is removed or changed, and
    /// every block that was not under the cursor is as it was.
    pub open spec fn keeps_code(&self, pre: &Context) -> bool {
        &&& (forall|i: InstId|
            #![trigger pre.cur().insts().contains_key(i)]
            #![trigger self.cur().insts()[i]]
            pre.cur().insts().contains_key(i) ==> self.cur().insts().contains_key(i)
                && self.cur().insts()[i] == pre.cur().insts()[i])
        &&& (forall|bb: BBId|
            #![trigger pre.cur().blocks().contains_key(bb)]
            #![trigger self.cur().blocks()[bb]]
            pre.cur().blocks().contains_key(bb) && bb != pre.cur_bb ==> self.cur().blocks()[bb]
                == pre.cur().blocks()[bb])
    }

    /// The state between two top-level declarations: the module is well
    /// formed, a scope is open and no loop is, every function has a function
    /// type, every function that a scope names is in the module, and every
    /// block of every function is sealed.
    pub open spec fn settled(&self) -> bool {
        &&& self.wf()
        &&& self.scope_builder@.len() > 0
        &&& self.loop_targets@.len() == 0
        &&& self.names_known()
        &&& (forall|f: FuncId|
            self.cur_module.funcs().contains_key(f) ==> (#[trigger] self.cur_module.funcs()[f]).ty is Func)
        &&& self.all_sealed()
    }

    /// Every block of every function ends in a terminator and holds no
    /// other.
    pub open spec fn all_sealed(&self) -> bool {
        forall|f: FuncId, bb: BBId|
            self.cur_module.funcs().contains_key(f) && (#[trigger] self.cur_module.funcs()[f].blocks().contains_key(
                bb,
            )) ==> self.cur_module.funcs()[f].sealed(bb)
    }

    /// How the state after a piece of lowering relates to the state `pre`
    /// before it. The frame holds and the loops that are open stay the same;
    /// no instruction is removed or changed; a block that was not under the
    /// cursor is as it was, and the block that was under the cursor has only
    /// gained instructions at its end; the cursor stays at its block or ends
    /// at one that did not exist; a block that is open afterwards is the one
    /// under the cursor, or was open before without being under the cursor;
    /// and a block that was open before without being under the cursor is
    /// still open.
    pub open spec fn grown(&self, pre: &Context) -> bool {
        &&& self.framed(pre)
        &&& self.loop_targets@ == pre.loop_targets@
        &&& self.cur().params == pre.cur().params
        &&& self.keeps_code(pre)
        &&& pre.cur().code(pre.cur_bb).is_prefix_of(self.cur().code(pre.cur_bb))
        &&& (self.cur_bb == pre.cur_bb || !pre.cur().blocks().contains_key(self.cur_bb))
        &&& self.cur().open_blocks().subset_of(
            pre.cur().open_blocks().remove(pre.cur_bb).insert(self.cur_bb),
        )
        &&& pre.cur().open_blocks().remove(pre.cur_bb).subset_of(self.cur().open_blocks())
    }
}

/// One frame within another is a frame.
pub proof fn lemma_framed_twice(a: &Context, b: &Context, c: &Context)
    requires
        b.framed(a),
        c.framed(b),
    ensures
        c.framed(a),
{
    assert forall|f: FuncId| a.cur_module.funcs().contains_key(f) implies (
    #[trigger] c.cur_module.funcs()[f]).ty == a.cur_module.funcs()[f].ty by {
        assert(b.cur_module.funcs().dom().contains(f));
        assert(b.cur_module.funcs()[f].ty == a.cur_module.funcs()[f].ty);
    }
    assert forall|bb: BBId| a.cur().blocks().dom().contains(bb) implies c.cur().blocks().dom().contains(
        bb,
    ) by {
        assert(b.cur().blocks().dom().contains(bb));
    }
    assert forall|f: FuncId|
        a.cur_module.funcs().contains_key(f) && f != a.cur_func implies (
        #[trigger] c.cur_module.funcs()[f]) == a.cur_module.funcs()[f] by {
        assert(b.cur_module.funcs().dom().contains(f));
        assert(b.cur_module.funcs()[f] == a.cur_module.funcs()[f]);
    }
}

/// Lowering twice in a row is lowering once.
pub proof fn lemma_grown_twice(a: &Context, b: &Context, c: &Context)
    requires
        b.grown(a),
        c.grown(b),
        a.at_block(),
        b.at_block(),
    ensures
        c.grown(a),
{
    lemma_framed_twice(a, b, c);
    assert forall|bb: BBId| c.cur().open_blocks().contains(bb) implies a.cur().open_blocks().remove(
        a.cur_bb,
    ).insert(c.cur_bb).contains(bb) by {
        if bb != c.cur_bb {
            assert(b.cur().open_blocks().remove(b.cur_bb).insert(c.cur_bb).contains(bb));
            assert(b.cur().open_blocks().contains(bb));
            assert(a.cur().open_blocks().remove(a.cur_bb).insert(b.cur_bb).contains(bb));
        }
    }
    assert forall|bb: BBId| a.cur().open_blocks().remove(a.cur_bb).contains(bb) implies c.cur().open_blocks().contains(
        bb,
    ) by {
        assert(b.cur().open_blocks().contains(bb));
        assert(a.cur().blocks().dom().contains(bb));
        assert(b.cur().open_blocks().remove(b.cur_bb).contains(bb));
    }
    if c.cur_bb != a.cur_bb && a.cur().blocks().contains_key(c.cur_bb) {
        assert(a.cur().blocks().dom().contains(c.cur_bb));
        assert(b.cur().blocks().dom().contains(c.cur_bb));
    }
    assert forall|i: InstId| a.cur().insts().contains_key(i) implies c.cur().insts().contains_key(
        i,
    ) && c.cur().insts()[i] == a.cur().insts()[i] by {
        assert(b.cur().insts().contains_key(i));
    }
    assert forall|bb: BBId|
        a.cur().blocks().contains_key(bb) && bb != a.cur_bb implies c.cur().blocks()[bb]
        == a.cur().blocks()[bb] by {
        assert(b.cur().blocks()[bb] == a.cur().blocks()[bb]);
        assert(a.cur().blocks().dom().contains(bb));
        assert(b.cur().blocks().dom().contains(bb));
    }
    let p = a.cur_bb;
    if b.cur_bb != p {
        assert(a.cur().blocks().dom().contains(p));
        assert(b.cur().blocks().dom().contains(p));
        assert(c.cur().blocks()[p] == b.cur().blocks()[p]);
    }
}

/// What has grown from a state has grown from every state with the same
/// module, cursor and open loops, and so has every state with the module,
/// cursor and open loops of what has grown.
pub proof fn lemma_grown_rebased(pre: &Context, post: &Context, pre2: &Context, post2: &Context)
    requires
        post.grown(pre),
        pre2.cur_module == pre.cur_module,
        pre2.cur_func == pre.cur_func,
        pre2.cur_bb == pre.cur_bb,
        pre2.loop_targets@ == pre.loop_targets@,
        post2.cur_module == post.cur_module,
        post2.cur_func == post.cur_func,
        post2.cur_bb == post.cur_bb,
        post2.loop_targets@ == post.loop_targets@,
    ensures
        post2.grown(pre2),
{
    assert forall|i: InstId| pre2.cur().insts().contains_key(i) implies post2.cur().insts().contains_key(
        i,
    ) && post2.cur().insts()[i] == pre2.cur().insts()[i] by {
        assert(pre.cur().insts().contains_key(i));
    }
    assert forall|bb: BBId|
        pre2.cur().blocks().contains_key(bb) && bb != pre2.cur_bb implies post2.cur().blocks()[bb]
        == pre2.cur().blocks()[bb] by {
        assert(pre.cur().blocks().contains_key(bb));
    }
    assert forall|f: FuncId| pre2.cur_module.funcs().contains_key(f) implies (
    #[trigger] post2.cur_module.funcs()[f]).ty == pre2.cur_module.funcs()[f].ty by {
        assert(post.cur_module.funcs()[f].ty == pre.cur_module.funcs()[f].ty);
    }
    assert forall|f: FuncId|
        pre2.cur_module.funcs().contains_key(f) && f != pre2.cur_func implies (
        #[trigger] post2.cur_module.funcs()[f]) == pre2.cur_module.funcs()[f] by {
        assert(post.cur_module.funcs()[f] == pre.cur_module.funcs()[f]);
    }
}

/// What has grown from a state whose current block was open extends it.
pub proof fn lemma_grown_extends(pre: &Context, post: &Context)
    requires
        post.grown(pre),
        pre.at_block(),
        pre.open(),
    ensures
        post.cur().extends(&pre.cur()),
{
    assert forall|bb: BBId| pre.cur().blocks().contains_key(bb) implies post.cur().blocks().contains_key(
        bb,
    ) && pre.cur().code(bb).is_prefix_of(post.cur().code(bb)) && (pre.cur().terminated(bb)
        ==> post.cur().code(bb) == pre.cur().code(bb)) by {
        assert(pre.cur().blocks().dom().contains(bb));
        if bb != pre.cur_bb {
            assert(post.cur().blocks()[bb] == pre.cur().blocks()[bb]);
            assert(pre.cur().code(bb) =~= post.cur().code(bb).subrange(
                0,
                pre.cur().code(bb).len() as int,
            ));
        }
    }
}

/// A state has grown from itself.
pub proof fn lemma_grown_self(a: &Context)
    requires
        a.at_block(),
    ensures
        a.grown(a),
{
    assert(a.cur().open_blocks().subset_of(
        a.cur().open_blocks().remove(a.cur_bb).insert(a.cur_bb),
    ));
}

/// While the functions keep their types, the names in scope stand for what
/// they stood for.
pub proof fn lemma_grown_env(pre: &Context, post: &Context, scopes: Seq<Map<Seq<char>, NameId>>)
    requires
        post.framed(pre),
        forall|i: int, name: Seq<char>|
            0 <= i < scopes.len() && scopes[i].contains_key(name) ==> match #[trigger] scopes[i][name] {
                NameId::Func(f) => pre.cur_module.funcs().contains_key(f),
                _ => true,
            },
    ensures
        env_of(scopes, post.cur_module.funcs()) == env_of(scopes, pre.cur_module.funcs()),
{
    lemma_env_stable(scopes, pre.cur_module.funcs(), post.cur_module.funcs());
}

/// An operand goes on standing for its expression while no instruction is
/// removed or changed.
pub proof fn lemma_denotes_kept(
    before: Map<InstId, Inst>,
    after: Map<InstId, Inst>,
    scopes: Seq<Map<Seq<char>, NameId>>,
    op: Operand,
    e: &Expr,
)
    requires
        forall|i: InstId|
            #![trigger before.contains_key(i)]
            before.contains_key(i) ==> after.contains_key(i) && after[i] == before[i],
        denotes(before, scopes, op, e),
    ensures
        denotes(after, scopes, op, e),
    decreases e, 0nat,
{
    match e {
        Expr::Literal(_) => {},
        Expr::Var { .. } => {
            if op is Inst {
                assert(before.contains_key(op->Inst_0));
            }
        },
        Expr::Unary { operand, .. } => {
            let i = op->Inst_0;
            assert(before.contains_key(i));
            match before[i].kind {
                InstKind::Unary { operand: x, .. } => {
                    lemma_denotes_kept(before, after, scopes, x, operand);
                },
                _ => {},
            }
        },
        Expr::Binary { lhs, rhs, .. } => {
            let i = op->Inst_0;
            assert(before.contains_key(i));
            match before[i].kind {
                InstKind::Binary { lhs: x, rhs: y, .. } => {
                    lemma_denotes_kept(before, after, scopes, x, lhs);
                    lemma_denotes_kept(before, after, scopes, y, rhs);
                },
                _ => {},
            }
        },
        Expr::Call { args, .. } => {
            let i = op->Inst_0;
            assert(before.contains_key(i));
            match before[i].kind {
                InstKind::Call { args: passed, .. } => {
                    lemma_denote_all_kept(before, after, scopes, passed@, args, args@.len());
                },
                _ => {},
            }
        },
    }
}

/// Operands go on standing for their expressions while no instruction is
/// removed or changed.
pub proof fn lemma_denote_all_kept(
    before: Map<InstId, Inst>,
    after: Map<InstId, Inst>,
    scopes: Seq<Map<Seq<char>, NameId>>,
    ops: Seq<Operand>,
    args: &Vec<Expr>,
    n: nat,
)
    requires
        forall|i: InstId|
            #![trigger before.contains_key(i)]
            before.contains_key(i) ==> after.contains_key(i) && after[i] == before[i],
        denote_all(before, scopes, ops, args, n),
    ensures
        denote_all(after, scopes, ops, args, n),
    decreases args, n,
{
    if n == 0 || n > args@.len() || n > ops.len() {
    } else {
        lemma_denote_all_kept(before, after, scopes, ops, args, (n - 1) as nat);
        lemma_denotes_kept(before, after, scopes, ops[n - 1], &args@[n - 1]);
    }
}

/// The first operands of a list stand for what they stood for when the list
/// is made longer.
pub proof fn lemma_denote_all_pushed(
    insts: Map<InstId, Inst>,
    scopes: Seq<Map<Seq<char>, NameId>>,
    ops: Seq<Operand>,
    more: Operand,
    args: &Vec<Expr>,
    n: nat,
)
    requires
        n <= ops.len(),
        denote_all(insts, scopes, ops, args, n),
    ensures
        denote_all(insts, scopes, ops.push(more), args, n),
    decreases n,
{
    if n == 0 || n > args@.len() {
    } else {
        lemma_denote_all_pushed(insts, scopes, ops, more, args, (n - 1) as nat);
        assert(ops.push(more)[n - 1] == ops[n - 1]);
    }
}

/// Walks a checked syntax tree and builds the module that it describes.
pub struct IrBuilder {
    pub ctx: Context,
}

impl IrBuilder {
    /// A builder with an empty module.
    pub fn new() -> (r: IrBuilder)
        ensures
            r.ctx.wf(),
            r.ctx.scope_builder@.len() == 0,
            r.ctx.cur_module.funcs() == Map::<FuncId, Func>::empty(),
            r.ctx.cur_module.globals() == Map::<GlobalId, Global>::empty(),
            r.ctx.cur_module.func_order@.len() == 0,
            r.ctx.cur_module.global_order@.len() == 0,
            r.ctx.loop_targets@.len() == 0,
            !r.ctx.in_func(),
    {
        IrBuilder { ctx: Context::new() }
    }

    /// Appends an instruction to the current block, which must be open. Fails
    /// without a specific cause, and changes nothing, when the function can
    /// hold no more instructions.
    pub fn emit(&mut self, kind: InstKind, ty: IrTy) -> (r: Result<InstId, Error>)
        requires
            old(self).ctx.steady(),
            old(self).ctx.open(),
        ensures
            match r {
                Ok(inst) => {
                    &&& final(self).ctx.steady()
                    &&& final(self).ctx.same_but_cur(&old(self).ctx)
                    &&& final(self).ctx.cur().with_new_inst(
                        &old(self).ctx.cur(),
                        old(self).ctx.cur_bb,
                        inst,
                        (Inst { kind, ty }),
                    )
                    &&& final(self).ctx.grown(&old(self).ctx)
                    &&& kind.terminates() ==> final(self).ctx.cur().sealed(old(self).ctx.cur_bb)
                    &&& final(self).ctx.cur().open_blocks() == if kind.terminates() {
                        old(self).ctx.cur().open_blocks().remove(old(self).ctx.cur_bb)
                    } else {
                        old(self).ctx.cur().open_blocks()
                    }
                },
                Err(e) => e@ == ErrorShape::NoCause && final(self).ctx.out_of_room() && *final(self)
                    == *old(self),
            },
            r is Ok <==> old(self).ctx.cur().insts().dom().len() < ARENA_LIMIT,
            final(self).ctx.within(&old(self).ctx, 1, 0),
    {
        let room = match self.ctx.cur_module.get_func(self.ctx.cur_func) {
            Some(f) => f.has_room_for_inst(),
            None => false,
        };
        if !room {
            return Err(Error::NoCause);
        }
        let inst = self.ctx.build_inst_end_of_cur(kind, ty);
        proof {
            let pre = old(self).ctx.cur();
            let post = self.ctx.cur();
            let at = old(self).ctx.cur_bb;
            assert forall|bb: BBId| pre.blocks().contains_key(bb) && bb != at implies (post.terminated(
                bb,
            ) == pre.terminated(bb) && post.tidy(bb)) by {
                assert(post.blocks()[bb] == pre.blocks()[bb]);
                assert(pre.tidy(bb));
                assert forall|i: int| 0 <= i < post.code(bb).len() implies post.insts()[post.code(
                    bb,
                )[i]] == pre.insts()[pre.code(bb)[i]] by {
                    assert(pre.insts().contains_key(pre.code(bb)[i]));
                }
            }
            assert(post.tidy(at)) by {
                assert(pre.tidy(at));
                assert forall|i: int| 0 <= i < post.code(at).len() - 1 implies !(
                #[trigger] post.insts()[post.code(at)[i]]).kind.terminates() by {
                    assert(pre.insts().contains_key(pre.code(at)[i]));
                    assert(post.code(at)[i] == pre.code(at)[i]);
                    if i == pre.code(at).len() - 1 {
                        assert(pre.code(at).last() == pre.code(at)[i]);
                    }
                }
            }
            assert(post.terminated(at) == kind.terminates()) by {
                assert(post.code(at).last() == inst);
            }
            assert(post.open_blocks() =~= if kind.terminates() {
                pre.open_blocks().remove(at)
            } else {
                pre.open_blocks()
            });
            assert(self.ctx.cur_module.funcs().dom() =~= old(self).ctx.cur_module.funcs().dom());
            assert forall|i: int, name: Seq<char>|
                0 <= i < self.ctx.scope_builder@.len() && self.ctx.scope_builder@[i].contains_key(
                    name,
                ) implies match #[trigger] self.ctx.scope_builder@[i][name] {
                NameId::Func(f) => self.ctx.cur_module.funcs().contains_key(f),
                _ => true,
            } by {
                assert(old(self).ctx.scope_builder@[i].contains_key(name));
            }
        }
        Ok(inst)
    }

    /// Creates an empty block right behind the current one, without moving
    /// the cursor. Fails without a specific cause, and changes nothing, when
    /// the function can hold no more blocks.
    pub fn new_block(&mut self) -> (r: Result<BBId, Error>)
        requires
            old(self).ctx.steady(),
        ensures
            match r {
                Ok(bb) => {
                    &&& final(self).ctx.steady()
                    &&& final(self).ctx.same_but_cur(&old(self).ctx)
                    &&& final(self).ctx.cur().with_new_block(&old(self).ctx.cur(), bb)
                    &&& final(self).ctx.cur().layout@ == old(self).ctx.cur().layout@.insert(
                        old(self).ctx.cur().layout@.index_of(old(self).ctx.cur_bb) + 1,
                        bb,
                    )
                    &&& final(self).ctx.cur().first_block == old(self).ctx.cur().first_block
                    &&& final(self).ctx.framed(&old(self).ctx)
                    &&& final(self).ctx.cur().extends(&old(self).ctx.cur())
                    &&& !final(self).ctx.cur().terminated(bb)
                    &&& final(self).ctx.cur().open_blocks() == old(
                        self,
                    ).ctx.cur().open_blocks().insert(bb)
                },
                Err(e) => e@ == ErrorShape::NoCause && final(self).ctx.out_of_room() && *final(self)
                    == *old(self),
            },
            r is Ok <==> old(self).ctx.cur().blocks().dom().len() < ARENA_LIMIT,
            final(self).ctx.within(&old(self).ctx, 0, 1),
    {
        let room = match self.ctx.cur_module.get_func(self.ctx.cur_func) {
            Some(f) => f.has_room_for_block(),
            None => false,
        };
        if !room {
            return Err(Error::NoCause);
        }
        let bb = self.ctx.build_bb_after_cur();
        proof {
            let pre = old(self).ctx.cur();
            let post = self.ctx.cur();
            assert forall|b: BBId| pre.blocks().contains_key(b) implies (post.terminated(b)
                == pre.terminated(b) && post.tidy(b)) by {
                assert(post.blocks()[b] == pre.blocks()[b]);
                assert(pre.tidy(b));
            }
            assert(post.open_blocks() =~= pre.open_blocks().insert(bb));
            assert forall|b: BBId| pre.blocks().contains_key(b) implies pre.code(b).is_prefix_of(
                post.code(b),
            ) by {
                assert(pre.code(b) =~= post.code(b).subrange(0, pre.code(b).len() as int));
            }
            assert(self.ctx.cur_module.funcs().dom() =~= old(self).ctx.cur_module.funcs().dom());
            assert forall|i: int, name: Seq<char>|
                0 <= i < self.ctx.scope_builder@.len() && self.ctx.scope_builder@[i].contains_key(
                    name,
                ) implies match #[trigger] self.ctx.scope_builder@[i][name] {
                NameId::Func(f) => self.ctx.cur_module.funcs().contains_key(f),
                _ => true,
            } by {
                assert(old(self).ctx.scope_builder@[i].contains_key(name));
            }
        }
        Ok(bb)
    }

    /// Lowers an expression into the current block and yields the operand
    /// that stands for its value. A literal becomes a constant; a local
    /// variable or a global is loaded; a parameter is used as it is; an
    /// operation or a call becomes one instruction behind those of its
    /// operands, which are lowered from left to right.
    pub fn lower_expr(&mut self, e: &Expr) -> (r: Result<Operand, Error>)
        requires
            old(self).ctx.steady(),
            old(self).ctx.open(),
            e.checked(),
        ensures
            match r {
                Ok(op) => {
                    &&& expr_err(old(self).ctx.env(), e) is None
                    &&& final(self).ctx.yields(&old(self).ctx, e, op)
                    &&& denotes(final(self).ctx.cur().insts(), old(self).ctx.scope_builder@, op, e)
                    &&& final(self).ctx.steady()
                    &&& final(self).ctx.open()
                    &&& final(self).ctx.grown(&old(self).ctx)
                    &&& final(self).ctx.cur_bb == old(self).ctx.cur_bb
                    &&& final(self).ctx.scope_builder@ == old(self).ctx.scope_builder@
                    &&& final(self).ctx.cur().open_blocks() == old(self).ctx.cur().open_blocks()
                },
                Err(err) => expr_err(old(self).ctx.env(), e) == Some(err@) || (err@
                    == ErrorShape::NoCause && final(self).ctx.out_of_room()),
            },
            final(self).ctx.within(&old(self).ctx, expr_cost(e), 0),
            expr_err(old(self).ctx.env(), e) is None && old(self).ctx.has_room(expr_cost(e), 0)
                ==> r is Ok,
        decreases e, 0nat,
    {
        let ghost env = self.ctx.env();
        match e {
            Expr::Literal(lit) => {
                proof {
                    assert(self.ctx.cur().open_blocks() =~= old(self).ctx.cur().open_blocks());
                }
                Ok(Operand::Const(Constant::of_literal(lit)))
            },
            Expr::Var { name, ty } => {
                proof {
                    lemma_lookup_env(self.ctx.scope_builder@, self.ctx.cur_module.funcs(), name@);
                }
                let found = match self.ctx.scope_builder.find_name_rec(name.as_str()) {
                    Some(id) => Some(*id),
                    None => None,
                };
                match found {
                    None => Err(Error::UnknownName(name.clone())),
                    Some(NameId::Func(_)) => Err(Error::NoCause),
                    Some(NameId::Param(p)) => Ok(Operand::Param(p)),
                    Some(NameId::Inst(slot)) => {
                        match self.emit(InstKind::Load { addr: Operand::Inst(slot) }, IrTy::of_ast(ty)) {
                            Ok(inst) => Ok(Operand::Inst(inst)),
                            Err(err) => Err(err),
                        }
                    },
                    Some(NameId::Global(g)) => {
                        match self.emit(InstKind::Load { addr: Operand::Global(g) }, IrTy::of_ast(ty)) {
                            Ok(inst) => Ok(Operand::Inst(inst)),
                            Err(err) => Err(err),
                        }
                    },
                }
            },
            Expr::Unary { op, operand, ty } => {
                let value = match self.lower_expr(operand) {
                    Ok(v) => v,
                    Err(err) => {
                        return Err(err);
                    },
                };
                let ghost mid = self.ctx;
                match self.emit(InstKind::Unary { op: *op, operand: value }, IrTy::of_ast(ty)) {
                    Ok(inst) => {
                        proof {
                            lemma_grown_twice(&old(self).ctx, &mid, &self.ctx);
                            lemma_denotes_kept(
                                mid.cur().insts(),
                                self.ctx.cur().insts(),
                                old(self).ctx.scope_builder@,
                                value,
                                operand,
                            );
                        }
                        Ok(Operand::Inst(inst))
                    },
                    Err(err) => Err(err),
                }
            },
            Expr::Binary { op, lhs, rhs, ty } => {
                let left = match self.lower_expr(lhs) {
                    Ok(v) => v,
                    Err(err) => {
                        return Err(err);
                    },
                };
                let ghost mid = self.ctx;
                proof {
                    lemma_grown_env(&old(self).ctx, &mid, mid.scope_builder@);
                }
                let right = match self.lower_expr(rhs) {
                    Ok(v) => v,
                    Err(err) => {
                        return Err(err);
                    },
                };
                let ghost late = self.ctx;
                proof {
                    lemma_grown_twice(&old(self).ctx, &mid, &late);
                }
                match self.emit(InstKind::Binary { op: *op, lhs: left, rhs: right }, IrTy::of_ast(ty)) {
                    Ok(inst) => {
                        proof {
                            let scopes = old(self).ctx.scope_builder@;
                            lemma_grown_twice(&old(self).ctx, &late, &self.ctx);
                            lemma_denotes_kept(mid.cur().insts(), late.cur().insts(), scopes, left, lhs);
                            lemma_denotes_kept(
                                late.cur().insts(),
                                self.ctx.cur().insts(),
                                scopes,
                                left,
                                lhs,
                            );
                            lemma_denotes_kept(
                                late.cur().insts(),
                                self.ctx.cur().insts(),
                                scopes,
                                right,
                                rhs,
                            );
                        }
                        Ok(Operand::Inst(inst))
                    },
                    Err(err) => Err(err),
                }
            },
            Expr::Call { callee, args, ty } => {
                proof {
                    lemma_lookup_env(self.ctx.scope_builder@, self.ctx.cur_module.funcs(), callee@);
                }
                let found = match self.ctx.scope_builder.find_name_rec(callee.as_str()) {
                    Some(id) => Some(*id),
                    None => None,
                };
                let func = match found {
                    None => {
                        return Err(Error::UnknownName(callee.clone()));
                    },
                    Some(NameId::Func(f)) => f,
                    Some(_) => {
                        return Err(Error::ExpectedFunction(callee.clone()));
                    },
                };
                assert(self.ctx.cur_module.funcs().contains_key(func)) by {
                    lemma_lookup_found(self.ctx.scope_builder@, callee@);
                }
                let declared = self.ctx.get_func_ty(func).params_ty.len();
                proof {
                    let f = self.ctx.cur_module.funcs()[func];
                    assert(shapes_of(f.ty->Func_0.params_ty@).len() == declared);
                    assert(declared == declared_arity(f));
                }
                if declared != args.len() {
                    return Err(Error::WrongParamLength { expected: declared, found: args.len() });
                }
                let values = match self.lower_args(args) {
                    Ok(v) => v,
                    Err(err) => {
                        return Err(err);
                    },
                };
                let ghost mid = self.ctx;
                let ghost passed = values@;
                match self.emit(InstKind::Call { func, args: values }, IrTy::of_ast(ty)) {
                    Ok(inst) => {
                        proof {
                            lemma_grown_twice(&old(self).ctx, &mid, &self.ctx);
                            lemma_denote_all_kept(
                                mid.cur().insts(),
                                self.ctx.cur().insts(),
                                old(self).ctx.scope_builder@,
                                passed,
                                args,
                                args@.len(),
                            );
                        }
                        Ok(Operand::Inst(inst))
                    },
                    Err(err) => Err(err),
                }
            },
        }
    }

    /// Lowers the arguments of a call from left to right.
    pub fn lower_args(&mut self, args: &Vec<Expr>) -> (r: Result<Vec<Operand>, Error>)
        requires
            old(self).ctx.steady(),
            old(self).ctx.open(),
            forall|i: int| 0 <= i < args@.len() ==> (#[trigger] args@[i]).checked(),
        ensures
            match r {
                Ok(values) => {
                    &&& values@.len() == args@.len()
                    &&& denote_all(
                        final(self).ctx.cur().insts(),
                        old(self).ctx.scope_builder@,
                        values@,
                        args,
                        args@.len(),
                    )
                    &&& args_err(old(self).ctx.env(), args, args@.len()) is None
                    &&& final(self).ctx.steady()
                    &&& final(self).ctx.open()
                    &&& final(self).ctx.grown(&old(self).ctx)
                    &&& final(self).ctx.cur_bb == old(self).ctx.cur_bb
                    &&& final(self).ctx.scope_builder@ == old(self).ctx.scope_builder@
                    &&& final(self).ctx.cur().open_blocks() == old(self).ctx.cur().open_blocks()
                },
                Err(err) => args_err(old(self).ctx.env(), args, args@.len()) == Some(err@) || (err@
                    == ErrorShape::NoCause && final(self).ctx.out_of_room()),
            },
            final(self).ctx.within(&old(self).ctx, args_cost(args, args@.len()), 0),
            args_err(old(self).ctx.env(), args, args@.len()) is None && old(self).ctx.has_room(
                args_cost(args, args@.len()),
                0,
            ) ==> r is Ok,
        decreases args, args@.len(),
    {
        let ghost env = self.ctx.env();
        let mut values: Vec<Operand> = Vec::new();
        let mut i: usize = 0;
        proof {
            assert(self.ctx.cur().open_blocks() =~= old(self).ctx.cur().open_blocks());
        }
        while i < args.len()
            invariant
                i <= args@.len(),
                values@.len() == i,
                env == old(self).ctx.env(),
                old(self).ctx.steady(),
                forall|j: int| 0 <= j < args@.len() ==> (#[trigger] args@[j]).checked(),
                args_err(env, args, i as nat) is None,
                self.ctx.within(&old(self).ctx, args_cost(args, i as nat), 0),
                denote_all(
                    self.ctx.cur().insts(),
                    old(self).ctx.scope_builder@,
                    values@,
                    args,
                    i as nat,
                ),
                self.ctx.steady(),
                self.ctx.open(),
                self.ctx.grown(&old(self).ctx),
                self.ctx.cur_bb == old(self).ctx.cur_bb,
                self.ctx.scope_builder@ == old(self).ctx.scope_builder@,
                self.ctx.cur().open_blocks() == old(self).ctx.cur().open_blocks(),
            decreases args@.len() - i,
        {
            let ghost mid = self.ctx;
            proof {
                lemma_grown_env(&old(self).ctx, &mid, mid.scope_builder@);
            }
            let ghost had = values@;
            match self.lower_expr(&args[i]) {
                Ok(v) => {
                    proof {
                        let scopes = old(self).ctx.scope_builder@;
                        lemma_denote_all_kept(
                            mid.cur().insts(),
                            self.ctx.cur().insts(),
                            scopes,
                            had,
                            args,
                            i as nat,
                        );
                        lemma_denote_all_pushed(self.ctx.cur().insts(), scopes, had, v, args, i as nat);
                    }
                    values.push(v);
                },
                Err(err) => {
                    proof {
                        lemma_args_err_found(env, args, i as nat, args@.len());
                        lemma_args_cost_grows(args, (i + 1) as nat, args@.len());
                    }
                    return Err(err);
                },
            }
            proof {
                lemma_grown_twice(&old(self).ctx, &mid, &self.ctx);
            }
            i += 1;
        }
        Ok(values)
    }

    /// Whether the current block ends in a terminator.
    pub fn cur_is_terminated(&self) -> (r: bool)
        requires
            self.ctx.wf(),
            self.ctx.at_block(),
        ensures
            r == !self.ctx.open(),
    {
        match self.ctx.cur_module.get_func(self.ctx.cur_func) {
            Some(f) => f.is_terminated(self.ctx.cur_bb),
            None => false,
        }
    }

    /// Moves the cursor to a block of the current function.
    pub fn move_to(&mut self, bb: BBId)
        requires
            old(self).ctx.steady(),
            old(self).ctx.cur().blocks().contains_key(bb),
        ensures
            final(self).ctx.steady(),
            final(self).ctx.cur_bb == bb,
            final(self).ctx.cur_func == old(self).ctx.cur_func,
            final(self).ctx.cur_module == old(self).ctx.cur_module,
            final(self).ctx.scope_builder == old(self).ctx.scope_builder,
            final(self).ctx.loop_targets == old(self).ctx.loop_targets,
    {
        self.ctx.set_cur_bb(bb);
    }

    /// Ends the current block with a jump, unless it ends in a terminator
    /// already.
    pub fn seal_with_jump(&mut self, target: BBId) -> (r: Result<(), Error>)
        requires
            old(self).ctx.steady(),
        ensures
            match r {
                Ok(_) => {
                    &&& final(self).ctx.steady()
                    &&& !final(self).ctx.open()
                    &&& final(self).ctx.grown(&old(self).ctx)
                    &&& final(self).ctx.cur_bb == old(self).ctx.cur_bb
                    &&& final(self).ctx.scope_builder@ == old(self).ctx.scope_builder@
                    &&& final(self).ctx.cur().blocks().dom() == old(self).ctx.cur().blocks().dom()
                    &&& final(self).ctx.cur().open_blocks() == old(
                        self,
                    ).ctx.cur().open_blocks().remove(old(self).ctx.cur_bb)
                    &&& old(self).ctx.open() ==> final(self).ctx.cur().code(old(self).ctx.cur_bb)
                        == old(self).ctx.cur().code(old(self).ctx.cur_bb).push(
                        final(self).ctx.cur().code(old(self).ctx.cur_bb).last(),
                    ) && final(self).ctx.cur().insts()[final(self).ctx.cur().code(
                        old(self).ctx.cur_bb,
                    ).last()].kind == (InstKind::Jump { target })
                },
                Err(e) => e@ == ErrorShape::NoCause && final(self).ctx.out_of_room(),
            },
            r is Err ==> old(self).ctx.open(),
            final(self).ctx.within(&old(self).ctx, 1, 0),
            final(self).ctx.cur().extends(&old(self).ctx.cur()),
            r is Ok && old(self).ctx.open() ==> final(self).ctx.cur().jump_at(
                old(self).ctx.cur_bb,
                old(self).ctx.place().at,
                target,
            ),
    {
        if self.cur_is_terminated() {
            proof {
                assert(self.ctx.cur().open_blocks() =~= self.ctx.cur().open_blocks().remove(
                    self.ctx.cur_bb,
                ));
                let f = self.ctx.cur();
                assert forall|b: BBId| f.blocks().contains_key(b) implies f.code(b).is_prefix_of(
                    f.code(b),
                ) by {
                    assert(f.code(b) =~= f.code(b).subrange(0, f.code(b).len() as int));
                }
            }
            Ok(())
        } else {
            match self.emit(InstKind::Jump { target }, IrTy::Void) {
                Ok(_) => {
                    proof {
                        lemma_grown_extends(&old(self).ctx, &self.ctx);
                    }
                    Ok(())
                },
                Err(e) => Err(e),
            }
        }
    }

    /// Lowers `break`: a jump to the exit of the innermost open loop.
    pub fn lower_break(&mut self) -> (r: Result<(), Error>)
        requires
            old(self).ctx.steady(),
            old(self).ctx.open(),
            old(self).ctx.loop_targets@.len() > 0,
        ensures
            final(self).ctx.lowered(&old(self).ctx, r, Ok(old(self).ctx.env()), false, 1, 0),
            r is Ok ==> final(self).ctx.did(&old(self).ctx, &Stmt::Break),
            r is Ok ==> jump_runs(
                final(self).ctx.cur(),
                old(self).ctx.loop_targets@.last().break_target,
                old(self).ctx.place(),
                final(self).ctx.place(),
            ),
            final(self).ctx.within(&old(self).ctx, 1, 0),
    {
        let target = self.ctx.loop_targets[self.ctx.loop_targets.len() - 1].break_target;
        match self.emit(InstKind::Jump { target }, IrTy::Void) {
            Ok(_) => {
                proof {
                    lemma_grown_env(&old(self).ctx, &self.ctx, self.ctx.scope_builder@);
                    assert(!self.ctx.cur().open_blocks().contains(self.ctx.cur_bb));
                }
                Ok(())
            },
            Err(e) => Err(e),
        }
    }

    /// Lowers `continue`: a jump to the condition of the innermost open loop.
    pub fn lower_continue(&mut self) -> (r: Result<(), Error>)
        requires
            old(self).ctx.steady(),
            old(self).ctx.open(),
            old(self).ctx.loop_targets@.len() > 0,
        ensures
            final(self).ctx.lowered(&old(self).ctx, r, Ok(old(self).ctx.env()), false, 1, 0),
            r is Ok ==> final(self).ctx.did(&old(self).ctx, &Stmt::Continue),
            r is Ok ==> jump_runs(
                final(self).ctx.cur(),
                old(self).ctx.loop_targets@.last().continue_target,
                old(self).ctx.place(),
                final(self).ctx.place(),
            ),
            final(self).ctx.within(&old(self).ctx, 1, 0),
    {
        let target = self.ctx.loop_targets[self.ctx.loop_targets.len() - 1].continue_target;
        match self.emit(InstKind::Jump { target }, IrTy::Void) {
            Ok(_) => {
                proof {
                    lemma_grown_env(&old(self).ctx, &self.ctx, self.ctx.scope_builder@);
                    assert(!self.ctx.cur().open_blocks().contains(self.ctx.cur_bb));
                }
                Ok(())
            },
            Err(e) => Err(e),
        }
    }

    /// Lowers `return`: the value, if there is one, and a return instruction.
    pub fn lower_return(&mut self, value: &Option<Expr>) -> (r: Result<(), Error>)
        requires
            old(self).ctx.steady(),
            old(self).ctx.open(),
            match value {
                Some(e) => e.checked(),
                None => true,
            },
        ensures
            final(self).ctx.lowered(
                &old(self).ctx,
                r,
                match value {
                    Some(e) => match expr_err(old(self).ctx.env(), e) {
                        Some(x) => Err(x),
                        None => Ok(old(self).ctx.env()),
                    },
                    None => Ok(old(self).ctx.env()),
                },
                false,
                1 + value_cost(value),
                0,
            ),
            r is Ok ==> final(self).ctx.returned(&old(self).ctx, value),
            r is Ok ==> return_runs(
                final(self).ctx.cur(),
                value,
                old(self).ctx.place(),
                final(self).ctx.place(),
            ),
            final(self).ctx.within(&old(self).ctx, 1 + value_cost(value), 0),
    {
        let returned = match value {
            Some(e) => match self.lower_expr(e) {
                Ok(v) => Some(v),
                Err(err) => {
                    return Err(err);
                },
            },
            None => None,
        };
        let ghost mid = self.ctx;
        let ghost given = returned;
        proof {
            lemma_grown_env(&old(self).ctx, &mid, mid.scope_builder@);
        }
        match self.emit(InstKind::Ret { returned }, IrTy::Void) {
            Ok(_) => {
                proof {
                    lemma_grown_twice(&old(self).ctx, &mid, &self.ctx);
                    lemma_grown_env(&old(self).ctx, &self.ctx, self.ctx.scope_builder@);
                    if value is Some {
                        lemma_denotes_kept(
                            mid.cur().insts(),
                            self.ctx.cur().insts(),
                            old(self).ctx.scope_builder@,
                            given->0,
                            &value->0,
                        );
                    }
                }
                Ok(())
            },
            Err(e) => Err(e),
        }
    }

    /// Lowers the declaration of a local variable: the initial value, if
    /// there is one, then storage for the variable, then the binding of its
    /// name in the innermost scope.
    pub fn lower_decl(&mut self, name: &String, ty: &AstTy, init: &Option<Expr>) -> (r: Result<
        (),
        Error,
    >)
        requires
            old(self).ctx.steady(),
            old(self).ctx.open(),
            ty.resolved(),
            match init {
                Some(e) => e.checked(),
                None => true,
            },
        ensures
            final(self).ctx.lowered(
                &old(self).ctx,
                r,
                match (match init {
                    Some(e) => expr_err(old(self).ctx.env(), e),
                    None => None,
                }) {
                    Some(x) => Err(x),
                    None => if insert_fails(old(self).ctx.env(), name@) {
                        Err(ErrorShape::DuplicateName(name@))
                    } else {
                        Ok(inserted(old(self).ctx.env(), name@, Binding::Slot))
                    },
                },
                true,
                2 + value_cost(init),
                0,
            ),
            r is Ok ==> final(self).ctx.declared(&old(self).ctx, name@, ty, init),
            r is Ok ==> decl_runs(
                final(self).ctx.cur(),
                name@,
                ty,
                init,
                old(self).ctx.place(),
                final(self).ctx.place(),
            ),
            final(self).ctx.within(&old(self).ctx, 2 + value_cost(init), 0),
    {
        let ghost env = self.ctx.env();
        let value = match init {
            Some(e) => match self.lower_expr(e) {
                Ok(v) => Some(v),
                Err(err) => {
                    return Err(err);
                },
            },
            None => None,
        };
        let ghost mid = self.ctx;
        let ghost given = value;
        proof {
            lemma_grown_env(&old(self).ctx, &mid, mid.scope_builder@);
            lemma_env_steps(
                old(self).ctx.scope_builder@,
                old(self).ctx.cur_module.funcs(),
                name@,
                NameId::Inst(arbitrary()),
            );
        }
        if self.ctx.scope_builder.scopes[self.ctx.scope_builder.scopes.len() - 1].find(
            name.as_str(),
        ).is_some() {
            return Err(Error::DuplicateName(name.clone()));
        }
        let slot = match self.emit(InstKind::Alloca, IrTy::Ptr(Box::new(IrTy::of_ast(ty)))) {
            Ok(inst) => inst,
            Err(err) => {
                return Err(err);
            },
        };
        let ghost late = self.ctx;
        proof {
            lemma_grown_twice(&old(self).ctx, &mid, &late);
        }
        match value {
            Some(v) => {
                match self.emit(InstKind::Store { addr: Operand::Inst(slot), value: v }, IrTy::Void) {
                    Ok(_) => {},
                    Err(err) => {
                        return Err(err);
                    },
                }
            },
            None => {},
        }
        let ghost last = self.ctx;
        proof {
            lemma_grown_twice(&old(self).ctx, &late, &last);
            if init is Some {
                let scopes = old(self).ctx.scope_builder@;
                lemma_denotes_kept(
                    mid.cur().insts(),
                    late.cur().insts(),
                    scopes,
                    given->0,
                    &init->0,
                );
                lemma_denotes_kept(
                    late.cur().insts(),
                    last.cur().insts(),
                    scopes,
                    given->0,
                    &init->0,
                );
            }
        }
        self.ctx.scope_builder.insert(name.as_str(), NameId::Inst(slot));
        proof {
            let scopes = old(self).ctx.scope_builder@;
            lemma_grown_rebased(&old(self).ctx, &last, &old(self).ctx, &self.ctx);
            lemma_env_steps(scopes, self.ctx.cur_module.funcs(), name@, NameId::Inst(slot));
            lemma_grown_env(&old(self).ctx, &last, scopes);
            assert(self.ctx.scope_builder@.drop_last() =~= scopes.drop_last());
            assert forall|i: int, n: Seq<char>|
                0 <= i < self.ctx.scope_builder@.len() && self.ctx.scope_builder@[i].contains_key(
                    n,
                ) implies match #[trigger] self.ctx.scope_builder@[i][n] {
                NameId::Func(f) => self.ctx.cur_module.funcs().contains_key(f),
                _ => true,
            } by {
                if i == scopes.len() - 1 && n == name@ {
                } else {
                    assert(scopes[i].contains_key(n));
                    assert(self.ctx.scope_builder@[i][n] == scopes[i][n]);
                    assert(old(self).ctx.cur_module.funcs().dom().contains(
                        scopes[i][n]->Func_0,
                    ) || !(scopes[i][n] is Func));
                }
            }
        }
        Ok(())
    }

    /// Lowers an assignment: the value, then a store into the place that the
    /// name is bound to.
    pub fn lower_assign(&mut self, name: &String, value: &Expr) -> (r: Result<(), Error>)
        requires
            old(self).ctx.steady(),
            old(self).ctx.open(),
            value.checked(),
        ensures
            final(self).ctx.lowered(
                &old(self).ctx,
                r,
                match first_of(
                    expr_err(old(self).ctx.env(), value),
                    target_err(old(self).ctx.env(), name@, value),
                ) {
                    Some(x) => Err(x),
                    None => Ok(old(self).ctx.env()),
                },
                true,
                1 + expr_cost(value),
                0,
            ),
            r is Ok ==> final(self).ctx.assigned(&old(self).ctx, name@, value),
            r is Ok ==> assign_runs(
                final(self).ctx.cur(),
                name@,
                value,
                old(self).ctx.place(),
                final(self).ctx.place(),
            ),
            final(self).ctx.within(&old(self).ctx, 1 + expr_cost(value), 0),
    {
        let v = match self.lower_expr(value) {
            Ok(v) => v,
            Err(err) => {
                return Err(err);
            },
        };
        let ghost mid = self.ctx;
        proof {
            lemma_grown_env(&old(self).ctx, &mid, mid.scope_builder@);
            lemma_lookup_env(mid.scope_builder@, mid.cur_module.funcs(), name@);
        }
        let found = match self.ctx.scope_builder.find_name_rec(name.as_str()) {
            Some(id) => Some(*id),
            None => None,
        };
        let addr = match found {
            None => {
                return Err(Error::UnknownName(name.clone()));
            },
            Some(NameId::Func(_)) => {
                return Err(Error::NoCause);
            },
            Some(NameId::Param(_)) => {
                let found = IrTy::of_ast(value.ty());
                let expected = IrTy::Ptr(Box::new(found.clone()));
                return Err(Error::TypeMismatch { expected, found });
            },
            Some(NameId::Inst(slot)) => Operand::Inst(slot),
            Some(NameId::Global(g)) => Operand::Global(g),
        };
        let ghost given = v;
        match self.emit(InstKind::Store { addr, value: v }, IrTy::Void) {
            Ok(_) => {
                proof {
                    lemma_grown_twice(&old(self).ctx, &mid, &self.ctx);
                    lemma_grown_env(&old(self).ctx, &self.ctx, self.ctx.scope_builder@);
                    lemma_denotes_kept(
                        mid.cur().insts(),
                        self.ctx.cur().insts(),
                        old(self).ctx.scope_builder@,
                        given,
                        value,
                    );
                }
                Ok(())
            },
            Err(err) => Err(err),
        }
    }

    /// Opens a scope.
    pub fn enter_scope(&mut self)
        requires
            old(self).ctx.steady(),
        ensures
            final(self).ctx.steady(),
            final(self).ctx.scope_builder@ == pushed(old(self).ctx.scope_builder@),
            final(self).ctx.env() == pushed(old(self).ctx.env()),
            final(self).ctx.cur_module == old(self).ctx.cur_module,
            final(self).ctx.cur_func == old(self).ctx.cur_func,
            final(self).ctx.cur_bb == old(self).ctx.cur_bb,
            final(self).ctx.loop_targets == old(self).ctx.loop_targets,
    {
        self.ctx.scope_builder.push_scope();
        proof {
            let scopes = old(self).ctx.scope_builder@;
            lemma_env_steps(scopes, self.ctx.cur_module.funcs(), Seq::empty(), arbitrary());
            assert forall|i: int, n: Seq<char>|
                0 <= i < self.ctx.scope_builder@.len() && self.ctx.scope_builder@[i].contains_key(
                    n,
                ) implies match #[trigger] self.ctx.scope_builder@[i][n] {
                NameId::Func(f) => self.ctx.cur_module.funcs().contains_key(f),
                _ => true,
            } by {
                assert(scopes[i].contains_key(n));
                assert(self.ctx.scope_builder@[i][n] == scopes[i][n]);
            }
        }
    }

    /// Closes the innermost scope, which is not the only one.
    pub fn leave_scope(&mut self)
        requires
            old(self).ctx.steady(),
            old(self).ctx.scope_builder@.len() > 1,
        ensures
            final(self).ctx.steady(),
            final(self).ctx.scope_builder@ == old(self).ctx.scope_builder@.drop_last(),
            final(self).ctx.cur_module == old(self).ctx.cur_module,
            final(self).ctx.cur_func == old(self).ctx.cur_func,
            final(self).ctx.cur_bb == old(self).ctx.cur_bb,
            final(self).ctx.loop_targets == old(self).ctx.loop_targets,
    {
        self.ctx.scope_builder.pop_scope();
        proof {
            let scopes = old(self).ctx.scope_builder@;
            assert forall|i: int, n: Seq<char>|
                0 <= i < self.ctx.scope_builder@.len() && self.ctx.scope_builder@[i].contains_key(
                    n,
                ) implies match #[trigger] self.ctx.scope_builder@[i][n] {
                NameId::Func(f) => self.ctx.cur_module.funcs().contains_key(f),
                _ => true,
            } by {
                assert(scopes[i].contains_key(n));
                assert(self.ctx.scope_builder@[i][n] == scopes[i][n]);
            }
        }
    }

    /// Lowers a list of statements in order, into the scope that is open.
    /// Statements behind one that ends the current block are not lowered.
    pub fn lower_stmts(&mut self, stmts: &Vec<Stmt>) -> (r: Result<(), Error>)
        requires
            old(self).ctx.steady(),
            old(self).ctx.open(),
            all_checked(stmts, old(self).ctx.loop_targets@.len() > 0),
        ensures
            final(self).ctx.lowered(
                &old(self).ctx,
                r,
                stmts_res(old(self).ctx.env(), stmts, stmts@.len()),
                all_fall_through(stmts, stmts@.len()),
                stmts_insts(stmts, stmts@.len()),
                stmts_blocks(stmts, stmts@.len()),
            ),
            final(self).ctx.within(
                &old(self).ctx,
                stmts_insts(stmts, stmts@.len()),
                stmts_blocks(stmts, stmts@.len()),
            ),
            r is Ok ==> runs_list(
                final(self).ctx.cur(),
                old(self).ctx.loop_targets@,
                stmts,
                stmts@.len(),
                old(self).ctx.place(),
                final(self).ctx.place(),
            ),
        decreases stmts, stmts@.len(),
    {
        let ghost env = self.ctx.env();
        let mut i: usize = 0;
        proof {
            lemma_grown_self(&self.ctx);
        }
        while i < stmts.len()
            invariant
                i <= stmts@.len(),
                env == old(self).ctx.env(),
                old(self).ctx.steady(),
                all_checked(stmts, old(self).ctx.loop_targets@.len() > 0),
                stmts_res(env, stmts, i as nat) == Ok::<Env, ErrorShape>(self.ctx.env()),
                self.ctx.within(
                    &old(self).ctx,
                    stmts_insts(stmts, i as nat),
                    stmts_blocks(stmts, i as nat),
                ),
                self.ctx.open() == all_fall_through(stmts, i as nat),
                runs_list(
                    self.ctx.cur(),
                    old(self).ctx.loop_targets@,
                    stmts,
                    i as nat,
                    old(self).ctx.place(),
                    self.ctx.place(),
                ),
                self.ctx.steady(),
                self.ctx.grown(&old(self).ctx),
                self.ctx.scope_builder@.len() == old(self).ctx.scope_builder@.len(),
                self.ctx.scope_builder@.drop_last() == old(self).ctx.scope_builder@.drop_last(),
            decreases stmts@.len() - i,
        {
            if self.cur_is_terminated() {
                proof {
                    lemma_stmts_skipped(env, stmts, i as nat, stmts@.len());
                    lemma_stmt_costs_grow(stmts, i as nat, stmts@.len());
                    lemma_runs_list_skipped(
                        self.ctx.cur(),
                        old(self).ctx.loop_targets@,
                        stmts,
                        i as nat,
                        stmts@.len(),
                        old(self).ctx.place(),
                        self.ctx.place(),
                    );
                }
                return Ok(());
            }
            let ghost mid = self.ctx;
            match self.lower_stmt(&stmts[i]) {
                Ok(_) => {},
                Err(err) => {
                    proof {
                        lemma_stmts_err_found(env, stmts, i as nat, stmts@.len());
                        lemma_stmt_costs_grow(stmts, (i + 1) as nat, stmts@.len());
                    }
                    return Err(err);
                },
            }
            proof {
                lemma_grown_twice(&old(self).ctx, &mid, &self.ctx);
                lemma_grown_extends(&mid, &self.ctx);
                let targets = old(self).ctx.loop_targets@;
                lemma_runs_list_kept(
                    mid.cur(),
                    self.ctx.cur(),
                    targets,
                    stmts,
                    i as nat,
                    old(self).ctx.place(),
                    mid.place(),
                );
                assert(here(mid.place()) && list_steps(
                    self.ctx.cur(),
                    targets,
                    stmts,
                    (i + 1) as nat,
                    old(self).ctx.place(),
                    mid.place(),
                    self.ctx.place(),
                ));
            }
            i += 1;
        }
        Ok(())
    }

    /// Lowers one statement.
    pub fn lower_stmt(&mut self, s: &Stmt) -> (r: Result<(), Error>)
        requires
            old(self).ctx.steady(),
            old(self).ctx.open(),
            s.checked(old(self).ctx.loop_targets@.len() > 0),
        ensures
            final(self).ctx.lowered(
                &old(self).ctx,
                r,
                stmt_res(old(self).ctx.env(), s),
                falls_through(s),
                stmt_insts(s),
                stmt_blocks(s),
            ),
            r is Ok ==> final(self).ctx.did(&old(self).ctx, s),
            final(self).ctx.within(&old(self).ctx, stmt_insts(s), stmt_blocks(s)),
            r is Ok ==> runs(
                final(self).ctx.cur(),
                old(self).ctx.loop_targets@,
                s,
                old(self).ctx.place(),
                final(self).ctx.place(),
            ),
        decreases s, 1nat,
    {
        match s {
            Stmt::Decl { name, ty, init } => self.lower_decl(name, ty, init),
            Stmt::Assign { name, value } => self.lower_assign(name, value),
            Stmt::Expr(e) => match self.lower_expr(e) {
                Ok(op) => {
                    proof {
                        lemma_grown_env(&old(self).ctx, &self.ctx, self.ctx.scope_builder@);
                        lemma_grown_extends(&old(self).ctx, &self.ctx);
                        assert(old(self).ctx.cur().blocks().contains_key(old(self).ctx.cur_bb));
                        assert(stands(op) && denotes(
                            self.ctx.cur().insts(),
                            old(self).ctx.scope_builder@,
                            op,
                            e,
                        ));
                    }
                    Ok(())
                },
                Err(err) => Err(err),
            },
            Stmt::Block(stmts) => {
                self.enter_scope();
                let ghost inner = self.ctx;
                match self.lower_stmts(stmts) {
                    Ok(_) => {},
                    Err(err) => {
                        return Err(err);
                    },
                }
                let ghost done = self.ctx;
                self.leave_scope();
                proof {
                    lemma_grown_rebased(&inner, &done, &old(self).ctx, &self.ctx);
                    assert(self.ctx.scope_builder@ =~= old(self).ctx.scope_builder@);
                    lemma_grown_env(&old(self).ctx, &self.ctx, self.ctx.scope_builder@);
                    assert(here(done.place()) && block_ends(
                        self.ctx.cur(),
                        old(self).ctx.loop_targets@,
                        stmts,
                        old(self).ctx.place(),
                        self.ctx.place(),
                        done.place(),
                    ));
                }
                Ok(())
            },
            Stmt::If { .. } => self.lower_if(s),
            Stmt::While { .. } => self.lower_while(s),
            Stmt::Break => self.lower_break(),
            Stmt::Continue => self.lower_continue(),
            Stmt::Return(value) => self.lower_return(value),
        }
    }

    /// Lowers an `if` statement. The condition goes into the current block,
    /// which ends in a branch to the first arm and to the second arm, or to
    /// the merge block where there is no second one. Each arm is lowered
    /// into a block and a scope of its own and jumps to the merge block
    /// unless it has ended its block itself. The cursor ends at the merge
    /// block.
    pub fn lower_if(&mut self, s: &Stmt) -> (r: Result<(), Error>)
        requires
            old(self).ctx.steady(),
            old(self).ctx.open(),
            *s is If,
            s.checked(old(self).ctx.loop_targets@.len() > 0),
        ensures
            final(self).ctx.lowered(
                &old(self).ctx,
                r,
                stmt_res(old(self).ctx.env(), s),
                true,
                stmt_insts(s),
                stmt_blocks(s),
            ),
            r is Ok ==> final(self).ctx.did(&old(self).ctx, s),
            final(self).ctx.within(&old(self).ctx, stmt_insts(s), stmt_blocks(s)),
            r is Ok ==> if_runs(
                final(self).ctx.cur(),
                old(self).ctx.loop_targets@,
                s,
                old(self).ctx.place(),
                final(self).ctx.place(),
            ),
        decreases s, 0nat,
    {
        let ghost env = self.ctx.env();
        let ghost scopes = self.ctx.scope_builder@;
        let ghost s0 = self.ctx;
        match s {
            Stmt::If { cond, then_arm, else_arm } => {
                let cond_op = match self.lower_expr(cond) {
                    Ok(v) => v,
                    Err(err) => {
                        return Err(err);
                    },
                };
                let found = IrTy::of_ast(cond.ty());
                if !found.same(&IrTy::Int(BOOL_BITS)) {
                    return Err(
                        Error::TypeMismatch { expected: IrTy::Int(BOOL_BITS), found },
                    );
                }
                let ghost s1 = self.ctx;
                let merge = match self.new_block() {
                    Ok(bb) => bb,
                    Err(err) => {
                        return Err(err);
                    },
                };
                let ghost s2 = self.ctx;
                let else_bb = match else_arm {
                    Some(_) => match self.new_block() {
                        Ok(bb) => bb,
                        Err(err) => {
                            return Err(err);
                        },
                    },
                    None => merge,
                };
                let ghost s3 = self.ctx;
                let then_bb = match self.new_block() {
                    Ok(bb) => bb,
                    Err(err) => {
                        return Err(err);
                    },
                };
                let ghost s4 = self.ctx;
                let ghost given = cond_op;
                match self.emit(InstKind::Branch { cond: cond_op, then_bb, else_bb }, IrTy::Void) {
                    Ok(_) => {},
                    Err(err) => {
                        return Err(err);
                    },
                }
                let ghost s5 = self.ctx;
                proof {
                    lemma_framed_twice(&s0, &s1, &s2);
                    lemma_framed_twice(&s0, &s2, &s3);
                    lemma_framed_twice(&s0, &s3, &s4);
                    lemma_framed_twice(&s0, &s4, &s5);
                    lemma_grown_env(&s0, &s5, scopes);
                    assert(s2.cur().open_blocks().contains(merge));
                    assert(s3.cur().open_blocks().contains(merge));
                    assert(s3.cur().open_blocks().contains(else_bb));
                    assert(s4.cur().open_blocks().contains(merge));
                    assert(s4.cur().open_blocks().contains(else_bb));
                    assert(s5.cur().open_blocks().contains(then_bb));
                    assert(s5.cur().open_blocks().contains(merge));
                    assert(s5.cur().open_blocks().contains(else_bb));
                }
                self.move_to(then_bb);
                self.enter_scope();
                let ghost s6 = self.ctx;
                match self.lower_stmts(then_arm) {
                    Ok(_) => {},
                    Err(err) => {
                        return Err(err);
                    },
                }
                let ghost s7 = self.ctx;
                self.leave_scope();
                match self.seal_with_jump(merge) {
                    Ok(_) => {},
                    Err(err) => {
                        return Err(err);
                    },
                }
                let ghost s8 = self.ctx;
                let ghost then_from = s6.place();
                let ghost then_end = s7.place();
                proof {
                    let targets = s0.loop_targets@;
                    lemma_grown_extends(&s6, &s7);
                    assert(s4.cur().code(then_bb).len() == 0);
                    assert(s6.cur().code(then_bb).len() == 0);
                    assert(then_from == (Place { bb: then_bb, at: 0, scopes: pushed(scopes) }));
                    lemma_runs_list_kept(
                        s7.cur(),
                        s8.cur(),
                        targets,
                        then_arm,
                        then_arm@.len(),
                        then_from,
                        then_end,
                    );
                    lemma_framed_twice(&s0, &s6, &s7);
                    lemma_framed_twice(&s0, &s7, &s8);
                    assert(s8.scope_builder@ =~= scopes);
                    lemma_grown_env(&s0, &s8, scopes);
                    assert(s7.cur().open_blocks().contains(merge));
                    assert(s8.cur().open_blocks().contains(merge));
                    if else_arm is Some {
                        assert(s7.cur().open_blocks().contains(else_bb));
                        assert(s8.cur().open_blocks().contains(else_bb));
                    }
                    assert(s8.cur().open_blocks().subset_of(
                        s0.cur().open_blocks().remove(s0.cur_bb).insert(merge).insert(else_bb),
                    ));
                    assert(s0.cur().open_blocks().remove(s0.cur_bb).subset_of(
                        s8.cur().open_blocks(),
                    ));
                }
                let ghost s8b = self.ctx;
                match else_arm {
                    Some(arm) => {
                        self.move_to(else_bb);
                        self.enter_scope();
                        let ghost s9 = self.ctx;
                        match self.lower_stmts(arm) {
                            Ok(_) => {},
                            Err(err) => {
                                return Err(err);
                            },
                        }
                        let ghost s10 = self.ctx;
                        self.leave_scope();
                        match self.seal_with_jump(merge) {
                            Ok(_) => {},
                            Err(err) => {
                                return Err(err);
                            },
                        }
                        proof {
                            let f = self.ctx.cur();
                            let targets = s0.loop_targets@;
                            lemma_grown_extends(&s9, &s10);
                            lemma_extends_twice(s10.cur(), s10.cur(), f);
                            lemma_extends_twice(s8.cur(), s10.cur(), f);
                            lemma_runs_list_kept(
                                s10.cur(),
                                f,
                                targets,
                                arm,
                                arm@.len(),
                                s9.place(),
                                s10.place(),
                            );
                            assert(s9.cur().code(else_bb).len() == 0);
                            assert(here(s10.place()) && arm_ends(
                                f,
                                targets,
                                arm,
                                scopes,
                                else_bb,
                                merge,
                                s10.place(),
                            ));
                            assert(arm_runs(f, targets, arm, scopes, else_bb, merge));
                            lemma_runs_list_kept(
                                s8.cur(),
                                f,
                                targets,
                                then_arm,
                                then_arm@.len(),
                                then_from,
                                then_end,
                            );
                            if all_fall_through(then_arm, then_arm@.len()) {
                                lemma_at_kept(s8.cur(), f, then_end.bb, then_end.at);
                            }
                            lemma_framed_twice(&s0, &s9, &s10);
                            lemma_framed_twice(&s0, &s10, &self.ctx);
                            assert(self.ctx.scope_builder@ =~= scopes);
                            assert(s10.cur().open_blocks().contains(merge));
                            assert(self.ctx.cur().open_blocks().contains(merge));
                            assert(self.ctx.cur().open_blocks().subset_of(
                                s0.cur().open_blocks().remove(s0.cur_bb).insert(merge),
                            ));
                            assert(s0.cur().open_blocks().remove(s0.cur_bb).subset_of(
                                self.ctx.cur().open_blocks(),
                            ));
                        }
                    },
                    None => {},
                }
                let ghost s11 = self.ctx;
                self.move_to(merge);
                proof {
                    lemma_framed_twice(&s0, &s11, &self.ctx);
                    lemma_grown_env(&s0, &self.ctx, scopes);
                    lemma_denotes_kept(s1.cur().insts(), s5.cur().insts(), scopes, given, cond);
                    lemma_denotes_kept(s5.cur().insts(), s8.cur().insts(), scopes, given, cond);
                    lemma_denotes_kept(
                        s8.cur().insts(),
                        self.ctx.cur().insts(),
                        scopes,
                        given,
                        cond,
                    );
                    let f = self.ctx.cur();
                    let targets = s0.loop_targets@;
                    assert(f.terminator(s0.cur_bb) == (InstKind::Branch {
                        cond: given,
                        then_bb,
                        else_bb,
                    }));
                    assert(here(then_end) && arm_ends(
                        f,
                        targets,
                        then_arm,
                        scopes,
                        then_bb,
                        merge,
                        then_end,
                    ));
                    assert(arm_runs(f, targets, then_arm, scopes, then_bb, merge));
                    if else_arm is Some {
                        assert(arm_runs(f, targets, &else_arm->0, scopes, else_bb, merge));
                    }
                }
                Ok(())
            },
            _ => Err(Error::NoCause),
        }
    }

    /// Lowers a `while` statement. The current block jumps to a condition
    /// block, which branches to the body and to the exit. The body is lowered
    /// into a block and a scope of its own, with the exit as the target of
    /// `break` and the condition block as the target of `continue`, and jumps
    /// back to the condition block unless it has ended its block itself. The
    /// cursor ends at the exit block.
    pub fn lower_while(&mut self, s: &Stmt) -> (r: Result<(), Error>)
        requires
            old(self).ctx.steady(),
            old(self).ctx.open(),
            *s is While,
            s.checked(old(self).ctx.loop_targets@.len() > 0),
        ensures
            final(self).ctx.lowered(
                &old(self).ctx,
                r,
                stmt_res(old(self).ctx.env(), s),
                true,
                stmt_insts(s),
                stmt_blocks(s),
            ),
            r is Ok ==> final(self).ctx.did(&old(self).ctx, s),
            final(self).ctx.within(&old(self).ctx, stmt_insts(s), stmt_blocks(s)),
            r is Ok ==> while_runs(
                final(self).ctx.cur(),
                old(self).ctx.loop_targets@,
                s,
                old(self).ctx.place(),
                final(self).ctx.place(),
            ),
        decreases s, 0nat,
    {
        let ghost env = self.ctx.env();
        let ghost scopes = self.ctx.scope_builder@;
        let ghost s0 = self.ctx;
        match s {
            Stmt::While { cond, body } => {
                let exit = match self.new_block() {
                    Ok(bb) => bb,
                    Err(err) => {
                        return Err(err);
                    },
                };
                let ghost s1 = self.ctx;
                let body_bb = match self.new_block() {
                    Ok(bb) => bb,
                    Err(err) => {
                        return Err(err);
                    },
                };
                let ghost s2 = self.ctx;
                let cond_bb = match self.new_block() {
                    Ok(bb) => bb,
                    Err(err) => {
                        return Err(err);
                    },
                };
                let ghost s3 = self.ctx;
                match self.emit(InstKind::Jump { target: cond_bb }, IrTy::Void) {
                    Ok(_) => {},
                    Err(err) => {
                        return Err(err);
                    },
                }
                let ghost s4 = self.ctx;
                self.move_to(cond_bb);
                let ghost s5 = self.ctx;
                proof {
                    lemma_framed_twice(&s0, &s1, &s2);
                    lemma_framed_twice(&s0, &s2, &s3);
                    lemma_framed_twice(&s0, &s3, &s4);
                    lemma_grown_env(&s0, &s5, scopes);
                }
                let cond_op = match self.lower_expr(cond) {
                    Ok(v) => v,
                    Err(err) => {
                        return Err(err);
                    },
                };
                let found = IrTy::of_ast(cond.ty());
                if !found.same(&IrTy::Int(BOOL_BITS)) {
                    return Err(
                        Error::TypeMismatch { expected: IrTy::Int(BOOL_BITS), found },
                    );
                }
                let ghost s6 = self.ctx;
                let ghost given = cond_op;
                match self.emit(
                    InstKind::Branch { cond: cond_op, then_bb: body_bb, else_bb: exit },
                    IrTy::Void,
                ) {
                    Ok(_) => {},
                    Err(err) => {
                        return Err(err);
                    },
                }
                let ghost s7 = self.ctx;
                self.ctx.loop_targets.push(BCTarget { break_target: exit, continue_target: cond_bb });
                self.move_to(body_bb);
                self.enter_scope();
                let ghost s8 = self.ctx;
                proof {
                    lemma_framed_twice(&s0, &s5, &s6);
                    lemma_framed_twice(&s0, &s6, &s7);
                    lemma_grown_env(&s0, &s7, scopes);
                    assert(s2.cur().open_blocks().contains(body_bb));
                    assert(s4.cur().open_blocks().contains(body_bb));
                    assert(s7.cur().open_blocks().contains(body_bb));
                    assert(s7.cur().open_blocks().contains(exit));
                }
                match self.lower_stmts(body) {
                    Ok(_) => {},
                    Err(err) => {
                        return Err(err);
                    },
                }
                let ghost s9 = self.ctx;
                self.leave_scope();
                match self.seal_with_jump(cond_bb) {
                    Ok(_) => {},
                    Err(err) => {
                        return Err(err);
                    },
                }
                let ghost s10 = self.ctx;
                self.ctx.loop_targets.pop();
                self.move_to(exit);
                proof {
                    lemma_framed_twice(&s0, &s8, &s9);
                    lemma_framed_twice(&s0, &s9, &s10);
                    assert(self.ctx.scope_builder@ =~= scopes);
                    assert(self.ctx.loop_targets@ =~= s0.loop_targets@);
                    lemma_grown_env(&s0, &self.ctx, scopes);
                    lemma_denotes_kept(s6.cur().insts(), s7.cur().insts(), scopes, given, cond);
                    lemma_denotes_kept(
                        s7.cur().insts(),
                        self.ctx.cur().insts(),
                        scopes,
                        given,
                        cond,
                    );
                    let f = self.ctx.cur();
                    let inside = s0.loop_targets@.push(
                        (BCTarget { break_target: exit, continue_target: cond_bb }),
                    );
                    assert(s8.loop_targets@ =~= inside);
                    lemma_grown_extends(&s8, &s9);
                    assert(s2.cur().code(body_bb).len() == 0);
                    assert(s8.cur().code(body_bb).len() == 0);
                    lemma_runs_list_kept(
                        s9.cur(),
                        f,
                        inside,
                        body,
                        body@.len(),
                        s8.place(),
                        s9.place(),
                    );
                    assert(here(s9.place()) && arm_ends(
                        f,
                        inside,
                        body,
                        scopes,
                        body_bb,
                        cond_bb,
                        s9.place(),
                    ));
                    assert(f.terminator(s0.cur_bb) == (InstKind::Jump { target: cond_bb }));
                    assert(f.terminator(cond_bb) == (InstKind::Branch {
                        cond: given,
                        then_bb: body_bb,
                        else_bb: exit,
                    }));
                    lemma_framed_twice(&s0, &s10, &self.ctx);
                    assert(s9.cur().open_blocks().contains(exit));
                    assert(s10.cur().open_blocks().contains(exit));
                    assert(self.ctx.cur().open_blocks().subset_of(
                        s0.cur().open_blocks().remove(s0.cur_bb).insert(exit),
                    ));
                    assert(s0.cur().open_blocks().remove(s0.cur_bb).subset_of(
                        self.ctx.cur().open_blocks(),
                    ));
                }
                Ok(())
            },
            _ => Err(Error::NoCause),
        }
    }

    /// Appends a parameter to the current function and binds its name in the
    /// innermost scope. Nothing changes where the name is bound there
    /// already.
    pub fn add_param(&mut self, param: &ParamDecl) -> (r: Result<(), Error>)
        requires
            old(self).ctx.steady(),
            param.ty.resolved(),
        ensures
            match r {
                Ok(_) => {
                    &&& !insert_fails(old(self).ctx.env(), param.name@)
                    &&& final(self).ctx.env() == inserted(
                        old(self).ctx.env(),
                        param.name@,
                        Binding::Param,
                    )
                    &&& final(self).ctx.scope_builder@ == inserted(
                        old(self).ctx.scope_builder@,
                        param.name@,
                        NameId::Param(
                            (ParamId { position: old(self).ctx.cur().params@.len() as usize }),
                        ),
                    )
                    &&& final(self).ctx.steady()
                    &&& final(self).ctx.framed(&old(self).ctx)
                    &&& final(self).ctx.cur_bb == old(self).ctx.cur_bb
                    &&& final(self).ctx.loop_targets@ == old(self).ctx.loop_targets@
                    &&& final(self).ctx.scope_builder@.len() == old(self).ctx.scope_builder@.len()
                    &&& final(self).ctx.scope_builder@.drop_last() == old(
                        self,
                    ).ctx.scope_builder@.drop_last()
                    &&& final(self).ctx.cur().blocks() == old(self).ctx.cur().blocks()
                    &&& final(self).ctx.cur().insts() == old(self).ctx.cur().insts()
                    &&& final(self).ctx.cur().params@.len() == old(self).ctx.cur().params@.len()
                        + 1
                },
                Err(err) => err@ == ErrorShape::DuplicateName(param.name@) && insert_fails(
                    old(self).ctx.env(),
                    param.name@,
                ),
            },
            final(self).ctx.within(&old(self).ctx, 0, 0),
    {
        proof {
            lemma_env_steps(
                self.ctx.scope_builder@,
                self.ctx.cur_module.funcs(),
                param.name@,
                NameId::Param(arbitrary()),
            );
        }
        if self.ctx.scope_builder.scopes[self.ctx.scope_builder.scopes.len() - 1].find(
            param.name.as_str(),
        ).is_some() {
            return Err(Error::DuplicateName(param.name.clone()));
        }
        let id = self.ctx.build_func_param(IrTy::of_ast(&param.ty));
        let ghost mid = self.ctx;
        self.ctx.scope_builder.insert(param.name.as_str(), NameId::Param(id));
        proof {
            let scopes = old(self).ctx.scope_builder@;
            let pre = old(self).ctx.cur();
            let post = self.ctx.cur();
            assert(self.ctx.cur_module.funcs().dom() =~= old(self).ctx.cur_module.funcs().dom());
            assert(mid.framed(&old(self).ctx));
            lemma_grown_env(&old(self).ctx, &mid, scopes);
            lemma_env_steps(scopes, self.ctx.cur_module.funcs(), param.name@, NameId::Param(id));
            assert(self.ctx.scope_builder@.drop_last() =~= scopes.drop_last());
            assert forall|bb: BBId| post.blocks().contains_key(bb) implies post.tidy(bb) by {
                assert(pre.tidy(bb));
            }
            assert forall|i: int, n: Seq<char>|
                0 <= i < self.ctx.scope_builder@.len() && self.ctx.scope_builder@[i].contains_key(
                    n,
                ) implies match #[trigger] self.ctx.scope_builder@[i][n] {
                NameId::Func(f) => self.ctx.cur_module.funcs().contains_key(f),
                _ => true,
            } by {
                if i == scopes.len() - 1 && n == param.name@ {
                } else {
                    assert(scopes[i].contains_key(n));
                    assert(self.ctx.scope_builder@[i][n] == scopes[i][n]);
                }
            }
        }
        Ok(())
    }

    /// Binds the parameters of the current function in order.
    pub fn add_params(&mut self, params: &Vec<ParamDecl>) -> (r: Result<(), Error>)
        requires
            old(self).ctx.steady(),
            forall|i: int| 0 <= i < params@.len() ==> (#[trigger] params@[i]).ty.resolved(),
        ensures
            match r {
                Ok(_) => {
                    &&& params_res(old(self).ctx.env(), params@, params@.len()) == Ok::<
                        Env,
                        ErrorShape,
                    >(final(self).ctx.env())
                    &&& old(self).ctx.cur().params@.len() == 0 ==> final(self).ctx.scope_builder@
                        == with_params(old(self).ctx.scope_builder@, params@, params@.len())
                    &&& final(self).ctx.steady()
                    &&& final(self).ctx.framed(&old(self).ctx)
                    &&& final(self).ctx.cur_bb == old(self).ctx.cur_bb
                    &&& final(self).ctx.loop_targets@ == old(self).ctx.loop_targets@
                    &&& final(self).ctx.scope_builder@.len() == old(self).ctx.scope_builder@.len()
                    &&& final(self).ctx.scope_builder@.drop_last() == old(
                        self,
                    ).ctx.scope_builder@.drop_last()
                    &&& final(self).ctx.cur().blocks() == old(self).ctx.cur().blocks()
                    &&& final(self).ctx.cur().insts() == old(self).ctx.cur().insts()
                    &&& final(self).ctx.cur().params@.len() == old(self).ctx.cur().params@.len()
                        + params@.len()
                },
                Err(err) => params_res(old(self).ctx.env(), params@, params@.len()) == Err::<
                    Env,
                    ErrorShape,
                >(err@),
            },
            final(self).ctx.within(&old(self).ctx, 0, 0),
    {
        let ghost env = self.ctx.env();
        let mut i: usize = 0;
        while i < params.len()
            invariant
                i <= params@.len(),
                env == old(self).ctx.env(),
                forall|j: int| 0 <= j < params@.len() ==> (#[trigger] params@[j]).ty.resolved(),
                params_res(env, params@, i as nat) == Ok::<Env, ErrorShape>(self.ctx.env()),
                self.ctx.steady(),
                self.ctx.framed(&old(self).ctx),
                self.ctx.cur_bb == old(self).ctx.cur_bb,
                self.ctx.loop_targets@ == old(self).ctx.loop_targets@,
                self.ctx.scope_builder@.len() == old(self).ctx.scope_builder@.len(),
                self.ctx.scope_builder@.drop_last() == old(self).ctx.scope_builder@.drop_last(),
                self.ctx.cur().blocks() == old(self).ctx.cur().blocks(),
                self.ctx.cur().insts() == old(self).ctx.cur().insts(),
                self.ctx.cur().params@.len() == old(self).ctx.cur().params@.len() + i,
                self.ctx.within(&old(self).ctx, 0, 0),
                old(self).ctx.cur().params@.len() == 0 ==> self.ctx.scope_builder@ == with_params(
                    old(self).ctx.scope_builder@,
                    params@,
                    i as nat,
                ),
            decreases params@.len() - i,
        {
            let ghost mid = self.ctx;
            match self.add_param(&params[i]) {
                Ok(_) => {},
                Err(err) => {
                    proof {
                        lemma_params_err_found(env, params@, i as nat, params@.len());
                    }
                    return Err(err);
                },
            }
            proof {
                lemma_framed_twice(&old(self).ctx, &mid, &self.ctx);
            }
            i += 1;
        }
        Ok(())
    }

    /// Lowers a global: declares it in the module, with its initial value if
    /// it has one, and binds its name in the innermost scope.
    pub fn lower_global(&mut self, g: &GlobalDecl) -> (r: Result<(), Error>)
        requires
            old(self).ctx.settled(),
            g.checked(),
        ensures
            match r {
                Ok(_) => {
                    &&& global_res(old(self).ctx.env(), g) == Ok::<Env, ErrorShape>(
                        final(self).ctx.env(),
                    )
                    &&& final(self).ctx.settled()
                    &&& final(self).ctx.cur_module.funcs() == old(self).ctx.cur_module.funcs()
                    &&& exists|id: GlobalId|
                        {
                            &&& !old(self).ctx.cur_module.globals().contains_key(id)
                            &&& final(self).ctx.cur_module.globals().dom() == old(
                                self,
                            ).ctx.cur_module.globals().dom().insert(id)
                            &&& (#[trigger] final(self).ctx.cur_module.globals()[id]).name@
                                == g.name@
                            &&& final(self).ctx.cur_module.globals()[id].ty@ == g.ty.ir_shape()
                            &&& lookup(final(self).ctx.scope_builder@, g.name@) == Some(
                                NameId::Global(id),
                            )
                        }
                },
                Err(err) => global_res(old(self).ctx.env(), g) == Err::<Env, ErrorShape>(err@) || (
                err@ == ErrorShape::NoCause && final(self).ctx.exhausted()),
            },
            r is Ok ==> global_added(final(self).ctx.cur_module, old(self).ctx.cur_module, g),
            final(self).ctx.counted(&old(self).ctx, 0, 1),
            final(self).ctx.out_of_room() == old(self).ctx.out_of_room(),
            ({
                &&& global_res(old(self).ctx.env(), g) is Ok
                &&& !old(self).ctx.out_of_room()
                &&& old(self).ctx.cur_module.funcs().dom().len() < ARENA_LIMIT
                &&& old(self).ctx.cur_module.globals().dom().len() + 1 < ARENA_LIMIT
            }) ==> r is Ok,
    {
        proof {
            lemma_env_steps(
                self.ctx.scope_builder@,
                self.ctx.cur_module.funcs(),
                g.name@,
                NameId::Global(arbitrary()),
            );
        }
        if self.ctx.scope_builder.scopes[self.ctx.scope_builder.scopes.len() - 1].find(
            g.name.as_str(),
        ).is_some() {
            return Err(Error::DuplicateName(g.name.clone()));
        }
        if !self.ctx.cur_module.has_room_for_global() {
            return Err(Error::NoCause);
        }
        let init = match &g.init {
            Some(lit) => Some(Constant::of_literal(lit)),
            None => None,
        };
        let global = Global::new(g.name.as_str(), IrTy::of_ast(&g.ty), init);
        let id = self.ctx.build_global(global);
        self.ctx.scope_builder.insert(g.name.as_str(), NameId::Global(id));
        proof {
            let scopes = old(self).ctx.scope_builder@;
            lemma_env_steps(scopes, self.ctx.cur_module.funcs(), g.name@, NameId::Global(id));
            assert(self.ctx.cur_module.globals().dom() =~= old(
                self,
            ).ctx.cur_module.globals().dom().insert(id));
            assert forall|i: int, n: Seq<char>|
                0 <= i < self.ctx.scope_builder@.len() && self.ctx.scope_builder@[i].contains_key(
                    n,
                ) implies match #[trigger] self.ctx.scope_builder@[i][n] {
                NameId::Func(f) => self.ctx.cur_module.funcs().contains_key(f),
                _ => true,
            } by {
                if i == scopes.len() - 1 && n == g.name@ {
                } else {
                    assert(scopes[i].contains_key(n));
                    assert(self.ctx.scope_builder@[i][n] == scopes[i][n]);
                }
            }
            assert(self.ctx.scope_builder@.last().contains_key(g.name@));
            assert(self.ctx.scope_builder@.last()[g.name@] == NameId::Global(id));
            assert(lookup(self.ctx.scope_builder@, g.name@) == Some(NameId::Global(id)));
            assert(self.ctx.cur_module.globals()[id].name@ == g.name@);
            assert(self.ctx.all_sealed());
        }
        Ok(())
    }

    /// Lowers a function. The function is declared in the module with the
    /// type that its declaration gives, and its name is bound in the
    /// innermost scope before anything else, so that the body can call it.
    /// A function without a body is a builtin and gets no block. Otherwise
    /// the body is lowered into an entry block, in one scope with the
    /// parameters, and a block that the body leaves open ends in a return.
    pub fn lower_func(&mut self, f: &FuncDecl) -> (r: Result<(), Error>)
        requires
            old(self).ctx.settled(),
            f.checked(),
        ensures
            match r {
                Ok(_) => {
                    &&& func_res(old(self).ctx.env(), f) == Ok::<Env, ErrorShape>(
                        final(self).ctx.env(),
                    )
                    &&& final(self).ctx.settled()
                    &&& final(self).ctx.scope_builder@.len() == old(self).ctx.scope_builder@.len()
                    &&& final(self).ctx.cur_module.globals() == old(self).ctx.cur_module.globals()
                    &&& exists|id: FuncId|
                        {
                            &&& !old(self).ctx.cur_module.funcs().contains_key(id)
                            &&& final(self).ctx.cur_module.funcs().dom() == old(
                                self,
                            ).ctx.cur_module.funcs().dom().insert(id)
                            &&& (forall|g: FuncId|
                                old(self).ctx.cur_module.funcs().contains_key(g) ==> final(self).ctx.cur_module.funcs()[g] == old(self).ctx.cur_module.funcs()[g])
                            &&& (#[trigger] final(self).ctx.cur_module.funcs()[id]).name@
                                == f.name@
                            &&& final(self).ctx.cur_module.funcs()[id].ty@ == f.ty_shape()
                            &&& final(self).ctx.cur_module.funcs()[id].is_builtin == (f.body is None)
                            &&& final(self).ctx.cur_module.funcs()[id].params@.len() == if f.body is Some {
                                f.params@.len()
                            } else {
                                0
                            }
                            &&& lookup(final(self).ctx.scope_builder@, f.name@) == Some(
                                NameId::Func(id),
                            )
                        }
                },
                Err(err) => func_res(old(self).ctx.env(), f) == Err::<Env, ErrorShape>(err@) || (
                err@ == ErrorShape::NoCause && final(self).ctx.exhausted()),
            },
            r is Ok ==> func_added(final(self).ctx.cur_module, old(self).ctx.cur_module, f),
            final(self).ctx.counted(&old(self).ctx, 1, 0),
            f.fits() && !old(self).ctx.out_of_room() ==> !final(self).ctx.out_of_room(),
            ({
                &&& func_res(old(self).ctx.env(), f) is Ok
                &&& f.fits()
                &&& !old(self).ctx.out_of_room()
                &&& old(self).ctx.cur_module.funcs().dom().len() + 1 < ARENA_LIMIT
                &&& old(self).ctx.cur_module.globals().dom().len() < ARENA_LIMIT
            }) ==> r is Ok,
    {
        let ghost env = self.ctx.env();
        let ghost scopes = self.ctx.scope_builder@;
        let ghost s0 = self.ctx;
        proof {
            lemma_env_steps(scopes, self.ctx.cur_module.funcs(), f.name@, NameId::Func(arbitrary()));
        }
        if self.ctx.scope_builder.scopes[self.ctx.scope_builder.scopes.len() - 1].find(
            f.name.as_str(),
        ).is_some() {
            return Err(Error::DuplicateName(f.name.clone()));
        }
        if !self.ctx.cur_module.has_room_for_func() {
            return Err(Error::NoCause);
        }
        let ty = IrTy::Func(
            Box::new(FuncTy { ret_ty: IrTy::of_ast(&f.ret_ty), params_ty: param_tys(&f.params) }),
        );
        proof {
            assert(ty@->Func_1 =~= f.ty_shape()->Func_1);
        }
        let id = self.ctx.build_func(Func::new(f.name.as_str(), ty, f.body.is_none()));
        let ghost s1 = self.ctx;
        self.ctx.scope_builder.insert(f.name.as_str(), NameId::Func(id));
        let ghost s2 = self.ctx;
        let ghost declared = inserted(env, f.name@, Binding::Func(f.params.len()));
        proof {
            lemma_env_stable(scopes, s0.cur_module.funcs(), s1.cur_module.funcs());
            lemma_env_steps(scopes, s1.cur_module.funcs(), f.name@, NameId::Func(id));
            assert(s2.env() == declared);
            assert(s2.scope_builder@.drop_last() =~= scopes.drop_last());
            assert(s2.cur_module.funcs().dom() =~= s0.cur_module.funcs().dom().insert(id));
            assert forall|i: int, n: Seq<char>|
                0 <= i < s2.scope_builder@.len() && s2.scope_builder@[i].contains_key(
                    n,
                ) implies match #[trigger] s2.scope_builder@[i][n] {
                NameId::Func(g) => s2.cur_module.funcs().contains_key(g),
                _ => true,
            } by {
                if i == scopes.len() - 1 && n == f.name@ {
                } else {
                    assert(scopes[i].contains_key(n));
                    assert(s2.scope_builder@[i][n] == scopes[i][n]);
                }
            }
            assert(s2.scope_builder@.last().contains_key(f.name@));
            assert(s2.scope_builder@.last()[f.name@] == NameId::Func(id));
            assert(lookup(s2.scope_builder@, f.name@) == Some(NameId::Func(id)));
            assert(s2.all_sealed()) by {
                assert forall|g: FuncId, bb: BBId|
                    s2.cur_module.funcs().contains_key(g) && (
                    #[trigger] s2.cur_module.funcs()[g].blocks().contains_key(
                        bb,
                    )) implies s2.cur_module.funcs()[g].sealed(bb) by {
                    if g != id {
                        assert(s0.cur_module.funcs()[g].blocks().contains_key(bb));
                    }
                }
            }
        }
        let body = match &f.body {
            None => {
                proof {
                    assert(seen(scopes) && func_runs(s2.cur_module.funcs()[id], f, scopes));
                }
                return Ok(());
            },
            Some(stmts) => stmts,
        };
        self.ctx.set_cur_func(id);
        let room = match self.ctx.cur_module.get_func(id) {
            Some(func) => func.has_room_for_block(),
            None => false,
        };
        if !room {
            return Err(Error::NoCause);
        }
        let entry = self.ctx.build_bb();
        self.ctx.set_cur_bb(entry);
        let ghost s3 = self.ctx;
        proof {
            assert(s3.cur_module.funcs().dom() =~= s2.cur_module.funcs().dom());
            assert(s3.cur().blocks().dom() =~= set![entry]);
            assert(s3.cur().open_blocks() =~= set![entry]);
            assert forall|i: int, n: Seq<char>|
                0 <= i < s3.scope_builder@.len() && s3.scope_builder@[i].contains_key(
                    n,
                ) implies match #[trigger] s3.scope_builder@[i][n] {
                NameId::Func(g) => s3.cur_module.funcs().contains_key(g),
                _ => true,
            } by {
                assert(s2.scope_builder@[i].contains_key(n));
            }
            lemma_env_stable(s2.scope_builder@, s2.cur_module.funcs(), s3.cur_module.funcs());
        }
        self.enter_scope();
        let ghost s4 = self.ctx;
        match self.add_params(&f.params) {
            Ok(_) => {},
            Err(err) => {
                return Err(err);
            },
        }
        let ghost s5 = self.ctx;
        proof {
            assert(s5.cur().open_blocks() =~= set![entry]);
        }
        match self.lower_stmts(body) {
            Ok(_) => {},
            Err(err) => {
                return Err(err);
            },
        }
        let ghost s6 = self.ctx;
        if !self.cur_is_terminated() {
            match self.emit(InstKind::Ret { returned: None }, IrTy::Void) {
                Ok(_) => {
                    proof {
                        lemma_grown_extends(&s6, &self.ctx);
                        lemma_runs_list_kept(
                            s6.cur(),
                            self.ctx.cur(),
                            s5.loop_targets@,
                            body,
                            body@.len(),
                            s5.place(),
                            s6.place(),
                        );
                    }
                },
                Err(err) => {
                    return Err(err);
                },
            }
        }
        let ghost s7 = self.ctx;
        self.leave_scope();
        proof {
            let made = self.ctx.cur();
            let outer = s2.scope_builder@;
            assert(s5.loop_targets@ =~= Seq::<BCTarget>::empty());
            assert(s3.cur().code(entry).len() == 0);
            assert(s5.cur().code(entry).len() == 0);
            assert(s3.cur().params@.len() == 0);
            assert(s4.scope_builder@ == pushed(outer));
            assert(s5.place() == (Place {
                bb: entry,
                at: 0,
                scopes: with_params(pushed(outer), f.params@, f.params@.len()),
            }));
            assert(made.first_block == Some(entry));
            assert(here(s6.place()) && body_ends(made, f, outer, entry, s6.place()));
            assert(seen(outer) && func_runs(made, f, outer));
            lemma_framed_twice(&s3, &s5, &s6);
            lemma_framed_twice(&s3, &s6, &s7);
            assert(self.ctx.scope_builder@ =~= s2.scope_builder@);
            lemma_grown_env(&s3, &self.ctx, s2.scope_builder@);
            assert(s7.cur().open_blocks() =~= Set::<BBId>::empty());
            assert(self.ctx.all_sealed()) by {
                assert forall|g: FuncId, bb: BBId|
                    self.ctx.cur_module.funcs().contains_key(g) && (
                    #[trigger] self.ctx.cur_module.funcs()[g].blocks().contains_key(
                        bb,
                    )) implies self.ctx.cur_module.funcs()[g].sealed(bb) by {
                    if g != id {
                        assert(s3.cur_module.funcs()[g] == s2.cur_module.funcs()[g]);
                        assert(self.ctx.cur_module.funcs()[g] == s3.cur_module.funcs()[g]);
                        assert(s2.cur_module.funcs()[g].blocks().contains_key(bb));
                    } else {
                        assert(!s7.cur().open_blocks().contains(bb));
                        assert(s7.cur().tidy(bb));
                    }
                }
            }
            assert(self.ctx.cur_module.funcs().dom() =~= s0.cur_module.funcs().dom().insert(id));
            assert(self.ctx.settled());
        }
        Ok(())
    }

    /// Lowers a top-level declaration.
    pub fn lower_item(&mut self, item: &Item) -> (r: Result<(), Error>)
        requires
            old(self).ctx.settled(),
            item.checked(),
        ensures
            match r {
                Ok(_) => {
                    &&& item_res(old(self).ctx.env(), item) == Ok::<Env, ErrorShape>(
                        final(self).ctx.env(),
                    )
                    &&& final(self).ctx.settled()
                },
                Err(err) => item_res(old(self).ctx.env(), item) == Err::<Env, ErrorShape>(err@) || (
                err@ == ErrorShape::NoCause && final(self).ctx.exhausted()),
            },
            r is Ok ==> added(final(self).ctx.cur_module, old(self).ctx.cur_module, item),
            final(self).ctx.counted(&old(self).ctx, 1, 1),
            (match item {
                Item::Func(f) => f.fits(),
                Item::Global(_) => true,
            }) && !old(self).ctx.out_of_room() ==> !final(self).ctx.out_of_room(),
    {
        match item {
            Item::Func(f) => self.lower_func(f),
            Item::Global(g) => self.lower_global(g),
        }
    }

    /// Builds the module of a program: opens the outermost scope and lowers
    /// the declarations in order, up to the first error. On success every
    /// basic block of every function ends in exactly one terminator, which is
    /// its last instruction.
    pub fn visit(&mut self, program: &Program) -> (r: Result<(), Error>)
        requires
            old(self).ctx.wf(),
            old(self).ctx.names_known(),
            old(self).ctx.loop_targets@.len() == 0,
            old(self).ctx.all_sealed(),
            forall|f: FuncId|
                old(self).ctx.cur_module.funcs().contains_key(f) ==> (
                #[trigger] old(self).ctx.cur_module.funcs()[f]).ty is Func,
            program.checked(),
        ensures
            match r {
                Ok(_) => {
                    &&& items_res(pushed(old(self).ctx.env()), program.items@, program.items@.len())
                        == Ok::<Env, ErrorShape>(final(self).ctx.env())
                    &&& final(self).ctx.settled()
                    &&& keeps(final(self).ctx.cur_module, old(self).ctx.cur_module)
                    &&& lists(
                        final(self).ctx.cur_module,
                        program.items@,
                        program.items@.len(),
                        old(self).ctx.cur_module.func_order@.len(),
                        old(self).ctx.cur_module.global_order@.len(),
                    )
                },
                Err(err) => items_res(
                    pushed(old(self).ctx.env()),
                    program.items@,
                    program.items@.len(),
                ) == Err::<Env, ErrorShape>(err@) || (err@ == ErrorShape::NoCause && final(self).ctx.exhausted()),
            },
            ({
                &&& items_res(pushed(old(self).ctx.env()), program.items@, program.items@.len()) is Ok
                &&& program.fits()
                &&& !old(self).ctx.out_of_room()
                &&& old(self).ctx.cur_module.funcs().dom().len() + program.items@.len()
                    < ARENA_LIMIT
                &&& old(self).ctx.cur_module.globals().dom().len() + program.items@.len()
                    < ARENA_LIMIT
            }) ==> r is Ok,
    {
        self.ctx.scope_builder.push_scope();
        proof {
            let scopes = old(self).ctx.scope_builder@;
            lemma_env_steps(scopes, self.ctx.cur_module.funcs(), Seq::empty(), arbitrary());
            assert forall|i: int, n: Seq<char>|
                0 <= i < self.ctx.scope_builder@.len() && self.ctx.scope_builder@[i].contains_key(
                    n,
                ) implies match #[trigger] self.ctx.scope_builder@[i][n] {
                NameId::Func(f) => self.ctx.cur_module.funcs().contains_key(f),
                _ => true,
            } by {
                assert(scopes[i].contains_key(n));
                assert(self.ctx.scope_builder@[i][n] == scopes[i][n]);
            }
        }
        let ghost env = self.ctx.env();
        let mut i: usize = 0;
        while i < program.items.len()
            invariant
                i <= program.items@.len(),
                program.checked(),
                env == pushed(old(self).ctx.env()),
                items_res(env, program.items@, i as nat) == Ok::<Env, ErrorShape>(self.ctx.env()),
                self.ctx.settled(),
                old(self).ctx.wf(),
                keeps(self.ctx.cur_module, old(self).ctx.cur_module),
                lists(
                    self.ctx.cur_module,
                    program.items@,
                    i as nat,
                    old(self).ctx.cur_module.func_order@.len(),
                    old(self).ctx.cur_module.global_order@.len(),
                ),
                self.ctx.counted(&old(self).ctx, i as nat, i as nat),
                program.fits() && !old(self).ctx.out_of_room() ==> !self.ctx.out_of_room(),
            decreases program.items@.len() - i,
        {
            let ghost before = self.ctx.cur_module;
            match self.lower_item(&program.items[i]) {
                Ok(_) => {},
                Err(err) => {
                    proof {
                        lemma_items_err_found(env, program.items@, i as nat, program.items@.len());
                    }
                    return Err(err);
                },
            }
            proof {
                let m = self.ctx.cur_module;
                let items = program.items@;
                let fb = old(self).ctx.cur_module.func_order@.len();
                let gb = old(self).ctx.cur_module.global_order@.len();
                assert forall|k: int| 0 <= k < i + 1 implies #[trigger] placed(
                    m,
                    items,
                    k,
                    fb,
                    gb,
                ) by {
                    if k < i {
                        assert(placed(before, items, k, fb, gb));
                        match items[k] {
                            Item::Func(_) => {
                                let at = fb + func_count(items, k as nat);
                                assert(before.funcs().contains_key(before.func_order@[at as int]));
                                assert(m.func_order@[at as int] == before.func_order@[at as int]);
                            },
                            Item::Global(_) => {
                                let at = gb + global_count(items, k as nat);
                                assert(before.globals().contains_key(
                                    before.global_order@[at as int],
                                ));
                                assert(m.global_order@[at as int] == before.global_order@[at as int]);
                            },
                        }
                    }
                }
            }
            i += 1;
        }
        Ok(())
    }
}

/// How many of the first `n` declarations declare a function.
pub open spec fn func_count(items: Seq<Item>, n: nat) -> nat
    decreases n,
{
    if n == 0 || n > items.len() {
        0
    } else {
        func_count(items, (n - 1) as nat) + if items[n - 1] is Func {
            1nat
        } else {
            0nat
        }
    }
}

/// How many of the first `n` declarations declare a global.
pub open spec fn global_count(items: Seq<Item>, n: nat) -> nat
    decreases n,
{
    if n == 0 || n > items.len() {
        0
    } else {
        global_count(items, (n - 1) as nat) + if items[n - 1] is Global {
            1nat
        } else {
            0nat
        }
    }
}

/// A function of the module is the one that a declaration declares: it has
/// the name and the type of the declaration, is a builtin exactly if the
/// declaration has no body, and holds the code of the body, if there is one,
/// lowered in some scopes.
pub open spec fn func_made(made: Func, f: &FuncDecl) -> bool {
    &&& made.name@ == f.name@
    &&& made.ty@ == f.ty_shape()
    &&& made.is_builtin == (f.body is None)
    &&& exists|scopes: Scopes| #[trigger] seen(scopes) && func_runs(made, f, scopes)
}

/// A global of the module is the one that a declaration declares: it has
/// the name, the type and the initial value of the declaration.
pub open spec fn global_made(made: Global, g: &GlobalDecl) -> bool {
    &&& made.name@ == g.name@
    &&& made.ty@ == g.ty.ir_shape()
    &&& match (made.init, g.init) {
        (Some(c), Some(lit)) => c@ == lit.const_shape(),
        (None, None) => true,
        _ => false,
    }
}

/// A module keeps what another one holds: every function and every global
/// of `pre`, unchanged.
pub open spec fn keeps(m: Module, pre: Module) -> bool {
    &&& (forall|id: FuncId|
        #![trigger pre.funcs().contains_key(id)]
        pre.funcs().contains_key(id) ==> m.funcs().contains_key(id) && m.funcs()[id]
            == pre.funcs()[id])
    &&& (forall|id: GlobalId|
        #![trigger pre.globals().contains_key(id)]
        pre.globals().contains_key(id) ==> m.globals().contains_key(id) && m.globals()[id]
            == pre.globals()[id])
}

/// A module is `pre` with the function of a declaration added behind the
/// other functions.
pub open spec fn func_added(m: Module, pre: Module, f: &FuncDecl) -> bool {
    &&& keeps(m, pre)
    &&& m.global_order@ == pre.global_order@
    &&& m.func_order@.len() > 0
    &&& m.func_order@ == pre.func_order@.push(m.func_order@.last())
    &&& m.funcs().contains_key(m.func_order@.last())
    &&& func_made(m.funcs()[m.func_order@.last()], f)
}

/// A module is `pre` with the global of a declaration added behind the
/// other globals.
pub open spec fn global_added(m: Module, pre: Module, g: &GlobalDecl) -> bool {
    &&& keeps(m, pre)
    &&& m.func_order@ == pre.func_order@
    &&& m.global_order@.len() > 0
    &&& m.global_order@ == pre.global_order@.push(m.global_order@.last())
    &&& m.globals().contains_key(m.global_order@.last())
    &&& global_made(m.globals()[m.global_order@.last()], g)
}

/// A module is `pre` with what a declaration declares added.
pub open spec fn added(m: Module, pre: Module, item: &Item) -> bool {
    match item {
        Item::Func(f) => func_added(m, pre, f),
        Item::Global(g) => global_added(m, pre, g),
    }
}

/// The declaration at an index has its function or global in the module, at
/// its place among the functions or globals: behind those that were there
/// before and those of the declarations before it.
pub open spec fn placed(m: Module, items: Seq<Item>, k: int, funcs: nat, globals: nat) -> bool {
    match items[k] {
        Item::Func(f) => {
            let at = funcs + func_count(items, k as nat);
            at < m.func_order@.len() && m.funcs().contains_key(m.func_order@[at as int])
                && func_made(m.funcs()[m.func_order@[at as int]], &f)
        },
        Item::Global(g) => {
            let at = globals + global_count(items, k as nat);
            at < m.global_order@.len() && m.globals().contains_key(m.global_order@[at as int])
                && global_made(m.globals()[m.global_order@[at as int]], &g)
        },
    }
}

/// The module holds, behind so many functions and globals that were there
/// before, one function for each function declaration and one global for
/// each global declaration among the first `n`, in the order of declaration,
/// and nothing else.
pub open spec fn lists(m: Module, items: Seq<Item>, n: nat, funcs: nat, globals: nat) -> bool {
    &&& m.func_order@.len() == funcs + func_count(items, n)
    &&& m.global_order@.len() == globals + global_count(items, n)
    &&& (forall|k: int| 0 <= k < n ==> #[trigger] placed(m, items, k, funcs, globals))
}

/// Builds the module of a program from nothing. A program that is not as
/// type checking leaves it is refused without a specific cause. Otherwise the
/// build ends in the error that the rules give for the program, or without a
/// specific cause where an arena was exhausted, which does not happen to a
/// program that fits. It succeeds otherwise, with a module that holds one
/// function for each function declaration and one global for each global
/// declaration, in the order of declaration, and whose every basic block ends
/// in exactly one terminator, its last instruction.
pub fn build_module(program: &Program) -> (r: Result<Module, Error>)
    ensures
        match r {
            Ok(module) => {
                &&& program.checked()
                &&& items_res(pushed(Seq::empty()), program.items@, program.items@.len()) is Ok
                &&& lists(module, program.items@, program.items@.len(), 0, 0)
                &&& module.wf()
                &&& forall|f: FuncId, bb: BBId|
                    module.funcs().contains_key(f) && (#[trigger] module.funcs()[f].blocks().contains_key(
                        bb,
                    )) ==> module.funcs()[f].sealed(bb)
            },
            Err(err) => err@ == ErrorShape::NoCause || (program.checked() && items_res(
                pushed(Seq::empty()),
                program.items@,
                program.items@.len(),
            ) == Err::<Env, ErrorShape>(err@)),
        },
        !program.checked() ==> r is Err,
        program.checked() && items_res(pushed(Seq::empty()), program.items@, program.items@.len()) is Err
            ==> r is Err,
        program.checked() && items_res(pushed(Seq::empty()), program.items@, program.items@.len()) is Ok
            && program.fits() ==> r is Ok,
{
    if !program.is_checked() {
        return Err(Error::NoCause);
    }
    let mut builder = IrBuilder::new();
    proof {
        assert(builder.ctx.env() =~= Seq::<Map<Seq<char>, Binding>>::empty());
        assert(builder.ctx.cur_module.funcs().dom() =~= Set::<FuncId>::empty());
        assert(builder.ctx.cur_module.globals().dom() =~= Set::<GlobalId>::empty());
    }
    match builder.visit(program) {
        Ok(_) => Ok(builder.ctx.cur_module),
        Err(err) => Err(err),
    }
}

/// Converts the types of the parameters of a declaration, in order.
pub fn param_tys(params: &Vec<ParamDecl>) -> (r: Vec<IrTy>)
    requires
        forall|i: int| 0 <= i < params@.len() ==> (#[trigger] params@[i]).ty.resolved(),
    ensures
        r@.len() == params@.len(),
        forall|i: int| 0 <= i < params@.len() ==> r@[i]@ == params@[i].ty.ir_shape(),
{
    let mut r: Vec<IrTy> = Vec::new();
    let mut i: usize = 0;
    while i < params.len()
        invariant
            i <= params@.len(),
            r@.len() == i,
            forall|j: int| 0 <= j < params@.len() ==> (#[trigger] params@[j]).ty.resolved(),
            forall|j: int| 0 <= j < i ==> r@[j]@ == params@[j].ty.ir_shape(),
        decreases params@.len() - i,
    {
        r.push(IrTy::of_ast(&params[i].ty));
        i += 1;
    }
    r
}

/// An error of a top-level declaration is the error of the program.
pub proof fn lemma_items_err_found(env: Env, items: Seq<Item>, i: nat, n: nat)
    requires
        i < n <= items.len(),
        items_res(env, items, i) is Ok,
    ensures
        item_res(items_res(env, items, i)->Ok_0, &items[i as int]) is Err ==> items_res(
            env,
            items,
            n,
        ) == item_res(items_res(env, items, i)->Ok_0, &items[i as int]),
    decreases n,
{
    if n > i + 1 {
        lemma_items_err_found(env, items, i, (n - 1) as nat);
    }
}

/// A parameter whose name is taken is the error of the parameter list.
pub proof fn lemma_params_err_found(env: Env, params: Seq<ParamDecl>, i: nat, n: nat)
    requires
        i < n <= params.len(),
        params_res(env, params, i) is Ok,
        insert_fails(params_res(env, params, i)->Ok_0, params[i as int].name@),
    ensures
        params_res(env, params, n) == Err::<Env, ErrorShape>(
            ErrorShape::DuplicateName(params[i as int].name@),
        ),
    decreases n,
{
    if n > i + 1 {
        lemma_params_err_found(env, params, i, (n - 1) as nat);
    }
}

/// Behind a statement that control does not go on behind, the rest of a
/// list adds nothing.
pub proof fn lemma_stmts_skipped(env: Env, stmts: &Vec<Stmt>, i: nat, n: nat)
    requires
        i <= n <= stmts@.len(),
        !all_fall_through(stmts, i),
        stmts_res(env, stmts, i) is Ok,
    ensures
        stmts_res(env, stmts, n) == stmts_res(env, stmts, i),
        !all_fall_through(stmts, n),
    decreases n,
{
    if n > i {
        lemma_stmts_skipped(env, stmts, i, (n - 1) as nat);
    }
}

/// An error of a statement that is reached is the error of the list.
pub proof fn lemma_stmts_err_found(env: Env, stmts: &Vec<Stmt>, i: nat, n: nat)
    requires
        i < n <= stmts@.len(),
        stmts_res(env, stmts, i) is Ok,
        all_fall_through(stmts, i),
    ensures
        stmt_res(stmts_res(env, stmts, i)->Ok_0, &stmts@[i as int]) is Err ==> stmts_res(
            env,
            stmts,
            n,
        ) == stmt_res(stmts_res(env, stmts, i)->Ok_0, &stmts@[i as int]),
    decreases n,
{
    if n > i + 1 {
        lemma_stmts_err_found(env, stmts, i, (n - 1) as nat);
    }
}

/// An error among the first arguments of a call is the error of the call's
/// arguments.
pub proof fn lemma_args_err_found(env: Env, args: &Vec<Expr>, i: nat, n: nat)
    requires
        i < n <= args@.len(),
        args_err(env, args, i) is None,
    ensures
        expr_err(env, &args@[i as int]) is Some ==> args_err(env, args, n) == expr_err(
            env,
            &args@[i as int],
        ),
    decreases n,
{
    if n > i + 1 {
        lemma_args_err_found(env, args, i, (n - 1) as nat);
    }
}

} // verus!
