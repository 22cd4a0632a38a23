//! What the code of a statement is: where in a function its instructions
//! stand, and which instructions they are.
//!
//! Lowering appends to the block under the cursor and creates blocks. A
//! place is a position in a block together with the scopes that are open
//! there. The code of a statement runs from one place to another: from where
//! the cursor stood before the statement to where it stands behind it.

use crate::compiler::ir::arena::{BBId, InstId, ParamId};
use crate::compiler::ir::value::func::Func;
use crate::compiler::ir::value::inst::{Inst, InstKind};
use crate::compiler::ir::value::ty::TyShape;
use crate::compiler::ir::value::value::Operand;
use crate::compiler::irbuilder::builder::lemma_denotes_kept;
use crate::compiler::irbuilder::context::{inserted, lookup, pushed, BCTarget, NameId};
use crate::compiler::irbuilder::rules::all_fall_through;
use crate::compiler::syntax::ast::{AstTy, Expr, FuncDecl, ParamDecl, Stmt};
use vstd::prelude::*;

verus! {

/// The scopes that are open, innermost last.
pub type Scopes = Seq<Map<Seq<char>, NameId>>;

/// A position in a block, with the scopes that are open there.
pub struct Place {
    pub bb: BBId,
    pub at: int,
    pub scopes: Scopes,
}

/// Holds of every operand. Quantifiers over operands are instantiated by it.
pub open spec fn stands(op: Operand) -> bool {
    true
}

/// Holds of every place. Quantifiers over places are instantiated by it.
pub open spec fn here(p: Place) -> bool {
    true
}

/// Whether an operand stands for an expression: a constant for a literal, the
/// parameter for a parameter, a load from its place for a variable, and for
/// an operation or a call an instruction of that kind and type whose
/// operands stand for the operands of the expression, in order.
pub open spec fn denotes(insts: Map<InstId, Inst>, scopes: Scopes, op: Operand, e: &Expr) -> bool
    decreases e, 0nat,
{
    match e {
        Expr::Literal(lit) => op matches Operand::Const(c) && c@ == lit.const_shape(),
        Expr::Var { name, ty } => match lookup(scopes, name@) {
            Some(NameId::Param(p)) => op == Operand::Param(p),
            Some(NameId::Inst(slot)) => op matches Operand::Inst(i) && insts.contains_key(i)
                && insts[i].kind == (InstKind::Load { addr: Operand::Inst(slot) }) && insts[i].ty@
                == ty.ir_shape(),
            Some(NameId::Global(g)) => op matches Operand::Inst(i) && insts.contains_key(i)
                && insts[i].kind == (InstKind::Load { addr: Operand::Global(g) }) && insts[i].ty@
                == ty.ir_shape(),
            _ => false,
        },
        Expr::Unary { op: o, operand, ty } => op matches Operand::Inst(i) && insts.contains_key(i)
            && insts[i].ty@ == ty.ir_shape() && match insts[i].kind {
            InstKind::Unary { op: made, operand: x } => made == o && denotes(
                insts,
                scopes,
                x,
                operand,
            ),
            _ => false,
        },
        Expr::Binary { op: o, lhs, rhs, ty } => op matches Operand::Inst(i) && insts.contains_key(i)
            && insts[i].ty@ == ty.ir_shape() && match insts[i].kind {
            InstKind::Binary { op: made, lhs: x, rhs: y } => made == o && denotes(
                insts,
                scopes,
                x,
                lhs,
            ) && denotes(insts, scopes, y, rhs),
            _ => false,
        },
        Expr::Call { callee, args, ty } => op matches Operand::Inst(i) && insts.contains_key(i)
            && insts[i].ty@ == ty.ir_shape() && match insts[i].kind {
            InstKind::Call { func, args: passed } => lookup(scopes, callee@) == Some(
                NameId::Func(func),
            ) && passed@.len() == args@.len() && denote_all(
                insts,
                scopes,
                passed@,
                args,
                args@.len(),
            ),
            _ => false,
        },
    }
}

/// Whether the first `n` operands of a list stand for the first `n`
/// expressions of another, one for one.
pub open spec fn denote_all(
    insts: Map<InstId, Inst>,
    scopes: Scopes,
    ops: Seq<Operand>,
    args: &Vec<Expr>,
    n: nat,
) -> bool
    decreases args, n,
{
    if n == 0 || n > args@.len() || n > ops.len() {
        true
    } else {
        denote_all(insts, scopes, ops, args, (n - 1) as nat) && denotes(
            insts,
            scopes,
            ops[n - 1],
            &args@[n - 1],
        )
    }
}

impl Func {
    /// `self` holds what `pre` holds and has only grown at the ends of open
    /// blocks: no instruction is removed or changed, every block keeps its
    /// instructions in front of what it gains, and a block that ended in a
    /// terminator is as it was.
    pub open spec fn extends(&self, pre: &Func) -> bool {
        &&& (forall|i: InstId|
            #![trigger pre.insts().contains_key(i)]
            pre.insts().contains_key(i) ==> self.insts().contains_key(i) && self.insts()[i]
                == pre.insts()[i])
        &&& (forall|bb: BBId|
            #![trigger pre.blocks().contains_key(bb)]
            pre.blocks().contains_key(bb) ==> self.blocks().contains_key(bb) && pre.code(
                bb,
            ).is_prefix_of(self.code(bb)) && (pre.terminated(bb) ==> self.code(bb) == pre.code(
                bb,
            )))
    }

    /// The instruction at a position of a block, where there is one.
    pub open spec fn has_at(&self, bb: BBId, at: int) -> bool {
        &&& self.blocks().contains_key(bb)
        &&& 0 <= at < self.code(bb).len()
        &&& self.insts().contains_key(self.code(bb)[at])
    }

    /// The instruction at a position of a block.
    pub open spec fn at(&self, bb: BBId, at: int) -> Inst {
        self.insts()[self.code(bb)[at]]
    }

    /// At a position stands a jump to a block.
    pub open spec fn jump_at(&self, bb: BBId, at: int, target: BBId) -> bool {
        self.has_at(bb, at) && self.at(bb, at).kind == (InstKind::Jump { target })
    }

    /// At a position stands an instruction that reserves storage for a
    /// value of a type.
    pub open spec fn alloca_at(&self, bb: BBId, at: int, ty: &AstTy) -> bool {
        self.has_at(bb, at) && self.at(bb, at).kind is Alloca && self.at(bb, at).ty@
            == TyShape::Ptr(Box::new(ty.ir_shape()))
    }

    /// At a position stands a store, into a place, of an operand that stands
    /// for an expression.
    pub open spec fn store_at(&self, scopes: Scopes, bb: BBId, at: int, into: Operand, e: &Expr) -> bool {
        self.has_at(bb, at) && match self.at(bb, at).kind {
            InstKind::Store { addr, value } => addr == into && denotes(
                self.insts(),
                scopes,
                value,
                e,
            ),
            _ => false,
        }
    }

    /// At a position stands a return, of an operand that stands for the
    /// expression, or of nothing where there is no expression.
    pub open spec fn ret_at(&self, scopes: Scopes, bb: BBId, at: int, value: &Option<Expr>) -> bool {
        self.has_at(bb, at) && match self.at(bb, at).kind {
            InstKind::Ret { returned } => match value {
                Some(e) => returned is Some && denotes(self.insts(), scopes, returned->0, e),
                None => returned is None,
            },
            _ => false,
        }
    }

    /// The terminator of a block that ends in one.
    pub open spec fn terminator(&self, bb: BBId) -> InstKind {
        self.insts()[self.code(bb).last()].kind
    }
}

/// The code of a declaration: storage for the variable and, where there is
/// an initial value, a store of it into the storage, as the last
/// instructions before the end; the name is bound to the storage.
pub open spec fn decl_runs(
    f: Func,
    name: Seq<char>,
    ty: &AstTy,
    init: &Option<Expr>,
    from: Place,
    to: Place,
) -> bool {
    let slot_at = match init {
        Some(_) => to.at - 2,
        None => to.at - 1,
    };
    &&& to.bb == from.bb
    &&& from.at <= slot_at
    &&& f.alloca_at(from.bb, slot_at, ty)
    &&& to.scopes == inserted(from.scopes, name, NameId::Inst(f.code(from.bb)[slot_at]))
    &&& match init {
        Some(e) => f.store_at(
            from.scopes,
            from.bb,
            to.at - 1,
            Operand::Inst(f.code(from.bb)[slot_at]),
            e,
        ),
        None => true,
    }
}

/// The code of an assignment: it ends in a store, into the place that the
/// name is bound to, of an operand that stands for the value.
pub open spec fn assign_runs(f: Func, name: Seq<char>, value: &Expr, from: Place, to: Place) -> bool {
    &&& to.bb == from.bb
    &&& from.at < to.at
    &&& to.scopes == from.scopes
    &&& match lookup(from.scopes, name) {
        Some(NameId::Inst(slot)) => f.store_at(
            from.scopes,
            from.bb,
            to.at - 1,
            Operand::Inst(slot),
            value,
        ),
        Some(NameId::Global(g)) => f.store_at(
            from.scopes,
            from.bb,
            to.at - 1,
            Operand::Global(g),
            value,
        ),
        _ => false,
    }
}

/// The code of `return`: it ends in a return of the value.
pub open spec fn return_runs(f: Func, value: &Option<Expr>, from: Place, to: Place) -> bool {
    &&& to.bb == from.bb
    &&& from.at < to.at
    &&& to.scopes == from.scopes
    &&& f.ret_at(from.scopes, from.bb, to.at - 1, value)
}

/// The code of `break` or `continue`: one jump to a block.
pub open spec fn jump_runs(f: Func, target: BBId, from: Place, to: Place) -> bool {
    &&& to.bb == from.bb
    &&& to.at == from.at + 1
    &&& to.scopes == from.scopes
    &&& f.jump_at(from.bb, from.at, target)
}

/// The code of an expression that stands as a statement: instructions in
/// the block, among them one for the expression if it is an operation or a
/// call.
pub open spec fn expr_runs(f: Func, e: &Expr, from: Place, to: Place) -> bool {
    &&& to.bb == from.bb
    &&& from.at <= to.at
    &&& to.scopes == from.scopes
    &&& f.blocks().contains_key(from.bb)
    &&& to.at <= f.code(from.bb).len()
    &&& exists|op: Operand| #[trigger] stands(op) && denotes(f.insts(), from.scopes, op, e)
}

/// The code of a statement runs from one place to another.
///
/// `break` and `continue` jump to the exit and to the condition of the
/// innermost of the loops that are open, `targets`. A block runs its
/// statements in a scope of its own. For `if` and `while` see `if_runs` and
/// `while_runs`.
pub open spec fn runs(f: Func, targets: Seq<BCTarget>, s: &Stmt, from: Place, to: Place) -> bool
    decreases s, 1nat,
{
    match s {
        Stmt::Decl { name, ty, init } => decl_runs(f, name@, ty, init, from, to),
        Stmt::Assign { name, value } => assign_runs(f, name@, value, from, to),
        Stmt::Expr(e) => expr_runs(f, e, from, to),
        Stmt::Block(stmts) => exists|end: Place| #[trigger]
            here(end) && block_ends(f, targets, stmts, from, to, end),
        Stmt::If { .. } => if_runs(f, targets, s, from, to),
        Stmt::While { .. } => while_runs(f, targets, s, from, to),
        Stmt::Break => targets.len() > 0 && jump_runs(f, targets.last().break_target, from, to),
        Stmt::Continue => targets.len() > 0 && jump_runs(
            f,
            targets.last().continue_target,
            from,
            to,
        ),
        Stmt::Return(value) => return_runs(f, value, from, to),
    }
}

/// The code of the first `n` statements of a list runs from one place to
/// another: each statement from where the one before it ended. Statements
/// behind one that control does not go on behind have no code.
pub open spec fn runs_list(
    f: Func,
    targets: Seq<BCTarget>,
    stmts: &Vec<Stmt>,
    n: nat,
    from: Place,
    to: Place,
) -> bool
    decreases stmts, n, 1nat,
{
    if n == 0 || n > stmts@.len() {
        to == from
    } else {
        exists|mid: Place| #[trigger] here(mid) && list_steps(f, targets, stmts, n, from, mid, to)
    }
}

/// The first `n` statements of a list run up to `mid`, and the last of them
/// from `mid` on.
pub open spec fn list_steps(
    f: Func,
    targets: Seq<BCTarget>,
    stmts: &Vec<Stmt>,
    n: nat,
    from: Place,
    mid: Place,
    to: Place,
) -> bool
    decreases stmts, n, 0nat,
{
    0 < n <= stmts@.len() && runs_list(f, targets, stmts, (n - 1) as nat, from, mid)
        && if all_fall_through(stmts, (n - 1) as nat) {
        runs(f, targets, &stmts@[n - 1], mid, to)
    } else {
        to == mid
    }
}

/// The statements of a block run in a scope of their own up to `end`, which
/// is where the block ends.
pub open spec fn block_ends(
    f: Func,
    targets: Seq<BCTarget>,
    stmts: &Vec<Stmt>,
    from: Place,
    to: Place,
    end: Place,
) -> bool
    decreases stmts, stmts@.len(), 2nat,
{
    &&& to.scopes == from.scopes
    &&& end.bb == to.bb
    &&& end.at == to.at
    &&& runs_list(
        f,
        targets,
        stmts,
        stmts@.len(),
        (Place { bb: from.bb, at: from.at, scopes: pushed(from.scopes) }),
        end,
    )
}

/// The statements of an arm run from the start of its block up to `end`,
/// where a jump to `join` follows if control goes on.
pub open spec fn arm_ends(
    f: Func,
    targets: Seq<BCTarget>,
    stmts: &Vec<Stmt>,
    scopes: Scopes,
    bb: BBId,
    join: BBId,
    end: Place,
) -> bool
    decreases stmts, stmts@.len(), 2nat,
{
    runs_list(f, targets, stmts, stmts@.len(), (Place { bb, at: 0, scopes: pushed(scopes) }), end)
        && (all_fall_through(stmts, stmts@.len()) ==> f.jump_at(end.bb, end.at, join))
}

/// The code of an arm or a loop body stands at the start of a block: its
/// statements run from there in a scope of their own, and where control goes
/// on behind them a jump to the block `join` follows.
pub open spec fn arm_runs(
    f: Func,
    targets: Seq<BCTarget>,
    stmts: &Vec<Stmt>,
    scopes: Scopes,
    bb: BBId,
    join: BBId,
) -> bool
    decreases stmts, stmts@.len(), 3nat,
{
    exists|end: Place| #[trigger] here(end) && arm_ends(f, targets, stmts, scopes, bb, join, end)
}

/// The code of an `if` statement. The block that the statement starts in
/// ends in a branch on an operand that stands for the condition. The code
/// of the first arm stands in the block that the branch names first, and
/// that of the second arm in the block that it names second; each arm that
/// control goes on behind ends in a jump to the merge block. Without a
/// second arm the branch names the merge block second. The statement ends at
/// the start of the merge block.
pub open spec fn if_runs(f: Func, targets: Seq<BCTarget>, s: &Stmt, from: Place, to: Place) -> bool
    decreases s, 0nat,
{
    match s {
        Stmt::If { cond, then_arm, else_arm } => {
            &&& to.scopes == from.scopes
            &&& to.at == 0
            &&& f.blocks().contains_key(to.bb)
            &&& f.blocks().contains_key(from.bb)
            &&& f.terminated(from.bb)
            &&& from.at < f.code(from.bb).len()
            &&& f.insts().contains_key(f.code(from.bb).last())
            &&& match f.terminator(from.bb) {
                InstKind::Branch { cond: c, then_bb, else_bb } => {
                    &&& denotes(f.insts(), from.scopes, c, cond)
                    &&& then_bb != else_bb
                    &&& then_bb != to.bb
                    &&& arm_runs(f, targets, then_arm, from.scopes, then_bb, to.bb)
                    &&& match else_arm {
                        Some(arm) => else_bb != to.bb && arm_runs(
                            f,
                            targets,
                            arm,
                            from.scopes,
                            else_bb,
                            to.bb,
                        ),
                        None => else_bb == to.bb,
                    }
                },
                _ => false,
            }
        },
        _ => false,
    }
}

/// The code of a `while` statement. The block that the statement starts in
/// ends in a jump to the condition block, which ends in a branch, on an
/// operand that stands for the condition, to the body block and to the exit
/// block. The code of the body stands in the body block, with the exit
/// block as the target of `break` and the condition block as the target of
/// `continue`, and where control goes on behind it a jump back to the
/// condition block follows. The statement ends at the start of the exit
/// block.
pub open spec fn while_runs(f: Func, targets: Seq<BCTarget>, s: &Stmt, from: Place, to: Place) -> bool
    decreases s, 0nat,
{
    match s {
        Stmt::While { cond, body } => {
            &&& to.scopes == from.scopes
            &&& to.at == 0
            &&& f.blocks().contains_key(to.bb)
            &&& f.blocks().contains_key(from.bb)
            &&& f.terminated(from.bb)
            &&& from.at < f.code(from.bb).len()
            &&& f.insts().contains_key(f.code(from.bb).last())
            &&& match f.terminator(from.bb) {
                InstKind::Jump { target: again } => {
                    &&& again != to.bb
                    &&& f.blocks().contains_key(again)
                    &&& f.terminated(again)
                    &&& f.insts().contains_key(f.code(again).last())
                    &&& match f.terminator(again) {
                        InstKind::Branch { cond: c, then_bb, else_bb } => {
                            &&& denotes(f.insts(), from.scopes, c, cond)
                            &&& else_bb == to.bb
                            &&& then_bb != to.bb
                            &&& then_bb != again
                            &&& arm_runs(
                                f,
                                targets.push(
                                    (BCTarget { break_target: to.bb, continue_target: again }),
                                ),
                                body,
                                from.scopes,
                                then_bb,
                                again,
                            )
                        },
                        _ => false,
                    }
                },
                _ => false,
            }
        },
        _ => false,
    }
}

/// Holds of every stack of scopes. Quantifiers over scopes are instantiated
/// by it.
pub open spec fn seen(scopes: Scopes) -> bool {
    true
}

/// The scopes after the first `n` parameters of a function were bound in the
/// innermost scope, each to its position.
pub open spec fn with_params(scopes: Scopes, params: Seq<ParamDecl>, n: nat) -> Scopes
    decreases n,
{
    if n == 0 || n > params.len() {
        scopes
    } else {
        inserted(
            with_params(scopes, params, (n - 1) as nat),
            params[n - 1].name@,
            NameId::Param(ParamId { position: (n - 1) as usize }),
        )
    }
}

/// The code of a function body stands in the function: its statements run
/// from the start of the entry block, in one scope with the parameters and
/// inside no loop, and where control goes on behind them a return without a
/// value follows. `scopes` are the scopes around the function, in which its
/// own name is bound.
pub open spec fn func_runs(made: Func, f: &FuncDecl, scopes: Scopes) -> bool {
    match (f.body, made.first_block) {
        (Some(body), Some(entry)) => exists|end: Place| #[trigger]
            here(end) && body_ends(made, f, scopes, entry, end),
        (None, None) => true,
        _ => false,
    }
}

/// The statements of a function body run from the start of the entry block
/// up to `end`, where a return follows if control goes on.
pub open spec fn body_ends(made: Func, f: &FuncDecl, scopes: Scopes, entry: BBId, end: Place) -> bool {
    let inner = with_params(pushed(scopes), f.params@, f.params@.len());
    f.body is Some && runs_list(
        made,
        Seq::empty(),
        &f.body->0,
        f.body->0@.len(),
        (Place { bb: entry, at: 0, scopes: inner }),
        end,
    ) && (all_fall_through(&f.body->0, f.body->0@.len()) ==> made.ret_at(
        inner,
        end.bb,
        end.at,
        &None,
    ))
}

/// What extends an extension extends the first.
pub proof fn lemma_extends_twice(a: Func, b: Func, c: Func)
    requires
        a.wf(),
        b.extends(&a),
        c.extends(&b),
    ensures
        c.extends(&a),
{
    assert forall|i: InstId| a.insts().contains_key(i) implies c.insts().contains_key(i)
        && c.insts()[i] == a.insts()[i] by {
        assert(b.insts().contains_key(i));
    }
    assert forall|bb: BBId| a.blocks().contains_key(bb) implies c.blocks().contains_key(bb)
        && a.code(bb).is_prefix_of(c.code(bb)) && (a.terminated(bb) ==> c.code(bb) == a.code(
        bb,
    )) by {
        assert(b.blocks().contains_key(bb));
        if a.terminated(bb) {
            assert(a.insts().contains_key(a.code(bb)[a.code(bb).len() - 1]));
            assert(b.terminated(bb));
        }
    }
}

/// An instruction stays where it stands.
pub proof fn lemma_at_kept(f: Func, g: Func, bb: BBId, at: int)
    requires
        g.extends(&f),
        f.has_at(bb, at),
    ensures
        g.has_at(bb, at),
        g.code(bb)[at] == f.code(bb)[at],
        g.at(bb, at) == f.at(bb, at),
{
    assert(f.blocks().contains_key(bb));
    assert(f.insts().contains_key(f.code(bb)[at]));
}

/// A block that ends in a terminator keeps it.
pub proof fn lemma_terminator_kept(f: Func, g: Func, bb: BBId)
    requires
        g.extends(&f),
        f.blocks().contains_key(bb),
        f.terminated(bb),
        f.insts().contains_key(f.code(bb).last()),
    ensures
        g.blocks().contains_key(bb),
        g.terminated(bb),
        g.code(bb) == f.code(bb),
        g.insts().contains_key(g.code(bb).last()),
        g.terminator(bb) == f.terminator(bb),
{
}

/// The code of a statement stays what it is while the function only grows.
pub proof fn lemma_runs_kept(
    f: Func,
    g: Func,
    targets: Seq<BCTarget>,
    s: &Stmt,
    from: Place,
    to: Place,
)
    requires
        g.extends(&f),
        runs(f, targets, s, from, to),
    ensures
        runs(g, targets, s, from, to),
    decreases s, 1nat,
{
    match s {
        Stmt::Decl { name, ty, init } => {
            let slot_at = match init {
                Some(_) => to.at - 2,
                None => to.at - 1,
            };
            lemma_at_kept(f, g, from.bb, slot_at);
            match init {
                Some(e) => {
                    lemma_at_kept(f, g, from.bb, to.at - 1);
                    match f.at(from.bb, to.at - 1).kind {
                        InstKind::Store { value, .. } => {
                            lemma_denotes_kept(f.insts(), g.insts(), from.scopes, value, e);
                        },
                        _ => {},
                    }
                },
                None => {},
            }
        },
        Stmt::Assign { name, value } => {
            lemma_at_kept(f, g, from.bb, to.at - 1);
            match f.at(from.bb, to.at - 1).kind {
                InstKind::Store { value: v, .. } => {
                    lemma_denotes_kept(f.insts(), g.insts(), from.scopes, v, value);
                },
                _ => {},
            }
        },
        Stmt::Expr(e) => {
            let op = choose|op: Operand| #[trigger] stands(op) && denotes(f.insts(), from.scopes, op, e);
            lemma_denotes_kept(f.insts(), g.insts(), from.scopes, op, e);
            assert(stands(op) && denotes(g.insts(), from.scopes, op, e));
            assert(f.blocks().contains_key(from.bb));
        },
        Stmt::Block(stmts) => {
            let start = Place { bb: from.bb, at: from.at, scopes: pushed(from.scopes) };
            let end = choose|end: Place| #[trigger]
                here(end) && block_ends(f, targets, stmts, from, to, end);
            lemma_runs_list_kept(f, g, targets, stmts, stmts@.len(), start, end);
            assert(here(end) && block_ends(g, targets, stmts, from, to, end));
        },
        Stmt::If { cond, then_arm, else_arm } => {
            lemma_terminator_kept(f, g, from.bb);
            assert(f.blocks().contains_key(to.bb));
            match f.terminator(from.bb) {
                InstKind::Branch { cond: c, then_bb, else_bb } => {
                    lemma_denotes_kept(f.insts(), g.insts(), from.scopes, c, cond);
                    lemma_arm_kept(f, g, targets, then_arm, from.scopes, then_bb, to.bb);
                    match else_arm {
                        Some(arm) => {
                            lemma_arm_kept(f, g, targets, arm, from.scopes, else_bb, to.bb);
                        },
                        None => {},
                    }
                },
                _ => {},
            }
        },
        Stmt::While { cond, body } => {
            lemma_terminator_kept(f, g, from.bb);
            assert(f.blocks().contains_key(to.bb));
            match f.terminator(from.bb) {
                InstKind::Jump { target: again } => {
                    lemma_terminator_kept(f, g, again);
                    match f.terminator(again) {
                        InstKind::Branch { cond: c, then_bb, else_bb } => {
                            lemma_denotes_kept(f.insts(), g.insts(), from.scopes, c, cond);
                            lemma_arm_kept(
                                f,
                                g,
                                targets.push(
                                    (BCTarget { break_target: to.bb, continue_target: again }),
                                ),
                                body,
                                from.scopes,
                                then_bb,
                                again,
                            );
                        },
                        _ => {},
                    }
                },
                _ => {},
            }
        },
        Stmt::Break => {
            lemma_at_kept(f, g, from.bb, from.at);
        },
        Stmt::Continue => {
            lemma_at_kept(f, g, from.bb, from.at);
        },
        Stmt::Return(value) => {
            lemma_at_kept(f, g, from.bb, to.at - 1);
            match f.at(from.bb, to.at - 1).kind {
                InstKind::Ret { returned } => {
                    match value {
                        Some(e) => {
                            lemma_denotes_kept(f.insts(), g.insts(), from.scopes, returned->0, e);
                        },
                        None => {},
                    }
                },
                _ => {},
            }
        },
    }
}

/// The code of a list of statements stays what it is while the function
/// only grows.
pub proof fn lemma_runs_list_kept(
    f: Func,
    g: Func,
    targets: Seq<BCTarget>,
    stmts: &Vec<Stmt>,
    n: nat,
    from: Place,
    to: Place,
)
    requires
        g.extends(&f),
        runs_list(f, targets, stmts, n, from, to),
    ensures
        runs_list(g, targets, stmts, n, from, to),
    decreases stmts, n, 0nat,
{
    if n == 0 || n > stmts@.len() {
    } else {
        let mid = choose|mid: Place| #[trigger]
            here(mid) && list_steps(f, targets, stmts, n, from, mid, to);
        lemma_runs_list_kept(f, g, targets, stmts, (n - 1) as nat, from, mid);
        if all_fall_through(stmts, (n - 1) as nat) {
            lemma_runs_kept(f, g, targets, &stmts@[n - 1], mid, to);
        }
        assert(here(mid) && list_steps(g, targets, stmts, n, from, mid, to));
    }
}

/// The code of an arm stays what it is while the function only grows.
pub proof fn lemma_arm_kept(
    f: Func,
    g: Func,
    targets: Seq<BCTarget>,
    stmts: &Vec<Stmt>,
    scopes: Scopes,
    bb: BBId,
    join: BBId,
)
    requires
        g.extends(&f),
        arm_runs(f, targets, stmts, scopes, bb, join),
    ensures
        arm_runs(g, targets, stmts, scopes, bb, join),
    decreases stmts, stmts@.len(), 1nat,
{
    let start = Place { bb, at: 0, scopes: pushed(scopes) };
    let end = choose|end: Place| #[trigger]
        here(end) && arm_ends(f, targets, stmts, scopes, bb, join, end);
    lemma_runs_list_kept(f, g, targets, stmts, stmts@.len(), start, end);
    if all_fall_through(stmts, stmts@.len()) {
        lemma_at_kept(f, g, end.bb, end.at);
    }
    assert(here(end) && arm_ends(g, targets, stmts, scopes, bb, join, end));
}

/// Behind a statement that control does not go on behind, the rest of a
/// list has no code.
pub proof fn lemma_runs_list_skipped(
    f: Func,
    targets: Seq<BCTarget>,
    stmts: &Vec<Stmt>,
    i: nat,
    n: nat,
    from: Place,
    to: Place,
)
    requires
        i <= n <= stmts@.len(),
        !all_fall_through(stmts, i),
        runs_list(f, targets, stmts, i, from, to),
    ensures
        runs_list(f, targets, stmts, n, from, to),
    decreases n,
{
    if n > i {
        lemma_runs_list_skipped(f, targets, stmts, i, (n - 1) as nat, from, to);
        assert(!all_fall_through(stmts, (n - 1) as nat)) by {
            lemma_stays_ended(stmts, i, (n - 1) as nat);
        }
        assert(here(to) && list_steps(f, targets, stmts, n, from, to, to));
    }
}

/// Once control does not go on, it does not go on behind more statements.
pub proof fn lemma_stays_ended(stmts: &Vec<Stmt>, i: nat, n: nat)
    requires
        i <= n <= stmts@.len(),
        !all_fall_through(stmts, i),
    ensures
        !all_fall_through(stmts, n),
    decreases n,
{
    if n > i {
        lemma_stays_ended(stmts, i, (n - 1) as nat);
    }
}

} // verus!
