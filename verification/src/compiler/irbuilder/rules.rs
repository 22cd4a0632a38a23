//! The rules that decide which error a build ends in, stated on the syntax
//! tree and on what each visible name stands for.
//!
//! Which keys the arenas hand out has no part in these rules: of a binding
//! only its kind counts, and of a function the number of its parameters.

use crate::compiler::ir::arena::{FuncId, ARENA_LIMIT};
use crate::compiler::ir::value::func::Func;
use crate::compiler::ir::value::ty::{TyShape, BOOL_BITS};
use crate::compiler::irbuilder::context::{
    insert_fails, inserted, lookup, popped, pushed, NameId,
};
use crate::compiler::irbuilder::err::ErrorShape;
use crate::compiler::syntax::ast::{Expr, FuncDecl, GlobalDecl, Item, ParamDecl, Program, Stmt};
use vstd::prelude::*;

verus! {

/// What a name stands for, as far as the rules care.
pub enum Binding {
    /// A place that holds a value: a local variable or a global.
    Slot,
    /// A parameter: a value without a place.
    Param,
    /// A function that declares this many parameters.
    Func(usize),
}

/// The names in scope, innermost scope last, each with what it stands for.
pub type Env = Seq<Map<Seq<char>, Binding>>;

/// How many parameters the type of a function declares; none when the type
/// is no function type.
pub open spec fn declared_arity(f: Func) -> usize {
    if f.ty is Func {
        f.ty->Func_0.params_ty.len()
    } else {
        0
    }
}

/// What a binding stands for.
pub open spec fn binding_of(id: NameId, funcs: Map<FuncId, Func>) -> Binding {
    match id {
        NameId::Inst(_) => Binding::Slot,
        NameId::Global(_) => Binding::Slot,
        NameId::Param(_) => Binding::Param,
        NameId::Func(f) => Binding::Func(declared_arity(funcs[f])),
    }
}

/// What the names of a scope stack stand for.
pub open spec fn env_of(scopes: Seq<Map<Seq<char>, NameId>>, funcs: Map<FuncId, Func>) -> Env {
    Seq::new(
        scopes.len(),
        |i: int| scopes[i].map_values(|id: NameId| binding_of(id, funcs)),
    )
}

/// The first of two errors in evaluation order.
pub open spec fn first_of(a: Option<ErrorShape>, b: Option<ErrorShape>) -> Option<ErrorShape> {
    if a is Some {
        a
    } else {
        b
    }
}

/// The error that reading a variable ends in, if any: a name that is bound
/// nowhere is unknown, and a function is no value.
pub open spec fn var_err(env: Env, name: Seq<char>) -> Option<ErrorShape> {
    match lookup(env, name) {
        None => Some(ErrorShape::UnknownName(name)),
        Some(Binding::Func(_)) => Some(ErrorShape::NoCause),
        Some(_) => None,
    }
}

/// The error that the target of a call ends in, if any, before any argument
/// is looked at: the name must be bound, to a function, which must declare
/// as many parameters as the call passes arguments.
pub open spec fn callee_err(env: Env, callee: Seq<char>, passed: usize) -> Option<ErrorShape> {
    match lookup(env, callee) {
        None => Some(ErrorShape::UnknownName(callee)),
        Some(Binding::Func(declared)) => if declared != passed {
            Some(ErrorShape::WrongParamLength { expected: declared, found: passed })
        } else {
            None
        },
        Some(_) => Some(ErrorShape::ExpectedFunction(callee)),
    }
}

/// The error that an expression ends in, if any: the first one met when the
/// expression is walked from left to right.
pub open spec fn expr_err(env: Env, e: &Expr) -> Option<ErrorShape>
    decreases e, 0nat,
{
    match e {
        Expr::Literal(_) => None,
        Expr::Var { name, .. } => var_err(env, name@),
        Expr::Unary { operand, .. } => expr_err(env, operand),
        Expr::Binary { lhs, rhs, .. } => first_of(expr_err(env, lhs), expr_err(env, rhs)),
        Expr::Call { callee, args, .. } => first_of(
            callee_err(env, callee@, args.len()),
            args_err(env, args, args@.len()),
        ),
    }
}

/// The error that the first `n` arguments of a call end in, if any.
pub open spec fn args_err(env: Env, args: &Vec<Expr>, n: nat) -> Option<ErrorShape>
    decreases args, n,
{
    if n == 0 || n > args@.len() {
        None
    } else {
        first_of(args_err(env, args, (n - 1) as nat), expr_err(env, &args@[n - 1]))
    }
}

/// The error of a condition whose type is not boolean.
pub open spec fn cond_err(cond: &Expr) -> Option<ErrorShape> {
    if cond.ty_of().ir_shape() == TyShape::Int(BOOL_BITS) {
        None
    } else {
        Some(
            ErrorShape::TypeMismatch {
                expected: TyShape::Int(BOOL_BITS),
                found: cond.ty_of().ir_shape(),
            },
        )
    }
}

/// The error that storing into a name ends in, if any: the name must be
/// bound to a place. A parameter has a value of the stored type where a
/// pointer to it is asked for.
pub open spec fn target_err(env: Env, name: Seq<char>, value: &Expr) -> Option<ErrorShape> {
    match lookup(env, name) {
        None => Some(ErrorShape::UnknownName(name)),
        Some(Binding::Slot) => None,
        Some(Binding::Param) => Some(
            ErrorShape::TypeMismatch {
                expected: TyShape::Ptr(Box::new(value.ty_of().ir_shape())),
                found: value.ty_of().ir_shape(),
            },
        ),
        Some(Binding::Func(_)) => Some(ErrorShape::NoCause),
    }
}

/// Whether control goes on behind a statement: not behind `break`,
/// `continue` or `return`, nor behind a block that one of them ends.
pub open spec fn falls_through(s: &Stmt) -> bool
    decreases s, 0nat,
{
    match s {
        Stmt::Break | Stmt::Continue | Stmt::Return(_) => false,
        Stmt::Block(stmts) => all_fall_through(stmts, stmts@.len()),
        _ => true,
    }
}

/// Whether control goes on behind the first `n` statements of a list.
pub open spec fn all_fall_through(stmts: &Vec<Stmt>, n: nat) -> bool
    decreases stmts, n,
{
    if n == 0 || n > stmts@.len() {
        true
    } else {
        all_fall_through(stmts, (n - 1) as nat) && falls_through(&stmts@[n - 1])
    }
}

/// What a statement leaves behind: the names in scope after it, or the
/// first error that it ends in.
pub open spec fn stmt_res(env: Env, s: &Stmt) -> Result<Env, ErrorShape>
    decreases s, 0nat,
{
    match s {
        Stmt::Decl { name, init, .. } => {
            let e = match init {
                Some(init) => expr_err(env, init),
                None => None,
            };
            if e is Some {
                Err(e->0)
            } else if insert_fails(env, name@) {
                Err(ErrorShape::DuplicateName(name@))
            } else {
                Ok(inserted(env, name@, Binding::Slot))
            }
        },
        Stmt::Assign { name, value } => {
            let e = first_of(expr_err(env, value), target_err(env, name@, value));
            if e is Some {
                Err(e->0)
            } else {
                Ok(env)
            }
        },
        Stmt::Expr(e) => {
            let e = expr_err(env, e);
            if e is Some {
                Err(e->0)
            } else {
                Ok(env)
            }
        },
        Stmt::Block(stmts) => match stmts_res(pushed(env), stmts, stmts@.len()) {
            Err(e) => Err(e),
            Ok(_) => Ok(env),
        },
        Stmt::If { cond, then_arm, else_arm } => {
            let e = first_of(expr_err(env, cond), cond_err(cond));
            if e is Some {
                Err(e->0)
            } else {
                match stmts_res(pushed(env), then_arm, then_arm@.len()) {
                    Err(e) => Err(e),
                    Ok(_) => match else_arm {
                        Some(arm) => match stmts_res(pushed(env), arm, arm@.len()) {
                            Err(e) => Err(e),
                            Ok(_) => Ok(env),
                        },
                        None => Ok(env),
                    },
                }
            }
        },
        Stmt::While { cond, body } => {
            let e = first_of(expr_err(env, cond), cond_err(cond));
            if e is Some {
                Err(e->0)
            } else {
                match stmts_res(pushed(env), body, body@.len()) {
                    Err(e) => Err(e),
                    Ok(_) => Ok(env),
                }
            }
        },
        Stmt::Break => Ok(env),
        Stmt::Continue => Ok(env),
        Stmt::Return(value) => {
            let e = match value {
                Some(v) => expr_err(env, v),
                None => None,
            };
            if e is Some {
                Err(e->0)
            } else {
                Ok(env)
            }
        },
    }
}

/// What the first `n` statements of a list leave behind. Statements behind
/// one that control does not go on behind are not looked at.
pub open spec fn stmts_res(env: Env, stmts: &Vec<Stmt>, n: nat) -> Result<Env, ErrorShape>
    decreases stmts, n,
{
    if n == 0 || n > stmts@.len() {
        Ok(env)
    } else {
        match stmts_res(env, stmts, (n - 1) as nat) {
            Err(e) => Err(e),
            Ok(before) => if all_fall_through(stmts, (n - 1) as nat) {
                stmt_res(before, &stmts@[n - 1])
            } else {
                Ok(before)
            },
        }
    }
}

/// What binding the first `n` parameters of a function leaves behind.
pub open spec fn params_res(env: Env, params: Seq<ParamDecl>, n: nat) -> Result<Env, ErrorShape>
    decreases n,
{
    if n == 0 || n > params.len() {
        Ok(env)
    } else {
        match params_res(env, params, (n - 1) as nat) {
            Err(e) => Err(e),
            Ok(before) => if insert_fails(before, params[n - 1].name@) {
                Err(ErrorShape::DuplicateName(params[n - 1].name@))
            } else {
                Ok(inserted(before, params[n - 1].name@, Binding::Param))
            },
        }
    }
}

/// What a function declaration leaves behind. The name is bound before the
/// body is looked at, so that the function can call itself; the parameters
/// and the statements of the body share one scope.
pub open spec fn func_res(env: Env, f: &FuncDecl) -> Result<Env, ErrorShape> {
    if insert_fails(env, f.name@) {
        Err(ErrorShape::DuplicateName(f.name@))
    } else {
        let declared = inserted(env, f.name@, Binding::Func(f.params.len()));
        match f.body {
            None => Ok(declared),
            Some(body) => match params_res(pushed(declared), f.params@, f.params@.len()) {
                Err(e) => Err(e),
                Ok(inner) => match stmts_res(inner, &body, body@.len()) {
                    Err(e) => Err(e),
                    Ok(_) => Ok(declared),
                },
            },
        }
    }
}

/// What a global declaration leaves behind.
pub open spec fn global_res(env: Env, g: &GlobalDecl) -> Result<Env, ErrorShape> {
    if insert_fails(env, g.name@) {
        Err(ErrorShape::DuplicateName(g.name@))
    } else {
        Ok(inserted(env, g.name@, Binding::Slot))
    }
}

/// What a top-level declaration leaves behind.
pub open spec fn item_res(env: Env, item: &Item) -> Result<Env, ErrorShape> {
    match item {
        Item::Func(f) => func_res(env, f),
        Item::Global(g) => global_res(env, g),
    }
}

/// What the first `n` top-level declarations leave behind.
pub open spec fn items_res(env: Env, items: Seq<Item>, n: nat) -> Result<Env, ErrorShape>
    decreases n,
{
    if n == 0 || n > items.len() {
        Ok(env)
    } else {
        match items_res(env, items, (n - 1) as nat) {
            Err(e) => Err(e),
            Ok(before) => item_res(before, &items[n - 1]),
        }
    }
}

/// A bound on the instructions that lowering an expression makes.
pub open spec fn expr_cost(e: &Expr) -> nat
    decreases e, 0nat,
{
    match e {
        Expr::Literal(_) => 0,
        Expr::Var { .. } => 1,
        Expr::Unary { operand, .. } => 1 + expr_cost(operand),
        Expr::Binary { lhs, rhs, .. } => 1 + expr_cost(lhs) + expr_cost(rhs),
        Expr::Call { args, .. } => 1 + args_cost(args, args@.len()),
    }
}

/// A bound on the instructions that lowering the first `n` arguments of a
/// call makes.
pub open spec fn args_cost(args: &Vec<Expr>, n: nat) -> nat
    decreases args, n,
{
    if n == 0 || n > args@.len() {
        0
    } else {
        args_cost(args, (n - 1) as nat) + expr_cost(&args@[n - 1])
    }
}

/// A bound on the instructions that lowering an expression makes, where
/// there may be none.
pub open spec fn value_cost(value: &Option<Expr>) -> nat {
    match value {
        Some(e) => expr_cost(e),
        None => 0,
    }
}

/// A bound on the instructions that lowering a statement makes.
pub open spec fn stmt_insts(s: &Stmt) -> nat
    decreases s, 0nat,
{
    match s {
        Stmt::Decl { init, .. } => 2 + value_cost(init),
        Stmt::Assign { value, .. } => 1 + expr_cost(value),
        Stmt::Expr(e) => expr_cost(e),
        Stmt::Block(stmts) => stmts_insts(stmts, stmts@.len()),
        Stmt::If { cond, then_arm, else_arm } => expr_cost(cond) + 2 + stmts_insts(
            then_arm,
            then_arm@.len(),
        ) + match else_arm {
            Some(arm) => 1 + stmts_insts(arm, arm@.len()),
            None => 0,
        },
        Stmt::While { cond, body } => expr_cost(cond) + 3 + stmts_insts(body, body@.len()),
        Stmt::Break => 1,
        Stmt::Continue => 1,
        Stmt::Return(value) => 1 + value_cost(value),
    }
}

/// A bound on the instructions that lowering the first `n` statements of a
/// list makes.
pub open spec fn stmts_insts(stmts: &Vec<Stmt>, n: nat) -> nat
    decreases stmts, n,
{
    if n == 0 || n > stmts@.len() {
        0
    } else {
        stmts_insts(stmts, (n - 1) as nat) + stmt_insts(&stmts@[n - 1])
    }
}

/// A bound on the blocks that lowering a statement makes.
pub open spec fn stmt_blocks(s: &Stmt) -> nat
    decreases s, 0nat,
{
    match s {
        Stmt::Block(stmts) => stmts_blocks(stmts, stmts@.len()),
        Stmt::If { then_arm, else_arm, .. } => 3 + stmts_blocks(then_arm, then_arm@.len())
            + match else_arm {
            Some(arm) => stmts_blocks(arm, arm@.len()),
            None => 0,
        },
        Stmt::While { body, .. } => 3 + stmts_blocks(body, body@.len()),
        _ => 0,
    }
}

/// A bound on the blocks that lowering the first `n` statements of a list
/// makes.
pub open spec fn stmts_blocks(stmts: &Vec<Stmt>, n: nat) -> nat
    decreases stmts, n,
{
    if n == 0 || n > stmts@.len() {
        0
    } else {
        stmts_blocks(stmts, (n - 1) as nat) + stmt_blocks(&stmts@[n - 1])
    }
}

impl FuncDecl {
    /// The function is small enough for its arenas: lowering its body makes
    /// fewer instructions and fewer blocks than an arena holds.
    pub open spec fn fits(&self) -> bool {
        match self.body {
            Some(body) => stmts_insts(&body, body@.len()) + 1 < ARENA_LIMIT && stmts_blocks(
                &body,
                body@.len(),
            ) + 1 < ARENA_LIMIT,
            None => true,
        }
    }
}

impl Program {
    /// The program is small enough for the arenas: it has fewer declarations
    /// than an arena holds, and each of its functions fits.
    pub open spec fn fits(&self) -> bool {
        &&& self.items@.len() < ARENA_LIMIT
        &&& (forall|i: int|
            0 <= i < self.items@.len() ==> match #[trigger] self.items@[i] {
                Item::Func(f) => f.fits(),
                Item::Global(_) => true,
            })
    }
}

/// The bound grows with the number of arguments counted.
pub proof fn lemma_args_cost_grows(args: &Vec<Expr>, i: nat, n: nat)
    requires
        i <= n <= args@.len(),
    ensures
        args_cost(args, i) <= args_cost(args, n),
    decreases n,
{
    if i < n {
        lemma_args_cost_grows(args, i, (n - 1) as nat);
    }
}

/// The bounds grow with the number of statements counted.
pub proof fn lemma_stmt_costs_grow(stmts: &Vec<Stmt>, i: nat, n: nat)
    requires
        i <= n <= stmts@.len(),
    ensures
        stmts_insts(stmts, i) <= stmts_insts(stmts, n),
        stmts_blocks(stmts, i) <= stmts_blocks(stmts, n),
    decreases n,
{
    if i < n {
        lemma_stmt_costs_grow(stmts, i, (n - 1) as nat);
    }
}

/// Resolving a name in the scope stack and in what it stands for go
/// together.
pub proof fn lemma_lookup_env(
    scopes: Seq<Map<Seq<char>, NameId>>,
    funcs: Map<FuncId, Func>,
    name: Seq<char>,
)
    ensures
        lookup(env_of(scopes, funcs), name) == match lookup(scopes, name) {
            Some(id) => Some(binding_of(id, funcs)),
            None => None,
        },
    decreases scopes.len(),
{
    if scopes.len() > 0 {
        assert(env_of(scopes, funcs).drop_last() =~= env_of(scopes.drop_last(), funcs));
        lemma_lookup_env(scopes.drop_last(), funcs, name);
    }
}

/// Opening, closing and binding in the scope stack and in what it stands for
/// go together.
pub proof fn lemma_env_steps(
    scopes: Seq<Map<Seq<char>, NameId>>,
    funcs: Map<FuncId, Func>,
    name: Seq<char>,
    id: NameId,
)
    ensures
        env_of(pushed(scopes), funcs) == pushed(env_of(scopes, funcs)),
        env_of(popped(scopes), funcs) == popped(env_of(scopes, funcs)),
        scopes.len() > 0 ==> insert_fails(env_of(scopes, funcs), name) == insert_fails(
            scopes,
            name,
        ),
        scopes.len() > 0 ==> env_of(inserted(scopes, name, id), funcs) == inserted(
            env_of(scopes, funcs),
            name,
            binding_of(id, funcs),
        ),
{
    assert(env_of(pushed(scopes), funcs) =~= pushed(env_of(scopes, funcs))) by {
        assert(Map::<Seq<char>, NameId>::empty().map_values(|id: NameId| binding_of(id, funcs))
            =~= Map::<Seq<char>, Binding>::empty());
    }
    assert(env_of(popped(scopes), funcs) =~= popped(env_of(scopes, funcs)));
    if scopes.len() > 0 {
        let last = scopes.len() - 1;
        assert(env_of(inserted(scopes, name, id), funcs)[last] =~= inserted(
            env_of(scopes, funcs),
            name,
            binding_of(id, funcs),
        )[last]);
        assert(env_of(inserted(scopes, name, id), funcs) =~= inserted(
            env_of(scopes, funcs),
            name,
            binding_of(id, funcs),
        ));
    }
}

/// What the names stand for does not change while the functions keep their
/// types.
pub proof fn lemma_env_stable(
    scopes: Seq<Map<Seq<char>, NameId>>,
    before: Map<FuncId, Func>,
    after: Map<FuncId, Func>,
)
    requires
        forall|f: FuncId| before.contains_key(f) ==> after[f].ty == before[f].ty,
        forall|i: int, name: Seq<char>|
            0 <= i < scopes.len() && scopes[i].contains_key(name) ==> match #[trigger] scopes[i][name] {
                NameId::Func(f) => before.contains_key(f),
                _ => true,
            },
    ensures
        env_of(scopes, after) == env_of(scopes, before),
{
    assert forall|i: int| 0 <= i < scopes.len() implies env_of(scopes, after)[i] == env_of(
        scopes,
        before,
    )[i] by {
        assert forall|name: Seq<char>| scopes[i].contains_key(name) implies binding_of(
            scopes[i][name],
            after,
        ) == binding_of(scopes[i][name], before) by {}
        assert(env_of(scopes, after)[i] =~= env_of(scopes, before)[i]);
    }
    assert(env_of(scopes, after) =~= env_of(scopes, before));
}

/// A name that no open scope binds is unknown, whatever its type.
pub proof fn lemma_unbound_name_is_unknown(env: Env, e: &Expr)
    requires
        *e is Var,
        lookup(env, e->Var_name@) is None,
    ensures
        expr_err(env, e) == Some(ErrorShape::UnknownName(e->Var_name@)),
{
}

/// A call that passes another number of arguments than its target declares
/// ends in an error that gives both numbers, whatever the arguments are.
pub proof fn lemma_wrong_arity(env: Env, e: &Expr, declared: usize)
    requires
        *e is Call,
        lookup(env, e->callee@) == Some(Binding::Func(declared)),
        declared != e->args.len(),
    ensures
        expr_err(env, e) == Some(
            ErrorShape::WrongParamLength { expected: declared, found: e->args.len() },
        ),
{
}

} // verus!
