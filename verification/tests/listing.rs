use racoon::compiler::ir::arena::ParamId;
use racoon::compiler::ir::value::constant::Constant;
use racoon::compiler::ir::value::func::Func;
use racoon::compiler::ir::value::global::Global;
use racoon::compiler::ir::value::inst::{BinaryOp, InstKind, UnaryOp};
use racoon::compiler::ir::value::module::Module;
use racoon::compiler::ir::value::ty::{FuncTy, IrTy};
use racoon::compiler::ir::value::value::Operand;
use racoon::compiler::irbuilder::builder::IrBuilder;
use racoon::compiler::syntax::ast::{
    AstTy, Expr, FuncDecl, GlobalDecl, Item, LiteralExpr, LiteralKind, ParamDecl, Program, Stmt,
};

fn num(x: i32) -> Expr {
    Expr::Literal(LiteralExpr { kind: LiteralKind::Integer(x), ty: AstTy::Int })
}

fn var(name: &str) -> Expr {
    Expr::Var { name: name.to_string(), ty: AstTy::Int }
}

fn listing_of(items: Vec<Item>) -> String {
    let mut builder = IrBuilder::new();
    builder.visit(&Program { items }).unwrap();
    builder.ctx.cur_module.to_string()
}

#[test]
fn empty_module_has_an_empty_listing() {
    assert_eq!(Module::new().to_string(), "");
    assert_eq!(listing_of(vec![]), "");
}

#[test]
fn operands_are_written_by_kind() {
    assert_eq!(Operand::Param(ParamId { position: 3 }).to_string(), "%p3");
    assert_eq!(Operand::Const(Constant::Int(-4)).to_string(), "i32 -4");
}

#[test]
fn globals_show_type_and_initial_value() {
    assert_eq!(Global::new("g", IrTy::Int(32), None).to_string(), "@g = global i32\n");
    assert_eq!(
        Global::new("h", IrTy::Int(32), Some(Constant::Int(7))).to_string(),
        "@h = global i32 = i32 7\n"
    );
}

#[test]
fn builtin_is_one_declare_line() {
    let ty = IrTy::Func(Box::new(FuncTy {
        ret_ty: IrTy::Int(32),
        params_ty: vec![IrTy::Int(32), IrTy::Int(32)],
    }));
    assert_eq!(Func::new("f", ty, true).to_string(), "declare i32 (i32, i32) @f\n");
}

#[test]
fn instructions_show_number_type_and_operands() {
    let ty = IrTy::Func(Box::new(FuncTy { ret_ty: IrTy::Void, params_ty: vec![] }));
    let mut f = Func::new("f", ty, false);
    let a = f.build_bb();
    let b = f.build_bb();
    let slot = f.build_inst_at_end(InstKind::Alloca, IrTy::Ptr(Box::new(IrTy::Int(32))), a);
    let sum = f.build_inst_at_end(
        InstKind::Binary {
            op: BinaryOp::Add,
            lhs: Operand::Inst(slot),
            rhs: Operand::Const(Constant::Int(2)),
        },
        IrTy::Int(32),
        a,
    );
    f.build_inst_at_end(
        InstKind::Unary { op: UnaryOp::Not, operand: Operand::Inst(sum) },
        IrTy::Int(1),
        a,
    );
    f.build_inst_at_end(
        InstKind::Branch { cond: Operand::Inst(sum), then_bb: b, else_bb: a },
        IrTy::Void,
        a,
    );
    f.build_inst_at_end(InstKind::Ret { returned: None }, IrTy::Void, b);
    assert_eq!(
        f.to_string(),
        "define void () @f {\n\
         bb1:\n    %1 = i32* alloca\n    %2 = i32 add %1, i32 2\n    %3 = i1 not %2\n    \
         %4 = void br bb2, bb1 %2\n\
         bb2:\n    %5 = void ret\n\
         }\n"
    );
    assert_eq!(f.block_to_string(b), "bb2:\n    %5 = void ret\n");
}

#[test]
fn a_small_program_is_listed_in_declaration_order() {
    let global = Item::Global(GlobalDecl {
        name: "g".to_string(),
        ty: AstTy::Int,
        init: Some(LiteralExpr { kind: LiteralKind::Integer(7), ty: AstTy::Int }),
    });
    let getint = Item::Func(FuncDecl {
        name: "getint".to_string(),
        ret_ty: AstTy::Int,
        params: vec![],
        body: None,
    });
    let body = vec![
        Stmt::Decl { name: "x".to_string(), ty: AstTy::Int, init: Some(var("a")) },
        Stmt::Assign { name: "g".to_string(), value: var("x") },
        Stmt::Return(Some(Expr::Call {
            callee: "getint".to_string(),
            args: vec![],
            ty: AstTy::Int,
        })),
    ];
    let main = Item::Func(FuncDecl {
        name: "main".to_string(),
        ret_ty: AstTy::Int,
        params: vec![ParamDecl { name: "a".to_string(), ty: AstTy::Int }],
        body: Some(body),
    });
    assert_eq!(
        listing_of(vec![global, getint, main]),
        "@g = global i32 = i32 7\n\
         declare i32 () @getint\n\
         define i32 (i32) @main {\n\
         bb1:\n    \
         %1 = i32* alloca\n    \
         %2 = void store %1, %p0\n    \
         %3 = i32 load %1\n    \
         %4 = void store @g1, %3\n    \
         %5 = i32 call @f1\n    \
         %6 = void ret %5\n\
         }\n"
    );
}

#[test]
fn loop_is_listed_in_layout_order() {
    let cond = Expr::Binary {
        op: BinaryOp::Lt,
        lhs: Box::new(num(1)),
        rhs: Box::new(num(2)),
        ty: AstTy::Bool,
    };
    let main = Item::Func(FuncDecl {
        name: "main".to_string(),
        ret_ty: AstTy::Void,
        params: vec![],
        body: Some(vec![Stmt::While { cond, body: vec![Stmt::Break] }]),
    });
    assert_eq!(
        listing_of(vec![main]),
        "define void () @main {\n\
         bb1:\n    %1 = void jump bb4\n\
         bb4:\n    %2 = i1 lt i32 1, i32 2\n    %3 = void br bb3, bb2 %2\n\
         bb3:\n    %4 = void jump bb2\n\
         bb2:\n    %5 = void ret\n\
         }\n"
    );
}
