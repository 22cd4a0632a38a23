use racoon::compiler::ir::arena::BBId;
use racoon::compiler::ir::value::func::Func;
use racoon::compiler::ir::value::inst::{BinaryOp, InstKind};
use racoon::compiler::ir::value::ty::IrTy;
use racoon::compiler::ir::value::value::Operand;
use racoon::compiler::irbuilder::builder::{build_module, IrBuilder};
use racoon::compiler::irbuilder::err::Error;
use racoon::compiler::syntax::ast::{
    AstTy, Expr, FuncDecl, GlobalDecl, Item, LiteralExpr, LiteralKind, ParamDecl, Program, Stmt,
};

fn num(x: i32) -> Expr {
    Expr::Literal(LiteralExpr { kind: LiteralKind::Integer(x), ty: AstTy::Int })
}

fn var(name: &str) -> Expr {
    Expr::Var { name: name.to_string(), ty: AstTy::Int }
}

fn flag(name: &str) -> Expr {
    Expr::Var { name: name.to_string(), ty: AstTy::Bool }
}

fn less(lhs: Expr, rhs: Expr) -> Expr {
    Expr::Binary { op: BinaryOp::Lt, lhs: Box::new(lhs), rhs: Box::new(rhs), ty: AstTy::Bool }
}

fn call(callee: &str, args: Vec<Expr>) -> Expr {
    Expr::Call { callee: callee.to_string(), args, ty: AstTy::Int }
}

fn decl(name: &str, init: Option<Expr>) -> Stmt {
    Stmt::Decl { name: name.to_string(), ty: AstTy::Int, init }
}

fn decl_flag(name: &str) -> Stmt {
    Stmt::Decl { name: name.to_string(), ty: AstTy::Bool, init: None }
}

fn param(name: &str) -> ParamDecl {
    ParamDecl { name: name.to_string(), ty: AstTy::Int }
}

fn func(name: &str, params: Vec<ParamDecl>, body: Option<Vec<Stmt>>) -> Item {
    Item::Func(FuncDecl { name: name.to_string(), ret_ty: AstTy::Int, params, body })
}

fn build(items: Vec<Item>) -> (IrBuilder, Result<(), Error>) {
    let mut builder = IrBuilder::new();
    let r = builder.visit(&Program { items });
    (builder, r)
}

fn last_func(builder: &IrBuilder) -> &Func {
    let module = &builder.ctx.cur_module;
    let id = *module.func_order.last().unwrap();
    module.get_func(id).unwrap()
}

fn terminator_of(f: &Func, bb: BBId) -> &InstKind {
    let block = f.get_bb(bb).unwrap();
    &f.get_inst(*block.insts.last().unwrap()).unwrap().kind
}

fn assert_all_sealed(f: &Func) {
    for bb in f.layout.iter() {
        let block = f.get_bb(*bb).unwrap();
        assert!(!block.insts.is_empty());
        for (i, inst) in block.insts.iter().enumerate() {
            let kind = &f.get_inst(*inst).unwrap().kind;
            assert_eq!(kind.is_terminator(), i + 1 == block.insts.len());
        }
    }
}

#[test]
fn call_with_too_few_arguments_is_refused() {
    let (_, r) = build(vec![
        func("f", vec![param("a"), param("b")], None),
        func("main", vec![], Some(vec![Stmt::Expr(call("f", vec![num(1)]))])),
    ]);
    assert!(matches!(r, Err(Error::WrongParamLength { expected: 2, found: 1 })));
}

#[test]
fn call_with_matching_arguments_is_lowered() {
    let (builder, r) = build(vec![
        func("f", vec![param("a"), param("b")], None),
        func("main", vec![], Some(vec![Stmt::Expr(call("f", vec![num(1), num(2)]))])),
    ]);
    assert!(r.is_ok());
    let main = last_func(&builder);
    assert_eq!(main.layout.len(), 1);
    let entry = main.get_bb(main.layout[0]).unwrap();
    assert_eq!(entry.insts.len(), 2);
    match &main.get_inst(entry.insts[0]).unwrap().kind {
        InstKind::Call { args, .. } => assert_eq!(args.len(), 2),
        other => panic!("expected a call, found {:?}", other),
    }
    assert!(matches!(terminator_of(main, main.layout[0]), InstKind::Ret { returned: None }));
}

#[test]
fn unknown_identifier_is_reported_by_name() {
    let (_, r) = build(vec![func("main", vec![], Some(vec![Stmt::Expr(var("y"))]))]);
    match r {
        Err(Error::UnknownName(name)) => assert_eq!(name, "y"),
        other => panic!("expected an unknown name, found {:?}", other),
    }
}

#[test]
fn name_of_a_closed_scope_is_unknown() {
    let body = vec![Stmt::Block(vec![decl("x", None)]), Stmt::Expr(var("x"))];
    let (_, r) = build(vec![func("main", vec![], Some(body))]);
    match r {
        Err(Error::UnknownName(name)) => assert_eq!(name, "x"),
        other => panic!("expected an unknown name, found {:?}", other),
    }
}

#[test]
fn second_declaration_in_one_scope_is_a_duplicate() {
    let body = vec![decl("x", None), decl("x", Some(num(1)))];
    let (_, r) = build(vec![func("main", vec![], Some(body))]);
    match r {
        Err(Error::DuplicateName(name)) => assert_eq!(name, "x"),
        other => panic!("expected a duplicate name, found {:?}", other),
    }
}

#[test]
fn inner_scope_may_shadow() {
    let body = vec![decl("x", None), Stmt::Block(vec![decl("x", Some(num(1)))])];
    let (_, r) = build(vec![func("main", vec![], Some(body))]);
    assert!(r.is_ok());
}

#[test]
fn parameter_and_local_share_a_scope() {
    let (_, r) = build(vec![func("main", vec![param("a")], Some(vec![decl("a", None)]))]);
    assert!(matches!(r, Err(Error::DuplicateName(_))));
}

#[test]
fn calling_a_variable_expects_a_function() {
    let body = vec![decl("x", None), Stmt::Expr(call("x", vec![]))];
    let (_, r) = build(vec![func("main", vec![], Some(body))]);
    match r {
        Err(Error::ExpectedFunction(name)) => assert_eq!(name, "x"),
        other => panic!("expected a function, found {:?}", other),
    }
}

#[test]
fn condition_must_be_boolean() {
    let body = vec![Stmt::If { cond: num(1), then_arm: vec![], else_arm: None }];
    let (_, r) = build(vec![func("main", vec![], Some(body))]);
    match r {
        Err(Error::TypeMismatch { expected, found }) => {
            assert!(expected.same(&IrTy::Int(1)));
            assert!(found.same(&IrTy::Int(32)));
        },
        other => panic!("expected a type mismatch, found {:?}", other),
    }
}

#[test]
fn storing_into_a_parameter_is_a_type_mismatch() {
    let body = vec![Stmt::Assign { name: "a".to_string(), value: num(3) }];
    let (_, r) = build(vec![func("main", vec![param("a")], Some(body))]);
    match r {
        Err(Error::TypeMismatch { expected, found }) => {
            assert!(expected.same(&IrTy::Ptr(Box::new(IrTy::Int(32)))));
            assert!(found.same(&IrTy::Int(32)));
        },
        other => panic!("expected a type mismatch, found {:?}", other),
    }
}

#[test]
fn function_used_as_a_value_has_no_specific_cause() {
    let (_, r) = build(vec![func("main", vec![], Some(vec![Stmt::Expr(var("main"))]))]);
    assert!(matches!(r, Err(Error::NoCause)));
}

#[test]
fn first_error_wins() {
    let body = vec![Stmt::Expr(var("p")), Stmt::Expr(var("q"))];
    let (_, r) = build(vec![func("main", vec![], Some(body))]);
    match r {
        Err(Error::UnknownName(name)) => assert_eq!(name, "p"),
        other => panic!("expected an unknown name, found {:?}", other),
    }
}

#[test]
fn statements_behind_a_return_are_not_lowered() {
    let body = vec![Stmt::Return(Some(num(0))), Stmt::Expr(var("nowhere"))];
    let (builder, r) = build(vec![func("main", vec![], Some(body))]);
    assert!(r.is_ok());
    let main = last_func(&builder);
    assert_eq!(main.layout.len(), 1);
    assert_eq!(main.get_bb(main.layout[0]).unwrap().insts.len(), 1);
}

#[test]
fn break_jumps_to_the_exit_of_the_loop() {
    let body = vec![
        decl_flag("c"),
        decl_flag("x"),
        Stmt::While {
            cond: flag("c"),
            body: vec![Stmt::If { cond: flag("x"), then_arm: vec![Stmt::Break], else_arm: None }],
        },
    ];
    let (builder, r) = build(vec![func("main", vec![], Some(body))]);
    assert!(r.is_ok());
    let main = last_func(&builder);
    assert_eq!(main.layout.len(), 6);
    let (cond_bb, body_bb, then_bb, merge, exit) =
        (main.layout[1], main.layout[2], main.layout[3], main.layout[4], main.layout[5]);
    assert!(matches!(terminator_of(main, main.layout[0]), InstKind::Jump { target } if *target == cond_bb));
    assert!(matches!(
        terminator_of(main, cond_bb),
        InstKind::Branch { then_bb: t, else_bb: e, .. } if *t == body_bb && *e == exit
    ));
    assert!(matches!(
        terminator_of(main, body_bb),
        InstKind::Branch { then_bb: t, else_bb: e, .. } if *t == then_bb && *e == merge
    ));
    match terminator_of(main, then_bb) {
        InstKind::Jump { target } => {
            assert_eq!(*target, exit);
            assert_ne!(*target, merge);
        },
        other => panic!("expected a jump, found {:?}", other),
    }
    assert_eq!(main.get_bb(then_bb).unwrap().insts.len(), 1);
    assert!(matches!(terminator_of(main, merge), InstKind::Jump { target } if *target == cond_bb));
    assert!(matches!(terminator_of(main, exit), InstKind::Ret { returned: None }));
    assert_all_sealed(main);
}

#[test]
fn break_in_a_nested_loop_leaves_the_inner_loop_only() {
    let inner = Stmt::While {
        cond: flag("c"),
        body: vec![Stmt::If { cond: flag("c"), then_arm: vec![Stmt::Break], else_arm: None }],
    };
    let body = vec![
        decl_flag("c"),
        Stmt::While { cond: flag("c"), body: vec![inner, Stmt::Continue] },
    ];
    let (builder, r) = build(vec![func("main", vec![], Some(body))]);
    assert!(r.is_ok());
    let main = last_func(&builder);
    // entry, outer condition, outer body, inner condition, inner body,
    // arm, merge, inner exit, outer exit
    assert_eq!(main.layout.len(), 9);
    let outer_cond = main.layout[1];
    let arm = main.layout[5];
    let inner_exit = main.layout[7];
    let outer_exit = main.layout[8];
    match terminator_of(main, arm) {
        InstKind::Jump { target } => {
            assert_eq!(*target, inner_exit);
            assert_ne!(*target, outer_exit);
        },
        other => panic!("expected a jump, found {:?}", other),
    }
    assert!(matches!(terminator_of(main, inner_exit), InstKind::Jump { target } if *target == outer_cond));
    assert_all_sealed(main);
}

#[test]
fn every_block_of_if_and_while_has_one_terminator_at_its_end() {
    let body = vec![
        decl("i", Some(num(0))),
        Stmt::While {
            cond: less(var("i"), num(10)),
            body: vec![
                Stmt::If {
                    cond: less(var("i"), num(5)),
                    then_arm: vec![Stmt::Assign { name: "i".to_string(), value: num(6) }],
                    else_arm: Some(vec![Stmt::Assign { name: "i".to_string(), value: num(11) }]),
                },
            ],
        },
        Stmt::Return(Some(var("i"))),
    ];
    let (builder, r) = build(vec![func("main", vec![], Some(body))]);
    assert!(r.is_ok());
    let main = last_func(&builder);
    assert_eq!(main.layout.len(), 7);
    assert_eq!(main.first_block, Some(main.layout[0]));
    assert_all_sealed(main);
}

#[test]
fn arms_that_return_leave_a_sealed_merge_block() {
    let body = vec![
        decl_flag("c"),
        Stmt::If {
            cond: flag("c"),
            then_arm: vec![Stmt::Return(Some(num(1)))],
            else_arm: Some(vec![Stmt::Return(Some(num(2)))]),
        },
    ];
    let (builder, r) = build(vec![func("main", vec![], Some(body))]);
    assert!(r.is_ok());
    let main = last_func(&builder);
    assert_eq!(main.layout.len(), 4);
    assert_all_sealed(main);
}

#[test]
fn builtin_function_has_no_body() {
    let (builder, r) = build(vec![func("getint", vec![], None)]);
    assert!(r.is_ok());
    let f = last_func(&builder);
    assert!(f.is_builtin);
    assert_eq!(f.name, "getint");
    assert!(f.first_block.is_none());
    assert!(f.layout.is_empty());
}

#[test]
fn global_is_declared_and_can_be_assigned() {
    let global = Item::Global(GlobalDecl {
        name: "g".to_string(),
        ty: AstTy::Int,
        init: Some(LiteralExpr { kind: LiteralKind::Integer(7), ty: AstTy::Int }),
    });
    let body = vec![Stmt::Assign { name: "g".to_string(), value: num(1) }];
    let (builder, r) = build(vec![global, func("main", vec![], Some(body))]);
    assert!(r.is_ok());
    let module = &builder.ctx.cur_module;
    assert_eq!(module.global_order.len(), 1);
    let g = module.get_global(module.global_order[0]).unwrap();
    assert_eq!(g.name, "g");
    assert!(g.ty.same(&IrTy::Int(32)));
    assert_eq!(g.init.as_ref().unwrap().to_string(), "i32 7");
}

#[test]
fn duplicate_global_is_refused() {
    let g = |name: &str| {
        Item::Global(GlobalDecl { name: name.to_string(), ty: AstTy::Int, init: None })
    };
    let (_, r) = build(vec![g("g"), g("g")]);
    assert!(matches!(r, Err(Error::DuplicateName(_))));
}

#[test]
fn unresolved_type_is_refused_before_anything_is_built() {
    let body = vec![Stmt::Decl { name: "x".to_string(), ty: AstTy::Unknown, init: None }];
    let program = Program { items: vec![func("main", vec![], Some(body))] };
    assert!(!program.is_checked());
    assert!(matches!(build_module(&program), Err(Error::NoCause)));
}

#[test]
fn break_outside_a_loop_is_refused_before_anything_is_built() {
    let program = Program { items: vec![func("main", vec![], Some(vec![Stmt::Break]))] };
    assert!(!program.is_checked());
    assert!(matches!(build_module(&program), Err(Error::NoCause)));
    let inside = Stmt::While { cond: flag("c"), body: vec![Stmt::Break] };
    assert!(inside.is_checked(false));
    assert!(!Stmt::Continue.is_checked(false));
    assert!(Stmt::Continue.is_checked(true));
}

#[test]
fn checked_program_is_built_from_nothing() {
    let body = vec![decl("x", Some(num(1))), Stmt::Return(Some(var("x")))];
    let program = Program { items: vec![func("main", vec![], Some(body))] };
    assert!(program.is_checked());
    let module = build_module(&program).unwrap();
    assert_eq!(module.func_order.len(), 1);
    let main = module.get_func(module.func_order[0]).unwrap();
    assert_all_sealed(main);
    let program = Program { items: vec![func("main", vec![], Some(vec![Stmt::Expr(var("y"))]))] };
    assert!(matches!(build_module(&program), Err(Error::UnknownName(_))));
}

#[test]
fn arms_stand_in_the_blocks_that_the_branch_names() {
    let body = vec![
        decl_flag("c"),
        decl("x", None),
        Stmt::If {
            cond: flag("c"),
            then_arm: vec![Stmt::Assign { name: "x".to_string(), value: num(1) }],
            else_arm: Some(vec![Stmt::Assign { name: "x".to_string(), value: num(2) }]),
        },
    ];
    let (builder, r) = build(vec![func("main", vec![], Some(body))]);
    assert!(r.is_ok());
    let main = last_func(&builder);
    assert_eq!(main.layout.len(), 4);
    let merge = main.layout[3];
    let (then_bb, else_bb) = match terminator_of(main, main.layout[0]) {
        InstKind::Branch { then_bb, else_bb, .. } => (*then_bb, *else_bb),
        other => panic!("expected a branch, found {:?}", other),
    };
    assert_eq!((then_bb, else_bb), (main.layout[1], main.layout[2]));
    let stored = |bb: BBId| {
        let block = main.get_bb(bb).unwrap();
        assert_eq!(block.insts.len(), 2);
        match &main.get_inst(block.insts[0]).unwrap().kind {
            InstKind::Store { value, .. } => value.to_string(),
            other => panic!("expected a store, found {:?}", other),
        }
    };
    assert_eq!(stored(then_bb), "i32 1");
    assert_eq!(stored(else_bb), "i32 2");
    assert!(matches!(terminator_of(main, then_bb), InstKind::Jump { target } if *target == merge));
    assert!(matches!(terminator_of(main, else_bb), InstKind::Jump { target } if *target == merge));
}

#[test]
fn continue_jumps_to_the_condition_of_the_loop() {
    let body = vec![
        decl_flag("c"),
        Stmt::While { cond: flag("c"), body: vec![Stmt::Continue] },
    ];
    let (builder, r) = build(vec![func("main", vec![], Some(body))]);
    assert!(r.is_ok());
    let main = last_func(&builder);
    assert_eq!(main.layout.len(), 4);
    let (cond_bb, body_bb, exit) = (main.layout[1], main.layout[2], main.layout[3]);
    match terminator_of(main, body_bb) {
        InstKind::Jump { target } => {
            assert_eq!(*target, cond_bb);
            assert_ne!(*target, exit);
        },
        other => panic!("expected a jump, found {:?}", other),
    }
    assert_eq!(main.get_bb(body_bb).unwrap().insts.len(), 1);
}

#[test]
fn module_lists_declarations_in_order() {
    let global = |name: &str| {
        Item::Global(GlobalDecl { name: name.to_string(), ty: AstTy::Int, init: None })
    };
    let program = Program {
        items: vec![
            func("first", vec![], None),
            global("g"),
            func("second", vec![param("a")], Some(vec![Stmt::Return(Some(var("a")))])),
            global("h"),
        ],
    };
    let module = build_module(&program).unwrap();
    let names: Vec<&str> = module
        .func_order
        .iter()
        .map(|id| module.get_func(*id).unwrap().name.as_str())
        .collect();
    assert_eq!(names, vec!["first", "second"]);
    let globals: Vec<&str> = module
        .global_order
        .iter()
        .map(|id| module.get_global(*id).unwrap().name.as_str())
        .collect();
    assert_eq!(globals, vec!["g", "h"]);
    let first = module.get_func(module.func_order[0]).unwrap();
    let second = module.get_func(module.func_order[1]).unwrap();
    assert!(first.is_builtin && first.first_block.is_none());
    assert!(!second.is_builtin);
    assert_eq!(second.first_block, Some(second.layout[0]));
    assert!(matches!(
        terminator_of(second, second.layout[0]),
        InstKind::Ret { returned: Some(Operand::Param(p)) } if p.position == 0
    ));
}
