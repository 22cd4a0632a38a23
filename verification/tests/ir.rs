use racoon::compiler::ir::arena::{BBId, FuncId};
use racoon::compiler::ir::value::constant::Constant;
use racoon::compiler::ir::value::func::Func;
use racoon::compiler::ir::value::global::Global;
use racoon::compiler::ir::value::inst::{BinaryOp, InstKind};
use racoon::compiler::ir::value::module::Module;
use racoon::compiler::ir::value::ty::{FuncTy, IrTy};
use racoon::compiler::ir::value::value::{Operand, Value};
use racoon::compiler::irbuilder::context::{Context, NameTyInfo};
use racoon::compiler::syntax::ast::{AstTy, LiteralExpr, LiteralKind};

fn int_to_int() -> IrTy {
    IrTy::Func(Box::new(FuncTy { ret_ty: IrTy::Int(32), params_ty: vec![IrTy::Int(32)] }))
}

fn context_in_function() -> (Context, FuncId, BBId) {
    let mut ctx = Context::new();
    let f = ctx.build_func(Func::new("f", int_to_int(), false));
    ctx.set_cur_func(f);
    let entry = ctx.build_bb();
    ctx.set_cur_bb(entry);
    (ctx, f, entry)
}

#[test]
fn types_render_by_their_shape() {
    assert_eq!(IrTy::Void.to_string(), "void");
    assert_eq!(IrTy::Int(32).to_string(), "i32");
    assert_eq!(IrTy::Int(1).to_string(), "i1");
    assert_eq!(IrTy::Array(4, Box::new(IrTy::Int(32))).to_string(), "[4 x i32]");
    assert_eq!(IrTy::Ptr(Box::new(IrTy::Int(32))).to_string(), "i32*");
    let f = IrTy::Func(Box::new(FuncTy {
        ret_ty: IrTy::Void,
        params_ty: vec![IrTy::Int(32), IrTy::Ptr(Box::new(IrTy::Int(1)))],
    }));
    assert_eq!(f.to_string(), "void (i32, i1*)");
    let g = IrTy::Func(Box::new(FuncTy { ret_ty: IrTy::Int(32), params_ty: vec![] }));
    assert_eq!(g.to_string(), "i32 ()");
}

#[test]
fn source_types_map_onto_ir_types() {
    assert!(IrTy::from(AstTy::Void).same(&IrTy::Void));
    assert!(IrTy::from(AstTy::Int).same(&IrTy::Int(32)));
    assert!(IrTy::from(AstTy::Bool).same(&IrTy::Int(1)));
    let array = AstTy::Array { siz: 3, elem_ty: Box::new(AstTy::Int) };
    assert!(IrTy::from(array).same(&IrTy::Array(3, Box::new(IrTy::Int(32)))));
    let ptr = AstTy::Ptr(Box::new(AstTy::Bool));
    assert!(IrTy::from(ptr).same(&IrTy::Ptr(Box::new(IrTy::Int(1)))));
    let func = AstTy::Func {
        ret_ty: Box::new(AstTy::Void),
        param_tys: vec![Box::new(AstTy::Int), Box::new(AstTy::Bool)],
    };
    let want = IrTy::Func(Box::new(FuncTy {
        ret_ty: IrTy::Void,
        params_ty: vec![IrTy::Int(32), IrTy::Int(1)],
    }));
    assert!(IrTy::from(func).same(&want));
}

#[test]
fn types_compare_by_structure() {
    assert!(IrTy::Int(32).same(&IrTy::Int(32)));
    assert!(!IrTy::Int(32).same(&IrTy::Int(1)));
    assert!(!IrTy::Void.same(&IrTy::Int(32)));
    assert!(!IrTy::Array(2, Box::new(IrTy::Int(32))).same(&IrTy::Array(3, Box::new(IrTy::Int(32)))));
    assert!(int_to_int().same(&int_to_int()));
    let other = IrTy::Func(Box::new(FuncTy { ret_ty: IrTy::Int(32), params_ty: vec![] }));
    assert!(!int_to_int().same(&other));
    assert!(int_to_int().clone().same(&int_to_int()));
}

#[test]
fn function_type_comes_out_of_into_func() {
    match int_to_int().into_func() {
        Ok(f) => assert_eq!(f.params_ty.len(), 1),
        Err(_) => panic!("a function type was expected"),
    }
    assert!(IrTy::Void.into_func().is_err());
}

#[test]
fn constants_know_their_type() {
    assert!(Constant::Int(3).get_ty().same(&IrTy::Int(32)));
    let ty = IrTy::Array(2, Box::new(IrTy::Int(32)));
    let array = Constant::Array(ty.clone(), vec![Box::new(Constant::Int(1))]);
    assert!(array.get_ty().same(&ty));
}

#[test]
fn literal_array_keeps_its_written_length() {
    let element = |x| LiteralExpr { kind: LiteralKind::Integer(x), ty: AstTy::Int };
    let literal = LiteralExpr {
        kind: LiteralKind::Array(4, vec![element(7), element(8)]),
        ty: AstTy::Array { siz: 4, elem_ty: Box::new(AstTy::Int) },
    };
    let constant = Constant::from(literal);
    match &constant {
        Constant::Array(ty, elems) => {
            assert!(ty.same(&IrTy::Array(4, Box::new(IrTy::Int(32)))));
            assert_eq!(elems.len(), 2);
        },
        Constant::Int(_) => panic!("an array was expected"),
    }
    assert_eq!(constant.to_string(), "[[4 x i32] i32 7, i32 8]");
    assert_eq!(constant.clone().to_string(), "[[4 x i32] i32 7, i32 8]");
}

#[test]
fn nested_array_constants_render_recursively() {
    let inner = |a, b| {
        Box::new(Constant::Array(
            IrTy::Int(32),
            vec![Box::new(Constant::Int(a)), Box::new(Constant::Int(b))],
        ))
    };
    let outer = Constant::Array(IrTy::Int(32), vec![inner(1, 2), inner(3, 4)]);
    assert_eq!(outer.to_string(), "[i32 [i32 i32 1, i32 2], [i32 i32 3, i32 4]]");
}

#[test]
fn new_function_is_empty() {
    let f = Func::new("f", int_to_int(), true);
    assert_eq!(f.name, "f");
    assert!(f.is_builtin);
    assert!(f.first_block.is_none());
    assert!(f.layout.is_empty());
    assert!(f.params.is_empty());
    assert!(f.get_ty().same(&int_to_int()));
}

#[test]
fn first_block_becomes_the_entry_for_good() {
    let mut f = Func::new("f", int_to_int(), false);
    let a = f.build_bb();
    assert_eq!(f.first_block, Some(a));
    let b = f.build_bb();
    assert_ne!(a, b);
    assert_eq!(f.first_block, Some(a));
    assert_eq!(f.layout, vec![a, b]);
}

#[test]
fn block_is_placed_behind_the_given_one() {
    let mut f = Func::new("f", int_to_int(), false);
    let a = f.build_bb();
    let b = f.build_bb();
    let c = f.build_bb_after_cur(a);
    assert_eq!(f.layout, vec![a, c, b]);
    let d = f.build_bb_after_cur(b);
    assert_eq!(f.layout, vec![a, c, b, d]);
    assert!(f.get_bb(d).unwrap().insts.is_empty());
}

#[test]
fn instructions_are_appended_in_order() {
    let mut f = Func::new("f", int_to_int(), false);
    let a = f.build_bb();
    let b = f.build_bb();
    let x = f.build_inst_at_end(InstKind::Alloca, IrTy::Ptr(Box::new(IrTy::Int(32))), a);
    assert!(!f.is_terminated(a));
    let y = f.build_inst_at_end(InstKind::Jump { target: b }, IrTy::Void, a);
    assert_eq!(f.get_bb(a).unwrap().insts, vec![x, y]);
    assert!(f.get_bb(b).unwrap().insts.is_empty());
    assert!(f.is_terminated(a));
    assert!(!f.is_terminated(b));
    assert!(matches!(f.get_inst(x).unwrap().kind, InstKind::Alloca));
    assert!(f.get_inst(x).unwrap().get_ty().same(&IrTy::Ptr(Box::new(IrTy::Int(32)))));
    assert!(matches!(f.get_inst(y).unwrap().kind, InstKind::Jump { target } if target == b));
}

#[test]
fn parameters_are_numbered_by_position() {
    let mut f = Func::new("f", int_to_int(), false);
    assert_eq!(f.build_func_param(IrTy::Int(32)).position, 0);
    assert_eq!(f.build_func_param(IrTy::Int(1)).position, 1);
    assert_eq!(f.params.len(), 2);
    assert_eq!(f.params[1].position, 1);
    assert!(f.params[1].get_ty().same(&IrTy::Int(1)));
}

#[test]
fn instruction_kinds_list_their_operands() {
    let binary = InstKind::Binary {
        op: BinaryOp::Add,
        lhs: Operand::Const(Constant::Int(1)),
        rhs: Operand::Const(Constant::Int(2)),
    };
    assert_eq!(binary.operands().len(), 2);
    assert!(!binary.is_terminator());
    assert!(InstKind::Alloca.operands().is_empty());
    let ret = InstKind::Ret { returned: Some(Operand::Const(Constant::Int(0))) };
    assert_eq!(ret.operands().len(), 1);
    assert!(ret.is_terminator());
    assert!(InstKind::Ret { returned: None }.operands().is_empty());
    assert!(BinaryOp::Lt.yields_bool());
    assert!(!BinaryOp::Mul.yields_bool());
}

#[test]
fn module_hands_out_distinct_keys() {
    let mut module = Module::new();
    let f = module.build_func(Func::new("f", int_to_int(), false));
    let g = module.build_func(Func::new("g", int_to_int(), true));
    assert_ne!(f, g);
    assert_eq!(module.func_order, vec![f, g]);
    assert_eq!(module.get_func(f).unwrap().name, "f");
    assert_eq!(module.get_func(g).unwrap().name, "g");
    let v = module.build_global(Global::new("v", IrTy::Int(32), Some(Constant::Int(1))));
    assert_eq!(module.get_global(v).unwrap().name, "v");
    assert!(module.get_global(v).unwrap().get_ty().same(&IrTy::Int(32)));
    module.get_func_mut(f).unwrap().build_bb();
    assert_eq!(module.get_func(f).unwrap().layout.len(), 1);
    assert!(module.get_func(g).unwrap().layout.is_empty());
}

#[test]
fn null_keys_name_nothing() {
    let mut module = Module::new();
    module.build_func(Func::new("f", int_to_int(), false));
    assert!(module.get_func(FuncId::default()).is_none());
    let mut f = Func::new("f", int_to_int(), false);
    f.build_bb();
    assert!(f.get_bb(BBId::default()).is_none());
}

#[test]
fn keys_of_one_function_stay_valid_while_it_grows() {
    let mut f = Func::new("f", int_to_int(), false);
    let first = f.build_bb();
    let x = f.build_inst_at_end(InstKind::Alloca, IrTy::Ptr(Box::new(IrTy::Int(32))), first);
    for _ in 0..100 {
        let bb = f.build_bb();
        f.build_inst_at_end(InstKind::Jump { target: first }, IrTy::Void, bb);
    }
    assert_eq!(f.layout.len(), 101);
    assert_eq!(f.get_bb(first).unwrap().insts, vec![x]);
    assert!(matches!(f.get_inst(x).unwrap().kind, InstKind::Alloca));
}

#[test]
fn context_builds_into_the_current_function() {
    let (mut ctx, f, entry) = context_in_function();
    assert_eq!(ctx.get_cur_bb_id(), entry);
    let next = ctx.build_bb_after_cur();
    let last = ctx.build_bb();
    let x = ctx.build_inst_end_of_cur(InstKind::Jump { target: next }, IrTy::Void);
    let y = ctx.build_inst_end(InstKind::Ret { returned: None }, IrTy::Void, next);
    assert_eq!(ctx.get_cur_bb_id(), entry);
    let func = ctx.cur_module.get_func(f).unwrap();
    assert_eq!(func.layout, vec![entry, next, last]);
    assert_eq!(func.get_bb(entry).unwrap().insts, vec![x]);
    assert_eq!(func.get_bb(next).unwrap().insts, vec![y]);
    assert_eq!(func.first_block, Some(entry));
    ctx.set_cur_bb(last);
    assert_eq!(ctx.get_cur_bb_id(), last);
}

#[test]
fn context_reads_function_types_and_adds_parameters() {
    let (mut ctx, f, _) = context_in_function();
    let ty = ctx.get_func_ty(f);
    assert!(ty.ret_ty.same(&IrTy::Int(32)));
    assert_eq!(ty.params_ty.len(), 1);
    assert_eq!(ctx.build_func_param(IrTy::Int(32)).position, 0);
    assert_eq!(ctx.cur_module.get_func(f).unwrap().params.len(), 1);
    let g = ctx.build_global(Global::new("g", IrTy::Int(32), None));
    assert!(ctx.cur_module.get_global(g).unwrap().init.is_none());
    ctx.get_cur_bb_mut().insts.clear();
    assert_eq!(ctx.get_cur_func_mut().name, "f");
}

#[test]
fn functions_and_modules_can_be_shown() {
    let mut module = Module::new();
    module.build_func(Func::new("shown", int_to_int(), true));
    let text = format!("{:?}", module);
    assert!(text.contains("shown"));
}

#[test]
fn literals_and_name_infos_can_be_copied() {
    let element = |x| LiteralExpr { kind: LiteralKind::Integer(x), ty: AstTy::Int };
    let literal = LiteralExpr {
        kind: LiteralKind::Array(2, vec![element(1), element(2)]),
        ty: AstTy::Array { siz: 2, elem_ty: Box::new(AstTy::Int) },
    };
    let info = NameTyInfo { ty: AstTy::Int, const_val: Some(literal), is_const: true };
    let copy = info.clone();
    assert!(copy.is_const);
    assert!(copy.ty.is_resolved());
    let constant = Constant::from(copy.const_val.unwrap());
    assert_eq!(constant.to_string(), "[[2 x i32] i32 1, i32 2]");
    assert_eq!(Constant::from(info.const_val.unwrap()).to_string(), "[[2 x i32] i32 1, i32 2]");
    match LiteralKind::Integer(4).clone() {
        LiteralKind::Integer(x) => assert_eq!(x, 4),
        LiteralKind::Array(..) => panic!("an integer was expected"),
    }
}

#[test]
fn cloned_function_holds_the_same_code_under_the_same_keys() {
    let mut f = Func::new("f", int_to_int(), false);
    let a = f.build_bb();
    let b = f.build_bb();
    f.build_func_param(IrTy::Int(32));
    let x = f.build_inst_at_end(
        InstKind::Binary {
            op: BinaryOp::Add,
            lhs: Operand::Const(Constant::Int(1)),
            rhs: Operand::Const(Constant::Int(2)),
        },
        IrTy::Int(32),
        a,
    );
    f.build_inst_at_end(InstKind::Jump { target: b }, IrTy::Void, a);
    f.build_inst_at_end(InstKind::Ret { returned: Some(Operand::Inst(x)) }, IrTy::Void, b);
    let mut copy = f.clone();
    assert_eq!(copy.to_string(), f.to_string());
    assert_eq!(copy.layout, f.layout);
    assert_eq!(copy.first_block, Some(a));
    assert_eq!(copy.params.len(), 1);
    assert_eq!(copy.get_bb(a).unwrap().insts, f.get_bb(a).unwrap().insts);
    assert!(matches!(copy.get_inst(x).unwrap().kind, InstKind::Binary { op: BinaryOp::Add, .. }));
    let c = copy.build_bb();
    assert!(copy.get_bb(c).is_some());
    assert_eq!(f.layout.len(), 2);
    assert_eq!(copy.layout.len(), 3);
}
