use racoon::compiler::ir::value::constant::Constant;
use racoon::compiler::ir::value::ty::IrTy;

#[test]
fn int_constant_renders_with_its_type() {
    assert_eq!(Constant::Int(5).to_string(), "i32 5");
    assert_eq!(Constant::Int(-17).to_string(), "i32 -17");
    assert_eq!(Constant::Int(0).to_string(), "i32 0");
    assert_eq!(Constant::Int(i32::MIN).to_string(), "i32 -2147483648");
}

#[test]
fn empty_array_renders_as_zeroinitializer() {
    let c = Constant::Array(IrTy::Int(32), vec![]);
    assert_eq!(c.to_string(), "[i32 zeroinitializer]");
}

#[test]
fn array_renders_its_elements_in_order() {
    let c = Constant::Array(
        IrTy::Int(32),
        vec![Box::new(Constant::Int(1)), Box::new(Constant::Int(2))],
    );
    assert_eq!(c.to_string(), "[i32 i32 1, i32 2]");
}
