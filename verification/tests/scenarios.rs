use compiler::parser::ast::structs::{
    AddExp, AddOp, Block, BlockItem, CompUnit, ConstDecl, ConstDef, Decl, EqExp, EqOp, Exp,
    FuncDef, FuncType, LAndExp, LOrExp, MulExp, MulOp, PrimaryExp, RelExp, RelOp, Stmt, UnaryExp,
    UnaryOp, VarDecl, VarDef,
};
use compiler::parser::error::CompileError;
use compiler::parser::riscv::visitor::Visitor;
use koopa::back::KoopaGenerator;

fn mul_of(u: UnaryExp) -> MulExp {
    MulExp::UnaryExp(u)
}

fn add_of(m: MulExp) -> AddExp {
    AddExp::MulExp(m)
}

fn rel_of(a: AddExp) -> RelExp {
    RelExp::AddExp(a)
}

fn eq_of(r: RelExp) -> EqExp {
    EqExp::RelExp(r)
}

fn land_of(e: EqExp) -> LAndExp {
    LAndExp::EqExp(e)
}

fn lor_of(l: LAndExp) -> LOrExp {
    LOrExp::LAndExp(l)
}

fn exp_of_add(a: AddExp) -> Exp {
    Exp::Exp(lor_of(land_of(eq_of(rel_of(a)))))
}

fn number(n: i32) -> UnaryExp {
    UnaryExp::PrimaryExp(PrimaryExp::Number(n))
}

fn name(s: &str) -> UnaryExp {
    UnaryExp::PrimaryExp(PrimaryExp::LVal(s.to_string()))
}

fn paren(e: Exp) -> UnaryExp {
    UnaryExp::PrimaryExp(PrimaryExp::Exp(Box::new(e)))
}

fn exp_of(u: UnaryExp) -> Exp {
    exp_of_add(add_of(mul_of(u)))
}

fn unit(items: Vec<BlockItem>) -> CompUnit {
    CompUnit {
        func_def: FuncDef {
            func_type: FuncType::Int,
            ident: "main".to_string(),
            block: Block { items },
        },
    }
}

fn ret(e: Exp) -> BlockItem {
    BlockItem::Stmt(Stmt::Ret(e))
}

fn constant(ident: &str, value: Exp) -> BlockItem {
    BlockItem::Decl(Decl::Const(ConstDecl {
        defs: vec![ConstDef { ident: ident.to_string(), value }],
    }))
}

fn ir_text(unit: &CompUnit) -> String {
    let program = unit.build().unwrap();
    let mut generator = KoopaGenerator::new(Vec::new());
    generator.generate_on(&program).unwrap();
    String::from_utf8(generator.writer()).unwrap()
}

fn assembly(unit: &CompUnit) -> Result<String, CompileError> {
    let program = unit.build()?;
    let text = Visitor::default().visit(&program);
    assert_eq!(text, unit.assemble());
    text
}

fn yields(value: &str) -> String {
    format!("  .text\n  .global main\nmain:\n  li a0, {}\n  ret\n", value)
}

#[test]
fn constant_sum_is_returned_without_instructions() {
    // const x = 3 + 4; return x;
    let sum = exp_of_add(AddExp::AddExp(
        Box::new(add_of(mul_of(number(3)))),
        AddOp::Add,
        mul_of(number(4)),
    ));
    let u = unit(vec![constant("x", sum), ret(exp_of(name("x")))]);
    assert_eq!(ir_text(&u), "fun @main(): i32 {\n%main_0:\n  ret 7\n}\n");
    assert_eq!(assembly(&u), Ok(yields("7")));
}

#[test]
fn comparison_of_literals_yields_one() {
    // return 1 < 2;
    let e = Exp::Exp(lor_of(land_of(eq_of(RelExp::RelExp(
        Box::new(rel_of(add_of(mul_of(number(1))))),
        RelOp::Lt,
        add_of(mul_of(number(2))),
    )))));
    let u = unit(vec![ret(e)]);
    assert_eq!(
        ir_text(&u),
        "fun @main(): i32 {\n%main_0:\n  %0 = lt 1, 2\n  ret %0\n}\n"
    );
    assert_eq!(assembly(&u), Ok(yields("1")));
}

#[test]
fn logical_not_of_zero_folds_to_one() {
    // return !0;
    let e = exp_of(UnaryExp::UnaryOp(UnaryOp::Not, Box::new(number(0))));
    let u = unit(vec![ret(e)]);
    assert_eq!(
        ir_text(&u),
        "fun @main(): i32 {\n%main_0:\n  %0 = eq 0, 0\n  ret %0\n}\n"
    );
    assert_eq!(assembly(&u), Ok(yields("1")));
}

#[test]
fn division_and_remainder_truncate() {
    // return 10 / 3 - 10 % 3;
    let quotient = MulExp::MulExp(Box::new(mul_of(number(10))), MulOp::Div, number(3));
    let remainder = MulExp::MulExp(Box::new(mul_of(number(10))), MulOp::Mod, number(3));
    let e = exp_of_add(AddExp::AddExp(
        Box::new(add_of(quotient)),
        AddOp::Sub,
        remainder,
    ));
    let u = unit(vec![ret(e)]);
    assert_eq!(
        ir_text(&u),
        "fun @main(): i32 {\n%main_0:\n  %0 = div 10, 3\n  %1 = mod 10, 3\n  %2 = sub %0, %1\n  ret %2\n}\n"
    );
    assert_eq!(assembly(&u), Ok(yields("2")));
}

#[test]
fn logical_operators_are_lowered_eagerly() {
    // return (1 || 0) && (0 == 0);
    let or = Exp::Exp(LOrExp::LOrExp(
        Box::new(lor_of(land_of(eq_of(rel_of(add_of(mul_of(number(1)))))))),
        land_of(eq_of(rel_of(add_of(mul_of(number(0)))))),
    ));
    let eq = Exp::Exp(lor_of(land_of(EqExp::EqExp(
        Box::new(eq_of(rel_of(add_of(mul_of(number(0)))))),
        EqOp::Eq,
        rel_of(add_of(mul_of(number(0)))),
    ))));
    let e = Exp::Exp(lor_of(LAndExp::LAndExp(
        Box::new(land_of(eq_of(rel_of(add_of(mul_of(paren(or))))))),
        eq_of(rel_of(add_of(mul_of(paren(eq))))),
    )));
    let u = unit(vec![ret(e)]);
    assert_eq!(
        ir_text(&u),
        "fun @main(): i32 {\n%main_0:\n  %0 = or 1, 0\n  %1 = ne %0, 0\n  %2 = eq 0, 0\n  %3 = ne %1, 0\n  %4 = ne %2, 0\n  %5 = and %3, %4\n  ret %5\n}\n"
    );
    assert_eq!(assembly(&u), Ok(yields("1")));
}

#[test]
fn undeclared_identifier_fails_lowering() {
    let u = unit(vec![ret(exp_of(name("y")))]);
    assert!(matches!(u.build(), Err(CompileError::UndeclaredIdentifier)));
}

#[test]
fn declared_constant_is_found_through_parentheses() {
    // const x = 5; return ((x));
    let u = unit(vec![
        constant("x", exp_of(number(5))),
        ret(exp_of(paren(exp_of(paren(exp_of(name("x"))))))),
    ]);
    assert_eq!(assembly(&u), Ok(yields("5")));
}

#[test]
fn redeclaration_is_refused() {
    let u = unit(vec![constant("x", exp_of(number(1))), constant("x", exp_of(number(2)))]);
    assert!(matches!(u.build(), Err(CompileError::Redeclaration)));
}

#[test]
fn constant_division_by_zero_is_refused() {
    // const x = 1 / 0;
    let e = exp_of_add(add_of(MulExp::MulExp(
        Box::new(mul_of(number(1))),
        MulOp::Div,
        number(0),
    )));
    let u = unit(vec![constant("x", e)]);
    assert!(matches!(u.build(), Err(CompileError::DivisionByZero)));
}

#[test]
fn variable_in_constant_initialiser_is_refused() {
    // int v; const x = v;
    let u = unit(vec![
        BlockItem::Decl(Decl::Var(VarDecl { defs: vec![VarDef::Ident("v".to_string())] })),
        constant("x", exp_of(name("v"))),
    ]);
    assert!(matches!(u.build(), Err(CompileError::NotConstant)));
}

#[test]
fn assignment_to_constant_is_refused() {
    // const x = 1; x = 2;
    let u = unit(vec![
        constant("x", exp_of(number(1))),
        BlockItem::Stmt(Stmt::LVal("x".to_string(), exp_of(number(2)))),
    ]);
    assert!(matches!(u.build(), Err(CompileError::NotAssignable)));
}

#[test]
fn variables_get_a_slot_a_store_and_loads() {
    // int v = 1; v = v + 2; return v;
    let sum = exp_of_add(AddExp::AddExp(
        Box::new(add_of(mul_of(name("v")))),
        AddOp::Add,
        mul_of(number(2)),
    ));
    let u = unit(vec![
        BlockItem::Decl(Decl::Var(VarDecl {
            defs: vec![VarDef::InitVal("v".to_string(), exp_of(number(1)))],
        })),
        BlockItem::Stmt(Stmt::LVal("v".to_string(), sum)),
        ret(exp_of(name("v"))),
    ]);
    assert_eq!(
        ir_text(&u),
        "fun @main(): i32 {\n%main_0:\n  %0 = alloc i32\n  store 1, %0\n  %1 = load %0\n  %2 = add %1, 2\n  store %2, %0\n  %3 = load %0\n  ret %3\n}\n"
    );
    // The assembly stage has no memory instructions.
    assert_eq!(assembly(&u), Err(CompileError::InvalidProgram));
}

#[test]
fn function_without_a_name_is_refused() {
    let u = CompUnit {
        func_def: FuncDef {
            func_type: FuncType::Int,
            ident: String::new(),
            block: Block { items: vec![] },
        },
    };
    assert!(matches!(u.build(), Err(CompileError::InvalidProgram)));
}

#[test]
fn runtime_division_by_zero_is_refused_when_folded() {
    // return 1 / 0;
    let e = exp_of_add(add_of(MulExp::MulExp(
        Box::new(mul_of(number(1))),
        MulOp::Div,
        number(0),
    )));
    let u = unit(vec![ret(e)]);
    assert_eq!(assembly(&u), Err(CompileError::DivisionByZero));
}

#[test]
fn every_return_loads_its_value() {
    // const a = 6; return a * 7; const b = a - 8; return b;
    let product = exp_of_add(add_of(MulExp::MulExp(
        Box::new(mul_of(name("a"))),
        MulOp::Mul,
        number(7),
    )));
    let difference = exp_of_add(AddExp::AddExp(
        Box::new(add_of(mul_of(name("a")))),
        AddOp::Sub,
        mul_of(number(8)),
    ));
    let u = unit(vec![
        constant("a", exp_of(number(6))),
        ret(product),
        constant("b", difference),
        ret(exp_of(name("b"))),
    ]);
    assert_eq!(
        u.assemble(),
        Ok("  .text\n  .global main\nmain:\n  li a0, 42\n  ret\n  li a0, -2\n  ret\n".to_string())
    );
}

#[test]
fn errors_of_lowering_come_out_of_compilation() {
    let u = unit(vec![ret(exp_of(name("missing")))]);
    assert_eq!(u.assemble(), Err(CompileError::UndeclaredIdentifier));
}
