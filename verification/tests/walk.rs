use compiler::parser::ast::lower::{BuildParams, Labels};
use compiler::parser::ast::structs::FuncType;
use compiler::parser::ast::vm::{Decl, ValueManager as SymbolTable};
use compiler::parser::error::CompileError;
use compiler::parser::riscv::gen::ValueStore;
use compiler::parser::riscv::visitor::{is_supported, Visitor, VisitorImpl};
use koopa::ir::builder_traits::{LocalInstBuilder, ValueBuilder};
use koopa::ir::{BinaryOp, Function, Program, Type, Value};

fn program_with_function() -> (Program, Function) {
    let mut program = Program::new();
    let func = program.new_func_def("@f".to_string(), Vec::new(), Type::get_i32());
    (program, func)
}

fn integer(program: &mut Program, func: Function, n: i32) -> Value {
    program.func_mut(func).dfg_mut().new_value().integer(n)
}

fn binary(program: &mut Program, func: Function, op: BinaryOp, l: Value, r: Value) -> Value {
    program.func_mut(func).dfg_mut().new_value().binary(op, l, r)
}

#[test]
fn operation_on_a_register_selects_instructions() {
    // x is the result of an earlier operation and lives in t0.
    let (mut program, func) = program_with_function();
    let a = integer(&mut program, func, 1);
    let b = integer(&mut program, func, 2);
    let x = binary(&mut program, func, BinaryOp::Add, a, b);
    let y = binary(&mut program, func, BinaryOp::Mul, x, b);
    let mut walk = VisitorImpl::new();
    walk.vm.set_value(x, ValueStore::Reg(1));
    assert_eq!(walk.visit_binary(&program, func, y, BinaryOp::Mul, x, b), Ok(()));
    assert_eq!(walk.lines, ["  li t1, 2", "  mul t2, t0, t1"]);
    assert_eq!(walk.vm.get_value(y), Some(&ValueStore::Reg(3)));
    assert_eq!(walk.vm.get_value(b), Some(&ValueStore::Reg(2)));
    assert_eq!(walk.vm.get_reg(3).unwrap().value, Some(y));
    assert_eq!(walk.text(), "  li t1, 2\n  mul t2, t0, t1\n");
}

#[test]
fn comparison_on_registers_uses_two_instructions() {
    let (mut program, func) = program_with_function();
    let a = integer(&mut program, func, 1);
    let b = integer(&mut program, func, 2);
    let x = binary(&mut program, func, BinaryOp::Add, a, b);
    let y = binary(&mut program, func, BinaryOp::Sub, a, b);
    let z = binary(&mut program, func, BinaryOp::Le, x, y);
    let mut walk = VisitorImpl::new();
    walk.vm.set_value(x, ValueStore::Reg(1));
    walk.vm.set_value(y, ValueStore::Reg(2));
    assert_eq!(walk.visit_local_inst(&program, func, z), Ok(()));
    assert_eq!(walk.lines, ["  slt t2, t1, t0", "  seqz t2, t2"]);
}

#[test]
fn operation_on_constants_is_folded() {
    let (mut program, func) = program_with_function();
    let a = integer(&mut program, func, 6);
    let b = integer(&mut program, func, 7);
    let x = binary(&mut program, func, BinaryOp::Mul, a, b);
    let mut walk = VisitorImpl::new();
    assert_eq!(walk.visit_local_inst(&program, func, x), Ok(()));
    assert!(walk.lines.is_empty());
    assert_eq!(walk.vm.get_value(x), Some(&ValueStore::Const(42)));
}

#[test]
fn operand_is_either_a_literal_or_an_earlier_result() {
    let (mut program, func) = program_with_function();
    let a = integer(&mut program, func, 6);
    let mut walk = VisitorImpl::new();
    assert_eq!(walk.visit_value(&program, func, a), Ok(()));
    assert_eq!(walk.vm.get_value(a), Some(&ValueStore::Const(6)));
    let slot = program.func_mut(func).dfg_mut().new_value().alloc(Type::get_i32());
    assert_eq!(
        walk.visit_value(&program, func, slot),
        Err(CompileError::InvalidProgram)
    );
}

#[test]
fn result_used_before_it_is_computed_is_refused() {
    let (mut program, func) = program_with_function();
    let a = integer(&mut program, func, 1);
    let x = binary(&mut program, func, BinaryOp::Add, a, a);
    let y = binary(&mut program, func, BinaryOp::Add, x, a);
    let mut walk = VisitorImpl::new();
    assert_eq!(
        walk.visit_local_inst(&program, func, y),
        Err(CompileError::InvalidProgram)
    );
}

#[test]
fn return_of_a_register_moves_it_to_the_return_register() {
    let (mut program, func) = program_with_function();
    let a = integer(&mut program, func, 1);
    let x = binary(&mut program, func, BinaryOp::Add, a, a);
    let mut walk = VisitorImpl::new();
    walk.vm.set_value(x, ValueStore::Reg(4));
    assert_eq!(walk.visit_return(&program, func, Some(x)), Ok(()));
    assert_eq!(walk.lines, ["  mv a0, t3", "  ret"]);
}

#[test]
fn return_of_the_return_register_moves_nothing() {
    let (mut program, func) = program_with_function();
    let a = integer(&mut program, func, 1);
    let x = binary(&mut program, func, BinaryOp::Add, a, a);
    let mut walk = VisitorImpl::new();
    walk.vm.set_value(x, ValueStore::Reg(15));
    assert_eq!(walk.visit_return(&program, func, Some(x)), Ok(()));
    assert_eq!(walk.lines, ["  ret"]);
}

#[test]
fn return_evicts_the_value_in_the_return_register() {
    let (mut program, func) = program_with_function();
    let a = integer(&mut program, func, 5);
    let x = binary(&mut program, func, BinaryOp::Add, a, a);
    let mut walk = VisitorImpl::new();
    walk.vm.set_value(x, ValueStore::Reg(15));
    assert_eq!(walk.visit_return(&program, func, Some(a)), Ok(()));
    assert_eq!(walk.lines, ["  mv t0, a0", "  li a0, 5", "  ret"]);
    assert_eq!(walk.vm.get_value(x), Some(&ValueStore::Reg(1)));
}

#[test]
fn return_without_a_value_only_returns() {
    let (program, func) = program_with_function();
    let mut walk = VisitorImpl::new();
    assert_eq!(walk.visit_return(&program, func, None), Ok(()));
    assert_eq!(walk.lines, ["  ret"]);
}

#[test]
fn registers_run_out_after_fifteen_results() {
    let (mut program, func) = program_with_function();
    let a = integer(&mut program, func, 1);
    let seed = binary(&mut program, func, BinaryOp::Add, a, a);
    let mut walk = VisitorImpl::new();
    walk.vm.set_value(seed, ValueStore::Reg(1));
    let mut last = seed;
    let mut outcome = Ok(());
    let mut made = 0;
    while outcome.is_ok() && made < 20 {
        let next = binary(&mut program, func, BinaryOp::Add, last, seed);
        outcome = walk.visit_local_inst(&program, func, next);
        last = next;
        made += 1;
    }
    assert_eq!(outcome, Err(CompileError::AllocatorExhaustion));
    // Registers t1 to a0 took fourteen results; the fifteenth found none.
    assert_eq!(made, 15);
}

#[test]
fn empty_program_has_only_the_preamble() {
    let program = Program::new();
    assert_eq!(
        Visitor::default().visit(&program),
        Ok("  .text\n  .global main\n".to_string())
    );
}

#[test]
fn function_label_drops_the_sigil() {
    let mut program = Program::new();
    program.new_func_def("@first".to_string(), Vec::new(), Type::get_i32());
    program.new_func_def("%second".to_string(), Vec::new(), Type::get_i32());
    assert_eq!(
        Visitor::default().visit(&program),
        Ok("  .text\n  .global main\nfirst:\nsecond:\n".to_string())
    );
}

#[test]
fn unsupported_instruction_stops_the_walk() {
    let mut program = Program::new();
    let func = program.new_func_def("@f".to_string(), Vec::new(), Type::get_i32());
    let mut params = BuildParams::new(&mut program, "@g".to_string(), &FuncType::Int);
    let _ = func;
    let slot = params.slot(&mut program);
    params.vm.insert_var("v", slot);
    assert_eq!(
        Visitor::default().visit(&program),
        Err(CompileError::InvalidProgram)
    );
}

#[test]
fn supported_operators() {
    assert!(is_supported(BinaryOp::Add));
    assert!(is_supported(BinaryOp::And));
    assert!(!is_supported(BinaryOp::Xor));
    assert!(!is_supported(BinaryOp::Shl));
    assert!(!is_supported(BinaryOp::Shr));
    assert!(!is_supported(BinaryOp::Sar));
}

#[test]
fn labels_count_up_from_zero() {
    let mut labels = Labels::new();
    assert_eq!(labels.next_bb_id("%main"), "%main_0");
    assert_eq!(labels.next_bb_id("%main"), "%main_1");
    assert_eq!(labels.next_bb_id("%then"), "%then_2");
}

#[test]
fn symbol_table_keeps_constants_and_variables() {
    let (mut program, func) = program_with_function();
    let slot = program.func_mut(func).dfg_mut().new_value().alloc(Type::get_i32());
    let mut table = SymbolTable::new();
    assert!(!table.exist("x"));
    assert!(table.get("x").is_none());
    assert_eq!(table.get_const("x"), None);
    table.insert_const("x", 3);
    table.insert_var("v", slot);
    assert!(table.exist("x"));
    assert!(table.exist("v"));
    assert!(!table.exist("xv"));
    assert_eq!(table.get_const("x"), Some(3));
    assert_eq!(table.get_const("v"), None);
    assert!(matches!(table.get("x"), Some(Decl::Const(3))));
    assert!(matches!(table.get("v"), Some(Decl::Var(s)) if *s == slot));
    // A new entry for a name hides the old one.
    table.insert_const("x", 4);
    assert_eq!(table.get_const("x"), Some(4));
    assert_eq!(table.get_const("v"), None);
}
