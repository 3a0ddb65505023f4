use compiler::parser::error::{CompileError, ErrorKind};
use compiler::parser::riscv::gen::{name_of, ValueManager, ValueStore};
use koopa::ir::builder_traits::ValueBuilder;
use koopa::ir::{Program, Type, Value};

/// Some distinct value handles.
fn handles(n: usize) -> Vec<Value> {
    let mut program = Program::new();
    let func = program.new_func_def("@f".to_string(), Vec::new(), Type::get_i32());
    (0..n)
        .map(|i| program.func_mut(func).dfg_mut().new_value().integer(i as i32))
        .collect()
}

#[test]
fn pool_has_sixteen_named_registers() {
    let vm = ValueManager::new();
    let names = [
        "x0", "t0", "t1", "t2", "t3", "t4", "t5", "t6", "a7", "a1", "a2", "a3", "a4", "a5", "a6",
        "a0",
    ];
    for (reg, name) in names.iter().enumerate() {
        let node = vm.get_reg(reg as u8).unwrap();
        assert!(node.value.is_none());
        assert_eq!(node.name, *name);
        assert_eq!(vm.get_reg_name(reg as u8), *name);
        assert_eq!(name_of(reg as u8), *name);
    }
    assert!(vm.get_reg(16).is_none());
}

#[test]
fn first_allocation_is_the_first_temporary() {
    let mut vm = ValueManager::new();
    assert_eq!(vm.alloc_reg(), Ok(1));
    // Nothing was bound, so the same register is offered again.
    assert_eq!(vm.alloc_reg(), Ok(1));
}

#[test]
fn allocation_skips_taken_registers_and_reaches_the_return_register_last() {
    let mut vm = ValueManager::new();
    let values = handles(15);
    for (i, v) in values.iter().enumerate() {
        let reg = vm.alloc_reg().unwrap();
        assert_eq!(reg as usize, i + 1);
        vm.set_value(*v, ValueStore::Reg(reg));
    }
    assert_eq!(vm.get_reg(15).unwrap().value, Some(values[14]));
    assert_eq!(vm.alloc_reg(), Err(CompileError::AllocatorExhaustion));
}

#[test]
fn unknown_value_has_no_store() {
    let vm = ValueManager::new();
    let values = handles(1);
    assert!(vm.get_value(values[0]).is_none());
}

#[test]
fn stores_are_kept_per_value() {
    let mut vm = ValueManager::new();
    let values = handles(2);
    vm.set_value(values[0], ValueStore::Const(7));
    vm.set_value(values[1], ValueStore::Const(9));
    assert_eq!(vm.get_value(values[0]), Some(&ValueStore::Const(7)));
    assert_eq!(vm.get_value(values[1]), Some(&ValueStore::Const(9)));
    vm.set_value(values[0], ValueStore::Const(8));
    assert_eq!(vm.get_value(values[0]), Some(&ValueStore::Const(8)));
    assert_eq!(vm.get_value(values[1]), Some(&ValueStore::Const(9)));
}

#[test]
fn binding_a_register_records_the_holder() {
    let mut vm = ValueManager::new();
    let values = handles(1);
    vm.set_value(values[0], ValueStore::Reg(3));
    assert_eq!(vm.get_reg(3).unwrap().value, Some(values[0]));
    assert_eq!(vm.get_value(values[0]), Some(&ValueStore::Reg(3)));
    // Moving the value frees the register it was in.
    vm.set_value(values[0], ValueStore::Reg(5));
    assert!(vm.get_reg(3).unwrap().value.is_none());
    assert_eq!(vm.get_reg(5).unwrap().value, Some(values[0]));
    vm.set_value(values[0], ValueStore::Const(1));
    assert!(vm.get_reg(5).unwrap().value.is_none());
}

#[test]
fn load_of_a_constant_emits_a_load_immediate() {
    let mut vm = ValueManager::new();
    let values = handles(1);
    vm.set_value(values[0], ValueStore::Const(-42));
    assert_eq!(vm.load_reg(values[0]), Ok(Some("li t0, -42".to_string())));
    assert_eq!(vm.get_value(values[0]), Some(&ValueStore::Reg(1)));
    assert_eq!(vm.get_reg(1).unwrap().value, Some(values[0]));
    // Already in a register: nothing to emit.
    assert_eq!(vm.load_reg(values[0]), Ok(None));
    assert_eq!(vm.get_value(values[0]), Some(&ValueStore::Reg(1)));
}

#[test]
fn load_fails_when_the_pool_is_full() {
    let mut vm = ValueManager::new();
    let values = handles(16);
    for (i, v) in values.iter().take(15).enumerate() {
        vm.set_value(*v, ValueStore::Reg(i as u8 + 1));
    }
    vm.set_value(values[15], ValueStore::Const(1));
    assert_eq!(vm.load_reg(values[15]), Err(CompileError::AllocatorExhaustion));
    assert_eq!(vm.get_value(values[15]), Some(&ValueStore::Const(1)));
}

#[test]
fn reset_of_an_empty_register_emits_nothing() {
    let mut vm = ValueManager::new();
    assert_eq!(vm.reset_reg(15), Ok(None));
}

#[test]
fn eviction_moves_the_value_to_the_next_free_register() {
    let mut vm = ValueManager::new();
    let values = handles(2);
    vm.set_value(values[0], ValueStore::Reg(1));
    vm.set_value(values[1], ValueStore::Reg(15));
    assert_eq!(vm.reset_reg(15), Ok(Some("mv t1, a0".to_string())));
    assert_eq!(vm.get_value(values[1]), Some(&ValueStore::Reg(2)));
    assert_eq!(vm.get_reg(2).unwrap().value, Some(values[1]));
    assert!(vm.get_reg(15).unwrap().value.is_none());
    assert_eq!(vm.get_value(values[0]), Some(&ValueStore::Reg(1)));
}

#[test]
fn eviction_fails_when_no_other_register_is_free() {
    let mut vm = ValueManager::new();
    let values = handles(15);
    for (i, v) in values.iter().enumerate() {
        vm.set_value(*v, ValueStore::Reg(i as u8 + 1));
    }
    assert_eq!(vm.reset_reg(15), Err(CompileError::AllocatorExhaustion));
    assert_eq!(vm.get_value(values[14]), Some(&ValueStore::Reg(15)));
}

#[test]
fn store_names() {
    let vm = ValueManager::new();
    assert_eq!(vm.get_store_name(ValueStore::Const(0)), "0");
    assert_eq!(vm.get_store_name(ValueStore::Const(i32::MIN)), "-2147483648");
    assert_eq!(vm.get_store_name(ValueStore::Const(i32::MAX)), "2147483647");
    assert_eq!(vm.get_store_name(ValueStore::Reg(0)), "x0");
    assert_eq!(vm.get_store_name(ValueStore::Reg(15)), "a0");
}

#[test]
fn register_node_can_be_changed_in_place() {
    let mut vm = ValueManager::new();
    let values = handles(1);
    {
        let node = vm.get_reg_mut(4).unwrap();
        assert_eq!(node.name, "t3");
        node.value = Some(values[0]);
    }
    assert_eq!(vm.get_reg(4).unwrap().value, Some(values[0]));
    assert!(vm.get_reg_mut(16).is_none());
}

#[test]
fn errors_have_a_family_and_a_message() {
    assert_eq!(CompileError::UndeclaredIdentifier.kind(), ErrorKind::Semantic);
    assert_eq!(CompileError::Redeclaration.kind(), ErrorKind::Semantic);
    assert_eq!(CompileError::NotConstant.kind(), ErrorKind::Semantic);
    assert_eq!(CompileError::NotAssignable.kind(), ErrorKind::Semantic);
    assert_eq!(CompileError::InvalidProgram.kind(), ErrorKind::Semantic);
    assert_eq!(CompileError::AllocatorExhaustion.kind(), ErrorKind::Allocator);
    assert_eq!(CompileError::DivisionByZero.kind(), ErrorKind::Arithmetic);
    assert_eq!(CompileError::AllocatorExhaustion.message(), "out of registers");
    assert_eq!(
        CompileError::UndeclaredIdentifier.message(),
        "use of an undeclared identifier"
    );
}

#[test]
fn no_value_is_in_two_registers() {
    let mut vm = ValueManager::new();
    let values = handles(6);
    for (i, v) in values.iter().enumerate() {
        vm.set_value(*v, ValueStore::Const(i as i32));
        assert!(vm.load_reg(*v).unwrap().is_some());
    }
    vm.set_value(values[2], ValueStore::Reg(15));
    assert!(vm.reset_reg(15).unwrap().is_some());
    vm.set_value(values[4], ValueStore::Const(0));
    for v in &values {
        let holders: Vec<u8> = (0..16u8)
            .filter(|r| vm.get_reg(*r).unwrap().value == Some(*v))
            .collect();
        match vm.get_value(*v) {
            Some(ValueStore::Reg(r)) => assert_eq!(holders, [*r]),
            Some(ValueStore::Const(_)) => assert!(holders.is_empty()),
            None => panic!("every value was bound"),
        }
    }
    assert!(vm.get_reg(0).unwrap().value.is_none());
}
