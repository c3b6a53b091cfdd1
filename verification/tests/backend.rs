use koopa::ir::builder_traits::ValueBuilder;
use koopa::ir::{Program, Type, Value};
use sysy_backend::codegen::backend::RegisterBackend;
use sysy_backend::codegen::inst::Reg;

fn values(count: usize) -> Vec<Value> {
    let mut program = Program::new();
    let func = program.new_func_def("@main".into(), Vec::new(), Type::get_i32());
    let mut made = Vec::new();
    for i in 0..count {
        made.push(program.func_mut(func).dfg_mut().new_value().integer(i as i32));
    }
    made
}

#[test]
fn a_new_backend_knows_no_value() {
    let v = values(2);
    let backend = RegisterBackend::new();
    assert_eq!(backend.lookup(v[0]), None);
    assert_eq!(backend.lookup(v[1]), None);
}

#[test]
fn fresh_registers_are_numbered_from_zero() {
    let v = values(3);
    let mut backend = RegisterBackend::new();
    assert_eq!(backend.allocate(v[0], None), Reg::Temp(0));
    assert_eq!(backend.allocate(v[1], None), Reg::Temp(1));
    assert_eq!(backend.allocate(v[2], None), Reg::Temp(2));
}

#[test]
fn lookup_finds_the_register_of_each_value() {
    let v = values(4);
    let mut backend = RegisterBackend::new();
    backend.allocate(v[2], None);
    backend.allocate(v[0], None);
    assert_eq!(backend.lookup(v[2]), Some(Reg::Temp(0)));
    assert_eq!(backend.lookup(v[0]), Some(Reg::Temp(1)));
    assert_eq!(backend.lookup(v[1]), None);
    assert_eq!(backend.lookup(v[3]), None);
}

#[test]
fn a_hint_is_followed() {
    let v = values(3);
    let mut backend = RegisterBackend::new();
    let first = backend.allocate(v[0], None);
    assert_eq!(backend.allocate(v[1], Some(first)), first);
    assert_eq!(backend.lookup(v[0]), Some(Reg::Temp(0)));
    assert_eq!(backend.lookup(v[1]), Some(Reg::Temp(0)));
    assert_eq!(backend.allocate(v[2], None), Reg::Temp(1));
}

#[test]
fn the_zero_register_is_never_handed_out() {
    let v = values(2);
    let mut backend = RegisterBackend::new();
    assert_eq!(backend.allocate(v[0], Some(Reg::Zero)), Reg::Temp(0));
    assert_eq!(backend.allocate(v[1], Some(Reg::ReturnValue)), Reg::Temp(1));
}

#[test]
fn a_hint_to_a_register_not_handed_out_is_not_followed() {
    let v = values(2);
    let mut backend = RegisterBackend::new();
    assert_eq!(backend.allocate(v[0], Some(Reg::Temp(5))), Reg::Temp(0));
    assert_eq!(backend.allocate(v[1], Some(Reg::Temp(1))), Reg::Temp(1));
}

#[test]
fn a_value_keeps_its_register() {
    let v = values(2);
    let mut backend = RegisterBackend::new();
    let first = backend.allocate(v[0], None);
    let second = backend.allocate(v[1], None);
    assert_eq!(backend.allocate(v[0], Some(second)), first);
    assert_eq!(backend.allocate(v[0], None), first);
    assert_eq!(backend.lookup(v[0]), Some(first));
    assert_eq!(backend.allocate(v[1], None), second);
}
