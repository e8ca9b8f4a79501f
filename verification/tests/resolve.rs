use lua_codegen::descriptor::{ExprDescriptor, VariableDescriptor};
use lua_codegen::function::UpValueDescriptor;
use lua_codegen::opcode::{RegisterIndex, UpValueIndex};
use lua_codegen::state::{make_env_name, Compiler, CompilerFunction};

fn bytes(s: &str) -> Vec<u8> {
    s.as_bytes().to_vec()
}

fn with_locals(names: &[&str]) -> CompilerFunction {
    let mut f = CompilerFunction::new();
    for n in names {
        let register = f.allocate().unwrap();
        f.bind_local(&bytes(n), register);
    }
    f
}

fn upvalues(f: &CompilerFunction) -> Vec<(Vec<u8>, UpValueDescriptor)> {
    f.upvalues.clone()
}

#[test]
fn environment_name_is_four_bytes() {
    assert_eq!(make_env_name(), vec![0x5F, 0x45, 0x4E, 0x56]);
    assert_eq!(make_env_name(), b"_ENV".to_vec());
}

#[test]
fn local_declared_last_shadows() {
    let mut compiler = Compiler::new();
    compiler.functions.top = with_locals(&["a", "b", "a"]);
    assert!(matches!(
        compiler.find_variable(&bytes("a")),
        Ok(VariableDescriptor::Local(RegisterIndex(2)))
    ));
    assert!(matches!(
        compiler.find_variable(&bytes("b")),
        Ok(VariableDescriptor::Local(RegisterIndex(1)))
    ));
    assert_eq!(compiler.functions.top.find_local(&bytes("a")), Some(RegisterIndex(2)));
    assert_eq!(compiler.functions.top.find_local(&bytes("c")), None);
    assert!(compiler.functions.top.upvalues.is_empty());
}

#[test]
fn unbound_name_is_a_global_and_changes_nothing() {
    let mut compiler = Compiler::new();
    compiler.functions.top = with_locals(&["a"]);
    compiler.functions.push(with_locals(&["b"]));
    match compiler.find_variable(&bytes("c")) {
        Ok(VariableDescriptor::Global(name)) => assert_eq!(name, bytes("c")),
        other => panic!("{:?}", other),
    }
    assert!(compiler.functions.top.upvalues.is_empty());
    assert!(compiler.functions.get(0).upvalues.is_empty());
}

#[test]
fn local_of_the_function_around_is_captured_by_its_register() {
    let mut compiler = Compiler::new();
    compiler.functions.top = with_locals(&["a", "b"]);
    compiler.functions.push(with_locals(&["c"]));
    assert!(matches!(
        compiler.find_variable(&bytes("b")),
        Ok(VariableDescriptor::UpValue(UpValueIndex(0)))
    ));
    assert_eq!(
        upvalues(&compiler.functions.top),
        vec![(bytes("b"), UpValueDescriptor::ParentLocal(RegisterIndex(1)))]
    );
    assert!(compiler.functions.get(0).upvalues.is_empty());
    // resolved again, the upvalue is found and none is added
    assert!(matches!(
        compiler.find_variable(&bytes("b")),
        Ok(VariableDescriptor::UpValue(UpValueIndex(0)))
    ));
    assert_eq!(compiler.functions.top.upvalues.len(), 1);
    assert!(matches!(
        compiler.find_variable(&bytes("a")),
        Ok(VariableDescriptor::UpValue(UpValueIndex(1)))
    ));
    assert_eq!(
        upvalues(&compiler.functions.top),
        vec![
            (bytes("b"), UpValueDescriptor::ParentLocal(RegisterIndex(1))),
            (bytes("a"), UpValueDescriptor::ParentLocal(RegisterIndex(0))),
        ]
    );
}

#[test]
fn capture_goes_through_every_function_between() {
    let mut compiler = Compiler::new();
    compiler.functions.top = with_locals(&["x", "n"]);
    compiler.functions.push(with_locals(&[]));
    compiler.functions.get_mut(1).upvalues.push((
        bytes("other"),
        UpValueDescriptor::ParentLocal(RegisterIndex(0)),
    ));
    compiler.functions.push(with_locals(&[]));
    compiler.functions.push(with_locals(&[]));
    compiler.functions.get_mut(3).upvalues.push((
        bytes("p"),
        UpValueDescriptor::ParentLocal(RegisterIndex(0)),
    ));
    compiler.functions.get_mut(3).upvalues.push((
        bytes("q"),
        UpValueDescriptor::ParentLocal(RegisterIndex(0)),
    ));
    assert!(matches!(
        compiler.find_variable(&bytes("n")),
        Ok(VariableDescriptor::UpValue(UpValueIndex(2)))
    ));
    assert!(compiler.functions.get(0).upvalues.is_empty());
    assert_eq!(
        compiler.functions.get(1).upvalues[1],
        (bytes("n"), UpValueDescriptor::ParentLocal(RegisterIndex(1)))
    );
    assert_eq!(
        upvalues(compiler.functions.get(2)),
        vec![(bytes("n"), UpValueDescriptor::Outer(UpValueIndex(1)))]
    );
    assert_eq!(
        compiler.functions.get(3).upvalues[2],
        (bytes("n"), UpValueDescriptor::Outer(UpValueIndex(0)))
    );
    assert_eq!(compiler.functions.get(3).upvalues.len(), 3);
}

#[test]
fn upvalue_of_an_enclosing_function_is_passed_inwards() {
    let mut compiler = Compiler::new();
    compiler.functions.top = with_locals(&["n"]);
    compiler.functions.push(with_locals(&[]));
    compiler.functions.push(with_locals(&[]));
    compiler.functions.get_mut(1).upvalues.push((
        bytes("m"),
        UpValueDescriptor::ParentLocal(RegisterIndex(0)),
    ));
    compiler.functions.get_mut(1).upvalues.push((
        bytes("n"),
        UpValueDescriptor::ParentLocal(RegisterIndex(0)),
    ));
    assert!(matches!(
        compiler.find_variable(&bytes("n")),
        Ok(VariableDescriptor::UpValue(UpValueIndex(0)))
    ));
    assert_eq!(compiler.functions.get(1).upvalues.len(), 2);
    assert_eq!(
        upvalues(&compiler.functions.top),
        vec![(bytes("n"), UpValueDescriptor::Outer(UpValueIndex(1)))]
    );
}

#[test]
fn inner_local_hides_outer_local() {
    let mut compiler = Compiler::new();
    compiler.functions.top = with_locals(&["n"]);
    compiler.functions.push(with_locals(&["a", "n"]));
    compiler.functions.push(with_locals(&[]));
    assert!(matches!(
        compiler.find_variable(&bytes("n")),
        Ok(VariableDescriptor::UpValue(UpValueIndex(0)))
    ));
    assert_eq!(
        upvalues(&compiler.functions.top),
        vec![(bytes("n"), UpValueDescriptor::ParentLocal(RegisterIndex(1)))]
    );
    assert!(compiler.functions.get(1).upvalues.is_empty());
}

#[test]
fn environment_is_captured_when_first_asked_for() {
    let mut compiler = Compiler::new();
    assert!(compiler.functions.top.upvalues.is_empty());
    assert!(matches!(
        compiler.find_variable(&bytes("x")),
        Ok(VariableDescriptor::Global(_))
    ));
    assert!(compiler.functions.top.upvalues.is_empty());
    assert!(matches!(
        compiler.get_environment(),
        Ok(ExprDescriptor::UpValue(UpValueIndex(0)))
    ));
    assert_eq!(
        upvalues(&compiler.functions.top),
        vec![(bytes("_ENV"), UpValueDescriptor::Environment)]
    );
    assert!(matches!(
        compiler.get_environment(),
        Ok(ExprDescriptor::UpValue(UpValueIndex(0)))
    ));
    assert!(matches!(
        compiler.find_variable(&bytes("_ENV")),
        Ok(VariableDescriptor::UpValue(UpValueIndex(0)))
    ));
    assert_eq!(compiler.functions.top.upvalues.len(), 1);
}

#[test]
fn environment_reaches_a_nested_function_through_each_one_around_it() {
    let mut compiler = Compiler::new();
    compiler.functions.push(with_locals(&["a"]));
    compiler.functions.push(with_locals(&[]));
    assert!(matches!(
        compiler.get_environment(),
        Ok(ExprDescriptor::UpValue(UpValueIndex(0)))
    ));
    assert_eq!(
        upvalues(compiler.functions.get(0)),
        vec![(bytes("_ENV"), UpValueDescriptor::Environment)]
    );
    assert_eq!(
        upvalues(compiler.functions.get(1)),
        vec![(bytes("_ENV"), UpValueDescriptor::Outer(UpValueIndex(0)))]
    );
    assert_eq!(
        upvalues(compiler.functions.get(2)),
        vec![(bytes("_ENV"), UpValueDescriptor::Outer(UpValueIndex(0)))]
    );
}

#[test]
fn local_named_env_is_the_environment() {
    let mut compiler = Compiler::new();
    compiler.functions.top = with_locals(&["a", "_ENV"]);
    assert!(matches!(
        compiler.get_environment(),
        Ok(ExprDescriptor::Register { register: RegisterIndex(1), is_temporary: false })
    ));
    assert!(compiler.functions.top.upvalues.is_empty());
    compiler.functions.push(with_locals(&[]));
    assert!(matches!(
        compiler.get_environment(),
        Ok(ExprDescriptor::UpValue(UpValueIndex(0)))
    ));
    assert_eq!(
        upvalues(&compiler.functions.top),
        vec![(bytes("_ENV"), UpValueDescriptor::ParentLocal(RegisterIndex(1)))]
    );
    assert!(compiler.functions.get(0).upvalues.is_empty());
}

#[test]
fn upvalue_is_found_by_name() {
    let mut f = CompilerFunction::new();
    f.upvalues.push((bytes("a"), UpValueDescriptor::Environment));
    f.upvalues.push((bytes("b"), UpValueDescriptor::Environment));
    f.upvalues.push((bytes("a"), UpValueDescriptor::Environment));
    assert_eq!(f.find_upvalue(&bytes("a")), Some(0));
    assert_eq!(f.find_upvalue(&bytes("b")), Some(1));
    assert_eq!(f.find_upvalue(&bytes("c")), None);
}

#[test]
fn capture_adds_one_upvalue_to_each_function_from_the_start() {
    let mut compiler = Compiler::new();
    compiler.functions.top = with_locals(&["n"]);
    compiler.functions.push(with_locals(&[]));
    compiler.functions.push(with_locals(&[]));
    let index = compiler
        .capture(&bytes("n"), 1, UpValueDescriptor::ParentLocal(RegisterIndex(0)))
        .unwrap();
    assert_eq!(index, UpValueIndex(0));
    let second = compiler
        .capture(&bytes("k"), 2, UpValueDescriptor::Outer(UpValueIndex(0)))
        .unwrap();
    assert_eq!(second, UpValueIndex(1));
    assert_eq!(
        upvalues(compiler.functions.get(1)),
        vec![(bytes("n"), UpValueDescriptor::ParentLocal(RegisterIndex(0)))]
    );
    assert_eq!(
        upvalues(compiler.functions.get(2)),
        vec![
            (bytes("n"), UpValueDescriptor::Outer(UpValueIndex(0))),
            (bytes("k"), UpValueDescriptor::Outer(UpValueIndex(0))),
        ]
    );
}
