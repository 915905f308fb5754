use lpc_vm::vm::{compile_text, CompileError, ExecError, Instruction, Value, VirtualMachine};

#[test]
fn every_source_compiles_to_the_fixed_program() {
    for source in [&b""[..], &b"int main() { return 0; }"[..], &[0xff, 0xfe][..]] {
        let program = match compile_text(source) {
            Ok(program) => program,
            Err(_) => panic!("the source did not compile"),
        };
        assert_eq!(program.upvalues, 0);
        assert_eq!(program.params, 0);
        assert_eq!(program.constants.len(), 1);
        assert!(matches!(&program.constants[0], Value::String(s) if s.as_str() == "main"));
        assert_eq!(
            program.instrs,
            vec![
                Instruction::LoadCode.to_u8(),
                0,
                Instruction::MakeFunction.to_u8(),
                0,
                Instruction::SetGlobal.to_u8(),
                0,
            ],
        );
        assert_eq!(program.instrs, vec![3, 0, 4, 0, 6, 0]);
        assert_eq!(program.codes.len(), 1);

        let main = &program.codes[0];
        assert_eq!(main.upvalues, 0);
        assert_eq!(main.params, 0);
        assert_eq!(main.constants.len(), 3);
        assert!(matches!(&main.constants[0], Value::Integer(4)));
        assert!(matches!(&main.constants[1], Value::String(s) if s.as_str() == "Child"));
        assert!(matches!(&main.constants[2], Value::String(s) if s.as_str() == "greet"));
        assert_eq!(main.instrs, vec![5, 1, 2, 0, 1, 1, 2, 2, 7, 1, 0, 9, 2]);
        assert!(main.codes.is_empty());
    }
}

#[test]
fn the_fixed_program_binds_main_and_completes() {
    let mut vm = VirtualMachine::new();
    let program = match compile_text(b"") {
        Ok(program) => program,
        Err(_) => panic!("the source did not compile"),
    };
    let main = program.codes[0].clone();
    let mut thread = vm.load(program);
    assert_eq!(vm.execute(&mut thread, None), Ok(true));
    assert!(thread.stack.is_empty());
    assert_eq!(thread.instr, 6);
    match vm.global("main") {
        Some(Value::Function(f)) => {
            assert!(std::rc::Rc::ptr_eq(&f.code, &main));
            assert!(f.upvalues.is_empty());
        }
        _ => panic!("main is not bound to a function"),
    }
    assert!(vm.global("Child").is_none());
}

#[test]
fn the_main_routine_cannot_call_an_unbound_global() {
    let mut vm = VirtualMachine::new();
    let program = match compile_text(b"") {
        Ok(program) => program,
        Err(_) => panic!("the source did not compile"),
    };
    let mut thread = vm.load(program);
    assert_eq!(vm.execute(&mut thread, None), Ok(true));

    // Call main: `Child` is unbound, so what is called is `Nil`.
    thread.stack.push(match vm.global("main") {
        Some(main) => main,
        None => panic!("main is not bound"),
    });
    thread.code = std::rc::Rc::new(lpc_vm::vm::Code {
        upvalues: 0,
        params: 0,
        constants: Vec::new(),
        instrs: vec![Instruction::Call.to_u8(), 0],
        codes: Vec::new(),
    });
    thread.instr = 0;
    assert_eq!(vm.execute(&mut thread, Some(3)), Ok(false));
    assert_eq!(thread.stack.len(), 5);
    assert!(matches!(&thread.stack[3], Value::Nil));
    assert!(matches!(&thread.stack[4], Value::Integer(4)));
    assert_eq!(vm.execute(&mut thread, None), Err(ExecError::InvalidInstruction));
    assert_eq!(thread.stack.len(), 5);
    assert_eq!(thread.instr, 6);
}

#[test]
fn errors_have_their_messages() {
    assert_eq!(ExecError::InvalidInstruction.message(), "Invalid instruction");
    assert_eq!(ExecError::StackEmpty.message(), "Stack empty");
    assert_eq!(ExecError::StackFull.message(), "Stack full");
    assert_eq!(CompileError::SyntaxError("unexpected end of file").message(), "unexpected end of file");
    assert_eq!(CompileError::SyntaxError("").message(), "");
}

#[test]
fn globals_bind_rebind_and_keep_other_names() {
    let mut globals = lpc_vm::vm::globals::Globals::new();
    let x = "x".to_owned();
    let y = "y".to_owned();
    assert!(globals.get(&x).is_none());

    globals.set(x.clone(), Value::Integer(1));
    assert!(matches!(globals.get(&x), Some(Value::Integer(1))));
    assert!(globals.get(&y).is_none());

    globals.set(y.clone(), Value::Nil);
    globals.set(x.clone(), Value::Userdata(7));
    assert!(matches!(globals.get(&x), Some(Value::Userdata(7))));
    assert!(matches!(globals.get(&y), Some(Value::Nil)));

    globals.set("".to_owned(), Value::Integer(0));
    assert!(matches!(globals.get(&"".to_owned()), Some(Value::Integer(0))));
    assert!(matches!(globals.get(&x), Some(Value::Userdata(7))));
}
