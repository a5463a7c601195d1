use nilang::errors::GeneratorErrors;
use nilang::generator::assembly_flavour::{
    asm_with_comment, instruction_with_arguments, AssemblyFlavour, AssemblyInstruction,
    AssemblyInstructionParameter, AtAndTFlavour,
};
use nilang::generator::calling_convention::SystemVAmd64Abi;
use nilang::generator::locations::Location;
use nilang::generator::memory_manager::MemoryManager;
use nilang::generator::registers::X86Registers;
use nilang::generator::{
    builtin_functions, builtin_variables, generate_data, generate_function, generate_instructions,
    generate_program,
};
use nilang::types::instructions::Instruction;

fn line(code: &str, comment: &str) -> String {
    format!("    {:<29} # {}\n", code, comment)
}

#[test]
fn program_scaffold() {
    let lines = generate_program::<AtAndTFlavour>();
    let expected: Vec<String> = [".text", ".globl _start", "_start:", "call main", "movq $60, %rax", "xorq %rdi, %rdi", "syscall"]
        .iter()
        .map(|l| format!("{:<29} # ", l))
        .collect();
    assert_eq!(lines, expected);
}

#[test]
fn data_lines() {
    let data = vec![("greeting".to_string(), "hello".to_string()), ("n".to_string(), "".to_string())];
    assert_eq!(
        generate_data::<AtAndTFlavour>(&data),
        vec!["greeting: .asciz \"hello\"\n".to_string(), "n: .asciz \"\"\n".to_string()]
    );
}

#[test]
fn builtin_data_names() {
    assert_eq!(
        builtin_variables(),
        vec!["printi_format".to_string(), "printc_format".to_string(), "print_format".to_string()]
    );
}

#[test]
fn text_helpers() {
    assert_eq!(
        instruction_with_arguments("movq", &vec!["$1".to_string(), "%rax".to_string()]),
        "movq $1, %rax"
    );
    assert_eq!(asm_with_comment("ret", "done"), format!("{:<29} # done", "ret"));
}

#[test]
fn function_with_a_number() {
    let out = generate_function::<X86Registers, SystemVAmd64Abi, AtAndTFlavour>(
        "main",
        &vec![],
        vec![
            Instruction::Declare("a".into()),
            Instruction::LoadNumber("a".into(), "5".into()),
            Instruction::ReturnVariable("a".into()),
        ],
    );
    let out: Vec<String> = out.into_iter().map(|l| l.unwrap()).collect();
    let expected = vec![
        ".globl main\nmain:\n".to_string(),
        "".to_string(),
        "    # Prologue\n".to_string(),
        "    pushq %rbp\n".to_string(),
        "    movq %rsp, %rbp\n".to_string(),
        "".to_string(),
        line("movq $5, %rax", "Load number '5' into `a`"),
        line("movq %rax, %rax", "Return `a`"),
        "".to_string(),
        "    # Epilogue\n".to_string(),
        "    # leave\n".to_string(),
        "    movq %rbp, %rsp\n".to_string(),
        "    pop %rbp\n".to_string(),
        "    ret\n".to_string(),
        "".to_string(),
    ];
    assert_eq!(out, expected);
}

#[test]
fn function_with_an_undefined_name_keeps_going() {
    let out = generate_function::<X86Registers, SystemVAmd64Abi, AtAndTFlavour>(
        "f",
        &vec![],
        vec![
            Instruction::LoadNumber("x".into(), "1".into()),
            Instruction::Declare("y".into()),
            Instruction::LoadBoolean("y".into(), true),
        ],
    );
    assert_eq!(out.len(), 1 + 5 + 2 + 7);
    assert_eq!(out[6], Err(GeneratorErrors::VariableNotDefined { name: "x".into() }));
    assert_eq!(out[7], Ok(line("movq $1, %rax", "Load boolean 'true' into `y`")));
}

#[test]
fn instructions_for_arithmetic_and_calls() {
    let out = generate_instructions::<X86Registers, SystemVAmd64Abi>(
        &vec!["s".to_string()],
        vec![
            Instruction::Declare("a".into()),
            Instruction::Declare("b".into()),
            Instruction::AddVariables("a".into(), "a".into(), "b".into()),
            Instruction::Declare("a".into()),
            Instruction::LoadStringLocation("b".into(), "s".into()),
            Instruction::Label("l".into()),
        ],
    );
    let p = |r: X86Registers| AssemblyInstructionParameter::<X86Registers>::Register(r);
    assert_eq!(
        out,
        vec![
            Ok((AssemblyInstruction::Move, vec![p(X86Registers::Rax), p(X86Registers::Rax)], "Prepare `a` for addition".to_string())),
            Ok((AssemblyInstruction::Add, vec![p(X86Registers::Rax), p(X86Registers::Rbx)], "Add `a` and `b` into `a`".to_string())),
            Err(GeneratorErrors::VariableAlreadyExists { name: "a".into() }),
            Ok((
                AssemblyInstruction::Move,
                vec![p(X86Registers::Rbx), AssemblyInstructionParameter::Data("s".into())],
                "Load 's' string pointer into `b`".to_string()
            )),
            Ok((
                AssemblyInstruction::Label,
                vec![AssemblyInstructionParameter::Label("l".into())],
                "Create label `l`".to_string()
            )),
        ]
    );
}

#[test]
fn print_is_a_call_of_printf() {
    let mut mm = MemoryManager::<X86Registers>::new(&builtin_variables());
    mm.reserve("t").unwrap();
    let r = builtin_functions::<SystemVAmd64Abi>(&mut mm, "printi", &vec!["t".to_string()], &None)
        .unwrap()
        .unwrap();
    let last = r.last().unwrap();
    assert_eq!(last.0, AssemblyInstruction::Call);
    assert_eq!(last.2, "Call function `printf`");
    let mut mm = MemoryManager::<X86Registers>::new(&builtin_variables());
    assert!(builtin_functions::<SystemVAmd64Abi>(&mut mm, "other", &vec![], &None).is_none());
}

#[test]
fn att_parameters() {
    assert_eq!(
        <AtAndTFlavour as AssemblyFlavour<X86Registers>>::generate_parameter(&AssemblyInstructionParameter::Memory(16)),
        "-16(%rax)"
    );
    assert_eq!(
        <AtAndTFlavour as AssemblyFlavour<X86Registers>>::generate_parameter(&AssemblyInstructionParameter::Char('x')),
        "$'x'"
    );
    assert_eq!(
        <AtAndTFlavour as AssemblyFlavour<X86Registers>>::generate_parameter(&AssemblyInstructionParameter::Label("end".into())),
        ".end"
    );
}

#[test]
fn locations_become_operands() {
    let p: AssemblyInstructionParameter<X86Registers> = Location::Stack(3).into();
    assert_eq!(p, AssemblyInstructionParameter::Memory(3));
    let p: AssemblyInstructionParameter<X86Registers> = Location::Hardcoded("d".into()).into();
    assert_eq!(p, AssemblyInstructionParameter::Data("d".into()));
    let p: AssemblyInstructionParameter<X86Registers> = Location::Register(X86Registers::Rcx).into();
    assert_eq!(p, AssemblyInstructionParameter::Register(X86Registers::Rcx));
}
