use nilang::generator::flavour::{Location, MemoryManagement, ToAssembly};
use nilang::generator::gnu_flavour::{Gnu64Registers, GnuFlavour, GnuInstruction};
use nilang::types::instructions::Instruction;

type G = Gnu64Registers;

#[test]
fn management_hands_out_the_last_register_then_stack() {
    let mut mm = MemoryManagement::<G>::default();
    assert_eq!(mm.reserve("x"), Location::Register(G::R15));
    assert_eq!(mm.reserve("y"), Location::Register(G::R14));
    for i in 0..12 {
        mm.reserve(&format!("n{}", i));
    }
    assert_eq!(mm.get("n11"), Ok(Location::Register(G::Rax)));
    assert_eq!(mm.reserve("z"), Location::Stack(8));
    assert_eq!(mm.reserve("w"), Location::Stack(16));
    assert_eq!(mm.get("y"), Ok(Location::Register(G::R14)));
    assert_eq!(
        mm.get("nope"),
        Err(nilang::errors::GeneratorErrors::VariableNotDefined { name: "nope".into() })
    );
}

#[test]
fn management_argument_locations() {
    let mm = MemoryManagement::<G>::default();
    assert_eq!(mm.get_argument(0), Location::Register(G::Rdi));
    assert_eq!(mm.get_argument(5), Location::Register(G::R9));
    assert_eq!(mm.get_argument(6), Location::Stack(0));
    assert_eq!(mm.get_argument(8), Location::Stack(16));
}

#[test]
fn management_moves_what_arguments_displace() {
    let mut mm = MemoryManagement::<G>::default();
    mm.reserve("x");
    let v = mm.put_arguments(&["p".to_string(), "q".to_string()]);
    assert!(v.is_empty());
    assert_eq!(mm.get("p"), Ok(Location::Register(G::Rdi)));
    assert_eq!(mm.get("q"), Ok(Location::Register(G::Rsi)));
}

#[test]
fn management_copies_into_moved_names() {
    let mut mm = MemoryManagement::<G>::default();
    for i in 1..10 {
        mm.reserve(&format!("n{}", i));
    }
    assert_eq!(mm.get("n9"), Ok(Location::Register(G::Rdi)));
    let v = mm.put_arguments(&["p".to_string()]);
    assert_eq!(v, vec![Instruction::Copy("p".into(), "n9".into())]);
    assert_eq!(mm.get("p"), Ok(Location::Register(G::Rdi)));
    assert_eq!(mm.get("n9"), Ok(Location::Register(G::Rsi)));
}

#[test]
fn gnu_locations() {
    assert_eq!(GnuFlavour::<G>::location(Location::Register(G::Rax)), "%rax");
    assert_eq!(GnuFlavour::<G>::location(Location::Stack(16)), "-16(%rbp)");
}

#[test]
fn gnu_function() {
    assert_eq!(
        GnuFlavour::<G>::generate_function("f", &["movq $1, %rax".to_string()]),
        vec![
            ".globl _f".to_string(),
            "_f:".to_string(),
            "    pushq %rbp".to_string(),
            "    movq %rsp, %rbp".to_string(),
            "    movq $1, %rax".to_string(),
            "    ret".to_string(),
            "".to_string(),
        ]
    );
}

#[test]
fn gnu_program() {
    assert_eq!(
        GnuFlavour::<G>::generate_program(&["x".to_string()]),
        ".text\n.globl _start\n_start:\n    call _main\n    movq %rax, %rbx\n    movq $1, %rax\n    int $0x80\n    ret\n\nx"
    );
}

#[test]
fn gnu64_registers() {
    assert_eq!(G::Rax.to_assembly(), "rax");
    assert_eq!(G::R15.to_assembly(), "r15");
    assert_eq!(G::alignment(), 8);
    assert_eq!(G::return_register(), G::Rsp);
    assert_eq!(G::stack_pointer_register(), G::Rbp);
    assert_eq!(G::general_purpose_registers().len(), 14);
}

#[test]
fn get_right_after_reserve_gives_the_reserved_location() {
    let mut mm = MemoryManagement::<G>::default();
    let a = mm.reserve("a");
    assert_eq!(mm.get("a"), Ok(a));
    let b = mm.reserve("b");
    assert_eq!(mm.get("b"), Ok(b));
    assert_eq!(mm.get("a"), Ok(a));
    let again = mm.reserve("a");
    assert_ne!(again, a);
    assert_eq!(mm.get("a"), Ok(again));
    assert_eq!(mm.get("b"), Ok(b));
}

#[test]
fn gnu_generates_each_instruction() {
    let mut f = GnuFlavour::<G>::default();
    assert_eq!(
        f.generate_instruction(GnuInstruction::LoadNumber("5".into(), "t".into())),
        Ok(vec!["movq $5, %r15".to_string()])
    );
    assert_eq!(
        f.generate_instruction(GnuInstruction::LoadArgument(0, "a".into())),
        Ok(vec!["movq %rdi, %r14".to_string()])
    );
    assert_eq!(
        f.generate_instruction(GnuInstruction::LoadArgument(6, "s".into())),
        Ok(vec!["movq -0(%rbp), %r13".to_string()])
    );
    assert_eq!(
        f.generate_instruction(GnuInstruction::ReturnVariable("t".into())),
        Ok(vec!["movq %r15, %rsp".to_string(), "leave".to_string()])
    );
    assert_eq!(
        f.generate_instruction(GnuInstruction::ReturnVariable("nope".into())),
        Err(nilang::errors::GeneratorErrors::VariableNotDefined { name: "nope".into() })
    );
    assert_eq!(
        f.generate_instruction(GnuInstruction::ReturnNumber("7".into())),
        Ok(vec!["movq $7, %rsp".to_string(), "leave".to_string()])
    );
    assert_eq!(
        f.generate_instruction(GnuInstruction::FunctionCall("f".into(), vec!["t".into()], "r".into())),
        Ok(vec!["call _f".to_string(), "movq %rsp, %r12".to_string()])
    );
    assert_eq!(f.mm.get("t"), Ok(Location::Register(G::Rdi)));
    assert_eq!(f.mm.get("r"), Ok(Location::Register(G::R12)));
}
