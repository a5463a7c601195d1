use nilang::generator::assembly_flavour::{AssemblyInstruction, AssemblyInstructionParameter};
use nilang::generator::calling_convention::{allocate_in, CallingConvention, SystemVAmd64Abi};
use nilang::generator::locations::Location;
use nilang::generator::memory_manager::MemoryManager;
use nilang::generator::registers::{NumberedRegisters as TestRegisters, X86Registers};

fn p(l: Location<TestRegisters>) -> AssemblyInstructionParameter<TestRegisters> {
    AssemblyInstructionParameter::from_location(&l)
}

#[test]
fn arguments_allocations() {
    let mut mm = MemoryManager::<TestRegisters>::default();
    mm.reserve("a").unwrap();
    mm.reserve("b").unwrap();
    mm.reserve("c").unwrap();

    let arguments = vec!["a".to_string(), "b".to_string(), "c".to_string()];
    let arguments_locations = vec![
        Location::Register(TestRegisters::R(1)),
        Location::Register(TestRegisters::R(2)),
        Location::Stack(0),
    ];
    let instructions = allocate_in(&mut mm, &arguments, &arguments_locations).unwrap();

    assert_eq!(
        instructions,
        [
            (
                AssemblyInstruction::Swap,
                vec![p(Location::Register(TestRegisters::R(1))), p(Location::Stack(0))],
                "Swap b and @swap_temp_0".to_string()
            ),
            (
                AssemblyInstruction::Swap,
                vec![p(Location::Register(TestRegisters::R(2))), p(Location::Stack(1))],
                "Swap c and @swap_temp_1".to_string()
            ),
            (
                AssemblyInstruction::Swap,
                vec![p(Location::Stack(0)), p(Location::Stack(2))],
                "Swap b and @swap_temp_2".to_string()
            ),
            (
                AssemblyInstruction::Move,
                vec![p(Location::Register(TestRegisters::R(1))), p(Location::Register(TestRegisters::R(0)))],
                "Load `a` as argument 0".to_string()
            ),
            (
                AssemblyInstruction::Move,
                vec![p(Location::Register(TestRegisters::R(2))), p(Location::Stack(2))],
                "Load `b` as argument 1".to_string()
            ),
            (
                AssemblyInstruction::Move,
                vec![p(Location::Stack(0)), p(Location::Stack(1))],
                "Load `c` as argument 2".to_string()
            )
        ]
    );
}

#[test]
fn system_v_argument_locations() {
    let arguments: Vec<String> = (0..8).map(|i| format!("a{}", i)).collect();
    assert_eq!(
        SystemVAmd64Abi::arguments_locations(&arguments),
        vec![
            Location::Register(X86Registers::Rdi),
            Location::Register(X86Registers::Rsi),
            Location::Register(X86Registers::Rdx),
            Location::Register(X86Registers::Rcx),
            Location::Register(X86Registers::R8),
            Location::Register(X86Registers::R9),
            Location::Stack(0),
            Location::Stack(1),
        ]
    );
    assert_eq!(SystemVAmd64Abi::return_location(), Location::Register(X86Registers::Rax));
}
