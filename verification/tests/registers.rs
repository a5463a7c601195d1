use std::collections::BinaryHeap;

use nilang::generator::registers::{Registers, X86Registers};

#[derive(Debug, Copy, Clone, PartialEq, Eq)]
enum TestRegisters {
    R(usize),
}

impl PartialOrd for TestRegisters {
    fn partial_cmp(&self, other: &Self) -> Option<std::cmp::Ordering> {
        Some(self.cmp(other))
    }
}

impl Ord for TestRegisters {
    fn cmp(&self, other: &Self) -> std::cmp::Ordering {
        match (self, other) {
            (TestRegisters::R(a), TestRegisters::R(b)) => a.cmp(b).reverse(),
        }
    }
}

#[test]
fn test_registers_ord() {
    assert!(TestRegisters::R(0) > TestRegisters::R(1));
    assert!(TestRegisters::R(1) > TestRegisters::R(2));

    let mut registers = BinaryHeap::from([TestRegisters::R(1), TestRegisters::R(0), TestRegisters::R(2)]);

    assert_eq!(registers.pop(), Some(TestRegisters::R(0)));
    assert_eq!(registers.pop(), Some(TestRegisters::R(1)));
    assert_eq!(registers.pop(), Some(TestRegisters::R(2)));
    assert_eq!(registers.pop(), None);
}

#[test]
fn x86_registers_are_ordered_by_declaration() {
    assert!(X86Registers::Rax > X86Registers::Rbx);
    assert!(X86Registers::Rbx > X86Registers::Rcx);
    assert!(X86Registers::R14 > X86Registers::R15);
    assert!(X86Registers::Rdi > X86Registers::R8);
    assert_eq!(X86Registers::Rax.partial_cmp(&X86Registers::Rax), Some(std::cmp::Ordering::Equal));
    assert!(X86Registers::Rax.outranks(&X86Registers::R15));
    assert!(!X86Registers::R15.outranks(&X86Registers::Rax));
}

#[test]
fn x86_registers_names_and_set() {
    assert_eq!(X86Registers::Rax.name(), "rax");
    assert_eq!(X86Registers::R10.name(), "r10");
    let all = X86Registers::all();
    assert_eq!(all.len(), 14);
    assert!(!all.contains(&X86Registers::Rbp));
    assert!(!all.contains(&X86Registers::Rsp));
    assert_eq!(all[0], X86Registers::Rax);
}
