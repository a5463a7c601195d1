use vstd::prelude::*;

use crate::text::{decimal, decimal_text};

verus! {

/// A set of machine registers that values can be kept in.
///
/// Registers are ranked: when a free register is wanted, the free register of
/// highest rank is taken first.
pub trait Registers: Copy + Sized {
    /// The rank of the register; distinct registers have distinct ranks.
    spec fn rank(&self) -> int;

    /// Every register that values may be kept in.
    spec fn all_spec() -> Seq<Self>;

    /// The name of the register in assembly.
    spec fn name_spec(&self) -> Seq<char>;

    proof fn lemma_rank_injective(a: Self, b: Self)
        requires
            a.rank() == b.rank(),
        ensures
            a == b,
    ;

    /// Whether `self` ranks above `other`.
    fn outranks(&self, other: &Self) -> (b: bool)
        ensures
            b == (self.rank() > other.rank()),
    ;

    /// Whether `self` and `other` are the same register.
    fn same(&self, other: &Self) -> (b: bool)
        ensures
            b == (*self == *other),
    ;

    /// Every register that values may be kept in.
    fn all() -> (v: Vec<Self>)
        ensures
            v@ == Self::all_spec(),
    ;

    /// The name of the register in assembly.
    fn name(&self) -> (s: String)
        ensures
            s@ == self.name_spec(),
    ;
}

/// The general purpose registers of x86-64.
#[derive(Debug, Clone, Copy, PartialEq, Eq, Structural)]
pub enum X86Registers {
    Rax,
    Rbx,
    Rcx,
    Rdx,
    Rsi,
    Rdi,
    Rbp,
    Rsp,
    R8,
    R9,
    R10,
    R11,
    R12,
    R13,
    R14,
    R15,
}

/// The position of an x86-64 register in its declaration order.
pub open spec fn x86_index(r: X86Registers) -> int {
    match r {
        X86Registers::Rax => 0,
        X86Registers::Rbx => 1,
        X86Registers::Rcx => 2,
        X86Registers::Rdx => 3,
        X86Registers::Rsi => 4,
        X86Registers::Rdi => 5,
        X86Registers::Rbp => 6,
        X86Registers::Rsp => 7,
        X86Registers::R8 => 8,
        X86Registers::R9 => 9,
        X86Registers::R10 => 10,
        X86Registers::R11 => 11,
        X86Registers::R12 => 12,
        X86Registers::R13 => 13,
        X86Registers::R14 => 14,
        X86Registers::R15 => 15,
    }
}

impl X86Registers {
    fn index(&self) -> (i: u8)
        ensures
            i == x86_index(*self),
    {
        match self {
            X86Registers::Rax => 0,
            X86Registers::Rbx => 1,
            X86Registers::Rcx => 2,
            X86Registers::Rdx => 3,
            X86Registers::Rsi => 4,
            X86Registers::Rdi => 5,
            X86Registers::Rbp => 6,
            X86Registers::Rsp => 7,
            X86Registers::R8 => 8,
            X86Registers::R9 => 9,
            X86Registers::R10 => 10,
            X86Registers::R11 => 11,
            X86Registers::R12 => 12,
            X86Registers::R13 => 13,
            X86Registers::R14 => 14,
            X86Registers::R15 => 15,
        }
    }
}

impl Registers for X86Registers {
    /// Registers declared earlier rank higher: `Rax` is taken first.
    open spec fn rank(&self) -> int {
        15 - x86_index(*self)
    }

    /// The registers that values may be kept in: all but the stack and base
    /// pointers.
    open spec fn all_spec() -> Seq<Self> {
        seq![
            X86Registers::Rax,
            X86Registers::Rbx,
            X86Registers::Rcx,
            X86Registers::Rdx,
            X86Registers::Rsi,
            X86Registers::Rdi,
            X86Registers::R8,
            X86Registers::R9,
            X86Registers::R10,
            X86Registers::R11,
            X86Registers::R12,
            X86Registers::R13,
            X86Registers::R14,
            X86Registers::R15,
        ]
    }

    open spec fn name_spec(&self) -> Seq<char> {
        match self {
            X86Registers::Rax => seq!['r', 'a', 'x'],
            X86Registers::Rbx => seq!['r', 'b', 'x'],
            X86Registers::Rcx => seq!['r', 'c', 'x'],
            X86Registers::Rdx => seq!['r', 'd', 'x'],
            X86Registers::Rsi => seq!['r', 's', 'i'],
            X86Registers::Rdi => seq!['r', 'd', 'i'],
            X86Registers::Rbp => seq!['r', 'b', 'p'],
            X86Registers::Rsp => seq!['r', 's', 'p'],
            X86Registers::R8 => seq!['r', '8'],
            X86Registers::R9 => seq!['r', '9'],
            X86Registers::R10 => seq!['r', '1', '0'],
            X86Registers::R11 => seq!['r', '1', '1'],
            X86Registers::R12 => seq!['r', '1', '2'],
            X86Registers::R13 => seq!['r', '1', '3'],
            X86Registers::R14 => seq!['r', '1', '4'],
            X86Registers::R15 => seq!['r', '1', '5'],
        }
    }

    proof fn lemma_rank_injective(a: Self, b: Self) {
    }

    fn outranks(&self, other: &Self) -> (b: bool) {
        self.index() < other.index()
    }

    fn same(&self, other: &Self) -> (b: bool) {
        self.index() == other.index()
    }

    fn all() -> (v: Vec<Self>) {
        let v = vec![
            X86Registers::Rax,
            X86Registers::Rbx,
            X86Registers::Rcx,
            X86Registers::Rdx,
            X86Registers::Rsi,
            X86Registers::Rdi,
            X86Registers::R8,
            X86Registers::R9,
            X86Registers::R10,
            X86Registers::R11,
            X86Registers::R12,
            X86Registers::R13,
            X86Registers::R14,
            X86Registers::R15,
        ];
        assert(v@ =~= Self::all_spec());
        v
    }

    fn name(&self) -> (s: String) {
        let s = match self {
            X86Registers::Rax => "rax",
            X86Registers::Rbx => "rbx",
            X86Registers::Rcx => "rcx",
            X86Registers::Rdx => "rdx",
            X86Registers::Rsi => "rsi",
            X86Registers::Rdi => "rdi",
            X86Registers::Rbp => "rbp",
            X86Registers::Rsp => "rsp",
            X86Registers::R8 => "r8",
            X86Registers::R9 => "r9",
            X86Registers::R10 => "r10",
            X86Registers::R11 => "r11",
            X86Registers::R12 => "r12",
            X86Registers::R13 => "r13",
            X86Registers::R14 => "r14",
            X86Registers::R15 => "r15",
        };
        proof {
            reveal_strlit("rax");
            reveal_strlit("rbx");
            reveal_strlit("rcx");
            reveal_strlit("rdx");
            reveal_strlit("rsi");
            reveal_strlit("rdi");
            reveal_strlit("rbp");
            reveal_strlit("rsp");
            reveal_strlit("r8");
            reveal_strlit("r9");
            reveal_strlit("r10");
            reveal_strlit("r11");
            reveal_strlit("r12");
            reveal_strlit("r13");
            reveal_strlit("r14");
            reveal_strlit("r15");
        }
        String::from_str(s)
    }
}

/// A small machine of three numbered registers, `r0` ranking highest. With
/// so few registers values soon go to the stack, which makes the work of a
/// memory manager easy to follow by hand.
#[derive(Debug, Clone, Copy, PartialEq, Eq, Structural)]
pub enum NumberedRegisters {
    R(usize),
}

impl Registers for NumberedRegisters {
    /// A register with a lower number ranks higher.
    open spec fn rank(&self) -> int {
        match self {
            NumberedRegisters::R(n) => -(*n as int),
        }
    }

    open spec fn all_spec() -> Seq<Self> {
        seq![NumberedRegisters::R(0), NumberedRegisters::R(1), NumberedRegisters::R(2)]
    }

    open spec fn name_spec(&self) -> Seq<char> {
        match self {
            NumberedRegisters::R(n) => seq!['r'] + decimal(*n as nat),
        }
    }

    proof fn lemma_rank_injective(a: Self, b: Self) {
    }

    fn outranks(&self, other: &Self) -> (b: bool) {
        match (self, other) {
            (NumberedRegisters::R(a), NumberedRegisters::R(b)) => *a < *b,
        }
    }

    fn same(&self, other: &Self) -> (b: bool) {
        match (self, other) {
            (NumberedRegisters::R(a), NumberedRegisters::R(b)) => *a == *b,
        }
    }

    fn all() -> (v: Vec<Self>) {
        let v = vec![NumberedRegisters::R(0), NumberedRegisters::R(1), NumberedRegisters::R(2)];
        assert(v@ =~= Self::all_spec());
        v
    }

    fn name(&self) -> (s: String) {
        match self {
            NumberedRegisters::R(n) => {
                let mut s = String::new();
                crate::text::push_char(&mut s, 'r');
                s.append(decimal_text(*n).as_str());
                s
            },
        }
    }
}

/// The registers of x86-64 are written by their assembler names, `rax`,
/// `rbx`, `rcx`, `rdx`, `rsi`, `rdi`, `rbp`, `rsp` and `r8` to `r15`, and
/// no two registers share a name.
pub proof fn law_x86_register_names(a: X86Registers, b: X86Registers)
    ensures
        X86Registers::Rax.name_spec() == seq!['r', 'a', 'x'],
        X86Registers::Rbx.name_spec() == seq!['r', 'b', 'x'],
        X86Registers::Rcx.name_spec() == seq!['r', 'c', 'x'],
        X86Registers::Rdx.name_spec() == seq!['r', 'd', 'x'],
        X86Registers::Rsi.name_spec() == seq!['r', 's', 'i'],
        X86Registers::Rdi.name_spec() == seq!['r', 'd', 'i'],
        X86Registers::Rbp.name_spec() == seq!['r', 'b', 'p'],
        X86Registers::Rsp.name_spec() == seq!['r', 's', 'p'],
        X86Registers::R8.name_spec() == seq!['r', '8'],
        X86Registers::R9.name_spec() == seq!['r', '9'],
        X86Registers::R10.name_spec() == seq!['r', '1', '0'],
        X86Registers::R11.name_spec() == seq!['r', '1', '1'],
        X86Registers::R12.name_spec() == seq!['r', '1', '2'],
        X86Registers::R13.name_spec() == seq!['r', '1', '3'],
        X86Registers::R14.name_spec() == seq!['r', '1', '4'],
        X86Registers::R15.name_spec() == seq!['r', '1', '5'],
        a != b ==> a.name_spec() != b.name_spec(),
{
    if a != b && a.name_spec() == b.name_spec() {
        let na = a.name_spec();
        let nb = b.name_spec();
        assert(na.len() == nb.len());
        assert(na[1] == nb[1]);
        if na.len() == 3 {
            assert(na[2] == nb[2]);
        }
    }
}

} // verus!
