use vstd::prelude::*;

use crate::errors::{GeneratorErrors, GeneratorErrorsView};
use crate::generator::flavour::{
    argument_entries, argument_fits, argument_location, conflicts, entry_get, insert_entries,
    law_get_after_reserve, Location, ManagementView, MemoryManagement, Registers, ToAssembly,
};
use crate::generator::utils::{pad_line, pad_lines, space_bottom};
use crate::text::{decimal, decimal_text, join, join_strings, views_of};
use crate::types::instructions::Instruction;

verus! {

/// The registers of x86-64 as the first code generator names them.
#[derive(Debug, Clone, Copy, PartialEq, Eq, Hash, Structural)]
pub enum Gnu64Registers {
    Rax,
    Rbx,
    Rcx,
    Rdx,
    Rsi,
    Rdi,
    Rbp,
    Rsp,
    R8,
    R9,
    R10,
    R11,
    R12,
    R13,
    R14,
    R15,
}

impl ToAssembly for Gnu64Registers {
    open spec fn assembly(&self) -> Seq<char> {
        match self {
            Gnu64Registers::Rax => "rax"@,
            Gnu64Registers::Rbx => "rbx"@,
            Gnu64Registers::Rcx => "rcx"@,
            Gnu64Registers::Rdx => "rdx"@,
            Gnu64Registers::Rsi => "rsi"@,
            Gnu64Registers::Rdi => "rdi"@,
            Gnu64Registers::Rbp => "rbp"@,
            Gnu64Registers::Rsp => "rsp"@,
            Gnu64Registers::R8 => "r8"@,
            Gnu64Registers::R9 => "r9"@,
            Gnu64Registers::R10 => "r10"@,
            Gnu64Registers::R11 => "r11"@,
            Gnu64Registers::R12 => "r12"@,
            Gnu64Registers::R13 => "r13"@,
            Gnu64Registers::R14 => "r14"@,
            Gnu64Registers::R15 => "r15"@,
        }
    }

    fn to_assembly(&self) -> (s: String) {
        String::from_str(
            match self {
                Gnu64Registers::Rax => "rax",
                Gnu64Registers::Rbx => "rbx",
                Gnu64Registers::Rcx => "rcx",
                Gnu64Registers::Rdx => "rdx",
                Gnu64Registers::Rsi => "rsi",
                Gnu64Registers::Rdi => "rdi",
                Gnu64Registers::Rbp => "rbp",
                Gnu64Registers::Rsp => "rsp",
                Gnu64Registers::R8 => "r8",
                Gnu64Registers::R9 => "r9",
                Gnu64Registers::R10 => "r10",
                Gnu64Registers::R11 => "r11",
                Gnu64Registers::R12 => "r12",
                Gnu64Registers::R13 => "r13",
                Gnu64Registers::R14 => "r14",
                Gnu64Registers::R15 => "r15",
            },
        )
    }
}

impl Gnu64Registers {
    /// The size of a stack slot.
    pub fn alignment() -> (a: usize)
        ensures
            a == 8,
    {
        8
    }

    /// The register the first generator returns values in.
    pub fn return_register() -> (r: Self)
        ensures
            r == Gnu64Registers::Rsp,
    {
        Gnu64Registers::Rsp
    }

    /// The register the first generator addresses the stack from.
    pub fn stack_pointer_register() -> (r: Self)
        ensures
            r == Gnu64Registers::Rbp,
    {
        Gnu64Registers::Rbp
    }

    /// The registers that values may be kept in: all but the stack and base
    /// pointers.
    pub fn general_purpose_registers() -> (v: Vec<Self>)
        ensures
            v@ == seq![
                Gnu64Registers::Rax,
                Gnu64Registers::Rbx,
                Gnu64Registers::Rcx,
                Gnu64Registers::Rdx,
                Gnu64Registers::Rsi,
                Gnu64Registers::Rdi,
                Gnu64Registers::R8,
                Gnu64Registers::R9,
                Gnu64Registers::R10,
                Gnu64Registers::R11,
                Gnu64Registers::R12,
                Gnu64Registers::R13,
                Gnu64Registers::R14,
                Gnu64Registers::R15,
            ],
    {
        vec![
            Gnu64Registers::Rax,
            Gnu64Registers::Rbx,
            Gnu64Registers::Rcx,
            Gnu64Registers::Rdx,
            Gnu64Registers::Rsi,
            Gnu64Registers::Rdi,
            Gnu64Registers::R8,
            Gnu64Registers::R9,
            Gnu64Registers::R10,
            Gnu64Registers::R11,
            Gnu64Registers::R12,
            Gnu64Registers::R13,
            Gnu64Registers::R14,
            Gnu64Registers::R15,
        ]
    }
}

/// The registers of x86-64 as the first code generator uses them. Values
/// come back in `rsp`; stack slots are addressed from `rbp`; arguments are
/// passed as the System V convention passes them.
impl Registers for Gnu64Registers {
    open spec fn alignment_spec() -> usize {
        8
    }

    open spec fn stack_pointer_spec() -> Self {
        Gnu64Registers::Rsp
    }

    open spec fn base_pointer_spec() -> Self {
        Gnu64Registers::Rbp
    }

    open spec fn return_register_spec() -> Self {
        Gnu64Registers::Rsp
    }

    open spec fn general_purpose_spec() -> Seq<Self> {
        seq![
            Gnu64Registers::Rax,
            Gnu64Registers::Rbx,
            Gnu64Registers::Rcx,
            Gnu64Registers::Rdx,
            Gnu64Registers::Rsi,
            Gnu64Registers::Rdi,
            Gnu64Registers::R8,
            Gnu64Registers::R9,
            Gnu64Registers::R10,
            Gnu64Registers::R11,
            Gnu64Registers::R12,
            Gnu64Registers::R13,
            Gnu64Registers::R14,
            Gnu64Registers::R15,
        ]
    }

    open spec fn argument_registers_spec() -> Seq<Self> {
        seq![
            Gnu64Registers::Rdi,
            Gnu64Registers::Rsi,
            Gnu64Registers::Rdx,
            Gnu64Registers::Rcx,
            Gnu64Registers::R8,
            Gnu64Registers::R9,
        ]
    }

    fn alignment() -> (a: usize) {
        8
    }

    fn stack_pointer() -> (r: Self) {
        Gnu64Registers::Rsp
    }

    fn base_pointer() -> (r: Self) {
        Gnu64Registers::Rbp
    }

    fn return_register() -> (r: Self) {
        Gnu64Registers::Rsp
    }

    fn general_purpose_registers() -> (v: Vec<Self>) {
        Gnu64Registers::general_purpose_registers()
    }

    fn argument_registers() -> (v: Vec<Self>) {
        let v = vec![
            Gnu64Registers::Rdi,
            Gnu64Registers::Rsi,
            Gnu64Registers::Rdx,
            Gnu64Registers::Rcx,
            Gnu64Registers::R8,
            Gnu64Registers::R9,
        ];
        assert(v@ =~= Self::argument_registers_spec());
        v
    }

    fn same(&self, other: &Self) -> (b: bool) {
        *self == *other
    }
}

/// The text of a location in the GNU assembler: `%` and the register, or
/// the offset below the base pointer.
pub open spec fn gnu_location<R: Registers>(l: Location<R>) -> Seq<char> {
    match l {
        Location::Register(r) => "%"@ + r.assembly(),
        Location::Stack(offset) => "-"@ + decimal(offset as nat) + "("@ + ("%"@ + R::base_pointer_spec().assembly())
            + ")"@,
    }
}

/// The lines of a function called `name` whose body is `code`.
pub open spec fn gnu_function_lines<R: Registers>(name: Seq<char>, code: Seq<Seq<char>>) -> Seq<Seq<char>> {
    let body = seq![
        "pushq "@ + gnu_location(Location::<R>::Register(R::base_pointer_spec())),
        "movq "@ + gnu_location(Location::<R>::Register(R::stack_pointer_spec())) + ", "@ + gnu_location(
            Location::<R>::Register(R::base_pointer_spec()),
        ),
    ] + code + seq!["ret"@];
    (seq![".globl _"@ + name, "_"@ + name + ":"@] + body.map_values(|l: Seq<char>| pad_line(l, 4))).push(seq![])
}

/// The lines that start a program: `_start` calls `main` and exits with its
/// result.
pub open spec fn gnu_start_lines() -> Seq<Seq<char>> {
    (seq![".globl _start"@, "_start:"@] + seq![
        "call _main"@,
        "movq %rax, %rbx"@,
        "movq $1, %rax"@,
        "int $0x80"@,
        "ret"@,
    ].map_values(|l: Seq<char>| pad_line(l, 4))).push(seq![])
}

/// The text of a program made of `code`.
pub open spec fn gnu_program_text(code: Seq<Seq<char>>) -> Seq<char> {
    ".text\n"@ + join(gnu_start_lines() + code, "\n"@)
}

/// An instruction that the GNU flavour turns into assembly, in the form the
/// first code generator wrote them; numbers are kept as written.
#[derive(Debug, Clone, PartialEq)]
pub enum GnuInstruction {
    /// A number loaded into a new temporary.
    LoadNumber(String, String),
    /// A number returned from the function.
    ReturnNumber(String),
    /// The value of a name returned from the function.
    ReturnVariable(String),
    /// A call of a function with arguments; its result is kept in a new
    /// temporary.
    FunctionCall(String, Vec<String>, String),
    /// An argument of the function kept under a name.
    LoadArgument(usize, String),
}

/// `GnuInstruction` with its texts taken as sequences of characters.
pub enum GnuInstructionView {
    LoadNumber(Seq<char>, Seq<char>),
    ReturnNumber(Seq<char>),
    ReturnVariable(Seq<char>),
    FunctionCall(Seq<char>, Seq<Seq<char>>, Seq<char>),
    LoadArgument(usize, Seq<char>),
}

impl View for GnuInstruction {
    type V = GnuInstructionView;

    open spec fn view(&self) -> GnuInstructionView {
        match self {
            GnuInstruction::LoadNumber(n, t) => GnuInstructionView::LoadNumber(n@, t@),
            GnuInstruction::ReturnNumber(n) => GnuInstructionView::ReturnNumber(n@),
            GnuInstruction::ReturnVariable(v) => GnuInstructionView::ReturnVariable(v@),
            GnuInstruction::FunctionCall(n, args, t) => GnuInstructionView::FunctionCall(n@, views_of(args@), t@),
            GnuInstruction::LoadArgument(a, v) => GnuInstructionView::LoadArgument(*a, v@),
        }
    }
}

/// The lines of a result, or its error.
pub open spec fn lines_result_view(r: Result<Vec<String>, GeneratorErrors>) -> Result<Seq<Seq<char>>, GeneratorErrorsView> {
    match r {
        Ok(v) => Ok(views_of(v@)),
        Err(e) => Err(e@),
    }
}

/// The instructions the GNU flavour handles on `m`: a new temporary must fit,
/// an argument's stack offset must fit, and a call must displace no name
/// from the locations its arguments are passed in.
pub open spec fn gnu_instruction_ok<R: Registers>(m: ManagementView<R>, i: GnuInstructionView) -> bool {
    match i {
        GnuInstructionView::LoadNumber(_, _) => m.can_reserve(1),
        GnuInstructionView::ReturnNumber(_) => true,
        GnuInstructionView::ReturnVariable(_) => true,
        GnuInstructionView::FunctionCall(_, args, _) => {
            &&& forall|k: nat| k < args.len() ==> argument_fits::<R>(k)
            &&& conflicts(m.entries, argument_entries::<R>(args)).len() == 0
            &&& m.can_reserve(1)
        },
        GnuInstructionView::LoadArgument(arg, _) => argument_fits::<R>(arg as nat) && m.can_reserve(1),
    }
}

/// What the GNU flavour makes of an instruction on `m`: the memory manager
/// after it, and the lines of assembly or the error.
pub open spec fn gnu_instruction_spec<R: Registers>(m: ManagementView<R>, i: GnuInstructionView) -> (
    ManagementView<R>,
    Result<Seq<Seq<char>>, GeneratorErrorsView>,
) {
    let ret = gnu_location(Location::<R>::Register(R::return_register_spec()));
    match i {
        GnuInstructionView::LoadNumber(number, temporary) => {
            let (m2, l) = m.after_reserve(temporary);
            (m2, Ok(seq!["movq $"@ + number + ", "@ + gnu_location(l)]))
        },
        GnuInstructionView::ReturnNumber(number) => (m, Ok(seq!["movq $"@ + number + ", "@ + ret, "leave"@])),
        GnuInstructionView::ReturnVariable(variable) => match entry_get(m.entries, variable) {
            Some(l) => (m, Ok(seq!["movq "@ + gnu_location(l) + ", "@ + ret, "leave"@])),
            None => (m, Err(GeneratorErrorsView::VariableNotDefined(variable))),
        },
        GnuInstructionView::FunctionCall(name, args, temporary) => {
            let m1 = ManagementView { entries: insert_entries(m.entries, argument_entries::<R>(args)), ..m };
            let (m2, l) = m1.after_reserve(temporary);
            (m2, Ok(seq!["call _"@ + name, "movq "@ + ret + ", "@ + gnu_location(l)]))
        },
        GnuInstructionView::LoadArgument(arg, variable) => {
            let (m2, l) = m.after_reserve(variable);
            (m2, Ok(seq!["movq "@ + gnu_location(argument_location::<R>(arg as nat)) + ", "@ + gnu_location(l)]))
        },
    }
}

/// Assembly for the GNU assembler, as the first code generator wrote it.
pub struct GnuFlavour<R: Registers> {
    pub mm: MemoryManagement<R>,
}

pub(crate) fn concat_lines(a: Vec<String>, b: &Vec<String>) -> (v: Vec<String>)
    ensures
        views_of(v@) == views_of(a@) + views_of(b@),
{
    let mut v = a;
    let ghost start = views_of(v@);
    let mut i: usize = 0;
    while i < b.len()
        invariant
            0 <= i <= b.len(),
            views_of(v@) == start + views_of(b@.take(i as int)),
        decreases b.len() - i,
    {
        let ghost before = v@;
        v.push(b[i].clone());
        assert(views_of(v@) =~= views_of(before).push(b@[i as int]@));
        assert(views_of(b@.take(i + 1)) =~= views_of(b@.take(i as int)).push(b@[i as int]@));
        i = i + 1;
    }
    assert(b@.take(b.len() as int) =~= b@);
    v
}

proof fn lemma_padded_views(v: Seq<String>, w: Seq<String>, padding: nat)
    requires
        v.len() == w.len(),
        forall|i: int| 0 <= i < v.len() ==> (#[trigger] w[i])@ == pad_line(v[i]@, padding),
    ensures
        views_of(w) == views_of(v).map_values(|l: Seq<char>| pad_line(l, padding)),
{
    assert(views_of(w) =~= views_of(v).map_values(|l: Seq<char>| pad_line(l, padding)));
}

impl<R: Registers> GnuFlavour<R> {
    /// A flavour whose memory manager has every register free.
    pub fn default() -> (f: Self)
        ensures
            f.mm@.free_registers == R::general_purpose_spec(),
            f.mm@.entries == Seq::<(Seq<char>, Location<R>)>::empty(),
            f.mm@.allocated_stack == 0,
    {
        GnuFlavour { mm: MemoryManagement::default() }
    }

    /// The location of the stack pointer.
    pub fn stack_pointer_register_location() -> (l: Location<R>)
        ensures
            l == Location::<R>::Register(R::stack_pointer_spec()),
    {
        Location::Register(R::stack_pointer())
    }

    /// The location of the base pointer.
    pub fn base_pointer_register_location() -> (l: Location<R>)
        ensures
            l == Location::<R>::Register(R::base_pointer_spec()),
    {
        Location::Register(R::base_pointer())
    }

    /// The location values are returned in.
    pub fn return_register_location() -> (l: Location<R>)
        ensures
            l == Location::<R>::Register(R::return_register_spec()),
    {
        Location::Register(R::return_register())
    }

    /// The text of `location`.
    pub fn location(location: Location<R>) -> (s: String)
        ensures
            s@ == gnu_location(location),
    {
        match location {
            Location::Register(register) => {
                let mut s = String::from_str("%");
                s.append(register.to_assembly().as_str());
                s
            },
            Location::Stack(offset) => {
                let mut s = String::from_str("-");
                s.append(decimal_text(offset).as_str());
                s.append("(");
                match Self::base_pointer_register_location() {
                    Location::Register(bp) => {
                        s.append("%");
                        s.append(bp.to_assembly().as_str());
                    },
                    Location::Stack(_) => {},
                }
                s.append(")");
                s
            },
        }
    }

    /// The assembly of one instruction: a number or an argument is moved
    /// into a newly reserved temporary, a return moves its value into the
    /// return register and leaves the frame, and a call puts its arguments
    /// in place, calls, and keeps the result in a new temporary. Returning a
    /// name that is not reserved is an error.
    pub fn generate_instruction(&mut self, instruction: GnuInstruction) -> (r: Result<Vec<String>, GeneratorErrors>)
        requires
            gnu_instruction_ok(old(self).mm@, instruction@),
        ensures
            (final(self).mm@, lines_result_view(r)) == gnu_instruction_spec(old(self).mm@, instruction@),
    {
        match instruction {
            GnuInstruction::LoadNumber(number, temporary) => {
                let l = self.mm.reserve(temporary.as_str());
                let mut line = String::from_str("movq $");
                line.append(number.as_str());
                line.append(", ");
                line.append(Self::location(l).as_str());
                let v = vec![line];
                assert(views_of(v@) =~= seq![line@]);
                Ok(v)
            },
            GnuInstruction::ReturnNumber(number) => {
                let mut line = String::from_str("movq $");
                line.append(number.as_str());
                line.append(", ");
                line.append(Self::location(Self::return_register_location()).as_str());
                let leave = String::from_str("leave");
                let v = vec![line, leave];
                assert(views_of(v@) =~= seq![line@, leave@]);
                Ok(v)
            },
            GnuInstruction::ReturnVariable(variable) => match self.mm.get(variable.as_str()) {
                Ok(location) => {
                    let mut line = String::from_str("movq ");
                    line.append(Self::location(location).as_str());
                    line.append(", ");
                    line.append(Self::location(Self::return_register_location()).as_str());
                    let leave = String::from_str("leave");
                    let v = vec![line, leave];
                    assert(views_of(v@) =~= seq![line@, leave@]);
                    Ok(v)
                },
                Err(e) => Err(e),
            },
            GnuInstruction::FunctionCall(name, arguments, return_temporary) => {
                let copies = self.mm.put_arguments(arguments.as_slice());
                // No name is displaced, so nothing is copied.
                assert(copies@.map_values(|i: Instruction| i@).len() == copies@.len());
                assert(copies@.len() == 0);
                let mut call = String::from_str("call _");
                call.append(name.as_str());
                let mut line = String::from_str("movq ");
                line.append(Self::location(Self::return_register_location()).as_str());
                line.append(", ");
                let l = self.mm.reserve(return_temporary.as_str());
                line.append(Self::location(l).as_str());
                let v = vec![call, line];
                assert(views_of(v@) =~= seq![call@, line@]);
                Ok(v)
            },
            GnuInstruction::LoadArgument(arg, variable) => {
                let arg_location = self.mm.get_argument(arg);
                let variable_location = self.mm.reserve(variable.as_str());
                let mut line = String::from_str("movq ");
                line.append(Self::location(arg_location).as_str());
                line.append(", ");
                line.append(Self::location(variable_location).as_str());
                let v = vec![line];
                assert(views_of(v@) =~= seq![line@]);
                Ok(v)
            },
        }
    }

    /// The lines of a function called `name` whose body is `code`: its
    /// label, the frame set up, the code, `ret`, then an empty line.
    pub fn generate_function(name: &str, code: &[String]) -> (v: Vec<String>)
        ensures
            views_of(v@) == gnu_function_lines::<R>(name@, views_of(code@)),
    {
        let bp = Self::location(Self::base_pointer_register_location());
        let sp = Self::location(Self::stack_pointer_register_location());
        let mut push = String::from_str("pushq ");
        push.append(bp.as_str());
        let mut mov = String::from_str("movq ");
        mov.append(sp.as_str());
        mov.append(", ");
        mov.append(bp.as_str());
        let mut code_lines: Vec<String> = Vec::new();
        let mut i: usize = 0;
        while i < code.len()
            invariant
                0 <= i <= code.len(),
                views_of(code_lines@) == views_of(code@.take(i as int)),
            decreases code.len() - i,
        {
            let ghost before = code_lines@;
            code_lines.push(code[i].clone());
            assert(views_of(code_lines@) =~= views_of(before).push(code@[i as int]@));
            assert(views_of(code@.take(i + 1)) =~= views_of(code@.take(i as int)).push(code@[i as int]@));
            i = i + 1;
        }
        assert(code@.take(code.len() as int) =~= code@);
        let body = concat_lines(vec![push, mov], &code_lines);
        let body = concat_lines(body, &vec![String::from_str("ret")]);
        let padded = pad_lines(&body, 4);
        proof {
            lemma_padded_views(body@, padded@, 4);
        }
        let mut head = String::from_str(".globl _");
        head.append(name);
        let mut label = String::from_str("_");
        label.append(name);
        label.append(":");
        let lines = concat_lines(vec![head, label], &padded);
        let v = space_bottom(lines.as_slice());
        proof {
            let b = seq![
                "pushq "@ + gnu_location(Location::<R>::Register(R::base_pointer_spec())),
                "movq "@ + gnu_location(Location::<R>::Register(R::stack_pointer_spec())) + ", "@ + gnu_location(
                    Location::<R>::Register(R::base_pointer_spec()),
                ),
            ] + views_of(code@) + seq!["ret"@];
            assert(views_of(body@) =~= b);
        }
        v
    }

    /// The text of a program made of `code`: `.text`, the start of the
    /// program, then the code, one line after another.
    pub fn generate_program(code: &[String]) -> (s: String)
        ensures
            s@ == gnu_program_text(views_of(code@)),
    {
        let start = vec![
            String::from_str("call _main"),
            String::from_str("movq %rax, %rbx"),
            String::from_str("movq $1, %rax"),
            String::from_str("int $0x80"),
            String::from_str("ret"),
        ];
        let padded = pad_lines(&start, 4);
        proof {
            lemma_padded_views(start@, padded@, 4);
            assert(views_of(start@) =~= seq![
                "call _main"@,
                "movq %rax, %rbx"@,
                "movq $1, %rax"@,
                "int $0x80"@,
                "ret"@,
            ]);
        }
        let head = vec![String::from_str(".globl _start"), String::from_str("_start:")];
        assert(views_of(head@) =~= seq![".globl _start"@, "_start:"@]);
        let lines = concat_lines(head, &padded);
        let start_fn = space_bottom(lines.as_slice());
        let mut code_lines: Vec<String> = Vec::new();
        let mut i: usize = 0;
        while i < code.len()
            invariant
                0 <= i <= code.len(),
                views_of(code_lines@) == views_of(code@.take(i as int)),
            decreases code.len() - i,
        {
            let ghost before = code_lines@;
            code_lines.push(code[i].clone());
            assert(views_of(code_lines@) =~= views_of(before).push(code@[i as int]@));
            assert(views_of(code@.take(i + 1)) =~= views_of(code@.take(i as int)).push(code@[i as int]@));
            i = i + 1;
        }
        assert(code@.take(code.len() as int) =~= code@);
        let all = concat_lines(start_fn, &code_lines);
        let mut s = String::from_str(".text\n");
        s.append(join_strings(&all, "\n").as_str());
        s
    }
}

/// Each line the GNU flavour writes moves its source into its destination,
/// source first: a number is moved into the location its temporary is kept
/// at afterwards, a returned value from its location into the return
/// register, then the frame is left; an argument from where it is passed
/// into where its name is kept afterwards; and after a call, the return
/// register into where the result's temporary is kept afterwards.
pub proof fn law_gnu_moves<R: Registers>(
    m: ManagementView<R>,
    number: Seq<char>,
    name: Seq<char>,
    args: Seq<Seq<char>>,
    arg: usize,
    temporary: Seq<char>,
)
    ensures
        ({
            let ret = gnu_location(Location::<R>::Register(R::return_register_spec()));
            &&& {
                let (m2, r) = gnu_instruction_spec(m, GnuInstructionView::LoadNumber(number, temporary));
                entry_get(m2.entries, temporary) matches Some(l)
                    && r == Ok::<Seq<Seq<char>>, GeneratorErrorsView>(seq!["movq "@ + ("$"@ + number) + ", "@ + gnu_location(l)])
            }
            &&& {
                let (m2, r) = gnu_instruction_spec(m, GnuInstructionView::ReturnNumber(number));
                m2 == m && r == Ok::<Seq<Seq<char>>, GeneratorErrorsView>(seq!["movq "@ + ("$"@ + number) + ", "@ + ret, "leave"@])
            }
            &&& {
                let (m2, r) = gnu_instruction_spec(m, GnuInstructionView::ReturnVariable(name));
                &&& m2 == m
                &&& entry_get(m.entries, name) matches Some(l) ==> r == Ok::<Seq<Seq<char>>, GeneratorErrorsView>(
                    seq!["movq "@ + gnu_location(l) + ", "@ + ret, "leave"@],
                )
                &&& entry_get(m.entries, name) is None ==> r == Err::<Seq<Seq<char>>, GeneratorErrorsView>(
                    GeneratorErrorsView::VariableNotDefined(name),
                )
            }
            &&& {
                let (m2, r) = gnu_instruction_spec(m, GnuInstructionView::LoadArgument(arg, temporary));
                entry_get(m2.entries, temporary) matches Some(l) && r == Ok::<Seq<Seq<char>>, GeneratorErrorsView>(
                    seq!["movq "@ + gnu_location(argument_location::<R>(arg as nat)) + ", "@ + gnu_location(l)],
                )
            }
            &&& {
                let (m2, r) = gnu_instruction_spec(m, GnuInstructionView::FunctionCall(name, args, temporary));
                entry_get(m2.entries, temporary) matches Some(l) && r == Ok::<Seq<Seq<char>>, GeneratorErrorsView>(
                    seq!["call _"@ + name, "movq "@ + ret + ", "@ + gnu_location(l)],
                )
            }
        }),
{
    law_get_after_reserve(m, temporary, temporary);
    let m1 = ManagementView { entries: insert_entries(m.entries, argument_entries::<R>(args)), ..m };
    law_get_after_reserve(m1, temporary, temporary);
    reveal_strlit("movq $");
    reveal_strlit("movq ");
    reveal_strlit("$");
    assert("movq $"@ =~= "movq "@ + "$"@);
    let ret = gnu_location(Location::<R>::Register(R::return_register_spec()));
    let l = m.after_reserve(temporary).1;
    assert("movq $"@ + number + ", "@ + gnu_location(l) =~= "movq "@ + ("$"@ + number) + ", "@ + gnu_location(l));
    assert("movq $"@ + number + ", "@ + ret =~= "movq "@ + ("$"@ + number) + ", "@ + ret);
}

} // verus!
