use vstd::prelude::*;

use crate::errors::GeneratorErrors;
use crate::generator::locations::{Location, LocationView};
use crate::generator::registers::Registers;
use crate::text::{decimal, decimal_text, pad_right, padded, push_char};

verus! {

broadcast use vstd::string::group_string_axioms;

/// An instruction of the assembly that is generated.
#[derive(Debug, Clone, PartialEq)]
pub enum AssemblyInstruction {
    /// label
    Label,
    /// label
    Jmp,
    /// label
    Je,
    /// a, b
    Test,
    /// destination, source
    Move,
    /// a, b
    Swap,
    /// function
    Call,
    /// destination and first operand, second operand
    Add,
    /// destination and first operand, second operand
    Sub,
    /// destination and first operand, second operand
    Mul,
    /// divisor
    Div,
    /// A line of assembly written out in full.
    Raw(String),
}

/// An operand of an assembly instruction.
#[derive(Debug, PartialEq)]
pub enum AssemblyInstructionParameter<R: Registers> {
    Register(R),
    Memory(usize),
    /// A number, as it is written in the source program.
    Number(String),
    Char(char),
    Function(String),
    Label(String),
    Data(String),
}

/// `AssemblyInstruction` with its text taken as a sequence of characters.
pub enum AssemblyInstructionView {
    Label,
    Jmp,
    Je,
    Test,
    Move,
    Swap,
    Call,
    Add,
    Sub,
    Mul,
    Div,
    Raw(Seq<char>),
}

/// `AssemblyInstructionParameter` with its texts taken as sequences of characters.
pub enum ParameterView<R> {
    Register(R),
    Memory(usize),
    Number(Seq<char>),
    Char(char),
    Function(Seq<char>),
    Label(Seq<char>),
    Data(Seq<char>),
}

impl View for AssemblyInstruction {
    type V = AssemblyInstructionView;

    open spec fn view(&self) -> AssemblyInstructionView {
        match self {
            AssemblyInstruction::Label => AssemblyInstructionView::Label,
            AssemblyInstruction::Jmp => AssemblyInstructionView::Jmp,
            AssemblyInstruction::Je => AssemblyInstructionView::Je,
            AssemblyInstruction::Test => AssemblyInstructionView::Test,
            AssemblyInstruction::Move => AssemblyInstructionView::Move,
            AssemblyInstruction::Swap => AssemblyInstructionView::Swap,
            AssemblyInstruction::Call => AssemblyInstructionView::Call,
            AssemblyInstruction::Add => AssemblyInstructionView::Add,
            AssemblyInstruction::Sub => AssemblyInstructionView::Sub,
            AssemblyInstruction::Mul => AssemblyInstructionView::Mul,
            AssemblyInstruction::Div => AssemblyInstructionView::Div,
            AssemblyInstruction::Raw(s) => AssemblyInstructionView::Raw(s@),
        }
    }
}

impl<R: Registers> View for AssemblyInstructionParameter<R> {
    type V = ParameterView<R>;

    open spec fn view(&self) -> ParameterView<R> {
        match self {
            AssemblyInstructionParameter::Register(r) => ParameterView::Register(*r),
            AssemblyInstructionParameter::Memory(m) => ParameterView::Memory(*m),
            AssemblyInstructionParameter::Number(n) => ParameterView::Number(n@),
            AssemblyInstructionParameter::Char(c) => ParameterView::Char(*c),
            AssemblyInstructionParameter::Function(f) => ParameterView::Function(f@),
            AssemblyInstructionParameter::Label(l) => ParameterView::Label(l@),
            AssemblyInstructionParameter::Data(d) => ParameterView::Data(d@),
        }
    }
}

impl<R: Registers> Clone for AssemblyInstructionParameter<R> {
    fn clone(&self) -> (r: Self)
        ensures
            r@ == self@,
    {
        match self {
            AssemblyInstructionParameter::Register(r) => AssemblyInstructionParameter::Register(*r),
            AssemblyInstructionParameter::Memory(m) => AssemblyInstructionParameter::Memory(*m),
            AssemblyInstructionParameter::Number(n) => AssemblyInstructionParameter::Number(n.clone()),
            AssemblyInstructionParameter::Char(c) => AssemblyInstructionParameter::Char(*c),
            AssemblyInstructionParameter::Function(f) => AssemblyInstructionParameter::Function(f.clone()),
            AssemblyInstructionParameter::Label(l) => AssemblyInstructionParameter::Label(l.clone()),
            AssemblyInstructionParameter::Data(d) => AssemblyInstructionParameter::Data(d.clone()),
        }
    }
}

/// The operand that stands for a location: a register, a stack slot, or the
/// address of named data.
pub open spec fn parameter_of<R: Registers>(l: LocationView<R>) -> ParameterView<R> {
    match l {
        LocationView::Register(r) => ParameterView::Register(r),
        LocationView::Stack(n) => ParameterView::Memory(n),
        LocationView::Hardcoded(s) => ParameterView::Data(s),
    }
}

impl<R: Registers> AssemblyInstructionParameter<R> {
    /// The operand that stands for `location`.
    pub fn from_location(location: &Location<R>) -> (p: Self)
        ensures
            p@ == parameter_of(location@),
    {
        match location {
            Location::Register(r) => AssemblyInstructionParameter::Register(*r),
            Location::Stack(n) => AssemblyInstructionParameter::Memory(*n),
            Location::Hardcoded(s) => AssemblyInstructionParameter::Data(s.clone()),
        }
    }
}

/// The operand that stands for a location.
impl<R: Registers> From<Location<R>> for AssemblyInstructionParameter<R> {
    fn from(location: Location<R>) -> (p: Self) {
        match location {
            Location::Register(r) => AssemblyInstructionParameter::Register(r),
            Location::Stack(n) => AssemblyInstructionParameter::Memory(n),
            Location::Hardcoded(s) => AssemblyInstructionParameter::Data(s),
        }
    }
}

impl<R: Registers> vstd::std_specs::convert::FromSpecImpl<Location<R>> for AssemblyInstructionParameter<R> {
    open spec fn obeys_from_spec() -> bool {
        true
    }

    open spec fn from_spec(location: Location<R>) -> Self {
        match location {
            Location::Register(r) => AssemblyInstructionParameter::Register(r),
            Location::Stack(n) => AssemblyInstructionParameter::Memory(n),
            Location::Hardcoded(s) => AssemblyInstructionParameter::Data(s),
        }
    }
}

/// An instruction with its operands and a comment.
pub type FullInstruction<R> = (AssemblyInstruction, Vec<AssemblyInstructionParameter<R>>, String);

/// The views of a sequence of operands.
pub open spec fn parameters_view<R: Registers>(v: Seq<AssemblyInstructionParameter<R>>) -> Seq<ParameterView<R>> {
    v.map_values(|p: AssemblyInstructionParameter<R>| p@)
}

/// The view of a full instruction.
pub open spec fn full_view<R: Registers>(f: FullInstruction<R>) -> (AssemblyInstructionView, Seq<ParameterView<R>>, Seq<char>) {
    (f.0@, parameters_view(f.1@), f.2@)
}

/// The number of operands an instruction reads.
pub open spec fn arity(i: AssemblyInstructionView) -> nat {
    match i {
        AssemblyInstructionView::Label => 1,
        AssemblyInstructionView::Jmp => 1,
        AssemblyInstructionView::Je => 1,
        AssemblyInstructionView::Test => 2,
        AssemblyInstructionView::Move => 2,
        AssemblyInstructionView::Swap => 2,
        AssemblyInstructionView::Call => 1,
        AssemblyInstructionView::Add => 2,
        AssemblyInstructionView::Sub => 2,
        AssemblyInstructionView::Mul => 2,
        AssemblyInstructionView::Div => 1,
        AssemblyInstructionView::Raw(_) => 0,
    }
}

/// An instruction followed by its arguments: `name a, b`.
pub open spec fn with_arguments(name: Seq<char>, args: Seq<Seq<char>>) -> Seq<char> {
    name + " "@ + crate::text::join(args, ", "@)
}

/// A line of assembly with its comment, the comment starting at column 31.
pub open spec fn with_comment(code: Seq<char>, comment: Seq<char>) -> Seq<char> {
    pad_right(code, 29) + " # "@ + comment
}

/// `instruction` followed by `arguments`, separated by commas.
pub fn instruction_with_arguments(instruction: &str, arguments: &Vec<String>) -> (r: String)
    ensures
        r@ == with_arguments(instruction@, crate::text::views_of(arguments@)),
{
    let mut r = String::from_str(instruction);
    r.append(" ");
    let args = crate::text::join_strings(arguments, ", ");
    r.append(args.as_str());
    r
}

/// `code` padded to 29 characters, then its comment.
pub fn asm_with_comment(code: &str, comment: &str) -> (r: String)
    ensures
        r@ == with_comment(code@, comment@),
{
    let mut r = padded(code, 29);
    r.append(" # ");
    r.append(comment);
    r
}

/// A way of writing assembly text.
pub trait AssemblyFlavour<R: Registers> {
    /// The text of an operand.
    spec fn parameter_text(p: ParameterView<R>) -> Seq<char>;

    /// The line of an instruction with its operands and comment.
    spec fn instruction_text(
        i: AssemblyInstructionView,
        parameters: Seq<ParameterView<R>>,
        comment: Seq<char>,
    ) -> Seq<char>;

    /// The lines that start a program.
    spec fn scaffold_text() -> Seq<Seq<char>>;

    /// The lines that start a function called `name`.
    spec fn header_text(name: Seq<char>) -> Seq<char>;

    /// The lines before the body of a function.
    spec fn prologue_text() -> Seq<Seq<char>>;

    /// The lines after the body of a function.
    spec fn epilogue_text() -> Seq<Seq<char>>;

    /// The line of an instruction inside a function body.
    spec fn body_line(i: AssemblyInstructionView, parameters: Seq<ParameterView<R>>, comment: Seq<char>) -> Seq<char>;

    fn generate_parameter(parameter: &AssemblyInstructionParameter<R>) -> (s: String)
        ensures
            s@ == Self::parameter_text(parameter@),
    ;

    fn generate_instruction(
        instruction: &AssemblyInstruction,
        parameters: &Vec<AssemblyInstructionParameter<R>>,
        comment: &str,
    ) -> (s: String)
        requires
            parameters.len() >= arity(instruction@),
        ensures
            s@ == Self::instruction_text(instruction@, parameters_view(parameters@), comment@),
    ;

    fn generate_program_scaffold() -> (v: Vec<String>)
        ensures
            crate::text::views_of(v@) == Self::scaffold_text(),
    ;

    fn generate_function_header(name: &str) -> (s: String)
        ensures
            s@ == Self::header_text(name@),
    ;

    fn generate_function_body(instructions: Vec<Result<FullInstruction<R>, GeneratorErrors>>) -> (v:
        Vec<Result<String, GeneratorErrors>>)
        requires
            forall|i: int|
                0 <= i < instructions@.len() ==> (#[trigger] instructions@[i] matches Ok(f) ==> f.1@.len()
                    >= arity(f.0@)),
        ensures
            v@.len() == Self::prologue_text().len() + instructions@.len()
                + Self::epilogue_text().len(),
            forall|i: int|
                0 <= i < Self::prologue_text().len() ==> (#[trigger] v@[i] matches Ok(s) && s@
                    == Self::prologue_text()[i]),
            forall|i: int|
                0 <= i < instructions@.len() ==> match instructions@[i] {
                    Ok(f) => (#[trigger] v@[Self::prologue_text().len() + i] matches Ok(s) && s@
                        == Self::body_line(f.0@, parameters_view(f.1@), f.2@)),
                    Err(e) => v@[Self::prologue_text().len() + i] == Err::<String, GeneratorErrors>(e),
                },
            forall|i: int|
                0 <= i < Self::epilogue_text().len() ==> (#[trigger] v@[Self::prologue_text().len()
                    + instructions@.len() + i] matches Ok(s) && s@ == Self::epilogue_text()[i]),
    ;
}

/// Assembly in the AT&T syntax, as the GNU assembler reads it.
pub struct AtAndTFlavour;

/// The AT&T text of an operand.
pub open spec fn att_parameter<R: Registers>(p: ParameterView<R>) -> Seq<char> {
    match p {
        ParameterView::Register(r) => "%"@ + r.name_spec(),
        ParameterView::Memory(m) => "-"@ + decimal(m as nat) + "(%rax)"@,
        ParameterView::Number(n) => "$"@ + n,
        ParameterView::Char(c) => "$'"@ + seq![c] + "'"@,
        ParameterView::Function(name) => name,
        ParameterView::Label(name) => "."@ + name,
        ParameterView::Data(pointer) => "$"@ + pointer,
    }
}

/// The AT&T texts of operands.
pub open spec fn att_parameters<R: Registers>(ps: Seq<ParameterView<R>>) -> Seq<Seq<char>> {
    ps.map_values(|p: ParameterView<R>| att_parameter(p))
}

/// The AT&T text of an instruction, its operands written as `ps`.
pub open spec fn att_code(i: AssemblyInstructionView, ps: Seq<Seq<char>>) -> Seq<char> {
    match i {
        AssemblyInstructionView::Label => ps[0] + ":"@,
        AssemblyInstructionView::Jmp => with_arguments("jmp"@, seq![ps[0]]),
        AssemblyInstructionView::Je => with_arguments("je"@, seq![ps[0]]),
        AssemblyInstructionView::Test => with_arguments("testq"@, seq![ps[1], ps[0]]),
        AssemblyInstructionView::Move => with_arguments("movq"@, seq![ps[1], ps[0]]),
        AssemblyInstructionView::Swap => with_arguments("xchgq"@, seq![ps[0], ps[1]]),
        AssemblyInstructionView::Call => with_arguments("call"@, seq![ps[0]]),
        AssemblyInstructionView::Add => with_arguments("addq"@, seq![ps[1], ps[0]]),
        AssemblyInstructionView::Sub => with_arguments("subq"@, seq![ps[1], ps[0]]),
        AssemblyInstructionView::Mul => with_arguments("imulq"@, seq![ps[1], ps[0]]),
        AssemblyInstructionView::Div => with_arguments("idivq"@, seq![ps[0]]),
        AssemblyInstructionView::Raw(text) => text,
    }
}

fn two_strings(a: &String, b: &String) -> (v: Vec<String>)
    ensures
        crate::text::views_of(v@) == seq![a@, b@],
{
    let v = vec![a.clone(), b.clone()];
    assert(crate::text::views_of(v@) =~= seq![a@, b@]);
    v
}

fn one_string(a: &String) -> (v: Vec<String>)
    ensures
        crate::text::views_of(v@) == seq![a@],
{
    let v = vec![a.clone()];
    assert(crate::text::views_of(v@) =~= seq![a@]);
    v
}

fn raw_line<R: Registers>(text: &str) -> (s: String)
    ensures
        s@ == <AtAndTFlavour as AssemblyFlavour<R>>::instruction_text(
            AssemblyInstructionView::Raw(text@),
            Seq::empty(),
            ""@,
        ),
{
    let instruction = AssemblyInstruction::Raw(String::from_str(text));
    let none: Vec<AssemblyInstructionParameter<R>> = Vec::new();
    assert(parameters_view(none@) =~= Seq::<ParameterView<R>>::empty());
    <AtAndTFlavour as AssemblyFlavour<R>>::generate_instruction(&instruction, &none, "")
}

impl<R: Registers> AssemblyFlavour<R> for AtAndTFlavour {
    open spec fn parameter_text(p: ParameterView<R>) -> Seq<char> {
        att_parameter(p)
    }

    open spec fn instruction_text(
        i: AssemblyInstructionView,
        parameters: Seq<ParameterView<R>>,
        comment: Seq<char>,
    ) -> Seq<char> {
        with_comment(att_code(i, att_parameters(parameters)), comment)
    }

    open spec fn scaffold_text() -> Seq<Seq<char>> {
        seq![
            with_comment(".text"@, ""@),
            with_comment(".globl _start"@, ""@),
            with_comment("_start:"@, ""@),
            with_comment("call main"@, ""@),
            with_comment("movq $60, %rax"@, ""@),
            with_comment("xorq %rdi, %rdi"@, ""@),
            with_comment("syscall"@, ""@),
        ]
    }

    open spec fn header_text(name: Seq<char>) -> Seq<char> {
        ".globl "@ + name + "\n"@ + name + ":\n"@
    }

    open spec fn prologue_text() -> Seq<Seq<char>> {
        seq![""@, "    # Prologue"@, "    pushq %rbp"@, "    movq %rsp, %rbp"@, "        "@]
    }

    open spec fn epilogue_text() -> Seq<Seq<char>> {
        seq![
            ""@,
            "    # Epilogue"@,
            "    # leave"@,
            "    movq %rbp, %rsp"@,
            "    pop %rbp"@,
            "    ret"@,
            "        "@,
        ]
    }

    open spec fn body_line(i: AssemblyInstructionView, parameters: Seq<ParameterView<R>>, comment: Seq<char>) -> Seq<char> {
        "    "@ + Self::instruction_text(i, parameters, comment)
    }

    fn generate_parameter(parameter: &AssemblyInstructionParameter<R>) -> (s: String) {
        match parameter {
            AssemblyInstructionParameter::Register(register) => {
                let mut s = String::from_str("%");
                s.append(register.name().as_str());
                s
            },
            AssemblyInstructionParameter::Memory(memory) => {
                let mut s = String::from_str("-");
                s.append(decimal_text(*memory).as_str());
                s.append("(%rax)");
                s
            },
            AssemblyInstructionParameter::Number(number) => {
                let mut s = String::from_str("$");
                s.append(number.as_str());
                s
            },
            AssemblyInstructionParameter::Char(c) => {
                let mut s = String::from_str("$'");
                push_char(&mut s, *c);
                s.append("'");
                s
            },
            AssemblyInstructionParameter::Function(name) => name.clone(),
            AssemblyInstructionParameter::Label(name) => {
                let mut s = String::from_str(".");
                s.append(name.as_str());
                s
            },
            AssemblyInstructionParameter::Data(pointer) => {
                let mut s = String::from_str("$");
                s.append(pointer.as_str());
                s
            },
        }
    }

    fn generate_instruction(
        instruction: &AssemblyInstruction,
        parameters: &Vec<AssemblyInstructionParameter<R>>,
        comment: &str,
    ) -> (s: String) {
        let ghost pv = parameters_view(parameters@);
        let mut texts: Vec<String> = Vec::new();
        let mut i: usize = 0;
        while i < parameters.len()
            invariant
                0 <= i <= parameters.len(),
                pv == parameters_view(parameters@),
                texts@.len() == i,
                forall|j: int| 0 <= j < i ==> (#[trigger] texts@[j])@ == att_parameter(pv[j]),
            decreases parameters.len() - i,
        {
            let t = Self::generate_parameter(&parameters[i]);
            texts.push(t);
            i = i + 1;
        }
        let ghost ps = crate::text::views_of(texts@);
        assert(ps =~= att_parameters(pv));
        let code = match instruction {
            AssemblyInstruction::Label => {
                let mut a = texts[0].clone();
                a.append(":");
                a
            },
            AssemblyInstruction::Jmp => instruction_with_arguments("jmp", &one_string(&texts[0])),
            AssemblyInstruction::Je => instruction_with_arguments("je", &one_string(&texts[0])),
            AssemblyInstruction::Test => instruction_with_arguments("testq", &two_strings(&texts[1], &texts[0])),
            AssemblyInstruction::Move => instruction_with_arguments("movq", &two_strings(&texts[1], &texts[0])),
            AssemblyInstruction::Swap => instruction_with_arguments("xchgq", &two_strings(&texts[0], &texts[1])),
            AssemblyInstruction::Call => instruction_with_arguments("call", &one_string(&texts[0])),
            AssemblyInstruction::Add => instruction_with_arguments("addq", &two_strings(&texts[1], &texts[0])),
            AssemblyInstruction::Sub => instruction_with_arguments("subq", &two_strings(&texts[1], &texts[0])),
            AssemblyInstruction::Mul => instruction_with_arguments("imulq", &two_strings(&texts[1], &texts[0])),
            AssemblyInstruction::Div => instruction_with_arguments("idivq", &one_string(&texts[0])),
            AssemblyInstruction::Raw(text) => text.clone(),
        };
        assert(code@ == att_code(instruction@, ps));
        asm_with_comment(code.as_str(), comment)
    }

    fn generate_program_scaffold() -> (v: Vec<String>) {
        let v = vec![
            raw_line::<R>(".text"),
            raw_line::<R>(".globl _start"),
            raw_line::<R>("_start:"),
            raw_line::<R>("call main"),
            raw_line::<R>("movq $60, %rax"),
            raw_line::<R>("xorq %rdi, %rdi"),
            raw_line::<R>("syscall"),
        ];
        assert(crate::text::views_of(v@) =~= <AtAndTFlavour as AssemblyFlavour<R>>::scaffold_text());
        v
    }

    fn generate_function_header(name: &str) -> (s: String) {
        let mut s = String::from_str(".globl ");
        s.append(name);
        s.append("\n");
        s.append(name);
        s.append(":\n");
        s
    }

    fn generate_function_body(instructions: Vec<Result<FullInstruction<R>, GeneratorErrors>>) -> (v:
        Vec<Result<String, GeneratorErrors>>) {
        let mut v: Vec<Result<String, GeneratorErrors>> = vec![
            Ok(String::from_str("")),
            Ok(String::from_str("    # Prologue")),
            Ok(String::from_str("    pushq %rbp")),
            Ok(String::from_str("    movq %rsp, %rbp")),
            Ok(String::from_str("        ")),
        ];
        let ghost pro = <AtAndTFlavour as AssemblyFlavour<R>>::prologue_text();
        let mut i: usize = 0;
        while i < instructions.len()
            invariant
                0 <= i <= instructions.len(),
                pro == <AtAndTFlavour as AssemblyFlavour<R>>::prologue_text(),
                v@.len() == pro.len() + i,
                forall|j: int|
                    0 <= j < instructions@.len() ==> (#[trigger] instructions@[j] matches Ok(f) ==> f.1@.len()
                        >= arity(f.0@)),
                forall|j: int|
                    0 <= j < pro.len() ==> (#[trigger] v@[j] matches Ok(s) && s@ == pro[j]),
                forall|j: int|
                    0 <= j < i ==> match instructions@[j] {
                        Ok(f) => (#[trigger] v@[pro.len() + j] matches Ok(s) && s@
                            == <AtAndTFlavour as AssemblyFlavour<R>>::body_line(f.0@, parameters_view(f.1@), f.2@)),
                        Err(e) => v@[pro.len() + j] == Err::<String, GeneratorErrors>(e),
                    },
            decreases instructions.len() - i,
        {
            let line = match &instructions[i] {
                Ok((instruction, parameters, comment)) => {
                    let mut l = String::from_str("    ");
                    let text = Self::generate_instruction(instruction, parameters, comment.as_str());
                    l.append(text.as_str());
                    Ok(l)
                },
                Err(e) => Err(e.clone()),
            };
            v.push(line);
            i = i + 1;
        }
        let epilogue = vec![
            String::from_str(""),
            String::from_str("    # Epilogue"),
            String::from_str("    # leave"),
            String::from_str("    movq %rbp, %rsp"),
            String::from_str("    pop %rbp"),
            String::from_str("    ret"),
            String::from_str("        "),
        ];
        let ghost base = v@.len();
        let mut k: usize = 0;
        while k < epilogue.len()
            invariant
                0 <= k <= epilogue.len(),
                epilogue@.len() == 7,
                base == pro.len() + instructions@.len(),
                v@.len() == base + k,
                pro == <AtAndTFlavour as AssemblyFlavour<R>>::prologue_text(),
                forall|j: int| 0 <= j < 7 ==> (#[trigger] epilogue@[j])@ == <AtAndTFlavour as AssemblyFlavour<R>>::epilogue_text()[j],
                forall|j: int|
                    0 <= j < pro.len() ==> (#[trigger] v@[j] matches Ok(s) && s@ == pro[j]),
                forall|j: int|
                    0 <= j < instructions@.len() ==> match instructions@[j] {
                        Ok(f) => (#[trigger] v@[pro.len() + j] matches Ok(s) && s@
                            == <AtAndTFlavour as AssemblyFlavour<R>>::body_line(f.0@, parameters_view(f.1@), f.2@)),
                        Err(e) => v@[pro.len() + j] == Err::<String, GeneratorErrors>(e),
                    },
                forall|j: int| 0 <= j < k ==> (#[trigger] v@[base + j] matches Ok(s) && s@ == <AtAndTFlavour as AssemblyFlavour<R>>::epilogue_text()[j]),
            decreases epilogue.len() - k,
        {
            v.push(Ok(epilogue[k].clone()));
            k = k + 1;
        }
        v
    }
}

/// Two texts joined by a separator.
proof fn lemma_join_two(a: Seq<char>, b: Seq<char>, sep: Seq<char>)
    ensures
        crate::text::join(seq![a, b], sep) == a + sep + b,
{
    assert(seq![a, b].drop_last() =~= seq![a]);
    assert(crate::text::join(seq![a], sep) == a);
    assert(seq![a, b].last() == b);
}

/// The AT&T text of a two-operand instruction on a destination `d` and a
/// source `s` names the source first and the destination last, for a move,
/// an addition, a subtraction, a multiplication and a test alike:
/// `subq <s>, <d>` sets `d` to `d - s`. A swap names its operands in order.
pub proof fn law_att_operand_order<R: Registers>(d: ParameterView<R>, s: ParameterView<R>, comment: Seq<char>)
    ensures
        <AtAndTFlavour as AssemblyFlavour<R>>::instruction_text(AssemblyInstructionView::Move, seq![d, s], comment)
            == with_comment("movq"@ + " "@ + att_parameter(s) + ", "@ + att_parameter(d), comment),
        <AtAndTFlavour as AssemblyFlavour<R>>::instruction_text(AssemblyInstructionView::Add, seq![d, s], comment)
            == with_comment("addq"@ + " "@ + att_parameter(s) + ", "@ + att_parameter(d), comment),
        <AtAndTFlavour as AssemblyFlavour<R>>::instruction_text(AssemblyInstructionView::Sub, seq![d, s], comment)
            == with_comment("subq"@ + " "@ + att_parameter(s) + ", "@ + att_parameter(d), comment),
        <AtAndTFlavour as AssemblyFlavour<R>>::instruction_text(AssemblyInstructionView::Mul, seq![d, s], comment)
            == with_comment("imulq"@ + " "@ + att_parameter(s) + ", "@ + att_parameter(d), comment),
        <AtAndTFlavour as AssemblyFlavour<R>>::instruction_text(AssemblyInstructionView::Test, seq![d, s], comment)
            == with_comment("testq"@ + " "@ + att_parameter(s) + ", "@ + att_parameter(d), comment),
        <AtAndTFlavour as AssemblyFlavour<R>>::instruction_text(AssemblyInstructionView::Swap, seq![d, s], comment)
            == with_comment("xchgq"@ + " "@ + att_parameter(d) + ", "@ + att_parameter(s), comment),
{
    let ps = att_parameters(seq![d, s]);
    assert(ps[0] == att_parameter(d));
    assert(ps[1] == att_parameter(s));
    lemma_join_two(att_parameter(s), att_parameter(d), ", "@);
    lemma_join_two(att_parameter(d), att_parameter(s), ", "@);
    assert(seq![ps[1], ps[0]] =~= seq![att_parameter(s), att_parameter(d)]);
    assert(seq![ps[0], ps[1]] =~= seq![att_parameter(d), att_parameter(s)]);
    assert(("movq"@ + " "@) + (att_parameter(s) + ", "@ + att_parameter(d)) =~= "movq"@ + " "@ + att_parameter(s) + ", "@ + att_parameter(d));
    assert(("addq"@ + " "@) + (att_parameter(s) + ", "@ + att_parameter(d)) =~= "addq"@ + " "@ + att_parameter(s) + ", "@ + att_parameter(d));
    assert(("subq"@ + " "@) + (att_parameter(s) + ", "@ + att_parameter(d)) =~= "subq"@ + " "@ + att_parameter(s) + ", "@ + att_parameter(d));
    assert(("imulq"@ + " "@) + (att_parameter(s) + ", "@ + att_parameter(d)) =~= "imulq"@ + " "@ + att_parameter(s) + ", "@ + att_parameter(d));
    assert(("testq"@ + " "@) + (att_parameter(s) + ", "@ + att_parameter(d)) =~= "testq"@ + " "@ + att_parameter(s) + ", "@ + att_parameter(d));
    assert(("xchgq"@ + " "@) + (att_parameter(d) + ", "@ + att_parameter(s)) =~= "xchgq"@ + " "@ + att_parameter(d) + ", "@ + att_parameter(s));
}

} // verus!
