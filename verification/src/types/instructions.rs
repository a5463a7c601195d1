use vstd::prelude::*;

verus! {

/// An instruction of the intermediate code that the generator turns into
/// assembly. Names are those of temporaries; numbers are kept as written.
#[derive(Debug, Clone, PartialEq)]
pub enum Instruction {
    Declare(String),
    FunctionCall(String, Vec<String>, Option<String>),
    LoadBoolean(String, bool),
    LoadNumber(String, String),
    LoadChar(String, char),
    LoadStringLocation(String, String),
    ReturnVariable(String),
    TakeArgument(usize, String),
    Copy(String, String),
    AddVariables(String, String, String),
    SubtractVariables(String, String, String),
    MultiplyVariables(String, String, String),
    DivideVariables(String, String, String),
    ModuloVariables(String, String, String),
    Label(String),
    ConditionalJump(String, String),
}

/// `Instruction` with its names taken as sequences of characters.
pub enum InstructionView {
    Declare(Seq<char>),
    FunctionCall(Seq<char>, Seq<Seq<char>>, Option<Seq<char>>),
    LoadBoolean(Seq<char>, bool),
    LoadNumber(Seq<char>, Seq<char>),
    LoadChar(Seq<char>, char),
    LoadStringLocation(Seq<char>, Seq<char>),
    ReturnVariable(Seq<char>),
    TakeArgument(usize, Seq<char>),
    Copy(Seq<char>, Seq<char>),
    AddVariables(Seq<char>, Seq<char>, Seq<char>),
    SubtractVariables(Seq<char>, Seq<char>, Seq<char>),
    MultiplyVariables(Seq<char>, Seq<char>, Seq<char>),
    DivideVariables(Seq<char>, Seq<char>, Seq<char>),
    ModuloVariables(Seq<char>, Seq<char>, Seq<char>),
    Label(Seq<char>),
    ConditionalJump(Seq<char>, Seq<char>),
}

/// An optional name taken as a sequence of characters.
pub open spec fn option_view(o: Option<String>) -> Option<Seq<char>> {
    match o {
        Some(s) => Some(s@),
        None => None,
    }
}

impl View for Instruction {
    type V = InstructionView;

    open spec fn view(&self) -> InstructionView {
        match self {
            Instruction::Declare(a) => InstructionView::Declare(a@),
            Instruction::FunctionCall(n, args, r) => InstructionView::FunctionCall(
                n@,
                crate::text::views_of(args@),
                option_view(*r),
            ),
            Instruction::LoadBoolean(t, b) => InstructionView::LoadBoolean(t@, *b),
            Instruction::LoadNumber(t, n) => InstructionView::LoadNumber(t@, n@),
            Instruction::LoadChar(t, c) => InstructionView::LoadChar(t@, *c),
            Instruction::LoadStringLocation(t, s) => InstructionView::LoadStringLocation(t@, s@),
            Instruction::ReturnVariable(t) => InstructionView::ReturnVariable(t@),
            Instruction::TakeArgument(n, t) => InstructionView::TakeArgument(*n, t@),
            Instruction::Copy(a, b) => InstructionView::Copy(a@, b@),
            Instruction::AddVariables(r, a, b) => InstructionView::AddVariables(r@, a@, b@),
            Instruction::SubtractVariables(r, a, b) => InstructionView::SubtractVariables(r@, a@, b@),
            Instruction::MultiplyVariables(r, a, b) => InstructionView::MultiplyVariables(r@, a@, b@),
            Instruction::DivideVariables(r, a, b) => InstructionView::DivideVariables(r@, a@, b@),
            Instruction::ModuloVariables(r, a, b) => InstructionView::ModuloVariables(r@, a@, b@),
            Instruction::Label(l) => InstructionView::Label(l@),
            Instruction::ConditionalJump(c, l) => InstructionView::ConditionalJump(c@, l@),
        }
    }
}

} // verus!
