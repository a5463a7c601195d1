use vstd::prelude::*;

pub mod assembly_flavour;
pub mod calling_convention;
pub mod emptying;
pub mod flavour;
pub mod gnu_flavour;
pub mod locations;
pub mod memory_manager;
pub mod order;
pub mod registers;
pub mod transformers;
pub mod utils;

use crate::errors::{GeneratorErrors, GeneratorErrorsView};
use crate::generator::assembly_flavour::{arity, AssemblyFlavour, FullInstruction};
use crate::generator::calling_convention::{
    builtin_format, generate_instruction, instruction_ok, instruction_slots, instruction_spec, lemma_instruction_complete,
    lemma_instruction_growth, CallingConvention,
};
use crate::generator::locations::LocationView;
use crate::generator::memory_manager::{
    fulls_view, many_result_view, one_result_view, operands_complete, FullView, MemoryManager,
    MemoryManagerView,
};
use crate::generator::registers::{Registers, X86Registers};
use crate::text::{char_count, trim, trimmed, views_of};
use crate::types::instructions::{Instruction, InstructionView};

verus! {

/// The built-in print functions: each is a call of `printf` with its format.
pub fn builtin_functions<C: CallingConvention>(
    mm: &mut MemoryManager<C::Registers>,
    name: &str,
    arguments: &Vec<String>,
    _return_temporary: &Option<String>,
) -> (r: Option<Result<Vec<FullInstruction<C::Registers>>, GeneratorErrors>>)
    requires
        old(mm).wf(),
        builtin_format(name@) is Some ==> arguments.len() >= 1 && old(mm)@.stack_position + 2
            <= usize::MAX,
    ensures
        final(mm).wf(),
        match builtin_format(name@) {
            None => r is None && final(mm)@ == old(mm)@,
            Some(format) => r matches Some(x) && (final(mm)@, many_result_view(x))
                == C::function_call_spec(old(mm)@, "printf"@, seq![format, arguments@[0]@], None),
        },
{
    let n = String::from_str(name);
    let format = if n == String::from_str("printi") {
        "printi_format"
    } else if n == String::from_str("printc") {
        "printc_format"
    } else if n == String::from_str("print") {
        "print_format"
    } else {
        return None;
    };
    let args = vec![String::from_str(format), arguments[0].clone()];
    assert(views_of(args@) =~= seq![format@, arguments@[0]@]);
    Some(C::generate_function_call(mm, "printf", &args, None))
}

/// The names of the data that every program holds.
pub fn builtin_variables() -> (v: Vec<String>)
    ensures
        views_of(v@) == seq!["printi_format"@, "printc_format"@, "print_format"@],
{
    let v = vec![
        String::from_str("printi_format"),
        String::from_str("printc_format"),
        String::from_str("print_format"),
    ];
    assert(views_of(v@) =~= seq!["printi_format"@, "printc_format"@, "print_format"@]);
    v
}

/// The names of the data that every program holds, as `builtin_variables`
/// gives them.
pub open spec fn builtin_names() -> Seq<Seq<char>> {
    seq!["printi_format"@, "printc_format"@, "print_format"@]
}

/// The lines that start a program.
pub fn generate_program<A: AssemblyFlavour<X86Registers>>() -> (v: Vec<String>)
    ensures
        views_of(v@) == A::scaffold_text(),
{
    A::generate_program_scaffold()
}

/// The line that declares the string `value` under `name`.
pub open spec fn data_line(name: Seq<char>, value: Seq<char>) -> Seq<char> {
    name + ": .asciz \""@ + value + "\"\n"@
}

/// The lines that declare each `(name, value)` of `data` as a string.
pub fn generate_data<A: AssemblyFlavour<X86Registers>>(data: &Vec<(String, String)>) -> (v: Vec<String>)
    ensures
        v@.len() == data@.len(),
        forall|i: int| 0 <= i < data@.len() ==> (#[trigger] v@[i])@ == data_line(data@[i].0@, data@[i].1@),
{
    let mut v: Vec<String> = Vec::new();
    let mut i: usize = 0;
    while i < data.len()
        invariant
            0 <= i <= data.len(),
            v@.len() == i,
            forall|j: int| 0 <= j < i ==> (#[trigger] v@[j])@ == data_line(data@[j].0@, data@[j].1@),
        decreases data.len() - i,
    {
        let mut line = data[i].0.clone();
        line.append(": .asciz \"");
        line.append(data[i].1.as_str());
        line.append("\"\n");
        v.push(line);
        i = i + 1;
    }
    v
}

/// The memory manager that a function body starts with: every register
/// free, and each of `names` kept as hardcoded data under its own name.
pub open spec fn initial_manager<R: Registers>(names: Seq<Seq<char>>) -> MemoryManagerView<R> {
    MemoryManagerView {
        stack_position: 0,
        next_locations: MemoryManager::<R>::default_free(),
        reservations: Map::new(|k: Seq<char>| names.contains(k), |k: Seq<char>| LocationView::Hardcoded(k)),
    }
}

/// What one instruction adds to the stream: its assembly, or its error.
pub open spec fn step_results<R>(r: Result<Seq<FullView<R>>, GeneratorErrorsView>) -> Seq<
    Result<FullView<R>, GeneratorErrorsView>,
> {
    match r {
        Ok(s) => s.map_values(|f: FullView<R>| Ok::<FullView<R>, GeneratorErrorsView>(f)),
        Err(e) => seq![Err(e)],
    }
}

/// Generating each of `is` in turn, starting from `m`; an instruction that
/// fails leaves its error in the stream and the next one is generated.
pub open spec fn run_instructions<C: CallingConvention>(m: MemoryManagerView<C::Registers>, is: Seq<InstructionView>) -> (
    MemoryManagerView<C::Registers>,
    Seq<Result<FullView<C::Registers>, GeneratorErrorsView>>,
)
    decreases is.len(),
{
    if is.len() == 0 {
        (m, seq![])
    } else {
        let (m1, out) = run_instructions::<C>(m, is.drop_last());
        let (m2, r) = instruction_spec::<C>(m1, is.last());
        (m2, out + step_results(r))
    }
}

/// The stack slots that generating `is` may need.
pub open spec fn total_slots(is: Seq<InstructionView>) -> nat
    decreases is.len(),
{
    if is.len() == 0 {
        0
    } else {
        total_slots(is.drop_last()) + instruction_slots(is.last())
    }
}

/// The views of instructions.
pub open spec fn instructions_view(v: Seq<Instruction>) -> Seq<InstructionView> {
    v.map_values(|i: Instruction| i@)
}

/// The views of a stream of generated instructions and errors.
pub open spec fn full_results_view<R: Registers>(v: Seq<Result<FullInstruction<R>, GeneratorErrors>>) -> Seq<
    Result<FullView<R>, GeneratorErrorsView>,
> {
    v.map_values(|r: Result<FullInstruction<R>, GeneratorErrors>| one_result_view(r))
}

/// Every instruction of a stream has the operands that it reads.
pub open spec fn results_complete<R>(s: Seq<Result<FullView<R>, GeneratorErrorsView>>) -> bool {
    forall|i: int| 0 <= i < s.len() ==> (#[trigger] s[i] matches Ok(f) ==> f.1.len() >= arity(f.0))
}

proof fn lemma_total_slots_prefix(is: Seq<InstructionView>, k: int)
    requires
        0 <= k < is.len(),
    ensures
        total_slots(is.take(k)) + instruction_slots(is[k]) <= total_slots(is),
    decreases is.len(),
{
    if k == is.len() - 1 {
        assert(is.take(k) =~= is.drop_last());
    } else {
        lemma_total_slots_prefix(is.drop_last(), k);
        assert(is.drop_last().take(k) =~= is.take(k));
    }
}

fn push_results<R: Registers>(
    out: &mut Vec<Result<FullInstruction<R>, GeneratorErrors>>,
    r: Result<Vec<FullInstruction<R>>, GeneratorErrors>,
)
    ensures
        full_results_view(final(out)@) == full_results_view(old(out)@) + step_results(many_result_view(r)),
        forall|i: int| 0 <= i < old(out)@.len() ==> final(out)@[i] == old(out)@[i],
        final(out)@.len() == old(out)@.len() + step_results(many_result_view(r)).len(),
        forall|i: int| old(out)@.len() <= i < final(out)@.len() ==> (#[trigger] final(out)@[i] matches Ok(f)
            ==> r matches Ok(v) && v@.contains(f)),
{
    match r {
        Err(e) => {
            out.push(Err(e));
            assert(full_results_view(out@) =~= full_results_view(old(out)@) + step_results(many_result_view(r)));
        },
        Ok(v) => {
            let ghost start = out@;
            let ghost all = v@;
            let ghost mut k: int = 0;
            for f in iter: v.into_iter()
                invariant
                    all == iter.seq(),
                    k == iter.index(),
                    out@.len() == start.len() + k,
                    forall|i: int| 0 <= i < start.len() ==> out@[i] == start[i],
                    forall|i: int| 0 <= i < k ==> (#[trigger] out@[start.len() + i]) == Ok::<FullInstruction<R>, GeneratorErrors>(all[i]),
            {
                out.push(Ok(f));
                proof {
                    k = k + 1;
                }
            }
            assert(k == all.len());
            let ghost expected = step_results(many_result_view::<R>(Ok(v)));
            assert(expected.len() == all.len());
            assert(full_results_view(out@) =~= full_results_view(start) + expected) by {
                assert forall|i: int| 0 <= i < out@.len() implies full_results_view(out@)[i] == (full_results_view(start) + expected)[i] by {
                    if i >= start.len() {
                        let j = i - start.len();
                        assert(out@[start.len() + j] == Ok::<FullInstruction<R>, GeneratorErrors>(all[j]));
                        assert(fulls_view(all)[i - start.len()] == crate::generator::assembly_flavour::full_view(all[i - start.len()]));
                    }
                }
            }
            assert forall|i: int| start.len() <= i < out@.len() implies (#[trigger] out@[i] matches Ok(f) ==> v@.contains(f)) by {
                let j = i - start.len();
                assert(out@[start.len() + j] == Ok::<FullInstruction<R>, GeneratorErrors>(all[j]));
            }
        },
    }
}

proof fn lemma_results_complete_step<R: Registers>(
    prev: Seq<Result<FullView<R>, GeneratorErrorsView>>,
    r: Result<Seq<FullView<R>>, GeneratorErrorsView>,
)
    requires
        results_complete(prev),
        r matches Ok(s) ==> operands_complete(s),
    ensures
        results_complete(prev + step_results(r)),
{
    let all = prev + step_results(r);
    assert forall|i: int| 0 <= i < all.len() implies (#[trigger] all[i] matches Ok(f) ==> f.1.len() >= arity(f.0)) by {
        if i < prev.len() {
            assert(all[i] == prev[i]);
        } else {
            assert(all[i] == step_results(r)[i - prev.len()]);
        }
    }
}

/// The assembly of `instructions`, generated in turn with one memory manager
/// that holds the built-in data and `data` under their own names.
pub fn generate_instructions<R: Registers, C: CallingConvention<Registers = R>>(
    data: &Vec<String>,
    instructions: Vec<Instruction>,
) -> (v: Vec<Result<FullInstruction<R>, GeneratorErrors>>)
    requires
        total_slots(instructions_view(instructions@)) <= usize::MAX,
        forall|i: int| 0 <= i < instructions@.len() ==> instruction_ok(#[trigger] instructions@[i]@),
    ensures
        full_results_view(v@) == run_instructions::<C>(
            initial_manager(builtin_names() + views_of(data@)),
            instructions_view(instructions@),
        ).1,
        results_complete(full_results_view(v@)),
{
    let mut names = builtin_variables();
    let mut i: usize = 0;
    while i < data.len()
        invariant
            0 <= i <= data.len(),
            views_of(names@) == builtin_names() + views_of(data@.take(i as int)),
        decreases data.len() - i,
    {
        let ghost before = names@;
        names.push(data[i].clone());
        assert(views_of(names@) =~= views_of(before).push(data@[i as int]@));
        assert(views_of(data@.take(i + 1)) =~= views_of(data@.take(i as int)).push(data@[i as int]@));
        assert(views_of(names@) =~= builtin_names() + views_of(data@.take(i + 1)));
        i = i + 1;
    }
    assert(data@.take(data.len() as int) =~= data@);
    let ghost all_names = builtin_names() + views_of(data@);
    let mut mm = MemoryManager::<R>::new(names.as_slice());
    proof {
        let init = initial_manager::<R>(all_names);
        assert forall|k: Seq<char>| #[trigger] mm@.reservations.dom().contains(k) <==> init.reservations.dom().contains(k) by {
            if mm@.reservations.dom().contains(k) {
                let j = choose|j: int| 0 <= j < names@.len() && (#[trigger] names@[j])@ == k;
                assert(all_names[j] == k);
            }
            if init.reservations.dom().contains(k) {
                let j = choose|j: int| 0 <= j < all_names.len() && all_names[j] == k;
                assert(names@[j]@ == k);
            }
        }
        assert(mm@.reservations =~= init.reservations);
    }
    let ghost m0 = mm@;
    let ghost all = instructions@;
    let ghost is = instructions_view(all);
    let mut out: Vec<Result<FullInstruction<R>, GeneratorErrors>> = Vec::new();
    let ghost mut k: int = 0;
    assert(is.take(0) =~= Seq::<InstructionView>::empty());
    assert(full_results_view(out@) =~= Seq::<Result<FullView<R>, GeneratorErrorsView>>::empty());
    for instruction in iter: instructions.into_iter()
        invariant
            iter.seq() == all,
            k == iter.index(),
            0 <= k <= all.len(),
            is == instructions_view(all),
            mm.wf(),
            m0 == initial_manager::<R>(all_names),
            (mm@, full_results_view(out@)) == run_instructions::<C>(m0, is.take(k)),
            mm@.stack_position <= total_slots(is.take(k)),
            total_slots(is) <= usize::MAX,
            forall|i: int| 0 <= i < all.len() ==> instruction_ok(#[trigger] all[i]@),
            results_complete(full_results_view(out@)),
    {
        proof {
            lemma_total_slots_prefix(is, k);
            assert(is[k] == instruction@);
            lemma_instruction_growth::<C>(mm@, instruction@);
            lemma_instruction_complete::<C>(mm@, instruction@);
            assert(instruction_ok(all[k]@));
        }
        let ghost before = full_results_view(out@);
        let r = generate_instruction::<C>(&mut mm, instruction);
        push_results(&mut out, r);
        proof {
            assert(is.take(k + 1).drop_last() =~= is.take(k));
            assert(is.take(k + 1).last() == is[k]);
            lemma_results_complete_step(before, many_result_view(r));
            k = k + 1;
        }
    }
    assert(is.take(k) =~= is);
    out
}

/// A line of a function as it is written out: trimmed, then indented and
/// ended, or left out when nothing remains of it.
pub open spec fn indent_line(s: Seq<char>) -> Seq<char> {
    let t = trimmed(s);
    if t.len() == 0 {
        seq![]
    } else {
        "    "@ + t + "\n"@
    }
}

/// The lines of a function body in flavour `A`: the prologue, the line of
/// each generated instruction or its error, and the epilogue.
pub open spec fn body_lines<R: Registers, A: AssemblyFlavour<R>>(s: Seq<Result<FullView<R>, GeneratorErrorsView>>) -> Seq<
    Result<Seq<char>, GeneratorErrorsView>,
> {
    A::prologue_text().map_values(|l: Seq<char>| Ok::<Seq<char>, GeneratorErrorsView>(l)) + s.map_values(
        |r: Result<FullView<R>, GeneratorErrorsView>|
            match r {
                Ok(f) => Ok::<Seq<char>, GeneratorErrorsView>(A::body_line(f.0, f.1, f.2)),
                Err(e) => Err(e),
            },
    ) + A::epilogue_text().map_values(|l: Seq<char>| Ok::<Seq<char>, GeneratorErrorsView>(l))
}

/// Each line written out as `indent_line` does; errors kept.
pub open spec fn indent_lines(s: Seq<Result<Seq<char>, GeneratorErrorsView>>) -> Seq<Result<Seq<char>, GeneratorErrorsView>> {
    s.map_values(
        |r: Result<Seq<char>, GeneratorErrorsView>|
            match r {
                Ok(l) => Ok::<Seq<char>, GeneratorErrorsView>(indent_line(l)),
                Err(e) => Err(e),
            },
    )
}

/// The text of a function called `name` whose body is `is`, with the
/// strings `data` at hand: its header, then its body lines.
pub open spec fn function_text<R: Registers, C: CallingConvention<Registers = R>, A: AssemblyFlavour<R>>(
    name: Seq<char>,
    data: Seq<Seq<char>>,
    is: Seq<InstructionView>,
) -> Seq<Result<Seq<char>, GeneratorErrorsView>> {
    seq![Ok::<Seq<char>, GeneratorErrorsView>(A::header_text(name))] + indent_lines(
        body_lines::<R, A>(run_instructions::<C>(initial_manager(builtin_names() + data), is).1),
    )
}

/// The views of lines and errors.
pub open spec fn line_results_view(v: Seq<Result<String, GeneratorErrors>>) -> Seq<Result<Seq<char>, GeneratorErrorsView>> {
    v.map_values(
        |r: Result<String, GeneratorErrors>|
            match r {
                Ok(s) => Ok::<Seq<char>, GeneratorErrorsView>(s@),
                Err(e) => Err(e@),
            },
    )
}

/// The assembly of a function called `name` whose body is `instructions`,
/// line by line; an instruction that cannot be generated leaves its error
/// in place of its line.
pub fn generate_function<R: Registers, C: CallingConvention<Registers = R>, A: AssemblyFlavour<R>>(
    name: &str,
    data: &Vec<String>,
    instructions: Vec<Instruction>,
) -> (v: Vec<Result<String, GeneratorErrors>>)
    requires
        total_slots(instructions_view(instructions@)) <= usize::MAX,
        forall|i: int| 0 <= i < instructions@.len() ==> instruction_ok(#[trigger] instructions@[i]@),
    ensures
        line_results_view(v@) == function_text::<R, C, A>(name@, views_of(data@), instructions_view(instructions@)),
{
    let header = A::generate_function_header(name);
    let generated = generate_instructions::<R, C>(data, instructions);
    let ghost gv = generated@;
    let ghost run = full_results_view(gv);
    proof {
        assert forall|i: int| 0 <= i < gv.len() implies (#[trigger] gv[i] matches Ok(f) ==> f.1@.len() >= arity(f.0@)) by {
            assert(run[i] == one_result_view(gv[i]));
        }
    }
    let body = A::generate_function_body(generated);
    let ghost lines = body_lines::<R, A>(run);
    proof {
        let p = A::prologue_text().len();
        let n = gv.len();
        assert(line_results_view(body@) =~= lines) by {
            assert forall|i: int| 0 <= i < body@.len() implies line_results_view(body@)[i] == lines[i] by {
                if i < p {
                    assert(body@[i] matches Ok(s) && s@ == A::prologue_text()[i]);
                } else if i < p + n {
                    let j = i - p;
                    assert(run[j] == one_result_view(gv[j]));
                    if let Ok(f) = gv[j] {
                        assert(body@[p + j] matches Ok(s) && s@ == A::body_line(f.0@, crate::generator::assembly_flavour::parameters_view(f.1@), f.2@));
                    }
                } else {
                    let j = i - p - n;
                    assert(body@[p + n + j] matches Ok(s) && s@ == A::epilogue_text()[j]);
                }
            }
        }
    }
    let mut out: Vec<Result<String, GeneratorErrors>> = Vec::new();
    out.push(Ok(header));
    let ghost all = body@;
    let ghost mut k: int = 0;
    for line in iter: body.into_iter()
        invariant
            iter.seq() == all,
            k == iter.index(),
            0 <= k <= all.len(),
            line_results_view(out@) == seq![Ok::<Seq<char>, GeneratorErrorsView>(A::header_text(name@))] + indent_lines(
                line_results_view(all.take(k)),
            ),
    {
        let ghost before = out@;
        match line {
            Ok(l) => {
                let t = trim(l.as_str());
                if char_count(t.as_str()) == 0 {
                    out.push(Ok(String::new()));
                    proof {
                        assert(indent_line(l@) =~= Seq::<char>::empty());
                    }
                } else {
                    let mut s = String::from_str("    ");
                    s.append(t.as_str());
                    s.append("\n");
                    out.push(Ok(s));
                }
            },
            Err(e) => {
                out.push(Err(e));
            },
        }
        proof {
            assert(all.take(k + 1) =~= all.take(k).push(all[k]));
            assert(line_results_view(all.take(k + 1)) =~= line_results_view(all.take(k)).push(line_results_view(all)[k]));
            assert(indent_lines(line_results_view(all.take(k + 1))) =~= indent_lines(line_results_view(all.take(k))).push(
                indent_lines(line_results_view(all))[k],
            ));
            assert(line_results_view(out@) =~= line_results_view(before).push(indent_lines(line_results_view(all))[k]));
            k = k + 1;
        }
    }
    assert(all.take(k) =~= all);
    out
}

} // verus!
