use vstd::prelude::*;

use crate::errors::{GeneratorErrors, GeneratorErrorsView};
use crate::generator::assembly_flavour::{
    full_view, parameter_of, AssemblyInstruction, AssemblyInstructionParameter,
    AssemblyInstructionView, FullInstruction, ParameterView, arity,
};
use crate::generator::locations::{Location, LocationView};
use crate::generator::memory_manager::{
    fulls_view, lemma_free_locations_complete, lemma_free_locations_growth, lemma_operands_complete_concat,
    operands_complete, lemma_stack_growth, locations_view, free_locations,
    free_locations_spec, many_result_view, FullView, MemoryManager, MemoryManagerView,
    keeps_hardcoded, lemma_free_locations_keeps_hardcoded, lemma_keeps_hardcoded_trans,
    lemma_steps_keep_hardcoded,
};
use crate::generator::registers::{Registers, X86Registers};
use crate::text::{decimal, decimal_text, push_char, views_of};
use crate::types::instructions::{option_view, Instruction, InstructionView};

verus! {

broadcast use vstd::string::group_string_axioms;

/// The name of the `i`-th temporary that `allocate_in` uses.
pub open spec fn arg_temp_name(i: nat) -> Seq<char> {
    "@arg_"@ + decimal(i)
}

/// The name given back for the `i`-th argument once a call is made.
pub open spec fn call_arg_name(i: nat) -> Seq<char> {
    "arg_"@ + decimal(i)
}

fn arg_temp(i: usize) -> (s: String)
    ensures
        s@ == arg_temp_name(i as nat),
{
    let mut s = String::from_str("@arg_");
    s.append(decimal_text(i).as_str());
    s
}

fn call_arg(i: usize) -> (s: String)
    ensures
        s@ == call_arg_name(i as nat),
{
    let mut s = String::from_str("arg_");
    s.append(decimal_text(i).as_str());
    s
}

/// The instruction that loads temporary `t` as argument `i` into `to` from `from`.
pub open spec fn load_argument<R: Registers>(t: Seq<char>, i: nat, to: LocationView<R>, from: LocationView<R>) -> FullView<R> {
    (
        AssemblyInstructionView::Move,
        seq![parameter_of(to), parameter_of(from)],
        "Load `"@ + t + "` as argument "@ + decimal(i),
    )
}

/// Moving each of the first `n` temporaries into the location of the same
/// index, each location kept under a numbered argument temporary; stops at
/// the first failure.
pub open spec fn alloc_moves<R: Registers>(
    m: MemoryManagerView<R>,
    temps: Seq<Seq<char>>,
    locs: Seq<LocationView<R>>,
    n: nat,
) -> (MemoryManagerView<R>, Result<Seq<FullView<R>>, GeneratorErrorsView>)
    decreases n,
{
    if n == 0 {
        (m, Ok(seq![]))
    } else {
        let (m1, r1) = alloc_moves(m, temps, locs, (n - 1) as nat);
        match r1 {
            Err(e) => (m1, Err(e)),
            Ok(acc) => {
                let t = temps[n - 1];
                if !m1.reservations.dom().contains(t) {
                    (m1, Err(GeneratorErrorsView::VariableNotDefined(t)))
                } else {
                    let current = m1.reservations[t];
                    let (m2, ok) = m1.after_reserve_location(arg_temp_name((n - 1) as nat), locs[n - 1]);
                    if !ok {
                        (m2, Err(GeneratorErrorsView::VariableAlreadyExists(arg_temp_name((n - 1) as nat))))
                    } else {
                        (m2, Ok(acc.push(load_argument(t, (n - 1) as nat, locs[n - 1], current))))
                    }
                }
            },
        }
    }
}

/// Giving back the first `n` argument temporaries.
pub open spec fn free_arg_temps<R: Registers>(m: MemoryManagerView<R>, n: nat) -> MemoryManagerView<R>
    decreases n,
{
    if n == 0 {
        m
    } else {
        free_arg_temps(m, (n - 1) as nat).after_free(arg_temp_name((n - 1) as nat))
    }
}

/// Giving back the names of the first `n` call arguments.
pub open spec fn free_call_args<R: Registers>(m: MemoryManagerView<R>, n: nat) -> MemoryManagerView<R>
    decreases n,
{
    if n == 0 {
        m
    } else {
        free_call_args(m, (n - 1) as nat).after_free(call_arg_name((n - 1) as nat))
    }
}

/// Putting each temporary into the location of the same index: whatever is
/// kept at the locations is moved away first, then each temporary is loaded.
pub open spec fn allocate_in_spec<R: Registers>(
    m: MemoryManagerView<R>,
    temps: Seq<Seq<char>>,
    locs: Seq<LocationView<R>>,
) -> (MemoryManagerView<R>, Result<Seq<FullView<R>>, GeneratorErrorsView>) {
    let (m1, r1) = free_locations_spec(m, locs);
    match r1 {
        Err(e) => (m1, Err(e)),
        Ok(freed) => {
            let k: nat = if temps.len() < locs.len() {
                temps.len()
            } else {
                locs.len()
            };
            let (m2, r2) = alloc_moves(m1, temps, locs, k);
            match r2 {
                Err(e) => (m2, Err(e)),
                Ok(moves) => (free_arg_temps(m2, temps.len()), Ok(freed + moves)),
            }
        },
    }
}

proof fn lemma_alloc_moves_stops<R: Registers>(
    m: MemoryManagerView<R>,
    temps: Seq<Seq<char>>,
    locs: Seq<LocationView<R>>,
    i: nat,
    n: nat,
)
    requires
        i <= n,
        alloc_moves(m, temps, locs, i).1 is Err,
    ensures
        alloc_moves(m, temps, locs, n) == alloc_moves(m, temps, locs, i),
    decreases n - i,
{
    if i < n {
        lemma_alloc_moves_stops(m, temps, locs, i, (n - 1) as nat);
    }
}

/// Puts each of `temporaries` into the location of the same index.
pub fn allocate_in<R: Registers>(
    mm: &mut MemoryManager<R>,
    temporaries: &Vec<String>,
    locations: &Vec<Location<R>>,
) -> (r: Result<Vec<FullInstruction<R>>, GeneratorErrors>)
    requires
        old(mm).wf(),
        old(mm)@.stack_position + locations.len() <= usize::MAX,
    ensures
        final(mm).wf(),
        (final(mm)@, many_result_view(r)) == allocate_in_spec(
            old(mm)@,
            views_of(temporaries@),
            locations_view(locations@),
        ),
{
    let ghost m0 = mm@;
    let ghost temps = views_of(temporaries@);
    let ghost locs = locations_view(locations@);
    let mut freed = match free_locations(mm, locations) {
        Ok(v) => v,
        Err(e) => {
            return Err(e);
        },
    };
    let ghost m1 = mm@;
    let k = if temporaries.len() < locations.len() {
        temporaries.len()
    } else {
        locations.len()
    };
    let mut allocations: Vec<FullInstruction<R>> = Vec::new();
    assert(fulls_view(allocations@) =~= Seq::<FullView<R>>::empty());
    assert(temps.len() == temporaries.len() && locs.len() == locations.len());
    let mut i: usize = 0;
    while i < k
        invariant
            0 <= i <= k,
            k <= temporaries.len(),
            k <= locations.len(),
            k as nat == (if temps.len() < locs.len() { temps.len() } else { locs.len() }),
            temps.len() == temporaries.len(),
            locs.len() == locations.len(),
            temps == views_of(temporaries@),
            locs == locations_view(locations@),
            m0 == old(mm)@,
            free_locations_spec(m0, locs) == (m1, Ok::<Seq<FullView<R>>, GeneratorErrorsView>(fulls_view(freed@))),
            mm.wf(),
            (mm@, many_result_view::<R>(Ok(allocations))) == alloc_moves(m1, temps, locs, i as nat),
        decreases k - i,
    {
        let ghost before = mm@;
        let ghost acc = fulls_view(allocations@);
        assert(temps[i as int] == temporaries@[i as int]@);
        let current = match mm.get_location_or_err(temporaries[i].as_str()) {
            Ok(l) => l.clone(),
            Err(e) => {
                proof {
                    assert(alloc_moves(m1, temps, locs, (i + 1) as nat) == (mm@, Err::<Seq<FullView<R>>, GeneratorErrorsView>(e@)));
                    lemma_alloc_moves_stops(m1, temps, locs, (i + 1) as nat, k as nat);
                }
                return Err(e);
            },
        };
        let name = arg_temp(i);
        match mm.reserve_location(name.as_str(), locations[i].clone()) {
            Err(e) => {
                proof {
                    assert(alloc_moves(m1, temps, locs, (i + 1) as nat) == (mm@, Err::<Seq<FullView<R>>, GeneratorErrorsView>(e@)));
                    lemma_alloc_moves_stops(m1, temps, locs, (i + 1) as nat, k as nat);
                }
                return Err(e);
            },
            Ok(()) => {},
        }
        let mut comment = String::from_str("Load `");
        comment.append(temporaries[i].as_str());
        comment.append("` as argument ");
        comment.append(decimal_text(i).as_str());
        let parameters = vec![
            AssemblyInstructionParameter::from_location(&locations[i]),
            AssemblyInstructionParameter::from_location(&current),
        ];
        let instruction = (AssemblyInstruction::Move, parameters, comment);
        assert(full_view(instruction) =~= load_argument(temps[i as int], i as nat, locs[i as int], current@));
        allocations.push(instruction);
        assert(fulls_view(allocations@) =~= acc.push(full_view(instruction)));
        i = i + 1;
    }
    let ghost m2 = mm@;
    let mut j: usize = 0;
    while j < temporaries.len()
        invariant
            0 <= j <= temporaries.len(),
            mm.wf(),
            mm@ == free_arg_temps(m2, j as nat),
        decreases temporaries.len() - j,
    {
        let name = arg_temp(j);
        mm.free(name.as_str());
        j = j + 1;
    }
    let ghost fv = fulls_view(freed@);
    let ghost av = fulls_view(allocations@);
    freed.append(&mut allocations);
    assert(fulls_view(freed@) =~= fv + av);
    Ok(freed)
}


proof fn lemma_alloc_moves_growth<R: Registers>(
    m: MemoryManagerView<R>,
    temps: Seq<Seq<char>>,
    locs: Seq<LocationView<R>>,
    n: nat,
)
    ensures
        alloc_moves(m, temps, locs, n).0.stack_position == m.stack_position,
    decreases n,
{
    if n > 0 {
        lemma_alloc_moves_growth(m, temps, locs, (n - 1) as nat);
    }
}

proof fn lemma_free_arg_temps_growth<R: Registers>(m: MemoryManagerView<R>, n: nat)
    ensures
        free_arg_temps(m, n).stack_position == m.stack_position,
    decreases n,
{
    if n > 0 {
        lemma_free_arg_temps_growth(m, (n - 1) as nat);
    }
}

proof fn lemma_free_call_args_growth<R: Registers>(m: MemoryManagerView<R>, n: nat)
    ensures
        free_call_args(m, n).stack_position == m.stack_position,
    decreases n,
{
    if n > 0 {
        lemma_free_call_args_growth(m, (n - 1) as nat);
    }
}

proof fn lemma_alloc_moves_keeps_hardcoded<R: Registers>(
    m: MemoryManagerView<R>,
    temps: Seq<Seq<char>>,
    locs: Seq<LocationView<R>>,
    n: nat,
)
    ensures
        keeps_hardcoded(m, alloc_moves(m, temps, locs, n).0),
    decreases n,
{
    if n > 0 {
        lemma_alloc_moves_keeps_hardcoded(m, temps, locs, (n - 1) as nat);
        let m1 = alloc_moves(m, temps, locs, (n - 1) as nat).0;
        lemma_steps_keep_hardcoded(m1, arg_temp_name((n - 1) as nat), locs[n - 1], 0);
        lemma_keeps_hardcoded_trans(m, m1, m1.after_reserve_location(arg_temp_name((n - 1) as nat), locs[n - 1]).0);
    }
}

proof fn lemma_free_arg_temps_keeps_hardcoded<R: Registers>(m: MemoryManagerView<R>, n: nat)
    ensures
        keeps_hardcoded(m, free_arg_temps(m, n)),
    decreases n,
{
    if n > 0 {
        lemma_free_arg_temps_keeps_hardcoded(m, (n - 1) as nat);
        let m1 = free_arg_temps(m, (n - 1) as nat);
        lemma_steps_keep_hardcoded(m1, arg_temp_name((n - 1) as nat), LocationView::Stack(0), 0);
        lemma_keeps_hardcoded_trans(m, m1, m1.after_free(arg_temp_name((n - 1) as nat)));
    }
}

/// Putting temporaries in place, whether it succeeds or fails, leaves every
/// builtin kept at its own hardcoded data.
pub proof fn law_allocate_in_keeps_builtins<R: Registers>(
    m: MemoryManagerView<R>,
    temps: Seq<Seq<char>>,
    locs: Seq<LocationView<R>>,
)
    ensures
        keeps_hardcoded(m, allocate_in_spec(m, temps, locs).0),
{
    lemma_free_locations_keeps_hardcoded(m, locs);
    let m1 = free_locations_spec(m, locs).0;
    if free_locations_spec(m, locs).1 is Ok {
        let k: nat = if temps.len() < locs.len() { temps.len() } else { locs.len() };
        lemma_alloc_moves_keeps_hardcoded(m1, temps, locs, k);
        let m2 = alloc_moves(m1, temps, locs, k).0;
        lemma_keeps_hardcoded_trans(m, m1, m2);
        lemma_free_arg_temps_keeps_hardcoded(m2, temps.len());
        lemma_keeps_hardcoded_trans(m, m2, free_arg_temps(m2, temps.len()));
    }
}

/// Putting temporaries in place adds at most one stack slot per location.
pub proof fn lemma_allocate_in_growth<R: Registers>(
    m: MemoryManagerView<R>,
    temps: Seq<Seq<char>>,
    locs: Seq<LocationView<R>>,
)
    ensures
        allocate_in_spec(m, temps, locs).0.stack_position <= m.stack_position + locs.len(),
{
    lemma_free_locations_growth(m, locs);
    let m1 = free_locations_spec(m, locs).0;
    let k: nat = if temps.len() < locs.len() { temps.len() } else { locs.len() };
    lemma_alloc_moves_growth(m1, temps, locs, k);
    let m2 = alloc_moves(m1, temps, locs, k).0;
    lemma_free_arg_temps_growth(m2, temps.len());
}

proof fn lemma_alloc_moves_complete<R: Registers>(
    m: MemoryManagerView<R>,
    temps: Seq<Seq<char>>,
    locs: Seq<LocationView<R>>,
    n: nat,
)
    ensures
        alloc_moves(m, temps, locs, n).1 matches Ok(s) ==> operands_complete(s),
    decreases n,
{
    if n > 0 {
        lemma_alloc_moves_complete(m, temps, locs, (n - 1) as nat);
        let (m1, r1) = alloc_moves(m, temps, locs, (n - 1) as nat);
        if let Ok(acc) = r1 {
            let t = temps[n - 1];
            if m1.reservations.dom().contains(t) {
                let f = load_argument(t, (n - 1) as nat, locs[n - 1], m1.reservations[t]);
                assert(operands_complete(seq![f]));
                lemma_operands_complete_concat(acc, seq![f]);
                assert(acc + seq![f] =~= acc.push(f));
            }
        }
    }
}

/// The moves that put temporaries in place have both their operands.
pub proof fn lemma_allocate_in_complete<R: Registers>(
    m: MemoryManagerView<R>,
    temps: Seq<Seq<char>>,
    locs: Seq<LocationView<R>>,
)
    ensures
        allocate_in_spec(m, temps, locs).1 matches Ok(s) ==> operands_complete(s),
{
    lemma_free_locations_complete(m, locs);
    let (m1, r1) = free_locations_spec(m, locs);
    if let Ok(freed) = r1 {
        let k: nat = if temps.len() < locs.len() { temps.len() } else { locs.len() };
        lemma_alloc_moves_complete(m1, temps, locs, k);
        if let Ok(moves) = alloc_moves(m1, temps, locs, k).1 {
            lemma_operands_complete_concat(freed, moves);
        }
    }
}

/// Every instruction generated for an instruction has the operands it reads.
pub proof fn lemma_instruction_complete<C: CallingConvention>(m: MemoryManagerView<C::Registers>, i: InstructionView)
    ensures
        instruction_spec::<C>(m, i).1 matches Ok(s) ==> operands_complete(s),
{
    match i {
        InstructionView::FunctionCall(name, args, ret) => {
            match builtin_format(name) {
                Some(format) => {
                    C::lemma_call_complete(m, "printf"@, seq![format, args[0]], None);
                },
                None => {
                    C::lemma_call_complete(m, name, args, ret);
                },
            }
        },
        InstructionView::DivideVariables(_, _, _) => {
            C::lemma_specific_complete(m, i);
        },
        InstructionView::ModuloVariables(_, _, _) => {
            C::lemma_specific_complete(m, i);
        },
        InstructionView::AddVariables(r, a, b) => {
            lemma_binary_complete(m, r, a, b, AssemblyInstructionView::Add, "Prepare `"@ + r + "` for addition"@, "Add `"@ + a + "` and `"@ + b + "` into `"@ + r + "`"@);
        },
        InstructionView::SubtractVariables(r, a, b) => {
            lemma_binary_complete(m, r, a, b, AssemblyInstructionView::Sub, "Prepare `"@ + r + "` for subtraction"@, "Subtract `"@ + b + "` from `"@ + r + "`"@);
        },
        InstructionView::MultiplyVariables(r, a, b) => {
            lemma_binary_complete(m, r, a, b, AssemblyInstructionView::Mul, "Prepare `"@ + r + "` for multiplication"@, "Multiply `"@ + a + "` and `"@ + b + "` into `"@ + r + "`"@);
        },
        _ => {
            if let Ok(s) = instruction_spec::<C>(m, i).1 {
                assert forall|j: int| 0 <= j < s.len() implies (#[trigger] s[j]).1.len() >= arity(s[j].0) by {}
            }
        },
    }
}

proof fn lemma_binary_complete<R: Registers>(
    m: MemoryManagerView<R>,
    result: Seq<char>,
    a: Seq<char>,
    b: Seq<char>,
    op: AssemblyInstructionView,
    prepare: Seq<char>,
    apply: Seq<char>,
)
    requires
        arity(op) <= 2,
    ensures
        binary_spec(m, result, a, b, op, prepare, apply).1 matches Ok(s) ==> operands_complete(s),
{
}

/// Generating an instruction adds at most as many stack slots as it may need.
pub proof fn lemma_instruction_growth<C: CallingConvention>(m: MemoryManagerView<C::Registers>, i: InstructionView)
    ensures
        instruction_spec::<C>(m, i).0.stack_position <= m.stack_position + instruction_slots(i),
{
    match i {
        InstructionView::Declare(v) => {
            lemma_stack_growth(m, v, 1, LocationView::Stack(0));
        },
        InstructionView::FunctionCall(name, args, ret) => {
            match builtin_format(name) {
                Some(format) => {
                    C::lemma_call_growth(m, "printf"@, seq![format, args[0]], None);
                },
                None => {
                    C::lemma_call_growth(m, name, args, ret);
                },
            }
        },
        InstructionView::TakeArgument(n, t) => {
            lemma_stack_growth(m, t, 1, C::argument_location_spec(n as nat));
        },
        InstructionView::DivideVariables(_, _, _) => {
            C::lemma_specific_growth(m, i);
        },
        InstructionView::ModuloVariables(_, _, _) => {
            C::lemma_specific_growth(m, i);
        },
        _ => {},
    }
}

/// The location of `name`, or the error that it is not defined.
pub open spec fn lookup<R>(m: MemoryManagerView<R>, name: Seq<char>) -> Result<LocationView<R>, GeneratorErrorsView> {
    if m.reservations.dom().contains(name) {
        Ok(m.reservations[name])
    } else {
        Err(GeneratorErrorsView::VariableNotDefined(name))
    }
}

fn lookup_location<R: Registers>(mm: &MemoryManager<R>, name: &String) -> (r: Result<Location<R>, GeneratorErrors>)
    requires
        mm.wf(),
    ensures
        match r {
            Ok(l) => lookup(mm@, name@) == Ok::<LocationView<R>, GeneratorErrorsView>(l@),
            Err(e) => lookup(mm@, name@) == Err::<LocationView<R>, GeneratorErrorsView>(e@),
        },
{
    match mm.get_location_or_err(name.as_str()) {
        Ok(l) => Ok(l.clone()),
        Err(e) => Err(e),
    }
}

/// A move into `to` from `from` with `comment`.
pub open spec fn move_view<R: Registers>(to: ParameterView<R>, from: ParameterView<R>, comment: Seq<char>) -> FullView<R> {
    (AssemblyInstructionView::Move, seq![to, from], comment)
}

fn move_instruction<R: Registers>(
    to: AssemblyInstructionParameter<R>,
    from: AssemblyInstructionParameter<R>,
    comment: String,
) -> (f: FullInstruction<R>)
    ensures
        full_view(f) == move_view(to@, from@, comment@),
{
    let ghost tv = to@;
    let ghost fv = from@;
    let f = (AssemblyInstruction::Move, vec![to, from], comment);
    assert(full_view(f).1 =~= seq![tv, fv]);
    f
}

/// The text of a boolean.
pub open spec fn bool_text(b: bool) -> Seq<char> {
    if b {
        "true"@
    } else {
        "false"@
    }
}

/// The format of the `printf` call that a built-in print function stands for.
pub open spec fn builtin_format(name: Seq<char>) -> Option<Seq<char>> {
    if name == "printi"@ {
        Some("printi_format"@)
    } else if name == "printc"@ {
        Some("printc_format"@)
    } else if name == "print"@ {
        Some("print_format"@)
    } else {
        None
    }
}

/// The stack slots an instruction may need beyond those already handed out.
pub open spec fn instruction_slots(i: InstructionView) -> nat {
    match i {
        InstructionView::Declare(_) => 1,
        InstructionView::FunctionCall(name, args, _) => if builtin_format(name) is Some {
            2
        } else {
            args.len()
        },
        InstructionView::DivideVariables(_, _, _) => 3,
        InstructionView::ModuloVariables(_, _, _) => 3,
        _ => 0,
    }
}

/// A built-in print function is called with an argument.
pub open spec fn instruction_ok(i: InstructionView) -> bool {
    match i {
        InstructionView::FunctionCall(name, args, _) => builtin_format(name) is Some ==> args.len() >= 1,
        _ => true,
    }
}

/// What generating the assembly of an instruction does, for calling
/// convention `C`.
pub open spec fn instruction_spec<C: CallingConvention>(m: MemoryManagerView<C::Registers>, i: InstructionView) -> (
    MemoryManagerView<C::Registers>,
    Result<Seq<FullView<C::Registers>>, GeneratorErrorsView>,
) {
    match i {
        InstructionView::Declare(v) => {
            let (m1, l) = m.after_reserve_nth_free(v, 1);
            if l is None {
                (m1, Err(GeneratorErrorsView::VariableAlreadyExists(v)))
            } else {
                (m1, Ok(seq![]))
            }
        },
        InstructionView::FunctionCall(name, args, ret) => match builtin_format(name) {
            Some(format) => C::function_call_spec(m, "printf"@, seq![format, args[0]], None),
            None => C::function_call_spec(m, name, args, ret),
        },
        InstructionView::LoadBoolean(t, b) => match lookup(m, t) {
            Err(e) => (m, Err(e)),
            Ok(l) => (m, Ok(seq![move_view(parameter_of(l), ParameterView::Number(if b { "1"@ } else { "0"@ }), "Load boolean '"@ + bool_text(b) + "' into `"@ + t + "`"@)])),
        },
        InstructionView::LoadNumber(t, n) => match lookup(m, t) {
            Err(e) => (m, Err(e)),
            Ok(l) => (m, Ok(seq![move_view(parameter_of(l), ParameterView::Number(n), "Load number '"@ + n + "' into `"@ + t + "`"@)])),
        },
        InstructionView::LoadChar(t, c) => match lookup(m, t) {
            Err(e) => (m, Err(e)),
            Ok(l) => (m, Ok(seq![move_view(parameter_of(l), ParameterView::Char(c), "Load character '"@ + seq![c] + "' into `"@ + t + "`"@)])),
        },
        InstructionView::LoadStringLocation(t, s) => match lookup(m, t) {
            Err(e) => (m, Err(e)),
            Ok(p) => match lookup(m, s) {
                Err(e) => (m, Err(e)),
                Ok(l) => (m, Ok(seq![move_view(parameter_of(p), parameter_of(l), "Load '"@ + s + "' string pointer into `"@ + t + "`"@)])),
            },
        },
        InstructionView::ReturnVariable(t) => match lookup(m, t) {
            Err(e) => (m, Err(e)),
            Ok(l) => (m, Ok(seq![move_view(parameter_of(C::return_location_spec()), parameter_of(l), "Return `"@ + t + "`"@)])),
        },
        InstructionView::TakeArgument(n, t) => {
            let l = C::argument_location_spec(n as nat);
            let (m1, ok) = m.after_reserve_location(t, l);
            if !ok {
                (m1, Err(GeneratorErrorsView::VariableAlreadyExists(t)))
            } else {
                (m1, Ok(seq![move_view(parameter_of(l), parameter_of(l), "Load `"@ + t + "` as argument "@ + decimal(n as nat))]))
            }
        },
        InstructionView::Copy(to, from) => match lookup(m, from) {
            Err(e) => (m, Err(e)),
            Ok(f) => match lookup(m, to) {
                Err(e) => (m, Err(e)),
                Ok(t) => (m, Ok(seq![move_view(parameter_of(t), parameter_of(f), "Copy `"@ + from + "` into `"@ + to + "`"@)])),
            },
        },
        InstructionView::AddVariables(r, a, b) => binary_spec(m, r, a, b, AssemblyInstructionView::Add, "Prepare `"@ + r + "` for addition"@, "Add `"@ + a + "` and `"@ + b + "` into `"@ + r + "`"@),
        InstructionView::SubtractVariables(r, a, b) => binary_spec(m, r, a, b, AssemblyInstructionView::Sub, "Prepare `"@ + r + "` for subtraction"@, "Subtract `"@ + b + "` from `"@ + r + "`"@),
        InstructionView::MultiplyVariables(r, a, b) => binary_spec(m, r, a, b, AssemblyInstructionView::Mul, "Prepare `"@ + r + "` for multiplication"@, "Multiply `"@ + a + "` and `"@ + b + "` into `"@ + r + "`"@),
        InstructionView::DivideVariables(_, _, _) => C::specific_spec(m, i),
        InstructionView::ModuloVariables(_, _, _) => C::specific_spec(m, i),
        InstructionView::Label(l) => (m, Ok(seq![(AssemblyInstructionView::Label, seq![ParameterView::Label(l)], "Create label `"@ + l + "`"@)])),
        InstructionView::ConditionalJump(c, l) => match lookup(m, c) {
            Err(e) => (m, Err(e)),
            Ok(cl) => (m, Ok(seq![
                (AssemblyInstructionView::Test, seq![parameter_of(cl), parameter_of(cl)], "Test if `"@ + c + "` is `0`"@),
                (AssemblyInstructionView::Je, seq![ParameterView::Label(l)], "Jump to label `"@ + l + "` if `"@ + c + "` test passed"@),
            ])),
        },
    }
}

/// A binary operation: `result` is set to `a`, then `b` is applied to it.
pub open spec fn binary_spec<R: Registers>(
    m: MemoryManagerView<R>,
    result: Seq<char>,
    a: Seq<char>,
    b: Seq<char>,
    op: AssemblyInstructionView,
    prepare: Seq<char>,
    apply: Seq<char>,
) -> (MemoryManagerView<R>, Result<Seq<FullView<R>>, GeneratorErrorsView>) {
    match lookup(m, a) {
        Err(e) => (m, Err(e)),
        Ok(la) => match lookup(m, b) {
            Err(e) => (m, Err(e)),
            Ok(lb) => match lookup(m, result) {
                Err(e) => (m, Err(e)),
                Ok(lr) => (m, Ok(seq![
                    move_view(parameter_of(lr), parameter_of(la), prepare),
                    (op, seq![parameter_of(lr), parameter_of(lb)], apply),
                ])),
            },
        },
    }
}

fn binary_operation<R: Registers>(
    mm: &MemoryManager<R>,
    result: &String,
    a: &String,
    b: &String,
    op: AssemblyInstruction,
    prepare: String,
    apply: String,
) -> (r: Result<Vec<FullInstruction<R>>, GeneratorErrors>)
    requires
        mm.wf(),
    ensures
        (mm@, many_result_view(r)) == binary_spec(mm@, result@, a@, b@, op@, prepare@, apply@),
{
    let la = match lookup_location(mm, a) {
        Ok(l) => l,
        Err(e) => {
            return Err(e);
        },
    };
    let lb = match lookup_location(mm, b) {
        Ok(l) => l,
        Err(e) => {
            return Err(e);
        },
    };
    let lr = match lookup_location(mm, result) {
        Ok(l) => l,
        Err(e) => {
            return Err(e);
        },
    };
    let ghost opv = op@;
    let first = move_instruction(
        AssemblyInstructionParameter::from_location(&lr),
        AssemblyInstructionParameter::from_location(&la),
        prepare,
    );
    let second = (
        op,
        vec![AssemblyInstructionParameter::from_location(&lr), AssemblyInstructionParameter::from_location(&lb)],
        apply,
    );
    assert(full_view(second).1 =~= seq![parameter_of(lr@), parameter_of(lb@)]);
    let v = vec![first, second];
    assert(fulls_view(v@) =~= seq![full_view(first), full_view(second)]);
    Ok(v)
}

/// A way of passing arguments to functions and getting their results back.
pub trait CallingConvention: Sized {
    type Registers: Registers;

    /// Where a function leaves its result.
    spec fn return_location_spec() -> LocationView<Self::Registers>;

    /// Where the `n`-th argument of a function is passed.
    spec fn argument_location_spec(n: nat) -> LocationView<Self::Registers>;

    /// What generating a call of `name` with `args` does; the result goes to
    /// `ret`, if given.
    spec fn function_call_spec(
        m: MemoryManagerView<Self::Registers>,
        name: Seq<char>,
        args: Seq<Seq<char>>,
        ret: Option<Seq<char>>,
    ) -> (MemoryManagerView<Self::Registers>, Result<Seq<FullView<Self::Registers>>, GeneratorErrorsView>);

    /// What generating a division or a remainder does.
    spec fn specific_spec(m: MemoryManagerView<Self::Registers>, i: InstructionView) -> (
        MemoryManagerView<Self::Registers>,
        Result<Seq<FullView<Self::Registers>>, GeneratorErrorsView>,
    );

    /// A call adds at most one stack slot per argument.
    proof fn lemma_call_growth(
        m: MemoryManagerView<Self::Registers>,
        name: Seq<char>,
        args: Seq<Seq<char>>,
        ret: Option<Seq<char>>,
    )
        ensures
            Self::function_call_spec(m, name, args, ret).0.stack_position <= m.stack_position + args.len(),
    ;

    /// The instructions of a call have the operands that they read.
    proof fn lemma_call_complete(
        m: MemoryManagerView<Self::Registers>,
        name: Seq<char>,
        args: Seq<Seq<char>>,
        ret: Option<Seq<char>>,
    )
        ensures
            Self::function_call_spec(m, name, args, ret).1 matches Ok(s) ==> operands_complete(s),
    ;

    /// The instructions of a division or a remainder have the operands that
    /// they read.
    proof fn lemma_specific_complete(m: MemoryManagerView<Self::Registers>, i: InstructionView)
        ensures
            Self::specific_spec(m, i).1 matches Ok(s) ==> operands_complete(s),
    ;

    /// A division or a remainder adds at most three stack slots.
    proof fn lemma_specific_growth(m: MemoryManagerView<Self::Registers>, i: InstructionView)
        ensures
            Self::specific_spec(m, i).0.stack_position <= m.stack_position + 3,
    ;

    fn generate_function_call(
        mm: &mut MemoryManager<Self::Registers>,
        name: &str,
        args: &Vec<String>,
        return_temporary: Option<String>,
    ) -> (r: Result<Vec<FullInstruction<Self::Registers>>, GeneratorErrors>)
        requires
            old(mm).wf(),
            old(mm)@.stack_position + args.len() <= usize::MAX,
        ensures
            final(mm).wf(),
            (final(mm)@, many_result_view(r)) == Self::function_call_spec(
                old(mm)@,
                name@,
                views_of(args@),
                option_view(return_temporary),
            ),
    ;

    fn return_location() -> (l: Location<Self::Registers>)
        ensures
            l@ == Self::return_location_spec(),
    ;

    fn nth_argument_location(n: usize) -> (l: Location<Self::Registers>)
        ensures
            l@ == Self::argument_location_spec(n as nat),
    ;

    /// Where each of `arguments` is passed.
    fn arguments_locations(arguments: &Vec<String>) -> (v: Vec<Location<Self::Registers>>)
        ensures
            v@.len() == arguments.len(),
            forall|i: int| 0 <= i < v@.len() ==> (#[trigger] v@[i])@ == Self::argument_location_spec(i as nat),
    {
        let mut v: Vec<Location<Self::Registers>> = Vec::new();
        let mut i: usize = 0;
        while i < arguments.len()
            invariant
                0 <= i <= arguments.len(),
                v@.len() == i,
                forall|j: int| 0 <= j < i ==> (#[trigger] v@[j])@ == Self::argument_location_spec(j as nat),
            decreases arguments.len() - i,
        {
            v.push(Self::nth_argument_location(i));
            i = i + 1;
        }
        v
    }

    fn generate_instruction_specific(
        mm: &mut MemoryManager<Self::Registers>,
        instruction: Instruction,
    ) -> (r: Result<Vec<FullInstruction<Self::Registers>>, GeneratorErrors>)
        requires
            old(mm).wf(),
            old(mm)@.stack_position + 3 <= usize::MAX,
            instruction is DivideVariables || instruction is ModuloVariables,
        ensures
            final(mm).wf(),
            (final(mm)@, many_result_view(r)) == Self::specific_spec(old(mm)@, instruction@),
    ;
}


/// The assembly of one instruction, for calling convention `C`.
pub fn generate_instruction<C: CallingConvention>(
    mm: &mut MemoryManager<C::Registers>,
    instruction: Instruction,
) -> (r: Result<Vec<FullInstruction<C::Registers>>, GeneratorErrors>)
    requires
        old(mm).wf(),
        old(mm)@.stack_position + instruction_slots(instruction@) <= usize::MAX,
        instruction_ok(instruction@),
    ensures
        final(mm).wf(),
        (final(mm)@, many_result_view(r)) == instruction_spec::<C>(old(mm)@, instruction@),
{
    let ghost iv = instruction@;
    match instruction {
        Instruction::Declare(variable) => {
            match mm.reserve(variable.as_str()) {
                Err(e) => Err(e),
                Ok(_) => {
                    let v: Vec<FullInstruction<C::Registers>> = Vec::new();
                    assert(fulls_view(v@) =~= Seq::<FullView<C::Registers>>::empty());
                    Ok(v)
                },
            }
        },
        Instruction::FunctionCall(name, arguments, return_temporary) => {
            match crate::generator::builtin_functions::<C>(mm, name.as_str(), &arguments, &return_temporary) {
                Some(r) => r,
                None => C::generate_function_call(mm, name.as_str(), &arguments, return_temporary),
            }
        },
        Instruction::LoadBoolean(temporary, boolean) => {
            let location = match lookup_location(mm, &temporary) {
                Ok(l) => l,
                Err(e) => {
                    return Err(e);
                },
            };
            let mut comment = String::from_str("Load boolean '");
            comment.append(if boolean { "true" } else { "false" });
            comment.append("' into `");
            comment.append(temporary.as_str());
            comment.append("`");
            let number = AssemblyInstructionParameter::Number(String::from_str(if boolean { "1" } else { "0" }));
            let f = move_instruction(AssemblyInstructionParameter::from_location(&location), number, comment);
            let v = vec![f];
            assert(fulls_view(v@) =~= seq![full_view(f)]);
            Ok(v)
        },
        Instruction::LoadNumber(temporary, number) => {
            let location = match lookup_location(mm, &temporary) {
                Ok(l) => l,
                Err(e) => {
                    return Err(e);
                },
            };
            let mut comment = String::from_str("Load number '");
            comment.append(number.as_str());
            comment.append("' into `");
            comment.append(temporary.as_str());
            comment.append("`");
            let f = move_instruction(AssemblyInstructionParameter::from_location(&location), AssemblyInstructionParameter::Number(number), comment);
            let v = vec![f];
            assert(fulls_view(v@) =~= seq![full_view(f)]);
            Ok(v)
        },
        Instruction::LoadChar(temporary, character) => {
            let location = match lookup_location(mm, &temporary) {
                Ok(l) => l,
                Err(e) => {
                    return Err(e);
                },
            };
            let mut comment = String::from_str("Load character '");
            let ghost prefix = comment@;
            push_char(&mut comment, character);
            assert(comment@ =~= prefix + seq![character]);
            comment.append("' into `");
            comment.append(temporary.as_str());
            comment.append("`");
            let f = move_instruction(AssemblyInstructionParameter::from_location(&location), AssemblyInstructionParameter::Char(character), comment);
            let v = vec![f];
            assert(fulls_view(v@) =~= seq![full_view(f)]);
            Ok(v)
        },
        Instruction::LoadStringLocation(temporary, string) => {
            let pointer_location = match lookup_location(mm, &temporary) {
                Ok(l) => l,
                Err(e) => {
                    return Err(e);
                },
            };
            let string_location = match lookup_location(mm, &string) {
                Ok(l) => l,
                Err(e) => {
                    return Err(e);
                },
            };
            let mut comment = String::from_str("Load '");
            comment.append(string.as_str());
            comment.append("' string pointer into `");
            comment.append(temporary.as_str());
            comment.append("`");
            let f = move_instruction(AssemblyInstructionParameter::from_location(&pointer_location), AssemblyInstructionParameter::from_location(&string_location), comment);
            let v = vec![f];
            assert(fulls_view(v@) =~= seq![full_view(f)]);
            Ok(v)
        },
        Instruction::ReturnVariable(temporary) => {
            let location = match lookup_location(mm, &temporary) {
                Ok(l) => l,
                Err(e) => {
                    return Err(e);
                },
            };
            let mut comment = String::from_str("Return `");
            comment.append(temporary.as_str());
            comment.append("`");
            let f = move_instruction(AssemblyInstructionParameter::from_location(&C::return_location()), AssemblyInstructionParameter::from_location(&location), comment);
            let v = vec![f];
            assert(fulls_view(v@) =~= seq![full_view(f)]);
            Ok(v)
        },
        Instruction::TakeArgument(argument, temporary) => {
            let location = C::nth_argument_location(argument);
            match mm.reserve_location(temporary.as_str(), location.clone()) {
                Err(e) => {
                    return Err(e);
                },
                Ok(()) => {},
            }
            let mut comment = String::from_str("Load `");
            comment.append(temporary.as_str());
            comment.append("` as argument ");
            comment.append(decimal_text(argument).as_str());
            let f = move_instruction(AssemblyInstructionParameter::from_location(&location), AssemblyInstructionParameter::from_location(&location), comment);
            let v = vec![f];
            assert(fulls_view(v@) =~= seq![full_view(f)]);
            Ok(v)
        },
        Instruction::Copy(to, from) => {
            let from_location = match lookup_location(mm, &from) {
                Ok(l) => l,
                Err(e) => {
                    return Err(e);
                },
            };
            let to_location = match lookup_location(mm, &to) {
                Ok(l) => l,
                Err(e) => {
                    return Err(e);
                },
            };
            let mut comment = String::from_str("Copy `");
            comment.append(from.as_str());
            comment.append("` into `");
            comment.append(to.as_str());
            comment.append("`");
            let f = move_instruction(AssemblyInstructionParameter::from_location(&to_location), AssemblyInstructionParameter::from_location(&from_location), comment);
            let v = vec![f];
            assert(fulls_view(v@) =~= seq![full_view(f)]);
            Ok(v)
        },
        Instruction::AddVariables(result, a, b) => {
            let mut prepare = String::from_str("Prepare `");
            prepare.append(result.as_str());
            prepare.append("` for addition");
            let mut apply = String::from_str("Add `");
            apply.append(a.as_str());
            apply.append("` and `");
            apply.append(b.as_str());
            apply.append("` into `");
            apply.append(result.as_str());
            apply.append("`");
            binary_operation(mm, &result, &a, &b, AssemblyInstruction::Add, prepare, apply)
        },
        Instruction::SubtractVariables(result, a, b) => {
            let mut prepare = String::from_str("Prepare `");
            prepare.append(result.as_str());
            prepare.append("` for subtraction");
            let mut apply = String::from_str("Subtract `");
            apply.append(b.as_str());
            apply.append("` from `");
            apply.append(result.as_str());
            apply.append("`");
            binary_operation(mm, &result, &a, &b, AssemblyInstruction::Sub, prepare, apply)
        },
        Instruction::MultiplyVariables(result, a, b) => {
            let mut prepare = String::from_str("Prepare `");
            prepare.append(result.as_str());
            prepare.append("` for multiplication");
            let mut apply = String::from_str("Multiply `");
            apply.append(a.as_str());
            apply.append("` and `");
            apply.append(b.as_str());
            apply.append("` into `");
            apply.append(result.as_str());
            apply.append("`");
            binary_operation(mm, &result, &a, &b, AssemblyInstruction::Mul, prepare, apply)
        },
        Instruction::DivideVariables(result, divident, divisor) => {
            C::generate_instruction_specific(mm, Instruction::DivideVariables(result, divident, divisor))
        },
        Instruction::ModuloVariables(result, divident, divisor) => {
            C::generate_instruction_specific(mm, Instruction::ModuloVariables(result, divident, divisor))
        },
        Instruction::Label(label) => {
            let mut comment = String::from_str("Create label `");
            comment.append(label.as_str());
            comment.append("`");
            let parameters = vec![AssemblyInstructionParameter::Label(label)];
            let f = (AssemblyInstruction::Label, parameters, comment);
            let v = vec![f];
            assert(fulls_view(v@) =~= seq![full_view(f)]);
            assert(full_view(f).1 =~= seq![ParameterView::Label(label@)]);
            Ok(v)
        },
        Instruction::ConditionalJump(check, label) => {
            let check_location = match lookup_location(mm, &check) {
                Ok(l) => l,
                Err(e) => {
                    return Err(e);
                },
            };
            let mut test_comment = String::from_str("Test if `");
            test_comment.append(check.as_str());
            test_comment.append("` is `0`");
            let mut jump_comment = String::from_str("Jump to label `");
            jump_comment.append(label.as_str());
            jump_comment.append("` if `");
            jump_comment.append(check.as_str());
            jump_comment.append("` test passed");
            let test = (
                AssemblyInstruction::Test,
                vec![AssemblyInstructionParameter::from_location(&check_location), AssemblyInstructionParameter::from_location(&check_location)],
                test_comment,
            );
            let jump = (AssemblyInstruction::Je, vec![AssemblyInstructionParameter::Label(label)], jump_comment);
            assert(full_view(test).1 =~= seq![parameter_of(check_location@), parameter_of(check_location@)]);
            assert(full_view(jump).1 =~= seq![ParameterView::<C::Registers>::Label(label@)]);
            let v = vec![test, jump];
            assert(fulls_view(v@) =~= seq![full_view(test), full_view(jump)]);
            Ok(v)
        },
    }
}



/// The System V AMD64 calling convention: the first six arguments go in
/// `rdi`, `rsi`, `rdx`, `rcx`, `r8` and `r9`, the rest on the stack; the
/// result comes back in `rax`.
pub struct SystemVAmd64Abi;

/// Where the System V convention passes the `n`-th argument.
pub open spec fn x86_argument_location(n: nat) -> LocationView<X86Registers> {
    if n == 0 {
        LocationView::Register(X86Registers::Rdi)
    } else if n == 1 {
        LocationView::Register(X86Registers::Rsi)
    } else if n == 2 {
        LocationView::Register(X86Registers::Rdx)
    } else if n == 3 {
        LocationView::Register(X86Registers::Rcx)
    } else if n == 4 {
        LocationView::Register(X86Registers::R8)
    } else if n == 5 {
        LocationView::Register(X86Registers::R9)
    } else {
        LocationView::Stack((n - 6) as usize)
    }
}

/// The locations of the first `n` arguments.
pub open spec fn x86_argument_locations(n: nat) -> Seq<LocationView<X86Registers>> {
    Seq::new(n, |i: int| x86_argument_location(i as nat))
}

/// A call under the System V convention: the arguments are put in place,
/// the function is called, its result is moved to `ret` if given, and the
/// names `arg_0`, `arg_1`, ... are given back.
pub open spec fn systemv_call_spec(
    m: MemoryManagerView<X86Registers>,
    name: Seq<char>,
    args: Seq<Seq<char>>,
    ret: Option<Seq<char>>,
) -> (MemoryManagerView<X86Registers>, Result<Seq<FullView<X86Registers>>, GeneratorErrorsView>) {
    let (m1, r1) = allocate_in_spec(m, args, x86_argument_locations(args.len()));
    match r1 {
        Err(e) => (m1, Err(e)),
        Ok(allocs) => {
            let call = (
                AssemblyInstructionView::Call,
                seq![ParameterView::Function(name)],
                "Call function `"@ + name + "`"@,
            );
            match ret {
                Some(t) => if !m1.reservations.dom().contains(t) {
                    (m1, Err(GeneratorErrorsView::VariableNotDefined(t)))
                } else {
                    (
                        free_call_args(m1, args.len()),
                        Ok(allocs + seq![call] + seq![move_view(parameter_of(m1.reservations[t]), ParameterView::Register(X86Registers::Rax), "Move result of `"@ + name + "` to return register"@)]),
                    )
                },
                None => (free_call_args(m1, args.len()), Ok(allocs + seq![call])),
            }
        },
    }
}

/// A division (`quotient`) or a remainder: the dividend goes to `rax` and
/// `rdx` is emptied, `rdx` is cleared, the division is made, and the
/// quotient (`rax`) or remainder (`rdx`) is moved into `result`.
pub open spec fn division_spec(
    m: MemoryManagerView<X86Registers>,
    result: Seq<char>,
    dividend: Seq<char>,
    divisor: Seq<char>,
    quotient: bool,
) -> (MemoryManagerView<X86Registers>, Result<Seq<FullView<X86Registers>>, GeneratorErrorsView>) {
    let (m1, l) = m.after_reserve_nth_free("@empty"@, 1);
    if l is None {
        (m1, Err(GeneratorErrorsView::VariableAlreadyExists("@empty"@)))
    } else {
        let (m2, r2) = allocate_in_spec(
            m1,
            seq![dividend, "@empty"@],
            seq![LocationView::Register(X86Registers::Rax), LocationView::Register(X86Registers::Rdx)],
        );
        match r2 {
            Err(e) => (m2, Err(e)),
            Ok(alloc) => {
                let m3 = m2.after_free("@empty"@);
                let word = if quotient {
                    "division"@
                } else {
                    "modulo"@
                };
                let prepare = "Prepare `"@ + result + "` for "@ + word;
                let first = move_view(ParameterView::Register(X86Registers::Rdx), ParameterView::Number("0"@), prepare);
                match lookup(m3, dividend) {
                    Err(e) => (m3, Err(e)),
                    Ok(ld) => {
                        let second = move_view(ParameterView::Register(X86Registers::Rax), parameter_of(ld), prepare);
                        match lookup(m3, divisor) {
                            Err(e) => (m3, Err(e)),
                            Ok(lv) => {
                                let third = (
                                    AssemblyInstructionView::Div,
                                    seq![parameter_of(lv)],
                                    "Divide `"@ + dividend + "` by `"@ + divisor + "`"@,
                                );
                                match lookup(m3, result) {
                                    Err(e) => (m3, Err(e)),
                                    Ok(lr) => {
                                        let fourth = move_view(
                                            parameter_of(lr),
                                            ParameterView::Register(if quotient { X86Registers::Rax } else { X86Registers::Rdx }),
                                            "Move result of "@ + word + " into `"@ + result + "`"@,
                                        );
                                        (m3, Ok(alloc + seq![first, second, third, fourth]))
                                    },
                                }
                            },
                        }
                    },
                }
            },
        }
    }
}

proof fn lemma_division_complete(
    m: MemoryManagerView<X86Registers>,
    result: Seq<char>,
    dividend: Seq<char>,
    divisor: Seq<char>,
    quotient: bool,
)
    ensures
        division_spec(m, result, dividend, divisor, quotient).1 matches Ok(s) ==> operands_complete(s),
{
    let m1 = m.after_reserve_nth_free("@empty"@, 1).0;
    let temps = seq![dividend, "@empty"@];
    let locs = seq![LocationView::Register(X86Registers::Rax), LocationView::Register(X86Registers::Rdx)];
    lemma_allocate_in_complete(m1, temps, locs);
    if let Ok(s) = division_spec(m, result, dividend, divisor, quotient).1 {
        let alloc = allocate_in_spec(m1, temps, locs).1->Ok_0;
        let tail = s.subrange(alloc.len() as int, s.len() as int);
        assert(s =~= alloc + tail);
        assert(operands_complete(tail));
        lemma_operands_complete_concat(alloc, tail);
    }
}

fn division(
    mm: &mut MemoryManager<X86Registers>,
    result: String,
    dividend: String,
    divisor: String,
    quotient: bool,
) -> (r: Result<Vec<FullInstruction<X86Registers>>, GeneratorErrors>)
    requires
        old(mm).wf(),
        old(mm)@.stack_position + 3 <= usize::MAX,
    ensures
        final(mm).wf(),
        (final(mm)@, many_result_view(r)) == division_spec(old(mm)@, result@, dividend@, divisor@, quotient),
{
    let empty_temp = String::from_str("@empty");
    match mm.reserve(empty_temp.as_str()) {
        Err(e) => {
            return Err(e);
        },
        Ok(_) => {},
    }
    let temps = vec![dividend.clone(), empty_temp.clone()];
    let locs = vec![Location::Register(X86Registers::Rax), Location::Register(X86Registers::Rdx)];
    assert(views_of(temps@) =~= seq![dividend@, "@empty"@]);
    assert(locations_view(locs@) =~= seq![LocationView::Register(X86Registers::Rax), LocationView::Register(X86Registers::Rdx)]);
    let mut alloc = match allocate_in(mm, &temps, &locs) {
        Ok(v) => v,
        Err(e) => {
            return Err(e);
        },
    };
    mm.free(empty_temp.as_str());
    let word = if quotient {
        "division"
    } else {
        "modulo"
    };
    let mut prepare = String::from_str("Prepare `");
    prepare.append(result.as_str());
    prepare.append("` for ");
    prepare.append(word);
    let first = move_instruction(
        AssemblyInstructionParameter::Register(X86Registers::Rdx),
        AssemblyInstructionParameter::Number(String::from_str("0")),
        prepare.clone(),
    );
    let ld = match lookup_location(mm, &dividend) {
        Ok(l) => l,
        Err(e) => {
            return Err(e);
        },
    };
    let second = move_instruction(
        AssemblyInstructionParameter::Register(X86Registers::Rax),
        AssemblyInstructionParameter::from_location(&ld),
        prepare,
    );
    let lv = match lookup_location(mm, &divisor) {
        Ok(l) => l,
        Err(e) => {
            return Err(e);
        },
    };
    let mut divide = String::from_str("Divide `");
    divide.append(dividend.as_str());
    divide.append("` by `");
    divide.append(divisor.as_str());
    divide.append("`");
    let third = (AssemblyInstruction::Div, vec![AssemblyInstructionParameter::from_location(&lv)], divide);
    assert(full_view(third).1 =~= seq![parameter_of(lv@)]);
    let lr = match lookup_location(mm, &result) {
        Ok(l) => l,
        Err(e) => {
            return Err(e);
        },
    };
    let mut moved = String::from_str("Move result of ");
    moved.append(word);
    moved.append(" into `");
    moved.append(result.as_str());
    moved.append("`");
    let source = if quotient {
        X86Registers::Rax
    } else {
        X86Registers::Rdx
    };
    let fourth = move_instruction(
        AssemblyInstructionParameter::from_location(&lr),
        AssemblyInstructionParameter::Register(source),
        moved,
    );
    let ghost av = fulls_view(alloc@);
    let mut tail = vec![first, second, third, fourth];
    assert(fulls_view(tail@) =~= seq![full_view(first), full_view(second), full_view(third), full_view(fourth)]);
    alloc.append(&mut tail);
    assert(fulls_view(alloc@) =~= av + seq![full_view(first), full_view(second), full_view(third), full_view(fourth)]);
    Ok(alloc)
}

impl CallingConvention for SystemVAmd64Abi {
    type Registers = X86Registers;

    open spec fn return_location_spec() -> LocationView<X86Registers> {
        LocationView::Register(X86Registers::Rax)
    }

    open spec fn argument_location_spec(n: nat) -> LocationView<X86Registers> {
        x86_argument_location(n)
    }

    open spec fn function_call_spec(
        m: MemoryManagerView<X86Registers>,
        name: Seq<char>,
        args: Seq<Seq<char>>,
        ret: Option<Seq<char>>,
    ) -> (MemoryManagerView<X86Registers>, Result<Seq<FullView<X86Registers>>, GeneratorErrorsView>) {
        systemv_call_spec(m, name, args, ret)
    }

    open spec fn specific_spec(m: MemoryManagerView<X86Registers>, i: InstructionView) -> (
        MemoryManagerView<X86Registers>,
        Result<Seq<FullView<X86Registers>>, GeneratorErrorsView>,
    ) {
        match i {
            InstructionView::DivideVariables(r, d, v) => division_spec(m, r, d, v, true),
            InstructionView::ModuloVariables(r, d, v) => division_spec(m, r, d, v, false),
            _ => (m, Ok(seq![])),
        }
    }

    proof fn lemma_call_growth(
        m: MemoryManagerView<X86Registers>,
        name: Seq<char>,
        args: Seq<Seq<char>>,
        ret: Option<Seq<char>>,
    ) {
        lemma_allocate_in_growth(m, args, x86_argument_locations(args.len()));
        let m1 = allocate_in_spec(m, args, x86_argument_locations(args.len())).0;
        lemma_free_call_args_growth(m1, args.len());
    }

    proof fn lemma_specific_growth(m: MemoryManagerView<X86Registers>, i: InstructionView) {
        let (m1, l) = m.after_reserve_nth_free("@empty"@, 1);
        lemma_stack_growth(m, "@empty"@, 1, LocationView::Stack(0));
        if let InstructionView::DivideVariables(r, d, v) = i {
            lemma_allocate_in_growth(m1, seq![d, "@empty"@], seq![LocationView::Register(X86Registers::Rax), LocationView::Register(X86Registers::Rdx)]);
        }
        if let InstructionView::ModuloVariables(r, d, v) = i {
            lemma_allocate_in_growth(m1, seq![d, "@empty"@], seq![LocationView::Register(X86Registers::Rax), LocationView::Register(X86Registers::Rdx)]);
        }
    }

    proof fn lemma_call_complete(
        m: MemoryManagerView<X86Registers>,
        name: Seq<char>,
        args: Seq<Seq<char>>,
        ret: Option<Seq<char>>,
    ) {
        let locs = x86_argument_locations(args.len());
        lemma_allocate_in_complete(m, args, locs);
        let (m1, r1) = allocate_in_spec(m, args, locs);
        if let Ok(allocs) = r1 {
            let call = (
                AssemblyInstructionView::Call,
                seq![ParameterView::<X86Registers>::Function(name)],
                "Call function `"@ + name + "`"@,
            );
            assert(operands_complete(seq![call]));
            lemma_operands_complete_concat(allocs, seq![call]);
            if let Some(t) = ret {
                if m1.reservations.dom().contains(t) {
                    let mv = move_view(parameter_of(m1.reservations[t]), ParameterView::Register(X86Registers::Rax), "Move result of `"@ + name + "` to return register"@);
                    assert(operands_complete(seq![mv]));
                    lemma_operands_complete_concat(allocs + seq![call], seq![mv]);
                }
            }
        }
    }

    proof fn lemma_specific_complete(m: MemoryManagerView<X86Registers>, i: InstructionView) {
        if let InstructionView::DivideVariables(r, d, v) = i {
            lemma_division_complete(m, r, d, v, true);
        }
        if let InstructionView::ModuloVariables(r, d, v) = i {
            lemma_division_complete(m, r, d, v, false);
        }
    }

    fn generate_function_call(
        mm: &mut MemoryManager<X86Registers>,
        name: &str,
        args: &Vec<String>,
        return_temporary: Option<String>,
    ) -> (r: Result<Vec<FullInstruction<X86Registers>>, GeneratorErrors>) {
        let arguments_locations = Self::arguments_locations(args);
        assert(locations_view(arguments_locations@) =~= x86_argument_locations(args.len() as nat));
        assert(views_of(args@).len() == args.len());
        let mut allocations = match allocate_in(mm, args, &arguments_locations) {
            Ok(v) => v,
            Err(e) => {
                return Err(e);
            },
        };
        let ghost m1 = mm@;
        let mut comment = String::from_str("Call function `");
        comment.append(name);
        comment.append("`");
        let call = (
            AssemblyInstruction::Call,
            vec![AssemblyInstructionParameter::Function(String::from_str(name))],
            comment,
        );
        assert(full_view(call).1 =~= seq![ParameterView::<X86Registers>::Function(name@)]);
        let mut move_result: Vec<FullInstruction<X86Registers>> = Vec::new();
        if let Some(t) = return_temporary {
            let l = match lookup_location(mm, &t) {
                Ok(l) => l,
                Err(e) => {
                    return Err(e);
                },
            };
            let mut c = String::from_str("Move result of `");
            c.append(name);
            c.append("` to return register");
            let f = move_instruction(
                AssemblyInstructionParameter::from_location(&l),
                AssemblyInstructionParameter::from_location(&Location::Register(X86Registers::Rax)),
                c,
            );
            move_result.push(f);
            assert(fulls_view(move_result@) =~= seq![full_view(f)]);
        } else {
            assert(fulls_view(move_result@) =~= Seq::<FullView<X86Registers>>::empty());
        }
        let ghost mv = fulls_view(move_result@);
        let mut i: usize = 0;
        while i < args.len()
            invariant
                0 <= i <= args.len(),
                mm.wf(),
                mm@ == free_call_args(m1, i as nat),
            decreases args.len() - i,
        {
            let a = call_arg(i);
            mm.free(a.as_str());
            i = i + 1;
        }
        let ghost av = fulls_view(allocations@);
        allocations.push(call);
        allocations.append(&mut move_result);
        assert(fulls_view(allocations@) =~= av + seq![full_view(call)] + mv);
        assert(av + seq![full_view(call)] + Seq::<FullView<X86Registers>>::empty() =~= av + seq![full_view(call)]);
        Ok(allocations)
    }

    fn return_location() -> (l: Location<X86Registers>) {
        Location::Register(X86Registers::Rax)
    }

    fn nth_argument_location(n: usize) -> (l: Location<X86Registers>) {
        if n == 0 {
            Location::Register(X86Registers::Rdi)
        } else if n == 1 {
            Location::Register(X86Registers::Rsi)
        } else if n == 2 {
            Location::Register(X86Registers::Rdx)
        } else if n == 3 {
            Location::Register(X86Registers::Rcx)
        } else if n == 4 {
            Location::Register(X86Registers::R8)
        } else if n == 5 {
            Location::Register(X86Registers::R9)
        } else {
            let l = Location::Stack(n - 6);
            assert(l@ == x86_argument_location(n as nat));
            l
        }
    }

    fn generate_instruction_specific(
        mm: &mut MemoryManager<X86Registers>,
        instruction: Instruction,
    ) -> (r: Result<Vec<FullInstruction<X86Registers>>, GeneratorErrors>) {
        match instruction {
            Instruction::DivideVariables(result, dividend, divisor) => division(mm, result, dividend, divisor, true),
            Instruction::ModuloVariables(result, dividend, divisor) => division(mm, result, dividend, divisor, false),
            _ => {
                assert(false);
                Ok(Vec::new())
            },
        }
    }
}

/// An arithmetic instruction on defined names first moves the first operand
/// into the result, then applies the operator to the result and the second
/// operand: `r = a + b`, `r = a - b` (a is the minuend, b the subtrahend)
/// and `r = a * b`. Nothing else is emitted and no name moves.
pub proof fn law_arithmetic_operands<C: CallingConvention>(
    m: MemoryManagerView<C::Registers>,
    r: Seq<char>,
    a: Seq<char>,
    b: Seq<char>,
)
    requires
        m.reservations.dom().contains(r),
        m.reservations.dom().contains(a),
        m.reservations.dom().contains(b),
    ensures
        ({
            let lr = parameter_of(m.reservations[r]);
            let la = parameter_of(m.reservations[a]);
            let lb = parameter_of(m.reservations[b]);
            &&& instruction_spec::<C>(m, InstructionView::AddVariables(r, a, b)).0 == m
            &&& instruction_spec::<C>(m, InstructionView::AddVariables(r, a, b)).1 matches Ok(s) && s.len() == 2
                && s[0].0 == AssemblyInstructionView::Move && s[0].1 == seq![lr, la]
                && s[1].0 == AssemblyInstructionView::Add && s[1].1 == seq![lr, lb]
            &&& instruction_spec::<C>(m, InstructionView::SubtractVariables(r, a, b)).0 == m
            &&& instruction_spec::<C>(m, InstructionView::SubtractVariables(r, a, b)).1 matches Ok(s) && s.len() == 2
                && s[0].0 == AssemblyInstructionView::Move && s[0].1 == seq![lr, la]
                && s[1].0 == AssemblyInstructionView::Sub && s[1].1 == seq![lr, lb]
            &&& instruction_spec::<C>(m, InstructionView::MultiplyVariables(r, a, b)).0 == m
            &&& instruction_spec::<C>(m, InstructionView::MultiplyVariables(r, a, b)).1 matches Ok(s) && s.len() == 2
                && s[0].0 == AssemblyInstructionView::Move && s[0].1 == seq![lr, la]
                && s[1].0 == AssemblyInstructionView::Mul && s[1].1 == seq![lr, lb]
        }),
{
}

/// Each built-in print function is a call of `printf` whose first argument
/// is the format named after the function: `printi` with `printi_format`,
/// `printc` with `printc_format`, `print` with `print_format`; no other
/// name is built in.
pub proof fn law_builtin_formats<C: CallingConvention>(
    m: MemoryManagerView<C::Registers>,
    name: Seq<char>,
    args: Seq<Seq<char>>,
    ret: Option<Seq<char>>,
)
    ensures
        builtin_format(name) is Some <==> (name == "printi"@ || name == "printc"@ || name == "print"@),
        builtin_format(name) is Some ==> builtin_format(name) == Some(name + "_format"@),
        builtin_format(name) is Some ==> instruction_spec::<C>(m, InstructionView::FunctionCall(name, args, ret))
            == C::function_call_spec(m, "printf"@, seq![name + "_format"@, args[0]], None),
{
    reveal_strlit("printi");
    reveal_strlit("printc");
    reveal_strlit("print");
    reveal_strlit("_format");
    reveal_strlit("printi_format");
    reveal_strlit("printc_format");
    reveal_strlit("print_format");
    assert("printi"@ + "_format"@ =~= "printi_format"@);
    assert("printc"@ + "_format"@ =~= "printc_format"@);
    assert("print"@ + "_format"@ =~= "print_format"@);
}

proof fn lemma_free_call_args_keeps<R: Registers>(m: MemoryManagerView<R>, n: nat, k: Seq<char>)
    ensures
        free_call_args(m, n).reservations.dom().contains(k) ==> m.reservations.dom().contains(k)
            && free_call_args(m, n).reservations[k] == m.reservations[k],
    decreases n,
{
    if n > 0 {
        lemma_free_call_args_keeps(m, (n - 1) as nat, k);
    }
}

/// When a call under the System V convention keeps its result in `t` and
/// succeeds, its last instruction moves the convention's return location
/// (`rax`) into `t`: a move whose destination is where `t` is kept after the
/// call and whose source is `rax`.
pub proof fn law_call_result_moved_into_temporary(
    m: MemoryManagerView<X86Registers>,
    name: Seq<char>,
    args: Seq<Seq<char>>,
    t: Seq<char>,
)
    ensures
        ({
            let (m2, r) = SystemVAmd64Abi::function_call_spec(m, name, args, Some(t));
            r matches Ok(s) ==> {
                &&& s.len() >= 2
                &&& s[s.len() - 2].0 == AssemblyInstructionView::Call
                &&& s.last().0 == AssemblyInstructionView::Move
                &&& s.last().1.len() == 2
                &&& s.last().1[1] == parameter_of(SystemVAmd64Abi::return_location_spec())
                &&& m2.reservations.dom().contains(t) ==> s.last().1[0] == parameter_of(m2.reservations[t])
            }
        }),
{
    let m1 = allocate_in_spec(m, args, x86_argument_locations(args.len())).0;
    lemma_free_call_args_keeps(m1, args.len(), t);
}

/// Moving values: on defined names, copying `from` into `to` moves from
/// `from`'s location into `to`'s; returning `t` moves `t` into the
/// convention's return location; loading a number, a boolean (as 1 or 0), a
/// character or the location of a string moves it into the named location;
/// a conditional jump tests the condition against itself and jumps to the
/// label when the test passes. None of these moves a name.
pub proof fn law_value_moves<C: CallingConvention>(
    m: MemoryManagerView<C::Registers>,
    to: Seq<char>,
    from: Seq<char>,
    n: Seq<char>,
    b: bool,
    c: char,
    label: Seq<char>,
)
    requires
        m.reservations.dom().contains(to),
        m.reservations.dom().contains(from),
    ensures
        ({
            let lt = parameter_of(m.reservations[to]);
            let lf = parameter_of(m.reservations[from]);
            &&& instruction_spec::<C>(m, InstructionView::Copy(to, from)).0 == m
            &&& instruction_spec::<C>(m, InstructionView::Copy(to, from)).1 matches Ok(s) && s.len() == 1
                && s[0].0 == AssemblyInstructionView::Move && s[0].1 == seq![lt, lf]
            &&& instruction_spec::<C>(m, InstructionView::ReturnVariable(from)).0 == m
            &&& instruction_spec::<C>(m, InstructionView::ReturnVariable(from)).1 matches Ok(s) && s.len() == 1
                && s[0].0 == AssemblyInstructionView::Move && s[0].1 == seq![parameter_of(C::return_location_spec()), lf]
            &&& instruction_spec::<C>(m, InstructionView::LoadNumber(to, n)).0 == m
            &&& instruction_spec::<C>(m, InstructionView::LoadNumber(to, n)).1 matches Ok(s) && s.len() == 1
                && s[0].0 == AssemblyInstructionView::Move && s[0].1 == seq![lt, ParameterView::Number(n)]
            &&& instruction_spec::<C>(m, InstructionView::LoadBoolean(to, b)).0 == m
            &&& instruction_spec::<C>(m, InstructionView::LoadBoolean(to, b)).1 matches Ok(s) && s.len() == 1
                && s[0].0 == AssemblyInstructionView::Move
                && s[0].1 == seq![lt, ParameterView::Number(if b { "1"@ } else { "0"@ })]
            &&& instruction_spec::<C>(m, InstructionView::LoadChar(to, c)).0 == m
            &&& instruction_spec::<C>(m, InstructionView::LoadChar(to, c)).1 matches Ok(s) && s.len() == 1
                && s[0].0 == AssemblyInstructionView::Move && s[0].1 == seq![lt, ParameterView::Char(c)]
            &&& instruction_spec::<C>(m, InstructionView::LoadStringLocation(to, from)).0 == m
            &&& instruction_spec::<C>(m, InstructionView::LoadStringLocation(to, from)).1 matches Ok(s) && s.len() == 1
                && s[0].0 == AssemblyInstructionView::Move && s[0].1 == seq![lt, lf]
            &&& instruction_spec::<C>(m, InstructionView::ConditionalJump(from, label)).0 == m
            &&& instruction_spec::<C>(m, InstructionView::ConditionalJump(from, label)).1 matches Ok(s) && s.len() == 2
                && s[0].0 == AssemblyInstructionView::Test && s[0].1 == seq![lf, lf]
                && s[1].0 == AssemblyInstructionView::Je && s[1].1 == seq![ParameterView::<C::Registers>::Label(label)]
        }),
{
}

/// A division or a remainder under the System V convention, when it
/// succeeds, ends by clearing `rdx`, moving the dividend into `rax`,
/// dividing by the divisor, and moving the quotient (`rax`) or the
/// remainder (`rdx`) into the result; the locations are those the names
/// have after the instruction.
pub proof fn law_division_operands(
    m: MemoryManagerView<X86Registers>,
    result: Seq<char>,
    dividend: Seq<char>,
    divisor: Seq<char>,
)
    ensures
        ({
            let (m2, r) = SystemVAmd64Abi::specific_spec(m, InstructionView::DivideVariables(result, dividend, divisor));
            r matches Ok(s) ==> {
                let k = s.len() - 4;
                &&& s.len() >= 4
                &&& s[k].0 == AssemblyInstructionView::Move
                &&& s[k].1 == seq![ParameterView::<X86Registers>::Register(X86Registers::Rdx), ParameterView::Number("0"@)]
                &&& s[k + 1].0 == AssemblyInstructionView::Move
                &&& m2.reservations.dom().contains(dividend)
                &&& s[k + 1].1 == seq![ParameterView::Register(X86Registers::Rax), parameter_of(m2.reservations[dividend])]
                &&& s[k + 2].0 == AssemblyInstructionView::Div
                &&& m2.reservations.dom().contains(divisor)
                &&& s[k + 2].1 == seq![parameter_of(m2.reservations[divisor])]
                &&& s[k + 3].0 == AssemblyInstructionView::Move
                &&& m2.reservations.dom().contains(result)
                &&& s[k + 3].1 == seq![parameter_of(m2.reservations[result]), ParameterView::Register(X86Registers::Rax)]
            }
        }),
        ({
            let (m2, r) = SystemVAmd64Abi::specific_spec(m, InstructionView::ModuloVariables(result, dividend, divisor));
            r matches Ok(s) ==> {
                let k = s.len() - 4;
                &&& s.len() >= 4
                &&& s[k].0 == AssemblyInstructionView::Move
                &&& s[k].1 == seq![ParameterView::<X86Registers>::Register(X86Registers::Rdx), ParameterView::Number("0"@)]
                &&& s[k + 1].0 == AssemblyInstructionView::Move
                &&& m2.reservations.dom().contains(dividend)
                &&& s[k + 1].1 == seq![ParameterView::Register(X86Registers::Rax), parameter_of(m2.reservations[dividend])]
                &&& s[k + 2].0 == AssemblyInstructionView::Div
                &&& m2.reservations.dom().contains(divisor)
                &&& s[k + 2].1 == seq![parameter_of(m2.reservations[divisor])]
                &&& s[k + 3].0 == AssemblyInstructionView::Move
                &&& m2.reservations.dom().contains(result)
                &&& s[k + 3].1 == seq![parameter_of(m2.reservations[result]), ParameterView::Register(X86Registers::Rdx)]
            }
        }),
{
}

/// The System V convention passes the first six arguments in `rdi`, `rsi`,
/// `rdx`, `rcx`, `r8` and `r9`, in that order, every further one on the
/// stack after the one before, and takes the result from `rax`.
pub proof fn law_systemv_locations(n: nat)
    ensures
        SystemVAmd64Abi::return_location_spec() == LocationView::Register(X86Registers::Rax),
        SystemVAmd64Abi::argument_location_spec(0) == LocationView::Register(X86Registers::Rdi),
        SystemVAmd64Abi::argument_location_spec(1) == LocationView::Register(X86Registers::Rsi),
        SystemVAmd64Abi::argument_location_spec(2) == LocationView::Register(X86Registers::Rdx),
        SystemVAmd64Abi::argument_location_spec(3) == LocationView::Register(X86Registers::Rcx),
        SystemVAmd64Abi::argument_location_spec(4) == LocationView::Register(X86Registers::R8),
        SystemVAmd64Abi::argument_location_spec(5) == LocationView::Register(X86Registers::R9),
        n >= 6 ==> SystemVAmd64Abi::argument_location_spec(n) == LocationView::<X86Registers>::Stack((n - 6) as usize),
{
}

} // verus!
