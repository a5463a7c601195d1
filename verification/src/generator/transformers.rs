use vstd::prelude::*;

use crate::errors::{GeneratorErrors, GeneratorErrorsView};
use crate::generator::gnu_flavour::{concat_lines, lines_result_view};
use crate::text::{decimal, decimal_text, views_of};
use crate::types::nodes::expressions::Arithmetic;
use crate::types::nodes::Node;

verus! {

broadcast use vstd::string::group_string_axioms;

/// The variables of a scope with their offsets below the base pointer; a
/// later entry for a name overrides an earlier one.
pub open spec fn offsets_of(v: Seq<(String, u8)>) -> Map<Seq<char>, u8>
    decreases v.len(),
{
    if v.len() == 0 {
        Map::empty()
    } else {
        offsets_of(v.drop_last()).insert(v.last().0@, v.last().1)
    }
}

/// No two variables have the same name.
pub open spec fn names_distinct(v: Seq<(String, u8)>) -> bool {
    forall|i: int, j: int| 0 <= i < j < v.len() ==> (#[trigger] v[i]).0@ != (#[trigger] v[j]).0@
}

proof fn lemma_offsets_lookup(v: Seq<(String, u8)>, k: Seq<char>)
    requires
        names_distinct(v),
    ensures
        offsets_of(v).contains_key(k) <==> exists|i: int| 0 <= i < v.len() && (#[trigger] v[i]).0@ == k,
        forall|i: int| 0 <= i < v.len() && (#[trigger] v[i]).0@ == k ==> offsets_of(v)[k] == v[i].1,
    decreases v.len(),
{
    if v.len() > 0 {
        let r = v.drop_last();
        assert(names_distinct(r));
        lemma_offsets_lookup(r, k);
        if offsets_of(v).contains_key(k) && v.last().0@ != k {
            let i = choose|i: int| 0 <= i < r.len() && (#[trigger] r[i]).0@ == k;
            assert(v[i] == r[i]);
        }
        if offsets_of(v).contains_key(k) && v.last().0@ == k {
            assert(v[v.len() - 1].0@ == k);
        }
        if exists|i: int| 0 <= i < v.len() && (#[trigger] v[i]).0@ == k {
            let i = choose|i: int| 0 <= i < v.len() && (#[trigger] v[i]).0@ == k;
            if i < v.len() - 1 {
                assert(v[i] == r[i]);
            }
        }
        assert forall|i: int| 0 <= i < v.len() && (#[trigger] v[i]).0@ == k implies offsets_of(v)[k] == v[i].1 by {
            if i < v.len() - 1 {
                assert(v[i] == r[i]);
            }
        }
    }
}

/// What a scope holds.
pub struct ScopeView {
    /// The offset of each variable below the base pointer.
    pub variables: Map<Seq<char>, u8>,
    /// The stack space handed out so far.
    pub allocated: nat,
}

/// The variables of a function body and the stack space they take: each
/// takes eight bytes, and a variable lies at the space handed out once it
/// is added.
pub struct Scope {
    variables: Vec<(String, u8)>,
    allocated: u8,
}

impl View for Scope {
    type V = ScopeView;

    closed spec fn view(&self) -> ScopeView {
        ScopeView { variables: offsets_of(self.variables@), allocated: self.allocated as nat }
    }
}

/// The index of the variable called `name`, if any.
fn find_variable(v: &Vec<(String, u8)>, name: &String) -> (r: Option<usize>)
    ensures
        r matches Some(i) ==> i < v.len() && v@[i as int].0@ == name@,
        r is None ==> forall|i: int| 0 <= i < v.len() ==> (#[trigger] v@[i]).0@ != name@,
{
    let mut i: usize = 0;
    while i < v.len()
        invariant
            0 <= i <= v.len(),
            forall|j: int| 0 <= j < i ==> (#[trigger] v@[j]).0@ != name@,
        decreases v.len() - i,
    {
        if v[i].0 == *name {
            return Some(i);
        }
        i = i + 1;
    }
    None
}

impl Scope {
    /// No two variables have the same name.
    pub closed spec fn wf(&self) -> bool {
        names_distinct(self.variables@)
    }

    /// An empty scope.
    pub fn new() -> (s: Self)
        ensures
            s.wf(),
            s@.variables == Map::<Seq<char>, u8>::empty(),
            s@.allocated == 0,
    {
        Scope { variables: Vec::new(), allocated: 0 }
    }

    /// An empty scope.
    pub fn default() -> (s: Self)
        ensures
            s.wf(),
            s@.variables == Map::<Seq<char>, u8>::empty(),
            s@.allocated == 0,
    {
        Self::new()
    }

    /// A scope that starts with the variables and the stack space of `scope`.
    pub fn inherit(scope: &Scope) -> (s: Self)
        ensures
            s.wf() == scope.wf(),
            s@ == scope@,
    {
        let mut variables: Vec<(String, u8)> = Vec::new();
        let mut i: usize = 0;
        while i < scope.variables.len()
            invariant
                0 <= i <= scope.variables.len(),
                variables@.len() == i,
                forall|j: int| 0 <= j < i ==> (#[trigger] variables@[j]).0@ == scope.variables@[j].0@
                    && variables@[j].1 == scope.variables@[j].1,
            decreases scope.variables.len() - i,
        {
            let entry = (scope.variables[i].0.clone(), scope.variables[i].1);
            variables.push(entry);
            i = i + 1;
        }
        let s = Scope { variables, allocated: scope.allocated };
        proof {
            lemma_offsets_same(s.variables@, scope.variables@);
            assert(names_distinct(s.variables@) == names_distinct(scope.variables@)) by {
                if names_distinct(scope.variables@) {
                    assert forall|p: int, q: int| 0 <= p < q < s.variables@.len() implies (#[trigger] s.variables@[p]).0@
                        != (#[trigger] s.variables@[q]).0@ by {
                        assert(scope.variables@[p].0@ != scope.variables@[q].0@);
                    }
                }
                if names_distinct(s.variables@) {
                    assert forall|p: int, q: int| 0 <= p < q < scope.variables@.len() implies (
                    #[trigger] scope.variables@[p]).0@ != (#[trigger] scope.variables@[q]).0@ by {
                        assert(s.variables@[p].0@ != s.variables@[q].0@);
                    }
                }
            }
        }
        s
    }

    /// Adds a variable called `name` after those there are; its offset, or
    /// the error that the name is taken.
    pub fn insert(&mut self, name: &str) -> (r: Result<u8, GeneratorErrors>)
        requires
            old(self).wf(),
            !old(self)@.variables.contains_key(name@) ==> old(self)@.allocated + 8 <= u8::MAX,
        ensures
            final(self).wf(),
            old(self)@.variables.contains_key(name@) ==> {
                &&& r matches Err(e) && e@ == GeneratorErrorsView::VariableAlreadyExists(name@)
                &&& final(self)@ == old(self)@
            },
            !old(self)@.variables.contains_key(name@) ==> {
                &&& r == Ok::<u8, GeneratorErrors>((old(self)@.allocated + 8) as u8)
                &&& final(self)@.variables == old(self)@.variables.insert(name@, (old(self)@.allocated + 8) as u8)
                &&& final(self)@.allocated == old(self)@.allocated + 8
            },
    {
        let name = String::from_str(name);
        proof {
            lemma_offsets_lookup(self.variables@, name@);
        }
        if find_variable(&self.variables, &name).is_some() {
            return Err(GeneratorErrors::VariableAlreadyExists { name });
        }
        self.allocated = self.allocated + 8;
        let ghost before = self.variables@;
        self.variables.push((name, self.allocated));
        proof {
            assert(self.variables@.drop_last() =~= before);
        }
        Ok(self.allocated)
    }

    /// Hands out eight more bytes of stack space for a value with no name;
    /// its offset.
    pub fn insert_unnamed(&mut self) -> (offset: u8)
        requires
            old(self)@.allocated + 8 <= u8::MAX,
        ensures
            final(self).wf() == old(self).wf(),
            offset == old(self)@.allocated + 8,
            final(self)@ == (ScopeView { allocated: offset as nat, ..old(self)@ }),
    {
        self.allocated = self.allocated + 8;
        self.allocated
    }

    /// The offset of `name`, or the error that it is not defined.
    pub fn get(&self, name: &str) -> (r: Result<u8, GeneratorErrors>)
        requires
            self.wf(),
        ensures
            self@.variables.contains_key(name@) ==> r == Ok::<u8, GeneratorErrors>(self@.variables[name@]),
            !self@.variables.contains_key(name@) ==> (r matches Err(e) && e@
                == GeneratorErrorsView::VariableNotDefined(name@)),
    {
        proof {
            lemma_offsets_lookup(self.variables@, name@);
        }
        let name = String::from_str(name);
        match find_variable(&self.variables, &name) {
            Some(i) => {
                return Ok(self.variables[i].1);
            },
            None => {},
        }
        Err(GeneratorErrors::VariableNotDefined { name })
    }
}

proof fn lemma_offsets_same(a: Seq<(String, u8)>, b: Seq<(String, u8)>)
    requires
        a.len() == b.len(),
        forall|j: int| 0 <= j < a.len() ==> (#[trigger] a[j]).0@ == b[j].0@ && a[j].1 == b[j].1,
    ensures
        offsets_of(a) == offsets_of(b),
    decreases a.len(),
{
    if a.len() > 0 {
        lemma_offsets_same(a.drop_last(), b.drop_last());
        assert(a.last().0@ == b.last().0@);
    }
}

/// The text of the stack slot `offset` bytes below the base pointer.
pub open spec fn slot_text(offset: nat) -> Seq<char> {
    "-"@ + decimal(offset) + "(%rbp)"@
}

/// The lines that apply `operator` to the value in `reg` and `second`,
/// leaving the result in `reg`; a division or a remainder goes through
/// `%rbx`, `%rax` and `%rdx`.
pub open spec fn operator_lines(operator: Arithmetic, second: Seq<char>, reg: Seq<char>) -> Seq<Seq<char>> {
    match operator {
        Arithmetic::Add => seq!["add "@ + second + ", "@ + reg],
        Arithmetic::Subtract => seq!["sub "@ + second + ", "@ + reg],
        Arithmetic::Multiply => seq!["imul "@ + second + ", "@ + reg],
        Arithmetic::Divide => seq!["movq "@ + second + ", %rbx"@, "cqto"@, "idiv %rbx"@, "movq %rax, "@ + reg],
        Arithmetic::Modulo => seq!["movq "@ + second + ", %rbx"@, "cqto"@, "idiv %rbx"@, "movq %rdx, "@ + reg],
    }
}

/// A line that moves `from` into `to`.
pub open spec fn movq_line(from: Seq<char>, to: Seq<char>) -> Seq<char> {
    "movq "@ + from + ", "@ + to
}

/// How a number or a variable is read: `$` and the number, or the slot of
/// the variable, or the error that the variable is not defined.
pub open spec fn operand_text(n: Node, s: ScopeView) -> Result<Seq<char>, GeneratorErrorsView> {
    match n {
        Node::Number(value) => Ok("$"@ + value@),
        Node::VariableReference(name) => if s.variables.contains_key(name@) {
            Ok(slot_text(s.variables[name@] as nat))
        } else {
            Err(GeneratorErrorsView::VariableNotDefined(name@))
        },
        _ => Ok(seq![]),
    }
}

/// An operation made of numbers, variables and operations alone.
pub open spec fn arithmetic_ok(node: Node) -> bool
    decreases node,
{
    match node {
        Node::Number(_) => true,
        Node::VariableReference(_) => true,
        Node::Operation { a, b, .. } => arithmetic_ok(*a) && arithmetic_ok(*b),
        _ => false,
    }
}

/// The unnamed stack slots that an operation hands out: one for each
/// operation whose second operand is an operation.
pub open spec fn unnamed_slots(node: Node) -> nat
    decreases node,
{
    match node {
        Node::Operation { a, b, .. } => (match *b {
            Node::Operation { .. } => 1nat,
            _ => 0nat,
        }) + unnamed_slots(*a) + unnamed_slots(*b),
        _ => 0,
    }
}

/// The code of an operation that leaves its value in `reg`, and the scope
/// after it. The first operand is loaded into `reg`, the second is read as
/// a number, a slot or, when both are operations, `%rbx`, and the operator
/// applied. An operation as second operand is computed first and kept in a
/// new unnamed slot; when both operands are operations, the first is kept
/// there while the second is computed, then loaded back. A variable that is
/// not defined is an error.
pub open spec fn operation_spec(node: Node, s: ScopeView, reg: Seq<char>) -> (
    ScopeView,
    Result<Seq<Seq<char>>, GeneratorErrorsView>,
)
    decreases node,
{
    match node {
        Node::Operation { operator, a, b } => {
            let (s2, parts): (ScopeView, Result<(Seq<Seq<char>>, Seq<char>), GeneratorErrorsView>) = match *b {
                Node::Operation { .. } => {
                    let off = s.allocated + 8;
                    let s1 = ScopeView { allocated: off, ..s };
                    let slot = slot_text(off);
                    match *a {
                        Node::Operation { .. } => {
                            let (sa, ra) = operation_spec(*a, s1, reg);
                            match ra {
                                Err(e) => (sa, Err(e)),
                                Ok(ca) => {
                                    let (sb, rb) = operation_spec(*b, sa, reg);
                                    match rb {
                                        Err(e) => (sb, Err(e)),
                                        Ok(cb) => (
                                            sb,
                                            Ok(
                                                (
                                                    ca + seq![movq_line(reg, slot)] + cb + seq![movq_line(slot, reg)],
                                                    "%rbx"@,
                                                ),
                                            ),
                                        ),
                                    }
                                },
                            }
                        },
                        _ => {
                            let (sb, rb) = operation_spec(*b, s1, reg);
                            match rb {
                                Err(e) => (sb, Err(e)),
                                Ok(cb) => match operand_text(*a, sb) {
                                    Err(e) => (sb, Err(e)),
                                    Ok(t) => (sb, Ok((cb + seq![movq_line(reg, slot), movq_line(t, reg)], slot))),
                                },
                            }
                        },
                    }
                },
                _ => match *a {
                    Node::Operation { .. } => {
                        let (sa, ra) = operation_spec(*a, s, reg);
                        match ra {
                            Err(e) => (sa, Err(e)),
                            Ok(ca) => match operand_text(*b, sa) {
                                Err(e) => (sa, Err(e)),
                                Ok(t) => (sa, Ok((ca, t))),
                            },
                        }
                    },
                    _ => match operand_text(*a, s) {
                        Err(e) => (s, Err(e)),
                        Ok(ta) => match operand_text(*b, s) {
                            Err(e) => (s, Err(e)),
                            Ok(tb) => (s, Ok((seq![movq_line(ta, reg)], tb))),
                        },
                    },
                },
            };
            match parts {
                Err(e) => (s2, Err(e)),
                Ok((code, second)) => (s2, Ok(code + operator_lines(operator, second, reg))),
            }
        },
        _ => (s, Ok(seq![])),
    }
}

/// An operation keeps the variables of the scope and hands out at most
/// eight bytes of stack space per unnamed slot.
pub proof fn lemma_operation_growth(node: Node, s: ScopeView, reg: Seq<char>)
    ensures
        operation_spec(node, s, reg).0.variables == s.variables,
        s.allocated <= operation_spec(node, s, reg).0.allocated <= s.allocated + 8 * unnamed_slots(node),
    decreases node,
{
    if let Node::Operation { a, b, .. } = node {
        let off = s.allocated + 8;
        let s1 = ScopeView { allocated: off, ..s };
        match *b {
            Node::Operation { .. } => {
                lemma_operation_growth(*a, s1, reg);
                lemma_operation_growth(*b, s1, reg);
                let sa = operation_spec(*a, s1, reg).0;
                lemma_operation_growth(*b, sa, reg);
            },
            _ => {
                lemma_operation_growth(*a, s, reg);
            },
        }
    }
}

/// The registers the first six arguments of a call are passed in.
pub open spec fn argument_registers() -> Seq<Seq<char>> {
    seq!["rdi"@, "rsi"@, "rdx"@, "rcx"@, "r8"@, "r9"@]
}

/// The calls whose arguments can be put in place: each of the first six
/// that is a variable is defined, each that is an operation is made of
/// numbers, variables and operations, and each that is a call can be
/// made itself.
pub open spec fn call_ok(node: Node, vars: Map<Seq<char>, u8>) -> bool
    decreases node,
{
    match node {
        Node::FunctionCall { arguments, .. } => arguments_ok(arguments@, vars),
        _ => false,
    }
}

/// `call_ok` for each of the first six of `args`.
pub open spec fn arguments_ok(args: Seq<Node>, vars: Map<Seq<char>, u8>) -> bool
    decreases args,
{
    if args.len() == 0 {
        true
    } else {
        &&& arguments_ok(args.drop_last(), vars)
        &&& args.len() - 1 < 6 ==> match args.last() {
            Node::VariableReference(name) => vars.contains_key(name@),
            Node::Operation { .. } => arithmetic_ok(args.last()),
            Node::FunctionCall { .. } => call_ok(args.last(), vars),
            _ => true,
        }
    }
}

/// The unnamed stack slots that a call hands out for its arguments.
pub open spec fn call_slots(node: Node) -> nat
    decreases node,
{
    match node {
        Node::FunctionCall { arguments, .. } => arguments_slots(arguments@),
        _ => 0,
    }
}

/// `call_slots` summed over the first six of `args`.
pub open spec fn arguments_slots(args: Seq<Node>) -> nat
    decreases args,
{
    if args.len() == 0 {
        0
    } else {
        arguments_slots(args.drop_last()) + if args.len() - 1 < 6 {
            match args.last() {
                Node::Operation { .. } => unnamed_slots(args.last()),
                Node::FunctionCall { .. } => call_slots(args.last()),
                _ => 0nat,
            }
        } else {
            0nat
        }
    }
}

/// The code of a call: each of its first six arguments put in its
/// register in turn, then the call. A number is moved in, a variable is
/// moved from its slot, an operation is computed in `%rax` and a call's
/// result is taken from `%rbx`; other arguments are left out.
pub open spec fn call_spec(node: Node, s: ScopeView) -> (ScopeView, Result<Seq<Seq<char>>, GeneratorErrorsView>)
    decreases node,
{
    match node {
        Node::FunctionCall { name, arguments } => {
            let (s2, r) = arguments_spec(arguments@, s);
            match r {
                Err(e) => (s2, Err(e)),
                Ok(code) => (s2, Ok(code.push("call _"@ + name@))),
            }
        },
        _ => (s, Ok(seq![])),
    }
}

/// The code that puts the first six of `args` in their registers.
pub open spec fn arguments_spec(args: Seq<Node>, s: ScopeView) -> (
    ScopeView,
    Result<Seq<Seq<char>>, GeneratorErrorsView>,
)
    decreases args,
{
    if args.len() == 0 {
        (s, Ok(seq![]))
    } else {
        let (s1, r1) = arguments_spec(args.drop_last(), s);
        match r1 {
            Err(e) => (s1, Err(e)),
            Ok(code) => if args.len() - 1 < 6 {
                let reg = "%"@ + argument_registers()[args.len() - 1];
                match args.last() {
                    Node::Number(value) => (s1, Ok(code.push(movq_line("$"@ + value@, reg)))),
                    Node::VariableReference(name) => (
                        s1,
                        Ok(code.push(movq_line(slot_text(s1.variables[name@] as nat), reg))),
                    ),
                    Node::Operation { .. } => {
                        let (s2, r2) = operation_spec(args.last(), s1, "%rax"@);
                        match r2 {
                            Err(e) => (s2, Err(e)),
                            Ok(c) => (s2, Ok(code + c + seq![movq_line("%rax"@, reg)])),
                        }
                    },
                    Node::FunctionCall { .. } => {
                        let (s2, r2) = call_spec(args.last(), s1);
                        match r2 {
                            Err(e) => (s2, Err(e)),
                            Ok(c) => (s2, Ok(code + c + seq![movq_line("%rbx"@, reg)])),
                        }
                    },
                    _ => (s1, Ok(code)),
                }
            } else {
                (s1, Ok(code))
            },
        }
    }
}

/// A call keeps the variables of the scope and hands out at most eight
/// bytes of stack space per unnamed slot its arguments need.
pub proof fn lemma_call_growth(node: Node, s: ScopeView)
    ensures
        call_spec(node, s).0.variables == s.variables,
        s.allocated <= call_spec(node, s).0.allocated <= s.allocated + 8 * call_slots(node),
    decreases node,
{
    if let Node::FunctionCall { arguments, .. } = node {
        lemma_arguments_growth(arguments@, s);
    }
}

/// `lemma_call_growth` for the arguments of a call.
pub proof fn lemma_arguments_growth(args: Seq<Node>, s: ScopeView)
    ensures
        arguments_spec(args, s).0.variables == s.variables,
        s.allocated <= arguments_spec(args, s).0.allocated <= s.allocated + 8 * arguments_slots(args),
    decreases args,
{
    if args.len() > 0 {
        lemma_arguments_growth(args.drop_last(), s);
        let s1 = arguments_spec(args.drop_last(), s).0;
        match args.last() {
            Node::Operation { .. } => {
                lemma_operation_growth(args.last(), s1, "%rax"@);
            },
            Node::FunctionCall { .. } => {
                lemma_call_growth(args.last(), s1);
            },
            _ => {},
        }
    }
}

proof fn lemma_arguments_prefix(args: Seq<Node>, i: int, vars: Map<Seq<char>, u8>)
    requires
        0 <= i <= args.len(),
    ensures
        arguments_ok(args, vars) ==> arguments_ok(args.take(i), vars),
        arguments_slots(args.take(i)) <= arguments_slots(args),
    decreases args.len(),
{
    if i < args.len() {
        lemma_arguments_prefix(args.drop_last(), i, vars);
        assert(args.drop_last().take(i) =~= args.take(i));
    } else {
        assert(args.take(i) =~= args);
    }
}

proof fn lemma_arguments_stop(args: Seq<Node>, k: int, j: int, s: ScopeView)
    requires
        0 <= k <= j <= args.len(),
        arguments_spec(args.take(k), s).1 is Err,
    ensures
        arguments_spec(args.take(j), s) == arguments_spec(args.take(k), s),
    decreases j - k,
{
    if k < j {
        lemma_arguments_stop(args, k, j - 1, s);
        assert(args.take(j).drop_last() =~= args.take(j - 1));
    }
}

/// Whether `n` is an operation.
fn is_operation(n: &Node) -> (r: bool)
    ensures
        r == (*n is Operation),
{
    match n {
        Node::Operation { .. } => true,
        _ => false,
    }
}

/// The text of the stack slot `offset` bytes below the base pointer.
fn slot_of(offset: u8) -> (s: String)
    ensures
        s@ == slot_text(offset as nat),
{
    let mut s = String::from_str("-");
    s.append(decimal_text(offset as usize).as_str());
    s.append("(%rbp)");
    s
}

/// A line that moves `from` into `to`.
fn movq(from: &str, to: &str) -> (s: String)
    ensures
        s@ == movq_line(from@, to@),
{
    let mut s = String::from_str("movq ");
    s.append(from);
    s.append(", ");
    s.append(to);
    s
}

/// `v` with `line` added at its end.
fn push_line(v: Vec<String>, line: String) -> (w: Vec<String>)
    ensures
        views_of(w@) == views_of(v@).push(line@),
{
    let mut w = v;
    let ghost before = w@;
    w.push(line);
    assert(views_of(w@) =~= views_of(before).push(line@));
    w
}

/// How a number or a variable is read.
fn operand_of(n: &Node, scope: &Scope) -> (r: Result<String, GeneratorErrors>)
    requires
        scope.wf(),
    ensures
        match r {
            Ok(t) => operand_text(*n, scope@) == Ok::<Seq<char>, GeneratorErrorsView>(t@),
            Err(e) => operand_text(*n, scope@) == Err::<Seq<char>, GeneratorErrorsView>(e@),
        },
{
    match n {
        Node::Number(value) => {
            let mut t = String::from_str("$");
            t.append(value.as_str());
            Ok(t)
        },
        Node::VariableReference(name) => match scope.get(name.as_str()) {
            Ok(offset) => Ok(slot_of(offset)),
            Err(e) => Err(e),
        },
        _ => Ok(String::new()),
    }
}

/// The lines that apply `operator` to the value in `reg` and `second`.
fn operator_lines_of(operator: Arithmetic, second: &str, reg: &str) -> (v: Vec<String>)
    ensures
        views_of(v@) == operator_lines(operator, second@, reg@),
{
    let v = match operator {
        Arithmetic::Add => {
            let mut l = String::from_str("add ");
            l.append(second);
            l.append(", ");
            l.append(reg);
            vec![l]
        },
        Arithmetic::Subtract => {
            let mut l = String::from_str("sub ");
            l.append(second);
            l.append(", ");
            l.append(reg);
            vec![l]
        },
        Arithmetic::Multiply => {
            let mut l = String::from_str("imul ");
            l.append(second);
            l.append(", ");
            l.append(reg);
            vec![l]
        },
        Arithmetic::Divide | Arithmetic::Modulo => {
            let mut first = String::from_str("movq ");
            first.append(second);
            first.append(", %rbx");
            let mut last = if operator == Arithmetic::Divide {
                String::from_str("movq %rax, ")
            } else {
                String::from_str("movq %rdx, ")
            };
            last.append(reg);
            vec![first, String::from_str("cqto"), String::from_str("idiv %rbx"), last]
        },
    };
    assert(views_of(v@) =~= operator_lines(operator, second@, reg@));
    v
}

/// The code of the operation `node`, which leaves its value in
/// `result_register`; the unnamed slots it needs are handed out by
/// `scope`. A variable that is not defined is an error.
pub fn transform_operation(node: &Node, scope: &mut Scope, result_register: &str) -> (r: Result<
    Vec<String>,
    GeneratorErrors,
>)
    requires
        *node is Operation,
        arithmetic_ok(*node),
        old(scope).wf(),
        old(scope)@.allocated + 8 * unnamed_slots(*node) <= u8::MAX,
    ensures
        final(scope).wf(),
        final(scope)@ == operation_spec(*node, old(scope)@, result_register@).0,
        lines_result_view(r) == operation_spec(*node, old(scope)@, result_register@).1,
    decreases node,
{
    let ghost s0 = scope@;
    let ghost reg = result_register@;
    match node {
        Node::Operation { operator, a, b } => {
            let a: &Node = &**a;
            let b: &Node = &**b;
            let a_op = is_operation(a);
            let b_op = is_operation(b);
            let (code, second) = if b_op {
                let off: u8 = scope.insert_unnamed();
                let slot = slot_of(off);
                let ghost s1 = scope@;
                if a_op {
                    proof {
                        lemma_operation_growth(*a, s1, reg);
                    }
                    let ca = match transform_operation(a, scope, result_register) {
                        Ok(v) => v,
                        Err(e) => {
                            return Err(e);
                        },
                    };
                    let cb = match transform_operation(b, scope, result_register) {
                        Ok(v) => v,
                        Err(e) => {
                            return Err(e);
                        },
                    };
                    let code = push_line(ca, movq(result_register, slot.as_str()));
                    let code = concat_lines(code, &cb);
                    let code = push_line(code, movq(slot.as_str(), result_register));
                    (code, String::from_str("%rbx"))
                } else {
                    let cb = match transform_operation(b, scope, result_register) {
                        Ok(v) => v,
                        Err(e) => {
                            return Err(e);
                        },
                    };
                    let t = match operand_of(a, scope) {
                        Ok(t) => t,
                        Err(e) => {
                            return Err(e);
                        },
                    };
                    let code = push_line(cb, movq(result_register, slot.as_str()));
                    let code = push_line(code, movq(t.as_str(), result_register));
                    (code, slot)
                }
            } else if a_op {
                let ca = match transform_operation(a, scope, result_register) {
                    Ok(v) => v,
                    Err(e) => {
                        return Err(e);
                    },
                };
                let t = match operand_of(b, scope) {
                    Ok(t) => t,
                    Err(e) => {
                        return Err(e);
                    },
                };
                (ca, t)
            } else {
                let ta = match operand_of(a, scope) {
                    Ok(t) => t,
                    Err(e) => {
                        return Err(e);
                    },
                };
                let tb = match operand_of(b, scope) {
                    Ok(t) => t,
                    Err(e) => {
                        return Err(e);
                    },
                };
                let code = push_line(Vec::new(), movq(ta.as_str(), result_register));
                (code, tb)
            };
            let lines = operator_lines_of(*operator, second.as_str(), result_register);
            let all = concat_lines(code, &lines);
            assert(views_of(all@) == views_of(code@) + operator_lines(*operator, second@, reg));
            assert(operation_spec(*node, s0, reg).1 matches Ok(lines) && views_of(all@) =~= lines);
            Ok(all)
        },
        _ => Ok(Vec::new()),
    }
}

/// The register the `i`-th argument of a call is passed in.
fn argument_register(i: usize) -> (s: String)
    requires
        i < 6,
    ensures
        s@ == "%"@ + argument_registers()[i as int],
{
    let name = if i == 0 {
        "rdi"
    } else if i == 1 {
        "rsi"
    } else if i == 2 {
        "rdx"
    } else if i == 3 {
        "rcx"
    } else if i == 4 {
        "r8"
    } else {
        "r9"
    };
    proof {
        reveal_strlit("rdi");
        reveal_strlit("rsi");
        reveal_strlit("rdx");
        reveal_strlit("rcx");
        reveal_strlit("r8");
        reveal_strlit("r9");
    }
    let mut s = String::from_str("%");
    s.append(name);
    s
}

/// The code of the call `node`: each of its first six arguments put in
/// its register in turn, then the call. A number is moved in, a variable
/// is moved from its slot, an operation is computed in `%rax` and a call's
/// result is taken from `%rbx`; other arguments are left out. The unnamed
/// slots the operations need are handed out by `scope`.
pub fn transform_function_call(node: &Node, scope: &mut Scope) -> (r: Result<Vec<String>, GeneratorErrors>)
    requires
        *node is FunctionCall,
        call_ok(*node, old(scope)@.variables),
        old(scope).wf(),
        old(scope)@.allocated + 8 * call_slots(*node) <= u8::MAX,
    ensures
        final(scope).wf(),
        final(scope)@ == call_spec(*node, old(scope)@).0,
        lines_result_view(r) == call_spec(*node, old(scope)@).1,
    decreases node,
{
    let ghost s0 = scope@;
    match node {
        Node::FunctionCall { name, arguments } => {
            let ghost args = arguments@;
            let mut code: Vec<String> = Vec::new();
            let mut i: usize = 0;
            assert(args.take(0) =~= Seq::<Node>::empty());
            assert(views_of(code@) =~= Seq::<Seq<char>>::empty());
            while i < arguments.len()
                invariant
                    0 <= i <= arguments.len(),
                    args == arguments@,
                    arguments_ok(args, s0.variables),
                    s0.allocated + 8 * arguments_slots(args) <= u8::MAX,
                    scope.wf(),
                    scope@ == arguments_spec(args.take(i as int), s0).0,
                    arguments_spec(args.take(i as int), s0).1 == Ok::<Seq<Seq<char>>, GeneratorErrorsView>(
                        views_of(code@),
                    ),
                    *node == (Node::FunctionCall { name: *name, arguments: *arguments }),
                    s0 == old(scope)@,
                decreases arguments.len() - i,
            {
                proof {
                    assert(args.take(i + 1).drop_last() =~= args.take(i as int));
                    assert(args.take(i + 1).last() == args[i as int]);
                    lemma_arguments_prefix(args, i + 1, s0.variables);
                    lemma_arguments_growth(args.take(i as int), s0);
                    assert(arguments_slots(args.take(i + 1)) <= arguments_slots(args));
                }
                if i < 6 {
                    let reg = argument_register(i);
                    match &arguments[i] {
                        Node::Number(value) => {
                            let mut t = String::from_str("$");
                            t.append(value.as_str());
                            code = push_line(code, movq(t.as_str(), reg.as_str()));
                        },
                        Node::VariableReference(variable) => {
                            let offset: u8 = match scope.get(variable.as_str()) {
                                Ok(o) => o,
                                Err(e) => {
                                    return Err(e);
                                },
                            };
                            code = push_line(code, movq(slot_of(offset).as_str(), reg.as_str()));
                        },
                        Node::Operation { .. } => {
                            let c = match transform_operation(&arguments[i], scope, "%rax") {
                                Ok(c) => c,
                                Err(e) => {
                                    proof {
                                        lemma_arguments_stop(args, i + 1, args.len() as int, s0);
                                        assert(args.take(args.len() as int) =~= args);
                                    }
                                    return Err(e);
                                },
                            };
                            code = concat_lines(code, &c);
                            code = push_line(code, movq("%rax", reg.as_str()));
                        },
                        Node::FunctionCall { .. } => {
                            proof {
                                assert(decreases_to!(*node => *arguments));
                                assert(decreases_to!(*arguments => arguments@));
                                assert(decreases_to!(arguments@ => arguments@[i as int]));
                            }
                            let c = match transform_function_call(&arguments[i], scope) {
                                Ok(c) => c,
                                Err(e) => {
                                    proof {
                                        lemma_arguments_stop(args, i + 1, args.len() as int, s0);
                                        assert(args.take(args.len() as int) =~= args);
                                    }
                                    return Err(e);
                                },
                            };
                            code = concat_lines(code, &c);
                            code = push_line(code, movq("%rbx", reg.as_str()));
                        },
                        _ => {},
                    }
                }
                proof {
                    assert(arguments_spec(args.take(i + 1), s0).1 matches Ok(lines) && views_of(code@) =~= lines);
                }
                i = i + 1;
            }
            assert(args.take(arguments.len() as int) =~= args);
            let mut call = String::from_str("call _");
            call.append(name.as_str());
            let code = push_line(code, call);
            assert(call_spec(*node, s0).1 matches Ok(lines) && views_of(code@) =~= lines);
            Ok(code)
        },
        _ => Ok(Vec::new()),
    }
}

/// The returns that can be made from `s`: of a number, of a variable, of
/// an operation made of numbers, variables and operations whose unnamed
/// slots fit, or of a call that can be made and whose slots fit.
pub open spec fn return_ok(node: Node, s: ScopeView) -> bool {
    match node {
        Node::Return(inner) => match *inner {
            Node::Number(_) => true,
            Node::VariableReference(_) => true,
            Node::Operation { .. } => arithmetic_ok(*inner) && s.allocated + 8 * unnamed_slots(*inner) <= u8::MAX,
            Node::FunctionCall { .. } => call_ok(*inner, s.variables) && s.allocated + 8 * call_slots(*inner)
                <= u8::MAX,
            Node::Return(_) => false,
        },
        _ => false,
    }
}

/// The code of a return, which leaves the value in `%rbx`: a number or a
/// variable is moved there, an operation is computed there, and a call is
/// made; a variable that is not defined is an error.
pub open spec fn return_spec(node: Node, s: ScopeView) -> (ScopeView, Result<Seq<Seq<char>>, GeneratorErrorsView>) {
    match node {
        Node::Return(inner) => match *inner {
            Node::Number(value) => (s, Ok(seq![movq_line("$"@ + value@, "%rbx"@)])),
            Node::VariableReference(name) => if s.variables.contains_key(name@) {
                (s, Ok(seq![movq_line(slot_text(s.variables[name@] as nat), "%rbx"@)]))
            } else {
                (s, Err(GeneratorErrorsView::VariableNotDefined(name@)))
            },
            Node::Operation { .. } => operation_spec(*inner, s, "%rbx"@),
            Node::FunctionCall { .. } => call_spec(*inner, s),
            Node::Return(_) => (s, Ok(seq![])),
        },
        _ => (s, Ok(seq![])),
    }
}

/// The code of the return `node`, which leaves the value in `%rbx`.
pub fn transform_return(node: &Node, scope: &mut Scope) -> (r: Result<Vec<String>, GeneratorErrors>)
    requires
        return_ok(*node, old(scope)@),
        old(scope).wf(),
    ensures
        final(scope).wf(),
        final(scope)@ == return_spec(*node, old(scope)@).0,
        lines_result_view(r) == return_spec(*node, old(scope)@).1,
{
    match node {
        Node::Return(inner) => {
            let inner: &Node = &**inner;
            match inner {
                Node::Number(value) => {
                    let mut t = String::from_str("$");
                    t.append(value.as_str());
                    let v = push_line(Vec::new(), movq(t.as_str(), "%rbx"));
                    assert(return_spec(*node, old(scope)@).1 matches Ok(lines) && views_of(v@) =~= lines);
                    Ok(v)
                },
                Node::VariableReference(name) => match scope.get(name.as_str()) {
                    Ok(offset) => {
                        let v = push_line(Vec::new(), movq(slot_of(offset).as_str(), "%rbx"));
                        assert(return_spec(*node, old(scope)@).1 matches Ok(lines) && views_of(v@) =~= lines);
                        Ok(v)
                    },
                    Err(e) => Err(e),
                },
                Node::Operation { .. } => transform_operation(inner, scope, "%rbx"),
                Node::FunctionCall { .. } => transform_function_call(inner, scope),
                Node::Return(_) => Ok(Vec::new()),
            }
        },
        _ => Ok(Vec::new()),
    }
}

/// An operation on two numbers or variables loads the first into the
/// result register and applies the operator to it with the second: `a + b`,
/// `a - b` (`a` is the minuend), `a * b`, and `a / b` or `a % b` through
/// `%rbx`, taking the quotient from `%rax` or the remainder from `%rdx`. A
/// number is read as `$` and its text, a variable from its slot. No slot
/// is handed out.
pub proof fn law_operation_operands(operator: Arithmetic, a: Node, b: Node, s: ScopeView, reg: Seq<char>)
    requires
        a is Number || a is VariableReference,
        b is Number || b is VariableReference,
        a matches Node::VariableReference(n) ==> s.variables.contains_key(n@),
        b matches Node::VariableReference(n) ==> s.variables.contains_key(n@),
    ensures
        ({
            let ta = match a {
                Node::Number(v) => "$"@ + v@,
                Node::VariableReference(n) => "-"@ + decimal(s.variables[n@] as nat) + "(%rbp)"@,
                _ => seq![],
            };
            let tb = match b {
                Node::Number(v) => "$"@ + v@,
                Node::VariableReference(n) => "-"@ + decimal(s.variables[n@] as nat) + "(%rbp)"@,
                _ => seq![],
            };
            let load = "movq "@ + ta + ", "@ + reg;
            let (s2, r) = operation_spec(Node::Operation { operator, a: Box::new(a), b: Box::new(b) }, s, reg);
            &&& s2 == s
            &&& r == Ok::<Seq<Seq<char>>, GeneratorErrorsView>(match operator {
                Arithmetic::Add => seq![load, "add "@ + tb + ", "@ + reg],
                Arithmetic::Subtract => seq![load, "sub "@ + tb + ", "@ + reg],
                Arithmetic::Multiply => seq![load, "imul "@ + tb + ", "@ + reg],
                Arithmetic::Divide => seq![load, "movq "@ + tb + ", %rbx"@, "cqto"@, "idiv %rbx"@, "movq %rax, "@ + reg],
                Arithmetic::Modulo => seq![load, "movq "@ + tb + ", %rbx"@, "cqto"@, "idiv %rbx"@, "movq %rdx, "@ + reg],
            })
        }),
{
    let node = Node::Operation { operator, a: Box::new(a), b: Box::new(b) };
    let r = operation_spec(node, s, reg).1;
    assert(r matches Ok(lines) && lines =~= match operator {
        Arithmetic::Add => seq![movq_line(operand_text(a, s)->Ok_0, reg), "add "@ + operand_text(b, s)->Ok_0 + ", "@ + reg],
        Arithmetic::Subtract => seq![movq_line(operand_text(a, s)->Ok_0, reg), "sub "@ + operand_text(b, s)->Ok_0 + ", "@ + reg],
        Arithmetic::Multiply => seq![movq_line(operand_text(a, s)->Ok_0, reg), "imul "@ + operand_text(b, s)->Ok_0 + ", "@ + reg],
        Arithmetic::Divide => seq![movq_line(operand_text(a, s)->Ok_0, reg), "movq "@ + operand_text(b, s)->Ok_0 + ", %rbx"@, "cqto"@, "idiv %rbx"@, "movq %rax, "@ + reg],
        Arithmetic::Modulo => seq![movq_line(operand_text(a, s)->Ok_0, reg), "movq "@ + operand_text(b, s)->Ok_0 + ", %rbx"@, "cqto"@, "idiv %rbx"@, "movq %rdx, "@ + reg],
    });
}

/// How a number or a variable is written as a source operand.
pub open spec fn simple_operand(n: Node, s: ScopeView) -> Seq<char> {
    match n {
        Node::Number(v) => "$"@ + v@,
        Node::VariableReference(name) => "-"@ + decimal(s.variables[name@] as nat) + "(%rbp)"@,
        _ => seq![],
    }
}

proof fn lemma_simple_arguments(args: Seq<Node>, s: ScopeView)
    requires
        args.len() <= 6,
        forall|i: int| 0 <= i < args.len() ==> (#[trigger] args[i] is Number) || args[i] is VariableReference,
        forall|i: int| 0 <= i < args.len() ==> ((#[trigger] args[i]) matches Node::VariableReference(n) ==> s.variables.contains_key(n@)),
    ensures
        arguments_spec(args, s) == (s, Ok::<Seq<Seq<char>>, GeneratorErrorsView>(Seq::new(
            args.len(),
            |i: int| "movq "@ + simple_operand(args[i], s) + ", "@ + ("%"@ + argument_registers()[i]),
        ))),
    decreases args.len(),
{
    if args.len() > 0 {
        let r = args.drop_last();
        assert forall|i: int| 0 <= i < r.len() implies (#[trigger] r[i] is Number) || r[i] is VariableReference by {
            assert(r[i] == args[i]);
        }
        assert forall|i: int| 0 <= i < r.len() implies ((#[trigger] r[i]) matches Node::VariableReference(n) ==> s.variables.contains_key(n@)) by {
            assert(r[i] == args[i]);
        }
        lemma_simple_arguments(r, s);
        let last = args[args.len() - 1];
        assert(last is Number || last is VariableReference);
        assert(Seq::new(args.len(), |i: int| "movq "@ + simple_operand(args[i], s) + ", "@ + ("%"@ + argument_registers()[i]))
            =~= Seq::new(r.len(), |i: int| "movq "@ + simple_operand(r[i], s) + ", "@ + ("%"@ + argument_registers()[i])).push(
            "movq "@ + simple_operand(last, s) + ", "@ + ("%"@ + argument_registers()[args.len() - 1])));
    } else {
        assert(Seq::new(0, |i: int| "movq "@ + simple_operand(args[i], s) + ", "@ + ("%"@ + argument_registers()[i]))
            =~= Seq::<Seq<char>>::empty());
    }
}

/// A call whose arguments, at most six, are numbers and defined variables
/// moves its `i`-th argument into the `i`-th argument register (`rdi`,
/// `rsi`, `rdx`, `rcx`, `r8`, `r9`) in order, then calls the function; no
/// slot is handed out.
pub proof fn law_call_arguments_in_registers(node: Node, s: ScopeView)
    requires
        node matches Node::FunctionCall { arguments, .. } && arguments@.len() <= 6
            && (forall|i: int| 0 <= i < arguments@.len() ==> (#[trigger] arguments@[i] is Number) || arguments@[i] is VariableReference)
            && (forall|i: int| 0 <= i < arguments@.len() ==> ((#[trigger] arguments@[i]) matches Node::VariableReference(n) ==> s.variables.contains_key(n@))),
    ensures
        argument_registers() == seq!["rdi"@, "rsi"@, "rdx"@, "rcx"@, "r8"@, "r9"@],
        node matches Node::FunctionCall { name, arguments } && call_spec(node, s) == (
            s,
            Ok::<Seq<Seq<char>>, GeneratorErrorsView>(Seq::new(
                arguments@.len(),
                |i: int| "movq "@ + simple_operand(arguments@[i], s) + ", "@ + ("%"@ + argument_registers()[i]),
            ).push("call _"@ + name@)),
        ),
{
    if let Node::FunctionCall { name, arguments } = node {
        lemma_simple_arguments(arguments@, s);
    }
}

} // verus!
