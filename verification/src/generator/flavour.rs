use vstd::prelude::*;

use crate::errors::{GeneratorErrors, GeneratorErrorsView};
use crate::text::views_of;
use crate::types::instructions::{Instruction, InstructionView};

verus! {

/// Something that is written out as assembly text.
pub trait ToAssembly {
    /// The assembly text of the value.
    spec fn assembly(&self) -> Seq<char>;

    fn to_assembly(&self) -> (s: String)
        ensures
            s@ == self.assembly(),
    ;
}

/// The registers of a machine as the first code generator sees them: those
/// that hold values, those that pass arguments, and the special ones.
pub trait Registers: Sized + Copy + ToAssembly {
    spec fn alignment_spec() -> usize;

    spec fn stack_pointer_spec() -> Self;

    spec fn base_pointer_spec() -> Self;

    spec fn return_register_spec() -> Self;

    spec fn general_purpose_spec() -> Seq<Self>;

    spec fn argument_registers_spec() -> Seq<Self>;

    /// The size of a stack slot.
    fn alignment() -> (a: usize)
        ensures
            a == Self::alignment_spec(),
    ;

    fn stack_pointer() -> (r: Self)
        ensures
            r == Self::stack_pointer_spec(),
    ;

    fn base_pointer() -> (r: Self)
        ensures
            r == Self::base_pointer_spec(),
    ;

    fn return_register() -> (r: Self)
        ensures
            r == Self::return_register_spec(),
    ;

    /// The registers that values may be kept in.
    fn general_purpose_registers() -> (v: Vec<Self>)
        ensures
            v@ == Self::general_purpose_spec(),
    ;

    /// The registers that pass the first arguments of a call, in order.
    fn argument_registers() -> (v: Vec<Self>)
        ensures
            v@ == Self::argument_registers_spec(),
    ;

    /// Whether `self` and `other` are the same register.
    fn same(&self, other: &Self) -> (b: bool)
        ensures
            b == (*self == *other),
    ;
}

/// Where a value is kept: a register, or a stack slot at an offset below
/// the base pointer.
#[derive(Debug, Clone, Copy, PartialEq, Eq)]
pub enum Location<R: Registers> {
    Register(R),
    Stack(usize),
}

fn same_location<R: Registers>(a: &Location<R>, b: &Location<R>) -> (r: bool)
    ensures
        r == (*a == *b),
{
    match (a, b) {
        (Location::Register(x), Location::Register(y)) => x.same(y),
        (Location::Stack(x), Location::Stack(y)) => *x == *y,
        _ => false,
    }
}

/// The reservations of a `MemoryManagement`, in the order they were made:
/// the name and location of each.
pub type Entries<R> = Seq<(Seq<char>, Location<R>)>;

/// The index of the reservation of `name`, or the number of reservations.
pub open spec fn entry_index<R: Registers>(e: Entries<R>, name: Seq<char>) -> nat
    decreases e.len(),
{
    if e.len() == 0 {
        0
    } else if e[0].0 == name {
        0
    } else {
        1 + entry_index(e.drop_first(), name)
    }
}

/// The location of `name`, if reserved.
pub open spec fn entry_get<R: Registers>(e: Entries<R>, name: Seq<char>) -> Option<Location<R>> {
    let i = entry_index(e, name) as int;
    if i < e.len() {
        Some(e[i].1)
    } else {
        None
    }
}

/// The reservations with `name` kept at `loc`: in its place when `name`
/// was reserved, else last.
pub open spec fn entry_insert<R: Registers>(e: Entries<R>, name: Seq<char>, loc: Location<R>) -> Entries<R> {
    let i = entry_index(e, name) as int;
    if i < e.len() {
        e.update(i, (name, loc))
    } else {
        e.push((name, loc))
    }
}

/// The name of the first reservation kept at `loc`, if any.
pub open spec fn first_at<R: Registers>(e: Entries<R>, loc: Location<R>) -> Option<Seq<char>>
    decreases e.len(),
{
    if e.len() == 0 {
        None
    } else if e[0].1 == loc {
        Some(e[0].0)
    } else {
        first_at(e.drop_first(), loc)
    }
}

/// What a `MemoryManagement` holds.
pub struct ManagementView<R: Registers> {
    /// The registers still free; the last is handed out first.
    pub free_registers: Seq<R>,
    /// The reservations, in the order they were made.
    pub entries: Entries<R>,
    /// The stack space handed out so far.
    pub allocated_stack: nat,
}

impl<R: Registers> ManagementView<R> {
    /// Keeping `name` at the last free register, or at a new stack slot when
    /// none is free; the location.
    pub open spec fn after_reserve(self, name: Seq<char>) -> (Self, Location<R>) {
        if self.free_registers.len() > 0 {
            let r = self.free_registers.last();
            (
                ManagementView {
                    free_registers: self.free_registers.drop_last(),
                    entries: entry_insert(self.entries, name, Location::Register(r)),
                    allocated_stack: self.allocated_stack,
                },
                Location::Register(r),
            )
        } else {
            let slot: nat = self.allocated_stack + R::alignment_spec() as nat;
            (
                ManagementView {
                    free_registers: self.free_registers,
                    entries: entry_insert(self.entries, name, Location::Stack(slot as usize)),
                    allocated_stack: slot,
                },
                Location::Stack(slot as usize),
            )
        }
    }

    /// The stack space that reserving `k` more names may take.
    pub open spec fn fits(self, k: nat) -> bool {
        self.allocated_stack + k * R::alignment_spec() <= usize::MAX
    }

    /// Whether `moves` more names can be reserved: the free registers are
    /// taken first, then stack slots.
    pub open spec fn can_reserve(self, moves: nat) -> bool {
        self.fits(if moves > self.free_registers.len() { (moves - self.free_registers.len()) as nat } else { 0 })
    }
}

/// Where the `arg`-th argument of a call is passed: in an argument
/// register, then on the stack.
pub open spec fn argument_location<R: Registers>(arg: nat) -> Location<R> {
    let n = R::argument_registers_spec().len();
    if arg >= n {
        Location::Stack(((arg - n) * R::alignment_spec()) as usize)
    } else {
        Location::Register(R::argument_registers_spec()[arg as int])
    }
}

/// Whether the stack offset of the `arg`-th argument fits in a `usize`.
pub open spec fn argument_fits<R: Registers>(arg: nat) -> bool {
    let n = R::argument_registers_spec().len();
    arg >= n ==> (arg - n) * R::alignment_spec() <= usize::MAX
}

/// Each argument with the location it is passed in.
pub open spec fn argument_entries<R: Registers>(args: Seq<Seq<char>>) -> Entries<R> {
    Seq::new(args.len(), |i: int| (args[i], argument_location::<R>(i as nat)))
}

/// For each argument whose location some name is kept at, in order: the
/// argument and that name.
pub open spec fn conflicts<R: Registers>(e: Entries<R>, al: Entries<R>) -> Seq<(Seq<char>, Seq<char>)>
    decreases al.len(),
{
    if al.len() == 0 {
        seq![]
    } else {
        let rest = conflicts(e, al.drop_last());
        match first_at(e, al.last().1) {
            Some(name) => rest.push((al.last().0, name)),
            None => rest,
        }
    }
}

/// The reservations with each of `al` made in turn.
pub open spec fn insert_entries<R: Registers>(e: Entries<R>, al: Entries<R>) -> Entries<R>
    decreases al.len(),
{
    if al.len() == 0 {
        e
    } else {
        let (n, l) = al.last();
        entry_insert(insert_entries(e, al.drop_last()), n, l)
    }
}

/// Moving each name of `cs` in turn: it is kept at the location of its
/// argument, then reserved anew.
pub open spec fn move_conflicts<R: Registers>(
    m: ManagementView<R>,
    cs: Seq<(Seq<char>, Seq<char>)>,
    locs: Seq<Location<R>>,
) -> ManagementView<R>
    decreases cs.len(),
{
    if cs.len() == 0 || locs.len() == 0 {
        m
    } else {
        let m1 = move_conflicts(m, cs.drop_last(), locs.drop_last());
        let name = cs.last().1;
        let m2 = ManagementView { entries: entry_insert(m1.entries, name, locs.last()), ..m1 };
        m2.after_reserve(name).0
    }
}

/// The locations of the arguments that `conflicts` keeps, in order.
pub open spec fn conflict_locations<R: Registers>(e: Entries<R>, al: Entries<R>) -> Seq<Location<R>>
    decreases al.len(),
{
    if al.len() == 0 {
        seq![]
    } else {
        let rest = conflict_locations(e, al.drop_last());
        match first_at(e, al.last().1) {
            Some(_) => rest.push(al.last().1),
            None => rest,
        }
    }
}

/// The copies that `put_arguments` returns: each conflicting argument copied
/// into the name that was moved away from its location.
pub open spec fn conflict_copies(cs: Seq<(Seq<char>, Seq<char>)>) -> Seq<InstructionView> {
    cs.map_values(|c: (Seq<char>, Seq<char>)| InstructionView::Copy(c.0, c.1))
}

proof fn lemma_conflicts_len<R: Registers>(e: Entries<R>, al: Entries<R>)
    ensures
        conflicts(e, al).len() == conflict_locations(e, al).len(),
        conflicts(e, al).len() <= al.len(),
    decreases al.len(),
{
    if al.len() > 0 {
        lemma_conflicts_len(e, al.drop_last());
    }
}

/// Keeps track of where the values of a function are: the first design,
/// handing out the last free register first and then stack slots.
pub struct MemoryManagement<R: Registers> {
    free_registers: Vec<R>,
    reservations: Vec<(String, Location<R>)>,
    allocated_stack: usize,
}

/// The reservations of a `MemoryManagement`, names taken as sequences of characters.
pub open spec fn entries_of<R: Registers>(v: Seq<(String, Location<R>)>) -> Entries<R> {
    v.map_values(|p: (String, Location<R>)| (p.0@, p.1))
}

impl<R: Registers> View for MemoryManagement<R> {
    type V = ManagementView<R>;

    closed spec fn view(&self) -> ManagementView<R> {
        ManagementView {
            free_registers: self.free_registers@,
            entries: entries_of(self.reservations@),
            allocated_stack: self.allocated_stack as nat,
        }
    }
}

fn find_entry<R: Registers>(res: &Vec<(String, Location<R>)>, name: &str) -> (i: usize)
    ensures
        i == entry_index(entries_of(res@), name@),
        i <= res.len(),
{
    let ghost e = entries_of(res@);
    let key = String::from_str(name);
    let mut i: usize = 0;
    assert(e.skip(0) =~= e);
    while i < res.len()
        invariant
            0 <= i <= res.len(),
            key@ == name@,
            e == entries_of(res@),
            entry_index(e, name@) == i + entry_index(e.skip(i as int), name@),
        decreases res.len() - i,
    {
        assert(e.skip(i as int)[0] == e[i as int]);
        if res[i].0 == key {
            return i;
        }
        assert(e.skip(i as int).drop_first() =~= e.skip(i + 1));
        i = i + 1;
    }
    i
}

fn insert_entry<R: Registers>(res: &mut Vec<(String, Location<R>)>, name: &str, loc: Location<R>)
    ensures
        entries_of(final(res)@) == entry_insert(entries_of(old(res)@), name@, loc),
{
    let i = find_entry(res, name);
    if i < res.len() {
        res.set(i, (String::from_str(name), loc));
        assert(entries_of(res@) =~= entries_of(old(res)@).update(i as int, (name@, loc)));
    } else {
        res.push((String::from_str(name), loc));
        assert(entries_of(res@) =~= entries_of(old(res)@).push((name@, loc)));
    }
}

impl<R: Registers> MemoryManagement<R> {
    /// A manager with every general purpose register free and nothing
    /// reserved.
    pub fn default() -> (m: Self)
        ensures
            m@.free_registers == R::general_purpose_spec(),
            m@.entries == Seq::<(Seq<char>, Location<R>)>::empty(),
            m@.allocated_stack == 0,
    {
        let m = MemoryManagement {
            free_registers: R::general_purpose_registers(),
            reservations: Vec::new(),
            allocated_stack: 0,
        };
        assert(entries_of(m.reservations@) =~= Seq::<(Seq<char>, Location<R>)>::empty());
        m
    }

    /// Keeps `name` at the last free register, or at a new stack slot when
    /// none is free.
    pub fn reserve(&mut self, name: &str) -> (l: Location<R>)
        requires
            old(self)@.can_reserve(1),
        ensures
            (final(self)@, l) == old(self)@.after_reserve(name@),
    {
        let location = match self.free_registers.pop() {
            Some(register) => Location::Register(register),
            None => {
                assert(1 * R::alignment_spec() == R::alignment_spec());
                self.allocated_stack = self.allocated_stack + R::alignment();
                Location::Stack(self.allocated_stack)
            },
        };
        insert_entry(&mut self.reservations, name, location);
        location
    }

    /// The location of `name`, or the error that it is not defined.
    pub fn get(&self, name: &str) -> (r: Result<Location<R>, GeneratorErrors>)
        ensures
            match entry_get(self@.entries, name@) {
                Some(l) => r == Ok::<Location<R>, GeneratorErrors>(l),
                None => r matches Err(e) && e@ == GeneratorErrorsView::VariableNotDefined(name@),
            },
    {
        let i = find_entry(&self.reservations, name);
        if i < self.reservations.len() {
            Ok(self.reservations[i].1)
        } else {
            Err(GeneratorErrors::VariableNotDefined { name: String::from_str(name) })
        }
    }

    /// The name of the first reservation kept at `loc`, if any.
    fn check_reservation(&self, loc: &Location<R>) -> (r: Option<String>)
        ensures
            match first_at(self@.entries, *loc) {
                Some(n) => r matches Some(s) && s@ == n,
                None => r is None,
            },
    {
        let ghost e = self@.entries;
        let mut i: usize = 0;
        assert(e.skip(0) =~= e);
        while i < self.reservations.len()
            invariant
                0 <= i <= self.reservations.len(),
                e == entries_of(self.reservations@),
                first_at(e, *loc) == first_at(e.skip(i as int), *loc),
            decreases self.reservations.len() - i,
        {
            assert(e.skip(i as int)[0] == e[i as int]);
            if same_location(&self.reservations[i].1, loc) {
                return Some(self.reservations[i].0.clone());
            }
            assert(e.skip(i as int).drop_first() =~= e.skip(i + 1));
            i = i + 1;
        }
        None
    }

    /// Where the `arg`-th argument of a call is passed.
    pub fn get_argument(&self, arg: usize) -> (l: Location<R>)
        requires
            argument_fits::<R>(arg as nat),
        ensures
            l == argument_location::<R>(arg as nat),
    {
        let registers = R::argument_registers();
        if arg >= registers.len() {
            Location::Stack((arg - registers.len()) * R::alignment())
        } else {
            Location::Register(registers[arg])
        }
    }

    /// Puts `arguments` in the locations they are passed in. A name kept at
    /// one of those locations is moved to a new one, and the argument is
    /// copied into it.
    pub fn put_arguments(&mut self, arguments: &[String]) -> (v: Vec<Instruction>)
        requires
            forall|i: nat| i < arguments@.len() ==> argument_fits::<R>(i),
            old(self)@.can_reserve(
                conflicts(old(self)@.entries, argument_entries::<R>(views_of(arguments@))).len(),
            ),
        ensures
            ({
                let al = argument_entries::<R>(views_of(arguments@));
                let e = old(self)@.entries;
                let cs = conflicts(e, al);
                let m = ManagementView { entries: insert_entries(e, al), ..old(self)@ };
                &&& final(self)@ == move_conflicts(m, cs, conflict_locations(e, al))
                &&& v@.map_values(|i: Instruction| i@) == conflict_copies(cs)
            }),
    {
        let ghost e = self@.entries;
        let ghost args = views_of(arguments@);
        let ghost al = argument_entries::<R>(args);
        let mut locations: Vec<Location<R>> = Vec::new();
        let mut i: usize = 0;
        while i < arguments.len()
            invariant
                0 <= i <= arguments.len(),
                forall|j: nat| j < arguments@.len() ==> argument_fits::<R>(j),
                locations@.len() == i,
                forall|j: int| 0 <= j < i ==> locations@[j] == argument_location::<R>(j as nat),
            decreases arguments.len() - i,
        {
            locations.push(self.get_argument(i));
            i = i + 1;
        }
        let mut conflicting: Vec<(String, String, Location<R>)> = Vec::new();
        i = 0;
        while i < arguments.len()
            invariant
                0 <= i <= arguments.len(),
                args == views_of(arguments@),
                al == argument_entries::<R>(args),
                e == self@.entries,
                locations@.len() == arguments.len(),
                forall|j: int| 0 <= j < arguments.len() ==> locations@[j] == argument_location::<R>(j as nat),
                conflicting@.map_values(|c: (String, String, Location<R>)| (c.0@, c.1@)) == conflicts(e, al.take(i as int)),
                conflicting@.map_values(|c: (String, String, Location<R>)| c.2) == conflict_locations(e, al.take(i as int)),
            decreases arguments.len() - i,
        {
            assert(al.take(i + 1).drop_last() =~= al.take(i as int));
            assert(al.take(i + 1).last() == (args[i as int], locations@[i as int]));
            let ghost before = conflicting@;
            if let Some(name) = self.check_reservation(&locations[i]) {
                conflicting.push((arguments[i].clone(), name, locations[i]));
                assert(conflicting@.map_values(|c: (String, String, Location<R>)| (c.0@, c.1@)) =~= before.map_values(
                    |c: (String, String, Location<R>)| (c.0@, c.1@),
                ).push((args[i as int], first_at(e, locations@[i as int])->0)));
                assert(conflicting@.map_values(|c: (String, String, Location<R>)| c.2) =~= before.map_values(
                    |c: (String, String, Location<R>)| c.2,
                ).push(locations@[i as int]));
            }
            i = i + 1;
        }
        assert(al.take(arguments.len() as int) =~= al);
        i = 0;
        while i < arguments.len()
            invariant
                0 <= i <= arguments.len(),
                args == views_of(arguments@),
                al == argument_entries::<R>(args),
                locations@.len() == arguments.len(),
                forall|j: int| 0 <= j < arguments.len() ==> locations@[j] == argument_location::<R>(j as nat),
                self@.entries == insert_entries(e, al.take(i as int)),
                self@.free_registers == old(self)@.free_registers,
                self@.allocated_stack == old(self)@.allocated_stack,
            decreases arguments.len() - i,
        {
            assert(al.take(i + 1).drop_last() =~= al.take(i as int));
            insert_entry(&mut self.reservations, arguments[i].as_str(), locations[i]);
            i = i + 1;
        }
        let ghost cs = conflicts(e, al);
        let ghost cl = conflict_locations(e, al);
        let ghost m0 = self@;
        proof {
            lemma_conflicts_len(e, al);
        }
        let mut copies: Vec<Instruction> = Vec::new();
        let mut k: usize = 0;
        while k < conflicting.len()
            invariant
                0 <= k <= conflicting.len(),
                conflicting@.len() == cs.len(),
                cs.len() == cl.len(),
                cs.len() <= arguments.len(),
                conflicting@.map_values(|c: (String, String, Location<R>)| (c.0@, c.1@)) == cs,
                conflicting@.map_values(|c: (String, String, Location<R>)| c.2) == cl,
                self@ == move_conflicts(m0, cs.take(k as int), cl.take(k as int)),
                self@.can_reserve((cs.len() - k) as nat),
                copies@.map_values(|i: Instruction| i@) == conflict_copies(cs.take(k as int)),
            decreases conflicting.len() - k,
        {
            let (argument, name, location) = (&conflicting[k].0, &conflicting[k].1, conflicting[k].2);
            assert(cs[k as int] == (argument@, name@));
            assert(cl[k as int] == location);
            insert_entry(&mut self.reservations, name.as_str(), location);
            proof {
                assert(cs.take(k + 1).drop_last() =~= cs.take(k as int));
                assert(cl.take(k + 1).drop_last() =~= cl.take(k as int));
                let r = cs.len() - k;
                let a = R::alignment_spec();
                assert(r * a == a + (r - 1) * a && r * a >= a && 1 * a == a && 0 * a == 0) by (nonlinear_arith)
                    requires
                        r >= 1,
                        a >= 0,
                ;
            }
            self.reserve(name.as_str());
            let ghost before = copies@;
            copies.push(Instruction::Copy(argument.clone(), name.clone()));
            assert(copies@.map_values(|i: Instruction| i@) =~= before.map_values(|i: Instruction| i@).push(
                InstructionView::Copy(argument@, name@),
            ));
            assert(conflict_copies(cs.take(k + 1)) =~= conflict_copies(cs.take(k as int)).push(
                InstructionView::Copy(argument@, name@),
            ));
            k = k + 1;
        }
        assert(cs.take(cs.len() as int) =~= cs);
        assert(cl.take(cl.len() as int) =~= cl);
        copies
    }
}

proof fn lemma_entry_index<R: Registers>(e: Entries<R>, n: Seq<char>)
    ensures
        entry_index(e, n) <= e.len(),
        entry_index(e, n) < e.len() ==> e[entry_index(e, n) as int].0 == n,
        forall|j: int| 0 <= j < entry_index(e, n) ==> #[trigger] e[j].0 != n,
    decreases e.len(),
{
    if e.len() > 0 && e[0].0 != n {
        lemma_entry_index(e.drop_first(), n);
        assert forall|j: int| 0 <= j < entry_index(e, n) implies #[trigger] e[j].0 != n by {
            if j > 0 {
                assert(e[j] == e.drop_first()[j - 1]);
            }
        }
    }
}

proof fn lemma_entry_index_at<R: Registers>(e: Entries<R>, n: Seq<char>, i: int)
    requires
        0 <= i <= e.len(),
        i < e.len() ==> e[i].0 == n,
        forall|j: int| 0 <= j < i ==> #[trigger] e[j].0 != n,
    ensures
        entry_index(e, n) == i,
    decreases e.len(),
{
    if e.len() > 0 && i > 0 {
        assert(e[0].0 != n);
        assert forall|j: int| 0 <= j < i - 1 implies #[trigger] e.drop_first()[j].0 != n by {
            assert(e.drop_first()[j] == e[j + 1]);
        }
        lemma_entry_index_at(e.drop_first(), n, i - 1);
    }
}

/// Keeping `name` at `loc` makes `loc` its location and leaves the location
/// of every other name as it was.
pub proof fn lemma_entry_insert_get<R: Registers>(e: Entries<R>, name: Seq<char>, loc: Location<R>, other: Seq<char>)
    ensures
        entry_get(entry_insert(e, name, loc), name) == Some(loc),
        other != name ==> entry_get(entry_insert(e, name, loc), other) == entry_get(e, other),
{
    lemma_entry_index(e, name);
    let i = entry_index(e, name) as int;
    let e2 = entry_insert(e, name, loc);
    assert(forall|j: int| 0 <= j < e.len() && j != i ==> #[trigger] e2[j] == e[j]);
    assert(forall|j: int| 0 <= j < e.len() ==> #[trigger] e2[j].0 == e[j].0);
    assert(e2[i] == (name, loc));
    lemma_entry_index_at(e2, name, i);
    if other != name {
        lemma_entry_index(e, other);
        let k = entry_index(e, other) as int;
        if k < e.len() {
            assert(k != i);
            lemma_entry_index_at(e2, other, k);
        } else {
            assert forall|j: int| 0 <= j < e2.len() implies #[trigger] e2[j].0 != other by {
                if j < e.len() {
                    assert(e2[j].0 == e[j].0);
                }
            }
            lemma_entry_index_at(e2, other, e2.len() as int);
        }
    }
}

/// Right after `name` is reserved, looking it up gives the location it was
/// kept at, and looking up any other name gives what it gave before.
pub proof fn law_get_after_reserve<R: Registers>(m: ManagementView<R>, name: Seq<char>, other: Seq<char>)
    ensures
        entry_get(m.after_reserve(name).0.entries, name) == Some(m.after_reserve(name).1),
        other != name ==> entry_get(m.after_reserve(name).0.entries, other) == entry_get(m.entries, other),
{
    lemma_entry_insert_get(m.entries, name, m.after_reserve(name).1, other);
}

} // verus!
