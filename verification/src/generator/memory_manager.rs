use vstd::prelude::*;

use crate::errors::{GeneratorErrors, GeneratorErrorsView};
use crate::generator::locations::{
    add_stack_slots, differs_from, insert_all, insert_index, insert_sorted, lemma_add_stack_slots,
    lemma_insert_index, lemma_insert_index_unique, lemma_insert_sorted,
    lemma_loc_gt_total, lemma_without_sorted, loc_gt, sorted, without, Location, LocationView,
};
use crate::generator::assembly_flavour::{
    arity, full_view, parameter_of, AssemblyInstruction, AssemblyInstructionParameter,
    AssemblyInstructionView, FullInstruction, ParameterView,
};
use crate::generator::emptying::{
    free_not_hardcoded, lemma_insert_not_hardcoded, lemma_without_not_hardcoded,
};
use crate::generator::registers::Registers;
use crate::text::{decimal, decimal_text};

verus! {

/// The reservations as a map from name to location; a later entry for a name
/// overrides an earlier one.
pub open spec fn map_of<R>(s: Seq<(Seq<char>, LocationView<R>)>) -> Map<Seq<char>, LocationView<R>>
    decreases s.len(),
{
    if s.len() == 0 {
        Map::empty()
    } else {
        map_of(s.drop_last()).insert(s.last().0, s.last().1)
    }
}

/// No two entries have the same name.
pub open spec fn keys_distinct<R>(s: Seq<(Seq<char>, LocationView<R>)>) -> bool {
    forall|i: int, j: int| 0 <= i < j < s.len() ==> (#[trigger] s[i]).0 != (#[trigger] s[j]).0
}

/// No two entries have the same location.
pub open spec fn values_distinct<R>(s: Seq<(Seq<char>, LocationView<R>)>) -> bool {
    forall|i: int, j: int| 0 <= i < j < s.len() ==> (#[trigger] s[i]).1 != (#[trigger] s[j]).1
}

/// Whether some entry of `e` has the name `k`.
pub open spec fn has_name<R>(e: Seq<(Seq<char>, LocationView<R>)>, k: Seq<char>) -> bool {
    exists|j: int| 0 <= j < e.len() && (#[trigger] e[j]).0 == k
}

/// Whether one of the first `n` strings of `b` is `k`.
pub open spec fn is_among(b: Seq<String>, n: int, k: Seq<char>) -> bool {
    exists|j: int| 0 <= j < n && (#[trigger] b[j])@ == k
}

/// The name kept at `l`, if any.
pub open spec fn name_at<R>(m: Map<Seq<char>, LocationView<R>>, l: LocationView<R>) -> Option<Seq<char>> {
    if is_taken(m, l) {
        Some(choose|k: Seq<char>| m.dom().contains(k) && m[k] == l)
    } else {
        None
    }
}

/// Whether some name is kept at `l`.
pub open spec fn is_taken<R>(m: Map<Seq<char>, LocationView<R>>, l: LocationView<R>) -> bool {
    exists|k: Seq<char>| m.dom().contains(k) && m[k] == l
}

/// With distinct names, a name is in the map exactly when some entry has
/// it, and it maps to the location of that entry.
pub proof fn lemma_map_of_lookup<R>(s: Seq<(Seq<char>, LocationView<R>)>, k: Seq<char>)
    requires
        keys_distinct(s),
    ensures
        map_of(s).dom().contains(k) <==> exists|i: int| 0 <= i < s.len() && (#[trigger] s[i]).0 == k,
        forall|i: int| 0 <= i < s.len() && (#[trigger] s[i]).0 == k ==> map_of(s)[k] == s[i].1,
    decreases s.len(),
{
    if s.len() > 0 {
        let r = s.drop_last();
        assert(keys_distinct(r));
        lemma_map_of_lookup(r, k);
        if map_of(s).dom().contains(k) {
            if s.last().0 == k {
                assert(s[s.len() - 1].0 == k);
            } else {
                assert(map_of(r).dom().contains(k));
                let i = choose|i: int| 0 <= i < r.len() && (#[trigger] r[i]).0 == k;
                assert(s[i] == r[i]);
            }
        }
        if exists|i: int| 0 <= i < s.len() && (#[trigger] s[i]).0 == k {
            let i = choose|i: int| 0 <= i < s.len() && (#[trigger] s[i]).0 == k;
            if i < s.len() - 1 {
                assert(s[i] == r[i]);
            }
        }
        assert forall|i: int| 0 <= i < s.len() && (#[trigger] s[i]).0 == k implies map_of(s)[k]
            == s[i].1 by {
            if i < s.len() - 1 {
                assert(s[i] == r[i]);
            }
        }
    }
}

/// Every location of the map is that of an entry, and the other way round.
pub proof fn lemma_map_of_values<R>(s: Seq<(Seq<char>, LocationView<R>)>, l: LocationView<R>)
    requires
        keys_distinct(s),
    ensures
        is_taken(map_of(s), l) <==> exists|i: int| 0 <= i < s.len() && (#[trigger] s[i]).1 == l,
{
    if is_taken(map_of(s), l) {
        let k = choose|k: Seq<char>| map_of(s).dom().contains(k) && map_of(s)[k] == l;
        lemma_map_of_lookup(s, k);
        let i = choose|i: int| 0 <= i < s.len() && (#[trigger] s[i]).0 == k;
        assert(s[i].1 == l);
    }
    if exists|i: int| 0 <= i < s.len() && (#[trigger] s[i]).1 == l {
        let i = choose|i: int| 0 <= i < s.len() && (#[trigger] s[i]).1 == l;
        lemma_map_of_lookup(s, s[i].0);
        assert(map_of(s).dom().contains(s[i].0));
    }
}

/// Removing an entry removes its name from the map.
pub proof fn lemma_map_of_remove<R>(s: Seq<(Seq<char>, LocationView<R>)>, i: int)
    requires
        keys_distinct(s),
        0 <= i < s.len(),
    ensures
        keys_distinct(s.remove(i)),
        map_of(s.remove(i)) =~= map_of(s).remove(s[i].0),
{
    let t = s.remove(i);
    assert forall|p: int, q: int| 0 <= p < q < t.len() implies (#[trigger] t[p]).0 != (
    #[trigger] t[q]).0 by {
        let pp = if p < i { p } else { p + 1 };
        let qq = if q < i { q } else { q + 1 };
        assert(t[p] == s[pp] && t[q] == s[qq]);
    }
    assert forall|k: Seq<char>| #[trigger] map_of(t).dom().contains(k) <==> map_of(s).remove(
        s[i].0,
    ).dom().contains(k) by {
        lemma_map_of_lookup(t, k);
        lemma_map_of_lookup(s, k);
        if map_of(t).dom().contains(k) {
            let j = choose|j: int| 0 <= j < t.len() && (#[trigger] t[j]).0 == k;
            let jj = if j < i { j } else { j + 1 };
            assert(t[j] == s[jj]);
        }
        if map_of(s).remove(s[i].0).dom().contains(k) {
            let j = choose|j: int| 0 <= j < s.len() && (#[trigger] s[j]).0 == k;
            let jj = if j < i { j } else { j - 1 };
            assert(t[jj] == s[j]);
        }
    }
    assert forall|k: Seq<char>| #[trigger] map_of(t).dom().contains(k) implies map_of(t)[k]
        == map_of(s).remove(s[i].0)[k] by {
        lemma_map_of_lookup(t, k);
        lemma_map_of_lookup(s, k);
        let j = choose|j: int| 0 <= j < t.len() && (#[trigger] t[j]).0 == k;
        let jj = if j < i { j } else { j + 1 };
        assert(t[j] == s[jj]);
    }
}

/// Adding an entry at the end inserts it into the map.
pub proof fn lemma_map_of_push<R>(s: Seq<(Seq<char>, LocationView<R>)>, p: (Seq<char>, LocationView<R>))
    ensures
        map_of(s.push(p)) == map_of(s).insert(p.0, p.1),
{
    assert(s.push(p).drop_last() =~= s);
}


/// The locations of a sequence of locations.
pub open spec fn locations_view<R: Registers>(v: Seq<Location<R>>) -> Seq<LocationView<R>> {
    v.map_values(|l: Location<R>| l@)
}

/// The names and locations of a sequence of reservations.
pub open spec fn entries_view<R: Registers>(v: Seq<(String, Location<R>)>) -> Seq<
    (Seq<char>, LocationView<R>),
> {
    v.map_values(|p: (String, Location<R>)| (p.0@, p.1@))
}

/// What a memory manager holds.
pub struct MemoryManagerView<R> {
    /// The number of stack slots handed out so far.
    pub stack_position: nat,
    /// The free locations, in the order they are handed out.
    pub next_locations: Seq<LocationView<R>>,
    /// The location of every name.
    pub reservations: Map<Seq<char>, LocationView<R>>,
}

impl<R: Registers> MemoryManagerView<R> {
    /// Keeping `name` at `loc`: refused when the name or the location is taken.
    pub open spec fn after_reserve_location(self, name: Seq<char>, loc: LocationView<R>) -> (Self, bool) {
        if !self.reservations.dom().contains(name) && !is_taken(self.reservations, loc) {
            (
                MemoryManagerView {
                    stack_position: self.stack_position,
                    next_locations: without(self.next_locations, loc),
                    reservations: self.reservations.insert(name, loc),
                },
                true,
            )
        } else {
            (self, false)
        }
    }

    /// Giving the location of `name` back, unless it is hardcoded data.
    pub open spec fn after_free(self, name: Seq<char>) -> Self {
        if self.reservations.dom().contains(name) && !(self.reservations[name] is Hardcoded) {
            MemoryManagerView {
                stack_position: self.stack_position,
                next_locations: insert_sorted(self.next_locations, self.reservations[name]),
                reservations: self.reservations.remove(name),
            }
        } else {
            self
        }
    }

    /// The stack slots that must be added for `n` locations to be free.
    pub open spec fn slots_to_add(self, n: nat) -> nat {
        if self.next_locations.len() < n {
            (n - self.next_locations.len()) as nat
        } else {
            0
        }
    }

    /// Adding stack slots until at least `n` locations are free.
    pub open spec fn after_ensure(self, n: nat) -> Self {
        let k: nat = if self.next_locations.len() < n {
            (n - self.next_locations.len()) as nat
        } else {
            0
        };
        MemoryManagerView {
            stack_position: self.stack_position + k,
            next_locations: add_stack_slots(self.next_locations, self.stack_position as int, k),
            reservations: self.reservations,
        }
    }

    /// Keeping `name` at the `n`-th free location (the first when `n` is 0);
    /// the location, or `None` when refused.
    pub open spec fn after_reserve_nth_free(self, name: Seq<char>, n: nat) -> (Self, Option<LocationView<R>>) {
        let e = self.after_ensure(n);
        let free = e.next_locations;
        let k: int = if n == 0 {
            1
        } else {
            n as int
        };
        let loc = free[k - 1];
        if !self.reservations.dom().contains(name) && !is_taken(self.reservations, loc) {
            (
                MemoryManagerView {
                    stack_position: e.stack_position,
                    next_locations: free.take(k - 1) + without(free.skip(k), loc),
                    reservations: self.reservations.insert(name, loc),
                },
                Some(loc),
            )
        } else {
            (
                MemoryManagerView {
                    stack_position: e.stack_position,
                    next_locations: free.skip(k),
                    reservations: self.reservations,
                },
                None,
            )
        }
    }
}

/// Decides where the values of a function are kept: in registers while some
/// are free, then in stack slots; named data stays where it is.
pub struct MemoryManager<R: Registers> {
    stack_position: usize,
    next_locations: Vec<Location<R>>,
    reservations: Vec<(String, Location<R>)>,
}

impl<R: Registers> View for MemoryManager<R> {
    type V = MemoryManagerView<R>;

    closed spec fn view(&self) -> MemoryManagerView<R> {
        MemoryManagerView {
            stack_position: self.stack_position as nat,
            next_locations: locations_view(self.next_locations@),
            reservations: map_of(entries_view(self.reservations@)),
        }
    }
}

/// Whether two locations are the same.
fn same_location<R: Registers>(a: &Location<R>, b: &Location<R>) -> (r: bool)
    ensures
        r == (a@ == b@),
{
    match (a, b) {
        (Location::Register(x), Location::Register(y)) => x.same(y),
        (Location::Stack(x), Location::Stack(y)) => *x == *y,
        (Location::Hardcoded(x), Location::Hardcoded(y)) => *x == *y,
        _ => false,
    }
}

/// Whether `a` is handed out before `b`.
fn location_gt<R: Registers>(a: &Location<R>, b: &Location<R>) -> (r: bool)
    ensures
        r == loc_gt(a@, b@),
{
    match (a, b) {
        (Location::Register(x), Location::Register(y)) => x.outranks(y),
        (Location::Register(_), _) => true,
        (Location::Stack(x), Location::Stack(y)) => *x < *y,
        (Location::Stack(_), Location::Register(_)) => false,
        (Location::Stack(_), Location::Hardcoded(_)) => true,
        (Location::Hardcoded(_), _) => false,
    }
}

/// Adds `x` to the ordered `v` in its place.
fn insert_in_order<R: Registers>(v: &mut Vec<Location<R>>, x: Location<R>)
    requires
        sorted(locations_view(old(v)@)),
    ensures
        locations_view(final(v)@) == insert_sorted(locations_view(old(v)@), x@),
        sorted(locations_view(final(v)@)),
{
    let ghost s = locations_view(v@);
    let mut i: usize = 0;
    while i < v.len() && !location_gt(&x, &v[i])
        invariant
            0 <= i <= v.len(),
            s == locations_view(v@),
            forall|j: int| 0 <= j < i ==> !loc_gt(x@, #[trigger] s[j]),
        decreases v.len() - i,
    {
        i = i + 1;
    }
    proof {
        lemma_insert_index_unique(s, x@, i as int);
        lemma_insert_sorted(s, x@);
    }
    let ghost xv = x@;
    v.insert(i, x);
    assert(locations_view(v@) =~= s.insert(i as int, xv));
}

/// Removes every copy of `x` from `v`.
fn remove_all<R: Registers>(v: &mut Vec<Location<R>>, x: &Location<R>)
    requires
        sorted(locations_view(old(v)@)),
    ensures
        locations_view(final(v)@) == without(locations_view(old(v)@), x@),
        sorted(locations_view(final(v)@)),
{
    let ghost s = locations_view(v@);
    let mut kept: Vec<Location<R>> = Vec::new();
    let mut i: usize = 0;
    while i < v.len()
        invariant
            0 <= i <= v.len(),
            s == locations_view(v@),
            locations_view(kept@) == s.take(i as int).filter(differs_from(x@)),
        decreases v.len() - i,
    {
        proof {
            reveal(Seq::filter);
            assert(s.take(i + 1).drop_last() =~= s.take(i as int));
        }
        if !same_location(&v[i], x) {
            let c = v[i].clone();
            kept.push(c);
            assert(locations_view(kept@) =~= s.take(i as int).filter(differs_from(x@)).push(s[i as int]));
        }
        i = i + 1;
    }
    assert(s.take(v.len() as int) =~= s);
    proof {
        lemma_without_sorted(s, x@);
    }
    *v = kept;
}

/// The index of the reservation of `name`, if any.
fn find_name<R: Registers>(res: &Vec<(String, Location<R>)>, name: &String) -> (r: Option<usize>)
    ensures
        r matches Some(i) ==> i < res.len() && res@[i as int].0@ == name@,
        r is None ==> forall|i: int| 0 <= i < res.len() ==> (#[trigger] res@[i]).0@ != name@,
{
    let mut i: usize = 0;
    while i < res.len()
        invariant
            0 <= i <= res.len(),
            forall|j: int| 0 <= j < i ==> (#[trigger] res@[j]).0@ != name@,
        decreases res.len() - i,
    {
        if res[i].0 == *name {
            return Some(i);
        }
        i = i + 1;
    }
    None
}

/// The index of the reservation kept at `location`, if any.
fn find_location<R: Registers>(res: &Vec<(String, Location<R>)>, location: &Location<R>) -> (r:
    Option<usize>)
    ensures
        r matches Some(i) ==> i < res.len() && res@[i as int].1@ == location@,
        r is None ==> forall|i: int| 0 <= i < res.len() ==> (#[trigger] res@[i]).1@ != location@,
{
    let mut i: usize = 0;
    while i < res.len()
        invariant
            0 <= i <= res.len(),
            forall|j: int| 0 <= j < i ==> (#[trigger] res@[j]).1@ != location@,
        decreases res.len() - i,
    {
        if same_location(&res[i].1, location) {
            return Some(i);
        }
        i = i + 1;
    }
    None
}

impl<R: Registers> MemoryManager<R> {
    /// The free locations are in order, and no two reservations share a name
    /// or a location.
    pub closed spec fn wf(&self) -> bool {
        &&& sorted(locations_view(self.next_locations@))
        &&& free_not_hardcoded(locations_view(self.next_locations@))
        &&& keys_distinct(entries_view(self.reservations@))
        &&& values_distinct(entries_view(self.reservations@))
    }

    /// Whether `name` is reserved.
    pub fn is_name_taken(&self, name: &str) -> (b: bool)
        requires
            self.wf(),
        ensures
            b == self@.reservations.dom().contains(name@),
    {
        let key = String::from_str(name);
        let r = find_name(&self.reservations, &key);
        proof {
            let e = entries_view(self.reservations@);
            lemma_map_of_lookup(e, name@);
            if r is None {
                assert forall|i: int| 0 <= i < e.len() implies (#[trigger] e[i]).0 != name@ by {
                    assert(e[i].0 == self.reservations@[i].0@);
                }
            } else {
                let i = r->0 as int;
                assert(e[i].0 == name@);
            }
        }
        r.is_some()
    }

    /// Whether some name is kept at `location`.
    pub fn is_location_taken(&self, location: &Location<R>) -> (b: bool)
        requires
            self.wf(),
        ensures
            b == is_taken(self@.reservations, location@),
    {
        let r = find_location(&self.reservations, location);
        proof {
            let e = entries_view(self.reservations@);
            lemma_map_of_values(e, location@);
            if r is None {
                assert forall|i: int| 0 <= i < e.len() implies (#[trigger] e[i]).1 != location@ by {
                    assert(e[i].1 == self.reservations@[i].1@);
                }
            } else {
                let i = r->0 as int;
                assert(e[i].1 == location@);
            }
        }
        r.is_some()
    }

    /// The location of `name`, if it is reserved.
    pub fn get_location(&self, name: &str) -> (r: Option<&Location<R>>)
        requires
            self.wf(),
        ensures
            match r {
                Some(l) => self@.reservations.dom().contains(name@) && self@.reservations[name@]
                    == l@,
                None => !self@.reservations.dom().contains(name@),
            },
    {
        let key = String::from_str(name);
        let r = find_name(&self.reservations, &key);
        proof {
            let e = entries_view(self.reservations@);
            lemma_map_of_lookup(e, name@);
            if r is None {
                assert forall|i: int| 0 <= i < e.len() implies (#[trigger] e[i]).0 != name@ by {
                    assert(e[i].0 == self.reservations@[i].0@);
                }
            } else {
                let i = r->0 as int;
                assert(e[i].0 == name@);
            }
        }
        match r {
            Some(i) => Some(&self.reservations[i].1),
            None => None,
        }
    }

    /// The location of `name`, or an error saying that it is not defined.
    pub fn get_location_or_err(&self, name: &str) -> (r: Result<&Location<R>, GeneratorErrors>)
        requires
            self.wf(),
        ensures
            match r {
                Ok(l) => self@.reservations.dom().contains(name@) && self@.reservations[name@]
                    == l@,
                Err(e) => !self@.reservations.dom().contains(name@) && e@
                    == GeneratorErrorsView::VariableNotDefined(name@),
            },
    {
        match self.get_location(name) {
            Some(l) => Ok(l),
            None => Err(GeneratorErrors::VariableNotDefined { name: String::from_str(name) }),
        }
    }

    /// The name kept at `location`, if any.
    pub fn get_name(&self, location: &Location<R>) -> (r: Option<&str>)
        requires
            self.wf(),
        ensures
            match r {
                Some(n) => self@.reservations.dom().contains(n@) && self@.reservations[n@]
                    == location@ && name_at(self@.reservations, location@) == Some(n@),
                None => !is_taken(self@.reservations, location@) && name_at(
                    self@.reservations,
                    location@,
                ) is None,
            },
    {
        let r = find_location(&self.reservations, location);
        proof {
            let e = entries_view(self.reservations@);
            lemma_map_of_values(e, location@);
            if r is None {
                assert forall|i: int| 0 <= i < e.len() implies (#[trigger] e[i]).1 != location@ by {
                    assert(e[i].1 == self.reservations@[i].1@);
                }
            } else {
                let i = r->0 as int;
                assert(e[i].1 == location@);
                lemma_map_of_lookup(e, e[i].0);
                let m = self@.reservations;
                let k = choose|k: Seq<char>| m.dom().contains(k) && m[k] == location@;
                lemma_map_of_lookup(e, k);
                let j = choose|j: int| 0 <= j < e.len() && (#[trigger] e[j]).0 == k;
                if j != i {
                    assert(e[i].1 == e[j].1);
                    if i < j {
                        assert(e[i].1 != e[j].1);
                    } else {
                        assert(e[j].1 != e[i].1);
                    }
                }
            }
        }
        match r {
            Some(i) => Some(self.reservations[i].0.as_str()),
            None => None,
        }
    }

    /// Every reservation: each name with its location.
    pub fn reservations(&self) -> (v: Vec<(String, Location<R>)>)
        ensures
            map_of(entries_view(v@)) == self@.reservations,
            self.wf() ==> keys_distinct(entries_view(v@)),
    {
        let mut v: Vec<(String, Location<R>)> = Vec::new();
        let mut i: usize = 0;
        while i < self.reservations.len()
            invariant
                0 <= i <= self.reservations.len(),
                entries_view(v@) == entries_view(self.reservations@).take(i as int),
            decreases self.reservations.len() - i,
        {
            let ghost before = v@;
            let entry = (self.reservations[i].0.clone(), self.reservations[i].1.clone());
            v.push(entry);
            assert(entries_view(v@) =~= entries_view(before).push(entries_view(self.reservations@)[i as int]));
            assert(entries_view(self.reservations@).take(i + 1) =~= entries_view(self.reservations@).take(i as int).push(
                entries_view(self.reservations@)[i as int],
            ));
            i = i + 1;
        }
        assert(entries_view(self.reservations@).take(i as int) =~= entries_view(self.reservations@));
        v
    }

    /// Hands out the next free location, if there is one.
    pub fn pop_next_location(&mut self) -> (r: Option<Location<R>>)
        requires
            old(self).wf(),
        ensures
            final(self).wf(),
            final(self)@.stack_position == old(self)@.stack_position,
            final(self)@.reservations == old(self)@.reservations,
            old(self)@.next_locations.len() == 0 ==> r is None && final(self)@.next_locations
                == old(self)@.next_locations,
            old(self)@.next_locations.len() > 0 ==> (r matches Some(l) && l@
                == old(self)@.next_locations[0]) && final(self)@.next_locations == old(
                self,
            )@.next_locations.drop_first(),
    {
        if self.next_locations.len() == 0 {
            None
        } else {
            let ghost s = locations_view(self.next_locations@);
            let l = self.next_locations.remove(0);
            assert(locations_view(self.next_locations@) =~= s.drop_first());
            Some(l)
        }
    }

    /// Adds a new stack slot to the free locations.
    pub fn add_next_location(&mut self)
        requires
            old(self).wf(),
            old(self)@.stack_position < usize::MAX,
        ensures
            final(self).wf(),
            final(self)@.stack_position == old(self)@.stack_position + 1,
            final(self)@.next_locations == insert_sorted(
                old(self)@.next_locations,
                LocationView::Stack(old(self)@.stack_position as usize),
            ),
            final(self)@.reservations == old(self)@.reservations,
    {
        self.stack_position = self.stack_position + 1;
        proof {
            lemma_insert_not_hardcoded(
                locations_view(self.next_locations@),
                LocationView::Stack((self.stack_position - 1) as usize),
            );
        }
        insert_in_order(&mut self.next_locations, Location::Stack(self.stack_position - 1));
    }

    /// Adds stack slots until at least `n` locations are free.
    pub fn ensure_n_next_locations(&mut self, n: usize)
        requires
            old(self).wf(),
            old(self)@.stack_position + old(self)@.slots_to_add(n as nat) <= usize::MAX,
        ensures
            final(self).wf(),
            final(self)@ == old(self)@.after_ensure(n as nat),
            ({
                let k: nat = if old(self)@.next_locations.len() < n {
                    (n - old(self)@.next_locations.len()) as nat
                } else {
                    0
                };
                &&& final(self)@.stack_position == old(self)@.stack_position + k
                &&& final(self)@.next_locations == add_stack_slots(
                    old(self)@.next_locations,
                    old(self)@.stack_position as int,
                    k,
                )
            }),
            final(self)@.reservations == old(self)@.reservations,
    {
        let ghost s0 = self@.next_locations;
        let ghost p0 = self@.stack_position;
        let count = if self.next_locations.len() < n {
            n - self.next_locations.len()
        } else {
            0
        };
        let mut j: usize = 0;
        while j < count
            invariant
                0 <= j <= count <= n,
                self.wf(),
                p0 + count <= usize::MAX,
                self@.stack_position == p0 + j,
                self@.next_locations == add_stack_slots(s0, p0 as int, j as nat),
                self@.reservations == old(self)@.reservations,
            decreases count - j,
        {
            self.add_next_location();
            j = j + 1;
        }
    }

    /// Keeps `name` at `location`, unless the name or the location is taken.
    pub fn reserve_location(&mut self, name: &str, location: Location<R>) -> (r: Result<
        (),
        GeneratorErrors,
    >)
        requires
            old(self).wf(),
        ensures
            final(self).wf(),
            (final(self)@, r is Ok) == old(self)@.after_reserve_location(name@, location@),
            r matches Err(e) ==> e@ == GeneratorErrorsView::VariableAlreadyExists(name@),
            final(self)@.stack_position == old(self)@.stack_position,
            !old(self)@.reservations.dom().contains(name@) && !is_taken(
                old(self)@.reservations,
                location@,
            ) ==> {
                &&& r is Ok
                &&& final(self)@.reservations == old(self)@.reservations.insert(
                    name@,
                    location@,
                )
                &&& final(self)@.next_locations == without(
                    old(self)@.next_locations,
                    location@,
                )
            },
            old(self)@.reservations.dom().contains(name@) || is_taken(
                old(self)@.reservations,
                location@,
            ) ==> {
                &&& r matches Err(GeneratorErrors::VariableAlreadyExists { name: n })
                &&& n@ == name@
                &&& final(self)@.reservations == old(self)@.reservations
                &&& final(self)@.next_locations == old(self)@.next_locations
            },
    {
        if self.is_name_taken(name) || self.is_location_taken(&location) {
            return Err(GeneratorErrors::VariableAlreadyExists { name: String::from_str(name) });
        }
        let ghost e = entries_view(self.reservations@);
        let entry = (String::from_str(name), location.clone());
        self.reservations.push(entry);
        proof {
            let e2 = entries_view(self.reservations@);
            assert(e2 =~= e.push((name@, location@)));
            lemma_map_of_push(e, (name@, location@));
            lemma_map_of_lookup(e, name@);
            lemma_map_of_values(e, location@);
            assert forall|i: int, j: int| 0 <= i < j < e2.len() implies (#[trigger] e2[i]).0 != (
            #[trigger] e2[j]).0 && e2[i].1 != e2[j].1 by {
                if j == e.len() {
                    assert(e2[i] == e[i]);
                }
            }
        }
        proof {
            lemma_without_not_hardcoded(locations_view(self.next_locations@), location@);
        }
        remove_all(&mut self.next_locations, &location);
        Ok(())
    }

    /// Gives the location of `name` back to the free locations, unless it is
    /// hardcoded data.
    pub fn free(&mut self, name: &str)
        requires
            old(self).wf(),
        ensures
            final(self).wf(),
            final(self)@ == old(self)@.after_free(name@),
            final(self)@.stack_position == old(self)@.stack_position,
            old(self)@.reservations.dom().contains(name@) && !(old(
                self,
            )@.reservations[name@] is Hardcoded) ==> {
                &&& final(self)@.reservations == old(self)@.reservations.remove(name@)
                &&& final(self)@.next_locations == insert_sorted(
                    old(self)@.next_locations,
                    old(self)@.reservations[name@],
                )
            },
            !(old(self)@.reservations.dom().contains(name@) && !(old(
                self,
            )@.reservations[name@] is Hardcoded)) ==> {
                &&& final(self)@.reservations == old(self)@.reservations
                &&& final(self)@.next_locations == old(self)@.next_locations
            },
    {
        let key = String::from_str(name);
        let found = find_name(&self.reservations, &key);
        let ghost e = entries_view(self.reservations@);
        proof {
            lemma_map_of_lookup(e, name@);
            if found is None {
                assert forall|i: int| 0 <= i < e.len() implies (#[trigger] e[i]).0 != name@ by {
                    assert(e[i].0 == self.reservations@[i].0@);
                }
            }
        }
        if let Some(i) = found {
            assert(e[i as int].0 == name@);
            let hardcoded = match &self.reservations[i].1 {
                Location::Hardcoded(_) => true,
                _ => false,
            };
            if !hardcoded {
                let (_, location) = self.reservations.remove(i);
                proof {
                    assert(entries_view(self.reservations@) =~= e.remove(i as int));
                    lemma_map_of_remove(e, i as int);
                    let e2 = e.remove(i as int);
                    assert forall|p: int, q: int| 0 <= p < q < e2.len() implies (
                    #[trigger] e2[p]).1 != (#[trigger] e2[q]).1 by {
                        let pp = if p < i { p } else { p + 1 };
                        let qq = if q < i { q } else { q + 1 };
                        assert(e2[p] == e[pp] && e2[q] == e[qq]);
                    }
                }
                proof {
                    lemma_insert_not_hardcoded(locations_view(self.next_locations@), location@);
                }
                insert_in_order(&mut self.next_locations, location);
            }
        }
    }

    /// Keeps `name` at the `n`-th free location (the first one when `n` is 0),
    /// adding stack slots until there are `n`. The free locations handed out
    /// before it stay free; on a refusal they, and it, are no longer free.
    pub fn reserve_nth_free(&mut self, name: &str, n: usize) -> (r: Result<
        Location<R>,
        GeneratorErrors,
    >)
        requires
            old(self).wf(),
            old(self)@.stack_position + old(self)@.slots_to_add(n as nat) <= usize::MAX,
            n >= 1 || old(self)@.next_locations.len() >= 1,
        ensures
            final(self).wf(),
            final(self)@ == old(self)@.after_reserve_nth_free(name@, n as nat).0,
            match old(self)@.after_reserve_nth_free(name@, n as nat).1 {
                Some(l) => r matches Ok(x) && x@ == l,
                None => r matches Err(e) && e@ == GeneratorErrorsView::VariableAlreadyExists(name@),
            },
            ({
                let s = old(self)@.next_locations;
                let added: nat = if s.len() < n {
                    (n - s.len()) as nat
                } else {
                    0
                };
                let free = add_stack_slots(s, old(self)@.stack_position as int, added);
                let k: int = if n == 0 {
                    1
                } else {
                    n as int
                };
                let loc = free[k - 1];
                &&& final(self)@.stack_position == old(self)@.stack_position + added
                &&& !old(self)@.reservations.dom().contains(name@) && !is_taken(
                    old(self)@.reservations,
                    loc,
                ) ==> {
                    &&& r matches Ok(l) && l@ == loc
                    &&& final(self)@.reservations == old(self)@.reservations.insert(name@, loc)
                    &&& final(self)@.next_locations == free.take(k - 1) + without(
                        free.skip(k),
                        loc,
                    )
                }
                &&& old(self)@.reservations.dom().contains(name@) || is_taken(
                    old(self)@.reservations,
                    loc,
                ) ==> {
                    &&& r matches Err(GeneratorErrors::VariableAlreadyExists { name: m })
                    &&& m@ == name@
                    &&& final(self)@.reservations == old(self)@.reservations
                    &&& final(self)@.next_locations == free.skip(k)
                }
            }),
    {
        self.ensure_n_next_locations(n);
        proof {
            lemma_add_stack_slots(
                old(self)@.next_locations,
                old(self)@.stack_position as int,
                (self@.stack_position - old(self)@.stack_position) as nat,
            );
        }
        let ghost free = self@.next_locations;
        let k: usize = if n == 0 {
            1
        } else {
            n
        };
        let tail = self.next_locations.split_off(k);
        let mut retained: Vec<Location<R>> = Vec::new();
        std::mem::swap(&mut retained, &mut self.next_locations);
        self.next_locations = tail;
        let location = retained.pop().unwrap();
        proof {
            assert(locations_view(self.next_locations@) =~= free.skip(k as int));
            assert(locations_view(retained@) =~= free.take(k - 1));
            assert(location@ == free[k - 1]);
            assert(sorted(free.skip(k as int)));
        }
        match self.reserve_location(name, location.clone()) {
            Err(e) => {
                return Err(e);
            },
            Ok(()) => {},
        }
        let ghost rest = locations_view(self.next_locations@);
        retained.append(&mut self.next_locations);
        self.next_locations = retained;
        proof {
            assert(locations_view(self.next_locations@) =~= free.take(k - 1) + rest);
            lemma_head_and_rest_sorted(free, k as int, location@);
        }
        Ok(location)
    }

    /// Keeps `name` at the first free location, adding a stack slot if none is
    /// free.
    pub fn reserve(&mut self, name: &str) -> (r: Result<Location<R>, GeneratorErrors>)
        requires
            old(self).wf(),
            old(self)@.stack_position + old(self)@.slots_to_add(1) <= usize::MAX,
        ensures
            final(self).wf(),
            final(self)@ == old(self)@.after_reserve_nth_free(name@, 1).0,
            match old(self)@.after_reserve_nth_free(name@, 1).1 {
                Some(l) => r matches Ok(x) && x@ == l,
                None => r matches Err(e) && e@ == GeneratorErrorsView::VariableAlreadyExists(name@),
            },
            ({
                let s = old(self)@.next_locations;
                let free = if s.len() == 0 {
                    seq![LocationView::Stack(old(self)@.stack_position as usize)]
                } else {
                    s
                };
                let loc = free[0];
                &&& final(self)@.stack_position == old(self)@.stack_position + (if s.len() == 0 {
                    1int
                } else {
                    0
                })
                &&& !old(self)@.reservations.dom().contains(name@) && !is_taken(
                    old(self)@.reservations,
                    loc,
                ) ==> {
                    &&& r matches Ok(l) && l@ == loc
                    &&& final(self)@.reservations == old(self)@.reservations.insert(name@, loc)
                    &&& final(self)@.next_locations == without(free.drop_first(), loc)
                }
                &&& old(self)@.reservations.dom().contains(name@) || is_taken(
                    old(self)@.reservations,
                    loc,
                ) ==> {
                    &&& r matches Err(GeneratorErrors::VariableAlreadyExists { name: m })
                    &&& m@ == name@
                    &&& final(self)@.reservations == old(self)@.reservations
                    &&& final(self)@.next_locations == free.drop_first()
                }
            }),
    {
        let ghost s = self@.next_locations;
        let ghost p = self@.stack_position;
        proof {
            if s.len() == 0 {
                assert(add_stack_slots(s, p as int, 0) == s);
                assert(insert_index(s, LocationView::Stack(p as usize)) == 0);
                assert(add_stack_slots(s, p as int, 1) =~= seq![LocationView::<R>::Stack(p as usize)]);
            }
            let added: nat = if s.len() < 1 { 1 } else { 0 };
            let free = add_stack_slots(s, p as int, added);
            assert(free.take(0) + without(free.skip(1), free[0]) =~= without(free.drop_first(), free[0]));
            assert(free.skip(1) =~= free.drop_first());
        }
        self.reserve_nth_free(name, 1)
    }
}

/// The locations handed out before the one at `k - 1`, followed by the free
/// locations after it that differ from `loc`, are still in order.
proof fn lemma_head_and_rest_sorted<R: Registers>(free: Seq<LocationView<R>>, k: int, loc: LocationView<R>)
    requires
        sorted(free),
        1 <= k <= free.len(),
    ensures
        sorted(free.take(k - 1) + without(free.skip(k), loc)),
{
    let head = free.take(k - 1);
    let tail = free.skip(k);
    assert(sorted(tail));
    lemma_without_sorted(tail, loc);
    let w = without(tail, loc);
    let t = head + w;
    assert forall|p: int, q: int| 0 <= p < q < t.len() implies !loc_gt(#[trigger] t[q], #[trigger] t[p]) by {
        if q < head.len() {
        } else if p >= head.len() {
            assert(t[p] == w[p - head.len()]);
            assert(t[q] == w[q - head.len()]);
        } else {
            assert(t[q] == w[q - head.len()]);
            assert(w.contains(w[q - head.len()]));
            tail.lemma_filter_contains_rev(differs_from(loc), w[q - head.len()]);
            let j = choose|j: int| 0 <= j < tail.len() && tail[j] == w[q - head.len()];
            assert(free[k + j] == t[q]);
            assert(free[p] == t[p]);
        }
    }
}

impl<R: Registers> MemoryManager<R> {
    /// Every register, in the order they are handed out.
    fn default_next_locations() -> (v: Vec<Location<R>>)
        ensures
            locations_view(v@) == Self::default_free(),
            sorted(locations_view(v@)),
            free_not_hardcoded(locations_view(v@)),
    {
        let regs = R::all();
        let ghost rv = R::all_spec().map_values(|x: R| LocationView::Register(x));
        let mut next: Vec<Location<R>> = Vec::new();
        let mut i: usize = 0;
        while i < regs.len()
            invariant
                0 <= i <= regs.len(),
                regs@ == R::all_spec(),
                rv == R::all_spec().map_values(|x: R| LocationView::Register(x)),
                locations_view(next@) == insert_all(Seq::empty(), rv.take(i as int)),
                sorted(locations_view(next@)),
                free_not_hardcoded(locations_view(next@)),
            decreases regs.len() - i,
        {
            assert(rv.take(i + 1).drop_last() =~= rv.take(i as int));
            proof {
                lemma_insert_not_hardcoded(locations_view(next@), LocationView::Register(regs@[i as int]));
            }
            insert_in_order(&mut next, Location::Register(regs[i]));
            i = i + 1;
        }
        assert(rv.take(regs.len() as int) =~= rv);
        next
    }

    /// A memory manager with every register free and the one builtin `h_1`
    /// kept as hardcoded data under its own name.
    pub fn default() -> (r: Self)
        ensures
            r.wf(),
            r@.stack_position == 0,
            r@.next_locations == Self::default_free(),
            r@.reservations == Map::<Seq<char>, LocationView<R>>::empty().insert(
                "h_1"@,
                LocationView::<R>::Hardcoded("h_1"@),
            ),
    {
        let name = String::from_str("h_1");
        let builtins = vec![name];
        let r = Self::new(builtins.as_slice());
        proof {
            assert(builtins@[0]@ == "h_1"@);
            assert forall|k: Seq<char>| #[trigger] r@.reservations.dom().contains(k) <==> k == "h_1"@ by {
                if k == "h_1"@ {
                    assert(builtins@[0]@ == k);
                }
            }
            assert(r@.reservations =~= Map::<Seq<char>, LocationView<R>>::empty().insert(
                "h_1"@,
                LocationView::<R>::Hardcoded("h_1"@),
            ));
        }
        r
    }

    /// A memory manager with every register free and each of `builtins` kept
    /// as hardcoded data under its own name.
    pub fn new(builtins: &[String]) -> (r: Self)
        ensures
            r.wf(),
            r@.stack_position == 0,
            r@.next_locations == Self::default_free(),
            forall|k: Seq<char>| #[trigger] r@.reservations.dom().contains(k) <==> exists|i: int|
                0 <= i < builtins@.len() && (#[trigger] builtins@[i])@ == k,
            forall|k: Seq<char>| #[trigger] r@.reservations.dom().contains(k) ==> r@.reservations[k]
                == LocationView::<R>::Hardcoded(k),
    {
        let mut mm = MemoryManager {
            stack_position: 0,
            next_locations: Self::default_next_locations(),
            reservations: Vec::new(),
        };
        assert(entries_view(mm.reservations@) =~= Seq::empty());
        let mut i: usize = 0;
        while i < builtins.len()
            invariant
                0 <= i <= builtins.len(),
                mm.wf(),
                mm@.stack_position == 0,
                mm@.next_locations == Self::default_free(),
                forall|j: int| 0 <= j < mm.reservations@.len() ==> (#[trigger] entries_view(mm.reservations@)[j]).1 == LocationView::<R>::Hardcoded(entries_view(mm.reservations@)[j].0),
                forall|k: Seq<char>| #[trigger] has_name(entries_view(mm.reservations@), k) == is_among(builtins@, i as int, k),
            decreases builtins.len() - i,
        {
            let ghost e = entries_view(mm.reservations@);
            let found = find_name(&mm.reservations, &builtins[i]);
            if found.is_none() {
                let entry = (builtins[i].clone(), Location::Hardcoded(builtins[i].clone()));
                mm.reservations.push(entry);
                proof {
                    let e2 = entries_view(mm.reservations@);
                    assert(e2 =~= e.push((builtins@[i as int]@, LocationView::Hardcoded(builtins@[i as int]@))));
                    assert forall|p: int, q: int| 0 <= p < q < e2.len() implies (#[trigger] e2[p]).0 != (
                    #[trigger] e2[q]).0 && e2[p].1 != e2[q].1 by {
                        if q == e.len() {
                            assert(e2[p] == e[p]);
                            assert(e[p].0 == mm.reservations@[p].0@);
                        }
                    }
                    assert forall|k: Seq<char>| #[trigger] has_name(e2, k) == is_among(builtins@, i + 1, k) by {
                        if has_name(e2, k) {
                            let j = choose|j: int| 0 <= j < e2.len() && (#[trigger] e2[j]).0 == k;
                            if j < e.len() {
                                assert(e2[j] == e[j]);
                                assert(has_name(e, k));
                            } else {
                                assert(builtins@[i as int]@ == k);
                            }
                        }
                        if is_among(builtins@, i + 1, k) {
                            let j = choose|j: int| 0 <= j < i + 1 && (#[trigger] builtins@[j])@ == k;
                            if j < i {
                                assert(is_among(builtins@, i as int, k));
                                assert(has_name(e, k));
                                let jj = choose|jj: int| 0 <= jj < e.len() && (#[trigger] e[jj]).0 == k;
                                assert(e2[jj] == e[jj]);
                            } else {
                                assert(e2[e.len() as int].0 == k);
                            }
                        }
                    }
                }
            } else {
                proof {
                    let j = found->0 as int;
                    assert(e[j].0 == builtins@[i as int]@);
                    assert forall|k: Seq<char>| #[trigger] has_name(e, k) == is_among(builtins@, i + 1, k) by {
                        if is_among(builtins@, i + 1, k) {
                            let jj = choose|jj: int| 0 <= jj < i + 1 && (#[trigger] builtins@[jj])@ == k;
                            if jj < i {
                                assert(is_among(builtins@, i as int, k));
                            } else {
                                assert(e[j].0 == k);
                            }
                        }
                        if has_name(e, k) {
                            assert(is_among(builtins@, i as int, k));
                        }
                    }
                }
            }
            i = i + 1;
        }
        proof {
            let e = entries_view(mm.reservations@);
            assert forall|k: Seq<char>| #[trigger] mm@.reservations.dom().contains(k) <==> exists|i: int|
                0 <= i < builtins@.len() && (#[trigger] builtins@[i])@ == k by {
                lemma_map_of_lookup(e, k);
                assert(has_name(e, k) == is_among(builtins@, builtins@.len() as int, k));
            }
            assert forall|k: Seq<char>| #[trigger] mm@.reservations.dom().contains(k) implies mm@.reservations[k]
                == LocationView::<R>::Hardcoded(k) by {
                lemma_map_of_lookup(e, k);
                let j = choose|j: int| 0 <= j < e.len() && (#[trigger] e[j]).0 == k;
            }
        }
        mm
    }

    /// The free locations of a new memory manager: every register, in order.
    pub open spec fn default_free() -> Seq<LocationView<R>> {
        insert_all(Seq::empty(), R::all_spec().map_values(|x: R| LocationView::Register(x)))
    }
}


/// The view of a full instruction: the instruction, its operands, its comment.
pub type FullView<R> = (AssemblyInstructionView, Seq<ParameterView<R>>, Seq<char>);

/// The view of the result of a step that yields one instruction.
pub open spec fn one_result_view<R: Registers>(r: Result<FullInstruction<R>, GeneratorErrors>) -> Result<
    FullView<R>,
    GeneratorErrorsView,
> {
    match r {
        Ok(f) => Ok(full_view(f)),
        Err(e) => Err(e@),
    }
}

/// The views of a sequence of full instructions.
pub open spec fn fulls_view<R: Registers>(v: Seq<FullInstruction<R>>) -> Seq<FullView<R>> {
    v.map_values(|f: FullInstruction<R>| full_view(f))
}

/// The view of the result of a step that yields instructions.
pub open spec fn many_result_view<R: Registers>(r: Result<Vec<FullInstruction<R>>, GeneratorErrors>) -> Result<
    Seq<FullView<R>>,
    GeneratorErrorsView,
> {
    match r {
        Ok(v) => Ok(fulls_view(v@)),
        Err(e) => Err(e@),
    }
}

/// Exchanging the locations of `old` and `new`: both are given back, then
/// each is kept at the location of the other.
pub open spec fn swap_spec<R: Registers>(m: MemoryManagerView<R>, old: Seq<char>, new: Seq<char>) -> (
    MemoryManagerView<R>,
    Result<FullView<R>, GeneratorErrorsView>,
) {
    if !m.reservations.dom().contains(old) {
        (m, Err(GeneratorErrorsView::VariableNotDefined(old)))
    } else if !m.reservations.dom().contains(new) {
        (m, Err(GeneratorErrorsView::VariableNotDefined(new)))
    } else {
        let a = m.reservations[old];
        let b = m.reservations[new];
        let m2 = m.after_free(old).after_free(new);
        let (m3, ok3) = m2.after_reserve_location(old, b);
        if !ok3 {
            (m3, Err(GeneratorErrorsView::VariableAlreadyExists(old)))
        } else {
            let (m4, ok4) = m3.after_reserve_location(new, a);
            if !ok4 {
                (m4, Err(GeneratorErrorsView::VariableAlreadyExists(new)))
            } else {
                (
                    m4,
                    Ok(
                        (
                            AssemblyInstructionView::Swap,
                            seq![parameter_of(a), parameter_of(b)],
                            "Swap "@ + old + " and "@ + new,
                        ),
                    ),
                )
            }
        }
    }
}

/// Exchanges the locations of `old_temp` and `new_temp`.
pub fn swap<R: Registers>(mm: &mut MemoryManager<R>, old_temp: &str, new_temp: &str) -> (r: Result<
    FullInstruction<R>,
    GeneratorErrors,
>)
    requires
        old(mm).wf(),
    ensures
        final(mm).wf(),
        (final(mm)@, one_result_view(r)) == swap_spec(old(mm)@, old_temp@, new_temp@),
{
    let old_location = match mm.get_location_or_err(old_temp) {
        Ok(l) => l.clone(),
        Err(e) => {
            return Err(e);
        },
    };
    let new_location = match mm.get_location_or_err(new_temp) {
        Ok(l) => l.clone(),
        Err(e) => {
            return Err(e);
        },
    };
    mm.free(old_temp);
    mm.free(new_temp);
    match mm.reserve_location(old_temp, new_location.clone()) {
        Err(e) => {
            return Err(e);
        },
        Ok(()) => {},
    }
    match mm.reserve_location(new_temp, old_location.clone()) {
        Err(e) => {
            return Err(e);
        },
        Ok(()) => {},
    }
    let mut comment = String::from_str("Swap ");
    comment.append(old_temp);
    comment.append(" and ");
    comment.append(new_temp);
    let parameters = vec![
        AssemblyInstructionParameter::from_location(&old_location),
        AssemblyInstructionParameter::from_location(&new_location),
    ];
    let r = (AssemblyInstruction::Swap, parameters, comment);
    assert(full_view(r).1 =~= seq![parameter_of(old_location@), parameter_of(new_location@)]);
    Ok(r)
}

/// The name of the `i`-th temporary that `free_locations` uses.
pub open spec fn swap_temp_name(i: nat) -> Seq<char> {
    "@swap_temp_"@ + decimal(i)
}

fn swap_temp(i: usize) -> (s: String)
    ensures
        s@ == swap_temp_name(i as nat),
{
    let mut s = String::from_str("@swap_temp_");
    s.append(decimal_text(i).as_str());
    s
}

/// Reserving the first `n` swap temporaries, stopping at the first refusal.
pub open spec fn reserve_temps<R: Registers>(m: MemoryManagerView<R>, n: nat) -> (
    MemoryManagerView<R>,
    Option<GeneratorErrorsView>,
)
    decreases n,
{
    if n == 0 {
        (m, None)
    } else {
        let (m1, e1) = reserve_temps(m, (n - 1) as nat);
        if e1 is Some {
            (m1, e1)
        } else {
            let (m2, l) = m1.after_reserve_nth_free(swap_temp_name((n - 1) as nat), 1);
            if l is None {
                (m2, Some(GeneratorErrorsView::VariableAlreadyExists(swap_temp_name((n - 1) as nat))))
            } else {
                (m2, None)
            }
        }
    }
}

/// Once reserving a temporary is refused, no later one is tried.
pub proof fn lemma_reserve_temps_stops<R: Registers>(m: MemoryManagerView<R>, i: nat, n: nat)
    requires
        i <= n,
        reserve_temps(m, i).1 is Some,
    ensures
        reserve_temps(m, n) == reserve_temps(m, i),
    decreases n - i,
{
    if i < n {
        lemma_reserve_temps_stops(m, i, (n - 1) as nat);
    }
}

/// Moving the value kept at each of the first `n` of `locs`, if any, into the
/// swap temporary of the same index; the swaps that succeed, in order.
pub open spec fn swap_out<R: Registers>(m: MemoryManagerView<R>, locs: Seq<LocationView<R>>, n: nat) -> (
    MemoryManagerView<R>,
    Seq<FullView<R>>,
)
    decreases n,
{
    if n == 0 {
        (m, seq![])
    } else {
        let (m1, acc) = swap_out(m, locs, (n - 1) as nat);
        match name_at(m1.reservations, locs[n - 1]) {
            Some(name) => {
                let (m2, r) = swap_spec(m1, name, swap_temp_name((n - 1) as nat));
                match r {
                    Ok(f) => (m2, acc.push(f)),
                    Err(_) => (m2, acc),
                }
            },
            None => (m1, acc),
        }
    }
}

/// Giving back the first `n` swap temporaries.
pub open spec fn free_temps<R: Registers>(m: MemoryManagerView<R>, n: nat) -> MemoryManagerView<R>
    decreases n,
{
    if n == 0 {
        m
    } else {
        free_temps(m, (n - 1) as nat).after_free(swap_temp_name((n - 1) as nat))
    }
}

/// Emptying `locs`: a temporary is reserved for each, the value kept at each
/// is swapped into its temporary, and the temporaries are given back. A swap
/// that is refused is left out of the instructions.
pub open spec fn free_locations_spec<R: Registers>(m: MemoryManagerView<R>, locs: Seq<LocationView<R>>) -> (
    MemoryManagerView<R>,
    Result<Seq<FullView<R>>, GeneratorErrorsView>,
) {
    let (m1, e) = reserve_temps(m, locs.len());
    match e {
        Some(err) => (m1, Err(err)),
        None => {
            let (m2, instructions) = swap_out(m1, locs, locs.len());
            (free_temps(m2, locs.len()), Ok(instructions))
        },
    }
}

/// Moves whatever is kept at `locations` elsewhere.
pub fn free_locations<R: Registers>(mm: &mut MemoryManager<R>, locations: &Vec<Location<R>>) -> (r: Result<
    Vec<FullInstruction<R>>,
    GeneratorErrors,
>)
    requires
        old(mm).wf(),
        old(mm)@.stack_position + locations.len() <= usize::MAX,
    ensures
        final(mm).wf(),
        (final(mm)@, many_result_view(r)) == free_locations_spec(old(mm)@, locations_view(locations@)),
{
    let ghost m0 = mm@;
    let ghost locs = locations_view(locations@);
    let n = locations.len();
    assert(locs.len() == n);
    let mut i: usize = 0;
    while i < n
        invariant
            0 <= i <= n,
            n == locations.len(),
            locs == locations_view(locations@),
            locs.len() == n,
            m0 == old(mm)@,
            mm.wf(),
            m0.stack_position + n <= usize::MAX,
            mm@.stack_position <= m0.stack_position + i,
            mm@ == reserve_temps(m0, i as nat).0,
            reserve_temps(m0, i as nat).1 is None,
        decreases n - i,
    {
        let t = swap_temp(i);
        let ghost before = mm@;
        match mm.reserve(t.as_str()) {
            Err(e) => {
                proof {
                    assert(before.after_reserve_nth_free(t@, 1).1 is None);
                    assert(reserve_temps(m0, (i + 1) as nat) == (
                        mm@,
                        Some(GeneratorErrorsView::VariableAlreadyExists(swap_temp_name(i as nat))),
                    ));
                    lemma_reserve_temps_stops(m0, (i + 1) as nat, n as nat);
                }
                return Err(e);
            },
            Ok(_) => {},
        }
        i = i + 1;
    }
    let ghost m1 = mm@;
    let mut res: Vec<FullInstruction<R>> = Vec::new();
    i = 0;
    while i < n
        invariant
            0 <= i <= n,
            n == locations.len(),
            locs == locations_view(locations@),
            locs.len() == n,
            m0 == old(mm)@,
            m1 == reserve_temps(m0, n as nat).0,
            reserve_temps(m0, n as nat).1 is None,
            mm.wf(),
            (mm@, fulls_view(res@)) == swap_out(m1, locs, i as nat),
        decreases n - i,
    {
        let name = match mm.get_name(&locations[i]) {
            Some(found) => Some(String::from_str(found)),
            None => None,
        };
        let ghost before = fulls_view(res@);
        if let Some(found) = name {
            let t = swap_temp(i);
            match swap(mm, found.as_str(), t.as_str()) {
                Ok(x) => {
                    res.push(x);
                    assert(fulls_view(res@) =~= before.push(full_view(x)));
                },
                Err(_) => {},
            }
        }
        i = i + 1;
    }
    assert(locs.len() == n);
    let ghost m2 = mm@;
    i = 0;
    while i < n
        invariant
            0 <= i <= n,
            m0 == old(mm)@,
            locs == locations_view(locations@),
            locs.len() == n,
            m1 == reserve_temps(m0, n as nat).0,
            reserve_temps(m0, n as nat).1 is None,
            (m2, fulls_view(res@)) == swap_out(m1, locs, n as nat),
            mm.wf(),
            mm@ == free_temps(m2, i as nat),
        decreases n - i,
    {
        let t = swap_temp(i);
        mm.free(t.as_str());
        i = i + 1;
    }
    Ok(res)
}


/// Keeping `name` at the `n`-th free location adds at most `n` stack slots
/// (one when `n` is 0); giving back and keeping at a given location add none.
pub proof fn lemma_stack_growth<R: Registers>(m: MemoryManagerView<R>, name: Seq<char>, n: nat, l: LocationView<R>)
    ensures
        m.after_reserve_nth_free(name, n).0.stack_position <= m.stack_position + (if n == 0 { 1 } else { n }),
        m.after_reserve_location(name, l).0.stack_position == m.stack_position,
        m.after_free(name).stack_position == m.stack_position,
{
}

/// Swapping adds no stack slot.
pub proof fn lemma_swap_growth<R: Registers>(m: MemoryManagerView<R>, old: Seq<char>, new: Seq<char>)
    ensures
        swap_spec(m, old, new).0.stack_position == m.stack_position,
{
}

/// Every instruction of `s` has the operands that it reads.
pub open spec fn operands_complete<R: Registers>(s: Seq<FullView<R>>) -> bool {
    forall|i: int| 0 <= i < s.len() ==> (#[trigger] s[i]).1.len() >= arity(s[i].0)
}

/// Two runs of instructions, each with its operands, make one.
pub proof fn lemma_operands_complete_concat<R: Registers>(a: Seq<FullView<R>>, b: Seq<FullView<R>>)
    requires
        operands_complete(a),
        operands_complete(b),
    ensures
        operands_complete(a + b),
{
    assert forall|i: int| 0 <= i < (a + b).len() implies (#[trigger] (a + b)[i]).1.len() >= arity((a + b)[i].0) by {
        if i < a.len() {
            assert((a + b)[i] == a[i]);
        } else {
            assert((a + b)[i] == b[i - a.len()]);
        }
    }
}

/// The swaps that empty locations have both their operands.
pub proof fn lemma_free_locations_complete<R: Registers>(m: MemoryManagerView<R>, locs: Seq<LocationView<R>>)
    ensures
        free_locations_spec(m, locs).1 matches Ok(s) ==> operands_complete(s),
{
    let m1 = reserve_temps(m, locs.len()).0;
    lemma_swap_out_complete(m1, locs, locs.len());
}

proof fn lemma_swap_out_complete<R: Registers>(m: MemoryManagerView<R>, locs: Seq<LocationView<R>>, n: nat)
    ensures
        operands_complete(swap_out(m, locs, n).1),
    decreases n,
{
    if n > 0 {
        lemma_swap_out_complete(m, locs, (n - 1) as nat);
        let (m1, acc) = swap_out(m, locs, (n - 1) as nat);
        if let Some(name) = name_at(m1.reservations, locs[n - 1]) {
            let (m2, r) = swap_spec(m1, name, swap_temp_name((n - 1) as nat));
            if let Ok(f) = r {
                assert(operands_complete(seq![f]));
                lemma_operands_complete_concat(acc, seq![f]);
                assert(acc + seq![f] =~= acc.push(f));
            }
        }
    }
}

/// Emptying `n` locations adds at most `n` stack slots.
pub proof fn lemma_free_locations_growth<R: Registers>(m: MemoryManagerView<R>, locs: Seq<LocationView<R>>)
    ensures
        free_locations_spec(m, locs).0.stack_position <= m.stack_position + locs.len(),
{
    lemma_reserve_temps_growth(m, locs.len());
    let m1 = reserve_temps(m, locs.len()).0;
    lemma_swap_out_growth(m1, locs, locs.len());
    let m2 = swap_out(m1, locs, locs.len()).0;
    lemma_free_temps_growth(m2, locs.len());
}

proof fn lemma_reserve_temps_growth<R: Registers>(m: MemoryManagerView<R>, n: nat)
    ensures
        reserve_temps(m, n).0.stack_position <= m.stack_position + n,
    decreases n,
{
    if n > 0 {
        lemma_reserve_temps_growth(m, (n - 1) as nat);
        let m1 = reserve_temps(m, (n - 1) as nat).0;
        lemma_stack_growth(m1, swap_temp_name((n - 1) as nat), 1, LocationView::Stack(0));
    }
}

proof fn lemma_swap_out_growth<R: Registers>(m: MemoryManagerView<R>, locs: Seq<LocationView<R>>, n: nat)
    ensures
        swap_out(m, locs, n).0.stack_position == m.stack_position,
    decreases n,
{
    if n > 0 {
        lemma_swap_out_growth(m, locs, (n - 1) as nat);
    }
}

proof fn lemma_free_temps_growth<R: Registers>(m: MemoryManagerView<R>, n: nat)
    ensures
        free_temps(m, n).stack_position == m.stack_position,
    decreases n,
{
    if n > 0 {
        lemma_free_temps_growth(m, (n - 1) as nat);
    }
}

/// No two names are kept at the same location.
pub open spec fn locations_distinct<R>(m: Map<Seq<char>, LocationView<R>>) -> bool {
    forall|a: Seq<char>, b: Seq<char>|
        #![trigger m[a], m[b]]
        m.dom().contains(a) && m.dom().contains(b) && a != b ==> m[a] != m[b]
}

/// A memory manager never keeps two names at the same location, its free
/// locations are in order and are never hardcoded data, and its count of
/// stack slots fits a `usize`.
pub proof fn law_locations_distinct<R: Registers>(mm: &MemoryManager<R>)
    requires
        mm.wf(),
    ensures
        mm@.stack_position <= usize::MAX,
        locations_distinct(mm@.reservations),
        sorted(mm@.next_locations),
        free_not_hardcoded(mm@.next_locations),
{
    let e = entries_view(mm.reservations@);
    assert forall|a: Seq<char>, b: Seq<char>|
        #![trigger mm@.reservations[a], mm@.reservations[b]]
        mm@.reservations.dom().contains(a) && mm@.reservations.dom().contains(b) && a != b implies mm@.reservations[a]
        != mm@.reservations[b] by {
        lemma_map_of_lookup(e, a);
        lemma_map_of_lookup(e, b);
        let i = choose|i: int| 0 <= i < e.len() && (#[trigger] e[i]).0 == a;
        let j = choose|j: int| 0 <= j < e.len() && (#[trigger] e[j]).0 == b;
        if i < j {
            assert(e[i].1 != e[j].1);
        } else {
            assert(i != j);
            assert(e[j].1 != e[i].1);
        }
    }
}

/// Looking a taken name up and then asking which name is kept at its
/// location gives the name back: on a memory manager, `get_location_or_err`
/// and `get_name` undo each other.
pub proof fn law_lookup_round_trip<R: Registers>(mm: &MemoryManager<R>, name: Seq<char>)
    requires
        mm.wf(),
        mm@.reservations.dom().contains(name),
    ensures
        is_taken(mm@.reservations, mm@.reservations[name]),
        name_at(mm@.reservations, mm@.reservations[name]) == Some(name),
{
    law_locations_distinct(mm);
    let m = mm@.reservations;
    let l = m[name];
    assert(m.dom().contains(name) && m[name] == l);
    let k = choose|k: Seq<char>| m.dom().contains(k) && m[k] == l;
    if k != name {
        assert(m[k] != m[name]);
    }
}

/// Reserving a name that is not taken keeps it at the location handed out,
/// and every other name where it was; reserving a taken name is refused and
/// changes no reservation.
pub proof fn law_reserve_then_lookup<R: Registers>(m: MemoryManagerView<R>, name: Seq<char>, n: nat)
    ensures
        m.after_reserve_nth_free(name, n).1 matches Some(l) ==> m.after_reserve_nth_free(name, n).0.reservations
            == m.reservations.insert(name, l),
        m.reservations.dom().contains(name) ==> {
            &&& m.after_reserve_nth_free(name, n).1 is None
            &&& m.after_reserve_nth_free(name, n).0.reservations == m.reservations
        },
{
}

/// The location handed out first is the first free one, which no free
/// location comes before.
pub proof fn law_reserve_takes_first<R: Registers>(m: MemoryManagerView<R>, name: Seq<char>)
    requires
        sorted(m.next_locations),
        m.next_locations.len() > 0,
        !m.reservations.dom().contains(name),
        !is_taken(m.reservations, m.next_locations[0]),
    ensures
        m.after_reserve_nth_free(name, 1).1 == Some(m.next_locations[0]),
        forall|j: int| 0 <= j < m.next_locations.len() ==> !loc_gt(#[trigger] m.next_locations[j], m.next_locations[0]),
{
    assert(m.after_ensure(1) == m);
}

/// Freeing a name that is not hardcoded data takes it out of the
/// reservations and makes its location free again.
pub proof fn law_free_gives_back<R: Registers>(m: MemoryManagerView<R>, name: Seq<char>)
    requires
        m.reservations.dom().contains(name),
        !(m.reservations[name] is Hardcoded),
    ensures
        !m.after_free(name).reservations.dom().contains(name),
        m.after_free(name).next_locations.contains(m.reservations[name]),
        locations_distinct(m.reservations) ==> !is_taken(m.after_free(name).reservations, m.reservations[name]),
{
    let l = m.reservations[name];
    lemma_insert_index(m.next_locations, l);
    let i = insert_index(m.next_locations, l) as int;
    assert(m.after_free(name).next_locations[i] == l);
    if locations_distinct(m.reservations) && is_taken(m.after_free(name).reservations, l) {
        let k = choose|k: Seq<char>| m.after_free(name).reservations.dom().contains(k) && m.after_free(name).reservations[k] == l;
        assert(m.reservations[k] == m.reservations[name]);
    }
}

/// Reserving a name on a manager whose first free location is a register or
/// a stack slot, free and found once, and then freeing the name, gives back
/// the manager that was started with.
pub proof fn law_reserve_free_round_trip<R: Registers>(m: MemoryManagerView<R>, name: Seq<char>)
    requires
        sorted(m.next_locations),
        m.next_locations.len() > 0,
        !(m.next_locations[0] is Hardcoded),
        !m.next_locations.skip(1).contains(m.next_locations[0]),
        !m.reservations.dom().contains(name),
        !is_taken(m.reservations, m.next_locations[0]),
    ensures
        m.after_reserve_nth_free(name, 1).0.after_free(name) == m,
{
    let s = m.next_locations;
    let x = s[0];
    let rest = s.skip(1);
    lemma_reserve_head(m, name);
    if rest.len() > 0 {
        assert(rest[0] == s[1]);
        assert(!loc_gt(s[1], s[0]));
        assert(s[1] != x) by {
            assert(rest.contains(rest[0]));
        }
        if !(s[1] is Hardcoded) {
            lemma_loc_gt_total(x, s[1]);
        }
        assert(loc_gt(x, rest[0]));
    }
    lemma_insert_index_unique(rest, x, 0);
    assert(rest.insert(0, x) =~= s);
    assert(m.reservations.insert(name, x).remove(name) =~= m.reservations);
}

/// Reserving a name at a first free location that is found once takes that
/// location off the free ones and keeps the name there.
proof fn lemma_reserve_head<R: Registers>(m: MemoryManagerView<R>, name: Seq<char>)
    requires
        m.next_locations.len() > 0,
        !m.next_locations.skip(1).contains(m.next_locations[0]),
        !m.reservations.dom().contains(name),
        !is_taken(m.reservations, m.next_locations[0]),
    ensures
        m.after_reserve_nth_free(name, 1).0 == (MemoryManagerView {
            stack_position: m.stack_position,
            next_locations: m.next_locations.skip(1),
            reservations: m.reservations.insert(name, m.next_locations[0]),
        }),
{
    let s = m.next_locations;
    assert(m.after_ensure(1) == m);
    lemma_filter_keeps_all(s.skip(1), s[0]);
    assert(s.take(0) + without(s.skip(1), s[0]) =~= s.skip(1));
}

proof fn lemma_filter_keeps_all<R: Registers>(s: Seq<LocationView<R>>, x: LocationView<R>)
    requires
        !s.contains(x),
    ensures
        s.filter(differs_from(x)) == s,
    decreases s.len(),
{
    reveal(Seq::filter);
    if s.len() > 0 {
        assert(!s.drop_last().contains(x)) by {
            if s.drop_last().contains(x) {
                let j = choose|j: int| 0 <= j < s.drop_last().len() && s.drop_last()[j] == x;
                assert(s[j] == x);
            }
        }
        lemma_filter_keeps_all(s.drop_last(), x);
        assert(s.last() != x) by {
            assert(s[s.len() - 1] == s.last());
        }
        assert(s.drop_last().push(s.last()) =~= s);
    }
}

/// Swapping two names that are not hardcoded data exchanges their
/// locations and leaves every other name where it was.
pub proof fn law_swap_exchanges<R: Registers>(m: MemoryManagerView<R>, a: Seq<char>, b: Seq<char>)
    requires
        a != b,
        m.reservations.dom().contains(a),
        m.reservations.dom().contains(b),
        !(m.reservations[a] is Hardcoded),
        !(m.reservations[b] is Hardcoded),
        locations_distinct(m.reservations),
    ensures
        swap_spec(m, a, b).1 is Ok,
        swap_spec(m, a, b).0.reservations == m.reservations.insert(a, m.reservations[b]).insert(b, m.reservations[a]),
        swap_spec(m, a, b).0.stack_position == m.stack_position,
{
    let la = m.reservations[a];
    let lb = m.reservations[b];
    assert(la != lb);
    let m1 = m.after_free(a);
    let m2 = m1.after_free(b);
    assert(m2.reservations =~= m.reservations.remove(a).remove(b));
    assert(!is_taken(m2.reservations, lb)) by {
        if is_taken(m2.reservations, lb) {
            let k = choose|k: Seq<char>| m2.reservations.dom().contains(k) && m2.reservations[k] == lb;
            assert(m.reservations[k] == m.reservations[b]);
        }
    }
    let m3 = m2.after_reserve_location(a, lb).0;
    assert(!is_taken(m3.reservations, la)) by {
        if is_taken(m3.reservations, la) {
            let k = choose|k: Seq<char>| m3.reservations.dom().contains(k) && m3.reservations[k] == la;
            if k != a {
                assert(m.reservations[k] == m.reservations[a]);
            }
        }
    }
    assert(swap_spec(m, a, b).0.reservations =~= m.reservations.insert(a, lb).insert(b, la));
}

/// Every name that `a` keeps at the hardcoded data of its own name, `b` still
/// keeps there.
pub open spec fn keeps_hardcoded<R>(a: MemoryManagerView<R>, b: MemoryManagerView<R>) -> bool {
    forall|k: Seq<char>|
        #[trigger] a.reservations.dom().contains(k) && a.reservations[k] == LocationView::<R>::Hardcoded(k)
            ==> b.reservations.dom().contains(k) && b.reservations[k] == LocationView::<R>::Hardcoded(k)
}

/// Keeping the builtins is transitive.
pub proof fn lemma_keeps_hardcoded_trans<R>(a: MemoryManagerView<R>, b: MemoryManagerView<R>, c: MemoryManagerView<R>)
    requires
        keeps_hardcoded(a, b),
        keeps_hardcoded(b, c),
    ensures
        keeps_hardcoded(a, c),
{
    assert forall|k: Seq<char>|
        #[trigger] a.reservations.dom().contains(k) && a.reservations[k] == LocationView::<R>::Hardcoded(k)
        implies c.reservations.dom().contains(k) && c.reservations[k] == LocationView::<R>::Hardcoded(k) by {
        assert(b.reservations.dom().contains(k));
    }
}

/// Each single step of the memory manager keeps the builtins.
pub proof fn lemma_steps_keep_hardcoded<R: Registers>(m: MemoryManagerView<R>, name: Seq<char>, loc: LocationView<R>, n: nat)
    ensures
        keeps_hardcoded(m, m.after_reserve_location(name, loc).0),
        keeps_hardcoded(m, m.after_free(name)),
        keeps_hardcoded(m, m.after_ensure(n)),
        keeps_hardcoded(m, m.after_reserve_nth_free(name, n).0),
{
    assert forall|k: Seq<char>|
        #[trigger] m.reservations.dom().contains(k) && m.reservations[k] == LocationView::<R>::Hardcoded(k)
        implies m.after_free(name).reservations.dom().contains(k)
            && m.after_free(name).reservations[k] == LocationView::<R>::Hardcoded(k) by {
        if k == name {
            assert(m.after_free(name) == m);
        }
    }
}

proof fn lemma_swap_keeps_hardcoded<R: Registers>(m: MemoryManagerView<R>, old: Seq<char>, new: Seq<char>)
    ensures
        keeps_hardcoded(m, swap_spec(m, old, new).0),
{
    if m.reservations.dom().contains(old) && m.reservations.dom().contains(new) {
        let a = m.reservations[old];
        let b = m.reservations[new];
        let m1 = m.after_free(old);
        let m2 = m1.after_free(new);
        let m3 = m2.after_reserve_location(old, b).0;
        let m4 = m3.after_reserve_location(new, a).0;
        lemma_steps_keep_hardcoded(m, old, b, 0);
        lemma_steps_keep_hardcoded(m1, new, b, 0);
        lemma_steps_keep_hardcoded(m2, old, b, 0);
        lemma_steps_keep_hardcoded(m3, new, a, 0);
        lemma_keeps_hardcoded_trans(m, m1, m2);
        lemma_keeps_hardcoded_trans(m, m2, m3);
        lemma_keeps_hardcoded_trans(m, m3, m4);
    }
}

proof fn lemma_reserve_temps_keeps_hardcoded<R: Registers>(m: MemoryManagerView<R>, n: nat)
    ensures
        keeps_hardcoded(m, reserve_temps(m, n).0),
    decreases n,
{
    if n > 0 {
        lemma_reserve_temps_keeps_hardcoded(m, (n - 1) as nat);
        let m1 = reserve_temps(m, (n - 1) as nat).0;
        lemma_steps_keep_hardcoded(m1, swap_temp_name((n - 1) as nat), LocationView::Stack(0), 1);
        lemma_keeps_hardcoded_trans(m, m1, m1.after_reserve_nth_free(swap_temp_name((n - 1) as nat), 1).0);
    }
}

proof fn lemma_swap_out_keeps_hardcoded<R: Registers>(m: MemoryManagerView<R>, locs: Seq<LocationView<R>>, n: nat)
    ensures
        keeps_hardcoded(m, swap_out(m, locs, n).0),
    decreases n,
{
    if n > 0 {
        lemma_swap_out_keeps_hardcoded(m, locs, (n - 1) as nat);
        let m1 = swap_out(m, locs, (n - 1) as nat).0;
        if let Some(name) = name_at(m1.reservations, locs[n - 1]) {
            lemma_swap_keeps_hardcoded(m1, name, swap_temp_name((n - 1) as nat));
            lemma_keeps_hardcoded_trans(m, m1, swap_spec(m1, name, swap_temp_name((n - 1) as nat)).0);
        }
    }
}

proof fn lemma_free_temps_keeps_hardcoded<R: Registers>(m: MemoryManagerView<R>, n: nat)
    ensures
        keeps_hardcoded(m, free_temps(m, n)),
    decreases n,
{
    if n > 0 {
        lemma_free_temps_keeps_hardcoded(m, (n - 1) as nat);
        let m1 = free_temps(m, (n - 1) as nat);
        lemma_steps_keep_hardcoded(m1, swap_temp_name((n - 1) as nat), LocationView::Stack(0), 0);
        lemma_keeps_hardcoded_trans(m, m1, m1.after_free(swap_temp_name((n - 1) as nat)));
    }
}

/// Emptying locations keeps every name that is kept at its own hardcoded
/// data there.
pub proof fn lemma_free_locations_keeps_hardcoded<R: Registers>(m: MemoryManagerView<R>, locs: Seq<LocationView<R>>)
    ensures
        keeps_hardcoded(m, free_locations_spec(m, locs).0),
{
    lemma_reserve_temps_keeps_hardcoded(m, locs.len());
    let m1 = reserve_temps(m, locs.len()).0;
    if reserve_temps(m, locs.len()).1 is None {
        lemma_swap_out_keeps_hardcoded(m1, locs, locs.len());
        let m2 = swap_out(m1, locs, locs.len()).0;
        lemma_free_temps_keeps_hardcoded(m2, locs.len());
        lemma_keeps_hardcoded_trans(m, m1, m2);
        lemma_keeps_hardcoded_trans(m, m2, free_temps(m2, locs.len()));
    }
}

/// A name kept at the hardcoded data of its own name (a builtin) stays
/// there through every operation of the memory manager, whether it
/// succeeds or is refused: reserving, reserving at a location or at the
/// `n`-th free location, giving back, adding free locations, swapping and
/// emptying locations.
pub proof fn law_builtins_stay<R: Registers>(
    m: MemoryManagerView<R>,
    name: Seq<char>,
    other: Seq<char>,
    loc: LocationView<R>,
    n: nat,
    locs: Seq<LocationView<R>>,
)
    ensures
        keeps_hardcoded(m, m.after_reserve_location(name, loc).0),
        keeps_hardcoded(m, m.after_reserve_nth_free(name, n).0),
        keeps_hardcoded(m, m.after_free(name)),
        keeps_hardcoded(m, m.after_ensure(n)),
        keeps_hardcoded(m, swap_spec(m, name, other).0),
        keeps_hardcoded(m, free_locations_spec(m, locs).0),
{
    lemma_steps_keep_hardcoded(m, name, loc, n);
    lemma_swap_keeps_hardcoded(m, name, other);
    lemma_free_locations_keeps_hardcoded(m, locs);
}

} // verus!
