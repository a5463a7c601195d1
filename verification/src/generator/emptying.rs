use vstd::prelude::*;

use crate::generator::locations::{
    add_stack_slots, differs_from, insert_index, insert_sorted, lemma_insert_index, without,
    LocationView,
};
use crate::generator::memory_manager::{
    free_locations_spec, free_temps, is_taken, law_swap_exchanges, locations_distinct, name_at,
    reserve_temps, swap_out, swap_spec, swap_temp_name, MemoryManagerView,
};
use crate::generator::registers::Registers;

verus! {

/// No free location is hardcoded data.
pub open spec fn free_not_hardcoded<R>(s: Seq<LocationView<R>>) -> bool {
    forall|j: int| 0 <= j < s.len() ==> !(#[trigger] s[j] is Hardcoded)
}

/// The first `n` swap temporaries are kept, none at hardcoded data, and no
/// two of them are the same name.
pub open spec fn temps_kept<R>(res: Map<Seq<char>, LocationView<R>>, n: nat) -> bool {
    &&& forall|t: int|
        0 <= t < n ==> res.dom().contains(#[trigger] swap_temp_name(t as nat)) && !(res[swap_temp_name(
            t as nat,
        )] is Hardcoded)
    &&& forall|a: int, b: int|
        0 <= a < b < n ==> #[trigger] swap_temp_name(a as nat) != #[trigger] swap_temp_name(b as nat)
}

/// `x` is one of the first `n` swap temporaries.
pub open spec fn is_temp(x: Seq<char>, n: nat) -> bool {
    exists|t: int| 0 <= t < n && x == #[trigger] swap_temp_name(t as nat)
}

/// Each of the first `i` of `locs` holds nothing or a swap temporary.
pub open spec fn emptied<R>(res: Map<Seq<char>, LocationView<R>>, locs: Seq<LocationView<R>>, i: int, n: nat) -> bool {
    forall|k: int, x: Seq<char>|
        #![trigger locs[k], res[x]]
        0 <= k < i && res.dom().contains(x) && res[x] == locs[k] ==> is_temp(x, n)
}

/// No swap temporary from the `i`-th on is at one of the first `i` of `locs`.
pub open spec fn temps_clear<R>(res: Map<Seq<char>, LocationView<R>>, locs: Seq<LocationView<R>>, i: int, n: nat) -> bool {
    forall|t: int, k: int|
        #![trigger swap_temp_name(t as nat), locs[k]]
        i <= t < n && 0 <= k < i ==> res[swap_temp_name(t as nat)] != locs[k]
}

pub(crate) proof fn lemma_insert_not_hardcoded<R: Registers>(s: Seq<LocationView<R>>, x: LocationView<R>)
    requires
        free_not_hardcoded(s),
        !(x is Hardcoded),
    ensures
        free_not_hardcoded(insert_sorted(s, x)),
{
    lemma_insert_index(s, x);
    let i = insert_index(s, x) as int;
    let t = insert_sorted(s, x);
    assert forall|j: int| 0 <= j < t.len() implies !(#[trigger] t[j] is Hardcoded) by {
        if j < i {
            assert(t[j] == s[j]);
        } else if j > i {
            assert(t[j] == s[j - 1]);
        }
    }
}

pub(crate) proof fn lemma_stack_slots_not_hardcoded<R: Registers>(s: Seq<LocationView<R>>, from: int, count: nat)
    requires
        free_not_hardcoded(s),
    ensures
        free_not_hardcoded(add_stack_slots(s, from, count)),
    decreases count,
{
    if count > 0 {
        lemma_stack_slots_not_hardcoded(s, from, (count - 1) as nat);
        lemma_insert_not_hardcoded(
            add_stack_slots(s, from, (count - 1) as nat),
            LocationView::Stack((from + count - 1) as usize),
        );
    }
}

proof fn lemma_stack_slots_len<R: Registers>(s: Seq<LocationView<R>>, from: int, count: nat)
    ensures
        add_stack_slots(s, from, count).len() == s.len() + count,
    decreases count,
{
    if count > 0 {
        lemma_stack_slots_len(s, from, (count - 1) as nat);
        lemma_insert_index(add_stack_slots(s, from, (count - 1) as nat), LocationView::Stack((from + count - 1) as usize));
    }
}

pub(crate) proof fn lemma_without_not_hardcoded<R: Registers>(s: Seq<LocationView<R>>, x: LocationView<R>)
    requires
        free_not_hardcoded(s),
    ensures
        free_not_hardcoded(without(s, x)),
{
    let w = without(s, x);
    assert forall|j: int| 0 <= j < w.len() implies !(#[trigger] w[j] is Hardcoded) by {
        assert(w.contains(w[j]));
        s.lemma_filter_contains_rev(differs_from(x), w[j]);
    }
}

/// Reserving the swap temporaries keeps the free locations off hardcoded
/// data and every location held once; when it succeeds, every temporary is
/// kept, none at hardcoded data, and they are distinct names.
proof fn lemma_reserve_temps_keeps<R: Registers>(m: MemoryManagerView<R>, n: nat)
    requires
        free_not_hardcoded(m.next_locations),
        locations_distinct(m.reservations),
    ensures
        free_not_hardcoded(reserve_temps(m, n).0.next_locations),
        locations_distinct(reserve_temps(m, n).0.reservations),
        reserve_temps(m, n).1 is None ==> temps_kept(reserve_temps(m, n).0.reservations, n),
    decreases n,
{
    if n > 0 {
        lemma_reserve_temps_keeps(m, (n - 1) as nat);
        let (m1, e1) = reserve_temps(m, (n - 1) as nat);
        if e1 is None {
            let name = swap_temp_name((n - 1) as nat);
            let e = m1.after_ensure(1);
            lemma_stack_slots_not_hardcoded(
                m1.next_locations,
                m1.stack_position as int,
                if m1.next_locations.len() < 1 { (1 - m1.next_locations.len()) as nat } else { 0 },
            );
            let free = e.next_locations;
            lemma_stack_slots_len(
                m1.next_locations,
                m1.stack_position as int,
                if m1.next_locations.len() < 1 { (1 - m1.next_locations.len()) as nat } else { 0 },
            );
            let loc = free[0];
            let (m2, l) = m1.after_reserve_nth_free(name, 1);
            lemma_without_not_hardcoded(free.skip(1), loc);
            if l is Some {
                assert(m2.next_locations =~= without(free.skip(1), loc));
                assert forall|a: Seq<char>, b: Seq<char>|
                    #![trigger m2.reservations[a], m2.reservations[b]]
                    m2.reservations.dom().contains(a) && m2.reservations.dom().contains(b) && a != b implies m2.reservations[a]
                    != m2.reservations[b] by {
                    if a == name {
                        assert(m2.reservations[b] == m1.reservations[b]);
                    } else if b == name {
                        assert(m2.reservations[a] == m1.reservations[a]);
                    }
                }
                assert forall|t: int| 0 <= t < n implies m2.reservations.dom().contains(
                    #[trigger] swap_temp_name(t as nat),
                ) && !(m2.reservations[swap_temp_name(t as nat)] is Hardcoded) by {
                    if t < n - 1 {
                        assert(m1.reservations.dom().contains(swap_temp_name(t as nat)));
                    }
                }
                assert forall|a: int, b: int| 0 <= a < b < n implies #[trigger] swap_temp_name(a as nat)
                    != #[trigger] swap_temp_name(b as nat) by {
                    if b == n - 1 {
                        assert(m1.reservations.dom().contains(swap_temp_name(a as nat)));
                    }
                }
            } else {
                assert(m2.next_locations =~= free.skip(1));
                assert forall|j: int| 0 <= j < free.skip(1).len() implies !(
                #[trigger] free.skip(1)[j] is Hardcoded) by {
                    assert(free.skip(1)[j] == free[j + 1]);
                }
            }
        }
    }
}

/// Giving back the swap temporaries removes each that is not at hardcoded
/// data and changes no other reservation.
proof fn lemma_free_temps_removes<R: Registers>(m: MemoryManagerView<R>, n: nat)
    ensures
        forall|x: Seq<char>|
            #[trigger] free_temps(m, n).reservations.dom().contains(x) ==> {
                &&& m.reservations.dom().contains(x)
                &&& free_temps(m, n).reservations[x] == m.reservations[x]
                &&& is_temp(x, n) ==> m.reservations[x] is Hardcoded
            },
    decreases n,
{
    if n > 0 {
        lemma_free_temps_removes(m, (n - 1) as nat);
        let prev = free_temps(m, (n - 1) as nat);
        let name = swap_temp_name((n - 1) as nat);
        assert forall|x: Seq<char>| #[trigger] free_temps(m, n).reservations.dom().contains(x) implies {
            &&& m.reservations.dom().contains(x)
            &&& free_temps(m, n).reservations[x] == m.reservations[x]
            &&& is_temp(x, n) ==> m.reservations[x] is Hardcoded
        } by {
            assert(prev.reservations.dom().contains(x));
            if is_temp(x, n) {
                let t = choose|t: int| 0 <= t < n && x == #[trigger] swap_temp_name(t as nat);
                if t < n - 1 {
                    assert(is_temp(x, (n - 1) as nat));
                }
            }
        }
    }
}

/// One step of moving values out of the locations keeps the invariants of
/// `lemma_swap_out_empties`.
proof fn lemma_swap_out_step<R: Registers>(m1: MemoryManagerView<R>, locs: Seq<LocationView<R>>, j: int)
    requires
        0 <= j < locs.len(),
        forall|k: int| 0 <= k < locs.len() ==> !(#[trigger] locs[k] is Hardcoded),
        locations_distinct(m1.reservations),
        temps_kept(m1.reservations, locs.len()),
        emptied(m1.reservations, locs, j, locs.len()),
        temps_clear(m1.reservations, locs, j, locs.len()),
    ensures
        ({
            let step = match name_at(m1.reservations, locs[j]) {
                Some(name) => {
                    let (m2, res) = swap_spec(m1, name, swap_temp_name(j as nat));
                    m2
                },
                None => m1,
            };
            &&& locations_distinct(step.reservations)
            &&& temps_kept(step.reservations, locs.len())
            &&& emptied(step.reservations, locs, j + 1, locs.len())
            &&& temps_clear(step.reservations, locs, j + 1, locs.len())
        }),
{
    let n = locs.len();
    let res1 = m1.reservations;
    let a = locs[j];
    let tj = swap_temp_name(j as nat);
    assert(res1.dom().contains(tj));
    match name_at(res1, a) {
        None => {
            assert forall|k: int, x: Seq<char>|
                #![trigger locs[k], res1[x]]
                0 <= k < j + 1 && res1.dom().contains(x) && res1[x] == locs[k] implies is_temp(x, n) by {
                if k == j {
                    assert(is_taken(res1, a));
                }
            }
            assert forall|t: int, k: int|
                #![trigger swap_temp_name(t as nat), locs[k]]
                j + 1 <= t < n && 0 <= k < j + 1 implies res1[swap_temp_name(t as nat)] != locs[k] by {
                if k == j {
                    assert(res1.dom().contains(swap_temp_name(t as nat)));
                    if res1[swap_temp_name(t as nat)] == locs[k] {
                        assert(is_taken(res1, a));
                    }
                }
            }
        },
        Some(x) => {
            assert(is_taken(res1, a));
            assert(res1.dom().contains(x) && res1[x] == a);
            if x == tj {
                let m2 = m1.after_free(tj).after_free(tj);
                assert(m2.reservations =~= res1.remove(tj));
                assert(!is_taken(m2.reservations, a)) by {
                    if is_taken(m2.reservations, a) {
                        let y = choose|y: Seq<char>| m2.reservations.dom().contains(y) && m2.reservations[y] == a;
                        assert(res1[y] == res1[tj]);
                    }
                }
                let m3 = m2.after_reserve_location(tj, a).0;
                assert(m3.reservations =~= res1);
                let step = swap_spec(m1, x, tj).0;
                assert(step.reservations == res1);
                assert forall|k: int, y: Seq<char>|
                    #![trigger locs[k], res1[y]]
                    0 <= k < j + 1 && res1.dom().contains(y) && res1[y] == locs[k] implies is_temp(y, n) by {
                    if k == j {
                        if y != tj {
                            assert(res1[y] == res1[tj]);
                        }
                        assert(tj == swap_temp_name(j as nat));
                    }
                }
                assert forall|t: int, k: int|
                    #![trigger swap_temp_name(t as nat), locs[k]]
                    j + 1 <= t < n && 0 <= k < j + 1 implies res1[swap_temp_name(t as nat)] != locs[k] by {
                    if k == j {
                        assert(swap_temp_name(j as nat) != swap_temp_name(t as nat));
                        assert(res1.dom().contains(swap_temp_name(t as nat)));
                    }
                }
            } else {
                let b = res1[tj];
                law_swap_exchanges(m1, x, tj);
                let res2 = swap_spec(m1, x, tj).0.reservations;
                assert(res2 == res1.insert(x, b).insert(tj, a));
                assert(a != b);
                assert forall|p: Seq<char>, q: Seq<char>|
                    #![trigger res2[p], res2[q]]
                    res2.dom().contains(p) && res2.dom().contains(q) && p != q implies res2[p] != res2[q] by {
                    if p != x && p != tj && q != x && q != tj {
                        assert(res1[p] != res1[q]);
                    } else if p == x && q != tj {
                        assert(res1[q] != res1[tj]);
                    } else if q == x && p != tj {
                        assert(res1[p] != res1[tj]);
                    } else if p == tj && q != x {
                        assert(res1[q] != res1[x]);
                    } else if q == tj && p != x {
                        assert(res1[p] != res1[x]);
                    }
                }
                assert forall|t: int| 0 <= t < n implies res2.dom().contains(#[trigger] swap_temp_name(t as nat))
                    && !(res2[swap_temp_name(t as nat)] is Hardcoded) by {
                    assert(res1.dom().contains(swap_temp_name(t as nat)));
                }
                assert forall|k: int, y: Seq<char>|
                    #![trigger locs[k], res2[y]]
                    0 <= k < j + 1 && res2.dom().contains(y) && res2[y] == locs[k] implies is_temp(y, n) by {
                    if y == tj {
                        assert(tj == swap_temp_name(j as nat));
                    } else if y == x {
                        if k < j {
                            assert(res1[swap_temp_name(j as nat)] != locs[k]);
                        }
                    } else {
                        assert(res2[y] == res1[y]);
                        if k == j {
                            assert(res1[y] == res1[x]);
                        }
                    }
                }
                assert forall|t: int, k: int|
                    #![trigger swap_temp_name(t as nat), locs[k]]
                    j + 1 <= t < n && 0 <= k < j + 1 implies res2[swap_temp_name(t as nat)] != locs[k] by {
                    let tt = swap_temp_name(t as nat);
                    assert(tt != tj);
                    assert(res1.dom().contains(tt));
                    if tt == x {
                        if k < j {
                            assert(res1[swap_temp_name(j as nat)] != locs[k]);
                        }
                    } else {
                        assert(res2[tt] == res1[tt]);
                        if k == j {
                            assert(res1[tt] != res1[x]);
                        }
                    }
                }
            }
        },
    }
}

proof fn lemma_swap_out_empties<R: Registers>(m: MemoryManagerView<R>, locs: Seq<LocationView<R>>, i: int)
    requires
        0 <= i <= locs.len(),
        forall|k: int| 0 <= k < locs.len() ==> !(#[trigger] locs[k] is Hardcoded),
        locations_distinct(m.reservations),
        temps_kept(m.reservations, locs.len()),
    ensures
        locations_distinct(swap_out(m, locs, i as nat).0.reservations),
        temps_kept(swap_out(m, locs, i as nat).0.reservations, locs.len()),
        emptied(swap_out(m, locs, i as nat).0.reservations, locs, i, locs.len()),
        temps_clear(swap_out(m, locs, i as nat).0.reservations, locs, i, locs.len()),
    decreases i,
{
    if i > 0 {
        lemma_swap_out_empties(m, locs, i - 1);
        lemma_swap_out_step(swap_out(m, locs, (i - 1) as nat).0, locs, i - 1);
    }
}

/// Emptying locations that are not hardcoded data leaves none of them
/// holding a name, when it succeeds: whatever was kept there has been moved
/// elsewhere.
pub proof fn law_free_locations_empties<R: Registers>(m: MemoryManagerView<R>, locs: Seq<LocationView<R>>)
    requires
        locations_distinct(m.reservations),
        free_not_hardcoded(m.next_locations),
        forall|k: int| 0 <= k < locs.len() ==> !(#[trigger] locs[k] is Hardcoded),
    ensures
        free_locations_spec(m, locs).1 is Ok ==> forall|k: int|
            0 <= k < locs.len() ==> !is_taken(free_locations_spec(m, locs).0.reservations, #[trigger] locs[k]),
{
    let n = locs.len();
    lemma_reserve_temps_keeps(m, n);
    let (m1, e) = reserve_temps(m, n);
    if e is None {
        lemma_swap_out_empties(m1, locs, n as int);
        let m2 = swap_out(m1, locs, n).0;
        lemma_free_temps_removes(m2, n);
        let fin = free_temps(m2, n).reservations;
        assert(fin == free_locations_spec(m, locs).0.reservations);
        assert forall|k: int| 0 <= k < n implies !is_taken(fin, #[trigger] locs[k]) by {
            if is_taken(fin, locs[k]) {
                let x = choose|x: Seq<char>| fin.dom().contains(x) && fin[x] == locs[k];
                assert(m2.reservations[x] == locs[k]);
                assert(is_temp(x, n));
            }
        }
    }
}

} // verus!
