use vstd::prelude::*;

use crate::generator::registers::Registers;

verus! {

/// Where a value is kept: a register, a stack slot, or a named piece of data.
#[derive(Debug, PartialEq)]
pub enum Location<R: Registers> {
    Register(R),
    Stack(usize),
    Hardcoded(String),
}

/// `Location` with the name of hardcoded data taken as a sequence of characters.
pub enum LocationView<R> {
    Register(R),
    Stack(usize),
    Hardcoded(Seq<char>),
}

impl<R: Registers> View for Location<R> {
    type V = LocationView<R>;

    open spec fn view(&self) -> LocationView<R> {
        match self {
            Location::Register(r) => LocationView::Register(*r),
            Location::Stack(n) => LocationView::Stack(*n),
            Location::Hardcoded(s) => LocationView::Hardcoded(s@),
        }
    }
}

impl<R: Registers> Clone for Location<R> {
    fn clone(&self) -> (r: Self)
        ensures
            r@ == self@,
    {
        match self {
            Location::Register(r) => Location::Register(*r),
            Location::Stack(n) => Location::Stack(*n),
            Location::Hardcoded(s) => Location::Hardcoded(s.clone()),
        }
    }
}

/// The order in which free locations are handed out: registers first, by
/// rank; then stack slots, the lowest slot first; hardcoded data last.
pub open spec fn loc_gt<R: Registers>(a: LocationView<R>, b: LocationView<R>) -> bool {
    match (a, b) {
        (LocationView::Register(x), LocationView::Register(y)) => x.rank() > y.rank(),
        (LocationView::Register(_), _) => true,
        (LocationView::Stack(x), LocationView::Stack(y)) => x < y,
        (LocationView::Stack(_), LocationView::Register(_)) => false,
        (LocationView::Stack(_), LocationView::Hardcoded(_)) => true,
        (LocationView::Hardcoded(_), _) => false,
    }
}

/// The order of locations is a strict order.
pub proof fn lemma_loc_gt_strict_order<R: Registers>(
    a: LocationView<R>,
    b: LocationView<R>,
    c: LocationView<R>,
)
    ensures
        !loc_gt(a, a),
        loc_gt(a, b) ==> !loc_gt(b, a),
        loc_gt(a, b) && loc_gt(b, c) ==> loc_gt(a, c),
{
}

/// Any two registers or stack slots are ordered one way or the other, unless
/// they are the same.
pub proof fn lemma_loc_gt_total<R: Registers>(a: LocationView<R>, b: LocationView<R>)
    requires
        !(a is Hardcoded),
        !(b is Hardcoded),
    ensures
        loc_gt(a, b) || loc_gt(b, a) || a == b,
{
    if let (LocationView::Register(x), LocationView::Register(y)) = (a, b) {
        if x.rank() == y.rank() {
            R::lemma_rank_injective(x, y);
        }
    }
}

/// `s` is ordered with the location handed out first at its head.
pub open spec fn sorted<R: Registers>(s: Seq<LocationView<R>>) -> bool {
    forall|i: int, j: int| 0 <= i < j < s.len() ==> !loc_gt(#[trigger] s[j], #[trigger] s[i])
}

/// Where `x` goes in the ordered `s`: after every location it does not come
/// before.
pub open spec fn insert_index<R: Registers>(s: Seq<LocationView<R>>, x: LocationView<R>) -> nat
    decreases s.len(),
{
    if s.len() > 0 && !loc_gt(x, s[0]) {
        1 + insert_index(s.drop_first(), x)
    } else {
        0
    }
}

/// `s` with `x` added in its place in the order.
pub open spec fn insert_sorted<R: Registers>(
    s: Seq<LocationView<R>>,
    x: LocationView<R>,
) -> Seq<LocationView<R>> {
    s.insert(insert_index(s, x) as int, x)
}

/// Whether a location differs from `x`.
pub open spec fn differs_from<R: Registers>(x: LocationView<R>) -> spec_fn(LocationView<R>) -> bool {
    |y: LocationView<R>| y != x
}

/// `s` without any copy of `x`.
pub open spec fn without<R: Registers>(
    s: Seq<LocationView<R>>,
    x: LocationView<R>,
) -> Seq<LocationView<R>> {
    s.filter(differs_from(x))
}

/// `s` with the stack slots `from`, `from + 1`, ... (`count` of them) added in
/// their places.
pub open spec fn add_stack_slots<R: Registers>(
    s: Seq<LocationView<R>>,
    from: int,
    count: nat,
) -> Seq<LocationView<R>>
    decreases count,
{
    if count == 0 {
        s
    } else {
        insert_sorted(add_stack_slots(s, from, (count - 1) as nat), LocationView::Stack((from + count - 1) as usize))
    }
}

/// `s` with each of `xs` added in its place, in turn.
pub open spec fn insert_all<R: Registers>(
    s: Seq<LocationView<R>>,
    xs: Seq<LocationView<R>>,
) -> Seq<LocationView<R>>
    decreases xs.len(),
{
    if xs.len() == 0 {
        s
    } else {
        insert_sorted(insert_all(s, xs.drop_last()), xs.last())
    }
}

/// Where `x` is inserted: no earlier location comes after it, and the one
/// at its place comes after it.
pub proof fn lemma_insert_index<R: Registers>(s: Seq<LocationView<R>>, x: LocationView<R>)
    ensures
        insert_index(s, x) <= s.len(),
        forall|j: int| 0 <= j < insert_index(s, x) ==> !loc_gt(x, #[trigger] s[j]),
        insert_index(s, x) < s.len() ==> loc_gt(x, s[insert_index(s, x) as int]),
    decreases s.len(),
{
    if s.len() > 0 && !loc_gt(x, s[0]) {
        lemma_insert_index(s.drop_first(), x);
        assert forall|j: int| 0 <= j < insert_index(s, x) implies !loc_gt(x, #[trigger] s[j]) by {
            if j > 0 {
                assert(s[j] == s.drop_first()[j - 1]);
            }
        }
    }
}

/// An index with every earlier location not after `x` and the location at it
/// before `x` is where `x` is inserted.
pub proof fn lemma_insert_index_unique<R: Registers>(
    s: Seq<LocationView<R>>,
    x: LocationView<R>,
    i: int,
)
    requires
        0 <= i <= s.len(),
        forall|j: int| 0 <= j < i ==> !loc_gt(x, #[trigger] s[j]),
        i < s.len() ==> loc_gt(x, s[i]),
    ensures
        insert_index(s, x) == i,
    decreases s.len(),
{
    if i > 0 {
        assert(!loc_gt(x, s[0]));
        assert forall|j: int| 0 <= j < i - 1 implies !loc_gt(x, #[trigger] s.drop_first()[j]) by {
            assert(s.drop_first()[j] == s[j + 1]);
        }
        lemma_insert_index_unique(s.drop_first(), x, i - 1);
    }
}

/// Inserting in order keeps the order and adds exactly `x`.
pub proof fn lemma_insert_sorted<R: Registers>(s: Seq<LocationView<R>>, x: LocationView<R>)
    requires
        sorted(s),
    ensures
        sorted(insert_sorted(s, x)),
        insert_sorted(s, x).len() == s.len() + 1,
        insert_sorted(s, x).to_multiset() =~= s.to_multiset().insert(x),
{
    lemma_insert_index(s, x);
    let i = insert_index(s, x) as int;
    let t = insert_sorted(s, x);
    assert forall|p: int, q: int| 0 <= p < q < t.len() implies !loc_gt(#[trigger] t[q], #[trigger] t[p]) by {
        if p < i && q < i {
        } else if p < i && q == i {
        } else if p < i {
            assert(t[q] == s[q - 1]);
        } else if p == i {
            assert(t[q] == s[q - 1]);
            lemma_loc_gt_strict_order(s[q - 1], x, s[i]);
            if q - 1 > i {
                assert(!loc_gt(s[q - 1], s[i]));
            }
        } else {
            assert(t[q] == s[q - 1]);
            assert(t[p] == s[p - 1]);
        }
    }
    assert(t.remove(i) =~= s);
    broadcast use vstd::seq_lib::group_to_multiset_ensures;
    assert(t.to_multiset().remove(x) =~= s.to_multiset());
    assert(t.to_multiset().count(x) > 0) by {
        assert(t[i] == x);
        assert(t.contains(x));
    }
}

/// Removing a location keeps the order.
pub proof fn lemma_without_sorted<R: Registers>(s: Seq<LocationView<R>>, x: LocationView<R>)
    requires
        sorted(s),
    ensures
        sorted(without(s, x)),
    decreases s.len(),
{
    if s.len() > 0 {
        reveal(Seq::filter);
        let f = differs_from(x);
        let rest = s.drop_last();
        assert(sorted(rest));
        lemma_without_sorted(rest, x);
        let fr = rest.filter(f);
        if f(s.last()) {
            let t = fr.push(s.last());
            assert(without(s, x) == t);
            assert forall|p: int, q: int| 0 <= p < q < t.len() implies !loc_gt(
                #[trigger] t[q],
                #[trigger] t[p],
            ) by {
                if q == t.len() - 1 {
                    assert(fr.contains(fr[p]));
                    rest.lemma_filter_contains_rev(f, fr[p]);
                    let j = choose|j: int| 0 <= j < rest.len() && rest[j] == fr[p];
                    assert(s[j] == fr[p]);
                }
            }
        } else {
            assert(without(s, x) == fr);
        }
    }
}

/// `add_stack_slots` keeps the order and adds exactly the new slots.
pub proof fn lemma_add_stack_slots<R: Registers>(s: Seq<LocationView<R>>, from: int, count: nat)
    requires
        sorted(s),
    ensures
        sorted(add_stack_slots(s, from, count)),
        add_stack_slots(s, from, count).len() == s.len() + count,
    decreases count,
{
    if count > 0 {
        lemma_add_stack_slots(s, from, (count - 1) as nat);
        lemma_insert_sorted(
            add_stack_slots(s, from, (count - 1) as nat),
            LocationView::Stack((from + count - 1) as usize),
        );
    }
}

/// Inserting locations in order keeps the order and adds as many as given.
pub proof fn lemma_insert_all<R: Registers>(s: Seq<LocationView<R>>, xs: Seq<LocationView<R>>)
    requires
        sorted(s),
    ensures
        sorted(insert_all(s, xs)),
        insert_all(s, xs).len() == s.len() + xs.len(),
    decreases xs.len(),
{
    if xs.len() > 0 {
        lemma_insert_all(s, xs.drop_last());
        lemma_insert_sorted(insert_all(s, xs.drop_last()), xs.last());
    }
}

} // verus!
