//! The free-cell index: an insertion-ordered set of board cells, kept in an
//! `indexmap::IndexSet` of `(x, y)` pairs.

use indexmap::IndexSet;
use vstd::prelude::*;

verus! {

#[verifier::external_type_specification]
#[verifier::external_body]
#[verifier::reject_recursive_types(T)]
#[verifier::reject_recursive_types(S)]
pub struct ExIndexSet<T, S>(IndexSet<T, S>);

/// The cells held by an index, in its iteration (index) order.
pub uninterp spec fn cells_of(s: IndexSet<(u8, u8)>) -> Seq<(u8, u8)>;

/// The sequence `s` with the entry at `i` replaced by the last entry and the
/// last entry dropped: the removal that `IndexSet::swap_remove` performs.
pub open spec fn swap_out(s: Seq<(u8, u8)>, i: int) -> Seq<(u8, u8)> {
    s.update(i, s.last()).drop_last()
}

/// Relies on `IndexSet::new`: a new set holds nothing.
#[verifier::external_body]
pub(crate) fn cells_new() -> (r: IndexSet<(u8, u8)>)
    ensures
        cells_of(r) == Seq::<(u8, u8)>::empty(),
{
    IndexSet::new()
}

/// Relies on `IndexSet::len`: the number of cells held.
#[verifier::external_body]
pub(crate) fn cells_len(s: &IndexSet<(u8, u8)>) -> (r: usize)
    ensures
        r == cells_of(*s).len(),
{
    s.len()
}

/// Relies on `IndexSet::contains`: membership of a cell.
#[verifier::external_body]
pub(crate) fn cells_contains(s: &IndexSet<(u8, u8)>, c: (u8, u8)) -> (r: bool)
    ensures
        r == cells_of(*s).contains(c),
{
    s.contains(&c)
}

/// Relies on `IndexSet::get_index`: the cell at a position of the order.
#[verifier::external_body]
pub(crate) fn cells_get(s: &IndexSet<(u8, u8)>, i: usize) -> (r: Option<(u8, u8)>)
    ensures
        i < cells_of(*s).len() ==> r == Some(cells_of(*s)[i as int]),
        i >= cells_of(*s).len() ==> r is None,
{
    s.get_index(i).copied()
}

/// Relies on `IndexSet::insert`: an absent cell is appended at the end of the
/// order; a present one leaves the set as it was.
#[verifier::external_body]
pub(crate) fn cells_insert(s: &mut IndexSet<(u8, u8)>, c: (u8, u8)) -> (r: bool)
    ensures
        r == !cells_of(*old(s)).contains(c),
        r ==> cells_of(*final(s)) == cells_of(*old(s)).push(c),
        !r ==> cells_of(*final(s)) == cells_of(*old(s)),
{
    s.insert(c)
}

/// Relies on `IndexSet::remove`, which in indexmap 1.x swap-removes: the last cell
/// takes the place of the removed one; an absent cell leaves the set as it was.
#[verifier::external_body]
pub(crate) fn cells_remove(s: &mut IndexSet<(u8, u8)>, c: (u8, u8)) -> (r: bool)
    ensures
        r == cells_of(*old(s)).contains(c),
        forall|i: int|
            0 <= i < cells_of(*old(s)).len() && cells_of(*old(s))[i] == c ==> cells_of(*final(s))
                == swap_out(cells_of(*old(s)), i),
        !r ==> cells_of(*final(s)) == cells_of(*old(s)),
{
    s.remove(&c)
}

/// What a swap-removal keeps: with no repeated entries, the entries other than
/// the removed one, still without repetition.
pub proof fn lemma_swap_out(s: Seq<(u8, u8)>, i: int)
    requires
        s.no_duplicates(),
        0 <= i < s.len(),
    ensures
        swap_out(s, i).len() == s.len() - 1,
        swap_out(s, i).no_duplicates(),
        forall|c: (u8, u8)| #[trigger]
            swap_out(s, i).contains(c) <==> (s.contains(c) && c != s[i]),
{
    let t = swap_out(s, i);
    let n = s.len() - 1;
    assert forall|c: (u8, u8)| #[trigger] t.contains(c) <==> (s.contains(c) && c != s[i]) by {
        if t.contains(c) {
            let j = choose|j: int| 0 <= j < t.len() && t[j] == c;
            if j == i {
                assert(s[n] == c);
            } else {
                assert(s[j] == c);
            }
        }
        if s.contains(c) && c != s[i] {
            let j = choose|j: int| 0 <= j < s.len() && s[j] == c;
            if j == n {
                assert(t[i] == c);
            } else {
                assert(t[j] == c);
            }
        }
    }
    assert forall|a: int, b: int| 0 <= a < t.len() && 0 <= b < t.len() && a != b implies t[a]
        != t[b] by {
        let sa = if a == i { n } else { a };
        let sb = if b == i { n } else { b };
        assert(t[a] == s[sa]);
        assert(t[b] == s[sb]);
    }
}

} // verus!

verus! {

/// Appending an absent entry keeps a sequence free of repetitions and adds
/// exactly that entry.
pub proof fn lemma_push_fresh(s: Seq<(u8, u8)>, v: (u8, u8))
    requires
        s.no_duplicates(),
        !s.contains(v),
    ensures
        s.push(v).no_duplicates(),
        forall|c: (u8, u8)| #[trigger] s.push(v).contains(c) <==> (s.contains(c) || c == v),
{
    let t = s.push(v);
    assert forall|c: (u8, u8)| #[trigger] t.contains(c) <==> (s.contains(c) || c == v) by {
        if t.contains(c) {
            let j = choose|j: int| 0 <= j < t.len() && t[j] == c;
            if j < s.len() {
                assert(s[j] == c);
            }
        }
        if s.contains(c) {
            let j = choose|j: int| 0 <= j < s.len() && s[j] == c;
            assert(t[j] == c);
        }
        if c == v {
            assert(t[s.len() as int] == c);
        }
    }
    assert forall|a: int, b: int| 0 <= a < t.len() && 0 <= b < t.len() && a != b implies t[a]
        != t[b] by {
        if a == s.len() {
            assert(s[b] == t[b]);
        } else if b == s.len() {
            assert(s[a] == t[a]);
        }
    }
}

} // verus!
