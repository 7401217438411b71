//! Items in the order of their names.
use vstd::prelude::*;
use crate::savable::Savable;
use crate::text::chars_of;

verus! {

broadcast use vstd::seq_lib::to_multiset_insert;

/// Name `a` comes no later than name `b`: compared character by character, and a name before
/// every longer name that starts with it.
pub open spec fn name_le(a: Seq<char>, b: Seq<char>) -> bool
    decreases a.len(),
{
    if a.len() == 0 {
        true
    } else if b.len() == 0 {
        false
    } else if a[0] != b[0] {
        (a[0] as int) < (b[0] as int)
    } else {
        name_le(a.drop_first(), b.drop_first())
    }
}

/// Of two names, one comes no later than the other.
pub proof fn lemma_name_le_total(a: Seq<char>, b: Seq<char>)
    ensures
        name_le(a, b) || name_le(b, a),
    decreases a.len(),
{
    if a.len() > 0 && b.len() > 0 && a[0] == b[0] {
        lemma_name_le_total(a.drop_first(), b.drop_first());
    }
}

/// The order of names is transitive.
pub proof fn lemma_name_le_trans(a: Seq<char>, b: Seq<char>, c: Seq<char>)
    requires
        name_le(a, b),
        name_le(b, c),
    ensures
        name_le(a, c),
    decreases a.len(),
{
    if a.len() > 0 && b.len() > 0 && c.len() > 0 && a[0] == b[0] && b[0] == c[0] {
        lemma_name_le_trans(a.drop_first(), b.drop_first(), c.drop_first());
    }
}

/// Whether name `a` comes no later than name `b`.
pub fn names_in_order(a: &str, b: &str) -> (r: bool)
    ensures
        r == name_le(a@, b@),
{
    let x = chars_of(a);
    let y = chars_of(b);
    let mut i: usize = 0;
    assert(x@.skip(0) =~= x@ && y@.skip(0) =~= y@);
    while i < x.len() && i < y.len() && x[i] == y[i]
        invariant
            i <= x@.len(),
            i <= y@.len(),
            x@.take(i as int) == y@.take(i as int),
            name_le(x@, y@) == name_le(x@.skip(i as int), y@.skip(i as int)),
        decreases x@.len() - i,
    {
        proof {
            let xs = x@.skip(i as int);
            let ys = y@.skip(i as int);
            assert(xs.drop_first() =~= x@.skip(i + 1));
            assert(ys.drop_first() =~= y@.skip(i + 1));
            assert(x@.take(i + 1) =~= x@.take(i as int).push(x@[i as int]));
            assert(y@.take(i + 1) =~= y@.take(i as int).push(y@[i as int]));
        }
        i += 1;
    }
    if i == x.len() {
        assert(x@.skip(i as int).len() == 0);
        true
    } else if i == y.len() {
        false
    } else {
        assert(x@.skip(i as int)[0] == x@[i as int] && y@.skip(i as int)[0] == y@[i as int]);
        x[i] < y[i]
    }
}

/// Items in the order of their names.
pub open spec fn sorted_by_name<T: Savable>(s: Seq<T>) -> bool {
    forall|i: int, j: int| 0 <= i < j < s.len() ==> name_le(#[trigger] s[i].spec_name(), #[trigger] s[j].spec_name())
}

/// A name comes no later than itself.
pub proof fn lemma_name_le_refl(a: Seq<char>)
    ensures
        name_le(a, a),
    decreases a.len(),
{
    if a.len() > 0 {
        lemma_name_le_refl(a.drop_first());
    }
}

/// The items in the order of their names; items of equal names keep their order.
pub fn sort_by_name<T: Savable>(items: Vec<T>) -> (sorted: Vec<T>)
    ensures
        sorted_by_name(sorted@),
        sorted@.to_multiset() == items@.to_multiset(),
{
    let ghost orig = items@;
    let mut rest = items;
    let mut sorted: Vec<T> = Vec::new();
    let mut k: usize = 0;
    let total = rest.len();
    proof {
        assert(total == orig.len());
        assert(orig.take(0) =~= Seq::<T>::empty());
        assert(orig.skip(0) =~= orig);
    }
    while rest.len() > 0
        invariant
            orig.len() <= usize::MAX,
            k <= orig.len(),
            rest@ == orig.skip(k as int),
            sorted@.to_multiset() == orig.take(k as int).to_multiset(),
            sorted_by_name(sorted@),
        decreases rest@.len(),
    {
        let x = rest.remove(0);
        assert(x == orig[k as int]);
        assert(rest@ =~= orig.skip(k + 1));
        let name = x.name();
        let mut p: usize = 0;
        while p < sorted.len() && names_in_order(sorted[p].name(), name)
            invariant
                name@ == x.spec_name(),
                p <= sorted@.len(),
                forall|i: int| 0 <= i < p ==> name_le(#[trigger] sorted@[i].spec_name(), x.spec_name()),
            decreases sorted@.len() - p,
        {
            p += 1;
        }
        let ghost before = sorted@;
        proof {
            if p < before.len() {
                assert(!name_le(before[p as int].spec_name(), x.spec_name()));
                lemma_name_le_total(before[p as int].spec_name(), x.spec_name());
                assert forall|j: int| p <= j < before.len() implies name_le(x.spec_name(), #[trigger] before[j].spec_name()) by {
                    if j > p {
                        lemma_name_le_trans(x.spec_name(), before[p as int].spec_name(), before[j].spec_name());
                    }
                }
            }
        }
        sorted.insert(p, x);
        proof {
            let after = sorted@;
            assert(after =~= before.insert(p as int, x));
            assert forall|i: int, j: int| 0 <= i < j < after.len() implies name_le(
                #[trigger] after[i].spec_name(),
                #[trigger] after[j].spec_name(),
            ) by {
                if j < p {
                    assert(after[i] == before[i] && after[j] == before[j]);
                } else if j == p {
                    assert(after[i] == before[i]);
                } else if i < p {
                    assert(after[i] == before[i] && after[j] == before[j - 1]);
                    assert(name_le(before[i].spec_name(), x.spec_name()));
                    lemma_name_le_trans(before[i].spec_name(), x.spec_name(), before[j - 1].spec_name());
                } else if i == p {
                    assert(after[j] == before[j - 1]);
                } else {
                    assert(after[i] == before[i - 1] && after[j] == before[j - 1]);
                }
            }
            assert(orig.take(k + 1) =~= orig.take(k as int).push(x));
            vstd::seq_lib::to_multiset_build(orig.take(k as int), x);
        }
        k += 1;
    }
    proof {
        assert(orig.take(k as int) =~= orig);
    }
    sorted
}

} // verus!
