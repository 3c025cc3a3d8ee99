use vstd::prelude::*;

verus! {

use vstd::set_lib::lemma_len_intersect;

broadcast use vstd::seq_lib::lemma_seq_contains_after_push;


/// Whether the vector holds the value.
pub fn vec_contains(v: &Vec<u64>, x: u64) -> (r: bool)
    ensures
        r == v@.contains(x),
{
    let mut i: usize = 0;
    while i < v.len()
        invariant
            i <= v@.len(),
            forall|j: int| 0 <= j < i ==> v@[j] != x,
        decreases v@.len() - i,
    {
        if v[i] == x {
            return true;
        }
        i = i + 1;
    }
    false
}

/// The distinct values of `v`, each kept once, in order of first
/// appearance.
pub fn unique_values(v: &Vec<u64>) -> (r: Vec<u64>)
    ensures
        r@.no_duplicates(),
        r@.to_set() == v@.to_set(),
        r@.len() <= v@.len(),
{
    let mut out: Vec<u64> = Vec::new();
    let n = v.len();
    for i in 0..n
        invariant
            n == v@.len(),
            out@.no_duplicates(),
            out@.to_set() == v@.subrange(0, i as int).to_set(),
            out@.len() <= i,
    {
        let ghost pre = v@.subrange(0, i as int);
        let ghost ext = v@.subrange(0, i + 1);
        proof {
            assert(ext.drop_last() =~= pre);
            assert(ext.last() == v@[i as int]);
        }
        let ghost x = v@[i as int];
        proof {
            assert(ext =~= pre.push(x));
        }
        if !vec_contains(&out, v[i]) {
            let ghost old_out = out@;
            out.push(v[i]);
            proof {
                assert forall|y: u64| out@.to_set().contains(y) == ext.to_set().contains(y) by {
                    assert(out@.contains(y) == (old_out.contains(y) || y == x));
                    assert(ext.contains(y) == (pre.contains(y) || y == x));
                    assert(old_out.to_set().contains(y) == pre.to_set().contains(y));
                }
                assert(out@.to_set() =~= ext.to_set());
            }
        } else {
            proof {
                assert forall|y: u64| out@.to_set().contains(y) == ext.to_set().contains(y) by {
                    assert(ext.contains(y) == (pre.contains(y) || y == x));
                    assert(out@.to_set().contains(y) == pre.to_set().contains(y));
                    assert(out@.contains(x));
                }
                assert(out@.to_set() =~= ext.to_set());
            }
        }
    }
    proof {
        assert(v@.subrange(0, n as int) =~= v@);
    }
    out
}

/// How many of `base`'s values — counted once each, `base` having no
/// duplicates — also appear in `other`: the cardinality of the
/// intersection of the two value sets.
pub fn count_common(base: &Vec<u64>, other: &Vec<u64>) -> (r: usize)
    requires
        base@.no_duplicates(),
    ensures
        r == base@.to_set().intersect(other@.to_set()).len(),
        r <= base@.len(),
{
    let mut count: usize = 0;
    let n = base.len();
    proof {
        assert(base@.subrange(0, 0).to_set() =~= Set::<u64>::empty());
        assert(Set::<u64>::empty().intersect(other@.to_set()) =~= Set::<u64>::empty());
    }
    for i in 0..n
        invariant
            n == base@.len(),
            base@.no_duplicates(),
            count == base@.subrange(0, i as int).to_set().intersect(other@.to_set()).len(),
            count <= i,
    {
        let ghost pre = base@.subrange(0, i as int);
        let ghost ext = base@.subrange(0, i + 1);
        let ghost x = base@[i as int];
        proof {
            assert(ext.drop_last() =~= pre);
            assert(ext.last() == x);
            assert(!pre.contains(x));
            assert(ext.to_set() =~= pre.to_set().insert(x));
            broadcast use vstd::seq_lib::seq_to_set_is_finite;

            lemma_len_intersect(pre.to_set(), other@.to_set());
            if other@.to_set().contains(x) {
                assert(ext.to_set().intersect(other@.to_set()) =~= pre.to_set().intersect(
                    other@.to_set(),
                ).insert(x));
                assert(!pre.to_set().intersect(other@.to_set()).contains(x));
            } else {
                assert(ext.to_set().intersect(other@.to_set()) =~= pre.to_set().intersect(
                    other@.to_set(),
                ));
            }
        }
        if vec_contains(other, base[i]) {
            count = count + 1;
        }
    }
    proof {
        assert(base@.subrange(0, n as int) =~= base@);
        broadcast use vstd::seq_lib::seq_to_set_is_finite;

        lemma_len_intersect(base@.to_set(), other@.to_set());
        base@.unique_seq_to_set();
    }
    count
}

} // verus!
