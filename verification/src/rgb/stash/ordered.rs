//! Lists of identifiers kept in ascending order, each identifier once:
//! what an ordered set holds, laid out as the set would hand it out.

use vstd::prelude::*;

verus! {

/// The number that the bytes spell, first byte most significant.
pub open spec fn be_value(bytes: Seq<u8>) -> nat
    decreases bytes.len(),
{
    if bytes.len() == 0 {
        0
    } else {
        be_value(bytes.drop_last()) * 256 + bytes.last() as nat
    }
}

/// Whether the identifiers ascend strictly, in the order of their bytes.
pub open spec fn ascending(ids: Seq<[u8; 32]>) -> bool {
    forall|i: int, j: int|
        0 <= i < j < ids.len() ==> be_value((#[trigger] ids[i])@) < be_value((#[trigger] ids[j])@)
}

/// Of two byte strings of one length that agree up to some place and
/// differ there, the one with the smaller byte there spells the smaller
/// number.
pub proof fn lemma_first_difference(a: Seq<u8>, b: Seq<u8>, k: int)
    requires
        a.len() == b.len(),
        0 <= k < a.len(),
        forall|j: int| 0 <= j < k ==> a[j] == b[j],
        a[k] < b[k],
    ensures
        be_value(a) < be_value(b),
    decreases a.len(),
{
    let n = a.len() as int;
    if k == n - 1 {
        assert(a.drop_last() =~= b.drop_last());
    } else {
        lemma_first_difference(a.drop_last(), b.drop_last(), k);
    }
}

/// How one identifier stands to another.
#[derive(Clone, Copy, Debug, PartialEq, Eq, Structural)]
pub enum Order {
    Before,
    Same,
    After,
}

/// Compares two identifiers byte by byte.
pub fn order_of(a: &[u8; 32], b: &[u8; 32]) -> (o: Order)
    ensures
        match o {
            Order::Before => be_value(a@) < be_value(b@),
            Order::Same => *a == *b,
            Order::After => be_value(b@) < be_value(a@),
        },
{
    let mut i: usize = 0;
    while i < 32
        invariant
            i <= 32,
            forall|j: int| 0 <= j < i ==> a@[j] == b@[j],
        decreases 32 - i,
    {
        if a[i] < b[i] {
            proof {
                lemma_first_difference(a@, b@, i as int);
            }
            return Order::Before;
        }
        if a[i] > b[i] {
            proof {
                lemma_first_difference(b@, a@, i as int);
            }
            return Order::After;
        }
        i += 1;
    }
    assert(a@ =~= b@);
    assert(*a =~= *b);
    Order::Same
}

/// Puts the identifier into the list at its place, unless the list holds
/// it already.
pub fn insert_ordered(ids: &mut Vec<[u8; 32]>, id: [u8; 32])
    requires
        ascending(old(ids)@),
    ensures
        ascending(final(ids)@),
        forall|x: [u8; 32]| final(ids)@.contains(x) <==> (old(ids)@.contains(x) || x == id),
{
    let n = ids.len();
    let mut i: usize = 0;
    while i < n
        invariant
            i <= n,
            n == ids@.len(),
            ids@ == old(ids)@,
            ascending(ids@),
            forall|j: int| 0 <= j < i ==> be_value((#[trigger] ids@[j])@) < be_value(id@),
        decreases n - i,
    {
        match order_of(&ids[i], &id) {
            Order::Before => {
                i += 1;
            },
            Order::Same => {
                assert(ids@[i as int] == id);
                return;
            },
            Order::After => {
                let ghost before = ids@;
                ids.insert(i, id);
                proof {
                    let after = ids@;
                    assert forall|x: [u8; 32]| after.contains(x) <==> (before.contains(x) || x
                        == id) by {
                        if after.contains(x) {
                            let k = choose|k: int| 0 <= k < after.len() && after[k] == x;
                            if k < i {
                                assert(before[k] == x);
                            } else if k > i {
                                assert(before[k - 1] == x);
                            }
                        }
                        if before.contains(x) {
                            let k = choose|k: int| 0 <= k < before.len() && before[k] == x;
                            if k < i {
                                assert(after[k] == x);
                            } else {
                                assert(after[k + 1] == x);
                            }
                        }
                        assert(after[i as int] == id);
                    }
                    assert forall|p: int, q: int| 0 <= p < q < after.len() implies be_value(
                        (#[trigger] after[p])@,
                    ) < be_value((#[trigger] after[q])@) by {
                        let bp = if p < i {
                            p
                        } else {
                            p - 1
                        };
                        let bq = if q < i {
                            q
                        } else {
                            q - 1
                        };
                        if p != i && q != i {
                            assert(after[p] == before[bp] && after[q] == before[bq]);
                        } else if p == i {
                            assert(after[q] == before[bq]);
                            if bq > i {
                                assert(be_value(before[i as int]@) < be_value(before[bq]@));
                            }
                        } else {
                            assert(after[p] == before[bp]);
                        }
                    }
                }
                return;
            },
        }
    }
    let ghost before = ids@;
    ids.push(id);
    proof {
        let after = ids@;
        assert forall|x: [u8; 32]| after.contains(x) <==> (before.contains(x) || x == id) by {
            if after.contains(x) {
                let k = choose|k: int| 0 <= k < after.len() && after[k] == x;
                if k < n {
                    assert(before[k] == x);
                }
            }
            if before.contains(x) {
                let k = choose|k: int| 0 <= k < before.len() && before[k] == x;
                assert(after[k] == x);
            }
            assert(after[n as int] == id);
        }
    }
}

} // verus!
