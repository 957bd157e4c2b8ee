//! Byte-wise ordering of entry names: the order in which a directory lists
//! its children.
use vstd::prelude::*;

verus! {

/// `a` and `b` agree on their first `k` bytes, and both have at least `k`.
pub open spec fn agree_below(a: Seq<u8>, b: Seq<u8>, k: int) -> bool {
    &&& 0 <= k <= a.len()
    &&& k <= b.len()
    &&& forall|i: int| 0 <= i < k ==> a[i] == b[i]
}

/// `a` comes before `b`, and `k` is where they part: either `a` ends there
/// while `b` goes on, or the byte of `a` there is the smaller one.
pub open spec fn precedes_at(a: Seq<u8>, b: Seq<u8>, k: int) -> bool {
    &&& agree_below(a, b, k)
    &&& k < b.len()
    &&& (k == a.len() || (k < a.len() && a[k] < b[k]))
}

/// Strict lexicographic order on byte strings.
pub open spec fn precedes(a: Seq<u8>, b: Seq<u8>) -> bool {
    exists|k: int| precedes_at(a, b, k)
}

/// No byte string precedes itself.
pub proof fn lemma_precedes_irreflexive(a: Seq<u8>)
    ensures
        !precedes(a, a),
{
    assert forall|k: int| !precedes_at(a, a, k) by {}
}

/// The order is transitive.
pub proof fn lemma_precedes_transitive(a: Seq<u8>, b: Seq<u8>, c: Seq<u8>)
    requires
        precedes(a, b),
        precedes(b, c),
    ensures
        precedes(a, c),
{
    let k1 = choose|k: int| precedes_at(a, b, k);
    let k2 = choose|k: int| precedes_at(b, c, k);
    if k1 < k2 {
        assert(precedes_at(a, c, k1));
    } else if k2 < k1 {
        assert(a[k2] == b[k2]);
        assert(precedes_at(a, c, k2));
    } else {
        assert(precedes_at(a, c, k1));
    }
}

/// The outcome of comparing two names byte by byte.
#[derive(Clone, Copy, Debug, PartialEq, Eq, Structural)]
pub enum NameOrder {
    Before,
    Same,
    After,
}

/// Compares two byte strings lexicographically.
pub fn compare_bytes(a: &[u8], b: &[u8]) -> (r: NameOrder)
    ensures
        r == NameOrder::Before <==> precedes(a@, b@),
        r == NameOrder::After <==> precedes(b@, a@),
        r == NameOrder::Same <==> a@ == b@,
{
    let mut i: usize = 0;
    while i < a.len() && i < b.len() && a[i] == b[i]
        invariant
            agree_below(a@, b@, i as int),
        decreases a.len() - i,
    {
        i = i + 1;
    }
    proof {
        lemma_precedes_irreflexive(a@);
        lemma_precedes_irreflexive(b@);
    }
    if i < a.len() && i < b.len() {
        if a[i] < b[i] {
            assert(precedes_at(a@, b@, i as int));
            assert(!precedes(b@, a@)) by {
                if precedes(b@, a@) {
                    lemma_precedes_transitive(a@, b@, a@);
                }
            }
            NameOrder::Before
        } else {
            assert(precedes_at(b@, a@, i as int));
            assert(!precedes(a@, b@)) by {
                if precedes(a@, b@) {
                    lemma_precedes_transitive(a@, b@, a@);
                }
            }
            NameOrder::After
        }
    } else if i == a.len() && i == b.len() {
        assert(a@ =~= b@);
        NameOrder::Same
    } else if i == a.len() {
        assert(precedes_at(a@, b@, i as int));
        assert(!precedes(b@, a@)) by {
            if precedes(b@, a@) {
                lemma_precedes_transitive(a@, b@, a@);
            }
        }
        NameOrder::Before
    } else {
        assert(precedes_at(b@, a@, i as int));
        assert(!precedes(a@, b@)) by {
            if precedes(a@, b@) {
                lemma_precedes_transitive(a@, b@, a@);
            }
        }
        NameOrder::After
    }
}

} // verus!
