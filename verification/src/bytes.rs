//! Byte strings: their lexicographic order, which is the order of the
//! engine's keys, and concatenation, by which composite keys are built.

use vstd::prelude::*;

verus! {

/// A string of bytes: a key or a value of a region.
pub type Bytes = Seq<u8>;

/// `a` and `b` agree below position `at`, and there `a` ends while `b` goes
/// on, or `a` holds the smaller byte.
pub open spec fn differs_below(a: Bytes, b: Bytes, at: int) -> bool {
    &&& 0 <= at <= a.len()
    &&& at <= b.len()
    &&& forall|j: int| 0 <= j < at ==> a[j] == b[j]
    &&& if at == a.len() {
        at < b.len()
    } else {
        at < b.len() && a[at] < b[at]
    }
}

/// The lexicographic order on byte strings.
pub open spec fn bytes_lt(a: Bytes, b: Bytes) -> bool {
    exists|at: int| differs_below(a, b, at)
}

/// How one value stands to another in a total order.
#[derive(Clone, Copy, Debug, PartialEq, Eq, Structural)]
pub enum Rank {
    Below,
    Same,
    Above,
}

/// Of two byte strings, one is below the other or they are equal, and no two
/// of these hold at once.
pub proof fn lemma_bytes_lt_total(a: Bytes, b: Bytes)
    ensures
        bytes_lt(a, b) || a == b || bytes_lt(b, a),
        !(bytes_lt(a, b) && bytes_lt(b, a)),
        !(bytes_lt(a, b) && a == b),
{
    if bytes_lt(a, b) && bytes_lt(b, a) {
        let i = choose|at: int| differs_below(a, b, at);
        let j = choose|at: int| differs_below(b, a, at);
        assert(false);
    }
    if !bytes_lt(a, b) && !bytes_lt(b, a) && a != b {
        lemma_first_difference(a, b, 0);
    }
}

/// Two byte strings that agree below `from` and are not equal differ at some
/// position from `from` on, and the first such position orders them.
proof fn lemma_first_difference(a: Bytes, b: Bytes, from: int)
    requires
        0 <= from <= a.len(),
        from <= b.len(),
        forall|j: int| 0 <= j < from ==> a[j] == b[j],
        a != b,
    ensures
        bytes_lt(a, b) || bytes_lt(b, a),
    decreases a.len() - from,
{
    if from == a.len() {
        if from == b.len() {
            assert(a =~= b);
        } else {
            assert(differs_below(a, b, from));
        }
    } else if from == b.len() {
        assert(differs_below(b, a, from));
    } else if a[from] < b[from] {
        assert(differs_below(a, b, from));
    } else if b[from] < a[from] {
        assert(differs_below(b, a, from));
    } else {
        lemma_first_difference(a, b, from + 1);
    }
}

/// The lexicographic order is transitive.
pub proof fn lemma_bytes_lt_transitive(a: Bytes, b: Bytes, c: Bytes)
    requires
        bytes_lt(a, b),
        bytes_lt(b, c),
    ensures
        bytes_lt(a, c),
{
    let i = choose|at: int| differs_below(a, b, at);
    let j = choose|at: int| differs_below(b, c, at);
    if i <= j {
        assert(differs_below(a, c, i));
    } else {
        assert(differs_below(a, c, j));
    }
}

/// Compares two byte strings in the lexicographic order.
pub fn rank_bytes(a: &[u8], b: &[u8]) -> (r: Rank)
    ensures
        r == Rank::Below <==> bytes_lt(a@, b@),
        r == Rank::Same <==> a@ == b@,
        r == Rank::Above <==> bytes_lt(b@, a@),
{
    proof {
        lemma_bytes_lt_total(a@, b@);
    }
    let mut i: usize = 0;
    while i < a.len() && i < b.len()
        invariant
            i <= a.len(),
            i <= b.len(),
            forall|j: int| 0 <= j < i ==> a@[j] == b@[j],
        decreases a.len() - i,
    {
        if a[i] < b[i] {
            assert(differs_below(a@, b@, i as int));
            return Rank::Below;
        }
        if a[i] > b[i] {
            assert(differs_below(b@, a@, i as int));
            return Rank::Above;
        }
        i += 1;
    }
    if i < b.len() {
        assert(differs_below(a@, b@, i as int));
        Rank::Below
    } else if i < a.len() {
        assert(differs_below(b@, a@, i as int));
        Rank::Above
    } else {
        assert(a@ =~= b@);
        Rank::Same
    }
}

/// The bytes of `a` followed by those of `b`.
pub fn join(a: &[u8], b: &[u8]) -> (joined: Vec<u8>)
    ensures
        joined@ == a@ + b@,
{
    let mut joined: Vec<u8> = Vec::new();
    joined.extend_from_slice(a);
    joined.extend_from_slice(b);
    joined
}

} // verus!
