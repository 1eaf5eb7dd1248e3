//! The order in which known files are considered: byte-wise lexicographic
//! order of the UTF-8 encoding of their paths.

use vstd::prelude::*;
use vstd::string::*;
use vstd::utf8::{encode_utf8, encode_utf8_decode_utf8};

verus! {

/// The bytes by which a path is ordered.
pub open spec fn path_key(path: Seq<char>) -> Seq<u8> {
    encode_utf8(path)
}

/// Strict lexicographic order on byte sequences: a proper prefix comes
/// first, otherwise the first differing byte decides.
pub open spec fn bytes_before(a: Seq<u8>, b: Seq<u8>) -> bool
    decreases a.len(),
{
    if b.len() == 0 {
        false
    } else if a.len() == 0 {
        true
    } else if a[0] != b[0] {
        a[0] < b[0]
    } else {
        bytes_before(a.drop_first(), b.drop_first())
    }
}

/// Whether the path `a` is considered before the path `b`.
pub open spec fn path_before(a: Seq<char>, b: Seq<char>) -> bool {
    bytes_before(path_key(a), path_key(b))
}

/// How one path stands to another in the order.
#[derive(Clone, Copy, Debug, PartialEq, Eq, Structural)]
pub enum PathOrder {
    Before,
    Same,
    After,
}

/// No byte sequence comes before itself.
pub proof fn lemma_bytes_before_irreflexive(a: Seq<u8>)
    ensures
        !bytes_before(a, a),
    decreases a.len(),
{
    if a.len() > 0 {
        lemma_bytes_before_irreflexive(a.drop_first());
    }
}

/// Of two byte sequences at most one comes before the other.
pub proof fn lemma_bytes_before_asymmetric(a: Seq<u8>, b: Seq<u8>)
    requires
        bytes_before(a, b),
    ensures
        !bytes_before(b, a),
    decreases a.len(),
{
    if a.len() > 0 && b.len() > 0 && a[0] == b[0] {
        lemma_bytes_before_asymmetric(a.drop_first(), b.drop_first());
    }
}

/// The order is transitive.
pub proof fn lemma_bytes_before_transitive(a: Seq<u8>, b: Seq<u8>, c: Seq<u8>)
    requires
        bytes_before(a, b),
        bytes_before(b, c),
    ensures
        bytes_before(a, c),
    decreases a.len(),
{
    if a.len() > 0 && b.len() > 0 && c.len() > 0 && a[0] == b[0] && b[0] == c[0] {
        lemma_bytes_before_transitive(a.drop_first(), b.drop_first(), c.drop_first());
    }
}

/// Paths with the same key are the same path.
pub proof fn lemma_path_key_injective(a: Seq<char>, b: Seq<char>)
    requires
        path_key(a) == path_key(b),
    ensures
        a == b,
{
    encode_utf8_decode_utf8(a);
    encode_utf8_decode_utf8(b);
}

/// No path comes before itself, and the order on paths is strict.
pub proof fn lemma_path_before_strict(a: Seq<char>, b: Seq<char>)
    requires
        path_before(a, b),
    ensures
        a != b,
        !path_before(b, a),
{
    lemma_bytes_before_irreflexive(path_key(a));
    lemma_bytes_before_asymmetric(path_key(a), path_key(b));
}

/// Compares two paths in the order of their keys.
pub fn compare_paths(a: &str, b: &str) -> (order: PathOrder)
    ensures
        order == PathOrder::Before <==> path_before(a@, b@),
        order == PathOrder::Same <==> a@ == b@,
        order == PathOrder::After <==> path_before(b@, a@),
{
    let x = a.as_bytes();
    let y = b.as_bytes();
    let n = x.len();
    let m = y.len();
    let mut i: usize = 0;
    proof {
        assert(x@.skip(0) =~= x@);
        assert(y@.skip(0) =~= y@);
    }
    while i < n && i < m
        invariant
            n == x@.len(),
            m == y@.len(),
            i <= n,
            i <= m,
            x@ == path_key(a@),
            y@ == path_key(b@),
            x@.subrange(0, i as int) == y@.subrange(0, i as int),
            bytes_before(x@, y@) == bytes_before(x@.skip(i as int), y@.skip(i as int)),
            bytes_before(y@, x@) == bytes_before(y@.skip(i as int), x@.skip(i as int)),
        decreases n - i,
    {
        let p = x[i];
        let q = y[i];
        proof {
            assert(x@.skip(i as int)[0] == p);
            assert(y@.skip(i as int)[0] == q);
            assert(x@.skip(i as int).drop_first() =~= x@.skip(i as int + 1));
            assert(y@.skip(i as int).drop_first() =~= y@.skip(i as int + 1));
        }
        if p < q {
            proof {
                lemma_path_before_strict(a@, b@);
            }
            return PathOrder::Before;
        }
        if q < p {
            proof {
                lemma_path_before_strict(b@, a@);
            }
            return PathOrder::After;
        }
        proof {
            assert(x@.subrange(0, i as int + 1) =~= x@.subrange(0, i as int).push(p));
            assert(y@.subrange(0, i as int + 1) =~= y@.subrange(0, i as int).push(q));
        }
        i = i + 1;
    }
    if n < m {
        proof {
            lemma_path_before_strict(a@, b@);
        }
        PathOrder::Before
    } else if m < n {
        proof {
            lemma_path_before_strict(b@, a@);
        }
        PathOrder::After
    } else {
        proof {
            assert(x@ =~= x@.subrange(0, i as int));
            assert(y@ =~= y@.subrange(0, i as int));
            lemma_path_key_injective(a@, b@);
            lemma_bytes_before_irreflexive(x@);
        }
        PathOrder::Same
    }
}

} // verus!
