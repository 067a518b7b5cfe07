//! The order in which playlist files are kept: paths compared byte by byte
//! through their UTF-8 encoding, the order of paths that share a parent.
use vstd::prelude::*;
use vstd::relations::*;
use vstd::utf8::*;
use vstd::seq_lib::*;

verus! {

/// `a` and `b` agree before index `i`, where `a` has the smaller byte.
pub open spec fn bytes_differ_below_at(a: Seq<u8>, b: Seq<u8>, i: int) -> bool {
    &&& 0 <= i < a.len()
    &&& i < b.len()
    &&& forall|j: int| 0 <= j < i ==> a[j] == b[j]
    &&& a[i] < b[i]
}

/// `a` is a prefix of `b`.
pub open spec fn bytes_prefix(a: Seq<u8>, b: Seq<u8>) -> bool {
    &&& a.len() <= b.len()
    &&& forall|j: int| 0 <= j < a.len() ==> a[j] == b[j]
}

/// Lexicographic order on byte strings.
pub open spec fn bytes_le(a: Seq<u8>, b: Seq<u8>) -> bool {
    bytes_prefix(a, b) || exists|i: int| bytes_differ_below_at(a, b, i)
}

/// Order on paths: their UTF-8 encodings compared lexicographically.
pub open spec fn path_le(a: Seq<char>, b: Seq<char>) -> bool {
    bytes_le(encode_utf8(a), encode_utf8(b))
}

/// The path order as a relation.
pub open spec fn path_order() -> spec_fn(Seq<char>, Seq<char>) -> bool {
    |a: Seq<char>, b: Seq<char>| path_le(a, b)
}

proof fn lemma_bytes_le_total_from(a: Seq<u8>, b: Seq<u8>, i: int)
    requires
        0 <= i <= a.len(),
        i <= b.len(),
        forall|j: int| 0 <= j < i ==> a[j] == b[j],
    ensures
        bytes_le(a, b) || bytes_le(b, a),
    decreases a.len() - i,
{
    if i == a.len() {
        assert(bytes_prefix(a, b));
    } else if i == b.len() {
        assert(bytes_prefix(b, a));
    } else if a[i] < b[i] {
        assert(bytes_differ_below_at(a, b, i));
    } else if b[i] < a[i] {
        assert(bytes_differ_below_at(b, a, i));
    } else {
        lemma_bytes_le_total_from(a, b, i + 1);
    }
}

proof fn lemma_bytes_le_antisymmetric(a: Seq<u8>, b: Seq<u8>)
    requires
        bytes_le(a, b),
        bytes_le(b, a),
    ensures
        a == b,
{
    if bytes_prefix(a, b) && bytes_prefix(b, a) {
        assert(a =~= b);
    } else if bytes_prefix(a, b) {
        let k = choose|k: int| bytes_differ_below_at(b, a, k);
        assert(a[k] == b[k]);
    } else if bytes_prefix(b, a) {
        let k = choose|k: int| bytes_differ_below_at(a, b, k);
        assert(a[k] == b[k]);
    } else {
        let i = choose|i: int| bytes_differ_below_at(a, b, i);
        let k = choose|k: int| bytes_differ_below_at(b, a, k);
        if i < k {
            assert(b[i] == a[i]);
        } else if k < i {
            assert(a[k] == b[k]);
        }
    }
}

proof fn lemma_bytes_le_transitive(a: Seq<u8>, b: Seq<u8>, c: Seq<u8>)
    requires
        bytes_le(a, b),
        bytes_le(b, c),
    ensures
        bytes_le(a, c),
{
    if bytes_prefix(a, b) && bytes_prefix(b, c) {
        assert(bytes_prefix(a, c));
    } else if bytes_prefix(a, b) {
        let k = choose|k: int| bytes_differ_below_at(b, c, k);
        if k < a.len() {
            assert(bytes_differ_below_at(a, c, k));
        } else {
            assert(bytes_prefix(a, c));
        }
    } else if bytes_prefix(b, c) {
        let i = choose|i: int| bytes_differ_below_at(a, b, i);
        assert(bytes_differ_below_at(a, c, i));
    } else {
        let i = choose|i: int| bytes_differ_below_at(a, b, i);
        let k = choose|k: int| bytes_differ_below_at(b, c, k);
        if i <= k {
            assert(bytes_differ_below_at(a, c, i));
        } else {
            assert(bytes_differ_below_at(a, c, k));
        }
    }
}

/// The path order is a total order.
pub proof fn lemma_path_order_total()
    ensures
        total_ordering(path_order()),
{
    assert forall|x: Seq<char>| #[trigger] path_order()(x, x) by {
        assert(bytes_prefix(encode_utf8(x), encode_utf8(x)));
    }
    assert forall|x: Seq<char>, y: Seq<char>|
        #[trigger] path_order()(x, y) && #[trigger] path_order()(y, x) implies x == y by {
        lemma_bytes_le_antisymmetric(encode_utf8(x), encode_utf8(y));
        encode_utf8_decode_utf8(x);
        encode_utf8_decode_utf8(y);
    }
    assert forall|x: Seq<char>, y: Seq<char>, z: Seq<char>|
        #[trigger] path_order()(x, y) && #[trigger] path_order()(y, z) implies path_order()(
        x,
        z,
    ) by {
        lemma_bytes_le_transitive(encode_utf8(x), encode_utf8(y), encode_utf8(z));
    }
    assert forall|x: Seq<char>, y: Seq<char>|
        #[trigger] path_order()(x, y) || #[trigger] path_order()(y, x) by {
        lemma_bytes_le_total_from(encode_utf8(x), encode_utf8(y), 0);
    }
}

/// Paths are ordered by the first byte at which their UTF-8 encodings
/// differ: where the encodings agree before index `i` and differ at `i`,
/// `a` comes first exactly when its byte at `i` is the smaller, whatever
/// follows.
pub proof fn lemma_path_le_first_difference(a: Seq<char>, b: Seq<char>, i: int)
    requires
        0 <= i < encode_utf8(a).len(),
        i < encode_utf8(b).len(),
        forall|j: int| 0 <= j < i ==> encode_utf8(a)[j] == encode_utf8(b)[j],
        encode_utf8(a)[i] != encode_utf8(b)[i],
    ensures
        path_le(a, b) <==> encode_utf8(a)[i] < encode_utf8(b)[i],
        path_le(b, a) <==> encode_utf8(b)[i] < encode_utf8(a)[i],
{
    let x = encode_utf8(a);
    let y = encode_utf8(b);
    if x[i] < y[i] {
        assert(bytes_differ_below_at(x, y, i));
        assert(!bytes_prefix(y, x));
        assert forall|k: int| !bytes_differ_below_at(y, x, k) by {
            if bytes_differ_below_at(y, x, k) {
                if k > i {
                    assert(y[i] == x[i]);
                }
            }
        }
    } else {
        assert(bytes_differ_below_at(y, x, i));
        assert(!bytes_prefix(x, y));
        assert forall|k: int| !bytes_differ_below_at(x, y, k) by {
            if bytes_differ_below_at(x, y, k) {
                if k > i {
                    assert(x[i] == y[i]);
                }
            }
        }
    }
}

/// A path whose encoding is a prefix of another's comes first, and a path
/// whose encoding is a proper prefix of another's does not come after it.
pub proof fn lemma_path_le_prefix(a: Seq<char>, b: Seq<char>)
    requires
        encode_utf8(a).len() <= encode_utf8(b).len(),
        forall|j: int| 0 <= j < encode_utf8(a).len() ==> encode_utf8(a)[j] == encode_utf8(b)[j],
    ensures
        path_le(a, b),
        encode_utf8(a).len() < encode_utf8(b).len() ==> !path_le(b, a),
{
    let x = encode_utf8(a);
    let y = encode_utf8(b);
    assert(bytes_prefix(x, y));
    if x.len() < y.len() {
        assert forall|k: int| !bytes_differ_below_at(y, x, k) by {
            if bytes_differ_below_at(y, x, k) {
                assert(x[k] == y[k]);
            }
        }
    }
}

/// The relation that sorts playlists is the path order itself, `a` before
/// `b`.
pub proof fn lemma_path_order_is_path_le(a: Seq<char>, b: Seq<char>)
    ensures
        path_order()(a, b) == path_le(a, b),
{
}

/// The texts of a sequence of strings.
pub open spec fn paths_view(v: Seq<String>) -> Seq<Seq<char>> {
    v.map_values(|s: String| s@)
}

/// Whether `a` comes before `b`, or equals it, in the path order.
pub fn path_le_exec(a: &String, b: &String) -> (r: bool)
    ensures
        r == path_le(a@, b@),
{
    let x = a.as_str().as_bytes();
    let y = b.as_str().as_bytes();
    let n = x.len();
    let m = y.len();
    let mut i: usize = 0;
    while i < n && i < m
        invariant
            x@ == encode_utf8(a@),
            y@ == encode_utf8(b@),
            n == x@.len(),
            m == y@.len(),
            i <= n,
            i <= m,
            forall|j: int| 0 <= j < i ==> x@[j] == y@[j],
        decreases n - i,
    {
        if x[i] < y[i] {
            assert(bytes_differ_below_at(x@, y@, i as int));
            return true;
        }
        if x[i] > y[i] {
            assert forall|k: int| !bytes_differ_below_at(x@, y@, k) by {
                if bytes_differ_below_at(x@, y@, k) {
                    if k < i {
                    } else if k == i {
                    } else {
                        assert(x@[i as int] == y@[i as int]);
                    }
                }
            }
            return false;
        }
        i = i + 1;
    }
    if n <= m {
        assert(bytes_prefix(x@, y@));
        true
    } else {
        assert forall|k: int| !bytes_differ_below_at(x@, y@, k) by {
            if bytes_differ_below_at(x@, y@, k) {
                assert(x@[k] == y@[k]);
            }
        }
        false
    }
}

/// Puts `x` into the sorted vector `v`, after every element that is not
/// greater than it.
pub fn insert_sorted(v: &mut Vec<String>, x: String)
    requires
        sorted_by(paths_view(old(v)@), path_order()),
    ensures
        sorted_by(paths_view(final(v)@), path_order()),
        paths_view(final(v)@).to_multiset() == paths_view(old(v)@).to_multiset().insert(x@),
        forall|i: int|
            0 <= i < final(v)@.len() ==> (#[trigger] final(v)@[i])@ == x@ || paths_view(
                old(v)@,
            ).contains(final(v)@[i]@),
{
    proof {
        lemma_path_order_total();
    }
    let ghost old_v = paths_view(v@);
    let n = v.len();
    let mut p: usize = 0;
    while p < n && path_le_exec(&v[p], &x)
        invariant
            n == v@.len(),
            p <= n,
            v@ == old(v)@,
            forall|j: int| 0 <= j < p ==> path_le(#[trigger] v@[j]@, x@),
        decreases n - p,
    {
        p = p + 1;
    }
    let ghost xv = x@;
    v.insert(p, x);
    let ghost w = paths_view(v@);
    assert(w =~= old_v.insert(p as int, xv));
    proof {
        broadcast use group_to_multiset_ensures;
        assert forall|i: int, j: int| 0 <= i < j < w.len() implies #[trigger] path_order()(
            w[i],
            w[j],
        ) by {
            if j < p {
                assert(path_order()(old_v[i], old_v[j]));
            } else if j == p {
                assert(path_le(old_v[i], xv));
            } else if i < p {
                assert(path_le(old_v[i], xv));
                assert(path_order()(old_v[i], old_v[j - 1]));
            } else if i == p {
                // x comes before the element that stopped the scan, and that
                // element comes before every later one.
                assert(!path_le(old_v[p as int], xv));
                assert(path_order()(old_v[p as int], xv) || path_order()(xv, old_v[p as int]));
                if j - 1 > p {
                    assert(path_order()(old_v[p as int], old_v[j - 1]));
                }
            } else {
                assert(path_order()(old_v[i - 1], old_v[j - 1]));
            }
        }
        assert forall|i: int| 0 <= i < v@.len() implies (#[trigger] v@[i])@ == xv
            || old_v.contains(v@[i]@) by {
            if i < p {
                assert(old_v[i] == v@[i]@);
            } else if i > p {
                assert(old_v[i - 1] == v@[i]@);
            }
        }
    }
}

} // verus!
