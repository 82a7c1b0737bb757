//! The order of user names: that of their UTF-8 bytes, read as a dictionary
//! reads words.

use vstd::prelude::*;
use vstd::utf8::encode_utf8;
use vstd::utf8::encode_utf8_decode_utf8;

verus! {

/// `a` and `b` agree on their first `k` bytes and part ways there in favour
/// of `a`: either `a` ends at `k` and `b` goes on, or `a` holds the smaller
/// byte at `k`.
pub open spec fn parts_before_at(a: Seq<u8>, b: Seq<u8>, k: int) -> bool {
    &&& 0 <= k <= a.len()
    &&& k < b.len()
    &&& forall|i: int| 0 <= i < k ==> a[i] == b[i]
    &&& k < a.len() ==> a[k] < b[k]
}

/// `a` comes strictly before `b` among byte strings.
pub open spec fn bytes_before(a: Seq<u8>, b: Seq<u8>) -> bool {
    exists|k: int| parts_before_at(a, b, k)
}

/// The user name `a` comes strictly before the user name `b`.
pub open spec fn name_before(a: Seq<char>, b: Seq<char>) -> bool {
    bytes_before(encode_utf8(a), encode_utf8(b))
}

/// How one user name stands to another.
#[derive(Clone, Copy, Debug, PartialEq, Eq, Structural)]
pub enum NameOrder {
    Before,
    Same,
    After,
}

/// What comes before something that comes before `c` comes before `c`.
proof fn lemma_before_transitive(a: Seq<u8>, b: Seq<u8>, c: Seq<u8>)
    requires
        bytes_before(a, b),
        bytes_before(b, c),
    ensures
        bytes_before(a, c),
{
    let k1 = choose|k: int| parts_before_at(a, b, k);
    let k2 = choose|k: int| parts_before_at(b, c, k);
    let k = if k1 <= k2 { k1 } else { k2 };
    assert(parts_before_at(a, c, k));
}

/// User names with the same bytes are the same name.
proof fn lemma_same_bytes_same_name(a: Seq<char>, b: Seq<char>)
    requires
        encode_utf8(a) == encode_utf8(b),
    ensures
        a == b,
{
    encode_utf8_decode_utf8(a);
    encode_utf8_decode_utf8(b);
}

/// The order of user names is transitive.
pub(crate) proof fn lemma_name_before_transitive(a: Seq<char>, b: Seq<char>, c: Seq<char>)
    requires
        name_before(a, b),
        name_before(b, c),
    ensures
        name_before(a, c),
{
    lemma_before_transitive(encode_utf8(a), encode_utf8(b), encode_utf8(c));
}

/// No user name comes before itself.
pub(crate) proof fn lemma_name_before_irreflexive(a: Seq<char>)
    ensures
        !name_before(a, a),
{
}

/// Compares two user names byte by byte.
pub fn compare_names(a: &str, b: &str) -> (order: NameOrder)
    ensures
        order == NameOrder::Before ==> name_before(a@, b@),
        order == NameOrder::Same ==> a@ == b@,
        order == NameOrder::After ==> name_before(b@, a@),
{
    let x = a.as_bytes();
    let y = b.as_bytes();
    let mut i: usize = 0;
    while i < x.len() && i < y.len()
        invariant
            i <= x.len(),
            i <= y.len(),
            forall|j: int| 0 <= j < i ==> x@[j] == y@[j],
            x@ == encode_utf8(a@),
            y@ == encode_utf8(b@),
        decreases x.len() - i,
    {
        if x[i] < y[i] {
            assert(parts_before_at(x@, y@, i as int));
            return NameOrder::Before;
        }
        if x[i] > y[i] {
            assert(parts_before_at(y@, x@, i as int));
            return NameOrder::After;
        }
        i += 1;
    }
    if i < y.len() {
        assert(parts_before_at(x@, y@, i as int));
        NameOrder::Before
    } else if i < x.len() {
        assert(parts_before_at(y@, x@, i as int));
        NameOrder::After
    } else {
        assert(x@ =~= y@);
        proof {
            lemma_same_bytes_same_name(a@, b@);
        }
        NameOrder::Same
    }
}

} // verus!
