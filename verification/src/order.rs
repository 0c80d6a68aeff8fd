//! The order in which object keys are sorted: Rust's `str` order, which compares
//! the UTF-8 bytes of two keys lexicographically.
use vstd::prelude::*;
use vstd::utf8::*;

verus! {

/// Lexicographic order on byte strings; a proper prefix comes first.
pub open spec fn bytes_before(a: Seq<u8>, b: Seq<u8>) -> bool
    decreases a.len(),
{
    if a.len() == 0 {
        b.len() > 0
    } else if b.len() == 0 {
        false
    } else if a[0] != b[0] {
        a[0] < b[0]
    } else {
        bytes_before(a.drop_first(), b.drop_first())
    }
}

/// `a` sorts strictly before `b` when their UTF-8 encodings do.
pub open spec fn key_before(a: Seq<char>, b: Seq<char>) -> bool {
    bytes_before(encode_utf8(a), encode_utf8(b))
}

/// `x` and `y` have the same bytes at every position before `i`.
pub open spec fn same_before(x: Seq<u8>, y: Seq<u8>, i: int) -> bool {
    forall|j: int| 0 <= j < i && j < x.len() && j < y.len() ==> x[j] == y[j]
}

/// Lexicographic order on bytes, stated by positions: `x` is a proper prefix of `y`, or at
/// the first position where they differ the byte of `x` is smaller.
pub open spec fn lex_less(x: Seq<u8>, y: Seq<u8>) -> bool {
    ||| x.len() < y.len() && same_before(x, y, x.len() as int)
    ||| exists|i: int| 0 <= i < x.len() && i < y.len() && #[trigger] same_before(x, y, i) && x[i] < y[i]
}

/// `bytes_before` is the lexicographic order `lex_less`.
pub proof fn lemma_bytes_before_lex(x: Seq<u8>, y: Seq<u8>)
    ensures
        bytes_before(x, y) == lex_less(x, y),
    decreases x.len(),
{
    if x.len() == 0 {
        assert(same_before(x, y, 0));
    } else if y.len() == 0 {
    } else if x[0] != y[0] {
        assert(same_before(x, y, 0));
        if lex_less(x, y) {
            if x.len() < y.len() && same_before(x, y, x.len() as int) {
                assert(x[0] == y[0]);
            } else {
                let i: int = choose|i: int|
                    0 <= i < x.len() && i < y.len() && #[trigger] same_before(x, y, i) && x[i] < y[i];
                if i > 0 {
                    assert(x[0] == y[0]);
                }
            }
        }
    } else {
        let xs = x.drop_first();
        let ys = y.drop_first();
        lemma_bytes_before_lex(xs, ys);
        assert forall|i: int| 0 <= i implies (#[trigger] same_before(x, y, i + 1) <==> same_before(
            xs,
            ys,
            i,
        )) by {
            if same_before(x, y, i + 1) {
                assert forall|j: int| 0 <= j < i && j < xs.len() && j < ys.len() implies xs[j]
                    == ys[j] by {
                    assert(xs[j] == x[j + 1]);
                    assert(ys[j] == y[j + 1]);
                }
            }
            if same_before(xs, ys, i) {
                assert forall|j: int| 0 <= j < i + 1 && j < x.len() && j < y.len() implies x[j]
                    == y[j] by {
                    if j > 0 {
                        assert(xs[j - 1] == x[j]);
                        assert(ys[j - 1] == y[j]);
                    }
                }
            }
        }
        if lex_less(xs, ys) {
            if xs.len() < ys.len() && same_before(xs, ys, xs.len() as int) {
                assert(same_before(x, y, (xs.len() as int) + 1));
            } else {
                let i: int = choose|i: int|
                    0 <= i < xs.len() && i < ys.len() && #[trigger] same_before(xs, ys, i) && xs[i]
                        < ys[i];
                assert(same_before(x, y, i + 1));
                assert(x[i + 1] < y[i + 1]);
            }
        }
        if lex_less(x, y) {
            if x.len() < y.len() && same_before(x, y, x.len() as int) {
                assert(same_before(x, y, (xs.len() as int) + 1));
                assert(same_before(xs, ys, xs.len() as int));
            } else {
                let i: int = choose|i: int|
                    0 <= i < x.len() && i < y.len() && #[trigger] same_before(x, y, i) && x[i] < y[i];
                assert(i > 0);
                assert(same_before(x, y, (i - 1) + 1));
                assert(same_before(xs, ys, i - 1));
                assert(xs[i - 1] < ys[i - 1]);
            }
        }
    }
}

pub proof fn lemma_bytes_before_irreflexive(a: Seq<u8>)
    ensures
        !bytes_before(a, a),
    decreases a.len(),
{
    if a.len() > 0 {
        lemma_bytes_before_irreflexive(a.drop_first());
    }
}

pub proof fn lemma_bytes_before_asymmetric(a: Seq<u8>, b: Seq<u8>)
    requires
        bytes_before(a, b),
    ensures
        !bytes_before(b, a),
    decreases a.len(),
{
    if a.len() > 0 && b.len() > 0 && a[0] == b[0] {
        lemma_bytes_before_asymmetric(a.drop_first(), b.drop_first());
    }
}

pub proof fn lemma_bytes_before_transitive(a: Seq<u8>, b: Seq<u8>, c: Seq<u8>)
    requires
        bytes_before(a, b),
        bytes_before(b, c),
    ensures
        bytes_before(a, c),
    decreases a.len(),
{
    if a.len() > 0 && b.len() > 0 && c.len() > 0 && a[0] == b[0] && b[0] == c[0] {
        lemma_bytes_before_transitive(a.drop_first(), b.drop_first(), c.drop_first());
    }
}

pub proof fn lemma_bytes_before_total(a: Seq<u8>, b: Seq<u8>)
    requires
        a != b,
    ensures
        bytes_before(a, b) || bytes_before(b, a),
    decreases a.len(),
{
    if a.len() > 0 && b.len() > 0 && a[0] == b[0] {
        if a.drop_first() == b.drop_first() {
            assert(a =~= seq![a[0]] + a.drop_first());
            assert(b =~= seq![b[0]] + b.drop_first());
        }
        lemma_bytes_before_total(a.drop_first(), b.drop_first());
    } else if a.len() == 0 && b.len() == 0 {
        assert(a =~= b);
    }
}

/// Distinct strings have distinct UTF-8 encodings.
pub proof fn lemma_encode_injective(a: Seq<char>, b: Seq<char>)
    requires
        encode_utf8(a) == encode_utf8(b),
    ensures
        a == b,
{
    encode_utf8_decode_utf8(a);
    encode_utf8_decode_utf8(b);
}

pub proof fn lemma_key_before_irreflexive(a: Seq<char>)
    ensures
        !key_before(a, a),
{
    lemma_bytes_before_irreflexive(encode_utf8(a));
}

pub proof fn lemma_key_before_asymmetric(a: Seq<char>, b: Seq<char>)
    requires
        key_before(a, b),
    ensures
        !key_before(b, a),
        a != b,
{
    lemma_bytes_before_asymmetric(encode_utf8(a), encode_utf8(b));
    lemma_bytes_before_irreflexive(encode_utf8(a));
}

pub proof fn lemma_key_before_transitive(a: Seq<char>, b: Seq<char>, c: Seq<char>)
    requires
        key_before(a, b),
        key_before(b, c),
    ensures
        key_before(a, c),
{
    lemma_bytes_before_transitive(encode_utf8(a), encode_utf8(b), encode_utf8(c));
}

pub proof fn lemma_key_before_total(a: Seq<char>, b: Seq<char>)
    requires
        a != b,
    ensures
        key_before(a, b) || key_before(b, a),
{
    if encode_utf8(a) == encode_utf8(b) {
        lemma_encode_injective(a, b);
    }
    lemma_bytes_before_total(encode_utf8(a), encode_utf8(b));
}

proof fn lemma_bytes_before_skip(a: Seq<u8>, b: Seq<u8>, i: int)
    requires
        0 <= i <= a.len(),
        i <= b.len(),
        a.subrange(0, i) == b.subrange(0, i),
    ensures
        bytes_before(a, b) == bytes_before(a.skip(i), b.skip(i)),
    decreases i,
{
    if i > 0 {
        assert(a[0] == a.subrange(0, i)[0]);
        assert(b[0] == b.subrange(0, i)[0]);
        assert(a.drop_first().subrange(0, i - 1) =~= a.subrange(0, i).drop_first());
        assert(b.drop_first().subrange(0, i - 1) =~= b.subrange(0, i).drop_first());
        lemma_bytes_before_skip(a.drop_first(), b.drop_first(), i - 1);
        assert(a.drop_first().skip(i - 1) =~= a.skip(i));
        assert(b.drop_first().skip(i - 1) =~= b.skip(i));
    } else {
        assert(a.skip(0) =~= a);
        assert(b.skip(0) =~= b);
    }
}

/// Compares two keys in Rust's `str` order.
pub fn key_less(a: &str, b: &str) -> (r: bool)
    ensures
        r == key_before(a@, b@),
{
    let x = a.as_bytes();
    let y = b.as_bytes();
    let mut i: usize = 0;
    while i < x.len() && i < y.len()
        invariant
            x@ == encode_utf8(a@),
            y@ == encode_utf8(b@),
            i <= x@.len(),
            i <= y@.len(),
            x@.subrange(0, i as int) == y@.subrange(0, i as int),
        decreases x@.len() - i,
    {
        if x[i] != y[i] {
            proof {
                lemma_bytes_before_skip(x@, y@, i as int);
            }
            return x[i] < y[i];
        }
        assert(x@.subrange(0, i + 1) =~= x@.subrange(0, i as int).push(x@[i as int]));
        assert(y@.subrange(0, i + 1) =~= y@.subrange(0, i as int).push(y@[i as int]));
        i = i + 1;
    }
    proof {
        lemma_bytes_before_skip(x@, y@, i as int);
    }
    i == x.len() && i < y.len()
}

/// Compares two strings for equality, character by character.
pub fn text_eq(a: &str, b: &str) -> (r: bool)
    ensures
        r == (a@ == b@),
{
    let x = a.as_bytes();
    let y = b.as_bytes();
    if x.len() != y.len() {
        return false;
    }
    let mut i: usize = 0;
    while i < x.len()
        invariant
            x@ == encode_utf8(a@),
            y@ == encode_utf8(b@),
            x@.len() == y@.len(),
            i <= x@.len(),
            forall|k: int| 0 <= k < i ==> x@[k] == y@[k],
        decreases x@.len() - i,
    {
        if x[i] != y[i] {
            return false;
        }
        i = i + 1;
    }
    proof {
        assert(x@ =~= y@);
        lemma_encode_injective(a@, b@);
    }
    true
}

} // verus!
