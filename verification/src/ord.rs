//! The canonical ordering of encoded values.
use crate::encode::{lemma_unit_length, spec_encode_unit, spec_encoding_len, EncodeValue};
use crate::error::Error;
use crate::header::{lemma_header_bytes_prefix_free, spec_header_bytes, Header};
use crate::tag::Tagged;
use vstd::prelude::*;

verus! {

/// The result of a comparison.
#[derive(Clone, Copy, Debug, PartialEq, Eq, Structural)]
pub enum Order {
    Less,
    Equal,
    Greater,
}

/// The lexicographic order of byte strings: the first differing byte
/// decides, and a proper prefix comes before what it is a prefix of.
pub open spec fn spec_bytes_order(a: Seq<u8>, b: Seq<u8>) -> Order
    decreases a.len(),
{
    if a.len() == 0 {
        if b.len() == 0 {
            Order::Equal
        } else {
            Order::Less
        }
    } else if b.len() == 0 {
        Order::Greater
    } else if a[0] < b[0] {
        Order::Less
    } else if a[0] > b[0] {
        Order::Greater
    } else {
        spec_bytes_order(a.skip(1), b.skip(1))
    }
}

/// Two byte strings compare equal exactly when they are the same.
pub proof fn lemma_bytes_order_equal(a: Seq<u8>, b: Seq<u8>)
    ensures
        spec_bytes_order(a, b) == Order::Equal <==> a == b,
    decreases a.len(),
{
    if a.len() > 0 && b.len() > 0 && a[0] == b[0] {
        lemma_bytes_order_equal(a.skip(1), b.skip(1));
        if a.skip(1) == b.skip(1) {
            assert(a =~= seq![a[0]] + a.skip(1));
            assert(b =~= seq![b[0]] + b.skip(1));
        }
        if a == b {
            assert(a.skip(1) == b.skip(1));
        }
    } else if a.len() == 0 && b.len() == 0 {
        assert(a =~= b);
    }
}

/// Swapping the sides of a comparison swaps `Less` and `Greater`.
pub proof fn lemma_bytes_order_antisymmetric(a: Seq<u8>, b: Seq<u8>)
    ensures
        spec_bytes_order(a, b) == Order::Less <==> spec_bytes_order(b, a) == Order::Greater,
        spec_bytes_order(a, b) == Order::Greater <==> spec_bytes_order(b, a) == Order::Less,
        spec_bytes_order(a, b) == Order::Equal <==> spec_bytes_order(b, a) == Order::Equal,
    decreases a.len(),
{
    if a.len() > 0 && b.len() > 0 && a[0] == b[0] {
        lemma_bytes_order_antisymmetric(a.skip(1), b.skip(1));
    }
}

/// What is less than something less than `c` is less than `c`.
pub proof fn lemma_bytes_order_transitive(a: Seq<u8>, b: Seq<u8>, c: Seq<u8>)
    requires
        spec_bytes_order(a, b) == Order::Less,
        spec_bytes_order(b, c) == Order::Less,
    ensures
        spec_bytes_order(a, c) == Order::Less,
    decreases a.len(),
{
    if a.len() > 0 && b.len() > 0 && c.len() > 0 && a[0] == b[0] && b[0] == c[0] {
        lemma_bytes_order_transitive(a.skip(1), b.skip(1), c.skip(1));
    }
}

/// The lexicographic order is a strict total order: of two different byte
/// strings exactly one is less than the other, none is less than itself, and
/// being less is transitive.
pub proof fn lemma_bytes_order_strict_total(a: Seq<u8>, b: Seq<u8>, c: Seq<u8>)
    ensures
        spec_bytes_order(a, a) != Order::Less,
        a != b ==> (spec_bytes_order(a, b) == Order::Less) != (spec_bytes_order(b, a) == Order::Less),
        a == b ==> spec_bytes_order(a, b) == Order::Equal,
        spec_bytes_order(a, b) == Order::Less && spec_bytes_order(b, c) == Order::Less
            ==> spec_bytes_order(a, c) == Order::Less,
{
    lemma_bytes_order_equal(a, a);
    lemma_bytes_order_equal(a, b);
    lemma_bytes_order_antisymmetric(a, b);
    if spec_bytes_order(a, b) == Order::Less && spec_bytes_order(b, c) == Order::Less {
        lemma_bytes_order_transitive(a, b, c);
    }
}

/// Comparing after a common prefix: the prefix does not matter.
pub proof fn lemma_bytes_order_common_prefix(p: Seq<u8>, a: Seq<u8>, b: Seq<u8>)
    ensures
        spec_bytes_order(p + a, p + b) == spec_bytes_order(a, b),
    decreases p.len(),
{
    if p.len() == 0 {
        assert(p + a =~= a);
        assert(p + b =~= b);
    } else {
        assert((p + a).skip(1) =~= p.skip(1) + a);
        assert((p + b).skip(1) =~= p.skip(1) + b);
        lemma_bytes_order_common_prefix(p.skip(1), a, b);
    }
}

/// Where neither of two byte strings is the beginning of the other, their
/// order is decided within them: what follows either does not matter.
pub proof fn lemma_bytes_order_decided_inside(x: Seq<u8>, y: Seq<u8>, u: Seq<u8>, v: Seq<u8>)
    requires
        !x.is_prefix_of(y),
        !y.is_prefix_of(x),
    ensures
        spec_bytes_order(x + u, y + v) == spec_bytes_order(x, y),
        spec_bytes_order(x, y) != Order::Equal,
    decreases x.len(),
{
    if x.len() == 0 {
        assert(x.is_prefix_of(y));
    } else if y.len() == 0 {
        assert(y.is_prefix_of(x));
    } else if x[0] == y[0] {
        let x1 = x.skip(1);
        let y1 = y.skip(1);
        assert((x + u).skip(1) =~= x1 + u);
        assert((y + v).skip(1) =~= y1 + v);
        if x1.is_prefix_of(y1) {
            assert(x =~= y.subrange(0, x.len() as int)) by {
                assert forall|i: int| 0 <= i < x.len() implies x[i] == y.subrange(0, x.len() as int)[i] by {
                    if i > 0 {
                        assert(x1[i - 1] == y1.subrange(0, x1.len() as int)[i - 1]);
                    }
                }
            }
            assert(x.is_prefix_of(y));
        }
        if y1.is_prefix_of(x1) {
            assert(y =~= x.subrange(0, y.len() as int)) by {
                assert forall|i: int| 0 <= i < y.len() implies y[i] == x.subrange(0, y.len() as int)[i] by {
                    if i > 0 {
                        assert(y1[i - 1] == x1.subrange(0, y1.len() as int)[i - 1]);
                    }
                }
            }
            assert(y.is_prefix_of(x));
        }
        lemma_bytes_order_decided_inside(x1, y1, u, v);
    }
}

/// Compares two byte strings lexicographically.
pub fn bytes_order(a: &[u8], b: &[u8]) -> (o: Order)
    ensures
        o == spec_bytes_order(a@, b@),
{
    let mut i: usize = 0;
    assert(a@.skip(0) =~= a@ && b@.skip(0) =~= b@);
    while i < a.len() && i < b.len()
        invariant
            i <= a@.len(),
            i <= b@.len(),
            spec_bytes_order(a@, b@) == spec_bytes_order(a@.skip(i as int), b@.skip(i as int)),
        decreases a@.len() - i,
    {
        if a[i] < b[i] {
            return Order::Less;
        }
        if a[i] > b[i] {
            return Order::Greater;
        }
        proof {
            assert(a@.skip(i as int).skip(1) =~= a@.skip(i + 1));
            assert(b@.skip(i as int).skip(1) =~= b@.skip(i + 1));
        }
        i = i + 1;
    }
    if i < b.len() {
        Order::Less
    } else if i < a.len() {
        Order::Greater
    } else {
        Order::Equal
    }
}

/// The order of two results of encoding: that of the byte strings, where
/// both are there; else the first error.
pub open spec fn spec_encoding_order(a: Result<Seq<u8>, Error>, b: Result<Seq<u8>, Error>) -> Result<
    Order,
    Error,
> {
    match a {
        Err(e) => Err(e),
        Ok(x) => match b {
            Err(e) => Err(e),
            Ok(y) => Ok(spec_bytes_order(x, y)),
        },
    }
}

/// Types whose values are ordered by their content.
pub trait ValueOrd: View {
    /// The order of the values that `a` and `b` model, by content alone.
    spec fn spec_value_cmp(a: Self::V, b: Self::V) -> Result<Order, Error>;

    /// Compares the content of this value with that of `other`.
    fn value_cmp(&self, other: &Self) -> (r: Result<Order, Error>)
        ensures
            r == Self::spec_value_cmp(self@, other@),
    ;
}

/// Types whose values are ordered as their encodings are.
pub trait DerOrd: View {
    /// The order of the values that `a` and `b` model.
    spec fn spec_der_cmp(a: Self::V, b: Self::V) -> Result<Order, Error>;

    /// Compares this value with `other`.
    fn der_cmp(&self, other: &Self) -> (r: Result<Order, Error>)
        ensures
            r == Self::spec_der_cmp(self@, other@),
    ;
}

/// The header of a value, made of its tag and the length of its content.
pub open spec fn spec_header_of<T: EncodeValue + Tagged>(v: T::V) -> Result<Header, Error> {
    match spec_encoding_len(T::spec_encode_value(v)) {
        Err(e) => Err(e),
        Ok(length) => Ok(Header { tag: T::spec_tag(v), length }),
    }
}

/// The order of two headers: that of their encodings.
pub open spec fn spec_header_order(a: Header, b: Header) -> Result<Order, Error> {
    spec_encoding_order(spec_header_bytes(a), spec_header_bytes(b))
}

/// Headers first, then content: the order that a value type without an
/// order of its own for whole values gets.
pub open spec fn spec_header_then_value<T: EncodeValue + ValueOrd + Tagged>(a: T::V, b: T::V) -> Result<
    Order,
    Error,
> {
    match spec_header_of::<T>(a) {
        Err(e) => Err(e),
        Ok(ha) => match spec_header_of::<T>(b) {
            Err(e) => Err(e),
            Ok(hb) => match spec_header_order(ha, hb) {
                Err(e) => Err(e),
                Ok(Order::Equal) => T::spec_value_cmp(a, b),
                Ok(o) => Ok(o),
            },
        },
    }
}

impl Header {
    /// Compares the encodings of two headers.
    pub fn der_cmp(&self, other: &Header) -> (r: Result<Order, Error>)
        ensures
            r == spec_header_order(*self, *other),
    {
        let mut mine: Vec<u8> = Vec::new();
        self.encode(&mut mine)?;
        let mut theirs: Vec<u8> = Vec::new();
        other.encode(&mut theirs)?;
        assert(mine@ =~= spec_header_bytes(*self)->Ok_0);
        assert(theirs@ =~= spec_header_bytes(*other)->Ok_0);
        Ok(bytes_order(mine.as_slice(), theirs.as_slice()))
    }
}

impl<T: EncodeValue + ValueOrd + Tagged> DerOrd for T {
    open spec fn spec_der_cmp(a: Self::V, b: Self::V) -> Result<Order, Error> {
        spec_header_then_value::<T>(a, b)
    }

    fn der_cmp(&self, other: &Self) -> (r: Result<Order, Error>) {
        let mine = Header::new(self.tag(), self.value_len()?);
        let theirs = Header::new(other.tag(), other.value_len()?);
        match mine.der_cmp(&theirs)? {
            Order::Equal => self.value_cmp(other),
            o => Ok(o),
        }
    }
}

/// The complete encoding of a value: its header, then its content.
pub open spec fn spec_encoding_of<T: EncodeValue + Tagged>(v: T::V) -> Result<Seq<u8>, Error> {
    spec_encode_unit(T::spec_tag(v), T::spec_encode_value(v))
}

/// Headers first, then content, is the order of the complete encodings:
/// where a type orders contents as byte strings, its values are ordered as
/// their encodings are.
pub proof fn lemma_der_order_is_bytes_order<T: EncodeValue + ValueOrd + Tagged>(a: T::V, b: T::V)
    requires
        spec_encoding_of::<T>(a) is Ok,
        spec_encoding_of::<T>(b) is Ok,
        T::spec_value_cmp(a, b) == Ok::<Order, Error>(
            spec_bytes_order(T::spec_encode_value(a)->Ok_0, T::spec_encode_value(b)->Ok_0),
        ),
    ensures
        T::spec_der_cmp(a, b) == Ok::<Order, Error>(
            spec_bytes_order(spec_encoding_of::<T>(a)->Ok_0, spec_encoding_of::<T>(b)->Ok_0),
        ),
{
    lemma_unit_length(T::spec_tag(a), T::spec_encode_value(a));
    lemma_unit_length(T::spec_tag(b), T::spec_encode_value(b));
    let ha = spec_header_of::<T>(a)->Ok_0;
    let hb = spec_header_of::<T>(b)->Ok_0;
    let x = spec_header_bytes(ha)->Ok_0;
    let y = spec_header_bytes(hb)->Ok_0;
    let u = T::spec_encode_value(a)->Ok_0;
    let v = T::spec_encode_value(b)->Ok_0;
    assert(spec_encoding_of::<T>(a)->Ok_0 == x + u);
    assert(spec_encoding_of::<T>(b)->Ok_0 == y + v);
    lemma_bytes_order_equal(x, y);
    if x == y {
        lemma_bytes_order_common_prefix(x, u, v);
    } else {
        if x.is_prefix_of(y) {
            lemma_header_bytes_prefix_free(ha, hb);
        }
        if y.is_prefix_of(x) {
            lemma_header_bytes_prefix_free(hb, ha);
        }
        lemma_bytes_order_decided_inside(x, y, u, v);
    }
}

} // verus!
