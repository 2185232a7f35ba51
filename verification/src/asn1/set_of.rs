//! SET OF: values of one type in strictly increasing canonical order.
use crate::decode::{Decode, DecodeValue};
use crate::encode::{Encode, EncodeValue};
use crate::error::Error;
use crate::header::Header;
use crate::length::{spec_length_of, Length, MAX_LENGTH};
use crate::ord::{DerOrd, Order};
use crate::reader::SliceReader;
use crate::tag::{FixedTag, Tag};
use vstd::prelude::*;

verus! {

/// A set of at most `N` values.
///
/// Its view is the sequence of the views of its elements. Decoding accepts
/// elements in strictly increasing canonical order only, and
/// [`insert`](SetOf::insert) puts an element before the first that is
/// greater.
#[derive(Debug, PartialEq, Eq)]
pub struct SetOf<T, const N: usize> {
    inner: Vec<T>,
}

/// The views of the elements of `s`, in order.
pub open spec fn spec_views<T: View>(s: Seq<T>) -> Seq<T::V> {
    Seq::new(s.len(), |i: int| s[i]@)
}

impl<T: View, const N: usize> View for SetOf<T, N> {
    type V = Seq<T::V>;

    closed spec fn view(&self) -> Seq<T::V> {
        spec_views(self.inner@)
    }
}

/// The canonical order of two elements.
pub open spec fn spec_element_order<T: DerOrd>(a: T::V, b: T::V) -> Result<Order, Error> {
    T::spec_der_cmp(a, b)
}

/// Compares two elements in the canonical order.
fn element_order<T: DerOrd>(a: &T, b: &T) -> (r: Result<Order, Error>)
    ensures
        r == spec_element_order::<T>(a@, b@),
{
    a.der_cmp(b)
}

/// Whether `v` may come after `prev` in a set: there is nothing before it,
/// or what is before it is less.
pub open spec fn spec_follows<T: DerOrd>(prev: Option<T::V>, v: T::V) -> Result<bool, Error> {
    match prev {
        None => Ok(true),
        Some(p) => match spec_element_order::<T>(p, v) {
            Err(e) => Err(e),
            Ok(o) => Ok(o == Order::Less),
        },
    }
}

/// Puts `head` in front of a sequence that may have failed to come about.
pub open spec fn spec_prepend<V>(head: Seq<V>, tail: Result<Seq<V>, Error>) -> Result<Seq<V>, Error> {
    match tail {
        Err(e) => Err(e),
        Ok(t) => Ok(head + t),
    }
}

/// Parses all of `s` as the elements of a set of at most `cap` elements, of
/// which `count` were found before, the last of them `prev`.
///
/// Each element is one complete unit. An element beyond the capacity is a
/// `LengthOverflow`; one that is not greater than the one before it is
/// `InvalidContent` for the set. An element type whose units occupy no
/// bytes would never come to an end: such a unit is a `TruncatedInput`.
pub open spec fn spec_decode_elements<'a, T: Decode<'a> + DerOrd>(
    s: Seq<u8>,
    prev: Option<T::V>,
    count: nat,
    cap: nat,
) -> Result<Seq<T::V>, Error>
    decreases s.len(),
{
    if s.len() == 0 {
        Ok(Seq::empty())
    } else {
        match T::spec_decode(s) {
            Err(e) => Err(e),
            Ok((v, n)) => if n == 0 || n > s.len() {
                Err(Error::TruncatedInput)
            } else if count >= cap {
                Err(Error::LengthOverflow)
            } else {
                match spec_follows::<T>(prev, v) {
                    Err(e) => Err(e),
                    Ok(false) => Err(Error::InvalidContent { tag: Tag::set() }),
                    Ok(true) => spec_prepend(
                        seq![v],
                        spec_decode_elements::<T>(s.skip(n as int), Some(v), count + 1, cap),
                    ),
                }
            },
        }
    }
}

/// The concatenated encodings of the elements of `s`. The first element
/// that fails to encode fails the whole, and so does the first at which the
/// encodings so far are too long to have a length.
pub open spec fn spec_encode_elements<T: Encode>(s: Seq<T::V>) -> Result<Seq<u8>, Error>
    decreases s.len(),
{
    if s.len() == 0 {
        Ok(Seq::empty())
    } else {
        match spec_encode_elements::<T>(s.drop_last()) {
            Err(e) => Err(e),
            Ok(before) => match T::spec_encode(s.last()) {
                Err(e) => Err(e),
                Ok(bytes) => if before.len() + bytes.len() > MAX_LENGTH {
                    Err(Error::LengthOverflow)
                } else {
                    Ok(before + bytes)
                },
            },
        }
    }
}

/// Inserts `item` into `s` before the first element that is greater. An
/// element equal to `item` makes it `InvalidContent` for the set.
pub open spec fn spec_insert_sorted<T: DerOrd>(s: Seq<T::V>, item: T::V) -> Result<Seq<T::V>, Error>
    decreases s.len(),
{
    if s.len() == 0 {
        Ok(seq![item])
    } else {
        match spec_element_order::<T>(item, s[0]) {
            Err(e) => Err(e),
            Ok(Order::Less) => Ok(seq![item] + s),
            Ok(Order::Equal) => Err(Error::InvalidContent { tag: Tag::set() }),
            Ok(Order::Greater) => spec_prepend(seq![s[0]], spec_insert_sorted::<T>(s.skip(1), item)),
        }
    }
}

/// What inserting `item` into a set of capacity `cap` with elements `s`
/// gives: a full set is a `LengthOverflow`.
pub open spec fn spec_set_insert<T: DerOrd>(s: Seq<T::V>, item: T::V, cap: nat) -> Result<
    Seq<T::V>,
    Error,
> {
    if s.len() >= cap {
        Err(Error::LengthOverflow)
    } else {
        spec_insert_sorted::<T>(s, item)
    }
}

impl<T, const N: usize> SetOf<T, N> {
    #[verifier::type_invariant]
    closed spec fn wf(self) -> bool {
        self.inner@.len() <= N
    }

    /// The empty set.
    pub fn new() -> (set: Self) where T: View
        ensures
            set@ == Seq::<T::V>::empty(),
    {
        let set = SetOf { inner: Vec::new() };
        assert(set@ =~= Seq::<T::V>::empty());
        set
    }

    /// The number of elements.
    pub fn len(&self) -> (n: usize) where T: View
        ensures
            n == self@.len(),
            n <= N,
    {
        proof {
            use_type_invariant(self);
        }
        self.inner.len()
    }

    /// Whether the set has no elements.
    pub fn is_empty(&self) -> (b: bool) where T: View
        ensures
            b == (self@.len() == 0),
    {
        self.inner.len() == 0
    }

    /// The element at `index`, if there is one.
    pub fn get(&self, index: usize) -> (r: Option<&T>) where T: View
        ensures
            match r {
                Some(item) => index < self@.len() && item@ == self@[index as int],
                None => index >= self@.len(),
            },
    {
        if index < self.inner.len() {
            Some(&self.inner[index])
        } else {
            None
        }
    }

    /// Inserts `item` at its place in the canonical order. On failure the
    /// set is as it was.
    pub fn insert(&mut self, item: T) -> (r: Result<(), Error>) where T: DerOrd
        ensures
            match spec_set_insert::<T>(old(self)@, item@, N as nat) {
                Ok(s) => r is Ok && final(self)@ == s,
                Err(e) => r matches Err(x) && x == e && final(self)@ == old(self)@,
            },
    {
        proof {
            use_type_invariant(&*self);
        }
        if self.inner.len() >= N {
            return Err(Error::LengthOverflow);
        }
        let ghost items = self@;
        let mut i: usize = 0;
        assert(items.take(0) + items.skip(0) =~= items);
        assert(items.skip(0) =~= items);
        assert(items.take(0) =~= Seq::<T::V>::empty());
        let mut found = false;
        while !found && i < self.inner.len()
            invariant
                i <= self.inner@.len() < N,
                *self == *old(self),
                items == self@,
                spec_insert_sorted::<T>(items, item@) == spec_prepend(
                    items.take(i as int),
                    spec_insert_sorted::<T>(items.skip(i as int), item@),
                ),
                found ==> i < items.len() && spec_element_order::<T>(item@, items[i as int]) == Ok::<
                    Order,
                    Error,
                >(Order::Less),
            decreases self.inner@.len() - i + (if found { 0int } else { 1int }),
        {
            let ghost tail = items.skip(i as int);
            assert(tail[0] == self.inner@[i as int]@);
            match element_order(&item, &self.inner[i]) {
                Err(e) => {
                    return Err(e);
                },
                Ok(Order::Less) => {
                    found = true;
                },
                Ok(Order::Equal) => {
                    return Err(Error::InvalidContent { tag: Tag::set() });
                },
                Ok(Order::Greater) => {
                    proof {
                        assert(items.take(i + 1) =~= items.take(i as int) + seq![tail[0]]);
                        assert(tail.skip(1) =~= items.skip(i + 1));
                        let rest = spec_insert_sorted::<T>(tail.skip(1), item@);
                        if let Ok(t) = rest {
                            assert(items.take(i as int) + (seq![tail[0]] + t) =~= items.take(i + 1) + t);
                        }
                    }
                    i = i + 1;
                },
            }
        }
        proof {
            let tail = items.skip(i as int);
            if i < items.len() {
                assert(tail[0] == items[i as int]);
            } else {
                assert(seq![item@] + tail =~= seq![item@]);
            }
            assert(spec_insert_sorted::<T>(tail, item@) == Ok::<Seq<T::V>, Error>(seq![item@] + tail));
            assert(spec_views(self.inner@.insert(i as int, item)) =~= items.take(i as int) + (seq![item@]
                + tail));
        }
        let mut inner: Vec<T> = Vec::new();
        core::mem::swap(&mut inner, &mut self.inner);
        inner.insert(i, item);
        *self = SetOf { inner };
        Ok(())
    }
}

impl<'a, T: Decode<'a> + DerOrd, const N: usize> DecodeValue<'a> for SetOf<T, N> {
    /// The elements take up all of the input: a set is only ever decoded in
    /// a region bounded to its length.
    open spec fn spec_decode_value(header: Header, s: Seq<u8>) -> Result<(Self::V, nat), Error> {
        match spec_decode_elements::<T>(s, None, 0, N as nat) {
            Err(e) => Err(e),
            Ok(v) => Ok((v, s.len())),
        }
    }

    fn decode_value(reader: &mut SliceReader<'a>, header: Header) -> (r: Result<Self, Error>) {
        let mut inner: Vec<T> = Vec::new();
        let ghost start = *reader;
        proof {
            use_type_invariant(&*reader);
            assert(spec_views(inner@) =~= Seq::<T::V>::empty());
            let whole = spec_decode_elements::<T>(start@, None, 0, N as nat);
            if let Ok(t) = whole {
                assert(Seq::<T::V>::empty() + t =~= t);
            }
        }
        while !reader.is_finished()
            invariant
                start == *old(reader),
                reader.not_behind(start),
                inner@.len() <= N,
                spec_decode_elements::<T>(start@, None, 0, N as nat) == spec_prepend(
                    spec_views(inner@),
                    spec_decode_elements::<T>(
                        reader@,
                        if inner@.len() == 0 {
                            None
                        } else {
                            Some(inner@.last()@)
                        },
                        inner@.len(),
                        N as nat,
                    ),
                ),
            decreases reader@.len(),
        {
            let ghost before = *reader;
            let ghost found = spec_views(inner@);
            let left = reader.remaining_len();
            let item = T::decode(reader)?;
            proof {
                let n = T::spec_decode(before@)->Ok_0.1;
                reader.lemma_advanced_view(before, n);
            }
            if reader.remaining_len().0 >= left.0 {
                return Err(Error::TruncatedInput);
            }
            if inner.len() >= N {
                return Err(Error::LengthOverflow);
            }
            if inner.len() > 0 {
                match element_order(&inner[inner.len() - 1], &item) {
                    Err(e) => {
                        return Err(e);
                    },
                    Ok(Order::Less) => {},
                    Ok(_) => {
                        return Err(Error::InvalidContent { tag: Tag::set() });
                    },
                }
            }
            proof {
                let rest = spec_decode_elements::<T>(reader@, Some(item@), inner@.len() + 1, N as nat);
                assert(spec_views(inner@.push(item)) =~= found + seq![item@]);
                if let Ok(t) = rest {
                    assert(found + (seq![item@] + t) =~= (found + seq![item@]) + t);
                }
            }
            inner.push(item);
        }
        proof {
            let found = spec_views(inner@);
            assert(found + Seq::<T::V>::empty() =~= found);
            assert(reader@.len() == 0);
            assert(start@.len() == reader.offset() - start.offset());
        }
        Ok(SetOf { inner })
    }
}

impl<T: Encode, const N: usize> EncodeValue for SetOf<T, N> {
    open spec fn spec_encode_value(v: Self::V) -> Result<Seq<u8>, Error> {
        spec_encode_elements::<T>(v)
    }

    fn value_len(&self) -> (r: Result<Length, Error>) {
        let mut total = Length::zero();
        let mut i: usize = 0;
        let ghost items = self@;
        assert(items.take(0) =~= Seq::<T::V>::empty());
        while i < self.inner.len()
            invariant
                i <= self.inner@.len(),
                items == self@,
                total.wf(),
                spec_encode_elements::<T>(items.take(i as int)) matches Ok(b) && b.len() == total.0,
            decreases self.inner@.len() - i,
        {
            proof {
                let next = items.take(i + 1);
                assert(next.drop_last() =~= items.take(i as int));
                assert(next.last() == self.inner@[i as int]@);
                lemma_encode_elements_prefix::<T>(items, i + 1);
            }
            let len = self.inner[i].encoded_len()?;
            total = total.checked_add(len)?;
            i = i + 1;
        }
        assert(items.take(i as int) =~= items);
        Ok(total)
    }

    fn encode_value(&self, out: &mut Vec<u8>) -> (r: Result<(), Error>) {
        let _ = self.value_len()?;
        let mut i: usize = 0;
        let ghost items = self@;
        assert(items.take(0) =~= Seq::<T::V>::empty());
        assert(out@ + Seq::<u8>::empty() =~= out@);
        while i < self.inner.len()
            invariant
                i <= self.inner@.len(),
                items == self@,
                spec_encode_elements::<T>(items) is Ok,
                spec_encode_elements::<T>(items.take(i as int)) matches Ok(b) && out@ == old(out)@ + b,
            decreases self.inner@.len() - i,
        {
            proof {
                let next = items.take(i + 1);
                assert(next.drop_last() =~= items.take(i as int));
                assert(next.last() == self.inner@[i as int]@);
                lemma_encode_elements_prefix::<T>(items, i + 1);
            }
            let ghost mid = out@;
            match self.inner[i].encode(out) {
                Ok(()) => {},
                Err(e) => {
                    return Err(e);
                },
            }
            proof {
                let b = spec_encode_elements::<T>(items.take(i as int))->Ok_0;
                let e = T::spec_encode(items[i as int])->Ok_0;
                assert(mid + e =~= old(out)@ + (b + e));
            }
            i = i + 1;
        }
        assert(items.take(i as int) =~= items);
        Ok(())
    }
}

/// Whether each element of `s` is less than the one after it.
pub open spec fn spec_strictly_increasing<T: DerOrd>(s: Seq<T::V>) -> bool {
    forall|i: int|
        0 <= i < s.len() - 1 ==> #[trigger] spec_element_order::<T>(s[i], s[i + 1]) == Ok::<Order, Error>(
            Order::Less,
        )
}

/// What is accepted as the elements of a set is strictly increasing, comes
/// after what was found before, and fits the capacity.
pub proof fn lemma_decoded_elements_increasing<'a, T: Decode<'a> + DerOrd>(
    s: Seq<u8>,
    prev: Option<T::V>,
    count: nat,
    cap: nat,
)
    requires
        spec_decode_elements::<T>(s, prev, count, cap) is Ok,
    ensures
        spec_strictly_increasing::<T>(spec_decode_elements::<T>(s, prev, count, cap)->Ok_0),
        count + spec_decode_elements::<T>(s, prev, count, cap)->Ok_0.len() <= cap || s.len() == 0,
        spec_decode_elements::<T>(s, prev, count, cap)->Ok_0.len() > 0 ==> spec_follows::<T>(
            prev,
            spec_decode_elements::<T>(s, prev, count, cap)->Ok_0[0],
        ) == Ok::<bool, Error>(true),
    decreases s.len(),
{
    if s.len() > 0 {
        let (v, n) = T::spec_decode(s)->Ok_0;
        let rest = spec_decode_elements::<T>(s.skip(n as int), Some(v), count + 1, cap)->Ok_0;
        lemma_decoded_elements_increasing::<T>(s.skip(n as int), Some(v), count + 1, cap);
        let all = seq![v] + rest;
        assert forall|i: int| 0 <= i < all.len() - 1 implies #[trigger] spec_element_order::<T>(
            all[i],
            all[i + 1],
        ) == Ok::<Order, Error>(Order::Less) by {
            if i > 0 {
                assert(all[i] == rest[i - 1] && all[i + 1] == rest[i]);
                assert(spec_element_order::<T>(rest[i - 1], rest[i - 1 + 1]) == Ok::<Order, Error>(
                    Order::Less,
                ));
            } else {
                assert(all[0] == v && all[1] == rest[0]);
                assert(spec_follows::<T>(Some(v), rest[0]) == Ok::<bool, Error>(true));
            }
        }
        assert(all[0] == v);
    }
}

/// Insertion keeps a set strictly increasing, wherever the element that is
/// greater than another has that other less than itself.
pub proof fn lemma_insert_sorted_increasing<T: DerOrd>(s: Seq<T::V>, item: T::V)
    requires
        spec_strictly_increasing::<T>(s),
        spec_insert_sorted::<T>(s, item) is Ok,
        forall|i: int|
            0 <= i < s.len() && #[trigger] spec_element_order::<T>(item, s[i]) == Ok::<Order, Error>(
                Order::Greater,
            ) ==> spec_element_order::<T>(s[i], item) == Ok::<Order, Error>(Order::Less),
    ensures
        spec_strictly_increasing::<T>(spec_insert_sorted::<T>(s, item)->Ok_0),
        spec_insert_sorted::<T>(s, item)->Ok_0.len() == s.len() + 1,
        s.len() > 0 ==> spec_insert_sorted::<T>(s, item)->Ok_0[0] == (if spec_element_order::<T>(
            item,
            s[0],
        ) == Ok::<Order, Error>(Order::Less) {
            item
        } else {
            s[0]
        }),
        s.len() == 0 ==> spec_insert_sorted::<T>(s, item)->Ok_0[0] == item,
    decreases s.len(),
{
    let r = spec_insert_sorted::<T>(s, item)->Ok_0;
    if s.len() > 0 {
        if spec_element_order::<T>(item, s[0]) == Ok::<Order, Error>(Order::Less) {
            assert forall|i: int| 0 <= i < r.len() - 1 implies #[trigger] spec_element_order::<T>(
                r[i],
                r[i + 1],
            ) == Ok::<Order, Error>(Order::Less) by {
                if i > 0 {
                    assert(r[i] == s[i - 1] && r[i + 1] == s[i]);
                    assert(spec_element_order::<T>(s[i - 1], s[i - 1 + 1]) == Ok::<Order, Error>(
                        Order::Less,
                    ));
                }
            }
        } else {
            let tail = s.skip(1);
            assert forall|i: int| 0 <= i < tail.len() - 1 implies #[trigger] spec_element_order::<T>(
                tail[i],
                tail[i + 1],
            ) == Ok::<Order, Error>(Order::Less) by {
                assert(spec_element_order::<T>(s[i + 1], s[i + 1 + 1]) == Ok::<Order, Error>(Order::Less));
            }
            assert forall|i: int|
                0 <= i < tail.len() && #[trigger] spec_element_order::<T>(item, tail[i]) == Ok::<
                    Order,
                    Error,
                >(Order::Greater) implies spec_element_order::<T>(tail[i], item) == Ok::<Order, Error>(
                Order::Less,
            ) by {
                assert(tail[i] == s[i + 1]);
            }
            lemma_insert_sorted_increasing::<T>(tail, item);
            let rest = spec_insert_sorted::<T>(tail, item)->Ok_0;
            assert(r == seq![s[0]] + rest);
            assert forall|i: int| 0 <= i < r.len() - 1 implies #[trigger] spec_element_order::<T>(
                r[i],
                r[i + 1],
            ) == Ok::<Order, Error>(Order::Less) by {
                if i > 0 {
                    assert(r[i] == rest[i - 1] && r[i + 1] == rest[i]);
                    assert(spec_element_order::<T>(rest[i - 1], rest[i - 1 + 1]) == Ok::<Order, Error>(
                        Order::Less,
                    ));
                } else {
                    assert(r[0] == s[0] && r[1] == rest[0]);
                    if tail.len() > 0 && spec_element_order::<T>(item, tail[0]) != Ok::<Order, Error>(
                        Order::Less,
                    ) {
                        assert(rest[0] == tail[0]);
                        assert(spec_element_order::<T>(s[0int], s[0int + 1]) == Ok::<Order, Error>(Order::Less));
                    } else {
                        assert(rest[0] == item);
                        assert(spec_element_order::<T>(item, s[0]) == Ok::<Order, Error>(Order::Greater));
                    }
                }
            }
        }
    }
}

/// If all the elements encode, so does every prefix of them.
pub proof fn lemma_encode_elements_prefix<T: Encode>(s: Seq<T::V>, n: int)
    requires
        0 <= n <= s.len(),
    ensures
        spec_encode_elements::<T>(s) is Ok ==> spec_encode_elements::<T>(s.take(n)) is Ok,
        spec_encode_elements::<T>(s.take(n)) matches Err(e) ==> spec_encode_elements::<T>(s) == Err::<
            Seq<u8>,
            Error,
        >(e),
    decreases s.len(),
{
    if n == s.len() {
        assert(s.take(n) =~= s);
    } else {
        assert(s.drop_last().take(n) =~= s.take(n));
        lemma_encode_elements_prefix::<T>(s.drop_last(), n);
    }
}

impl<T: View, const N: usize> FixedTag for SetOf<T, N> {
    open spec fn spec_fixed_tag() -> Tag {
        Tag::set()
    }

    fn fixed_tag() -> (t: Tag) {
        Tag::set()
    }
}

} // verus!
