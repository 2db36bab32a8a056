//! Message payloads: how a payload is measured, and the containers that
//! carry payloads and metadata of any type.
use vstd::prelude::*;
use std::collections::VecDeque;
use std::time::Duration;
use crate::time::SimTime;
use vstd::string::StringSliceAdditionalSpecFns;


pub mod erased;
pub mod body;
pub mod extension;
pub mod util;

verus! {

broadcast use vstd::layout::layout_of_primitives, vstd::layout::layout_of_unit_tuple;

/// A type that can be measured in bits and bytes.
pub trait MessageBody {
    /// The length of the value in bytes.
    spec fn spec_byte_len(&self) -> nat;

    /// The length of the value in bytes.
    fn byte_len(&self) -> (r: usize)
        requires
            self.spec_byte_len() <= usize::MAX,
        ensures
            r == self.spec_byte_len(),
    ;

    /// The length of the value in bits: eight bits a byte, unless a type says
    /// otherwise.
    fn bit_len(&self) -> (r: usize)
        requires
            self.spec_byte_len() * 8 <= usize::MAX,
        default_ensures
            r == self.spec_byte_len() * 8,
    {
        self.byte_len() * 8
    }
}

/// A body that claims a length of its own, whatever the size of what it holds.
#[derive(Debug, Clone, PartialEq, Eq, Hash, PartialOrd, Ord)]
pub struct CustomSizeBody<T> {
    bit_len: usize,
    inner: T,
}

impl<T> CustomSizeBody<T> {
    /// The length in bits that the body claims.
    pub closed spec fn claimed_bits(&self) -> usize {
        self.bit_len
    }

    /// The value the body holds.
    pub closed spec fn content(&self) -> T {
        self.inner
    }

    /// A body of `bit_len` bits holding `inner`.
    pub fn new(bit_len: usize, inner: T) -> (r: Self)
        ensures
            r.claimed_bits() == bit_len,
            r.content() == inner,
    {
        Self { bit_len, inner }
    }

    /// The value the body holds.
    pub fn inner(&self) -> (r: &T)
        ensures
            *r == self.content(),
    {
        &self.inner
    }

    /// The value the body holds, to be changed in place.
    pub fn inner_mut(&mut self) -> (r: &mut T)
        ensures
            *r == old(self).content(),
            final(self).content() == *final(r),
            final(self).claimed_bits() == old(self).claimed_bits(),
    {
        &mut self.inner
    }

    /// The value the body holds.
    pub fn into_inner(self) -> (r: T)
        ensures
            r == self.content(),
    {
        self.inner
    }
}

impl<T> MessageBody for CustomSizeBody<T> {
    open spec fn spec_byte_len(&self) -> nat {
        (self.claimed_bits() / 8) as nat
    }

    fn byte_len(&self) -> (r: usize) {
        self.bit_len / 8
    }

    fn bit_len(&self) -> (r: usize)
        ensures
            r == self.claimed_bits(),
    {
        self.bit_len
    }
}

impl MessageBody for () {
    open spec fn spec_byte_len(&self) -> nat {
        vstd::layout::size_of::<()>()
    }

    fn byte_len(&self) -> (r: usize) {
        std::mem::size_of::<()>()
    }
}

impl MessageBody for u8 {
    open spec fn spec_byte_len(&self) -> nat {
        vstd::layout::size_of::<u8>()
    }

    fn byte_len(&self) -> (r: usize) {
        std::mem::size_of::<u8>()
    }
}

impl MessageBody for u16 {
    open spec fn spec_byte_len(&self) -> nat {
        vstd::layout::size_of::<u16>()
    }

    fn byte_len(&self) -> (r: usize) {
        std::mem::size_of::<u16>()
    }
}

impl MessageBody for u32 {
    open spec fn spec_byte_len(&self) -> nat {
        vstd::layout::size_of::<u32>()
    }

    fn byte_len(&self) -> (r: usize) {
        std::mem::size_of::<u32>()
    }
}

impl MessageBody for u64 {
    open spec fn spec_byte_len(&self) -> nat {
        vstd::layout::size_of::<u64>()
    }

    fn byte_len(&self) -> (r: usize) {
        std::mem::size_of::<u64>()
    }
}

impl MessageBody for u128 {
    open spec fn spec_byte_len(&self) -> nat {
        vstd::layout::size_of::<u128>()
    }

    fn byte_len(&self) -> (r: usize) {
        std::mem::size_of::<u128>()
    }
}

impl MessageBody for usize {
    open spec fn spec_byte_len(&self) -> nat {
        vstd::layout::size_of::<usize>()
    }

    fn byte_len(&self) -> (r: usize) {
        std::mem::size_of::<usize>()
    }
}

impl MessageBody for i8 {
    open spec fn spec_byte_len(&self) -> nat {
        vstd::layout::size_of::<i8>()
    }

    fn byte_len(&self) -> (r: usize) {
        std::mem::size_of::<i8>()
    }
}

impl MessageBody for i16 {
    open spec fn spec_byte_len(&self) -> nat {
        vstd::layout::size_of::<i16>()
    }

    fn byte_len(&self) -> (r: usize) {
        std::mem::size_of::<i16>()
    }
}

impl MessageBody for i32 {
    open spec fn spec_byte_len(&self) -> nat {
        vstd::layout::size_of::<i32>()
    }

    fn byte_len(&self) -> (r: usize) {
        std::mem::size_of::<i32>()
    }
}

impl MessageBody for i64 {
    open spec fn spec_byte_len(&self) -> nat {
        vstd::layout::size_of::<i64>()
    }

    fn byte_len(&self) -> (r: usize) {
        std::mem::size_of::<i64>()
    }
}

impl MessageBody for i128 {
    open spec fn spec_byte_len(&self) -> nat {
        vstd::layout::size_of::<i128>()
    }

    fn byte_len(&self) -> (r: usize) {
        std::mem::size_of::<i128>()
    }
}

impl MessageBody for isize {
    open spec fn spec_byte_len(&self) -> nat {
        vstd::layout::size_of::<isize>()
    }

    fn byte_len(&self) -> (r: usize) {
        std::mem::size_of::<isize>()
    }
}

impl MessageBody for bool {
    open spec fn spec_byte_len(&self) -> nat {
        vstd::layout::size_of::<bool>()
    }

    fn byte_len(&self) -> (r: usize) {
        std::mem::size_of::<bool>()
    }
}

impl MessageBody for char {
    open spec fn spec_byte_len(&self) -> nat {
        vstd::layout::size_of::<char>()
    }

    fn byte_len(&self) -> (r: usize) {
        std::mem::size_of::<char>()
    }
}

impl MessageBody for String {
    /// The length of the UTF-8 encoding.
    open spec fn spec_byte_len(&self) -> nat {
        vstd::utf8::encode_utf8(self@).len()
    }

    fn byte_len(&self) -> (r: usize) {
        self.as_str().len()
    }
}

impl MessageBody for &'static str {
    /// The length of the UTF-8 encoding.
    open spec fn spec_byte_len(&self) -> nat {
        (**self).spec_bytes().len()
    }

    fn byte_len(&self) -> (r: usize) {
        (**self).len()
    }
}

/// A duration is sent as sixteen bytes.
impl MessageBody for Duration {
    open spec fn spec_byte_len(&self) -> nat {
        16
    }

    fn byte_len(&self) -> (r: usize) {
        16
    }
}

/// A point in simulated time is sent as sixteen bytes.
impl MessageBody for SimTime {
    open spec fn spec_byte_len(&self) -> nat {
        16
    }

    fn byte_len(&self) -> (r: usize) {
        16
    }
}

impl<T: MessageBody> MessageBody for Box<T> {
    open spec fn spec_byte_len(&self) -> nat {
        (**self).spec_byte_len()
    }

    fn byte_len(&self) -> (r: usize) {
        (**self).byte_len()
    }
}

/// Nothing has no length.
impl<T: MessageBody> MessageBody for Option<T> {
    open spec fn spec_byte_len(&self) -> nat {
        match self {
            Some(v) => v.spec_byte_len(),
            None => 0,
        }
    }

    fn byte_len(&self) -> (r: usize) {
        match self {
            Some(v) => v.byte_len(),
            None => 0,
        }
    }
}

impl<T: MessageBody, E: MessageBody> MessageBody for Result<T, E> {
    open spec fn spec_byte_len(&self) -> nat {
        match self {
            Ok(v) => v.spec_byte_len(),
            Err(e) => e.spec_byte_len(),
        }
    }

    fn byte_len(&self) -> (r: usize) {
        match self {
            Ok(v) => v.byte_len(),
            Err(e) => e.byte_len(),
        }
    }
}

impl<A: MessageBody> MessageBody for (A,) {
    open spec fn spec_byte_len(&self) -> nat {
        self.0.spec_byte_len()
    }

    fn byte_len(&self) -> (r: usize) {
        self.0.byte_len()
    }
}

impl<A: MessageBody, B: MessageBody> MessageBody for (A, B) {
    open spec fn spec_byte_len(&self) -> nat {
        self.0.spec_byte_len() + self.1.spec_byte_len()
    }

    fn byte_len(&self) -> (r: usize) {
        self.0.byte_len() + self.1.byte_len()
    }
}

impl<A: MessageBody, B: MessageBody, C: MessageBody> MessageBody for (A, B, C) {
    open spec fn spec_byte_len(&self) -> nat {
        self.0.spec_byte_len() + self.1.spec_byte_len() + self.2.spec_byte_len()
    }

    fn byte_len(&self) -> (r: usize) {
        self.0.byte_len() + self.1.byte_len() + self.2.byte_len()
    }
}

/// The summed lengths of a sequence of values.
pub open spec fn total_byte_len<T: MessageBody>(s: Seq<T>) -> nat
    decreases s.len(),
{
    if s.len() == 0 {
        0
    } else {
        total_byte_len(s.drop_last()) + s.last().spec_byte_len()
    }
}

/// A prefix of a sequence is no longer than the whole sequence, and one more
/// element adds its own length.
pub proof fn lemma_total_byte_len_prefix<T: MessageBody>(s: Seq<T>, i: int)
    requires
        0 <= i < s.len(),
    ensures
        total_byte_len(s.take(i + 1)) == total_byte_len(s.take(i)) + s[i].spec_byte_len(),
        total_byte_len(s.take(i + 1)) <= total_byte_len(s),
    decreases s.len() - i,
{
    assert(s.take(i + 1).drop_last() =~= s.take(i));
    if i + 1 < s.len() {
        lemma_total_byte_len_prefix(s, i + 1);
    } else {
        assert(s.take(i + 1) =~= s);
    }
}

/// Sums the lengths of the values of `s`, front to back.
fn sum_byte_len<T: MessageBody>(s: &[T]) -> (r: usize)
    requires
        total_byte_len(s@) <= usize::MAX,
    ensures
        r == total_byte_len(s@),
{
    let mut acc: usize = 0;
    let mut i: usize = 0;
    assert(s@.take(0) =~= Seq::<T>::empty());
    while i < s.len()
        invariant
            i <= s@.len(),
            acc == total_byte_len(s@.take(i as int)),
            total_byte_len(s@) <= usize::MAX,
        decreases s@.len() - i,
    {
        proof {
            lemma_total_byte_len_prefix(s@, i as int);
        }
        acc = acc + s[i].byte_len();
        i = i + 1;
    }
    assert(s@.take(i as int) =~= s@);
    acc
}

impl<T: MessageBody> MessageBody for Vec<T> {
    open spec fn spec_byte_len(&self) -> nat {
        total_byte_len(self@)
    }

    fn byte_len(&self) -> (r: usize) {
        sum_byte_len(self.as_slice())
    }
}

impl<T: MessageBody> MessageBody for VecDeque<T> {
    open spec fn spec_byte_len(&self) -> nat {
        total_byte_len(self@)
    }

    fn byte_len(&self) -> (r: usize) {
        let mut acc: usize = 0;
        let mut i: usize = 0;
        assert(self@.take(0) =~= Seq::<T>::empty());
        while i < self.len()
            invariant
                i <= self@.len(),
                acc == total_byte_len(self@.take(i as int)),
                total_byte_len(self@) <= usize::MAX,
            decreases self@.len() - i,
        {
            proof {
                lemma_total_byte_len_prefix(self@, i as int);
            }
            acc = acc + self[i].byte_len();
            i = i + 1;
        }
        assert(self@.take(i as int) =~= self@);
        acc
    }
}

impl<T: MessageBody, const N: usize> MessageBody for [T; N] {
    open spec fn spec_byte_len(&self) -> nat {
        total_byte_len(self@)
    }

    fn byte_len(&self) -> (r: usize) {
        sum_byte_len(self.as_slice())
    }
}

impl<T: MessageBody> MessageBody for &[T] {
    open spec fn spec_byte_len(&self) -> nat {
        total_byte_len((**self)@)
    }

    fn byte_len(&self) -> (r: usize) {
        sum_byte_len(*self)
    }
}

} // verus!
