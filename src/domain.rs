//! What a type supplies to be walked by a range: a place in an order, a
//! successor, and (for arithmetic domains) a zero, a unit step and a checked
//! addition of a step.

use vstd::prelude::*;
use vstd::utf8::{char_is_scalar, char_u32_cast};

verus! {

/// A domain with a total order and a successor for each value but the last.
pub trait Next: Sized + Copy {
    /// The value's place in the domain's order: the integer itself, or the
    /// scalar value of a char.
    spec fn ord(self) -> int;

    /// The value that follows `now`; none where `now` is the last of the domain.
    spec fn succ(now: Self) -> Option<Self>;

    /// Two values with the same place are the same value.
    proof fn lemma_ord_injective(a: Self, b: Self)
        ensures
            a.ord() == b.ord() ==> a == b,
    ;

    /// The successor of `now`, computed without wrapping.
    fn next(now: Self) -> (r: Option<Self>)
        ensures
            r == Self::succ(now),
    ;

    /// Whether `a` comes before `b` in the domain's order.
    fn precedes(a: Self, b: Self) -> (r: bool)
        ensures
            r == (a.ord() < b.ord()),
    ;
}

/// A domain with an additive identity, where unbounded constructors start.
pub trait First: Next {
    /// The domain's zero.
    fn first() -> (r: Self)
        ensures
            r.ord() == 0,
    ;
}

/// A domain that can be walked by a step of type `T`, with overflow detected
/// rather than wrapped.
pub trait Step<T: Next>: Next {
    /// The least place in the domain.
    spec fn low() -> int;

    /// The greatest place in the domain.
    spec fn high() -> int;

    /// `now` moved by `step`; none where the result leaves the domain.
    spec fn offset(now: Self, step: T) -> Option<Self>;

    /// Every value lies between the domain's least and greatest places.
    proof fn lemma_bounds(v: Self)
        ensures
            Self::low() <= v.ord() <= Self::high(),
    ;

    /// An offset is the sum of the places when that sum is in the domain,
    /// and none when it is not.
    proof fn lemma_offset(now: Self, step: T)
        ensures
            match Self::offset(now, step) {
                Some(v) => v.ord() == now.ord() + step.ord(),
                None => !(Self::low() <= now.ord() + step.ord() <= Self::high()),
            },
    ;

    /// The unit step.
    fn default() -> (r: Self)
        ensures
            r.ord() == 1,
    ;

    /// `now` moved by `step`, with overflow in either direction reported as
    /// none.
    fn step(now: Self, step: T) -> (r: Option<Self>)
        ensures
            r == Self::offset(now, step),
    ;

    /// Whether `step` walks downwards.
    fn is_negative(step: T) -> (r: bool)
        ensures
            r == (step.ord() < 0),
    ;
}

impl Next for u8 {
    open spec fn ord(self) -> int {
        self as int
    }

    open spec fn succ(now: u8) -> Option<u8> {
        if now == u8::MAX {
            None
        } else {
            Some((now + 1) as u8)
        }
    }

    proof fn lemma_ord_injective(a: u8, b: u8) {
    }

    fn next(now: u8) -> (r: Option<u8>) {
        if now == u8::MAX {
            None
        } else {
            Some(now + 1)
        }
    }

    fn precedes(a: u8, b: u8) -> (r: bool) {
        a < b
    }
}

impl First for u8 {
    fn first() -> (r: u8) {
        0
    }
}

impl Step<u8> for u8 {
    open spec fn low() -> int {
        u8::MIN as int
    }

    open spec fn high() -> int {
        u8::MAX as int
    }

    open spec fn offset(now: u8, step: u8) -> Option<u8> {
        now.checked_add(step)
    }

    proof fn lemma_bounds(v: u8) {
    }

    proof fn lemma_offset(now: u8, step: u8) {
    }

    fn default() -> (r: u8) {
        1
    }

    fn step(now: u8, step: u8) -> (r: Option<u8>) {
        now.checked_add(step)
    }

    fn is_negative(step: u8) -> (r: bool) {
        false
    }
}

impl Next for u16 {
    open spec fn ord(self) -> int {
        self as int
    }

    open spec fn succ(now: u16) -> Option<u16> {
        if now == u16::MAX {
            None
        } else {
            Some((now + 1) as u16)
        }
    }

    proof fn lemma_ord_injective(a: u16, b: u16) {
    }

    fn next(now: u16) -> (r: Option<u16>) {
        if now == u16::MAX {
            None
        } else {
            Some(now + 1)
        }
    }

    fn precedes(a: u16, b: u16) -> (r: bool) {
        a < b
    }
}

impl First for u16 {
    fn first() -> (r: u16) {
        0
    }
}

impl Step<u16> for u16 {
    open spec fn low() -> int {
        u16::MIN as int
    }

    open spec fn high() -> int {
        u16::MAX as int
    }

    open spec fn offset(now: u16, step: u16) -> Option<u16> {
        now.checked_add(step)
    }

    proof fn lemma_bounds(v: u16) {
    }

    proof fn lemma_offset(now: u16, step: u16) {
    }

    fn default() -> (r: u16) {
        1
    }

    fn step(now: u16, step: u16) -> (r: Option<u16>) {
        now.checked_add(step)
    }

    fn is_negative(step: u16) -> (r: bool) {
        false
    }
}

impl Next for u32 {
    open spec fn ord(self) -> int {
        self as int
    }

    open spec fn succ(now: u32) -> Option<u32> {
        if now == u32::MAX {
            None
        } else {
            Some((now + 1) as u32)
        }
    }

    proof fn lemma_ord_injective(a: u32, b: u32) {
    }

    fn next(now: u32) -> (r: Option<u32>) {
        if now == u32::MAX {
            None
        } else {
            Some(now + 1)
        }
    }

    fn precedes(a: u32, b: u32) -> (r: bool) {
        a < b
    }
}

impl First for u32 {
    fn first() -> (r: u32) {
        0
    }
}

impl Step<u32> for u32 {
    open spec fn low() -> int {
        u32::MIN as int
    }

    open spec fn high() -> int {
        u32::MAX as int
    }

    open spec fn offset(now: u32, step: u32) -> Option<u32> {
        now.checked_add(step)
    }

    proof fn lemma_bounds(v: u32) {
    }

    proof fn lemma_offset(now: u32, step: u32) {
    }

    fn default() -> (r: u32) {
        1
    }

    fn step(now: u32, step: u32) -> (r: Option<u32>) {
        now.checked_add(step)
    }

    fn is_negative(step: u32) -> (r: bool) {
        false
    }
}

impl Next for u64 {
    open spec fn ord(self) -> int {
        self as int
    }

    open spec fn succ(now: u64) -> Option<u64> {
        if now == u64::MAX {
            None
        } else {
            Some((now + 1) as u64)
        }
    }

    proof fn lemma_ord_injective(a: u64, b: u64) {
    }

    fn next(now: u64) -> (r: Option<u64>) {
        if now == u64::MAX {
            None
        } else {
            Some(now + 1)
        }
    }

    fn precedes(a: u64, b: u64) -> (r: bool) {
        a < b
    }
}

impl First for u64 {
    fn first() -> (r: u64) {
        0
    }
}

impl Step<u64> for u64 {
    open spec fn low() -> int {
        u64::MIN as int
    }

    open spec fn high() -> int {
        u64::MAX as int
    }

    open spec fn offset(now: u64, step: u64) -> Option<u64> {
        now.checked_add(step)
    }

    proof fn lemma_bounds(v: u64) {
    }

    proof fn lemma_offset(now: u64, step: u64) {
    }

    fn default() -> (r: u64) {
        1
    }

    fn step(now: u64, step: u64) -> (r: Option<u64>) {
        now.checked_add(step)
    }

    fn is_negative(step: u64) -> (r: bool) {
        false
    }
}

impl Next for usize {
    open spec fn ord(self) -> int {
        self as int
    }

    open spec fn succ(now: usize) -> Option<usize> {
        if now == usize::MAX {
            None
        } else {
            Some((now + 1) as usize)
        }
    }

    proof fn lemma_ord_injective(a: usize, b: usize) {
    }

    fn next(now: usize) -> (r: Option<usize>) {
        if now == usize::MAX {
            None
        } else {
            Some(now + 1)
        }
    }

    fn precedes(a: usize, b: usize) -> (r: bool) {
        a < b
    }
}

impl First for usize {
    fn first() -> (r: usize) {
        0
    }
}

impl Step<usize> for usize {
    open spec fn low() -> int {
        usize::MIN as int
    }

    open spec fn high() -> int {
        usize::MAX as int
    }

    open spec fn offset(now: usize, step: usize) -> Option<usize> {
        now.checked_add(step)
    }

    proof fn lemma_bounds(v: usize) {
    }

    proof fn lemma_offset(now: usize, step: usize) {
    }

    fn default() -> (r: usize) {
        1
    }

    fn step(now: usize, step: usize) -> (r: Option<usize>) {
        now.checked_add(step)
    }

    fn is_negative(step: usize) -> (r: bool) {
        false
    }
}

impl Next for i8 {
    open spec fn ord(self) -> int {
        self as int
    }

    open spec fn succ(now: i8) -> Option<i8> {
        if now == i8::MAX {
            None
        } else {
            Some((now + 1) as i8)
        }
    }

    proof fn lemma_ord_injective(a: i8, b: i8) {
    }

    fn next(now: i8) -> (r: Option<i8>) {
        if now == i8::MAX {
            None
        } else {
            Some(now + 1)
        }
    }

    fn precedes(a: i8, b: i8) -> (r: bool) {
        a < b
    }
}

impl First for i8 {
    fn first() -> (r: i8) {
        0
    }
}

impl Step<i8> for i8 {
    open spec fn low() -> int {
        i8::MIN as int
    }

    open spec fn high() -> int {
        i8::MAX as int
    }

    open spec fn offset(now: i8, step: i8) -> Option<i8> {
        now.checked_add(step)
    }

    proof fn lemma_bounds(v: i8) {
    }

    proof fn lemma_offset(now: i8, step: i8) {
    }

    fn default() -> (r: i8) {
        1
    }

    fn step(now: i8, step: i8) -> (r: Option<i8>) {
        now.checked_add(step)
    }

    fn is_negative(step: i8) -> (r: bool) {
        step < 0
    }
}

impl Next for i16 {
    open spec fn ord(self) -> int {
        self as int
    }

    open spec fn succ(now: i16) -> Option<i16> {
        if now == i16::MAX {
            None
        } else {
            Some((now + 1) as i16)
        }
    }

    proof fn lemma_ord_injective(a: i16, b: i16) {
    }

    fn next(now: i16) -> (r: Option<i16>) {
        if now == i16::MAX {
            None
        } else {
            Some(now + 1)
        }
    }

    fn precedes(a: i16, b: i16) -> (r: bool) {
        a < b
    }
}

impl First for i16 {
    fn first() -> (r: i16) {
        0
    }
}

impl Step<i16> for i16 {
    open spec fn low() -> int {
        i16::MIN as int
    }

    open spec fn high() -> int {
        i16::MAX as int
    }

    open spec fn offset(now: i16, step: i16) -> Option<i16> {
        now.checked_add(step)
    }

    proof fn lemma_bounds(v: i16) {
    }

    proof fn lemma_offset(now: i16, step: i16) {
    }

    fn default() -> (r: i16) {
        1
    }

    fn step(now: i16, step: i16) -> (r: Option<i16>) {
        now.checked_add(step)
    }

    fn is_negative(step: i16) -> (r: bool) {
        step < 0
    }
}

impl Next for i32 {
    open spec fn ord(self) -> int {
        self as int
    }

    open spec fn succ(now: i32) -> Option<i32> {
        if now == i32::MAX {
            None
        } else {
            Some((now + 1) as i32)
        }
    }

    proof fn lemma_ord_injective(a: i32, b: i32) {
    }

    fn next(now: i32) -> (r: Option<i32>) {
        if now == i32::MAX {
            None
        } else {
            Some(now + 1)
        }
    }

    fn precedes(a: i32, b: i32) -> (r: bool) {
        a < b
    }
}

impl First for i32 {
    fn first() -> (r: i32) {
        0
    }
}

impl Step<i32> for i32 {
    open spec fn low() -> int {
        i32::MIN as int
    }

    open spec fn high() -> int {
        i32::MAX as int
    }

    open spec fn offset(now: i32, step: i32) -> Option<i32> {
        now.checked_add(step)
    }

    proof fn lemma_bounds(v: i32) {
    }

    proof fn lemma_offset(now: i32, step: i32) {
    }

    fn default() -> (r: i32) {
        1
    }

    fn step(now: i32, step: i32) -> (r: Option<i32>) {
        now.checked_add(step)
    }

    fn is_negative(step: i32) -> (r: bool) {
        step < 0
    }
}

impl Next for i64 {
    open spec fn ord(self) -> int {
        self as int
    }

    open spec fn succ(now: i64) -> Option<i64> {
        if now == i64::MAX {
            None
        } else {
            Some((now + 1) as i64)
        }
    }

    proof fn lemma_ord_injective(a: i64, b: i64) {
    }

    fn next(now: i64) -> (r: Option<i64>) {
        if now == i64::MAX {
            None
        } else {
            Some(now + 1)
        }
    }

    fn precedes(a: i64, b: i64) -> (r: bool) {
        a < b
    }
}

impl First for i64 {
    fn first() -> (r: i64) {
        0
    }
}

impl Step<i64> for i64 {
    open spec fn low() -> int {
        i64::MIN as int
    }

    open spec fn high() -> int {
        i64::MAX as int
    }

    open spec fn offset(now: i64, step: i64) -> Option<i64> {
        now.checked_add(step)
    }

    proof fn lemma_bounds(v: i64) {
    }

    proof fn lemma_offset(now: i64, step: i64) {
    }

    fn default() -> (r: i64) {
        1
    }

    fn step(now: i64, step: i64) -> (r: Option<i64>) {
        now.checked_add(step)
    }

    fn is_negative(step: i64) -> (r: bool) {
        step < 0
    }
}

impl Next for isize {
    open spec fn ord(self) -> int {
        self as int
    }

    open spec fn succ(now: isize) -> Option<isize> {
        if now == isize::MAX {
            None
        } else {
            Some((now + 1) as isize)
        }
    }

    proof fn lemma_ord_injective(a: isize, b: isize) {
    }

    fn next(now: isize) -> (r: Option<isize>) {
        if now == isize::MAX {
            None
        } else {
            Some(now + 1)
        }
    }

    fn precedes(a: isize, b: isize) -> (r: bool) {
        a < b
    }
}

impl First for isize {
    fn first() -> (r: isize) {
        0
    }
}

impl Step<isize> for isize {
    open spec fn low() -> int {
        isize::MIN as int
    }

    open spec fn high() -> int {
        isize::MAX as int
    }

    open spec fn offset(now: isize, step: isize) -> Option<isize> {
        now.checked_add(step)
    }

    proof fn lemma_bounds(v: isize) {
    }

    proof fn lemma_offset(now: isize, step: isize) {
    }

    fn default() -> (r: isize) {
        1
    }

    fn step(now: isize, step: isize) -> (r: Option<isize>) {
        now.checked_add(step)
    }

    fn is_negative(step: isize) -> (r: bool) {
        step < 0
    }
}

/// A Unicode scalar value: at most `0x10FFFF`, and not a surrogate.
pub open spec fn is_scalar_value(u: u32) -> bool {
    u <= 0x10FFFF && !(0xD800 <= u <= 0xDFFF)
}

/// Relies on `char::from_u32`: the char with scalar value `u`, or none where
/// `u` is a surrogate or past `char::MAX`.
#[verifier::external_body]
fn char_from_scalar(u: u32) -> (r: Option<char>)
    ensures
        is_scalar_value(u) ==> r == Some(u as char),
        !is_scalar_value(u) ==> r is None,
{
    char::from_u32(u)
}

/// Chars in the order of their scalar values; the successor skips the
/// surrogate gap, and `char::MAX` has none.
impl Next for char {
    open spec fn ord(self) -> int {
        self as u32 as int
    }

    open spec fn succ(now: char) -> Option<char> {
        if now as u32 == 0x10FFFF {
            None
        } else if now as u32 == 0xD7FF {
            Some(0xE000u32 as char)
        } else {
            Some(((now as u32) + 1) as u32 as char)
        }
    }

    proof fn lemma_ord_injective(a: char, b: char) {
        if a as u32 == b as u32 {
            char_u32_cast(a, a as u32);
            char_u32_cast(b, b as u32);
        }
    }

    fn next(now: char) -> (r: Option<char>) {
        proof {
            char_is_scalar(now);
        }
        let u = now as u32;
        if u == 0x10FFFF {
            None
        } else if u == 0xD7FF {
            char_from_scalar(0xE000)
        } else {
            char_from_scalar(u + 1)
        }
    }

    fn precedes(a: char, b: char) -> (r: bool) {
        (a as u32) < (b as u32)
    }
}

} // verus!
