//! Base domains: the unit type, booleans and fixed-width integers.
use vstd::prelude::*;

use crate::Next;

verus! {

/// The unit type has one value and no successor.
impl Next for () {
    open spec fn spec_first() -> () {
        ()
    }

    fn first() -> (r: ()) {
        ()
    }

    open spec fn spec_next(self) -> Option<()> {
        None
    }

    open spec fn rank(self) -> nat {
        0
    }

    open spec fn count() -> nat {
        1
    }

    proof fn lemma_rank(v: ()) {
    }

    proof fn lemma_rank_injective(a: (), b: ()) {
    }

    fn next(self) -> (r: Option<()>) {
        None
    }
}

/// Booleans run `false`, `true`.
impl Next for bool {
    open spec fn spec_first() -> bool {
        false
    }

    fn first() -> (r: bool) {
        false
    }

    open spec fn spec_next(self) -> Option<bool> {
        if self {
            None
        } else {
            Some(true)
        }
    }

    open spec fn rank(self) -> nat {
        if self {
            1
        } else {
            0
        }
    }

    open spec fn count() -> nat {
        2
    }

    proof fn lemma_rank(v: bool) {
    }

    proof fn lemma_rank_injective(a: bool, b: bool) {
    }

    fn next(self) -> (r: Option<bool>) {
        if self {
            None
        } else {
            Some(true)
        }
    }
}

/// `u8` counts up by one from zero; the maximum has no successor.
impl Next for u8 {
    open spec fn spec_first() -> u8 {
        u8::MIN
    }

    fn first() -> (r: u8) {
        u8::MIN
    }

    open spec fn spec_next(self) -> Option<u8> {
        if self < u8::MAX {
            Some((self + 1) as u8)
        } else {
            None
        }
    }

    open spec fn rank(self) -> nat {
        self as nat
    }

    open spec fn count() -> nat {
        (u8::MAX as nat + 1) as nat
    }

    proof fn lemma_rank(v: u8) {
    }

    proof fn lemma_rank_injective(a: u8, b: u8) {
    }

    fn next(self) -> (r: Option<u8>) {
        self.checked_add(1)
    }
}

/// `u16` counts up by one from zero; the maximum has no successor.
impl Next for u16 {
    open spec fn spec_first() -> u16 {
        u16::MIN
    }

    fn first() -> (r: u16) {
        u16::MIN
    }

    open spec fn spec_next(self) -> Option<u16> {
        if self < u16::MAX {
            Some((self + 1) as u16)
        } else {
            None
        }
    }

    open spec fn rank(self) -> nat {
        self as nat
    }

    open spec fn count() -> nat {
        (u16::MAX as nat + 1) as nat
    }

    proof fn lemma_rank(v: u16) {
    }

    proof fn lemma_rank_injective(a: u16, b: u16) {
    }

    fn next(self) -> (r: Option<u16>) {
        self.checked_add(1)
    }
}

/// `u32` counts up by one from zero; the maximum has no successor.
impl Next for u32 {
    open spec fn spec_first() -> u32 {
        u32::MIN
    }

    fn first() -> (r: u32) {
        u32::MIN
    }

    open spec fn spec_next(self) -> Option<u32> {
        if self < u32::MAX {
            Some((self + 1) as u32)
        } else {
            None
        }
    }

    open spec fn rank(self) -> nat {
        self as nat
    }

    open spec fn count() -> nat {
        (u32::MAX as nat + 1) as nat
    }

    proof fn lemma_rank(v: u32) {
    }

    proof fn lemma_rank_injective(a: u32, b: u32) {
    }

    fn next(self) -> (r: Option<u32>) {
        self.checked_add(1)
    }
}

/// `u64` counts up by one from zero; the maximum has no successor.
impl Next for u64 {
    open spec fn spec_first() -> u64 {
        u64::MIN
    }

    fn first() -> (r: u64) {
        u64::MIN
    }

    open spec fn spec_next(self) -> Option<u64> {
        if self < u64::MAX {
            Some((self + 1) as u64)
        } else {
            None
        }
    }

    open spec fn rank(self) -> nat {
        self as nat
    }

    open spec fn count() -> nat {
        (u64::MAX as nat + 1) as nat
    }

    proof fn lemma_rank(v: u64) {
    }

    proof fn lemma_rank_injective(a: u64, b: u64) {
    }

    fn next(self) -> (r: Option<u64>) {
        self.checked_add(1)
    }
}

/// `u128` counts up by one from zero; the maximum has no successor.
impl Next for u128 {
    open spec fn spec_first() -> u128 {
        u128::MIN
    }

    fn first() -> (r: u128) {
        u128::MIN
    }

    open spec fn spec_next(self) -> Option<u128> {
        if self < u128::MAX {
            Some((self + 1) as u128)
        } else {
            None
        }
    }

    open spec fn rank(self) -> nat {
        self as nat
    }

    open spec fn count() -> nat {
        (u128::MAX as nat + 1) as nat
    }

    proof fn lemma_rank(v: u128) {
    }

    proof fn lemma_rank_injective(a: u128, b: u128) {
    }

    fn next(self) -> (r: Option<u128>) {
        self.checked_add(1)
    }
}

/// `usize` counts up by one from zero; the maximum has no successor.
impl Next for usize {
    open spec fn spec_first() -> usize {
        usize::MIN
    }

    fn first() -> (r: usize) {
        usize::MIN
    }

    open spec fn spec_next(self) -> Option<usize> {
        if self < usize::MAX {
            Some((self + 1) as usize)
        } else {
            None
        }
    }

    open spec fn rank(self) -> nat {
        self as nat
    }

    open spec fn count() -> nat {
        (usize::MAX as nat + 1) as nat
    }

    proof fn lemma_rank(v: usize) {
    }

    proof fn lemma_rank_injective(a: usize, b: usize) {
    }

    fn next(self) -> (r: Option<usize>) {
        self.checked_add(1)
    }
}

/// `i8` counts up by one from the most negative value; the maximum has no successor.
impl Next for i8 {
    open spec fn spec_first() -> i8 {
        i8::MIN
    }

    fn first() -> (r: i8) {
        i8::MIN
    }

    open spec fn spec_next(self) -> Option<i8> {
        if self < i8::MAX {
            Some((self + 1) as i8)
        } else {
            None
        }
    }

    open spec fn rank(self) -> nat {
        (self - i8::MIN) as nat
    }

    open spec fn count() -> nat {
        (i8::MAX - i8::MIN + 1) as nat
    }

    proof fn lemma_rank(v: i8) {
    }

    proof fn lemma_rank_injective(a: i8, b: i8) {
    }

    fn next(self) -> (r: Option<i8>) {
        self.checked_add(1)
    }
}

/// `i16` counts up by one from the most negative value; the maximum has no successor.
impl Next for i16 {
    open spec fn spec_first() -> i16 {
        i16::MIN
    }

    fn first() -> (r: i16) {
        i16::MIN
    }

    open spec fn spec_next(self) -> Option<i16> {
        if self < i16::MAX {
            Some((self + 1) as i16)
        } else {
            None
        }
    }

    open spec fn rank(self) -> nat {
        (self - i16::MIN) as nat
    }

    open spec fn count() -> nat {
        (i16::MAX - i16::MIN + 1) as nat
    }

    proof fn lemma_rank(v: i16) {
    }

    proof fn lemma_rank_injective(a: i16, b: i16) {
    }

    fn next(self) -> (r: Option<i16>) {
        self.checked_add(1)
    }
}

/// `i32` counts up by one from the most negative value; the maximum has no successor.
impl Next for i32 {
    open spec fn spec_first() -> i32 {
        i32::MIN
    }

    fn first() -> (r: i32) {
        i32::MIN
    }

    open spec fn spec_next(self) -> Option<i32> {
        if self < i32::MAX {
            Some((self + 1) as i32)
        } else {
            None
        }
    }

    open spec fn rank(self) -> nat {
        (self - i32::MIN) as nat
    }

    open spec fn count() -> nat {
        (i32::MAX - i32::MIN + 1) as nat
    }

    proof fn lemma_rank(v: i32) {
    }

    proof fn lemma_rank_injective(a: i32, b: i32) {
    }

    fn next(self) -> (r: Option<i32>) {
        self.checked_add(1)
    }
}

/// `i64` counts up by one from the most negative value; the maximum has no successor.
impl Next for i64 {
    open spec fn spec_first() -> i64 {
        i64::MIN
    }

    fn first() -> (r: i64) {
        i64::MIN
    }

    open spec fn spec_next(self) -> Option<i64> {
        if self < i64::MAX {
            Some((self + 1) as i64)
        } else {
            None
        }
    }

    open spec fn rank(self) -> nat {
        (self - i64::MIN) as nat
    }

    open spec fn count() -> nat {
        (i64::MAX - i64::MIN + 1) as nat
    }

    proof fn lemma_rank(v: i64) {
    }

    proof fn lemma_rank_injective(a: i64, b: i64) {
    }

    fn next(self) -> (r: Option<i64>) {
        self.checked_add(1)
    }
}

/// `i128` counts up by one from the most negative value; the maximum has no successor.
impl Next for i128 {
    open spec fn spec_first() -> i128 {
        i128::MIN
    }

    fn first() -> (r: i128) {
        i128::MIN
    }

    open spec fn spec_next(self) -> Option<i128> {
        if self < i128::MAX {
            Some((self + 1) as i128)
        } else {
            None
        }
    }

    open spec fn rank(self) -> nat {
        (self - i128::MIN) as nat
    }

    open spec fn count() -> nat {
        (i128::MAX - i128::MIN + 1) as nat
    }

    proof fn lemma_rank(v: i128) {
    }

    proof fn lemma_rank_injective(a: i128, b: i128) {
    }

    fn next(self) -> (r: Option<i128>) {
        self.checked_add(1)
    }
}

/// `isize` counts up by one from the most negative value; the maximum has no successor.
impl Next for isize {
    open spec fn spec_first() -> isize {
        isize::MIN
    }

    fn first() -> (r: isize) {
        isize::MIN
    }

    open spec fn spec_next(self) -> Option<isize> {
        if self < isize::MAX {
            Some((self + 1) as isize)
        } else {
            None
        }
    }

    open spec fn rank(self) -> nat {
        (self - isize::MIN) as nat
    }

    open spec fn count() -> nat {
        (isize::MAX - isize::MIN + 1) as nat
    }

    proof fn lemma_rank(v: isize) {
    }

    proof fn lemma_rank_injective(a: isize, b: isize) {
    }

    fn next(self) -> (r: Option<isize>) {
        self.checked_add(1)
    }
}

} // verus!
