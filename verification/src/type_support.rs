//! Implementations of [`InternalType`], [`SobolType`] and [`LossyFrom`] for
//! the supported integer widths.
//!
//! Unsigned output types render as the identity; signed output types render
//! by flipping the sign bit, which maps the zero internal value to the most
//! negative output while keeping the Gray-code XOR algebra purely unsigned.

use vstd::prelude::*;
use vstd::arithmetic::power2::{
    pow2, lemma2_to64, lemma2_to64_rest, lemma_pow2_adds, lemma_pow2_strictly_increases,
    lemma_pow2_unfold,
};
use vstd::bits::{
    lemma_u8_shl_is_mul, lemma_u8_shr_is_div, lemma_u16_shl_is_mul, lemma_u16_shr_is_div,
    lemma_u32_shl_is_mul, lemma_u32_shr_is_div, lemma_u64_shl_is_mul, lemma_u64_shr_is_div,
    lemma_u128_shr_is_div,
};

use crate::{InternalType, LossyFrom, SobolType};

verus! {

proof fn lemma_pow2_128()
    ensures
        pow2(128) == 0x100000000000000000000000000000000,
{
    lemma2_to64();
    lemma2_to64_rest();
    lemma_pow2_adds(64, 64);
}

proof fn lemma_u128_one_shl(k: nat)
    requires
        k < 128,
    ensures
        ((1u128 << (k as u128)) as nat) == pow2(k),
    decreases k,
{
    lemma2_to64();
    if k == 0 {
        assert(1u128 << 0u128 == 1u128) by (bit_vector);
    } else {
        lemma_u128_one_shl((k - 1) as nat);
        let kk = k as u128;
        assert(1u128 << kk == vstd::prelude::mul(1u128 << vstd::prelude::sub(kk, 1), 2))
            by (bit_vector)
            requires
                1 <= kk < 128,
        ;
        lemma_pow2_unfold(k);
        lemma_pow2_strictly_increases(k, 128);
        lemma_pow2_128();
    }
}

impl InternalType for u8 {
    open spec fn bits_spec() -> nat {
        8
    }

    open spec fn to_nat(self) -> nat {
        self as nat
    }

    open spec fn sp_zero() -> u8 {
        0u8
    }

    open spec fn sp_one() -> u8 {
        1u8
    }

    open spec fn sp_xor(self, o: u8) -> u8 {
        self ^ o
    }

    open spec fn sp_shl(self, k: nat) -> u8 {
        self << (k as u8)
    }

    open spec fn sp_shr(self, k: nat) -> u8 {
        self >> (k as u8)
    }

    proof fn lemma_props() {
        lemma2_to64();
    }

    proof fn lemma_one_shl(k: nat) {
        lemma2_to64();
        lemma_pow2_strictly_increases(k, 8);
        lemma_u8_shl_is_mul(1u8, k as u8);
    }

    proof fn lemma_shr_div(x: u8, k: nat) {
        lemma_u8_shr_is_div(x, k as u8);
    }

    fn bits() -> usize {
        8
    }

    fn zero() -> u8 {
        0
    }

    fn one() -> u8 {
        1
    }

    fn max_value() -> (r: u8) {
        proof {
            lemma2_to64();
        }
        u8::MAX
    }

    fn xor(self, o: u8) -> u8 {
        self ^ o
    }

    fn shl(self, k: usize) -> u8 {
        self << (k as u8)
    }

    fn shr(self, k: usize) -> u8 {
        self >> (k as u8)
    }

    fn bit(self, k: usize) -> (r: bool) {
        let sh = self >> (k as u8);
        proof {
            lemma_u8_shr_is_div(self, k as u8);
            assert(sh & 1 == sh % 2) by (bit_vector);
        }
        sh & 1 == 1
    }

    fn add_one(self) -> (r: u8) {
        proof {
            lemma2_to64();
        }
        self + 1
    }

    fn sub_one(self) -> (r: u8) {
        self - 1
    }

    fn lt(self, o: u8) -> (r: bool) {
        self < o
    }
}

impl InternalType for u16 {
    open spec fn bits_spec() -> nat {
        16
    }

    open spec fn to_nat(self) -> nat {
        self as nat
    }

    open spec fn sp_zero() -> u16 {
        0u16
    }

    open spec fn sp_one() -> u16 {
        1u16
    }

    open spec fn sp_xor(self, o: u16) -> u16 {
        self ^ o
    }

    open spec fn sp_shl(self, k: nat) -> u16 {
        self << (k as u16)
    }

    open spec fn sp_shr(self, k: nat) -> u16 {
        self >> (k as u16)
    }

    proof fn lemma_props() {
        lemma2_to64();
    }

    proof fn lemma_one_shl(k: nat) {
        lemma2_to64();
        lemma_pow2_strictly_increases(k, 16);
        lemma_u16_shl_is_mul(1u16, k as u16);
    }

    proof fn lemma_shr_div(x: u16, k: nat) {
        lemma_u16_shr_is_div(x, k as u16);
    }

    fn bits() -> usize {
        16
    }

    fn zero() -> u16 {
        0
    }

    fn one() -> u16 {
        1
    }

    fn max_value() -> (r: u16) {
        proof {
            lemma2_to64();
        }
        u16::MAX
    }

    fn xor(self, o: u16) -> u16 {
        self ^ o
    }

    fn shl(self, k: usize) -> u16 {
        self << (k as u16)
    }

    fn shr(self, k: usize) -> u16 {
        self >> (k as u16)
    }

    fn bit(self, k: usize) -> (r: bool) {
        let sh = self >> (k as u16);
        proof {
            lemma_u16_shr_is_div(self, k as u16);
            assert(sh & 1 == sh % 2) by (bit_vector);
        }
        sh & 1 == 1
    }

    fn add_one(self) -> (r: u16) {
        proof {
            lemma2_to64();
        }
        self + 1
    }

    fn sub_one(self) -> (r: u16) {
        self - 1
    }

    fn lt(self, o: u16) -> (r: bool) {
        self < o
    }
}

impl InternalType for u32 {
    open spec fn bits_spec() -> nat {
        32
    }

    open spec fn to_nat(self) -> nat {
        self as nat
    }

    open spec fn sp_zero() -> u32 {
        0u32
    }

    open spec fn sp_one() -> u32 {
        1u32
    }

    open spec fn sp_xor(self, o: u32) -> u32 {
        self ^ o
    }

    open spec fn sp_shl(self, k: nat) -> u32 {
        self << (k as u32)
    }

    open spec fn sp_shr(self, k: nat) -> u32 {
        self >> (k as u32)
    }

    proof fn lemma_props() {
        lemma2_to64();
    }

    proof fn lemma_one_shl(k: nat) {
        lemma2_to64();
        lemma_pow2_strictly_increases(k, 32);
        lemma_u32_shl_is_mul(1u32, k as u32);
    }

    proof fn lemma_shr_div(x: u32, k: nat) {
        lemma_u32_shr_is_div(x, k as u32);
    }

    fn bits() -> usize {
        32
    }

    fn zero() -> u32 {
        0
    }

    fn one() -> u32 {
        1
    }

    fn max_value() -> (r: u32) {
        proof {
            lemma2_to64();
        }
        u32::MAX
    }

    fn xor(self, o: u32) -> u32 {
        self ^ o
    }

    fn shl(self, k: usize) -> u32 {
        self << (k as u32)
    }

    fn shr(self, k: usize) -> u32 {
        self >> (k as u32)
    }

    fn bit(self, k: usize) -> (r: bool) {
        let sh = self >> (k as u32);
        proof {
            lemma_u32_shr_is_div(self, k as u32);
            assert(sh & 1 == sh % 2) by (bit_vector);
        }
        sh & 1 == 1
    }

    fn add_one(self) -> (r: u32) {
        proof {
            lemma2_to64();
        }
        self + 1
    }

    fn sub_one(self) -> (r: u32) {
        self - 1
    }

    fn lt(self, o: u32) -> (r: bool) {
        self < o
    }
}

impl InternalType for u64 {
    open spec fn bits_spec() -> nat {
        64
    }

    open spec fn to_nat(self) -> nat {
        self as nat
    }

    open spec fn sp_zero() -> u64 {
        0u64
    }

    open spec fn sp_one() -> u64 {
        1u64
    }

    open spec fn sp_xor(self, o: u64) -> u64 {
        self ^ o
    }

    open spec fn sp_shl(self, k: nat) -> u64 {
        self << (k as u64)
    }

    open spec fn sp_shr(self, k: nat) -> u64 {
        self >> (k as u64)
    }

    proof fn lemma_props() {
        lemma2_to64();
        lemma2_to64_rest();
    }

    proof fn lemma_one_shl(k: nat) {
        lemma2_to64();
        lemma2_to64_rest();
        lemma_pow2_strictly_increases(k, 64);
        lemma_u64_shl_is_mul(1u64, k as u64);
    }

    proof fn lemma_shr_div(x: u64, k: nat) {
        lemma_u64_shr_is_div(x, k as u64);
    }

    fn bits() -> usize {
        64
    }

    fn zero() -> u64 {
        0
    }

    fn one() -> u64 {
        1
    }

    fn max_value() -> (r: u64) {
        proof {
            lemma2_to64();
            lemma2_to64_rest();
        }
        u64::MAX
    }

    fn xor(self, o: u64) -> u64 {
        self ^ o
    }

    fn shl(self, k: usize) -> u64 {
        self << (k as u64)
    }

    fn shr(self, k: usize) -> u64 {
        self >> (k as u64)
    }

    fn bit(self, k: usize) -> (r: bool) {
        let sh = self >> (k as u64);
        proof {
            lemma_u64_shr_is_div(self, k as u64);
            assert(sh & 1 == sh % 2) by (bit_vector);
        }
        sh & 1 == 1
    }

    fn add_one(self) -> (r: u64) {
        proof {
            lemma2_to64();
            lemma2_to64_rest();
        }
        self + 1
    }

    fn sub_one(self) -> (r: u64) {
        self - 1
    }

    fn lt(self, o: u64) -> (r: bool) {
        self < o
    }
}

impl InternalType for u128 {
    open spec fn bits_spec() -> nat {
        128
    }

    open spec fn to_nat(self) -> nat {
        self as nat
    }

    open spec fn sp_zero() -> u128 {
        0u128
    }

    open spec fn sp_one() -> u128 {
        1u128
    }

    open spec fn sp_xor(self, o: u128) -> u128 {
        self ^ o
    }

    open spec fn sp_shl(self, k: nat) -> u128 {
        self << (k as u128)
    }

    open spec fn sp_shr(self, k: nat) -> u128 {
        self >> (k as u128)
    }

    proof fn lemma_props() {
        lemma_pow2_128();
    }

    proof fn lemma_one_shl(k: nat) {
        lemma_u128_one_shl(k);
    }

    proof fn lemma_shr_div(x: u128, k: nat) {
        lemma_u128_shr_is_div(x, k as u128);
    }

    fn bits() -> usize {
        128
    }

    fn zero() -> u128 {
        0
    }

    fn one() -> u128 {
        1
    }

    fn max_value() -> (r: u128) {
        proof {
            lemma_pow2_128();
        }
        u128::MAX
    }

    fn xor(self, o: u128) -> u128 {
        self ^ o
    }

    fn shl(self, k: usize) -> u128 {
        self << (k as u128)
    }

    fn shr(self, k: usize) -> u128 {
        self >> (k as u128)
    }

    fn bit(self, k: usize) -> (r: bool) {
        let sh = self >> (k as u128);
        proof {
            lemma_u128_shr_is_div(self, k as u128);
            assert(sh & 1 == sh % 2) by (bit_vector);
        }
        sh & 1 == 1
    }

    fn add_one(self) -> (r: u128) {
        proof {
            lemma_pow2_128();
        }
        self + 1
    }

    fn sub_one(self) -> (r: u128) {
        self - 1
    }

    fn lt(self, o: u128) -> (r: bool) {
        self < o
    }
}

/** SobolType implementation for 8-bit unsigned values */
impl SobolType for u8 {
    type IT = u8;

    open spec fn render_spec(v: u8) -> u8 {
        v
    }

    open spec fn max_resolution_spec() -> nat {
        8
    }

    proof fn lemma_max_resolution() {
    }

    fn render(v: u8) -> u8 {
        v
    }

    fn max_resolution() -> usize {
        8
    }
}

/** SobolType implementation for 16-bit unsigned values */
impl SobolType for u16 {
    type IT = u16;

    open spec fn render_spec(v: u16) -> u16 {
        v
    }

    open spec fn max_resolution_spec() -> nat {
        16
    }

    proof fn lemma_max_resolution() {
    }

    fn render(v: u16) -> u16 {
        v
    }

    fn max_resolution() -> usize {
        16
    }
}

/** SobolType implementation for 32-bit unsigned values */
impl SobolType for u32 {
    type IT = u32;

    open spec fn render_spec(v: u32) -> u32 {
        v
    }

    open spec fn max_resolution_spec() -> nat {
        32
    }

    proof fn lemma_max_resolution() {
    }

    fn render(v: u32) -> u32 {
        v
    }

    fn max_resolution() -> usize {
        32
    }
}

/** SobolType implementation for 64-bit unsigned values */
impl SobolType for u64 {
    type IT = u64;

    open spec fn render_spec(v: u64) -> u64 {
        v
    }

    open spec fn max_resolution_spec() -> nat {
        64
    }

    proof fn lemma_max_resolution() {
    }

    fn render(v: u64) -> u64 {
        v
    }

    fn max_resolution() -> usize {
        64
    }
}

/** SobolType implementation for 128-bit unsigned values */
impl SobolType for u128 {
    type IT = u128;

    open spec fn render_spec(v: u128) -> u128 {
        v
    }

    open spec fn max_resolution_spec() -> nat {
        128
    }

    proof fn lemma_max_resolution() {
    }

    fn render(v: u128) -> u128 {
        v
    }

    fn max_resolution() -> usize {
        128
    }
}

/** SobolType implementation for 8-bit signed values */
impl SobolType for i8 {
    type IT = u8;

    open spec fn render_spec(v: u8) -> i8 {
        (v ^ 0x80u8) as i8
    }

    open spec fn max_resolution_spec() -> nat {
        8
    }

    proof fn lemma_max_resolution() {
    }

    fn render(v: u8) -> i8 {
        (v ^ 0x80) as i8
    }

    fn max_resolution() -> usize {
        8
    }
}

/** SobolType implementation for 16-bit signed values */
impl SobolType for i16 {
    type IT = u16;

    open spec fn render_spec(v: u16) -> i16 {
        (v ^ 0x8000u16) as i16
    }

    open spec fn max_resolution_spec() -> nat {
        16
    }

    proof fn lemma_max_resolution() {
    }

    fn render(v: u16) -> i16 {
        (v ^ 0x8000) as i16
    }

    fn max_resolution() -> usize {
        16
    }
}

/** SobolType implementation for 32-bit signed values */
impl SobolType for i32 {
    type IT = u32;

    open spec fn render_spec(v: u32) -> i32 {
        (v ^ 0x8000_0000u32) as i32
    }

    open spec fn max_resolution_spec() -> nat {
        32
    }

    proof fn lemma_max_resolution() {
    }

    fn render(v: u32) -> i32 {
        (v ^ 0x8000_0000) as i32
    }

    fn max_resolution() -> usize {
        32
    }
}

/** SobolType implementation for 64-bit signed values */
impl SobolType for i64 {
    type IT = u64;

    open spec fn render_spec(v: u64) -> i64 {
        (v ^ 0x8000_0000_0000_0000u64) as i64
    }

    open spec fn max_resolution_spec() -> nat {
        64
    }

    proof fn lemma_max_resolution() {
    }

    fn render(v: u64) -> i64 {
        (v ^ 0x8000_0000_0000_0000) as i64
    }

    fn max_resolution() -> usize {
        64
    }
}

/** SobolType implementation for 128-bit signed values */
impl SobolType for i128 {
    type IT = u128;

    open spec fn render_spec(v: u128) -> i128 {
        (v ^ 0x8000_0000_0000_0000_0000_0000_0000_0000u128) as i128
    }

    open spec fn max_resolution_spec() -> nat {
        128
    }

    proof fn lemma_max_resolution() {
    }

    fn render(v: u128) -> i128 {
        (v ^ 0x8000_0000_0000_0000_0000_0000_0000_0000) as i128
    }

    fn max_resolution() -> usize {
        128
    }
}

/** Reflexive `LossyFrom` */
impl<T> LossyFrom<T> for T {
    open spec fn lossy_from_spec(v: T) -> T {
        v
    }

    fn lossy_from(v: T) -> T {
        v
    }
}

/** LossyFrom `u16` to `u8` */
impl LossyFrom<u16> for u8 {
    open spec fn lossy_from_spec(v: u16) -> u8 {
        v as u8
    }

    fn lossy_from(v: u16) -> u8 {
        v as u8
    }
}

/** LossyFrom `u16` to `u32` */
impl LossyFrom<u16> for u32 {
    open spec fn lossy_from_spec(v: u16) -> u32 {
        v as u32
    }

    fn lossy_from(v: u16) -> u32 {
        v as u32
    }
}

/** LossyFrom `u16` to `u64` */
impl LossyFrom<u16> for u64 {
    open spec fn lossy_from_spec(v: u16) -> u64 {
        v as u64
    }

    fn lossy_from(v: u16) -> u64 {
        v as u64
    }
}

/** LossyFrom `u16` to `u128` */
impl LossyFrom<u16> for u128 {
    open spec fn lossy_from_spec(v: u16) -> u128 {
        v as u128
    }

    fn lossy_from(v: u16) -> u128 {
        v as u128
    }
}

/** LossyFrom `u32` to `u8` */
impl LossyFrom<u32> for u8 {
    open spec fn lossy_from_spec(v: u32) -> u8 {
        v as u8
    }

    fn lossy_from(v: u32) -> u8 {
        v as u8
    }
}

/** LossyFrom `u32` to `u16` */
impl LossyFrom<u32> for u16 {
    open spec fn lossy_from_spec(v: u32) -> u16 {
        v as u16
    }

    fn lossy_from(v: u32) -> u16 {
        v as u16
    }
}

/** LossyFrom `u32` to `u64` */
impl LossyFrom<u32> for u64 {
    open spec fn lossy_from_spec(v: u32) -> u64 {
        v as u64
    }

    fn lossy_from(v: u32) -> u64 {
        v as u64
    }
}

/** LossyFrom `u32` to `u128` */
impl LossyFrom<u32> for u128 {
    open spec fn lossy_from_spec(v: u32) -> u128 {
        v as u128
    }

    fn lossy_from(v: u32) -> u128 {
        v as u128
    }
}

/** LossyFrom `u64` to `u8` */
impl LossyFrom<u64> for u8 {
    open spec fn lossy_from_spec(v: u64) -> u8 {
        v as u8
    }

    fn lossy_from(v: u64) -> u8 {
        v as u8
    }
}

/** LossyFrom `u64` to `u16` */
impl LossyFrom<u64> for u16 {
    open spec fn lossy_from_spec(v: u64) -> u16 {
        v as u16
    }

    fn lossy_from(v: u64) -> u16 {
        v as u16
    }
}

/** LossyFrom `u64` to `u32` */
impl LossyFrom<u64> for u32 {
    open spec fn lossy_from_spec(v: u64) -> u32 {
        v as u32
    }

    fn lossy_from(v: u64) -> u32 {
        v as u32
    }
}

/** LossyFrom `u64` to `u128` */
impl LossyFrom<u64> for u128 {
    open spec fn lossy_from_spec(v: u64) -> u128 {
        v as u128
    }

    fn lossy_from(v: u64) -> u128 {
        v as u128
    }
}

/** LossyFrom `u128` to `u8` */
impl LossyFrom<u128> for u8 {
    open spec fn lossy_from_spec(v: u128) -> u8 {
        v as u8
    }

    fn lossy_from(v: u128) -> u8 {
        v as u8
    }
}

/** LossyFrom `u128` to `u16` */
impl LossyFrom<u128> for u16 {
    open spec fn lossy_from_spec(v: u128) -> u16 {
        v as u16
    }

    fn lossy_from(v: u128) -> u16 {
        v as u16
    }
}

/** LossyFrom `u128` to `u32` */
impl LossyFrom<u128> for u32 {
    open spec fn lossy_from_spec(v: u128) -> u32 {
        v as u32
    }

    fn lossy_from(v: u128) -> u32 {
        v as u32
    }
}

/** LossyFrom `u128` to `u64` */
impl LossyFrom<u128> for u64 {
    open spec fn lossy_from_spec(v: u128) -> u64 {
        v as u64
    }

    fn lossy_from(v: u128) -> u64 {
        v as u64
    }
}

} // verus!
