//! Size-and-alignment descriptions of allocation requests.

use vstd::prelude::*;

verus! {

/// True when `a` is a power of two.
pub open spec fn is_pow2(a: nat) -> bool
    decreases a,
{
    if a == 0 {
        false
    } else if a == 1 {
        true
    } else {
        a % 2 == 0 && is_pow2(a / 2)
    }
}

/// `x` rounded down to the nearest multiple of `a`.
pub open spec fn align_down(x: int, a: int) -> int {
    x - (x % a)
}

/// `x` rounded up to the nearest multiple of `a`.
pub open spec fn align_up(x: int, a: int) -> int {
    align_down(x + a - 1, a)
}

/// The size and alignment of an allocation request, as the layout of a Rust
/// type gives them: the alignment is a power of two, and the size padded up
/// to that alignment still fits in a machine word.
#[derive(Clone, Copy, Debug, PartialEq, Eq, Structural)]
pub struct Layout {
    pub size: usize,
    pub align: usize,
}

impl Layout {
    /// A layout is well formed when its alignment is a power of two and
    /// padding the size up to the alignment cannot overflow an address.
    pub open spec fn wf(self) -> bool {
        is_pow2(self.align as nat) && self.size + self.align <= usize::MAX
    }

    /// The size padded up to a multiple of the alignment, as
    /// `Layout::pad_to_align` pads it.
    pub open spec fn spec_padded_size(self) -> int {
        align_up(self.size as int, self.align as int)
    }

    /// Builds a layout, refusing an alignment that is not a power of two and
    /// a size so large that padding it to the alignment would overflow.
    pub fn from_size_align(size: usize, align: usize) -> (r: Option<Layout>)
        ensures
            r is Some <==> (is_pow2(align as nat) && size + align <= usize::MAX),
            r is Some ==> r->Some_0 == (Layout { size, align }),
    {
        if align > 0 && (align & (align - 1)) == 0 && size <= usize::MAX - align {
            proof {
                lemma_pow2_test(align);
            }
            Some(Layout { size, align })
        } else {
            proof {
                if align > 0 && (align & (align - 1) as usize) != 0 {
                    lemma_pow2_test(align);
                }
            }
            None
        }
    }

    pub fn size(&self) -> (r: usize)
        ensures
            r == self.size,
    {
        self.size
    }

    pub fn align(&self) -> (r: usize)
        ensures
            r == self.align,
    {
        self.align
    }
}

/// This crate's power-of-two test agrees with the one the standard layout
/// specifications use.
pub proof fn lemma_pow2_agrees(a: usize)
    ensures
        is_pow2(a as nat) == vstd::arithmetic::power2::is_pow2(a as int),
    decreases a,
{
    reveal(vstd::arithmetic::power2::is_pow2);
    if a > 1 && a % 2 == 0 {
        lemma_pow2_agrees(a / 2);
    }
}

/// Rounding down to a multiple of `a` yields a multiple of `a`, at most `a - 1`
/// below the start.
pub proof fn lemma_align_down(x: int, a: int)
    requires
        a > 0,
    ensures
        align_down(x, a) % a == 0,
        x - a < align_down(x, a) <= x,
{
    vstd::arithmetic::div_mod::lemma_fundamental_div_mod(x, a);
    vstd::arithmetic::div_mod::lemma_mod_multiples_basic(x / a, a);
    vstd::arithmetic::mul::lemma_mul_is_commutative(a, x / a);
    assert(align_down(x, a) == (x / a) * a);
}

/// Rounding down to a multiple of `a` is monotone.
pub proof fn lemma_align_down_monotone(x: int, y: int, a: int)
    requires
        a > 0,
        x <= y,
    ensures
        align_down(x, a) <= align_down(y, a),
{
    vstd::arithmetic::div_mod::lemma_fundamental_div_mod(x, a);
    vstd::arithmetic::div_mod::lemma_fundamental_div_mod(y, a);
    vstd::arithmetic::div_mod::lemma_div_is_ordered(x, y, a);
    vstd::arithmetic::mul::lemma_mul_inequality(x / a, y / a, a);
    vstd::arithmetic::mul::lemma_mul_is_commutative(a, x / a);
    vstd::arithmetic::mul::lemma_mul_is_commutative(a, y / a);
    assert(align_down(x, a) == (x / a) * a);
    assert(align_down(y, a) == (y / a) * a);
}

/// A multiple of `a` is its own rounding down.
pub proof fn lemma_align_down_exact(x: int, a: int)
    requires
        a > 0,
        x % a == 0,
    ensures
        align_down(x, a) == x,
{
}

/// A power of two no greater than sixteen is one of 1, 2, 4, 8 and 16, and so
/// divides sixteen.
pub proof fn lemma_pow2_divides_16(a: int)
    requires
        is_pow2(a as nat),
        0 <= a <= 16,
    ensures
        0 < a,
        16int % a == 0,
{
    let n = a as nat;
    if n != 1 {
        assert(n % 2 == 0 && is_pow2(n / 2));
        let n2 = n / 2;
        assert(n == 2 * n2) by {
            vstd::arithmetic::div_mod::lemma_fundamental_div_mod(n as int, 2int);
        }
        if n2 != 1 {
            assert(n2 % 2 == 0 && is_pow2(n2 / 2));
            let n4 = n2 / 2;
            assert(n2 == 2 * n4) by {
                vstd::arithmetic::div_mod::lemma_fundamental_div_mod(n2 as int, 2int);
            }
            if n4 != 1 {
                assert(n4 % 2 == 0 && is_pow2(n4 / 2));
                let n8 = n4 / 2;
                assert(n4 == 2 * n8) by {
                    vstd::arithmetic::div_mod::lemma_fundamental_div_mod(n4 as int, 2int);
                }
                if n8 != 1 {
                    assert(n8 % 2 == 0 && is_pow2(n8 / 2));
                    let n16 = n8 / 2;
                    assert(n8 == 2 * n16) by {
                        vstd::arithmetic::div_mod::lemma_fundamental_div_mod(n8 as int, 2int);
                    }
                    if n16 != 1 {
                        assert(n16 >= 2);
                        assert(false);
                    }
                }
            }
        }
    }
    assert(a == 1 || a == 2 || a == 4 || a == 8 || a == 16);
}

/// Whatever is a multiple of sixteen is a multiple of each divisor of
/// sixteen.
pub proof fn lemma_mod_16_divides(x: int, a: int)
    requires
        x % 16int == 0,
        a > 0,
        16int % a == 0,
    ensures
        x % a == 0,
{
    let s = x / 16int;
    let t = 16int / a;
    vstd::arithmetic::div_mod::lemma_fundamental_div_mod(x, 16int);
    vstd::arithmetic::div_mod::lemma_fundamental_div_mod(16int, a);
    assert(x == (a * t) * s);
    assert((a * t) * s == (t * s) * a) by (nonlinear_arith);
    vstd::arithmetic::div_mod::lemma_mod_multiples_basic(t * s, a);
}

/// A positive integer is a power of two exactly when clearing its lowest set
/// bit leaves zero.
proof fn lemma_pow2_test(a: usize)
    requires
        a > 0,
    ensures
        (a & (a - 1) as usize) == 0 <==> is_pow2(a as nat),
    decreases a,
{
    if a == 1 {
        assert((1usize & 0usize) == 0) by (bit_vector);
    } else {
        assert(((a & (a - 1) as usize) == 0) == (a % 2 == 0 && ((a / 2) & (a / 2 - 1) as usize)
            == 0 && a / 2 > 0)) by (bit_vector)
            requires
                a > 1,
        ;
        if a % 2 == 0 {
            lemma_pow2_test(a / 2);
        }
    }
}

} // verus!
