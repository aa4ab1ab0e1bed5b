//! A 32-bit set of active channels for edit operations.

use vstd::prelude::*;

verus! {

/// Whether bit `c` of `m` is set.
pub open spec fn mask_bit(m: u32, c: int) -> bool {
    m >> (c as u32) & 1u32 == 1u32
}

/// Marks which channels take part in edit operations.
#[derive(Clone, Copy, Debug)]
pub struct Mask {
    mask: u32,
}

impl Mask {
    /// The raw bit pattern.
    pub closed spec fn spec_bits(&self) -> u32 {
        self.mask
    }

    /// A mask from a raw bit pattern.
    pub fn from_bits(bits: u32) -> (r: Mask)
        ensures
            r.spec_bits() == bits,
    {
        Mask { mask: bits }
    }

    /// The raw bit pattern.
    pub fn bits(&self) -> (r: u32)
        ensures
            r == self.spec_bits(),
    {
        self.mask
    }

    /// Whether channel `chan` is active.
    pub fn is_on(&self, chan: usize) -> (r: bool)
        requires
            chan < 32,
        ensures
            r == mask_bit(self.spec_bits(), chan as int),
    {
        self.mask >> (chan as u32) & 1 == 1
    }

    /// Flips channel `chan`, leaving every other channel alone.
    pub fn toggle(&mut self, chan: usize)
        requires
            chan < 32,
        ensures
            forall|c: int|
                0 <= c < 32 ==> #[trigger] mask_bit(final(self).spec_bits(), c) == if c
                    == chan as int {
                    !mask_bit(old(self).spec_bits(), c)
                } else {
                    mask_bit(old(self).spec_bits(), c)
                },
    {
        let old_bits = self.mask;
        let ghost ch = chan as u32;
        self.mask = self.mask ^ (1u32 << (chan as u32));
        proof {
            assert forall|c: int| 0 <= c < 32 implies #[trigger] mask_bit(
                old_bits ^ (1u32 << ch),
                c,
            ) == if c == ch as int {
                !mask_bit(old_bits, c)
            } else {
                mask_bit(old_bits, c)
            } by {
                let cu = c as u32;
                assert(((old_bits ^ (1u32 << ch)) >> cu & 1u32 == 1u32) == (if cu == ch {
                    !(old_bits >> cu & 1u32 == 1u32)
                } else {
                    old_bits >> cu & 1u32 == 1u32
                })) by (bit_vector)
                    requires
                        ch < 32u32,
                        cu < 32u32,
                ;
            }
        }
    }

    /// Removes channel `chan` from the mask: channels below `chan - 1` keep
    /// their state, channels at or above `chan` take the state of the next
    /// channel up (the top channel clears), and channel `chan - 1` keeps its
    /// state but also inherits the removed channel's bit.
    pub fn shift_after(&mut self, chan: usize)
        requires
            chan < 32,
        ensures
            forall|c: int|
                0 <= c && c + 1 < chan as int ==> #[trigger] mask_bit(final(self).spec_bits(), c)
                    == mask_bit(old(self).spec_bits(), c),
            chan >= 1 ==> mask_bit(final(self).spec_bits(), chan as int - 1) == (mask_bit(
                old(self).spec_bits(),
                chan as int - 1,
            ) || mask_bit(old(self).spec_bits(), chan as int)),
            forall|c: int|
                chan as int <= c < 32 ==> #[trigger] mask_bit(final(self).spec_bits(), c) == (c + 1
                    < 32 && mask_bit(old(self).spec_bits(), c + 1)),
    {
        proof {
            assert(1u32 << (chan as u32) >= 1u32) by (bit_vector)
                requires
                    (chan as u32) < 32u32,
            ;
        }
        let old_bits = self.mask;
        let ghost ch = chan as u32;
        let splitter: u32 = (1u32 << (chan as u32)) - 1;
        let post = self.mask & !splitter;
        let pre = self.mask & splitter;
        self.mask = pre | (post >> 1u32);
        proof {
            let ob = old_bits;
            let sp = splitter;
            let m2 = self.mask;
            assert forall|c: int| 0 <= c < 32 implies mask_bit(m2, c) == (if c + 1 < ch as int {
                mask_bit(ob, c)
            } else if c + 1 == ch as int {
                mask_bit(ob, c) || mask_bit(ob, c + 1)
            } else {
                c + 1 < 32 && mask_bit(ob, c + 1)
            }) by {
                let cu = c as u32;
                if cu + 1 < ch {
                    assert((((ob & sp) | ((ob & !sp) >> 1u32)) >> cu & 1u32 == 1u32) == (ob >> cu
                        & 1u32 == 1u32)) by (bit_vector)
                        requires
                            ch < 32u32,
                            cu + 1u32 < ch,
                            sp == (1u32 << ch) - 1u32,
                    ;
                } else if cu + 1 == ch {
                    assert((((ob & sp) | ((ob & !sp) >> 1u32)) >> cu & 1u32 == 1u32) == ((ob >> cu
                        & 1u32 == 1u32) || (ob >> (cu + 1u32) & 1u32 == 1u32))) by (bit_vector)
                        requires
                            ch < 32u32,
                            cu + 1u32 == ch,
                            sp == (1u32 << ch) - 1u32,
                    ;
                } else if cu < 31 {
                    assert((((ob & sp) | ((ob & !sp) >> 1u32)) >> cu & 1u32 == 1u32) == (ob >> (cu
                        + 1u32) & 1u32 == 1u32)) by (bit_vector)
                        requires
                            ch < 32u32,
                            ch <= cu,
                            cu < 31u32,
                            sp == (1u32 << ch) - 1u32,
                    ;
                } else {
                    assert(!(((ob & sp) | ((ob & !sp) >> 1u32)) >> cu & 1u32 == 1u32))
                        by (bit_vector)
                        requires
                            ch < 32u32,
                            ch <= cu,
                            cu == 31u32,
                            sp == (1u32 << ch) - 1u32,
                    ;
                }
            }
        }
    }

    /// Keeps only channel 0 active.
    pub fn solo(&mut self)
        ensures
            final(self).spec_bits() == 1u32,
    {
        self.mask = 1;
    }
}

impl Default for Mask {
    /// All 32 channels active.
    fn default() -> (r: Self)
        ensures
            r.spec_bits() == 0xFFFFFFFFu32,
    {
        Mask { mask: 0xFFFFFFFF }
    }
}

} // verus!
