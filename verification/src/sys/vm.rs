use vstd::prelude::*;
use bitfield::{BitRange, BitRangeMut};

verus! {

/// Ones in the low `msb - lsb + 1` bits.
pub open spec fn width_mask(msb: u64, lsb: u64) -> u64 {
    u64::MAX >> ((63 - msb + lsb) as u64)
}

/// Ones in bits `msb..=lsb`.
pub open spec fn field_mask(msb: u64, lsb: u64) -> u64 {
    width_mask(msb, lsb) << lsb
}

/// Bits `msb..=lsb` of `word`, moved down to bit 0.
pub open spec fn field_value(word: u64, msb: u64, lsb: u64) -> u64 {
    (word >> lsb) & width_mask(msb, lsb)
}

/// `word` with bits `msb..=lsb` replaced by the low bits of `value`.
pub open spec fn with_field(word: u64, msb: u64, lsb: u64, value: u64) -> u64 {
    (word & !field_mask(msb, lsb)) | ((value << lsb) & field_mask(msb, lsb))
}

/// `bitfield::BitRange::<u64>::bit_range` on a `u64`. As the crate's source
/// computes it: shift bit `msb` up to bit 63, shift down so that bit `lsb`
/// lands on bit 0, then clear all but the low `msb - lsb + 1` bits by a shift up
/// and down. Bit positions past 63 overflow a shift, so they are ruled out.
#[verifier::external_body]
fn u64_bit_range(value: u64, msb: usize, lsb: usize) -> (r: u64)
    requires
        lsb <= msb < 64,
    ensures
        r == ((((value << ((63 - msb) as u64)) >> ((63 - msb + lsb) as u64)) << ((63 - (msb - lsb)) as u64))
            >> ((63 - (msb - lsb)) as u64)),
{
    BitRange::<u64>::bit_range(&value, msb, lsb)
}

/// `bitfield::BitRangeMut::<u64>::set_bit_range` on a `u64`. As the crate's
/// source computes it: a mask of bits `msb..=lsb` is built from all ones by
/// shifts, those bits of the target are cleared and the masked, shifted
/// `value` is or-ed in. Bit positions past 63 overflow a shift, so they are
/// ruled out.
#[verifier::external_body]
fn u64_set_bit_range(target: &mut u64, msb: usize, lsb: usize, value: u64)
    requires
        lsb <= msb < 64,
    ensures
        ({
            let mask: u64 = ((u64::MAX << ((63 - msb) as u64)) >> ((63 - msb + lsb) as u64)) << (lsb as u64);
            *final(target) == (*old(target) & !mask) | ((value << (lsb as u64)) & mask)
        }),
{
    BitRangeMut::<u64>::set_bit_range(target, msb, lsb, value)
}

/// An AArch64 table descriptor: bits 47..12 hold the next table's address,
/// bits 63..59 its attributes.
pub struct TableDescriptor(pub u64);

/// An AArch64 page descriptor: bits 11..2 hold the lower attributes, bits
/// 47..12 the page's address, bits 63..59 the upper attributes.
pub struct PageDescriptor(pub u64);

impl TableDescriptor {
    pub fn address(&self) -> (r: u64)
        ensures
            r == field_value(self.0, 47, 12),
    {
        let r = u64_bit_range(self.0, 47, 12);
        let w = self.0;
        assert(((((w << 16u64) >> 28u64) << 28u64) >> 28u64) == field_value(w, 47, 12)) by (bit_vector);
        r
    }

    pub fn set_address(&mut self, value: u64)
        ensures
            final(self).0 == with_field(old(self).0, 47, 12, value),
    {
        let w = self.0;
        u64_set_bit_range(&mut self.0, 47, 12, value);
        assert((w & !(((u64::MAX << 16u64) >> 28u64) << 12u64)) | ((value << 12u64) & (((u64::MAX << 16u64) >> 28u64) << 12u64))
            == with_field(w, 47, 12, value)) by (bit_vector);
    }

    pub fn attributes(&self) -> (r: u64)
        ensures
            r == field_value(self.0, 63, 59),
    {
        let r = u64_bit_range(self.0, 63, 59);
        let w = self.0;
        assert(((((w << 0u64) >> 59u64) << 59u64) >> 59u64) == field_value(w, 63, 59)) by (bit_vector);
        r
    }

    pub fn set_attributes(&mut self, value: u64)
        ensures
            final(self).0 == with_field(old(self).0, 63, 59, value),
    {
        let w = self.0;
        u64_set_bit_range(&mut self.0, 63, 59, value);
        assert((w & !(((u64::MAX << 0u64) >> 59u64) << 59u64)) | ((value << 59u64) & (((u64::MAX << 0u64) >> 59u64) << 59u64))
            == with_field(w, 63, 59, value)) by (bit_vector);
    }
}

impl PageDescriptor {
    pub fn lower_attributes(&self) -> (r: u64)
        ensures
            r == field_value(self.0, 11, 2),
    {
        let r = u64_bit_range(self.0, 11, 2);
        let w = self.0;
        assert(((((w << 52u64) >> 54u64) << 54u64) >> 54u64) == field_value(w, 11, 2)) by (bit_vector);
        r
    }

    pub fn set_lower_attributes(&mut self, value: u64)
        ensures
            final(self).0 == with_field(old(self).0, 11, 2, value),
    {
        let w = self.0;
        u64_set_bit_range(&mut self.0, 11, 2, value);
        assert((w & !(((u64::MAX << 52u64) >> 54u64) << 2u64)) | ((value << 2u64) & (((u64::MAX << 52u64) >> 54u64) << 2u64))
            == with_field(w, 11, 2, value)) by (bit_vector);
    }

    pub fn address(&self) -> (r: u64)
        ensures
            r == field_value(self.0, 47, 12),
    {
        let r = u64_bit_range(self.0, 47, 12);
        let w = self.0;
        assert(((((w << 16u64) >> 28u64) << 28u64) >> 28u64) == field_value(w, 47, 12)) by (bit_vector);
        r
    }

    pub fn set_address(&mut self, value: u64)
        ensures
            final(self).0 == with_field(old(self).0, 47, 12, value),
    {
        let w = self.0;
        u64_set_bit_range(&mut self.0, 47, 12, value);
        assert((w & !(((u64::MAX << 16u64) >> 28u64) << 12u64)) | ((value << 12u64) & (((u64::MAX << 16u64) >> 28u64) << 12u64))
            == with_field(w, 47, 12, value)) by (bit_vector);
    }

    pub fn upper_attributes(&self) -> (r: u64)
        ensures
            r == field_value(self.0, 63, 59),
    {
        let r = u64_bit_range(self.0, 63, 59);
        let w = self.0;
        assert(((((w << 0u64) >> 59u64) << 59u64) >> 59u64) == field_value(w, 63, 59)) by (bit_vector);
        r
    }

    pub fn set_upper_attributes(&mut self, value: u64)
        ensures
            final(self).0 == with_field(old(self).0, 63, 59, value),
    {
        let w = self.0;
        u64_set_bit_range(&mut self.0, 63, 59, value);
        assert((w & !(((u64::MAX << 0u64) >> 59u64) << 59u64)) | ((value << 59u64) & (((u64::MAX << 0u64) >> 59u64) << 59u64))
            == with_field(w, 63, 59, value)) by (bit_vector);
    }
}

/// Reading a field just set gives back the value written, cut to the field's width.
pub proof fn lemma_field_set_then_get(word: u64, msb: u64, lsb: u64, value: u64)
    requires
        lsb <= msb < 64,
    ensures
        field_value(with_field(word, msb, lsb, value), msb, lsb) == value & width_mask(msb, lsb),
{
    assert(((((word & !((u64::MAX >> ((63 - msb + lsb) as u64)) << lsb)) | ((value << lsb) & ((u64::MAX >> ((63 - msb + lsb) as u64)) << lsb))) >> lsb)
        & (u64::MAX >> ((63 - msb + lsb) as u64))) == value & (u64::MAX >> ((63 - msb + lsb) as u64))) by (bit_vector)
        requires
            lsb <= msb < 64,
    ;
}

/// Setting a field leaves every field that does not overlap it unchanged.
pub proof fn lemma_field_set_keeps_other(word: u64, msb: u64, lsb: u64, value: u64, msb2: u64, lsb2: u64)
    requires
        lsb <= msb < 64,
        lsb2 <= msb2 < 64,
        msb2 < lsb || msb < lsb2,
    ensures
        field_value(with_field(word, msb, lsb, value), msb2, lsb2) == field_value(word, msb2, lsb2),
{
    assert(((((word & !((u64::MAX >> ((63 - msb + lsb) as u64)) << lsb)) | ((value << lsb) & ((u64::MAX >> ((63 - msb + lsb) as u64)) << lsb))) >> lsb2)
        & (u64::MAX >> ((63 - msb2 + lsb2) as u64))) == ((word >> lsb2) & (u64::MAX >> ((63 - msb2 + lsb2) as u64)))) by (bit_vector)
        requires
            lsb <= msb < 64,
            lsb2 <= msb2 < 64,
            msb2 < lsb || msb < lsb2,
    ;
}

/// Writing a field's own value back changes nothing.
pub proof fn lemma_field_set_own_value(word: u64, msb: u64, lsb: u64)
    requires
        lsb <= msb < 64,
    ensures
        with_field(word, msb, lsb, field_value(word, msb, lsb)) == word,
{
    assert(((word & !((u64::MAX >> ((63 - msb + lsb) as u64)) << lsb)) | ((((word >> lsb) & (u64::MAX >> ((63 - msb + lsb) as u64))) << lsb)
        & ((u64::MAX >> ((63 - msb + lsb) as u64)) << lsb))) == word) by (bit_vector)
        requires
            lsb <= msb < 64,
    ;
}

} // verus!
