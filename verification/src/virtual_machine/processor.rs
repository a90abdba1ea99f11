use vstd::prelude::*;
use crate::consts::{
    CARRY_FLAG, PARITY_FLAG, AUXILIARY_CARRY_FLAG, ZERO_FLAG, SIGN_FLAG, TRAP_FLAG,
    INTERRUPT_FLAG, DIRECTIONAL_FLAG, OVERFLOW_FLAG,
};

verus! {

/// Whether any bit of `mask` is set in the status register `sr`.
pub open spec fn has_flag(sr: u16, mask: u16) -> bool {
    sr & mask > 0
}

/// The status register `sr` with the bits of `mask` raised or lowered.
pub open spec fn with_flag(sr: u16, mask: u16, value: bool) -> u16 {
    if value {
        sr | mask
    } else {
        sr & !mask
    }
}

/// The status register after a write of the parity flag: raising it sets the
/// parity bit, lowering it masks the register down to the parity bit.
pub open spec fn with_parity(sr: u16, value: bool) -> u16 {
    if value {
        sr | PARITY_FLAG
    } else {
        sr & PARITY_FLAG
    }
}

/// The registers of a virtual-machine processor, as plain values.
pub struct VMRegisters {
    pub r1: u32,
    pub r2: u32,
    pub r3: u32,
    pub r4: u32,
    pub ic: u32,
    pub sr: u16,
    pub ptr: u32,
}

#[derive(Debug)]
pub struct VMProcessor {
    r1: u32,
    r2: u32,
    r3: u32,
    r4: u32,
    ic: u32,
    sr: u16,
    ptr: u32,
}

impl View for VMProcessor {
    type V = VMRegisters;

    closed spec fn view(&self) -> VMRegisters {
        VMRegisters {
            r1: self.r1,
            r2: self.r2,
            r3: self.r3,
            r4: self.r4,
            ic: self.ic,
            sr: self.sr,
            ptr: self.ptr,
        }
    }
}

impl VMProcessor {
    /// A processor with every register, the status register included, at zero.
    pub fn new() -> (cpu: VMProcessor)
        ensures
            cpu@ == (VMRegisters { r1: 0, r2: 0, r3: 0, r4: 0, ic: 0, sr: 0, ptr: 0 }),
    {
        VMProcessor { r1: 0, r2: 0, r3: 0, r4: 0, ic: 0, sr: 0, ptr: 0 }
    }

    pub fn get_carry_flag(self) -> (on: bool)
        ensures
            on == has_flag(self@.sr, CARRY_FLAG),
    {
        self.sr & CARRY_FLAG > 0
    }

    pub fn get_parity_flag(self) -> (on: bool)
        ensures
            on == has_flag(self@.sr, PARITY_FLAG),
    {
        self.sr & PARITY_FLAG > 0
    }

    pub fn get_auxiliary_carry_flag(self) -> (on: bool)
        ensures
            on == has_flag(self@.sr, AUXILIARY_CARRY_FLAG),
    {
        self.sr & AUXILIARY_CARRY_FLAG > 0
    }

    pub fn get_zero_flag(self) -> (on: bool)
        ensures
            on == has_flag(self@.sr, ZERO_FLAG),
    {
        self.sr & ZERO_FLAG > 0
    }

    pub fn get_sign_flag(self) -> (on: bool)
        ensures
            on == has_flag(self@.sr, SIGN_FLAG),
    {
        self.sr & SIGN_FLAG > 0
    }

    pub fn get_trap_flag(self) -> (on: bool)
        ensures
            on == has_flag(self@.sr, TRAP_FLAG),
    {
        self.sr & TRAP_FLAG > 0
    }

    pub fn get_interrupt_flag(self) -> (on: bool)
        ensures
            on == has_flag(self@.sr, INTERRUPT_FLAG),
    {
        self.sr & INTERRUPT_FLAG > 0
    }

    pub fn get_directional_flag(self) -> (on: bool)
        ensures
            on == has_flag(self@.sr, DIRECTIONAL_FLAG),
    {
        self.sr & DIRECTIONAL_FLAG > 0
    }

    pub fn get_overflow_flag(self) -> (on: bool)
        ensures
            on == has_flag(self@.sr, OVERFLOW_FLAG),
    {
        self.sr & OVERFLOW_FLAG > 0
    }

    /// Virtual machines never run in supervisor mode.
    pub fn get_supervisor_flag(self) -> (on: bool)
        ensures
            !on,
    {
        false
    }

    pub fn set_carry_flag(&mut self, value: bool)
        ensures
            final(self)@ == (VMRegisters { sr: with_flag(old(self)@.sr, CARRY_FLAG, value), ..old(self)@ }),
    {
        if value {
            self.sr |= CARRY_FLAG;
        } else {
            self.sr &= !CARRY_FLAG;
        }
    }

    pub fn set_parity_flag(&mut self, value: bool)
        ensures
            final(self)@ == (VMRegisters { sr: with_parity(old(self)@.sr, value), ..old(self)@ }),
    {
        if value {
            self.sr |= PARITY_FLAG;
        } else {
            self.sr &= PARITY_FLAG;
        }
    }

    pub fn set_auxiliary_carry_flag(&mut self, value: bool)
        ensures
            final(self)@ == (VMRegisters { sr: with_flag(old(self)@.sr, AUXILIARY_CARRY_FLAG, value), ..old(self)@ }),
    {
        if value {
            self.sr |= AUXILIARY_CARRY_FLAG;
        } else {
            self.sr &= !AUXILIARY_CARRY_FLAG;
        }
    }

    pub fn set_zero_flag(&mut self, value: bool)
        ensures
            final(self)@ == (VMRegisters { sr: with_flag(old(self)@.sr, ZERO_FLAG, value), ..old(self)@ }),
    {
        if value {
            self.sr |= ZERO_FLAG;
        } else {
            self.sr &= !ZERO_FLAG;
        }
    }

    pub fn set_sign_flag(&mut self, value: bool)
        ensures
            final(self)@ == (VMRegisters { sr: with_flag(old(self)@.sr, SIGN_FLAG, value), ..old(self)@ }),
    {
        if value {
            self.sr |= SIGN_FLAG;
        } else {
            self.sr &= !SIGN_FLAG;
        }
    }

    pub fn set_trap_flag(&mut self, value: bool)
        ensures
            final(self)@ == (VMRegisters { sr: with_flag(old(self)@.sr, TRAP_FLAG, value), ..old(self)@ }),
    {
        if value {
            self.sr |= TRAP_FLAG;
        } else {
            self.sr &= !TRAP_FLAG;
        }
    }

    pub fn set_interrupt_flag(&mut self, value: bool)
        ensures
            final(self)@ == (VMRegisters { sr: with_flag(old(self)@.sr, INTERRUPT_FLAG, value), ..old(self)@ }),
    {
        if value {
            self.sr |= INTERRUPT_FLAG;
        } else {
            self.sr &= !INTERRUPT_FLAG;
        }
    }

    pub fn set_directional_flag(&mut self, value: bool)
        ensures
            final(self)@ == (VMRegisters { sr: with_flag(old(self)@.sr, DIRECTIONAL_FLAG, value), ..old(self)@ }),
    {
        if value {
            self.sr |= DIRECTIONAL_FLAG;
        } else {
            self.sr &= !DIRECTIONAL_FLAG;
        }
    }

    pub fn set_overflow_flag(&mut self, value: bool)
        ensures
            final(self)@ == (VMRegisters { sr: with_flag(old(self)@.sr, OVERFLOW_FLAG, value), ..old(self)@ }),
    {
        if value {
            self.sr |= OVERFLOW_FLAG;
        } else {
            self.sr &= !OVERFLOW_FLAG;
        }
    }

    /// A virtual machine cannot enter supervisor mode: the write is ignored.
    pub fn set_supervisor_flag(&mut self, _value: bool)
        ensures
            final(self)@ == old(self)@,
    {
    }
}

/// A flag reads back as it was last written.
pub proof fn law_flag_reads_back(sr: u16, mask: u16, value: bool)
    requires
        mask != 0,
    ensures
        has_flag(with_flag(sr, mask, value), mask) == value,
{
    assert((sr | mask) & mask > 0) by (bit_vector)
        requires
            mask != 0,
    ;
    assert(!((sr & !mask) & mask > 0)) by (bit_vector);
}

/// Writing one flag leaves every flag on other bits as it was.
pub proof fn law_flag_write_is_local(sr: u16, mask: u16, other: u16, value: bool)
    requires
        mask & other == 0,
    ensures
        has_flag(with_flag(sr, mask, value), other) == has_flag(sr, other),
{
    assert((sr | mask) & other == sr & other) by (bit_vector)
        requires
            mask & other == 0,
    ;
    assert((sr & !mask) & other == sr & other) by (bit_vector)
        requires
            mask & other == 0,
    ;
}

/// The parity flag reads as set after it is raised. Lowering it leaves it
/// as it was and clears every other flag.
pub proof fn law_parity_write(sr: u16, other: u16)
    requires
        other & PARITY_FLAG == 0,
    ensures
        has_flag(with_parity(sr, true), PARITY_FLAG),
        has_flag(with_parity(sr, false), PARITY_FLAG) == has_flag(sr, PARITY_FLAG),
        !has_flag(with_parity(sr, false), other),
{
    assert((sr | 0x0004u16) & 0x0004u16 > 0) by (bit_vector);
    assert((sr & 0x0004u16) & 0x0004u16 == sr & 0x0004u16) by (bit_vector);
    assert(!((sr & 0x0004u16) & other > 0)) by (bit_vector)
        requires
            other & 0x0004u16 == 0,
    ;
}

/// A fresh processor has no flag set.
pub proof fn law_fresh_register_has_no_flag(mask: u16)
    ensures
        !has_flag(0, mask),
{
    assert(!(0u16 & mask > 0)) by (bit_vector);
}

} // verus!
