use vstd::prelude::*;

verus! {

/// Failure to read a numbered field of a register.
#[derive(Debug, Clone, Copy, PartialEq, Eq, Structural)]
pub enum RegisterError {
    /// The field index lies outside `min ..= max`.
    IndexOutOfBounds { index: usize, min: usize, max: usize },
}

/// The supervisor counter-enable register: which counters user code may read.
#[derive(Debug, Clone, Copy, PartialEq, Eq, Structural)]
pub struct Scounteren {
    bits: usize,
}

impl Scounteren {
    pub closed spec fn spec_bits(&self) -> usize {
        self.bits
    }

    /// Bit `i` of the register value.
    pub open spec fn bit(&self, i: usize) -> bool {
        self.spec_bits() & (1usize << i) != 0
    }

    /// The register as read from the hardware.
    pub fn from_bits(bits: usize) -> (r: Self)
        ensures
            r.spec_bits() == bits,
    {
        Scounteren { bits }
    }

    pub fn bits(&self) -> (r: usize)
        ensures
            r == self.spec_bits(),
    {
        self.bits
    }

    /// User access to the cycle counter.
    pub fn cy(&self) -> (r: bool)
        ensures
            r == self.bit(0),
    {
        self.bits & (1usize << 0usize) != 0
    }

    /// User access to the timer.
    pub fn tm(&self) -> (r: bool)
        ensures
            r == self.bit(1),
    {
        self.bits & (1usize << 1usize) != 0
    }

    /// User access to the instructions-retired counter.
    pub fn ir(&self) -> (r: bool)
        ensures
            r == self.bit(2),
    {
        self.bits & (1usize << 2usize) != 0
    }

    /// User access to hardware performance counter `index`, for `index` in `3 .. 32`.
    pub fn hpm(&self, index: usize) -> (r: bool)
        requires
            3 <= index < 32,
        ensures
            r == self.bit(index),
    {
        self.bits & (1usize << index) != 0
    }

    /// User access to hardware performance counter `index`, or an error where
    /// `index` is outside `3 .. 32`.
    pub fn try_hpm(&self, index: usize) -> (r: Result<bool, RegisterError>)
        ensures
            3 <= index < 32 ==> r == Ok::<bool, RegisterError>(self.bit(index)),
            !(3 <= index < 32) ==> r == Err::<bool, RegisterError>(
                RegisterError::IndexOutOfBounds { index, min: 3, max: 31 },
            ),
    {
        if 3 <= index && index < 32 {
            Ok(self.bits & (1usize << index) != 0)
        } else {
            Err(RegisterError::IndexOutOfBounds { index, min: 3, max: 31 })
        }
    }
}

} // verus!
