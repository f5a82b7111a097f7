//! Signal descriptor model: the static shape of a signal and the named
//! descriptor a loader session hands to the host.

use vstd::prelude::*;

verus! {

/// Static shape of a signal: a single bit, or an indexed bit-vector with
/// signed, possibly non-ascending bounds. The bound order conveys bit
/// ordering downstream and is preserved as given.
#[derive(Debug, Clone, Copy, PartialEq, Eq)]
pub enum SignalType {
    Bit,
    Vector(i32, i32),
}

impl SignalType {
    /// Number of storage bits the signal occupies within one frame:
    /// 1 for `Bit`, `|msb - lsb|` for `Vector(msb, lsb)`.
    pub open spec fn spec_width(self) -> nat {
        match self {
            SignalType::Bit => 1,
            SignalType::Vector(msb, lsb) => if msb >= lsb {
                (msb - lsb) as nat
            } else {
                (lsb - msb) as nat
            },
        }
    }

    /// Width in storage bits.
    pub fn width(&self) -> (w: usize)
        ensures
            w == self.spec_width(),
    {
        match self {
            SignalType::Bit => 1,
            SignalType::Vector(msb, lsb) => {
                let m: i64 = *msb as i64;
                let l: i64 = *lsb as i64;
                if m >= l {
                    (m - l) as usize
                } else {
                    (l - m) as usize
                }
            },
        }
    }
}

/// One signal exposed by a loader session. The position of a descriptor in
/// the sequence returned by `init_signals` is the signal id used everywhere
/// else; names need not be unique at this layer.
#[derive(Debug, Clone, PartialEq, Eq)]
pub struct SignalSpec {
    pub name: String,
    pub typespec: SignalType,
}

/// A named signal together with a display format hint.
#[derive(Debug, Clone, PartialEq, Eq)]
pub struct WaveSignal {
    pub name: String,
    pub format: String,
}

} // verus!
