//! Loader session contract: the per-file state machine a plugin implements
//! (enumerate signals, count cycles, load a sub-range into a frame store),
//! and the name-to-index resolution a session performs inside `load`.

use vstd::prelude::*;

use crate::error::Error;
use crate::signal::SignalSpec;
use crate::wave::WaveData;

verus! {

/// A stateful per-file loader session. `init_signals` enumerates every
/// signal the source exposes in a fixed, repeatable order; `count_cycles`
/// may be called once the signal universe is established; `load` materializes
/// a frame store for the named signals over a half-open cycle range, and may
/// be called repeatedly for arbitrary sub-ranges and sub-sets.
pub trait WaveLoad {
    fn init_signals(&mut self) -> Result<Vec<SignalSpec>, Error>;

    fn count_cycles(&mut self) -> Result<u64, Error>;

    fn load(&mut self, signals: &Vec<String>, cycle_range: (u64, u64)) -> Result<WaveData, Error>;
}

/// The three states a loader session moves through.
#[derive(Debug, Clone, Copy, PartialEq, Eq, Structural)]
pub enum SessionState {
    /// Post `open`, pre signal enumeration.
    Opened,
    /// Post `init_signals`: the signal universe is established.
    Described,
    /// Post `count_cycles`: `load` may be called repeatedly.
    Ready,
}

/// The operations a host drives a session with.
#[derive(Debug, Clone, Copy, PartialEq, Eq, Structural)]
pub enum SessionOp {
    InitSignals,
    CountCycles,
    Load,
}

/// Whether the session contract permits `op` in `state`: `init_signals` is
/// idempotent and always permitted; `count_cycles` requires the signal
/// universe; `load` requires the cycle count.
pub open spec fn spec_permits(state: SessionState, op: SessionOp) -> bool {
    match op {
        SessionOp::InitSignals => true,
        SessionOp::CountCycles => state is Described || state is Ready,
        SessionOp::Load => state is Ready,
    }
}

/// The state after a permitted `op`: a session only ever moves forward.
pub open spec fn spec_next(state: SessionState, op: SessionOp) -> SessionState {
    match op {
        SessionOp::InitSignals => if state is Opened {
            SessionState::Described
        } else {
            state
        },
        SessionOp::CountCycles => SessionState::Ready,
        SessionOp::Load => SessionState::Ready,
    }
}

/// Applies one operation to the session state machine: a permitted operation
/// yields the successor state, an out-of-order one is rejected as a `Plugin`
/// contract violation.
pub fn advance(state: SessionState, op: SessionOp) -> (r: Result<SessionState, Error>)
    ensures
        spec_permits(state, op) ==> (r matches Ok(next) && next == spec_next(state, op)),
        !spec_permits(state, op) ==> (r matches Err(e) && e is Plugin),
{
    let permitted = match op {
        SessionOp::InitSignals => true,
        SessionOp::CountCycles => match state {
            SessionState::Opened => false,
            _ => true,
        },
        SessionOp::Load => match state {
            SessionState::Ready => true,
            _ => false,
        },
    };
    if !permitted {
        return Err(Error::Plugin("session operation called out of order".to_owned()));
    }
    let next = match op {
        SessionOp::InitSignals => match state {
            SessionState::Opened => SessionState::Described,
            _ => state,
        },
        SessionOp::CountCycles => SessionState::Ready,
        SessionOp::Load => SessionState::Ready,
    };
    Ok(next)
}

/// Whether some signal in the universe bears `name`.
pub open spec fn universe_has_name(universe: Seq<SignalSpec>, name: Seq<char>) -> bool {
    exists|i: int| 0 <= i < universe.len() && universe[i].name@ == name
}

/// Index of the first signal named `name`, or `None` if the universe has no
/// signal of that name.
fn find_signal(universe: &Vec<SignalSpec>, name: &String) -> (r: Option<usize>)
    ensures
        match r {
            Some(i) => i < universe@.len() && universe@[i as int].name@ == name@ && forall|j: int|
                0 <= j < i ==> universe@[j].name@ != name@,
            None => !universe_has_name(universe@, name@),
        },
{
    let n = universe.len();
    for i in 0..n
        invariant
            n == universe@.len(),
            forall|j: int| 0 <= j < i ==> universe@[j].name@ != name@,
    {
        let entry = &universe[i];
        if entry.name == *name {
            return Some(i);
        }
    }
    None
}

/// Resolves each requested name to the index of the first signal of that
/// name, in the order given. If any name is absent from the universe, the
/// whole lookup fails with `NotFound` carrying the first absent name, and no
/// indices are produced.
pub fn resolve_signal_indices(universe: &Vec<SignalSpec>, names: &Vec<String>) -> (r: Result<
    Vec<usize>,
    Error,
>)
    ensures
        match r {
            Ok(indices) => {
                &&& indices@.len() == names@.len()
                &&& forall|k: int|
                    0 <= k < names@.len() ==> (#[trigger] indices@[k]) < universe@.len()
                        && universe@[indices@[k] as int].name@ == names@[k]@ && forall|j: int|
                        0 <= j < indices@[k] ==> universe@[j].name@ != names@[k]@
            },
            Err(e) => {
                &&& exists|k: int|
                    {
                        &&& 0 <= k < names@.len()
                        &&& !universe_has_name(universe@, (#[trigger] names@[k])@)
                        &&& forall|m: int|
                            0 <= m < k ==> universe_has_name(universe@, (#[trigger] names@[m])@)
                        &&& e matches Error::NotFound(n) && n@ == names@[k]@
                    }
            },
        },
{
    let count = names.len();
    let mut indices: Vec<usize> = Vec::new();
    for k in 0..count
        invariant
            count == names@.len(),
            indices@.len() == k,
            forall|m: int|
                0 <= m < k ==> (#[trigger] indices@[m]) < universe@.len()
                    && universe@[indices@[m] as int].name@ == names@[m]@ && forall|j: int|
                    0 <= j < indices@[m] ==> universe@[j].name@ != names@[m]@,
            forall|m: int| 0 <= m < k ==> universe_has_name(universe@, (#[trigger] names@[m])@),
    {
        let name = &names[k];
        match find_signal(universe, name) {
            Some(i) => {
                indices.push(i);
            },
            None => {
                return Err(Error::NotFound(name.clone()));
            },
        }
    }
    Ok(indices)
}

} // verus!
