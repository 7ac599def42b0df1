//! The signal graph: propagation modes, ticks, signals and the edges that
//! carry them; and top-1 expert routing.
use vstd::prelude::*;

verus! {

broadcast use vstd::slice::group_slice_axioms;

/// How a signal propagates along an edge.
#[derive(Clone, Copy, Debug, PartialEq, Eq, Structural)]
pub enum Mode {
    Dense,
    Sequential,
    Wave,
    Event,
}

/// The code of a mode.
pub open spec fn mode_code(m: Mode) -> u8 {
    match m {
        Mode::Dense => 0,
        Mode::Sequential => 1,
        Mode::Wave => 2,
        Mode::Event => 3,
    }
}

impl Mode {
    /// Every mode, in code order.
    pub fn all() -> (r: [Mode; 4])
        ensures
            forall|i: int| 0 <= i < 4 ==> mode_code(#[trigger] r@[i]) == i,
    {
        [Mode::Dense, Mode::Sequential, Mode::Wave, Mode::Event]
    }

    pub fn as_u8(self) -> (r: u8)
        ensures
            r == mode_code(self),
    {
        match self {
            Mode::Dense => 0,
            Mode::Sequential => 1,
            Mode::Wave => 2,
            Mode::Event => 3,
        }
    }

    pub fn from_u8(value: u8) -> (r: Option<Mode>)
        ensures
            r is Some <==> value <= 3,
            r matches Some(m) ==> mode_code(m) == value,
    {
        match value {
            0 => Some(Mode::Dense),
            1 => Some(Mode::Sequential),
            2 => Some(Mode::Wave),
            3 => Some(Mode::Event),
            _ => None,
        }
    }
}

/// Codes identify modes: a mode read back from its code is the same mode,
/// and two modes with one code are the same.
pub proof fn law_mode_code_roundtrip(m: Mode, n: Mode)
    ensures
        mode_code(m) <= 3,
        mode_code(m) == mode_code(n) ==> m == n,
{
}

/// A point in simulated time.
#[derive(Clone, Copy, Debug, PartialEq, Eq, Structural)]
pub struct Tick(pub u64);

impl Tick {
    /// The tick `delay` steps later, wrapping around at `u64::MAX`.
    pub fn advance(self, delay: u32) -> (r: Tick)
        ensures
            r.0 == (self.0 + delay) % 0x1_0000_0000_0000_0000,
    {
        Tick(self.0.wrapping_add(delay as u64))
    }
}

/// A node of the signal graph.
#[derive(Clone, Copy, Debug, PartialEq, Eq, Structural)]
pub struct NodeId(pub u32);

/// What travels with a signal: its phase (an `f32`, kept as its bit
/// pattern), the distance it has covered and its event mask.
#[derive(Clone, Copy, Debug, PartialEq, Eq, Structural)]
pub struct Meta {
    pub phase_bits: u32,
    pub distance: u32,
    pub event_mask: u32,
}

impl Meta {
    /// Zero phase, distance and mask.
    pub fn neutral() -> (r: Meta)
        ensures
            r == (Meta { phase_bits: 0, distance: 0, event_mask: 0 }),
    {
        Meta { phase_bits: 0, distance: 0, event_mask: 0 }
    }
}

/// `1.0` as an `f32` bit pattern: the confidence of a freshly emitted
/// signal.
pub const FULL_CONFIDENCE_BITS: u32 = 0x3f80_0000;

/// A signal: a payload emitted by a node at a tick. Its confidence is an
/// `f32`, kept as its bit pattern.
pub struct Signal<'a, T> {
    pub payload: &'a [T],
    pub timestamp: Tick,
    pub confidence_bits: u32,
    pub origin: NodeId,
    pub propagation_mode: Mode,
    pub metadata: Meta,
}

impl<'a, T> Signal<'a, T> {
    /// A signal at full confidence with neutral metadata.
    pub fn emitted(payload: &'a [T], timestamp: Tick, origin: NodeId, propagation_mode: Mode) -> (r:
        Self)
        ensures
            r.payload@ == payload@,
            r.timestamp == timestamp,
            r.confidence_bits == FULL_CONFIDENCE_BITS,
            r.origin == origin,
            r.propagation_mode == propagation_mode,
            r.metadata == (Meta { phase_bits: 0, distance: 0, event_mask: 0 }),
    {
        Signal {
            payload,
            timestamp,
            confidence_bits: FULL_CONFIDENCE_BITS,
            origin,
            propagation_mode,
            metadata: Meta::neutral(),
        }
    }

    /// The number of values the signal carries.
    pub fn width(&self) -> (r: usize)
        ensures
            r == self.payload@.len(),
    {
        self.payload.len()
    }
}

/// How many distance units a wave covers per tick.
pub const WAVE_SPEED: u32 = 1;

/// Whether the `f32` with bit pattern `bits` is at least `0.5`: exactly the
/// patterns from that of `0.5` up to that of positive infinity, since
/// non-negative floats order as their patterns do, and negative values and
/// NaNs compare below.
pub open spec fn at_least_half(bits: u32) -> bool {
    0x3f00_0000 <= bits <= 0x7f80_0000
}

/// The delay and admission of a signal by its mode: dense signals arrive at
/// once, sequential ones a tick later, waves after their distance divided by
/// the wave speed, and events at once when their confidence is at least
/// one half.
pub open spec fn transport_law_spec<T>(signal: Signal<'_, T>) -> (u32, bool) {
    match signal.propagation_mode {
        Mode::Dense => (0, true),
        Mode::Sequential => (1, true),
        Mode::Wave => ((signal.metadata.distance / WAVE_SPEED) as u32, true),
        Mode::Event => (0, at_least_half(signal.confidence_bits)),
    }
}

pub fn transport_law<T>(signal: &Signal<'_, T>) -> (r: (u32, bool))
    ensures
        r == transport_law_spec(*signal),
{
    match signal.propagation_mode {
        Mode::Dense => (0, true),
        Mode::Sequential => (1, true),
        Mode::Wave => (signal.metadata.distance / WAVE_SPEED, true),
        Mode::Event => (
            0,
            0x3f00_0000 <= signal.confidence_bits && signal.confidence_bits <= 0x7f80_0000,
        ),
    }
}

/// When a signal arrives and whether it is delivered at all.
#[derive(Clone, Copy, Debug, PartialEq, Eq, Structural)]
pub struct Delivery {
    pub delay: u32,
    pub deliver: bool,
}

/// A directed edge of the signal graph.
#[derive(Clone, Copy, Debug, PartialEq, Eq, Structural)]
pub struct EdgeData {
    pub from: NodeId,
    pub to: NodeId,
    pub mode: Mode,
    pub meta: Meta,
}

impl EdgeData {
    /// A dense edge with neutral metadata.
    pub fn new(from: NodeId, to: NodeId) -> (r: Self)
        ensures
            r == (EdgeData {
                from,
                to,
                mode: Mode::Dense,
                meta: Meta { phase_bits: 0, distance: 0, event_mask: 0 },
            }),
    {
        EdgeData { from, to, mode: Mode::Dense, meta: Meta::neutral() }
    }

    pub fn with_mode(from: NodeId, to: NodeId, mode: Mode, meta: Meta) -> (r: Self)
        ensures
            r == (EdgeData { from, to, mode, meta }),
    {
        EdgeData { from, to, mode, meta }
    }

    /// Carries a signal along the edge: the delay is the transport law's;
    /// the signal is delivered when the edge points forward (to a higher
    /// node id) and the law admits it.
    pub fn transport<T>(&self, signal: &Signal<'_, T>) -> (r: Delivery)
        ensures
            r.delay == transport_law_spec(*signal).0,
            r.deliver == (self.to.0 > self.from.0 && transport_law_spec(*signal).1),
    {
        let forward = self.to.0 > self.from.0;
        let (delay, mode_allows) = transport_law(signal);
        Delivery { delay, deliver: forward && mode_allows }
    }
}

/// Errors of the mixture-of-experts blocks.
#[derive(Clone, Copy, Debug, PartialEq, Eq, Structural)]
pub enum MoeError {
    Empty,
    ShapeMismatch,
}

/// Copies the first `h` values of the chosen expert's output into `out`;
/// `ShapeMismatch`, leaving `out` alone, when `h` is zero or either buffer is
/// shorter than `h`.
pub fn route_top1<T: Copy>(expert_out: &[T], h: usize, out: &mut [T]) -> (r: Result<(), MoeError>)
    ensures
        r is Ok <==> h > 0 && expert_out@.len() >= h && old(out)@.len() >= h,
        r is Err ==> r == Err::<(), MoeError>(MoeError::ShapeMismatch) && final(out)@ == old(out)@,
        r is Ok ==> final(out)@ == expert_out@.subrange(0, h as int) + old(out)@.subrange(
            h as int,
            old(out)@.len() as int,
        ),
{
    if h == 0 || expert_out.len() < h || out.len() < h {
        return Err(MoeError::ShapeMismatch);
    }
    let ghost o0 = out@;
    let mut i: usize = 0;
    while i < h
        invariant
            h <= expert_out@.len(),
            h <= out@.len(),
            out@.len() == o0.len(),
            i <= h,
            forall|j: int| 0 <= j < i ==> #[trigger] out@[j] == expert_out@[j],
            forall|j: int| i <= j < out@.len() ==> #[trigger] out@[j] == o0[j],
        decreases h - i,
    {
        out[i] = expert_out[i];
        i = i + 1;
    }
    assert(out@ =~= expert_out@.subrange(0, h as int) + o0.subrange(h as int, o0.len() as int));
    Ok(())
}

} // verus!
