//! Platform capabilities injected at construction: a key-pressed query and
//! beep start/stop triggers. The core states nothing about their results, so
//! any host implementation is admissible; the no-op doubles below make
//! deterministic runs possible without a platform.

use vstd::prelude::*;

verus! {

/// The audio capability: start and stop a beep. Implementations may be
/// no-ops.
pub trait AudioDriver {
    /// Start the beep.
    fn start_beep(&mut self);

    /// Stop the beep; invoked by the machine when the sound timer's
    /// decrement reaches exactly zero.
    fn stop_beep(&mut self);
}

/// The input capability: report the currently pressed key, one of sixteen
/// values, or none. With several keys down the host picks one in its own
/// priority order.
pub trait InputDriver {
    /// The currently pressed key, if any.
    fn get_key_pressed(&mut self) -> Option<u8>;
}

/// An audio capability that does nothing.
pub struct NoopAudio {}

impl AudioDriver for NoopAudio {
    fn start_beep(&mut self) {
    }

    fn stop_beep(&mut self) {
    }
}

/// An input capability that never reports a key.
pub struct NoopInput {}

impl InputDriver for NoopInput {
    fn get_key_pressed(&mut self) -> (key: Option<u8>)
        ensures
            key is None,
    {
        None
    }
}

/// The capability bundle a machine is constructed with and keeps for its
/// lifetime.
pub struct Drivers<A: AudioDriver, I: InputDriver> {
    /// The audio capability.
    pub audio: A,
    /// The input capability.
    pub input: I,
}

impl<A: AudioDriver, I: InputDriver> Drivers<A, I> {
    /// Bundle the two capabilities.
    pub fn new(audio: A, input: I) -> (d: Drivers<A, I>)
        ensures
            d.audio == audio,
            d.input == input,
    {
        Drivers { audio, input }
    }
}

impl Drivers<NoopAudio, NoopInput> {
    /// A bundle of no-op capabilities, for hosts and tests that need none.
    pub fn noop() -> (d: Drivers<NoopAudio, NoopInput>)
        ensures
            d.audio == (NoopAudio {  }),
            d.input == (NoopInput {  }),
    {
        Drivers { audio: NoopAudio {  }, input: NoopInput {  } }
    }
}

} // verus!
