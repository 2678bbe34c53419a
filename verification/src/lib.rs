//! A CHIP-8 virtual machine: a 35-instruction fetch/decode/execute core with
//! an exactly specified step relation, historically divergent interpreter
//! behaviors selected by a [`Quirks`] record, and platform capabilities
//! (key queries, beep start/stop) injected as driver traits.

pub mod drivers;
pub mod grid;
pub mod laws;
pub mod machine;
pub mod quirks;
pub mod semantics;

pub use drivers::AudioDriver;
pub use drivers::Drivers;
pub use drivers::InputDriver;
pub use drivers::NoopAudio;
pub use drivers::NoopInput;
pub use machine::get_bits;
pub use machine::Machine;
pub use machine::RomError;
pub use quirks::Quirks;
pub use semantics::CYCLES_PER_SECOND;
pub use semantics::DISPLAY_HEIGHT;
pub use semantics::DISPLAY_WIDTH;
pub use semantics::FONT_START;
pub use semantics::MEMORY_SIZE;
pub use semantics::PROGRAM_START;
