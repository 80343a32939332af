//! Static triage of executable-image dumps for run-time code patching.
//!
//! Given the raw bytes of a PE image, possibly captured from a live process,
//! the library flags byte regions that look like inline prologue hooks,
//! syscall trampolines, or redirected table entries. It reports signals, not
//! verdicts: nothing is executed, and nothing is judged malicious.
//!
//! * [`bytes`] holds the bounds-checked reads that everything else goes
//!   through.
//! * [`parser`] recovers the image base and the section table, and maps file
//!   offsets to virtual addresses and virtual addresses to section names.
//! * [`routines`] holds the classifiers, each a pure test on the buffer.
//! * [`hooks`] walks a buffer once and collects what the classifiers find,
//!   grouped by section.
//! * [`disassembler`] and [`hex`] render what was found for display.
//!
//! The input is untrusted. No function here fails on a short, truncated or
//! corrupt buffer; each states in its contract what it returns instead.

pub mod bytes;
pub mod disassembler;
pub mod hex;
pub mod hooks;
pub mod parser;
pub mod routines;
