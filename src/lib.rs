//! Input routing arbitration: picks which spatial receivers get pointer and
//! keyboard input, from ray intersection results gathered once per frame.
//!
//! Distances are fixed-point integers in micrometres, so that every rule can
//! be stated and proved exactly.
//!
//! - `ray`: what one ray-march query reports, and the filter and tie tests.
//! - `reduce`: the pointer reduction (closest hits, ties grouped) and the
//!   single-winner hover reduction.
//! - `order`: when the pointer reduction does not depend on arrival order.
//! - `registry`, `capture`, `cycle`: the candidate registry, the capture state
//!   machine, and `PointerHandler`, which runs one arbitration cycle at a time.
//! - `hover`: routing keyed events to the single closest candidate.
//! - `button`, `frame`: press/release bookkeeping and the length framing of
//!   the input event stream; `device`, `keymap`: input loop commands and the
//!   compositor keymap.

pub mod ray;
pub mod reduce;
pub mod order;
pub mod registry;
pub mod capture;
pub mod cycle;
pub mod device;
pub mod keymap;
pub mod hover;
pub mod button;
pub mod frame;
pub mod mouse;
