//! Zone-partition model for a tiling window manager.
//!
//! A `Layout` holds alternative tiling schemes (`Variant`s) for one monitor
//! rectangle.  Each variant is an ordered list of states, where a state is an
//! ordered list of `Zone` rectangles that exactly tile the monitor.  States
//! are edited with split, merge and swap operations, all of which preserve
//! the tiling invariant; states beyond the manually authored ones can be
//! synthesized by an extension engine and previewed reversibly.

pub mod zone;
pub mod state;
pub mod variant;
pub mod layout;
pub mod preview;

pub use zone::Direction;
pub use zone::SplitDirection;
pub use zone::Zone;
pub use state::LayoutError;
pub use variant::EndTilingBehaviour;
pub use variant::RepeatingSplit;
pub use variant::Variant;
pub use layout::Layout;
pub use preview::PreviewSession;
