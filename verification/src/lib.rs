//! A TTY user-interface library built around differential rendering: callers
//! declare the desired contents of a terminal viewport cell by cell, and a
//! commit step emits the minimum terminal byte sequences needed to realize it.

mod position;
pub use position::{AbsolutePosition, Position};

mod vector;
pub use vector::Vector;

mod style;
pub use style::{Color, Style};

mod result;
pub use result::Error;

mod state;
pub use state::{Cell, State};

mod ansi;

mod grapheme;

mod device;
pub use device::Device;

mod interface;
pub use interface::Interface;

pub mod test;

mod mode;
pub use mode::{CursorMode, RenderMode};

mod config;
pub use config::Configuration;

mod cursor;
pub use cursor::CursorPosition;

pub mod format;

mod line;
pub use line::{Line, LineId, LineState};

mod segment;
pub use segment::{Segment, SegmentId, SegmentState};

mod layout;
pub use layout::{InterfaceLayout, LineLayout, PartLayout, RelativePosition, SegmentLayout};

mod text;
pub use text::{TextParameters, TextParametersWithLayout};

mod update;
pub use update::{UpdateBatch, UpdateStep};

mod terminal;
pub use terminal::{
    get_chunks, get_potential_width, get_previous_bounds, merge_part_layouts, trim_part_layouts,
    UnknownParameters,
};

