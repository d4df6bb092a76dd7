//! Display settings and display topologies of a Windows desktop.
//!
//! The library holds the decisions: which paths of a display configuration
//! stand for which monitor, how the virtual desktop moves when another monitor
//! becomes the primary one, what is written back into a configuration, and how
//! the stored display sets of the registry are read, ordered and described.
//! It works on plain values. A program around it makes the system calls.

pub mod clock;
pub mod config;
pub mod connectivity;
pub mod connectivity_laws;
pub mod display;
pub mod display_laws;
pub mod display_sets;
pub mod error;
pub mod properties;
pub mod query;
pub mod recent;
pub mod report;
pub mod report_laws;
pub mod text;
pub mod text_laws;
pub mod topology;
pub mod types;
pub mod watch;

pub use connectivity::{read_connectivity_database, ConnectivityEntry, OrphanedConfigEntry};
pub use display::{Display, DisplaySet};
pub use error::{DisplayError, DisplayPropertiesError};
pub use properties::{DisplayProperties, DisplaySettings};
pub use query::{query_displays, refresh};
pub use recent::set_connectivity_recent;
pub use topology::{query_stored_topologies, query_topology, Topology};
pub use types::{
    BitDepth, ConnectorType, Frequency, Orientation, Position, Resolution, Scaling,
    ScanlineOrdering,
};
