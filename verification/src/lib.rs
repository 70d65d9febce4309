pub mod catalog;
pub mod hotkey;
pub mod icon;
pub mod item;
pub mod launch;
pub mod listing;
pub mod merge;
pub mod names;
pub mod order;
pub mod scan;
pub mod text;

pub use crate::catalog::{build_catalog, get_all_programs};
pub use crate::icon::{extract_icon, icon_to_base64, BitmapGeometry, DumpRequest, PixelDump};
pub use crate::item::ProgramItem;
pub use crate::listing::DirEntry;
pub use crate::scan::scan_directory;
