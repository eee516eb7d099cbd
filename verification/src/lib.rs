//! Game rules of a grid tower-defence: the scrap pile and its footprint,
//! enemy goals and scrap theft, endless-mode bookkeeping, run statistics,
//! sound timing, and the placement of terrain and obstacle clusters on the
//! navigation grid.

pub mod geom;
pub mod pile;
pub mod states;
pub mod audio;
pub mod economy;
pub mod random;
pub mod enemy;
pub mod stats;
pub mod cellset;
pub mod nav;
pub mod terrain;
pub mod terrain_map;
pub mod placement;
