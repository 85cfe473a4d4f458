//! Core logic of the way-edges daemon: transition timing, mouse interaction
//! state, widget placement, grid layout, pointer tracking over boxes, the
//! outlook window's layout, tray menu state, tray icon pixels, the border
//! blur, the callback registries of the workspace, volume, backlight and
//! tray monitors, workspace data and `/proc/meminfo` parsing.
pub mod backlight;
pub mod blur;
pub mod edge;
pub mod expose;
pub mod grid;
pub mod hover;
pub mod hypr;
pub mod icon;
pub mod menu;
pub mod meminfo;
pub mod mouse;
pub mod outlook;
pub mod pulse;
pub mod pulse_devices;
pub mod registry;
pub mod transition;
pub mod tray;
