//! Arena game logic: the board grid, the nine arenas, record-and-replay
//! timelines, boss encounters and their versioned score files, tile
//! choreography, authoring layers, keyframed effects, the author tool's
//! editing grammar, and the decisions behind the game's screens and input
//! (which keys act when, focus, the HUD, music targets, panel windows).

pub mod grid;
pub mod timeline;
pub mod theme;
pub mod arena;
pub mod ability;
pub mod encounter;
pub mod versions;
pub mod tile;
pub mod tile_delta;
pub mod tile_script;
pub mod effect;
pub mod layer;
pub mod travel;
pub mod layer_edit;
pub mod sheet_edit;
pub mod recording;
pub mod browser;
pub mod sync;
pub mod sheet_modal;
pub mod modal;
pub mod rename;
pub mod author;
pub mod published;
pub mod tile_play;
pub mod browser_tree;
pub mod ruler;
pub mod music;
pub mod focus;
pub mod gates;
pub mod states;
pub mod popout;
pub mod hud;
pub mod sheet_keys;
pub mod sheet_rows;
pub mod scenery;
