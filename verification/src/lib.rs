//! In-memory editing engine of a raster image editor: layers of RGBA pixels,
//! alpha compositing, brush and fill tools, selections and a bounded
//! undo/redo history.

pub mod canvas;
pub mod clipboard;
pub mod color;
pub mod commands;
pub mod compositor;
pub mod editor;
pub mod fill;
pub mod history;
pub mod layer;
pub mod message;
pub mod positions;
pub mod selection;
pub mod session;
pub mod state;
pub mod tools;
pub mod undo;
pub mod update;
pub mod utils;
