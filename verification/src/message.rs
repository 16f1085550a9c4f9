//! The messages that drive the editor, the formats that an image can be
//! exported in, and what the editor asks of its surroundings in return.

use crate::color::Color;
use crate::state::Tool;
use vstd::prelude::*;

verus! {

/// Everything that can be asked of the editor. Positions of the pointer on
/// the canvas are whole pixels; positions of a selection may lie outside
/// the canvas.
#[derive(Debug, PartialEq, Eq)]
#[allow(inconsistent_fields)]
pub enum Message {
    ToolSelected(Tool),
    PrimaryColorChanged(Color),
    SecondaryColorChanged(Color),
    ColorPicked(Color),
    UsedColorPicked(Color),
    BrushSizeChanged(u32),
    CanvasResized { width: u32, height: u32 },
    CanvasCleared,
    LayerAdded(String),
    LayerDeleted(usize),
    LayerMoved { from: usize, to: usize },
    LayerVisibilityToggled(usize),
    LayerSelected(usize),
    /// The opacity is a percentage.
    LayerOpacityChanged { index: usize, opacity: u8 },
    LayerRenamed { index: usize, name: String },
    PixelDrawn { x: u32, y: u32 },
    DrawingStarted { x: u32, y: u32 },
    DrawingEnded,
    FileNew,
    FileOpen,
    FileSave,
    FileSaveDialogResult { path: String, format: ExportFormat },
    ExportFormatSelected(ExportFormat),
    /// An image was read: its dimensions and its pixels, four bytes each.
    FileLoaded { width: u32, height: u32, data: Vec<u8> },
    FileSaved { path: String },
    Undo,
    Redo,
    ZoomChanged(u32),
    ZoomIn,
    ZoomOut,
    GridToggled,
    PanChanged { x: u32, y: u32 },
    SelectionStarted { x: i32, y: i32 },
    SelectionUpdated { x: i32, y: i32 },
    SelectionEnded,
    SelectionCleared,
    CopySelection,
    PasteSelection { x: u32, y: u32 },
    CutSelection,
    CanvasEvent,
    MirrorHorizontalToggled,
    MirrorVerticalToggled,
    /// A message that asks for nothing.
    Nothing,
}

/// What the editor asks of its surroundings after a message.
#[derive(Debug, PartialEq, Eq)]
pub enum Action {
    /// Nothing is to be done.
    Nothing,
    /// Let the user choose an image to open.
    ChooseFileToOpen,
    /// Let the user choose where to save an image of the given format.
    ChooseFileToSave { format: ExportFormat },
    /// Write the flattened image to the path in the given format.
    Export { path: String, format: ExportFormat, width: u32, height: u32, pixels: Vec<u8> },
}

/// The file format of an export.
#[derive(Debug, Clone, Copy, PartialEq, Eq, Structural)]
pub enum ExportFormat {
    Png,
    Gif,
    Bmp,
}

impl ExportFormat {
    /// The format's name as shown to the user.
    pub open spec fn label_spec(self) -> Seq<char> {
        match self {
            ExportFormat::Png => "PNG"@,
            ExportFormat::Gif => "GIF"@,
            ExportFormat::Bmp => "BMP"@,
        }
    }

    /// The file extension that goes with the format.
    pub open spec fn extension_spec(self) -> Seq<char> {
        match self {
            ExportFormat::Png => "png"@,
            ExportFormat::Gif => "gif"@,
            ExportFormat::Bmp => "bmp"@,
        }
    }

    /// The format's name as shown to the user: `PNG`, `GIF` or `BMP`.
    pub fn label(&self) -> (name: &'static str)
        ensures
            name@ == self.label_spec(),
    {
        match self {
            ExportFormat::Png => "PNG",
            ExportFormat::Gif => "GIF",
            ExportFormat::Bmp => "BMP",
        }
    }

    /// The file extension that goes with the format: `png`, `gif` or `bmp`.
    pub fn extension(&self) -> (name: &'static str)
        ensures
            name@ == self.extension_spec(),
    {
        match self {
            ExportFormat::Png => "png",
            ExportFormat::Gif => "gif",
            ExportFormat::Bmp => "bmp",
        }
    }
}

} // verus!
