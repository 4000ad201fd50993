//! The sprite-sheet document as exported by the authoring tool.

use vstd::prelude::*;

verus! {

/// Everything that can go wrong while a document is loaded and indexed.
#[derive(Debug, Clone, Copy, PartialEq, Eq, Structural)]
pub enum SheetError {
    /// The text does not follow the document's schema.
    MalformedDocument,
    /// A frame name holds fewer than three `-`-separated fields.
    InvalidFilenameFormat,
    /// A tag name matches no tag of the vocabulary, or has no frame range.
    UnknownAnimationTag,
    /// Two frame ranges are declared for the same tag.
    DuplicateAnimationTag,
    /// A frame belongs to a layer that the document does not declare.
    UndeclaredLayer,
    /// A frame range ends before it starts.
    InvalidFrameRange,
}

/// A rectangle in atlas pixels.
#[derive(Debug, Clone, Copy, PartialEq, Eq, Structural)]
pub struct SizeInfo {
    pub x: usize,
    pub y: usize,
    pub w: usize,
    pub h: usize,
}

/// A width and a height.
#[derive(Debug, Clone, Copy, PartialEq, Eq, Structural)]
pub struct SizeInfoMin {
    pub w: usize,
    pub h: usize,
}

/// One sub-image of the atlas.
#[derive(Debug, Clone)]
pub struct FrameInfo {
    /// Encoded as `<tag>-<layer>-<ordinal>`.
    pub filename: String,
    pub frame: SizeInfo,
    pub rotated: bool,
    pub trimmed: bool,
    pub sprite_source_size: SizeInfo,
    pub source_size: SizeInfoMin,
    /// Milliseconds; informational only.
    pub duration: usize,
}

/// The name of a rendering layer.
#[derive(Debug, Clone, Default, PartialEq, Eq, Hash, PartialOrd, Ord)]
pub struct LayerName(pub String);

impl LayerName {
    pub open spec fn view(&self) -> Seq<char> {
        self.0@
    }

    /// Whether the two names hold the same characters.
    pub fn same_as(&self, other: &LayerName) -> (r: bool)
        ensures
            r == (self.view() == other.view()),
    {
        self.0 == other.0
    }

    pub fn duplicate(&self) -> (r: LayerName)
        ensures
            r.view() == self.view(),
    {
        LayerName(self.0.clone())
    }
}

/// A declared layer; opacity and blend mode are carried through untouched.
#[derive(Debug, Clone)]
pub struct LayerInfo {
    pub name: LayerName,
    pub opacity: usize,
    pub blend_mode: String,
}

/// How a tag's frame window is meant to be played.
#[derive(Debug, Clone, Copy, PartialEq, Eq, Structural, Hash)]
pub enum AnimationDirections {
    Forward,
    Backward,
    PingPong,
}

/// A named animation: the inclusive frame window `from..=to`.
#[derive(Debug, Clone)]
pub struct TagInfo {
    pub name: String,
    pub from: usize,
    pub to: usize,
    pub direction: AnimationDirections,
}

/// Document-level information.
#[derive(Debug, Clone)]
pub struct Meta {
    pub app: String,
    pub version: String,
    pub image: String,
    pub format: String,
    pub size: SizeInfoMin,
    pub scale: String,
    pub frame_tags: Vec<TagInfo>,
    pub layers: Vec<LayerInfo>,
    pub slices: Vec<String>,
}

/// The whole exported document.
#[derive(Debug, Clone)]
pub struct SpriteInfo {
    pub frames: Vec<FrameInfo>,
    pub meta: Meta,
}

/// The encoded names of the frames, in document order.
pub open spec fn frame_names(frames: Seq<FrameInfo>) -> Seq<Seq<char>> {
    Seq::new(frames.len(), |i: int| frames[i].filename@)
}

/// The declared layer names, in document order.
pub open spec fn declared_layers(layers: Seq<LayerInfo>) -> Seq<Seq<char>> {
    Seq::new(layers.len(), |i: int| layers[i].name.view())
}

} // verus!
