//! Font-atlas and text-rendering library: glyph rasterization behind a
//! capability interface, shelf packing into a bounded atlas, an offline
//! atlas baker, a versioned/compressed/checksummed binary codec, a runtime
//! glyph cache with graceful degradation, and integer text layout.

pub mod animation;
pub mod atlas;
pub mod cache;
pub mod codec;
pub mod engine;
pub mod error;
pub mod input;
pub mod layout;
pub mod packer;
pub mod raster;
pub mod render;
pub mod style;
pub mod tile;

pub use animation::AnimationProvider;
pub use animation::AnimationSequence;
pub use atlas::CharEntry;
pub use atlas::CharInfo;
pub use atlas::FontAtlas;
pub use atlas::FontType;
pub use cache::GlyphEntry;
pub use cache::RuntimeGlyphCache;
pub use cache::Upload;
pub use cache::UvRect;
pub use codec::FontAtlasFile;
pub use engine::EngineConfig;
pub use error::FontError;
pub use error::TextError;
pub use input::InputAction;
pub use input::KeyState;
pub use layout::LayoutGlyph;
pub use layout::LayoutLine;
pub use layout::PlacedGlyph;
pub use layout::TextLayout;
pub use packer::Placement;
pub use packer::ShelfPacker;
pub use raster::FixedGlyph;
pub use raster::FixedGlyphSource;
pub use raster::FontRasterizer;
pub use raster::GlyphSource;
pub use raster::RasterGlyph;
pub use render::DrawCommand;
pub use render::TextRenderer;
pub use render::TextRendererBuilder;
pub use style::Padding;
pub use style::TextAlignment;
pub use style::TextStyle;
pub use style::VerticalAlignment;
pub use tile::TileType;
