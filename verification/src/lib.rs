//! In-memory data model and binary codec for 16-bit-console graphics assets:
//! 15-bit indexed colors, 256-color palettes, 8x8 4bpp tiles, and background
//! tilemaps, each with a bit-exact hardware encoding.

pub mod codec;
pub mod palette;
pub mod tile;
pub mod tilemap;

pub use palette::Color;
pub use palette::Palette;
pub use tile::Tile;
pub use tilemap::EntryFormat;
pub use tilemap::Tilemap;

pub use tilemap::TilemapEntry;
