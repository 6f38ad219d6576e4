//! A terminal Klondike solitaire table: a 52-card deck dealt into stock,
//! waste, four foundations and seven tableau columns, and a renderer that
//! emits the cursor-addressed escape-sequence stream redrawing the whole
//! table in place.

pub mod cards;
pub mod glyphs;
pub mod render;
pub mod table;
pub mod text;
