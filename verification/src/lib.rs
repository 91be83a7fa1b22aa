//! A library for rendering a two-dimensional grid of textual cells as a
//! fixed-width monospace character block: borders, per-cell alignment and
//! padding, multi-line content, and column merging via spans.

pub mod borders;
mod grid;
mod laws;
mod limits;
pub mod margin;
mod render;
mod spans;
mod styles;
mod text;
mod types;
mod width;

pub use borders::BorderLine;
pub use grid::Grid;
pub use limits::increase_width;
pub use limits::split;
pub use limits::split_keeping_words;
pub use limits::strip;
pub use limits::CellOption;
pub use limits::MaxWidth;
pub use limits::MinWidth;
pub use limits::Truncate;
pub use limits::Wrap;
pub use margin::TableOption;
pub use laws::lemma_complete_range_rows_agree;
pub use laws::lemma_extract_full_render;
pub use laws::lemma_zero_span_excluded;
pub use laws::lemma_row_line_length;
pub use laws::lemma_cell_line_len;
pub use render::spec_align;
pub use render::spec_align_with_max;
pub use text::replace_tab;
pub use text::spec_replace_tab;
pub use text::spec_string_width;
pub use text::str_width;
pub use text::string_width;
pub use types::default_cell_style;
pub use types::AlignmentHorizontal;
pub use types::AlignmentVertical;
pub use types::Border;
pub use types::Entity;
pub use types::Formatting;
pub use types::Indent;
pub use types::Margin;
pub use types::Padding;
pub use types::Settings;
pub use types::SplitLine;
pub use types::Style;
