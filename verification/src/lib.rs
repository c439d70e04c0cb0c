//! Line storage and text-buffer logic over shaped lines.

pub mod attrs;
pub mod borrowed;
pub mod breaks;
pub mod buffer;
pub mod cell_font;
pub mod cursor;
pub mod cursor_laws;
pub mod dirty;
pub mod ending;
pub mod highlight_laws;
pub mod hit;
pub mod hit_laws;
pub mod layout;
pub mod line;
pub mod line_cache;
pub mod line_iter;
pub mod line_laws;
pub mod line_lru;
pub mod metadata;
pub mod motion;
pub mod motion_laws;
pub mod moving;
pub mod paragraphs;
pub mod pixel;
pub mod pixel_laws;
pub mod position_laws;
pub mod recency;
pub mod recency_laws;
pub mod render;
pub mod render_laws;
pub mod resolve;
pub mod rich_text;
pub mod rope_laws;
pub mod rope_store;
pub mod rope_text;
pub mod row_motion_laws;
pub mod run_iter;
pub mod run_laws;
pub mod runs;
pub mod scrolling;
pub mod segmentation;
pub mod set_text;
pub mod setting_laws;
pub mod settings;
pub mod settle_laws;
pub mod settling;
pub mod shape_cap;
pub mod shaping;
pub mod text;
pub mod text_motion_laws;
pub mod tracking;
pub mod view;
pub mod view_cursor;
pub mod view_laws;
pub mod whole_pixels;
