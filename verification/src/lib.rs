//! Verified core of the Balchug scroll-animation toolkit: texture atlases,
//! glyph atlas assembly, code generation for exported projects and the small
//! text and colour utilities that the editor and the engine share.

pub mod api;
pub mod atlas;
pub mod atlas_builder;
pub mod binpack;
pub mod codegen;
pub mod editor;
pub mod editor_constants;
pub mod engine_const;
pub mod export;
pub mod font;
pub mod font_subset;
pub mod fps;
pub mod image_decode;
pub mod settings;
pub mod sprite;
pub mod strings;
pub mod text;
