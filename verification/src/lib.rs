//! Backend-neutral rules of the Sekai custom-profile renderer: TextMesh Pro
//! markup and glyph selection, master-data asset plans, profile data and the
//! identifiers the authoring tools hand out.

pub mod unicode;
pub mod text;
pub mod json;
pub mod json_text;
pub mod resource;
pub mod masterdata;
pub mod profile_data;
pub mod omikuji;
pub mod locale;
pub mod badge_material;
pub mod profile_scene;
pub mod profile_resolve;
pub mod profile_component;
pub mod authoring_document;
pub mod authoring_session;
pub mod ugui_text;
pub mod ugui_freetype;
pub mod profile_source;
pub mod sdf_glyph;
pub mod table;

pub use resource::ResourceKey;
pub mod tmp_text;
