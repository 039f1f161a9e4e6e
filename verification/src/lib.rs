//! Status reporting for opencode sessions, by way of a generated plugin.
//!
//! opencode has no shell hooks. What a session is doing can be seen only by a
//! JavaScript plugin, which opencode loads from `plugin/*.js` in its
//! configuration directory. The plugin made here does not write the status
//! file itself: it runs the shell commands of the one canonical status writer,
//! which are baked into its source.
//!
//! This library renders the plugin's source, says where the file lies, and
//! decides when it is written, left alone or removed. Reading and writing files
//! is its caller's part.

pub mod events;
pub mod file_laws;
pub mod json;
pub mod json_text;
pub mod layout_laws;
pub mod path_laws;
pub mod paths;
pub mod plugin_file;
pub mod render;
pub mod render_laws;
pub mod reporter;
pub mod reporter_laws;
pub mod template;
pub mod text;
