//! Assembles a shader from the files it pulls in and checks the result.
//!
//! A shader file may hold directives: the keyword `@include`, one more
//! character, and a path up to the end of the line. The resolver replaces
//! each directive by the text of the file it names, expanded in the same
//! way, and expands no file twice. The validator then parses the merged
//! text as WGSL and validates the module.
//!
//! The path in a directive is taken from the directory of the file that
//! holds the directive. The path of the shader itself is taken from a
//! directory that the caller picks.
//!
//! The library reads no files itself. The files that a shader may pull in
//! are handed to it as a [`SourceSet`], which maps canonical paths to text.
//! A resolution that needs a file the set does not hold fails and names the
//! path, so that a caller can read that file, add it and ask again.

pub mod laws;
pub mod model;
pub mod paths;
pub mod pipeline;
pub mod resolver;
pub mod sources;
pub mod text;
pub mod validator;

pub use paths::{locate_include, resolve_shader_path};
pub use pipeline::{include_wgsl, IncludeError};
pub use resolver::{
    parse_shader_includes, parse_shader_includes_recursive, splice_directive, splice_file,
    splice_includes, ResolveError,
};
pub use sources::{SourceFile, SourceSet, VisitedSet};
pub use text::{
    chars_of, directive_positions, end_of_line_idx, find_line_end, replace_module_separators,
    with_forward_slashes,
};
pub use validator::{
    find_fault, validate, verdict, Diagnostic, EVERY_CAPABILITY, EVERY_VALIDATION_FLAG,
};
