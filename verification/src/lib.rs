//! The engine of a recursive archive extractor.
//!
//! Given a target, the engine finds the archives under it, derives for
//! each the directory that its contents go to, tries the decoders for its
//! format in order, and goes on with the archives that unpacking brings
//! to light, until none is left. It decides and remembers; reading
//! directories and running decoders is its caller's part.

pub mod classify;
pub mod driver;
pub mod error;
pub mod extract;
pub mod name;
pub mod path;
pub mod recursion;
pub mod resolve;
pub mod scan;
pub mod shell;
pub mod text;
pub mod unpack;

pub use classify::is_archive_filetype;
pub use driver::{handle_dir, handle_file, Job, Plan, RZipParams};
pub use error::{PathError, RZipError, RZipProcessingError};
pub use extract::{
    recursive_file_extract, ExtractAction, ExtractEvent, ExtractStatus, Extraction,
    PendingArchive, MAX_NESTING_DEPTH,
};
pub use path::{Component, FsPath};
pub use resolve::{get_out_path_for_archive, get_relative_path, RZipExtractConfig};
pub use scan::{get_archives_in_dir, DirEntry};
pub use shell::{
    build_tree_node, determine_icon, get_file_tree, validate_path, TreeDataNode,
    ValidationSettings,
};
pub use text::{parse_path, render_path};
pub use unpack::{unpack_file, unpack_stages, UnpackDispatcher, UnpackStage, UnpackStep};
