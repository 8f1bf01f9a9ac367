//! Core library for building a deployable filesystem image from declarative
//! manifests (bill-of-materials files). A manifest lists files, directories
//! and other manifests to include; this crate resolves includes transitively,
//! validates the referenced filesystem state, and derives a deduplicated copy
//! plan, folding in the shared-library dependencies of executables.

use vstd::prelude::*;

pub mod closure;
pub mod deps;
pub mod generate;
pub mod hash;
pub mod model;
pub mod paths;
pub mod plan;
pub mod table;
pub mod validate;

pub use closure::resolved_includes;
pub use deps::ScanConfig;
pub use deps::find_dependencies_for_executable;
pub use deps::parse_dependency_line;
pub use deps::shared_object_prefer_musl;
pub use generate::GenerateBomOption;
pub use hash::calculate_file_hash;
pub use model::BomError;
pub use model::BomFile;
pub use model::Directory;
pub use model::NormalFile;
pub use model::SharedObject;
pub use paths::convert_to_relative_path_from_current_dir;
pub use paths::get_output_path;
pub use validate::FsModel;

verus! {

} // verus!
