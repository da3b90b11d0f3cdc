//! Generations: what an installation writes, in which order, and which
//! generations a clean-up removes.

pub mod cleanup;
pub mod laws;
pub mod metadata;
pub mod plan;
pub mod steps;

pub use cleanup::{clean_old_generations, Cleanup};
pub use metadata::{DeployedSecretsMetadata, FileSystemMetadata, Generation};
pub use plan::{
    activate_new_generation, prune, publish, published_files, set_substitution, stage_generation,
    stage_secrets, stage_templates, Activation, Error,
};
pub use steps::{
    content, file_mode, get_generation_metadata_path, get_generation_path, push_step,
    set_file_permissions, substitute, Step, Warning,
};
