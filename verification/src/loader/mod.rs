pub mod decode;
pub mod schema;
pub mod strings;
pub mod validate;
pub mod yaml;

pub use validate::{
    validate_environment, validate_template_string, validate_workflow,
    validate_workflow_environment, LoadError, ParseError,
};
pub use yaml::{load_environment_yaml, load_workflow_yaml};
