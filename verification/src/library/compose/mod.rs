pub mod deserialize;
pub mod get_project_name;
pub mod interpolate;
pub mod interpolated;
pub mod ir;
pub mod model;
pub mod parse;
pub mod parse_environment_variables;
pub mod print;
pub mod schema;
pub mod yaml;
