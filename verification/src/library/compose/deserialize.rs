use crate::path::{extension, extension_of, file_name_of, path_file_name};
use vstd::prelude::*;

verus! {

/// The format of a Compose file.
#[derive(Clone, Copy, Debug, PartialEq, Eq, Structural)]
pub enum Format {
    Toml,
    Yaml,
}

/// The format of the Compose file `file`: TOML where the extension of its name is `toml`,
/// else YAML.
pub open spec fn format_of(file: Seq<char>) -> Format {
    match path_file_name(file) {
        Some(name) => if extension(name) == Some("toml"@) {
            Format::Toml
        } else {
            Format::Yaml
        },
        None => Format::Yaml,
    }
}

/// The format of the Compose file `file`.
pub fn go(file: &str) -> (format: Format)
    ensures
        format == format_of(file@),
{
    match file_name_of(file) {
        Some(name) => match extension_of(name.as_str()) {
            Some(e) => {
                proof {
                    reveal_strlit("toml");
                }
                if e == "toml".to_owned() {
                    Format::Toml
                } else {
                    Format::Yaml
                }
            },
            None => Format::Yaml,
        },
        None => Format::Yaml,
    }
}

} // verus!
