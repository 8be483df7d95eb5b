use vstd::prelude::*;
use crate::paths::{extension, extension_of};
use crate::text::chars_eq_str;

verus! {

/// The kind of a configuration file, as told by its extension.
#[derive(Debug, Clone, Copy, PartialEq, Eq, Structural)]
pub enum FileFormat {
    Json,
    Yaml,
    Toml,
    Shell,
    Text,
}

/// The format that the extension `e` names.
pub open spec fn format_for_ext(e: Option<Seq<char>>) -> FileFormat {
    match e {
        Some(x) => if x == "json"@ || x == "jsonc"@ {
            FileFormat::Json
        } else if x == "yaml"@ || x == "yml"@ {
            FileFormat::Yaml
        } else if x == "toml"@ {
            FileFormat::Toml
        } else if x == "sh"@ || x == "bash"@ || x == "zsh"@ {
            FileFormat::Shell
        } else {
            FileFormat::Text
        },
        None => FileFormat::Text,
    }
}

/// The format of the file at `path`, from its extension.
pub fn detect_format(path: &str) -> (r: FileFormat)
    ensures
        r == format_for_ext(extension(path@)),
{
    let p = crate::text::chars_of(path);
    match extension_of(&p) {
        Some(e) => {
            if chars_eq_str(&e, "json") || chars_eq_str(&e, "jsonc") {
                FileFormat::Json
            } else if chars_eq_str(&e, "yaml") || chars_eq_str(&e, "yml") {
                FileFormat::Yaml
            } else if chars_eq_str(&e, "toml") {
                FileFormat::Toml
            } else if chars_eq_str(&e, "sh") || chars_eq_str(&e, "bash") || chars_eq_str(&e, "zsh") {
                FileFormat::Shell
            } else {
                FileFormat::Text
            }
        },
        None => FileFormat::Text,
    }
}

/// The comment prefix of each format.
pub open spec fn comment_for_format(f: FileFormat) -> Seq<char> {
    match f {
        FileFormat::Json => "//"@,
        _ => "#"@,
    }
}

/// The line-comment prefix of files of the format `format`.
pub fn get_comment_syntax(format: &FileFormat) -> (r: &'static str)
    ensures
        r@ == comment_for_format(*format),
{
    match format {
        FileFormat::Json => "//",
        FileFormat::Yaml => "#",
        FileFormat::Toml => "#",
        FileFormat::Shell => "#",
        FileFormat::Text => "#",
    }
}

} // verus!
