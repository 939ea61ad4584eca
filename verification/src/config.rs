//! The interpreter's configuration: the prompt, history and syntax-color
//! sections of the user's configuration file, and the structures that
//! project version numbers are read into. Reading and decoding the files
//! happens outside the library; the values live here.

use vstd::prelude::*;

use crate::chars::chars_eq_str;
use crate::chars::str_chars;

verus! {

/// The `[prompt]` section: symbol, colors, and whether to show git data.
#[derive(Debug, Clone)]
pub struct ConfigPrompt {
    /// The symbol at the end of the prompt. Default `> `.
    pub symbol: Option<String>,
    /// The color of the symbol and separators. Default `blue`.
    pub color: Option<String>,
    /// The color of the working-directory path.
    pub path_color: Option<String>,
    /// The color of the symbol alone.
    pub symbol_color: Option<String>,
    /// Whether to show the current git branch. Default on.
    pub show_git: Option<bool>,
}

/// The `[history]` section: file name and size bound.
#[derive(Debug, Clone)]
pub struct ConfigHistory {
    /// The history file name inside the home directory.
    pub file: Option<String>,
    /// How many commands to remember.
    pub max_entries: Option<usize>,
}

/// The `[syntax]` section: colors for valid and invalid commands.
#[derive(Debug, Clone)]
pub struct ConfigSyntax {
    /// Color for a command that resolves. Default `green`.
    pub valid_cmd: Option<String>,
    /// Color for a command that does not. Default `red`.
    pub invalid_cmd: Option<String>,
}

/// The package section of a Rust manifest, for the prompt's version display.
#[derive(Debug, Clone)]
pub struct CargoToml {
    pub package: CargoPackage,
}

#[derive(Debug, Clone)]
pub struct CargoPackage {
    pub version: String,
}

/// The fields read from a Node package manifest.
#[derive(Debug, Clone)]
pub struct PackageJson {
    pub version: String,
}

/// The fields read from a Python project manifest.
#[derive(Debug, Clone)]
pub struct PyProjectToml {
    pub project: Option<PyProjectSection>,
    pub tool: Option<PyToolSection>,
}

#[derive(Debug, Clone)]
pub struct PyProjectSection {
    pub version: Option<String>,
}

#[derive(Debug, Clone)]
pub struct PyToolSection {
    pub poetry: Option<PyPoetrySection>,
}

#[derive(Debug, Clone)]
pub struct PyPoetrySection {
    pub version: Option<String>,
}

/// The whole configuration.
#[derive(Debug, Clone)]
pub struct CliosConfig {
    pub prompt: Option<ConfigPrompt>,
    pub history: Option<ConfigHistory>,
    pub syntax: Option<ConfigSyntax>,
    /// The prompt theme, `powerline` or `classic`.
    pub theme: Option<String>,
}

impl CliosConfig {
    /// The configuration used when no file is found: symbol `> ` in blue
    /// with git data on, history of 1000 entries in `.clios_history`, green
    /// and red syntax colors, and the powerline theme.
    pub fn default() -> (r: Self)
        ensures
            r.prompt matches Some(p) && (p.symbol matches Some(v) && v@ == "> "@) && (
            p.color matches Some(v) && v@ == "blue"@) && p.show_git == Some(true)
                && p.path_color is None && p.symbol_color is None,
            r.history matches Some(h) && (h.file matches Some(v) && v@ == ".clios_history"@)
                && h.max_entries == Some(1000usize),
            r.syntax matches Some(x) && (x.valid_cmd matches Some(v) && v@ == "green"@) && (
            x.invalid_cmd matches Some(v) && v@ == "red"@),
            r.theme matches Some(v) && v@ == "powerline"@,
    {
        CliosConfig {
            prompt: Some(
                ConfigPrompt {
                    symbol: Some("> ".to_owned()),
                    color: Some("blue".to_owned()),
                    show_git: Some(true),
                    path_color: None,
                    symbol_color: None,
                },
            ),
            history: Some(
                ConfigHistory { file: Some(".clios_history".to_owned()), max_entries: Some(1000) },
            ),
            syntax: Some(
                ConfigSyntax {
                    valid_cmd: Some("green".to_owned()),
                    invalid_cmd: Some("red".to_owned()),
                },
            ),
            theme: Some("powerline".to_owned()),
        }
    }
}

/// The terminal escape code for a color name; unknown names reset to the
/// default color.
pub open spec fn color_ansi(name: Seq<char>) -> Seq<char> {
    if name == "red"@ {
        "\x1b[31m"@
    } else if name == "green"@ {
        "\x1b[32m"@
    } else if name == "yellow"@ {
        "\x1b[33m"@
    } else if name == "blue"@ {
        "\x1b[34m"@
    } else if name == "purple"@ {
        "\x1b[35m"@
    } else if name == "cyan"@ {
        "\x1b[36m"@
    } else if name == "white"@ {
        "\x1b[37m"@
    } else {
        "\x1b[0m"@
    }
}

/// Translates a readable color name from the configuration into the escape
/// code the terminal understands.
pub fn get_color_ansi(color_name: &str) -> (r: String)
    ensures
        r@ == color_ansi(color_name@),
{
    let nc = str_chars(color_name);
    if chars_eq_str(&nc, "red") {
        "\x1b[31m".to_owned()
    } else if chars_eq_str(&nc, "green") {
        "\x1b[32m".to_owned()
    } else if chars_eq_str(&nc, "yellow") {
        "\x1b[33m".to_owned()
    } else if chars_eq_str(&nc, "blue") {
        "\x1b[34m".to_owned()
    } else if chars_eq_str(&nc, "purple") {
        "\x1b[35m".to_owned()
    } else if chars_eq_str(&nc, "cyan") {
        "\x1b[36m".to_owned()
    } else if chars_eq_str(&nc, "white") {
        "\x1b[37m".to_owned()
    } else {
        "\x1b[0m".to_owned()
    }
}

} // verus!
