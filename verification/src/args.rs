//! The command arguments, as plain data the library reasons about.

use vstd::prelude::*;

verus! {

/// Arguments of the shell command.
#[derive(Debug, Clone)]
pub struct ShellArgs {
    pub message: Vec<String>,
    pub daemon: bool,
    pub show: bool,
    pub log: bool,
    pub kill: bool,
    pub log_rules: Option<String>,
}

/// Arguments of the screenshot command.
#[derive(Debug, Clone)]
pub struct ScreenshotArgs {
    pub region: Option<String>,
    pub freeze: bool,
}

/// Arguments of the recording command.
#[derive(Debug, Clone)]
pub struct RecordArgs {
    pub region: Option<String>,
    pub sound: bool,
}

/// Arguments of the clipboard command.
#[derive(Debug, Clone, Copy, PartialEq, Eq, Structural)]
pub struct ClipboardArgs {
    pub delete: bool,
}

/// Arguments of the emoji command.
#[derive(Debug, Clone, Copy, PartialEq, Eq, Structural)]
pub struct EmojiArgs {
    pub picker: bool,
    pub fetch: bool,
}

/// Arguments of the resizer command.
#[derive(Debug, Clone)]
pub struct ResizerArgs {
    pub daemon: bool,
    pub pattern: Option<String>,
    pub match_type: Option<String>,
    pub width: Option<String>,
    pub height: Option<String>,
    pub actions: Option<String>,
}

/// Arguments of a scheme change.
#[derive(Debug, Clone)]
pub struct SchemeSetArgs {
    pub notify: bool,
    pub random: bool,
    pub name: Option<String>,
    pub flavor: Option<String>,
    pub mode: Option<String>,
    pub variant: Option<String>,
}

/// The scheme subcommands.
#[derive(Debug, Clone)]
pub enum SchemeCmd {
    List { names: bool, flavors: bool, modes: bool, variants: bool },
    Get { name: bool, flavor: bool, mode: bool, variant: bool },
    Apply(SchemeSetArgs),
}

/// Arguments of editor language detection.
#[derive(Debug, Clone)]
pub struct EditorDetectArgs {
    pub path: Option<String>,
}

/// Arguments of editor theme regeneration.
#[derive(Debug, Clone)]
pub struct EditorThemeArgs {
    pub path: Option<String>,
}

/// The editor subcommands.
#[derive(Debug, Clone)]
pub enum EditorCmd {
    Detect(EditorDetectArgs),
    Theme(EditorThemeArgs),
}

/// Arguments of the editor command.
#[derive(Debug, Clone)]
pub struct EditorArgs {
    pub cmd: EditorCmd,
}

} // verus!
