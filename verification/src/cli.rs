//! Command-line arguments.
use vstd::prelude::*;

verus! {

/// What the application was asked to do on its command line.
#[derive(Debug, Clone, PartialEq, Eq)]
pub enum CliCommand {
    /// Open the application normally (no arguments).
    Normal,
    /// Open an image file (the first argument that is not a known flag).
    OpenFile(String),
    /// Register Lumia in the system's context menu.
    RegisterContextMenu,
    /// Remove Lumia from the system's context menu.
    UnregisterContextMenu,
    /// Verify a signed plugin package without installing it.
    VerifyPluginPackage(String),
    /// Refresh legacy Program Files association paths (Windows).
    RepairFileAssociations,
    /// Register the SVG thumbnail provider (Windows).
    RegisterThumbnailHandler,
    /// Remove the SVG thumbnail provider (Windows).
    UnregisterThumbnailHandler,
}

/// The plain value of a command.
pub enum CliView {
    Normal,
    OpenFile(Seq<char>),
    RegisterContextMenu,
    UnregisterContextMenu,
    VerifyPluginPackage(Seq<char>),
    RepairFileAssociations,
    RegisterThumbnailHandler,
    UnregisterThumbnailHandler,
}

impl View for CliCommand {
    type V = CliView;

    open spec fn view(&self) -> CliView {
        match self {
            CliCommand::Normal => CliView::Normal,
            CliCommand::OpenFile(p) => CliView::OpenFile(p@),
            CliCommand::RegisterContextMenu => CliView::RegisterContextMenu,
            CliCommand::UnregisterContextMenu => CliView::UnregisterContextMenu,
            CliCommand::VerifyPluginPackage(p) => CliView::VerifyPluginPackage(p@),
            CliCommand::RepairFileAssociations => CliView::RepairFileAssociations,
            CliCommand::RegisterThumbnailHandler => CliView::RegisterThumbnailHandler,
            CliCommand::UnregisterThumbnailHandler => CliView::UnregisterThumbnailHandler,
        }
    }
}

/// The command for the arguments after the program name: none is a normal
/// start; a known flag is its command (the Windows-only flags only on
/// Windows), `--verify-plugin-package` taking the next argument as the
/// package (empty when missing); anything else is a file to open.
pub open spec fn spec_parse_args(args: Seq<Seq<char>>, windows: bool) -> CliView {
    if args.len() == 0 {
        CliView::Normal
    } else {
        let arg = args[0];
        if arg == "--register-context-menu"@ {
            CliView::RegisterContextMenu
        } else if arg == "--unregister-context-menu"@ {
            CliView::UnregisterContextMenu
        } else if arg == "--verify-plugin-package"@ {
            CliView::VerifyPluginPackage(if args.len() > 1 { args[1] } else { Seq::empty() })
        } else if windows && arg == "--repair-file-associations"@ {
            CliView::RepairFileAssociations
        } else if windows && arg == "--register-thumbnail-handler"@ {
            CliView::RegisterThumbnailHandler
        } else if windows && arg == "--unregister-thumbnail-handler"@ {
            CliView::UnregisterThumbnailHandler
        } else {
            CliView::OpenFile(arg)
        }
    }
}

/// Whether `arg` is exactly `flag`.
fn is_flag(arg: &str, flag: &str) -> (result: bool)
    ensures
        result == (arg@ == flag@),
{
    crate::text::chars_equal(&crate::text::chars_of(arg), &crate::text::chars_of(flag))
}

/// Parses the arguments after the program name; `windows` tells whether
/// this build runs on Windows.
pub fn parse_args(args: Vec<String>, windows: bool) -> (result: CliCommand)
    ensures
        result@ == spec_parse_args(crate::text::views(args@), windows),
{
    if args.len() == 0 {
        return CliCommand::Normal;
    }
    let arg = args[0].as_str();
    assert(crate::text::views(args@)[0] == arg@);
    if is_flag(arg, "--register-context-menu") {
        CliCommand::RegisterContextMenu
    } else if is_flag(arg, "--unregister-context-menu") {
        CliCommand::UnregisterContextMenu
    } else if is_flag(arg, "--verify-plugin-package") {
        if args.len() > 1 {
            assert(crate::text::views(args@)[1] == args@[1]@);
            CliCommand::VerifyPluginPackage(args[1].clone())
        } else {
            CliCommand::VerifyPluginPackage(String::new())
        }
    } else if windows && is_flag(arg, "--repair-file-associations") {
        CliCommand::RepairFileAssociations
    } else if windows && is_flag(arg, "--register-thumbnail-handler") {
        CliCommand::RegisterThumbnailHandler
    } else if windows && is_flag(arg, "--unregister-thumbnail-handler") {
        CliCommand::UnregisterThumbnailHandler
    } else {
        CliCommand::OpenFile(arg.to_owned())
    }
}

} // verus!
