//! Where settings and association preferences are stored.
use vstd::prelude::*;
use crate::package_checks::opt_text;
use crate::text::{join, join_exec, chars_of, string_from_chars};

verus! {

/// The operating system family, which decides where configuration lives.
#[derive(Debug, Clone, Copy, PartialEq, Eq, Structural)]
pub enum Platform {
    Windows,
    MacOs,
    OtherUnix,
}

/// `base` joined with `rel` as strings, by the path rules of Windows when
/// `windows` holds.
fn join_str(base: &str, rel: &str, windows: bool) -> (result: String)
    ensures
        result@ == join(base@, rel@, windows),
{
    string_from_chars(&join_exec(&chars_of(base), &chars_of(rel), windows))
}

/// The configuration directory: on Windows `%LOCALAPPDATA%\Lumia`, on macOS
/// `~/Library/Application Support/Lumia`, elsewhere `$XDG_CONFIG_HOME/lumia`
/// or `~/.config/lumia`; none when the variable it starts from is unset.
pub open spec fn spec_platform_config_dir(
    platform: Platform,
    local_app_data: Option<Seq<char>>,
    home: Option<Seq<char>>,
    xdg_config_home: Option<Seq<char>>,
) -> Option<Seq<char>> {
    match platform {
        Platform::Windows => match local_app_data {
            Some(dir) => Some(join(dir, "Lumia"@, true)),
            None => None,
        },
        Platform::MacOs => match home {
            Some(dir) => Some(join(join(join(dir, "Library"@, false), "Application Support"@, false), "Lumia"@, false)),
            None => None,
        },
        Platform::OtherUnix => match xdg_config_home {
            Some(dir) => Some(join(dir, "lumia"@, false)),
            None => match home {
                Some(dir) => Some(join(join(dir, ".config"@, false), "lumia"@, false)),
                None => None,
            },
        },
    }
}

/// The configuration directory for `platform`, from the environment
/// variables it reads.
pub fn platform_config_dir(
    platform: Platform,
    local_app_data: Option<&str>,
    home: Option<&str>,
    xdg_config_home: Option<&str>,
) -> (result: Option<String>)
    ensures
        opt_text_owned(&result) == spec_platform_config_dir(
            platform,
            opt_text(local_app_data),
            opt_text(home),
            opt_text(xdg_config_home),
        ),
{
    match platform {
        Platform::Windows => match local_app_data {
            Some(dir) => Some(join_str(dir, "Lumia", true)),
            None => None,
        },
        Platform::MacOs => match home {
            Some(dir) => {
                let library = join_str(dir, "Library", false);
                let support = join_str(&library, "Application Support", false);
                Some(join_str(&support, "Lumia", false))
            },
            None => None,
        },
        Platform::OtherUnix => match xdg_config_home {
            Some(dir) => Some(join_str(dir, "lumia", false)),
            None => match home {
                Some(dir) => {
                    let config = join_str(dir, ".config", false);
                    Some(join_str(&config, "lumia", false))
                },
                None => None,
            },
        },
    }
}

/// An optional owned text as an optional sequence.
pub open spec fn opt_text_owned(value: &Option<String>) -> Option<Seq<char>> {
    match value {
        Some(s) => Some(s@),
        None => None,
    }
}

/// The settings file inside the configuration directory.
pub fn settings_path(config_dir: Option<&str>) -> (result: Option<String>)
    ensures
        opt_text_owned(&result) == (match opt_text(config_dir) {
            Some(dir) => Some(join(dir, "settings.json"@, false)),
            None => None,
        }),
{
    match config_dir {
        Some(dir) => Some(join_str(dir, "settings.json", false)),
        None => None,
    }
}

/// The association preferences file inside the configuration directory.
pub fn associations_path(config_dir: Option<&str>) -> (result: Option<String>)
    ensures
        opt_text_owned(&result) == (match opt_text(config_dir) {
            Some(dir) => Some(join(dir, "associations.json"@, false)),
            None => None,
        }),
{
    match config_dir {
        Some(dir) => Some(join_str(dir, "associations.json", false)),
        None => None,
    }
}

/// The per-user plugin directory: `lumia/plugins` (on Linux) or
/// `Lumia/plugins` (elsewhere) inside the user's data directory.
pub fn user_plugin_root(data_dir: Option<&str>, linux: bool) -> (result: Option<String>)
    ensures
        opt_text_owned(&result) == (match opt_text(data_dir) {
            Some(dir) => Some(join(join(dir, if linux { "lumia"@ } else { "Lumia"@ }, false), "plugins"@, false)),
            None => None,
        }),
{
    match data_dir {
        Some(dir) => {
            let application = join_str(dir, if linux { "lumia" } else { "Lumia" }, false);
            Some(join_str(&application, "plugins", false))
        },
        None => None,
    }
}

/// The cached copy of the community index inside the user's data
/// directory.
pub fn community_index_cache_path(data_dir: Option<&str>, linux: bool) -> (result: Option<String>)
    ensures
        opt_text_owned(&result) == (match opt_text(data_dir) {
            Some(dir) => Some(join(join(dir, if linux { "lumia"@ } else { "Lumia"@ }, false), "community-plugins.json"@, false)),
            None => None,
        }),
{
    match data_dir {
        Some(dir) => {
            let application = join_str(dir, if linux { "lumia" } else { "Lumia" }, false);
            Some(join_str(&application, "community-plugins.json", false))
        },
        None => None,
    }
}


/// The languages of the user interface.
#[derive(Debug, Clone, Copy, PartialEq, Eq, Structural)]
pub enum Language {
    English,
    Chinese,
}

/// The language the installer recorded (`InstallLanguage`): `zh-CN` is
/// Chinese, `en-US` English; anything else names none.
pub fn installer_language(code: &str) -> (result: Option<Language>)
    ensures
        result == (if code@ == "zh-CN"@ {
            Some(Language::Chinese)
        } else if code@ == "en-US"@ {
            Some(Language::English)
        } else {
            None::<Language>
        }),
{
    let chars = chars_of(code);
    if crate::text::chars_equal(&chars, &chars_of("zh-CN")) {
        Some(Language::Chinese)
    } else if crate::text::chars_equal(&chars, &chars_of("en-US")) {
        Some(Language::English)
    } else {
        None
    }
}

/// The language code handed to plugins.
pub fn language_code(language: Language) -> (result: &'static str)
    ensures
        result@ == (match language {
            Language::English => "en"@,
            Language::Chinese => "zh-CN"@,
        }),
{
    match language {
        Language::English => "en",
        Language::Chinese => "zh-CN",
    }
}

} // verus!
