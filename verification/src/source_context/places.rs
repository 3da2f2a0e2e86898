//! Which directories a configuration picks, and what its variables count for, on every operating
//! system. Nothing here depends on how paths are written.
use vstd::prelude::*;

use crate::ordered::same_text;
use crate::source_context::catalog::{
    client_fallback, first_fallback, ClientDef, TargetOs, ENV_APPDATA, ENV_COPILOT_EXPORTER,
    ENV_GOOSE_PATH_ROOT, ENV_HOME, ENV_KIMI_CODE_HOME, ENV_LOCALAPPDATA, ENV_TOKSCALE_CONFIG_DIR,
    ENV_TOKSCALE_EXTRA_DIRS, ENV_TOKSCALE_HEADLESS_DIR, ENV_XDG_CONFIG_HOME, ENV_XDG_DATA_HOME,
};
use crate::source_context::environment::{
    requires_unicode, source_env_requires_unicode, source_env_trims_surrounding_whitespace,
    source_env_uses_nonblank_semantics, trims_white_space, uses_nonblank_semantics, PathResolution,
};
use crate::source_context::inputs::InputState;
use crate::text::{is_blank, trimmed};

verus! {

/// The directory of the program's own configuration.
#[derive(Debug, Clone, Copy, PartialEq, Eq, Structural)]
pub enum ConfigPlace {
    /// What the variable for it says.
    Own,
    /// `tokscale` in the user's configuration directory.
    InUserConfig,
    /// `tokscale` in the platform's configuration directory.
    InPlatformConfig,
    /// `.config/tokscale` in the home directory.
    InHomeConfig,
    /// `AppData/Roaming/tokscale` in the home directory.
    InHomeRoaming,
}

/// What the choice of the configuration directory depends on.
#[derive(Debug, Clone, Copy, PartialEq, Eq, Structural)]
pub struct ConfigInputs {
    /// Whether variables may give roots.
    pub use_env_roots: bool,
    /// Whether there is a path for the program's own configuration, from its variable or else.
    pub own: bool,
    /// Whether that path is from its variable.
    pub own_is_explicit: bool,
    /// Whether there is a path for the user's configuration.
    pub user: bool,
    /// Whether the variable for the user's configuration is set to nothing.
    pub user_is_emptied: bool,
    /// Whether the platform has a configuration directory.
    pub platform: bool,
}

/// The choice of the configuration directory. Where variables give roots, the path for the
/// program's own configuration wins; but on Linux, a variable for the user's configuration that
/// is set to nothing stands for the root directory, and only a path that is given wins over it.
pub open spec fn config_choice(os: TargetOs, inputs: ConfigInputs) -> ConfigPlace {
    let root = os == TargetOs::Linux && inputs.user && inputs.user_is_emptied;
    if !inputs.use_env_roots {
        if os == TargetOs::Windows {
            ConfigPlace::InHomeRoaming
        } else {
            ConfigPlace::InHomeConfig
        }
    } else if inputs.own && (inputs.own_is_explicit || !root) {
        ConfigPlace::Own
    } else if os == TargetOs::Linux && inputs.user {
        ConfigPlace::InUserConfig
    } else if os == TargetOs::Windows && inputs.platform {
        ConfigPlace::InPlatformConfig
    } else {
        ConfigPlace::InHomeConfig
    }
}

/// Chooses the configuration directory.
pub fn config_place(os: TargetOs, inputs: ConfigInputs) -> (place: ConfigPlace)
    ensures
        place == config_choice(os, inputs),
{
    if !inputs.use_env_roots {
        return if os == TargetOs::Windows {
            ConfigPlace::InHomeRoaming
        } else {
            ConfigPlace::InHomeConfig
        };
    }
    let root = os == TargetOs::Linux && inputs.user && inputs.user_is_emptied;
    if inputs.own && (inputs.own_is_explicit || !root) {
        return ConfigPlace::Own;
    }
    if os == TargetOs::Linux && inputs.user {
        return ConfigPlace::InUserConfig;
    }
    if os == TargetOs::Windows && inputs.platform {
        return ConfigPlace::InPlatformConfig;
    }
    ConfigPlace::InHomeConfig
}

/// The directory of the cache.
#[derive(Debug, Clone, Copy, PartialEq, Eq, Structural)]
pub enum CachePlace {
    /// `cache` in the directory that the variable for the program's configuration gives.
    InOwnConfig,
    /// `.config/tokscale/cache` in the home directory.
    InHomeConfig,
    /// `tokscale/cache` in the platform's configuration directory.
    InPlatformConfig,
    /// `tokscale` in the runtime directory.
    InRuntime,
    /// A directory of the user among the temporary ones.
    InTemporary,
}

/// What the choice of the cache directory depends on.
#[derive(Debug, Clone, Copy, PartialEq, Eq, Structural)]
pub struct CacheInputs {
    /// Whether the variable for the program's configuration gives a directory.
    pub own: bool,
    /// Whether the platform has a configuration directory.
    pub platform: bool,
    /// Whether the variable for the runtime directory is set.
    pub runtime: bool,
}

/// The choice of the cache directory. On Windows there may be none.
pub open spec fn cache_choice(os: TargetOs, inputs: CacheInputs) -> Option<CachePlace> {
    if inputs.own {
        Some(CachePlace::InOwnConfig)
    } else if os == TargetOs::MacOs {
        Some(CachePlace::InHomeConfig)
    } else if inputs.platform {
        Some(CachePlace::InPlatformConfig)
    } else if inputs.runtime {
        Some(CachePlace::InRuntime)
    } else if os == TargetOs::Windows {
        None
    } else {
        Some(CachePlace::InTemporary)
    }
}

/// Chooses the cache directory.
pub fn cache_place(os: TargetOs, inputs: CacheInputs) -> (place: Option<CachePlace>)
    ensures
        place == cache_choice(os, inputs),
{
    if inputs.own {
        return Some(CachePlace::InOwnConfig);
    }
    match os {
        TargetOs::MacOs => Some(CachePlace::InHomeConfig),
        _ => if inputs.platform {
            Some(CachePlace::InPlatformConfig)
        } else if inputs.runtime {
            Some(CachePlace::InRuntime)
        } else {
            match os {
                TargetOs::Windows => None,
                _ => Some(CachePlace::InTemporary),
            }
        },
    }
}

/// The home directory.
#[derive(Debug, Clone, Copy, PartialEq, Eq, Structural)]
pub enum HomePlace {
    /// The one that is given.
    Given,
    /// What the variable for it says.
    Environment,
    /// The platform's.
    Platform,
}

/// The choice of the home directory, where an empty path is none.
pub open spec fn home_choice(given: bool, environment: bool, platform: bool) -> Option<HomePlace> {
    if given {
        Some(HomePlace::Given)
    } else if environment {
        Some(HomePlace::Environment)
    } else if platform {
        Some(HomePlace::Platform)
    } else {
        None
    }
}

/// Chooses the home directory.
pub fn home_place(given: bool, environment: bool, platform: bool) -> (place: Option<HomePlace>)
    ensures
        place == home_choice(given, environment, platform),
{
    if given {
        Some(HomePlace::Given)
    } else if environment {
        Some(HomePlace::Environment)
    } else if platform {
        Some(HomePlace::Platform)
    } else {
        None
    }
}

// ---------------------------------------------------------------------------
// Variables
// ---------------------------------------------------------------------------
/// What is known of a variable's value. A value that is no text is not empty.
#[derive(Debug, Clone, Copy, PartialEq, Eq)]
pub enum VariableValue<'a> {
    Unset,
    NoText,
    Text(&'a str),
}

/// What is known of a variable's value.
pub ghost enum ValueModel {
    Unset,
    NoText,
    Text(Seq<char>),
}

impl<'a> View for VariableValue<'a> {
    type V = ValueModel;

    open spec fn view(&self) -> ValueModel {
        match *self {
            VariableValue::Unset => ValueModel::Unset,
            VariableValue::NoText => ValueModel::NoText,
            VariableValue::Text(text) => ValueModel::Text(text@),
        }
    }
}

impl ValueModel {
    /// The state of the variable.
    pub open spec fn state(self) -> InputState {
        match self {
            ValueModel::Unset => InputState::Unset,
            ValueModel::NoText => InputState::Value,
            ValueModel::Text(text) => if text.len() == 0 {
                InputState::Empty
            } else {
                InputState::Value
            },
        }
    }
}

impl<'a> VariableValue<'a> {
    /// The state of the variable.
    pub fn input_state(&self) -> (state: InputState)
        ensures
            state == self@.state(),
    {
        match self {
            VariableValue::Unset => InputState::Unset,
            VariableValue::NoText => InputState::Value,
            VariableValue::Text(text) => if text.is_empty() {
                InputState::Empty
            } else {
                InputState::Value
            },
        }
    }
}

/// Where a variable points.
#[derive(Debug, Clone, Copy, PartialEq, Eq, Structural)]
pub enum VariablePlace {
    Nowhere,
    /// To the home directory.
    Home,
    /// To the root directory.
    Root,
    /// Where its fallback is.
    Fallback,
    /// Where its value says.
    Value,
    /// Where its value says without the white space around it.
    TrimmedValue,
}

/// What a variable counts for.
#[derive(Debug, Clone, Copy, PartialEq, Eq, Structural)]
pub struct VariableChoice {
    pub state: InputState,
    pub resolution: PathResolution,
    pub place: VariablePlace,
}

/// Whether a value that is no text leaves a variable as if it was not set.
pub open spec fn ignores_no_text(os: TargetOs, clients: Seq<ClientDef>, key: Seq<char>) -> bool {
    ||| key == ENV_TOKSCALE_HEADLESS_DIR@
    ||| trims_white_space(key)
    ||| requires_unicode(os, clients, key)
}

/// What a text counts for.
pub open spec fn text_choice(os: TargetOs, key: Seq<char>, text: Seq<char>) -> (
    PathResolution,
    VariablePlace,
) {
    if key == ENV_TOKSCALE_HEADLESS_DIR@ {
        (PathResolution::Explicit, VariablePlace::Value)
    } else if trims_white_space(key) {
        if trimmed(text).len() == 0 {
            (PathResolution::Fallback, VariablePlace::Fallback)
        } else {
            (PathResolution::Explicit, VariablePlace::TrimmedValue)
        }
    } else if text.len() == 0 {
        if os == TargetOs::Linux && key == ENV_XDG_CONFIG_HOME@ {
            (PathResolution::Explicit, VariablePlace::Root)
        } else {
            (PathResolution::Fallback, VariablePlace::Fallback)
        }
    } else if uses_nonblank_semantics(key) && trimmed(text).len() == 0 {
        (PathResolution::Fallback, VariablePlace::Fallback)
    } else if key == ENV_TOKSCALE_EXTRA_DIRS@ {
        (PathResolution::Fallback, VariablePlace::Home)
    } else {
        (PathResolution::Explicit, VariablePlace::Value)
    }
}

/// What a variable counts for. That of the home directory only tells its state. The others are
/// ignored where variables give no roots.
pub open spec fn variable_choice(
    os: TargetOs,
    clients: Seq<ClientDef>,
    key: Seq<char>,
    value: ValueModel,
    use_env_roots: bool,
) -> VariableChoice {
    let state = value.state();
    if key == ENV_HOME@ {
        VariableChoice {
            state,
            resolution: PathResolution::Fallback,
            place: VariablePlace::Home,
        }
    } else if !use_env_roots {
        VariableChoice {
            state: InputState::Unset,
            resolution: PathResolution::Ignored,
            place: VariablePlace::Nowhere,
        }
    } else {
        match value {
            ValueModel::Unset => VariableChoice {
                state,
                resolution: PathResolution::Fallback,
                place: VariablePlace::Fallback,
            },
            ValueModel::NoText => if ignores_no_text(os, clients, key) {
                VariableChoice {
                    state: InputState::Unset,
                    resolution: PathResolution::Fallback,
                    place: VariablePlace::Fallback,
                }
            } else if key == ENV_TOKSCALE_EXTRA_DIRS@ {
                VariableChoice {
                    state,
                    resolution: PathResolution::Fallback,
                    place: VariablePlace::Home,
                }
            } else {
                VariableChoice {
                    state,
                    resolution: PathResolution::Explicit,
                    place: VariablePlace::Value,
                }
            },
            ValueModel::Text(text) => {
                let (resolution, place) = text_choice(os, key, text);
                VariableChoice { state, resolution, place }
            },
        }
    }
}

fn choose_text(os: TargetOs, key: &str, text: &str) -> (choice: (PathResolution, VariablePlace))
    ensures
        choice == text_choice(os, key@, text@),
{
    if same_text(key, ENV_TOKSCALE_HEADLESS_DIR) {
        return (PathResolution::Explicit, VariablePlace::Value);
    }
    if source_env_trims_surrounding_whitespace(key) {
        return if is_blank(text) {
            (PathResolution::Fallback, VariablePlace::Fallback)
        } else {
            (PathResolution::Explicit, VariablePlace::TrimmedValue)
        };
    }
    if text.is_empty() {
        return if os == TargetOs::Linux && same_text(key, ENV_XDG_CONFIG_HOME) {
            (PathResolution::Explicit, VariablePlace::Root)
        } else {
            (PathResolution::Fallback, VariablePlace::Fallback)
        };
    }
    if source_env_uses_nonblank_semantics(key) && is_blank(text) {
        return (PathResolution::Fallback, VariablePlace::Fallback);
    }
    if same_text(key, ENV_TOKSCALE_EXTRA_DIRS) {
        return (PathResolution::Fallback, VariablePlace::Home);
    }
    (PathResolution::Explicit, VariablePlace::Value)
}

/// Tells what a variable counts for.
pub fn choose_variable(
    os: TargetOs,
    clients: &Vec<ClientDef>,
    key: &str,
    value: VariableValue,
    use_env_roots: bool,
) -> (choice: VariableChoice)
    ensures
        choice == variable_choice(os, clients@, key@, value@, use_env_roots),
{
    let state = value.input_state();
    if same_text(key, ENV_HOME) {
        return VariableChoice {
            state,
            resolution: PathResolution::Fallback,
            place: VariablePlace::Home,
        };
    }
    if !use_env_roots {
        return VariableChoice {
            state: InputState::Unset,
            resolution: PathResolution::Ignored,
            place: VariablePlace::Nowhere,
        };
    }
    match value {
        VariableValue::Unset => VariableChoice {
            state,
            resolution: PathResolution::Fallback,
            place: VariablePlace::Fallback,
        },
        VariableValue::NoText => if same_text(key, ENV_TOKSCALE_HEADLESS_DIR)
            || source_env_trims_surrounding_whitespace(key) || source_env_requires_unicode(
            os,
            clients,
            key,
        ) {
            VariableChoice {
                state: InputState::Unset,
                resolution: PathResolution::Fallback,
                place: VariablePlace::Fallback,
            }
        } else if same_text(key, ENV_TOKSCALE_EXTRA_DIRS) {
            VariableChoice {
                state,
                resolution: PathResolution::Fallback,
                place: VariablePlace::Home,
            }
        } else {
            VariableChoice {
                state,
                resolution: PathResolution::Explicit,
                place: VariablePlace::Value,
            }
        },
        VariableValue::Text(text) => {
            let (resolution, place) = choose_text(os, key, text);
            VariableChoice { state, resolution, place }
        },
    }
}

/// Where the fallback of a variable is.
#[derive(Debug, Clone, Copy, PartialEq, Eq)]
pub enum FallbackPlace<'a> {
    Home,
    /// Below the home directory.
    InHome(&'a str),
    /// `tokscale` in the platform's configuration directory.
    InPlatformConfig,
}

/// Where the fallback of a variable is.
pub ghost enum FallbackModel {
    Home,
    InHome(Seq<char>),
    InPlatformConfig,
}

impl<'a> View for FallbackPlace<'a> {
    type V = FallbackModel;

    open spec fn view(&self) -> FallbackModel {
        match *self {
            FallbackPlace::Home => FallbackModel::Home,
            FallbackPlace::InHome(relative) => FallbackModel::InHome(relative@),
            FallbackPlace::InPlatformConfig => FallbackModel::InPlatformConfig,
        }
    }
}

/// The fallback of a variable.
pub open spec fn fallback_choice(
    os: TargetOs,
    clients: Seq<ClientDef>,
    key: Seq<char>,
    platform: bool,
) -> FallbackModel {
    if key == ENV_XDG_DATA_HOME@ {
        FallbackModel::InHome(".local/share"@)
    } else if key == ENV_TOKSCALE_CONFIG_DIR@ {
        if os != TargetOs::MacOs && platform {
            FallbackModel::InPlatformConfig
        } else {
            FallbackModel::InHome(".config/tokscale"@)
        }
    } else if key == ENV_XDG_CONFIG_HOME@ {
        FallbackModel::InHome(".config"@)
    } else if key == ENV_TOKSCALE_HEADLESS_DIR@ {
        FallbackModel::InHome(".config/tokscale/headless"@)
    } else if key == ENV_COPILOT_EXPORTER@ {
        FallbackModel::InHome(".copilot/otel"@)
    } else if key == ENV_LOCALAPPDATA@ {
        FallbackModel::InHome("AppData/Local"@)
    } else if key == ENV_APPDATA@ {
        FallbackModel::InHome("AppData/Roaming"@)
    } else if key == ENV_KIMI_CODE_HOME@ {
        FallbackModel::InHome(".kimi-code"@)
    } else if key == ENV_TOKSCALE_EXTRA_DIRS@ {
        FallbackModel::Home
    } else if key == ENV_GOOSE_PATH_ROOT@ {
        FallbackModel::InHome(".local/share/goose"@)
    } else {
        match first_fallback(clients, key) {
            Some(relative) => FallbackModel::InHome(relative),
            None => FallbackModel::Home,
        }
    }
}

/// Tells where the fallback of a variable is.
pub fn choose_fallback<'a>(
    os: TargetOs,
    clients: &'a Vec<ClientDef>,
    key: &str,
    platform: bool,
) -> (place: FallbackPlace<'a>)
    ensures
        place@ == fallback_choice(os, clients@, key@, platform),
{
    if same_text(key, ENV_XDG_DATA_HOME) {
        return FallbackPlace::InHome(".local/share");
    }
    if same_text(key, ENV_TOKSCALE_CONFIG_DIR) {
        return if os != TargetOs::MacOs && platform {
            FallbackPlace::InPlatformConfig
        } else {
            FallbackPlace::InHome(".config/tokscale")
        };
    }
    if same_text(key, ENV_XDG_CONFIG_HOME) {
        return FallbackPlace::InHome(".config");
    }
    if same_text(key, ENV_TOKSCALE_HEADLESS_DIR) {
        return FallbackPlace::InHome(".config/tokscale/headless");
    }
    if same_text(key, ENV_COPILOT_EXPORTER) {
        return FallbackPlace::InHome(".copilot/otel");
    }
    if same_text(key, ENV_LOCALAPPDATA) {
        return FallbackPlace::InHome("AppData/Local");
    }
    if same_text(key, ENV_APPDATA) {
        return FallbackPlace::InHome("AppData/Roaming");
    }
    if same_text(key, ENV_KIMI_CODE_HOME) {
        return FallbackPlace::InHome(".kimi-code");
    }
    if same_text(key, ENV_TOKSCALE_EXTRA_DIRS) {
        return FallbackPlace::Home;
    }
    if same_text(key, ENV_GOOSE_PATH_ROOT) {
        return FallbackPlace::InHome(".local/share/goose");
    }
    match client_fallback(clients, key) {
        Some(relative) => FallbackPlace::InHome(relative),
        None => FallbackPlace::Home,
    }
}

/// What the variable for further directories counts for, once it is known whether it lists any.
pub open spec fn extra_dirs_choice(use_env_roots: bool, value: ValueModel, lists: bool) -> VariableChoice {
    if !use_env_roots {
        VariableChoice {
            state: InputState::Unset,
            resolution: PathResolution::Ignored,
            place: VariablePlace::Nowhere,
        }
    } else {
        VariableChoice {
            state: if value is NoText {
                InputState::Unset
            } else {
                value.state()
            },
            resolution: if lists {
                PathResolution::Explicit
            } else {
                PathResolution::Fallback
            },
            place: VariablePlace::Home,
        }
    }
}

/// Tells what the variable for further directories counts for.
pub fn choose_extra_dirs(use_env_roots: bool, value: VariableValue, lists: bool) -> (choice:
    VariableChoice)
    ensures
        choice == extra_dirs_choice(use_env_roots, value@, lists),
{
    if !use_env_roots {
        return VariableChoice {
            state: InputState::Unset,
            resolution: PathResolution::Ignored,
            place: VariablePlace::Nowhere,
        };
    }
    let state = match value {
        VariableValue::NoText => InputState::Unset,
        _ => value.input_state(),
    };
    let resolution = if lists {
        PathResolution::Explicit
    } else {
        PathResolution::Fallback
    };
    VariableChoice { state, resolution, place: VariablePlace::Home }
}

/// The directories that the variable for further directories lists count where variables give
/// roots and its value is text.
pub open spec fn listed_dirs_count(use_env_roots: bool, value: ValueModel) -> bool {
    use_env_roots && value is Text
}

pub fn takes_listed_dirs(use_env_roots: bool, value: VariableValue) -> (takes: bool)
    ensures
        takes == listed_dirs_count(use_env_roots, value@),
{
    match value {
        VariableValue::Text(_) => use_env_roots,
        _ => false,
    }
}

/// Whether the archived sessions of Codex are below the directory that its variable gives.
pub open spec fn codex_variable_counts(use_env_roots: bool, value: ValueModel) -> bool {
    use_env_roots && value is Text
}

pub fn takes_codex_variable(use_env_roots: bool, value: VariableValue) -> (takes: bool)
    ensures
        takes == codex_variable_counts(use_env_roots, value@),
{
    match value {
        VariableValue::Text(_) => use_env_roots,
        _ => false,
    }
}

/// Whether a value means yes.
pub open spec fn means_yes(value: ValueModel) -> bool {
    match value {
        ValueModel::Text(text) => text == "1"@ || text == "true"@ || text == "TRUE"@ || text
            == "yes"@ || text == "YES"@,
        _ => false,
    }
}

/// Whether a value asks for prices from the cache only.
pub fn asks_for_cached_prices(value: VariableValue) -> (asked: bool)
    ensures
        asked == means_yes(value@),
{
    match value {
        VariableValue::Text(text) => same_text(text, "1") || same_text(text, "true") || same_text(
            text,
            "TRUE",
        ) || same_text(text, "yes") || same_text(text, "YES"),
        _ => false,
    }
}

} // verus!
