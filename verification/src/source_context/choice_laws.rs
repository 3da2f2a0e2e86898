//! What holds of every choice: what variables count for, and where directories are, on every
//! operating system.
use vstd::prelude::*;
use vstd::utf8::*;

use crate::ordered::bytes_before;
use crate::source_context::catalog::{
    ascending, client_var, first_fallback, os_code, root_code, roots_a_client, texts_of,
    ClientDef, PathRoot, SourceCatalog, TargetOs, UnixOs,
};
use crate::source_context::environment::PathResolution;
use crate::source_context::inputs::{env_value, unicode, value_model, EnvValue, InputState};
use crate::source_context::places::{
    cache_choice, codex_variable_counts, config_choice, extra_dirs_choice, fallback_choice,
    home_choice, listed_dirs_count, means_yes, variable_choice, CacheInputs, CachePlace,
    ConfigInputs, ConfigPlace, FallbackModel, HomePlace, ValueModel, VariableChoice, VariablePlace,
};
use crate::source_context::windows::{placement_of, PathHead, Placement};
use crate::text::{is_white_space, lemma_blank};

verus! {

/// Whether a variable roots a client.
pub open spec fn is_rooted_by(client: ClientDef, key: Seq<char>) -> bool {
    client.root is EnvVar && client.root->EnvVar_var@ == key
}

/// The names of the variables that a resolution knows are different.
proof fn lemma_names_differ()
    ensures
        "HOME"@.len() == 4,
        "APPDATA"@.len() == 7,
        "CODEX_HOME"@.len() == 10,
        "LOCALAPPDATA"@.len() == 12,
        "XDG_DATA_HOME"@.len() == 13,
        "KIMI_CODE_HOME"@.len() == 14,
        "XDG_CONFIG_HOME"@.len() == 15,
        "XDG_CONFIG_HOME"@[0] == 'X',
        "GOOSE_PATH_ROOT"@.len() == 15,
        "GOOSE_PATH_ROOT"@[0] == 'G',
        "CODEBUFF_DATA_DIR"@.len() == 17,
        "TOKSCALE_CONFIG_DIR"@.len() == 19,
        "TOKSCALE_CONFIG_DIR"@[9] == 'C',
        "TOKSCALE_EXTRA_DIRS"@.len() == 19,
        "TOKSCALE_EXTRA_DIRS"@[9] == 'E',
        "TOKSCALE_HEADLESS_DIR"@.len() == 21,
        "COPILOT_OTEL_FILE_EXPORTER_PATH"@.len() == 31,
{
    reveal_strlit("HOME");
    reveal_strlit("APPDATA");
    reveal_strlit("CODEX_HOME");
    reveal_strlit("LOCALAPPDATA");
    reveal_strlit("XDG_DATA_HOME");
    reveal_strlit("KIMI_CODE_HOME");
    reveal_strlit("XDG_CONFIG_HOME");
    reveal_strlit("GOOSE_PATH_ROOT");
    reveal_strlit("CODEBUFF_DATA_DIR");
    reveal_strlit("TOKSCALE_CONFIG_DIR");
    reveal_strlit("TOKSCALE_EXTRA_DIRS");
    reveal_strlit("TOKSCALE_HEADLESS_DIR");
    reveal_strlit("COPILOT_OTEL_FILE_EXPORTER_PATH");
}

// ---------------------------------------------------------------------------
// Variables
// ---------------------------------------------------------------------------
/// Whether a text has nothing but white space.
pub open spec fn is_blank_text(text: Seq<char>) -> bool {
    forall|i: int| 0 <= i < text.len() ==> is_white_space(#[trigger] text[i])
}

/// Whether the white space around a variable's value does not count.
pub open spec fn is_trimmed(key: Seq<char>) -> bool {
    key == "COPILOT_OTEL_FILE_EXPORTER_PATH"@ || key == "GOOSE_PATH_ROOT"@ || key
        == "CODEBUFF_DATA_DIR"@
}

/// Whether a value of white space is a value like any other.
pub open spec fn takes_blank_values(key: Seq<char>) -> bool {
    key == "XDG_DATA_HOME"@ || key == "TOKSCALE_CONFIG_DIR"@ || key == "XDG_CONFIG_HOME"@ || key
        == "APPDATA"@ || key == "LOCALAPPDATA"@ || key == "TOKSCALE_HEADLESS_DIR"@
}

/// Whether a choice leaves the fallback in place.
pub open spec fn is_fallback(choice: VariableChoice) -> bool {
    choice.resolution == PathResolution::Fallback && choice.place == VariablePlace::Fallback
}

/// Whether a choice takes the value.
pub open spec fn is_explicit(choice: VariableChoice) -> bool {
    choice.resolution == PathResolution::Explicit && choice.place == VariablePlace::Value
}

/// Where variables give no roots, none of them counts for anything but that of the home
/// directory, which only tells its state.
pub proof fn lemma_variables_without_roots(
    os: TargetOs,
    clients: Seq<ClientDef>,
    key: Seq<char>,
    value: ValueModel,
    use_env_roots: bool,
)
    ensures
        ({
            let choice = variable_choice(os, clients, key, value, use_env_roots);
            &&& key == "HOME"@ ==> choice.place == VariablePlace::Home && choice.resolution
                == PathResolution::Fallback && (choice.state == InputState::Unset <==> value
                == ValueModel::Unset) && (choice.state == InputState::Empty <==> value
                == ValueModel::Text(Seq::empty()))
            &&& key != "HOME"@ && !use_env_roots ==> choice.place == VariablePlace::Nowhere
                && choice.resolution == PathResolution::Ignored && choice.state == InputState::Unset
        }),
{
    if let ValueModel::Text(text) = value {
        if text.len() == 0 {
            assert(text =~= Seq::empty());
        }
    }
}

/// A variable that is not set leaves its fallback in place.
pub proof fn lemma_unset_variables(os: TargetOs, clients: Seq<ClientDef>, key: Seq<char>)
    requires
        key != "HOME"@,
    ensures
        is_fallback(variable_choice(os, clients, key, ValueModel::Unset, true)),
        variable_choice(os, clients, key, ValueModel::Unset, true).state == InputState::Unset,
{
}

/// A text that says something is taken as it is, or without the white space around it for the
/// variables where that does not count. The variable for further directories stands for the
/// home directory.
pub proof fn lemma_variables_with_text(
    os: TargetOs,
    clients: Seq<ClientDef>,
    key: Seq<char>,
    text: Seq<char>,
)
    requires
        key != "HOME"@,
        !is_blank_text(text),
    ensures
        ({
            let choice = variable_choice(os, clients, key, ValueModel::Text(text), true);
            &&& choice.state == InputState::Value
            &&& is_trimmed(key) ==> choice.resolution == PathResolution::Explicit && choice.place
                == VariablePlace::TrimmedValue
            &&& key == "TOKSCALE_EXTRA_DIRS"@ ==> choice.resolution == PathResolution::Fallback
                && choice.place == VariablePlace::Home
            &&& !is_trimmed(key) && key != "TOKSCALE_EXTRA_DIRS"@ ==> is_explicit(choice)
        }),
{
    lemma_names_differ();
    lemma_blank(text);
}

/// White space is no value for a variable, but for those that take it.
pub proof fn lemma_variables_with_white_space(
    os: TargetOs,
    clients: Seq<ClientDef>,
    key: Seq<char>,
    text: Seq<char>,
)
    requires
        key != "HOME"@,
        is_blank_text(text),
        text.len() > 0,
    ensures
        ({
            let choice = variable_choice(os, clients, key, ValueModel::Text(text), true);
            &&& choice.state == InputState::Value
            &&& takes_blank_values(key) ==> is_explicit(choice)
            &&& !takes_blank_values(key) ==> is_fallback(choice)
        }),
{
    lemma_names_differ();
    lemma_blank(text);
}

/// A variable that is set to nothing leaves its fallback in place. But on Linux, that of the
/// user's configuration then stands for the root directory, and the one for headless sessions is
/// taken as it is everywhere.
pub proof fn lemma_variables_set_to_nothing(
    os: TargetOs,
    clients: Seq<ClientDef>,
    key: Seq<char>,
)
    requires
        key != "HOME"@,
    ensures
        ({
            let choice = variable_choice(os, clients, key, ValueModel::Text(Seq::empty()), true);
            let root = os == TargetOs::Linux && key == "XDG_CONFIG_HOME"@;
            &&& choice.state == InputState::Empty
            &&& root ==> choice.resolution == PathResolution::Explicit && choice.place
                == VariablePlace::Root
            &&& key == "TOKSCALE_HEADLESS_DIR"@ ==> is_explicit(choice)
            &&& !root && key != "TOKSCALE_HEADLESS_DIR"@ ==> is_fallback(choice)
        }),
{
    lemma_names_differ();
    lemma_blank(Seq::empty());
}

/// A value that is no text is as if it was not set for the variables that take text only: those
/// that root a client, those that are trimmed, that of headless sessions, that of the user's
/// data, and on Linux that of the user's configuration. Others take it as it is.
pub proof fn lemma_variables_with_no_text(
    os: TargetOs,
    clients: Seq<ClientDef>,
    key: Seq<char>,
)
    requires
        key != "HOME"@,
    ensures
        ({
            let choice = variable_choice(os, clients, key, ValueModel::NoText, true);
            let text_only = is_trimmed(key) || key == "TOKSCALE_HEADLESS_DIR"@ || key
                == "XDG_DATA_HOME"@ || os == TargetOs::Linux && key == "XDG_CONFIG_HOME"@ || exists|
                i: int,
            |
                0 <= i < clients.len() && is_rooted_by(#[trigger] clients[i], key);
            &&& text_only ==> is_fallback(choice) && choice.state == InputState::Unset
            &&& !text_only && key != "TOKSCALE_EXTRA_DIRS"@ ==> is_explicit(choice) && choice.state
                == InputState::Value
            &&& !text_only && key == "TOKSCALE_EXTRA_DIRS"@ ==> choice.resolution
                == PathResolution::Fallback && choice.place == VariablePlace::Home
        }),
{
    lemma_names_differ();
    if roots_a_client(clients, key) {
        let i = choose|i: int|
            0 <= i < clients.len() && client_var(#[trigger] clients[i]) == Some(key);
        assert(is_rooted_by(clients[i], key));
    }
    if exists|i: int|
        0 <= i < clients.len() && is_rooted_by(#[trigger] clients[i], key) {
        let i = choose|i: int|
            0 <= i < clients.len() && is_rooted_by(#[trigger] clients[i], key);
        assert(client_var(clients[i]) == Some(key));
    }
}

// ---------------------------------------------------------------------------
// Fallbacks
// ---------------------------------------------------------------------------
/// Whether a variable has a fallback of its own, whatever the clients.
pub open spec fn has_own_fallback(key: Seq<char>) -> bool {
    key == "XDG_DATA_HOME"@ || key == "TOKSCALE_CONFIG_DIR"@ || key == "XDG_CONFIG_HOME"@ || key
        == "TOKSCALE_HEADLESS_DIR"@ || key == "COPILOT_OTEL_FILE_EXPORTER_PATH"@ || key
        == "LOCALAPPDATA"@ || key == "APPDATA"@ || key == "KIMI_CODE_HOME"@ || key
        == "TOKSCALE_EXTRA_DIRS"@ || key == "GOOSE_PATH_ROOT"@
}

/// The fallbacks that variables have of their own. That of the program's configuration is the
/// platform's where it has a configuration directory, but not on macOS.
pub proof fn lemma_own_fallbacks(os: TargetOs, clients: Seq<ClientDef>, platform: bool)
    ensures
        fallback_choice(os, clients, "XDG_DATA_HOME"@, platform) == FallbackModel::InHome(
            ".local/share"@,
        ),
        fallback_choice(os, clients, "TOKSCALE_CONFIG_DIR"@, platform) == (if platform && os
            != TargetOs::MacOs {
            FallbackModel::InPlatformConfig
        } else {
            FallbackModel::InHome(".config/tokscale"@)
        }),
        fallback_choice(os, clients, "XDG_CONFIG_HOME"@, platform) == FallbackModel::InHome(
            ".config"@,
        ),
        fallback_choice(os, clients, "TOKSCALE_HEADLESS_DIR"@, platform) == FallbackModel::InHome(
            ".config/tokscale/headless"@,
        ),
        fallback_choice(os, clients, "COPILOT_OTEL_FILE_EXPORTER_PATH"@, platform)
            == FallbackModel::InHome(".copilot/otel"@),
        fallback_choice(os, clients, "LOCALAPPDATA"@, platform) == FallbackModel::InHome(
            "AppData/Local"@,
        ),
        fallback_choice(os, clients, "APPDATA"@, platform) == FallbackModel::InHome(
            "AppData/Roaming"@,
        ),
        fallback_choice(os, clients, "KIMI_CODE_HOME"@, platform) == FallbackModel::InHome(
            ".kimi-code"@,
        ),
        fallback_choice(os, clients, "TOKSCALE_EXTRA_DIRS"@, platform) == FallbackModel::Home,
        fallback_choice(os, clients, "GOOSE_PATH_ROOT"@, platform) == FallbackModel::InHome(
            ".local/share/goose"@,
        ),
{
    lemma_names_differ();
}

/// Whether a client is the first that a variable roots.
pub open spec fn is_first_rooted(clients: Seq<ClientDef>, key: Seq<char>, at: int) -> bool {
    &&& 0 <= at < clients.len()
    &&& is_rooted_by(clients[at], key)
    &&& forall|i: int| 0 <= i < at ==> !is_rooted_by(#[trigger] clients[i], key)
}

proof fn lemma_first_fallback(clients: Seq<ClientDef>, key: Seq<char>)
    ensures
        forall|at: int| #[trigger]
            is_first_rooted(clients, key, at) ==> first_fallback(clients, key) == Some(
                clients[at].root->EnvVar_fallback_relative@,
            ),
        first_fallback(clients, key) is Some ==> exists|at: int| #[trigger]
            is_first_rooted(clients, key, at),
    decreases clients.len(),
{
    if clients.len() > 0 {
        let rest = clients.drop_first();
        lemma_first_fallback(rest, key);
        let here = is_rooted_by(clients[0], key);
        assert forall|at: int| #[trigger] is_first_rooted(clients, key, at) implies first_fallback(
            clients,
            key,
        ) == Some(clients[at].root->EnvVar_fallback_relative@) by {
            if at > 0 {
                assert(!here);
                assert(rest[at - 1] == clients[at]);
                assert forall|i: int| 0 <= i < at - 1 implies !is_rooted_by(
                    #[trigger] rest[i],
                    key,
                ) by {
                    assert(rest[i] == clients[i + 1]);
                }
                assert(is_first_rooted(rest, key, at - 1));
            }
        }
        if first_fallback(clients, key) is Some {
            if here {
                assert(is_first_rooted(clients, key, 0));
            } else {
                let at = choose|at: int| #[trigger] is_first_rooted(rest, key, at);
                assert forall|i: int| 0 <= i < at + 1 implies !is_rooted_by(
                    #[trigger] clients[i],
                    key,
                ) by {
                    if i > 0 {
                        assert(rest[i - 1] == clients[i]);
                    }
                }
                assert(is_first_rooted(clients, key, at + 1));
            }
        }
    }
}

/// Another variable falls back to the directory of the first client that it roots, below the
/// home directory, and to the home directory where it roots none.
pub proof fn lemma_fallbacks_of_clients(
    os: TargetOs,
    clients: Seq<ClientDef>,
    key: Seq<char>,
    platform: bool,
)
    requires
        !has_own_fallback(key),
    ensures
        forall|at: int| #[trigger]
            is_first_rooted(clients, key, at) ==> fallback_choice(os, clients, key, platform)
                == FallbackModel::InHome(clients[at].root->EnvVar_fallback_relative@),
        (forall|at: int| !#[trigger] is_first_rooted(clients, key, at)) ==> fallback_choice(
            os,
            clients,
            key,
            platform,
        ) == FallbackModel::Home,
{
    lemma_first_fallback(clients, key);
}

// ---------------------------------------------------------------------------
// Directories
// ---------------------------------------------------------------------------
/// The first home directory that there is counts: the given one, that of the environment, the
/// platform's.
pub proof fn lemma_home_directories(given: bool, environment: bool, platform: bool)
    ensures
        home_choice(given, environment, platform) == Some(HomePlace::Given) <==> given,
        home_choice(given, environment, platform) == Some(HomePlace::Environment) <==> !given
            && environment,
        home_choice(given, environment, platform) == Some(HomePlace::Platform) <==> !given
            && !environment && platform,
        home_choice(given, environment, platform) is None <==> !given && !environment && !platform,
{
}

/// Where variables give no roots, the configuration is in the home directory, whatever they say.
/// Else a given directory for it wins. Without one, on Linux it is in the user's configuration
/// directory where there is one, on Windows in the platform's, and else in the home directory.
pub proof fn lemma_configuration_directories(os: TargetOs, inputs: ConfigInputs)
    ensures
        !inputs.use_env_roots ==> config_choice(os, inputs) == (if os == TargetOs::Windows {
            ConfigPlace::InHomeRoaming
        } else {
            ConfigPlace::InHomeConfig
        }),
        inputs.use_env_roots && inputs.own && inputs.own_is_explicit ==> config_choice(os, inputs)
            == ConfigPlace::Own,
        inputs.use_env_roots && inputs.own && !(os == TargetOs::Linux && inputs.user
            && inputs.user_is_emptied) ==> config_choice(os, inputs) == ConfigPlace::Own,
        inputs.use_env_roots && !inputs.own ==> {
            &&& os == TargetOs::Linux && inputs.user ==> config_choice(os, inputs)
                == ConfigPlace::InUserConfig
            &&& os == TargetOs::Windows && inputs.platform ==> config_choice(os, inputs)
                == ConfigPlace::InPlatformConfig
            &&& !(os == TargetOs::Linux && inputs.user) && !(os == TargetOs::Windows
                && inputs.platform) ==> config_choice(os, inputs) == ConfigPlace::InHomeConfig
        },
        inputs.use_env_roots && os == TargetOs::Linux && inputs.user && inputs.user_is_emptied
            && !inputs.own_is_explicit ==> config_choice(os, inputs) == ConfigPlace::InUserConfig,
{
}

/// The cache is below the directory that the variable for the configuration gives, whatever else
/// there is. Without it, on macOS it is in the home directory, and elsewhere in the platform's
/// configuration directory, else in the runtime directory, else among the temporary ones; on
/// Windows there is none then.
pub proof fn lemma_cache_directories(os: TargetOs, inputs: CacheInputs)
    ensures
        inputs.own <==> cache_choice(os, inputs) == Some(CachePlace::InOwnConfig),
        cache_choice(os, inputs) == Some(CachePlace::InHomeConfig) <==> !inputs.own && os
            == TargetOs::MacOs,
        cache_choice(os, inputs) == Some(CachePlace::InPlatformConfig) <==> !inputs.own && os
            != TargetOs::MacOs && inputs.platform,
        cache_choice(os, inputs) == Some(CachePlace::InRuntime) <==> !inputs.own && os
            != TargetOs::MacOs && !inputs.platform && inputs.runtime,
        cache_choice(os, inputs) is None <==> os == TargetOs::Windows && !inputs.own
            && !inputs.platform && !inputs.runtime,
{
}

/// The variable for further directories and that of Codex count where variables give roots and
/// their values are text. The first tells whether it lists any, and prices come from the cache
/// only where the variable for that is one of five texts.
pub proof fn lemma_further_variables(use_env_roots: bool, value: ValueModel, lists: bool)
    ensures
        listed_dirs_count(use_env_roots, value) <==> use_env_roots && value is Text,
        codex_variable_counts(use_env_roots, value) <==> use_env_roots && value is Text,
        !use_env_roots ==> extra_dirs_choice(use_env_roots, value, lists) == (VariableChoice {
            state: InputState::Unset,
            resolution: PathResolution::Ignored,
            place: VariablePlace::Nowhere,
        }),
        use_env_roots ==> {
            let choice = extra_dirs_choice(use_env_roots, value, lists);
            &&& choice.place == VariablePlace::Home
            &&& choice.resolution == PathResolution::Explicit <==> lists
            &&& choice.resolution == PathResolution::Fallback <==> !lists
            &&& choice.state == InputState::Unset <==> !(value is Text)
            &&& choice.state == InputState::Empty <==> value == ValueModel::Text(Seq::empty())
        },
        means_yes(value) <==> value == ValueModel::Text("1"@) || value == ValueModel::Text("true"@)
            || value == ValueModel::Text("TRUE"@) || value == ValueModel::Text("yes"@) || value
            == ValueModel::Text("YES"@),
{
    if let ValueModel::Text(text) = value {
        if text.len() == 0 {
            assert(text =~= Seq::empty());
        }
    }
}

/// A value is text where it is UTF-8, and then the text that it encodes.
pub proof fn lemma_values_that_are_text(text: Seq<char>, bytes: Seq<u8>)
    ensures
        value_model(Some(encode_utf8(text))) == ValueModel::Text(text),
        !valid_utf8(bytes) ==> value_model(Some(bytes)) == ValueModel::NoText,
        value_model(None) == ValueModel::Unset,
        unicode(Some(encode_utf8(text))) == Some(text),
        !valid_utf8(bytes) ==> unicode(Some(bytes)) is None,
        unicode(None) is None,
{
    encode_utf8_valid_utf8(text);
    encode_utf8_decode_utf8(text);
}

/// Of several values for a variable the last counts, and one for another variable does not.
pub proof fn lemma_the_last_value_counts(
    variables: Seq<EnvValue>,
    variable: EnvValue,
    key: Seq<char>,
)
    ensures
        variable.key@ == key && variable.value is Some ==> env_value(variables.push(variable), key)
            == Some(variable.value->0@),
        variable.key@ == key && variable.value is None ==> env_value(
            variables.push(variable),
            key,
        ) is None,
        variable.key@ != key ==> env_value(variables.push(variable), key) == env_value(
            variables,
            key,
        ),
        env_value(Seq::empty(), key) is None,
{
    assert(variables.push(variable).drop_last() =~= variables);
}

/// The resolver reads the variables of the platform, those that are named for the scanner and
/// those that root a client, and no others.
pub proof fn lemma_variables_that_are_read(catalog: SourceCatalog, key: Seq<char>)
    ensures
        catalog.reads("HOME"@),
        catalog.reads("XDG_DATA_HOME"@),
        catalog.reads("TOKSCALE_CONFIG_DIR"@),
        catalog.reads("XDG_CONFIG_HOME"@),
        forall|i: int|
            0 <= i < catalog.direct_env_keys@.len() ==> catalog.reads(
                (#[trigger] catalog.direct_env_keys@[i])@,
            ),
        forall|i: int|
            0 <= i < catalog.clients@.len() && (#[trigger] catalog.clients@[i]).root is EnvVar
                ==> catalog.reads(catalog.clients@[i].root->EnvVar_var@),
        catalog.reads(key) ==> key == "HOME"@ || key == "XDG_DATA_HOME"@ || key
            == "TOKSCALE_CONFIG_DIR"@ || key == "XDG_CONFIG_HOME"@ || (exists|i: int|
            0 <= i < catalog.direct_env_keys@.len() && (#[trigger] catalog.direct_env_keys@[i])@
                == key) || (exists|i: int|
            0 <= i < catalog.clients@.len() && (#[trigger] catalog.clients@[i]).root is EnvVar
                && catalog.clients@[i].root->EnvVar_var@ == key),
{
    assert forall|i: int|
        0 <= i < catalog.clients@.len() && (
        #[trigger] catalog.clients@[i]).root is EnvVar implies catalog.reads(
        catalog.clients@[i].root->EnvVar_var@,
    ) by {
        assert(client_var(catalog.clients@[i]) == Some(catalog.clients@[i].root->EnvVar_var@));
    }
    if roots_a_client(catalog.clients@, key) {
        let i = choose|i: int|
            0 <= i < catalog.clients@.len() && client_var(#[trigger] catalog.clients@[i]) == Some(
                key,
            );
        assert(catalog.clients@[i].root is EnvVar);
    }
}

// ---------------------------------------------------------------------------
// Paths on Windows
// ---------------------------------------------------------------------------
/// Whether two letters are the same but for their case.
pub open spec fn same_letter(a: u8, b: u8) -> bool {
    ||| a == b
    ||| 0x41 <= a <= 0x5a && b == a + 0x20
    ||| 0x41 <= b <= 0x5a && a == b + 0x20
}

/// An absolute path stays. A path on a drive goes below a base on the same drive, in either case
/// of its letter, a path from the root behind the prefix of the base, and a name below the base.
/// Nothing else has a place.
pub proof fn lemma_places_on_windows(absolute: bool, path: PathHead, base: PathHead)
    ensures
        absolute ==> placement_of(absolute, path, base) == Some(Placement::AsGiven),
        !absolute ==> match placement_of(absolute, path, base) {
            Some(Placement::AsGiven) => false,
            Some(Placement::TailBelowBase) => path is Drive && base is Drive && same_letter(
                path->Drive_0,
                base->Drive_0,
            ),
            Some(Placement::BehindBasePrefix) => path is Root && (base is Drive
                || base is OtherPrefix),
            Some(Placement::BelowBase) => path is Name,
            None => {
                ||| path is OtherPrefix
                ||| path is Drive && !(base is Drive && same_letter(path->Drive_0, base->Drive_0))
                ||| path is Root && !(base is Drive || base is OtherPrefix)
            },
        },
{
}

/// The systems and the kinds of roots, states and resolutions have the bytes that descriptors
/// write for them.
pub proof fn lemma_bytes_that_stand_for_kinds(var: String, fallback_relative: String)
    ensures
        UnixOs::MacOs.target() == TargetOs::MacOs,
        UnixOs::Linux.target() == TargetOs::Linux,
        UnixOs::Other.target() == TargetOs::Other,
        os_code(TargetOs::Windows) == 1,
        os_code(TargetOs::MacOs) == 2,
        os_code(TargetOs::Linux) == 3,
        os_code(TargetOs::Other) == 255,
        root_code(PathRoot::Home) == 1,
        root_code(PathRoot::XdgData) == 2,
        root_code(PathRoot::Config) == 3,
        root_code(PathRoot::EnvVar { var, fallback_relative }) == 4,
        InputState::Unset.code() == 0,
        InputState::Empty.code() == 1,
        InputState::Value.code() == 2,
        PathResolution::Ignored.code() == 0,
        PathResolution::Fallback.code() == 1,
        PathResolution::Explicit.code() == 2,
{
}

/// Keys are in ascending order of their bytes, each once.
pub proof fn lemma_keys_in_order(keys: Seq<String>, i: int, j: int)
    requires
        ascending(texts_of(keys)),
        0 <= i < j < keys.len(),
    ensures
        bytes_before(encode_utf8(keys[i]@), encode_utf8(keys[j]@)),
{
    assert(texts_of(keys)[i] == keys[i]@);
    assert(texts_of(keys)[j] == keys[j]@);
}

} // verus!
