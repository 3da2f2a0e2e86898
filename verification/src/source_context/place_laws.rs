//! What holds of every captured configuration: where its directories and its clients are.
use vstd::prelude::*;
use vstd::utf8::*;

use crate::source_context::catalog::{os_code, root_code, ClientDef, PathRoot};
use crate::source_context::choice_laws::{
    has_own_fallback, is_blank_text, is_first_rooted, is_rooted_by, is_trimmed,
    lemma_fallbacks_of_clients, lemma_variables_that_are_read, lemma_variables_with_text,
};
use crate::source_context::context::{variable_of, CaptureModel, ContextModel};
use crate::source_context::descriptor::NativeModel;
use crate::source_context::environment::{PathResolution, ResolutionModel};
use crate::source_context::inputs::{value_model, DirModel, InputState};
use crate::source_context::paths::{decimal, joined};
use crate::source_context::places::{
    config_choice, extra_dirs_choice, fallback_choice, means_yes, variable_choice, ConfigPlace,
    FallbackModel, VariablePlace,
};
use crate::source_context::settings::resolved_settings;
use crate::text::trimmed;

verus! {

/// A path below a directory, given as text.
pub open spec fn in_dir(dir: Seq<u8>, relative: Seq<char>) -> Seq<u8> {
    joined(dir, encode_utf8(relative))
}

/// Whether a value is there and not empty.
pub open spec fn is_given(value: Option<Seq<u8>>) -> bool {
    value is Some && value->0.len() > 0
}

// ---------------------------------------------------------------------------
// What is captured
// ---------------------------------------------------------------------------
/// A configuration has the system, the clients, the settings and the directories of the platform
/// that were captured, relative paths belonging to the working directory.
pub proof fn lemma_what_a_context_takes_over(capture: CaptureModel, context: ContextModel)
    requires
        capture.gives(context),
    ensures
        context.os == capture.inputs.host().target_os,
        context.clients == capture.catalog.clients@,
        context.use_env_roots == capture.use_env_roots,
        context.settings == resolved_settings(capture.cwd, capture.settings),
        capture.inputs.host().config_dir matches Some(dir) ==> context.platform_config_dir == Some(
            joined(capture.cwd, dir@),
        ),
        capture.inputs.host().config_dir is None ==> context.platform_config_dir is None,
        capture.inputs.host().data_local_dir matches Some(dir) ==> context.platform_data_local_dir
            == Some(joined(capture.cwd, dir@)),
        capture.inputs.host().data_local_dir is None ==> context.platform_data_local_dir is None,
        context.pricing_cache_only == means_yes(
            value_model(capture.inputs.value("TOKSCALE_PRICING_CACHE_ONLY"@)),
        ),
{
}

/// The home directory is the given one, else that of the environment, else the platform's, and
/// belongs to the working directory where it is relative. An empty one is none, but for the
/// platform's. Without any there is no configuration.
pub proof fn lemma_home_of_a_context(capture: CaptureModel)
    ensures
        ({
            let environment = capture.inputs.value("HOME"@);
            let platform = capture.inputs.host().home_dir;
            &&& is_given(capture.home_dir) ==> capture.home() == Some(
                joined(capture.cwd, capture.home_dir->0),
            )
            &&& !is_given(capture.home_dir) && is_given(environment) ==> capture.home() == Some(
                joined(capture.cwd, environment->0),
            )
            &&& !is_given(capture.home_dir) && !is_given(environment) && platform is Some
                ==> capture.home() == Some(joined(capture.cwd, platform->0@))
            &&& !is_given(capture.home_dir) && !is_given(environment) && platform is None
                ==> capture.home() is None
        }),
        forall|context: ContextModel| #[trigger]
            capture.gives(context) ==> capture.home() == Some(context.home_dir),
{
}

/// The further directories of clients are those that the variable for them lists, in their order,
/// where variables give roots and its value is text. Each belongs to its own client.
pub proof fn lemma_further_directories(capture: CaptureModel, context: ContextModel)
    requires
        capture.gives(context),
    ensures
        ({
            let counts = capture.use_env_roots && value_model(
                capture.inputs.value("TOKSCALE_EXTRA_DIRS"@),
            ) is Text;
            &&& !counts ==> context.extra_dirs.len() == 0
            &&& counts ==> context.extra_dirs.len() == capture.inputs.listed_dirs().len() && forall|
                i: int,
            |
                0 <= i < context.extra_dirs.len() ==> (#[trigger] context.extra_dirs[i]) == (
                DirModel {
                    client: capture.inputs.listed_dirs()[i].client,
                    path: joined(capture.cwd, capture.inputs.listed_dirs()[i].path@),
                })
        }),
{
}

/// The archived sessions of Codex are below the directory of its variable, where variables give
/// roots and its value is text, and else in the home directory.
pub proof fn lemma_codex_archive(capture: CaptureModel, context: ContextModel)
    requires
        capture.gives(context),
    ensures
        ({
            let value = capture.inputs.value("CODEX_HOME"@);
            let counts = capture.use_env_roots && value_model(value) is Text;
            &&& counts ==> context.codex_archive_root == joined(
                capture.cwd,
                value->0 + encode_utf8("/archived_sessions"@),
            )
            &&& !counts ==> context.codex_archive_root == joined(
                capture.cwd,
                in_dir(context.home_dir, ".codex/archived_sessions"@),
            )
        }),
{
}

/// The cache of a configuration: below the given configuration directory, on macOS below the
/// home directory, else below the platform's configuration directory, the runtime directory or
/// the temporary ones, the first that there is.
pub proof fn lemma_cache_of_a_context(capture: CaptureModel, context: ContextModel)
    requires
        capture.gives(context),
    ensures
        ({
            let host = capture.inputs.host();
            let own = capture.inputs.value("TOKSCALE_CONFIG_DIR"@);
            let runtime = capture.inputs.value("XDG_RUNTIME_DIR"@);
            let on_mac = host.target_os is MacOs;
            let dir = if is_given(own) {
                in_dir(own->0, "cache"@)
            } else if on_mac {
                in_dir(in_dir(context.home_dir, ".config/tokscale"@), "cache"@)
            } else if host.config_dir is Some {
                in_dir(in_dir(host.config_dir->0@, "tokscale"@), "cache"@)
            } else if runtime is Some {
                in_dir(runtime->0, "tokscale"@)
            } else {
                joined(
                    host.temp_dir@,
                    encode_utf8("tokscale-uid-"@) + decimal(host.user_id as nat),
                )
            };
            context.source_cache_dir == Some(joined(capture.cwd, dir))
        }),
{
}

// ---------------------------------------------------------------------------
// Variables
// ---------------------------------------------------------------------------
/// The path of a fallback: the home directory, a directory below it, or the program's directory
/// in the platform's configuration directory.
pub open spec fn is_fallback_path(
    place: FallbackModel,
    home: Seq<u8>,
    platform_config: Option<Seq<u8>>,
    path: Seq<u8>,
) -> bool {
    match place {
        FallbackModel::Home => path == home,
        FallbackModel::InHome(relative) => path == in_dir(home, relative),
        FallbackModel::InPlatformConfig => platform_config is Some ==> path == in_dir(
            platform_config->0,
            "tokscale"@,
        ),
    }
}

/// A variable points where its choice says: to its value as the working directory qualifies it,
/// to its value without the white space around it, to its fallback, to the home directory, to
/// the root directory, or nowhere.
pub proof fn lemma_paths_of_variables(
    resolution: ResolutionModel,
    key: Seq<char>,
    value: Option<Seq<u8>>,
)
    ensures
        ({
            let choice = variable_choice(
                resolution.os.target(),
                resolution.clients,
                key,
                value_model(value),
                resolution.use_env_roots,
            );
            let resolved = resolution.resolve(key, value);
            &&& resolved.state == choice.state
            &&& resolved.resolution == choice.resolution
            &&& choice.place == VariablePlace::Nowhere <==> resolved.path is None
            &&& choice.place == VariablePlace::Home ==> resolved.path == Some(resolution.home)
            &&& choice.place == VariablePlace::Root ==> resolved.path == Some(seq![0x2fu8])
            &&& choice.place == VariablePlace::Value && value is Some ==> resolved.path == Some(
                joined(resolution.cwd, value->0),
            )
            &&& choice.place == VariablePlace::TrimmedValue && value_model(value) is Text
                ==> resolved.path == Some(
                in_dir(resolution.cwd, trimmed(value_model(value)->Text_0)),
            )
            &&& choice.place == VariablePlace::Fallback ==> is_fallback_path(
                fallback_choice(
                    resolution.os.target(),
                    resolution.clients,
                    key,
                    resolution.platform_config is Some,
                ),
                resolution.home,
                resolution.platform_config,
                resolved.path->0,
            )
        }),
{
}

/// A configuration knows the variables that the catalog reads, as they resolve by its home
/// directory, and that for further directories. It knows no others.
pub proof fn lemma_variables_of_a_context(
    capture: CaptureModel,
    context: ContextModel,
    key: Seq<char>,
)
    requires
        capture.gives(context),
    ensures
        ({
            let resolution = ResolutionModel {
                os: capture.inputs.host().target_os,
                clients: capture.catalog.clients@,
                cwd: capture.cwd,
                home: context.home_dir,
                use_env_roots: capture.use_env_roots,
                platform_config: context.platform_config_dir,
            };
            let further = key == "TOKSCALE_EXTRA_DIRS"@;
            let resolved = resolution.resolve(key, capture.inputs.value(key));
            let choice = extra_dirs_choice(
                capture.use_env_roots,
                value_model(capture.inputs.value(key)),
                context.extra_dirs.len() > 0,
            );
            &&& !further && capture.catalog.reads(key) ==> {
                &&& variable_of(context.variables, key) == Some(resolved)
                &&& context.env_path(key) == resolved.path
                &&& context.env_is_explicit(key) <==> resolved.resolution
                    == PathResolution::Explicit
                &&& context.env_is_emptied(key) <==> resolved.state == InputState::Empty
            }
            &&& !further && !capture.catalog.reads(key) ==> {
                &&& variable_of(context.variables, key) is None
                &&& context.env_path(key) is None
                &&& !context.env_is_explicit(key)
                &&& !context.env_is_emptied(key)
            }
            &&& further ==> {
                &&& choice.place == VariablePlace::Nowhere <==> context.env_path(key) is None
                &&& context.env_path(key) is Some ==> context.env_path(key) == Some(
                    context.home_dir,
                )
                &&& variable_of(context.variables, key) matches Some(found) && found.state
                    == choice.state && found.resolution == choice.resolution
                &&& context.env_is_explicit(key) <==> choice.resolution == PathResolution::Explicit
            }
        }),
{
    assert(variable_of(context.variables, key) == capture.variable(key));
}

// ---------------------------------------------------------------------------
// Clients
// ---------------------------------------------------------------------------
/// A client is at its own path below its root: the home directory, the user's data, the
/// program's configuration, or what its variable resolved to, with its own directory below the
/// home directory where the variable resolved to nothing.
pub proof fn lemma_paths_of_clients(context: ContextModel, client: ClientDef)
    ensures
        ({
            let path = context.client_path(client);
            let relative = client.relative_path@;
            &&& client.root is Home ==> path == in_dir(context.home_dir, relative)
            &&& client.root is XdgData && context.env_path("XDG_DATA_HOME"@) is Some ==> path
                == in_dir(context.env_path("XDG_DATA_HOME"@)->0, relative)
            &&& client.root is XdgData && context.env_path("XDG_DATA_HOME"@) is None ==> path
                == in_dir(in_dir(context.home_dir, ".local/share"@), relative)
            &&& client.root is Config ==> path == in_dir(context.config_root(), relative)
            &&& client.root matches PathRoot::EnvVar { var, fallback_relative } ==> {
                &&& context.env_path(var@) is Some ==> path == in_dir(
                    context.env_path(var@)->0,
                    relative,
                )
                &&& context.env_path(var@) is None ==> path == in_dir(
                    in_dir(context.home_dir, fallback_relative@),
                    relative,
                )
            }
        }),
{
}

/// The program's configuration is where the choice says: at the path for it, in the user's
/// configuration directory, or in the home directory.
pub proof fn lemma_configuration_of_a_context(context: ContextModel)
    ensures
        ({
            let choice = config_choice(context.os.target(), context.config_inputs());
            let inputs = context.config_inputs();
            &&& inputs.use_env_roots == context.use_env_roots
            &&& inputs.own == (context.env_path("TOKSCALE_CONFIG_DIR"@) is Some)
            &&& inputs.own_is_explicit == context.env_is_explicit("TOKSCALE_CONFIG_DIR"@)
            &&& inputs.user == (context.env_path("XDG_CONFIG_HOME"@) is Some)
            &&& inputs.user_is_emptied == context.env_is_emptied("XDG_CONFIG_HOME"@)
            &&& inputs.platform == (context.platform_config_dir is Some)
            &&& choice == ConfigPlace::Own ==> Some(context.config_root()) == context.env_path(
                "TOKSCALE_CONFIG_DIR"@,
            )
            &&& choice == ConfigPlace::InUserConfig ==> context.config_root() == in_dir(
                context.env_path("XDG_CONFIG_HOME"@)->0,
                "tokscale"@,
            )
            &&& choice == ConfigPlace::InHomeConfig ==> context.config_root() == in_dir(
                context.home_dir,
                ".config/tokscale"@,
            )
        }),
{
}

/// Where variables give no roots, a client that a variable roots is at its own directory below
/// the home directory, whatever the variable says. The variable of the home directory itself is
/// apart: it always stands for the home directory.
pub proof fn lemma_clients_without_roots(
    capture: CaptureModel,
    context: ContextModel,
    client: ClientDef,
)
    requires
        capture.gives(context),
        !capture.use_env_roots,
    ensures
        ({
            let home = context.home_dir;
            let relative = client.relative_path@;
            let path = context.client_path(client);
            &&& client.root matches PathRoot::EnvVar { var, fallback_relative } ==> {
                &&& var@ != "HOME"@ ==> path == in_dir(in_dir(home, fallback_relative@), relative)
                &&& var@ == "HOME"@ ==> path == in_dir(home, relative)
            }
            &&& client.root is Home ==> path == in_dir(home, relative)
            &&& client.root is XdgData ==> path == in_dir(in_dir(home, ".local/share"@), relative)
            &&& client.root is Config ==> path == in_dir(
                in_dir(home, ".config/tokscale"@),
                relative,
            )
        }),
{
    reveal_strlit("XDG_DATA_HOME");
    reveal_strlit("HOME");
    assert("XDG_DATA_HOME"@.len() == 13 && "HOME"@.len() == 4);
    assert(variable_of(context.variables, "XDG_DATA_HOME"@) == capture.variable(
        "XDG_DATA_HOME"@,
    ));
    if let PathRoot::EnvVar { var, .. } = client.root {
        assert(variable_of(context.variables, var@) == capture.variable(var@));
        reveal_strlit("TOKSCALE_EXTRA_DIRS");
        assert("TOKSCALE_EXTRA_DIRS"@.len() == 19);
    }
}

/// A client is at the same path whether variables give no roots or its variable is not set: its
/// own directory below the home directory. That holds of the first client that a variable
/// roots, where the variable has no fallback of its own.
pub proof fn lemma_unset_variables_leave_clients_in_place(
    without: CaptureModel,
    unset: CaptureModel,
    first: ContextModel,
    second: ContextModel,
    key: Seq<char>,
    at: int,
)
    requires
        without.gives(first),
        unset.gives(second),
        !without.use_env_roots,
        unset.use_env_roots,
        unset.inputs.value(key) is None,
        first.home_dir == second.home_dir,
        is_first_rooted(unset.catalog.clients@, key, at),
        key != "HOME"@,
        !has_own_fallback(key),
    ensures
        ({
            let client = unset.catalog.clients@[at];
            let own = client.root->EnvVar_fallback_relative@;
            &&& second.client_path(client) == in_dir(
                in_dir(second.home_dir, own),
                client.relative_path@,
            )
            &&& first.client_path(client) == second.client_path(client)
        }),
{
    let client = unset.catalog.clients@[at];
    lemma_clients_without_roots(without, first, client);
    let resolution = unset.resolution();
    lemma_fallbacks_of_clients(
        resolution.os.target(),
        resolution.clients,
        key,
        resolution.platform_config is Some,
    );
    lemma_variables_that_are_read(unset.catalog, key);
    assert(unset.catalog.clients@[at].root is EnvVar);
    assert(unset.catalog.reads(key));
    assert(variable_of(second.variables, key) == unset.variable(key));
}

/// A client goes where its variable says, where variables give roots: below the variable's value,
/// as the working directory qualifies it, where that is text that says something. The variables
/// that are trimmed or stand for other directories are apart.
pub proof fn lemma_set_variables_root_clients(
    capture: CaptureModel,
    context: ContextModel,
    key: Seq<char>,
    at: int,
)
    requires
        capture.gives(context),
        capture.use_env_roots,
        0 <= at < capture.catalog.clients@.len(),
        is_rooted_by(capture.catalog.clients@[at], key),
        key != "HOME"@,
        key != "TOKSCALE_EXTRA_DIRS"@,
        !is_trimmed(key),
        value_model(capture.inputs.value(key)) is Text,
        !is_blank_text(
            value_model(capture.inputs.value(key))->Text_0,
        ),
    ensures
        context.client_path(capture.catalog.clients@[at]) == in_dir(
            joined(capture.cwd, capture.inputs.value(key)->0),
            capture.catalog.clients@[at].relative_path@,
        ),
        context.env_is_explicit(key),
{
    let text = value_model(capture.inputs.value(key))->Text_0;
    let resolution = capture.resolution();
    lemma_variables_with_text(
        resolution.os.target(),
        resolution.clients,
        key,
        text,
    );
    lemma_variables_that_are_read(capture.catalog, key);
    assert(capture.catalog.clients@[at].root is EnvVar);
    assert(capture.catalog.reads(key));
    assert(variable_of(context.variables, key) == capture.variable(key));
}

// ---------------------------------------------------------------------------
// What is described
// ---------------------------------------------------------------------------
/// A configuration is described with all that places its sources: the system, the home directory,
/// every variable, the directories of the platform, every client with its path, the paths to
/// scan and the cache.
pub proof fn lemma_what_is_described(context: ContextModel)
    ensures
        ({
            let said = context.described();
            &&& said.os == os_code(context.os.target())
            &&& said.use_env_roots == context.use_env_roots
            &&& said.home_dir == NativeModel::Bytes(context.home_dir)
            &&& said.codex_archive_root == NativeModel::Bytes(context.codex_archive_root)
            &&& is_described_path(said.platform_config_dir, context.platform_config_dir)
            &&& is_described_path(said.platform_data_local_dir, context.platform_data_local_dir)
            &&& is_described_path(said.source_cache_dir, context.source_cache_dir)
            &&& said.variables.len() == context.variables.len()
            &&& said.clients.len() == context.clients.len()
            &&& said.opencode_db_paths.len() == context.settings.opencode_db_paths.len()
            &&& said.settings_paths.len() == context.settings.extra_scan_paths.len()
            &&& said.extra_dirs.len() == context.extra_dirs.len()
        }),
        forall|i: int|
            0 <= i < context.variables.len() ==> {
                let variable = #[trigger] context.described().variables[i];
                &&& variable.key == context.variables[i].key
                &&& variable.state == context.variables[i].resolved.state.code()
                &&& variable.resolution == context.variables[i].resolved.resolution.code()
                &&& is_described_path(variable.path, context.variables[i].resolved.path)
            },
        forall|i: int|
            0 <= i < context.clients.len() ==> {
                let client = #[trigger] context.described().clients[i];
                &&& client.number == context.clients[i].number
                &&& client.id == context.clients[i].id@
                &&& client.root == root_code(context.clients[i].root)
                &&& client.relative_path == context.clients[i].relative_path@
                &&& client.pattern == context.clients[i].pattern@
                &&& client.path == NativeModel::Bytes(context.client_path(context.clients[i]))
            },
        forall|i: int|
            0 <= i < context.settings.opencode_db_paths.len() ==> (
            #[trigger] context.described().opencode_db_paths[i]) == NativeModel::Bytes(
                context.settings.opencode_db_paths[i],
            ),
        forall|i: int|
            0 <= i < context.extra_dirs.len() ==> {
                let dir = #[trigger] context.described().extra_dirs[i];
                &&& dir.client == context.extra_dirs[i].client
                &&& dir.path == NativeModel::Bytes(context.extra_dirs[i].path)
            },
        forall|i: int|
            0 <= i < context.settings.extra_scan_paths.len() ==> {
                let entry = #[trigger] context.described().settings_paths[i];
                let given = context.settings.extra_scan_paths[i];
                &&& entry.client == given.client
                &&& entry.paths == given.paths.map_values(
                    |path: Seq<u8>| NativeModel::Bytes(path),
                )
            },
{
    assert forall|i: int| 0 <= i < context.settings.extra_scan_paths.len() implies {
        let entry = #[trigger] context.described().settings_paths[i];
        let given = context.settings.extra_scan_paths[i];
        &&& entry.client == given.client
        &&& entry.paths == given.paths.map_values(|path: Seq<u8>| NativeModel::Bytes(path))
    } by {
        let entry = context.described().settings_paths[i];
        let given = context.settings.extra_scan_paths[i];
        assert(entry.paths =~= given.paths.map_values(|path: Seq<u8>| NativeModel::Bytes(path)));
    }
}

/// Whether an optional path is described.
pub open spec fn is_described_path(said: Option<NativeModel>, path: Option<Seq<u8>>) -> bool {
    match path {
        Some(path) => said == Some(NativeModel::Bytes(path)),
        None => said is None,
    }
}

} // verus!
