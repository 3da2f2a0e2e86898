//! The source context: a host's configuration, resolved once.
use vstd::prelude::*;
use vstd::utf8::*;

use crate::ordered::{text_before, SortedTable};
use crate::source_context::catalog::{
    os_code, root_code, ClientDef, PathRoot, SourceCatalog, UnixOs, ENV_CODEX_HOME, ENV_HOME,
    ENV_TOKSCALE_CONFIG_DIR, ENV_TOKSCALE_EXTRA_DIRS, ENV_TOKSCALE_PRICING_CACHE_ONLY,
    ENV_XDG_CONFIG_HOME, ENV_XDG_DATA_HOME, ENV_XDG_RUNTIME_DIR,
};
use crate::source_context::description::{
    said, ClientEntry, Description, DirEntry, PathsEntry, VariableEntry,
};
use crate::source_context::descriptor::{
    native_of, sha256_of, NativeModel, NativeString, SourceContextUnavailable,
};
use crate::source_context::environment::{
    below, join_text, resolve_source_environment_paths, resolved_value, PathResolution,
    ResolutionBase, ResolutionModel, ResolvedModel, ResolvedPathInput,
};
use crate::source_context::identity::{
    describable, descriptor_of, Described, DescribedClient, DescribedDir, DescribedPaths,
    DescribedVariable,
};
use crate::source_context::inputs::{
    value_model, variable_value, DirModel, ExtraDir, InputState, SourceResolutionInputs,
};
use crate::source_context::paths::{
    copy_bytes, decimal, fully_qualified, join, joined, path_of, push_bytes, push_decimal,
};
use crate::source_context::places::{
    asks_for_cached_prices, cache_choice, cache_place, choose_extra_dirs, codex_variable_counts,
    config_choice, config_place, extra_dirs_choice, home_choice, home_place, listed_dirs_count,
    means_yes, takes_codex_variable, takes_listed_dirs, CacheInputs, CachePlace, ConfigInputs,
    ConfigPlace, HomePlace, ValueModel, VariablePlace,
};
use crate::source_context::settings::{
    resolve_scanner_settings, resolved_settings, ClientPaths, ClientPathsModel, ScannerSettings,
    SettingsModel,
};

verus! {

// ---------------------------------------------------------------------------
// The model
// ---------------------------------------------------------------------------
/// A resolved variable.
pub ghost struct VariableModel {
    pub key: Seq<char>,
    pub resolved: ResolvedModel,
}

/// A resolved configuration.
pub ghost struct ContextModel {
    pub os: UnixOs,
    pub clients: Seq<ClientDef>,
    pub home_dir: Seq<u8>,
    pub use_env_roots: bool,
    pub settings: SettingsModel,
    pub pricing_cache_only: bool,
    pub source_cache_dir: Option<Seq<u8>>,
    pub platform_config_dir: Option<Seq<u8>>,
    pub platform_data_local_dir: Option<Seq<u8>>,
    pub variables: Seq<VariableModel>,
    pub codex_archive_root: Seq<u8>,
    pub extra_dirs: Seq<DirModel>,
}

/// The keys of resolved variables.
pub open spec fn keys_of(variables: Seq<VariableModel>) -> Seq<Seq<char>> {
    variables.map_values(|variable: VariableModel| variable.key)
}

/// What a variable resolved to, if it was resolved.
pub open spec fn variable_of(variables: Seq<VariableModel>, key: Seq<char>) -> Option<
    ResolvedModel,
> {
    if keys_of(variables).contains(key) {
        Some(variables[keys_of(variables).index_of(key)].resolved)
    } else {
        None
    }
}

impl ContextModel {
    /// The path of a variable.
    pub open spec fn env_path(self, key: Seq<char>) -> Option<Seq<u8>> {
        match variable_of(self.variables, key) {
            Some(resolved) => resolved.path,
            None => None,
        }
    }

    /// Whether a variable gave its path itself.
    pub open spec fn env_is_explicit(self, key: Seq<char>) -> bool {
        match variable_of(self.variables, key) {
            Some(resolved) => resolved.resolution == PathResolution::Explicit,
            None => false,
        }
    }

    /// Whether a variable is set to nothing.
    pub open spec fn env_is_emptied(self, key: Seq<char>) -> bool {
        match variable_of(self.variables, key) {
            Some(resolved) => resolved.state == InputState::Empty,
            None => false,
        }
    }

    /// What the choice of the configuration directory depends on.
    pub open spec fn config_inputs(self) -> ConfigInputs {
        ConfigInputs {
            use_env_roots: self.use_env_roots,
            own: self.env_path(ENV_TOKSCALE_CONFIG_DIR@) is Some,
            own_is_explicit: self.env_is_explicit(ENV_TOKSCALE_CONFIG_DIR@),
            user: self.env_path(ENV_XDG_CONFIG_HOME@) is Some,
            user_is_emptied: self.env_is_emptied(ENV_XDG_CONFIG_HOME@),
            platform: self.platform_config_dir is Some,
        }
    }

    /// The directory of the program's own configuration.
    pub open spec fn config_root(self) -> Seq<u8> {
        match config_choice(self.os.target(), self.config_inputs()) {
            ConfigPlace::Own => self.env_path(ENV_TOKSCALE_CONFIG_DIR@)->0,
            ConfigPlace::InUserConfig => below(
                self.env_path(ENV_XDG_CONFIG_HOME@)->0,
                "tokscale"@,
            ),
            ConfigPlace::InPlatformConfig => below(self.platform_config_dir->0, "tokscale"@),
            ConfigPlace::InHomeConfig => below(self.home_dir, ".config/tokscale"@),
            ConfigPlace::InHomeRoaming => below(self.home_dir, "AppData/Roaming/tokscale"@),
        }
    }

    /// The directory that a kind of root stands for.
    pub open spec fn client_root(self, root: PathRoot) -> Seq<u8> {
        match root {
            PathRoot::Home => self.home_dir,
            PathRoot::XdgData => match self.env_path(ENV_XDG_DATA_HOME@) {
                Some(path) => path,
                None => below(self.home_dir, ".local/share"@),
            },
            PathRoot::Config => self.config_root(),
            PathRoot::EnvVar { var, fallback_relative } => match self.env_path(var@) {
                Some(path) => path,
                None => below(self.home_dir, fallback_relative@),
            },
        }
    }

    /// Where the files of a client are.
    pub open spec fn client_path(self, client: ClientDef) -> Seq<u8> {
        below(self.client_root(client.root), client.relative_path@)
    }

    /// A client as a descriptor says it.
    pub open spec fn described_client(self, client: ClientDef) -> DescribedClient {
        DescribedClient {
            number: client.number,
            id: client.id@,
            root: root_code(client.root),
            relative_path: client.relative_path@,
            pattern: client.pattern@,
            path: NativeModel::Bytes(self.client_path(client)),
        }
    }

    /// What a descriptor says of the configuration.
    pub open spec fn described(self) -> Described {
        Described {
            os: os_code(self.os.target()),
            use_env_roots: self.use_env_roots,
            home_dir: NativeModel::Bytes(self.home_dir),
            variables: self.variables.map_values(
                |variable: VariableModel| described_variable(variable),
            ),
            platform_config_dir: described_option(self.platform_config_dir),
            platform_data_local_dir: described_option(self.platform_data_local_dir),
            clients: self.clients.map_values(|client: ClientDef| self.described_client(client)),
            opencode_db_paths: described_list(self.settings.opencode_db_paths),
            settings_paths: self.settings.extra_scan_paths.map_values(
                |entry: ClientPathsModel| described_entry(entry),
            ),
            extra_dirs: self.extra_dirs.map_values(|dir: DirModel| described_dir(dir)),
            codex_archive_root: NativeModel::Bytes(self.codex_archive_root),
            source_cache_dir: described_option(self.source_cache_dir),
        }
    }
}

/// An optional path as a descriptor says it.
pub open spec fn described_option(path: Option<Seq<u8>>) -> Option<NativeModel> {
    match path {
        Some(path) => Some(NativeModel::Bytes(path)),
        None => None,
    }
}

/// Paths as a descriptor says them.
pub open spec fn described_list(paths: Seq<Seq<u8>>) -> Seq<NativeModel> {
    paths.map_values(|path: Seq<u8>| NativeModel::Bytes(path))
}

/// The paths of a client as a descriptor says them.
pub open spec fn described_entry(entry: ClientPathsModel) -> DescribedPaths {
    DescribedPaths { client: entry.client, paths: described_list(entry.paths) }
}

/// A directory of a client as a descriptor says it.
pub open spec fn described_dir(dir: DirModel) -> DescribedDir {
    DescribedDir { client: dir.client, path: NativeModel::Bytes(dir.path) }
}

/// A variable as a descriptor says it.
pub open spec fn described_variable(variable: VariableModel) -> DescribedVariable {
    DescribedVariable {
        key: variable.key,
        state: variable.resolved.state.code(),
        resolution: variable.resolved.resolution.code(),
        path: described_option(variable.resolved.path),
    }
}

// ---------------------------------------------------------------------------
// Resolution
// ---------------------------------------------------------------------------
/// Where a configuration is captured from.
pub ghost struct CaptureModel {
    pub cwd: Seq<u8>,
    pub home_dir: Option<Seq<u8>>,
    pub use_env_roots: bool,
    pub settings: SettingsModel,
    pub catalog: SourceCatalog,
    pub inputs: SourceResolutionInputs,
}

/// A value that is not empty.
pub open spec fn non_empty(value: Option<Seq<u8>>) -> Option<Seq<u8>> {
    match value {
        Some(value) if value.len() > 0 => Some(value),
        _ => None,
    }
}

/// An optional path, qualified by the working directory.
pub open spec fn qualified_option(cwd: Seq<u8>, path: Option<Seq<u8>>) -> Option<Seq<u8>> {
    match path {
        Some(path) => Some(joined(cwd, path)),
        None => None,
    }
}

impl CaptureModel {
    /// The home directory: the given one, else that of the environment, else the platform's.
    pub open spec fn home(self) -> Option<Seq<u8>> {
        let given = non_empty(self.home_dir);
        let environment = non_empty(self.inputs.value(ENV_HOME@));
        let platform = path_of(self.inputs.host().home_dir);
        match home_choice(given is Some, environment is Some, platform is Some) {
            Some(HomePlace::Given) => Some(joined(self.cwd, given->0)),
            Some(HomePlace::Environment) => Some(joined(self.cwd, environment->0)),
            Some(HomePlace::Platform) => Some(joined(self.cwd, platform->0)),
            None => None,
        }
    }

    /// The platform's configuration directory.
    pub open spec fn platform_config(self) -> Option<Seq<u8>> {
        qualified_option(self.cwd, path_of(self.inputs.host().config_dir))
    }

    /// Where the cache is, if there is a place for it.
    pub open spec fn cache_dir(self) -> Option<Seq<u8>> {
        let host = self.inputs.host();
        let own = non_empty(self.inputs.value(ENV_TOKSCALE_CONFIG_DIR@));
        let runtime = self.inputs.value(ENV_XDG_RUNTIME_DIR@);
        let inputs = CacheInputs {
            own: own is Some,
            platform: host.config_dir is Some,
            runtime: runtime is Some,
        };
        match cache_choice(host.target_os.target(), inputs) {
            None => None,
            Some(place) => Some(
                joined(
                    self.cwd,
                    match place {
                        CachePlace::InOwnConfig => below(own->0, "cache"@),
                        CachePlace::InHomeConfig => below(
                            below(self.home()->0, ".config/tokscale"@),
                            "cache"@,
                        ),
                        CachePlace::InPlatformConfig => below(
                            below(host.config_dir->0@, "tokscale"@),
                            "cache"@,
                        ),
                        CachePlace::InRuntime => below(runtime->0, "tokscale"@),
                        CachePlace::InTemporary => joined(
                            host.temp_dir@,
                            encode_utf8("tokscale-uid-"@) + decimal(host.user_id as nat),
                        ),
                    },
                ),
            ),
        }
    }

    /// Where the archived sessions of Codex are.
    pub open spec fn codex_archive(self) -> Seq<u8> {
        let root = self.inputs.value(ENV_CODEX_HOME@);
        if codex_variable_counts(self.use_env_roots, value_model(root)) {
            joined(self.cwd, root->0 + encode_utf8("/archived_sessions"@))
        } else {
            joined(self.cwd, below(self.home()->0, ".codex/archived_sessions"@))
        }
    }

    /// What is known of the variable for further directories.
    pub open spec fn extra_dirs_value(self) -> ValueModel {
        value_model(self.inputs.value(ENV_TOKSCALE_EXTRA_DIRS@))
    }

    /// The further directories of clients.
    pub open spec fn extra_dirs(self) -> Seq<DirModel> {
        if listed_dirs_count(self.use_env_roots, self.extra_dirs_value()) {
            self.inputs.listed_dirs().map_values(
                |dir: ExtraDir|
                    DirModel { client: dir.client, path: joined(self.cwd, dir.path@) },
            )
        } else {
            Seq::empty()
        }
    }

    /// What the variable for further directories resolves to.
    pub open spec fn extra_dirs_variable(self) -> ResolvedModel {
        let choice = extra_dirs_choice(
            self.use_env_roots,
            self.extra_dirs_value(),
            self.extra_dirs().len() > 0,
        );
        ResolvedModel {
            state: choice.state,
            resolution: choice.resolution,
            path: if choice.place is Nowhere {
                None
            } else {
                self.home()
            },
        }
    }

    /// What variables are resolved against.
    pub open spec fn resolution(self) -> ResolutionModel {
        ResolutionModel {
            os: self.inputs.host().target_os,
            clients: self.catalog.clients@,
            cwd: self.cwd,
            home: self.home()->0,
            use_env_roots: self.use_env_roots,
            platform_config: self.platform_config(),
        }
    }

    /// What a variable resolves to, if it is one that is resolved.
    pub open spec fn variable(self, key: Seq<char>) -> Option<ResolvedModel> {
        if key == ENV_TOKSCALE_EXTRA_DIRS@ {
            Some(self.extra_dirs_variable())
        } else if self.catalog.reads(key) {
            Some(self.resolution().resolve(key, self.inputs.value(key)))
        } else {
            None
        }
    }

    /// Whether a configuration is the one that is captured.
    pub open spec fn gives(self, context: ContextModel) -> bool {
        &&& self.home() == Some(context.home_dir)
        &&& context.os == self.inputs.host().target_os
        &&& context.clients == self.catalog.clients@
        &&& context.use_env_roots == self.use_env_roots
        &&& context.settings == resolved_settings(self.cwd, self.settings)
        &&& context.pricing_cache_only == means_yes(
            value_model(self.inputs.value(ENV_TOKSCALE_PRICING_CACHE_ONLY@)),
        )
        &&& context.source_cache_dir == self.cache_dir()
        &&& context.platform_config_dir == self.platform_config()
        &&& context.platform_data_local_dir == qualified_option(
            self.cwd,
            path_of(self.inputs.host().data_local_dir),
        )
        &&& context.codex_archive_root == self.codex_archive()
        &&& context.extra_dirs == self.extra_dirs()
        &&& forall|i: int, j: int|
            0 <= i < j < context.variables.len() ==> text_before(
                (#[trigger] context.variables[i]).key,
                (#[trigger] context.variables[j]).key,
            )
        &&& forall|key: Seq<char>|
            #[trigger] variable_of(context.variables, key) == self.variable(key)
    }
}

fn qualify_option(cwd: &[u8], path: &Option<Vec<u8>>) -> (qualified: Option<Vec<u8>>)
    ensures
        path_of(qualified) == qualified_option(cwd@, path_of(*path)),
{
    match path {
        Some(path) => Some(fully_qualified(cwd, path.as_slice())),
        None => None,
    }
}

fn resolve_home(
    cwd: &[u8],
    home_dir: &Option<Vec<u8>>,
    inputs: &SourceResolutionInputs,
    capture: Ghost<CaptureModel>,
) -> (home: Option<Vec<u8>>)
    requires
        inputs.wf(),
        capture@.cwd == cwd@,
        capture@.home_dir == path_of(*home_dir),
        capture@.inputs == *inputs,
    ensures
        path_of(home) == capture@.home(),
{
    let given = match home_dir {
        Some(home) => home.len() > 0,
        None => false,
    };
    let environment = inputs.var_nonempty(ENV_HOME);
    let platform = &inputs.platform().home_dir;
    let place = home_place(given, environment.is_some(), platform.is_some());
    let home = match (place, home_dir, environment, platform) {
        (Some(HomePlace::Given), Some(home), _, _) => home,
        (Some(HomePlace::Environment), _, Some(home), _) => home,
        (Some(HomePlace::Platform), _, _, Some(home)) => home,
        _ => return None,
    };
    Some(fully_qualified(cwd, home.as_slice()))
}

fn resolve_pricing_cache_only(inputs: &SourceResolutionInputs) -> (only: bool)
    requires
        inputs.wf(),
    ensures
        only == means_yes(value_model(inputs.value(ENV_TOKSCALE_PRICING_CACHE_ONLY@))),
{
    asks_for_cached_prices(variable_value(inputs.var_os(ENV_TOKSCALE_PRICING_CACHE_ONLY)))
}

fn resolve_source_cache_dir(
    cwd: &[u8],
    home: &[u8],
    inputs: &SourceResolutionInputs,
    capture: Ghost<CaptureModel>,
) -> (dir: Option<Vec<u8>>)
    requires
        inputs.wf(),
        capture@.cwd == cwd@,
        capture@.inputs == *inputs,
        capture@.home() == Some(home@),
    ensures
        path_of(dir) == capture@.cache_dir(),
{
    let platform = inputs.platform();
    let own = inputs.var_nonempty(ENV_TOKSCALE_CONFIG_DIR);
    let runtime = inputs.var_os(ENV_XDG_RUNTIME_DIR);
    let chosen = CacheInputs {
        own: own.is_some(),
        platform: platform.config_dir.is_some(),
        runtime: runtime.is_some(),
    };
    let place = match cache_place(platform.target_os.target_os(), chosen) {
        Some(place) => place,
        None => return None,
    };
    let dir: Vec<u8> = match place {
        CachePlace::InOwnConfig => match own {
            Some(own) => join_text(own.as_slice(), "cache"),
            None => return None,
        },
        CachePlace::InHomeConfig => {
            let config = join_text(home, ".config/tokscale");
            join_text(config.as_slice(), "cache")
        },
        CachePlace::InPlatformConfig => match &platform.config_dir {
            Some(config) => {
                let config = join_text(config.as_slice(), "tokscale");
                join_text(config.as_slice(), "cache")
            },
            None => return None,
        },
        CachePlace::InRuntime => match runtime {
            Some(runtime) => join_text(runtime.as_slice(), "tokscale"),
            None => return None,
        },
        CachePlace::InTemporary => {
            let mut name: Vec<u8> = copy_bytes("tokscale-uid-".as_bytes());
            push_decimal(&mut name, platform.user_id);
            join(platform.temp_dir.as_slice(), name.as_slice())
        },
    };
    Some(fully_qualified(cwd, dir.as_slice()))
}

fn resolve_codex_archive_root(
    cwd: &[u8],
    home: &[u8],
    use_env_roots: bool,
    inputs: &SourceResolutionInputs,
    capture: Ghost<CaptureModel>,
) -> (root: Vec<u8>)
    requires
        inputs.wf(),
        capture@.cwd == cwd@,
        capture@.inputs == *inputs,
        capture@.use_env_roots == use_env_roots,
        capture@.home() == Some(home@),
    ensures
        root@ == capture@.codex_archive(),
{
    let root = inputs.var_os(ENV_CODEX_HOME);
    if takes_codex_variable(use_env_roots, variable_value(root)) {
        if let Some(root) = root {
            let mut path = copy_bytes(root.as_slice());
            push_bytes(&mut path, "/archived_sessions".as_bytes());
            return fully_qualified(cwd, path.as_slice());
        }
    }
    fully_qualified(cwd, join_text(home, ".codex/archived_sessions").as_slice())
}

/// The directories of clients.
pub open spec fn dirs_of(dirs: Seq<ExtraDir>) -> Seq<DirModel> {
    dirs.map_values(|dir: ExtraDir| dir@)
}

fn resolve_extra_scan_paths(
    cwd: &[u8],
    use_env_roots: bool,
    inputs: &SourceResolutionInputs,
    capture: Ghost<CaptureModel>,
) -> (dirs: Vec<ExtraDir>)
    requires
        inputs.wf(),
        capture@.cwd == cwd@,
        capture@.inputs == *inputs,
        capture@.use_env_roots == use_env_roots,
    ensures
        dirs_of(dirs@) == capture@.extra_dirs(),
{
    let mut dirs: Vec<ExtraDir> = Vec::new();
    let value = variable_value(inputs.var_os(ENV_TOKSCALE_EXTRA_DIRS));
    if !takes_listed_dirs(use_env_roots, value) {
        assert(dirs_of(dirs@) =~= capture@.extra_dirs());
        return dirs;
    }
    let listed = inputs.extra_dirs();
    let mut i: usize = 0;
    while i < listed.len()
        invariant
            i <= listed@.len(),
            dirs@.len() == i,
            forall|j: int|
                0 <= j < i ==> (#[trigger] dirs@[j]).client == listed@[j].client && dirs@[j].path@
                    == joined(cwd@, listed@[j].path@),
        decreases listed@.len() - i,
    {
        dirs.push(
            ExtraDir {
                client: listed[i].client,
                path: fully_qualified(cwd, listed[i].path.as_slice()),
            },
        );
        i = i + 1;
    }
    assert(dirs_of(dirs@) =~= capture@.extra_dirs());
    dirs
}

fn resolve_extra_dirs_variable(
    home: &[u8],
    use_env_roots: bool,
    dirs: &Vec<ExtraDir>,
    inputs: &SourceResolutionInputs,
    capture: Ghost<CaptureModel>,
) -> (input: ResolvedPathInput)
    requires
        inputs.wf(),
        capture@.inputs == *inputs,
        capture@.use_env_roots == use_env_roots,
        capture@.home() == Some(home@),
        dirs_of(dirs@) == capture@.extra_dirs(),
    ensures
        input@ == capture@.extra_dirs_variable(),
{
    assert(dirs_of(dirs@).len() == dirs@.len());
    let value = variable_value(inputs.var_os(ENV_TOKSCALE_EXTRA_DIRS));
    let choice = choose_extra_dirs(use_env_roots, value, dirs.len() > 0);
    let path: Option<Vec<u8>> = match choice.place {
        VariablePlace::Nowhere => None,
        _ => Some(copy_bytes(home)),
    };
    ResolvedPathInput::chosen(choice, path)
}

// ---------------------------------------------------------------------------
// Descriptors
// ---------------------------------------------------------------------------
/// The resolved variables of a table, in the order of their keys.
pub open spec fn variables_of(table: SortedTable<String, ResolvedPathInput>) -> Seq<VariableModel> {
    Seq::new(
        table.entries@.len(),
        |i: int| VariableModel { key: table.keys()[i], resolved: table.values()[i]@ },
    )
}

proof fn lemma_variables_of(table: SortedTable<String, ResolvedPathInput>)
    requires
        table.wf(),
    ensures
        keys_of(variables_of(table)) == table.keys(),
        forall|key: Seq<char>|
            #[trigger] variable_of(variables_of(table), key) == resolved_value(table, key),
        forall|i: int, j: int|
            0 <= i < j < variables_of(table).len() ==> text_before(
                (#[trigger] variables_of(table)[i]).key,
                (#[trigger] variables_of(table)[j]).key,
            ),
{
    assert(keys_of(variables_of(table)) =~= table.keys());
    assert forall|key: Seq<char>|
        #[trigger] variable_of(variables_of(table), key) == resolved_value(table, key) by {
        if table.keys().contains(key) {
            let at = table.keys().index_of(key);
            assert(variables_of(table)[at].resolved == table.values()[at]@);
        }
    }
    assert forall|i: int, j: int| 0 <= i < j < variables_of(table).len() implies text_before(
        (#[trigger] variables_of(table)[i]).key,
        (#[trigger] variables_of(table)[j]).key,
    ) by {
        assert(variables_of(table)[i].key == table.keys()[i]);
        assert(variables_of(table)[j].key == table.keys()[j]);
    }
}

/// A path of bytes in the host's strings.
fn native(path: &[u8]) -> (string: NativeString)
    ensures
        string@ == NativeModel::Bytes(path@),
{
    NativeString::Bytes(copy_bytes(path))
}

fn native_option(path: &Option<Vec<u8>>) -> (string: Option<NativeString>)
    ensures
        native_of(string) == described_option(path_of(*path)),
{
    match path {
        Some(path) => Some(native(path.as_slice())),
        None => None,
    }
}

/// Something that a description has an entry for.
trait Entered: View + Sized {
    type Entry: View;

    /// What the entry says.
    spec fn entered(model: Self::V) -> <Self::Entry as View>::V;

    fn enter(&self) -> (entry: Self::Entry)
        ensures
            entry@ == Self::entered(self@),
    ;
}

/// The entries of a list.
fn entries<T: Entered>(items: &Vec<T>) -> (list: Vec<T::Entry>)
    ensures
        said(list@) == said(items@).map_values(|model: T::V| T::entered(model)),
{
    let mut list: Vec<T::Entry> = Vec::new();
    let mut i: usize = 0;
    while i < items.len()
        invariant
            i <= items@.len(),
            list@.len() == i,
            forall|j: int| 0 <= j < i ==> (#[trigger] list@[j])@ == T::entered(items@[j]@),
        decreases items@.len() - i,
    {
        list.push(items[i].enter());
        i = i + 1;
    }
    assert(said(list@) =~= said(items@).map_values(|model: T::V| T::entered(model)));
    list
}

impl Entered for Vec<u8> {
    type Entry = NativeString;

    spec fn entered(model: Seq<u8>) -> NativeModel {
        NativeModel::Bytes(model)
    }

    fn enter(&self) -> (entry: NativeString) {
        native(self.as_slice())
    }
}

impl Entered for ClientPaths {
    type Entry = PathsEntry;

    spec fn entered(model: ClientPathsModel) -> DescribedPaths {
        described_entry(model)
    }

    fn enter(&self) -> (entry: PathsEntry) {
        let entry = PathsEntry { client: self.client.clone(), paths: entries(&self.paths) };
        assert(entry@.paths =~= described_entry(self@).paths);
        entry
    }
}

impl Entered for ExtraDir {
    type Entry = DirEntry;

    spec fn entered(model: DirModel) -> DescribedDir {
        described_dir(model)
    }

    fn enter(&self) -> (entry: DirEntry) {
        DirEntry { client: self.client, path: native(self.path.as_slice()) }
    }
}

// ---------------------------------------------------------------------------
// The context
// ---------------------------------------------------------------------------
/// A host's configuration, resolved once: neither the environment nor the working directory
/// matter to it afterwards.
pub struct ResolvedLocalSourceContext {
    target_os: UnixOs,
    clients: Vec<ClientDef>,
    home_dir: Vec<u8>,
    use_env_roots: bool,
    scanner_settings: ScannerSettings,
    pricing_cache_only: bool,
    source_cache_dir: Option<Vec<u8>>,
    platform_config_dir: Option<Vec<u8>>,
    platform_data_local_dir: Option<Vec<u8>>,
    source_env_paths: SortedTable<String, ResolvedPathInput>,
    codex_archive_root: Vec<u8>,
    extra_scan_paths: Vec<ExtraDir>,
    identity: [u8; 32],
}

impl View for ResolvedLocalSourceContext {
    type V = ContextModel;

    closed spec fn view(&self) -> ContextModel {
        ContextModel {
            os: self.target_os,
            clients: self.clients@,
            home_dir: self.home_dir@,
            use_env_roots: self.use_env_roots,
            settings: self.scanner_settings@,
            pricing_cache_only: self.pricing_cache_only,
            source_cache_dir: path_of(self.source_cache_dir),
            platform_config_dir: path_of(self.platform_config_dir),
            platform_data_local_dir: path_of(self.platform_data_local_dir),
            variables: variables_of(self.source_env_paths),
            codex_archive_root: self.codex_archive_root@,
            extra_dirs: dirs_of(self.extra_scan_paths@),
        }
    }
}

impl ResolvedLocalSourceContext {
    pub closed spec fn wf(self) -> bool {
        self.source_env_paths.wf()
    }

    /// The identity of the configuration.
    pub closed spec fn identity(self) -> Seq<u8> {
        self.identity@
    }

    /// Resolves a configuration. There is none without a home directory, and none that cannot be
    /// described.
    pub fn capture_resolved(
        cwd: &[u8],
        home_dir: &Option<Vec<u8>>,
        use_env_roots: bool,
        scanner_settings: &ScannerSettings,
        inputs: &SourceResolutionInputs,
        catalog: SourceCatalog,
    ) -> (context: Result<Self, SourceContextUnavailable>)
        requires
            inputs.wf(),
            scanner_settings@.wf(),
        ensures
            ({
                let capture = CaptureModel {
                    cwd: cwd@,
                    home_dir: path_of(*home_dir),
                    use_env_roots,
                    settings: scanner_settings@,
                    catalog,
                    inputs: *inputs,
                };
                match context {
                    Ok(context) => {
                        &&& context.wf()
                        &&& context@.settings.wf()
                        &&& capture.gives(context@)
                        &&& describable(context@.described())
                        &&& context.identity() == sha256_of(descriptor_of(context@.described()))
                    },
                    Err(_) => capture.home() is None || exists|model: ContextModel| #[trigger]
                        capture.gives(model) && !describable(model.described()),
                }
            }),
    {
        let ghost capture = CaptureModel {
            cwd: cwd@,
            home_dir: path_of(*home_dir),
            use_env_roots,
            settings: scanner_settings@,
            catalog,
            inputs: *inputs,
        };
        let home = match resolve_home(cwd, home_dir, inputs, Ghost(capture)) {
            Some(home) => home,
            None => return Err(SourceContextUnavailable),
        };
        let scanner_settings = resolve_scanner_settings(cwd, scanner_settings);
        let pricing_cache_only = resolve_pricing_cache_only(inputs);
        let source_cache_dir = resolve_source_cache_dir(
            cwd,
            home.as_slice(),
            inputs,
            Ghost(capture),
        );
        let platform_config_dir = qualify_option(cwd, &inputs.platform().config_dir);
        let platform_data_local_dir = qualify_option(cwd, &inputs.platform().data_local_dir);
        let codex_archive_root = resolve_codex_archive_root(
            cwd,
            home.as_slice(),
            use_env_roots,
            inputs,
            Ghost(capture),
        );
        let base = ResolutionBase {
            os: inputs.platform().target_os,
            clients: &catalog.clients,
            cwd,
            home: home.as_slice(),
            use_env_roots,
            platform_config: &platform_config_dir,
        };
        assert(base@ == capture.resolution());
        let mut source_env_paths = resolve_source_environment_paths(&base, &catalog, inputs);
        let ghost resolved = source_env_paths;
        let extra_scan_paths = resolve_extra_scan_paths(cwd, use_env_roots, inputs, Ghost(capture));
        let extra_dirs_variable = resolve_extra_dirs_variable(
            home.as_slice(),
            use_env_roots,
            &extra_scan_paths,
            inputs,
            Ghost(capture),
        );
        source_env_paths.set(ENV_TOKSCALE_EXTRA_DIRS.to_owned(), extra_dirs_variable);
        let mut context = ResolvedLocalSourceContext {
            target_os: inputs.platform().target_os,
            clients: catalog.clients,
            home_dir: home,
            use_env_roots,
            scanner_settings,
            pricing_cache_only,
            source_cache_dir,
            platform_config_dir,
            platform_data_local_dir,
            source_env_paths,
            codex_archive_root,
            extra_scan_paths,
            identity: [0u8; 32],
        };
        proof {
            lemma_variables_of(context.source_env_paths);
            let model = context@;
            assert forall|key: Seq<char>|
                #[trigger] variable_of(model.variables, key) == capture.variable(key) by {
                if key != ENV_TOKSCALE_EXTRA_DIRS@ {
                    assert(resolved_value(context.source_env_paths, key) == resolved_value(
                        resolved,
                        key,
                    ));
                }
            }
            assert(capture.gives(model));
        }
        match context.compute_identity() {
            Ok(identity) => {
                let ghost before = context@;
                context.identity = identity;
                assert(context@ == before);
                Ok(context)
            },
            Err(error) => Err(error),
        }
    }

    /// The configuration in the host's strings.
    pub fn description(&self) -> (description: Description)
        requires
            self.wf(),
        ensures
            description@ == self@.described(),
    {
        let table = &self.source_env_paths.entries;
        let mut variables: Vec<VariableEntry> = Vec::new();
        let mut i: usize = 0;
        while i < table.len()
            invariant
                i <= table@.len(),
                table@ == self.source_env_paths.entries@,
                variables@.len() == i,
                forall|j: int|
                    0 <= j < i ==> (#[trigger] variables@[j])@ == described_variable(
                        self@.variables[j],
                    ),
            decreases table@.len() - i,
        {
            let entry = &table[i];
            variables.push(
                VariableEntry {
                    key: entry.0.clone(),
                    state: entry.1.state,
                    resolution: entry.1.resolution,
                    path: native_option(&entry.1.path),
                },
            );
            i = i + 1;
        }
        let mut clients: Vec<ClientEntry> = Vec::new();
        let mut i: usize = 0;
        while i < self.clients.len()
            invariant
                self.wf(),
                i <= self.clients@.len(),
                clients@.len() == i,
                forall|j: int|
                    0 <= j < i ==> (#[trigger] clients@[j])@ == self@.described_client(
                        self.clients@[j],
                    ),
            decreases self.clients@.len() - i,
        {
            let client = &self.clients[i];
            let path = NativeString::Bytes(self.resolve_client_path(client));
            clients.push(ClientEntry { client, path });
            i = i + 1;
        }
        let description = Description {
            os: self.target_os.target_os(),
            use_env_roots: self.use_env_roots,
            home_dir: native(self.home_dir.as_slice()),
            variables,
            platform_config_dir: native_option(&self.platform_config_dir),
            platform_data_local_dir: native_option(&self.platform_data_local_dir),
            clients,
            opencode_db_paths: entries(&self.scanner_settings.opencode_db_paths),
            settings_paths: entries(&self.scanner_settings.extra_scan_paths),
            extra_dirs: entries(&self.extra_scan_paths),
            codex_archive_root: native(self.codex_archive_root.as_slice()),
            source_cache_dir: native_option(&self.source_cache_dir),
        };
        proof {
            let described = self@.described();
            assert(description@.variables =~= described.variables);
            assert(description@.clients =~= described.clients);
            assert(description@.opencode_db_paths =~= described.opencode_db_paths);
            assert(description@.settings_paths =~= described.settings_paths);
            assert(description@.extra_dirs =~= described.extra_dirs);
        }
        description
    }

    /// The configuration's descriptor.
    pub fn descriptor(&self) -> (bytes: Result<Vec<u8>, SourceContextUnavailable>)
        requires
            self.wf(),
        ensures
            match bytes {
                Ok(bytes) => describable(self@.described()) && bytes@ == descriptor_of(
                    self@.described(),
                ),
                Err(_) => !describable(self@.described()),
            },
    {
        self.description().descriptor()
    }

    /// The digest of the configuration's descriptor.
    fn compute_identity(&self) -> (identity: Result<[u8; 32], SourceContextUnavailable>)
        requires
            self.wf(),
        ensures
            match identity {
                Ok(identity) => describable(self@.described()) && identity@ == sha256_of(
                    descriptor_of(self@.described()),
                ),
                Err(_) => !describable(self@.described()),
            },
    {
        self.description().identity()
    }

    /// The directory that a kind of root stands for.
    pub fn resolve_client_root(&self, root: &PathRoot) -> (path: Vec<u8>)
        requires
            self.wf(),
        ensures
            path@ == self@.client_root(*root),
            root matches PathRoot::EnvVar { var, fallback_relative } ==> self@.env_path(
                var@,
            ) is None ==> path@ == joined(self@.home_dir, encode_utf8(fallback_relative@)),
    {
        match root {
            PathRoot::Home => copy_bytes(self.home_dir.as_slice()),
            PathRoot::XdgData => match self.source_env_path(ENV_XDG_DATA_HOME) {
                Some(path) => copy_bytes(path),
                None => join_text(self.home_dir.as_slice(), ".local/share"),
            },
            PathRoot::Config => self.config_root(),
            PathRoot::EnvVar { var, fallback_relative } => match self.source_env_path(
                var.as_str(),
            ) {
                Some(path) => copy_bytes(path),
                None => join_text(self.home_dir.as_slice(), fallback_relative.as_str()),
            },
        }
    }

    fn config_root(&self) -> (path: Vec<u8>)
        requires
            self.wf(),
        ensures
            path@ == self@.config_root(),
    {
        let own = self.source_env_path(ENV_TOKSCALE_CONFIG_DIR);
        let user = self.source_env_path(ENV_XDG_CONFIG_HOME);
        let home = self.home_dir.as_slice();
        let inputs = ConfigInputs {
            use_env_roots: self.use_env_roots,
            own: own.is_some(),
            own_is_explicit: self.source_env_is_explicit(ENV_TOKSCALE_CONFIG_DIR),
            user: user.is_some(),
            user_is_emptied: self.source_env_is_emptied(ENV_XDG_CONFIG_HOME),
            platform: self.platform_config_dir.is_some(),
        };
        match (config_place(self.target_os.target_os(), inputs), own, user) {
            (ConfigPlace::Own, Some(own), _) => copy_bytes(own),
            (ConfigPlace::InUserConfig, _, Some(user)) => join_text(user, "tokscale"),
            _ => join_text(home, ".config/tokscale"),
        }
    }

    /// Where the files of a client are.
    pub fn resolve_client_path(&self, client: &ClientDef) -> (path: Vec<u8>)
        requires
            self.wf(),
        ensures
            path@ == self@.client_path(*client),
    {
        let root = self.resolve_client_root(&client.root);
        join_text(root.as_slice(), client.relative_path.as_str())
    }

    /// The path that a variable resolved to.
    pub fn source_env_path(&self, key: &str) -> (path: Option<&[u8]>)
        requires
            self.wf(),
        ensures
            match path {
                Some(path) => self@.env_path(key@) == Some(path@),
                None => self@.env_path(key@) is None,
            },
    {
        proof {
            lemma_variables_of(self.source_env_paths);
            assert(variable_of(self@.variables, key@) == resolved_value(
                self.source_env_paths,
                key@,
            ));
        }
        let key = key.to_owned();
        match self.source_env_paths.lookup(&key) {
            Some(input) => match &input.path {
                Some(path) => Some(path.as_slice()),
                None => None,
            },
            None => None,
        }
    }

    /// Whether a variable gave its path itself.
    pub fn source_env_is_explicit(&self, key: &str) -> (explicit: bool)
        requires
            self.wf(),
        ensures
            explicit == self@.env_is_explicit(key@),
    {
        proof {
            lemma_variables_of(self.source_env_paths);
            assert(variable_of(self@.variables, key@) == resolved_value(
                self.source_env_paths,
                key@,
            ));
        }
        let key = key.to_owned();
        match self.source_env_paths.lookup(&key) {
            Some(input) => input.resolution == PathResolution::Explicit,
            None => false,
        }
    }

    /// Whether a variable is set to nothing.
    fn source_env_is_emptied(&self, key: &str) -> (emptied: bool)
        requires
            self.wf(),
        ensures
            emptied == self@.env_is_emptied(key@),
    {
        proof {
            lemma_variables_of(self.source_env_paths);
            assert(variable_of(self@.variables, key@) == resolved_value(
                self.source_env_paths,
                key@,
            ));
        }
        let key = key.to_owned();
        match self.source_env_paths.lookup(&key) {
            Some(input) => input.state == InputState::Empty,
            None => false,
        }
    }

    pub fn home_dir(&self) -> (path: &[u8])
        ensures
            path@ == self@.home_dir,
    {
        self.home_dir.as_slice()
    }

    pub fn use_env_roots(&self) -> (used: bool)
        ensures
            used == self@.use_env_roots,
    {
        self.use_env_roots
    }

    pub fn scanner_settings(&self) -> (settings: &ScannerSettings)
        ensures
            settings@ == self@.settings,
    {
        &self.scanner_settings
    }

    pub fn identity_bytes(&self) -> (identity: [u8; 32])
        ensures
            identity@ == self.identity(),
    {
        self.identity
    }

    pub fn pricing_cache_only(&self) -> (only: bool)
        ensures
            only == self@.pricing_cache_only,
    {
        self.pricing_cache_only
    }

    pub fn source_cache_dir(&self) -> (path: Option<&[u8]>)
        ensures
            match path {
                Some(path) => self@.source_cache_dir == Some(path@),
                None => self@.source_cache_dir is None,
            },
    {
        match &self.source_cache_dir {
            Some(path) => Some(path.as_slice()),
            None => None,
        }
    }

    /// The platform's directory for local data.
    pub fn data_local_dir(&self) -> (path: Option<&[u8]>)
        ensures
            match path {
                Some(path) => self@.platform_data_local_dir == Some(path@),
                None => self@.platform_data_local_dir is None,
            },
    {
        match &self.platform_data_local_dir {
            Some(path) => Some(path.as_slice()),
            None => None,
        }
    }

    pub fn codex_archive_root(&self) -> (path: &[u8])
        ensures
            path@ == self@.codex_archive_root,
    {
        self.codex_archive_root.as_slice()
    }

    pub fn extra_scan_paths(&self) -> (dirs: &Vec<ExtraDir>)
        ensures
            dirs_of(dirs@) == self@.extra_dirs,
    {
        &self.extra_scan_paths
    }

    /// The identity as text: `sc1:` and 64 hexadecimal digits.
    pub fn identity_string(&self) -> (text: String)
        ensures
            text@ == "sc1:"@ + hex_text(self.identity()),
            text@.len() == 68,
    {
        proof {
            reveal_strlit("sc1:");
            lemma_hex_length(self.identity());
        }
        let mut text = "sc1:".to_owned();
        let identity = self.identity.as_slice();
        let mut i: usize = 0;
        assert(hex_text(identity@.take(0)) =~= Seq::<char>::empty());
        assert(text@ =~= "sc1:"@ + hex_text(identity@.take(0)));
        while i < identity.len()
            invariant
                i <= identity@.len(),
                identity@ == self.identity@,
                text@ == "sc1:"@ + hex_text(identity@.take(i as int)),
            decreases identity@.len() - i,
        {
            proof {
                assert(identity@.take(i + 1).drop_last() =~= identity@.take(i as int));
            }
            let byte: u8 = identity[i];
            text.append(hex_digit_text(byte / 16));
            text.append(hex_digit_text(byte % 16));
            i = i + 1;
            assert(text@ =~= "sc1:"@ + hex_text(identity@.take(i as int)));
        }
        assert(identity@.take(i as int) =~= identity@);
        text
    }
}

/// A hexadecimal digit.
pub open spec fn hex_char(value: int) -> char {
    if value == 0 {
        '0'
    } else if value == 1 {
        '1'
    } else if value == 2 {
        '2'
    } else if value == 3 {
        '3'
    } else if value == 4 {
        '4'
    } else if value == 5 {
        '5'
    } else if value == 6 {
        '6'
    } else if value == 7 {
        '7'
    } else if value == 8 {
        '8'
    } else if value == 9 {
        '9'
    } else if value == 10 {
        'a'
    } else if value == 11 {
        'b'
    } else if value == 12 {
        'c'
    } else if value == 13 {
        'd'
    } else if value == 14 {
        'e'
    } else {
        'f'
    }
}

/// Bytes in hexadecimal digits, two for each.
pub open spec fn hex_text(bytes: Seq<u8>) -> Seq<char>
    decreases bytes.len(),
{
    if bytes.len() == 0 {
        Seq::empty()
    } else {
        hex_text(bytes.drop_last()) + seq![
            hex_char(bytes.last() as int / 16),
            hex_char(bytes.last() as int % 16),
        ]
    }
}

proof fn lemma_hex_length(bytes: Seq<u8>)
    ensures
        hex_text(bytes).len() == 2 * bytes.len(),
    decreases bytes.len(),
{
    if bytes.len() > 0 {
        lemma_hex_length(bytes.drop_last());
    }
}

/// Different bytes have different hexadecimal texts, so that the text of an identity tells it
/// from others.
pub proof fn lemma_hex_text_tells_bytes_apart(a: Seq<u8>, b: Seq<u8>)
    requires
        hex_text(a) == hex_text(b),
    ensures
        a == b,
    decreases a.len(),
{
    lemma_hex_length(a);
    lemma_hex_length(b);
    if a.len() > 0 {
        let x = hex_text(a);
        let y = hex_text(b);
        lemma_hex_length(a.drop_last());
        lemma_hex_length(b.drop_last());
        assert(x.take(x.len() - 2) =~= hex_text(a.drop_last()));
        assert(y.take(y.len() - 2) =~= hex_text(b.drop_last()));
        lemma_hex_text_tells_bytes_apart(a.drop_last(), b.drop_last());
        assert(x[x.len() - 2] == hex_char(a.last() as int / 16));
        assert(y[y.len() - 2] == hex_char(b.last() as int / 16));
        assert(x[x.len() - 1] == hex_char(a.last() as int % 16));
        assert(y[y.len() - 1] == hex_char(b.last() as int % 16));
        assert(a.last() == b.last());
        assert(a =~= a.drop_last().push(a.last()));
        assert(b =~= b.drop_last().push(b.last()));
    } else {
        assert(a =~= b);
    }
}

/// Every byte is written with two of the sixteen digits, the more significant first.
pub proof fn lemma_hex_digits(bytes: Seq<u8>, at: int)
    requires
        0 <= at < bytes.len(),
    ensures
        hex_text(bytes).len() == 2 * bytes.len(),
        hex_text(bytes)[2 * at] == "0123456789abcdef"@[bytes[at] as int / 16],
        hex_text(bytes)[2 * at + 1] == "0123456789abcdef"@[bytes[at] as int % 16],
    decreases bytes.len(),
{
    reveal_strlit("0123456789abcdef");
    lemma_hex_length(bytes);
    let before = bytes.drop_last();
    lemma_hex_length(before);
    if at < before.len() {
        lemma_hex_digits(before, at);
        assert(hex_text(bytes)[2 * at] == hex_text(before)[2 * at]);
        assert(hex_text(bytes)[2 * at + 1] == hex_text(before)[2 * at + 1]);
    }
}

fn hex_digit_text(value: u8) -> (text: &'static str)
    requires
        value < 16,
    ensures
        text@ == seq![hex_char(value as int)],
{
    proof {
        reveal_strlit("0");
        reveal_strlit("1");
        reveal_strlit("2");
        reveal_strlit("3");
        reveal_strlit("4");
        reveal_strlit("5");
        reveal_strlit("6");
        reveal_strlit("7");
        reveal_strlit("8");
        reveal_strlit("9");
        reveal_strlit("a");
        reveal_strlit("b");
        reveal_strlit("c");
        reveal_strlit("d");
        reveal_strlit("e");
        reveal_strlit("f");
    }
    let text = match value {
        0 => "0",
        1 => "1",
        2 => "2",
        3 => "3",
        4 => "4",
        5 => "5",
        6 => "6",
        7 => "7",
        8 => "8",
        9 => "9",
        10 => "a",
        11 => "b",
        12 => "c",
        13 => "d",
        14 => "e",
        _ => "f",
    };
    assert(text@ =~= seq![hex_char(value as int)]);
    text
}

} // verus!
