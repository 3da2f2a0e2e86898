//! What the variables resolve to.
use vstd::prelude::*;
use vstd::utf8::*;

use crate::ordered::{same_text, SortedTable};
use crate::source_context::catalog::{
    is_client_var, resolver_environment_keys, roots_a_client, texts_of, ClientDef, SourceCatalog,
    TargetOs, UnixOs, ENV_APPDATA, ENV_CODEBUFF_DATA_DIR, ENV_COPILOT_EXPORTER,
    ENV_GOOSE_PATH_ROOT, ENV_LOCALAPPDATA, ENV_TOKSCALE_CONFIG_DIR, ENV_XDG_CONFIG_HOME,
    ENV_XDG_DATA_HOME,
};
use crate::source_context::inputs::{
    value_model, variable_value, InputState, SourceResolutionInputs,
};
use crate::source_context::paths::{
    copy_bytes, fully_qualified, join, joined, path_of, SLASH,
};
use crate::source_context::places::{
    choose_fallback, choose_variable, fallback_choice, variable_choice, FallbackModel,
    FallbackPlace, VariableChoice, VariablePlace, VariableValue,
};
use crate::text::{trim, trimmed};

verus! {

/// How a variable took part in a resolution.
#[derive(Debug, Clone, Copy, PartialEq, Eq, Structural)]
pub enum PathResolution {
    Ignored,
    Fallback,
    Explicit,
}

impl PathResolution {
    /// The byte that stands for a resolution in a descriptor.
    pub open spec fn code(self) -> u8 {
        match self {
            PathResolution::Ignored => 0,
            PathResolution::Fallback => 1,
            PathResolution::Explicit => 2,
        }
    }

    pub fn tag(self) -> (tag: u8)
        ensures
            tag == self.code(),
    {
        match self {
            PathResolution::Ignored => 0,
            PathResolution::Fallback => 1,
            PathResolution::Explicit => 2,
        }
    }
}

/// What a variable resolves to.
#[derive(Debug, PartialEq, Eq)]
pub struct ResolvedPathInput {
    pub state: InputState,
    pub resolution: PathResolution,
    pub path: Option<Vec<u8>>,
}

/// What a variable resolves to, with its path as bytes.
pub ghost struct ResolvedModel {
    pub state: InputState,
    pub resolution: PathResolution,
    pub path: Option<Seq<u8>>,
}

impl View for ResolvedPathInput {
    type V = ResolvedModel;

    open spec fn view(&self) -> ResolvedModel {
        ResolvedModel {
            state: self.state,
            resolution: self.resolution,
            path: path_of(self.path),
        }
    }
}

impl ResolvedModel {
    /// A variable that takes no part.
    pub open spec fn ignored() -> ResolvedModel {
        ResolvedModel {
            state: InputState::Unset,
            resolution: PathResolution::Ignored,
            path: None,
        }
    }

    /// A variable that leaves a fallback in place.
    pub open spec fn fallback(state: InputState, path: Seq<u8>) -> ResolvedModel {
        ResolvedModel { state, resolution: PathResolution::Fallback, path: Some(path) }
    }

    /// A variable that gives a path.
    pub open spec fn explicit(state: InputState, path: Seq<u8>) -> ResolvedModel {
        ResolvedModel { state, resolution: PathResolution::Explicit, path: Some(path) }
    }
}

impl ResolvedPathInput {
    pub fn ignored() -> (input: Self)
        ensures
            input@ == ResolvedModel::ignored(),
    {
        ResolvedPathInput {
            state: InputState::Unset,
            resolution: PathResolution::Ignored,
            path: None,
        }
    }

    pub fn fallback(state: InputState, path: Vec<u8>) -> (input: Self)
        ensures
            input@ == ResolvedModel::fallback(state, path@),
    {
        ResolvedPathInput { state, resolution: PathResolution::Fallback, path: Some(path) }
    }

    pub fn explicit(state: InputState, path: Vec<u8>) -> (input: Self)
        ensures
            input@ == ResolvedModel::explicit(state, path@),
    {
        ResolvedPathInput { state, resolution: PathResolution::Explicit, path: Some(path) }
    }

    /// What a variable resolves to by a choice, with the path that its place stands for.
    pub fn chosen(choice: VariableChoice, path: Option<Vec<u8>>) -> (input: Self)
        requires
            choice.resolution == PathResolution::Ignored <==> path is None,
            path is None ==> choice.state == InputState::Unset,
        ensures
            input@ == (ResolvedModel {
                state: choice.state,
                resolution: choice.resolution,
                path: path_of(path),
            }),
    {
        match path {
            None => ResolvedPathInput::ignored(),
            Some(path) => match choice.resolution {
                PathResolution::Explicit => ResolvedPathInput::explicit(choice.state, path),
                _ => ResolvedPathInput::fallback(choice.state, path),
            },
        }
    }
}

// ---------------------------------------------------------------------------
// Kinds of variables
// ---------------------------------------------------------------------------
/// Whether a variable counts only where its value is text.
pub open spec fn requires_unicode(os: TargetOs, clients: Seq<ClientDef>, key: Seq<char>) -> bool {
    ||| key == ENV_XDG_DATA_HOME@
    ||| os == TargetOs::Linux && key == ENV_XDG_CONFIG_HOME@
    ||| roots_a_client(clients, key)
}

pub fn source_env_requires_unicode(
    os: TargetOs,
    clients: &Vec<ClientDef>,
    key: &str,
) -> (required: bool)
    ensures
        required == requires_unicode(os, clients@, key@),
{
    if same_text(key, ENV_XDG_DATA_HOME) {
        return true;
    }
    if os == TargetOs::Linux && same_text(key, ENV_XDG_CONFIG_HOME) {
        return true;
    }
    is_client_var(clients, key)
}

/// Whether a variable counts only where its value is not blank.
pub open spec fn uses_nonblank_semantics(key: Seq<char>) -> bool {
    &&& key != ENV_XDG_DATA_HOME@
    &&& key != ENV_TOKSCALE_CONFIG_DIR@
    &&& key != ENV_XDG_CONFIG_HOME@
    &&& key != ENV_APPDATA@
    &&& key != ENV_LOCALAPPDATA@
}

pub fn source_env_uses_nonblank_semantics(key: &str) -> (nonblank: bool)
    ensures
        nonblank == uses_nonblank_semantics(key@),
{
    !same_text(key, ENV_XDG_DATA_HOME) && !same_text(key, ENV_TOKSCALE_CONFIG_DIR) && !same_text(
        key,
        ENV_XDG_CONFIG_HOME,
    ) && !same_text(key, ENV_APPDATA) && !same_text(key, ENV_LOCALAPPDATA)
}

/// Whether white space around a variable's value does not count.
pub open spec fn trims_white_space(key: Seq<char>) -> bool {
    ||| key == ENV_COPILOT_EXPORTER@
    ||| key == ENV_GOOSE_PATH_ROOT@
    ||| key == ENV_CODEBUFF_DATA_DIR@
}

pub fn source_env_trims_surrounding_whitespace(key: &str) -> (trims: bool)
    ensures
        trims == trims_white_space(key@),
{
    same_text(key, ENV_COPILOT_EXPORTER) || same_text(key, ENV_GOOSE_PATH_ROOT) || same_text(
        key,
        ENV_CODEBUFF_DATA_DIR,
    )
}

// ---------------------------------------------------------------------------
// Fallbacks
// ---------------------------------------------------------------------------
/// A path below a base, given as text.
pub open spec fn below(base: Seq<u8>, relative: Seq<char>) -> Seq<u8> {
    joined(base, encode_utf8(relative))
}

/// Joins a path that is given as text.
pub fn join_text(base: &[u8], relative: &str) -> (path: Vec<u8>)
    ensures
        path@ == below(base@, relative@),
{
    join(base, relative.as_bytes())
}

/// The path of a fallback.
pub open spec fn place_of_fallback(
    place: FallbackModel,
    home: Seq<u8>,
    platform_config: Option<Seq<u8>>,
) -> Seq<u8> {
    match place {
        FallbackModel::Home => home,
        FallbackModel::InHome(relative) => below(home, relative),
        FallbackModel::InPlatformConfig => below(platform_config->0, "tokscale"@),
    }
}

/// Where a variable points when it is not set.
pub open spec fn fallback_path(
    os: UnixOs,
    clients: Seq<ClientDef>,
    key: Seq<char>,
    home: Seq<u8>,
    platform_config: Option<Seq<u8>>,
) -> Seq<u8> {
    place_of_fallback(
        fallback_choice(os.target(), clients, key, platform_config is Some),
        home,
        platform_config,
    )
}

pub fn fallback_source_env_path(
    os: UnixOs,
    clients: &Vec<ClientDef>,
    key: &str,
    home: &[u8],
    platform_config: &Option<Vec<u8>>,
) -> (path: Vec<u8>)
    ensures
        path@ == fallback_path(os, clients@, key@, home@, path_of(*platform_config)),
{
    match choose_fallback(os.target_os(), clients, key, platform_config.is_some()) {
        FallbackPlace::Home => copy_bytes(home),
        FallbackPlace::InHome(relative) => join_text(home, relative),
        FallbackPlace::InPlatformConfig => match platform_config {
            Some(root) => join_text(root.as_slice(), "tokscale"),
            None => copy_bytes(home),
        },
    }
}

// ---------------------------------------------------------------------------
// Resolution
// ---------------------------------------------------------------------------
/// What variables are resolved against.
pub ghost struct ResolutionModel {
    pub os: UnixOs,
    pub clients: Seq<ClientDef>,
    pub cwd: Seq<u8>,
    pub home: Seq<u8>,
    pub use_env_roots: bool,
    pub platform_config: Option<Seq<u8>>,
}

/// What variables are resolved against.
pub struct ResolutionBase<'a> {
    pub os: UnixOs,
    pub clients: &'a Vec<ClientDef>,
    pub cwd: &'a [u8],
    pub home: &'a [u8],
    pub use_env_roots: bool,
    pub platform_config: &'a Option<Vec<u8>>,
}

impl<'a> View for ResolutionBase<'a> {
    type V = ResolutionModel;

    open spec fn view(&self) -> ResolutionModel {
        ResolutionModel {
            os: self.os,
            clients: self.clients@,
            cwd: self.cwd@,
            home: self.home@,
            use_env_roots: self.use_env_roots,
            platform_config: path_of(*self.platform_config),
        }
    }
}

impl ResolutionModel {
    /// Where a variable points when it is not set.
    pub open spec fn fallback(self, key: Seq<char>) -> Seq<u8> {
        fallback_path(self.os, self.clients, key, self.home, self.platform_config)
    }

    /// The path that a place stands for.
    pub open spec fn path_at(self, place: VariablePlace, key: Seq<char>, value: Option<Seq<u8>>) -> Option<
        Seq<u8>,
    > {
        match place {
            VariablePlace::Nowhere => None,
            VariablePlace::Home => Some(self.home),
            VariablePlace::Root => Some(seq![SLASH]),
            VariablePlace::Fallback => Some(self.fallback(key)),
            VariablePlace::Value => Some(joined(self.cwd, value->0)),
            VariablePlace::TrimmedValue => Some(
                below(self.cwd, trimmed(value_model(value)->Text_0)),
            ),
        }
    }

    /// What a variable resolves to.
    pub open spec fn resolve(self, key: Seq<char>, value: Option<Seq<u8>>) -> ResolvedModel {
        let choice = variable_choice(
            self.os.target(),
            self.clients,
            key,
            value_model(value),
            self.use_env_roots,
        );
        ResolvedModel {
            state: choice.state,
            resolution: choice.resolution,
            path: self.path_at(choice.place, key, value),
        }
    }
}

impl<'a> ResolutionBase<'a> {
    /// Resolves one variable.
    pub fn resolve_variable(&self, key: &str, value: Option<&Vec<u8>>) -> (input: ResolvedPathInput)
        ensures
            input@ == self@.resolve(
                key@,
                match value {
                    Some(value) => Some(value@),
                    None => None,
                },
            ),
    {
        let known = variable_value(value);
        let choice = choose_variable(
            self.os.target_os(),
            self.clients,
            key,
            known,
            self.use_env_roots,
        );
        let path: Option<Vec<u8>> = match choice.place {
            VariablePlace::Nowhere => None,
            VariablePlace::Home => Some(copy_bytes(self.home)),
            VariablePlace::Root => {
                let mut root: Vec<u8> = Vec::new();
                root.push(SLASH);
                assert(root@ =~= seq![SLASH]);
                Some(root)
            },
            VariablePlace::Fallback => Some(
                fallback_source_env_path(
                    self.os,
                    self.clients,
                    key,
                    self.home,
                    self.platform_config,
                ),
            ),
            VariablePlace::Value => match value {
                Some(raw) => Some(fully_qualified(self.cwd, raw.as_slice())),
                None => None,
            },
            VariablePlace::TrimmedValue => match known {
                VariableValue::Text(text) => Some(
                    fully_qualified(self.cwd, trim(text).as_bytes()),
                ),
                _ => None,
            },
        };
        ResolvedPathInput::chosen(choice, path)
    }
}

/// The resolved variables of a table.
pub open spec fn resolved_value(
    table: SortedTable<String, ResolvedPathInput>,
    key: Seq<char>,
) -> Option<ResolvedModel> {
    match table.get(key) {
        Some(input) => Some(input@),
        None => None,
    }
}

/// Whether a table holds what the variables that a catalog reads resolve to, and nothing else.
pub open spec fn resolves(
    base: ResolutionModel,
    catalog: SourceCatalog,
    inputs: SourceResolutionInputs,
    table: SortedTable<String, ResolvedPathInput>,
) -> bool {
    forall|key: Seq<char>|
        #[trigger] resolved_value(table, key) == (if catalog.reads(key) {
            Some(base.resolve(key, inputs.value(key)))
        } else {
            None
        })
}

/// Resolves every variable that the catalog reads.
pub fn resolve_source_environment_paths(
    base: &ResolutionBase,
    catalog: &SourceCatalog,
    inputs: &SourceResolutionInputs,
) -> (resolved: SortedTable<String, ResolvedPathInput>)
    requires
        inputs.wf(),
    ensures
        resolved.wf(),
        resolves(base@, *catalog, *inputs, resolved),
{
    let keys = resolver_environment_keys(catalog);
    let ghost names = texts_of(keys@);
    let mut resolved: SortedTable<String, ResolvedPathInput> = SortedTable::new();
    let mut i: usize = 0;
    while i < keys.len()
        invariant
            i <= keys@.len(),
            names == texts_of(keys@),
            inputs.wf(),
            resolved.wf(),
            forall|key: Seq<char>|
                #[trigger] resolved_value(resolved, key) == (if names.take(i as int).contains(key) {
                    Some(base@.resolve(key, inputs.value(key)))
                } else {
                    None
                }),
        decreases keys@.len() - i,
    {
        let ghost before = resolved;
        let value = inputs.var_os(keys[i].as_str());
        let input = base.resolve_variable(keys[i].as_str(), value);
        let ghost name = keys@[i as int]@;
        resolved.set(keys[i].clone(), input);
        proof {
            let earlier = names.take(i as int);
            let later = names.take(i + 1);
            assert(later =~= earlier.push(name));
            assert forall|key: Seq<char>|
                #[trigger] resolved_value(resolved, key) == (if later.contains(key) {
                    Some(base@.resolve(key, inputs.value(key)))
                } else {
                    None
                }) by {
                if key == name {
                    assert(later[i as int] == name);
                } else {
                    assert(resolved_value(before, key) == resolved_value(resolved, key));
                    if earlier.contains(key) {
                        let at = earlier.index_of(key);
                        assert(later[at] == key);
                    }
                    if later.contains(key) {
                        let at = later.index_of(key);
                        assert(earlier[at] == key);
                    }
                }
            }
        }
        i = i + 1;
    }
    assert(names.take(i as int) =~= names);
    resolved
}

} // verus!
