//! The clients and the environment variables that a configuration depends on.
use vstd::prelude::*;

use crate::ordered::{
    lemma_bytes_irreflexive, lemma_bytes_transitive, place_text, same_text, text_before, Ordered,
    Place, SortedTable,
};

verus! {

pub const ENV_HOME: &'static str = "HOME";

pub const ENV_XDG_DATA_HOME: &'static str = "XDG_DATA_HOME";

pub const ENV_TOKSCALE_CONFIG_DIR: &'static str = "TOKSCALE_CONFIG_DIR";

pub const ENV_XDG_CONFIG_HOME: &'static str = "XDG_CONFIG_HOME";

pub const ENV_TOKSCALE_HEADLESS_DIR: &'static str = "TOKSCALE_HEADLESS_DIR";

pub const ENV_COPILOT_EXPORTER: &'static str = "COPILOT_OTEL_FILE_EXPORTER_PATH";

pub const ENV_LOCALAPPDATA: &'static str = "LOCALAPPDATA";

pub const ENV_APPDATA: &'static str = "APPDATA";

pub const ENV_KIMI_CODE_HOME: &'static str = "KIMI_CODE_HOME";

pub const ENV_TOKSCALE_EXTRA_DIRS: &'static str = "TOKSCALE_EXTRA_DIRS";

pub const ENV_GOOSE_PATH_ROOT: &'static str = "GOOSE_PATH_ROOT";

pub const ENV_CODEBUFF_DATA_DIR: &'static str = "CODEBUFF_DATA_DIR";

pub const ENV_CODEX_HOME: &'static str = "CODEX_HOME";

pub const ENV_XDG_RUNTIME_DIR: &'static str = "XDG_RUNTIME_DIR";

pub const ENV_TOKSCALE_PRICING_CACHE_ONLY: &'static str = "TOKSCALE_PRICING_CACHE_ONLY";

/// The operating systems that a configuration tells apart.
#[derive(Debug, Clone, Copy, PartialEq, Eq, Structural)]
pub enum TargetOs {
    Windows,
    MacOs,
    Linux,
    /// Another Unix.
    Other,
}

/// The operating systems whose paths are bytes, separated by slashes.
#[derive(Debug, Clone, Copy, PartialEq, Eq, Structural)]
pub enum UnixOs {
    MacOs,
    Linux,
    Other,
}

impl UnixOs {
    /// The system among all.
    pub open spec fn target(self) -> TargetOs {
        match self {
            UnixOs::MacOs => TargetOs::MacOs,
            UnixOs::Linux => TargetOs::Linux,
            UnixOs::Other => TargetOs::Other,
        }
    }

    pub fn target_os(self) -> (os: TargetOs)
        ensures
            os == self.target(),
    {
        match self {
            UnixOs::MacOs => TargetOs::MacOs,
            UnixOs::Linux => TargetOs::Linux,
            UnixOs::Other => TargetOs::Other,
        }
    }
}

/// Where a client's files are rooted.
#[derive(Debug, Clone, PartialEq, Eq)]
pub enum PathRoot {
    Home,
    XdgData,
    Config,
    EnvVar { var: String, fallback_relative: String },
}

/// The byte that stands for a kind of root.
pub open spec fn root_code(root: PathRoot) -> u8 {
    match root {
        PathRoot::Home => 1,
        PathRoot::XdgData => 2,
        PathRoot::Config => 3,
        PathRoot::EnvVar { .. } => 4,
    }
}

pub fn path_root_tag(root: &PathRoot) -> (tag: u8)
    ensures
        tag == root_code(*root),
{
    match root {
        PathRoot::Home => 1,
        PathRoot::XdgData => 2,
        PathRoot::Config => 3,
        PathRoot::EnvVar { .. } => 4,
    }
}

/// The byte that stands for an operating system.
pub open spec fn os_code(os: TargetOs) -> u8 {
    match os {
        TargetOs::Windows => 1,
        TargetOs::MacOs => 2,
        TargetOs::Linux => 3,
        TargetOs::Other => 255,
    }
}

pub fn target_os_tag(os: TargetOs) -> (tag: u8)
    ensures
        tag == os_code(os),
{
    match os {
        TargetOs::Windows => 1,
        TargetOs::MacOs => 2,
        TargetOs::Linux => 3,
        TargetOs::Other => 255,
    }
}

/// A client.
#[derive(Debug, Clone, PartialEq, Eq)]
pub struct ClientDef {
    pub number: u32,
    pub id: String,
    pub root: PathRoot,
    pub relative_path: String,
    pub pattern: String,
}

/// The clients, and the variables that the scanner reads beside theirs.
#[derive(Debug, Clone, PartialEq, Eq)]
pub struct SourceCatalog {
    pub clients: Vec<ClientDef>,
    pub direct_env_keys: Vec<String>,
}

/// The variable that roots a client, if one does.
pub open spec fn client_var(client: ClientDef) -> Option<Seq<char>> {
    match client.root {
        PathRoot::EnvVar { var, .. } => Some(var@),
        _ => None,
    }
}

/// Whether a variable roots a client.
pub open spec fn roots_a_client(clients: Seq<ClientDef>, key: Seq<char>) -> bool {
    exists|i: int| 0 <= i < clients.len() && client_var(#[trigger] clients[i]) == Some(key)
}

/// The directory, relative to the home directory, of the first client that a variable roots.
pub open spec fn first_fallback(clients: Seq<ClientDef>, key: Seq<char>) -> Option<Seq<char>>
    decreases clients.len(),
{
    if clients.len() == 0 {
        None
    } else {
        match clients[0].root {
            PathRoot::EnvVar { var, fallback_relative } if var@ == key => Some(fallback_relative@),
            _ => first_fallback(clients.drop_first(), key),
        }
    }
}

impl SourceCatalog {
    /// Whether the resolver reads a variable: one of the platform's, one of the scanner's, or
    /// one that roots a client.
    pub open spec fn reads(self, key: Seq<char>) -> bool {
        ||| key == ENV_HOME@
        ||| key == ENV_XDG_DATA_HOME@
        ||| key == ENV_TOKSCALE_CONFIG_DIR@
        ||| key == ENV_XDG_CONFIG_HOME@
        ||| exists|i: int|
            0 <= i < self.direct_env_keys@.len() && (#[trigger] self.direct_env_keys@[i])@ == key
        ||| roots_a_client(self.clients@, key)
    }
}

impl Ordered for String {
    open spec fn before(a: Seq<char>, b: Seq<char>) -> bool {
        text_before(a, b)
    }

    proof fn irreflexive(a: Seq<char>) {
        lemma_bytes_irreflexive(vstd::utf8::encode_utf8(a));
    }

    proof fn transitive(a: Seq<char>, b: Seq<char>, c: Seq<char>) {
        lemma_bytes_transitive(
            vstd::utf8::encode_utf8(a),
            vstd::utf8::encode_utf8(b),
            vstd::utf8::encode_utf8(c),
        );
    }

    fn place(&self, other: &Self) -> (place: Place) {
        place_text(self.as_str(), other.as_str())
    }
}

/// The keys of a table and one more.
fn add_key(keys: &mut SortedTable<String, ()>, key: &str)
    requires
        old(keys).wf(),
    ensures
        final(keys).wf(),
        forall|other: Seq<char>|
            #[trigger] final(keys).keys().contains(other) <==> old(keys).keys().contains(other)
                || other == key@,
{
    let ghost before = keys.keys();
    let key = key.to_owned();
    match keys.find(&key) {
        Ok(at) => {
            assert(before[at as int] == key@);
        },
        Err(at) => {
            let ghost name = key@;
            keys.insert_at(at, key, ());
            proof {
                let after = keys.keys();
                assert(after[at as int] == name);
                assert forall|other: Seq<char>|
                    #[trigger] after.contains(other) <==> before.contains(other) || other
                        == name by {
                    if after.contains(other) {
                        let i = after.index_of(other);
                        let from = if i < at { i } else { i - 1 };
                        assert(i != at ==> before[from] == other);
                    }
                    if before.contains(other) {
                        let i = before.index_of(other);
                        let to = if i < at { i } else { i + 1 };
                        assert(after[to] == other);
                    }
                }
            }
        },
    }
}

/// Whether texts are in strictly ascending order.
pub open spec fn ascending(keys: Seq<Seq<char>>) -> bool {
    forall|i: int, j: int|
        0 <= i < j < keys.len() ==> text_before(#[trigger] keys[i], #[trigger] keys[j])
}

/// A list of texts as characters.
pub open spec fn texts_of(texts: Seq<String>) -> Seq<Seq<char>> {
    texts.map_values(|text: String| text@)
}

/// The variables that the resolver reads, as a table.
fn key_table(catalog: &SourceCatalog) -> (keys: SortedTable<String, ()>)
    ensures
        keys.wf(),
        forall|key: Seq<char>| #[trigger] keys.keys().contains(key) <==> catalog.reads(key),
{
    let mut keys: SortedTable<String, ()> = SortedTable::new();
    add_key(&mut keys, ENV_HOME);
    add_key(&mut keys, ENV_XDG_DATA_HOME);
    add_key(&mut keys, ENV_TOKSCALE_CONFIG_DIR);
    add_key(&mut keys, ENV_XDG_CONFIG_HOME);
    let ghost platform = keys.keys();
    let mut i: usize = 0;
    while i < catalog.direct_env_keys.len()
        invariant
            i <= catalog.direct_env_keys@.len(),
            keys.wf(),
            forall|key: Seq<char>|
                #[trigger] keys.keys().contains(key) <==> platform.contains(key) || exists|j: int|
                    0 <= j < i && (#[trigger] catalog.direct_env_keys@[j])@ == key,
        decreases catalog.direct_env_keys@.len() - i,
    {
        let ghost before = keys.keys();
        add_key(&mut keys, catalog.direct_env_keys[i].as_str());
        proof {
            assert forall|key: Seq<char>|
                #[trigger] keys.keys().contains(key) <==> platform.contains(key) || exists|j: int|
                    0 <= j < i + 1 && (#[trigger] catalog.direct_env_keys@[j])@ == key by {
                assert(keys.keys().contains(key) <==> before.contains(key) || key
                    == catalog.direct_env_keys@[i as int]@);
                if exists|j: int|
                    0 <= j < i + 1 && (#[trigger] catalog.direct_env_keys@[j])@ == key {
                    let j = choose|j: int|
                        0 <= j < i + 1 && (#[trigger] catalog.direct_env_keys@[j])@ == key;
                    assert(before.contains(key) || j == i);
                }
            }
        }
        i = i + 1;
    }
    let ghost direct = keys.keys();
    let mut i: usize = 0;
    while i < catalog.clients.len()
        invariant
            i <= catalog.clients@.len(),
            keys.wf(),
            forall|key: Seq<char>|
                #[trigger] keys.keys().contains(key) <==> direct.contains(key) || exists|j: int|
                    0 <= j < i && client_var(#[trigger] catalog.clients@[j]) == Some(key),
        decreases catalog.clients@.len() - i,
    {
        let ghost before = keys.keys();
        if let PathRoot::EnvVar { var, .. } = &catalog.clients[i].root {
            add_key(&mut keys, var.as_str());
        }
        proof {
            let var = client_var(catalog.clients@[i as int]);
            assert forall|key: Seq<char>|
                #[trigger] keys.keys().contains(key) <==> direct.contains(key) || exists|j: int|
                    0 <= j < i + 1 && client_var(#[trigger] catalog.clients@[j]) == Some(key) by {
                assert(keys.keys().contains(key) <==> before.contains(key) || var == Some(key));
                if exists|j: int|
                    0 <= j < i + 1 && client_var(#[trigger] catalog.clients@[j]) == Some(key) {
                    let j = choose|j: int|
                        0 <= j < i + 1 && client_var(#[trigger] catalog.clients@[j]) == Some(key);
                    assert(before.contains(key) || j == i);
                }
            }
        }
        i = i + 1;
    }
    keys
}

fn table_keys(table: SortedTable<String, ()>) -> (keys: Vec<String>)
    requires
        table.wf(),
    ensures
        texts_of(keys@) == table.keys(),
        ascending(texts_of(keys@)),
{
    let mut keys: Vec<String> = Vec::new();
    let mut i: usize = 0;
    while i < table.entries.len()
        invariant
            i <= table.entries@.len(),
            keys@.len() == i,
            forall|j: int| 0 <= j < i ==> (#[trigger] keys@[j])@ == table.keys()[j],
        decreases table.entries@.len() - i,
    {
        keys.push(table.entries[i].0.clone());
        i = i + 1;
    }
    assert(texts_of(keys@) =~= table.keys());
    keys
}

/// The variables that the resolver reads, each once and in ascending order.
pub fn resolver_environment_keys(catalog: &SourceCatalog) -> (keys: Vec<String>)
    ensures
        ascending(texts_of(keys@)),
        forall|key: Seq<char>| #[trigger] texts_of(keys@).contains(key) <==> catalog.reads(key),
{
    table_keys(key_table(catalog))
}

/// The variables to capture: those that the resolver reads, and two that decide on the cache.
pub fn captured_environment_keys(catalog: &SourceCatalog) -> (keys: Vec<String>)
    ensures
        ascending(texts_of(keys@)),
        forall|key: Seq<char>|
            #[trigger] texts_of(keys@).contains(key) <==> catalog.reads(key) || key
                == ENV_XDG_RUNTIME_DIR@ || key == ENV_TOKSCALE_PRICING_CACHE_ONLY@,
{
    let mut keys = key_table(catalog);
    add_key(&mut keys, ENV_XDG_RUNTIME_DIR);
    add_key(&mut keys, ENV_TOKSCALE_PRICING_CACHE_ONLY);
    table_keys(keys)
}

/// Whether a variable roots a client.
pub fn is_client_var(clients: &Vec<ClientDef>, key: &str) -> (rooting: bool)
    ensures
        rooting == roots_a_client(clients@, key@),
{
    let mut i: usize = 0;
    while i < clients.len()
        invariant
            i <= clients@.len(),
            forall|j: int| 0 <= j < i ==> client_var(#[trigger] clients@[j]) != Some(key@),
        decreases clients@.len() - i,
    {
        if let PathRoot::EnvVar { var, .. } = &clients[i].root {
            if same_text(var.as_str(), key) {
                assert(client_var(clients@[i as int]) == Some(key@));
                return true;
            }
        }
        i = i + 1;
    }
    false
}

/// The directory of the first client that a variable roots.
pub fn client_fallback<'a>(clients: &'a Vec<ClientDef>, key: &str) -> (relative: Option<&'a str>)
    ensures
        match relative {
            Some(relative) => first_fallback(clients@, key@) == Some(relative@),
            None => first_fallback(clients@, key@) is None,
        },
{
    let mut i: usize = 0;
    assert(clients@.skip(0) =~= clients@);
    while i < clients.len()
        invariant
            i <= clients@.len(),
            first_fallback(clients@, key@) == first_fallback(clients@.skip(i as int), key@),
        decreases clients@.len() - i,
    {
        proof {
            assert(clients@.skip(i as int)[0] == clients@[i as int]);
            assert(clients@.skip(i as int).drop_first() =~= clients@.skip(i + 1));
        }
        if let PathRoot::EnvVar { var, fallback_relative } = &clients[i].root {
            if same_text(var.as_str(), key) {
                return Some(fallback_relative.as_str());
            }
        }
        i = i + 1;
    }
    None
}

} // verus!
