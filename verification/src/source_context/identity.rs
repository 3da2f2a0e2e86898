//! The identity of a configuration: the digest of its descriptor.
use vstd::prelude::*;
use vstd::utf8::*;

use crate::source_context::descriptor::{
    count_bytes, countable, field_mark, optional_path_bytes, path_bytes, text_bytes, u32_bytes,
    NativeModel,
};

verus! {

/// What every descriptor begins with.
pub const DOMAIN: &'static str = "tokenbar-source-context";

/// The version of the rules by which sources are resolved.
pub const RESOLVER_CONTRACT_VERSION: u32 = 1;

/// A variable in a descriptor.
pub ghost struct DescribedVariable {
    pub key: Seq<char>,
    pub state: u8,
    pub resolution: u8,
    pub path: Option<NativeModel>,
}

/// A client in a descriptor.
pub ghost struct DescribedClient {
    pub number: u32,
    pub id: Seq<char>,
    pub root: u8,
    pub relative_path: Seq<char>,
    pub pattern: Seq<char>,
    pub path: NativeModel,
}

/// A directory of a client in a descriptor.
pub ghost struct DescribedDir {
    pub client: u32,
    pub path: NativeModel,
}

/// The paths of a client in a descriptor.
pub ghost struct DescribedPaths {
    pub client: Seq<char>,
    pub paths: Seq<NativeModel>,
}

/// What a descriptor says.
pub ghost struct Described {
    pub os: u8,
    pub use_env_roots: bool,
    pub home_dir: NativeModel,
    pub variables: Seq<DescribedVariable>,
    pub platform_config_dir: Option<NativeModel>,
    pub platform_data_local_dir: Option<NativeModel>,
    pub clients: Seq<DescribedClient>,
    pub opencode_db_paths: Seq<NativeModel>,
    pub settings_paths: Seq<DescribedPaths>,
    pub extra_dirs: Seq<DescribedDir>,
    pub codex_archive_root: NativeModel,
    pub source_cache_dir: Option<NativeModel>,
}

/// The items of a list, each written by a rule.
pub open spec fn items_bytes<A>(items: Seq<A>, write: spec_fn(A) -> Seq<u8>) -> Seq<u8>
    decreases items.len(),
{
    if items.len() == 0 {
        Seq::empty()
    } else {
        items_bytes(items.drop_last(), write) + write(items.last())
    }
}

/// A list behind the count of its items.
pub open spec fn list_bytes<A>(items: Seq<A>, write: spec_fn(A) -> Seq<u8>) -> Seq<u8> {
    count_bytes(items.len()) + items_bytes(items, write)
}

/// Whether a list can be counted, and each of its items written.
pub open spec fn writable<A>(items: Seq<A>, fits: spec_fn(A) -> bool) -> bool {
    countable(items.len()) && forall|i: int| 0 <= i < items.len() ==> fits(#[trigger] items[i])
}

/// Whether a text can be written.
pub open spec fn text_fits(text: Seq<char>) -> bool {
    countable(encode_utf8(text).len())
}

/// Whether an optional path can be written.
pub open spec fn optional_fits(path: Option<NativeModel>) -> bool {
    match path {
        Some(path) => countable(path.len()),
        None => true,
    }
}

pub open spec fn variable_fits() -> spec_fn(DescribedVariable) -> bool {
    |variable: DescribedVariable| text_fits(variable.key) && optional_fits(variable.path)
}

pub open spec fn variable_bytes() -> spec_fn(DescribedVariable) -> Seq<u8> {
    |variable: DescribedVariable|
        text_bytes(variable.key) + seq![variable.state, variable.resolution] + optional_path_bytes(
            variable.path,
        )
}

pub open spec fn client_fits() -> spec_fn(DescribedClient) -> bool {
    |client: DescribedClient|
        text_fits(client.id) && text_fits(client.relative_path) && text_fits(client.pattern)
            && countable(client.path.len())
}

/// What is written of a client, one part behind another.
pub open spec fn client_parts(client: DescribedClient) -> Seq<Seq<u8>> {
    seq![
        u32_bytes(client.number),
        text_bytes(client.id),
        seq![client.root],
        text_bytes(client.relative_path),
        text_bytes(client.pattern),
        path_bytes(client.path),
    ]
}

pub open spec fn client_bytes() -> spec_fn(DescribedClient) -> Seq<u8> {
    |client: DescribedClient| client_parts(client).flatten()
}

pub open spec fn path_fits() -> spec_fn(NativeModel) -> bool {
    |path: NativeModel| countable(path.len())
}

pub open spec fn written_path() -> spec_fn(NativeModel) -> Seq<u8> {
    |path: NativeModel| path_bytes(path)
}

pub open spec fn paths_fit() -> spec_fn(DescribedPaths) -> bool {
    |entry: DescribedPaths| text_fits(entry.client) && writable(entry.paths, path_fits())
}

pub open spec fn client_paths_bytes() -> spec_fn(DescribedPaths) -> Seq<u8> {
    |entry: DescribedPaths|
        text_bytes(entry.client) + list_bytes(entry.paths, written_path())
}

pub open spec fn dir_fits() -> spec_fn(DescribedDir) -> bool {
    |dir: DescribedDir| countable(dir.path.len())
}

pub open spec fn dir_bytes() -> spec_fn(DescribedDir) -> Seq<u8> {
    |dir: DescribedDir| u32_bytes(dir.client) + path_bytes(dir.path)
}

/// Whether a configuration can be described: every count fits in 32 bits.
pub open spec fn describable(described: Described) -> bool {
    &&& countable(described.home_dir.len())
    &&& writable(described.variables, variable_fits())
    &&& optional_fits(described.platform_config_dir)
    &&& optional_fits(described.platform_data_local_dir)
    &&& writable(described.clients, client_fits())
    &&& writable(described.opencode_db_paths, path_fits())
    &&& writable(described.settings_paths, paths_fit())
    &&& writable(described.extra_dirs, dir_fits())
    &&& countable(described.codex_archive_root.len())
    &&& optional_fits(described.source_cache_dir)
}

/// What stands before the first part that depends on the configuration.
pub open spec fn preamble() -> Seq<u8> {
    field_mark(1) + text_bytes(DOMAIN@) + field_mark(2) + u32_bytes(RESOLVER_CONTRACT_VERSION)
}

/// What is written of the system, the home directory and the variables, one part behind
/// another.
pub open spec fn root_parts(described: Described) -> Seq<Seq<u8>> {
    seq![
        field_mark(3),
        seq![described.os],
        field_mark(4),
        seq![
            if described.use_env_roots {
                1u8
            } else {
                0u8
            },
        ],
        field_mark(5),
        path_bytes(described.home_dir),
        field_mark(6),
        list_bytes(described.variables, variable_bytes()),
    ]
}

/// The first part of a descriptor: the system, the home directory and the variables.
pub open spec fn described_roots(described: Described) -> Seq<u8> {
    root_parts(described).flatten()
}

/// What is written of the platform's directories and the clients, one part behind another.
pub open spec fn platform_parts(described: Described) -> Seq<Seq<u8>> {
    seq![
        field_mark(7),
        optional_path_bytes(described.platform_config_dir),
        field_mark(8),
        optional_path_bytes(described.platform_data_local_dir),
        field_mark(9),
        list_bytes(described.clients, client_bytes()),
    ]
}

/// The second part of a descriptor: the platform's directories and the clients.
pub open spec fn described_clients(described: Described) -> Seq<u8> {
    platform_parts(described).flatten()
}

/// What is written of the paths to scan and the cache, one part behind another.
pub open spec fn path_parts(described: Described) -> Seq<Seq<u8>> {
    seq![
        field_mark(10),
        list_bytes(described.opencode_db_paths, written_path()),
        field_mark(11),
        list_bytes(described.settings_paths, client_paths_bytes()),
        field_mark(12),
        list_bytes(described.extra_dirs, dir_bytes()),
        field_mark(13),
        path_bytes(described.codex_archive_root),
        field_mark(14),
        optional_path_bytes(described.source_cache_dir),
    ]
}

/// The last part of a descriptor: the paths to scan and the cache.
pub open spec fn described_paths(described: Described) -> Seq<u8> {
    path_parts(described).flatten()
}

/// The descriptor of a configuration.
pub open spec fn descriptor_of(described: Described) -> Seq<u8> {
    preamble() + described_roots(described) + described_clients(described) + described_paths(
        described,
    )
}

// ---------------------------------------------------------------------------
// Laws
// ---------------------------------------------------------------------------
/// Whether a number of bytes, units or items can be written in four bytes.
pub open spec fn is_writable_count(count: nat) -> bool {
    count <= 0xffff_ffff
}

/// Whether an optional path is none or short enough.
pub open spec fn is_writable_path(path: Option<NativeModel>) -> bool {
    path is Some ==> is_writable_count(path->0.len())
}

/// A configuration can be described exactly where every list, text and path in it has a count
/// that four bytes hold.
pub proof fn lemma_what_can_be_described(described: Described)
    ensures
        describable(described) <==> {
            &&& is_writable_count(described.home_dir.len())
            &&& is_writable_count(described.codex_archive_root.len())
            &&& is_writable_path(described.platform_config_dir)
            &&& is_writable_path(described.platform_data_local_dir)
            &&& is_writable_path(described.source_cache_dir)
            &&& is_writable_count(described.variables.len())
            &&& is_writable_count(described.clients.len())
            &&& is_writable_count(described.opencode_db_paths.len())
            &&& is_writable_count(described.settings_paths.len())
            &&& is_writable_count(described.extra_dirs.len())
            &&& forall|i: int|
                0 <= i < described.variables.len() ==> is_writable_count(
                    encode_utf8((#[trigger] described.variables[i]).key).len(),
                ) && is_writable_path(described.variables[i].path)
            &&& forall|i: int|
                0 <= i < described.clients.len() ==> is_writable_count(
                    encode_utf8((#[trigger] described.clients[i]).id).len(),
                ) && is_writable_count(encode_utf8(described.clients[i].relative_path).len())
                    && is_writable_count(encode_utf8(described.clients[i].pattern).len())
                    && is_writable_count(described.clients[i].path.len())
            &&& forall|i: int|
                0 <= i < described.opencode_db_paths.len() ==> is_writable_count(
                    (#[trigger] described.opencode_db_paths[i]).len(),
                )
            &&& forall|i: int|
                0 <= i < described.settings_paths.len() ==> is_writable_count(
                    encode_utf8((#[trigger] described.settings_paths[i]).client).len(),
                ) && is_writable_count(described.settings_paths[i].paths.len()) && forall|j: int|
                    0 <= j < described.settings_paths[i].paths.len() ==> is_writable_count(
                        (#[trigger] described.settings_paths[i].paths[j]).len(),
                    )
            &&& forall|i: int|
                0 <= i < described.extra_dirs.len() ==> is_writable_count(
                    (#[trigger] described.extra_dirs[i]).path.len(),
                )
        },
{
}

/// The items of a descriptor are written part by part: a variable by its key, its state, its
/// resolution and its path, a client by its number, its name, its root and its paths, and a list
/// behind the count of its items, one item behind another.
pub proof fn lemma_items_in_descriptors(
    variable: DescribedVariable,
    client: DescribedClient,
    entry: DescribedPaths,
    dir: DescribedDir,
    paths: Seq<NativeModel>,
    path: NativeModel,
)
    ensures
        variable_bytes()(variable) == text_bytes(variable.key) + seq![
            variable.state,
            variable.resolution,
        ] + optional_path_bytes(variable.path),
        client_bytes()(client) == u32_bytes(client.number) + text_bytes(client.id) + seq![
            client.root,
        ] + text_bytes(client.relative_path) + text_bytes(client.pattern) + path_bytes(client.path),
        client_paths_bytes()(entry) == text_bytes(entry.client) + list_bytes(
            entry.paths,
            written_path(),
        ),
        dir_bytes()(dir) == u32_bytes(dir.client) + path_bytes(dir.path),
        written_path()(path) == path_bytes(path),
        list_bytes(paths, written_path()) == u32_bytes(paths.len() as u32) + items_bytes(
            paths,
            written_path(),
        ),
        items_bytes(paths.push(path), written_path()) == items_bytes(paths, written_path())
            + path_bytes(path),
        items_bytes(Seq::empty(), written_path()) == Seq::<u8>::empty(),
{
    assert(paths.push(path).drop_last() =~= paths);
    let parts = client_parts(client);
    let number = seq![u32_bytes(client.number)];
    let id = number.push(text_bytes(client.id));
    let root = id.push(seq![client.root]);
    let relative = root.push(text_bytes(client.relative_path));
    let pattern = relative.push(text_bytes(client.pattern));
    assert(parts =~= pattern.push(path_bytes(client.path)));
    assert(number =~= Seq::<Seq<u8>>::empty().push(u32_bytes(client.number)));
    Seq::<Seq<u8>>::empty().lemma_flatten_push(u32_bytes(client.number));
    assert(number.flatten() =~= u32_bytes(client.number));
    number.lemma_flatten_push(text_bytes(client.id));
    id.lemma_flatten_push(seq![client.root]);
    root.lemma_flatten_push(text_bytes(client.relative_path));
    relative.lemma_flatten_push(text_bytes(client.pattern));
    pattern.lemma_flatten_push(path_bytes(client.path));
}

/// A descriptor has fourteen fields, each behind its mark, in the order of their numbers.
pub proof fn lemma_fields_of_a_descriptor(described: Described)
    ensures
        preamble() == seq![0xf0u8, 1] + text_bytes("tokenbar-source-context"@) + seq![0xf0u8, 2]
            + u32_bytes(1),
        root_parts(described) == seq![
            seq![0xf0u8, 3],
            seq![described.os],
            seq![0xf0u8, 4],
            seq![described.use_env_roots as u8],
            seq![0xf0u8, 5],
            path_bytes(described.home_dir),
            seq![0xf0u8, 6],
            list_bytes(described.variables, variable_bytes()),
        ],
        platform_parts(described) == seq![
            seq![0xf0u8, 7],
            optional_path_bytes(described.platform_config_dir),
            seq![0xf0u8, 8],
            optional_path_bytes(described.platform_data_local_dir),
            seq![0xf0u8, 9],
            list_bytes(described.clients, client_bytes()),
        ],
        path_parts(described) == seq![
            seq![0xf0u8, 10],
            list_bytes(described.opencode_db_paths, written_path()),
            seq![0xf0u8, 11],
            list_bytes(described.settings_paths, client_paths_bytes()),
            seq![0xf0u8, 12],
            list_bytes(described.extra_dirs, dir_bytes()),
            seq![0xf0u8, 13],
            path_bytes(described.codex_archive_root),
            seq![0xf0u8, 14],
            optional_path_bytes(described.source_cache_dir),
        ],
        descriptor_of(described) == preamble() + root_parts(described).flatten() + platform_parts(
            described,
        ).flatten() + path_parts(described).flatten(),
{
    assert(field_mark(1) =~= seq![0xf0u8, 1]);
    assert(field_mark(2) =~= seq![0xf0u8, 2]);
}

} // verus!
