//! Descriptions: a resolved configuration in the host's own strings, ready to be written.
use vstd::prelude::*;
use vstd::utf8::*;

use crate::source_context::catalog::{
    os_code, path_root_tag, root_code, target_os_tag, ClientDef, TargetOs,
};
use crate::source_context::descriptor::{
    count_bytes, countable, field_mark, lemma_part_behind, lemma_written_behind, native_of,
    optional_path_bytes, path_bytes, sha256, sha256_of, text_bytes, u32_bytes, Descriptor,
    NativeModel, NativeString, SourceContextUnavailable,
};
use crate::source_context::environment::PathResolution;
use crate::source_context::identity::{
    client_bytes, client_fits, client_parts, client_paths_bytes, describable, described_clients,
    described_paths, described_roots, descriptor_of, dir_bytes, dir_fits, items_bytes, list_bytes,
    optional_fits, path_fits, path_parts, paths_fit, platform_parts, preamble, root_parts,
    variable_bytes, variable_fits, writable, written_path, Described, DescribedClient,
    DescribedDir, DescribedPaths, DescribedVariable, DOMAIN, RESOLVER_CONTRACT_VERSION,
};
use crate::source_context::inputs::InputState;

verus! {

/// What a variable resolved to.
pub struct VariableEntry {
    pub key: String,
    pub state: InputState,
    pub resolution: PathResolution,
    pub path: Option<NativeString>,
}

/// A client, and where its files are.
pub struct ClientEntry<'a> {
    pub client: &'a ClientDef,
    pub path: NativeString,
}

/// Paths that are set for a client.
pub struct PathsEntry {
    pub client: String,
    pub paths: Vec<NativeString>,
}

/// A further directory of a client.
pub struct DirEntry {
    pub client: u32,
    pub path: NativeString,
}

/// A resolved configuration. Variables and clients with paths stand in the order of their names.
pub struct Description<'a> {
    pub os: TargetOs,
    pub use_env_roots: bool,
    pub home_dir: NativeString,
    pub variables: Vec<VariableEntry>,
    pub platform_config_dir: Option<NativeString>,
    pub platform_data_local_dir: Option<NativeString>,
    pub clients: Vec<ClientEntry<'a>>,
    pub opencode_db_paths: Vec<NativeString>,
    pub settings_paths: Vec<PathsEntry>,
    pub extra_dirs: Vec<DirEntry>,
    pub codex_archive_root: NativeString,
    pub source_cache_dir: Option<NativeString>,
}

impl View for VariableEntry {
    type V = DescribedVariable;

    open spec fn view(&self) -> DescribedVariable {
        DescribedVariable {
            key: self.key@,
            state: self.state.code(),
            resolution: self.resolution.code(),
            path: native_of(self.path),
        }
    }
}

impl<'a> View for ClientEntry<'a> {
    type V = DescribedClient;

    open spec fn view(&self) -> DescribedClient {
        DescribedClient {
            number: self.client.number,
            id: self.client.id@,
            root: root_code(self.client.root),
            relative_path: self.client.relative_path@,
            pattern: self.client.pattern@,
            path: self.path@,
        }
    }
}

impl View for PathsEntry {
    type V = DescribedPaths;

    open spec fn view(&self) -> DescribedPaths {
        DescribedPaths { client: self.client@, paths: said(self.paths@) }
    }
}

impl View for DirEntry {
    type V = DescribedDir;

    open spec fn view(&self) -> DescribedDir {
        DescribedDir { client: self.client, path: self.path@ }
    }
}

impl<'a> View for Description<'a> {
    type V = Described;

    open spec fn view(&self) -> Described {
        Described {
            os: os_code(self.os),
            use_env_roots: self.use_env_roots,
            home_dir: self.home_dir@,
            variables: said(self.variables@),
            platform_config_dir: native_of(self.platform_config_dir),
            platform_data_local_dir: native_of(self.platform_data_local_dir),
            clients: said(self.clients@),
            opencode_db_paths: said(self.opencode_db_paths@),
            settings_paths: said(self.settings_paths@),
            extra_dirs: said(self.extra_dirs@),
            codex_archive_root: self.codex_archive_root@,
            source_cache_dir: native_of(self.source_cache_dir),
        }
    }
}

/// What items say.
pub open spec fn said<T: View>(items: Seq<T>) -> Seq<T::V> {
    items.map_values(|item: T| item@)
}

/// An item of a list in a descriptor.
trait Item: View + Sized {
    /// How an item is written.
    spec fn written() -> spec_fn(Self::V) -> Seq<u8>;

    /// Whether an item can be written.
    spec fn fits() -> spec_fn(Self::V) -> bool;

    fn write(&self, descriptor: &mut Descriptor) -> (written: Result<(), SourceContextUnavailable>)
        ensures
            written is Ok <==> Self::fits()(self@),
            written is Ok ==> final(descriptor)@ == old(descriptor)@ + Self::written()(self@),
    ;
}

/// Writes a list behind the count of its items.
fn write_list<T: Item>(descriptor: &mut Descriptor, items: &Vec<T>) -> (written: Result<
    (),
    SourceContextUnavailable,
>)
    ensures
        written is Ok <==> writable(said(items@), T::fits()),
        written is Ok ==> final(descriptor)@ == old(descriptor)@ + list_bytes(
            said(items@),
            T::written(),
        ),
{
    let ghost all = said(items@);
    let ghost start = descriptor@;
    assert(all.len() == items@.len());
    if let Err(error) = descriptor.count(items.len()) {
        return Err(error);
    }
    let ghost counted = descriptor@;
    let mut i: usize = 0;
    assert(counted + items_bytes(all.take(0), T::written()) =~= counted);
    while i < items.len()
        invariant
            i <= items@.len(),
            all == said(items@),
            all.len() == items@.len(),
            descriptor@ == counted + items_bytes(all.take(i as int), T::written()),
            forall|j: int| 0 <= j < i ==> T::fits()(#[trigger] all[j]),
        decreases items@.len() - i,
    {
        proof {
            assert(all.take(i + 1).drop_last() =~= all.take(i as int));
            assert(all.take(i + 1).last() == all[i as int]);
            assert(all[i as int] == items@[i as int]@);
        }
        if let Err(error) = items[i].write(descriptor) {
            assert(!T::fits()(all[i as int]));
            return Err(error);
        }
        proof {
            assert(T::fits()(all[i as int]));
            lemma_written_behind(
                counted,
                items_bytes(all.take(i as int), T::written()),
                T::written()(all[i as int]),
            );
        }
        i = i + 1;
    }
    proof {
        assert(all.take(i as int) =~= all);
        lemma_written_behind(start, count_bytes(all.len()), items_bytes(all, T::written()));
    }
    Ok(())
}

impl Item for NativeString {
    spec fn written() -> spec_fn(NativeModel) -> Seq<u8> {
        written_path()
    }

    spec fn fits() -> spec_fn(NativeModel) -> bool {
        path_fits()
    }

    fn write(&self, descriptor: &mut Descriptor) -> (written: Result<(), SourceContextUnavailable>) {
        descriptor.path(self)
    }
}

impl Item for VariableEntry {
    spec fn written() -> spec_fn(DescribedVariable) -> Seq<u8> {
        variable_bytes()
    }

    spec fn fits() -> spec_fn(DescribedVariable) -> bool {
        variable_fits()
    }

    fn write(&self, descriptor: &mut Descriptor) -> (written: Result<(), SourceContextUnavailable>) {
        let ghost start = descriptor@;
        if let Err(error) = descriptor.text(self.key.as_str()) {
            return Err(error);
        }
        descriptor.byte(self.state.tag());
        descriptor.byte(self.resolution.tag());
        if let Err(error) = descriptor.optional_path(&self.path) {
            return Err(error);
        }
        assert(descriptor@ =~= start + variable_bytes()(self@));
        Ok(())
    }
}

impl<'a> Item for ClientEntry<'a> {
    spec fn written() -> spec_fn(DescribedClient) -> Seq<u8> {
        client_bytes()
    }

    spec fn fits() -> spec_fn(DescribedClient) -> bool {
        client_fits()
    }

    fn write(&self, descriptor: &mut Descriptor) -> (written: Result<(), SourceContextUnavailable>) {
        let ghost start = descriptor@;
        let ghost client = self@;
        let ghost mut done = Seq::<Seq<u8>>::empty();
        descriptor.number(self.client.number);
        proof {
            assert(start + done.flatten() =~= start);
            lemma_part_behind(start, done, u32_bytes(client.number));
            done = done.push(u32_bytes(client.number));
        }
        if let Err(error) = descriptor.text(self.client.id.as_str()) {
            return Err(error);
        }
        proof {
            lemma_part_behind(start, done, text_bytes(client.id));
            done = done.push(text_bytes(client.id));
        }
        descriptor.byte(path_root_tag(&self.client.root));
        proof {
            lemma_part_behind(start, done, seq![client.root]);
            done = done.push(seq![client.root]);
        }
        if let Err(error) = descriptor.text(self.client.relative_path.as_str()) {
            return Err(error);
        }
        proof {
            lemma_part_behind(start, done, text_bytes(client.relative_path));
            done = done.push(text_bytes(client.relative_path));
        }
        if let Err(error) = descriptor.text(self.client.pattern.as_str()) {
            return Err(error);
        }
        proof {
            lemma_part_behind(start, done, text_bytes(client.pattern));
            done = done.push(text_bytes(client.pattern));
        }
        if let Err(error) = descriptor.path(&self.path) {
            return Err(error);
        }
        proof {
            lemma_part_behind(start, done, path_bytes(client.path));
            done = done.push(path_bytes(client.path));
            assert(done =~= client_parts(client));
        }
        Ok(())
    }
}

impl Item for PathsEntry {
    spec fn written() -> spec_fn(DescribedPaths) -> Seq<u8> {
        client_paths_bytes()
    }

    spec fn fits() -> spec_fn(DescribedPaths) -> bool {
        paths_fit()
    }

    fn write(&self, descriptor: &mut Descriptor) -> (written: Result<(), SourceContextUnavailable>) {
        let ghost start = descriptor@;
        if let Err(error) = descriptor.text(self.client.as_str()) {
            return Err(error);
        }
        if let Err(error) = write_list(descriptor, &self.paths) {
            return Err(error);
        }
        proof {
            lemma_written_behind(
                start,
                text_bytes(self@.client),
                list_bytes(self@.paths, written_path()),
            );
        }
        Ok(())
    }
}

impl Item for DirEntry {
    spec fn written() -> spec_fn(DescribedDir) -> Seq<u8> {
        dir_bytes()
    }

    spec fn fits() -> spec_fn(DescribedDir) -> bool {
        dir_fits()
    }

    fn write(&self, descriptor: &mut Descriptor) -> (written: Result<(), SourceContextUnavailable>) {
        let ghost start = descriptor@;
        descriptor.number(self.client);
        if let Err(error) = descriptor.path(&self.path) {
            return Err(error);
        }
        proof {
            lemma_written_behind(start, u32_bytes(self.client), path_bytes(self@.path));
        }
        Ok(())
    }
}

impl<'a> Description<'a> {
    /// The descriptor of the configuration.
    pub fn descriptor(&self) -> (bytes: Result<Vec<u8>, SourceContextUnavailable>)
        ensures
            match bytes {
                Ok(bytes) => describable(self@) && bytes@ == descriptor_of(self@),
                Err(_) => !describable(self@),
            },
    {
        let mut descriptor = Descriptor::new();
        if let Err(error) = self.describe_roots(&mut descriptor) {
            return Err(error);
        }
        if let Err(error) = self.describe_clients(&mut descriptor) {
            return Err(error);
        }
        if let Err(error) = self.describe_paths(&mut descriptor) {
            return Err(error);
        }
        assert(Seq::<u8>::empty() + preamble() =~= preamble());
        Ok(descriptor.bytes)
    }

    /// The digest of the descriptor.
    pub fn identity(&self) -> (identity: Result<[u8; 32], SourceContextUnavailable>)
        ensures
            match identity {
                Ok(identity) => describable(self@) && identity@ == sha256_of(descriptor_of(self@)),
                Err(_) => !describable(self@),
            },
    {
        match self.descriptor() {
            Ok(bytes) => Ok(sha256(bytes.as_slice())),
            Err(error) => Err(error),
        }
    }

    /// Writes what every descriptor begins with, and the first part.
    fn describe_roots(&self, descriptor: &mut Descriptor) -> (written: Result<
        (),
        SourceContextUnavailable,
    >)
        ensures
            written is Ok <==> countable(self@.home_dir.len()) && writable(
                self@.variables,
                variable_fits(),
            ),
            written is Ok ==> final(descriptor)@ == old(descriptor)@ + preamble()
                + described_roots(self@),
    {
        let ghost start = descriptor@;
        proof {
            reveal_strlit("tokenbar-source-context");
            is_ascii_chars_encode_utf8(DOMAIN@);
        }
        descriptor.field(1);
        if let Err(error) = descriptor.text(DOMAIN) {
            return Err(error);
        }
        descriptor.field(2);
        descriptor.number(RESOLVER_CONTRACT_VERSION);
        let ghost described = self@;
        let ghost begun = start + preamble();
        let ghost mut done = Seq::<Seq<u8>>::empty();
        assert(descriptor@ =~= begun);
        descriptor.field(3);
        proof {
            assert(begun + done.flatten() =~= begun);
            lemma_part_behind(begun, done, field_mark(3));
            done = done.push(field_mark(3));
        }
        descriptor.byte(target_os_tag(self.os));
        proof {
            lemma_part_behind(begun, done, seq![described.os]);
            done = done.push(seq![described.os]);
        }
        descriptor.field(4);
        proof {
            lemma_part_behind(begun, done, field_mark(4));
            done = done.push(field_mark(4));
        }
        descriptor.flag(self.use_env_roots);
        proof {
            lemma_part_behind(begun, done, root_parts(described)[3]);
            done = done.push(root_parts(described)[3]);
        }
        descriptor.field(5);
        proof {
            lemma_part_behind(begun, done, field_mark(5));
            done = done.push(field_mark(5));
        }
        if let Err(error) = descriptor.path(&self.home_dir) {
            return Err(error);
        }
        proof {
            lemma_part_behind(begun, done, path_bytes(described.home_dir));
            done = done.push(path_bytes(described.home_dir));
        }
        descriptor.field(6);
        proof {
            lemma_part_behind(begun, done, field_mark(6));
            done = done.push(field_mark(6));
        }
        if let Err(error) = write_list(descriptor, &self.variables) {
            return Err(error);
        }
        proof {
            let variables = list_bytes(described.variables, variable_bytes());
            lemma_part_behind(begun, done, variables);
            done = done.push(variables);
            assert(done =~= root_parts(described));
        }
        Ok(())
    }

    /// Writes the second part of the descriptor.
    fn describe_clients(&self, descriptor: &mut Descriptor) -> (written: Result<
        (),
        SourceContextUnavailable,
    >)
        ensures
            written is Ok <==> optional_fits(self@.platform_config_dir) && optional_fits(
                self@.platform_data_local_dir,
            ) && writable(self@.clients, client_fits()),
            written is Ok ==> final(descriptor)@ == old(descriptor)@ + described_clients(self@),
    {
        let ghost start = descriptor@;
        let ghost described = self@;
        let ghost mut done = Seq::<Seq<u8>>::empty();
        descriptor.field(7);
        proof {
            assert(start + done.flatten() =~= start);
            lemma_part_behind(start, done, field_mark(7));
            done = done.push(field_mark(7));
        }
        if let Err(error) = descriptor.optional_path(&self.platform_config_dir) {
            return Err(error);
        }
        proof {
            lemma_part_behind(start, done, optional_path_bytes(described.platform_config_dir));
            done = done.push(optional_path_bytes(described.platform_config_dir));
        }
        descriptor.field(8);
        proof {
            lemma_part_behind(start, done, field_mark(8));
            done = done.push(field_mark(8));
        }
        if let Err(error) = descriptor.optional_path(&self.platform_data_local_dir) {
            return Err(error);
        }
        proof {
            lemma_part_behind(start, done, optional_path_bytes(described.platform_data_local_dir));
            done = done.push(optional_path_bytes(described.platform_data_local_dir));
        }
        descriptor.field(9);
        proof {
            lemma_part_behind(start, done, field_mark(9));
            done = done.push(field_mark(9));
        }
        if let Err(error) = write_list(descriptor, &self.clients) {
            return Err(error);
        }
        proof {
            let clients = list_bytes(described.clients, client_bytes());
            lemma_part_behind(start, done, clients);
            done = done.push(clients);
            assert(done =~= platform_parts(described));
        }
        Ok(())
    }

    /// Writes the last part of the descriptor.
    fn describe_paths(&self, descriptor: &mut Descriptor) -> (written: Result<
        (),
        SourceContextUnavailable,
    >)
        ensures
            written is Ok <==> writable(self@.opencode_db_paths, path_fits()) && writable(
                self@.settings_paths,
                paths_fit(),
            ) && writable(self@.extra_dirs, dir_fits()) && countable(
                self@.codex_archive_root.len(),
            ) && optional_fits(self@.source_cache_dir),
            written is Ok ==> final(descriptor)@ == old(descriptor)@ + described_paths(self@),
    {
        let ghost start = descriptor@;
        let ghost described = self@;
        let ghost mut done = Seq::<Seq<u8>>::empty();
        descriptor.field(10);
        proof {
            assert(start + done.flatten() =~= start);
            lemma_part_behind(start, done, field_mark(10));
            done = done.push(field_mark(10));
        }
        if let Err(error) = write_list(descriptor, &self.opencode_db_paths) {
            return Err(error);
        }
        proof {
            lemma_part_behind(start, done, list_bytes(described.opencode_db_paths, written_path()));
            done = done.push(list_bytes(described.opencode_db_paths, written_path()));
        }
        descriptor.field(11);
        proof {
            lemma_part_behind(start, done, field_mark(11));
            done = done.push(field_mark(11));
        }
        if let Err(error) = write_list(descriptor, &self.settings_paths) {
            return Err(error);
        }
        proof {
            lemma_part_behind(
                start,
                done,
                list_bytes(described.settings_paths, client_paths_bytes()),
            );
            done = done.push(list_bytes(described.settings_paths, client_paths_bytes()));
        }
        descriptor.field(12);
        proof {
            lemma_part_behind(start, done, field_mark(12));
            done = done.push(field_mark(12));
        }
        if let Err(error) = write_list(descriptor, &self.extra_dirs) {
            return Err(error);
        }
        proof {
            lemma_part_behind(start, done, list_bytes(described.extra_dirs, dir_bytes()));
            done = done.push(list_bytes(described.extra_dirs, dir_bytes()));
        }
        descriptor.field(13);
        proof {
            lemma_part_behind(start, done, field_mark(13));
            done = done.push(field_mark(13));
        }
        if let Err(error) = descriptor.path(&self.codex_archive_root) {
            return Err(error);
        }
        proof {
            lemma_part_behind(start, done, path_bytes(described.codex_archive_root));
            done = done.push(path_bytes(described.codex_archive_root));
        }
        descriptor.field(14);
        proof {
            lemma_part_behind(start, done, field_mark(14));
            done = done.push(field_mark(14));
        }
        if let Err(error) = descriptor.optional_path(&self.source_cache_dir) {
            return Err(error);
        }
        proof {
            lemma_part_behind(start, done, optional_path_bytes(described.source_cache_dir));
            done = done.push(optional_path_bytes(described.source_cache_dir));
            assert(done =~= path_parts(described));
        }
        Ok(())
    }
}

/// A description says what its fields hold, each in its place and each list in its order.
pub proof fn lemma_a_description_says_its_fields(description: Description)
    ensures
        description@.os == os_code(description.os),
        description@.use_env_roots == description.use_env_roots,
        description@.home_dir == description.home_dir@,
        description@.codex_archive_root == description.codex_archive_root@,
        is_said(description.platform_config_dir, description@.platform_config_dir),
        is_said(description.platform_data_local_dir, description@.platform_data_local_dir),
        is_said(description.source_cache_dir, description@.source_cache_dir),
        description@.variables.len() == description.variables@.len(),
        description@.clients.len() == description.clients@.len(),
        description@.opencode_db_paths.len() == description.opencode_db_paths@.len(),
        description@.settings_paths.len() == description.settings_paths@.len(),
        description@.extra_dirs.len() == description.extra_dirs@.len(),
        forall|i: int|
            0 <= i < description.variables@.len() ==> {
                let entry = description.variables@[i];
                let variable = #[trigger] description@.variables[i];
                &&& variable.key == entry.key@
                &&& variable.state == entry.state.code()
                &&& variable.resolution == entry.resolution.code()
                &&& is_said(entry.path, variable.path)
            },
        forall|i: int|
            0 <= i < description.clients@.len() ==> {
                let entry = description.clients@[i];
                let client = #[trigger] description@.clients[i];
                &&& client.number == entry.client.number
                &&& client.id == entry.client.id@
                &&& client.root == root_code(entry.client.root)
                &&& client.relative_path == entry.client.relative_path@
                &&& client.pattern == entry.client.pattern@
                &&& client.path == entry.path@
            },
        forall|i: int|
            0 <= i < description.opencode_db_paths@.len() ==> (
            #[trigger] description@.opencode_db_paths[i]) == description.opencode_db_paths@[i]@,
        forall|i: int|
            0 <= i < description.settings_paths@.len() ==> {
                let entry = description.settings_paths@[i];
                let paths = #[trigger] description@.settings_paths[i];
                &&& paths.client == entry.client@
                &&& paths.paths.len() == entry.paths@.len()
                &&& forall|j: int|
                    0 <= j < entry.paths@.len() ==> (#[trigger] paths.paths[j]) == entry.paths@[j]@
            },
        forall|i: int|
            0 <= i < description.extra_dirs@.len() ==> {
                let dir = #[trigger] description@.extra_dirs[i];
                &&& dir.client == description.extra_dirs@[i].client
                &&& dir.path == description.extra_dirs@[i].path@
            },
{
}

/// Whether an optional string of the host is said.
pub open spec fn is_said(string: Option<NativeString>, said: Option<NativeModel>) -> bool {
    match string {
        Some(string) => said == Some(string@),
        None => said is None,
    }
}

} // verus!
