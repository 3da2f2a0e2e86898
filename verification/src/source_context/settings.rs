//! The scanner's own configuration.
use vstd::prelude::*;

use crate::ordered::text_before;
use crate::source_context::catalog::ascending;
use crate::source_context::paths::{fully_qualified, joined};

verus! {

/// Further paths to scan for a client.
#[derive(Debug, PartialEq, Eq)]
pub struct ClientPaths {
    pub client: String,
    pub paths: Vec<Vec<u8>>,
}

/// What a user has set for the scanner, the clients in the order of their names.
#[derive(Debug, PartialEq, Eq)]
pub struct ScannerSettings {
    pub opencode_db_paths: Vec<Vec<u8>>,
    pub extra_scan_paths: Vec<ClientPaths>,
}

/// A list of paths as bytes.
pub open spec fn paths_of(paths: Seq<Vec<u8>>) -> Seq<Seq<u8>> {
    paths.map_values(|path: Vec<u8>| path@)
}

/// Further paths to scan for a client, as bytes.
pub ghost struct ClientPathsModel {
    pub client: Seq<char>,
    pub paths: Seq<Seq<u8>>,
}

/// Scanner settings with texts as characters and paths as bytes.
pub ghost struct SettingsModel {
    pub opencode_db_paths: Seq<Seq<u8>>,
    pub extra_scan_paths: Seq<ClientPathsModel>,
}

/// The clients of entries.
pub open spec fn clients_of(entries: Seq<ClientPathsModel>) -> Seq<Seq<char>> {
    entries.map_values(|entry: ClientPathsModel| entry.client)
}

impl SettingsModel {
    /// Settings have one entry for each client, in the order of their names.
    pub open spec fn wf(self) -> bool {
        ascending(clients_of(self.extra_scan_paths))
    }

    /// What is set for a client.
    pub open spec fn paths_for(self, client: Seq<char>) -> Option<Seq<Seq<u8>>> {
        let clients = clients_of(self.extra_scan_paths);
        if clients.contains(client) {
            Some(self.extra_scan_paths[clients.index_of(client)].paths)
        } else {
            None
        }
    }
}

impl View for ClientPaths {
    type V = ClientPathsModel;

    open spec fn view(&self) -> ClientPathsModel {
        ClientPathsModel { client: self.client@, paths: paths_of(self.paths@) }
    }
}

impl View for ScannerSettings {
    type V = SettingsModel;

    open spec fn view(&self) -> SettingsModel {
        SettingsModel {
            opencode_db_paths: paths_of(self.opencode_db_paths@),
            extra_scan_paths: self.extra_scan_paths@.map_values(|entry: ClientPaths| entry@),
        }
    }
}

/// The paths of a list, qualified by the working directory.
pub open spec fn qualified_paths(cwd: Seq<u8>, paths: Seq<Seq<u8>>) -> Seq<Seq<u8>> {
    paths.map_values(|path: Seq<u8>| joined(cwd, path))
}

/// The paths of a list that are not empty, qualified by the working directory.
pub open spec fn scan_paths(cwd: Seq<u8>, paths: Seq<Seq<u8>>) -> Seq<Seq<u8>>
    decreases paths.len(),
{
    if paths.len() == 0 {
        Seq::empty()
    } else {
        let earlier = scan_paths(cwd, paths.drop_last());
        if paths.last().len() == 0 {
            earlier
        } else {
            earlier.push(joined(cwd, paths.last()))
        }
    }
}

/// The clients that have paths to scan, with these paths.
pub open spec fn scan_entries(cwd: Seq<u8>, entries: Seq<ClientPathsModel>) -> Seq<ClientPathsModel>
    decreases entries.len(),
{
    if entries.len() == 0 {
        Seq::empty()
    } else {
        let earlier = scan_entries(cwd, entries.drop_last());
        let paths = scan_paths(cwd, entries.last().paths);
        if paths.len() == 0 {
            earlier
        } else {
            earlier.push(ClientPathsModel { client: entries.last().client, paths })
        }
    }
}

proof fn lemma_scan_entries_in_order(cwd: Seq<u8>, entries: Seq<ClientPathsModel>)
    requires
        ascending(clients_of(entries)),
    ensures
        ascending(clients_of(scan_entries(cwd, entries))),
        forall|i: int|
            0 <= i < scan_entries(cwd, entries).len() ==> clients_of(entries).contains(
                (#[trigger] scan_entries(cwd, entries)[i]).client,
            ),
    decreases entries.len(),
{
    if entries.len() > 0 {
        let before = entries.drop_last();
        let clients = clients_of(entries);
        let last = entries.len() - 1;
        assert(clients_of(before) =~= clients.drop_last());
        lemma_scan_entries_in_order(cwd, before);
        let earlier = scan_entries(cwd, before);
        let all = scan_entries(cwd, entries);
        assert(clients[last] == entries.last().client);
        assert forall|i: int| 0 <= i < all.len() implies clients.contains(
            (#[trigger] all[i]).client,
        ) && (i < earlier.len() && earlier.len() < all.len() ==> text_before(
            all[i].client,
            clients[last],
        )) by {
            if i < earlier.len() {
                assert(all[i] == earlier[i]);
                let at = clients_of(before).index_of(earlier[i].client);
                assert(clients[at] == earlier[i].client);
            }
        }
        let kept = clients_of(all);
        assert forall|i: int, j: int| 0 <= i < j < kept.len() implies text_before(
            #[trigger] kept[i],
            #[trigger] kept[j],
        ) by {
            assert(kept[i] == all[i].client && kept[j] == all[j].client);
            if j < earlier.len() {
                assert(clients_of(earlier)[i] == kept[i] && clients_of(earlier)[j] == kept[j]);
            }
        }
    }
}

/// Settings as a resolution takes them.
pub open spec fn resolved_settings(cwd: Seq<u8>, settings: SettingsModel) -> SettingsModel {
    SettingsModel {
        opencode_db_paths: qualified_paths(cwd, settings.opencode_db_paths),
        extra_scan_paths: scan_entries(cwd, settings.extra_scan_paths),
    }
}

fn resolve_paths(cwd: &[u8], paths: &Vec<Vec<u8>>) -> (resolved: Vec<Vec<u8>>)
    ensures
        paths_of(resolved@) == qualified_paths(cwd@, paths_of(paths@)),
{
    let mut resolved: Vec<Vec<u8>> = Vec::new();
    let mut i: usize = 0;
    while i < paths.len()
        invariant
            i <= paths@.len(),
            resolved@.len() == i,
            forall|j: int| 0 <= j < i ==> (#[trigger] resolved@[j])@ == joined(cwd@, paths@[j]@),
        decreases paths@.len() - i,
    {
        resolved.push(fully_qualified(cwd, paths[i].as_slice()));
        i = i + 1;
    }
    assert(paths_of(resolved@) =~= qualified_paths(cwd@, paths_of(paths@)));
    resolved
}

fn resolve_scan_paths(cwd: &[u8], paths: &Vec<Vec<u8>>) -> (resolved: Vec<Vec<u8>>)
    ensures
        paths_of(resolved@) == scan_paths(cwd@, paths_of(paths@)),
{
    let ghost given = paths_of(paths@);
    let mut resolved: Vec<Vec<u8>> = Vec::new();
    let mut i: usize = 0;
    assert(paths_of(resolved@) =~= scan_paths(cwd@, given.take(0)));
    while i < paths.len()
        invariant
            i <= paths@.len(),
            given == paths_of(paths@),
            paths_of(resolved@) == scan_paths(cwd@, given.take(i as int)),
        decreases paths@.len() - i,
    {
        let ghost before = resolved@;
        proof {
            assert(given.take(i + 1).drop_last() =~= given.take(i as int));
            assert(given.take(i + 1).last() == paths@[i as int]@);
        }
        if paths[i].len() > 0 {
            let path = fully_qualified(cwd, paths[i].as_slice());
            resolved.push(path);
            assert(paths_of(resolved@) =~= paths_of(before).push(path@));
        }
        i = i + 1;
    }
    assert(given.take(i as int) =~= given);
    resolved
}

/// Resolves the scanner's settings: relative paths belong to the working directory, and an empty
/// path counts as none.
pub fn resolve_scanner_settings(cwd: &[u8], settings: &ScannerSettings) -> (resolved:
    ScannerSettings)
    ensures
        resolved@ == resolved_settings(cwd@, settings@),
        settings@.wf() ==> resolved@.wf(),
{
    proof {
        if settings@.wf() {
            lemma_scan_entries_in_order(cwd@, settings@.extra_scan_paths);
        }
    }
    let opencode_db_paths = resolve_paths(cwd, &settings.opencode_db_paths);
    let ghost given = settings@.extra_scan_paths;
    let mut extra_scan_paths: Vec<ClientPaths> = Vec::new();
    let mut i: usize = 0;
    assert(extra_scan_paths@.map_values(|entry: ClientPaths| entry@) =~= scan_entries(
        cwd@,
        given.take(0),
    ));
    while i < settings.extra_scan_paths.len()
        invariant
            i <= settings.extra_scan_paths@.len(),
            given == settings@.extra_scan_paths,
            extra_scan_paths@.map_values(|entry: ClientPaths| entry@) == scan_entries(
                cwd@,
                given.take(i as int),
            ),
        decreases settings.extra_scan_paths@.len() - i,
    {
        let entry = &settings.extra_scan_paths[i];
        let ghost before = extra_scan_paths@.map_values(|entry: ClientPaths| entry@);
        proof {
            assert(given.take(i + 1).drop_last() =~= given.take(i as int));
            assert(given.take(i + 1).last() == entry@);
        }
        let paths = resolve_scan_paths(cwd, &entry.paths);
        assert(paths_of(paths@).len() == paths@.len());
        if paths.len() > 0 {
            let kept = ClientPaths { client: entry.client.clone(), paths };
            extra_scan_paths.push(kept);
            assert(extra_scan_paths@.map_values(|entry: ClientPaths| entry@) =~= before.push(
                kept@,
            ));
        }
        i = i + 1;
    }
    assert(given.take(i as int) =~= given);
    ScannerSettings { opencode_db_paths, extra_scan_paths }
}

// ---------------------------------------------------------------------------
// Laws
// ---------------------------------------------------------------------------
/// The paths of a client are those that are not empty, in their order, each qualified by the
/// working directory.
pub proof fn lemma_paths_to_scan(cwd: Seq<u8>, paths: Seq<Seq<u8>>)
    ensures
        scan_paths(cwd, paths) == paths.filter(|path: Seq<u8>| path.len() > 0).map_values(
            |path: Seq<u8>| joined(cwd, path),
        ),
    decreases paths.len(),
{
    reveal(Seq::filter);
    let taken = paths.filter(|path: Seq<u8>| path.len() > 0);
    let all = taken.map_values(|path: Seq<u8>| joined(cwd, path));
    if paths.len() > 0 {
        let before = paths.drop_last();
        let earlier = before.filter(|path: Seq<u8>| path.len() > 0);
        lemma_paths_to_scan(cwd, before);
        if paths.last().len() > 0 {
            assert(taken == earlier.push(paths.last()));
            assert(all =~= earlier.map_values(|path: Seq<u8>| joined(cwd, path)).push(
                joined(cwd, paths.last()),
            ));
        } else {
            assert(taken == earlier);
        }
    } else {
        assert(all =~= Seq::empty());
    }
}

/// A client stays in the settings where it has paths to scan, with these paths, and the clients
/// keep their order. No other client comes in.
pub proof fn lemma_clients_to_scan(cwd: Seq<u8>, entries: Seq<ClientPathsModel>)
    ensures
        scan_entries(cwd, entries) == entries.map_values(
            |entry: ClientPathsModel|
                ClientPathsModel { client: entry.client, paths: scan_paths(cwd, entry.paths) },
        ).filter(|entry: ClientPathsModel| entry.paths.len() > 0),
    decreases entries.len(),
{
    reveal(Seq::filter);
    let resolved = entries.map_values(
        |entry: ClientPathsModel|
            ClientPathsModel { client: entry.client, paths: scan_paths(cwd, entry.paths) },
    );
    if entries.len() > 0 {
        let before = entries.drop_last();
        lemma_clients_to_scan(cwd, before);
        assert(resolved.drop_last() =~= before.map_values(
            |entry: ClientPathsModel|
                ClientPathsModel { client: entry.client, paths: scan_paths(cwd, entry.paths) },
        ));
    }
}

/// Resolved settings have every path of the first list, an empty one included, qualified and in
/// its place.
pub proof fn lemma_resolved_database_paths(cwd: Seq<u8>, settings: SettingsModel)
    ensures
        resolved_settings(cwd, settings).opencode_db_paths.len()
            == settings.opencode_db_paths.len(),
        forall|i: int|
            0 <= i < settings.opencode_db_paths.len() ==> #[trigger] resolved_settings(
                cwd,
                settings,
            ).opencode_db_paths[i] == joined(cwd, settings.opencode_db_paths[i]),
        resolved_settings(cwd, settings).extra_scan_paths == scan_entries(
            cwd,
            settings.extra_scan_paths,
        ),
{
}

/// Settings say what their fields hold, each list in its order.
pub proof fn lemma_settings_say_their_fields(settings: ScannerSettings)
    ensures
        settings@.opencode_db_paths.len() == settings.opencode_db_paths@.len(),
        forall|i: int|
            0 <= i < settings.opencode_db_paths@.len() ==> (
            #[trigger] settings@.opencode_db_paths[i]) == settings.opencode_db_paths@[i]@,
        settings@.extra_scan_paths.len() == settings.extra_scan_paths@.len(),
        forall|i: int|
            0 <= i < settings.extra_scan_paths@.len() ==> {
                let given = settings.extra_scan_paths@[i];
                let entry = #[trigger] settings@.extra_scan_paths[i];
                &&& entry.client == given.client@
                &&& entry.paths.len() == given.paths@.len()
                &&& forall|j: int|
                    0 <= j < given.paths@.len() ==> (#[trigger] entry.paths[j]) == given.paths@[j]@
            },
{
}

} // verus!
