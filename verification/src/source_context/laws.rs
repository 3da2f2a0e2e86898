//! What holds of every source context.
use vstd::prelude::*;
use vstd::utf8::*;

use crate::ordered::{
    lemma_bytes_irreflexive, lemma_bytes_transitive, text_before, SortedTable,
};
use crate::source_context::catalog::{
    ascending, ClientDef, PathRoot, SourceCatalog, TargetOs, UnixOs, ENV_CODEX_HOME, ENV_HOME,
    ENV_TOKSCALE_CONFIG_DIR, ENV_TOKSCALE_EXTRA_DIRS, ENV_TOKSCALE_PRICING_CACHE_ONLY,
    ENV_XDG_CONFIG_HOME, ENV_XDG_DATA_HOME, ENV_XDG_RUNTIME_DIR,
};
use crate::source_context::context::{
    described_dir, described_entry, described_list, described_variable, keys_of, non_empty,
    variable_of, CaptureModel, ContextModel, VariableModel,
};
use crate::source_context::descriptor::{
    count_bytes, countable, counted, lemma_written_behind, optional_path_bytes, path_bytes,
    text_bytes, u32_bytes, units_bytes, NativeModel,
};
use crate::source_context::environment::{
    resolved_value, resolves, ResolutionModel, ResolvedModel, ResolvedPathInput,
};
use crate::source_context::identity::{
    client_bytes, client_fits, client_parts, client_paths_bytes, describable, described_clients,
    described_paths, described_roots, descriptor_of, dir_bytes, dir_fits, items_bytes, list_bytes,
    optional_fits, path_fits, path_parts, paths_fit, platform_parts, preamble, root_parts,
    text_fits, variable_bytes, variable_fits, writable, written_path, Described, DescribedClient,
    DescribedDir, DescribedPaths, DescribedVariable,
};
use crate::source_context::inputs::{unicode, InputState, SourceResolutionInputs};
use crate::source_context::paths::{is_absolute, lemma_joined_absolute};
use crate::source_context::places::ignores_no_text;
use crate::source_context::settings::{
    clients_of, resolved_settings, scan_entries, scan_paths, ClientPathsModel, SettingsModel,
};

verus! {

// ---------------------------------------------------------------------------
// Descriptors say one thing
// ---------------------------------------------------------------------------
/// What follows the first parts of a list of parts, and then something else.
spec fn rest(parts: Seq<Seq<u8>>, at: int, x: Seq<u8>) -> Seq<u8> {
    parts.skip(at).flatten() + x
}

proof fn lemma_rest(parts: Seq<Seq<u8>>, at: int, x: Seq<u8>)
    requires
        0 <= at < parts.len(),
    ensures
        rest(parts, at, x) == parts[at] + rest(parts, at + 1, x),
{
    assert(parts.skip(at).drop_first() =~= parts.skip(at + 1));
    assert(rest(parts, at, x) =~= parts[at] + rest(parts, at + 1, x));
}

proof fn lemma_last_rest(parts: Seq<Seq<u8>>, x: Seq<u8>)
    ensures
        rest(parts, parts.len() as int, x) == x,
{
    assert(parts.skip(parts.len() as int) =~= Seq::<Seq<u8>>::empty());
    assert(rest(parts, parts.len() as int, x) =~= x);
}

/// Two lists of parts that are written alike are, from their first part on.
proof fn lemma_begin(p: Seq<Seq<u8>>, q: Seq<Seq<u8>>, x: Seq<u8>, y: Seq<u8>)
    requires
        p.flatten() + x == q.flatten() + y,
    ensures
        rest(p, 0, x) == rest(q, 0, y),
        rest(p, p.len() as int, x) == x,
        rest(q, q.len() as int, y) == y,
{
    assert(p.skip(0) =~= p);
    assert(q.skip(0) =~= q);
    lemma_last_rest(p, x);
    lemma_last_rest(q, y);
}

/// Two lists of parts that are written alike from some part on: that part comes first in both.
proof fn lemma_peel(p: Seq<Seq<u8>>, q: Seq<Seq<u8>>, at: int, x: Seq<u8>, y: Seq<u8>)
    requires
        0 <= at < p.len(),
        0 <= at < q.len(),
        rest(p, at, x) == rest(q, at, y),
    ensures
        p[at] + rest(p, at + 1, x) == q[at] + rest(q, at + 1, y),
{
    lemma_rest(p, at, x);
    lemma_rest(q, at, y);
}

/// Two lists of parts that are written alike from some part on agree in it, where it is equally
/// long in both.
proof fn lemma_peel_equal(p: Seq<Seq<u8>>, q: Seq<Seq<u8>>, at: int, x: Seq<u8>, y: Seq<u8>)
    requires
        0 <= at < p.len(),
        0 <= at < q.len(),
        p[at].len() == q[at].len(),
        rest(p, at, x) == rest(q, at, y),
    ensures
        p[at] == q[at],
        rest(p, at + 1, x) == rest(q, at + 1, y),
{
    lemma_peel(p, q, at, x, y);
    lemma_strip(p[at], q[at], rest(p, at + 1, x), rest(q, at + 1, y));
}

proof fn lemma_strip(p: Seq<u8>, q: Seq<u8>, x: Seq<u8>, y: Seq<u8>)
    requires
        p.len() == q.len(),
        p + x == q + y,
    ensures
        p == q,
        x == y,
{
    assert((p + x).take(p.len() as int) =~= p);
    assert((q + y).take(p.len() as int) =~= q);
    assert((p + x).skip(p.len() as int) =~= x);
    assert((q + y).skip(p.len() as int) =~= y);
}

proof fn lemma_u32_prefix(a: u32, b: u32, x: Seq<u8>, y: Seq<u8>)
    requires
        u32_bytes(a) + x == u32_bytes(b) + y,
    ensures
        a == b,
        x == y,
{
    lemma_strip(u32_bytes(a), u32_bytes(b), x, y);
    let p = u32_bytes(a);
    let q = u32_bytes(b);
    assert(p[0] == q[0] && p[1] == q[1] && p[2] == q[2] && p[3] == q[3]);
}

proof fn lemma_counted_prefix(a: Seq<u8>, b: Seq<u8>, x: Seq<u8>, y: Seq<u8>)
    requires
        countable(a.len()),
        countable(b.len()),
        counted(a) + x == counted(b) + y,
    ensures
        a == b,
        x == y,
{
    assert(counted(a) + x =~= count_bytes(a.len()) + (a + x));
    assert(counted(b) + y =~= count_bytes(b.len()) + (b + y));
    lemma_u32_prefix(a.len() as u32, b.len() as u32, a + x, b + y);
    lemma_strip(a, b, x, y);
}

proof fn lemma_text_prefix(a: Seq<char>, b: Seq<char>, x: Seq<u8>, y: Seq<u8>)
    requires
        text_fits(a),
        text_fits(b),
        text_bytes(a) + x == text_bytes(b) + y,
    ensures
        a == b,
        x == y,
{
    lemma_counted_prefix(encode_utf8(a), encode_utf8(b), x, y);
    encode_utf8_decode_utf8(a);
    encode_utf8_decode_utf8(b);
}

proof fn lemma_units_length(units: Seq<u16>)
    ensures
        units_bytes(units).len() == 2 * units.len(),
    decreases units.len(),
{
    if units.len() > 0 {
        lemma_units_length(units.drop_last());
    }
}

proof fn lemma_units_apart(a: Seq<u16>, b: Seq<u16>)
    requires
        units_bytes(a) == units_bytes(b),
    ensures
        a == b,
    decreases a.len(),
{
    lemma_units_length(a);
    lemma_units_length(b);
    if a.len() > 0 {
        let x = units_bytes(a);
        let y = units_bytes(b);
        lemma_units_length(a.drop_last());
        lemma_units_length(b.drop_last());
        assert(x.take(x.len() - 2) =~= units_bytes(a.drop_last()));
        assert(y.take(y.len() - 2) =~= units_bytes(b.drop_last()));
        lemma_units_apart(a.drop_last(), b.drop_last());
        assert(x[x.len() - 2] == (a.last() / 0x100) as u8 && x[x.len() - 1] == (a.last()
            % 0x100) as u8);
        assert(y[y.len() - 2] == (b.last() / 0x100) as u8 && y[y.len() - 1] == (b.last()
            % 0x100) as u8);
        assert(a.last() == b.last());
        assert(a =~= a.drop_last().push(a.last()));
        assert(b =~= b.drop_last().push(b.last()));
    } else {
        assert(a =~= b);
    }
}

proof fn lemma_path_prefix(a: NativeModel, b: NativeModel, x: Seq<u8>, y: Seq<u8>)
    requires
        countable(a.len()),
        countable(b.len()),
        path_bytes(a) + x == path_bytes(b) + y,
    ensures
        a == b,
        x == y,
{
    let mark_a = seq![1u8, a.kind()];
    let mark_b = seq![1u8, b.kind()];
    let body_a = a.body() + x;
    let body_b = b.body() + y;
    assert(path_bytes(a) + x =~= mark_a + (count_bytes(a.len()) + body_a));
    assert(path_bytes(b) + y =~= mark_b + (count_bytes(b.len()) + body_b));
    lemma_strip(mark_a, mark_b, count_bytes(a.len()) + body_a, count_bytes(b.len()) + body_b);
    assert(mark_a[1] == mark_b[1]);
    lemma_u32_prefix(a.len() as u32, b.len() as u32, body_a, body_b);
    if let NativeModel::Units(units) = a {
        lemma_units_length(units);
        lemma_units_length(b->Units_0);
        lemma_strip(a.body(), b.body(), x, y);
        lemma_units_apart(units, b->Units_0);
    } else {
        lemma_strip(a.body(), b.body(), x, y);
    }
}

proof fn lemma_optional_prefix(
    a: Option<NativeModel>,
    b: Option<NativeModel>,
    x: Seq<u8>,
    y: Seq<u8>,
)
    requires
        optional_fits(a),
        optional_fits(b),
        optional_path_bytes(a) + x == optional_path_bytes(b) + y,
    ensures
        a == b,
        x == y,
{
    let p = optional_path_bytes(a) + x;
    let q = optional_path_bytes(b) + y;
    assert(p[0] == q[0]);
    assert(p[0] == optional_path_bytes(a)[0]);
    assert(q[0] == optional_path_bytes(b)[0]);
    if a is Some {
        assert(p =~= seq![1u8] + (path_bytes(a->0) + x));
        assert(q =~= seq![1u8] + (path_bytes(b->0) + y));
        lemma_strip(seq![1u8], seq![1u8], path_bytes(a->0) + x, path_bytes(b->0) + y);
        lemma_path_prefix(a->0, b->0, x, y);
    } else {
        lemma_strip(seq![0u8], seq![0u8], x, y);
    }
}

/// Whether what is written by a rule can be told from what follows it.
spec fn prefix_free<A>(write: spec_fn(A) -> Seq<u8>, fits: spec_fn(A) -> bool) -> bool {
    forall|p: A, q: A, x: Seq<u8>, y: Seq<u8>|
        fits(p) && fits(q) && #[trigger] (write(p) + x) == #[trigger] (write(q) + y) ==> p == q && x
            == y
}

proof fn lemma_items_front<A>(items: Seq<A>, write: spec_fn(A) -> Seq<u8>)
    requires
        items.len() > 0,
    ensures
        items_bytes(items, write) == write(items[0]) + items_bytes(items.drop_first(), write),
    decreases items.len(),
{
    let rest = items.drop_first();
    if items.len() == 1 {
        assert(items_bytes(items.drop_last(), write) =~= Seq::<u8>::empty());
        assert(items_bytes(rest, write) =~= Seq::<u8>::empty());
        assert(items_bytes(items, write) =~= write(items[0]) + items_bytes(rest, write));
    } else {
        lemma_items_front(items.drop_last(), write);
        assert(items.drop_last().drop_first() =~= rest.drop_last());
        assert(items_bytes(items, write) =~= write(items[0]) + items_bytes(rest, write));
    }
}

proof fn lemma_items_prefix<A>(
    a: Seq<A>,
    b: Seq<A>,
    write: spec_fn(A) -> Seq<u8>,
    fits: spec_fn(A) -> bool,
    x: Seq<u8>,
    y: Seq<u8>,
)
    requires
        prefix_free(write, fits),
        a.len() == b.len(),
        forall|i: int| 0 <= i < a.len() ==> fits(#[trigger] a[i]),
        forall|i: int| 0 <= i < b.len() ==> fits(#[trigger] b[i]),
        items_bytes(a, write) + x == items_bytes(b, write) + y,
    ensures
        a == b,
        x == y,
    decreases a.len(),
{
    if a.len() == 0 {
        assert(items_bytes(a, write) + x =~= x);
        assert(items_bytes(b, write) + y =~= y);
        assert(a =~= b);
    } else {
        lemma_items_front(a, write);
        lemma_items_front(b, write);
        let rest_a = items_bytes(a.drop_first(), write) + x;
        let rest_b = items_bytes(b.drop_first(), write) + y;
        assert(items_bytes(a, write) + x =~= write(a[0]) + rest_a);
        assert(items_bytes(b, write) + y =~= write(b[0]) + rest_b);
        assert(fits(a[0]) && fits(b[0]));
        assert(a[0] == b[0] && rest_a == rest_b);
        lemma_items_prefix(a.drop_first(), b.drop_first(), write, fits, x, y);
        assert(a =~= seq![a[0]] + a.drop_first());
        assert(b =~= seq![b[0]] + b.drop_first());
    }
}

proof fn lemma_list_prefix<A>(
    a: Seq<A>,
    b: Seq<A>,
    write: spec_fn(A) -> Seq<u8>,
    fits: spec_fn(A) -> bool,
    x: Seq<u8>,
    y: Seq<u8>,
)
    requires
        prefix_free(write, fits),
        writable(a, fits),
        writable(b, fits),
        list_bytes(a, write) + x == list_bytes(b, write) + y,
    ensures
        a == b,
        x == y,
{
    assert(list_bytes(a, write) + x =~= count_bytes(a.len()) + (items_bytes(a, write) + x));
    assert(list_bytes(b, write) + y =~= count_bytes(b.len()) + (items_bytes(b, write) + y));
    lemma_u32_prefix(
        a.len() as u32,
        b.len() as u32,
        items_bytes(a, write) + x,
        items_bytes(b, write) + y,
    );
    lemma_items_prefix(a, b, write, fits, x, y);
}

proof fn lemma_variables_prefix_free()
    ensures
        prefix_free(variable_bytes(), variable_fits()),
{
    assert forall|p: DescribedVariable, q: DescribedVariable, x: Seq<u8>, y: Seq<u8>|
        variable_fits()(p) && variable_fits()(q) && #[trigger] (variable_bytes()(p) + x)
            == #[trigger] (variable_bytes()(q) + y) implies p == q && x == y by {
        let tags_p = seq![p.state, p.resolution];
        let tags_q = seq![q.state, q.resolution];
        let end_p = optional_path_bytes(p.path) + x;
        let end_q = optional_path_bytes(q.path) + y;
        assert(variable_bytes()(p) + x =~= text_bytes(p.key) + (tags_p + end_p));
        assert(variable_bytes()(q) + y =~= text_bytes(q.key) + (tags_q + end_q));
        lemma_text_prefix(p.key, q.key, tags_p + end_p, tags_q + end_q);
        lemma_strip(tags_p, tags_q, end_p, end_q);
        assert(tags_p[0] == tags_q[0] && tags_p[1] == tags_q[1]);
        lemma_optional_prefix(p.path, q.path, x, y);
    }
}

proof fn lemma_clients_prefix_free()
    ensures
        prefix_free(client_bytes(), client_fits()),
{
    assert forall|p: DescribedClient, q: DescribedClient, x: Seq<u8>, y: Seq<u8>|
        client_fits()(p) && client_fits()(q) && #[trigger] (client_bytes()(p) + x) == #[trigger] (
        client_bytes()(q) + y) implies p == q && x == y by {
        let a = client_parts(p);
        let b = client_parts(q);
        lemma_begin(a, b, x, y);
        lemma_peel(a, b, 0, x, y);
        lemma_u32_prefix(p.number, q.number, rest(a, 1, x), rest(b, 1, y));
        lemma_peel(a, b, 1, x, y);
        lemma_text_prefix(p.id, q.id, rest(a, 2, x), rest(b, 2, y));
        lemma_peel_equal(a, b, 2, x, y);
        assert(seq![p.root][0] == seq![q.root][0]);
        lemma_peel(a, b, 3, x, y);
        lemma_text_prefix(p.relative_path, q.relative_path, rest(a, 4, x), rest(b, 4, y));
        lemma_peel(a, b, 4, x, y);
        lemma_text_prefix(p.pattern, q.pattern, rest(a, 5, x), rest(b, 5, y));
        lemma_peel(a, b, 5, x, y);
        lemma_path_prefix(p.path, q.path, rest(a, 6, x), rest(b, 6, y));
    }
}

proof fn lemma_paths_prefix_free()
    ensures
        prefix_free(written_path(), path_fits()),
{
    assert forall|p: NativeModel, q: NativeModel, x: Seq<u8>, y: Seq<u8>|
        path_fits()(p) && path_fits()(q) && #[trigger] (written_path()(p) + x) == #[trigger] (
        written_path()(q) + y) implies p == q && x == y by {
        lemma_path_prefix(p, q, x, y);
    }
}

proof fn lemma_client_paths_prefix_free()
    ensures
        prefix_free(client_paths_bytes(), paths_fit()),
{
    lemma_paths_prefix_free();
    assert forall|p: DescribedPaths, q: DescribedPaths, x: Seq<u8>, y: Seq<u8>|
        paths_fit()(p) && paths_fit()(q) && #[trigger] (client_paths_bytes()(p) + x) == #[trigger] (
        client_paths_bytes()(q) + y) implies p == q && x == y by {
        let list_p = list_bytes(p.paths, written_path()) + x;
        let list_q = list_bytes(q.paths, written_path()) + y;
        assert(client_paths_bytes()(p) + x =~= text_bytes(p.client) + list_p);
        assert(client_paths_bytes()(q) + y =~= text_bytes(q.client) + list_q);
        lemma_text_prefix(p.client, q.client, list_p, list_q);
        lemma_list_prefix(p.paths, q.paths, written_path(), path_fits(), x, y);
    }
}

proof fn lemma_dirs_prefix_free()
    ensures
        prefix_free(dir_bytes(), dir_fits()),
{
    assert forall|p: DescribedDir, q: DescribedDir, x: Seq<u8>, y: Seq<u8>|
        dir_fits()(p) && dir_fits()(q) && #[trigger] (dir_bytes()(p) + x) == #[trigger] (
        dir_bytes()(q) + y) implies p == q && x == y by {
        let path_p = path_bytes(p.path) + x;
        let path_q = path_bytes(q.path) + y;
        assert(dir_bytes()(p) + x =~= u32_bytes(p.client) + path_p);
        assert(dir_bytes()(q) + y =~= u32_bytes(q.client) + path_q);
        lemma_u32_prefix(p.client, q.client, path_p, path_q);
        lemma_path_prefix(p.path, q.path, x, y);
    }
}

proof fn lemma_roots_prefix(a: Described, b: Described, x: Seq<u8>, y: Seq<u8>)
    requires
        describable(a),
        describable(b),
        described_roots(a) + x == described_roots(b) + y,
    ensures
        a.os == b.os,
        a.use_env_roots == b.use_env_roots,
        a.home_dir == b.home_dir,
        a.variables == b.variables,
        x == y,
{
    lemma_variables_prefix_free();
    let p = root_parts(a);
    let q = root_parts(b);
    lemma_begin(p, q, x, y);
    lemma_peel_equal(p, q, 0, x, y);
    lemma_peel_equal(p, q, 1, x, y);
    assert(p[1][0] == q[1][0]);
    lemma_peel_equal(p, q, 2, x, y);
    lemma_peel_equal(p, q, 3, x, y);
    assert(p[3][0] == q[3][0]);
    lemma_peel_equal(p, q, 4, x, y);
    lemma_peel(p, q, 5, x, y);
    lemma_path_prefix(a.home_dir, b.home_dir, rest(p, 6, x), rest(q, 6, y));
    lemma_peel_equal(p, q, 6, x, y);
    lemma_peel(p, q, 7, x, y);
    lemma_list_prefix(
        a.variables,
        b.variables,
        variable_bytes(),
        variable_fits(),
        rest(p, 8, x),
        rest(q, 8, y),
    );
}

proof fn lemma_clients_prefix(a: Described, b: Described, x: Seq<u8>, y: Seq<u8>)
    requires
        describable(a),
        describable(b),
        described_clients(a) + x == described_clients(b) + y,
    ensures
        a.platform_config_dir == b.platform_config_dir,
        a.platform_data_local_dir == b.platform_data_local_dir,
        a.clients == b.clients,
        x == y,
{
    lemma_clients_prefix_free();
    let p = platform_parts(a);
    let q = platform_parts(b);
    lemma_begin(p, q, x, y);
    lemma_peel_equal(p, q, 0, x, y);
    lemma_peel(p, q, 1, x, y);
    lemma_optional_prefix(
        a.platform_config_dir,
        b.platform_config_dir,
        rest(p, 2, x),
        rest(q, 2, y),
    );
    lemma_peel_equal(p, q, 2, x, y);
    lemma_peel(p, q, 3, x, y);
    lemma_optional_prefix(
        a.platform_data_local_dir,
        b.platform_data_local_dir,
        rest(p, 4, x),
        rest(q, 4, y),
    );
    lemma_peel_equal(p, q, 4, x, y);
    lemma_peel(p, q, 5, x, y);
    lemma_list_prefix(
        a.clients,
        b.clients,
        client_bytes(),
        client_fits(),
        rest(p, 6, x),
        rest(q, 6, y),
    );
}

proof fn lemma_paths_prefix(a: Described, b: Described, x: Seq<u8>, y: Seq<u8>)
    requires
        describable(a),
        describable(b),
        described_paths(a) + x == described_paths(b) + y,
    ensures
        a.opencode_db_paths == b.opencode_db_paths,
        a.settings_paths == b.settings_paths,
        a.extra_dirs == b.extra_dirs,
        a.codex_archive_root == b.codex_archive_root,
        a.source_cache_dir == b.source_cache_dir,
{
    lemma_paths_prefix_free();
    lemma_client_paths_prefix_free();
    lemma_dirs_prefix_free();
    let p = path_parts(a);
    let q = path_parts(b);
    lemma_begin(p, q, x, y);
    lemma_peel_equal(p, q, 0, x, y);
    lemma_peel(p, q, 1, x, y);
    lemma_list_prefix(
        a.opencode_db_paths,
        b.opencode_db_paths,
        written_path(),
        path_fits(),
        rest(p, 2, x),
        rest(q, 2, y),
    );
    lemma_peel_equal(p, q, 2, x, y);
    lemma_peel(p, q, 3, x, y);
    lemma_list_prefix(
        a.settings_paths,
        b.settings_paths,
        client_paths_bytes(),
        paths_fit(),
        rest(p, 4, x),
        rest(q, 4, y),
    );
    lemma_peel_equal(p, q, 4, x, y);
    lemma_peel(p, q, 5, x, y);
    lemma_list_prefix(
        a.extra_dirs,
        b.extra_dirs,
        dir_bytes(),
        dir_fits(),
        rest(p, 6, x),
        rest(q, 6, y),
    );
    lemma_peel_equal(p, q, 6, x, y);
    lemma_peel(p, q, 7, x, y);
    lemma_path_prefix(a.codex_archive_root, b.codex_archive_root, rest(p, 8, x), rest(q, 8, y));
    lemma_peel_equal(p, q, 8, x, y);
    lemma_peel(p, q, 9, x, y);
    lemma_optional_prefix(a.source_cache_dir, b.source_cache_dir, rest(p, 10, x), rest(q, 10, y));
}

/// A descriptor says one thing: configurations that differ in the state of a variable, in how it
/// was resolved, in a path, in the cache directory or in anything else that is described have
/// different descriptors.
pub proof fn lemma_descriptor_unambiguous(a: Described, b: Described)
    requires
        describable(a),
        describable(b),
        descriptor_of(a) == descriptor_of(b),
    ensures
        a == b,
{
    let none = Seq::<u8>::empty();
    let paths_a = described_paths(a);
    let paths_b = described_paths(b);
    let clients_a = described_clients(a) + paths_a;
    let clients_b = described_clients(b) + paths_b;
    lemma_written_behind(preamble() + described_roots(a), described_clients(a), paths_a);
    lemma_written_behind(preamble(), described_roots(a), clients_a);
    lemma_written_behind(preamble() + described_roots(b), described_clients(b), paths_b);
    lemma_written_behind(preamble(), described_roots(b), clients_b);
    lemma_strip(preamble(), preamble(), described_roots(a) + clients_a, described_roots(b) + clients_b);
    lemma_roots_prefix(a, b, clients_a, clients_b);
    lemma_clients_prefix(a, b, paths_a, paths_b);
    assert(paths_a + none =~= paths_a);
    assert(paths_b + none =~= paths_b);
    lemma_paths_prefix(a, b, none, none);
}

// ---------------------------------------------------------------------------
// What a configuration depends on
// ---------------------------------------------------------------------------
proof fn lemma_text_apart(a: Seq<char>, b: Seq<char>)
    ensures
        text_before(a, b) ==> a != b && !text_before(b, a),
{
    lemma_bytes_irreflexive(encode_utf8(a));
    if text_before(a, b) && text_before(b, a) {
        lemma_bytes_transitive(encode_utf8(a), encode_utf8(b), encode_utf8(a));
    }
}

proof fn lemma_index_of(keys: Seq<Seq<char>>, at: int)
    requires
        ascending(keys),
        0 <= at < keys.len(),
    ensures
        keys.index_of(keys[at]) == at,
{
    let other = keys.index_of(keys[at]);
    assert(keys[other] == keys[at]);
    if other != at {
        lemma_text_apart(keys[at], keys[at]);
    }
}

proof fn lemma_same_keys_up_to(a: Seq<Seq<char>>, b: Seq<Seq<char>>, upto: int)
    requires
        ascending(a),
        ascending(b),
        forall|key: Seq<char>| #[trigger] a.contains(key) == b.contains(key),
        0 <= upto <= a.len(),
    ensures
        upto <= b.len(),
        forall|i: int| 0 <= i < upto ==> #[trigger] a[i] == b[i],
    decreases upto,
{
    if upto > 0 {
        let at = upto - 1;
        lemma_same_keys_up_to(a, b, at);
        assert(a.contains(a[at]));
        let other = b.index_of(a[at]);
        assert(b[other] == a[at]);
        if other < at {
            assert(a[other] == b[other]);
            lemma_text_apart(a[other], a[at]);
        }
        assert(a.contains(b[at]) == b.contains(b[at]));
        let back = a.index_of(b[at]);
        assert(a[back] == b[at]);
        if back < at {
            assert(a[back] == b[back]);
            lemma_text_apart(b[back], b[at]);
        }
        lemma_text_apart(a[at], b[at]);
        assert(a[at] == b[at]);
    }
}

/// Texts in order are decided by which they are.
proof fn lemma_same_keys(a: Seq<Seq<char>>, b: Seq<Seq<char>>)
    requires
        ascending(a),
        ascending(b),
        forall|key: Seq<char>| #[trigger] a.contains(key) == b.contains(key),
    ensures
        a == b,
{
    lemma_same_keys_up_to(a, b, a.len() as int);
    assert forall|key: Seq<char>| #[trigger] b.contains(key) == a.contains(key) by {
        assert(a.contains(key) == b.contains(key));
    }
    lemma_same_keys_up_to(b, a, b.len() as int);
    assert(a =~= b);
}

spec fn in_order(variables: Seq<VariableModel>) -> bool {
    forall|i: int, j: int|
        0 <= i < j < variables.len() ==> text_before(
            (#[trigger] variables[i]).key,
            (#[trigger] variables[j]).key,
        )
}

proof fn lemma_keys_ascend(variables: Seq<VariableModel>)
    requires
        in_order(variables),
    ensures
        ascending(keys_of(variables)),
{
    let keys = keys_of(variables);
    assert forall|i: int, j: int| 0 <= i < j < keys.len() implies text_before(
        #[trigger] keys[i],
        #[trigger] keys[j],
    ) by {
        assert(text_before(variables[i].key, variables[j].key));
    }
}

proof fn lemma_same_variables(a: Seq<VariableModel>, b: Seq<VariableModel>)
    requires
        in_order(a),
        in_order(b),
        forall|key: Seq<char>| #[trigger] variable_of(a, key) == variable_of(b, key),
    ensures
        a == b,
{
    let keys_a = keys_of(a);
    let keys_b = keys_of(b);
    lemma_keys_ascend(a);
    lemma_keys_ascend(b);
    assert forall|key: Seq<char>| #[trigger] keys_a.contains(key) == keys_b.contains(key) by {
        assert(variable_of(a, key) == variable_of(b, key));
    }
    lemma_same_keys(keys_a, keys_b);
    assert forall|i: int| 0 <= i < a.len() implies #[trigger] a[i] == b[i] by {
        assert(keys_a[i] == a[i].key && keys_b[i] == b[i].key);
        lemma_index_of(keys_a, i);
        assert(variable_of(a, keys_a[i]) == variable_of(b, keys_a[i]));
    }
    assert(keys_a.len() == a.len() && keys_b.len() == b.len());
    assert(a =~= b);
}

/// What is captured decides on the configuration.
pub proof fn lemma_capture_determines_context(
    capture: CaptureModel,
    first: ContextModel,
    second: ContextModel,
)
    requires
        capture.gives(first),
        capture.gives(second),
    ensures
        first == second,
{
    assert forall|key: Seq<char>|
        #[trigger] variable_of(first.variables, key) == variable_of(second.variables, key) by {
        assert(variable_of(first.variables, key) == capture.variable(key));
        assert(variable_of(second.variables, key) == capture.variable(key));
    }
    lemma_same_variables(first.variables, second.variables);
}

/// Configurations with the same descriptor agree in the home directory, in what every variable
/// resolved to, in the directories of the platform and in the paths to scan and to the cache.
pub proof fn lemma_descriptor_tells_configurations_apart(first: ContextModel, second: ContextModel)
    requires
        describable(first.described()),
        describable(second.described()),
        descriptor_of(first.described()) == descriptor_of(second.described()),
    ensures
        first.use_env_roots == second.use_env_roots,
        first.home_dir == second.home_dir,
        first.variables == second.variables,
        first.platform_config_dir == second.platform_config_dir,
        first.platform_data_local_dir == second.platform_data_local_dir,
        first.settings == second.settings,
        first.extra_dirs == second.extra_dirs,
        first.codex_archive_root == second.codex_archive_root,
        first.source_cache_dir == second.source_cache_dir,
{
    let a = first.described();
    let b = second.described();
    lemma_descriptor_unambiguous(a, b);
    assert(a.variables.len() == first.variables.len());
    assert(b.variables.len() == second.variables.len());
    assert forall|i: int| 0 <= i < first.variables.len() implies first.variables[i]
        == second.variables[i] by {
        assert(a.variables[i] == described_variable(first.variables[i]));
        assert(b.variables[i] == described_variable(second.variables[i]));
    }
    assert(first.variables =~= second.variables);
    lemma_same_list(first.settings.opencode_db_paths, second.settings.opencode_db_paths);
    let entries = first.settings.extra_scan_paths;
    let others = second.settings.extra_scan_paths;
    assert(a.settings_paths.len() == entries.len());
    assert(b.settings_paths.len() == others.len());
    assert forall|i: int| 0 <= i < entries.len() implies entries[i] == others[i] by {
        assert(a.settings_paths[i] == described_entry(entries[i]));
        assert(b.settings_paths[i] == described_entry(others[i]));
        lemma_same_list(entries[i].paths, others[i].paths);
    }
    assert(entries =~= others);
    assert(a.extra_dirs.len() == first.extra_dirs.len());
    assert(b.extra_dirs.len() == second.extra_dirs.len());
    assert forall|i: int| 0 <= i < first.extra_dirs.len() implies first.extra_dirs[i]
        == second.extra_dirs[i] by {
        assert(a.extra_dirs[i] == described_dir(first.extra_dirs[i]));
        assert(b.extra_dirs[i] == described_dir(second.extra_dirs[i]));
    }
    assert(first.extra_dirs =~= second.extra_dirs);
}

proof fn lemma_same_list(a: Seq<Seq<u8>>, b: Seq<Seq<u8>>)
    requires
        described_list(a) == described_list(b),
    ensures
        a == b,
{
    assert(described_list(a).len() == a.len());
    assert(described_list(b).len() == b.len());
    assert forall|i: int| 0 <= i < a.len() implies a[i] == b[i] by {
        assert(described_list(a)[i] == NativeModel::Bytes(a[i]));
        assert(described_list(b)[i] == NativeModel::Bytes(b[i]));
    }
    assert(a =~= b);
}

/// Whether two captures differ in variables at most.
pub open spec fn same_but_variables(a: CaptureModel, b: CaptureModel) -> bool {
    &&& a.cwd == b.cwd
    &&& a.home_dir == b.home_dir
    &&& a.use_env_roots == b.use_env_roots
    &&& a.settings == b.settings
    &&& a.catalog == b.catalog
    &&& a.inputs.host() == b.inputs.host()
}

/// Without the environment's roots, no variable matters to what is described but the home
/// directory and those that place the cache.
pub proof fn lemma_ignored_environment_is_neutral(
    a: CaptureModel,
    b: CaptureModel,
    first: ContextModel,
    second: ContextModel,
)
    requires
        same_but_variables(a, b),
        !a.use_env_roots,
        a.inputs.value(ENV_HOME@) == b.inputs.value(ENV_HOME@),
        a.inputs.value(ENV_TOKSCALE_CONFIG_DIR@) == b.inputs.value(ENV_TOKSCALE_CONFIG_DIR@),
        a.inputs.value(ENV_XDG_RUNTIME_DIR@) == b.inputs.value(ENV_XDG_RUNTIME_DIR@),
        a.gives(first),
        b.gives(second),
    ensures
        first.described() == second.described(),
{
    assert forall|key: Seq<char>|
        #[trigger] variable_of(first.variables, key) == variable_of(second.variables, key) by {
        assert(variable_of(first.variables, key) == a.variable(key));
        assert(variable_of(second.variables, key) == b.variable(key));
    }
    lemma_same_variables(first.variables, second.variables);
    lemma_same_described(first, second);
}

/// Configurations that differ in whether prices come from the cache only are described alike.
pub proof fn lemma_same_described(first: ContextModel, second: ContextModel)
    requires
        first == (ContextModel { pricing_cache_only: first.pricing_cache_only, ..second }),
    ensures
        first.described() == second.described(),
{
    assert forall|i: int| 0 <= i < first.clients.len() implies #[trigger] first.described_client(
        first.clients[i],
    ) == second.described_client(first.clients[i]) by {
        assert(first.client_path(first.clients[i]) == second.client_path(first.clients[i]));
    }
    assert(first.described().clients =~= second.described().clients);
    assert(first.described().variables =~= second.described().variables);
}

/// The choice to take prices from the cache only does not matter to what is described.
pub proof fn lemma_pricing_is_neutral(
    a: CaptureModel,
    b: CaptureModel,
    first: ContextModel,
    second: ContextModel,
)
    requires
        same_but_variables(a, b),
        a.inputs.listed_dirs() == b.inputs.listed_dirs(),
        forall|key: Seq<char>|
            key != ENV_TOKSCALE_PRICING_CACHE_ONLY@ ==> #[trigger] a.inputs.value(key)
                == b.inputs.value(key),
        !a.catalog.reads(ENV_TOKSCALE_PRICING_CACHE_ONLY@),
        a.gives(first),
        b.gives(second),
    ensures
        first.described() == second.described(),
{
    reveal_strlit("HOME");
    reveal_strlit("TOKSCALE_CONFIG_DIR");
    reveal_strlit("TOKSCALE_EXTRA_DIRS");
    reveal_strlit("CODEX_HOME");
    reveal_strlit("TOKSCALE_PRICING_CACHE_ONLY");
    reveal_strlit("XDG_RUNTIME_DIR");
    let pricing = ENV_TOKSCALE_PRICING_CACHE_ONLY@;
    assert(pricing.len() == 27);
    assert(a.extra_dirs() =~= b.extra_dirs());
    assert forall|key: Seq<char>|
        #[trigger] variable_of(first.variables, key) == variable_of(second.variables, key) by {
        assert(variable_of(first.variables, key) == a.variable(key));
        assert(variable_of(second.variables, key) == b.variable(key));
        if key != pricing {
            assert(a.inputs.value(key) == b.inputs.value(key));
        }
    }
    lemma_same_variables(first.variables, second.variables);
    lemma_same_described(first, second);
}

/// Neither the choice to take prices from the cache only nor a runtime directory that the cache
/// does not need matters to what is described.
pub proof fn lemma_pricing_and_unused_runtime_are_neutral(
    a: CaptureModel,
    b: CaptureModel,
    first: ContextModel,
    second: ContextModel,
)
    requires
        same_but_variables(a, b),
        a.inputs.listed_dirs() == b.inputs.listed_dirs(),
        forall|key: Seq<char>|
            key != ENV_TOKSCALE_PRICING_CACHE_ONLY@ && key != ENV_XDG_RUNTIME_DIR@
                ==> #[trigger] a.inputs.value(key) == b.inputs.value(key),
        !a.catalog.reads(ENV_TOKSCALE_PRICING_CACHE_ONLY@),
        !a.catalog.reads(ENV_XDG_RUNTIME_DIR@),
        non_empty(a.inputs.value(ENV_TOKSCALE_CONFIG_DIR@)) is Some || a.inputs.host().target_os
            == UnixOs::MacOs || a.inputs.host().config_dir is Some,
        a.gives(first),
        b.gives(second),
    ensures
        first.described() == second.described(),
{
    reveal_strlit("HOME");
    reveal_strlit("TOKSCALE_CONFIG_DIR");
    reveal_strlit("TOKSCALE_EXTRA_DIRS");
    reveal_strlit("CODEX_HOME");
    reveal_strlit("TOKSCALE_PRICING_CACHE_ONLY");
    reveal_strlit("XDG_RUNTIME_DIR");
    let pricing = ENV_TOKSCALE_PRICING_CACHE_ONLY@;
    let runtime = ENV_XDG_RUNTIME_DIR@;
    assert(pricing.len() == 27 && runtime.len() == 15);
    assert(a.extra_dirs() =~= b.extra_dirs());
    assert forall|key: Seq<char>|
        #[trigger] variable_of(first.variables, key) == variable_of(second.variables, key) by {
        assert(variable_of(first.variables, key) == a.variable(key));
        assert(variable_of(second.variables, key) == b.variable(key));
        if key != pricing && key != runtime {
            assert(a.inputs.value(key) == b.inputs.value(key));
        }
    }
    lemma_same_variables(first.variables, second.variables);
    lemma_same_described(first, second);
}

/// Whether a value of a variable counts only where it is text.
pub open spec fn takes_text_only(os: TargetOs, clients: Seq<ClientDef>, key: Seq<char>) -> bool {
    ||| key == ENV_TOKSCALE_EXTRA_DIRS@
    ||| ignores_no_text(os, clients, key)
}

/// A value that is no text resolves as if the variable was not set, where only text counts: it
/// leaves the fallback in place, and is never read as another text.
pub proof fn lemma_no_text_resolves_as_unset(
    resolution: ResolutionModel,
    key: Seq<char>,
    value: Option<Seq<u8>>,
)
    requires
        takes_text_only(resolution.os.target(), resolution.clients, key),
        unicode(value) is None,
        key != ENV_HOME@,
        key != ENV_TOKSCALE_EXTRA_DIRS@,
    ensures
        resolution.resolve(key, value) == resolution.resolve(key, None),
        resolution.use_env_roots ==> resolution.resolve(key, value) == ResolvedModel::fallback(
            InputState::Unset,
            resolution.fallback(key),
        ),
{
    assert(valid_utf8(Seq::<u8>::empty()));
    if value is Some && value->0.len() == 0 {
        assert(value->0 =~= Seq::<u8>::empty());
    }
}

/// Resolved tables agree where their variables differ only in a value that is no text and one
/// that is not set, for a variable that takes text only.
pub proof fn lemma_tables_without_text_agree(
    base: ResolutionModel,
    catalog: SourceCatalog,
    key: Seq<char>,
    unset: SourceResolutionInputs,
    no_text: SourceResolutionInputs,
    first: SortedTable<String, ResolvedPathInput>,
    second: SortedTable<String, ResolvedPathInput>,
)
    requires
        takes_text_only(base.os.target(), base.clients, key),
        key != ENV_HOME@,
        key != ENV_TOKSCALE_EXTRA_DIRS@,
        unset.value(key) is None,
        unicode(no_text.value(key)) is None,
        forall|other: Seq<char>|
            other != key ==> #[trigger] unset.value(other) == no_text.value(other),
        resolves(base, catalog, unset, first),
        resolves(base, catalog, no_text, second),
    ensures
        forall|any: Seq<char>|
            #[trigger] resolved_value(first, any) == resolved_value(second, any),
        base.use_env_roots && catalog.reads(key) ==> resolved_value(second, key) == Some(
            ResolvedModel::fallback(InputState::Unset, base.fallback(key)),
        ),
{
    lemma_no_text_resolves_as_unset(base, key, no_text.value(key));
    assert(resolved_value(second, key) == resolved_value(first, key));
    assert forall|any: Seq<char>|
        #[trigger] resolved_value(first, any) == resolved_value(second, any) by {
        assert(any == key || unset.value(any) == no_text.value(any));
    }
}

/// A value that is no text does not matter where only text counts: a configuration is described
/// as if the variable was not set. The variables that place the home directory and the cache
/// are apart from that.
pub proof fn lemma_values_that_are_no_text_are_neutral(
    a: CaptureModel,
    b: CaptureModel,
    first: ContextModel,
    second: ContextModel,
)
    requires
        same_but_variables(a, b),
        a.inputs.listed_dirs() == b.inputs.listed_dirs(),
        a.inputs.value(ENV_HOME@) == b.inputs.value(ENV_HOME@),
        a.inputs.value(ENV_TOKSCALE_CONFIG_DIR@) == b.inputs.value(ENV_TOKSCALE_CONFIG_DIR@),
        a.inputs.value(ENV_XDG_RUNTIME_DIR@) == b.inputs.value(ENV_XDG_RUNTIME_DIR@),
        forall|key: Seq<char>|
            #[trigger] a.inputs.value(key) == b.inputs.value(key) || takes_text_only(
                a.inputs.host().target_os.target(),
                a.catalog.clients@,
                key,
            ) && unicode(a.inputs.value(key)) is None && b.inputs.value(key) is None,
        a.gives(first),
        b.gives(second),
    ensures
        first.described() == second.described(),
{
    assert(a.inputs.value(ENV_CODEX_HOME@) == b.inputs.value(ENV_CODEX_HOME@) || unicode(
        a.inputs.value(ENV_CODEX_HOME@),
    ) is None);
    assert(a.inputs.value(ENV_TOKSCALE_EXTRA_DIRS@) == b.inputs.value(ENV_TOKSCALE_EXTRA_DIRS@)
        || unicode(a.inputs.value(ENV_TOKSCALE_EXTRA_DIRS@)) is None);
    assert(a.extra_dirs() =~= b.extra_dirs());
    assert forall|key: Seq<char>|
        #[trigger] variable_of(first.variables, key) == variable_of(second.variables, key) by {
        assert(variable_of(first.variables, key) == a.variable(key));
        assert(variable_of(second.variables, key) == b.variable(key));
        if a.inputs.value(key) != b.inputs.value(key) && key != ENV_TOKSCALE_EXTRA_DIRS@ {
            lemma_no_text_resolves_as_unset(a.resolution(), key, a.inputs.value(key));
        }
    }
    lemma_same_variables(first.variables, second.variables);
    lemma_same_described(first, second);
}

// ---------------------------------------------------------------------------
// Settings
// ---------------------------------------------------------------------------
/// Settings are decided by what is set for each client: there is one way to list it.
pub proof fn lemma_settings_are_a_map(a: SettingsModel, b: SettingsModel)
    requires
        a.wf(),
        b.wf(),
        a.opencode_db_paths == b.opencode_db_paths,
        forall|client: Seq<char>| #[trigger] a.paths_for(client) == b.paths_for(client),
    ensures
        a == b,
{
    let first = a.extra_scan_paths;
    let second = b.extra_scan_paths;
    let clients_a = clients_of(first);
    let clients_b = clients_of(second);
    assert forall|client: Seq<char>| #[trigger]
        clients_a.contains(client) == clients_b.contains(client) by {
        assert(a.paths_for(client) == b.paths_for(client));
    }
    lemma_same_keys(clients_a, clients_b);
    assert forall|i: int| 0 <= i < first.len() implies #[trigger] first[i] == second[i] by {
        assert(clients_a[i] == first[i].client && clients_b[i] == second[i].client);
        lemma_index_of(clients_a, i);
        assert(a.paths_for(clients_a[i]) == b.paths_for(clients_a[i]));
    }
    assert(clients_a.len() == first.len() && clients_b.len() == second.len());
    assert(first =~= second);
}

/// The paths of a list that are not empty.
pub open spec fn without_empty(paths: Seq<Seq<u8>>) -> Seq<Seq<u8>>
    decreases paths.len(),
{
    if paths.len() == 0 {
        Seq::empty()
    } else if paths.last().len() == 0 {
        without_empty(paths.drop_last())
    } else {
        without_empty(paths.drop_last()).push(paths.last())
    }
}

/// Entries without empty paths, and without clients that have no others.
pub open spec fn without_empty_entries(entries: Seq<ClientPathsModel>) -> Seq<ClientPathsModel>
    decreases entries.len(),
{
    if entries.len() == 0 {
        Seq::empty()
    } else {
        let earlier = without_empty_entries(entries.drop_last());
        let paths = without_empty(entries.last().paths);
        if paths.len() == 0 {
            earlier
        } else {
            earlier.push(ClientPathsModel { client: entries.last().client, paths })
        }
    }
}

proof fn lemma_scan_without_empty(cwd: Seq<u8>, paths: Seq<Seq<u8>>)
    ensures
        scan_paths(cwd, without_empty(paths)) == scan_paths(cwd, paths),
        without_empty(paths).len() == scan_paths(cwd, paths).len(),
    decreases paths.len(),
{
    if paths.len() > 0 {
        let before = paths.drop_last();
        lemma_scan_without_empty(cwd, before);
        if paths.last().len() > 0 {
            let kept = without_empty(before).push(paths.last());
            assert(kept.drop_last() =~= without_empty(before));
        }
    }
}

proof fn lemma_entries_without_empty(cwd: Seq<u8>, entries: Seq<ClientPathsModel>)
    ensures
        scan_entries(cwd, without_empty_entries(entries)) == scan_entries(cwd, entries),
    decreases entries.len(),
{
    if entries.len() > 0 {
        let before = entries.drop_last();
        lemma_entries_without_empty(cwd, before);
        lemma_scan_without_empty(cwd, entries.last().paths);
        let paths = without_empty(entries.last().paths);
        if paths.len() > 0 {
            let entry = ClientPathsModel { client: entries.last().client, paths };
            let kept = without_empty_entries(before).push(entry);
            assert(kept.drop_last() =~= without_empty_entries(before));
        }
    }
}

/// Empty paths in the settings do not matter: settings that agree without them resolve alike.
pub proof fn lemma_empty_paths_are_neutral(cwd: Seq<u8>, a: SettingsModel, b: SettingsModel)
    requires
        a.opencode_db_paths == b.opencode_db_paths,
        without_empty_entries(a.extra_scan_paths) == without_empty_entries(b.extra_scan_paths),
    ensures
        resolved_settings(cwd, a) == resolved_settings(cwd, b),
{
    lemma_entries_without_empty(cwd, a.extra_scan_paths);
    lemma_entries_without_empty(cwd, b.extra_scan_paths);
}

// ---------------------------------------------------------------------------
// Paths
// ---------------------------------------------------------------------------
/// Whether an optional path is absolute, if it is there.
pub open spec fn absolute_if_any(path: Option<Seq<u8>>) -> bool {
    path is Some ==> is_absolute(path->0)
}

/// Whether every path of scanner settings is absolute.
pub open spec fn settings_absolute(settings: SettingsModel) -> bool {
    &&& forall|i: int|
        0 <= i < settings.opencode_db_paths.len() ==> is_absolute(
            #[trigger] settings.opencode_db_paths[i],
        )
    &&& forall|i: int, j: int|
        0 <= i < settings.extra_scan_paths.len() && 0 <= j < settings.extra_scan_paths[i].paths.len()
            ==> is_absolute(#[trigger] settings.extra_scan_paths[i].paths[j])
}

/// Whether every path of a configuration is absolute.
pub open spec fn all_absolute(context: ContextModel) -> bool {
    &&& is_absolute(context.home_dir)
    &&& is_absolute(context.codex_archive_root)
    &&& absolute_if_any(context.source_cache_dir)
    &&& absolute_if_any(context.platform_config_dir)
    &&& absolute_if_any(context.platform_data_local_dir)
    &&& forall|key: Seq<char>| absolute_if_any(#[trigger] context.env_path(key))
    &&& forall|root: PathRoot| is_absolute(#[trigger] context.client_root(root))
    &&& settings_absolute(context.settings)
    &&& forall|i: int|
        0 <= i < context.extra_dirs.len() ==> is_absolute((#[trigger] context.extra_dirs[i]).path)
}

proof fn lemma_scan_paths_absolute(cwd: Seq<u8>, paths: Seq<Seq<u8>>)
    requires
        is_absolute(cwd),
    ensures
        forall|i: int|
            0 <= i < scan_paths(cwd, paths).len() ==> is_absolute(
                #[trigger] scan_paths(cwd, paths)[i],
            ),
    decreases paths.len(),
{
    if paths.len() > 0 {
        lemma_scan_paths_absolute(cwd, paths.drop_last());
        lemma_joined_absolute(cwd, paths.last());
        let earlier = scan_paths(cwd, paths.drop_last());
        let all = scan_paths(cwd, paths);
        assert forall|i: int| 0 <= i < all.len() implies is_absolute(#[trigger] all[i]) by {
            if i < earlier.len() {
                assert(all[i] == earlier[i]);
            }
        }
    }
}

proof fn lemma_scan_entries_absolute(cwd: Seq<u8>, entries: Seq<ClientPathsModel>)
    requires
        is_absolute(cwd),
    ensures
        forall|i: int, j: int|
            0 <= i < scan_entries(cwd, entries).len() && 0 <= j < scan_entries(
                cwd,
                entries,
            )[i].paths.len() ==> is_absolute(#[trigger] scan_entries(cwd, entries)[i].paths[j]),
    decreases entries.len(),
{
    if entries.len() > 0 {
        lemma_scan_entries_absolute(cwd, entries.drop_last());
        lemma_scan_paths_absolute(cwd, entries.last().paths);
        let earlier = scan_entries(cwd, entries.drop_last());
        let all = scan_entries(cwd, entries);
        assert forall|i: int, j: int|
            0 <= i < all.len() && 0 <= j < all[i].paths.len() implies is_absolute(
            #[trigger] all[i].paths[j],
        ) by {
            if i < earlier.len() {
                assert(all[i] == earlier[i]);
                assert(is_absolute(earlier[i].paths[j]));
            } else {
                assert(is_absolute(scan_paths(cwd, entries.last().paths)[j]));
            }
        }
    }
}

proof fn lemma_resolution_absolute(
    resolution: ResolutionModel,
    key: Seq<char>,
    value: Option<Seq<u8>>,
)
    requires
        is_absolute(resolution.cwd),
        is_absolute(resolution.home),
        absolute_if_any(resolution.platform_config),
    ensures
        absolute_if_any(resolution.resolve(key, value).path),
{
}

#[verifier::spinoff_prover]
proof fn lemma_env_path_absolute(capture: CaptureModel, context: ContextModel, key: Seq<char>)
    requires
        is_absolute(capture.cwd),
        capture.gives(context),
    ensures
        absolute_if_any(context.env_path(key)),
{
    assert(variable_of(context.variables, key) == capture.variable(key));
    lemma_resolution_absolute(capture.resolution(), key, capture.inputs.value(key));
}

#[verifier::spinoff_prover]
proof fn lemma_client_root_absolute(context: ContextModel, root: PathRoot)
    requires
        is_absolute(context.home_dir),
        forall|key: Seq<char>| absolute_if_any(#[trigger] context.env_path(key)),
    ensures
        is_absolute(context.client_root(root)),
{
    assert(absolute_if_any(context.env_path(ENV_TOKSCALE_CONFIG_DIR@)));
    assert(absolute_if_any(context.env_path(ENV_XDG_CONFIG_HOME@)));
    assert(absolute_if_any(context.env_path(ENV_XDG_DATA_HOME@)));
    if let PathRoot::EnvVar { var, .. } = root {
        assert(absolute_if_any(context.env_path(var@)));
    }
}

proof fn lemma_settings_absolute(cwd: Seq<u8>, settings: SettingsModel)
    requires
        is_absolute(cwd),
    ensures
        settings_absolute(resolved_settings(cwd, settings)),
{
    lemma_scan_entries_absolute(cwd, settings.extra_scan_paths);
}

#[verifier::spinoff_prover]
#[verifier::rlimit(40)]
proof fn lemma_plain_paths_absolute(capture: CaptureModel, context: ContextModel)
    requires
        is_absolute(capture.cwd),
        capture.gives(context),
    ensures
        is_absolute(context.home_dir),
        is_absolute(context.codex_archive_root),
        absolute_if_any(context.source_cache_dir),
        absolute_if_any(context.platform_config_dir),
        absolute_if_any(context.platform_data_local_dir),
{
}

proof fn lemma_extra_dirs_absolute(capture: CaptureModel, at: int)
    requires
        is_absolute(capture.cwd),
        0 <= at < capture.extra_dirs().len(),
    ensures
        is_absolute(capture.extra_dirs()[at].path),
{
    lemma_joined_absolute(capture.cwd, capture.inputs.listed_dirs()[at].path@);
}

/// Nothing depends on the working directory any more: captured in an absolute one, a
/// configuration has only absolute paths.
#[verifier::spinoff_prover]
pub proof fn lemma_paths_are_absolute(capture: CaptureModel, context: ContextModel)
    requires
        is_absolute(capture.cwd),
        capture.gives(context),
    ensures
        all_absolute(context),
{
    lemma_plain_paths_absolute(capture, context);
    assert(forall|key: Seq<char>| absolute_if_any(#[trigger] context.env_path(key))) by {
        assert forall|key: Seq<char>| absolute_if_any(#[trigger] context.env_path(key)) by {
            lemma_env_path_absolute(capture, context, key);
        }
    }
    assert(forall|root: PathRoot| is_absolute(#[trigger] context.client_root(root))) by {
        assert forall|root: PathRoot| is_absolute(#[trigger] context.client_root(root)) by {
            lemma_client_root_absolute(context, root);
        }
    }
    assert(settings_absolute(context.settings)) by {
        lemma_settings_absolute(capture.cwd, capture.settings);
    }
    assert forall|i: int| 0 <= i < context.extra_dirs.len() implies is_absolute(
        (#[trigger] context.extra_dirs[i]).path,
    ) by {
        lemma_extra_dirs_absolute(capture, i);
    }
}

} // verus!
