use tokscale_core::source_context::catalog::{
    captured_environment_keys, client_fallback, is_client_var, resolver_environment_keys,
    target_os_tag, ClientDef, PathRoot, SourceCatalog, TargetOs, UnixOs, ENV_APPDATA, ENV_CODEBUFF_DATA_DIR,
    ENV_COPILOT_EXPORTER, ENV_GOOSE_PATH_ROOT, ENV_HOME, ENV_KIMI_CODE_HOME, ENV_LOCALAPPDATA,
    ENV_TOKSCALE_CONFIG_DIR, ENV_TOKSCALE_EXTRA_DIRS, ENV_TOKSCALE_HEADLESS_DIR,
    ENV_TOKSCALE_PRICING_CACHE_ONLY, ENV_XDG_CONFIG_HOME, ENV_XDG_DATA_HOME, ENV_XDG_RUNTIME_DIR,
};
use tokscale_core::source_context::description::{
    ClientEntry, Description, DirEntry, PathsEntry, VariableEntry,
};
use tokscale_core::source_context::descriptor::{Descriptor, NativeString};
use tokscale_core::source_context::environment::{source_env_requires_unicode, PathResolution};
use tokscale_core::source_context::inputs::{
    EnvValue, ExtraDir, InputState, PlatformInputs, SourceResolutionInputs,
};
use tokscale_core::source_context::paths::{fully_qualified, join};
use tokscale_core::source_context::places::{
    asks_for_cached_prices, cache_place, choose_extra_dirs, choose_fallback, choose_variable,
    config_place, home_place, takes_codex_variable, takes_listed_dirs, CacheInputs, CachePlace,
    ConfigInputs, ConfigPlace, FallbackPlace, HomePlace, VariablePlace, VariableValue,
};
use tokscale_core::source_context::settings::{ClientPaths, ScannerSettings};
use tokscale_core::source_context::windows::{place_path, PathHead, Placement};
use tokscale_core::source_context::{ResolvedLocalSourceContext, SourceContextUnavailable};

const CODEX: usize = 1;

fn env_root(var: &str, fallback_relative: &str) -> PathRoot {
    PathRoot::EnvVar {
        var: var.to_owned(),
        fallback_relative: fallback_relative.to_owned(),
    }
}

fn client(number: u32, id: &str, root: PathRoot, relative_path: &str) -> ClientDef {
    ClientDef {
        number,
        id: id.to_owned(),
        root,
        relative_path: relative_path.to_owned(),
        pattern: "*.jsonl".to_owned(),
    }
}

fn catalog() -> SourceCatalog {
    SourceCatalog {
        clients: vec![
            client(0, "opencode", PathRoot::XdgData, "opencode/storage/message"),
            client(1, "codex", env_root("CODEX_HOME", ".codex"), "sessions"),
            client(2, "gemini", PathRoot::Home, ".gemini/tmp"),
            client(3, "cursor", PathRoot::Config, "cursor-cache"),
            client(
                4,
                "codebuff",
                env_root(ENV_CODEBUFF_DATA_DIR, ".config/manicode"),
                "projects",
            ),
        ],
        direct_env_keys: [
            ENV_TOKSCALE_HEADLESS_DIR,
            ENV_COPILOT_EXPORTER,
            ENV_LOCALAPPDATA,
            ENV_APPDATA,
            ENV_KIMI_CODE_HOME,
            ENV_TOKSCALE_EXTRA_DIRS,
            ENV_GOOSE_PATH_ROOT,
        ]
        .iter()
        .map(|key| (*key).to_owned())
        .collect(),
    }
}

fn fixture_path(relative: &str) -> Vec<u8> {
    join(b"/fixture", relative.as_bytes())
}

fn below(base: &[u8], relative: &str) -> Vec<u8> {
    join(base, relative.as_bytes())
}

fn fixture_platform() -> PlatformInputs {
    PlatformInputs {
        target_os: UnixOs::Linux,
        config_dir: Some(fixture_path("platform-config")),
        data_local_dir: Some(fixture_path("platform-data")),
        home_dir: Some(fixture_path("platform-home")),
        temp_dir: fixture_path("tmp"),
        user_id: 501,
    }
}

fn listed_dirs(value: Option<&[u8]>) -> Vec<ExtraDir> {
    let Some(Ok(text)) = value.map(std::str::from_utf8) else {
        return Vec::new();
    };
    text.split(',')
        .filter_map(|entry| entry.strip_prefix("codex="))
        .map(|path| ExtraDir {
            client: CODEX as u32,
            path: path.as_bytes().to_vec(),
        })
        .collect()
}

fn fixture_inputs(values: &[(&str, &[u8])]) -> SourceResolutionInputs {
    fixture_inputs_with_platform(values, fixture_platform())
}

fn fixture_inputs_with_platform(
    values: &[(&str, &[u8])],
    platform: PlatformInputs,
) -> SourceResolutionInputs {
    let read = |name: &str| {
        values
            .iter()
            .find(|(key, _)| *key == name)
            .map(|(_, value)| *value)
    };
    let variables = captured_environment_keys(&catalog())
        .into_iter()
        .map(|key| {
            let value = read(&key).map(|value| value.to_vec());
            EnvValue { key, value }
        })
        .collect();
    SourceResolutionInputs::capture_with(
        variables,
        platform,
        listed_dirs(read(ENV_TOKSCALE_EXTRA_DIRS)),
    )
}

fn no_settings() -> ScannerSettings {
    ScannerSettings {
        opencode_db_paths: Vec::new(),
        extra_scan_paths: Vec::new(),
    }
}

fn capture(
    home: Option<Vec<u8>>,
    use_env_roots: bool,
    settings: &ScannerSettings,
    inputs: &SourceResolutionInputs,
) -> ResolvedLocalSourceContext {
    match ResolvedLocalSourceContext::capture_resolved(
        &fixture_path("cwd"),
        &home,
        use_env_roots,
        settings,
        inputs,
        catalog(),
    ) {
        Ok(context) => context,
        Err(_) => panic!("the context is available"),
    }
}

fn capture_home(use_env_roots: bool, values: &[(&str, &[u8])]) -> ResolvedLocalSourceContext {
    capture(
        Some(fixture_path("home")),
        use_env_roots,
        &no_settings(),
        &fixture_inputs(values),
    )
}

#[test]
fn path_qualification_preserves_parent_components() {
    let base = fixture_path("base");
    let relative = "a/../b/./c";
    assert_eq!(
        fully_qualified(&base, relative.as_bytes()),
        below(&base, relative)
    );
    assert_eq!(
        fully_qualified(&base, relative.as_bytes()),
        b"/fixture/base/a/../b/./c".to_vec()
    );
}

#[test]
fn paths_are_joined_with_one_separator() {
    assert_eq!(join(b"/a", b"b"), b"/a/b".to_vec());
    assert_eq!(join(b"/a/", b"b"), b"/a/b".to_vec());
    assert_eq!(join(b"/a", b"/b"), b"/b".to_vec());
    assert_eq!(join(b"/a", b""), b"/a/".to_vec());
    assert_eq!(join(b"", b"b"), b"b".to_vec());
}

#[test]
fn variables_keep_parent_components() {
    let configured = fixture_path("cwd/link/../codex");
    let context = capture_home(true, &[("CODEX_HOME", &configured)]);
    assert_eq!(
        context.source_env_path("CODEX_HOME"),
        Some(configured.as_slice())
    );
}

#[test]
fn macos_generic_config_root_uses_captured_home() {
    let home = fixture_path("home");
    let mut platform = fixture_platform();
    platform.target_os = UnixOs::MacOs;
    let context = capture(
        Some(home.clone()),
        true,
        &no_settings(),
        &fixture_inputs_with_platform(&[], platform),
    );

    assert_eq!(
        context.resolve_client_root(&PathRoot::Config),
        below(&home, ".config/tokscale")
    );
    assert_ne!(
        context.resolve_client_root(&PathRoot::Config),
        fixture_path("platform-config/tokscale")
    );
    assert_eq!(
        context.source_cache_dir(),
        Some(below(&home, ".config/tokscale/cache").as_slice())
    );
}

#[test]
fn missing_platform_config_dir_falls_back_to_captured_home() {
    let home = fixture_path("home");
    let mut platform = fixture_platform();
    platform.config_dir = None;
    let context = capture(
        Some(home.clone()),
        true,
        &no_settings(),
        &fixture_inputs_with_platform(&[], platform),
    );

    assert_eq!(
        context.resolve_client_root(&PathRoot::Config),
        below(&home, ".config/tokscale")
    );
}

#[test]
fn captured_runtime_fallback_cache_root_changes_identity_without_platform_config() {
    let mut platform = fixture_platform();
    platform.config_dir = None;
    let runtime_a = fixture_path("runtime-a");
    let runtime_b = fixture_path("runtime-b");
    let captured = |runtime: &[u8]| {
        capture(
            Some(fixture_path("home")),
            false,
            &no_settings(),
            &fixture_inputs_with_platform(&[(ENV_XDG_RUNTIME_DIR, runtime)], platform.clone()),
        )
    };

    let first = captured(&runtime_a);
    let second = captured(&runtime_b);

    assert_eq!(
        first.source_cache_dir(),
        Some(below(&runtime_a, "tokscale").as_slice())
    );
    assert_eq!(
        second.source_cache_dir(),
        Some(below(&runtime_b, "tokscale").as_slice())
    );
    assert_ne!(first.identity_bytes(), second.identity_bytes());

    let without_runtime = capture(
        Some(fixture_path("home")),
        false,
        &no_settings(),
        &fixture_inputs_with_platform(&[], platform.clone()),
    );
    assert_eq!(
        without_runtime.source_cache_dir(),
        Some(fixture_path("tmp/tokscale-uid-501").as_slice())
    );
}

#[test]
fn explicit_tokscale_config_dir_wins_over_platform_and_home_fallbacks() {
    let explicit = fixture_path("explicit-config");
    let context = capture_home(true, &[(ENV_TOKSCALE_CONFIG_DIR, &explicit)]);

    assert_eq!(context.resolve_client_root(&PathRoot::Config), explicit);
}

#[test]
fn captured_cache_root_changes_identity_when_env_roots_are_disabled() {
    let cache_a = fixture_path("cache-config-a");
    let cache_b = fixture_path("cache-config-b");
    let first = capture_home(false, &[(ENV_TOKSCALE_CONFIG_DIR, &cache_a)]);
    let second = capture_home(false, &[(ENV_TOKSCALE_CONFIG_DIR, &cache_b)]);

    assert_eq!(
        first.source_cache_dir(),
        Some(below(&cache_a, "cache").as_slice())
    );
    assert_eq!(
        second.source_cache_dir(),
        Some(below(&cache_b, "cache").as_slice())
    );
    assert_eq!(first.source_env_path(ENV_TOKSCALE_CONFIG_DIR), None);
    assert_eq!(second.source_env_path(ENV_TOKSCALE_CONFIG_DIR), None);
    for client in &catalog().clients {
        assert_eq!(
            first.resolve_client_path(client),
            second.resolve_client_path(client),
            "{}",
            client.id
        );
    }
    assert_eq!(
        first.scanner_settings().opencode_db_paths,
        second.scanner_settings().opencode_db_paths
    );
    assert_eq!(
        first.scanner_settings().extra_scan_paths,
        second.scanner_settings().extra_scan_paths
    );
    assert_eq!(first.extra_scan_paths(), second.extra_scan_paths());
    assert_eq!(first.codex_archive_root(), second.codex_archive_root());
    assert_ne!(first.identity_bytes(), second.identity_bytes());
}

#[test]
fn tokscale_config_dir_preserves_whitespace_only_explicit_values() {
    let cwd = fixture_path("cwd");
    let whitespace = "\u{00a0}";
    let explicit = fully_qualified(&cwd, whitespace.as_bytes());
    let context = capture_home(true, &[(ENV_TOKSCALE_CONFIG_DIR, whitespace.as_bytes())]);

    assert!(context.source_env_is_explicit(ENV_TOKSCALE_CONFIG_DIR));
    assert_eq!(context.resolve_client_root(&PathRoot::Config), explicit);
    assert_eq!(
        context.source_cache_dir(),
        Some(below(&explicit, "cache").as_slice())
    );
}

#[test]
fn xdg_config_home_preserves_explicit_empty_root() {
    let context = capture_home(true, &[(ENV_XDG_CONFIG_HOME, b"")]);

    assert!(context.source_env_is_explicit(ENV_XDG_CONFIG_HOME));
    assert_eq!(
        context.resolve_client_root(&PathRoot::Config),
        b"/tokscale".to_vec()
    );
}

#[test]
fn xdg_data_home_preserves_whitespace_only_explicit_values() {
    let cwd = fixture_path("cwd");
    let home = fixture_path("home");
    let unset = capture_home(true, &[]);
    let empty = capture_home(true, &[(ENV_XDG_DATA_HOME, b"")]);
    let whitespace = capture_home(true, &[(ENV_XDG_DATA_HOME, b" \t ")]);

    let fallback = below(&home, ".local/share");
    assert_eq!(unset.resolve_client_root(&PathRoot::XdgData), fallback);
    assert_eq!(empty.resolve_client_root(&PathRoot::XdgData), fallback);
    assert!(!unset.source_env_is_explicit(ENV_XDG_DATA_HOME));
    assert!(!empty.source_env_is_explicit(ENV_XDG_DATA_HOME));
    assert!(whitespace.source_env_is_explicit(ENV_XDG_DATA_HOME));
    assert_eq!(
        whitespace.resolve_client_root(&PathRoot::XdgData),
        fully_qualified(&cwd, b" \t ")
    );
}

#[test]
fn codex_archive_root_preserves_dedicated_override_semantics() {
    let cwd = fixture_path("cwd");
    let home = fixture_path("home");
    let captured = |value: Option<&str>| match value {
        Some(value) => capture_home(true, &[("CODEX_HOME", value.as_bytes())]),
        None => capture_home(true, &[]),
    };

    let unset = captured(None);
    let empty = captured(Some(""));
    let whitespace = captured(Some("\u{00a0}"));
    let other_whitespace = captured(Some(" "));
    let explicit = captured(Some("custom-codex"));
    let main_fallback = below(&home, ".codex");
    let codex_root = &catalog().clients[CODEX].root;

    assert_eq!(
        unset.codex_archive_root(),
        below(&main_fallback, "archived_sessions").as_slice()
    );
    assert_eq!(
        empty.codex_archive_root(),
        fully_qualified(&cwd, b"/archived_sessions").as_slice()
    );
    assert_eq!(
        whitespace.codex_archive_root(),
        fully_qualified(&cwd, "\u{00a0}/archived_sessions".as_bytes()).as_slice()
    );
    assert_eq!(
        explicit.codex_archive_root(),
        below(&cwd, "custom-codex/archived_sessions").as_slice()
    );
    assert_eq!(empty.resolve_client_root(codex_root), main_fallback);
    assert_eq!(
        whitespace.resolve_client_root(codex_root),
        below(&home, ".codex")
    );
    assert_ne!(
        whitespace.identity_bytes(),
        other_whitespace.identity_bytes()
    );
}

#[test]
fn direct_scanner_overrides_trim_like_legacy_resolvers() {
    let cwd = fixture_path("cwd");
    let home = fixture_path("home");

    for (key, raw) in [
        (ENV_COPILOT_EXPORTER, "  copilot.jsonl  "),
        (ENV_GOOSE_PATH_ROOT, "  goose-root  "),
        (ENV_CODEBUFF_DATA_DIR, "  codebuff-root  "),
    ] {
        let context = capture_home(true, &[(key, raw.as_bytes())]);
        assert!(context.source_env_is_explicit(key));
        assert_eq!(
            context.source_env_path(key),
            Some(fully_qualified(&cwd, raw.trim().as_bytes()).as_slice()),
            "{key}"
        );
    }

    for (key, fallback) in [
        (ENV_COPILOT_EXPORTER, below(&home, ".copilot/otel")),
        (ENV_GOOSE_PATH_ROOT, below(&home, ".local/share/goose")),
        (ENV_CODEBUFF_DATA_DIR, below(&home, ".config/manicode")),
    ] {
        let context = capture_home(true, &[(key, b" \t ")]);
        assert!(!context.source_env_is_explicit(key));
        assert_eq!(
            context.source_env_path(key),
            Some(fallback.as_slice()),
            "{key}"
        );
    }
}

#[test]
fn unicode_string_overrides_reject_non_utf8_native_values() {
    let home = fixture_path("home");
    let context = capture_home(
        true,
        &[
            (ENV_TOKSCALE_HEADLESS_DIR, b"  headless-\xff  "),
            (ENV_COPILOT_EXPORTER, b"  copilot-\xff  "),
            (ENV_GOOSE_PATH_ROOT, b"  goose-\xff  "),
            (ENV_CODEBUFF_DATA_DIR, b"  codebuff-\xff  "),
            (ENV_TOKSCALE_EXTRA_DIRS, b"codex=extra-\xff"),
        ],
    );
    let unset = capture_home(true, &[]);

    for (key, fallback) in [
        (
            ENV_TOKSCALE_HEADLESS_DIR,
            below(&home, ".config/tokscale/headless"),
        ),
        (ENV_COPILOT_EXPORTER, below(&home, ".copilot/otel")),
        (ENV_GOOSE_PATH_ROOT, below(&home, ".local/share/goose")),
        (ENV_CODEBUFF_DATA_DIR, below(&home, ".config/manicode")),
    ] {
        assert!(!context.source_env_is_explicit(key), "{key}");
        assert_eq!(
            context.source_env_path(key),
            Some(fallback.as_slice()),
            "{key}"
        );
        assert!(
            !String::from_utf8_lossy(context.source_env_path(key).unwrap()).contains('\u{fffd}'),
            "{key}"
        );
    }
    assert!(context.extra_scan_paths().is_empty());
    assert!(!context.source_env_is_explicit(ENV_TOKSCALE_EXTRA_DIRS));
    assert_eq!(context.identity_bytes(), unset.identity_bytes());
}

#[test]
fn unicode_only_env_roots_reject_non_utf8_native_values() {
    let invalid: &[u8] = b"invalid-\xff";
    let unset = capture_home(true, &[]);

    let keys: Vec<String> = resolver_environment_keys(&catalog())
        .into_iter()
        .filter(|key| source_env_requires_unicode(TargetOs::Linux, &catalog().clients, key))
        .collect();
    assert_eq!(keys.len(), 4);
    for key in keys {
        let invalid_context = capture_home(true, &[(&key, invalid)]);

        assert!(!invalid_context.source_env_is_explicit(&key), "{key}");
        assert_eq!(
            invalid_context.source_env_path(&key),
            unset.source_env_path(&key),
            "{key}"
        );
        assert_eq!(
            invalid_context.identity_bytes(),
            unset.identity_bytes(),
            "{key}"
        );
        assert!(
            !String::from_utf8_lossy(invalid_context.source_env_path(&key).unwrap())
                .contains('\u{fffd}'),
            "{key}"
        );
    }
}

#[test]
fn ordinary_env_paths_preserve_surrounding_whitespace() {
    let cwd = fixture_path("cwd");
    let raw = "  codex-root  ";
    let context = capture_home(true, &[("CODEX_HOME", raw.as_bytes())]);

    assert!(context.source_env_is_explicit("CODEX_HOME"));
    assert_eq!(
        context.source_env_path("CODEX_HOME"),
        Some(fully_qualified(&cwd, raw.as_bytes()).as_slice())
    );
}

#[test]
fn relative_configuration_is_bound_to_capture_cwd() {
    let mut settings = no_settings();
    settings.opencode_db_paths.push(b"db/opencode.db".to_vec());
    let context = capture(
        Some(b"home".to_vec()),
        false,
        &settings,
        &fixture_inputs(&[]),
    );
    assert_eq!(context.home_dir(), fixture_path("cwd/home").as_slice());
    assert_eq!(
        context.scanner_settings().opencode_db_paths,
        vec![fixture_path("cwd/db/opencode.db")]
    );
}

fn extra_paths(entries: &[(&str, &[&str])]) -> ScannerSettings {
    ScannerSettings {
        opencode_db_paths: Vec::new(),
        extra_scan_paths: entries
            .iter()
            .map(|(client, paths)| ClientPaths {
                client: (*client).to_owned(),
                paths: paths.iter().map(|path| path.as_bytes().to_vec()).collect(),
            })
            .collect(),
    }
}

#[test]
fn scanner_setting_empty_paths_are_identity_neutral() {
    let cwd = fixture_path("cwd");
    let captured = |settings: &ScannerSettings| {
        capture(
            Some(fixture_path("home")),
            false,
            settings,
            &fixture_inputs(&[]),
        )
    };

    let default = captured(&no_settings());
    let empty_only = captured(&extra_paths(&[("codex", &[""]), ("gemini", &[])]));

    let codex_root = "extra/codex";
    let codex_sibling = "extra/codex-sibling";
    let whitespace = " \t ";
    let gemini_root = "extra/gemini";
    let normalized = captured(&extra_paths(&[
        ("codex", &[codex_root, codex_sibling, whitespace]),
        ("gemini", &[gemini_root]),
    ]));
    let mixed = captured(&extra_paths(&[
        ("cline", &[""]),
        ("codex", &["", codex_root, "", codex_sibling, whitespace]),
        ("gemini", &["", gemini_root, ""]),
    ]));

    assert!(empty_only.scanner_settings().extra_scan_paths.is_empty());
    assert_eq!(
        default.scanner_settings().extra_scan_paths,
        empty_only.scanner_settings().extra_scan_paths
    );
    assert_eq!(default.identity_bytes(), empty_only.identity_bytes());
    assert_eq!(
        normalized.scanner_settings().extra_scan_paths,
        mixed.scanner_settings().extra_scan_paths
    );
    assert_eq!(normalized.identity_bytes(), mixed.identity_bytes());
    let paths = |context: &ResolvedLocalSourceContext, client: &str| {
        context
            .scanner_settings()
            .extra_scan_paths
            .iter()
            .find(|entry| entry.client == client)
            .map(|entry| entry.paths.clone())
    };
    assert_eq!(
        paths(&normalized, "codex"),
        Some(vec![
            below(&cwd, codex_root),
            below(&cwd, codex_sibling),
            below(&cwd, whitespace),
        ])
    );
    assert_eq!(
        paths(&normalized, "gemini"),
        Some(vec![below(&cwd, gemini_root)])
    );
    assert_eq!(paths(&mixed, "cline"), None);
}

#[test]
fn resolver_environment_inventory_covers_every_client_env_root() {
    let catalog = catalog();
    let keys = resolver_environment_keys(&catalog);
    for key in &catalog.direct_env_keys {
        assert!(keys.contains(key), "missing scanner input {key}");
    }
    for client in &catalog.clients {
        if let PathRoot::EnvVar { var, .. } = &client.root {
            assert!(keys.contains(var), "missing {var}");
        }
    }
    assert!(!keys.contains(&ENV_TOKSCALE_PRICING_CACHE_ONLY.to_owned()));
    assert!(!keys.contains(&ENV_XDG_RUNTIME_DIR.to_owned()));
}

#[test]
fn variables_are_listed_in_order_and_once() {
    let keys = resolver_environment_keys(&catalog());
    assert_eq!(
        keys,
        vec![
            "APPDATA",
            "CODEBUFF_DATA_DIR",
            "CODEX_HOME",
            "COPILOT_OTEL_FILE_EXPORTER_PATH",
            "GOOSE_PATH_ROOT",
            "HOME",
            "KIMI_CODE_HOME",
            "LOCALAPPDATA",
            "TOKSCALE_CONFIG_DIR",
            "TOKSCALE_EXTRA_DIRS",
            "TOKSCALE_HEADLESS_DIR",
            "XDG_CONFIG_HOME",
            "XDG_DATA_HOME",
        ]
    );
    let captured = captured_environment_keys(&catalog());
    assert_eq!(captured.len(), keys.len() + 2);
    assert!(captured.contains(&ENV_XDG_RUNTIME_DIR.to_owned()));
    assert!(captured.contains(&ENV_TOKSCALE_PRICING_CACHE_ONLY.to_owned()));
    assert!(is_client_var(&catalog().clients, "CODEX_HOME"));
    assert!(!is_client_var(&catalog().clients, "HOME"));
    assert_eq!(
        client_fallback(&catalog().clients, "CODEX_HOME"),
        Some(".codex")
    );
    assert_eq!(client_fallback(&catalog().clients, "HOME"), None);
}

#[test]
fn unicode_only_env_classification_tracks_every_client_env_root() {
    let clients = catalog().clients;
    for os in [
        TargetOs::Windows,
        TargetOs::Linux,
        TargetOs::MacOs,
        TargetOs::Other,
    ] {
        for client in &clients {
            if let PathRoot::EnvVar { var, .. } = &client.root {
                assert!(
                    source_env_requires_unicode(os, &clients, var),
                    "missing {var}"
                );
            }
        }
        assert!(source_env_requires_unicode(os, &clients, ENV_XDG_DATA_HOME));
        assert_eq!(
            source_env_requires_unicode(os, &clients, ENV_XDG_CONFIG_HOME),
            os == TargetOs::Linux
        );
        assert!(!source_env_requires_unicode(os, &clients, ENV_APPDATA));
        assert!(!source_env_requires_unicode(os, &clients, ENV_LOCALAPPDATA));
    }
}

#[test]
fn descriptor_has_fixed_sha256_and_native_path_vectors() {
    let mut settings = no_settings();
    settings.opencode_db_paths.push(b"db/opencode.db".to_vec());
    let context = capture(
        None,
        true,
        &settings,
        &fixture_inputs(&[
            (ENV_HOME, &fixture_path("home")),
            ("CODEX_HOME", b"relative-codex"),
        ]),
    );
    let identity = context.identity_string();
    assert_eq!(identity.len(), 68);
    assert!(identity.strip_prefix("sc1:").is_some_and(|hex| hex
        .bytes()
        .all(|byte| byte.is_ascii_digit() || matches!(byte, b'a'..=b'f'))));
    assert_eq!(
        identity,
        "sc1:f42acec6ed4af600f900bbf97eecba3495ad941ce69852c318d309082eb6dc32"
    );

    let mut descriptor = Descriptor::new();
    let path = NativeString::Bytes(vec![b'/', b'x', 0xff]);
    assert_eq!(descriptor.path(&path), Ok(()));
    assert_eq!(
        descriptor.bytes,
        vec![1, 1, 0, 0, 0, 3, b'/', b'x', 0xff]
    );
}

#[test]
fn identity_is_configuration_only() {
    let context = capture_home(false, &[]);
    let before = context.identity_string();
    assert_eq!(context.identity_string(), before);
    assert_eq!(capture_home(false, &[]).identity_string(), before);
    assert_eq!(before.len(), 68);
    assert!(before[4..]
        .bytes()
        .all(|byte| byte.is_ascii_hexdigit() && !byte.is_ascii_uppercase()));
    let elsewhere = capture(
        Some(fixture_path("elsewhere")),
        false,
        &no_settings(),
        &fixture_inputs(&[]),
    );
    assert_ne!(elsewhere.identity_string(), before);
}

#[test]
fn descriptors_write_numbers_texts_and_flags() {
    let mut descriptor = Descriptor::new();
    descriptor.field(7);
    descriptor.flag(true);
    descriptor.number(0x0102_0304);
    assert_eq!(descriptor.text("\u{e9}"), Ok(()));
    assert_eq!(descriptor.optional_path(&None), Ok(()));
    assert_eq!(
        descriptor.bytes,
        vec![0xf0, 7, 1, 1, 2, 3, 4, 0, 0, 0, 2, 0xc3, 0xa9, 0]
    );
}

#[test]
fn windows_descriptor_preserves_wtf16_code_units() {
    let mut descriptor = Descriptor::new();
    let units = NativeString::Units(vec![0x0043, 0x003a, 0x005c, 0xd800, 0x0061]);
    assert_eq!(descriptor.os(&units), Ok(()));
    assert_eq!(
        descriptor.bytes,
        vec![2, 0, 0, 0, 5, 0x00, 0x43, 0x00, 0x3a, 0x00, 0x5c, 0xd8, 0x00, 0x00, 0x61,]
    );
}

#[test]
fn windows_paths_belong_where_they_begin() {
    let base = PathHead::Drive(b'C');
    assert_eq!(
        place_path(false, PathHead::Drive(b'C'), base),
        Ok(Placement::TailBelowBase)
    );
    assert_eq!(
        place_path(false, PathHead::Drive(b'c'), base),
        Ok(Placement::TailBelowBase)
    );
    assert_eq!(
        place_path(false, PathHead::Root, base),
        Ok(Placement::BehindBasePrefix)
    );
    assert_eq!(
        place_path(true, PathHead::OtherPrefix, base),
        Ok(Placement::AsGiven)
    );
    assert_eq!(
        place_path(false, PathHead::Name, base),
        Ok(Placement::BelowBase)
    );
    for (path, base) in [
        (PathHead::Drive(b'D'), base),
        (PathHead::Drive(b'C'), PathHead::Root),
        (PathHead::OtherPrefix, base),
        (PathHead::Root, PathHead::Name),
    ] {
        assert_eq!(
            place_path(false, path, base),
            Err(SourceContextUnavailable)
        );
    }
}

#[test]
fn scanner_configuration_and_extra_dirs_change_source_identity() {
    let home = fixture_path("home");
    let inputs = fixture_inputs(&[(ENV_HOME, &home)]);
    let base = capture(None, true, &no_settings(), &inputs);

    let mut scanner_settings = extra_paths(&[("codex", &["extra/codex"])]);
    scanner_settings
        .opencode_db_paths
        .push(b"db/opencode.db".to_vec());
    let configured = capture(None, true, &scanner_settings, &inputs);
    assert_ne!(base.identity_bytes(), configured.identity_bytes());

    let mut listed = b"codex=".to_vec();
    listed.extend(fixture_path("external"));
    let extra_dirs = capture(
        None,
        true,
        &no_settings(),
        &fixture_inputs(&[(ENV_HOME, &home), (ENV_TOKSCALE_EXTRA_DIRS, &listed)]),
    );
    assert_ne!(base.identity_bytes(), extra_dirs.identity_bytes());
    assert_eq!(
        extra_dirs.extra_scan_paths(),
        &vec![ExtraDir {
            client: 1,
            path: fixture_path("external"),
        }]
    );
    assert!(extra_dirs.source_env_is_explicit(ENV_TOKSCALE_EXTRA_DIRS));
}

#[test]
fn pricing_cache_only_and_unused_runtime_fallback_do_not_change_source_identity() {
    let home = fixture_path("home");
    let canary = fixture_path("cache-canary");
    let base = fixture_inputs(&[(ENV_HOME, &home)]);
    let changed = fixture_inputs(&[
        (ENV_HOME, &home),
        (ENV_TOKSCALE_PRICING_CACHE_ONLY, b"1"),
        (ENV_XDG_RUNTIME_DIR, &canary),
    ]);
    let first = capture(None, true, &no_settings(), &base);
    let second = capture(None, true, &no_settings(), &changed);
    assert_eq!(first.source_cache_dir(), second.source_cache_dir());
    assert_eq!(first.identity_bytes(), second.identity_bytes());
    assert!(!first.pricing_cache_only());
    assert!(second.pricing_cache_only());
}

#[test]
fn only_some_words_ask_for_cached_prices() {
    for (value, asked) in [
        ("1", true),
        ("true", true),
        ("TRUE", true),
        ("yes", true),
        ("YES", true),
        ("True", false),
        ("0", false),
        (" 1", false),
        ("", false),
    ] {
        let context =
            capture_home(false, &[(ENV_TOKSCALE_PRICING_CACHE_ONLY, value.as_bytes())]);
        assert_eq!(context.pricing_cache_only(), asked, "{value}");
    }
}

#[test]
fn ignored_environment_does_not_change_identity_when_env_roots_are_disabled() {
    let contexts = [
        capture_home(false, &[]),
        capture_home(false, &[("CODEX_HOME", b"")]),
        capture_home(false, &[("CODEX_HOME", b"profile-a")]),
        capture_home(false, &[("CODEX_HOME", b"profile-b")]),
    ];
    assert!(contexts
        .windows(2)
        .all(|pair| pair[0].identity_bytes() == pair[1].identity_bytes()));
}

#[test]
fn unset_empty_fallback_and_explicit_states_are_unambiguous() {
    let unset = capture_home(true, &[]);
    let empty = capture_home(true, &[("CODEX_HOME", b"")]);
    let explicit_fallback = capture_home(true, &[("CODEX_HOME", &fixture_path("home/.codex"))]);
    assert_ne!(unset.identity_bytes(), empty.identity_bytes());
    assert_ne!(empty.identity_bytes(), explicit_fallback.identity_bytes());
    assert_ne!(unset.identity_bytes(), explicit_fallback.identity_bytes());
    let codex_root = &catalog().clients[CODEX].root;
    assert_eq!(
        unset.resolve_client_root(codex_root),
        explicit_fallback.resolve_client_root(codex_root)
    );
}

#[test]
fn a_home_directory_is_needed() {
    let mut platform = fixture_platform();
    platform.home_dir = None;
    let unavailable = ResolvedLocalSourceContext::capture_resolved(
        &fixture_path("cwd"),
        &Some(Vec::new()),
        true,
        &no_settings(),
        &fixture_inputs_with_platform(&[(ENV_HOME, b"")], platform.clone()),
        catalog(),
    );
    assert!(matches!(unavailable, Err(SourceContextUnavailable)));
    assert_eq!(
        SourceContextUnavailable.describe(),
        "sourceContextUnavailable"
    );
    let home = capture(
        Some(Vec::new()),
        true,
        &no_settings(),
        &fixture_inputs_with_platform(&[(ENV_HOME, b"env-home")], platform),
    );
    assert_eq!(home.home_dir(), fixture_path("cwd/env-home").as_slice());
    assert!(home.use_env_roots());
    let platform_home = capture(None, true, &no_settings(), &fixture_inputs(&[]));
    assert_eq!(
        platform_home.home_dir(),
        fixture_path("platform-home").as_slice()
    );
}

#[test]
fn every_path_of_a_context_is_absolute() {
    let mut settings = extra_paths(&[("codex", &["extra/codex"])]);
    settings.opencode_db_paths.push(b"db".to_vec());
    let mut platform = fixture_platform();
    platform.config_dir = Some(b"config".to_vec());
    let context = capture(
        Some(b"home".to_vec()),
        true,
        &settings,
        &fixture_inputs_with_platform(
            &[
                ("CODEX_HOME", b"codex"),
                (ENV_TOKSCALE_EXTRA_DIRS, b"codex=more"),
                (ENV_TOKSCALE_HEADLESS_DIR, b"headless"),
            ],
            platform,
        ),
    );
    let absolute = |path: &[u8]| path.first() == Some(&b'/');
    assert!(absolute(context.home_dir()));
    assert!(absolute(context.codex_archive_root()));
    assert!(context.source_cache_dir().is_some_and(absolute));
    for key in resolver_environment_keys(&catalog()) {
        assert!(context.source_env_path(&key).is_some_and(absolute), "{key}");
    }
    for client in &catalog().clients {
        assert!(absolute(&context.resolve_client_path(client)));
    }
    assert!(context
        .extra_scan_paths()
        .iter()
        .all(|dir| absolute(&dir.path)));
    assert!(context
        .scanner_settings()
        .opencode_db_paths
        .iter()
        .all(|path| absolute(path)));
}

#[test]
fn the_identity_is_the_digest_of_the_descriptor() {
    let inputs = SourceResolutionInputs::capture_with(
        Vec::new(),
        PlatformInputs {
            target_os: UnixOs::Linux,
            config_dir: None,
            data_local_dir: None,
            home_dir: None,
            temp_dir: b"/tmp".to_vec(),
            user_id: 0,
        },
        Vec::new(),
    );
    let context = match ResolvedLocalSourceContext::capture_resolved(
        b"/",
        &Some(b"/h".to_vec()),
        false,
        &no_settings(),
        &inputs,
        SourceCatalog {
            clients: Vec::new(),
            direct_env_keys: Vec::new(),
        },
    ) {
        Ok(context) => context,
        Err(_) => panic!("the context is available"),
    };
    let identity = context.identity_string();
    assert_eq!(identity.len(), 68);
    assert!(identity[4..]
        .bytes()
        .all(|byte| byte.is_ascii_hexdigit() && !byte.is_ascii_uppercase()));
    assert_eq!(context.data_local_dir(), None);
    let mut expected = vec![0xf0, 1, 0, 0, 0, 23];
    expected.extend(b"tokenbar-source-context");
    expected.extend([0xf0, 2, 0, 0, 0, 1, 0xf0, 3, 3, 0xf0, 4, 0]);
    expected.extend([0xf0, 5, 1, 1, 0, 0, 0, 2, b'/', b'h']);
    expected.extend([0xf0, 6, 0, 0, 0, 5, 0, 0, 0, 4]);
    expected.extend(b"HOME");
    let descriptor = context.descriptor().expect("a descriptor");
    assert_eq!(descriptor[..expected.len()], expected[..]);
    assert!(descriptor.ends_with(b"/tmp/tokscale-uid-0"));
    assert_eq!(
        context.identity_string(),
        "sc1:596f36320ffad4a0d2084f851f702bef2ab7a220e01b82492bf64469af0d0992"
    );
}

#[test]
fn a_user_configuration_with_a_name_leaves_the_platform_in_place() {
    let context = capture_home(true, &[(ENV_XDG_CONFIG_HOME, b"/x")]);
    assert!(context.source_env_is_explicit(ENV_XDG_CONFIG_HOME));
    assert_eq!(
        context.source_env_path(ENV_XDG_CONFIG_HOME),
        Some(b"/x".as_slice())
    );
    assert_eq!(
        context.resolve_client_root(&PathRoot::Config),
        fixture_path("platform-config/tokscale")
    );

    let own = fixture_path("own");
    let both = capture_home(
        true,
        &[(ENV_XDG_CONFIG_HOME, b""), (ENV_TOKSCALE_CONFIG_DIR, &own)],
    );
    assert_eq!(both.resolve_client_root(&PathRoot::Config), own);

    let emptied = capture_home(
        true,
        &[(ENV_XDG_CONFIG_HOME, b""), (ENV_TOKSCALE_CONFIG_DIR, b"")],
    );
    assert_eq!(
        emptied.resolve_client_root(&PathRoot::Config),
        b"/tokscale".to_vec()
    );
}

#[test]
fn every_system_has_its_tag() {
    assert_eq!(target_os_tag(TargetOs::Windows), 1);
    assert_eq!(target_os_tag(TargetOs::MacOs), 2);
    assert_eq!(target_os_tag(TargetOs::Linux), 3);
    assert_eq!(target_os_tag(TargetOs::Other), 255);
    assert_eq!(UnixOs::MacOs.target_os(), TargetOs::MacOs);
    assert_eq!(UnixOs::Linux.target_os(), TargetOs::Linux);
    assert_eq!(UnixOs::Other.target_os(), TargetOs::Other);
}

#[test]
fn every_system_has_its_place_for_configuration() {
    let nothing = ConfigInputs {
        use_env_roots: true,
        own: false,
        own_is_explicit: false,
        user: false,
        user_is_emptied: false,
        platform: false,
    };
    let ignored = ConfigInputs {
        use_env_roots: false,
        own: true,
        own_is_explicit: true,
        user: true,
        user_is_emptied: true,
        platform: true,
    };
    let own = ConfigInputs {
        own: true,
        user: true,
        platform: true,
        ..nothing
    };
    for os in [TargetOs::MacOs, TargetOs::Linux, TargetOs::Other] {
        assert_eq!(config_place(os, ignored), ConfigPlace::InHomeConfig);
        assert_eq!(config_place(os, nothing), ConfigPlace::InHomeConfig);
        assert_eq!(config_place(os, own), ConfigPlace::Own);
    }
    let windows = TargetOs::Windows;
    assert_eq!(config_place(windows, ignored), ConfigPlace::InHomeRoaming);
    assert_eq!(config_place(windows, nothing), ConfigPlace::InHomeConfig);
    assert_eq!(config_place(windows, own), ConfigPlace::Own);
    let platform = ConfigInputs {
        platform: true,
        ..nothing
    };
    assert_eq!(
        config_place(windows, platform),
        ConfigPlace::InPlatformConfig
    );
    assert_eq!(
        config_place(TargetOs::Linux, platform),
        ConfigPlace::InHomeConfig
    );
    let user = ConfigInputs {
        user: true,
        ..platform
    };
    assert_eq!(
        config_place(TargetOs::Linux, user),
        ConfigPlace::InUserConfig
    );
    assert_eq!(config_place(windows, user), ConfigPlace::InPlatformConfig);
    assert_eq!(
        config_place(TargetOs::MacOs, user),
        ConfigPlace::InHomeConfig
    );
    let emptied = ConfigInputs {
        user_is_emptied: true,
        ..own
    };
    assert_eq!(
        config_place(TargetOs::Linux, emptied),
        ConfigPlace::InUserConfig
    );
    assert_eq!(config_place(windows, emptied), ConfigPlace::Own);
    let given = ConfigInputs {
        own_is_explicit: true,
        ..emptied
    };
    assert_eq!(config_place(TargetOs::Linux, given), ConfigPlace::Own);
}

#[test]
fn windows_may_have_no_place_for_a_cache() {
    let nothing = CacheInputs {
        own: false,
        platform: false,
        runtime: false,
    };
    let runtime = CacheInputs {
        runtime: true,
        ..nothing
    };
    let platform = CacheInputs {
        platform: true,
        ..runtime
    };
    let own = CacheInputs {
        own: true,
        ..platform
    };
    assert_eq!(cache_place(TargetOs::Windows, nothing), None);
    for os in [TargetOs::Linux, TargetOs::Other] {
        assert_eq!(cache_place(os, nothing), Some(CachePlace::InTemporary));
    }
    for os in [TargetOs::Windows, TargetOs::Linux, TargetOs::Other] {
        assert_eq!(cache_place(os, runtime), Some(CachePlace::InRuntime));
        assert_eq!(
            cache_place(os, platform),
            Some(CachePlace::InPlatformConfig)
        );
        assert_eq!(cache_place(os, own), Some(CachePlace::InOwnConfig));
    }
    for inputs in [nothing, runtime, platform] {
        assert_eq!(
            cache_place(TargetOs::MacOs, inputs),
            Some(CachePlace::InHomeConfig)
        );
    }
}

fn windows_description(catalog: &SourceCatalog, cache: Option<&[u16]>) -> (Vec<u8>, [u8; 32]) {
    let native = |text: &str| NativeString::Units(text.encode_utf16().collect());
    let description = Description {
        os: TargetOs::Windows,
        use_env_roots: false,
        home_dir: native(r"C:\h"),
        variables: vec![VariableEntry {
            key: ENV_HOME.to_owned(),
            state: InputState::Unset,
            resolution: PathResolution::Fallback,
            path: Some(native(r"C:\h")),
        }],
        platform_config_dir: None,
        platform_data_local_dir: None,
        clients: vec![ClientEntry {
            client: &catalog.clients[2],
            path: native(r"C:\h\.gemini/tmp"),
        }],
        opencode_db_paths: vec![native(r"C:\db")],
        settings_paths: vec![PathsEntry {
            client: "codex".to_owned(),
            paths: vec![native(r"C:\x")],
        }],
        extra_dirs: vec![DirEntry {
            client: 1,
            path: native(r"C:\y"),
        }],
        codex_archive_root: native(r"C:\h\.codex/archived_sessions"),
        source_cache_dir: cache.map(|units| NativeString::Units(units.to_vec())),
    };
    let bytes = description.descriptor().expect("a descriptor");
    let identity = description.identity().expect("an identity");
    (bytes, identity)
}

#[test]
fn windows_none_and_some_cache_roots_have_distinct_identity() {
    let catalog = catalog();
    let cache: Vec<u16> = r"C:\c".encode_utf16().collect();
    let (without, without_identity) = windows_description(&catalog, None);
    let (with, with_identity) = windows_description(&catalog, Some(&cache));
    let units = |text: &str| -> Vec<u8> {
        let mut bytes = vec![1, 2, 0, 0, 0, text.len() as u8];
        bytes.extend(text.bytes().flat_map(|byte| [0, byte]));
        bytes
    };
    let mut expected = vec![0xf0, 1, 0, 0, 0, 23];
    expected.extend(b"tokenbar-source-context");
    expected.extend([0xf0, 2, 0, 0, 0, 1, 0xf0, 3, 1, 0xf0, 4, 0, 0xf0, 5]);
    expected.extend(units(r"C:\h"));
    expected.extend([0xf0, 6, 0, 0, 0, 1, 0, 0, 0, 4]);
    expected.extend(b"HOME");
    expected.extend([0, 1, 1]);
    expected.extend(units(r"C:\h"));
    expected.extend([0xf0, 7, 0, 0xf0, 8, 0, 0xf0, 9, 0, 0, 0, 1, 0, 0, 0, 2]);
    expected.extend([0, 0, 0, 6]);
    expected.extend(b"gemini");
    expected.extend([1, 0, 0, 0, 11]);
    expected.extend(b".gemini/tmp");
    expected.extend([0, 0, 0, 7]);
    expected.extend(b"*.jsonl");
    expected.extend(units(r"C:\h\.gemini/tmp"));
    expected.extend([0xf0, 10, 0, 0, 0, 1]);
    expected.extend(units(r"C:\db"));
    expected.extend([0xf0, 11, 0, 0, 0, 1, 0, 0, 0, 5]);
    expected.extend(b"codex");
    expected.extend([0, 0, 0, 1]);
    expected.extend(units(r"C:\x"));
    expected.extend([0xf0, 12, 0, 0, 0, 1, 0, 0, 0, 1]);
    expected.extend(units(r"C:\y"));
    expected.extend([0xf0, 13]);
    expected.extend(units(r"C:\h\.codex/archived_sessions"));
    expected.extend([0xf0, 14]);
    let mut expected_with = expected.clone();
    expected.push(0);
    expected_with.push(1);
    expected_with.extend(units(r"C:\c"));
    assert_eq!(without, expected);
    assert_eq!(with, expected_with);
    assert_ne!(without_identity, with_identity);
}

#[test]
fn windows_cache_root_identity_preserves_unpaired_utf16() {
    let catalog = catalog();
    let unpaired = [0x0043, 0x003a, 0x005c, 0xd800];
    let replaced = [0x0043, 0x003a, 0x005c, 0xfffd];
    let (native, native_identity) = windows_description(&catalog, Some(&unpaired));
    let (decoy, decoy_identity) = windows_description(&catalog, Some(&replaced));
    assert!(native.ends_with(&[0x00, 0x5c, 0xd8, 0x00]));
    assert!(decoy.ends_with(&[0x00, 0x5c, 0xff, 0xfd]));
    assert_ne!(native_identity, decoy_identity);
}

#[test]
fn variables_count_by_their_kind_on_every_system() {
    let clients = catalog().clients;
    let chosen = |os, key: &str, value, roots| {
        let choice = choose_variable(os, &clients, key, value, roots);
        (choice.state, choice.resolution, choice.place)
    };
    let unset = VariableValue::Unset;
    let no_text = VariableValue::NoText;
    let empty = VariableValue::Text("");
    let blank = VariableValue::Text(" \t ");
    let text = VariableValue::Text(" x ");
    let fallback = (
        InputState::Unset,
        PathResolution::Fallback,
        VariablePlace::Fallback,
    );
    let explicit = (
        InputState::Value,
        PathResolution::Explicit,
        VariablePlace::Value,
    );
    let blank_fallback = (
        InputState::Value,
        PathResolution::Fallback,
        VariablePlace::Fallback,
    );
    let empty_fallback = (
        InputState::Empty,
        PathResolution::Fallback,
        VariablePlace::Fallback,
    );
    for os in [
        TargetOs::Windows,
        TargetOs::MacOs,
        TargetOs::Linux,
        TargetOs::Other,
    ] {
        for value in [unset, no_text, empty, blank, text] {
            let ignored = chosen(os, "CODEX_HOME", value, false);
            assert_eq!(ignored.1, PathResolution::Ignored);
            assert_eq!(ignored.2, VariablePlace::Nowhere);
            assert_eq!(ignored.0, InputState::Unset);
            let home = chosen(os, ENV_HOME, value, false);
            assert_eq!(home, (value.input_state(), PathResolution::Fallback, VariablePlace::Home));
        }
        // Native values of Windows directories count as they are, text or not.
        for key in [ENV_APPDATA, ENV_LOCALAPPDATA, ENV_TOKSCALE_CONFIG_DIR] {
            assert_eq!(chosen(os, key, unset, true), fallback);
            assert_eq!(chosen(os, key, no_text, true), explicit);
            assert_eq!(chosen(os, key, blank, true), explicit);
            assert_eq!(chosen(os, key, text, true), explicit);
            assert_eq!(chosen(os, key, empty, true), empty_fallback);
        }
        // Roots of clients need text, and more than white space.
        assert_eq!(chosen(os, "CODEX_HOME", no_text, true), fallback);
        assert_eq!(chosen(os, "CODEX_HOME", blank, true), blank_fallback);
        assert_eq!(chosen(os, "CODEX_HOME", text, true), explicit);
        assert_eq!(chosen(os, "CODEX_HOME", empty, true), empty_fallback);
        // Some lose the white space around them.
        assert_eq!(
            chosen(os, ENV_GOOSE_PATH_ROOT, text, true),
            (
                InputState::Value,
                PathResolution::Explicit,
                VariablePlace::TrimmedValue
            )
        );
        assert_eq!(chosen(os, ENV_GOOSE_PATH_ROOT, no_text, true), fallback);
        assert_eq!(chosen(os, ENV_GOOSE_PATH_ROOT, blank, true), blank_fallback);
        // The directory of a headless run counts even if it is empty.
        assert_eq!(
            chosen(os, ENV_TOKSCALE_HEADLESS_DIR, empty, true),
            (
                InputState::Empty,
                PathResolution::Explicit,
                VariablePlace::Value
            )
        );
        assert_eq!(chosen(os, ENV_TOKSCALE_HEADLESS_DIR, no_text, true), fallback);
        assert_eq!(
            chosen(os, ENV_XDG_CONFIG_HOME, no_text, true),
            if os == TargetOs::Linux { fallback } else { explicit }
        );
        assert_eq!(
            chosen(os, ENV_XDG_CONFIG_HOME, empty, true),
            if os == TargetOs::Linux {
                (
                    InputState::Empty,
                    PathResolution::Explicit,
                    VariablePlace::Root,
                )
            } else {
                empty_fallback
            }
        );
        assert_eq!(
            choose_fallback(os, &clients, ENV_TOKSCALE_CONFIG_DIR, true),
            if os == TargetOs::MacOs {
                FallbackPlace::InHome(".config/tokscale")
            } else {
                FallbackPlace::InPlatformConfig
            }
        );
        for (key, place) in [
            (ENV_TOKSCALE_CONFIG_DIR, FallbackPlace::InHome(".config/tokscale")),
            (ENV_XDG_DATA_HOME, FallbackPlace::InHome(".local/share")),
            (ENV_XDG_CONFIG_HOME, FallbackPlace::InHome(".config")),
            (ENV_APPDATA, FallbackPlace::InHome("AppData/Roaming")),
            (ENV_LOCALAPPDATA, FallbackPlace::InHome("AppData/Local")),
            (ENV_KIMI_CODE_HOME, FallbackPlace::InHome(".kimi-code")),
            ("CODEX_HOME", FallbackPlace::InHome(".codex")),
            (ENV_TOKSCALE_EXTRA_DIRS, FallbackPlace::Home),
            ("NOT_READ", FallbackPlace::Home),
        ] {
            assert_eq!(choose_fallback(os, &clients, key, false), place);
        }
    }
}

#[test]
fn captured_values_are_read_as_asked() {
    let inputs = fixture_inputs(&[
        ("CODEX_HOME", b"caf\xc3\xa9"),
        (ENV_APPDATA, b"\xff"),
        (ENV_LOCALAPPDATA, b""),
    ]);
    assert_eq!(inputs.var_string("CODEX_HOME"), Some("caf\u{e9}"));
    assert_eq!(inputs.var_string(ENV_APPDATA), None);
    assert_eq!(inputs.var_os(ENV_APPDATA), Some(&vec![0xff]));
    assert_eq!(inputs.var_string(ENV_LOCALAPPDATA), Some(""));
    assert_eq!(inputs.var_nonempty(ENV_LOCALAPPDATA), None);
    assert_eq!(inputs.var_os(ENV_GOOSE_PATH_ROOT), None);
}

#[test]
fn further_choices_depend_on_what_is_known() {
    let text = VariableValue::Text("x");
    assert_eq!(home_place(true, true, true), Some(HomePlace::Given));
    assert_eq!(home_place(false, true, true), Some(HomePlace::Environment));
    assert_eq!(home_place(false, false, true), Some(HomePlace::Platform));
    assert_eq!(home_place(false, false, false), None);
    for value in [VariableValue::Unset, VariableValue::NoText] {
        assert!(!takes_codex_variable(true, value));
        assert!(!takes_listed_dirs(true, value));
        assert!(!asks_for_cached_prices(value));
        assert_eq!(
            choose_extra_dirs(true, value, false).state,
            InputState::Unset
        );
    }
    assert!(takes_codex_variable(true, text) && !takes_codex_variable(false, text));
    assert!(takes_listed_dirs(true, text) && !takes_listed_dirs(false, text));
    assert!(asks_for_cached_prices(VariableValue::Text("YES")));
    assert!(!asks_for_cached_prices(text));
    assert_eq!(
        choose_extra_dirs(true, text, true).resolution,
        PathResolution::Explicit
    );
    assert_eq!(
        choose_extra_dirs(true, text, false).resolution,
        PathResolution::Fallback
    );
    assert_eq!(
        choose_extra_dirs(false, text, true).place,
        VariablePlace::Nowhere
    );
}

#[test]
fn cached_prices_do_not_matter_without_a_configuration_directory() {
    let mut platform = fixture_platform();
    platform.config_dir = None;
    let captured = |values: &[(&str, &[u8])]| {
        capture(
            Some(fixture_path("home")),
            true,
            &no_settings(),
            &fixture_inputs_with_platform(values, platform.clone()),
        )
    };
    let runtime = fixture_path("runtime");
    let first = captured(&[(ENV_XDG_RUNTIME_DIR, &runtime)]);
    let second = captured(&[
        (ENV_XDG_RUNTIME_DIR, &runtime),
        (ENV_TOKSCALE_PRICING_CACHE_ONLY, b"yes"),
    ]);
    assert!(second.pricing_cache_only());
    assert_eq!(first.identity_bytes(), second.identity_bytes());
}

#[test]
fn settings_keep_the_order_of_their_clients() {
    let context = capture(
        Some(fixture_path("home")),
        false,
        &extra_paths(&[
            ("cline", &["extra/cline"]),
            ("codex", &[""]),
            ("gemini", &["extra/gemini"]),
        ]),
        &fixture_inputs(&[]),
    );
    let clients: Vec<&str> = context
        .scanner_settings()
        .extra_scan_paths
        .iter()
        .map(|entry| entry.client.as_str())
        .collect();
    assert_eq!(clients, vec!["cline", "gemini"]);
}
