use zed_extension_api::serde_json::Value;
use zed_extension_api::settings::LspSettings;
use zed_vyper::{Backend, VyperExtension};

fn object(entries: Vec<(&str, Value)>) -> Value {
    let mut map = zed_extension_api::serde_json::Map::new();
    for (key, value) in entries {
        map.insert(key.to_string(), value);
    }
    Value::Object(map)
}

fn text(s: &str) -> Value {
    Value::String(s.to_string())
}

#[test]
fn normalizes_vyper_file_root_to_parent() {
    let base = VyperExtension::normalized_worktree_base("/workspace/contracts/main/Foo.vy");
    assert_eq!(base, "/workspace/contracts/main".to_string());
}

#[test]
fn generates_fallback_site_packages_candidates() {
    let venv_dir = "/workspace/.venv";
    let candidates = VyperExtension::fallback_site_packages(venv_dir);
    assert_eq!(
        candidates,
        vec![
            "/workspace/.venv/lib/python3.15/site-packages",
            "/workspace/.venv/lib/python3.14/site-packages",
            "/workspace/.venv/lib/python3.13/site-packages",
            "/workspace/.venv/lib/python3.12/site-packages",
            "/workspace/.venv/lib/python3.11/site-packages",
            "/workspace/.venv/lib/python3.10/site-packages",
        ]
    );
}

#[test]
fn generates_unix_workspace_venv_candidates_for_all_ancestors() {
    let base = "/workspace/contracts/main";
    let venv = VyperExtension::workspace_venv_for_base_with_platform(base, false);
    assert_eq!(
        venv.bin_dirs,
        vec![
            "/workspace/contracts/main/.venv/bin",
            "/workspace/contracts/.venv/bin",
            "/workspace/.venv/bin",
        ]
    );

    assert_eq!(
        &venv.site_packages[..6],
        &[
            "/workspace/contracts/main/.venv/lib/python3.15/site-packages",
            "/workspace/contracts/main/.venv/lib/python3.14/site-packages",
            "/workspace/contracts/main/.venv/lib/python3.13/site-packages",
            "/workspace/contracts/main/.venv/lib/python3.12/site-packages",
            "/workspace/contracts/main/.venv/lib/python3.11/site-packages",
            "/workspace/contracts/main/.venv/lib/python3.10/site-packages",
        ]
    );
}

#[test]
fn generates_windows_workspace_venv_candidates() {
    let venv = VyperExtension::workspace_venv_for_base_with_platform("repo", true);

    assert_eq!(venv.bin_dirs, vec!["repo/.venv/Scripts"]);
    assert_eq!(venv.site_packages, vec!["repo/.venv/Lib/site-packages"]);
}

#[test]
fn initialization_options_are_none_when_unset() {
    assert_eq!(
        VyperExtension::initialization_options_from_settings(None),
        None
    );
}

#[test]
fn workspace_configuration_is_none_when_unset() {
    assert_eq!(
        VyperExtension::workspace_configuration_from_settings(None),
        None
    );
}

#[test]
fn backend_defaults_to_vyper_lsp_when_unset() {
    assert_eq!(VyperExtension::backend_from_settings_value(None), Backend::VyperLsp);
    assert_eq!(
        VyperExtension::backend_from_settings_value(Some(&object(vec![]))),
        Backend::VyperLsp
    );
}

#[test]
fn backend_parses_couleuvre_from_settings() {
    assert_eq!(
        VyperExtension::backend_from_settings_value(Some(&object(vec![(
            "backend",
            text("couleuvre")
        )]))),
        Backend::Couleuvre
    );
}

#[test]
fn invalid_backend_defaults_to_vyper_lsp() {
    assert_eq!(
        VyperExtension::backend_from_settings_value(Some(&object(vec![(
            "backend",
            text("unknown")
        )]))),
        Backend::VyperLsp
    );
}

#[test]
fn workspace_configuration_strips_backend_setting() {
    let settings = LspSettings {
        binary: None,
        initialization_options: None,
        settings: Some(object(vec![
            ("backend", text("couleuvre")),
            ("foo", object(vec![("bar", Value::Bool(true))])),
        ])),
    };

    assert_eq!(
        VyperExtension::workspace_configuration_from_settings(Some(settings)),
        Some(object(vec![("foo", object(vec![("bar", Value::Bool(true))]))]))
    );
}

#[test]
fn workspace_configuration_returns_none_when_only_backend_is_present() {
    let settings = LspSettings {
        binary: None,
        initialization_options: None,
        settings: Some(object(vec![("backend", text("couleuvre"))])),
    };

    assert_eq!(
        VyperExtension::workspace_configuration_from_settings(Some(settings)),
        None
    );
}

#[test]
fn prepends_and_deduplicates_env_path() {
    let mut env = vec![(
        "PYTHONPATH".to_string(),
        "/old/site-packages:/workspace/.venv/lib/python3.12/site-packages".to_string(),
    )];

    VyperExtension::prepend_env_path(
        &mut env,
        "PYTHONPATH",
        "/workspace/.venv/lib/python3.12/site-packages",
        ":",
    );

    assert_eq!(
        env,
        vec![(
            "PYTHONPATH".to_string(),
            "/workspace/.venv/lib/python3.12/site-packages:/old/site-packages".to_string(),
        )]
    );
}

#[test]
fn explicit_env_overrides_win_last() {
    let mut env = vec![("PATH".to_string(), "/venv/bin:/usr/bin".to_string())];
    VyperExtension::apply_env_overrides(
        &mut env,
        vec![("PATH".to_string(), "/custom/bin".to_string())],
    );

    assert_eq!(env, vec![("PATH".to_string(), "/custom/bin".to_string())]);
}

#[test]
fn workspace_venv_is_only_applied_for_vyper_lsp() {
    let venv = VyperExtension::workspace_venv_for_base_with_platform(
        "/workspace/contracts/main",
        false,
    );
    let mut env = vec![("PATH".to_string(), "/usr/bin".to_string())];

    VyperExtension::apply_workspace_venv(&venv, &mut env, ":");

    assert_eq!(
        env.first(),
        Some(&(
            "PYTHONPATH".to_string(),
            "/workspace/contracts/main/.venv/lib/python3.15/site-packages:/workspace/contracts/main/.venv/lib/python3.14/site-packages:/workspace/contracts/main/.venv/lib/python3.13/site-packages:/workspace/contracts/main/.venv/lib/python3.12/site-packages:/workspace/contracts/main/.venv/lib/python3.11/site-packages:/workspace/contracts/main/.venv/lib/python3.10/site-packages:/workspace/contracts/.venv/lib/python3.15/site-packages:/workspace/contracts/.venv/lib/python3.14/site-packages:/workspace/contracts/.venv/lib/python3.13/site-packages:/workspace/contracts/.venv/lib/python3.12/site-packages:/workspace/contracts/.venv/lib/python3.11/site-packages:/workspace/contracts/.venv/lib/python3.10/site-packages:/workspace/.venv/lib/python3.15/site-packages:/workspace/.venv/lib/python3.14/site-packages:/workspace/.venv/lib/python3.13/site-packages:/workspace/.venv/lib/python3.12/site-packages:/workspace/.venv/lib/python3.11/site-packages:/workspace/.venv/lib/python3.10/site-packages".to_string()
        ))
    );
    assert_eq!(
        env.get(1),
        Some(&(
            "PATH".to_string(),
            "/workspace/contracts/main/.venv/bin:/workspace/contracts/.venv/bin:/workspace/.venv/bin:/usr/bin".to_string()
        ))
    );
}

#[test]
fn couleuvre_missing_binary_message_mentions_couleuvre() {
    assert_eq!(
        VyperExtension::missing_binary_message(Backend::Couleuvre),
        "Couleuvre currently requires an explicit `lsp.vyper-lsp.binary.path`. Install it with `uv tool install --with packaging couleuvre`, then point Zed at a working Couleuvre command such as the tool environment Python with arguments `[-m, couleuvre]`, or use an explicit `uv run` command.".to_string()
    );
}
