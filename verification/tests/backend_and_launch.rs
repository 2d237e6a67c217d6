use zed_extension_api::serde_json::Value;
use zed_vyper::host::{BinarySettings, LspSettingsParts};
use zed_vyper::{Backend, VyperExtension};

fn object(entries: Vec<(&str, Value)>) -> Value {
    let mut map = zed_extension_api::serde_json::Map::new();
    for (key, value) in entries {
        map.insert(key.to_string(), value);
    }
    Value::Object(map)
}

fn object_map(entries: Vec<(&str, Value)>) -> zed_extension_api::serde_json::Map<String, Value> {
    match object(entries) {
        Value::Object(map) => map,
        _ => unreachable!(),
    }
}

#[test]
fn backend_names_select_backends() {
    assert_eq!(VyperExtension::backend_from_name("couleuvre"), Backend::Couleuvre);
    assert_eq!(VyperExtension::backend_from_name("Couleuvre"), Backend::VyperLsp);
    assert_eq!(VyperExtension::backend_from_name("vyper-lsp"), Backend::VyperLsp);
    assert_eq!(VyperExtension::backend_from_name(""), Backend::VyperLsp);
    assert_eq!(VyperExtension::backend_from_setting(None), Backend::VyperLsp);
    assert_eq!(VyperExtension::backend_from_setting(Some("couleuvre")), Backend::Couleuvre);
    assert_eq!(Backend::default(), Backend::VyperLsp);
}

#[test]
fn binary_names_select_their_backend_again() {
    for backend in [Backend::VyperLsp, Backend::Couleuvre] {
        let name = VyperExtension::backend_binary_name(backend);
        assert_eq!(VyperExtension::backend_from_name(name), backend);
    }
    assert_eq!(VyperExtension::backend_binary_name(Backend::VyperLsp), "vyper-lsp");
}

#[test]
fn vyper_lsp_missing_binary_message_explains_install() {
    assert_eq!(
        VyperExtension::missing_binary_message(Backend::VyperLsp),
        "Unable to find `vyper-lsp`. Install it with `uv tool install vyper-lsp`, ensure it is available on your PATH, or configure `lsp.vyper-lsp.binary.path`."
    );
}

#[test]
fn backend_setting_must_be_a_string_in_an_object() {
    assert_eq!(
        VyperExtension::backend_from_settings_value(Some(&object(vec![(
            "backend",
            Value::Bool(true)
        )]))),
        Backend::VyperLsp
    );
    assert_eq!(
        VyperExtension::backend_from_settings_value(Some(&Value::String("couleuvre".to_string()))),
        Backend::VyperLsp
    );
}

#[test]
fn command_resolution_prefers_explicit_path() {
    assert_eq!(
        VyperExtension::choose_command(
            Some("/bin/x".to_string()),
            Backend::Couleuvre,
            Some("/found".to_string())
        ),
        Ok("/bin/x".to_string())
    );
    assert_eq!(
        VyperExtension::choose_command(None, Backend::VyperLsp, Some("/found".to_string())),
        Ok("/found".to_string())
    );
    assert_eq!(
        VyperExtension::choose_command(None, Backend::VyperLsp, None),
        Err(VyperExtension::missing_binary_message(Backend::VyperLsp))
    );
    assert_eq!(
        VyperExtension::choose_command(None, Backend::Couleuvre, Some("/found".to_string())),
        Err(VyperExtension::missing_binary_message(Backend::Couleuvre))
    );
}

#[test]
fn path_lookup_only_for_default_backend_without_path() {
    assert!(VyperExtension::needs_path_lookup(&None, Backend::VyperLsp));
    assert!(!VyperExtension::needs_path_lookup(&None, Backend::Couleuvre));
    assert!(!VyperExtension::needs_path_lookup(&Some("/x".to_string()), Backend::VyperLsp));
}

#[test]
fn separators_per_platform() {
    assert_eq!(VyperExtension::path_list_separator_for(true), ";");
    assert_eq!(VyperExtension::path_list_separator_for(false), ":");
}

#[test]
fn launch_settings_take_binary_configuration() {
    let env = vec![("PATH".to_string(), "/usr/bin".to_string())];
    let parts = LspSettingsParts {
        binary: Some(BinarySettings {
            path: Some("/opt/couleuvre/bin/python".to_string()),
            arguments: Some(vec!["-m".to_string(), "couleuvre".to_string()]),
            env: Some(vec![("A".to_string(), "1".to_string())]),
        }),
        initialization_options: None,
        settings: Some(object(vec![("backend", Value::String("couleuvre".to_string()))])),
    };
    let launch = VyperExtension::launch_settings_from(env.clone(), Some(parts));
    assert_eq!(launch.env, env);
    assert_eq!(launch.args, vec!["-m", "couleuvre"]);
    assert_eq!(launch.env_overrides, vec![("A".to_string(), "1".to_string())]);
    assert_eq!(launch.explicit_path, Some("/opt/couleuvre/bin/python".to_string()));
    assert_eq!(launch.backend, Backend::Couleuvre);

    let defaults = VyperExtension::launch_settings_from(Vec::new(), None);
    assert!(defaults.args.is_empty());
    assert!(defaults.env_overrides.is_empty());
    assert_eq!(defaults.explicit_path, None);
    assert_eq!(defaults.backend, Backend::VyperLsp);
}

#[test]
fn backend_key_is_removed_from_objects() {
    let rest = VyperExtension::without_backend_key(object_map(vec![
        ("backend", Value::String("couleuvre".to_string())),
        ("x", Value::Bool(false)),
    ]));
    let rest = rest.expect("another key is left");
    assert!(rest.get("backend").is_none());
    assert_eq!(rest.get("x"), Some(&Value::Bool(false)));
    assert!(VyperExtension::without_backend_key(object_map(vec![(
        "backend",
        Value::Null
    )]))
    .is_none());
    assert!(VyperExtension::without_backend_key(object_map(vec![])).is_none());
}

#[test]
fn non_object_configuration_is_passed_on() {
    assert_eq!(
        VyperExtension::workspace_configuration_from_value(Some(Value::Bool(true))),
        Some(Value::Bool(true))
    );
    assert_eq!(VyperExtension::workspace_configuration_from_value(None), None);
    assert_eq!(
        VyperExtension::workspace_configuration_from_value(Some(object(vec![(
            "y",
            Value::Null
        )]))),
        Some(object(vec![("y", Value::Null)]))
    );
}

#[test]
fn completed_command_applies_overrides_last() {
    let command = VyperExtension::complete_command(
        vec!["--stdio".to_string()],
        vec![
            ("PATH".to_string(), "/venv/bin:/usr/bin".to_string()),
            ("HOME".to_string(), "/home/u".to_string()),
        ],
        vec![("PATH".to_string(), "/custom/bin".to_string())],
        None,
        Backend::VyperLsp,
        Some("/usr/bin/vyper-lsp".to_string()),
    )
    .expect("found on PATH");
    assert_eq!(command.command, "/usr/bin/vyper-lsp");
    assert_eq!(command.args, vec!["--stdio"]);
    assert_eq!(
        command.env,
        vec![
            ("HOME".to_string(), "/home/u".to_string()),
            ("PATH".to_string(), "/custom/bin".to_string())
        ]
    );
    let missing = VyperExtension::complete_command(
        Vec::new(),
        Vec::new(),
        Vec::new(),
        None,
        Backend::Couleuvre,
        None,
    );
    assert_eq!(
        missing.err(),
        Some(VyperExtension::missing_binary_message(Backend::Couleuvre))
    );
}
