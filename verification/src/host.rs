//! The editor host and the JSON settings it hands over, as seen from the
//! library: the outside types, names for what the outside functions return,
//! and one trusted wrapper for each outside function the library calls.
//! Nothing here is proved; each contract below is believed as stated.

use vstd::prelude::*;
use zed_extension_api::serde_json::{Map as JsonMap, Value};
use zed_extension_api::settings::LspSettings;
use zed_extension_api::{LanguageServerId, Worktree};
use crate::VyperExtension;
use crate::path::opt_view;

verus! {

/// A JSON value (`serde_json::Value`), carried through opaquely.
#[verifier::external_type_specification]
#[verifier::external_body]
pub struct ExJsonValue(Value);

/// A JSON object (`serde_json::Map`), whose keys the contracts below speak of.
#[verifier::external_type_specification]
#[verifier::external_body]
#[verifier::reject_recursive_types(K)]
#[verifier::reject_recursive_types(V)]
pub struct ExJsonMap<K, V>(JsonMap<K, V>);

/// The language-server settings of a worktree, carried through opaquely.
#[verifier::external_type_specification]
#[verifier::external_body]
pub struct ExLspSettings(LspSettings);

/// A worktree of the editor, carried through opaquely.
#[verifier::external_type_specification]
#[verifier::external_body]
pub struct ExWorktree(Worktree);

/// The identifier the editor gives a language server, carried through opaquely.
#[verifier::external_type_specification]
#[verifier::external_body]
pub struct ExLanguageServerId(LanguageServerId);

/// The keys of a JSON object.
pub uninterp spec fn json_map_keys(map: JsonMap<String, Value>) -> Set<Seq<char>>;

/// The value a JSON object holds under a key, if any.
pub uninterp spec fn json_map_value_at(map: JsonMap<String, Value>, key: Seq<char>) -> Option<Value>;

/// The object a JSON value is, if it is one (`Value::as_object`).
pub uninterp spec fn json_object_of(value: Value) -> Option<JsonMap<String, Value>>;

/// The string a JSON value is, if it is one (`Value::as_str`).
pub uninterp spec fn json_str_of(value: Value) -> Option<Seq<char>>;

/// The fields of the language-server settings: the binary settings (its
/// path, its arguments and its environment map), the initialization
/// options, and the server settings.
pub uninterp spec fn lsp_settings_fields(settings: LspSettings) -> (
    Option<(Option<Seq<char>>, Option<Seq<Seq<char>>>, Option<Map<Seq<char>, Seq<char>>>)>,
    Option<Value>,
    Option<Value>,
);

/// The view of optional strings.
pub open spec fn opt_texts_view(o: Option<Vec<String>>) -> Option<Seq<Seq<char>>> {
    match o {
        Some(v) => Some(v.deep_view()),
        None => None,
    }
}

/// `list` holds exactly the entries of `map`, each once, in some order.
pub open spec fn entries_of(list: Seq<(Seq<char>, Seq<char>)>, map: Map<Seq<char>, Seq<char>>) -> bool {
    &&& forall|i: int, j: int| 0 <= i < j < list.len() ==> list[i].0 != list[j].0
    &&& forall|i: int|
        0 <= i < list.len() ==> map.contains_key(#[trigger] list[i].0) && map[list[i].0]
            == list[i].1
    &&& forall|k: Seq<char>|
        map.contains_key(k) ==> exists|i: int| 0 <= i < list.len() && #[trigger] list[i].0 == k
}

/// An optional environment list holds exactly the entries of an optional map.
pub open spec fn env_entries_of(
    list: Option<Vec<(String, String)>>,
    map: Option<Map<Seq<char>, Seq<char>>>,
) -> bool {
    match (list, map) {
        (None, None) => true,
        (Some(l), Some(m)) => entries_of(l.deep_view(), m),
        _ => false,
    }
}

/// The parts hold the given fields of the settings.
pub open spec fn parts_of(
    parts: LspSettingsParts,
    fields: (
        Option<(Option<Seq<char>>, Option<Seq<Seq<char>>>, Option<Map<Seq<char>, Seq<char>>>)>,
        Option<Value>,
        Option<Value>,
    ),
) -> bool {
    &&& parts.initialization_options == fields.1
    &&& parts.settings == fields.2
    &&& match (parts.binary, fields.0) {
        (None, None) => true,
        (Some(b), Some(f)) => {
            &&& opt_view(b.path) == f.0
            &&& opt_texts_view(b.arguments) == f.1
            &&& env_entries_of(b.env, f.2)
        },
        _ => false,
    }
}

/// The binary settings of a language server, as plain values.
pub struct BinarySettings {
    pub path: Option<String>,
    pub arguments: Option<Vec<String>>,
    pub env: Option<Vec<(String, String)>>,
}

/// The language-server settings, split into their parts.
pub struct LspSettingsParts {
    pub binary: Option<BinarySettings>,
    pub initialization_options: Option<Value>,
    pub settings: Option<Value>,
}

/// The installation states the extension reports for a language server.
pub enum InstallationStatus {
    /// No status: the server is ready to start.
    Clear,
    Failed(String),
}

/// `LspSettings::for_worktree`: the settings the editor holds for the named
/// language server in the worktree. What comes back depends on the user's
/// settings, so nothing is stated of it.
#[verifier::external_body]
pub(crate) fn lsp_settings_for_worktree(language_server_name: &str, worktree: &Worktree) -> Result<
    LspSettings,
    String,
> {
    LspSettings::for_worktree(language_server_name, worktree)
}

/// The fields of an `LspSettings`, moved out one for one; the binary's
/// environment map becomes a list of its entries, each once, in the map's
/// own iteration order, of which nothing more is stated.
#[verifier::external_body]
pub(crate) fn lsp_settings_parts(settings: LspSettings) -> (r: LspSettingsParts)
    ensures
        parts_of(r, lsp_settings_fields(settings)),
{
    LspSettingsParts {
        binary: settings.binary.map(
            |binary| BinarySettings {
                path: binary.path,
                arguments: binary.arguments,
                env: binary.env.map(|env| env.into_iter().collect()),
            },
        ),
        initialization_options: settings.initialization_options,
        settings: settings.settings,
    }
}

/// `Value::as_object`: the object a JSON value is, if it is one.
#[verifier::external_body]
pub(crate) fn json_as_object(value: &Value) -> (r: Option<&JsonMap<String, Value>>)
    ensures
        match r {
            Some(m) => json_object_of(*value) == Some(*m),
            None => json_object_of(*value) is None,
        },
{
    value.as_object()
}

/// `Map::get`: the value under `key`, present exactly when the object has the key.
#[verifier::external_body]
pub(crate) fn json_map_get<'a>(map: &'a JsonMap<String, Value>, key: &str) -> (r: Option<&'a Value>)
    ensures
        r is Some <==> json_map_keys(*map).contains(key@),
        match r {
            Some(e) => json_map_value_at(*map, key@) == Some(*e),
            None => json_map_value_at(*map, key@) is None,
        },
{
    map.get(key)
}

/// `Value::as_str`: the string a JSON value is, if it is one.
#[verifier::external_body]
pub(crate) fn json_as_str(value: &Value) -> (r: Option<&str>)
    ensures
        match r {
            Some(t) => json_str_of(*value) == Some(t@),
            None => json_str_of(*value) is None,
        },
{
    value.as_str()
}

/// The object a JSON value holds, or the value itself back when it is not an object.
#[verifier::external_body]
pub(crate) fn json_into_object(value: Value) -> (r: Result<JsonMap<String, Value>, Value>)
    ensures
        r matches Ok(map) ==> json_object_of(value) == Some(map),
        r matches Err(other) ==> other == value && json_object_of(value) is None,
{
    match value {
        Value::Object(map) => Ok(map),
        other => Err(other),
    }
}

/// `Value::Object`: a JSON object made into a value.
#[verifier::external_body]
pub(crate) fn json_object(map: JsonMap<String, Value>) -> (r: Value)
    ensures
        json_object_of(r) == Some(map),
{
    Value::Object(map)
}

/// `Map::remove`: removes `key`, keeping every other entry; the removed
/// value comes back exactly when the key was present.
#[verifier::external_body]
pub(crate) fn json_map_remove(map: &mut JsonMap<String, Value>, key: &str) -> (r: Option<Value>)
    ensures
        json_map_keys(*final(map)) == json_map_keys(*old(map)).remove(key@),
        r is Some <==> json_map_keys(*old(map)).contains(key@),
        r == json_map_value_at(*old(map), key@),
        json_map_value_at(*final(map), key@) is None,
        forall|k: Seq<char>|
            k != key@ ==> #[trigger] json_map_value_at(*final(map), k) == json_map_value_at(
                *old(map),
                k,
            ),
{
    map.remove(key)
}

/// `Map::is_empty`: whether the object has no keys.
#[verifier::external_body]
pub(crate) fn json_map_is_empty(map: &JsonMap<String, Value>) -> (r: bool)
    ensures
        r == (json_map_keys(*map) == Set::<Seq<char>>::empty()),
{
    map.is_empty()
}

/// `Worktree::shell_env`: the worktree's shell environment, which depends
/// on the user's machine; nothing is stated of it.
#[verifier::external_body]
pub(crate) fn worktree_shell_env(worktree: &Worktree) -> Vec<(String, String)> {
    worktree.shell_env()
}

/// `Worktree::root_path`: where the worktree lies on the user's machine;
/// nothing is stated of it.
#[verifier::external_body]
pub(crate) fn worktree_root_path(worktree: &Worktree) -> String {
    worktree.root_path()
}

/// `Worktree::which`: the location of the named executable on the worktree's
/// `PATH`, if any; it depends on the user's machine, so nothing is stated.
#[verifier::external_body]
pub(crate) fn worktree_which(worktree: &Worktree, binary_name: &str) -> Option<String> {
    worktree.which(binary_name)
}

/// `LanguageServerId::as_ref`: the name of the language server. The
/// identifier is opaque, so nothing is stated.
#[verifier::external_body]
pub(crate) fn language_server_name(language_server_id: &LanguageServerId) -> &str {
    language_server_id.as_ref()
}

impl VyperExtension {
    /// `current_platform`: whether the editor runs on Windows, which depends
    /// on the user's machine; nothing is stated.
    #[verifier::external_body]
    pub(crate) fn is_windows() -> bool {
        match zed_extension_api::current_platform().0 {
            zed_extension_api::Os::Windows => true,
            zed_extension_api::Os::Mac => false,
            zed_extension_api::Os::Linux => false,
        }
    }

    /// `set_language_server_installation_status`: reports the status to the
    /// editor; it returns nothing.
    #[verifier::external_body]
    pub(crate) fn mark_status(language_server_id: &LanguageServerId, status: InstallationStatus) {
        let status = match status {
            InstallationStatus::Clear => zed_extension_api::LanguageServerInstallationStatus::None,
            InstallationStatus::Failed(message) => {
                zed_extension_api::LanguageServerInstallationStatus::Failed(message)
            },
        };
        zed_extension_api::set_language_server_installation_status(language_server_id, &status);
    }
}

} // verus!
