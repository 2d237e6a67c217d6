//! Everything decided before a language server starts: which backend the
//! settings select, the environment it gets, and which command runs it.

use vstd::prelude::*;
use zed_extension_api::serde_json::{Map as JsonMap, Value};
use zed_extension_api::settings::LspSettings;
use zed_extension_api::{LanguageServerId, Worktree};
use crate::VyperExtension;
use crate::backend::{Backend, missing_message};
use crate::env::{env_with_venv, starts_with, current_value, with_vars};
use crate::backend::backend_for_setting;
use crate::host::{
    json_map_value_at, json_object_of, json_str_of, lsp_settings_fields, entries_of,
    json_as_object, json_as_str, json_into_object, json_map_get, json_map_is_empty,
    json_map_keys, json_map_remove, json_object, language_server_name, lsp_settings_for_worktree,
    lsp_settings_parts, worktree_root_path, worktree_shell_env, worktree_which,
    InstallationStatus, LspSettingsParts,
};
use crate::path::opt_view;
use crate::venv::{
    bin_candidate, is_filesystem_root, lemma_venv_starts_at_base, normalized_base, site_candidates_of,
    venv_for, WorkspaceVenv,
};
use crate::env::lemma_venv_leads_each_path;

verus! {

/// What a language-server launch is made of, read from the worktree and
/// its settings.
pub struct LaunchSettings {
    pub args: Vec<String>,
    pub env: Vec<(String, String)>,
    pub env_overrides: Vec<(String, String)>,
    pub explicit_path: Option<String>,
    pub backend: Backend,
}

/// The command that starts a language server.
pub struct LaunchCommand {
    pub command: String,
    pub args: Vec<String>,
    pub env: Vec<(String, String)>,
}

/// The separator of search-path lists on the given platform.
pub open spec fn separator_for(is_windows: bool) -> Seq<char> {
    if is_windows {
        ";"@
    } else {
        ":"@
    }
}

/// The command to start, given the explicitly configured path, the backend
/// and what a `PATH` lookup of the backend's executable found: the explicit
/// path wins; otherwise the default backend runs from `PATH`; otherwise the
/// backend's missing-executable message is the error.
pub open spec fn command_choice(
    explicit_path: Option<Seq<char>>,
    backend: Backend,
    found_on_path: Option<Seq<char>>,
) -> Result<Seq<char>, Seq<char>> {
    match explicit_path {
        Some(p) => Ok(p),
        None => match found_on_path {
            Some(p) if backend == Backend::VyperLsp => Ok(p),
            _ => Err(missing_message(backend)),
        },
    }
}

/// The text under the `backend` key of a settings value: present when the
/// value is an object holding a string under that key.
pub open spec fn backend_text(value: Value) -> Option<Seq<char>> {
    match json_object_of(value) {
        Some(object) => match json_map_value_at(object, "backend"@) {
            Some(entry) => json_str_of(entry),
            None => None,
        },
        None => None,
    }
}

/// The text under the `backend` key of optional settings.
pub open spec fn settings_backend(settings: Option<Value>) -> Option<Seq<char>> {
    match settings {
        Some(value) => backend_text(value),
        None => None,
    }
}

/// The server settings value of optional language-server settings.
pub open spec fn settings_value(settings: Option<LspSettings>) -> Option<Value> {
    match settings {
        Some(s) => lsp_settings_fields(s).2,
        None => None,
    }
}

/// The initialization options of optional language-server settings.
pub open spec fn initialization_options_of(settings: Option<LspSettings>) -> Option<Value> {
    match settings {
        Some(s) => lsp_settings_fields(s).1,
        None => None,
    }
}

/// `rest` is `object` without its `backend` key: the same keys but that
/// one, each with the same value.
pub open spec fn without_backend(object: JsonMap<String, Value>, rest: JsonMap<String, Value>) -> bool {
    &&& json_map_keys(rest) == json_map_keys(object).remove("backend"@)
    &&& json_map_value_at(rest, "backend"@) is None
    &&& forall|k: Seq<char>|
        k != "backend"@ ==> #[trigger] json_map_value_at(rest, k) == json_map_value_at(object, k)
}

/// The workspace configuration `r` made from the settings value: nothing
/// from nothing; a value that is no object passes on unchanged; an object
/// loses its `backend` key, and nothing is left when no other key remains.
pub open spec fn configuration_of(value: Option<Value>, r: Option<Value>) -> bool {
    match value {
        None => r is None,
        Some(v) => match json_object_of(v) {
            None => r == Some(v),
            Some(object) => if json_map_keys(object).remove("backend"@) == Set::<Seq<char>>::empty() {
                r is None
            } else {
                r matches Some(w) && json_object_of(w) matches Some(rest) && without_backend(
                    object,
                    rest,
                )
            },
        },
    }
}

/// No binary is configured in the launch settings.
pub open spec fn without_binary(r: LaunchSettings) -> bool {
    &&& r.args@.len() == 0
    &&& r.env_overrides@.len() == 0
    &&& r.explicit_path is None
}

/// `r` is what the shell environment `shell` and the settings read make of
/// a launch: the shell environment, the backend the settings name, and the
/// binary's path, arguments and environment entries where configured.
pub open spec fn launch_fits(
    r: LaunchSettings,
    shell: Seq<(Seq<char>, Seq<char>)>,
    settings: Option<LspSettings>,
) -> bool {
    &&& r.env.deep_view() == shell
    &&& r.backend == backend_for_setting(settings_backend(settings_value(settings)))
    &&& match settings {
        Some(s) => match lsp_settings_fields(s).0 {
            Some(binary) => {
                &&& opt_view(r.explicit_path) == binary.0
                &&& r.args.deep_view() == match binary.1 {
                    Some(a) => a,
                    None => Seq::empty(),
                }
                &&& match binary.2 {
                    Some(m) => entries_of(r.env_overrides.deep_view(), m),
                    None => r.env_overrides@.len() == 0,
                }
            },
            None => without_binary(r),
        },
        None => without_binary(r),
    }
}

/// The command that the launch settings `launch` make, when the worktree's
/// root is `root`, the platform is Windows exactly when `windows`, and a
/// `PATH` lookup of the executable gives `found`: the virtual environments
/// are applied for the default backend only, the overrides last, and the
/// executable is chosen as in [`command_choice`] (the lookup counting only
/// where it is made).
pub open spec fn planned_command(
    launch: LaunchSettings,
    root: Seq<char>,
    windows: bool,
    found: Option<Seq<char>>,
) -> Result<(Seq<char>, Seq<Seq<char>>, Seq<(Seq<char>, Seq<char>)>), Seq<char>> {
    let env = if launch.backend == Backend::VyperLsp {
        env_with_venv(
            launch.env.deep_view(),
            venv_for(normalized_base(root), windows),
            separator_for(windows),
        )
    } else {
        launch.env.deep_view()
    };
    let looked_up = if launch.explicit_path is None && launch.backend == Backend::VyperLsp {
        found
    } else {
        None
    };
    match command_choice(opt_view(launch.explicit_path), launch.backend, looked_up) {
        Ok(c) => Ok((c, launch.args.deep_view(), with_vars(env, launch.env_overrides.deep_view()))),
        Err(m) => Err(m),
    }
}

/// The view of a launch outcome.
pub open spec fn launch_outcome(r: Result<LaunchCommand, String>) -> Result<
    (Seq<char>, Seq<Seq<char>>, Seq<(Seq<char>, Seq<char>)>),
    Seq<char>,
> {
    match r {
        Ok(c) => Ok((c.command@, c.args.deep_view(), c.env.deep_view())),
        Err(m) => Err(m@),
    }
}

/// With no configured path, the default backend starts from exactly what
/// the `PATH` lookup found, and fails with its install message when nothing
/// was found; a configured path always starts the server from that path;
/// a started server always gets the configured arguments.
pub proof fn lemma_lookup_decides(
    launch: LaunchSettings,
    root: Seq<char>,
    windows: bool,
    found: Option<Seq<char>>,
)
    ensures
        launch.explicit_path is None && launch.backend == Backend::VyperLsp ==> {
            &&& (planned_command(launch, root, windows, found) is Ok <==> found is Some)
            &&& found matches Some(p) ==> planned_command(launch, root, windows, found) matches Ok(
                c,
            ) && c.0 == p
            &&& found is None ==> planned_command(launch, root, windows, found) == Err::<
                (Seq<char>, Seq<Seq<char>>, Seq<(Seq<char>, Seq<char>)>),
                Seq<char>,
            >(missing_message(Backend::VyperLsp))
        },
        launch.explicit_path matches Some(p) ==> planned_command(launch, root, windows, found) matches Ok(
            c,
        ) && c.0 == p@,
        planned_command(launch, root, windows, found) matches Ok(c) ==> c.1
            == launch.args.deep_view(),
{
}

/// For the default backend, the virtual environment of a worktree whose
/// searched directory is neither empty nor the filesystem root always
/// reaches the server: `PATH` begins with that directory's `.venv`
/// executable directory and `PYTHONPATH` with its first `.venv` library
/// directory.
pub proof fn lemma_venv_reaches_server(
    env: Seq<(Seq<char>, Seq<char>)>,
    root: Seq<char>,
    windows: bool,
)
    requires
        normalized_base(root).len() > 0,
        !is_filesystem_root(normalized_base(root)),
    ensures
        starts_with(
            current_value(
                env_with_venv(env, venv_for(normalized_base(root), windows), separator_for(windows)),
                "PATH"@,
            ),
            bin_candidate(normalized_base(root), windows),
        ),
        starts_with(
            current_value(
                env_with_venv(env, venv_for(normalized_base(root), windows), separator_for(windows)),
                "PYTHONPATH"@,
            ),
            site_candidates_of(normalized_base(root), windows)[0],
        ),
{
    let base = normalized_base(root);
    lemma_venv_starts_at_base(base, windows);
    lemma_venv_leads_each_path(env, venv_for(base, windows), separator_for(windows));
}

/// What is passed on as workspace configuration never holds the `backend`
/// key, and keeps every other entry of a settings object.
pub proof fn lemma_configuration_drops_only_backend(value: Option<Value>, r: Option<Value>)
    requires
        configuration_of(value, r),
    ensures
        r matches Some(w) ==> (json_object_of(w) matches Some(m) ==> !json_map_keys(m).contains(
            "backend"@,
        )),
        value matches Some(v) ==> (json_object_of(v) matches Some(object) ==> (r matches Some(w)
            ==> (json_object_of(w) matches Some(m) && forall|k: Seq<char>|
            k != "backend"@ ==> #[trigger] json_map_value_at(m, k) == json_map_value_at(object, k)))),
        value matches Some(v) ==> (json_object_of(v) is None ==> r == value),
{
    if let Some(v) = value {
        if let Some(object) = json_object_of(v) {
            if json_map_keys(object).remove("backend"@) != Set::<Seq<char>>::empty() {
                let w = r->0;
                let rest = json_object_of(w)->0;
                assert(without_backend(object, rest));
                assert(!json_map_keys(rest).contains("backend"@));
            }
        }
    }
}

/// The settings drive the launch: a configured binary path is the path
/// launched, configured arguments are the arguments, and a `backend` of
/// `couleuvre` selects Couleuvre.
pub proof fn lemma_settings_drive_launch(
    r: LaunchSettings,
    shell: Seq<(Seq<char>, Seq<char>)>,
    settings: LspSettings,
)
    requires
        launch_fits(r, shell, Some(settings)),
    ensures
        settings_backend(lsp_settings_fields(settings).2) == Some("couleuvre"@) ==> r.backend
            == Backend::Couleuvre,
        lsp_settings_fields(settings).0 matches Some(binary) ==> (binary.0 matches Some(p) ==> (
        r.explicit_path matches Some(q) && q@ == p)),
        lsp_settings_fields(settings).0 matches Some(binary) ==> (binary.1 matches Some(a)
            ==> r.args.deep_view() == a),
        r.env.deep_view() == shell,
{
    if let Some(binary) = lsp_settings_fields(settings).0 {
        assert(opt_view(r.explicit_path) == binary.0);
        assert(r.args.deep_view() == match binary.1 {
            Some(a) => a,
            None => Seq::<Seq<char>>::empty(),
        });
    }
}

/// The view of a command choice.
pub open spec fn outcome_view(r: Result<String, String>) -> Result<Seq<char>, Seq<char>> {
    match r {
        Ok(c) => Ok(c@),
        Err(m) => Err(m@),
    }
}

/// How the command is resolved: a configured path is always used; without
/// one, Couleuvre is never looked up and always fails with its own message,
/// and the default backend runs from `PATH` or fails with its message.
pub proof fn lemma_command_resolution(
    explicit_path: Option<Seq<char>>,
    backend: Backend,
    found_on_path: Option<Seq<char>>,
)
    ensures
        explicit_path matches Some(p) ==> command_choice(explicit_path, backend, found_on_path)
            == Ok::<Seq<char>, Seq<char>>(p),
        explicit_path is None && backend == Backend::Couleuvre ==> command_choice(
            explicit_path,
            backend,
            found_on_path,
        ) == Err::<Seq<char>, Seq<char>>(missing_message(Backend::Couleuvre)),
        explicit_path is None && backend == Backend::VyperLsp ==> command_choice(
            explicit_path,
            backend,
            found_on_path,
        ) == match found_on_path {
            Some(p) => Ok::<Seq<char>, Seq<char>>(p),
            None => Err(missing_message(Backend::VyperLsp)),
        },
{
}

impl VyperExtension {
    /// The name under which the language server's settings are kept.
    pub const LANGUAGE_SERVER_ID: &'static str = "vyper-lsp";

    /// The settings of this extension's language server in the worktree, if
    /// the editor has any.
    fn lsp_settings(worktree: &Worktree) -> Option<LspSettings> {
        lsp_settings_for_worktree(Self::LANGUAGE_SERVER_ID, worktree).ok()
    }

    /// The backend named by the `backend` key of the server's settings; the
    /// default backend when the settings, the key or a string under it are
    /// missing.
    pub fn backend_from_settings_value(settings: Option<&Value>) -> (b: Backend)
        ensures
            b == backend_for_setting(
                match settings {
                    Some(v) => backend_text(*v),
                    None => None,
                },
            ),
    {
        let name = match settings {
            Some(value) => match json_as_object(value) {
                Some(object) => match json_map_get(object, "backend") {
                    Some(entry) => json_as_str(entry),
                    None => None,
                },
                None => None,
            },
            None => None,
        };
        Self::backend_from_setting(name)
    }

    /// The launch settings for the shell environment `env` and the parts of
    /// the server's settings, if any.
    pub fn launch_settings_from(env: Vec<(String, String)>, settings: Option<LspSettingsParts>) -> (r:
        LaunchSettings)
        ensures
            r.env == env,
            r.backend == backend_for_setting(
                match settings {
                    Some(s) => settings_backend(s.settings),
                    None => None,
                },
            ),
            match settings {
                Some(LspSettingsParts { binary: Some(binary), .. }) => {
                    &&& r.args@ == match binary.arguments {
                        Some(a) => a@,
                        None => Seq::empty(),
                    }
                    &&& r.env_overrides@ == match binary.env {
                        Some(e) => e@,
                        None => Seq::empty(),
                    }
                    &&& r.explicit_path == binary.path
                },
                _ => {
                    &&& r.args@ == Seq::<String>::empty()
                    &&& r.env_overrides@ == Seq::<(String, String)>::empty()
                    &&& r.explicit_path is None
                },
            },
    {
        let mut args: Vec<String> = Vec::new();
        let mut env_overrides: Vec<(String, String)> = Vec::new();
        let mut explicit_path: Option<String> = None;
        let mut backend = Backend::default();
        if let Some(settings) = settings {
            backend = Self::backend_from_settings_value(settings.settings.as_ref());
            if let Some(binary) = settings.binary {
                if let Some(binary_args) = binary.arguments {
                    args = binary_args;
                }
                if let Some(binary_env) = binary.env {
                    env_overrides = binary_env;
                }
                explicit_path = binary.path;
            }
        }
        LaunchSettings { args, env, env_overrides, explicit_path, backend }
    }

    /// The launch settings of the worktree: its shell environment and what
    /// the server's settings configure.
    pub fn launch_settings(worktree: &Worktree) -> (r: LaunchSettings)
        ensures
            exists|shell: Seq<(Seq<char>, Seq<char>)>, settings: Option<LspSettings>|
                launch_fits(r, shell, settings),
    {
        let env = worktree_shell_env(worktree);
        let ghost shell = env.deep_view();
        let settings = Self::lsp_settings(worktree);
        let ghost read = settings;
        let parts = match settings {
            Some(settings) => Some(lsp_settings_parts(settings)),
            None => None,
        };
        let r = Self::launch_settings_from(env, parts);
        proof {
            if let Some(s) = read {
                let b = parts.unwrap().binary;
                if let Some(binary) = lsp_settings_fields(s).0 {
                    let pb = b.unwrap();
                    if let Some(a) = pb.arguments {
                        assert(r.args.deep_view() =~= a.deep_view());
                    } else {
                        assert(r.args.deep_view() =~= Seq::<Seq<char>>::empty());
                    }
                    if let Some(e) = pb.env {
                        assert(r.env_overrides.deep_view() =~= e.deep_view());
                    }
                }
            }
            assert(launch_fits(r, shell, read));
        }
        r
    }

    /// The separator of search-path lists on the given platform.
    pub fn path_list_separator_for(is_windows: bool) -> (r: &'static str)
        ensures
            r@ == separator_for(is_windows),
    {
        if is_windows {
            ";"
        } else {
            ":"
        }
    }

    /// The separator of search-path lists on the editor's platform.
    pub fn path_list_separator() -> (r: &'static str)
        ensures
            r@ == separator_for(true) || r@ == separator_for(false),
    {
        Self::path_list_separator_for(Self::is_windows())
    }

    /// The workspace virtual environments seen from `base` on the editor's platform.
    pub fn workspace_venv_for_base(base: &str) -> (r: WorkspaceVenv)
        ensures
            r@ == venv_for(base@, true) || r@ == venv_for(base@, false),
    {
        Self::workspace_venv_for_base_with_platform(base, Self::is_windows())
    }

    /// The workspace virtual environments of the worktree.
    pub fn workspace_venv(worktree: &Worktree) -> (r: WorkspaceVenv)
        ensures
            exists|root: Seq<char>, windows: bool| r@ == venv_for(normalized_base(root), windows),
    {
        let root = worktree_root_path(worktree);
        let base = Self::normalized_worktree_base(root.as_str());
        Self::workspace_venv_for_base(base.as_str())
    }

    /// For the default backend, makes the worktree's virtual environments
    /// visible in `env`; other backends keep `env` as it is.
    pub fn inject_backend_env(backend: Backend, worktree: &Worktree, env: &mut Vec<(String, String)>)
        ensures
            backend != Backend::VyperLsp ==> final(env).deep_view() == old(env).deep_view(),
            backend == Backend::VyperLsp ==> exists|root: Seq<char>, windows: bool|
                final(env).deep_view() == env_with_venv(
                    old(env).deep_view(),
                    venv_for(normalized_base(root), windows),
                    separator_for(windows),
                ),
    {
        if backend != Backend::VyperLsp {
            return;
        }
        let windows = Self::is_windows();
        let root = worktree_root_path(worktree);
        let base = Self::normalized_worktree_base(root.as_str());
        let venv = Self::workspace_venv_for_base_with_platform(base.as_str(), windows);
        let separator = Self::path_list_separator_for(windows);
        Self::apply_workspace_venv(&venv, env, separator);
        assert(env.deep_view() == env_with_venv(
            old(env).deep_view(),
            venv_for(normalized_base(root@), windows),
            separator_for(windows),
        ));
    }

    /// Reports the server as ready and hands back its command.
    fn ready_command(
        language_server_id: &LanguageServerId,
        command: String,
        args: Vec<String>,
        env: Vec<(String, String)>,
    ) -> (r: Result<LaunchCommand, String>)
        ensures
            r matches Ok(c) && c.command == command && c.args == args && c.env == env,
    {
        Self::mark_status(language_server_id, InstallationStatus::Clear);
        Ok(LaunchCommand { command, args, env })
    }

    /// The command to start, given the explicitly configured path, the
    /// backend, and the result of the `PATH` lookup of its executable.
    pub fn choose_command(
        explicit_path: Option<String>,
        backend: Backend,
        found_on_path: Option<String>,
    ) -> (r: Result<String, String>)
        ensures
            outcome_view(r) == command_choice(opt_view(explicit_path), backend, opt_view(found_on_path)),
    {
        if let Some(path) = explicit_path {
            return Ok(path);
        }
        if backend == Backend::VyperLsp {
            if let Some(path) = found_on_path {
                return Ok(path);
            }
        }
        Err(Self::missing_binary_message(backend))
    }

    /// Whether the executable must be looked up on `PATH`: only for the
    /// default backend, and only when no path is configured.
    pub fn needs_path_lookup(explicit_path: &Option<String>, backend: Backend) -> (r: bool)
        ensures
            r == (explicit_path is None && backend == Backend::VyperLsp),
    {
        explicit_path.is_none() && backend == Backend::VyperLsp
    }

    /// The command that starts the language server for the worktree: the
    /// configured arguments, the shell environment with the virtual
    /// environments (default backend only) and the configured overrides
    /// applied, and the configured or found executable. When there is no
    /// executable, the failure is reported to the editor and its message returned.
    pub fn language_server_command(language_server_id: &LanguageServerId, worktree: &Worktree) -> (r:
        Result<LaunchCommand, String>)
        ensures
            r matches Err(m) ==> m@ == missing_message(Backend::VyperLsp) || m@ == missing_message(
                Backend::Couleuvre,
            ),
            exists|
                launch: LaunchSettings,
                shell: Seq<(Seq<char>, Seq<char>)>,
                settings: Option<LspSettings>,
                root: Seq<char>,
                windows: bool,
                found: Option<Seq<char>>,
            |
                launch_fits(launch, shell, settings) && launch_outcome(r) == planned_command(
                    launch,
                    root,
                    windows,
                    found,
                ),
    {
        let launch = Self::launch_settings(worktree);
        let ghost read = launch;
        let LaunchSettings { args, mut env, env_overrides, explicit_path, backend } = launch;
        let ghost shell_env = env.deep_view();
        Self::inject_backend_env(backend, worktree, &mut env);
        let ghost injected = env.deep_view();
        let found_on_path = if Self::needs_path_lookup(&explicit_path, backend) {
            worktree_which(worktree, Self::backend_binary_name(backend))
        } else {
            None
        };
        let ghost found = opt_view(found_on_path);
        let ghost (root, windows) = if backend == Backend::VyperLsp {
            choose|root: Seq<char>, windows: bool|
                injected == env_with_venv(
                    shell_env,
                    venv_for(normalized_base(root), windows),
                    separator_for(windows),
                )
        } else {
            (Seq::empty(), false)
        };
        let ghost (shell, settings) = choose|
            shell: Seq<(Seq<char>, Seq<char>)>,
            settings: Option<LspSettings>,
        |
            launch_fits(read, shell, settings);
        let r = match Self::complete_command(
            args,
            env,
            env_overrides,
            explicit_path,
            backend,
            found_on_path,
        ) {
            Ok(command) => Self::ready_command(
                language_server_id,
                command.command,
                command.args,
                command.env,
            ),
            Err(message) => {
                Self::mark_status(language_server_id, InstallationStatus::Failed(message.clone()));
                Err(message)
            },
        };
        assert(launch_fits(read, shell, settings) && launch_outcome(r) == planned_command(
            read,
            root,
            windows,
            found,
        ));
        r
    }

    /// The command once the launch settings, the shell environment (with the
    /// virtual environments already applied where they apply) and the
    /// `PATH` lookup result are known: the configured overrides are applied
    /// last, so they win, and the executable is chosen as in [`command_choice`].
    pub fn complete_command(
        args: Vec<String>,
        env: Vec<(String, String)>,
        env_overrides: Vec<(String, String)>,
        explicit_path: Option<String>,
        backend: Backend,
        found_on_path: Option<String>,
    ) -> (r: Result<LaunchCommand, String>)
        ensures
            command_choice(opt_view(explicit_path), backend, opt_view(found_on_path)) == match r {
                Ok(c) => Ok(c.command@),
                Err(m) => Err::<Seq<char>, Seq<char>>(m@),
            },
            r matches Ok(c) ==> c.args == args && c.env.deep_view() == with_vars(
                env.deep_view(),
                env_overrides.deep_view(),
            ),
    {
        let mut env = env;
        Self::apply_env_overrides(&mut env, env_overrides);
        match Self::choose_command(explicit_path, backend, found_on_path) {
            Ok(command) => Ok(LaunchCommand { command, args, env }),
            Err(message) => Err(message),
        }
    }

    /// The initialization options of the server's settings, if any.
    pub fn initialization_options_from_settings(settings: Option<LspSettings>) -> (r: Option<Value>)
        ensures
            r == initialization_options_of(settings),
    {
        match settings {
            Some(settings) => lsp_settings_parts(settings).initialization_options,
            None => None,
        }
    }

    /// The workspace configuration passed on to the server: its settings
    /// without the `backend` key, which only this extension reads; nothing
    /// when no other key is left.
    pub fn workspace_configuration_from_settings(settings: Option<LspSettings>) -> (r: Option<Value>)
        ensures
            configuration_of(settings_value(settings), r),
    {
        let value = match settings {
            Some(settings) => lsp_settings_parts(settings).settings,
            None => None,
        };
        Self::workspace_configuration_from_value(value)
    }

    /// The settings value without its `backend` key: an object left without
    /// keys becomes nothing, any other value is passed on unchanged.
    pub fn workspace_configuration_from_value(value: Option<Value>) -> (r: Option<Value>)
        ensures
            configuration_of(value, r),
    {
        match value {
            Some(value) => match json_into_object(value) {
                Ok(object) => match Self::without_backend_key(object) {
                    Some(rest) => Some(json_object(rest)),
                    None => None,
                },
                Err(other) => Some(other),
            },
            None => None,
        }
    }

    /// A settings object without its `backend` key, or nothing when no other
    /// key is left.
    pub fn without_backend_key(object: JsonMap<String, Value>) -> (r: Option<JsonMap<String, Value>>)
        ensures
            r is None <==> json_map_keys(object).remove("backend"@) == Set::<Seq<char>>::empty(),
            r matches Some(rest) ==> without_backend(object, rest),
    {
        let mut object = object;
        json_map_remove(&mut object, "backend");
        if json_map_is_empty(&object) {
            None
        } else {
            Some(object)
        }
    }

    /// The initialization options configured for the language server.
    pub fn language_server_initialization_options(
        language_server_id: &LanguageServerId,
        worktree: &Worktree,
    ) -> (r: Result<Option<Value>, String>)
        ensures
            exists|settings: Option<LspSettings>|
                r == Ok::<Option<Value>, String>(initialization_options_of(settings)),
    {
        let settings = lsp_settings_for_worktree(language_server_name(language_server_id), worktree).ok();
        let ghost read = settings;
        let r = Ok(Self::initialization_options_from_settings(settings));
        assert(r == Ok::<Option<Value>, String>(initialization_options_of(read)));
        r
    }

    /// The workspace configuration passed to the language server.
    pub fn language_server_workspace_configuration(
        language_server_id: &LanguageServerId,
        worktree: &Worktree,
    ) -> (r: Result<Option<Value>, String>)
        ensures
            exists|settings: Option<LspSettings>|
                r matches Ok(c) && configuration_of(#[trigger] settings_value(settings), c),
    {
        let settings = lsp_settings_for_worktree(language_server_name(language_server_id), worktree).ok();
        let ghost read = settings;
        let c = Self::workspace_configuration_from_settings(settings);
        assert(configuration_of(settings_value(read), c));
        Ok(c)
    }
}

} // verus!
