//! The two language-server backends and what the extension says about them.

use vstd::prelude::*;
use vstd::string::StringExecFns;
use crate::VyperExtension;
use crate::text::same_text;

verus! {

/// A language-server backend.
#[derive(Clone, Copy, Debug, PartialEq, Eq, Structural)]
pub enum Backend {
    VyperLsp,
    Couleuvre,
}

impl Default for Backend {
    fn default() -> (b: Self)
        ensures
            b == Backend::VyperLsp,
    {
        Backend::VyperLsp
    }
}

/// The backend a settings name selects: `couleuvre` selects Couleuvre,
/// every other name the default backend.
pub open spec fn backend_for_name(name: Seq<char>) -> Backend {
    if name == "couleuvre"@ {
        Backend::Couleuvre
    } else {
        Backend::VyperLsp
    }
}

/// The backend an optional settings name selects; no name selects the default.
pub open spec fn backend_for_setting(name: Option<Seq<char>>) -> Backend {
    match name {
        Some(n) => backend_for_name(n),
        None => Backend::VyperLsp,
    }
}

/// The executable name of a backend.
pub open spec fn binary_name(backend: Backend) -> Seq<char> {
    match backend {
        Backend::VyperLsp => "vyper-lsp"@,
        Backend::Couleuvre => "couleuvre"@,
    }
}

/// The message shown when no executable for the backend is found.
pub open spec fn missing_message(backend: Backend) -> Seq<char> {
    match backend {
        Backend::VyperLsp => "Unable to find `vyper-lsp`. Install it with `uv tool install vyper-lsp`, ensure it is available on your PATH, or configure `lsp.vyper-lsp.binary.path`."@,
        Backend::Couleuvre => "Couleuvre currently requires an explicit `lsp.vyper-lsp.binary.path`. Install it with `uv tool install --with packaging couleuvre`, then point Zed at a working Couleuvre command such as the tool environment Python with arguments `[-m, couleuvre]`, or use an explicit `uv run` command."@,
    }
}

impl VyperExtension {
    /// The backend selected by a settings name.
    pub fn backend_from_name(name: &str) -> (b: Backend)
        ensures
            b == backend_for_name(name@),
    {
        if same_text(name, "couleuvre") {
            Backend::Couleuvre
        } else {
            Backend::VyperLsp
        }
    }

    /// The backend selected by an optional settings name.
    pub fn backend_from_setting(name: Option<&str>) -> (b: Backend)
        ensures
            b == backend_for_setting(
                match name {
                    Some(n) => Some(n@),
                    None => None,
                },
            ),
    {
        match name {
            Some(n) => Self::backend_from_name(n),
            None => Backend::default(),
        }
    }

    /// The executable name of a backend.
    pub fn backend_binary_name(backend: Backend) -> (r: &'static str)
        ensures
            r@ == binary_name(backend),
    {
        match backend {
            Backend::VyperLsp => "vyper-lsp",
            Backend::Couleuvre => "couleuvre",
        }
    }

    /// The message reported when no executable for the backend can be found.
    pub fn missing_binary_message(backend: Backend) -> (r: String)
        ensures
            r@ == missing_message(backend),
    {
        match backend {
            Backend::VyperLsp => String::from_str(
                "Unable to find `vyper-lsp`. Install it with `uv tool install vyper-lsp`, ensure it is available on your PATH, or configure `lsp.vyper-lsp.binary.path`.",
            ),
            Backend::Couleuvre => String::from_str(
                "Couleuvre currently requires an explicit `lsp.vyper-lsp.binary.path`. Install it with `uv tool install --with packaging couleuvre`, then point Zed at a working Couleuvre command such as the tool environment Python with arguments `[-m, couleuvre]`, or use an explicit `uv run` command.",
            ),
        }
    }
}

/// A backend's executable name selects that backend again.
pub proof fn lemma_binary_name_selects_backend(backend: Backend)
    ensures
        backend_for_name(binary_name(backend)) == backend,
{
    reveal_strlit("vyper-lsp");
    reveal_strlit("couleuvre");
    assert("vyper-lsp"@[0] != "couleuvre"@[0]);
}

} // verus!
