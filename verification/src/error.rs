//! Errors raised while building a plan from a manifest.
use crate::text::to_owned;
use vstd::prelude::*;

verus! {

/// Why a manifest cannot be turned into a plan.
#[derive(Debug, Clone, PartialEq)]
pub enum PlanError {
    /// A required environment variable is unset and has no default.
    MissingEnv { source: String, name: String },
    /// A file entry sets both `source` and `content`.
    FileSourceAndContent { dest: String },
    /// A file entry sets neither `source` nor `content`.
    FileNoSource { dest: String },
    /// A file template could not be read.
    TemplateUnreadable { path: String, reason: String },
    /// A shell lists a module that `shell_modules` does not define.
    UnknownModule { shell: String, module: String },
    /// `shells` names a shell Swiss does not know.
    UnsupportedShell { shell: String },
    /// `managed-loader` mode on a shell other than nushell.
    ManagedLoaderOnlyNushell { shell: String },
    /// nushell configured with a snippet or profile mode.
    NushellNeedsManagedLoader,
    /// A shell without a default startup file and no `target`.
    MissingTarget { shell: String },
}

/// A plan error with every string taken by its view.
pub enum PlanErrorView {
    MissingEnv { source: Seq<char>, name: Seq<char> },
    FileSourceAndContent { dest: Seq<char> },
    FileNoSource { dest: Seq<char> },
    TemplateUnreadable { path: Seq<char>, reason: Seq<char> },
    UnknownModule { shell: Seq<char>, module: Seq<char> },
    UnsupportedShell { shell: Seq<char> },
    ManagedLoaderOnlyNushell { shell: Seq<char> },
    NushellNeedsManagedLoader,
    MissingTarget { shell: Seq<char> },
}

impl View for PlanError {
    type V = PlanErrorView;

    open spec fn view(&self) -> PlanErrorView {
        match self {
            PlanError::MissingEnv { source, name } => PlanErrorView::MissingEnv { source: source@, name: name@ },
            PlanError::FileSourceAndContent { dest } => PlanErrorView::FileSourceAndContent { dest: dest@ },
            PlanError::FileNoSource { dest } => PlanErrorView::FileNoSource { dest: dest@ },
            PlanError::TemplateUnreadable { path, reason } => PlanErrorView::TemplateUnreadable {
                path: path@,
                reason: reason@,
            },
            PlanError::UnknownModule { shell, module } => PlanErrorView::UnknownModule {
                shell: shell@,
                module: module@,
            },
            PlanError::UnsupportedShell { shell } => PlanErrorView::UnsupportedShell { shell: shell@ },
            PlanError::ManagedLoaderOnlyNushell { shell } => PlanErrorView::ManagedLoaderOnlyNushell {
                shell: shell@,
            },
            PlanError::NushellNeedsManagedLoader => PlanErrorView::NushellNeedsManagedLoader,
            PlanError::MissingTarget { shell } => PlanErrorView::MissingTarget { shell: shell@ },
        }
    }
}

/// The view of a result whose error is a plan error.
pub open spec fn result_view<T, V>(r: Result<T, PlanError>, f: spec_fn(T) -> V) -> Result<V, PlanErrorView> {
    match r {
        Ok(t) => Ok(f(t)),
        Err(e) => Err(e@),
    }
}

/// The human-readable message of a plan error.
pub open spec fn error_message(e: PlanErrorView) -> Seq<char> {
    match e {
        PlanErrorView::MissingEnv { source, name } => "Required environment variable '"@ + source
            + "' (for '"@ + name + "') is not set"@,
        PlanErrorView::FileSourceAndContent { dest } => "File entry for '"@ + dest
            + "' defines both 'source' and 'content'"@,
        PlanErrorView::FileNoSource { dest } => "File entry for '"@ + dest
            + "' needs either 'source' or 'content'"@,
        PlanErrorView::TemplateUnreadable { path, reason } => "Failed to read file template "@ + path
            + ": "@ + reason,
        PlanErrorView::UnknownModule { shell, module } => "Shell '"@ + shell
            + "' references unknown shell module '"@ + module + "'"@,
        PlanErrorView::UnsupportedShell { shell } => "Unsupported shell '"@ + shell + "' in manifest"@,
        PlanErrorView::ManagedLoaderOnlyNushell { shell } => "Shell '"@ + shell
            + "' does not support managed-loader mode (only nushell)"@,
        PlanErrorView::NushellNeedsManagedLoader =>
            "Shell 'nushell' uses managed-loader mode (it cannot eval snippets)"@,
        PlanErrorView::MissingTarget { shell } => "Shell '"@ + shell + "' needs an explicit 'target'"@,
    }
}

impl PlanError {
    /// The human-readable message of the error.
    pub open spec fn message_view(&self) -> Seq<char> {
        error_message(self@)
    }

    /// The human-readable message of the error.
    pub fn message(&self) -> (r: String)
        ensures
            r@ == self.message_view(),
    {
        let mut r = String::new();
        match self {
            PlanError::MissingEnv { source, name } => {
                r.append("Required environment variable '");
                r.append(source.as_str());
                r.append("' (for '");
                r.append(name.as_str());
                r.append("') is not set");
            },
            PlanError::FileSourceAndContent { dest } => {
                r.append("File entry for '");
                r.append(dest.as_str());
                r.append("' defines both 'source' and 'content'");
            },
            PlanError::FileNoSource { dest } => {
                r.append("File entry for '");
                r.append(dest.as_str());
                r.append("' needs either 'source' or 'content'");
            },
            PlanError::TemplateUnreadable { path, reason } => {
                r.append("Failed to read file template ");
                r.append(path.as_str());
                r.append(": ");
                r.append(reason.as_str());
            },
            PlanError::UnknownModule { shell, module } => {
                r.append("Shell '");
                r.append(shell.as_str());
                r.append("' references unknown shell module '");
                r.append(module.as_str());
                r.append("'");
            },
            PlanError::UnsupportedShell { shell } => {
                r.append("Unsupported shell '");
                r.append(shell.as_str());
                r.append("' in manifest");
            },
            PlanError::ManagedLoaderOnlyNushell { shell } => {
                r.append("Shell '");
                r.append(shell.as_str());
                r.append("' does not support managed-loader mode (only nushell)");
            },
            PlanError::NushellNeedsManagedLoader => {
                r.append("Shell 'nushell' uses managed-loader mode (it cannot eval snippets)");
            },
            PlanError::MissingTarget { shell } => {
                r.append("Shell '");
                r.append(shell.as_str());
                r.append("' needs an explicit 'target'");
            },
        }
        r
    }
}

} // verus!
