//! Shell integration: shell kinds, bounded blocks in startup files, module
//! rendering and the shell-related plan steps.
use crate::text;
use crate::blocks::{render_block, block_view};
use crate::error::{PlanError, PlanErrorView};
use crate::parser::{Os, ShellMode, ShellModuleSpec, ShellTargetConfig, SwissConfig, os_name};
use crate::plan::{PlanContext, Step, StepView};
use crate::strmap::lookup;
use crate::text::{chars_of, string_from_range, to_owned, str_eq};
use vstd::prelude::*;

verus! {

/// Name of the single bounded block Swiss maintains in startup files.
pub const REGISTRATION_BLOCK: &'static str = "init";

/// Nushell init file (within home) regenerated at every shell startup.
pub const NU_INIT_RELATIVE: &'static str = ".config/swiss/init.nu";

#[derive(Debug, Clone, Copy, PartialEq, Eq, Structural)]
pub enum ShellKind {
    Nushell,
    Zsh,
    Bash,
    Pwsh,
}

/// The shell a name designates (`nu`, `powershell` are aliases).
pub open spec fn kind_from_name(name: Seq<char>) -> Option<ShellKind> {
    if name == "nushell"@ || name == "nu"@ {
        Some(ShellKind::Nushell)
    } else if name == "zsh"@ {
        Some(ShellKind::Zsh)
    } else if name == "bash"@ {
        Some(ShellKind::Bash)
    } else if name == "pwsh"@ || name == "powershell"@ {
        Some(ShellKind::Pwsh)
    } else {
        None
    }
}

/// The canonical name of a shell.
pub open spec fn kind_name(k: ShellKind) -> Seq<char> {
    match k {
        ShellKind::Nushell => "nushell"@,
        ShellKind::Zsh => "zsh"@,
        ShellKind::Bash => "bash"@,
        ShellKind::Pwsh => "pwsh"@,
    }
}

/// The mode a shell uses when the manifest sets none.
pub open spec fn default_mode_of(k: ShellKind) -> crate::parser::ShellMode {
    match k {
        ShellKind::Nushell => crate::parser::ShellMode::ManagedLoader,
        ShellKind::Pwsh => crate::parser::ShellMode::Profile,
        _ => crate::parser::ShellMode::Snippet,
    }
}

/// The startup file patched for a shell when the manifest sets no target.
pub open spec fn default_target_of(k: ShellKind) -> Option<Seq<char>> {
    match k {
        ShellKind::Zsh => Some("~/.zshrc"@),
        ShellKind::Bash => Some("~/.bashrc"@),
        ShellKind::Pwsh => Some("$PROFILE"@),
        ShellKind::Nushell => None,
    }
}

/// The block registered in a startup file: cargo bin on PATH, then the
/// guarded evaluation of `swiss init`. Nushell has none.
pub open spec fn registration_line_of(k: ShellKind) -> Option<Seq<char>> {
    match k {
        ShellKind::Zsh | ShellKind::Bash => Some(
            "export PATH=\"$HOME/.cargo/bin:$PATH\"\ncommand -v swiss >/dev/null 2>&1 && eval \"$(swiss init --shell "@
                + kind_name(k) + ")\""@,
        ),
        ShellKind::Pwsh => Some(
            "$env:PATH = \"$HOME/.cargo/bin\" + [IO.Path]::PathSeparator + $env:PATH\nif (Get-Command swiss -ErrorAction SilentlyContinue) { swiss init --shell pwsh | Out-String | Invoke-Expression }"@,
        ),
        ShellKind::Nushell => None,
    }
}

impl ShellKind {
    pub fn from_name(name: &str) -> (r: Option<ShellKind>)
        ensures
            r == kind_from_name(name@),
    {
        if str_eq(name, "nushell") || str_eq(name, "nu") {
            Some(ShellKind::Nushell)
        } else if str_eq(name, "zsh") {
            Some(ShellKind::Zsh)
        } else if str_eq(name, "bash") {
            Some(ShellKind::Bash)
        } else if str_eq(name, "pwsh") || str_eq(name, "powershell") {
            Some(ShellKind::Pwsh)
        } else {
            None
        }
    }

    pub fn name(&self) -> (r: &'static str)
        ensures
            r@ == kind_name(*self),
    {
        match self {
            ShellKind::Nushell => "nushell",
            ShellKind::Zsh => "zsh",
            ShellKind::Bash => "bash",
            ShellKind::Pwsh => "pwsh",
        }
    }

    pub fn default_mode(&self) -> (r: crate::parser::ShellMode)
        ensures
            r == default_mode_of(*self),
    {
        match self {
            ShellKind::Nushell => crate::parser::ShellMode::ManagedLoader,
            ShellKind::Pwsh => crate::parser::ShellMode::Profile,
            _ => crate::parser::ShellMode::Snippet,
        }
    }

    pub fn default_target(&self) -> (r: Option<&'static str>)
        ensures
            match r {
                Some(t) => default_target_of(*self) == Some(t@),
                None => default_target_of(*self) is None,
            },
    {
        match self {
            ShellKind::Zsh => Some("~/.zshrc"),
            ShellKind::Bash => Some("~/.bashrc"),
            ShellKind::Pwsh => Some("$PROFILE"),
            ShellKind::Nushell => None,
        }
    }

    pub fn registration_line(&self) -> (r: Option<String>)
        ensures
            text::opt_view(r) == registration_line_of(*self),
    {
        match self {
            ShellKind::Zsh | ShellKind::Bash => {
                let mut s = to_owned(
                    "export PATH=\"$HOME/.cargo/bin:$PATH\"\ncommand -v swiss >/dev/null 2>&1 && eval \"$(swiss init --shell ",
                );
                s.append(self.name());
                s.append(")\"");
                Some(s)
            },
            ShellKind::Pwsh => Some(
                to_owned(
                    "$env:PATH = \"$HOME/.cargo/bin\" + [IO.Path]::PathSeparator + $env:PATH\nif (Get-Command swiss -ErrorAction SilentlyContinue) { swiss init --shell pwsh | Out-String | Invoke-Expression }",
                ),
            ),
            ShellKind::Nushell => None,
        }
    }
}

/// The block patched into `$nu.env-path`: cargo bin on PATH, then
/// regenerate the init file from `swiss init` (failures ignored).
pub open spec fn nu_env_hook_view() -> Seq<char> {
    "$env.PATH = ($env.PATH | prepend ($nu.home-path | path join \".cargo\" \"bin\"))\ntry { ^swiss init --shell nushell | save -f ($nu.home-path | path join \".config\" \"swiss\" \"init.nu\") }"@
}

pub fn nu_env_hook() -> (r: String)
    ensures
        r@ == nu_env_hook_view(),
{
    to_owned(
        "$env.PATH = ($env.PATH | prepend ($nu.home-path | path join \".cargo\" \"bin\"))\ntry { ^swiss init --shell nushell | save -f ($nu.home-path | path join \".config\" \"swiss\" \"init.nu\") }",
    )
}

/// The block patched into `$nu.config-path`: source the init file.
pub fn nu_config_hook() -> (r: String)
    ensures
        r@ == "source ~/"@ + NU_INIT_RELATIVE@,
{
    let mut r = to_owned("source ~/");
    r.append(NU_INIT_RELATIVE);
    r
}

/// `~/x` becomes `$HOME/x`; both POSIX shells and PowerShell expand `$HOME`.
pub open spec fn home_entry_view(entry: Seq<char>) -> Seq<char> {
    if text::starts_with_seq(entry, "~/"@) {
        "$HOME/"@ + entry.skip(2)
    } else {
        entry
    }
}

/// A double-quoted entry.
pub open spec fn quoted_view(entry: Seq<char>) -> Seq<char> {
    "\""@ + entry + "\""@
}

/// Entries with `~/` rewritten to `$HOME/`.
pub open spec fn home_list(s: Seq<String>) -> Seq<Seq<char>> {
    s.map_values(|x: String| home_entry_view(x@))
}

/// Entries in double quotes.
pub open spec fn quoted_list(s: Seq<String>) -> Seq<Seq<char>> {
    s.map_values(|x: String| quoted_view(x@))
}

fn home_path_entry(entry: &str) -> (r: String)
    ensures
        r@ == home_entry_view(entry@),
{
    proof {
        reveal_strlit("~/");
    }
    if text::str_starts_with(entry, "~/") {
        let v = chars_of(entry);
        let rest = string_from_range(&v, 2, v.len());
        let mut r = to_owned("$HOME/");
        r.append(rest.as_str());
        assert(v@.subrange(2, v@.len() as int) == entry@.skip(2));
        r
    } else {
        to_owned(entry)
    }
}

/// Appends `items`, each rewritten by `home_entry_view`, joined with `sep`.
fn push_joined_home(out: &mut String, items: &Vec<String>, sep: &str)
    ensures
        final(out)@ == old(out)@ + text::join_with(home_list(items@), sep@),
{
    let mut i: usize = 0;
    while i < items.len()
        invariant
            i <= items@.len(),
            out@ == old(out)@ + text::join_with(home_list(items@.take(i as int)), sep@),
        decreases items.len() - i,
    {
        proof {
            let t = items@.take(i + 1);
            assert(home_list(t).drop_last() == home_list(items@.take(i as int)));
            assert(home_list(t).last() == home_entry_view(items@[i as int]@));
            assert(home_list(items@.take(0)) == Seq::<Seq<char>>::empty());
        }
        if i > 0 {
            out.append(sep);
        }
        let h = home_path_entry(items[i].as_str());
        out.append(h.as_str());
        i = i + 1;
    }
    assert(items@.take(items@.len() as int) == items@);
}

/// Appends `items`, each double-quoted, joined with `sep`.
fn push_joined_quoted(out: &mut String, items: &Vec<String>, sep: &str)
    ensures
        final(out)@ == old(out)@ + text::join_with(quoted_list(items@), sep@),
{
    let mut i: usize = 0;
    while i < items.len()
        invariant
            i <= items@.len(),
            out@ == old(out)@ + text::join_with(quoted_list(items@.take(i as int)), sep@),
        decreases items.len() - i,
    {
        proof {
            let t = items@.take(i + 1);
            assert(quoted_list(t).drop_last() == quoted_list(items@.take(i as int)));
            assert(quoted_list(t).last() == quoted_view(items@[i as int]@));
            assert(quoted_list(items@.take(0)) == Seq::<Seq<char>>::empty());
        }
        if i > 0 {
            out.append(sep);
        }
        out.append("\"");
        out.append(items[i].as_str());
        out.append("\"");
        i = i + 1;
    }
    assert(items@.take(items@.len() as int) == items@);
}

/// PowerShell lines prepending each entry, last entry first.
pub open spec fn pwsh_prepend_lines(name: Seq<char>, s: Seq<String>) -> Seq<char>
    decreases s.len(),
{
    if s.len() == 0 {
        Seq::empty()
    } else {
        pwsh_prepend_lines(name, s.drop_first()) + "$env:"@ + name + " = \""@ + home_entry_view(s[0]@)
            + "\" + [IO.Path]::PathSeparator + $env:"@ + name + "\n"@
    }
}

/// PowerShell lines appending each entry, in order.
pub open spec fn pwsh_append_lines(name: Seq<char>, s: Seq<String>) -> Seq<char>
    decreases s.len(),
{
    if s.len() == 0 {
        Seq::empty()
    } else {
        pwsh_append_lines(name, s.drop_last()) + "$env:"@ + name + " = $env:"@ + name
            + " + [IO.Path]::PathSeparator + \""@ + home_entry_view(s.last()@) + "\"\n"@
    }
}

/// The lines setting one environment variable in a shell.
pub open spec fn env_entry_view(kind: ShellKind, name: Seq<char>, value: crate::parser::EnvValue) -> Seq<char> {
    match value {
        crate::parser::EnvValue::Plain(p) => match kind {
            ShellKind::Zsh | ShellKind::Bash => "export "@ + name + "=\""@ + p@ + "\"\n"@,
            ShellKind::Pwsh => "$env:"@ + name + " = \""@ + p@ + "\"\n"@,
            ShellKind::Nushell => "$env."@ + name + " = \""@ + p@ + "\"\n"@,
        },
        crate::parser::EnvValue::PathOps { prepend, append } => match kind {
            ShellKind::Zsh | ShellKind::Bash => (if prepend@.len() > 0 {
                "export "@ + name + "=\""@ + text::join_with(home_list(prepend@), ":"@) + ":$"@ + name
                    + "\"\n"@
            } else {
                Seq::empty()
            }) + (if append@.len() > 0 {
                "export "@ + name + "=\"$"@ + name + ":"@ + text::join_with(home_list(append@), ":"@)
                    + "\"\n"@
            } else {
                Seq::empty()
            }),
            ShellKind::Pwsh => pwsh_prepend_lines(name, prepend@) + pwsh_append_lines(name, append@),
            ShellKind::Nushell => (if prepend@.len() > 0 {
                "$env."@ + name + " = ($env."@ + name + " | prepend ["@ + text::join_with(
                    quoted_list(prepend@),
                    ", "@,
                ) + "])\n"@
            } else {
                Seq::empty()
            }) + (if append@.len() > 0 {
                "$env."@ + name + " = ($env."@ + name + " | append ["@ + text::join_with(
                    quoted_list(append@),
                    ", "@,
                ) + "])\n"@
            } else {
                Seq::empty()
            }),
        },
    }
}

/// The environment lines of a module, in key order.
pub open spec fn env_lines(kind: ShellKind, entries: Seq<(String, crate::parser::EnvValue)>) -> Seq<char>
    decreases entries.len(),
{
    if entries.len() == 0 {
        Seq::empty()
    } else {
        env_lines(kind, entries.drop_last()) + env_entry_view(kind, entries.last().0@, entries.last().1)
    }
}

/// One alias definition in a shell.
pub open spec fn alias_line(kind: ShellKind, alias: Seq<char>, command: Seq<char>) -> Seq<char> {
    match kind {
        ShellKind::Zsh | ShellKind::Bash => "alias "@ + alias + "='"@ + command + "'\n"@,
        ShellKind::Pwsh => "function "@ + alias + " { "@ + command + " @args }\n"@,
        ShellKind::Nushell => "alias "@ + alias + " = "@ + command + "\n"@,
    }
}

/// The alias lines of a module, in key order.
pub open spec fn alias_lines(kind: ShellKind, entries: Seq<(String, String)>) -> Seq<char>
    decreases entries.len(),
{
    if entries.len() == 0 {
        Seq::empty()
    } else {
        alias_lines(kind, entries.drop_last()) + alias_line(kind, entries.last().0@, entries.last().1@)
    }
}

/// The init line a module declares for a shell, emitted verbatim.
pub open spec fn init_part(kind: ShellKind, spec: crate::parser::ShellModuleSpec) -> Seq<char> {
    match crate::strmap::lookup(spec.init.entries@, kind_name(kind)) {
        Some(i) => text::trim_end_seq(i@) + "\n"@,
        None => Seq::empty(),
    }
}

/// What a module contributes to a shell's init script, if anything.
pub open spec fn render_module_view(kind: ShellKind, spec: crate::parser::ShellModuleSpec) -> Option<Seq<char>> {
    let body = env_lines(kind, spec.env.entries@) + alias_lines(kind, spec.aliases.entries@) + init_part(kind, spec);
    if body.len() == 0 {
        None
    } else {
        Some(body)
    }
}

/// `s` is empty or ends with a line break.
pub open spec fn ends_in_newline(s: Seq<char>) -> bool {
    s.len() == 0 || s.last() == '\n'
}

/// A module's environment entry renders nothing exactly when it is a PATH
/// edit that neither prepends nor appends.
pub open spec fn env_value_silent(v: crate::parser::EnvValue) -> bool {
    match v {
        crate::parser::EnvValue::Plain(_) => false,
        crate::parser::EnvValue::PathOps { prepend, append } => prepend@.len() == 0 && append@.len() == 0,
    }
}

proof fn lemma_concat_lines(a: Seq<char>, b: Seq<char>)
    requires
        ends_in_newline(a),
        ends_in_newline(b),
    ensures
        ends_in_newline(a + b),
        (a + b).len() == 0 <==> (a.len() == 0 && b.len() == 0),
{
}

proof fn lemma_pwsh_lines(name: Seq<char>, s: Seq<String>)
    ensures
        ends_in_newline(pwsh_prepend_lines(name, s)),
        ends_in_newline(pwsh_append_lines(name, s)),
        pwsh_prepend_lines(name, s).len() == 0 <==> s.len() == 0,
        pwsh_append_lines(name, s).len() == 0 <==> s.len() == 0,
    decreases s.len(),
{
    reveal_strlit("\n");
    reveal_strlit("\"\n");
    if s.len() > 0 {
        lemma_pwsh_lines(name, s.drop_first());
        lemma_pwsh_lines(name, s.drop_last());
    }
}

proof fn lemma_env_entry_lines(kind: ShellKind, name: Seq<char>, v: crate::parser::EnvValue)
    ensures
        ends_in_newline(env_entry_view(kind, name, v)),
        env_entry_view(kind, name, v).len() == 0 <==> env_value_silent(v),
{
    reveal_strlit("\n");
    reveal_strlit("\"\n");
    reveal_strlit("])\n");
    match v {
        crate::parser::EnvValue::Plain(_) => {},
        crate::parser::EnvValue::PathOps { prepend, append } => {
            lemma_pwsh_lines(name, prepend@);
            lemma_pwsh_lines(name, append@);
        },
    }
}

proof fn lemma_env_lines(kind: ShellKind, entries: Seq<(String, crate::parser::EnvValue)>)
    ensures
        ends_in_newline(env_lines(kind, entries)),
        env_lines(kind, entries).len() == 0 <==> forall|i: int|
            0 <= i < entries.len() ==> #[trigger] env_value_silent(entries[i].1),
    decreases entries.len(),
{
    if entries.len() > 0 {
        let rest = entries.drop_last();
        lemma_env_lines(kind, rest);
        lemma_env_entry_lines(kind, entries.last().0@, entries.last().1);
        lemma_concat_lines(env_lines(kind, rest), env_entry_view(kind, entries.last().0@, entries.last().1));
        if env_lines(kind, entries).len() != 0 {
            if forall|i: int| 0 <= i < entries.len() ==> #[trigger] env_value_silent(entries[i].1) {
                assert forall|i: int| 0 <= i < rest.len() implies #[trigger] env_value_silent(rest[i].1) by {
                    assert(rest[i] == entries[i]);
                }
                assert(env_value_silent(entries[entries.len() - 1].1));
            }
        } else {
            assert forall|i: int| 0 <= i < entries.len() implies #[trigger] env_value_silent(entries[i].1) by {
                if i < rest.len() {
                    assert(rest[i] == entries[i]);
                    assert(env_value_silent(rest[i].1));
                }
            }
        }
    }
}

proof fn lemma_alias_lines(kind: ShellKind, entries: Seq<(String, String)>)
    ensures
        ends_in_newline(alias_lines(kind, entries)),
        alias_lines(kind, entries).len() == 0 <==> entries.len() == 0,
    decreases entries.len(),
{
    reveal_strlit("\n");
    reveal_strlit("'\n");
    reveal_strlit(" @args }\n");
    if entries.len() > 0 {
        lemma_alias_lines(kind, entries.drop_last());
    }
}

/// A module renders nothing for a shell exactly when it has no aliases, no
/// init line for that shell, and only PATH edits that neither prepend nor
/// append. What it renders is never empty and ends with a line break, and
/// init lines kept for other shells never change it.
pub proof fn lemma_render_module_silent(
    kind: ShellKind,
    spec: crate::parser::ShellModuleSpec,
    other_init: crate::strmap::StrMap<String>,
)
    ensures
        render_module_view(kind, spec) is None <==> (spec.aliases.entries@.len() == 0 && lookup(
            spec.init.entries@,
            kind_name(kind),
        ) is None && forall|i: int|
            0 <= i < spec.env.entries@.len() ==> #[trigger] env_value_silent(spec.env.entries@[i].1)),
        render_module_view(kind, spec) matches Some(b) ==> b.len() > 0 && b.last() == '\n',
        lookup(other_init.entries@, kind_name(kind)) == lookup(spec.init.entries@, kind_name(kind))
            ==> render_module_view(kind, crate::parser::ShellModuleSpec { init: other_init, ..spec })
            == render_module_view(kind, spec),
{
    reveal_strlit("\n");
    lemma_env_lines(kind, spec.env.entries@);
    lemma_alias_lines(kind, spec.aliases.entries@);
    let e = env_lines(kind, spec.env.entries@);
    let a = alias_lines(kind, spec.aliases.entries@);
    let t = init_part(kind, spec);
    assert(ends_in_newline(t));
    lemma_concat_lines(e, a);
    lemma_concat_lines(e + a, t);
}

fn push_posix_path_ops(out: &mut String, name: &str, prepend: &Vec<String>, append: &Vec<String>)
    ensures
        final(out)@ == old(out)@ + env_entry_view(
            ShellKind::Zsh,
            name@,
            crate::parser::EnvValue::PathOps { prepend: *prepend, append: *append },
        ),
{
    let mut a = String::new();
    if prepend.len() > 0 {
        a.append("export ");
        a.append(name);
        a.append("=\"");
        push_joined_home(&mut a, prepend, ":");
        a.append(":$");
        a.append(name);
        a.append("\"\n");
    }
    let mut b = String::new();
    if append.len() > 0 {
        b.append("export ");
        b.append(name);
        b.append("=\"$");
        b.append(name);
        b.append(":");
        push_joined_home(&mut b, append, ":");
        b.append("\"\n");
    }
    out.append(a.as_str());
    out.append(b.as_str());
}

fn push_nu_path_ops(out: &mut String, name: &str, prepend: &Vec<String>, append: &Vec<String>)
    ensures
        final(out)@ == old(out)@ + env_entry_view(
            ShellKind::Nushell,
            name@,
            crate::parser::EnvValue::PathOps { prepend: *prepend, append: *append },
        ),
{
    let mut a = String::new();
    if prepend.len() > 0 {
        a.append("$env.");
        a.append(name);
        a.append(" = ($env.");
        a.append(name);
        a.append(" | prepend [");
        push_joined_quoted(&mut a, prepend, ", ");
        a.append("])\n");
    }
    let mut b = String::new();
    if append.len() > 0 {
        b.append("$env.");
        b.append(name);
        b.append(" = ($env.");
        b.append(name);
        b.append(" | append [");
        push_joined_quoted(&mut b, append, ", ");
        b.append("])\n");
    }
    out.append(a.as_str());
    out.append(b.as_str());
}

fn push_pwsh_path_ops(out: &mut String, name: &str, prepend: &Vec<String>, append: &Vec<String>)
    ensures
        final(out)@ == old(out)@ + env_entry_view(
            ShellKind::Pwsh,
            name@,
            crate::parser::EnvValue::PathOps { prepend: *prepend, append: *append },
        ),
{
    let mut a = String::new();
    let mut j = prepend.len();
    while j > 0
        invariant
            j <= prepend@.len(),
            a@ == pwsh_prepend_lines(name@, prepend@.subrange(j as int, prepend@.len() as int)),
        decreases j,
    {
        j = j - 1;
        a.append("$env:");
        a.append(name);
        a.append(" = \"");
        let h = home_path_entry(prepend[j].as_str());
        a.append(h.as_str());
        a.append("\" + [IO.Path]::PathSeparator + $env:");
        a.append(name);
        a.append("\n");
        proof {
            let s = prepend@.subrange(j as int, prepend@.len() as int);
            assert(s.drop_first() == prepend@.subrange(j + 1, prepend@.len() as int));
            assert(s[0] == prepend@[j as int]);
        }
    }
    let mut b = String::new();
    let mut k: usize = 0;
    while k < append.len()
        invariant
            k <= append@.len(),
            b@ == pwsh_append_lines(name@, append@.take(k as int)),
        decreases append.len() - k,
    {
        b.append("$env:");
        b.append(name);
        b.append(" = $env:");
        b.append(name);
        b.append(" + [IO.Path]::PathSeparator + \"");
        let h = home_path_entry(append[k].as_str());
        b.append(h.as_str());
        b.append("\"\n");
        proof {
            let s = append@.take(k + 1);
            assert(s.drop_last() == append@.take(k as int));
            assert(s.last() == append@[k as int]);
        }
        k = k + 1;
    }
    assert(prepend@.subrange(0, prepend@.len() as int) == prepend@);
    assert(append@.take(append@.len() as int) == append@);
    out.append(a.as_str());
    out.append(b.as_str());
}

fn push_env_entry(out: &mut String, kind: ShellKind, name: &str, value: &crate::parser::EnvValue)
    ensures
        final(out)@ == old(out)@ + env_entry_view(kind, name@, *value),
{
    match value {
        crate::parser::EnvValue::Plain(plain) => {
            match kind {
                ShellKind::Zsh | ShellKind::Bash => {
                    out.append("export ");
                    out.append(name);
                    out.append("=\"");
                },
                ShellKind::Pwsh => {
                    out.append("$env:");
                    out.append(name);
                    out.append(" = \"");
                },
                ShellKind::Nushell => {
                    out.append("$env.");
                    out.append(name);
                    out.append(" = \"");
                },
            }
            out.append(plain.as_str());
            out.append("\"\n");
        },
        crate::parser::EnvValue::PathOps { prepend, append } => {
            match kind {
                ShellKind::Zsh | ShellKind::Bash => push_posix_path_ops(out, name, prepend, append),
                ShellKind::Pwsh => push_pwsh_path_ops(out, name, prepend, append),
                ShellKind::Nushell => push_nu_path_ops(out, name, prepend, append),
            }
        },
    }
}

fn push_alias_line(out: &mut String, kind: ShellKind, alias: &str, command: &str)
    ensures
        final(out)@ == old(out)@ + alias_line(kind, alias@, command@),
{
    match kind {
        ShellKind::Zsh | ShellKind::Bash => {
            out.append("alias ");
            out.append(alias);
            out.append("='");
            out.append(command);
            out.append("'\n");
        },
        ShellKind::Pwsh => {
            out.append("function ");
            out.append(alias);
            out.append(" { ");
            out.append(command);
            out.append(" @args }\n");
        },
        ShellKind::Nushell => {
            out.append("alias ");
            out.append(alias);
            out.append(" = ");
            out.append(command);
            out.append("\n");
        },
    }
}

/// Renders the body of one module for a shell; `None` when the module
/// contributes nothing for that shell.
pub fn render_module(kind: ShellKind, spec: &crate::parser::ShellModuleSpec) -> (r: Option<String>)
    ensures
        text::opt_view(r) == render_module_view(kind, *spec),
{
    let mut body = String::new();
    let mut i: usize = 0;
    while i < spec.env.entries.len()
        invariant
            i <= spec.env.entries@.len(),
            body@ == env_lines(kind, spec.env.entries@.take(i as int)),
        decreases spec.env.entries.len() - i,
    {
        push_env_entry(&mut body, kind, spec.env.entries[i].0.as_str(), &spec.env.entries[i].1);
        proof {
            let t = spec.env.entries@.take(i + 1);
            assert(t.drop_last() == spec.env.entries@.take(i as int));
            assert(t.last() == spec.env.entries@[i as int]);
        }
        i = i + 1;
    }
    assert(spec.env.entries@.take(spec.env.entries@.len() as int) == spec.env.entries@);
    let ghost b1 = body@;
    let mut k: usize = 0;
    while k < spec.aliases.entries.len()
        invariant
            k <= spec.aliases.entries@.len(),
            body@ == b1 + alias_lines(kind, spec.aliases.entries@.take(k as int)),
        decreases spec.aliases.entries.len() - k,
    {
        push_alias_line(&mut body, kind, spec.aliases.entries[k].0.as_str(), spec.aliases.entries[k].1.as_str());
        proof {
            let t = spec.aliases.entries@.take(k + 1);
            assert(t.drop_last() == spec.aliases.entries@.take(k as int));
            assert(t.last() == spec.aliases.entries@[k as int]);
        }
        k = k + 1;
    }
    assert(spec.aliases.entries@.take(spec.aliases.entries@.len() as int) == spec.aliases.entries@);
    if let Some(init) = spec.init.get(kind.name()) {
        let t = text::trim_end(init.as_str());
        body.append(t.as_str());
        body.append("\n");
    }
    if body.unicode_len() == 0 {
        None
    } else {
        Some(body)
    }
}

/// Index of the first name that `mods` does not define, or -1.
pub open spec fn first_unknown_module(mods: Seq<(String, ShellModuleSpec)>, names: Seq<String>) -> int {
    if exists|i: int| 0 <= i < names.len() && lookup(mods, names[i]@) is None && forall|j: int|
        0 <= j < i ==> lookup(mods, names[j]@) is Some {
        choose|i: int| 0 <= i < names.len() && lookup(mods, names[i]@) is None && forall|j: int|
            0 <= j < i ==> lookup(mods, names[j]@) is Some
    } else {
        -1
    }
}

/// Looks every listed module up; the first unknown one is an error.
pub fn resolve_modules<'a>(
    config: &'a SwissConfig,
    names: &'a Vec<String>,
    shell: &str,
) -> (r: Result<Vec<(&'a String, &'a ShellModuleSpec)>, PlanError>)
    ensures
        match r {
            Ok(v) => first_unknown_module(config.shell_modules.entries@, names@) == -1 && v@.len()
                == names@.len() && forall|i: int|
                0 <= i < names@.len() ==> #[trigger] v@[i].0@ == names@[i]@ && lookup(
                    config.shell_modules.entries@,
                    names@[i]@,
                ) == Some(*v@[i].1),
            Err(e) => {
                let i = first_unknown_module(config.shell_modules.entries@, names@);
                &&& 0 <= i < names@.len()
                &&& e@ == PlanErrorView::UnknownModule { shell: shell@, module: names@[i]@ }
            },
        },
{
    let mut resolved: Vec<(&'a String, &'a ShellModuleSpec)> = Vec::new();
    let mut i: usize = 0;
    while i < names.len()
        invariant
            i <= names@.len(),
            resolved@.len() == i,
            forall|j: int|
                0 <= j < i ==> #[trigger] resolved@[j].0@ == names@[j]@ && lookup(
                    config.shell_modules.entries@,
                    names@[j]@,
                ) == Some(*resolved@[j].1),
        decreases names.len() - i,
    {
        match config.shell_modules.get(names[i].as_str()) {
            Some(spec) => resolved.push((&names[i], spec)),
            None => {
                proof {
                    assert forall|j: int| 0 <= j < i implies lookup(config.shell_modules.entries@, names@[j]@) is Some by {
                        assert(resolved@[j].0@ == names@[j]@);
                    }
                    assert(lookup(config.shell_modules.entries@, names@[i as int]@) is None);
                    let w = choose|w: int| 0 <= w < names@.len() && lookup(config.shell_modules.entries@, names@[w]@) is None && forall|j: int|
                        0 <= j < w ==> lookup(config.shell_modules.entries@, names@[j]@) is Some;
                    if w < i {
                        assert(resolved@[w].0@ == names@[w]@);
                        assert(lookup(config.shell_modules.entries@, names@[w]@) == Some(*resolved@[w].1));
                    }
                    assert(w == i);
                }
                return Err(PlanError::UnknownModule { shell: to_owned(shell), module: to_owned(names[i].as_str()) });
            },
        }
        i = i + 1;
    }
    proof {
        if exists|w: int| 0 <= w < names@.len() && lookup(config.shell_modules.entries@, names@[w]@) is None && forall|j: int|
            0 <= j < w ==> lookup(config.shell_modules.entries@, names@[j]@) is Some {
            let w = choose|w: int| 0 <= w < names@.len() && lookup(config.shell_modules.entries@, names@[w]@) is None && forall|j: int|
                0 <= j < w ==> lookup(config.shell_modules.entries@, names@[j]@) is Some;
            assert(resolved@[w].0@ == names@[w]@);
            assert(lookup(config.shell_modules.entries@, names@[w]@) == Some(*resolved@[w].1));
        }
    }
    Ok(resolved)
}

/// The system package providing a shell on an OS, and whether brew needs
/// `--cask` for it; `None` when Swiss cannot install the shell there.
pub open spec fn shell_system_package_view(kind: ShellKind, os: Os) -> Option<(Seq<char>, bool)> {
    match (kind, os) {
        (ShellKind::Zsh, Os::Linux) | (ShellKind::Zsh, Os::Macos) => Some(("zsh"@, false)),
        (ShellKind::Bash, Os::Linux) | (ShellKind::Bash, Os::Macos) => Some(("bash"@, false)),
        (ShellKind::Pwsh, Os::Macos) => Some(("powershell"@, true)),
        _ => None,
    }
}

pub fn shell_system_package(kind: ShellKind, os: Os) -> (r: Option<(&'static str, bool)>)
    ensures
        match r {
            Some((p, c)) => shell_system_package_view(kind, os) == Some((p@, c)),
            None => shell_system_package_view(kind, os) is None,
        },
{
    match (kind, os) {
        (ShellKind::Zsh, Os::Linux) | (ShellKind::Zsh, Os::Macos) => Some(("zsh", false)),
        (ShellKind::Bash, Os::Linux) | (ShellKind::Bash, Os::Macos) => Some(("bash", false)),
        (ShellKind::Pwsh, Os::Macos) => Some(("powershell", true)),
        _ => None,
    }
}

/// The mode a shell target uses.
pub open spec fn target_mode(target: ShellTargetConfig, kind: ShellKind) -> ShellMode {
    match target.mode {
        Some(m) => m,
        None => default_mode_of(kind),
    }
}

/// The install step for one enabled shell missing from the host.
pub open spec fn shell_package_entry(
    name: Seq<char>,
    target: ShellTargetConfig,
    os: Os,
    available: Seq<Seq<char>>,
) -> Seq<StepView> {
    if !target.enabled {
        Seq::empty()
    } else {
        match kind_from_name(name) {
            None => Seq::empty(),
            Some(k) => if target_mode(target, k) == ShellMode::Print || k == ShellKind::Nushell
                || available.contains(kind_name(k)) {
                Seq::empty()
            } else {
                match (shell_system_package_view(k, os), os) {
                    (Some((package, _)), Os::Linux) => seq![
                        StepView::Command {
                            program: "sudo"@,
                            args: seq!["apt-get"@, "install"@, "-y"@, package],
                            cwd: None,
                            requires_admin: true,
                        },
                    ],
                    (Some((package, cask)), Os::Macos) => seq![
                        StepView::Command {
                            program: "brew"@,
                            args: if cask {
                                seq!["install"@, "--cask"@, package]
                            } else {
                                seq!["install"@, package]
                            },
                            cwd: None,
                            requires_admin: false,
                        },
                    ],
                    _ => Seq::empty(),
                }
            },
        }
    }
}

/// Install steps for the shells of `entries`, in order.
pub open spec fn shell_package_view(
    entries: Seq<(String, ShellTargetConfig)>,
    os: Os,
    available: Seq<Seq<char>>,
) -> Seq<StepView>
    decreases entries.len(),
{
    if entries.len() == 0 {
        Seq::empty()
    } else {
        shell_package_view(entries.drop_last(), os, available) + shell_package_entry(
            entries.last().0@,
            entries.last().1,
            os,
            available,
        )
    }
}

/// The install step of a missing shell: `sudo apt-get install -y zsh|bash`
/// as administrator on Linux; `brew install zsh|bash` or
/// `brew install --cask powershell` on macOS; none elsewhere.
pub open spec fn shell_install_shape(step: StepView, os: Os) -> bool {
    match step {
        StepView::Command { program, args, cwd, requires_admin } => cwd is None && match os {
            Os::Linux => program == "sudo"@ && requires_admin && (args == seq!["apt-get"@, "install"@, "-y"@, "zsh"@]
                || args == seq!["apt-get"@, "install"@, "-y"@, "bash"@]),
            Os::Macos => program == "brew"@ && !requires_admin && (args == seq!["install"@, "zsh"@] || args
                == seq!["install"@, "bash"@] || args == seq!["install"@, "--cask"@, "powershell"@]),
            Os::Windows => false,
        },
        _ => false,
    }
}

/// An enabled entry for a known shell other than Nushell, not in print
/// mode, missing from the host, with a system package there.
pub open spec fn needs_shell_install(name: Seq<char>, target: ShellTargetConfig, os: Os, available: Seq<Seq<char>>) -> bool {
    target.enabled && match kind_from_name(name) {
        Some(k) => target_mode(target, k) != ShellMode::Print && k != ShellKind::Nushell && !available.contains(
            kind_name(k),
        ) && shell_system_package_view(k, os) is Some && !(os is Windows),
        None => false,
    }
}

/// An entry of `shells` plans an install step only when it is enabled,
/// names a known shell other than Nushell, is not in print mode, is missing
/// from the host, and has a system package there; then it plans exactly one.
pub proof fn lemma_shell_package_entry(name: Seq<char>, target: ShellTargetConfig, os: Os, available: Seq<Seq<char>>)
    ensures
        shell_package_entry(name, target, os, available).len() <= 1,
        shell_package_entry(name, target, os, available).len() == 1 <==> needs_shell_install(
            name,
            target,
            os,
            available,
        ),
        forall|i: int|
            0 <= i < shell_package_entry(name, target, os, available).len() ==> shell_install_shape(
                #[trigger] shell_package_entry(name, target, os, available)[i],
                os,
            ),
{
}

/// Every planned shell install has the shape of [`shell_install_shape`],
/// and no entry plans more than one.
pub proof fn lemma_shell_package_steps(entries: Seq<(String, ShellTargetConfig)>, os: Os, available: Seq<Seq<char>>)
    ensures
        shell_package_view(entries, os, available).len() <= entries.len(),
        forall|i: int|
            0 <= i < shell_package_view(entries, os, available).len() ==> shell_install_shape(
                #[trigger] shell_package_view(entries, os, available)[i],
                os,
            ),
    decreases entries.len(),
{
    if entries.len() > 0 {
        let rest = entries.drop_last();
        lemma_shell_package_steps(rest, os, available);
        lemma_shell_package_entry(entries.last().0@, entries.last().1, os, available);
        let a = shell_package_view(rest, os, available);
        let b = shell_package_entry(entries.last().0@, entries.last().1, os, available);
        assert forall|i: int| 0 <= i < (a + b).len() implies shell_install_shape(#[trigger] (a + b)[i], os) by {
            if i >= a.len() {
                assert((a + b)[i] == b[i - a.len()]);
            } else {
                assert((a + b)[i] == a[i]);
            }
        }
    }
}

fn shell_package_entry_steps(name: &str, target: &ShellTargetConfig, context: &PlanContext) -> (r: Vec<Step>)
    ensures
        crate::plan::steps_view(r@) == shell_package_entry(
            name@,
            *target,
            context.os,
            text::strs_view(context.available_shells@),
        ),
{
    let mut steps: Vec<Step> = Vec::new();
    if !target.enabled {
        return steps;
    }
    let kind = match ShellKind::from_name(name) {
        Some(k) => k,
        None => return steps,
    };
    let mode = match target.mode {
        Some(m) => m,
        None => kind.default_mode(),
    };
    if mode == ShellMode::Print || kind == ShellKind::Nushell {
        return steps;
    }
    if text::contains_string(&context.available_shells, kind.name()) {
        return steps;
    }
    match (shell_system_package(kind, context.os), context.os) {
        (Some((package, _)), Os::Linux) => {
            let args = vec![to_owned("apt-get"), to_owned("install"), to_owned("-y"), to_owned(package)];
            let ghost pv = package@;
            assert(text::strs_view(args@) =~= seq!["apt-get"@, "install"@, "-y"@, pv]);
            steps.push(Step::Command { program: to_owned("sudo"), args, cwd: None, requires_admin: true });
            assert(crate::plan::steps_view(steps@) =~= shell_package_entry(
                name@,
                *target,
                context.os,
                text::strs_view(context.available_shells@),
            ));
        },
        (Some((package, cask)), Os::Macos) => {
            let mut args = vec![to_owned("install")];
            if cask {
                args.push(to_owned("--cask"));
            }
            args.push(to_owned(package));
            let ghost pv = package@;
            assert(text::strs_view(args@) =~= if cask {
                seq!["install"@, "--cask"@, pv]
            } else {
                seq!["install"@, pv]
            });
            steps.push(Step::Command { program: to_owned("brew"), args, cwd: None, requires_admin: false });
            assert(crate::plan::steps_view(steps@) =~= shell_package_entry(
                name@,
                *target,
                context.os,
                text::strs_view(context.available_shells@),
            ));
        },
        _ => {},
    }
    steps
}

/// Installs the shells the manifest enables but the host is missing, before
/// any step configures them. Nushell rides the cargo phase instead.
pub fn shell_package_steps(config: &SwissConfig, context: &PlanContext) -> (r: Result<Vec<Step>, PlanError>)
    ensures
        r matches Ok(v) && crate::plan::steps_view(v@) == shell_package_view(
            config.shells.entries@,
            context.os,
            text::strs_view(context.available_shells@),
        ),
{
    let mut steps: Vec<Step> = Vec::new();
    let mut i: usize = 0;
    while i < config.shells.entries.len()
        invariant
            i <= config.shells.entries@.len(),
            crate::plan::steps_view(steps@) == shell_package_view(
                config.shells.entries@.take(i as int),
                context.os,
                text::strs_view(context.available_shells@),
            ),
        decreases config.shells.entries.len() - i,
    {
        let more = shell_package_entry_steps(
            config.shells.entries[i].0.as_str(),
            &config.shells.entries[i].1,
            context,
        );
        let ghost before = steps@;
        let ghost m = more@;
        let mut more = more;
        steps.append(&mut more);
        proof {
            let t = config.shells.entries@.take(i + 1);
            assert(t.drop_last() == config.shells.entries@.take(i as int));
            assert(t.last() == config.shells.entries@[i as int]);
            crate::plan::lemma_steps_view_append(before, m);
        }
        i = i + 1;
    }
    assert(config.shells.entries@.take(config.shells.entries@.len() as int) == config.shells.entries@);
    Ok(steps)
}

/// The warning for one enabled shell that the host lacks and Swiss cannot
/// install on `os`: there is no system package for it there.
pub open spec fn manual_install_entry(
    name: Seq<char>,
    target: ShellTargetConfig,
    os: Os,
    available: Seq<Seq<char>>,
) -> Option<Seq<char>> {
    if !target.enabled {
        None
    } else {
        match kind_from_name(name) {
            None => None,
            Some(k) => if target_mode(target, k) == ShellMode::Print || k == ShellKind::Nushell
                || available.contains(kind_name(k)) || (shell_system_package_view(k, os) is Some
                && !(os is Windows)) {
                None
            } else {
                Some(
                    "Shell '"@ + kind_name(k)
                        + "' is enabled in the manifest but not installed, and Swiss cannot install it automatically on "@
                        + os_name(os) + "; install it manually"@,
                )
            },
        }
    }
}

/// The warnings of [`manual_install_entry`] for the shells of `entries`, in
/// order.
pub open spec fn manual_install_view(
    entries: Seq<(String, ShellTargetConfig)>,
    os: Os,
    available: Seq<Seq<char>>,
) -> Seq<Seq<char>>
    decreases entries.len(),
{
    if entries.len() == 0 {
        Seq::empty()
    } else {
        manual_install_view(entries.drop_last(), os, available) + match manual_install_entry(
            entries.last().0@,
            entries.last().1,
            os,
            available,
        ) {
            Some(w) => seq![w],
            None => Seq::empty(),
        }
    }
}

fn manual_install_warning(name: &str, target: &ShellTargetConfig, context: &PlanContext) -> (r: Option<String>)
    ensures
        match r {
            Some(w) => manual_install_entry(name@, *target, context.os, text::strs_view(context.available_shells@))
                == Some(w@),
            None => manual_install_entry(name@, *target, context.os, text::strs_view(context.available_shells@))
                is None,
        },
{
    if !target.enabled {
        return None;
    }
    let kind = match ShellKind::from_name(name) {
        Some(k) => k,
        None => return None,
    };
    let mode = match target.mode {
        Some(m) => m,
        None => kind.default_mode(),
    };
    if mode == ShellMode::Print || kind == ShellKind::Nushell {
        return None;
    }
    if text::contains_string(&context.available_shells, kind.name()) {
        return None;
    }
    let windows = match context.os {
        Os::Windows => true,
        _ => false,
    };
    if shell_system_package(kind, context.os).is_some() && !windows {
        return None;
    }
    let mut w = to_owned("Shell '");
    w.append(kind.name());
    w.append("' is enabled in the manifest but not installed, and Swiss cannot install it automatically on ");
    w.append(context.os.name());
    w.append("; install it manually");
    Some(w)
}

/// Warnings for the enabled shells that the host lacks and that Swiss cannot
/// install there, so they have to be installed by hand.
pub fn manual_install_warnings(config: &SwissConfig, context: &PlanContext) -> (r: Vec<String>)
    ensures
        text::strs_view(r@) == manual_install_view(
            config.shells.entries@,
            context.os,
            text::strs_view(context.available_shells@),
        ),
{
    let mut out: Vec<String> = Vec::new();
    let mut i: usize = 0;
    while i < config.shells.entries.len()
        invariant
            i <= config.shells.entries@.len(),
            text::strs_view(out@) == manual_install_view(
                config.shells.entries@.take(i as int),
                context.os,
                text::strs_view(context.available_shells@),
            ),
        decreases config.shells.entries.len() - i,
    {
        let w = manual_install_warning(config.shells.entries[i].0.as_str(), &config.shells.entries[i].1, context);
        proof {
            let t = config.shells.entries@.take(i + 1);
            assert(t.drop_last() == config.shells.entries@.take(i as int));
            assert(t.last() == config.shells.entries@[i as int]);
        }
        match w {
            Some(w) => {
                let ghost before = out@;
                out.push(w);
                assert(text::strs_view(out@) =~= text::strs_view(before).push(w@));
            },
            None => {},
        }
        i = i + 1;
    }
    assert(config.shells.entries@.take(config.shells.entries@.len() as int) == config.shells.entries@);
    out
}

/// Placeholder written to the Nushell init file so `source` never fails.
pub const NU_INIT_PLACEHOLDER: &'static str = "# Generated by swiss at shell startup\n";

/// Nushell registration: a placeholder init file plus the env/config hooks.
pub open spec fn nu_registration_view(home: Seq<char>) -> Seq<StepView> {
    seq![
        StepView::WriteFile {
            path: crate::paths::path_join(home, NU_INIT_RELATIVE@),
            content: vstd::utf8::encode_utf8(NU_INIT_PLACEHOLDER@),
            overwrite: false,
            append_if_missing: false,
            backup: false,
            requires_admin: false,
        },
        StepView::ConfigureNu,
    ]
}

/// Nushell registration steps, also used by `swiss setup` when the
/// manifest does not mention nushell.
pub fn nushell_registration_steps(context: &PlanContext) -> (r: Vec<Step>)
    ensures
        crate::plan::steps_view(r@) == nu_registration_view(context.home@),
{
    let path = crate::paths::join_path(context.home.as_str(), NU_INIT_RELATIVE);
    let content = text::utf8_bytes(NU_INIT_PLACEHOLDER);
    let r = vec![
        Step::WriteFile {
            path,
            content,
            overwrite: false,
            append_if_missing: false,
            backup: false,
            requires_admin: false,
        },
        Step::ConfigureNu,
    ];
    assert(crate::plan::steps_view(r@) =~= nu_registration_view(context.home@));
    r
}

/// The registration block for a snippet/profile shell.
pub open spec fn registration_view(kind: ShellKind, target: ShellTargetConfig) -> Result<StepView, PlanErrorView> {
    let file = match target.target {
        Some(t) => Some(t@),
        None => default_target_of(kind),
    };
    match file {
        None => Err(PlanErrorView::MissingTarget { shell: kind_name(kind) }),
        Some(f) => Ok(
            StepView::PatchBlock {
                target: f,
                block: REGISTRATION_BLOCK@,
                content: registration_line_of(kind)->0,
            },
        ),
    }
}

/// The startup file a shell entry registers Swiss in is the entry's own
/// `target` when it sets one, for every shell; the shell's default startup
/// file is used only when the entry sets none.
pub proof fn lemma_registration_target(kind: ShellKind, target: ShellTargetConfig)
    requires
        kind != ShellKind::Nushell,
    ensures
        match target.target {
            Some(t) => registration_view(kind, target) == Ok::<StepView, PlanErrorView>(
                StepView::PatchBlock {
                    target: t@,
                    block: REGISTRATION_BLOCK@,
                    content: registration_line_of(kind)->0,
                },
            ),
            None => registration_view(kind, target) == Ok::<StepView, PlanErrorView>(
                StepView::PatchBlock {
                    target: default_target_of(kind)->0,
                    block: REGISTRATION_BLOCK@,
                    content: registration_line_of(kind)->0,
                },
            ),
        },
{
}

/// An enabled snippet or profile entry for a shell other than Nushell, whose
/// modules are all defined and which sets `target`, plans exactly one step:
/// patching the registration block into that target.
pub proof fn lemma_shell_entry_patches_target(
    config: SwissConfig,
    home: Seq<char>,
    name: Seq<char>,
    target: ShellTargetConfig,
    t: String,
)
    requires
        target.enabled,
        target.target == Some(t),
        kind_from_name(name) matches Some(k) && k != ShellKind::Nushell && (target_mode(target, k)
            == ShellMode::Snippet || target_mode(target, k) == ShellMode::Profile),
        first_unknown_module(config.shell_modules.entries@, target.modules@) == -1,
    ensures
        shell_entry_view(config, home, name, target) == Ok::<Seq<StepView>, PlanErrorView>(
            seq![
                StepView::PatchBlock {
                    target: t@,
                    block: REGISTRATION_BLOCK@,
                    content: registration_line_of(kind_from_name(name)->0)->0,
                },
            ],
        ),
{
    lemma_registration_target(kind_from_name(name)->0, target);
}

fn registration_step(kind: ShellKind, target: &ShellTargetConfig) -> (r: Result<Step, PlanError>)
    requires
        kind != ShellKind::Nushell,
    ensures
        crate::error::result_view(r, |s: Step| s@) == registration_view(kind, *target),
{
    let file = match &target.target {
        Some(t) => to_owned(t.as_str()),
        None => match kind.default_target() {
            Some(d) => to_owned(d),
            None => {
                return Err(PlanError::MissingTarget { shell: to_owned(kind.name()) });
            },
        },
    };
    let line = kind.registration_line();
    match line {
        Some(content) => Ok(Step::PatchBlock { target: file, block: to_owned(REGISTRATION_BLOCK), content }),
        None => Err(PlanError::MissingTarget { shell: to_owned(kind.name()) }),
    }
}

/// The steps (or the error) one `shells` entry produces.
pub open spec fn shell_entry_view(
    config: SwissConfig,
    home: Seq<char>,
    name: Seq<char>,
    target: ShellTargetConfig,
) -> Result<Seq<StepView>, PlanErrorView> {
    if !target.enabled {
        Ok(Seq::empty())
    } else {
        match kind_from_name(name) {
            None => Err(PlanErrorView::UnsupportedShell { shell: name }),
            Some(k) => {
                let u = first_unknown_module(config.shell_modules.entries@, target.modules@);
                if u >= 0 {
                    Err(PlanErrorView::UnknownModule { shell: name, module: target.modules@[u]@ })
                } else {
                    match target_mode(target, k) {
                        ShellMode::Print => Ok(Seq::empty()),
                        ShellMode::ManagedLoader => if k != ShellKind::Nushell {
                            Err(PlanErrorView::ManagedLoaderOnlyNushell { shell: name })
                        } else {
                            Ok(nu_registration_view(home))
                        },
                        _ => if k == ShellKind::Nushell {
                            Err(PlanErrorView::NushellNeedsManagedLoader)
                        } else {
                            match registration_view(k, target) {
                                Ok(s) => Ok(seq![s]),
                                Err(e) => Err(e),
                            }
                        },
                    }
                }
            },
        }
    }
}

/// The shell steps of the entries, stopping at the first error.
pub open spec fn shell_steps_view(
    config: SwissConfig,
    home: Seq<char>,
    entries: Seq<(String, ShellTargetConfig)>,
) -> Result<Seq<StepView>, PlanErrorView>
    decreases entries.len(),
{
    if entries.len() == 0 {
        Ok(Seq::empty())
    } else {
        match shell_steps_view(config, home, entries.drop_last()) {
            Err(e) => Err(e),
            Ok(prev) => match shell_entry_view(config, home, entries.last().0@, entries.last().1) {
                Err(e) => Err(e),
                Ok(more) => Ok(prev + more),
            },
        }
    }
}

/// Whether a `shells` entry makes planning fail: it is enabled and names
/// an unknown shell, references a module the manifest does not define, asks
/// for the managed loader on a shell other than Nushell, or puts Nushell in
/// snippet or profile mode.
pub open spec fn shell_entry_fails(config: SwissConfig, name: Seq<char>, target: ShellTargetConfig) -> bool {
    target.enabled && match kind_from_name(name) {
        None => true,
        Some(k) => {
            ||| first_unknown_module(config.shell_modules.entries@, target.modules@) >= 0
            ||| (target_mode(target, k) == ShellMode::ManagedLoader && k != ShellKind::Nushell)
            ||| ((target_mode(target, k) == ShellMode::Snippet || target_mode(target, k) == ShellMode::Profile)
                && k == ShellKind::Nushell)
        },
    }
}

/// One entry fails exactly as [`shell_entry_fails`] says.
pub proof fn lemma_shell_entry_fails(config: SwissConfig, home: Seq<char>, name: Seq<char>, target: ShellTargetConfig)
    ensures
        shell_entry_view(config, home, name, target) is Err <==> shell_entry_fails(config, name, target),
{
}

/// Shell planning fails exactly when some entry of `shells` fails (see
/// [`shell_entry_fails`]); with no entries it plans nothing.
pub proof fn lemma_shell_steps_fail(config: SwissConfig, home: Seq<char>, entries: Seq<(String, ShellTargetConfig)>)
    ensures
        shell_steps_view(config, home, entries) is Err <==> exists|i: int|
            0 <= i < entries.len() && #[trigger] shell_entry_fails(config, entries[i].0@, entries[i].1),
        entries.len() == 0 ==> shell_steps_view(config, home, entries) == Ok::<Seq<StepView>, PlanErrorView>(
            Seq::empty(),
        ),
    decreases entries.len(),
{
    if entries.len() > 0 {
        let rest = entries.drop_last();
        let n = entries.len() - 1;
        lemma_shell_steps_fail(config, home, rest);
        lemma_shell_entry_fails(config, home, entries[n].0@, entries[n].1);
        if exists|i: int| 0 <= i < rest.len() && #[trigger] shell_entry_fails(config, rest[i].0@, rest[i].1) {
            let i = choose|i: int| 0 <= i < rest.len() && #[trigger] shell_entry_fails(config, rest[i].0@, rest[i].1);
            assert(rest[i] == entries[i]);
            assert(shell_entry_fails(config, entries[i].0@, entries[i].1));
        }
        if exists|i: int| 0 <= i < entries.len() && #[trigger] shell_entry_fails(config, entries[i].0@, entries[i].1) {
            let i = choose|i: int| 0 <= i < entries.len() && #[trigger] shell_entry_fails(config, entries[i].0@, entries[i].1);
            if i < n {
                assert(rest[i] == entries[i]);
                assert(shell_entry_fails(config, rest[i].0@, rest[i].1));
            }
        }
    }
}

fn shell_entry_steps(
    config: &SwissConfig,
    context: &PlanContext,
    name: &str,
    target: &ShellTargetConfig,
) -> (r: Result<Vec<Step>, PlanError>)
    ensures
        crate::error::result_view(r, |v: Vec<Step>| crate::plan::steps_view(v@)) == shell_entry_view(
            *config,
            context.home@,
            name@,
            *target,
        ),
{
    if !target.enabled {
        let v: Vec<Step> = Vec::new();
        assert(crate::plan::steps_view(v@) =~= Seq::<StepView>::empty());
        return Ok(v);
    }
    let kind = match ShellKind::from_name(name) {
        Some(k) => k,
        None => {
            return Err(PlanError::UnsupportedShell { shell: to_owned(name) });
        },
    };
    let mode = match target.mode {
        Some(m) => m,
        None => kind.default_mode(),
    };
    match resolve_modules(config, &target.modules, name) {
        Ok(_) => {},
        Err(e) => {
            return Err(e);
        },
    }
    match mode {
        ShellMode::Print => {
            let v: Vec<Step> = Vec::new();
            assert(crate::plan::steps_view(v@) =~= Seq::<StepView>::empty());
            Ok(v)
        },
        ShellMode::ManagedLoader => {
            if kind != ShellKind::Nushell {
                Err(PlanError::ManagedLoaderOnlyNushell { shell: to_owned(name) })
            } else {
                Ok(nushell_registration_steps(context))
            }
        },
        _ => {
            if kind == ShellKind::Nushell {
                Err(PlanError::NushellNeedsManagedLoader)
            } else {
                match registration_step(kind, target) {
                    Ok(step) => {
                        let v = vec![step];
                        assert(crate::plan::steps_view(v@) =~= seq![v@[0]@]);
                        Ok(v)
                    },
                    Err(e) => Err(e),
                }
            }
        },
    }
}

/// Generates the plan steps for every enabled shell in the manifest.
pub fn shell_steps(config: &SwissConfig, context: &PlanContext) -> (r: Result<Vec<Step>, PlanError>)
    ensures
        crate::error::result_view(r, |v: Vec<Step>| crate::plan::steps_view(v@)) == shell_steps_view(
            *config,
            context.home@,
            config.shells.entries@,
        ),
{
    let mut steps: Vec<Step> = Vec::new();
    let mut i: usize = 0;
    assert(config.shells.entries@.take(0) =~= Seq::<(String, ShellTargetConfig)>::empty());
    assert(crate::plan::steps_view(steps@) =~= Seq::<StepView>::empty());
    while i < config.shells.entries.len()
        invariant
            i <= config.shells.entries@.len(),
            shell_steps_view(*config, context.home@, config.shells.entries@.take(i as int)) == Ok::<
                Seq<StepView>,
                PlanErrorView,
            >(crate::plan::steps_view(steps@)),
        decreases config.shells.entries.len() - i,
    {
        proof {
            let t = config.shells.entries@.take(i + 1);
            assert(t.drop_last() == config.shells.entries@.take(i as int));
            assert(t.last() == config.shells.entries@[i as int]);
        }
        match shell_entry_steps(config, context, config.shells.entries[i].0.as_str(), &config.shells.entries[i].1) {
            Ok(more) => {
                let ghost before = steps@;
                let ghost m = more@;
                let mut more = more;
                steps.append(&mut more);
                proof {
                    crate::plan::lemma_steps_view_append(before, m);
                }
            },
            Err(e) => {
                proof {
                    lemma_shell_steps_error_sticks(*config, context.home@, config.shells.entries@, i as int + 1);
                }
                return Err(e);
            },
        }
        i = i + 1;
    }
    assert(config.shells.entries@.take(config.shells.entries@.len() as int) == config.shells.entries@);
    Ok(steps)
}

/// Once a prefix of the entries fails, every longer prefix fails the same way.
proof fn lemma_shell_steps_error_sticks(
    config: SwissConfig,
    home: Seq<char>,
    entries: Seq<(String, ShellTargetConfig)>,
    n: int,
)
    requires
        0 <= n <= entries.len(),
        shell_steps_view(config, home, entries.take(n)) is Err,
    ensures
        shell_steps_view(config, home, entries) == shell_steps_view(config, home, entries.take(n)),
    decreases entries.len() - n,
{
    if n < entries.len() {
        let t = entries.take(n + 1);
        assert(t.drop_last() == entries.take(n));
        lemma_shell_steps_error_sticks(config, home, entries, n + 1);
    } else {
        assert(entries.take(n) == entries);
    }
}

/// The `SWISS_VERSION` export line of an init script.
pub open spec fn version_line_view(kind: ShellKind) -> Seq<char> {
    match kind {
        ShellKind::Nushell => "$env.SWISS_VERSION = \""@ + crate::persistence::VERSION@ + "\""@,
        ShellKind::Pwsh => "$env:SWISS_VERSION = \""@ + crate::persistence::VERSION@ + "\""@,
        _ => "export SWISS_VERSION=\""@ + crate::persistence::VERSION@ + "\""@,
    }
}

/// The module blocks of an init script, in list order.
pub open spec fn module_blocks(kind: ShellKind, mods: Seq<(String, ShellModuleSpec)>, names: Seq<String>) -> Seq<char>
    decreases names.len(),
{
    if names.len() == 0 {
        Seq::empty()
    } else {
        module_blocks(kind, mods, names.drop_last()) + match lookup(mods, names.last()@) {
            Some(spec) => match render_module_view(kind, spec) {
                Some(body) => "\n"@ + block_view(names.last()@, body),
                None => Seq::empty(),
            },
            None => Seq::empty(),
        }
    }
}

/// The block one module contributes to an init script: its rendering as a
/// bounded block after a blank line, or nothing when it is undefined or
/// renders nothing.
pub open spec fn module_block(kind: ShellKind, mods: Seq<(String, ShellModuleSpec)>, name: Seq<char>) -> Seq<char> {
    match lookup(mods, name) {
        Some(spec) => match render_module_view(kind, spec) {
            Some(body) => "\n"@ + block_view(name, body),
            None => Seq::empty(),
        },
        None => Seq::empty(),
    }
}

/// Module blocks follow the modules list: listing one more module appends
/// its block after the blocks of the modules before it.
pub proof fn lemma_module_blocks_push(
    kind: ShellKind,
    mods: Seq<(String, ShellModuleSpec)>,
    names: Seq<String>,
    n: String,
)
    ensures
        module_blocks(kind, mods, names.push(n)) == module_blocks(kind, mods, names) + module_block(kind, mods, n@),
{
    assert(names.push(n).drop_last() == names);
}

/// Module blocks of two lists in a row are the blocks of the first list
/// followed by those of the second: a module's block always comes before
/// the blocks of the modules listed after it.
pub proof fn lemma_module_blocks_concat(
    kind: ShellKind,
    mods: Seq<(String, ShellModuleSpec)>,
    first: Seq<String>,
    second: Seq<String>,
)
    ensures
        module_blocks(kind, mods, first + second) == module_blocks(kind, mods, first) + module_blocks(
            kind,
            mods,
            second,
        ),
    decreases second.len(),
{
    if second.len() == 0 {
        assert(first + second == first);
    } else {
        let n = second.last();
        let init = second.drop_last();
        lemma_module_blocks_concat(kind, mods, first, init);
        assert((first + second) == (first + init).push(n));
        lemma_module_blocks_push(kind, mods, first + init, n);
        lemma_module_blocks_push(kind, mods, init, n);
        assert(second == init.push(n));
    }
}

/// The blocks of a single module.
pub proof fn lemma_module_blocks_single(kind: ShellKind, mods: Seq<(String, ShellModuleSpec)>, n: String)
    ensures
        module_blocks(kind, mods, seq![n]) == module_block(kind, mods, n@),
{
    lemma_module_blocks_push(kind, mods, Seq::empty(), n);
    assert(Seq::<String>::empty().push(n) == seq![n]);
}

/// In the init script, the blocks of the modules before position `j` of the
/// list come first, then the block of module `j`, then the blocks of the
/// modules after it.
pub proof fn lemma_init_script_module_order(
    config: SwissConfig,
    kind: ShellKind,
    modules: Seq<String>,
    aliases: Seq<(String, String)>,
    j: int,
)
    requires
        0 <= j < modules.len(),
    ensures
        init_script_view(config, kind, modules, aliases) == "# Generated by swiss init --shell "@ + kind_name(kind)
            + "\n"@ + version_line_view(kind) + "\n"@ + module_blocks(
            kind,
            config.shell_modules.entries@,
            modules.take(j),
        ) + module_block(kind, config.shell_modules.entries@, modules[j]@) + module_blocks(
            kind,
            config.shell_modules.entries@,
            modules.skip(j + 1),
        ) + alias_block(kind, aliases),
{
    let mods = config.shell_modules.entries@;
    let a = modules.take(j);
    let b = seq![modules[j]];
    let c = modules.skip(j + 1);
    assert(modules == a + b + c);
    lemma_module_blocks_concat(kind, mods, a + b, c);
    lemma_module_blocks_concat(kind, mods, a, b);
    lemma_module_blocks_single(kind, mods, modules[j]);
}

/// The block of aliases recorded in the cache, if any.
pub open spec fn alias_block(kind: ShellKind, aliases: Seq<(String, String)>) -> Seq<char> {
    let body = alias_lines(kind, aliases);
    if aliases.len() == 0 || body.len() == 0 {
        Seq::empty()
    } else {
        "\n"@ + block_view("swiss-aliases"@, body)
    }
}

/// The full init script of a shell.
pub open spec fn init_script_view(
    config: SwissConfig,
    kind: ShellKind,
    modules: Seq<String>,
    aliases: Seq<(String, String)>,
) -> Seq<char> {
    "# Generated by swiss init --shell "@ + kind_name(kind) + "\n"@ + version_line_view(kind) + "\n"@
        + module_blocks(kind, config.shell_modules.entries@, modules) + alias_block(kind, aliases)
}

proof fn lemma_first_unknown_exists(mods: Seq<(String, ShellModuleSpec)>, names: Seq<String>, j: int)
    requires
        0 <= j < names.len(),
        lookup(mods, names[j]@) is None,
    ensures
        first_unknown_module(mods, names) >= 0,
    decreases j,
{
    if forall|k: int| 0 <= k < j ==> lookup(mods, names[k]@) is Some {
        assert(0 <= j < names.len() && lookup(mods, names[j]@) is None && forall|k: int|
            0 <= k < j ==> lookup(mods, names[k]@) is Some);
    } else {
        let k = choose|k: int| 0 <= k < j && lookup(mods, names[k]@) is None;
        lemma_first_unknown_exists(mods, names, k);
    }
}

/// The shape of an init script: it fails exactly when some listed module is
/// not defined, naming the first such module; otherwise it is the header,
/// the version line, each listed module that renders something as its own
/// block in list order, and a `swiss-aliases` block exactly when aliases
/// are cached.
pub proof fn lemma_init_script_shape(
    config: SwissConfig,
    kind: ShellKind,
    modules: Seq<String>,
    aliases: Seq<(String, String)>,
)
    ensures
        first_unknown_module(config.shell_modules.entries@, modules) == -1 <==> forall|i: int|
            0 <= i < modules.len() ==> #[trigger] lookup(config.shell_modules.entries@, modules[i]@) is Some,
        ({
            let u = first_unknown_module(config.shell_modules.entries@, modules);
            u >= 0 ==> u < modules.len() && lookup(config.shell_modules.entries@, modules[u]@) is None && forall|
                j: int,
            |
                0 <= j < u ==> #[trigger] lookup(config.shell_modules.entries@, modules[j]@) is Some
        }),
        init_script_view(config, kind, modules, aliases) == "# Generated by swiss init --shell "@ + kind_name(kind)
            + "\n"@ + version_line_view(kind) + "\n"@ + module_blocks(kind, config.shell_modules.entries@, modules)
            + alias_block(kind, aliases),
        alias_block(kind, aliases) == if aliases.len() == 0 {
            Seq::<char>::empty()
        } else {
            "\n"@ + block_view("swiss-aliases"@, alias_lines(kind, aliases))
        },
{
    let mods = config.shell_modules.entries@;
    lemma_alias_lines(kind, aliases);
    if !(forall|i: int| 0 <= i < modules.len() ==> #[trigger] lookup(mods, modules[i]@) is Some) {
        let j = choose|j: int| 0 <= j < modules.len() && !(lookup(mods, modules[j]@) is Some);
        lemma_first_unknown_exists(mods, modules, j);
    }
}

fn push_alias_block(content: &mut String, kind: ShellKind, cached_aliases: &crate::strmap::StrMap<String>)
    ensures
        final(content)@ == old(content)@ + alias_block(kind, cached_aliases.entries@),
{
    if cached_aliases.len() > 0 {
        let mut body = String::new();
        let mut k: usize = 0;
        while k < cached_aliases.entries.len()
            invariant
                k <= cached_aliases.entries@.len(),
                body@ == alias_lines(kind, cached_aliases.entries@.take(k as int)),
            decreases cached_aliases.entries.len() - k,
        {
            push_alias_line(&mut body, kind, cached_aliases.entries[k].0.as_str(), cached_aliases.entries[k].1.as_str());
            proof {
                let t = cached_aliases.entries@.take(k + 1);
                assert(t.drop_last() == cached_aliases.entries@.take(k as int));
                assert(t.last() == cached_aliases.entries@[k as int]);
            }
            k = k + 1;
        }
        assert(cached_aliases.entries@.take(cached_aliases.entries@.len() as int) == cached_aliases.entries@);
        if body.unicode_len() > 0 {
            content.append("\n");
            let b = render_block("swiss-aliases", body.as_str());
            content.append(b.as_str());
        }
    }
}

fn push_module_blocks(
    content: &mut String,
    config: &SwissConfig,
    kind: ShellKind,
    modules: &Vec<String>,
    resolved: &Vec<(&String, &ShellModuleSpec)>,
)
    requires
        resolved@.len() == modules@.len(),
        forall|j: int|
            0 <= j < modules@.len() ==> #[trigger] resolved@[j].0@ == modules@[j]@ && lookup(
                config.shell_modules.entries@,
                modules@[j]@,
            ) == Some(*resolved@[j].1),
    ensures
        final(content)@ == old(content)@ + module_blocks(kind, config.shell_modules.entries@, modules@),
{
    let mut i: usize = 0;
    assert(modules@.take(0) =~= Seq::<String>::empty());
    while i < resolved.len()
        invariant
            i <= resolved@.len(),
            resolved@.len() == modules@.len(),
            forall|j: int|
                0 <= j < modules@.len() ==> #[trigger] resolved@[j].0@ == modules@[j]@ && lookup(
                    config.shell_modules.entries@,
                    modules@[j]@,
                ) == Some(*resolved@[j].1),
            content@ == old(content)@ + module_blocks(kind, config.shell_modules.entries@, modules@.take(i as int)),
        decreases resolved.len() - i,
    {
        let (module_name, spec) = resolved[i];
        proof {
            let t = modules@.take(i + 1);
            assert(t.drop_last() == modules@.take(i as int));
            assert(t.last() == modules@[i as int]);
            assert(resolved@[i as int].0@ == modules@[i as int]@);
        }
        if let Some(body) = render_module(kind, spec) {
            content.append("\n");
            let b = render_block(module_name.as_str(), body.as_str());
            content.append(b.as_str());
        }
        i = i + 1;
    }
    assert(modules@.take(modules@.len() as int) == modules@);
}

/// Full init script for a shell, rendered at `swiss init` time: SWISS
/// metadata, every module as a bounded block, and the cached aliases.
#[verifier::spinoff_prover]
pub fn render_init_script(
    config: &SwissConfig,
    kind: ShellKind,
    modules: &Vec<String>,
    cached_aliases: &crate::strmap::StrMap<String>,
) -> (r: Result<String, PlanError>)
    ensures
        match r {
            Ok(s) => first_unknown_module(config.shell_modules.entries@, modules@) == -1 && s@
                == init_script_view(*config, kind, modules@, cached_aliases.entries@),
            Err(e) => {
                let i = first_unknown_module(config.shell_modules.entries@, modules@);
                &&& 0 <= i < modules@.len()
                &&& e@ == PlanErrorView::UnknownModule { shell: kind_name(kind), module: modules@[i]@ }
            },
        },
{
    let mut content = to_owned("# Generated by swiss init --shell ");
    content.append(kind.name());
    content.append("\n");
    match kind {
        ShellKind::Nushell => content.append("$env.SWISS_VERSION = \""),
        ShellKind::Pwsh => content.append("$env:SWISS_VERSION = \""),
        _ => content.append("export SWISS_VERSION=\""),
    }
    content.append(crate::persistence::VERSION);
    content.append("\"");
    content.append("\n");
    let resolved = match resolve_modules(config, modules, kind.name()) {
        Ok(r) => r,
        Err(e) => {
            return Err(e);
        },
    };
    push_module_blocks(&mut content, config, kind, modules, &resolved);
    push_alias_block(&mut content, kind, cached_aliases);
    Ok(content)
}

} // verus!
