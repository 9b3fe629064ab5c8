//! The decisions behind the `swiss` commands: registered profiles, the
//! confirmation answer, environment defaults, shell registration during
//! setup, run summaries and the status report.
use crate::config_loader::LoadedManifest;
use crate::parser::{EnvRequirement, SwissConfig};
use crate::persistence::{
    Dependency, FINGERPRINT_KEY, MANIFEST_PATH_KEY, MANIFEST_PROFILES_KEY, SwissCache, VERSION,
    dep_type_name, status_name,
};
use crate::plan::{PlanContext, Step, StepView, env_source, steps_view};
use crate::report::Outcome;
use crate::shellgen::{
    REGISTRATION_BLOCK, ShellKind, default_target_of, kind_from_name, kind_name, nu_registration_view,
    registration_line_of,
};
use crate::strmap::{has_key, lookup};
use crate::text;
use crate::text::{str_eq, strs_view, to_owned};
use vstd::prelude::*;

verus! {

/// The pieces of `s` between newlines (`str::split('\n')`).
pub open spec fn split_lines(s: Seq<char>) -> Seq<Seq<char>>
    decreases s.len(),
{
    if s.len() == 0 {
        seq![Seq::empty()]
    } else {
        let p = split_lines(s.drop_last());
        if s.last() == '\n' {
            p.push(Seq::empty())
        } else {
            p.update(p.len() - 1, p.last().push(s.last()))
        }
    }
}

/// The pieces that are not empty, in order.
pub open spec fn nonempty(ps: Seq<Seq<char>>) -> Seq<Seq<char>>
    decreases ps.len(),
{
    if ps.len() == 0 {
        Seq::empty()
    } else {
        nonempty(ps.drop_last()) + if ps.last().len() == 0 {
            Seq::<Seq<char>>::empty()
        } else {
            seq![ps.last()]
        }
    }
}

/// The profiles registered with the manifest: the non-empty lines of the
/// stored value.
pub fn profiles_from_lines(raw: &str) -> (r: Vec<String>)
    ensures
        strs_view(r@) == nonempty(split_lines(raw@)),
{
    let chars = text::chars_of(raw);
    let mut out: Vec<String> = Vec::new();
    let mut cur: Vec<char> = Vec::new();
    let mut i: usize = 0;
    proof {
        assert(chars@.take(0) =~= Seq::<char>::empty());
        assert(split_lines(Seq::<char>::empty()).drop_last() =~= Seq::<Seq<char>>::empty());
    }
    while i < chars.len()
        invariant
            chars@ == raw@,
            i <= chars@.len(),
            split_lines(chars@.take(i as int)).len() > 0,
            strs_view(out@) == nonempty(split_lines(chars@.take(i as int)).drop_last()),
            cur@ == split_lines(chars@.take(i as int)).last(),
        decreases chars.len() - i,
    {
        let ghost prev = split_lines(chars@.take(i as int));
        proof {
            let t = chars@.take(i + 1);
            assert(t.drop_last() =~= chars@.take(i as int));
            assert(t.last() == chars@[i as int]);
        }
        let c = chars[i];
        if c == '\n' {
            let ghost before = out@;
            if cur.len() > 0 {
                out.push(text::string_from_chars(&cur));
            }
            proof {
                let np = prev.push(Seq::empty());
                assert(np.drop_last() =~= prev);
                assert(prev =~= prev.drop_last().push(prev.last()));
                assert(nonempty(prev) == nonempty(prev.drop_last()) + if prev.last().len() == 0 {
                    Seq::<Seq<char>>::empty()
                } else {
                    seq![prev.last()]
                });
                assert(strs_view(out@) =~= nonempty(np.drop_last()));
            }
            cur = Vec::new();
            assert(cur@ =~= Seq::<char>::empty());
        } else {
            cur.push(c);
            proof {
                let np = prev.update(prev.len() - 1, prev.last().push(c));
                assert(np.drop_last() =~= prev.drop_last());
                assert(cur@ =~= np.last());
            }
        }
        i = i + 1;
    }
    assert(chars@.take(chars@.len() as int) =~= chars@);
    let ghost all = split_lines(raw@);
    proof {
        assert(all =~= all.drop_last().push(all.last()));
    }
    if cur.len() > 0 {
        out.push(text::string_from_chars(&cur));
    }
    assert(strs_view(out@) =~= nonempty(all));
    out
}

/// The profiles registered in the cache, if any.
pub fn registered_profiles(cache: &SwissCache) -> (r: Vec<String>)
    ensures
        strs_view(r@) == match lookup(cache.inner.entries@, MANIFEST_PROFILES_KEY@) {
            Some(raw) => nonempty(split_lines(raw@)),
            None => Seq::empty(),
        },
{
    match cache.get(MANIFEST_PROFILES_KEY) {
        Some(raw) => profiles_from_lines(raw),
        None => {
            let v: Vec<String> = Vec::new();
            assert(strs_view(v@) =~= Seq::<Seq<char>>::empty());
            v
        },
    }
}

/// The view of an optional string slice.
pub open spec fn opt_str(o: Option<&str>) -> Option<Seq<char>> {
    match o {
        Some(s) => Some(s@),
        None => None,
    }
}

/// The error of `swiss update` when no manifest is given or registered.
pub const NO_MANIFEST_REGISTERED: &'static str = "No manifest registered yet. Run `swiss setup --manifest <path>` first, or pass --manifest explicitly.";

/// The manifest and profiles `swiss update` applies: an explicit manifest
/// with the given profiles; otherwise the registered manifest, with the
/// given profiles or, when none are given, the registered ones.
pub open spec fn update_target_view(
    cache: SwissCache,
    manifest: Option<Seq<char>>,
    profiles: Seq<Seq<char>>,
) -> Result<(Seq<char>, Seq<Seq<char>>), Seq<char>> {
    match manifest {
        Some(path) => Ok((path, profiles)),
        None => match lookup(cache.inner.entries@, MANIFEST_PATH_KEY@) {
            None => Err(NO_MANIFEST_REGISTERED@),
            Some(path) => Ok((
                path@,
                if profiles.len() == 0 {
                    match lookup(cache.inner.entries@, MANIFEST_PROFILES_KEY@) {
                        Some(raw) => nonempty(split_lines(raw@)),
                        None => Seq::empty(),
                    }
                } else {
                    profiles
                },
            )),
        },
    }
}

/// Chooses what `swiss update` applies (see [`update_target_view`]).
pub fn update_target(cache: &SwissCache, manifest: Option<&str>, profiles: &Vec<String>) -> (r: Result<
    (String, Vec<String>),
    String,
>)
    ensures
        match r {
            Ok((p, ps)) => update_target_view(*cache, opt_str(manifest), strs_view(profiles@)) == Ok::<
                (Seq<char>, Seq<Seq<char>>),
                Seq<char>,
            >((p@, strs_view(ps@))),
            Err(e) => update_target_view(*cache, opt_str(manifest), strs_view(profiles@)) == Err::<
                (Seq<char>, Seq<Seq<char>>),
                Seq<char>,
            >(e@),
        },
{
    match manifest {
        Some(path) => Ok((to_owned(path), text::clone_strings(profiles))),
        None => match cache.get(MANIFEST_PATH_KEY) {
            None => Err(to_owned(NO_MANIFEST_REGISTERED)),
            Some(path) => {
                let ps = if profiles.len() == 0 {
                    registered_profiles(cache)
                } else {
                    text::clone_strings(profiles)
                };
                Ok((to_owned(path), ps))
            },
        },
    }
}

/// The modules `swiss init` renders for a shell: those of its `shells`
/// entry when enabled, none otherwise.
pub open spec fn init_modules_view(config: SwissConfig, kind: ShellKind) -> Seq<Seq<char>> {
    match lookup(config.shells.entries@, kind_name(kind)) {
        Some(t) => if t.enabled {
            strs_view(t.modules@)
        } else {
            Seq::empty()
        },
        None => Seq::empty(),
    }
}

/// The modules `swiss init` renders for a shell.
pub fn init_modules(config: &SwissConfig, kind: ShellKind) -> (r: Vec<String>)
    ensures
        strs_view(r@) == init_modules_view(*config, kind),
{
    match config.shells.get(kind.name()) {
        Some(target) => {
            if target.enabled {
                text::clone_strings(&target.modules)
            } else {
                let v: Vec<String> = Vec::new();
                assert(strs_view(v@) =~= Seq::<Seq<char>>::empty());
                v
            }
        },
        None => {
            let v: Vec<String> = Vec::new();
            assert(strs_view(v@) =~= Seq::<Seq<char>>::empty());
            v
        },
    }
}

/// Whether a confirmation answer accepts: `y`, `Y` or `yes`, blanks aside.
pub open spec fn accepts_view(answer: Seq<char>) -> bool {
    let t = text::trim_seq(answer);
    t == "y"@ || t == "Y"@ || t == "yes"@
}

/// Whether the answer to `Apply N step(s)? [y/N]` accepts.
pub fn is_confirmation(answer: &str) -> (r: bool)
    ensures
        r == accepts_view(answer@),
{
    let t = text::trim(answer);
    str_eq(t.as_str(), "y") || str_eq(t.as_str(), "Y") || str_eq(t.as_str(), "yes")
}

/// The defaults exported before a run, in order: for each `env` entry
/// whose variable is unset (and not set by an earlier entry), its default.
pub open spec fn env_defaults_view(entries: Seq<(String, EnvRequirement)>, env: Seq<(String, String)>) -> Seq<
    (Seq<char>, Seq<char>),
>
    decreases entries.len(),
{
    if entries.len() == 0 {
        Seq::empty()
    } else {
        let acc = env_defaults_view(entries.drop_last(), env);
        let name = entries.last().0@;
        let req = entries.last().1;
        let source = env_source(name, req);
        if lookup(env, source) is None && !acc.map_values(|p: (Seq<char>, Seq<char>)| p.0).contains(source) {
            match req.default {
                Some(d) => acc.push((source, d@)),
                None => acc,
            }
        } else {
            acc
        }
    }
}

/// The views of string pairs.
pub open spec fn pair_views(s: Seq<(String, String)>) -> Seq<(Seq<char>, Seq<char>)> {
    s.map_values(|p: (String, String)| (p.0@, p.1@))
}

/// The environment defaults to export before a run (see [`env_defaults_view`]).
pub fn env_defaults(config: &SwissConfig, env: &crate::strmap::StrMap<String>) -> (r: Vec<(String, String)>)
    ensures
        pair_views(r@) == env_defaults_view(config.env.entries@, env.entries@),
{
    let mut out: Vec<(String, String)> = Vec::new();
    let ghost entries = config.env.entries@;
    let mut i: usize = 0;
    assert(pair_views(out@) =~= env_defaults_view(entries.take(0), env.entries@));
    while i < config.env.entries.len()
        invariant
            entries == config.env.entries@,
            i <= entries.len(),
            pair_views(out@) == env_defaults_view(entries.take(i as int), env.entries@),
        decreases config.env.entries.len() - i,
    {
        proof {
            let t = entries.take(i + 1);
            assert(t.drop_last() =~= entries.take(i as int));
            assert(t.last() == entries[i as int]);
        }
        let name = &config.env.entries[i].0;
        let req = &config.env.entries[i].1;
        let source: &str = match &req.from_env {
            Some(s) => s.as_str(),
            None => name.as_str(),
        };
        let mut seen = false;
        let mut j: usize = 0;
        while j < out.len()
            invariant
                j <= out@.len(),
                seen == pair_views(out@).take(j as int).map_values(|p: (Seq<char>, Seq<char>)| p.0).contains(
                    source@,
                ),
            decreases out.len() - j,
        {
            let eq = str_eq(out[j].0.as_str(), source);
            proof {
                let a = pair_views(out@).take(j as int).map_values(|p: (Seq<char>, Seq<char>)| p.0);
                let b = pair_views(out@).take(j + 1).map_values(|p: (Seq<char>, Seq<char>)| p.0);
                assert(b =~= a.push(out@[j as int].0@));
                if a.contains(source@) {
                    let w = choose|w: int| 0 <= w < a.len() && a[w] == source@;
                    assert(b[w] == source@);
                }
                if eq {
                    assert(b[j as int] == source@);
                }
                if b.contains(source@) && !a.contains(source@) {
                    let w = choose|w: int| 0 <= w < b.len() && b[w] == source@;
                    if w < a.len() {
                        assert(a[w] == source@);
                    }
                }
            }
            seen = seen || eq;
            j = j + 1;
        }
        assert(pair_views(out@).take(out@.len() as int) =~= pair_views(out@));
        if !seen && env.get(source).is_none() {
            match &req.default {
                Some(d) => {
                    let ghost before = out@;
                    out.push((to_owned(source), to_owned(d.as_str())));
                    assert(pair_views(out@) =~= pair_views(before).push((source@, d@)));
                },
                None => {},
            }
        }
        i = i + 1;
    }
    assert(entries.take(entries.len() as int) =~= entries);
    out
}

/// The shell `swiss setup` registers without `--shell`: the running one,
/// or Nushell when the manifest manages it.
pub open spec fn detect_shell_view(from_env: Option<ShellKind>, config: SwissConfig) -> Option<ShellKind> {
    match from_env {
        Some(k) => Some(k),
        None => if config.manages_nushell_view() {
            Some(ShellKind::Nushell)
        } else {
            None
        },
    }
}

/// The shell to register (see [`detect_shell_view`]).
pub fn detect_shell(from_env: Option<ShellKind>, manifest: &LoadedManifest) -> (r: Option<ShellKind>)
    ensures
        r == detect_shell_view(from_env, manifest.config),
{
    match from_env {
        Some(k) => Some(k),
        None => if manifest.config.manages_nushell() {
            Some(ShellKind::Nushell)
        } else {
            None
        },
    }
}

/// The extra steps of `swiss setup` for a shell: nothing when the manifest
/// mentions the shell at all (it is the source of truth), otherwise its
/// registration.
pub open spec fn registration_steps_view(config: SwissConfig, home: Seq<char>, kind: Option<ShellKind>) -> Seq<
    StepView,
> {
    match kind {
        None => Seq::empty(),
        Some(k) => if has_key(config.shells.entries@, kind_name(k)) {
            Seq::empty()
        } else if k == ShellKind::Nushell {
            nu_registration_view(home)
        } else {
            seq![
                StepView::PatchBlock {
                    target: default_target_of(k)->0,
                    block: REGISTRATION_BLOCK@,
                    content: registration_line_of(k)->0,
                },
            ]
        },
    }
}

/// Registers the Swiss init for the requested shell (`--shell`), else the
/// detected one, when the manifest's `shells` section does not cover it.
pub fn shell_registration_steps(
    manifest: &LoadedManifest,
    context: &PlanContext,
    shell: Option<&str>,
    detected: Option<ShellKind>,
) -> (r: Result<Vec<Step>, String>)
    ensures
        match shell {
            Some(name) => match kind_from_name(name@) {
                None => r matches Err(m) && m@ == "Unknown shell '"@ + name@ + "'"@,
                Some(k) => r matches Ok(v) && steps_view(v@) == registration_steps_view(
                    manifest.config,
                    context.home@,
                    Some(k),
                ),
            },
            None => r matches Ok(v) && steps_view(v@) == registration_steps_view(
                manifest.config,
                context.home@,
                detected,
            ),
        },
{
    let kind = match shell {
        Some(name) => match ShellKind::from_name(name) {
            Some(k) => Some(k),
            None => {
                let mut m = to_owned("Unknown shell '");
                m.append(name);
                m.append("'");
                return Err(m);
            },
        },
        None => detected,
    };
    let k = match kind {
        Some(k) => k,
        None => {
            let v: Vec<Step> = Vec::new();
            assert(steps_view(v@) =~= Seq::<StepView>::empty());
            return Ok(v);
        },
    };
    if manifest.config.shells.contains_key(k.name()) {
        let v: Vec<Step> = Vec::new();
        assert(steps_view(v@) =~= Seq::<StepView>::empty());
        return Ok(v);
    }
    match k {
        ShellKind::Nushell => Ok(crate::shellgen::nushell_registration_steps(context)),
        _ => {
            let target = match k.default_target() {
                Some(t) => to_owned(t),
                None => to_owned(""),
            };
            let content = match k.registration_line() {
                Some(c) => c,
                None => to_owned(""),
            };
            let v = vec![Step::PatchBlock { target, block: to_owned(REGISTRATION_BLOCK), content }];
            assert(steps_view(v@) =~= registration_steps_view(manifest.config, context.home@, Some(k)));
            Ok(v)
        },
    }
}

/// The error of a run with failures, pointing at the log.
pub open spec fn run_failure_view(failed: nat, log_path: Option<Seq<char>>) -> Seq<char> {
    text::decimal(failed) + " step(s) failed; the rest were applied."@ + (match log_path {
        Some(p) => " See the full log at "@ + p + "."@,
        None => Seq::empty(),
    }) + " Re-run to retry."@
}

/// `None` for a clean run; otherwise the error that ends the command.
pub fn run_failure_message(outcome: &Outcome) -> (r: Option<String>)
    ensures
        match r {
            None => outcome.failed == 0,
            Some(m) => outcome.failed > 0 && m@ == run_failure_view(
                outcome.failed as nat,
                text::opt_view(outcome.log_path),
            ),
        },
{
    if outcome.succeeded() {
        return None;
    }
    let mut m = String::new();
    text::push_decimal(&mut m, outcome.failed as u64);
    m.append(" step(s) failed; the rest were applied.");
    match &outcome.log_path {
        Some(p) => {
            m.append(" See the full log at ");
            m.append(p.as_str());
            m.append(".");
        },
        None => {},
    }
    m.append(" Re-run to retry.");
    Some(m)
}

/// The templates `swiss setup --template` can write.
#[derive(Debug, Clone, Copy, PartialEq, Eq, Structural)]
pub enum Template {
    Workstation,
    ServiceHost,
    DevShell,
}

/// The template a name selects.
pub open spec fn template_view(name: Seq<char>) -> Option<Template> {
    if name == "workstation"@ {
        Some(Template::Workstation)
    } else if name == "service-host"@ {
        Some(Template::ServiceHost)
    } else if name == "dev-shell"@ {
        Some(Template::DevShell)
    } else {
        None
    }
}

/// The template a name selects, or the error listing the available ones.
pub fn template_named(name: &str) -> (r: Result<Template, String>)
    ensures
        match template_view(name@) {
            Some(t) => r == Ok::<Template, String>(t),
            None => r matches Err(m) && m@ == "Unknown template '"@ + name@
                + "'. Available: workstation, service-host, dev-shell"@,
        },
{
    if str_eq(name, "workstation") {
        Ok(Template::Workstation)
    } else if str_eq(name, "service-host") {
        Ok(Template::ServiceHost)
    } else if str_eq(name, "dev-shell") {
        Ok(Template::DevShell)
    } else {
        let mut m = to_owned("Unknown template '");
        m.append(name);
        m.append("'. Available: workstation, service-host, dev-shell");
        Err(m)
    }
}

/// The header of `swiss update`.
pub open spec fn updating_view(path: Seq<char>, profiles: Seq<Seq<char>>) -> Seq<char> {
    "Updating from "@ + path + if profiles.len() == 0 {
        Seq::<char>::empty()
    } else {
        " (profiles: "@ + text::join_with(profiles, ", "@) + ")"@
    }
}

/// The header of `swiss update` (see [`updating_view`]).
pub fn updating_message(path: &str, profiles: &Vec<String>) -> (r: String)
    ensures
        r@ == updating_view(path@, strs_view(profiles@)),
{
    let mut m = to_owned("Updating from ");
    m.append(path);
    if profiles.len() > 0 {
        m.append(" (profiles: ");
        text::push_joined(&mut m, profiles, ", ");
        m.append(")");
    }
    m
}

/// The status of one tool in `swiss doctor`.
pub open spec fn tool_status_view(available: bool, required: bool) -> Seq<char> {
    if available {
        "ok"@
    } else if required {
        "MISSING"@
    } else {
        "missing (bootstrapped by `swiss apply` when the manifest needs it)"@
    }
}

/// The doctor line of one tool: its name in a 10-wide column, its status.
pub fn installation_line(name: &str, available: bool, required: bool) -> (r: String)
    ensures
        r@ == text::pad_right(name@, 10) + " "@ + tool_status_view(available, required),
{
    let mut m = String::new();
    text::push_padded_right(&mut m, name, 10);
    m.append(" ");
    if available {
        m.append("ok");
    } else if required {
        m.append("MISSING");
    } else {
        m.append("missing (bootstrapped by `swiss apply` when the manifest needs it)");
    }
    m
}

/// A Nushell drop-in file appended to the init script.
pub open spec fn dropin_view(path: Seq<char>, body: Seq<char>) -> Seq<char> {
    "\n# swiss user module: "@ + path + "\n"@ + text::trim_end_seq(body) + "\n"@
}

/// A Nushell drop-in file appended to the init script (see [`dropin_view`]).
pub fn dropin_section(path: &str, body: &str) -> (r: String)
    ensures
        r@ == dropin_view(path@, body@),
{
    let mut m = to_owned("\n# swiss user module: ");
    m.append(path);
    m.append("\n");
    let trimmed = text::trim_end(body);
    m.append(trimmed.as_str());
    m.append("\n");
    m
}

/// One dependency line of `swiss status`.
pub open spec fn dependency_line_view(dep: Dependency) -> Seq<char> {
    "  "@ + text::pad_right(dep.name@, 20) + " "@ + text::pad_right(
        match dep.version {
            Some(v) => v@,
            None => "-"@,
        },
        10,
    ) + " "@ + text::pad_right(status_name(dep.status), 12) + " "@ + dep_type_name(dep.dep_type)
}

/// One dependency line of `swiss status`.
pub fn dependency_line(dep: &Dependency) -> (r: String)
    ensures
        r@ == dependency_line_view(*dep),
{
    let mut m = to_owned("  ");
    text::push_padded_right(&mut m, dep.name(), 20);
    m.append(" ");
    match dep.version() {
        Some(v) => text::push_padded_right(&mut m, v.as_str(), 10),
        None => text::push_padded_right(&mut m, "-", 10),
    }
    m.append(" ");
    text::push_padded_right(&mut m, dep.status().name(), 12);
    m.append(" ");
    m.append(dep.dependency_type().name());
    m
}

/// `s` with every newline replaced by `sep`.
pub open spec fn replace_newlines_view(s: Seq<char>, sep: Seq<char>) -> Seq<char>
    decreases s.len(),
{
    if s.len() == 0 {
        Seq::empty()
    } else {
        replace_newlines_view(s.drop_last(), sep) + if s.last() == '\n' {
            sep
        } else {
            seq![s.last()]
        }
    }
}

fn replace_newlines(s: &str, sep: &str) -> (r: String)
    ensures
        r@ == replace_newlines_view(s@, sep@),
{
    let chars = text::chars_of(s);
    let mut out = String::new();
    let mut i: usize = 0;
    assert(chars@.take(0) =~= Seq::<char>::empty());
    while i < chars.len()
        invariant
            chars@ == s@,
            i <= chars@.len(),
            out@ == replace_newlines_view(chars@.take(i as int), sep@),
        decreases chars.len() - i,
    {
        proof {
            let t = chars@.take(i + 1);
            assert(t.drop_last() =~= chars@.take(i as int));
            assert(t.last() == chars@[i as int]);
        }
        if chars[i] == '\n' {
            out.append(sep);
        } else {
            let ghost before = out@;
            out.push(chars[i]);
            assert(out@ =~= before + seq![chars@[i as int]]);
        }
        i = i + 1;
    }
    assert(chars@.take(chars@.len() as int) =~= chars@);
    out
}

/// The lines of `swiss status`: version, registered manifest and profiles,
/// last fingerprint, the recorded dependencies (in key order) and the
/// number of aliases.
pub open spec fn status_view(cache: SwissCache) -> Seq<Seq<char>> {
    let inner = cache.inner.entries@;
    let deps = cache.deps.entries@;
    seq!["swiss "@ + VERSION@] + seq![
        match lookup(inner, MANIFEST_PATH_KEY@) {
            Some(p) => "registered manifest: "@ + p@,
            None => "registered manifest: none (run `swiss setup`)"@,
        },
    ] + (match lookup(inner, MANIFEST_PROFILES_KEY@) {
        Some(p) => if p@.len() > 0 {
            seq!["registered profiles: "@ + replace_newlines_view(p@, ", "@)]
        } else {
            Seq::empty()
        },
        None => Seq::empty(),
    }) + seq![
        match lookup(inner, FINGERPRINT_KEY@) {
            Some(f) => "last applied fingerprint: "@ + f@,
            None => "last applied fingerprint: none"@,
        },
    ] + (if deps.len() == 0 {
        seq!["no dependencies recorded yet"@]
    } else {
        seq![text::decimal(deps.len()) + " dependenc(ies) recorded:"@] + deps.map_values(
            |e: (String, Dependency)| dependency_line_view(e.1),
        )
    }) + seq![text::decimal(cache.aliases.entries@.len()) + " alias(es) recorded"@]
}

/// The lines of `swiss status` (see [`status_view`]).
pub fn status_lines(cache: &SwissCache) -> (r: Vec<String>)
    ensures
        strs_view(r@) == status_view(*cache),
{
    let mut out: Vec<String> = Vec::new();
    let mut first = to_owned("swiss ");
    first.append(VERSION);
    out.push(first);
    let ghost l1 = first@;
    let manifest = match cache.get(MANIFEST_PATH_KEY) {
        Some(p) => {
            let mut m = to_owned("registered manifest: ");
            m.append(p);
            m
        },
        None => to_owned("registered manifest: none (run `swiss setup`)"),
    };
    let ghost l2 = manifest@;
    out.push(manifest);
    assert(strs_view(out@) =~= seq![l1, l2]);
    let ghost before_profiles = strs_view(out@);
    match cache.get(MANIFEST_PROFILES_KEY) {
        Some(p) => {
            if p.unicode_len() > 0 {
                let mut m = to_owned("registered profiles: ");
                let joined = replace_newlines(p, ", ");
                m.append(joined.as_str());
                out.push(m);
            }
        },
        None => {},
    }
    let fingerprint = match cache.get(FINGERPRINT_KEY) {
        Some(f) => {
            let mut m = to_owned("last applied fingerprint: ");
            m.append(f);
            m
        },
        None => to_owned("last applied fingerprint: none"),
    };
    let ghost profile_part = if strs_view(out@).len() > 2 {
        seq![strs_view(out@)[2]]
    } else {
        Seq::<Seq<char>>::empty()
    };
    assert(strs_view(out@) =~= before_profiles + profile_part);
    let ghost l4 = fingerprint@;
    out.push(fingerprint);
    let ghost head = strs_view(out@);
    assert(head =~= before_profiles + profile_part + seq![l4]);
    let deps = &cache.deps.entries;
    if deps.len() == 0 {
        out.push(to_owned("no dependencies recorded yet"));
    } else {
        let mut m = String::new();
        text::push_decimal(&mut m, deps.len() as u64);
        m.append(" dependenc(ies) recorded:");
        out.push(m);
        let ghost mid = strs_view(out@);
        let mut i: usize = 0;
        while i < deps.len()
            invariant
                i <= deps@.len(),
                strs_view(out@) == mid + deps@.take(i as int).map_values(
                    |e: (String, Dependency)| dependency_line_view(e.1),
                ),
            decreases deps.len() - i,
        {
            let line = dependency_line(&deps[i].1);
            let ghost before = out@;
            out.push(line);
            proof {
                let f = |e: (String, Dependency)| dependency_line_view(e.1);
                assert(deps@.take(i + 1).map_values(f) =~= deps@.take(i as int).map_values(f).push(
                    dependency_line_view(deps@[i as int].1),
                ));
                assert(strs_view(out@) =~= strs_view(before).push(line@));
            }
            i = i + 1;
        }
        assert(deps@.take(deps@.len() as int) =~= deps@);
    }
    let mut last = String::new();
    text::push_decimal(&mut last, cache.aliases.entries.len() as u64);
    last.append(" alias(es) recorded");
    let ghost body = strs_view(out@);
    out.push(last);
    assert(strs_view(out@) =~= body.push(last@));
    assert(strs_view(out@) =~= status_view(*cache));
    out
}

} // verus!
