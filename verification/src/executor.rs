//! The decisions of plan execution: cache bookkeeping, how commands run
//! through their shell, and what happens to existing files.
use crate::commands::{NuShell, nu_binary_view};
use crate::parser::Os;
use crate::persistence::{FINGERPRINT_KEY, SwissCache};
use crate::plan::Step;
use crate::report::Outcome;
use crate::strmap::lookup;
use crate::text;
use crate::text::{str_eq, to_owned};
use vstd::prelude::*;

verus! {

/// Applies the cache side of a run.
#[derive(Debug)]
pub struct Executor {
    pub cache: SwissCache,
}

impl Executor {
    pub fn new(cache: SwissCache) -> (r: Self)
        ensures
            r.cache == cache,
    {
        Executor { cache }
    }

    /// Applies a bookkeeping step to the cache: a dependency record, or the
    /// aliases of a dependency. Other steps leave the cache as it is.
    pub fn record(&mut self, step: &Step)
        requires
            old(self).cache.wf(),
        ensures
            final(self).cache.wf(),
            match *step {
                Step::RecordDep { dep } => {
                    &&& final(self).cache.inner == old(self).cache.inner
                    &&& final(self).cache.aliases == old(self).cache.aliases
                    &&& forall|k: Seq<char>|
                        #![trigger lookup(final(self).cache.deps.entries@, k)]
                        lookup(final(self).cache.deps.entries@, k) == if k == dep.name@ {
                            Some(dep)
                        } else {
                            lookup(old(self).cache.deps.entries@, k)
                        }
                },
                Step::RecordAliases { aliases } => {
                    &&& final(self).cache.inner == old(self).cache.inner
                    &&& final(self).cache.deps == old(self).cache.deps
                    &&& !aliases.wf() ==> forall|k: Seq<char>|
                        #![trigger lookup(final(self).cache.aliases.entries@, k)]
                        match last_value(aliases.entries@, k) {
                            Some(v) => lookup(final(self).cache.aliases.entries@, k) matches Some(s) && s@ == v,
                            None => lookup(final(self).cache.aliases.entries@, k) == lookup(
                                old(self).cache.aliases.entries@,
                                k,
                            ),
                        }
                    &&& aliases.wf() ==> forall|k: Seq<char>|
                        #![trigger lookup(final(self).cache.aliases.entries@, k)]
                        match lookup(aliases.entries@, k) {
                            Some(v) => lookup(final(self).cache.aliases.entries@, k) matches Some(s) && s@ == v@,
                            None => lookup(final(self).cache.aliases.entries@, k) == lookup(
                                old(self).cache.aliases.entries@,
                                k,
                            ),
                        }
                },
                _ => final(self).cache == old(self).cache,
            },
    {
        match step {
            Step::RecordDep { dep } => {
                self.cache.set_dep(dep.name(), dep);
            },
            Step::RecordAliases { aliases } => {
                if aliases.check_wf() {
                    self.cache.set_aliases(aliases);
                } else {
                    let mut i: usize = 0;
                    while i < aliases.entries.len()
                        invariant
                            self.cache.wf(),
                            self.cache.inner == old(self).cache.inner,
                            self.cache.deps == old(self).cache.deps,
                            i <= aliases.entries@.len(),
                            forall|k: Seq<char>|
                                #![trigger lookup(self.cache.aliases.entries@, k)]
                                match last_value(aliases.entries@.take(i as int), k) {
                                    Some(v) => lookup(self.cache.aliases.entries@, k) matches Some(s) && s@ == v,
                                    None => lookup(self.cache.aliases.entries@, k) == lookup(
                                        old(self).cache.aliases.entries@,
                                        k,
                                    ),
                                },
                        decreases aliases.entries.len() - i,
                    {
                        self.cache.set_alias(aliases.entries[i].0.as_str(), aliases.entries[i].1.as_str());
                        proof {
                            let t = aliases.entries@.take(i + 1);
                            assert(t.drop_last() == aliases.entries@.take(i as int));
                            assert(t.last() == aliases.entries@[i as int]);
                        }
                        i = i + 1;
                    }
                    assert(aliases.entries@.take(aliases.entries@.len() as int) == aliases.entries@);
                }
            },
            _ => {},
        }
    }

    /// Records the manifest fingerprint, only after a fully clean run.
    pub fn finish(&mut self, outcome: &Outcome, fingerprint: Option<&str>)
        requires
            old(self).cache.wf(),
        ensures
            final(self).cache.wf(),
            match fingerprint {
                Some(f) => if outcome.failed == 0 {
                    &&& final(self).cache.deps == old(self).cache.deps
                    &&& final(self).cache.aliases == old(self).cache.aliases
                    &&& lookup(final(self).cache.inner.entries@, FINGERPRINT_KEY@) matches Some(s) && s@ == f@
                    &&& forall|k: Seq<char>|
                        #![trigger lookup(final(self).cache.inner.entries@, k)]
                        k != FINGERPRINT_KEY@ ==> lookup(final(self).cache.inner.entries@, k) == lookup(
                            old(self).cache.inner.entries@,
                            k,
                        )
                } else {
                    final(self).cache == old(self).cache
                },
                None => final(self).cache == old(self).cache,
            },
    {
        if outcome.succeeded() {
            match fingerprint {
                Some(f) => self.cache.set(FINGERPRINT_KEY, f),
                None => {},
            }
        }
    }
}

/// The value of the last entry of `es` with key `k`: what recording the
/// entries one after another leaves for `k`.
pub open spec fn last_value(es: Seq<(String, String)>, k: Seq<char>) -> Option<Seq<char>>
    decreases es.len(),
{
    if es.len() == 0 {
        None
    } else if es.last().0@ == k {
        Some(es.last().1@)
    } else {
        last_value(es.drop_last(), k)
    }
}

/// How a command runs through its shell: the program and its arguments,
/// or the error for a shell Swiss cannot run.
pub open spec fn shell_invocation_view(shell: Seq<char>, command: Seq<char>, os: Os) -> Result<
    (Seq<char>, Seq<Seq<char>>),
    Seq<char>,
> {
    if shell == "nu"@ || shell == "nushell"@ {
        Ok((nu_binary_view(os), seq!["-c"@, command]))
    } else if shell == "sh"@ || shell == "bash"@ || shell == "zsh"@ {
        Ok((shell, seq!["-c"@, command]))
    } else if shell == "pwsh"@ || shell == "powershell"@ {
        Ok((shell, seq!["-NoProfile"@, "-Command"@, command]))
    } else if shell == "cmd"@ {
        Ok(("cmd"@, seq!["/C"@, command]))
    } else {
        Err("Unsupported command shell '"@ + shell + "'"@)
    }
}

/// The program and arguments that run `command` through `shell`.
pub fn shell_invocation(shell: &str, command: &str, os: Os) -> (r: Result<(String, Vec<String>), String>)
    ensures
        match r {
            Ok((program, args)) => shell_invocation_view(shell@, command@, os) == Ok::<
                (Seq<char>, Seq<Seq<char>>),
                Seq<char>,
            >((program@, text::strs_view(args@))),
            Err(m) => shell_invocation_view(shell@, command@, os) == Err::<(Seq<char>, Seq<Seq<char>>), Seq<char>>(
                m@,
            ),
        },
{
    if str_eq(shell, "nu") || str_eq(shell, "nushell") {
        let args = vec![to_owned("-c"), to_owned(command)];
        assert(text::strs_view(args@) =~= seq!["-c"@, command@]);
        Ok((to_owned(NuShell::binary(os)), args))
    } else if str_eq(shell, "sh") || str_eq(shell, "bash") || str_eq(shell, "zsh") {
        let args = vec![to_owned("-c"), to_owned(command)];
        assert(text::strs_view(args@) =~= seq!["-c"@, command@]);
        Ok((to_owned(shell), args))
    } else if str_eq(shell, "pwsh") || str_eq(shell, "powershell") {
        let args = vec![to_owned("-NoProfile"), to_owned("-Command"), to_owned(command)];
        assert(text::strs_view(args@) =~= seq!["-NoProfile"@, "-Command"@, command@]);
        Ok((to_owned(shell), args))
    } else if str_eq(shell, "cmd") {
        let args = vec![to_owned("/C"), to_owned(command)];
        assert(text::strs_view(args@) =~= seq!["/C"@, command@]);
        Ok((to_owned("cmd"), args))
    } else {
        let mut m = to_owned("Unsupported command shell '");
        m.append(shell);
        m.append("'");
        Err(m)
    }
}

/// `existing` with `addition` appended on a line of its own, or `None` when
/// `addition` is already there.
pub open spec fn append_missing_view(existing: Seq<char>, addition: Seq<char>) -> Option<Seq<char>> {
    if text::contains_seq(existing, addition) {
        None
    } else {
        Some(
            existing + (if existing.len() > 0 && existing.last() != '\n' {
                "\n"@
            } else {
                Seq::empty()
            }) + addition,
        )
    }
}

/// Appends `addition` to a file's text unless it is already present.
pub fn append_missing(existing: &str, addition: &str) -> (r: Option<String>)
    ensures
        match r {
            Some(s) => append_missing_view(existing@, addition@) == Some(s@),
            None => append_missing_view(existing@, addition@) is None,
        },
{
    if text::str_contains(existing, addition) {
        return None;
    }
    let chars = text::chars_of(existing);
    let mut updated = to_owned(existing);
    if chars.len() > 0 && chars[chars.len() - 1] != '\n' {
        updated.push('\n');
        assert(updated@ =~= existing@ + "\n"@) by {
            reveal_strlit("\n");
        }
    } else {
        assert(updated@ =~= existing@ + Seq::<char>::empty());
    }
    updated.append(addition);
    Some(updated)
}

/// Whether `needle` occurs in `haystack` (an empty needle always does).
pub open spec fn bytes_contain(haystack: Seq<u8>, needle: Seq<u8>) -> bool {
    exists|i: int| 0 <= i && i + needle.len() <= haystack.len() && #[trigger] haystack.subrange(i, i + needle.len()) == needle
}

/// Whether `needle` occurs in `haystack`.
pub fn contains_slice(haystack: &Vec<u8>, needle: &Vec<u8>) -> (r: bool)
    ensures
        r == bytes_contain(haystack@, needle@),
{
    if needle.len() == 0 {
        assert(haystack@.subrange(0int, 0int + needle@.len()) =~= needle@);
        return true;
    }
    if needle.len() > haystack.len() {
        return false;
    }
    let mut i: usize = 0;
    let hl = haystack.len();
    assert(hl == haystack@.len());
    let last = haystack.len() - needle.len();
    while i <= last
        invariant
            needle@.len() > 0,
            needle@.len() <= haystack@.len(),
            haystack@.len() <= usize::MAX,
            last == haystack@.len() - needle@.len(),
            i <= last + 1,
            forall|k: int| 0 <= k < i ==> #[trigger] haystack@.subrange(k, k + needle@.len()) != needle@,
        decreases last + 1 - i,
    {
        let mut j: usize = 0;
        let mut same = true;
        while j < needle.len()
            invariant
                i + needle@.len() <= haystack@.len(),
                haystack@.len() <= usize::MAX,
                j <= needle@.len(),
                same == forall|l: int| 0 <= l < j ==> haystack@[i + l] == needle@[l],
            decreases needle.len() - j,
        {
            if haystack[i + j] != needle[j] {
                same = false;
            }
            j = j + 1;
        }
        if same {
            assert(haystack@.subrange(i as int, i + needle@.len()) =~= needle@);
            return true;
        }
        proof {
            if haystack@.subrange(i as int, i + needle@.len()) == needle@ {
                assert forall|l: int| 0 <= l < needle@.len() implies haystack@[i + l] == needle@[l] by {
                    assert(haystack@.subrange(i as int, i + needle@.len())[l] == haystack@[i + l]);
                }
            }
        }
        i = i + 1;
    }
    false
}

/// File bytes with `content` appended on a line of its own, or `None` when
/// `content` is already there.
pub open spec fn append_missing_bytes_view(existing: Seq<u8>, content: Seq<u8>) -> Option<Seq<u8>> {
    if bytes_contain(existing, content) {
        None
    } else {
        Some(
            existing + (if existing.len() > 0 && existing.last() != 10u8 {
                seq![10u8]
            } else {
                Seq::empty()
            }) + content,
        )
    }
}

/// Appends `content` to a privileged file's bytes unless it is present.
pub fn append_missing_bytes(existing: &Vec<u8>, content: &Vec<u8>) -> (r: Option<Vec<u8>>)
    ensures
        match r {
            Some(v) => append_missing_bytes_view(existing@, content@) == Some(v@),
            None => append_missing_bytes_view(existing@, content@) is None,
        },
{
    if contains_slice(existing, content) {
        return None;
    }
    let mut merged: Vec<u8> = Vec::new();
    let mut i: usize = 0;
    while i < existing.len()
        invariant
            i <= existing@.len(),
            merged@ == existing@.take(i as int),
        decreases existing.len() - i,
    {
        merged.push(existing[i]);
        assert(merged@ =~= existing@.take(i + 1));
        i = i + 1;
    }
    assert(existing@.take(existing@.len() as int) =~= existing@);
    let ghost base = merged@;
    if existing.len() > 0 && existing[existing.len() - 1] != 10u8 {
        merged.push(10u8);
    }
    let ghost mid = merged@;
    let mut j: usize = 0;
    while j < content.len()
        invariant
            j <= content@.len(),
            merged@ == mid + content@.take(j as int),
        decreases content.len() - j,
    {
        merged.push(content[j]);
        assert(merged@ =~= mid + content@.take(j + 1));
        j = j + 1;
    }
    assert(content@.take(content@.len() as int) =~= content@);
    assert(merged@ =~= existing@ + (if existing@.len() > 0 && existing@.last() != 10u8 {
        seq![10u8]
    } else {
        Seq::<u8>::empty()
    }) + content@);
    Some(merged)
}

/// What writing a file does when appending is not requested.
#[derive(Debug, Clone, Copy, PartialEq, Eq, Structural)]
pub enum WriteAction {
    /// The file exists and overwriting is off: leave it.
    Keep,
    /// The file exists and is replaced, after a backup when asked.
    Replace { backup: bool },
    /// The file does not exist yet.
    Create,
}

/// Existing files are kept unless overwriting is on.
pub fn write_action(exists: bool, overwrite: bool, backup: bool) -> (r: WriteAction)
    ensures
        r == (if !exists {
            WriteAction::Create
        } else if !overwrite {
            WriteAction::Keep
        } else {
            (WriteAction::Replace { backup })
        }),
{
    if !exists {
        WriteAction::Create
    } else if !overwrite {
        WriteAction::Keep
    } else {
        WriteAction::Replace { backup }
    }
}

/// What syncing a git checkout does.
#[derive(Debug, Clone, Copy, PartialEq, Eq, Structural)]
pub enum GitAction {
    /// A checkout exists: `git pull --ff-only`, then the submodules when
    /// the checkout is recursive.
    Pull { submodules: bool },
    /// The destination exists but is not a git checkout.
    NotARepository,
    /// Nothing is there yet: clone.
    Clone,
}

/// An existing checkout is pulled, a fresh destination cloned, and any
/// other existing path refused.
pub fn git_action(has_git_dir: bool, dest_exists: bool, recursive: bool) -> (r: GitAction)
    ensures
        r == (if has_git_dir {
            (GitAction::Pull { submodules: recursive })
        } else if dest_exists {
            GitAction::NotARepository
        } else {
            GitAction::Clone
        }),
{
    if has_git_dir {
        GitAction::Pull { submodules: recursive }
    } else if dest_exists {
        GitAction::NotARepository
    } else {
        GitAction::Clone
    }
}

/// The error for a custom dependency directory that is not a checkout.
pub fn not_a_repository_message(dest: &str) -> (r: String)
    ensures
        r@ == "Custom dependency path exists but is not a git repository: "@ + dest@,
{
    let mut m = to_owned("Custom dependency path exists but is not a git repository: ");
    m.append(dest);
    m
}

} // verus!
