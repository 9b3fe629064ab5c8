//! The Swiss cache model: key/value settings, recorded dependencies and
//! recorded aliases. Reading and writing the cache file is the
//! application's job; every operation here works in memory.
use crate::strmap::{StrMap, lookup};
use vstd::prelude::*;

verus! {

/// Cache key of the nushell dependency record.
pub const NUSHELL_DEP: &'static str = "nushell";

/// Cache key of the fingerprint of the last cleanly applied manifest.
pub const FINGERPRINT_KEY: &'static str = "sk_manifest_fingerprint";

/// Path of the manifest registered by setup/apply; consumed by `swiss update`.
pub const MANIFEST_PATH_KEY: &'static str = "sk_manifest_path";

/// Newline-separated profiles registered together with the manifest path.
pub const MANIFEST_PROFILES_KEY: &'static str = "sk_manifest_profiles";

/// Location of the cache file, relative to the home directory.
pub const CACHE_PATH: &'static str = ".config/swiss/.cache";

/// The Swiss release this library belongs to.
pub const VERSION: &'static str = "0.1.0";

#[derive(Debug, Clone, Copy, PartialEq, Eq, Structural)]
pub enum DependencyStatus {
    Installed,
    NotInstalled,
    UpToDate,
}

impl Default for DependencyStatus {
    fn default() -> (r: Self)
        ensures
            r == DependencyStatus::NotInstalled,
    {
        DependencyStatus::NotInstalled
    }
}

pub open spec fn status_name(s: DependencyStatus) -> Seq<char> {
    match s {
        DependencyStatus::Installed => "installed"@,
        DependencyStatus::NotInstalled => "not-installed"@,
        DependencyStatus::UpToDate => "up-to-date"@,
    }
}

impl DependencyStatus {
    pub fn name(&self) -> (r: &'static str)
        ensures
            r@ == status_name(*self),
    {
        match self {
            DependencyStatus::Installed => "installed",
            DependencyStatus::NotInstalled => "not-installed",
            DependencyStatus::UpToDate => "up-to-date",
        }
    }
}

#[derive(Debug, Clone, Copy, PartialEq, Eq, Structural)]
pub enum DependencyType {
    Cargo,
    Custom,
}

impl Default for DependencyType {
    fn default() -> (r: Self)
        ensures
            r == DependencyType::Custom,
    {
        DependencyType::Custom
    }
}

pub open spec fn dep_type_name(t: DependencyType) -> Seq<char> {
    match t {
        DependencyType::Cargo => "cargo"@,
        DependencyType::Custom => "custom"@,
    }
}

impl DependencyType {
    pub fn name(&self) -> (r: &'static str)
        ensures
            r@ == dep_type_name(*self),
    {
        match self {
            DependencyType::Cargo => "cargo",
            DependencyType::Custom => "custom",
        }
    }
}

/// A dependency recorded in the cache.
#[derive(Debug, PartialEq)]
pub struct Dependency {
    pub name: String,
    pub version: Option<String>,
    pub status: DependencyStatus,
    pub dep_type: DependencyType,
}

/// Copy of an optional string.
pub fn clone_opt_string(s: &Option<String>) -> (r: Option<String>)
    ensures
        r == *s,
{
    match s {
        Some(v) => Some(v.clone()),
        None => None,
    }
}

impl Clone for Dependency {
    fn clone(&self) -> (r: Self)
        ensures
            r == *self,
    {
        Dependency {
            name: self.name.clone(),
            version: clone_opt_string(&self.version),
            status: self.status,
            dep_type: self.dep_type,
        }
    }
}

impl Default for Dependency {
    fn default() -> (r: Self)
        ensures
            r.name@.len() == 0,
            r.version is None,
            r.status == DependencyStatus::NotInstalled,
            r.dep_type == DependencyType::Custom,
    {
        Dependency {
            name: String::new(),
            version: None,
            status: DependencyStatus::NotInstalled,
            dep_type: DependencyType::Custom,
        }
    }
}

impl Dependency {
    pub fn new(name: String, version: Option<String>, status: DependencyStatus, dep_type: DependencyType) -> (r: Self)
        ensures
            r.name == name,
            r.version == version,
            r.status == status,
            r.dep_type == dep_type,
    {
        Dependency { name, version, status, dep_type }
    }

    pub fn name(&self) -> (r: &str)
        ensures
            r@ == self.name@,
    {
        self.name.as_str()
    }

    pub fn version(&self) -> (r: Option<&String>)
        ensures
            match r {
                Some(v) => self.version == Some(*v),
                None => self.version is None,
            },
    {
        self.version.as_ref()
    }

    pub fn status(&self) -> (r: &DependencyStatus)
        ensures
            *r == self.status,
    {
        &self.status
    }

    pub fn dependency_type(&self) -> (r: &DependencyType)
        ensures
            *r == self.dep_type,
    {
        &self.dep_type
    }
}

/// The cache: settings, dependencies and aliases, each a sorted map.
#[derive(Debug, Clone, PartialEq)]
pub struct SwissCache {
    pub inner: StrMap<String>,
    pub deps: StrMap<Dependency>,
    pub aliases: StrMap<String>,
}

impl Default for SwissCache {
    fn default() -> (r: Self)
        ensures
            r.wf(),
            r.inner.entries@.len() == 0,
            r.deps.entries@.len() == 0,
            r.aliases.entries@.len() == 0,
    {
        SwissCache { inner: StrMap::new(), deps: StrMap::new(), aliases: StrMap::new() }
    }
}

impl SwissCache {
    /// All three maps keep their keys sorted.
    pub open spec fn wf(&self) -> bool {
        self.inner.wf() && self.deps.wf() && self.aliases.wf()
    }

    /// The value of a setting.
    pub fn get(&self, key: &str) -> (r: Option<&str>)
        ensures
            match r {
                Some(v) => lookup(self.inner.entries@, key@) matches Some(s) && s@ == v@,
                None => lookup(self.inner.entries@, key@) is None,
            },
    {
        match self.inner.get(key) {
            Some(v) => Some(v.as_str()),
            None => None,
        }
    }

    /// Records a setting (in memory).
    pub fn set(&mut self, key: &str, value: &str)
        requires
            old(self).wf(),
        ensures
            final(self).wf(),
            final(self).deps == old(self).deps,
            final(self).aliases == old(self).aliases,
            forall|k: Seq<char>|
                #![trigger lookup(final(self).inner.entries@, k)]
                lookup(final(self).inner.entries@, k) == if k == key@ {
                    lookup(final(self).inner.entries@, key@)
                } else {
                    lookup(old(self).inner.entries@, k)
                },
            lookup(final(self).inner.entries@, key@) matches Some(s) && s@ == value@,
    {
        let k = crate::text::to_owned(key);
        let v = crate::text::to_owned(value);
        self.inner.insert(k, v);
    }

    /// The dependency recorded under `key`.
    pub fn get_dep(&self, key: &str) -> (r: Option<&Dependency>)
        ensures
            match r {
                Some(d) => lookup(self.deps.entries@, key@) == Some(*d),
                None => lookup(self.deps.entries@, key@) is None,
            },
    {
        self.deps.get(key)
    }

    /// Records a dependency (in memory; the application persists the cache).
    pub fn set_dep(&mut self, key: &str, value: &Dependency)
        requires
            old(self).wf(),
        ensures
            final(self).wf(),
            final(self).inner == old(self).inner,
            final(self).aliases == old(self).aliases,
            forall|k: Seq<char>|
                #![trigger lookup(final(self).deps.entries@, k)]
                lookup(final(self).deps.entries@, k) == if k == key@ {
                    Some(*value)
                } else {
                    lookup(old(self).deps.entries@, k)
                },
    {
        self.set_dep_in_memory(key, value);
    }

    /// Records a dependency without persisting it.
    pub fn set_dep_in_memory(&mut self, key: &str, value: &Dependency)
        requires
            old(self).wf(),
        ensures
            final(self).wf(),
            final(self).inner == old(self).inner,
            final(self).aliases == old(self).aliases,
            forall|k: Seq<char>|
                #![trigger lookup(final(self).deps.entries@, k)]
                lookup(final(self).deps.entries@, k) == if k == key@ {
                    Some(*value)
                } else {
                    lookup(old(self).deps.entries@, k)
                },
    {
        let k = crate::text::to_owned(key);
        self.deps.insert(k, value.clone());
    }

    /// The recorded dependencies.
    pub fn deps(&self) -> (r: &StrMap<Dependency>)
        ensures
            *r == self.deps,
    {
        &self.deps
    }

    /// Records one alias.
    pub fn set_alias(&mut self, key: &str, value: &str)
        requires
            old(self).wf(),
        ensures
            final(self).wf(),
            final(self).inner == old(self).inner,
            final(self).deps == old(self).deps,
            forall|k: Seq<char>|
                #![trigger lookup(final(self).aliases.entries@, k)]
                k != key@ ==> lookup(final(self).aliases.entries@, k) == lookup(old(self).aliases.entries@, k),
            lookup(final(self).aliases.entries@, key@) matches Some(s) && s@ == value@,
    {
        let k = crate::text::to_owned(key);
        let v = crate::text::to_owned(value);
        self.aliases.insert(k, v);
    }

    /// Records every alias of `aliases`, in order.
    pub fn set_aliases(&mut self, aliases: &StrMap<String>)
        requires
            old(self).wf(),
            aliases.wf(),
        ensures
            final(self).wf(),
            final(self).inner == old(self).inner,
            final(self).deps == old(self).deps,
            forall|k: Seq<char>|
                #![trigger lookup(final(self).aliases.entries@, k)]
                match lookup(aliases.entries@, k) {
                    Some(v) => lookup(final(self).aliases.entries@, k) matches Some(s) && s@ == v@,
                    None => lookup(final(self).aliases.entries@, k) == lookup(old(self).aliases.entries@, k),
                },
    {
        let mut i: usize = 0;
        while i < aliases.entries.len()
            invariant
                self.wf(),
                aliases.wf(),
                i <= aliases.entries@.len(),
                self.inner == old(self).inner,
                self.deps == old(self).deps,
                forall|k: Seq<char>|
                    #![trigger lookup(self.aliases.entries@, k)]
                    if exists|j: int| 0 <= j < i && aliases.entries@[j].0@ == k {
                        lookup(self.aliases.entries@, k) matches Some(s) && lookup(aliases.entries@, k) matches Some(v) && s@ == v@
                    } else {
                        lookup(self.aliases.entries@, k) == lookup(old(self).aliases.entries@, k)
                    },
            decreases aliases.entries.len() - i,
        {
            let ghost prev = self.aliases.entries@;
            self.set_alias(aliases.entries[i].0.as_str(), aliases.entries[i].1.as_str());
            proof {
                crate::strmap::lemma_index_unique(aliases.entries@, i as int);
                assert forall|k: Seq<char>|
                    #![trigger lookup(self.aliases.entries@, k)]
                    if exists|j: int| 0 <= j < i + 1 && aliases.entries@[j].0@ == k {
                        lookup(self.aliases.entries@, k) matches Some(s) && lookup(aliases.entries@, k) matches Some(v) && s@ == v@
                    } else {
                        lookup(self.aliases.entries@, k) == lookup(old(self).aliases.entries@, k)
                    } by {
                    if k != aliases.entries@[i as int].0@ {
                        if exists|j: int| 0 <= j < i + 1 && aliases.entries@[j].0@ == k {
                            let j = choose|j: int| 0 <= j < i + 1 && aliases.entries@[j].0@ == k;
                            assert(j < i);
                        }
                    }
                }
            }
            i = i + 1;
        }
        proof {
            assert forall|k: Seq<char>|
                #![trigger lookup(self.aliases.entries@, k)]
                match lookup(aliases.entries@, k) {
                    Some(v) => lookup(self.aliases.entries@, k) matches Some(s) && s@ == v@,
                    None => lookup(self.aliases.entries@, k) == lookup(old(self).aliases.entries@, k),
                } by {
                if exists|j: int| 0 <= j < aliases.entries@.len() && aliases.entries@[j].0@ == k {
                    let j = choose|j: int| 0 <= j < aliases.entries@.len() && aliases.entries@[j].0@ == k;
                    crate::strmap::lemma_index_unique(aliases.entries@, j);
                } else {
                    assert(!crate::strmap::has_key(aliases.entries@, k));
                }
            }
        }
    }

    /// The recorded aliases.
    pub fn aliases(&self) -> (r: &StrMap<String>)
        ensures
            *r == self.aliases,
    {
        &self.aliases
    }
}

} // verus!
