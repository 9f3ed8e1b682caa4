//! The model of Git's identity configuration that the services read and
//! write: the global name, email and signing key, each repository's local
//! identity, and the per-repository `credential.<url>.useHttpPath` flags.
//! Local settings are kept as a history; the latest entry for a repository
//! (and host) is the effective one.
use vstd::prelude::*;
use crate::profile::Identity;
use crate::text::{clone_opt_string, str_eq};

verus! {

/// A repository's local `user.*` identity.
#[derive(Debug, Clone)]
pub struct LocalIdentity {
    pub git_root: String,
    pub identity: Identity,
}

/// A repository's local `credential.https://<host>.useHttpPath` value.
#[derive(Debug, Clone)]
pub struct HttpPathSetting {
    pub git_root: String,
    pub host: String,
    pub enabled: bool,
}

/// The identity most recently set for `root`.
pub open spec fn local_identity_of(s: Seq<LocalIdentity>, root: Seq<char>) -> Option<Identity>
    decreases s.len(),
{
    if s.len() == 0 {
        None
    } else if s.last().git_root@ == root {
        Some(s.last().identity)
    } else {
        local_identity_of(s.drop_last(), root)
    }
}

/// The `useHttpPath` value most recently set for `root` and `host`.
pub open spec fn http_path_of(s: Seq<HttpPathSetting>, root: Seq<char>, host: Seq<char>) -> Option<
    bool,
>
    decreases s.len(),
{
    if s.len() == 0 {
        None
    } else if s.last().git_root@ == root && s.last().host@ == host {
        Some(s.last().enabled)
    } else {
        http_path_of(s.drop_last(), root, host)
    }
}

/// Git's identity configuration.
pub struct GitConfig {
    pub global_name: Option<String>,
    pub global_email: Option<String>,
    pub global_signing_key: Option<String>,
    pub local: Vec<LocalIdentity>,
    pub use_http_path: Vec<HttpPathSetting>,
}

impl GitConfig {
    /// An empty configuration.
    pub fn new() -> (g: Self)
        ensures
            g.global_name is None,
            g.global_email is None,
            g.global_signing_key is None,
            g.local@.len() == 0,
            g.use_http_path@.len() == 0,
    {
        GitConfig {
            global_name: None,
            global_email: None,
            global_signing_key: None,
            local: Vec::new(),
            use_http_path: Vec::new(),
        }
    }

    pub fn get_global_name(&self) -> (r: Option<String>)
        ensures
            r == self.global_name,
    {
        clone_opt_string(&self.global_name)
    }

    pub fn get_global_email(&self) -> (r: Option<String>)
        ensures
            r == self.global_email,
    {
        clone_opt_string(&self.global_email)
    }

    pub fn get_global_signing_key(&self) -> (r: Option<String>)
        ensures
            r == self.global_signing_key,
    {
        clone_opt_string(&self.global_signing_key)
    }

    pub fn set_global_name(&mut self, name: &str)
        ensures
            *final(self) == (GitConfig { global_name: final(self).global_name, ..*old(self) }),
            final(self).global_name matches Some(n) && n@ == name@,
    {
        self.global_name = Some(String::from_str(name));
    }

    pub fn set_global_email(&mut self, email: &str)
        ensures
            *final(self) == (GitConfig { global_email: final(self).global_email, ..*old(self) }),
            final(self).global_email matches Some(e) && e@ == email@,
    {
        self.global_email = Some(String::from_str(email));
    }

    /// Set (or, with `None`, unset) the global signing key.
    pub fn set_global_signing_key(&mut self, key: Option<&str>)
        ensures
            *final(self) == (GitConfig { global_signing_key: final(self).global_signing_key, ..*old(self) }),
            crate::audit::opt_view(final(self).global_signing_key) == match key {
                Some(k) => Some(k@),
                None => None::<Seq<char>>,
            },
    {
        self.global_signing_key = match key {
            Some(k) => Some(String::from_str(k)),
            None => None,
        };
    }

    /// Pin an identity into a repository's local config.
    pub fn set_local_identity(&mut self, git_root: &str, identity: &Identity)
        ensures
            final(self).local@.len() == old(self).local@.len() + 1,
            final(self).local@.drop_last() == old(self).local@,
            final(self).local@.last().git_root@ == git_root@,
            final(self).local@.last().identity == *identity,
            *final(self) == (GitConfig { local: final(self).local, ..*old(self) }),
    {
        let e = LocalIdentity { git_root: String::from_str(git_root), identity: identity.duplicate() };
        self.local.push(e);
    }

    /// The local identity of a repository.
    pub fn get_local_identity(&self, git_root: &str) -> (r: Option<Identity>)
        ensures
            r == local_identity_of(self.local@, git_root@),
    {
        let mut i: usize = self.local.len();
        assert(self.local@.subrange(0, i as int) =~= self.local@);
        while i > 0
            invariant
                i <= self.local@.len(),
                local_identity_of(self.local@, git_root@) == local_identity_of(
                    self.local@.subrange(0, i as int),
                    git_root@,
                ),
            decreases i,
        {
            assert(self.local@.subrange(0, i as int).drop_last() =~= self.local@.subrange(0, i - 1));
            if str_eq(self.local[i - 1].git_root.as_str(), git_root) {
                return Some(self.local[i - 1].identity.duplicate());
            }
            i = i - 1;
        }
        None
    }

    /// The local `user.email` of a repository.
    pub fn get_local_email(&self, git_root: &str) -> (r: Option<String>)
        ensures
            r == match local_identity_of(self.local@, git_root@) {
                Some(id) => Some(id.email),
                None => None,
            },
    {
        match self.get_local_identity(git_root) {
            Some(id) => Some(id.email),
            None => None,
        }
    }

    /// The local `user.name` of a repository.
    pub fn get_local_name(&self, git_root: &str) -> (r: Option<String>)
        ensures
            r == match local_identity_of(self.local@, git_root@) {
                Some(id) => Some(id.name),
                None => None,
            },
    {
        match self.get_local_identity(git_root) {
            Some(id) => Some(id.name),
            None => None,
        }
    }

    /// Set `credential.https://<host>.useHttpPath` in a repository's local config.
    pub fn set_local_use_http_path(&mut self, git_root: &str, host: &str, enabled: bool)
        ensures
            final(self).use_http_path@.len() == old(self).use_http_path@.len() + 1,
            final(self).use_http_path@.drop_last() == old(self).use_http_path@,
            final(self).use_http_path@.last().git_root@ == git_root@,
            final(self).use_http_path@.last().host@ == host@,
            final(self).use_http_path@.last().enabled == enabled,
            *final(self) == (GitConfig { use_http_path: final(self).use_http_path, ..*old(self) }),
    {
        let e = HttpPathSetting {
            git_root: String::from_str(git_root),
            host: String::from_str(host),
            enabled,
        };
        self.use_http_path.push(e);
    }
}

} // verus!
