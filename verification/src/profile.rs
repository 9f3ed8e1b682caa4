//! Profiles (named Git identities), the application settings and the
//! profile store, plus the model of Git's identity configuration.
use vstd::prelude::*;
use crate::error::AppError;
use crate::table::{Record, Table, find_spec, has_id, upsert, without_id};
use crate::text::clone_opt_string;

verus! {

/// A Git author identity.
#[derive(Debug, Clone)]
pub struct Identity {
    pub name: String,
    pub email: String,
    pub signing_key: Option<String>,
}

impl Identity {
    pub fn duplicate(&self) -> (r: Self)
        ensures
            r == *self,
    {
        Identity {
            name: self.name.clone(),
            email: self.email.clone(),
            signing_key: clone_opt_string(&self.signing_key),
        }
    }
}

/// A named identity the user can apply globally or pin to repositories.
#[derive(Debug, Clone)]
pub struct Profile {
    pub id: u128,
    pub label: String,
    pub identity: Identity,
    pub color: Option<String>,
}

impl Record for Profile {
    open spec fn id_of(&self) -> u128 {
        self.id
    }

    fn id(&self) -> (r: u128) {
        self.id
    }

    fn duplicate(&self) -> (r: Self) {
        Profile {
            id: self.id,
            label: self.label.clone(),
            identity: self.identity.duplicate(),
            color: clone_opt_string(&self.color),
        }
    }
}

/// How the commit guard reacts to a commit under the wrong identity.
#[derive(Debug, Clone, Copy, PartialEq, Eq, Structural)]
pub enum GuardMode {
    /// Print a warning and let the commit through.
    Warn,
    /// Refuse the commit.
    Block,
}

/// Commit guard settings.
#[derive(Debug, Clone, Copy)]
pub struct CommitGuardSettings {
    pub enabled: bool,
    pub mode: GuardMode,
    pub auto_protect: bool,
}

/// Smart identity switching settings.
#[derive(Debug, Clone, Copy)]
pub struct SmartSwitchingSettings {
    pub enabled: bool,
    pub confirm_before_switch: bool,
    pub start_on_launch: bool,
}

/// Persisted application settings.
#[derive(Debug, Clone, Copy)]
pub struct AppSettings {
    pub onboarded: bool,
    pub smart_switching: SmartSwitchingSettings,
    pub commit_guard: CommitGuardSettings,
}

/// The settings of a fresh installation: everything off, guard in warn mode.
pub open spec fn default_settings() -> AppSettings {
    AppSettings {
        onboarded: false,
        smart_switching: SmartSwitchingSettings {
            enabled: false,
            confirm_before_switch: false,
            start_on_launch: false,
        },
        commit_guard: CommitGuardSettings { enabled: false, mode: GuardMode::Warn, auto_protect: false },
    }
}

impl Default for SmartSwitchingSettings {
    fn default() -> (s: Self)
        ensures
            s == default_settings().smart_switching,
    {
        SmartSwitchingSettings { enabled: false, confirm_before_switch: false, start_on_launch: false }
    }
}

impl Default for CommitGuardSettings {
    fn default() -> (s: Self)
        ensures
            s == default_settings().commit_guard,
    {
        CommitGuardSettings { enabled: false, mode: GuardMode::Warn, auto_protect: false }
    }
}

impl Default for AppSettings {
    fn default() -> (s: Self)
        ensures
            s == default_settings(),
    {
        AppSettings {
            onboarded: false,
            smart_switching: SmartSwitchingSettings {
                enabled: false,
                confirm_before_switch: false,
                start_on_launch: false,
            },
            commit_guard: CommitGuardSettings {
                enabled: false,
                mode: GuardMode::Warn,
                auto_protect: false,
            },
        }
    }
}

/// The persisted profiles, settings and the id of the globally applied profile.
pub struct ProfileStore {
    pub profiles: Table<Profile>,
    pub settings: AppSettings,
    pub active_id: Option<u128>,
}

impl ProfileStore {
    pub fn new() -> (s: Self)
        ensures
            s.profiles@ == Seq::<Profile>::empty(),
            s.settings == default_settings(),
            s.active_id.is_none(),
    {
        ProfileStore { profiles: Table::new(), settings: AppSettings::default(), active_id: None }
    }

    pub fn load_all(&self) -> (v: Vec<Profile>)
        ensures
            v@ == self.profiles@,
    {
        self.profiles.load_all()
    }

    pub fn find(&self, id: u128) -> (r: Option<Profile>)
        ensures
            r == find_spec(self.profiles@, id),
    {
        self.profiles.find(id)
    }

    pub fn save(&mut self, profile: Profile)
        ensures
            final(self).profiles@ == upsert(old(self).profiles@, profile),
            final(self).settings == old(self).settings,
            final(self).active_id == old(self).active_id,
    {
        self.profiles.save(profile);
    }

    pub fn delete(&mut self, id: u128) -> (r: Result<(), AppError>)
        ensures
            r is Ok <==> has_id(old(self).profiles@, id),
            r is Ok ==> final(self).profiles@ == without_id(old(self).profiles@, id),
            r is Err ==> final(self).profiles@ == old(self).profiles@ && r->Err_0 is NotFound,
            final(self).settings == old(self).settings,
            final(self).active_id == old(self).active_id,
    {
        self.profiles.delete(id)
    }

    pub fn load_settings(&self) -> (s: AppSettings)
        ensures
            s == self.settings,
    {
        self.settings
    }

    pub fn save_settings(&mut self, settings: AppSettings)
        ensures
            final(self).settings == settings,
            final(self).profiles@ == old(self).profiles@,
            final(self).active_id == old(self).active_id,
    {
        self.settings = settings;
    }

    pub fn get_active_id(&self) -> (r: Option<u128>)
        ensures
            r == self.active_id,
    {
        self.active_id
    }

    pub fn set_active_id(&mut self, id: Option<u128>)
        ensures
            final(self).active_id == id,
            final(self).profiles@ == old(self).profiles@,
            final(self).settings == old(self).settings,
    {
        self.active_id = id;
    }
}

/// Whether `s` holds a profile with that email.
pub open spec fn email_taken(s: Seq<Profile>, email: Seq<char>, except: Option<u128>) -> bool {
    exists|i: int|
        0 <= i < s.len() && #[trigger] s[i].identity.email@ == email && Some(s[i].id) != except
}

} // verus!
