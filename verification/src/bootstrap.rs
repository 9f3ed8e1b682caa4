//! Client initialisation data from the GitPersona server: announcements,
//! feature flags and whether an update is forced. The host fetches and
//! decodes the response; `from_wire` maps it onto the application's types.
use vstd::prelude::*;
use std::collections::HashMap;

verus! {

/// The `update` object of the response.
pub struct WireUpdateData {
    pub force_update: bool,
}

/// An announcement's call to action, as sent.
pub struct WireAction {
    pub label: String,
    pub url: String,
}

/// An announcement, as sent.
pub struct WireAnnouncement {
    pub id: String,
    pub title: String,
    pub message: String,
    pub announcement_type: String,
    pub priority: String,
    pub dismissible: bool,
    pub start_at: String,
    pub end_at: String,
    pub action: Option<WireAction>,
}

/// The `data` object of the response.
pub struct WireBootstrapData {
    pub update: Option<WireUpdateData>,
    pub announcements: Vec<WireAnnouncement>,
    pub feature_flags: HashMap<String, bool>,
}

/// An announcement's call to action.
#[derive(Debug, Clone)]
pub struct AnnouncementAction {
    pub label: String,
    pub url: String,
}

/// An announcement shown in the application.
#[derive(Debug, Clone)]
pub struct AnnouncementInfo {
    pub id: String,
    pub title: String,
    pub message: String,
    pub announcement_type: String,
    pub priority: String,
    pub dismissible: bool,
    pub start_at: String,
    pub end_at: String,
    pub action: Option<AnnouncementAction>,
}

/// What the application learns at start-up.
pub struct BootstrapData {
    pub announcements: Vec<AnnouncementInfo>,
    pub feature_flags: HashMap<String, bool>,
    pub force_update: Option<bool>,
}

/// `a` carries the fields of `w`.
pub open spec fn announcement_from(a: AnnouncementInfo, w: WireAnnouncement) -> bool {
    &&& a.id == w.id
    &&& a.title == w.title
    &&& a.message == w.message
    &&& a.announcement_type == w.announcement_type
    &&& a.priority == w.priority
    &&& a.dismissible == w.dismissible
    &&& a.start_at == w.start_at
    &&& a.end_at == w.end_at
    &&& match (a.action, w.action) {
        (Some(x), Some(y)) => x.label == y.label && x.url == y.url,
        (None, None) => true,
        _ => false,
    }
}

/// Map the decoded response onto the application's types.
pub fn from_wire(wire: WireBootstrapData) -> (d: BootstrapData)
    ensures
        d.announcements@.len() == wire.announcements@.len(),
        forall|i: int|
            0 <= i < wire.announcements@.len() ==> announcement_from(
                #[trigger] d.announcements@[i],
                wire.announcements@[i],
            ),
        d.feature_flags == wire.feature_flags,
        d.force_update == match wire.update {
            Some(u) => Some(u.force_update),
            None => None::<bool>,
        },
{
    let WireBootstrapData { update, announcements, feature_flags } = wire;
    let ghost src = announcements@;
    let mut rest = announcements;
    let mut reversed: Vec<AnnouncementInfo> = Vec::new();
    while rest.len() > 0
        invariant
            rest@ == src.subrange(0, rest@.len() as int),
            reversed@.len() + rest@.len() == src.len(),
            forall|t: int|
                0 <= t < reversed@.len() ==> announcement_from(
                    #[trigger] reversed@[t],
                    src[src.len() - 1 - t],
                ),
        decreases rest@.len(),
    {
        let a = rest.pop().unwrap();
        let action = match a.action {
            Some(act) => Some(AnnouncementAction { label: act.label, url: act.url }),
            None => None,
        };
        reversed.push(
            AnnouncementInfo {
                id: a.id,
                title: a.title,
                message: a.message,
                announcement_type: a.announcement_type,
                priority: a.priority,
                dismissible: a.dismissible,
                start_at: a.start_at,
                end_at: a.end_at,
                action,
            },
        );
    }
    let mut out: Vec<AnnouncementInfo> = Vec::new();
    while reversed.len() > 0
        invariant
            reversed@.len() + out@.len() == src.len(),
            forall|t: int|
                0 <= t < reversed@.len() ==> announcement_from(
                    #[trigger] reversed@[t],
                    src[src.len() - 1 - t],
                ),
            forall|t: int| 0 <= t < out@.len() ==> announcement_from(#[trigger] out@[t], src[t]),
        decreases reversed@.len(),
    {
        let a = reversed.pop().unwrap();
        out.push(a);
    }
    let force_update = match update {
        Some(u) => Some(u.force_update),
        None => None,
    };
    BootstrapData { announcements: out, feature_flags, force_update }
}

} // verus!
