//! Moderation policy state: per-group whitelist and per-user activity.
//!
//! A group is moderated only while its whitelist entry is `true`; a group
//! that was never entered behaves exactly like one set to `false`.  Each
//! user accumulates a total trigger count, a per-group trigger count and a
//! per-group last-trigger timestamp.  A fresh trigger within the cooldown
//! window of the previous one calls for a ban; the record is updated on
//! every trigger, banned or not.

use std::collections::HashMap;
use vstd::prelude::*;

verus! {

broadcast use vstd::std_specs::hash::group_hash_axioms;

/// Whether the whitelist map puts a group under moderation: the entry
/// must be present and `true`.
pub open spec fn spec_moderated(m: Map<i64, bool>, group_id: i64) -> bool {
    m.contains_key(group_id) && m[group_id]
}

/// Law: a group absent from the whitelist behaves identically to a group
/// explicitly set to `false` — neither is moderated.
pub proof fn lemma_absent_group_like_false(m: Map<i64, bool>, group_id: i64)
    requires
        !m.contains_key(group_id),
    ensures
        !spec_moderated(m, group_id),
        spec_moderated(m.insert(group_id, false), group_id) == spec_moderated(m, group_id),
{
}

/// Per-group moderation switch, flipped by admin commands.
pub struct Whitelist {
    map: HashMap<i64, bool>,
}

impl Whitelist {
    pub closed spec fn groups(self) -> Map<i64, bool> {
        self.map@
    }

    pub fn new() -> (r: Self)
        ensures
            r.groups() == Map::<i64, bool>::empty(),
    {
        Whitelist { map: HashMap::new() }
    }

    /// Adopts a whitelist loaded from persisted state.
    pub fn from_map(map: HashMap<i64, bool>) -> (r: Self)
        ensures
            r.groups() == map@,
    {
        Whitelist { map }
    }

    /// Releases the whitelist for persisting.
    pub fn into_map(self) -> (r: HashMap<i64, bool>)
        ensures
            r@ == self.groups(),
    {
        self.map
    }

    pub fn set(&mut self, group_id: i64, enabled: bool)
        ensures
            final(self).groups() == old(self).groups().insert(group_id, enabled),
    {
        self.map.insert(group_id, enabled);
    }

    pub fn is_moderated(&self, group_id: i64) -> (r: bool)
        ensures
            r == spec_moderated(self.groups(), group_id),
    {
        match self.map.get(&group_id) {
            Some(enabled) => *enabled,
            None => false,
        }
    }
}

/// One user's accumulated activity.
pub struct UserInfo {
    pub total_times: u64,
    pub group_total_times: HashMap<i64, u64>,
    pub last_timestamp: HashMap<i64, u64>,
}

impl UserInfo {
    /// Triggers recorded for this user in one group; zero when the group
    /// was never entered.
    pub open spec fn group_times_of(self, group_id: i64) -> u64 {
        if self.group_total_times@.contains_key(group_id) {
            self.group_total_times@[group_id]
        } else {
            0
        }
    }

    /// Timestamp of the last trigger in one group; the epoch (zero) when
    /// the group was never entered.
    pub open spec fn last_trigger_of(self, group_id: i64) -> u64 {
        if self.last_timestamp@.contains_key(group_id) {
            self.last_timestamp@[group_id]
        } else {
            0
        }
    }

    pub fn new() -> (r: Self)
        ensures
            r.total_times == 0,
            r.group_total_times@ == Map::<i64, u64>::empty(),
            r.last_timestamp@ == Map::<i64, u64>::empty(),
    {
        UserInfo {
            total_times: 0,
            group_total_times: HashMap::new(),
            last_timestamp: HashMap::new(),
        }
    }

    /// Records one trigger: bumps the overall total and the group's
    /// total, and stamps the group with the new timestamp.
    pub fn update_time(&mut self, group_id: i64, last_timestamp: u64)
        requires
            old(self).total_times < u64::MAX,
            old(self).group_times_of(group_id) < u64::MAX,
        ensures
            final(self).total_times == old(self).total_times + 1,
            final(self).group_total_times@ == old(self).group_total_times@.insert(
                group_id,
                (old(self).group_times_of(group_id) + 1) as u64,
            ),
            final(self).last_timestamp@ == old(self).last_timestamp@.insert(group_id, last_timestamp),
    {
        self.total_times = self.total_times + 1;
        let current = match self.group_total_times.get(&group_id) {
            Some(v) => *v,
            None => 0,
        };
        self.group_total_times.insert(group_id, current + 1);
        self.last_timestamp.insert(group_id, last_timestamp);
    }
}

/// A trigger at `now` deserves a ban exactly when it falls strictly
/// inside the cooldown window after the previous trigger.
pub open spec fn spec_ban_due(last: u64, now: u64, cooldown: u64) -> bool {
    now - last < cooldown
}

/// Law: with last trigger at `t` and cooldown window `c`, a trigger at
/// `t + c - 1` is banned and a trigger at `t + c` is not.
pub proof fn lemma_cooldown_boundary(t: u64, c: u64)
    requires
        1 <= c,
        t + c <= u64::MAX,
    ensures
        spec_ban_due(t, (t + c - 1) as u64, c),
        !spec_ban_due(t, (t + c) as u64, c),
{
}

/// Activity records of every user a detector instance has seen.
pub struct ActivityLog {
    users: HashMap<i64, UserInfo>,
}

impl ActivityLog {
    pub closed spec fn records(self) -> Map<i64, UserInfo> {
        self.users@
    }

    /// Overall trigger count of one user; zero before the first trigger.
    pub open spec fn user_total(self, user_id: i64) -> u64 {
        if self.records().contains_key(user_id) {
            self.records()[user_id].total_times
        } else {
            0
        }
    }

    /// Trigger count of one user in one group.
    pub open spec fn user_group_times(self, user_id: i64, group_id: i64) -> u64 {
        if self.records().contains_key(user_id) {
            self.records()[user_id].group_times_of(group_id)
        } else {
            0
        }
    }

    /// Last trigger timestamp of one user in one group; the epoch when
    /// the user never triggered there.
    pub open spec fn user_last_trigger(self, user_id: i64, group_id: i64) -> u64 {
        if self.records().contains_key(user_id) {
            self.records()[user_id].last_trigger_of(group_id)
        } else {
            0
        }
    }

    pub fn new() -> (r: Self)
        ensures
            r.records() == Map::<i64, UserInfo>::empty(),
    {
        ActivityLog { users: HashMap::new() }
    }

    /// Adopts activity records loaded from persisted state.
    pub fn from_records(users: HashMap<i64, UserInfo>) -> (r: Self)
        ensures
            r.records() == users@,
    {
        ActivityLog { users }
    }

    /// Releases the activity records for persisting.
    pub fn into_records(self) -> (r: HashMap<i64, UserInfo>)
        ensures
            r@ == self.records(),
    {
        self.users
    }

    /// Whether this user has ever triggered, and with which counts: the
    /// group's count and the overall count, as the usage enquiry reports
    /// them.
    pub fn my_times(&self, user_id: i64, group_id: i64) -> (r: Option<(u64, u64)>)
        ensures
            match r {
                Some((group_times, total_times)) => {
                    &&& self.records().contains_key(user_id)
                    &&& group_times == self.user_group_times(user_id, group_id)
                    &&& total_times == self.user_total(user_id)
                },
                None => !self.records().contains_key(user_id),
            },
    {
        match self.users.get(&user_id) {
            Some(info) => {
                let group_times = match info.group_total_times.get(&group_id) {
                    Some(v) => *v,
                    None => 0,
                };
                Some((group_times, info.total_times))
            },
            None => None,
        }
    }

    /// Timestamp of the user's last trigger in a group, for callers that
    /// must check clock monotonicity before recording a new one.
    pub fn last_trigger(&self, user_id: i64, group_id: i64) -> (r: u64)
        ensures
            r == self.user_last_trigger(user_id, group_id),
    {
        match self.users.get(&user_id) {
            Some(info) => match info.last_timestamp.get(&group_id) {
                Some(v) => *v,
                None => 0,
            },
            None => 0,
        }
    }

    /// Applies one detection trigger to the user's record: decides the
    /// ban by the cooldown window, then bumps both counters and stamps
    /// the group with `now` — banned or not.  A user without a record
    /// starts from zero counts and an epoch timestamp.
    pub fn record_trigger(&mut self, user_id: i64, group_id: i64, now: u64, cooldown: u64) -> (banned:
        bool)
        requires
            now >= old(self).user_last_trigger(user_id, group_id),
            old(self).user_total(user_id) < u64::MAX,
            old(self).user_group_times(user_id, group_id) < u64::MAX,
        ensures
            banned == spec_ban_due(old(self).user_last_trigger(user_id, group_id), now, cooldown),
            final(self).records().contains_key(user_id),
            final(self).user_total(user_id) == old(self).user_total(user_id) + 1,
            final(self).user_group_times(user_id, group_id) == old(self).user_group_times(
                user_id,
                group_id,
            ) + 1,
            final(self).user_last_trigger(user_id, group_id) == now,
            forall|g: i64|
                g != group_id ==> #[trigger] final(self).user_group_times(user_id, g) == old(
                    self,
                ).user_group_times(user_id, g),
            forall|g: i64|
                g != group_id ==> #[trigger] final(self).user_last_trigger(user_id, g) == old(
                    self,
                ).user_last_trigger(user_id, g),
            forall|u: i64|
                u != user_id ==> #[trigger] final(self).records().contains_key(u) == old(
                    self,
                ).records().contains_key(u),
            forall|u: i64|
                u != user_id && old(self).records().contains_key(u)
                    ==> #[trigger] final(self).records()[u] == old(self).records()[u],
    {
        let mut info = match self.users.remove(&user_id) {
            Some(info) => info,
            None => UserInfo::new(),
        };
        let last = match info.last_timestamp.get(&group_id) {
            Some(v) => *v,
            None => 0,
        };
        let banned = now - last < cooldown;
        info.update_time(group_id, now);
        self.users.insert(user_id, info);
        banned
    }
}

} // verus!
