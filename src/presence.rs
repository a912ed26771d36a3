use vstd::prelude::*;
use crate::collab::SyncError;
use crate::text::str_equals;
use crate::user::{RealtimeUser, UserView};
use crate::actor::{views_of, without_sessions};
use crate::router::Router;

verus! {

/// Whether two connections are of one user on one device.
pub open spec fn same_device(a: UserView, b: UserView) -> bool {
    a.0 == b.0 && a.1 == b.1
}

/// Whether a connection that is present must give way to a new one: it is
/// of the same user on the same device, or carries the same session.
pub open spec fn superseded_by(old_user: UserView, new_user: UserView) -> bool {
    same_device(old_user, new_user) || old_user.2 == new_user.2
}

/// The connections that stay when `user` registers.
pub open spec fn kept_on_register(users: Seq<UserView>, user: UserView) -> Seq<UserView> {
    users.filter(|u: UserView| !superseded_by(u, user))
}

/// The connections that stay when `session` leaves.
pub open spec fn kept_on_unregister(users: Seq<UserView>, session: Seq<char>) -> Seq<UserView> {
    users.filter(|u: UserView| u.2 != session)
}

pub open spec fn user_views(s: Seq<RealtimeUser>) -> Seq<UserView> {
    s.map_values(|u: RealtimeUser| u@)
}

/// At most one connection per session and per user-device.
pub open spec fn presence_wf(users: Seq<UserView>) -> bool {
    forall|i: int, j: int|
        0 <= i < users.len() && 0 <= j < users.len() && i != j ==> !superseded_by(
            #[trigger] users[i],
            #[trigger] users[j],
        )
}

/// The live connections, keyed by session and by user-device.
pub struct PresenceRegistry {
    users: Vec<RealtimeUser>,
}

proof fn lemma_filter_subset(users: Seq<UserView>, pred: spec_fn(UserView) -> bool)
    ensures
        forall|x: UserView| #[trigger] users.filter(pred).contains(x) ==> users.contains(x) && pred(x),
    decreases users.len(),
{
    reveal(Seq::filter);
    if users.len() > 0 {
        let init = users.drop_last();
        lemma_filter_subset(init, pred);
        assert forall|x: UserView| #[trigger] users.filter(pred).contains(x) implies users.contains(x) && pred(x) by {
            let f = users.filter(pred);
            let k = choose|k: int| 0 <= k < f.len() && f[k] == x;
            if pred(users.last()) && k == f.len() - 1 {
                assert(users[users.len() - 1] == x);
            } else {
                assert(init.filter(pred)[k] == x);
                assert(init.filter(pred).contains(x));
                let j = choose|j: int| 0 <= j < init.len() && init[j] == x;
                assert(users[j] == x);
            }
        }
    }
}

proof fn lemma_filter_keeps_wf(users: Seq<UserView>, pred: spec_fn(UserView) -> bool)
    requires
        presence_wf(users),
    ensures
        presence_wf(users.filter(pred)),
    decreases users.len(),
{
    reveal(Seq::filter);
    if users.len() > 0 {
        lemma_filter_subset(users.drop_last(), pred);
        let init = users.drop_last();
        assert forall|i: int, j: int|
            0 <= i < init.len() && 0 <= j < init.len() && i != j implies !superseded_by(#[trigger] init[i], #[trigger] init[j]) by {
            assert(init[i] == users[i]);
            assert(init[j] == users[j]);
        }
        lemma_filter_keeps_wf(init, pred);
        let f = users.filter(pred);
        let fi = init.filter(pred);
        if pred(users.last()) {
            assert(f == fi.push(users.last()));
            assert forall|i: int, j: int|
                0 <= i < f.len() && 0 <= j < f.len() && i != j implies !superseded_by(#[trigger] f[i], #[trigger] f[j]) by {
                if i < fi.len() && j < fi.len() {
                } else if i < fi.len() {
                    assert(fi.contains(f[i]));
                    let k = choose|k: int| 0 <= k < init.len() && init[k] == f[i];
                    assert(users[k] == f[i]);
                    assert(f[j] == users[users.len() - 1]);
                } else {
                    assert(fi.contains(f[j]));
                    let k = choose|k: int| 0 <= k < init.len() && init[k] == f[j];
                    assert(users[k] == f[j]);
                    assert(f[i] == users[users.len() - 1]);
                }
            }
        }
    }
}

impl PresenceRegistry {
    pub closed spec fn spec_users(&self) -> Seq<UserView> {
        user_views(self.users@)
    }

    pub open spec fn wf(&self) -> bool {
        presence_wf(self.spec_users())
    }

    /// A registry with no connection.
    pub fn new() -> (r: PresenceRegistry)
        ensures
            r.wf(),
            r.spec_users() == Seq::<UserView>::empty(),
    {
        let r = PresenceRegistry { users: Vec::new() };
        assert(r.spec_users() =~= Seq::<UserView>::empty());
        r
    }

    /// The number of live connections.
    pub fn len(&self) -> (r: usize)
        ensures
            r == self.spec_users().len(),
    {
        self.users.len()
    }

    /// Keeps the connections that `keep` says stay, and hands back the
    /// others.
    fn retain_sessions(&mut self, user: Option<&RealtimeUser>, session: &str) -> (r: Vec<RealtimeUser>)
        ensures
            match user {
                Some(u) => final(self).spec_users() == kept_on_register(old(self).spec_users(), u@)
                    && user_views(r@) == old(self).spec_users().filter(|x: UserView| superseded_by(x, u@)),
                None => final(self).spec_users() == kept_on_unregister(old(self).spec_users(), session@)
                    && user_views(r@) == old(self).spec_users().filter(|x: UserView| x.2 == session@),
            },
    {
        let ghost all = self.spec_users();
        let ghost keep = match user {
            Some(u) => |x: UserView| !superseded_by(x, u@),
            None => |x: UserView| x.2 != session@,
        };
        let ghost gone = match user {
            Some(u) => |x: UserView| superseded_by(x, u@),
            None => |x: UserView| x.2 == session@,
        };
        let mut kept: Vec<RealtimeUser> = Vec::new();
        let mut removed: Vec<RealtimeUser> = Vec::new();
        let mut i: usize = 0;
        proof {
            reveal(Seq::filter);
            assert(user_views(kept@) =~= all.take(0).filter(keep));
            assert(user_views(removed@) =~= all.take(0).filter(gone));
        }
        while i < self.users.len()
            invariant
                all == user_views(self.users@),
                i <= self.users@.len(),
                user_views(kept@) == all.take(i as int).filter(keep),
                user_views(removed@) == all.take(i as int).filter(gone),
                keep == (match user {
                    Some(u) => |x: UserView| !superseded_by(x, u@),
                    None => |x: UserView| x.2 != session@,
                }),
                gone == (match user {
                    Some(u) => |x: UserView| superseded_by(x, u@),
                    None => |x: UserView| x.2 == session@,
                }),
            decreases self.users@.len() - i,
        {
            let u = &self.users[i];
            proof {
                reveal(Seq::filter);
                assert(all.take(i + 1).drop_last() =~= all.take(i as int));
                assert(all.take(i + 1).last() == u@);
            }
            let stays = match user {
                Some(n) => !((u.uid == n.uid && str_equals(u.device_id.as_str(), n.device_id.as_str()))
                    || str_equals(u.session_id.as_str(), n.session_id.as_str())),
                None => !str_equals(u.session_id.as_str(), session),
            };
            assert(stays == keep(u@));
            if stays {
                kept.push(u.duplicate());
                assert(user_views(kept@) =~= all.take(i + 1).filter(keep));
                assert(user_views(removed@) =~= all.take(i + 1).filter(gone));
            } else {
                removed.push(u.duplicate());
                assert(user_views(kept@) =~= all.take(i + 1).filter(keep));
                assert(user_views(removed@) =~= all.take(i + 1).filter(gone));
            }
            i = i + 1;
        }
        assert(all.take(all.len() as int) =~= all);
        self.users = kept;
        removed
    }

    /// Adds a connection. Any connection of the same user on the same
    /// device, or with the same session, is evicted and handed back: the
    /// newest connection of a device wins.
    pub fn register(&mut self, user: RealtimeUser) -> (evicted: Vec<RealtimeUser>)
        requires
            old(self).wf(),
        ensures
            final(self).wf(),
            final(self).spec_users() == kept_on_register(old(self).spec_users(), user@).push(user@),
            user_views(evicted@) == old(self).spec_users().filter(|x: UserView| superseded_by(x, user@)),
    {
        let ghost all = self.spec_users();
        let evicted = self.retain_sessions(Some(&user), "");
        proof {
            lemma_filter_keeps_wf(all, |x: UserView| !superseded_by(x, user@));
        }
        let ghost kept = self.spec_users();
        self.users.push(user);
        proof {
            assert(self.spec_users() =~= kept.push(user@));
            let s = self.spec_users();
            assert forall|i: int, j: int|
                0 <= i < s.len() && 0 <= j < s.len() && i != j implies !superseded_by(#[trigger] s[i], #[trigger] s[j]) by {
                if i < kept.len() && j < kept.len() {
                    assert(s[i] == kept[i] && s[j] == kept[j]);
                } else if i < kept.len() {
                    assert(kept.contains(s[i]));
                } else {
                    assert(kept.contains(s[j]));
                }
            }
        }
        evicted
    }

    /// Removes the connection of `session_id`, handing it back, or
    /// `NotFound` when no connection has that session.
    pub fn unregister(&mut self, session_id: &str) -> (r: Result<RealtimeUser, SyncError>)
        requires
            old(self).wf(),
        ensures
            final(self).wf(),
            final(self).spec_users() == kept_on_unregister(old(self).spec_users(), session_id@),
            match r {
                Ok(u) => old(self).spec_users().contains(u@) && u@.2 == session_id@,
                Err(e) => e == SyncError::NotFound && forall|k: int| 0 <= k < old(self).spec_users().len() ==> (#[trigger] old(self).spec_users()[k]).2 != session_id@,
            },
    {
        let ghost all = self.spec_users();
        let mut removed = self.retain_sessions(None, session_id);
        proof {
            lemma_filter_keeps_wf(all, |x: UserView| x.2 != session_id@);
            broadcast use vstd::seq_lib::group_filter_ensures;
        }
        if removed.len() == 0 {
            proof {
                assert forall|k: int| 0 <= k < all.len() implies (#[trigger] all[k]).2 != session_id@ by {
                    if all[k].2 == session_id@ {
                        assert(all.filter(|x: UserView| x.2 == session_id@).contains(all[k]));
                    }
                }
            }
            return Err(SyncError::NotFound);
        }
        let ghost before = removed@;
        let u = removed.pop().unwrap();
        proof {
            let f = all.filter(|x: UserView| x.2 == session_id@);
            lemma_filter_subset(all, |x: UserView| x.2 == session_id@);
            assert(u@ == user_views(before)[before.len() - 1]);
            assert(f.contains(f[f.len() - 1]));
        }
        Ok(u)
    }

    /// The connection of `session_id`.
    pub fn lookup_session(&self, session_id: &str) -> (r: Result<RealtimeUser, SyncError>)
        ensures
            match r {
                Ok(u) => self.spec_users().contains(u@) && u@.2 == session_id@,
                Err(e) => e == SyncError::NotFound && forall|k: int| 0 <= k < self.spec_users().len() ==> (#[trigger] self.spec_users()[k]).2 != session_id@,
            },
    {
        let mut k: usize = 0;
        while k < self.users.len()
            invariant
                k <= self.users@.len(),
                forall|j: int| 0 <= j < k ==> (#[trigger] self.spec_users()[j]).2 != session_id@,
            decreases self.users@.len() - k,
        {
            if str_equals(self.users[k].session_id.as_str(), session_id) {
                assert(self.spec_users()[k as int] == self.users@[k as int]@);
                return Ok(self.users[k].duplicate());
            }
            k = k + 1;
        }
        Err(SyncError::NotFound)
    }

    /// The sessions of a user, or `NotFound` when the user has none.
    pub fn sessions_of(&self, uid: i64) -> (r: Result<Vec<String>, SyncError>)
        ensures
            match r {
                Ok(v) => v@.len() > 0 && v@.map_values(|s: String| s@) == self.spec_users().filter(|u: UserView| u.0 == uid).map_values(|u: UserView| u.2),
                Err(e) => e == SyncError::NotFound && forall|k: int| 0 <= k < self.spec_users().len() ==> (#[trigger] self.spec_users()[k]).0 != uid,
            },
    {
        let ghost all = self.spec_users();
        let ghost pick = |u: UserView| u.0 == uid;
        let mut out: Vec<String> = Vec::new();
        let mut k: usize = 0;
        proof {
            reveal(Seq::filter);
            assert(out@.map_values(|s: String| s@) =~= all.take(0).filter(pick).map_values(|u: UserView| u.2));
        }
        while k < self.users.len()
            invariant
                all == self.spec_users(),
                k <= self.users@.len(),
                pick == |u: UserView| u.0 == uid,
                out@.map_values(|s: String| s@) == all.take(k as int).filter(pick).map_values(|u: UserView| u.2),
            decreases self.users@.len() - k,
        {
            let u = &self.users[k];
            proof {
                reveal(Seq::filter);
                assert(all.take(k + 1).drop_last() =~= all.take(k as int));
                assert(all.take(k + 1).last() == u@);
            }
            let ghost before = out@;
            if u.uid == uid {
                out.push(u.session_id.clone());
                assert(out@.map_values(|s: String| s@) =~= before.map_values(|s: String| s@).push(u@.2));
                assert(all.take(k + 1).filter(pick) == all.take(k as int).filter(pick).push(u@));
                assert(out@.map_values(|s: String| s@) =~= all.take(k + 1).filter(pick).map_values(|u: UserView| u.2));
            } else {
                assert(all.take(k + 1).filter(pick) == all.take(k as int).filter(pick));
            }
            k = k + 1;
        }
        assert(all.take(all.len() as int) =~= all);
        if out.len() == 0 {
            proof {
                broadcast use vstd::seq_lib::group_filter_ensures;
                assert forall|j: int| 0 <= j < all.len() implies (#[trigger] all[j]).0 != uid by {
                    if all[j].0 == uid {
                        assert(all.filter(pick).contains(all[j]));
                    }
                }
            }
            return Err(SyncError::NotFound);
        }
        Ok(out)
    }
}

/// The sessions of a list of connections.
pub open spec fn sessions_of_users(users: Seq<UserView>) -> Seq<Seq<char>> {
    users.map_values(|u: UserView| u.2)
}

fn session_ids(users: &Vec<RealtimeUser>) -> (r: Vec<String>)
    ensures
        views_of(r@) == sessions_of_users(user_views(users@)),
{
    let mut r: Vec<String> = Vec::new();
    let mut i: usize = 0;
    while i < users.len()
        invariant
            i <= users@.len(),
            views_of(r@) == sessions_of_users(user_views(users@.take(i as int))),
        decreases users@.len() - i,
    {
        let ghost prev = r@;
        r.push(users[i].session_id.clone());
        assert(views_of(r@) =~= views_of(prev).push(users@[i as int].session_id@));
        assert(sessions_of_users(user_views(users@.take(i + 1))) =~= sessions_of_users(user_views(users@.take(i as int))).push(users@[i as int]@.2));
        assert(views_of(r@) =~= sessions_of_users(user_views(users@.take(i + 1))));
        i = i + 1;
    }
    assert(users@.take(users@.len() as int) =~= users@);
    r
}

/// A new connection: the user is registered, and every connection it
/// evicts is unsubscribed from every actor. Hands back the evicted ones.
pub fn connect(registry: &mut PresenceRegistry, router: &mut Router, user: RealtimeUser) -> (evicted: Vec<RealtimeUser>)
    requires
        old(registry).wf(),
        old(router).wf(),
    ensures
        final(registry).wf(),
        final(router).wf(),
        final(registry).spec_users() == kept_on_register(old(registry).spec_users(), user@).push(user@),
        user_views(evicted@) == old(registry).spec_users().filter(|x: UserView| superseded_by(x, user@)),
        final(router).spec_slots() == old(router).spec_slots(),
        final(router).spec_mailbox_capacity() == old(router).spec_mailbox_capacity(),
        final(router).spec_max_actors() == old(router).spec_max_actors(),
        final(router).spec_subscribers().len() == old(router).spec_subscribers().len(),
        forall|k: int| 0 <= k < old(router).spec_subscribers().len() ==> #[trigger] final(router).spec_subscribers()[k]
            == without_sessions(old(router).spec_subscribers()[k], sessions_of_users(user_views(evicted@))),
{
    let evicted = registry.register(user);
    let sessions = session_ids(&evicted);
    router.drop_sessions(&sessions);
    evicted
}

/// A connection that went away: it leaves the registry and every actor's
/// subscribers. `NotFound`, with nothing changed, for an unknown session.
pub fn disconnect(registry: &mut PresenceRegistry, router: &mut Router, session_id: &str) -> (r: Result<RealtimeUser, SyncError>)
    requires
        old(registry).wf(),
        old(router).wf(),
    ensures
        final(registry).wf(),
        final(router).wf(),
        final(registry).spec_users() == kept_on_unregister(old(registry).spec_users(), session_id@),
        final(router).spec_slots() == old(router).spec_slots(),
        final(router).spec_mailbox_capacity() == old(router).spec_mailbox_capacity(),
        final(router).spec_max_actors() == old(router).spec_max_actors(),
        match r {
            Ok(u) => old(registry).spec_users().contains(u@) && u@.2 == session_id@
                && final(router).spec_subscribers().len() == old(router).spec_subscribers().len()
                && forall|k: int| 0 <= k < old(router).spec_subscribers().len() ==> #[trigger] final(router).spec_subscribers()[k]
                    == without_sessions(old(router).spec_subscribers()[k], seq![session_id@]),
            Err(e) => e == SyncError::NotFound && final(router).spec_subscribers() == old(router).spec_subscribers()
                && forall|k: int| 0 <= k < old(registry).spec_users().len() ==> (#[trigger] old(registry).spec_users()[k]).2 != session_id@,
        },
{
    let r = registry.unregister(session_id);
    if r.is_ok() {
        let mut sessions: Vec<String> = Vec::new();
        sessions.push(session_id.to_owned());
        assert(views_of(sessions@) =~= seq![session_id@]);
        router.drop_sessions(&sessions);
    }
    r
}

} // verus!
