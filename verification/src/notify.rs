//! Notifications: the daemon's replies and the popups on screen.

use vstd::prelude::*;

use crate::table::{has_key, index_of, lemma_entry, Table};

verus! {

/// A notification event for the UI thread.
#[derive(Debug, Clone)]
pub enum NotifyEvent {
    Add {
        id: u32,
        app_name: String,
        summary: String,
        body: String,
        /// Themed icon name or path (may be empty).
        icon: String,
        /// Raw `expire_timeout`: -1 = default, 0 = never, >0 = milliseconds.
        timeout_ms: i32,
    },
    Close { id: u32 },
}

// ---------------------------------------------------------------------------
// The daemon

/// The notification server (`org.freedesktop.Notifications`).
#[derive(Debug)]
pub struct Server {
    /// The id of the next notification that replaces none.
    pub next_id: u32,
}

/// The number after `n`, which wraps round to zero.
pub open spec fn after(n: u32) -> u32 {
    if n == u32::MAX {
        0
    } else {
        (n + 1) as u32
    }
}

impl Server {
    /// A server that has seen no notification.
    pub fn new() -> (r: Self)
        ensures
            r.next_id == 1,
    {
        Server { next_id: 1 }
    }

    /// Serve `Notify`: the id of the notification and the event for the UI. A
    /// notification that replaces another keeps its id.
    pub fn notify(
        &mut self,
        app_name: String,
        replaces_id: u32,
        app_icon: String,
        summary: String,
        body: String,
        expire_timeout: i32,
    ) -> (r: (u32, NotifyEvent))
        ensures
            r.0 == if replaces_id != 0 {
                replaces_id
            } else {
                old(self).next_id
            },
            final(self).next_id == if replaces_id != 0 {
                old(self).next_id
            } else {
                after(old(self).next_id)
            },
            r.1 == (NotifyEvent::Add {
                id: r.0,
                app_name,
                summary,
                body,
                icon: app_icon,
                timeout_ms: expire_timeout,
            }),
    {
        let id = if replaces_id != 0 {
            replaces_id
        } else {
            let id = self.next_id;
            self.next_id = id.wrapping_add(1);
            id
        };
        (
            id,
            NotifyEvent::Add {
                id,
                app_name,
                summary,
                body,
                icon: app_icon,
                timeout_ms: expire_timeout,
            },
        )
    }

    /// Serve `CloseNotification`: the event for the UI.
    pub fn close_notification(&self, id: u32) -> (r: NotifyEvent)
        ensures
            r == (NotifyEvent::Close { id }),
    {
        NotifyEvent::Close { id }
    }

    /// Serve `GetCapabilities`.
    pub fn get_capabilities(&self) -> (r: Vec<String>)
        ensures
            r.len() == 2,
            r@[0]@ == "body"@,
            r@[1]@ == "icon-static"@,
    {
        let mut out: Vec<String> = Vec::new();
        out.push("body".to_string());
        out.push("icon-static".to_string());
        out
    }

    /// Serve `GetServerInformation`: name, vendor, the given version, and the
    /// version of the protocol.
    pub fn get_server_information(&self, version: &str) -> (r: (String, String, String, String))
        ensures
            r.0@ == "s-compositor"@,
            r.1@ == "s-compositor"@,
            r.2@ == version@,
            r.3@ == "1.2"@,
    {
        (
            "s-compositor".to_string(),
            "s-compositor".to_string(),
            version.to_string(),
            "1.2".to_string(),
        )
    }
}

// ---------------------------------------------------------------------------
// Popups

/// How long a popup without a timeout of its own stays, in milliseconds.
pub const DEFAULT_TIMEOUT_MS: u64 = 5000;

/// The longest timeout, in milliseconds.
pub const MAX_TIMEOUT_MS: u64 = 0x7fff_ffff;

/// A notification popup.
#[derive(Debug)]
pub struct Notification {
    pub id: u32,
    pub app_name: String,
    pub summary: String,
    pub body: String,
    /// Themed icon name or path (may be empty).
    pub icon: String,
}

/// The popups on screen and when they expire.
#[derive(Debug)]
pub struct Notifications {
    /// The popups, oldest first.
    pub notes: Vec<Notification>,
    /// When a popup expires, in milliseconds of some clock; a popup without an
    /// entry never does.
    pub expiry: Table<u64>,
    /// The id of the next notification of the shell itself.
    pub next_internal: u32,
}

/// [`Notifications`] as a mathematical value.
#[verifier::ext_equal]
pub struct NotificationsView {
    pub notes: Seq<Notification>,
    pub expiry: Map<u64, u64>,
    pub next_internal: u32,
}

impl View for Notifications {
    type V = NotificationsView;

    open spec fn view(&self) -> NotificationsView {
        NotificationsView {
            notes: self.notes@,
            expiry: self.expiry@,
            next_internal: self.next_internal,
        }
    }
}

/// Some popup has the id.
pub open spec fn has_note(notes: Seq<Notification>, id: u32) -> bool {
    exists|i: int| 0 <= i < notes.len() && (#[trigger] notes[i]).id == id
}

/// The index of the popup with the id.
pub open spec fn note_index(notes: Seq<Notification>, id: u32) -> int {
    choose|i: int| 0 <= i < notes.len() && (#[trigger] notes[i]).id == id
}

/// No two popups have the same id.
pub open spec fn notes_distinct(notes: Seq<Notification>) -> bool {
    forall|i: int, j: int|
        0 <= i < j < notes.len() ==> (#[trigger] notes[i]).id != (#[trigger] notes[j]).id
}

/// Every popup is shown once, and only popups that are shown expire.
pub open spec fn notifications_wf(v: NotificationsView) -> bool {
    &&& notes_distinct(v.notes)
    &&& forall|k: u64|
        #[trigger] v.expiry.contains_key(k) ==> k <= u32::MAX && has_note(v.notes, k as u32)
}

/// The popups with `note` in the place of the one it replaces, or at the end.
pub open spec fn upserted(notes: Seq<Notification>, note: Notification) -> Seq<Notification> {
    if has_note(notes, note.id) {
        notes.update(note_index(notes, note.id), note)
    } else {
        notes.push(note)
    }
}

/// The popups without the one with the id.
pub open spec fn dismissed(v: NotificationsView, id: u32) -> NotificationsView {
    NotificationsView {
        notes: if has_note(v.notes, id) {
            v.notes.remove(note_index(v.notes, id))
        } else {
            v.notes
        },
        expiry: v.expiry.remove(id as u64),
        ..v
    }
}

/// How long a popup with a timeout stays: 0 = never expires; negative = the
/// default; otherwise the given milliseconds.
pub open spec fn lifetime(timeout_ms: int) -> Option<int> {
    if timeout_ms == 0 {
        None
    } else if timeout_ms < 0 {
        Some(DEFAULT_TIMEOUT_MS as int)
    } else {
        Some(timeout_ms)
    }
}

/// The popups after an event at the time `now`.
pub open spec fn notified(v: NotificationsView, event: NotifyEvent, now: u64) -> NotificationsView {
    match event {
        NotifyEvent::Add { id, app_name, summary, body, icon, timeout_ms } => NotificationsView {
            notes: upserted(v.notes, Notification { id, app_name, summary, body, icon }),
            expiry: match lifetime(timeout_ms as int) {
                Some(ms) => v.expiry.insert(id as u64, (now + ms) as u64),
                None => v.expiry.remove(id as u64),
            },
            ..v
        },
        NotifyEvent::Close { id } => dismissed(v, id),
    }
}

/// The popup with the id is due.
pub open spec fn due(expiry: Map<u64, u64>, id: u64, now: u64) -> bool {
    expiry.contains_key(id) && expiry[id] <= now
}

/// The popups that are not due.
pub open spec fn live(notes: Seq<Notification>, expiry: Map<u64, u64>, now: u64) -> Seq<
    Notification,
>
    decreases notes.len(),
{
    if notes.len() == 0 {
        seq![]
    } else {
        let rest = live(notes.drop_last(), expiry, now);
        if due(expiry, notes.last().id as u64, now) {
            rest
        } else {
            rest.push(notes.last())
        }
    }
}

/// The entries that are not due.
pub open spec fn undue(expiry: Map<u64, u64>, now: u64) -> Map<u64, u64> {
    Map::new(|k: u64| expiry.contains_key(k) && expiry[k] > now, |k: u64| expiry[k])
}

/// The popups after those that are due at the time `now` went away.
pub open spec fn expired(v: NotificationsView, now: u64) -> NotificationsView {
    NotificationsView {
        notes: live(v.notes, v.expiry, now),
        expiry: undue(v.expiry, now),
        ..v
    }
}

/// The index of a popup is the only one with its id.
proof fn lemma_note_index(notes: Seq<Notification>, i: int)
    requires
        notes_distinct(notes),
        0 <= i < notes.len(),
    ensures
        has_note(notes, notes[i].id),
        note_index(notes, notes[i].id) == i,
{
    let j = note_index(notes, notes[i].id);
    assert(0 <= j < notes.len() && notes[j].id == notes[i].id);
    if i < j {
        assert(notes[i].id != notes[j].id);
    } else if j < i {
        assert(notes[j].id != notes[i].id);
    }
}

/// Dropping a popup keeps the others, each once.
proof fn lemma_note_removed(notes: Seq<Notification>, i: int)
    requires
        notes_distinct(notes),
        0 <= i < notes.len(),
    ensures
        notes_distinct(notes.remove(i)),
        forall|id: u32|
            #[trigger] has_note(notes.remove(i), id) <==> has_note(notes, id) && id != notes[i].id,
{
    let t = notes.remove(i);
    let back = |k: int| if k < i { k } else { k + 1 };
    assert forall|a: int, b: int| 0 <= a < b < t.len() implies (#[trigger] t[a]).id
        != (#[trigger] t[b]).id by {
        assert(t[a] == notes[back(a)] && t[b] == notes[back(b)]);
    }
    assert forall|id: u32| #[trigger] has_note(t, id) <==> has_note(notes, id) && id
        != notes[i].id by {
        if has_note(t, id) {
            let k = note_index(t, id);
            assert(t[k] == notes[back(k)]);
            if back(k) < i {
                assert(notes[back(k)].id != notes[i].id);
            } else {
                assert(notes[i].id != notes[back(k)].id);
            }
        }
        if has_note(notes, id) && id != notes[i].id {
            let k = note_index(notes, id);
            if k < i {
                assert(t[k].id == id);
            } else {
                assert(t[k - 1].id == id);
            }
        }
    }
}

/// The popups stay sound when one is shown.
proof fn lemma_notified_wf(v: NotificationsView, event: NotifyEvent, now: u64)
    requires
        notifications_wf(v),
    ensures
        notifications_wf(notified(v, event, now)),
{
    let after = notified(v, event, now);
    match event {
        NotifyEvent::Add { id, app_name, summary, body, icon, timeout_ms } => {
            let note = Notification { id, app_name, summary, body, icon };
            let notes = after.notes;
            if has_note(v.notes, id) {
                let i = note_index(v.notes, id);
                assert forall|k: int| 0 <= k < notes.len() implies (#[trigger] notes[k]).id
                    == v.notes[k].id by {}
                assert(notes[i].id == id);
            } else {
                assert(notes[v.notes.len() as int].id == id);
            }
            assert forall|k: u64| #[trigger] after.expiry.contains_key(k) implies k <= u32::MAX
                && has_note(notes, k as u32) by {
                if k != id as u64 {
                    assert(v.expiry.contains_key(k));
                    let j = note_index(v.notes, k as u32);
                    assert(notes[j].id == k as u32);
                }
            }
        },
        NotifyEvent::Close { id } => {
            lemma_dismissed_wf(v, id);
        },
    }
}

/// The popups stay sound when one goes away.
proof fn lemma_dismissed_wf(v: NotificationsView, id: u32)
    requires
        notifications_wf(v),
    ensures
        notifications_wf(dismissed(v, id)),
{
    let after = dismissed(v, id);
    if has_note(v.notes, id) {
        lemma_note_removed(v.notes, note_index(v.notes, id));
    }
    assert forall|k: u64| #[trigger] after.expiry.contains_key(k) implies k <= u32::MAX && has_note(
        after.notes,
        k as u32,
    ) by {
        assert(v.expiry.contains_key(k));
    }
}

/// The popups that are not due are those popups, in their order.
proof fn lemma_live(notes: Seq<Notification>, expiry: Map<u64, u64>, now: u64)
    requires
        notes_distinct(notes),
    ensures
        notes_distinct(live(notes, expiry, now)),
        forall|id: u32|
            #[trigger] has_note(live(notes, expiry, now), id) <==> has_note(notes, id) && !due(
                expiry,
                id as u64,
                now,
            ),
    decreases notes.len(),
{
    if notes.len() > 0 {
        let rest = notes.drop_last();
        let last = notes.last();
        assert(notes_distinct(rest)) by {
            assert forall|a: int, b: int| 0 <= a < b < rest.len() implies (#[trigger] rest[a]).id
                != (#[trigger] rest[b]).id by {
                assert(notes[a].id != notes[b].id);
            }
        }
        lemma_live(rest, expiry, now);
        let kept = live(rest, expiry, now);
        let out = live(notes, expiry, now);
        assert forall|id: u32| #[trigger] has_note(notes, id) <==> has_note(rest, id) || id
            == last.id by {
            if has_note(notes, id) {
                let k = note_index(notes, id);
                if k < rest.len() {
                    assert(rest[k].id == id);
                }
            }
            if has_note(rest, id) {
                let k = note_index(rest, id);
                assert(notes[k].id == id);
            }
            assert(notes[notes.len() - 1].id == last.id);
        }
        assert(!has_note(rest, last.id)) by {
            if has_note(rest, last.id) {
                let k = note_index(rest, last.id);
                assert(notes[k].id != notes[notes.len() - 1].id);
            }
        }
        assert(!has_note(kept, last.id));
        if !due(expiry, last.id as u64, now) {
            assert forall|id: u32| #[trigger] has_note(out, id) <==> has_note(kept, id) || id
                == last.id by {
                if has_note(out, id) {
                    let k = note_index(out, id);
                    if k < kept.len() {
                        assert(kept[k].id == id);
                    }
                }
                if has_note(kept, id) {
                    let k = note_index(kept, id);
                    assert(out[k].id == id);
                }
                assert(out[kept.len() as int].id == last.id);
            }
            assert forall|a: int, b: int| 0 <= a < b < out.len() implies (#[trigger] out[a]).id
                != (#[trigger] out[b]).id by {
                assert(out[a] == kept[a]);
                if b < kept.len() {
                    assert(out[b] == kept[b]);
                }
            }
        }
    }
}

/// Popups that are not due stay sound.
proof fn lemma_expired_wf(v: NotificationsView, now: u64)
    requires
        notifications_wf(v),
    ensures
        notifications_wf(expired(v, now)),
{
    lemma_live(v.notes, v.expiry, now);
    let after = expired(v, now);
    assert forall|k: u64| #[trigger] after.expiry.contains_key(k) implies k <= u32::MAX && has_note(
        after.notes,
        k as u32,
    ) by {
        assert(v.expiry.contains_key(k));
        assert(has_note(v.notes, k as u32));
    }
}

/// Drop the entries that are due. Returns whether there were any.
fn drop_due(expiry: &mut Table<u64>, now: u64) -> (r: bool)
    requires
        old(expiry).wf(),
    ensures
        final(expiry).wf(),
        final(expiry)@ == undue(old(expiry)@, now),
        r == exists|k: u64| #[trigger] due(old(expiry)@, k, now),
{
    let ghost before = expiry@;
    let mut i: usize = 0;
    let mut any = false;
    while i < expiry.len()
        invariant
            before == old(expiry)@,
            expiry.wf(),
            i <= expiry.seq().len(),
            forall|j: int| 0 <= j < i ==> (#[trigger] expiry.seq()[j]).1 > now,
            forall|k: u64| #[trigger]
                expiry@.contains_key(k) ==> before.contains_key(k) && expiry@[k] == before[k],
            forall|k: u64| #[trigger]
                before.contains_key(k) && before[k] > now ==> expiry@.contains_key(k),
            any ==> exists|k: u64| #[trigger] due(before, k, now),
            !any ==> expiry@ == before,
        decreases expiry.seq().len() - i,
    {
        let ghost s = expiry.seq();
        proof {
            lemma_entry(s, i as int);
        }
        if *expiry.value_at(i) <= now {
            let k = expiry.key_at(i);
            assert(expiry@.contains_key(k) && expiry@[k] <= now);
            assert(due(before, k, now));
            expiry.remove(k);
            any = true;
            assert(expiry.seq() =~= s.remove(i as int));
            assert forall|j: int| 0 <= j < i implies (#[trigger] expiry.seq()[j]).1 > now by {
                assert(s[j].1 > now);
            }
        } else {
            i += 1;
        }
    }
    proof {
        let s = expiry.seq();
        assert forall|k: u64| expiry@.contains_key(k) implies expiry@[k] > now by {
            assert(has_key(s, k));
            let j = index_of(s, k);
            lemma_entry(s, j);
        }
        assert(expiry@ =~= undue(before, now));
        if !any {
            assert forall|k: u64| !#[trigger] due(before, k, now) by {
                if before.contains_key(k) {
                    assert(expiry@.contains_key(k));
                }
            }
        }
    }
    any
}

impl Notifications {
    /// The popups are sound.
    pub open spec fn wf(&self) -> bool {
        self.expiry.wf() && notifications_wf(self@)
    }

    /// No popups.
    pub fn new() -> (r: Self)
        ensures
            r.wf(),
            r@.notes.len() == 0,
            r@.expiry == Map::<u64, u64>::empty(),
            r@.next_internal == 1_000_000_000,
    {
        Notifications { notes: Vec::new(), expiry: Table::new(), next_internal: 1_000_000_000 }
    }

    /// The index of the popup with the id.
    fn find(&self, id: u32) -> (r: Option<usize>)
        requires
            notes_distinct(self.notes@),
        ensures
            match r {
                Some(i) => i < self.notes.len() && has_note(self.notes@, id) && note_index(
                    self.notes@,
                    id,
                ) == i,
                None => !has_note(self.notes@, id),
            },
    {
        for i in 0..self.notes.len()
            invariant
                notes_distinct(self.notes@),
                forall|k: int| 0 <= k < i ==> (#[trigger] self.notes@[k]).id != id,
        {
            if self.notes[i].id == id {
                proof {
                    lemma_note_index(self.notes@, i as int);
                }
                return Some(i);
            }
        }
        None
    }

    /// Apply a notification event at the time `now`, in milliseconds: `Add`
    /// upserts a popup (and schedules its expiry), `Close` removes it.
    pub fn apply_notify_event(&mut self, event: NotifyEvent, now: u64)
        requires
            old(self).wf(),
            now <= u64::MAX - MAX_TIMEOUT_MS,
        ensures
            final(self).wf(),
            final(self)@ == notified(old(self)@, event, now),
    {
        let ghost before = self@;
        proof {
            lemma_notified_wf(before, event, now);
        }
        match event {
            NotifyEvent::Add { id, app_name, summary, body, icon, timeout_ms } => {
                let note = Notification { id, app_name, summary, body, icon };
                match self.find(id) {
                    Some(i) => {
                        self.notes.set(i, note);
                    },
                    None => {
                        self.notes.push(note);
                    },
                }
                if timeout_ms != 0 {
                    let ms: u64 = if timeout_ms < 0 {
                        DEFAULT_TIMEOUT_MS
                    } else {
                        timeout_ms as u64
                    };
                    self.expiry.insert(id as u64, now + ms);
                } else {
                    self.expiry.remove(id as u64);
                }
                assert(self@ =~= notified(before, event, now));
            },
            NotifyEvent::Close { id } => {
                self.remove_notification(id);
            },
        }
    }

    /// Show a notification of the shell itself (e.g. screenshot saved).
    pub fn notify_internal(&mut self, summary: &str, body: &str, now: u64)
        requires
            old(self).wf(),
            now <= u64::MAX - MAX_TIMEOUT_MS,
        ensures
            final(self).wf(),
            exists|event: NotifyEvent|
                {
                    &&& #[trigger] internal_event(event, old(self).next_internal, summary@, body@)
                    &&& final(self)@ == (NotificationsView {
                        next_internal: after(old(self).next_internal),
                        ..notified(old(self)@, event, now)
                    })
                },
    {
        let ghost before = self@;
        let id = self.next_internal;
        let event = NotifyEvent::Add {
            id,
            app_name: "s-compositor".to_string(),
            summary: summary.to_string(),
            body: body.to_string(),
            icon: String::new(),
            timeout_ms: -1,
        };
        let ghost shown = event;
        self.apply_notify_event(event, now);
        self.next_internal = id.wrapping_add(1);
        proof {
            assert(internal_event(shown, before.next_internal, summary@, body@));
            assert(self@ =~= NotificationsView {
                next_internal: after(before.next_internal),
                ..notified(before, shown, now)
            });
        }
    }

    /// Remove timed-out notifications. Returns true if any were removed.
    pub fn expire_notifications(&mut self, now: u64) -> (r: bool)
        requires
            old(self).wf(),
        ensures
            final(self).wf(),
            final(self)@ == expired(old(self)@, now),
            r == exists|k: u64| #[trigger] due(old(self)@.expiry, k, now),
    {
        let ghost before = self@;
        proof {
            lemma_expired_wf(before, now);
        }
        let mut i: usize = 0;
        let ghost mut j: int = 0;
        assert(before.notes.skip(0) =~= before.notes);
        assert(self.notes@ =~= live(before.notes.take(0), before.expiry, now)
            + before.notes.skip(0));
        while i < self.notes.len()
            invariant
                self.expiry.wf(),
                self.expiry@ == before.expiry,
                self.next_internal == before.next_internal,
                0 <= j <= before.notes.len(),
                i == live(before.notes.take(j), before.expiry, now).len(),
                self.notes@ == live(before.notes.take(j), before.expiry, now) + before.notes.skip(
                    j,
                ),
            decreases before.notes.len() - j,
        {
            let ghost kept = live(before.notes.take(j), before.expiry, now);
            let id = self.notes[i].id;
            proof {
                assert(j < before.notes.len());
                assert(self.notes@[i as int] == before.notes[j]);
                assert(before.notes.take(j + 1).drop_last() =~= before.notes.take(j));
                assert(before.notes.take(j + 1).last() == before.notes[j]);
            }
            let is_due = match self.expiry.get(id as u64) {
                Some(t) => *t <= now,
                None => false,
            };
            if is_due {
                self.notes.remove(i);
                assert(self.notes@ =~= kept + before.notes.skip(j + 1));
            } else {
                i += 1;
                assert(self.notes@ =~= kept.push(before.notes[j]) + before.notes.skip(j + 1));
            }
            proof {
                j = j + 1;
            }
        }
        proof {
            let kept = live(before.notes.take(j), before.expiry, now);
            assert(before.notes.skip(j).len() == 0);
            assert(before.notes.take(j) =~= before.notes);
            assert(self.notes@ =~= kept);
        }
        let any = drop_due(&mut self.expiry, now);
        assert(self@ =~= expired(before, now));
        any
    }

    /// Remove the popup with the id.
    pub fn remove_notification(&mut self, id: u32)
        requires
            old(self).wf(),
        ensures
            final(self).wf(),
            final(self)@ == dismissed(old(self)@, id),
    {
        let ghost before = self@;
        proof {
            lemma_dismissed_wf(before, id);
        }
        let found = self.find(id);
        self.expiry.remove(id as u64);
        if let Some(i) = found {
            self.notes.remove(i);
        }
        assert(self@ =~= dismissed(before, id));
    }
}

/// The event of a notification that the shell shows itself.
pub open spec fn internal_event(
    event: NotifyEvent,
    next: u32,
    summary: Seq<char>,
    body: Seq<char>,
) -> bool {
    match event {
        NotifyEvent::Add { id, app_name, summary: s, body: b, icon, timeout_ms } => {
            &&& id == next
            &&& app_name@ == "s-compositor"@
            &&& s@ == summary
            &&& b@ == body
            &&& icon@ == Seq::<char>::empty()
            &&& timeout_ms == -1
        },
        NotifyEvent::Close { .. } => false,
    }
}

// ---------------------------------------------------------------------------
// Laws

/// A popup stays until its time comes: `ms` milliseconds after it was shown.
/// One with a timeout of 0 stays for ever.
pub proof fn law_popup_stays_for_its_lifetime(
    v: NotificationsView,
    event: NotifyEvent,
    shown: u64,
    now: u64,
)
    requires
        notifications_wf(v),
        event is Add,
        shown <= u64::MAX - MAX_TIMEOUT_MS,
    ensures
        ({
            let after = expired(notified(v, event, shown), now);
            has_note(after.notes, event->Add_id) <==> match lifetime(event->timeout_ms as int) {
                Some(ms) => now < shown + ms,
                None => true,
            }
        }),
{
    let mid = notified(v, event, shown);
    lemma_notified_wf(v, event, shown);
    lemma_live(mid.notes, mid.expiry, now);
    let id = event->Add_id;
    if has_note(v.notes, id) {
        let i = note_index(v.notes, id);
        assert(mid.notes[i].id == id);
    } else {
        assert(mid.notes[v.notes.len() as int].id == id);
    }
}

/// A notification that replaces another takes its place on screen.
pub proof fn law_replacement_keeps_its_place(v: NotificationsView, event: NotifyEvent, now: u64)
    requires
        notifications_wf(v),
        event is Add,
        has_note(v.notes, event->Add_id),
    ensures
        notified(v, event, now).notes.len() == v.notes.len(),
        note_index(notified(v, event, now).notes, event->Add_id) == note_index(
            v.notes,
            event->Add_id,
        ),
{
    let after = notified(v, event, now);
    lemma_notified_wf(v, event, now);
    lemma_note_index(after.notes, note_index(v.notes, event->Add_id));
}

/// A closed notification is not on screen.
pub proof fn law_closed_popup_is_gone(v: NotificationsView, id: u32)
    requires
        notifications_wf(v),
    ensures
        !has_note(dismissed(v, id).notes, id),
{
    if has_note(v.notes, id) {
        lemma_note_removed(v.notes, note_index(v.notes, id));
    }
}

/// A popup with a timeout of its own stays that many milliseconds, one without for
/// five seconds, and one with a timeout of 0 for ever.
pub proof fn law_lifetimes(timeout_ms: int)
    ensures
        timeout_ms > 0 ==> lifetime(timeout_ms) == Some(timeout_ms),
        timeout_ms < 0 ==> lifetime(timeout_ms) == Some(5000int),
        timeout_ms == 0 ==> lifetime(timeout_ms) is None,
{
}

/// A notification is on screen with what it says, and every other popup is as it
/// was. One that replaces none comes last.
pub proof fn law_notifications_are_shown(
    v: NotificationsView,
    event: NotifyEvent,
    now: u64,
    i: int,
)
    requires
        notifications_wf(v),
        event is Add,
    ensures
        ({
            let after = notified(v, event, now);
            let id = event->Add_id;
            &&& exists|k: int|
                0 <= k < after.notes.len() && (#[trigger] after.notes[k]).id == id
                    && after.notes[k].app_name == event->app_name && after.notes[k].summary
                    == event->summary && after.notes[k].body == event->body && after.notes[k].icon
                    == event->icon && (!has_note(v.notes, id) ==> k == v.notes.len())
            &&& 0 <= i < v.notes.len() && v.notes[i].id != id ==> after.notes[i] == v.notes[i]
            &&& after.next_internal == v.next_internal
            &&& forall|k: u64|
                k != id as u64 ==> (after.expiry.contains_key(k) <==> v.expiry.contains_key(k))
                    && after.expiry[k] == v.expiry[k]
        }),
{
    let after = notified(v, event, now);
    let id = event->Add_id;
    if has_note(v.notes, id) {
        let k = note_index(v.notes, id);
        assert(0 <= k < v.notes.len() && v.notes[k].id == id);
        assert(after.notes[k].id == id);
    } else {
        assert(after.notes[v.notes.len() as int].id == id);
    }
}

/// Exactly the popups whose time has come go away; the others keep their order and
/// the time that is left to them.
pub proof fn law_only_due_popups_go_away(v: NotificationsView, now: u64) -> (rows: Seq<int>)
    ensures
        ({
            let after = expired(v, now);
            &&& rows.len() == after.notes.len()
            &&& forall|a: int, b: int| 0 <= a < b < rows.len() ==> rows[a] < rows[b]
            &&& forall|k: int|
                0 <= k < rows.len() ==> 0 <= #[trigger] rows[k] < v.notes.len() && after.notes[k]
                    == v.notes[rows[k]]
            &&& forall|i: int|
                0 <= i < v.notes.len() ==> (rows.contains(i) <==> {
                    let id = (#[trigger] v.notes[i]).id as u64;
                    v.expiry.contains_key(id) ==> now < v.expiry[id]
                })
            &&& forall|id: u64|
                after.expiry.contains_key(id) <==> v.expiry.contains_key(id) && now < v.expiry[id]
            &&& forall|id: u64| after.expiry.contains_key(id) ==> after.expiry[id] == v.expiry[id]
            &&& after.next_internal == v.next_internal
        }),
    decreases v.notes.len(),
{
    if v.notes.len() == 0 {
        seq![]
    } else {
        let last = v.notes.len() - 1;
        let less = NotificationsView { notes: v.notes.drop_last(), ..v };
        let before = law_only_due_popups_go_away(less, now);
        let gone = due(v.expiry, v.notes[last].id as u64, now);
        let rows = if gone {
            before
        } else {
            before.push(last)
        };
        assert forall|k: int| 0 <= k < before.len() implies v.notes[#[trigger] before[k]]
            == less.notes[before[k]] by {}
        assert forall|i: int| 0 <= i < v.notes.len() implies (rows.contains(i) <==> {
            let id = (#[trigger] v.notes[i]).id as u64;
            v.expiry.contains_key(id) ==> now < v.expiry[id]
        }) by {
            if i < last {
                assert(less.notes[i] == v.notes[i]);
                if before.contains(i) {
                    let k = choose|k: int| 0 <= k < before.len() && before[k] == i;
                    assert(rows[k] == i);
                }
                if rows.contains(i) {
                    let k = choose|k: int| 0 <= k < rows.len() && rows[k] == i;
                    assert(before[k] == i);
                }
            } else {
                if !gone {
                    assert(rows[before.len() as int] == i);
                }
                if rows.contains(i) && gone {
                    let k = choose|k: int| 0 <= k < rows.len() && rows[k] == i;
                    assert(before[k] == i);
                }
            }
        }
        rows
    }
}

/// Closing a notification takes that popup from the screen and no other.
pub proof fn law_closing_keeps_the_others(v: NotificationsView, id: u32, other: u32)
    requires
        notifications_wf(v),
        other != id,
    ensures
        has_note(dismissed(v, id).notes, other) <==> has_note(v.notes, other),
        dismissed(v, id).expiry.contains_key(other as u64) <==> v.expiry.contains_key(
            other as u64,
        ),
        !dismissed(v, id).expiry.contains_key(id as u64),
        !has_note(v.notes, id) ==> dismissed(v, id).notes == v.notes,
{
    if has_note(v.notes, id) {
        let k = note_index(v.notes, id);
        assert(0 <= k < v.notes.len() && v.notes[k].id == id);
        lemma_note_removed(v.notes, k);
    }
}

/// The ids of notifications are counted up, and start anew at 0 after the greatest.
pub proof fn law_ids_are_counted_up(n: u32)
    ensures
        n < u32::MAX ==> after(n) == n + 1,
        n == u32::MAX ==> after(n) == 0,
{
}

/// A notification of the shell itself is from the shell, says what it was asked to,
/// has no icon and stays for the default time.
pub proof fn law_internal_notifications(
    event: NotifyEvent,
    id: u32,
    summary: Seq<char>,
    body: Seq<char>,
)
    requires
        internal_event(event, id, summary, body),
    ensures
        event is Add && event->Add_id == id,
        event->app_name@ == "s-compositor"@,
        event->summary@ == summary,
        event->body@ == body,
        event->icon@.len() == 0,
        event->timeout_ms < 0,
{
}

} // verus!
