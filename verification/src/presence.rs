//! Ephemeral presence state: it lives in node memory and resets on restart —
//! clients re-establish it on their next sync. Times are counted by a clock
//! that never runs backwards.
use crate::evict::{
    law_exactly_so_many_go, law_the_newest_stays, lemma_survivors_were_there, rank, staying,
    survivors,
};
use crate::text::{opt_text, same_text};
use vstd::prelude::*;

verus! {

#[derive(Debug)]
pub struct PresenceEntry {
    pub presence: String,
    pub status_msg: Option<String>,
    pub last_active: u64,
    /// Generation of the last observable change (sync token window).
    pub changed_at: u64,
}

/// A snapshot handed to readers: entry plus the owning user.
#[derive(Debug)]
pub struct PresenceSnapshot {
    pub user_id: String,
    pub entry: PresenceEntry,
}

/// What an entry is.
pub struct PresenceEntryV {
    pub presence: Seq<char>,
    pub status_msg: Option<Seq<char>>,
    pub last_active: u64,
    pub changed_at: u64,
}

/// What a snapshot is.
pub struct PresenceSnapshotV {
    pub user_id: Seq<char>,
    pub entry: PresenceEntryV,
}

impl View for PresenceEntry {
    type V = PresenceEntryV;

    open spec fn view(&self) -> PresenceEntryV {
        PresenceEntryV {
            presence: self.presence@,
            status_msg: opt_text(self.status_msg),
            last_active: self.last_active,
            changed_at: self.changed_at,
        }
    }
}

impl View for PresenceSnapshot {
    type V = PresenceSnapshotV;

    open spec fn view(&self) -> PresenceSnapshotV {
        PresenceSnapshotV { user_id: self.user_id@, entry: self.entry@ }
    }
}

/// Hard cap on tracked users. Inbound federation `m.presence` EDUs carry
/// remote-controlled user ids, so without a bound a malicious server could
/// grow the table without limit. At the cap the least-recently-active users
/// are evicted.
pub const MAX_PRESENCE_USERS: usize = 50_000;

/// How many users an eviction leaves.
pub const PRESENCE_USERS_KEPT: usize = 45_000;

/// Per-user presence with a global change generation.
#[derive(Debug)]
pub struct PresenceMap {
    users: Vec<PresenceSnapshot>,
    gen: u64,
}

/// What a presence map is: its users in the order in which they came, and the
/// generation of the latest change.
#[verifier::ext_equal]
pub struct PresenceMapV {
    pub users: Seq<PresenceSnapshotV>,
    pub gen: u64,
}

pub open spec fn snapshot_views(s: Seq<PresenceSnapshot>) -> Seq<PresenceSnapshotV> {
    s.map_values(|x: PresenceSnapshot| x@)
}

/// Where a user stands in the table, from position `from` on.
pub open spec fn user_index(users: Seq<PresenceSnapshotV>, user: Seq<char>, from: int) -> Option<int>
    decreases users.len() - from,
{
    if from < 0 || from >= users.len() {
        None
    } else if users[from].user_id == user {
        Some(from)
    } else {
        user_index(users, user, from + 1)
    }
}

/// The entry of a user.
pub open spec fn entry_of(users: Seq<PresenceSnapshotV>, user: Seq<char>) -> Option<PresenceEntryV> {
    match user_index(users, user, 0) {
        Some(i) => Some(users[i].entry),
        None => None,
    }
}

/// The times of last activity.
pub open spec fn active_times(users: Seq<PresenceSnapshotV>) -> Seq<u64> {
    users.map_values(|x: PresenceSnapshotV| x.entry.last_active)
}

/// A user that was never seen.
pub open spec fn unseen(now: u64) -> PresenceEntryV {
    PresenceEntryV { presence: Seq::empty(), status_msg: None, last_active: now, changed_at: 0 }
}

/// Does a report change what others see of an entry?
pub open spec fn report_changes(
    e: PresenceEntryV,
    presence: Seq<char>,
    status: Option<Option<Seq<char>>>,
) -> bool {
    e.presence != presence || (status matches Some(msg) && e.status_msg != msg)
}

/// An entry after a report.
pub open spec fn reported(
    e: PresenceEntryV,
    presence: Seq<char>,
    status: Option<Option<Seq<char>>>,
    now: u64,
    gen: u64,
) -> PresenceEntryV {
    PresenceEntryV {
        presence,
        status_msg: match status {
            Some(msg) => msg,
            None => e.status_msg,
        },
        last_active: now,
        changed_at: if report_changes(e, presence, status) {
            (gen + 1) as u64
        } else {
            e.changed_at
        },
    }
}

/// The entry that a report meets.
pub open spec fn met_entry(m: PresenceMapV, user: Seq<char>, now: u64) -> PresenceEntryV {
    match entry_of(m.users, user) {
        Some(e) => e,
        None => unseen(now),
    }
}

/// The table after a report, before anyone is evicted.
pub open spec fn touched(
    m: PresenceMapV,
    user: Seq<char>,
    presence: Seq<char>,
    status: Option<Option<Seq<char>>>,
    now: u64,
) -> PresenceMapV {
    let old = met_entry(m, user, now);
    let new = PresenceSnapshotV {
        user_id: user,
        entry: reported(old, presence, status, now, m.gen),
    };
    PresenceMapV {
        users: match user_index(m.users, user, 0) {
            Some(i) => m.users.update(i, new),
            None => m.users.push(new),
        },
        gen: if report_changes(old, presence, status) {
            (m.gen + 1) as u64
        } else {
            m.gen
        },
    }
}

/// The users with the least recently active gone, if there are too many. Of users
/// who were last active at one moment those go first that came first.
pub open spec fn bounded(users: Seq<PresenceSnapshotV>) -> Seq<PresenceSnapshotV> {
    if users.len() <= MAX_PRESENCE_USERS {
        users
    } else {
        survivors(
            users,
            active_times(users),
            users.len() - PRESENCE_USERS_KEPT,
            users.len() as int,
        )
    }
}

/// The table after a report.
pub open spec fn updated(
    m: PresenceMapV,
    user: Seq<char>,
    presence: Seq<char>,
    status: Option<Option<Seq<char>>>,
    now: u64,
) -> PresenceMapV {
    let t = touched(m, user, presence, status, now);
    PresenceMapV { users: bounded(t.users), gen: t.gen }
}

/// No user stands in the table twice, and no change is newer than the
/// generation.
pub open spec fn tidy(m: PresenceMapV) -> bool {
    &&& forall|i: int, j: int|
        #![trigger m.users[i], m.users[j]]
        0 <= i < j < m.users.len() ==> m.users[i].user_id != m.users[j].user_id
    &&& forall|i: int|
        0 <= i < m.users.len() ==> (#[trigger] m.users[i]).entry.changed_at <= m.gen
}

/// A tidy table within the hard cap.
pub open spec fn presence_wf(m: PresenceMapV) -> bool {
    m.users.len() <= MAX_PRESENCE_USERS && tidy(m)
}

proof fn lemma_user_index(users: Seq<PresenceSnapshotV>, user: Seq<char>, from: int)
    requires
        0 <= from,
    ensures
        user_index(users, user, from) matches Some(i) ==> from <= i < users.len()
            && users[i].user_id == user,
        user_index(users, user, from) is None ==> forall|j: int|
            from <= j < users.len() ==> (#[trigger] users[j]).user_id != user,
    decreases users.len() - from,
{
    if from < users.len() && users[from].user_id != user {
        lemma_user_index(users, user, from + 1);
    }
}

/// A report keeps the table well formed.
proof fn lemma_touched_wf(
    m: PresenceMapV,
    user: Seq<char>,
    presence: Seq<char>,
    status: Option<Option<Seq<char>>>,
    now: u64,
)
    requires
        presence_wf(m),
        m.gen < u64::MAX,
    ensures
        tidy(touched(m, user, presence, status, now)),
{
    lemma_user_index(m.users, user, 0);
}

proof fn lemma_survivors_tidy(m: PresenceMapV, times: Seq<u64>, n: int, k: int)
    requires
        tidy(m),
        0 <= k <= m.users.len(),
    ensures
        tidy(PresenceMapV { users: survivors(m.users, times, n, k), gen: m.gen }),
    decreases k,
{
    if k > 0 {
        lemma_survivors_tidy(m, times, n, k - 1);
        lemma_survivors_were_there(m.users, times, n, k - 1);
        let init = survivors(m.users, times, n, k - 1);
        let out = survivors(m.users, times, n, k);
        assert forall|i: int, j: int|
            #![trigger out[i], out[j]]
            0 <= i < j < out.len() implies out[i].user_id != out[j].user_id by {
            assert(out[i] == init[i]);
            if j < init.len() {
                assert(out[j] == init[j]);
            } else {
                let x = choose|x: int| 0 <= x < k - 1 && m.users[x] == init[i];
                assert(m.users[x] == out[i]);
                assert(m.users[k - 1] == out[j]);
            }
        }
        assert forall|i: int| 0 <= i < out.len() implies (#[trigger] out[i]).entry.changed_at
            <= m.gen by {
            if i < init.len() {
                assert(out[i] == init[i]);
            } else {
                assert(m.users[k - 1] == out[i]);
            }
        }
    }
}

/// The table stays bounded: whoever reports what, no table exceeds the hard cap,
/// even where its users were all active at once. An eviction leaves exactly the
/// number that is kept.
pub proof fn law_table_stays_bounded(
    m: PresenceMapV,
    user: Seq<char>,
    presence: Seq<char>,
    status: Option<Option<Seq<char>>>,
    now: u64,
)
    ensures
        updated(m, user, presence, status, now).users.len() <= MAX_PRESENCE_USERS,
        touched(m, user, presence, status, now).users.len() > MAX_PRESENCE_USERS ==> updated(
            m,
            user,
            presence,
            status,
            now,
        ).users.len() == PRESENCE_USERS_KEPT,
{
    let users = touched(m, user, presence, status, now).users;
    if users.len() > MAX_PRESENCE_USERS {
        law_exactly_so_many_go(users, active_times(users), users.len() - PRESENCE_USERS_KEPT);
    }
}

/// A report that says nothing new changes no generation, and a report that
/// says something new is seen by everyone who had seen all before it.
pub proof fn law_changes_are_seen(
    m: PresenceMapV,
    user: Seq<char>,
    presence: Seq<char>,
    status: Option<Option<Seq<char>>>,
    now: u64,
)
    requires
        m.gen < u64::MAX,
    ensures
        touched(m, user, presence, status, now).gen == m.gen || touched(
            m,
            user,
            presence,
            status,
            now,
        ).gen == m.gen + 1,
        touched(m, user, presence, status, now).gen == m.gen <==> !report_changes(
            met_entry(m, user, now),
            presence,
            status,
        ),
        touched(m, user, presence, status, now).gen > m.gen ==> (entry_of(
            touched(m, user, presence, status, now).users,
            user,
        ) matches Some(e) && e.changed_at > m.gen),
{
    lemma_user_index(m.users, user, 0);
    let t = touched(m, user, presence, status, now);
    match user_index(m.users, user, 0) {
        Some(i) => {
            lemma_index_update(m.users, user, 0, i, t.users[i]);
        },
        None => {
            lemma_index_push(m.users, user, 0, t.users[m.users.len() as int]);
        },
    }
}

proof fn lemma_index_update(
    users: Seq<PresenceSnapshotV>,
    user: Seq<char>,
    from: int,
    i: int,
    new: PresenceSnapshotV,
)
    requires
        0 <= from,
        user_index(users, user, from) == Some(i),
        new.user_id == user,
    ensures
        user_index(users.update(i, new), user, from) == Some(i),
    decreases users.len() - from,
{
    lemma_user_index(users, user, from);
    if users[from].user_id != user {
        lemma_index_update(users, user, from + 1, i, new);
    }
}

proof fn lemma_index_push(
    users: Seq<PresenceSnapshotV>,
    user: Seq<char>,
    from: int,
    new: PresenceSnapshotV,
)
    requires
        0 <= from <= users.len(),
        user_index(users, user, from) is None,
        new.user_id == user,
    ensures
        user_index(users.push(new), user, from) == Some(users.len() as int),
    decreases users.len() - from,
{
    if from < users.len() {
        lemma_index_push(users, user, from + 1, new);
    }
}

/// Where the reporter stands once the report is in: last, where the table is over
/// the cap.
proof fn lemma_reporter_place(
    m: PresenceMapV,
    user: Seq<char>,
    presence: Seq<char>,
    status: Option<Option<Seq<char>>>,
    now: u64,
) -> (k: int)
    requires
        presence_wf(m),
    ensures
        ({
            let t = touched(m, user, presence, status, now).users;
            &&& 0 <= k < t.len()
            &&& t[k].user_id == user
            &&& t[k].entry == reported(met_entry(m, user, now), presence, status, now, m.gen)
            &&& t.len() > MAX_PRESENCE_USERS ==> k == t.len() - 1
            &&& forall|i: int|
                0 <= i < t.len() && i != k ==> i < m.users.len() && #[trigger] t[i] == m.users[i]
        }),
{
    lemma_user_index(m.users, user, 0);
    match user_index(m.users, user, 0) {
        Some(i) => i,
        None => m.users.len() as int,
    }
}

proof fn lemma_last_survivor<T>(s: Seq<T>, times: Seq<u64>, n: int)
    requires
        s.len() == times.len(),
        0 <= n < s.len(),
        rank(times, times.len() - 1) >= n,
    ensures
        survivors(s, times, n, s.len() as int) == survivors(s, times, n, s.len() - 1).push(
            s.last(),
        ),
{
}

/// The user who just reported is never the one evicted, as long as the clock
/// does not run backwards.
pub proof fn law_reporter_stays(
    m: PresenceMapV,
    user: Seq<char>,
    presence: Seq<char>,
    status: Option<Option<Seq<char>>>,
    now: u64,
)
    requires
        presence_wf(m),
        m.gen < u64::MAX,
        forall|i: int|
            0 <= i < m.users.len() ==> (#[trigger] m.users[i]).entry.last_active <= now,
    ensures
        exists|i: int|
            0 <= i < updated(m, user, presence, status, now).users.len() && (
            #[trigger] updated(m, user, presence, status, now).users[i]).user_id == user
                && updated(m, user, presence, status, now).users[i].entry.last_active == now,
{
    let t = touched(m, user, presence, status, now).users;
    let after = updated(m, user, presence, status, now).users;
    let k = lemma_reporter_place(m, user, presence, status, now);
    if t.len() > MAX_PRESENCE_USERS {
        let times = active_times(t);
        let n = t.len() - PRESENCE_USERS_KEPT;
        assert forall|i: int| 0 <= i < times.len() implies times[i] <= times.last() by {
            assert(times[i] == t[i].entry.last_active);
        }
        law_the_newest_stays(times, n);
        lemma_last_survivor(t, times, n);
        assert(after.last() == t[k]);
        assert(after[after.len() - 1].user_id == user);
    } else {
        assert(after[k].user_id == user);
    }
}

fn copy_opt(o: &Option<String>) -> (r: Option<String>)
    ensures
        opt_text(r) == opt_text(*o),
{
    match o {
        Some(s) => Some(s.as_str().to_owned()),
        None => None,
    }
}

fn same_opt(a: &Option<String>, b: &Option<String>) -> (r: bool)
    ensures
        r == (opt_text(*a) == opt_text(*b)),
{
    match (a, b) {
        (Some(x), Some(y)) => same_text(x.as_str(), y.as_str()),
        (None, None) => true,
        _ => false,
    }
}

impl PresenceEntry {
    pub fn copy(&self) -> (r: PresenceEntry)
        ensures
            r@ == self@,
    {
        PresenceEntry {
            presence: self.presence.as_str().to_owned(),
            status_msg: copy_opt(&self.status_msg),
            last_active: self.last_active,
            changed_at: self.changed_at,
        }
    }
}

impl PresenceSnapshot {
    pub fn copy(&self) -> (r: PresenceSnapshot)
        ensures
            r@ == self@,
    {
        PresenceSnapshot { user_id: self.user_id.as_str().to_owned(), entry: self.entry.copy() }
    }
}

impl View for PresenceMap {
    type V = PresenceMapV;

    closed spec fn view(&self) -> PresenceMapV {
        PresenceMapV { users: snapshot_views(self.users@), gen: self.gen }
    }
}

impl PresenceMap {
    pub open spec fn wf(self) -> bool {
        presence_wf(self@)
    }

    pub fn new() -> (r: PresenceMap)
        ensures
            r@ == (PresenceMapV { users: Seq::empty(), gen: 0 }),
            r.wf(),
    {
        let r = PresenceMap { users: Vec::new(), gen: 0 };
        proof {
            assert(r@.users =~= Seq::empty());
        }
        r
    }

    /// Generation of the latest change (sync token component).
    pub fn generation(&self) -> (r: u64)
        ensures
            r == self@.gen,
    {
        self.gen
    }

    fn find(&self, user_id: &str) -> (r: Option<usize>)
        ensures
            r is Some <==> user_index(self@.users, user_id@, 0) is Some,
            r matches Some(i) ==> i < self.users.len() && user_index(self@.users, user_id@, 0)
                == Some(i as int),
    {
        let mut i: usize = 0;
        while i < self.users.len()
            invariant
                i <= self.users.len(),
                user_index(self@.users, user_id@, 0) == user_index(
                    self@.users,
                    user_id@,
                    i as int,
                ),
            decreases self.users.len() - i,
        {
            proof {
                assert(self@.users[i as int] == self.users@[i as int]@);
            }
            if same_text(self.users[i].user_id.as_str(), user_id) {
                return Some(i);
            }
            i += 1;
        }
        None
    }

    /// Set presence from an explicit PUT. `status_msg: None` clears any
    /// previous message (the field is whole-state). Tells whether others see a
    /// change.
    pub fn set(&mut self, user_id: &str, presence: &str, status_msg: Option<String>, now: u64) -> (r:
        bool)
        requires
            old(self).wf(),
            old(self)@.gen < u64::MAX,
        ensures
            final(self).wf(),
            final(self)@ == updated(
                old(self)@,
                user_id@,
                presence@,
                Some(opt_text(status_msg)),
                now,
            ),
            r == (final(self)@.gen > old(self)@.gen),
    {
        self.update(user_id, presence, Some(status_msg), now)
    }

    /// Set presence as a side effect of `/sync?set_presence=`; the status
    /// message is left as-is. Tells whether others see a change.
    pub fn set_active(&mut self, user_id: &str, presence: &str, now: u64) -> (r: bool)
        requires
            old(self).wf(),
            old(self)@.gen < u64::MAX,
        ensures
            final(self).wf(),
            final(self)@ == updated(old(self)@, user_id@, presence@, None, now),
            r == (final(self)@.gen > old(self)@.gen),
    {
        self.update(user_id, presence, None, now)
    }

    fn update(
        &mut self,
        user_id: &str,
        presence: &str,
        status_msg: Option<Option<String>>,
        now: u64,
    ) -> (r: bool)
        requires
            old(self).wf(),
            old(self)@.gen < u64::MAX,
        ensures
            final(self).wf(),
            final(self)@ == updated(
                old(self)@,
                user_id@,
                presence@,
                opt_opt(status_msg),
                now,
            ),
            r == (final(self)@.gen > old(self)@.gen),
    {
        let ghost before = self@;
        let ghost status = opt_opt(status_msg);
        let found = self.find(user_id);
        let mut entry = match found {
            Some(i) => self.users[i].entry.copy(),
            None => PresenceEntry {
                presence: String::new(),
                status_msg: None,
                last_active: now,
                changed_at: 0,
            },
        };
        let ghost met = entry@;
        let mut changed = !same_text(entry.presence.as_str(), presence);
        entry.presence = presence.to_owned();
        entry.last_active = now;
        match status_msg {
            Some(msg) => {
                if !same_opt(&entry.status_msg, &msg) {
                    changed = true;
                }
                entry.status_msg = msg;
            },
            None => {},
        }
        if changed {
            self.gen = self.gen + 1;
            entry.changed_at = self.gen;
        }
        proof {
            assert(met == met_entry(before, user_id@, now)) by {
                match found {
                    Some(i) => {
                        assert(before.users[i as int] == self.users@[i as int]@);
                    },
                    None => {
                        assert(met.presence =~= Seq::empty());
                    },
                }
            }
            assert(changed == report_changes(met, presence@, status));
            assert(entry@ == reported(met, presence@, status, now, before.gen));
        }
        let snapshot = PresenceSnapshot { user_id: user_id.to_owned(), entry };
        let ghost new = snapshot@;
        match found {
            Some(i) => {
                self.users.set(i, snapshot);
                proof {
                    assert(self@.users =~= before.users.update(i as int, new));
                }
            },
            None => {
                self.users.push(snapshot);
                proof {
                    assert(self@.users =~= before.users.push(new));
                }
            },
        }
        proof {
            assert(self@ == touched(before, user_id@, presence@, status, now));
            lemma_touched_wf(before, user_id@, presence@, status, now);
        }
        self.evict();
        changed
    }

    /// Bound the table: evict least-recently-active users once over the cap.
    fn evict(&mut self)
        requires
            tidy(old(self)@),
        ensures
            final(self).wf(),
            final(self)@.gen == old(self)@.gen,
            final(self)@.users == bounded(old(self)@.users),
    {
        if self.users.len() <= MAX_PRESENCE_USERS {
            return;
        }
        let ghost before = self@;
        let n = self.users.len() - PRESENCE_USERS_KEPT;
        let mut times: Vec<u64> = Vec::new();
        let mut i: usize = 0;
        while i < self.users.len()
            invariant
                i <= self.users.len(),
                times.len() == i,
                forall|j: int| 0 <= j < i ==> times@[j] == self.users@[j].entry.last_active,
            decreases self.users.len() - i,
        {
            times.push(self.users[i].entry.last_active);
            i += 1;
        }
        let ghost at = active_times(before.users);
        proof {
            assert(times@ =~= at);
        }
        let stays = staying(times, n);
        let mut kept: Vec<PresenceSnapshot> = Vec::new();
        let mut i: usize = 0;
        proof {
            assert(snapshot_views(kept@) =~= Seq::empty());
        }
        while i < self.users.len()
            invariant
                i <= self.users.len(),
                before == self@,
                stays@.len() == self.users@.len(),
                forall|j: int|
                    0 <= j < stays@.len() ==> #[trigger] stays@[j] == (rank(at, j) >= n),
                snapshot_views(kept@) == survivors(before.users, at, n as int, i as int),
            decreases self.users.len() - i,
        {
            proof {
                assert(before.users[i as int] == self.users@[i as int]@);
            }
            if stays[i] {
                let x = self.users[i].copy();
                proof {
                    assert(snapshot_views(kept@.push(x)) =~= snapshot_views(kept@).push(x@));
                }
                kept.push(x);
            }
            i += 1;
        }
        self.users = kept;
        proof {
            law_exactly_so_many_go(before.users, at, n as int);
            lemma_survivors_tidy(before, at, n as int, before.users.len() as int);
        }
    }

    /// A user's entry.
    pub fn get(&self, user_id: &str) -> (r: Option<PresenceEntry>)
        ensures
            r is Some <==> entry_of(self@.users, user_id@) is Some,
            r matches Some(e) ==> entry_of(self@.users, user_id@) == Some(e@),
    {
        match self.find(user_id) {
            Some(i) => {
                proof {
                    assert(self@.users[i as int] == self.users@[i as int]@);
                }
                Some(self.users[i].entry.copy())
            },
            None => None,
        }
    }

    /// All entries that changed after `since_gen`.
    pub fn changed_since(&self, since_gen: u64) -> (r: Vec<PresenceSnapshot>)
        ensures
            snapshot_views(r@) == changed_after(self@.users, since_gen),
    {
        let mut out: Vec<PresenceSnapshot> = Vec::new();
        let mut i: usize = 0;
        let ghost p = |x: PresenceSnapshotV| x.entry.changed_at > since_gen;
        proof {
            reveal(Seq::filter);
            assert(self@.users.take(0) =~= Seq::empty());
            assert(snapshot_views(out@) =~= self@.users.take(0).filter(p));
        }
        while i < self.users.len()
            invariant
                i <= self.users.len(),
                p == (|x: PresenceSnapshotV| x.entry.changed_at > since_gen),
                snapshot_views(out@) == self@.users.take(i as int).filter(p),
            decreases self.users.len() - i,
        {
            proof {
                reveal(Seq::filter);
                assert(self@.users.take(i + 1).drop_last() =~= self@.users.take(i as int));
                assert(self@.users.take(i + 1).last() == self.users@[i as int]@);
            }
            if self.users[i].entry.changed_at > since_gen {
                let x = self.users[i].copy();
                proof {
                    assert(snapshot_views(out@.push(x)) =~= snapshot_views(out@).push(x@));
                }
                out.push(x);
            }
            i += 1;
        }
        proof {
            assert(self@.users.take(self@.users.len() as int) =~= self@.users);
        }
        out
    }
}

/// The users whose entries changed after a generation.
pub open spec fn changed_after(users: Seq<PresenceSnapshotV>, gen: u64) -> Seq<PresenceSnapshotV> {
    users.filter(|x: PresenceSnapshotV| x.entry.changed_at > gen)
}

/// Nobody changed after the latest generation: a reader who is up to date
/// gets nothing.
pub proof fn law_up_to_date_sees_nothing(m: PresenceMapV)
    requires
        presence_wf(m),
    ensures
        changed_after(m.users, m.gen).len() == 0,
{
    let p = |x: PresenceSnapshotV| x.entry.changed_at > m.gen;
    m.users.lemma_all_neg_filter_empty(p);
}

/// A later mark shows no more: whoever changed after it had changed after an
/// earlier one too.
pub proof fn law_later_marks_show_less(m: PresenceMapV, s: u64, t: u64, x: PresenceSnapshotV)
    requires
        s <= t,
        changed_after(m.users, t).contains(x),
    ensures
        changed_after(m.users, s).contains(x),
{
    let p = |x: PresenceSnapshotV| x.entry.changed_at > t;
    let q = |x: PresenceSnapshotV| x.entry.changed_at > s;
    m.users.lemma_filter_contains_rev(p, x);
    let i = choose|i: int| 0 <= i < m.users.len() && m.users[i] == x;
    assert(p(x)) by {
        m.users.lemma_filter_pred(p, choose|k: int|
            0 <= k < changed_after(m.users, t).len() && changed_after(m.users, t)[k] == x);
    }
    m.users.lemma_filter_contains(q, i);
}

/// A user is shown once.
pub proof fn law_users_are_shown_once(m: PresenceMapV, since: u64, i: int, j: int)
    requires
        presence_wf(m),
        0 <= i < j < changed_after(m.users, since).len(),
    ensures
        changed_after(m.users, since)[i].user_id != changed_after(m.users, since)[j].user_id,
{
    assert(m.users.take(m.users.len() as int) =~= m.users);
    lemma_shown_once(m, m.users.len() as int, since, i, j);
}

proof fn lemma_shown_once(m: PresenceMapV, n: int, since: u64, i: int, j: int)
    requires
        tidy(m),
        0 <= n <= m.users.len(),
        0 <= i < j < changed_after(m.users.take(n), since).len(),
    ensures
        changed_after(m.users.take(n), since)[i].user_id != changed_after(
            m.users.take(n),
            since,
        )[j].user_id,
    decreases n,
{
    reveal(Seq::filter);
    let s = m.users.take(n);
    if n > 0 {
        assert(s.drop_last() =~= m.users.take(n - 1));
        let init = changed_after(s.drop_last(), since);
        let out = changed_after(s, since);
        if j < init.len() {
            lemma_shown_once(m, n - 1, since, i, j);
        } else {
            let p = |x: PresenceSnapshotV| x.entry.changed_at > since;
            s.drop_last().lemma_filter_contains_rev(p, init[i]);
            let x = choose|x: int| 0 <= x < s.drop_last().len() && s.drop_last()[x] == init[i];
            assert(m.users[x] == out[i]);
            assert(m.users[n - 1] == out[j]);
        }
    }
}

/// Right after a report that others see, exactly the reporter is new to whoever
/// had seen all before it, as long as the clock does not run backwards.
pub proof fn law_only_the_reporter_is_new(
    m: PresenceMapV,
    user: Seq<char>,
    presence: Seq<char>,
    status: Option<Option<Seq<char>>>,
    now: u64,
)
    requires
        presence_wf(m),
        m.gen < u64::MAX,
        forall|i: int|
            0 <= i < m.users.len() ==> (#[trigger] m.users[i]).entry.last_active <= now,
        updated(m, user, presence, status, now).gen > m.gen,
    ensures
        changed_after(updated(m, user, presence, status, now).users, m.gen) == seq![
            PresenceSnapshotV {
                user_id: user,
                entry: reported(met_entry(m, user, now), presence, status, now, m.gen),
            },
        ],
{
    let t = touched(m, user, presence, status, now).users;
    let after = updated(m, user, presence, status, now).users;
    let k = lemma_reporter_place(m, user, presence, status, now);
    if t.len() > MAX_PRESENCE_USERS {
        let times = active_times(t);
        let n = t.len() - PRESENCE_USERS_KEPT;
        assert forall|i: int| 0 <= i < times.len() implies times[i] <= times.last() by {
            assert(times[i] == t[i].entry.last_active);
        }
        law_the_newest_stays(times, n);
        lemma_last_survivor(t, times, n);
        let init = survivors(t, times, n, t.len() - 1);
        lemma_survivors_were_there(t, times, n, t.len() - 1);
        assert forall|i: int| 0 <= i < init.len() implies (#[trigger] init[i]).entry.changed_at
            <= m.gen by {
            let j = choose|j: int| 0 <= j < t.len() - 1 && t[j] == init[i];
            assert(t[j] == m.users[j]);
        }
        assert(after == init.push(t[k]));
        lemma_only_one(after, m.gen, after.len() - 1);
    } else {
        lemma_only_one(after, m.gen, k);
    }
}

proof fn lemma_only_one(users: Seq<PresenceSnapshotV>, gen: u64, k: int)
    requires
        0 <= k < users.len(),
        users[k].entry.changed_at > gen,
        forall|i: int|
            0 <= i < users.len() && i != k ==> (#[trigger] users[i]).entry.changed_at <= gen,
    ensures
        changed_after(users, gen) == seq![users[k]],
    decreases users.len(),
{
    reveal(Seq::filter);
    let p = |x: PresenceSnapshotV| x.entry.changed_at > gen;
    let init = users.drop_last();
    if k < users.len() - 1 {
        assert forall|i: int| 0 <= i < init.len() && i != k implies (
        #[trigger] init[i]).entry.changed_at <= gen by {
            assert(init[i] == users[i]);
        }
        lemma_only_one(init, gen, k);
        assert(users.last() == users[users.len() - 1]);
    } else {
        assert forall|i: int| 0 <= i < init.len() implies !p(#[trigger] init[i]) by {
            assert(init[i] == users[i]);
        }
        init.lemma_all_neg_filter_empty(p);
        assert(init.filter(p) =~= Seq::empty());
        assert(changed_after(users, gen) =~= seq![users[k]]);
    }
}

pub open spec fn opt_opt(o: Option<Option<String>>) -> Option<Option<Seq<char>>> {
    match o {
        Some(m) => Some(opt_text(m)),
        None => None,
    }
}

/// A report is kept: the user has the presence that was reported, and is active
/// now; what they say of it is what was reported, or what it was where nothing
/// was. Nobody else changes, while there is room.
pub proof fn law_reports_are_kept(
    m: PresenceMapV,
    user: Seq<char>,
    presence: Seq<char>,
    status: Option<Option<Seq<char>>>,
    now: u64,
    other: Seq<char>,
)
    requires
        presence_wf(m),
        m.users.len() < MAX_PRESENCE_USERS,
    ensures
        ({
            let after = updated(m, user, presence, status, now).users;
            &&& entry_of(after, user) matches Some(e) && e.presence == presence && e.last_active
                == now && e.status_msg == (match status {
                Some(msg) => msg,
                None => match entry_of(m.users, user) {
                    Some(old) => old.status_msg,
                    None => None,
                },
            })
            &&& other != user ==> entry_of(after, other) == entry_of(m.users, other)
        }),
{
    let t = touched(m, user, presence, status, now).users;
    let k = lemma_reporter_place(m, user, presence, status, now);
    lemma_user_index(m.users, user, 0);
    lemma_user_index(m.users, other, 0);
    lemma_user_index(t, user, 0);
    lemma_user_index(t, other, 0);
    let at = user_index(t, user, 0);
    match user_index(m.users, user, 0) {
        Some(i) => {
            lemma_index_update(m.users, user, 0, i, t[i]);
            assert(t =~= m.users.update(i, t[i]));
        },
        None => {
            lemma_index_push(m.users, user, 0, t[m.users.len() as int]);
            assert(t =~= m.users.push(t[m.users.len() as int]));
        },
    }
    assert(at == Some(k));
    if other != user {
        match user_index(m.users, other, 0) {
            Some(j) => {
                assert(t[j] == m.users[j]);
                let q = user_index(t, other, 0)->0;
                assert(t[q].user_id == other);
                assert(q != k);
                assert(m.users[q] == t[q]);
                if q != j {
                    let (a, b) = if q < j {
                        (q, j)
                    } else {
                        (j, q)
                    };
                    assert(m.users[a].user_id != m.users[b].user_id);
                }
            },
            None => {
                if user_index(t, other, 0) is Some {
                    let q = user_index(t, other, 0)->0;
                    assert(q != k);
                    assert(m.users[q] == t[q]);
                }
            },
        }
    }
}

/// A report is a change exactly where it says another presence than before, or
/// another status; the first report of a user is one.
pub proof fn law_news_are_changes(
    m: PresenceMapV,
    user: Seq<char>,
    presence: Seq<char>,
    status: Option<Option<Seq<char>>>,
    now: u64,
)
    requires
        m.gen < u64::MAX,
        presence.len() > 0,
    ensures
        updated(m, user, presence, status, now).gen > m.gen <==> (match entry_of(m.users, user) {
            None => true,
            Some(e) => e.presence != presence || (status is Some && status->0 != e.status_msg),
        }),
{
}

/// What changed since a mark is what is marked later, every bit of it.
pub proof fn law_later_changes_are_shown(users: Seq<PresenceSnapshotV>, gen: u64, i: int)
    requires
        0 <= i < users.len(),
    ensures
        users[i].entry.changed_at > gen ==> changed_after(users, gen).contains(users[i]),
        users[i].entry.changed_at <= gen ==> !changed_after(users, gen).contains(users[i]),
{
    let keep = |x: PresenceSnapshotV| x.entry.changed_at > gen;
    if users[i].entry.changed_at > gen {
        users.lemma_filter_contains(keep, i);
    }
    if changed_after(users, gen).contains(users[i]) {
        let k = choose|k: int|
            0 <= k < changed_after(users, gen).len() && changed_after(users, gen)[k] == users[i];
        users.lemma_filter_pred(keep, k);
    }
}

} // verus!
