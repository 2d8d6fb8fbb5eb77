use vstd::prelude::*;
use crate::types::{
    Event, bytes_eq, bytes_clone, lex_less, lex_compare, is_replaceable_kind,
    is_param_replaceable_kind, replaceable_kind, param_replaceable_kind,
};
use crate::filter::{Filter, filter_matches, event_matches};
use crate::table::{tbl_lookup, tbl_get, tbl_set, tbl_keys_with_bool, lemma_tbl_lookup_key_exists};
use crate::ipban::IpData;

verus! {

/// The value of the first `d` tag of an event, or empty when there is none;
/// the third component of the key of parameterized-replaceable events.
pub open spec fn d_value_of(tags: Seq<Seq<Seq<u8>>>) -> Seq<u8>
    decreases tags.len(),
{
    if tags.len() == 0 {
        Seq::empty()
    } else if tags[0].len() >= 2 && tags[0][0] == seq![100u8] {
        tags[0][1]
    } else {
        d_value_of(tags.drop_first())
    }
}

/// Compute the `d` tag value of an event.
pub fn d_value(tags: &Vec<Vec<Vec<u8>>>) -> (r: Vec<u8>)
    ensures
        r@ == d_value_of(tags.deep_view()),
{
    let ghost dv = tags.deep_view();
    let mut i: usize = 0;
    proof {
        assert(dv.skip(0) =~= dv);
    }
    while i < tags.len()
        invariant
            0 <= i <= tags@.len(),
            dv == tags.deep_view(),
            dv.len() == tags@.len(),
            d_value_of(dv) == d_value_of(dv.skip(i as int)),
        decreases tags@.len() - i,
    {
        proof {
            assert(dv.skip(i as int)[0] == dv[i as int]);
            assert(dv.skip(i as int).drop_first() =~= dv.skip(i as int + 1));
            assert(dv[i as int].len() == tags@[i as int]@.len());
        }
        let tag = &tags[i];
        if tag.len() >= 2 && tag[0].len() == 1 && tag[0].as_slice()[0] == 100 {
            proof {
                assert(dv[i as int][0] =~= seq![100u8]);
                assert(dv[i as int][1] == tags@[i as int]@[1]@);
            }
            return bytes_clone(tags[i][1].as_slice());
        }
        proof {
            if dv[i as int].len() >= 2 {
                assert(dv[i as int][0] == tags@[i as int]@[0]@);
                assert(!(dv[i as int][0] =~= seq![100u8]));
            }
        }
        i = i + 1;
    }
    Vec::new()
}

/// Whether a kind falls in either replaceable class.
pub open spec fn replaceable_class(kind: u16) -> bool {
    is_replaceable_kind(kind) || is_param_replaceable_kind(kind)
}

/// Two events share a replacement key: same pubkey and kind, and for the
/// parameterized class also the same `d` tag value.
pub open spec fn repl_key_eq(a: Event, b: Event) -> bool {
    a.kind == b.kind && a.pubkey@ == b.pubkey@ && (is_param_replaceable_kind(a.kind)
        ==> d_value_of(a.tags.deep_view()) == d_value_of(b.tags.deep_view()))
}

/// The replacement order: a newer created_at wins; on a tie the
/// lexicographically smaller id wins.
pub open spec fn supersedes(a: Event, b: Event) -> bool {
    a.created_at > b.created_at || (a.created_at == b.created_at && lex_less(a.id@, b.id@))
}

/// Decide the replacement order between two events.
pub fn supersedes_exec(a: &Event, b: &Event) -> (r: bool)
    ensures
        r == supersedes(*a, *b),
{
    if a.created_at > b.created_at {
        true
    } else if a.created_at == b.created_at {
        lex_compare(a.id.as_slice(), b.id.as_slice())
    } else {
        false
    }
}

/// Decide whether two events share a replacement key.
pub fn repl_key_eq_exec(a: &Event, b: &Event) -> (r: bool)
    ensures
        r == repl_key_eq(*a, *b),
{
    if a.kind != b.kind {
        return false;
    }
    if !bytes_eq(a.pubkey.as_slice(), b.pubkey.as_slice()) {
        return false;
    }
    if param_replaceable_kind(a.kind) {
        let da = d_value(&a.tags);
        let db = d_value(&b.tags);
        bytes_eq(da.as_slice(), db.as_slice())
    } else {
        true
    }
}

/// One persisted row of the event log.
pub struct StoredEvent {
    pub event: Event,
    pub commit_time: u64,
}

/// What becomes of a store_event call.
#[derive(Debug)]
pub enum StoreError {
    /// The id is already known.
    Duplicate,
    /// A current entry with the same replacement key is as new or newer.
    Superseded,
}

/// The moderation status a pubkey can hold in the authorized-user table.
#[derive(Clone, Copy, PartialEq, Eq, Structural)]
pub enum UserRole {
    Regular,
    Moderator,
    Removed,
}

/// The event store: an append-only log keyed by offset, a liveness mark per
/// offset, the moderation overlays, the authorized-user table, and the
/// per-IP accounting table.
pub struct EventStore {
    pub events: Vec<StoredEvent>,
    pub live: Vec<bool>,
    pub event_approval: Vec<(Vec<u8>, bool)>,
    pub pubkey_approval: Vec<(Vec<u8>, bool)>,
    pub users: Vec<(Vec<u8>, UserRole)>,
    pub ip_data: Vec<(Vec<u8>, IpData)>,
}

impl EventStore {
    /// Store invariant: offsets and liveness marks line up; every event is
    /// well-formed; ids are unique; commit times are monotone in offset
    /// order; and per replacement key at most one entry is current.
    pub open spec fn wf(self) -> bool {
        &&& self.live@.len() == self.events@.len()
        &&& forall|i: int| 0 <= i < self.events@.len() ==> (#[trigger] self.events@[i].event).wf()
        &&& forall|i: int, j: int|
            0 <= i < j < self.events@.len() ==> self.events@[i].event.id@
                != self.events@[j].event.id@
        &&& forall|i: int, j: int|
            0 <= i < j < self.events@.len() ==> self.events@[i].commit_time
                <= self.events@[j].commit_time
        &&& forall|i: int, j: int|
            0 <= i < self.events@.len() && 0 <= j < self.events@.len() && i != j && self.live@[i]
                && self.live@[j] && replaceable_class(self.events@[i].event.kind) ==> !repl_key_eq(
                self.events@[i].event,
                self.events@[j].event,
            )
    }

    /// An empty store.
    pub fn new() -> (r: EventStore)
        ensures
            r.wf(),
            r.events@.len() == 0,
            r.event_approval@.len() == 0,
            r.pubkey_approval@.len() == 0,
            r.users@.len() == 0,
            r.ip_data@.len() == 0,
    {
        EventStore {
            events: Vec::new(),
            live: Vec::new(),
            event_approval: Vec::new(),
            pubkey_approval: Vec::new(),
            users: Vec::new(),
            ip_data: Vec::new(),
        }
    }

    /// The commit time the next append will carry: the wall clock, clamped
    /// so that commit times never move backwards.
    pub open spec fn next_commit_time(self, now: u64) -> u64 {
        if self.events@.len() == 0 || now >= self.events@.last().commit_time {
            now
        } else {
            self.events@.last().commit_time
        }
    }

    /// Is some entry (current or not) already stored under this id?
    pub open spec fn knows_id(self, id: Seq<u8>) -> bool {
        exists|k: int| 0 <= k < self.events@.len() && self.events@[k].event.id@ == id
    }

    /// Is there a current entry with the same replacement key that the new
    /// event does not supersede?
    pub open spec fn blocked_by_current(self, e: Event) -> bool {
        exists|k: int|
            0 <= k < self.events@.len() && self.live@[k] && repl_key_eq(
                e,
                #[trigger] self.events@[k].event,
            ) && !supersedes(e, self.events@[k].event)
    }

    /// Append a validated event. Duplicates are rejected; an event of a
    /// replaceable class is rejected when a current entry with its key is as
    /// new or newer, and otherwise displaces that entry. On success the
    /// event is appended at the next offset with a monotone commit time.
    pub fn store_event(&mut self, e: Event, now: u64) -> (r: Result<usize, StoreError>)
        requires
            old(self).wf(),
            e.wf(),
        ensures
            final(self).wf(),
            (r matches Err(StoreError::Duplicate)) <==> old(self).knows_id(e.id@),
            r matches Err(StoreError::Superseded) <==> (!old(self).knows_id(e.id@)
                && replaceable_class(e.kind) && old(self).blocked_by_current(e)),
            r is Err ==> *final(self) == *old(self),
            r matches Ok(o) ==> ({
                &&& o == old(self).events@.len()
                &&& final(self).events@ == old(self).events@ + seq![
                    (StoredEvent {
                        event: e,
                        commit_time: old(self).next_commit_time(now),
                    }),
                ]
                &&& final(self).live@.len() == old(self).events@.len() + 1
                &&& final(self).live@[o as int]
                &&& forall|k: int|
                    0 <= k < old(self).events@.len() ==> final(self).live@[k] == (
                    old(self).live@[k] && !(replaceable_class(e.kind) && repl_key_eq(
                        e,
                        old(self).events@[k].event,
                    )))
                &&& final(self).event_approval == old(self).event_approval
                &&& final(self).pubkey_approval == old(self).pubkey_approval
                &&& final(self).users == old(self).users
                &&& final(self).ip_data == old(self).ip_data
            }),
    {
        // Duplicate check against every known id, current or not.
        let n = self.events.len();
        let mut k: usize = 0;
        while k < n
            invariant
                0 <= k <= n,
                *self == *old(self),
                old(self).wf(),
                e.wf(),
                n == self.events@.len(),
                forall|j: int| 0 <= j < k ==> self.events@[j].event.id@ != e.id@,
            decreases n - k,
        {
            if bytes_eq(self.events[k].event.id.as_slice(), e.id.as_slice()) {
                return Err(StoreError::Duplicate);
            }
            k = k + 1;
        }
        // Find the current entry sharing the replacement key, if any.
        let is_repl = {
            let a = replaceable_kind(e.kind);
            let b = param_replaceable_kind(e.kind);
            a || b
        };
        let mut found: Option<usize> = None;
        if is_repl {
            let mut k2: usize = 0;
            while k2 < n
                invariant
                    0 <= k2 <= n,
                    *self == *old(self),
                    old(self).wf(),
                    e.wf(),
                    is_repl == replaceable_class(e.kind),
                    n == self.events@.len(),
                    self.live@.len() == self.events@.len(),
                    found is None ==> forall|j: int|
                        0 <= j < k2 ==> !(self.live@[j] && repl_key_eq(
                            e,
                            #[trigger] self.events@[j].event,
                        )),
                    found matches Some(f) ==> 0 <= f < n && self.live@[f as int] && repl_key_eq(
                        e,
                        self.events@[f as int].event,
                    ),
                decreases n - k2,
            {
                if found.is_none() && self.live[k2] && repl_key_eq_exec(
                    &e,
                    &self.events[k2].event,
                ) {
                    found = Some(k2);
                }
                k2 = k2 + 1;
            }
        }
        match found {
            Some(f) => {
                if !supersedes_exec(&e, &self.events[f].event) {
                    return Err(StoreError::Superseded);
                }
                proof {
                    // No other current entry shares the key, so the one
                    // found is the only possible witness.
                    assert forall|k3: int|
                        0 <= k3 < self.events@.len() && self.live@[k3] && repl_key_eq(
                            e,
                            #[trigger] self.events@[k3].event,
                        ) implies k3 == f by {
                        if k3 != f {
                            assert(repl_key_eq(self.events@[f as int].event, self.events@[k3].event));
                        }
                    }
                }
                self.live[f] = false;
            },
            None => {
                proof {
                    if is_repl {
                        assert(!old(self).blocked_by_current(e));
                    }
                }
            },
        }
        // Append with a clamped commit time.
        let ct: u64 = if self.events.len() == 0 {
            now
        } else {
            let last = self.events[self.events.len() - 1].commit_time;
            if now >= last {
                now
            } else {
                last
            }
        };
        let offset = self.events.len();
        self.events.push(StoredEvent { event: e, commit_time: ct });
        self.live.push(true);
        proof {
            let fs = *self;
            let os = *old(self);
            assert(fs.events@.drop_last() =~= os.events@);
            assert(fs.events@ =~= os.events@ + seq![
                (StoredEvent { event: e, commit_time: os.next_commit_time(now) }),
            ]);
            assert forall|i: int, j: int| 0 <= i < j < fs.events@.len() implies fs.events@[i].commit_time
                <= fs.events@[j].commit_time by {
                if j == fs.events@.len() - 1 && os.events@.len() > 0 {
                    assert(os.events@[i].commit_time <= os.events@[os.events@.len() - 1].commit_time);
                }
            }
            assert forall|i: int, j: int|
                0 <= i < fs.events@.len() && 0 <= j < fs.events@.len() && i != j && fs.live@[i]
                    && fs.live@[j] && replaceable_class(fs.events@[i].event.kind) implies !repl_key_eq(
                fs.events@[i].event,
                fs.events@[j].event,
            ) by {
                let o = fs.events@.len() - 1;
                if i == o {
                    if repl_key_eq(fs.events@[i].event, fs.events@[j].event) {
                        assert(fs.live@[j] == os.live@[j]);
                        assert(repl_key_eq(e, os.events@[j].event));
                    }
                } else if j == o {
                    if repl_key_eq(fs.events@[i].event, fs.events@[j].event) {
                        assert(repl_key_eq(e, os.events@[i].event));
                    }
                } else {
                    assert(os.live@[i] && os.live@[j]);
                }
            }
        }
        Ok(offset)
    }

    /// Look an event up by offset.
    pub fn get_event(&self, offset: usize) -> (r: &Event)
        requires
            offset < self.events@.len(),
        ensures
            *r == self.events@[offset as int].event,
    {
        &self.events[offset].event
    }

    /// Is the entry at this offset current?
    pub fn is_live(&self, offset: usize) -> (r: bool)
        requires
            self.wf(),
            offset < self.events@.len(),
        ensures
            r == self.live@[offset as int],
    {
        self.live[offset]
    }

    /// The number of appended entries; also the next offset.
    pub fn len(&self) -> (r: usize)
        ensures
            r == self.events@.len(),
    {
        self.events.len()
    }

    /// Whether the moderation overlays leave an event visible: an event is
    /// hidden exactly when its id or its author is marked banned.
    pub open spec fn visible(self, e: Event) -> bool {
        tbl_lookup(self.event_approval@, e.id@) != Some(false) && tbl_lookup(
            self.pubkey_approval@,
            e.pubkey@,
        ) != Some(false)
    }

    /// Decide visibility under the moderation overlays.
    pub fn is_visible(&self, e: &Event) -> (r: bool)
        ensures
            r == self.visible(*e),
    {
        let ea_ok = match tbl_get(&self.event_approval, e.id.as_slice()) {
            Some(b) => b,
            None => true,
        };
        let pa_ok = match tbl_get(&self.pubkey_approval, e.pubkey.as_slice()) {
            Some(b) => b,
            None => true,
        };
        ea_ok && pa_ok
    }

    /// A query hit: a current entry whose event matches the filter and, when
    /// the overlays are respected, is visible.
    pub open spec fn hit(self, f: Filter, respect_approval: bool, o: int) -> bool {
        &&& self.live@[o]
        &&& filter_matches(f, self.events@[o].event)
        &&& respect_approval ==> self.visible(self.events@[o].event)
    }

    /// Scan the log from `since_offset` upward and return the offsets of all
    /// hits in ascending offset order, at most `limit` of them (0 meaning no
    /// limit). With no limit the result is complete: it holds every hit at
    /// or after `since_offset`, each exactly once.
    pub fn find_events(
        &self,
        f: &Filter,
        respect_approval: bool,
        since_offset: usize,
        limit: usize,
    ) -> (r: Vec<usize>)
        requires
            self.wf(),
        ensures
            forall|x: int|
                0 <= x < r@.len() ==> since_offset <= r@[x] < self.events@.len() && self.hit(
                    *f,
                    respect_approval,
                    r@[x] as int,
                ),
            forall|x1: int, x2: int| 0 <= x1 < x2 < r@.len() ==> r@[x1] < r@[x2],
            limit == 0 ==> forall|o: int|
                since_offset <= o < self.events@.len() && self.hit(*f, respect_approval, o)
                    ==> exists|x: int| 0 <= x < r@.len() && r@[x] == o,
            limit > 0 ==> r@.len() <= limit,
            limit > 0 && r@.len() < limit ==> forall|o: int|
                since_offset <= o < self.events@.len() && self.hit(*f, respect_approval, o)
                    ==> exists|x: int| 0 <= x < r@.len() && r@[x] == o,
    {
        let mut out: Vec<usize> = Vec::new();
        let mut o: usize = since_offset;
        while o < self.events.len()
            invariant
                since_offset <= o <= self.events@.len() || (o == since_offset
                    && since_offset >= self.events@.len()),
                self.wf(),
                forall|x: int|
                    0 <= x < out@.len() ==> since_offset <= out@[x] < self.events@.len()
                        && self.hit(*f, respect_approval, out@[x] as int),
                forall|x1: int, x2: int| 0 <= x1 < x2 < out@.len() ==> out@[x1] < out@[x2],
                forall|x: int| 0 <= x < out@.len() ==> out@[x] < o,
                forall|o2: int|
                    since_offset <= o2 < o && self.hit(*f, respect_approval, o2) ==> exists|x: int|
                        0 <= x < out@.len() && out@[x] == o2,
                limit > 0 ==> out@.len() <= limit,
            decreases self.events@.len() - o,
        {
            if limit > 0 && out.len() == limit {
                return out;
            }
            let ghost out0 = out@;
            if self.live[o] {
                let ev = &self.events[o].event;
                if event_matches(f, ev) {
                    let ok = if respect_approval {
                        let ea = tbl_get(&self.event_approval, ev.id.as_slice());
                        let pa = tbl_get(&self.pubkey_approval, ev.pubkey.as_slice());
                        let ea_ok = match ea {
                            Some(b) => b,
                            None => true,
                        };
                        let pa_ok = match pa {
                            Some(b) => b,
                            None => true,
                        };
                        ea_ok && pa_ok
                    } else {
                        true
                    };
                    if ok {
                        out.push(o);
                    }
                }
            }
            proof {
                assert(forall|x: int| 0 <= x < out0.len() ==> out@[x] == out0[x]);
                assert forall|o2: int|
                    since_offset <= o2 < o + 1 && self.hit(*f, respect_approval, o2)
                        implies exists|x: int| 0 <= x < out@.len() && out@[x] == o2 by {
                    if o2 < o {
                        let x0 = choose|x0: int| 0 <= x0 < out0.len() && out0[x0] == o2;
                        assert(out@[x0] == o2);
                    } else {
                        assert(out@[out@.len() - 1] == o2);
                    }
                }
            }
            o = o + 1;
        }
        out
    }

    /// Make every entry under this id no longer current; the log row itself
    /// remains, so the id can never be stored again.
    pub fn remove_event(&mut self, id: &[u8])
        requires
            old(self).wf(),
        ensures
            final(self).wf(),
            final(self).events == old(self).events,
            final(self).live@.len() == old(self).live@.len(),
            forall|k: int|
                0 <= k < final(self).live@.len() ==> final(self).live@[k] == (old(self).live@[k]
                    && old(self).events@[k].event.id@ != id@),
            final(self).event_approval == old(self).event_approval,
            final(self).pubkey_approval == old(self).pubkey_approval,
            final(self).users == old(self).users,
            final(self).ip_data == old(self).ip_data,
    {
        let n = self.events.len();
        let mut k: usize = 0;
        while k < n
            invariant
                0 <= k <= n,
                n == self.events@.len(),
                self.live@.len() == self.events@.len(),
                self.events == old(self).events,
                self.event_approval == old(self).event_approval,
                self.pubkey_approval == old(self).pubkey_approval,
                self.users == old(self).users,
                self.ip_data == old(self).ip_data,
                forall|j: int|
                    0 <= j < k ==> self.live@[j] == (old(self).live@[j]
                        && old(self).events@[j].event.id@ != id@),
                forall|j: int| k <= j < n ==> self.live@[j] == old(self).live@[j],
            decreases n - k,
        {
            if bytes_eq(self.events[k].event.id.as_slice(), id) {
                self.live[k] = false;
            }
            k = k + 1;
        }
        proof {
            let fs = *self;
            let os = *old(self);
            assert forall|i: int, j: int|
                0 <= i < fs.events@.len() && 0 <= j < fs.events@.len() && i != j && fs.live@[i]
                    && fs.live@[j] && replaceable_class(fs.events@[i].event.kind)
                    implies !repl_key_eq(fs.events@[i].event, fs.events@[j].event) by {
                assert(os.live@[i] && os.live@[j]);
            }
        }
    }

    /// Upsert the per-event moderation overlay.
    pub fn mark_event_approval(&mut self, id: Vec<u8>, approved: bool)
        ensures
            tbl_lookup(final(self).event_approval@, id@) == Some(approved),
            forall|k2: Seq<u8>|
                k2 != id@ ==> tbl_lookup(final(self).event_approval@, k2) == tbl_lookup(
                    old(self).event_approval@,
                    k2,
                ),
            final(self).events == old(self).events,
            final(self).live == old(self).live,
            final(self).pubkey_approval == old(self).pubkey_approval,
            final(self).users == old(self).users,
            final(self).ip_data == old(self).ip_data,
            old(self).wf() ==> final(self).wf(),
    {
        tbl_set(&mut self.event_approval, id, approved);
    }

    /// Upsert the per-pubkey moderation overlay.
    pub fn mark_pubkey_approval(&mut self, pubkey: Vec<u8>, approved: bool)
        ensures
            tbl_lookup(final(self).pubkey_approval@, pubkey@) == Some(approved),
            forall|k2: Seq<u8>|
                k2 != pubkey@ ==> tbl_lookup(final(self).pubkey_approval@, k2) == tbl_lookup(
                    old(self).pubkey_approval@,
                    k2,
                ),
            final(self).events == old(self).events,
            final(self).live == old(self).live,
            final(self).event_approval == old(self).event_approval,
            final(self).users == old(self).users,
            final(self).ip_data == old(self).ip_data,
            old(self).wf() ==> final(self).wf(),
    {
        tbl_set(&mut self.pubkey_approval, pubkey, approved);
    }

    /// Upsert the authorized-user table.
    pub fn set_user_role(&mut self, pubkey: Vec<u8>, role: UserRole)
        ensures
            tbl_lookup(final(self).users@, pubkey@) == Some(role),
            forall|k2: Seq<u8>|
                k2 != pubkey@ ==> tbl_lookup(final(self).users@, k2) == tbl_lookup(
                    old(self).users@,
                    k2,
                ),
            final(self).events == old(self).events,
            final(self).live == old(self).live,
            final(self).event_approval == old(self).event_approval,
            final(self).pubkey_approval == old(self).pubkey_approval,
            final(self).ip_data == old(self).ip_data,
            old(self).wf() ==> final(self).wf(),
    {
        tbl_set(&mut self.users, pubkey, role);
    }

    /// A pubkey standing in the authorized-user table with any role.
    pub open spec fn spec_is_authorized_user(self, pubkey: Seq<u8>) -> bool {
        tbl_lookup(self.users@, pubkey) == Some(UserRole::Regular) || tbl_lookup(
            self.users@,
            pubkey,
        ) == Some(UserRole::Moderator)
    }

    /// A pubkey granted moderator status.
    pub open spec fn spec_is_moderator(self, pubkey: Seq<u8>) -> bool {
        tbl_lookup(self.users@, pubkey) == Some(UserRole::Moderator)
    }

    pub fn is_authorized_user(&self, pubkey: &[u8]) -> (r: bool)
        ensures
            r == self.spec_is_authorized_user(pubkey@),
    {
        match tbl_get(&self.users, pubkey) {
            Some(UserRole::Regular) => true,
            Some(UserRole::Moderator) => true,
            _ => false,
        }
    }

    pub fn is_moderator(&self, pubkey: &[u8]) -> (r: bool)
        ensures
            r == self.spec_is_moderator(pubkey@),
    {
        match tbl_get(&self.users, pubkey) {
            Some(UserRole::Moderator) => true,
            _ => false,
        }
    }

    /// The per-IP accounting row, or the empty row when none is stored.
    pub fn get_ip_data(&self, ip: &[u8]) -> (r: IpData)
        ensures
            r == match tbl_lookup(self.ip_data@, ip@) {
                Some(d) => d,
                None => crate::ipban::spec_ip_data_init(),
            },
    {
        match tbl_get(&self.ip_data, ip) {
            Some(d) => d,
            None => IpData::new(),
        }
    }

    pub fn set_ip_data(&mut self, ip: Vec<u8>, data: IpData)
        ensures
            tbl_lookup(final(self).ip_data@, ip@) == Some(data),
            forall|k2: Seq<u8>|
                k2 != ip@ ==> tbl_lookup(final(self).ip_data@, k2) == tbl_lookup(
                    old(self).ip_data@,
                    k2,
                ),
            final(self).events == old(self).events,
            final(self).live == old(self).live,
            old(self).wf() ==> final(self).wf(),
    {
        tbl_set(&mut self.ip_data, ip, data);
    }

    /// The distinct pubkeys whose current approval mark is `approved`.
    pub fn dump_pubkey_approvals(&self, approved: bool) -> (r: Vec<Vec<u8>>)
        ensures
            forall|x: int|
                0 <= x < r@.len() ==> tbl_lookup(self.pubkey_approval@, r@[x]@) == Some(approved),
            forall|x1: int, x2: int| 0 <= x1 < x2 < r@.len() ==> r@[x1]@ != r@[x2]@,
            forall|k: Seq<u8>|
                tbl_lookup(self.pubkey_approval@, k) == Some(approved) ==> exists|x: int|
                    0 <= x < r@.len() && r@[x]@ == k,
    {
        tbl_keys_with_bool(&self.pubkey_approval, approved)
    }

    /// The distinct event ids whose current approval mark is `approved`.
    pub fn dump_event_approvals(&self, approved: bool) -> (r: Vec<Vec<u8>>)
        ensures
            forall|x: int|
                0 <= x < r@.len() ==> tbl_lookup(self.event_approval@, r@[x]@) == Some(approved),
            forall|x1: int, x2: int| 0 <= x1 < x2 < r@.len() ==> r@[x1]@ != r@[x2]@,
            forall|k: Seq<u8>|
                tbl_lookup(self.event_approval@, k) == Some(approved) ==> exists|x: int|
                    0 <= x < r@.len() && r@[x]@ == k,
    {
        tbl_keys_with_bool(&self.event_approval, approved)
    }

    /// Whether a role counts for a listing: all authorized users, or only
    /// the moderators.
    pub open spec fn role_wanted(role: UserRole, only_moderators: bool) -> bool {
        if only_moderators {
            role == UserRole::Moderator
        } else {
            role == UserRole::Moderator || role == UserRole::Regular
        }
    }

    /// Whether a pubkey's current role makes it part of a listing.
    pub open spec fn user_listed(t: Seq<(Vec<u8>, UserRole)>, k: Seq<u8>, only_moderators: bool) -> bool {
        match tbl_lookup(t, k) {
            Some(role) => Self::role_wanted(role, only_moderators),
            None => false,
        }
    }

    /// The distinct pubkeys currently authorized (optionally only the
    /// moderators).
    pub fn dump_users(&self, only_moderators: bool) -> (r: Vec<Vec<u8>>)
        ensures
            forall|x: int|
                0 <= x < r@.len() ==> Self::user_listed(self.users@, r@[x]@, only_moderators),
            forall|x1: int, x2: int| 0 <= x1 < x2 < r@.len() ==> r@[x1]@ != r@[x2]@,
            forall|k: Seq<u8>|
                Self::user_listed(self.users@, k, only_moderators) ==> exists|x: int|
                    0 <= x < r@.len() && r@[x]@ == k,
    {
        let t = &self.users;
        let mut out: Vec<Vec<u8>> = Vec::new();
        let mut i: usize = 0;
        while i < t.len()
            invariant
                0 <= i <= t@.len(),
                forall|x: int|
                    0 <= x < out@.len() ==> Self::user_listed(t@, out@[x]@, only_moderators),
                forall|x1: int, x2: int| 0 <= x1 < x2 < out@.len() ==> out@[x1]@ != out@[x2]@,
                forall|j: int|
                    0 <= j < i && Self::user_listed(t@, t@[j].0@, only_moderators) ==> exists|x: int|
                        0 <= x < out@.len() && out@[x]@ == t@[j].0@,
            decreases t@.len() - i,
        {
            let ghost out0 = out@;
            let cur = tbl_get(t, t[i].0.as_slice());
            let is_wanted = match cur {
                Some(UserRole::Moderator) => true,
                Some(UserRole::Regular) => !only_moderators,
                _ => false,
            };
            if is_wanted {
                let mut present = false;
                let mut x: usize = 0;
                while x < out.len()
                    invariant
                        0 <= x <= out@.len(),
                        0 <= i < t@.len(),
                        out@ == out0,
                        present ==> exists|x2: int|
                            0 <= x2 < out@.len() && out@[x2]@ == t@[i as int].0@,
                        !present ==> forall|x2: int| 0 <= x2 < x ==> out@[x2]@ != t@[i as int].0@,
                    decreases out@.len() - x,
                {
                    if !present && bytes_eq(out[x].as_slice(), t[i].0.as_slice()) {
                        present = true;
                    }
                    x = x + 1;
                }
                if !present {
                    out.push(bytes_clone(t[i].0.as_slice()));
                    proof {
                        assert(out@[out@.len() - 1]@ == t@[i as int].0@);
                    }
                }
            }
            proof {
                assert(forall|x: int| 0 <= x < out0.len() ==> out@[x] == out0[x]);
                assert forall|j: int|
                    0 <= j < i + 1 && Self::user_listed(t@, t@[j].0@, only_moderators)
                        implies exists|x: int| 0 <= x < out@.len() && out@[x]@ == t@[j].0@ by {
                    if j < i {
                        let x0 = choose|x0: int| 0 <= x0 < out0.len() && out0[x0]@ == t@[j].0@;
                        assert(out@[x0]@ == t@[j].0@);
                    } else {
                        assert(is_wanted);
                        let x1 = choose|x1: int|
                            0 <= x1 < out@.len() && out@[x1]@ == t@[i as int].0@;
                        assert(out@[x1]@ == t@[j].0@);
                    }
                }
            }
            i = i + 1;
        }
        proof {
            assert forall|k: Seq<u8>| Self::user_listed(t@, k, only_moderators) implies exists|x: int|
                0 <= x < out@.len() && out@[x]@ == k by {
                lemma_tbl_lookup_key_exists(t@, k);
                let j = choose|j: int| 0 <= j < t@.len() && t@[j].0@ == k;
                assert(Self::user_listed(t@, t@[j].0@, only_moderators));
            }
        }
        out
    }
}

/// For all offsets o1 < o2, the commit time of o1 is at most that of o2.
pub proof fn lemma_commit_times_monotone(s: EventStore, o1: int, o2: int)
    requires
        s.wf(),
        0 <= o1 < o2 < s.events@.len(),
    ensures
        s.events@[o1].commit_time <= s.events@[o2].commit_time,
{
}

/// Per replacement key at most one entry is current.
pub proof fn lemma_replaceable_current_unique(s: EventStore, k1: int, k2: int)
    requires
        s.wf(),
        0 <= k1 < s.events@.len(),
        0 <= k2 < s.events@.len(),
        s.live@[k1],
        s.live@[k2],
        replaceable_class(s.events@[k1].event.kind),
        repl_key_eq(s.events@[k1].event, s.events@[k2].event),
    ensures
        k1 == k2,
{
}

/// A query that begins at or before the offset of a persisted matching
/// event, made without a limit, yields that offset exactly once.
pub proof fn lemma_query_exactly_once(
    s: EventStore,
    f: Filter,
    respect_approval: bool,
    since_offset: usize,
    r: Seq<usize>,
    o: usize,
)
    requires
        s.wf(),
        since_offset <= o < s.events@.len(),
        s.hit(f, respect_approval, o as int),
        // The contract of find_events with limit == 0:
        forall|x: int|
            0 <= x < r.len() ==> since_offset <= r[x] < s.events@.len() && s.hit(
                f,
                respect_approval,
                r[x] as int,
            ),
        forall|x1: int, x2: int| 0 <= x1 < x2 < r.len() ==> r[x1] < r[x2],
        forall|o2: int|
            since_offset <= o2 < s.events@.len() && s.hit(f, respect_approval, o2) ==> exists|x: int|
                0 <= x < r.len() && r[x] == o2,
    ensures
        exists|x: int| 0 <= x < r.len() && r[x] == o,
        forall|x1: int, x2: int|
            0 <= x1 < r.len() && 0 <= x2 < r.len() && r[x1] == o && r[x2] == o ==> x1 == x2,
{
    assert(s.hit(f, respect_approval, o as int));
    assert(exists|x: int| 0 <= x < r.len() && r[x] == o);
    assert forall|x1: int, x2: int|
        0 <= x1 < r.len() && 0 <= x2 < r.len() && r[x1] == o && r[x2] == o implies x1 == x2 by {
        if x1 < x2 {
            assert(r[x1] < r[x2]);
        }
        if x2 < x1 {
            assert(r[x2] < r[x1]);
        }
    }
}

/// After remove_event(id), no query returns an offset holding that id.
pub proof fn lemma_removed_never_returned(
    s: EventStore,
    f: Filter,
    respect_approval: bool,
    id: Seq<u8>,
    r: Seq<usize>,
)
    requires
        s.wf(),
        // No entry under this id is current (what remove_event ensures):
        forall|k: int|
            0 <= k < s.events@.len() && s.events@[k].event.id@ == id ==> !s.live@[k],
        // The soundness half of find_events' contract:
        forall|x: int|
            0 <= x < r.len() ==> r[x] < s.events@.len() && s.hit(f, respect_approval, r[x] as int),
    ensures
        forall|x: int| 0 <= x < r.len() ==> s.events@[r[x] as int].event.id@ != id,
{
    assert forall|x: int| 0 <= x < r.len() implies s.events@[r[x] as int].event.id@ != id by {
        assert(s.live@[r[x] as int]);
    }
}

} // verus!
