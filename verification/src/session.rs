use vstd::prelude::*;
use vstd::string::StringSliceAdditionalSpecFns;
use crate::types::{Event, bytes_eq, is_deletion_kind, is_ephemeral_kind, ephemeral_kind, deletion_kind};
use crate::codec::{
    event_valid, event_id_ok, event_sig_ok, validate_event, ValidationError, wire_quoted, dec_of,
    wire_tags, push_bytes, push_wire_quoted, push_dec, push_wire_tags,
};
use crate::hex::{hex_of, hex_encode, hex_decode, lemma_hex_of_injective};
use crate::filter::{Filter, filters_match, any_matches};
use crate::store::{EventStore, StoreError, replaceable_class, StoredEvent};
use crate::management::spec_is_admin;
use crate::management::is_admin;

verus! {

// ---------------------------------------------------------------------------
// Relay-to-client wire messages
// ---------------------------------------------------------------------------

/// The serialized form "true"/"false" of a boolean.
pub open spec fn bool_bytes(b: bool) -> Seq<u8> {
    if b {
        "true".spec_bytes()
    } else {
        "false".spec_bytes()
    }
}

/// The JSON object form of an event, as sent inside EVENT messages.
pub open spec fn event_json(e: Event) -> Seq<u8> {
    seq![123u8] + wire_quoted("id".spec_bytes()) + seq![58u8] + wire_quoted(hex_of(e.id@)) + seq![44u8]
        + wire_quoted("pubkey".spec_bytes()) + seq![58u8] + wire_quoted(hex_of(e.pubkey@)) + seq![44u8]
        + wire_quoted("created_at".spec_bytes()) + seq![58u8] + dec_of(e.created_at as int)
        + seq![44u8] + wire_quoted("kind".spec_bytes()) + seq![58u8] + dec_of(e.kind as int)
        + seq![44u8] + wire_quoted("tags".spec_bytes()) + seq![58u8] + wire_tags(e.tags.deep_view())
        + seq![44u8] + wire_quoted("content".spec_bytes()) + seq![58u8] + wire_quoted(e.content@)
        + seq![44u8] + wire_quoted("sig".spec_bytes()) + seq![58u8] + wire_quoted(hex_of(e.sig@))
        + seq![125u8]
}

/// Serialize an event as its wire JSON object.
pub fn event_json_exec(e: &Event) -> (r: Vec<u8>)
    ensures
        r@ == event_json(*e),
{
    let mut out: Vec<u8> = Vec::new();
    out.push(123);
    push_wire_quoted(&mut out, "id".as_bytes());
    out.push(58);
    let id_hex = hex_encode(e.id.as_slice());
    push_wire_quoted(&mut out, id_hex.as_slice());
    out.push(44);
    push_wire_quoted(&mut out, "pubkey".as_bytes());
    out.push(58);
    let pk_hex = hex_encode(e.pubkey.as_slice());
    push_wire_quoted(&mut out, pk_hex.as_slice());
    out.push(44);
    push_wire_quoted(&mut out, "created_at".as_bytes());
    out.push(58);
    push_dec(&mut out, e.created_at);
    out.push(44);
    push_wire_quoted(&mut out, "kind".as_bytes());
    out.push(58);
    push_dec(&mut out, e.kind as u64);
    out.push(44);
    push_wire_quoted(&mut out, "tags".as_bytes());
    out.push(58);
    push_wire_tags(&mut out, &e.tags);
    out.push(44);
    push_wire_quoted(&mut out, "content".as_bytes());
    out.push(58);
    push_wire_quoted(&mut out, e.content.as_slice());
    out.push(44);
    push_wire_quoted(&mut out, "sig".as_bytes());
    out.push(58);
    let sig_hex = hex_encode(e.sig.as_slice());
    push_wire_quoted(&mut out, sig_hex.as_slice());
    out.push(125);
    proof {
        assert(out@ =~= event_json(*e));
    }
    out
}

/// ["OK", "<id hex>", <accepted>, "<reason>"]
pub open spec fn ok_message(id: Seq<u8>, accepted: bool, reason: Seq<u8>) -> Seq<u8> {
    seq![91u8] + wire_quoted("OK".spec_bytes()) + seq![44u8] + wire_quoted(hex_of(id)) + seq![44u8]
        + bool_bytes(accepted) + seq![44u8] + wire_quoted(reason) + seq![93u8]
}

pub fn ok_message_exec(id: &[u8], accepted: bool, reason: &[u8]) -> (r: Vec<u8>)
    ensures
        r@ == ok_message(id@, accepted, reason@),
{
    let mut out: Vec<u8> = Vec::new();
    out.push(91);
    push_wire_quoted(&mut out, "OK".as_bytes());
    out.push(44);
    let id_hex = hex_encode(id);
    push_wire_quoted(&mut out, id_hex.as_slice());
    out.push(44);
    if accepted {
        push_bytes(&mut out, "true".as_bytes());
    } else {
        push_bytes(&mut out, "false".as_bytes());
    }
    out.push(44);
    push_wire_quoted(&mut out, reason);
    out.push(93);
    proof {
        assert(out@ =~= ok_message(id@, accepted, reason@));
    }
    out
}

/// ["EOSE", "<sub id>"]
pub open spec fn eose_message(sub_id: Seq<u8>) -> Seq<u8> {
    seq![91u8] + wire_quoted("EOSE".spec_bytes()) + seq![44u8] + wire_quoted(sub_id) + seq![93u8]
}

pub fn eose_message_exec(sub_id: &[u8]) -> (r: Vec<u8>)
    ensures
        r@ == eose_message(sub_id@),
{
    let mut out: Vec<u8> = Vec::new();
    out.push(91);
    push_wire_quoted(&mut out, "EOSE".as_bytes());
    out.push(44);
    push_wire_quoted(&mut out, sub_id);
    out.push(93);
    proof {
        assert(out@ =~= eose_message(sub_id@));
    }
    out
}

/// ["CLOSED", "<sub id>", "<message>"]
pub open spec fn closed_message(sub_id: Seq<u8>, message: Seq<u8>) -> Seq<u8> {
    seq![91u8] + wire_quoted("CLOSED".spec_bytes()) + seq![44u8] + wire_quoted(sub_id) + seq![44u8]
        + wire_quoted(message) + seq![93u8]
}

pub fn closed_message_exec(sub_id: &[u8], message: &[u8]) -> (r: Vec<u8>)
    ensures
        r@ == closed_message(sub_id@, message@),
{
    let mut out: Vec<u8> = Vec::new();
    out.push(91);
    push_wire_quoted(&mut out, "CLOSED".as_bytes());
    out.push(44);
    push_wire_quoted(&mut out, sub_id);
    out.push(44);
    push_wire_quoted(&mut out, message);
    out.push(93);
    proof {
        assert(out@ =~= closed_message(sub_id@, message@));
    }
    out
}

/// ["NOTICE", "<message>"]
pub open spec fn notice_message(message: Seq<u8>) -> Seq<u8> {
    seq![91u8] + wire_quoted("NOTICE".spec_bytes()) + seq![44u8] + wire_quoted(message) + seq![93u8]
}

pub fn notice_message_exec(message: &[u8]) -> (r: Vec<u8>)
    ensures
        r@ == notice_message(message@),
{
    let mut out: Vec<u8> = Vec::new();
    out.push(91);
    push_wire_quoted(&mut out, "NOTICE".as_bytes());
    out.push(44);
    push_wire_quoted(&mut out, message);
    out.push(93);
    proof {
        assert(out@ =~= notice_message(message@));
    }
    out
}

/// ["EVENT", "<sub id>", <event json>]
pub open spec fn event_message(sub_id: Seq<u8>, e: Event) -> Seq<u8> {
    seq![91u8] + wire_quoted("EVENT".spec_bytes()) + seq![44u8] + wire_quoted(sub_id) + seq![44u8]
        + event_json(e) + seq![93u8]
}

pub fn event_message_exec(sub_id: &[u8], e: &Event) -> (r: Vec<u8>)
    ensures
        r@ == event_message(sub_id@, *e),
{
    let mut out: Vec<u8> = Vec::new();
    out.push(91);
    push_wire_quoted(&mut out, "EVENT".as_bytes());
    out.push(44);
    push_wire_quoted(&mut out, sub_id);
    out.push(44);
    let ej = event_json_exec(e);
    push_bytes(&mut out, ej.as_slice());
    out.push(93);
    proof {
        assert(out@ =~= event_message(sub_id@, *e));
    }
    out
}

// ---------------------------------------------------------------------------
// Write policy
// ---------------------------------------------------------------------------

/// What the write policy decides for an incoming event.
#[derive(Clone, Copy, PartialEq, Eq, Structural, Debug)]
pub enum PolicyDecision {
    Accept,
    RejectRestricted,
    RejectAuthRequired,
}

/// The per-session knobs the policy reads.
pub struct SessionConfig {
    pub open_relay: bool,
    pub allow_dms_to_authorized: bool,
    pub max_subscriptions: usize,
}

/// The event is addressed by a `p` tag to some authorized user.
pub open spec fn dm_to_authorized(e: Event, store: EventStore) -> bool {
    exists|j: int|
        0 <= j < e.tags@.len() && (#[trigger] e.tags@[j])@.len() >= 2 && e.tags@[j]@[0]@ =~= seq![
            112u8,
        ] && exists|raw: Seq<u8>|
            hex_of(raw) == e.tags@[j]@[1]@ && #[trigger] store.spec_is_authorized_user(raw)
}

fn dm_to_authorized_exec(e: &Event, store: &EventStore) -> (r: bool)
    ensures
        r == dm_to_authorized(*e, *store),
{
    let mut j: usize = 0;
    while j < e.tags.len()
        invariant
            0 <= j <= e.tags@.len(),
            forall|j2: int|
                0 <= j2 < j ==> !((#[trigger] e.tags@[j2])@.len() >= 2 && e.tags@[j2]@[0]@
                    =~= seq![112u8] && exists|raw: Seq<u8>|
                    hex_of(raw) == e.tags@[j2]@[1]@ && #[trigger] store.spec_is_authorized_user(
                        raw,
                    )),
        decreases e.tags@.len() - j,
    {
        let tag = &e.tags[j];
        if tag.len() >= 2 && tag[0].len() == 1 && tag[0].as_slice()[0] == 112 {
            proof {
                assert(e.tags@[j as int]@[0]@ =~= seq![112u8]);
            }
            match hex_decode(tag[1].as_slice()) {
                Some(raw) => {
                    if store.is_authorized_user(raw.as_slice()) {
                        proof {
                            assert(hex_of(raw@) == e.tags@[j as int]@[1]@);
                        }
                        return true;
                    }
                    proof {
                        assert forall|raw2: Seq<u8>|
                            hex_of(raw2) == e.tags@[j as int]@[1]@ implies !store
                            .spec_is_authorized_user(raw2) by {
                            lemma_hex_of_injective(raw2, raw@);
                        }
                    }
                },
                None => {
                    proof {
                        assert forall|raw2: Seq<u8>|
                            hex_of(raw2) == e.tags@[j as int]@[1]@ implies !store
                            .spec_is_authorized_user(raw2) by {
                            crate::hex::lemma_hex_of_is_hex(raw2);
                        }
                    }
                },
            }
        }
        j = j + 1;
    }
    false
}

/// The write policy, evaluated in order, first match wins: admins and
/// moderators always write; deletions by their author pass; an open relay
/// accepts everything; an authenticated authorized user writes; an event
/// addressed to an authorized user passes when the relay allows that;
/// everything else is refused, asking for authentication where none was
/// given.
pub open spec fn spec_write_policy(
    e: Event,
    authed: Option<Vec<u8>>,
    store: EventStore,
    admins: Seq<Vec<u8>>,
    cfg: SessionConfig,
) -> PolicyDecision {
    if spec_is_admin(admins, e.pubkey@) || store.spec_is_moderator(e.pubkey@) {
        PolicyDecision::Accept
    } else if is_deletion_kind(e.kind) {
        PolicyDecision::Accept
    } else if cfg.open_relay {
        PolicyDecision::Accept
    } else if authed matches Some(pk) && store.spec_is_authorized_user(pk@) {
        PolicyDecision::Accept
    } else if cfg.allow_dms_to_authorized && dm_to_authorized(e, store) {
        PolicyDecision::Accept
    } else if authed is None {
        PolicyDecision::RejectAuthRequired
    } else {
        PolicyDecision::RejectRestricted
    }
}

pub fn write_policy(
    e: &Event,
    authed: &Option<Vec<u8>>,
    store: &EventStore,
    admins: &Vec<Vec<u8>>,
    cfg: &SessionConfig,
) -> (r: PolicyDecision)
    ensures
        r == spec_write_policy(*e, *authed, *store, admins@, *cfg),
{
    if is_admin(admins, e.pubkey.as_slice()) || store.is_moderator(e.pubkey.as_slice()) {
        PolicyDecision::Accept
    } else if deletion_kind(e.kind) {
        PolicyDecision::Accept
    } else if cfg.open_relay {
        PolicyDecision::Accept
    } else {
        let authed_ok = match authed {
            Some(pk) => store.is_authorized_user(pk.as_slice()),
            None => false,
        };
        if authed_ok {
            PolicyDecision::Accept
        } else if cfg.allow_dms_to_authorized && dm_to_authorized_exec(e, store) {
            PolicyDecision::Accept
        } else if authed.is_none() {
            PolicyDecision::RejectAuthRequired
        } else {
            PolicyDecision::RejectRestricted
        }
    }
}

// ---------------------------------------------------------------------------
// Event ingestion
// ---------------------------------------------------------------------------

/// What one EVENT message came to: the OK verdict, its reason text, the
/// assigned offset when the event was persisted, and the event itself when
/// it was accepted as ephemeral — handed back so that live subscriptions
/// still receive it.
pub struct IngestOutcome {
    pub accepted: bool,
    pub reason: Vec<u8>,
    pub offset: Option<usize>,
    pub ephemeral: Option<Event>,
}

/// The OK verdict and reason an EVENT message earns, mirroring the
/// ingestion pipeline: validation, then policy, then persistence.
pub open spec fn spec_ingest_accepted(
    e: Event,
    authed: Option<Vec<u8>>,
    pre: EventStore,
    admins: Seq<Vec<u8>>,
    cfg: SessionConfig,
) -> bool {
    &&& event_valid(e)
    &&& spec_write_policy(e, authed, pre, admins, cfg) == PolicyDecision::Accept
    &&& (is_ephemeral_kind(e.kind) || (!pre.knows_id(e.id@) && !(replaceable_class(e.kind)
        && pre.blocked_by_current(e))))
}

/// The reason text of the OK verdict; empty on acceptance.
pub open spec fn spec_ingest_reason(
    e: Event,
    authed: Option<Vec<u8>>,
    pre: EventStore,
    admins: Seq<Vec<u8>>,
    cfg: SessionConfig,
) -> Seq<u8> {
    if !e.wf() {
        "invalid: bad event fields".spec_bytes()
    } else if !event_id_ok(e) {
        "invalid: bad event id".spec_bytes()
    } else if !event_sig_ok(e) {
        "invalid: bad signature".spec_bytes()
    } else if spec_write_policy(e, authed, pre, admins, cfg)
        == PolicyDecision::RejectAuthRequired {
        "auth-required: authentication required for writing".spec_bytes()
    } else if spec_write_policy(e, authed, pre, admins, cfg)
        == PolicyDecision::RejectRestricted {
        "restricted: this relay does not accept events from you".spec_bytes()
    } else if is_ephemeral_kind(e.kind) {
        Seq::empty()
    } else if pre.knows_id(e.id@) {
        "duplicate: already have this event".spec_bytes()
    } else if replaceable_class(e.kind) && pre.blocked_by_current(e) {
        "duplicate: have a newer version of this event".spec_bytes()
    } else {
        Seq::empty()
    }
}

/// Ingest one event: validate it, apply the write policy, and persist it
/// unless it is ephemeral. The outcome carries exactly the NIP-01 reason
/// prefix for each failure; an accepted ephemeral event gets no offset and
/// is only delivered to live subscriptions.
pub fn ingest_event(
    e: Event,
    authed: &Option<Vec<u8>>,
    store: &mut EventStore,
    admins: &Vec<Vec<u8>>,
    cfg: &SessionConfig,
    now: u64,
) -> (r: IngestOutcome)
    requires
        old(store).wf(),
    ensures
        final(store).wf(),
        r.accepted == spec_ingest_accepted(e, *authed, *old(store), admins@, *cfg),
        r.reason@ == spec_ingest_reason(e, *authed, *old(store), admins@, *cfg),
        !r.accepted ==> *final(store) == *old(store) && r.offset is None,
        r.accepted && is_ephemeral_kind(e.kind) ==> (r.offset is None && *final(store) == *old(
            store,
        ) && (r.ephemeral matches Some(ev) && ev == e)),
        !(r.accepted && is_ephemeral_kind(e.kind)) ==> r.ephemeral is None,
        r.accepted && !is_ephemeral_kind(e.kind) ==> ({
            &&& r.offset == Some(old(store).events@.len() as usize)
            &&& final(store).events@ == old(store).events@ + seq![
                (StoredEvent { event: e, commit_time: old(store).next_commit_time(now) }),
            ]
            &&& final(store).live@.len() == old(store).events@.len() + 1
            &&& final(store).live@[old(store).events@.len() as int]
            &&& forall|k: int|
                0 <= k < old(store).events@.len() ==> final(store).live@[k] == (
                old(store).live@[k] && !(replaceable_class(e.kind) && crate::store::repl_key_eq(
                    e,
                    old(store).events@[k].event,
                )))
            &&& final(store).event_approval == old(store).event_approval
            &&& final(store).pubkey_approval == old(store).pubkey_approval
            &&& final(store).users == old(store).users
            &&& final(store).ip_data == old(store).ip_data
        }),
{
    match validate_event(&e) {
        Err(ValidationError::BadField) => {
            return IngestOutcome {
                accepted: false,
                reason: bytes_of("invalid: bad event fields"),
                offset: None,
                ephemeral: None,
            };
        },
        Err(ValidationError::BadId) => {
            return IngestOutcome {
                accepted: false,
                reason: bytes_of("invalid: bad event id"),
                offset: None,
                ephemeral: None,
            };
        },
        Err(ValidationError::BadSignature) => {
            return IngestOutcome {
                accepted: false,
                reason: bytes_of("invalid: bad signature"),
                offset: None,
                ephemeral: None,
            };
        },
        Ok(()) => {},
    }
    match write_policy(&e, authed, store, admins, cfg) {
        PolicyDecision::RejectAuthRequired => {
            return IngestOutcome {
                accepted: false,
                reason: bytes_of("auth-required: authentication required for writing"),
                offset: None,
                ephemeral: None,
            };
        },
        PolicyDecision::RejectRestricted => {
            return IngestOutcome {
                accepted: false,
                reason: bytes_of("restricted: this relay does not accept events from you"),
                offset: None,
                ephemeral: None,
            };
        },
        PolicyDecision::Accept => {},
    }
    if ephemeral_kind(e.kind) {
        return IngestOutcome {
            accepted: true,
            reason: Vec::new(),
            offset: None,
            ephemeral: Some(e),
        };
    }
    match store.store_event(e, now) {
        Ok(offset) => IngestOutcome {
            accepted: true,
            reason: Vec::new(),
            offset: Some(offset),
            ephemeral: None,
        },
        Err(StoreError::Duplicate) => IngestOutcome {
            accepted: false,
            reason: bytes_of("duplicate: already have this event"),
            offset: None,
            ephemeral: None,
        },
        Err(StoreError::Superseded) => IngestOutcome {
            accepted: false,
            reason: bytes_of("duplicate: have a newer version of this event"),
            offset: None,
            ephemeral: None,
        },
    }
}

fn bytes_of(s: &str) -> (r: Vec<u8>)
    ensures
        r@ == s.spec_bytes(),
{
    crate::types::bytes_clone(s.as_bytes())
}

// ---------------------------------------------------------------------------
// Subscriptions and delivery
// ---------------------------------------------------------------------------

/// One live subscription: its connection-scoped name and its filters.
pub struct Subscription {
    pub id: Vec<u8>,
    pub filters: Vec<Filter>,
}

/// Per-connection session state after the upgrade: the authenticated pubkey
/// when AUTH succeeded, and the live subscriptions.
pub struct Session {
    pub authed_pubkey: Option<Vec<u8>>,
    pub subscriptions: Vec<Subscription>,
}

impl Session {
    /// Subscription names are unique within a session.
    pub open spec fn wf(self) -> bool {
        forall|i: int, j: int|
            0 <= i < j < self.subscriptions@.len() ==> self.subscriptions@[i].id@
                != self.subscriptions@[j].id@
    }

    pub fn new() -> (r: Session)
        ensures
            r.wf(),
            r.subscriptions@.len() == 0,
            r.authed_pubkey is None,
    {
        Session { authed_pubkey: None, subscriptions: Vec::new() }
    }

    /// Is there a subscription with this name?
    pub open spec fn spec_has_sub(self, sub_id: Seq<u8>) -> bool {
        exists|k: int|
            0 <= k < self.subscriptions@.len() && self.subscriptions@[k].id@ == sub_id
    }

    /// REQ: replace the subscription of the same name if one exists, add it
    /// otherwise, unless the cap is reached. Returns false exactly when the
    /// subscription was refused for being over the cap.
    pub fn handle_req(&mut self, sub_id: Vec<u8>, filters: Vec<Filter>, max_subs: usize) -> (r:
        bool)
        requires
            old(self).wf(),
        ensures
            final(self).wf(),
            final(self).authed_pubkey == old(self).authed_pubkey,
            old(self).spec_has_sub(sub_id@) ==> ({
                &&& r
                &&& final(self).subscriptions@.len() == old(self).subscriptions@.len()
                &&& final(self).spec_has_sub(sub_id@)
                &&& forall|k: int|
                    0 <= k < final(self).subscriptions@.len() ==> (
                    #[trigger] final(self).subscriptions@[k].id@ == sub_id@ ==> final(self).subscriptions@[k].filters == filters)
                &&& forall|k: int|
                    0 <= k < final(self).subscriptions@.len() && final(self).subscriptions@[k].id@
                        != sub_id@ ==> #[trigger] final(self).subscriptions@[k] == old(self).subscriptions@[k]
            }),
            !old(self).spec_has_sub(sub_id@) && old(self).subscriptions@.len() < max_subs ==> ({
                &&& r
                &&& final(self).subscriptions@.len() == old(self).subscriptions@.len() + 1
                &&& final(self).subscriptions@.last().id@ == sub_id@
                &&& final(self).subscriptions@.last().filters == filters
                &&& forall|k: int|
                    0 <= k < old(self).subscriptions@.len()
                        ==> #[trigger] final(self).subscriptions@[k] == old(self).subscriptions@[k]
            }),
            !old(self).spec_has_sub(sub_id@) && old(self).subscriptions@.len() >= max_subs ==> (!r
                && *final(self) == *old(self)),
    {
        let mut k: usize = 0;
        let n = self.subscriptions.len();
        while k < n
            invariant
                0 <= k <= n,
                n == self.subscriptions@.len(),
                *self == *old(self),
                old(self).wf(),
                forall|j: int| 0 <= j < k ==> self.subscriptions@[j].id@ != sub_id@,
            decreases n - k,
        {
            if bytes_eq(self.subscriptions[k].id.as_slice(), sub_id.as_slice()) {
                let ghost gsid = sub_id@;
                self.subscriptions[k] = Subscription { id: sub_id, filters };
                proof {
                    assert(self.subscriptions@[k as int].id@ == gsid);
                    assert forall|i: int, j: int|
                        0 <= i < j < self.subscriptions@.len() implies self.subscriptions@[i].id@
                        != self.subscriptions@[j].id@ by {
                        assert(old(self).subscriptions@[i].id@ != old(self).subscriptions@[j].id@);
                    }
                }
                return true;
            }
            k = k + 1;
        }
        if self.subscriptions.len() < max_subs {
            let ghost gsid = sub_id@;
            self.subscriptions.push(Subscription { id: sub_id, filters });
            proof {
                assert(self.subscriptions@.last().id@ == gsid);
                assert(forall|i: int|
                    0 <= i < old(self).subscriptions@.len()
                        ==> #[trigger] self.subscriptions@[i] == old(self).subscriptions@[i]);
            }
            true
        } else {
            false
        }
    }

    /// CLOSE: drop the subscription of this name, if any.
    pub fn handle_close(&mut self, sub_id: &[u8])
        requires
            old(self).wf(),
        ensures
            final(self).wf(),
            final(self).authed_pubkey == old(self).authed_pubkey,
            !final(self).spec_has_sub(sub_id@),
            forall|sid: Seq<u8>|
                sid != sub_id@ ==> final(self).spec_has_sub(sid) == old(self).spec_has_sub(sid),
    {
        let n = self.subscriptions.len();
        let mut k: usize = 0;
        let mut found: Option<usize> = None;
        while k < n
            invariant
                0 <= k <= n,
                n == self.subscriptions@.len(),
                *self == *old(self),
                old(self).wf(),
                found is None ==> forall|j: int|
                    0 <= j < k ==> self.subscriptions@[j].id@ != sub_id@,
                found matches Some(f) ==> 0 <= f < n && self.subscriptions@[f as int].id@
                    == sub_id@,
            decreases n - k,
        {
            if found.is_none() && bytes_eq(self.subscriptions[k].id.as_slice(), sub_id) {
                found = Some(k);
            }
            k = k + 1;
        }
        match found {
            None => {},
            Some(f) => {
                let ghost pre = self.subscriptions@;
                self.subscriptions.remove(f);
                proof {
                    let post = self.subscriptions@;
                    assert(forall|j: int| 0 <= j < f ==> post[j] == pre[j]);
                    assert(forall|j: int| f <= j < post.len() ==> post[j] == pre[j + 1]);
                    assert forall|sid: Seq<u8>| sid != sub_id@ implies self.spec_has_sub(sid)
                        == old(self).spec_has_sub(sid) by {
                        if old(self).spec_has_sub(sid) {
                            let j = choose|j: int| 0 <= j < pre.len() && pre[j].id@ == sid;
                            if j < f {
                                assert(post[j].id@ == sid);
                            } else {
                                assert(j != f);
                                assert(post[j - 1].id@ == sid);
                            }
                        }
                        if self.spec_has_sub(sid) {
                            let j = choose|j: int| 0 <= j < post.len() && post[j].id@ == sid;
                            if j < f {
                                assert(pre[j].id@ == sid);
                            } else {
                                assert(pre[j + 1].id@ == sid);
                            }
                        }
                    }
                    assert(!self.spec_has_sub(sub_id@)) by {
                        if self.spec_has_sub(sub_id@) {
                            let j = choose|j: int|
                                0 <= j < post.len() && post[j].id@ == sub_id@;
                            if j < f {
                                assert(pre[j].id@ == sub_id@);
                                assert(pre[f as int].id@ == sub_id@);
                            } else {
                                assert(pre[j + 1].id@ == sub_id@);
                                assert(pre[f as int].id@ == sub_id@);
                            }
                        }
                    }
                }
            },
        }
    }

    /// Real-time delivery: the indices of the subscriptions whose filters
    /// match this event, in order, each exactly once. The caller sends one
    /// EVENT message per returned subscription.
    pub fn matching_subscriptions(&self, e: &Event) -> (r: Vec<usize>)
        ensures
            forall|x: int|
                0 <= x < r@.len() ==> r@[x] < self.subscriptions@.len() && filters_match(
                    self.subscriptions@[r@[x] as int].filters@,
                    *e,
                ),
            forall|x1: int, x2: int| 0 <= x1 < x2 < r@.len() ==> r@[x1] < r@[x2],
            forall|k: int|
                0 <= k < self.subscriptions@.len() && filters_match(
                    self.subscriptions@[k].filters@,
                    *e,
                ) ==> exists|x: int| 0 <= x < r@.len() && r@[x] == k,
    {
        let mut out: Vec<usize> = Vec::new();
        let mut k: usize = 0;
        while k < self.subscriptions.len()
            invariant
                0 <= k <= self.subscriptions@.len(),
                forall|x: int|
                    0 <= x < out@.len() ==> out@[x] < self.subscriptions@.len() && filters_match(
                        self.subscriptions@[out@[x] as int].filters@,
                        *e,
                    ),
                forall|x1: int, x2: int| 0 <= x1 < x2 < out@.len() ==> out@[x1] < out@[x2],
                forall|x: int| 0 <= x < out@.len() ==> out@[x] < k,
                forall|j: int|
                    0 <= j < k && filters_match(self.subscriptions@[j].filters@, *e)
                        ==> exists|x: int| 0 <= x < out@.len() && out@[x] == j,
            decreases self.subscriptions@.len() - k,
        {
            let ghost out0 = out@;
            if any_matches(&self.subscriptions[k].filters, e) {
                out.push(k);
            }
            proof {
                assert(forall|x: int| 0 <= x < out0.len() ==> out@[x] == out0[x]);
                assert forall|j: int|
                    0 <= j < k + 1 && filters_match(self.subscriptions@[j].filters@, *e)
                        implies exists|x: int| 0 <= x < out@.len() && out@[x] == j by {
                    if j < k {
                        let x0 = choose|x0: int| 0 <= x0 < out0.len() && out0[x0] == j;
                        assert(out@[x0] == j);
                    } else {
                        assert(out@[out@.len() - 1] == j);
                    }
                }
            }
            k = k + 1;
        }
        out
    }
}

/// Live delivery is exactly-once: for a subscription whose filters match a
/// newly committed event, the delivery list holds that subscription exactly
/// once.
pub proof fn lemma_live_delivery_exactly_once(s: Session, e: Event, r: Seq<usize>, k: int)
    requires
        0 <= k < s.subscriptions@.len(),
        filters_match(s.subscriptions@[k].filters@, e),
        // The contract of matching_subscriptions:
        forall|x: int|
            0 <= x < r.len() ==> r[x] < s.subscriptions@.len() && filters_match(
                s.subscriptions@[r[x] as int].filters@,
                e,
            ),
        forall|x1: int, x2: int| 0 <= x1 < x2 < r.len() ==> r[x1] < r[x2],
        forall|k2: int|
            0 <= k2 < s.subscriptions@.len() && filters_match(s.subscriptions@[k2].filters@, e)
                ==> exists|x: int| 0 <= x < r.len() && r[x] == k2,
    ensures
        exists|x: int| 0 <= x < r.len() && r[x] == k,
        forall|x1: int, x2: int|
            0 <= x1 < r.len() && 0 <= x2 < r.len() && r[x1] == k && r[x2] == k ==> x1 == x2,
{
    assert forall|x1: int, x2: int|
        0 <= x1 < r.len() && 0 <= x2 < r.len() && r[x1] == k && r[x2] == k implies x1 == x2 by {
        if x1 < x2 {
            assert(r[x1] < r[x2]);
        }
        if x2 < x1 {
            assert(r[x2] < r[x1]);
        }
    }
}


/// A stored entry that a REQ with these filters reports: current, matching
/// some filter, and visible under the moderation overlays.
pub open spec fn req_hit(store: EventStore, fs: Seq<Filter>, o: int) -> bool {
    &&& store.live@[o]
    &&& filters_match(fs, store.events@[o].event)
    &&& store.visible(store.events@[o].event)
}

/// The presentation order of the historical phase: newest first — a later
/// created_at comes before an earlier one, and ties fall to the later
/// offset (the later commit).
pub open spec fn newer_first(store: EventStore, o1: int, o2: int) -> bool {
    store.events@[o1].event.created_at > store.events@[o2].event.created_at || (
    store.events@[o1].event.created_at == store.events@[o2].event.created_at && o1 > o2)
}

/// Decide the presentation order between two offsets.
fn newer_first_exec(store: &EventStore, o1: usize, o2: usize) -> (r: bool)
    requires
        o1 < store.events@.len(),
        o2 < store.events@.len(),
    ensures
        r == newer_first(*store, o1 as int, o2 as int),
{
    let t1 = store.get_event(o1).created_at;
    let t2 = store.get_event(o2).created_at;
    t1 > t2 || (t1 == t2 && o1 > o2)
}

/// Collect the offsets of all hits, in ascending offset order, completely.
fn collect_req_hits(store: &EventStore, filters: &Vec<Filter>) -> (r: Vec<usize>)
    requires
        store.wf(),
    ensures
        forall|x: int|
            0 <= x < r@.len() ==> r@[x] < store.events@.len() && req_hit(
                *store,
                filters@,
                r@[x] as int,
            ),
        forall|x1: int, x2: int| 0 <= x1 < x2 < r@.len() ==> r@[x1] < r@[x2],
        forall|o2: int|
            0 <= o2 < store.events@.len() && req_hit(*store, filters@, o2) ==> exists|x: int|
                0 <= x < r@.len() && r@[x] == o2,
{
    let mut out: Vec<usize> = Vec::new();
    let mut o: usize = 0;
    let n = store.len();
    while o < n
        invariant
            0 <= o <= n,
            n == store.events@.len(),
            store.wf(),
            forall|x: int|
                0 <= x < out@.len() ==> out@[x] < store.events@.len() && req_hit(
                    *store,
                    filters@,
                    out@[x] as int,
                ),
            forall|x1: int, x2: int| 0 <= x1 < x2 < out@.len() ==> out@[x1] < out@[x2],
            forall|x: int| 0 <= x < out@.len() ==> out@[x] < o,
            forall|o2: int|
                0 <= o2 < o && req_hit(*store, filters@, o2) ==> exists|x: int|
                    0 <= x < out@.len() && out@[x] == o2,
        decreases n - o,
    {
        let ghost out0 = out@;
        if store.is_live(o) {
            let ev = store.get_event(o);
            if any_matches(filters, ev) && store.is_visible(ev) {
                out.push(o);
            }
        }
        proof {
            assert(forall|x: int| 0 <= x < out0.len() ==> out@[x] == out0[x]);
            assert forall|o2: int|
                0 <= o2 < o + 1 && req_hit(*store, filters@, o2) implies exists|x: int|
                0 <= x < out@.len() && out@[x] == o2 by {
                if o2 < o {
                    let x0 = choose|x0: int| 0 <= x0 < out0.len() && out0[x0] == o2;
                    assert(out@[x0] == o2);
                } else {
                    assert(out@[out@.len() - 1] == o2);
                }
            }
        }
        o = o + 1;
    }
    out
}

/// Order the hits newest-first and keep the newest `limit` of them (0
/// meaning all): repeatedly take the newest remaining hit, so that every
/// hit left out is older than everything kept.
fn select_newest(store: &EventStore, filters: &Vec<Filter>, hits: Vec<usize>, limit: usize) -> (r:
    Vec<usize>)
    requires
        store.wf(),
        forall|x: int|
            0 <= x < hits@.len() ==> hits@[x] < store.events@.len() && req_hit(
                *store,
                filters@,
                hits@[x] as int,
            ),
        forall|x1: int, x2: int| 0 <= x1 < x2 < hits@.len() ==> hits@[x1] < hits@[x2],
        forall|o2: int|
            0 <= o2 < store.events@.len() && req_hit(*store, filters@, o2) ==> exists|x: int|
                0 <= x < hits@.len() && hits@[x] == o2,
    ensures
        forall|x: int|
            0 <= x < r@.len() ==> r@[x] < store.events@.len() && req_hit(
                *store,
                filters@,
                r@[x] as int,
            ),
        forall|x1: int, x2: int|
            0 <= x1 < x2 < r@.len() ==> newer_first(*store, r@[x1] as int, r@[x2] as int),
        limit == 0 ==> forall|o2: int|
            0 <= o2 < store.events@.len() && req_hit(*store, filters@, o2) ==> exists|x: int|
                0 <= x < r@.len() && r@[x] == o2,
        limit > 0 ==> r@.len() <= limit,
        limit > 0 && r@.len() < limit ==> forall|o2: int|
            0 <= o2 < store.events@.len() && req_hit(*store, filters@, o2) ==> exists|x: int|
                0 <= x < r@.len() && r@[x] == o2,
        forall|o2: int|
            0 <= o2 < store.events@.len() && #[trigger] req_hit(*store, filters@, o2) && !(
            exists|x: int| 0 <= x < r@.len() && r@[x] == o2) ==> (forall|x: int|
                0 <= x < r@.len() ==> newer_first(*store, r@[x] as int, o2)),
{
    let mut remaining = hits;
    let mut sel: Vec<usize> = Vec::new();
    while remaining.len() > 0 && (limit == 0 || sel.len() < limit)
        invariant
            store.wf(),
            forall|y: int|
                0 <= y < remaining@.len() ==> remaining@[y] < store.events@.len() && req_hit(
                    *store,
                    filters@,
                    remaining@[y] as int,
                ),
            forall|y1: int, y2: int|
                0 <= y1 < y2 < remaining@.len() ==> remaining@[y1] < remaining@[y2],
            forall|x: int|
                0 <= x < sel@.len() ==> sel@[x] < store.events@.len() && req_hit(
                    *store,
                    filters@,
                    sel@[x] as int,
                ),
            forall|x1: int, x2: int|
                0 <= x1 < x2 < sel@.len() ==> newer_first(*store, sel@[x1] as int, sel@[x2] as int),
            forall|x: int, y: int|
                0 <= x < sel@.len() && 0 <= y < remaining@.len() ==> newer_first(
                    *store,
                    sel@[x] as int,
                    remaining@[y] as int,
                ),
            forall|o2: int|
                0 <= o2 < store.events@.len() && req_hit(*store, filters@, o2) ==> (exists|x: int|
                    0 <= x < sel@.len() && sel@[x] == o2) || (exists|y: int|
                    0 <= y < remaining@.len() && remaining@[y] == o2),
            limit > 0 ==> sel@.len() <= limit,
        decreases remaining@.len(),
    {
        let mut bi: usize = 0;
        let mut k: usize = 1;
        while k < remaining.len()
            invariant
                store.wf(),
                remaining@.len() > 0,
                forall|y: int|
                    0 <= y < remaining@.len() ==> remaining@[y] < store.events@.len(),
                forall|y1: int, y2: int|
                    0 <= y1 < y2 < remaining@.len() ==> remaining@[y1] < remaining@[y2],
                0 <= bi < remaining@.len(),
                1 <= k <= remaining@.len(),
                bi < k,
                forall|y: int|
                    0 <= y < k && y != bi ==> newer_first(
                        *store,
                        remaining@[bi as int] as int,
                        remaining@[y] as int,
                    ),
            decreases remaining@.len() - k,
        {
            if newer_first_exec(store, remaining[k], remaining[bi]) {
                bi = k;
            }
            k = k + 1;
        }
        let chosen = remaining[bi];
        let ghost rem0 = remaining@;
        let ghost sel0 = sel@;
        remaining.remove(bi);
        sel.push(chosen);
        proof {
            let post = remaining@;
            assert(post =~= rem0.subrange(0, bi as int) + rem0.subrange(
                bi as int + 1,
                rem0.len() as int,
            ));
            assert(forall|y: int| 0 <= y < bi ==> post[y] == rem0[y]);
            assert(forall|y: int| bi <= y < post.len() ==> post[y] == rem0[y + 1]);
            assert(forall|x: int| 0 <= x < sel0.len() ==> sel@[x] == sel0[x]);
            assert(sel@.last() == chosen);
            // The chosen offset is the newest remaining one.
            assert forall|y: int| 0 <= y < post.len() implies newer_first(
                *store,
                chosen as int,
                post[y] as int,
            ) by {
                if y < bi {
                    assert(post[y] == rem0[y]);
                } else {
                    assert(post[y] == rem0[y + 1]);
                }
            }
            assert forall|o2: int|
                0 <= o2 < store.events@.len() && req_hit(*store, filters@, o2) implies (
            exists|x: int| 0 <= x < sel@.len() && sel@[x] == o2) || (exists|y: int|
                0 <= y < remaining@.len() && remaining@[y] == o2) by {
                if exists|x: int| 0 <= x < sel0.len() && sel0[x] == o2 {
                    let x0 = choose|x0: int| 0 <= x0 < sel0.len() && sel0[x0] == o2;
                    assert(sel@[x0] == o2);
                } else {
                    let y0 = choose|y0: int| 0 <= y0 < rem0.len() && rem0[y0] == o2;
                    if y0 == bi {
                        assert(sel@[sel@.len() - 1] == o2);
                    } else if y0 < bi {
                        assert(post[y0] == o2);
                    } else {
                        assert(post[y0 - 1] == o2);
                    }
                }
            }
        }
    }
    proof {
        if remaining@.len() > 0 {
            assert(limit > 0 && sel@.len() >= limit);
        }
        assert forall|o2: int|
            0 <= o2 < store.events@.len() && #[trigger] req_hit(*store, filters@, o2) && !(
        exists|x: int| 0 <= x < sel@.len() && sel@[x] == o2) implies (forall|x: int|
            0 <= x < sel@.len() ==> newer_first(*store, sel@[x] as int, o2)) by {
            let y0 = choose|y0: int| 0 <= y0 < remaining@.len() && remaining@[y0] == o2;
            assert(forall|x: int|
                0 <= x < sel@.len() ==> newer_first(
                    *store,
                    sel@[x] as int,
                    remaining@[y0] as int,
                ));
        }
    }
    sel
}

/// The historical phase of a REQ: one EVENT message per stored hit of the
/// filter list, newest first (descending created_at, ties to the later
/// offset), closed by one EOSE message. A limit keeps the newest `limit`
/// hits: everything left out is older than everything sent. With no limit,
/// every hit appears, exactly once.
pub fn req_historical_messages(
    store: &EventStore,
    sub_id: &[u8],
    filters: &Vec<Filter>,
    limit: usize,
) -> (r: Vec<Vec<u8>>)
    requires
        store.wf(),
    ensures
        r@.len() >= 1,
        r@[r@.len() - 1]@ == eose_message(sub_id@),
        exists|offs: Seq<usize>| #[trigger] req_message_list(*store, filters@, sub_id@, limit, offs, r@),
{
    let hits = collect_req_hits(store, filters);
    let sel = select_newest(store, filters, hits, limit);
    let mut out: Vec<Vec<u8>> = Vec::new();
    let mut x: usize = 0;
    while x < sel.len()
        invariant
            0 <= x <= sel@.len(),
            store.wf(),
            forall|x2: int| 0 <= x2 < sel@.len() ==> sel@[x2] < store.events@.len(),
            out@.len() == x,
            forall|x2: int|
                0 <= x2 < x ==> (#[trigger] out@[x2])@ == event_message(
                    sub_id@,
                    store.events@[sel@[x2] as int].event,
                ),
        decreases sel@.len() - x,
    {
        out.push(event_message_exec(sub_id, store.get_event(sel[x])));
        x = x + 1;
    }
    let ghost final_offs = sel@;
    let ghost events_part = out@;
    out.push(eose_message_exec(sub_id));
    proof {
        assert(forall|x2: int| 0 <= x2 < events_part.len() ==> out@[x2] == events_part[x2]);
        assert(req_message_list(*store, filters@, sub_id@, limit, final_offs, out@));
    }
    out
}

/// The shape of a REQ's historical answer: the EVENT messages for the hit
/// offsets `offs` in newest-first order, then EOSE; a limit keeps only the
/// newest hits, and without one `offs` is complete.
pub open spec fn req_message_list(
    store: EventStore,
    fs: Seq<Filter>,
    sub_id: Seq<u8>,
    limit: usize,
    offs: Seq<usize>,
    msgs: Seq<Vec<u8>>,
) -> bool {
    &&& msgs.len() == offs.len() + 1
    &&& forall|x: int|
        0 <= x < offs.len() ==> offs[x] < store.events@.len() && req_hit(store, fs, offs[x] as int)
    &&& forall|x1: int, x2: int|
        0 <= x1 < x2 < offs.len() ==> newer_first(store, offs[x1] as int, offs[x2] as int)
    &&& forall|x: int|
        0 <= x < offs.len() ==> (#[trigger] msgs[x])@ == event_message(
            sub_id,
            store.events@[offs[x] as int].event,
        )
    &&& msgs[msgs.len() - 1]@ == eose_message(sub_id)
    &&& limit == 0 ==> forall|o2: int|
        0 <= o2 < store.events@.len() && req_hit(store, fs, o2) ==> exists|x: int|
            0 <= x < offs.len() && offs[x] == o2
    &&& limit > 0 ==> offs.len() <= limit
    &&& limit > 0 && offs.len() < limit ==> forall|o2: int|
        0 <= o2 < store.events@.len() && req_hit(store, fs, o2) ==> exists|x: int|
            0 <= x < offs.len() && offs[x] == o2
    &&& forall|o2: int|
        0 <= o2 < store.events@.len() && #[trigger] req_hit(store, fs, o2) && !(exists|x: int|
            0 <= x < offs.len() && offs[x] == o2) ==> (forall|x: int|
            0 <= x < offs.len() ==> newer_first(store, offs[x] as int, o2))
}

/// One parsed client-to-relay message, handed in by the socket layer.
pub enum ClientMessage {
    Event(Event),
    Req(Vec<u8>, Vec<Filter>),
    Close(Vec<u8>),
    Auth(Event),
    Unknown(Vec<u8>),
}

/// What one client message produces: the replies to send back in order, the
/// offset to publish on the bus when an event was persisted, and an accepted
/// ephemeral event — not persisted, but to be fanned out to the live
/// subscriptions of every connection.
pub struct StepOutcome {
    pub replies: Vec<Vec<u8>>,
    pub publish_offset: Option<usize>,
    pub deliver: Option<Event>,
}

/// The limit the historical scan of a REQ honours: a single filter's limit;
/// a multi-filter REQ is scanned in full.
pub open spec fn spec_req_limit(fs: Seq<Filter>) -> usize {
    if fs.len() == 1 {
        match fs[0].limit {
            Some(l) => l,
            None => 0,
        }
    } else {
        0
    }
}

/// Drive the session state machine with one client message. EVENT answers
/// OK and hands back the offset to broadcast — or, for an accepted
/// ephemeral event, the event itself for direct fan-out to live
/// subscriptions; REQ streams the historical matches newest-first and EOSE,
/// or CLOSED when over the cap; CLOSE drops the subscription silently;
/// AUTH answers OK; an unknown verb gets a NOTICE.
pub fn handle_message(
    session: &mut Session,
    store: &mut EventStore,
    msg: ClientMessage,
    admins: &Vec<Vec<u8>>,
    cfg: &SessionConfig,
    challenge: &[u8],
    now: u64,
) -> (r: StepOutcome)
    requires
        old(session).wf(),
        old(store).wf(),
    ensures
        final(session).wf(),
        final(store).wf(),
        match msg {
            ClientMessage::Event(e) => {
                let acc = spec_ingest_accepted(
                    e,
                    old(session).authed_pubkey,
                    *old(store),
                    admins@,
                    *cfg,
                );
                &&& *final(session) == *old(session)
                &&& r.replies@.len() == 1
                &&& r.replies@[0]@ == ok_message(
                    e.id@,
                    acc,
                    spec_ingest_reason(e, old(session).authed_pubkey, *old(store), admins@, *cfg),
                )
                &&& (acc && !is_ephemeral_kind(e.kind)) ==> ({
                    &&& r.publish_offset == Some(old(store).events@.len() as usize)
                    &&& final(store).events@.len() == old(store).events@.len() + 1
                    &&& final(store).events@.last().event == e
                    &&& final(store).live@[old(store).events@.len() as int]
                    &&& forall|k: int|
                        0 <= k < old(store).events@.len() ==> final(store).live@[k] == (
                        old(store).live@[k] && !(replaceable_class(e.kind) && crate::store::repl_key_eq(
                            e,
                            old(store).events@[k].event,
                        )) && !(is_deletion_kind(e.kind) && deleted_by(
                            old(store).events@[k].event,
                            e,
                        )))
                })
                &&& !(acc && !is_ephemeral_kind(e.kind)) ==> (*final(store) == *old(store)
                    && r.publish_offset is None)
                &&& (acc && is_ephemeral_kind(e.kind)) ==> (r.deliver matches Some(ev) && ev == e)
                &&& !(acc && is_ephemeral_kind(e.kind)) ==> r.deliver is None
            },
            ClientMessage::Req(sub_id, filters) => {
                &&& *final(store) == *old(store)
                &&& r.publish_offset is None
                &&& r.deliver is None
                &&& (!old(session).spec_has_sub(sub_id@) && old(session).subscriptions@.len()
                    >= cfg.max_subscriptions) ==> ({
                    &&& *final(session) == *old(session)
                    &&& r.replies@.len() == 1
                    &&& r.replies@[0]@ == closed_message(
                        sub_id@,
                        "error: too many subscriptions".spec_bytes(),
                    )
                })
                &&& !(!old(session).spec_has_sub(sub_id@) && old(session).subscriptions@.len()
                    >= cfg.max_subscriptions) ==> ({
                    &&& final(session).spec_has_sub(sub_id@)
                    &&& r.replies@.len() >= 1
                    &&& r.replies@[r.replies@.len() - 1]@ == eose_message(sub_id@)
                    &&& req_answered(
                        *old(store),
                        filters@,
                        sub_id@,
                        spec_req_limit(filters@),
                        r.replies@,
                    )
                })
            },
            ClientMessage::Close(sub_id) => {
                &&& *final(store) == *old(store)
                &&& r.publish_offset is None
                &&& r.deliver is None
                &&& r.replies@.len() == 0
                &&& !final(session).spec_has_sub(sub_id@)
                &&& forall|sid: Seq<u8>|
                    sid != sub_id@ ==> final(session).spec_has_sub(sid) == old(
                        session,
                    ).spec_has_sub(sid)
            },
            ClientMessage::Auth(ae) => {
                let ok = event_valid(ae) && ae.kind == 22242 && has_challenge_tag(ae, challenge@);
                &&& *final(store) == *old(store)
                &&& r.publish_offset is None
                &&& r.deliver is None
                &&& r.replies@.len() == 1
                &&& ok ==> r.replies@[0]@ == ok_message(ae.id@, true, Seq::empty())
                    && (final(session).authed_pubkey matches Some(pk) && pk@ == ae.pubkey@)
                &&& !ok ==> r.replies@[0]@ == ok_message(
                    ae.id@,
                    false,
                    "invalid: authentication failed".spec_bytes(),
                ) && *final(session) == *old(session)
            },
            ClientMessage::Unknown(_) => {
                &&& *final(store) == *old(store)
                &&& *final(session) == *old(session)
                &&& r.publish_offset is None
                &&& r.deliver is None
                &&& r.replies@.len() == 1
                &&& r.replies@[0]@ == notice_message("unrecognized verb".spec_bytes())
            },
        },
{
    match msg {
        ClientMessage::Event(e) => {
            let ghost ge = e;
            let id = crate::types::bytes_clone(e.id.as_slice());
            let is_del = deletion_kind(e.kind);
            let author = crate::types::bytes_clone(e.pubkey.as_slice());
            let targets = if is_del {
                e_tag_targets(&e.tags)
            } else {
                Vec::new()
            };
            let authed = &session.authed_pubkey;
            let outcome = ingest_event(e, authed, store, admins, cfg, now);
            if is_del && outcome.accepted && outcome.offset.is_some() {
                let ghost mid = *store;
                apply_deletion(store, author.as_slice(), id.as_slice(), &targets);
                proof {
                    assert(forall|k: int|
                        0 <= k < old(store).events@.len() ==> mid.events@[k] == old(
                            store,
                        ).events@[k]);
                    assert forall|k: int| 0 <= k < old(store).events@.len() implies store.live@[k]
                        == (old(store).live@[k] && !(replaceable_class(ge.kind)
                        && crate::store::repl_key_eq(ge, old(store).events@[k].event)) && !(
                    is_deletion_kind(ge.kind) && deleted_by(old(store).events@[k].event, ge))) by {
                        let entry = old(store).events@[k].event;
                        if deletion_victim(entry, author@, id@, targets@) {
                            assert(names_target(ge.tags.deep_view(), entry.id@)) by {
                                let t = choose|t: int|
                                    0 <= t < targets@.len() && (#[trigger] targets@[t])@
                                        == entry.id@ && entry.id@ != id@ && entry.pubkey@
                                        == author@;
                                assert(names_target(ge.tags.deep_view(), targets@[t]@));
                            }
                            assert(deleted_by(entry, ge));
                        }
                        if is_deletion_kind(ge.kind) && deleted_by(entry, ge) {
                            assert(deletion_victim(entry, author@, id@, targets@)) by {
                                let x = choose|x: int|
                                    0 <= x < targets@.len() && targets@[x]@ == entry.id@;
                                assert(targets@[x]@ == entry.id@);
                            }
                        }
                    }
                }
            }
            let mut replies: Vec<Vec<u8>> = Vec::new();
            replies.push(ok_message_exec(id.as_slice(), outcome.accepted, outcome.reason.as_slice()));
            StepOutcome { replies, publish_offset: outcome.offset, deliver: outcome.ephemeral }
        },
        ClientMessage::Req(sub_id, filters) => {
            let limit: usize = if filters.len() == 1 {
                match filters[0].limit {
                    Some(l) => l,
                    None => 0,
                }
            } else {
                0
            };
            let sid = crate::types::bytes_clone(sub_id.as_slice());
            let ghost gfilters = filters;
            if !session.handle_req(sub_id, filters, cfg.max_subscriptions) {
                let mut replies: Vec<Vec<u8>> = Vec::new();
                replies.push(closed_message_exec(
                    sid.as_slice(),
                    "error: too many subscriptions".as_bytes(),
                ));
                return StepOutcome { replies, publish_offset: None, deliver: None };
            }
            let filters_ref = find_sub_filters(session, sid.as_slice());
            let replies = match filters_ref {
                Some(fs_index) => {
                    proof {
                        assert(session.subscriptions@[fs_index as int].filters@ == gfilters@);
                        assert(limit == spec_req_limit(gfilters@));
                    }
                    let msgs = req_historical_messages(
                        store,
                        sid.as_slice(),
                        &session.subscriptions[fs_index].filters,
                        limit,
                    );
                    proof {
                        assert(session.spec_has_sub(sid@));
                        assert(msgs@.len() >= 1);
                        assert(msgs@[msgs@.len() - 1]@ == eose_message(sid@));
                        assert(req_answered(
                            *old(store),
                            gfilters@,
                            sid@,
                            spec_req_limit(gfilters@),
                            msgs@,
                        ));
                    }
                    msgs
                },
                None => {
                    proof {
                        assert(false);
                    }
                    Vec::new()
                },
            };
            StepOutcome { replies, publish_offset: None, deliver: None }
        },
        ClientMessage::Close(sub_id) => {
            session.handle_close(sub_id.as_slice());
            StepOutcome { replies: Vec::new(), publish_offset: None, deliver: None }
        },
        ClientMessage::Auth(ae) => {
            let ok = handle_auth(session, &ae, challenge);
            let mut replies: Vec<Vec<u8>> = Vec::new();
            if ok {
                let empty_reason: Vec<u8> = Vec::new();
                replies.push(ok_message_exec(ae.id.as_slice(), true, empty_reason.as_slice()));
            } else {
                replies.push(ok_message_exec(
                    ae.id.as_slice(),
                    false,
                    "invalid: authentication failed".as_bytes(),
                ));
            }
            StepOutcome { replies, publish_offset: None, deliver: None }
        },
        ClientMessage::Unknown(_) => {
            let mut replies: Vec<Vec<u8>> = Vec::new();
            replies.push(notice_message_exec("unrecognized verb".as_bytes()));
            StepOutcome { replies, publish_offset: None, deliver: None }
        },
    }
}

/// The index of the subscription with this name, if any.
fn find_sub_filters(session: &Session, sub_id: &[u8]) -> (r: Option<usize>)
    ensures
        r matches Some(k) ==> k < session.subscriptions@.len()
            && session.subscriptions@[k as int].id@ == sub_id@,
        r is None ==> !session.spec_has_sub(sub_id@),
{
    let mut k: usize = 0;
    while k < session.subscriptions.len()
        invariant
            0 <= k <= session.subscriptions@.len(),
            forall|j: int| 0 <= j < k ==> session.subscriptions@[j].id@ != sub_id@,
        decreases session.subscriptions@.len() - k,
    {
        if bytes_eq(session.subscriptions[k].id.as_slice(), sub_id) {
            return Some(k);
        }
        k = k + 1;
    }
    None
}


/// An entry deleted by a kind-5 event: named by one of its `e` tags,
/// written by the same author, and not the deletion event itself.
pub open spec fn deleted_by(entry: Event, del: Event) -> bool {
    names_target(del.tags.deep_view(), entry.id@) && entry.pubkey@ == del.pubkey@ && entry.id@
        != del.id@
}

/// A deletion target: some `e` tag of the event names this 32-byte id in
/// hex.
pub open spec fn names_target(tags: Seq<Seq<Seq<u8>>>, id: Seq<u8>) -> bool {
    exists|j: int|
        0 <= j < tags.len() && (#[trigger] tags[j]).len() >= 2 && tags[j][0] =~= seq![101u8]
            && tags[j][1] == hex_of(id) && id.len() == 32
}

/// Decode the event ids named by the `e` tags of an event; values that are
/// not 64 digits of lower-case hex are ignored.
pub fn e_tag_targets(tags: &Vec<Vec<Vec<u8>>>) -> (r: Vec<Vec<u8>>)
    ensures
        forall|x: int|
            0 <= x < r@.len() ==> (#[trigger] r@[x])@.len() == 32 && names_target(
                tags.deep_view(),
                r@[x]@,
            ),
        forall|id: Seq<u8>|
            names_target(tags.deep_view(), id) ==> exists|x: int|
                0 <= x < r@.len() && r@[x]@ == id,
{
    let ghost dv = tags.deep_view();
    let mut out: Vec<Vec<u8>> = Vec::new();
    let mut j: usize = 0;
    while j < tags.len()
        invariant
            0 <= j <= tags@.len(),
            dv == tags.deep_view(),
            dv.len() == tags@.len(),
            forall|x: int|
                0 <= x < out@.len() ==> (#[trigger] out@[x])@.len() == 32 && names_target(
                    dv,
                    out@[x]@,
                ),
            forall|id: Seq<u8>, j2: int|
                0 <= j2 < j && dv[j2].len() >= 2 && dv[j2][0] =~= seq![101u8] && dv[j2][1]
                    == hex_of(id) && id.len() == 32 ==> exists|x: int|
                    0 <= x < out@.len() && out@[x]@ == id,
        decreases tags@.len() - j,
    {
        let ghost out0 = out@;
        let tag = &tags[j];
        proof {
            assert(dv[j as int].len() == tags@[j as int]@.len());
            if dv[j as int].len() >= 2 {
                assert(dv[j as int][0] == tags@[j as int]@[0]@);
                assert(dv[j as int][1] == tags@[j as int]@[1]@);
            }
        }
        if tag.len() >= 2 && tag[0].len() == 1 && tag[0].as_slice()[0] == 101 {
            proof {
                assert(dv[j as int][0] =~= seq![101u8]);
            }
            if tag[1].len() == 64 {
                match hex_decode(tag[1].as_slice()) {
                    Some(raw) => {
                        proof {
                            assert(hex_of(raw@) == dv[j as int][1]);
                            assert(names_target(dv, raw@));
                        }
                        out.push(raw);
                    },
                    None => {},
                }
            }
        }
        proof {
            assert(forall|x: int| 0 <= x < out0.len() ==> out@[x] == out0[x]);
            assert forall|id: Seq<u8>, j2: int|
                0 <= j2 < j + 1 && dv[j2].len() >= 2 && dv[j2][0] =~= seq![101u8] && dv[j2][1]
                    == hex_of(id) && id.len() == 32 implies exists|x: int|
                0 <= x < out@.len() && out@[x]@ == id by {
                if j2 < j {
                    let x0 = choose|x0: int| 0 <= x0 < out0.len() && out0[x0]@ == id;
                    assert(out@[x0]@ == id);
                } else {
                    crate::hex::lemma_hex_of_is_hex(id);
                    crate::hex::lemma_hex_of_len(id);
                    assert(tags@[j as int]@[0]@ =~= seq![101u8]);
                    assert(tags@[j as int]@[0]@.len() == 1);
                    assert(tags@[j as int]@[1]@ == hex_of(id));
                    assert(tags@[j as int]@[1]@.len() == 64);
                    assert(out@.len() == out0.len() + 1);
                    let xl = out@.len() - 1;
                    assert(hex_of(out@[xl]@) == hex_of(id));
                    lemma_hex_of_injective(out@[xl]@, id);
                    assert(out@[xl]@ == id);
                }
            }
        }
        j = j + 1;
    }
    out
}

/// Whether an entry is one of the deletion's victims: named by a target,
/// written by the deleting author, and not the deletion event itself.
pub open spec fn deletion_victim(
    entry: Event,
    author: Seq<u8>,
    own_id: Seq<u8>,
    targets: Seq<Vec<u8>>,
) -> bool {
    exists|t: int|
        0 <= t < targets.len() && (#[trigger] targets[t])@ == entry.id@ && entry.id@ != own_id
            && entry.pubkey@ == author
}

/// Apply a committed deletion event: every stored entry whose id is named
/// by a target and whose author is the deleting pubkey is no longer
/// current. The deletion event itself is never its own victim.
pub fn apply_deletion(
    store: &mut EventStore,
    author: &[u8],
    own_id: &[u8],
    targets: &Vec<Vec<u8>>,
)
    requires
        old(store).wf(),
    ensures
        final(store).wf(),
        final(store).events == old(store).events,
        final(store).live@.len() == old(store).live@.len(),
        forall|k: int|
            0 <= k < final(store).live@.len() ==> final(store).live@[k] == (old(store).live@[k]
                && !deletion_victim(
                old(store).events@[k].event,
                author@,
                own_id@,
                targets@,
            )),
        final(store).event_approval == old(store).event_approval,
        final(store).pubkey_approval == old(store).pubkey_approval,
        final(store).users == old(store).users,
        final(store).ip_data == old(store).ip_data,
{
    let n = store.len();
    let mut k: usize = 0;
    while k < n
        invariant
            0 <= k <= n,
            old(store).wf(),
            store.wf(),
            n == store.events@.len(),
            store.events == old(store).events,
            store.live@.len() == old(store).live@.len(),
            store.event_approval == old(store).event_approval,
            store.pubkey_approval == old(store).pubkey_approval,
            store.users == old(store).users,
            store.ip_data == old(store).ip_data,
            forall|k2: int|
                0 <= k2 < k ==> store.live@[k2] == (old(store).live@[k2] && !deletion_victim(
                    old(store).events@[k2].event,
                    author@,
                    own_id@,
                    targets@,
                )),
            forall|k2: int| k <= k2 < n ==> store.live@[k2] == old(store).live@[k2],
        decreases n - k,
    {
        let entry_matches = {
            let entry = store.get_event(k);
            if bytes_eq(entry.pubkey.as_slice(), author) && !bytes_eq(
                entry.id.as_slice(),
                own_id,
            ) {
                let mut hit = false;
                let mut t: usize = 0;
                while t < targets.len()
                    invariant
                        0 <= t <= targets@.len(),
                        0 <= k < store.events@.len(),
                        entry == store.events@[k as int].event,
                        hit ==> exists|t2: int|
                            0 <= t2 < targets@.len() && (#[trigger] targets@[t2])@ == entry.id@,
                        !hit ==> forall|t2: int|
                            0 <= t2 < t ==> (#[trigger] targets@[t2])@ != entry.id@,
                    decreases targets@.len() - t,
                {
                    if !hit && bytes_eq(targets[t].as_slice(), entry.id.as_slice()) {
                        hit = true;
                    }
                    t = t + 1;
                }
                hit
            } else {
                false
            }
        };
        proof {
            assert(entry_matches == deletion_victim(
                old(store).events@[k as int].event,
                author@,
                own_id@,
                targets@,
            ));
        }
        if entry_matches {
            store.live[k] = false;
        }
        proof {
            let fs = *store;
            assert forall|i: int, j2: int|
                0 <= i < fs.events@.len() && 0 <= j2 < fs.events@.len() && i != j2 && fs.live@[i]
                    && fs.live@[j2] && crate::store::replaceable_class(fs.events@[i].event.kind)
                    implies !crate::store::repl_key_eq(fs.events@[i].event, fs.events@[j2].event)
                by {
                assert(old(store).live@[i] && old(store).live@[j2]);
            }
        }
        k = k + 1;
    }
}

/// A REQ over these filters was answered by `msgs`: some newest-first list
/// of hit offsets yields exactly these EVENT messages and the closing EOSE.
pub open spec fn req_answered(
    store: EventStore,
    fs: Seq<Filter>,
    sub_id: Seq<u8>,
    limit: usize,
    msgs: Seq<Vec<u8>>,
) -> bool {
    exists|offs: Seq<usize>| #[trigger] req_message_list(store, fs, sub_id, limit, offs, msgs)
}

/// The NIP-42 AUTH event names this challenge in a `challenge` tag.
pub open spec fn has_challenge_tag(e: Event, challenge: Seq<u8>) -> bool {
    exists|j: int|
        0 <= j < e.tags@.len() && (#[trigger] e.tags@[j])@.len() >= 2 && e.tags@[j]@[0]@
            == "challenge".spec_bytes() && e.tags@[j]@[1]@ == challenge
}

/// AUTH: accept a valid kind-22242 event naming the session's challenge and
/// mark the session authenticated under its pubkey.
pub fn handle_auth(session: &mut Session, e: &Event, challenge: &[u8]) -> (r: bool)
    ensures
        r == (event_valid(*e) && e.kind == 22242 && has_challenge_tag(*e, challenge@)),
        r ==> (final(session).authed_pubkey matches Some(pk) && pk@ == e.pubkey@),
        !r ==> *final(session) == *old(session),
        final(session).subscriptions == old(session).subscriptions,
{
    if e.kind != 22242 {
        return false;
    }
    let mut has_tag = false;
    let mut j: usize = 0;
    while j < e.tags.len()
        invariant
            0 <= j <= e.tags@.len(),
            has_tag ==> has_challenge_tag(*e, challenge@),
            !has_tag ==> forall|j2: int|
                0 <= j2 < j ==> !((#[trigger] e.tags@[j2])@.len() >= 2 && e.tags@[j2]@[0]@
                    == "challenge".spec_bytes() && e.tags@[j2]@[1]@ == challenge@),
        decreases e.tags@.len() - j,
    {
        if !has_tag {
            let tag = &e.tags[j];
            if tag.len() >= 2 && bytes_eq(tag[0].as_slice(), "challenge".as_bytes()) && bytes_eq(
                tag[1].as_slice(),
                challenge,
            ) {
                has_tag = true;
            }
        }
        j = j + 1;
    }
    if !has_tag {
        return false;
    }
    match validate_event(e) {
        Ok(()) => {
            session.authed_pubkey = Some(crate::types::bytes_clone(e.pubkey.as_slice()));
            true
        },
        Err(_) => false,
    }
}

} // verus!
