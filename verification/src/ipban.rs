use vstd::prelude::*;
use crate::types::bytes_clone;

verus! {

/// The kinds of offence that lead to an IP ban.
#[derive(Clone, Copy, PartialEq, Eq, Structural)]
pub enum BanKind {
    BadProtocol,
    TooManySubscriptions,
    TooFastEvents,
    ScrapeAttempt,
    AuthFail,
}

/// Per-IP accounting: rolling offence counts, traffic totals, the current
/// ban deadline, and the escalation counter that lengthens repeat bans.
#[derive(Clone, Copy)]
pub struct IpData {
    pub bad_protocol: u64,
    pub too_many_subscriptions: u64,
    pub too_fast_events: u64,
    pub scrape_attempts: u64,
    pub auth_failures: u64,
    pub bytes_in: u64,
    pub bytes_out: u64,
    pub ban_until: u64,
    pub escalation: u64,
}

/// Base ban length in seconds for a first offence of each kind.
pub open spec fn spec_base_seconds(kind: BanKind) -> u64 {
    match kind {
        BanKind::BadProtocol => 10,
        BanKind::TooManySubscriptions => 10,
        BanKind::TooFastEvents => 30,
        BanKind::ScrapeAttempt => 60,
        BanKind::AuthFail => 120,
    }
}

/// Escalation is capped so that the ban length never overflows.
pub open spec fn spec_escalation_factor(escalation: u64) -> u64 {
    if escalation >= 1000 {
        1000
    } else {
        (escalation + 1) as u64
    }
}

/// Ban length for the next offence of `kind` given the state `d`: the base
/// length scaled by how often this IP has offended before.
pub open spec fn spec_ban_seconds(d: IpData, kind: BanKind) -> u64 {
    (spec_base_seconds(kind) * spec_escalation_factor(d.escalation)) as u64
}

/// Saturating addition on u64.
pub open spec fn spec_sat_add(a: u64, b: u64) -> u64 {
    if a + b > u64::MAX {
        u64::MAX
    } else {
        (a + b) as u64
    }
}

/// The state after recording one offence of `kind` at time `now`: the
/// kind's counter and the escalation counter go up, and the ban deadline
/// becomes the larger of the old deadline and now + the computed length.
pub open spec fn spec_after_ban(d: IpData, kind: BanKind, now: u64) -> IpData {
    IpData {
        bad_protocol: if kind == BanKind::BadProtocol {
            spec_sat_add(d.bad_protocol, 1)
        } else {
            d.bad_protocol
        },
        too_many_subscriptions: if kind == BanKind::TooManySubscriptions {
            spec_sat_add(d.too_many_subscriptions, 1)
        } else {
            d.too_many_subscriptions
        },
        too_fast_events: if kind == BanKind::TooFastEvents {
            spec_sat_add(d.too_fast_events, 1)
        } else {
            d.too_fast_events
        },
        scrape_attempts: if kind == BanKind::ScrapeAttempt {
            spec_sat_add(d.scrape_attempts, 1)
        } else {
            d.scrape_attempts
        },
        auth_failures: if kind == BanKind::AuthFail {
            spec_sat_add(d.auth_failures, 1)
        } else {
            d.auth_failures
        },
        bytes_in: d.bytes_in,
        bytes_out: d.bytes_out,
        ban_until: if spec_sat_add(now, spec_ban_seconds(d, kind)) > d.ban_until {
            spec_sat_add(now, spec_ban_seconds(d, kind))
        } else {
            d.ban_until
        },
        escalation: spec_sat_add(d.escalation, 1),
    }
}

fn sat_add(a: u64, b: u64) -> (r: u64)
    ensures
        r == spec_sat_add(a, b),
{
    if a <= u64::MAX - b {
        a + b
    } else {
        u64::MAX
    }
}

impl IpData {
    /// Fresh accounting state: no offences, no ban.
    pub fn new() -> (r: IpData)
        ensures
            r == spec_ip_data_init(),
    {
        IpData {
            bad_protocol: 0,
            too_many_subscriptions: 0,
            too_fast_events: 0,
            scrape_attempts: 0,
            auth_failures: 0,
            bytes_in: 0,
            bytes_out: 0,
            ban_until: 0,
            escalation: 0,
        }
    }

    /// Record an offence of `kind` at time `now` and return the ban length
    /// in seconds. The ban deadline never moves backwards.
    pub fn ban(&mut self, kind: BanKind, now: u64) -> (seconds: u64)
        ensures
            seconds == spec_ban_seconds(*old(self), kind),
            *final(self) == spec_after_ban(*old(self), kind, now),
            final(self).ban_until >= old(self).ban_until,
    {
        let base: u64 = match kind {
            BanKind::BadProtocol => 10,
            BanKind::TooManySubscriptions => 10,
            BanKind::TooFastEvents => 30,
            BanKind::ScrapeAttempt => 60,
            BanKind::AuthFail => 120,
        };
        let factor: u64 = if self.escalation >= 1000 {
            1000
        } else {
            self.escalation + 1
        };
        proof {
            assert(base * factor <= 120 * 1000) by (nonlinear_arith)
                requires
                    base <= 120,
                    factor <= 1000,
            ;
        }
        let seconds: u64 = base * factor;
        assert(seconds == spec_ban_seconds(*old(self), kind));
        match kind {
            BanKind::BadProtocol => {
                self.bad_protocol = sat_add(self.bad_protocol, 1);
            },
            BanKind::TooManySubscriptions => {
                self.too_many_subscriptions = sat_add(self.too_many_subscriptions, 1);
            },
            BanKind::TooFastEvents => {
                self.too_fast_events = sat_add(self.too_fast_events, 1);
            },
            BanKind::ScrapeAttempt => {
                self.scrape_attempts = sat_add(self.scrape_attempts, 1);
            },
            BanKind::AuthFail => {
                self.auth_failures = sat_add(self.auth_failures, 1);
            },
        }
        let deadline = sat_add(now, seconds);
        if deadline > self.ban_until {
            self.ban_until = deadline;
        }
        self.escalation = sat_add(self.escalation, 1);
        seconds
    }

    /// An IP is banned while its deadline lies in the future.
    pub fn is_banned(&self, now: u64) -> (r: bool)
        ensures
            r == (self.ban_until > now),
    {
        self.ban_until > now
    }
}

/// The initial accounting state.
pub open spec fn spec_ip_data_init() -> IpData {
    IpData {
        bad_protocol: 0,
        too_many_subscriptions: 0,
        too_fast_events: 0,
        scrape_attempts: 0,
        auth_failures: 0,
        bytes_in: 0,
        bytes_out: 0,
        ban_until: 0,
        escalation: 0,
    }
}

/// Across any run of successive offences from one IP, the ban deadline is
/// non-decreasing: each recorded offence only extends or keeps it.
pub proof fn lemma_ban_deadline_monotone(d: IpData, kind: BanKind, now: u64)
    ensures
        spec_after_ban(d, kind, now).ban_until >= d.ban_until,
{
}

#[verifier::external_type_specification]
#[verifier::external_body]
#[verifier::reject_recursive_types(K)]
#[verifier::reject_recursive_types(V)]
#[verifier::reject_recursive_types(S)]
pub struct ExDashMap<K, V, S>(dashmap::DashMap<K, V, S>);

/// What the concurrent IP map holds, as a map from raw address bytes to
/// accounting state.
pub uninterp spec fn ip_map_entries(m: dashmap::DashMap<Vec<u8>, IpData>) -> Map<Seq<u8>, IpData>;

/// Relies on dashmap's DashMap::new: a fresh map is empty.
#[verifier::external_body]
fn ipmap_new() -> (m: dashmap::DashMap<Vec<u8>, IpData>)
    ensures
        ip_map_entries(m).dom() =~= Set::<Seq<u8>>::empty(),
{
    dashmap::DashMap::new()
}

/// Relies on dashmap's DashMap::get: returns the value stored under the key,
/// if any.
#[verifier::external_body]
fn ipmap_get(m: &dashmap::DashMap<Vec<u8>, IpData>, key: &[u8]) -> (r: Option<IpData>)
    ensures
        r == (if ip_map_entries(*m).dom().contains(key@) {
            Some(ip_map_entries(*m)[key@])
        } else {
            None::<IpData>
        }),
{
    m.get(key).map(|entry| *entry)
}

/// Relies on dashmap's DashMap::insert: the key now maps to the value and
/// every other key is unaffected.
#[verifier::external_body]
fn ipmap_insert(m: &mut dashmap::DashMap<Vec<u8>, IpData>, key: Vec<u8>, val: IpData)
    ensures
        ip_map_entries(*final(m)) == ip_map_entries(*old(m)).insert(key@, val),
{
    m.insert(key, val);
}

/// The process-wide IP accounting cache, keyed by raw address bytes.
pub struct IpTracker {
    pub map: dashmap::DashMap<Vec<u8>, IpData>,
}

impl IpTracker {
    /// The accounting entries currently held.
    pub open spec fn view_entries(self) -> Map<Seq<u8>, IpData> {
        ip_map_entries(self.map)
    }

    pub fn new() -> (r: IpTracker)
        ensures
            r.view_entries() == Map::<Seq<u8>, IpData>::empty(),
    {
        IpTracker { map: ipmap_new() }
    }

    /// Record an offence for `ip`, creating the entry on first offence, and
    /// return the ban length in seconds.
    pub fn ban(&mut self, ip: &[u8], kind: BanKind, now: u64) -> (seconds: u64)
        ensures
            ({
                let prev = if old(self).view_entries().dom().contains(ip@) {
                    old(self).view_entries()[ip@]
                } else {
                    spec_ip_data_init()
                };
                &&& seconds == spec_ban_seconds(prev, kind)
                &&& final(self).view_entries() == old(self).view_entries().insert(
                    ip@,
                    spec_after_ban(prev, kind, now),
                )
                &&& spec_after_ban(prev, kind, now).ban_until >= prev.ban_until
            }),
    {
        let mut data = match ipmap_get(&self.map, ip) {
            Some(d) => d,
            None => IpData::new(),
        };
        let seconds = data.ban(kind, now);
        ipmap_insert(&mut self.map, bytes_clone(ip), data);
        seconds
    }

    /// Is this IP currently banned?
    pub fn is_banned(&self, ip: &[u8], now: u64) -> (r: bool)
        ensures
            r == (self.view_entries().dom().contains(ip@)
                && self.view_entries()[ip@].ban_until > now),
    {
        match ipmap_get(&self.map, ip) {
            Some(d) => d.is_banned(now),
            None => false,
        }
    }
}

} // verus!
