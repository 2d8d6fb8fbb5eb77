use chorus::bus::{Bus, BusRecv};
use chorus::codec::{compute_id, validate_event, verify_signature, ValidationError};
use chorus::filestore::{blob_path, BlobError, FileStore};
use chorus::filter::{event_matches, plan, Filter, IndexScan, TagFilter};
use chorus::hex::{hex_decode, hex_encode};
use chorus::ipban::{BanKind, IpData, IpTracker};
use chorus::session::{
    closed_message_exec, eose_message_exec, event_message_exec, handle_auth, handle_message,
    ingest_event, notice_message_exec, ok_message_exec, req_historical_messages, write_policy,
    ClientMessage, PolicyDecision, Session, SessionConfig,
};
use chorus::store::{EventStore, StoreError, UserRole};
use chorus::types::Event;

fn keypair(seed: u8) -> secp256k1::Keypair {
    let mut sk = [0u8; 32];
    sk[31] = seed;
    secp256k1::Keypair::from_secret_bytes(sk).expect("valid secret scalar")
}

fn pubkey_of(kp: &secp256k1::Keypair) -> Vec<u8> {
    kp.x_only_public_key().0.serialize().to_vec()
}

fn signed_event(
    kp: &secp256k1::Keypair,
    kind: u16,
    created_at: u64,
    tags: Vec<Vec<Vec<u8>>>,
    content: &[u8],
) -> Event {
    let mut e = Event {
        id: vec![0u8; 32],
        pubkey: pubkey_of(kp),
        created_at,
        kind,
        tags,
        content: content.to_vec(),
        sig: vec![0u8; 64],
    };
    let id = compute_id(&e);
    let sig = secp256k1::schnorr::sign_no_aux_rand(&id, kp);
    e.id = id;
    e.sig = sig.as_byte_array().to_vec();
    e
}

fn open_config() -> SessionConfig {
    SessionConfig { open_relay: true, allow_dms_to_authorized: false, max_subscriptions: 32 }
}

fn closed_config() -> SessionConfig {
    SessionConfig { open_relay: false, allow_dms_to_authorized: true, max_subscriptions: 32 }
}

#[test]
fn hex_roundtrip() {
    let bytes = vec![0x00u8, 0xab, 0xcd, 0xff];
    let hexed = hex_encode(&bytes);
    assert_eq!(hexed, b"00abcdff".to_vec());
    let back = hex_decode(&hexed).expect("valid hex");
    assert_eq!(back, bytes);
    assert!(hex_decode(b"0G").is_none());
    assert!(hex_decode(b"abc").is_none());
    assert!(hex_decode(b"AB").is_none(), "upper case is refused");
}

#[test]
fn canonical_id_matches_reference() {
    let kp = keypair(7);
    let tags = vec![vec![b"t".to_vec(), b"news\"quote".to_vec()]];
    let e = signed_event(&kp, 1, 1700000000, tags, b"hello\nworld");
    let pk_hex = String::from_utf8(hex_encode(&e.pubkey)).unwrap();
    let reference = format!(
        "[0,\"{}\",1700000000,1,[[\"t\",\"news\\\"quote\"]],\"hello\\nworld\"]",
        pk_hex
    );
    let expected = bitcoin_hashes::sha256::Hash::hash(reference.as_bytes()).to_byte_array();
    assert_eq!(e.id, expected.to_vec());
}

#[test]
fn validation_accepts_and_rejects() {
    let kp = keypair(9);
    let e = signed_event(&kp, 1, 100, vec![], b"ok");
    assert!(validate_event(&e).is_ok());
    assert!(verify_signature(&e));

    let mut bad_sig = signed_event(&kp, 1, 100, vec![], b"ok");
    bad_sig.sig[10] ^= 0x01;
    assert!(matches!(validate_event(&bad_sig), Err(ValidationError::BadSignature)));

    let mut bad_id = signed_event(&kp, 1, 100, vec![], b"ok");
    bad_id.id[0] ^= 0x01;
    assert!(matches!(validate_event(&bad_id), Err(ValidationError::BadId)));

    let mut bad_field = signed_event(&kp, 1, 100, vec![], b"ok");
    bad_field.pubkey.pop();
    assert!(matches!(validate_event(&bad_field), Err(ValidationError::BadField)));
}

#[test]
fn ingest_and_historical_fetch() {
    let kp = keypair(11);
    let e = signed_event(&kp, 1, 100, vec![], b"first post");
    let mut store = EventStore::new();
    let offset = store.store_event(e, 1000).expect("stored");
    assert_eq!(offset, 0);

    let stored = store.get_event(0);
    let filter = Filter {
        ids: vec![stored.id.clone()],
        authors: vec![],
        kinds: vec![],
        tags: vec![],
        since: None,
        until: None,
        limit: None,
    };
    let hits = store.find_events(&filter, true, 0, 0);
    assert_eq!(hits, vec![0usize]);

    let miss = Filter {
        ids: vec![vec![0u8; 32]],
        authors: vec![],
        kinds: vec![],
        tags: vec![],
        since: None,
        until: None,
        limit: None,
    };
    assert!(store.find_events(&miss, true, 0, 0).is_empty());
}

#[test]
fn replacement_keeps_only_newest() {
    let kp = keypair(13);
    let old_meta = signed_event(&kp, 0, 100, vec![], b"old profile");
    let new_meta = signed_event(&kp, 0, 200, vec![], b"new profile");
    let mut store = EventStore::new();
    store.store_event(old_meta, 1000).expect("stored");
    let new_offset = store.store_event(new_meta, 1001).expect("replaces");
    assert!(!store.is_live(0));
    assert!(store.is_live(new_offset));

    let pk_hex = hex_encode(&pubkey_of(&kp));
    let filter = Filter {
        ids: vec![],
        authors: vec![pk_hex],
        kinds: vec![0],
        tags: vec![],
        since: None,
        until: None,
        limit: None,
    };
    let hits = store.find_events(&filter, true, 0, 0);
    assert_eq!(hits, vec![new_offset]);
    assert_eq!(store.get_event(new_offset).content, b"new profile".to_vec());

    let older = signed_event(&kp, 0, 150, vec![], b"stale profile");
    assert!(matches!(store.store_event(older, 1002), Err(StoreError::Superseded)));
}

#[test]
fn parameterized_replacement_is_keyed_by_d_tag() {
    let kp = keypair(14);
    let a1 = signed_event(&kp, 30000, 100, vec![vec![b"d".to_vec(), b"a".to_vec()]], b"a v1");
    let a2 = signed_event(&kp, 30000, 200, vec![vec![b"d".to_vec(), b"a".to_vec()]], b"a v2");
    let b1 = signed_event(&kp, 30000, 150, vec![vec![b"d".to_vec(), b"b".to_vec()]], b"b v1");
    let mut store = EventStore::new();
    store.store_event(a1, 1).expect("stored");
    store.store_event(b1, 2).expect("different d value is kept");
    store.store_event(a2, 3).expect("replaces the same d value");
    assert!(!store.is_live(0));
    assert!(store.is_live(1));
    assert!(store.is_live(2));
}

#[test]
fn duplicate_is_rejected() {
    let kp = keypair(15);
    let e = signed_event(&kp, 1, 100, vec![], b"once");
    let copy = e.clone();
    let mut store = EventStore::new();
    store.store_event(e, 1).expect("stored");
    assert!(matches!(store.store_event(copy, 2), Err(StoreError::Duplicate)));
}

#[test]
fn ingest_outcomes_and_ok_messages() {
    let kp = keypair(16);
    let e = signed_event(&kp, 1, 100, vec![], b"hi");
    let id = e.id.clone();
    let dup = e.clone();
    let mut store = EventStore::new();
    let cfg = open_config();
    let admins: Vec<Vec<u8>> = vec![];
    let authed: Option<Vec<u8>> = None;

    let first = ingest_event(e, &authed, &mut store, &admins, &cfg, 1000);
    assert!(first.accepted);
    assert_eq!(first.offset, Some(0));
    let ok = ok_message_exec(&id, true, &first.reason);
    let id_hex = String::from_utf8(hex_encode(&id)).unwrap();
    assert_eq!(ok, format!("[\"OK\",\"{}\",true,\"\"]", id_hex).into_bytes());

    let second = ingest_event(dup, &authed, &mut store, &admins, &cfg, 1001);
    assert!(!second.accepted);
    assert_eq!(second.reason, b"duplicate: already have this event".to_vec());
    let not_ok = ok_message_exec(&id, false, &second.reason);
    assert_eq!(
        not_ok,
        format!("[\"OK\",\"{}\",false,\"duplicate: already have this event\"]", id_hex)
            .into_bytes()
    );
}

#[test]
fn bad_signature_is_rejected_and_bans_escalate() {
    let kp = keypair(17);
    let mut e = signed_event(&kp, 1, 100, vec![], b"hi");
    e.sig[0] ^= 0xff;
    let mut store = EventStore::new();
    let cfg = open_config();
    let admins: Vec<Vec<u8>> = vec![];
    let outcome = ingest_event(e, &None, &mut store, &admins, &cfg, 1000);
    assert!(!outcome.accepted);
    assert_eq!(outcome.reason, b"invalid: bad signature".to_vec());
    assert_eq!(store.len(), 0);

    let mut tracker = IpTracker::new();
    let ip = [192u8, 0, 2, 1];
    let first = tracker.ban(&ip, BanKind::AuthFail, 1000);
    assert_eq!(first, 120);
    assert!(tracker.is_banned(&ip, 1000));
    assert!(tracker.is_banned(&ip, 1119));
    assert!(!tracker.is_banned(&ip, 1120));
    let second = tracker.ban(&ip, BanKind::AuthFail, 1010);
    assert_eq!(second, 240, "the second offence is banned for longer");
    assert!(tracker.is_banned(&ip, 1249));
}

#[test]
fn ban_deadline_never_moves_backwards() {
    let mut data = IpData::new();
    let mut last_until = 0u64;
    let times = [100u64, 50, 200, 10, 300];
    for now in times {
        data.ban(BanKind::BadProtocol, now);
        assert!(data.ban_until >= last_until);
        last_until = data.ban_until;
    }
    assert_eq!(data.bad_protocol, 5);
    assert_eq!(data.escalation, 5);
}

#[test]
fn commit_times_are_monotone() {
    let kp = keypair(18);
    let mut store = EventStore::new();
    let e1 = signed_event(&kp, 1, 1, vec![], b"one");
    let e2 = signed_event(&kp, 1, 2, vec![], b"two");
    let e3 = signed_event(&kp, 1, 3, vec![], b"three");
    store.store_event(e1, 500).unwrap();
    store.store_event(e2, 400).unwrap();
    store.store_event(e3, 600).unwrap();
    assert_eq!(store.events[0].commit_time, 500);
    assert_eq!(store.events[1].commit_time, 500, "a lagging clock is clamped");
    assert_eq!(store.events[2].commit_time, 600);
}

#[test]
fn removal_hides_an_event_from_every_filter() {
    let kp = keypair(19);
    let e = signed_event(&kp, 1, 100, vec![], b"soon gone");
    let id = e.id.clone();
    let mut store = EventStore::new();
    store.store_event(e, 1).unwrap();
    let all = Filter {
        ids: vec![],
        authors: vec![],
        kinds: vec![],
        tags: vec![],
        since: None,
        until: None,
        limit: None,
    };
    assert_eq!(store.find_events(&all, false, 0, 0), vec![0usize]);
    store.remove_event(&id);
    assert!(store.find_events(&all, false, 0, 0).is_empty());
}

#[test]
fn moderation_overlay_hides_banned_events() {
    let kp = keypair(20);
    let e = signed_event(&kp, 1, 100, vec![], b"moderated");
    let id = e.id.clone();
    let pk = pubkey_of(&kp);
    let mut store = EventStore::new();
    store.store_event(e, 1).unwrap();
    let all = Filter {
        ids: vec![],
        authors: vec![],
        kinds: vec![],
        tags: vec![],
        since: None,
        until: None,
        limit: None,
    };
    store.mark_event_approval(id.clone(), false);
    assert!(store.find_events(&all, true, 0, 0).is_empty());
    assert_eq!(store.find_events(&all, false, 0, 0), vec![0usize]);
    store.mark_event_approval(id, true);
    assert_eq!(store.find_events(&all, true, 0, 0), vec![0usize]);
    store.mark_pubkey_approval(pk, false);
    assert!(store.find_events(&all, true, 0, 0).is_empty());
}

#[test]
fn filter_dimensions() {
    let kp = keypair(21);
    let tags = vec![vec![b"t".to_vec(), b"rust".to_vec()], vec![b"p".to_vec(), b"ab".to_vec()]];
    let e = signed_event(&kp, 1, 500, tags, b"tagged");
    let pk_hex = hex_encode(&pubkey_of(&kp));

    let mut f = Filter {
        ids: vec![],
        authors: vec![pk_hex[..8].to_vec()],
        kinds: vec![1],
        tags: vec![TagFilter { letter: b't', values: vec![b"rust".to_vec()] }],
        since: Some(400),
        until: Some(600),
        limit: None,
    };
    assert!(event_matches(&f, &e));

    f.kinds = vec![2];
    assert!(!event_matches(&f, &e));
    f.kinds = vec![1];
    f.since = Some(501);
    assert!(!event_matches(&f, &e));
    f.since = Some(400);
    f.tags = vec![TagFilter { letter: b't', values: vec![b"go".to_vec()] }];
    assert!(!event_matches(&f, &e));
    f.tags = vec![TagFilter { letter: b't', values: vec![] }];
    assert!(event_matches(&f, &e), "an empty value set places no constraint");
    f.authors = vec![b"ffff".to_vec(), pk_hex];
    assert!(event_matches(&f, &e));
}

#[test]
fn find_events_honours_since_offset_and_limit() {
    let kp = keypair(22);
    let mut store = EventStore::new();
    for i in 0..5u64 {
        let e = signed_event(&kp, 1, 100 + i, vec![], format!("n{}", i).as_bytes());
        store.store_event(e, i).unwrap();
    }
    let all = Filter {
        ids: vec![],
        authors: vec![],
        kinds: vec![],
        tags: vec![],
        since: None,
        until: None,
        limit: None,
    };
    assert_eq!(store.find_events(&all, false, 0, 0), vec![0, 1, 2, 3, 4]);
    assert_eq!(store.find_events(&all, false, 3, 0), vec![3, 4]);
    assert_eq!(store.find_events(&all, false, 0, 2), vec![0, 1]);
}

#[test]
fn realtime_delivery_reaches_matching_subscriptions() {
    let kp_b = keypair(23);
    let mut store = EventStore::new();
    let mut bus = Bus::new(512);
    let mut session_a = Session::new();
    let kinds_filter = Filter {
        ids: vec![],
        authors: vec![],
        kinds: vec![1],
        tags: vec![],
        since: None,
        until: None,
        limit: None,
    };
    assert!(session_a.handle_req(b"s".to_vec(), vec![kinds_filter], 32));

    let e = signed_event(&kp_b, 1, 100, vec![], b"realtime");
    let outcome = ingest_event(e, &None, &mut store, &vec![], &open_config(), 1000);
    let offset = outcome.offset.expect("persisted");
    bus.publish(offset as u64);

    let (msg, cursor) = bus.recv(0);
    match msg {
        BusRecv::Msg(o) => assert_eq!(o, offset as u64),
        _ => panic!("expected a message"),
    }
    assert_eq!(cursor, 1);

    let delivered = session_a.matching_subscriptions(store.get_event(offset));
    assert_eq!(delivered, vec![0usize]);
    let wire = event_message_exec(b"s", store.get_event(offset));
    let text = String::from_utf8(wire).unwrap();
    assert!(text.starts_with("[\"EVENT\",\"s\",{\"id\":\""));
    assert!(text.contains("\"content\":\"realtime\""));

    let kp_other = keypair(24);
    let nonmatching = signed_event(&kp_other, 7, 100, vec![], b"other kind");
    assert!(session_a.matching_subscriptions(&nonmatching).is_empty());
}

#[test]
fn bus_signals_lag() {
    let mut bus = Bus::new(2);
    for o in 0..5u64 {
        bus.publish(o);
    }
    let (msg, cursor) = bus.recv(0);
    match msg {
        BusRecv::Lagged(n) => assert_eq!(n, 3),
        _ => panic!("expected a lag signal"),
    }
    assert_eq!(cursor, 3);
    let (msg2, cursor2) = bus.recv(cursor);
    match msg2 {
        BusRecv::Msg(o) => assert_eq!(o, 3),
        _ => panic!("expected a message"),
    }
    let (msg3, _) = bus.recv(5);
    assert!(matches!(msg3, BusRecv::Empty));
    assert_eq!(cursor2, 4);
}

#[test]
fn subscriptions_cap_replace_and_close() {
    let mut session = Session::new();
    let empty = || Filter {
        ids: vec![],
        authors: vec![],
        kinds: vec![],
        tags: vec![],
        since: None,
        until: None,
        limit: None,
    };
    assert!(session.handle_req(b"a".to_vec(), vec![empty()], 2));
    assert!(session.handle_req(b"b".to_vec(), vec![empty()], 2));
    assert!(!session.handle_req(b"c".to_vec(), vec![empty()], 2), "over the cap");
    assert!(session.handle_req(b"a".to_vec(), vec![empty(), empty()], 2), "replacement");
    assert_eq!(session.subscriptions.len(), 2);
    session.handle_close(b"a");
    assert_eq!(session.subscriptions.len(), 1);
    assert_eq!(session.subscriptions[0].id, b"b".to_vec());
}

#[test]
fn write_policy_order() {
    let kp = keypair(25);
    let e = signed_event(&kp, 1, 100, vec![], b"post");
    let pk = pubkey_of(&kp);
    let mut store = EventStore::new();
    let closed = closed_config();

    assert_eq!(
        write_policy(&e, &None, &store, &vec![], &closed),
        PolicyDecision::RejectAuthRequired
    );
    assert_eq!(
        write_policy(&e, &Some(vec![9u8; 32]), &store, &vec![], &closed),
        PolicyDecision::RejectRestricted
    );
    assert_eq!(
        write_policy(&e, &None, &store, &vec![pk.clone()], &closed),
        PolicyDecision::Accept,
        "admins always write"
    );
    store.set_user_role(pk.clone(), UserRole::Moderator);
    assert_eq!(
        write_policy(&e, &None, &store, &vec![], &closed),
        PolicyDecision::Accept,
        "moderators always write"
    );
    store.set_user_role(pk.clone(), UserRole::Removed);
    assert_eq!(
        write_policy(&e, &Some(pk.clone()), &store, &vec![], &closed),
        PolicyDecision::RejectRestricted
    );
    store.set_user_role(pk.clone(), UserRole::Regular);
    assert_eq!(
        write_policy(&e, &Some(pk.clone()), &store, &vec![], &closed),
        PolicyDecision::Accept,
        "authenticated authorized users write"
    );

    let deletion = signed_event(&kp, 5, 100, vec![], b"");
    assert_eq!(
        write_policy(&deletion, &None, &EventStore::new(), &vec![], &closed),
        PolicyDecision::Accept,
        "deletions pass"
    );

    let kp_target = keypair(26);
    let target_pk = pubkey_of(&kp_target);
    let mut store2 = EventStore::new();
    store2.set_user_role(target_pk.clone(), UserRole::Regular);
    let dm = signed_event(
        &kp,
        4,
        100,
        vec![vec![b"p".to_vec(), hex_encode(&target_pk)]],
        b"dm",
    );
    assert_eq!(
        write_policy(&dm, &None, &store2, &vec![], &closed),
        PolicyDecision::Accept,
        "events addressed to an authorized user pass"
    );
}

#[test]
fn ephemeral_events_are_delivered_but_not_persisted() {
    let kp = keypair(27);
    let e = signed_event(&kp, 20001, 100, vec![], b"fleeting");
    let mut store = EventStore::new();
    let outcome = ingest_event(e, &None, &mut store, &vec![], &open_config(), 1);
    assert!(outcome.accepted);
    assert!(outcome.offset.is_none());
    assert_eq!(store.len(), 0);
    let handed_back = outcome.ephemeral.expect("the event comes back for fan-out");
    assert_eq!(handed_back.content, b"fleeting".to_vec());

    // Through the session step: a live subscription on the kind still sees it.
    let mut listener = Session::new();
    let eph_filter = Filter {
        ids: vec![],
        authors: vec![],
        kinds: vec![20001],
        tags: vec![],
        since: None,
        until: None,
        limit: None,
    };
    assert!(listener.handle_req(b"eph".to_vec(), vec![eph_filter], 32));
    let mut sender = Session::new();
    let e2 = signed_event(&kp, 20001, 101, vec![], b"fleeting again");
    let step = handle_message(
        &mut sender,
        &mut store,
        ClientMessage::Event(e2),
        &vec![],
        &open_config(),
        b"",
        2,
    );
    assert!(step.publish_offset.is_none());
    let deliver = step.deliver.expect("delivered live");
    assert_eq!(listener.matching_subscriptions(&deliver), vec![0usize]);
    assert_eq!(store.len(), 0, "still nothing persisted");
}

#[test]
fn auth_challenge_flow() {
    let kp = keypair(28);
    let mut session = Session::new();
    let challenge = b"abc123";
    let wrong = signed_event(
        &kp,
        22242,
        100,
        vec![vec![b"challenge".to_vec(), b"zzz".to_vec()]],
        b"",
    );
    assert!(!handle_auth(&mut session, &wrong, challenge));
    assert!(session.authed_pubkey.is_none());

    let right = signed_event(
        &kp,
        22242,
        100,
        vec![vec![b"challenge".to_vec(), challenge.to_vec()]],
        b"",
    );
    assert!(handle_auth(&mut session, &right, challenge));
    assert_eq!(session.authed_pubkey, Some(pubkey_of(&kp)));
}

#[test]
fn relay_messages_have_wire_shape() {
    assert_eq!(eose_message_exec(b"sub1"), b"[\"EOSE\",\"sub1\"]".to_vec());
    assert_eq!(
        closed_message_exec(b"sub1", b"error: too many subscriptions"),
        b"[\"CLOSED\",\"sub1\",\"error: too many subscriptions\"]".to_vec()
    );
    assert_eq!(
        notice_message_exec(b"shutting down"),
        b"[\"NOTICE\",\"shutting down\"]".to_vec()
    );
    assert_eq!(
        notice_message_exec(b"say \"hi\""),
        b"[\"NOTICE\",\"say \\\"hi\\\"\"]".to_vec()
    );
    assert_eq!(
        notice_message_exec(&[b'x', 0x01, b'y']),
        b"[\"NOTICE\",\"x\\u0001y\"]".to_vec(),
        "control bytes are u-escaped on the wire"
    );
    assert_eq!(
        notice_message_exec(&[0x0a, 0x1f]),
        b"[\"NOTICE\",\"\\n\\u001f\"]".to_vec(),
        "named escapes stay short; the rest take the u form"
    );
}

#[test]
fn blob_store_roundtrip() {
    let mut fs = FileStore::new(b"/srv/blobs".to_vec());
    let content = b"blossom blob body".to_vec();
    let expected = bitcoin_hashes::sha256::Hash::hash(&content).to_byte_array().to_vec();

    let (size, hash, _mime) = fs.store(content.clone(), None, 50).expect("stored");
    assert_eq!(size, content.len() as u64);
    assert_eq!(hash, expected);

    assert_eq!(fs.retrieve(&hash), Some(content.clone()));
    assert_eq!(fs.metadata(&hash), Some((content.len() as u64, 50)));

    fs.delete(&hash).expect("deleted");
    assert!(fs.retrieve(&hash).is_none());
    assert!(matches!(fs.delete(&hash), Err(BlobError::NotFound)));
}

#[test]
fn blob_store_verifies_the_authorized_hash() {
    let mut fs = FileStore::new(b"/srv/blobs".to_vec());
    let content = b"payload".to_vec();
    let good = bitcoin_hashes::sha256::Hash::hash(&content).to_byte_array().to_vec();
    let bad = vec![0u8; 32];
    assert!(matches!(fs.store(content.clone(), Some(bad), 1), Err(BlobError::HashMismatch)));
    assert!(fs.retrieve(&good).is_none());
    let (_, hash, _) = fs.store(content, Some(good.clone()), 2).expect("matching hash");
    assert_eq!(hash, good);
}

#[test]
fn blob_store_sniffs_mime() {
    let mut fs = FileStore::new(b"/srv/blobs".to_vec());
    let mut gif = b"GIF89a".to_vec();
    gif.extend_from_slice(&[0u8; 32]);
    let (_, _, mime) = fs.store(gif, None, 1).expect("stored");
    assert_eq!(mime, Some(b"image/gif".to_vec()));
}

#[test]
fn blob_paths_fan_out() {
    let hash = bitcoin_hashes::sha256::Hash::hash(b"x").to_byte_array();
    let hex = String::from_utf8(hex_encode(&hash)).unwrap();
    let path = blob_path(b"/srv/blobs", &hash);
    let expected = format!("/srv/blobs/{}/{}/{}", &hex[0..2], &hex[2..4], hex);
    assert_eq!(path, expected.into_bytes());

    let fs = FileStore::new(b"/srv/blobs".to_vec());
    let tmp = fs.tmpfile().expect("nonce drawn");
    assert_eq!(tmp.len(), b"/srv/blobs/temp".len() + 33);
    assert!(tmp.starts_with(b"/srv/blobs/temp/"));
}

#[test]
fn ip_data_rides_in_the_store() {
    let mut store = EventStore::new();
    let ip = [10u8, 0, 0, 1];
    let mut data = store.get_ip_data(&ip);
    assert_eq!(data.ban_until, 0);
    data.ban(BanKind::ScrapeAttempt, 500);
    store.set_ip_data(ip.to_vec(), data);
    let read_back = store.get_ip_data(&ip);
    assert_eq!(read_back.ban_until, 560);
    assert!(read_back.is_banned(559));
    assert!(!read_back.is_banned(560));
}

#[test]
fn req_historical_phase_streams_events_then_eose() {
    let kp = keypair(29);
    let mut store = EventStore::new();
    let e1 = signed_event(&kp, 1, 100, vec![], b"first");
    let e2 = signed_event(&kp, 7, 150, vec![], b"off kind");
    let e3 = signed_event(&kp, 1, 200, vec![], b"second");
    store.store_event(e1, 1).unwrap();
    store.store_event(e2, 2).unwrap();
    store.store_event(e3, 3).unwrap();

    let kind_one = Filter {
        ids: vec![],
        authors: vec![],
        kinds: vec![1],
        tags: vec![],
        since: None,
        until: None,
        limit: None,
    };
    let msgs = req_historical_messages(&store, b"s", &vec![kind_one], 0);
    assert_eq!(msgs.len(), 3);
    let newest = String::from_utf8(msgs[0].clone()).unwrap();
    let older = String::from_utf8(msgs[1].clone()).unwrap();
    assert!(newest.contains("\"content\":\"second\""), "newest first");
    assert!(older.contains("\"content\":\"first\""));
    assert_eq!(msgs[2], b"[\"EOSE\",\"s\"]".to_vec());

    let limited = req_historical_messages(&store, b"s", &vec![Filter {
        ids: vec![],
        authors: vec![],
        kinds: vec![],
        tags: vec![],
        since: None,
        until: None,
        limit: None,
    }], 2);
    assert_eq!(limited.len(), 3, "two events and the EOSE");
}

#[test]
fn event_then_req_over_the_wire() {
    let kp = keypair(30);
    let mut store = EventStore::new();
    let mut bus = Bus::new(512);
    let cfg = open_config();
    let admins: Vec<Vec<u8>> = vec![];

    // A client sends a valid kind-1 event and gets OK true.
    let e = signed_event(&kp, 1, 100, vec![], b"hello relay");
    let id_hex = String::from_utf8(hex_encode(&e.id)).unwrap();
    let mut writer = Session::new();
    let step = handle_message(
        &mut writer,
        &mut store,
        ClientMessage::Event(e),
        &admins,
        &cfg,
        b"",
        1000,
    );
    assert_eq!(step.replies.len(), 1);
    assert_eq!(
        step.replies[0],
        format!("[\"OK\",\"{}\",true,\"\"]", id_hex).into_bytes()
    );
    let offset = step.publish_offset.expect("persisted");
    bus.publish(offset as u64);

    // A second connection asks for it by id and gets the event, then EOSE.
    let mut reader = Session::new();
    let id = hex_decode(id_hex.as_bytes()).unwrap();
    let by_id = Filter {
        ids: vec![id.clone()],
        authors: vec![],
        kinds: vec![],
        tags: vec![],
        since: None,
        until: None,
        limit: None,
    };
    let step = handle_message(
        &mut reader,
        &mut store,
        ClientMessage::Req(b"s".to_vec(), vec![by_id]),
        &admins,
        &cfg,
        b"",
        1001,
    );
    assert_eq!(step.replies.len(), 2);
    let first = String::from_utf8(step.replies[0].clone()).unwrap();
    assert!(first.starts_with("[\"EVENT\",\"s\","));
    assert!(first.contains(&format!("\"id\":\"{}\"", id_hex)));
    assert_eq!(step.replies[1], b"[\"EOSE\",\"s\"]".to_vec());

    // CLOSE drops the subscription silently; unknown verbs get a NOTICE.
    let step = handle_message(
        &mut reader,
        &mut store,
        ClientMessage::Close(b"s".to_vec()),
        &admins,
        &cfg,
        b"",
        1002,
    );
    assert!(step.replies.is_empty());
    assert!(reader.subscriptions.is_empty());
    let step = handle_message(
        &mut reader,
        &mut store,
        ClientMessage::Unknown(b"COUNT".to_vec()),
        &admins,
        &cfg,
        b"",
        1003,
    );
    assert_eq!(step.replies[0], b"[\"NOTICE\",\"unrecognized verb\"]".to_vec());
}

#[test]
fn req_over_the_cap_is_closed() {
    let mut store = EventStore::new();
    let cfg = SessionConfig { open_relay: true, allow_dms_to_authorized: false, max_subscriptions: 1 };
    let admins: Vec<Vec<u8>> = vec![];
    let mut session = Session::new();
    let empty = || Filter {
        ids: vec![],
        authors: vec![],
        kinds: vec![],
        tags: vec![],
        since: None,
        until: None,
        limit: None,
    };
    let step = handle_message(
        &mut session,
        &mut store,
        ClientMessage::Req(b"a".to_vec(), vec![empty()]),
        &admins,
        &cfg,
        b"",
        1,
    );
    assert_eq!(step.replies.last().unwrap(), &b"[\"EOSE\",\"a\"]".to_vec());
    let step = handle_message(
        &mut session,
        &mut store,
        ClientMessage::Req(b"b".to_vec(), vec![empty()]),
        &admins,
        &cfg,
        b"",
        2,
    );
    assert_eq!(
        step.replies[0],
        b"[\"CLOSED\",\"b\",\"error: too many subscriptions\"]".to_vec()
    );
}

#[test]
fn plans_pick_the_most_selective_index() {
    let empty = Filter {
        ids: vec![],
        authors: vec![],
        kinds: vec![],
        tags: vec![],
        since: None,
        until: None,
        limit: None,
    };
    assert_eq!(plan(&empty), IndexScan::FullScan);
    let mut f = Filter { since: Some(5), ..empty_filter() };
    assert_eq!(plan(&f), IndexScan::ByTimeRange);
    f.tags = vec![TagFilter { letter: b't', values: vec![b"x".to_vec()] }];
    assert_eq!(plan(&f), IndexScan::ByTags);
    f.kinds = vec![1];
    assert_eq!(plan(&f), IndexScan::ByAuthorsKinds);
    f.ids = vec![vec![0u8; 32]];
    assert_eq!(plan(&f), IndexScan::ByIds);
}

fn empty_filter() -> Filter {
    Filter {
        ids: vec![],
        authors: vec![],
        kinds: vec![],
        tags: vec![],
        since: None,
        until: None,
        limit: None,
    }
}

#[test]
fn deletion_events_remove_their_authors_targets() {
    let kp = keypair(31);
    let other = keypair(32);
    let mut store = EventStore::new();
    let cfg = open_config();
    let admins: Vec<Vec<u8>> = vec![];
    let mut session = Session::new();

    let victim = signed_event(&kp, 1, 100, vec![], b"to be deleted");
    let victim_id_hex = hex_encode(&victim.id);
    let foreign = signed_event(&other, 1, 100, vec![], b"someone else's");
    let foreign_id_hex = hex_encode(&foreign.id);
    handle_message(&mut session, &mut store, ClientMessage::Event(victim), &admins, &cfg, b"", 1);
    handle_message(&mut session, &mut store, ClientMessage::Event(foreign), &admins, &cfg, b"", 2);
    assert!(store.is_live(0));
    assert!(store.is_live(1));

    // kp deletes both by id; only kp's own event goes.
    let deletion = signed_event(
        &kp,
        5,
        200,
        vec![
            vec![b"e".to_vec(), victim_id_hex.clone()],
            vec![b"e".to_vec(), foreign_id_hex.clone()],
        ],
        b"",
    );
    let step = handle_message(
        &mut session,
        &mut store,
        ClientMessage::Event(deletion),
        &admins,
        &cfg,
        b"",
        3,
    );
    assert!(step.publish_offset.is_some());
    assert!(!store.is_live(0), "the author's event is deleted");
    assert!(store.is_live(1), "another author's event is untouched");
    assert!(store.is_live(2), "the deletion event itself stays");

    let all = Filter {
        ids: vec![],
        authors: vec![],
        kinds: vec![],
        tags: vec![],
        since: None,
        until: None,
        limit: None,
    };
    assert_eq!(store.find_events(&all, false, 0, 0), vec![1, 2]);
}

#[test]
fn a_limit_keeps_the_newest_hits() {
    let kp = keypair(33);
    let mut store = EventStore::new();
    for (i, ct) in [100u64, 300, 200].iter().enumerate() {
        let e = signed_event(&kp, 1, *ct, vec![], format!("note {}", i).as_bytes());
        store.store_event(e, i as u64).unwrap();
    }
    let all = Filter {
        ids: vec![],
        authors: vec![],
        kinds: vec![],
        tags: vec![],
        since: None,
        until: None,
        limit: None,
    };
    let msgs = req_historical_messages(&store, b"s", &vec![all], 2);
    assert_eq!(msgs.len(), 3, "the newest two and EOSE");
    let first = String::from_utf8(msgs[0].clone()).unwrap();
    let second = String::from_utf8(msgs[1].clone()).unwrap();
    assert!(first.contains("\"created_at\":300"), "the newest comes first");
    assert!(second.contains("\"created_at\":200"));
    assert!(!first.contains("\"created_at\":100") && !second.contains("\"created_at\":100"));
}

#[test]
fn equal_times_present_the_later_commit_first() {
    let kp = keypair(34);
    let mut store = EventStore::new();
    let e1 = signed_event(&kp, 1, 500, vec![], b"earlier commit");
    let e2 = signed_event(&kp, 1, 500, vec![], b"later commit");
    store.store_event(e1, 1).unwrap();
    store.store_event(e2, 2).unwrap();
    let all = Filter {
        ids: vec![],
        authors: vec![],
        kinds: vec![],
        tags: vec![],
        since: None,
        until: None,
        limit: None,
    };
    let msgs = req_historical_messages(&store, b"s", &vec![all], 0);
    let first = String::from_utf8(msgs[0].clone()).unwrap();
    assert!(first.contains("\"content\":\"later commit\""));
}

#[test]
fn blob_stamps_never_run_backwards() {
    let mut fs = FileStore::new(b"/srv/blobs".to_vec());
    let (_, h1, _) = fs.store(b"first blob".to_vec(), None, 100).expect("stored");
    let (_, h2, _) = fs.store(b"second blob".to_vec(), None, 40).expect("stored");
    let t1 = fs.metadata(&h1).unwrap().1;
    let t2 = fs.metadata(&h2).unwrap().1;
    assert_eq!(t1, 100);
    assert_eq!(t2, 100, "a lagging clock is clamped to the high-water mark");
    let (_, h3, _) = fs.store(b"third blob".to_vec(), None, 250).expect("stored");
    assert_eq!(fs.metadata(&h3).unwrap().1, 250);
    assert!(t1 <= t2 && t2 <= 250);
}
