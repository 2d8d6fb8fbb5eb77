use chorus::hex::hex_encode;
use chorus::management::{error_body, error_status, handle_inner, json_to_bytes, Json, MgmtError};
use chorus::store::{EventStore, UserRole};

fn obj(entries: Vec<(&str, Json)>) -> Json {
    Json::Obj(entries.into_iter().map(|(k, v)| (k.as_bytes().to_vec(), v)).collect())
}

fn command(method: &str, params: Vec<Json>) -> Json {
    obj(vec![
        ("method", Json::Str(method.as_bytes().to_vec())),
        ("params", Json::Arr(params)),
    ])
}

fn hex_param(raw: &[u8]) -> Json {
    Json::Str(hex_encode(raw))
}

fn result_of(response: Option<Json>) -> Json {
    match response.expect("a body") {
        Json::Obj(entries) => {
            let (key, value) = entries.into_iter().next().expect("a result field");
            assert_eq!(key, b"result".to_vec());
            value
        }
        _ => panic!("expected an object"),
    }
}

fn as_hex_set(value: Json) -> Vec<Vec<u8>> {
    match value {
        Json::Arr(items) => items
            .into_iter()
            .map(|item| match item {
                Json::Str(s) => s,
                _ => panic!("expected strings"),
            })
            .collect(),
        _ => panic!("expected an array"),
    }
}

#[test]
fn ban_and_list_pubkeys() {
    let mut store = EventStore::new();
    let admin = vec![1u8; 32];
    let admins = vec![admin.clone()];
    let target = vec![2u8; 32];

    let cmd = command("banpubkey", vec![hex_param(&target)]);
    let r = handle_inner(&admin, &cmd, &mut store, &admins, 0, 0).expect("ok");
    assert!(r.is_none());

    let list = command("listbannedpubkeys", vec![]);
    let r = handle_inner(&admin, &list, &mut store, &admins, 0, 0).expect("ok");
    let banned = as_hex_set(result_of(r));
    assert_eq!(banned, vec![hex_encode(&target)]);

    let allow = command("allowpubkey", vec![hex_param(&target)]);
    handle_inner(&admin, &allow, &mut store, &admins, 0, 0).expect("ok");
    let r = handle_inner(&admin, &list, &mut store, &admins, 0, 0).expect("ok");
    assert!(as_hex_set(result_of(r)).is_empty());
    let allowed_list = command("listallowedpubkeys", vec![]);
    let r = handle_inner(&admin, &allowed_list, &mut store, &admins, 0, 0).expect("ok");
    assert_eq!(as_hex_set(result_of(r)), vec![hex_encode(&target)]);
}

#[test]
fn ban_and_list_events() {
    let mut store = EventStore::new();
    let admin = vec![1u8; 32];
    let admins = vec![admin.clone()];
    let id = vec![7u8; 32];

    handle_inner(&admin, &command("banevent", vec![hex_param(&id)]), &mut store, &admins, 0, 0)
        .expect("ok");
    let r = handle_inner(&admin, &command("listbannedevents", vec![]), &mut store, &admins, 0, 0)
        .expect("ok");
    assert_eq!(as_hex_set(result_of(r)), vec![hex_encode(&id)]);
    handle_inner(&admin, &command("allowevent", vec![hex_param(&id)]), &mut store, &admins, 0, 0)
        .expect("ok");
    let r = handle_inner(&admin, &command("listallowedevents", vec![]), &mut store, &admins, 0, 0)
        .expect("ok");
    assert_eq!(as_hex_set(result_of(r)), vec![hex_encode(&id)]);
}

#[test]
fn roles_need_an_admin() {
    let mut store = EventStore::new();
    let admin = vec![1u8; 32];
    let outsider = vec![9u8; 32];
    let admins = vec![admin.clone()];
    let target = vec![3u8; 32];

    let grant = command("grantmoderator", vec![hex_param(&target)]);
    let refused = handle_inner(&outsider, &grant, &mut store, &admins, 0, 0).expect("ok");
    match refused.expect("a body") {
        Json::Obj(entries) => {
            assert_eq!(entries.len(), 2);
            assert_eq!(entries[1].0, b"error".to_vec());
        }
        _ => panic!("expected an object"),
    }
    assert!(!store.is_moderator(&target));

    let granted = handle_inner(&admin, &grant, &mut store, &admins, 0, 0).expect("ok");
    assert!(granted.is_none());
    assert!(store.is_moderator(&target));

    let mods = handle_inner(&admin, &command("listmoderators", vec![]), &mut store, &admins, 0, 0)
        .expect("ok");
    assert_eq!(as_hex_set(result_of(mods)), vec![hex_encode(&target)]);

    let revoke = command("revokemoderator", vec![hex_param(&target)]);
    handle_inner(&admin, &revoke, &mut store, &admins, 0, 0).expect("ok");
    assert!(!store.is_moderator(&target));
    assert!(store.is_authorized_user(&target), "a revoked moderator stays a user");

    let users = handle_inner(&admin, &command("listusers", vec![]), &mut store, &admins, 0, 0)
        .expect("ok");
    assert_eq!(as_hex_set(result_of(users)), vec![hex_encode(&target)]);

    handle_inner(&admin, &command("revokeuser", vec![hex_param(&target)]), &mut store, &admins, 0, 0)
        .expect("ok");
    assert!(!store.is_authorized_user(&target));
}

#[test]
fn revoking_an_unknown_moderator_changes_nothing() {
    let mut store = EventStore::new();
    let admin = vec![1u8; 32];
    let admins = vec![admin.clone()];
    let stranger = vec![5u8; 32];
    let r = handle_inner(
        &admin,
        &command("revokemoderator", vec![hex_param(&stranger)]),
        &mut store,
        &admins,
        0,
        0,
    )
    .expect("ok");
    assert!(r.is_none());
    assert!(!store.is_authorized_user(&stranger));
    assert_eq!(store.users.len(), 0);
}

#[test]
fn introspection_methods() {
    let mut store = EventStore::new();
    let admin = vec![1u8; 32];
    let admins = vec![admin.clone()];

    let r = handle_inner(&admin, &command("numconnections", vec![]), &mut store, &admins, 42, 7)
        .expect("ok");
    match result_of(r) {
        Json::Num(n) => assert_eq!(n, 42),
        _ => panic!("expected a number"),
    }
    let r = handle_inner(&admin, &command("uptime", vec![]), &mut store, &admins, 42, 7)
        .expect("ok");
    match result_of(r) {
        Json::Num(n) => assert_eq!(n, 7),
        _ => panic!("expected a number"),
    }
    let r = handle_inner(&admin, &command("listadmins", vec![]), &mut store, &admins, 0, 0)
        .expect("ok");
    assert_eq!(as_hex_set(result_of(r)), vec![hex_encode(&admin)]);

    let r = handle_inner(&admin, &command("supportedmethods", vec![]), &mut store, &admins, 0, 0)
        .expect("ok");
    let names = as_hex_set(result_of(r));
    assert_eq!(names.len(), 18);
    assert!(names.contains(&b"banpubkey".to_vec()));
    assert!(names.contains(&b"supportedmethods".to_vec()));
}

#[test]
fn malformed_commands_are_refused() {
    let mut store = EventStore::new();
    let admin = vec![1u8; 32];
    let admins = vec![admin.clone()];

    let not_object = Json::Str(b"banpubkey".to_vec());
    let e = handle_inner(&admin, &not_object, &mut store, &admins, 0, 0).unwrap_err();
    assert!(matches!(e, MgmtError::BadRequest(_)));
    assert_eq!(error_status(&e), 400);

    let no_method = obj(vec![("params", Json::Arr(vec![]))]);
    let e = handle_inner(&admin, &no_method, &mut store, &admins, 0, 0).unwrap_err();
    assert!(matches!(e, MgmtError::BadRequest(_)));

    let method_not_string = obj(vec![("method", Json::Num(4))]);
    let e = handle_inner(&admin, &method_not_string, &mut store, &admins, 0, 0).unwrap_err();
    assert!(matches!(e, MgmtError::BadRequest(_)));

    let bad_param = command("banpubkey", vec![Json::Str(b"zz".to_vec())]);
    let e = handle_inner(&admin, &bad_param, &mut store, &admins, 0, 0).unwrap_err();
    assert!(matches!(e, MgmtError::BadRequest(_)));

    let no_params = obj(vec![("method", Json::Str(b"banpubkey".to_vec()))]);
    let e = handle_inner(&admin, &no_params, &mut store, &admins, 0, 0).unwrap_err();
    assert!(matches!(e, MgmtError::BadRequest(_)));

    let unknown = command("blockip", vec![]);
    let e = handle_inner(&admin, &unknown, &mut store, &admins, 0, 0).unwrap_err();
    assert!(matches!(e, MgmtError::NotImplemented));
    assert_eq!(error_status(&e), 501);
}

#[test]
fn responses_serialize_to_wire_json() {
    let mut store = EventStore::new();
    let admin = vec![1u8; 32];
    let admins = vec![admin.clone()];
    let target = vec![2u8; 32];
    handle_inner(&admin, &command("banpubkey", vec![hex_param(&target)]), &mut store, &admins, 0, 0)
        .expect("ok");
    let r = handle_inner(&admin, &command("listbannedpubkeys", vec![]), &mut store, &admins, 0, 0)
        .expect("ok");
    let body = json_to_bytes(&r.expect("a body"));
    let target_hex = String::from_utf8(hex_encode(&target)).unwrap();
    assert_eq!(
        String::from_utf8(body).unwrap(),
        format!("{{\"result\":[\"{}\"]}}", target_hex)
    );

    let r = handle_inner(&admin, &command("numconnections", vec![]), &mut store, &admins, 9, 0)
        .expect("ok");
    assert_eq!(json_to_bytes(&r.unwrap()), b"{\"result\":9}".to_vec());

    let e = handle_inner(&admin, &command("blockip", vec![]), &mut store, &admins, 0, 0)
        .unwrap_err();
    assert_eq!(
        json_to_bytes(&error_body(&e)),
        b"{\"result\":{},\"error\":\"not_implemented\"}".to_vec()
    );
}

#[test]
fn approvals_need_admin_or_moderator() {
    let mut store = EventStore::new();
    let admin = vec![1u8; 32];
    let moderator = vec![4u8; 32];
    let outsider = vec![9u8; 32];
    let admins = vec![admin.clone()];
    let target = vec![2u8; 32];

    let ban = command("banpubkey", vec![hex_param(&target)]);
    let refused = handle_inner(&outsider, &ban, &mut store, &admins, 0, 0).expect("ok");
    match refused.expect("a body") {
        Json::Obj(entries) => {
            assert_eq!(entries.len(), 2);
            assert_eq!(entries[1].0, b"error".to_vec());
        }
        _ => panic!("expected an object"),
    }
    let r = handle_inner(&admin, &command("listbannedpubkeys", vec![]), &mut store, &admins, 0, 0)
        .expect("ok");
    assert!(as_hex_set(result_of(r)).is_empty(), "an outsider bans nothing");

    store.set_user_role(moderator.clone(), UserRole::Moderator);
    let r = handle_inner(&moderator, &ban, &mut store, &admins, 0, 0).expect("ok");
    assert!(r.is_none(), "a moderator may ban");
    let r = handle_inner(&admin, &command("listbannedpubkeys", vec![]), &mut store, &admins, 0, 0)
        .expect("ok");
    assert_eq!(as_hex_set(result_of(r)), vec![hex_encode(&target)]);
}

#[test]
fn malformed_commands_carry_their_reasons() {
    let mut store = EventStore::new();
    let admin = vec![1u8; 32];
    let admins = vec![admin.clone()];

    let reason = |e: MgmtError| -> Vec<u8> {
        match e {
            MgmtError::BadRequest(m) => m,
            MgmtError::NotImplemented => panic!("expected BadRequest"),
        }
    };
    let e = handle_inner(&admin, &Json::Num(3), &mut store, &admins, 0, 0).unwrap_err();
    assert_eq!(reason(e), b"Command was not a JSON object".to_vec());
    let e = handle_inner(&admin, &obj(vec![]), &mut store, &admins, 0, 0).unwrap_err();
    assert_eq!(reason(e), b"Method missing".to_vec());
    let e = handle_inner(&admin, &obj(vec![("method", Json::Null)]), &mut store, &admins, 0, 0)
        .unwrap_err();
    assert_eq!(reason(e), b"Method not a string".to_vec());
    let e = handle_inner(
        &admin,
        &obj(vec![("method", Json::Str(b"banpubkey".to_vec()))]),
        &mut store,
        &admins,
        0,
        0,
    )
    .unwrap_err();
    assert_eq!(reason(e), b"Params field missing".to_vec());
    let e = handle_inner(
        &admin,
        &command("banpubkey", vec![Json::Str(b"zz".to_vec())]),
        &mut store,
        &admins,
        0,
        0,
    )
    .unwrap_err();
    assert_eq!(reason(e), b"Parameter could not be parsed".to_vec());
}
