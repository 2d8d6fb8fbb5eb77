use vstd::prelude::*;
use vstd::string::StringSliceAdditionalSpecFns;
use crate::types::{bytes_eq, bytes_clone};
use crate::codec::{dec_of, wire_quoted, push_wire_quoted};
use crate::hex::{hex_of, hex_decode, hex_encode, is_hex, lemma_hex_of_len};
use crate::store::{EventStore, UserRole};
use crate::table::tbl_lookup;

verus! {

/// A JSON value, with strings kept as UTF-8 bytes. The management endpoint's
/// commands and responses are modelled with this type; the surrounding HTTP
/// layer converts wire JSON into and out of it.
#[derive(Debug)]
pub enum Json {
    Null,
    Bool(bool),
    Num(u64),
    Str(Vec<u8>),
    Arr(Vec<Json>),
    Obj(Vec<(Vec<u8>, Json)>),
}

/// The value under a key in a JSON object: the first entry wins.
pub open spec fn obj_get(entries: Seq<(Vec<u8>, Json)>, key: Seq<u8>) -> Option<Json>
    decreases entries.len(),
{
    if entries.len() == 0 {
        None
    } else if entries[0].0@ == key {
        Some(entries[0].1)
    } else {
        obj_get(entries.drop_first(), key)
    }
}

/// Look a key up in a JSON object.
pub fn obj_get_exec<'a>(entries: &'a Vec<(Vec<u8>, Json)>, key: &[u8]) -> (r: Option<&'a Json>)
    ensures
        r matches Some(j) ==> obj_get(entries@, key@) == Some(*j),
        r is None ==> obj_get(entries@, key@) is None,
{
    let mut i: usize = 0;
    proof {
        assert(entries@.skip(0) =~= entries@);
    }
    while i < entries.len()
        invariant
            0 <= i <= entries@.len(),
            obj_get(entries@, key@) == obj_get(entries@.skip(i as int), key@),
        decreases entries@.len() - i,
    {
        proof {
            assert(entries@.skip(i as int)[0] == entries@[i as int]);
            assert(entries@.skip(i as int).drop_first() =~= entries@.skip(i as int + 1));
        }
        if bytes_eq(entries[i].0.as_slice(), key) {
            return Some(&entries[i].1);
        }
        i = i + 1;
    }
    None
}

/// Why a management command was refused.
#[derive(Debug)]
pub enum MgmtError {
    /// The command was malformed; carries the reason text.
    BadRequest(Vec<u8>),
    /// The method is recognized but not offered.
    NotImplemented,
}

/// The HTTP status the endpoint answers a refused command with.
pub fn error_status(e: &MgmtError) -> (r: u16)
    ensures
        match e {
            MgmtError::BadRequest(_) => r == 400,
            MgmtError::NotImplemented => r == 501,
        },
{
    match e {
        MgmtError::BadRequest(_) => 400,
        MgmtError::NotImplemented => 501,
    }
}

/// The method named by a command, when the command is an object whose
/// "method" field is a string.
pub open spec fn method_of(c: Json) -> Option<Seq<u8>> {
    match c {
        Json::Obj(entries) => match obj_get(entries@, "method".spec_bytes()) {
            Some(m) => match m {
                Json::Str(s) => Some(s@),
                _ => None,
            },
            None => None,
        },
        _ => None,
    }
}

/// The first parameter of a command, when "params" is a non-empty array
/// whose first element is a string.
pub open spec fn first_param_of(c: Json) -> Option<Seq<u8>> {
    match c {
        Json::Obj(entries) => match obj_get(entries@, "params".spec_bytes()) {
            Some(p) => match p {
                Json::Arr(items) => if items@.len() > 0 {
                    match items@[0] {
                        Json::Str(s) => Some(s@),
                        _ => None,
                    }
                } else {
                    None
                },
                _ => None,
            },
            None => None,
        },
        _ => None,
    }
}

/// A command carries a usable 32-byte hex parameter: its first parameter is
/// a string of 64 lower-case hex digits.
pub open spec fn valid_hex_param(c: Json) -> bool {
    match first_param_of(c) {
        Some(s) => is_hex(s) && s.len() == 64,
        None => false,
    }
}

/// `raw` holds the 32 bytes encoded by the command's hex parameter.
pub open spec fn param_matches(c: Json, raw: Seq<u8>) -> bool {
    first_param_of(c) == Some(hex_of(raw)) && raw.len() == 32
}

fn msg(s: &str) -> (r: Vec<u8>)
    ensures
        r@ == s.spec_bytes(),
{
    bytes_clone(s.as_bytes())
}

/// A refusal carrying exactly this reason text.
pub open spec fn is_bad_request<T>(r: Result<T, MgmtError>, text: Seq<u8>) -> bool {
    r matches Err(e) && e matches MgmtError::BadRequest(m) && m@ == text
}

/// What extracting the hex parameter must produce, shape by shape in the
/// order the command is examined.
pub open spec fn hex_param_post(c: Json, r: Result<Vec<u8>, MgmtError>) -> bool {
    match c {
        Json::Obj(entries) => match obj_get(entries@, "params".spec_bytes()) {
            None => is_bad_request(r, "Params field missing".spec_bytes()),
            Some(p) => match p {
                Json::Arr(items) => if items@.len() == 0 {
                    is_bad_request(r, "Missing parameter".spec_bytes())
                } else {
                    match items@[0] {
                        Json::Str(sv) => if is_hex(sv@) && sv@.len() == 64 {
                            r matches Ok(raw) && param_matches(c, raw@)
                        } else {
                            is_bad_request(r, "Parameter could not be parsed".spec_bytes())
                        },
                        _ => is_bad_request(r, "Parameter is wrong type".spec_bytes()),
                    }
                },
                _ => is_bad_request(r, "Params not an array".spec_bytes()),
            },
        },
        _ => is_bad_request(r, "Command was not a JSON object".spec_bytes()),
    }
}

/// Extract the 32-byte value named by the command's first parameter, or the
/// reason it cannot be had. Used for both pubkey and event-id parameters.
pub fn get_hex_param(c: &Json) -> (r: Result<Vec<u8>, MgmtError>)
    ensures
        r is Ok <==> valid_hex_param(*c),
        r matches Ok(raw) ==> param_matches(*c, raw@),
        r matches Err(e) ==> e is BadRequest,
        hex_param_post(*c, r),
{
    let entries = match c {
        Json::Obj(entries) => entries,
        _ => {
            return Err(MgmtError::BadRequest(msg("Command was not a JSON object")));
        },
    };
    let params = match obj_get_exec(entries, "params".as_bytes()) {
        Some(p) => p,
        None => {
            return Err(MgmtError::BadRequest(msg("Params field missing")));
        },
    };
    let items = match params {
        Json::Arr(items) => items,
        _ => {
            return Err(MgmtError::BadRequest(msg("Params not an array")));
        },
    };
    if items.len() == 0 {
        return Err(MgmtError::BadRequest(msg("Missing parameter")));
    }
    let s = match &items[0] {
        Json::Str(s) => s,
        _ => {
            return Err(MgmtError::BadRequest(msg("Parameter is wrong type")));
        },
    };
    if s.len() != 64 {
        return Err(MgmtError::BadRequest(msg("Parameter could not be parsed")));
    }
    match hex_decode(s.as_slice()) {
        Some(raw) => {
            proof {
                lemma_hex_of_len(raw@);
            }
            Ok(raw)
        },
        None => Err(MgmtError::BadRequest(msg("Parameter could not be parsed"))),
    }
}

/// Is this pubkey one of the configured admins?
pub open spec fn spec_is_admin(admins: Seq<Vec<u8>>, pk: Seq<u8>) -> bool {
    exists|i: int| 0 <= i < admins.len() && admins[i]@ == pk
}

pub fn is_admin(admins: &Vec<Vec<u8>>, pk: &[u8]) -> (r: bool)
    ensures
        r == spec_is_admin(admins@, pk@),
{
    let mut i: usize = 0;
    while i < admins.len()
        invariant
            0 <= i <= admins@.len(),
            forall|j: int| 0 <= j < i ==> admins@[j]@ != pk@,
        decreases admins@.len() - i,
    {
        if bytes_eq(admins[i].as_slice(), pk) {
            return true;
        }
        i = i + 1;
    }
    false
}

/// A JSON array whose elements are exactly the hex encodings of the keys in
/// `keys`, in order.
pub open spec fn hex_list_of(arr: Seq<Json>, keys: Seq<Vec<u8>>) -> bool {
    arr.len() == keys.len() && forall|x: int|
        0 <= x < arr.len() ==> ((#[trigger] arr[x]) matches Json::Str(s) && s@ == hex_of(
            keys[x]@,
        ))
}

/// Hex-encode a list of keys as JSON strings.
fn hex_strings(keys: &Vec<Vec<u8>>) -> (r: Vec<Json>)
    ensures
        hex_list_of(r@, keys@),
{
    let mut out: Vec<Json> = Vec::new();
    let mut i: usize = 0;
    while i < keys.len()
        invariant
            0 <= i <= keys@.len(),
            out@.len() == i,
            forall|x: int|
                0 <= x < i ==> ((#[trigger] out@[x]) matches Json::Str(s) && s@ == hex_of(
                    keys@[x]@,
                )),
        decreases keys@.len() - i,
    {
        out.push(Json::Str(hex_encode(keys[i].as_slice())));
        i = i + 1;
    }
    out
}

/// Wrap a value as the single "result" field of a response object.
fn result_obj(v: Json) -> (r: Json)
    ensures
        r matches Json::Obj(es) && es@.len() == 1 && es@[0].0@ == "result".spec_bytes()
            && es@[0].1 == v,
{
    let mut es: Vec<(Vec<u8>, Json)> = Vec::new();
    es.push((msg("result"), v));
    Json::Obj(es)
}

/// An unauthorized reply: an empty "result" and an "error" text.
fn unauthorized_obj(reason: &str) -> (r: Json)
    ensures
        r matches Json::Obj(es) && es@.len() == 2 && es@[0].0@ == "result".spec_bytes()
            && (es@[0].1 matches Json::Obj(inner) && inner@.len() == 0) && es@[1].0@
            == "error".spec_bytes() && (es@[1].1 matches Json::Str(s) && s@
            == reason.spec_bytes()),
{
    let mut es: Vec<(Vec<u8>, Json)> = Vec::new();
    es.push((msg("result"), Json::Obj(Vec::new())));
    es.push((msg("error"), Json::Str(msg(reason))));
    Json::Obj(es)
}

/// A response holding the hex list of `keys` under "result".
pub open spec fn is_hex_list_response(r: Option<Json>, keys: Seq<Vec<u8>>) -> bool {
    &&& r matches Some(j)
    &&& j matches Json::Obj(es)
    &&& es@.len() == 1
    &&& es@[0].0@ == "result".spec_bytes()
    &&& es@[0].1 matches Json::Arr(arr)
    &&& hex_list_of(arr@, keys)
}

/// A response carrying a bare number under "result".
pub open spec fn is_num_response(r: Option<Json>, n: u64) -> bool {
    &&& r matches Some(j)
    &&& j matches Json::Obj(es)
    &&& es@.len() == 1
    &&& es@[0].0@ == "result".spec_bytes()
    &&& es@[0].1 == Json::Num(n)
}

/// The unauthorized reply shape.
pub open spec fn is_unauthorized_response(r: Option<Json>) -> bool {
    &&& r matches Some(j)
    &&& j matches Json::Obj(es)
    &&& es@.len() == 2
    &&& es@[0].0@ == "result".spec_bytes()
    &&& es@[1].0@ == "error".spec_bytes()
    &&& es@[1].1 is Str
}

/// Nothing but the pubkey-approval overlay differs between the two states.
pub open spec fn only_pubkey_approval_changed(pre: EventStore, post: EventStore) -> bool {
    post.events == pre.events && post.live == pre.live && post.event_approval
        == pre.event_approval && post.users == pre.users && post.ip_data == pre.ip_data
}

/// Nothing but the event-approval overlay differs between the two states.
pub open spec fn only_event_approval_changed(pre: EventStore, post: EventStore) -> bool {
    post.events == pre.events && post.live == pre.live && post.pubkey_approval
        == pre.pubkey_approval && post.users == pre.users && post.ip_data == pre.ip_data
}

/// Nothing but the authorized-user table differs between the two states.
pub open spec fn only_users_changed(pre: EventStore, post: EventStore) -> bool {
    post.events == pre.events && post.live == pre.live && post.event_approval
        == pre.event_approval && post.pubkey_approval == pre.pubkey_approval && post.ip_data
        == pre.ip_data
}

/// The command's pubkey parameter is now marked with `approved`, and no
/// other row of any table moved.
pub open spec fn pubkey_marked(pre: EventStore, post: EventStore, c: Json, approved: bool) -> bool {
    only_pubkey_approval_changed(pre, post) && exists|raw: Seq<u8>|
        #[trigger] param_matches(c, raw) && tbl_lookup(post.pubkey_approval@, raw) == Some(
            approved,
        ) && (forall|k2: Seq<u8>|
            k2 != raw ==> tbl_lookup(post.pubkey_approval@, k2) == tbl_lookup(
                pre.pubkey_approval@,
                k2,
            ))
}

/// The command's event-id parameter is now marked with `approved`, and no
/// other row of any table moved.
pub open spec fn event_marked(pre: EventStore, post: EventStore, c: Json, approved: bool) -> bool {
    only_event_approval_changed(pre, post) && exists|raw: Seq<u8>|
        #[trigger] param_matches(c, raw) && tbl_lookup(post.event_approval@, raw) == Some(
            approved,
        ) && (forall|k2: Seq<u8>|
            k2 != raw ==> tbl_lookup(post.event_approval@, k2) == tbl_lookup(
                pre.event_approval@,
                k2,
            ))
}

/// The command's pubkey parameter now holds `role`, and no other row of any
/// table moved.
pub open spec fn role_granted(pre: EventStore, post: EventStore, c: Json, role: UserRole) -> bool {
    only_users_changed(pre, post) && exists|raw: Seq<u8>|
        #[trigger] param_matches(c, raw) && tbl_lookup(post.users@, raw) == Some(role) && (
        forall|k2: Seq<u8>|
            k2 != raw ==> tbl_lookup(post.users@, k2) == tbl_lookup(pre.users@, k2))
}

/// `keys` enumerates exactly the distinct keys of `t` whose current value
/// is `want`.
pub open spec fn lists_bool_table(keys: Seq<Vec<u8>>, t: Seq<(Vec<u8>, bool)>, want: bool) -> bool {
    &&& forall|x: int| 0 <= x < keys.len() ==> tbl_lookup(t, keys[x]@) == Some(want)
    &&& forall|x1: int, x2: int| 0 <= x1 < x2 < keys.len() ==> keys[x1]@ != keys[x2]@
    &&& forall|k: Seq<u8>|
        tbl_lookup(t, k) == Some(want) ==> exists|x: int| 0 <= x < keys.len() && keys[x]@ == k
}

/// `keys` enumerates exactly the pubkeys listed by the user table.
pub open spec fn lists_users(
    keys: Seq<Vec<u8>>,
    t: Seq<(Vec<u8>, UserRole)>,
    only_moderators: bool,
) -> bool {
    &&& forall|x: int| 0 <= x < keys.len() ==> EventStore::user_listed(t, keys[x]@, only_moderators)
    &&& forall|x1: int, x2: int| 0 <= x1 < x2 < keys.len() ==> keys[x1]@ != keys[x2]@
    &&& forall|k: Seq<u8>|
        EventStore::user_listed(t, k, only_moderators) ==> exists|x: int|
            0 <= x < keys.len() && keys[x]@ == k
}

/// The names answered by supportedmethods, in order.
pub open spec fn supported_method_name(x: int) -> Seq<u8> {
    if x == 0 {
        "allowevent".spec_bytes()
    } else if x == 1 {
        "allowpubkey".spec_bytes()
    } else if x == 2 {
        "banevent".spec_bytes()
    } else if x == 3 {
        "banpubkey".spec_bytes()
    } else if x == 4 {
        "listallowedevents".spec_bytes()
    } else if x == 5 {
        "listallowedpubkeys".spec_bytes()
    } else if x == 6 {
        "listbannedevents".spec_bytes()
    } else if x == 7 {
        "listbannedpubkeys".spec_bytes()
    } else if x == 8 {
        "supportedmethods".spec_bytes()
    } else if x == 9 {
        "numconnections".spec_bytes()
    } else if x == 10 {
        "uptime".spec_bytes()
    } else if x == 11 {
        "listadmins".spec_bytes()
    } else if x == 12 {
        "listmoderators".spec_bytes()
    } else if x == 13 {
        "grantmoderator".spec_bytes()
    } else if x == 14 {
        "revokemoderator".spec_bytes()
    } else if x == 15 {
        "listusers".spec_bytes()
    } else if x == 16 {
        "grantuser".spec_bytes()
    } else {
        "revokeuser".spec_bytes()
    }
}

/// What a well-formed command with method name `m` must produce: the
/// spec-side mirror of the dispatch, case by case in dispatch order.
/// Moderation writes (approvals and role grants) are open to admins and
/// moderators only.
pub open spec fn mgmt_method_post(
    pre: EventStore,
    post: EventStore,
    pubkey: Seq<u8>,
    admins: Seq<Vec<u8>>,
    c: Json,
    m: Seq<u8>,
    num_connections: u64,
    uptime_secs: u64,
    r: Result<Option<Json>, MgmtError>,
) -> bool {
    if m == ("supportedmethods".spec_bytes()) {
        &&& r matches Ok(o)
        &&& o matches Some(j)
        &&& j matches Json::Obj(es)
        &&& es@.len() == 1
        &&& es@[0].0@ == "result".spec_bytes()
        &&& es@[0].1 matches Json::Arr(arr)
        &&& arr@.len() == 18
        &&& forall|x: int|
            0 <= x < 18 ==> ((#[trigger] arr@[x]) matches Json::Str(s) && s@
                == supported_method_name(x))
        &&& post == pre
    } else if m == ("banpubkey".spec_bytes()) {
        if spec_is_admin(admins, pubkey) || pre.spec_is_moderator(pubkey) {
            &&& valid_hex_param(c) ==> (r matches Ok(o) && o is None && pubkey_marked(
                pre,
                post,
                c,
                false,
            ))
            &&& !valid_hex_param(c) ==> ((r matches Err(e) && e is BadRequest) && post == pre)
        } else {
            (r matches Ok(o) && is_unauthorized_response(o)) && post == pre
        }
    } else if m == ("allowpubkey".spec_bytes()) {
        if spec_is_admin(admins, pubkey) || pre.spec_is_moderator(pubkey) {
            &&& valid_hex_param(c) ==> (r matches Ok(o) && o is None && pubkey_marked(
                pre,
                post,
                c,
                true,
            ))
            &&& !valid_hex_param(c) ==> ((r matches Err(e) && e is BadRequest) && post == pre)
        } else {
            (r matches Ok(o) && is_unauthorized_response(o)) && post == pre
        }
    } else if m == ("banevent".spec_bytes()) {
        if spec_is_admin(admins, pubkey) || pre.spec_is_moderator(pubkey) {
            &&& valid_hex_param(c) ==> (r matches Ok(o) && o is None && event_marked(
                pre,
                post,
                c,
                false,
            ))
            &&& !valid_hex_param(c) ==> ((r matches Err(e) && e is BadRequest) && post == pre)
        } else {
            (r matches Ok(o) && is_unauthorized_response(o)) && post == pre
        }
    } else if m == ("allowevent".spec_bytes()) {
        if spec_is_admin(admins, pubkey) || pre.spec_is_moderator(pubkey) {
            &&& valid_hex_param(c) ==> (r matches Ok(o) && o is None && event_marked(
                pre,
                post,
                c,
                true,
            ))
            &&& !valid_hex_param(c) ==> ((r matches Err(e) && e is BadRequest) && post == pre)
        } else {
            (r matches Ok(o) && is_unauthorized_response(o)) && post == pre
        }
    } else if m == ("listbannedpubkeys".spec_bytes()) {
        &&& r matches Ok(o)
        &&& post == pre
        &&& exists|keys: Seq<Vec<u8>>|
            #[trigger] lists_bool_table(keys, pre.pubkey_approval@, false) && is_hex_list_response(
                o,
                keys,
            )
    } else if m == ("listallowedpubkeys".spec_bytes()) {
        &&& r matches Ok(o)
        &&& post == pre
        &&& exists|keys: Seq<Vec<u8>>|
            #[trigger] lists_bool_table(keys, pre.pubkey_approval@, true) && is_hex_list_response(
                o,
                keys,
            )
    } else if m == ("listbannedevents".spec_bytes()) {
        &&& r matches Ok(o)
        &&& post == pre
        &&& exists|keys: Seq<Vec<u8>>|
            #[trigger] lists_bool_table(keys, pre.event_approval@, false) && is_hex_list_response(
                o,
                keys,
            )
    } else if m == ("listallowedevents".spec_bytes()) {
        &&& r matches Ok(o)
        &&& post == pre
        &&& exists|keys: Seq<Vec<u8>>|
            #[trigger] lists_bool_table(keys, pre.event_approval@, true) && is_hex_list_response(
                o,
                keys,
            )
    } else if m == ("numconnections".spec_bytes()) {
        (r matches Ok(o) && is_num_response(o, num_connections)) && post == pre
    } else if m == ("uptime".spec_bytes()) {
        (r matches Ok(o) && is_num_response(o, uptime_secs)) && post == pre
    } else if m == ("listadmins".spec_bytes()) {
        (r matches Ok(o) && is_hex_list_response(o, admins)) && post == pre
    } else if m == ("listmoderators".spec_bytes()) {
        &&& r matches Ok(o)
        &&& post == pre
        &&& exists|keys: Seq<Vec<u8>>|
            #[trigger] lists_users(keys, pre.users@, true) && is_hex_list_response(o, keys)
    } else if m == ("listusers".spec_bytes()) {
        &&& r matches Ok(o)
        &&& post == pre
        &&& exists|keys: Seq<Vec<u8>>|
            #[trigger] lists_users(keys, pre.users@, false) && is_hex_list_response(o, keys)
    } else if m == ("grantmoderator".spec_bytes()) {
        if spec_is_admin(admins, pubkey) {
            &&& valid_hex_param(c) ==> (r matches Ok(o) && o is None && role_granted(
                pre,
                post,
                c,
                UserRole::Moderator,
            ))
            &&& !valid_hex_param(c) ==> ((r matches Err(e) && e is BadRequest) && post == pre)
        } else {
            (r matches Ok(o) && is_unauthorized_response(o)) && post == pre
        }
    } else if m == ("revokemoderator".spec_bytes()) {
        if spec_is_admin(admins, pubkey) {
            &&& valid_hex_param(c) ==> (r matches Ok(o) && o is None && exists|raw: Seq<u8>|
                #[trigger] param_matches(c, raw) && (if pre.spec_is_authorized_user(raw) {
                    only_users_changed(pre, post) && tbl_lookup(post.users@, raw) == Some(
                        UserRole::Regular,
                    ) && (forall|k2: Seq<u8>|
                        k2 != raw ==> tbl_lookup(post.users@, k2) == tbl_lookup(pre.users@, k2))
                } else {
                    post == pre
                }))
            &&& !valid_hex_param(c) ==> ((r matches Err(e) && e is BadRequest) && post == pre)
        } else {
            (r matches Ok(o) && is_unauthorized_response(o)) && post == pre
        }
    } else if m == ("grantuser".spec_bytes()) {
        if spec_is_admin(admins, pubkey) {
            &&& valid_hex_param(c) ==> (r matches Ok(o) && o is None && role_granted(
                pre,
                post,
                c,
                UserRole::Regular,
            ))
            &&& !valid_hex_param(c) ==> ((r matches Err(e) && e is BadRequest) && post == pre)
        } else {
            (r matches Ok(o) && is_unauthorized_response(o)) && post == pre
        }
    } else if m == ("revokeuser".spec_bytes()) {
        if spec_is_admin(admins, pubkey) {
            &&& valid_hex_param(c) ==> (r matches Ok(o) && o is None && role_granted(
                pre,
                post,
                c,
                UserRole::Removed,
            ))
            &&& !valid_hex_param(c) ==> ((r matches Err(e) && e is BadRequest) && post == pre)
        } else {
            (r matches Ok(o) && is_unauthorized_response(o)) && post == pre
        }
    } else {
        (r matches Err(e) && e is NotImplemented) && post == pre
    }
}


/// What each management command must produce: a malformed command is
/// refused with its exact reason and the store untouched; a well-formed one
/// answers as the method requires.
pub open spec fn mgmt_post(
    pre: EventStore,
    post: EventStore,
    pubkey: Seq<u8>,
    admins: Seq<Vec<u8>>,
    c: Json,
    num_connections: u64,
    uptime_secs: u64,
    r: Result<Option<Json>, MgmtError>,
) -> bool {
    match c {
        Json::Obj(entries) => match obj_get(entries@, "method".spec_bytes()) {
            None => is_bad_request(r, "Method missing".spec_bytes()) && post == pre,
            Some(mv) => match mv {
                Json::Str(sm) => mgmt_method_post(
                    pre,
                    post,
                    pubkey,
                    admins,
                    c,
                    sm@,
                    num_connections,
                    uptime_secs,
                    r,
                ),
                _ => is_bad_request(r, "Method not a string".spec_bytes()) && post == pre,
            },
        },
        _ => is_bad_request(r, "Command was not a JSON object".spec_bytes()) && post == pre,
    }
}

/// Dispatch one management command. The caller's pubkey has already been
/// authenticated by the HTTP layer; `admins` are the configured admin
/// pubkeys. Mutating moderation calls write through to the store; only
/// admins may grant or revoke roles.
pub fn handle_inner(
    pubkey: &[u8],
    c: &Json,
    store: &mut EventStore,
    admins: &Vec<Vec<u8>>,
    num_connections: u64,
    uptime_secs: u64,
) -> (r: Result<Option<Json>, MgmtError>)
    requires
        old(store).wf(),
    ensures
        final(store).wf(),
        mgmt_post(
            *old(store),
            *final(store),
            pubkey@,
            admins@,
            *c,
            num_connections,
            uptime_secs,
            r,
        ),
{
    let entries = match c {
        Json::Obj(entries) => entries,
        _ => {
            return Err(MgmtError::BadRequest(msg("Command was not a JSON object")));
        },
    };
    let method_json = match obj_get_exec(entries, "method".as_bytes()) {
        Some(v) => v,
        None => {
            return Err(MgmtError::BadRequest(msg("Method missing")));
        },
    };
    let method = match method_json {
        Json::Str(s) => s,
        _ => {
            return Err(MgmtError::BadRequest(msg("Method not a string")));
        },
    };
    proof {
        assert(method_of(*c) == Some(method@));
    }
    let can_moderate = is_admin(admins, pubkey) || store.is_moderator(pubkey);
    if bytes_eq(method.as_slice(), "supportedmethods".as_bytes()) {
        let mut arr: Vec<Json> = Vec::new();
        arr.push(Json::Str(msg("allowevent")));
        arr.push(Json::Str(msg("allowpubkey")));
        arr.push(Json::Str(msg("banevent")));
        arr.push(Json::Str(msg("banpubkey")));
        arr.push(Json::Str(msg("listallowedevents")));
        arr.push(Json::Str(msg("listallowedpubkeys")));
        arr.push(Json::Str(msg("listbannedevents")));
        arr.push(Json::Str(msg("listbannedpubkeys")));
        arr.push(Json::Str(msg("supportedmethods")));
        arr.push(Json::Str(msg("numconnections")));
        arr.push(Json::Str(msg("uptime")));
        arr.push(Json::Str(msg("listadmins")));
        arr.push(Json::Str(msg("listmoderators")));
        arr.push(Json::Str(msg("grantmoderator")));
        arr.push(Json::Str(msg("revokemoderator")));
        arr.push(Json::Str(msg("listusers")));
        arr.push(Json::Str(msg("grantuser")));
        arr.push(Json::Str(msg("revokeuser")));
        Ok(Some(result_obj(Json::Arr(arr))))
    } else if bytes_eq(method.as_slice(), "banpubkey".as_bytes()) {
        if !can_moderate {
            return Ok(
                Some(unauthorized_obj("Unauthorized: Only admins and moderators can moderate")),
            );
        }
        let pk = get_hex_param(c)?;
        let ghost gpk = pk@;
        store.mark_pubkey_approval(pk, false);
        proof {
            assert(param_matches(*c, gpk));
        }
        Ok(None)
    } else if bytes_eq(method.as_slice(), "allowpubkey".as_bytes()) {
        if !can_moderate {
            return Ok(
                Some(unauthorized_obj("Unauthorized: Only admins and moderators can moderate")),
            );
        }
        let pk = get_hex_param(c)?;
        let ghost gpk = pk@;
        store.mark_pubkey_approval(pk, true);
        proof {
            assert(param_matches(*c, gpk));
        }
        Ok(None)
    } else if bytes_eq(method.as_slice(), "banevent".as_bytes()) {
        if !can_moderate {
            return Ok(
                Some(unauthorized_obj("Unauthorized: Only admins and moderators can moderate")),
            );
        }
        let id = get_hex_param(c)?;
        let ghost gid = id@;
        store.mark_event_approval(id, false);
        proof {
            assert(param_matches(*c, gid));
        }
        Ok(None)
    } else if bytes_eq(method.as_slice(), "allowevent".as_bytes()) {
        if !can_moderate {
            return Ok(
                Some(unauthorized_obj("Unauthorized: Only admins and moderators can moderate")),
            );
        }
        let id = get_hex_param(c)?;
        let ghost gid = id@;
        store.mark_event_approval(id, true);
        proof {
            assert(param_matches(*c, gid));
        }
        Ok(None)
    } else if bytes_eq(method.as_slice(), "listbannedpubkeys".as_bytes()) {
        let keys = store.dump_pubkey_approvals(false);
        let arr = hex_strings(&keys);
        proof {
            assert(lists_bool_table(keys@, store.pubkey_approval@, false));
        }
        Ok(Some(result_obj(Json::Arr(arr))))
    } else if bytes_eq(method.as_slice(), "listallowedpubkeys".as_bytes()) {
        let keys = store.dump_pubkey_approvals(true);
        let arr = hex_strings(&keys);
        proof {
            assert(lists_bool_table(keys@, store.pubkey_approval@, true));
        }
        Ok(Some(result_obj(Json::Arr(arr))))
    } else if bytes_eq(method.as_slice(), "listbannedevents".as_bytes()) {
        let keys = store.dump_event_approvals(false);
        let arr = hex_strings(&keys);
        proof {
            assert(lists_bool_table(keys@, store.event_approval@, false));
        }
        Ok(Some(result_obj(Json::Arr(arr))))
    } else if bytes_eq(method.as_slice(), "listallowedevents".as_bytes()) {
        let keys = store.dump_event_approvals(true);
        let arr = hex_strings(&keys);
        proof {
            assert(lists_bool_table(keys@, store.event_approval@, true));
        }
        Ok(Some(result_obj(Json::Arr(arr))))
    } else if bytes_eq(method.as_slice(), "numconnections".as_bytes()) {
        Ok(Some(result_obj(Json::Num(num_connections))))
    } else if bytes_eq(method.as_slice(), "uptime".as_bytes()) {
        Ok(Some(result_obj(Json::Num(uptime_secs))))
    } else if bytes_eq(method.as_slice(), "listadmins".as_bytes()) {
        let arr = hex_strings(admins);
        Ok(Some(result_obj(Json::Arr(arr))))
    } else if bytes_eq(method.as_slice(), "listmoderators".as_bytes()) {
        let keys = store.dump_users(true);
        let arr = hex_strings(&keys);
        proof {
            assert(lists_users(keys@, store.users@, true));
        }
        Ok(Some(result_obj(Json::Arr(arr))))
    } else if bytes_eq(method.as_slice(), "listusers".as_bytes()) {
        let keys = store.dump_users(false);
        let arr = hex_strings(&keys);
        proof {
            assert(lists_users(keys@, store.users@, false));
        }
        Ok(Some(result_obj(Json::Arr(arr))))
    } else if bytes_eq(method.as_slice(), "grantmoderator".as_bytes()) {
        if !is_admin(admins, pubkey) {
            return Ok(
                Some(unauthorized_obj("Unauthorized: Only admins can grant moderator status")),
            );
        }
        let pk = get_hex_param(c)?;
        let ghost gpk = pk@;
        store.set_user_role(pk, UserRole::Moderator);
        proof {
            assert(param_matches(*c, gpk));
        }
        Ok(None)
    } else if bytes_eq(method.as_slice(), "revokemoderator".as_bytes()) {
        if !is_admin(admins, pubkey) {
            return Ok(
                Some(unauthorized_obj("Unauthorized: Only admins can revoke moderator status")),
            );
        }
        let pk = get_hex_param(c)?;
        let ghost gpk = pk@;
        if !store.is_authorized_user(pk.as_slice()) {
            proof {
                assert(param_matches(*c, gpk));
            }
            Ok(None)
        } else {
            store.set_user_role(pk, UserRole::Regular);
            proof {
                assert(param_matches(*c, gpk));
            }
            Ok(None)
        }
    } else if bytes_eq(method.as_slice(), "grantuser".as_bytes()) {
        if !is_admin(admins, pubkey) {
            return Ok(Some(unauthorized_obj("Unauthorized: Only admins can grant user status")));
        }
        let pk = get_hex_param(c)?;
        let ghost gpk = pk@;
        store.set_user_role(pk, UserRole::Regular);
        proof {
            assert(param_matches(*c, gpk));
        }
        Ok(None)
    } else if bytes_eq(method.as_slice(), "revokeuser".as_bytes()) {
        if !is_admin(admins, pubkey) {
            return Ok(Some(unauthorized_obj("Unauthorized: Only admins can revoke user status")));
        }
        let pk = get_hex_param(c)?;
        let ghost gpk = pk@;
        store.set_user_role(pk, UserRole::Removed);
        proof {
            assert(param_matches(*c, gpk));
        }
        Ok(None)
    } else {
        // The further methods of the management protocol that this relay
        // does not offer, and anything unknown, are answered alike.
        Err(MgmtError::NotImplemented)
    }
}


/// Serialized JSON text of a value, with no insignificant whitespace;
/// strings use the canonical escapes.
pub open spec fn json_ser(j: Json) -> Seq<u8>
    decreases j,
{
    match j {
        Json::Null => "null".spec_bytes(),
        Json::Bool(b) => if b {
            "true".spec_bytes()
        } else {
            "false".spec_bytes()
        },
        Json::Num(n) => dec_of(n as int),
        Json::Str(s) => wire_quoted(s@),
        Json::Arr(items) => seq![91u8] + json_items_ser(items@) + seq![93u8],
        Json::Obj(entries) => seq![123u8] + json_entries_ser(entries@) + seq![125u8],
    }
}

/// Comma-joined serialized array elements.
pub open spec fn json_items_ser(items: Seq<Json>) -> Seq<u8>
    decreases items, items.len(),
{
    if items.len() == 0 {
        Seq::empty()
    } else if items.len() == 1 {
        json_ser(items[0])
    } else {
        json_items_ser(items.drop_last()) + seq![44u8] + json_ser(items.last())
    }
}

/// Comma-joined serialized object entries, each a quoted key, a colon and
/// the value.
pub open spec fn json_entries_ser(entries: Seq<(Vec<u8>, Json)>) -> Seq<u8>
    decreases entries, entries.len(),
{
    if entries.len() == 0 {
        Seq::empty()
    } else if entries.len() == 1 {
        wire_quoted(entries[0].0@) + seq![58u8] + json_ser(entries[0].1)
    } else {
        json_entries_ser(entries.drop_last()) + seq![44u8] + wire_quoted(entries.last().0@)
            + seq![58u8] + json_ser(entries.last().1)
    }
}

/// Append the serialized form of a JSON value.
pub fn json_write(j: &Json, out: &mut Vec<u8>)
    ensures
        final(out)@ == old(out)@ + json_ser(*j),
    decreases *j,
{
    match j {
        Json::Null => {
            crate::codec::push_bytes(out, "null".as_bytes());
        },
        Json::Bool(b) => {
            if *b {
                crate::codec::push_bytes(out, "true".as_bytes());
            } else {
                crate::codec::push_bytes(out, "false".as_bytes());
            }
        },
        Json::Num(n) => {
            crate::codec::push_dec(out, *n);
        },
        Json::Str(s) => {
            push_wire_quoted(out, s.as_slice());
        },
        Json::Arr(items) => {
            out.push(91);
            let mut i: usize = 0;
            let ghost head = out@;
            while i < items.len()
                invariant
                    0 <= i <= items@.len(),
                    *j == Json::Arr(*items),
                    out@ == head + json_items_ser(items@.take(i as int)),
                decreases items@.len() - i,
            {
                if i > 0 {
                    out.push(44);
                }
                proof {
                    vstd::std_specs::vec::axiom_vec_index_decreases(*items, i as int);
                    assert(decreases_to!(*j => j->Arr_0));
                    assert(j->Arr_0 == *items);
                    assert(decreases_to!(*items => items[i as int]));
                }
                json_write(&items[i], out);
                proof {
                    let tk = items@.take(i as int + 1);
                    assert(tk.drop_last() =~= items@.take(i as int));
                    assert(tk.last() == items@[i as int]);
                    assert(out@ =~= head + json_items_ser(tk));
                }
                i = i + 1;
            }
            out.push(93);
            proof {
                assert(items@.take(items@.len() as int) =~= items@);
                assert(final(out)@ =~= old(out)@ + json_ser(*j));
            }
        },
        Json::Obj(entries) => {
            out.push(123);
            let mut i: usize = 0;
            let ghost head = out@;
            while i < entries.len()
                invariant
                    0 <= i <= entries@.len(),
                    *j == Json::Obj(*entries),
                    out@ == head + json_entries_ser(entries@.take(i as int)),
                decreases entries@.len() - i,
            {
                if i > 0 {
                    out.push(44);
                }
                push_wire_quoted(out, entries[i].0.as_slice());
                out.push(58);
                proof {
                    vstd::std_specs::vec::axiom_vec_index_decreases(*entries, i as int);
                    assert(decreases_to!(*j => j->Obj_0));
                    assert(j->Obj_0 == *entries);
                    assert(decreases_to!(*entries => entries[i as int]));
                    assert(decreases_to!(entries[i as int] => entries[i as int].1));
                }
                json_write(&entries[i].1, out);
                proof {
                    let tk = entries@.take(i as int + 1);
                    assert(tk.drop_last() =~= entries@.take(i as int));
                    assert(tk.last() == entries@[i as int]);
                    assert(out@ =~= head + json_entries_ser(tk));
                }
                i = i + 1;
            }
            out.push(125);
            proof {
                assert(entries@.take(entries@.len() as int) =~= entries@);
                assert(final(out)@ =~= old(out)@ + json_ser(*j));
            }
        },
    }
}

/// Serialize a JSON value to bytes.
pub fn json_to_bytes(j: &Json) -> (r: Vec<u8>)
    ensures
        r@ == json_ser(*j),
{
    let mut out: Vec<u8> = Vec::new();
    json_write(j, &mut out);
    out
}

/// The body answering a refused command: an empty result and the error
/// text, "not_implemented" for a method this relay does not offer.
pub fn error_body(e: &MgmtError) -> (r: Json)
    ensures
        r matches Json::Obj(es) && es@.len() == 2 && es@[0].0@ == "result".spec_bytes()
            && (es@[0].1 matches Json::Obj(inner) && inner@.len() == 0) && es@[1].0@
            == "error".spec_bytes() && match e {
            MgmtError::BadRequest(m) => es@[1].1 matches Json::Str(s2) && s2@ == m@,
            MgmtError::NotImplemented => es@[1].1 matches Json::Str(s2) && s2@
                == "not_implemented".spec_bytes(),
        },
{
    let text = match e {
        MgmtError::BadRequest(m) => bytes_clone(m.as_slice()),
        MgmtError::NotImplemented => msg("not_implemented"),
    };
    let mut es: Vec<(Vec<u8>, Json)> = Vec::new();
    es.push((msg("result"), Json::Obj(Vec::new())));
    es.push((msg("error"), Json::Str(text)));
    Json::Obj(es)
}

} // verus!
