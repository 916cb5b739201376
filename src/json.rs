//! JSON values as the decoder reads them, and the schema that maps a value to
//! a message: required fields, their shapes, and the payload's tag.
use vstd::prelude::*;
use vstd::string::*;
use crate::message::{Message, MessageModel, Payload, PayloadModel};

verus! {

/// A JSON value. Numbers are told apart only as far as the schema needs.
#[derive(Debug, PartialEq, Eq)]
pub enum Json {
    Null,
    Bool(bool),
    /// A non-negative integer that fits in `u64`.
    UInt(u64),
    /// Any other number: negative, fractional, or beyond `u64`.
    OtherNumber,
    Str(String),
    Array(Vec<Json>),
    /// The members of an object, each key once.
    Object(Vec<(String, Json)>),
}

/// Mathematical model of a `Json` value.
pub enum JsonModel {
    Null,
    Bool(bool),
    UInt(u64),
    OtherNumber,
    Str(Seq<char>),
    Array(Seq<JsonModel>),
    Object(Seq<(Seq<char>, JsonModel)>),
}

/// The models of a sequence of values.
pub open spec fn items_view(items: Seq<Json>) -> Seq<JsonModel>
    decreases items,
{
    if items.len() == 0 {
        Seq::empty()
    } else {
        items_view(items.drop_last()).push(json_view(items.last()))
    }
}

/// The models of a sequence of object members.
pub open spec fn members_view(entries: Seq<(String, Json)>) -> Seq<(Seq<char>, JsonModel)>
    decreases entries,
{
    if entries.len() == 0 {
        Seq::empty()
    } else {
        members_view(entries.drop_last()).push((entries.last().0@, json_view(entries.last().1)))
    }
}

/// The model of one value.
pub open spec fn json_view(j: Json) -> JsonModel
    decreases j,
{
    match j {
        Json::Null => JsonModel::Null,
        Json::Bool(b) => JsonModel::Bool(b),
        Json::UInt(n) => JsonModel::UInt(n),
        Json::OtherNumber => JsonModel::OtherNumber,
        Json::Str(s) => JsonModel::Str(s@),
        Json::Array(v) => JsonModel::Array(items_view(v@)),
        Json::Object(v) => JsonModel::Object(members_view(v@)),
    }
}

impl View for Json {
    type V = JsonModel;

    open spec fn view(&self) -> JsonModel {
        json_view(*self)
    }
}

/// A JSON value that is not a message: not an object, a required field
/// missing or of the wrong shape, or an unknown payload tag.
#[derive(Debug, Clone, Copy, PartialEq, Eq, Structural)]
pub struct SchemaError;

/// The value of the first member named `key`.
pub open spec fn member(entries: Seq<(Seq<char>, JsonModel)>, key: Seq<char>) -> Option<JsonModel>
    decreases entries.len(),
{
    if entries.len() == 0 {
        None
    } else if entries[0].0 == key {
        Some(entries[0].1)
    } else {
        member(entries.drop_first(), key)
    }
}

/// The member `key` as a string.
pub open spec fn str_member(o: Seq<(Seq<char>, JsonModel)>, key: Seq<char>) -> Option<Seq<char>> {
    match member(o, key) {
        Some(JsonModel::Str(s)) => Some(s),
        _ => None,
    }
}

/// The member `key` as an unsigned 32-bit integer.
pub open spec fn u32_member(o: Seq<(Seq<char>, JsonModel)>, key: Seq<char>) -> Option<u32> {
    match member(o, key) {
        Some(JsonModel::UInt(n)) => if n <= u32::MAX {
            Some(n as u32)
        } else {
            None
        },
        _ => None,
    }
}

/// The member `key` as an array whose items are all strings.
pub open spec fn str_list_member(o: Seq<(Seq<char>, JsonModel)>, key: Seq<char>) -> Option<
    Seq<Seq<char>>,
> {
    match member(o, key) {
        Some(JsonModel::Array(a)) => if forall|i: int| 0 <= i < a.len() ==> (#[trigger] a[i]) is Str {
            Some(a.map_values(|x: JsonModel| x->Str_0))
        } else {
            None
        },
        _ => None,
    }
}

/// The payload that a body object stands for, selected by its `type` member.
pub open spec fn payload_of(body: JsonModel) -> Option<PayloadModel> {
    match body {
        JsonModel::Object(o) => {
            let tag = str_member(o, "type"@);
            if tag == Some("init"@) {
                match (u32_member(o, "msg_id"@), str_member(o, "node_id"@), str_list_member(o, "node_ids"@)) {
                    (Some(msg_id), Some(node_id), Some(node_ids)) => Some(
                        PayloadModel::Init { msg_id, node_id, node_ids },
                    ),
                    _ => None,
                }
            } else if tag == Some("init_ok"@) {
                match u32_member(o, "in_reply_to"@) {
                    Some(in_reply_to) => Some(PayloadModel::InitOk { in_reply_to }),
                    None => None,
                }
            } else if tag == Some("echo"@) {
                match (u32_member(o, "msg_id"@), str_member(o, "echo"@)) {
                    (Some(msg_id), Some(echo)) => Some(PayloadModel::Echo { msg_id, echo }),
                    _ => None,
                }
            } else if tag == Some("echo_ok"@) {
                match (u32_member(o, "msg_id"@), u32_member(o, "in_reply_to"@), str_member(o, "echo"@)) {
                    (Some(msg_id), Some(in_reply_to), Some(echo)) => Some(
                        PayloadModel::EchoOk { msg_id, in_reply_to, echo },
                    ),
                    _ => None,
                }
            } else {
                None
            }
        },
        _ => None,
    }
}

/// The message that a JSON value stands for, if it stands for one. Members
/// that the schema does not name are ignored.
pub open spec fn message_of(j: JsonModel) -> Option<MessageModel> {
    match j {
        JsonModel::Object(o) => match (str_member(o, "src"@), str_member(o, "dest"@), member(o, "body"@)) {
            (Some(src), Some(dst), Some(body)) => match payload_of(body) {
                Some(payload) => Some(MessageModel { src, dst, payload }),
                None => None,
            },
            _ => None,
        },
        _ => None,
    }
}

/// The model of a sequence of values lists their models in order.
proof fn lemma_items_view(items: Seq<Json>)
    ensures
        items_view(items).len() == items.len(),
        forall|i: int| 0 <= i < items.len() ==> #[trigger] items_view(items)[i] == json_view(items[i]),
    decreases items.len(),
{
    if items.len() > 0 {
        lemma_items_view(items.drop_last());
        assert forall|i: int| 0 <= i < items.len() implies #[trigger] items_view(items)[i] == json_view(items[i]) by {
            if i < items.len() - 1 {
                assert(items.drop_last()[i] == items[i]);
            }
        }
    }
}

/// The model of a sequence of members lists their models in order.
proof fn lemma_members_view(entries: Seq<(String, Json)>)
    ensures
        members_view(entries).len() == entries.len(),
        forall|i: int|
            0 <= i < entries.len() ==> #[trigger] members_view(entries)[i] == (
                entries[i].0@,
                json_view(entries[i].1),
            ),
    decreases entries.len(),
{
    if entries.len() > 0 {
        lemma_members_view(entries.drop_last());
        assert forall|i: int| 0 <= i < entries.len() implies #[trigger] members_view(entries)[i] == (
            entries[i].0@,
            json_view(entries[i].1),
        ) by {
            if i < entries.len() - 1 {
                assert(entries.drop_last()[i] == entries[i]);
            }
        }
    }
}

/// The value of the first member of the object `obj` named `key`.
fn find_member<'a>(obj: &'a Json, key: &String) -> (r: Option<&'a Json>)
    requires
        obj is Object,
    ensures
        match member(obj@->Object_0, key@) {
            Some(v) => r matches Some(j) && j@ == v,
            None => r is None,
        },
{
    let ghost o = obj@->Object_0;
    match obj {
        Json::Object(entries) => {
            proof {
                lemma_members_view(entries@);
            }
            let n = entries.len();
            let mut i: usize = 0;
            assert(o.subrange(0, n as int) =~= o);
            while i < n
                invariant
                    n == entries.len(),
                    0 <= i <= n,
                    o == obj@->Object_0,
                    o.len() == n,
                    forall|k: int| 0 <= k < n ==> #[trigger] o[k] == (entries[k].0@, entries[k].1@),
                    member(o, key@) == member(o.subrange(i as int, n as int), key@),
                decreases n - i,
            {
                let ghost rest = o.subrange(i as int, n as int);
                assert(rest[0] == o[i as int]);
                assert(o[i as int] == (entries[i as int].0@, entries[i as int].1@));
                if entries[i].0 == *key {
                    return Some(&entries[i].1);
                }
                assert(rest.drop_first() =~= o.subrange(i + 1, n as int));
                i = i + 1;
            }
            None
        },
        _ => None,
    }
}

/// The member `key` of the object `obj`, as a string.
fn get_str(obj: &Json, key: &String) -> (r: Option<String>)
    requires
        obj is Object,
    ensures
        match str_member(obj@->Object_0, key@) {
            Some(v) => r matches Some(s) && s@ == v,
            None => r is None,
        },
{
    match find_member(obj, key) {
        Some(Json::Str(s)) => Some(s.clone()),
        _ => None,
    }
}

/// The member `key` of the object `obj`, as an unsigned 32-bit integer.
fn get_u32(obj: &Json, key: &String) -> (r: Option<u32>)
    requires
        obj is Object,
    ensures
        r == u32_member(obj@->Object_0, key@),
{
    match find_member(obj, key) {
        Some(Json::UInt(n)) => if *n <= 0xffff_ffff {
            Some(*n as u32)
        } else {
            None
        },
        _ => None,
    }
}

/// The member `key` of the object `obj`, as an array of strings.
fn get_str_list(obj: &Json, key: &String) -> (r: Option<Vec<String>>)
    requires
        obj is Object,
    ensures
        match str_list_member(obj@->Object_0, key@) {
            Some(v) => r matches Some(l) && l.deep_view() == v,
            None => r is None,
        },
{
    match find_member(obj, key) {
        Some(Json::Array(items)) => {
            let ghost a = Json::Array(*items)@->Array_0;
            proof {
                lemma_items_view(items@);
            }
            let mut out: Vec<String> = Vec::new();
            let mut i: usize = 0;
            while i < items.len()
                invariant
                    0 <= i <= items.len(),
                    a.len() == items.len(),
                    forall|k: int| 0 <= k < items.len() ==> #[trigger] a[k] == items[k]@,
                    a == Json::Array(*items)@->Array_0,
                    obj is Object,
                    match member(obj@->Object_0, key@) {
                        Some(JsonModel::Array(x)) => x == a,
                        _ => false,
                    },
                    forall|k: int| 0 <= k < i ==> (#[trigger] a[k]) is Str,
                    out.deep_view() =~= a.take(i as int).map_values(|x: JsonModel| x->Str_0),
                decreases items.len() - i,
            {
                assert(a[i as int] == items[i as int]@);
                match &items[i] {
                    Json::Str(s) => {
                        let ghost before = out.deep_view();
                        out.push(s.clone());
                        assert(out.deep_view() =~= before.push(s@));
                        assert(a.take(i + 1) =~= a.take(i as int).push(a[i as int]));
                        assert(a.take(i + 1).map_values(|x: JsonModel| x->Str_0) =~= a.take(
                            i as int,
                        ).map_values(|x: JsonModel| x->Str_0).push(s@));
                    },
                    _ => {
                        return None;
                    },
                }
                i = i + 1;
            }
            assert(a.take(i as int) =~= a);
            Some(out)
        },
        _ => None,
    }
}

/// Reads a payload out of a body object by its `type` member.
fn decode_payload(body: &Json) -> (r: Option<Payload>)
    ensures
        match payload_of(body@) {
            Some(p) => r matches Some(q) && q@ == p,
            None => r is None,
        },
{
    if !matches!(body, Json::Object(_)) {
        return None;
    }
    let tag = match get_str(body, &String::from_str("type")) {
        Some(t) => t,
        None => {
            return None;
        },
    };
    let msg_id = String::from_str("msg_id");
    let in_reply_to = String::from_str("in_reply_to");
    let echo = String::from_str("echo");
    if tag == String::from_str("init") {
        match (get_u32(body, &msg_id), get_str(body, &String::from_str("node_id")), get_str_list(body, &String::from_str("node_ids"))) {
            (Some(msg_id), Some(node_id), Some(node_ids)) => Some(
                Payload::Init { msg_id, node_id, node_ids },
            ),
            _ => None,
        }
    } else if tag == String::from_str("init_ok") {
        match get_u32(body, &in_reply_to) {
            Some(in_reply_to) => Some(Payload::InitOk { in_reply_to }),
            None => None,
        }
    } else if tag == String::from_str("echo") {
        match (get_u32(body, &msg_id), get_str(body, &echo)) {
            (Some(msg_id), Some(echo)) => Some(Payload::Echo { msg_id, echo }),
            _ => None,
        }
    } else if tag == String::from_str("echo_ok") {
        match (get_u32(body, &msg_id), get_u32(body, &in_reply_to), get_str(body, &echo)) {
            (Some(msg_id), Some(in_reply_to), Some(echo)) => Some(
                Payload::EchoOk { msg_id, in_reply_to, echo },
            ),
            _ => None,
        }
    } else {
        None
    }
}

/// Reads a message out of a JSON value: exactly when the value stands for one.
pub fn decode_message(j: &Json) -> (r: Result<Message, SchemaError>)
    ensures
        match message_of(j@) {
            Some(m) => r matches Ok(x) && x@ == m,
            None => r == Err::<Message, SchemaError>(SchemaError),
        },
{
    if !matches!(j, Json::Object(_)) {
        return Err(SchemaError);
    }
    let src = get_str(j, &String::from_str("src"));
    let dst = get_str(j, &String::from_str("dest"));
    let body = find_member(j, &String::from_str("body"));
    match (src, dst, body) {
        (Some(src), Some(dst), Some(body)) => match decode_payload(body) {
            Some(payload) => Ok(Message { src, dst, payload }),
            None => Err(SchemaError),
        },
        _ => Err(SchemaError),
    }
}

/// The JSON value of a payload: an object with its tag under `type` and its
/// fields under their own names.
pub open spec fn payload_json(p: PayloadModel) -> JsonModel {
    match p {
        PayloadModel::Init { msg_id, node_id, node_ids } => JsonModel::Object(
            seq![
                ("type"@, JsonModel::Str("init"@)),
                ("msg_id"@, JsonModel::UInt(msg_id as u64)),
                ("node_id"@, JsonModel::Str(node_id)),
                ("node_ids"@, JsonModel::Array(node_ids.map_values(|s: Seq<char>| JsonModel::Str(s)))),
            ],
        ),
        PayloadModel::InitOk { in_reply_to } => JsonModel::Object(
            seq![
                ("type"@, JsonModel::Str("init_ok"@)),
                ("in_reply_to"@, JsonModel::UInt(in_reply_to as u64)),
            ],
        ),
        PayloadModel::Echo { msg_id, echo } => JsonModel::Object(
            seq![
                ("type"@, JsonModel::Str("echo"@)),
                ("msg_id"@, JsonModel::UInt(msg_id as u64)),
                ("echo"@, JsonModel::Str(echo)),
            ],
        ),
        PayloadModel::EchoOk { msg_id, in_reply_to, echo } => JsonModel::Object(
            seq![
                ("type"@, JsonModel::Str("echo_ok"@)),
                ("msg_id"@, JsonModel::UInt(msg_id as u64)),
                ("in_reply_to"@, JsonModel::UInt(in_reply_to as u64)),
                ("echo"@, JsonModel::Str(echo)),
            ],
        ),
    }
}

/// The JSON value of a message, with the members in the order that the
/// encoder writes them.
pub open spec fn message_json(m: MessageModel) -> JsonModel {
    JsonModel::Object(
        seq![
            ("src"@, JsonModel::Str(m.src)),
            ("dest"@, JsonModel::Str(m.dst)),
            ("body"@, payload_json(m.payload)),
        ],
    )
}

/// Two character sequences that differ in length or at some index differ.
proof fn lemma_differ(a: Seq<char>, b: Seq<char>, i: int)
    requires
        a.len() != b.len() || (0 <= i < a.len() && 0 <= i < b.len() && a[i] != b[i]),
    ensures
        a != b,
{
}

/// The member names and tags of the wire format are pairwise distinct where
/// the schema needs them to be.
proof fn lemma_names_distinct()
    ensures
        "src"@ != "dest"@,
        "src"@ != "body"@,
        "dest"@ != "body"@,
        "init"@ != "init_ok"@,
        "init"@ != "echo"@,
        "init"@ != "echo_ok"@,
        "init_ok"@ != "echo"@,
        "init_ok"@ != "echo_ok"@,
        "echo"@ != "echo_ok"@,
        "type"@ != "msg_id"@,
        "type"@ != "node_id"@,
        "type"@ != "node_ids"@,
        "type"@ != "in_reply_to"@,
        "type"@ != "echo"@,
        "msg_id"@ != "node_id"@,
        "msg_id"@ != "node_ids"@,
        "msg_id"@ != "in_reply_to"@,
        "msg_id"@ != "echo"@,
        "node_id"@ != "node_ids"@,
        "in_reply_to"@ != "echo"@,
{
    assert("src"@ != "dest"@) by {
        reveal_strlit("src");
        reveal_strlit("dest");
        lemma_differ("src"@, "dest"@, 0);
    }
    assert("src"@ != "body"@) by {
        reveal_strlit("src");
        reveal_strlit("body");
        lemma_differ("src"@, "body"@, 0);
    }
    assert("dest"@ != "body"@) by {
        reveal_strlit("dest");
        reveal_strlit("body");
        lemma_differ("dest"@, "body"@, 0);
    }
    assert("init"@ != "init_ok"@) by {
        reveal_strlit("init");
        reveal_strlit("init_ok");
        lemma_differ("init"@, "init_ok"@, 0);
    }
    assert("init"@ != "echo"@) by {
        reveal_strlit("init");
        reveal_strlit("echo");
        lemma_differ("init"@, "echo"@, 0);
    }
    assert("init"@ != "echo_ok"@) by {
        reveal_strlit("init");
        reveal_strlit("echo_ok");
        lemma_differ("init"@, "echo_ok"@, 0);
    }
    assert("init_ok"@ != "echo"@) by {
        reveal_strlit("init_ok");
        reveal_strlit("echo");
        lemma_differ("init_ok"@, "echo"@, 0);
    }
    assert("init_ok"@ != "echo_ok"@) by {
        reveal_strlit("init_ok");
        reveal_strlit("echo_ok");
        assert("init_ok"@[0] == 'i');
        assert("echo_ok"@[0] == 'e');
        lemma_differ("init_ok"@, "echo_ok"@, 0);
    }
    assert("echo"@ != "echo_ok"@) by {
        reveal_strlit("echo");
        reveal_strlit("echo_ok");
        lemma_differ("echo"@, "echo_ok"@, 0);
    }
    assert("type"@ != "msg_id"@) by {
        reveal_strlit("type");
        reveal_strlit("msg_id");
        lemma_differ("type"@, "msg_id"@, 0);
    }
    assert("type"@ != "node_id"@) by {
        reveal_strlit("type");
        reveal_strlit("node_id");
        lemma_differ("type"@, "node_id"@, 0);
    }
    assert("type"@ != "node_ids"@) by {
        reveal_strlit("type");
        reveal_strlit("node_ids");
        lemma_differ("type"@, "node_ids"@, 0);
    }
    assert("type"@ != "in_reply_to"@) by {
        reveal_strlit("type");
        reveal_strlit("in_reply_to");
        lemma_differ("type"@, "in_reply_to"@, 0);
    }
    assert("type"@ != "echo"@) by {
        reveal_strlit("type");
        reveal_strlit("echo");
        lemma_differ("type"@, "echo"@, 0);
    }
    assert("msg_id"@ != "node_id"@) by {
        reveal_strlit("msg_id");
        reveal_strlit("node_id");
        lemma_differ("msg_id"@, "node_id"@, 0);
    }
    assert("msg_id"@ != "node_ids"@) by {
        reveal_strlit("msg_id");
        reveal_strlit("node_ids");
        lemma_differ("msg_id"@, "node_ids"@, 0);
    }
    assert("msg_id"@ != "in_reply_to"@) by {
        reveal_strlit("msg_id");
        reveal_strlit("in_reply_to");
        lemma_differ("msg_id"@, "in_reply_to"@, 0);
    }
    assert("msg_id"@ != "echo"@) by {
        reveal_strlit("msg_id");
        reveal_strlit("echo");
        lemma_differ("msg_id"@, "echo"@, 0);
    }
    assert("node_id"@ != "node_ids"@) by {
        reveal_strlit("node_id");
        reveal_strlit("node_ids");
        lemma_differ("node_id"@, "node_ids"@, 0);
    }
    assert("in_reply_to"@ != "echo"@) by {
        reveal_strlit("in_reply_to");
        reveal_strlit("echo");
        lemma_differ("in_reply_to"@, "echo"@, 0);
    }
}

/// Decoding the JSON value of any message gives back that message, equal in
/// every field.
pub proof fn lemma_decode_message_json(m: MessageModel)
    ensures
        message_of(message_json(m)) == Some(m),
{
    lemma_names_distinct();
    reveal_with_fuel(member, 5);
    let o = message_json(m)->Object_0;
    assert(str_member(o, "src"@) == Some(m.src));
    assert(str_member(o, "dest"@) == Some(m.dst));
    assert(member(o, "body"@) == Some(payload_json(m.payload)));
    let b = payload_json(m.payload)->Object_0;
    match m.payload {
        PayloadModel::Init { msg_id, node_id, node_ids } => {
            assert(str_member(b, "type"@) == Some("init"@));
            assert(u32_member(b, "msg_id"@) == Some(msg_id));
            assert(str_member(b, "node_id"@) == Some(node_id));
            let a = node_ids.map_values(|s: Seq<char>| JsonModel::Str(s));
            assert(member(b, "node_ids"@) == Some(JsonModel::Array(a)));
            assert(a.map_values(|x: JsonModel| x->Str_0) =~= node_ids);
            assert(str_list_member(b, "node_ids"@) == Some(node_ids));
        },
        PayloadModel::InitOk { in_reply_to } => {
            assert(str_member(b, "type"@) == Some("init_ok"@));
            assert(u32_member(b, "in_reply_to"@) == Some(in_reply_to));
        },
        PayloadModel::Echo { msg_id, echo } => {
            assert(str_member(b, "type"@) == Some("echo"@));
            assert(u32_member(b, "msg_id"@) == Some(msg_id));
            assert(str_member(b, "echo"@) == Some(echo));
        },
        PayloadModel::EchoOk { msg_id, in_reply_to, echo } => {
            assert(str_member(b, "type"@) == Some("echo_ok"@));
            assert(u32_member(b, "msg_id"@) == Some(msg_id));
            assert(u32_member(b, "in_reply_to"@) == Some(in_reply_to));
            assert(str_member(b, "echo"@) == Some(echo));
        },
    }
    assert(payload_of(payload_json(m.payload)) == Some(m.payload));
}

} // verus!
