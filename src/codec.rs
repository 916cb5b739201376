//! The wire format: one JSON object per line.
//!
//! Encoding writes the envelope as `{"src":..,"dest":..,"body":{"type":..,..}}`
//! with the body's fields in a fixed order; strings are quoted by serde_json.
//! Framing turns what a line reader handed over into one record, the clean end
//! of the input, or a truncated record.
use vstd::prelude::*;
use vstd::string::*;
use crate::message::{Message, MessageModel, Payload, PayloadModel};

verus! {

/// The JSON string literal that serde_json writes for the characters `s`,
/// quotes included.
pub uninterp spec fn json_quoted(s: Seq<char>) -> Seq<char>;

/// Relies on `serde_json::to_string` on a `str`: it writes the JSON string
/// literal of its argument and escapes every control character, so the line
/// terminator never appears in it raw. It cannot fail on a `str`.
#[verifier::external_body]
fn quote(s: &str) -> (r: String)
    ensures
        r@ == json_quoted(s@),
        no_newline(r@),
{
    match serde_json::to_string(s) {
        Ok(t) => t,
        Err(_) => String::new(),
    }
}

/// `s` holds no line terminator.
pub open spec fn no_newline(s: Seq<char>) -> bool {
    forall|i: int| 0 <= i < s.len() ==> s[i] != '\n'
}

pub proof fn lemma_no_newline_concat(a: Seq<char>, b: Seq<char>)
    requires
        no_newline(a),
        no_newline(b),
    ensures
        no_newline(a + b),
{
    assert forall|i: int| 0 <= i < (a + b).len() implies (a + b)[i] != '\n' by {
        if i < a.len() {
            assert((a + b)[i] == a[i]);
        } else {
            assert((a + b)[i] == b[i - a.len()]);
        }
    }
}

/// The decimal digit character for `d < 10`.
pub open spec fn digit_char(d: nat) -> char {
    if d == 0 { '0' }
    else if d == 1 { '1' }
    else if d == 2 { '2' }
    else if d == 3 { '3' }
    else if d == 4 { '4' }
    else if d == 5 { '5' }
    else if d == 6 { '6' }
    else if d == 7 { '7' }
    else if d == 8 { '8' }
    else { '9' }
}

/// The decimal notation of `n`, without leading zeros.
pub open spec fn decimal(n: nat) -> Seq<char>
    decreases n,
{
    if n < 10 {
        seq![digit_char(n)]
    } else {
        decimal(n / 10).push(digit_char(n % 10))
    }
}

/// A JSON array of strings, each quoted, separated by commas, without brackets.
pub open spec fn quoted_list(ids: Seq<Seq<char>>) -> Seq<char>
    decreases ids.len(),
{
    if ids.len() == 0 {
        Seq::empty()
    } else if ids.len() == 1 {
        json_quoted(ids[0])
    } else {
        quoted_list(ids.drop_last()) + ","@ + json_quoted(ids.last())
    }
}

/// The JSON object that stands for a payload, its tag first.
pub open spec fn payload_text(p: PayloadModel) -> Seq<char> {
    match p {
        PayloadModel::Init { msg_id, node_id, node_ids } => "{\"type\":\"init\",\"msg_id\":"@
            + decimal(msg_id as nat) + ",\"node_id\":"@ + json_quoted(node_id)
            + ",\"node_ids\":["@ + quoted_list(node_ids) + "]}"@,
        PayloadModel::InitOk { in_reply_to } => "{\"type\":\"init_ok\",\"in_reply_to\":"@
            + decimal(in_reply_to as nat) + "}"@,
        PayloadModel::Echo { msg_id, echo } => "{\"type\":\"echo\",\"msg_id\":"@
            + decimal(msg_id as nat) + ",\"echo\":"@ + json_quoted(echo) + "}"@,
        PayloadModel::EchoOk { msg_id, in_reply_to, echo } => "{\"type\":\"echo_ok\",\"msg_id\":"@
            + decimal(msg_id as nat) + ",\"in_reply_to\":"@ + decimal(in_reply_to as nat)
            + ",\"echo\":"@ + json_quoted(echo) + "}"@,
    }
}

/// The JSON object that stands for a message.
pub open spec fn message_text(m: MessageModel) -> Seq<char> {
    "{\"src\":"@ + json_quoted(m.src) + ",\"dest\":"@ + json_quoted(m.dst) + ",\"body\":"@
        + payload_text(m.payload) + "}"@
}

/// The line that carries a message: its JSON text and one line terminator.
pub open spec fn line_of(m: MessageModel) -> Seq<char> {
    message_text(m).push('\n')
}

/// Appends `piece` to `out`; neither holds a line terminator.
fn put(out: &mut String, piece: &str)
    requires
        no_newline(old(out)@),
        no_newline(piece@),
    ensures
        final(out)@ == old(out)@ + piece@,
        no_newline(final(out)@),
{
    proof {
        lemma_no_newline_concat(out@, piece@);
    }
    out.append(piece);
}

/// The one-character text of the digit `d`.
fn digit_str(d: u32) -> (r: &'static str)
    requires
        d < 10,
    ensures
        r@ == seq![digit_char(d as nat)],
{
    proof {
        reveal_strlit("0");
        reveal_strlit("1");
        reveal_strlit("2");
        reveal_strlit("3");
        reveal_strlit("4");
        reveal_strlit("5");
        reveal_strlit("6");
        reveal_strlit("7");
        reveal_strlit("8");
        reveal_strlit("9");
    }
    let r = if d == 0 { "0" }
    else if d == 1 { "1" }
    else if d == 2 { "2" }
    else if d == 3 { "3" }
    else if d == 4 { "4" }
    else if d == 5 { "5" }
    else if d == 6 { "6" }
    else if d == 7 { "7" }
    else if d == 8 { "8" }
    else { "9" };
    assert(r@ =~= seq![digit_char(d as nat)]);
    r
}

/// Appends the decimal notation of `n` to `out`.
fn put_decimal(out: &mut String, n: u32)
    requires
        no_newline(old(out)@),
    ensures
        final(out)@ == old(out)@ + decimal(n as nat),
        no_newline(final(out)@),
    decreases n,
{
    if n >= 10 {
        put_decimal(out, n / 10);
    }
    let d = digit_str(n % 10);
    put(out, d);
    assert(out@ =~= old(out)@ + decimal(n as nat));
}

/// Appends the quoted form of `s` to `out`.
fn put_quoted(out: &mut String, s: &str)
    requires
        no_newline(old(out)@),
    ensures
        final(out)@ == old(out)@ + json_quoted(s@),
        no_newline(final(out)@),
{
    let q = quote(s);
    put(out, q.as_str());
}

/// Appends the comma-separated quoted forms of `ids` to `out`.
fn put_quoted_list(out: &mut String, ids: &Vec<String>)
    requires
        no_newline(old(out)@),
    ensures
        final(out)@ == old(out)@ + quoted_list(ids.deep_view()),
        no_newline(final(out)@),
{
    let ghost start = out@;
    let ghost all = ids.deep_view();
    let mut i: usize = 0;
    while i < ids.len()
        invariant
            0 <= i <= ids.len(),
            all == ids.deep_view(),
            out@ == start + quoted_list(all.take(i as int)),
            no_newline(out@),
        decreases ids.len() - i,
    {
        let ghost before = out@;
        if i > 0 {
            proof {
                reveal_strlit(",");
            }
            put(out, ",");
        }
        put_quoted(out, ids[i].as_str());
        proof {
            let next = all.take(i + 1);
            assert(next.drop_last() =~= all.take(i as int));
            assert(next.last() == ids[i as int]@);
            if i == 0 {
                assert(all.take(0) =~= Seq::<Seq<char>>::empty());
                assert(out@ =~= start + quoted_list(next));
            } else {
                assert(out@ =~= start + quoted_list(next));
            }
        }
        i = i + 1;
    }
    assert(all.take(ids.len() as int) =~= all);
}

/// Appends the JSON object of a payload to `out`.
fn put_payload(out: &mut String, p: &Payload)
    requires
        no_newline(old(out)@),
    ensures
        final(out)@ == old(out)@ + payload_text(p@),
        no_newline(final(out)@),
{
    let ghost start = out@;
    proof {
        reveal_strlit("{\"type\":\"init\",\"msg_id\":");
        reveal_strlit(",\"node_id\":");
        reveal_strlit(",\"node_ids\":[");
        reveal_strlit("]}");
        reveal_strlit("{\"type\":\"init_ok\",\"in_reply_to\":");
        reveal_strlit("}");
        reveal_strlit("{\"type\":\"echo\",\"msg_id\":");
        reveal_strlit(",\"echo\":");
        reveal_strlit("{\"type\":\"echo_ok\",\"msg_id\":");
        reveal_strlit(",\"in_reply_to\":");
    }
    match p {
        Payload::Init { msg_id, node_id, node_ids } => {
            put(out, "{\"type\":\"init\",\"msg_id\":");
            put_decimal(out, *msg_id);
            put(out, ",\"node_id\":");
            put_quoted(out, node_id.as_str());
            put(out, ",\"node_ids\":[");
            put_quoted_list(out, node_ids);
            put(out, "]}");
        },
        Payload::InitOk { in_reply_to } => {
            put(out, "{\"type\":\"init_ok\",\"in_reply_to\":");
            put_decimal(out, *in_reply_to);
            put(out, "}");
        },
        Payload::Echo { msg_id, echo } => {
            put(out, "{\"type\":\"echo\",\"msg_id\":");
            put_decimal(out, *msg_id);
            put(out, ",\"echo\":");
            put_quoted(out, echo.as_str());
            put(out, "}");
        },
        Payload::EchoOk { msg_id, in_reply_to, echo } => {
            put(out, "{\"type\":\"echo_ok\",\"msg_id\":");
            put_decimal(out, *msg_id);
            put(out, ",\"in_reply_to\":");
            put_decimal(out, *in_reply_to);
            put(out, ",\"echo\":");
            put_quoted(out, echo.as_str());
            put(out, "}");
        },
    }
    assert(out@ =~= start + payload_text(p@));
}

/// Encodes a message as one line: its JSON text followed by exactly one line
/// terminator, which appears nowhere else in the line.
pub fn encode(m: &Message) -> (r: String)
    ensures
        r@ == line_of(m@),
        r@.len() > 0,
        r@.last() == '\n',
        no_newline(r@.drop_last()),
{
    proof {
        reveal_strlit("{\"src\":");
        reveal_strlit(",\"dest\":");
        reveal_strlit(",\"body\":");
        reveal_strlit("}");
        reveal_strlit("\n");
    }
    let mut out = String::new();
    assert(no_newline(out@));
    put(&mut out, "{\"src\":");
    put_quoted(&mut out, m.src.as_str());
    put(&mut out, ",\"dest\":");
    put_quoted(&mut out, m.dst.as_str());
    put(&mut out, ",\"body\":");
    put_payload(&mut out, &m.payload);
    put(&mut out, "}");
    let ghost text = out@;
    assert(text =~= message_text(m@));
    out.append("\n");
    assert(out@ =~= line_of(m@));
    assert(out@.drop_last() =~= text);
    out
}

/// Why a chunk of input is not a record.
#[derive(Debug, Clone, Copy, PartialEq, Eq, Structural)]
pub enum FramingError {
    /// The input ended in the middle of a record.
    Truncated,
}

/// What a chunk handed over by a line reader stands for: the clean end of the
/// input when it is empty, a record when it ends with the line terminator
/// (the record is the chunk without it), a truncated record otherwise.
pub open spec fn unframed(chunk: Seq<char>) -> Result<Option<Seq<char>>, FramingError> {
    if chunk.len() == 0 {
        Ok(None)
    } else if chunk.last() == '\n' {
        Ok(Some(chunk.drop_last()))
    } else {
        Err(FramingError::Truncated)
    }
}

/// Reads one record out of the text that a line reader returned: the text up
/// to and including the next line terminator, or up to the end of the input.
pub fn unframe(chunk: &str) -> (r: Result<Option<String>, FramingError>)
    ensures
        match unframed(chunk@) {
            Ok(None) => r matches Ok(None),
            Ok(Some(line)) => r matches Ok(Some(s)) && s@ == line,
            Err(e) => r matches Err(f) && f == e,
        },
{
    let n = chunk.unicode_len();
    if n == 0 {
        Ok(None)
    } else if chunk.get_char(n - 1) == '\n' {
        let line = chunk.substring_char(0, n - 1);
        assert(line@ =~= chunk@.drop_last());
        Ok(Some(line.to_owned()))
    } else {
        Err(FramingError::Truncated)
    }
}

/// The line that encodes a message frames back into exactly the message's
/// JSON text.
pub proof fn lemma_line_unframes(m: MessageModel)
    ensures
        unframed(line_of(m)) == Ok::<Option<Seq<char>>, FramingError>(Some(message_text(m))),
{
    assert(line_of(m).drop_last() =~= message_text(m));
}

} // verus!
