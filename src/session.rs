//! A whole session: the node fed one inbound message after another, up to the
//! end of the input or the first failure.
use vstd::prelude::*;
use crate::message::{Message, MessageModel, PayloadModel};
use crate::node::{
    finish_model, id_space, lemma_echo_correlation, lemma_rejects_after_handshake, step_model,
    ErrorModel, NodeError, State, StateModel,
};

verus! {

/// The models of a sequence of messages.
pub open spec fn views(s: Seq<Message>) -> Seq<MessageModel> {
    s.map_values(|m: Message| m@)
}

/// The replies that `msgs` trigger from state `s`, in order, and the state
/// reached after all of them or the failure that stopped the node.
pub open spec fn run_model(s: StateModel, msgs: Seq<MessageModel>) -> (
    Seq<MessageModel>,
    Result<StateModel, ErrorModel>,
)
    decreases msgs.len(),
{
    if msgs.len() == 0 {
        (Seq::empty(), Ok(s))
    } else {
        match step_model(s, msgs[0]) {
            Ok((next, reply)) => {
                let (rest, res) = run_model(next, msgs.drop_first());
                (seq![reply] + rest, res)
            },
            Err(e) => (Seq::empty(), Err(e)),
        }
    }
}

/// A session from process start to the end of `msgs`: every reply written, and
/// whether the process ends successfully.
pub open spec fn session_model(msgs: Seq<MessageModel>) -> (
    Seq<MessageModel>,
    Result<(), ErrorModel>,
) {
    let (out, res) = run_model(StateModel::Uninitialized, msgs);
    match res {
        Ok(s) => (out, finish_model(s)),
        Err(e) => (out, Err(e)),
    }
}

/// Runs a fresh node over `msgs` and the end of the input. Returns the replies
/// in the order written, and how the session ended.
pub fn run_session(msgs: Vec<Message>) -> (r: (Vec<Message>, Result<(), NodeError>))
    ensures
        views(r.0@) == session_model(views(msgs@)).0,
        match session_model(views(msgs@)).1 {
            Ok(()) => r.1 is Ok,
            Err(e) => r.1 is Err && r.1->Err_0@ == e,
        },
{
    let ghost orig = msgs@;
    let ghost all = views(orig);
    let n = msgs.len();
    let mut input = msgs;
    // `pending` holds the messages last first, so that `pop` yields them in order.
    let mut pending: Vec<Message> = Vec::new();
    while input.len() > 0
        invariant
            input.len() + pending.len() == n,
            n == orig.len(),
            input@ == orig.take(input.len() as int),
            forall|j: int| 0 <= j < pending.len() ==> pending@[j] == orig[n - 1 - j],
        decreases input.len(),
    {
        match input.pop() {
            Some(m) => {
                assert(input@ =~= orig.take(input.len() as int));
                pending.push(m);
            },
            None => {},
        }
    }
    let mut state = State::new();
    let mut out: Vec<Message> = Vec::new();
    assert(all.subrange(0, n as int) =~= all);
    assert(views(out@) + run_model(state@, all).0 =~= run_model(state@, all).0);
    while pending.len() > 0
        invariant
            pending.len() <= n,
            n == orig.len(),
            orig == msgs@,
            all == views(orig),
            forall|j: int| 0 <= j < pending.len() ==> pending@[j] == orig[n - 1 - j],
            state@.wf(),
            run_model(StateModel::Uninitialized, all) == (
                views(out@) + run_model(state@, all.subrange(n - pending.len(), n as int)).0,
                run_model(state@, all.subrange(n - pending.len(), n as int)).1,
            ),
        decreases pending.len(),
    {
        let ghost i = n - pending.len();
        let ghost rest = all.subrange(i, n as int);
        let ghost s0 = state@;
        let m = match pending.pop() {
            Some(m) => m,
            None => {
                return (out, Ok(()));
            },
        };
        assert(m == orig[i]);
        assert(rest[0] == m@);
        assert(rest.drop_first() =~= all.subrange(i + 1, n as int));
        let ghost mv = m@;
        match state.step(m) {
            Ok(reply) => {
                let ghost old_out = views(out@);
                out.push(reply);
                assert(views(out@) =~= old_out.push(reply@));
                let ghost tail = run_model(state@, all.subrange(i + 1, n as int));
                assert(old_out + (seq![reply@] + tail.0) =~= views(out@) + tail.0);
            },
            Err(e) => {
                assert(step_model(s0, mv) == Err::<(StateModel, MessageModel), ErrorModel>(e@));
                assert(run_model(s0, rest) == (Seq::<MessageModel>::empty(), Err::<StateModel, ErrorModel>(e@)));
                assert(views(out@) + Seq::<MessageModel>::empty() =~= views(out@));
                return (out, Err(e));
            },
        }
    }
    assert(all.subrange(n as int, n as int) =~= Seq::<MessageModel>::empty());
    assert(views(out@) + Seq::<MessageModel>::empty() =~= views(out@));
    let end = state.finish();
    (out, end)
}

/// The replies that a node with identity `node_id` and counter `k` writes for
/// the echo requests `ms`, one after another.
pub open spec fn echo_replies(node_id: Seq<char>, k: nat, ms: Seq<MessageModel>) -> Seq<MessageModel> {
    Seq::new(
        ms.len(),
        |i: int|
            MessageModel {
                src: node_id,
                dst: ms[i].src,
                payload: PayloadModel::EchoOk {
                    msg_id: (k + i) as u32,
                    in_reply_to: ms[i].payload->Echo_msg_id,
                    echo: ms[i].payload->Echo_echo,
                },
            },
    )
}

/// The first `j` messages, all echo requests, are answered in order with the
/// ids `k`, `k + 1`, ...; the rest of the session goes on from counter `k + j`.
pub proof fn lemma_run_echo_prefix(node_id: Seq<char>, k: nat, msgs: Seq<MessageModel>, j: int)
    requires
        0 <= j <= msgs.len(),
        k + j <= id_space(),
        forall|i: int| 0 <= i < j ==> (#[trigger] msgs[i]).payload is Echo,
    ensures
        ({
            let r = run_model(StateModel::Ready { node_id, next_id: k }, msgs);
            let t = run_model(
                StateModel::Ready { node_id, next_id: k + j as nat },
                msgs.subrange(j, msgs.len() as int),
            );
            r.1 == t.1 && r.0 == echo_replies(node_id, k, msgs.take(j)) + t.0
        }),
    decreases j,
{
    if j == 0 {
        assert(msgs.subrange(0, msgs.len() as int) =~= msgs);
        assert(echo_replies(node_id, k, msgs.take(0)) =~= Seq::<MessageModel>::empty());
        let r = run_model(StateModel::Ready { node_id, next_id: k }, msgs);
        assert(Seq::<MessageModel>::empty() + r.0 =~= r.0);
    } else {
        lemma_run_echo_prefix(node_id, k, msgs, j - 1);
        let s = StateModel::Ready { node_id, next_id: (k + j - 1) as nat };
        let rest = msgs.subrange(j - 1, msgs.len() as int);
        assert(rest[0] == msgs[j - 1]);
        assert(rest.drop_first() =~= msgs.subrange(j, msgs.len() as int));
        lemma_echo_correlation(s, rest[0]);
        let t = run_model(
            StateModel::Ready { node_id, next_id: k + j as nat },
            msgs.subrange(j, msgs.len() as int),
        );
        let reply = echo_replies(node_id, k, msgs.take(j))[j - 1];
        assert(run_model(s, rest).0 == seq![reply] + t.0);
        assert(echo_replies(node_id, k, msgs.take(j - 1)) + (seq![reply] + t.0)
            =~= echo_replies(node_id, k, msgs.take(j)) + t.0);
    }
}

/// A session that does not open with a handshake fails and writes nothing,
/// the empty session included.
pub proof fn lemma_handshake_required(msgs: Seq<MessageModel>)
    requires
        msgs.len() == 0 || !(msgs[0].payload is Init),
    ensures
        session_model(msgs).0.len() == 0,
        session_model(msgs).1 is Err,
{
}

/// After a handshake, `N` echo requests get `N` replies whose own ids are
/// `0, 1, ..., N - 1` in the order of the requests, each carrying its
/// request's text and id; the session then ends successfully. A node has one
/// id for each `u32` value, so `N` is bounded by their number.
pub proof fn lemma_echo_ids_in_order(init: MessageModel, echoes: Seq<MessageModel>)
    requires
        init.payload is Init,
        echoes.len() <= id_space(),
        forall|i: int| 0 <= i < echoes.len() ==> (#[trigger] echoes[i]).payload is Echo,
    ensures
        ({
            let (out, res) = session_model(seq![init] + echoes);
            &&& res is Ok
            &&& out.len() == echoes.len() + 1
            &&& out[0] == (MessageModel {
                src: init.payload->Init_node_id,
                dst: init.src,
                payload: PayloadModel::InitOk { in_reply_to: init.payload->Init_msg_id },
            })
            &&& out.drop_first() == echo_replies(init.payload->Init_node_id, 0, echoes)
            &&& forall|i: int|
                0 <= i < echoes.len() ==> (#[trigger] out[i + 1]).payload->EchoOk_msg_id == i
        }),
{
    let all = seq![init] + echoes;
    let node_id = init.payload->Init_node_id;
    assert(all[0] == init);
    assert(all.drop_first() =~= echoes);
    lemma_run_echo_prefix(node_id, 0, echoes, echoes.len() as int);
    assert(echoes.take(echoes.len() as int) =~= echoes);
    let n = echoes.len() as nat;
    assert(echoes.subrange(echoes.len() as int, echoes.len() as int) =~= Seq::<MessageModel>::empty());
    let replies = echo_replies(node_id, 0, echoes);
    assert(replies + Seq::<MessageModel>::empty() =~= replies);
    let (out, res) = session_model(all);
    assert(out.drop_first() =~= replies);
    assert forall|i: int| 0 <= i < echoes.len() implies (#[trigger] out[i + 1]).payload->EchoOk_msg_id == i by {
        assert(out[i + 1] == replies[i]);
    }
}

/// A handshake followed by echo requests and then any other payload (a
/// second handshake included): the echo requests are answered, and the node
/// then stops with a failure that names the offending payload.
pub proof fn lemma_session_rejects_after_handshake(msgs: Seq<MessageModel>, k: int)
    requires
        0 < k < msgs.len(),
        k - 1 <= id_space(),
        msgs[0].payload is Init,
        forall|i: int| 0 < i < k ==> (#[trigger] msgs[i]).payload is Echo,
        !(msgs[k].payload is Echo),
    ensures
        session_model(msgs).0.len() == k,
        session_model(msgs).1 == Err::<(), ErrorModel>(ErrorModel::InvalidPayload(msgs[k].payload)),
{
    let node_id = msgs[0].payload->Init_node_id;
    let d = msgs.drop_first();
    assert forall|i: int| 0 <= i < k - 1 implies (#[trigger] d[i]).payload is Echo by {
        assert(d[i] == msgs[i + 1]);
    }
    lemma_run_echo_prefix(node_id, 0, d, k - 1);
    let s = StateModel::Ready { node_id, next_id: (k - 1) as nat };
    let rest = d.subrange(k - 1, d.len() as int);
    assert(rest[0] == msgs[k]);
    lemma_rejects_after_handshake(s, rest[0]);
}

} // verus!
