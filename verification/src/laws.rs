//! Laws about command traces.
//!
//! The hub applies commands one at a time from an ordered queue; a run of
//! the system is therefore a trace: a sequence of states linked by the
//! per-command post predicates of `hub`. The lemmas here state what holds
//! of every such trace — however the sessions' commands interleave on the
//! way into the queue.

use vstd::prelude::*;
use crate::hub::ChatServer;
use crate::hub::connect_post;
use crate::hub::disconnect_post;
use crate::hub::join_post;
use crate::hub::pressed_post;
use crate::session::Session;

verus! {

/// One hub command, as it sits in the serialized queue.
pub enum HubCommand {
    Connect,
    Disconnect { id: usize },
    Join { id: usize, room: Seq<char> },
    ClientMessage,
    ListRooms,
    Pressed,
}

/// `post` is a state the hub may be in after applying `c` to `pre`:
/// exactly the contract of the corresponding handler. Broadcasts and
/// queries leave the state untouched.
pub open spec fn step_post(pre: ChatServer, post: ChatServer, c: HubCommand) -> bool {
    match c {
        HubCommand::Connect => exists|r: Option<usize>| connect_post(pre, post, r),
        HubCommand::Disconnect { id } => disconnect_post(pre, post, id),
        HubCommand::Join { id, room } => join_post(pre, post, id, room),
        HubCommand::ClientMessage => post == pre,
        HubCommand::ListRooms => post == pre,
        HubCommand::Pressed => pressed_post(pre, post),
    }
}

/// `states` is a run of the hub under `cmds`: one more state than
/// commands, each consecutive pair linked by the command between them.
pub open spec fn valid_trace(states: Seq<ChatServer>, cmds: Seq<HubCommand>) -> bool {
    &&& states.len() == cmds.len() + 1
    &&& forall|i: int| 0 <= i < cmds.len() ==> step_post(states[i], states[i + 1], #[trigger] cmds[i])
}

/// How many of the commands are the recognized counter command.
pub open spec fn count_pressed(cmds: Seq<HubCommand>) -> int
    decreases cmds.len(),
{
    if cmds.len() == 0 {
        0
    } else {
        count_pressed(cmds.drop_last()) + (if cmds.last() is Pressed { 1int } else { 0int })
    }
}

/// One step moves the counter by exactly one for the counter command and
/// not at all for any other.
pub proof fn lemma_step_counter(pre: ChatServer, post: ChatServer, c: HubCommand)
    requires
        step_post(pre, post, c),
    ensures
        post.counter as int == pre.counter as int + (if c is Pressed { 1int } else { 0int }),
{
    match c {
        HubCommand::Connect => {
            let r = choose|r: Option<usize>| connect_post(pre, post, r);
        },
        HubCommand::Disconnect { id } => {},
        HubCommand::Join { id, room } => {},
        HubCommand::ClientMessage => {},
        HubCommand::ListRooms => {},
        HubCommand::Pressed => {},
    }
}

/// No lost updates: across any serialized trace the shared counter ends
/// at its initial value plus exactly the number of counter commands,
/// whatever other commands are interleaved and in whatever order the
/// sessions' commands arrived.
pub proof fn lemma_counter_no_lost_updates(states: Seq<ChatServer>, cmds: Seq<HubCommand>)
    requires
        valid_trace(states, cmds),
    ensures
        states.last().counter as int == states[0].counter as int + count_pressed(cmds),
    decreases cmds.len(),
{
    if cmds.len() == 0 {
    } else {
        let n = cmds.len() as int;
        assert(valid_trace(states.drop_last(), cmds.drop_last())) by {
            assert forall|i: int| 0 <= i < cmds.drop_last().len() implies
                step_post(
                    states.drop_last()[i],
                    states.drop_last()[i + 1],
                    #[trigger] cmds.drop_last()[i],
                ) by {
                assert(states.drop_last()[i] == states[i]);
                assert(states.drop_last()[i + 1] == states[i + 1]);
                assert(cmds.drop_last()[i] == cmds[i]);
                assert(step_post(states[i], states[i + 1], cmds[i]));
            }
        }
        lemma_counter_no_lost_updates(states.drop_last(), cmds.drop_last());
        assert(step_post(states[n - 1], states[n], cmds[n - 1]));
        lemma_step_counter(states[n - 1], states[n], cmds[n - 1]);
        assert(states.drop_last().last() == states[n - 1]);
        assert(cmds[n - 1] == cmds.last());
    }
}

/// Monotone observation: along any trace the counter never decreases, so
/// the sequence of counter broadcasts any connected session sees — each
/// carrying the counter at the moment it was sent — is non-decreasing.
pub proof fn lemma_counter_monotonic(
    states: Seq<ChatServer>,
    cmds: Seq<HubCommand>,
    i: int,
    j: int,
)
    requires
        valid_trace(states, cmds),
        0 <= i <= j < states.len(),
    ensures
        states[i].counter <= states[j].counter,
    decreases j - i,
{
    if i < j {
        lemma_counter_monotonic(states, cmds, i, j - 1);
        assert(step_post(states[j - 1], states[j], cmds[j - 1]));
        lemma_step_counter(states[j - 1], states[j], cmds[j - 1]);
    }
}

/// Disconnect is final for the trace: after any trace whose last command
/// disconnects `id`, that id is absent from the registry and from every
/// room — whatever happened before.
pub proof fn lemma_disconnect_final(states: Seq<ChatServer>, cmds: Seq<HubCommand>, id: usize)
    requires
        valid_trace(states, cmds),
        cmds.len() > 0,
        cmds.last() == (HubCommand::Disconnect { id }),
    ensures
        !states.last().is_registered(id),
        forall|r: Seq<char>| !states.last().member_of(id, r),
{
    let n = cmds.len() as int;
    assert(step_post(states[n - 1], states[n], cmds[n - 1]));
}

/// Re-joining moves, never duplicates: a registered session that joins
/// `r1` and then `r2` ends a member of exactly `r2`, never both.
pub proof fn lemma_rejoin_exclusive(
    s0: ChatServer,
    s1: ChatServer,
    s2: ChatServer,
    id: usize,
    r1: Seq<char>,
    r2: Seq<char>,
)
    requires
        s0.is_registered(id),
        join_post(s0, s1, id, r1),
        join_post(s1, s2, id, r2),
    ensures
        s2.member_of(id, r2),
        forall|r: Seq<char>| r != r2 ==> !s2.member_of(id, r),
{
    assert(s1.is_registered(id));
}

/// Heartbeat eviction: a session silent past the timeout window is, once
/// its disconnect is applied, gone from the registry and from every room.
pub proof fn lemma_timeout_eviction(
    sess: Session,
    now_ms: u64,
    pre: ChatServer,
    post: ChatServer,
)
    requires
        sess.timed_out(now_ms),
        disconnect_post(pre, post, sess.id),
    ensures
        !post.is_registered(sess.id),
        forall|r: Seq<char>| !post.member_of(sess.id, r),
{
}

} // verus!
