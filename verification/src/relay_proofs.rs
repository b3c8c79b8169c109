//! What holds of every run of a relay task.

use crate::relay::echoed;
use crate::relay::forwarded_to;
use crate::relay::forwards;
use crate::relay::outcome_events;
use crate::relay::peers_among;
use crate::relay::other_than;
use crate::relay::session_actions;
use crate::relay::session_bytes;
use crate::relay::session_events;
use crate::relay::Action;
use crate::relay::Cycle;
use crate::relay::Event;
use crate::relay::Relay;
use crate::relay::RelayState;
use crate::relay::READ_BUFFER_SIZE;
use crate::session_manager::Registry;
use vstd::prelude::*;

verus! {

/// A message never goes to its sender by way of the broadcast: the peers
/// chosen among any members leave the sender out, and keep everyone else.
pub proof fn lemma_peers_exclude_sender(members: Seq<i32>, sender: i32)
    ensures
        !peers_among(members, sender).contains(sender),
        forall|id: i32|
            id != sender ==> (#[trigger] peers_among(members, sender).contains(id)
                <==> members.contains(id)),
        members.no_duplicates() ==> peers_among(members, sender).no_duplicates(),
        !members.contains(sender) ==> peers_among(members, sender) == members,
    decreases members.len(),
{
    reveal(Seq::filter);
    let pred = other_than(sender);
    let peers = peers_among(members, sender);
    if members.len() == 0 {
    } else {
        let front = members.drop_last();
        let last = members.last();
        lemma_peers_exclude_sender(front, sender);
        let sub = peers_among(front, sender);
        assert(members =~= front.push(last));
        assert forall|id: i32| id != sender implies (#[trigger] peers.contains(id)
            <==> members.contains(id)) by {
            if peers.contains(id) {
                let i = choose|i: int| 0 <= i < peers.len() && peers[i] == id;
                if i < sub.len() {
                    assert(sub.contains(id));
                    let j = choose|j: int| 0 <= j < front.len() && front[j] == id;
                    assert(members[j] == id);
                } else {
                    assert(members[members.len() - 1] == id);
                }
            }
            if members.contains(id) {
                let j = choose|j: int| 0 <= j < members.len() && members[j] == id;
                if j < front.len() {
                    assert(front[j] == id);
                    assert(sub.contains(id));
                    let i = choose|i: int| 0 <= i < sub.len() && sub[i] == id;
                    assert(peers[i] == id);
                } else {
                    assert(peers[peers.len() - 1] == id);
                }
            }
        }
        if members.no_duplicates() {
            assert(front.no_duplicates());
            if pred(last) {
                assert(!sub.contains(last)) by {
                    if sub.contains(last) {
                        assert(front.contains(last));
                        let j = choose|j: int| 0 <= j < front.len() && front[j] == last;
                        assert(members[j] == members[members.len() - 1]);
                    }
                }
            }
        }
        if !members.contains(sender) {
            assert(!front.contains(sender)) by {
                if front.contains(sender) {
                    let j = choose|j: int| 0 <= j < front.len() && front[j] == sender;
                    assert(members[j] == sender);
                }
            }
            assert(last != sender) by {
                assert(members[members.len() - 1] == last);
            }
            assert(peers =~= members);
        }
    }
}

/// One step of a task changes neither the session it serves nor its being
/// well formed; what it leaves out of a broadcast is its own session, and
/// what it forwards is the message in progress, to a session other than its
/// own.
pub proof fn lemma_step_invariant(relay: Relay, event: Event)
    requires
        relay.wf(),
    ensures
        relay.step(event).0.wf(),
        relay.step(event).0.session_id == relay.session_id,
        relay.step(event).1 matches Action::Snapshot { excluded } ==> excluded == relay.session_id,
        relay.step(event).1 matches Action::Echo { payload } ==> event == Event::Received(payload),
        relay.step(event).1 matches Action::Forward { peer, payload } ==> peer != relay.session_id
            && payload == relay.message,
{
    match (relay.state, relay.pending, event) {
        (RelayState::Broadcasting, None, Event::Members(ids)) => {
            lemma_peers_exclude_sender(ids, relay.session_id);
        },
        (RelayState::Broadcasting, Some(peers), _) => {
            let rest = peers.skip(1);
            assert forall|i: int| 0 <= i < rest.len() implies rest[i] != relay.session_id by {
                assert(rest[i] == peers[i + 1]);
            }
        },
        _ => {},
    }
}

/// Running through two stretches of events in one go is running through the
/// first and then, from where that ended, through the second.
pub proof fn lemma_run_appended(relay: Relay, first: Seq<Event>, second: Seq<Event>)
    ensures
        relay.run(first + second) == (
            relay.run(first).0.run(second).0,
            relay.run(first).1 + relay.run(first).0.run(second).1,
        ),
    decreases first.len(),
{
    if first.len() == 0 {
        assert(first + second =~= second);
        assert(relay.run(first).1 + relay.run(second).1 =~= relay.run(second).1);
    } else {
        let all = first + second;
        let next = relay.step(first[0]).0;
        assert(all[0] == first[0]);
        assert(all.drop_first() =~= first.drop_first() + second);
        lemma_run_appended(next, first.drop_first(), second);
        let a = seq![relay.step(first[0]).1];
        let b = next.run(first.drop_first()).1;
        let c = next.run(first.drop_first()).0.run(second).1;
        assert(a + (b + c) =~= (a + b) + c);
    }
}

/// The bytes echoed by two stretches of actions are those of the first
/// followed by those of the second.
pub proof fn lemma_echoed_appended(first: Seq<Action>, second: Seq<Action>)
    ensures
        echoed(first + second) == echoed(first) + echoed(second),
    decreases second.len(),
{
    if second.len() == 0 {
        assert(first + second =~= first);
        assert(echoed(first) + echoed(second) =~= echoed(first));
    } else {
        let all = first + second;
        assert(all.drop_last() =~= first + second.drop_last());
        assert(all.last() == second.last());
        lemma_echoed_appended(first, second.drop_last());
        assert(echoed(all) =~= echoed(first) + echoed(second));
    }
}

/// The bytes forwarded to a peer by two stretches of actions are those of the
/// first followed by those of the second.
pub proof fn lemma_forwarded_appended(first: Seq<Action>, second: Seq<Action>, peer: i32)
    ensures
        forwarded_to(first + second, peer) == forwarded_to(first, peer) + forwarded_to(
            second,
            peer,
        ),
    decreases second.len(),
{
    if second.len() == 0 {
        assert(first + second =~= first);
        assert(forwarded_to(first, peer) + forwarded_to(second, peer) =~= forwarded_to(
            first,
            peer,
        ));
    } else {
        let all = first + second;
        assert(all.drop_last() =~= first + second.drop_last());
        assert(all.last() == second.last());
        lemma_forwarded_appended(first, second.drop_last(), peer);
        assert(forwarded_to(all, peer) =~= forwarded_to(first, peer) + forwarded_to(
            second,
            peer,
        ));
    }
}

/// Forwarding a payload to a list of peers echoes nothing and hands nothing
/// to a session that is not on the list; where no peer is listed twice, each
/// peer on the list gets the payload exactly once.
pub proof fn lemma_forwards_deliver(peers: Seq<i32>, payload: Seq<u8>, peer: i32)
    ensures
        echoed(forwards(peers, payload)) == Seq::<u8>::empty(),
        !peers.contains(peer) ==> forwarded_to(forwards(peers, payload), peer) == Seq::<
            u8,
        >::empty(),
        peers.no_duplicates() && peers.contains(peer) ==> forwarded_to(
            forwards(peers, payload),
            peer,
        ) == payload,
    decreases peers.len(),
{
    let actions = forwards(peers, payload);
    if peers.len() == 0 {
    } else {
        let front = peers.drop_last();
        assert(actions.drop_last() =~= forwards(front, payload));
        assert(actions.last() == Action::Forward { peer: peers.last(), payload });
        lemma_forwards_deliver(front, payload, peer);
        assert(echoed(actions) =~= Seq::<u8>::empty());
        if peers.last() == peer {
            assert(peers[peers.len() - 1] == peer);
            if peers.no_duplicates() {
                assert(!front.contains(peer)) by {
                    if front.contains(peer) {
                        let j = choose|j: int| 0 <= j < front.len() && front[j] == peer;
                        assert(peers[j] == peers[peers.len() - 1]);
                    }
                }
                assert(forwarded_to(actions, peer) =~= payload);
            }
        } else {
            assert(front.contains(peer) <==> peers.contains(peer)) by {
                if front.contains(peer) {
                    let j = choose|j: int| 0 <= j < front.len() && front[j] == peer;
                    assert(peers[j] == peer);
                }
                if peers.contains(peer) {
                    let j = choose|j: int| 0 <= j < peers.len() && peers[j] == peer;
                    assert(front[j] == peer);
                }
            }
            assert(forwarded_to(actions, peer) =~= forwarded_to(actions.drop_last(), peer));
        }
    }
}

/// A task in the middle of a broadcast serves every peer still waiting, in
/// order, whether the writes before succeed or fail, and then reads again.
pub proof fn lemma_serves_all_pending(relay: Relay, outcomes: Seq<bool>)
    requires
        relay.state == RelayState::Broadcasting,
        relay.pending is Some,
        relay.pending->0.len() > 0,
        outcomes.len() == relay.pending->0.len(),
    ensures
        relay.run(outcome_events(outcomes)) == (
            Relay::start(relay.session_id),
            forwards(relay.pending->0.skip(1), relay.message) + seq![
                Action::Read { max_len: READ_BUFFER_SIZE },
            ],
        ),
    decreases outcomes.len(),
{
    let peers = relay.pending->0;
    let rest = peers.skip(1);
    let events = outcome_events(outcomes);
    let (next, action) = relay.step(events[0]);
    assert(relay.step(events[0]) == relay.serve(rest));
    assert(events.drop_first() =~= outcome_events(outcomes.drop_first()));
    if rest.len() == 0 {
        assert(events.drop_first().len() == 0);
        assert(next.run(events.drop_first()).1 =~= Seq::<Action>::empty());
        assert(relay.run(events).1 =~= forwards(rest, relay.message) + seq![
            Action::Read { max_len: READ_BUFFER_SIZE },
        ]);
    } else {
        lemma_serves_all_pending(next, outcomes.drop_first());
        assert(relay.run(events).1 =~= forwards(rest, relay.message) + seq![
            Action::Read { max_len: READ_BUFFER_SIZE },
        ]);
    }
}

/// A whole cycle, from a read that returns bytes to the next read: the task
/// echoes the bytes, leaves its own session out of the broadcast, forwards
/// the same bytes once to every other member, and is then where it began.
pub proof fn lemma_cycle(session_id: i32, cycle: Cycle)
    requires
        cycle.fits(session_id),
    ensures
        Relay::start(session_id).run(cycle.events()) == (
            Relay::start(session_id),
            cycle.actions(session_id),
        ),
{
    let relay = Relay::start(session_id);
    let head = seq![
        Event::Received(cycle.chunk),
        Event::EchoWritten,
        Event::Members(cycle.members),
    ];
    let tail = outcome_events(cycle.outcomes);
    let peers = peers_among(cycle.members, session_id);
    lemma_run_appended(relay, head, tail);
    let (echoing, echo) = relay.step(head[0]);
    let (collecting, snapshot) = echoing.step(head[1]);
    let (serving, first) = collecting.step(head[2]);
    assert(head.drop_first() =~= seq![head[1], head[2]]);
    assert(head.drop_first().drop_first() =~= seq![head[2]]);
    assert(head.drop_first().drop_first().drop_first() =~= Seq::<Event>::empty());
    reveal_with_fuel(Relay::run, 4);
    assert(relay.run(head).0 == serving);
    assert(relay.run(head).1 =~= seq![echo, snapshot, first]);
    if peers.len() == 0 {
        assert(tail.len() == 0);
        assert(relay.run(cycle.events()).1 =~= cycle.actions(session_id));
    } else {
        lemma_serves_all_pending(serving, cycle.outcomes);
        assert(seq![first] + forwards(peers.skip(1), cycle.chunk) =~= forwards(
            peers,
            cycle.chunk,
        ));
        assert(relay.run(cycle.events()).1 =~= cycle.actions(session_id));
    }
}

/// What a cycle hands out: the session itself gets the bytes back as the
/// echo and nothing by way of the broadcast; a session that is no member gets
/// nothing; and where no member is listed twice, every member but the sender
/// gets exactly the bytes.
pub proof fn lemma_cycle_delivers(session_id: i32, cycle: Cycle, peer: i32)
    ensures
        echoed(cycle.actions(session_id)) == cycle.chunk,
        forwarded_to(cycle.actions(session_id), session_id) == Seq::<u8>::empty(),
        !cycle.members.contains(peer) ==> forwarded_to(cycle.actions(session_id), peer) == Seq::<
            u8,
        >::empty(),
        cycle.members.no_duplicates() && cycle.members.contains(peer) && peer != session_id
            ==> forwarded_to(cycle.actions(session_id), peer) == cycle.chunk,
{
    let head = seq![
        Action::Echo { payload: cycle.chunk },
        Action::Snapshot { excluded: session_id },
    ];
    let peers = peers_among(cycle.members, session_id);
    let middle = forwards(peers, cycle.chunk);
    let read = seq![Action::Read { max_len: READ_BUFFER_SIZE }];
    lemma_peers_exclude_sender(cycle.members, session_id);
    lemma_forwards_deliver(peers, cycle.chunk, peer);
    lemma_forwards_deliver(peers, cycle.chunk, session_id);
    lemma_echoed_appended(head + middle, read);
    lemma_echoed_appended(head, middle);
    lemma_forwarded_appended(head + middle, read, peer);
    lemma_forwarded_appended(head, middle, peer);
    lemma_forwarded_appended(head + middle, read, session_id);
    lemma_forwarded_appended(head, middle, session_id);
    reveal_with_fuel(echoed, 3);
    reveal_with_fuel(forwarded_to, 3);
    assert(head.drop_last() =~= seq![head[0]]);
    assert(head.drop_last().drop_last() =~= Seq::<Action>::empty());
    assert(read.drop_last() =~= Seq::<Action>::empty());
    assert(echoed(head) =~= cycle.chunk);
    assert(echoed(read) =~= Seq::<u8>::empty());
    assert(forwarded_to(head, peer) =~= Seq::<u8>::empty());
    assert(forwarded_to(read, peer) =~= Seq::<u8>::empty());
    assert(forwarded_to(head, session_id) =~= Seq::<u8>::empty());
    assert(forwarded_to(read, session_id) =~= Seq::<u8>::empty());
    assert(echoed(cycle.actions(session_id)) =~= cycle.chunk);
    assert(forwarded_to(cycle.actions(session_id), session_id) =~= Seq::<u8>::empty());
    if peer != session_id {
        assert(peers.contains(peer) <==> cycle.members.contains(peer));
    }
    if !cycle.members.contains(peer) {
        assert(!peers.contains(peer));
        assert(forwarded_to(cycle.actions(session_id), peer) =~= Seq::<u8>::empty());
    }
    if cycle.members.no_duplicates() && cycle.members.contains(peer) && peer != session_id {
        assert(forwarded_to(cycle.actions(session_id), peer) =~= cycle.chunk);
    }
}

/// Cycle after cycle, a task asks for exactly the actions of each cycle in
/// turn, and after the last one it is ready to read again.
pub proof fn lemma_session(session_id: i32, cycles: Seq<Cycle>)
    requires
        forall|i: int| 0 <= i < cycles.len() ==> (#[trigger] cycles[i]).fits(session_id),
    ensures
        Relay::start(session_id).run(session_events(cycles)) == (
            Relay::start(session_id),
            session_actions(cycles, session_id),
        ),
    decreases cycles.len(),
{
    let relay = Relay::start(session_id);
    if cycles.len() == 0 {
    } else {
        let front = cycles.drop_last();
        assert forall|i: int| 0 <= i < front.len() implies (#[trigger] front[i]).fits(
            session_id,
        ) by {
            assert(front[i] == cycles[i]);
        }
        lemma_session(session_id, front);
        assert(cycles.last() == cycles[cycles.len() - 1]);
        lemma_cycle(session_id, cycles.last());
        lemma_run_appended(relay, session_events(front), cycles.last().events());
    }
}

/// Echo: whatever a session sends comes back to it, byte for byte. The bytes
/// may arrive split over several reads; the echoes of all of them, put end to
/// end, are the bytes that were read, put end to end.
pub proof fn lemma_echo_returns_every_byte(session_id: i32, cycles: Seq<Cycle>)
    requires
        forall|i: int| 0 <= i < cycles.len() ==> (#[trigger] cycles[i]).fits(session_id),
    ensures
        echoed(Relay::start(session_id).run(session_events(cycles)).1) == session_bytes(cycles),
    decreases cycles.len(),
{
    lemma_session(session_id, cycles);
    if cycles.len() == 0 {
    } else {
        let front = cycles.drop_last();
        assert forall|i: int| 0 <= i < front.len() implies (#[trigger] front[i]).fits(
            session_id,
        ) by {
            assert(front[i] == cycles[i]);
        }
        lemma_echo_returns_every_byte(session_id, front);
        lemma_session(session_id, front);
        lemma_cycle_delivers(session_id, cycles.last(), session_id);
        lemma_echoed_appended(
            session_actions(front, session_id),
            cycles.last().actions(session_id),
        );
    }
}

/// Exclusion: by way of the broadcast a session never gets its own bytes
/// back, whoever the members found are.
pub proof fn lemma_sender_gets_no_forward(session_id: i32, cycles: Seq<Cycle>)
    requires
        forall|i: int| 0 <= i < cycles.len() ==> (#[trigger] cycles[i]).fits(session_id),
    ensures
        forwarded_to(Relay::start(session_id).run(session_events(cycles)).1, session_id) == Seq::<
            u8,
        >::empty(),
    decreases cycles.len(),
{
    lemma_session(session_id, cycles);
    if cycles.len() == 0 {
    } else {
        let front = cycles.drop_last();
        assert forall|i: int| 0 <= i < front.len() implies (#[trigger] front[i]).fits(
            session_id,
        ) by {
            assert(front[i] == cycles[i]);
        }
        lemma_sender_gets_no_forward(session_id, front);
        lemma_session(session_id, front);
        lemma_cycle_delivers(session_id, cycles.last(), session_id);
        lemma_forwarded_appended(
            session_actions(front, session_id),
            cycles.last().actions(session_id),
            session_id,
        );
    }
}

/// Whether `members` is a faithful list of the sessions that a message of
/// `sender` goes to in `registry`: every registered session but the sender,
/// each once.
pub open spec fn lists_peers<C>(members: Seq<i32>, registry: Registry<C>, sender: i32) -> bool {
    &&& members.no_duplicates()
    &&& members.to_set() == registry.peers_of(sender)
}

/// Completeness: a peer that stays registered while a session sends gets
/// every byte the session sent, in order and nothing else, whether or not
/// the writes to other peers succeed. `registries[i]` is the registry as the
/// driver found it in cycle `i`.
pub proof fn lemma_broadcast_reaches_every_peer<C>(
    session_id: i32,
    cycles: Seq<Cycle>,
    registries: Seq<Registry<C>>,
    peer: i32,
)
    requires
        peer != session_id,
        registries.len() == cycles.len(),
        forall|i: int| 0 <= i < cycles.len() ==> (#[trigger] cycles[i]).fits(session_id),
        forall|i: int|
            0 <= i < cycles.len() ==> lists_peers(
                (#[trigger] cycles[i]).members,
                registries[i],
                session_id,
            ),
        forall|i: int|
            0 <= i < registries.len() ==> (#[trigger] registries[i]).sessions.contains_key(peer),
    ensures
        forwarded_to(Relay::start(session_id).run(session_events(cycles)).1, peer)
            == session_bytes(cycles),
    decreases cycles.len(),
{
    lemma_session(session_id, cycles);
    if cycles.len() == 0 {
    } else {
        let front = cycles.drop_last();
        let earlier = registries.drop_last();
        let last = cycles.last();
        assert forall|i: int| 0 <= i < front.len() implies (#[trigger] front[i]).fits(session_id)
            && lists_peers(front[i].members, earlier[i], session_id) by {
            assert(front[i] == cycles[i]);
            assert(earlier[i] == registries[i]);
        }
        assert forall|i: int| 0 <= i < earlier.len() implies (#[trigger] earlier[i])
            .sessions.contains_key(peer) by {
            assert(earlier[i] == registries[i]);
        }
        lemma_broadcast_reaches_every_peer(session_id, front, earlier, peer);
        lemma_session(session_id, front);
        assert(last == cycles[cycles.len() - 1]);
        let registry = registries[cycles.len() - 1];
        assert(registry.peers_of(session_id).contains(peer));
        assert(last.members.to_set().contains(peer));
        assert(last.members.contains(peer));
        lemma_cycle_delivers(session_id, last, peer);
        lemma_forwarded_appended(
            session_actions(front, session_id),
            last.actions(session_id),
            peer,
        );
    }
}

} // verus!
