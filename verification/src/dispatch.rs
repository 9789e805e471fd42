//! Dispatcher: turning detected events into notification requests.
//!
//! Each event becomes one request carrying the destination identifier and a
//! fixed human-readable sentence. Building the requests is pure: a delivery
//! outcome is no input here, so one failed delivery cannot change what is
//! built for the events that follow.

use crate::cursor::TailState;
use crate::line::consumed_len;
use crate::line::split_lines;
use crate::matcher::classify;
use crate::matcher::spec_classify;
use crate::matcher::Event;
use crate::matcher::SpecEvent;
use vstd::prelude::*;
use vstd::slice::slice_to_vec;

verus! {

/// One outbound notification: an opaque destination identifier and the
/// message text to deliver there.
#[derive(Clone, PartialEq, Eq, Debug)]
pub struct NotificationRequest {
    pub destination: Vec<u8>,
    pub text: Vec<u8>,
}

/// The bytes of the sentence opening `"Player joined: "`.
pub open spec fn spec_joined_text() -> Seq<u8> {
    seq![80u8, 108u8, 97u8, 121u8, 101u8, 114u8, 32u8, 106u8, 111u8, 105u8, 110u8, 101u8, 100u8,
        58u8, 32u8]
}

/// The bytes of the sentence opening `"Player left: "`.
pub open spec fn spec_left_text() -> Seq<u8> {
    seq![80u8, 108u8, 97u8, 121u8, 101u8, 114u8, 32u8, 108u8, 101u8, 102u8, 116u8, 58u8, 32u8]
}

/// The notification text for one event: the fixed sentence opening of its
/// variant, followed by the actor name.
pub open spec fn spec_message(e: SpecEvent) -> Seq<u8> {
    match e {
        SpecEvent::Joined { actor_name } => spec_joined_text() + actor_name,
        SpecEvent::Left { actor_name } => spec_left_text() + actor_name,
    }
}

/// The sentence opening `"Player joined: "` as a byte vector.
fn joined_text() -> (v: Vec<u8>)
    ensures
        v@ == spec_joined_text(),
{
    let mut v: Vec<u8> = Vec::new();
    v.push(80);
    v.push(108);
    v.push(97);
    v.push(121);
    v.push(101);
    v.push(114);
    v.push(32);
    v.push(106);
    v.push(111);
    v.push(105);
    v.push(110);
    v.push(101);
    v.push(100);
    v.push(58);
    v.push(32);
    proof {
        assert(v@ =~= spec_joined_text());
    }
    v
}

/// The sentence opening `"Player left: "` as a byte vector.
fn left_text() -> (v: Vec<u8>)
    ensures
        v@ == spec_left_text(),
{
    let mut v: Vec<u8> = Vec::new();
    v.push(80);
    v.push(108);
    v.push(97);
    v.push(121);
    v.push(101);
    v.push(114);
    v.push(32);
    v.push(108);
    v.push(101);
    v.push(102);
    v.push(116);
    v.push(58);
    v.push(32);
    proof {
        assert(v@ =~= spec_left_text());
    }
    v
}

/// Formats the human-readable sentence for one event.
pub fn format_message(e: &Event) -> (m: Vec<u8>)
    ensures
        m@ == spec_message(e.deep_view()),
{
    match e {
        Event::Joined { actor_name } => {
            let mut m = joined_text();
            let mut name = slice_to_vec(actor_name.as_slice());
            m.append(&mut name);
            m
        },
        Event::Left { actor_name } => {
            let mut m = left_text();
            let mut name = slice_to_vec(actor_name.as_slice());
            m.append(&mut name);
            m
        },
    }
}

/// The events that a batch of lines yields, line by line, in order.
pub open spec fn spec_events(lines: Seq<Seq<u8>>) -> Seq<SpecEvent>
    decreases lines.len(),
{
    if lines.len() == 0 {
        Seq::empty()
    } else {
        spec_events(lines.drop_last()) + spec_classify(lines.last())
    }
}

/// Classifies a batch of lines and builds one notification request per
/// detected event: the given destination, and the event's sentence as text.
/// Requests come in line order, events of one line in classify order.
pub fn dispatch_lines(destination: &[u8], lines: &Vec<Vec<u8>>) -> (reqs: Vec<NotificationRequest>)
    ensures
        reqs@.len() == spec_events(lines.deep_view()).len(),
        forall|k: int|
            #![trigger reqs@[k]]
            0 <= k < reqs@.len() ==> reqs@[k].destination@ == destination@ && reqs@[k].text@
                == spec_message(spec_events(lines.deep_view())[k]),
{
    let ghost all = lines.deep_view();
    let mut reqs: Vec<NotificationRequest> = Vec::new();
    let mut i: usize = 0;
    proof {
        assert(all.take(0) =~= Seq::<Seq<u8>>::empty());
    }
    while i < lines.len()
        invariant
            i <= lines@.len(),
            all == lines.deep_view(),
            all.len() == lines@.len(),
            reqs@.len() == spec_events(all.take(i as int)).len(),
            forall|k: int|
                #![trigger reqs@[k]]
                0 <= k < reqs@.len() ==> reqs@[k].destination@ == destination@ && reqs@[k].text@
                    == spec_message(spec_events(all.take(i as int))[k]),
        decreases lines@.len() - i,
    {
        let evs = classify(lines[i].as_slice());
        proof {
            assert(lines@[i as int].deep_view() == all[i as int]);
            assert(all[i as int] =~= lines@[i as int]@);
            assert(evs.deep_view() == spec_classify(all[i as int]));
        }
        let ghost done = spec_events(all.take(i as int));
        let mut j: usize = 0;
        while j < evs.len()
            invariant
                j <= evs@.len(),
                evs.deep_view() == spec_classify(all[i as int]),
                i < all.len(),
                reqs@.len() == done.len() + j,
                forall|k: int|
                    #![trigger reqs@[k]]
                    0 <= k < done.len() ==> reqs@[k].destination@ == destination@ && reqs@[k].text@
                        == spec_message(done[k]),
                forall|k: int|
                    #![trigger reqs@[k]]
                    done.len() <= k < reqs@.len() ==> reqs@[k].destination@ == destination@
                        && reqs@[k].text@ == spec_message(evs.deep_view()[k - done.len()]),
            decreases evs@.len() - j,
        {
            let text = format_message(&evs[j]);
            proof {
                assert(evs@[j as int].deep_view() == evs.deep_view()[j as int]);
            }
            let req = NotificationRequest { destination: slice_to_vec(destination), text };
            reqs.push(req);
            j = j + 1;
        }
        proof {
            assert(all.take(i + 1).drop_last() =~= all.take(i as int));
            assert(all.take(i + 1).last() == all[i as int]);
            assert(spec_events(all.take(i + 1)) == done + spec_classify(all[i as int]));
        }
        i = i + 1;
    }
    proof {
        assert(all.take(all.len() as int) =~= all);
    }
    reqs
}

/// One trigger's worth of work once the planned bytes were read: consume
/// them into complete lines, advance the cursor exactly past those lines,
/// and build the notification requests for every event they hold.
pub fn process_chunk(state: &mut TailState, bytes: &[u8], destination: &[u8]) -> (reqs: Vec<
    NotificationRequest,
>)
    requires
        old(state).offset + bytes@.len() <= u64::MAX,
    ensures
        final(state).offset == old(state).offset + consumed_len(bytes@),
        reqs@.len() == spec_events(split_lines(bytes@)).len(),
        forall|k: int|
            #![trigger reqs@[k]]
            0 <= k < reqs@.len() ==> reqs@[k].destination@ == destination@ && reqs@[k].text@
                == spec_message(spec_events(split_lines(bytes@))[k]),
{
    let lines = state.consume(bytes);
    dispatch_lines(destination, &lines)
}

} // verus!
