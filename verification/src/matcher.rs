//! Event matcher: recognising join and leave events in one log line.
//!
//! A line carries an event when it holds the fixed structural prefix
//! `"[Server thread/INFO]: "` followed, somewhere later, by a fixed trailing
//! marker — `" joined the game"` for a join, `" left the game"` for a leave.
//! The actor name is the text between the leftmost prefix occurrence and the
//! last marker occurrence after it; it may be empty. Both grammars are held
//! against every line, so one line can in principle yield two events.

use vstd::prelude::*;

verus! {

/// A semantic event found in one line: an actor entered or left.
#[derive(Clone, PartialEq, Eq, Debug)]
pub enum Event {
    Joined { actor_name: Vec<u8> },
    Left { actor_name: Vec<u8> },
}

/// The mathematical value of an `Event`: the same two variants over byte
/// sequences.
pub enum SpecEvent {
    Joined { actor_name: Seq<u8> },
    Left { actor_name: Seq<u8> },
}

impl DeepView for Event {
    type V = SpecEvent;

    open spec fn deep_view(&self) -> SpecEvent {
        match self {
            Event::Joined { actor_name } => SpecEvent::Joined { actor_name: actor_name@ },
            Event::Left { actor_name } => SpecEvent::Left { actor_name: actor_name@ },
        }
    }
}

/// The bytes of the structural prefix `"[Server thread/INFO]: "`.
pub open spec fn spec_prefix() -> Seq<u8> {
    seq![
        91u8, 83u8, 101u8, 114u8, 118u8, 101u8, 114u8, 32u8, 116u8, 104u8, 114u8, 101u8, 97u8,
        100u8, 47u8, 73u8, 78u8, 70u8, 79u8, 93u8, 58u8, 32u8,
    ]
}

/// The bytes of the join marker `" joined the game"`.
pub open spec fn spec_join_marker() -> Seq<u8> {
    seq![32u8, 106u8, 111u8, 105u8, 110u8, 101u8, 100u8, 32u8, 116u8, 104u8, 101u8, 32u8, 103u8,
        97u8, 109u8, 101u8]
}

/// The bytes of the leave marker `" left the game"`.
pub open spec fn spec_left_marker() -> Seq<u8> {
    seq![32u8, 108u8, 101u8, 102u8, 116u8, 32u8, 116u8, 104u8, 101u8, 32u8, 103u8, 97u8, 109u8,
        101u8]
}

/// The structural prefix `"[Server thread/INFO]: "` as a byte vector.
pub fn prefix_pattern() -> (v: Vec<u8>)
    ensures
        v@ == spec_prefix(),
{
    let mut v: Vec<u8> = Vec::new();
    v.push(91);
    v.push(83);
    v.push(101);
    v.push(114);
    v.push(118);
    v.push(101);
    v.push(114);
    v.push(32);
    v.push(116);
    v.push(104);
    v.push(114);
    v.push(101);
    v.push(97);
    v.push(100);
    v.push(47);
    v.push(73);
    v.push(78);
    v.push(70);
    v.push(79);
    v.push(93);
    v.push(58);
    v.push(32);
    proof {
        assert(v@ =~= spec_prefix());
    }
    v
}

/// The join marker `" joined the game"` as a byte vector.
pub fn join_marker_pattern() -> (v: Vec<u8>)
    ensures
        v@ == spec_join_marker(),
{
    let mut v: Vec<u8> = Vec::new();
    v.push(32);
    v.push(106);
    v.push(111);
    v.push(105);
    v.push(110);
    v.push(101);
    v.push(100);
    v.push(32);
    v.push(116);
    v.push(104);
    v.push(101);
    v.push(32);
    v.push(103);
    v.push(97);
    v.push(109);
    v.push(101);
    proof {
        assert(v@ =~= spec_join_marker());
    }
    v
}

/// The leave marker `" left the game"` as a byte vector.
pub fn left_marker_pattern() -> (v: Vec<u8>)
    ensures
        v@ == spec_left_marker(),
{
    let mut v: Vec<u8> = Vec::new();
    v.push(32);
    v.push(108);
    v.push(101);
    v.push(102);
    v.push(116);
    v.push(32);
    v.push(116);
    v.push(104);
    v.push(101);
    v.push(32);
    v.push(103);
    v.push(97);
    v.push(109);
    v.push(101);
    proof {
        assert(v@ =~= spec_left_marker());
    }
    v
}

/// Holds when `pat` occurs in `s` starting at position `i`.
pub open spec fn match_at(s: Seq<u8>, pat: Seq<u8>, i: int) -> bool {
    &&& 0 <= i
    &&& i + pat.len() <= s.len()
    &&& s.subrange(i, i + pat.len()) == pat
}

/// The first position at or after `from` where `pat` occurs in `s`, or -1
/// when it occurs nowhere at or after `from`.
pub open spec fn first_match_from(s: Seq<u8>, pat: Seq<u8>, from: int) -> int
    decreases s.len() - from when 0 <= from && 1 <= pat.len()
{
    if from + pat.len() > s.len() {
        -1
    } else if match_at(s, pat, from) {
        from
    } else {
        first_match_from(s, pat, from + 1)
    }
}

/// The last position at or before `j` where `pat` occurs in `s`, or -1 when
/// it occurs nowhere at or before `j`.
pub open spec fn last_match_before(s: Seq<u8>, pat: Seq<u8>, j: int) -> int
    decreases j + 1 when j < s.len()
{
    if j < 0 {
        -1
    } else if match_at(s, pat, j) {
        j
    } else {
        last_match_before(s, pat, j - 1)
    }
}

/// What `first_match_from` finds is the leftmost occurrence: -1 means the
/// pattern occurs nowhere at or after `from`; a position means the pattern
/// occurs there and nowhere earlier at or after `from`.
pub proof fn lemma_first_match_from(s: Seq<u8>, pat: Seq<u8>, from: int)
    requires
        0 <= from,
        1 <= pat.len(),
    ensures
        first_match_from(s, pat, from) == -1 ==> forall|k: int|
            from <= k ==> !match_at(s, pat, k),
        first_match_from(s, pat, from) >= 0 ==> {
            &&& from <= first_match_from(s, pat, from)
            &&& match_at(s, pat, first_match_from(s, pat, from))
            &&& forall|k: int|
                from <= k < first_match_from(s, pat, from) ==> !match_at(s, pat, k)
        },
    decreases s.len() - from,
{
    if from + pat.len() > s.len() {
    } else if match_at(s, pat, from) {
    } else {
        lemma_first_match_from(s, pat, from + 1);
    }
}

/// What `last_match_before` finds is the rightmost occurrence: -1 means the
/// pattern occurs nowhere at or before `j`; a position means the pattern
/// occurs there and nowhere later at or before `j`.
pub proof fn lemma_last_match_before(s: Seq<u8>, pat: Seq<u8>, j: int)
    requires
        j < s.len(),
    ensures
        last_match_before(s, pat, j) == -1 ==> forall|k: int| k <= j ==> !match_at(s, pat, k),
        last_match_before(s, pat, j) >= 0 ==> {
            &&& last_match_before(s, pat, j) <= j
            &&& match_at(s, pat, last_match_before(s, pat, j))
            &&& forall|k: int| last_match_before(s, pat, j) < k <= j ==> !match_at(s, pat, k)
        },
    decreases j + 1,
{
    if j < 0 {
    } else if match_at(s, pat, j) {
    } else {
        lemma_last_match_before(s, pat, j - 1);
    }
}

/// The actor name captured when `s` matches the grammar `prefix`, then
/// anything, then `marker`: the text between the leftmost prefix occurrence
/// and the last marker occurrence after it. `None` when the grammar does not
/// match.
pub open spec fn spec_capture(s: Seq<u8>, prefix: Seq<u8>, marker: Seq<u8>) -> Option<Seq<u8>> {
    let i = first_match_from(s, prefix, 0);
    if i < 0 {
        None
    } else {
        let j = last_match_before(s, marker, s.len() - marker.len());
        if j < i + prefix.len() {
            None
        } else {
            Some(s.subrange(i + prefix.len(), j))
        }
    }
}

/// The events one line yields: a join capture if the join grammar matches,
/// then a leave capture if the leave grammar matches.
pub open spec fn spec_classify(s: Seq<u8>) -> Seq<SpecEvent> {
    let joins = match spec_capture(s, spec_prefix(), spec_join_marker()) {
        Some(name) => seq![SpecEvent::Joined { actor_name: name }],
        None => Seq::empty(),
    };
    let leaves = match spec_capture(s, spec_prefix(), spec_left_marker()) {
        Some(name) => seq![SpecEvent::Left { actor_name: name }],
        None => Seq::empty(),
    };
    joins + leaves
}

/// Whether `pat` occurs in `s` at position `i`, byte for byte.
fn is_match_at(s: &[u8], pat: &[u8], i: usize) -> (r: bool)
    requires
        i + pat@.len() <= s@.len(),
    ensures
        r == match_at(s@, pat@, i as int),
{
    let n = s.len();
    proof {
        assert(s@.len() == n as int);
    }
    let mut k: usize = 0;
    while k < pat.len()
        invariant
            i + pat@.len() <= s@.len(),
            s@.len() <= usize::MAX,
            k <= pat@.len(),
            forall|m: int| 0 <= m < k ==> s@[i + m] == pat@[m],
        decreases pat@.len() - k,
    {
        if s[i + k] != pat[k] {
            proof {
                assert(s@.subrange(i as int, i + pat@.len())[k as int] == s@[i + k]);
            }
            return false;
        }
        k = k + 1;
    }
    proof {
        assert(s@.subrange(i as int, i + pat@.len()) =~= pat@);
    }
    true
}

/// The first occurrence of `pat` in `s`, scanning from the start.
fn find_first(s: &[u8], pat: &[u8]) -> (r: Option<usize>)
    requires
        1 <= pat@.len(),
    ensures
        match r {
            Some(i) => i == first_match_from(s@, pat@, 0) && match_at(s@, pat@, i as int),
            None => first_match_from(s@, pat@, 0) == -1,
        },
{
    if pat.len() > s.len() {
        return None;
    }
    let bound = s.len() - pat.len();
    let mut i: usize = 0;
    while i <= bound
        invariant
            1 <= pat@.len() <= s@.len(),
            s@.len() <= usize::MAX,
            bound == s@.len() - pat@.len(),
            i <= bound + 1,
            first_match_from(s@, pat@, 0) == first_match_from(s@, pat@, i as int),
        decreases bound + 1 - i,
    {
        if is_match_at(s, pat, i) {
            return Some(i);
        }
        i = i + 1;
    }
    None
}

/// The last occurrence of `pat` in `s`, scanning from the end.
fn find_last(s: &[u8], pat: &[u8]) -> (r: Option<usize>)
    requires
        1 <= pat@.len(),
    ensures
        match r {
            Some(j) => j == last_match_before(s@, pat@, s@.len() - pat@.len()) && match_at(
                s@,
                pat@,
                j as int,
            ),
            None => last_match_before(s@, pat@, s@.len() - pat@.len()) == -1,
        },
{
    if pat.len() > s.len() {
        return None;
    }
    let mut j: usize = s.len() - pat.len();
    loop
        invariant
            1 <= pat@.len() <= s@.len(),
            s@.len() <= usize::MAX,
            j + pat@.len() <= s@.len(),
            last_match_before(s@, pat@, s@.len() - pat@.len()) == last_match_before(
                s@,
                pat@,
                j as int,
            ),
        decreases j,
    {
        if is_match_at(s, pat, j) {
            return Some(j);
        }
        if j == 0 {
            proof {
                assert(last_match_before(s@, pat@, -1) == -1);
            }
            return None;
        }
        j = j - 1;
    }
}

/// Copies the byte range `[a, b)` of `s` into a fresh vector.
fn copy_range(s: &[u8], a: usize, b: usize) -> (v: Vec<u8>)
    requires
        a <= b <= s@.len(),
    ensures
        v@ == s@.subrange(a as int, b as int),
{
    let mut v: Vec<u8> = Vec::new();
    let mut k: usize = a;
    while k < b
        invariant
            a <= k <= b <= s@.len(),
            v@ == s@.subrange(a as int, k as int),
        decreases b - k,
    {
        v.push(s[k]);
        proof {
            assert(v@ =~= s@.subrange(a as int, k + 1));
        }
        k = k + 1;
    }
    v
}

/// Applies one grammar to a line and returns the captured actor name, if
/// the line matches.
fn capture(s: &[u8], prefix: &Vec<u8>, marker: &Vec<u8>) -> (r: Option<Vec<u8>>)
    requires
        1 <= prefix@.len(),
        1 <= marker@.len(),
    ensures
        r.deep_view() == spec_capture(s@, prefix@, marker@),
{
    let n = s.len();
    proof {
        assert(s@.len() == n as int);
    }
    match find_first(s, prefix.as_slice()) {
        None => None,
        Some(i) => {
            match find_last(s, marker.as_slice()) {
                None => None,
                Some(j) => {
                    if j >= i + prefix.len() {
                        Some(copy_range(s, i + prefix.len(), j))
                    } else {
                        None
                    }
                },
            }
        },
    }
}

/// Classifies one line: zero, one or two events, a join before a leave.
pub fn classify(line: &[u8]) -> (events: Vec<Event>)
    ensures
        events.deep_view() == spec_classify(line@),
{
    let prefix = prefix_pattern();
    let join_marker = join_marker_pattern();
    let left_marker = left_marker_pattern();
    let mut events: Vec<Event> = Vec::new();
    let jc = capture(line, &prefix, &join_marker);
    proof {
        assert(jc.deep_view() == spec_capture(line@, spec_prefix(), spec_join_marker()));
    }
    match jc {
        Some(actor_name) => {
            let ghost nm = actor_name@;
            proof {
                assert(spec_capture(line@, spec_prefix(), spec_join_marker()) == Some(nm));
            }
            events.push(Event::Joined { actor_name });
            proof {
                assert(events.deep_view() =~~= seq![SpecEvent::Joined { actor_name: nm }]);
            }
        },
        None => {
            proof {
                assert(events.deep_view() =~~= Seq::<SpecEvent>::empty());
            }
        },
    }
    let ghost joins = events.deep_view();
    let lc = capture(line, &prefix, &left_marker);
    match lc {
        Some(actor_name) => {
            let ghost nm = actor_name@;
            proof {
                assert(spec_capture(line@, spec_prefix(), spec_left_marker()) == Some(nm));
            }
            events.push(Event::Left { actor_name });
            proof {
                assert(events.deep_view() =~~= joins + seq![SpecEvent::Left { actor_name: nm }]);
            }
        },
        None => {
            proof {
                assert(events.deep_view() =~~= joins + Seq::<SpecEvent>::empty());
            }
        },
    }
    proof {
        assert(events.deep_view() =~~= spec_classify(line@));
    }
    events
}

} // verus!
