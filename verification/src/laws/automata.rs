//! Laws of byte automata.

use regex_automata::dfa::dense::DFA;
use vstd::prelude::*;

use crate::compressed::automaton::lemma_reached_list_len;
use crate::compressed::automaton::lemma_reached_within;
use crate::compressed::automaton::lemma_reaches_self;
use crate::compressed::automaton::lemma_reaches_step;
use crate::compressed::automaton::Automaton;
use crate::compressed::compiled::automaton_of;
use crate::compressed::compiled::dfa_dead_states;
use crate::compressed::compiled::dfa_eoi;
use crate::compressed::compiled::dfa_match_states;
use crate::compressed::compiled::dfa_next;
use crate::compressed::compiled::dfa_quit_states;

verus! {

/// Whether `path` is the walk of an automaton over `bytes` up to where it ends:
/// it takes one step for each byte, and stops in the first matching or dead
/// state.
pub open spec fn is_walk(a: Automaton, path: Seq<u32>, s: u32, bytes: Seq<u8>) -> bool {
    &&& 1 <= path.len() <= bytes.len() + 1
    &&& path[0] == s
    &&& forall|j: int|
        #![trigger path[j]]
        0 <= j < path.len() - 1 ==> path[j + 1] == a.next[(path[j], bytes[j])]
            && !a.matching.contains(path[j]) && !a.dead.contains(path[j])
}

/// Whether a walk ends in success: in a matching state; or behind the last byte,
/// in a state that is not dead and that the end of the input leads to a
/// matching one.
pub open spec fn succeeds(a: Automaton, path: Seq<u32>, bytes: Seq<u8>) -> bool {
    ||| a.matching.contains(path.last())
    ||| path.len() == bytes.len() + 1 && !a.dead.contains(path.last()) && a.matching.contains(
        a.eoi[path.last()],
    )
}

/// An automaton accepts exactly if a walk over the bytes succeeds.
pub proof fn law_accepting_is_walking(a: Automaton, s: u32, bytes: Seq<u8>)
    ensures
        a.accepts(s, bytes) <==> exists|path: Seq<u32>| #[trigger]
            is_walk(a, path, s, bytes) && succeeds(a, path, bytes),
    decreases bytes.len(),
{
    if a.accepts(s, bytes) {
        if a.matching.contains(s) || bytes.len() == 0 {
            let path = seq![s];
            assert(is_walk(a, path, s, bytes) && succeeds(a, path, bytes));
        } else {
            let t = a.next[(s, bytes[0])];
            let rest = bytes.drop_first();
            law_accepting_is_walking(a, t, rest);
            let tail = choose|path: Seq<u32>| #[trigger]
                is_walk(a, path, t, rest) && succeeds(a, path, rest);
            let path = seq![s] + tail;
            assert forall|j: int|
                #![trigger path[j]]
                0 <= j < path.len() - 1 implies path[j + 1] == a.next[(path[j], bytes[j])]
                && !a.matching.contains(path[j]) && !a.dead.contains(path[j]) by {
                if j > 0 {
                    assert(path[j] == tail[j - 1]);
                    assert(path[j + 1] == tail[j - 1 + 1]);
                    assert(rest[j - 1] == bytes[j]);
                }
            }
            assert(path.last() == tail.last());
            assert(is_walk(a, path, s, bytes) && succeeds(a, path, bytes));
        }
    }
    if exists|path: Seq<u32>| #[trigger]
        is_walk(a, path, s, bytes) && succeeds(a, path, bytes) {
        let path = choose|path: Seq<u32>| #[trigger]
            is_walk(a, path, s, bytes) && succeeds(a, path, bytes);
        if path.len() == 1 {
            assert(path.last() == s);
        } else {
            assert(path[0] == s);
            assert(path[0int + 1] == a.next[(s, bytes[0])]);
            let t = a.next[(s, bytes[0])];
            let rest = bytes.drop_first();
            let tail = path.drop_first();
            assert forall|j: int|
                #![trigger tail[j]]
                0 <= j < tail.len() - 1 implies tail[j + 1] == a.next[(tail[j], rest[j])]
                && !a.matching.contains(tail[j]) && !a.dead.contains(tail[j]) by {
                assert(tail[j] == path[j + 1]);
                assert(tail[j + 1] == path[j + 1 + 1]);
            }
            assert(tail.last() == path.last());
            assert(is_walk(a, tail, t, rest) && succeeds(a, tail, rest));
            law_accepting_is_walking(a, t, rest);
        }
    }
}

/// Whether no byte, and no end of the input, leads out of a set of states.
pub open spec fn is_closed(a: Automaton, set: Set<u32>) -> bool {
    &&& forall|s: u32, b: u8| set.contains(s) ==> set.contains(#[trigger] a.next[(s, b)])
    &&& forall|s: u32| set.contains(s) ==> set.contains(#[trigger] a.eoi[s])
}

/// An automaton fits exactly if its start stands in a small set of states that
/// nothing leads out of and in which no state gives up.
pub proof fn law_fitting(a: Automaton, start: u32, limit: nat)
    ensures
        a.fits(start, limit) <==> exists|set: Set<u32>|
            {
                &&& set.contains(start)
                &&& #[trigger] is_closed(a, set)
                &&& set.finite()
                &&& set.len() <= limit
                &&& forall|s: u32| #[trigger] set.contains(s) ==> !a.quitting.contains(s)
            },
{
    let reached = a.reachable(start);
    lemma_reaches_self(a, start);
    lemma_reached_list_len(a, start, seq![start]);
    if a.fits(start, limit) {
        assert forall|s: u32, b: u8| reached.contains(s) implies reached.contains(
            #[trigger] a.next[(s, b)],
        ) by {
            lemma_reaches_step(a, start, s, a.next[(s, b)]);
        }
        assert forall|s: u32| reached.contains(s) implies reached.contains(#[trigger] a.eoi[s]) by {
            lemma_reaches_step(a, start, s, a.eoi[s]);
        }
        assert(is_closed(a, reached));
    }
    if exists|set: Set<u32>|
        {
            &&& set.contains(start)
            &&& #[trigger] is_closed(a, set)
            &&& set.finite()
            &&& set.len() <= limit
            &&& forall|s: u32| #[trigger] set.contains(s) ==> !a.quitting.contains(s)
        } {
        let set = choose|set: Set<u32>|
            {
                &&& set.contains(start)
                &&& #[trigger] is_closed(a, set)
                &&& set.finite()
                &&& set.len() <= limit
                &&& forall|s: u32| #[trigger] set.contains(s) ==> !a.quitting.contains(s)
            };
        assert forall|s: u32| reached.contains(s) implies set.contains(s) by {
            assert forall|u: u32, v: u32| set.contains(u) && #[trigger] a.steps(u, v) implies
                set.contains(v) by {}
            lemma_reached_within(a, start, s, set);
        }
        vstd::set_lib::lemma_len_subset(reached, set);
    }
}

/// The automaton of a compiled table has the transitions and the states that the
/// table has.
pub proof fn law_automaton_of_a_table(dfa: DFA<Vec<u32>>)
    ensures
        automaton_of(dfa).next == dfa_next(dfa),
        automaton_of(dfa).eoi == dfa_eoi(dfa),
        automaton_of(dfa).matching == dfa_match_states(dfa),
        automaton_of(dfa).dead == dfa_dead_states(dfa),
        automaton_of(dfa).quitting == dfa_quit_states(dfa),
{
}

} // verus!
