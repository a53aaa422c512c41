//! Byte automata as mathematical objects: what one accepts, which of its
//! states can be reached, and when two of them accept the same strings.

use vstd::prelude::*;

verus! {

/// A deterministic automaton over bytes whose states are numbered by `u32`.
pub struct Automaton {
    /// The state entered from a state on a byte.
    pub next: Map<(u32, u8), u32>,
    /// The state entered from a state at the end of the input. Its domain is
    /// the set of states.
    pub eoi: Map<u32, u32>,
    /// The states in which a match has been found.
    pub matching: Set<u32>,
    /// The states from which no match can be found any more.
    pub dead: Set<u32>,
    /// The states in which the automaton gives up.
    pub quitting: Set<u32>,
}

impl Automaton {
    /// Every state has a successor on each byte and at the end of the input,
    /// and the successors are states.
    pub open spec fn closed_under_steps(self) -> bool {
        &&& forall|s: u32, b: u8|
            self.eoi.contains_key(s) ==> #[trigger] self.next.contains_key((s, b))
        &&& forall|s: u32, b: u8|
            self.eoi.contains_key(s) ==> self.eoi.contains_key(#[trigger] self.next[(s, b)])
        &&& forall|s: u32|
            self.eoi.contains_key(s) ==> self.eoi.contains_key(#[trigger] self.eoi[s])
    }

    /// Whether the search that stands in state `s` reports a match on the
    /// remaining `bytes`: it stops with success in a matching state, with
    /// failure in a dead one, and otherwise looks at the state that the end of
    /// the input leads to.
    pub open spec fn accepts(self, s: u32, bytes: Seq<u8>) -> bool
        decreases bytes.len(),
    {
        if self.matching.contains(s) {
            true
        } else if self.dead.contains(s) {
            false
        } else if bytes.len() == 0 {
            self.matching.contains(self.eoi[s])
        } else {
            self.accepts(self.next[(s, bytes[0])], bytes.drop_first())
        }
    }

    /// The state in which the search stands after `bytes`, where a matching or
    /// a dead state is never left.
    pub open spec fn run(self, s: u32, bytes: Seq<u8>) -> u32
        decreases bytes.len(),
    {
        if self.matching.contains(s) || self.dead.contains(s) || bytes.len() == 0 {
            s
        } else {
            self.run(self.next[(s, bytes[0])], bytes.drop_first())
        }
    }

    /// Whether one byte, or the end of the input, leads from `s` to `t`.
    pub open spec fn steps(self, s: u32, t: u32) -> bool {
        ||| self.eoi[s] == t
        ||| exists|b: u8| #[trigger] self.next[(s, b)] == t
    }

    /// Whether `path` is a sequence of steps from `start` to `s`.
    pub open spec fn is_path(self, path: Seq<u32>, start: u32, s: u32) -> bool {
        &&& path.len() > 0
        &&& path[0] == start
        &&& path.last() == s
        &&& forall|i: int|
            0 <= i < path.len() - 1 ==> self.steps(#[trigger] path[i], path[i + 1])
    }

    /// Whether some sequence of steps leads from `start` to `s`.
    pub open spec fn reaches(self, start: u32, s: u32) -> bool {
        exists|path: Seq<u32>| self.is_path(path, start, s)
    }

    /// The states that can be reached from `start`.
    pub open spec fn reachable(self, start: u32) -> Set<u32> {
        Set::new(|s: u32| self.reaches(start, s))
    }

    /// Whether the part of the automaton that can be reached from `start` has
    /// at most `limit` states, none of which gives up.
    pub open spec fn fits(self, start: u32, limit: nat) -> bool {
        &&& self.reachable(start).len() <= limit
        &&& self.reachable(start).disjoint(self.quitting)
    }
}

/// Whether `compact` is `full` restricted to the states `states`, each of them
/// renamed to its position in `states`.
pub open spec fn renames(compact: Automaton, full: Automaton, states: Seq<u32>) -> bool {
    &&& states.len() <= u32::MAX
    &&& forall|i: u32| (i < states.len()) == #[trigger] compact.eoi.contains_key(i)
    &&& forall|i: u32|
        i < states.len() ==> {
            let t = #[trigger] compact.eoi[i];
            t < states.len() && states[t as int] == full.eoi[states[i as int]]
        }
    &&& forall|i: u32, b: u8|
        i < states.len() ==> {
            let t = #[trigger] compact.next[(i, b)];
            t < states.len() && states[t as int] == full.next[(states[i as int], b)]
        }
    &&& forall|i: u32|
        i < states.len() ==> (#[trigger] compact.matching.contains(i) == full.matching.contains(
            states[i as int],
        ))
    &&& forall|i: u32|
        i < states.len() ==> (#[trigger] compact.dead.contains(i) == full.dead.contains(
            states[i as int],
        ))
}

/// A search through two pieces of input is a search through the second piece
/// from where the first one led.
pub proof fn lemma_accepts_concat(a: Automaton, s: u32, first: Seq<u8>, second: Seq<u8>)
    ensures
        a.accepts(s, first + second) == a.accepts(a.run(s, first), second),
    decreases first.len(),
{
    if first.len() == 0 {
        assert(first + second =~= second);
    } else if !a.matching.contains(s) && !a.dead.contains(s) {
        assert((first + second).drop_first() =~= first.drop_first() + second);
        lemma_accepts_concat(a, a.next[(s, first[0])], first.drop_first(), second);
    }
}

/// A run over one more byte is a run followed by one step, unless the run has
/// stopped.
pub proof fn lemma_run_push(a: Automaton, s: u32, bytes: Seq<u8>, b: u8)
    ensures
        a.run(s, bytes.push(b)) == ({
            let t = a.run(s, bytes);
            if a.matching.contains(t) || a.dead.contains(t) {
                t
            } else {
                a.next[(t, b)]
            }
        }),
    decreases bytes.len(),
{
    if bytes.len() == 0 {
        reveal_with_fuel(Automaton::run, 2);
        assert(bytes.push(b).drop_first() =~= bytes);
    } else if !a.matching.contains(s) && !a.dead.contains(s) {
        assert(bytes.push(b).drop_first() =~= bytes.drop_first().push(b));
        lemma_run_push(a, a.next[(s, bytes[0])], bytes.drop_first(), b);
    }
}

/// A run stays inside the states of a closed automaton.
pub proof fn lemma_run_stays(a: Automaton, s: u32, bytes: Seq<u8>)
    requires
        a.closed_under_steps(),
        a.eoi.contains_key(s),
    ensures
        a.eoi.contains_key(a.run(s, bytes)),
    decreases bytes.len(),
{
    if a.matching.contains(s) || a.dead.contains(s) || bytes.len() == 0 {
    } else {
        lemma_run_stays(a, a.next[(s, bytes[0])], bytes.drop_first());
    }
}

/// Renaming its states does not change what an automaton accepts.
pub proof fn lemma_renaming_accepts_the_same(
    compact: Automaton,
    full: Automaton,
    states: Seq<u32>,
    i: u32,
    bytes: Seq<u8>,
)
    requires
        renames(compact, full, states),
        i < states.len(),
    ensures
        compact.accepts(i, bytes) == full.accepts(states[i as int], bytes),
    decreases bytes.len(),
{
    if compact.matching.contains(i) || compact.dead.contains(i) {
    } else if bytes.len() == 0 {
        let t = compact.eoi[i];
        assert(compact.matching.contains(t) == full.matching.contains(states[t as int]));
    } else {
        let t = compact.next[(i, bytes[0])];
        lemma_renaming_accepts_the_same(compact, full, states, t, bytes.drop_first());
    }
}

/// A state reaches itself.
pub proof fn lemma_reaches_self(a: Automaton, start: u32)
    ensures
        a.reaches(start, start),
{
    assert(a.is_path(seq![start], start, start));
}

/// What a reached state steps to is reached.
pub proof fn lemma_reaches_step(a: Automaton, start: u32, s: u32, t: u32)
    requires
        a.reaches(start, s),
        a.steps(s, t),
    ensures
        a.reaches(start, t),
{
    let path = choose|path: Seq<u32>| a.is_path(path, start, s);
    let longer = path.push(t);
    assert forall|i: int| 0 <= i < longer.len() - 1 implies a.steps(
        #[trigger] longer[i],
        longer[i + 1],
    ) by {
        if i < path.len() - 1 {
            assert(longer[i] == path[i] && longer[i + 1] == path[i + 1]);
        }
    }
    assert(a.is_path(longer, start, t));
}

/// A set of states that holds `start` and everything that its members step to
/// holds every state that is reached.
pub proof fn lemma_reached_within(a: Automaton, start: u32, s: u32, set: Set<u32>)
    requires
        a.reaches(start, s),
        set.contains(start),
        forall|u: u32, v: u32| set.contains(u) && #[trigger] a.steps(u, v) ==> set.contains(v),
    ensures
        set.contains(s),
{
    let path = choose|path: Seq<u32>| a.is_path(path, start, s);
    lemma_path_within(a, path, path.len() - 1, set);
}

proof fn lemma_path_within(a: Automaton, path: Seq<u32>, i: int, set: Set<u32>)
    requires
        0 <= i < path.len(),
        set.contains(path[0]),
        forall|i: int| 0 <= i < path.len() - 1 ==> a.steps(#[trigger] path[i], path[i + 1]),
        forall|u: u32, v: u32| set.contains(u) && #[trigger] a.steps(u, v) ==> set.contains(v),
    ensures
        set.contains(path[i]),
    decreases i,
{
    if i > 0 {
        lemma_path_within(a, path, i - 1, set);
        assert(a.steps(path[i - 1], path[i - 1 + 1]));
    }
}

/// A list of distinct reached states is no longer than the set of them.
pub proof fn lemma_reached_list_len(a: Automaton, start: u32, list: Seq<u32>)
    requires
        list.no_duplicates(),
        forall|i: int| 0 <= i < list.len() ==> a.reaches(start, #[trigger] list[i]),
    ensures
        list.len() <= a.reachable(start).len(),
        a.reachable(start).finite(),
{
    broadcast use vstd::set_lib::full_set_properties;

    list.unique_seq_to_set();
    assert(list.to_set().subset_of(a.reachable(start)));
    assert(a.reachable(start).subset_of(Set::<u32>::full()));
    vstd::set_lib::lemma_len_subset(a.reachable(start), Set::<u32>::full());
    vstd::set_lib::lemma_len_subset(list.to_set(), a.reachable(start));
}

} // verus!
