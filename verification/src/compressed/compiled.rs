//! From a pattern to the tables of an automaton: the pattern is compiled to a
//! dense automaton, and the states that a search can reach are numbered in the
//! order in which they are found.

use std::collections::VecDeque;

use regex_automata::dfa::dense::DFA;
use regex_automata::dfa::Automaton as _;
use regex_automata::util::primitives::StateID;
use rustc_hash::FxBuildHasher;
use rustc_hash::FxHashMap;
use vstd::prelude::*;
use vstd::utf8::encode_utf8;

use crate::compressed::automaton::lemma_reached_list_len;
use crate::compressed::automaton::lemma_reached_within;
use crate::compressed::automaton::lemma_reaches_self;
use crate::compressed::automaton::lemma_reaches_step;
use crate::compressed::automaton::lemma_renaming_accepts_the_same;
use crate::compressed::automaton::renames;
use crate::compressed::automaton::Automaton;
use crate::compressed::regex_dfa::RegexFsstDfa;
use crate::compressed::symbol_dfa::ByteDfa;
use crate::execute::compile_result;
use crate::literal_shape::literal_shape;

verus! {

/// `regex_automata::dfa::dense::DFA`: a compiled transition table.
#[verifier::external_type_specification]
#[verifier::external_body]
#[verifier::reject_recursive_types(T)]
pub struct ExDenseDfa<T>(DFA<T>);

/// `rustc_hash::FxBuildHasher`: the hasher of `FxHashMap`.
#[verifier::external_type_specification]
#[verifier::external_body]
pub struct ExFxBuildHasher(FxBuildHasher);

/// `fsst::Symbol`: up to eight bytes, packed into a word.
#[verifier::external_type_specification]
#[verifier::external_body]
pub struct ExSymbol(fsst::Symbol);

/// What `dense::Builder::build` makes of a pattern: a table, or nothing if the
/// pattern is not supported.
pub uninterp spec fn pattern_dfa(pattern: Seq<char>, case_insensitive: bool) -> Option<
    DFA<Vec<u32>>,
>;

/// The state in which an unanchored search of the whole input starts, if the
/// table has one (`Automaton::start_state`).
pub uninterp spec fn dfa_start(dfa: DFA<Vec<u32>>) -> Option<u32>;

/// The byte transitions of a table (`Automaton::next_state`).
pub uninterp spec fn dfa_next(dfa: DFA<Vec<u32>>) -> Map<(u32, u8), u32>;

/// The transitions of a table at the end of the input
/// (`Automaton::next_eoi_state`). Their domain is the set of its states.
pub uninterp spec fn dfa_eoi(dfa: DFA<Vec<u32>>) -> Map<u32, u32>;

/// The match states of a table (`Automaton::is_match_state`).
pub uninterp spec fn dfa_match_states(dfa: DFA<Vec<u32>>) -> Set<u32>;

/// The dead states of a table (`Automaton::is_dead_state`).
pub uninterp spec fn dfa_dead_states(dfa: DFA<Vec<u32>>) -> Set<u32>;

/// The quit states of a table (`Automaton::is_quit_state`).
pub uninterp spec fn dfa_quit_states(dfa: DFA<Vec<u32>>) -> Set<u32>;

/// The word that holds the bytes of a symbol (`fsst::Symbol::to_u64`).
pub uninterp spec fn symbol_word(symbol: fsst::Symbol) -> u64;

/// The automaton that a compiled table describes.
pub open spec fn automaton_of(dfa: DFA<Vec<u32>>) -> Automaton {
    Automaton {
        next: dfa_next(dfa),
        eoi: dfa_eoi(dfa),
        matching: dfa_match_states(dfa),
        dead: dfa_dead_states(dfa),
        quitting: dfa_quit_states(dfa),
    }
}

/// Whether a table finds in every text what a literal pattern asks for, if the
/// pattern is literal and case matters.
pub open spec fn finds_its_literal(
    dfa: DFA<Vec<u32>>,
    pattern: Seq<char>,
    case_insensitive: bool,
) -> bool {
    !case_insensitive ==> (literal_shape(pattern) matches Some(shape) ==> (dfa_start(
        dfa,
    ) matches Some(start) ==> forall|text: Seq<char>|
        automaton_of(dfa).accepts(start, #[trigger] encode_utf8(text)) == shape.finds(text)))
}

/// Whether a pattern, by its bytes, has at `i` an assertion that can hold
/// between two bytes of one character: `\B`, or what begins as the half
/// boundaries `\b{start-half}` and `\b{end-half}` do. Any other assertion needs
/// an ASCII byte or an end of the text beside it.
pub open spec fn asserts_no_word_at(bytes: Seq<u8>, i: int) -> bool {
    &&& 0 <= i < bytes.len() - 1
    &&& bytes[i] == 0x5c
    &&& bytes[i + 1] == 0x42 || (bytes[i + 1] == 0x62 && i + 2 < bytes.len() && bytes[i + 2]
        == 0x7b)
}

/// Whether a pattern has an assertion that can hold between two bytes of one
/// character.
pub open spec fn can_split_characters(pattern: Seq<char>) -> bool {
    exists|i: int| asserts_no_word_at(encode_utf8(pattern), i)
}

/// Whether a table finds a match in all texts of the pattern's language, and in
/// no others unless the pattern has an assertion that can hold between two
/// bytes of one character.
pub open spec fn finds_its_language(
    dfa: DFA<Vec<u32>>,
    pattern: Seq<char>,
    case_insensitive: bool,
) -> bool {
    compile_result(pattern, case_insensitive) matches Ok(language) ==> (dfa_start(
        dfa,
    ) matches Some(start) ==> forall|text: Seq<char>|
        {
            let found = automaton_of(dfa).accepts(start, #[trigger] encode_utf8(text));
            &&& language.contains(text) ==> found
            &&& !can_split_characters(pattern) ==> found == language.contains(text)
        })
}

/// Calls `dense::Builder::build` with the given case sensitivity. Trusted:
///
/// - The outcome is a function of the pattern and the flag.
/// - Where a pattern with nothing but a literal between its anchors compiles, a
///   search with respect to case finds what its shape asks for.
/// - Where the pattern compiles for `regex::Regex` too, a search finds a match
///   in the texts that `regex::Regex::is_match` matches, and in no others: both
///   crates have the same parser with the same defaults and build on the same
///   byte automata. They differ in matches of nothing between two bytes of one
///   character, which `regex::Regex` passes over and a plain walk of the table
///   does not; for a pattern that can have those, only the first half is
///   claimed.
#[verifier::external_body]
fn build_dfa(pattern: &str, case_insensitive: bool) -> (dfa: Option<DFA<Vec<u32>>>)
    ensures
        dfa == pattern_dfa(pattern@, case_insensitive),
        dfa matches Some(table) ==> finds_its_literal(table, pattern@, case_insensitive),
        dfa matches Some(table) ==> finds_its_language(table, pattern@, case_insensitive),
{
    let syntax = regex_automata::util::syntax::Config::new().case_insensitive(case_insensitive);
    regex_automata::dfa::dense::Builder::new().syntax(syntax).build(pattern).ok()
}

/// Calls `Automaton::start_state` for an unanchored search. Trusted: the
/// outcome is a function of the table, and a start state is a state.
#[verifier::external_body]
fn start_state(dfa: &DFA<Vec<u32>>) -> (start: Option<u32>)
    ensures
        start == dfa_start(*dfa),
        start matches Some(s) ==> dfa_eoi(*dfa).contains_key(s),
{
    let config = regex_automata::util::start::Config::new().anchored(regex_automata::Anchored::No);
    dfa.start_state(&config).ok().map(|id| id.as_u32())
}

/// Calls `Automaton::next_state`. Trusted: on a state of the table, the outcome
/// is a function of the table, the state and the byte, and it is a state.
#[verifier::external_body]
fn next_state(dfa: &DFA<Vec<u32>>, state: u32, byte: u8) -> (next: u32)
    requires
        dfa_eoi(*dfa).contains_key(state),
    ensures
        next == dfa_next(*dfa)[(state, byte)],
        dfa_eoi(*dfa).contains_key(next),
{
    dfa.next_state(StateID::new_unchecked(state as usize), byte).as_u32()
}

/// Calls `Automaton::next_eoi_state`. Trusted: on a state of the table, the
/// outcome is a function of the table and the state, and it is a state.
#[verifier::external_body]
fn next_eoi_state(dfa: &DFA<Vec<u32>>, state: u32) -> (next: u32)
    requires
        dfa_eoi(*dfa).contains_key(state),
    ensures
        next == dfa_eoi(*dfa)[state],
        dfa_eoi(*dfa).contains_key(next),
{
    dfa.next_eoi_state(StateID::new_unchecked(state as usize)).as_u32()
}

/// Calls `Automaton::is_match_state`. Trusted: the outcome is a function of the
/// table and the state.
#[verifier::external_body]
fn is_match_state(dfa: &DFA<Vec<u32>>, state: u32) -> (b: bool)
    ensures
        b == dfa_match_states(*dfa).contains(state),
{
    dfa.is_match_state(StateID::new_unchecked(state as usize))
}

/// Calls `Automaton::is_dead_state`. Trusted: the outcome is a function of the
/// table and the state.
#[verifier::external_body]
fn is_dead_state(dfa: &DFA<Vec<u32>>, state: u32) -> (b: bool)
    ensures
        b == dfa_dead_states(*dfa).contains(state),
{
    dfa.is_dead_state(StateID::new_unchecked(state as usize))
}

/// Calls `Automaton::is_quit_state`. Trusted: the outcome is a function of the
/// table and the state.
#[verifier::external_body]
fn is_quit_state(dfa: &DFA<Vec<u32>>, state: u32) -> (b: bool)
    ensures
        b == dfa_quit_states(*dfa).contains(state),
{
    dfa.is_quit_state(StateID::new_unchecked(state as usize))
}

/// `FxHashMap::default`. Trusted: the map is empty.
#[verifier::external_body]
fn fx_new() -> (map: FxHashMap<u32, u32>)
    ensures
        map@.dom().is_empty(),
{
    FxHashMap::default()
}

/// `FxHashMap::insert`. Trusted: the key is bound to the value, and no other
/// key changes.
#[verifier::external_body]
fn fx_insert(map: &mut FxHashMap<u32, u32>, key: u32, value: u32)
    ensures
        final(map)@ == old(map)@.insert(key, value),
{
    map.insert(key, value);
}

/// `FxHashMap::get`. Trusted: the value that the key is bound to.
#[verifier::external_body]
fn fx_get(map: &FxHashMap<u32, u32>, key: u32) -> (value: Option<u32>)
    ensures
        value == (if map@.contains_key(key) {
            Some(map@[key])
        } else {
            None
        }),
{
    map.get(&key).copied()
}

/// `fsst::Symbol::to_u64`. Trusted: the outcome is a function of the symbol.
pub assume_specification[ fsst::Symbol::to_u64 ](symbol: fsst::Symbol) -> (word: u64)
    ensures
        word == symbol_word(symbol),
;

/// The states found so far, numbered in the order in which they were found,
/// and those of them whose successors have not been looked at.
pub struct StateList {
    numbers: FxHashMap<u32, u32>,
    states: Vec<u32>,
    queue: VecDeque<u32>,
}

impl StateList {
    /// The states in the order in which they were found.
    pub closed spec fn states(self) -> Seq<u32> {
        self.states@
    }

    /// The states that wait to be looked at.
    pub closed spec fn pending(self) -> Seq<u32> {
        self.queue@
    }

    /// Each state stands in the list once, at its number.
    pub closed spec fn wf(self) -> bool {
        &&& self.states@.len() <= RegexFsstDfa::MAX_STATES
        &&& forall|i: int|
            0 <= i < self.states@.len() ==> self.numbers@.contains_key(#[trigger] self.states@[i])
                && self.numbers@[self.states@[i]] == i
        &&& forall|s: u32| #[trigger]
            self.numbers@.contains_key(s) ==> self.numbers@[s] < self.states@.len()
                && self.states@[self.numbers@[s] as int] == s
    }

    /// An empty list.
    pub fn new() -> (list: Self)
        ensures
            list.wf(),
            list.states() == Seq::<u32>::empty(),
            list.pending() == Seq::<u32>::empty(),
    {
        StateList { numbers: fx_new(), states: Vec::new(), queue: VecDeque::new() }
    }

    /// Adds a state that is not yet in the list. Fails if the list is full.
    pub fn register(&mut self, id: u32) -> (r: Result<(), ()>)
        requires
            old(self).wf(),
        ensures
            final(self).wf(),
            old(self).states().contains(id) ==> {
                &&& r is Ok
                &&& final(self).states() == old(self).states()
                &&& final(self).pending() == old(self).pending()
            },
            !old(self).states().contains(id) && old(self).states().len()
                >= RegexFsstDfa::MAX_STATES ==> {
                &&& r is Err
                &&& final(self).states() == old(self).states()
                &&& final(self).pending() == old(self).pending()
            },
            !old(self).states().contains(id) && old(self).states().len()
                < RegexFsstDfa::MAX_STATES ==> {
                &&& r is Ok
                &&& final(self).states() == old(self).states().push(id)
                &&& final(self).pending() == old(self).pending().push(id)
            },
    {
        proof {
            if self.states@.contains(id) {
                let i = self.states@.index_of(id);
                assert(self.numbers@.contains_key(self.states@[i]));
            }
        }
        if fx_get(&self.numbers, id).is_some() {
            return Ok(());
        }
        if self.states.len() >= RegexFsstDfa::MAX_STATES {
            return Err(());
        }
        let number = self.states.len() as u32;
        fx_insert(&mut self.numbers, id, number);
        self.states.push(id);
        self.queue.push_back(id);
        Ok(())
    }
}


/// What the search for reachable states keeps true: everything found is
/// reached, and everything that the states looked at step to is found.
spec fn exploring(a: Automaton, start: u32, list: StateList, looked_at: nat) -> bool {
    let states = list.states();
    &&& list.wf()
    &&& states.len() > 0
    &&& states[0] == start
    &&& looked_at <= states.len()
    &&& list.pending() == states.skip(looked_at as int)
    &&& forall|i: int|
        0 <= i < states.len() ==> a.eoi.contains_key(#[trigger] states[i]) && a.reaches(
            start,
            states[i],
        )
    &&& forall|i: int, t: u32|
        0 <= i < looked_at && #[trigger] a.steps(states[i], t) ==> states.contains(t)
    &&& forall|i: int| 0 <= i < looked_at ==> !a.quitting.contains(#[trigger] states[i])
}

/// One more state is found.
proof fn lemma_register(
    a: Automaton,
    start: u32,
    before: StateList,
    after: StateList,
    from: u32,
    id: u32,
    looked_at: nat,
)
    requires
        exploring_head(a, start, before, looked_at),
        after.wf(),
        before.states()[looked_at as int] == from,
        a.steps(from, id),
        a.eoi.contains_key(id),
        before.states().contains(id) ==> after.states() == before.states() && after.pending()
            == before.pending(),
        !before.states().contains(id) ==> after.states() == before.states().push(id)
            && after.pending() == before.pending().push(id),
    ensures
        exploring_head(a, start, after, looked_at),
        after.states()[looked_at as int] == from,
        after.states().contains(id),
        forall|t: u32| before.states().contains(t) ==> after.states().contains(t),
{
    let old_states = before.states();
    let states = after.states();
    assert forall|t: u32| old_states.contains(t) implies states.contains(t) by {
        let i = old_states.index_of(t);
        assert(states[i] == t);
    }
    lemma_reaches_step(a, start, from, id);
    if !old_states.contains(id) {
        assert(states[old_states.len() as int] == id);
        assert(states.skip(looked_at as int + 1) =~= old_states.skip(looked_at as int + 1).push(id));
    }
}

/// As [`exploring`], while the successors of the state at `looked_at`, which
/// has left the queue, are being found.
spec fn exploring_head(a: Automaton, start: u32, list: StateList, looked_at: nat) -> bool {
    let states = list.states();
    &&& list.wf()
    &&& states.len() > 0
    &&& states[0] == start
    &&& looked_at < states.len()
    &&& list.pending() == states.skip(looked_at as int + 1)
    &&& forall|i: int|
        0 <= i < states.len() ==> a.eoi.contains_key(#[trigger] states[i]) && a.reaches(
            start,
            states[i],
        )
    &&& forall|i: int, t: u32|
        0 <= i < looked_at && #[trigger] a.steps(states[i], t) ==> states.contains(t)
    &&& forall|i: int| 0 <= i < looked_at ==> !a.quitting.contains(#[trigger] states[i])
}

/// A full list and one more state do not fit.
proof fn lemma_too_many(a: Automaton, start: u32, list: StateList, from: u32, id: u32)
    requires
        list.wf(),
        forall|i: int| 0 <= i < list.states().len() ==> a.reaches(start, #[trigger] list.states()[i]),
        a.reaches(start, from),
        a.steps(from, id),
        !list.states().contains(id),
        list.states().len() >= RegexFsstDfa::MAX_STATES,
    ensures
        !a.fits(start, RegexFsstDfa::MAX_STATES as nat),
{
    let more = list.states().push(id);
    lemma_reaches_step(a, start, from, id);
    assert forall|i: int, j: int| 0 <= i < more.len() && 0 <= j < more.len() && i != j implies more[i]
        != more[j] by {
        list.lemma_distinct();
        if i == list.states().len() {
            assert(list.states().contains(more[j]));
        } else if j == list.states().len() {
            assert(list.states().contains(more[i]));
        }
    }
    lemma_reached_list_len(a, start, more);
}

impl StateList {
    proof fn lemma_distinct(self)
        requires
            self.wf(),
        ensures
            self.states().no_duplicates(),
    {
    }
}

/// Finds the states that a search from `start` can reach, in breadth-first
/// order. Gives up if there are too many or if one of them is a quit state.
fn explore(dfa: &DFA<Vec<u32>>, start: u32) -> (found: Option<StateList>)
    requires
        dfa_eoi(*dfa).contains_key(start),
    ensures
        found is Some <==> automaton_of(*dfa).fits(start, RegexFsstDfa::MAX_STATES as nat),
        found matches Some(list) ==> exploring(
            automaton_of(*dfa),
            start,
            list,
            list.states().len(),
        ),
{
    let ghost a = automaton_of(*dfa);
    let mut list = StateList::new();
    let first = list.register(start);
    proof {
        lemma_reaches_self(a, start);
        assert(list.states().skip(0) =~= list.states());
    }
    let ghost mut looked_at: nat = 0;
    loop
        invariant
            a == automaton_of(*dfa),
            exploring(a, start, list, looked_at),
        ensures
            exploring(a, start, list, list.states().len()),
        decreases RegexFsstDfa::MAX_STATES - looked_at,
    {
        let state = match list.queue.pop_front() {
            Some(state) => state,
            None => {
                break ;
            },
        };
        assert(state == list.states()[looked_at as int]);
        assert(list.pending() =~= list.states().skip(looked_at as int + 1));
        assert(exploring_head(a, start, list, looked_at));
        if is_quit_state(dfa, state) {
            assert(a.reachable(start).contains(state));
            return None;
        }
        let mut byte: usize = 0;
        while byte < 256
            invariant
                a == automaton_of(*dfa),
                byte <= 256,
                exploring_head(a, start, list, looked_at),
                list.states()[looked_at as int] == state,
                !a.quitting.contains(state),
                forall|b: u8| b < byte ==> list.states().contains(#[trigger] a.next[(state, b)]),
            decreases 256 - byte,
        {
            let next = next_state(dfa, state, byte as u8);
            let ghost before = list;
            assert(a.steps(state, next)) by {
                assert(a.next[(state, byte as u8)] == next);
            }
            if list.register(next).is_err() {
                proof {
                    lemma_too_many(a, start, before, state, next);
                }
                return None;
            }
            proof {
                lemma_register(a, start, before, list, state, next, looked_at);
            }
            byte = byte + 1;
        }
        let next_eoi = next_eoi_state(dfa, state);
        let ghost before = list;
        assert(a.steps(state, next_eoi));
        if list.register(next_eoi).is_err() {
            proof {
                lemma_too_many(a, start, before, state, next_eoi);
            }
            return None;
        }
        proof {
            lemma_register(a, start, before, list, state, next_eoi, looked_at);
            assert forall|i: int, t: u32|
                0 <= i < looked_at + 1 && #[trigger] a.steps(
                    list.states()[i],
                    t,
                ) implies list.states().contains(t) by {
                if i == looked_at {
                    if a.eoi[state] != t {
                        let b = choose|b: u8| #[trigger] a.next[(state, b)] == t;
                        assert(before.states().contains(a.next[(state, b)]));
                    }
                }
            }
            looked_at = looked_at + 1;
        }
    }
    proof {
        lemma_all_found(a, start, list);
    }
    Some(list)
}

/// Once every state found has been looked at, the list holds exactly the
/// reachable states.
proof fn lemma_all_found(a: Automaton, start: u32, list: StateList)
    requires
        exploring(a, start, list, list.states().len()),
    ensures
        a.reachable(start) == list.states().to_set(),
        a.fits(start, RegexFsstDfa::MAX_STATES as nat),
{
    let states = list.states();
    let set = states.to_set();
    assert(states[0] == start);
    assert forall|u: u32, v: u32| set.contains(u) && #[trigger] a.steps(u, v) implies set.contains(
        v,
    ) by {
        let i = states.index_of(u);
        assert(a.steps(states[i], v));
    }
    assert forall|s: u32| a.reachable(start).contains(s) implies set.contains(s) by {
        lemma_reached_within(a, start, s, set);
    }
    assert forall|s: u32| set.contains(s) implies a.reachable(start).contains(s) by {
        let i = states.index_of(s);
        assert(states[i] == s);
    }
    assert(a.reachable(start) =~= set);
    list.lemma_distinct();
    states.unique_seq_to_set();
    assert forall|s: u32| a.reachable(start).contains(s) implies !a.quitting.contains(s) by {
        let i = states.index_of(s);
        assert(states[i] == s);
    }
}

/// Writes down the transitions between the states of `list`, each of them by
/// its number.
fn tabulate(dfa: &DFA<Vec<u32>>, start: u32, list: &StateList) -> (table: ByteDfa)
    requires
        exploring(automaton_of(*dfa), start, *list, list.states().len()),
    ensures
        table.wf(),
        table.start == 0,
        table.n_states() == list.states().len(),
        renames(table.automaton(), automaton_of(*dfa), list.states()),
{
    let ghost a = automaton_of(*dfa);
    let ghost states = list.states();
    let n_states: usize = list.states.len();
    let mut byte_trans: Vec<u32> = Vec::new();
    let mut eoi_trans: Vec<u32> = Vec::new();
    let mut is_match: Vec<bool> = Vec::new();
    let mut is_dead: Vec<bool> = Vec::new();
    let mut compact: usize = 0;
    while compact < n_states
        invariant
            a == automaton_of(*dfa),
            states == list.states(),
            exploring(a, start, *list, states.len()),
            n_states == states.len(),
            compact <= n_states,
            byte_trans@.len() == compact * 256,
            eoi_trans@.len() == compact,
            is_match@.len() == compact,
            is_dead@.len() == compact,
            forall|i: int| 0 <= i < compact * 256 ==> #[trigger] byte_trans@[i] < n_states,
            forall|i: int, b: u8|
                0 <= i < compact ==> states[#[trigger] byte_trans@[i * 256 + b] as int] == a.next[(
                    states[i],
                    b,
                )],
            forall|i: int|
                0 <= i < compact ==> #[trigger] eoi_trans@[i] < n_states
                    && states[eoi_trans@[i] as int] == a.eoi[states[i]],
            forall|i: int|
                0 <= i < compact ==> #[trigger] is_match@[i] == a.matching.contains(states[i]),
            forall|i: int|
                0 <= i < compact ==> #[trigger] is_dead@[i] == a.dead.contains(states[i]),
        decreases n_states - compact,
    {
        let state = list.states[compact];
        assert(states[compact as int] == state);
        is_match.push(is_match_state(dfa, state));
        is_dead.push(is_dead_state(dfa, state));
        let mut byte: usize = 0;
        while byte < 256
            invariant
                a == automaton_of(*dfa),
                states == list.states(),
                exploring(a, start, *list, states.len()),
                n_states == states.len(),
                compact < n_states,
                states[compact as int] == state,
                byte <= 256,
                byte_trans@.len() == compact * 256 + byte,
                forall|i: int|
                    0 <= i < compact * 256 + byte ==> #[trigger] byte_trans@[i] < n_states,
                forall|i: int, b: u8|
                    0 <= i < compact || (i == compact && b < byte)
                        ==> states[#[trigger] byte_trans@[i * 256 + b] as int] == a.next[(
                        states[i],
                        b,
                    )],
            decreases 256 - byte,
        {
            let next = next_state(dfa, state, byte as u8);
            assert(a.steps(states[compact as int], next)) by {
                assert(a.next[(state, byte as u8)] == next);
            }
            let number = list.number(next);
            byte_trans.push(number);
            byte = byte + 1;
        }
        let next_eoi = next_eoi_state(dfa, state);
        assert(a.steps(states[compact as int], next_eoi));
        eoi_trans.push(list.number(next_eoi));
        compact = compact + 1;
    }
    let table = ByteDfa { byte_trans, eoi_trans, is_match, is_dead, start: 0 };
    proof {
        let c = table.automaton();
        assert forall|i: u32, b: u8| i < states.len() implies ({
            let t = #[trigger] c.next[(i, b)];
            t < states.len() && states[t as int] == a.next[(states[i as int], b)]
        }) by {
            assert(c.next.contains_key((i, b)));
            assert(c.next[(i, b)] == byte_trans@[i as int * 256 + b]);
        }
    }
    table
}

impl StateList {
    /// The number of a state of the list.
    fn number(&self, id: u32) -> (number: u32)
        requires
            self.wf(),
            self.states().contains(id),
        ensures
            number < self.states().len(),
            self.states()[number as int] == id,
    {
        proof {
            let i = self.states@.index_of(id);
            assert(self.numbers@.contains_key(self.states@[i]));
        }
        fx_get(&self.numbers, id).unwrap()
    }
}

/// The words of the symbols of a table.
pub open spec fn symbol_words(symbols: Seq<fsst::Symbol>) -> Seq<u64> {
    Seq::new(symbols.len(), |c: int| symbol_word(symbols[c]))
}

/// Reads the word of each symbol.
pub fn to_words(symbols: &[fsst::Symbol]) -> (words: Vec<u64>)
    ensures
        words@ == symbol_words(symbols@),
{
    let mut words: Vec<u64> = Vec::new();
    let mut c: usize = 0;
    while c < symbols.len()
        invariant
            c <= symbols@.len(),
            words@.len() == c,
            forall|i: int| 0 <= i < c ==> #[trigger] words@[i] == symbol_word(symbols@[i]),
        decreases symbols.len() - c,
    {
        words.push(symbols[c].to_u64());
        c = c + 1;
    }
    assert(words@ =~= symbol_words(symbols@));
    words
}

/// Whether a pattern can be searched for in compressed strings: it compiles to
/// a dense automaton with a start state, from which few enough states are
/// reached and no quit state.
pub open spec fn is_supported(pattern: Seq<char>, case_insensitive: bool) -> bool {
    &&& pattern_dfa(pattern, case_insensitive) matches Some(dfa)
    &&& dfa_start(dfa) matches Some(start)
    &&& automaton_of(dfa).fits(start, RegexFsstDfa::MAX_STATES as nat)
}

/// The table of the automaton that a pattern compiles to, if it is supported.
pub fn pattern_table(pattern: &str, case_insensitive: bool) -> (table: Option<ByteDfa>)
    ensures
        table is Some <==> is_supported(pattern@, case_insensitive),
        table matches Some(t) ==> {
            let dfa = pattern_dfa(pattern@, case_insensitive)->0;
            &&& t.wf()
            &&& t.n_states() <= RegexFsstDfa::MAX_STATES
            &&& forall|bytes: Seq<u8>| #[trigger]
                t.accepts(bytes) == automaton_of(dfa).accepts(dfa_start(dfa)->0, bytes)
            &&& finds_its_literal(dfa, pattern@, case_insensitive)
            &&& finds_its_language(dfa, pattern@, case_insensitive)
        },
{
    let dfa = match build_dfa(pattern, case_insensitive) {
        Some(dfa) => dfa,
        None => return None,
    };
    let start = match start_state(&dfa) {
        Some(start) => start,
        None => return None,
    };
    let list = match explore(&dfa, start) {
        Some(list) => list,
        None => return None,
    };
    let table = tabulate(&dfa, start, &list);
    let ghost full = automaton_of(dfa);
    proof {
        assert forall|bytes: Seq<u8>| #[trigger] table.accepts(bytes) == full.accepts(
            start,
            bytes,
        ) by {
            lemma_renaming_accepts_the_same(table.automaton(), full, list.states(), 0, bytes);
        }
    }
    Some(table)
}

} // verus!
