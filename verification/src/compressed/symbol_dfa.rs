//! Byte automata as transition tables, and the same automata lifted from bytes
//! to the symbols of a compressed string.

use vstd::prelude::*;

use crate::compressed::automaton::lemma_accepts_concat;
use crate::compressed::automaton::lemma_run_push;
use crate::compressed::automaton::lemma_run_stays;
use crate::compressed::automaton::Automaton;
use crate::compressed::symbols::decompress;
use crate::compressed::symbols::lemma_symbol_bytes_push;
use crate::compressed::symbols::symbol_bytes;
use crate::compressed::symbols::symbol_table;
use crate::compressed::symbols::valid_codes;
use crate::compressed::symbols::ESCAPE_CODE;

verus! {

/// A byte automaton with its states numbered from zero.
pub struct ByteDfa {
    /// `[state * 256 + byte] -> next state`
    pub byte_trans: Vec<u32>,
    /// `[state] -> next state` at the end of the input.
    pub eoi_trans: Vec<u32>,
    /// The states in which a match has been found.
    pub is_match: Vec<bool>,
    /// The states from which no match can be found any more.
    pub is_dead: Vec<bool>,
    /// The state in which a search begins.
    pub start: u32,
}

impl ByteDfa {
    /// The number of states.
    pub open spec fn n_states(self) -> nat {
        self.is_match@.len()
    }

    /// The tables have one entry for each state, and each entry is a state.
    pub open spec fn wf(self) -> bool {
        let n = self.n_states();
        &&& n <= u32::MAX
        &&& self.byte_trans@.len() == n * 256
        &&& self.eoi_trans@.len() == n
        &&& self.is_dead@.len() == n
        &&& self.start < n
        &&& forall|i: int| 0 <= i < n * 256 ==> #[trigger] self.byte_trans@[i] < n
        &&& forall|i: int| 0 <= i < n ==> #[trigger] self.eoi_trans@[i] < n
    }

    /// The automaton that the tables describe.
    pub open spec fn automaton(self) -> Automaton {
        Automaton {
            next: Map::new(
                |k: (u32, u8)| k.0 < self.n_states(),
                |k: (u32, u8)| self.byte_trans@[k.0 * 256 + k.1],
            ),
            eoi: Map::new(|s: u32| s < self.n_states(), |s: u32| self.eoi_trans@[s as int]),
            matching: Set::new(|s: u32| s < self.n_states() && self.is_match@[s as int]),
            dead: Set::new(|s: u32| s < self.n_states() && self.is_dead@[s as int]),
            quitting: Set::empty(),
        }
    }

    /// Whether the automaton finds a match in `bytes`.
    pub open spec fn accepts(self, bytes: Seq<u8>) -> bool {
        self.automaton().accepts(self.start, bytes)
    }

    /// The automaton of well-formed tables is closed.
    pub proof fn lemma_closed(self)
        requires
            self.wf(),
        ensures
            self.automaton().closed_under_steps(),
    {
        let a = self.automaton();
        assert forall|s: u32, b: u8| a.eoi.contains_key(s) implies a.eoi.contains_key(
            #[trigger] a.next[(s, b)],
        ) by {
            assert(a.next.contains_key((s, b)));
            assert(self.byte_trans@[s * 256 + b] < self.n_states());
        }
    }
}

proof fn lemma_cell(state: int, n_states: int, code: int, n_symbols: int)
    requires
        0 <= state < n_states,
        0 <= code < n_symbols,
    ensures
        0 <= state * n_symbols + code < n_states * n_symbols,
        (state + 1) * n_symbols == state * n_symbols + n_symbols,
{
    assert(0 <= state * n_symbols + code < n_states * n_symbols
        && (state + 1) * n_symbols == state * n_symbols + n_symbols) by (nonlinear_arith)
        requires
            0 <= state < n_states,
            0 <= code < n_symbols,
    ;
}

/// A byte automaton that is stepped with whole symbols, so that it searches a
/// compressed string without decompressing it.
pub struct SymbolDfa {
    table: ByteDfa,
    n_symbols: usize,
    /// `[state * n_symbols + code] -> next state`
    symbol_trans: Vec<u32>,
    symbols: Ghost<Seq<Seq<u8>>>,
}

impl SymbolDfa {
    /// Each cell of the symbol table holds the state in which a search stands
    /// behind the bytes of the symbol.
    #[verifier::type_invariant]
    pub closed spec fn wf(self) -> bool {
        &&& self.table.wf()
        &&& self.symbols@.len() == self.n_symbols
        &&& self.symbol_trans@.len() == self.table.n_states() * self.n_symbols
        &&& forall|state: u32, code: int|
            state < self.table.n_states() && 0 <= code < self.n_symbols
                ==> self.symbol_trans@[#[trigger] (state * self.n_symbols + code)]
                == self.table.automaton().run(state, self.symbols@[code])
    }

    /// The symbols that codes stand for.
    pub closed spec fn symbols(self) -> Seq<Seq<u8>> {
        self.symbols@
    }

    /// Whether a match is found in the decompressed `bytes`.
    pub closed spec fn accepts(self, bytes: Seq<u8>) -> bool {
        self.table.accepts(bytes)
    }

    /// Lifts a byte automaton to a symbol table.
    pub fn lift(table: ByteDfa, words: &[u64], symbol_lengths: &[u8]) -> (dfa: Self)
        requires
            table.wf(),
            words@.len() <= symbol_lengths@.len(),
            forall|c: int| 0 <= c < words@.len() ==> #[trigger] symbol_lengths@[c] <= 8,
            table.n_states() * words@.len() <= usize::MAX,
        ensures
            dfa.symbols() == symbol_table(words@, symbol_lengths@),
            forall|bytes: Seq<u8>| #[trigger] dfa.accepts(bytes) == table.accepts(bytes),
    {
        let n_states: usize = table.is_match.len();
        let n_symbols: usize = words.len();
        let ghost a = table.automaton();
        let ghost symbols = symbol_table(words@, symbol_lengths@);
        let mut symbol_trans: Vec<u32> = Vec::new();
        let mut state: usize = 0;
        proof {
            table.lemma_closed();
            assert(0 * n_symbols == 0);
        }
        while state < n_states
            invariant
                table.wf(),
                n_states == table.n_states(),
                n_symbols == words@.len(),
                n_symbols <= symbol_lengths@.len(),
                forall|c: int| 0 <= c < words@.len() ==> #[trigger] symbol_lengths@[c] <= 8,
                a == table.automaton(),
                a.closed_under_steps(),
                symbols == symbol_table(words@, symbol_lengths@),
                state <= n_states,
                symbol_trans@.len() == state * n_symbols,
                forall|s: u32, c: int|
                    s < state && 0 <= c < n_symbols ==> symbol_trans@[#[trigger] (s * n_symbols
                        + c)] == a.run(s, symbols[c]),
            decreases n_states - state,
        {
            let mut code: usize = 0;
            while code < n_symbols
                invariant
                    table.wf(),
                    n_states == table.n_states(),
                    n_symbols == words@.len(),
                    n_symbols <= symbol_lengths@.len(),
                    forall|c: int| 0 <= c < words@.len() ==> #[trigger] symbol_lengths@[c] <= 8,
                    a == table.automaton(),
                    a.closed_under_steps(),
                    symbols == symbol_table(words@, symbol_lengths@),
                    state < n_states,
                    code <= n_symbols,
                    symbol_trans@.len() == state * n_symbols + code,
                    forall|s: u32, c: int|
                        s < state && 0 <= c < n_symbols ==> symbol_trans@[#[trigger] (s * n_symbols
                            + c)] == a.run(s, symbols[c]),
                    forall|c: int|
                        0 <= c < code ==> symbol_trans@[#[trigger] (state * n_symbols + c)]
                            == a.run(state as u32, symbols[c]),
                decreases n_symbols - code,
            {
                let word = words[code];
                let len = symbol_lengths[code] as usize;
                let mut s: u32 = state as u32;
                let mut j: usize = 0;
                assert(symbol_bytes(word, 0) =~= Seq::empty());
                while j < len && !table.is_match[s as usize] && !table.is_dead[s as usize]
                    invariant
                        table.wf(),
                        a == table.automaton(),
                        a.closed_under_steps(),
                        state < table.n_states(),
                        len <= 8,
                        j <= len,
                        s < table.n_states(),
                        s == a.run(state as u32, symbol_bytes(word, j as nat)),
                    decreases len - j,
                {
                    let b = #[verifier::truncate] (((word >> ((8 * j) as u64)) & 0xff) as u8);
                    proof {
                        lemma_symbol_bytes_push(word, j as nat);
                        lemma_run_push(a, state as u32, symbol_bytes(word, j as nat), b);
                    }
                    assert(s * 256 + b < table.byte_trans.len());
                    s = table.byte_trans[s as usize * 256 + b as usize];
                    j = j + 1;
                }
                proof {
                    if j < len {
                        lemma_stopped_run(a, state as u32, word, j as nat, len as nat);
                    }
                    assert(symbols[code as int] == symbol_bytes(word, len as nat));
                    assert forall|s0: u32, c: int| s0 < state && 0 <= c < n_symbols implies #[trigger] (s0
                        * n_symbols + c) < symbol_trans@.len() by {
                        lemma_cell(s0 as int, state as int, c, n_symbols as int);
                    }
                }
                symbol_trans.push(s);
                code = code + 1;
            }
            proof {
                assert forall|s0: u32, c: int| s0 < state + 1 && 0 <= c < n_symbols implies symbol_trans@[#[trigger] (s0
                    * n_symbols + c)] == a.run(s0, symbols[c]) by {
                    if s0 == state {
                        assert(symbol_trans@[state * n_symbols + c] == a.run(
                            state as u32,
                            symbols[c],
                        ));
                    }
                }
                assert((state + 1) * n_symbols == state * n_symbols + n_symbols)
                    by (nonlinear_arith);
            }
            state = state + 1;
        }
        SymbolDfa { table, n_symbols, symbol_trans, symbols: Ghost(symbols) }
    }

    /// Evaluates the search on one code stream.
    ///
    /// Returns `true` if the decompressed bytes contain a match.
    pub fn matches(&self, codes: &[u8]) -> (found: bool)
        requires
            valid_codes(self.symbols().len(), codes@),
        ensures
            found == self.accepts(decompress(self.symbols(), codes@)),
    {
        proof {
            use_type_invariant(self);
            self.table.lemma_closed();
        }
        let ghost a = self.table.automaton();
        let ghost symbols = self.symbols@;
        let mut state: u32 = self.table.start;
        if self.table.is_match[state as usize] {
            return true;
        }
        if self.table.is_dead[state as usize] {
            return false;
        }
        let mut i: usize = 0;
        assert(codes@.skip(0) =~= codes@);
        while i < codes.len()
            invariant
                self.wf(),
                a == self.table.automaton(),
                a.closed_under_steps(),
                symbols == self.symbols@,
                i <= codes@.len(),
                state < self.table.n_states(),
                !self.table.is_match@[state as int],
                !self.table.is_dead@[state as int],
                valid_codes(symbols.len(), codes@.skip(i as int)),
                self.accepts(decompress(symbols, codes@)) == a.accepts(
                    state,
                    decompress(symbols, codes@.skip(i as int)),
                ),
            ensures
                i == codes@.len(),
            decreases codes.len() - i,
        {
            let code = codes[i];
            let ghost rest = codes@.skip(i as int);
            let ghost before = state;
            i = i + 1;
            if code == ESCAPE_CODE {
                if i >= codes.len() {
                    assert(decompress(symbols, rest) =~= Seq::empty());
                    assert(codes@.skip(i as int) =~= Seq::empty());
                    break ;
                }
                let lit = codes[i];
                i = i + 1;
                assert(state * 256 + lit < self.table.byte_trans.len());
                state = self.table.byte_trans[state as usize * 256 + lit as usize];
                proof {
                    assert(rest.skip(2) =~= codes@.skip(i as int));
                    reveal_with_fuel(Automaton::run, 2);
                    lemma_accepts_concat(
                        a,
                        before,
                        seq![lit],
                        decompress(symbols, rest.skip(2)),
                    );
                    assert(a.run(before, seq![lit]) == state);
                }
            } else {
                proof {
                    lemma_cell(
                        state as int,
                        self.table.n_states() as int,
                        code as int,
                        self.n_symbols as int,
                    );
                    let row = state * self.n_symbols;
                    assert(0 <= row) by (nonlinear_arith)
                        requires
                            row == state * self.n_symbols,
                    ;
                    assert(self.symbol_trans@[state * self.n_symbols + code as int] == a.run(
                        state,
                        symbols[code as int],
                    ));
                }
                assert(state * self.n_symbols + code < self.symbol_trans.len());
                state = self.symbol_trans[state as usize * self.n_symbols + code as usize];
                proof {
                    assert(rest.skip(1) =~= codes@.skip(i as int));
                    lemma_run_stays(a, before, symbols[code as int]);
                    lemma_accepts_concat(
                        a,
                        before,
                        symbols[code as int],
                        decompress(symbols, rest.skip(1)),
                    );
                }
            }
            if self.table.is_match[state as usize] {
                return true;
            }
            if self.table.is_dead[state as usize] {
                return false;
            }
        }
        let final_state = self.table.eoi_trans[state as usize];
        self.table.is_match[final_state as usize]
    }
}

/// A run that has stopped behind the first bytes of a symbol stands in the
/// same state behind all of them.
proof fn lemma_stopped_run(a: Automaton, s: u32, word: u64, j: nat, len: nat)
    requires
        j <= len,
        ({
            let t = a.run(s, symbol_bytes(word, j));
            a.matching.contains(t) || a.dead.contains(t)
        }),
    ensures
        a.run(s, symbol_bytes(word, len)) == a.run(s, symbol_bytes(word, j)),
    decreases len - j,
{
    if j < len {
        lemma_symbol_bytes_push(word, j);
        lemma_run_push(
            a,
            s,
            symbol_bytes(word, j),
            ((word >> ((8 * j) as u64)) & 0xff) as u8,
        );
        lemma_stopped_run(a, s, word, j + 1, len);
    }
}

} // verus!
