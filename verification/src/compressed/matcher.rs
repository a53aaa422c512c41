//! Searchers of compressed strings for a literal: at the start of the string,
//! or anywhere in it.

use vstd::prelude::*;

use crate::compressed::compiled::symbol_words;
use crate::compressed::compiled::to_words;
use crate::compressed::regex_dfa::RegexFsstDfa;
use crate::compressed::symbol_dfa::ByteDfa;
use crate::compressed::symbol_dfa::SymbolDfa;
use crate::compressed::symbols::decompress;
use crate::compressed::symbols::symbol_table;
use crate::compressed::symbols::valid_codes;
use crate::error::Error;

verus! {

/// Whether `bytes` begins with `prefix`.
pub open spec fn starts_with(bytes: Seq<u8>, prefix: Seq<u8>) -> bool {
    prefix.len() <= bytes.len() && bytes.take(prefix.len() as int) == prefix
}

/// Whether `needle` stands in `bytes` at position `at`.
pub open spec fn occurs_at(bytes: Seq<u8>, needle: Seq<u8>, at: int) -> bool {
    &&& 0 <= at
    &&& at + needle.len() <= bytes.len()
    &&& bytes.subrange(at, at + needle.len()) == needle
}

/// Whether `needle` stands somewhere in `bytes`.
pub open spec fn contains_bytes(bytes: Seq<u8>, needle: Seq<u8>) -> bool {
    exists|at: int| occurs_at(bytes, needle, at)
}

/// Whether the first `k` bytes of `needle` are the last `k` bytes of `text`.
spec fn is_border(needle: Seq<u8>, text: Seq<u8>, k: int) -> bool {
    &&& 0 <= k <= needle.len()
    &&& k <= text.len()
    &&& needle.take(k) == text.skip(text.len() - k)
}

/// The largest `k` up to `bound` that is a border.
spec fn longest_border(needle: Seq<u8>, text: Seq<u8>, bound: int) -> int
    decreases bound,
{
    if bound <= 0 {
        0
    } else if is_border(needle, text, bound) {
        bound
    } else {
        longest_border(needle, text, bound - 1)
    }
}

/// How much of `needle` stands at the end of `text`.
spec fn progress(needle: Seq<u8>, text: Seq<u8>) -> int {
    longest_border(needle, text, needle.len() as int)
}

proof fn lemma_longest_border(needle: Seq<u8>, text: Seq<u8>, bound: int)
    requires
        0 <= bound <= needle.len(),
    ensures
        is_border(needle, text, longest_border(needle, text, bound)),
        0 <= longest_border(needle, text, bound) <= bound,
        forall|k: int|
            k <= bound && #[trigger] is_border(needle, text, k) ==> k <= longest_border(
                needle,
                text,
                bound,
            ),
    decreases bound,
{
    if bound <= 0 {
        assert(needle.take(0) =~= text.skip(text.len() as int));
    } else if is_border(needle, text, bound) {
    } else {
        lemma_longest_border(needle, text, bound - 1);
    }
}

/// Two texts with the same borders leave the same progress.
proof fn lemma_same_borders(needle: Seq<u8>, text: Seq<u8>, other: Seq<u8>)
    requires
        forall|k: int| #[trigger] is_border(needle, text, k) == is_border(needle, other, k),
    ensures
        progress(needle, text) == progress(needle, other),
{
    lemma_longest_border(needle, text, needle.len() as int);
    lemma_longest_border(needle, other, needle.len() as int);
    let p = progress(needle, text);
    let q = progress(needle, other);
    assert(is_border(needle, text, p));
    assert(is_border(needle, other, p));
    assert(is_border(needle, text, q));
}

/// A border of a text with one more byte is a shorter border and that byte.
proof fn lemma_border_push(needle: Seq<u8>, text: Seq<u8>, b: u8, k: int)
    requires
        1 <= k,
    ensures
        is_border(needle, text.push(b), k) <==> k <= needle.len() && is_border(needle, text, k - 1)
            && needle[k - 1] == b,
{
    let longer = text.push(b);
    if is_border(needle, longer, k) {
        assert(needle.take(k - 1) =~= text.skip(text.len() - (k - 1))) by {
            assert forall|i: int| 0 <= i < k - 1 implies needle[i] == text[text.len() - (k - 1)
                + i] by {
                assert(needle.take(k)[i] == longer.skip(longer.len() - k)[i]);
            }
        }
        assert(needle.take(k)[k - 1] == longer.skip(longer.len() - k)[k - 1]);
    }
    if k <= needle.len() && is_border(needle, text, k - 1) && needle[k - 1] == b {
        assert(needle.take(k) =~= longer.skip(longer.len() - k)) by {
            assert forall|i: int| 0 <= i < k implies needle[i] == longer[longer.len() - k + i] by {
                if i < k - 1 {
                    assert(needle.take(k - 1)[i] == text.skip(text.len() - (k - 1))[i]);
                }
            }
        }
    }
}

/// The borders of a text that are no longer than its progress are those of the
/// part of the needle that stands at its end.
proof fn lemma_border_of_progress(needle: Seq<u8>, text: Seq<u8>, k: int)
    requires
        k <= progress(needle, text),
    ensures
        is_border(needle, text, k) == is_border(
            needle,
            needle.take(progress(needle, text)),
            k,
        ),
{
    let q = progress(needle, text);
    lemma_longest_border(needle, text, needle.len() as int);
    let part = needle.take(q);
    assert(part == text.skip(text.len() - q));
    if 0 <= k {
        assert(part.skip(q - k) =~= text.skip(text.len() - k));
    }
}

/// What stands at the end of a text decides what stands there with one more
/// byte.
proof fn lemma_progress_push(needle: Seq<u8>, text: Seq<u8>, b: u8)
    ensures
        progress(needle, text.push(b)) == progress(
            needle,
            needle.take(progress(needle, text)).push(b),
        ),
{
    let q = progress(needle, text);
    let part = needle.take(q);
    lemma_longest_border(needle, text, needle.len() as int);
    assert forall|k: int| #[trigger]
        is_border(needle, text.push(b), k) == is_border(needle, part.push(b), k) by {
        if k <= 0 {
            assert(needle.take(0) =~= text.push(b).skip(text.push(b).len() as int));
            assert(needle.take(0) =~= part.push(b).skip(part.push(b).len() as int));
        } else {
            lemma_border_push(needle, text, b, k);
            lemma_border_push(needle, part, b, k);
            if k - 1 <= q {
                lemma_border_of_progress(needle, text, k - 1);
            }
        }
    }
    lemma_same_borders(needle, text.push(b), part.push(b));
}

/// The next byte of the needle makes one step of progress.
proof fn lemma_progress_hit(needle: Seq<u8>, q: int)
    requires
        0 <= q < needle.len(),
    ensures
        progress(needle, needle.take(q).push(needle[q])) == q + 1,
{
    let text = needle.take(q).push(needle[q]);
    assert(text =~= needle.take(q + 1));
    assert(text.skip(0) =~= text);
    assert(is_border(needle, text, q + 1));
    lemma_longest_border(needle, text, needle.len() as int);
}

/// Any other byte falls back to what stands at the end without the first byte.
proof fn lemma_progress_miss(needle: Seq<u8>, q: int, b: u8)
    requires
        0 <= q < needle.len(),
        b != needle[q],
    ensures
        q == 0 ==> progress(needle, needle.take(q).push(b)) == 0,
        q > 0 ==> progress(needle, needle.take(q).push(b)) == progress(
            needle,
            needle.take(progress(needle, needle.subrange(1, q))).push(b),
        ),
{
    let text = needle.take(q).push(b);
    lemma_longest_border(needle, text, needle.len() as int);
    assert(!is_border(needle, text, q + 1)) by {
        if is_border(needle, text, q + 1) {
            assert(needle.take(q + 1)[q] == text.skip(0)[q]);
        }
    }
    if q > 0 {
        let tail = needle.subrange(1, q).push(b);
        assert(tail =~= text.skip(1));
        assert forall|k: int| #[trigger]
            is_border(needle, text, k) == is_border(needle, tail, k) by {
            if 0 <= k <= q {
                assert(text.skip(text.len() - k) =~= tail.skip(tail.len() - k));
            }
        }
        lemma_same_borders(needle, text, tail);
        lemma_progress_push(needle, needle.subrange(1, q), b);
    }
}

/// The table of an automaton that compares the input with `prefix`: a state
/// counts the bytes that have agreed, and the last state is dead.
spec fn is_prefix_table(table: ByteDfa, prefix: Seq<u8>) -> bool {
    let n = prefix.len() as int;
    &&& table.wf()
    &&& table.start == 0
    &&& table.n_states() == n + 2
    &&& forall|s: int, b: u8|
        0 <= s < n + 2 ==> #[trigger] table.byte_trans@[s * 256 + b] == prefix_step(prefix, s, b)
    &&& forall|s: int|
        0 <= s < n + 2 ==> #[trigger] table.eoi_trans@[s] == (if s == n {
            s
        } else {
            n + 1
        })
    &&& forall|s: int| 0 <= s < n + 2 ==> #[trigger] table.is_match@[s] == (s == n)
    &&& forall|s: int| 0 <= s < n + 2 ==> #[trigger] table.is_dead@[s] == (s == n + 1)
}

/// The state entered from state `s` on byte `b` when comparing with `prefix`.
spec fn prefix_step(prefix: Seq<u8>, s: int, b: u8) -> int {
    let n = prefix.len() as int;
    if s == n {
        s
    } else if s < n && prefix[s] == b {
        s + 1
    } else {
        n + 1
    }
}

proof fn lemma_prefix_table(table: ByteDfa, prefix: Seq<u8>, s: u32, bytes: Seq<u8>)
    requires
        is_prefix_table(table, prefix),
        s <= prefix.len() + 1,
    ensures
        table.automaton().accepts(s, bytes) == (s <= prefix.len() && starts_with(
            bytes,
            prefix.skip(s as int),
        )),
    decreases bytes.len(),
{
    let a = table.automaton();
    let n = prefix.len() as int;
    let rest = prefix.skip(s as int);
    if s == n {
        assert(bytes.take(0) =~= rest);
    } else if s < n {
        if bytes.len() == 0 {
            assert(a.eoi.contains_key(s));
            assert(a.eoi[s] == n + 1);
        } else {
            let t = a.next[(s, bytes[0])];
            assert(a.next.contains_key((s, bytes[0])));
            assert(t == table.byte_trans@[s as int * 256 + bytes[0]]);
            lemma_prefix_table(table, prefix, t, bytes.drop_first());
            if prefix[s as int] == bytes[0] {
                let next = prefix.skip(s as int + 1);
                let tail = bytes.drop_first();
                assert(rest.len() == next.len() + 1);
                if starts_with(bytes, rest) {
                    assert(tail.take(next.len() as int) =~= next) by {
                        assert forall|i: int| 0 <= i < next.len() implies tail[i] == next[i] by {
                            assert(bytes.take(rest.len() as int)[i + 1] == rest[i + 1]);
                        }
                    }
                }
                if starts_with(tail, next) {
                    assert(bytes.take(rest.len() as int) =~= rest) by {
                        assert forall|i: int| 0 <= i < rest.len() implies bytes[i] == rest[i] by {
                            if i > 0 {
                                assert(tail.take(next.len() as int)[i - 1] == next[i - 1]);
                            }
                        }
                    }
                }
            } else {
                if starts_with(bytes, rest) {
                    assert(bytes.take(rest.len() as int)[0] == rest[0]);
                }
            }
        }
    }
}

/// The table of an automaton that looks for `needle`: a state is the progress
/// that the input has made, and full progress is never lost.
spec fn is_needle_table(table: ByteDfa, needle: Seq<u8>) -> bool {
    let n = needle.len();
    &&& table.wf()
    &&& table.start == 0
    &&& table.n_states() == n + 1
    &&& forall|s: int, b: u8|
        0 <= s <= n ==> #[trigger] table.byte_trans@[s * 256 + b] == needle_step(needle, s, b)
    &&& forall|s: int| 0 <= s <= n ==> #[trigger] table.eoi_trans@[s] == s
    &&& forall|s: int| 0 <= s <= n ==> #[trigger] table.is_match@[s] == (s == n)
    &&& forall|s: int| 0 <= s <= n ==> #[trigger] table.is_dead@[s] == false
}

/// The state entered from state `s` on byte `b` when looking for `needle`.
spec fn needle_step(needle: Seq<u8>, s: int, b: u8) -> int {
    if s == needle.len() {
        s
    } else {
        progress(needle, needle.take(s).push(b))
    }
}

/// Whether `needle` ends in `bytes` at some position from `from` on.
spec fn ends_from(bytes: Seq<u8>, needle: Seq<u8>, from: int) -> bool {
    exists|end: int|
        from <= end <= bytes.len() && #[trigger] is_border(
            needle,
            bytes.take(end),
            needle.len() as int,
        )
}

proof fn lemma_needle_table(table: ByteDfa, needle: Seq<u8>, seen: Seq<u8>, rest: Seq<u8>)
    requires
        is_needle_table(table, needle),
    ensures
        table.automaton().accepts(progress(needle, seen) as u32, rest) == ends_from(
            seen + rest,
            needle,
            seen.len() as int,
        ),
    decreases rest.len(),
{
    let a = table.automaton();
    let n = needle.len() as int;
    let all = seen + rest;
    lemma_longest_border(needle, seen, n);
    let s = progress(needle, seen) as u32;
    assert(all.take(seen.len() as int) =~= seen);
    assert(is_border(needle, seen, n) == (s == n));
    if s == n {
        assert(is_border(needle, all.take(seen.len() as int), n));
    } else if rest.len() == 0 {
        assert(a.eoi.contains_key(s));
        if ends_from(all, needle, seen.len() as int) {
            let end = choose|end: int|
                seen.len() <= end <= all.len() && #[trigger] is_border(needle, all.take(end), n);
            assert(all.take(end) =~= seen);
        }
    } else {
        let b = rest[0];
        let more = seen.push(b);
        assert(a.next.contains_key((s, b)));
        assert(a.next[(s, b)] == table.byte_trans@[s as int * 256 + b]);
        lemma_progress_push(needle, seen, b);
        lemma_needle_table(table, needle, more, rest.drop_first());
        assert(more + rest.drop_first() =~= all);
        if ends_from(all, needle, seen.len() as int) {
            let end = choose|end: int|
                seen.len() <= end <= all.len() && #[trigger] is_border(needle, all.take(end), n);
            if end == seen.len() {
                assert(all.take(end) =~= seen);
            }
            assert(is_border(needle, all.take(end), n));
        }
        if ends_from(all, needle, more.len() as int) {
            let end = choose|end: int|
                more.len() <= end <= all.len() && #[trigger] is_border(needle, all.take(end), n);
            assert(is_border(needle, all.take(end), n));
        }
    }
}

/// To end somewhere is to stand somewhere.
proof fn lemma_ends_from_start(bytes: Seq<u8>, needle: Seq<u8>)
    ensures
        ends_from(bytes, needle, 0) == contains_bytes(bytes, needle),
{
    let n = needle.len() as int;
    if ends_from(bytes, needle, 0) {
        let end = choose|end: int|
            0 <= end <= bytes.len() && #[trigger] is_border(needle, bytes.take(end), n);
        assert(bytes.take(end).skip(end - n) =~= bytes.subrange(end - n, end));
        assert(needle.take(n) =~= needle);
        assert(occurs_at(bytes, needle, end - n));
    }
    if contains_bytes(bytes, needle) {
        let at = choose|at: int| occurs_at(bytes, needle, at);
        let end = at + n;
        assert(bytes.take(end).skip(at) =~= bytes.subrange(at, end));
        assert(needle.take(n) =~= needle);
        assert(is_border(needle, bytes.take(end), n));
    }
}

/// Builds the automaton that compares the input with `prefix`.
fn prefix_table(prefix: &[u8]) -> (table: ByteDfa)
    requires
        prefix@.len() <= FsstMatcher::MAX_PREFIX_LEN,
    ensures
        table.n_states() == prefix@.len() + 2,
        table.wf(),
        forall|bytes: Seq<u8>| #[trigger] table.accepts(bytes) == starts_with(bytes, prefix@),
{
    let n: usize = prefix.len();
    let mut byte_trans: Vec<u32> = Vec::new();
    let mut eoi_trans: Vec<u32> = Vec::new();
    let mut is_match: Vec<bool> = Vec::new();
    let mut is_dead: Vec<bool> = Vec::new();
    let mut s: usize = 0;
    while s < n + 2
        invariant
            n == prefix@.len(),
            n <= FsstMatcher::MAX_PREFIX_LEN,
            s <= n + 2,
            byte_trans@.len() == s * 256,
            eoi_trans@.len() == s,
            is_match@.len() == s,
            is_dead@.len() == s,
            forall|i: int| 0 <= i < s * 256 ==> #[trigger] byte_trans@[i] < n + 2,
            forall|i: int, b: u8|
                0 <= i < s ==> #[trigger] byte_trans@[i * 256 + b] == prefix_step(prefix@, i, b),
            forall|i: int|
                0 <= i < s ==> #[trigger] eoi_trans@[i] == (if i == n {
                    i
                } else {
                    n + 1
                }),
            forall|i: int| 0 <= i < s ==> #[trigger] is_match@[i] == (i == n),
            forall|i: int| 0 <= i < s ==> #[trigger] is_dead@[i] == (i == n + 1),
        decreases n + 2 - s,
    {
        let mut byte: usize = 0;
        while byte < 256
            invariant
                n == prefix@.len(),
                n <= FsstMatcher::MAX_PREFIX_LEN,
                s < n + 2,
                byte <= 256,
                byte_trans@.len() == s * 256 + byte,
                forall|i: int| 0 <= i < s * 256 + byte ==> #[trigger] byte_trans@[i] < n + 2,
                forall|i: int, b: u8|
                    0 <= i < s || (i == s && b < byte) ==> #[trigger] byte_trans@[i * 256 + b]
                        == prefix_step(prefix@, i, b),
            decreases 256 - byte,
        {
            let next: usize = if s == n {
                s
            } else if s < n && prefix[s] == byte as u8 {
                s + 1
            } else {
                n + 1
            };
            byte_trans.push(next as u32);
            byte = byte + 1;
        }
        eoi_trans.push(if s == n {
            s as u32
        } else {
            (n + 1) as u32
        });
        is_match.push(s == n);
        is_dead.push(s == n + 1);
        s = s + 1;
    }
    let table = ByteDfa { byte_trans, eoi_trans, is_match, is_dead, start: 0 };
    proof {
        assert(is_prefix_table(table, prefix@));
        assert forall|bytes: Seq<u8>| #[trigger] table.accepts(bytes) == starts_with(
            bytes,
            prefix@,
        ) by {
            lemma_prefix_table(table, prefix@, 0, bytes);
            assert(prefix@.skip(0) =~= prefix@);
        }
    }
    table
}

/// Builds the automaton that looks for `needle`.
fn needle_table(needle: &[u8]) -> (table: ByteDfa)
    requires
        needle@.len() <= FsstMatcher::MAX_NEEDLE_LEN,
    ensures
        table.n_states() == needle@.len() + 1,
        table.wf(),
        forall|bytes: Seq<u8>| #[trigger] table.accepts(bytes) == contains_bytes(bytes, needle@),
{
    let n: usize = needle.len();
    let mut byte_trans: Vec<u32> = Vec::new();
    let mut eoi_trans: Vec<u32> = Vec::new();
    let mut is_match: Vec<bool> = Vec::new();
    let mut is_dead: Vec<bool> = Vec::new();
    // The progress of the needle's own first `s` bytes without the first one.
    let mut restart: usize = 0;
    let mut s: usize = 0;
    while s <= n
        invariant
            n == needle@.len(),
            n <= FsstMatcher::MAX_NEEDLE_LEN,
            s <= n + 1,
            byte_trans@.len() == s * 256,
            eoi_trans@.len() == s,
            is_match@.len() == s,
            is_dead@.len() == s,
            0 < s <= n ==> restart == progress(needle@, needle@.subrange(1, s as int))
                && restart < s,
            s == 0 ==> restart == 0,
            forall|i: int| 0 <= i < s * 256 ==> #[trigger] byte_trans@[i] <= n,
            forall|i: int, b: u8|
                0 <= i < s ==> #[trigger] byte_trans@[i * 256 + b] == needle_step(needle@, i, b),
            forall|i: int| 0 <= i < s ==> #[trigger] eoi_trans@[i] == i,
            forall|i: int| 0 <= i < s ==> #[trigger] is_match@[i] == (i == n),
            forall|i: int| 0 <= i < s ==> #[trigger] is_dead@[i] == false,
        decreases n + 1 - s,
    {
        let mut byte: usize = 0;
        while byte < 256
            invariant
                n == needle@.len(),
                n <= FsstMatcher::MAX_NEEDLE_LEN,
                s <= n,
                byte <= 256,
                byte_trans@.len() == s * 256 + byte,
                0 < s <= n ==> restart == progress(needle@, needle@.subrange(1, s as int))
                    && restart < s,
                forall|i: int| 0 <= i < s * 256 + byte ==> #[trigger] byte_trans@[i] <= n,
                forall|i: int, b: u8|
                    0 <= i < s || (i == s && b < byte) ==> #[trigger] byte_trans@[i * 256 + b]
                        == needle_step(needle@, i, b),
            decreases 256 - byte,
        {
            let b = byte as u8;
            let next: u32 = if s == n {
                s as u32
            } else if needle[s] == b {
                proof {
                    lemma_progress_hit(needle@, s as int);
                }
                (s + 1) as u32
            } else if s == 0 {
                proof {
                    lemma_progress_miss(needle@, 0, b);
                }
                0
            } else {
                proof {
                    lemma_progress_miss(needle@, s as int, b);
                    assert(byte_trans@[restart as int * 256 + b] == needle_step(
                        needle@,
                        restart as int,
                        b,
                    ));
                }
                byte_trans[restart * 256 + byte]
            };
            byte_trans.push(next);
            byte = byte + 1;
        }
        eoi_trans.push(s as u32);
        is_match.push(s == n);
        is_dead.push(false);
        if s < n {
            if s == 0 {
                restart = 0;
                assert(needle@.subrange(1, 1) =~= Seq::empty());
                proof {
                    lemma_longest_border(needle@, Seq::empty(), n as int);
                }
            } else {
                proof {
                    let part = needle@.subrange(1, s as int);
                    assert(needle@.subrange(1, s as int + 1) =~= part.push(needle@[s as int]));
                    lemma_progress_push(needle@, part, needle@[s as int]);
                    lemma_longest_border(needle@, part.push(needle@[s as int]), n as int);
                    assert(byte_trans@[restart as int * 256 + needle@[s as int]] == needle_step(
                        needle@,
                        restart as int,
                        needle@[s as int],
                    ));
                }
                restart = byte_trans[restart * 256 + needle[s] as usize] as usize;
            }
        }
        s = s + 1;
    }
    let table = ByteDfa { byte_trans, eoi_trans, is_match, is_dead, start: 0 };
    proof {
        assert(is_needle_table(table, needle@));
        assert forall|bytes: Seq<u8>| #[trigger] table.accepts(bytes) == contains_bytes(
            bytes,
            needle@,
        ) by {
            let nothing = Seq::<u8>::empty();
            lemma_longest_border(needle@, nothing, n as int);
            lemma_needle_table(table, needle@, nothing, bytes);
            assert(nothing + bytes =~= bytes);
            lemma_ends_from_start(bytes, needle@);
        }
    }
    table
}

/// What a matcher looks for.
pub enum LiteralSearch {
    /// Strings that begin with the literal.
    Prefix(Seq<u8>),
    /// Strings that contain the literal.
    Contains(Seq<u8>),
}

impl LiteralSearch {
    /// Whether a string is one of those looked for.
    pub open spec fn finds(self, bytes: Seq<u8>) -> bool {
        match self {
            LiteralSearch::Prefix(prefix) => starts_with(bytes, prefix),
            LiteralSearch::Contains(needle) => contains_bytes(bytes, needle),
        }
    }
}

/// A searcher of compressed strings for a literal.
pub struct FsstMatcher {
    dfa: SymbolDfa,
}

impl FsstMatcher {
    /// The longest prefix that is looked for in compressed strings.
    pub const MAX_PREFIX_LEN: usize = 253;

    /// The longest needle that is looked for in compressed strings.
    pub const MAX_NEEDLE_LEN: usize = 254;

    /// The symbols that codes stand for.
    pub closed spec fn symbols(self) -> Seq<Seq<u8>> {
        self.dfa.symbols()
    }

    /// Whether the decompressed `bytes` are one of the strings looked for.
    pub closed spec fn accepts(self, bytes: Seq<u8>) -> bool {
        self.dfa.accepts(bytes)
    }

    /// A matcher for the strings that begin with `prefix`, or `None` if the
    /// prefix is too long.
    pub fn try_new_prefix_literal(
        symbols: &[fsst::Symbol],
        symbol_lengths: &[u8],
        prefix: &[u8],
    ) -> (r: Result<Option<Self>, Error>)
        requires
            symbols@.len() <= symbol_lengths@.len(),
            forall|c: int| 0 <= c < symbols@.len() ==> #[trigger] symbol_lengths@[c] <= 8,
            symbols@.len() * RegexFsstDfa::MAX_STATES <= usize::MAX,
        ensures
            r is Ok,
            r->Ok_0 is Some <==> prefix@.len() <= FsstMatcher::MAX_PREFIX_LEN,
            r->Ok_0 matches Some(matcher) ==> {
                &&& matcher.symbols() == symbol_table(symbol_words(symbols@), symbol_lengths@)
                &&& forall|bytes: Seq<u8>| #[trigger]
                    matcher.accepts(bytes) == starts_with(bytes, prefix@)
            },
    {
        if prefix.len() > FsstMatcher::MAX_PREFIX_LEN {
            return Ok(None);
        }
        let table = prefix_table(prefix);
        let words = to_words(symbols);
        assert(table.n_states() * words@.len() <= usize::MAX) by (nonlinear_arith)
            requires
                table.n_states() <= 512,
                words@.len() * 512 <= usize::MAX,
        ;
        Ok(Some(FsstMatcher { dfa: SymbolDfa::lift(table, &words, symbol_lengths) }))
    }

    /// A matcher for the strings that contain `needle`, or `None` if the needle
    /// is too long.
    pub fn try_new_contains_literal(
        symbols: &[fsst::Symbol],
        symbol_lengths: &[u8],
        needle: &[u8],
    ) -> (r: Result<Option<Self>, Error>)
        requires
            symbols@.len() <= symbol_lengths@.len(),
            forall|c: int| 0 <= c < symbols@.len() ==> #[trigger] symbol_lengths@[c] <= 8,
            symbols@.len() * RegexFsstDfa::MAX_STATES <= usize::MAX,
        ensures
            r is Ok,
            r->Ok_0 is Some <==> needle@.len() <= FsstMatcher::MAX_NEEDLE_LEN,
            r->Ok_0 matches Some(matcher) ==> {
                &&& matcher.symbols() == symbol_table(symbol_words(symbols@), symbol_lengths@)
                &&& forall|bytes: Seq<u8>| #[trigger]
                    matcher.accepts(bytes) == contains_bytes(bytes, needle@)
            },
    {
        if needle.len() > FsstMatcher::MAX_NEEDLE_LEN {
            return Ok(None);
        }
        let table = needle_table(needle);
        let words = to_words(symbols);
        assert(table.n_states() * words@.len() <= usize::MAX) by (nonlinear_arith)
            requires
                table.n_states() <= 512,
                words@.len() * 512 <= usize::MAX,
        ;
        Ok(Some(FsstMatcher { dfa: SymbolDfa::lift(table, &words, symbol_lengths) }))
    }

    /// Whether the decompressed string is one of those looked for.
    pub fn matches(&self, codes: &[u8]) -> (found: bool)
        requires
            valid_codes(self.symbols().len(), codes@),
        ensures
            found == self.accepts(decompress(self.symbols(), codes@)),
    {
        self.dfa.matches(codes)
    }
}

} // verus!
