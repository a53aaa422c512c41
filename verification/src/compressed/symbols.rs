//! FSST symbol tables and the code streams that refer to them.
//!
//! A compressed string is a sequence of codes. Each code stands for a symbol of
//! up to eight bytes, except [`ESCAPE_CODE`], which says that the byte behind
//! it stands for itself.

use vstd::prelude::*;

verus! {

/// The code that marks the byte behind it as a literal.
pub const ESCAPE_CODE: u8 = 255;

/// The bytes of one symbol: the low `len` bytes of `word`, lowest first.
pub open spec fn symbol_bytes(word: u64, len: nat) -> Seq<u8> {
    Seq::new(len, |j: int| ((word >> ((8 * j) as u64)) & 0xff) as u8)
}

/// The bytes of all symbols of a table.
pub open spec fn symbol_table(words: Seq<u64>, lengths: Seq<u8>) -> Seq<Seq<u8>> {
    Seq::new(words.len(), |c: int| symbol_bytes(words[c], lengths[c] as nat))
}

/// Whether each code of the stream stands for one of `n_symbols` symbols or
/// for an escape. A stream may end in an escape without a literal behind it.
pub open spec fn valid_codes(n_symbols: nat, codes: Seq<u8>) -> bool
    decreases codes.len(),
{
    if codes.len() == 0 {
        true
    } else if codes[0] == ESCAPE_CODE {
        codes.len() == 1 || valid_codes(n_symbols, codes.skip(2))
    } else {
        codes[0] < n_symbols && valid_codes(n_symbols, codes.skip(1))
    }
}

/// The bytes that a code stream stands for. An escape at the very end stands
/// for nothing.
pub open spec fn decompress(symbols: Seq<Seq<u8>>, codes: Seq<u8>) -> Seq<u8>
    decreases codes.len(),
{
    if codes.len() == 0 {
        Seq::empty()
    } else if codes[0] == ESCAPE_CODE {
        if codes.len() == 1 {
            Seq::empty()
        } else {
            seq![codes[1]] + decompress(symbols, codes.skip(2))
        }
    } else {
        symbols[codes[0] as int] + decompress(symbols, codes.skip(1))
    }
}

/// The bytes of a symbol, one more of them.
pub proof fn lemma_symbol_bytes_push(word: u64, j: nat)
    ensures
        symbol_bytes(word, j + 1) == symbol_bytes(word, j).push(
            ((word >> ((8 * j) as u64)) & 0xff) as u8,
        ),
{
    assert(symbol_bytes(word, j + 1) =~= symbol_bytes(word, j).push(
        ((word >> ((8 * j) as u64)) & 0xff) as u8,
    ));
}

/// Decompresses a code stream.
pub fn decompress_codes(words: &[u64], symbol_lengths: &[u8], codes: &[u8]) -> (bytes: Vec<u8>)
    requires
        words@.len() <= symbol_lengths@.len(),
        forall|c: int| 0 <= c < words@.len() ==> #[trigger] symbol_lengths@[c] <= 8,
        valid_codes(words@.len(), codes@),
    ensures
        bytes@ == decompress(symbol_table(words@, symbol_lengths@), codes@),
{
    let ghost symbols = symbol_table(words@, symbol_lengths@);
    let ghost whole = decompress(symbols, codes@);
    let mut bytes: Vec<u8> = Vec::new();
    let mut i: usize = 0;
    assert(codes@.skip(0) =~= codes@);
    assert(bytes@ + whole =~= whole);
    while i < codes.len()
        invariant
            words@.len() <= symbol_lengths@.len(),
            forall|c: int| 0 <= c < words@.len() ==> #[trigger] symbol_lengths@[c] <= 8,
            symbols == symbol_table(words@, symbol_lengths@),
            i <= codes@.len(),
            valid_codes(words@.len(), codes@.skip(i as int)),
            bytes@ + decompress(symbols, codes@.skip(i as int)) == whole,
        decreases codes.len() - i,
    {
        let ghost rest = codes@.skip(i as int);
        let ghost before = bytes@;
        let code = codes[i];
        assert(rest[0] == code);
        i = i + 1;
        if code == ESCAPE_CODE {
            if i < codes.len() {
                bytes.push(codes[i]);
                assert(rest[1] == codes@[i as int]);
                i = i + 1;
                assert(rest.skip(2) =~= codes@.skip(i as int));
                assert(bytes@ + decompress(symbols, rest.skip(2)) =~= before + (seq![rest[1]]
                    + decompress(symbols, rest.skip(2))));
            } else {
                assert(codes@.skip(i as int) =~= Seq::empty());
            }
        } else {
            let word = words[code as usize];
            let len: usize = symbol_lengths[code as usize] as usize;
            let mut j: usize = 0;
            assert(symbol_bytes(word, 0) =~= Seq::empty());
            assert(before + symbol_bytes(word, 0) =~= before);
            while j < len
                invariant
                    j <= len <= 8,
                    bytes@ == before + symbol_bytes(word, j as nat),
                decreases len - j,
            {
                proof {
                    lemma_symbol_bytes_push(word, j as nat);
                }
                bytes.push(#[verifier::truncate] (((word >> ((8 * j) as u64)) & 0xff) as u8));
                j = j + 1;
                assert(bytes@ =~= before + symbol_bytes(word, j as nat));
            }
            assert(rest.skip(1) =~= codes@.skip(i as int));
            assert(bytes@ == before + symbols[code as int]);
            assert(bytes@ + decompress(symbols, rest.skip(1)) =~= before + (symbols[code as int]
                + decompress(symbols, rest.skip(1))));
        }
    }
    assert(codes@.skip(i as int) =~= Seq::empty());
    assert(bytes@ =~= whole);
    bytes
}

} // verus!
