//! Patterns that are nothing but a literal between optional anchors.

use vstd::prelude::*;
use vstd::string::*;
use vstd::utf8::encode_utf8;

use crate::utf8::lemma_ascii_bytes;
use crate::utf8::lemma_encode_injective;
use crate::utf8::lemma_first_byte;
use crate::utf8::lemma_last_byte;

verus! {

/// The characters that have a meaning of their own in a pattern.
pub open spec fn is_metacharacter(c: char) -> bool {
    ||| c == '.'
    ||| c == '*'
    ||| c == '+'
    ||| c == '?'
    ||| c == '('
    ||| c == ')'
    ||| c == '['
    ||| c == ']'
    ||| c == '{'
    ||| c == '}'
    ||| c == '|'
    ||| c == '\\'
    ||| c == '^'
    ||| c == '$'
}

/// Whether no character of `body` has a meaning of its own.
pub open spec fn is_literal_text(body: Seq<char>) -> bool {
    forall|i: int| 0 <= i < body.len() ==> !is_metacharacter(#[trigger] body[i])
}

/// Whether `part` stands in `text` at position `at`.
pub open spec fn stands_at(text: Seq<char>, part: Seq<char>, at: int) -> bool {
    0 <= at <= text.len() - part.len() && text.subrange(at, at + part.len()) == part
}

/// What a literal pattern asks for.
pub enum LiteralShape {
    /// The text is the literal.
    Exact(Seq<char>),
    /// The text begins with the literal.
    Prefix(Seq<char>),
    /// The text ends with the literal.
    Suffix(Seq<char>),
    /// The text contains the literal.
    Contains(Seq<char>),
}

impl LiteralShape {
    /// The literal.
    pub open spec fn literal(self) -> Seq<char> {
        match self {
            LiteralShape::Exact(s) => s,
            LiteralShape::Prefix(s) => s,
            LiteralShape::Suffix(s) => s,
            LiteralShape::Contains(s) => s,
        }
    }

    /// The pattern that is written for this shape.
    pub open spec fn pattern(self) -> Seq<char> {
        match self {
            LiteralShape::Exact(s) => seq!['^'] + s + seq!['$'],
            LiteralShape::Prefix(s) => seq!['^'] + s,
            LiteralShape::Suffix(s) => s + seq!['$'],
            LiteralShape::Contains(s) => s,
        }
    }

    /// Whether `text` is what the pattern asks for.
    pub open spec fn finds(self, text: Seq<char>) -> bool {
        match self {
            LiteralShape::Exact(s) => text == s,
            LiteralShape::Prefix(s) => s.is_prefix_of(text),
            LiteralShape::Suffix(s) => s.is_suffix_of(text),
            LiteralShape::Contains(s) => exists|at: int| stands_at(text, s, at),
        }
    }
}

/// The shape of a pattern, if what stands between its anchors is a literal.
pub open spec fn literal_shape(pattern: Seq<char>) -> Option<LiteralShape> {
    let start_anchor = pattern.len() > 0 && pattern[0] == '^';
    let after_start = if start_anchor {
        pattern.skip(1)
    } else {
        pattern
    };
    let end_anchor = after_start.len() > 0 && after_start.last() == '$';
    let body = if end_anchor {
        after_start.drop_last()
    } else {
        after_start
    };
    if !is_literal_text(body) {
        None
    } else if start_anchor && end_anchor {
        Some(LiteralShape::Exact(body))
    } else if start_anchor {
        Some(LiteralShape::Prefix(body))
    } else if end_anchor {
        Some(LiteralShape::Suffix(body))
    } else {
        Some(LiteralShape::Contains(body))
    }
}

/// Classification of a pattern that contains only literal characters (no
/// metacharacters or escapes) between an optional leading `^` and an optional
/// trailing `$`.
///
/// A pattern that uses escapes is rejected even where an escape makes the
/// character behind it literal.
#[derive(Debug, Clone, Copy, PartialEq, Eq)]
pub enum RegexLiteralShape<'a> {
    /// `^literal$`: match the input exactly.
    Exact(&'a str),
    /// `^literal`: match strings that start with `literal`.
    Prefix(&'a str),
    /// `literal$`: match strings that end with `literal`.
    Suffix(&'a str),
    /// `literal` (no anchors): match strings that contain `literal`.
    Contains(&'a str),
}

impl<'a> View for RegexLiteralShape<'a> {
    type V = LiteralShape;

    open spec fn view(&self) -> LiteralShape {
        match self {
            RegexLiteralShape::Exact(s) => LiteralShape::Exact(s@),
            RegexLiteralShape::Prefix(s) => LiteralShape::Prefix(s@),
            RegexLiteralShape::Suffix(s) => LiteralShape::Suffix(s@),
            RegexLiteralShape::Contains(s) => LiteralShape::Contains(s@),
        }
    }
}

impl<'a> RegexLiteralShape<'a> {
    /// Attempts to classify `pattern` as one of the literal shapes.
    ///
    /// Returns `None` if the pattern has a metacharacter or a backslash between
    /// its anchors.
    pub fn analyze(pattern: &'a str) -> (shape: Option<Self>)
        ensures
            shape is Some <==> literal_shape(pattern@) is Some,
            shape matches Some(found) ==> literal_shape(pattern@) == Some(found@),
    {
        proof {
            lemma_first_byte(pattern@, '^');
        }
        let bytes = pattern.as_bytes();
        let start_anchor = bytes.len() > 0 && bytes[0] == 0x5e;
        let after_start = if start_anchor {
            let (_, rest) = pattern.split_at(1);
            proof {
                lemma_encode_injective(rest@, pattern@.skip(1));
            }
            rest
        } else {
            pattern
        };
        proof {
            lemma_last_byte(after_start@, '$');
        }
        let after_bytes = after_start.as_bytes();
        let end_anchor = after_bytes.len() > 0 && after_bytes[after_bytes.len() - 1] == 0x24;
        let body = if end_anchor {
            let (rest, _) = after_start.split_at(after_bytes.len() - 1);
            proof {
                lemma_encode_injective(rest@, after_start@.drop_last());
            }
            rest
        } else {
            after_start
        };
        proof {
            lemma_literal_bytes(body@);
        }
        if !is_literal_body(body.as_bytes()) {
            return None;
        }
        Some(
            if start_anchor {
                if end_anchor {
                    RegexLiteralShape::Exact(body)
                } else {
                    RegexLiteralShape::Prefix(body)
                }
            } else {
                if end_anchor {
                    RegexLiteralShape::Suffix(body)
                } else {
                    RegexLiteralShape::Contains(body)
                }
            },
        )
    }

    /// The literal that the pattern is built around.
    pub fn literal(&self) -> (literal: &'a str)
        ensures
            literal@ == self@.literal(),
    {
        match self {
            RegexLiteralShape::Exact(s) => s,
            RegexLiteralShape::Prefix(s) => s,
            RegexLiteralShape::Suffix(s) => s,
            RegexLiteralShape::Contains(s) => s,
        }
    }
}

/// Whether a byte is a metacharacter.
pub open spec fn is_metacharacter_byte(b: u8) -> bool {
    b < 0x80 && is_metacharacter(b as char)
}

/// Returns true iff every byte in `body` is a literal character of a pattern.
///
/// Bytes outside ASCII are literals: they are no metacharacters, and there is
/// no other way to give them a meaning than by an escape.
pub fn is_literal_body(body: &[u8]) -> (b: bool)
    ensures
        b == (forall|i: int|
            0 <= i < body@.len() ==> !is_metacharacter_byte(#[trigger] body@[i])),
{
    let mut i: usize = 0;
    while i < body.len()
        invariant
            i <= body@.len(),
            forall|j: int| 0 <= j < i ==> !is_metacharacter_byte(#[trigger] body@[j]),
        decreases body.len() - i,
    {
        let b = body[i];
        // . * + ? ( ) [ ] { } | \ ^ $
        let meta = match b {
            0x2e | 0x2a | 0x2b | 0x3f | 0x28 | 0x29 | 0x5b | 0x5d | 0x7b | 0x7d | 0x7c | 0x5c
            | 0x5e | 0x24 => true,
            _ => false,
        };
        assert(meta == is_metacharacter_byte(body@[i as int]));
        if meta {
            return false;
        }
        i = i + 1;
    }
    true
}

/// A text is literal exactly if its bytes are.
proof fn lemma_literal_bytes(text: Seq<char>)
    ensures
        is_literal_text(text) <==> (forall|i: int|
            0 <= i < encode_utf8(text).len() ==> !is_metacharacter_byte(
                #[trigger] encode_utf8(text)[i],
            )),
{
    let bytes = encode_utf8(text);
    if is_literal_text(text) {
        assert forall|i: int| 0 <= i < bytes.len() implies !is_metacharacter_byte(
            #[trigger] bytes[i],
        ) by {
            if is_metacharacter_byte(bytes[i]) {
                let c = bytes[i] as char;
                lemma_ascii_bytes(text, c);
                assert(bytes.contains(c as u8));
                let j = text.index_of(c);
                assert(is_metacharacter(text[j]));
            }
        }
    }
    if forall|i: int| 0 <= i < bytes.len() ==> !is_metacharacter_byte(#[trigger] bytes[i]) {
        assert forall|j: int| 0 <= j < text.len() implies !is_metacharacter(
            #[trigger] text[j],
        ) by {
            if is_metacharacter(text[j]) {
                let c = text[j];
                assert(text.contains(c));
                lemma_ascii_bytes(text, c);
                let i = bytes.index_of(c as u8);
                assert(is_metacharacter_byte(bytes[i]));
            }
        }
    }
}

/// A pattern is its anchors around its literal.
pub proof fn law_pattern_is_anchors_around_literal(pattern: Seq<char>)
    ensures
        literal_shape(pattern) matches Some(shape) ==> shape.pattern() == pattern
            && is_literal_text(shape.literal()),
{
    if let Some(shape) = literal_shape(pattern) {
        assert(shape.pattern() =~= pattern);
    }
}

/// The pattern written for a shape whose literal has no metacharacter has that
/// shape.
pub proof fn law_written_pattern_keeps_its_shape(shape: LiteralShape)
    requires
        is_literal_text(shape.literal()),
    ensures
        literal_shape(shape.pattern()) == Some(shape),
{
    let pattern = shape.pattern();
    let body = shape.literal();
    match shape {
        LiteralShape::Exact(_) => {
            assert(pattern.skip(1) =~= body + seq!['$']);
            assert(pattern.skip(1).drop_last() =~= body);
        },
        LiteralShape::Prefix(_) => {
            assert(pattern.skip(1) =~= body);
            assert(body.len() > 0 ==> !is_metacharacter(body[body.len() - 1]));
        },
        LiteralShape::Suffix(_) => {
            assert(pattern.drop_last() =~= body);
            assert(body.len() > 0 ==> pattern[0] == body[0]);
            assert(body.len() > 0 ==> !is_metacharacter(body[0]));
        },
        LiteralShape::Contains(_) => {
            assert(body.len() > 0 ==> !is_metacharacter(body[0]));
            assert(body.len() > 0 ==> !is_metacharacter(body[body.len() - 1]));
        },
    }
}

} // verus!
