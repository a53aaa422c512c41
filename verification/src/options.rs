//! The options of a regular expression match.

use vstd::prelude::*;
use vstd::string::*;

verus! {

/// Options for the [`crate::scalar_fn::Regex`] scalar function.
#[derive(Debug, Clone, Copy, PartialEq, Eq, Hash, Structural)]
pub struct RegexOptions {
    /// If true, the result is inverted: matches give false, non-matches true.
    pub negated: bool,
    /// If true, the pattern is matched case-insensitively.
    pub case_insensitive: bool,
}

impl Default for RegexOptions {
    fn default() -> (options: Self)
        ensures
            options == (RegexOptions { negated: false, case_insensitive: false }),
    {
        RegexOptions { negated: false, case_insensitive: false }
    }
}

impl RegexOptions {
    /// How the options are shown.
    pub open spec fn display(self) -> Seq<char> {
        let name = if self.case_insensitive {
            "REGEXP_IMATCH"@
        } else {
            "REGEXP_MATCH"@
        };
        if self.negated {
            "NOT "@ + name
        } else {
            name
        }
    }

    /// The options as text.
    pub fn to_string(&self) -> (text: String)
        ensures
            text@ == self.display(),
    {
        let mut text = String::new();
        if self.negated {
            text.append("NOT ");
        }
        if self.case_insensitive {
            text.append("REGEXP_IMATCH");
        } else {
            text.append("REGEXP_MATCH");
        }
        assert(text@ =~= self.display());
        text
    }
}

} // verus!
