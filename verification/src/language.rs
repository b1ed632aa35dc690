//! The languages of the user interface and of the assembler's mnemonics.

use vstd::prelude::*;

verus! {

#[derive(Clone, Copy, Debug, PartialEq, Eq, Structural)]
pub enum Language {
    Pl,
    En,
}

impl Language {
    pub open spec fn spec_string_code(self) -> Seq<char> {
        match self {
            Language::Pl => seq!['p', 'l'],
            Language::En => seq!['e', 'n'],
        }
    }

    /// The two-letter code of the language.
    pub fn string_code(self) -> (code: &'static str)
        ensures
            code@ == self.spec_string_code(),
    {
        match self {
            Language::Pl => {
                proof {
                    reveal_strlit("pl");
                    assert("pl"@ =~= seq!['p', 'l']);
                }
                "pl"
            },
            Language::En => {
                proof {
                    reveal_strlit("en");
                    assert("en"@ =~= seq!['e', 'n']);
                }
                "en"
            },
        }
    }
}

} // verus!
