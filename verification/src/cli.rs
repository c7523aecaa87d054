//! Request option types shared with the command-line front end.

use vstd::prelude::*;

verus! {

/// Character repertoire for the uniform random generator.
#[derive(Clone, Debug)]
pub enum CharSet {
    /// a-z, A-Z
    Alpha,
    /// a-z, A-Z, 0-9
    Alphanumeric,
    /// a-z, A-Z, 0-9, symbols
    AlphanumericSymbols,
    /// All printable ASCII
    All,
}

/// Word separator for passphrases.
#[derive(Clone, Debug)]
pub enum Separator {
    Dash,
    Space,
    Dot,
    Underscore,
    Empty,
}

impl Separator {
    pub fn as_str(&self) -> (r: &str)
        ensures
            r@ == match self {
                Separator::Dash => "-"@,
                Separator::Space => " "@,
                Separator::Dot => "."@,
                Separator::Underscore => "_"@,
                Separator::Empty => ""@,
            },
    {
        match self {
            Separator::Dash => "-",
            Separator::Space => " ",
            Separator::Dot => ".",
            Separator::Underscore => "_",
            Separator::Empty => "",
        }
    }
}

} // verus!
