use vstd::prelude::*;

verus! {

/// One raw byte of a module's binary payload.
#[derive(Debug, Clone, Copy, PartialEq, Eq)]
pub struct Byte(pub u8);

impl View for Byte {
    type V = u8;

    open spec fn view(&self) -> u8 {
        self.0
    }
}

/// A UTF-8 name, as used by exports and imports.
#[derive(Debug, Clone, PartialEq)]
pub struct Name(pub String);

impl View for Name {
    type V = Seq<char>;

    open spec fn view(&self) -> Seq<char> {
        self.0@
    }
}

} // verus!
