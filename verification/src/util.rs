use vstd::prelude::*;

verus! {

/// An operand width: the number of bytes a value occupies.
#[derive(Debug, Clone, Copy, PartialEq, Eq, Structural)]
pub enum Size {
    Byte,
    Word,
    DoubleWord,
    QuadWord,
}

/// The byte count of a width.
pub open spec fn size_bytes(s: Size) -> nat {
    match s {
        Size::Byte => 1,
        Size::Word => 2,
        Size::DoubleWord => 4,
        Size::QuadWord => 8,
    }
}

/// The assembler size word of a width (`BYTE`, `WORD`, `DWORD`, `QWORD`).
pub open spec fn size_name(s: Size) -> Seq<char> {
    match s {
        Size::Byte => "BYTE"@,
        Size::Word => "WORD"@,
        Size::DoubleWord => "DWORD"@,
        Size::QuadWord => "QWORD"@,
    }
}

impl Size {
    /// The assembler mnemonic for this width.
    pub fn name(&self) -> (r: String)
        ensures
            r@ == size_name(*self),
    {
        match self {
            Size::Byte => "BYTE",
            Size::Word => "WORD",
            Size::DoubleWord => "DWORD",
            Size::QuadWord => "QWORD",
        }.to_owned()
    }

    /// The number of bytes this width spans.
    pub fn get_bytes(&self) -> (r: u8)
        ensures
            r as nat == size_bytes(*self),
    {
        match self {
            Size::Byte => 1,
            Size::Word => 2,
            Size::DoubleWord => 4,
            Size::QuadWord => 8,
        }
    }
}

/// Character-wise equality of two string slices.
pub fn str_eq(a: &str, b: &str) -> (r: bool)
    ensures
        r == (a@ == b@),
{
    a.to_owned() == b.to_owned()
}

/// Relies on `String::push`: appends exactly the given character to the
/// end of the string.
#[verifier::external_body]
pub fn push_char(s: &mut String, c: char)
    ensures
        final(s)@ == old(s)@ + seq![c],
{
    s.push(c);
}

} // verus!
