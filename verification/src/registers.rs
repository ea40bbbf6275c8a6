use vstd::prelude::*;

use crate::util::{size_name, Size};
use crate::value::{ValueCodegen, ValueCodegenView};

verus! {

/// The sixteen general-purpose registers of the target.
///
/// `AX` is the arithmetic/return scratch register, `BP`/`SP` the frame and
/// stack pointers; `DI, SI, DX, CX, R8, R9` carry the first six call
/// arguments, in that order.
#[derive(Debug, Clone, Copy, PartialEq, Eq, Structural)]
pub enum Register {
    AX,
    BX,
    CX,
    DX,
    SI,
    DI,
    SP,
    BP,
    R8,
    R9,
    R10,
    R11,
    R12,
    R13,
    R14,
    R15,
}

/// The 16-bit textual form of a register (`AX`, `R8W`, ...).
pub open spec fn reg_word(r: Register) -> Seq<char> {
    match r {
        Register::AX => "AX"@,
        Register::BX => "BX"@,
        Register::CX => "CX"@,
        Register::DX => "DX"@,
        Register::SI => "SI"@,
        Register::DI => "DI"@,
        Register::SP => "SP"@,
        Register::BP => "BP"@,
        Register::R8 => "R8"@ + "W"@,
        Register::R9 => "R9"@ + "W"@,
        Register::R10 => "R10"@ + "W"@,
        Register::R11 => "R11"@ + "W"@,
        Register::R12 => "R12"@ + "W"@,
        Register::R13 => "R13"@ + "W"@,
        Register::R14 => "R14"@ + "W"@,
        Register::R15 => "R15"@ + "W"@,
    }
}

/// The 32-bit textual form of a register (`EAX`, `R8D`, ...).
pub open spec fn reg_dword(r: Register) -> Seq<char> {
    match r {
        Register::R8 => "R8D"@,
        Register::R9 => "R9D"@,
        Register::R10 => "R10D"@,
        Register::R11 => "R11D"@,
        Register::R12 => "R12D"@,
        Register::R13 => "R13D"@,
        Register::R14 => "R14D"@,
        Register::R15 => "R15D"@,
        _ => "E"@ + reg_word(r),
    }
}

/// The 64-bit textual form of a register (`RAX`, `R8`, ...).
pub open spec fn reg_qword(r: Register) -> Seq<char> {
    match r {
        Register::R8 => "R8"@,
        Register::R9 => "R9"@,
        Register::R10 => "R10"@,
        Register::R11 => "R11"@,
        Register::R12 => "R12"@,
        Register::R13 => "R13"@,
        Register::R14 => "R14"@,
        Register::R15 => "R15"@,
        _ => "R"@ + reg_word(r),
    }
}

/// The textual form of a register at a given width.
///
/// The `Byte` width has no form here; callers must not request it.
pub open spec fn reg_size(r: Register, s: Size) -> Seq<char> {
    match s {
        Size::Word => reg_word(r),
        Size::DoubleWord => reg_dword(r),
        Size::QuadWord => reg_qword(r),
        Size::Byte => Seq::<char>::empty(),
    }
}

/// The register operand token at a given width.
pub open spec fn reg_token(r: Register, s: Size) -> ValueCodegenView {
    ValueCodegenView::Register(reg_size(r, s))
}

/// The `QWORD [<r64>]` pointer operand token of a register.
pub open spec fn reg_ptr_token(r: Register) -> ValueCodegenView {
    ValueCodegenView::Pointer("QWORD ["@ + reg_qword(r) + "]"@)
}

/// The `<sizeword> [<r64>]` operand token that loads through a register.
pub open spec fn reg_deref_token(r: Register, s: Size) -> ValueCodegenView {
    ValueCodegenView::Pointer(size_name(s) + " ["@ + reg_qword(r) + "]"@)
}

impl Register {
    /// The `QWORD [<r64>]` pointer operand for this register.
    pub fn as_ptr(&self) -> (r: ValueCodegen)
        ensures
            r.deep_view() == reg_ptr_token(*self),
    {
        ValueCodegen::Pointer("QWORD [".to_owned().concat(self.as_qword().as_str()).concat("]"))
    }

    /// The `<sizeword> [<r64>]` operand that loads through this register.
    pub fn as_deref(&self, size: &Size) -> (r: ValueCodegen)
        ensures
            r.deep_view() == reg_deref_token(*self, *size),
    {
        ValueCodegen::Pointer(size.name().concat(" [").concat(self.as_qword().as_str()).concat("]"))
    }

    /// The register operand token at the given width.
    pub fn as_gen(&self, size: &Size) -> (r: ValueCodegen)
        requires
            *size != Size::Byte,
        ensures
            r.deep_view() == reg_token(*self, *size),
    {
        ValueCodegen::Register(self.as_size(size))
    }

    /// The 16-bit name of this register.
    pub fn as_word(&self) -> (r: String)
        ensures
            r@ == reg_word(*self),
    {
        match self {
            Register::AX => "AX".to_owned(),
            Register::BX => "BX".to_owned(),
            Register::CX => "CX".to_owned(),
            Register::DX => "DX".to_owned(),
            Register::SI => "SI".to_owned(),
            Register::DI => "DI".to_owned(),
            Register::SP => "SP".to_owned(),
            Register::BP => "BP".to_owned(),
            Register::R8 => "R8".to_owned().concat("W"),
            Register::R9 => "R9".to_owned().concat("W"),
            Register::R10 => "R10".to_owned().concat("W"),
            Register::R11 => "R11".to_owned().concat("W"),
            Register::R12 => "R12".to_owned().concat("W"),
            Register::R13 => "R13".to_owned().concat("W"),
            Register::R14 => "R14".to_owned().concat("W"),
            Register::R15 => "R15".to_owned().concat("W"),
        }
    }

    /// The 32-bit name of this register.
    pub fn as_dword(&self) -> (r: String)
        ensures
            r@ == reg_dword(*self),
    {
        match self {
            Register::R8 => "R8D".to_owned(),
            Register::R9 => "R9D".to_owned(),
            Register::R10 => "R10D".to_owned(),
            Register::R11 => "R11D".to_owned(),
            Register::R12 => "R12D".to_owned(),
            Register::R13 => "R13D".to_owned(),
            Register::R14 => "R14D".to_owned(),
            Register::R15 => "R15D".to_owned(),
            _ => "E".to_owned().concat(self.as_word().as_str()),
        }
    }

    /// The 64-bit name of this register.
    pub fn as_qword(&self) -> (r: String)
        ensures
            r@ == reg_qword(*self),
    {
        match self {
            Register::R8 => "R8".to_owned(),
            Register::R9 => "R9".to_owned(),
            Register::R10 => "R10".to_owned(),
            Register::R11 => "R11".to_owned(),
            Register::R12 => "R12".to_owned(),
            Register::R13 => "R13".to_owned(),
            Register::R14 => "R14".to_owned(),
            Register::R15 => "R15".to_owned(),
            Register::AX => "R".to_owned().concat("AX"),
            Register::BX => "R".to_owned().concat("BX"),
            Register::CX => "R".to_owned().concat("CX"),
            Register::DX => "R".to_owned().concat("DX"),
            Register::SI => "R".to_owned().concat("SI"),
            Register::DI => "R".to_owned().concat("DI"),
            Register::SP => "R".to_owned().concat("SP"),
            Register::BP => "R".to_owned().concat("BP"),
        }
    }

    /// The name of this register at the given width.
    ///
    /// The `Byte` width is reserved and may not be requested.
    pub fn as_size(&self, size: &Size) -> (r: String)
        requires
            *size != Size::Byte,
        ensures
            r@ == reg_size(*self, *size),
    {
        match size {
            Size::Word => self.as_word(),
            Size::DoubleWord => self.as_dword(),
            Size::QuadWord => self.as_qword(),
            Size::Byte => String::new(),
        }
    }
}

} // verus!
