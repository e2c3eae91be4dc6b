//! The element types a matrix can hold, with their sizes and wire codes.

use vstd::prelude::*;
use crate::text::{append_decimal, decimal};

verus! {

/// The type of one matrix cell.
#[derive(Clone, Copy, Debug, PartialEq, Eq, Structural)]
pub enum MatrixType {
    U8,
    U16,
    U32,
    U64,
    I8,
    I16,
    I32,
    I64,
    F32,
    F64,
}

impl MatrixType {
    /// Bytes per cell.
    pub open spec fn size(self) -> nat {
        match self {
            MatrixType::U8 | MatrixType::I8 => 1,
            MatrixType::U16 | MatrixType::I16 => 2,
            MatrixType::U32 | MatrixType::I32 | MatrixType::F32 => 4,
            MatrixType::U64 | MatrixType::I64 | MatrixType::F64 => 8,
        }
    }

    /// The byte that stands for this type on the wire.
    pub open spec fn wire_code(self) -> u8 {
        match self {
            MatrixType::U8 => 0,
            MatrixType::U16 => 1,
            MatrixType::U32 => 2,
            MatrixType::U64 => 3,
            MatrixType::I8 => 4,
            MatrixType::I16 => 5,
            MatrixType::I32 => 6,
            MatrixType::I64 => 7,
            MatrixType::F32 => 8,
            MatrixType::F64 => 9,
        }
    }

    /// The type a wire code stands for, if any.
    pub open spec fn of_wire_code(code: u8) -> Option<MatrixType> {
        match code {
            0 => Some(MatrixType::U8),
            1 => Some(MatrixType::U16),
            2 => Some(MatrixType::U32),
            3 => Some(MatrixType::U64),
            4 => Some(MatrixType::I8),
            5 => Some(MatrixType::I16),
            6 => Some(MatrixType::I32),
            7 => Some(MatrixType::I64),
            8 => Some(MatrixType::F32),
            9 => Some(MatrixType::F64),
            _ => None,
        }
    }

    /// The lower-case name used in log lines.
    pub open spec fn spec_name(self) -> Seq<char> {
        match self {
            MatrixType::U8 => seq!['u', '8'],
            MatrixType::U16 => seq!['u', '1', '6'],
            MatrixType::U32 => seq!['u', '3', '2'],
            MatrixType::U64 => seq!['u', '6', '4'],
            MatrixType::I8 => seq!['i', '8'],
            MatrixType::I16 => seq!['i', '1', '6'],
            MatrixType::I32 => seq!['i', '3', '2'],
            MatrixType::I64 => seq!['i', '6', '4'],
            MatrixType::F32 => seq!['f', '3', '2'],
            MatrixType::F64 => seq!['f', '6', '4'],
        }
    }

    pub fn get_type_size(&self) -> (size: u8)
        ensures
            size == self.size(),
            size == 1 || size == 2 || size == 4 || size == 8,
    {
        match self {
            MatrixType::U8 => 1,
            MatrixType::U16 => 2,
            MatrixType::U32 => 4,
            MatrixType::U64 => 8,
            MatrixType::I8 => 1,
            MatrixType::I16 => 2,
            MatrixType::I32 => 4,
            MatrixType::I64 => 8,
            MatrixType::F32 => 4,
            MatrixType::F64 => 8,
        }
    }

    /// The wire code of this type.
    pub fn code(self) -> (code: u8)
        ensures
            code == self.wire_code(),
    {
        match self {
            MatrixType::U8 => 0,
            MatrixType::U16 => 1,
            MatrixType::U32 => 2,
            MatrixType::U64 => 3,
            MatrixType::I8 => 4,
            MatrixType::I16 => 5,
            MatrixType::I32 => 6,
            MatrixType::I64 => 7,
            MatrixType::F32 => 8,
            MatrixType::F64 => 9,
        }
    }

    /// Decodes a wire code; codes above nine are refused.
    pub fn from_code(code: u8) -> (decoded: Option<MatrixType>)
        ensures
            decoded == MatrixType::of_wire_code(code),
    {
        match code {
            0 => Some(MatrixType::U8),
            1 => Some(MatrixType::U16),
            2 => Some(MatrixType::U32),
            3 => Some(MatrixType::U64),
            4 => Some(MatrixType::I8),
            5 => Some(MatrixType::I16),
            6 => Some(MatrixType::I32),
            7 => Some(MatrixType::I64),
            8 => Some(MatrixType::F32),
            9 => Some(MatrixType::F64),
            _ => None,
        }
    }

    /// The name of this type as a string.
    pub fn name(self) -> (name: String)
        ensures
            name@ == self.spec_name(),
    {
        let text = match self {
            MatrixType::U8 => "u8",
            MatrixType::U16 => "u16",
            MatrixType::U32 => "u32",
            MatrixType::U64 => "u64",
            MatrixType::I8 => "i8",
            MatrixType::I16 => "i16",
            MatrixType::I32 => "i32",
            MatrixType::I64 => "i64",
            MatrixType::F32 => "f32",
            MatrixType::F64 => "f64",
        };
        proof {
            reveal_strlit("u8");
            reveal_strlit("u16");
            reveal_strlit("u32");
            reveal_strlit("u64");
            reveal_strlit("i8");
            reveal_strlit("i16");
            reveal_strlit("i32");
            reveal_strlit("i64");
            reveal_strlit("f32");
            reveal_strlit("f64");
            assert(text@ =~= self.spec_name());
        }
        String::from_str(text)
    }
}

/// Every wire code decodes back to the type it was made from, and every code
/// that decodes is the code of what it decodes to.
pub proof fn lemma_wire_code_round_trip(t: MatrixType, code: u8)
    ensures
        MatrixType::of_wire_code(t.wire_code()) == Some(t),
        MatrixType::of_wire_code(code) matches Some(u) ==> u.wire_code() == code,
        MatrixType::of_wire_code(code) is Some <==> code <= 9,
{
}

impl From<MatrixType> for u8 {
    fn from(value: MatrixType) -> (code: u8) {
        value.code()
    }
}

impl vstd::std_specs::convert::FromSpecImpl<MatrixType> for u8 {
    open spec fn obeys_from_spec() -> bool {
        true
    }

    open spec fn from_spec(value: MatrixType) -> u8 {
        value.wire_code()
    }
}

impl From<MatrixType> for String {
    fn from(m_type: MatrixType) -> (name: String)
        ensures
            name@ == m_type.spec_name(),
    {
        m_type.name()
    }
}

impl vstd::std_specs::convert::FromSpecImpl<MatrixType> for String {
    open spec fn obeys_from_spec() -> bool {
        false
    }

    open spec fn from_spec(m_type: MatrixType) -> String {
        arbitrary()
    }
}

impl TryFrom<u8> for MatrixType {
    type Error = String;

    fn try_from(value: u8) -> (decoded: Result<MatrixType, String>)
        ensures
            match decoded {
                Ok(matrix_type) => MatrixType::of_wire_code(value) == Some(matrix_type),
                Err(message) => MatrixType::of_wire_code(value) is None && message@
                    == "Invalid matrix type code: "@ + decimal(value as nat),
            },
    {
        match MatrixType::from_code(value) {
            Some(matrix_type) => Ok(matrix_type),
            None => {
                let mut message = String::from_str("Invalid matrix type code: ");
                append_decimal(&mut message, value as u128);
                Err(message)
            },
        }
    }
}

impl vstd::std_specs::convert::TryFromSpecImpl<u8> for MatrixType {
    open spec fn obeys_try_from_spec() -> bool {
        false
    }

    open spec fn try_from_spec(value: u8) -> Result<MatrixType, String> {
        arbitrary()
    }
}

} // verus!
