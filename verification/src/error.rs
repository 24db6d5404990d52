use vstd::prelude::*;

verus! {

/// Why a literal was refused.
#[derive(Debug, Clone, Copy, PartialEq, Eq, Structural)]
pub enum ErrorKind {
    /// The text of a token is malformed: bad digits, a string that does not
    /// end, a bad escape.
    LexicalError,
    /// A number lies outside the range of the integer width asked for.
    RangeError,
    /// A delimiter is missing, or a structure has too few or too many members.
    StructuralError,
    /// A quoted text is well formed but is no legal signature or object path.
    SemanticValidationError,
    /// The type has no literal syntax.
    UnsupportedTypeError,
}

/// The integer widths of the bus.
#[derive(Debug, Clone, Copy, PartialEq, Eq, Structural)]
pub enum IntegerKind {
    U8,
    I16,
    U16,
    I32,
    U32,
    I64,
    U64,
}

impl IntegerKind {
    /// Whether a literal of this width may start with `-`.
    pub open spec fn signed(self) -> bool {
        self is I16 || self is I32 || self is I64
    }

    /// The smallest value of this width.
    pub open spec fn lower(self) -> int {
        match self {
            IntegerKind::U8 | IntegerKind::U16 | IntegerKind::U32 | IntegerKind::U64 => 0,
            IntegerKind::I16 => -0x8000,
            IntegerKind::I32 => -0x8000_0000,
            IntegerKind::I64 => -0x8000_0000_0000_0000,
        }
    }

    /// The largest value of this width.
    pub open spec fn upper(self) -> int {
        match self {
            IntegerKind::U8 => 0xff,
            IntegerKind::I16 => 0x7fff,
            IntegerKind::U16 => 0xffff,
            IntegerKind::I32 => 0x7fff_ffff,
            IntegerKind::U32 => 0xffff_ffff,
            IntegerKind::I64 => 0x7fff_ffff_ffff_ffff,
            IntegerKind::U64 => 0xffff_ffff_ffff_ffff,
        }
    }

    /// Whether `n` can be held in this width.
    pub open spec fn holds(self, n: int) -> bool {
        self.lower() <= n <= self.upper()
    }

    /// Whether a literal of this width may start with `-`.
    pub fn is_signed(&self) -> (r: bool)
        ensures
            r == self.signed(),
    {
        match self {
            IntegerKind::I16 | IntegerKind::I32 | IntegerKind::I64 => true,
            _ => false,
        }
    }

    /// The smallest value of this width.
    pub fn min_value(&self) -> (n: i128)
        ensures
            n == self.lower(),
    {
        match self {
            IntegerKind::U8 | IntegerKind::U16 | IntegerKind::U32 | IntegerKind::U64 => 0,
            IntegerKind::I16 => -0x8000,
            IntegerKind::I32 => -0x8000_0000,
            IntegerKind::I64 => -0x8000_0000_0000_0000,
        }
    }

    /// The largest value of this width.
    pub fn max_value(&self) -> (n: i128)
        ensures
            n == self.upper(),
    {
        match self {
            IntegerKind::U8 => 0xff,
            IntegerKind::I16 => 0x7fff,
            IntegerKind::U16 => 0xffff,
            IntegerKind::I32 => 0x7fff_ffff,
            IntegerKind::U32 => 0xffff_ffff,
            IntegerKind::I64 => 0x7fff_ffff_ffff_ffff,
            IntegerKind::U64 => 0xffff_ffff_ffff_ffff,
        }
    }
}

/// What the parser was looking for where it gave up.
#[derive(Debug, Clone, Copy, PartialEq, Eq, Structural)]
pub enum Expected {
    /// `true` or `false`.
    Bool,
    /// A decimal digit.
    Digit,
    /// A number that the given width can hold.
    Integer(IntegerKind),
    /// The `"` that opens a quoted text.
    OpeningQuote,
    /// The `"` that closes a quoted text.
    ClosingQuote,
    /// One of the characters that may follow a backslash.
    Escape,
    /// A hexadecimal digit of a `\u` escape.
    HexDigit,
    /// Four hexadecimal digits that name a Unicode scalar value.
    UnicodeScalar,
    /// A legal type signature between the quotes.
    SignatureText,
    /// A legal object path between the quotes.
    ObjectPathText,
    /// The `[` that opens an array.
    ArrayOpen,
    /// The `,` before the next element or the `]` that closes the array.
    ArrayNext,
    /// The `{` that opens a dictionary.
    DictOpen,
    /// The `:` between a key and its value.
    DictColon,
    /// The `,` before the next pair or the `}` that closes the dictionary.
    DictNext,
    /// The `(` that opens a structure.
    StructureOpen,
    /// The `,` before the next member of a structure.
    StructureComma,
    /// The `)` that closes a structure after its last member.
    StructureClose,
    /// The `->` between a variant's signature and its value.
    Arrow,
    /// A type that has a literal syntax.
    LiteralType,
}

impl Expected {
    /// The words that say, to a reader, what was expected.
    pub open spec fn label_text(self) -> Seq<char> {
        match self {
            Expected::Bool => "`true` or `false`"@,
            Expected::Digit => "a decimal digit"@,
            Expected::Integer(IntegerKind::U8) => "a number from 0 to 255"@,
            Expected::Integer(IntegerKind::I16) => "a number from -32768 to 32767"@,
            Expected::Integer(IntegerKind::U16) => "a number from 0 to 65535"@,
            Expected::Integer(IntegerKind::I32) => "a number from -2147483648 to 2147483647"@,
            Expected::Integer(IntegerKind::U32) => "a number from 0 to 4294967295"@,
            Expected::Integer(IntegerKind::I64) =>
                "a number from -9223372036854775808 to 9223372036854775807"@,
            Expected::Integer(IntegerKind::U64) => "a number from 0 to 18446744073709551615"@,
            Expected::OpeningQuote => "an opening `\"`"@,
            Expected::ClosingQuote => "a closing `\"`"@,
            Expected::Escape => "one of `\\ / \" b f n r t u` after the backslash"@,
            Expected::HexDigit => "a hexadecimal digit"@,
            Expected::UnicodeScalar => "the code of a character"@,
            Expected::SignatureText => "a type signature"@,
            Expected::ObjectPathText => "an object path"@,
            Expected::ArrayOpen => "`[`"@,
            Expected::ArrayNext => "`,` or `]`"@,
            Expected::DictOpen => "`{`"@,
            Expected::DictColon => "`:`"@,
            Expected::DictNext => "`,` or `}`"@,
            Expected::StructureOpen => "`(`"@,
            Expected::StructureComma => "`,`"@,
            Expected::StructureClose => "`)`"@,
            Expected::Arrow => "`->`"@,
            Expected::LiteralType => "a type that can be written"@,
        }
    }

    /// The words that say, to a reader, what was expected.
    pub fn label(&self) -> (text: &'static str)
        ensures
            text@ == self.label_text(),
    {
        match self {
            Expected::Bool => "`true` or `false`",
            Expected::Digit => "a decimal digit",
            Expected::Integer(IntegerKind::U8) => "a number from 0 to 255",
            Expected::Integer(IntegerKind::I16) => "a number from -32768 to 32767",
            Expected::Integer(IntegerKind::U16) => "a number from 0 to 65535",
            Expected::Integer(IntegerKind::I32) => "a number from -2147483648 to 2147483647",
            Expected::Integer(IntegerKind::U32) => "a number from 0 to 4294967295",
            Expected::Integer(IntegerKind::I64) =>
                "a number from -9223372036854775808 to 9223372036854775807",
            Expected::Integer(IntegerKind::U64) => "a number from 0 to 18446744073709551615",
            Expected::OpeningQuote => "an opening `\"`",
            Expected::ClosingQuote => "a closing `\"`",
            Expected::Escape => "one of `\\ / \" b f n r t u` after the backslash",
            Expected::HexDigit => "a hexadecimal digit",
            Expected::UnicodeScalar => "the code of a character",
            Expected::SignatureText => "a type signature",
            Expected::ObjectPathText => "an object path",
            Expected::ArrayOpen => "`[`",
            Expected::ArrayNext => "`,` or `]`",
            Expected::DictOpen => "`{`",
            Expected::DictColon => "`:`",
            Expected::DictNext => "`,` or `}`",
            Expected::StructureOpen => "`(`",
            Expected::StructureComma => "`,`",
            Expected::StructureClose => "`)`",
            Expected::Arrow => "`->`",
            Expected::LiteralType => "a type that can be written",
        }
    }
}

/// One error of a parse attempt: what went wrong, where, and what should
/// have stood there.  The offset counts characters from the start of the
/// text.
#[derive(Debug, Clone, Copy, PartialEq, Eq, Structural)]
pub struct ParseError {
    pub kind: ErrorKind,
    pub offset: usize,
    pub expected: Expected,
}

/// Why no parser can be built for a signature.
#[derive(Debug, Clone, Copy, PartialEq, Eq, Structural)]
pub enum CompileError {
    /// The signature is, or holds, the unit type.
    UnitSignature,
}

/// The error of the given kind at `offset`.
pub open spec fn error_at(kind: ErrorKind, offset: int, expected: Expected) -> ParseError {
    ParseError { kind, offset: offset as usize, expected }
}

} // verus!
