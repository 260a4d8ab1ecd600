use vstd::prelude::*;

verus! {

/// The data types a stored value can have.
#[derive(Clone, Copy, Debug, PartialEq, Eq, Structural, PartialOrd, Ord, Hash)]
pub enum Datatype {
    String,
    UInt32,
    Int32,
    Float32,
    UInt64,
    Int64,
    Float64,
    Decimal,
    BigInt,
    Boolean,
    LangString,
    AnyURI,
    Language,
    NormalizedString,
    Token,
    NMToken,
    Name,
    NCName,
    Notation,
    QName,
    ID,
    IDRef,
    Entity,
    PositiveInteger,
    NonNegativeInteger,
    NonPositiveInteger,
    NegativeInteger,
    Date,
    DateTime,
    DateTimeStamp,
    Time,
    GYear,
    GMonth,
    GDay,
    GYearMonth,
    GMonthDay,
    Duration,
    YearMonthDuration,
    DayTimeDuration,
    UInt8,
    Int8,
    UInt16,
    Int16,
    Base64Binary,
    HexBinary,
    AnySimpleType,
    DateTimeInterval,
}

/// The fixed record width, in bytes, of the data types that have one.
pub open spec fn spec_record_size(d: Datatype) -> Option<u8> {
    match d {
        Datatype::UInt32 | Datatype::Int32 | Datatype::Float32 => Some(4u8),
        Datatype::UInt64 | Datatype::Int64 | Datatype::Float64 => Some(8u8),
        _ => None,
    }
}

impl Datatype {
    /// Width of a fixed-size record of this type: 4 bytes for the 32-bit
    /// numbers, 8 for the 64-bit numbers, none for every other type.
    pub fn record_size(&self) -> (r: Option<u8>)
        ensures
            r == spec_record_size(*self),
    {
        match self {
            Datatype::Boolean => None,
            Datatype::String => None,
            Datatype::UInt32 => Some(4),
            Datatype::Int32 => Some(4),
            Datatype::UInt64 => Some(8),
            Datatype::Int64 => Some(8),
            Datatype::Float32 => Some(4),
            Datatype::Float64 => Some(8),
            Datatype::Decimal => None,
            Datatype::BigInt => None,
            Datatype::Token => None,
            Datatype::LangString => None,
            _ => None,
        }
    }
}

/// The number of a data type: its place in the declaration, from 0.
pub open spec fn spec_code(d: Datatype) -> u8 {
    match d {
        Datatype::String => 0,
        Datatype::UInt32 => 1,
        Datatype::Int32 => 2,
        Datatype::Float32 => 3,
        Datatype::UInt64 => 4,
        Datatype::Int64 => 5,
        Datatype::Float64 => 6,
        Datatype::Decimal => 7,
        Datatype::BigInt => 8,
        Datatype::Boolean => 9,
        Datatype::LangString => 10,
        Datatype::AnyURI => 11,
        Datatype::Language => 12,
        Datatype::NormalizedString => 13,
        Datatype::Token => 14,
        Datatype::NMToken => 15,
        Datatype::Name => 16,
        Datatype::NCName => 17,
        Datatype::Notation => 18,
        Datatype::QName => 19,
        Datatype::ID => 20,
        Datatype::IDRef => 21,
        Datatype::Entity => 22,
        Datatype::PositiveInteger => 23,
        Datatype::NonNegativeInteger => 24,
        Datatype::NonPositiveInteger => 25,
        Datatype::NegativeInteger => 26,
        Datatype::Date => 27,
        Datatype::DateTime => 28,
        Datatype::DateTimeStamp => 29,
        Datatype::Time => 30,
        Datatype::GYear => 31,
        Datatype::GMonth => 32,
        Datatype::GDay => 33,
        Datatype::GYearMonth => 34,
        Datatype::GMonthDay => 35,
        Datatype::Duration => 36,
        Datatype::YearMonthDuration => 37,
        Datatype::DayTimeDuration => 38,
        Datatype::UInt8 => 39,
        Datatype::Int8 => 40,
        Datatype::UInt16 => 41,
        Datatype::Int16 => 42,
        Datatype::Base64Binary => 43,
        Datatype::HexBinary => 44,
        Datatype::AnySimpleType => 45,
        Datatype::DateTimeInterval => 46,
    }
}

/// The data type with a given number, if there is one.
pub open spec fn spec_from_code(n: u64) -> Option<Datatype> {
    match n {
        0 => Some(Datatype::String),
        1 => Some(Datatype::UInt32),
        2 => Some(Datatype::Int32),
        3 => Some(Datatype::Float32),
        4 => Some(Datatype::UInt64),
        5 => Some(Datatype::Int64),
        6 => Some(Datatype::Float64),
        7 => Some(Datatype::Decimal),
        8 => Some(Datatype::BigInt),
        9 => Some(Datatype::Boolean),
        10 => Some(Datatype::LangString),
        11 => Some(Datatype::AnyURI),
        12 => Some(Datatype::Language),
        13 => Some(Datatype::NormalizedString),
        14 => Some(Datatype::Token),
        15 => Some(Datatype::NMToken),
        16 => Some(Datatype::Name),
        17 => Some(Datatype::NCName),
        18 => Some(Datatype::Notation),
        19 => Some(Datatype::QName),
        20 => Some(Datatype::ID),
        21 => Some(Datatype::IDRef),
        22 => Some(Datatype::Entity),
        23 => Some(Datatype::PositiveInteger),
        24 => Some(Datatype::NonNegativeInteger),
        25 => Some(Datatype::NonPositiveInteger),
        26 => Some(Datatype::NegativeInteger),
        27 => Some(Datatype::Date),
        28 => Some(Datatype::DateTime),
        29 => Some(Datatype::DateTimeStamp),
        30 => Some(Datatype::Time),
        31 => Some(Datatype::GYear),
        32 => Some(Datatype::GMonth),
        33 => Some(Datatype::GDay),
        34 => Some(Datatype::GYearMonth),
        35 => Some(Datatype::GMonthDay),
        36 => Some(Datatype::Duration),
        37 => Some(Datatype::YearMonthDuration),
        38 => Some(Datatype::DayTimeDuration),
        39 => Some(Datatype::UInt8),
        40 => Some(Datatype::Int8),
        41 => Some(Datatype::UInt16),
        42 => Some(Datatype::Int16),
        43 => Some(Datatype::Base64Binary),
        44 => Some(Datatype::HexBinary),
        45 => Some(Datatype::AnySimpleType),
        46 => Some(Datatype::DateTimeInterval),
        _ => None,
    }
}

impl Datatype {
    /// The number of this data type, as a stored type tag holds it.
    pub fn code(&self) -> (c: u8)
        ensures
            c == spec_code(*self),
            c < 47,
    {
        match self {
            Datatype::String => 0,
            Datatype::UInt32 => 1,
            Datatype::Int32 => 2,
            Datatype::Float32 => 3,
            Datatype::UInt64 => 4,
            Datatype::Int64 => 5,
            Datatype::Float64 => 6,
            Datatype::Decimal => 7,
            Datatype::BigInt => 8,
            Datatype::Boolean => 9,
            Datatype::LangString => 10,
            Datatype::AnyURI => 11,
            Datatype::Language => 12,
            Datatype::NormalizedString => 13,
            Datatype::Token => 14,
            Datatype::NMToken => 15,
            Datatype::Name => 16,
            Datatype::NCName => 17,
            Datatype::Notation => 18,
            Datatype::QName => 19,
            Datatype::ID => 20,
            Datatype::IDRef => 21,
            Datatype::Entity => 22,
            Datatype::PositiveInteger => 23,
            Datatype::NonNegativeInteger => 24,
            Datatype::NonPositiveInteger => 25,
            Datatype::NegativeInteger => 26,
            Datatype::Date => 27,
            Datatype::DateTime => 28,
            Datatype::DateTimeStamp => 29,
            Datatype::Time => 30,
            Datatype::GYear => 31,
            Datatype::GMonth => 32,
            Datatype::GDay => 33,
            Datatype::GYearMonth => 34,
            Datatype::GMonthDay => 35,
            Datatype::Duration => 36,
            Datatype::YearMonthDuration => 37,
            Datatype::DayTimeDuration => 38,
            Datatype::UInt8 => 39,
            Datatype::Int8 => 40,
            Datatype::UInt16 => 41,
            Datatype::Int16 => 42,
            Datatype::Base64Binary => 43,
            Datatype::HexBinary => 44,
            Datatype::AnySimpleType => 45,
            Datatype::DateTimeInterval => 46,
        }
    }

    /// The data type with number `n`, or `None` when no type has it.
    pub fn from_code(n: u64) -> (r: Option<Datatype>)
        ensures
            r == spec_from_code(n),
            r is Some <==> n < 47,
    {
        match n {
            0 => Some(Datatype::String),
            1 => Some(Datatype::UInt32),
            2 => Some(Datatype::Int32),
            3 => Some(Datatype::Float32),
            4 => Some(Datatype::UInt64),
            5 => Some(Datatype::Int64),
            6 => Some(Datatype::Float64),
            7 => Some(Datatype::Decimal),
            8 => Some(Datatype::BigInt),
            9 => Some(Datatype::Boolean),
            10 => Some(Datatype::LangString),
            11 => Some(Datatype::AnyURI),
            12 => Some(Datatype::Language),
            13 => Some(Datatype::NormalizedString),
            14 => Some(Datatype::Token),
            15 => Some(Datatype::NMToken),
            16 => Some(Datatype::Name),
            17 => Some(Datatype::NCName),
            18 => Some(Datatype::Notation),
            19 => Some(Datatype::QName),
            20 => Some(Datatype::ID),
            21 => Some(Datatype::IDRef),
            22 => Some(Datatype::Entity),
            23 => Some(Datatype::PositiveInteger),
            24 => Some(Datatype::NonNegativeInteger),
            25 => Some(Datatype::NonPositiveInteger),
            26 => Some(Datatype::NegativeInteger),
            27 => Some(Datatype::Date),
            28 => Some(Datatype::DateTime),
            29 => Some(Datatype::DateTimeStamp),
            30 => Some(Datatype::Time),
            31 => Some(Datatype::GYear),
            32 => Some(Datatype::GMonth),
            33 => Some(Datatype::GDay),
            34 => Some(Datatype::GYearMonth),
            35 => Some(Datatype::GMonthDay),
            36 => Some(Datatype::Duration),
            37 => Some(Datatype::YearMonthDuration),
            38 => Some(Datatype::DayTimeDuration),
            39 => Some(Datatype::UInt8),
            40 => Some(Datatype::Int8),
            41 => Some(Datatype::UInt16),
            42 => Some(Datatype::Int16),
            43 => Some(Datatype::Base64Binary),
            44 => Some(Datatype::HexBinary),
            45 => Some(Datatype::AnySimpleType),
            46 => Some(Datatype::DateTimeInterval),
            _ => None,
        }
    }
}

/// Reading back the number of a data type gives that data type.
pub proof fn lemma_code_roundtrip(d: Datatype)
    ensures
        spec_from_code(spec_code(d) as u64) == Some(d),
{
}

/// Every number that names a data type is the number of that data type.
pub proof fn lemma_from_code_roundtrip(n: u64)
    requires
        n < 47,
    ensures
        spec_from_code(n) matches Some(d) && spec_code(d) == n,
{
}

/// The data types in the order of their declaration.
pub open spec fn declaration_order() -> Seq<Datatype> {
    seq![
        Datatype::String,
        Datatype::UInt32,
        Datatype::Int32,
        Datatype::Float32,
        Datatype::UInt64,
        Datatype::Int64,
        Datatype::Float64,
        Datatype::Decimal,
        Datatype::BigInt,
        Datatype::Boolean,
        Datatype::LangString,
        Datatype::AnyURI,
        Datatype::Language,
        Datatype::NormalizedString,
        Datatype::Token,
        Datatype::NMToken,
        Datatype::Name,
        Datatype::NCName,
        Datatype::Notation,
        Datatype::QName,
        Datatype::ID,
        Datatype::IDRef,
        Datatype::Entity,
        Datatype::PositiveInteger,
        Datatype::NonNegativeInteger,
        Datatype::NonPositiveInteger,
        Datatype::NegativeInteger,
        Datatype::Date,
        Datatype::DateTime,
        Datatype::DateTimeStamp,
        Datatype::Time,
        Datatype::GYear,
        Datatype::GMonth,
        Datatype::GDay,
        Datatype::GYearMonth,
        Datatype::GMonthDay,
        Datatype::Duration,
        Datatype::YearMonthDuration,
        Datatype::DayTimeDuration,
        Datatype::UInt8,
        Datatype::Int8,
        Datatype::UInt16,
        Datatype::Int16,
        Datatype::Base64Binary,
        Datatype::HexBinary,
        Datatype::AnySimpleType,
        Datatype::DateTimeInterval,
    ]
}

/// The number of every data type is its place in the declaration, counted
/// from 0, and every place below 47 holds the data type with that number.
pub proof fn lemma_code_is_declaration_place(d: Datatype, i: int)
    ensures
        declaration_order().len() == 47,
        declaration_order()[spec_code(d) as int] == d,
        0 <= i < 47 ==> spec_code(declaration_order()[i]) == i,
        0 <= i < 47 ==> spec_from_code(i as u64) == Some(declaration_order()[i]),
{
    reveal_with_fuel(declaration_order, 1);
    assert(declaration_order().len() == 47);
}

/// The 32-bit numbers have 4-byte records, the 64-bit numbers 8-byte
/// records, and no other data type has a fixed record size.
pub proof fn lemma_record_size_of_numbers(d: Datatype)
    ensures
        (spec_record_size(d) == Some(4u8)) <==> (d == Datatype::UInt32 || d == Datatype::Int32
            || d == Datatype::Float32),
        (spec_record_size(d) == Some(8u8)) <==> (d == Datatype::UInt64 || d == Datatype::Int64
            || d == Datatype::Float64),
        (spec_record_size(d) is Some) ==> (spec_record_size(d) == Some(4u8) || spec_record_size(d)
            == Some(8u8)),
{
}

} // verus!
