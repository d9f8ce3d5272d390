//! What can go wrong.

use crate::key;
use crate::key::Key;
use crate::number;
use crate::text;
use vstd::prelude::*;
use vstd::string::*;

verus! {

/// What went wrong.
#[derive(Debug)]
pub enum Error {
    UnsupportedFormat(String),
    EmptySources,
    EmptySplitKeys,
    UnsortedSplitKeys,
    IncompatibleFormat,
    IncompatibleSchema,
    IncompatibleTitle,
    IncompatibleStringTable,
    IncompatibleKeyOrder,
    SchemaMismatch,
    UnsortedKeys,
    InvalidSchema(String),
    InvalidFrameLength { expected: u32, actual: usize },
    InvalidFrameRange { start: u64, end: u64, frame_count: u64 },
    InvalidKeyField(String),
    InvalidKey(String),
    InvalidFieldSlice(String),
    InvalidIntegerWidth(usize),
    InvalidStringTableIndex(u64),
    InvalidSelector(String),
    ReversedSelector { first: Key, last: Key },
}

/// What went wrong, with names and texts as characters.
pub enum Failure {
    UnsupportedFormat(Seq<char>),
    EmptySources,
    EmptySplitKeys,
    UnsortedSplitKeys,
    IncompatibleFormat,
    IncompatibleSchema,
    IncompatibleTitle,
    IncompatibleStringTable,
    IncompatibleKeyOrder,
    SchemaMismatch,
    UnsortedKeys,
    InvalidSchema(Seq<char>),
    InvalidFrameLength { expected: u32, actual: usize },
    InvalidFrameRange { start: u64, end: u64, frame_count: u64 },
    InvalidKeyField(Seq<char>),
    InvalidKey(Seq<char>),
    InvalidFieldSlice(Seq<char>),
    InvalidIntegerWidth(usize),
    InvalidStringTableIndex(u64),
    InvalidSelector(Seq<char>),
    ReversedSelector { first: Key, last: Key },
}

impl View for Error {
    type V = Failure;

    open spec fn view(&self) -> Failure {
        match *self {
            Error::UnsupportedFormat(path) => Failure::UnsupportedFormat(path@),
            Error::EmptySources => Failure::EmptySources,
            Error::EmptySplitKeys => Failure::EmptySplitKeys,
            Error::UnsortedSplitKeys => Failure::UnsortedSplitKeys,
            Error::IncompatibleFormat => Failure::IncompatibleFormat,
            Error::IncompatibleSchema => Failure::IncompatibleSchema,
            Error::IncompatibleTitle => Failure::IncompatibleTitle,
            Error::IncompatibleStringTable => Failure::IncompatibleStringTable,
            Error::IncompatibleKeyOrder => Failure::IncompatibleKeyOrder,
            Error::SchemaMismatch => Failure::SchemaMismatch,
            Error::UnsortedKeys => Failure::UnsortedKeys,
            Error::InvalidSchema(reason) => Failure::InvalidSchema(reason@),
            Error::InvalidFrameLength { expected, actual } => Failure::InvalidFrameLength {
                expected,
                actual,
            },
            Error::InvalidFrameRange { start, end, frame_count } => Failure::InvalidFrameRange {
                start,
                end,
                frame_count,
            },
            Error::InvalidKeyField(name) => Failure::InvalidKeyField(name@),
            Error::InvalidKey(value) => Failure::InvalidKey(value@),
            Error::InvalidFieldSlice(name) => Failure::InvalidFieldSlice(name@),
            Error::InvalidIntegerWidth(width) => Failure::InvalidIntegerWidth(width),
            Error::InvalidStringTableIndex(index) => Failure::InvalidStringTableIndex(index),
            Error::InvalidSelector(value) => Failure::InvalidSelector(value@),
            Error::ReversedSelector { first, last } => Failure::ReversedSelector { first, last },
        }
    }
}

impl Failure {
    /// What is said of the failure.
    pub open spec fn words(self) -> Seq<char> {
        match self {
            Failure::UnsupportedFormat(path) => "unsupported FWOB file format: "@ + path,
            Failure::EmptySources => "at least one source file is required"@,
            Failure::EmptySplitKeys => "at least one split key is required"@,
            Failure::UnsortedSplitKeys => "split keys must be sorted"@,
            Failure::IncompatibleFormat => "source files use different FWOB format versions"@,
            Failure::IncompatibleSchema => "source files use incompatible schemas"@,
            Failure::IncompatibleTitle => "source files use incompatible titles"@,
            Failure::IncompatibleStringTable => "source files use incompatible string tables"@,
            Failure::IncompatibleKeyOrder => "source frame keys are not globally ordered"@,
            Failure::SchemaMismatch => "typed frame schema does not match the file schema"@,
            Failure::UnsortedKeys => "keys must be sorted"@,
            Failure::InvalidSchema(reason) => "invalid schema: "@ + reason,
            Failure::InvalidFrameLength { expected, actual } => "invalid frame length: expected "@
                + number::decimal(expected as nat) + ", got "@ + number::decimal(actual as nat),
            Failure::InvalidFrameRange { start, end, frame_count } => "invalid frame range "@
                + number::decimal(start as nat) + ".."@ + number::decimal(end as nat) + " of "@
                + number::decimal(frame_count as nat) + " frames"@,
            Failure::InvalidKeyField(name) => "field '"@ + name + "' cannot be a key"@,
            Failure::InvalidKey(value) => "invalid key '"@ + value + "'"@,
            Failure::InvalidFieldSlice(name) => "field '"@ + name + "' does not fit its frame"@,
            Failure::InvalidIntegerWidth(width) => "invalid integer width: "@ + number::decimal(
                width as nat,
            ),
            Failure::InvalidStringTableIndex(index) => "invalid string table index: "@
                + number::decimal(index as nat),
            Failure::InvalidSelector(value) => "invalid selector '"@ + value + "'"@,
            Failure::ReversedSelector { .. } => "selector range is reversed"@,
        }
    }
}

impl Error {
    /// What is said of the error.
    pub fn message(&self) -> (result: String)
        ensures
            result@ == self@.words(),
    {
        match self {
            Error::UnsupportedFormat(path) => {
                let mut result: String = "unsupported FWOB file format: ".to_owned();
                result.append(path.as_str());
                result
            },
            Error::EmptySources => "at least one source file is required".to_owned(),
            Error::EmptySplitKeys => "at least one split key is required".to_owned(),
            Error::UnsortedSplitKeys => "split keys must be sorted".to_owned(),
            Error::IncompatibleFormat => {
                "source files use different FWOB format versions".to_owned()
            },
            Error::IncompatibleSchema => "source files use incompatible schemas".to_owned(),
            Error::IncompatibleTitle => "source files use incompatible titles".to_owned(),
            Error::IncompatibleStringTable => {
                "source files use incompatible string tables".to_owned()
            },
            Error::IncompatibleKeyOrder => "source frame keys are not globally ordered".to_owned(),
            Error::SchemaMismatch => {
                "typed frame schema does not match the file schema".to_owned()
            },
            Error::UnsortedKeys => "keys must be sorted".to_owned(),
            Error::InvalidSchema(reason) => {
                let mut result: String = "invalid schema: ".to_owned();
                result.append(reason.as_str());
                result
            },
            Error::InvalidFrameLength { expected, actual } => {
                let mut result: String = "invalid frame length: expected ".to_owned();
                number::push_decimal(&mut result, *expected as u128);
                result.append(", got ");
                number::push_decimal(&mut result, *actual as u128);
                result
            },
            Error::InvalidFrameRange { start, end, frame_count } => {
                let mut result: String = "invalid frame range ".to_owned();
                number::push_decimal(&mut result, *start as u128);
                result.append("..");
                number::push_decimal(&mut result, *end as u128);
                result.append(" of ");
                number::push_decimal(&mut result, *frame_count as u128);
                result.append(" frames");
                result
            },
            Error::InvalidKeyField(name) => {
                text::concat3("field '", name.as_str(), "' cannot be a key")
            },
            Error::InvalidKey(value) => text::concat3("invalid key '", value.as_str(), "'"),
            Error::InvalidFieldSlice(name) => {
                text::concat3("field '", name.as_str(), "' does not fit its frame")
            },
            Error::InvalidIntegerWidth(width) => {
                let mut result: String = "invalid integer width: ".to_owned();
                number::push_decimal(&mut result, *width as u128);
                result
            },
            Error::InvalidStringTableIndex(index) => {
                let mut result: String = "invalid string table index: ".to_owned();
                number::push_decimal(&mut result, *index as u128);
                result
            },
            Error::InvalidSelector(value) => {
                text::concat3("invalid selector '", value.as_str(), "'")
            },
            Error::ReversedSelector { .. } => "selector range is reversed".to_owned(),
        }
    }
}

} // verus!
