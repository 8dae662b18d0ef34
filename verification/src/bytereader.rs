//! A forward-reading cursor over a byte slice. Every operation either
//! succeeds or fails with an error that says where and why; none panics.

use vstd::prelude::*;
use vstd::slice::{slice_subrange, slice_to_vec};
use vstd::string::StringExecFns;
use crate::text::{byte_list, byte_list_string, decimal, decimal_string};

verus! {

/// What a cursor is: the bytes it reads and how many of them lie behind it.
pub struct CursorModel {
    pub bytes: Seq<u8>,
    pub offset: int,
}

impl CursorModel {
    /// The cursor lies within its source, which is no longer than a slice can be.
    pub open spec fn wf(self) -> bool {
        0 <= self.offset <= self.bytes.len() <= usize::MAX
    }

    /// At least `count` bytes lie ahead.
    pub open spec fn has(self, count: int) -> bool {
        self.offset + count <= self.bytes.len()
    }

    /// The next `count` bytes.
    pub open spec fn next(self, count: int) -> Seq<u8> {
        self.bytes.subrange(self.offset, self.offset + count)
    }

    /// The cursor moved to `offset`.
    pub open spec fn at(self, offset: int) -> CursorModel {
        CursorModel { offset, ..self }
    }

    /// The next bytes are exactly `expected`.
    pub open spec fn starts_with(self, expected: Seq<u8>) -> bool {
        self.has(expected.len() as int) && self.next(expected.len() as int) == expected
    }

    /// Why reading `count` bytes fails when fewer lie ahead: the length of
    /// the source and the end of the read, capped at the largest `usize`.
    pub open spec fn short_by(self, count: int) -> ReadFailure {
        ReadFailure::OutOfBounds {
            bounds: self.bytes.len() as int,
            offset: if self.offset + count <= usize::MAX {
                self.offset + count
            } else {
                usize::MAX as int
            },
        }
    }
}

/// What a cursor error says.
pub enum ReadFailure {
    /// A read or a seek would have ended at `offset`, past the `bounds` of the source.
    OutOfBounds { bounds: int, offset: int },
    /// The source held `actual` where `expected` was required.
    UnexpectedValue { expected: Seq<u8>, actual: Seq<u8> },
}

#[derive(Debug)]
pub struct OutOfBoundsError {
    pub bounds: usize,
    pub offset: usize,
}

#[derive(Debug)]
pub struct UnexpectedValueError {
    pub expected: Vec<u8>,
    pub actual: Vec<u8>,
}

#[derive(Debug)]
pub enum ByteReaderError {
    OutOfBounds(OutOfBoundsError),
    UnexpectedValue(UnexpectedValueError),
}

impl OutOfBoundsError {
    pub fn new(bounds: usize, offset: usize) -> (error: Self)
        ensures
            error.bounds == bounds,
            error.offset == offset,
    {
        OutOfBoundsError { bounds, offset }
    }
}

impl UnexpectedValueError {
    pub fn new(expected: &[u8], actual: &[u8]) -> (error: Self)
        ensures
            error.expected@ == expected@,
            error.actual@ == actual@,
    {
        UnexpectedValueError { expected: slice_to_vec(expected), actual: slice_to_vec(actual) }
    }
}

impl View for ByteReaderError {
    type V = ReadFailure;

    open spec fn view(&self) -> ReadFailure {
        match *self {
            ByteReaderError::OutOfBounds(e) => ReadFailure::OutOfBounds {
                bounds: e.bounds as int,
                offset: e.offset as int,
            },
            ByteReaderError::UnexpectedValue(e) => ReadFailure::UnexpectedValue {
                expected: e.expected@,
                actual: e.actual@,
            },
        }
    }
}

impl ReadFailure {
    /// The failure in words.
    pub open spec fn text(self) -> Seq<char> {
        match self {
            ReadFailure::OutOfBounds { bounds, offset } => "OutOfBounds: index "@ + decimal(
                offset as nat,
            ) + " is out of bounds "@ + decimal(bounds as nat),
            ReadFailure::UnexpectedValue { expected, actual } => "UnexpectedValue: expected "@
                + byte_list(expected) + ", got "@ + byte_list(actual),
        }
    }
}

impl ByteReaderError {
    /// The error in words.
    pub fn message(&self) -> (text: String)
        ensures
            text@ == self@.text(),
    {
        match self {
            ByteReaderError::OutOfBounds(error) => {
                let mut text = String::from_str("OutOfBounds: index ");
                text.append(decimal_string(error.offset).as_str());
                text.append(" is out of bounds ");
                text.append(decimal_string(error.bounds).as_str());
                text
            },
            ByteReaderError::UnexpectedValue(error) => {
                let mut text = String::from_str("UnexpectedValue: expected ");
                text.append(byte_list_string(error.expected.as_slice()).as_str());
                text.append(", got ");
                text.append(byte_list_string(error.actual.as_slice()).as_str());
                text
            },
        }
    }
}

/// Whether two byte slices hold the same bytes.
fn bytes_equal(left: &[u8], right: &[u8]) -> (equal: bool)
    ensures
        equal == (left@ == right@),
{
    if left.len() != right.len() {
        return false;
    }
    let mut i: usize = 0;
    while i < left.len()
        invariant
            left@.len() == right@.len(),
            i <= left@.len(),
            forall|j: int| 0 <= j < i ==> left@[j] == right@[j],
        decreases left@.len() - i,
    {
        if left[i] != right[i] {
            return false;
        }
        i += 1;
    }
    assert(left@ =~= right@);
    true
}

pub struct ByteReader<'a> {
    inner: &'a [u8],
    offset: usize,
}

impl<'a> View for ByteReader<'a> {
    type V = CursorModel;

    closed spec fn view(&self) -> CursorModel {
        CursorModel { bytes: self.inner@, offset: self.offset as int }
    }
}

impl<'a> ByteReader<'a> {
    #[verifier::type_invariant]
    spec fn well_formed(&self) -> bool {
        self.offset <= self.inner@.len()
    }

    /// A cursor at the start of `b`.
    pub fn new(b: &'a [u8]) -> (reader: ByteReader<'a>)
        ensures
            reader@ == (CursorModel { bytes: b@, offset: 0 }),
            reader@.wf(),
    {
        let reader = ByteReader { inner: b, offset: 0 };
        assert(reader@.wf()) by {
            vstd::slice::axiom_spec_len(b);
        }
        reader
    }

    /// The next `count` bytes, with the cursor moved past them; or an error,
    /// with the cursor where it was, when fewer than `count` bytes lie ahead.
    pub fn read(&mut self, count: usize) -> (result: Result<&'a [u8], ByteReaderError>)
        ensures
            old(self)@.wf(),
            final(self)@.wf(),
            match result {
                Ok(bytes) => old(self)@.has(count as int) && bytes@ == old(self)@.next(count as int)
                    && final(self)@ == old(self)@.at(old(self)@.offset + count),
                Err(error) => !old(self)@.has(count as int) && error@ == old(self)@.short_by(
                    count as int,
                ) && final(self)@ == old(self)@,
            },
    {
        proof {
            use_type_invariant(&*self);
        }
        match self.peek(count) {
            Ok(bytes) => {
                let length: usize = self.inner.len();
                assert(self.offset + count <= length);
                self.offset = self.offset + count;
                Ok(bytes)
            },
            Err(error) => Err(error),
        }
    }

    /// The next `count` bytes, with the cursor left where it is; or an error
    /// when fewer than `count` bytes lie ahead.
    pub fn peek(&self, count: usize) -> (result: Result<&'a [u8], ByteReaderError>)
        ensures
            self@.wf(),
            match result {
                Ok(bytes) => self@.has(count as int) && bytes@ == self@.next(count as int),
                Err(error) => !self@.has(count as int) && error@ == self@.short_by(count as int),
            },
    {
        proof {
            use_type_invariant(self);
            vstd::slice::axiom_spec_len(self.inner);
        }
        if count <= self.inner.len() - self.offset {
            Ok(slice_subrange(self.inner, self.offset, self.offset + count))
        } else {
            let end: usize = self.offset.saturating_add(count);
            Err(ByteReaderError::OutOfBounds(OutOfBoundsError::new(self.inner.len(), end)))
        }
    }

    /// Moves the cursor to `offset`; or fails, with the cursor where it was,
    /// when `offset` lies beyond the end of the source.
    pub fn seek(&mut self, offset: usize) -> (result: Result<(), ByteReaderError>)
        ensures
            old(self)@.wf(),
            final(self)@.wf(),
            match result {
                Ok(()) => offset <= old(self)@.bytes.len() && final(self)@ == old(self)@.at(
                    offset as int,
                ),
                Err(error) => offset > old(self)@.bytes.len() && final(self)@ == old(self)@
                    && error@ == (ReadFailure::OutOfBounds {
                    bounds: old(self)@.bytes.len() as int,
                    offset: offset as int,
                }),
            },
    {
        proof {
            use_type_invariant(&*self);
            vstd::slice::axiom_spec_len(self.inner);
        }
        if offset > self.inner.len() {
            Err(ByteReaderError::OutOfBounds(OutOfBoundsError::new(self.inner.len(), offset)))
        } else {
            self.offset = offset;
            Ok(())
        }
    }

    /// Moves past `expected` if the next bytes are exactly that, and says
    /// whether they were. Otherwise the cursor stays where it is.
    pub fn try_accept(&mut self, expected: &[u8]) -> (accepted: bool)
        ensures
            old(self)@.wf(),
            final(self)@.wf(),
            accepted == old(self)@.starts_with(expected@),
            accepted ==> final(self)@ == old(self)@.at(old(self)@.offset + expected@.len()),
            !accepted ==> final(self)@ == old(self)@,
    {
        match self.accept(expected) {
            Ok(()) => true,
            Err(_) => false,
        }
    }

    /// Moves past `expected` if the next bytes are exactly that. Otherwise
    /// the cursor stays where it is and the error says what was found:
    /// too few bytes, or other bytes than expected.
    pub fn accept(&mut self, expected: &[u8]) -> (result: Result<(), ByteReaderError>)
        ensures
            old(self)@.wf(),
            final(self)@.wf(),
            match result {
                Ok(()) => old(self)@.starts_with(expected@) && final(self)@ == old(self)@.at(
                    old(self)@.offset + expected@.len(),
                ),
                Err(error) => !old(self)@.starts_with(expected@) && final(self)@ == old(self)@
                    && error@ == if old(self)@.has(expected@.len() as int) {
                    ReadFailure::UnexpectedValue {
                        expected: expected@,
                        actual: old(self)@.next(expected@.len() as int),
                    }
                } else {
                    old(self)@.short_by(expected@.len() as int)
                },
            },
    {
        proof {
            use_type_invariant(&*self);
        }
        let count: usize = expected.len();
        match self.peek(count) {
            Ok(bytes) => {
                if bytes_equal(expected, bytes) {
                    let length: usize = self.inner.len();
                    assert(self.offset + count <= length);
                    self.offset = self.offset + count;
                    Ok(())
                } else {
                    Err(ByteReaderError::UnexpectedValue(UnexpectedValueError::new(expected, bytes)))
                }
            },
            Err(error) => Err(error),
        }
    }

    /// How many bytes the source holds.
    pub fn len(&self) -> (length: usize)
        ensures
            length == self@.bytes.len(),
            self@.wf(),
    {
        proof {
            use_type_invariant(self);
            vstd::slice::axiom_spec_len(self.inner);
        }
        self.inner.len()
    }

    /// How many bytes lie behind the cursor.
    pub fn offset(&self) -> (offset: usize)
        ensures
            offset == self@.offset,
            self@.wf(),
    {
        proof {
            use_type_invariant(self);
            vstd::slice::axiom_spec_len(self.inner);
        }
        self.offset
    }
}

} // verus!
