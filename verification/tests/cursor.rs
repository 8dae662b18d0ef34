use renderer::bytereader::{ByteReader, ByteReaderError, OutOfBoundsError, UnexpectedValueError};

#[test]
fn read_returns_bytes_and_advances() {
    let data = [10u8, 20, 30, 40];
    let mut reader = ByteReader::new(&data);
    assert_eq!(reader.read(3).unwrap(), &[10, 20, 30]);
    assert_eq!(reader.offset(), 3);
    assert_eq!(reader.read(1).unwrap(), &[40]);
    assert_eq!(reader.offset(), 4);
}

#[test]
fn read_to_the_end_moves_the_cursor_to_the_end() {
    let data = [1u8, 2];
    let mut reader = ByteReader::new(&data);
    assert!(reader.read(2).is_ok());
    assert_eq!(reader.offset(), 2);
    assert!(reader.read(0).is_ok());
    match reader.read(1) {
        Err(ByteReaderError::OutOfBounds(OutOfBoundsError { bounds, offset })) => {
            assert_eq!(bounds, 2);
            assert_eq!(offset, 3);
        }
        _ => panic!("reading past the end must fail"),
    }
    assert_eq!(reader.offset(), 2);
}

#[test]
fn failed_read_leaves_the_cursor() {
    let data = [1u8, 2, 3];
    let mut reader = ByteReader::new(&data);
    reader.read(1).unwrap();
    assert!(reader.read(3).is_err());
    assert_eq!(reader.offset(), 1);
}

#[test]
fn read_of_a_huge_count_fails_without_overflow() {
    let data = [1u8, 2, 3];
    let mut reader = ByteReader::new(&data);
    reader.read(2).unwrap();
    match reader.read(usize::MAX) {
        Err(ByteReaderError::OutOfBounds(error)) => {
            assert_eq!(error.bounds, 3);
            assert_eq!(error.offset, usize::MAX);
        }
        _ => panic!("expected an out of bounds error"),
    }
}

#[test]
fn peek_fails_like_read() {
    let data = [1u8];
    let reader = ByteReader::new(&data);
    match reader.peek(2) {
        Err(ByteReaderError::OutOfBounds(error)) => {
            assert_eq!(error.bounds, 1);
            assert_eq!(error.offset, 2);
        }
        _ => panic!("expected an out of bounds error"),
    }
}

#[test]
fn seek_moves_within_the_source() {
    let data = [1u8, 2, 3];
    let mut reader = ByteReader::new(&data);
    assert!(reader.seek(2).is_ok());
    assert_eq!(reader.offset(), 2);
    assert_eq!(reader.read(1).unwrap(), &[3]);
    assert!(reader.seek(3).is_ok());
    assert_eq!(reader.offset(), 3);
    assert!(reader.seek(0).is_ok());
    assert_eq!(reader.offset(), 0);
}

#[test]
fn seek_beyond_the_end_fails() {
    let data = [1u8, 2, 3];
    let mut reader = ByteReader::new(&data);
    reader.seek(1).unwrap();
    match reader.seek(4) {
        Err(ByteReaderError::OutOfBounds(error)) => {
            assert_eq!(error.bounds, 3);
            assert_eq!(error.offset, 4);
        }
        _ => panic!("expected an out of bounds error"),
    }
    assert_eq!(reader.offset(), 1);
}

#[test]
fn accept_moves_past_a_match() {
    let data = [7u8, 8, 9];
    let mut reader = ByteReader::new(&data);
    assert!(reader.accept(&[7, 8]).is_ok());
    assert_eq!(reader.offset(), 2);
}

#[test]
fn accept_reports_a_mismatch_and_stays() {
    let data = [7u8, 8, 9];
    let mut reader = ByteReader::new(&data);
    reader.read(1).unwrap();
    match reader.accept(&[8, 0]) {
        Err(ByteReaderError::UnexpectedValue(UnexpectedValueError { expected, actual })) => {
            assert_eq!(expected, vec![8, 0]);
            assert_eq!(actual, vec![8, 9]);
        }
        _ => panic!("expected an unexpected value error"),
    }
    assert_eq!(reader.offset(), 1);
}

#[test]
fn accept_of_too_many_bytes_is_out_of_bounds() {
    let data = [7u8];
    let mut reader = ByteReader::new(&data);
    match reader.accept(&[7, 8]) {
        Err(ByteReaderError::OutOfBounds(error)) => {
            assert_eq!(error.bounds, 1);
            assert_eq!(error.offset, 2);
        }
        _ => panic!("expected an out of bounds error"),
    }
    assert_eq!(reader.offset(), 0);
}

#[test]
fn try_accept_says_whether_it_moved() {
    let data = [1u8, 2, 3];
    let mut reader = ByteReader::new(&data);
    assert!(!reader.try_accept(&[2]));
    assert_eq!(reader.offset(), 0);
    assert!(reader.try_accept(&[1, 2]));
    assert_eq!(reader.offset(), 2);
    assert!(!reader.try_accept(&[3, 4]));
    assert_eq!(reader.offset(), 2);
    assert!(reader.try_accept(&[]));
    assert_eq!(reader.offset(), 2);
}

#[test]
fn error_constructors_keep_their_arguments() {
    let out = OutOfBoundsError::new(3, 4);
    assert_eq!(out.bounds, 3);
    assert_eq!(out.offset, 4);
    let unexpected = UnexpectedValueError::new(&[1, 2], &[3]);
    assert_eq!(unexpected.expected, vec![1, 2]);
    assert_eq!(unexpected.actual, vec![3]);
}

#[test]
fn cursor_errors_in_words() {
    let out = ByteReaderError::OutOfBounds(OutOfBoundsError::new(3, 4));
    assert_eq!(out.message(), "OutOfBounds: index 4 is out of bounds 3");
    let unexpected = ByteReaderError::UnexpectedValue(UnexpectedValueError::new(&[0], &[1, 255]));
    assert_eq!(unexpected.message(), "UnexpectedValue: expected [0], got [1, 255]");
    let empty = ByteReaderError::UnexpectedValue(UnexpectedValueError::new(&[], &[]));
    assert_eq!(empty.message(), "UnexpectedValue: expected [], got []");
}

#[test]
fn length_is_that_of_the_source() {
    let data = [1u8, 2, 3];
    let mut reader = ByteReader::new(&data);
    assert_eq!(reader.len(), 3);
    reader.read(2).unwrap();
    assert_eq!(reader.len(), 3);
    assert_eq!(ByteReader::new(&[]).len(), 0);
}
