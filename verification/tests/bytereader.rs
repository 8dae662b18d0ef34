use renderer::bytereader::{ByteReader, ByteReaderError, OutOfBoundsError};

#[test]
fn test_read_empty_slice() -> Result<(), ()> {
    let mut reader = ByteReader::new(&[]);

    let res = reader.read(1);

    assert!(res.is_err());

    match res.err() {
        Some(ByteReaderError::OutOfBounds(_)) => Ok(()),
        _ => Err(()),
    }
}

#[test]
fn test_read_out_of_bounds_with_correct_error() -> Result<(), ()> {
    let mut reader = ByteReader::new(&[1, 2, 3]);

    let res = reader.read(4);

    assert!(res.is_err());

    if let ByteReaderError::OutOfBounds(OutOfBoundsError { bounds: x, offset: y }) =
        res.err().unwrap()
    {
        assert!(x == 3);
        assert!(y == 4);
        Ok(())
    } else {
        Err(())
    }
}

#[test]
fn test_peak_does_not_move_offset() {
    let reader = ByteReader::new(&[1, 2, 3]);

    let res = reader.peek(3);

    assert!(res.is_ok());
    assert_eq!(res.unwrap(), &[1, 2, 3]);
    assert_eq!(reader.offset(), 0);
}
