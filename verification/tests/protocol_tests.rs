use skateboard_slope::protocol::{encode_request, get_fallible, split_fields, Data, FieldError, ReqTy, MEASUREMENT_SIZE};

#[test]
fn subscribe_request_is_four_zero_bytes() {
    assert_eq!(encode_request(ReqTy::Subscribe), vec![0, 0, 0, 0]);
    assert_eq!(MEASUREMENT_SIZE, 8);
}

#[test]
fn split_at_commas() {
    let fields = split_fields(b"1.5,-2,,3\n");
    assert_eq!(fields, vec![b"1.5".to_vec(), b"-2".to_vec(), b"".to_vec(), b"3\n".to_vec()]);
    assert_eq!(split_fields(b""), vec![Vec::<u8>::new()]);
    assert_eq!(split_fields(b","), vec![Vec::<u8>::new(), Vec::new()]);
}

#[test]
fn join_after_split_gives_the_line() {
    let line = b"a,bc,,d".to_vec();
    let fields = split_fields(&line);
    assert_eq!(fields.join(&b','), line);
}

#[test]
fn six_readings_from_fields() {
    assert_eq!(
        Data::from_fields(&[1, 2, 3, 4, 5, 6, 7]),
        Ok(Data { x: 1, y: 2, z: 3, a: 4, b: 5, c: 6 })
    );
    assert_eq!(Data::from_fields(&[1.0f64, 2.0, 3.0, 4.0]), Err(FieldError::Missing(4)));
    assert_eq!(Data::<u8>::from_fields(&[]), Err(FieldError::Missing(0)));
}

#[test]
fn fallible_get() {
    assert_eq!(get_fallible(&[7, 8], 1), Ok(8));
    assert_eq!(get_fallible(&[7, 8], 2), Err(FieldError::Missing(2)));
}
