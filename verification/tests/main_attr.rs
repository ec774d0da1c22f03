use hooch::main_attr::{
    main_attr_workers, parse_workers_attr, MainAttrError, WorkersAttrError, DEFAULT_NUM_WORKERS,
};

#[test]
fn no_argument_uses_default_workers() {
    assert_eq!(main_attr_workers(b"main", true, b""), Ok(1));
    assert_eq!(main_attr_workers(b"main", true, b"  \n"), Ok(DEFAULT_NUM_WORKERS));
}

#[test]
fn workers_argument_sets_count() {
    assert_eq!(main_attr_workers(b"main", true, b"workers = 4"), Ok(4));
    assert_eq!(parse_workers_attr(b"workers=1_000"), Ok(1000));
    assert_eq!(parse_workers_attr(b"  workers\t=\n 12  "), Ok(12));
    assert_eq!(parse_workers_attr(b"workers = 0"), Ok(0));
}

#[test]
fn only_main_is_accepted() {
    assert_eq!(main_attr_workers(b"start", true, b""), Err(MainAttrError::NotMain));
    assert_eq!(main_attr_workers(b"mains", true, b"workers = 2"), Err(MainAttrError::NotMain));
}

#[test]
fn main_must_be_async() {
    assert_eq!(main_attr_workers(b"main", false, b""), Err(MainAttrError::NotAsync));
    assert_eq!(
        main_attr_workers(b"main", false, b"workers = 3"),
        Err(MainAttrError::NotAsync)
    );
}

#[test]
fn argument_is_checked_before_async() {
    assert_eq!(
        main_attr_workers(b"main", false, b"threads = 4"),
        Err(MainAttrError::Attr(WorkersAttrError::NotWorkers))
    );
}

#[test]
fn wrong_name_is_refused() {
    assert_eq!(parse_workers_attr(b"threads = 4"), Err(WorkersAttrError::NotWorkers));
    assert_eq!(parse_workers_attr(b"worker = 4"), Err(WorkersAttrError::NotWorkers));
    assert_eq!(
        parse_workers_attr(b"threads = 99999999999999999999999 x"),
        Err(WorkersAttrError::NotWorkers)
    );
}

#[test]
fn number_too_large_is_refused() {
    assert_eq!(
        parse_workers_attr(b"workers = 99999999999999999999999"),
        Err(WorkersAttrError::TooLarge)
    );
    assert_eq!(
        parse_workers_attr(b"workers = 18446744073709551615"),
        Ok(18446744073709551615usize)
    );
    assert_eq!(
        parse_workers_attr(b"workers = 18446744073709551616"),
        Err(WorkersAttrError::TooLarge)
    );
}

#[test]
fn malformed_arguments_are_refused() {
    assert_eq!(parse_workers_attr(b"workers 4"), Err(WorkersAttrError::Malformed));
    assert_eq!(parse_workers_attr(b"workers = "), Err(WorkersAttrError::Malformed));
    assert_eq!(parse_workers_attr(b"= 4"), Err(WorkersAttrError::Malformed));
    assert_eq!(parse_workers_attr(b"4 = workers"), Err(WorkersAttrError::Malformed));
    assert_eq!(parse_workers_attr(b"workers = 4 extra"), Err(WorkersAttrError::Malformed));
    assert_eq!(parse_workers_attr(b"workers = _4"), Err(WorkersAttrError::Malformed));
}

#[test]
fn suffixed_and_prefixed_literals_are_read() {
    assert_eq!(main_attr_workers(b"main", true, b"workers = 4usize"), Ok(4));
    assert_eq!(main_attr_workers(b"main", true, b"workers = 0x10"), Ok(16));
    assert_eq!(parse_workers_attr(b"workers = 0o17"), Ok(15));
    assert_eq!(parse_workers_attr(b"workers = 0b101"), Ok(5));
    assert_eq!(parse_workers_attr(b"workers = 0x1F"), Ok(31));
    assert_eq!(parse_workers_attr(b"workers = 0x1_0u8"), Ok(16));
    assert_eq!(parse_workers_attr(b"workers = 4extra"), Ok(4));
    assert_eq!(parse_workers_attr(b"workers = 0123"), Ok(123));
}

#[test]
fn invalid_integer_literals_are_refused() {
    assert_eq!(parse_workers_attr(b"workers = 4f32"), Err(WorkersAttrError::Malformed));
    assert_eq!(parse_workers_attr(b"workers = 1e5"), Err(WorkersAttrError::Malformed));
    assert_eq!(parse_workers_attr(b"workers = 0b102"), Err(WorkersAttrError::Malformed));
    assert_eq!(parse_workers_attr(b"workers = 0o8"), Err(WorkersAttrError::Malformed));
    assert_eq!(parse_workers_attr(b"workers = 0x"), Err(WorkersAttrError::Malformed));
    assert_eq!(parse_workers_attr(b"workers = 0xg"), Err(WorkersAttrError::Malformed));
    assert_eq!(parse_workers_attr(b"threads = 0x"), Err(WorkersAttrError::Malformed));
    assert_eq!(
        parse_workers_attr(b"workers = 0x1_0000_0000_0000_0000"),
        Err(WorkersAttrError::TooLarge)
    );
}

#[test]
fn hex_literal_ending_like_a_float_suffix_is_an_integer() {
    assert_eq!(parse_workers_attr(b"workers = 0x1f32"), Ok(7986));
    assert_eq!(parse_workers_attr(b"workers = 0x1f64"), Ok(8036));
    assert_eq!(parse_workers_attr(b"workers = 1f64"), Err(WorkersAttrError::Malformed));
}

#[test]
fn refusals_carry_their_messages() {
    assert_eq!(
        MainAttrError::NotMain.message(),
        "hooch_main can only be used on 'main'"
    );
    assert_eq!(MainAttrError::NotAsync.message(), "main must be async");
    assert_eq!(
        MainAttrError::Attr(WorkersAttrError::NotWorkers).message(),
        "Expected `workers` argument"
    );
    assert_eq!(
        WorkersAttrError::TooLarge.message(),
        "number too large to fit in target type"
    );
    assert_eq!(
        main_attr_workers(b"start", true, b"").unwrap_err().message(),
        "hooch_main can only be used on 'main'"
    );
}
