use bromlink::{Brom, BromError, CheckStatus, Echo, FixedRead, HwCode, Io, Operation, Step, WriteData};
use bromlink::Chain;

enum ExpectedIo<'a> {
    Read(&'a [u8]),
    Write(&'a [u8]),
}

fn validate<O: Operation>(
    expected: &[ExpectedIo<'_>],
    operation: &mut O,
) -> Result<O::Value, BromError> {
    let mut input: Option<Vec<u8>> = None;
    for (i, exp) in expected.iter().enumerate() {
        match operation.step(input.take()) {
            Step::Io(Io::ReadData(n)) => match exp {
                ExpectedIo::Read(data) => {
                    assert_eq!(data.len(), n, "unexpected read length; step {i}");
                    input = Some(data.to_vec());
                }
                ExpectedIo::Write(_) => panic!("expected a write, got a read; step {i}"),
            },
            Step::Io(Io::WriteData(w)) => match exp {
                ExpectedIo::Write(data) => {
                    assert_eq!(*data, &w[..], "mismatched write; step {i}");
                }
                ExpectedIo::Read(_) => panic!("expected a read, got a write; step {i}"),
            },
            Step::Done(_) => panic!("unexpectedly done; step {i}"),
        }
    }
    match operation.step(input.take()) {
        Step::Done(r) => r,
        Step::Io(_) => panic!("expected the operation to be done"),
    }
}

fn expected_handshake() -> Vec<ExpectedIo<'static>> {
    vec![
        ExpectedIo::Write(&[0xa0]),
        ExpectedIo::Read(&[!0xa0]),
        ExpectedIo::Write(&[0x0a]),
        ExpectedIo::Read(&[!0x0a]),
        ExpectedIo::Write(&[0x50]),
        ExpectedIo::Read(&[!0x50]),
        ExpectedIo::Write(&[0x05]),
        ExpectedIo::Read(&[!0x05]),
    ]
}

#[test]
fn handshake() {
    let mut handshake = Brom::handshake(0x1234);
    validate(&expected_handshake(), &mut handshake).unwrap();
}

#[test]
fn hwcode() {
    let hwcode_steps = [
        ExpectedIo::Write(&[0xfd]),
        ExpectedIo::Read(&[0xfd]),
        ExpectedIo::Read(&[0x81, 0x88, 0x2, 0x3]),
    ];
    let mut handshake = Brom::handshake(0x1234);
    let p = validate(&expected_handshake(), &mut handshake).unwrap();
    let hwcode = validate(&hwcode_steps, &mut p.hwcode()).unwrap();
    assert_eq!(
        hwcode,
        HwCode {
            code: 0x8188,
            version: 0x0203
        }
    );
}

#[test]
fn send_da() {
    const DATA: &[u8] = &[0x1, 0x2, 0x3, 0x4];
    let send_da_steps = [
        // cmd
        ExpectedIo::Write(&[0xd7]),
        ExpectedIo::Read(&[0xd7]),
        // address
        ExpectedIo::Write(&[0x00, 0x00, 0x12, 0x34]),
        ExpectedIo::Read(&[0x00, 0x00, 0x12, 0x34]),
        // length
        ExpectedIo::Write(&[0x00, 0x00, 0x00, 0x04]),
        ExpectedIo::Read(&[0x00, 0x00, 0x00, 0x04]),
        // (no) signature
        ExpectedIo::Write(&[0x00, 0x00, 0x00, 0x00]),
        ExpectedIo::Read(&[0x00, 0x00, 0x00, 0x00]),
        // status
        ExpectedIo::Read(&[0x00, 0x00]),
        // data
        ExpectedIo::Write(DATA),
        // checksum reported by the device
        ExpectedIo::Read(&[0x0, 0x0]),
        // status
        ExpectedIo::Read(&[0x0, 0x0]),
    ];
    let mut handshake = Brom::handshake(0x1234);
    let p = validate(&expected_handshake(), &mut handshake).unwrap();
    validate(&send_da_steps, &mut p.send_da(DATA.to_vec())).unwrap();
}

#[test]
fn jump_da64() {
    let jump_da64_steps = [
        // cmd
        ExpectedIo::Write(&[0xde]),
        ExpectedIo::Read(&[0xde]),
        // address
        ExpectedIo::Write(&[0x00, 0x00, 0x12, 0x34]),
        ExpectedIo::Read(&[0x00, 0x00, 0x12, 0x34]),
        // Confirm?
        ExpectedIo::Write(&[0x01]),
        ExpectedIo::Read(&[0x01]),
        // status
        ExpectedIo::Read(&[0x00, 0x00]),
        // execute 64 bit?
        ExpectedIo::Write(&[0x64]),
        ExpectedIo::Read(&[0x64]),
        // status
        ExpectedIo::Read(&[0x00, 0x00]),
    ];
    let mut handshake = Brom::handshake(0x1234);
    let p = validate(&expected_handshake(), &mut handshake).unwrap();
    validate(&jump_da64_steps, &mut p.jump_da64()).unwrap();
}

#[test]
fn fixed_read_returns_fed_bytes() {
    let mut op = FixedRead::new(3);
    let r = validate(&[ExpectedIo::Read(&[9, 8, 7])], &mut op).unwrap();
    assert_eq!(r, vec![9, 8, 7]);
}

#[test]
fn fixed_read_empty() {
    let mut op = FixedRead::new(0);
    let r = validate(&[ExpectedIo::Read(&[])], &mut op).unwrap();
    assert_eq!(r, Vec::<u8>::new());
}

#[test]
fn write_data_completes_after_write() {
    let mut op = WriteData::new(vec![1, 2, 3]);
    validate(&[ExpectedIo::Write(&[1, 2, 3])], &mut op).unwrap();
}

#[test]
fn echo_accepts_identical_reply() {
    let mut op = Echo::new(vec![0xaa, 0xbb]);
    validate(
        &[ExpectedIo::Write(&[0xaa, 0xbb]), ExpectedIo::Read(&[0xaa, 0xbb])],
        &mut op,
    )
    .unwrap();
}

#[test]
fn echo_rejects_different_reply() {
    let mut op = Echo::new(vec![0xaa, 0xbb]);
    let r = validate(
        &[ExpectedIo::Write(&[0xaa, 0xbb]), ExpectedIo::Read(&[0xaa, 0xbc])],
        &mut op,
    );
    assert!(matches!(r, Err(BromError::IncorrectEchoResponse)));
}

#[test]
fn check_status_accepts_zero() {
    let mut op = CheckStatus::new();
    validate(&[ExpectedIo::Read(&[0, 0])], &mut op).unwrap();
}

#[test]
fn check_status_reports_nonzero_code() {
    let mut op = CheckStatus::default();
    let r = validate(&[ExpectedIo::Read(&[0x00, 0x05])], &mut op);
    assert!(matches!(r, Err(BromError::UnexpectedStatus(5))));
}

#[test]
fn check_status_code_is_big_endian() {
    let mut op = CheckStatus::new();
    let r = validate(&[ExpectedIo::Read(&[0x12, 0x34])], &mut op);
    assert!(matches!(r, Err(BromError::UnexpectedStatus(0x1234))));
}

#[test]
fn handshake_stops_at_first_bad_byte() {
    let mut op = Brom::handshake(0x1234);
    let r = validate(
        &[ExpectedIo::Write(&[0xa0]), ExpectedIo::Read(&[0x00])],
        &mut op,
    );
    assert!(matches!(r, Err(BromError::IncorrectHandshakeResponse)));
}

#[test]
fn handshake_stops_at_third_bad_byte() {
    let mut op = Brom::handshake(0x1234);
    let r = validate(
        &[
            ExpectedIo::Write(&[0xa0]),
            ExpectedIo::Read(&[!0xa0]),
            ExpectedIo::Write(&[0x0a]),
            ExpectedIo::Read(&[!0x0a]),
            ExpectedIo::Write(&[0x50]),
            ExpectedIo::Read(&[0x50]),
        ],
        &mut op,
    );
    assert!(matches!(r, Err(BromError::IncorrectHandshakeResponse)));
}

#[test]
fn chain_short_circuits_on_failure() {
    // The failing echo ends the chain: no IO request of the status check
    // (a two-byte read) is ever issued.
    let mut op = Chain::new(Echo::new(vec![7]), CheckStatus::new());
    let r = validate(
        &[ExpectedIo::Write(&[7]), ExpectedIo::Read(&[8])],
        &mut op,
    );
    assert!(matches!(r, Err(BromError::IncorrectEchoResponse)));
}

#[test]
fn chain_runs_both_operations_in_order() {
    let mut op = Chain::new(Echo::new(vec![7]), CheckStatus::new());
    validate(
        &[
            ExpectedIo::Write(&[7]),
            ExpectedIo::Read(&[7]),
            ExpectedIo::Read(&[0, 0]),
        ],
        &mut op,
    )
    .unwrap();
}

#[test]
fn send_da_fails_before_payload_on_bad_echo() {
    let mut op = Brom::handshake(0x1234);
    let p = validate(&expected_handshake(), &mut op).unwrap();
    let r = validate(
        &[
            ExpectedIo::Write(&[0xd7]),
            ExpectedIo::Read(&[0xd7]),
            ExpectedIo::Write(&[0x00, 0x00, 0x12, 0x34]),
            ExpectedIo::Read(&[0x00, 0x00, 0x12, 0x35]),
        ],
        &mut p.send_da(vec![1, 2, 3, 4]),
    );
    assert!(matches!(r, Err(BromError::IncorrectEchoResponse)));
}

#[test]
fn jump_da64_stops_if_first_status_fails() {
    let mut op = Brom::handshake(0x1234);
    let p = validate(&expected_handshake(), &mut op).unwrap();
    let r = validate(
        &[
            ExpectedIo::Write(&[0xde]),
            ExpectedIo::Read(&[0xde]),
            ExpectedIo::Write(&[0x00, 0x00, 0x12, 0x34]),
            ExpectedIo::Read(&[0x00, 0x00, 0x12, 0x34]),
            ExpectedIo::Write(&[0x01]),
            ExpectedIo::Read(&[0x01]),
            ExpectedIo::Read(&[0x00, 0x01]),
        ],
        &mut p.jump_da64(),
    );
    assert!(matches!(r, Err(BromError::UnexpectedStatus(1))));
}

#[test]
fn jump_da64_encodes_full_address_big_endian() {
    let mut op = Brom::handshake(0xa1b2_c3d4);
    let p = validate(&expected_handshake(), &mut op).unwrap();
    validate(
        &[
            ExpectedIo::Write(&[0xde]),
            ExpectedIo::Read(&[0xde]),
            ExpectedIo::Write(&[0xa1, 0xb2, 0xc3, 0xd4]),
            ExpectedIo::Read(&[0xa1, 0xb2, 0xc3, 0xd4]),
            ExpectedIo::Write(&[0x01]),
            ExpectedIo::Read(&[0x01]),
            ExpectedIo::Read(&[0x00, 0x00]),
            ExpectedIo::Write(&[0x64]),
            ExpectedIo::Read(&[0x64]),
            ExpectedIo::Read(&[0x00, 0x00]),
        ],
        &mut p.jump_da64(),
    )
    .unwrap();
}
