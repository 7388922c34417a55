use ipp_proto::error::ParseError;
use ipp_proto::header::{IppHeader, IppVersion};
use ipp_proto::operation::{Operation, StatusCode};

#[test]
fn header_encodes_to_eight_big_endian_bytes() {
    let h = IppHeader::new(IppVersion::v1_1(), 0x000b, 0x0102_0304);
    assert_eq!(h.to_bytes(), vec![1, 1, 0x00, 0x0b, 0x01, 0x02, 0x03, 0x04]);
}

#[test]
fn header_decodes_field_by_field() {
    let h = IppHeader::from_bytes(&[2, 0, 0x40, 0x02, 0xff, 0xfe, 0xfd, 0xfc]).unwrap();
    assert_eq!(h.version, IppVersion::v2_0());
    assert_eq!(h.code, 0x4002);
    assert_eq!(h.request_id, 0xfffe_fdfc);
}

#[test]
fn header_ignores_bytes_behind_it() {
    let h = IppHeader::from_bytes(&[1, 0, 0, 2, 0, 0, 0, 7, 9, 9, 9]).unwrap();
    assert_eq!(h, IppHeader::new(IppVersion::v1_0(), 2, 7));
}

#[test]
fn header_shorter_than_eight_bytes_is_truncated() {
    assert_eq!(IppHeader::from_bytes(&[]), Err(ParseError::TruncatedHeader));
    assert_eq!(IppHeader::from_bytes(&[1, 1, 0, 2, 0, 0, 0]), Err(ParseError::TruncatedHeader));
}

#[test]
fn header_keeps_codes_it_does_not_know() {
    let h = IppHeader::new(IppVersion::new(9, 7), 0xbeef, 0);
    let back = IppHeader::from_bytes(&h.to_bytes()).unwrap();
    assert_eq!(back, h);
    assert_eq!(back.code, 0xbeef);
    assert_eq!(back.version.major, 9);
    assert_eq!(back.version.minor, 7);
}

#[test]
fn header_round_trips_extreme_values() {
    for (code, id) in [(0u16, 0u32), (0xffff, 0xffff_ffff), (0x0100, 0x0001_0000), (255, 256)] {
        let h = IppHeader::new(IppVersion::v2_2(), code, id);
        assert_eq!(IppHeader::from_bytes(&h.to_bytes()), Ok(h));
    }
}

#[test]
fn versions_have_their_numbers() {
    assert_eq!(IppVersion::v1_0(), IppVersion { major: 1, minor: 0 });
    assert_eq!(IppVersion::v1_1(), IppVersion { major: 1, minor: 1 });
    assert_eq!(IppVersion::v2_0(), IppVersion { major: 2, minor: 0 });
    assert_eq!(IppVersion::v2_1(), IppVersion { major: 2, minor: 1 });
    assert_eq!(IppVersion::v2_2(), IppVersion { major: 2, minor: 2 });
}

#[test]
fn operations_have_their_codes() {
    assert_eq!(Operation::PrintJob.code(), 0x0002);
    assert_eq!(Operation::CancelJob.code(), 0x0008);
    assert_eq!(Operation::GetPrinterAttributes.code(), 0x000b);
    assert_eq!(Operation::PausePrinter.code(), 0x0010);
    assert_eq!(Operation::PurgeJobs.code(), 0x0012);
    assert_eq!(Operation::CupsGetPrinters.code(), 0x4002);
    assert_eq!(Operation::CupsDeletePrinter.code(), 0x4004);
}

#[test]
fn statuses_have_their_codes() {
    assert_eq!(StatusCode::SuccessfulOk.code(), 0x0000);
    assert_eq!(StatusCode::ClientErrorBadRequest.code(), 0x0400);
    assert_eq!(StatusCode::ClientErrorNotFound.code(), 0x0406);
    assert_eq!(StatusCode::ClientErrorConflictingAttributes.code(), 0x040e);
    assert_eq!(StatusCode::ServerErrorInternalError.code(), 0x0500);
    assert_eq!(StatusCode::ServerErrorJobCanceled.code(), 0x0508);
}
