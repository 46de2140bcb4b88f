use p2p_frame::error::P2pErrorCode;
use p2p_frame::sn::protocol::common::{Package, PackageCmdCode, PackageHeader};
use p2p_frame::sn::protocol::message::InterSnCommandCode;
use p2p_frame::sn::service::peer_connection::read_pkg_header;
use p2p_frame::sn::protocol::receipt::{
    ReceiptWithSignature, SnServiceGrade, SnServiceReceipt, SnServiceReceiptVersion,
    SN_SERVICE_RECEIPT_LEN,
};

const EPOCH: u64 = 11_644_473_600_000_000;

#[test]
fn package_cmd_codes_round_trip_through_their_values() {
    let all = [
        PackageCmdCode::SnCall,
        PackageCmdCode::SnCallResp,
        PackageCmdCode::SnCalled,
        PackageCmdCode::SnCalledResp,
        PackageCmdCode::ReportSn,
        PackageCmdCode::ReportSnResp,
        PackageCmdCode::SnQuery,
        PackageCmdCode::SnQueryResp,
    ];
    for (i, c) in all.iter().enumerate() {
        assert_eq!(c.code(), 0x20 + i as u8);
        assert_eq!(PackageCmdCode::try_from(c.code()).unwrap(), *c);
        assert!(c.is_sn());
    }
    assert_eq!(
        PackageCmdCode::try_from(0x28).err().unwrap().code(),
        P2pErrorCode::InvalidParam
    );
    assert!(PackageCmdCode::try_from(0x1f).is_err());
}

#[test]
fn package_header_encodes_length_big_endian() {
    let h = PackageHeader::new(1, PackageCmdCode::ReportSn, 0x0102);
    let bytes = h.encode();
    assert_eq!(bytes, vec![0x01, 0x02, 0x01, 0x24]);
    assert_eq!(PackageHeader::raw_bytes(), 4);
    let (back, n) = PackageHeader::decode(&bytes).unwrap();
    assert_eq!(n, 4);
    assert_eq!(back.pkg_len(), 0x0102);
    assert_eq!(back.version(), 1);
    assert_eq!(back.cmd_code().unwrap(), PackageCmdCode::ReportSn);
}

#[test]
fn package_header_decode_errors() {
    assert_eq!(
        PackageHeader::decode(&[0, 1, 2]).err().unwrap().code(),
        P2pErrorCode::OutOfLimit
    );
    let (h, _) = PackageHeader::decode(&[0, 5, 1, 0x99, 0xff]).unwrap();
    assert_eq!(h.pkg_len(), 5);
    assert_eq!(h.cmd_code().err().unwrap().code(), P2pErrorCode::InvalidParam);
}

#[test]
fn package_header_set_len() {
    let mut h = PackageHeader::new(0, PackageCmdCode::SnQuery, 1);
    h.set_pkg_len(300);
    assert_eq!(h.pkg_len(), 300);
    assert_eq!(h.encode(), vec![0x01, 0x2c, 0x00, 0x26]);
}

#[test]
fn package_records_body_length_in_sixteen_bits() {
    let p = Package::new(2, PackageCmdCode::SnCall, vec![1u8, 2, 3], 3);
    assert_eq!(p.cmd_code().unwrap(), PackageCmdCode::SnCall);
    assert_eq!(p.body(), &vec![1u8, 2, 3]);
    let big = Package::new(2, PackageCmdCode::SnCall, (), 0x1_0005);
    assert_eq!(big.cmd_code().unwrap(), PackageCmdCode::SnCall);
}

#[test]
fn service_grade_accepts_passable_and_better() {
    assert!(!SnServiceGrade::Unrated.is_accept());
    assert!(SnServiceGrade::Discard.is_refuse());
    assert!(SnServiceGrade::Passable.is_accept());
    assert!(SnServiceGrade::Wonderfull.is_accept());
    assert_eq!(SnServiceGrade::try_from(4).unwrap(), SnServiceGrade::Fine);
    assert_eq!(SnServiceGrade::try_from(6).err().unwrap().code(), P2pErrorCode::InvalidParam);
    assert_eq!(SnServiceReceiptVersion::try_from(1).unwrap(), SnServiceReceiptVersion::Current);
    assert_eq!(SnServiceReceiptVersion::try_from(2).err().unwrap().code(), P2pErrorCode::UnSupport);
}

fn sample_receipt() -> SnServiceReceipt {
    SnServiceReceipt {
        version: SnServiceReceiptVersion::Current,
        grade: SnServiceGrade::Normal,
        rto: 0x0203,
        duration_ms: 0x0405_0607,
        start_time: EPOCH + 5,
        ping_count: 1,
        ping_resp_count: 2,
        called_count: 3,
        call_peer_count: 4,
        connect_peer_count: 5,
        call_delay: 0x0a0b,
    }
}

#[test]
fn receipt_encodes_to_fixed_layout_and_reads_back() {
    let r = sample_receipt();
    let bytes = r.encode();
    assert_eq!(bytes.len(), SN_SERVICE_RECEIPT_LEN);
    assert_eq!(r.raw_measure(), 38);
    assert_eq!(&bytes[0..8], &[1, 3, 0x02, 0x03, 0x04, 0x05, 0x06, 0x07]);
    assert_eq!(&bytes[8..16], &(EPOCH + 5).to_be_bytes());
    assert_eq!(&bytes[36..38], &[0x0a, 0x0b]);
    let (back, n) = SnServiceReceipt::decode(&bytes).unwrap();
    assert_eq!(n, 38);
    assert_eq!(back, r);
}

#[test]
fn receipt_duration_is_cut_to_32_bits() {
    let mut r = sample_receipt();
    r.duration_ms = 0x1_0000_0001;
    let (back, _) = SnServiceReceipt::decode(&r.encode()).unwrap();
    assert_eq!(back.duration_ms, 1);
}

#[test]
fn receipt_decode_errors_in_field_order() {
    let good = sample_receipt().encode();
    assert_eq!(SnServiceReceipt::decode(&[]).err().unwrap().code(), P2pErrorCode::OutOfLimit);
    let mut bad_version = good.clone();
    bad_version[0] = 7;
    assert_eq!(SnServiceReceipt::decode(&bad_version).err().unwrap().code(), P2pErrorCode::Failed);
    let mut bad_grade = good.clone();
    bad_grade[1] = 9;
    assert_eq!(SnServiceReceipt::decode(&bad_grade).err().unwrap().code(), P2pErrorCode::Failed);
    assert_eq!(SnServiceReceipt::decode(&good[..10]).err().unwrap().code(), P2pErrorCode::OutOfLimit);
    let mut early = sample_receipt();
    early.start_time = EPOCH - 1;
    let early_bytes = early.encode();
    assert_eq!(SnServiceReceipt::decode(&early_bytes).err().unwrap().code(), P2pErrorCode::InvalidData);
    assert_eq!(SnServiceReceipt::decode(&good[..37]).err().unwrap().code(), P2pErrorCode::OutOfLimit);
}

#[test]
fn receipt_default_starts_at_the_unix_epoch() {
    let d = SnServiceReceipt::default();
    assert_eq!(d.start_time, EPOCH);
    assert_eq!(d.version, SnServiceReceiptVersion::Invalid);
    assert_eq!(d.grade, SnServiceGrade::Unrated);
    let (back, _) = SnServiceReceipt::decode(&d.encode()).unwrap();
    assert_eq!(back, d);
}

#[test]
fn receipt_with_signature_hands_back_its_parts() {
    let r = sample_receipt();
    let rs = ReceiptWithSignature::from_parts(r, vec![9, 8, 7]);
    assert_eq!(*rs.receipt(), r);
    assert_eq!(rs.signature(), &vec![9u8, 8, 7]);
}

#[test]
fn inter_sn_command_codes() {
    assert_eq!(InterSnCommandCode::RelayRendezvousV2.code(), 0x86);
    assert_eq!(InterSnCommandCode::try_from(0x83).unwrap(), InterSnCommandCode::QueryDetail);
    assert_eq!(InterSnCommandCode::try_from(0x85).err().unwrap().code(), P2pErrorCode::InvalidParam);
    let bytes = InterSnCommandCode::Heartbeat.encode();
    assert_eq!(bytes, vec![0x80]);
    assert_eq!(InterSnCommandCode::decode(&bytes).unwrap(), (InterSnCommandCode::Heartbeat, 1));
    assert_eq!(InterSnCommandCode::decode(&[]).err().unwrap().code(), P2pErrorCode::OutOfLimit);
    assert_eq!(InterSnCommandCode::decode(&[0x85]).err().unwrap().code(), P2pErrorCode::Failed);
}

#[test]
fn package_header_read_off_a_connection() {
    let (code, len) = read_pkg_header(&[0x01, 0x02, 0x00, 0x24]).unwrap();
    assert_eq!(code, PackageCmdCode::ReportSn);
    assert_eq!(len, 0x0102);
    assert_eq!(read_pkg_header(&[0x01, 0x02, 0x00]).unwrap_err().code(), P2pErrorCode::RawCodecError);
    assert_eq!(read_pkg_header(&[0x00, 0x02, 0x00, 0x30]).unwrap_err().code(), P2pErrorCode::InvalidParam);
}
