use snowpack::packet_state::{
    PacketBuildError, PacketBuilder, PacketKind, PacketReadError, PacketReader, KIND_SHIFT,
    MAX_CIPHERTEXT_SIZE, MAX_PACKET_SIZE, MAX_RAW_PACKET_SIZE, TYPE_MASK,
};


// ── PacketBuilder ─────────────────────────────────────────────────────────

#[test]
fn builder_single_packet_message() {
    let mut b = PacketBuilder::new();
    b.prepare(1).unwrap();
    let raw = b.pack(b"hello", true).unwrap();
    let header = u16::from_be_bytes([raw[0], raw[1]]);
    assert_eq!((header >> KIND_SHIFT) as u8, PacketKind::Sole.to_u8());
    assert_eq!(header & TYPE_MASK, 1);
    assert_eq!(&raw[2..], b"hello");
}

#[test]
fn builder_multi_packet_message() {
    let mut b = PacketBuilder::new();
    b.prepare(2).unwrap();

    let first = b.pack(b"part1", false).unwrap();
    let h0 = u16::from_be_bytes([first[0], first[1]]);
    assert_eq!((h0 >> KIND_SHIFT) as u8, PacketKind::First.to_u8());
    assert_eq!(h0 & TYPE_MASK, 2);
    assert_eq!(&first[2..], b"part1");

    let mid = b.pack(b"part2", false).unwrap();
    let h1 = u16::from_be_bytes([mid[0], mid[1]]);
    assert_eq!((h1 >> KIND_SHIFT) as u8, PacketKind::Mid.to_u8());

    let last = b.pack(b"part3", true).unwrap();
    let h2 = u16::from_be_bytes([last[0], last[1]]);
    assert_eq!((h2 >> KIND_SHIFT) as u8, PacketKind::Last.to_u8());
    assert_eq!(&last[2..], b"part3");
}

#[test]
fn builder_msg_type_too_large_is_error() {
    let mut b = PacketBuilder::new();
    assert!(matches!(b.prepare(0x1000), Err(PacketBuildError::MessageTypeTooLarge(0x1000))));
    assert!(matches!(b.prepare(0xFFFF), Err(PacketBuildError::MessageTypeTooLarge(0xFFFF))));
}

#[test]
fn builder_max_msg_type_is_accepted() {
    let mut b = PacketBuilder::new();
    b.prepare(0x0FFF).unwrap();
    let raw = b.pack(b"x", true).unwrap();
    let header = u16::from_be_bytes([raw[0], raw[1]]);
    assert_eq!(header & TYPE_MASK, 0x0FFF);
}

#[test]
fn builder_reuse_after_message_complete() {
    let mut b = PacketBuilder::new();
    b.prepare(1).unwrap();
    b.pack(b"a", true).unwrap();
    b.prepare(2).unwrap();
    let raw = b.pack(b"b", true).unwrap();
    let header = u16::from_be_bytes([raw[0], raw[1]]);
    assert_eq!(header & TYPE_MASK, 2);
}

#[test]
fn builder_prepare_while_in_progress_is_error() {
    let mut b = PacketBuilder::new();
    b.prepare(1).unwrap();
    assert!(matches!(b.prepare(2), Err(PacketBuildError::MessageAlreadyInProgress)));
}

#[test]
fn builder_pack_without_prepare_is_error() {
    let mut b = PacketBuilder::new();
    assert!(matches!(b.pack(b"data", true), Err(PacketBuildError::NoMessageInProgress)));
}

#[test]
fn builder_empty_payload_is_allowed() {
    let mut b = PacketBuilder::new();
    b.prepare(0).unwrap();
    let raw = b.pack(b"", true).unwrap();
    assert_eq!(raw.len(), 2); // header only
}

#[test]
fn builder_abort_mid_message() {
    let mut b = PacketBuilder::new();
    b.prepare(5).unwrap();
    b.pack(b"first", false).unwrap();
    let abort_pkt = b.abort().expect("should produce abort packet");
    let header = u16::from_be_bytes([abort_pkt[0], abort_pkt[1]]);
    assert_eq!((header >> KIND_SHIFT) as u8, PacketKind::Abort.to_u8());
    assert_eq!(header & TYPE_MASK, 5);
    assert_eq!(abort_pkt.len(), 2); // no payload

    // builder is reset — can start a new message
    b.prepare(6).unwrap();
    let raw = b.pack(b"new", true).unwrap();
    let h = u16::from_be_bytes([raw[0], raw[1]]);
    assert_eq!((h >> KIND_SHIFT) as u8, PacketKind::Sole.to_u8());
}

#[test]
fn builder_abort_without_message_is_none() {
    let mut b = PacketBuilder::new();
    assert!(b.abort().is_none());
}

#[test]
fn builder_abort_after_sole_is_none() {
    let mut b = PacketBuilder::new();
    b.prepare(1).unwrap();
    b.pack(b"done", true).unwrap();
    assert!(b.abort().is_none());
}

// ── PacketReader ──────────────────────────────────────────────────────────

fn make_raw(kind: PacketKind, msg_type: u16, payload: &[u8]) -> Vec<u8> {
    let header = ((kind.to_u8() as u16) << KIND_SHIFT) | (msg_type & TYPE_MASK);
    let mut v = header.to_be_bytes().to_vec();
    v.extend_from_slice(payload);
    v
}

#[test]
fn reader_sole_packet() {
    let mut r = PacketReader::new();
    let raw = make_raw(PacketKind::Sole, 3, b"data");
    let pkt = r.read(&raw).unwrap();
    assert_eq!(pkt.kind, PacketKind::Sole);
    assert_eq!(pkt.msg_type, 3);
}

#[test]
fn reader_multi_packet_message() {
    let mut r = PacketReader::new();

    let p1 = r.read(&make_raw(PacketKind::First, 5, b"a")).unwrap();
    assert_eq!(p1.kind, PacketKind::First);
    assert!(r.in_progress);

    let p2 = r.read(&make_raw(PacketKind::Mid, 5, b"b")).unwrap();
    assert_eq!(p2.kind, PacketKind::Mid);

    let p3 = r.read(&make_raw(PacketKind::Last, 5, b"c")).unwrap();
    assert_eq!(p3.kind, PacketKind::Last);
    assert!(!r.in_progress);
}

#[test]
fn reader_abort_mid_message() {
    let mut r = PacketReader::new();
    r.read(&make_raw(PacketKind::First, 7, b"start")).unwrap();
    let pkt = r.read(&make_raw(PacketKind::Abort, 7, b"")).unwrap();
    assert_eq!(pkt.kind, PacketKind::Abort);
    assert!(!r.in_progress);

    // can receive a new message after abort
    let pkt2 = r.read(&make_raw(PacketKind::Sole, 8, b"fresh")).unwrap();
    assert_eq!(pkt2.kind, PacketKind::Sole);
}

#[test]
fn reader_reuse_after_message_complete() {
    let mut r = PacketReader::new();
    r.read(&make_raw(PacketKind::Sole, 1, b"")).unwrap();
    let pkt = r.read(&make_raw(PacketKind::Sole, 2, b"")).unwrap();
    assert_eq!(pkt.msg_type, 2);
}

#[test]
fn reader_too_short_is_error() {
    let mut r = PacketReader::new();
    assert_eq!(r.read(&[0x00]), Err(PacketReadError::PacketTooShort));
    assert_eq!(r.read(&[]), Err(PacketReadError::PacketTooShort));
}

#[test]
fn reader_unknown_kind_is_error() {
    let mut r = PacketReader::new();
    // kind=5 (reserved) in top nibble
    let raw = [0x50, 0x01];
    assert_eq!(r.read(&raw), Err(PacketReadError::UnknownKind(5)));
}

#[test]
fn reader_unexpected_message_start_is_error() {
    let mut r = PacketReader::new();
    r.read(&make_raw(PacketKind::First, 1, b"")).unwrap();
    let err = r.read(&make_raw(PacketKind::First, 2, b"")).unwrap_err();
    assert_eq!(err, PacketReadError::UnexpectedMessageStart { from: 1, to: 2 });
}

#[test]
fn reader_sole_mid_message_is_error() {
    let mut r = PacketReader::new();
    r.read(&make_raw(PacketKind::First, 1, b"")).unwrap();
    let err = r.read(&make_raw(PacketKind::Sole, 1, b"")).unwrap_err();
    assert_eq!(err, PacketReadError::UnexpectedMessageStart { from: 1, to: 1 });
}

#[test]
fn reader_missing_message_start_is_error() {
    let mut r = PacketReader::new();
    let err = r.read(&make_raw(PacketKind::Mid, 3, b"")).unwrap_err();
    assert_eq!(err, PacketReadError::MissingMessageStart { msg_type: 3 });
}

#[test]
fn reader_last_without_start_is_error() {
    let mut r = PacketReader::new();
    let err = r.read(&make_raw(PacketKind::Last, 3, b"")).unwrap_err();
    assert_eq!(err, PacketReadError::MissingMessageStart { msg_type: 3 });
}

#[test]
fn reader_abort_without_start_is_error() {
    let mut r = PacketReader::new();
    let err = r.read(&make_raw(PacketKind::Abort, 3, b"")).unwrap_err();
    assert_eq!(err, PacketReadError::MissingMessageStart { msg_type: 3 });
}

#[test]
fn reader_message_type_change_is_error() {
    let mut r = PacketReader::new();
    r.read(&make_raw(PacketKind::First, 4, b"")).unwrap();
    let err = r.read(&make_raw(PacketKind::Mid, 5, b"")).unwrap_err();
    assert_eq!(err, PacketReadError::MessageTypeChange { from: 4, to: 5 });
}

#[test]
fn reader_empty_payload_is_allowed() {
    let mut r = PacketReader::new();
    let raw = make_raw(PacketKind::Sole, 0, b"");
    let pkt = r.read(&raw).unwrap();
    assert!(matches!(pkt.kind, PacketKind::Sole));
}

// ── Round-trips ───────────────────────────────────────────────────────────

#[test]
fn roundtrip_single_packet() {
    let mut b = PacketBuilder::new();
    let mut r = PacketReader::new();
    b.prepare(10).unwrap();
    let raw = b.pack(b"roundtrip", true).unwrap().to_owned();
    let pkt = r.read(&raw).unwrap();
    assert_eq!(pkt.kind, PacketKind::Sole);
    assert_eq!(pkt.msg_type, 10);
    assert_eq!(&raw[2..], b"roundtrip");
}

#[test]
fn roundtrip_multi_packet() {
    let mut b = PacketBuilder::new();
    let mut r = PacketReader::new();
    b.prepare(7).unwrap();
    let p1 = b.pack(b"foo", false).unwrap().to_owned();
    let p2 = b.pack(b"bar", true).unwrap().to_owned();
    let h1 = r.read(&p1).unwrap();
    assert_eq!(h1.kind, PacketKind::First);
    assert_eq!(&p1[2..], b"foo");
    let h2 = r.read(&p2).unwrap();
    assert_eq!(h2.kind, PacketKind::Last);
    assert_eq!(&p2[2..], b"bar");
}

#[test]
fn roundtrip_abort() {
    let mut b = PacketBuilder::new();
    let mut r = PacketReader::new();
    b.prepare(3).unwrap();
    b.pack(b"start", false).unwrap();
    let abort_raw = b.abort().unwrap().to_owned();
    let pkt = r.read(&make_raw(PacketKind::First, 3, b"start")).unwrap();
    assert_eq!(pkt.kind, PacketKind::First);
    let abort_pkt = r.read(&abort_raw).unwrap();
    assert_eq!(abort_pkt.kind, PacketKind::Abort);
    assert_eq!(abort_pkt.msg_type, 3);
}

#[test]
fn all_kind_values_round_trip() {
    for kind in [PacketKind::Sole, PacketKind::First, PacketKind::Mid, PacketKind::Last, PacketKind::Abort] {
        assert_eq!(PacketKind::from_u8(kind.to_u8()).unwrap(), kind);
    }
}

#[test]
fn max_type_value_preserved() {
    let mut b = PacketBuilder::new();
    let mut r = PacketReader::new();
    b.prepare(0x0FFF).unwrap();
    let raw = b.pack(b"", true).unwrap().to_owned();
    let pkt = r.read(&raw).unwrap();
    assert_eq!(pkt.msg_type, 0x0FFF);
}

// ── Edges ─────────────────────────────────────────────────────────────────

#[test]
fn header_bytes_are_kind_nibble_and_type() {
    let mut b = PacketBuilder::new();
    b.prepare(0x0ABC).unwrap();
    assert_eq!(b.pack(&[9], false).unwrap(), &[0x1A, 0xBC, 9]);
    assert_eq!(b.pack(&[], false).unwrap(), &[0x2A, 0xBC]);
    assert_eq!(b.pack(&[7, 8], true).unwrap(), &[0x3A, 0xBC, 7, 8]);
    b.prepare(0x0ABC).unwrap();
    assert_eq!(b.abort().unwrap(), &[0x4A, 0xBC]);
}

#[test]
fn too_large_type_is_reported_before_a_message_in_progress() {
    let mut b = PacketBuilder::new();
    b.prepare(1).unwrap();
    assert_eq!(b.prepare(0x1000), Err(PacketBuildError::MessageTypeTooLarge(0x1000)));
    assert_eq!(b.prepare(3), Err(PacketBuildError::MessageAlreadyInProgress));
}

#[test]
fn every_reserved_kind_is_unknown() {
    for nibble in 5u8..16 {
        let mut r = PacketReader::new();
        assert_eq!(r.read(&[nibble << 4, 0]), Err(PacketReadError::UnknownKind(nibble)));
        assert_eq!(PacketKind::from_u8(nibble), Err(PacketReadError::UnknownKind(nibble)));
    }
}

#[test]
fn refused_packets_leave_the_reader_as_it_was() {
    let mut r = PacketReader::new();
    r.read(&make_raw(PacketKind::First, 4, b"")).unwrap();
    assert_eq!(
        r.read(&make_raw(PacketKind::Last, 5, b"")),
        Err(PacketReadError::MessageTypeChange { from: 4, to: 5 })
    );
    assert_eq!(
        r.read(&make_raw(PacketKind::Abort, 6, b"")),
        Err(PacketReadError::MessageTypeChange { from: 4, to: 6 })
    );
    assert!(r.in_progress);
    assert_eq!(r.msg_type, 4);
    assert_eq!(r.read(&make_raw(PacketKind::Last, 4, b"")).unwrap().kind, PacketKind::Last);
    assert_eq!(r.msg_type, 0);
}

#[test]
fn packet_sizes_fill_a_noise_message() {
    assert_eq!(MAX_CIPHERTEXT_SIZE, 65535);
    assert_eq!(MAX_RAW_PACKET_SIZE, 65519);
    assert_eq!(MAX_PACKET_SIZE, 65517);
}
