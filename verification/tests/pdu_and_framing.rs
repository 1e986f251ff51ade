use flowstation::bits::{BitBuffer, PduParseErr};
use flowstation::framing::drain_length_prefixed;
use flowstation::granting_delay::BasicSlotgrantGrantingDelay;
use flowstation::group_deassignment::GroupDeassignment;

#[test]
fn framing_survives_a_split_read() {
    let mut buf = Vec::new();
    buf.extend_from_slice(&4u32.to_be_bytes());
    buf.extend_from_slice(&[1, 2]); // only half the payload arrived

    assert!(drain_length_prefixed(&mut buf).unwrap().is_empty());
    assert_eq!(buf.len(), 6, "partial frame must stay buffered");

    buf.extend_from_slice(&[3, 4]);
    assert_eq!(drain_length_prefixed(&mut buf).unwrap(), vec![vec![1, 2, 3, 4]]);
    assert!(buf.is_empty());
}

#[test]
fn framing_handles_several_frames_in_one_read() {
    let mut buf = Vec::new();
    buf.extend_from_slice(&2u32.to_be_bytes());
    buf.extend_from_slice(&[9, 9]);
    buf.extend_from_slice(&1u32.to_be_bytes());
    buf.extend_from_slice(&[7]);
    buf.extend_from_slice(&5u32.to_be_bytes()); // header of a frame that has not arrived

    assert_eq!(drain_length_prefixed(&mut buf).unwrap(), vec![vec![9, 9], vec![7]]);
    assert_eq!(buf.len(), 4);
}

#[test]
fn framing_rejects_an_absurd_length_prefix() {
    let mut buf = Vec::new();
    buf.extend_from_slice(&u32::MAX.to_be_bytes());
    assert!(drain_length_prefixed(&mut buf).is_err());
}

#[test]
fn framing_desync_message_and_kept_tail() {
    let mut buf = Vec::new();
    buf.extend_from_slice(&1u32.to_be_bytes());
    buf.push(5);
    buf.extend_from_slice(&2_000_000u32.to_be_bytes());
    buf.push(1);
    let err = drain_length_prefixed(&mut buf).unwrap_err();
    assert_eq!(err, "framing desync: message length 2000000 bytes");
    assert_eq!(buf, vec![0, 0x1e, 0x84, 0x80, 1]);
}

#[test]
fn framing_zero_length_frame() {
    let mut buf = vec![0, 0, 0, 0, 0, 0, 0, 1, 42];
    assert_eq!(drain_length_prefixed(&mut buf).unwrap(), vec![vec![], vec![42]]);
    assert!(buf.is_empty());
}

#[test]
fn to_bitbuf_rejects_out_of_range_gssi_instead_of_panicking() {
    let mut buf = BitBuffer::new_autoexpand(8);
    let de = GroupDeassignment { group_ssi: 0x100_0000, group_extension: None };
    assert!(matches!(
        de.to_bitbuf(&mut buf),
        Err(PduParseErr::InvalidValue { field: "group_ssi", .. })
    ));
}

#[test]
fn to_bitbuf_accepts_max_valid_gssi() {
    let mut buf = BitBuffer::new_autoexpand(8);
    let de = GroupDeassignment { group_ssi: 0xFF_FFFF, group_extension: None };
    assert!(de.to_bitbuf(&mut buf).is_ok());
}

#[test]
fn group_deassignment_round_trips_with_extension() {
    let mut buf = BitBuffer::new_autoexpand(64);
    let de = GroupDeassignment { group_ssi: 0x12_3456, group_extension: Some(0xAB_CDEF) };
    de.to_bitbuf(&mut buf).unwrap();
    assert_eq!(buf.get_len(), 49);
    buf.seek(0);
    let back = GroupDeassignment::from_bitbuf(&mut buf).unwrap();
    assert_eq!(back, de);
    assert_eq!(buf.get_pos(), 49);
}

#[test]
fn group_deassignment_round_trips_without_extension() {
    let mut buf = BitBuffer::new_autoexpand(32);
    let de = GroupDeassignment { group_ssi: 7, group_extension: None };
    de.to_bitbuf(&mut buf).unwrap();
    assert_eq!(buf.get_len(), 25);
    let bits = buf.to_bits_vec();
    assert_eq!(&bits[20..25], &[false, true, true, true, false]);
    buf.seek(0);
    assert_eq!(GroupDeassignment::from_bitbuf(&mut buf).unwrap(), de);
}

#[test]
fn group_deassignment_reports_a_short_buffer() {
    let mut buf = BitBuffer::from_bits(vec![true; 10]);
    assert_eq!(
        GroupDeassignment::from_bitbuf(&mut buf),
        Err(PduParseErr::BufferEnded { field: "group_ssi" })
    );
    let mut bits = vec![false; 25];
    bits[24] = true;
    let mut buf = BitBuffer::from_bits(bits);
    assert_eq!(
        GroupDeassignment::from_bitbuf(&mut buf),
        Err(PduParseErr::BufferEnded { field: "group_extension" })
    );
}

#[test]
fn group_extension_out_of_range_after_mandatory_part() {
    let mut buf = BitBuffer::new_autoexpand(8);
    let de = GroupDeassignment { group_ssi: 1, group_extension: Some(0x100_0000) };
    assert_eq!(
        de.to_bitbuf(&mut buf),
        Err(PduParseErr::InvalidValue { field: "group_extension", value: 0x100_0000 })
    );
    assert_eq!(buf.get_len(), 25);
}

#[test]
fn bit_buffer_reads_msb_first() {
    let mut buf = BitBuffer::new_autoexpand(16);
    buf.write_bits(0b1011, 4);
    buf.write_bits(0x5, 3);
    buf.seek(0);
    assert_eq!(buf.read_field(4, "a"), Ok(0b1011));
    assert_eq!(buf.read_field(3, "b"), Ok(5));
    assert_eq!(buf.read_field(1, "c"), Err(PduParseErr::BufferEnded { field: "c" }));
}

#[test]
fn granting_delay_raw_codes() {
    assert_eq!(BasicSlotgrantGrantingDelay::CapAllocAtNextOpportunity.into_raw(), 0);
    assert_eq!(BasicSlotgrantGrantingDelay::DelayNOpportunities(7).into_raw(), 7);
    assert_eq!(BasicSlotgrantGrantingDelay::DelayNOpportunities(0).into_raw(), 1);
    assert_eq!(BasicSlotgrantGrantingDelay::DelayNOpportunities(200).into_raw(), 13);
    assert_eq!(BasicSlotgrantGrantingDelay::AllocStartsAtOpportunityInFr18.into_raw(), 14);
    assert_eq!(BasicSlotgrantGrantingDelay::WaitForAnotherSlotgrantMessage.into_raw(), 15);
    for x in 0..16u64 {
        assert_eq!(BasicSlotgrantGrantingDelay::try_from_raw(x).unwrap().into_raw(), x);
    }
    assert_eq!(BasicSlotgrantGrantingDelay::try_from_raw(16), Err(()));
}

#[test]
fn text_forms_of_the_pdu_fields() {
    let de = GroupDeassignment { group_ssi: 1001, group_extension: None };
    assert_eq!(de.to_string(), "GroupDeassignment { group_ssi: 1001 group_extension: None }");
    let de = GroupDeassignment { group_ssi: 7, group_extension: Some(42) };
    assert_eq!(de.to_string(), "GroupDeassignment { group_ssi: 7 group_extension: Some(42) }");
    assert_eq!(BasicSlotgrantGrantingDelay::DelayNOpportunities(3).to_string(), "Delay3Opportunities");
    assert_eq!(BasicSlotgrantGrantingDelay::CapAllocAtNextOpportunity.to_string(), "CapAllocAtNextOpportunity");
    assert_eq!(
        BasicSlotgrantGrantingDelay::AllocStartsAtOpportunityInFr18.to_string(),
        "AllocStartsAtOpportunityInFr18"
    );
    assert_eq!(
        BasicSlotgrantGrantingDelay::WaitForAnotherSlotgrantMessage.to_string(),
        "WaitForAnotherSlotgrantMessage"
    );
}
