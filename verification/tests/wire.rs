use eternal_monitor::wire::{
    classify, AudioHeader, Classified, Field, WireError, AUDIO_HEADER_SIZE, MAX_DGRAM_SIZE, TYPE_MEDIA,
};

fn header() -> AudioHeader {
    AudioHeader {
        session_id: 0x1234_5678,
        stream_epoch: 7,
        audio_seq: 91,
        capture_ts_us: 0x1234_5678_9ABC_DEF0,
        discontinuity: true,
    }
}

#[test]
fn audio_header_round_trips_and_classifies_separately() {
    let opus = [0xF8, 0xFF, 0xFE];
    let bytes = header().encode(&opus).unwrap();
    assert_eq!(bytes.len(), AUDIO_HEADER_SIZE + opus.len());
    assert_eq!(classify(&bytes), Classified::Audio { flags: 1 });
    assert_eq!(AudioHeader::decode(&bytes).unwrap(), (header(), opus.as_slice()));
    assert!(AudioHeader::decode(
        &AudioHeader {
            discontinuity: false,
            ..header()
        }
        .encode(&opus)
        .unwrap()
    )
    .is_ok_and(|(h, _)| !h.discontinuity));
}

#[test]
fn audio_rejects_invalid_identity_payload_and_lengths() {
    let good = header().encode(&[0xF8, 0xFF, 0xFE]).unwrap();
    for length in 0..good.len() {
        assert!(AudioHeader::decode(&good[..length]).is_err());
    }
    for (offset, field) in [(8, Field::SessionId), (12, Field::StreamEpoch)] {
        let mut bad = good.clone();
        bad[offset..offset + 4].fill(0);
        assert_eq!(AudioHeader::decode(&bad), Err(WireError::InvalidField(field)));
    }
    let mut wrong_type = good.clone();
    wrong_type[3] = TYPE_MEDIA;
    assert!(AudioHeader::decode(&wrong_type).is_err());
    let mut empty = good[..AUDIO_HEADER_SIZE].to_vec();
    empty[6..8].fill(0);
    assert_eq!(AudioHeader::decode(&empty), Err(WireError::InvalidField(Field::PayloadLen)));
    assert!(header().encode(&[]).is_err());
    assert!(header().encode(&vec![0; MAX_DGRAM_SIZE - AUDIO_HEADER_SIZE + 1]).is_err());
    let maximum = header().encode(&vec![1; MAX_DGRAM_SIZE - AUDIO_HEADER_SIZE]).unwrap();
    assert_eq!(maximum.len(), MAX_DGRAM_SIZE);
    assert!(AudioHeader::decode(&maximum).is_ok());
    let mut oversize = maximum;
    oversize.push(1);
    oversize[6..8].copy_from_slice(&((MAX_DGRAM_SIZE - AUDIO_HEADER_SIZE + 1) as u16).to_le_bytes());
    assert!(AudioHeader::decode(&oversize).is_err());
}

#[test]
fn audio_encoding_lays_out_little_endian_fields() {
    let bytes = header().encode(&[9]).unwrap();
    assert_eq!(&bytes[0..8], &[0x45, 0x4D, 2, 3, 1, 0, 1, 0]);
    assert_eq!(&bytes[8..12], &[0x78, 0x56, 0x34, 0x12]);
    assert_eq!(&bytes[12..16], &[7, 0, 0, 0]);
    assert_eq!(&bytes[16..20], &[91, 0, 0, 0]);
    assert_eq!(&bytes[20..28], &[0xF0, 0xDE, 0xBC, 0x9A, 0x78, 0x56, 0x34, 0x12]);
    assert_eq!(bytes[28], 9);
}

#[test]
fn bad_magic_and_version_are_rejected() {
    let mut bytes = header().encode(&[9]).unwrap();
    bytes[0] = 0;
    assert_eq!(AudioHeader::decode(&bytes), Err(WireError::InvalidField(Field::Magic)));
    assert_eq!(classify(&bytes), Classified::Invalid);
    let mut bytes = header().encode(&[9]).unwrap();
    bytes[2] = 1;
    assert_eq!(AudioHeader::decode(&bytes), Err(WireError::InvalidField(Field::Version)));
    assert_eq!(AudioHeader::decode(&bytes[..4]), Err(WireError::Truncated));
}
