use eternal_monitor::usbmuxd::{
    answer_code, answer_event, check_dictionary, check_reply_tag, checked_length, decode_message, device_event,
    encode_message, granted, message_tag, parse_entries, result_code, service_answer, usb_devices,
    Device, DeviceEvent, DeviceProperties, InvalidPart, Request, UsbmuxError, APP_PORT, HEADER_SIZE,
};

fn device(id: u32, connection: &str) -> Device {
    Device {
        device_id: id,
        properties: DeviceProperties { connection_type: connection.to_string(), serial_number: format!("serial-{id}") },
    }
}

#[test]
fn framed_header_and_swapped_port() {
    let body = b"<plist/>";
    let bytes = encode_message(0x1234_5678, body).unwrap();
    assert_eq!(u32::from_le_bytes(bytes[0..4].try_into().unwrap()) as usize, bytes.len());
    assert_eq!(&bytes[4..16], &[1, 0, 0, 0, 8, 0, 0, 0, 0x78, 0x56, 0x34, 0x12]);
    assert_eq!(&bytes[16..], body);
    let header: [u8; 16] = bytes[..16].try_into().unwrap();
    assert_eq!(checked_length(&header), Ok(HEADER_SIZE + body.len()));
    assert_eq!(message_tag(&header), 0x1234_5678);
    let request = Request::connect(17, APP_PORT);
    assert_eq!(request.device_id, Some(17));
    assert_eq!(request.message_type, "Connect");
    assert_eq!(request.port_number, Some(APP_PORT.to_be()));
    assert!(Request::new("ListDevices").port_number.is_none());
    assert!(encode_message(1, &vec![0; 1024 * 1024]).is_err());
}

#[test]
fn oversized_length_and_wrong_header_are_rejected_before_body_read() {
    for (length, version, kind) in [(15u32, 1u32, 8u32), (1_048_577, 1, 8), (32, 0, 8), (32, 1, 7)] {
        let mut bytes = Vec::new();
        for value in [length, version, kind, 1] {
            bytes.extend_from_slice(&value.to_le_bytes());
        }
        let header: [u8; 16] = bytes.try_into().unwrap();
        assert!(matches!(checked_length(&header), Err(UsbmuxError::Invalid(_))));
    }
}

#[test]
fn answers_and_events_read_as_the_service_means_them() {
    assert_eq!(result_code(Some("Result"), Some(0)), Ok(0));
    assert_eq!(result_code(Some("Result"), Some(3)), Ok(3));
    assert_eq!(result_code(Some("Attached"), Some(0)), Err(UsbmuxError::Invalid(InvalidPart::ExpectedResult)));
    assert_eq!(result_code(Some("Result"), Some(1 << 40)), Err(UsbmuxError::Invalid(InvalidPart::ResultNumber)));
    assert_eq!(granted(0), Ok(()));
    assert_eq!(granted(5), Err(UsbmuxError::Result(5)));
    assert_eq!(device_event(Some("Attached"), Some(device(17, "USB")), None), Ok(DeviceEvent::Attached(device(17, "USB"))));
    assert_eq!(device_event(Some("Detached"), None, Some(17)), Ok(DeviceEvent::Detached(17)));
    assert_eq!(device_event(Some("Paired"), None, Some(17)), Err(UsbmuxError::Invalid(InvalidPart::EventType)));
    assert_eq!(device_event(Some("Detached"), None, None), Err(UsbmuxError::Invalid(InvalidPart::DeviceId)));
    assert_eq!(check_reply_tag(4, 5), Err(UsbmuxError::Invalid(InvalidPart::ReplyTag)));
    assert!(check_reply_tag(4, 4).is_ok());
}

#[test]
fn network_devices_are_not_usb_tunnels() {
    let devices = usb_devices(vec![device(17, "USB"), device(18, "Network"), device(19, "USB")]);
    assert_eq!(devices.iter().map(|d| d.device_id).collect::<Vec<_>>(), vec![17, 19]);
}

fn plist_body(entries: Vec<(&str, plist::Value)>) -> Vec<u8> {
    let mut d = plist::Dictionary::new();
    for (k, v) in entries {
        d.insert(k.to_string(), v);
    }
    let mut body = Vec::new();
    plist::Value::Dictionary(d).to_writer_xml(&mut body).unwrap();
    body
}

#[test]
fn a_framed_answer_decodes_to_its_tag_and_entries() {
    let body = plist_body(vec![
        ("MessageType", plist::Value::String("Result".into())),
        ("Number", plist::Value::Integer(3u64.into())),
    ]);
    let message = encode_message(41, &body).unwrap();
    let (tag, answer) = decode_message(&message[..16], &message[16..]).unwrap();
    assert_eq!(tag, 41);
    assert!(answer.dictionary);
    assert_eq!(answer.message_type.as_deref(), Some("Result"));
    assert_eq!(answer.number, Some(3));
    assert_eq!(answer.device_id, None);
    assert!(matches!(decode_message(&message[..16], &message[17..]), Err(UsbmuxError::Invalid(_))));
    let junk = encode_message(1, b"not a plist").unwrap();
    assert_eq!(decode_message(&junk[..16], &junk[16..]).err(), Some(UsbmuxError::Plist));
}

#[test]
fn entries_come_back_in_order_and_the_answer_picks_three() {
    let body = plist_body(vec![
        ("DeviceID", plist::Value::Integer(7u64.into())),
        ("MessageType", plist::Value::String("Detached".into())),
        ("Extra", plist::Value::Boolean(true)),
    ]);
    let entries = parse_entries(&body).unwrap().unwrap();
    assert_eq!(entries.len(), 3);
    assert_eq!(entries[0].key, "DeviceID");
    assert_eq!(entries[0].unsigned, Some(7));
    assert_eq!(entries[1].text.as_deref(), Some("Detached"));
    assert_eq!(entries[2].text, None);
    assert_eq!(entries[2].unsigned, None);
    let answer = service_answer(Some(entries));
    assert!(answer.dictionary);
    assert_eq!(answer.device_id, Some(7));
    assert_eq!(answer.number, None);
    assert_eq!(answer_event(&answer, None), Ok(DeviceEvent::Detached(7)));
    assert_eq!(answer_code(&answer), Err(UsbmuxError::Invalid(InvalidPart::ExpectedResult)));
}

#[test]
fn an_answer_that_is_no_dictionary_is_refused() {
    let mut body = Vec::new();
    plist::Value::String("Result".into()).to_writer_xml(&mut body).unwrap();
    assert!(matches!(parse_entries(&body), Some(None)));
    let answer = service_answer(None);
    assert_eq!(check_dictionary(&answer), Err(UsbmuxError::Invalid(InvalidPart::Dictionary)));
    assert_eq!(answer_code(&answer), Err(UsbmuxError::Invalid(InvalidPart::Dictionary)));
    assert_eq!(answer_event(&answer, None), Err(UsbmuxError::Invalid(InvalidPart::Dictionary)));
}
