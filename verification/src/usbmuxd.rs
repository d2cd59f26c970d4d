//! Apple's local USB multiplexer. Each message is a 16-byte header (length,
//! version 1, plist message type 8, tag; all little-endian) before an XML
//! plist; the handshake ends at `Result 0`, after which the same connection
//! carries the app's raw tunnel stream.
//!
//! Connecting, reading and writing the plist bodies are the caller's part;
//! this module holds the framing, the requests and the answers' meaning.

use vstd::prelude::*;
use vstd::bytes::{spec_u32_from_le_bytes, spec_u32_to_le_bytes, u32_from_le_bytes, u32_to_le_bytes};
use vstd::endian::{endianness, Endian};
use crate::text::str_eq;

verus! {

pub const HEADER_SIZE: usize = 16;
pub const MAX_MESSAGE_SIZE: usize = 1024 * 1024;
pub const APP_PORT: u16 = 9877;
pub const PROTOCOL_VERSION: u32 = 1;
pub const PLIST_MESSAGE: u32 = 8;
pub const CLIENT_VERSION: &'static str = "EternalMonitor/0.3.0";
pub const PROG_NAME: &'static str = "EternalMonitor";

/// `u16::to_be`: the value whose in-memory bytes are `port` in network
/// order. On a little-endian machine the bytes are swapped; on a big-endian
/// one nothing changes.
#[verifier::external_body]
fn host_to_network(port: u16) -> (r: u16)
    ensures
        endianness() == Endian::Little ==> r == swapped(port),
        endianness() == Endian::Big ==> r == port,
{
    port.to_be()
}

pub open spec fn swapped(v: u16) -> u16 {
    ((v % 256) * 256 + v / 256) as u16
}

/// Why the multiplexer's answer was refused.
#[derive(Clone, Copy, Debug, PartialEq, Eq, Structural)]
pub enum UsbmuxError {
    /// A malformed header or answer.
    Invalid(InvalidPart),
    /// The service answered with a nonzero result code.
    Result(u32),
    /// A message body that is no property list.
    Plist,
}

/// The part of a message that was malformed.
#[derive(Clone, Copy, Debug, PartialEq, Eq, Structural)]
pub enum InvalidPart {
    Length,
    VersionOrMessageType,
    Dictionary,
    ExpectedResult,
    ResultNumber,
    EventType,
    DeviceId,
    ReplyTag,
}

/// A request to the multiplexer.
pub struct Request {
    pub message_type: &'static str,
    pub client_version_string: &'static str,
    pub prog_name: &'static str,
    pub device_id: Option<u32>,
    pub port_number: Option<u16>,
}

impl Request {
    pub fn new(message_type: &'static str) -> (r: Self)
        ensures
            r.message_type == message_type,
            r.client_version_string == CLIENT_VERSION,
            r.prog_name == PROG_NAME,
            r.device_id is None,
            r.port_number is None,
    {
        Request { message_type, client_version_string: CLIENT_VERSION, prog_name: PROG_NAME, device_id: None, port_number: None }
    }

    /// Open a tunnel to `port` on the device; the service wants the port in
    /// network byte order.
    pub fn connect(device_id: u32, port: u16) -> (r: Self)
        ensures
            r.message_type@ == "Connect"@,
            r.client_version_string == CLIENT_VERSION,
            r.prog_name == PROG_NAME,
            r.device_id == Some(device_id),
            endianness() == Endian::Little ==> r.port_number == Some(swapped(port)),
            endianness() == Endian::Big ==> r.port_number == Some(port),
    {
        Request {
            device_id: Some(device_id),
            port_number: Some(host_to_network(port)),
            ..Request::new("Connect")
        }
    }
}

#[derive(Clone, Debug, PartialEq, Eq)]
pub struct DeviceProperties {
    pub connection_type: String,
    pub serial_number: String,
}

#[derive(Clone, Debug, PartialEq, Eq)]
pub struct Device {
    pub device_id: u32,
    pub properties: DeviceProperties,
}

#[derive(Debug, PartialEq, Eq)]
pub enum DeviceEvent {
    Attached(Device),
    Detached(u32),
}

pub open spec fn header_word(h: Seq<u8>, at: int) -> u32 {
    spec_u32_from_le_bytes(h.subrange(at, at + 4))
}

/// The checked total length a header announces.
pub open spec fn checked_length_spec(h: Seq<u8>) -> Result<usize, UsbmuxError> {
    let length = header_word(h, 0);
    if !(HEADER_SIZE <= length <= MAX_MESSAGE_SIZE) {
        Err(UsbmuxError::Invalid(InvalidPart::Length))
    } else if header_word(h, 4) != PROTOCOL_VERSION || header_word(h, 8) != PLIST_MESSAGE {
        Err(UsbmuxError::Invalid(InvalidPart::VersionOrMessageType))
    } else {
        Ok(length as usize)
    }
}

/// The total message length a header announces, checked before the body is
/// read: at least the header, at most 1 MiB, version 1, plist type.
pub fn checked_length(header: &[u8; 16]) -> (r: Result<usize, UsbmuxError>)
    ensures
        r == checked_length_spec(header@),
{
    let h = header.as_slice();
    let length = u32_from_le_bytes(vstd::slice::slice_subrange(h, 0, 4));
    if !(HEADER_SIZE as u32 <= length && length <= MAX_MESSAGE_SIZE as u32) {
        return Err(UsbmuxError::Invalid(InvalidPart::Length));
    }
    let version = u32_from_le_bytes(vstd::slice::slice_subrange(h, 4, 8));
    let kind = u32_from_le_bytes(vstd::slice::slice_subrange(h, 8, 12));
    if version != PROTOCOL_VERSION || kind != PLIST_MESSAGE {
        return Err(UsbmuxError::Invalid(InvalidPart::VersionOrMessageType));
    }
    Ok(length as usize)
}

/// The tag a header carries.
pub fn message_tag(header: &[u8; 16]) -> (tag: u32)
    ensures
        tag == header_word(header@, 12),
{
    u32_from_le_bytes(vstd::slice::slice_subrange(header.as_slice(), 12, 16))
}

/// What the handshake reads from an answer's property list: whether it is
/// a dictionary, and its `MessageType`, `Number` and `DeviceID` entries
/// where they hold a string, an unsigned integer and an unsigned integer.
pub struct ServiceAnswer {
    pub dictionary: bool,
    pub message_type: Option<String>,
    pub number: Option<u64>,
    pub device_id: Option<u64>,
}

pub open spec fn answer_view(a: ServiceAnswer) -> (bool, Option<Seq<char>>, Option<u64>, Option<u64>) {
    (a.dictionary, match a.message_type { Some(t) => Some(t@), None => None }, a.number, a.device_id)
}

/// One entry of a property-list dictionary: its key, its value where that is
/// a string, and its value where that is an unsigned integer.
pub struct PlistEntry {
    pub key: String,
    pub text: Option<String>,
    pub unsigned: Option<u64>,
}

pub open spec fn entry_view(e: PlistEntry) -> (Seq<char>, Option<Seq<char>>, Option<u64>) {
    (e.key@, match e.text { Some(t) => Some(t@), None => None }, e.unsigned)
}

pub open spec fn entries_view(es: Seq<PlistEntry>) -> Seq<(Seq<char>, Option<Seq<char>>, Option<u64>)> {
    Seq::new(es.len(), |i: int| entry_view(es[i]))
}

/// What `plist::from_bytes` makes of a body: `None` where the bytes are no
/// property list, `Some(None)` where the top level is no dictionary, and
/// otherwise the dictionary's entries in order, each read with `as_string`
/// and `as_unsigned_integer`.
pub uninterp spec fn plist_entries(body: Seq<u8>) -> Option<Option<Seq<(Seq<char>, Option<Seq<char>>, Option<u64>)>>>;

/// `plist::from_bytes` into a `plist::Value`, then the top-level
/// dictionary's entries as plain values; the parse error becomes `None`.
#[verifier::external_body]
pub fn parse_entries(body: &[u8]) -> (r: Option<Option<Vec<PlistEntry>>>)
    ensures
        match plist_entries(body@) {
            None => r is None,
            Some(None) => r matches Some(None),
            Some(Some(es)) => r matches Some(Some(v)) && entries_view(v@) == es,
        },
{
    let value: plist::Value = match plist::from_bytes(body) {
        Ok(v) => v,
        Err(_) => return None,
    };
    let dictionary = match value.into_dictionary() {
        Some(d) => d,
        None => return Some(None),
    };
    let mut entries = Vec::new();
    for (key, v) in dictionary {
        entries.push(PlistEntry { text: v.as_string().map(String::from), unsigned: v.as_unsigned_integer(), key });
    }
    Some(Some(entries))
}

/// The first entry under `key`.
pub open spec fn entry_for(es: Seq<(Seq<char>, Option<Seq<char>>, Option<u64>)>, key: Seq<char>) -> Option<(Seq<char>, Option<Seq<char>>, Option<u64>)>
    decreases es.len(),
{
    if es.len() == 0 {
        None
    } else if es[0].0 == key {
        Some(es[0])
    } else {
        entry_for(es.drop_first(), key)
    }
}

/// The `MessageType`, `Number` and `DeviceID` entries of an answer, where
/// they hold a string, an unsigned integer and an unsigned integer.
pub open spec fn answer_of(entries: Option<Seq<(Seq<char>, Option<Seq<char>>, Option<u64>)>>) -> (bool, Option<Seq<char>>, Option<u64>, Option<u64>) {
    match entries {
        None => (false, None, None, None),
        Some(es) => (
            true,
            match entry_for(es, "MessageType"@) { Some(e) => e.1, None => None },
            match entry_for(es, "Number"@) { Some(e) => e.2, None => None },
            match entry_for(es, "DeviceID"@) { Some(e) => e.2, None => None },
        ),
    }
}

/// The position of the first entry under `key`.
fn find_entry(entries: &Vec<PlistEntry>, key: &str) -> (r: Option<usize>)
    ensures
        match entry_for(entries_view(entries@), key@) {
            None => r is None,
            Some(e) => r matches Some(i) && i < entries@.len() && entry_view(entries@[i as int]) == e,
        },
{
    let ghost all = entries_view(entries@);
    proof {
        assert(all.skip(0) =~= all);
    }
    let mut i: usize = 0;
    while i < entries.len()
        invariant
            0 <= i <= entries@.len(),
            all == entries_view(entries@),
            entry_for(all, key@) == entry_for(all.skip(i as int), key@),
        decreases entries@.len() - i,
    {
        proof {
            assert(all.skip(i as int).drop_first() =~= all.skip(i + 1));
            assert(all.skip(i as int)[0] == entry_view(entries@[i as int]));
        }
        if str_eq(entries[i].key.as_str(), key) {
            return Some(i);
        }
        i = i + 1;
    }
    proof {
        assert(all.skip(i as int).len() == 0);
    }
    None
}

/// Read an answer from its dictionary's entries.
pub fn service_answer(entries: Option<Vec<PlistEntry>>) -> (a: ServiceAnswer)
    ensures
        answer_view(a) == answer_of(match entries { Some(v) => Some(entries_view(v@)), None => None }),
{
    match entries {
        None => ServiceAnswer { dictionary: false, message_type: None, number: None, device_id: None },
        Some(v) => {
            let message_type = match find_entry(&v, "MessageType") {
                Some(i) => match &v[i].text {
                    Some(t) => Some(t.clone()),
                    None => None,
                },
                None => None,
            };
            let number = match find_entry(&v, "Number") {
                Some(i) => v[i].unsigned,
                None => None,
            };
            let device_id = match find_entry(&v, "DeviceID") {
                Some(i) => v[i].unsigned,
                None => None,
            };
            ServiceAnswer { dictionary: true, message_type, number, device_id }
        },
    }
}

/// A received message read from its header and body: the header's checks,
/// a body of exactly the announced length, then the tag and the parsed
/// answer.
pub open spec fn decode_spec(header: Seq<u8>, body: Seq<u8>) -> Result<(u32, (bool, Option<Seq<char>>, Option<u64>, Option<u64>)), UsbmuxError> {
    match checked_length_spec(header) {
        Err(e) => Err(e),
        Ok(length) => if body.len() + HEADER_SIZE != length {
            Err(UsbmuxError::Invalid(InvalidPart::Length))
        } else {
            match plist_entries(body) {
                None => Err(UsbmuxError::Plist),
                Some(e) => Ok((header_word(header, 12), answer_of(e))),
            }
        },
    }
}

/// Read a message from its 16-byte header and its body.
pub fn decode_message(header: &[u8], body: &[u8]) -> (r: Result<(u32, ServiceAnswer), UsbmuxError>)
    requires
        header@.len() == 16,
    ensures
        match decode_spec(header@, body@) {
            Err(e) => r == Err::<(u32, ServiceAnswer), UsbmuxError>(e),
            Ok((tag, a)) => r matches Ok((t, x)) && t == tag && answer_view(x) == a,
        },
{
    let h: [u8; 16] = [
        header[0], header[1], header[2], header[3], header[4], header[5], header[6], header[7],
        header[8], header[9], header[10], header[11], header[12], header[13], header[14], header[15],
    ];
    assert(h@ =~= header@);
    let length = checked_length(&h)?;
    if body.len() != length - HEADER_SIZE {
        return Err(UsbmuxError::Invalid(InvalidPart::Length));
    }
    let tag = message_tag(&h);
    match parse_entries(body) {
        None => Err(UsbmuxError::Plist),
        Some(entries) => Ok((tag, service_answer(entries))),
    }
}

/// A message as it travels: the header, then the plist body.
pub open spec fn framed_message(tag: u32, body: Seq<u8>) -> Seq<u8> {
    spec_u32_to_le_bytes((HEADER_SIZE + body.len()) as u32) + spec_u32_to_le_bytes(PROTOCOL_VERSION)
        + spec_u32_to_le_bytes(PLIST_MESSAGE) + spec_u32_to_le_bytes(tag) + body
}

/// Frame a serialized plist body under `tag`; a message over 1 MiB is
/// refused.
pub fn encode_message(tag: u32, body: &[u8]) -> (r: Result<Vec<u8>, UsbmuxError>)
    ensures
        HEADER_SIZE + body@.len() > MAX_MESSAGE_SIZE ==> r == Err::<Vec<u8>, UsbmuxError>(UsbmuxError::Invalid(InvalidPart::Length)),
        HEADER_SIZE + body@.len() <= MAX_MESSAGE_SIZE ==> r is Ok && r->Ok_0@ == framed_message(tag, body@),
{
    if body.len() > MAX_MESSAGE_SIZE - HEADER_SIZE {
        return Err(UsbmuxError::Invalid(InvalidPart::Length));
    }
    let mut bytes = u32_to_le_bytes((HEADER_SIZE + body.len()) as u32);
    let mut v = u32_to_le_bytes(PROTOCOL_VERSION);
    bytes.append(&mut v);
    let mut t = u32_to_le_bytes(PLIST_MESSAGE);
    bytes.append(&mut t);
    let mut g = u32_to_le_bytes(tag);
    bytes.append(&mut g);
    let ghost head = bytes@;
    let mut i: usize = 0;
    while i < body.len()
        invariant
            0 <= i <= body@.len(),
            bytes@ == head + body@.take(i as int),
        decreases body@.len() - i,
    {
        bytes.push(body[i]);
        assert(head + body@.take(i + 1) =~= (head + body@.take(i as int)).push(body@[i as int]));
        i = i + 1;
    }
    assert(body@.take(i as int) =~= body@);
    assert(bytes@ =~= framed_message(tag, body@));
    Ok(bytes)
}

/// A framed message's header reads back as its length, version, type and
/// tag.
pub proof fn lemma_framed_header_checks(tag: u32, body: Seq<u8>)
    requires
        HEADER_SIZE + body.len() <= MAX_MESSAGE_SIZE,
    ensures
        checked_length_spec(framed_message(tag, body).subrange(0, 16)) == Ok::<usize, UsbmuxError>(
            (HEADER_SIZE + body.len()) as usize,
        ),
        header_word(framed_message(tag, body).subrange(0, 16), 12) == tag,
{
    vstd::bytes::lemma_auto_spec_u32_to_from_le_bytes();
    let m = framed_message(tag, body);
    let h = m.subrange(0, 16);
    assert(h.subrange(0, 4) =~= spec_u32_to_le_bytes((HEADER_SIZE + body.len()) as u32));
    assert(h.subrange(4, 8) =~= spec_u32_to_le_bytes(PROTOCOL_VERSION));
    assert(h.subrange(8, 12) =~= spec_u32_to_le_bytes(PLIST_MESSAGE));
    assert(h.subrange(12, 16) =~= spec_u32_to_le_bytes(tag));
}

/// A framed message reads back as its tag and its body's answer.
pub proof fn lemma_decode_framed(tag: u32, body: Seq<u8>)
    requires
        HEADER_SIZE + body.len() <= MAX_MESSAGE_SIZE,
    ensures
        decode_spec(framed_message(tag, body).subrange(0, 16), framed_message(tag, body).subrange(16, framed_message(tag, body).len() as int))
            == match plist_entries(body) {
                None => Err(UsbmuxError::Plist),
                Some(e) => Ok((tag, answer_of(e))),
            },
{
    lemma_framed_header_checks(tag, body);
    vstd::bytes::lemma_auto_spec_u32_to_from_le_bytes();
    let m = framed_message(tag, body);
    assert(spec_u32_to_le_bytes((HEADER_SIZE + body.len()) as u32).len() == 4);
    assert(m.subrange(16, m.len() as int) =~= body);
}

/// The code of a `Result` answer: the message type must be `Result` and the
/// number must fit in 32 bits.
pub open spec fn result_code_spec(message_type: Option<Seq<char>>, number: Option<u64>) -> Result<u32, UsbmuxError> {
    if message_type != Some("Result"@) {
        Err(UsbmuxError::Invalid(InvalidPart::ExpectedResult))
    } else {
        match number {
            Some(n) => if n <= u32::MAX { Ok(n as u32) } else { Err(UsbmuxError::Invalid(InvalidPart::ResultNumber)) },
            None => Err(UsbmuxError::Invalid(InvalidPart::ResultNumber)),
        }
    }
}

/// Read a `Result` answer from its `MessageType` and `Number` entries.
pub fn result_code(message_type: Option<&str>, number: Option<u64>) -> (r: Result<u32, UsbmuxError>)
    ensures
        r == result_code_spec(
            match message_type { Some(t) => Some(t@), None => None::<Seq<char>> },
            number,
        ),
{
    let is_result = match message_type {
        Some(t) => str_eq(t, "Result"),
        None => false,
    };
    if !is_result {
        return Err(UsbmuxError::Invalid(InvalidPart::ExpectedResult));
    }
    match number {
        Some(n) => if n <= u32::MAX as u64 { Ok(n as u32) } else { Err(UsbmuxError::Invalid(InvalidPart::ResultNumber)) },
        None => Err(UsbmuxError::Invalid(InvalidPart::ResultNumber)),
    }
}

/// Whether a request was granted: `Result 0`.
pub fn granted(code: u32) -> (r: Result<(), UsbmuxError>)
    ensures
        code == 0 ==> r is Ok,
        code != 0 ==> r == Err::<(), UsbmuxError>(UsbmuxError::Result(code)),
{
    if code == 0 { Ok(()) } else { Err(UsbmuxError::Result(code)) }
}

/// The devices on a cable: those whose connection type is `USB`, in order.
pub open spec fn usb_only(devices: Seq<Device>) -> Seq<Device>
    decreases devices.len(),
{
    if devices.len() == 0 {
        seq![]
    } else {
        let rest = usb_only(devices.drop_last());
        if devices.last().properties.connection_type@ == "USB"@ { rest.push(devices.last()) } else { rest }
    }
}

pub fn usb_devices(devices: Vec<Device>) -> (r: Vec<Device>)
    ensures
        r@ == usb_only(devices@),
{
    let mut r: Vec<Device> = Vec::new();
    let mut i: usize = 0;
    let mut rest = devices;
    let ghost all = rest@;
    let n = rest.len();
    while rest.len() > 0
        invariant
            n == all.len(),
            0 <= i <= all.len(),
            rest@ == all.skip(i as int),
            r@ == usb_only(all.take(i as int)),
        decreases rest@.len(),
    {
        let d = rest.remove(0);
        assert(d == all[i as int]);
        assert(rest@ =~= all.skip(i + 1));
        assert(all.take(i + 1).drop_last() =~= all.take(i as int));
        if str_eq(d.properties.connection_type.as_str(), "USB") {
            r.push(d);
        }
        i = i + 1;
    }
    assert(all.take(i as int) =~= all);
    r
}

/// What an event message means: `Attached` carries the device, `Detached`
/// its id, which must fit in 32 bits.
pub open spec fn device_event_spec(message_type: Option<Seq<char>>, device: Option<Device>, device_id: Option<u64>) -> Result<DeviceEvent, UsbmuxError> {
    if message_type == Some("Attached"@) {
        match device {
            Some(d) => Ok(DeviceEvent::Attached(d)),
            None => Err(UsbmuxError::Invalid(InvalidPart::Dictionary)),
        }
    } else if message_type == Some("Detached"@) {
        match device_id {
            Some(id) => if id <= u32::MAX { Ok(DeviceEvent::Detached(id as u32)) } else { Err(UsbmuxError::Invalid(InvalidPart::DeviceId)) },
            None => Err(UsbmuxError::Invalid(InvalidPart::DeviceId)),
        }
    } else {
        Err(UsbmuxError::Invalid(InvalidPart::EventType))
    }
}

/// Read an event message from its `MessageType`, the device it describes
/// (when it parsed as one) and its `DeviceID` entry.
pub fn device_event(message_type: Option<&str>, device: Option<Device>, device_id: Option<u64>) -> (r: Result<DeviceEvent, UsbmuxError>)
    ensures
        r == device_event_spec(match message_type { Some(t) => Some(t@), None => None::<Seq<char>> }, device, device_id),
{
    let (attached, detached) = match message_type {
        Some(t) => (str_eq(t, "Attached"), str_eq(t, "Detached")),
        None => (false, false),
    };
    if attached {
        match device {
            Some(d) => Ok(DeviceEvent::Attached(d)),
            None => Err(UsbmuxError::Invalid(InvalidPart::Dictionary)),
        }
    } else if detached {
        proof {
            reveal_strlit("Attached");
            reveal_strlit("Detached");
        }
        match device_id {
            Some(id) => if id <= u32::MAX as u64 { Ok(DeviceEvent::Detached(id as u32)) } else { Err(UsbmuxError::Invalid(InvalidPart::DeviceId)) },
            None => Err(UsbmuxError::Invalid(InvalidPart::DeviceId)),
        }
    } else {
        Err(UsbmuxError::Invalid(InvalidPart::EventType))
    }
}

pub open spec fn text_of(t: Option<String>) -> Option<Seq<char>> {
    match t {
        Some(s) => Some(s@),
        None => None,
    }
}

/// An answer must be a dictionary.
pub fn check_dictionary(answer: &ServiceAnswer) -> (r: Result<(), UsbmuxError>)
    ensures
        answer.dictionary <==> r is Ok,
        r is Err ==> r == Err::<(), UsbmuxError>(UsbmuxError::Invalid(InvalidPart::Dictionary)),
{
    if answer.dictionary { Ok(()) } else { Err(UsbmuxError::Invalid(InvalidPart::Dictionary)) }
}

/// The code of a `Result` answer: a dictionary whose message type is
/// `Result` and whose number fits in 32 bits.
pub fn answer_code(answer: &ServiceAnswer) -> (r: Result<u32, UsbmuxError>)
    ensures
        !answer.dictionary ==> r == Err::<u32, UsbmuxError>(UsbmuxError::Invalid(InvalidPart::Dictionary)),
        answer.dictionary ==> r == result_code_spec(text_of(answer.message_type), answer.number),
{
    check_dictionary(answer)?;
    let message_type = match &answer.message_type {
        Some(t) => Some(t.as_str()),
        None => None,
    };
    result_code(message_type, answer.number)
}

/// What an event answer means, given the device its body describes when it
/// parsed as one; the answer must be a dictionary.
pub fn answer_event(answer: &ServiceAnswer, device: Option<Device>) -> (r: Result<DeviceEvent, UsbmuxError>)
    ensures
        !answer.dictionary ==> r == Err::<DeviceEvent, UsbmuxError>(UsbmuxError::Invalid(InvalidPart::Dictionary)),
        answer.dictionary ==> r == device_event_spec(text_of(answer.message_type), device, answer.device_id),
{
    check_dictionary(answer)?;
    let message_type = match &answer.message_type {
        Some(t) => Some(t.as_str()),
        None => None,
    };
    device_event(message_type, device, answer.device_id)
}

/// A reply must carry the request's tag.
pub fn check_reply_tag(sent: u32, returned: u32) -> (r: Result<(), UsbmuxError>)
    ensures
        sent == returned <==> r is Ok,
        r is Err ==> r == Err::<(), UsbmuxError>(UsbmuxError::Invalid(InvalidPart::ReplyTag)),
{
    if sent != returned {
        return Err(UsbmuxError::Invalid(InvalidPart::ReplyTag));
    }
    Ok(())
}

} // verus!
