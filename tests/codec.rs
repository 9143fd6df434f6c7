use bitcoin_spv::block_header::BlockHeader;
use bitcoin_spv::error::CustomError;
use bitcoin_spv::headers::Headers;
use bitcoin_spv::message::{frame_message, get_headers_payload, MessageHeader, Ping, Pong};
use bitcoin_spv::parser::{to_varint_bytes, BufferParser};
use bitcoin_spv::peer::{answer_ping, classify_command, headers_step, CommandKind, NodeAction};
use bitcoin_spv::wallet::Wallet;

fn field(name: &str) -> Vec<u8> {
    let mut f = name.as_bytes().to_vec();
    f.resize(12, 0);
    f
}

fn block_one() -> Vec<u8> {
    vec![
        1, 0, 0, 0, 5, 159, 141, 74, 195, 4, 19, 253, 127, 1, 148, 149, 222, 143, 237, 24, 27,
        124, 186, 34, 123, 241, 216, 166, 203, 239, 86, 108, 0, 0, 0, 0, 233, 233, 109, 115,
        249, 241, 6, 200, 176, 73, 10, 24, 28, 209, 102, 159, 255, 179, 239, 72, 185, 225, 10,
        14, 219, 74, 174, 208, 207, 59, 18, 12, 170, 7, 195, 79, 255, 255, 0, 29, 14, 171, 58,
        61,
    ]
}

#[test]
fn varint_encodings() {
    assert_eq!(to_varint_bytes(0xfc), vec![0xfc]);
    assert_eq!(to_varint_bytes(0xfd), vec![0xfd, 0xfd, 0x00]);
    assert_eq!(to_varint_bytes(0x1_0000), vec![0xfe, 0x00, 0x00, 0x01, 0x00]);
    assert_eq!(
        to_varint_bytes(0x1_0000_0000),
        vec![0xff, 0, 0, 0, 0, 1, 0, 0, 0]
    );
    for n in [0u64, 1, 0xfc, 0xfd, 0xffff, 0x1_0000, 0xffff_ffff, 0x1_0000_0000, u64::MAX] {
        let mut p = BufferParser::new(to_varint_bytes(n));
        assert_eq!(p.extract_varint(), Ok(n));
        assert!(p.is_empty());
    }
}

#[test]
fn truncated_varint_is_invalid() {
    let mut p = BufferParser::new(vec![0xfe, 1, 2]);
    assert_eq!(p.extract_varint(), Err(CustomError::SerializedBufferIsInvalid));
}

#[test]
fn parser_reads_little_endian() {
    let mut p = BufferParser::new(vec![1, 2, 3, 4, 5, 6, 0xff, 0xff, 0xff, 0xff]);
    assert_eq!(p.extract_u16(), Ok(0x0201));
    assert_eq!(p.extract_u32(), Ok(0x0605_0403));
    assert_eq!(p.extract_i32(), Ok(-1));
    assert_eq!(p.len(), 0);
    assert_eq!(p.extract_u8(), Err(CustomError::SerializedBufferIsInvalid));
}

#[test]
fn parser_strings() {
    let mut p = BufferParser::new(vec![104, 105, 0xff]);
    assert_eq!(p.extract_string(2), Ok(String::from("hi")));
    assert_eq!(p.extract_string(1), Err(CustomError::SerializedBufferIsInvalid));
}

#[test]
fn ping_is_answered_with_same_nonce() {
    let nonce: u64 = 0x0102_0304_0506_0708;
    let payload = Ping { nonce }.serialize();
    assert_eq!(payload, vec![8, 7, 6, 5, 4, 3, 2, 1]);
    let ping = Ping::parse(payload.clone()).unwrap();
    let pong = answer_ping(ping);
    assert_eq!(pong, Pong { nonce });
    assert_eq!(pong.serialize(), payload);
    assert_eq!(pong.get_command(), "pong");
    assert_eq!(ping.get_command(), "ping");
    assert!(Pong::parse(vec![1, 2, 3]).is_err());
    assert_eq!(Pong::parse(payload).unwrap(), pong);
}

#[test]
fn frame_round_trip() {
    let payload = Pong { nonce: 42 }.serialize();
    let frame = frame_message(0xd9b4_bef9, &b"pong".to_vec(), &payload);
    assert_eq!(frame.len(), 24 + 8);
    assert_eq!(&frame[..4], &[0xf9, 0xbe, 0xb4, 0xd9]);
    let header = MessageHeader::parse(frame[..24].to_vec()).unwrap();
    assert_eq!(header.magic, 0xd9b4_bef9);
    assert_eq!(header.command, field("pong"));
    assert_eq!(header.payload_size, 8);
    assert!(header.checksum_matches(&payload));
    assert!(!header.checksum_matches(&vec![0u8; 8]));
    assert_eq!(&frame[24..], &payload[..]);
    assert!(MessageHeader::parse(frame[..23].to_vec()).is_err());
}

#[test]
fn empty_payload_checksum() {
    let frame = frame_message(1, &b"verack".to_vec(), &vec![]);
    assert_eq!(&frame[20..24], &[0x5d, 0xf6, 0xe0, 0xe2]);
}

#[test]
fn commands_are_classified() {
    assert_eq!(classify_command(&field("headers")), CommandKind::Headers);
    assert_eq!(classify_command(&field("block")), CommandKind::Block);
    assert_eq!(classify_command(&field("ping")), CommandKind::Ping);
    assert_eq!(classify_command(&field("notfound")), CommandKind::NotFound);
    assert_eq!(classify_command(&field("inv")), CommandKind::Ignored);
    assert_eq!(classify_command(&field("sendheaders")), CommandKind::Ignored);
    assert_eq!(classify_command(&field("alert")), CommandKind::Ignored);
    assert_eq!(classify_command(&field("addr")), CommandKind::Ignored);
    assert_eq!(classify_command(&field("feefilter")), CommandKind::Unknown);
}

#[test]
fn full_page_requests_continuation() {
    let headers: Vec<BlockHeader> =
        (0..2000).map(|_| BlockHeader::parse(block_one(), false).unwrap()).collect();
    let last = headers[1999].hash();
    let step = headers_step(Ok(Headers { headers }));
    assert_eq!(step.request_after, Some(last.clone()));
    match step.action {
        NodeAction::NewHeaders(page) => assert_eq!(page.headers.len(), 2000),
        _ => panic!("expected a page"),
    }
    let payload = get_headers_payload(70015, &last);
    assert_eq!(payload.len(), 4 + 1 + 32 + 32);
    assert_eq!(&payload[5..37], &last[..]);
}

#[test]
fn short_page_and_parse_error() {
    let headers = vec![BlockHeader::parse(block_one(), false).unwrap()];
    let step = headers_step(Ok(Headers { headers }));
    assert_eq!(step.request_after, None);
    assert!(matches!(step.action, NodeAction::NewHeaders(_)));
    let step = headers_step(Err(CustomError::SerializedBufferIsInvalid));
    assert_eq!(step.request_after, None);
    assert!(matches!(step.action, NodeAction::GetHeadersError));
}

#[test]
fn wallet_record_layout() {
    let w = Wallet::new(String::from("ab"), String::from("pk"), String::from("s"));
    assert_eq!(w.serialize(), vec![2, 97, 98, 2, 112, 107, 1, 115]);
}
