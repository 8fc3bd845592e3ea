use unicom::api::MethodKind;
use unicom::codec::{decode_init, decode_message, encode_message, header_body_len, UnicomRequest, UnixMessage};
use unicom::error::{UnicomError, UnicomErrorKind};
use unicom::value::ParamValue;

fn sample_request() -> UnixMessage {
    UnixMessage::Request {
        id: 42,
        data: UnicomRequest {
            node_name: "n1".to_string(),
            name: "hello".to_string(),
            method: MethodKind::POST,
            parameters: vec![
                ("a".to_string(), ParamValue::Int(-7)),
                ("b".to_string(), ParamValue::Number("2.5".to_string())),
                ("c".to_string(), ParamValue::Text("héllo".to_string())),
                ("d".to_string(), ParamValue::Json("{\"x\":1}".to_string())),
                ("e".to_string(), ParamValue::Bool(true)),
                ("f".to_string(), ParamValue::Null),
            ],
        },
    }
}

fn same(a: &UnixMessage, b: &UnixMessage) -> bool {
    format!("{:?}", a) == format!("{:?}", b)
}

#[test]
fn request_round_trip() {
    let m = sample_request();
    let bytes = encode_message(&m).unwrap();
    assert_eq!(bytes[0], 1);
    assert_eq!(header_body_len(&bytes), bytes.len() - 5);
    let back = decode_message(&bytes).unwrap();
    assert!(same(&m, &back));
}

#[test]
fn response_error_quit_round_trip() {
    let msgs = vec![
        UnixMessage::Response { id: u64::MAX, data: vec![0, 1, 2, 255] },
        UnixMessage::Error { id: 3, error: UnicomError::new(UnicomErrorKind::Timeout, "late") },
        UnixMessage::Quit,
    ];
    for m in msgs {
        let bytes = encode_message(&m).unwrap();
        let back = decode_message(&bytes).unwrap();
        assert!(same(&m, &back));
    }
}

#[test]
fn quit_frame_bytes() {
    let bytes = encode_message(&UnixMessage::Quit).unwrap();
    assert_eq!(bytes, vec![4, 0, 0, 0, 0]);
}

#[test]
fn response_frame_bytes() {
    let bytes = encode_message(&UnixMessage::Response { id: 1, data: vec![9] }).unwrap();
    assert_eq!(bytes, vec![2, 13, 0, 0, 0, 1, 0, 0, 0, 0, 0, 0, 0, 1, 0, 0, 0, 9]);
}

#[test]
fn malformed_frames_are_refused() {
    let cases: Vec<Vec<u8>> = vec![
        vec![],
        vec![4, 1, 0, 0, 0, 0],
        vec![9, 0, 0, 0, 0],
        vec![2, 13, 0, 0, 0, 1, 0, 0, 0, 0, 0, 0, 0, 5, 0, 0, 0, 9],
        vec![3, 10, 0, 0, 0, 0, 0, 0, 0, 0, 0, 0, 0, 99, 0],
    ];
    for c in cases {
        let e = decode_message(&c).unwrap_err();
        assert_eq!(e.kind, UnicomErrorKind::Encoding);
    }
}

#[test]
fn invalid_utf8_is_refused() {
    let m = UnixMessage::Error { id: 0, error: UnicomError::new(UnicomErrorKind::Io, "ab") };
    let mut bytes = encode_message(&m).unwrap();
    let n = bytes.len();
    bytes[n - 1] = 0xff;
    assert_eq!(decode_message(&bytes).unwrap_err().kind, UnicomErrorKind::Encoding);
}

#[test]
fn init_frame_body() {
    let frame = vec![0, 3, 0, 0, 0, b'a', b'b', b'c'];
    assert_eq!(decode_init(&frame).unwrap(), b"abc".to_vec());
    let wrong_tag = vec![1, 3, 0, 0, 0, b'a', b'b', b'c'];
    assert_eq!(decode_init(&wrong_tag).unwrap_err().kind, UnicomErrorKind::Encoding);
    let short = vec![0, 4, 0, 0, 0, b'a'];
    assert_eq!(decode_init(&short).unwrap_err().kind, UnicomErrorKind::Encoding);
}
