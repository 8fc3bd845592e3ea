use vstd::prelude::*;
use vstd::utf8::{decode_utf8, encode_utf8, valid_utf8, encode_utf8_decode_utf8, encode_utf8_valid_utf8};

use crate::api::MethodKind;
use crate::error::{UnicomError, UnicomErrorKind};
use crate::value::{ParamValue, ParamView, params_view};

verus! {

/// A call from one node to an API of another.
#[derive(Debug)]
pub struct UnicomRequest {
    pub node_name: String,
    pub name: String,
    pub method: MethodKind,
    pub parameters: Vec<(String, ParamValue)>,
}

/// One frame of the node protocol after the initial manifest.
#[derive(Debug)]
pub enum UnixMessage {
    Request { id: u64, data: UnicomRequest },
    Response { id: u64, data: Vec<u8> },
    Error { id: u64, error: UnicomError },
    Quit,
}

pub struct RequestView {
    pub node_name: Seq<char>,
    pub name: Seq<char>,
    pub method: MethodKind,
    pub parameters: Seq<(Seq<char>, ParamView)>,
}

pub enum MessageView {
    Request { id: u64, req: RequestView },
    Response { id: u64, data: Seq<u8> },
    Error { id: u64, kind: UnicomErrorKind, message: Seq<char> },
    Quit,
}

impl View for UnicomRequest {
    type V = RequestView;

    open spec fn view(&self) -> RequestView {
        RequestView {
            node_name: self.node_name@,
            name: self.name@,
            method: self.method,
            parameters: params_view(self.parameters@),
        }
    }
}

impl View for UnixMessage {
    type V = MessageView;

    open spec fn view(&self) -> MessageView {
        match self {
            UnixMessage::Request { id, data } => MessageView::Request { id: *id, req: data@ },
            UnixMessage::Response { id, data } => MessageView::Response { id: *id, data: data@ },
            UnixMessage::Error { id, error } => MessageView::Error {
                id: *id,
                kind: error.kind,
                message: error.message@,
            },
            UnixMessage::Quit => MessageView::Quit,
        }
    }
}

/// Frame tag of the manifest that a node sends first.
pub const TAG_INIT: u8 = 0;
pub const TAG_REQUEST: u8 = 1;
pub const TAG_RESPONSE: u8 = 2;
pub const TAG_ERROR: u8 = 3;
pub const TAG_QUIT: u8 = 4;

/// Bytes of a frame before its body: the tag and the body's length.
pub const HEADER_LEN: usize = 5;

// ---------------------------------------------------------------- encoding

pub open spec fn le32(v: u32) -> Seq<u8> {
    seq![v as u8, (v >> 8) as u8, (v >> 16) as u8, (v >> 24) as u8]
}

pub open spec fn le64(v: u64) -> Seq<u8> {
    seq![
        v as u8, (v >> 8) as u8, (v >> 16) as u8, (v >> 24) as u8,
        (v >> 32) as u8, (v >> 40) as u8, (v >> 48) as u8, (v >> 56) as u8,
    ]
}

/// A byte string: its length, then its bytes.
pub open spec fn enc_bytes(b: Seq<u8>) -> Seq<u8> {
    le32(b.len() as u32) + b
}

/// A text: its UTF-8 bytes as a byte string.
pub open spec fn enc_str(s: Seq<char>) -> Seq<u8> {
    enc_bytes(encode_utf8(s))
}

pub open spec fn method_byte(k: MethodKind) -> u8 {
    match k {
        MethodKind::GET => 0,
        MethodKind::POST => 1,
        MethodKind::PUT => 2,
        MethodKind::DELETE => 3,
    }
}

pub open spec fn kind_byte(k: UnicomErrorKind) -> u8 {
    match k {
        UnicomErrorKind::NotFound => 0,
        UnicomErrorKind::ParameterInvalid => 1,
        UnicomErrorKind::InputInvalid => 2,
        UnicomErrorKind::NotAllowed => 3,
        UnicomErrorKind::Timeout => 4,
        UnicomErrorKind::Empty => 5,
        UnicomErrorKind::Internal => 6,
        UnicomErrorKind::Io => 7,
        UnicomErrorKind::Encoding => 8,
    }
}

pub open spec fn enc_value(v: ParamView) -> Seq<u8> {
    match v {
        ParamView::Null => seq![0u8],
        ParamView::Bool(b) => seq![1u8, if b { 1u8 } else { 0u8 }],
        ParamView::Int(i) => seq![2u8] + le64(i as u64),
        ParamView::Number(s) => seq![3u8] + enc_str(s),
        ParamView::Text(s) => seq![4u8] + enc_str(s),
        ParamView::Json(s) => seq![5u8] + enc_str(s),
    }
}

pub open spec fn enc_pair(p: (Seq<char>, ParamView)) -> Seq<u8> {
    enc_str(p.0) + enc_value(p.1)
}

pub open spec fn enc_pairs(p: Seq<(Seq<char>, ParamView)>) -> Seq<u8>
    decreases p.len(),
{
    if p.len() == 0 {
        seq![]
    } else {
        enc_pair(p[0]) + enc_pairs(p.drop_first())
    }
}

pub open spec fn tag_of(m: MessageView) -> u8 {
    match m {
        MessageView::Request { .. } => TAG_REQUEST,
        MessageView::Response { .. } => TAG_RESPONSE,
        MessageView::Error { .. } => TAG_ERROR,
        MessageView::Quit => TAG_QUIT,
    }
}

pub open spec fn body_of(m: MessageView) -> Seq<u8> {
    match m {
        MessageView::Request { id, req } => le64(id) + enc_str(req.node_name) + enc_str(req.name)
            + seq![method_byte(req.method)] + le32(req.parameters.len() as u32) + enc_pairs(
            req.parameters,
        ),
        MessageView::Response { id, data } => le64(id) + enc_bytes(data),
        MessageView::Error { id, kind, message } => le64(id) + seq![kind_byte(kind)] + enc_str(
            message,
        ),
        MessageView::Quit => seq![],
    }
}

/// The whole frame of a message: tag, body length, body.
pub open spec fn frame_of(m: MessageView) -> Seq<u8> {
    seq![tag_of(m)] + le32(body_of(m).len() as u32) + body_of(m)
}

/// A message fits the format when its body's length fits the length field.
pub open spec fn encodable(m: MessageView) -> bool {
    body_of(m).len() <= u32::MAX
}

// ---------------------------------------------------------------- parsing

pub open spec fn get_le32(b: Seq<u8>, p: int) -> u32 {
    (b[p] as u32) | ((b[p + 1] as u32) << 8u32) | ((b[p + 2] as u32) << 16u32) | ((b[p + 3] as u32)
        << 24u32)
}

pub open spec fn get_le64(b: Seq<u8>, p: int) -> u64 {
    (b[p] as u64) | ((b[p + 1] as u64) << 8u64) | ((b[p + 2] as u64) << 16u64) | ((b[p + 3] as u64)
        << 24u64) | ((b[p + 4] as u64) << 32u64) | ((b[p + 5] as u64) << 40u64) | ((b[p + 6] as u64)
        << 48u64) | ((b[p + 7] as u64) << 56u64)
}

pub open spec fn parse_bytes(b: Seq<u8>, p: int) -> Option<(Seq<u8>, int)> {
    if 0 <= p && p + 4 <= b.len() && p + 4 + get_le32(b, p) <= b.len() {
        let e = p + 4 + get_le32(b, p);
        Some((b.subrange(p + 4, e), e))
    } else {
        None
    }
}

pub open spec fn parse_str(b: Seq<u8>, p: int) -> Option<(Seq<char>, int)> {
    match parse_bytes(b, p) {
        Some((x, e)) => if valid_utf8(x) {
            Some((decode_utf8(x), e))
        } else {
            None
        },
        None => None,
    }
}

pub open spec fn parse_value(b: Seq<u8>, p: int) -> Option<(ParamView, int)> {
    if 0 <= p < b.len() {
        let t = b[p];
        if t == 0 {
            Some((ParamView::Null, p + 1))
        } else if t == 1 {
            if p + 2 <= b.len() && b[p + 1] <= 1 {
                Some((ParamView::Bool(b[p + 1] == 1), p + 2))
            } else {
                None
            }
        } else if t == 2 {
            if p + 9 <= b.len() {
                Some((ParamView::Int(get_le64(b, p + 1) as i64), p + 9))
            } else {
                None
            }
        } else if 3 <= t <= 5 {
            match parse_str(b, p + 1) {
                Some((s, e)) => Some(
                    (
                        if t == 3 {
                            ParamView::Number(s)
                        } else if t == 4 {
                            ParamView::Text(s)
                        } else {
                            ParamView::Json(s)
                        },
                        e,
                    ),
                ),
                None => None,
            }
        } else {
            None
        }
    } else {
        None
    }
}

pub open spec fn parse_pair(b: Seq<u8>, p: int) -> Option<((Seq<char>, ParamView), int)> {
    match parse_str(b, p) {
        Some((k, e)) => match parse_value(b, e) {
            Some((v, e2)) => Some(((k, v), e2)),
            None => None,
        },
        None => None,
    }
}

pub open spec fn parse_pairs(b: Seq<u8>, p: int, n: nat) -> Option<(Seq<(Seq<char>, ParamView)>, int)>
    decreases n,
{
    if n == 0 {
        Some((seq![], p))
    } else {
        match parse_pair(b, p) {
            Some((x, e)) => match parse_pairs(b, e, (n - 1) as nat) {
                Some((rest, e2)) => Some((seq![x] + rest, e2)),
                None => None,
            },
            None => None,
        }
    }
}

pub open spec fn method_of_byte(x: u8) -> Option<MethodKind> {
    if x == 0 {
        Some(MethodKind::GET)
    } else if x == 1 {
        Some(MethodKind::POST)
    } else if x == 2 {
        Some(MethodKind::PUT)
    } else if x == 3 {
        Some(MethodKind::DELETE)
    } else {
        None
    }
}

pub open spec fn kind_of_byte(x: u8) -> Option<UnicomErrorKind> {
    if x == 0 {
        Some(UnicomErrorKind::NotFound)
    } else if x == 1 {
        Some(UnicomErrorKind::ParameterInvalid)
    } else if x == 2 {
        Some(UnicomErrorKind::InputInvalid)
    } else if x == 3 {
        Some(UnicomErrorKind::NotAllowed)
    } else if x == 4 {
        Some(UnicomErrorKind::Timeout)
    } else if x == 5 {
        Some(UnicomErrorKind::Empty)
    } else if x == 6 {
        Some(UnicomErrorKind::Internal)
    } else if x == 7 {
        Some(UnicomErrorKind::Io)
    } else if x == 8 {
        Some(UnicomErrorKind::Encoding)
    } else {
        None
    }
}

/// The request body that starts at `p` (after the id) and ends the frame.
pub open spec fn parse_request_body(b: Seq<u8>, p: int) -> Option<RequestView> {
    match parse_str(b, p) {
        Some((node_name, e1)) => match parse_str(b, e1) {
            Some((name, e2)) => if e2 + 5 <= b.len() && method_of_byte(b[e2]) is Some {
                match parse_pairs(b, e2 + 5, get_le32(b, e2 + 1) as nat) {
                    Some((params, e3)) => if e3 == b.len() {
                        Some(
                            RequestView {
                                node_name,
                                name,
                                method: method_of_byte(b[e2]).unwrap(),
                                parameters: params,
                            },
                        )
                    } else {
                        None
                    },
                    None => None,
                }
            } else {
                None
            },
            None => None,
        },
        None => None,
    }
}

/// The message that a whole frame holds, if it is well formed.
pub open spec fn parse_message(b: Seq<u8>) -> Option<MessageView> {
    if b.len() < 5 || get_le32(b, 1) + 5 != b.len() {
        None
    } else if b[0] == TAG_QUIT {
        if b.len() == 5 {
            Some(MessageView::Quit)
        } else {
            None
        }
    } else if b.len() < 13 {
        None
    } else if b[0] == TAG_REQUEST {
        match parse_request_body(b, 13) {
            Some(req) => Some(MessageView::Request { id: get_le64(b, 5), req }),
            None => None,
        }
    } else if b[0] == TAG_RESPONSE {
        match parse_bytes(b, 13) {
            Some((data, e)) => if e == b.len() {
                Some(MessageView::Response { id: get_le64(b, 5), data })
            } else {
                None
            },
            None => None,
        }
    } else if b[0] == TAG_ERROR {
        if b.len() >= 14 && kind_of_byte(b[13]) is Some {
            match parse_str(b, 14) {
                Some((message, e)) => if e == b.len() {
                    Some(
                        MessageView::Error {
                            id: get_le64(b, 5),
                            kind: kind_of_byte(b[13]).unwrap(),
                            message,
                        },
                    )
                } else {
                    None
                },
                None => None,
            }
        } else {
            None
        }
    } else {
        None
    }
}


// ---------------------------------------------------------------- round trip

/// `x` stands in `b` from position `p` on.
pub open spec fn has_at(b: Seq<u8>, p: int, x: Seq<u8>) -> bool {
    0 <= p && p + x.len() <= b.len() && b.subrange(p, p + x.len()) == x
}

proof fn lemma_split(b: Seq<u8>, p: int, x: Seq<u8>, y: Seq<u8>)
    requires
        has_at(b, p, x + y),
    ensures
        has_at(b, p, x),
        has_at(b, p + x.len(), y),
{
    assert(b.subrange(p, p + x.len()) =~= (x + y).subrange(0, x.len() as int));
    assert((x + y).subrange(0, x.len() as int) =~= x);
    assert(b.subrange(p + x.len(), p + x.len() + y.len()) =~= (x + y).subrange(
        x.len() as int,
        (x.len() + y.len()) as int,
    ));
    assert((x + y).subrange(x.len() as int, (x.len() + y.len()) as int) =~= y);
}

proof fn lemma_byte_at(b: Seq<u8>, p: int, x: Seq<u8>, k: int)
    requires
        has_at(b, p, x),
        0 <= k < x.len(),
    ensures
        b[p + k] == x[k],
{
    assert(b.subrange(p, p + x.len())[k] == b[p + k]);
}

proof fn lemma_le32(b: Seq<u8>, p: int, v: u32)
    requires
        has_at(b, p, le32(v)),
    ensures
        get_le32(b, p) == v,
{
    lemma_byte_at(b, p, le32(v), 0);
    lemma_byte_at(b, p, le32(v), 1);
    lemma_byte_at(b, p, le32(v), 2);
    lemma_byte_at(b, p, le32(v), 3);
    let b0 = b[p];
    let b1 = b[p + 1];
    let b2 = b[p + 2];
    let b3 = b[p + 3];
    assert(((b0 as u32) | ((b1 as u32) << 8u32) | ((b2 as u32) << 16u32) | ((b3 as u32) << 24u32))
        == v) by (bit_vector)
        requires
            b0 == v as u8,
            b1 == (v >> 8u32) as u8,
            b2 == (v >> 16u32) as u8,
            b3 == (v >> 24u32) as u8,
    ;
}

proof fn lemma_le64(b: Seq<u8>, p: int, v: u64)
    requires
        has_at(b, p, le64(v)),
    ensures
        get_le64(b, p) == v,
{
    let x = le64(v);
    lemma_byte_at(b, p, x, 0);
    lemma_byte_at(b, p, x, 1);
    lemma_byte_at(b, p, x, 2);
    lemma_byte_at(b, p, x, 3);
    lemma_byte_at(b, p, x, 4);
    lemma_byte_at(b, p, x, 5);
    lemma_byte_at(b, p, x, 6);
    lemma_byte_at(b, p, x, 7);
    let b0 = b[p];
    let b1 = b[p + 1];
    let b2 = b[p + 2];
    let b3 = b[p + 3];
    let b4 = b[p + 4];
    let b5 = b[p + 5];
    let b6 = b[p + 6];
    let b7 = b[p + 7];
    assert(((b0 as u64) | ((b1 as u64) << 8u64) | ((b2 as u64) << 16u64) | ((b3 as u64) << 24u64)
        | ((b4 as u64) << 32u64) | ((b5 as u64) << 40u64) | ((b6 as u64) << 48u64) | ((b7 as u64)
        << 56u64)) == v) by (bit_vector)
        requires
            b0 == v as u8,
            b1 == (v >> 8u64) as u8,
            b2 == (v >> 16u64) as u8,
            b3 == (v >> 24u64) as u8,
            b4 == (v >> 32u64) as u8,
            b5 == (v >> 40u64) as u8,
            b6 == (v >> 48u64) as u8,
            b7 == (v >> 56u64) as u8,
    ;
}

proof fn lemma_parse_bytes(b: Seq<u8>, p: int, d: Seq<u8>)
    requires
        has_at(b, p, enc_bytes(d)),
        d.len() <= u32::MAX,
    ensures
        parse_bytes(b, p) == Some((d, p + enc_bytes(d).len())),
{
    lemma_split(b, p, le32(d.len() as u32), d);
    lemma_le32(b, p, d.len() as u32);
}

proof fn lemma_parse_str(b: Seq<u8>, p: int, s: Seq<char>)
    requires
        has_at(b, p, enc_str(s)),
        enc_str(s).len() <= u32::MAX,
    ensures
        parse_str(b, p) == Some((s, p + enc_str(s).len())),
{
    lemma_parse_bytes(b, p, encode_utf8(s));
    encode_utf8_valid_utf8(s);
    encode_utf8_decode_utf8(s);
}

proof fn lemma_parse_value(b: Seq<u8>, p: int, v: ParamView)
    requires
        has_at(b, p, enc_value(v)),
        enc_value(v).len() <= u32::MAX,
    ensures
        parse_value(b, p) == Some((v, p + enc_value(v).len())),
{
    lemma_byte_at(b, p, enc_value(v), 0);
    match v {
        ParamView::Null => {},
        ParamView::Bool(x) => {
            lemma_byte_at(b, p, enc_value(v), 1);
        },
        ParamView::Int(i) => {
            lemma_split(b, p, seq![2u8], le64(i as u64));
            lemma_le64(b, p + 1, i as u64);
            assert(((i as u64) as i64) == i) by (bit_vector);
        },
        ParamView::Number(s) => {
            lemma_split(b, p, seq![3u8], enc_str(s));
            lemma_parse_str(b, p + 1, s);
        },
        ParamView::Text(s) => {
            lemma_split(b, p, seq![4u8], enc_str(s));
            lemma_parse_str(b, p + 1, s);
        },
        ParamView::Json(s) => {
            lemma_split(b, p, seq![5u8], enc_str(s));
            lemma_parse_str(b, p + 1, s);
        },
    }
}

proof fn lemma_parse_pairs(b: Seq<u8>, p: int, ps: Seq<(Seq<char>, ParamView)>)
    requires
        has_at(b, p, enc_pairs(ps)),
        enc_pairs(ps).len() <= u32::MAX,
    ensures
        parse_pairs(b, p, ps.len()) == Some((ps, p + enc_pairs(ps).len())),
    decreases ps.len(),
{
    if ps.len() > 0 {
        let x = ps[0];
        let rest = ps.drop_first();
        lemma_split(b, p, enc_pair(x), enc_pairs(rest));
        lemma_split(b, p, enc_str(x.0), enc_value(x.1));
        lemma_parse_str(b, p, x.0);
        lemma_parse_value(b, p + enc_str(x.0).len() as int, x.1);
        lemma_parse_pairs(b, p + enc_pair(x).len() as int, rest);
        assert(seq![x] + rest =~= ps);
        assert((ps.len() - 1) as nat == rest.len());
    }
}

proof fn lemma_pairs_len(ps: Seq<(Seq<char>, ParamView)>)
    ensures
        enc_pairs(ps).len() >= ps.len(),
    decreases ps.len(),
{
    if ps.len() > 0 {
        lemma_pairs_len(ps.drop_first());
    }
}

proof fn lemma_request_body(b: Seq<u8>, id: u64, req: RequestView)
    requires
        has_at(b, 5, body_of(MessageView::Request { id, req })),
        b.len() == 5 + body_of(MessageView::Request { id, req }).len(),
        body_of(MessageView::Request { id, req }).len() <= u32::MAX,
    ensures
        get_le64(b, 5) == id,
        parse_request_body(b, 13) == Some(req),
{
    let body = body_of(MessageView::Request { id, req });
    let s1 = enc_str(req.node_name);
    let s2 = enc_str(req.name);
    let mb = seq![method_byte(req.method)];
    let cnt = le32(req.parameters.len() as u32);
    let ps = enc_pairs(req.parameters);
    assert(body =~= le64(id) + (s1 + (s2 + (mb + (cnt + ps)))));
    lemma_split(b, 5, le64(id), s1 + (s2 + (mb + (cnt + ps))));
    lemma_le64(b, 5, id);
    lemma_split(b, 13, s1, s2 + (mb + (cnt + ps)));
    lemma_parse_str(b, 13, req.node_name);
    let e1: int = 13 + s1.len() as int;
    lemma_split(b, e1, s2, mb + (cnt + ps));
    lemma_parse_str(b, e1, req.name);
    let e2: int = e1 + s2.len() as int;
    lemma_split(b, e2, mb, cnt + ps);
    lemma_byte_at(b, e2, mb, 0);
    lemma_split(b, e2 + 1, cnt, ps);
    lemma_pairs_len(req.parameters);
    lemma_le32(b, e2 + 1, req.parameters.len() as u32);
    lemma_parse_pairs(b, e2 + 5, req.parameters);
    assert(method_of_byte(b[e2]) == Some(req.method));
}

proof fn lemma_error_body(b: Seq<u8>, id: u64, kind: UnicomErrorKind, message: Seq<char>)
    requires
        has_at(b, 5, body_of(MessageView::Error { id, kind, message })),
        b.len() == 5 + body_of(MessageView::Error { id, kind, message }).len(),
        body_of(MessageView::Error { id, kind, message }).len() <= u32::MAX,
    ensures
        get_le64(b, 5) == id,
        b.len() >= 14,
        kind_of_byte(b[13]) == Some(kind),
        parse_str(b, 14) == Some((message, b.len() as int)),
{
    let kb = seq![kind_byte(kind)];
    assert(body_of(MessageView::Error { id, kind, message }) =~= le64(id) + (kb + enc_str(message)));
    lemma_split(b, 5, le64(id), kb + enc_str(message));
    lemma_le64(b, 5, id);
    lemma_split(b, 13, kb, enc_str(message));
    lemma_byte_at(b, 13, kb, 0);
    lemma_parse_str(b, 14, message);
}

proof fn lemma_response_body(b: Seq<u8>, id: u64, data: Seq<u8>)
    requires
        has_at(b, 5, body_of(MessageView::Response { id, data })),
        b.len() == 5 + body_of(MessageView::Response { id, data }).len(),
        body_of(MessageView::Response { id, data }).len() <= u32::MAX,
    ensures
        get_le64(b, 5) == id,
        parse_bytes(b, 13) == Some((data, b.len() as int)),
{
    lemma_split(b, 5, le64(id), enc_bytes(data));
    lemma_le64(b, 5, id);
    lemma_parse_bytes(b, 13, data);
}

/// Decoding the frame of any message that fits the format gives back that
/// message: the frame codec is lossless.
pub proof fn lemma_round_trip(m: MessageView)
    requires
        encodable(m),
    ensures
        parse_message(frame_of(m)) == Some(m),
{
    let b = frame_of(m);
    let body = body_of(m);
    let head = seq![tag_of(m)] + le32(body.len() as u32);
    assert(has_at(b, 0, b)) by {
        assert(b.subrange(0, b.len() as int) =~= b);
    }
    lemma_split(b, 0, head, body);
    lemma_split(b, 0, seq![tag_of(m)], le32(body.len() as u32));
    lemma_byte_at(b, 0, seq![tag_of(m)], 0);
    lemma_le32(b, 1, body.len() as u32);
    assert(b.len() == 5 + body.len());
    match m {
        MessageView::Request { id, req } => {
            lemma_request_body(b, id, req);
        },
        MessageView::Response { id, data } => {
            lemma_response_body(b, id, data);
        },
        MessageView::Error { id, kind, message } => {
            lemma_error_body(b, id, kind, message);
        },
        MessageView::Quit => {},
    }
}


// ---------------------------------------------------------------- executable encoder

proof fn lemma_pairs_push(a: Seq<(Seq<char>, ParamView)>, x: (Seq<char>, ParamView))
    ensures
        enc_pairs(a.push(x)) == enc_pairs(a) + enc_pair(x),
    decreases a.len(),
{
    if a.len() == 0 {
        assert(a.push(x).drop_first() =~= seq![]);
        assert(enc_pairs(a.push(x)) =~= enc_pair(x) + enc_pairs(seq![]));
        assert(enc_pairs(a.push(x)) =~= enc_pairs(a) + enc_pair(x));
    } else {
        lemma_pairs_push(a.drop_first(), x);
        assert(a.push(x).drop_first() =~= a.drop_first().push(x));
        assert(enc_pairs(a.push(x)) =~= enc_pairs(a) + enc_pair(x));
    }
}

fn push_le32(out: &mut Vec<u8>, v: u32)
    ensures
        final(out)@ == old(out)@ + le32(v),
{
    out.push(v as u8);
    out.push((v >> 8u32) as u8);
    out.push((v >> 16u32) as u8);
    out.push((v >> 24u32) as u8);
    proof {
        assert(out@ =~= old(out)@ + le32(v));
    }
}

fn push_le64(out: &mut Vec<u8>, v: u64)
    ensures
        final(out)@ == old(out)@ + le64(v),
{
    out.push(v as u8);
    out.push((v >> 8u64) as u8);
    out.push((v >> 16u64) as u8);
    out.push((v >> 24u64) as u8);
    out.push((v >> 32u64) as u8);
    out.push((v >> 40u64) as u8);
    out.push((v >> 48u64) as u8);
    out.push((v >> 56u64) as u8);
    proof {
        assert(out@ =~= old(out)@ + le64(v));
    }
}

fn push_raw(out: &mut Vec<u8>, b: &[u8])
    ensures
        final(out)@ == old(out)@ + b@,
{
    let mut i: usize = 0;
    while i < b.len()
        invariant
            0 <= i <= b@.len(),
            out@ == old(out)@ + b@.subrange(0, i as int),
        decreases b@.len() - i,
    {
        out.push(b[i]);
        proof {
            assert(b@.subrange(0, i + 1) =~= b@.subrange(0, i as int).push(b@[i as int]));
            assert(out@ =~= old(out)@ + b@.subrange(0, i + 1));
        }
        i = i + 1;
    }
    proof {
        assert(b@.subrange(0, b@.len() as int) =~= b@);
    }
}

fn push_bytes(out: &mut Vec<u8>, b: &[u8])
    ensures
        final(out)@ == old(out)@ + enc_bytes(b@),
{
    push_le32(out, b.len() as u32);
    push_raw(out, b);
    proof {
        assert(out@ =~= old(out)@ + enc_bytes(b@));
    }
}

fn push_str(out: &mut Vec<u8>, s: &str)
    ensures
        final(out)@ == old(out)@ + enc_str(s@),
{
    let bytes = s.as_bytes();
    push_bytes(out, bytes);
}

fn push_value(out: &mut Vec<u8>, v: &ParamValue)
    ensures
        final(out)@ == old(out)@ + enc_value(v@),
{
    match v {
        ParamValue::Null => {
            out.push(0u8);
        },
        ParamValue::Bool(x) => {
            out.push(1u8);
            out.push(if *x { 1u8 } else { 0u8 });
        },
        ParamValue::Int(i) => {
            out.push(2u8);
            push_le64(out, *i as u64);
        },
        ParamValue::Number(t) => {
            out.push(3u8);
            push_str(out, t.as_str());
        },
        ParamValue::Text(t) => {
            out.push(4u8);
            push_str(out, t.as_str());
        },
        ParamValue::Json(t) => {
            out.push(5u8);
            push_str(out, t.as_str());
        },
    }
    proof {
        assert(out@ =~= old(out)@ + enc_value(v@));
    }
}

fn push_pairs(out: &mut Vec<u8>, ps: &Vec<(String, ParamValue)>)
    ensures
        final(out)@ == old(out)@ + enc_pairs(params_view(ps@)),
{
    let ghost pv = params_view(ps@);
    let mut i: usize = 0;
    while i < ps.len()
        invariant
            0 <= i <= ps@.len(),
            pv == params_view(ps@),
            out@ == old(out)@ + enc_pairs(pv.subrange(0, i as int)),
        decreases ps@.len() - i,
    {
        let ghost before = out@;
        push_str(out, ps[i].0.as_str());
        push_value(out, &ps[i].1);
        proof {
            lemma_pairs_push(pv.subrange(0, i as int), pv[i as int]);
            assert(pv.subrange(0, i + 1) =~= pv.subrange(0, i as int).push(pv[i as int]));
            assert(out@ =~= old(out)@ + enc_pairs(pv.subrange(0, i + 1)));
        }
        i = i + 1;
    }
    proof {
        assert(pv.subrange(0, ps@.len() as int) =~= pv);
    }
}

fn push_body(out: &mut Vec<u8>, m: &UnixMessage)
    ensures
        final(out)@ == old(out)@ + body_of(m@),
{
    match m {
        UnixMessage::Request { id, data } => {
            push_le64(out, *id);
            push_str(out, data.node_name.as_str());
            push_str(out, data.name.as_str());
            out.push(method_to_byte(data.method));
            push_le32(out, data.parameters.len() as u32);
            push_pairs(out, &data.parameters);
        },
        UnixMessage::Response { id, data } => {
            push_le64(out, *id);
            push_bytes(out, data.as_slice());
        },
        UnixMessage::Error { id, error } => {
            push_le64(out, *id);
            out.push(kind_to_byte(error.kind));
            push_str(out, error.message.as_str());
        },
        UnixMessage::Quit => {},
    }
    proof {
        assert(out@ =~= old(out)@ + body_of(m@));
    }
}

fn method_to_byte(k: MethodKind) -> (r: u8)
    ensures
        r == method_byte(k),
{
    match k {
        MethodKind::GET => 0,
        MethodKind::POST => 1,
        MethodKind::PUT => 2,
        MethodKind::DELETE => 3,
    }
}

fn kind_to_byte(k: UnicomErrorKind) -> (r: u8)
    ensures
        r == kind_byte(k),
{
    match k {
        UnicomErrorKind::NotFound => 0,
        UnicomErrorKind::ParameterInvalid => 1,
        UnicomErrorKind::InputInvalid => 2,
        UnicomErrorKind::NotAllowed => 3,
        UnicomErrorKind::Timeout => 4,
        UnicomErrorKind::Empty => 5,
        UnicomErrorKind::Internal => 6,
        UnicomErrorKind::Io => 7,
        UnicomErrorKind::Encoding => 8,
    }
}

/// The frame of `m`; an `Encoding` error when its body is too long for the
/// length field.
pub fn encode_message(m: &UnixMessage) -> (r: Result<Vec<u8>, UnicomError>)
    ensures
        match r {
            Ok(b) => encodable(m@) && b@ == frame_of(m@),
            Err(e) => !encodable(m@) && e.kind == UnicomErrorKind::Encoding,
        },
{
    let mut body: Vec<u8> = Vec::new();
    push_body(&mut body, m);
    proof {
        assert(body@ =~= body_of(m@));
    }
    if body.len() > 0xFFFF_FFFFusize {
        return Err(UnicomError::new(UnicomErrorKind::Encoding, "message too long"));
    }
    let mut out: Vec<u8> = Vec::new();
    out.push(tag_to_byte(m));
    push_le32(&mut out, body.len() as u32);
    push_raw(&mut out, body.as_slice());
    proof {
        assert(out@ =~= frame_of(m@));
    }
    Ok(out)
}

fn tag_to_byte(m: &UnixMessage) -> (r: u8)
    ensures
        r == tag_of(m@),
{
    match m {
        UnixMessage::Request { .. } => TAG_REQUEST,
        UnixMessage::Response { .. } => TAG_RESPONSE,
        UnixMessage::Error { .. } => TAG_ERROR,
        UnixMessage::Quit => TAG_QUIT,
    }
}


// ---------------------------------------------------------------- executable decoder

/// Relies on `String::from_utf8`: it accepts exactly the valid UTF-8 byte
/// strings and yields the characters they encode.
#[verifier::external_body]
fn string_from_utf8(v: Vec<u8>) -> (r: Option<String>)
    ensures
        match r {
            Some(s) => valid_utf8(v@) && s@ == decode_utf8(v@),
            None => !valid_utf8(v@),
        },
{
    String::from_utf8(v).ok()
}

fn read_le32(b: &[u8], p: usize) -> (r: u32)
    requires
        p + 4 <= b@.len(),
    ensures
        r == get_le32(b@, p as int),
{
    (b[p] as u32) | ((b[p + 1] as u32) << 8u32) | ((b[p + 2] as u32) << 16u32) | ((b[p + 3] as u32)
        << 24u32)
}

fn read_le64(b: &[u8], p: usize) -> (r: u64)
    requires
        p + 8 <= b@.len(),
    ensures
        r == get_le64(b@, p as int),
{
    (b[p] as u64) | ((b[p + 1] as u64) << 8u64) | ((b[p + 2] as u64) << 16u64) | ((b[p + 3] as u64)
        << 24u64) | ((b[p + 4] as u64) << 32u64) | ((b[p + 5] as u64) << 40u64) | ((b[p + 6] as u64)
        << 48u64) | ((b[p + 7] as u64) << 56u64)
}

fn copy_range(b: &[u8], from: usize, to: usize) -> (r: Vec<u8>)
    requires
        from <= to <= b@.len(),
    ensures
        r@ == b@.subrange(from as int, to as int),
{
    let mut out: Vec<u8> = Vec::new();
    let mut i: usize = from;
    while i < to
        invariant
            from <= i <= to <= b@.len(),
            out@ == b@.subrange(from as int, i as int),
        decreases to - i,
    {
        out.push(b[i]);
        proof {
            assert(out@ =~= b@.subrange(from as int, i + 1));
        }
        i = i + 1;
    }
    out
}

fn read_bytes(b: &[u8], p: usize) -> (r: Option<(Vec<u8>, usize)>)
    ensures
        match r {
            Some((x, e)) => parse_bytes(b@, p as int) == Some((x@, e as int)),
            None => parse_bytes(b@, p as int) is None,
        },
{
    if p > b.len() || b.len() - p < 4 {
        return None;
    }
    let n = read_le32(b, p);
    if b.len() - p - 4 < n as usize {
        return None;
    }
    let e = p + 4 + n as usize;
    let x = copy_range(b, p + 4, e);
    Some((x, e))
}

fn read_str(b: &[u8], p: usize) -> (r: Option<(String, usize)>)
    ensures
        match r {
            Some((x, e)) => parse_str(b@, p as int) == Some((x@, e as int)),
            None => parse_str(b@, p as int) is None,
        },
{
    match read_bytes(b, p) {
        Some((x, e)) => match string_from_utf8(x) {
            Some(s) => Some((s, e)),
            None => None,
        },
        None => None,
    }
}

fn read_value(b: &[u8], p: usize) -> (r: Option<(ParamValue, usize)>)
    ensures
        match r {
            Some((x, e)) => parse_value(b@, p as int) == Some((x@, e as int)),
            None => parse_value(b@, p as int) is None,
        },
{
    if p >= b.len() {
        return None;
    }
    let t = b[p];
    if t == 0 {
        Some((ParamValue::Null, p + 1))
    } else if t == 1 {
        if b.len() - p >= 2 && b[p + 1] <= 1 {
            Some((ParamValue::Bool(b[p + 1] == 1), p + 2))
        } else {
            None
        }
    } else if t == 2 {
        if b.len() - p >= 9 {
            Some((ParamValue::Int(read_le64(b, p + 1) as i64), p + 9))
        } else {
            None
        }
    } else if 3 <= t && t <= 5 {
        match read_str(b, p + 1) {
            Some((s, e)) => {
                let v = if t == 3 {
                    ParamValue::Number(s)
                } else if t == 4 {
                    ParamValue::Text(s)
                } else {
                    ParamValue::Json(s)
                };
                Some((v, e))
            },
            None => None,
        }
    } else {
        None
    }
}

fn read_pairs(b: &[u8], p: usize, n: u32) -> (r: Option<(Vec<(String, ParamValue)>, usize)>)
    ensures
        match r {
            Some((x, e)) => parse_pairs(b@, p as int, n as nat) == Some((params_view(x@), e as int)),
            None => parse_pairs(b@, p as int, n as nat) is None,
        },
{
    let mut out: Vec<(String, ParamValue)> = Vec::new();
    let mut pos: usize = p;
    let mut i: u32 = 0;
    while i < n
        invariant
            0 <= i <= n,
            parse_pairs(b@, p as int, n as nat) == match parse_pairs(b@, pos as int, (n - i) as nat) {
                Some((rest, e)) => Some((params_view(out@) + rest, e)),
                None => None,
            },
        decreases n - i,
    {
        let k = read_str(b, pos);
        match k {
            Some((key, e1)) => {
                let v = read_value(b, e1);
                match v {
                    Some((val, e2)) => {
                        let ghost before = params_view(out@);
                        let ghost x = (key@, val@);
                        out.push((key, val));
                        proof {
                            assert(params_view(out@) =~= before.push(x));
                            let later = parse_pairs(b@, e2 as int, (n - i - 1) as nat);
                            match later {
                                Some((rest, e)) => {
                                    assert(before + (seq![x] + rest) =~= before.push(x) + rest);
                                },
                                None => {},
                            }
                        }
                        pos = e2;
                    },
                    None => {
                        return None;
                    },
                }
            },
            None => {
                return None;
            },
        }
        i = i + 1;
    }
    proof {
        assert(params_view(out@) + seq![] =~= params_view(out@));
    }
    Some((out, pos))
}

fn method_from_byte(x: u8) -> (r: Option<MethodKind>)
    ensures
        r == method_of_byte(x),
{
    if x == 0 {
        Some(MethodKind::GET)
    } else if x == 1 {
        Some(MethodKind::POST)
    } else if x == 2 {
        Some(MethodKind::PUT)
    } else if x == 3 {
        Some(MethodKind::DELETE)
    } else {
        None
    }
}

fn kind_from_byte(x: u8) -> (r: Option<UnicomErrorKind>)
    ensures
        r == kind_of_byte(x),
{
    if x == 0 {
        Some(UnicomErrorKind::NotFound)
    } else if x == 1 {
        Some(UnicomErrorKind::ParameterInvalid)
    } else if x == 2 {
        Some(UnicomErrorKind::InputInvalid)
    } else if x == 3 {
        Some(UnicomErrorKind::NotAllowed)
    } else if x == 4 {
        Some(UnicomErrorKind::Timeout)
    } else if x == 5 {
        Some(UnicomErrorKind::Empty)
    } else if x == 6 {
        Some(UnicomErrorKind::Internal)
    } else if x == 7 {
        Some(UnicomErrorKind::Io)
    } else if x == 8 {
        Some(UnicomErrorKind::Encoding)
    } else {
        None
    }
}

fn read_request_body(b: &[u8], p: usize) -> (r: Option<UnicomRequest>)
    ensures
        match r {
            Some(x) => parse_request_body(b@, p as int) == Some(x@),
            None => parse_request_body(b@, p as int) is None,
        },
{
    let (node_name, e1) = match read_str(b, p) {
        Some(x) => x,
        None => return None,
    };
    let (name, e2) = match read_str(b, e1) {
        Some(x) => x,
        None => return None,
    };
    if b.len() - e2 < 5 {
        return None;
    }
    let method = match method_from_byte(b[e2]) {
        Some(m) => m,
        None => return None,
    };
    let n = read_le32(b, e2 + 1);
    let (parameters, e3) = match read_pairs(b, e2 + 5, n) {
        Some(x) => x,
        None => return None,
    };
    if e3 != b.len() {
        return None;
    }
    Some(UnicomRequest { node_name, name, method, parameters })
}

fn decode_error() -> (r: UnicomError)
    ensures
        r.kind == UnicomErrorKind::Encoding,
{
    UnicomError::new(UnicomErrorKind::Encoding, "malformed frame")
}

/// The message that a whole frame holds; an `Encoding` error exactly when the
/// bytes are no well formed frame.
pub fn decode_message(b: &[u8]) -> (r: Result<UnixMessage, UnicomError>)
    ensures
        match r {
            Ok(m) => parse_message(b@) == Some(m@),
            Err(e) => parse_message(b@) is None && e.kind == UnicomErrorKind::Encoding,
        },
{
    if b.len() < 5 || read_le32(b, 1) as usize != b.len() - 5 {
        return Err(decode_error());
    }
    if b[0] == TAG_QUIT {
        if b.len() == 5 {
            return Ok(UnixMessage::Quit);
        }
        return Err(decode_error());
    }
    if b.len() < 13 {
        return Err(decode_error());
    }
    let id = read_le64(b, 5);
    if b[0] == TAG_REQUEST {
        match read_request_body(b, 13) {
            Some(data) => Ok(UnixMessage::Request { id, data }),
            None => Err(decode_error()),
        }
    } else if b[0] == TAG_RESPONSE {
        match read_bytes(b, 13) {
            Some((data, e)) => if e == b.len() {
                Ok(UnixMessage::Response { id, data })
            } else {
                Err(decode_error())
            },
            None => Err(decode_error()),
        }
    } else if b[0] == TAG_ERROR {
        if b.len() < 14 {
            return Err(decode_error());
        }
        let kind = match kind_from_byte(b[13]) {
            Some(k) => k,
            None => return Err(decode_error()),
        };
        match read_str(b, 14) {
            Some((message, e)) => if e == b.len() {
                Ok(UnixMessage::Error { id, error: UnicomError { kind, message } })
            } else {
                Err(decode_error())
            },
            None => Err(decode_error()),
        }
    } else {
        Err(decode_error())
    }
}

/// Length of the body announced by a frame header.
pub fn header_body_len(header: &[u8]) -> (r: usize)
    requires
        header@.len() >= HEADER_LEN,
    ensures
        r == get_le32(header@, 1),
{
    read_le32(header, 1) as usize
}

/// The manifest bytes of the first frame that a node sends; an `Encoding`
/// error when the frame is no complete `Init` frame.
pub fn decode_init(b: &[u8]) -> (r: Result<Vec<u8>, UnicomError>)
    ensures
        match r {
            Ok(body) => b@.len() >= 5 && b@[0] == TAG_INIT && get_le32(b@, 1) + 5 == b@.len()
                && body@ == b@.subrange(5, b@.len() as int),
            Err(e) => e.kind == UnicomErrorKind::Encoding && !(b@.len() >= 5 && b@[0] == TAG_INIT
                && get_le32(b@, 1) + 5 == b@.len()),
        },
{
    if b.len() < 5 || b[0] != TAG_INIT || read_le32(b, 1) as usize != b.len() - 5 {
        return Err(decode_error());
    }
    Ok(copy_range(b, 5, b.len()))
}

} // verus!
