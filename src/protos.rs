use vstd::prelude::*;
use vstd::utf8::{decode_utf8, encode_utf8, encode_utf8_decode_utf8, encode_utf8_valid_utf8, valid_utf8};

use crate::metadata::KeyValue;
use crate::status::{Any, Status};
use crate::wire::{
    copy_bytes, fold_fields, key_bytes, lemma_len_field_at, varint, lemma_read_field_bound, lemma_varint_field_at, len_field, push_len_field,
    push_string_field, push_varint_field, read_field, read_field_at, string_field, text_at, text_of, varint_field,
    WireValue, MAX_TAG,
};

verus! {

broadcast use {encode_utf8_decode_utf8, encode_utf8_valid_utf8};

/// The bytes of a key/value entry: key as field 1, value as field 2.
pub open spec fn kv_bytes(key: Seq<char>, value: Seq<char>) -> Seq<u8> {
    string_field(1, key) + string_field(2, value)
}

/// How one field changes a key/value entry being read from `s`.
pub open spec fn kv_step(s: Seq<u8>) -> spec_fn((Seq<char>, Seq<char>), u64, WireValue) -> Option<(Seq<char>, Seq<char>)> {
    |m: (Seq<char>, Seq<char>), t: u64, v: WireValue|
        if t == 1 || t == 2 {
            match v {
                WireValue::Bytes(a, b) => match text_at(s, a as int, b as int) {
                    Some(x) => if t == 1 {
                        Some((x, m.1))
                    } else {
                        Some((m.0, x))
                    },
                    None => None,
                },
                _ => None,
            }
        } else {
            Some(m)
        }
}

/// The key/value entry that `s` encodes, if it reads as one.
pub open spec fn decode_kv(s: Seq<u8>) -> Option<(Seq<char>, Seq<char>)> {
    fold_fields(s, 0, (Seq::empty(), Seq::empty()), kv_step(s))
}

pub fn encode_key_value(kv: &KeyValue) -> (r: Vec<u8>)
    ensures
        r@ == kv_bytes(kv.key@, kv.value@),
{
    let mut out: Vec<u8> = Vec::new();
    push_string_field(&mut out, 1, &kv.key);
    push_string_field(&mut out, 2, &kv.value);
    assert(out@ =~= kv_bytes(kv.key@, kv.value@));
    out
}

pub fn decode_key_value(s: &[u8]) -> (r: Option<KeyValue>)
    ensures
        match decode_kv(s@) {
            Some((k, v)) => r matches Some(x) && x.key@ == k && x.value@ == v,
            None => r is None,
        },
{
    let mut key = String::new();
    let mut value = String::new();
    let mut pos: usize = 0;
    let len = s.len();
    while pos < s.len()
        invariant
            pos <= s@.len(),
            decode_kv(s@) == fold_fields(s@, pos as int, (key@, value@), kv_step(s@)),
        decreases s@.len() - pos,
    {
        let (t, v, p) = match read_field_at(s, pos) {
            Some(x) => x,
            None => return None,
        };
        proof {
            lemma_read_field_bound(s@, pos as int);
        }
        if t == 1 || t == 2 {
            match v {
                WireValue::Bytes(a, b) => match text_of(s, a, b) {
                    Some(x) => if t == 1 {
                        key = x;
                    } else {
                        value = x;
                    },
                    None => return None,
                },
                _ => return None,
            }
        }
        pos = p;
    }
    Some(KeyValue { key, value })
}

/// Text written as a string field after `pre` is read back there, followed
/// by `rest`.
pub proof fn lemma_string_field_at(pre: Seq<u8>, tag: u64, text: Seq<char>, rest: Seq<u8>)
    requires
        1 <= tag <= MAX_TAG,
        encode_utf8(text).len() > 0,
        pre.len() + string_field(tag, text).len() + rest.len() <= usize::MAX,
    ensures
        ({
            let s = pre + string_field(tag, text) + rest;
            let end = pre.len() + string_field(tag, text).len();
            read_field(s, pre.len() as int) matches Some((t, v, p)) && t == tag && p == end && (v matches WireValue::Bytes(
                a,
                b,
            ) && text_at(s, a as int, b as int) == Some(text))
        }),
{
    let b = encode_utf8(text);
    lemma_len_field_at(pre, tag, b, rest);
    assert(decode_utf8(b) == text);
}

/// An empty encoding only comes from empty text.
pub proof fn lemma_empty_text(text: Seq<char>)
    requires
        encode_utf8(text).len() == 0,
    ensures
        text == Seq::<char>::empty(),
{
    assert(encode_utf8(text) =~= Seq::<u8>::empty());
    assert(decode_utf8(encode_utf8(text)) == text);
    assert(decode_utf8(Seq::<u8>::empty()) =~= Seq::<char>::empty()) by {
        reveal_with_fuel(decode_utf8, 1);
    }
}

/// The fold over an empty remainder leaves the value as it is.
pub proof fn lemma_fold_at_end<M>(s: Seq<u8>, m: M, step: spec_fn(M, u64, WireValue) -> Option<M>)
    ensures
        fold_fields(s, s.len() as int, m, step) == Some(m),
{
}

/// An entry written as bytes is read back as the same entry.
pub proof fn lemma_kv_round_trip(key: Seq<char>, value: Seq<char>)
    requires
        kv_bytes(key, value).len() <= usize::MAX,
    ensures
        decode_kv(kv_bytes(key, value)) == Some((key, value)),
{
    let s = kv_bytes(key, value);
    let f1 = string_field(1, key);
    let f2 = string_field(2, value);
    let empty = Seq::<u8>::empty();
    let e = Seq::<char>::empty();
    let step = kv_step(s);
    if encode_utf8(key).len() > 0 {
        lemma_string_field_at(empty, 1, key, f2);
        assert(empty + f1 + f2 =~= s);
    } else {
        lemma_empty_text(key);
    }
    if encode_utf8(value).len() > 0 {
        lemma_string_field_at(f1, 2, value, empty);
        assert(f1 + f2 + empty =~= s);
    } else {
        lemma_empty_text(value);
    }
    lemma_fold_at_end(s, (key, value), step);
    assert(fold_fields(s, f1.len() as int, (key, e), step) == fold_fields(s, s.len() as int, (key, value), step));
    assert(fold_fields(s, 0, (e, e), step) == fold_fields(s, f1.len() as int, (key, e), step));
}

/// A call as the client sends it: the method to run, its encoded input, the
/// timeout in nanoseconds (zero for none) and metadata entries.
#[derive(Clone, Debug)]
pub struct Request {
    pub service: String,
    pub method: String,
    pub payload: Vec<u8>,
    pub timeout_nano: i64,
    pub metadata: Vec<KeyValue>,
}

/// What a request holds, as plain values.
pub struct RequestModel {
    pub service: Seq<char>,
    pub method: Seq<char>,
    pub payload: Seq<u8>,
    pub timeout_nano: i64,
    pub metadata: Seq<(Seq<char>, Seq<char>)>,
}

pub open spec fn kv_view(kv: KeyValue) -> (Seq<char>, Seq<char>) {
    (kv.key@, kv.value@)
}

impl Request {
    pub open spec fn model(&self) -> RequestModel {
        RequestModel {
            service: self.service@,
            method: self.method@,
            payload: self.payload@,
            timeout_nano: self.timeout_nano,
            metadata: self.metadata@.map_values(|kv: KeyValue| kv_view(kv)),
        }
    }
}

/// Each metadata entry as field 5, in order.
pub open spec fn metadata_bytes(md: Seq<(Seq<char>, Seq<char>)>) -> Seq<u8>
    decreases md.len(),
{
    if md.len() == 0 {
        Seq::empty()
    } else {
        metadata_bytes(md.drop_last()) + len_field(5, kv_bytes(md.last().0, md.last().1))
    }
}

/// The fields of a request before its metadata.
pub open spec fn request_head_bytes(m: RequestModel) -> Seq<u8> {
    string_field(1, m.service) + string_field(2, m.method) + len_field(3, m.payload) + if m.timeout_nano != 0 {
        varint_field(4, m.timeout_nano as u64)
    } else {
        Seq::empty()
    }
}

/// The bytes of a request: service, method, payload, timeout when not zero,
/// then each metadata entry.
pub open spec fn request_bytes(m: RequestModel) -> Seq<u8> {
    request_head_bytes(m) + metadata_bytes(m.metadata)
}

pub open spec fn empty_request() -> RequestModel {
    RequestModel {
        service: Seq::empty(),
        method: Seq::empty(),
        payload: Seq::empty(),
        timeout_nano: 0,
        metadata: Seq::empty(),
    }
}

/// How one field changes a request being read from `s`. Fields of other
/// numbers are skipped; a known field with the wrong wire type is refused.
pub open spec fn request_step(s: Seq<u8>) -> spec_fn(RequestModel, u64, WireValue) -> Option<RequestModel> {
    |m: RequestModel, t: u64, v: WireValue|
        if t == 1 || t == 2 {
            match v {
                WireValue::Bytes(a, b) => match text_at(s, a as int, b as int) {
                    Some(x) => if t == 1 {
                        Some(RequestModel { service: x, ..m })
                    } else {
                        Some(RequestModel { method: x, ..m })
                    },
                    None => None,
                },
                _ => None,
            }
        } else if t == 3 {
            match v {
                WireValue::Bytes(a, b) => Some(RequestModel { payload: s.subrange(a as int, b as int), ..m }),
                _ => None,
            }
        } else if t == 4 {
            match v {
                WireValue::Varint(x) => Some(RequestModel { timeout_nano: x as i64, ..m }),
                _ => None,
            }
        } else if t == 5 {
            match v {
                WireValue::Bytes(a, b) => match decode_kv(s.subrange(a as int, b as int)) {
                    Some(kv) => Some(RequestModel { metadata: m.metadata.push(kv), ..m }),
                    None => None,
                },
                _ => None,
            }
        } else {
            Some(m)
        }
}

/// The request that `s` encodes, if it reads as one.
pub open spec fn decode_request_spec(s: Seq<u8>) -> Option<RequestModel> {
    fold_fields(s, 0, empty_request(), request_step(s))
}

pub fn encode_request(r: &Request) -> (out: Vec<u8>)
    ensures
        out@ == request_bytes(r.model()),
{
    let mut out: Vec<u8> = Vec::new();
    push_string_field(&mut out, 1, &r.service);
    push_string_field(&mut out, 2, &r.method);
    push_len_field(&mut out, 3, r.payload.as_slice());
    if r.timeout_nano != 0 {
        push_varint_field(&mut out, 4, r.timeout_nano as u64);
    }
    let ghost head = out@;
    assert(head =~= request_head_bytes(r.model()));
    let ghost md = r.model().metadata;
    let mut i: usize = 0;
    while i < r.metadata.len()
        invariant
            i <= r.metadata@.len(),
            md == r.metadata@.map_values(|kv: KeyValue| kv_view(kv)),
            out@ == head + metadata_bytes(md.subrange(0, i as int)),
        decreases r.metadata@.len() - i,
    {
        let b = encode_key_value(&r.metadata[i]);
        push_len_field(&mut out, 5, b.as_slice());
        proof {
            let next = md.subrange(0, i + 1);
            assert(next.drop_last() =~= md.subrange(0, i as int));
            assert(next.last() == kv_view(r.metadata@[i as int]));
        }
        i = i + 1;
    }
    assert(md.subrange(0, md.len() as int) =~= md);
    out
}

pub fn decode_request(s: &[u8]) -> (r: Option<Request>)
    ensures
        match decode_request_spec(s@) {
            Some(m) => r matches Some(x) && x.model() == m,
            None => r is None,
        },
{
    let mut req = Request {
        service: String::new(),
        method: String::new(),
        payload: Vec::new(),
        timeout_nano: 0,
        metadata: Vec::new(),
    };
    assert(req.model().metadata =~= Seq::<(Seq<char>, Seq<char>)>::empty());
    assert(req.model() == empty_request());
    let mut pos: usize = 0;
    let len = s.len();
    while pos < s.len()
        invariant
            pos <= s@.len(),
            decode_request_spec(s@) == fold_fields(s@, pos as int, req.model(), request_step(s@)),
        decreases s@.len() - pos,
    {
        let (t, v, p) = match read_field_at(s, pos) {
            Some(x) => x,
            None => return None,
        };
        proof {
            lemma_read_field_bound(s@, pos as int);
        }
        let ghost before = req.model();
        if t == 1 || t == 2 {
            match v {
                WireValue::Bytes(a, b) => match text_of(s, a, b) {
                    Some(x) => if t == 1 {
                        req.service = x;
                    } else {
                        req.method = x;
                    },
                    None => return None,
                },
                _ => return None,
            }
        } else if t == 3 {
            match v {
                WireValue::Bytes(a, b) => {
                    req.payload = copy_bytes(s, a, b);
                },
                _ => return None,
            }
        } else if t == 4 {
            match v {
                WireValue::Varint(x) => {
                    req.timeout_nano = x as i64;
                },
                _ => return None,
            }
        } else if t == 5 {
            match v {
                WireValue::Bytes(a, b) => {
                    let sub = copy_bytes(s, a, b);
                    match decode_key_value(sub.as_slice()) {
                        Some(kv) => {
                            req.metadata.push(kv);
                            proof {
                                assert(req.model().metadata =~= before.metadata.push(kv_view(kv)));
                            }
                        },
                        None => return None,
                    }
                },
                _ => return None,
            }
        }
        proof {
            assert(request_step(s@)(before, t, v) == Some(req.model()));
        }
        pos = p;
    }
    Some(req)
}

/// Reading the metadata fields of a request adds each entry in order.
#[verifier::rlimit(40)]
proof fn lemma_metadata_fold(pre: Seq<u8>, md: Seq<(Seq<char>, Seq<char>)>, rest: Seq<u8>, m: RequestModel, s: Seq<u8>)
    requires
        s == pre + metadata_bytes(md) + rest,
        s.len() <= usize::MAX,
    ensures
        fold_fields(s, pre.len() as int, m, request_step(s)) == fold_fields(
            s,
            (pre.len() + metadata_bytes(md).len()) as int,
            RequestModel { metadata: m.metadata + md, ..m },
            request_step(s),
        ),
    decreases md.len(),
{
    if md.len() == 0 {
        assert(m.metadata + md =~= m.metadata);
    } else {
        let init = md.drop_last();
        let last = md.last();
        let field = len_field(5, kv_bytes(last.0, last.1));
        assert(metadata_bytes(md) == metadata_bytes(init) + field);
        assert(s =~= pre + metadata_bytes(init) + (field + rest));
        lemma_metadata_fold(pre, init, field + rest, m, s);
        let pre2 = pre + metadata_bytes(init);
        assert(s =~= pre2 + field + rest);
        lemma_len_field_at(pre2, 5, kv_bytes(last.0, last.1), rest);
        lemma_kv_round_trip(last.0, last.1);
        let mid = RequestModel { metadata: m.metadata + init, ..m };
        let fin = RequestModel { metadata: m.metadata + md, ..m };
        assert(mid.metadata.push(last) =~= m.metadata + md);
        let a = (pre2.len() + key_bytes(5, 2).len() + varint(kv_bytes(last.0, last.1).len() as u64).len()) as int;
        let b = a + kv_bytes(last.0, last.1).len();
        assert(request_step(s)(mid, 5, WireValue::Bytes(a as usize, b as usize)) == Some(fin));
        lemma_read_field_bound(s, pre2.len() as int);
        lemma_fold_step(s, pre2.len() as int, mid, request_step(s), 5, WireValue::Bytes(a as usize, b as usize), b, fin);
    }
}

proof fn lemma_fold_step<M>(s: Seq<u8>, pos: int, m: M, step: spec_fn(M, u64, WireValue) -> Option<M>, t: u64, v: WireValue, p: int, m2: M)
    requires
        0 <= pos < p <= s.len(),
        read_field(s, pos) == Some((t, v, p)),
        step(m, t, v) == Some(m2),
    ensures
        fold_fields(s, pos, m, step) == fold_fields(s, p, m2, step),
{
}

proof fn lemma_request_text_step(s: Seq<u8>, pre: Seq<u8>, tag: u64, text: Seq<char>, rest: Seq<u8>, m: RequestModel)
    requires
        s == pre + string_field(tag, text) + rest,
        s.len() <= usize::MAX,
        tag == 1 || tag == 2,
        tag == 1 ==> m.service == Seq::<char>::empty(),
        tag == 2 ==> m.method == Seq::<char>::empty(),
    ensures
        fold_fields(s, pre.len() as int, m, request_step(s)) == fold_fields(
            s,
            (pre.len() + string_field(tag, text).len()) as int,
            if tag == 1 { RequestModel { service: text, ..m } } else { RequestModel { method: text, ..m } },
            request_step(s),
        ),
{
    if encode_utf8(text).len() > 0 {
        lemma_string_field_at(pre, tag, text, rest);
        lemma_read_field_bound(s, pre.len() as int);
        let (t, v, p) = read_field(s, pre.len() as int).unwrap();
        let m2 = if tag == 1 { RequestModel { service: text, ..m } } else { RequestModel { method: text, ..m } };
        lemma_fold_step(s, pre.len() as int, m, request_step(s), t, v, p, m2);
    } else {
        lemma_empty_text(text);
        assert(string_field(tag, text).len() == 0);
        if tag == 1 {
            assert(RequestModel { service: text, ..m } == m);
        } else {
            assert(RequestModel { method: text, ..m } == m);
        }
    }
}

proof fn lemma_request_payload_step(s: Seq<u8>, pre: Seq<u8>, payload: Seq<u8>, rest: Seq<u8>, m: RequestModel)
    requires
        s == pre + len_field(3, payload) + rest,
        s.len() <= usize::MAX,
    ensures
        fold_fields(s, pre.len() as int, m, request_step(s)) == fold_fields(
            s,
            (pre.len() + len_field(3, payload).len()) as int,
            RequestModel { payload, ..m },
            request_step(s),
        ),
{
    lemma_len_field_at(pre, 3, payload, rest);
    lemma_read_field_bound(s, pre.len() as int);
    let (t, v, p) = read_field(s, pre.len() as int).unwrap();
    lemma_fold_step(s, pre.len() as int, m, request_step(s), t, v, p, RequestModel { payload, ..m });
}

proof fn lemma_request_timeout_step(s: Seq<u8>, pre: Seq<u8>, timeout: i64, rest: Seq<u8>, m: RequestModel)
    requires
        timeout != 0,
        s == pre + varint_field(4, timeout as u64) + rest,
        s.len() <= usize::MAX,
    ensures
        fold_fields(s, pre.len() as int, m, request_step(s)) == fold_fields(
            s,
            (pre.len() + varint_field(4, timeout as u64).len()) as int,
            RequestModel { timeout_nano: timeout, ..m },
            request_step(s),
        ),
{
    lemma_varint_field_at(pre, 4, timeout as u64, rest);
    assert((timeout as u64) as i64 == timeout) by (bit_vector);
    let p = (pre.len() + varint_field(4, timeout as u64).len()) as int;
    lemma_fold_step(s, pre.len() as int, m, request_step(s), 4, WireValue::Varint(timeout as u64), p, RequestModel { timeout_nano: timeout, ..m });
}

/// A request written as bytes is read back as the same request.
pub proof fn lemma_request_round_trip(m: RequestModel)
    requires
        request_bytes(m).len() <= usize::MAX,
    ensures
        decode_request_spec(request_bytes(m)) == Some(m),
{
    let s = request_bytes(m);
    let step = request_step(s);
    let f1 = string_field(1, m.service);
    let f2 = string_field(2, m.method);
    let f3 = len_field(3, m.payload);
    let f4 = if m.timeout_nano != 0 { varint_field(4, m.timeout_nano as u64) } else { Seq::empty() };
    let md = metadata_bytes(m.metadata);
    let e = empty_request();
    assert(s =~= f1 + f2 + f3 + f4 + md);
    let m1 = RequestModel { service: m.service, ..e };
    assert(s =~= Seq::<u8>::empty() + f1 + (f2 + f3 + f4 + md));
    lemma_request_text_step(s, Seq::empty(), 1, m.service, f2 + f3 + f4 + md, e);
    let m2 = RequestModel { method: m.method, ..m1 };
    assert(s =~= f1 + f2 + (f3 + f4 + md));
    lemma_request_text_step(s, f1, 2, m.method, f3 + f4 + md, m1);
    let m3 = RequestModel { payload: m.payload, ..m2 };
    assert(s =~= (f1 + f2) + f3 + (f4 + md));
    lemma_request_payload_step(s, f1 + f2, m.payload, f4 + md, m2);
    let m4 = RequestModel { timeout_nano: m.timeout_nano, ..m3 };
    if m.timeout_nano != 0 {
        assert(s =~= (f1 + f2 + f3) + f4 + md);
        lemma_request_timeout_step(s, f1 + f2 + f3, m.timeout_nano, md, m3);
    } else {
        assert(m4 == m3);
    }
    assert(s =~= (f1 + f2 + f3 + f4) + md + Seq::<u8>::empty());
    lemma_metadata_fold(f1 + f2 + f3 + f4, m.metadata, Seq::empty(), m4, s);
    assert(m4.metadata + m.metadata =~= m.metadata);
    let m5 = RequestModel { metadata: m4.metadata + m.metadata, ..m4 };
    assert(m5 == m);
    lemma_fold_at_end(s, m5, step);
}

/// A detail of a status, as plain values: type URL and bytes.
pub open spec fn any_view(a: Any) -> (Seq<char>, Seq<u8>) {
    (a.type_url@, a.value@)
}

/// What a status holds, as plain values.
pub struct StatusModel {
    pub code: i32,
    pub message: Seq<char>,
    pub details: Seq<(Seq<char>, Seq<u8>)>,
}

pub open spec fn status_model(st: Status) -> StatusModel {
    StatusModel {
        code: st.code,
        message: st.message@,
        details: st.details@.map_values(|a: Any| any_view(a)),
    }
}

/// What a response holds, as plain values.
pub struct ResponseModel {
    pub status: Option<StatusModel>,
    pub payload: Seq<u8>,
}

/// The reply to a call: a status when it failed (none or an Ok code when it
/// succeeded), and the encoded output.
#[derive(Clone, Debug)]
pub struct Response {
    pub status: Option<Status>,
    pub payload: Vec<u8>,
}

impl Response {
    pub open spec fn model(&self) -> ResponseModel {
        ResponseModel {
            status: match self.status {
                Some(st) => Some(status_model(st)),
                None => None,
            },
            payload: self.payload@,
        }
    }
}

/// A bytes field, left out when empty.
pub open spec fn bytes_field(tag: u64, b: Seq<u8>) -> Seq<u8> {
    if b.len() == 0 {
        Seq::empty()
    } else {
        len_field(tag, b)
    }
}

pub open spec fn any_bytes(a: (Seq<char>, Seq<u8>)) -> Seq<u8> {
    string_field(1, a.0) + bytes_field(2, a.1)
}

pub open spec fn details_bytes(d: Seq<(Seq<char>, Seq<u8>)>) -> Seq<u8>
    decreases d.len(),
{
    if d.len() == 0 {
        Seq::empty()
    } else {
        details_bytes(d.drop_last()) + len_field(3, any_bytes(d.last()))
    }
}

/// The bytes of a status: code when not zero, message when not empty, then
/// each detail.
pub open spec fn status_bytes(st: StatusModel) -> Seq<u8> {
    (if st.code != 0 {
        varint_field(1, st.code as u64)
    } else {
        Seq::empty()
    }) + string_field(2, st.message) + details_bytes(st.details)
}

/// The bytes of a response: its status when there is one, then its payload.
pub open spec fn response_bytes(r: ResponseModel) -> Seq<u8> {
    (match r.status {
        Some(st) => len_field(1, status_bytes(st)),
        None => Seq::empty(),
    }) + len_field(2, r.payload)
}

pub open spec fn any_step(s: Seq<u8>) -> spec_fn((Seq<char>, Seq<u8>), u64, WireValue) -> Option<(Seq<char>, Seq<u8>)> {
    |m: (Seq<char>, Seq<u8>), t: u64, v: WireValue|
        if t == 1 {
            match v {
                WireValue::Bytes(a, b) => match text_at(s, a as int, b as int) {
                    Some(x) => Some((x, m.1)),
                    None => None,
                },
                _ => None,
            }
        } else if t == 2 {
            match v {
                WireValue::Bytes(a, b) => Some((m.0, s.subrange(a as int, b as int))),
                _ => None,
            }
        } else {
            Some(m)
        }
}

pub open spec fn decode_any_spec(s: Seq<u8>) -> Option<(Seq<char>, Seq<u8>)> {
    fold_fields(s, 0, (Seq::empty(), Seq::empty()), any_step(s))
}

pub open spec fn status_step(s: Seq<u8>) -> spec_fn(StatusModel, u64, WireValue) -> Option<StatusModel> {
    |m: StatusModel, t: u64, v: WireValue|
        if t == 1 {
            match v {
                WireValue::Varint(x) => Some(StatusModel { code: x as i32, ..m }),
                _ => None,
            }
        } else if t == 2 {
            match v {
                WireValue::Bytes(a, b) => match text_at(s, a as int, b as int) {
                    Some(x) => Some(StatusModel { message: x, ..m }),
                    None => None,
                },
                _ => None,
            }
        } else if t == 3 {
            match v {
                WireValue::Bytes(a, b) => match decode_any_spec(s.subrange(a as int, b as int)) {
                    Some(d) => Some(StatusModel { details: m.details.push(d), ..m }),
                    None => None,
                },
                _ => None,
            }
        } else {
            Some(m)
        }
}

pub open spec fn empty_status() -> StatusModel {
    StatusModel { code: 0, message: Seq::empty(), details: Seq::empty() }
}

/// The status that `s` gives when read over `base`: later fields replace
/// the code and message and add details.
pub open spec fn merge_status_spec(s: Seq<u8>, base: StatusModel) -> Option<StatusModel> {
    fold_fields(s, 0, base, status_step(s))
}

pub open spec fn response_step(s: Seq<u8>) -> spec_fn(ResponseModel, u64, WireValue) -> Option<ResponseModel> {
    |m: ResponseModel, t: u64, v: WireValue|
        if t == 1 {
            match v {
                WireValue::Bytes(a, b) => {
                    let base = match m.status {
                        Some(st) => st,
                        None => empty_status(),
                    };
                    match merge_status_spec(s.subrange(a as int, b as int), base) {
                        Some(st) => Some(ResponseModel { status: Some(st), ..m }),
                        None => None,
                    }
                },
                _ => None,
            }
        } else if t == 2 {
            match v {
                WireValue::Bytes(a, b) => Some(ResponseModel { payload: s.subrange(a as int, b as int), ..m }),
                _ => None,
            }
        } else {
            Some(m)
        }
}

/// The response that `s` encodes, if it reads as one.
pub open spec fn decode_response_spec(s: Seq<u8>) -> Option<ResponseModel> {
    fold_fields(s, 0, ResponseModel { status: None, payload: Seq::empty() }, response_step(s))
}

pub fn encode_any(a: &Any) -> (r: Vec<u8>)
    ensures
        r@ == any_bytes(any_view(*a)),
{
    let mut out: Vec<u8> = Vec::new();
    push_string_field(&mut out, 1, &a.type_url);
    if a.value.len() != 0 {
        push_len_field(&mut out, 2, a.value.as_slice());
    }
    assert(out@ =~= any_bytes(any_view(*a)));
    out
}

pub fn encode_status(st: &Status) -> (r: Vec<u8>)
    ensures
        r@ == status_bytes(status_model(*st)),
{
    let mut out: Vec<u8> = Vec::new();
    if st.code != 0 {
        push_varint_field(&mut out, 1, st.code as u64);
    }
    push_string_field(&mut out, 2, &st.message);
    let ghost head = out@;
    let ghost d = status_model(*st).details;
    let mut i: usize = 0;
    while i < st.details.len()
        invariant
            i <= st.details@.len(),
            d == st.details@.map_values(|a: Any| any_view(a)),
            out@ == head + details_bytes(d.subrange(0, i as int)),
        decreases st.details@.len() - i,
    {
        let b = encode_any(&st.details[i]);
        push_len_field(&mut out, 3, b.as_slice());
        proof {
            let next = d.subrange(0, i + 1);
            assert(next.drop_last() =~= d.subrange(0, i as int));
            assert(next.last() == any_view(st.details@[i as int]));
        }
        i = i + 1;
    }
    assert(d.subrange(0, d.len() as int) =~= d);
    out
}

pub fn encode_response(r: &Response) -> (out: Vec<u8>)
    ensures
        out@ == response_bytes(r.model()),
{
    let mut out: Vec<u8> = Vec::new();
    match &r.status {
        Some(st) => {
            let b = encode_status(st);
            push_len_field(&mut out, 1, b.as_slice());
        },
        None => {},
    }
    push_len_field(&mut out, 2, r.payload.as_slice());
    assert(out@ =~= response_bytes(r.model()));
    out
}

pub fn decode_any(s: &[u8]) -> (r: Option<Any>)
    ensures
        match decode_any_spec(s@) {
            Some(m) => r matches Some(x) && any_view(x) == m,
            None => r is None,
        },
{
    let mut type_url = String::new();
    let mut value: Vec<u8> = Vec::new();
    let mut pos: usize = 0;
    let len = s.len();
    while pos < s.len()
        invariant
            pos <= s@.len(),
            decode_any_spec(s@) == fold_fields(s@, pos as int, (type_url@, value@), any_step(s@)),
        decreases s@.len() - pos,
    {
        let (t, v, p) = match read_field_at(s, pos) {
            Some(x) => x,
            None => return None,
        };
        proof {
            lemma_read_field_bound(s@, pos as int);
        }
        if t == 1 {
            match v {
                WireValue::Bytes(a, b) => match text_of(s, a, b) {
                    Some(x) => {
                        type_url = x;
                    },
                    None => return None,
                },
                _ => return None,
            }
        } else if t == 2 {
            match v {
                WireValue::Bytes(a, b) => {
                    value = copy_bytes(s, a, b);
                },
                _ => return None,
            }
        }
        pos = p;
    }
    Some(Any { type_url, value })
}

/// Reads a status over `base`, as a repeated status field merges into the
/// one read before it.
pub fn merge_status(s: &[u8], base: Status) -> (r: Option<Status>)
    ensures
        match merge_status_spec(s@, status_model(base)) {
            Some(m) => r matches Some(x) && status_model(x) == m,
            None => r is None,
        },
{
    let mut st = base;
    let mut pos: usize = 0;
    let len = s.len();
    while pos < s.len()
        invariant
            pos <= s@.len(),
            merge_status_spec(s@, status_model(base)) == fold_fields(s@, pos as int, status_model(st), status_step(s@)),
        decreases s@.len() - pos,
    {
        let (t, v, p) = match read_field_at(s, pos) {
            Some(x) => x,
            None => return None,
        };
        proof {
            lemma_read_field_bound(s@, pos as int);
        }
        let ghost before = status_model(st);
        if t == 1 {
            match v {
                WireValue::Varint(x) => {
                    st.code = x as i32;
                },
                _ => return None,
            }
        } else if t == 2 {
            match v {
                WireValue::Bytes(a, b) => match text_of(s, a, b) {
                    Some(x) => {
                        st.message = x;
                    },
                    None => return None,
                },
                _ => return None,
            }
        } else if t == 3 {
            match v {
                WireValue::Bytes(a, b) => {
                    let sub = copy_bytes(s, a, b);
                    match decode_any(sub.as_slice()) {
                        Some(d) => {
                            st.details.push(d);
                            proof {
                                assert(status_model(st).details =~= before.details.push(any_view(d)));
                            }
                        },
                        None => return None,
                    }
                },
                _ => return None,
            }
        }
        proof {
            assert(status_step(s@)(before, t, v) == Some(status_model(st)));
        }
        pos = p;
    }
    Some(st)
}

pub fn decode_response(s: &[u8]) -> (r: Option<Response>)
    ensures
        match decode_response_spec(s@) {
            Some(m) => r matches Some(x) && x.model() == m,
            None => r is None,
        },
{
    let mut resp = Response { status: None, payload: Vec::new() };
    let mut pos: usize = 0;
    let len = s.len();
    while pos < s.len()
        invariant
            pos <= s@.len(),
            decode_response_spec(s@) == fold_fields(s@, pos as int, resp.model(), response_step(s@)),
        decreases s@.len() - pos,
    {
        let (t, v, p) = match read_field_at(s, pos) {
            Some(x) => x,
            None => return None,
        };
        proof {
            lemma_read_field_bound(s@, pos as int);
        }
        let ghost before = resp.model();
        if t == 1 {
            match v {
                WireValue::Bytes(a, b) => {
                    let sub = copy_bytes(s, a, b);
                    let base = match resp.status {
                        Some(st) => st,
                        None => {
                            let e = Status { code: 0, message: String::new(), details: Vec::new() };
                            assert(status_model(e).details =~= Seq::<(Seq<char>, Seq<u8>)>::empty());
                            assert(status_model(e) == empty_status());
                            e
                        },
                    };
                    match merge_status(sub.as_slice(), base) {
                        Some(st) => {
                            resp = Response { status: Some(st), payload: resp.payload };
                        },
                        None => return None,
                    }
                },
                _ => return None,
            }
        } else if t == 2 {
            match v {
                WireValue::Bytes(a, b) => {
                    resp.payload = copy_bytes(s, a, b);
                },
                _ => return None,
            }
        }
        proof {
            assert(response_step(s@)(before, t, v) == Some(resp.model()));
        }
        pos = p;
    }
    Some(resp)
}

/// A status detail written as bytes is read back as the same detail.
pub proof fn lemma_any_round_trip(a: (Seq<char>, Seq<u8>))
    requires
        any_bytes(a).len() <= usize::MAX,
    ensures
        decode_any_spec(any_bytes(a)) == Some(a),
{
    let s = any_bytes(a);
    let f1 = string_field(1, a.0);
    let f2 = bytes_field(2, a.1);
    let empty = Seq::<u8>::empty();
    let e = Seq::<char>::empty();
    let step = any_step(s);
    if encode_utf8(a.0).len() > 0 {
        lemma_string_field_at(empty, 1, a.0, f2);
        assert(empty + f1 + f2 =~= s);
        lemma_read_field_bound(s, 0);
        let (t, v, p) = read_field(s, 0).unwrap();
        lemma_fold_step(s, 0, (e, empty), step, t, v, p, (a.0, empty));
    } else {
        lemma_empty_text(a.0);
    }
    if a.1.len() > 0 {
        lemma_len_field_at(f1, 2, a.1, empty);
        assert(f1 + f2 + empty =~= s);
        lemma_read_field_bound(s, f1.len() as int);
        let (t, v, p) = read_field(s, f1.len() as int).unwrap();
        lemma_fold_step(s, f1.len() as int, (a.0, empty), step, t, v, p, a);
    } else {
        assert(a.1 =~= empty);
    }
    lemma_fold_at_end(s, a, step);
}

/// Reading the detail fields of a status adds each detail in order.
#[verifier::rlimit(40)]
proof fn lemma_details_fold(pre: Seq<u8>, d: Seq<(Seq<char>, Seq<u8>)>, rest: Seq<u8>, m: StatusModel, s: Seq<u8>)
    requires
        s == pre + details_bytes(d) + rest,
        s.len() <= usize::MAX,
    ensures
        fold_fields(s, pre.len() as int, m, status_step(s)) == fold_fields(
            s,
            (pre.len() + details_bytes(d).len()) as int,
            StatusModel { details: m.details + d, ..m },
            status_step(s),
        ),
    decreases d.len(),
{
    if d.len() == 0 {
        assert(m.details + d =~= m.details);
    } else {
        let init = d.drop_last();
        let last = d.last();
        let field = len_field(3, any_bytes(last));
        assert(details_bytes(d) == details_bytes(init) + field);
        assert(s =~= pre + details_bytes(init) + (field + rest));
        lemma_details_fold(pre, init, field + rest, m, s);
        let pre2 = pre + details_bytes(init);
        assert(s =~= pre2 + field + rest);
        lemma_len_field_at(pre2, 3, any_bytes(last), rest);
        lemma_any_round_trip(last);
        let mid = StatusModel { details: m.details + init, ..m };
        let fin = StatusModel { details: m.details + d, ..m };
        assert(mid.details.push(last) =~= m.details + d);
        let a = (pre2.len() + key_bytes(3, 2).len() + varint(any_bytes(last).len() as u64).len()) as int;
        let b = a + any_bytes(last).len();
        assert(status_step(s)(mid, 3, WireValue::Bytes(a as usize, b as usize)) == Some(fin));
        lemma_read_field_bound(s, pre2.len() as int);
        lemma_fold_step(s, pre2.len() as int, mid, status_step(s), 3, WireValue::Bytes(a as usize, b as usize), b, fin);
    }
}

/// A status written as bytes is read back as the same status.
pub proof fn lemma_status_round_trip(st: StatusModel)
    requires
        status_bytes(st).len() <= usize::MAX,
    ensures
        merge_status_spec(status_bytes(st), empty_status()) == Some(st),
{
    let s = status_bytes(st);
    let step = status_step(s);
    let f1 = if st.code != 0 { varint_field(1, st.code as u64) } else { Seq::empty() };
    let f2 = string_field(2, st.message);
    let ds = details_bytes(st.details);
    let e = empty_status();
    assert(s =~= f1 + f2 + ds);
    let m1 = StatusModel { code: st.code, ..e };
    if st.code != 0 {
        lemma_varint_field_at(Seq::empty(), 1, st.code as u64, f2 + ds);
        assert(Seq::<u8>::empty() + f1 + (f2 + ds) =~= s);
        let c = st.code;
        assert((c as u64) as i32 == c) by (bit_vector);
        lemma_fold_step(s, 0, e, step, 1, WireValue::Varint(st.code as u64), f1.len() as int, m1);
    } else {
        assert(m1 == e);
    }
    let m2 = StatusModel { message: st.message, ..m1 };
    if encode_utf8(st.message).len() > 0 {
        lemma_string_field_at(f1, 2, st.message, ds);
        assert(f1 + f2 + ds =~= s);
        lemma_read_field_bound(s, f1.len() as int);
        let (t, v, p) = read_field(s, f1.len() as int).unwrap();
        lemma_fold_step(s, f1.len() as int, m1, step, t, v, p, m2);
    } else {
        lemma_empty_text(st.message);
        assert(m2 == m1);
    }
    assert(s =~= (f1 + f2) + ds + Seq::<u8>::empty());
    lemma_details_fold(f1 + f2, st.details, Seq::empty(), m2, s);
    assert(m2.details + st.details =~= st.details);
    let m3 = StatusModel { details: m2.details + st.details, ..m2 };
    assert(m3 == st);
    lemma_fold_at_end(s, m3, step);
}

/// A response written as bytes is read back as the same response.
pub proof fn lemma_response_round_trip(r: ResponseModel)
    requires
        response_bytes(r).len() <= usize::MAX,
    ensures
        decode_response_spec(response_bytes(r)) == Some(r),
{
    let s = response_bytes(r);
    let step = response_step(s);
    let f1 = match r.status {
        Some(st) => len_field(1, status_bytes(st)),
        None => Seq::empty(),
    };
    let f2 = len_field(2, r.payload);
    let e = ResponseModel { status: None, payload: Seq::empty() };
    assert(s =~= f1 + f2);
    let m1 = ResponseModel { status: r.status, ..e };
    if let Some(st) = r.status {
        lemma_len_field_at(Seq::empty(), 1, status_bytes(st), f2);
        assert(Seq::<u8>::empty() + f1 + f2 =~= s);
        lemma_status_round_trip(st);
        lemma_read_field_bound(s, 0);
        let (t, v, p) = read_field(s, 0).unwrap();
        lemma_fold_step(s, 0, e, step, t, v, p, m1);
    } else {
        assert(m1 == e);
    }
    lemma_len_field_at(f1, 2, r.payload, Seq::empty());
    assert(f1 + f2 + Seq::<u8>::empty() =~= s);
    lemma_read_field_bound(s, f1.len() as int);
    let (t, v, p) = read_field(s, f1.len() as int).unwrap();
    let m2 = ResponseModel { payload: r.payload, ..m1 };
    lemma_fold_step(s, f1.len() as int, m1, step, t, v, p, m2);
    assert(m2 == r);
    lemma_fold_at_end(s, m2, step);
}

} // verus!
