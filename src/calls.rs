use vstd::prelude::*;

use crate::flags::{Flags, NO_DATA_BIT, REMOTE_CLOSED_BIT};
use crate::frame::{DecodeError, DecodedFrame, FallibleBytesMessage, Frame, MAX_DATA_LENGTH};
use crate::message_type::MessageType;
use crate::metadata::{values_for, Context};
use crate::protocol::{
    admit_frame, expected_flag_bits, input_data_step, expected_request, expected_request_message, failed_to_decode, find_method,
    method_path, spec_method_path, Admission, MethodKind,
};
use crate::protos::{
    decode_request, decode_request_spec, decode_response, decode_response_spec, encode_request, encode_response,
    request_bytes, response_bytes, status_model, Request, RequestModel, Response, ResponseModel, StatusModel,
};
use crate::status::{code_number, decimal, Code, Status};
use crate::timeout::{Timeout, MAX_TIMEOUT_NANOS};

verus! {

/// What the server does with a frame that opened no known stream.
#[derive(Debug)]
pub enum Dispatch {
    /// Answer on the stream with this error.
    Reject(Status),
    /// Run the method registered at `method` on this request, under this
    /// context.
    Run { method: usize, request: Request, context: Context },
}

/// The payload of a frame read as a request: its bytes must be there and
/// the frame must be a Request.
pub open spec fn request_of(ty: MessageType, bytes: Result<Seq<u8>, DecodeError>) -> Option<RequestModel> {
    if ty == MessageType::Request {
        match bytes {
            Ok(b) => decode_request_spec(b),
            Err(_) => None,
        }
    } else {
        None
    }
}

/// Handles a frame that opened no known stream: the stream must be free
/// and odd, and the frame a readable request for a registered method
/// (`paths` holds the registered method paths, a later entry replacing an
/// earlier one). Each failure is answered with its own error.
pub fn dispatch_frame(id: u32, stream_free: bool, message: &FallibleBytesMessage, paths: &Vec<String>) -> (r: Dispatch)
    ensures
        match r {
            Dispatch::Reject(s) => if !stream_free {
                s.is(Code::InvalidArgument, "Stream `"@ + decimal(id as nat) + "` is already in use"@)
            } else if id % 2 != 1 {
                s.is(Code::InvalidArgument, "Stream id must be odd, found `"@ + decimal(id as nat) + "`"@)
            } else {
                match request_of(message.ty, message.bytes.view()) {
                    None => s.is(Code::InvalidArgument, expected_request_message(id, message.ty)),
                    Some(m) => {
                        &&& s.is(Code::NotFound, "/"@ + m.service + "/"@ + m.method + " is not supported"@)
                        &&& forall|j: int| 0 <= j < paths@.len() ==> (#[trigger] paths@[j])@ != spec_method_path(m.service, m.method)
                    },
                }
            },
            Dispatch::Run { method, request, context } => {
                &&& stream_free && id % 2 == 1
                &&& request_of(message.ty, message.bytes.view()) == Some(request.model())
                &&& method < paths@.len()
                &&& paths@[method as int]@ == spec_method_path(request.service@, request.method@)
                &&& forall|j: int| method < j < paths@.len() ==> (#[trigger] paths@[j])@ != spec_method_path(request.service@, request.method@)
                &&& forall|k: Seq<char>| #[trigger] context.metadata.lookup(k) == values_for(request.metadata@, k)
                &&& context.timeout == (if request.timeout_nano <= 0 { Timeout::Unlimited } else { Timeout::Duration(request.timeout_nano as u64) })
            },
        },
{
    match admit_frame(id, stream_free, message.ty) {
        Admission::Reject(s) => return Dispatch::Reject(s),
        Admission::Accept => {},
    }
    let bytes = match message.decode_as(MessageType::Request) {
        Ok(b) => b,
        Err(_) => return Dispatch::Reject(expected_request(id, message.ty)),
    };
    let request = match decode_request(bytes.as_slice()) {
        Some(r) => r,
        None => return Dispatch::Reject(expected_request(id, message.ty)),
    };
    let path = method_path(request.service.as_str(), request.method.as_str());
    let method = match find_method(paths, path.as_str()) {
        Some(i) => i,
        None => return Dispatch::Reject(Status::method_not_found(request.service.as_str(), request.method.as_str())),
    };
    let context = Context::from_request(&request.metadata, request.timeout_nano);
    Dispatch::Run { method, request, context }
}

/// What a client learns from the one Response frame of a unary or
/// client-streaming call: the output bytes when the status is absent or Ok,
/// the status otherwise.
pub fn unary_result(message: &FallibleBytesMessage) -> (r: Result<Vec<u8>, Status>)
    ensures
        match (if message.ty == MessageType::Response {
            match message.bytes.view() {
                Ok(b) => decode_response_spec(b),
                Err(_) => None,
            }
        } else {
            None
        }) {
            None => r matches Err(s) && s.is(Code::InvalidArgument, "Error decoding message"@),
            Some(m) => match m.status {
                Some(st) => if st.code != 0 {
                    r matches Err(s) && status_model(s) == st
                } else {
                    r matches Ok(b) && b@ == m.payload
                },
                None => r matches Ok(b) && b@ == m.payload,
            },
        },
{
    let bytes = match message.decode_as(MessageType::Response) {
        Ok(b) => b,
        Err(_) => return Err(failed_to_decode()),
    };
    let response = match decode_response(bytes.as_slice()) {
        Some(r) => r,
        None => return Err(failed_to_decode()),
    };
    match response.status {
        Some(st) => if st.code != 0 {
            Err(st)
        } else {
            Ok(response.payload)
        },
        None => Ok(response.payload),
    }
}

/// The frame that opens a call of shape `kind` on stream `id`: a request
/// with the flags of that shape. A call whose input is streamed sends its
/// input as Data frames, so its request carries an empty payload.
pub fn request_frame(id: u32, kind: MethodKind, request: &Request) -> (r: Frame)
    ensures
        r.id == id,
        r.ty == MessageType::Request,
        r.flags.bits == expected_flag_bits(kind),
        r.payload@ == request_bytes(
            if kind == MethodKind::ClientStreaming || kind == MethodKind::DuplexStreaming {
                RequestModel { payload: Seq::empty(), ..request.model() }
            } else {
                request.model()
            },
        ),
{
    let flags = crate::protocol::expected_request_flags(kind);
    let payload = match kind {
        MethodKind::ClientStreaming | MethodKind::DuplexStreaming => {
            let mut metadata: Vec<crate::metadata::KeyValue> = Vec::new();
            let mut i: usize = 0;
            while i < request.metadata.len()
                invariant
                    i <= request.metadata@.len(),
                    metadata@ == request.metadata@.subrange(0, i as int),
                decreases request.metadata@.len() - i,
            {
                let kv = crate::metadata::KeyValue {
                    key: request.metadata[i].key.clone(),
                    value: request.metadata[i].value.clone(),
                };
                metadata.push(kv);
                proof {
                    assert(kv == request.metadata@[i as int]) by {
                        assert(kv.key@ == request.metadata@[i as int].key@);
                    }
                    assert(metadata@ =~= request.metadata@.subrange(0, i + 1));
                }
                i = i + 1;
            }
            assert(metadata@ =~= request.metadata@);
            let bare = Request {
                service: request.service.clone(),
                method: request.method.clone(),
                payload: Vec::new(),
                timeout_nano: request.timeout_nano,
                metadata,
            };
            assert(bare.model().metadata =~= request.model().metadata);
            assert(bare.model() == RequestModel { payload: Seq::empty(), ..request.model() });
            encode_request(&bare)
        },
        _ => encode_request(request),
    };
    Frame { id, flags, ty: MessageType::Request, payload }
}

/// The text of the status that replaces a response too long to send.
pub open spec fn too_long_message() -> Seq<char> {
    "Response too long"@
}

/// The Response frame that answers a call on stream `id`. A response whose
/// bytes would exceed the ceiling is replaced by an Internal status saying
/// it was too long, so that the connection stays usable.
pub fn response_frame(id: u32, response: &Response) -> (r: Frame)
    ensures
        r.id == id,
        r.ty == MessageType::Response,
        r.flags.bits == 0,
        response_bytes(response.model()).len() <= MAX_DATA_LENGTH ==> r.payload@ == response_bytes(response.model()),
        response_bytes(response.model()).len() > MAX_DATA_LENGTH ==> r.payload@ == response_bytes(
            ResponseModel {
                status: Some(StatusModel { code: code_number(Code::Internal), message: too_long_message(), details: Seq::empty() }),
                payload: Seq::empty(),
            },
        ),
{
    let bytes = encode_response(response);
    let payload = if bytes.len() > MAX_DATA_LENGTH {
        let canned = Response { status: Some(Status::internal("Response too long")), payload: Vec::new() };
        let b = encode_response(&canned);
        proof {
            assert(canned.model().status == Some(StatusModel { code: code_number(Code::Internal), message: too_long_message(), details: Seq::empty() })) by {
                let st = canned.status.unwrap();
                assert(status_model(st).details =~= Seq::<(Seq<char>, Seq<u8>)>::empty());
            }
        }
        b
    } else {
        bytes
    };
    Frame { id, flags: Flags::empty(), ty: MessageType::Response, payload }
}

/// A Data frame carrying one item, with no flags.
pub fn data_frame(id: u32, item: Vec<u8>) -> (r: Frame)
    ensures
        r.id == id && r.ty == MessageType::Data && r.flags.bits == 0 && r.payload@ == item@,
{
    Frame { id, flags: Flags::empty(), ty: MessageType::Data, payload: item }
}

/// The Data frame that closes the sender's side: `REMOTE_CLOSED | NO_DATA`
/// and no payload.
pub fn close_data_frame(id: u32) -> (r: Frame)
    ensures
        r.id == id && r.ty == MessageType::Data && r.flags.bits == (REMOTE_CLOSED_BIT | NO_DATA_BIT) && r.payload@.len()
            == 0,
{
    Frame { id, flags: Flags::remote_closed().union(Flags::no_data()), ty: MessageType::Data, payload: Vec::new() }
}

/// The frames a client sends for a call whose input is streamed: the
/// opening request, one Data frame per item in order, then the frame that
/// closes its side.
pub fn outbound_stream(id: u32, kind: MethodKind, request: &Request, items: &Vec<Vec<u8>>) -> (r: Vec<Frame>)
    requires
        kind == MethodKind::ClientStreaming || kind == MethodKind::DuplexStreaming,
    ensures
        r@.len() == items@.len() + 2,
        r@[0].id == id && r@[0].ty == MessageType::Request && r@[0].flags.bits == expected_flag_bits(kind),
        r@[0].payload@ == request_bytes(RequestModel { payload: Seq::empty(), ..request.model() }),
        forall|i: int|
            0 <= i < items@.len() ==> {
                let f = #[trigger] r@[i + 1];
                f.id == id && f.ty == MessageType::Data && f.flags.bits == 0 && f.payload@ == items@[i]@
            },
        ({
            let last = r@[items@.len() as int + 1];
            last.id == id && last.ty == MessageType::Data && last.flags.bits == (REMOTE_CLOSED_BIT | NO_DATA_BIT)
                && last.payload@.len() == 0
        }),
{
    let mut frames: Vec<Frame> = Vec::new();
    frames.push(request_frame(id, kind, request));
    let mut i: usize = 0;
    while i < items.len()
        invariant
            i <= items@.len(),
            frames@.len() == i + 1,
            frames@[0].id == id && frames@[0].ty == MessageType::Request && frames@[0].flags.bits == expected_flag_bits(kind),
            frames@[0].payload@ == request_bytes(RequestModel { payload: Seq::empty(), ..request.model() }),
            forall|j: int|
                0 <= j < i ==> {
                    let f = #[trigger] frames@[j + 1];
                    f.id == id && f.ty == MessageType::Data && f.flags.bits == 0 && f.payload@ == items@[j]@
                },
        decreases items@.len() - i,
    {
        let item = copy_item(&items[i]);
        frames.push(data_frame(id, item));
        i = i + 1;
    }
    frames.push(close_data_frame(id));
    frames
}

fn copy_item(b: &Vec<u8>) -> (r: Vec<u8>)
    ensures
        r@ == b@,
{
    let mut out: Vec<u8> = Vec::with_capacity(b.len());
    let mut i: usize = 0;
    while i < b.len()
        invariant
            i <= b@.len(),
            out@ == b@.subrange(0, i as int),
        decreases b@.len() - i,
    {
        out.push(b[i]);
        i = i + 1;
        assert(out@ =~= b@.subrange(0, i as int));
    }
    assert(out@ =~= b@);
    out
}

/// What one frame of a streamed input gives: whether it carries an item,
/// whether it closes the input, and its payload; `None` for a frame that is
/// not a readable Data frame or claims no item but carries bytes.
pub open spec fn input_item(f: DecodedFrame) -> Option<(bool, bool, Seq<u8>)> {
    if f.message.ty != MessageType::Data {
        None
    } else {
        match f.message.bytes.view() {
            Err(_) => None,
            Ok(b) => {
                let deliver = f.flags.bits & NO_DATA_BIT != NO_DATA_BIT;
                let finished = f.flags.bits & REMOTE_CLOSED_BIT == REMOTE_CLOSED_BIT;
                if !deliver && b.len() != 0 {
                    None
                } else {
                    Some((deliver, finished, b))
                }
            },
        }
    }
}

/// The items read from `fs` from index `i` on, after `acc`, and the index
/// of the frame that closed the input, if any.
pub open spec fn collect_from(fs: Seq<DecodedFrame>, i: int, acc: Seq<Seq<u8>>) -> Option<(Seq<Seq<u8>>, Option<int>)>
    decreases fs.len() - i,
{
    if i < 0 || i >= fs.len() {
        Some((acc, None))
    } else {
        match input_item(fs[i]) {
            None => None,
            Some((deliver, finished, b)) => {
                let acc2 = if deliver { acc.push(b) } else { acc };
                if finished {
                    Some((acc2, Some(i)))
                } else {
                    collect_from(fs, i + 1, acc2)
                }
            },
        }
    }
}

/// The items of a streamed input, read frame by frame in arrival order
/// until one closes the sender's side: frames without an item (`NO_DATA`)
/// add none, and frames after the closing one are not read. The second
/// part of the result is the index of the closing frame, `None` when no
/// frame closed the input.
pub fn collect_input(frames: &Vec<DecodedFrame>) -> (r: Result<(Vec<Vec<u8>>, Option<usize>), Status>)
    ensures
        match collect_from(frames@, 0, Seq::empty()) {
            Some((items, closed_at)) => r matches Ok((v, c)) && v@.map_values(|b: Vec<u8>| b@) == items && match c {
                Some(k) => closed_at == Some(k as int),
                None => closed_at is None,
            },
            None => r matches Err(s) && s.is(Code::InvalidArgument, "Error decoding message"@),
        },
{
    let mut items: Vec<Vec<u8>> = Vec::new();
    let mut i: usize = 0;
    assert(items@.map_values(|b: Vec<u8>| b@) =~= Seq::<Seq<u8>>::empty());
    while i < frames.len()
        invariant
            i <= frames@.len(),
            collect_from(frames@, 0, Seq::empty()) == collect_from(frames@, i as int, items@.map_values(|b: Vec<u8>| b@)),
        decreases frames@.len() - i,
    {
        let f = &frames[i];
        let payload = match f.message.decode_as(MessageType::Data) {
            Ok(b) => b,
            Err(_) => return Err(failed_to_decode()),
        };
        let step = match input_data_step(f.message.ty, f.flags, payload.len()) {
            Ok(step) => step,
            Err(s) => return Err(s),
        };
        let ghost before = items@.map_values(|b: Vec<u8>| b@);
        if step.deliver {
            items.push(payload);
            assert(items@.map_values(|b: Vec<u8>| b@) =~= before.push(payload@));
        }
        if step.finished {
            return Ok((items, Some(i)));
        }
        i = i + 1;
    }
    Ok((items, None))
}

/// The request a client sends for a call to `/service/method` with this
/// encoded input, under its context: the context's timeout in nanoseconds
/// (zero for none) and every metadata value as an entry.
pub fn build_request(service: &str, method: &str, payload: Vec<u8>, context: &Context) -> (r: Request)
    requires
        context.metadata.wf(),
    ensures
        r.service@ == service@,
        r.method@ == method@,
        r.payload@ == payload@,
        r.timeout_nano == (if context.timeout.spec_nanos() > MAX_TIMEOUT_NANOS {
            MAX_TIMEOUT_NANOS as int
        } else {
            context.timeout.spec_nanos()
        }),
        forall|k: Seq<char>| #[trigger] values_for(r.metadata@, k) == context.metadata.lookup(k),
{
    Request {
        service: service.to_owned(),
        method: method.to_owned(),
        payload,
        timeout_nano: context.timeout.as_nanos(),
        metadata: context.metadata.iter(),
    }
}

} // verus!
