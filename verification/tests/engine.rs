use cache_streamer::blocks::Blocks;
use cache_streamer::body_reader::{AdaptiveReader, BlockBodyReader, BodyStream, StreamBodyReader,
    TeeBodyReader};
use cache_streamer::buffer::ByteBuffer;
use cache_streamer::response_builder::{get_start_and_end, ResponseBuilder};
use cache_streamer::service::Service;
use cache_streamer::types::{ByteSource, Handle, RequestBackend, Requester, RequesterStatus,
    RequestRange, Response, ResponseRange, ServiceStatus, StreamError};
use std::sync::atomic::{AtomicUsize, Ordering};
use std::sync::Arc;

const HELLO_WORLD: &[u8] = b"hello world";
const GOODBYE: &[u8] = b"goodbye";

#[derive(Clone)]
struct Meta;

impl Handle for Meta {
    fn dup(&self) -> Self {
        Meta
    }
}

enum MockBody {
    Chunks(Vec<Vec<u8>>),
    Engine(Box<dyn FnMut() -> Option<Result<ByteBuffer, StreamError>>>),
}

impl ByteSource for MockBody {
    fn next_chunk(&mut self) -> Option<Result<ByteBuffer, StreamError>> {
        match self {
            MockBody::Chunks(chunks) => {
                if chunks.is_empty() {
                    None
                } else {
                    Some(Ok(ByteBuffer::from_vec(chunks.remove(0))))
                }
            }
            MockBody::Engine(f) => f(),
        }
    }
}

struct SimpleResponse {
    body: MockBody,
}

impl Response for SimpleResponse {
    type Data = Meta;
    type Body = MockBody;

    fn from_parts<Q: Requester<Self, Meta>>(
        _data: Meta,
        _range: ResponseRange,
        mut body: BodyStream<MockBody, Q>,
    ) -> Self {
        SimpleResponse {
            body: MockBody::Engine(Box::new(move || body.next::<SimpleResponse>())),
        }
    }

    fn into_body(self) -> MockBody {
        self.body
    }
}

#[derive(Clone)]
struct MockRequester {
    count: Arc<AtomicUsize>,
    cacheable: bool,
    payload: Vec<u8>,
    expire: Option<u64>,
}

impl Handle for MockRequester {
    fn dup(&self) -> Self {
        self.clone()
    }
}

impl Requester<SimpleResponse, Meta> for MockRequester {
    fn fetch(
        &self,
        range: &RequestRange,
    ) -> Result<RequesterStatus<SimpleResponse, Meta>, StreamError> {
        self.count.fetch_add(1, Ordering::Relaxed);
        let len = self.payload.len();
        let (start, end) = match *range {
            RequestRange::Whole => (0, len),
            RequestRange::AllFrom(s) => (s.min(len), len),
            RequestRange::Last(n) => (len - n.min(len), len),
            RequestRange::FromTo(s, e) => (s.min(len), e.min(len)),
        };
        let chunks = if start < end {
            vec![self.payload[start..end].to_vec()]
        } else {
            vec![]
        };
        let resp = SimpleResponse {
            body: MockBody::Chunks(chunks),
        };
        if self.cacheable {
            let rr = ResponseRange {
                bytes_len: len,
                bytes_range: match *range {
                    RequestRange::Whole => RequestRange::Whole,
                    _ => RequestRange::FromTo(start, end),
                },
            };
            Ok(RequesterStatus::Cache(resp, rr, self.expire, Meta))
        } else {
            Ok(RequesterStatus::Passthrough(resp))
        }
    }
}

struct MockBackend {
    count: Arc<AtomicUsize>,
    cacheable: bool,
    payload: Vec<u8>,
    expire: Option<u64>,
}

impl MockBackend {
    fn new(cacheable: bool, payload: &[u8], expire: Option<u64>) -> (Self, Arc<AtomicUsize>) {
        let count = Arc::new(AtomicUsize::new(0));
        (
            MockBackend {
                count: count.clone(),
                cacheable,
                payload: payload.to_vec(),
                expire,
            },
            count,
        )
    }
}

impl RequestBackend<String, SimpleResponse> for MockBackend {
    type Req = MockRequester;

    fn create_for_key(&self, _key: &String) -> MockRequester {
        MockRequester {
            count: self.count.clone(),
            cacheable: self.cacheable,
            payload: self.payload.clone(),
            expire: self.expire,
        }
    }
}

fn read_all(resp: SimpleResponse) -> Vec<u8> {
    let mut body = resp.into_body();
    let mut out = Vec::new();
    while let Some(chunk) = body.next_chunk() {
        out.extend(chunk.unwrap().to_vec());
    }
    out
}

fn cached_body(status: ServiceStatus<SimpleResponse>) -> Vec<u8> {
    match status {
        ServiceStatus::Cache(r) => read_all(r),
        ServiceStatus::Passthrough(_) => panic!("expected a cached response"),
    }
}

#[test]
fn test_put_get() {
    let blocks = Blocks::new();
    blocks.put_new(0, ByteBuffer::from_vec(b"hello world".to_vec()));
    blocks.put_new(6, ByteBuffer::from_vec(b"earth".to_vec()));

    let value = blocks.get(0, 5);
    assert_eq!(value.unwrap().to_vec(), b"hello".to_vec());

    let value = blocks.get(6, 5);
    assert_eq!(value.unwrap().to_vec(), b"world".to_vec());
}

#[test]
fn test_block_body_reader() {
    let blocks = Blocks::new();
    blocks.put_new(0, ByteBuffer::from_vec(HELLO_WORLD.to_vec()));
    blocks.put_new(HELLO_WORLD.len(), ByteBuffer::from_vec(GOODBYE.to_vec()));

    let reader = BlockBodyReader::new(blocks);
    let mut offset = 0;
    let end = HELLO_WORLD.len() + GOODBYE.len();

    let value = reader.next(&mut offset, end);
    assert_eq!(value.unwrap().to_vec(), HELLO_WORLD.to_vec());
    assert_eq!(offset, HELLO_WORLD.len());

    let value = reader.next(&mut offset, end);
    assert_eq!(value.unwrap().to_vec(), GOODBYE.to_vec());
    assert_eq!(offset, end);

    let value = reader.next(&mut offset, end + 1);
    assert!(value.is_none());
}

#[test]
fn test_stream_body_reader() {
    let mut reader = StreamBodyReader::new(MockBody::Chunks(vec![
        HELLO_WORLD.to_vec(),
        GOODBYE.to_vec(),
    ]));
    let mut offset = 0;
    let end = HELLO_WORLD.len() + GOODBYE.len();

    let value = reader.next(&mut offset, end);
    assert_eq!(value.unwrap().unwrap().to_vec(), HELLO_WORLD.to_vec());
    assert_eq!(offset, HELLO_WORLD.len());

    let value = reader.next(&mut offset, end);
    assert_eq!(value.unwrap().unwrap().to_vec(), GOODBYE.to_vec());
    assert_eq!(offset, end);

    let value = reader.next(&mut offset, end + 1);
    assert!(value.is_none());
}

#[test]
fn test_tee_body_reader() {
    let blocks = Blocks::new();
    let mut reader = TeeBodyReader::new(
        blocks.dup(),
        MockBody::Chunks(vec![HELLO_WORLD.to_vec(), GOODBYE.to_vec()]),
    );
    let mut offset = 0;
    let end = HELLO_WORLD.len() + GOODBYE.len();

    let value = reader.next(&mut offset, end);
    assert_eq!(value.unwrap().unwrap().to_vec(), HELLO_WORLD.to_vec());
    assert_eq!(offset, HELLO_WORLD.len());

    let value = reader.next(&mut offset, end);
    assert_eq!(value.unwrap().unwrap().to_vec(), GOODBYE.to_vec());
    assert_eq!(offset, end);

    let value = reader.next(&mut offset, end + 1);
    assert!(value.is_none());

    assert_eq!(
        blocks.get(0, HELLO_WORLD.len()).unwrap().to_vec(),
        HELLO_WORLD.to_vec()
    );
    assert_eq!(
        blocks.get(HELLO_WORLD.len(), GOODBYE.len()).unwrap().to_vec(),
        GOODBYE.to_vec()
    );
}

#[test]
fn test_adaptive_body_reader() {
    let mut payload = HELLO_WORLD.to_vec();
    payload.extend(GOODBYE.to_vec());

    let blocks = Blocks::new();
    blocks.put_new(0, ByteBuffer::from_vec(HELLO_WORLD.to_vec()));

    let count = Arc::new(AtomicUsize::new(0));
    let requester = MockRequester {
        count: count.clone(),
        cacheable: true,
        payload,
        expire: None,
    };
    let mut reader = AdaptiveReader::new_adaptive(requester, blocks.dup());
    let mut offset = 0;
    let end = HELLO_WORLD.len() + GOODBYE.len();

    let value = reader.next::<SimpleResponse>(&mut offset, end);
    assert_eq!(value.unwrap().unwrap().to_vec(), HELLO_WORLD.to_vec());
    assert_eq!(offset, HELLO_WORLD.len());
    assert_eq!(count.load(Ordering::Relaxed), 0);

    let value = reader.next::<SimpleResponse>(&mut offset, end);
    assert_eq!(value.unwrap().unwrap().to_vec(), GOODBYE.to_vec());
    assert_eq!(offset, end);
    assert_eq!(count.load(Ordering::Relaxed), 1);

    let value = reader.next::<SimpleResponse>(&mut offset, end + 1);
    assert!(value.is_none());

    assert_eq!(
        blocks.get(HELLO_WORLD.len(), GOODBYE.len()).unwrap().to_vec(),
        GOODBYE.to_vec()
    );
}

#[test]
fn test_response_builder() {
    let count = Arc::new(AtomicUsize::new(0));
    let requester = MockRequester {
        count: count.clone(),
        cacheable: true,
        payload: GOODBYE.to_vec(),
        expire: Some(2),
    };
    let range = RequestRange::default();
    let (resp, rr, data) = match requester.fetch(&range).unwrap() {
        RequesterStatus::Cache(r, rr, _, d) => (r, rr, d),
        RequesterStatus::Passthrough(_) => panic!(),
    };
    let (first, builder) = ResponseBuilder::new(resp, &rr, data, requester);

    assert_eq!(read_all(first), GOODBYE.to_vec());
    assert_eq!(count.load(Ordering::Relaxed), 1);

    let empty = builder.stream(&RequestRange::FromTo(0, 0));
    assert_eq!(read_all(empty), Vec::<u8>::new());
    assert_eq!(count.load(Ordering::Relaxed), 1);
}

#[test]
fn test_get_start_and_end_clipping() {
    // The whole resource.
    assert_eq!(get_start_and_end(10, &RequestRange::Whole), (0, 10));
    // A suffix of at least the whole resource clips to the whole resource.
    assert_eq!(get_start_and_end(10, &RequestRange::Last(10)), (0, 10));
    assert_eq!(get_start_and_end(10, &RequestRange::Last(20)), (0, 10));
    assert_eq!(get_start_and_end(10, &RequestRange::Last(3)), (7, 10));
    // Starts and ends clip to the size.
    assert_eq!(get_start_and_end(10, &RequestRange::AllFrom(4)), (4, 10));
    assert_eq!(get_start_and_end(10, &RequestRange::AllFrom(12)), (10, 10));
    assert_eq!(get_start_and_end(10, &RequestRange::FromTo(2, 5)), (2, 5));
    assert_eq!(get_start_and_end(10, &RequestRange::FromTo(2, 15)), (2, 10));
    // An empty range stays empty.
    assert_eq!(get_start_and_end(10, &RequestRange::FromTo(3, 3)), (3, 3));
}

#[test]
fn test_cold_miss_full_read() {
    let (backend, count) = MockBackend::new(true, HELLO_WORLD, None);
    let mut service = Service::new(backend, 1_000_000);

    let status = service.call(0, "/x".to_string(), &RequestRange::Whole).unwrap();
    assert_eq!(cached_body(status), HELLO_WORLD.to_vec());
    assert_eq!(count.load(Ordering::Relaxed), 1);
}

#[test]
fn test_warm_hit_same_range() {
    let (backend, count) = MockBackend::new(true, HELLO_WORLD, None);
    let mut service = Service::new(backend, 1_000_000);

    let first = service.call(0, "/x".to_string(), &RequestRange::Whole).unwrap();
    assert_eq!(cached_body(first), HELLO_WORLD.to_vec());

    let second = service.call(0, "/x".to_string(), &RequestRange::Whole).unwrap();
    assert_eq!(cached_body(second), HELLO_WORLD.to_vec());
    assert_eq!(count.load(Ordering::Relaxed), 1);
}

#[test]
fn test_warm_hit_sub_range() {
    let (backend, count) = MockBackend::new(true, HELLO_WORLD, None);
    let mut service = Service::new(backend, 1_000_000);

    let first = service.call(0, "/x".to_string(), &RequestRange::Whole).unwrap();
    assert_eq!(cached_body(first), HELLO_WORLD.to_vec());

    let sub = service.call(0, "/x".to_string(), &RequestRange::FromTo(0, 5)).unwrap();
    assert_eq!(cached_body(sub), b"hello".to_vec());
    assert_eq!(count.load(Ordering::Relaxed), 1);
}

#[test]
fn test_passthrough_is_not_cached() {
    let (backend, count) = MockBackend::new(false, HELLO_WORLD, None);
    let mut service = Service::new(backend, 1_000_000);

    let first = service.call(0, "/x".to_string(), &RequestRange::Whole).unwrap();
    match first {
        ServiceStatus::Passthrough(r) => assert_eq!(read_all(r), HELLO_WORLD.to_vec()),
        ServiceStatus::Cache(_) => panic!("expected a passthrough response"),
    }

    let second = service.call(0, "/x".to_string(), &RequestRange::Whole).unwrap();
    assert!(matches!(second, ServiceStatus::Passthrough(_)));
    assert_eq!(count.load(Ordering::Relaxed), 2);
}

#[test]
fn test_ttl_expiry_refetches() {
    let (backend, count) = MockBackend::new(true, HELLO_WORLD, Some(2));
    let mut service = Service::new(backend, 1_000_000);

    let first = service.call(0, "/x".to_string(), &RequestRange::Whole).unwrap();
    assert_eq!(cached_body(first), HELLO_WORLD.to_vec());
    assert_eq!(count.load(Ordering::Relaxed), 1);

    let later = service.call(3, "/x".to_string(), &RequestRange::Whole).unwrap();
    assert_eq!(cached_body(later), HELLO_WORLD.to_vec());
    assert_eq!(count.load(Ordering::Relaxed), 2);
}

#[test]
fn test_range_on_cold_miss_then_hole_fill() {
    let (backend, count) = MockBackend::new(true, HELLO_WORLD, None);
    let mut service = Service::new(backend, 1_000_000);

    let first = service.call(0, "/x".to_string(), &RequestRange::AllFrom(6)).unwrap();
    assert_eq!(cached_body(first), b"world".to_vec());
    assert_eq!(count.load(Ordering::Relaxed), 1);

    // The prefix is a hole: one more upstream fetch fills exactly it.
    let sub = service.call(0, "/x".to_string(), &RequestRange::FromTo(0, 5)).unwrap();
    assert_eq!(cached_body(sub), b"hello".to_vec());
    assert_eq!(count.load(Ordering::Relaxed), 2);
}

#[test]
fn test_concurrent_readers_see_equal_bytes() {
    let (backend, count) = MockBackend::new(true, HELLO_WORLD, None);
    let mut service = Service::new(backend, 1_000_000);

    let warm = service.call(0, "/x".to_string(), &RequestRange::Whole).unwrap();
    assert_eq!(cached_body(warm), HELLO_WORLD.to_vec());

    // Two readers of the same cached range produce bit-equal bodies.
    let a = service.call(0, "/x".to_string(), &RequestRange::FromTo(2, 9)).unwrap();
    let b = service.call(0, "/x".to_string(), &RequestRange::FromTo(2, 9)).unwrap();
    assert_eq!(cached_body(a), cached_body(b));
    assert_eq!(count.load(Ordering::Relaxed), 1);
}

#[test]
fn test_empty_range_issues_no_fetch() {
    let (backend, count) = MockBackend::new(true, HELLO_WORLD, None);
    let mut service = Service::new(backend, 1_000_000);

    let warm = service.call(0, "/x".to_string(), &RequestRange::Whole).unwrap();
    assert_eq!(cached_body(warm), HELLO_WORLD.to_vec());
    assert_eq!(count.load(Ordering::Relaxed), 1);

    // An empty range yields an empty stream and touches nothing upstream.
    let empty = service.call(0, "/x".to_string(), &RequestRange::FromTo(4, 4)).unwrap();
    assert_eq!(cached_body(empty), Vec::<u8>::new());
    assert_eq!(count.load(Ordering::Relaxed), 1);
}

#[test]
fn test_error_message_text() {
    assert_eq!(
        StreamError::InvalidUpstreamStatus.message(),
        "invalid upstream status"
    );
    assert_eq!(
        StreamError::UpstreamTransport.message(),
        "upstream transport error"
    );
}

#[test]
fn test_hole_fill_denied_is_an_error() {
    // A hole forces an upstream fetch; an upstream that answers with a
    // passthrough verdict mid-fill fails the stream.
    let count = Arc::new(AtomicUsize::new(0));
    let requester = MockRequester {
        count: count.clone(),
        cacheable: false,
        payload: HELLO_WORLD.to_vec(),
        expire: None,
    };
    let mut reader = AdaptiveReader::new_adaptive(requester, Blocks::new());
    let mut offset = 0;

    let r = reader.next::<SimpleResponse>(&mut offset, 5);
    assert!(matches!(r, Some(Err(StreamError::InvalidUpstreamStatus))));
    assert_eq!(offset, 0);
}

#[test]
fn test_overlong_chunk_is_a_transport_error() {
    // A chunk running past the requested end fails the stream rather than
    // overshooting.
    let mut reader = StreamBodyReader::new(MockBody::Chunks(vec![HELLO_WORLD.to_vec()]));
    let mut offset = 0;

    let r = reader.next(&mut offset, 3);
    assert!(matches!(r, Some(Err(StreamError::UpstreamTransport))));
    assert_eq!(offset, 0);
}
