use cog_tiles::errors::TransportError;
use cog_tiles::reader::{FetchRequest, Reader, RangeResult};

fn resource(len: usize) -> Vec<u8> {
    (0..len).map(|i| (i % 251) as u8).collect()
}

fn serve(file: &[u8], req: FetchRequest) -> Vec<u8> {
    let start = (req.offset as usize).min(file.len());
    let end = (req.offset as usize + req.length as usize).min(file.len());
    file[start..end].to_vec()
}

fn url() -> String {
    "memory://document.tif".to_string()
}

#[test]
fn adaptive_fetch_growth() {
    let file = resource(3000);
    let mut reader = Reader::with_policy(&url(), 100, 2, 1000);
    let offsets = [0u64, 100, 300, 700, 1500];
    let mut sizes = Vec::new();
    for &offset in offsets.iter() {
        let req = match reader.get_range(offset, 10) {
            RangeResult::Fetch(req) => req,
            RangeResult::Ready(_) => panic!("range at {} should not be cached yet", offset),
        };
        assert_eq!(req.offset, offset);
        assert_eq!(req.needed, 10);
        sizes.push(req.length);
        reader.fill(req, serve(&file, req)).unwrap();
        match reader.get_range(offset, 10) {
            RangeResult::Ready(bytes) => {
                assert_eq!(bytes, file[offset as usize..offset as usize + 10].to_vec())
            }
            RangeResult::Fetch(_) => panic!("range at {} should be cached", offset),
        }
    }
    assert_eq!(sizes, vec![100, 200, 400, 800, 1000]);
    assert_eq!(reader.min_fetch(), 1000);
    assert_eq!(reader.fetch_count(), 5);
}

#[test]
fn overlapping_requests_fetch_once() {
    let file = resource(10000);
    let mut reader = Reader::new(&url());
    let req = match reader.get_range(0, 8) {
        RangeResult::Fetch(req) => req,
        RangeResult::Ready(_) => panic!("empty cache"),
    };
    assert_eq!(req, FetchRequest { offset: 0, length: 4096, needed: 8 });
    reader.fill(req, serve(&file, req)).unwrap();
    match reader.get_range(4, 8) {
        RangeResult::Ready(bytes) => assert_eq!(bytes, file[4..12].to_vec()),
        RangeResult::Fetch(_) => panic!("overlapping window should be cached"),
    }
    match reader.get_range(0, 8) {
        RangeResult::Ready(bytes) => assert_eq!(bytes, file[0..8].to_vec()),
        RangeResult::Fetch(_) => panic!("first window should be cached"),
    }
    assert_eq!(reader.fetch_count(), 1);
    assert_eq!(reader.min_fetch(), 8192);
}

#[test]
fn request_longer_than_minimum_is_fetched_whole() {
    let reader = Reader::with_policy(&url(), 16, 2, 64);
    match reader.get_range(40, 100) {
        RangeResult::Fetch(req) => {
            assert_eq!(req, FetchRequest { offset: 40, length: 100, needed: 100 })
        }
        RangeResult::Ready(_) => panic!("empty cache"),
    }
}

#[test]
fn growth_is_capped() {
    let mut reader = Reader::with_policy(&url(), u64::MAX / 2, 4, 1 << 20);
    let req = FetchRequest { offset: 0, length: 4, needed: 4 };
    reader.fill(req, vec![0, 0, 0, 0]).unwrap();
    assert_eq!(reader.min_fetch(), 1 << 20);
}

#[test]
fn short_fetch_is_rejected() {
    let mut reader = Reader::with_policy(&url(), 100, 2, 1000);
    let req = FetchRequest { offset: 0, length: 100, needed: 10 };
    assert_eq!(
        reader.fill(req, vec![0; 9]),
        Err(TransportError::ShortRead { expected: 10, received: 9 })
    );
    assert_eq!(reader.fetch_count(), 0);
    assert_eq!(reader.min_fetch(), 100);
    // a fetch cut short by the end of the resource still serves what was needed
    reader.fill(req, vec![7; 10]).unwrap();
    match reader.get_range(0, 10) {
        RangeResult::Ready(bytes) => assert_eq!(bytes, vec![7; 10]),
        RangeResult::Fetch(_) => panic!("should be cached"),
    }
}
