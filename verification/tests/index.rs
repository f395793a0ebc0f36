use mtf::error::MtfError;
use mtf::iter::StreamWithData;
use mtf::mdf::{MTFBackupIndex, MTFPageProvider, MQDA_TAG};
use mtf::pages::{parse_page_ptr, PagePointer, PAGE_SIZE};
use mtf::stream::{FileSystemAttributes, MediaFormatAttributes, Stream, StreamHeader};

fn page(file_id: u16, page_id: u32) -> Vec<u8> {
    let mut p = vec![0u8; PAGE_SIZE];
    p[32..36].copy_from_slice(&page_id.to_le_bytes());
    p[36..38].copy_from_slice(&file_id.to_le_bytes());
    p
}

fn payload(ptrs: &[(u16, u32)]) -> Vec<u8> {
    let mut out = Vec::new();
    for &(f, p) in ptrs {
        out.extend_from_slice(&page(f, p));
    }
    out
}

fn lookup(idx: &MTFBackupIndex, f: u16, p: u32) -> Option<u32> {
    idx.lookup(PagePointer { file_id: f, page_id: p })
}

#[test]
fn page_pointer_parsing() {
    let data = payload(&[(1, 7), (0, 9)]);
    assert_eq!(
        parse_page_ptr(&data, 0),
        Some(PagePointer { file_id: 1, page_id: 7 })
    );
    // a zero file number marks an uninitialised page
    assert_eq!(parse_page_ptr(&data, 1), None);
}

#[test]
fn minimal_index() {
    let data = payload(&[(1, 7), (1, 8)]);
    let idx = MTFBackupIndex::build(&data).unwrap();
    assert_eq!(lookup(&idx, 1, 7), Some(0));
    assert_eq!(lookup(&idx, 1, 8), Some(1));
    assert_eq!(lookup(&idx, 1, 9), None);
    assert_eq!(lookup(&idx, 1, 6), None);
    assert_eq!(lookup(&idx, 2, 7), None);
    assert_eq!(lookup(&idx, 0, 7), None);
}

#[test]
fn run_break() {
    let data = payload(&[(1, 7), (1, 8), (1, 12), (1, 13)]);
    let idx = MTFBackupIndex::build(&data).unwrap();
    assert_eq!(lookup(&idx, 1, 7), Some(0));
    assert_eq!(lookup(&idx, 1, 8), Some(1));
    assert_eq!(lookup(&idx, 1, 12), Some(2));
    assert_eq!(lookup(&idx, 1, 13), Some(3));
    assert_eq!(lookup(&idx, 1, 10), None);
}

#[test]
fn two_files() {
    let data = payload(&[(1, 7), (2, 5), (2, 6)]);
    let idx = MTFBackupIndex::build(&data).unwrap();
    assert_eq!(lookup(&idx, 1, 7), Some(0));
    assert_eq!(lookup(&idx, 2, 5), Some(1));
    assert_eq!(lookup(&idx, 2, 6), Some(2));
    assert_eq!(lookup(&idx, 2, 7), None);
}

#[test]
fn bucketed_lookup() {
    // a run of 1026 pages starting at page id 5: page id 1030 selects outer
    // bucket 1, which is empty, and the scan steps down to bucket 0
    let mut ptrs = Vec::new();
    for i in 0..1026u32 {
        ptrs.push((1u16, 5 + i));
    }
    let data = payload(&ptrs);
    let idx = MTFBackupIndex::build(&data).unwrap();
    assert_eq!(idx.outer_level_entries, 2);
    assert_eq!(lookup(&idx, 1, 1030), Some(1030 - 5));
    assert_eq!(lookup(&idx, 1, 5), Some(0));
    assert_eq!(lookup(&idx, 1, 1031), None);
}

#[test]
fn empty_payload_is_refused() {
    assert_eq!(MTFBackupIndex::build(&[]), Err(MtfError::Invariant));
    // a payload whose first page is uninitialised cannot seed the scan
    let data = payload(&[(0, 0), (1, 7)]);
    assert_eq!(MTFBackupIndex::build(&data), Err(MtfError::Invariant));
}

#[test]
fn build_is_deterministic() {
    let data = payload(&[(1, 7), (1, 8), (3, 2), (1, 20)]);
    let a = MTFBackupIndex::build(&data).unwrap();
    let b = MTFBackupIndex::build(&data).unwrap();
    assert_eq!(a, b);
}

fn mqda_stream(data: &[u8]) -> StreamWithData<'_> {
    StreamWithData {
        stream: Stream {
            header: StreamHeader {
                id: "MQDA".to_string(),
                id_tag: MQDA_TAG,
                file_system_attributes: FileSystemAttributes { bits: 0 },
                media_format_attributes: MediaFormatAttributes { bits: 0 },
                length: data.len() as u64,
                encryption_algorithm: 0,
                compression_algorithm: 0,
            },
            base: 0,
        },
        data,
    }
}

#[test]
fn provider_round_trip() {
    // two filler bytes, then pages (1,7) (1,8) (2,3)
    let mut raw = vec![0u8; 2];
    raw.extend_from_slice(&payload(&[(1, 7), (1, 8), (2, 3)]));
    let provider = MTFPageProvider::from_stream(mqda_stream(&raw)).unwrap();
    let mut files = provider.file_ids();
    files.sort();
    assert_eq!(files, vec![1, 2]);
    assert_eq!(provider.num_pages(1), 9);
    assert_eq!(provider.num_pages(2), 4);
    // every observed key comes back as a page whose header carries it
    for &(f, p) in &[(1u16, 7u32), (1, 8), (2, 3)] {
        let ptr = PagePointer { file_id: f, page_id: p };
        let page = provider.get(ptr).unwrap().unwrap();
        assert_eq!(page.len(), PAGE_SIZE);
        assert_eq!(parse_page_ptr(page, 0), Some(ptr));
    }
    assert_eq!(provider.get(PagePointer { file_id: 1, page_id: 9 }).unwrap(), None);
    assert_eq!(provider.get(PagePointer { file_id: 3, page_id: 0 }).unwrap(), None);
}

#[test]
fn cache_name_is_stable() {
    let data = payload(&[
        (1, 1), (1, 2), (1, 3), (1, 4), (1, 5),
        (1, 6), (1, 7), (1, 8), (1, 9), (1, 10),
    ]);
    let a = MTFBackupIndex::cache_name(&data);
    let b = MTFBackupIndex::cache_name(&data);
    assert_eq!(a, b);
    assert!(a.starts_with(".mtf_backup_index_"));
    assert_eq!(a.len(), ".mtf_backup_index_".len() + 16);
    assert!(a[".mtf_backup_index_".len()..]
        .chars()
        .all(|c| c.is_ascii_hexdigit()));
    // a different payload names a different cache file
    let other = payload(&[
        (1, 1), (1, 2), (1, 3), (1, 4), (1, 5),
        (1, 6), (1, 7), (1, 8), (1, 9), (1, 11),
    ]);
    assert_ne!(a, MTFBackupIndex::cache_name(&other));
}

#[test]
fn cache_round_trip() {
    let data = payload(&[(1, 7), (1, 8), (3, 2), (1, 20)]);
    let idx = MTFBackupIndex::build(&data).unwrap();
    let bytes = idx.serialize();
    let back = MTFBackupIndex::deserialize(&bytes).unwrap();
    assert_eq!(idx, back);
    for &(f, p) in &[(1u16, 7u32), (1, 8), (3, 2), (1, 20), (1, 9), (2, 1)] {
        assert_eq!(lookup(&back, f, p), lookup(&idx, f, p));
    }
    // serialisation is a function of the index alone
    assert_eq!(bytes, idx.serialize());
}

#[test]
fn stale_cache_is_rejected() {
    let data = payload(&[(1, 7)]);
    let idx = MTFBackupIndex::build(&data).unwrap();
    let mut wrong_version = idx.serialize();
    wrong_version[0] ^= 1;
    assert!(MTFBackupIndex::deserialize(&wrong_version).is_none());
    assert!(MTFBackupIndex::deserialize(&[1, 2, 3]).is_none());
    let mut truncated = idx.serialize();
    truncated.truncate(truncated.len() - 8);
    assert!(MTFBackupIndex::deserialize(&truncated).is_none());
}
