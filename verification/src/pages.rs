use vstd::prelude::*;
use crate::cursor::{le16, le32, ByteCursor};

verus! {

broadcast use vstd::slice::group_slice_axioms;

/// Size of one database page.
pub const PAGE_SIZE: usize = 8192;

/// Where a page's own address sits in its 96-byte header: the page number as
/// a little-endian 32-bit word, then the file number as a 16-bit word.
pub const PAGE_PTR_PAGE_OFFSET: usize = 32;

pub const PAGE_PTR_FILE_OFFSET: usize = 36;

/// The address of one database page. `file_id == 0` marks an uninitialised
/// page, which is never indexed.
#[derive(Debug, Clone, Copy, PartialEq, Eq, Hash, Structural)]
pub struct PagePointer {
    pub file_id: u16,
    pub page_id: u32,
}

/// How many whole pages a payload holds.
pub open spec fn spec_num_pages(data: Seq<u8>) -> int {
    (data.len() as int) / (PAGE_SIZE as int)
}

/// The page pointer stored in page `i`'s header; `None` for an uninitialised
/// page (file number zero).
pub open spec fn spec_page_ptr(data: Seq<u8>, i: int) -> Option<PagePointer> {
    let p = le32(data, i * (PAGE_SIZE as int) + PAGE_PTR_PAGE_OFFSET);
    let f = le16(data, i * (PAGE_SIZE as int) + PAGE_PTR_FILE_OFFSET);
    if f == 0 {
        None
    } else {
        Some(PagePointer { file_id: f, page_id: p })
    }
}

/// Reads the page pointer out of page `i` of the payload.
pub fn parse_page_ptr(data: &[u8], i: usize) -> (r: Option<PagePointer>)
    requires
        (i + 1) * PAGE_SIZE <= data@.len(),
    ensures
        r == spec_page_ptr(data@, i as int),
{
    proof {
        assert(data@.len() == vstd::slice::spec_slice_len(data));
    }
    let off = i * PAGE_SIZE;
    let mut cur = ByteCursor { data, pos: off + PAGE_PTR_PAGE_OFFSET };
    let page_id = match cur.read_u32() {
        Ok(v) => v,
        Err(_) => {
            return None;
        },
    };
    let file_id = match cur.read_u16() {
        Ok(v) => v,
        Err(_) => {
            return None;
        },
    };
    if file_id == 0 {
        None
    } else {
        Some(PagePointer { file_id, page_id })
    }
}

} // verus!
