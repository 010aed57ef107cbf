//! What holds of the layout of a container, in terms of the bytes of the file.

use crate::msf_layout::{begins_with, big_magic, breaks, cut, directory_streams, follows, layout_of,
    numbers, page_count, pages_content, sizes_in, small_magic, streams_in, u16_at, u32_at,
    LayoutModel, MsfError, StreamModel};
use vstd::prelude::*;

verus! {

/// The number that four bytes spell, the lowest first.
pub open spec fn four_bytes(b: Seq<u8>, at: int) -> int {
    b[at] + 256 * b[at + 1] + 65536 * b[at + 2] + 16777216 * b[at + 3]
}

/// The number that two bytes spell, the lowest first.
pub open spec fn two_bytes(b: Seq<u8>, at: int) -> int {
    b[at] + 256 * b[at + 1]
}

proof fn lemma_numbers_are_read(b: Seq<u8>, at: int)
    requires
        0 <= at,
    ensures
        at + 4 <= b.len() ==> (u32_at(b, at) matches Ok(n) && n == four_bytes(b, at)),
        at + 2 <= b.len() ==> (u16_at(b, at) matches Ok(n) && n == two_bytes(b, at)),
{
}

proof fn lemma_header_numbers(b: Seq<u8>, n: int, at: int)
    requires
        0 <= at,
        at + 4 <= n <= b.len(),
    ensures
        u32_at(b.take(n), at) matches Ok(x) && x == four_bytes(b, at),
        u16_at(b.take(n), at) matches Ok(x) && x == two_bytes(b, at),
{
    let h = b.take(n);
    lemma_numbers_are_read(h, at);
    assert(h[at] == b[at] && h[at + 1] == b[at + 1] && h[at + 2] == b[at + 2] && h[at + 3] == b[at
        + 3]);
}

/// The newer format tells the size of its pages, the page of the free pages, the number of
/// pages and the size of its directory in the four numbers behind its mark.
pub proof fn lemma_newer_header_is_read(b: Seq<u8>)
    requires
        begins_with(b, big_magic()),
        layout_of(b) is Ok,
    ensures
        ({
            let l = layout_of(b)->Ok_0;
            &&& l.page_size == four_bytes(b, 32)
            &&& l.free_page_map == four_bytes(b, 36)
            &&& l.pages_used == four_bytes(b, 40)
            &&& l.directory_size == four_bytes(b, 44)
            &&& l.format == "MSF 7.00"@
        }),
{
    let page_size = u32_at(b, 32)->Ok_0;
    lemma_numbers_are_read(b, 32);
    lemma_header_numbers(b, page_size as int, 36);
    lemma_header_numbers(b, page_size as int, 40);
    lemma_header_numbers(b, page_size as int, 44);
}

/// The older format tells the size of its pages in four bytes behind its mark, then the page
/// of the free pages and the number of pages in two bytes each, and the size of its directory
/// in four.
pub proof fn lemma_older_header_is_read(b: Seq<u8>)
    requires
        !begins_with(b, big_magic()),
        layout_of(b) is Ok,
    ensures
        ({
            let l = layout_of(b)->Ok_0;
            &&& begins_with(b, small_magic())
            &&& l.page_size == four_bytes(b, 44)
            &&& l.free_page_map == two_bytes(b, 48)
            &&& l.pages_used == two_bytes(b, 50)
            &&& l.directory_size == four_bytes(b, 52)
            &&& l.format == "MSF 2.00"@
            &&& l.directory_map_pages.len() == 0
        }),
{
    let page_size = u32_at(b, 44)->Ok_0;
    lemma_numbers_are_read(b, 44);
    lemma_header_numbers(b, page_size as int, 48);
    lemma_header_numbers(b, page_size as int, 50);
    lemma_header_numbers(b, page_size as int, 52);
}

/// A file that is too short, has neither mark, or says that its pages have another size than
/// a power of two from 256 bytes to 8 megabytes, is refused for that.
pub proof fn lemma_other_files_are_refused(b: Seq<u8>)
    ensures
        b.len() < 64 ==> layout_of(b) == Err::<LayoutModel, MsfError>(MsfError::Truncated),
        b.len() >= 64 && !begins_with(b, big_magic()) && !begins_with(b, small_magic())
            ==> layout_of(b) == Err::<LayoutModel, MsfError>(MsfError::UnrecognizedHeader),
        b.len() >= 64 && begins_with(b, big_magic()) && (four_bytes(b, 32) < 256 || four_bytes(
            b,
            32,
        ) > 8388608 || four_bytes(b, 32) % 256 != 0) ==> layout_of(b) == Err::<
            LayoutModel,
            MsfError,
        >(MsfError::PageSize { page_size: four_bytes(b, 32) as u32 }),
        b.len() >= 64 && begins_with(b, big_magic()) && four_bytes(b, 32) == 4096 && b.len() >= 4096
            && b.len() < 4096 * four_bytes(b, 40) ==> layout_of(b) is Err && layout_of(b)->Err_0
            is FileSize,
{
    if b.len() >= 64 {
        lemma_numbers_are_read(b, 32);
        if b.len() >= 4096 {
            lemma_header_numbers(b, 4096, 40);
        }
    }
}

proof fn lemma_listed_numbers(b: Seq<u8>, offset: int, wide: bool, n: int, pages_used: u32)
    requires
        0 <= offset,
        numbers(b, offset, wide, n, pages_used) is Ok,
        n >= 0,
    ensures
        ({
            let v = numbers(b, offset, wide, n, pages_used)->Ok_0;
            &&& v.len() == n
            &&& forall|i: int|
                0 <= i < n && wide ==> offset + 4 * i + 4 <= b.len() && #[trigger] v[i]
                    == four_bytes(b, offset + 4 * i)
            &&& forall|i: int|
                0 <= i < n && !wide ==> offset + 2 * i + 2 <= b.len() && #[trigger] v[i]
                    == two_bytes(b, offset + 2 * i)
            &&& forall|i: int| 0 <= i < n ==> 0 < #[trigger] v[i] < pages_used
        }),
    decreases n,
{
    if n > 0 {
        lemma_listed_numbers(b, offset, wide, n - 1, pages_used);
        let at = if wide {
            offset + 4 * (n - 1)
        } else {
            offset + 2 * (n - 1)
        };
        lemma_numbers_are_read(b, at);
    }
}

/// The pages of the directory are listed behind the header of the older format, two bytes
/// each, and none lies outside the file.
pub proof fn lemma_older_directory_is_listed(b: Seq<u8>)
    requires
        !begins_with(b, big_magic()),
        layout_of(b) is Ok,
    ensures
        ({
            let l = layout_of(b)->Ok_0;
            forall|i: int|
                0 <= i < l.directory_pages.len() ==> #[trigger] l.directory_pages[i] == two_bytes(
                    b,
                    60 + 2 * i,
                ) && 0 < l.directory_pages[i] < l.pages_used
        }),
{
    let l = layout_of(b)->Ok_0;
    let page_size = u32_at(b, 44)->Ok_0;
    let header = b.take(page_size as int);
    let size = u32_at(header, 52)->Ok_0;
    let used = u16_at(header, 50)->Ok_0;
    let n = page_count(size as int, page_size);
    lemma_page_count_is_enough(size as int, page_size);
    lemma_listed_numbers(header, 60, false, n, used);
    assert forall|i: int| 0 <= i < l.directory_pages.len() implies #[trigger] l.directory_pages[i]
        == two_bytes(b, 60 + 2 * i) && 0 < l.directory_pages[i] < l.pages_used by {
        assert(header[60 + 2 * i] == b[60 + 2 * i]);
        assert(header[60 + 2 * i + 1] == b[60 + 2 * i + 1]);
    }
}

/// The pages that list those of the directory are listed behind the header of the newer
/// format, four bytes each.
pub proof fn lemma_newer_directory_map_is_listed(b: Seq<u8>)
    requires
        begins_with(b, big_magic()),
        layout_of(b) is Ok,
    ensures
        ({
            let l = layout_of(b)->Ok_0;
            forall|i: int|
                0 <= i < l.directory_map_pages.len() ==> #[trigger] l.directory_map_pages[i]
                    == four_bytes(b, 52 + 4 * i) && 0 < l.directory_map_pages[i] < l.pages_used
        }),
{
    let l = layout_of(b)->Ok_0;
    let page_size = u32_at(b, 32)->Ok_0;
    let header = b.take(page_size as int);
    let used = u32_at(header, 40)->Ok_0;
    let size = u32_at(header, 44)->Ok_0;
    let dir_count = page_count(size as int, page_size);
    let entries = if dir_count * 4 > u32::MAX {
        u32::MAX as int
    } else {
        dir_count * 4
    };
    lemma_page_count_is_enough(size as int, page_size);
    lemma_page_count_is_enough(entries, page_size);
    lemma_listed_numbers(header, 52, true, page_count(entries, page_size), used);
    assert forall|i: int| 0 <= i < l.directory_map_pages.len() implies
        #[trigger] l.directory_map_pages[i] == four_bytes(b, 52 + 4 * i) && 0
        < l.directory_map_pages[i] < l.pages_used by {
        assert(header[52 + 4 * i] == b[52 + 4 * i]);
        assert(header[52 + 4 * i + 1] == b[52 + 4 * i + 1]);
        assert(header[52 + 4 * i + 2] == b[52 + 4 * i + 2]);
        assert(header[52 + 4 * i + 3] == b[52 + 4 * i + 3]);
    }
}

/// As many pages are counted as the bytes need, and no more.
pub proof fn lemma_page_count_is_enough(bytes: int, page_size: u32)
    requires
        0 <= bytes,
        page_size > 0,
    ensures
        page_count(bytes, page_size) >= 0,
        page_count(bytes, page_size) * page_size >= bytes,
        (page_count(bytes, page_size) - 1) * page_size < bytes,
{
    let p = page_size as int;
    let n = (bytes + p - 1) / p;
    assert(n * p <= bytes + p - 1 && bytes + p - 1 < n * p + p && n >= 0) by (nonlinear_arith)
        requires
            n == (bytes + p - 1) / p,
            p > 0,
            bytes >= 0,
    ;
    assert((n - 1) * p == n * p - p) by (nonlinear_arith);
}

proof fn lemma_listed_sizes(d: Seq<u8>, wide: bool, n: int)
    requires
        n >= 0,
        sizes_in(d, wide, n) is Ok,
    ensures
        ({
            let v = sizes_in(d, wide, n)->Ok_0;
            &&& v.len() == n
            &&& forall|i: int|
                0 <= i < n ==> {
                    let at = if wide {
                        4 + 4 * i
                    } else {
                        4 + 8 * i
                    };
                    at + 4 <= d.len() && (#[trigger] v[i] is None <==> four_bytes(d, at)
                        == 4294967295) && (v[i] matches Some(s) ==> s == four_bytes(d, at))
                }
        }),
    decreases n,
{
    if n > 0 {
        lemma_listed_sizes(d, wide, n - 1);
        let at = if wide {
            4 + 4 * (n - 1)
        } else {
            4 + 8 * (n - 1)
        };
        lemma_numbers_are_read(d, at);
    }
}

proof fn lemma_listed_streams(
    d: Seq<u8>,
    start: int,
    sizes: Seq<Option<u32>>,
    page_size: u32,
    pages_used: u32,
    wide: bool,
    n: int,
)
    requires
        n >= 0,
        streams_in(d, start, sizes, page_size, pages_used, wide, n) is Ok,
    ensures
        ({
            let v = streams_in(d, start, sizes, page_size, pages_used, wide, n)->Ok_0;
            v.len() == n && forall|i: int| 0 <= i < n ==> (#[trigger] v[i]).size == sizes[i]
        }),
    decreases n,
{
    if n > 0 {
        lemma_listed_streams(d, start, sizes, page_size, pages_used, wide, n - 1);
    }
}

/// A directory begins with the number of its streams. Their sizes follow, four bytes each in
/// the newer format and the first four of eight in the older; a stream whose size is the
/// largest number has none.
pub proof fn lemma_directory_lists_its_streams(
    d: Seq<u8>,
    page_size: u32,
    pages_used: u32,
    wide: bool,
)
    requires
        directory_streams(d, page_size, pages_used, wide) is Ok,
    ensures
        ({
            let v = directory_streams(d, page_size, pages_used, wide)->Ok_0;
            &&& wide ==> v.len() == four_bytes(d, 0)
            &&& !wide ==> v.len() == two_bytes(d, 0)
            &&& forall|i: int|
                0 <= i < v.len() ==> {
                    let at = if wide {
                        4 + 4 * i
                    } else {
                        4 + 8 * i
                    };
                    ((#[trigger] v[i]).size is None <==> four_bytes(d, at) == 4294967295) && (
                    v[i].size matches Some(s) ==> s == four_bytes(d, at))
                }
        }),
{
    lemma_numbers_are_read(d, 0);
    let count = if wide {
        u32_at(d, 0)->Ok_0
    } else {
        u16_at(d, 0)->Ok_0
    };
    lemma_listed_sizes(d, wide, count as int);
    let sizes = sizes_in(d, wide, count as int)->Ok_0;
    let start = if wide {
        4 + 4 * count
    } else {
        4 + 8 * count
    };
    lemma_listed_streams(d, start as int, sizes, page_size, pages_used, wide, count as int);
}

/// The streams of a layout are those that its directory lists, which is the content of the
/// directory's pages up to the directory's size.
pub proof fn lemma_layout_lists_the_streams_of_its_directory(b: Seq<u8>)
    requires
        layout_of(b) is Ok,
    ensures
        ({
            let l = layout_of(b)->Ok_0;
            pages_content(
                b,
                l.page_size,
                l.pages_used,
                l.directory_pages,
                l.directory_pages.len() as int,
            ) matches Ok(content) && directory_streams(
                cut(content, l.directory_size as int),
                l.page_size,
                l.pages_used,
                begins_with(b, big_magic()),
            ) == Ok::<Seq<StreamModel>, MsfError>(l.streams)
        }),
{
}

/// No page breaks a list exactly where each page is the one behind the page before it.
pub proof fn lemma_breaks_are_counted(pages: Seq<u32>, n: int)
    requires
        1 <= n <= pages.len(),
        forall|i: int| 0 <= i < pages.len() ==> #[trigger] pages[i] < u32::MAX,
    ensures
        breaks(pages, n) < n,
        breaks(pages, n) == 0 <==> forall|i: int|
            0 <= i < n ==> #[trigger] pages[i] == pages[0] + i,
    decreases n,
{
    if n > 1 {
        lemma_breaks_are_counted(pages, n - 1);
        assert(pages[n - 2] < u32::MAX);
        if breaks(pages, n) == 0 {
            assert forall|i: int| 0 <= i < n implies #[trigger] pages[i] == pages[0] + i by {
                if i == n - 1 {
                    assert(pages[n - 2] == pages[0] + (n - 2));
                }
            }
        } else if follows(pages[n - 2], pages[n - 1]) {
            let i = choose|i: int| 0 <= i < n - 1 && #[trigger] pages[i] != pages[0] + i;
            assert(pages[i] != pages[0] + i);
        } else {
            assert(pages[n - 1] != pages[n - 2] + 1);
        }
    }
}

} // verus!
