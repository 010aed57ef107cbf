//! The layout of a multi-stream container: which pages of the file hold which
//! stream.

use crate::number::{dec, decimal, hex, hexadecimal};
use crate::pieces::{cat2, cat4};
use crate::text::owned;
use vstd::prelude::*;

verus! {

/// Why a container cannot be read.
#[derive(Clone, Copy, PartialEq, Eq, Debug, Structural)]
pub enum MsfError {
    /// The file ends before a part that has to be there.
    Truncated,
    /// The file does not begin with a known mark.
    UnrecognizedHeader,
    /// The page size is not a power of two in the permitted range.
    PageSize { page_size: u32 },
    /// The file is smaller than its header says.
    FileSize { required: u64, actual: u64 },
    /// A page number is outside the file.
    Page { page: u32, pages_used: u32 },
    /// A structure ends before a number in it.
    Short { offset: u64 },
}

impl MsfError {
    /// The error in words; `path` is the file.
    pub open spec fn words(self, path: Seq<char>) -> Seq<char> {
        match self {
            MsfError::Truncated => "failed to fill whole buffer"@,
            MsfError::UnrecognizedHeader => "unrecognized MSF header in "@ + path,
            MsfError::PageSize { page_size } => "invalid MSF page size 0x"@ + hex(page_size as nat),
            MsfError::FileSize { required, actual } => "MSF declares "@ + dec(required as nat)
                + " bytes but file has "@ + dec(actual as nat),
            MsfError::Page { page, pages_used } => "MSF page "@ + dec(page as nat)
                + " is outside 1.."@ + dec(pages_used as nat),
            MsfError::Short { offset } => "short MSF read at 0x"@ + hex(offset as nat),
        }
    }

    /// The error in words; `path` is the file.
    pub fn message(&self, path: &str) -> (r: String)
        ensures
            r@ == self.words(path@),
    {
        match self {
            MsfError::Truncated => owned("failed to fill whole buffer"),
            MsfError::UnrecognizedHeader => cat2("unrecognized MSF header in ", path),
            MsfError::PageSize { page_size } => cat2(
                "invalid MSF page size 0x",
                hexadecimal(*page_size as u64).as_str(),
            ),
            MsfError::FileSize { required, actual } => cat4(
                "MSF declares ",
                decimal(*required).as_str(),
                " bytes but file has ",
                decimal(*actual).as_str(),
            ),
            MsfError::Page { page, pages_used } => cat4(
                "MSF page ",
                decimal(*page as u64).as_str(),
                " is outside 1..",
                decimal(*pages_used as u64).as_str(),
            ),
            MsfError::Short { offset } => cat2(
                "short MSF read at 0x",
                hexadecimal(*offset).as_str(),
            ),
        }
    }
}

/// One stream: its place in the directory, its size, and the pages that hold it.
#[derive(Debug)]
pub struct MsfStreamLayout {
    pub index: u32,
    /// Nothing where the directory marks the stream as absent.
    pub size: Option<u32>,
    pub pages: Vec<u32>,
}

/// The layout of a container.
#[derive(Debug)]
pub struct MsfLayout {
    pub format: &'static str,
    pub page_size: u32,
    pub free_page_map: u32,
    pub pages_used: u32,
    pub directory_size: u32,
    pub directory_map_pages: Vec<u32>,
    pub directory_pages: Vec<u32>,
    pub streams: Vec<MsfStreamLayout>,
}

/// What a stream's layout says.
pub struct StreamModel {
    pub index: u32,
    pub size: Option<u32>,
    pub pages: Seq<u32>,
}

/// What a container's layout says.
pub struct LayoutModel {
    pub format: Seq<char>,
    pub page_size: u32,
    pub free_page_map: u32,
    pub pages_used: u32,
    pub directory_size: u32,
    pub directory_map_pages: Seq<u32>,
    pub directory_pages: Seq<u32>,
    pub streams: Seq<StreamModel>,
}

impl View for MsfStreamLayout {
    type V = StreamModel;

    open spec fn view(&self) -> StreamModel {
        StreamModel { index: self.index, size: self.size, pages: self.pages@ }
    }
}

impl View for MsfLayout {
    type V = LayoutModel;

    open spec fn view(&self) -> LayoutModel {
        LayoutModel {
            format: self.format@,
            page_size: self.page_size,
            free_page_map: self.free_page_map,
            pages_used: self.pages_used,
            directory_size: self.directory_size,
            directory_map_pages: self.directory_map_pages@,
            directory_pages: self.directory_pages@,
            streams: stream_models(self.streams@),
        }
    }
}

/// What the layouts of streams say.
pub open spec fn stream_models(v: Seq<MsfStreamLayout>) -> Seq<StreamModel> {
    v.map_values(|s: MsfStreamLayout| s@)
}

/// The mark at the beginning of a container of the newer format.
pub open spec fn big_magic() -> Seq<u8> {
    seq![
        77u8, 105u8, 99u8, 114u8, 111u8, 115u8, 111u8, 102u8, 116u8, 32u8, 67u8, 47u8,
        67u8, 43u8, 43u8, 32u8, 77u8, 83u8, 70u8, 32u8, 55u8, 46u8, 48u8, 48u8,
        13u8, 10u8, 26u8, 68u8, 83u8, 0u8, 0u8, 0u8,
    ]
}

/// The mark at the beginning of a container of the older format.
pub open spec fn small_magic() -> Seq<u8> {
    seq![
        77u8, 105u8, 99u8, 114u8, 111u8, 115u8, 111u8, 102u8, 116u8, 32u8, 67u8, 47u8,
        67u8, 43u8, 43u8, 32u8, 112u8, 114u8, 111u8, 103u8, 114u8, 97u8, 109u8, 32u8,
        100u8, 97u8, 116u8, 97u8, 98u8, 97u8, 115u8, 101u8, 32u8, 50u8, 46u8, 48u8,
        48u8, 13u8, 10u8, 26u8, 74u8, 71u8, 0u8, 0u8,
    ]
}

/// Whether `b` begins with `mark`.
pub open spec fn begins_with(b: Seq<u8>, mark: Seq<u8>) -> bool {
    mark.len() <= b.len() && b.take(mark.len() as int) == mark
}

/// The 32-bit number at `offset`, lowest byte first.
pub open spec fn u32_at(b: Seq<u8>, offset: int) -> Result<u32, MsfError> {
    if offset + 4 <= b.len() {
        Ok(
            (b[offset] + 0x100 * b[offset + 1] + 0x1_0000 * b[offset + 2] + 0x100_0000 * b[offset
                + 3]) as u32,
        )
    } else {
        Err(MsfError::Short { offset: offset as u64 })
    }
}

/// The 16-bit number at `offset`, lowest byte first.
pub open spec fn u16_at(b: Seq<u8>, offset: int) -> Result<u32, MsfError> {
    if offset + 2 <= b.len() {
        Ok((b[offset] + 0x100 * b[offset + 1]) as u32)
    } else {
        Err(MsfError::Short { offset: offset as u64 })
    }
}

/// The page number at `offset`; the newer format has wide ones.
pub open spec fn number_at(b: Seq<u8>, offset: int, wide: bool) -> Result<u32, MsfError> {
    if wide {
        u32_at(b, offset)
    } else {
        u16_at(b, offset)
    }
}

/// How many bytes page numbers take up.
pub open spec fn number_size(wide: bool) -> int {
    if wide {
        4
    } else {
        2
    }
}

/// The permitted page sizes.
pub open spec fn valid_page_size(n: u32) -> bool {
    ||| n == 0x100
    ||| n == 0x200
    ||| n == 0x400
    ||| n == 0x800
    ||| n == 0x1000
    ||| n == 0x2000
    ||| n == 0x4000
    ||| n == 0x8000
    ||| n == 0x1_0000
    ||| n == 0x2_0000
    ||| n == 0x4_0000
    ||| n == 0x8_0000
    ||| n == 0x10_0000
    ||| n == 0x20_0000
    ||| n == 0x40_0000
    ||| n == 0x80_0000
}

/// The pages that a file of `pages_used` pages may refer to.
pub open spec fn valid_page(page: u32, pages_used: u32) -> bool {
    0 < page < pages_used
}

/// How many pages hold `bytes` bytes.
pub open spec fn page_count(bytes: int, page_size: u32) -> int {
    (bytes + page_size - 1) / page_size as int
}

/// The `n` page numbers that stand from `offset` on, each of them checked.
pub open spec fn numbers(
    b: Seq<u8>,
    offset: int,
    wide: bool,
    n: int,
    pages_used: u32,
) -> Result<Seq<u32>, MsfError>
    decreases n,
{
    if n <= 0 {
        Ok(Seq::empty())
    } else {
        match numbers(b, offset, wide, n - 1, pages_used) {
            Err(e) => Err(e),
            Ok(before) => {
                let at = if wide {
                    offset + 4 * (n - 1)
                } else {
                    offset + 2 * (n - 1)
                };
                match number_at(b, at, wide) {
                    Err(e) => Err(e),
                    Ok(page) => if valid_page(page, pages_used) {
                        Ok(before.push(page))
                    } else {
                        Err(MsfError::Page { page, pages_used })
                    },
                }
            },
        }
    }
}

/// The bytes of page `page`.
pub open spec fn page_bytes(b: Seq<u8>, page_size: u32, page: u32) -> Seq<u8> {
    b.subrange(page * page_size, page * page_size + page_size)
}

/// The bytes of the first `n` of some pages.
pub open spec fn pages_content(
    b: Seq<u8>,
    page_size: u32,
    pages_used: u32,
    pages: Seq<u32>,
    n: int,
) -> Result<Seq<u8>, MsfError>
    decreases n,
{
    if n <= 0 {
        Ok(Seq::empty())
    } else {
        match pages_content(b, page_size, pages_used, pages, n - 1) {
            Err(e) => Err(e),
            Ok(before) => {
                let page = pages[n - 1];
                if !valid_page(page, pages_used) {
                    Err(MsfError::Page { page, pages_used })
                } else if page * page_size + page_size > b.len() {
                    Err(MsfError::Truncated)
                } else {
                    Ok(before + page_bytes(b, page_size, page))
                }
            },
        }
    }
}

/// `s`, cut to at most `n` bytes.
pub open spec fn cut(s: Seq<u8>, n: int) -> Seq<u8> {
    if n < s.len() {
        s.take(n)
    } else {
        s
    }
}

/// The sizes of the first `n` streams of a directory.
pub open spec fn sizes_in(d: Seq<u8>, wide: bool, n: int) -> Result<Seq<Option<u32>>, MsfError>
    decreases n,
{
    if n <= 0 {
        Ok(Seq::empty())
    } else {
        match sizes_in(d, wide, n - 1) {
            Err(e) => Err(e),
            Ok(before) => {
                let at = if wide {
                    4 + 4 * (n - 1)
                } else {
                    4 + 8 * (n - 1)
                };
                match u32_at(d, at) {
                    Err(e) => Err(e),
                    Ok(size) => Ok(
                        before.push(
                            if size != u32::MAX {
                                Some(size)
                            } else {
                                None
                            },
                        ),
                    ),
                }
            },
        }
    }
}

/// How many page numbers belong to a stream.
pub open spec fn stream_page_count(size: Option<u32>, page_size: u32) -> int {
    match size {
        Some(n) => page_count(n as int, page_size),
        None => 0,
    }
}

/// Where the page numbers of stream `n` begin.
pub open spec fn pages_offset(
    start: int,
    sizes: Seq<Option<u32>>,
    page_size: u32,
    wide: bool,
    n: int,
) -> int
    decreases n,
{
    if n <= 0 {
        start
    } else if wide {
        pages_offset(start, sizes, page_size, wide, n - 1) + 4 * stream_page_count(
            sizes[n - 1],
            page_size,
        )
    } else {
        pages_offset(start, sizes, page_size, wide, n - 1) + 2 * stream_page_count(
            sizes[n - 1],
            page_size,
        )
    }
}

/// The first `n` streams, their page numbers standing one behind the other from
/// `start` on.
pub open spec fn streams_in(
    d: Seq<u8>,
    start: int,
    sizes: Seq<Option<u32>>,
    page_size: u32,
    pages_used: u32,
    wide: bool,
    n: int,
) -> Result<Seq<StreamModel>, MsfError>
    decreases n,
{
    if n <= 0 {
        Ok(Seq::empty())
    } else {
        match streams_in(d, start, sizes, page_size, pages_used, wide, n - 1) {
            Err(e) => Err(e),
            Ok(before) => match numbers(
                d,
                pages_offset(start, sizes, page_size, wide, n - 1),
                wide,
                stream_page_count(sizes[n - 1], page_size),
                pages_used,
            ) {
                Err(e) => Err(e),
                Ok(pages) => Ok(
                    before.push(
                        StreamModel { index: (n - 1) as u32, size: sizes[n - 1], pages },
                    ),
                ),
            },
        }
    }
}

/// The streams that a directory lists.
pub open spec fn directory_streams(
    d: Seq<u8>,
    page_size: u32,
    pages_used: u32,
    wide: bool,
) -> Result<Seq<StreamModel>, MsfError> {
    match number_at(d, 0, wide) {
        Err(e) => Err(e),
        Ok(count) => match sizes_in(d, wide, count as int) {
            Err(e) => Err(e),
            Ok(sizes) => {
                let start = if wide {
                    4 + 4 * count
                } else {
                    4 + 8 * count
                };
                streams_in(d, start as int, sizes, page_size, pages_used, wide, count as int)
            },
        },
    }
}

/// The layout of a container of the newer format with the given page size.
pub open spec fn big_layout(b: Seq<u8>, page_size: u32) -> Result<LayoutModel, MsfError> {
    let header = b.take(page_size as int);
    let free_page_map = u32_at(header, 36)->Ok_0;
    let pages_used = u32_at(header, 40)->Ok_0;
    let directory_size = u32_at(header, 44)->Ok_0;
    let dir_count = page_count(directory_size as int, page_size);
    let entries = if dir_count * 4 > u32::MAX {
        u32::MAX as int
    } else {
        dir_count * 4
    };
    if b.len() < page_size * pages_used {
        Err(
            MsfError::FileSize {
                required: (page_size * pages_used) as u64,
                actual: b.len() as u64,
            },
        )
    } else {
        match numbers(header, 52, true, page_count(entries, page_size), pages_used) {
            Err(e) => Err(e),
            Ok(map_pages) => match pages_content(
                b,
                page_size,
                pages_used,
                map_pages,
                map_pages.len() as int,
            ) {
                Err(e) => Err(e),
                Ok(map) => match numbers(map, 0, true, dir_count, pages_used) {
                    Err(e) => Err(e),
                    Ok(dir_pages) => directory_layout(
                        b,
                        true,
                        page_size,
                        free_page_map,
                        pages_used,
                        directory_size,
                        map_pages,
                        dir_pages,
                    ),
                },
            },
        }
    }
}

/// The layout of a container of the older format with the given page size.
pub open spec fn small_layout(b: Seq<u8>, page_size: u32) -> Result<LayoutModel, MsfError> {
    let header = b.take(page_size as int);
    let free_page_map = u16_at(header, 48)->Ok_0;
    let pages_used = u16_at(header, 50)->Ok_0;
    let directory_size = u32_at(header, 52)->Ok_0;
    if b.len() < page_size * pages_used {
        Err(
            MsfError::FileSize {
                required: (page_size * pages_used) as u64,
                actual: b.len() as u64,
            },
        )
    } else {
        match numbers(
            header,
            60,
            false,
            page_count(directory_size as int, page_size),
            pages_used,
        ) {
            Err(e) => Err(e),
            Ok(dir_pages) => directory_layout(
                b,
                false,
                page_size,
                free_page_map,
                pages_used,
                directory_size,
                Seq::empty(),
                dir_pages,
            ),
        }
    }
}

/// The layout of a container whose directory stands on `dir_pages`.
pub open spec fn directory_layout(
    b: Seq<u8>,
    wide: bool,
    page_size: u32,
    free_page_map: u32,
    pages_used: u32,
    directory_size: u32,
    map_pages: Seq<u32>,
    dir_pages: Seq<u32>,
) -> Result<LayoutModel, MsfError> {
    match pages_content(b, page_size, pages_used, dir_pages, dir_pages.len() as int) {
        Err(e) => Err(e),
        Ok(content) => match directory_streams(
            cut(content, directory_size as int),
            page_size,
            pages_used,
            wide,
        ) {
            Err(e) => Err(e),
            Ok(streams) => Ok(
                LayoutModel {
                    format: if wide {
                        "MSF 7.00"@
                    } else {
                        "MSF 2.00"@
                    },
                    page_size,
                    free_page_map,
                    pages_used,
                    directory_size,
                    directory_map_pages: map_pages,
                    directory_pages: dir_pages,
                    streams,
                },
            ),
        },
    }
}

/// The layout of the container that the bytes `b` of a file hold.
pub open spec fn layout_of(b: Seq<u8>) -> Result<LayoutModel, MsfError> {
    if b.len() < 64 {
        Err(MsfError::Truncated)
    } else if !begins_with(b, big_magic()) && !begins_with(b, small_magic()) {
        Err(MsfError::UnrecognizedHeader)
    } else {
        let big = begins_with(b, big_magic());
        let page_size = if big {
            u32_at(b, 32)->Ok_0
        } else {
            u32_at(b, 44)->Ok_0
        };
        if !valid_page_size(page_size) {
            Err(MsfError::PageSize { page_size })
        } else if b.len() < page_size {
            Err(MsfError::Truncated)
        } else if big {
            big_layout(b, page_size)
        } else {
            small_layout(b, page_size)
        }
    }
}

// ---------------------------------------------------------------------------
// Reading
// ---------------------------------------------------------------------------

fn has_prefix(b: &[u8], mark: &Vec<u8>) -> (r: bool)
    ensures
        r == begins_with(b@, mark@),
{
    if mark.len() > b.len() {
        return false;
    }
    let mut i: usize = 0;
    while i < mark.len()
        invariant
            i <= mark@.len() <= b@.len(),
            forall|k: int| 0 <= k < i ==> b@[k] == mark@[k],
        decreases mark.len() - i,
    {
        if b[i] != mark[i] {
            assert(b@.take(mark@.len() as int)[i as int] == b@[i as int]);
            return false;
        }
        i = i + 1;
    }
    assert(b@.take(mark@.len() as int) =~= mark@);
    true
}

fn is_big(b: &[u8]) -> (r: bool)
    ensures
        r == begins_with(b@, big_magic()),
{
    let mark: Vec<u8> = vec![
        77u8, 105u8, 99u8, 114u8, 111u8, 115u8, 111u8, 102u8, 116u8, 32u8, 67u8, 47u8,
        67u8, 43u8, 43u8, 32u8, 77u8, 83u8, 70u8, 32u8, 55u8, 46u8, 48u8, 48u8,
        13u8, 10u8, 26u8, 68u8, 83u8, 0u8, 0u8, 0u8,
    ];
    assert(mark@ =~= big_magic());
    has_prefix(b, &mark)
}

fn is_small(b: &[u8]) -> (r: bool)
    ensures
        r == begins_with(b@, small_magic()),
{
    let mark: Vec<u8> = vec![
        77u8, 105u8, 99u8, 114u8, 111u8, 115u8, 111u8, 102u8, 116u8, 32u8, 67u8, 47u8,
        67u8, 43u8, 43u8, 32u8, 112u8, 114u8, 111u8, 103u8, 114u8, 97u8, 109u8, 32u8,
        100u8, 97u8, 116u8, 97u8, 98u8, 97u8, 115u8, 101u8, 32u8, 50u8, 46u8, 48u8,
        48u8, 13u8, 10u8, 26u8, 74u8, 71u8, 0u8, 0u8,
    ];
    assert(mark@ =~= small_magic());
    has_prefix(b, &mark)
}

fn le_u16(b: &[u8], offset: u64) -> (r: Result<u32, MsfError>)
    ensures
        r == u16_at(b@, offset as int),
{
    let n: u64 = b.len() as u64;
    if n < 2 || offset > n - 2 {
        return Err(MsfError::Short { offset });
    }
    let i: usize = offset as usize;
    Ok(b[i] as u32 + 0x100 * (b[i + 1] as u32))
}

fn le_u32(b: &[u8], offset: u64) -> (r: Result<u32, MsfError>)
    ensures
        r == u32_at(b@, offset as int),
{
    let n: u64 = b.len() as u64;
    if n < 4 || offset > n - 4 {
        return Err(MsfError::Short { offset });
    }
    let i: usize = offset as usize;
    Ok(
        b[i] as u32 + 0x100 * (b[i + 1] as u32) + 0x1_0000 * (b[i + 2] as u32) + 0x100_0000 * (b[i
            + 3] as u32),
    )
}

fn page_number(b: &[u8], offset: u64, wide: bool) -> (r: Result<u32, MsfError>)
    ensures
        r == number_at(b@, offset as int, wide),
{
    if wide {
        le_u32(b, offset)
    } else {
        le_u16(b, offset)
    }
}

fn is_valid_page_size(n: u32) -> (r: bool)
    ensures
        r == valid_page_size(n),
{
    n == 0x100 || n == 0x200 || n == 0x400 || n == 0x800 || n == 0x1000 || n == 0x2000 || n
        == 0x4000 || n == 0x8000 || n == 0x1_0000 || n == 0x2_0000 || n == 0x4_0000 || n
        == 0x8_0000 || n == 0x10_0000 || n == 0x20_0000 || n == 0x40_0000 || n == 0x80_0000
}

proof fn lemma_page_count(bytes: int, page_size: u32)
    requires
        0 <= bytes,
        page_size > 0,
    ensures
        0 <= page_count(bytes, page_size) <= bytes,
        bytes <= page_count(bytes, page_size) * page_size,
        bytes > 0 ==> page_count(bytes, page_size) > 0,
{
    let p = page_size as int;
    let c = page_count(bytes, page_size);
    vstd::arithmetic::div_mod::lemma_fundamental_div_mod(bytes + p - 1, p);
    vstd::arithmetic::div_mod::lemma_mod_bound(bytes + p - 1, p);
    assert(c * p == p * c) by (nonlinear_arith);
    assert(c <= bytes) by (nonlinear_arith)
        requires
            bytes >= 0,
            p >= 1,
            p * c <= bytes + p - 1,
    {
        if c > bytes {
            assert(p * c >= p * (bytes + 1));
            assert(p * (bytes + 1) >= bytes + p);
        }
    }
    assert(c >= 0) by (nonlinear_arith)
        requires
            p >= 1,
            p * c > bytes - 1,
            bytes >= 0,
    {
    }
    if bytes > 0 {
        assert(c > 0) by (nonlinear_arith)
            requires
                p * c > 0,
                p >= 1,
        {
        }
    }
}

fn pages_for(bytes: u32, page_size: u32) -> (r: u32)
    requires
        page_size > 0,
    ensures
        r == page_count(bytes as int, page_size),
{
    proof {
        lemma_page_count(bytes as int, page_size);
    }
    ((bytes as u64 + page_size as u64 - 1) / page_size as u64) as u32
}

fn read_numbers(b: &[u8], offset: u64, wide: bool, n: u32, pages_used: u32) -> (r: Result<
    Vec<u32>,
    MsfError,
>)
    requires
        offset <= 0x10_0000_0000 || offset <= b@.len(),
    ensures
        match r {
            Ok(v) => numbers(b@, offset as int, wide, n as int, pages_used) == Ok::<
                Seq<u32>,
                MsfError,
            >(v@),
            Err(e) => numbers(b@, offset as int, wide, n as int, pages_used) == Err::<
                Seq<u32>,
                MsfError,
            >(e),
        },
        r is Ok && n > 0 ==> offset + number_size(wide) * n <= b@.len(),
{
    let mut v: Vec<u32> = Vec::new();
    let mut at: u64 = offset;
    let mut i: u32 = 0;
    let len: usize = b.len();
    while i < n
        invariant
            i <= n,
            len == b@.len(),
            at == if wide {
                offset + 4 * i
            } else {
                offset + 2 * i
            },
            i > 0 ==> at <= b@.len(),
            offset <= 0x10_0000_0000 || offset <= b@.len(),
            numbers(b@, offset as int, wide, i as int, pages_used) == Ok::<Seq<u32>, MsfError>(v@),
        decreases n - i,
    {
        let page: u32 = match page_number(b, at, wide) {
            Ok(p) => p,
            Err(e) => {
                proof {
                    lemma_numbers_err(b@, offset as int, wide, i + 1, n as int, pages_used, e);
                }
                return Err(e);
            },
        };
        if page == 0 || page >= pages_used {
            let e: MsfError = MsfError::Page { page, pages_used };
            proof {
                lemma_numbers_err(b@, offset as int, wide, i + 1, n as int, pages_used, e);
            }
            return Err(e);
        }
        v.push(page);
        at = if wide {
            at + 4
        } else {
            at + 2
        };
        i = i + 1;
    }
    Ok(v)
}

proof fn lemma_numbers_err(
    b: Seq<u8>,
    offset: int,
    wide: bool,
    i: int,
    n: int,
    pages_used: u32,
    e: MsfError,
)
    requires
        0 < i <= n,
        numbers(b, offset, wide, i, pages_used) == Err::<Seq<u32>, MsfError>(e),
    ensures
        numbers(b, offset, wide, n, pages_used) == Err::<Seq<u32>, MsfError>(e),
    decreases n - i,
{
    if i < n {
        assert(numbers(b, offset, wide, i + 1, pages_used) == Err::<Seq<u32>, MsfError>(e));
        lemma_numbers_err(b, offset, wide, i + 1, n, pages_used, e);
    }
}

proof fn lemma_content_err(
    b: Seq<u8>,
    page_size: u32,
    pages_used: u32,
    pages: Seq<u32>,
    i: int,
    n: int,
    e: MsfError,
)
    requires
        0 < i <= n,
        pages_content(b, page_size, pages_used, pages, i) == Err::<Seq<u8>, MsfError>(e),
    ensures
        pages_content(b, page_size, pages_used, pages, n) == Err::<Seq<u8>, MsfError>(e),
    decreases n - i,
{
    if i < n {
        assert(pages_content(b, page_size, pages_used, pages, i + 1) == Err::<Seq<u8>, MsfError>(
            e,
        ));
        lemma_content_err(b, page_size, pages_used, pages, i + 1, n, e);
    }
}

fn read_pages(b: &[u8], page_size: u32, pages_used: u32, pages: &Vec<u32>) -> (r: Result<
    Vec<u8>,
    MsfError,
>)
    ensures
        match r {
            Ok(v) => pages_content(b@, page_size, pages_used, pages@, pages@.len() as int) == Ok::<
                Seq<u8>,
                MsfError,
            >(v@),
            Err(e) => pages_content(b@, page_size, pages_used, pages@, pages@.len() as int)
                == Err::<Seq<u8>, MsfError>(e),
        },
{
    let mut out: Vec<u8> = Vec::new();
    let mut i: usize = 0;
    let size: usize = b.len();
    let len: u64 = size as u64;
    while i < pages.len()
        invariant
            i <= pages@.len(),
            size == b@.len(),
            len == size,
            pages_content(b@, page_size, pages_used, pages@, i as int) == Ok::<Seq<u8>, MsfError>(
                out@,
            ),
        decreases pages.len() - i,
    {
        let page: u32 = pages[i];
        if page == 0 || page >= pages_used {
            let e: MsfError = MsfError::Page { page, pages_used };
            proof {
                lemma_content_err(
                    b@,
                    page_size,
                    pages_used,
                    pages@,
                    i + 1,
                    pages@.len() as int,
                    e,
                );
            }
            return Err(e);
        }
        proof {
            lemma_product_fits(page, page_size);
        }
        let start: u64 = page as u64 * page_size as u64;
        if page_size as u64 > len || start > len - page_size as u64 {
            proof {
                lemma_content_err(
                    b@,
                    page_size,
                    pages_used,
                    pages@,
                    i + 1,
                    pages@.len() as int,
                    MsfError::Truncated,
                );
            }
            return Err(MsfError::Truncated);
        }
        let mut k: usize = start as usize;
        let end: usize = (start + page_size as u64) as usize;
        let ghost before = out@;
        assert(before + b@.subrange(start as int, start as int) =~= before);
        while k < end
            invariant
                start <= k <= end <= b@.len(),
                out@ == before + b@.subrange(start as int, k as int),
            decreases end - k,
        {
            out.push(b[k]);
            assert(b@.subrange(start as int, k + 1) =~= b@.subrange(start as int, k as int).push(
                b@[k as int],
            ));
            assert(out@ =~= before + b@.subrange(start as int, k + 1));
            k = k + 1;
        }
        i = i + 1;
    }
    Ok(out)
}

proof fn lemma_product_fits(a: u32, b: u32)
    ensures
        0 <= a * b <= 0xffff_fffe_0000_0001,
{
    assert(0 <= a * b <= 0xffff_ffff * 0xffff_ffff) by (nonlinear_arith)
        requires
            0 <= a <= 0xffff_ffff,
            0 <= b <= 0xffff_ffff,
    ;
}

proof fn lemma_sizes_err(d: Seq<u8>, wide: bool, i: int, n: int, e: MsfError)
    requires
        0 < i <= n,
        sizes_in(d, wide, i) == Err::<Seq<Option<u32>>, MsfError>(e),
    ensures
        sizes_in(d, wide, n) == Err::<Seq<Option<u32>>, MsfError>(e),
    decreases n - i,
{
    if i < n {
        assert(sizes_in(d, wide, i + 1) == Err::<Seq<Option<u32>>, MsfError>(e));
        lemma_sizes_err(d, wide, i + 1, n, e);
    }
}

fn read_sizes(d: &[u8], wide: bool, n: u32) -> (r: Result<Vec<Option<u32>>, MsfError>)
    ensures
        match r {
            Ok(v) => sizes_in(d@, wide, n as int) == Ok::<Seq<Option<u32>>, MsfError>(v@)
                && v@.len() == n,
            Err(e) => sizes_in(d@, wide, n as int) == Err::<Seq<Option<u32>>, MsfError>(e),
        },
{
    let mut v: Vec<Option<u32>> = Vec::new();
    let mut i: u32 = 0;
    while i < n
        invariant
            i <= n,
            v@.len() == i,
            sizes_in(d@, wide, i as int) == Ok::<Seq<Option<u32>>, MsfError>(v@),
        decreases n - i,
    {
        let at: u64 = if wide {
            4 + 4 * (i as u64)
        } else {
            4 + 8 * (i as u64)
        };
        match le_u32(d, at) {
            Ok(size) => {
                v.push(
                    if size != u32::MAX {
                        Some(size)
                    } else {
                        None
                    },
                );
            },
            Err(e) => {
                proof {
                    lemma_sizes_err(d@, wide, i + 1, n as int, e);
                }
                return Err(e);
            },
        }
        i = i + 1;
    }
    Ok(v)
}

proof fn lemma_streams_err(
    d: Seq<u8>,
    start: int,
    sizes: Seq<Option<u32>>,
    page_size: u32,
    pages_used: u32,
    wide: bool,
    i: int,
    n: int,
    e: MsfError,
)
    requires
        0 < i <= n,
        streams_in(d, start, sizes, page_size, pages_used, wide, i) == Err::<
            Seq<StreamModel>,
            MsfError,
        >(e),
    ensures
        streams_in(d, start, sizes, page_size, pages_used, wide, n) == Err::<
            Seq<StreamModel>,
            MsfError,
        >(e),
    decreases n - i,
{
    if i < n {
        assert(streams_in(d, start, sizes, page_size, pages_used, wide, i + 1) == Err::<
            Seq<StreamModel>,
            MsfError,
        >(e));
        lemma_streams_err(d, start, sizes, page_size, pages_used, wide, i + 1, n, e);
    }
}

fn read_streams(
    d: &[u8],
    start: u64,
    sizes: &Vec<Option<u32>>,
    page_size: u32,
    pages_used: u32,
    wide: bool,
) -> (r: Result<Vec<MsfStreamLayout>, MsfError>)
    requires
        start <= 0x10_0000_0000,
        sizes@.len() <= u32::MAX,
        page_size > 0,
    ensures
        ({
            let m = streams_in(
                d@,
                start as int,
                sizes@,
                page_size,
                pages_used,
                wide,
                sizes@.len() as int,
            );
            match r {
                Ok(v) => m == Ok::<Seq<StreamModel>, MsfError>(stream_models(v@)),
                Err(e) => m == Err::<Seq<StreamModel>, MsfError>(e),
            }
        }),
{
    let mut out: Vec<MsfStreamLayout> = Vec::new();
    let mut cursor: u64 = start;
    let mut i: usize = 0;
    let len: usize = d.len();
    assert(stream_models(out@) =~= Seq::empty());
    while i < sizes.len()
        invariant
            i <= sizes@.len() <= u32::MAX,
            len == d@.len(),
            page_size > 0,
            start <= 0x10_0000_0000,
            cursor == pages_offset(start as int, sizes@, page_size, wide, i as int),
            cursor <= 0x10_0000_0000 || cursor <= d@.len(),
            streams_in(d@, start as int, sizes@, page_size, pages_used, wide, i as int) == Ok::<
                Seq<StreamModel>,
                MsfError,
            >(stream_models(out@)),
        decreases sizes.len() - i,
    {
        let size: Option<u32> = sizes[i];
        let count: u32 = match size {
            Some(s) => pages_for(s, page_size),
            None => 0,
        };
        match read_numbers(d, cursor, wide, count, pages_used) {
            Ok(pages) => {
                let ghost before = out@;
                let row: MsfStreamLayout = MsfStreamLayout { index: i as u32, size, pages };
                let ghost model = row@;
                out.push(row);
                assert(stream_models(out@) =~= stream_models(before).push(model));
            },
            Err(e) => {
                proof {
                    lemma_streams_err(
                        d@,
                        start as int,
                        sizes@,
                        page_size,
                        pages_used,
                        wide,
                        i + 1,
                        sizes@.len() as int,
                        e,
                    );
                }
                return Err(e);
            },
        }
        cursor = if wide {
            cursor + 4 * (count as u64)
        } else {
            cursor + 2 * (count as u64)
        };
        i = i + 1;
    }
    Ok(out)
}

fn read_directory(d: &[u8], page_size: u32, pages_used: u32, wide: bool) -> (r: Result<
    Vec<MsfStreamLayout>,
    MsfError,
>)
    requires
        page_size > 0,
    ensures
        match r {
            Ok(v) => directory_streams(d@, page_size, pages_used, wide) == Ok::<
                Seq<StreamModel>,
                MsfError,
            >(stream_models(v@)),
            Err(e) => directory_streams(d@, page_size, pages_used, wide) == Err::<
                Seq<StreamModel>,
                MsfError,
            >(e),
        },
{
    let count: u32 = match page_number(d, 0, wide) {
        Ok(c) => c,
        Err(e) => {
            return Err(e);
        },
    };
    let sizes: Vec<Option<u32>> = match read_sizes(d, wide, count) {
        Ok(s) => s,
        Err(e) => {
            return Err(e);
        },
    };
    let start: u64 = if wide {
        4 + 4 * (count as u64)
    } else {
        4 + 8 * (count as u64)
    };
    read_streams(d, start, &sizes, page_size, pages_used, wide)
}

fn read_layout(
    b: &[u8],
    wide: bool,
    page_size: u32,
    free_page_map: u32,
    pages_used: u32,
    directory_size: u32,
    map_pages: Vec<u32>,
    dir_pages: Vec<u32>,
) -> (r: Result<MsfLayout, MsfError>)
    requires
        page_size > 0,
    ensures
        ({
            let m = directory_layout(
                b@,
                wide,
                page_size,
                free_page_map,
                pages_used,
                directory_size,
                map_pages@,
                dir_pages@,
            );
            match r {
                Ok(l) => m == Ok::<LayoutModel, MsfError>(l@),
                Err(e) => m == Err::<LayoutModel, MsfError>(e),
            }
        }),
{
    let mut directory: Vec<u8> = match read_pages(b, page_size, pages_used, &dir_pages) {
        Ok(d) => d,
        Err(e) => {
            return Err(e);
        },
    };
    let ghost whole = directory@;
    if (directory_size as u64) < directory.len() as u64 {
        directory.truncate(directory_size as usize);
    }
    assert(directory@ =~= cut(whole, directory_size as int));
    match read_directory(directory.as_slice(), page_size, pages_used, wide) {
        Ok(streams) => Ok(
            MsfLayout {
                format: if wide {
                    "MSF 7.00"
                } else {
                    "MSF 2.00"
                },
                page_size,
                free_page_map,
                pages_used,
                directory_size,
                directory_map_pages: map_pages,
                directory_pages: dir_pages,
                streams,
            },
        ),
        Err(e) => Err(e),
    }
}

fn leading(b: &[u8], n: u32) -> (r: Vec<u8>)
    requires
        n <= b@.len(),
    ensures
        r@ == b@.take(n as int),
{
    let mut r: Vec<u8> = Vec::new();
    let mut i: usize = 0;
    let len: usize = b.len();
    while (i as u64) < n as u64
        invariant
            i <= n <= b@.len(),
            len == b@.len(),
            r@ == b@.take(i as int),
        decreases n - i,
    {
        r.push(b[i]);
        assert(b@.take(i + 1) =~= b@.take(i as int).push(b@[i as int]));
        i = i + 1;
    }
    r
}

fn header_number(header: &Vec<u8>, offset: u64) -> (r: u32)
    requires
        offset + 4 <= header@.len(),
    ensures
        u32_at(header@, offset as int) == Ok::<u32, MsfError>(r),
{
    match le_u32(header.as_slice(), offset) {
        Ok(n) => n,
        Err(_) => 0,
    }
}

fn header_short(header: &Vec<u8>, offset: u64) -> (r: u32)
    requires
        offset + 2 <= header@.len(),
    ensures
        u16_at(header@, offset as int) == Ok::<u32, MsfError>(r),
{
    match le_u16(header.as_slice(), offset) {
        Ok(n) => n,
        Err(_) => 0,
    }
}

impl MsfLayout {
    /// Reads the layout of the container in `bytes`, the whole of a file.
    pub fn parse(bytes: &[u8]) -> (r: Result<MsfLayout, MsfError>)
        ensures
            match r {
                Ok(l) => layout_of(bytes@) == Ok::<LayoutModel, MsfError>(l@),
                Err(e) => layout_of(bytes@) == Err::<LayoutModel, MsfError>(e),
            },
    {
        if bytes.len() < 64 {
            return Err(MsfError::Truncated);
        }
        let big: bool = is_big(bytes);
        if !big && !is_small(bytes) {
            return Err(MsfError::UnrecognizedHeader);
        }
        let at: u64 = if big {
            32
        } else {
            44
        };
        let page_size: u32 = match le_u32(bytes, at) {
            Ok(n) => n,
            Err(e) => {
                return Err(e);
            },
        };
        if !is_valid_page_size(page_size) {
            return Err(MsfError::PageSize { page_size });
        }
        if (bytes.len() as u64) < page_size as u64 {
            return Err(MsfError::Truncated);
        }
        if big {
            MsfLayout::parse_big(bytes, page_size)
        } else {
            MsfLayout::parse_small(bytes, page_size)
        }
    }

    fn parse_big(bytes: &[u8], page_size: u32) -> (r: Result<MsfLayout, MsfError>)
        requires
            0x100 <= page_size <= bytes@.len(),
        ensures
            match r {
                Ok(l) => big_layout(bytes@, page_size) == Ok::<LayoutModel, MsfError>(l@),
                Err(e) => big_layout(bytes@, page_size) == Err::<LayoutModel, MsfError>(e),
            },
    {
        let header: Vec<u8> = leading(bytes, page_size);
        let free_page_map: u32 = header_number(&header, 36);
        let pages_used: u32 = header_number(&header, 40);
        let directory_size: u32 = header_number(&header, 44);
        proof {
            lemma_product_fits(page_size, pages_used);
        }
        let required: u64 = page_size as u64 * pages_used as u64;
        let actual: u64 = bytes.len() as u64;
        if actual < required {
            return Err(MsfError::FileSize { required, actual });
        }
        let dir_count: u32 = pages_for(directory_size, page_size);
        let entries: u32 = if dir_count > 0x3fff_ffff {
            u32::MAX
        } else {
            dir_count * 4
        };
        let map_pages: Vec<u32> = match read_numbers(
            header.as_slice(),
            52,
            true,
            pages_for(entries, page_size),
            pages_used,
        ) {
            Ok(v) => v,
            Err(e) => {
                return Err(e);
            },
        };
        let map: Vec<u8> = match read_pages(bytes, page_size, pages_used, &map_pages) {
            Ok(v) => v,
            Err(e) => {
                return Err(e);
            },
        };
        let dir_pages: Vec<u32> = match read_numbers(
            map.as_slice(),
            0,
            true,
            dir_count,
            pages_used,
        ) {
            Ok(v) => v,
            Err(e) => {
                return Err(e);
            },
        };
        read_layout(
            bytes,
            true,
            page_size,
            free_page_map,
            pages_used,
            directory_size,
            map_pages,
            dir_pages,
        )
    }

    fn parse_small(bytes: &[u8], page_size: u32) -> (r: Result<MsfLayout, MsfError>)
        requires
            0x100 <= page_size <= bytes@.len(),
        ensures
            match r {
                Ok(l) => small_layout(bytes@, page_size) == Ok::<LayoutModel, MsfError>(l@),
                Err(e) => small_layout(bytes@, page_size) == Err::<LayoutModel, MsfError>(e),
            },
    {
        let header: Vec<u8> = leading(bytes, page_size);
        let free_page_map: u32 = header_short(&header, 48);
        let pages_used: u32 = header_short(&header, 50);
        let directory_size: u32 = header_number(&header, 52);
        proof {
            lemma_product_fits(page_size, pages_used);
        }
        let required: u64 = page_size as u64 * pages_used as u64;
        let actual: u64 = bytes.len() as u64;
        if actual < required {
            return Err(MsfError::FileSize { required, actual });
        }
        let dir_pages: Vec<u32> = match read_numbers(
            header.as_slice(),
            60,
            false,
            pages_for(directory_size, page_size),
            pages_used,
        ) {
            Ok(v) => v,
            Err(e) => {
                return Err(e);
            },
        };
        let none: Vec<u32> = Vec::new();
        assert(none@ =~= Seq::empty());
        read_layout(
            bytes,
            false,
            page_size,
            free_page_map,
            pages_used,
            directory_size,
            none,
            dir_pages,
        )
    }

    /// The stream at place `index` of the directory.
    pub fn stream(&self, index: u32) -> (r: Option<&MsfStreamLayout>)
        ensures
            match r {
                Some(s) => index < self.streams@.len() && *s == self.streams@[index as int],
                None => index >= self.streams@.len(),
            },
    {
        if (index as u64) < self.streams.len() as u64 {
            Some(&self.streams[index as usize])
        } else {
            None
        }
    }

    /// What the bytes of the file hold for stream `index`: nothing where there is
    /// no such stream.
    pub open spec fn content(self, b: Seq<u8>, index: u32) -> Result<Option<Seq<u8>>, MsfError> {
        if index >= self.streams@.len() {
            Ok(None)
        } else {
            let s = self.streams@[index as int];
            match s.size {
                None => Ok(None),
                Some(size) => match pages_content(
                    b,
                    self.page_size,
                    self.pages_used,
                    s.pages@,
                    s.pages@.len() as int,
                ) {
                    Err(e) => Err(e),
                    Ok(bytes) => Ok(Some(cut(bytes, size as int))),
                },
            }
        }
    }

    /// Reads stream `index` from the bytes of the file.
    pub fn read_stream(&self, bytes: &[u8], index: u32) -> (r: Result<Option<Vec<u8>>, MsfError>)
        ensures
            match r {
                Ok(Some(v)) => self.content(bytes@, index) == Ok::<Option<Seq<u8>>, MsfError>(
                    Some(v@),
                ),
                Ok(None) => self.content(bytes@, index) == Ok::<Option<Seq<u8>>, MsfError>(None),
                Err(e) => self.content(bytes@, index) == Err::<Option<Seq<u8>>, MsfError>(e),
            },
    {
        let s: &MsfStreamLayout = match self.stream(index) {
            Some(s) => s,
            None => {
                return Ok(None);
            },
        };
        let size: u32 = match s.size {
            Some(n) => n,
            None => {
                return Ok(None);
            },
        };
        match read_pages(bytes, self.page_size, self.pages_used, &s.pages) {
            Ok(v) => {
                let mut content: Vec<u8> = v;
                let ghost whole = content@;
                if (size as u64) < content.len() as u64 {
                    content.truncate(size as usize);
                }
                assert(content@ =~= cut(whole, size as int));
                Ok(Some(content))
            },
            Err(e) => Err(e),
        }
    }
}

/// How many of the first `n` pages do not follow the page before them.
pub open spec fn breaks(pages: Seq<u32>, n: int) -> nat
    decreases n,
{
    if n <= 1 {
        0
    } else {
        breaks(pages, n - 1) + if follows(pages[n - 2], pages[n - 1]) {
            0nat
        } else {
            1nat
        }
    }
}

/// Whether `b` is the page behind `a`, as far as pages go.
pub open spec fn follows(a: u32, b: u32) -> bool {
    if a == u32::MAX {
        b == u32::MAX
    } else {
        b == a + 1
    }
}

impl MsfStreamLayout {
    /// In how many runs of neighbouring pages the stream lies.
    #[must_use]
    pub fn page_runs(&self) -> (r: usize)
        ensures
            r == if self.pages@.len() == 0 {
                0
            } else {
                1 + breaks(self.pages@, self.pages@.len() as int)
            },
    {
        let n: usize = self.pages.len();
        if n == 0 {
            return 0;
        }
        let mut runs: usize = 1;
        let mut i: usize = 1;
        while i < n
            invariant
                n == self.pages@.len(),
                1 <= i <= n,
                runs <= i,
                runs == 1 + breaks(self.pages@, i as int),
            decreases n - i,
        {
            if self.pages[i] != self.pages[i - 1].saturating_add(1) {
                runs = runs + 1;
            }
            i = i + 1;
        }
        runs
    }
}

// ---------------------------------------------------------------------------
// What holds of every layout that was read
// ---------------------------------------------------------------------------

/// Every page that a list names is one that the file has.
pub open spec fn pages_valid(pages: Seq<u32>, pages_used: u32) -> bool {
    forall|i: int| 0 <= i < pages.len() ==> valid_page(#[trigger] pages[i], pages_used)
}

/// What holds of a layout: each stream stands at its place, has as many pages as
/// its size asks for, and no page lies outside the file.
pub open spec fn sound(l: LayoutModel) -> bool {
    &&& valid_page_size(l.page_size)
    &&& pages_valid(l.directory_map_pages, l.pages_used)
    &&& pages_valid(l.directory_pages, l.pages_used)
    &&& l.directory_pages.len() == page_count(l.directory_size as int, l.page_size)
    &&& streams_sound(l.streams, l.page_size, l.pages_used)
}

/// What holds of the streams of a layout.
pub open spec fn streams_sound(s: Seq<StreamModel>, page_size: u32, pages_used: u32) -> bool {
    forall|i: int|
        0 <= i < s.len() ==> (#[trigger] s[i]).index == i && pages_valid(s[i].pages, pages_used)
            && s[i].pages.len() == stream_page_count(s[i].size, page_size)
}

proof fn lemma_numbers(b: Seq<u8>, offset: int, wide: bool, n: int, pages_used: u32)
    requires
        n >= 0,
    ensures
        numbers(b, offset, wide, n, pages_used) matches Ok(s) ==> s.len() == n && pages_valid(
            s,
            pages_used,
        ),
    decreases n,
{
    if n > 0 {
        lemma_numbers(b, offset, wide, n - 1, pages_used);
    }
}

proof fn lemma_sizes_len(d: Seq<u8>, wide: bool, n: int)
    requires
        n >= 0,
    ensures
        sizes_in(d, wide, n) matches Ok(s) ==> s.len() == n,
    decreases n,
{
    if n > 0 {
        lemma_sizes_len(d, wide, n - 1);
    }
}

proof fn lemma_streams_sound(
    d: Seq<u8>,
    start: int,
    sizes: Seq<Option<u32>>,
    page_size: u32,
    pages_used: u32,
    wide: bool,
    n: int,
)
    requires
        0 <= n <= sizes.len(),
        n <= u32::MAX,
        page_size > 0,
    ensures
        streams_in(d, start, sizes, page_size, pages_used, wide, n) matches Ok(s) ==> s.len() == n
            && streams_sound(s, page_size, pages_used),
    decreases n,
{
    if n > 0 {
        lemma_streams_sound(d, start, sizes, page_size, pages_used, wide, n - 1);
        let c = stream_page_count(sizes[n - 1], page_size);
        if let Some(size) = sizes[n - 1] {
            lemma_page_count(size as int, page_size);
        }
        lemma_numbers(
            d,
            pages_offset(start, sizes, page_size, wide, n - 1),
            wide,
            c,
            pages_used,
        );
    }
}

/// A layout that was read is sound, and the file holds every page that it names.
pub proof fn lemma_layout_is_sound(b: Seq<u8>)
    ensures
        layout_of(b) matches Ok(l) ==> sound(l) && b.len() >= l.page_size * l.pages_used,
{
    if let Ok(l) = layout_of(b) {
        let big = begins_with(b, big_magic());
        let page_size = l.page_size;
        let header = b.take(page_size as int);
        let directory_size = l.directory_size;
        let pages_used = l.pages_used;
        let dir_count = page_count(directory_size as int, page_size);
        lemma_page_count(directory_size as int, page_size);
        if big {
            let entries = if dir_count * 4 > u32::MAX {
                u32::MAX as int
            } else {
                dir_count * 4
            };
            lemma_page_count(entries, page_size);
            lemma_numbers(header, 52, true, page_count(entries, page_size), pages_used);
            let map = pages_content(
                b,
                page_size,
                pages_used,
                l.directory_map_pages,
                l.directory_map_pages.len() as int,
            )->Ok_0;
            lemma_numbers(map, 0, true, dir_count, pages_used);
        } else {
            lemma_numbers(header, 60, false, dir_count, pages_used);
        }
        let d = cut(
            pages_content(
                b,
                page_size,
                pages_used,
                l.directory_pages,
                l.directory_pages.len() as int,
            )->Ok_0,
            directory_size as int,
        );
        let count = number_at(d, 0, big)->Ok_0;
        lemma_sizes_len(d, big, count as int);
        let sizes = sizes_in(d, big, count as int)->Ok_0;
        let start = if big {
            4 + 4 * count
        } else {
            4 + 8 * count
        };
        lemma_streams_sound(d, start as int, sizes, page_size, pages_used, big, count as int);
    }
}

proof fn lemma_pages_content(
    b: Seq<u8>,
    page_size: u32,
    pages_used: u32,
    pages: Seq<u32>,
    n: int,
)
    requires
        0 <= n <= pages.len(),
        page_size > 0,
        pages_valid(pages, pages_used),
        b.len() >= page_size * pages_used,
    ensures
        pages_content(b, page_size, pages_used, pages, n) matches Ok(s) && s.len() == n * page_size
            && forall|i: int|
            0 <= i < s.len() ==> #[trigger] s[i] == b[pages[i
                / (page_size as int)] * page_size + i % (page_size as int)],
    decreases n,
{
    let p = page_size as int;
    if n > 0 {
        lemma_pages_content(b, page_size, pages_used, pages, n - 1);
        let before = pages_content(b, page_size, pages_used, pages, n - 1)->Ok_0;
        let page = pages[n - 1];
        assert(valid_page(page, pages_used));
        assert(page * p + p <= p * pages_used) by (nonlinear_arith)
            requires
                page + 1 <= pages_used,
                p > 0,
        ;
        assert(page * p >= 0) by (nonlinear_arith)
            requires
                page >= 0,
                p > 0,
        ;
        assert((n - 1) * p + p == n * p) by (nonlinear_arith);
        let s = before + page_bytes(b, page_size, page);
        assert(s.len() == n * p);
        assert(pages_content(b, page_size, pages_used, pages, n) == Ok::<Seq<u8>, MsfError>(s));
        assert forall|i: int| 0 <= i < s.len() implies #[trigger] s[i] == b[pages[i / (page_size as int)] * page_size + i % (
        page_size as int)] by {
            if i >= before.len() {
                let r = i - (n - 1) * p;
                assert(i / p == n - 1 && i % p == r) by {
                    vstd::arithmetic::div_mod::lemma_fundamental_div_mod_converse(i, p, n - 1, r);
                }
            } else {
                assert(s[i] == before[i]);
            }
        }
    } else {
        assert(n * page_size == 0) by (nonlinear_arith)
            requires
                n == 0,
        ;
    }
}

/// Every stream of a layout can be read from the file that the layout was read
/// from. Its content has the stream's size, and each byte of it is the byte at its
/// place in the page that holds it.
pub proof fn lemma_streams_can_be_read(b: Seq<u8>, l: MsfLayout, index: u32)
    requires
        layout_of(b) == Ok::<LayoutModel, MsfError>(l@),
        index < l.streams@.len(),
        l.streams@[index as int].size is Some,
    ensures
        l.content(b, index) matches Ok(Some(s)) && s.len() == l.streams@[index as int].size->0
            && forall|i: int|
            0 <= i < s.len() ==> #[trigger] s[i] == b[l.streams@[index as int].pages@[i
                / (l.page_size as int)] * l.page_size + i % (l.page_size as int)],
{
    lemma_layout_is_sound(b);
    let m = l@;
    assert(m.streams[index as int] == l.streams@[index as int]@);
    let s = l.streams@[index as int];
    assert(m.streams[index as int].index == index);
    lemma_page_count(s.size->0 as int, l.page_size);
    lemma_pages_content(b, l.page_size, l.pages_used, s.pages@, s.pages@.len() as int);
    let whole = pages_content(
        b,
        l.page_size,
        l.pages_used,
        s.pages@,
        s.pages@.len() as int,
    )->Ok_0;
    let c = cut(whole, s.size->0 as int);
    assert(whole.len() >= s.size->0);
    assert(c.len() == s.size->0);
    assert forall|i: int| 0 <= i < c.len() implies #[trigger] c[i] == b[s.pages@[i
        / (l.page_size as int)] * l.page_size + i % (l.page_size as int)] by {
        assert(c[i] == whole[i]);
    }
}

} // verus!
