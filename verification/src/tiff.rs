//! The first directory of a TIFF file: what its entries say of the picture.

use vstd::prelude::*;

verus! {

// ── Numbers ───────────────────────────────────────────────────────────────────

/// The number in two bytes: the first counts most where `big`, the last otherwise.
pub open spec fn u16_at(b: Seq<u8>, at: int, big: bool) -> int {
    if big {
        b[at] * 0x100 + b[at + 1]
    } else {
        b[at] + b[at + 1] * 0x100
    }
}

/// The number in four bytes.
pub open spec fn u32_at(b: Seq<u8>, at: int, big: bool) -> int {
    if big {
        u16_at(b, at, big) * 0x1_0000 + u16_at(b, at + 2, big)
    } else {
        u16_at(b, at, big) + u16_at(b, at + 2, big) * 0x1_0000
    }
}

/// The number in eight bytes.
pub open spec fn u64_at(b: Seq<u8>, at: int, big: bool) -> int {
    if big {
        u32_at(b, at, big) * 0x1_0000_0000 + u32_at(b, at + 4, big)
    } else {
        u32_at(b, at, big) + u32_at(b, at + 4, big) * 0x1_0000_0000
    }
}

fn read_u16(b: &[u8], at: usize, big: bool) -> (r: u16)
    requires
        at + 2 <= b@.len() <= usize::MAX,
    ensures
        r == u16_at(b@, at as int, big),
{
    if big {
        b[at] as u16 * 0x100 + b[at + 1] as u16
    } else {
        b[at] as u16 + b[at + 1] as u16 * 0x100
    }
}

fn read_u32(b: &[u8], at: usize, big: bool) -> (r: u32)
    requires
        at + 4 <= b@.len() <= usize::MAX,
    ensures
        r == u32_at(b@, at as int, big),
{
    let first: u32 = read_u16(b, at, big) as u32;
    let second: u32 = read_u16(b, at + 2, big) as u32;
    if big {
        first * 0x1_0000 + second
    } else {
        first + second * 0x1_0000
    }
}

fn read_u64(b: &[u8], at: usize, big: bool) -> (r: u64)
    requires
        at + 8 <= b@.len() <= usize::MAX,
    ensures
        r == u64_at(b@, at as int, big),
{
    let first: u64 = read_u32(b, at, big) as u64;
    let second: u64 = read_u32(b, at + 4, big) as u64;
    if big {
        first * 0x1_0000_0000 + second
    } else {
        first + second * 0x1_0000_0000
    }
}

// ── The directory ─────────────────────────────────────────────────────────────

/// A directory, or what is left of it: whether the first byte of a number counts most,
/// whether positions and counts take eight bytes, where the entries start, and how many
/// there are.
pub type Directory = (bool, bool, int, int);

/// The first directory of a TIFF file. The file starts with `II` or `MM` for the order of
/// the bytes, and 42; or 43 where positions and counts take eight bytes.
pub open spec fn first_directory(b: Seq<u8>) -> Option<Directory> {
    let big = b[0] == 77;
    if b.len() < 8 || b[0] != b[1] || (b[0] != 73 && b[0] != 77) {
        None
    } else if u16_at(b, 2, big) == 42 {
        let at = u32_at(b, 4, big);
        if at + 2 <= b.len() {
            Some((big, false, at + 2, u16_at(b, at, big)))
        } else {
            None
        }
    } else if u16_at(b, 2, big) == 43 && u16_at(b, 4, big) == 8 && u16_at(b, 6, big) == 0
        && b.len() >= 16 {
        let at = u64_at(b, 8, big);
        if at + 8 <= b.len() {
            Some((big, true, at + 8, u64_at(b, at, big)))
        } else {
            None
        }
    } else {
        None
    }
}

/// What an optional directory is.
pub open spec fn directory_view(d: Option<(bool, bool, usize, u64)>) -> Option<Directory> {
    match d {
        Some(d) => Some((d.0, d.1, d.2 as int, d.3 as int)),
        None => None,
    }
}

fn find_directory(b: &[u8]) -> (r: Option<(bool, bool, usize, u64)>)
    requires
        b@.len() <= usize::MAX,
    ensures
        directory_view(r) == first_directory(b@),
        r matches Some(d) ==> d.2 <= b@.len(),
{
    let len: usize = b.len();
    if len < 8 || b[0] != b[1] || (b[0] != 73 && b[0] != 77) {
        return None;
    }
    let big = b[0] == 77;
    let magic: u16 = read_u16(b, 2, big);
    if magic == 42 {
        let at: u32 = read_u32(b, 4, big);
        if at as u64 + 2 > len as u64 {
            return None;
        }
        let count: u16 = read_u16(b, at as usize, big);
        return Some((big, false, at as usize + 2, count as u64));
    }
    if magic != 43 || read_u16(b, 4, big) != 8 || read_u16(b, 6, big) != 0 || len < 16 {
        return None;
    }
    let at: u64 = read_u64(b, 8, big);
    if at as u128 + 8 > len as u128 {
        return None;
    }
    let count: u64 = read_u64(b, at as usize, big);
    Some((big, true, at as usize + 8, count))
}

/// The kinds of values: bytes, text, numbers, fractions and positions.
pub open spec fn is_kind(kind: int) -> bool {
    1 <= kind <= 13 || 16 <= kind <= 18
}

/// The bytes that an entry takes: its tag, its kind, a count and a value. Of one whose kind
/// is none, twelve bytes are skipped in any file.
pub open spec fn entry_size(b: Seq<u8>, at: int, big: bool, wide: bool) -> int {
    if wide && is_kind(u16_at(b, at + 2, big)) {
        20
    } else {
        12
    }
}

/// The number that an entry holds, where it is one number without a sign. Eight bytes stand
/// elsewhere where positions take four.
pub open spec fn entry_number(b: Seq<u8>, at: int, big: bool, wide: bool) -> Option<int> {
    let kind = u16_at(b, at + 2, big);
    let (count, value) = if wide {
        (u64_at(b, at + 4, big), at + 12)
    } else {
        (u32_at(b, at + 4, big), at + 8)
    };
    if count != 1 {
        None
    } else if kind == 1 {
        Some(b[value] as int)
    } else if kind == 3 {
        Some(u16_at(b, value, big))
    } else if kind == 4 {
        Some(u32_at(b, value, big))
    } else if kind == 16 && wide {
        Some(u64_at(b, value, big))
    } else if kind == 16 && u32_at(b, value, big) + 8 <= b.len() {
        Some(u64_at(b, u32_at(b, value, big), big))
    } else {
        None
    }
}

/// Some entry of the directory with the tag holds a number from `low` to `high`. Entries
/// behind the end of the file do not count.
pub open spec fn has_entry(b: Seq<u8>, d: Directory, tag: int, low: int, high: int) -> bool
    decreases d.3,
{
    let (big, wide, at, count) = d;
    let size = entry_size(b, at, big, wide);
    if count <= 0 || at + size > b.len() {
        false
    } else {
        ||| u16_at(b, at, big) == tag && (entry_number(b, at, big, wide) matches Some(n) && low <= n
            <= high)
        ||| has_entry(b, (big, wide, at + size, count - 1), tag, low, high)
    }
}

/// Some entry of the first directory of a TIFF file with the tag holds a number from `low`
/// to `high`.
pub open spec fn says(b: Seq<u8>, tag: int, low: int, high: int) -> bool {
    match first_directory(b) {
        Some(d) => has_entry(b, d, tag, low, high),
        None => false,
    }
}

fn read_number(b: &[u8], at: usize, big: bool, wide: bool) -> (r: Option<u64>)
    requires
        b@.len() <= usize::MAX,
        at + 4 <= b@.len(),
        at + entry_size(b@, at as int, big, wide) <= b@.len(),
        is_kind(u16_at(b@, at + 2, big)),
    ensures
        entry_number(b@, at as int, big, wide) == match r {
            Some(n) => Some(n as int),
            None => None,
        },
{
    let kind: u16 = read_u16(b, at + 2, big);
    let count: u64 = if wide {
        read_u64(b, at + 4, big)
    } else {
        read_u32(b, at + 4, big) as u64
    };
    let value: usize = if wide {
        at + 12
    } else {
        at + 8
    };
    if count != 1 {
        None
    } else if kind == 1 {
        Some(b[value] as u64)
    } else if kind == 3 {
        Some(read_u16(b, value, big) as u64)
    } else if kind == 4 {
        Some(read_u32(b, value, big) as u64)
    } else if kind == 16 && wide {
        Some(read_u64(b, value, big))
    } else if kind == 16 {
        let place: u32 = read_u32(b, value, big);
        if place as u64 + 8 <= b.len() as u64 {
            Some(read_u64(b, place as usize, big))
        } else {
            None
        }
    } else {
        None
    }
}

fn finds(b: &[u8], tag: u16, low: u64, high: u64) -> (r: bool)
    ensures
        r == says(b@, tag as int, low as int, high as int),
{
    let len: usize = b.len();
    let (big, wide, start, count) = match find_directory(b) {
        Some(d) => d,
        None => return false,
    };
    let mut at: usize = start;
    let mut left: u64 = count;
    while left > 0
        invariant
            len == b@.len(),
            at <= len,
            has_entry(
                b@,
                (big, wide, at as int, left as int),
                tag as int,
                low as int,
                high as int,
            ) == says(b@, tag as int, low as int, high as int),
        decreases left,
    {
        if len - at < 12 {
            return false;
        }
        let kind: u16 = read_u16(b, at + 2, big);
        let known = (1 <= kind && kind <= 13) || (16 <= kind && kind <= 18);
        let size: usize = if wide && known {
            20
        } else {
            12
        };
        if len - at < size {
            return false;
        }
        if known && read_u16(b, at, big) == tag {
            if let Some(n) = read_number(b, at, big, wide) {
                if low <= n && n <= high {
                    return true;
                }
            }
        }
        at = at + size;
        left = left - 1;
    }
    false
}

// ── What the directory says ───────────────────────────────────────────────────

/// The channels stand apart: some entry of the first directory says so (tag 284 is 2), and
/// some says that there is more than one channel (tag 277).
pub open spec fn has_planes(b: Seq<u8>) -> bool {
    says(b, 284, 2, 2) && says(b, 277, 2, 0xffff)
}

/// Whether the channels of a TIFF file stand apart.
pub fn keeps_planes(b: &[u8]) -> (r: bool)
    ensures
        r == has_planes(b@),
{
    finds(b, 284, 2, 2) && finds(b, 277, 2, 0xffff)
}

/// The samples are packed as JPEG: some entry of the first directory says so (tag 259 is 7).
pub open spec fn is_jpeg_packed(b: Seq<u8>) -> bool {
    says(b, 259, 7, 7)
}

/// Whether the samples of a TIFF file are packed as JPEG.
pub fn packs_as_jpeg(b: &[u8]) -> (r: bool)
    ensures
        r == is_jpeg_packed(b@),
{
    finds(b, 259, 7, 7)
}

// ── Laws ──────────────────────────────────────────────────────────────────────

/// The order of the bytes says which of them count most: a number in one order is the number
/// of the reversed bytes in the other.
pub proof fn law_byte_order(b: Seq<u8>, at: int)
    requires
        0 <= at,
        at + 8 <= b.len(),
    ensures
        u16_at(b, at, true) == u16_at(b.subrange(at, at + 2).reverse(), 0, false),
        u32_at(b, at, true) == u32_at(b.subrange(at, at + 4).reverse(), 0, false),
        u64_at(b, at, true) == u64_at(b.subrange(at, at + 8).reverse(), 0, false),
        u16_at(b, at, false) == b[at] + 256 * b[at + 1],
        u32_at(b, at, false) == b[at] + 256 * b[at + 1] + 65536 * b[at + 2] + 16777216 * b[at + 3],
{
    let two = b.subrange(at, at + 2).reverse();
    let four = b.subrange(at, at + 4).reverse();
    let eight = b.subrange(at, at + 8).reverse();
    assert(two[0] == b[at + 1] && two[1] == b[at]);
    assert(four[0] == b[at + 3] && four[1] == b[at + 2] && four[2] == b[at + 1] && four[3]
        == b[at]);
    assert(eight[0] == b[at + 7] && eight[1] == b[at + 6] && eight[2] == b[at + 5] && eight[3]
        == b[at + 4]);
    assert(eight[4] == b[at + 3] && eight[5] == b[at + 2] && eight[6] == b[at + 1] && eight[7]
        == b[at]);
}

/// In a file with positions of four bytes, a directory says a thing exactly where one of its
/// entries of twelve bytes, that is within the file, has the tag and holds such a number.
pub proof fn law_has_entry(
    b: Seq<u8>,
    big: bool,
    at: int,
    count: int,
    tag: int,
    low: int,
    high: int,
)
    requires
        0 <= at,
        0 <= count,
    ensures
        has_entry(b, (big, false, at, count), tag, low, high) == exists|i: int|
            #[trigger] entry_says(b, big, at, i, tag, low, high) && 0 <= i < count,
    decreases count,
{
    if count > 0 && at + 12 <= b.len() {
        law_has_entry(b, big, at + 12, count - 1, tag, low, high);
        if entry_says(b, big, at, 0, tag, low, high) {
            assert(0 <= 0 < count);
        }
        if exists|i: int|
            #[trigger] entry_says(b, big, at + 12, i, tag, low, high) && 0 <= i < count - 1 {
            let i = choose|i: int|
                #[trigger] entry_says(b, big, at + 12, i, tag, low, high) && 0 <= i < count - 1;
            assert(at + 12 * (i + 1) == at + 12 + 12 * i);
            assert(entry_says(b, big, at, i + 1, tag, low, high));
        }
        if exists|i: int| #[trigger] entry_says(b, big, at, i, tag, low, high) && 0 <= i < count {
            let i = choose|i: int|
                #[trigger] entry_says(b, big, at, i, tag, low, high) && 0 <= i < count;
            if i > 0 {
                assert(entry_says(b, big, at + 12, i - 1, tag, low, high));
            }
        }
    }
}

/// The entry at a position of a directory has the tag and holds a number from `low` to `high`.
pub open spec fn entry_says(
    b: Seq<u8>,
    big: bool,
    at: int,
    i: int,
    tag: int,
    low: int,
    high: int,
) -> bool {
    &&& at + 12 * i + 12 <= b.len()
    &&& u16_at(b, at + 12 * i, big) == tag
    &&& entry_number(b, at + 12 * i, big, false) matches Some(n) && low <= n <= high
}

/// The channels stand apart only in a file that says so and has more than one channel.
pub proof fn law_planes(b: Seq<u8>)
    ensures
        says(b, 284, 2, 2) && says(b, 277, 2, 0xffff) <==> has_planes(b),
        first_directory(b) is None ==> !has_planes(b) && !is_jpeg_packed(b),
        says(b, 259, 7, 7) <==> is_jpeg_packed(b),
{
}

} // verus!
