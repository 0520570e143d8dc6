use vstd::prelude::*;
use crate::document::{ComponentType, IndexAccessor};
use crate::error::Error;

verus! {

/// The index list of a mesh, at the width the document declares.
#[derive(Debug, Clone, PartialEq, Eq)]
pub enum Indices {
    /// No index list: the positions form a flat list of triangles.
    Unindexed,
    U8(Vec<u8>),
    U16(Vec<u16>),
    U32(Vec<u32>),
}

/// The contents of each buffer.
pub open spec fn buffer_views(b: Seq<Vec<u8>>) -> Seq<Seq<u8>> {
    b.map_values(|v: Vec<u8>| v@)
}

/// Each byte as an integer.
pub open spec fn ints_of_u8(s: Seq<u8>) -> Seq<int> {
    s.map_values(|x: u8| x as int)
}

/// Each 16-bit value as an integer.
pub open spec fn ints_of_u16(s: Seq<u16>) -> Seq<int> {
    s.map_values(|x: u16| x as int)
}

/// Each 32-bit value as an integer.
pub open spec fn ints_of_u32(s: Seq<u32>) -> Seq<int> {
    s.map_values(|x: u32| x as int)
}

/// Bytes per value of a component type.
pub open spec fn width(c: ComponentType) -> nat {
    match c {
        ComponentType::U8 => 1,
        ComponentType::U16 => 2,
        ComponentType::U32 => 4,
    }
}

/// The little-endian unsigned integer of `w` bytes at `p` in `b`.
pub open spec fn le_value(b: Seq<u8>, p: int, w: nat) -> int {
    if w == 1 {
        b[p] as int
    } else if w == 2 {
        b[p] as int + 256 * b[p + 1]
    } else {
        b[p] as int + 256 * b[p + 1] + 65536 * b[p + 2] + 16777216 * b[p + 3]
    }
}

/// Whether the accessor's values lie inside the resolved buffers.
pub open spec fn readable(acc: IndexAccessor, buffers: Seq<Seq<u8>>) -> bool {
    acc.buffer < buffers.len() && acc.offset + acc.count * width(acc.component)
        <= buffers[acc.buffer as int].len()
}

/// The values an accessor denotes.
pub open spec fn accessor_values(acc: IndexAccessor, buffers: Seq<Seq<u8>>) -> Seq<int> {
    Seq::new(
        acc.count as nat,
        |i: int| le_value(buffers[acc.buffer as int], acc.offset + i * width(acc.component), width(acc.component)),
    )
}

impl Indices {
    /// The index values, whatever their width.
    pub open spec fn values(&self) -> Seq<int> {
        match self {
            Indices::Unindexed => Seq::empty(),
            Indices::U8(v) => ints_of_u8(v@),
            Indices::U16(v) => ints_of_u16(v@),
            Indices::U32(v) => ints_of_u32(v@),
        }
    }

    /// Whether the variant is the one for component type `c`.
    pub open spec fn has_width(&self, c: ComponentType) -> bool {
        match c {
            ComponentType::U8 => self is U8,
            ComponentType::U16 => self is U16,
            ComponentType::U32 => self is U32,
        }
    }
}

fn read_u8s(b: &Vec<u8>, offset: usize, count: usize) -> (r: Vec<u8>)
    requires
        offset + count <= b@.len(),
    ensures
        ints_of_u8(r@) == Seq::new(count as nat, |i: int| le_value(b@, offset + i, 1)),
{
    let mut r: Vec<u8> = Vec::new();
    let mut i: usize = 0;
    let blen: usize = b.len();
    while i < count
        invariant
            i <= count,
            offset + count <= b@.len(),
            r@.len() == i,
            b@.len() == blen,
            forall|j: int| 0 <= j < i ==> r@[j] as int == le_value(b@, offset + j, 1),
        decreases count - i,
    {
        r.push(b[offset + i]);
        i = i + 1;
    }
    assert(ints_of_u8(r@) =~= Seq::new(count as nat, |i: int| le_value(b@, offset + i, 1)));
    r
}

fn read_u16s(b: &Vec<u8>, offset: usize, count: usize) -> (r: Vec<u16>)
    requires
        offset + count * 2 <= b@.len(),
    ensures
        ints_of_u16(r@) == Seq::new(count as nat, |i: int| le_value(b@, offset + i * 2, 2)),
{
    let mut r: Vec<u16> = Vec::new();
    let mut i: usize = 0;
    let blen: usize = b.len();
    let mut p: usize = offset;
    while i < count
        invariant
            i <= count,
            p == offset + i * 2,
            offset + count * 2 <= b@.len(),
            r@.len() == i,
            b@.len() == blen,
            forall|j: int| 0 <= j < i ==> r@[j] as int == le_value(b@, offset + j * 2, 2),
        decreases count - i,
    {
        let v: u16 = b[p] as u16 + (b[p + 1] as u16) * 256;
        r.push(v);
        i = i + 1;
        p = p + 2;
    }
    assert(ints_of_u16(r@) =~= Seq::new(count as nat, |i: int| le_value(b@, offset + i * 2, 2)));
    r
}

fn read_u32s(b: &Vec<u8>, offset: usize, count: usize) -> (r: Vec<u32>)
    requires
        offset + count * 4 <= b@.len(),
    ensures
        ints_of_u32(r@) == Seq::new(count as nat, |i: int| le_value(b@, offset + i * 4, 4)),
{
    let mut r: Vec<u32> = Vec::new();
    let mut i: usize = 0;
    let blen: usize = b.len();
    let mut p: usize = offset;
    while i < count
        invariant
            i <= count,
            p == offset + i * 4,
            offset + count * 4 <= b@.len(),
            r@.len() == i,
            b@.len() == blen,
            forall|j: int| 0 <= j < i ==> r@[j] as int == le_value(b@, offset + j * 4, 4),
        decreases count - i,
    {
        let v: u32 = b[p] as u32 + (b[p + 1] as u32) * 256 + (b[p + 2] as u32) * 65536
            + (b[p + 3] as u32) * 16777216;
        r.push(v);
        i = i + 1;
        p = p + 4;
    }
    assert(ints_of_u32(r@) =~= Seq::new(count as nat, |i: int| le_value(b@, offset + i * 4, 4)));
    r
}

/// Decodes an index accessor at its declared width. An accessor that reaches
/// past its buffer makes the document malformed.
pub fn read_indices(acc: &IndexAccessor, buffers: &Vec<Vec<u8>>) -> (r: Result<Indices, Error>)
    ensures
        ({
            let bs = buffer_views(buffers@);
            if readable(*acc, bs) {
                r matches Ok(ix) && ix.has_width(acc.component) && ix.values() == accessor_values(*acc, bs)
            } else {
                r == Err::<Indices, Error>(Error::DocumentParseError)
            }
        }),
{
    let ghost bs = buffer_views(buffers@);
    if acc.buffer >= buffers.len() {
        return Err(Error::DocumentParseError);
    }
    let b = &buffers[acc.buffer];
    assert(bs[acc.buffer as int] == b@);
    if acc.offset > b.len() {
        return Err(Error::DocumentParseError);
    }
    let room = b.len() - acc.offset;
    match acc.component {
        ComponentType::U8 => {
            if acc.count > room {
                return Err(Error::DocumentParseError);
            }
            let v = read_u8s(b, acc.offset, acc.count);
            Ok(Indices::U8(v))
        },
        ComponentType::U16 => {
            if acc.count > room / 2 {
                return Err(Error::DocumentParseError);
            }
            let v = read_u16s(b, acc.offset, acc.count);
            Ok(Indices::U16(v))
        },
        ComponentType::U32 => {
            if acc.count > room / 4 {
                return Err(Error::DocumentParseError);
            }
            let v = read_u32s(b, acc.offset, acc.count);
            Ok(Indices::U32(v))
        },
    }
}

} // verus!
