use vstd::prelude::*;

use crate::buffer_utils::{get_index_by_coord, index_of, Grid};
use crate::color::Color;

verus! {

/// A `width` by `height` grid of packed colors, stored row by row.
pub struct ColorBuffer {
    buffer: Vec<u32>,
    pub width: usize,
    pub height: usize,
}

/// The four bytes of `value`, least significant first.
pub open spec fn le_bytes(value: u32) -> Seq<u8> {
    seq![
        (value % 0x100) as u8,
        ((value / 0x100) % 0x100) as u8,
        ((value / 0x1_0000) % 0x100) as u8,
        (value / 0x100_0000) as u8,
    ]
}

/// The four bytes of `value`, most significant first.
pub open spec fn be_bytes(value: u32) -> Seq<u8> {
    le_bytes(value).reverse()
}

/// The bytes of all `values`, each value encoded by `encode`, one after the other.
pub open spec fn encode_all(values: Seq<u32>, encode: spec_fn(u32) -> Seq<u8>) -> Seq<u8>
    decreases values.len(),
{
    if values.len() == 0 {
        Seq::empty()
    } else {
        encode_all(values.drop_last(), encode) + encode(values.last())
    }
}

/// Calls `u32::to_ne_bytes`, which std documents as the memory representation
/// of the integer in the target platform's native byte order. The contract
/// claims that this is either the little-endian or the big-endian encoding;
/// which of the two it is depends on the machine and is not stated.
#[verifier::external_body]
fn native_bytes(value: u32) -> (bytes: [u8; 4])
    ensures
        bytes@ == le_bytes(value) || bytes@ == be_bytes(value),
{
    value.to_ne_bytes()
}

impl View for ColorBuffer {
    type V = Grid<u32>;

    /// The buffer's dimensions and its colors, row by row.
    closed spec fn view(&self) -> Grid<u32> {
        Grid { width: self.width as nat, height: self.height as nat, cells: self.buffer@ }
    }
}

impl ColorBuffer {

    /// A buffer of `width * height` pixels, all of them `0`.
    pub fn new(width: usize, height: usize) -> (result: Self)
        requires
            width * height <= usize::MAX,
        ensures
            result@.width == width,
            result@.height == height,
            result@.cells == Seq::new((width * height) as nat, |i: int| 0u32),
    {
        let count: usize = width * height;
        let mut buffer: Vec<u32> = Vec::new();
        while buffer.len() < count
            invariant
                buffer.len() <= count,
                forall|i: int| 0 <= i < buffer.len() ==> buffer@[i] == 0u32,
            decreases count - buffer.len(),
        {
            buffer.push(0u32);
        }
        Self { buffer, width, height }
    }

    /// A mutable reference to the pixel at column `x`, row `y`, when the
    /// buffer holds one at that row-major index; `None` otherwise.
    pub fn get_mut(&mut self, x: usize, y: usize) -> (result: Option<&mut u32>)
        requires
            index_of(x as int, y as int, old(self)@.width as int) <= usize::MAX,
        ensures
            ({
                let index = index_of(x as int, y as int, old(self)@.width as int);
                if index < old(self)@.cells.len() {
                    &&& result is Some
                    &&& *result->0 == old(self)@.cells[index]
                    &&& final(self)@.cells == old(self)@.cells.update(index, *final(result->0))
                    &&& final(self)@.width == old(self)@.width
                    &&& final(self)@.height == old(self)@.height
                } else {
                    &&& result is None
                    &&& *final(self) == *old(self)
                }
            }),
    {
        let index = get_index_by_coord(x, y, self.width);
        if index < self.buffer.len() {
            Some(&mut self.buffer[index])
        } else {
            None
        }
    }

    /// Sets every pixel of the buffer to `color`.
    pub fn clear(&mut self, color: Color)
        ensures
            final(self)@.width == old(self)@.width,
            final(self)@.height == old(self)@.height,
            final(self)@.cells == Seq::new(old(self)@.cells.len(), |i: int| color),
    {
        let count = self.buffer.len();
        let mut i: usize = 0;
        while i < count
            invariant
                self.buffer.len() == count,
                self.width == old(self).width,
                self.height == old(self).height,
                count == old(self)@.cells.len(),
                i <= count,
                forall|j: int| 0 <= j < i ==> self.buffer@[j] == color,
            decreases count - i,
        {
            self.buffer.set(i, color);
            i += 1;
        }
        assert(self.buffer@ =~= Seq::new(old(self)@.cells.len(), |j: int| color));
    }

    /// The bytes of all pixels, pixel after pixel, each in the machine's
    /// byte order: either every pixel little-endian or every pixel big-endian.
    pub fn get_raw_data(&mut self) -> (bytes: Vec<u8>)
        ensures
            *final(self) == *old(self),
            bytes@ == encode_all(old(self)@.cells, |v: u32| le_bytes(v))
                || bytes@ == encode_all(old(self)@.cells, |v: u32| be_bytes(v)),
    {
        let probe = native_bytes(1u32);
        let little = probe[0] == 1u8;
        proof {
            reveal_with_fuel(encode_all, 1);
        }
        let ghost encode = if little { |v: u32| le_bytes(v) } else { |v: u32| be_bytes(v) };
        let mut bytes: Vec<u8> = Vec::new();
        let mut i: usize = 0;
        while i < self.buffer.len()
            invariant
                i <= self.buffer.len(),
                encode == (if little { |v: u32| le_bytes(v) } else { |v: u32| be_bytes(v) }),
                bytes@ == encode_all(self.buffer@.subrange(0, i as int), encode),
            decreases self.buffer.len() - i,
        {
            let value = self.buffer[i];
            let chunk = byte_chunk(value, little);
            assert(self.buffer@.subrange(0, i + 1).drop_last() =~= self.buffer@.subrange(0, i as int));
            bytes.push(chunk[0]);
            bytes.push(chunk[1]);
            bytes.push(chunk[2]);
            bytes.push(chunk[3]);
            assert(bytes@ =~= encode_all(self.buffer@.subrange(0, i as int), encode) + encode(value));
            i += 1;
        }
        assert(self.buffer@.subrange(0, self.buffer.len() as int) =~= self.buffer@);
        bytes
    }
}

/// The four bytes of `value`, least significant first when `little`, most
/// significant first otherwise.
fn byte_chunk(value: u32, little: bool) -> (chunk: [u8; 4])
    ensures
        chunk@ == (if little { le_bytes(value) } else { be_bytes(value) }),
{
    let b0 = (value % 0x100) as u8;
    let b1 = ((value / 0x100) % 0x100) as u8;
    let b2 = ((value / 0x1_0000) % 0x100) as u8;
    let b3 = (value / 0x100_0000) as u8;
    let chunk = if little { [b0, b1, b2, b3] } else { [b3, b2, b1, b0] };
    assert(chunk@ =~= (if little { le_bytes(value) } else { be_bytes(value) }));
    chunk
}

} // verus!
