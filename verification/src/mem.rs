use vstd::prelude::*;
use vstd::slice::slice_subrange;
use crate::cpu::Addr;
use core::ops::Range;

verus! {

/// Number of bytes of machine memory.
pub const MEM_SIZE: usize = 4096;

/// Number of bytes that the glyph table takes in memory.
pub const FONT_BYTES: usize = 80;

/// The built-in glyphs of the hexadecimal digits, five rows each; the high
/// four bits of a row are its four pixels.
pub const FONT: [[u8; 5]; 16] = [
    [0xF0, 0x90, 0x90, 0x90, 0xF0],
    [0x20, 0x60, 0x20, 0x20, 0x70],
    [0xF0, 0x10, 0xF0, 0x80, 0xF0],
    [0xF0, 0x10, 0xF0, 0x10, 0xF0],
    [0x90, 0x90, 0xF0, 0x10, 0x10],
    [0xF0, 0x80, 0xF0, 0x10, 0xF0],
    [0xF0, 0x80, 0xF0, 0x90, 0xF0],
    [0xF0, 0x10, 0x20, 0x40, 0x40],
    [0xF0, 0x90, 0xF0, 0x90, 0xF0],
    [0xF0, 0x90, 0xF0, 0x10, 0xF0],
    [0xF0, 0x90, 0xF0, 0x90, 0x90],
    [0xE0, 0x90, 0xE0, 0x90, 0xE0],
    [0xF0, 0x80, 0x80, 0x80, 0xF0],
    [0xE0, 0x90, 0x90, 0x90, 0xE0],
    [0xF0, 0x80, 0xF0, 0x80, 0xF0],
    [0xF0, 0x80, 0xF0, 0x80, 0x80],
];

/// The glyph table as it lies in memory: glyph after glyph, row after row.
pub open spec fn font_bytes() -> Seq<u8> {
    Seq::new(FONT_BYTES as nat, |k: int| FONT[k / 5][k % 5])
}

/// Memory as plain values: what the contracts of [`Mem`] speak of.
#[verifier::ext_equal]
pub struct MemView {
    /// The bytes, by address.
    pub cells: Seq<u8>,
    /// Where the glyph table was installed last.
    pub font_base: u16,
}

impl MemView {
    /// Memory has its full size and the glyph table lies inside it.
    pub open spec fn wf(self) -> bool {
        self.cells.len() == MEM_SIZE && self.font_base + FONT_BYTES <= MEM_SIZE
    }

    /// The memory with `bytes` written from `addr` on.
    pub open spec fn with_bytes(self, addr: int, bytes: Seq<u8>) -> MemView {
        MemView {
            cells: Seq::new(
                self.cells.len(),
                |k: int|
                    if addr <= k < addr + bytes.len() {
                        bytes[k - addr]
                    } else {
                        self.cells[k]
                    },
            ),
            ..self
        }
    }

    /// The memory with the byte `v` written at `addr`.
    pub open spec fn with_byte(self, addr: int, v: u8) -> MemView {
        MemView { cells: self.cells.update(addr, v), ..self }
    }

    /// The memory with the glyph table installed at `start`.
    pub open spec fn with_font(self, start: u16) -> MemView {
        MemView { cells: self.with_bytes(start as int, font_bytes()).cells, font_base: start }
    }

    /// The address of the glyph of `digit`: five bytes per digit from the
    /// base of the table.
    pub open spec fn glyph_address(self, digit: u8) -> int {
        self.font_base + 5 * digit
    }
}

/// Flat byte-addressable memory that remembers where its glyph table lies.
pub struct Mem {
    cells: [u8; MEM_SIZE],
    start_addr: Addr,
}

impl View for Mem {
    type V = MemView;

    closed spec fn view(&self) -> MemView {
        MemView { cells: self.cells@, font_base: self.start_addr }
    }
}

impl Mem {
    #[verifier::type_invariant]
    spec fn table_fits(self) -> bool {
        self.start_addr + FONT_BYTES <= MEM_SIZE
    }

    const FONT_SIZE_BYTES: u16 = 5;

    /// Memory of every value has its full size.
    pub proof fn lemma_size(&self)
        ensures
            self@.cells.len() == MEM_SIZE,
    {
    }

    /// Zeroed memory, the glyph table's base at 0.
    pub fn new() -> (mem: Self)
        ensures
            mem@.cells == Seq::new(MEM_SIZE as nat, |k: int| 0u8),
            mem@.font_base == 0,
            mem@.wf(),
    {
        Mem { cells: [0; MEM_SIZE], start_addr: 0x0000 }
    }

    /// Writes one byte.
    pub fn store(&mut self, i: Addr, v: u8)
        requires
            i < MEM_SIZE,
        ensures
            final(self)@ == old(self)@.with_byte(i as int, v),
    {
        proof {
            use_type_invariant(&*self);
        }
        self.cells[i as usize] = v;
    }

    /// Reads one byte.
    pub fn load(&self, i: Addr) -> (v: u8)
        requires
            i < MEM_SIZE,
        ensures
            v == self@.cells[i as int],
    {
        self.cells[i as usize]
    }

    /// The bytes of a range of addresses, or `None` where the range runs
    /// backwards or past the end of memory.
    pub fn get(&self, index: Range<usize>) -> (r: Option<&[u8]>)
        ensures
            r is Some <==> index.start <= index.end <= MEM_SIZE,
            r matches Some(s) ==> s@ == self@.cells.subrange(
                index.start as int,
                index.end as int,
            ),
    {
        if index.start <= index.end && index.end <= MEM_SIZE {
            Some(slice_subrange(self.cells.as_slice(), index.start, index.end))
        } else {
            None
        }
    }

    /// Writes the bytes of `v` to consecutive addresses from `addr` on.
    #[verifier::rlimit(60)]
    pub fn store_arr(&mut self, addr: Addr, v: &[u8])
        requires
            addr + v@.len() <= MEM_SIZE,
        ensures
            final(self)@ == old(self)@.with_bytes(addr as int, v@),
    {
        let mut idx: usize = 0;
        while idx < v.len()
            invariant
                idx <= v@.len(),
                addr + v@.len() <= MEM_SIZE,
                self@ == old(self)@.with_bytes(addr as int, v@.take(idx as int)),
            decreases v@.len() - idx,
        {
            self.store(addr + idx as u16, v[idx]);
            idx += 1;
        }
        assert(v@.take(idx as int) == v@);
    }

    /// Installs the glyph table at `start` and remembers that base.
    #[verifier::rlimit(60)]
    pub fn store_font(&mut self, start: Addr)
        requires
            start + FONT_BYTES <= MEM_SIZE,
        ensures
            final(self)@ == old(self)@.with_font(start),
            final(self)@.wf(),
    {
        self.start_addr = start;
        let mut i: u16 = 0;
        while i < 16
            invariant
                i <= 16,
                start + FONT_BYTES <= MEM_SIZE,
                self.start_addr == start,
                self@.cells == old(self)@.with_bytes(start as int, font_bytes().take(5 * i)).cells,
            decreases 16 - i,
        {
            let a: Addr = start + i * Mem::FONT_SIZE_BYTES;
            self.store_arr(a, &FONT[i as usize]);
            i += 1;
        }
        assert(font_bytes().take(80) == font_bytes());
    }

    /// The address of the glyph of `digit`.
    pub fn addr_of_font(&self, digit: u8) -> (a: u16)
        ensures
            a == self@.glyph_address(digit),
            self@.wf(),
    {
        proof {
            use_type_invariant(self);
        }
        self.start_addr + Mem::FONT_SIZE_BYTES * digit as u16
    }
}

impl Default for Mem {
    fn default() -> (mem: Self)
        ensures
            mem@.cells == Seq::new(MEM_SIZE as nat, |k: int| 0u8),
            mem@.font_base == 0,
            mem@.wf(),
    {
        Self::new()
    }
}

} // verus!
