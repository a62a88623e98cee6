use vstd::prelude::*;

verus! {

/// Number of addressable bytes of memory.
pub const MEM_SIZE: usize = 4096;

/// First address available to a loaded program; everything below it is
/// reserved, holding the built-in glyph sprites.
pub const PROGRAM_START: usize = 0x200;

/// Number of bytes the sixteen built-in five-byte glyph sprites occupy.
pub const GLYPH_TABLE_LEN: usize = 80;

/// Byte `k` of the built-in glyph table. Glyph `d` (a hexadecimal digit)
/// occupies bytes `5 * d .. 5 * d + 5`, so the sprite address of digit `d`
/// is `5 * d`, which is what the glyph-address instruction computes.
pub open spec fn glyph_byte(k: int) -> u8 {
    if k == 0 { 0xF0
    } else if k == 1 { 0x90
    } else if k == 2 { 0x90
    } else if k == 3 { 0x90
    } else if k == 4 { 0xF0
    } else if k == 5 { 0x20
    } else if k == 6 { 0x60
    } else if k == 7 { 0x20
    } else if k == 8 { 0x20
    } else if k == 9 { 0x70
    } else if k == 10 { 0xF0
    } else if k == 11 { 0x10
    } else if k == 12 { 0xF0
    } else if k == 13 { 0x80
    } else if k == 14 { 0xF0
    } else if k == 15 { 0xF0
    } else if k == 16 { 0x10
    } else if k == 17 { 0xF0
    } else if k == 18 { 0x10
    } else if k == 19 { 0xF0
    } else if k == 20 { 0x90
    } else if k == 21 { 0x90
    } else if k == 22 { 0xF0
    } else if k == 23 { 0x10
    } else if k == 24 { 0x10
    } else if k == 25 { 0xF0
    } else if k == 26 { 0x80
    } else if k == 27 { 0xF0
    } else if k == 28 { 0x10
    } else if k == 29 { 0xF0
    } else if k == 30 { 0xF0
    } else if k == 31 { 0x80
    } else if k == 32 { 0xF0
    } else if k == 33 { 0x90
    } else if k == 34 { 0xF0
    } else if k == 35 { 0xF0
    } else if k == 36 { 0x10
    } else if k == 37 { 0x20
    } else if k == 38 { 0x40
    } else if k == 39 { 0x40
    } else if k == 40 { 0xF0
    } else if k == 41 { 0x90
    } else if k == 42 { 0xF0
    } else if k == 43 { 0x90
    } else if k == 44 { 0xF0
    } else if k == 45 { 0xF0
    } else if k == 46 { 0x90
    } else if k == 47 { 0xF0
    } else if k == 48 { 0x10
    } else if k == 49 { 0xF0
    } else if k == 50 { 0xF0
    } else if k == 51 { 0x90
    } else if k == 52 { 0xF0
    } else if k == 53 { 0x90
    } else if k == 54 { 0x90
    } else if k == 55 { 0xE0
    } else if k == 56 { 0x90
    } else if k == 57 { 0xE0
    } else if k == 58 { 0x90
    } else if k == 59 { 0xE0
    } else if k == 60 { 0xF0
    } else if k == 61 { 0x80
    } else if k == 62 { 0x80
    } else if k == 63 { 0x80
    } else if k == 64 { 0xF0
    } else if k == 65 { 0xE0
    } else if k == 66 { 0x90
    } else if k == 67 { 0x90
    } else if k == 68 { 0x90
    } else if k == 69 { 0xE0
    } else if k == 70 { 0xF0
    } else if k == 71 { 0x80
    } else if k == 72 { 0xF0
    } else if k == 73 { 0x80
    } else if k == 74 { 0xF0
    } else if k == 75 { 0xF0
    } else if k == 76 { 0x80
    } else if k == 77 { 0xF0
    } else if k == 78 { 0x80
    } else if k == 79 { 0x80
    } else { 0x00
    }
}

/// Fixed-size addressable byte memory with a reserved glyph region.
pub struct Ram {
    mem: Vec<u8>,
}

impl View for Ram {
    type V = Seq<u8>;

    closed spec fn view(&self) -> Seq<u8> {
        self.mem@
    }
}

impl Ram {
    /// Memory always holds exactly `MEM_SIZE` bytes.
    pub open spec fn wf(&self) -> bool {
        self@.len() == MEM_SIZE
    }

    /// Fresh memory: the glyph table at the bottom, zeroes everywhere else.
    pub fn new() -> (r: Ram)
        ensures
            r.wf(),
            forall|k: int| 0 <= k < GLYPH_TABLE_LEN ==> r@[k] == glyph_byte(k),
            forall|a: int| GLYPH_TABLE_LEN <= a < MEM_SIZE ==> r@[a] == 0,
    {
        let mut mem: Vec<u8> = Vec::new();
        while mem.len() < MEM_SIZE
            invariant
                mem@.len() <= MEM_SIZE,
                forall|a: int| 0 <= a < mem@.len() ==> mem@[a] == 0,
            decreases MEM_SIZE - mem@.len(),
        {
            mem.push(0);
        }
        let mut r = Ram { mem };
        let mut k: usize = 0;
        while k < GLYPH_TABLE_LEN
            invariant
                r.wf(),
                k <= GLYPH_TABLE_LEN,
                forall|j: int| 0 <= j < k ==> r@[j] == glyph_byte(j),
                forall|a: int| k <= a < MEM_SIZE ==> r@[a] == 0,
            decreases GLYPH_TABLE_LEN - k,
        {
            let b = glyph_table_byte(k as u8);
            r.write_byte(k as u16, b);
            k = k + 1;
        }
        r
    }

    /// Stores `value` at `addr`. Addressing out of range is excluded by the
    /// caller; memory never wraps or truncates an address.
    pub fn write_byte(&mut self, addr: u16, value: u8)
        requires
            old(self).wf(),
            addr < MEM_SIZE,
        ensures
            final(self).wf(),
            final(self)@ == old(self)@.update(addr as int, value),
    {
        self.mem.set(addr as usize, value);
    }

    /// Reads the byte at `addr`.
    pub fn read_byte(&self, addr: u16) -> (b: u8)
        requires
            self.wf(),
            addr < MEM_SIZE,
        ensures
            b == self@[addr as int],
    {
        self.mem[addr as usize]
    }

    /// The fixed number of addressable bytes.
    pub fn capacity(&self) -> (n: usize)
        ensures
            n == MEM_SIZE,
    {
        MEM_SIZE
    }
}

/// Executable twin of `glyph_byte` for filling the reserved region.
fn glyph_table_byte(k: u8) -> (b: u8)
    requires
        k < GLYPH_TABLE_LEN,
    ensures
        b == glyph_byte(k as int),
{
    match k {
        0 => 0xF0,
        1 => 0x90,
        2 => 0x90,
        3 => 0x90,
        4 => 0xF0,
        5 => 0x20,
        6 => 0x60,
        7 => 0x20,
        8 => 0x20,
        9 => 0x70,
        10 => 0xF0,
        11 => 0x10,
        12 => 0xF0,
        13 => 0x80,
        14 => 0xF0,
        15 => 0xF0,
        16 => 0x10,
        17 => 0xF0,
        18 => 0x10,
        19 => 0xF0,
        20 => 0x90,
        21 => 0x90,
        22 => 0xF0,
        23 => 0x10,
        24 => 0x10,
        25 => 0xF0,
        26 => 0x80,
        27 => 0xF0,
        28 => 0x10,
        29 => 0xF0,
        30 => 0xF0,
        31 => 0x80,
        32 => 0xF0,
        33 => 0x90,
        34 => 0xF0,
        35 => 0xF0,
        36 => 0x10,
        37 => 0x20,
        38 => 0x40,
        39 => 0x40,
        40 => 0xF0,
        41 => 0x90,
        42 => 0xF0,
        43 => 0x90,
        44 => 0xF0,
        45 => 0xF0,
        46 => 0x90,
        47 => 0xF0,
        48 => 0x10,
        49 => 0xF0,
        50 => 0xF0,
        51 => 0x90,
        52 => 0xF0,
        53 => 0x90,
        54 => 0x90,
        55 => 0xE0,
        56 => 0x90,
        57 => 0xE0,
        58 => 0x90,
        59 => 0xE0,
        60 => 0xF0,
        61 => 0x80,
        62 => 0x80,
        63 => 0x80,
        64 => 0xF0,
        65 => 0xE0,
        66 => 0x90,
        67 => 0x90,
        68 => 0x90,
        69 => 0xE0,
        70 => 0xF0,
        71 => 0x80,
        72 => 0xF0,
        73 => 0x80,
        74 => 0xF0,
        75 => 0xF0,
        76 => 0x80,
        77 => 0xF0,
        78 => 0x80,
        79 => 0x80,
        _ => 0x00,
    }
}

} // verus!
