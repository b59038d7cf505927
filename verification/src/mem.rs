//! The machine's memory: 4096 bytes of RAM seeded with the hexadecimal font,
//! the call stack, a scratch area, and the 64x32 one-byte-per-pixel
//! framebuffer with XOR sprite compositing and collision detection.

use vstd::prelude::*;

verus! {

/// The built-in font: sixteen glyphs of five bytes each, glyph `d` starting
/// at offset `5 * d`.
pub const FONT: [u8; 80] = [
    0xF0, 0x90, 0x90, 0x90, 0xF0,
    0x20, 0x60, 0x20, 0x20, 0x70,
    0xF0, 0x10, 0xF0, 0x80, 0xF0,
    0xF0, 0x10, 0xF0, 0x10, 0xF0,
    0x90, 0x90, 0xF0, 0x10, 0x10,
    0xF0, 0x80, 0xF0, 0x10, 0xF0,
    0xF0, 0x80, 0xF0, 0x90, 0xF0,
    0xF0, 0x10, 0x20, 0x40, 0x40,
    0xF0, 0x90, 0xF0, 0x90, 0xF0,
    0xF0, 0x90, 0xF0, 0x10, 0xF0,
    0xF0, 0x90, 0xF0, 0x90, 0x90,
    0xE0, 0x90, 0xE0, 0x90, 0xE0,
    0xF0, 0x80, 0x80, 0x80, 0xF0,
    0xE0, 0x90, 0x90, 0x90, 0xE0,
    0xF0, 0x80, 0xF0, 0x80, 0xF0,
    0xF0, 0x80, 0xF0, 0x80, 0x80,
];

/// The font bytes as a sequence.
pub open spec fn font_seq() -> Seq<u8> {
    FONT@
}

/// A sequence of `n` zero bytes.
pub open spec fn zero_seq(n: nat) -> Seq<u8> {
    Seq::new(n, |i: int| 0u8)
}

/// RAM as construction leaves it: the font in the first 80 bytes, zeroes
/// everywhere else.
pub open spec fn fresh_ram() -> Seq<u8> {
    Seq::new(4096, |i: int| if i < 80 { font_seq()[i] } else { 0u8 })
}

/// RAM after a reload of `rom`: the font region is kept, the ROM sits at
/// 0x200, and everything else is zeroed.
pub open spec fn reloaded_ram(r: Seq<u8>, rom: Seq<u8>) -> Seq<u8> {
    Seq::new(
        4096,
        |i: int|
            if i < 80 {
                r[i]
            } else if 0x200 <= i < 0x200 + rom.len() {
                rom[i - 0x200]
            } else {
                0u8
            },
    )
}

/// The 16-bit big-endian word stored at `ip`.
pub open spec fn word_at(ram: Seq<u8>, ip: u16) -> u16 {
    (ram[ip as int] * 0x100 + ram[ip as int + 1]) as u16
}

/// The sprite pixel in column `xi` of a row byte, MSB first.
pub open spec fn sprite_pixel(row: u8, xi: int) -> u8 {
    (row >> ((7 - xi) as u8)) & 1
}

/// The contribution a sprite blit makes to the framebuffer cell in column
/// `cx`, row `cy`, once the first `k` sprite rows and the first `j` columns of
/// row `k` have been composited.  Rows past the bottom edge and columns past
/// the right edge contribute nothing: sprites clip, they do not wrap.
pub open spec fn sprite_bit(x: u8, y: u8, rows: Seq<u8>, k: int, j: int, cx: int, cy: int) -> u8 {
    let rx = x as int % 64;
    let ry = y as int % 32;
    let yi = cy - ry;
    let xi = cx - rx;
    if 0 <= yi && yi < rows.len() && cy < 32 && 0 <= xi && xi < 8 && cx < 64 && (yi < k || (yi == k
        && xi < j)) {
        sprite_pixel(rows[yi], xi)
    } else {
        0u8
    }
}

/// The same contribution, addressed by the flat row-major cell index.
pub open spec fn cell_bit(x: u8, y: u8, rows: Seq<u8>, k: int, j: int, i: int) -> u8 {
    sprite_bit(x, y, rows, k, j, i % 64, i / 64)
}

/// The framebuffer after XOR-compositing the sprite `rows` at `(x % 64, y % 32)`.
pub open spec fn blit(d: Seq<u8>, x: u8, y: u8, rows: Seq<u8>) -> Seq<u8> {
    Seq::new(d.len(), |i: int| d[i] ^ cell_bit(x, y, rows, rows.len() as int, 0, i))
}

/// Whether some cell that is already set receives a sprite bit, looking only
/// at the first `k` rows and the first `j` columns of row `k`.
pub open spec fn hit_within(d: Seq<u8>, x: u8, y: u8, rows: Seq<u8>, k: int, j: int) -> bool {
    exists|i: int| #![trigger d[i]]
        0 <= i < d.len() && d[i] == 1 && cell_bit(x, y, rows, k, j, i) == 1
}

/// Whether blitting the sprite `rows` at `(x, y)` would XOR a 1-bit onto a
/// cell that already holds 1: the collision signal.
pub open spec fn collision(d: Seq<u8>, x: u8, y: u8, rows: Seq<u8>) -> bool {
    hit_within(d, x, y, rows, rows.len() as int, 0)
}

proof fn lemma_pixel_bound(row: u8, k: u8)
    requires
        k < 8,
    ensures
        (row >> k) & 1 == 0 || (row >> k) & 1 == 1,
{
    assert((row >> k) & 1 == 0 || (row >> k) & 1 == 1) by (bit_vector);
}

proof fn lemma_xor01(a: u8, b: u8)
    requires
        a <= 1,
        b <= 1,
    ensures
        a ^ b == (if a == b {
            0u8
        } else {
            1u8
        }),
{
    assert(a <= 1 && b <= 1 ==> a ^ b == (if a == b {
        0u8
    } else {
        1u8
    })) by (bit_vector);
}

proof fn lemma_and01(a: u8, b: u8)
    requires
        a <= 1,
        b <= 1,
    ensures
        a & b == (if a == 1 && b == 1 {
            1u8
        } else {
            0u8
        }),
{
    assert(a <= 1 && b <= 1 ==> a & b == (if a == 1 && b == 1 {
        1u8
    } else {
        0u8
    })) by (bit_vector);
}

/// Every sprite contribution is a single bit.
proof fn lemma_cell_bit01(x: u8, y: u8, rows: Seq<u8>, k: int, j: int, i: int)
    ensures
        cell_bit(x, y, rows, k, j, i) == 0 || cell_bit(x, y, rows, k, j, i) == 1,
{
    let cx = i % 64;
    let cy = i / 64;
    let rx = x as int % 64;
    let xi = cx - rx;
    if 0 <= xi && xi < 8 {
        lemma_pixel_bound(rows[cy - y as int % 32], (7 - xi) as u8);
    }
}

pub(crate) fn zero_bytes(n: usize) -> (r: Vec<u8>)
    ensures
        r@ == zero_seq(n as nat),
{
    let mut v: Vec<u8> = Vec::new();
    let mut i: usize = 0;
    while i < n
        invariant
            i <= n,
            v@.len() == i,
            forall|j: int| 0 <= j < i ==> v@[j] == 0u8,
        decreases n - i,
    {
        v.push(0);
        i += 1;
    }
    proof {
        assert(v@ =~= zero_seq(n as nat));
    }
    v
}

/// RAM, call stack, scratch area and framebuffer.
#[derive(Debug)]
pub struct Memory {
    /// The 4096-byte address space.
    pub ram: Vec<u8>,
    /// Return addresses pushed by calls; popped by returns, never when empty.
    pub stack: Vec<u16>,
    /// A 32-byte scratch area.
    pub scratch: Vec<u8>,
    /// 2048 one-byte pixel cells, row-major, 64 wide by 32 tall, each 0 or 1.
    pub display: Vec<u8>,
}

impl Memory {
    /// The structural invariant: fixed sizes, and every framebuffer cell
    /// holds a single bit.
    pub open spec fn wf(&self) -> bool {
        &&& self.ram@.len() == 4096
        &&& self.scratch@.len() == 32
        &&& self.display@.len() == 2048
        &&& forall|i: int| 0 <= i < 2048 ==> self.display@[i] == 0u8 || self.display@[i] == 1u8
    }

    /// A freshly allocated memory: font seeded, everything else empty.
    pub fn new() -> (r: Self)
        ensures
            r.wf(),
            r.ram@ == fresh_ram(),
            r.stack@ == Seq::<u16>::empty(),
            r.scratch@ == zero_seq(32),
            r.display@ == zero_seq(2048),
    {
        let mut ram = zero_bytes(4096);
        let mut k: usize = 0;
        while k < 80
            invariant
                k <= 80,
                ram@.len() == 4096,
                forall|j: int| 0 <= j < k ==> ram@[j] == font_seq()[j],
                forall|j: int| k <= j < 4096 ==> ram@[j] == 0u8,
            decreases 80 - k,
        {
            ram[k] = FONT[k];
            k += 1;
        }
        proof {
            assert(ram@ =~= fresh_ram());
        }
        Self { ram, stack: Vec::new(), scratch: zero_bytes(32), display: zero_bytes(2048) }
    }

    /// Copies `buf` into RAM starting at the fixed program load address
    /// 0x200; everything else is untouched.
    pub fn load(&mut self, buf: &[u8])
        requires
            old(self).wf(),
            buf@.len() <= 0xE00,
        ensures
            final(self).wf(),
            forall|i: int| 0 <= i < buf@.len() ==> final(self).ram@[0x200 + i] == buf@[i],
            forall|i: int|
                0 <= i < 4096 && !(0x200 <= i < 0x200 + buf@.len()) ==> final(self).ram@[i] == old(
                    self,
                ).ram@[i],
            final(self).stack@ == old(self).stack@,
            final(self).scratch@ == old(self).scratch@,
            final(self).display@ == old(self).display@,
    {
        let ghost ram0 = self.ram@;
        let ghost stk0 = self.stack@;
        let ghost scr0 = self.scratch@;
        let ghost dsp0 = self.display@;
        let mut i: usize = 0;
        while i < buf.len()
            invariant
                self.wf(),
                i <= buf@.len(),
                buf@.len() <= 0xE00,
                forall|j: int| 0 <= j < i ==> self.ram@[0x200 + j] == buf@[j],
                forall|j: int|
                    0 <= j < 4096 && !(0x200 <= j < 0x200 + i) ==> self.ram@[j] == ram0[j],
                self.stack@ == stk0,
                self.scratch@ == scr0,
                self.display@ == dsp0,
            decreases buf@.len() - i,
        {
            self.ram[0x200 + i] = buf[i];
            i += 1;
        }
    }

    /// A cold reset followed by a load: the ROM sits at 0x200 in an otherwise
    /// zeroed RAM, the font region is kept, and stack, scratch and
    /// framebuffer are emptied.
    pub fn reload(&mut self, buf: &[u8])
        requires
            old(self).wf(),
            buf@.len() <= 0xE00,
        ensures
            final(self).wf(),
            final(self).ram@ == reloaded_ram(old(self).ram@, buf@),
            final(self).stack@ == Seq::<u16>::empty(),
            final(self).scratch@ == zero_seq(32),
            final(self).display@ == zero_seq(2048),
    {
        self.clear();
        self.load(buf);
        proof {
            assert(self.ram@ =~= reloaded_ram(old(self).ram@, buf@));
        }
    }

    /// Zeroes RAM outside the font region, empties the stack and clears
    /// scratch and framebuffer.  The font bytes are seeded at construction
    /// only and survive.
    fn clear(&mut self)
        requires
            old(self).wf(),
        ensures
            final(self).wf(),
            final(self).ram@.len() == 4096,
            forall|i: int| 0 <= i < 80 ==> final(self).ram@[i] == old(self).ram@[i],
            forall|i: int| 80 <= i < 4096 ==> final(self).ram@[i] == 0u8,
            final(self).stack@ == Seq::<u16>::empty(),
            final(self).scratch@ == zero_seq(32),
            final(self).display@ == zero_seq(2048),
    {
        let ghost ram0 = self.ram@;
        let mut i: usize = 80;
        while i < 4096
            invariant
                self.ram@.len() == 4096,
                80 <= i <= 4096,
                forall|j: int| 0 <= j < 80 ==> self.ram@[j] == ram0[j],
                forall|j: int| 80 <= j < i ==> self.ram@[j] == 0u8,
            decreases 4096 - i,
        {
            self.ram[i] = 0;
            i += 1;
        }
        self.scratch = zero_bytes(32);
        self.display = zero_bytes(2048);
        self.stack.clear();
    }

    /// The big-endian 16-bit word at `ip`.
    pub fn read_u16(&self, ip: u16) -> (r: u16)
        requires
            self.wf(),
            ip < 4095,
        ensures
            r == word_at(self.ram@, ip),
    {
        (self.ram[ip as usize] as u16) * 0x100 + (self.ram[ip as usize + 1] as u16)
    }

    /// The byte at `ip`.
    pub fn read_u8(&self, ip: u16) -> (r: u8)
        requires
            self.wf(),
            ip < 4096,
        ensures
            r == self.ram@[ip as int],
    {
        self.ram[ip as usize]
    }

    /// Stores `v` at `ip`.
    pub fn write_u8(&mut self, ip: u16, v: u8)
        requires
            old(self).wf(),
            ip < 4096,
        ensures
            final(self).wf(),
            final(self).ram@ == old(self).ram@.update(ip as int, v),
            final(self).stack@ == old(self).stack@,
            final(self).scratch@ == old(self).scratch@,
            final(self).display@ == old(self).display@,
    {
        self.ram[ip as usize] = v;
    }

    /// Zeroes every framebuffer cell.
    pub fn clear_display(&mut self)
        requires
            old(self).wf(),
        ensures
            final(self).wf(),
            final(self).display@ == zero_seq(2048),
            final(self).ram@ == old(self).ram@,
            final(self).stack@ == old(self).stack@,
            final(self).scratch@ == old(self).scratch@,
    {
        self.display = zero_bytes(2048);
    }

    /// XOR-composites the sprite `data` at `(x mod 64, y mod 32)`, clipping
    /// at the right and bottom edges, and reports whether any already-set
    /// pixel was hit (and therefore unset).
    pub fn write_sprite(&mut self, x: u8, y: u8, data: &[u8]) -> (r: bool)
        requires
            old(self).wf(),
        ensures
            final(self).wf(),
            final(self).display@ == blit(old(self).display@, x, y, data@),
            r == collision(old(self).display@, x, y, data@),
            final(self).ram@ == old(self).ram@,
            final(self).stack@ == old(self).stack@,
            final(self).scratch@ == old(self).scratch@,
    {
        let mut unset = false;
        let rx = x % 64;
        let ry = y % 32;
        let ghost d0 = self.display@;
        let ghost ram0 = self.ram@;
        let ghost stk0 = self.stack@;
        let ghost scr0 = self.scratch@;
        proof {
            assert forall|i: int| 0 <= i < 2048 implies #[trigger] cell_bit(x, y, data@, 0, 0, i)
                == 0 && d0[i] ^ cell_bit(x, y, data@, 0, 0, i) == d0[i] by {
                lemma_xor01(d0[i], 0);
            }
        }
        let mut yi: usize = 0;
        while yi < data.len()
            invariant
                self.wf(),
                rx == x % 64,
                ry == y % 32,
                yi <= data@.len(),
                self.ram@ == ram0,
                self.stack@ == stk0,
                self.scratch@ == scr0,
                d0.len() == 2048,
                forall|i: int| 0 <= i < 2048 ==> d0[i] == 0u8 || d0[i] == 1u8,
                forall|i: int|
                    0 <= i < 2048 ==> self.display@[i] == d0[i] ^ cell_bit(
                        x,
                        y,
                        data@,
                        yi as int,
                        0,
                        i,
                    ),
                unset == hit_within(d0, x, y, data@, yi as int, 0),
            decreases data@.len() - yi,
        {
            let chunk = data[yi];
            if yi < 32 {
                let ryi: usize = ry as usize + yi;
                if ryi < 32 {
                    let mut xi: u8 = 0;
                    while xi < 8
                        invariant
                            self.wf(),
                            rx == x % 64,
                            ry == y % 32,
                            yi < data@.len(),
                            chunk == data@[yi as int],
                            ryi == ry + yi,
                            ryi < 32,
                            xi <= 8,
                            self.ram@ == ram0,
                            self.stack@ == stk0,
                            self.scratch@ == scr0,
                            d0.len() == 2048,
                            forall|i: int| 0 <= i < 2048 ==> d0[i] == 0u8 || d0[i] == 1u8,
                            forall|i: int|
                                0 <= i < 2048 ==> self.display@[i] == d0[i] ^ cell_bit(
                                    x,
                                    y,
                                    data@,
                                    yi as int,
                                    xi as int,
                                    i,
                                ),
                            unset == hit_within(d0, x, y, data@, yi as int, xi as int),
                        decreases 8 - xi,
                    {
                        let rxi: usize = rx as usize + xi as usize;
                        if rxi < 64 {
                            let pixel: u8 = (chunk >> (7 - xi)) & 1;
                            let idx: usize = rxi + ryi * 64;
                            proof {
                                lemma_pixel_bound(chunk, (7 - xi) as u8);
                                assert(idx as int % 64 == rxi && idx as int / 64 == ryi) by (nonlinear_arith)
                                    requires
                                        idx == rxi + ryi * 64,
                                        0 <= rxi < 64,
                                        0 <= ryi,
                                ;
                                assert(idx < 2048);
                            }
                            let cell = self.display[idx];
                            proof {
                                // the current column of the current row is not yet
                                // composited, so the cell still holds its pre-blit value
                                assert(cell_bit(x, y, data@, yi as int, xi as int, idx as int)
                                    == 0);
                                lemma_xor01(d0[idx as int], 0);
                                assert(cell == d0[idx as int]);
                                assert(cell_bit(x, y, data@, yi as int, xi as int + 1, idx as int)
                                    == pixel);
                                // every other cell is untouched by this column
                                assert forall|i: int| 0 <= i < 2048 && i != idx implies #[trigger] cell_bit(
                                    x,
                                    y,
                                    data@,
                                    yi as int,
                                    xi as int + 1,
                                    i,
                                ) == cell_bit(x, y, data@, yi as int, xi as int, i) by {
                                    assert(i % 64 + (i / 64) * 64 == i) by (nonlinear_arith);
                                }
                            }
                            if pixel & cell == 1 {
                                unset = true;
                                proof {
                                    lemma_and01(pixel, cell);
                                    assert(d0[idx as int] == 1 && cell_bit(
                                        x,
                                        y,
                                        data@,
                                        yi as int,
                                        xi as int + 1,
                                        idx as int,
                                    ) == 1);
                                    assert(hit_within(d0, x, y, data@, yi as int, xi as int + 1));
                                }
                            } else {
                                proof {
                                    lemma_and01(pixel, cell);
                                    assert(!(d0[idx as int] == 1 && pixel == 1));
                                    if hit_within(d0, x, y, data@, yi as int, xi as int + 1) {
                                        let i = choose|i: int| #![trigger d0[i]]
                                            0 <= i < 2048 && d0[i] == 1 && cell_bit(
                                                x,
                                                y,
                                                data@,
                                                yi as int,
                                                xi as int + 1,
                                                i,
                                            ) == 1;
                                        assert(i != idx);
                                        assert(hit_within(d0, x, y, data@, yi as int, xi as int));
                                    }
                                    if hit_within(d0, x, y, data@, yi as int, xi as int) {
                                        let i = choose|i: int| #![trigger d0[i]]
                                            0 <= i < 2048 && d0[i] == 1 && cell_bit(
                                                x,
                                                y,
                                                data@,
                                                yi as int,
                                                xi as int,
                                                i,
                                            ) == 1;
                                        assert(cell_bit(
                                            x,
                                            y,
                                            data@,
                                            yi as int,
                                            xi as int + 1,
                                            i,
                                        ) == 1);
                                        assert(hit_within(
                                            d0,
                                            x,
                                            y,
                                            data@,
                                            yi as int,
                                            xi as int + 1,
                                        ));
                                    }
                                }
                            }
                            self.display[idx] = cell ^ pixel;
                            proof {
                                lemma_xor01(d0[idx as int], pixel);
                            }
                        } else {
                            proof {
                                assert forall|i: int| 0 <= i < 2048 implies #[trigger] cell_bit(
                                    x,
                                    y,
                                    data@,
                                    yi as int,
                                    xi as int + 1,
                                    i,
                                ) == cell_bit(x, y, data@, yi as int, xi as int, i) by {
                                    assert(0 <= i % 64 < 64) by (nonlinear_arith);
                                }
                            }
                        }
                        xi += 1;
                    }
                    proof {
                        assert forall|i: int| 0 <= i < 2048 implies #[trigger] cell_bit(
                            x,
                            y,
                            data@,
                            yi as int + 1,
                            0,
                            i,
                        ) == cell_bit(x, y, data@, yi as int, 8, i) by {}
                    }
                } else {
                    proof {
                        assert forall|i: int| 0 <= i < 2048 implies #[trigger] cell_bit(
                            x,
                            y,
                            data@,
                            yi as int + 1,
                            0,
                            i,
                        ) == cell_bit(x, y, data@, yi as int, 0, i) by {
                            assert(0 <= i / 64 < 32) by (nonlinear_arith)
                                requires
                                    0 <= i < 2048,
                            ;
                        }
                    }
                }
            } else {
                proof {
                    assert forall|i: int| 0 <= i < 2048 implies #[trigger] cell_bit(
                        x,
                        y,
                        data@,
                        yi as int + 1,
                        0,
                        i,
                    ) == cell_bit(x, y, data@, yi as int, 0, i) by {
                        assert(0 <= i / 64 < 32) by (nonlinear_arith)
                            requires
                                0 <= i < 2048,
                        ;
                    }
                }
            }
            yi += 1;
        }
        proof {
            assert(self.display@ =~= blit(d0, x, y, data@));
        }
        unset
    }
}

/// Draw idempotence: blitting the same sprite at the same coordinates twice
/// restores every touched pixel to its pre-draw state, and the second blit
/// reports a collision exactly when the first blit turned some pixel on.
pub proof fn lemma_draw_idempotent(d: Seq<u8>, x: u8, y: u8, rows: Seq<u8>)
    requires
        d.len() == 2048,
        forall|i: int| 0 <= i < 2048 ==> d[i] == 0u8 || d[i] == 1u8,
    ensures
        blit(blit(d, x, y, rows), x, y, rows) == d,
        collision(blit(d, x, y, rows), x, y, rows) <==> exists|i: int| #![trigger d[i]]
            0 <= i < 2048 && d[i] == 0 && cell_bit(x, y, rows, rows.len() as int, 0, i) == 1,
{
    let d1 = blit(d, x, y, rows);
    let k = rows.len() as int;
    assert forall|i: int| 0 <= i < 2048 implies d1[i] ^ cell_bit(x, y, rows, k, 0, i) == d[i] && (
    d1[i] == 0u8 || d1[i] == 1u8) by {
        lemma_cell_bit01(x, y, rows, k, 0, i);
        lemma_xor01(d[i], cell_bit(x, y, rows, k, 0, i));
        lemma_xor01(d1[i], cell_bit(x, y, rows, k, 0, i));
    }
    assert(blit(d1, x, y, rows) =~= d);
    if collision(d1, x, y, rows) {
        let i = choose|i: int| #![trigger d1[i]]
            0 <= i < d1.len() && d1[i] == 1 && cell_bit(x, y, rows, k, 0, i) == 1;
        lemma_cell_bit01(x, y, rows, k, 0, i);
        lemma_xor01(d[i], cell_bit(x, y, rows, k, 0, i));
        assert(d[i] == 0 && cell_bit(x, y, rows, k, 0, i) == 1);
    }
    if exists|i: int| #![trigger d[i]]
        0 <= i < 2048 && d[i] == 0 && cell_bit(x, y, rows, k, 0, i) == 1 {
        let i = choose|i: int| #![trigger d[i]]
            0 <= i < 2048 && d[i] == 0 && cell_bit(x, y, rows, k, 0, i) == 1;
        lemma_cell_bit01(x, y, rows, k, 0, i);
        lemma_xor01(d[i], cell_bit(x, y, rows, k, 0, i));
        assert(d1[i] == 1);
        assert(collision(d1, x, y, rows));
    }
}

} // verus!
