//! The text writer: owns the cursor state and the device, and exposes
//! character, string and hexadecimal output. Every non-line-break character
//! advances the cursor first and is then written at the new position.

use vstd::prelude::*;
use vstd::arithmetic::div_mod::{
    lemma_div_pos_is_pos, lemma_fundamental_div_mod, lemma_fundamental_div_mod_converse,
    lemma_mod_bound, lemma_multiply_divide_lt,
};
use vstd::string::StringSliceAdditionalSpecFns;
use crate::cursor::{advance, advance_fits, advance_spec, Point, LINE_BREAK};
use crate::vga::{CellWrite, Color, Vga};

verus! {

/// The hexadecimal digit character for a nibble: `'0'`–`'9'` for 0–9,
/// `'A'`–`'F'` for 10–15, and the sentinel `'z'` for anything larger,
/// which correct masking never produces.
pub open spec fn hex_digit_spec(i: u8) -> u8 {
    if i <= 9 {
        (0x30 + i) as u8
    } else if i <= 0xf {
        (0x41 + (i - 10)) as u8
    } else {
        122
    }
}

/// Hexadecimal digit character for a nibble; total, with `'z'` as the
/// defensive fallback for values above 15.
pub fn hex(i: u8) -> (r: u8)
    ensures
        r == hex_digit_spec(i),
{
    if i <= 9 {
        0x30 + i
    } else if i <= 0xf {
        0x41 + (i - 10)
    } else {
        122
    }
}

/// The two hexadecimal digit characters of a byte, most-significant nibble
/// first.
pub fn itoc(i: u8) -> (r: (u8, u8))
    ensures
        r.0 == hex_digit_spec((i / 16) as u8),
        r.1 == hex_digit_spec((i % 16) as u8),
{
    let lower = hex(0xf & i);
    let upper = hex((0xf0 & i) >> 4);
    proof {
        assert(0xf & i == i % 16) by (bit_vector);
        assert((0xf0 & i) >> 4 == i / 16) by (bit_vector);
    }
    (upper, lower)
}

/// The eight hexadecimal digit characters of a word, most-significant byte
/// first and most-significant nibble of each byte first, whatever the
/// machine's native byte order.
pub fn wtoc(w: u32) -> (r: (u8, u8, u8, u8, u8, u8, u8, u8))
    ensures
        r.0 == hex_digit_spec(((w >> 28) & 0xf) as u8),
        r.1 == hex_digit_spec(((w >> 24) & 0xf) as u8),
        r.2 == hex_digit_spec(((w >> 20) & 0xf) as u8),
        r.3 == hex_digit_spec(((w >> 16) & 0xf) as u8),
        r.4 == hex_digit_spec(((w >> 12) & 0xf) as u8),
        r.5 == hex_digit_spec(((w >> 8) & 0xf) as u8),
        r.6 == hex_digit_spec(((w >> 4) & 0xf) as u8),
        r.7 == hex_digit_spec((w & 0xf) as u8),
{
    let (a, b) = itoc((w & 0xff) as u8);
    let (c, d) = itoc(((w & 0xff00) >> 8) as u8);
    let (e, f) = itoc(((w & 0xff0000) >> 16) as u8);
    let (g, h) = itoc(((w & 0xff000000) >> 24) as u8);
    proof {
        assert(((w & 0xff) as u8) / 16 == ((w >> 4) & 0xf) as u8) by (bit_vector);
        assert(((w & 0xff) as u8) % 16 == (w & 0xf) as u8) by (bit_vector);
        assert((((w & 0xff00) >> 8) as u8) / 16 == ((w >> 12) & 0xf) as u8) by (bit_vector);
        assert((((w & 0xff00) >> 8) as u8) % 16 == ((w >> 8) & 0xf) as u8) by (bit_vector);
        assert((((w & 0xff0000) >> 16) as u8) / 16 == ((w >> 20) & 0xf) as u8) by (bit_vector);
        assert((((w & 0xff0000) >> 16) as u8) % 16 == ((w >> 16) & 0xf) as u8) by (bit_vector);
        assert((((w & 0xff000000) >> 24) as u8) / 16 == ((w >> 28) & 0xf) as u8) by (bit_vector);
        assert((((w & 0xff000000) >> 24) as u8) % 16 == ((w >> 24) & 0xf) as u8) by (bit_vector);
    }
    (g, h, e, f, c, d, a, b)
}

/// The cell write that putting the non-line-break character `c` performs
/// once the cursor has advanced to `p`: the character in light-on-dark.
pub open spec fn write_of(p: Point, c: u8) -> CellWrite {
    CellWrite { x: p.x, y: p.y, code: c, fg: Color::White, bg: Color::Black }
}

/// The cell writes one character causes: none for a line break, one at the
/// advanced position otherwise.
pub open spec fn writes_of(p: Point, c: u8) -> Seq<CellWrite> {
    if c == LINE_BREAK {
        Seq::<CellWrite>::empty()
    } else {
        seq![write_of(p, c)]
    }
}

/// Where the cursor stands after writing every character of `s` in order,
/// starting from `current`.
pub open spec fn run_cursor(current: Point, max: Point, s: Seq<u8>) -> Point
    decreases s.len(),
{
    if s.len() == 0 {
        current
    } else {
        run_cursor(advance_spec(current, max, s[0]), max, s.drop_first())
    }
}

/// The cell writes that writing every character of `s` in order causes,
/// starting from cursor `current`, oldest first.
pub open spec fn run_writes(current: Point, max: Point, s: Seq<u8>) -> Seq<CellWrite>
    decreases s.len(),
{
    if s.len() == 0 {
        Seq::<CellWrite>::empty()
    } else {
        let next = advance_spec(current, max, s[0]);
        writes_of(next, s[0]) + run_writes(next, max, s.drop_first())
    }
}

/// Whether every advance while writing `s` from cursor `current` stays
/// within the machine's integer range.
pub open spec fn run_fits(current: Point, max: Point, s: Seq<u8>) -> bool
    decreases s.len(),
{
    if s.len() == 0 {
        true
    } else {
        advance_fits(current, max, s[0]) && run_fits(
            advance_spec(current, max, s[0]),
            max,
            s.drop_first(),
        )
    }
}

/// The four characters that display a byte in hexadecimal: the prefix
/// `"0x"`, then the two digit characters, most-significant nibble first.
pub open spec fn hex_bytes(c: u8) -> Seq<u8> {
    seq![
        48u8,
        120u8,
        hex_digit_spec((c / 16) as u8),
        hex_digit_spec((c % 16) as u8),
    ]
}

/// The ten characters that display a word in hexadecimal: the prefix
/// `"0x"`, then the eight digit characters, most-significant byte first and
/// most-significant nibble of each byte first.
pub open spec fn int_bytes(w: u32) -> Seq<u8> {
    seq![
        48u8,
        120u8,
        hex_digit_spec(((w >> 28) & 0xf) as u8),
        hex_digit_spec(((w >> 24) & 0xf) as u8),
        hex_digit_spec(((w >> 20) & 0xf) as u8),
        hex_digit_spec(((w >> 16) & 0xf) as u8),
        hex_digit_spec(((w >> 12) & 0xf) as u8),
        hex_digit_spec(((w >> 8) & 0xf) as u8),
        hex_digit_spec(((w >> 4) & 0xf) as u8),
        hex_digit_spec((w & 0xf) as u8),
    ]
}

/// The cell writes of a full clear of a grid with bounds `max`: one blank
/// dark-on-dark cell per coordinate, column-major — entry `x * height + y`
/// clears cell `(x, y)`.
pub open spec fn clear_writes(max: Point) -> Seq<CellWrite>
    recommends
        1 <= max.y,
{
    Seq::new(
        (max.x * max.y) as nat,
        |k: int| CellWrite {
            x: ((k / (max.y as int)) as usize),
            y: ((k % (max.y as int)) as usize),
            code: 0,
            fg: Color::Black,
            bg: Color::Black,
        },
    )
}

/// Every entry of a full clear is a write of code 0 in dark-on-dark to a
/// coordinate inside the grid.
pub proof fn lemma_clear_writes_blank(max: Point, k: int)
    requires
        1 <= max.x,
        1 <= max.y,
        0 <= k < clear_writes(max).len(),
    ensures
        clear_writes(max).len() == max.x * max.y,
        clear_writes(max)[k].code == 0,
        clear_writes(max)[k].fg == Color::Black,
        clear_writes(max)[k].bg == Color::Black,
        clear_writes(max)[k].x < max.x,
        clear_writes(max)[k].y < max.y,
{
    let h = max.y as int;
    lemma_div_pos_is_pos(k, h);
    lemma_multiply_divide_lt(k, h, max.x as int);
    lemma_mod_bound(k, h);
    assert((max.y as int) * (max.x as int) == (max.x as int) * (max.y as int))
        by (nonlinear_arith);
}

/// A full clear touches every cell of the grid exactly once: the cell
/// `(x, y)` is cleared by entry `x * height + y` of the write sequence, and
/// by no other entry.
pub proof fn lemma_clear_writes_each_cell_once(max: Point, x: int, y: int)
    requires
        1 <= max.x,
        1 <= max.y,
        0 <= x < max.x,
        0 <= y < max.y,
    ensures
        clear_writes(max).len() == max.x * max.y,
        0 <= x * (max.y as int) + y < max.x * max.y,
        clear_writes(max)[x * (max.y as int) + y] == (CellWrite {
            x: x as usize,
            y: y as usize,
            code: 0,
            fg: Color::Black,
            bg: Color::Black,
        }),
        forall|k: int|
            0 <= k < clear_writes(max).len() && #[trigger] clear_writes(max)[k].x == x
                && clear_writes(max)[k].y == y ==> k == x * (max.y as int) + y,
{
    let w = max.x as int;
    let h = max.y as int;
    assert(0 <= x * h + y < w * h) by (nonlinear_arith)
        requires
            0 <= x <= w - 1,
            0 <= y <= h - 1,
            1 <= h,
    ;
    lemma_fundamental_div_mod_converse(x * h + y, h, x, y);
    assert forall|k: int|
        0 <= k < clear_writes(max).len() && #[trigger] clear_writes(max)[k].x == x
            && clear_writes(max)[k].y == y implies k == x * h + y by {
        lemma_div_pos_is_pos(k, h);
        lemma_multiply_divide_lt(k, h, w);
        lemma_mod_bound(k, h);
        lemma_fundamental_div_mod(k, h);
        assert(k / h == x && k % h == y);
        assert(h * x == x * h) by (nonlinear_arith);
    }
}

/// One unfolding of the three run functions: writing a non-empty `s` is one
/// advance for `s[0]`, its cell writes, and then the rest of `s`.
proof fn lemma_run_step(current: Point, max: Point, s: Seq<u8>)
    requires
        s.len() > 0,
    ensures
        run_cursor(current, max, s) == run_cursor(
            advance_spec(current, max, s[0]),
            max,
            s.drop_first(),
        ),
        run_writes(current, max, s) == writes_of(advance_spec(current, max, s[0]), s[0])
            + run_writes(advance_spec(current, max, s[0]), max, s.drop_first()),
        run_fits(current, max, s) == (advance_fits(current, max, s[0]) && run_fits(
            advance_spec(current, max, s[0]),
            max,
            s.drop_first(),
        )),
{
}

/// Writing `s` and then one more character `c` is writing `s.push(c)`: the
/// cursor advances once more from where `s` left it, and the writes of `c`
/// come after those of `s`.
proof fn lemma_run_snoc(current: Point, max: Point, s: Seq<u8>, c: u8)
    ensures
        run_cursor(current, max, s.push(c)) == advance_spec(
            run_cursor(current, max, s),
            max,
            c,
        ),
        run_writes(current, max, s.push(c)) == run_writes(current, max, s) + writes_of(
            advance_spec(run_cursor(current, max, s), max, c),
            c,
        ),
        run_fits(current, max, s.push(c)) == (run_fits(current, max, s) && advance_fits(
            run_cursor(current, max, s),
            max,
            c,
        )),
    decreases s.len(),
{
    lemma_run_step(current, max, s.push(c));
    if s.len() == 0 {
        let next = advance_spec(current, max, c);
        assert(s.push(c)[0] == c);
        assert(s.push(c).drop_first() =~= s);
        assert(run_cursor(current, max, s) == current);
        assert(run_cursor(next, max, s) == next);
        assert(run_writes(current, max, s) == Seq::<CellWrite>::empty());
        assert(run_writes(next, max, s) == Seq::<CellWrite>::empty());
        assert(run_fits(next, max, s));
        assert(writes_of(next, c) + Seq::<CellWrite>::empty() =~= writes_of(next, c));
        assert(Seq::<CellWrite>::empty() + writes_of(next, c) =~= writes_of(next, c));
    } else {
        let next = advance_spec(current, max, s[0]);
        let rest = s.drop_first();
        lemma_run_snoc(next, max, rest, c);
        lemma_run_step(current, max, s);
        assert(s.push(c)[0] == s[0]);
        assert(s.push(c).drop_first() =~= rest.push(c));
        let tail_end = writes_of(advance_spec(run_cursor(next, max, rest), max, c), c);
        assert(writes_of(next, s[0]) + (run_writes(next, max, rest) + tail_end) =~= (writes_of(
            next,
            s[0],
        ) + run_writes(next, max, rest)) + tail_end);
    }
}

/// The text writer: grid bounds, current cursor, and the device.
pub struct Terminal {
    pub max: Point,
    pub current: Point,
    pub vga: Vga,
}

impl Terminal {
    /// Well-formed: the bounds are at least one cell each way and are the
    /// device's reported dimensions. The cursor is deliberately not bounded:
    /// a line break on the last row leaves it transiently past the grid.
    pub open spec fn wf(&self) -> bool {
        &&& 1 <= self.max.x
        &&& 1 <= self.max.y
        &&& self.max.x == self.vga.width
        &&& self.max.y == self.vga.height
    }

    /// A writer over the given device, with the cursor at the top-left cell.
    pub fn new(vga: Vga) -> (t: Terminal)
        requires
            1 <= vga.width,
            1 <= vga.height,
        ensures
            t.wf(),
            t.max.x == vga.width,
            t.max.y == vga.height,
            t.current == (Point { x: 0, y: 0 }),
            t.vga == vga,
    {
        let (x, y) = (vga.x_max(), vga.y_max());
        Terminal { vga, max: Point { x, y }, current: Point { x: 0, y: 0 } }
    }

    /// Write one character: advance the cursor, then — unless `c` is the
    /// line break, which moves the cursor only — write `c` at the new
    /// position in light-on-dark.
    pub fn put_char(&mut self, c: u8)
        requires
            old(self).wf(),
            advance_fits(old(self).current, old(self).max, c),
        ensures
            final(self).wf(),
            final(self).max == old(self).max,
            final(self).current == advance_spec(old(self).current, old(self).max, c),
            final(self).vga.writes@ == old(self).vga.writes@ + writes_of(
                final(self).current,
                c,
            ),
    {
        let next = advance(self.current, self.max, c);
        self.current = next;
        if c != LINE_BREAK {
            self.vga.put((next.x, next.y), c, Color::White, Color::Black);
            proof {
                assert(self.vga.writes@ =~= old(self).vga.writes@ + writes_of(next, c));
            }
        } else {
            proof {
                assert(self.vga.writes@ =~= old(self).vga.writes@ + writes_of(next, c));
            }
        }
    }

    /// Write every byte of `s` in order via `put_char`, for the full length
    /// of `s` — no terminator scan.
    pub fn print(&mut self, s: &str)
        requires
            old(self).wf(),
            run_fits(old(self).current, old(self).max, s.spec_bytes()),
        ensures
            final(self).wf(),
            final(self).max == old(self).max,
            final(self).current == run_cursor(old(self).current, old(self).max, s.spec_bytes()),
            final(self).vga.writes@ == old(self).vga.writes@ + run_writes(
                old(self).current,
                old(self).max,
                s.spec_bytes(),
            ),
    {
        let bytes = s.as_bytes();
        let buflen = bytes.len();
        proof {
            assert(bytes@.subrange(0, buflen as int) =~= s.spec_bytes());
        }
        let mut i: usize = 0;
        while i < buflen
            invariant
                self.wf(),
                self.max == old(self).max,
                bytes@ == s.spec_bytes(),
                buflen == bytes@.len(),
                i <= buflen,
                run_fits(self.current, self.max, bytes@.subrange(i as int, buflen as int)),
                run_cursor(self.current, self.max, bytes@.subrange(i as int, buflen as int))
                    == run_cursor(old(self).current, old(self).max, s.spec_bytes()),
                self.vga.writes@ + run_writes(
                    self.current,
                    self.max,
                    bytes@.subrange(i as int, buflen as int),
                ) == old(self).vga.writes@ + run_writes(
                    old(self).current,
                    old(self).max,
                    s.spec_bytes(),
                ),
            decreases buflen - i,
        {
            let ghost prev = *self;
            let ghost suf = bytes@.subrange(i as int, buflen as int);
            let c = bytes[i];
            proof {
                assert(suf[0] == c);
                assert(suf.drop_first() =~= bytes@.subrange(i as int + 1, buflen as int));
            }
            self.put_char(c);
            proof {
                assert(self.vga.writes@ + run_writes(self.current, self.max, suf.drop_first())
                    =~= prev.vga.writes@ + run_writes(prev.current, prev.max, suf));
            }
            i = i + 1;
        }
        proof {
            assert(bytes@.subrange(buflen as int, buflen as int) =~= Seq::<u8>::empty());
        }
    }

    /// Blank the whole grid: write a cell with code 0 in dark-on-dark to
    /// every coordinate, column-major — every row of column 0, then of
    /// column 1, and so on — each coordinate exactly once. The cursor does
    /// not move.
    pub fn clear_screen(&mut self)
        requires
            old(self).wf(),
        ensures
            final(self).wf(),
            final(self).max == old(self).max,
            final(self).current == old(self).current,
            final(self).vga.writes@ == old(self).vga.writes@ + clear_writes(old(self).max),
    {
        let ghost w = self.max.x as int;
        let ghost h = self.max.y as int;
        let ghost cw = clear_writes(self.max);
        let mut i: usize = 0;
        while i < self.max.x
            invariant
                self.wf(),
                self.max == old(self).max,
                self.current == old(self).current,
                w == self.max.x as int,
                h == self.max.y as int,
                cw == clear_writes(self.max),
                i <= self.max.x,
                0 <= i as int * h <= w * h,
                self.vga.writes@ == old(self).vga.writes@ + cw.subrange(0, i as int * h),
            decreases self.max.x - i,
        {
            let mut j: usize = 0;
            while j < self.max.y
                invariant
                    self.wf(),
                    self.max == old(self).max,
                    self.current == old(self).current,
                    w == self.max.x as int,
                    h == self.max.y as int,
                    cw == clear_writes(self.max),
                    i < self.max.x,
                    j <= self.max.y,
                    0 <= i as int * h,
                    i as int * h + j as int <= w * h,
                    self.vga.writes@ == old(self).vga.writes@ + cw.subrange(
                        0,
                        i as int * h + j as int,
                    ),
                decreases self.max.y - j,
            {
                self.vga.put((i, j), 0, Color::Black, Color::Black);
                proof {
                    let k = i as int * h + j as int;
                    assert(k + 1 <= w * h) by (nonlinear_arith)
                        requires
                            i as int <= w - 1,
                            j as int <= h - 1,
                            1 <= h,
                            k == i as int * h + j as int,
                    ;
                    lemma_fundamental_div_mod_converse(k, h, i as int, j as int);
                    assert(cw[k] == (CellWrite {
                        x: i,
                        y: j,
                        code: 0,
                        fg: Color::Black,
                        bg: Color::Black,
                    }));
                    assert(cw.subrange(0, k + 1) =~= cw.subrange(0, k).push(cw[k]));
                    assert(self.vga.writes@ =~= old(self).vga.writes@ + cw.subrange(0, k + 1));
                }
                j = j + 1;
            }
            proof {
                assert((i + 1) as int * h == i as int * h + h) by (nonlinear_arith);
            }
            i = i + 1;
        }
        proof {
            assert(cw.subrange(0, w * h) =~= cw);
        }
    }

    /// Display a byte in hexadecimal: write the prefix `"0x"`, then the two
    /// digit characters of `c`, most-significant nibble first.
    pub fn put_hex(&mut self, c: u8)
        requires
            old(self).wf(),
            run_fits(old(self).current, old(self).max, hex_bytes(c)),
        ensures
            final(self).wf(),
            final(self).max == old(self).max,
            final(self).current == run_cursor(old(self).current, old(self).max, hex_bytes(c)),
            final(self).vga.writes@ == old(self).vga.writes@ + run_writes(
                old(self).current,
                old(self).max,
                hex_bytes(c),
            ),
    {
        let ghost m = old(self).max;
        let ghost s0 = hex_bytes(c);
        let ghost s1 = s0.drop_first();
        let ghost s2 = s1.drop_first();
        let ghost s3 = s2.drop_first();
        let ghost s4 = s3.drop_first();
        let (upper, lower) = itoc(c);
        proof {
            assert(s4 =~= Seq::<u8>::empty());
            lemma_run_step(old(self).current, m, s0);
        }
        self.put_char(48);  // '0'
        proof {
            lemma_run_step(self.current, m, s1);
        }
        self.put_char(120);  // 'x'
        proof {
            lemma_run_step(self.current, m, s2);
        }
        self.put_char(upper);
        proof {
            lemma_run_step(self.current, m, s3);
        }
        self.put_char(lower);
        proof {
            assert(run_cursor(self.current, m, s4) == self.current);
            assert(run_writes(self.current, m, s4) == Seq::<CellWrite>::empty());
            assert(self.vga.writes@ =~= old(self).vga.writes@ + run_writes(
                old(self).current,
                m,
                s0,
            ));
        }
    }

    /// Display a word in hexadecimal: write the prefix `"0x"`, then the
    /// eight digit characters of `w`, most-significant byte first and
    /// most-significant nibble of each byte first.
    pub fn put_int(&mut self, w: u32)
        requires
            old(self).wf(),
            run_fits(old(self).current, old(self).max, int_bytes(w)),
        ensures
            final(self).wf(),
            final(self).max == old(self).max,
            final(self).current == run_cursor(old(self).current, old(self).max, int_bytes(w)),
            final(self).vga.writes@ == old(self).vga.writes@ + run_writes(
                old(self).current,
                old(self).max,
                int_bytes(w),
            ),
    {
        let ghost m = old(self).max;
        let ghost s0 = int_bytes(w);
        let ghost s1 = s0.drop_first();
        let ghost s2 = s1.drop_first();
        let ghost s3 = s2.drop_first();
        let ghost s4 = s3.drop_first();
        let ghost s5 = s4.drop_first();
        let ghost s6 = s5.drop_first();
        let ghost s7 = s6.drop_first();
        let ghost s8 = s7.drop_first();
        let ghost s9 = s8.drop_first();
        let ghost s10 = s9.drop_first();
        let (a, b, c, d, e, f, g, h) = wtoc(w);
        proof {
            assert(s10 =~= Seq::<u8>::empty());
            lemma_run_step(old(self).current, m, s0);
        }
        self.put_char(48);  // '0'
        proof {
            lemma_run_step(self.current, m, s1);
        }
        self.put_char(120);  // 'x'
        proof {
            lemma_run_step(self.current, m, s2);
        }
        self.put_char(a);
        proof {
            lemma_run_step(self.current, m, s3);
        }
        self.put_char(b);
        proof {
            lemma_run_step(self.current, m, s4);
        }
        self.put_char(c);
        proof {
            lemma_run_step(self.current, m, s5);
        }
        self.put_char(d);
        proof {
            lemma_run_step(self.current, m, s6);
        }
        self.put_char(e);
        proof {
            lemma_run_step(self.current, m, s7);
        }
        self.put_char(f);
        proof {
            lemma_run_step(self.current, m, s8);
        }
        self.put_char(g);
        proof {
            lemma_run_step(self.current, m, s9);
        }
        self.put_char(h);
        proof {
            assert(run_cursor(self.current, m, s10) == self.current);
            assert(run_writes(self.current, m, s10) == Seq::<CellWrite>::empty());
            assert(self.vga.writes@ =~= old(self).vga.writes@ + run_writes(
                old(self).current,
                m,
                s0,
            ));
        }
    }

    /// Write every byte of `s`, then a line break: equivalent to writing the
    /// byte sequence of `s` with the line break appended.
    pub fn println(&mut self, s: &str)
        requires
            old(self).wf(),
            run_fits(old(self).current, old(self).max, s.spec_bytes().push(LINE_BREAK)),
        ensures
            final(self).wf(),
            final(self).max == old(self).max,
            final(self).current == run_cursor(
                old(self).current,
                old(self).max,
                s.spec_bytes().push(LINE_BREAK),
            ),
            final(self).vga.writes@ == old(self).vga.writes@ + run_writes(
                old(self).current,
                old(self).max,
                s.spec_bytes().push(LINE_BREAK),
            ),
    {
        proof {
            lemma_run_snoc(self.current, self.max, s.spec_bytes(), LINE_BREAK);
        }
        self.print(s);
        self.put_char(LINE_BREAK);
        proof {
            let s_nl = s.spec_bytes().push(LINE_BREAK);
            assert(self.vga.writes@ =~= old(self).vga.writes@ + run_writes(
                old(self).current,
                old(self).max,
                s_nl,
            ));
        }
    }
}

} // verus!
