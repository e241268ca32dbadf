//! Drawing the console's memory into a 320x200 picture: a clear color, then
//! the background map, the sprites and the foreground map, each made of 8x8
//! tiles whose pixels index the palette.
use vstd::prelude::*;

verus! {

pub const CANVAS_WIDTH: usize = 320;

pub const CANVAS_HEIGHT: usize = 200;

/// Number of pixels of the canvas.
pub const CANVAS_PIXELS: usize = 64000;

/// Memory address of the clear color; the palette's colors 1 to 15 follow it.
pub const PALETTE_OFFSET: usize = 300;

/// Memory address of the first tile's first row.
pub const TILESHEET_OFFSET: usize = 1000;

/// Memory address of the background map; the sprite layer and the foreground
/// map follow it.
pub const TILEMAP_OFFSET: usize = 3544;

/// The 8-bit red, green and blue channels of an RGB565 color, each scaled from
/// its 5 or 6 bits to 0..=255 rounding down.
pub open spec fn rgb(c: u16) -> (u8, u8, u8) {
    (
        ((((c >> 11u16) & 0x1f) as int) * 255 / 31) as u8,
        ((((c >> 5u16) & 0x3f) as int) * 255 / 63) as u8,
        (((c & 0x1f) as int) * 255 / 31) as u8,
    )
}

pub fn rgb_from_rgb565(rgb565: u16) -> (r: (u8, u8, u8))
    ensures
        r == rgb(rgb565),
{
    let r5 = (rgb565 >> 11u16) & 0x1f;
    let g6 = (rgb565 >> 5u16) & 0x3f;
    let b5 = rgb565 & 0x1f;
    proof {
        assert(r5 <= 0x1f) by (bit_vector)
            requires
                r5 == (rgb565 >> 11u16) & 0x1f,
        ;
        assert(g6 <= 0x3f) by (bit_vector)
            requires
                g6 == (rgb565 >> 5u16) & 0x3f,
        ;
        assert(b5 <= 0x1f) by (bit_vector)
            requires
                b5 == rgb565 & 0x1f,
        ;
    }
    let red = ((r5 as u32 * 255) / 31) as u8;
    let green = ((g6 as u32 * 255) / 63) as u8;
    let blue = ((b5 as u32 * 255) / 31) as u8;
    (red, green, blue)
}

/// The 4-bit field `q` (0 to 3, from the high end) of a word.
pub open spec fn nibble(w: u16, q: int) -> int {
    ((w >> (((3 - q) * 4) as u16)) & 0xf) as int
}

/// The palette index of the pixel at column `lx`, row `ly` of tile `id`
/// (tiles are numbered from 1; each row is two words of four pixels).
pub open spec fn tile_color(ram: Seq<u16>, id: int, lx: int, ly: int) -> int {
    nibble(ram[TILESHEET_OFFSET + (id - 1) * 16 + ly * 2 + lx / 4], lx % 4)
}

/// The position in the tile that the canvas pixel `(tx, ty)` shows, for a
/// tile at `(x, y)` with the given flags (bit 0 flips the rows, bit 1 the
/// columns).
pub open spec fn tile_local(flags: int, x: int, y: int, tx: int, ty: int) -> (int, int) {
    let lx = tx - x;
    let ly = ty - y;
    (
        if (flags / 2) % 2 == 1 { 7 - lx } else { lx },
        if flags % 2 == 1 { 7 - ly } else { ly },
    )
}

/// The pixel `p` of `frame` once tile `id` is drawn at `(x, y)`: a pixel that
/// the tile covers and whose palette index is not 0 takes that palette color.
pub open spec fn tile_px(
    frame: Seq<(u8, u8, u8)>,
    ram: Seq<u16>,
    id: int,
    flags: int,
    x: int,
    y: int,
    p: int,
) -> (u8, u8, u8) {
    let tx = p % 320;
    let ty = p / 320;
    if id != 0 && x <= tx < x + 8 && y <= ty < y + 8 {
        let l = tile_local(flags, x, y, tx, ty);
        let c = tile_color(ram, id, l.0, l.1);
        if c == 0 {
            frame[p]
        } else {
            rgb(ram[PALETTE_OFFSET + c])
        }
    } else {
        frame[p]
    }
}

/// `frame` with tile `id` drawn at `(x, y)`; tile 0 draws nothing.
pub open spec fn tile_drawn(
    frame: Seq<(u8, u8, u8)>,
    ram: Seq<u16>,
    id: int,
    flags: int,
    x: int,
    y: int,
) -> Seq<(u8, u8, u8)> {
    Seq::new(frame.len(), |p: int| tile_px(frame, ram, id, flags, x, y, p))
}

/// The tile that map word `w` places: its id (the low byte, where 255 draws
/// nothing) and its flags (the high byte).
pub open spec fn word_id(w: u16) -> int {
    if (w & 0xff) == 255 {
        0
    } else {
        (w & 0xff) as int
    }
}

pub open spec fn word_flags(w: u16) -> int {
    (w >> 8u16) as int
}

/// `frame` with the first `k` tiles of the 40x25 map at `base` drawn.
pub open spec fn map_drawn(frame: Seq<(u8, u8, u8)>, ram: Seq<u16>, base: int, k: int) -> Seq<
    (u8, u8, u8),
>
    decreases k,
{
    if k <= 0 {
        frame
    } else {
        let i = k - 1;
        let w = ram[base + i];
        tile_drawn(
            map_drawn(frame, ram, base, i),
            ram,
            word_id(w),
            word_flags(w),
            (i * 8) % 320,
            (i / 40) * 8,
        )
    }
}

/// Whether sprite `j` lies beyond the canvas and is left out.
pub open spec fn sprite_culled(ram: Seq<u16>, j: int) -> bool {
    ram[TILEMAP_OFFSET + 1000 + 3 * j + 1] > 320 || ram[TILEMAP_OFFSET + 1000 + 3 * j + 2] > 200
}

/// `frame` with the first `k` sprites drawn.
pub open spec fn sprites_drawn(frame: Seq<(u8, u8, u8)>, ram: Seq<u16>, k: int) -> Seq<(u8, u8, u8)>
    decreases k,
{
    if k <= 0 {
        frame
    } else {
        let j = k - 1;
        let prev = sprites_drawn(frame, ram, j);
        if sprite_culled(ram, j) {
            prev
        } else {
            let w = ram[TILEMAP_OFFSET + 1000 + 3 * j];
            tile_drawn(
                prev,
                ram,
                word_id(w),
                word_flags(w),
                ram[TILEMAP_OFFSET + 1000 + 3 * j + 1] as int,
                ram[TILEMAP_OFFSET + 1000 + 3 * j + 2] as int,
            )
        }
    }
}

/// The picture of memory `ram`: the clear color everywhere, then the
/// background map, the 333 sprites and the foreground map.
pub open spec fn picture(ram: Seq<u16>) -> Seq<(u8, u8, u8)> {
    let clear = Seq::new(CANVAS_PIXELS as nat, |p: int| rgb(ram[PALETTE_OFFSET as int]));
    let bg = map_drawn(clear, ram, TILEMAP_OFFSET as int, 1000);
    let sp = sprites_drawn(bg, ram, 333);
    map_drawn(sp, ram, TILEMAP_OFFSET + 1999, 1000)
}

/// Whether some tile that is drawn has the id 255, which the guardrails
/// refuse.
pub open spec fn has_bad_tile(ram: Seq<u16>) -> bool {
    ||| exists|i: int| 0 <= i < 1000 && #[trigger] ram[TILEMAP_OFFSET + i] & 0xff == 255
    ||| exists|j: int|
        0 <= j < 333 && !sprite_culled(ram, j) && #[trigger] ram[TILEMAP_OFFSET + 1000 + 3 * j] & 0xff
            == 255
    ||| exists|i: int| 0 <= i < 1000 && #[trigger] ram[TILEMAP_OFFSET + 1999 + i] & 0xff == 255
}

/// Tile 0 is transparent: drawing it leaves the canvas as it was.
pub proof fn lemma_tile_zero_draws_nothing(frame: Seq<(u8, u8, u8)>, ram: Seq<u16>, flags: int, x: int, y: int)
    ensures
        tile_drawn(frame, ram, 0, flags, x, y) == frame,
{
    assert(tile_drawn(frame, ram, 0, flags, x, y) =~= frame);
}

/// A tile changes only the pixels of its 8x8 square, and among them only
/// those whose palette index is not 0, which take their palette color.
pub proof fn lemma_tile_touches_its_square(
    frame: Seq<(u8, u8, u8)>,
    ram: Seq<u16>,
    id: int,
    flags: int,
    x: int,
    y: int,
    tx: int,
    ty: int,
)
    requires
        0 <= tx < 320,
        0 <= ty < 200,
        frame.len() == CANVAS_PIXELS,
    ensures
        !(x <= tx < x + 8 && y <= ty < y + 8) ==> tile_drawn(frame, ram, id, flags, x, y)[ty * 320 + tx]
            == frame[ty * 320 + tx],
        (id != 0 && x <= tx < x + 8 && y <= ty < y + 8) ==> {
            let l = tile_local(flags, x, y, tx, ty);
            let c = tile_color(ram, id, l.0, l.1);
            tile_drawn(frame, ram, id, flags, x, y)[ty * 320 + tx] == if c == 0 {
                frame[ty * 320 + tx]
            } else {
                rgb(ram[PALETTE_OFFSET + c])
            }
        },
{
    lemma_pixel(tx, ty);
}

/// The flags mirror a tile: bit 1 left to right, bit 0 top to bottom. Pixel
/// `(px, py)` of the tile lands at column `x + 7 - px` or `x + px` and row
/// `y + 7 - py` or `y + py`, where it shows its palette color unless its
/// palette index is 0.
pub proof fn lemma_flip_flags(
    frame: Seq<(u8, u8, u8)>,
    ram: Seq<u16>,
    id: int,
    flags: int,
    x: int,
    y: int,
    px: int,
    py: int,
)
    requires
        0 <= px < 8,
        0 <= py < 8,
        id != 0,
        frame.len() == CANVAS_PIXELS,
        0 <= x + (if (flags / 2) % 2 == 1 { 7 - px } else { px }) < 320,
        0 <= y + (if flags % 2 == 1 { 7 - py } else { py }) < 200,
    ensures
        ({
            let tx = x + (if (flags / 2) % 2 == 1 { 7 - px } else { px });
            let ty = y + (if flags % 2 == 1 { 7 - py } else { py });
            let c = tile_color(ram, id, px, py);
            tile_drawn(frame, ram, id, flags, x, y)[ty * 320 + tx] == if c == 0 {
                frame[ty * 320 + tx]
            } else {
                rgb(ram[PALETTE_OFFSET + c])
            }
        }),
{
    let tx = x + (if (flags / 2) % 2 == 1 { 7 - px } else { px });
    let ty = y + (if flags % 2 == 1 { 7 - py } else { py });
    lemma_pixel(tx, ty);
    assert(tile_local(flags, x, y, tx, ty) == (px, py));
}

/// Tile `id` (numbered from 1) takes the 16 words from address
/// `1000 + 16 * (id - 1)` on: two words per row of eight pixels, four pixels
/// of four bits per word, the row's first pixel in the highest four bits of
/// its first word. Drawn without flags at `(x, y)`, pixel `(lx, ly)` of the
/// tile shows the color at address `300` plus its four bits, unless they are 0,
/// where the canvas keeps what it had.
pub proof fn lemma_tile_memory(
    frame: Seq<(u8, u8, u8)>,
    ram: Seq<u16>,
    id: int,
    x: int,
    y: int,
    lx: int,
    ly: int,
)
    requires
        id >= 1,
        0 <= lx < 8,
        0 <= ly < 8,
        frame.len() == CANVAS_PIXELS,
        0 <= x + lx < 320,
        0 <= y + ly < 200,
    ensures
        ({
            let w = ram[1000 + 16 * (id - 1) + 2 * ly + lx / 4];
            let c = ((w >> ((12 - 4 * (lx % 4)) as u16)) & 0xf) as int;
            let p = (y + ly) * 320 + (x + lx);
            &&& tile_color(ram, id, lx, ly) == c
            &&& tile_drawn(frame, ram, id, 0, x, y)[p] == if c == 0 {
                frame[p]
            } else {
                rgb(ram[300 + c])
            }
        }),
{
    lemma_flip_flags(frame, ram, id, 0, x, y, lx, ly);
}

/// Where tile `i` of a 40x25 map stands.
pub open spec fn map_x(i: int) -> int {
    (i * 8) % 320
}

pub open spec fn map_y(i: int) -> int {
    (i / 40) * 8
}

proof fn lemma_map_position(i: int)
    requires
        0 <= i < 1000,
    ensures
        map_x(i) == (i % 40) * 8,
        0 <= map_x(i) <= 312,
        0 <= map_y(i) <= 192,
{
    vstd::arithmetic::div_mod::lemma_fundamental_div_mod(i, 40);
    assert(i * 8 == (i / 40) * 320 + (i % 40) * 8);
    vstd::arithmetic::div_mod::lemma_fundamental_div_mod_converse_mod(i * 8, 320, i / 40, (i % 40) * 8);
}

/// The squares of two different tiles of a map do not overlap.
proof fn lemma_map_squares_apart(i: int, j: int, tx: int, ty: int)
    requires
        0 <= i < 1000,
        0 <= j < 1000,
        i != j,
        map_x(i) <= tx < map_x(i) + 8,
        map_y(i) <= ty < map_y(i) + 8,
    ensures
        !(map_x(j) <= tx < map_x(j) + 8 && map_y(j) <= ty < map_y(j) + 8),
{
    lemma_map_position(i);
    lemma_map_position(j);
    vstd::arithmetic::div_mod::lemma_fundamental_div_mod(i, 40);
    vstd::arithmetic::div_mod::lemma_fundamental_div_mod(j, 40);
}

/// In a map, a pixel of tile `i` that is not transparent stays on the canvas
/// whatever tiles of the map come after it.
proof fn lemma_map_tile_stays(
    frame: Seq<(u8, u8, u8)>,
    ram: Seq<u16>,
    base: int,
    k: int,
    i: int,
    px: int,
    py: int,
)
    requires
        0 <= i < k <= 1000,
        0 <= px < 8,
        0 <= py < 8,
        frame.len() == CANVAS_PIXELS,
        word_id(ram[base + i]) != 0,
        tile_color(ram, word_id(ram[base + i]), px, py) != 0,
    ensures
        ({
            let f = word_flags(ram[base + i]);
            let tx = map_x(i) + (if (f / 2) % 2 == 1 { 7 - px } else { px });
            let ty = map_y(i) + (if f % 2 == 1 { 7 - py } else { py });
            map_drawn(frame, ram, base, k)[ty * 320 + tx] == rgb(
                ram[PALETTE_OFFSET + tile_color(ram, word_id(ram[base + i]), px, py)],
            )
        }),
    decreases k,
{
    let f = word_flags(ram[base + i]);
    let tx = map_x(i) + (if (f / 2) % 2 == 1 { 7 - px } else { px });
    let ty = map_y(i) + (if f % 2 == 1 { 7 - py } else { py });
    lemma_map_position(i);
    lemma_pixel(tx, ty);
    lemma_map_drawn_len(frame, ram, base, k - 1);
    if k == i + 1 {
        lemma_flip_flags(map_drawn(frame, ram, base, i), ram, word_id(ram[base + i]), f, map_x(i), map_y(i), px, py);
    } else {
        lemma_map_tile_stays(frame, ram, base, k - 1, i, px, py);
        let j = k - 1;
        lemma_map_squares_apart(i, j, tx, ty);
        lemma_tile_touches_its_square(
            map_drawn(frame, ram, base, j),
            ram,
            word_id(ram[base + j]),
            word_flags(ram[base + j]),
            map_x(j),
            map_y(j),
            tx,
            ty,
        );
    }
}

proof fn lemma_map_drawn_len(frame: Seq<(u8, u8, u8)>, ram: Seq<u16>, base: int, k: int)
    ensures
        map_drawn(frame, ram, base, k).len() == frame.len(),
    decreases k,
{
    if k > 0 {
        lemma_map_drawn_len(frame, ram, base, k - 1);
    }
}

proof fn lemma_sprites_drawn_len(frame: Seq<(u8, u8, u8)>, ram: Seq<u16>, k: int)
    ensures
        sprites_drawn(frame, ram, k).len() == frame.len(),
    decreases k,
{
    if k > 0 {
        lemma_sprites_drawn_len(frame, ram, k - 1);
    }
}

/// The layers are drawn background, sprites, foreground: a pixel of a
/// foreground tile that is not transparent shows its color in the picture,
/// whatever the background and the sprites hold there.
pub proof fn lemma_foreground_on_top(ram: Seq<u16>, i: int, px: int, py: int)
    requires
        0 <= i < 1000,
        0 <= px < 8,
        0 <= py < 8,
        ram.len() == 65535,
        word_id(ram[TILEMAP_OFFSET + 1999 + i]) != 0,
        tile_color(ram, word_id(ram[TILEMAP_OFFSET + 1999 + i]), px, py) != 0,
    ensures
        ({
            let w = ram[TILEMAP_OFFSET + 1999 + i];
            let f = word_flags(w);
            let tx = map_x(i) + (if (f / 2) % 2 == 1 { 7 - px } else { px });
            let ty = map_y(i) + (if f % 2 == 1 { 7 - py } else { py });
            picture(ram)[ty * 320 + tx] == rgb(ram[PALETTE_OFFSET + tile_color(ram, word_id(w), px, py)])
        }),
{
    let clear = Seq::new(CANVAS_PIXELS as nat, |p: int| rgb(ram[PALETTE_OFFSET as int]));
    let bg = map_drawn(clear, ram, TILEMAP_OFFSET as int, 1000);
    lemma_map_drawn_len(clear, ram, TILEMAP_OFFSET as int, 1000);
    let sp = sprites_drawn(bg, ram, 333);
    lemma_sprites_drawn_len(bg, ram, 333);
    lemma_map_tile_stays(sp, ram, TILEMAP_OFFSET + 1999, 1000, i, px, py);
}

/// The canvas and whether it is shown.
pub struct Renderer {
    frame: Vec<(u8, u8, u8)>,
    surface_visible: bool,
    guardrails: bool,
}

proof fn lemma_pixel(tx: int, ty: int)
    requires
        0 <= tx < 320,
        0 <= ty,
    ensures
        (ty * 320 + tx) % 320 == tx,
        (ty * 320 + tx) / 320 == ty,
{
    vstd::arithmetic::div_mod::lemma_fundamental_div_mod_converse_mod(ty * 320 + tx, 320, ty, tx);
    vstd::arithmetic::div_mod::lemma_fundamental_div_mod_converse_div(ty * 320 + tx, 320, ty, tx);
}

/// The pixels of `old` up to row `cy`, column `cx` (in reading order) with
/// the tile drawn, and the others as they were.
pub open spec fn partly_drawn(
    old: Seq<(u8, u8, u8)>,
    ram: Seq<u16>,
    id: int,
    flags: int,
    x: int,
    y: int,
    cy: int,
    cx: int,
) -> Seq<(u8, u8, u8)> {
    Seq::new(
        old.len(),
        |p: int|
            if p / 320 < cy || (p / 320 == cy && p % 320 < cx) {
                tile_px(old, ram, id, flags, x, y, p)
            } else {
                old[p]
            },
    )
}

impl Renderer {
    pub closed spec fn wf(&self) -> bool {
        self.frame@.len() == CANVAS_PIXELS
    }

    /// The canvas, row by row from the top left.
    pub closed spec fn canvas(&self) -> Seq<(u8, u8, u8)> {
        self.frame@
    }

    pub closed spec fn visible(&self) -> bool {
        self.surface_visible
    }

    pub closed spec fn guarded(&self) -> bool {
        self.guardrails
    }

    /// A black, visible canvas; with `guardrails`, drawing a tile with the id
    /// 255 is refused.
    pub fn new(guardrails: bool) -> (r: Renderer)
        ensures
            r.wf(),
            r.canvas() == Seq::new(CANVAS_PIXELS as nat, |p: int| (0u8, 0u8, 0u8)),
            r.visible(),
            r.guarded() == guardrails,
    {
        let mut frame: Vec<(u8, u8, u8)> = Vec::new();
        let mut i: usize = 0;
        while i < CANVAS_PIXELS
            invariant
                0 <= i <= CANVAS_PIXELS,
                frame@ == Seq::new(i as nat, |p: int| (0u8, 0u8, 0u8)),
            decreases CANVAS_PIXELS - i,
        {
            frame.push((0, 0, 0));
            i = i + 1;
            proof {
                assert(frame@ =~= Seq::new(i as nat, |p: int| (0u8, 0u8, 0u8)));
            }
        }
        Renderer { frame, surface_visible: true, guardrails }
    }

    /// The surface is shown only while it has an area; returns whether the
    /// outside pixel buffer is to be resized.
    pub fn resize_surface(&mut self, width: u32, height: u32) -> (resize: bool)
        ensures
            final(self).canvas() == old(self).canvas(),
            final(self).guarded() == old(self).guarded(),
            final(self).wf() == old(self).wf(),
            final(self).visible() == (width != 0 && height != 0),
            resize == (width != 0 && height != 0),
    {
        if width == 0 || height == 0 {
            self.surface_visible = false;
            false
        } else {
            self.surface_visible = true;
            true
        }
    }

    /// Whether the canvas is to be shown.
    pub fn is_visible(&self) -> (r: bool)
        ensures
            r == self.visible(),
    {
        self.surface_visible
    }

    /// The color of pixel `p` of the canvas.
    pub fn pixel(&self, p: usize) -> (r: (u8, u8, u8))
        requires
            self.wf(),
            p < CANVAS_PIXELS,
        ensures
            r == self.canvas()[p as int],
    {
        self.frame[p]
    }

    /// Draws tile `id` with `flags` at `(x, y)`; pixels beyond the canvas are
    /// left out. An id of 255 or more is refused with the guardrails, and else
    /// draws nothing.
    pub fn draw_tile(&mut self, ram_slice: &Vec<u16>, id: usize, flags: u8, x: usize, y: usize) -> (ok: bool)
        requires
            old(self).wf(),
            ram_slice@.len() == 65535,
            x <= usize::MAX - 8,
            y <= usize::MAX - 8,
        ensures
            final(self).wf(),
            final(self).visible() == old(self).visible(),
            final(self).guarded() == old(self).guarded(),
            ok == !(id >= 255 && old(self).guarded()),
            ok ==> final(self).canvas() == tile_drawn(
                old(self).canvas(),
                ram_slice@,
                if id >= 255 { 0 } else { id as int },
                flags as int,
                x as int,
                y as int,
            ),
    {
        let mut id = id;
        if id >= 255 {
            if self.guardrails {
                return false;
            } else {
                id = 0;
            }
        }
        let ghost old_frame = self.frame@;
        if id == 0 {
            proof {
                assert(self.frame@ =~= tile_drawn(old_frame, ram_slice@, 0, flags as int, x as int, y as int));
            }
            return true;
        }
        let x_flipped = (flags / 2) % 2 == 1;
        let y_flipped = flags % 2 == 1;
        let x_end: usize = if x + 8 < CANVAS_WIDTH { x + 8 } else { CANVAS_WIDTH };
        let y_end: usize = if y + 8 < CANVAS_HEIGHT { y + 8 } else { CANVAS_HEIGHT };
        let base: usize = TILESHEET_OFFSET + (id - 1) * 16;
        let ghost want = tile_drawn(old_frame, ram_slice@, id as int, flags as int, x as int, y as int);
        let mut ty: usize = y;
        proof {
            assert(self.frame@ =~= partly_drawn(old_frame, ram_slice@, id as int, flags as int, x as int, y as int, y as int, 0));
        }
        while ty < y_end
            invariant
                self.wf(),
                self.surface_visible == old(self).surface_visible,
                self.guardrails == old(self).guardrails,
                ram_slice@.len() == 65535,
                1 <= id < 255,
                x <= usize::MAX - 8,
                y <= ty,
                ty <= y_end || y_end < y,
                y_end == (if y + 8 < 200 { y + 8 } else { 200 }),
                x_end == (if x + 8 < 320 { x + 8 } else { 320 }),
                base == 1000 + (id - 1) * 16,
                x_flipped == ((flags / 2) % 2 == 1),
                y_flipped == (flags % 2 == 1),
                old_frame.len() == CANVAS_PIXELS,
                self.frame@ == partly_drawn(old_frame, ram_slice@, id as int, flags as int, x as int, y as int, ty as int, 0),
            decreases y_end - ty,
        {
            let mut tx: usize = x;
            proof {
                assert forall|p: int| 0 <= p < old_frame.len() implies #[trigger] partly_drawn(old_frame, ram_slice@, id as int, flags as int, x as int, y as int, ty as int, 0)[p]
                    == partly_drawn(old_frame, ram_slice@, id as int, flags as int, x as int, y as int, ty as int, x as int)[p] by {
                    if p / 320 == ty && p % 320 < x {
                        assert(tile_px(old_frame, ram_slice@, id as int, flags as int, x as int, y as int, p) == old_frame[p]);
                    }
                }
                assert(self.frame@ =~= partly_drawn(old_frame, ram_slice@, id as int, flags as int, x as int, y as int, ty as int, x as int));
            }
            while tx < x_end
                invariant
                    self.wf(),
                    self.surface_visible == old(self).surface_visible,
                    self.guardrails == old(self).guardrails,
                    ram_slice@.len() == 65535,
                    1 <= id < 255,
                    x <= tx,
                    tx <= x_end || x_end < x,
                    y <= ty < y_end,
                    y_end == (if y + 8 < 200 { y + 8 } else { 200 }),
                    x_end == (if x + 8 < 320 { x + 8 } else { 320 }),
                    base == 1000 + (id - 1) * 16,
                    x_flipped == ((flags / 2) % 2 == 1),
                    y_flipped == (flags % 2 == 1),
                    old_frame.len() == CANVAS_PIXELS,
                    self.frame@ == partly_drawn(old_frame, ram_slice@, id as int, flags as int, x as int, y as int, ty as int, tx as int),
                decreases x_end - tx,
            {
                let lx: usize = if x_flipped { 7 - (tx - x) } else { tx - x };
                let ly: usize = if y_flipped { 7 - (ty - y) } else { ty - y };
                let word = ram_slice[base + ly * 2 + lx / 4];
                let q = lx % 4;
                let sh: u16 = ((3 - q) * 4) as u16;
                let color_id = (word >> sh) & 0xf;
                let p = ty * CANVAS_WIDTH + tx;
                let ghost before = self.frame@;
                proof {
                    lemma_pixel(tx as int, ty as int);
                    assert(color_id <= 0xf) by (bit_vector)
                        requires
                            color_id == (word >> sh) & 0xf,
                    ;
                    assert(tile_local(flags as int, x as int, y as int, tx as int, ty as int) == (lx as int, ly as int));
                    assert(color_id as int == tile_color(ram_slice@, id as int, lx as int, ly as int));
                }
                if color_id != 0 {
                    let color = ram_slice[PALETTE_OFFSET + color_id as usize];
                    let c = rgb_from_rgb565(color);
                    self.frame.set(p, c);
                }
                proof {
                    assert(tile_px(old_frame, ram_slice@, id as int, flags as int, x as int, y as int, p as int)
                        == self.frame@[p as int]);
                    assert forall|r: int| 0 <= r < old_frame.len() implies #[trigger] self.frame@[r]
                        == partly_drawn(old_frame, ram_slice@, id as int, flags as int, x as int, y as int, ty as int, tx + 1)[r] by {
                        if r != p {
                            assert(self.frame@[r] == before[r]);
                            if r / 320 == ty && r % 320 == tx {
                                lemma_pixel(tx as int, ty as int);
                                vstd::arithmetic::div_mod::lemma_fundamental_div_mod(r, 320);
                                assert(r == ty * 320 + tx);
                            }
                        }
                    }
                    assert(self.frame@ =~= partly_drawn(old_frame, ram_slice@, id as int, flags as int, x as int, y as int, ty as int, tx + 1));
                }
                tx = tx + 1;
            }
            proof {
                assert forall|p: int| 0 <= p < old_frame.len() implies #[trigger] partly_drawn(old_frame, ram_slice@, id as int, flags as int, x as int, y as int, ty as int, tx as int)[p]
                    == partly_drawn(old_frame, ram_slice@, id as int, flags as int, x as int, y as int, ty + 1, 0)[p] by {
                    if p / 320 == ty && p % 320 >= tx {
                        assert(tile_px(old_frame, ram_slice@, id as int, flags as int, x as int, y as int, p) == old_frame[p]);
                    }
                }
                assert(self.frame@ =~= partly_drawn(old_frame, ram_slice@, id as int, flags as int, x as int, y as int, ty + 1, 0));
            }
            ty = ty + 1;
        }
        proof {
            assert forall|p: int| 0 <= p < old_frame.len() implies #[trigger] self.frame@[p] == want[p] by {
                if !(p / 320 < ty) {
                    assert(tile_px(old_frame, ram_slice@, id as int, flags as int, x as int, y as int, p) == old_frame[p]);
                }
            }
            assert(self.frame@ =~= want);
        }
        true
    }

    /// Draws the 1000 tiles of the map at `base`.
    fn draw_map(&mut self, ram_slice: &Vec<u16>, base: usize) -> (ok: bool)
        requires
            old(self).wf(),
            ram_slice@.len() == 65535,
            base + 1000 <= 65535,
        ensures
            final(self).wf(),
            final(self).visible() == old(self).visible(),
            final(self).guarded() == old(self).guarded(),
            ok == !(old(self).guarded() && exists|i: int| 0 <= i < 1000 && #[trigger] ram_slice@[base + i] & 0xff == 255),
            ok ==> final(self).canvas() == map_drawn(old(self).canvas(), ram_slice@, base as int, 1000),
    {
        let ghost start = self.frame@;
        let mut i: usize = 0;
        while i < 1000
            invariant
                self.wf(),
                self.surface_visible == old(self).surface_visible,
                self.guardrails == old(self).guardrails,
                ram_slice@.len() == 65535,
                base + 1000 <= 65535,
                start == old(self).canvas(),
                0 <= i <= 1000,
                self.guardrails ==> forall|k: int| 0 <= k < i ==> #[trigger] ram_slice@[base + k] & 0xff != 255,
                self.frame@ == map_drawn(start, ram_slice@, base as int, i as int),
            decreases 1000 - i,
        {
            let w = ram_slice[base + i];
            let id = (w & 0xff) as usize;
            let flags = (w >> 8u16) as u8;
            proof {
                assert(w & 0xff <= 255) by (bit_vector);
                assert(w >> 8u16 <= 255) by (bit_vector);
            }
            let x = (i * 8) % CANVAS_WIDTH;
            let y = (i / 40) * 8;
            let ok = self.draw_tile(ram_slice, id, flags, x, y);
            if !ok {
                return false;
            }
            proof {
                assert(word_id(w) == (if id >= 255 { 0 } else { id as int }));
            }
            i = i + 1;
        }
        true
    }

    /// Draws the 333 sprites; a sprite beyond the canvas is left out.
    fn draw_sprites(&mut self, ram_slice: &Vec<u16>) -> (ok: bool)
        requires
            old(self).wf(),
            ram_slice@.len() == 65535,
        ensures
            final(self).wf(),
            final(self).visible() == old(self).visible(),
            final(self).guarded() == old(self).guarded(),
            ok == !(old(self).guarded() && exists|j: int|
                0 <= j < 333 && !sprite_culled(ram_slice@, j) && #[trigger] ram_slice@[TILEMAP_OFFSET + 1000 + 3 * j] & 0xff == 255),
            ok ==> final(self).canvas() == sprites_drawn(old(self).canvas(), ram_slice@, 333),
    {
        let ghost start = self.frame@;
        let mut j: usize = 0;
        while j < 333
            invariant
                self.wf(),
                self.surface_visible == old(self).surface_visible,
                self.guardrails == old(self).guardrails,
                ram_slice@.len() == 65535,
                start == old(self).canvas(),
                0 <= j <= 333,
                self.guardrails ==> forall|k: int|
                    0 <= k < j && !sprite_culled(ram_slice@, k) ==> #[trigger] ram_slice@[TILEMAP_OFFSET + 1000 + 3 * k] & 0xff != 255,
                self.frame@ == sprites_drawn(start, ram_slice@, j as int),
            decreases 333 - j,
        {
            let at = TILEMAP_OFFSET + 1000 + 3 * j;
            let w = ram_slice[at];
            let sx = ram_slice[at + 1];
            let sy = ram_slice[at + 2];
            if sx as usize > CANVAS_WIDTH || sy as usize > CANVAS_HEIGHT {
            } else {
                let id = (w & 0xff) as usize;
                let flags = (w >> 8u16) as u8;
                proof {
                    assert(w & 0xff <= 255) by (bit_vector);
                    assert(w >> 8u16 <= 255) by (bit_vector);
                }
                let ok = self.draw_tile(ram_slice, id, flags, sx as usize, sy as usize);
                if !ok {
                    return false;
                }
                proof {
                    assert(word_id(w) == (if id >= 255 { 0 } else { id as int }));
                }
            }
            j = j + 1;
        }
        true
    }

    /// Draws the picture of memory `ram_slice` (see `picture`); with the
    /// guardrails, a drawn tile with the id 255 stops the drawing and gives
    /// `false`.
    pub fn draw(&mut self, ram_slice: &Vec<u16>) -> (ok: bool)
        requires
            old(self).wf(),
            ram_slice@.len() == 65535,
        ensures
            final(self).wf(),
            final(self).visible() == old(self).visible(),
            final(self).guarded() == old(self).guarded(),
            ok == !(old(self).guarded() && has_bad_tile(ram_slice@)),
            ok ==> final(self).canvas() == picture(ram_slice@),
    {
        let c = rgb_from_rgb565(ram_slice[PALETTE_OFFSET]);
        let ghost clear = Seq::new(CANVAS_PIXELS as nat, |p: int| rgb(ram_slice@[PALETTE_OFFSET as int]));
        let mut p: usize = 0;
        while p < CANVAS_PIXELS
            invariant
                self.wf(),
                self.surface_visible == old(self).surface_visible,
                self.guardrails == old(self).guardrails,
                c == rgb(ram_slice@[PALETTE_OFFSET as int]),
                ram_slice@.len() == 65535,
                0 <= p <= CANVAS_PIXELS,
                forall|q: int| 0 <= q < p ==> #[trigger] self.frame@[q] == c,
            decreases CANVAS_PIXELS - p,
        {
            self.frame.set(p, c);
            p = p + 1;
        }
        proof {
            assert(self.frame@ =~= clear);
        }
        if !self.draw_map(ram_slice, TILEMAP_OFFSET) {
            return false;
        }
        if !self.draw_sprites(ram_slice) {
            return false;
        }
        if !self.draw_map(ram_slice, TILEMAP_OFFSET + 1999) {
            return false;
        }
        true
    }
}

} // verus!
