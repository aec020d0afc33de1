use vstd::prelude::*;
use base64::Engine;
use vstd::string::StringSliceAdditionalSpecFns;
use crate::text::{chars_of, decimal, decimal_of, push_all, push_str, replace_all, replace_chars, string_of};
use crate::editor::tmux::{kitty_cmd, kitty_cmd_with_data, write_kitty_cmd_inner, write_kitty_cmd_with_data_inner};

verus! {

/// Combining marks that number rows and columns of Kitty's Unicode
/// placeholders, in the protocol's order.
pub const DIACRITICS: [char; 285] = [
    '\u{305}', '\u{30D}', '\u{30E}', '\u{310}', '\u{312}', '\u{33D}', '\u{33E}', '\u{33F}',
    '\u{346}', '\u{34A}', '\u{34B}', '\u{34C}', '\u{350}', '\u{351}', '\u{352}', '\u{357}',
    '\u{35B}', '\u{363}', '\u{364}', '\u{365}', '\u{366}', '\u{367}', '\u{368}', '\u{369}',
    '\u{36A}', '\u{36B}', '\u{36C}', '\u{36D}', '\u{36E}', '\u{36F}', '\u{483}', '\u{484}',
    '\u{485}', '\u{486}', '\u{487}', '\u{592}', '\u{593}', '\u{594}', '\u{595}', '\u{597}',
    '\u{598}', '\u{599}', '\u{59C}', '\u{59D}', '\u{59E}', '\u{59F}', '\u{5A0}', '\u{5A1}',
    '\u{5A8}', '\u{5A9}', '\u{5AB}', '\u{5AC}', '\u{5AF}', '\u{5C4}', '\u{610}', '\u{611}',
    '\u{612}', '\u{613}', '\u{614}', '\u{615}', '\u{616}', '\u{617}', '\u{657}', '\u{658}',
    '\u{659}', '\u{65A}', '\u{65B}', '\u{65D}', '\u{65E}', '\u{6D6}', '\u{6D7}', '\u{6D8}',
    '\u{6D9}', '\u{6DA}', '\u{6DB}', '\u{6DC}', '\u{6DF}', '\u{6E0}', '\u{6E1}', '\u{6E2}',
    '\u{6E4}', '\u{6E7}', '\u{6E8}', '\u{6EB}', '\u{6EC}', '\u{730}', '\u{732}', '\u{733}',
    '\u{735}', '\u{736}', '\u{73A}', '\u{73D}', '\u{73F}', '\u{740}', '\u{741}', '\u{743}',
    '\u{745}', '\u{747}', '\u{749}', '\u{74A}', '\u{7EB}', '\u{7EC}', '\u{7ED}', '\u{7EE}',
    '\u{7EF}', '\u{7F0}', '\u{7F1}', '\u{7F3}', '\u{816}', '\u{817}', '\u{818}', '\u{819}',
    '\u{81B}', '\u{81C}', '\u{81D}', '\u{81E}', '\u{81F}', '\u{820}', '\u{821}', '\u{822}',
    '\u{823}', '\u{825}', '\u{826}', '\u{827}', '\u{829}', '\u{82A}', '\u{82B}', '\u{82C}',
    '\u{82D}', '\u{951}', '\u{953}', '\u{954}', '\u{F82}', '\u{F83}', '\u{F86}', '\u{F87}',
    '\u{135D}', '\u{135E}', '\u{135F}', '\u{17DD}', '\u{193A}', '\u{1A17}', '\u{1A75}', '\u{1A76}',
    '\u{1A77}', '\u{1A78}', '\u{1A79}', '\u{1A7A}', '\u{1A7B}', '\u{1A7C}', '\u{1B6B}', '\u{1B6D}',
    '\u{1B6E}', '\u{1B6F}', '\u{1B70}', '\u{1B71}', '\u{1B72}', '\u{1B73}', '\u{1CD0}', '\u{1CD1}',
    '\u{1CD2}', '\u{1CDA}', '\u{1CDB}', '\u{1CE0}', '\u{1DC0}', '\u{1DC1}', '\u{1DC3}', '\u{1DC4}',
    '\u{1DC5}', '\u{1DC6}', '\u{1DC7}', '\u{1DC8}', '\u{1DC9}', '\u{1DCB}', '\u{1DCC}', '\u{1DD1}',
    '\u{1DD2}', '\u{1DD3}', '\u{1DD4}', '\u{1DD5}', '\u{1DD6}', '\u{1DD7}', '\u{1DD8}', '\u{1DD9}',
    '\u{1DDA}', '\u{1DDB}', '\u{1DDC}', '\u{1DDD}', '\u{1DDE}', '\u{1DDF}', '\u{1DE0}', '\u{1DE1}',
    '\u{1DE2}', '\u{1DE3}', '\u{1DE4}', '\u{1DE5}', '\u{1DE6}', '\u{1DFE}', '\u{20D0}', '\u{20D1}',
    '\u{20D4}', '\u{20D5}', '\u{20D6}', '\u{20D7}', '\u{20DB}', '\u{20DC}', '\u{20E1}', '\u{20E7}',
    '\u{20E9}', '\u{20F0}', '\u{2CEF}', '\u{2CF0}', '\u{2CF1}', '\u{2DE0}', '\u{2DE1}', '\u{2DE2}',
    '\u{2DE3}', '\u{2DE4}', '\u{2DE5}', '\u{2DE6}', '\u{2DE7}', '\u{2DE8}', '\u{2DE9}', '\u{2DEA}',
    '\u{2DEB}', '\u{2DEC}', '\u{2DED}', '\u{2DEE}', '\u{2DEF}', '\u{2DF0}', '\u{2DF1}', '\u{2DF2}',
    '\u{2DF3}', '\u{2DF4}', '\u{2DF5}', '\u{2DF6}', '\u{2DF7}', '\u{2DF8}', '\u{2DF9}', '\u{2DFA}',
    '\u{2DFB}', '\u{2DFC}', '\u{2DFD}', '\u{2DFE}', '\u{2DFF}', '\u{A66F}', '\u{A674}', '\u{A675}',
    '\u{A676}', '\u{A677}', '\u{A678}', '\u{A679}', '\u{A67A}', '\u{A67B}', '\u{A67C}', '\u{A67D}',
    '\u{A69E}', '\u{A69F}', '\u{A6F0}', '\u{A6F1}', '\u{A8E0}', '\u{A8E1}', '\u{A8E2}', '\u{A8E3}',
    '\u{A8E4}', '\u{A8E5}', '\u{A8E6}', '\u{A8E7}', '\u{A8E8}', '\u{A8E9}', '\u{A8EA}', '\u{A8EB}',
    '\u{A8EC}', '\u{A8ED}', '\u{A8EE}', '\u{A8EF}', '\u{A8F0}', '\u{A8F1}', '\u{FE20}', '\u{FE21}',
    '\u{FE22}', '\u{FE23}', '\u{FE24}', '\u{FE25}', '\u{FE26}',
];

/// How many image rows the placeholders can number.
pub fn max_rows() -> (r: u16)
    ensures
        r == 285,
{
    285
}

/// The mark numbering row `val`; the first mark past the table.
pub open spec fn diacritic_of(val: int) -> char {
    if 0 <= val < 285 { DIACRITICS@[val] } else { DIACRITICS@[0] }
}

fn diacritic(val: u16) -> (r: char)
    ensures
        r == diacritic_of(val as int),
{
    if (val as usize) < 285 {
        DIACRITICS[val as usize]
    } else {
        DIACRITICS[0]
    }
}

/// The character of the standard base64 alphabet (RFC 4648) for the
/// six-bit value `v`: `A`-`Z`, `a`-`z`, `0`-`9`, `+`, `/`.
pub open spec fn base64_digit(v: int) -> u8 {
    if v < 26 {
        (65 + v) as u8
    } else if v < 52 {
        (97 + v - 26) as u8
    } else if v < 62 {
        (48 + v - 52) as u8
    } else if v == 62 {
        43u8
    } else {
        47u8
    }
}

/// Standard base64 with padding (RFC 4648) of `bytes`: each group of three
/// bytes becomes four characters of six bits each; a last group of one or
/// two bytes is padded with `=` to four characters.
pub open spec fn base64_standard(bytes: Seq<u8>) -> Seq<u8>
    decreases bytes.len(),
{
    if bytes.len() == 0 {
        Seq::empty()
    } else if bytes.len() == 1 {
        let b0 = bytes[0] as int;
        seq![base64_digit(b0 / 4), base64_digit((b0 % 4) * 16), 61u8, 61u8]
    } else if bytes.len() == 2 {
        let b0 = bytes[0] as int;
        let b1 = bytes[1] as int;
        seq![base64_digit(b0 / 4), base64_digit((b0 % 4) * 16 + b1 / 16), base64_digit((b1 % 16) * 4), 61u8]
    } else {
        let b0 = bytes[0] as int;
        let b1 = bytes[1] as int;
        let b2 = bytes[2] as int;
        seq![
            base64_digit(b0 / 4),
            base64_digit((b0 % 4) * 16 + b1 / 16),
            base64_digit((b1 % 16) * 4 + b2 / 64),
            base64_digit(b2 % 64),
        ] + base64_standard(bytes.skip(3))
    }
}

/// Calls `base64::engine::general_purpose::STANDARD.encode` (the standard
/// alphabet with padding) and takes the bytes of the text it returns, which
/// the contract spells out. The crate panics when the encoded length
/// overflows `usize`; inputs of at most half that size stay clear of it.
#[verifier::external_body]
fn base64_encode(bytes: &[u8]) -> (r: Vec<u8>)
    requires
        bytes@.len() <= usize::MAX / 2,
    ensures
        r@ == base64_standard(bytes@),
{
    base64::engine::general_purpose::STANDARD.encode(bytes).into_bytes()
}


/// Commands needed for `n` bytes of base64 text.
pub open spec fn chunk_count(n: int) -> int {
    n / 4096 + if n % 4096 != 0 { 1int } else { 0int }
}

/// Parameters of the first data command: transmit with virtual placement.
pub open spec fn first_params(more: bool) -> Seq<u8> {
    if more {
        "i=31,a=T,U=1,f=100,t=d,m=1,q=2".spec_bytes()
    } else {
        "i=31,a=T,U=1,f=100,t=d,m=0,q=2".spec_bytes()
    }
}

/// Parameters of a later data command.
pub open spec fn next_params(more: bool) -> Seq<u8> {
    if more {
        "m=1".spec_bytes()
    } else {
        "m=0".spec_bytes()
    }
}

/// The data commands for chunks `idx..count` of the base64 text `b`.
pub open spec fn data_cmds(b: Seq<u8>, idx: int, count: int, tmux: bool) -> Seq<u8>
    decreases count - idx,
{
    if idx < 0 || idx >= count {
        Seq::empty()
    } else {
        let start = idx * 4096;
        let end = if start + 4096 < b.len() { start + 4096 } else { b.len() as int };
        let more = idx != count - 1;
        let params = if idx == 0 { first_params(more) } else { next_params(more) };
        kitty_cmd_with_data(params, b.subrange(start, end), tmux) + data_cmds(b, idx + 1, count, tmux)
    }
}

/// Everything sent to put a PNG image into the terminal: a command deleting
/// the previous image, then the base64 text in chunks of 4096 bytes.
pub open spec fn transmit_stream(png: Seq<u8>, tmux: bool) -> Seq<u8> {
    let b = base64_standard(png);
    kitty_cmd("a=d,d=I,i=31,q=2".spec_bytes(), tmux) + data_cmds(b, 0, chunk_count(b.len() as int), tmux)
}

fn byte_range(v: &Vec<u8>, from: usize, to: usize) -> (r: Vec<u8>)
    requires
        from <= to <= v@.len(),
    ensures
        r@ == v@.subrange(from as int, to as int),
{
    let mut out: Vec<u8> = Vec::new();
    let mut i = from;
    while i < to
        invariant
            from <= i <= to <= v@.len(),
            out@ == v@.subrange(from as int, i as int),
        decreases to - i,
    {
        out.push(v[i]);
        i += 1;
        assert(v@.subrange(from as int, i as int) =~= v@.subrange(from as int, i - 1).push(v@[i - 1]));
    }
    out
}

/// The bytes that transmit a PNG image through the Kitty graphics protocol,
/// wrapped for tmux when `tmux` is set.
pub fn transmit_bytes(png: &[u8], tmux: bool) -> (r: Vec<u8>)
    requires
        png@.len() <= usize::MAX / 2,
    ensures
        r@ == transmit_stream(png@, tmux),
{
    let mut out: Vec<u8> = Vec::new();
    let _ = write_kitty_cmd_inner(&mut out, "a=d,d=I,i=31,q=2", tmux);
    let b = base64_encode(png);
    let n = b.len();
    let count = n / 4096 + if n % 4096 != 0 { 1 } else { 0 };
    let ghost full = transmit_stream(png@, tmux);
    assert(out@ + data_cmds(b@, 0, count as int, tmux) == full);
    let mut idx: usize = 0;
    while idx < count
        invariant
            idx <= count,
            count as int == chunk_count(n as int),
            n == b@.len(),
            out@ + data_cmds(b@, idx as int, count as int, tmux) == full,
        decreases count - idx,
    {
        assert(idx * 4096 <= n) by (nonlinear_arith)
            requires
                idx < count,
                count as int == n / 4096 + if n % 4096 != 0 { 1int } else { 0int },
        ;
        let start = idx * 4096;
        let end = if n - start > 4096 { start + 4096 } else { n };
        let more = idx != count - 1;
        let chunk = byte_range(&b, start, end);
        let ghost before = out@;
        if idx == 0 {
            let params = if more { "i=31,a=T,U=1,f=100,t=d,m=1,q=2" } else { "i=31,a=T,U=1,f=100,t=d,m=0,q=2" };
            let _ = write_kitty_cmd_with_data_inner(&mut out, params, &chunk, tmux);
            assert(params.spec_bytes() == first_params(more));
        } else {
            let params = if more { "m=1" } else { "m=0" };
            let _ = write_kitty_cmd_with_data_inner(&mut out, params, &chunk, tmux);
            assert(params.spec_bytes() == next_params(more));
        }
        assert(out@ + data_cmds(b@, idx + 1, count as int, tmux) =~= before + data_cmds(b@, idx as int, count as int, tmux));
        idx += 1;
    }
    out
}

/// A Kitty graphics protocol image stored in terminal memory.
pub struct KittyImage {
    pub width: u32,
    pub height: u32,
    pub scroll_row: u16,
    pub max_rows: u16,
    pub id_color: String,
    pub id_extra: u16,
}

/// The escape setting the foreground to the color that encodes image 31.
pub open spec fn id_color_text() -> Seq<char> {
    "\x1b[38;2;"@ + decimal(0) + seq![';'] + decimal(0) + seq![';'] + decimal(31) + seq!['m']
}

impl KittyImage {
    /// The image just transmitted, `width` by `height` pixels: not scrolled,
    /// no rows known yet, its id (31) encoded as a foreground color.
    pub fn transmitted(width: u32, height: u32) -> (r: Self)
        ensures
            r.width == width,
            r.height == height,
            r.scroll_row == 0,
            r.max_rows == 0,
            r.id_color@ == id_color_text(),
            r.id_extra == 0,
    {
        let id: u32 = 31;
        let id_extra = id / 0x100_0000;
        let id_r = (id / 0x1_0000) % 0x100;
        let id_g = (id / 0x100) % 0x100;
        let id_b = id % 0x100;
        let mut c = chars_of("\x1b[38;2;");
        push_all(&mut c, &decimal_of(id_r as usize));
        c.push(';');
        push_all(&mut c, &decimal_of(id_g as usize));
        c.push(';');
        push_all(&mut c, &decimal_of(id_b as usize));
        c.push('m');
        KittyImage {
            width,
            height,
            scroll_row: 0,
            max_rows: 0,
            id_color: string_of(&c),
            id_extra: id_extra as u16,
        }
    }

    /// Record how many rows the image covers (rows past the diacritic table
    /// cannot be shown).
    pub fn set_max_rows(&mut self, max_rows: u16)
        ensures
            final(self).max_rows == max_rows,
            final(self).scroll_row == old(self).scroll_row,
            final(self).width == old(self).width,
            final(self).height == old(self).height,
    {
        self.max_rows = max_rows;
    }

    /// How many rows the image covers.
    pub fn max_rows(&self) -> (r: u16)
        ensures
            r == self.max_rows,
    {
        self.max_rows
    }

    /// Scroll `rows` down, stopping where the last `visible_rows` rows show.
    pub fn scroll_down(&mut self, rows: u16, visible_rows: u16)
        requires
            old(self).scroll_row + rows <= u16::MAX,
        ensures
            ({
                let max_scroll = if old(self).max_rows > visible_rows { old(self).max_rows - visible_rows } else { 0 };
                final(self).scroll_row == if old(self).scroll_row + rows < max_scroll {
                    old(self).scroll_row + rows
                } else {
                    max_scroll
                }
            }),
            *final(self) == (KittyImage { scroll_row: final(self).scroll_row, ..*old(self) }),
    {
        let max_scroll = self.max_rows.saturating_sub(visible_rows);
        let want = self.scroll_row + rows;
        self.scroll_row = if want < max_scroll { want } else { max_scroll };
    }

    /// Scroll `rows` up, stopping at the top.
    pub fn scroll_up(&mut self, rows: u16)
        ensures
            final(self).scroll_row == if old(self).scroll_row > rows { old(self).scroll_row - rows } else { 0 },
            *final(self) == (KittyImage { scroll_row: final(self).scroll_row, ..*old(self) }),
    {
        self.scroll_row = self.scroll_row.saturating_sub(rows);
    }

    /// The text put into the first cell of row `y` of the area at (`left`,
    /// `top`), `width` by `height` cells: the placeholder for image row
    /// `y + scroll_row` followed by placeholders for the rest of the row.
    /// `None` once the image row is past the diacritic table.
    pub fn placeholder_row(&self, y: u16, left: u16, top: u16, width: u16, height: u16, in_tmux: bool) -> (r: Option<String>)
        requires
            y + self.scroll_row <= u16::MAX,
            in_tmux ==> top + y + 1 <= u16::MAX && left + 1 <= u16::MAX,
            !in_tmux ==> width >= 1 && height >= 1,
        ensures
            match r {
                None => y + self.scroll_row >= 285,
                Some(t) => y + self.scroll_row < 285 && t@ == placeholder_text(
                    self.id_color@,
                    self.id_extra as int,
                    (y + self.scroll_row) as int,
                    left as int,
                    (top + y) as int,
                    width as int,
                    height as int,
                    in_tmux,
                ),
            },
    {
        let img_row = y + self.scroll_row;
        if img_row >= 285 {
            return None;
        }
        let mut sym: Vec<char> = Vec::new();
        if in_tmux {
            push_str(&mut sym, "\x1bPtmux;\x1b\x1b[");
            push_all(&mut sym, &decimal_of((top + y + 1) as usize));
            sym.push(';');
            push_all(&mut sym, &decimal_of((left + 1) as usize));
            sym.push('H');
            let color = chars_of(self.id_color.as_str());
            let esc = vec_of1('\x1b');
            let esc2 = vec_of2('\x1b', '\x1b');
            let doubled = replace_chars(&color, &esc, &esc2);
            push_all(&mut sym, &doubled);
        } else {
            push_str(&mut sym, "\x1b[s");
            push_str(&mut sym, self.id_color.as_str());
        }
        sym.push('\u{10EEEE}');
        sym.push(diacritic(img_row));
        sym.push(diacritic(0));
        sym.push(diacritic(self.id_extra));
        let fill = if width > 0 { width - 1 } else { 0 };
        let mut k: u16 = 0;
        let ghost base = sym@;
        while k < fill
            invariant
                k <= fill,
                sym@ == base + Seq::new(k as nat, |i: int| '\u{10EEEE}'),
            decreases fill - k,
        {
            sym.push('\u{10EEEE}');
            k += 1;
            assert(sym@ =~= base + Seq::new(k as nat, |i: int| '\u{10EEEE}'));
        }
        if in_tmux {
            push_str(&mut sym, "\x1b\\");
        } else {
            push_str(&mut sym, "\x1b[u\x1b[");
            push_all(&mut sym, &decimal_of((width - 1) as usize));
            push_str(&mut sym, "C\x1b[");
            push_all(&mut sym, &decimal_of((height - 1) as usize));
            sym.push('B');
        }
        Some(string_of(&sym))
    }
}

/// The parameters placing the visible part of the image: the crop starting
/// `src_y` pixels down, `src_w` by `src_h` pixels, over `cols` by `rows` cells.
pub open spec fn place_params(src_y: int, src_w: int, src_h: int, cols: int, rows: int) -> Seq<char> {
    "a=p,i=31,x=0,y="@ + decimal(src_y as nat) + ",w="@ + decimal(src_w as nat) + ",h="@ + decimal(src_h as nat)
        + ",c="@ + decimal(cols as nat) + ",r="@ + decimal(rows as nat) + ",C=1,q=2"@
}

/// The cursor move and placement command for the image at (`left`, `top`)
/// with `params`, in one tmux passthrough when `in_tmux`.
pub open spec fn place_text(left: int, top: int, params: Seq<char>, in_tmux: bool) -> Seq<char> {
    let pos = decimal((top + 1) as nat) + seq![';'] + decimal((left + 1) as nat) + seq!['H'];
    if in_tmux {
        "\x1bPtmux;\x1b\x1b["@ + pos + "\x1b\x1b_G"@ + params + "\x1b\x1b\\\x1b\\"@
    } else {
        "\x1b["@ + pos + "\x1b_G"@ + params + "\x1b\\"@
    }
}

impl KittyImage {
    /// The text that places the visible part of the image directly over the
    /// area at (`left`, `top`), `width` by `height` cells, with cells of
    /// `font_width` by `font_height` pixels (used inside tmux, where Unicode
    /// placeholders do not survive). It is written after the command deleting
    /// the previous placement.
    #[verifier::rlimit(30)]
    pub fn place_direct_text(
        &self,
        left: u16,
        top: u16,
        width: u16,
        height: u16,
        font_width: u32,
        font_height: u32,
        in_tmux: bool,
    ) -> (r: String)
        requires
            self.scroll_row * font_height <= u32::MAX,
            width * font_width <= u32::MAX,
            height * font_height <= u32::MAX,
            top + 1 <= u16::MAX,
            left + 1 <= u16::MAX,
        ensures
            ({
                let src_y = self.scroll_row * font_height;
                let w = width * font_width;
                let src_w = if w < self.width { w } else { self.width as int };
                let rest = if self.height > src_y { self.height - src_y } else { 0 };
                let h = height * font_height;
                let src_h = if h < rest { h } else { rest };
                r@ == place_text(left as int, top as int, place_params(src_y, src_w, src_h, width as int, height as int), in_tmux)
            }),
    {
        let src_y = self.scroll_row as u32 * font_height;
        let w = width as u32 * font_width;
        let src_w = if w < self.width { w } else { self.width };
        let rest = self.height.saturating_sub(src_y);
        let h = height as u32 * font_height;
        let src_h = if h < rest { h } else { rest };
        let mut params = chars_of("a=p,i=31,x=0,y=");
        push_all(&mut params, &decimal_of(src_y as usize));
        push_str(&mut params, ",w=");
        push_all(&mut params, &decimal_of(src_w as usize));
        push_str(&mut params, ",h=");
        push_all(&mut params, &decimal_of(src_h as usize));
        push_str(&mut params, ",c=");
        push_all(&mut params, &decimal_of(width as usize));
        push_str(&mut params, ",r=");
        push_all(&mut params, &decimal_of(height as usize));
        push_str(&mut params, ",C=1,q=2");
        let mut pos = decimal_of((top + 1) as usize);
        pos.push(';');
        push_all(&mut pos, &decimal_of((left + 1) as usize));
        pos.push('H');
        let mut out: Vec<char> = Vec::new();
        if in_tmux {
            push_str(&mut out, "\x1bPtmux;\x1b\x1b[");
            push_all(&mut out, &pos);
            push_str(&mut out, "\x1b\x1b_G");
            push_all(&mut out, &params);
            push_str(&mut out, "\x1b\x1b\\\x1b\\");
        } else {
            push_str(&mut out, "\x1b[");
            push_all(&mut out, &pos);
            push_str(&mut out, "\x1b_G");
            push_all(&mut out, &params);
            push_str(&mut out, "\x1b\\");
        }
        string_of(&out)
    }
}

fn vec_of1(a: char) -> (r: Vec<char>)
    ensures
        r@ == seq![a],
{
    let mut v: Vec<char> = Vec::new();
    v.push(a);
    assert(v@ =~= seq![a]);
    v
}

fn vec_of2(a: char, b: char) -> (r: Vec<char>)
    ensures
        r@ == seq![a, b],
{
    let mut v: Vec<char> = Vec::new();
    v.push(a);
    v.push(b);
    assert(v@ =~= seq![a, b]);
    v
}

/// The placeholder text of one row (see `KittyImage::placeholder_row`).
pub open spec fn placeholder_text(
    id_color: Seq<char>,
    id_extra: int,
    img_row: int,
    left: int,
    term_top: int,
    width: int,
    height: int,
    in_tmux: bool,
) -> Seq<char> {
    let head = if in_tmux {
        "\x1bPtmux;\x1b\x1b["@ + decimal((term_top + 1) as nat) + seq![';'] + decimal((left + 1) as nat) + seq!['H']
            + replace_all(id_color, seq!['\x1b'], seq!['\x1b', '\x1b'])
    } else {
        "\x1b[s"@ + id_color
    };
    let marks = seq!['\u{10EEEE}', diacritic_of(img_row), diacritic_of(0), diacritic_of(id_extra)];
    let fill = Seq::new((if width > 0 { width - 1 } else { 0 }) as nat, |i: int| '\u{10EEEE}');
    let tail = if in_tmux {
        "\x1b\\"@
    } else {
        "\x1b[u\x1b["@ + decimal((width - 1) as nat) + "C\x1b["@ + decimal((height - 1) as nat) + seq!['B']
    };
    head + marks + fill + tail
}

} // verus!
