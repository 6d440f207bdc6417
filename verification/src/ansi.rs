use vstd::prelude::*;
use crate::style::{Color, Style};

verus! {

/// The control sequence introducer: ESC `[`.
pub open spec fn csi() -> Seq<u8> {
    seq![0x1bu8, 0x5bu8]
}

/// The decimal digits of `n`, most significant first, as ASCII bytes.
pub open spec fn dec_digits(n: nat) -> Seq<u8>
    decreases n,
{
    if n < 10 {
        seq![(0x30 + n) as u8]
    } else {
        dec_digits(n / 10) + seq![(0x30 + n % 10) as u8]
    }
}

/// CSI `?25l`: hide the cursor.
pub open spec fn hide_bytes() -> Seq<u8> {
    csi() + seq![0x3fu8, 0x32u8, 0x35u8, 0x6cu8]
}

/// CSI `?25h`: show the cursor.
pub open spec fn show_bytes() -> Seq<u8> {
    csi() + seq![0x3fu8, 0x32u8, 0x35u8, 0x68u8]
}

/// CSI `?1049h`: enter the alternate screen buffer.
pub open spec fn enter_alternate_bytes() -> Seq<u8> {
    csi() + seq![0x3fu8, 0x31u8, 0x30u8, 0x34u8, 0x39u8, 0x68u8]
}

/// CSI `?1049l`: leave the alternate screen buffer.
pub open spec fn leave_alternate_bytes() -> Seq<u8> {
    csi() + seq![0x3fu8, 0x31u8, 0x30u8, 0x34u8, 0x39u8, 0x6cu8]
}

/// CSI `2J`: clear the whole screen.
pub open spec fn clear_all_bytes() -> Seq<u8> {
    csi() + seq![0x32u8, 0x4au8]
}

/// CSI `{y+1};{x+1}H`: move the cursor to the zero-indexed column `x` of the
/// zero-indexed row `y`.
pub open spec fn move_to_bytes(x: u16, y: u16) -> Seq<u8> {
    csi() + dec_digits((y + 1) as nat) + seq![0x3bu8] + dec_digits((x + 1) as nat) + seq![0x48u8]
}

/// CSI `{n}C`: move the cursor `n` columns to the right.
pub open spec fn move_right_bytes(n: u16) -> Seq<u8> {
    csi() + dec_digits(n as nat) + seq![0x43u8]
}

/// CSI `{n}D`: move the cursor `n` columns to the left.
pub open spec fn move_left_bytes(n: u16) -> Seq<u8> {
    csi() + dec_digits(n as nat) + seq![0x44u8]
}

/// CSI `{n}A`: move the cursor `n` rows up.
pub open spec fn move_up_bytes(n: u16) -> Seq<u8> {
    csi() + dec_digits(n as nat) + seq![0x41u8]
}

/// `n` newline characters: moves the cursor down, growing the buffer at its
/// bottom.
pub open spec fn newline_bytes(n: nat) -> Seq<u8> {
    Seq::new(n, |i: int| 0x0au8)
}

/// CSI `0m`: reset all text attributes and colors.
pub open spec fn sgr_reset_bytes() -> Seq<u8> {
    csi() + seq![0x30u8, 0x6du8]
}

/// The 256-color palette index that stands for each named color, matching the
/// common terminal convention of bright colors at 8 through 15.
pub open spec fn color_index(c: Color) -> u8 {
    match c {
        Color::Black => 0,
        Color::DarkGrey => 8,
        Color::Red => 9,
        Color::DarkRed => 1,
        Color::Green => 10,
        Color::DarkGreen => 2,
        Color::Yellow => 11,
        Color::DarkYellow => 3,
        Color::Blue => 12,
        Color::DarkBlue => 4,
        Color::Magenta => 13,
        Color::DarkMagenta => 5,
        Color::Cyan => 14,
        Color::DarkCyan => 6,
        Color::White => 15,
        Color::Grey => 7,
        Color::Reset => 0,
    }
}

/// CSI `38;5;{i}m` to select a foreground color, or CSI `39m` for the
/// terminal's default foreground.
pub open spec fn foreground_bytes(c: Color) -> Seq<u8> {
    if c == Color::Reset {
        csi() + seq![0x33u8, 0x39u8, 0x6du8]
    } else {
        csi() + seq![0x33u8, 0x38u8, 0x3bu8, 0x35u8, 0x3bu8] + dec_digits(color_index(c) as nat)
            + seq![0x6du8]
    }
}

/// CSI `48;5;{i}m` to select a background color, or CSI `49m` for the
/// terminal's default background.
pub open spec fn background_bytes(c: Color) -> Seq<u8> {
    if c == Color::Reset {
        csi() + seq![0x34u8, 0x39u8, 0x6du8]
    } else {
        csi() + seq![0x34u8, 0x38u8, 0x3bu8, 0x35u8, 0x3bu8] + dec_digits(color_index(c) as nat)
            + seq![0x6du8]
    }
}

/// The full sequence that installs a style before printing a cell: bold,
/// italic and underline attributes, then the foreground and background
/// colors. Assumes the terminal is in its default state, as it is after every
/// styled print's trailing reset.
pub open spec fn style_prefix_bytes(style: Style) -> Seq<u8> {
    (if style.is_bold {
        csi() + seq![0x31u8, 0x6du8]
    } else {
        Seq::<u8>::empty()
    }) + (if style.is_italic {
        csi() + seq![0x33u8, 0x6du8]
    } else {
        Seq::<u8>::empty()
    }) + (if style.is_underline {
        csi() + seq![0x34u8, 0x6du8]
    } else {
        Seq::<u8>::empty()
    }) + (match style.foreground_color {
        Some(c) => foreground_bytes(c),
        None => Seq::<u8>::empty(),
    }) + (match style.background_color {
        Some(c) => background_bytes(c),
        None => Seq::<u8>::empty(),
    })
}

/// Append the decimal digits of `n` to `out`.
pub fn push_dec(out: &mut Vec<u8>, n: u32)
    ensures
        final(out)@ == old(out)@ + dec_digits(n as nat),
    decreases n,
{
    if n < 10 {
        out.push(0x30 + n as u8);
        proof {
            assert(out@ =~= old(out)@ + dec_digits(n as nat));
        }
    } else {
        push_dec(out, n / 10);
        out.push(0x30 + (n % 10) as u8);
        proof {
            assert(out@ =~= old(out)@ + dec_digits(n as nat));
        }
    }
}

/// Append the control sequence introducer to `out`.
fn push_csi(out: &mut Vec<u8>)
    ensures
        final(out)@ == old(out)@ + csi(),
{
    out.push(0x1b);
    out.push(0x5b);
    proof {
        assert(out@ =~= old(out)@ + csi());
    }
}

/// Append the hide-cursor sequence to `out`.
pub fn push_hide(out: &mut Vec<u8>)
    ensures
        final(out)@ == old(out)@ + hide_bytes(),
{
    push_csi(out);
    out.push(0x3f);
    out.push(0x32);
    out.push(0x35);
    out.push(0x6c);
    proof {
        assert(out@ =~= old(out)@ + hide_bytes());
    }
}

/// Append the show-cursor sequence to `out`.
pub fn push_show(out: &mut Vec<u8>)
    ensures
        final(out)@ == old(out)@ + show_bytes(),
{
    push_csi(out);
    out.push(0x3f);
    out.push(0x32);
    out.push(0x35);
    out.push(0x68);
    proof {
        assert(out@ =~= old(out)@ + show_bytes());
    }
}

/// Append the enter-alternate-screen sequence to `out`.
pub fn push_enter_alternate(out: &mut Vec<u8>)
    ensures
        final(out)@ == old(out)@ + enter_alternate_bytes(),
{
    push_csi(out);
    out.push(0x3f);
    out.push(0x31);
    out.push(0x30);
    out.push(0x34);
    out.push(0x39);
    out.push(0x68);
    proof {
        assert(out@ =~= old(out)@ + enter_alternate_bytes());
    }
}

/// Append the leave-alternate-screen sequence to `out`.
pub fn push_leave_alternate(out: &mut Vec<u8>)
    ensures
        final(out)@ == old(out)@ + leave_alternate_bytes(),
{
    push_csi(out);
    out.push(0x3f);
    out.push(0x31);
    out.push(0x30);
    out.push(0x34);
    out.push(0x39);
    out.push(0x6c);
    proof {
        assert(out@ =~= old(out)@ + leave_alternate_bytes());
    }
}

/// Append the clear-screen sequence to `out`.
pub fn push_clear_all(out: &mut Vec<u8>)
    ensures
        final(out)@ == old(out)@ + clear_all_bytes(),
{
    push_csi(out);
    out.push(0x32);
    out.push(0x4a);
    proof {
        assert(out@ =~= old(out)@ + clear_all_bytes());
    }
}

/// Append an absolute cursor motion to `out`.
pub fn push_move_to(out: &mut Vec<u8>, x: u16, y: u16)
    ensures
        final(out)@ == old(out)@ + move_to_bytes(x, y),
{
    push_csi(out);
    push_dec(out, y as u32 + 1);
    out.push(0x3b);
    push_dec(out, x as u32 + 1);
    out.push(0x48);
    proof {
        assert(out@ =~= old(out)@ + move_to_bytes(x, y));
    }
}

/// Append a move-right motion to `out`.
pub fn push_move_right(out: &mut Vec<u8>, n: u16)
    ensures
        final(out)@ == old(out)@ + move_right_bytes(n),
{
    push_csi(out);
    push_dec(out, n as u32);
    out.push(0x43);
    proof {
        assert(out@ =~= old(out)@ + move_right_bytes(n));
    }
}

/// Append a move-left motion to `out`.
pub fn push_move_left(out: &mut Vec<u8>, n: u16)
    ensures
        final(out)@ == old(out)@ + move_left_bytes(n),
{
    push_csi(out);
    push_dec(out, n as u32);
    out.push(0x44);
    proof {
        assert(out@ =~= old(out)@ + move_left_bytes(n));
    }
}

/// Append a move-up motion to `out`.
pub fn push_move_up(out: &mut Vec<u8>, n: u16)
    ensures
        final(out)@ == old(out)@ + move_up_bytes(n),
{
    push_csi(out);
    push_dec(out, n as u32);
    out.push(0x41);
    proof {
        assert(out@ =~= old(out)@ + move_up_bytes(n));
    }
}

/// Append `n` newline characters to `out`.
pub fn push_newlines(out: &mut Vec<u8>, n: u16)
    ensures
        final(out)@ == old(out)@ + newline_bytes(n as nat),
{
    let mut i: u16 = 0;
    while i < n
        invariant
            i <= n,
            out@ == old(out)@ + newline_bytes(i as nat),
        decreases n - i,
    {
        out.push(0x0a);
        i += 1;
        proof {
            assert(out@ =~= old(out)@ + newline_bytes(i as nat));
        }
    }
}

/// Append the attribute-and-color reset sequence to `out`.
pub fn push_sgr_reset(out: &mut Vec<u8>)
    ensures
        final(out)@ == old(out)@ + sgr_reset_bytes(),
{
    push_csi(out);
    out.push(0x30);
    out.push(0x6d);
    proof {
        assert(out@ =~= old(out)@ + sgr_reset_bytes());
    }
}

/// The palette index for a named color.
fn color_index_exec(c: Color) -> (r: u8)
    ensures
        r == color_index(c),
{
    match c {
        Color::Black => 0,
        Color::DarkGrey => 8,
        Color::Red => 9,
        Color::DarkRed => 1,
        Color::Green => 10,
        Color::DarkGreen => 2,
        Color::Yellow => 11,
        Color::DarkYellow => 3,
        Color::Blue => 12,
        Color::DarkBlue => 4,
        Color::Magenta => 13,
        Color::DarkMagenta => 5,
        Color::Cyan => 14,
        Color::DarkCyan => 6,
        Color::White => 15,
        Color::Grey => 7,
        Color::Reset => 0,
    }
}

/// Append a foreground color selection to `out`.
fn push_foreground(out: &mut Vec<u8>, c: Color)
    ensures
        final(out)@ == old(out)@ + foreground_bytes(c),
{
    push_csi(out);
    if let Color::Reset = c {
        out.push(0x33);
        out.push(0x39);
    } else {
        out.push(0x33);
        out.push(0x38);
        out.push(0x3b);
        out.push(0x35);
        out.push(0x3b);
        push_dec(out, color_index_exec(c) as u32);
    }
    out.push(0x6d);
    proof {
        assert(out@ =~= old(out)@ + foreground_bytes(c));
    }
}

/// Append a background color selection to `out`.
fn push_background(out: &mut Vec<u8>, c: Color)
    ensures
        final(out)@ == old(out)@ + background_bytes(c),
{
    push_csi(out);
    if let Color::Reset = c {
        out.push(0x34);
        out.push(0x39);
    } else {
        out.push(0x34);
        out.push(0x38);
        out.push(0x3b);
        out.push(0x35);
        out.push(0x3b);
        push_dec(out, color_index_exec(c) as u32);
    }
    out.push(0x6d);
    proof {
        assert(out@ =~= old(out)@ + background_bytes(c));
    }
}

/// Append the full style prefix for one styled print to `out`.
#[verifier::rlimit(100)]
pub fn push_style_prefix(out: &mut Vec<u8>, style: &Style)
    ensures
        final(out)@ == old(out)@ + style_prefix_bytes(*style),
{
    let ghost s0 = out@;
    let ghost p1 = if style.is_bold {
        csi() + seq![0x31u8, 0x6du8]
    } else {
        Seq::<u8>::empty()
    };
    let ghost p2 = if style.is_italic {
        csi() + seq![0x33u8, 0x6du8]
    } else {
        Seq::<u8>::empty()
    };
    let ghost p3 = if style.is_underline {
        csi() + seq![0x34u8, 0x6du8]
    } else {
        Seq::<u8>::empty()
    };
    let ghost p4 = match style.foreground_color {
        Some(c) => foreground_bytes(c),
        None => Seq::<u8>::empty(),
    };
    let ghost p5 = match style.background_color {
        Some(c) => background_bytes(c),
        None => Seq::<u8>::empty(),
    };
    if style.is_bold {
        push_csi(out);
        out.push(0x31);
        out.push(0x6d);
    }
    proof {
        assert(out@ =~= s0 + p1);
    }
    if style.is_italic {
        push_csi(out);
        out.push(0x33);
        out.push(0x6d);
    }
    proof {
        assert(out@ =~= s0 + p1 + p2);
    }
    if style.is_underline {
        push_csi(out);
        out.push(0x34);
        out.push(0x6d);
    }
    proof {
        assert(out@ =~= s0 + p1 + p2 + p3);
    }
    if let Some(c) = style.foreground_color {
        push_foreground(out, c);
    }
    proof {
        assert(out@ =~= s0 + p1 + p2 + p3 + p4);
    }
    if let Some(c) = style.background_color {
        push_background(out, c);
    }
    proof {
        assert(out@ =~= s0 + p1 + p2 + p3 + p4 + p5);
        assert(style_prefix_bytes(*style) == p1 + p2 + p3 + p4 + p5);
        assert(out@ =~= s0 + style_prefix_bytes(*style));
    }
}

} // verus!
