//! A dump of bytes as text: sixteen to a line, in hexadecimal and as
//! characters.

use vstd::prelude::*;

verus! {

/// Width of the two banner lines.
pub const BANNER_WIDTH: usize = 70;

/// Bytes shown on one line.
pub const ROW_BYTES: usize = 16;

pub const SPACE: u8 = 0x20;

pub const DASH: u8 = 0x2D;

pub const DOT: u8 = 0x2E;

pub const NEWLINE: u8 = 0x0A;

/// The character for a hexadecimal digit, in lower case.
pub open spec fn hex_digit(n: u8) -> u8 {
    if n < 10 {
        (0x30 + n) as u8
    } else {
        (0x61 + n - 10) as u8
    }
}

/// The hexadecimal column for position `pos`: two digits and a space, or
/// three spaces past the end of the data.
pub open spec fn hex_cell(data: Seq<u8>, pos: int) -> Seq<u8> {
    if pos < data.len() {
        seq![hex_digit(data[pos] / 16), hex_digit(data[pos] % 16), SPACE]
    } else {
        seq![SPACE, SPACE, SPACE]
    }
}

/// The character column for position `pos`: the byte itself if it is
/// printable, a dot if it is not, three spaces past the end of the data.
pub open spec fn char_cell(data: Seq<u8>, pos: int) -> Seq<u8> {
    if pos < data.len() {
        if 0x20 <= data[pos] <= 0x7E {
            seq![data[pos]]
        } else {
            seq![DOT]
        }
    } else {
        seq![SPACE, SPACE, SPACE]
    }
}

/// The first `n` hexadecimal columns of the line that starts at `off`.
pub open spec fn hex_cells(data: Seq<u8>, off: int, n: nat) -> Seq<u8>
    decreases n,
{
    if n == 0 {
        Seq::empty()
    } else {
        hex_cells(data, off, (n - 1) as nat) + hex_cell(data, off + n - 1)
    }
}

/// The first `n` character columns of the line that starts at `off`.
pub open spec fn char_cells(data: Seq<u8>, off: int, n: nat) -> Seq<u8>
    decreases n,
{
    if n == 0 {
        Seq::empty()
    } else {
        char_cells(data, off, (n - 1) as nat) + char_cell(data, off + n - 1)
    }
}

/// `n` times the byte `b`.
pub open spec fn run(b: u8, n: nat) -> Seq<u8> {
    Seq::new(n, |i: int| b)
}

/// The line for the sixteen bytes from `off`: the hexadecimal columns, six
/// spaces, the character columns, and the end of the line.
pub open spec fn row(data: Seq<u8>, off: int) -> Seq<u8> {
    hex_cells(data, off, ROW_BYTES as nat) + run(SPACE, 6) + char_cells(
        data,
        off,
        ROW_BYTES as nat,
    ) + seq![NEWLINE]
}

/// The first `n` lines of the dump.
pub open spec fn rows(data: Seq<u8>, n: nat) -> Seq<u8>
    decreases n,
{
    if n == 0 {
        Seq::empty()
    } else {
        rows(data, (n - 1) as nat) + row(data, (n - 1) * ROW_BYTES)
    }
}

/// How many lines the dump of `len` bytes has: one for each sixteen bytes,
/// and one for what is left.
pub open spec fn row_count(len: nat) -> nat {
    if len % 16 == 0 {
        len / 16
    } else {
        len / 16 + 1
    }
}

/// A banner line: `title` in the middle of dashes, seventy characters wide,
/// with the odd dash on the right.
pub open spec fn banner(title: Seq<u8>) -> Seq<u8> {
    let pad = (BANNER_WIDTH - title.len()) as nat;
    run(DASH, pad / 2) + title + run(DASH, (pad - pad / 2) as nat) + seq![NEWLINE]
}

/// The words " hexdump ".
pub open spec fn title_begin() -> Seq<u8> {
    seq![0x20u8, 0x68, 0x65, 0x78, 0x64, 0x75, 0x6D, 0x70, 0x20]
}

/// The words " hexdump end ".
pub open spec fn title_end() -> Seq<u8> {
    seq![0x20u8, 0x68, 0x65, 0x78, 0x64, 0x75, 0x6D, 0x70, 0x20, 0x65, 0x6E, 0x64, 0x20]
}

/// The whole dump of `data`: a banner, the lines, a banner.
pub open spec fn dump_text(data: Seq<u8>) -> Seq<u8> {
    banner(title_begin()) + rows(data, row_count(data.len())) + banner(title_end())
}

/// Appends `n` times the byte `b`.
pub fn push_run(out: &mut Vec<u8>, b: u8, n: usize)
    ensures
        final(out)@ == old(out)@ + run(b, n as nat),
{
    let mut i: usize = 0;
    proof {
        assert(out@ =~= old(out)@ + run(b, 0));
    }
    while i < n
        invariant
            i <= n,
            out@ == old(out)@ + run(b, i as nat),
        decreases n - i,
    {
        out.push(b);
        i = i + 1;
        proof {
            assert(out@ =~= old(out)@ + run(b, i as nat));
        }
    }
}

/// Appends a banner line with the opening title, or with the closing one.
pub fn push_banner(out: &mut Vec<u8>, closing: bool)
    ensures
        final(out)@ == old(out)@ + banner(
            if closing {
                title_end()
            } else {
                title_begin()
            },
        ),
{
    let left: usize = if closing {
        28
    } else {
        30
    };
    push_run(out, DASH, left);
    out.push(0x20);
    out.push(0x68);
    out.push(0x65);
    out.push(0x78);
    out.push(0x64);
    out.push(0x75);
    out.push(0x6D);
    out.push(0x70);
    out.push(0x20);
    if closing {
        out.push(0x65);
        out.push(0x6E);
        out.push(0x64);
        out.push(0x20);
    }
    push_run(out, DASH, left + 1);
    out.push(NEWLINE);
    proof {
        if closing {
            assert(out@ =~= old(out)@ + banner(title_end()));
        } else {
            assert(out@ =~= old(out)@ + banner(title_begin()));
        }
    }
}

/// Computes `hex_digit`.
pub fn hex_digit_of(n: u8) -> (c: u8)
    requires
        n < 16,
    ensures
        c == hex_digit(n),
{
    if n < 10 {
        0x30 + n
    } else {
        0x61 + (n - 10)
    }
}

/// Appends the line for the sixteen bytes from `off`.
pub fn push_row(out: &mut Vec<u8>, data: &[u8], off: usize)
    requires
        off < data@.len(),
    ensures
        final(out)@ == old(out)@ + row(data@, off as int),
{
    let len = data.len();
    let mut i: usize = 0;
    proof {
        assert(out@ =~= old(out)@ + hex_cells(data@, off as int, 0));
    }
    while i < ROW_BYTES
        invariant
            i <= ROW_BYTES,
            len == data@.len(),
            off < len,
            out@ == old(out)@ + hex_cells(data@, off as int, i as nat),
        decreases ROW_BYTES - i,
    {
        let ghost before = out@;
        if i < len - off {
            let b = data[off + i];
            out.push(hex_digit_of(b / 16));
            out.push(hex_digit_of(b % 16));
            out.push(SPACE);
        } else {
            out.push(SPACE);
            out.push(SPACE);
            out.push(SPACE);
        }
        proof {
            assert(out@ =~= before + hex_cell(data@, off + i));
            assert(out@ =~= old(out)@ + hex_cells(data@, off as int, (i + 1) as nat));
        }
        i = i + 1;
    }
    push_run(out, SPACE, 6);
    let ghost mid = out@;
    let mut i: usize = 0;
    proof {
        assert(out@ =~= mid + char_cells(data@, off as int, 0));
    }
    while i < ROW_BYTES
        invariant
            i <= ROW_BYTES,
            len == data@.len(),
            off < len,
            out@ == mid + char_cells(data@, off as int, i as nat),
        decreases ROW_BYTES - i,
    {
        let ghost before = out@;
        if i < len - off {
            let c = data[off + i];
            if c >= 0x20 && c <= 0x7E {
                out.push(c);
            } else {
                out.push(DOT);
            }
        } else {
            out.push(SPACE);
            out.push(SPACE);
            out.push(SPACE);
        }
        proof {
            assert(out@ =~= before + char_cell(data@, off + i));
            assert(out@ =~= mid + char_cells(data@, off as int, (i + 1) as nat));
        }
        i = i + 1;
    }
    out.push(NEWLINE);
    proof {
        assert(out@ =~= old(out)@ + row(data@, off as int));
    }
}

/// The dump of `data` as text.
pub fn hexdump(data: &[u8]) -> (text: Vec<u8>)
    ensures
        text@ == dump_text(data@),
{
    let mut out: Vec<u8> = Vec::new();
    push_banner(&mut out, false);
    let len = data.len();
    let total: usize = if len % ROW_BYTES == 0 {
        len / ROW_BYTES
    } else {
        len / ROW_BYTES + 1
    };
    let ghost head = out@;
    let mut n: usize = 0;
    proof {
        assert(out@ =~= head + rows(data@, 0));
    }
    while n < total
        invariant
            len == data@.len(),
            total == row_count(len as nat),
            n <= total,
            out@ == head + rows(data@, n as nat),
        decreases total - n,
    {
        push_row(&mut out, data, n * ROW_BYTES);
        proof {
            assert(out@ =~= head + rows(data@, (n + 1) as nat));
        }
        n = n + 1;
    }
    push_banner(&mut out, true);
    proof {
        assert(out@ =~= dump_text(data@));
    }
    out
}

} // verus!
