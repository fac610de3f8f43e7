use vstd::prelude::*;
use vstd::string::StringExecFns;

verus! {

// ---------------------------------------------------------------------------
// Decimal rendering of an index
// ---------------------------------------------------------------------------

/// The character for one decimal digit.
pub open spec fn dec_digit(d: int) -> char {
    if d == 0 {
        '0'
    } else if d == 1 {
        '1'
    } else if d == 2 {
        '2'
    } else if d == 3 {
        '3'
    } else if d == 4 {
        '4'
    } else if d == 5 {
        '5'
    } else if d == 6 {
        '6'
    } else if d == 7 {
        '7'
    } else if d == 8 {
        '8'
    } else {
        '9'
    }
}

/// The decimal digits of a non-negative number, most significant first.
pub open spec fn dec_of(n: int) -> Seq<char>
    decreases n,
{
    if n < 10 {
        seq![dec_digit(n)]
    } else {
        dec_of(n / 10) + seq![dec_digit(n % 10)]
    }
}

fn digit_str(d: usize) -> (r: &'static str)
    requires
        d < 10,
    ensures
        r@ == seq![dec_digit(d as int)],
{
    proof {
        reveal_strlit("0");
        reveal_strlit("1");
        reveal_strlit("2");
        reveal_strlit("3");
        reveal_strlit("4");
        reveal_strlit("5");
        reveal_strlit("6");
        reveal_strlit("7");
        reveal_strlit("8");
        reveal_strlit("9");
        assert("0"@ =~= seq![dec_digit(0)]);
        assert("1"@ =~= seq![dec_digit(1)]);
        assert("2"@ =~= seq![dec_digit(2)]);
        assert("3"@ =~= seq![dec_digit(3)]);
        assert("4"@ =~= seq![dec_digit(4)]);
        assert("5"@ =~= seq![dec_digit(5)]);
        assert("6"@ =~= seq![dec_digit(6)]);
        assert("7"@ =~= seq![dec_digit(7)]);
        assert("8"@ =~= seq![dec_digit(8)]);
        assert("9"@ =~= seq![dec_digit(9)]);
    }
    if d == 0 {
        "0"
    } else if d == 1 {
        "1"
    } else if d == 2 {
        "2"
    } else if d == 3 {
        "3"
    } else if d == 4 {
        "4"
    } else if d == 5 {
        "5"
    } else if d == 6 {
        "6"
    } else if d == 7 {
        "7"
    } else if d == 8 {
        "8"
    } else {
        "9"
    }
}

/// Renders a number the way the frame lines show an index.
pub fn fmt_usize(n: usize) -> (r: String)
    ensures
        r@ == dec_of(n as int),
    decreases n,
{
    if n < 10 {
        let r = digit_str(n).to_owned();
        proof {
            assert(r@ =~= dec_of(n as int));
        }
        r
    } else {
        let mut s = fmt_usize(n / 10);
        s.append(digit_str(n % 10));
        proof {
            assert(s@ =~= dec_of(n as int));
        }
        s
    }
}

// ---------------------------------------------------------------------------
// The bar of glyphs whose length is the value
// ---------------------------------------------------------------------------

/// A value is drawn as that many copies of the block glyph.
pub open spec fn bar_of(v: nat) -> Seq<char> {
    Seq::new(v, |k: int| '\u{2587}')
}

fn bar_string(v: u32) -> (r: String)
    ensures
        r@ == bar_of(v as nat),
{
    let mut s = String::new();
    proof {
        assert(s@ =~= bar_of(0));
    }
    let mut k: u32 = 0;
    while k < v
        invariant
            k <= v,
            s@ == bar_of(k as nat),
        decreases v - k,
    {
        s.append("\u{2587}");
        proof {
            reveal_strlit("\u{2587}");
            assert(s@ =~= bar_of((k + 1) as nat));
        }
        k = k + 1;
    }
    s
}

// ---------------------------------------------------------------------------
// Terminal colors
// ---------------------------------------------------------------------------

/// The control sequence that starts yellow text.
pub open spec fn sgr_yellow() -> Seq<char> {
    seq!['\u{1b}', '[', '3', '3', 'm']
}

/// The control sequence that starts white text.
pub open spec fn sgr_white() -> Seq<char> {
    seq!['\u{1b}', '[', '3', '7', 'm']
}

/// The control sequence that resets all styling.
pub open spec fn sgr_reset() -> Seq<char> {
    seq!['\u{1b}', '[', '0', 'm']
}

/// Text wrapped in the color for touched (yellow) or untouched (white)
/// positions.
pub open spec fn painted(touched: bool, inner: Seq<char>) -> Seq<char> {
    (if touched {
        sgr_yellow()
    } else {
        sgr_white()
    }) + inner + sgr_reset()
}

/// Relies on `ansi_term::Colour::paint` and the display of the painted
/// string: a plain yellow foreground renders as `ESC[33m`, then the text,
/// then the reset code `ESC[0m`.
#[verifier::external_body]
fn paint_yellow(s: &str) -> (r: String)
    ensures
        r@ == sgr_yellow() + s@ + sgr_reset(),
{
    ansi_term::Colour::Yellow.paint(s).to_string()
}

/// Relies on `ansi_term::Colour::paint` and the display of the painted
/// string: a plain white foreground renders as `ESC[37m`, then the text,
/// then the reset code `ESC[0m`.
#[verifier::external_body]
fn paint_white(s: &str) -> (r: String)
    ensures
        r@ == sgr_white() + s@ + sgr_reset(),
{
    ansi_term::Colour::White.paint(s).to_string()
}

// ---------------------------------------------------------------------------
// Highlight prefix and whole frames
// ---------------------------------------------------------------------------

/// The structural prefix an index line gets from the highlight range: a
/// start corner at its left end, an end corner at its right end, a bar
/// strictly between them, and a blank everywhere else.
pub open spec fn prefix_char(hl: Option<(usize, usize)>, idx: int) -> char {
    match hl {
        Option::None => ' ',
        Option::Some((l, r)) => if idx == l {
            '\u{250c}'
        } else if idx == r {
            '\u{2514}'
        } else if l < idx && idx < r {
            '\u{2502}'
        } else {
            ' '
        },
    }
}

pub fn range_prefix(hl: Option<(usize, usize)>, idx: usize) -> (r: &'static str)
    ensures
        r@ == seq![prefix_char(hl, idx as int)],
{
    proof {
        reveal_strlit(" ");
        reveal_strlit("\u{250c}");
        reveal_strlit("\u{2514}");
        reveal_strlit("\u{2502}");
        assert(" "@ =~= seq![' ']);
        assert("\u{250c}"@ =~= seq!['\u{250c}']);
        assert("\u{2514}"@ =~= seq!['\u{2514}']);
        assert("\u{2502}"@ =~= seq!['\u{2502}']);
    }
    match hl {
        Option::None => " ",
        Option::Some((l, r)) => if idx == l {
            "\u{250c}"
        } else if idx == r {
            "\u{2514}"
        } else if l < idx && idx < r {
            "\u{2502}"
        } else {
            " "
        },
    }
}

/// Whether the active primitive call touches this index.
pub open spec fn is_touched(touched: Option<(usize, usize)>, idx: int) -> bool {
    match touched {
        Option::None => false,
        Option::Some((a, b)) => idx == a || idx == b,
    }
}

fn touched_at(touched: Option<(usize, usize)>, idx: usize) -> (r: bool)
    ensures
        r == is_touched(touched, idx as int),
{
    match touched {
        Option::None => false,
        Option::Some((a, b)) => idx == a || idx == b,
    }
}

/// One line of a frame: highlight prefix, index, a space, then the bar in
/// the touched or untouched color, closed by a carriage return and newline.
pub open spec fn line_of(
    hl: Option<(usize, usize)>,
    touched: Option<(usize, usize)>,
    idx: int,
    v: u32,
) -> Seq<char> {
    seq![prefix_char(hl, idx)] + dec_of(idx) + seq![' '] + painted(
        is_touched(touched, idx),
        bar_of(v as nat),
    ) + seq!['\r', '\n']
}

/// The first `n` lines of a frame, in index order.
pub open spec fn frame_upto(
    arr: Seq<u32>,
    hl: Option<(usize, usize)>,
    touched: Option<(usize, usize)>,
    n: int,
) -> Seq<char>
    decreases n,
{
    if n <= 0 {
        Seq::empty()
    } else {
        frame_upto(arr, hl, touched, n - 1) + line_of(hl, touched, n - 1, arr[n - 1])
    }
}

/// A whole frame: one line per index.
pub open spec fn frame_of(
    arr: Seq<u32>,
    hl: Option<(usize, usize)>,
    touched: Option<(usize, usize)>,
) -> Seq<char> {
    frame_upto(arr, hl, touched, arr.len() as int)
}

/// Builds the textual snapshot of the whole array, one line per index.
pub fn render_frame(
    arr: &Vec<u32>,
    hl: Option<(usize, usize)>,
    touched: Option<(usize, usize)>,
) -> (r: String)
    ensures
        r@ == frame_of(arr@, hl, touched),
{
    let mut out = String::new();
    proof {
        assert(out@ =~= frame_upto(arr@, hl, touched, 0));
    }
    let n = arr.len();
    for idx in 0..n
        invariant
            n == arr@.len(),
            out@ == frame_upto(arr@, hl, touched, idx as int),
    {
        let mut line = range_prefix(hl, idx).to_owned();
        let num = fmt_usize(idx);
        line.append(num.as_str());
        line.append(" ");
        let bar = bar_string(arr[idx]);
        let colored = if touched_at(touched, idx) {
            paint_yellow(bar.as_str())
        } else {
            paint_white(bar.as_str())
        };
        line.append(colored.as_str());
        line.append("\r\n");
        out.append(line.as_str());
        proof {
            reveal_strlit(" ");
            reveal_strlit("\r\n");
            assert(" "@ =~= seq![' ']);
            assert("\r\n"@ =~= seq!['\r', '\n']);
            assert(line@ =~= line_of(hl, touched, idx as int, arr@[idx as int]));
            assert(out@ =~= frame_upto(arr@, hl, touched, idx as int + 1));
        }
    }
    out
}

} // verus!
