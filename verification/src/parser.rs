//! What the escape sequences of the terminal ask for: the parameters are read and the
//! terminal operations chosen here; the byte-level state machine that splits the stream into
//! sequences stays with the `vte` crate.

use crate::terminal::cells::{CellAttributes, TerminalColor};
use crate::terminal::state::{with_attrs, TerminalState};
use vstd::prelude::*;

verus! {

/// What the terminal answers or asks of its host while it reads its input: replies to send
/// back, a window size it asked for, and a title it set.
#[derive(Debug, Default)]
pub struct ParserCallbacks {
    responses: Vec<Vec<u8>>,
    pending_resize: Option<(u16, u16)>,
    pending_title: Option<String>,
}

impl ParserCallbacks {
    /// The replies waiting to be sent, oldest first.
    pub closed spec fn responses_spec(&self) -> Seq<Seq<u8>> {
        self.responses@.map_values(|r: Vec<u8>| r@)
    }

    /// The window size the terminal asked for, rows and columns.
    pub closed spec fn resize_spec(&self) -> Option<(u16, u16)> {
        self.pending_resize
    }

    /// The title the terminal set.
    pub closed spec fn title_spec(&self) -> Option<Seq<char>> {
        match self.pending_title {
            Some(t) => Some(t@),
            None => None,
        }
    }

    /// No replies, no size, no title.
    pub fn new() -> (r: Self)
        ensures
            r.responses_spec() == Seq::<Seq<u8>>::empty(),
            r.resize_spec() is None,
            r.title_spec() is None,
    {
        let r = ParserCallbacks { responses: Vec::new(), pending_resize: None, pending_title: None };
        proof {
            assert(r.responses_spec() =~= Seq::<Seq<u8>>::empty());
        }
        r
    }

    /// Takes the replies waiting to be sent, oldest first, leaving none.
    pub fn take_responses(&mut self) -> (r: Vec<Vec<u8>>)
        ensures
            r@.map_values(|x: Vec<u8>| x@) == old(self).responses_spec(),
            final(self).responses_spec() == Seq::<Seq<u8>>::empty(),
            final(self).resize_spec() == old(self).resize_spec(),
            final(self).title_spec() == old(self).title_spec(),
    {
        let mut r: Vec<Vec<u8>> = Vec::new();
        std::mem::swap(&mut r, &mut self.responses);
        proof {
            assert(self.responses_spec() =~= Seq::<Seq<u8>>::empty());
        }
        r
    }

    /// Takes the window size the terminal asked for, if any.
    pub fn take_resize_request(&mut self) -> (r: Option<(u16, u16)>)
        ensures
            r == old(self).resize_spec(),
            final(self).resize_spec() is None,
            final(self).responses_spec() == old(self).responses_spec(),
            final(self).title_spec() == old(self).title_spec(),
    {
        self.pending_resize.take()
    }

    /// Takes the title the terminal set, if any.
    pub fn take_title(&mut self) -> (r: Option<String>)
        ensures
            match r {
                Some(t) => old(self).title_spec() == Some(t@),
                None => old(self).title_spec() is None,
            },
            final(self).title_spec() is None,
            final(self).responses_spec() == old(self).responses_spec(),
            final(self).resize_spec() == old(self).resize_spec(),
    {
        self.pending_title.take()
    }

    /// Records the title the terminal set.
    pub fn set_title(&mut self, title: String)
        ensures
            final(self).title_spec() == Some(title@),
            final(self).responses_spec() == old(self).responses_spec(),
            final(self).resize_spec() == old(self).resize_spec(),
    {
        self.pending_title = Some(title);
    }

    /// Queues a reply to send back.
    fn push_response(&mut self, bytes: Vec<u8>)
        ensures
            final(self).responses_spec() == old(self).responses_spec().push(bytes@),
            final(self).resize_spec() == old(self).resize_spec(),
            final(self).title_spec() == old(self).title_spec(),
    {
        let ghost before = self.responses@;
        self.responses.push(bytes);
        proof {
            assert(self.responses_spec() =~= before.map_values(|r: Vec<u8>| r@).push(bytes@));
        }
    }

    /// Records the window size the terminal asked for.
    fn request_resize(&mut self, rows: u16, cols: u16)
        ensures
            final(self).resize_spec() == Some((rows, cols)),
            final(self).responses_spec() == old(self).responses_spec(),
            final(self).title_spec() == old(self).title_spec(),
    {
        self.pending_resize = Some((rows, cols));
    }
}

/// The parameters of a sequence: each parameter with its subparameters.
pub type Params = Vec<Vec<u16>>;

/// The parameters as values.
pub open spec fn params_view(params: Seq<Vec<u16>>) -> Seq<Seq<u16>> {
    params.map_values(|p: Vec<u16>| p@)
}

/// The first value of parameter `i`, if there is one.
pub open spec fn param_value(p: Seq<Seq<u16>>, i: int) -> Option<u16> {
    if 0 <= i < p.len() && p[i].len() > 0 {
        Some(p[i][0])
    } else {
        None
    }
}

/// The first value of parameter `i`, or `default` where it is missing or zero.
pub open spec fn nonzero_or(p: Seq<Seq<u16>>, i: int, default: u16) -> u16 {
    match param_value(p, i) {
        Some(v) => if v != 0 { v } else { default },
        None => default,
    }
}

/// The first value of parameter `i`, or `default` where it is missing.
pub open spec fn value_or(p: Seq<Seq<u16>>, i: int, default: u16) -> u16 {
    match param_value(p, i) {
        Some(v) => v,
        None => default,
    }
}

/// The first value of parameter `i`, if there is one.
fn param_at(params: &Params, i: usize) -> (r: Option<u16>)
    ensures
        r == param_value(params_view(params@), i as int),
{
    if i < params.len() && params[i].len() > 0 {
        Some(params[i][0])
    } else {
        None
    }
}

/// The first parameter, or `default` where it is missing or zero.
pub fn first_param(params: &Params, default: u16) -> (r: u16)
    ensures
        r == nonzero_or(params_view(params@), 0, default),
{
    match param_at(params, 0) {
        Some(v) => if v != 0 {
            v
        } else {
            default
        },
        None => default,
    }
}

/// The first parameter, or `default` where it is missing.
pub fn first_param_allow_zero(params: &Params, default: u16) -> (r: u16)
    ensures
        r == value_or(params_view(params@), 0, default),
{
    match param_at(params, 0) {
        Some(v) => v,
        None => default,
    }
}

/// The first two parameters, each replaced by its default where it is missing or zero.
pub fn two_params(params: &Params, first_default: u16, second_default: u16) -> (r: (u16, u16))
    ensures
        r == (nonzero_or(params_view(params@), 0, first_default), nonzero_or(params_view(params@), 1, second_default)),
{
    (first_param(params, first_default), {
        match param_at(params, 1) {
            Some(v) => if v != 0 {
                v
            } else {
                second_default
            },
            None => second_default,
        }
    })
}

/// All values of the parameters in order, a zero standing for a parameter without any.
pub open spec fn flat_values(p: Seq<Seq<u16>>) -> Seq<u16>
    decreases p.len(),
{
    if p.len() == 0 {
        Seq::empty()
    } else {
        let last = p.last();
        flat_values(p.drop_last()) + if last.len() == 0 { seq![0u16] } else { last }
    }
}

/// All values of the parameters in order, a zero standing for a parameter without any.
pub fn params_to_values(params: &Params) -> (r: Vec<u16>)
    ensures
        r@ == flat_values(params_view(params@)),
{
    let mut out: Vec<u16> = Vec::new();
    let mut i: usize = 0;
    while i < params.len()
        invariant
            i <= params@.len(),
            out@ == flat_values(params_view(params@).subrange(0, i as int)),
        decreases params@.len() - i,
    {
        let group = &params[i];
        let ghost before = out@;
        if group.len() == 0 {
            out.push(0);
        } else {
            let mut j: usize = 0;
            while j < group.len()
                invariant
                    j <= group@.len(),
                    out@ == before + group@.subrange(0, j as int),
                decreases group@.len() - j,
            {
                out.push(group[j]);
                j = j + 1;
                proof {
                    assert(out@ =~= before + group@.subrange(0, j as int));
                }
            }
            proof {
                assert(group@.subrange(0, group@.len() as int) =~= group@);
            }
        }
        proof {
            let pv = params_view(params@).subrange(0, i + 1);
            assert(pv.drop_last() =~= params_view(params@).subrange(0, i as int));
            assert(pv.last() == group@);
        }
        i = i + 1;
    }
    proof {
        assert(params_view(params@).subrange(0, params@.len() as int) =~= params_view(params@));
    }
    out
}

/// A colour given after 38 or 48 from value `at` on, with how many values it took: an index
/// after 5, or red, green and blue after 2, each value cut to a byte.
pub open spec fn extended_color(v: Seq<u16>, at: int) -> Option<(TerminalColor, int)> {
    if at + 2 <= v.len() && v[at] == 5 {
        Some((TerminalColor::Indexed((v[at + 1] % 256) as u8), 2))
    } else if at + 4 <= v.len() && v[at] == 2 {
        Some((TerminalColor::Rgb((v[at + 1] % 256) as u8, (v[at + 2] % 256) as u8, (v[at + 3] % 256) as u8), 4))
    } else {
        None
    }
}

/// The low byte of `v`.
fn low_byte(v: u16) -> (r: u8)
    ensures
        r == v % 256,
{
    (v % 256) as u8
}

/// The colour given after 38 or 48 from value `at` on, with how many values it took.
pub fn parse_extended_color(values: &Vec<u16>, at: usize) -> (r: Option<(TerminalColor, usize)>)
    ensures
        r == (match extended_color(values@, at as int) {
            Some((c, n)) => Some((c, n as usize)),
            None => None::<(TerminalColor, usize)>,
        }),
{
    if at < values.len() && values.len() - at >= 2 && values[at] == 5 {
        Some((TerminalColor::Indexed(low_byte(values[at + 1])), 2))
    } else if at < values.len() && values.len() - at >= 4 && values[at] == 2 {
        Some((TerminalColor::Rgb(low_byte(values[at + 1]), low_byte(values[at + 2]), low_byte(values[at + 3])), 4))
    } else {
        None
    }
}

/// The attributes after SGR value `v[i]`, and where the next value to read is.
pub open spec fn sgr_step(a: CellAttributes, v: Seq<u16>, i: int) -> (CellAttributes, int) {
    let x = v[i];
    if x == 0 {
        (super::terminal::cells::default_attrs(), i + 1)
    } else if x == 1 {
        (CellAttributes { bold: true, dim: false, ..a }, i + 1)
    } else if x == 2 {
        (CellAttributes { dim: true, bold: false, ..a }, i + 1)
    } else if x == 3 {
        (CellAttributes { italic: true, ..a }, i + 1)
    } else if x == 4 {
        (CellAttributes { underline: true, ..a }, i + 1)
    } else if x == 7 {
        (CellAttributes { inverse: true, ..a }, i + 1)
    } else if x == 22 {
        (CellAttributes { bold: false, dim: false, ..a }, i + 1)
    } else if x == 23 {
        (CellAttributes { italic: false, ..a }, i + 1)
    } else if x == 24 {
        (CellAttributes { underline: false, ..a }, i + 1)
    } else if x == 27 {
        (CellAttributes { inverse: false, ..a }, i + 1)
    } else if 30 <= x <= 37 {
        (CellAttributes { fg: TerminalColor::Indexed((x - 30) as u8), ..a }, i + 1)
    } else if x == 39 {
        (CellAttributes { fg: TerminalColor::Default, ..a }, i + 1)
    } else if 40 <= x <= 47 {
        (CellAttributes { bg: TerminalColor::Indexed((x - 40) as u8), ..a }, i + 1)
    } else if x == 49 {
        (CellAttributes { bg: TerminalColor::Default, ..a }, i + 1)
    } else if 90 <= x <= 97 {
        (CellAttributes { fg: TerminalColor::Indexed((x - 90 + 8) as u8), ..a }, i + 1)
    } else if 100 <= x <= 107 {
        (CellAttributes { bg: TerminalColor::Indexed((x - 100 + 8) as u8), ..a }, i + 1)
    } else if x == 38 || x == 48 {
        match extended_color(v, i + 1) {
            Some((c, n)) => (if x == 38 { CellAttributes { fg: c, ..a } } else { CellAttributes { bg: c, ..a } }, i + 1 + n),
            None => (a, i + 1),
        }
    } else {
        (a, i + 1)
    }
}

/// The attributes after the SGR values `v` from `i` on.
pub open spec fn sgr_from(a: CellAttributes, v: Seq<u16>, i: int) -> CellAttributes
    decreases v.len() - i,
{
    if i < 0 || i >= v.len() {
        a
    } else {
        let (b, next) = sgr_step(a, v, i);
        if next <= i {
            b
        } else {
            sgr_from(b, v, next)
        }
    }
}

/// A single SGR value does what its step says.
pub proof fn lemma_sgr_single(a: CellAttributes, v: Seq<u16>)
    requires
        v.len() == 1,
    ensures
        sgr_from(a, v, 0) == sgr_step(a, v, 0).0,
        sgr_step(a, v, 0).1 == 1,
{
    let (b, next) = sgr_step(a, v, 0);
    assert(extended_color(v, 1) is None);
    assert(next == 1);
    assert(sgr_from(b, v, next) == b);
}

/// Reading SGR values from position `i` past a prefix `p` reads them as from `q` alone.
pub proof fn lemma_sgr_from_shift(a: CellAttributes, p: Seq<u16>, q: Seq<u16>, i: int)
    requires
        p.len() <= i,
    ensures
        sgr_from(a, p + q, i) == sgr_from(a, q, i - p.len()),
    decreases (p + q).len() - i,
{
    let v = p + q;
    let j = i - p.len();
    if i < v.len() {
        assert(v[i] == q[j]);
        assert(extended_color(v, i + 1) == extended_color(q, j + 1)) by {
            if i + 2 <= v.len() {
                assert(v[i + 1] == q[j + 1]);
            }
            if i + 3 <= v.len() {
                assert(v[i + 2] == q[j + 2]);
            }
            if i + 5 <= v.len() {
                assert(v[i + 3] == q[j + 3]);
                assert(v[i + 4] == q[j + 4]);
            }
        }
        let (b, next) = sgr_step(a, v, i);
        assert(sgr_step(a, q, j) == (b, next - p.len()));
        if next > i {
            lemma_sgr_from_shift(b, p, q, next);
        }
    }
}

/// The decimal digits of `n`, most significant first.
pub open spec fn decimal(n: nat) -> Seq<u8>
    decreases n,
{
    if n < 10 {
        seq![(n + 48) as u8]
    } else {
        decimal(n / 10).push((n % 10 + 48) as u8)
    }
}

/// Appends the decimal digits of `n` to `out`.
fn push_decimal(out: &mut Vec<u8>, n: u16)
    ensures
        final(out)@ == old(out)@ + decimal(n as nat),
    decreases n,
{
    if n >= 10 {
        push_decimal(out, n / 10);
    }
    out.push((n % 10) as u8 + 48);
    proof {
        if n >= 10 {
            assert(decimal(n as nat) == decimal((n / 10) as nat).push((n % 10 + 48) as u8));
        }
    }
}

/// The cursor position report for the cursor at `row` and `col`: `ESC [ row+1 ; col+1 R`,
/// the additions wrapping around at `u16::MAX`.
pub open spec fn position_report(row: u16, col: u16) -> Seq<u8> {
    seq![0x1bu8, 0x5bu8] + decimal(((row + 1) % 0x10000) as nat) + seq![0x3bu8] + decimal(((col + 1) % 0x10000) as nat) + seq![0x52u8]
}

/// The cursor position report for the cursor at `row` and `col`.
fn position_report_bytes(row: u16, col: u16) -> (r: Vec<u8>)
    ensures
        r@ == position_report(row, col),
{
    let mut out: Vec<u8> = Vec::new();
    out.push(0x1b);
    out.push(0x5b);
    push_decimal(&mut out, row.wrapping_add(1));
    out.push(0x3b);
    push_decimal(&mut out, col.wrapping_add(1));
    out.push(0x52);
    proof {
        assert(out@ =~= position_report(row, col));
    }
    out
}

/// The reply to a device status report with `mode` from a terminal whose cursor is at `row`
/// and `col`: `ESC [ 0 n` (all is well) for 5, the cursor position report for 6, none for any
/// other.
pub open spec fn report_reply(mode: u16, row: u16, col: u16) -> Option<Seq<u8>> {
    if mode == 5 {
        Some(seq![0x1bu8, 0x5bu8, 0x30u8, 0x6eu8])
    } else if mode == 6 {
        Some(position_report(row, col))
    } else {
        None
    }
}

/// The window size a `CSI 8 ; rows ; cols t` asks for, each kept from the current size where
/// missing and at least one; nothing for any other window operation.
pub open spec fn window_request(v: Seq<u16>, rows: u16, cols: u16) -> Option<(u16, u16)> {
    if v.len() == 0 || v[0] != 8 {
        None
    } else {
        let r = if v.len() > 1 { v[1] } else { rows };
        let c = if v.len() > 2 { v[2] } else { cols };
        Some((if r > 1 { r } else { 1 }, if c > 1 { c } else { 1 }))
    }
}

/// The window size a window operation asks for.
pub fn window_op_request(values: &Vec<u16>, rows: u16, cols: u16) -> (r: Option<(u16, u16)>)
    ensures
        r == window_request(values@, rows, cols),
{
    if values.len() == 0 || values[0] != 8 {
        return None;
    }
    let r = if values.len() > 1 {
        values[1]
    } else {
        rows
    };
    let c = if values.len() > 2 {
        values[2]
    } else {
        cols
    };
    Some((if r > 1 { r } else { 1 }, if c > 1 { c } else { 1 }))
}

/// The attributes after the SGR values `values`, as `sgr_from` says.
pub fn apply_sgr_values(attrs: CellAttributes, values: &Vec<u16>) -> (r: CellAttributes)
    ensures
        r == sgr_from(attrs, values@, 0),
{
    let mut a = attrs;
    let mut index: usize = 0;
    while index < values.len()
        invariant
            index <= values@.len() + 4,
            sgr_from(a, values@, index as int) == sgr_from(attrs, values@, 0),
        decreases values@.len() + 4 - index,
    {
        let x = values[index];
        let ghost step = sgr_step(a, values@, index as int);
        if x == 0 {
            a = CellAttributes::default();
        } else if x == 1 {
            a = CellAttributes { bold: true, dim: false, ..a };
        } else if x == 2 {
            a = CellAttributes { dim: true, bold: false, ..a };
        } else if x == 3 {
            a = CellAttributes { italic: true, ..a };
        } else if x == 4 {
            a = CellAttributes { underline: true, ..a };
        } else if x == 7 {
            a = CellAttributes { inverse: true, ..a };
        } else if x == 22 {
            a = CellAttributes { bold: false, dim: false, ..a };
        } else if x == 23 {
            a = CellAttributes { italic: false, ..a };
        } else if x == 24 {
            a = CellAttributes { underline: false, ..a };
        } else if x == 27 {
            a = CellAttributes { inverse: false, ..a };
        } else if 30 <= x && x <= 37 {
            a = CellAttributes { fg: TerminalColor::Indexed((x - 30) as u8), ..a };
        } else if x == 39 {
            a = CellAttributes { fg: TerminalColor::Default, ..a };
        } else if 40 <= x && x <= 47 {
            a = CellAttributes { bg: TerminalColor::Indexed((x - 40) as u8), ..a };
        } else if x == 49 {
            a = CellAttributes { bg: TerminalColor::Default, ..a };
        } else if 90 <= x && x <= 97 {
            a = CellAttributes { fg: TerminalColor::Indexed((x - 90 + 8) as u8), ..a };
        } else if 100 <= x && x <= 107 {
            a = CellAttributes { bg: TerminalColor::Indexed((x - 100 + 8) as u8), ..a };
        } else if x == 38 || x == 48 {
            if let Some((color, consumed)) = parse_extended_color(values, index + 1) {
                if x == 38 {
                    a = CellAttributes { fg: color, ..a };
                } else {
                    a = CellAttributes { bg: color, ..a };
                }
                index = index + consumed;
            }
        }
        assert(a == step.0);
        index = index + 1;
        assert(index == step.1);
    }
    a
}

/// A terminal operation that a control character or escape sequence asks for.
#[derive(Debug)]
pub enum TerminalOp {
    Nothing,
    Backspace,
    Tab,
    Linefeed,
    CarriageReturn,
    SaveCursor,
    RestoreCursor,
    NextLine,
    ReverseIndex,
    Reset,
    InsertBlankChars(u16),
    CursorUp(u16),
    CursorDown(u16),
    CursorForward(u16),
    CursorBack(u16),
    CursorNextLine(u16),
    CursorPrevLine(u16),
    SetCursorCol(u16),
    SetCursorRow(u16),
    SetCursorPosition(u16, u16),
    EraseInDisplay(u16),
    EraseInLine(u16),
    InsertLines(u16),
    DeleteLines(u16),
    DeleteChars(u16),
    EraseChars(u16),
    ScrollUp(u16),
    ScrollDown(u16),
    Sgr(Vec<u16>),
    DeviceStatusReport(u16),
    SetScrollRegion(u16, u16),
    WindowOp(Vec<u16>),
    SetPrivateModes(Vec<u16>, bool),
}

/// Whether `op` is what the control character `byte` asks for: backspace (8), tab (9), line
/// feed (10 to 12) and carriage return (13); nothing for any other.
pub open spec fn is_execute_op(byte: u8, op: TerminalOp) -> bool {
    &&& byte == 8 ==> op is Backspace
    &&& byte == 9 ==> op is Tab
    &&& 10 <= byte <= 12 ==> op is Linefeed
    &&& byte == 13 ==> op is CarriageReturn
    &&& !(8 <= byte <= 13) ==> op is Nothing
}

/// What the control character `byte` asks for: backspace (8), tab (9), line feed (10 to 12)
/// and carriage return (13); nothing for any other.
pub fn execute_op(byte: u8) -> (r: TerminalOp)
    ensures
        is_execute_op(byte, r),
{
    match byte {
        8 => TerminalOp::Backspace,
        9 => TerminalOp::Tab,
        10..=12 => TerminalOp::Linefeed,
        13 => TerminalOp::CarriageReturn,
        _ => TerminalOp::Nothing,
    }
}

/// Whether `op` is what the escape sequence `ESC byte` with `intermediates` asks for: save (7)
/// or restore (8) the cursor, line feed (D), next line (E), reverse index (M) or reset (c);
/// nothing with intermediates, when ignored, or for any other byte.
pub open spec fn is_esc_op(intermediates: Seq<u8>, ignore: bool, byte: u8, op: TerminalOp) -> bool {
    &&& (ignore || intermediates.len() > 0) ==> op is Nothing
    &&& !(ignore || intermediates.len() > 0) ==> {
        &&& byte == 0x37 ==> op is SaveCursor
        &&& byte == 0x38 ==> op is RestoreCursor
        &&& byte == 0x44 ==> op is Linefeed
        &&& byte == 0x45 ==> op is NextLine
        &&& byte == 0x4d ==> op is ReverseIndex
        &&& byte == 0x63 ==> op is Reset
        &&& !(byte == 0x37 || byte == 0x38 || byte == 0x44 || byte == 0x45 || byte == 0x4d || byte == 0x63) ==> op is Nothing
    }
}

/// What the escape sequence `ESC byte` asks for: save (7) or restore (8) the cursor, line
/// feed (D), next line (E), reverse index (M) or reset (c); nothing with intermediates, when
/// ignored, or for any other byte.
pub fn esc_op(intermediates: &[u8], ignore: bool, byte: u8) -> (r: TerminalOp)
    ensures
        is_esc_op(intermediates@, ignore, byte, r),
{
    if ignore || intermediates.len() > 0 {
        return TerminalOp::Nothing;
    }
    match byte {
        0x37 => TerminalOp::SaveCursor,
        0x38 => TerminalOp::RestoreCursor,
        0x44 => TerminalOp::Linefeed,
        0x45 => TerminalOp::NextLine,
        0x4d => TerminalOp::ReverseIndex,
        0x63 => TerminalOp::Reset,
        _ => TerminalOp::Nothing,
    }
}

/// Whether `r` is what a CSI sequence without intermediates with parameters `p` and final
/// character `action` asks for on a screen of `rows` rows: each operation with its count (at
/// least one), a position counted from one turned into one counted from zero, the SGR and
/// window-operation values, and nothing for a final character not listed.
pub open spec fn is_standard_op(p: Seq<Seq<u16>>, action: char, rows: u16, r: TerminalOp) -> bool {

                    let n = nonzero_or(p, 0, 1);
        &&& action == '@' ==> r == TerminalOp::InsertBlankChars(n)
        &&& action == 'A' ==> r == TerminalOp::CursorUp(n)
        &&& action == 'B' ==> r == TerminalOp::CursorDown(n)
        &&& action == 'C' ==> r == TerminalOp::CursorForward(n)
        &&& action == 'D' ==> r == TerminalOp::CursorBack(n)
        &&& action == 'E' ==> r == TerminalOp::CursorNextLine(n)
        &&& action == 'F' ==> r == TerminalOp::CursorPrevLine(n)
        &&& action == 'G' ==> r == TerminalOp::SetCursorCol((n - 1) as u16)
        &&& (action == 'H' || action == 'f') ==> r == TerminalOp::SetCursorPosition(
            (nonzero_or(p, 0, 1) - 1) as u16,
            (nonzero_or(p, 1, 1) - 1) as u16,
        )
        &&& action == 'J' ==> r == TerminalOp::EraseInDisplay(value_or(p, 0, 0))
        &&& action == 'K' ==> r == TerminalOp::EraseInLine(value_or(p, 0, 0))
        &&& action == 'L' ==> r == TerminalOp::InsertLines(n)
        &&& action == 'M' ==> r == TerminalOp::DeleteLines(n)
        &&& action == 'P' ==> r == TerminalOp::DeleteChars(n)
        &&& action == 'S' ==> r == TerminalOp::ScrollUp(n)
        &&& action == 'T' ==> r == TerminalOp::ScrollDown(n)
        &&& action == 'X' ==> r == TerminalOp::EraseChars(n)
        &&& action == 'd' ==> r == TerminalOp::SetCursorRow((n - 1) as u16)
        &&& action == 'm' ==> (r matches TerminalOp::Sgr(v) && v@ == flat_values(p))
        &&& action == 'n' ==> r == TerminalOp::DeviceStatusReport(value_or(p, 0, 0))
        &&& action == 'r' ==> r == TerminalOp::SetScrollRegion(
            (nonzero_or(p, 0, 1) - 1) as u16,
            sat_sub(nonzero_or(p, 1, if rows > 1 { rows } else { 1 }), 1),
        )
        &&& action == 't' ==> (r matches TerminalOp::WindowOp(v) && v@ == flat_values(p))
        &&& !is_standard_csi(action) ==> r is Nothing
}

/// What a CSI sequence without intermediates asks for, with final character `action`, on a
/// screen of `rows` rows.
pub fn standard_csi_op(params: &Params, action: char, rows: u16) -> (r: TerminalOp)
    ensures
        is_standard_op(params_view(params@), action, rows, r),
{
    let n = first_param(params, 1);
    match action {
        '@' => TerminalOp::InsertBlankChars(n),
        'A' => TerminalOp::CursorUp(n),
        'B' => TerminalOp::CursorDown(n),
        'C' => TerminalOp::CursorForward(n),
        'D' => TerminalOp::CursorBack(n),
        'E' => TerminalOp::CursorNextLine(n),
        'F' => TerminalOp::CursorPrevLine(n),
        'G' => TerminalOp::SetCursorCol(n - 1),
        'H' | 'f' => {
            let (row, col) = two_params(params, 1, 1);
            TerminalOp::SetCursorPosition(row - 1, col - 1)
        },
        'J' => TerminalOp::EraseInDisplay(first_param_allow_zero(params, 0)),
        'K' => TerminalOp::EraseInLine(first_param_allow_zero(params, 0)),
        'L' => TerminalOp::InsertLines(n),
        'M' => TerminalOp::DeleteLines(n),
        'P' => TerminalOp::DeleteChars(n),
        'S' => TerminalOp::ScrollUp(n),
        'T' => TerminalOp::ScrollDown(n),
        'X' => TerminalOp::EraseChars(n),
        'd' => TerminalOp::SetCursorRow(n - 1),
        'm' => TerminalOp::Sgr(params_to_values(params)),
        'n' => TerminalOp::DeviceStatusReport(first_param_allow_zero(params, 0)),
        'r' => {
            let rows = if rows > 1 {
                rows
            } else {
                1
            };
            let (top, bottom) = two_params(params, 1, rows);
            TerminalOp::SetScrollRegion(top - 1, bottom.saturating_sub(1))
        },
        't' => TerminalOp::WindowOp(params_to_values(params)),
        _ => TerminalOp::Nothing,
    }
}

/// `a - b`, or zero where that is negative.
pub open spec fn sat_sub(a: u16, b: u16) -> u16 {
    if a >= b { (a - b) as u16 } else { 0 }
}

/// Whether `action` ends a CSI sequence the terminal acts on.
pub open spec fn is_standard_csi(action: char) -> bool {
    action == '@' || action == 'A' || action == 'B' || action == 'C' || action == 'D' || action == 'E'
        || action == 'F' || action == 'G' || action == 'H' || action == 'f' || action == 'J' || action == 'K'
        || action == 'L' || action == 'M' || action == 'P' || action == 'S' || action == 'T' || action == 'X'
        || action == 'd' || action == 'm' || action == 'n' || action == 'r' || action == 't'
}

/// Whether `op` is what a CSI sequence with parameters `p`, `intermediates` and final
/// character `action` asks for on a screen of `rows` rows: the standard sequences without
/// intermediates, the private modes after `?` set (`h`) or reset (`l`) with every value of every
/// parameter; nothing when ignored or for anything else.
pub open spec fn is_csi_op(p: Seq<Seq<u16>>, intermediates: Seq<u8>, ignore: bool, action: char, rows: u16, op: TerminalOp) -> bool {
    &&& ignore ==> op is Nothing
    &&& (!ignore && intermediates.len() == 0) ==> is_standard_op(p, action, rows, op)
    &&& (!ignore && intermediates.len() > 0 && intermediates[0] == 0x3f) ==> {
        if action == 'h' || action == 'l' {
            op matches TerminalOp::SetPrivateModes(v, enabled) && v@ == all_values(p) && enabled == (action == 'h')
        } else {
            op is Nothing
        }
    }
    &&& (!ignore && intermediates.len() > 0 && intermediates[0] != 0x3f) ==> op is Nothing
}

/// What a CSI sequence asks for: the standard sequences without intermediates, the private
/// modes after `?` set (`h`) or reset (`l`) with every value of every parameter; nothing when
/// ignored or for anything else.
pub fn csi_op(params: &Params, intermediates: &[u8], ignore: bool, action: char, rows: u16) -> (r: TerminalOp)
    ensures
        is_csi_op(params_view(params@), intermediates@, ignore, action, rows, r),
{
    if ignore {
        return TerminalOp::Nothing;
    }
    if intermediates.len() == 0 {
        return standard_csi_op(params, action, rows);
    }
    if intermediates[0] != 0x3f {
        return TerminalOp::Nothing;
    }
    let enabled = match action {
        'h' => true,
        'l' => false,
        _ => return TerminalOp::Nothing,
    };
    TerminalOp::SetPrivateModes(flatten_params(params), enabled)
}

/// Every value of every parameter, in order.
pub open spec fn all_values(p: Seq<Seq<u16>>) -> Seq<u16>
    decreases p.len(),
{
    if p.len() == 0 {
        Seq::empty()
    } else {
        all_values(p.drop_last()) + p.last()
    }
}

/// Every value of every parameter, in order.
fn flatten_params(params: &Params) -> (r: Vec<u16>)
    ensures
        r@ == all_values(params_view(params@)),
{
    let mut out: Vec<u16> = Vec::new();
    let mut i: usize = 0;
    while i < params.len()
        invariant
            i <= params@.len(),
            out@ == all_values(params_view(params@).subrange(0, i as int)),
        decreases params@.len() - i,
    {
        let group = &params[i];
        let ghost before = out@;
        let mut j: usize = 0;
        while j < group.len()
            invariant
                j <= group@.len(),
                out@ == before + group@.subrange(0, j as int),
            decreases group@.len() - j,
        {
            out.push(group[j]);
            j = j + 1;
            proof {
                assert(out@ =~= before + group@.subrange(0, j as int));
            }
        }
        proof {
            assert(group@.subrange(0, group@.len() as int) =~= group@);
            let pv = params_view(params@).subrange(0, i + 1);
            assert(pv.drop_last() =~= params_view(params@).subrange(0, i as int));
            assert(pv.last() == group@);
        }
        i = i + 1;
    }
    proof {
        assert(params_view(params@).subrange(0, params@.len() as int) =~= params_view(params@));
    }
    out
}

/// The text `String::from_utf8_lossy` makes of `bytes`: each invalid sequence replaced by
/// U+FFFD.
pub uninterp spec fn utf8_lossy(bytes: Seq<u8>) -> Seq<char>;

/// The text of `bytes`, each invalid UTF-8 sequence replaced (`String::from_utf8_lossy`).
#[verifier::external_body]
fn lossy_string(bytes: &[u8]) -> (r: String)
    ensures
        r@ == utf8_lossy(bytes@),
{
    String::from_utf8_lossy(bytes).into_owned()
}

/// The title an operating system command with parameters `p` sets: the second parameter of
/// `0;title` or `2;title`; nothing for any other.
pub open spec fn osc_title(p: Seq<Seq<u8>>) -> Option<Seq<u8>> {
    if p.len() == 2 && p[0].len() == 1 && (p[0][0] == 0x30 || p[0][0] == 0x32) {
        Some(p[1])
    } else {
        None
    }
}

/// Handles an operating system command with parameters `params`: `0;title` and `2;title` set
/// the title.
pub fn osc_dispatch(callbacks: &mut ParserCallbacks, params: &Vec<Vec<u8>>)
    ensures
        match osc_title(params@.map_values(|p: Vec<u8>| p@)) {
            Some(t) => final(callbacks).title_spec() == Some(utf8_lossy(t)),
            None => final(callbacks).title_spec() == old(callbacks).title_spec(),
        },
        final(callbacks).responses_spec() == old(callbacks).responses_spec(),
        final(callbacks).resize_spec() == old(callbacks).resize_spec(),
{
    let ghost pv = params@.map_values(|p: Vec<u8>| p@);
    if params.len() == 2 && params[0].len() == 1 && (params[0][0] == 0x30 || params[0][0] == 0x32) {
        proof {
            assert(pv[0] == params@[0]@);
            assert(pv[1] == params@[1]@);
        }
        let title = lossy_string(params[1].as_slice());
        callbacks.set_title(title);
    } else {
        proof {
            if pv.len() == 2 {
                assert(pv[0] == params@[0]@);
            }
        }
    }
}

/// `states` runs from `t` to `n`, each switching the next of the private modes `modes` on
/// (`enabled`) or off as `set_private_mode` says.
pub open spec fn modes_run(states: Seq<TerminalState>, t: TerminalState, n: TerminalState, modes: Seq<u16>, enabled: bool) -> bool {
    &&& states.len() == modes.len() + 1
    &&& states[0] == t
    &&& states.last() == n
    &&& forall|i: int| 0 <= i < modes.len() ==> #[trigger] states[i].set_private_mode_effect(&states[i + 1], modes[i], enabled)
}

/// The terminal `n` after the private modes `modes` are switched on (`enabled`) or off on `t`,
/// one after another, as `set_private_mode` says.
pub open spec fn private_modes_effect(t: TerminalState, n: TerminalState, modes: Seq<u16>, enabled: bool) -> bool {
    exists|states: Seq<TerminalState>| #[trigger] modes_run(states, t, n, modes, enabled)
}

/// What carrying out `op` on the terminal `t` gives, `n`: each operation as the method of
/// `TerminalState` it names says; a new line is a carriage return then a line feed; SGR values
/// (none meaning a reset) change the attributes in force as `sgr_from` says; status reports,
/// window operations and nothing leave the terminal as it is.
pub open spec fn op_effect(t: TerminalState, n: TerminalState, op: TerminalOp) -> bool {
    match op {
        TerminalOp::Nothing => t.same_as(&n),
        TerminalOp::Backspace => t.backspace_effect(&n),
        TerminalOp::Tab => t.tab_effect(&n),
        TerminalOp::Linefeed => t.linefeed_effect(&n),
        TerminalOp::CarriageReturn => t.carriage_return_effect(&n),
        TerminalOp::SaveCursor => t.save_cursor_effect(&n),
        TerminalOp::RestoreCursor => t.restore_cursor_effect(&n),
        TerminalOp::NextLine => exists|m: TerminalState| #[trigger] t.carriage_return_effect(&m) && m.linefeed_effect(&n),
        TerminalOp::ReverseIndex => t.reverse_index_effect(&n),
        TerminalOp::Reset => t.reset_effect(&n),
        TerminalOp::InsertBlankChars(k) => t.insert_blank_chars_effect(&n, k),
        TerminalOp::CursorUp(k) => t.cursor_up_effect(&n, k),
        TerminalOp::CursorDown(k) => t.cursor_down_effect(&n, k),
        TerminalOp::CursorForward(k) => t.cursor_forward_effect(&n, k),
        TerminalOp::CursorBack(k) => t.cursor_back_effect(&n, k),
        TerminalOp::CursorNextLine(k) => t.cursor_next_line_effect(&n, k),
        TerminalOp::CursorPrevLine(k) => t.cursor_prev_line_effect(&n, k),
        TerminalOp::SetCursorCol(c) => t.set_cursor_col_effect(&n, c),
        TerminalOp::SetCursorRow(r) => t.set_cursor_row_effect(&n, r),
        TerminalOp::SetCursorPosition(r, c) => t.set_cursor_position_effect(&n, r, c),
        TerminalOp::EraseInDisplay(m) => t.erase_in_display_effect(&n, m),
        TerminalOp::EraseInLine(m) => t.erase_in_line_effect(&n, m),
        TerminalOp::InsertLines(k) => t.insert_lines_effect(&n, k),
        TerminalOp::DeleteLines(k) => t.delete_lines_effect(&n, k),
        TerminalOp::DeleteChars(k) => t.delete_chars_effect(&n, k),
        TerminalOp::EraseChars(k) => t.erase_chars_effect(&n, k),
        TerminalOp::ScrollUp(k) => t.scroll_up_effect(&n, k),
        TerminalOp::ScrollDown(k) => t.scroll_down_effect(&n, k),
        TerminalOp::Sgr(v) => {
            let a = t.active_spec().attrs;
            t.changed_active(
                &n,
                with_attrs(t.active_spec(), sgr_from(a, if v@.len() == 0 { seq![0u16] } else { v@ }, 0)),
                t.seqno_spec(),
            )
        },
        TerminalOp::DeviceStatusReport(_) => t.same_as(&n),
        TerminalOp::SetScrollRegion(top, bottom) => t.set_scroll_region_effect(&n, top, bottom),
        TerminalOp::WindowOp(_) => t.same_as(&n),
        TerminalOp::SetPrivateModes(modes, enabled) => private_modes_effect(t, n, modes@, enabled),
    }
}

/// Carries out `op` on `terminal`, as `op_effect` says; the replies and requests it makes go
/// to `callbacks`: a status report (5) answers that the terminal is well, a cursor report (6)
/// gives the cursor position, and a window operation asks for the size `window_request` reads.
pub fn apply_op(terminal: &mut TerminalState, callbacks: &mut ParserCallbacks, op: TerminalOp)
    requires
        old(terminal).wf(),
        old(terminal).room(),
    ensures
        final(terminal).wf(),
        op_effect(*old(terminal), *final(terminal), op),
        match op {
            TerminalOp::DeviceStatusReport(mode) => {
                final(callbacks).responses_spec() == match report_reply(
                    mode,
                    old(terminal).active_spec().cursor.row,
                    old(terminal).active_spec().cursor.col,
                ) {
                    Some(reply) => old(callbacks).responses_spec().push(reply),
                    None => old(callbacks).responses_spec(),
                }
            },
            TerminalOp::WindowOp(v) => {
                final(callbacks).resize_spec() == match window_request(v@, old(terminal).rows_spec(), old(terminal).cols_spec()) {
                    Some(size) => Some(size),
                    None => old(callbacks).resize_spec(),
                }
            },
            _ => true,
        },
        !(op is DeviceStatusReport) ==> final(callbacks).responses_spec() == old(callbacks).responses_spec(),
        !(op is WindowOp) ==> final(callbacks).resize_spec() == old(callbacks).resize_spec(),
        final(callbacks).title_spec() == old(callbacks).title_spec(),
{
    let ghost op0 = op;
    match op {
        TerminalOp::Nothing => {},
        TerminalOp::Backspace => terminal.backspace(),
        TerminalOp::Tab => terminal.tab(),
        TerminalOp::Linefeed => terminal.linefeed(),
        TerminalOp::CarriageReturn => terminal.carriage_return(),
        TerminalOp::SaveCursor => terminal.save_cursor(),
        TerminalOp::RestoreCursor => terminal.restore_cursor(),
        TerminalOp::NextLine => {
            terminal.carriage_return();
            let ghost mid = *terminal;
            terminal.linefeed();
            proof {
                assert(old(terminal).carriage_return_effect(&mid) && mid.linefeed_effect(terminal));
            }
        },
        TerminalOp::ReverseIndex => terminal.reverse_index(),
        TerminalOp::Reset => terminal.reset(),
        TerminalOp::InsertBlankChars(n) => terminal.insert_blank_chars(n),
        TerminalOp::CursorUp(n) => terminal.cursor_up(n),
        TerminalOp::CursorDown(n) => terminal.cursor_down(n),
        TerminalOp::CursorForward(n) => terminal.cursor_forward(n),
        TerminalOp::CursorBack(n) => terminal.cursor_back(n),
        TerminalOp::CursorNextLine(n) => terminal.cursor_next_line(n),
        TerminalOp::CursorPrevLine(n) => terminal.cursor_prev_line(n),
        TerminalOp::SetCursorCol(c) => terminal.set_cursor_col(c),
        TerminalOp::SetCursorRow(r) => terminal.set_cursor_row(r),
        TerminalOp::SetCursorPosition(r, c) => terminal.set_cursor_position(r, c),
        TerminalOp::EraseInDisplay(m) => terminal.erase_in_display(m),
        TerminalOp::EraseInLine(m) => terminal.erase_in_line(m),
        TerminalOp::InsertLines(n) => terminal.insert_lines(n),
        TerminalOp::DeleteLines(n) => terminal.delete_lines(n),
        TerminalOp::DeleteChars(n) => terminal.delete_chars(n),
        TerminalOp::EraseChars(n) => terminal.erase_chars(n),
        TerminalOp::ScrollUp(n) => terminal.scroll_up(n),
        TerminalOp::ScrollDown(n) => terminal.scroll_down(n),
        TerminalOp::Sgr(v) => {
            let mut values = v;
            if values.len() == 0 {
                values.push(0);
                proof {
                    assert(values@ =~= seq![0u16]);
                }
            }
            let attrs = apply_sgr_values(terminal.active_attrs(), &values);
            terminal.set_active_attrs(attrs);
        },
        TerminalOp::DeviceStatusReport(mode) => {
            if mode == 5 {
                let mut reply: Vec<u8> = Vec::new();
                reply.push(0x1b);
                reply.push(0x5b);
                reply.push(0x30);
                reply.push(0x6e);
                proof {
                    assert(reply@ =~= seq![0x1bu8, 0x5bu8, 0x30u8, 0x6eu8]);
                }
                callbacks.push_response(reply);
            } else if mode == 6 {
                let (row, col) = terminal.cursor_position();
                callbacks.push_response(position_report_bytes(row, col));
            }
        },
        TerminalOp::SetScrollRegion(top, bottom) => terminal.set_scroll_region(top, bottom),
        TerminalOp::WindowOp(v) => {
            let (rows, cols) = terminal.size();
            if let Some((r, c)) = window_op_request(&v, rows, cols) {
                callbacks.request_resize(r, c);
            }
        },
        TerminalOp::SetPrivateModes(modes, enabled) => {
            let mut i: usize = 0;
            let ghost mut states: Seq<TerminalState> = seq![*terminal];
            while i < modes.len()
                invariant
                    terminal.wf(),
                    i <= modes@.len(),
                    *callbacks == *old(callbacks),
                    modes_run(states, *old(terminal), *terminal, modes@.subrange(0, i as int), enabled),
                decreases modes@.len() - i,
            {
                let ghost before = states;
                terminal.set_private_mode(modes[i], enabled);
                proof {
                    states = states.push(*terminal);
                    let run = modes@.subrange(0, i + 1);
                    assert forall|j: int| 0 <= j < run.len() implies #[trigger] states[j].set_private_mode_effect(&states[j + 1], run[j], enabled) by {
                        if j < i {
                            assert(states[j] == before[j]);
                            assert(states[j + 1] == before[j + 1]);
                            assert(run[j] == modes@.subrange(0, i as int)[j]);
                        }
                    }
                    assert(modes_run(states, *old(terminal), *terminal, run, enabled));
                }
                i = i + 1;
            }
            proof {
                assert(modes@.subrange(0, modes@.len() as int) =~= modes@);
                assert(modes_run(states, *old(terminal), *terminal, modes@, enabled));
            }
        },
    }
}

/// Handles the control character `byte`, as `execute_op` reads it.
pub fn execute(terminal: &mut TerminalState, callbacks: &mut ParserCallbacks, byte: u8)
    requires
        old(terminal).wf(),
        old(terminal).room(),
    ensures
        final(terminal).wf(),
        exists|op: TerminalOp| #[trigger] is_execute_op(byte, op) && op_effect(*old(terminal), *final(terminal), op),
        final(callbacks).responses_spec() == old(callbacks).responses_spec(),
        final(callbacks).resize_spec() == old(callbacks).resize_spec(),
        final(callbacks).title_spec() == old(callbacks).title_spec(),
{
    let op = execute_op(byte);
    let ghost g = op;
    apply_op(terminal, callbacks, op);
    proof {
        assert(is_execute_op(byte, g) && op_effect(*old(terminal), *terminal, g));
    }
}

/// Handles the escape sequence `ESC byte` with `intermediates`, as `esc_op` reads it.
pub fn esc_dispatch(terminal: &mut TerminalState, callbacks: &mut ParserCallbacks, intermediates: &[u8], ignore: bool, byte: u8)
    requires
        old(terminal).wf(),
        old(terminal).room(),
    ensures
        final(terminal).wf(),
        exists|op: TerminalOp| #[trigger] is_esc_op(intermediates@, ignore, byte, op) && op_effect(*old(terminal), *final(terminal), op),
        final(callbacks).responses_spec() == old(callbacks).responses_spec(),
        final(callbacks).resize_spec() == old(callbacks).resize_spec(),
        final(callbacks).title_spec() == old(callbacks).title_spec(),
{
    let op = esc_op(intermediates, ignore, byte);
    let ghost g = op;
    apply_op(terminal, callbacks, op);
    proof {
        assert(is_esc_op(intermediates@, ignore, byte, g) && op_effect(*old(terminal), *terminal, g));
    }
}

/// Handles a CSI sequence, as `csi_op` reads it.
pub fn csi_dispatch(terminal: &mut TerminalState, callbacks: &mut ParserCallbacks, params: &Params, intermediates: &[u8], ignore: bool, action: char)
    requires
        old(terminal).wf(),
        old(terminal).room(),
    ensures
        final(terminal).wf(),
        exists|op: TerminalOp| #[trigger] is_csi_op(params_view(params@), intermediates@, ignore, action, old(terminal).rows_spec(), op)
            && op_effect(*old(terminal), *final(terminal), op) && match op {
                TerminalOp::DeviceStatusReport(mode) => final(callbacks).responses_spec() == match report_reply(
                    mode,
                    old(terminal).active_spec().cursor.row,
                    old(terminal).active_spec().cursor.col,
                ) {
                    Some(reply) => old(callbacks).responses_spec().push(reply),
                    None => old(callbacks).responses_spec(),
                },
                TerminalOp::WindowOp(v) => final(callbacks).resize_spec() == match window_request(v@, old(terminal).rows_spec(), old(terminal).cols_spec()) {
                    Some(size) => Some(size),
                    None => old(callbacks).resize_spec(),
                },
                _ => final(callbacks).responses_spec() == old(callbacks).responses_spec()
                    && final(callbacks).resize_spec() == old(callbacks).resize_spec(),
            },
        final(callbacks).title_spec() == old(callbacks).title_spec(),
{
    let (rows, _) = terminal.size();
    let op = csi_op(params, intermediates, ignore, action, rows);
    let ghost g = op;
    apply_op(terminal, callbacks, op);
    proof {
        assert(is_csi_op(params_view(params@), intermediates@, ignore, action, old(terminal).rows_spec(), g));
    }
}

} // verus!
