//! The parser benchmark inputs: deterministic, in-memory byte streams in the shape of the
//! twelve vtebench workloads and the five Kitty benchmark families, with the setup each one
//! runs after.

use vstd::arithmetic::div_mod::{lemma_basic_div, lemma_div_decreases, lemma_fundamental_div_mod_converse, lemma_small_mod};
use vstd::prelude::*;
use vstd::string::{StringExecFns, StringSliceAdditionalSpecFns};

verus! {

/// The columns of the screen the workloads are written for.
pub const COLUMNS: usize = 80;

/// The rows of the screen the workloads are written for.
pub const LINES: usize = 24;

/// The least number of bytes of each vtebench payload.
pub const VTEBENCH_MIN_BYTES: usize = 1048576;

/// One benchmark input: the suite it comes from, its name, what it exercises, the bytes that
/// set the terminal up, and the bytes that are measured.
pub struct ParserWorkload {
    pub suite: String,
    pub name: String,
    pub description: String,
    pub setup: Vec<u8>,
    pub payload: Vec<u8>,
}

/// `suite/name`.
pub open spec fn qualified(suite: Seq<char>, name: Seq<char>) -> Seq<char> {
    suite + seq!['/'] + name
}

impl ParserWorkload {
    /// The workload with these parts.
    pub fn new(suite: &str, name: &str, description: &str, setup: Vec<u8>, payload: Vec<u8>) -> (r: Self)
        ensures
            r.suite@ == suite@,
            r.name@ == name@,
            r.description@ == description@,
            r.setup@ == setup@,
            r.payload@ == payload@,
    {
        ParserWorkload {
            suite: suite.to_owned(),
            name: name.to_owned(),
            description: description.to_owned(),
            setup,
            payload,
        }
    }

    /// `suite/name`.
    pub fn qualified_name(&self) -> (r: String)
        ensures
            r@ == qualified(self.suite@, self.name@),
    {
        let mut q = self.suite.clone();
        proof {
            reveal_strlit("/");
        }
        q.append("/");
        q.append(self.name.as_str());
        q
    }
}

/// `total` bytes of `seed` over and over.
pub open spec fn cycled(seed: Seq<u8>, total: int) -> Seq<u8> {
    Seq::new(total as nat, |k: int| seed[k % (seed.len() as int)])
}

/// How many bytes `repeat_bytes` gives: whole copies of `n` bytes, as few as reach `minimum`.
pub open spec fn repeated_len(minimum: int, n: int) -> int {
    ((minimum + n - 1) / n) * n
}

/// `total` bytes of `seed` over and over.
fn cycle(seed: &[u8], total: usize) -> (r: Vec<u8>)
    requires
        seed@.len() > 0,
    ensures
        r@ == cycled(seed@, total as int),
{
    let n = seed.len();
    let mut out: Vec<u8> = Vec::new();
    let mut k: usize = 0;
    let mut j: usize = 0;
    let ghost mut q: int = 0;
    while k < total
        invariant
            n == seed@.len(),
            n > 0,
            k <= total,
            out@.len() == k,
            j < n,
            q >= 0,
            k == q * n + j,
            forall|i: int| 0 <= i < k ==> #[trigger] out@[i] == seed@[i % (n as int)],
        decreases total - k,
    {
        proof {
            lemma_fundamental_div_mod_converse(k as int, n as int, q, j as int);
        }
        out.push(seed[j]);
        k = k + 1;
        j = j + 1;
        if j == n {
            j = 0;
            proof {
                assert((q + 1) * n == q * n + n) by (nonlinear_arith);
                q = q + 1;
            }
        }
    }
    proof {
        assert(out@ =~= cycled(seed@, total as int));
    }
    out
}

/// `seed` repeated whole until there are at least `minimum` bytes: one copy where `seed` is that
/// long already.
pub fn repeat_bytes(seed: &[u8], minimum: usize) -> (r: Vec<u8>)
    requires
        seed@.len() > 0,
        seed@.len() >= minimum || minimum + seed@.len() <= usize::MAX,
    ensures
        r@ == cycled(seed@, repeated_len(minimum as int, seed@.len() as int)),
        minimum <= r@.len() < minimum + seed@.len(),
        forall|k: int| 0 <= k < r@.len() ==> #[trigger] r@[k] == seed@[k % (seed@.len() as int)],
{
    let n = seed.len();
    proof {
        let m = minimum as int;
        let nn = n as int;
        let rr = (m + nn - 1) / nn;
        assert(rr * nn <= m + nn - 1 && rr * nn >= m) by (nonlinear_arith)
            requires
                nn > 0,
                rr == (m + nn - 1) / nn,
                m >= 0,
        {
            assert((m + nn - 1) % nn < nn);
            assert(m + nn - 1 == rr * nn + (m + nn - 1) % nn);
        }
        if m == 0 {
            lemma_fundamental_div_mod_converse(m + nn - 1, nn, 0, nn - 1);
        } else if nn >= m {
            lemma_fundamental_div_mod_converse(m + nn - 1, nn, 1, m - 1);
        }
    }
    if n >= minimum {
        if minimum == 0 {
            return cycle(seed, 0);
        }
        return cycle(seed, n);
    }
    let reps = (minimum + n - 1) / n;
    let total = reps * n;
    cycle(seed, total)
}

/// The step of the benchmark's number generator: multiply by 6364136223846793005 and add one,
/// wrapping at 2^64.
pub open spec fn lcg_step(x: u64) -> u64 {
    let m = (x as nat * 6364136223846793005nat) % 0x1_0000_0000_0000_0000nat;
    if m + 1 > u64::MAX { 0 } else { (m + 1) as u64 }
}

/// The generator's state after `k` steps from `seed`.
pub open spec fn lcg(seed: u64, k: nat) -> u64
    decreases k,
{
    if k == 0 { seed } else { lcg_step(lcg(seed, (k - 1) as nat)) }
}

/// The number the generator in state `state` gives below `bound`.
pub open spec fn lcg_pick(state: u64, bound: usize) -> usize {
    ((state >> 32u64) as usize) % bound
}

/// The benchmark's number generator, a linear congruential one.
pub struct Lcg {
    state: u64,
}

impl Lcg {
    /// The generator's state.
    pub closed spec fn state(&self) -> u64 {
        self.state
    }

    /// A generator started at `seed`.
    pub fn new(seed: u64) -> (r: Self)
        ensures
            r.state() == seed,
    {
        Lcg { state: seed }
    }

    /// Steps the generator and gives a number below `upper_bound`, from the high half of the new
    /// state.
    pub fn next_usize(&mut self, upper_bound: usize) -> (r: usize)
        requires
            upper_bound > 0,
        ensures
            final(self).state() == lcg_step(old(self).state()),
            r == lcg_pick(final(self).state(), upper_bound),
            r < upper_bound,
    {
        self.state = self.state.wrapping_mul(6364136223846793005).wrapping_add(1);
        ((self.state >> 32) as usize) % upper_bound
    }
}

/// `length` bytes picked from `alphabet` by the generator started at `seed`: byte `k` is the
/// one the generator's state after `k + 1` steps picks.
pub open spec fn random_seq(length: int, alphabet: Seq<u8>, seed: u64) -> Seq<u8> {
    Seq::new(length as nat, |k: int| alphabet[lcg_pick(lcg(seed, (k + 1) as nat), alphabet.len() as usize) as int])
}

/// `length` bytes picked from `alphabet` by the generator started at `seed`, one step each.
pub fn random_bytes(length: usize, alphabet: &[u8], seed: u64) -> (r: Vec<u8>)
    requires
        alphabet@.len() > 0 || length == 0,
    ensures
        r@ == random_seq(length as int, alphabet@, seed),
        r@.len() == length,
        forall|k: int| 0 <= k < length ==> #[trigger] r@[k] == alphabet@[lcg_pick(lcg(seed, (k + 1) as nat), alphabet@.len() as usize) as int],
{
    let mut rng = Lcg::new(seed);
    let mut out: Vec<u8> = Vec::new();
    let mut k: usize = 0;
    while k < length
        invariant
            alphabet@.len() > 0 || length == 0,
            k <= length,
            out@.len() == k,
            rng.state() == lcg(seed, k as nat),
            forall|i: int| 0 <= i < k ==> #[trigger] out@[i] == alphabet@[lcg_pick(lcg(seed, (i + 1) as nat), alphabet@.len() as usize) as int],
        decreases length - k,
    {
        let pick = rng.next_usize(alphabet.len());
        out.push(alphabet[pick]);
        k = k + 1;
    }
    proof {
        assert(out@ =~= random_seq(length as int, alphabet@, seed));
    }
    out
}

/// Appends the bytes of `s`.
fn push_str(out: &mut Vec<u8>, s: &str)
    ensures
        final(out)@ == old(out)@ + s.spec_bytes(),
{
    let b = s.as_bytes();
    let mut i: usize = 0;
    let ghost start = out@;
    while i < b.len()
        invariant
            i <= b@.len(),
            b@ == s.spec_bytes(),
            out@ == start + b@.subrange(0, i as int),
        decreases b@.len() - i,
    {
        out.push(b[i]);
        i = i + 1;
        proof {
            assert(out@ =~= start + b@.subrange(0, i as int));
        }
    }
    proof {
        assert(b@.subrange(0, b@.len() as int) =~= b@);
    }
}

/// The digits of `n` in base `base` (up to sixteen, lower case), at least `width` of them with
/// zeros in front.
pub open spec fn digits(n: nat, base: nat, width: nat) -> Seq<u8>
    decreases n, width,
{
    if base < 2 {
        Seq::empty()
    } else if n < base && width <= 1 {
        seq![digit_byte(n)]
    } else {
        proof {
            if n >= base {
                lemma_div_decreases(n as int, base as int);
            } else {
                lemma_basic_div(n as int, base as int);
            }
        }
        digits(n / base, base, if width > 1 { (width - 1) as nat } else { 0 }).push(digit_byte(n % base))
    }
}

/// The byte of digit `d`: `0`-`9`, then `a`-`f`.
pub open spec fn digit_byte(d: nat) -> u8 {
    if d < 10 { (d + 48) as u8 } else { (d + 87) as u8 }
}

/// Appends the digits of `n` in base `base`, at least `width` of them.
fn push_digits(out: &mut Vec<u8>, n: usize, base: usize, width: usize)
    requires
        2 <= base <= 16,
    ensures
        final(out)@ == old(out)@ + digits(n as nat, base as nat, width as nat),
    decreases n, width,
{
    proof {
        if n >= base {
            lemma_div_decreases(n as int, base as int);
        } else {
            lemma_basic_div(n as int, base as int);
        }
    }
    let ghost start = old(out)@;
    if n >= base || width > 1 {
        push_digits(out, n / base, base, if width > 1 { width - 1 } else { 0 });
    }
    let ghost mid = out@;
    let d = n % base;
    let byte: u8 = if d < 10 { d as u8 + 48 } else { d as u8 + 87 };
    out.push(byte);
    proof {
        let w: nat = if width > 1 { (width - 1) as nat } else { 0 };
        if n >= base || width > 1 {
            assert(digits(n as nat, base as nat, width as nat) == digits((n / base) as nat, base as nat, w).push(digit_byte((n % base) as nat)));
            assert(out@ =~= start + digits((n / base) as nat, base as nat, w).push(digit_byte((n % base) as nat)));
        } else {
            lemma_small_mod(n as nat, base as nat);
            assert(mid == start);
            assert(out@ =~= start + seq![digit_byte(n as nat)]);
            assert(digits(n as nat, base as nat, width as nat) == seq![digit_byte(n as nat)]);
        }
    }
}

/// Appends the decimal digits of `n`.
fn push_decimal(out: &mut Vec<u8>, n: usize)
    ensures
        final(out)@ == old(out)@ + digits(n as nat, 10, 1),
{
    push_digits(out, n, 10, 1);
}

/// `ESC [ line ; column H` and then `character`.
pub open spec fn move_bytes(line: int, column: int, character: u8) -> Seq<u8> {
    "\x1b[".spec_bytes() + digits(line as nat, 10, 1) + seq![0x3bu8] + digits(column as nat, 10, 1) + seq![0x48u8, character]
}

/// Appends `ESC [ line ; column H` and then `character`.
fn push_move_and_write(out: &mut Vec<u8>, line: usize, column: usize, character: u8)
    ensures
        final(out)@ == old(out)@ + move_bytes(line as int, column as int, character),
{
    let ghost start = out@;
    push_str(out, "\x1b[");
    push_decimal(out, line);
    out.push(0x3b);
    push_decimal(out, column);
    out.push(0x48);
    out.push(character);
    proof {
        assert(out@ =~= start + move_bytes(line as int, column as int, character));
    }
}

/// The writes along the top side of a rectangle: row `line`, columns `from..to`.
pub open spec fn top_side(line: int, from: int, to: int, c: u8) -> Seq<u8>
    decreases to - from,
{
    if to <= from { Seq::empty() } else { top_side(line, from, to - 1, c) + move_bytes(line, to - 1, c) }
}

/// The writes down the right side: column `column`, rows `from..to`.
pub open spec fn right_side(column: int, from: int, to: int, c: u8) -> Seq<u8>
    decreases to - from,
{
    if to <= from { Seq::empty() } else { right_side(column, from, to - 1, c) + move_bytes(to - 1, column, c) }
}

/// The writes along the bottom side, leftwards: row `line`, columns `from` down to `to + 1`.
pub open spec fn bottom_side(line: int, from: int, to: int, c: u8) -> Seq<u8>
    decreases from - to,
{
    if from <= to { Seq::empty() } else { bottom_side(line, from, to + 1, c) + move_bytes(line, to + 1, c) }
}

/// The writes up the left side: column `column`, rows `from` up to `to + 1`.
pub open spec fn left_side(column: int, from: int, to: int, c: u8) -> Seq<u8>
    decreases from - to,
{
    if from <= to { Seq::empty() } else { left_side(column, from, to + 1, c) + move_bytes(to + 1, column, c) }
}

/// The writes of `c` around the rectangle of columns `cs..=ce` and rows `ls..=le`.
pub open spec fn rectangle(cs: int, ce: int, ls: int, le: int, c: u8) -> Seq<u8> {
    top_side(ls, cs, ce, c) + right_side(ce, ls, le, c) + bottom_side(le, ce, cs, c) + left_side(cs, le, ls, c)
}

/// The writes of the first `k` nested rectangles of `c`.
pub open spec fn rectangles_upto(k: int, c: u8) -> Seq<u8>
    decreases k,
{
    if k <= 0 { Seq::empty() } else { rectangles_upto(k - 1, c) + rectangle(k, 81 - k, k, 25 - k, c) }
}

/// The cursor-motion stream for the letters before `A + k`.
pub open spec fn cursor_motion_upto(k: int) -> Seq<u8>
    decreases k,
{
    if k <= 0 { Seq::empty() } else { cursor_motion_upto(k - 1) + rectangles_upto(12, (64 + k) as u8) }
}

/// `seed` repeated whole to at least `VTEBENCH_MIN_BYTES` bytes, as `repeat_bytes` gives it.
pub open spec fn to_min(seed: Seq<u8>) -> Seq<u8> {
    cycled(seed, repeated_len(VTEBENCH_MIN_BYTES as int, seed.len() as int))
}

/// Writes of each letter around nested rectangles of the screen, each write addressed by a
/// cursor move, repeated to at least `VTEBENCH_MIN_BYTES` bytes.
fn vte_cursor_motion() -> (r: Vec<u8>)
    ensures
        r@ == to_min(cursor_motion_upto(26)),
        r@.len() >= VTEBENCH_MIN_BYTES,
{
    let mut output: Vec<u8> = Vec::new();
    let mut character: u8 = 0x41;
    while character <= 0x5a
        invariant
            65 <= character <= 91,
            output@ == cursor_motion_upto(character - 65),
            output@.len() >= character - 65,
        decreases 91 - character,
    {
        let mut column_start: usize = 1;
        let mut column_end: usize = COLUMNS;
        let mut line_start: usize = 1;
        let mut line_end: usize = LINES;
        let ghost before = output@;
        loop
            invariant_except_break
                column_start + column_end == COLUMNS + 1,
                line_start + line_end == LINES + 1,
                1 <= column_start <= column_end,
                1 <= line_start <= line_end,
                line_start <= 12,
                column_start == line_start,
            invariant
                65 <= character <= 90,
                output@ == before + rectangles_upto(line_start - 1, character),
                output@.len() >= before.len(),
            ensures
                output@ == before + rectangles_upto(12, character),
                output@.len() > before.len(),
            decreases column_end - column_start,
        {
            let ghost at = output@;
            let mut column = column_start;
            let mut line = line_start;
            while column < column_end
                invariant
                    column_start <= column <= column_end,
                    line == line_start,
                    output@ == at + top_side(line_start as int, column_start as int, column as int, character),
                decreases column_end - column,
            {
                push_move_and_write(&mut output, line, column, character);
                column = column + 1;
            }
            let ghost at2 = output@;
            while line < line_end
                invariant
                    line_start <= line <= line_end,
                    column == column_end,
                    output@ == at2 + right_side(column_end as int, line_start as int, line as int, character),
                decreases line_end - line,
            {
                push_move_and_write(&mut output, line, column, character);
                line = line + 1;
            }
            let ghost at3 = output@;
            while column > column_start
                invariant
                    column_start <= column <= column_end,
                    line == line_end,
                    output@ == at3 + bottom_side(line_end as int, column_end as int, column as int, character),
                decreases column - column_start,
            {
                push_move_and_write(&mut output, line, column, character);
                column = column - 1;
            }
            let ghost at4 = output@;
            while line > line_start
                invariant
                    line_start <= line <= line_end,
                    column == column_start,
                    output@ == at4 + left_side(column_start as int, line_end as int, line as int, character),
                decreases line - line_start,
            {
                push_move_and_write(&mut output, line, column, character);
                line = line - 1;
            }
            proof {
                assert(output@ =~= at + rectangle(column_start as int, column_end as int, line_start as int, line_end as int, character));
                assert(rectangles_upto(line_start as int, character) == rectangles_upto(line_start - 1, character)
                    + rectangle(line_start as int, 81 - line_start, line_start as int, 25 - line_start, character));
                assert(output@ =~= before + rectangles_upto(line_start as int, character));
            }
            column_start = column_start + 1;
            line_start = line_start + 1;
            column_end = column_end - 1;
            line_end = line_end - 1;
            if column_start > column_end || line_start > line_end {
                break;
            }
        }
        character = character + 1;
    }
    repeat_bytes(output.as_slice(), VTEBENCH_MIN_BYTES)
}

/// Appends the bytes of the literal `s`, which has at least one.
fn push_lit(out: &mut Vec<u8>, s: &str)
    requires
        s.spec_bytes().len() > 0,
    ensures
        final(out)@ == old(out)@ + s.spec_bytes(),
        final(out)@.len() > old(out)@.len(),
{
    push_str(out, s);
}

/// One cell of the dense workload: row `line`, column `column` of the screen for the letter
/// `offset` after `A`, with an indexed foreground and background, bold, italic and underline.
pub open spec fn dense_cell(line: int, column: int, offset: int) -> Seq<u8> {
    let index = line + column + offset;
    let foreground = index % 156 + 100;
    let background = 255 - index % 156 + 100;
    "\x1b[38;5;".spec_bytes() + digits(foreground as nat, 10, 1) + ";48;5;".spec_bytes()
        + digits(background as nat, 10, 1) + ";1;3;4m".spec_bytes() + seq![(65 + offset) as u8]
}

/// The cells of row `line` in columns `1..column`.
pub open spec fn dense_row(line: int, column: int, offset: int) -> Seq<u8>
    decreases column,
{
    if column <= 1 { Seq::empty() } else { dense_row(line, column - 1, offset) + dense_cell(line, column - 1, offset) }
}

/// The rows `1..line` of the screen for letter `offset`.
pub open spec fn dense_screen(line: int, offset: int) -> Seq<u8>
    decreases line,
{
    if line <= 1 { Seq::empty() } else { dense_screen(line - 1, offset) + dense_row(line - 1, 81, offset) }
}

/// The dense stream for the first `k` letters: the cursor home, then the whole screen.
pub open spec fn dense_upto(k: int) -> Seq<u8>
    decreases k,
{
    if k <= 0 { Seq::empty() } else { dense_upto(k - 1) + "\x1b[H".spec_bytes() + dense_screen(25, k - 1) }
}

/// Full screens of cells, each with its own indexed foreground and background and bold,
/// italic and underline, one letter per screen, repeated to at least `VTEBENCH_MIN_BYTES`
/// bytes.
fn vte_dense_cells() -> (r: Vec<u8>)
    ensures
        r@ == to_min(dense_upto(26)),
        r@.len() >= VTEBENCH_MIN_BYTES,
{
    let mut output: Vec<u8> = Vec::new();
    let mut offset: usize = 0;
    while offset < 26
        invariant
            offset <= 26,
            output@ == dense_upto(offset as int),
            output@.len() >= offset,
        decreases 26 - offset,
    {
        let character: u8 = (0x41 + offset) as u8;
        let ghost before = output@;
        push_str(&mut output, "\x1b[H");
        let ghost at = output@;
        let mut line: usize = 1;
        while line <= LINES
            invariant
                1 <= line <= LINES + 1,
                offset < 26,
                character == 65 + offset,
                output@ == at + dense_screen(line as int, offset as int),
                line > 1 ==> output@.len() > at.len(),
            decreases LINES + 1 - line,
        {
            let ghost at2 = output@;
            let mut column: usize = 1;
            while column <= COLUMNS
                invariant
                    1 <= column <= COLUMNS + 1,
                    line <= LINES,
                    offset < 26,
                    character == 65 + offset,
                    output@ == at2 + dense_row(line as int, column as int, offset as int),
                    column > 1 ==> output@.len() > at2.len(),
                decreases COLUMNS + 1 - column,
            {
                let ghost at3 = output@;
                let index = line + column + offset;
                let foreground = index % 156 + 100;
                let background = 255 - index % 156 + 100;
                push_str(&mut output, "\x1b[38;5;");
                push_decimal(&mut output, foreground);
                push_str(&mut output, ";48;5;");
                push_decimal(&mut output, background);
                push_str(&mut output, ";1;3;4m");
                output.push(character);
                proof {
                    assert(output@ =~= at3 + dense_cell(line as int, column as int, offset as int));
                    assert(output@ =~= at2 + dense_row(line as int, column + 1, offset as int));
                }
                column = column + 1;
            }
            proof {
                assert(output@ =~= at + dense_screen(line + 1, offset as int));
            }
            line = line + 1;
        }
        proof {
            assert(output@ =~= dense_upto(offset + 1));
        }
        offset = offset + 1;
    }
    repeat_bytes(output.as_slice(), VTEBENCH_MIN_BYTES)
}

/// The light stream for the letters before `A + k`: for each, the cursor home and the letter in
/// all 1920 cells.
pub open spec fn light_upto(k: int) -> Seq<u8>
    decreases k,
{
    if k <= 0 {
        Seq::empty()
    } else {
        light_upto(k - 1) + "\x1b[H".spec_bytes() + Seq::new(1920, |_i: int| (64 + k) as u8)
    }
}

/// For each letter, the cursor home and then the letter in every cell of the screen, repeated
/// to at least `VTEBENCH_MIN_BYTES` bytes.
fn vte_light_cells() -> (r: Vec<u8>)
    ensures
        r@ == to_min(light_upto(26)),
        r@.len() >= VTEBENCH_MIN_BYTES,
{
    let mut output: Vec<u8> = Vec::new();
    let mut character: u8 = 0x41;
    while character <= 0x5a
        invariant
            65 <= character <= 91,
            output@ == light_upto(character - 65),
            output@.len() >= character - 65,
        decreases 91 - character,
    {
        push_str(&mut output, "\x1b[H");
        let ghost at = output@;
        let mut k: usize = 0;
        while k < COLUMNS * LINES
            invariant
                k <= COLUMNS * LINES,
                65 <= character <= 90,
                output@ == at + Seq::new(k as nat, |_i: int| character),
            decreases COLUMNS * LINES - k,
        {
            output.push(character);
            k = k + 1;
            proof {
                assert(output@ =~= at + Seq::new(k as nat, |_i: int| character));
            }
        }
        proof {
            assert(output@ =~= light_upto(character - 64));
        }
        character = character + 1;
    }
    repeat_bytes(output.as_slice(), VTEBENCH_MIN_BYTES)
}

/// Row `line` of frame `frame` of the editor-like workload: a coloured line of code.
pub open spec fn medium_line(line: int, frame: int) -> Seq<u8> {
    let foreground = 31 + line % 7;
    let background = 40 + (line + frame) % 7;
    "\x1b[".spec_bytes() + digits(line as nat, 10, 1) + seq![0x3bu8] + "1H\x1b[".spec_bytes()
        + digits(foreground as nat, 10, 1) + seq![0x3bu8] + digits(background as nat, 10, 1) + ";1m".spec_bytes()
        + digits(line as nat, 10, 2) + " fn render_frame_".spec_bytes() + digits(frame as nat, 10, 1)
        + "() { let value = 0x".spec_bytes()
        + digits(vstd::wrapping::usize_specs::wrapping_mul(frame as usize, 0x9e37_79b9usize) as nat, 16, 8)
        + "; }\x1b[K".spec_bytes()
}

/// Rows `1..line` of frame `frame`.
pub open spec fn medium_lines(line: int, frame: int) -> Seq<u8>
    decreases line,
{
    if line <= 1 { Seq::empty() } else { medium_lines(line - 1, frame) + medium_line(line - 1, frame) }
}

/// Frame `frame`: the alternate screen cleared, the rows, the status line, all framed by
/// synchronized-output marks where `synchronized`.
pub open spec fn medium_frame(frame: int, synchronized: bool) -> Seq<u8> {
    (if synchronized { "\x1b[?2026h".spec_bytes() } else { Seq::empty() }) + "\x1b[?1049h\x1b[H\x1b[2J\x1b[?25l".spec_bytes()
        + medium_lines(25, frame) + "\x1b[24;1H\x1b[7m NORMAL  cutty/src/display/mod.rs  100% \x1b[K\x1b[m".spec_bytes()
        + "\x1b[?25h".spec_bytes() + (if synchronized { "\x1b[?2026l".spec_bytes() } else { Seq::empty() })
}

/// Frames `0..k`.
pub open spec fn medium_upto(k: int, synchronized: bool) -> Seq<u8>
    decreases k,
{
    if k <= 0 { Seq::empty() } else { medium_upto(k - 1, synchronized) + medium_frame(k - 1, synchronized) }
}

/// How many bytes of frames the editor-like workload writes at least.
pub open spec fn medium_target(synchronized: bool) -> int {
    if synchronized { 185737 } else { 178345 }
}

/// `k` frames are the first that reach the target length.
pub open spec fn medium_done(k: nat, synchronized: bool) -> bool {
    &&& medium_upto(k as int, synchronized).len() >= medium_target(synchronized)
    &&& forall|j: int| 0 <= j < k ==> (#[trigger] medium_upto(j, synchronized)).len() < medium_target(synchronized)
}

/// The editor-like stream: frames until the target length is reached.
pub open spec fn medium_stream(synchronized: bool) -> Seq<u8> {
    medium_upto((choose|k: nat| medium_done(k, synchronized)) as int, synchronized)
}

/// Appends row `line` of frame `frame`, as `medium_line` says.
#[verifier::spinoff_prover]
#[verifier::rlimit(100)]
fn push_medium_line(output: &mut Vec<u8>, line: usize, frame: usize)
    requires
        1 <= line <= LINES,
        frame <= 185737,
    ensures
        final(output)@ == old(output)@ + medium_line(line as int, frame as int),
        final(output)@.len() > old(output)@.len(),
{
    let ghost at3 = output@;
    let foreground = 31 + line % 7;
    let background = 40 + (line + frame) % 7;
    push_str(output, "\x1b[");
    push_decimal(output, line);
    output.push(0x3b);
    push_str(output, "1H\x1b[");
    push_decimal(output, foreground);
    output.push(0x3b);
    push_decimal(output, background);
    push_str(output, ";1m");
    push_digits(output, line, 10, 2);
    push_str(output, " fn render_frame_");
    push_decimal(output, frame);
    push_str(output, "() { let value = 0x");
    push_digits(output, frame.wrapping_mul(0x9e37_79b9usize), 16, 8);
    push_str(output, "; }\x1b[K");
    proof {
        assert(output@ =~= at3 + medium_line(line as int, frame as int));
    }
}

/// Frames of an editor-like session: the alternate screen cleared, a coloured line of code on
/// each row and a status line, framed by synchronized-output marks where `synchronized`;
/// frames until the target length, repeated to at least `VTEBENCH_MIN_BYTES` bytes.
#[verifier::spinoff_prover]
#[verifier::rlimit(60)]
fn vte_medium_cells(synchronized: bool) -> (r: Vec<u8>)
    ensures
        r@ == to_min(medium_stream(synchronized)),
        r@.len() >= VTEBENCH_MIN_BYTES,
{
    let target: usize = if synchronized { 185737 } else { 178345 };
    let mut output: Vec<u8> = Vec::new();
    let mut frame: usize = 0;
    while output.len() < target
        invariant
            frame <= output@.len(),
            target == medium_target(synchronized),
            output@ == medium_upto(frame as int, synchronized),
            forall|j: int| 0 <= j < frame ==> (#[trigger] medium_upto(j, synchronized)).len() < target,
        decreases if output@.len() < target { target - output@.len() } else { 0 },
    {
        let ghost at = output@;
        if synchronized {
            push_str(&mut output, "\x1b[?2026h");
        }
        push_str(&mut output, "\x1b[?1049h\x1b[H\x1b[2J\x1b[?25l");
        let ghost at2 = output@;
        let mut line: usize = 1;
        while line <= LINES
            invariant
                1 <= line <= LINES + 1,
                frame <= at.len() < target,
                target <= 185737,
                output@ == at2 + medium_lines(line as int, frame as int),
                output@.len() >= at2.len(),
                line > 1 ==> output@.len() > at2.len() + (line - 1),
            decreases LINES + 1 - line,
        {
            let ghost at3 = output@;
            push_medium_line(&mut output, line, frame);
            proof {
                assert(output@ =~= at2 + medium_lines(line + 1, frame as int));
            }
            line = line + 1;
        }
        push_str(&mut output, "\x1b[24;1H\x1b[7m NORMAL  cutty/src/display/mod.rs  100% \x1b[K\x1b[m");
        push_str(&mut output, "\x1b[?25h");
        if synchronized {
            push_str(&mut output, "\x1b[?2026l");
        }
        proof {
            assert(output@ =~= medium_upto(frame + 1, synchronized));
        }
        frame = frame + 1;
    }
    proof {
        assert(medium_done(frame as nat, synchronized));
        let k = choose|k: nat| medium_done(k, synchronized);
        if k < frame {
            assert(medium_upto(k as int, synchronized).len() < target);
        } else if k > frame {
            assert(medium_upto(frame as int, synchronized).len() < target);
        }
        assert(k == frame);
    }
    repeat_bytes(output.as_slice(), VTEBENCH_MIN_BYTES)
}

/// `y` and a line feed, over and over.
fn vte_scrolling() -> (r: Vec<u8>)
    ensures
        r@ == cycled(seq![0x79u8, 0x0au8], repeated_len(VTEBENCH_MIN_BYTES as int, 2)),
        r@.len() >= VTEBENCH_MIN_BYTES,
{
    let seed: Vec<u8> = vec![0x79u8, 0x0a];
    proof {
        assert(seed@ =~= seq![0x79u8, 0x0au8]);
    }
    repeat_bytes(seed.as_slice(), VTEBENCH_MIN_BYTES)
}

/// The full-width stream for the letters before `A + k`: each letter across a row of 80 and a
/// line feed.
pub open spec fn fullscreen_upto(k: int) -> Seq<u8>
    decreases k,
{
    if k <= 0 {
        Seq::empty()
    } else {
        fullscreen_upto(k - 1) + Seq::new(80, |_i: int| (64 + k) as u8) + seq![0x0au8]
    }
}

/// Each letter across a full row and a line feed, repeated to at least `VTEBENCH_MIN_BYTES`
/// bytes.
fn vte_scrolling_fullscreen() -> (r: Vec<u8>)
    ensures
        r@ == to_min(fullscreen_upto(26)),
        r@.len() >= VTEBENCH_MIN_BYTES,
{
    let mut output: Vec<u8> = Vec::new();
    let mut character: u8 = 0x41;
    while character <= 0x5a
        invariant
            65 <= character <= 91,
            output@ == fullscreen_upto(character - 65),
            output@.len() == (character - 65) * 81,
        decreases 91 - character,
    {
        let ghost at = output@;
        let mut k: usize = 0;
        while k < COLUMNS
            invariant
                k <= COLUMNS,
                65 <= character <= 90,
                output@ == at + Seq::new(k as nat, |_i: int| character),
            decreases COLUMNS - k,
        {
            output.push(character);
            k = k + 1;
            proof {
                assert(output@ =~= at + Seq::new(k as nat, |_i: int| character));
            }
        }
        output.push(0x0a);
        proof {
            assert(output@ =~= fullscreen_upto(character - 64));
        }
        character = character + 1;
    }
    repeat_bytes(output.as_slice(), VTEBENCH_MIN_BYTES)
}

/// The mixed-script corpus of the Unicode workload.
pub open spec fn unicode_corpus() -> Seq<u8> {
    "Latin caf\u{e9} na\u{ef}ve \u{2014} \u{395}\u{3bb}\u{3bb}\u{3b7}\u{3bd}\u{3b9}\u{3ba}\u{3ac} \u{3a9}\u{221e} \u{2014} \u{41a}\u{438}\u{440}\u{438}\u{43b}\u{43b}\u{438}\u{446}\u{430} \u{416} \u{2014} \u{627}\u{644}\u{639}\u{631}\u{628}\u{64a}\u{629} \u{645}\u{631}\u{62d}\u{628}\u{627} \u{2014} \u{926}\u{947}\u{935}\u{928}\u{93e}\u{917}\u{930}\u{940} \u{928}\u{92e}\u{938}\u{94d}\u{924}\u{947} \u{2014} \u{4e2d}\u{6587}\u{6f22}\u{5b57} \u{2014} \u{65e5}\u{672c}\u{8a9e}\u{304b}\u{306a} \u{2014} \u{d55c}\u{ae00} \u{2014} \u{1f600}\u{1f61b}\u{1f607}\u{1f980}\u{1f44d} \u{2014} a\u{0301} e\u{0327} o\u{0302}\u{0307} \u{2192}\u{21d2}\u{2022}\u{b7}\u{b0}\u{b1}\u{2212}\u{d7}\u{f7}\u{bc}\u{bd}\u{be}\n".spec_bytes()
}

/// A corpus of many scripts, combining marks, symbols, CJK and emoji, repeated whole past
/// 138296 bytes and then to at least `VTEBENCH_MIN_BYTES` bytes.
fn vte_unicode() -> (r: Vec<u8>)
    ensures
        r@ == to_min(cycled(unicode_corpus(), repeated_len(138296, unicode_corpus().len() as int))),
        r@.len() >= VTEBENCH_MIN_BYTES,
{
    let corpus = "Latin caf\u{e9} na\u{ef}ve \u{2014} \u{395}\u{3bb}\u{3bb}\u{3b7}\u{3bd}\u{3b9}\u{3ba}\u{3ac} \u{3a9}\u{221e} \u{2014} \u{41a}\u{438}\u{440}\u{438}\u{43b}\u{43b}\u{438}\u{446}\u{430} \u{416} \u{2014} \u{627}\u{644}\u{639}\u{631}\u{628}\u{64a}\u{629} \u{645}\u{631}\u{62d}\u{628}\u{627} \u{2014} \u{926}\u{947}\u{935}\u{928}\u{93e}\u{917}\u{930}\u{940} \u{928}\u{92e}\u{938}\u{94d}\u{924}\u{947} \u{2014} \u{4e2d}\u{6587}\u{6f22}\u{5b57} \u{2014} \u{65e5}\u{672c}\u{8a9e}\u{304b}\u{306a} \u{2014} \u{d55c}\u{ae00} \u{2014} \u{1f600}\u{1f61b}\u{1f607}\u{1f980}\u{1f44d} \u{2014} a\u{0301} e\u{0327} o\u{0302}\u{0307} \u{2192}\u{21d2}\u{2022}\u{b7}\u{b0}\u{b1}\u{2212}\u{d7}\u{f7}\u{bc}\u{bd}\u{be}\n";
    proof {
        reveal_strlit("Latin caf\u{e9} na\u{ef}ve \u{2014} \u{395}\u{3bb}\u{3bb}\u{3b7}\u{3bd}\u{3b9}\u{3ba}\u{3ac} \u{3a9}\u{221e} \u{2014} \u{41a}\u{438}\u{440}\u{438}\u{43b}\u{43b}\u{438}\u{446}\u{430} \u{416} \u{2014} \u{627}\u{644}\u{639}\u{631}\u{628}\u{64a}\u{629} \u{645}\u{631}\u{62d}\u{628}\u{627} \u{2014} \u{926}\u{947}\u{935}\u{928}\u{93e}\u{917}\u{930}\u{940} \u{928}\u{92e}\u{938}\u{94d}\u{924}\u{947} \u{2014} \u{4e2d}\u{6587}\u{6f22}\u{5b57} \u{2014} \u{65e5}\u{672c}\u{8a9e}\u{304b}\u{306a} \u{2014} \u{d55c}\u{ae00} \u{2014} \u{1f600}\u{1f61b}\u{1f607}\u{1f980}\u{1f44d} \u{2014} a\u{0301} e\u{0327} o\u{0302}\u{0307} \u{2192}\u{21d2}\u{2022}\u{b7}\u{b0}\u{b1}\u{2212}\u{d7}\u{f7}\u{bc}\u{bd}\u{be}\n");
    }
    let bytes = corpus.as_bytes();
    assert(bytes@.len() > 0);
    let n = bytes.len();
    let mut output: Vec<u8> = Vec::new();
    let ghost mut q: int = 0;
    while output.len() < 138296
        invariant
            bytes@ == corpus.spec_bytes(),
            bytes@ == unicode_corpus(),
            n == bytes@.len(),
            n > 0,
            q >= 0,
            output@.len() == q * n,
            output@ == cycled(bytes@, output@.len() as int),
            q > 0 ==> (q - 1) * n < 138296,
        decreases if output@.len() < 138296 { 138296 - output@.len() } else { 0 },
    {
        let ghost before = output@;
        push_lit(&mut output, corpus);
        proof {
            assert forall|k: int| 0 <= k < output@.len() implies #[trigger] output@[k] == bytes@[k % (n as int)] by {
                if k >= before.len() {
                    lemma_fundamental_div_mod_converse(k, n as int, q, k - q * n);
                }
            }
            assert(output@ =~= cycled(bytes@, output@.len() as int));
            assert((q + 1) * n == q * n + n) by (nonlinear_arith);
            q = q + 1;
        }
    }
    proof {
        let m: int = 138296;
        if q == 0 {
            assert(q * n == 0);
        }
        assert((q - 1) * n == q * n - n) by (nonlinear_arith);
        lemma_fundamental_div_mod_converse(m + n - 1, n as int, q, m + n - 1 - q * n);
    }
    repeat_bytes(output.as_slice(), VTEBENCH_MIN_BYTES)
}

/// The setup of every Kitty workload: the alternate screen, the cursor hidden, default
/// attributes, the screen cleared and synchronized output begun.
fn kitty_setup() -> (r: Vec<u8>)
    ensures
        r@ == "\x1b[?1049h\x1b[?25l\x1b[m\x1b[H\x1b[2J\x1b[?2026h".spec_bytes(),
{
    let mut out: Vec<u8> = Vec::new();
    push_str(&mut out, "\x1b[?1049h\x1b[?25l\x1b[m\x1b[H\x1b[2J\x1b[?2026h");
    proof {
        assert(out@ =~= "\x1b[?1049h\x1b[?25l\x1b[m\x1b[H\x1b[2J\x1b[?2026h".spec_bytes());
    }
    out
}

/// The end of synchronized output that closes every Kitty payload.
pub open spec fn kitty_end() -> Seq<u8> {
    "\x1b[?2026l".spec_bytes()
}

/// `payload` and then the end of synchronized output.
fn kitty_finish(payload: Vec<u8>) -> (r: Vec<u8>)
    ensures
        r@ == payload@ + "\x1b[?2026l".spec_bytes(),
        r@.len() > payload@.len(),
{
    let mut payload = payload;
    proof {
        reveal_strlit("\x1b[?2026l");
    }
    let tail = "\x1b[?2026l";
    assert(tail.spec_bytes().len() > 0);
    push_lit(&mut payload, tail);
    payload
}

/// `length` bytes: whole copies of `seed` as long as another fits, then spaces.
pub open spec fn exact_repeat(seed: Seq<u8>, length: int) -> Seq<u8> {
    let n = seed.len() as int;
    Seq::new(length as nat, |k: int| if k < (length / n) * n { seed[k % n] } else { 0x20u8 })
}

/// `length` bytes: whole copies of the bytes of `seed` as long as another fits, then spaces.
pub fn repeat_utf8_to_exact(seed: &str, length: usize) -> (r: Vec<u8>)
    requires
        seed.spec_bytes().len() > 0,
    ensures
        r@ == exact_repeat(seed.spec_bytes(), length as int),
        r@.len() == length,
        ({
            let n = seed.spec_bytes().len() as int;
            let full = (length as int / n) * n;
            &&& forall|k: int| 0 <= k < full ==> #[trigger] r@[k] == seed.spec_bytes()[k % n]
            &&& forall|k: int| full <= k < length ==> #[trigger] r@[k] == 0x20u8
        }),
{
    let bytes = seed.as_bytes();
    let n = bytes.len();
    proof {
        vstd::arithmetic::div_mod::lemma_fundamental_div_mod(length as int, n as int);
        assert((length as int / n as int) * (n as int) <= length) by (nonlinear_arith)
            requires
                length as int == (n as int) * (length as int / n as int) + (length as int % n as int),
                length as int % n as int >= 0;
    }
    let full = (length / n) * n;
    let mut out = cycle(bytes, full);
    while out.len() < length
        invariant
            full <= length,
            full <= out@.len() <= length,
            forall|k: int| 0 <= k < full ==> #[trigger] out@[k] == bytes@[k % (n as int)],
            forall|k: int| full <= k < out@.len() ==> #[trigger] out@[k] == 0x20u8,
        decreases length - out@.len(),
    {
        out.push(0x20);
    }
    proof {
        assert(out@ =~= exact_repeat(seed.spec_bytes(), length as int));
    }
    out
}

/// Printable ASCII, line feeds and tabs picked at random from a fixed seed, then the end of
/// synchronized output.
fn kitty_ascii() -> (r: Vec<u8>)
    ensures
        r@ == random_seq(2097165, "abcdefghijklmnopqrstuvwxyzABCDEFGHIJKLMNOPQRSTUVWXYZ  `~!@#$%^&*()_+-=[]{}\\|;:'\",<.>/?\n\t".spec_bytes(), 0x4b49_5454_5900_0001) + kitty_end(),
        r@.len() > 0,
{
    proof {
        reveal_strlit("abcdefghijklmnopqrstuvwxyzABCDEFGHIJKLMNOPQRSTUVWXYZ  `~!@#$%^&*()_+-=[]{}\\|;:'\",<.>/?\n\t");
    }
    let alphabet = "abcdefghijklmnopqrstuvwxyzABCDEFGHIJKLMNOPQRSTUVWXYZ  `~!@#$%^&*()_+-=[]{}\\|;:'\",<.>/?\n\t".as_bytes();
    assert(alphabet@.len() > 0);
    kitty_finish(random_bytes(1024 * 2048 + 13, alphabet, 0x4b49_5454_5900_0001))
}

/// The corpus of the Kitty Unicode workload.
pub open spec fn kitty_corpus() -> Seq<u8> {
    "\u{65e6}\u{6d77}\u{53f8}\u{6709}\u{5e7c}\u{96de}\u{8b80}\u{677e}\u{9f3b}\u{7a2e}\u{6bd4}\u{9580}\u{771f}\u{76ee}\u{602a}\u{5c11}\u{ff0c}\u{4f4d}\u{9999}\u{6cd5}\u{58eb}\u{932f}\u{4e59}\u{97f3}\u{9020}\u{6d3b}\u{7fbd}\u{8a5e}\u{3002}\n\u{98ef}\u{8eb2}\u{88dd}\u{500b}\u{54e5}\u{5bb3}\u{5171}\u{8cb7}\u{53bb}\u{96bb}\u{628a}\u{6c23}\u{5e74}\u{ff0c}\u{5feb}\u{77f3}\u{7259}\u{98fd}\u{77e5}\u{5531}\u{60f3}\u{571f}\u{4eba}\u{3002}\n\u{2018}\u{2019}\u{201c}\u{201d}\u{2039}\u{203a}\u{ab}\u{bb} \u{1f600}\u{1f61b}\u{1f607}\u{1f608}\u{1f609}\u{1f60d}\u{1f60e}\u{1f44d}\u{1f44e} \u{2014}\u{2013}\u{a7}\u{b6}\u{2020}\u{2021}\u{a9}\u{ae}\u{2122} \u{2192}\u{21d2}\u{2022}\u{b7}\u{b0}\u{b1}\u{2212}\u{d7}\u{f7}\u{bc}\u{bd}\u{be}\n\u{c0}\u{c1}\u{c2}\u{c3}\u{c4}\u{c5}\u{c6}\u{c7}\u{c8}\u{c9}\u{ca}\u{cb} \u{3b1}\u{3a9}\u{221e} \u{16b}\u{0300} n\u{0302} H\u{0328} a\u{0320} X\u{0321}\u{0310}\u{0353}\n\t".spec_bytes()
}

/// CJK, emoji, symbols, accents and combining marks repeated to exactly 1895424 bytes, then
/// the end of synchronized output.
fn kitty_unicode() -> (r: Vec<u8>)
    ensures
        r@ == exact_repeat(kitty_corpus(), 1_895_424) + kitty_end(),
        r@.len() > 0,
{
    let corpus = "\u{65e6}\u{6d77}\u{53f8}\u{6709}\u{5e7c}\u{96de}\u{8b80}\u{677e}\u{9f3b}\u{7a2e}\u{6bd4}\u{9580}\u{771f}\u{76ee}\u{602a}\u{5c11}\u{ff0c}\u{4f4d}\u{9999}\u{6cd5}\u{58eb}\u{932f}\u{4e59}\u{97f3}\u{9020}\u{6d3b}\u{7fbd}\u{8a5e}\u{3002}\n\u{98ef}\u{8eb2}\u{88dd}\u{500b}\u{54e5}\u{5bb3}\u{5171}\u{8cb7}\u{53bb}\u{96bb}\u{628a}\u{6c23}\u{5e74}\u{ff0c}\u{5feb}\u{77f3}\u{7259}\u{98fd}\u{77e5}\u{5531}\u{60f3}\u{571f}\u{4eba}\u{3002}\n\u{2018}\u{2019}\u{201c}\u{201d}\u{2039}\u{203a}\u{ab}\u{bb} \u{1f600}\u{1f61b}\u{1f607}\u{1f608}\u{1f609}\u{1f60d}\u{1f60e}\u{1f44d}\u{1f44e} \u{2014}\u{2013}\u{a7}\u{b6}\u{2020}\u{2021}\u{a9}\u{ae}\u{2122} \u{2192}\u{21d2}\u{2022}\u{b7}\u{b0}\u{b1}\u{2212}\u{d7}\u{f7}\u{bc}\u{bd}\u{be}\n\u{c0}\u{c1}\u{c2}\u{c3}\u{c4}\u{c5}\u{c6}\u{c7}\u{c8}\u{c9}\u{ca}\u{cb} \u{3b1}\u{3a9}\u{221e} \u{16b}\u{0300} n\u{0302} H\u{0328} a\u{0320} X\u{0321}\u{0310}\u{0353}\n\t";
    proof {
        reveal_strlit("\u{65e6}\u{6d77}\u{53f8}\u{6709}\u{5e7c}\u{96de}\u{8b80}\u{677e}\u{9f3b}\u{7a2e}\u{6bd4}\u{9580}\u{771f}\u{76ee}\u{602a}\u{5c11}\u{ff0c}\u{4f4d}\u{9999}\u{6cd5}\u{58eb}\u{932f}\u{4e59}\u{97f3}\u{9020}\u{6d3b}\u{7fbd}\u{8a5e}\u{3002}\n\u{98ef}\u{8eb2}\u{88dd}\u{500b}\u{54e5}\u{5bb3}\u{5171}\u{8cb7}\u{53bb}\u{96bb}\u{628a}\u{6c23}\u{5e74}\u{ff0c}\u{5feb}\u{77f3}\u{7259}\u{98fd}\u{77e5}\u{5531}\u{60f3}\u{571f}\u{4eba}\u{3002}\n\u{2018}\u{2019}\u{201c}\u{201d}\u{2039}\u{203a}\u{ab}\u{bb} \u{1f600}\u{1f61b}\u{1f607}\u{1f608}\u{1f609}\u{1f60d}\u{1f60e}\u{1f44d}\u{1f44e} \u{2014}\u{2013}\u{a7}\u{b6}\u{2020}\u{2021}\u{a9}\u{ae}\u{2122} \u{2192}\u{21d2}\u{2022}\u{b7}\u{b0}\u{b1}\u{2212}\u{d7}\u{f7}\u{bc}\u{bd}\u{be}\n\u{c0}\u{c1}\u{c2}\u{c3}\u{c4}\u{c5}\u{c6}\u{c7}\u{c8}\u{c9}\u{ca}\u{cb} \u{3b1}\u{3a9}\u{221e} \u{16b}\u{0300} n\u{0302} H\u{0328} a\u{0320} X\u{0321}\u{0310}\u{0353}\n\t");
    }
    assert(corpus.spec_bytes().len() > 0);
    kitty_finish(repeat_utf8_to_exact(corpus, 1_895_424))
}

/// Appends the bytes of `bytes`.
fn push_all(out: &mut Vec<u8>, bytes: &[u8])
    ensures
        final(out)@ == old(out)@ + bytes@,
{
    let ghost start = out@;
    let mut i: usize = 0;
    while i < bytes.len()
        invariant
            i <= bytes@.len(),
            out@ == start + bytes@.subrange(0, i as int),
        decreases bytes@.len() - i,
    {
        out.push(bytes[i]);
        i = i + 1;
        proof {
            assert(out@ =~= start + bytes@.subrange(0, i as int));
        }
    }
    proof {
        assert(bytes@.subrange(0, bytes@.len() as int) =~= bytes@);
    }
}

/// The alphabet the Kitty workloads pick text from.
pub open spec fn kitty_text() -> Seq<u8> {
    "abcdefghijklmnopqrstuvwxyzABCDEFGHIJKLMNOPQRSTUVWXYZ  `~!@#$%^&*()_+-=[]{}\\|;:'\",<.>/?\n\t".spec_bytes()
}

/// `count` bytes of text picked by the generator from state `state`, one step each, and the
/// state after them.
pub open spec fn text_bytes(state: u64, count: nat) -> (Seq<u8>, u64)
    decreases count,
{
    if count == 0 {
        (Seq::empty(), state)
    } else {
        let (b, s1) = text_bytes(state, (count - 1) as nat);
        let s2 = lcg_step(s1);
        (b.push(kitty_text()[lcg_pick(s2, kitty_text().len() as usize) as int]), s2)
    }
}

/// One step of the CSI workload from generator state `state`: a choice out of a hundred, then
/// up to 72 bytes of text or one of five sequences; and the state after it.
pub open spec fn csi_step(state: u64) -> (Seq<u8>, u64) {
    let s1 = lcg_step(state);
    let choice = lcg_pick(s1, 100);
    if choice <= 9 {
        let s2 = lcg_step(s1);
        text_bytes(s2, (lcg_pick(s2, 72) + 1) as nat)
    } else if 30 <= choice <= 39 {
        ("\x1b[1;2;3;4:3;31m".spec_bytes(), s1)
    } else if 40 <= choice <= 49 {
        ("\x1b[38:5:24;48:2:125:136:147m".spec_bytes(), s1)
    } else if 50 <= choice <= 59 {
        ("\x1b[58;5;44;2m".spec_bytes(), s1)
    } else if 60 <= choice <= 79 {
        ("\x1b[m\x1b[10A\x1b[3E\x1b[2K".spec_bytes(), s1)
    } else {
        ("\x1b[39m\x1b[10`a\x1b[100b\x1b[?1l".spec_bytes(), s1)
    }
}

/// The bytes of the first `k` steps of the CSI workload from `seed`, and the state after them.
pub open spec fn csi_upto(k: nat, seed: u64) -> (Seq<u8>, u64)
    decreases k,
{
    if k == 0 {
        (Seq::empty(), seed)
    } else {
        let (b, st) = csi_upto((k - 1) as nat, seed);
        (b + csi_step(st).0, csi_step(st).1)
    }
}

/// The seed of the CSI workload.
pub open spec fn csi_seed() -> u64 {
    0x4b49_5454_5900_0002
}

/// `k` steps are the first that reach 1048593 bytes.
pub open spec fn csi_done(k: nat) -> bool {
    &&& csi_upto(k, csi_seed()).0.len() >= 1048593
    &&& forall|j: nat| j < k ==> (#[trigger] csi_upto(j, csi_seed())).0.len() < 1048593
}

/// The CSI workload's steps until 1048593 bytes are reached, default attributes, and the end
/// of synchronized output.
pub open spec fn csi_stream() -> Seq<u8> {
    csi_upto(choose|k: nat| csi_done(k), csi_seed()).0 + "\x1b[m".spec_bytes() + kitty_end()
}

/// Short random text interleaved with SGR, cursor, erase and repeat sequences, chosen by the
/// generator from a fixed seed, past 1048593 bytes; then default attributes and the end of
/// synchronized output.
fn kitty_csi() -> (r: Vec<u8>)
    ensures
        r@ == csi_stream(),
        r@.len() > 0,
{
    let target: usize = 1024 * 1024 + 17;
    proof {
        reveal_strlit("abcdefghijklmnopqrstuvwxyzABCDEFGHIJKLMNOPQRSTUVWXYZ  `~!@#$%^&*()_+-=[]{}\\|;:'\",<.>/?\n\t");
        reveal_strlit("\x1b[1;2;3;4:3;31m");
        reveal_strlit("\x1b[38:5:24;48:2:125:136:147m");
        reveal_strlit("\x1b[58;5;44;2m");
        reveal_strlit("\x1b[m\x1b[10A\x1b[3E\x1b[2K");
        reveal_strlit("\x1b[39m\x1b[10`a\x1b[100b\x1b[?1l");
    }
    let text = "abcdefghijklmnopqrstuvwxyzABCDEFGHIJKLMNOPQRSTUVWXYZ  `~!@#$%^&*()_+-=[]{}\\|;:'\",<.>/?\n\t".as_bytes();
    assert(text@.len() > 0);
    assert("\x1b[1;2;3;4:3;31m".spec_bytes().len() > 0);
    assert("\x1b[38:5:24;48:2:125:136:147m".spec_bytes().len() > 0);
    assert("\x1b[58;5;44;2m".spec_bytes().len() > 0);
    assert("\x1b[m\x1b[10A\x1b[3E\x1b[2K".spec_bytes().len() > 0);
    assert("\x1b[39m\x1b[10`a\x1b[100b\x1b[?1l".spec_bytes().len() > 0);
    let mut rng = Lcg::new(0x4b49_5454_5900_0002);
    let mut output: Vec<u8> = Vec::new();
    let ghost mut steps: nat = 0;
    while output.len() < target
        invariant
            target == 1048593,
            text@ == kitty_text(),
            text@.len() > 0,
            "\x1b[1;2;3;4:3;31m".spec_bytes().len() > 0,
            "\x1b[38:5:24;48:2:125:136:147m".spec_bytes().len() > 0,
            "\x1b[58;5;44;2m".spec_bytes().len() > 0,
            "\x1b[m\x1b[10A\x1b[3E\x1b[2K".spec_bytes().len() > 0,
            "\x1b[39m\x1b[10`a\x1b[100b\x1b[?1l".spec_bytes().len() > 0,
            output@ == csi_upto(steps, csi_seed()).0,
            rng.state() == csi_upto(steps, csi_seed()).1,
            forall|j: nat| j < steps ==> (#[trigger] csi_upto(j, csi_seed())).0.len() < target,
        decreases if output@.len() < target { target - output@.len() } else { 0 },
    {
        let ghost st = rng.state();
        let ghost before = output@;
        proof {
            assert(csi_upto(steps, csi_seed()).0.len() < target);
        }
        let choice = rng.next_usize(100);
        if choice <= 9 {
            let length = rng.next_usize(72) + 1;
            let ghost s2 = rng.state();
            let mut k: usize = 0;
            while k < length
                invariant
                    k <= length,
                    text@ == kitty_text(),
                    text@.len() > 0,
                    output@ == before + text_bytes(s2, k as nat).0,
                    rng.state() == text_bytes(s2, k as nat).1,
                decreases length - k,
            {
                let pick = rng.next_usize(text.len());
                output.push(text[pick]);
                proof {
                    assert(output@ =~= before + text_bytes(s2, (k + 1) as nat).0);
                }
                k = k + 1;
            }
        } else if 30 <= choice && choice <= 39 {
            push_lit(&mut output, "\x1b[1;2;3;4:3;31m");
        } else if 40 <= choice && choice <= 49 {
            push_lit(&mut output, "\x1b[38:5:24;48:2:125:136:147m");
        } else if 50 <= choice && choice <= 59 {
            push_lit(&mut output, "\x1b[58;5;44;2m");
        } else if 60 <= choice && choice <= 79 {
            push_lit(&mut output, "\x1b[m\x1b[10A\x1b[3E\x1b[2K");
        } else {
            push_lit(&mut output, "\x1b[39m\x1b[10`a\x1b[100b\x1b[?1l");
        }
        proof {
            assert(csi_step(st).1 == rng.state());
            assert(output@ =~= before + csi_step(st).0);
            assert(csi_upto(steps + 1, csi_seed()) == (csi_upto(steps, csi_seed()).0 + csi_step(st).0, csi_step(st).1));
            steps = steps + 1;
        }
    }
    proof {
        assert(csi_done(steps));
        let k = choose|k: nat| csi_done(k);
        if k < steps {
            assert(csi_upto(k, csi_seed()).0.len() < target);
        } else if k > steps {
            assert(csi_upto(steps, csi_seed()).0.len() < target);
        }
        assert(k == steps);
    }
    let ghost body = output@;
    push_str(&mut output, "\x1b[m");
    let r = kitty_finish(output);
    proof {
        assert(r@ =~= csi_stream());
    }
    r
}

/// The base64 text of a blank 1024 by 1024 RGBA image: `A`s, with the two padding `=`s at the
/// end.
pub open spec fn image_encoded() -> Seq<u8> {
    Seq::new(5592408, |k: int| if k >= 5592406 { 0x3du8 } else { 0x41u8 })
}

/// Graphics command `i` of the 1366 that send the image: a header (the first one transmits,
/// the last one ends the transfer), 4096 encoded bytes (fewer in the last) and the string
/// terminator.
pub open spec fn image_chunk(i: int) -> Seq<u8> {
    let start = i * 4096;
    let end = if start + 4096 < 5592408 { start + 4096 } else { 5592408 };
    (if i == 0 {
        "\x1b_Ga=t,f=32,s=1024,v=1024,i=12345,q=2,m=1;".spec_bytes()
    } else if i + 1 == 1366 {
        "\x1b_Gm=0;".spec_bytes()
    } else {
        "\x1b_Gm=1;".spec_bytes()
    }) + image_encoded().subrange(start, end) + "\x1b\\".spec_bytes()
}

/// The first `k` graphics commands.
pub open spec fn image_chunks(k: int) -> Seq<u8>
    decreases k,
{
    if k <= 0 { Seq::empty() } else { image_chunks(k - 1) + image_chunk(k - 1) }
}

/// The image workload: the image sent, then deleted, then the end of synchronized output.
pub open spec fn images_stream() -> Seq<u8> {
    image_chunks(1366) + "\x1b_Ga=d,d=i,i=12345,q=2\x1b\\".spec_bytes() + kitty_end()
}

/// An uncompressed 1024 by 1024 RGBA image sent with the Kitty graphics protocol in chunks
/// of 4096 encoded bytes, then deleted; then the end of synchronized output.
#[verifier::spinoff_prover]
fn kitty_images() -> (r: Vec<u8>)
    ensures
        r@ == images_stream(),
        r@.len() > 0,
{
    let rgba_bytes: usize = 4 * 1024 * 1024;
    let encoded_bytes: usize = (rgba_bytes + 2) / 3 * 4;
    let graphics_chunk: usize = 4096;
    let mut encoded: Vec<u8> = Vec::new();
    while encoded.len() < encoded_bytes
        invariant
            encoded@.len() <= encoded_bytes,
            encoded_bytes == 5592408,
            forall|k: int| 0 <= k < encoded@.len() ==> #[trigger] encoded@[k] == 0x41u8,
        decreases encoded_bytes - encoded@.len(),
    {
        encoded.push(0x41);
    }
    let remainder = rgba_bytes % 3;
    if remainder != 0 {
        let padding = 3 - remainder;
        let mut k: usize = 0;
        while k < padding
            invariant
                k <= padding,
                padding == 2,
                encoded@.len() == 5592408,
                forall|j: int| 0 <= j < 5592408 - k ==> #[trigger] encoded@[j] == 0x41u8,
                forall|j: int| 5592408 - k <= j < 5592408 ==> #[trigger] encoded@[j] == 0x3du8,
            decreases padding - k,
        {
            let last = encoded.len() - 1 - k;
            encoded.set(last, 0x3d);
            k = k + 1;
        }
    }
    proof {
        assert(encoded@ =~= image_encoded());
    }
    let chunks = (encoded.len() + graphics_chunk - 1) / graphics_chunk;
    let mut output: Vec<u8> = Vec::new();
    let mut index: usize = 0;
    while index < chunks
        invariant
            index <= chunks,
            chunks == 1366,
            encoded@ == image_encoded(),
            graphics_chunk == 4096,
            output@ == image_chunks(index as int),
        decreases chunks - index,
    {
        let ghost at = output@;
        if index == 0 {
            push_str(&mut output, "\x1b_Ga=t,f=32,s=1024,v=1024,i=12345,q=2,m=1;");
        } else if index + 1 == chunks {
            push_str(&mut output, "\x1b_Gm=0;");
        } else {
            push_str(&mut output, "\x1b_Gm=1;");
        }
        let ghost at2 = output@;
        let start = index * graphics_chunk;
        let end = if start + graphics_chunk < encoded.len() { start + graphics_chunk } else { encoded.len() };
        let mut k = start;
        while k < end
            invariant
                start <= k <= end <= encoded@.len(),
                output@ == at2 + encoded@.subrange(start as int, k as int),
            decreases end - k,
        {
            output.push(encoded[k]);
            k = k + 1;
            proof {
                assert(output@ =~= at2 + encoded@.subrange(start as int, k as int));
            }
        }
        push_str(&mut output, "\x1b\\");
        proof {
            assert(output@ =~= at + image_chunk(index as int));
        }
        index = index + 1;
    }
    push_str(&mut output, "\x1b_Ga=d,d=i,i=12345,q=2\x1b\\");
    let r = kitty_finish(output);
    proof {
        assert(r@ =~= images_stream());
    }
    r
}

/// `k` OSC 6 sequences with payload `body`, each ended by BEL.
pub open spec fn osc_upto(k: int, body: Seq<u8>) -> Seq<u8>
    decreases k,
{
    if k <= 0 { Seq::empty() } else { osc_upto(k - 1, body) + "\x1b]6;".spec_bytes() + body + seq![0x07u8] }
}

/// 1024 OSC 6 sequences, each with the same 8024 random printable bytes from a fixed seed and
/// ended by BEL; then the end of synchronized output.
fn kitty_long_escape_codes() -> (r: Vec<u8>)
    ensures
        r@ == osc_upto(1024, random_seq(8024, "abcdefghijklmnopqrstuvwxyzABCDEFGHIJKLMNOPQRSTUVWXYZ  `~!@#$%^&*()_+-=[]{}\\|;:'\",<.>/?".spec_bytes(), 0x4b49_5454_5900_0003)) + kitty_end(),
        r@.len() > 0,
{
    proof {
        reveal_strlit("abcdefghijklmnopqrstuvwxyzABCDEFGHIJKLMNOPQRSTUVWXYZ  `~!@#$%^&*()_+-=[]{}\\|;:'\",<.>/?");
    }
    let printable = "abcdefghijklmnopqrstuvwxyzABCDEFGHIJKLMNOPQRSTUVWXYZ  `~!@#$%^&*()_+-=[]{}\\|;:'\",<.>/?".as_bytes();
    assert(printable@.len() > 0);
    let body = random_bytes(8024, printable, 0x4b49_5454_5900_0003);
    let mut output: Vec<u8> = Vec::new();
    let mut k: usize = 0;
    while k < 1024
        invariant
            k <= 1024,
            output@ == osc_upto(k as int, body@),
        decreases 1024 - k,
    {
        push_str(&mut output, "\x1b]6;");
        push_all(&mut output, body.as_slice());
        output.push(0x07);
        proof {
            assert(output@ =~= osc_upto(k + 1, body@));
        }
        k = k + 1;
    }
    kitty_finish(output)
}

/// The bytes of `s`.
fn lit_bytes(s: &str) -> (r: Vec<u8>)
    ensures
        r@ == s.spec_bytes(),
{
    let mut out: Vec<u8> = Vec::new();
    push_str(&mut out, s);
    proof {
        assert(out@ =~= s.spec_bytes());
    }
    out
}

/// The setup of the scrolling workloads that run on the primary screen: 100001 lines of `y`,
/// filling the scrollback.
fn scrolling_setup() -> (r: Vec<u8>)
    ensures
        r@ == cycled(seq![0x79u8, 0x0au8], repeated_len(200002, 2)),
{
    let seed: Vec<u8> = vec![0x79u8, 0x0a];
    proof {
        assert(seed@ =~= seq![0x79u8, 0x0au8]);
    }
    repeat_bytes(seed.as_slice(), 100_001 * 2)
}

/// The names of the workloads, in the order `parser_workloads` gives them.
pub open spec fn workload_names() -> Seq<Seq<char>> {
    seq!["cursor_motion"@, "dense_cells"@, "light_cells"@, "medium_cells"@, "scrolling_bottom_region"@, "scrolling_bottom_small_region"@, "scrolling_fullscreen"@, "scrolling_top_region"@, "scrolling_top_small_region"@, "scrolling"@, "sync_medium_cells"@, "unicode"@, "ascii"@, "unicode"@, "csi"@, "images"@, "long_escape_codes"@]
}

/// What each workload says it exercises, in the order `parser_workloads` gives them.
pub open spec fn workload_descriptions() -> Seq<Seq<char>> {
    seq!["Cursor-addressed writes around nested viewport rectangles"@, "Full-screen writes with indexed foreground/background and bold/italic/underline"@, "Repeated full-screen plain ASCII updates without scrolling"@, "Escape-heavy Vim-style recorded-session equivalent"@, "Line-feed scrolling in rows 1\u{2013}23"@, "Line-feed scrolling in rows 1\u{2013}12"@, "Full-width A\u{2013}Z lines scrolling the primary screen and scrollback"@, "Line-feed scrolling in rows 2\u{2013}24"@, "Line-feed scrolling in rows 12\u{2013}24"@, "Short line-feed writes scrolling a full primary screen with full scrollback"@, "Escape-heavy Vim-style updates using synchronized-output boundaries"@, "Large mixed-script, combining-mark, symbol, CJK, and emoji stream"@, "Only printable ASCII plus newline and tab controls"@, "Repeated CJK, emoji, symbols, accents, and combining marks"@, "Sparse text interleaved with SGR, cursor, erase, and repeat CSI commands"@, "Uncompressed 1024\u{d7}1024 RGBA Kitty graphics transmit followed by delete"@, "1,024 ignored OSC 6 commands with 8,024-byte printable payloads"@]
}

/// The setup bytes of workload `i` of `parser_workloads`.
pub open spec fn workload_setup(i: int) -> Seq<u8> {
        if i == 0 {
            Seq::<u8>::empty()
        } else if i == 1 {
            "\x1b[?1049h".spec_bytes()
        } else if i == 2 {
            "\x1b[?1049h".spec_bytes()
        } else if i == 3 {
            Seq::<u8>::empty()
        } else if i == 4 {
            "\x1b[?1049h\x1b[1;23r".spec_bytes()
        } else if i == 5 {
            "\x1b[?1049h\x1b[1;12r".spec_bytes()
        } else if i == 6 {
            cycled(seq![0x79u8, 0x0au8], repeated_len(200002, 2))
        } else if i == 7 {
            "\x1b[?1049h\x1b[2;24r".spec_bytes()
        } else if i == 8 {
            "\x1b[?1049h\x1b[12;24r".spec_bytes()
        } else if i == 9 {
            cycled(seq![0x79u8, 0x0au8], repeated_len(200002, 2))
        } else if i == 10 {
            Seq::<u8>::empty()
        } else if i == 11 {
            "\x1b[?1049h".spec_bytes()
        } else if i == 12 {
            "\x1b[?1049h\x1b[?25l\x1b[m\x1b[H\x1b[2J\x1b[?2026h".spec_bytes()
        } else if i == 13 {
            "\x1b[?1049h\x1b[?25l\x1b[m\x1b[H\x1b[2J\x1b[?2026h".spec_bytes()
        } else if i == 14 {
            "\x1b[?1049h\x1b[?25l\x1b[m\x1b[H\x1b[2J\x1b[?2026h".spec_bytes()
        } else if i == 15 {
            "\x1b[?1049h\x1b[?25l\x1b[m\x1b[H\x1b[2J\x1b[?2026h".spec_bytes()
        } else {
            "\x1b[?1049h\x1b[?25l\x1b[m\x1b[H\x1b[2J\x1b[?2026h".spec_bytes()
        }
}

/// How many of `ws` belong to the suite `suite`.
pub open spec fn suite_count(ws: Seq<ParserWorkload>, suite: Seq<char>) -> nat
    decreases ws.len(),
{
    if ws.len() == 0 {
        0
    } else {
        suite_count(ws.drop_last(), suite) + if ws.last().suite@ == suite { 1nat } else { 0 }
    }
}

/// What the benchmark asks of its workloads: twelve from vtebench and five from Kitty, no two
/// with the same qualified name, none with an empty payload, and every vtebench payload at
/// least `VTEBENCH_MIN_BYTES` long.
pub open spec fn workloads_valid(ws: Seq<ParserWorkload>) -> bool {
    &&& suite_count(ws, "vtebench"@) == 12
    &&& suite_count(ws, "kitty"@) == 5
    &&& forall|i: int, j: int|
        0 <= i < j < ws.len() ==> qualified(ws[i].suite@, ws[i].name@) != qualified(ws[j].suite@, ws[j].name@)
    &&& forall|i: int| 0 <= i < ws.len() ==> (#[trigger] ws[i].payload@).len() > 0
    &&& forall|i: int|
        0 <= i < ws.len() && ws[i].suite@ == "vtebench"@ ==> (#[trigger] ws[i].payload@).len() >= VTEBENCH_MIN_BYTES
}

/// The payload of workload `i` of `parser_workloads`.
pub open spec fn workload_payload(i: int) -> Seq<u8> {
    if i == 0 {
        to_min(cursor_motion_upto(26))
    } else if i == 1 {
        to_min(dense_upto(26))
    } else if i == 2 {
        to_min(light_upto(26))
    } else if i == 3 {
        to_min(medium_stream(false))
    } else if i == 4 {
        to_min(seq![0x79u8, 0x0au8])
    } else if i == 5 {
        to_min(seq![0x79u8, 0x0au8])
    } else if i == 6 {
        to_min(fullscreen_upto(26))
    } else if i == 7 {
        to_min(seq![0x79u8, 0x0au8])
    } else if i == 8 {
        to_min(seq![0x79u8, 0x0au8])
    } else if i == 9 {
        to_min(seq![0x79u8, 0x0au8])
    } else if i == 10 {
        to_min(medium_stream(true))
    } else if i == 11 {
        to_min(cycled(unicode_corpus(), repeated_len(138296, unicode_corpus().len() as int)))
    } else if i == 12 {
        random_seq(2097165, "abcdefghijklmnopqrstuvwxyzABCDEFGHIJKLMNOPQRSTUVWXYZ  `~!@#$%^&*()_+-=[]{}\\|;:'\",<.>/?\n\t".spec_bytes(), 0x4b49_5454_5900_0001) + kitty_end()
    } else if i == 13 {
        exact_repeat(kitty_corpus(), 1_895_424) + kitty_end()
    } else if i == 14 {
        csi_stream()
    } else if i == 15 {
        images_stream()
    } else {
        osc_upto(1024, random_seq(8024, "abcdefghijklmnopqrstuvwxyzABCDEFGHIJKLMNOPQRSTUVWXYZ  `~!@#$%^&*()_+-=[]{}\\|;:'\",<.>/?".spec_bytes(), 0x4b49_5454_5900_0003)) + kitty_end()
    }
}

/// Workload `i` of `parser_workloads`.
#[verifier::spinoff_prover]
#[verifier::rlimit(100)]
fn workload(i: usize) -> (w: ParserWorkload)
    requires
        i < 17,
    ensures
        w.suite@ == (if i < 12 { "vtebench"@ } else { "kitty"@ }),
        w.name@ == workload_names()[i as int],
        w.description@ == workload_descriptions()[i as int],
        w.setup@ == workload_setup(i as int),
        w.payload@ == workload_payload(i as int),
        w.payload@.len() > 0,
        i < 12 ==> w.payload@.len() >= VTEBENCH_MIN_BYTES,
{
    if i == 0 {
        ParserWorkload::new("vtebench", "cursor_motion", "Cursor-addressed writes around nested viewport rectangles", Vec::new(), vte_cursor_motion())
    } else if i == 1 {
        ParserWorkload::new("vtebench", "dense_cells", "Full-screen writes with indexed foreground/background and bold/italic/underline", lit_bytes("\x1b[?1049h"), vte_dense_cells())
    } else if i == 2 {
        ParserWorkload::new("vtebench", "light_cells", "Repeated full-screen plain ASCII updates without scrolling", lit_bytes("\x1b[?1049h"), vte_light_cells())
    } else if i == 3 {
        ParserWorkload::new("vtebench", "medium_cells", "Escape-heavy Vim-style recorded-session equivalent", Vec::new(), vte_medium_cells(false))
    } else if i == 4 {
        ParserWorkload::new("vtebench", "scrolling_bottom_region", "Line-feed scrolling in rows 1\u{2013}23", lit_bytes("\x1b[?1049h\x1b[1;23r"), vte_scrolling())
    } else if i == 5 {
        ParserWorkload::new("vtebench", "scrolling_bottom_small_region", "Line-feed scrolling in rows 1\u{2013}12", lit_bytes("\x1b[?1049h\x1b[1;12r"), vte_scrolling())
    } else if i == 6 {
        ParserWorkload::new("vtebench", "scrolling_fullscreen", "Full-width A\u{2013}Z lines scrolling the primary screen and scrollback", scrolling_setup(), vte_scrolling_fullscreen())
    } else if i == 7 {
        ParserWorkload::new("vtebench", "scrolling_top_region", "Line-feed scrolling in rows 2\u{2013}24", lit_bytes("\x1b[?1049h\x1b[2;24r"), vte_scrolling())
    } else if i == 8 {
        ParserWorkload::new("vtebench", "scrolling_top_small_region", "Line-feed scrolling in rows 12\u{2013}24", lit_bytes("\x1b[?1049h\x1b[12;24r"), vte_scrolling())
    } else if i == 9 {
        ParserWorkload::new("vtebench", "scrolling", "Short line-feed writes scrolling a full primary screen with full scrollback", scrolling_setup(), vte_scrolling())
    } else if i == 10 {
        ParserWorkload::new("vtebench", "sync_medium_cells", "Escape-heavy Vim-style updates using synchronized-output boundaries", Vec::new(), vte_medium_cells(true))
    } else if i == 11 {
        ParserWorkload::new("vtebench", "unicode", "Large mixed-script, combining-mark, symbol, CJK, and emoji stream", lit_bytes("\x1b[?1049h"), vte_unicode())
    } else if i == 12 {
        ParserWorkload::new("kitty", "ascii", "Only printable ASCII plus newline and tab controls", kitty_setup(), kitty_ascii())
    } else if i == 13 {
        ParserWorkload::new("kitty", "unicode", "Repeated CJK, emoji, symbols, accents, and combining marks", kitty_setup(), kitty_unicode())
    } else if i == 14 {
        ParserWorkload::new("kitty", "csi", "Sparse text interleaved with SGR, cursor, erase, and repeat CSI commands", kitty_setup(), kitty_csi())
    } else if i == 15 {
        ParserWorkload::new("kitty", "images", "Uncompressed 1024\u{d7}1024 RGBA Kitty graphics transmit followed by delete", kitty_setup(), kitty_images())
    } else {
        ParserWorkload::new("kitty", "long_escape_codes", "1,024 ignored OSC 6 commands with 8,024-byte printable payloads", kitty_setup(), kitty_long_escape_codes())
    }
}

/// The parser benchmark's workloads: the twelve of vtebench, then the five families of Kitty,
/// named as `workload_names` lists them, each with the setup `workload_setup` and the payload
/// `workload_payload` gives.
pub fn parser_workloads() -> (r: Vec<ParserWorkload>)
    ensures
        r@.len() == 17,
        forall|i: int| 0 <= i < 12 ==> (#[trigger] r@[i]).suite@ == "vtebench"@,
        forall|i: int| 12 <= i < 17 ==> (#[trigger] r@[i]).suite@ == "kitty"@,
        forall|i: int| 0 <= i < 17 ==> (#[trigger] r@[i]).name@ == workload_names()[i],
        forall|i: int| 0 <= i < 17 ==> (#[trigger] r@[i]).description@ == workload_descriptions()[i],
        forall|i: int| 0 <= i < 17 ==> (#[trigger] r@[i]).setup@ == workload_setup(i),
        forall|i: int| 0 <= i < 17 ==> (#[trigger] r@[i]).payload@ == workload_payload(i),
        workloads_valid(r@),
{
    let mut r: Vec<ParserWorkload> = Vec::new();
    let mut i: usize = 0;
    while i < 17
        invariant
            i <= 17,
            r@.len() == i,
            forall|j: int| 0 <= j < i && j < 12 ==> (#[trigger] r@[j]).suite@ == "vtebench"@,
            forall|j: int| 12 <= j < i ==> (#[trigger] r@[j]).suite@ == "kitty"@,
            forall|j: int| 0 <= j < i ==> (#[trigger] r@[j]).name@ == workload_names()[j],
            forall|j: int| 0 <= j < i ==> (#[trigger] r@[j]).description@ == workload_descriptions()[j],
            forall|j: int| 0 <= j < i ==> (#[trigger] r@[j]).setup@ == workload_setup(j),
            forall|j: int| 0 <= j < i ==> (#[trigger] r@[j]).payload@ == workload_payload(j),
            forall|j: int| 0 <= j < i ==> (#[trigger] r@[j].payload@).len() > 0,
            forall|j: int| 0 <= j < i && j < 12 ==> (#[trigger] r@[j].payload@).len() >= VTEBENCH_MIN_BYTES,
        decreases 17 - i,
    {
        let w = workload(i);
        r.push(w);
        i = i + 1;
    }
    proof {
        lemma_workloads_valid(r@);
    }
    r
}

/// Seventeen workloads of the suites and names `parser_workloads` gives, with non-empty
/// payloads, the vtebench ones long enough, meet `workloads_valid`.
proof fn lemma_workloads_valid(ws: Seq<ParserWorkload>)
    requires
        ws.len() == 17,
        forall|i: int| 0 <= i < 12 ==> (#[trigger] ws[i]).suite@ == "vtebench"@,
        forall|i: int| 12 <= i < 17 ==> (#[trigger] ws[i]).suite@ == "kitty"@,
        forall|i: int| 0 <= i < 17 ==> (#[trigger] ws[i]).name@ == workload_names()[i],
        forall|i: int| 0 <= i < 17 ==> (#[trigger] ws[i].payload@).len() > 0,
        forall|i: int| 0 <= i < 12 ==> (#[trigger] ws[i].payload@).len() >= VTEBENCH_MIN_BYTES,
    ensures
        workloads_valid(ws),
{
    reveal_strlit("vtebench");
    reveal_strlit("kitty");
    reveal_with_fuel(suite_count, 18);
    let v = "vtebench"@;
    let k = "kitty"@;
    assert(v[0] != k[0]);
    assert forall|n: int| 0 <= n <= 17 implies #[trigger] suite_count(ws.subrange(0, n), v) == (if n <= 12 { n } else { 12 })
        && suite_count(ws.subrange(0, n), k) == (if n <= 12 { 0 } else { n - 12 }) by {
        lemma_counts_prefix(ws, n, v, k);
    }
    assert(ws.subrange(0, 17) =~= ws);
    lemma_names_distinct();
    assert forall|i: int, j: int| 0 <= i < j < ws.len() implies qualified(ws[i].suite@, ws[i].name@) != qualified(ws[j].suite@, ws[j].name@) by {
        let qi = qualified(ws[i].suite@, ws[i].name@);
        let qj = qualified(ws[j].suite@, ws[j].name@);
        if i < 12 && j >= 12 {
            assert(qi[0] == v[0]);
            assert(qj[0] == k[0]);
        } else {
            let su = ws[i].suite@;
            assert(ws[j].suite@ == su);
            if qi == qj {
                let ni = ws[i].name@;
                let nj = ws[j].name@;
                assert(qi.len() == su.len() + 1 + ni.len());
                assert(qj.len() == su.len() + 1 + nj.len());
                assert(ni.len() == nj.len());
                assert forall|c: int| 0 <= c < ni.len() implies ni[c] == nj[c] by {
                    assert(qi[su.len() + 1 + c] == ni[c]);
                    assert(qj[su.len() + 1 + c] == nj[c]);
                }
                assert(ni =~= nj);
            }
        }
    }
}

/// How many of the first `n` workloads belong to each suite.
proof fn lemma_counts_prefix(ws: Seq<ParserWorkload>, n: int, v: Seq<char>, k: Seq<char>)
    requires
        ws.len() == 17,
        0 <= n <= 17,
        v != k,
        forall|i: int| 0 <= i < 12 ==> (#[trigger] ws[i]).suite@ == v,
        forall|i: int| 12 <= i < 17 ==> (#[trigger] ws[i]).suite@ == k,
    ensures
        suite_count(ws.subrange(0, n), v) == (if n <= 12 { n } else { 12 }),
        suite_count(ws.subrange(0, n), k) == (if n <= 12 { 0 } else { n - 12 }),
    decreases n,
{
    if n > 0 {
        lemma_counts_prefix(ws, n - 1, v, k);
        assert(ws.subrange(0, n).drop_last() =~= ws.subrange(0, n - 1));
        assert(ws.subrange(0, n).last() == ws[n - 1]);
    }
}

/// No two workloads of a suite share a name.
proof fn lemma_names_distinct()
    ensures
        forall|i: int, j: int| 0 <= i < j < 12 ==> workload_names()[i] != workload_names()[j],
        forall|i: int, j: int| 12 <= i < j < 17 ==> workload_names()[i] != workload_names()[j],
{
    reveal_strlit("cursor_motion");
    reveal_strlit("dense_cells");
    reveal_strlit("light_cells");
    reveal_strlit("medium_cells");
    reveal_strlit("scrolling_bottom_region");
    reveal_strlit("scrolling_bottom_small_region");
    reveal_strlit("scrolling_fullscreen");
    reveal_strlit("scrolling_top_region");
    reveal_strlit("scrolling_top_small_region");
    reveal_strlit("scrolling");
    reveal_strlit("sync_medium_cells");
    reveal_strlit("unicode");
    reveal_strlit("ascii");
    reveal_strlit("csi");
    reveal_strlit("images");
    reveal_strlit("long_escape_codes");
    let w = workload_names();
    assert(w[1][0] != w[2][0]);
    assert(w[6][10] != w[7][10]);
    assert forall|i: int, j: int| 0 <= i < j < 12 implies w[i] != w[j] by {
        if i == 1 && j == 2 {
        } else if i == 6 && j == 7 {
        } else {
            assert(w[i].len() != w[j].len());
        }
    }
    assert forall|i: int, j: int| 12 <= i < j < 17 implies w[i] != w[j] by {
        assert(w[i].len() != w[j].len());
    }
}

/// How many of `ws` belong to the suite named `suite`.
fn count_suite(ws: &[ParserWorkload], suite: &String) -> (r: usize)
    ensures
        r == suite_count(ws@, suite@),
{
    let mut count: usize = 0;
    let mut i: usize = 0;
    while i < ws.len()
        invariant
            i <= ws@.len(),
            count == suite_count(ws@.subrange(0, i as int), suite@),
            count <= i,
        decreases ws@.len() - i,
    {
        proof {
            assert(ws@.subrange(0, i + 1).drop_last() =~= ws@.subrange(0, i as int));
        }
        if ws[i].suite == *suite {
            count = count + 1;
        }
        i = i + 1;
    }
    proof {
        assert(ws@.subrange(0, ws@.len() as int) =~= ws@);
    }
    count
}

/// Whether `ws` meets what the benchmark asks of its workloads, as `workloads_valid` says.
pub fn validate_workloads(ws: &[ParserWorkload]) -> (r: bool)
    ensures
        r == workloads_valid(ws@),
{
    let vtebench = "vtebench".to_owned();
    let kitty = "kitty".to_owned();
    if count_suite(ws, &vtebench) != 12 || count_suite(ws, &kitty) != 5 {
        return false;
    }
    let n = ws.len();
    let mut i: usize = 0;
    while i < n
        invariant
            n == ws@.len(),
            i <= n,
            vtebench@ == "vtebench"@,
            forall|a: int, b: int|
                0 <= a < i && a < b < n ==> qualified(ws@[a].suite@, ws@[a].name@) != qualified(ws@[b].suite@, ws@[b].name@),
            forall|a: int| 0 <= a < i ==> (#[trigger] ws@[a].payload@).len() > 0,
            forall|a: int|
                0 <= a < i && ws@[a].suite@ == "vtebench"@ ==> (#[trigger] ws@[a].payload@).len() >= VTEBENCH_MIN_BYTES,
        decreases n - i,
    {
        let qi = ws[i].qualified_name();
        let mut j: usize = i + 1;
        while j < n
            invariant
                n == ws@.len(),
                i < n,
                i + 1 <= j <= n,
                qi@ == qualified(ws@[i as int].suite@, ws@[i as int].name@),
                forall|b: int| i < b < j ==> qualified(ws@[i as int].suite@, ws@[i as int].name@) != qualified(ws@[b].suite@, ws@[b].name@),
            decreases n - j,
        {
            let qj = ws[j].qualified_name();
            if qi == qj {
                return false;
            }
            j = j + 1;
        }
        if ws[i].payload.len() == 0 {
            return false;
        }
        if ws[i].suite == vtebench && ws[i].payload.len() < VTEBENCH_MIN_BYTES {
            return false;
        }
        i = i + 1;
    }
    true
}

} // verus!
