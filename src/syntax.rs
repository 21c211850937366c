use vstd::prelude::*;
use vstd::string::StringSliceAdditionalSpecFns;
use crate::error::{Fault, ParseError};
use crate::render::{ascii_to_string, chars_of, is_ascii_bytes};
use crate::scalar::Scalar;
use crate::value::{Val, Vector};

verus! {

/// A binary operator of the expression grammar.
#[derive(Debug, Clone, Copy, PartialEq, Eq, Structural)]
pub enum Op {
    Add,
    Subtract,
    Dot,
    Cross,
    Multiply,
    Divide,
    Power,
}

/// A leaf of an expression: a literal or a variable name.
#[derive(Debug, Clone, PartialEq)]
pub enum Operand {
    Number(Scalar),
    Vector(Vector),
    Ident(String),
}

/// What an operand stands for before variables are looked up.
pub ghost enum Term {
    Lit(Val),
    Name(Seq<char>),
}

impl View for Operand {
    type V = Term;

    open spec fn view(&self) -> Term {
        match self {
            Operand::Number(s) => Term::Lit(Val::Num(s.val())),
            Operand::Vector(v) => Term::Lit(Val::Vect(v@)),
            Operand::Ident(n) => Term::Name(n@),
        }
    }
}

/// Operands joined by operators, as written: `operands[i]` and
/// `operands[i + 1]` stand on either side of `ops[i]`.
#[derive(Debug, Clone, PartialEq)]
pub struct Expression {
    pub operands: Vec<Operand>,
    pub ops: Vec<Op>,
}

impl Expression {
    pub open spec fn wf(&self) -> bool {
        self.operands@.len() == self.ops@.len() + 1
    }
}

/// A parsed line.
#[derive(Debug, Clone, PartialEq)]
pub enum Command {
    /// `name = expression`
    Assign { name: String, expr: Expression },
    /// A bare variable name.
    Query(String),
    /// Any other expression.
    Evaluate(Expression),
    /// `.debug` with an optional new level.
    Debug(Option<u32>),
    /// `.modify name`
    Modify(String),
    /// `.save name`
    Save(String),
    /// `.load name`
    Load(String),
    /// `.exit`
    Exit,
}

impl Command {
    pub open spec fn wf(&self) -> bool {
        match self {
            Command::Assign { expr, .. } => expr.wf(),
            Command::Evaluate(expr) => expr.wf(),
            _ => true,
        }
    }
}

pub open spec fn is_space(c: u8) -> bool {
    c == 32 || c == 9 || c == 10 || c == 13
}

pub open spec fn is_digit(c: u8) -> bool {
    48 <= c <= 57
}

pub open spec fn is_alpha(c: u8) -> bool {
    (65 <= c <= 90) || (97 <= c <= 122)
}

pub open spec fn is_ident_start(c: u8) -> bool {
    is_alpha(c) || c == 95
}

pub open spec fn is_ident_char(c: u8) -> bool {
    is_ident_start(c) || is_digit(c)
}

pub open spec fn is_name_char(c: u8) -> bool {
    is_ident_char(c) || c == 45 || c == 46 || c == 47
}

fn space_byte(c: u8) -> (r: bool)
    ensures
        r == is_space(c),
{
    c == 32 || c == 9 || c == 10 || c == 13
}

fn digit_byte(c: u8) -> (r: bool)
    ensures
        r == is_digit(c),
{
    48 <= c && c <= 57
}

fn ident_start_byte(c: u8) -> (r: bool)
    ensures
        r == is_ident_start(c),
{
    (65 <= c && c <= 90) || (97 <= c && c <= 122) || c == 95
}

fn ident_byte(c: u8) -> (r: bool)
    ensures
        r == is_ident_char(c),
{
    ident_start_byte(c) || digit_byte(c)
}

fn name_byte(c: u8) -> (r: bool)
    ensures
        r == is_name_char(c),
{
    ident_byte(c) || c == 45 || c == 46 || c == 47
}

fn byte_at(b: &[u8], i: usize, c: u8) -> (r: bool)
    ensures
        r == (i < b@.len() && b@[i as int] == c),
{
    i < b.len() && b[i] == c
}

fn digit_at(b: &[u8], i: usize) -> (r: bool)
    ensures
        r == (i < b@.len() && is_digit(b@[i as int])),
{
    i < b.len() && digit_byte(b[i])
}

pub open spec fn pow10(n: nat) -> nat
    decreases n,
{
    if n == 0 { 1 } else { 10 * pow10((n - 1) as nat) }
}

/// The first position at or after `pos` that holds no white space.
pub fn skip_space(b: &[u8], pos: usize) -> (r: usize)
    requires
        pos <= b@.len(),
    ensures
        pos <= r <= b@.len(),
        forall|i: int| pos <= i < r ==> is_space(#[trigger] b@[i]),
        r < b@.len() ==> !is_space(b@[r as int]),
{
    let mut i = pos;
    while i < b.len() && space_byte(b[i])
        invariant
            pos <= i <= b@.len(),
            forall|k: int| pos <= k < i ==> is_space(#[trigger] b@[k]),
        decreases b@.len() - i,
    {
        i = i + 1;
    }
    i
}

/// The bytes `b[start..end]` as a string; they are ASCII.
fn text_between(b: &[u8], start: usize, end: usize) -> (r: String)
    requires
        start <= end <= b@.len(),
        forall|i: int| start <= i < end ==> is_name_char(#[trigger] b@[i]),
    ensures
        r@ == chars_of(b@.subrange(start as int, end as int)),
{
    let mut out: Vec<u8> = Vec::new();
    let mut i = start;
    while i < end
        invariant
            start <= i <= end,
            end <= b@.len(),
            out@ == b@.subrange(start as int, i as int),
        decreases end - i,
    {
        out.push(b[i]);
        i = i + 1;
        assert(out@ =~= b@.subrange(start as int, i as int));
    }
    assert(is_ascii_bytes(out@)) by {
        assert forall|k: int| 0 <= k < out@.len() implies #[trigger] out@[k] < 128 by {
            assert(out@[k] == b@[start + k]);
            assert(is_name_char(b@[start + k]));
        }
    }
    ascii_to_string(out)
}

/// The end of the run of bytes from `pos` that satisfy the identifier rule.
fn scan_ident(b: &[u8], pos: usize) -> (r: usize)
    requires
        pos <= b@.len(),
    ensures
        pos <= r <= b@.len(),
        forall|i: int| pos <= i < r ==> is_ident_char(#[trigger] b@[i]),
        r < b@.len() ==> !is_ident_char(b@[r as int]),
{
    let mut i = pos;
    while i < b.len() && ident_byte(b[i])
        invariant
            pos <= i <= b@.len(),
            forall|k: int| pos <= k < i ==> is_ident_char(#[trigger] b@[k]),
        decreases b@.len() - i,
    {
        i = i + 1;
    }
    i
}

pub proof fn lemma_pow10_six()
    ensures
        pow10(0) == 1,
        pow10(1) == 10,
        pow10(2) == 100,
        pow10(3) == 1000,
        pow10(4) == 10_000,
        pow10(5) == 100_000,
        pow10(6) == 1_000_000,
{
    assert(pow10(0) == 1);
    assert(pow10(1) == 10);
    assert(pow10(2) == 100);
    assert(pow10(3) == 1000);
    assert(pow10(4) == 10_000);
    assert(pow10(5) == 100_000);
    assert(pow10(6) == 1_000_000);
}

proof fn lemma_pow10_bound(n: nat)
    requires
        n < 6,
    ensures
        pow10(n) * 10 <= 1_000_000,
        pow10(n + 1) == pow10(n) * 10,
{
    lemma_pow10_six();
}

/// The largest whole part a scalar can hold: `i64::MAX / SCALE`.
const MAX_WHOLE: u64 = 9_223_372_036_854;

/// The number that a run of decimal digits spells.
pub open spec fn digits_value(s: Seq<u8>) -> int
    decreases s.len(),
{
    if s.len() == 0 {
        0
    } else {
        digits_value(s.drop_last()) * 10 + (s.last() - 48)
    }
}

/// The first position at or after `i` that holds no digit.
pub open spec fn digit_run_end(b: Seq<u8>, i: int) -> int
    decreases b.len() - i,
{
    if i < b.len() && is_digit(b[i]) {
        digit_run_end(b, i + 1)
    } else {
        i
    }
}

/// Where the digits of a number literal at `pos` start, after an
/// optional minus sign.
pub open spec fn number_digits_start(b: Seq<u8>, pos: int) -> int {
    if pos < b.len() && b[pos] == 45u8 { pos + 1 } else { pos }
}

pub open spec fn number_whole_end(b: Seq<u8>, pos: int) -> int {
    digit_run_end(b, number_digits_start(b, pos))
}

/// Whether a point and at least one digit follow the whole part.
pub open spec fn number_has_fraction(b: Seq<u8>, pos: int) -> bool {
    let we = number_whole_end(b, pos);
    we + 1 < b.len() && b[we] == 46u8 && is_digit(b[we + 1])
}

/// Where a number literal at `pos` ends.
pub open spec fn number_end(b: Seq<u8>, pos: int) -> int {
    if number_has_fraction(b, pos) {
        digit_run_end(b, number_whole_end(b, pos) + 1)
    } else {
        number_whole_end(b, pos)
    }
}

pub open spec fn number_fraction_len(b: Seq<u8>, pos: int) -> int {
    if number_has_fraction(b, pos) { number_end(b, pos) - number_whole_end(b, pos) - 1 } else { 0 }
}

/// The size, in millionths, of the number literal at `pos`, without its sign.
pub open spec fn number_magnitude(b: Seq<u8>, pos: int) -> int {
    let ds = number_digits_start(b, pos);
    let we = number_whole_end(b, pos);
    let whole = digits_value(b.subrange(ds, we));
    if number_has_fraction(b, pos) {
        let fd = b.subrange(we + 1, number_end(b, pos));
        whole * 1_000_000 + digits_value(fd) * pow10((6 - fd.len()) as nat)
    } else {
        whole * 1_000_000
    }
}

/// The value, in millionths, of the number literal at `pos`.
pub open spec fn number_units(b: Seq<u8>, pos: int) -> int {
    if pos < b.len() && b[pos] == 45u8 {
        -number_magnitude(b, pos)
    } else {
        number_magnitude(b, pos)
    }
}

/// Whether a number literal stands at `pos` and a scalar holds it exactly.
pub open spec fn number_ok(b: Seq<u8>, pos: int) -> bool {
    let ds = number_digits_start(b, pos);
    &&& ds < b.len() && is_digit(b[ds])
    &&& number_fraction_len(b, pos) <= 6
    &&& number_magnitude(b, pos) <= number_limit(b, pos)
}

/// The largest magnitude a scalar holds with the literal's sign.
pub open spec fn number_limit(b: Seq<u8>, pos: int) -> int {
    if pos < b.len() && b[pos] == 45u8 { 0x8000_0000_0000_0000 } else { 0x7fff_ffff_ffff_ffff }
}

proof fn lemma_digits_value_step(b: Seq<u8>, s: int, i: int)
    requires
        0 <= s <= i < b.len(),
    ensures
        digits_value(b.subrange(s, i + 1)) == digits_value(b.subrange(s, i)) * 10 + (b[i] - 48),
{
    assert(b.subrange(s, i + 1).drop_last() =~= b.subrange(s, i));
}

proof fn lemma_digits_value_nonneg(b: Seq<u8>, s: int, i: int)
    requires
        0 <= s <= i <= b.len(),
        forall|k: int| s <= k < i ==> is_digit(#[trigger] b[k]),
    ensures
        0 <= digits_value(b.subrange(s, i)),
    decreases i - s,
{
    if i > s {
        lemma_digits_value_nonneg(b, s, i - 1);
        lemma_digits_value_step(b, s, i - 1);
    } else {
        assert(b.subrange(s, s).len() == 0);
    }
}

proof fn lemma_digits_value_grows(b: Seq<u8>, s: int, i: int, j: int)
    requires
        0 <= s <= i <= j <= b.len(),
        forall|k: int| s <= k < j ==> is_digit(#[trigger] b[k]),
    ensures
        0 <= digits_value(b.subrange(s, i)) <= digits_value(b.subrange(s, j)),
    decreases j - i,
{
    lemma_digits_value_nonneg(b, s, i);
    if i < j {
        lemma_digits_value_grows(b, s, i, j - 1);
        lemma_digits_value_step(b, s, j - 1);
    }
}

proof fn lemma_digit_run(b: Seq<u8>, i: int)
    requires
        0 <= i <= b.len(),
    ensures
        i <= digit_run_end(b, i) <= b.len(),
        forall|k: int| i <= k < digit_run_end(b, i) ==> is_digit(#[trigger] b[k]),
        digit_run_end(b, i) < b.len() ==> !is_digit(b[digit_run_end(b, i)]),
    decreases b.len() - i,
{
    if i < b.len() && is_digit(b[i]) {
        lemma_digit_run(b, i + 1);
    }
}

/// Reads a number literal `-?[0-9]+(\.[0-9]+)?` at `pos`; a scalar must
/// hold it exactly: at most six fractional digits, and in range.
fn scan_number(b: &[u8], pos: usize) -> (r: Result<(Scalar, usize), ParseError>)
    requires
        pos <= b@.len(),
    ensures
        r is Ok <==> number_ok(b@, pos as int),
        r matches Ok((v, end)) ==> end == number_end(b@, pos as int) && v.val() == number_units(
            b@,
            pos as int,
        ) && pos < end <= b@.len(),
        r matches Err(e) ==> e is TokenError || e is ValueParseError,
        r matches Err(e) ==> e@ == number_fault(b@, pos as int),
{
    let ghost bs = b@;
    let mut i = pos;
    let negative = i < b.len() && b[i] == 45u8;
    if negative {
        i = i + 1;
    }
    let ds = i;
    assert(ds == number_digits_start(bs, pos as int));
    if !(i < b.len() && digit_byte(b[i])) {
        return Err(ParseError::TokenError { position: i });
    }
    proof {
        lemma_digit_run(bs, ds as int);
        assert(bs.subrange(ds as int, ds as int).len() == 0);
        lemma_digits_value_step(bs, ds as int, ds as int);
    }
    let mut whole: u64 = (b[i] - 48u8) as u64;
    i = i + 1;
    while i < b.len() && digit_byte(b[i])
        invariant
            bs == b@,
            pos <= ds < i <= b@.len(),
            ds == number_digits_start(bs, pos as int),
            whole <= MAX_WHOLE,
            whole == digits_value(bs.subrange(ds as int, i as int)),
            digit_run_end(bs, ds as int) == digit_run_end(bs, i as int),
            forall|k: int| ds <= k < i ==> is_digit(#[trigger] bs[k]),
        decreases b@.len() - i,
    {
        let d = (b[i] - 48u8) as u64;
        proof { lemma_digits_value_step(bs, ds as int, i as int); }
        if whole > (MAX_WHOLE - d) / 10 {
            proof {
                lemma_digit_run(bs, ds as int);
                lemma_digits_value_grows(bs, ds as int, i + 1, number_whole_end(bs, pos as int));
                lemma_number_fraction_nonneg(bs, pos as int);
            }
            return Err(ParseError::ValueParseError { position: pos });
        }
        whole = whole * 10 + d;
        i = i + 1;
    }
    let we = i;
    assert(we == number_whole_end(bs, pos as int));
    let mut frac: u64 = 0;
    let mut width: u64 = 0;
    let mut lim: u64 = 1;
    if i < b.len() && b[i] == 46u8 && digit_at(b, i + 1) {
        assert(number_has_fraction(bs, pos as int));
        i = i + 1;
        proof {
            lemma_digit_run(bs, i as int);
            assert(bs.subrange(i as int, i as int).len() == 0);
        }
        while i < b.len() && digit_byte(b[i])
            invariant
                bs == b@,
                we + 1 <= i <= b@.len(),
                width <= 6,
                width == i - we - 1,
                lim == pow10(width as nat),
                frac < lim,
                frac == digits_value(bs.subrange(we + 1, i as int)),
                digit_run_end(bs, we + 1) == digit_run_end(bs, i as int),
                forall|k: int| we + 1 <= k < i ==> is_digit(#[trigger] bs[k]),
                number_has_fraction(bs, pos as int),
                we == number_whole_end(bs, pos as int),
                ds == number_digits_start(bs, pos as int),
                ds < bs.len() && is_digit(bs[ds as int]),
            decreases b@.len() - i,
        {
            if width == 6 {
                proof { lemma_digit_run(bs, i + 1); }
                return Err(ParseError::ValueParseError { position: pos });
            }
            proof {
                lemma_pow10_bound(width as nat);
                lemma_digits_value_step(bs, we + 1, i as int);
            }
            let d = (b[i] - 48u8) as u64;
            assert(frac * 10 + d < lim * 10) by (nonlinear_arith) requires frac < lim, d <= 9;
            frac = frac * 10 + d;
            lim = lim * 10;
            width = width + 1;
            i = i + 1;
        }
        assert(i == number_end(bs, pos as int));
        let ghost fd = bs.subrange(we + 1, i as int);
        let ghost w0 = width;
        let ghost f0 = frac;
        assert(pow10(0) == 1);
        assert(frac == f0 * pow10(0)) by (nonlinear_arith) requires frac == f0, pow10(0) == 1;
        while width < 6
            invariant
                w0 <= width <= 6,
                lim == pow10(width as nat),
                frac < lim,
                frac == f0 * pow10((width - w0) as nat),
            decreases 6 - width,
        {
            proof { lemma_pow10_bound(width as nat); lemma_pow10_split((width - w0) as nat); }
            assert(frac * 10 < lim * 10) by (nonlinear_arith) requires frac < lim;
            assert(frac * 10 == f0 * pow10((width + 1 - w0) as nat)) by (nonlinear_arith)
                requires frac == f0 * pow10((width - w0) as nat),
                    pow10((width + 1 - w0) as nat) == pow10((width - w0) as nat) * 10;
            frac = frac * 10;
            lim = lim * 10;
            width = width + 1;
        }
        proof { lemma_pow10_six(); }
        assert(frac == digits_value(fd) * pow10((6 - fd.len()) as nat));
    } else {
        assert(!number_has_fraction(bs, pos as int));
    }
    assert(whole * 1_000_000 + frac == number_magnitude(bs, pos as int));
    let units: u64 = whole * 1_000_000 + frac;
    let limit: u64 = if negative { 0x8000_0000_0000_0000 } else { 0x7fff_ffff_ffff_ffff };
    if units > limit {
        return Err(ParseError::ValueParseError { position: pos });
    }
    let v: i128 = if negative { -(units as i128) } else { units as i128 };
    Ok((Scalar { units: v as i64 }, i))
}

proof fn lemma_pow10_split(n: nat)
    ensures
        pow10(n + 1) == pow10(n) * 10,
{
}

proof fn lemma_number_fraction_nonneg(b: Seq<u8>, pos: int)
    requires
        0 <= pos <= b.len(),
        number_digits_start(b, pos) <= number_whole_end(b, pos),
    ensures
        number_magnitude(b, pos) >= digits_value(
            b.subrange(number_digits_start(b, pos), number_whole_end(b, pos)),
        ) * 1_000_000,
{
    if number_has_fraction(b, pos) {
        let we = number_whole_end(b, pos);
        lemma_digit_run(b, we + 1);
        let fd = b.subrange(we + 1, number_end(b, pos));
        lemma_digits_value_grows(b, we + 1, we + 1, number_end(b, pos));
        lemma_pow10_pos((6 - fd.len()) as nat);
        assert(digits_value(fd) * pow10((6 - fd.len()) as nat) >= 0) by (nonlinear_arith)
            requires digits_value(fd) >= 0, pow10((6 - fd.len()) as nat) >= 1;
    }
}

proof fn lemma_pow10_pos(n: nat)
    ensures
        pow10(n) >= 1,
    decreases n,
{
    if n > 0 {
        lemma_pow10_pos((n - 1) as nat);
    }
}

/// The first position at or after `i` that holds no white space.
pub open spec fn operand_start(b: Seq<u8>, i: int) -> int
    decreases b.len() - i,
{
    if i < b.len() && is_space(b[i]) {
        operand_start(b, i + 1)
    } else {
        i
    }
}

/// The first position at or after `i` that cannot continue an identifier.
pub open spec fn ident_end(b: Seq<u8>, i: int) -> int
    decreases b.len() - i,
{
    if i < b.len() && is_ident_char(b[i]) {
        ident_end(b, i + 1)
    } else {
        i
    }
}

/// Whether a number literal starts at `p`: a digit, or a minus sign and a digit.
pub open spec fn starts_number(b: Seq<u8>, p: int) -> bool {
    (p < b.len() && is_digit(b[p])) || (p + 1 < b.len() && b[p] == 45u8 && is_digit(b[p + 1]))
}

pub proof fn lemma_operand_start_is(b: Seq<u8>, p: int, e: int)
    requires
        0 <= p <= e <= b.len(),
        forall|i: int| p <= i < e ==> is_space(#[trigger] b[i]),
        e < b.len() ==> !is_space(b[e]),
    ensures
        e == operand_start(b, p),
    decreases e - p,
{
    if p < e {
        lemma_operand_start_is(b, p + 1, e);
    }
}

pub proof fn lemma_debug_level_nonneg(b: Seq<u8>)
    requires
        debug_line(b),
    ensures
        0 <= debug_line_level(b) <= u32::MAX,
{
    let pos = operand_start(b, 0) + 1;
    let p = operand_start(b, keyword_end(b, pos));
    lemma_operand_start_bounds(b, 0);
    lemma_keyword_end_bounds(b, pos);
    lemma_operand_start_bounds(b, keyword_end(b, pos));
    lemma_digit_run(b, p);
    lemma_digits_value_nonneg(b, p, digit_run_end(b, p));
}

proof fn lemma_operand_start_bounds(b: Seq<u8>, i: int)
    requires
        0 <= i <= b.len(),
    ensures
        i <= operand_start(b, i) <= b.len(),
    decreases b.len() - i,
{
    if i < b.len() && is_space(b[i]) {
        lemma_operand_start_bounds(b, i + 1);
    }
}

proof fn lemma_keyword_end_bounds(b: Seq<u8>, i: int)
    requires
        0 <= i <= b.len(),
    ensures
        i <= keyword_end(b, i) <= b.len(),
    decreases b.len() - i,
{
    if i < b.len() && is_ident_start(b[i]) {
        lemma_keyword_end_bounds(b, i + 1);
    }
}

pub proof fn lemma_keyword_end_is(b: Seq<u8>, p: int, e: int)
    requires
        0 <= p <= e <= b.len(),
        forall|i: int| p <= i < e ==> is_ident_start(#[trigger] b[i]),
        e < b.len() ==> !is_ident_start(b[e]),
    ensures
        e == keyword_end(b, p),
    decreases e - p,
{
    if p < e {
        lemma_keyword_end_is(b, p + 1, e);
    }
}

pub proof fn lemma_ident_end_is(b: Seq<u8>, p: int, e: int)
    requires
        0 <= p <= e <= b.len(),
        forall|i: int| p <= i < e ==> is_ident_char(#[trigger] b[i]),
        e < b.len() ==> !is_ident_char(b[e]),
    ensures
        e == ident_end(b, p),
    decreases e - p,
{
    if p < e {
        lemma_ident_end_is(b, p + 1, e);
    }
}

/// The error for a number literal at `pos` that does not read: a missing
/// digit where the digits should start, or a number no scalar holds.
pub open spec fn number_fault(b: Seq<u8>, pos: int) -> Fault {
    let ds = number_digits_start(b, pos);
    if ds < b.len() && is_digit(b[ds]) {
        Fault::ValueParseError { position: pos as usize }
    } else {
        Fault::TokenError { position: ds as usize }
    }
}

/// The number literal at `s`: its value and where it ends, or its error.
pub open spec fn number_at(b: Seq<u8>, s: int) -> Result<(int, int), Fault> {
    if number_ok(b, s) {
        Ok((number_units(b, s), number_end(b, s)))
    } else {
        Err(number_fault(b, s))
    }
}

/// The tail `Empty Vector>` of the empty vector's text.
pub open spec fn empty_marker_tail() -> Seq<u8> {
    seq![69u8, 109u8, 112u8, 116u8, 121u8, 32u8, 86u8, 101u8, 99u8, 116u8, 111u8, 114u8, 62u8]
}

/// The components of a vector literal from `i` on, after the components
/// `acc` already read: numbers separated by `,` and closed by `>`, with
/// white space around them; the components and the end, or the error.
pub open spec fn vector_items(b: Seq<u8>, i: int, acc: Seq<int>) -> Result<(Seq<int>, int), Fault>
    decreases b.len() - i,
{
    let s = operand_start(b, i);
    match number_at(b, s) {
        Err(f) => Err(f),
        Ok((u, e)) => {
            let q = operand_start(b, e);
            if q < b.len() && b[q] == 62u8 {
                Ok((acc.push(u), q + 1))
            } else if !(q < b.len() && b[q] == 44u8) || q < i || q < s {
                Err(Fault::TokenError { position: q as usize })
            } else {
                vector_items(b, q + 1, acc.push(u))
            }
        },
    }
}

/// The operand at `pos` after white space: a number, a name, or a vector
/// literal (`<>`, `<n1, ..., nk>` or `<Empty Vector>`); the operand and
/// where it ends, or the error.
pub open spec fn operand_at(b: Seq<u8>, pos: int) -> Result<(Term, int), Fault> {
    let p = operand_start(b, pos);
    if p < b.len() && b[p] == 60u8 {
        if b.len() - p >= 14 && b.subrange(p + 1, p + 14) == empty_marker_tail() {
            Ok((Term::Lit(Val::Vect(Seq::empty())), p + 14))
        } else if operand_start(b, p + 1) < b.len() && b[operand_start(b, p + 1)] == 62u8 {
            Ok((Term::Lit(Val::Vect(Seq::empty())), operand_start(b, p + 1) + 1))
        } else {
            match vector_items(b, p + 1, Seq::empty()) {
                Ok((v, e)) => Ok((Term::Lit(Val::Vect(v)), e)),
                Err(f) => Err(f),
            }
        }
    } else if p < b.len() && is_ident_start(b[p]) {
        Ok((Term::Name(chars_of(b.subrange(p, ident_end(b, p)))), ident_end(b, p)))
    } else if starts_number(b, p) {
        match number_at(b, p) {
            Ok((u, e)) => Ok((Term::Lit(Val::Num(u)), e)),
            Err(f) => Err(f),
        }
    } else {
        Err(Fault::TokenError { position: p as usize })
    }
}

/// A line that holds one operand and white space: the operand, or the error.
pub open spec fn operand_text(b: Seq<u8>) -> Result<Term, Fault> {
    match operand_at(b, 0) {
        Ok((t, e)) => if operand_start(b, e) == b.len() {
            Ok(t)
        } else {
            Err(Fault::TokenError { position: operand_start(b, e) as usize })
        },
        Err(f) => Err(f),
    }
}

pub open spec fn operand_result(r: Result<(Operand, usize), ParseError>) -> Result<(Term, int), Fault> {
    match r {
        Ok((o, e)) => Ok((o@, e as int)),
        Err(e) => Err(e@),
    }
}

proof fn lemma_vector_items_start(b: Seq<u8>, i: int, j: int, acc: Seq<int>)
    requires
        0 <= i <= j <= b.len(),
        j == operand_start(b, i),
        operand_start(b, j) == j,
    ensures
        vector_items(b, i, acc) == vector_items(b, j, acc),
{
}

proof fn lemma_operand_start_idem(b: Seq<u8>, i: int)
    requires
        0 <= i <= b.len(),
    ensures
        i <= operand_start(b, i) <= b.len(),
        operand_start(b, operand_start(b, i)) == operand_start(b, i),
    decreases b.len() - i,
{
    if i < b.len() && is_space(b[i]) {
        lemma_operand_start_idem(b, i + 1);
    }
}

/// Reads an operand at `pos`: a number, a vector literal `<n1, ..., nk>`
/// (possibly empty, also written `<Empty Vector>`), or an identifier.
fn parse_operand(b: &[u8], pos: usize) -> (r: Result<(Operand, usize), ParseError>)
    requires
        pos <= b@.len(),
    ensures
        r matches Ok((_, end)) ==> pos < end <= b@.len(),
        r matches Err(e) ==> e is TokenError || e is ValueParseError,
        ({
            let p = operand_start(b@, pos as int);
            &&& p < b@.len() && is_ident_start(b@[p]) ==> (r matches Ok((Operand::Ident(n), end))
                && end == ident_end(b@, p) && n@ == chars_of(b@.subrange(p, end as int)))
            &&& starts_number(b@, p) ==> (r is Ok <==> number_ok(b@, p)) && (r matches Ok((o, end)) ==> (
                o matches Operand::Number(v) && v.val() == number_units(b@, p) && end == number_end(
                    b@,
                    p,
                )))
            &&& !(p < b@.len() && (b@[p] == 60u8 || is_ident_start(b@[p]))) && !starts_number(b@, p)
                ==> r == Err::<(Operand, usize), ParseError>(ParseError::TokenError { position: p as usize })
            &&& p < b@.len() && b@[p] == 60u8 ==> (r matches Ok((o, _)) ==> o is Vector)
        }),
        operand_result(r) == operand_at(b@, pos as int),
{
    let p = skip_space(b, pos);
    proof { lemma_operand_start_is(b@, pos as int, p as int); }
    assert(p == operand_start(b@, pos as int));
    if p < b.len() && b[p] == 60u8 {
        let mut comps: Vec<Scalar> = Vec::new();
        // The empty vector's own text, `<Empty Vector>`, reads back as itself.
        let marker: Vec<u8> = vec![69u8, 109u8, 112u8, 116u8, 121u8, 32u8, 86u8, 101u8, 99u8, 116u8, 111u8, 114u8, 62u8];
        assert(marker@ =~= empty_marker_tail());
        assert(Vector(comps)@ =~= Seq::<int>::empty());
        if b.len() - p >= 14 && word_is(b, p + 1, p + 14, &marker) {
            return Ok((Operand::Vector(Vector::new(comps)), p + 14));
        }
        let mut i = skip_space(b, p + 1);
        proof {
            lemma_operand_start_is(b@, p + 1, i as int);
            lemma_operand_start_idem(b@, i as int);
            lemma_vector_items_start(b@, p + 1, i as int, Seq::empty());
        }
        if i < b.len() && b[i] == 62u8 {
            return Ok((Operand::Vector(Vector::new(comps)), i + 1));
        }
        loop
            invariant
                pos <= p < i <= b@.len(),
                p == operand_start(b@, pos as int),
                b@[p as int] == 60u8,
                vector_items(b@, i as int, Vector(comps)@) == vector_items(b@, p + 1, Seq::empty()),
                !(b@.len() - p >= 14 && b@.subrange(p + 1, p + 14) == empty_marker_tail()),
                !(operand_start(b@, p + 1) < b@.len() && b@[operand_start(b@, p + 1)] == 62u8),
            decreases b@.len() - i,
        {
            let ghost acc = Vector(comps)@;
            let s0 = skip_space(b, i);
            proof { lemma_operand_start_is(b@, i as int, s0 as int); }
            let (c, e) = scan_number(b, s0)?;
            comps.push(c);
            assert(Vector(comps)@ =~= acc.push(c.val()));
            let q = skip_space(b, e);
            proof { lemma_operand_start_is(b@, e as int, q as int); }
            if q < b.len() && b[q] == 62u8 {
                return Ok((Operand::Vector(Vector::new(comps)), q + 1));
            }
            if !(q < b.len() && b[q] == 44u8) {
                return Err(ParseError::TokenError { position: q });
            }
            i = q + 1;
        }
    } else if p < b.len() && ident_start_byte(b[p]) {
        let e = scan_ident(b, p);
        proof { lemma_ident_end_is(b@, p as int, e as int); }
        let name = text_between(b, p, e);
        Ok((Operand::Ident(name), e))
    } else if digit_at(b, p) || (byte_at(b, p, 45u8) && digit_at(b, p + 1)) {
        let (c, e) = scan_number(b, p)?;
        Ok((Operand::Number(c), e))
    } else {
        Err(ParseError::TokenError { position: p })
    }
}

/// The operator at `q`, if one stands there, and where it ends.
pub open spec fn op_at(b: Seq<u8>, q: int) -> Option<(Op, int)> {
    if q >= b.len() {
        None
    } else if b[q] == 43u8 {
        Some((Op::Add, q + 1))
    } else if b[q] == 45u8 {
        Some((Op::Subtract, q + 1))
    } else if b[q] == 42u8 {
        Some((Op::Multiply, q + 1))
    } else if b[q] == 47u8 {
        Some((Op::Divide, q + 1))
    } else if b[q] == 46u8 {
        Some((Op::Dot, q + 1))
    } else if b[q] == 94u8 {
        Some((Op::Power, q + 1))
    } else if b[q] == 0xC3u8 && q + 1 < b.len() && b[q + 1] == 0x97u8 {
        Some((Op::Cross, q + 2))
    } else {
        None
    }
}

/// Further `operator operand` pairs from `i` on, after the operands and
/// operators already read: all of them and where they end, or the error.
pub open spec fn expr_rest(b: Seq<u8>, i: int, terms: Seq<Term>, ops: Seq<Op>) -> Result<
    (Seq<Term>, Seq<Op>, int),
    Fault,
>
    decreases b.len() - i,
{
    match op_at(b, operand_start(b, i)) {
        None => Ok((terms, ops, i)),
        Some((op, after)) => match operand_at(b, after) {
            Err(f) => Err(f),
            Ok((t, e)) => if e <= i || e > b.len() {
                Err(Fault::TokenError { position: 0 })
            } else {
                expr_rest(b, e, terms.push(t), ops.push(op))
            },
        },
    }
}

/// The expression `operand (operator operand)*` at `pos`: its operands,
/// its operators and where it ends, or the error.
pub open spec fn expr_at(b: Seq<u8>, pos: int) -> Result<(Seq<Term>, Seq<Op>, int), Fault> {
    match operand_at(b, pos) {
        Err(f) => Err(f),
        Ok((t, e)) => expr_rest(b, e, seq![t], Seq::empty()),
    }
}

pub open spec fn expr_result(r: Result<(Expression, usize), ParseError>) -> Result<(Seq<Term>, Seq<Op>, int), Fault> {
    match r {
        Ok((x, e)) => Ok((x.operands@.map_values(|o: Operand| o@), x.ops@, e as int)),
        Err(e) => Err(e@),
    }
}

/// Reads an operator at `pos`, if one stands there: `+ - * / . ^` or the
/// two bytes of `×`.
fn parse_op(b: &[u8], pos: usize) -> (r: Option<(Op, usize)>)
    requires
        pos <= b@.len(),
    ensures
        r matches Some((_, end)) ==> pos < end <= b@.len(),
        pos == b@.len() ==> r is None,
        match r {
            Some((o, e)) => op_at(b@, pos as int) == Some((o, e as int)),
            None => op_at(b@, pos as int) is None,
        },
{
    if pos >= b.len() {
        return None;
    }
    let c = b[pos];
    if c == 43u8 {
        Some((Op::Add, pos + 1))
    } else if c == 45u8 {
        Some((Op::Subtract, pos + 1))
    } else if c == 42u8 {
        Some((Op::Multiply, pos + 1))
    } else if c == 47u8 {
        Some((Op::Divide, pos + 1))
    } else if c == 46u8 {
        Some((Op::Dot, pos + 1))
    } else if c == 94u8 {
        Some((Op::Power, pos + 1))
    } else if c == 0xC3u8 && byte_at(b, pos + 1, 0x97u8) {
        Some((Op::Cross, pos + 2))
    } else {
        None
    }
}

/// Reads `operand (operator operand)*` from `pos`.
fn parse_expression(b: &[u8], pos: usize) -> (r: Result<(Expression, usize), ParseError>)
    requires
        pos <= b@.len(),
    ensures
        r matches Ok((x, end)) ==> pos < end <= b@.len() && x.wf(),
        r matches Err(e) ==> e is TokenError || e is ValueParseError,
        ({
            let ps = operand_start(b@, pos as int);
            &&& ps < b@.len() && is_ident_start(b@[ps]) && operand_start(b@, ident_end(b@, ps)) == b@.len() ==> (
                r matches Ok((x, end)) && x.ops@.len() == 0 && end == ident_end(b@, ps) && (
                x.operands@[0] matches Operand::Ident(n) && n@ == chars_of(b@.subrange(ps, ident_end(b@, ps)))))
            &&& lone_number(b@, ps) ==> (r matches Ok((x, end)) && x.ops@.len() == 0 && end == number_end(b@, ps)
                && (x.operands@[0] matches Operand::Number(v) && v.val() == number_units(b@, ps)))
        }),
        expr_result(r) == expr_at(b@, pos as int),
{
    let ghost ps = operand_start(b@, pos as int);
    let ghost bare_name = ps < b@.len() && is_ident_start(b@[ps]) && operand_start(b@, ident_end(b@, ps))
        == b@.len();
    let ghost lone = lone_number(b@, ps);
    let (first, e) = parse_operand(b, pos)?;
    let ghost first_v = first;
    let mut operands: Vec<Operand> = vec![first];
    assert(operands@.map_values(|o: Operand| o@) =~= seq![first_v@]);
    let mut ops: Vec<Op> = Vec::new();
    assert(ops@ =~= Seq::<Op>::empty());
    let mut i = e;
    loop
        invariant
            pos < i <= b@.len(),
            operands@.len() == ops@.len() + 1,
            operands@[0] == first_v,
            ops@.len() == 0 ==> i == e,
            ps == operand_start(b@, pos as int),
            bare_name == (ps < b@.len() && is_ident_start(b@[ps]) && operand_start(b@, ident_end(b@, ps))
                == b@.len()),
            bare_name ==> ops@.len() == 0 && e == ident_end(b@, ps) && operand_start(b@, e as int) == b@.len()
                && (first_v matches Operand::Ident(n) && n@ == chars_of(b@.subrange(ps, ident_end(b@, ps)))),
            lone == lone_number(b@, ps),
            lone ==> ops@.len() == 0 && e == number_end(b@, ps) && operand_start(b@, e as int) == b@.len()
                && (first_v matches Operand::Number(v) && v.val() == number_units(b@, ps)),
            expr_rest(b@, i as int, operands@.map_values(|o: Operand| o@), ops@) == expr_at(b@, pos as int),
        decreases b@.len() - i,
    {
        let q = skip_space(b, i);
        proof { lemma_operand_start_is(b@, i as int, q as int); }
        match parse_op(b, q) {
            None => {
                return Ok((Expression { operands, ops }, i));
            },
            Some((op, after)) => {
                let ghost terms = operands@.map_values(|o: Operand| o@);
                let ghost ops0 = ops@;
                let (rhs, e2) = parse_operand(b, after)?;
                ops.push(op);
                operands.push(rhs);
                assert(operands@.map_values(|o: Operand| o@) =~= terms.push(rhs@));
                assert(ops@ =~= ops0.push(op));
                i = e2;
            },
        }
    }
}

/// Fails unless only white space follows `pos`.
fn expect_end(b: &[u8], pos: usize) -> (r: Result<(), ParseError>)
    requires
        pos <= b@.len(),
    ensures
        operand_start(b@, pos as int) == b@.len() ==> r is Ok,
        r matches Err(e) ==> e is TokenError || e is ValueParseError,
        match r {
            Ok(_) => end_fault(b@, pos as int) is None,
            Err(e) => end_fault(b@, pos as int) == Some(e@),
        },
{
    let q = skip_space(b, pos);
    proof { lemma_operand_start_is(b@, pos as int, q as int); }
    if q < b.len() {
        Err(ParseError::TokenError { position: q })
    } else {
        Ok(())
    }
}

/// Whether `b[start..end]` spells `word`.
fn word_is(b: &[u8], start: usize, end: usize, word: &Vec<u8>) -> (r: bool)
    requires
        start <= end <= b@.len(),
    ensures
        r == (b@.subrange(start as int, end as int) == word@),
{
    if end - start != word.len() {
        return false;
    }
    let mut i: usize = 0;
    while i < word.len()
        invariant
            end - start == word@.len(),
            start <= end <= b@.len(),
            i <= word@.len(),
            forall|k: int| 0 <= k < i ==> b@[start + k] == #[trigger] word@[k],
        decreases word@.len() - i,
    {
        if b[start + i] != word[i] {
            assert(b@.subrange(start as int, end as int)[i as int] != word@[i as int]);
            return false;
        }
        i = i + 1;
    }
    assert(b@.subrange(start as int, end as int) =~= word@);
    true
}

/// Reads the argument of `.modify`, `.save` or `.load`: a run of
/// What a parsed line says, with names as character sequences.
pub ghost enum Cmd {
    Assign { name: Seq<char>, terms: Seq<Term>, ops: Seq<Op> },
    Query(Seq<char>),
    Evaluate(Seq<Term>, Seq<Op>),
    Debug(Option<u32>),
    Modify(Seq<char>),
    Save(Seq<char>),
    Load(Seq<char>),
    Exit,
}

impl View for Command {
    type V = Cmd;

    open spec fn view(&self) -> Cmd {
        match self {
            Command::Assign { name, expr } => Cmd::Assign {
                name: name@,
                terms: expr.operands@.map_values(|o: Operand| o@),
                ops: expr.ops@,
            },
            Command::Query(n) => Cmd::Query(n@),
            Command::Evaluate(expr) => Cmd::Evaluate(expr.operands@.map_values(|o: Operand| o@), expr.ops@),
            Command::Debug(l) => Cmd::Debug(*l),
            Command::Modify(n) => Cmd::Modify(n@),
            Command::Save(n) => Cmd::Save(n@),
            Command::Load(n) => Cmd::Load(n@),
            Command::Exit => Cmd::Exit,
        }
    }
}

/// Nothing but white space from `i` on, or the error at what follows.
pub open spec fn end_fault(b: Seq<u8>, i: int) -> Option<Fault> {
    if operand_start(b, i) < b.len() {
        Some(Fault::TokenError { position: operand_start(b, i) as usize })
    } else {
        None
    }
}

/// The first position at or after `i` that cannot continue a file name.
pub open spec fn name_end(b: Seq<u8>, i: int) -> int
    decreases b.len() - i,
{
    if i < b.len() && is_name_char(b[i]) {
        name_end(b, i + 1)
    } else {
        i
    }
}

/// The argument of `.modify`, `.save` and `.load` after `pos`: white space,
/// then a run of name characters, then only white space.
pub open spec fn name_arg(b: Seq<u8>, pos: int) -> Result<Seq<char>, Fault> {
    let p = operand_start(b, pos);
    let e = name_end(b, p);
    if e == p || p == pos {
        Err(Fault::TokenError { position: p as usize })
    } else if end_fault(b, e) is Some {
        Err(end_fault(b, e)->Some_0)
    } else {
        Ok(chars_of(b.subrange(p, e)))
    }
}

pub open spec fn named(r: Result<Seq<char>, Fault>, f: spec_fn(Seq<char>) -> Cmd) -> Result<Cmd, Fault> {
    match r {
        Ok(n) => Ok(f(n)),
        Err(e) => Err(e),
    }
}

/// The meta-command whose keyword starts at `pos`.
pub open spec fn meta_at(b: Seq<u8>, pos: int) -> Result<Cmd, Fault> {
    let e = keyword_end(b, pos);
    let w = b.subrange(pos, e);
    if w == kw_debug() {
        let p = operand_start(b, e);
        if p == b.len() {
            Ok(Cmd::Debug(None))
        } else if p == e || !is_digit(b[p]) {
            Err(Fault::TokenError { position: p as usize })
        } else {
            let de = digit_run_end(b, p);
            let v = digits_value(b.subrange(p, de));
            if v > u32::MAX {
                Err(Fault::TokenError { position: p as usize })
            } else if end_fault(b, de) is Some {
                Err(end_fault(b, de)->Some_0)
            } else {
                Ok(Cmd::Debug(Some(v as u32)))
            }
        }
    } else if w == kw_modify() {
        named(name_arg(b, e), |n: Seq<char>| Cmd::Modify(n))
    } else if w == kw_save() {
        named(name_arg(b, e), |n: Seq<char>| Cmd::Save(n))
    } else if w == kw_load() {
        named(name_arg(b, e), |n: Seq<char>| Cmd::Load(n))
    } else if w == kw_exit() {
        if end_fault(b, e) is Some {
            Err(end_fault(b, e)->Some_0)
        } else {
            Ok(Cmd::Exit)
        }
    } else {
        Err(Fault::TokenError { position: pos as usize })
    }
}

/// An expression line read from `p`: a bare name is a query.
pub open spec fn expression_line(b: Seq<u8>, p: int) -> Result<Cmd, Fault> {
    match expr_at(b, p) {
        Err(f) => Err(f),
        Ok((t, o, end)) => if end_fault(b, end) is Some {
            Err(end_fault(b, end)->Some_0)
        } else if o.len() == 0 && t[0] is Name {
            Ok(Cmd::Query(t[0]->Name_0))
        } else {
            Ok(Cmd::Evaluate(t, o))
        },
    }
}

/// The command that a line spells, or the error at the first place where
/// it leaves the grammar.
pub open spec fn command_of(b: Seq<u8>) -> Result<Cmd, Fault> {
    let p = operand_start(b, 0);
    let q = operand_start(b, ident_end(b, p));
    if p < b.len() && b[p] == 46u8 {
        meta_at(b, p + 1)
    } else if p < b.len() && is_ident_start(b[p]) && q < b.len() && b[q] == 61u8 {
        match expr_at(b, q + 1) {
            Err(f) => Err(f),
            Ok((t, o, end)) => if end_fault(b, end) is Some {
                Err(end_fault(b, end)->Some_0)
            } else {
                Ok(Cmd::Assign { name: chars_of(b.subrange(p, ident_end(b, p))), terms: t, ops: o })
            },
        }
    } else {
        expression_line(b, p)
    }
}

pub open spec fn command_result(r: Result<Command, ParseError>) -> Result<Cmd, Fault> {
    match r {
        Ok(c) => Ok(c@),
        Err(e) => Err(e@),
    }
}

proof fn lemma_name_end_is(b: Seq<u8>, p: int, e: int)
    requires
        0 <= p <= e <= b.len(),
        forall|i: int| p <= i < e ==> is_name_char(#[trigger] b[i]),
        e < b.len() ==> !is_name_char(b[e]),
    ensures
        e == name_end(b, p),
    decreases e - p,
{
    if p < e {
        lemma_name_end_is(b, p + 1, e);
    }
}

/// letters, digits and `_ - . /` after white space.
fn parse_name_argument(b: &[u8], pos: usize) -> (r: Result<String, ParseError>)
    requires
        pos <= b@.len(),
    ensures
        r matches Err(e) ==> e is TokenError || e is ValueParseError,
        match r {
            Ok(n) => name_arg(b@, pos as int) == Ok::<Seq<char>, Fault>(n@),
            Err(e) => name_arg(b@, pos as int) == Err::<Seq<char>, Fault>(e@),
        },
{
    let p = skip_space(b, pos);
    proof { lemma_operand_start_is(b@, pos as int, p as int); }
    let mut e = p;
    while e < b.len() && name_byte(b[e])
        invariant
            p <= e <= b@.len(),
            forall|k: int| p <= k < e ==> is_name_char(#[trigger] b@[k]),
        decreases b@.len() - e,
    {
        e = e + 1;
    }
    proof { lemma_name_end_is(b@, p as int, e as int); }
    if e == p || p == pos {
        return Err(ParseError::TokenError { position: p });
    }
    expect_end(b, e)?;
    Ok(text_between(b, p, e))
}

pub open spec fn is_meta(c: Command) -> bool {
    c is Debug || c is Modify || c is Save || c is Load || c is Exit
}

/// The first position at or after `i` that holds no letter or `_`.
pub open spec fn keyword_end(b: Seq<u8>, i: int) -> int
    decreases b.len() - i,
{
    if i < b.len() && is_ident_start(b[i]) {
        keyword_end(b, i + 1)
    } else {
        i
    }
}

pub open spec fn kw_debug() -> Seq<u8> {
    seq![100u8, 101u8, 98u8, 117u8, 103u8]
}

pub open spec fn kw_modify() -> Seq<u8> {
    seq![109u8, 111u8, 100u8, 105u8, 102u8, 121u8]
}

pub open spec fn kw_save() -> Seq<u8> {
    seq![115u8, 97u8, 118u8, 101u8]
}

pub open spec fn kw_load() -> Seq<u8> {
    seq![108u8, 111u8, 97u8, 100u8]
}

pub open spec fn kw_exit() -> Seq<u8> {
    seq![101u8, 120u8, 105u8, 116u8]
}

/// Which meta-command the word `w` names, if any, agrees with `c`.
pub open spec fn meta_named(c: Command, w: Seq<u8>) -> bool {
    &&& c is Debug ==> w == kw_debug()
    &&& c is Modify ==> w == kw_modify()
    &&& c is Save ==> w == kw_save()
    &&& c is Load ==> w == kw_load()
    &&& c is Exit ==> w == kw_exit()
}

/// After the keyword at `pos`: `debug`, white space, then only a run of
/// digits whose number fits `u32`, and white space.
pub open spec fn debug_level_arg(b: Seq<u8>, pos: int) -> bool {
    let e = keyword_end(b, pos);
    let p = operand_start(b, e);
    &&& b.subrange(pos, e) == kw_debug()
    &&& e < p < b.len() && is_digit(b[p])
    &&& operand_start(b, digit_run_end(b, p)) == b.len()
    &&& debug_level_value(b, pos) <= u32::MAX
}

/// The number that follows `debug` at `pos`.
pub open spec fn debug_level_value(b: Seq<u8>, pos: int) -> int {
    let p = operand_start(b, keyword_end(b, pos));
    digits_value(b.subrange(p, digit_run_end(b, p)))
}

pub open spec fn is_keyword(w: Seq<u8>) -> bool {
    w == kw_debug() || w == kw_modify() || w == kw_save() || w == kw_load() || w == kw_exit()
}

/// Reads a meta-command; `pos` is just after its leading `.`.
fn parse_meta(b: &[u8], pos: usize) -> (r: Result<Command, ParseError>)
    requires
        pos <= b@.len(),
    ensures
        r matches Ok(c) ==> c.wf() && is_meta(c) && meta_named(c, b@.subrange(pos as int, keyword_end(b@, pos as int))),
        !is_keyword(b@.subrange(pos as int, keyword_end(b@, pos as int))) ==> r == Err::<Command, ParseError>(
            ParseError::TokenError { position: pos },
        ),
        debug_level_arg(b@, pos as int) ==> r == Ok::<Command, ParseError>(
            Command::Debug(Some(debug_level_value(b@, pos as int) as u32)),
        ),
        command_result(r) == meta_at(b@, pos as int),
        r matches Err(e) ==> e is TokenError || e is ValueParseError,
{
    let mut e = pos;
    while e < b.len() && ident_start_byte(b[e])
        invariant
            pos <= e <= b@.len(),
            keyword_end(b@, pos as int) == keyword_end(b@, e as int),
        decreases b@.len() - e,
    {
        e = e + 1;
    }
    assert(keyword_end(b@, e as int) == e);

    let w_debug: Vec<u8> = vec![100u8, 101u8, 98u8, 117u8, 103u8];
    let w_modify: Vec<u8> = vec![109u8, 111u8, 100u8, 105u8, 102u8, 121u8];
    let w_save: Vec<u8> = vec![115u8, 97u8, 118u8, 101u8];
    let w_load: Vec<u8> = vec![108u8, 111u8, 97u8, 100u8];
    let w_exit: Vec<u8> = vec![101u8, 120u8, 105u8, 116u8];
    assert(w_debug@ =~= kw_debug() && w_modify@ =~= kw_modify() && w_save@ =~= kw_save());
    assert(w_load@ =~= kw_load() && w_exit@ =~= kw_exit());
    if word_is(b, pos, e, &w_debug) {
        let p = skip_space(b, e);
        proof { lemma_operand_start_is(b@, e as int, p as int); }
        if p == b.len() {
            return Ok(Command::Debug(None));
        }
        if p == e || !digit_byte(b[p]) {
            return Err(ParseError::TokenError { position: p });
        }
        let ghost arg = debug_level_arg(b@, pos as int);
        proof {
            lemma_digit_run(b@, p as int);
            assert(b@.subrange(p as int, p as int).len() == 0);
        }
        let mut level: u32 = 0;
        let mut i = p;
        while i < b.len() && digit_byte(b[i])
            invariant
                p <= i <= b@.len(),
                is_keyword(b@.subrange(pos as int, keyword_end(b@, pos as int))),
                level == digits_value(b@.subrange(p as int, i as int)),
                digit_run_end(b@, p as int) == digit_run_end(b@, i as int),
                forall|k: int| p <= k < i ==> is_digit(#[trigger] b@[k]),
                arg == debug_level_arg(b@, pos as int),
                arg ==> p == operand_start(b@, keyword_end(b@, pos as int)),
                p == operand_start(b@, e as int),
                e == keyword_end(b@, pos as int),
                b@.subrange(pos as int, e as int) == kw_debug(),
                e < p < b@.len() && is_digit(b@[p as int]),
            decreases b@.len() - i,
        {
            let d = (b[i] - 48u8) as u32;
            proof { lemma_digits_value_step(b@, p as int, i as int); }
            if level > (u32::MAX - d) / 10 {
                proof {
                    lemma_digit_run(b@, p as int);
                    lemma_digit_run(b@, i as int);
                    lemma_digits_value_grows(b@, p as int, i + 1, digit_run_end(b@, p as int));
                    assert(digits_value(b@.subrange(p as int, i + 1)) > u32::MAX);
                }
                return Err(ParseError::TokenError { position: p });
            }
            level = level * 10 + d;
            i = i + 1;
        }
        proof { lemma_digit_run(b@, i as int); }
        assert(i == digit_run_end(b@, p as int));
        expect_end(b, i)?;
        Ok(Command::Debug(Some(level)))
    } else if word_is(b, pos, e, &w_modify) {
        Ok(Command::Modify(parse_name_argument(b, e)?))
    } else if word_is(b, pos, e, &w_save) {
        Ok(Command::Save(parse_name_argument(b, e)?))
    } else if word_is(b, pos, e, &w_load) {
        Ok(Command::Load(parse_name_argument(b, e)?))
    } else if word_is(b, pos, e, &w_exit) {
        expect_end(b, e)?;
        Ok(Command::Exit)
    } else {
        Err(ParseError::TokenError { position: pos })
    }
}

/// Whether a number literal that a scalar holds stands at `p`, with only
/// white space after it.
pub open spec fn lone_number(b: Seq<u8>, p: int) -> bool {
    starts_number(b, p) && number_ok(b, p) && operand_start(b, number_end(b, p)) == b.len()
}

/// Whether the line is `name = number`, with optional white space.
pub open spec fn number_assignment_line(b: Seq<u8>) -> bool {
    let p = operand_start(b, 0);
    let q = operand_start(b, ident_end(b, p));
    &&& p < b.len() && is_ident_start(b[p])
    &&& q < b.len() && b[q] == 61u8
    &&& lone_number(b, operand_start(b, q + 1))
}

/// The value, in millionths, of the number of a `name = number` line.
pub open spec fn assigned_units(b: Seq<u8>) -> int {
    let q = operand_start(b, ident_end(b, operand_start(b, 0)));
    number_units(b, operand_start(b, q + 1))
}

/// Whether the line is `.debug n`, with `n` a number that fits `u32`.
pub open spec fn debug_line(b: Seq<u8>) -> bool {
    let p = operand_start(b, 0);
    p < b.len() && b[p] == 46u8 && debug_level_arg(b, p + 1)
}

/// The level that a `.debug n` line names.
pub open spec fn debug_line_level(b: Seq<u8>) -> int {
    debug_level_value(b, operand_start(b, 0) + 1)
}

/// Whether the line is one identifier with optional white space around it.
pub open spec fn bare_name_line(b: Seq<u8>) -> bool {
    let p = operand_start(b, 0);
    p < b.len() && is_ident_start(b[p]) && operand_start(b, ident_end(b, p)) == b.len()
}

/// The first identifier of a line, as characters.
pub open spec fn line_name(b: Seq<u8>) -> Seq<char> {
    let p = operand_start(b, 0);
    chars_of(b.subrange(p, ident_end(b, p)))
}

/// Parses one line of input into a command.
pub fn parse_command(input: &str) -> (r: Result<Command, ParseError>)
    ensures
        r matches Ok(c) ==> c.wf(),
        r matches Err(e) ==> e is TokenError || e is ValueParseError,
        bare_name_line(input.spec_bytes()) ==> (r matches Ok(Command::Query(n)) && n@ == line_name(
            input.spec_bytes(),
        )),
        command_result(r) == command_of(input.spec_bytes()),
{
    parse_command_bytes(input.as_bytes())
}

/// Parses one line, given as bytes, into a command.
pub fn parse_command_bytes(b: &[u8]) -> (r: Result<Command, ParseError>)
    ensures
        r matches Ok(c) ==> c.wf(),
        r matches Err(e) ==> e is TokenError || e is ValueParseError,
        command_result(r) == command_of(b@),
        ({
            let p = operand_start(b@, 0);
            &&& p < b@.len() && b@[p] == 46u8 ==> (r matches Ok(c) ==> is_meta(c) && meta_named(
                c,
                b@.subrange(p + 1, keyword_end(b@, p + 1)),
            ))
            &&& !(p < b@.len() && b@[p] == 46u8) ==> (r matches Ok(c) ==> !is_meta(c))
            &&& bare_name_line(b@) ==> (r matches Ok(Command::Query(n)) && n@ == line_name(b@))
            &&& debug_line(b@) ==> r == Ok::<Command, ParseError>(Command::Debug(Some(debug_line_level(b@) as u32)))
            &&& number_assignment_line(b@) ==> (r matches Ok(Command::Assign { name, expr }) && name@ == line_name(
                b@,
            ) && expr.ops@.len() == 0 && (expr.operands@[0] matches Operand::Number(v) && v.val()
                == assigned_units(b@)))
            &&& r matches Ok(Command::Assign { name, .. }) ==> name@ == chars_of(
                b@.subrange(p, ident_end(b@, p)),
            ) && operand_start(b@, ident_end(b@, p)) < b@.len() && b@[operand_start(
                b@,
                ident_end(b@, p),
            )] == 61u8
        }),
{
    let p = skip_space(b, 0);
    proof { lemma_operand_start_is(b@, 0, p as int); }
    if p < b.len() && b[p] == 46u8 {
        return parse_meta(b, p + 1);
    }
    if p < b.len() && ident_start_byte(b[p]) {
        let e = scan_ident(b, p);
        let q = skip_space(b, e);
        proof {
            lemma_ident_end_is(b@, p as int, e as int);
            lemma_operand_start_is(b@, e as int, q as int);
        }
        if q < b.len() && b[q] == 61u8 {
            let name = text_between(b, p, e);
            let (expr, end) = parse_expression(b, q + 1)?;
            expect_end(b, end)?;
            return Ok(Command::Assign { name, expr });
        }
    }
    let (expr, end) = parse_expression(b, p)?;
    expect_end(b, end)?;
    if expr.ops.len() == 0 {
        if let Operand::Ident(name) = &expr.operands[0] {
            return Ok(Command::Query(name.clone()));
        }
    }
    Ok(Command::Evaluate(expr))
}

/// Parses a line that holds a single value: a number, a vector literal or
/// a variable name, with optional surrounding white space.
pub fn parse_operand_text(input: &str) -> (r: Result<Operand, ParseError>)
    ensures
        r matches Err(e) ==> e is TokenError || e is ValueParseError,
        match r {
            Ok(o) => operand_text(input.spec_bytes()) == Ok::<Term, Fault>(o@),
            Err(e) => operand_text(input.spec_bytes()) == Err::<Term, Fault>(e@),
        },
{
    let b = input.as_bytes();
    let (o, e) = parse_operand(b, 0)?;
    let q = skip_space(b, e);
    proof { lemma_operand_start_is(b@, e as int, q as int); }
    if q < b.len() {
        return Err(ParseError::TokenError { position: q });
    }
    Ok(o)
}

} // verus!
