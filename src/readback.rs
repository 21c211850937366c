use vstd::prelude::*;
use crate::render::{list_text, value_text, chars_of, digit, digits_of, fixed_digits, scalar_text, trim_zeros};
use crate::scalar::{abs, SCALE};
use crate::error::Fault;
use crate::value::Val;
use crate::syntax::{
    command_of, empty_marker_tail, expr_rest, op_at, Cmd, Op,
    number_at, operand_at, vector_items, Term,
    assigned_units, is_ident_char, is_ident_start, lemma_ident_end_is, lemma_operand_start_is,
    line_name, number_assignment_line, debug_line, debug_line_level, kw_debug, lemma_keyword_end_is,
    digit_run_end, digits_value, is_digit, number_digits_start, number_end, number_has_fraction,
    number_magnitude, number_ok, number_units, number_whole_end, number_fraction_len, pow10, starts_number,
};

verus! {

pub open spec fn all_digits(s: Seq<u8>) -> bool {
    forall|i: int| 0 <= i < s.len() ==> is_digit(#[trigger] s[i])
}

proof fn lemma_digits_of(n: nat)
    ensures
        all_digits(digits_of(n)),
        digits_of(n).len() > 0,
        digits_value(digits_of(n)) == n,
    decreases n,
{
    if n >= 10 {
        lemma_digits_of(n / 10);
        let d = digits_of(n);
        assert(d.drop_last() =~= digits_of(n / 10));
        assert(d.last() == digit((n % 10) as int));
        assert(digit((n % 10) as int) - 48 == n % 10);
        assert(n == (n / 10) * 10 + n % 10);
    } else {
        let d = digits_of(n);
        assert(d.drop_last() =~= Seq::<u8>::empty());
        assert(d.last() == digit(n as int));
        assert(digit(n as int) - 48 == n);
        assert(digits_value(d.drop_last()) == 0);
    }
}

proof fn lemma_fixed_digits(f: nat, w: nat)
    requires
        f < pow10(w),
    ensures
        all_digits(fixed_digits(f, w)),
        fixed_digits(f, w).len() == w,
        digits_value(fixed_digits(f, w)) == f,
    decreases w,
{
    if w > 0 {
        let p = pow10((w - 1) as nat);
        assert(f / 10 < p) by (nonlinear_arith) requires f < 10 * p;
        lemma_fixed_digits(f / 10, (w - 1) as nat);
        let d = fixed_digits(f, w);
        assert(d.drop_last() =~= fixed_digits(f / 10, (w - 1) as nat));
        assert(d.last() == digit((f % 10) as int));
        assert(digit((f % 10) as int) - 48 == f % 10);
        assert(f == (f / 10) * 10 + f % 10);
    } else {
        assert(f == 0);
    }
}

proof fn lemma_trim(s: Seq<u8>)
    requires
        all_digits(s),
    ensures
        trim_zeros(s) =~= s.subrange(0, trim_zeros(s).len() as int),
        trim_zeros(s).len() <= s.len(),
        digits_value(trim_zeros(s)) * pow10((s.len() - trim_zeros(s).len()) as nat) == digits_value(s),
        digits_value(s) > 0 ==> trim_zeros(s).len() > 0,
    decreases s.len(),
{
    if s.len() > 0 && s.last() == 48u8 {
        let t = s.drop_last();
        assert(all_digits(t)) by {
            assert forall|i: int| 0 <= i < t.len() implies is_digit(#[trigger] t[i]) by {
                assert(t[i] == s[i]);
            }
        }
        lemma_trim(t);
        assert(trim_zeros(s) == trim_zeros(t));
        let k = (t.len() - trim_zeros(t).len()) as nat;
        assert(pow10(k + 1) == pow10(k) * 10);
        assert((s.len() - trim_zeros(s).len()) as nat == k + 1);
        assert(digits_value(s) == digits_value(t) * 10);
        assert(digits_value(trim_zeros(t)) * pow10(k + 1) == digits_value(t) * 10) by (nonlinear_arith)
            requires
                digits_value(trim_zeros(t)) * pow10(k) == digits_value(t),
                pow10(k + 1) == pow10(k) * 10;
    } else {
        assert(pow10(0) == 1);
        assert(trim_zeros(s) == s);
        assert(digits_value(s) * pow10(0) == digits_value(s)) by (nonlinear_arith)
            requires pow10(0) == 1;
        assert(s.subrange(0, s.len() as int) =~= s);
        if s.len() == 0 {
            assert(digits_value(s) == 0);
        }
    }
}

proof fn lemma_digit_run_is(b: Seq<u8>, p: int, e: int)
    requires
        0 <= p <= e <= b.len(),
        forall|i: int| p <= i < e ==> is_digit(#[trigger] b[i]),
        e < b.len() ==> !is_digit(b[e]),
    ensures
        e == digit_run_end(b, p),
    decreases e - p,
{
    if p < e {
        lemma_digit_run_is(b, p + 1, e);
    }
}

/// Whether `rest` may follow a number's text without changing how the
/// number reads: it is empty or starts with neither a digit nor a point.
pub open spec fn ends_number(rest: Seq<u8>) -> bool {
    rest.len() == 0 || (!is_digit(rest[0]) && rest[0] != 46u8)
}

/// Every scalar reads back from its own text: wherever `scalar_text(u)`
/// stands, followed by anything that cannot extend a number, it spells a
/// well-formed number literal that ends where the text ends and has the
/// value `u`.
pub proof fn law_scalar_text_reads_back(pre: Seq<u8>, u: int, rest: Seq<u8>)
    requires
        i64::MIN <= u <= i64::MAX,
        ends_number(rest),
    ensures
        ({
            let b = pre + scalar_text(u) + rest;
            let k = pre.len() as int;
            &&& starts_number(b, k)
            &&& number_ok(b, k)
            &&& number_units(b, k) == u
            &&& number_end(b, k) == k + scalar_text(u).len()
        }),
{
    let s = SCALE as int;
    let whole = (abs(u) / s) as nat;
    let frac = (abs(u) % s) as nat;
    let sign: Seq<u8> = if u < 0 { seq![45u8] } else { Seq::empty() };
    let d = digits_of(whole);
    let tail: Seq<u8> = if frac == 0 { Seq::empty() } else { seq![46u8] + trim_zeros(fixed_digits(frac, 6)) };
    let t = scalar_text(u);
    assert(t =~= sign + d + tail);
    let b = pre + t + rest;
    let k = pre.len() as int;
    lemma_digits_of(whole);
    crate::syntax::lemma_pow10_six();
    let ds = k + sign.len();
    let we = ds + d.len();
    assert forall|i: int| ds <= i < we implies is_digit(#[trigger] b[i]) by {
        assert(b[i] == d[i - ds]);
    }
    assert(number_digits_start(b, k) == ds) by {
        if u >= 0 {
            assert(b[k] == d[0]);
        } else {
            assert(b[k] == 45u8);
        }
    }
    assert(starts_number(b, k)) by {
        if u >= 0 {
            assert(b[k] == d[0]);
        } else {
            assert(b[k] == 45u8);
            assert(b[k + 1] == d[0]);
        }
    }
    assert(b.subrange(ds, we) =~= d);
    if frac == 0 {
        if we < b.len() {
            assert(b[we] == rest[0]);
        }
        lemma_digit_run_is(b, ds, we);
        assert(number_whole_end(b, k) == we);
        assert(!number_has_fraction(b, k));
        assert(abs(u) == whole * 1_000_000) by (nonlinear_arith)
            requires abs(u) == (abs(u) / 1_000_000) * 1_000_000 + abs(u) % 1_000_000, abs(u) % 1_000_000 == 0,
                whole == abs(u) / 1_000_000;
    } else {
        assert(0 < frac < pow10(6));
        lemma_fixed_digits(frac, 6);
        let fx = fixed_digits(frac, 6);
        lemma_trim(fx);
        let f = trim_zeros(fx);
        assert(all_digits(f)) by {
            assert forall|i: int| 0 <= i < f.len() implies is_digit(#[trigger] f[i]) by {
                assert(f[i] == fx[i]);
            }
        }
        assert(b[we] == 46u8);
        assert(b[we + 1] == f[0]);
        lemma_digit_run_is(b, ds, we);
        assert(number_whole_end(b, k) == we);
        assert(number_has_fraction(b, k));
        let fe = we + 1 + f.len();
        assert forall|i: int| we + 1 <= i < fe implies is_digit(#[trigger] b[i]) by {
            assert(b[i] == f[i - we - 1]);
        }
        if fe < b.len() {
            assert(b[fe] == rest[0]);
        }
        lemma_digit_run_is(b, we + 1, fe);
        assert(number_end(b, k) == fe);
        assert(b.subrange(we + 1, fe) =~= f);
        assert(digits_value(f) * pow10((6 - f.len()) as nat) == frac);
        assert(abs(u) == whole * 1_000_000 + frac) by (nonlinear_arith)
            requires abs(u) == (abs(u) / 1_000_000) * 1_000_000 + abs(u) % 1_000_000,
                frac == abs(u) % 1_000_000, whole == abs(u) / 1_000_000;
        assert(number_fraction_len(b, k) == f.len());
    }
    assert(number_magnitude(b, k) == abs(u));
}

/// A saved number variable reads back: the line `name = <its text>`
/// (with the line break that ends it) is an assignment of that same number
/// to that same name.
pub proof fn law_saved_number_line(nm: Seq<u8>, u: int)
    requires
        nm.len() > 0,
        is_ident_start(nm[0]),
        forall|i: int| 0 <= i < nm.len() ==> is_ident_char(#[trigger] nm[i]),
        i64::MIN <= u <= i64::MAX,
    ensures
        ({
            let line = nm + seq![32u8, 61u8, 32u8] + scalar_text(u) + seq![10u8];
            &&& number_assignment_line(line)
            &&& line_name(line) == chars_of(nm)
            &&& assigned_units(line) == u
        }),
{
    let pre = nm + seq![32u8, 61u8, 32u8];
    let t = scalar_text(u);
    let rest = seq![10u8];
    let b = pre + t + rest;
    let n = nm.len() as int;
    let k = pre.len() as int;
    assert(nm + seq![32u8, 61u8, 32u8] + scalar_text(u) + seq![10u8] =~= b);
    law_scalar_text_reads_back(pre, u, rest);
    assert(b[0] == nm[0]);
    lemma_operand_start_is(b, 0, 0);
    assert forall|i: int| 0 <= i < n implies is_ident_char(#[trigger] b[i]) by {
        assert(b[i] == nm[i]);
    }
    assert(b[n] == 32u8);
    lemma_ident_end_is(b, 0, n);
    assert(b[n + 1] == 61u8);
    lemma_operand_start_is(b, n, n + 1);
    assert(b[n + 2] == 32u8);
    assert(b[k] == t[0]);
    lemma_operand_start_is(b, n + 2, k);
    let e = k + t.len();
    assert(b[e] == 10u8);
    lemma_operand_start_is(b, e, b.len() as int);
    assert(b.subrange(0, n) =~= nm);
}

/// The saved verbosity reads back: the line `.debug <level>` sets that
/// same level.
pub proof fn law_saved_debug_line(level: u32)
    ensures
        ({
            let line = seq![46u8, 100u8, 101u8, 98u8, 117u8, 103u8, 32u8] + digits_of(level as nat);
            &&& debug_line(line)
            &&& debug_line_level(line) == level
        }),
{
    let d = digits_of(level as nat);
    lemma_digits_of(level as nat);
    let b = seq![46u8, 100u8, 101u8, 98u8, 117u8, 103u8, 32u8] + d;
    lemma_operand_start_is(b, 0, 0);
    lemma_keyword_end_is(b, 1, 6);
    assert(b.subrange(1, 6) =~= kw_debug());
    assert(b[7] == d[0]);
    lemma_operand_start_is(b, 6, 7);
    assert forall|i: int| 7 <= i < b.len() implies is_digit(#[trigger] b[i]) by {
        assert(b[i] == d[i - 7]);
    }
    lemma_digit_run_is(b, 7, b.len() as int);
    lemma_operand_start_is(b, b.len() as int, b.len() as int);
    assert(b.subrange(7, b.len() as int) =~= d);
}

proof fn lemma_list_step(s: Seq<int>, j: int)
    requires
        1 <= j < s.len(),
    ensures
        list_text(s.subrange(0, j + 1)) == list_text(s.subrange(0, j)) + seq![44u8, 32u8] + scalar_text(s[j]),
{
    assert(s.subrange(0, j + 1).drop_last() =~= s.subrange(0, j));
}

proof fn lemma_list_prefix(s: Seq<int>, j: int, n: int)
    requires
        1 <= j <= n <= s.len(),
    ensures
        list_text(s.subrange(0, n)).len() >= list_text(s.subrange(0, j)).len(),
        list_text(s.subrange(0, j)) == list_text(s.subrange(0, n)).subrange(0, list_text(s.subrange(0, j)).len() as int),
    decreases n - j,
{
    if j < n {
        lemma_list_prefix(s, j, n - 1);
        lemma_list_step(s, n - 1);
        let a = list_text(s.subrange(0, n - 1));
        let c = list_text(s.subrange(0, n));
        assert(c.subrange(0, a.len() as int) =~= a);
        assert(c.subrange(0, list_text(s.subrange(0, j)).len() as int) =~= a.subrange(0, list_text(s.subrange(0, j)).len() as int));
    } else {
        let c = list_text(s.subrange(0, n));
        assert(c.subrange(0, c.len() as int) =~= c);
    }
}

proof fn lemma_first(s: Seq<int>)
    requires
        1 <= s.len(),
    ensures
        list_text(s.subrange(0, 1)) == scalar_text(s[0]),
{
}

pub open spec fn in_range(s: Seq<int>) -> bool {
    forall|i: int| 0 <= i < s.len() ==> i64::MIN <= #[trigger] s[i] <= i64::MAX
}

pub open spec fn vector_text(pre: Seq<u8>, s: Seq<int>, rest: Seq<u8>) -> Seq<u8> {
    pre + seq![60u8] + list_text(s) + seq![62u8] + rest
}

#[verifier::rlimit(100)]
#[verifier::spinoff_prover]
proof fn lemma_items(pre: Seq<u8>, s: Seq<int>, rest: Seq<u8>, j: int)
    requires
        0 <= j < s.len(),
        in_range(s),
    ensures
        ({
            let b = vector_text(pre, s, rest);
            let base = pre.len() as int;
            let lj = if j == 0 { Seq::<u8>::empty() } else { list_text(s.subrange(0, j)) };
            let i = if j == 0 { base + 1 } else { base + 1 + lj.len() + 1 };
            vector_items(b, i, s.subrange(0, j)) == Ok::<(Seq<int>, int), Fault>(
                (s, base + 2 + list_text(s).len()),
            )
        }),
    decreases s.len() - j,
{
    let b = vector_text(pre, s, rest);
    let base = pre.len() as int;
    let n = s.len() as int;
    let l = list_text(s);
    let lj = if j == 0 { Seq::<u8>::empty() } else { list_text(s.subrange(0, j)) };
    let i = if j == 0 { base + 1 } else { base + 1 + lj.len() + 1 };
    let c = if j == 0 { base + 1 } else { base + 1 + lj.len() + 2 };
    let t = scalar_text(s[j]);
    let lj1 = list_text(s.subrange(0, j + 1));
    if j == 0 {
        lemma_first(s);
    } else {
        lemma_list_step(s, j);
    }
    assert(lj1.len() == c - base - 1 + t.len());
    assert(s.subrange(0, n) =~= s);
    lemma_list_prefix(s, j + 1, n);
    let e = c + t.len();
    assert forall|m: int| 0 <= m < l.len() implies b[base + 1 + m] == #[trigger] l[m] by {}
    assert(b.subrange(c, e) =~= t) by {
        assert forall|m: int| 0 <= m < t.len() implies b[c + m] == #[trigger] t[m] by {
            assert(lj1[c - base - 1 + m] == t[m]);
            assert(l[c - base - 1 + m] == lj1[c - base - 1 + m]);
        }
    }
    if j + 1 < n {
        lemma_list_step(s, j + 1);
        lemma_list_prefix(s, j + 2, n);
        let lj2 = list_text(s.subrange(0, j + 2));
        assert(lj2[lj1.len() as int] == 44u8);
        assert(l[lj1.len() as int] == lj2[lj1.len() as int]);
        assert(b[e] == 44u8);
    } else {
        assert(lj1 =~= l);
        assert(b[e] == 62u8);
    }
    let pre2 = b.subrange(0, c);
    let rest2 = b.subrange(e, b.len() as int);
    assert(pre2 + t + rest2 =~= b);
    law_scalar_text_reads_back(pre2, s[j], rest2);
    assert(number_at(b, c) == Ok::<(int, int), Fault>((s[j], e)));
    if j == 0 {
        lemma_operand_start_is(b, i, c);
    } else {
        assert(lj1[lj.len() as int + 1] == 32u8);
        assert(l[lj.len() as int + 1] == lj1[lj.len() as int + 1]);
        assert(b[i] == 32u8);
        lemma_operand_start_is(b, i, c);
    }
    lemma_operand_start_is(b, e, e);
    assert(s.subrange(0, j).push(s[j]) =~= s.subrange(0, j + 1));
    if j + 1 < n {
        lemma_items(pre, s, rest, j + 1);
    } else {
        assert(s.subrange(0, j + 1) =~= s);
    }
}

/// Every vector of representable components reads back from its own text:
/// wherever `<c1, ..., ck>` stands, the operand read there is that vector,
/// and it ends where the text ends.
pub proof fn law_vector_text_reads_back(pre: Seq<u8>, s: Seq<int>, rest: Seq<u8>)
    requires
        s.len() > 0,
        in_range(s),
    ensures
        operand_at(vector_text(pre, s, rest), pre.len() as int) == Ok::<(Term, int), Fault>(
            (Term::Lit(Val::Vect(s)), pre.len() as int + 2 + list_text(s).len()),
        ),
{
    let b = vector_text(pre, s, rest);
    let base = pre.len() as int;
    lemma_items(pre, s, rest, 0);
    lemma_first(s);
    lemma_list_prefix(s, 1, s.len() as int);
    assert(s.subrange(0, s.len() as int) =~= s);
    let t = scalar_text(s[0]);
    let pre2 = b.subrange(0, base + 1);
    assert(b[base] == 60u8);
    lemma_operand_start_is(b, base, base);
    assert(list_text(s)[0] == t[0]);
    assert(b[base + 1] == t[0]);
    law_scalar_text_reads_back(seq![], s[0], seq![]);
    assert(seq![] + t + seq![] =~= t);
    lemma_operand_start_is(b, base + 1, base + 1);
    if b.len() - (base + 1) >= 13 {
        assert(b.subrange(base + 1, base + 14)[0] == t[0]);
        assert(t[0] != 69u8);
    }
    assert(s.subrange(0, 0) =~= Seq::<int>::empty());
}

/// A saved vector variable reads back: the line `name = <c1, ..., ck>`,
/// or `name = <Empty Vector>` for an empty one (with the line break that
/// ends it), is the assignment of that same vector, written as one literal,
/// to that same name.
#[verifier::rlimit(100)]
#[verifier::spinoff_prover]
pub proof fn law_saved_vector_line(nm: Seq<u8>, v: Seq<int>)
    requires
        nm.len() > 0,
        is_ident_start(nm[0]),
        forall|i: int| 0 <= i < nm.len() ==> is_ident_char(#[trigger] nm[i]),
        in_range(v),
    ensures
        command_of(nm + seq![32u8, 61u8, 32u8] + value_text(Val::Vect(v)) + seq![10u8]) == Ok::<Cmd, Fault>(
            Cmd::Assign { name: chars_of(nm), terms: seq![Term::Lit(Val::Vect(v))], ops: Seq::empty() },
        ),
{
    if v.len() == 0 {
        lemma_saved_empty_vector_line(nm);
        assert(v =~= Seq::<int>::empty());
        return;
    }
    let pre = nm + seq![32u8, 61u8, 32u8];
    let rest = seq![10u8];
    let b = vector_text(pre, v, rest);
    let n = nm.len() as int;
    let k = pre.len() as int;
    assert(nm + seq![32u8, 61u8, 32u8] + value_text(Val::Vect(v)) + seq![10u8] =~= b);
    law_vector_text_reads_back(pre, v, rest);
    assert(b[0] == nm[0]);
    lemma_operand_start_is(b, 0, 0);
    assert forall|i: int| 0 <= i < n implies is_ident_char(#[trigger] b[i]) by {
        assert(b[i] == nm[i]);
    }
    assert(b[n] == 32u8);
    lemma_ident_end_is(b, 0, n);
    assert(b[n + 1] == 61u8);
    lemma_operand_start_is(b, n, n + 1);
    assert(b[n + 2] == 32u8);
    assert(b[k] == 60u8);
    lemma_operand_start_is(b, n + 2, k);
    lemma_operand_start_is(b, k, k);
    let e = k + 2 + list_text(v).len();
    assert(b[e] == 10u8);
    lemma_operand_start_is(b, e, b.len() as int);
    assert(operand_at(b, n + 2) == operand_at(b, k));
    assert(op_at(b, b.len() as int) is None);
    assert(expr_rest(b, e, seq![Term::Lit(Val::Vect(v))], Seq::empty()) == Ok::<(Seq<Term>, Seq<Op>, int), Fault>(
        (seq![Term::Lit(Val::Vect(v))], Seq::empty(), e),
    ));
    assert(b.subrange(0, n) =~= nm);
}

#[verifier::rlimit(100)]
#[verifier::spinoff_prover]
proof fn lemma_saved_empty_vector_line(nm: Seq<u8>)
    requires
        nm.len() > 0,
        is_ident_start(nm[0]),
        forall|i: int| 0 <= i < nm.len() ==> is_ident_char(#[trigger] nm[i]),
    ensures
        command_of(nm + seq![32u8, 61u8, 32u8] + value_text(Val::Vect(Seq::empty())) + seq![10u8]) == Ok::<
            Cmd,
            Fault,
        >(Cmd::Assign { name: chars_of(nm), terms: seq![Term::Lit(Val::Vect(Seq::empty()))], ops: Seq::empty() }),
{
    let b = nm + seq![32u8, 61u8, 32u8] + value_text(Val::Vect(Seq::empty())) + seq![10u8];
    let n = nm.len() as int;
    let k = n + 3;
    assert(b[0] == nm[0]);
    lemma_operand_start_is(b, 0, 0);
    assert forall|i: int| 0 <= i < n implies is_ident_char(#[trigger] b[i]) by {
        assert(b[i] == nm[i]);
    }
    assert(b[n] == 32u8);
    lemma_ident_end_is(b, 0, n);
    assert(b[n + 1] == 61u8);
    lemma_operand_start_is(b, n, n + 1);
    assert(b[n + 2] == 32u8);
    assert(b[k] == 60u8);
    lemma_operand_start_is(b, n + 2, k);
    lemma_operand_start_is(b, k, k);
    assert(b.subrange(k + 1, k + 14) =~= empty_marker_tail());
    let e = k + 14;
    assert(b[e] == 10u8);
    lemma_operand_start_is(b, e, b.len() as int);
    assert(op_at(b, b.len() as int) is None);
    assert(expr_rest(b, e, seq![Term::Lit(Val::Vect(Seq::empty()))], Seq::empty()) == Ok::<
        (Seq<Term>, Seq<Op>, int),
        Fault,
    >((seq![Term::Lit(Val::Vect(Seq::empty()))], Seq::empty(), e)));
    assert(b.subrange(0, n) =~= nm);
}

} // verus!
