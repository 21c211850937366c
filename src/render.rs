use vstd::prelude::*;
use crate::scalar::{abs, Scalar, SCALE};
use crate::value::{Val, Value};

verus! {

pub open spec fn digit(d: int) -> u8 {
    (48 + d) as u8
}

/// Decimal digits of `n`, without leading zeros ("0" for zero).
pub open spec fn digits_of(n: nat) -> Seq<u8>
    decreases n,
{
    if n < 10 {
        seq![digit(n as int)]
    } else {
        digits_of(n / 10) + seq![digit((n % 10) as int)]
    }
}

/// The last `width` decimal digits of `n`, with leading zeros.
pub open spec fn fixed_digits(n: nat, width: nat) -> Seq<u8>
    decreases width,
{
    if width == 0 {
        Seq::empty()
    } else {
        fixed_digits(n / 10, (width - 1) as nat) + seq![digit((n % 10) as int)]
    }
}

/// `s` without its trailing `'0'` characters.
pub open spec fn trim_zeros(s: Seq<u8>) -> Seq<u8>
    decreases s.len(),
{
    if s.len() > 0 && s.last() == 48u8 {
        trim_zeros(s.drop_last())
    } else {
        s
    }
}

/// A scalar in units as decimal text: an optional minus sign, the whole part,
/// and the fractional digits without trailing zeros after a point, if any.
pub open spec fn scalar_text(u: int) -> Seq<u8> {
    let whole = (abs(u) / SCALE as int) as nat;
    let frac = (abs(u) % SCALE as int) as nat;
    let sign: Seq<u8> = if u < 0 { seq![45u8] } else { Seq::empty() };
    let tail: Seq<u8> = if frac == 0 {
        Seq::empty()
    } else {
        seq![46u8] + trim_zeros(fixed_digits(frac, 6))
    };
    sign + digits_of(whole) + tail
}

/// The components separated by ", ".
pub open spec fn list_text(s: Seq<int>) -> Seq<u8>
    decreases s.len(),
{
    if s.len() == 0 {
        Seq::empty()
    } else if s.len() == 1 {
        scalar_text(s[0])
    } else {
        list_text(s.drop_last()) + seq![44u8, 32u8] + scalar_text(s.last())
    }
}

pub open spec fn empty_vector_text() -> Seq<u8> {
    seq![60u8, 69u8, 109u8, 112u8, 116u8, 121u8, 32u8, 86u8, 101u8, 99u8, 116u8, 111u8, 114u8, 62u8]
}

/// How a value is shown: a number as decimal text, a vector as
/// `<c1, c2, ...>`, and an empty vector as `<Empty Vector>`.
pub open spec fn value_text(v: Val) -> Seq<u8> {
    match v {
        Val::Num(u) => scalar_text(u),
        Val::Vect(s) => if s.len() == 0 {
            empty_vector_text()
        } else {
            seq![60u8] + list_text(s) + seq![62u8]
        },
    }
}

pub open spec fn is_ascii_bytes(s: Seq<u8>) -> bool {
    forall|i: int| 0 <= i < s.len() ==> #[trigger] s[i] < 128
}

pub open spec fn chars_of(s: Seq<u8>) -> Seq<char> {
    s.map_values(|b: u8| b as char)
}

/// Relies on `String::from_utf8`, which accepts every ASCII byte sequence
/// and gives one character per byte.
#[verifier::external_body]
pub(crate) fn ascii_to_string(bytes: Vec<u8>) -> (r: String)
    requires
        is_ascii_bytes(bytes@),
    ensures
        r@ == chars_of(bytes@),
{
    match String::from_utf8(bytes) {
        Ok(s) => s,
        Err(_) => String::new(),
    }
}

/// `a` followed by `b`.
pub fn join_strings(a: String, b: String) -> (r: String)
    ensures
        r@ == a@ + b@,
{
    a.concat(b.as_str())
}

/// Appends the decimal digits of `n`.
pub fn push_digits(out: &mut Vec<u8>, n: u64)
    ensures
        final(out)@ == old(out)@ + digits_of(n as nat),
    decreases n,
{
    if n >= 10 {
        push_digits(out, n / 10);
    }
    out.push(48u8 + (n % 10) as u8);
    assert(final(out)@ =~= old(out)@ + digits_of(n as nat));
}

fn push_fixed(out: &mut Vec<u8>, n: u64, width: u64)
    ensures
        final(out)@ == old(out)@ + fixed_digits(n as nat, width as nat),
    decreases width,
{
    if width > 0 {
        push_fixed(out, n / 10, width - 1);
        out.push(48u8 + (n % 10) as u8);
    }
    assert(final(out)@ =~= old(out)@ + fixed_digits(n as nat, width as nat));
}

pub proof fn lemma_digits_ascii(n: nat)
    ensures
        is_ascii_bytes(digits_of(n)),
    decreases n,
{
    if n >= 10 {
        lemma_digits_ascii(n / 10);
    }
}

/// Appends the text of a scalar.
pub fn push_scalar(out: &mut Vec<u8>, s: Scalar)
    ensures
        final(out)@ == old(out)@ + scalar_text(s.val()),
{
    let u: i128 = s.units as i128;
    let a: u64 = if u < 0 { (-u) as u64 } else { u as u64 };
    let whole: u64 = a / (SCALE as u64);
    let frac: u64 = a % (SCALE as u64);
    let ghost start = out@;
    if u < 0 {
        out.push(45u8);
    }
    push_digits(out, whole);
    if frac != 0 {
        out.push(46u8);
        let mut f: Vec<u8> = Vec::new();
        push_fixed(&mut f, frac, 6);
        assert(f@ =~= fixed_digits(frac as nat, 6));
        let mut len: usize = f.len();
        assert(f@.subrange(0, len as int) =~= f@);
        while len > 0 && f[len - 1] == 48u8
            invariant
                len <= f@.len(),
                trim_zeros(f@.subrange(0, len as int)) == trim_zeros(f@),
            decreases len,
        {
            assert(f@.subrange(0, len as int).drop_last() =~= f@.subrange(0, len - 1));
            len = len - 1;
        }
        let ghost before = out@;
        let mut i: usize = 0;
        while i < len
            invariant
                i <= len,
                len <= f@.len(),
                out@ == before + f@.subrange(0, i as int),
            decreases len - i,
        {
            out.push(f[i]);
            i = i + 1;
            assert(out@ =~= before + f@.subrange(0, i as int));
        }
        assert(trim_zeros(f@.subrange(0, len as int)) == f@.subrange(0, len as int));
    }
    assert(out@ =~= start + scalar_text(s.val()));
}

/// Appends every byte of `bytes`.
pub fn push_all(out: &mut Vec<u8>, bytes: &Vec<u8>)
    ensures
        final(out)@ == old(out)@ + bytes@,
{
    let ghost start = out@;
    let mut i: usize = 0;
    while i < bytes.len()
        invariant
            i <= bytes@.len(),
            out@ == start + bytes@.subrange(0, i as int),
        decreases bytes@.len() - i,
    {
        out.push(bytes[i]);
        i = i + 1;
        assert(out@ =~= start + bytes@.subrange(0, i as int));
    }
    assert(bytes@.subrange(0, i as int) =~= bytes@);
}

/// Appends the text of a value.
pub fn push_value(out: &mut Vec<u8>, v: &Value)
    ensures
        final(out)@ == old(out)@ + value_text(v@),
{
    match v {
        Value::Number(s) => push_scalar(out, *s),
        Value::Vector(vec) => {
            let comps = vec.components();
            if comps.len() == 0 {
                let ghost start = out@;
                let text: Vec<u8> = vec![60u8, 69u8, 109u8, 112u8, 116u8, 121u8, 32u8, 86u8, 101u8, 99u8, 116u8, 111u8, 114u8, 62u8];
                push_all(out, &text);
                assert(text@ =~= empty_vector_text());
                assert(out@ =~= start + empty_vector_text());
            } else {
                let ghost start = out@;
                out.push(60u8);
                let mut i: usize = 0;
                while i < comps.len()
                    invariant
                        comps@ == vec.0@,
                        0 < comps@.len(),
                        i <= comps@.len(),
                        out@ == start + seq![60u8] + list_text(vec@.subrange(0, i as int)),
                    decreases comps@.len() - i,
                {
                    let ghost before = out@;
                    if i > 0 {
                        out.push(44u8);
                        out.push(32u8);
                    }
                    push_scalar(out, comps[i]);
                    proof {
                        let sub = vec@.subrange(0, i + 1);
                        assert(sub.drop_last() =~= vec@.subrange(0, i as int));
                        assert(sub.last() == comps@[i as int].val());
                        if i == 0 {
                            assert(vec@.subrange(0, 0) =~= Seq::<int>::empty());
                        }
                    }
                    i = i + 1;
                    assert(out@ =~= start + seq![60u8] + list_text(vec@.subrange(0, i as int)));
                }
                out.push(62u8);
                assert(vec@.subrange(0, i as int) =~= vec@);
                assert(out@ =~= start + value_text(v@));
            }
        },
    }
}

} // verus!
