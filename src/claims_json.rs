//! The JSON payload of a token: `{"sub":"..","exp":N,"company":".."}` with
//! one canonical spelling for every set of claims, so that a payload is
//! accepted exactly when re-encoding what was read gives it back.
use vstd::prelude::*;

verus! {

pub open spec fn hex_digit(v: u8) -> u8 {
    if v < 10 {
        (48 + v) as u8
    } else {
        (87 + v) as u8
    }
}

/// The escaped spelling of one byte inside a JSON string.
pub open spec fn esc_byte(b: u8) -> Seq<u8> {
    if b == 34 {
        seq![92u8, 34u8]
    } else if b == 92 {
        seq![92u8, 92u8]
    } else if b < 32 {
        seq![92u8, 117u8, 48u8, 48u8, hex_digit(b / 16), hex_digit(b % 16)]
    } else {
        seq![b]
    }
}

/// The escaped spelling of a byte string inside a JSON string.
pub open spec fn esc(s: Seq<u8>) -> Seq<u8>
    decreases s.len(),
{
    if s.len() == 0 {
        Seq::empty()
    } else {
        esc(s.drop_last()) + esc_byte(s.last())
    }
}

/// Decimal digits of `n`, without leading zeros.
pub open spec fn dec(n: nat) -> Seq<u8>
    decreases n,
{
    if n < 10 {
        seq![(48 + n) as u8]
    } else {
        dec(n / 10).push((48 + n % 10) as u8)
    }
}

/// Value of a string of decimal digits.
pub open spec fn dec_value(s: Seq<u8>) -> nat
    decreases s.len(),
{
    if s.len() == 0 {
        0
    } else {
        dec_value(s.drop_last()) * 10 + (s.last() - 48) as nat
    }
}

pub open spec fn sub_open() -> Seq<u8> {
    seq![123u8, 34, 115, 117, 98, 34, 58, 34]
}

pub open spec fn exp_open() -> Seq<u8> {
    seq![34u8, 44, 34, 101, 120, 112, 34, 58]
}

pub open spec fn company_open() -> Seq<u8> {
    seq![44u8, 34, 99, 111, 109, 112, 97, 110, 121, 34, 58, 34]
}

pub open spec fn close() -> Seq<u8> {
    seq![34u8, 125]
}

/// The payload for the given subject, expiry and company bytes.
pub open spec fn payload_bytes(sub: Seq<u8>, exp: u64, company: Seq<u8>) -> Seq<u8> {
    sub_open() + esc(sub) + exp_open() + dec(exp as nat) + company_open() + esc(company) + close()
}

fn sub_open_vec() -> (r: Vec<u8>)
    ensures
        r@ == sub_open(),
{
    let r = vec![123u8, 34, 115, 117, 98, 34, 58, 34];
    assert(r@ =~= sub_open());
    r
}

fn exp_open_vec() -> (r: Vec<u8>)
    ensures
        r@ == exp_open(),
{
    let r = vec![34u8, 44, 34, 101, 120, 112, 34, 58];
    assert(r@ =~= exp_open());
    r
}

fn company_open_vec() -> (r: Vec<u8>)
    ensures
        r@ == company_open(),
{
    let r = vec![44u8, 34, 99, 111, 109, 112, 97, 110, 121, 34, 58, 34];
    assert(r@ =~= company_open());
    r
}

fn close_vec() -> (r: Vec<u8>)
    ensures
        r@ == close(),
{
    let r = vec![34u8, 125];
    assert(r@ =~= close());
    r
}

pub(crate) fn push_all(out: &mut Vec<u8>, s: &Vec<u8>)
    ensures
        final(out)@ == old(out)@ + s@,
{
    let mut i: usize = 0;
    while i < s.len()
        invariant
            i <= s@.len(),
            out@ == old(out)@ + s@.take(i as int),
        decreases s@.len() - i,
    {
        out.push(s[i]);
        i = i + 1;
        assert(s@.take(i as int) =~= s@.take(i - 1).push(s@[i - 1]));
    }
    assert(s@.take(i as int) =~= s@);
}

fn hex_digit_exec(v: u8) -> (r: u8)
    requires
        v < 16,
    ensures
        r == hex_digit(v),
{
    if v < 10 {
        48 + v
    } else {
        87 + v
    }
}

fn push_escaped(out: &mut Vec<u8>, s: &[u8])
    ensures
        final(out)@ == old(out)@ + esc(s@),
{
    let mut i: usize = 0;
    while i < s.len()
        invariant
            i <= s@.len(),
            out@ == old(out)@ + esc(s@.take(i as int)),
        decreases s@.len() - i,
    {
        let b = s[i];
        let ghost before = out@;
        if b == 34 {
            out.push(92);
            out.push(34);
        } else if b == 92 {
            out.push(92);
            out.push(92);
        } else if b < 32 {
            out.push(92);
            out.push(117);
            out.push(48);
            out.push(48);
            out.push(hex_digit_exec(b / 16));
            out.push(hex_digit_exec(b % 16));
        } else {
            out.push(b);
        }
        assert(out@ =~= before + esc_byte(b));
        assert(s@.take(i + 1).drop_last() =~= s@.take(i as int));
        i = i + 1;
    }
    assert(s@.take(i as int) =~= s@);
}

fn push_dec(out: &mut Vec<u8>, n: u64)
    ensures
        final(out)@ == old(out)@ + dec(n as nat),
    decreases n,
{
    if n < 10 {
        out.push(48 + n as u8);
        assert(out@ =~= old(out)@ + dec(n as nat));
    } else {
        push_dec(out, n / 10);
        out.push(48 + (n % 10) as u8);
        assert(out@ =~= old(out)@ + dec(n as nat));
    }
}

/// Writes the payload for the given subject, expiry and company bytes.
pub fn encode_payload(sub: &[u8], exp: u64, company: &[u8]) -> (r: Vec<u8>)
    ensures
        r@ == payload_bytes(sub@, exp, company@),
{
    let mut out = sub_open_vec();
    push_escaped(&mut out, sub);
    push_all(&mut out, &exp_open_vec());
    push_dec(&mut out, exp);
    push_all(&mut out, &company_open_vec());
    push_escaped(&mut out, company);
    push_all(&mut out, &close_vec());
    out
}


proof fn lemma_esc_single(b: u8)
    ensures
        esc(seq![b]) == esc_byte(b),
{
    assert(seq![b].drop_last() =~= Seq::<u8>::empty());
    assert(esc(Seq::<u8>::empty()) =~= Seq::<u8>::empty());
    assert(seq![b].last() == b);
    assert(esc(seq![b]) == esc(seq![b].drop_last()) + esc_byte(seq![b].last()));
    assert(esc(seq![b]) =~= esc_byte(b));
}

proof fn lemma_esc_concat(s: Seq<u8>, t: Seq<u8>)
    ensures
        esc(s + t) == esc(s) + esc(t),
    decreases t.len(),
{
    if t.len() == 0 {
        assert(s + t =~= s);
        assert(esc(s) + esc(t) =~= esc(s));
    } else {
        assert((s + t).drop_last() =~= s + t.drop_last());
        lemma_esc_concat(s, t.drop_last());
        assert(esc(s + t) =~= esc(s) + esc(t));
    }
}

/// Splits the escaped spelling of `a` at its `k`-th byte.
proof fn lemma_esc_split(a: Seq<u8>, k: int)
    requires
        0 <= k < a.len(),
    ensures
        esc(a) == esc(a.take(k)) + esc_byte(a[k]) + esc(a.skip(k + 1)),
        esc(a.take(k + 1)) == esc(a.take(k)) + esc_byte(a[k]),
{
    assert(a =~= a.take(k) + seq![a[k]] + a.skip(k + 1));
    assert(a.take(k + 1) =~= a.take(k) + seq![a[k]]);
    lemma_esc_concat(a.take(k) + seq![a[k]], a.skip(k + 1));
    lemma_esc_concat(a.take(k), seq![a[k]]);
    lemma_esc_single(a[k]);
}

proof fn lemma_dec_shape(n: nat)
    ensures
        dec(n).len() >= 1,
        forall|j: int| 0 <= j < dec(n).len() ==> 48 <= #[trigger] dec(n)[j] <= 57,
        dec_value(dec(n)) == n,
    decreases n,
{
    if n >= 10 {
        lemma_dec_shape(n / 10);
        let d = dec(n / 10);
        assert(dec(n) == d.push((48 + n % 10) as u8));
        assert(dec(n).drop_last() =~= d);
        assert(dec(n).last() == (48 + n % 10) as u8);
        assert((n / 10) * 10 + n % 10 == n) by (nonlinear_arith);
        assert forall|j: int| 0 <= j < dec(n).len() implies 48 <= #[trigger] dec(n)[j] <= 57 by {
            if j < d.len() {
                assert(dec(n)[j] == d[j]);
            }
        }
    } else {
        assert(dec(n) == seq![(48 + n) as u8]);
        assert(dec(n).drop_last() =~= Seq::<u8>::empty());
        assert(dec(n)[0] == (48 + n) as u8);
        assert(dec_value(Seq::<u8>::empty()) == 0);
        assert(dec(n).last() == (48 + n) as u8);
    }
}

proof fn lemma_dec_prefix(n: nat, j: int)
    requires
        0 <= j <= dec(n).len(),
    ensures
        dec_value(dec(n).take(j)) <= n,
    decreases n,
{
    lemma_dec_shape(n);
    if j == dec(n).len() {
        assert(dec(n).take(j) =~= dec(n));
    } else if j == 0 {
        assert(dec(n).take(j) =~= Seq::<u8>::empty());
    } else {
        assert(n >= 10);
        assert(dec(n).take(j) =~= dec(n / 10).take(j));
        lemma_dec_prefix(n / 10, j);
    }
}

fn same_bytes(a: &Vec<u8>, b: &Vec<u8>) -> (r: bool)
    ensures
        r == (a@ == b@),
{
    if a.len() != b.len() {
        return false;
    }
    let mut i: usize = 0;
    while i < a.len()
        invariant
            i <= a@.len(),
            a@.len() == b@.len(),
            a@.take(i as int) == b@.take(i as int),
        decreases a@.len() - i,
    {
        if a[i] != b[i] {
            assert(a@[i as int] == a@.take(i + 1)[i as int]);
            assert(b@[i as int] == b@.take(i + 1)[i as int]);
            return false;
        }
        assert(a@.take(i + 1) =~= a@.take(i as int).push(a@[i as int]));
        assert(b@.take(i + 1) =~= b@.take(i as int).push(b@[i as int]));
        i = i + 1;
    }
    assert(a@.take(i as int) =~= a@);
    assert(b@.take(i as int) =~= b@);
    true
}

pub(crate) fn has_at(x: &Vec<u8>, i: usize, lit: &Vec<u8>) -> (r: bool)
    ensures
        r == (i + lit@.len() <= x@.len() && x@.subrange(i as int, i + lit@.len()) == lit@),
        r ==> i + lit.len() <= x.len(),
{
    if i > x.len() || lit.len() > x.len() - i {
        return false;
    }
    let end = i + lit.len();
    let mut j: usize = 0;
    while j < lit.len()
        invariant
            j <= lit@.len(),
            end == i + lit@.len(),
            end <= x@.len(),
            x@.subrange(i as int, i + j) == lit@.take(j as int),
        decreases lit@.len() - j,
    {
        let at = i + j;
        if x[at] != lit[j] {
            assert(x@.subrange(i as int, i + lit@.len())[j as int] == x@[i + j]);
            return false;
        }
        assert(x@.subrange(i as int, i + j + 1) =~= x@.subrange(i as int, i + j).push(x@[i + j]));
        assert(lit@.take(j + 1) =~= lit@.take(j as int).push(lit@[j as int]));
        j = j + 1;
    }
    assert(lit@.take(j as int) =~= lit@);
    true
}

fn hex_value(c: u8) -> (r: Option<u8>)
    ensures
        forall|v: u8| v < 16 && c == hex_digit(v) ==> r == Some(v),
        r matches Some(v) ==> v < 16,
{
    if 48 <= c && c <= 57 {
        Some(c - 48)
    } else if 97 <= c && c <= 102 {
        Some(c - 87)
    } else {
        None
    }
}

/// Reads an escaped string that starts at `start` up to its closing quote,
/// and returns its bytes and the position of that quote.
fn read_escaped(x: &Vec<u8>, start: usize, Ghost(a): Ghost<Seq<u8>>, Ghost(rest): Ghost<Seq<u8>>) -> (r: Option<(Vec<u8>, usize)>)
    requires
        start <= x@.len(),
    ensures
        x@.subrange(start as int, x@.len() as int) == esc(a) + seq![34u8] + rest ==> (r matches Some((v, e))
            && v@ == a && e == start + esc(a).len()),
{
    let ghost whole = esc(a) + seq![34u8] + rest;
    let ghost canonical = x@.subrange(start as int, x@.len() as int) == whole;
    let mut out: Vec<u8> = Vec::new();
    let mut i: usize = start;
    let ghost mut k: int = 0;
    loop
        invariant
            start <= i <= x@.len(),
            canonical ==> 0 <= k <= a.len() && out@ == a.take(k) && i == start + esc(a.take(k)).len(),
            canonical == (x@.subrange(start as int, x@.len() as int) == whole),
            whole == esc(a) + seq![34u8] + rest,
        decreases x@.len() - i,
    {
        let ghost eb = if canonical && k < a.len() { esc_byte(a[k]) } else { seq![34u8] };
        proof {
            if canonical {
                let tail = if k < a.len() { esc(a.skip(k + 1)) + seq![34u8] + rest } else { rest };
                let pre = esc(a.take(k));
                if k < a.len() {
                    lemma_esc_split(a, k);
                } else {
                    assert(a.take(k) =~= a);
                }
                assert(whole =~= pre + eb + tail);
                assert(x@.subrange(start as int, x@.len() as int).len() == whole.len());
                assert(x@.len() == start + whole.len());
                assert forall|m: int| 0 <= m < eb.len() implies x@[i + m] == #[trigger] eb[m] by {
                    assert(whole[pre.len() + m] == eb[m]);
                assert(pre.len() + m < whole.len());
                    assert(x@.subrange(start as int, x@.len() as int)[pre.len() + m] == x@[i + m]);
                }
                assert(x@[i as int] == eb[0]);
                if eb.len() > 1 {
                    assert(x@[i + 1] == eb[1]);
                }
                if eb.len() > 5 {
                    assert(x@[i + 4] == eb[4]);
                    assert(x@[i + 5] == eb[5]);
                }
            }
        }
        if i >= x.len() {
            return None;
        }
        let c = x[i];
        if c == 34 {
            return Some((out, i));
        }
        if c == 92 {
            if x.len() - i <= 1 {
                return None;
            }
            let e = x[i + 1];
            if e == 34 || e == 92 {
                out.push(e);
                i = i + 2;
            } else if e == 117 {
                if x.len() - i <= 5 {
                    return None;
                }
                let hi = match hex_value(x[i + 4]) {
                    Some(v) => v,
                    None => return None,
                };
                let lo = match hex_value(x[i + 5]) {
                    Some(v) => v,
                    None => return None,
                };
                out.push(hi * 16 + lo);
                i = i + 6;
            } else {
                return None;
            }
        } else {
            out.push(c);
            i = i + 1;
        }
        proof {
            if canonical {
                assert(out@ =~= a.take(k + 1));
                k = k + 1;
            }
        }
    }
}

fn is_digit(c: u8) -> (r: bool)
    ensures
        r == (48 <= c <= 57),
{
    48 <= c && c <= 57
}

/// Reads decimal digits that start at `start`, and returns their value and
/// the position after them.
fn read_dec(x: &Vec<u8>, start: usize, Ghost(n): Ghost<u64>, Ghost(rest): Ghost<Seq<u8>>) -> (r: Option<(u64, usize)>)
    requires
        start <= x@.len(),
    ensures
        (rest.len() > 0 && rest[0] == 34u8 || rest.len() > 0 && rest[0] == 44u8)
            && x@.subrange(start as int, x@.len() as int) == dec(n as nat) + rest ==> (r matches Some((v, e))
            && v == n && e == start + dec(n as nat).len()),
{
    let ghost d = dec(n as nat);
    let ghost canonical = (rest.len() > 0 && rest[0] == 34u8 || rest.len() > 0 && rest[0] == 44u8)
        && x@.subrange(start as int, x@.len() as int) == d + rest;
    proof {
        lemma_dec_shape(n as nat);
    }
    let mut v: u64 = 0;
    let mut i: usize = start;
    while i < x.len() && is_digit(x[i])
        invariant
            start <= i <= x@.len(),
            canonical ==> i - start <= d.len() && v == dec_value(d.take(i - start)),
            canonical == ((rest.len() > 0 && rest[0] == 34u8 || rest.len() > 0 && rest[0] == 44u8)
                && x@.subrange(start as int, x@.len() as int) == d + rest),
            d == dec(n as nat),
            d.len() >= 1,
            forall|j: int| 0 <= j < d.len() ==> 48 <= #[trigger] d[j] <= 57,
        decreases x@.len() - i,
    {
        let ghost j = i - start;
        proof {
            if canonical {
                assert(x@.subrange(start as int, x@.len() as int)[j] == x@[i as int]);
                assert(x@[i as int] == (d + rest)[j]);
                if j == d.len() {
                    assert((d + rest)[j] == rest[0]);
                }
                assert(j < d.len());
                assert(d.take(j + 1).drop_last() =~= d.take(j));
                assert(d.take(j + 1).last() == d[j]);
                lemma_dec_prefix(n as nat, j + 1);
                assert(v * 10 + (x@[i as int] - 48) <= n);
            }
        }
        let digit = (x[i] - 48) as u64;
        v = match v.checked_mul(10) {
            Some(t) => match t.checked_add(digit) {
                Some(u) => u,
                None => return None,
            },
            None => return None,
        };
        i = i + 1;
    }
    proof {
        if canonical {
            let j = i - start;
            assert(x@.subrange(start as int, x@.len() as int).len() == (d + rest).len());
            if j < d.len() {
                assert(i < x@.len());
                assert(x@.subrange(start as int, x@.len() as int)[j] == x@[i as int]);
                assert(x@[i as int] == (d + rest)[j]);
            }
            assert(d.take(j) =~= d);
        }
    }
    Some((v, i))
}

/// Reads a payload in the canonical spelling. What is read re-encodes to the
/// input; and a canonical payload is read as the claims it spells.
pub(crate) fn decode_payload(x: &Vec<u8>, Ghost(a): Ghost<Seq<u8>>, Ghost(n): Ghost<u64>, Ghost(b): Ghost<Seq<u8>>) -> (r: Option<(Vec<u8>, u64, Vec<u8>)>)
    ensures
        r matches Some((ra, rn, rb)) ==> payload_bytes(ra@, rn, rb@) == x@,
        x@ == payload_bytes(a, n, b) ==> (r matches Some((ra, rn, rb)) && ra@ == a && rn == n
            && rb@ == b),
{
    let ghost canonical = x@ == payload_bytes(a, n, b);
    let ghost ea = esc(a);
    let ghost eb = esc(b);
    let ghost dn = dec(n as nat);
    let prefix_sub = sub_open_vec();
    if !has_at(x, 0, &prefix_sub) {
        proof {
            if canonical {
                assert(x@.subrange(0, 8) =~= sub_open());
            }
        }
        return None;
    }
    let ghost rest1 = exp_open().drop_first() + dn + company_open() + eb + close();
    proof {
        if canonical {
            assert(x@.subrange(8, x@.len() as int) =~= ea + seq![34u8] + rest1);
        }
    }
    let (sub, i1) = match read_escaped(x, 8, Ghost(a), Ghost(rest1)) {
        Some(t) => t,
        None => return None,
    };
    let prefix_exp = exp_open_vec();
    if !has_at(x, i1, &prefix_exp) {
        proof {
            if canonical {
                assert(x@.subrange(i1 as int, i1 + 8) =~= exp_open());
            }
        }
        return None;
    }
    let ghost rest2 = company_open() + eb + close();
    proof {
        if canonical {
            assert(x@.subrange(i1 + 8, x@.len() as int) =~= dn + rest2);
        }
    }
    let (exp, i2) = match read_dec(x, i1 + 8, Ghost(n), Ghost(rest2)) {
        Some(t) => t,
        None => return None,
    };
    let prefix_company = company_open_vec();
    if !has_at(x, i2, &prefix_company) {
        proof {
            if canonical {
                assert(x@.subrange(i2 as int, i2 + 12) =~= company_open());
            }
        }
        return None;
    }
    let ghost rest3 = close().drop_first();
    proof {
        if canonical {
            assert(x@.subrange(i2 + 12, x@.len() as int) =~= eb + seq![34u8] + rest3);
        }
    }
    let (company, _i3) = match read_escaped(x, i2 + 12, Ghost(b), Ghost(rest3)) {
        Some(t) => t,
        None => return None,
    };
    let again = encode_payload(sub.as_slice(), exp, company.as_slice());
    if same_bytes(&again, x) {
        Some((sub, exp, company))
    } else {
        None
    }
}


proof fn lemma_hex_digit_injective(v: u8, w: u8)
    requires
        v < 16,
        w < 16,
        hex_digit(v) == hex_digit(w),
    ensures
        v == w,
{
}

proof fn lemma_esc_front(x: u8, t: Seq<u8>)
    ensures
        esc(seq![x] + t) == esc_byte(x) + esc(t),
{
    lemma_esc_concat(seq![x], t);
    lemma_esc_single(x);
}

/// An escaped string followed by its closing quote determines the string
/// and what follows the quote.
proof fn lemma_esc_unique(a1: Seq<u8>, r1: Seq<u8>, a2: Seq<u8>, r2: Seq<u8>)
    requires
        esc(a1) + seq![34u8] + r1 == esc(a2) + seq![34u8] + r2,
    ensures
        a1 == a2,
        r1 == r2,
    decreases a1.len(),
{
    let w1 = esc(a1) + seq![34u8] + r1;
    let w2 = esc(a2) + seq![34u8] + r2;
    if a1.len() == 0 {
        assert(esc(a1) =~= Seq::<u8>::empty());
        if a2.len() > 0 {
            lemma_esc_front(a2[0], a2.skip(1));
            assert(a2 =~= seq![a2[0]] + a2.skip(1));
            assert(w2[0] == esc_byte(a2[0])[0]);
            assert(w1[0] == 34u8);
        }
        assert(esc(a2) =~= Seq::<u8>::empty());
        assert(r1 =~= w1.skip(1));
        assert(r2 =~= w2.skip(1));
    } else if a2.len() == 0 {
        lemma_esc_unique(a2, r2, a1, r1);
    } else {
        let x1 = a1[0];
        let x2 = a2[0];
        let t1 = a1.skip(1);
        let t2 = a2.skip(1);
        assert(a1 =~= seq![x1] + t1);
        assert(a2 =~= seq![x2] + t2);
        lemma_esc_front(x1, t1);
        lemma_esc_front(x2, t2);
        let e1 = esc_byte(x1);
        let e2 = esc_byte(x2);
        assert(w1 =~= e1 + (esc(t1) + seq![34u8] + r1));
        assert(w2 =~= e2 + (esc(t2) + seq![34u8] + r2));
        assert(w1[0] == e1[0]);
        assert(w2[0] == e2[0]);
        if e1.len() > 1 {
            assert(w1[1] == e1[1]);
        }
        if e2.len() > 1 {
            assert(w2[1] == e2[1]);
        }
        if e1.len() > 5 && e2.len() > 5 {
            assert(w1[4] == e1[4]);
            assert(w2[4] == e2[4]);
            assert(w1[5] == e1[5]);
            assert(w2[5] == e2[5]);
            lemma_hex_digit_injective(x1 / 16, x2 / 16);
            lemma_hex_digit_injective(x1 % 16, x2 % 16);
        }
        assert(x1 == x2);
        assert(w1.skip(e1.len() as int) =~= esc(t1) + seq![34u8] + r1);
        assert(w2.skip(e2.len() as int) =~= esc(t2) + seq![34u8] + r2);
        lemma_esc_unique(t1, r1, t2, r2);
    }
}

/// Decimal digits followed by a byte that is not a digit determine the
/// number and what follows.
proof fn lemma_dec_unique(n1: nat, r1: Seq<u8>, n2: nat, r2: Seq<u8>)
    requires
        r1.len() > 0,
        r2.len() > 0,
        !(48 <= r1[0] <= 57),
        !(48 <= r2[0] <= 57),
        dec(n1) + r1 == dec(n2) + r2,
    ensures
        n1 == n2,
        r1 == r2,
{
    lemma_dec_shape(n1);
    lemma_dec_shape(n2);
    let d1 = dec(n1);
    let d2 = dec(n2);
    let w = d1 + r1;
    if d1.len() < d2.len() {
        assert(w[d1.len() as int] == r1[0]);
        assert((d2 + r2)[d1.len() as int] == d2[d1.len() as int]);
    } else if d2.len() < d1.len() {
        assert(w[d2.len() as int] == d1[d2.len() as int]);
        assert((d2 + r2)[d2.len() as int] == r2[0]);
    }
    assert(d1 =~= w.take(d1.len() as int));
    assert(d2 =~= (d2 + r2).take(d2.len() as int));
    assert(r1 =~= w.skip(d1.len() as int));
    assert(r2 =~= (d2 + r2).skip(d2.len() as int));
}

/// Different claims have different payloads.
pub proof fn lemma_payload_injective(
    a1: Seq<u8>,
    n1: u64,
    b1: Seq<u8>,
    a2: Seq<u8>,
    n2: u64,
    b2: Seq<u8>,
)
    requires
        payload_bytes(a1, n1, b1) == payload_bytes(a2, n2, b2),
    ensures
        a1 == a2,
        n1 == n2,
        b1 == b2,
{
    let whole1 = payload_bytes(a1, n1, b1);
    let whole2 = payload_bytes(a2, n2, b2);
    let d1 = dec(n1 as nat);
    let d2 = dec(n2 as nat);
    let rest1 = exp_open().drop_first() + d1 + company_open() + esc(b1) + close();
    let rest2 = exp_open().drop_first() + d2 + company_open() + esc(b2) + close();
    assert(whole1.skip(8) =~= esc(a1) + seq![34u8] + rest1);
    assert(whole2.skip(8) =~= esc(a2) + seq![34u8] + rest2);
    lemma_esc_unique(a1, rest1, a2, rest2);
    let tail1 = company_open() + esc(b1) + close();
    let tail2 = company_open() + esc(b2) + close();
    assert(rest1.skip(7) =~= d1 + tail1);
    assert(rest2.skip(7) =~= d2 + tail2);
    assert(tail1[0] == 44u8);
    assert(tail2[0] == 44u8);
    lemma_dec_unique(n1 as nat, tail1, n2 as nat, tail2);
    assert(tail1.skip(12) =~= esc(b1) + seq![34u8] + seq![125u8]);
    assert(tail2.skip(12) =~= esc(b2) + seq![34u8] + seq![125u8]);
    lemma_esc_unique(b1, seq![125u8], b2, seq![125u8]);
}

} // verus!
