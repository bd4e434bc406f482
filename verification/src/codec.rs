//! The payload codec: a self-describing, tagged text encoding of protocol
//! frames. Numbers are fixed-width decimal, strings are length-prefixed,
//! and messages are tagged with their variant name. Encoding and parsing
//! are specified as functions on character sequences, the executable code
//! is proved equal to them, and parsing an encoding is proved to give back
//! the encoded value.

use crate::protocol::{ErrorCode, FrameV, Message, MessageV, ProtocolFrame, MAX_MESSAGE_SIZE,
    PROTOCOL_VERSION};
use vstd::arithmetic::div_mod::{lemma_div_denominator, lemma_fundamental_div_mod};
use vstd::prelude::*;

verus! {

/// Every number on the wire takes exactly this many decimal digits.
pub const NUM_WIDTH: usize = 20;

pub open spec fn pow10(k: nat) -> nat
    decreases k,
{
    if k == 0 {
        1
    } else {
        10 * pow10((k - 1) as nat)
    }
}

pub open spec fn digit_char(d: nat) -> char {
    if d == 0 {
        '0'
    } else if d == 1 {
        '1'
    } else if d == 2 {
        '2'
    } else if d == 3 {
        '3'
    } else if d == 4 {
        '4'
    } else if d == 5 {
        '5'
    } else if d == 6 {
        '6'
    } else if d == 7 {
        '7'
    } else if d == 8 {
        '8'
    } else {
        '9'
    }
}

/// The value of a digit character; 10 marks a non-digit.
pub open spec fn digit_val(c: char) -> nat {
    if c == '0' {
        0
    } else if c == '1' {
        1
    } else if c == '2' {
        2
    } else if c == '3' {
        3
    } else if c == '4' {
        4
    } else if c == '5' {
        5
    } else if c == '6' {
        6
    } else if c == '7' {
        7
    } else if c == '8' {
        8
    } else if c == '9' {
        9
    } else {
        10
    }
}

pub open spec fn is_digit(c: char) -> bool {
    digit_val(c) < 10
}

/// `n` written as `w` decimal digits, most significant first (leading
/// zeros included; only the last `w` digits of `n` are kept).
pub open spec fn enc_nat(n: nat, w: nat) -> Seq<char>
    decreases w,
{
    if w == 0 {
        Seq::empty()
    } else {
        enc_nat(n / 10, (w - 1) as nat).push(digit_char(n % 10))
    }
}

/// A `u64` written in the wire's fixed width.
pub open spec fn enc_u64(n: u64) -> Seq<char> {
    enc_nat(n as nat, NUM_WIDTH as nat)
}

/// The number denoted by a digit string (most significant first).
pub open spec fn dec_val(s: Seq<char>) -> nat
    decreases s.len(),
{
    if s.len() == 0 {
        0
    } else {
        dec_val(s.drop_last()) * 10 + digit_val(s.last())
    }
}

pub open spec fn all_digits(s: Seq<char>) -> bool {
    forall|i: int| 0 <= i < s.len() ==> is_digit(s[i])
}

/// Parse a fixed-width number from the front of `s`; yields the value and
/// the unconsumed rest.
pub open spec fn p_u64(s: Seq<char>) -> Option<(u64, Seq<char>)> {
    if s.len() >= NUM_WIDTH && all_digits(s.take(NUM_WIDTH as int)) && dec_val(
        s.take(NUM_WIDTH as int),
    ) <= u64::MAX {
        Some(((dec_val(s.take(NUM_WIDTH as int)) as u64), s.skip(NUM_WIDTH as int)))
    } else {
        None
    }
}

proof fn lemma_enc_nat_shape(n: nat, w: nat)
    ensures
        enc_nat(n, w).len() == w,
        all_digits(enc_nat(n, w)),
    decreases w,
{
    if w > 0 {
        lemma_enc_nat_shape(n / 10, (w - 1) as nat);
        let e = enc_nat(n, w);
        assert forall|i: int| 0 <= i < e.len() implies is_digit(e[i]) by {
            if i < w - 1 {
                assert(e[i] == enc_nat(n / 10, (w - 1) as nat)[i]);
            }
        }
    }
}

proof fn lemma_dec_enc(n: nat, w: nat)
    requires
        n < pow10(w),
    ensures
        dec_val(enc_nat(n, w)) == n,
    decreases w,
{
    if w == 0 {
    } else {
        let q = n / 10;
        let r = n % 10;
        lemma_fundamental_div_mod(n as int, 10);
        assert(q < pow10((w - 1) as nat)) by {
            assert(pow10(w) == 10 * pow10((w - 1) as nat));
            assert(n == 10 * q + r);
            assert(10 * q <= n);
            if q >= pow10((w - 1) as nat) {
                assert(10 * q >= 10 * pow10((w - 1) as nat)) by (nonlinear_arith)
                    requires
                        q >= pow10((w - 1) as nat),
                ;
            }
        }
        lemma_dec_enc(q, (w - 1) as nat);
        let e = enc_nat(n, w);
        assert(e.drop_last() =~= enc_nat(q, (w - 1) as nat));
        assert(r < 10);
        assert(digit_val(digit_char(r)) == r);
        assert(dec_val(e) == q * 10 + r);
    }
}

proof fn lemma_u64_below_pow10_width()
    ensures
        u64::MAX < pow10(NUM_WIDTH as nat),
{
    assert(pow10(20) == 100_000_000_000_000_000_000) by {
        reveal_with_fuel(pow10, 21);
    }
}

/// Parsing the encoding of a number, with anything after it, yields the
/// number and leaves exactly the rest.
pub proof fn lemma_p_u64_enc(n: u64, rest: Seq<char>)
    ensures
        p_u64(enc_u64(n) + rest) == Some((n, rest)),
{
    let s = enc_u64(n) + rest;
    lemma_enc_nat_shape(n as nat, NUM_WIDTH as nat);
    assert(s.take(NUM_WIDTH as int) =~= enc_u64(n));
    assert(s.skip(NUM_WIDTH as int) =~= rest);
    lemma_u64_below_pow10_width();
    lemma_dec_enc(n as nat, NUM_WIDTH as nat);
}

/// A digit as a one-character string slice.
fn digit_str(d: u64) -> (r: &'static str)
    requires
        d < 10,
    ensures
        r@ =~= seq![digit_char(d as nat)],
{
    proof {
        reveal_strlit("0");
        reveal_strlit("1");
        reveal_strlit("2");
        reveal_strlit("3");
        reveal_strlit("4");
        reveal_strlit("5");
        reveal_strlit("6");
        reveal_strlit("7");
        reveal_strlit("8");
        reveal_strlit("9");
    }
    match d {
        0 => "0",
        1 => "1",
        2 => "2",
        3 => "3",
        4 => "4",
        5 => "5",
        6 => "6",
        7 => "7",
        8 => "8",
        _ => "9",
    }
}

/// The numeric value of a character; 10 for a non-digit.
fn digit_value(c: char) -> (r: u64)
    ensures
        r as nat == digit_val(c),
{
    if c == '0' {
        0
    } else if c == '1' {
        1
    } else if c == '2' {
        2
    } else if c == '3' {
        3
    } else if c == '4' {
        4
    } else if c == '5' {
        5
    } else if c == '6' {
        6
    } else if c == '7' {
        7
    } else if c == '8' {
        8
    } else if c == '9' {
        9
    } else {
        10
    }
}

/// Append the fixed-width encoding of `n` to `out`.
pub fn push_u64(out: &mut String, n: u64)
    ensures
        final(out)@ == old(out)@ + enc_u64(n),
{
    let ghost base = out@;
    let mut p: u64 = 10_000_000_000_000_000_000;
    let mut i: usize = 0;
    proof {
        assert(pow10(19) == 10_000_000_000_000_000_000) by {
            reveal_with_fuel(pow10, 20);
        }
        assert(enc_nat((n as nat) / pow10(20), 0) =~= Seq::<char>::empty());
        lemma_u64_below_pow10_width();
        assert((n as nat) / pow10(20) == 0) by {
            assert(pow10(20) > n as nat);
            vstd::arithmetic::div_mod::lemma_basic_div(n as int, pow10(20) as int);
        }
    }
    while i < NUM_WIDTH
        invariant
            i <= NUM_WIDTH,
            i < NUM_WIDTH ==> p == pow10((NUM_WIDTH - 1 - i) as nat),
            out@ == base + enc_nat((n as nat) / pow10((NUM_WIDTH - i) as nat), i as nat),
        decreases NUM_WIDTH - i,
    {
        proof {
            lemma_pow10_pos((NUM_WIDTH - 1 - i) as nat);
        }
        let d = (n / p) % 10;
        out.append(digit_str(d));
        proof {
            let m = (n as nat) / pow10((NUM_WIDTH - 1 - i) as nat);
            assert(pow10((NUM_WIDTH - i) as nat) == pow10((NUM_WIDTH - 1 - i) as nat) * 10);
            lemma_pow10_pos((NUM_WIDTH - 1 - i) as nat);
            lemma_div_denominator(n as int, pow10((NUM_WIDTH - 1 - i) as nat) as int, 10);
            assert(m / 10 == (n as nat) / pow10((NUM_WIDTH - i) as nat));
            assert(enc_nat(m, (i + 1) as nat) == enc_nat(m / 10, i as nat).push(
                digit_char(m % 10),
            ));
            assert(out@ =~= base + enc_nat(m, (i + 1) as nat));
            if i + 1 < NUM_WIDTH {
                assert(pow10((NUM_WIDTH - 1 - i) as nat) == 10 * pow10(
                    (NUM_WIDTH - 2 - i) as nat,
                ));
                assert((10 * pow10((NUM_WIDTH - 2 - i) as nat)) / 10 == pow10(
                    (NUM_WIDTH - 2 - i) as nat,
                )) by (nonlinear_arith);
            }
        }
        p = p / 10;
        i += 1;
    }
    proof {
        assert(pow10(0) == 1);
        assert((n as nat) / 1 == n as nat);
        assert(out@ == base + enc_u64(n));
    }
}

proof fn lemma_pow10_pos(k: nat)
    ensures
        pow10(k) >= 1,
    decreases k,
{
    if k > 0 {
        lemma_pow10_pos((k - 1) as nat);
    }
}

/// A longer digit string denotes at least as much as any prefix of it.
proof fn lemma_dec_val_prefix(s: Seq<char>, i: int)
    requires
        0 <= i <= s.len(),
    ensures
        dec_val(s.take(i)) <= dec_val(s),
    decreases s.len() - i,
{
    if i == s.len() {
        assert(s.take(i) =~= s);
    } else {
        lemma_dec_val_prefix(s, i + 1);
        let t = s.take(i + 1);
        assert(t.drop_last() =~= s.take(i));
        assert(dec_val(s.take(i)) * 10 >= dec_val(s.take(i))) by (nonlinear_arith);
        assert(dec_val(s.take(i)) <= dec_val(t));
    }
}

/// Parse a fixed-width number at position `pos` of `s`; `n` is the length
/// of `s` in characters.
pub fn parse_u64(s: &str, n: usize, pos: usize) -> (r: Option<(u64, usize)>)
    requires
        n == s@.len(),
        pos <= n,
    ensures
        match r {
            Some(pair) => pair.1 == pos + NUM_WIDTH && pair.1 <= n && p_u64(s@.skip(pos as int))
                == Some((pair.0, s@.skip(pair.1 as int))),
            None => p_u64(s@.skip(pos as int)) is None,
        },
{
    if n - pos < NUM_WIDTH {
        return None;
    }
    let ghost tail = s@.skip(pos as int);
    let ghost window = tail.take(NUM_WIDTH as int);
    let mut acc: u64 = 0;
    let mut i: usize = 0;
    while i < NUM_WIDTH
        invariant
            n == s@.len(),
            pos + NUM_WIDTH <= n,
            i <= NUM_WIDTH,
            tail == s@.skip(pos as int),
            window == tail.take(NUM_WIDTH as int),
            window.len() == NUM_WIDTH,
            forall|j: int| 0 <= j < window.len() ==> window[j] == s@[pos + j],
            all_digits(window.take(i as int)),
            acc as nat == dec_val(window.take(i as int)),
        decreases NUM_WIDTH - i,
    {
        let c = s.get_char(pos + i);
        let d = digit_value(c);
        if d >= 10 {
            proof {
                assert(!is_digit(window[i as int]));
            }
            return None;
        }
        proof {
            let w1 = window.take(i + 1);
            assert(w1.drop_last() =~= window.take(i as int));
            assert(w1.last() == window[i as int]);
            assert(dec_val(w1) == dec_val(window.take(i as int)) * 10 + digit_val(
                window[i as int],
            ));
        }
        let next = match acc.checked_mul(10) {
            Some(x) => x.checked_add(d),
            None => None,
        };
        match next {
            Some(v) => {
                acc = v;
            },
            None => {
                proof {
                    lemma_dec_val_prefix(window, i + 1);
                    assert(dec_val(window) > u64::MAX);
                }
                return None;
            },
        }
        i += 1;
    }
    proof {
        assert(window.take(NUM_WIDTH as int) =~= window);
        assert(tail.skip(NUM_WIDTH as int) =~= s@.skip(pos + NUM_WIDTH));
    }
    Some((acc, pos + NUM_WIDTH))
}

/// A string on the wire: its character count, then its characters.
pub open spec fn enc_str(t: Seq<char>) -> Seq<char> {
    enc_nat(t.len(), NUM_WIDTH as nat) + t
}

/// Parse a length-prefixed string from the front of `s`.
pub open spec fn p_str(s: Seq<char>) -> Option<(Seq<char>, Seq<char>)> {
    match p_u64(s) {
        Some((l, r)) => if r.len() >= l {
            Some((r.take(l as int), r.skip(l as int)))
        } else {
            None
        },
        None => None,
    }
}

/// Parsing the encoding of a string leaves exactly the rest.
pub proof fn lemma_p_str_enc(t: Seq<char>, rest: Seq<char>)
    requires
        t.len() <= u64::MAX,
    ensures
        p_str(enc_str(t) + rest) == Some((t, rest)),
{
    let l = t.len() as u64;
    assert(enc_str(t) + rest =~= enc_u64(l) + (t + rest));
    lemma_p_u64_enc(l, t + rest);
    assert((t + rest).take(l as int) =~= t);
    assert((t + rest).skip(l as int) =~= rest);
}

/// Append the encoding of a string to `out`.
pub fn push_str_enc(out: &mut String, t: &str)
    ensures
        final(out)@ == old(out)@ + enc_str(t@),
{
    let l = t.unicode_len();
    push_u64(out, l as u64);
    out.append(t);
    proof {
        assert(out@ =~= old(out)@ + enc_str(t@));
    }
}

/// Parse a length-prefixed string at position `pos` of `s`.
pub fn parse_str(s: &str, n: usize, pos: usize) -> (r: Option<(String, usize)>)
    requires
        n == s@.len(),
        pos <= n,
    ensures
        match r {
            Some(pair) => pair.1 <= n && p_str(s@.skip(pos as int)) == Some(
                (pair.0@, s@.skip(pair.1 as int)),
            ),
            None => p_str(s@.skip(pos as int)) is None,
        },
{
    match parse_u64(s, n, pos) {
        None => None,
        Some((l, j)) => {
            if l > (n - j) as u64 {
                return None;
            }
            let li = l as usize;
            let k = j + li;
            let sub = s.substring_char(j, k);
            let st = String::from_str(sub);
            proof {
                let tail = s@.skip(j as int);
                assert(tail.take(l as int) =~= s@.subrange(j as int, k as int));
                assert(tail.skip(l as int) =~= s@.skip(k as int));
            }
            Some((st, k))
        },
    }
}

/// An optional string: a presence flag, then the string if present.
pub open spec fn enc_opt_str(o: Option<Seq<char>>) -> Seq<char> {
    match o {
        None => seq!['0'],
        Some(t) => seq!['1'] + enc_str(t),
    }
}

/// Parse an optional string from the front of `s`.
pub open spec fn p_opt_str(s: Seq<char>) -> Option<(Option<Seq<char>>, Seq<char>)> {
    if s.len() == 0 {
        None
    } else if s[0] == '0' {
        Some((None, s.skip(1)))
    } else if s[0] == '1' {
        match p_str(s.skip(1)) {
            Some((t, r)) => Some((Some(t), r)),
            None => None,
        }
    } else {
        None
    }
}

/// Parsing the encoding of an optional string leaves exactly the rest.
pub proof fn lemma_p_opt_str_enc(o: Option<Seq<char>>, rest: Seq<char>)
    requires
        o matches Some(t) ==> t.len() <= u64::MAX,
    ensures
        p_opt_str(enc_opt_str(o) + rest) == Some((o, rest)),
{
    match o {
        None => {
            assert((seq!['0'] + rest).skip(1) =~= rest);
        },
        Some(t) => {
            let s = enc_opt_str(o) + rest;
            assert(s[0] == '1');
            assert(s.skip(1) =~= enc_str(t) + rest);
            lemma_p_str_enc(t, rest);
        },
    }
}

/// Append the encoding of an optional string to `out`.
pub fn push_opt_str(out: &mut String, o: &Option<String>)
    ensures
        final(out)@ == old(out)@ + enc_opt_str(o.deep_view()),
{
    proof {
        reveal_strlit("0");
        reveal_strlit("1");
    }
    match o {
        None => {
            out.append("0");
            proof {
                assert(out@ =~= old(out)@ + enc_opt_str(None));
            }
        },
        Some(t) => {
            out.append("1");
            push_str_enc(out, t.as_str());
            proof {
                assert(out@ =~= old(out)@ + enc_opt_str(Some(t@)));
            }
        },
    }
}

/// Parse an optional string at position `pos` of `s`.
pub fn parse_opt_str(s: &str, n: usize, pos: usize) -> (r: Option<(Option<String>, usize)>)
    requires
        n == s@.len(),
        pos <= n,
    ensures
        match r {
            Some(pair) => pair.1 <= n && p_opt_str(s@.skip(pos as int)) == Some(
                (pair.0.deep_view(), s@.skip(pair.1 as int)),
            ),
            None => p_opt_str(s@.skip(pos as int)) is None,
        },
{
    if pos >= n {
        return None;
    }
    let c = s.get_char(pos);
    proof {
        assert(s@.skip(pos as int)[0] == s@[pos as int]);
        assert(s@.skip(pos as int).skip(1) =~= s@.skip(pos + 1));
    }
    if c == '0' {
        Some((None, pos + 1))
    } else if c == '1' {
        match parse_str(s, n, pos + 1) {
            Some((t, j)) => Some((Some(t), j)),
            None => None,
        }
    } else {
        None
    }
}

/// The concatenated encodings of a sequence of strings.
pub open spec fn enc_str_seq(l: Seq<Seq<char>>) -> Seq<char>
    decreases l.len(),
{
    if l.len() == 0 {
        Seq::empty()
    } else {
        enc_str(l[0]) + enc_str_seq(l.drop_first())
    }
}

/// A list of strings on the wire: its count, then the strings.
pub open spec fn enc_str_list(l: Seq<Seq<char>>) -> Seq<char> {
    enc_nat(l.len(), NUM_WIDTH as nat) + enc_str_seq(l)
}

/// Parse exactly `cnt` strings from the front of `s`.
pub open spec fn p_str_n(s: Seq<char>, cnt: nat) -> Option<(Seq<Seq<char>>, Seq<char>)>
    decreases cnt,
{
    if cnt == 0 {
        Some((Seq::empty(), s))
    } else {
        match p_str(s) {
            Some((t, r)) => match p_str_n(r, (cnt - 1) as nat) {
                Some((ts, r2)) => Some((seq![t] + ts, r2)),
                None => None,
            },
            None => None,
        }
    }
}

/// Parse a counted list of strings from the front of `s`.
pub open spec fn p_str_list(s: Seq<char>) -> Option<(Seq<Seq<char>>, Seq<char>)> {
    match p_u64(s) {
        Some((c, r)) => p_str_n(r, c as nat),
        None => None,
    }
}

proof fn lemma_p_str_n_enc(l: Seq<Seq<char>>, rest: Seq<char>)
    requires
        forall|i: int| 0 <= i < l.len() ==> #[trigger] l[i].len() <= u64::MAX,
    ensures
        p_str_n(enc_str_seq(l) + rest, l.len()) == Some((l, rest)),
    decreases l.len(),
{
    if l.len() == 0 {
        assert(enc_str_seq(l) + rest =~= rest);
        assert(l =~= Seq::<Seq<char>>::empty());
    } else {
        let tail = l.drop_first();
        assert(enc_str_seq(l) + rest =~= enc_str(l[0]) + (enc_str_seq(tail) + rest));
        lemma_p_str_enc(l[0], enc_str_seq(tail) + rest);
        lemma_p_str_n_enc(tail, rest);
        assert(seq![l[0]] + tail =~= l);
    }
}

/// Parsing the encoding of a list of strings leaves exactly the rest.
pub proof fn lemma_p_str_list_enc(l: Seq<Seq<char>>, rest: Seq<char>)
    requires
        l.len() <= u64::MAX,
        forall|i: int| 0 <= i < l.len() ==> #[trigger] l[i].len() <= u64::MAX,
    ensures
        p_str_list(enc_str_list(l) + rest) == Some((l, rest)),
{
    let c = l.len() as u64;
    assert(enc_str_list(l) + rest =~= enc_u64(c) + (enc_str_seq(l) + rest));
    lemma_p_u64_enc(c, enc_str_seq(l) + rest);
    lemma_p_str_n_enc(l, rest);
}

proof fn lemma_enc_str_seq_push(l: Seq<Seq<char>>, t: Seq<char>)
    ensures
        enc_str_seq(l.push(t)) == enc_str_seq(l) + enc_str(t),
    decreases l.len(),
{
    if l.len() == 0 {
        assert(l.push(t)[0] == t);
        assert(l.push(t).drop_first() =~= Seq::<Seq<char>>::empty());
        assert(enc_str_seq(Seq::<Seq<char>>::empty()) == Seq::<char>::empty());
        assert(enc_str_seq(l.push(t)) =~= enc_str_seq(l) + enc_str(t));
    } else {
        assert(l.push(t)[0] == l[0]);
        assert(l.push(t).drop_first() =~= l.drop_first().push(t));
        lemma_enc_str_seq_push(l.drop_first(), t);
        assert(enc_str_seq(l.push(t)) =~= enc_str_seq(l) + enc_str(t));
    }
}

/// Append the encoding of a list of strings to `out`.
pub fn push_str_list(out: &mut String, v: &Vec<String>)
    ensures
        final(out)@ == old(out)@ + enc_str_list(v.deep_view()),
{
    let ghost base = out@;
    let ghost dv = v.deep_view();
    push_u64(out, v.len() as u64);
    let mut i: usize = 0;
    while i < v.len()
        invariant
            i <= v.len(),
            dv == v.deep_view(),
            dv.len() == v.len(),
            out@ == base + enc_nat(dv.len(), NUM_WIDTH as nat) + enc_str_seq(dv.take(i as int)),
        decreases v.len() - i,
    {
        push_str_enc(out, v[i].as_str());
        proof {
            assert(dv.take(i + 1) =~= dv.take(i as int).push(dv[i as int]));
            lemma_enc_str_seq_push(dv.take(i as int), dv[i as int]);
            assert(dv[i as int] == v@[i as int]@);
        }
        i += 1;
    }
    proof {
        assert(dv.take(dv.len() as int) =~= dv);
        assert(out@ =~= base + enc_str_list(dv));
    }
}

/// Parse a counted list of strings at position `pos` of `s`.
#[verifier::loop_isolation(false)]
pub fn parse_str_vec(s: &str, n: usize, pos: usize) -> (r: Option<(Vec<String>, usize)>)
    requires
        n == s@.len(),
        pos <= n,
    ensures
        match r {
            Some(pair) => pair.1 <= n && p_str_list(s@.skip(pos as int)) == Some(
                (pair.0.deep_view(), s@.skip(pair.1 as int)),
            ),
            None => p_str_list(s@.skip(pos as int)) is None,
        },
{
    let (cnt, j0) = match parse_u64(s, n, pos) {
        Some(p) => p,
        None => {
            return None;
        },
    };
    let ghost tail0 = s@.skip(j0 as int);
    let mut acc: Vec<String> = Vec::new();
    let mut j: usize = j0;
    let mut m: u64 = 0;
    while m < cnt
        invariant
            n == s@.len(),
            j <= n,
            m <= cnt,
            tail0 == s@.skip(j0 as int),
            acc.deep_view().len() == m,
            match p_str_n(s@.skip(j as int), (cnt - m) as nat) {
                Some(pr) => p_str_n(tail0, cnt as nat) == Some((acc.deep_view() + pr.0, pr.1)),
                None => p_str_n(tail0, cnt as nat) is None,
            },
        decreases cnt - m,
    {
        let ghost pre = acc.deep_view();
        let (t, j2) = match parse_str(s, n, j) {
            Some(p) => p,
            None => {
                return None;
            },
        };
        acc.push(t);
        proof {
            let rem = (cnt - m) as nat;
            let rest1 = s@.skip(j2 as int);
            match p_str_n(rest1, (rem - 1) as nat) {
                Some(pr2) => {
                    assert(p_str_n(s@.skip(j as int), rem) == Some(
                        (seq![t@] + pr2.0, pr2.1),
                    ));
                    assert(acc.deep_view() =~= pre.push(t@));
                    assert(pre + (seq![t@] + pr2.0) =~= acc.deep_view() + pr2.0);
                },
                None => {
                    assert(p_str_n(s@.skip(j as int), rem) is None);
                },
            }
        }
        j = j2;
        m = m + 1;
    }
    proof {
        assert(p_str_n(s@.skip(j as int), 0) == Some(
            (Seq::<Seq<char>>::empty(), s@.skip(j as int)),
        ));
        assert(acc.deep_view() + Seq::<Seq<char>>::empty() =~= acc.deep_view());
    }
    Some((acc, j))
}

/// The concatenated encodings of (string, number) pairs.
pub open spec fn enc_pair_seq(l: Seq<(Seq<char>, u64)>) -> Seq<char>
    decreases l.len(),
{
    if l.len() == 0 {
        Seq::empty()
    } else {
        enc_str(l[0].0) + enc_u64(l[0].1) + enc_pair_seq(l.drop_first())
    }
}

/// A list of (string, number) pairs on the wire: its count, then the pairs.
pub open spec fn enc_pair_list(l: Seq<(Seq<char>, u64)>) -> Seq<char> {
    enc_nat(l.len(), NUM_WIDTH as nat) + enc_pair_seq(l)
}

/// Parse exactly `cnt` (string, number) pairs from the front of `s`.
pub open spec fn p_pair_n(s: Seq<char>, cnt: nat) -> Option<(Seq<(Seq<char>, u64)>, Seq<char>)>
    decreases cnt,
{
    if cnt == 0 {
        Some((Seq::empty(), s))
    } else {
        match p_str(s) {
            Some((t, r)) => match p_u64(r) {
                Some((v, r1)) => match p_pair_n(r1, (cnt - 1) as nat) {
                    Some((ps, r2)) => Some((seq![(t, v)] + ps, r2)),
                    None => None,
                },
                None => None,
            },
            None => None,
        }
    }
}

/// Parse a counted list of (string, number) pairs from the front of `s`.
pub open spec fn p_pair_list(s: Seq<char>) -> Option<(Seq<(Seq<char>, u64)>, Seq<char>)> {
    match p_u64(s) {
        Some((c, r)) => p_pair_n(r, c as nat),
        None => None,
    }
}

proof fn lemma_p_pair_n_enc(l: Seq<(Seq<char>, u64)>, rest: Seq<char>)
    requires
        forall|i: int| 0 <= i < l.len() ==> #[trigger] l[i].0.len() <= u64::MAX,
    ensures
        p_pair_n(enc_pair_seq(l) + rest, l.len()) == Some((l, rest)),
    decreases l.len(),
{
    if l.len() == 0 {
        assert(enc_pair_seq(l) + rest =~= rest);
        assert(l =~= Seq::<(Seq<char>, u64)>::empty());
    } else {
        let tail = l.drop_first();
        assert(enc_pair_seq(l) + rest =~= enc_str(l[0].0) + (enc_u64(l[0].1) + (enc_pair_seq(
            tail,
        ) + rest)));
        lemma_p_str_enc(l[0].0, enc_u64(l[0].1) + (enc_pair_seq(tail) + rest));
        lemma_p_u64_enc(l[0].1, enc_pair_seq(tail) + rest);
        lemma_p_pair_n_enc(tail, rest);
        assert(seq![(l[0].0, l[0].1)] + tail =~= l);
    }
}

/// Parsing the encoding of a list of pairs leaves exactly the rest.
pub proof fn lemma_p_pair_list_enc(l: Seq<(Seq<char>, u64)>, rest: Seq<char>)
    requires
        l.len() <= u64::MAX,
        forall|i: int| 0 <= i < l.len() ==> #[trigger] l[i].0.len() <= u64::MAX,
    ensures
        p_pair_list(enc_pair_list(l) + rest) == Some((l, rest)),
{
    let c = l.len() as u64;
    assert(enc_pair_list(l) + rest =~= enc_u64(c) + (enc_pair_seq(l) + rest));
    lemma_p_u64_enc(c, enc_pair_seq(l) + rest);
    lemma_p_pair_n_enc(l, rest);
}

proof fn lemma_enc_pair_seq_push(l: Seq<(Seq<char>, u64)>, p: (Seq<char>, u64))
    ensures
        enc_pair_seq(l.push(p)) == enc_pair_seq(l) + enc_str(p.0) + enc_u64(p.1),
    decreases l.len(),
{
    if l.len() == 0 {
        assert(l.push(p)[0] == p);
        assert(l.push(p).drop_first() =~= Seq::<(Seq<char>, u64)>::empty());
        assert(enc_pair_seq(Seq::<(Seq<char>, u64)>::empty()) == Seq::<char>::empty());
        assert(enc_pair_seq(l.push(p)) =~= enc_pair_seq(l) + enc_str(p.0) + enc_u64(p.1));
    } else {
        assert(l.push(p)[0] == l[0]);
        assert(l.push(p).drop_first() =~= l.drop_first().push(p));
        lemma_enc_pair_seq_push(l.drop_first(), p);
        assert(enc_pair_seq(l.push(p)) =~= enc_pair_seq(l) + enc_str(p.0) + enc_u64(p.1));
    }
}

/// Append the encoding of a list of (string, number) pairs to `out`.
pub fn push_pair_list(out: &mut String, v: &Vec<(String, u64)>)
    ensures
        final(out)@ == old(out)@ + enc_pair_list(v.deep_view()),
{
    let ghost base = out@;
    let ghost dv = v.deep_view();
    push_u64(out, v.len() as u64);
    let mut i: usize = 0;
    while i < v.len()
        invariant
            i <= v.len(),
            dv == v.deep_view(),
            dv.len() == v.len(),
            out@ == base + enc_nat(dv.len(), NUM_WIDTH as nat) + enc_pair_seq(dv.take(i as int)),
        decreases v.len() - i,
    {
        push_str_enc(out, v[i].0.as_str());
        push_u64(out, v[i].1);
        proof {
            assert(dv.take(i + 1) =~= dv.take(i as int).push(dv[i as int]));
            lemma_enc_pair_seq_push(dv.take(i as int), dv[i as int]);
            assert(dv[i as int] == (v@[i as int].0@, v@[i as int].1));
        }
        i += 1;
    }
    proof {
        assert(dv.take(dv.len() as int) =~= dv);
        assert(out@ =~= base + enc_pair_list(dv));
    }
}

/// Parse a counted list of (string, number) pairs at position `pos` of `s`.
#[verifier::loop_isolation(false)]
pub fn parse_pair_vec(s: &str, n: usize, pos: usize) -> (r: Option<(Vec<(String, u64)>, usize)>)
    requires
        n == s@.len(),
        pos <= n,
    ensures
        match r {
            Some(pair) => pair.1 <= n && p_pair_list(s@.skip(pos as int)) == Some(
                (pair.0.deep_view(), s@.skip(pair.1 as int)),
            ),
            None => p_pair_list(s@.skip(pos as int)) is None,
        },
{
    let (cnt, j0) = match parse_u64(s, n, pos) {
        Some(p) => p,
        None => {
            return None;
        },
    };
    let ghost tail0 = s@.skip(j0 as int);
    let mut acc: Vec<(String, u64)> = Vec::new();
    let mut j: usize = j0;
    let mut m: u64 = 0;
    while m < cnt
        invariant
            n == s@.len(),
            j <= n,
            m <= cnt,
            tail0 == s@.skip(j0 as int),
            acc.deep_view().len() == m,
            match p_pair_n(s@.skip(j as int), (cnt - m) as nat) {
                Some(pr) => p_pair_n(tail0, cnt as nat) == Some((acc.deep_view() + pr.0, pr.1)),
                None => p_pair_n(tail0, cnt as nat) is None,
            },
        decreases cnt - m,
    {
        let ghost pre = acc.deep_view();
        let (t, j1) = match parse_str(s, n, j) {
            Some(p) => p,
            None => {
                return None;
            },
        };
        let (v, j2) = match parse_u64(s, n, j1) {
            Some(p) => p,
            None => {
                return None;
            },
        };
        acc.push((t, v));
        proof {
            let rem = (cnt - m) as nat;
            let rest2 = s@.skip(j2 as int);
            match p_pair_n(rest2, (rem - 1) as nat) {
                Some(pr2) => {
                    assert(p_pair_n(s@.skip(j as int), rem) == Some(
                        (seq![(t@, v)] + pr2.0, pr2.1),
                    ));
                    assert(acc.deep_view() =~= pre.push((t@, v)));
                    assert(pre + (seq![(t@, v)] + pr2.0) =~= acc.deep_view() + pr2.0);
                },
                None => {
                    assert(p_pair_n(s@.skip(j as int), rem) is None);
                },
            }
        }
        j = j2;
        m = m + 1;
    }
    proof {
        assert(p_pair_n(s@.skip(j as int), 0) == Some(
            (Seq::<(Seq<char>, u64)>::empty(), s@.skip(j as int)),
        ));
        assert(acc.deep_view() + Seq::<(Seq<char>, u64)>::empty() =~= acc.deep_view());
    }
    Some((acc, j))
}

/// The one-character wire form of an error code.
pub open spec fn code_char(c: ErrorCode) -> char {
    match c {
        ErrorCode::UsernameAlreadyTaken => '0',
        ErrorCode::RoomNotFound => '1',
        ErrorCode::UserNotFound => '2',
        ErrorCode::InvalidState => '3',
        ErrorCode::InvalidFormat => '4',
        ErrorCode::MessageTooLarge => '5',
        ErrorCode::RateLimitExceeded => '6',
        ErrorCode::InternalError => '7',
    }
}

pub open spec fn enc_code(c: ErrorCode) -> Seq<char> {
    seq![code_char(c)]
}

/// Parse an error code from the front of `s`.
pub open spec fn p_code(s: Seq<char>) -> Option<(ErrorCode, Seq<char>)> {
    if s.len() == 0 {
        None
    } else if s[0] == '0' {
        Some((ErrorCode::UsernameAlreadyTaken, s.skip(1)))
    } else if s[0] == '1' {
        Some((ErrorCode::RoomNotFound, s.skip(1)))
    } else if s[0] == '2' {
        Some((ErrorCode::UserNotFound, s.skip(1)))
    } else if s[0] == '3' {
        Some((ErrorCode::InvalidState, s.skip(1)))
    } else if s[0] == '4' {
        Some((ErrorCode::InvalidFormat, s.skip(1)))
    } else if s[0] == '5' {
        Some((ErrorCode::MessageTooLarge, s.skip(1)))
    } else if s[0] == '6' {
        Some((ErrorCode::RateLimitExceeded, s.skip(1)))
    } else if s[0] == '7' {
        Some((ErrorCode::InternalError, s.skip(1)))
    } else {
        None
    }
}

/// Parsing the encoding of an error code leaves exactly the rest.
pub proof fn lemma_p_code_enc(c: ErrorCode, rest: Seq<char>)
    ensures
        p_code(enc_code(c) + rest) == Some((c, rest)),
{
    assert((enc_code(c) + rest).skip(1) =~= rest);
}

/// Append the encoding of an error code to `out`.
pub fn push_code(out: &mut String, c: &ErrorCode)
    ensures
        final(out)@ == old(out)@ + enc_code(*c),
{
    let d: u64 = match c {
        ErrorCode::UsernameAlreadyTaken => 0,
        ErrorCode::RoomNotFound => 1,
        ErrorCode::UserNotFound => 2,
        ErrorCode::InvalidState => 3,
        ErrorCode::InvalidFormat => 4,
        ErrorCode::MessageTooLarge => 5,
        ErrorCode::RateLimitExceeded => 6,
        ErrorCode::InternalError => 7,
    };
    out.append(digit_str(d));
    proof {
        assert(out@ =~= old(out)@ + enc_code(*c));
    }
}

/// Parse an error code at position `pos` of `s`.
pub fn parse_code(s: &str, n: usize, pos: usize) -> (r: Option<(ErrorCode, usize)>)
    requires
        n == s@.len(),
        pos <= n,
    ensures
        match r {
            Some(pair) => pair.1 <= n && p_code(s@.skip(pos as int)) == Some(
                (pair.0, s@.skip(pair.1 as int)),
            ),
            None => p_code(s@.skip(pos as int)) is None,
        },
{
    if pos >= n {
        return None;
    }
    let c = s.get_char(pos);
    proof {
        assert(s@.skip(pos as int)[0] == s@[pos as int]);
        assert(s@.skip(pos as int).skip(1) =~= s@.skip(pos + 1));
    }
    let code = if c == '0' {
        ErrorCode::UsernameAlreadyTaken
    } else if c == '1' {
        ErrorCode::RoomNotFound
    } else if c == '2' {
        ErrorCode::UserNotFound
    } else if c == '3' {
        ErrorCode::InvalidState
    } else if c == '4' {
        ErrorCode::InvalidFormat
    } else if c == '5' {
        ErrorCode::MessageTooLarge
    } else if c == '6' {
        ErrorCode::RateLimitExceeded
    } else if c == '7' {
        ErrorCode::InternalError
    } else {
        return None;
    };
    Some((code, pos + 1))
}

/// The payload encoding of a message: its variant name as a tagged string,
/// then its fields in order.
pub open spec fn msg_enc(m: MessageV) -> Seq<char> {
    match m {
        MessageV::Connect { username } => enc_str("Connect"@) + enc_str(username),
        MessageV::JoinRoom { room_id } => enc_str("JoinRoom"@) + enc_str(room_id),
        MessageV::LeaveRoom => enc_str("LeaveRoom"@),
        MessageV::SendMessage { content } => enc_str("SendMessage"@) + enc_str(content),
        MessageV::PrivateMessage { target_user, content } => enc_str("PrivateMessage"@) + enc_str(
            target_user,
        ) + enc_str(content),
        MessageV::ListRooms => enc_str("ListRooms"@),
        MessageV::ListUsers => enc_str("ListUsers"@),
        MessageV::Disconnect => enc_str("Disconnect"@),
        MessageV::ConnectAck { client_id, message } => enc_str("ConnectAck"@) + enc_str(client_id)
            + enc_str(message),
        MessageV::ConnectError { reason } => enc_str("ConnectError"@) + enc_str(reason),
        MessageV::JoinRoomAck { room_id, users } => enc_str("JoinRoomAck"@) + enc_str(room_id)
            + enc_str_list(users),
        MessageV::JoinRoomError { reason } => enc_str("JoinRoomError"@) + enc_str(reason),
        MessageV::UserJoined { username, room_id } => enc_str("UserJoined"@) + enc_str(username)
            + enc_str(room_id),
        MessageV::UserLeft { username, room_id } => enc_str("UserLeft"@) + enc_str(username)
            + enc_str(room_id),
        MessageV::RoomMessage { from, content, timestamp, room_id } => enc_str("RoomMessage"@)
            + enc_str(from) + enc_str(content) + enc_str(timestamp) + enc_str(room_id),
        MessageV::PrivateMessageReceived { from, content, timestamp } => enc_str(
            "PrivateMessageReceived"@,
        ) + enc_str(from) + enc_str(content) + enc_str(timestamp),
        MessageV::RoomList { rooms } => enc_str("RoomList"@) + enc_pair_list(rooms),
        MessageV::UserList { users, room_id } => enc_str("UserList"@) + enc_str_list(users)
            + enc_str(room_id),
        MessageV::Error { code, message } => enc_str("Error"@) + enc_code(code) + enc_str(message),
        MessageV::Ping => enc_str("Ping"@),
        MessageV::Pong => enc_str("Pong"@),
    }
}

/// Parse a message from the front of `s`: its tag, then its fields.
pub open spec fn msg_parse(s: Seq<char>) -> Option<(MessageV, Seq<char>)> {
    match p_str(s) {
        None => None,
        Some((tag, r)) => if tag == "Connect"@ {
            match p_str(r) {
                Some((username, r2)) => Some((MessageV::Connect { username }, r2)),
                None => None,
            }
        } else if tag == "JoinRoom"@ {
            match p_str(r) {
                Some((room_id, r2)) => Some((MessageV::JoinRoom { room_id }, r2)),
                None => None,
            }
        } else if tag == "LeaveRoom"@ {
            Some((MessageV::LeaveRoom, r))
        } else if tag == "SendMessage"@ {
            match p_str(r) {
                Some((content, r2)) => Some((MessageV::SendMessage { content }, r2)),
                None => None,
            }
        } else if tag == "PrivateMessage"@ {
            match p_str(r) {
                Some((target_user, r2)) => match p_str(r2) {
                    Some((content, r3)) => Some(
                        (MessageV::PrivateMessage { target_user, content }, r3),
                    ),
                    None => None,
                },
                None => None,
            }
        } else if tag == "ListRooms"@ {
            Some((MessageV::ListRooms, r))
        } else if tag == "ListUsers"@ {
            Some((MessageV::ListUsers, r))
        } else if tag == "Disconnect"@ {
            Some((MessageV::Disconnect, r))
        } else if tag == "ConnectAck"@ {
            match p_str(r) {
                Some((client_id, r2)) => match p_str(r2) {
                    Some((message, r3)) => Some((MessageV::ConnectAck { client_id, message }, r3)),
                    None => None,
                },
                None => None,
            }
        } else if tag == "ConnectError"@ {
            match p_str(r) {
                Some((reason, r2)) => Some((MessageV::ConnectError { reason }, r2)),
                None => None,
            }
        } else if tag == "JoinRoomAck"@ {
            match p_str(r) {
                Some((room_id, r2)) => match p_str_list(r2) {
                    Some((users, r3)) => Some((MessageV::JoinRoomAck { room_id, users }, r3)),
                    None => None,
                },
                None => None,
            }
        } else if tag == "JoinRoomError"@ {
            match p_str(r) {
                Some((reason, r2)) => Some((MessageV::JoinRoomError { reason }, r2)),
                None => None,
            }
        } else if tag == "UserJoined"@ {
            match p_str(r) {
                Some((username, r2)) => match p_str(r2) {
                    Some((room_id, r3)) => Some((MessageV::UserJoined { username, room_id }, r3)),
                    None => None,
                },
                None => None,
            }
        } else if tag == "UserLeft"@ {
            match p_str(r) {
                Some((username, r2)) => match p_str(r2) {
                    Some((room_id, r3)) => Some((MessageV::UserLeft { username, room_id }, r3)),
                    None => None,
                },
                None => None,
            }
        } else if tag == "RoomMessage"@ {
            match p_str(r) {
                Some((from, r2)) => match p_str(r2) {
                    Some((content, r3)) => match p_str(r3) {
                        Some((timestamp, r4)) => match p_str(r4) {
                            Some((room_id, r5)) => Some(
                                (MessageV::RoomMessage { from, content, timestamp, room_id }, r5),
                            ),
                            None => None,
                        },
                        None => None,
                    },
                    None => None,
                },
                None => None,
            }
        } else if tag == "PrivateMessageReceived"@ {
            match p_str(r) {
                Some((from, r2)) => match p_str(r2) {
                    Some((content, r3)) => match p_str(r3) {
                        Some((timestamp, r4)) => Some(
                            (MessageV::PrivateMessageReceived { from, content, timestamp }, r4),
                        ),
                        None => None,
                    },
                    None => None,
                },
                None => None,
            }
        } else if tag == "RoomList"@ {
            match p_pair_list(r) {
                Some((rooms, r2)) => Some((MessageV::RoomList { rooms }, r2)),
                None => None,
            }
        } else if tag == "UserList"@ {
            match p_str_list(r) {
                Some((users, r2)) => match p_str(r2) {
                    Some((room_id, r3)) => Some((MessageV::UserList { users, room_id }, r3)),
                    None => None,
                },
                None => None,
            }
        } else if tag == "Error"@ {
            match p_code(r) {
                Some((code, r2)) => match p_str(r2) {
                    Some((message, r3)) => Some((MessageV::Error { code, message }, r3)),
                    None => None,
                },
                None => None,
            }
        } else if tag == "Ping"@ {
            Some((MessageV::Ping, r))
        } else if tag == "Pong"@ {
            Some((MessageV::Pong, r))
        } else {
            None
        },
    }
}

/// A message is well formed when every string it carries, and every list,
/// is small enough for its length to ride in a wire number.
pub open spec fn wf_msg(m: MessageV) -> bool {
    match m {
        MessageV::Connect { username } => username.len() <= u64::MAX,
        MessageV::JoinRoom { room_id } => room_id.len() <= u64::MAX,
        MessageV::LeaveRoom => true,
        MessageV::SendMessage { content } => content.len() <= u64::MAX,
        MessageV::PrivateMessage { target_user, content } => target_user.len() <= u64::MAX
            && content.len() <= u64::MAX,
        MessageV::ListRooms => true,
        MessageV::ListUsers => true,
        MessageV::Disconnect => true,
        MessageV::ConnectAck { client_id, message } => client_id.len() <= u64::MAX && message.len()
            <= u64::MAX,
        MessageV::ConnectError { reason } => reason.len() <= u64::MAX,
        MessageV::JoinRoomAck { room_id, users } => room_id.len() <= u64::MAX && users.len()
            <= u64::MAX && (forall|i: int|
            0 <= i < users.len() ==> #[trigger] users[i].len() <= u64::MAX),
        MessageV::JoinRoomError { reason } => reason.len() <= u64::MAX,
        MessageV::UserJoined { username, room_id } => username.len() <= u64::MAX && room_id.len()
            <= u64::MAX,
        MessageV::UserLeft { username, room_id } => username.len() <= u64::MAX && room_id.len()
            <= u64::MAX,
        MessageV::RoomMessage { from, content, timestamp, room_id } => from.len() <= u64::MAX
            && content.len() <= u64::MAX && timestamp.len() <= u64::MAX && room_id.len()
            <= u64::MAX,
        MessageV::PrivateMessageReceived { from, content, timestamp } => from.len() <= u64::MAX
            && content.len() <= u64::MAX && timestamp.len() <= u64::MAX,
        MessageV::RoomList { rooms } => rooms.len() <= u64::MAX && (forall|i: int|
            0 <= i < rooms.len() ==> #[trigger] rooms[i].0.len() <= u64::MAX),
        MessageV::UserList { users, room_id } => room_id.len() <= u64::MAX && users.len()
            <= u64::MAX && (forall|i: int|
            0 <= i < users.len() ==> #[trigger] users[i].len() <= u64::MAX),
        MessageV::Error { code, message } => message.len() <= u64::MAX,
        MessageV::Ping => true,
        MessageV::Pong => true,
    }
}

/// The variant names whose encodings share a length differ in a character.
#[verifier::rlimit(80)]
proof fn lemma_tags_distinct()
    ensures
        "Ping"@ != "Pong"@,
        "JoinRoom"@ != "UserLeft"@,
        "JoinRoom"@ != "RoomList"@,
        "JoinRoom"@ != "UserList"@,
        "UserLeft"@ != "RoomList"@,
        "UserLeft"@ != "UserList"@,
        "RoomList"@ != "UserList"@,
        "LeaveRoom"@ != "ListRooms"@,
        "LeaveRoom"@ != "ListUsers"@,
        "ListRooms"@ != "ListUsers"@,
        "Disconnect"@ != "ConnectAck"@,
        "Disconnect"@ != "UserJoined"@,
        "ConnectAck"@ != "UserJoined"@,
        "SendMessage"@ != "JoinRoomAck"@,
        "SendMessage"@ != "RoomMessage"@,
        "JoinRoomAck"@ != "RoomMessage"@,
{
    reveal_strlit("Connect");
    reveal_strlit("JoinRoom");
    reveal_strlit("LeaveRoom");
    reveal_strlit("SendMessage");
    reveal_strlit("PrivateMessage");
    reveal_strlit("ListRooms");
    reveal_strlit("ListUsers");
    reveal_strlit("Disconnect");
    reveal_strlit("ConnectAck");
    reveal_strlit("ConnectError");
    reveal_strlit("JoinRoomAck");
    reveal_strlit("JoinRoomError");
    reveal_strlit("UserJoined");
    reveal_strlit("UserLeft");
    reveal_strlit("RoomMessage");
    reveal_strlit("PrivateMessageReceived");
    reveal_strlit("RoomList");
    reveal_strlit("UserList");
    reveal_strlit("Error");
    reveal_strlit("Ping");
    reveal_strlit("Pong");
    assert("Ping"@ != "Pong"@) by {
        assert("Ping"@[1] == 'i');
        assert("Pong"@[1] == 'o');
    }
    assert("JoinRoom"@ != "UserLeft"@) by {
        assert("JoinRoom"@[0] == 'J');
        assert("UserLeft"@[0] == 'U');
    }
    assert("JoinRoom"@ != "RoomList"@) by {
        assert("JoinRoom"@[0] == 'J');
        assert("RoomList"@[0] == 'R');
    }
    assert("JoinRoom"@ != "UserList"@) by {
        assert("JoinRoom"@[0] == 'J');
        assert("UserList"@[0] == 'U');
    }
    assert("UserLeft"@ != "RoomList"@) by {
        assert("UserLeft"@[0] == 'U');
        assert("RoomList"@[0] == 'R');
    }
    assert("UserLeft"@ != "UserList"@) by {
        assert("UserLeft"@[5] == 'e');
        assert("UserList"@[5] == 'i');
    }
    assert("RoomList"@ != "UserList"@) by {
        assert("RoomList"@[0] == 'R');
        assert("UserList"@[0] == 'U');
    }
    assert("LeaveRoom"@ != "ListRooms"@) by {
        assert("LeaveRoom"@[1] == 'e');
        assert("ListRooms"@[1] == 'i');
    }
    assert("LeaveRoom"@ != "ListUsers"@) by {
        assert("LeaveRoom"@[1] == 'e');
        assert("ListUsers"@[1] == 'i');
    }
    assert("ListRooms"@ != "ListUsers"@) by {
        assert("ListRooms"@[4] == 'R');
        assert("ListUsers"@[4] == 'U');
    }
    assert("Disconnect"@ != "ConnectAck"@) by {
        assert("Disconnect"@[0] == 'D');
        assert("ConnectAck"@[0] == 'C');
    }
    assert("Disconnect"@ != "UserJoined"@) by {
        assert("Disconnect"@[0] == 'D');
        assert("UserJoined"@[0] == 'U');
    }
    assert("ConnectAck"@ != "UserJoined"@) by {
        assert("ConnectAck"@[0] == 'C');
        assert("UserJoined"@[0] == 'U');
    }
    assert("SendMessage"@ != "JoinRoomAck"@) by {
        assert("SendMessage"@[0] == 'S');
        assert("JoinRoomAck"@[0] == 'J');
    }
    assert("SendMessage"@ != "RoomMessage"@) by {
        assert("SendMessage"@[0] == 'S');
        assert("RoomMessage"@[0] == 'R');
    }
    assert("JoinRoomAck"@ != "RoomMessage"@) by {
        assert("JoinRoomAck"@[0] == 'J');
        assert("RoomMessage"@[0] == 'R');
    }
}

#[verifier::rlimit(80)]
proof fn lemma_rt_connect(f0: Seq<char>, rest: Seq<char>)
    requires
        f0.len() <= u64::MAX,
    ensures
        ({ let m = MessageV::Connect { username: f0 }; msg_parse(msg_enc(m) + rest) == Some((m, rest)) }),
{
    let m = MessageV::Connect { username: f0 };
    reveal_strlit("Connect");
    lemma_tags_distinct();
    assert(msg_enc(m) + rest =~= enc_str("Connect"@) + (enc_str(f0) + (rest)));
    lemma_p_str_enc("Connect"@, enc_str(f0) + (rest));
    lemma_p_str_enc(f0, rest);
}

#[verifier::rlimit(80)]
proof fn lemma_rt_joinroom(f0: Seq<char>, rest: Seq<char>)
    requires
        f0.len() <= u64::MAX,
    ensures
        ({ let m = MessageV::JoinRoom { room_id: f0 }; msg_parse(msg_enc(m) + rest) == Some((m, rest)) }),
{
    let m = MessageV::JoinRoom { room_id: f0 };
    reveal_strlit("Connect");
    reveal_strlit("JoinRoom");
    lemma_tags_distinct();
    assert(msg_enc(m) + rest =~= enc_str("JoinRoom"@) + (enc_str(f0) + (rest)));
    lemma_p_str_enc("JoinRoom"@, enc_str(f0) + (rest));
    lemma_p_str_enc(f0, rest);
}

#[verifier::rlimit(80)]
proof fn lemma_rt_leaveroom(rest: Seq<char>)
    ensures
        msg_parse(msg_enc(MessageV::LeaveRoom) + rest) == Some((MessageV::LeaveRoom, rest)),
{
    let m = MessageV::LeaveRoom;
    reveal_strlit("Connect");
    reveal_strlit("JoinRoom");
    reveal_strlit("LeaveRoom");
    lemma_tags_distinct();
    assert(msg_enc(m) + rest =~= enc_str("LeaveRoom"@) + rest);
    lemma_p_str_enc("LeaveRoom"@, rest);
}

#[verifier::rlimit(80)]
proof fn lemma_rt_sendmessage(f0: Seq<char>, rest: Seq<char>)
    requires
        f0.len() <= u64::MAX,
    ensures
        ({ let m = MessageV::SendMessage { content: f0 }; msg_parse(msg_enc(m) + rest) == Some((m, rest)) }),
{
    let m = MessageV::SendMessage { content: f0 };
    reveal_strlit("Connect");
    reveal_strlit("JoinRoom");
    reveal_strlit("LeaveRoom");
    reveal_strlit("SendMessage");
    lemma_tags_distinct();
    assert(msg_enc(m) + rest =~= enc_str("SendMessage"@) + (enc_str(f0) + (rest)));
    lemma_p_str_enc("SendMessage"@, enc_str(f0) + (rest));
    lemma_p_str_enc(f0, rest);
}

#[verifier::rlimit(80)]
proof fn lemma_rt_privatemessage(f0: Seq<char>, f1: Seq<char>, rest: Seq<char>)
    requires
        f0.len() <= u64::MAX,
        f1.len() <= u64::MAX,
    ensures
        ({ let m = MessageV::PrivateMessage { target_user: f0, content: f1 }; msg_parse(msg_enc(m) + rest) == Some((m, rest)) }),
{
    let m = MessageV::PrivateMessage { target_user: f0, content: f1 };
    reveal_strlit("Connect");
    reveal_strlit("JoinRoom");
    reveal_strlit("LeaveRoom");
    reveal_strlit("SendMessage");
    reveal_strlit("PrivateMessage");
    lemma_tags_distinct();
    assert(msg_enc(m) + rest =~= enc_str("PrivateMessage"@) + (enc_str(f0) + (enc_str(f1) + (rest))));
    lemma_p_str_enc("PrivateMessage"@, enc_str(f0) + (enc_str(f1) + (rest)));
    lemma_p_str_enc(f0, enc_str(f1) + (rest));
    lemma_p_str_enc(f1, rest);
}

#[verifier::rlimit(80)]
proof fn lemma_rt_listrooms(rest: Seq<char>)
    ensures
        msg_parse(msg_enc(MessageV::ListRooms) + rest) == Some((MessageV::ListRooms, rest)),
{
    let m = MessageV::ListRooms;
    reveal_strlit("Connect");
    reveal_strlit("JoinRoom");
    reveal_strlit("LeaveRoom");
    reveal_strlit("SendMessage");
    reveal_strlit("PrivateMessage");
    reveal_strlit("ListRooms");
    lemma_tags_distinct();
    assert(msg_enc(m) + rest =~= enc_str("ListRooms"@) + rest);
    lemma_p_str_enc("ListRooms"@, rest);
}

#[verifier::rlimit(80)]
proof fn lemma_rt_listusers(rest: Seq<char>)
    ensures
        msg_parse(msg_enc(MessageV::ListUsers) + rest) == Some((MessageV::ListUsers, rest)),
{
    let m = MessageV::ListUsers;
    reveal_strlit("Connect");
    reveal_strlit("JoinRoom");
    reveal_strlit("LeaveRoom");
    reveal_strlit("SendMessage");
    reveal_strlit("PrivateMessage");
    reveal_strlit("ListRooms");
    reveal_strlit("ListUsers");
    lemma_tags_distinct();
    assert(msg_enc(m) + rest =~= enc_str("ListUsers"@) + rest);
    lemma_p_str_enc("ListUsers"@, rest);
}

#[verifier::rlimit(80)]
proof fn lemma_rt_disconnect(rest: Seq<char>)
    ensures
        msg_parse(msg_enc(MessageV::Disconnect) + rest) == Some((MessageV::Disconnect, rest)),
{
    let m = MessageV::Disconnect;
    reveal_strlit("Connect");
    reveal_strlit("JoinRoom");
    reveal_strlit("LeaveRoom");
    reveal_strlit("SendMessage");
    reveal_strlit("PrivateMessage");
    reveal_strlit("ListRooms");
    reveal_strlit("ListUsers");
    reveal_strlit("Disconnect");
    lemma_tags_distinct();
    assert(msg_enc(m) + rest =~= enc_str("Disconnect"@) + rest);
    lemma_p_str_enc("Disconnect"@, rest);
}

#[verifier::rlimit(80)]
proof fn lemma_rt_connectack(f0: Seq<char>, f1: Seq<char>, rest: Seq<char>)
    requires
        f0.len() <= u64::MAX,
        f1.len() <= u64::MAX,
    ensures
        ({ let m = MessageV::ConnectAck { client_id: f0, message: f1 }; msg_parse(msg_enc(m) + rest) == Some((m, rest)) }),
{
    let m = MessageV::ConnectAck { client_id: f0, message: f1 };
    reveal_strlit("Connect");
    reveal_strlit("JoinRoom");
    reveal_strlit("LeaveRoom");
    reveal_strlit("SendMessage");
    reveal_strlit("PrivateMessage");
    reveal_strlit("ListRooms");
    reveal_strlit("ListUsers");
    reveal_strlit("Disconnect");
    reveal_strlit("ConnectAck");
    lemma_tags_distinct();
    assert(msg_enc(m) + rest =~= enc_str("ConnectAck"@) + (enc_str(f0) + (enc_str(f1) + (rest))));
    lemma_p_str_enc("ConnectAck"@, enc_str(f0) + (enc_str(f1) + (rest)));
    lemma_p_str_enc(f0, enc_str(f1) + (rest));
    lemma_p_str_enc(f1, rest);
}

#[verifier::rlimit(80)]
proof fn lemma_rt_connecterror(f0: Seq<char>, rest: Seq<char>)
    requires
        f0.len() <= u64::MAX,
    ensures
        ({ let m = MessageV::ConnectError { reason: f0 }; msg_parse(msg_enc(m) + rest) == Some((m, rest)) }),
{
    let m = MessageV::ConnectError { reason: f0 };
    reveal_strlit("Connect");
    reveal_strlit("JoinRoom");
    reveal_strlit("LeaveRoom");
    reveal_strlit("SendMessage");
    reveal_strlit("PrivateMessage");
    reveal_strlit("ListRooms");
    reveal_strlit("ListUsers");
    reveal_strlit("Disconnect");
    reveal_strlit("ConnectAck");
    reveal_strlit("ConnectError");
    lemma_tags_distinct();
    assert(msg_enc(m) + rest =~= enc_str("ConnectError"@) + (enc_str(f0) + (rest)));
    lemma_p_str_enc("ConnectError"@, enc_str(f0) + (rest));
    lemma_p_str_enc(f0, rest);
}

#[verifier::rlimit(80)]
proof fn lemma_rt_joinroomerror(f0: Seq<char>, rest: Seq<char>)
    requires
        f0.len() <= u64::MAX,
    ensures
        ({ let m = MessageV::JoinRoomError { reason: f0 }; msg_parse(msg_enc(m) + rest) == Some((m, rest)) }),
{
    let m = MessageV::JoinRoomError { reason: f0 };
    reveal_strlit("Connect");
    reveal_strlit("JoinRoom");
    reveal_strlit("LeaveRoom");
    reveal_strlit("SendMessage");
    reveal_strlit("PrivateMessage");
    reveal_strlit("ListRooms");
    reveal_strlit("ListUsers");
    reveal_strlit("Disconnect");
    reveal_strlit("ConnectAck");
    reveal_strlit("ConnectError");
    reveal_strlit("JoinRoomAck");
    reveal_strlit("JoinRoomError");
    lemma_tags_distinct();
    assert(msg_enc(m) + rest =~= enc_str("JoinRoomError"@) + (enc_str(f0) + (rest)));
    lemma_p_str_enc("JoinRoomError"@, enc_str(f0) + (rest));
    lemma_p_str_enc(f0, rest);
}

#[verifier::rlimit(80)]
proof fn lemma_rt_userjoined(f0: Seq<char>, f1: Seq<char>, rest: Seq<char>)
    requires
        f0.len() <= u64::MAX,
        f1.len() <= u64::MAX,
    ensures
        ({ let m = MessageV::UserJoined { username: f0, room_id: f1 }; msg_parse(msg_enc(m) + rest) == Some((m, rest)) }),
{
    let m = MessageV::UserJoined { username: f0, room_id: f1 };
    reveal_strlit("Connect");
    reveal_strlit("JoinRoom");
    reveal_strlit("LeaveRoom");
    reveal_strlit("SendMessage");
    reveal_strlit("PrivateMessage");
    reveal_strlit("ListRooms");
    reveal_strlit("ListUsers");
    reveal_strlit("Disconnect");
    reveal_strlit("ConnectAck");
    reveal_strlit("ConnectError");
    reveal_strlit("JoinRoomAck");
    reveal_strlit("JoinRoomError");
    reveal_strlit("UserJoined");
    lemma_tags_distinct();
    assert(msg_enc(m) + rest =~= enc_str("UserJoined"@) + (enc_str(f0) + (enc_str(f1) + (rest))));
    lemma_p_str_enc("UserJoined"@, enc_str(f0) + (enc_str(f1) + (rest)));
    lemma_p_str_enc(f0, enc_str(f1) + (rest));
    lemma_p_str_enc(f1, rest);
}

#[verifier::rlimit(80)]
proof fn lemma_rt_userleft(f0: Seq<char>, f1: Seq<char>, rest: Seq<char>)
    requires
        f0.len() <= u64::MAX,
        f1.len() <= u64::MAX,
    ensures
        ({ let m = MessageV::UserLeft { username: f0, room_id: f1 }; msg_parse(msg_enc(m) + rest) == Some((m, rest)) }),
{
    let m = MessageV::UserLeft { username: f0, room_id: f1 };
    reveal_strlit("Connect");
    reveal_strlit("JoinRoom");
    reveal_strlit("LeaveRoom");
    reveal_strlit("SendMessage");
    reveal_strlit("PrivateMessage");
    reveal_strlit("ListRooms");
    reveal_strlit("ListUsers");
    reveal_strlit("Disconnect");
    reveal_strlit("ConnectAck");
    reveal_strlit("ConnectError");
    reveal_strlit("JoinRoomAck");
    reveal_strlit("JoinRoomError");
    reveal_strlit("UserJoined");
    reveal_strlit("UserLeft");
    lemma_tags_distinct();
    assert(msg_enc(m) + rest =~= enc_str("UserLeft"@) + (enc_str(f0) + (enc_str(f1) + (rest))));
    lemma_p_str_enc("UserLeft"@, enc_str(f0) + (enc_str(f1) + (rest)));
    lemma_p_str_enc(f0, enc_str(f1) + (rest));
    lemma_p_str_enc(f1, rest);
}

#[verifier::rlimit(80)]
proof fn lemma_rt_roommessage(f0: Seq<char>, f1: Seq<char>, f2: Seq<char>, f3: Seq<char>, rest: Seq<char>)
    requires
        f0.len() <= u64::MAX,
        f1.len() <= u64::MAX,
        f2.len() <= u64::MAX,
        f3.len() <= u64::MAX,
    ensures
        ({ let m = MessageV::RoomMessage { from: f0, content: f1, timestamp: f2, room_id: f3 }; msg_parse(msg_enc(m) + rest) == Some((m, rest)) }),
{
    let m = MessageV::RoomMessage { from: f0, content: f1, timestamp: f2, room_id: f3 };
    reveal_strlit("Connect");
    reveal_strlit("JoinRoom");
    reveal_strlit("LeaveRoom");
    reveal_strlit("SendMessage");
    reveal_strlit("PrivateMessage");
    reveal_strlit("ListRooms");
    reveal_strlit("ListUsers");
    reveal_strlit("Disconnect");
    reveal_strlit("ConnectAck");
    reveal_strlit("ConnectError");
    reveal_strlit("JoinRoomAck");
    reveal_strlit("JoinRoomError");
    reveal_strlit("UserJoined");
    reveal_strlit("UserLeft");
    reveal_strlit("RoomMessage");
    lemma_tags_distinct();
    assert(msg_enc(m) + rest =~= enc_str("RoomMessage"@) + (enc_str(f0) + (enc_str(f1) + (enc_str(f2) + (enc_str(f3) + (rest))))));
    lemma_p_str_enc("RoomMessage"@, enc_str(f0) + (enc_str(f1) + (enc_str(f2) + (enc_str(f3) + (rest)))));
    lemma_p_str_enc(f0, enc_str(f1) + (enc_str(f2) + (enc_str(f3) + (rest))));
    lemma_p_str_enc(f1, enc_str(f2) + (enc_str(f3) + (rest)));
    lemma_p_str_enc(f2, enc_str(f3) + (rest));
    lemma_p_str_enc(f3, rest);
}

#[verifier::rlimit(80)]
proof fn lemma_rt_privatemessagereceived(f0: Seq<char>, f1: Seq<char>, f2: Seq<char>, rest: Seq<char>)
    requires
        f0.len() <= u64::MAX,
        f1.len() <= u64::MAX,
        f2.len() <= u64::MAX,
    ensures
        ({ let m = MessageV::PrivateMessageReceived { from: f0, content: f1, timestamp: f2 }; msg_parse(msg_enc(m) + rest) == Some((m, rest)) }),
{
    let m = MessageV::PrivateMessageReceived { from: f0, content: f1, timestamp: f2 };
    reveal_strlit("Connect");
    reveal_strlit("JoinRoom");
    reveal_strlit("LeaveRoom");
    reveal_strlit("SendMessage");
    reveal_strlit("PrivateMessage");
    reveal_strlit("ListRooms");
    reveal_strlit("ListUsers");
    reveal_strlit("Disconnect");
    reveal_strlit("ConnectAck");
    reveal_strlit("ConnectError");
    reveal_strlit("JoinRoomAck");
    reveal_strlit("JoinRoomError");
    reveal_strlit("UserJoined");
    reveal_strlit("UserLeft");
    reveal_strlit("RoomMessage");
    reveal_strlit("PrivateMessageReceived");
    lemma_tags_distinct();
    assert(msg_enc(m) + rest =~= enc_str("PrivateMessageReceived"@) + (enc_str(f0) + (enc_str(f1) + (enc_str(f2) + (rest)))));
    lemma_p_str_enc("PrivateMessageReceived"@, enc_str(f0) + (enc_str(f1) + (enc_str(f2) + (rest))));
    lemma_p_str_enc(f0, enc_str(f1) + (enc_str(f2) + (rest)));
    lemma_p_str_enc(f1, enc_str(f2) + (rest));
    lemma_p_str_enc(f2, rest);
}

#[verifier::rlimit(80)]
proof fn lemma_rt_ping(rest: Seq<char>)
    ensures
        msg_parse(msg_enc(MessageV::Ping) + rest) == Some((MessageV::Ping, rest)),
{
    let m = MessageV::Ping;
    reveal_strlit("Connect");
    reveal_strlit("JoinRoom");
    reveal_strlit("LeaveRoom");
    reveal_strlit("SendMessage");
    reveal_strlit("PrivateMessage");
    reveal_strlit("ListRooms");
    reveal_strlit("ListUsers");
    reveal_strlit("Disconnect");
    reveal_strlit("ConnectAck");
    reveal_strlit("ConnectError");
    reveal_strlit("JoinRoomAck");
    reveal_strlit("JoinRoomError");
    reveal_strlit("UserJoined");
    reveal_strlit("UserLeft");
    reveal_strlit("RoomMessage");
    reveal_strlit("PrivateMessageReceived");
    reveal_strlit("RoomList");
    reveal_strlit("UserList");
    reveal_strlit("Error");
    reveal_strlit("Ping");
    lemma_tags_distinct();
    assert(msg_enc(m) + rest =~= enc_str("Ping"@) + rest);
    lemma_p_str_enc("Ping"@, rest);
}

#[verifier::rlimit(80)]
proof fn lemma_rt_pong(rest: Seq<char>)
    ensures
        msg_parse(msg_enc(MessageV::Pong) + rest) == Some((MessageV::Pong, rest)),
{
    let m = MessageV::Pong;
    reveal_strlit("Connect");
    reveal_strlit("JoinRoom");
    reveal_strlit("LeaveRoom");
    reveal_strlit("SendMessage");
    reveal_strlit("PrivateMessage");
    reveal_strlit("ListRooms");
    reveal_strlit("ListUsers");
    reveal_strlit("Disconnect");
    reveal_strlit("ConnectAck");
    reveal_strlit("ConnectError");
    reveal_strlit("JoinRoomAck");
    reveal_strlit("JoinRoomError");
    reveal_strlit("UserJoined");
    reveal_strlit("UserLeft");
    reveal_strlit("RoomMessage");
    reveal_strlit("PrivateMessageReceived");
    reveal_strlit("RoomList");
    reveal_strlit("UserList");
    reveal_strlit("Error");
    reveal_strlit("Ping");
    reveal_strlit("Pong");
    lemma_tags_distinct();
    assert(msg_enc(m) + rest =~= enc_str("Pong"@) + rest);
    lemma_p_str_enc("Pong"@, rest);
}

#[verifier::rlimit(80)]
proof fn lemma_rt_joinroomack(room_id: Seq<char>, users: Seq<Seq<char>>, rest: Seq<char>)
    requires
        room_id.len() <= u64::MAX,
        users.len() <= u64::MAX,
        forall|i: int| 0 <= i < users.len() ==> #[trigger] users[i].len() <= u64::MAX,
    ensures
        ({ let m = MessageV::JoinRoomAck { room_id, users }; msg_parse(msg_enc(m) + rest) == Some((m, rest)) }),
{
    let m = MessageV::JoinRoomAck { room_id, users };
    reveal_strlit("Connect");
    reveal_strlit("JoinRoom");
    reveal_strlit("LeaveRoom");
    reveal_strlit("SendMessage");
    reveal_strlit("PrivateMessage");
    reveal_strlit("ListRooms");
    reveal_strlit("ListUsers");
    reveal_strlit("Disconnect");
    reveal_strlit("ConnectAck");
    reveal_strlit("ConnectError");
    reveal_strlit("JoinRoomAck");
    lemma_tags_distinct();
    assert(msg_enc(m) + rest =~= enc_str("JoinRoomAck"@) + (enc_str(room_id) + (enc_str_list(users) + rest)));
    lemma_p_str_enc("JoinRoomAck"@, enc_str(room_id) + (enc_str_list(users) + rest));
    lemma_p_str_enc(room_id, enc_str_list(users) + rest);
    lemma_p_str_list_enc(users, rest);
}

#[verifier::rlimit(80)]
proof fn lemma_rt_roomlist(rooms: Seq<(Seq<char>, u64)>, rest: Seq<char>)
    requires
        rooms.len() <= u64::MAX,
        forall|i: int| 0 <= i < rooms.len() ==> #[trigger] rooms[i].0.len() <= u64::MAX,
    ensures
        ({ let m = MessageV::RoomList { rooms }; msg_parse(msg_enc(m) + rest) == Some((m, rest)) }),
{
    let m = MessageV::RoomList { rooms };
    reveal_strlit("Connect");
    reveal_strlit("JoinRoom");
    reveal_strlit("LeaveRoom");
    reveal_strlit("SendMessage");
    reveal_strlit("PrivateMessage");
    reveal_strlit("ListRooms");
    reveal_strlit("ListUsers");
    reveal_strlit("Disconnect");
    reveal_strlit("ConnectAck");
    reveal_strlit("ConnectError");
    reveal_strlit("JoinRoomAck");
    reveal_strlit("JoinRoomError");
    reveal_strlit("UserJoined");
    reveal_strlit("UserLeft");
    reveal_strlit("RoomMessage");
    reveal_strlit("PrivateMessageReceived");
    reveal_strlit("RoomList");
    lemma_tags_distinct();
    assert(msg_enc(m) + rest =~= enc_str("RoomList"@) + (enc_pair_list(rooms) + rest));
    lemma_p_str_enc("RoomList"@, enc_pair_list(rooms) + rest);
    lemma_p_pair_list_enc(rooms, rest);
}

#[verifier::rlimit(80)]
proof fn lemma_rt_userlist(users: Seq<Seq<char>>, room_id: Seq<char>, rest: Seq<char>)
    requires
        room_id.len() <= u64::MAX,
        users.len() <= u64::MAX,
        forall|i: int| 0 <= i < users.len() ==> #[trigger] users[i].len() <= u64::MAX,
    ensures
        ({ let m = MessageV::UserList { users, room_id }; msg_parse(msg_enc(m) + rest) == Some((m, rest)) }),
{
    let m = MessageV::UserList { users, room_id };
    reveal_strlit("Connect");
    reveal_strlit("JoinRoom");
    reveal_strlit("LeaveRoom");
    reveal_strlit("SendMessage");
    reveal_strlit("PrivateMessage");
    reveal_strlit("ListRooms");
    reveal_strlit("ListUsers");
    reveal_strlit("Disconnect");
    reveal_strlit("ConnectAck");
    reveal_strlit("ConnectError");
    reveal_strlit("JoinRoomAck");
    reveal_strlit("JoinRoomError");
    reveal_strlit("UserJoined");
    reveal_strlit("UserLeft");
    reveal_strlit("RoomMessage");
    reveal_strlit("PrivateMessageReceived");
    reveal_strlit("RoomList");
    reveal_strlit("UserList");
    lemma_tags_distinct();
    assert(msg_enc(m) + rest =~= enc_str("UserList"@) + (enc_str_list(users) + (enc_str(room_id) + rest)));
    lemma_p_str_enc("UserList"@, enc_str_list(users) + (enc_str(room_id) + rest));
    lemma_p_str_list_enc(users, enc_str(room_id) + rest);
    lemma_p_str_enc(room_id, rest);
}

#[verifier::rlimit(80)]
proof fn lemma_rt_error(code: ErrorCode, message: Seq<char>, rest: Seq<char>)
    requires
        message.len() <= u64::MAX,
    ensures
        ({ let m = MessageV::Error { code, message }; msg_parse(msg_enc(m) + rest) == Some((m, rest)) }),
{
    let m = MessageV::Error { code, message };
    reveal_strlit("Connect");
    reveal_strlit("JoinRoom");
    reveal_strlit("LeaveRoom");
    reveal_strlit("SendMessage");
    reveal_strlit("PrivateMessage");
    reveal_strlit("ListRooms");
    reveal_strlit("ListUsers");
    reveal_strlit("Disconnect");
    reveal_strlit("ConnectAck");
    reveal_strlit("ConnectError");
    reveal_strlit("JoinRoomAck");
    reveal_strlit("JoinRoomError");
    reveal_strlit("UserJoined");
    reveal_strlit("UserLeft");
    reveal_strlit("RoomMessage");
    reveal_strlit("PrivateMessageReceived");
    reveal_strlit("RoomList");
    reveal_strlit("UserList");
    reveal_strlit("Error");
    lemma_tags_distinct();
    assert(msg_enc(m) + rest =~= enc_str("Error"@) + (enc_code(code) + (enc_str(message) + rest)));
    lemma_p_str_enc("Error"@, enc_code(code) + (enc_str(message) + rest));
    lemma_p_code_enc(code, enc_str(message) + rest);
    lemma_p_str_enc(message, rest);
}

/// Law: parsing the encoding of any well-formed message, with anything
/// after it, yields the message and leaves exactly the rest.
pub proof fn lemma_msg_round_trip(m: MessageV, rest: Seq<char>)
    requires
        wf_msg(m),
    ensures
        msg_parse(msg_enc(m) + rest) == Some((m, rest)),
{
    match m {
        MessageV::Connect { username } => lemma_rt_connect(username, rest),
        MessageV::JoinRoom { room_id } => lemma_rt_joinroom(room_id, rest),
        MessageV::LeaveRoom => lemma_rt_leaveroom(rest),
        MessageV::SendMessage { content } => lemma_rt_sendmessage(content, rest),
        MessageV::PrivateMessage { target_user, content } => lemma_rt_privatemessage(target_user, content, rest),
        MessageV::ListRooms => lemma_rt_listrooms(rest),
        MessageV::ListUsers => lemma_rt_listusers(rest),
        MessageV::Disconnect => lemma_rt_disconnect(rest),
        MessageV::ConnectAck { client_id, message } => lemma_rt_connectack(client_id, message, rest),
        MessageV::ConnectError { reason } => lemma_rt_connecterror(reason, rest),
        MessageV::JoinRoomAck { room_id, users } => lemma_rt_joinroomack(room_id, users, rest),
        MessageV::JoinRoomError { reason } => lemma_rt_joinroomerror(reason, rest),
        MessageV::UserJoined { username, room_id } => lemma_rt_userjoined(username, room_id, rest),
        MessageV::UserLeft { username, room_id } => lemma_rt_userleft(username, room_id, rest),
        MessageV::RoomMessage { from, content, timestamp, room_id } => lemma_rt_roommessage(from, content, timestamp, room_id, rest),
        MessageV::PrivateMessageReceived { from, content, timestamp } => lemma_rt_privatemessagereceived(from, content, timestamp, rest),
        MessageV::RoomList { rooms } => lemma_rt_roomlist(rooms, rest),
        MessageV::UserList { users, room_id } => lemma_rt_userlist(users, room_id, rest),
        MessageV::Error { code, message } => lemma_rt_error(code, message, rest),
        MessageV::Ping => lemma_rt_ping(rest),
        MessageV::Pong => lemma_rt_pong(rest),
    }
}


/// Append the encoding of a message to `out`.
pub fn push_msg(out: &mut String, m: &Message)
    ensures
        final(out)@ == old(out)@ + msg_enc(m@),
{
    match m {
        Message::Connect { username } => {
            push_str_enc(out, "Connect");
            push_str_enc(out, username.as_str());
        },
        Message::JoinRoom { room_id } => {
            push_str_enc(out, "JoinRoom");
            push_str_enc(out, room_id.as_str());
        },
        Message::LeaveRoom => {
            push_str_enc(out, "LeaveRoom");
        },
        Message::SendMessage { content } => {
            push_str_enc(out, "SendMessage");
            push_str_enc(out, content.as_str());
        },
        Message::PrivateMessage { target_user, content } => {
            push_str_enc(out, "PrivateMessage");
            push_str_enc(out, target_user.as_str());
            push_str_enc(out, content.as_str());
        },
        Message::ListRooms => {
            push_str_enc(out, "ListRooms");
        },
        Message::ListUsers => {
            push_str_enc(out, "ListUsers");
        },
        Message::Disconnect => {
            push_str_enc(out, "Disconnect");
        },
        Message::ConnectAck { client_id, message } => {
            push_str_enc(out, "ConnectAck");
            push_str_enc(out, client_id.as_str());
            push_str_enc(out, message.as_str());
        },
        Message::ConnectError { reason } => {
            push_str_enc(out, "ConnectError");
            push_str_enc(out, reason.as_str());
        },
        Message::JoinRoomAck { room_id, users } => {
            push_str_enc(out, "JoinRoomAck");
            push_str_enc(out, room_id.as_str());
            push_str_list(out, users);
        },
        Message::JoinRoomError { reason } => {
            push_str_enc(out, "JoinRoomError");
            push_str_enc(out, reason.as_str());
        },
        Message::UserJoined { username, room_id } => {
            push_str_enc(out, "UserJoined");
            push_str_enc(out, username.as_str());
            push_str_enc(out, room_id.as_str());
        },
        Message::UserLeft { username, room_id } => {
            push_str_enc(out, "UserLeft");
            push_str_enc(out, username.as_str());
            push_str_enc(out, room_id.as_str());
        },
        Message::RoomMessage { from, content, timestamp, room_id } => {
            push_str_enc(out, "RoomMessage");
            push_str_enc(out, from.as_str());
            push_str_enc(out, content.as_str());
            push_str_enc(out, timestamp.as_str());
            push_str_enc(out, room_id.as_str());
        },
        Message::PrivateMessageReceived { from, content, timestamp } => {
            push_str_enc(out, "PrivateMessageReceived");
            push_str_enc(out, from.as_str());
            push_str_enc(out, content.as_str());
            push_str_enc(out, timestamp.as_str());
        },
        Message::RoomList { rooms } => {
            push_str_enc(out, "RoomList");
            push_pair_list(out, rooms);
        },
        Message::UserList { users, room_id } => {
            push_str_enc(out, "UserList");
            push_str_list(out, users);
            push_str_enc(out, room_id.as_str());
        },
        Message::Error { code, message } => {
            push_str_enc(out, "Error");
            push_code(out, code);
            push_str_enc(out, message.as_str());
        },
        Message::Ping => {
            push_str_enc(out, "Ping");
        },
        Message::Pong => {
            push_str_enc(out, "Pong");
        },
    }
    proof {
        assert(out@ =~= old(out)@ + msg_enc(m@));
    }
}

/// Parse a message at position `pos` of `s`.
pub fn parse_msg(s: &str, n: usize, pos: usize) -> (r: Option<(Message, usize)>)
    requires
        n == s@.len(),
        pos <= n,
    ensures
        match r {
            Some(pair) => pair.1 <= n && msg_parse(s@.skip(pos as int)) == Some(
                (pair.0@, s@.skip(pair.1 as int)),
            ),
            None => msg_parse(s@.skip(pos as int)) is None,
        },
{
    let (tag, j) = match parse_str(s, n, pos) {
        Some(p) => p,
        None => {
            return None;
        },
    };
    let t = tag.as_str();
    if crate::strutil::str_eq(t, "Connect") {
        match parse_str(s, n, j) {
            Some((username, j2)) => Some((Message::Connect { username }, j2)),
            None => None,
        }
    } else if crate::strutil::str_eq(t, "JoinRoom") {
        match parse_str(s, n, j) {
            Some((room_id, j2)) => Some((Message::JoinRoom { room_id }, j2)),
            None => None,
        }
    } else if crate::strutil::str_eq(t, "LeaveRoom") {
        Some((Message::LeaveRoom, j))
    } else if crate::strutil::str_eq(t, "SendMessage") {
        match parse_str(s, n, j) {
            Some((content, j2)) => Some((Message::SendMessage { content }, j2)),
            None => None,
        }
    } else if crate::strutil::str_eq(t, "PrivateMessage") {
        match parse_str(s, n, j) {
            Some((target_user, j2)) => match parse_str(s, n, j2) {
                Some((content, j3)) => Some((Message::PrivateMessage { target_user, content }, j3)),
                None => None,
            },
            None => None,
        }
    } else if crate::strutil::str_eq(t, "ListRooms") {
        Some((Message::ListRooms, j))
    } else if crate::strutil::str_eq(t, "ListUsers") {
        Some((Message::ListUsers, j))
    } else if crate::strutil::str_eq(t, "Disconnect") {
        Some((Message::Disconnect, j))
    } else if crate::strutil::str_eq(t, "ConnectAck") {
        match parse_str(s, n, j) {
            Some((client_id, j2)) => match parse_str(s, n, j2) {
                Some((message, j3)) => Some((Message::ConnectAck { client_id, message }, j3)),
                None => None,
            },
            None => None,
        }
    } else if crate::strutil::str_eq(t, "ConnectError") {
        match parse_str(s, n, j) {
            Some((reason, j2)) => Some((Message::ConnectError { reason }, j2)),
            None => None,
        }
    } else if crate::strutil::str_eq(t, "JoinRoomAck") {
        match parse_str(s, n, j) {
            Some((room_id, j2)) => match parse_str_vec(s, n, j2) {
                Some((users, j3)) => Some((Message::JoinRoomAck { room_id, users }, j3)),
                None => None,
            },
            None => None,
        }
    } else if crate::strutil::str_eq(t, "JoinRoomError") {
        match parse_str(s, n, j) {
            Some((reason, j2)) => Some((Message::JoinRoomError { reason }, j2)),
            None => None,
        }
    } else if crate::strutil::str_eq(t, "UserJoined") {
        match parse_str(s, n, j) {
            Some((username, j2)) => match parse_str(s, n, j2) {
                Some((room_id, j3)) => Some((Message::UserJoined { username, room_id }, j3)),
                None => None,
            },
            None => None,
        }
    } else if crate::strutil::str_eq(t, "UserLeft") {
        match parse_str(s, n, j) {
            Some((username, j2)) => match parse_str(s, n, j2) {
                Some((room_id, j3)) => Some((Message::UserLeft { username, room_id }, j3)),
                None => None,
            },
            None => None,
        }
    } else if crate::strutil::str_eq(t, "RoomMessage") {
        match parse_str(s, n, j) {
            Some((from, j2)) => match parse_str(s, n, j2) {
                Some((content, j3)) => match parse_str(s, n, j3) {
                    Some((timestamp, j4)) => match parse_str(s, n, j4) {
                        Some((room_id, j5)) => Some(
                            (Message::RoomMessage { from, content, timestamp, room_id }, j5),
                        ),
                        None => None,
                    },
                    None => None,
                },
                None => None,
            },
            None => None,
        }
    } else if crate::strutil::str_eq(t, "PrivateMessageReceived") {
        match parse_str(s, n, j) {
            Some((from, j2)) => match parse_str(s, n, j2) {
                Some((content, j3)) => match parse_str(s, n, j3) {
                    Some((timestamp, j4)) => Some(
                        (Message::PrivateMessageReceived { from, content, timestamp }, j4),
                    ),
                    None => None,
                },
                None => None,
            },
            None => None,
        }
    } else if crate::strutil::str_eq(t, "RoomList") {
        match parse_pair_vec(s, n, j) {
            Some((rooms, j2)) => Some((Message::RoomList { rooms }, j2)),
            None => None,
        }
    } else if crate::strutil::str_eq(t, "UserList") {
        match parse_str_vec(s, n, j) {
            Some((users, j2)) => match parse_str(s, n, j2) {
                Some((room_id, j3)) => Some((Message::UserList { users, room_id }, j3)),
                None => None,
            },
            None => None,
        }
    } else if crate::strutil::str_eq(t, "Error") {
        match parse_code(s, n, j) {
            Some((code, j2)) => match parse_str(s, n, j2) {
                Some((message, j3)) => Some((Message::Error { code, message }, j3)),
                None => None,
            },
            None => None,
        }
    } else if crate::strutil::str_eq(t, "Ping") {
        Some((Message::Ping, j))
    } else if crate::strutil::str_eq(t, "Pong") {
        Some((Message::Pong, j))
    } else {
        None
    }
}

/// The payload encoding of a whole frame: version, session id, sequence,
/// timestamp, then the message.
pub open spec fn frame_enc(f: FrameV) -> Seq<char> {
    enc_u64(f.version as u64) + enc_opt_str(f.session_id) + enc_u64(f.sequence) + enc_str(
        f.timestamp,
    ) + msg_enc(f.message)
}

/// Decode a whole payload; anything left over, a version that does not fit
/// a byte, or any malformed part refuses the frame.
pub open spec fn frame_dec(s: Seq<char>) -> Option<FrameV> {
    match p_u64(s) {
        Some((v, r1)) => if v <= 255 {
            match p_opt_str(r1) {
                Some((sid, r2)) => match p_u64(r2) {
                    Some((sq, r3)) => match p_str(r3) {
                        Some((ts, r4)) => match msg_parse(r4) {
                            Some((m, r5)) => if r5.len() == 0 {
                                Some(
                                    FrameV {
                                        version: v as u8,
                                        session_id: sid,
                                        sequence: sq,
                                        message: m,
                                        timestamp: ts,
                                    },
                                )
                            } else {
                                None
                            },
                            None => None,
                        },
                        None => None,
                    },
                    None => None,
                },
                None => None,
            }
        } else {
            None
        },
        None => None,
    }
}

/// A frame is well formed when its strings fit wire numbers and its message
/// is well formed.
pub open spec fn wf_frame(f: FrameV) -> bool {
    &&& (f.session_id matches Some(t) ==> t.len() <= u64::MAX)
    &&& f.timestamp.len() <= u64::MAX
    &&& wf_msg(f.message)
}

/// Law: decoding the encoding of any well-formed frame yields that frame.
pub proof fn lemma_frame_round_trip(f: FrameV)
    requires
        wf_frame(f),
    ensures
        frame_dec(frame_enc(f)) == Some(f),
{
    let e = frame_enc(f);
    let rest1 = enc_opt_str(f.session_id) + (enc_u64(f.sequence) + (enc_str(f.timestamp) + msg_enc(
        f.message,
    )));
    assert(e =~= enc_u64(f.version as u64) + rest1);
    lemma_p_u64_enc(f.version as u64, rest1);
    let rest2 = enc_u64(f.sequence) + (enc_str(f.timestamp) + msg_enc(f.message));
    lemma_p_opt_str_enc(f.session_id, rest2);
    let rest3 = enc_str(f.timestamp) + msg_enc(f.message);
    lemma_p_u64_enc(f.sequence, rest3);
    lemma_p_str_enc(f.timestamp, msg_enc(f.message));
    lemma_msg_round_trip(f.message, Seq::empty());
    assert(msg_enc(f.message) + Seq::<char>::empty() =~= msg_enc(f.message));
}

/// Why a byte payload could not be decoded into a frame.
#[derive(Debug, Clone, PartialEq, Eq, Structural)]
pub enum CodecError {
    /// The bytes are not valid UTF-8.
    InvalidUtf8,
    /// The characters do not encode a frame.
    Malformed,
}

impl ProtocolFrame {
    /// Build a frame around a message, stamped with the protocol version
    /// and the current time.
    pub fn new(message: Message, session_id: Option<String>, sequence: u64) -> (r: ProtocolFrame)
        ensures
            r.version == PROTOCOL_VERSION,
            r.session_id == session_id,
            r.sequence == sequence,
            r.message == message,
            r.timestamp@.len() > 0,
            r.timestamp@.len() <= 64,
    {
        ProtocolFrame {
            version: PROTOCOL_VERSION,
            session_id,
            sequence,
            message,
            timestamp: crate::clock::now_rfc3339(),
        }
    }

    /// The frame's payload as characters.
    fn encode_payload(&self) -> (s: String)
        ensures
            s@ == frame_enc(self@),
    {
        let mut s = String::new();
        push_u64(&mut s, self.version as u64);
        push_opt_str(&mut s, &self.session_id);
        push_u64(&mut s, self.sequence);
        push_str_enc(&mut s, self.timestamp.as_str());
        push_msg(&mut s, &self.message);
        proof {
            assert(s@ =~= frame_enc(self@));
        }
        s
    }

    /// Encode the frame into its payload bytes (the UTF-8 bytes of the
    /// payload characters). Encoding cannot fail.
    pub fn serialize(&self) -> (r: Result<Vec<u8>, CodecError>)
        ensures
            r matches Ok(v) && v@ == vstd::utf8::encode_utf8(frame_enc(self@)),
    {
        let s = self.encode_payload();
        Ok(s.as_str().as_bytes_vec())
    }

    /// Decode payload bytes into a frame.
    pub fn deserialize(data: &[u8]) -> (r: Result<ProtocolFrame, CodecError>)
        ensures
            match r {
                Ok(f) => vstd::utf8::valid_utf8(data@) && frame_dec(
                    vstd::utf8::decode_utf8(data@),
                ) == Some(f@),
                Err(e) => (e == CodecError::InvalidUtf8 && !vstd::utf8::valid_utf8(data@)) || (e
                    == CodecError::Malformed && vstd::utf8::valid_utf8(data@) && frame_dec(
                    vstd::utf8::decode_utf8(data@),
                ) is None),
            },
    {
        let st = match crate::strutil::bytes_as_str(data) {
            Some(x) => x,
            None => {
                return Err(CodecError::InvalidUtf8);
            },
        };
        let n = st.unicode_len();
        proof {
            assert(st@.skip(0) =~= st@);
        }
        let (v, j1) = match parse_u64(st, n, 0) {
            Some(p) => p,
            None => {
                return Err(CodecError::Malformed);
            },
        };
        if v > 255 {
            return Err(CodecError::Malformed);
        }
        let (sid, j2) = match parse_opt_str(st, n, j1) {
            Some(p) => p,
            None => {
                return Err(CodecError::Malformed);
            },
        };
        let (sq, j3) = match parse_u64(st, n, j2) {
            Some(p) => p,
            None => {
                return Err(CodecError::Malformed);
            },
        };
        let (ts, j4) = match parse_str(st, n, j3) {
            Some(p) => p,
            None => {
                return Err(CodecError::Malformed);
            },
        };
        let (msg, j5) = match parse_msg(st, n, j4) {
            Some(p) => p,
            None => {
                return Err(CodecError::Malformed);
            },
        };
        if j5 != n {
            return Err(CodecError::Malformed);
        }
        let f = ProtocolFrame {
            version: v as u8,
            session_id: sid,
            sequence: sq,
            message: msg,
            timestamp: ts,
        };
        proof {
            assert(st@.skip(j5 as int).len() == 0);
            assert(frame_dec(st@) == Some(f@));
        }
        Ok(f)
    }

    /// A frame is valid when it carries the implementation's protocol
    /// version and its encoded payload stays within `MAX_MESSAGE_SIZE`.
    pub fn validate(&self) -> (r: Result<(), String>)
        ensures
            r is Ok <==> (self.version == PROTOCOL_VERSION && vstd::utf8::encode_utf8(
                frame_enc(self@),
            ).len() <= MAX_MESSAGE_SIZE),
            r matches Err(e) ==> (self.version != PROTOCOL_VERSION && e@
                == "Version de protocole non supportee"@) || (self.version == PROTOCOL_VERSION
                && vstd::utf8::encode_utf8(frame_enc(self@)).len() > MAX_MESSAGE_SIZE && e@
                == "Message trop volumineux"@),
    {
        if self.version != PROTOCOL_VERSION {
            return Err(String::from_str("Version de protocole non supportee"));
        }
        let s = self.encode_payload();
        let bytes = s.as_str().as_bytes_vec();
        if bytes.len() > MAX_MESSAGE_SIZE {
            return Err(String::from_str("Message trop volumineux"));
        }
        Ok(())
    }
}

} // verus!
