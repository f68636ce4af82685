//! Text primitives shared by every message the bot renders: decimal
//! numbers, character-level string building, integer parsing and
//! substring replacement.

use vstd::prelude::*;
use vstd::string::*;

verus! {

/// The ASCII digit for `d` (0..=9).
pub open spec fn digit_char(d: int) -> char {
    if d == 0 { '0' }
    else if d == 1 { '1' }
    else if d == 2 { '2' }
    else if d == 3 { '3' }
    else if d == 4 { '4' }
    else if d == 5 { '5' }
    else if d == 6 { '6' }
    else if d == 7 { '7' }
    else if d == 8 { '8' }
    else { '9' }
}

/// Decimal representation of a natural number, most significant digit first.
pub open spec fn dec_nat(n: nat) -> Seq<char>
    decreases n,
{
    if n < 10 {
        seq![digit_char(n as int)]
    } else {
        dec_nat(n / 10).push(digit_char((n % 10) as int))
    }
}

/// Decimal representation of an integer, with a leading '-' when negative.
pub open spec fn dec(i: int) -> Seq<char> {
    if i < 0 {
        seq!['-'].add(dec_nat((-i) as nat))
    } else {
        dec_nat(i as nat)
    }
}

/// Decimal representation with an explicit sign: `+3`, `-3`, `+0`.
pub open spec fn dec_signed(i: int) -> Seq<char> {
    if i < 0 {
        dec(i)
    } else {
        seq!['+'].add(dec(i))
    }
}

/// Appends one character to a string (std's `String::push`).
#[verifier::external_body]
pub(crate) fn push_char(s: &mut String, c: char)
    ensures
        final(s)@ == old(s)@.push(c),
{
    s.push(c);
}

/// The characters of a string, in order.
pub fn chars_of(s: &str) -> (v: Vec<char>)
    ensures
        v@ == s@,
{
    broadcast use vstd::string::group_string_axioms;
    let mut v: Vec<char> = Vec::new();
    for c in it: s.chars()
        invariant
            v@ == it.seq().take(it.index() as int),
    {
        v.push(c);
    }
    v
}

/// Whether two strings are equal, character by character.
pub fn str_eq(a: &str, b: &str) -> (r: bool)
    ensures
        r == (a@ == b@),
{
    let x = chars_of(a);
    let y = chars_of(b);
    if x.len() != y.len() {
        return false;
    }
    let mut i: usize = 0;
    while i < x.len()
        invariant
            x@ == a@,
            y@ == b@,
            x@.len() == y@.len(),
            i <= x@.len(),
            forall|k: int| 0 <= k < i ==> x@[k] == y@[k],
        decreases x@.len() - i,
    {
        if x[i] != y[i] {
            return false;
        }
        i = i + 1;
    }
    proof {
        assert(x@ =~= y@);
    }
    true
}

/// Appends `t` to `s`.
pub fn push_str(s: &mut String, t: &str)
    ensures
        final(s)@ == old(s)@ + t@,
{
    s.append(t);
}

/// A fresh string holding `t`.
pub fn string_of(t: &str) -> (r: String)
    ensures
        r@ == t@,
{
    let mut r = String::new();
    r.append(t);
    proof {
        assert(r@ =~= t@);
    }
    r
}

/// A fresh string holding the given characters.
pub fn string_from_chars(cs: &[char]) -> (r: String)
    ensures
        r@ == cs@,
{
    let mut r = String::new();
    let mut i: usize = 0;
    while i < cs.len()
        invariant
            i <= cs@.len(),
            r@ == cs@.subrange(0, i as int),
        decreases cs@.len() - i,
    {
        push_char(&mut r, cs[i]);
        proof {
            assert(cs@.subrange(0, i + 1) =~= cs@.subrange(0, i as int).push(cs@[i as int]));
        }
        i = i + 1;
    }
    proof {
        assert(cs@.subrange(0, cs@.len() as int) =~= cs@);
    }
    r
}

fn digit_of(d: u64) -> (c: char)
    requires
        d < 10,
    ensures
        c == digit_char(d as int),
{
    if d == 0 { '0' }
    else if d == 1 { '1' }
    else if d == 2 { '2' }
    else if d == 3 { '3' }
    else if d == 4 { '4' }
    else if d == 5 { '5' }
    else if d == 6 { '6' }
    else if d == 7 { '7' }
    else if d == 8 { '8' }
    else { '9' }
}

/// Appends the decimal form of `n` to `s`.
pub fn push_u64(s: &mut String, n: u64)
    ensures
        final(s)@ == old(s)@ + dec_nat(n as nat),
    decreases n,
{
    if n >= 10 {
        push_u64(s, n / 10);
    }
    let c = digit_of(n % 10);
    push_char(s, c);
    proof {
        if n >= 10 {
            assert(dec_nat(n as nat) == dec_nat((n / 10) as nat).push(c));
        } else {
            assert(dec_nat(n as nat) =~= seq![c]);
        }
    }
}

/// Appends the decimal form of `n` to `s`, with '-' when negative.
pub fn push_i64(s: &mut String, n: i64)
    ensures
        final(s)@ == old(s)@ + dec(n as int),
{
    if n < 0 {
        push_char(s, '-');
        let m: u64 = (0i128 - (n as i128)) as u64;
        push_u64(s, m);
        proof {
            assert(seq!['-'].add(dec_nat(m as nat)) =~= seq!['-'] + dec_nat(m as nat));
        }
    } else {
        push_u64(s, n as u64);
    }
}

/// Appends `n` with an explicit sign (`+3`, `-3`, `+0`).
pub fn push_i64_signed(s: &mut String, n: i64)
    ensures
        final(s)@ == old(s)@ + dec_signed(n as int),
{
    if n >= 0 {
        push_char(s, '+');
    }
    push_i64(s, n);
}

/// Appends `a - b` with an explicit sign (`+3`, `-3`, `+0`).
pub fn push_signed_difference(s: &mut String, a: u64, b: u64)
    ensures
        final(s)@ == old(s)@ + dec_signed(a - b),
{
    if a >= b {
        push_char(s, '+');
        push_u64(s, a - b);
        proof {
            assert(old(s)@.push('+') + dec_nat((a - b) as nat) =~= old(s)@ + dec_signed(a - b));
        }
    } else {
        push_char(s, '-');
        push_u64(s, b - a);
        proof {
            assert(old(s)@.push('-') + dec_nat((b - a) as nat) =~= old(s)@ + dec_signed(a - b));
        }
    }
}

/// The decimal form of `n`.
pub fn u64_to_string(n: u64) -> (r: String)
    ensures
        r@ == dec_nat(n as nat),
{
    let mut r = String::new();
    push_u64(&mut r, n);
    r
}

/// The decimal form of `n`, with '-' when negative.
pub fn i64_to_string(n: i64) -> (r: String)
    ensures
        r@ == dec(n as int),
{
    let mut r = String::new();
    push_i64(&mut r, n);
    r
}

// ── Parsing unsigned integers ────────────────────────────────────────────────

pub open spec fn is_ascii_digit(c: char) -> bool {
    '0' <= c <= '9'
}

pub open spec fn digit_value(c: char) -> nat {
    ((c as u32) - ('0' as u32)) as nat
}

pub open spec fn all_digits(s: Seq<char>) -> bool {
    forall|i: int| 0 <= i < s.len() ==> is_ascii_digit(#[trigger] s[i])
}

/// The value of a string of decimal digits.
pub open spec fn digits_value(s: Seq<char>) -> nat
    decreases s.len(),
{
    if s.len() == 0 {
        0
    } else {
        digits_value(s.drop_last()) * 10 + digit_value(s.last())
    }
}

/// What `str::parse::<u64>` gives: an optional leading '+', then one or more
/// ASCII digits whose value fits in a `u64`.
pub open spec fn parse_u64_spec(s: Seq<char>) -> Option<u64> {
    let d = if s.len() > 0 && s[0] == '+' { s.drop_first() } else { s };
    if d.len() > 0 && all_digits(d) && digits_value(d) <= u64::MAX {
        Some(digits_value(d) as u64)
    } else {
        None
    }
}

proof fn lemma_digits_value_monotone(s: Seq<char>, i: int, j: int)
    requires
        0 <= i <= j <= s.len(),
    ensures
        digits_value(s.subrange(0, i)) <= digits_value(s.subrange(0, j)),
    decreases j - i,
{
    if i < j {
        lemma_digits_value_monotone(s, i, j - 1);
        assert(s.subrange(0, j).drop_last() =~= s.subrange(0, j - 1));
    }
}

proof fn lemma_dec_nat_digits(n: nat)
    ensures
        dec_nat(n).len() > 0,
        all_digits(dec_nat(n)),
        digits_value(dec_nat(n)) == n,
        dec_nat(n)[0] != '+',
    decreases n,
{
    let d = digit_char((n % 10) as int);
    assert(is_ascii_digit(d) && digit_value(d) == n % 10) by {
        let k = n % 10;
        assert(0 <= k < 10);
    }
    if n < 10 {
        assert(n % 10 == n);
        assert(dec_nat(n) == seq![digit_char(n as int)]);
        assert(dec_nat(n).drop_last() =~= Seq::<char>::empty());
        assert(digits_value(dec_nat(n)) == digits_value(Seq::<char>::empty()) * 10 + digit_value(d));
    } else {
        lemma_dec_nat_digits(n / 10);
        let p = dec_nat(n / 10);
        assert(dec_nat(n) == p.push(d));
        assert(dec_nat(n).drop_last() =~= p);
        assert((n / 10) * 10 + n % 10 == n) by (nonlinear_arith);
        assert(digits_value(dec_nat(n)) == digits_value(p) * 10 + digit_value(d));
        assert forall|i: int| 0 <= i < dec_nat(n).len() implies is_ascii_digit(#[trigger] dec_nat(n)[i]) by {
            if i < p.len() {
                assert(dec_nat(n)[i] == p[i]);
            }
        }
        assert(dec_nat(n)[0] == p[0]);
    }
}

/// Parsing the decimal form of a number gives the number back.
pub proof fn lemma_parse_dec_round_trip(n: u64)
    ensures
        parse_u64_spec(dec_nat(n as nat)) == Some(n),
{
    lemma_dec_nat_digits(n as nat);
}

/// Parses a decimal `u64` the way `str::parse::<u64>` does.
pub fn parse_u64(s: &str) -> (r: Option<u64>)
    ensures
        r == parse_u64_spec(s@),
{
    let cs = chars_of(s);
    let n = cs.len();
    let mut start: usize = 0;
    if n > 0 && cs[0] == '+' {
        start = 1;
    }
    let ghost d = if s@.len() > 0 && s@[0] == '+' { s@.drop_first() } else { s@ };
    proof {
        assert(d =~= cs@.subrange(start as int, n as int));
    }
    if start >= n {
        return None;
    }
    let mut value: u64 = 0;
    let mut i: usize = start;
    proof {
        assert(d.subrange(0, 0) =~= Seq::<char>::empty());
    }
    while i < n
        invariant
            parse_u64_spec(s@) == (if d.len() > 0 && all_digits(d) && digits_value(d) <= u64::MAX {
                Some(digits_value(d) as u64)
            } else {
                None
            }),
            start <= i <= n,
            n == cs@.len(),
            d == cs@.subrange(start as int, n as int),
            start < n,
            all_digits(d.subrange(0, i - start)),
            value as nat == digits_value(d.subrange(0, i - start)),
        decreases n - i,
    {
        let c = cs[i];
        let ghost k: int = i - start;
        proof {
            assert(d[k] == c);
            assert(d.subrange(0, k + 1).drop_last() =~= d.subrange(0, k));
            assert(d.subrange(0, k + 1).last() == c);
        }
        if !('0' <= c && c <= '9') {
            proof {
                assert(!is_ascii_digit(d[k]));
                assert(!all_digits(d));
            }
            return None;
        }
        let dv: u64 = ((c as u32) - ('0' as u32)) as u64;
        let step = value.checked_mul(10);
        match step {
            None => {
                proof {
                    assert(digits_value(d.subrange(0, k + 1)) == value * 10 + digit_value(c));
                    lemma_digits_value_monotone(d, k + 1, d.len() as int);
                    assert(d.subrange(0, d.len() as int) =~= d);
                }
                return None;
            },
            Some(v10) => {
                match v10.checked_add(dv) {
                    None => {
                        proof {
                            assert(digits_value(d.subrange(0, k + 1)) == value * 10 + digit_value(c));
                            lemma_digits_value_monotone(d, k + 1, d.len() as int);
                            assert(d.subrange(0, d.len() as int) =~= d);
                        }
                        return None;
                    },
                    Some(v) => {
                        value = v;
                        proof {
                            assert(digits_value(d.subrange(0, k + 1)) == value);
                            assert forall|j: int| 0 <= j < k + 1 implies is_ascii_digit(
                                #[trigger] d.subrange(0, k + 1)[j],
                            ) by {
                                if j < k {
                                    assert(d.subrange(0, k + 1)[j] == d.subrange(0, k)[j]);
                                }
                            }
                        }
                    },
                }
            },
        }
        i = i + 1;
    }
    proof {
        assert(d.subrange(0, n - start) =~= d);
    }
    Some(value)
}

// ── Replacement ──────────────────────────────────────────────────────────────

/// `pat` occurs in `s` at position `i`.
pub open spec fn occurs_at(s: Seq<char>, pat: Seq<char>, i: int) -> bool {
    0 <= i && i + pat.len() <= s.len() && s.subrange(i, i + pat.len()) == pat
}

/// `rep` before every character of `s` and once more at the end: what
/// `str::replace` gives for an empty pattern.
pub open spec fn replace_empty(s: Seq<char>, rep: Seq<char>) -> Seq<char>
    decreases s.len(),
{
    if s.len() == 0 {
        rep
    } else {
        rep + seq![s[0]] + replace_empty(s.drop_first(), rep)
    }
}

/// What `str::replace` gives: every non-overlapping occurrence of `pat`,
/// scanning left to right, replaced by `rep` (for an empty `pat`, `rep`
/// goes around every character).
pub open spec fn replace_spec(s: Seq<char>, pat: Seq<char>, rep: Seq<char>) -> Seq<char>
    decreases s.len(),
{
    if pat.len() == 0 {
        replace_empty(s, rep)
    } else if s.len() == 0 {
        s
    } else if occurs_at(s, pat, 0) {
        rep + replace_spec(s.subrange(pat.len() as int, s.len() as int), pat, rep)
    } else {
        seq![s[0]] + replace_spec(s.drop_first(), pat, rep)
    }
}

proof fn lemma_copied_prefix(t: Seq<char>, pat: Seq<char>, rep: Seq<char>, q: int)
    requires
        pat.len() > 0,
        rep.len() > 0,
        0 <= q <= replace_spec(t, pat, rep).len(),
        forall|j: int| 0 <= j < q ==> replace_spec(t, pat, rep)[j] != rep[0],
    ensures
        q <= t.len(),
        replace_spec(t, pat, rep).subrange(0, q) == t.subrange(0, q),
    decreases t.len(),
{
    let r = replace_spec(t, pat, rep);
    if q == 0 {
        assert(r.subrange(0, 0) =~= t.subrange(0, 0));
    } else if t.len() == 0 {
    } else if occurs_at(t, pat, 0) {
        assert(r[0] == rep[0]);
    } else {
        let rest = replace_spec(t.drop_first(), pat, rep);
        assert(r == seq![t[0]] + rest);
        assert forall|j: int| 0 <= j < q - 1 implies rest[j] != rep[0] by {
            assert(r[j + 1] == rest[j]);
        }
        lemma_copied_prefix(t.drop_first(), pat, rep, q - 1);
        assert(r.subrange(0, q) =~= seq![t[0]] + rest.subrange(0, q - 1));
        assert(t.subrange(0, q) =~= seq![t[0]] + t.drop_first().subrange(0, q - 1));
    }
}

/// Replacing every `pat` by `rep` leaves no `pat` behind, when `rep` does
/// not contain `pat` and neither its first nor its last character occurs in
/// `pat` (so no occurrence can straddle a replacement).
pub proof fn lemma_replace_removes(s: Seq<char>, pat: Seq<char>, rep: Seq<char>)
    requires
        pat.len() > 0,
        rep.len() > 0,
        !pat.contains(rep[0]),
        !pat.contains(rep.last()),
        !contains_text(rep, pat),
    ensures
        !contains_text(replace_spec(s, pat, rep), pat),
    decreases s.len(),
{
    let out = replace_spec(s, pat, rep);
    if s.len() == 0 {
        assert forall|i: int| !occurs_at(out, pat, i) by {}
    } else if occurs_at(s, pat, 0) {
        let rest = s.subrange(pat.len() as int, s.len() as int);
        lemma_replace_removes(rest, pat, rep);
        let r2 = replace_spec(rest, pat, rep);
        assert(out == rep + r2);
        assert forall|i: int| !occurs_at(out, pat, i) by {
            if occurs_at(out, pat, i) {
                if i + pat.len() <= rep.len() {
                    assert(rep.subrange(i, i + pat.len()) =~= out.subrange(i, i + pat.len()));
                    assert(occurs_at(rep, pat, i));
                } else if i >= rep.len() {
                    assert(r2.subrange(i - rep.len(), i - rep.len() + pat.len()) =~= out.subrange(i, i + pat.len()));
                    assert(occurs_at(r2, pat, i - rep.len()));
                } else {
                    let k = rep.len() - 1 - i;
                    assert(out.subrange(i, i + pat.len())[k] == out[rep.len() - 1]);
                    assert(pat[k] == rep.last());
                }
            }
        }
    } else {
        let t = s.drop_first();
        lemma_replace_removes(t, pat, rep);
        let r2 = replace_spec(t, pat, rep);
        assert(out == seq![s[0]] + r2);
        assert forall|i: int| !occurs_at(out, pat, i) by {
            if occurs_at(out, pat, i) {
                if i >= 1 {
                    assert(r2.subrange(i - 1, i - 1 + pat.len()) =~= out.subrange(i, i + pat.len()));
                    assert(occurs_at(r2, pat, i - 1));
                } else {
                    let q = pat.len() - 1;
                    assert forall|j: int| 0 <= j < q implies r2[j] != rep[0] by {
                        assert(out.subrange(0, pat.len() as int)[j + 1] == r2[j]);
                        assert(pat[j + 1] == r2[j]);
                    }
                    lemma_copied_prefix(t, pat, rep, q);
                    assert(s.subrange(0, pat.len() as int) =~= seq![s[0]] + t.subrange(0, q));
                    assert(out.subrange(0, pat.len() as int) =~= seq![s[0]] + r2.subrange(0, q));
                    assert(occurs_at(s, pat, 0));
                }
            }
        }
    }
}

fn occurs_at_exec(s: &Vec<char>, pat: &Vec<char>, i: usize) -> (r: bool)
    requires
        i <= s@.len(),
    ensures
        r == occurs_at(s@, pat@, i as int),
{
    let sl = s.len();
    if pat.len() > sl - i {
        return false;
    }
    let mut j: usize = 0;
    while j < pat.len()
        invariant
            sl == s@.len(),
            j <= pat@.len(),
            i <= s@.len(),
            i + pat@.len() <= s@.len(),
            forall|k: int| 0 <= k < j ==> s@[i + k] == pat@[k],
        decreases pat@.len() - j,
    {
        if s[i + j] != pat[j] {
            proof {
                assert(s@.subrange(i as int, i + pat@.len())[j as int] != pat@[j as int]);
            }
            return false;
        }
        j = j + 1;
    }
    proof {
        assert(s@.subrange(i as int, i + pat@.len()) =~= pat@);
    }
    true
}

/// `replace_empty` without its leading `rep`.
spec fn replace_empty_after(t: Seq<char>, rep: Seq<char>) -> Seq<char> {
    if t.len() == 0 {
        Seq::empty()
    } else {
        seq![t[0]] + replace_empty(t.drop_first(), rep)
    }
}

fn replace_empty_exec(cs: &Vec<char>, rep: &str) -> (r: String)
    ensures
        r@ == replace_empty(cs@, rep@),
{
    let mut out = string_of(rep);
    let mut i: usize = 0;
    proof {
        assert(cs@.subrange(0, cs@.len() as int) =~= cs@);
        if cs@.len() == 0 {
            assert(out@ + replace_empty_after(cs@, rep@) =~= replace_empty(cs@, rep@));
        } else {
            assert(out@ + replace_empty_after(cs@, rep@) =~= replace_empty(cs@, rep@));
        }
    }
    while i < cs.len()
        invariant
            i <= cs@.len(),
            out@ + replace_empty_after(cs@.subrange(i as int, cs@.len() as int), rep@) == replace_empty(cs@, rep@),
        decreases cs@.len() - i,
    {
        let ghost rest = cs@.subrange(i as int, cs@.len() as int);
        let ghost next = cs@.subrange(i + 1, cs@.len() as int);
        proof {
            assert(rest[0] == cs@[i as int]);
            assert(rest.drop_first() =~= next);
            assert(replace_empty(next, rep@) == rep@ + replace_empty_after(next, rep@)) by {
                if next.len() > 0 {
                    assert(replace_empty(next, rep@) =~= rep@ + replace_empty_after(next, rep@));
                } else {
                    assert(replace_empty(next, rep@) =~= rep@ + replace_empty_after(next, rep@));
                }
            }
            assert(out@.push(cs@[i as int]) + rep@ + replace_empty_after(next, rep@) =~= out@
                + replace_empty_after(rest, rep@));
        }
        push_char(&mut out, cs[i]);
        push_str(&mut out, rep);
        i = i + 1;
    }
    proof {
        assert(cs@.subrange(cs@.len() as int, cs@.len() as int) =~= Seq::<char>::empty());
        assert(out@ + Seq::<char>::empty() =~= out@);
    }
    out
}

/// Replaces every occurrence of `pat` in `s` by `rep`, as `str::replace`
/// does.
pub fn replace_all(s: &str, pat: &str, rep: &str) -> (r: String)
    ensures
        r@ == replace_spec(s@, pat@, rep@),
{
    let cs = chars_of(s);
    let ps = chars_of(pat);
    if ps.len() == 0 {
        return replace_empty_exec(&cs, rep);
    }
    let mut out = String::new();
    let mut i: usize = 0;
    proof {
        assert(cs@.subrange(0, cs@.len() as int) =~= cs@);
        assert(out@ + cs@ =~= cs@);
        assert(out@ + replace_spec(cs@, ps@, rep@) =~= replace_spec(cs@, ps@, rep@));
    }
    while i < cs.len()
        invariant
            i <= cs@.len(),
            ps@ == pat@,
            ps@.len() > 0,
            out@ + replace_spec(cs@.subrange(i as int, cs@.len() as int), ps@, rep@)
                == replace_spec(cs@, ps@, rep@),
        decreases cs@.len() - i,
    {
        let ghost rest = cs@.subrange(i as int, cs@.len() as int);
        if occurs_at_exec(&cs, &ps, i) {
            proof {
                assert(rest.subrange(0, ps@.len() as int) =~= cs@.subrange(i as int, i + ps@.len()));
                assert(occurs_at(rest, ps@, 0));
                assert(rest.subrange(ps@.len() as int, rest.len() as int) =~= cs@.subrange(
                    i + ps@.len(),
                    cs@.len() as int,
                ));
                assert((out@ + rep@) + replace_spec(
                    cs@.subrange(i + ps@.len(), cs@.len() as int),
                    ps@,
                    rep@,
                ) =~= out@ + replace_spec(rest, ps@, rep@));
            }
            push_str(&mut out, rep);
            i = i + ps.len();
        } else {
            proof {
                if occurs_at(rest, ps@, 0) {
                    assert(rest.subrange(0, ps@.len() as int) =~= cs@.subrange(
                        i as int,
                        i + ps@.len(),
                    ));
                }
                assert(rest.drop_first() =~= cs@.subrange(i + 1, cs@.len() as int));
                assert(rest[0] == cs@[i as int]);
                assert(out@.push(cs@[i as int]) + replace_spec(
                    cs@.subrange(i + 1, cs@.len() as int),
                    ps@,
                    rep@,
                ) =~= out@ + replace_spec(rest, ps@, rep@));
            }
            push_char(&mut out, cs[i]);
            i = i + 1;
        }
    }
    proof {
        assert(cs@.subrange(cs@.len() as int, cs@.len() as int) =~= Seq::<char>::empty());
        assert(out@ + Seq::<char>::empty() =~= out@);
    }
    out
}


// ── Character classes, trimming, searching ──────────────────────────────────

/// Unicode `White_Space`: tab through carriage return, space, U+0085,
/// U+00A0, U+1680, U+2000 through U+200A, U+2028, U+2029, U+202F, U+205F and
/// U+3000.
pub open spec fn is_white_space(c: char) -> bool {
    let n = c as u32;
    (0x9 <= n && n <= 0xd) || n == 0x20 || n == 0x85 || n == 0xa0 || n == 0x1680
        || (0x2000 <= n && n <= 0x200a) || n == 0x2028 || n == 0x2029 || n == 0x202f
        || n == 0x205f || n == 0x3000
}

/// Whether `c` is whitespace: the Unicode `White_Space` property, as std's
/// `char::is_whitespace` tests it.
pub(crate) fn char_is_whitespace(c: char) -> (r: bool)
    ensures
        r == is_white_space(c),
{
    let n = c as u32;
    (0x9 <= n && n <= 0xd) || n == 0x20 || n == 0x85 || n == 0xa0 || n == 0x1680 || (0x2000 <= n && n
        <= 0x200a) || n == 0x2028 || n == 0x2029 || n == 0x202f || n == 0x205f || n == 0x3000
}

/// Unicode `Alphabetic` or `Numeric` (the Unicode tables std's
/// `char::is_alphanumeric` consults).
pub uninterp spec fn unicode_alphanumeric(c: char) -> bool;

/// Whether `c` is alphanumeric (std's `char::is_alphanumeric`). Its result
/// is tied to `c` only through `unicode_alphanumeric`.
#[verifier::external_body]
pub(crate) fn char_is_alphanumeric(c: char) -> (r: bool)
    ensures
        r == unicode_alphanumeric(c),
{
    c.is_alphanumeric()
}

/// The Unicode lowercase mapping of a string (what std's `str::to_lowercase`
/// gives).
pub uninterp spec fn lowercase_text(s: Seq<char>) -> Seq<char>;

/// The lowercase form of `s` (std's `str::to_lowercase`). Its result is tied
/// to `s` only through `lowercase_text`.
#[verifier::external_body]
pub(crate) fn to_lowercase(s: &str) -> (r: String)
    ensures
        r@ == lowercase_text(s@),
{
    s.to_lowercase()
}

/// `s` without leading whitespace.
pub open spec fn trim_front(s: Seq<char>) -> Seq<char>
    decreases s.len(),
{
    if s.len() > 0 && is_white_space(s[0]) {
        trim_front(s.drop_first())
    } else {
        s
    }
}

/// `s` without trailing whitespace.
pub open spec fn trim_back(s: Seq<char>) -> Seq<char>
    decreases s.len(),
{
    if s.len() > 0 && is_white_space(s.last()) {
        trim_back(s.drop_last())
    } else {
        s
    }
}

/// `s` without leading and trailing whitespace (what `str::trim` gives).
pub open spec fn trim_text(s: Seq<char>) -> Seq<char> {
    trim_back(trim_front(s))
}

proof fn lemma_trim_front_start(s: Seq<char>)
    ensures
        trim_front(s).len() > 0 ==> !is_white_space(trim_front(s)[0]),
    decreases s.len(),
{
    if s.len() > 0 && is_white_space(s[0]) {
        lemma_trim_front_start(s.drop_first());
    }
}

proof fn lemma_trim_back_prefix(s: Seq<char>)
    ensures
        trim_back(s).len() <= s.len(),
        trim_back(s) == s.subrange(0, trim_back(s).len() as int),
        trim_back(s).len() > 0 ==> !is_white_space(trim_back(s).last()),
    decreases s.len(),
{
    if s.len() > 0 && is_white_space(s.last()) {
        lemma_trim_back_prefix(s.drop_last());
        let t = trim_back(s.drop_last());
        assert(s.drop_last().subrange(0, t.len() as int) =~= s.subrange(0, t.len() as int));
    } else {
        assert(s.subrange(0, s.len() as int) =~= s);
    }
}

/// Trimmed text neither starts nor ends with whitespace.
pub proof fn lemma_trim_edges(s: Seq<char>)
    ensures
        trim_text(s).len() > 0 ==> !is_white_space(trim_text(s)[0]) && !is_white_space(trim_text(s).last()),
{
    lemma_trim_front_start(s);
    lemma_trim_back_prefix(trim_front(s));
    let t = trim_text(s);
    if t.len() > 0 {
        assert(t[0] == trim_front(s).subrange(0, t.len() as int)[0]);
    }
}

/// `s` with leading and trailing whitespace removed.
pub fn trim(s: &str) -> (r: String)
    ensures
        r@ == trim_text(s@),
{
    let cs = chars_of(s);
    let n = cs.len();
    let mut i: usize = 0;
    proof {
        assert(cs@.subrange(0, n as int) =~= cs@);
    }
    while i < n && char_is_whitespace(cs[i])
        invariant
            n == cs@.len(),
            cs@ == s@,
            i <= n,
            trim_front(s@) == trim_front(cs@.subrange(i as int, n as int)),
        decreases n - i,
    {
        proof {
            let rest = cs@.subrange(i as int, n as int);
            assert(rest[0] == cs@[i as int]);
            assert(rest.drop_first() =~= cs@.subrange(i + 1, n as int));
        }
        i = i + 1;
    }
    proof {
        let rest = cs@.subrange(i as int, n as int);
        if i < n {
            assert(rest[0] == cs@[i as int]);
        }
        assert(trim_front(rest) == rest);
        assert(cs@.subrange(i as int, n as int).subrange(0, (n - i) as int) =~= rest);
    }
    let mut j: usize = n;
    while j > i && char_is_whitespace(cs[j - 1])
        invariant
            n == cs@.len(),
            cs@ == s@,
            i <= j <= n,
            trim_front(s@) == cs@.subrange(i as int, n as int),
            trim_text(s@) == trim_back(cs@.subrange(i as int, j as int)),
        decreases j - i,
    {
        proof {
            let part = cs@.subrange(i as int, j as int);
            assert(part.last() == cs@[j - 1]);
            assert(part.drop_last() =~= cs@.subrange(i as int, j - 1));
        }
        j = j - 1;
    }
    proof {
        let part = cs@.subrange(i as int, j as int);
        if j > i {
            assert(part.last() == cs@[j - 1]);
        }
        assert(trim_back(part) == part);
    }
    let mut out = String::new();
    let mut k: usize = i;
    while k < j
        invariant
            n == cs@.len(),
            i <= k <= j <= n,
            out@ == cs@.subrange(i as int, k as int),
        decreases j - k,
    {
        push_char(&mut out, cs[k]);
        proof {
            assert(cs@.subrange(i as int, k + 1) =~= cs@.subrange(i as int, k as int).push(cs@[k as int]));
        }
        k = k + 1;
    }
    out
}

/// `pat` occurs somewhere in `s`.
pub open spec fn contains_text(s: Seq<char>, pat: Seq<char>) -> bool {
    exists|i: int| occurs_at(s, pat, i)
}

/// Whether `pat` occurs in `s`.
pub fn contains(s: &str, pat: &str) -> (r: bool)
    ensures
        r == contains_text(s@, pat@),
{
    let cs = chars_of(s);
    let ps = chars_of(pat);
    let mut i: usize = 0;
    while i <= cs.len()
        invariant
            cs@ == s@,
            ps@ == pat@,
            i <= cs@.len() + 1,
            forall|k: int| 0 <= k < i ==> !occurs_at(s@, pat@, k),
        decreases cs@.len() + 1 - i,
    {
        if occurs_at_exec(&cs, &ps, i) {
            return true;
        }
        if i == cs.len() {
            proof {
                assert forall|k: int| occurs_at(s@, pat@, k) implies false by {
                    assert(k <= cs@.len());
                }
            }
            return false;
        }
        i = i + 1;
    }
    proof {
        assert forall|k: int| occurs_at(s@, pat@, k) implies false by {
            assert(k <= cs@.len());
        }
    }
    false
}

} // verus!
