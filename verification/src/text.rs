//! Text-level foundations: the canonical decimal rendering of integers, the
//! base-10 integer parse, the float-literal grammar, and separator-based
//! splitting and joining of character sequences.
use vstd::prelude::*;

verus! {

// ---------------------------------------------------------------------------
// Digits
// ---------------------------------------------------------------------------

/// Whether `c` is an ASCII decimal digit.
pub open spec fn is_digit(c: char) -> bool {
    48 <= c as u32 <= 57
}

/// The numeric value of an ASCII decimal digit.
pub open spec fn digit_val(c: char) -> nat {
    (c as u32 - 48) as nat
}

/// The ASCII digit character for a value below ten.
pub open spec fn digit_char(d: nat) -> char {
    if d == 0 { '0' }
    else if d == 1 { '1' }
    else if d == 2 { '2' }
    else if d == 3 { '3' }
    else if d == 4 { '4' }
    else if d == 5 { '5' }
    else if d == 6 { '6' }
    else if d == 7 { '7' }
    else if d == 8 { '8' }
    else { '9' }
}

/// Whether every character of `s` is an ASCII decimal digit.
pub open spec fn all_digits(s: Seq<char>) -> bool {
    forall|i: int| 0 <= i < s.len() ==> is_digit(#[trigger] s[i])
}

/// The value of a nonempty digit string, most significant digit first.
pub open spec fn digits_val(s: Seq<char>) -> nat
    decreases s.len(),
{
    if s.len() == 0 {
        0
    } else {
        digits_val(s.drop_last()) * 10 + digit_val(s.last())
    }
}

// ---------------------------------------------------------------------------
// Canonical decimal rendering of integers
// ---------------------------------------------------------------------------

/// The canonical digit string of a natural number: no leading zeros except
/// for zero itself.
pub open spec fn nat_to_digits(n: nat) -> Seq<char>
    decreases n,
{
    if n < 10 {
        seq![digit_char(n)]
    } else {
        nat_to_digits(n / 10) + seq![digit_char(n % 10)]
    }
}

/// The canonical decimal text of an integer: base-10 digits with a leading
/// minus sign for negative values.
pub open spec fn int_to_text(i: int) -> Seq<char> {
    if i >= 0 {
        nat_to_digits(i as nat)
    } else {
        seq!['-'] + nat_to_digits((-i) as nat)
    }
}

/// A one-character string slice holding the digit `d`.
fn digit_str(d: u64) -> (r: &'static str)
    requires
        d < 10,
    ensures
        r@ =~= seq![digit_char(d as nat)],
{
    proof {
        reveal_strlit("0");
        reveal_strlit("1");
        reveal_strlit("2");
        reveal_strlit("3");
        reveal_strlit("4");
        reveal_strlit("5");
        reveal_strlit("6");
        reveal_strlit("7");
        reveal_strlit("8");
        reveal_strlit("9");
    }
    match d {
        0 => "0",
        1 => "1",
        2 => "2",
        3 => "3",
        4 => "4",
        5 => "5",
        6 => "6",
        7 => "7",
        8 => "8",
        _ => "9",
    }
}

/// The concatenation of the views of `parts[i..]`, taken from the last part
/// down to `parts[i]`.
spec fn cat_down(parts: Seq<Seq<char>>, i: int) -> Seq<char>
    decreases parts.len() - i,
{
    if i < 0 || i >= parts.len() {
        Seq::empty()
    } else {
        cat_down(parts, i + 1) + parts[i]
    }
}

proof fn lemma_cat_down_push(parts: Seq<Seq<char>>, d: Seq<char>, i: int)
    requires
        0 <= i <= parts.len(),
    ensures
        cat_down(parts.push(d), i) == d + cat_down(parts, i),
    decreases parts.len() - i,
{
    if i == parts.len() {
        assert(cat_down(parts.push(d), i + 1) =~= Seq::<char>::empty());
        assert(parts.push(d)[i] == d);
        assert(cat_down(parts, i) =~= Seq::<char>::empty());
        assert(cat_down(parts.push(d), i) =~= d + cat_down(parts, i));
    } else {
        lemma_cat_down_push(parts, d, i + 1);
        assert(parts.push(d)[i] == parts[i]);
        assert(cat_down(parts.push(d), i) =~= d + cat_down(parts, i));
    }
}

/// Renders a natural number as its canonical decimal digit string.
pub fn render_u64(v: u64) -> (s: String)
    ensures
        s@ == nat_to_digits(v as nat),
{
    let mut m: u64 = v;
    let mut outv: Vec<&'static str> = Vec::new();
    let ghost mut collected: Seq<char> = Seq::empty();
    loop
        invariant
            collected == cat_down(outv@.map_values(|p: &'static str| p@), 0),
            nat_to_digits(v as nat) == if m > 0 || outv@.len() == 0 {
                nat_to_digits(m as nat) + collected
            } else {
                collected
            },
            m > 0 || outv@.len() == 0 || collected.len() > 0,
        ensures
            m == 0,
            outv@.len() > 0,
        decreases m, (if outv@.len() == 0 { 1int } else { 0int }),
    {
        if m == 0 && outv.len() > 0 {
            break;
        }
        let d: u64 = m % 10;
        let m2: u64 = m / 10;
        let ghost old_views = outv@.map_values(|p: &'static str| p@);
        let ds: &'static str = digit_str(d);
        outv.push(ds);
        proof {
            lemma_cat_down_push(old_views, seq![digit_char(d as nat)], 0);
            assert(outv@.map_values(|p: &'static str| p@)
                =~= old_views.push(seq![digit_char(d as nat)]));
            if m >= 10 {
                assert(nat_to_digits(m as nat)
                    == nat_to_digits((m as nat) / 10) + seq![digit_char((m as nat) % 10)]);
            }
            assert(m as nat % 10 == d as nat);
            assert(m as nat / 10 == m2 as nat);
            collected = seq![digit_char(d as nat)] + collected;
            assert(nat_to_digits(v as nat) == if m2 > 0 {
                nat_to_digits(m2 as nat) + collected
            } else {
                collected
            });
        }
        m = m2;
    }
    let mut s: String = String::new();
    let mut i: usize = outv.len();
    while i > 0
        invariant
            i <= outv@.len(),
            s@ == cat_down(outv@.map_values(|p: &'static str| p@), i as int),
        decreases i,
    {
        i = i - 1;
        s.append(outv[i]);
    }
    proof {
        assert(s@ == collected);
    }
    s
}

// ---------------------------------------------------------------------------
// Base-10 integer parse
// ---------------------------------------------------------------------------

/// Whether `s` starts with an explicit sign character.
pub open spec fn has_sign(s: Seq<char>) -> bool {
    s.len() > 0 && (s[0] == '+' || s[0] == '-')
}

/// Whether `s` starts with a minus sign.
pub open spec fn is_neg(s: Seq<char>) -> bool {
    s.len() > 0 && s[0] == '-'
}

/// `s` with an explicit leading sign removed.
pub open spec fn num_body(s: Seq<char>) -> Seq<char> {
    if has_sign(s) {
        s.skip(1)
    } else {
        s
    }
}

/// Whether `s` matches the signed base-10 integer grammar: an optional sign
/// followed by one or more decimal digits (range aside).
pub open spec fn is_int_text(s: Seq<char>) -> bool {
    num_body(s).len() > 0 && all_digits(num_body(s))
}

/// The 64-bit signed integer denoted by `s`, if `s` matches the signed
/// base-10 integer grammar and its value is in range; `None` otherwise.
pub open spec fn int_of_text(s: Seq<char>) -> Option<i64> {
    if !is_int_text(s) {
        None
    } else {
        let sv = if is_neg(s) {
            -(digits_val(num_body(s)) as int)
        } else {
            digits_val(num_body(s)) as int
        };
        if i64::MIN <= sv <= i64::MAX {
            Some(sv as i64)
        } else {
            None
        }
    }
}

/// The digit value of `c`, where `None` means `c` is no decimal digit.
fn char_digit(c: char) -> (r: Option<u64>)
    ensures
        r is Some <==> is_digit(c),
        r is Some ==> r->Some_0 == digit_val(c) && r->Some_0 < 10,
{
    match c {
        '0' => Some(0),
        '1' => Some(1),
        '2' => Some(2),
        '3' => Some(3),
        '4' => Some(4),
        '5' => Some(5),
        '6' => Some(6),
        '7' => Some(7),
        '8' => Some(8),
        '9' => Some(9),
        _ => None,
    }
}

proof fn lemma_digits_val_take_step(s: Seq<char>, k: int)
    requires
        0 <= k < s.len(),
    ensures
        digits_val(s.take(k + 1)) == digits_val(s.take(k)) * 10 + digit_val(s[k]),
{
    assert(s.take(k + 1).drop_last() =~= s.take(k));
    assert(s.take(k + 1).last() == s[k]);
}

proof fn lemma_digits_val_prefix(s: Seq<char>, k: int)
    requires
        0 <= k <= s.len(),
    ensures
        digits_val(s.take(k)) <= digits_val(s),
    decreases s.len() - k,
{
    if k == s.len() {
        assert(s.take(k) =~= s);
    } else {
        lemma_digits_val_take_step(s, k);
        assert(digits_val(s.take(k)) * 10 >= digits_val(s.take(k))) by (nonlinear_arith);
        lemma_digits_val_prefix(s, k + 1);
    }
}

/// Parses `s` as a signed base-10 64-bit integer: `Some` exactly when `s` is
/// an optional sign followed by one or more decimal digits and the value
/// fits in 64 signed bits.
pub fn parse_int(s: &str) -> (r: Option<i64>)
    ensures
        r == int_of_text(s@),
{
    let n: usize = s.unicode_len();
    if n == 0 {
        return None;
    }
    let c0: char = s.get_char(0);
    let neg: bool = c0 == '-';
    let start: usize = if c0 == '-' || c0 == '+' { 1 } else { 0 };
    proof {
        if start == 1 {
            assert(num_body(s@) =~= s@.skip(1));
        } else {
            assert(num_body(s@) =~= s@);
        }
    }
    if start == n {
        return None;
    }
    let ghost body = num_body(s@);
    let mut i: usize = start;
    let mut acc: u64 = 0;
    let bound: u64 = 9223372036854775808;
    while i < n
        invariant
            start <= i <= n,
            n == s@.len(),
            body == num_body(s@),
            body =~= s@.skip(start as int),
            start == 0 || start == 1,
            neg == is_neg(s@),
            all_digits(s@.subrange(start as int, i as int)),
            acc == digits_val(s@.subrange(start as int, i as int)),
            acc <= bound,
            bound == 0x8000_0000_0000_0000u64,
        decreases n - i,
    {
        let c: char = s.get_char(i);
        let ghost prefix = s@.subrange(start as int, i as int);
        proof {
            assert(body.take(i - start) =~= prefix);
            assert(body.take(i + 1 - start) =~= s@.subrange(start as int, i + 1));
            assert(body[i - start] == s@[i as int]);
        }
        let d: u64 = match char_digit(c) {
            Some(d) => d,
            None => {
                proof {
                    assert(!is_digit(body[i - start]));
                    assert(!all_digits(body));
                }
                return None;
            },
        };
        let big: u128 = acc as u128 * 10 + d as u128;
        proof {
            lemma_digits_val_take_step(body, i - start);
            assert(digits_val(body.take(i + 1 - start)) == acc * 10 + d);
        }
        if big > bound as u128 {
            proof {
                lemma_digits_val_prefix(body, i + 1 - start);
                assert(digits_val(body) >= acc * 10 + d);
                assert(digits_val(body) > 0x8000_0000_0000_0000u64);
            }
            return None;
        }
        acc = big as u64;
        i = i + 1;
    }
    proof {
        assert(s@.subrange(start as int, n as int) =~= body);
        assert(acc == digits_val(body));
        assert(all_digits(body));
        assert(body.len() > 0);
    }
    if neg {
        let v: i64 = (-(acc as i128)) as i64;
        Some(v)
    } else {
        if acc == bound {
            return None;
        }
        Some(acc as i64)
    }
}

proof fn lemma_nat_to_digits_wf(n: nat)
    ensures
        nat_to_digits(n).len() >= 1,
        all_digits(nat_to_digits(n)),
        digits_val(nat_to_digits(n)) == n,
        is_digit(nat_to_digits(n)[0]),
    decreases n,
{
    if n < 10 {
        let t = nat_to_digits(n);
        assert(t == seq![digit_char(n)]);
        assert(digits_val(t) == digits_val(t.drop_last()) * 10 + digit_val(t.last()));
        assert(t.drop_last() =~= Seq::<char>::empty());
        assert(digit_val(digit_char(n)) == n);
    } else {
        lemma_nat_to_digits_wf(n / 10);
        let a = nat_to_digits(n / 10);
        let t = nat_to_digits(n);
        assert(t == a + seq![digit_char(n % 10)]);
        assert(t.drop_last() =~= a);
        assert(t.last() == digit_char(n % 10));
        assert(digit_val(digit_char(n % 10)) == n % 10);
        assert(digits_val(t) == (n / 10) * 10 + n % 10);
        assert((n / 10) * 10 + n % 10 == n) by (nonlinear_arith);
        assert(forall|i: int| 0 <= i < t.len() ==> is_digit(#[trigger] t[i]));
    }
}

/// The canonical decimal text of any 64-bit signed integer parses back to
/// exactly that integer.
pub proof fn lemma_int_text_round_trip(v: i64)
    ensures
        int_of_text(int_to_text(v as int)) == Some(v),
{
    if v >= 0 {
        let t = int_to_text(v as int);
        lemma_nat_to_digits_wf(v as nat);
        assert(t == nat_to_digits(v as nat));
        assert(is_digit(t[0]));
        assert(t[0] as u32 != 43 && t[0] as u32 != 45);
        assert(!has_sign(t));
        assert(num_body(t) == t);
        assert(int_of_text(t) == Some(v));
    } else {
        let t = int_to_text(v as int);
        let m = (-(v as int)) as nat;
        lemma_nat_to_digits_wf(m);
        assert(t == seq!['-'] + nat_to_digits(m));
        assert(t[0] == '-');
        assert(has_sign(t));
        assert(is_neg(t));
        assert(num_body(t) =~= nat_to_digits(m));
        assert(int_of_text(t) == Some(v));
    }
}

// ---------------------------------------------------------------------------
// Float-literal grammar
//
// A text denotes a 64-bit float when it matches, after an optional sign:
// one of the keywords `inf`, `infinity`, `nan` (case-insensitive), or a
// number: digits with at most one decimal point and at least one digit,
// optionally followed by `e`/`E`, an optional sign and one or more digits.
// Parsing a matching text never fails (out-of-range values round to
// infinity), so the grammar alone decides whether a cast to float succeeds.
// ---------------------------------------------------------------------------

/// Case-insensitive match of one character against a lowercase letter.
pub open spec fn ic(c: char, lo: char, up: char) -> bool {
    c == lo || c == up
}

/// Whether `b` is one of the float keywords, case-insensitively.
pub open spec fn is_special_float(b: Seq<char>) -> bool {
    ||| (b.len() == 3 && ic(b[0], 'i', 'I') && ic(b[1], 'n', 'N') && ic(b[2], 'f', 'F'))
    ||| (b.len() == 8 && ic(b[0], 'i', 'I') && ic(b[1], 'n', 'N') && ic(b[2], 'f', 'F')
        && ic(b[3], 'i', 'I') && ic(b[4], 'n', 'N') && ic(b[5], 'i', 'I')
        && ic(b[6], 't', 'T') && ic(b[7], 'y', 'Y'))
    ||| (b.len() == 3 && ic(b[0], 'n', 'N') && ic(b[1], 'a', 'A') && ic(b[2], 'n', 'N'))
}

/// Whether `c` is an exponent marker.
pub open spec fn is_e(c: char) -> bool {
    c == 'e' || c == 'E'
}

/// Whether `m` is a valid mantissa: nonempty, made of digits and at most one
/// decimal point, with at least one digit.
pub open spec fn is_mantissa(m: Seq<char>) -> bool {
    &&& m.len() > 0
    &&& (forall|i: int| 0 <= i < m.len() ==> is_digit(#[trigger] m[i]) || m[i] == '.')
    &&& (exists|i: int| 0 <= i < m.len() && is_digit(#[trigger] m[i]))
    &&& (forall|i: int, j: int|
        0 <= i < j < m.len() && #[trigger] m[i] == '.' ==> #[trigger] m[j] != '.')
}

/// Whether no character of `s` is an exponent marker.
pub open spec fn no_e(s: Seq<char>) -> bool {
    forall|i: int| 0 <= i < s.len() ==> !is_e(#[trigger] s[i])
}

/// Whether `b` splits at position `k` into a mantissa, an exponent marker
/// and a valid exponent, with `k` the first marker position.
pub open spec fn e_split_ok(b: Seq<char>, k: int) -> bool {
    &&& 0 <= k < b.len()
    &&& is_e(b[k])
    &&& no_e(b.take(k))
    &&& is_mantissa(b.take(k))
    &&& is_int_text(b.skip(k + 1))
}

/// Whether `b` is a valid float number body (no keyword, sign removed).
pub open spec fn is_float_number(b: Seq<char>) -> bool {
    if no_e(b) {
        is_mantissa(b)
    } else {
        exists|k: int| e_split_ok(b, k)
    }
}

/// Whether `s` denotes a 64-bit float: after an optional sign, a float
/// keyword or a valid float number.
pub open spec fn is_float_text(s: Seq<char>) -> bool {
    is_special_float(num_body(s)) || is_float_number(num_body(s))
}

fn check_all_digits(s: &str, lo: usize, hi: usize) -> (r: bool)
    requires
        lo <= hi <= s@.len(),
    ensures
        r == all_digits(s@.subrange(lo as int, hi as int)),
{
    let ghost m = s@.subrange(lo as int, hi as int);
    let mut i: usize = lo;
    while i < hi
        invariant
            lo <= i <= hi <= s@.len(),
            m == s@.subrange(lo as int, hi as int),
            forall|j: int| lo <= j < i ==> is_digit(#[trigger] s@[j]),
        decreases hi - i,
    {
        let c: char = s.get_char(i);
        if char_digit(c).is_none() {
            proof {
                assert(m[i - lo] == s@[i as int]);
                assert(!is_digit(m[i - lo]));
            }
            return false;
        }
        i = i + 1;
    }
    proof {
        assert(forall|t: int| 0 <= t < m.len() ==> #[trigger] m[t] == s@[lo + t]);
    }
    true
}

fn check_exp(s: &str, lo: usize, hi: usize) -> (r: bool)
    requires
        lo <= hi <= s@.len(),
    ensures
        r == is_int_text(s@.subrange(lo as int, hi as int)),
{
    let ghost x = s@.subrange(lo as int, hi as int);
    if lo == hi {
        return false;
    }
    let c0: char = s.get_char(lo);
    let start: usize = if c0 == '-' || c0 == '+' { lo + 1 } else { lo };
    proof {
        assert(x[0] == s@[lo as int]);
        if start == lo + 1 {
            assert(num_body(x) =~= s@.subrange(start as int, hi as int));
        } else {
            assert(num_body(x) =~= s@.subrange(start as int, hi as int));
        }
    }
    if start == hi {
        return false;
    }
    check_all_digits(s, start, hi)
}

fn check_mantissa(s: &str, lo: usize, hi: usize) -> (r: bool)
    requires
        lo <= hi <= s@.len(),
    ensures
        r == is_mantissa(s@.subrange(lo as int, hi as int)),
{
    let ghost m = s@.subrange(lo as int, hi as int);
    proof {
        assert(forall|t: int| 0 <= t < m.len() ==> #[trigger] m[t] == s@[lo + t]);
    }
    if lo == hi {
        return false;
    }
    let mut i: usize = lo;
    let mut digit_seen: bool = false;
    let mut dot_seen: bool = false;
    while i < hi
        invariant
            lo <= i <= hi <= s@.len(),
            m == s@.subrange(lo as int, hi as int),
            forall|t: int| 0 <= t < m.len() ==> #[trigger] m[t] == s@[lo + t],
            forall|j: int| lo <= j < i ==> is_digit(#[trigger] s@[j]) || s@[j] == '.',
            digit_seen == exists|j: int| lo <= j < i && is_digit(#[trigger] s@[j]),
            dot_seen == exists|j: int| lo <= j < i && #[trigger] s@[j] == '.',
            forall|p: int, q: int|
                lo <= p < q < i && #[trigger] s@[p] == '.' ==> #[trigger] s@[q] != '.',
        decreases hi - i,
    {
        let c: char = s.get_char(i);
        if c == '.' {
            if dot_seen {
                proof {
                    let j = choose|j: int| lo <= j < i && #[trigger] s@[j] == '.';
                    assert(m[j - lo] == '.' && m[i - lo] == '.');
                    assert(!is_mantissa(m));
                }
                return false;
            }
            dot_seen = true;
        } else if char_digit(c).is_some() {
            digit_seen = true;
        } else {
            proof {
                assert(m[i - lo] == s@[i as int]);
                assert(!(is_digit(m[i - lo]) || m[i - lo] == '.'));
            }
            return false;
        }
        i = i + 1;
    }
    proof {
        assert(m.len() > 0);
        if digit_seen {
            let j = choose|j: int| lo <= j < hi && is_digit(#[trigger] s@[j]);
            assert(m[j - lo] == s@[j]);
            assert(is_digit(m[j - lo]));
            assert forall|p: int, q: int|
                0 <= p < q < m.len() && #[trigger] m[p] == '.' implies #[trigger] m[q] != '.' by {
                assert(m[p] == s@[lo + p]);
                assert(m[q] == s@[lo + q]);
            }
            assert(is_mantissa(m));
        } else {
            assert forall|t: int| 0 <= t < m.len() implies !is_digit(#[trigger] m[t]) by {
                assert(m[t] == s@[lo + t]);
            }
            assert(!is_mantissa(m));
        }
    }
    digit_seen
}

fn check_special(s: &str, lo: usize, hi: usize) -> (r: bool)
    requires
        lo <= hi <= s@.len(),
    ensures
        r == is_special_float(s@.subrange(lo as int, hi as int)),
{
    let ghost b = s@.subrange(lo as int, hi as int);
    proof {
        assert(forall|t: int| 0 <= t < b.len() ==> #[trigger] b[t] == s@[lo + t]);
    }
    let len: usize = hi - lo;
    if len == 3 {
        let c0: char = s.get_char(lo);
        let c1: char = s.get_char(lo + 1);
        let c2: char = s.get_char(lo + 2);
        let inf: bool = (c0 == 'i' || c0 == 'I') && (c1 == 'n' || c1 == 'N')
            && (c2 == 'f' || c2 == 'F');
        let nan: bool = (c0 == 'n' || c0 == 'N') && (c1 == 'a' || c1 == 'A')
            && (c2 == 'n' || c2 == 'N');
        inf || nan
    } else if len == 8 {
        let c0: char = s.get_char(lo);
        let c1: char = s.get_char(lo + 1);
        let c2: char = s.get_char(lo + 2);
        let c3: char = s.get_char(lo + 3);
        let c4: char = s.get_char(lo + 4);
        let c5: char = s.get_char(lo + 5);
        let c6: char = s.get_char(lo + 6);
        let c7: char = s.get_char(lo + 7);
        (c0 == 'i' || c0 == 'I') && (c1 == 'n' || c1 == 'N') && (c2 == 'f' || c2 == 'F')
            && (c3 == 'i' || c3 == 'I') && (c4 == 'n' || c4 == 'N')
            && (c5 == 'i' || c5 == 'I') && (c6 == 't' || c6 == 'T')
            && (c7 == 'y' || c7 == 'Y')
    } else {
        false
    }
}

/// Decides whether `s` denotes a 64-bit float, per the float-literal
/// grammar above.
#[verifier::rlimit(60)]
pub fn check_float_text(s: &str) -> (r: bool)
    ensures
        r == is_float_text(s@),
{
    let n: usize = s.unicode_len();
    let start: usize = if n > 0 {
        let c0: char = s.get_char(0);
        if c0 == '-' || c0 == '+' { 1 } else { 0 }
    } else {
        0
    };
    let ghost b = num_body(s@);
    proof {
        assert(b =~= s@.subrange(start as int, n as int));
        assert(forall|t: int| 0 <= t < b.len() ==> #[trigger] b[t] == s@[start + t]);
    }
    if check_special(s, start, n) {
        return true;
    }
    // find the first exponent marker in the body, if any
    let mut k: usize = start;
    while k < n
        invariant
            start <= k <= n,
            n == s@.len(),
            forall|j: int| start <= j < k ==> !is_e(#[trigger] s@[j]),
        ensures
            start <= k <= n,
            forall|j: int| start <= j < k ==> !is_e(#[trigger] s@[j]),
            k < n ==> is_e(s@[k as int]),
        decreases n - k,
    {
        let c: char = s.get_char(k);
        if c == 'e' || c == 'E' {
            break;
        }
        k = k + 1;
    }
    if k == n {
        proof {
            assert(no_e(b));
        }
        check_mantissa(s, start, n)
    } else {
        proof {
            assert(is_e(b[k - start]));
            assert(!no_e(b));
        }
        let mant_ok: bool = check_mantissa(s, start, k);
        let exp_ok: bool = check_exp(s, k + 1, n);
        proof {
            assert(b.take(k - start) =~= s@.subrange(start as int, k as int));
            assert(b.skip(k - start + 1) =~= s@.subrange(k + 1, n as int));
            assert(no_e(b.take(k - start)));
            if mant_ok && exp_ok {
                assert(e_split_ok(b, k - start));
            } else {
                assert forall|k2: int| !e_split_ok(b, k2) by {
                    if e_split_ok(b, k2) {
                        if k2 < k - start {
                            assert(is_e(b[k2]));
                            assert(b[k2] == s@[start + k2]);
                        } else if k2 > k - start {
                            assert(no_e(b.take(k2)));
                            assert(b.take(k2)[k - start] == b[k - start]);
                        } else {
                            assert(!(is_mantissa(b.take(k2)) && is_int_text(b.skip(k2 + 1))));
                        }
                    }
                }
            }
        }
        mant_ok && exp_ok
    }
}

/// Whether every text in `cells` parses as a 64-bit signed integer.
pub open spec fn all_int(cells: Seq<Seq<char>>) -> bool {
    forall|i: int| 0 <= i < cells.len() ==> int_of_text(#[trigger] cells[i]) is Some
}

/// Whether every text in `cells` matches the float-literal grammar.
pub open spec fn all_float(cells: Seq<Seq<char>>) -> bool {
    forall|i: int| 0 <= i < cells.len() ==> is_float_text(#[trigger] cells[i])
}

// ---------------------------------------------------------------------------
// Splitting and joining on a separator character
// ---------------------------------------------------------------------------

/// The index of the first occurrence of `sep` in `s`, or a negative value
/// when `sep` does not occur.
pub open spec fn first_idx(s: Seq<char>, sep: char) -> int
    decreases s.len(),
{
    if s.len() == 0 {
        -1
    } else if s[0] == sep {
        0
    } else if first_idx(s.skip(1), sep) < 0 {
        -1
    } else {
        first_idx(s.skip(1), sep) + 1
    }
}

proof fn lemma_first_idx(s: Seq<char>, sep: char)
    ensures
        first_idx(s, sep) >= 0 ==> first_idx(s, sep) < s.len() && s[first_idx(s, sep)] == sep
            && (forall|j: int| 0 <= j < first_idx(s, sep) ==> s[j] != sep),
        first_idx(s, sep) < 0 ==> forall|j: int| 0 <= j < s.len() ==> s[j] != sep,
    decreases s.len(),
{
    if s.len() == 0 {
    } else if s[0] == sep {
    } else {
        lemma_first_idx(s.skip(1), sep);
        let r = first_idx(s.skip(1), sep);
        if r >= 0 {
            assert(s.skip(1)[r] == s[r + 1]);
            assert forall|j: int| 0 <= j < r + 1 implies s[j] != sep by {
                if j > 0 {
                    assert(s.skip(1)[j - 1] == s[j]);
                }
            }
        } else {
            assert forall|j: int| 0 <= j < s.len() implies s[j] != sep by {
                if j > 0 {
                    assert(s.skip(1)[j - 1] == s[j]);
                }
            }
        }
    }
}

/// `s` split at every occurrence of `sep`: always one more part than there
/// are separators, parts in order and possibly empty.
pub open spec fn split_seq(s: Seq<char>, sep: char) -> Seq<Seq<char>>
    decreases s.len(),
    via split_seq_decreases
{
    if first_idx(s, sep) < 0 {
        seq![s]
    } else {
        seq![s.take(first_idx(s, sep))] + split_seq(s.skip(first_idx(s, sep) + 1), sep)
    }
}

#[via_fn]
proof fn split_seq_decreases(s: Seq<char>, sep: char) {
    lemma_first_idx(s, sep);
}

/// `parts` joined with `sep` between consecutive parts.
pub open spec fn join_seq(parts: Seq<Seq<char>>, sep: char) -> Seq<char>
    decreases parts.len(),
{
    if parts.len() == 0 {
        Seq::empty()
    } else if parts.len() == 1 {
        parts[0]
    } else {
        parts[0] + seq![sep] + join_seq(parts.skip(1), sep)
    }
}

proof fn lemma_first_idx_concat(a: Seq<char>, sep: char, b: Seq<char>)
    requires
        forall|j: int| 0 <= j < a.len() ==> a[j] != sep,
    ensures
        first_idx(a + seq![sep] + b, sep) == a.len(),
    decreases a.len(),
{
    let s = a + seq![sep] + b;
    if a.len() == 0 {
        assert(s[0] == sep);
    } else {
        assert(s[0] == a[0]);
        assert(s.skip(1) =~= a.skip(1) + seq![sep] + b);
        assert(forall|j: int| 0 <= j < a.skip(1).len() ==> a.skip(1)[j] == a[j + 1]);
        lemma_first_idx_concat(a.skip(1), sep, b);
    }
}

proof fn lemma_split_concat(a: Seq<char>, sep: char, b: Seq<char>)
    requires
        forall|j: int| 0 <= j < a.len() ==> a[j] != sep,
    ensures
        split_seq(a + seq![sep] + b, sep) == seq![a] + split_seq(b, sep),
{
    let s = a + seq![sep] + b;
    lemma_first_idx_concat(a, sep, b);
    assert(s.take(a.len() as int) =~= a);
    assert(s.skip(a.len() as int + 1) =~= b);
}

proof fn lemma_split_no_sep(s: Seq<char>, sep: char)
    requires
        forall|j: int| 0 <= j < s.len() ==> s[j] != sep,
    ensures
        split_seq(s, sep) == seq![s],
{
    lemma_first_idx(s, sep);
    if first_idx(s, sep) >= 0 {
        assert(s[first_idx(s, sep)] == sep);
    }
}

/// One unfolding step of `join_seq` from position `c`.
pub proof fn lemma_join_skip(parts: Seq<Seq<char>>, sep: char, c: int)
    requires
        0 <= c < parts.len(),
    ensures
        join_seq(parts.skip(c), sep) == if c == parts.len() - 1 {
            parts[c]
        } else {
            parts[c] + seq![sep] + join_seq(parts.skip(c + 1), sep)
        },
{
    assert(parts.skip(c).len() == parts.len() - c);
    assert(parts.skip(c)[0] == parts[c]);
    if c < parts.len() - 1 {
        assert(parts.skip(c).skip(1) =~= parts.skip(c + 1));
    }
}

/// A split always yields at least one part.
pub proof fn lemma_split_seq_len(s: Seq<char>, sep: char)
    ensures
        split_seq(s, sep).len() >= 1,
        split_seq(s, sep).len() == 1 ==> split_seq(s, sep)[0] == s,
    decreases s.len(),
{
    lemma_first_idx(s, sep);
    if first_idx(s, sep) >= 0 {
        lemma_split_seq_len(s.skip(first_idx(s, sep) + 1), sep);
    }
}

/// Joining parts that are free of the separator and splitting the result
/// gives the parts back unchanged.
pub proof fn lemma_split_join(parts: Seq<Seq<char>>, sep: char)
    requires
        parts.len() >= 1,
        forall|i: int, j: int|
            0 <= i < parts.len() && 0 <= j < parts[i].len() ==> #[trigger] parts[i][j] != sep,
    ensures
        split_seq(join_seq(parts, sep), sep) == parts,
    decreases parts.len(),
{
    if parts.len() == 1 {
        lemma_split_no_sep(parts[0], sep);
        assert(split_seq(join_seq(parts, sep), sep) =~= parts);
    } else {
        let rest = parts.skip(1);
        assert(forall|i: int, j: int|
            0 <= i < rest.len() && 0 <= j < rest[i].len() ==> #[trigger] rest[i][j] != sep);
        lemma_split_join(rest, sep);
        lemma_split_concat(parts[0], sep, join_seq(rest, sep));
        assert(split_seq(join_seq(parts, sep), sep) =~= parts);
    }
}

/// Splits `s` at every occurrence of `sep`, returning the parts in order.
pub fn split_str(s: &str, sep: char) -> (parts: Vec<String>)
    ensures
        parts@.map_values(|p: String| p@) == split_seq(s@, sep),
{
    let n: usize = s.unicode_len();
    let mut parts: Vec<String> = Vec::new();
    let mut start: usize = 0;
    let mut i: usize = 0;
    proof {
        assert(parts@.map_values(|p: String| p@) =~= Seq::<Seq<char>>::empty());
        assert(s@.skip(0) =~= s@);
        assert(Seq::<Seq<char>>::empty() + split_seq(s@, sep) =~= split_seq(s@, sep));
    }
    while i < n
        invariant
            start <= i <= n,
            n == s@.len(),
            split_seq(s@, sep) == parts@.map_values(|p: String| p@)
                + split_seq(s@.skip(start as int), sep),
            forall|j: int| start <= j < i ==> s@[j] != sep,
        decreases n - i,
    {
        let c: char = s.get_char(i);
        if c == sep {
            let ghost old_views = parts@.map_values(|p: String| p@);
            let ghost a = s@.subrange(start as int, i as int);
            let piece: String = s.substring_char(start, i).to_owned();
            parts.push(piece);
            proof {
                assert(forall|j: int| 0 <= j < a.len() ==> a[j] == s@[start + j]);
                assert(s@.skip(start as int) =~= a + seq![sep] + s@.skip(i + 1));
                lemma_split_concat(a, sep, s@.skip(i + 1));
                assert(parts@.map_values(|p: String| p@) =~= old_views.push(a));
                assert(old_views.push(a) =~= old_views + seq![a]);
                assert(parts@.map_values(|p: String| p@) + split_seq(s@.skip(i + 1), sep)
                    =~= old_views + (seq![a] + split_seq(s@.skip(i + 1), sep)));
            }
            start = i + 1;
        }
        i = i + 1;
    }
    let ghost old_views = parts@.map_values(|p: String| p@);
    let ghost a = s@.subrange(start as int, n as int);
    let piece: String = s.substring_char(start, n).to_owned();
    parts.push(piece);
    proof {
        assert(a =~= s@.skip(start as int));
        assert(forall|j: int| 0 <= j < a.len() ==> a[j] == s@[start + j]);
        lemma_split_no_sep(a, sep);
        assert(parts@.map_values(|p: String| p@) =~= old_views.push(a));
        assert(old_views.push(a) =~= old_views + seq![a]);
    }
    parts
}

// ---------------------------------------------------------------------------
// Right justification
// ---------------------------------------------------------------------------

/// `n` space characters.
pub open spec fn spaces(n: nat) -> Seq<char>
    decreases n,
{
    if n == 0 {
        Seq::empty()
    } else {
        spaces((n - 1) as nat) + seq![' ']
    }
}

/// `s` right-justified to width `w` with spaces; unchanged when already as
/// wide.
pub open spec fn pad_left(s: Seq<char>, w: nat) -> Seq<char> {
    if s.len() >= w {
        s
    } else {
        spaces((w - s.len()) as nat) + s
    }
}

/// Right-justifies `s` to width `w` with spaces.
pub fn pad_left_str(s: &str, w: usize) -> (r: String)
    ensures
        r@ == pad_left(s@, w as nat),
{
    proof {
        reveal_strlit(" ");
    }
    let len: usize = s.unicode_len();
    let mut r: String = String::new();
    if len < w {
        let gap: usize = w - len;
        let mut j: usize = 0;
        while j < gap
            invariant
                j <= gap,
                r@ == spaces(j as nat),
            decreases gap - j,
        {
            r.append(" ");
            proof {
                reveal_strlit(" ");
                assert(" "@ =~= seq![' ']);
                assert(spaces((j + 1) as nat) == spaces(j as nat) + seq![' ']);
                assert(r@ =~= spaces((j + 1) as nat));
            }
            j = j + 1;
        }
    }
    r.append(s);
    proof {
        assert(r@ == pad_left(s@, w as nat));
    }
    r
}

/// Any valid integer text is also a valid float text.
pub proof fn lemma_int_text_is_float_text(s: Seq<char>)
    requires
        is_int_text(s),
    ensures
        is_float_text(s),
{
    let b = num_body(s);
    assert(forall|i: int| 0 <= i < b.len() ==> is_digit(#[trigger] b[i]));
    assert(is_digit(b[0]));
    assert(forall|i: int| 0 <= i < b.len() ==> !is_e(#[trigger] b[i]));
    assert(no_e(b));
    assert(is_mantissa(b));
}

/// Renders a signed integer as its canonical decimal text.
pub fn render_int(v: i64) -> (s: String)
    ensures
        s@ == int_to_text(v as int),
{
    if v >= 0 {
        render_u64(v as u64)
    } else {
        proof {
            reveal_strlit("-");
        }
        let mag: u64 = (-(v as i128)) as u64;
        let mut s: String = String::new();
        s.append("-");
        let digits: String = render_u64(mag);
        s.append(digits.as_str());
        proof {
            assert(s@ =~= int_to_text(v as int));
        }
        s
    }
}

} // verus!
