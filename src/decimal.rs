use vstd::prelude::*;

verus! {

/// The character of the decimal digit `d`.
pub open spec fn digit_char(d: nat) -> char {
    ((48 + d) as u8) as char
}

pub open spec fn is_digit(c: char) -> bool {
    '0' <= c && c <= '9'
}

/// The decimal digits of `n`, left-padded with zeros to at least `w` characters.
pub open spec fn padded_decimal(n: nat, w: nat) -> Seq<char>
    decreases n + w,
{
    if n < 10 && w <= 1 {
        seq![digit_char(n)]
    } else {
        padded_decimal(n / 10, if w > 0 { (w - 1) as nat } else { 0 }).push(digit_char(n % 10))
    }
}

/// The shortest decimal form of `n`.
pub open spec fn decimal(n: nat) -> Seq<char> {
    padded_decimal(n, 0)
}

/// The number that a string of digits denotes.
pub open spec fn digits_value(s: Seq<char>) -> nat
    decreases s.len(),
{
    if s.len() == 0 {
        0
    } else {
        digits_value(s.drop_last()) * 10 + ((s.last() as u32 - 48) as nat)
    }
}

pub open spec fn all_digits(s: Seq<char>) -> bool {
    forall|k: int| 0 <= k < s.len() ==> is_digit(#[trigger] s[k])
}

pub proof fn lemma_padded_decimal(n: nat, w: nat)
    ensures
        padded_decimal(n, w).len() >= 1,
        padded_decimal(n, w).len() >= w,
        all_digits(padded_decimal(n, w)),
        digits_value(padded_decimal(n, w)) == n,
    decreases n + w,
{
    if n < 10 && w <= 1 {
        assert(digit_char(n) as u32 == 48 + n);
        assert(seq![digit_char(n)].drop_last() =~= Seq::<char>::empty());
        assert(digits_value(Seq::<char>::empty()) == 0);
        assert(digits_value(seq![digit_char(n)]) == n);
    } else {
        let w1: nat = if w > 0 { (w - 1) as nat } else { 0 };
        lemma_padded_decimal(n / 10, w1);
        let p = padded_decimal(n / 10, w1);
        assert(digit_char(n % 10) as u32 == 48 + n % 10);
        assert(n == (n / 10) * 10 + n % 10) by (nonlinear_arith);
        assert(padded_decimal(n, w).last() == digit_char(n % 10));
        let q = padded_decimal(n, w);
        assert(digits_value(q) == digits_value(q.drop_last()) * 10 + ((q.last() as u32 - 48) as nat));
        assert(padded_decimal(n, w).drop_last() == p);
        assert forall|k: int| 0 <= k < padded_decimal(n, w).len() implies is_digit(
            #[trigger] padded_decimal(n, w)[k],
        ) by {
            if k < p.len() {
                assert(padded_decimal(n, w)[k] == p[k]);
            }
        }
    }
}

/// A value fits in `w` digits exactly when its padded form has length `w`.
pub proof fn lemma_padded_len(n: nat, w: nat)
    requires
        w >= 1,
        n < pow10(w),
    ensures
        padded_decimal(n, w).len() == w,
    decreases w,
{
    if n < 10 && w <= 1 {
    } else {
        assert(n / 10 < pow10((w - 1) as nat)) by (nonlinear_arith)
            requires
                n < pow10(w),
                pow10(w) == 10 * pow10((w - 1) as nat),
        ;
        if w >= 2 {
            lemma_padded_len(n / 10, (w - 1) as nat);
        }
    }
}

pub open spec fn pow10(w: nat) -> nat
    decreases w,
{
    if w == 0 {
        1
    } else {
        10 * pow10((w - 1) as nat)
    }
}

/// Two digit strings where neither is a proper prefix of the other inside a
/// longer text: followed by nothing or by a non-digit, they have the same length.
pub proof fn lemma_decimal_delimited(m: nat, n: nat, x: Seq<char>, y: Seq<char>)
    requires
        decimal(m) + x == decimal(n) + y,
        x.len() == 0 || !is_digit(x[0]),
        y.len() == 0 || !is_digit(y[0]),
    ensures
        m == n,
        x == y,
{
    lemma_padded_decimal(m, 0);
    lemma_padded_decimal(n, 0);
    let a = decimal(m);
    let b = decimal(n);
    if a.len() < b.len() {
        assert((a + x)[a.len() as int] == x[0]);
        assert((b + y)[a.len() as int] == b[a.len() as int]);
        assert(false);
    } else if b.len() < a.len() {
        assert((b + y)[b.len() as int] == y[0]);
        assert((a + x)[b.len() as int] == a[b.len() as int]);
        assert(false);
    } else {
        assert(a == (a + x).subrange(0, a.len() as int));
        assert(b == (b + y).subrange(0, b.len() as int));
        assert(x == (a + x).subrange(a.len() as int, (a + x).len() as int));
        assert(y == (b + y).subrange(b.len() as int, (b + y).len() as int));
    }
}

/// Appends the digit `d`.
pub fn push_digit(s: &mut String, d: u64)
    requires
        d < 10,
    ensures
        final(s)@ == old(s)@.push(digit_char(d as nat)),
{
    proof {
        reveal_strlit("0");
        reveal_strlit("1");
        reveal_strlit("2");
        reveal_strlit("3");
        reveal_strlit("4");
        reveal_strlit("5");
        reveal_strlit("6");
        reveal_strlit("7");
        reveal_strlit("8");
        reveal_strlit("9");
    }
    if d == 0 {
        s.append("0");
    } else if d == 1 {
        s.append("1");
    } else if d == 2 {
        s.append("2");
    } else if d == 3 {
        s.append("3");
    } else if d == 4 {
        s.append("4");
    } else if d == 5 {
        s.append("5");
    } else if d == 6 {
        s.append("6");
    } else if d == 7 {
        s.append("7");
    } else if d == 8 {
        s.append("8");
    } else {
        s.append("9");
    }
}

/// Appends the decimal form of `n`, left-padded with zeros to at least `w` digits.
pub fn push_padded_decimal(s: &mut String, n: u64, w: u64)
    ensures
        final(s)@ == old(s)@ + padded_decimal(n as nat, w as nat),
    decreases n + w,
{
    if n < 10 && w <= 1 {
        push_digit(s, n);
    } else {
        let w1: u64 = if w > 0 { w - 1 } else { 0 };
        push_padded_decimal(s, n / 10, w1);
        push_digit(s, n % 10);
    }
}

/// Whether the text `s` holds the decimal form of `n` at `start`, followed by
/// the end of the text or by a non-digit.
pub open spec fn decimal_at(s: Seq<char>, start: int, n: nat) -> bool {
    &&& 0 <= start
    &&& start + decimal(n).len() <= s.len()
    &&& s.subrange(start, start + decimal(n).len()) == decimal(n)
    &&& (start + decimal(n).len() == s.len() || !is_digit(s[start + decimal(n).len()]))
}

proof fn lemma_decimal_at_prefix(s: Seq<char>, start: int, n: nat, k: int)
    requires
        decimal_at(s, start, n),
        start <= k < start + decimal(n).len(),
    ensures
        s.subrange(start, k + 1) == decimal(n).subrange(0, k + 1 - start),
{
    let d = decimal(n);
    assert forall|i: int| 0 <= i < k + 1 - start implies #[trigger] s.subrange(start, k + 1)[i]
        == d.subrange(0, k + 1 - start)[i] by {
        assert(s[start + i] == s.subrange(start, start + d.len())[i]);
    }
    assert(s.subrange(start, k + 1) =~= d.subrange(0, k + 1 - start));
}

proof fn lemma_digits_value_prefix(s: Seq<char>, k: int)
    requires
        0 <= k <= s.len(),
    ensures
        digits_value(s.subrange(0, k)) <= digits_value(s),
    decreases s.len() - k,
{
    if k < s.len() {
        lemma_digits_value_prefix(s, k + 1);
        assert(s.subrange(0, k + 1).drop_last() == s.subrange(0, k));
    } else {
        assert(s.subrange(0, k) == s);
    }
}

fn digit_at(s: &str, k: usize) -> (r: bool)
    requires
        k <= s@.len(),
    ensures
        r == (k < s@.len() && is_digit(s@[k as int])),
{
    if k < s.unicode_len() {
        let c = s.get_char(k);
        '0' <= c && c <= '9'
    } else {
        false
    }
}

/// Reads the run of digits that starts at `start`, if it is not empty and its
/// value is at most `limit`; gives the value and the position after the run.
pub fn parse_digits(s: &str, start: usize, limit: u64, Ghost(n): Ghost<nat>) -> (r: Option<(u64, usize)>)
    requires
        start <= s@.len(),
    ensures
        r matches Some((v, e)) ==> start < e <= s@.len() && v <= limit,
        decimal_at(s@, start as int, n) && n <= limit ==> r == Some(
            (n as u64, (start + decimal(n).len()) as usize),
        ),
{
    let len = s.unicode_len();
    let mut k: usize = start;
    let mut acc: u64 = 0;
    let ghost d = decimal(n);
    proof {
        lemma_padded_decimal(n, 0);
    }
    while digit_at(s, k)
        invariant
            start <= k <= len,
            len == s@.len(),
            d == decimal(n),
            acc <= limit,
            acc == digits_value(s@.subrange(start as int, k as int)),
            decimal_at(s@, start as int, n) && n <= limit ==> k <= start + d.len()
                && s@.subrange(start as int, k as int) == d.subrange(0, k - start),
        decreases len - k,
    {
        let c = s.get_char(k);
        let dv: u64 = (c as u32 - 48) as u64;
        proof {
            assert(s@.subrange(start as int, k + 1).drop_last() == s@.subrange(start as int, k as int));
            assert(s@.subrange(start as int, k + 1).last() == c);
            assert(digits_value(s@.subrange(start as int, k + 1)) == acc * 10 + dv);
            if decimal_at(s@, start as int, n) && n <= limit {
                assert(is_digit(s@[k as int]));
                if k == start + d.len() {
                    assert(!is_digit(s@[start + decimal(n).len()]));
                }
                assert(k < start + d.len());
                lemma_decimal_at_prefix(s@, start as int, n, k as int);
            }
        }
        if dv > limit || acc > (limit - dv) / 10 {
            proof {
                if decimal_at(s@, start as int, n) && n <= limit {
                    let j = k - start + 1;
                    assert(acc * 10 + dv > limit) by (nonlinear_arith)
                        requires
                            dv > limit || acc > (limit - dv) / 10,
                    ;
                    lemma_padded_decimal(n, 0);
                    lemma_digits_value_prefix(d, j);
                    assert(false);
                }
            }
            return None;
        }
        acc = acc * 10 + dv;
        k = k + 1;
    }
    proof {
        if decimal_at(s@, start as int, n) && n <= limit {
            if k < start + d.len() {
                assert(s@[k as int] == d[k - start]);
                assert(is_digit(d[k - start]));
            }
            assert(d.subrange(0, d.len() as int) == d);
        }
    }
    if k == start {
        return None;
    }
    Some((acc, k))
}

} // verus!
