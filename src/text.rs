use vstd::prelude::*;

verus! {

/// The character for a decimal digit.
pub open spec fn digit_char(d: nat) -> char {
    if d == 0 { '0' } else if d == 1 { '1' } else if d == 2 { '2' } else if d == 3 { '3' }
    else if d == 4 { '4' } else if d == 5 { '5' } else if d == 6 { '6' } else if d == 7 { '7' }
    else if d == 8 { '8' } else { '9' }
}

/// The decimal text of a natural number, without leading zeros.
pub open spec fn dec(n: nat) -> Seq<char>
    decreases n,
{
    if n < 10 {
        seq![digit_char(n)]
    } else {
        dec(n / 10).push(digit_char(n % 10))
    }
}

fn digit_str(d: u8) -> (r: &'static str)
    requires
        d < 10,
    ensures
        r@ == seq![digit_char(d as nat)],
{
    proof {
        reveal_strlit("0");
        reveal_strlit("1");
        reveal_strlit("2");
        reveal_strlit("3");
        reveal_strlit("4");
        reveal_strlit("5");
        reveal_strlit("6");
        reveal_strlit("7");
        reveal_strlit("8");
        reveal_strlit("9");
    }
    if d == 0 { "0" } else if d == 1 { "1" } else if d == 2 { "2" } else if d == 3 { "3" }
    else if d == 4 { "4" } else if d == 5 { "5" } else if d == 6 { "6" } else if d == 7 { "7" }
    else if d == 8 { "8" } else { "9" }
}

/// Appends the decimal text of `n` to `s`.
pub fn push_dec(s: &mut String, n: u32)
    ensures
        final(s)@ == old(s)@ + dec(n as nat),
    decreases n,
{
    if n >= 10 {
        push_dec(s, n / 10);
    }
    let d = (n % 10) as u8;
    s.append(digit_str(d));
    assert(final(s)@ =~= old(s)@ + dec(n as nat));
}

/// The value of a decimal digit character.
pub open spec fn digit_of(c: char) -> Option<nat> {
    if c == '0' { Some(0) } else if c == '1' { Some(1) } else if c == '2' { Some(2) }
    else if c == '3' { Some(3) } else if c == '4' { Some(4) } else if c == '5' { Some(5) }
    else if c == '6' { Some(6) } else if c == '7' { Some(7) } else if c == '8' { Some(8) }
    else if c == '9' { Some(9) } else { None }
}

/// Whether every character is a decimal digit.
pub open spec fn all_digits(s: Seq<char>) -> bool {
    forall|i: int| 0 <= i < s.len() ==> (#[trigger] digit_of(s[i])) is Some
}

/// The number that a string of decimal digits denotes.
pub open spec fn digits_value(s: Seq<char>) -> nat
    decreases s.len(),
{
    if s.len() == 0 {
        0
    } else {
        digits_value(s.drop_last()) * 10 + digit_of(s.last()).unwrap_or(0)
    }
}

/// Whether a digit string is written without a superfluous leading zero.
pub open spec fn canonical_digits(s: Seq<char>) -> bool {
    s.len() > 0 && all_digits(s) && (s.len() == 1 || s[0] != '0')
}

/// The decimal text of an integer, with a leading `-` when negative.
pub open spec fn int_text(i: int) -> Seq<char> {
    if i < 0 {
        seq!['-'] + dec((-i) as nat)
    } else {
        dec(i as nat)
    }
}

proof fn lemma_digit_char(d: nat)
    requires
        d < 10,
    ensures
        digit_of(digit_char(d)) == Some(d),
        digit_char(d) != '-',
        digit_char(d) != ',',
        digit_char(d) == '0' <==> d == 0,
{
}

proof fn lemma_digit_back(c: char)
    requires
        digit_of(c) is Some,
    ensures
        digit_of(c).unwrap() < 10,
        digit_char(digit_of(c).unwrap()) == c,
{
}

/// The decimal text of `n` is canonical and denotes `n`.
pub proof fn lemma_dec(n: nat)
    ensures
        canonical_digits(dec(n)),
        digits_value(dec(n)) == n,
        dec(n)[0] != '-',
        dec(n)[0] == '0' ==> n == 0,
        !dec(n).contains(','),
    decreases n,
{
    if n < 10 {
        lemma_digit_char(n);
        assert(dec(n) == seq![digit_char(n)]);
        assert(dec(n).len() == 1 && dec(n)[0] == digit_char(n) && dec(n).last() == digit_char(n));
        assert(dec(n).drop_last() =~= Seq::<char>::empty());
        assert(digits_value(dec(n)) == digits_value(dec(n).drop_last()) * 10 + n);
        assert(all_digits(dec(n)));
    } else {
        lemma_dec(n / 10);
        lemma_digit_char(n % 10);
        let p = dec(n / 10);
        assert(dec(n) == p.push(digit_char(n % 10)));
        assert(dec(n).drop_last() =~= p);
        assert(dec(n).last() == digit_char(n % 10));
        assert(digits_value(dec(n)) == digits_value(p) * 10 + n % 10);
        assert forall|i: int| 0 <= i < dec(n).len() implies (#[trigger] digit_of(dec(n)[i])) is Some by {
            if i < p.len() {
                assert(dec(n)[i] == p[i]);
            }
        }
        assert(dec(n)[0] == p[0]);
        if dec(n).contains(',') {
            let k = choose|k: int| 0 <= k < dec(n).len() && dec(n)[k] == ',';
            if k < p.len() {
                assert(p[k] == ',');
            }
        }
    }
}

proof fn lemma_leading_nonzero(s: Seq<char>)
    requires
        s.len() > 0,
        all_digits(s),
        s[0] != '0',
    ensures
        digits_value(s) > 0,
    decreases s.len(),
{
    if s.len() == 1 {
        assert(digit_of(s[0]) is Some);
        assert(s.last() == s[0]);
    } else {
        let p = s.drop_last();
        assert(p[0] == s[0]);
        assert forall|i: int| 0 <= i < p.len() implies (#[trigger] digit_of(p[i])) is Some by {
            assert(p[i] == s[i]);
        }
        lemma_leading_nonzero(p);
    }
}

/// A canonical digit string is the decimal text of its value.
pub proof fn lemma_canonical_is_dec(s: Seq<char>)
    requires
        canonical_digits(s),
    ensures
        dec(digits_value(s)) == s,
    decreases s.len(),
{
    assert(digit_of(s.last()) is Some);
    lemma_digit_back(s.last());
    let d = digit_of(s.last()).unwrap();
    if s.len() == 1 {
        assert(s.drop_last() =~= Seq::<char>::empty());
        assert(digits_value(s.drop_last()) == 0);
        assert(digits_value(s) == d);
        assert(dec(d) == seq![digit_char(d)]);
        assert(dec(d) =~= s);
    } else {
        let p = s.drop_last();
        assert(p[0] == s[0]);
        assert forall|i: int| 0 <= i < p.len() implies (#[trigger] digit_of(p[i])) is Some by {
            assert(p[i] == s[i]);
        }
        lemma_leading_nonzero(p);
        lemma_canonical_is_dec(p);
        let v = digits_value(s);
        assert(v == digits_value(p) * 10 + d);
        assert(v / 10 == digits_value(p) && v % 10 == d) by (nonlinear_arith)
            requires v == digits_value(p) * 10 + d, d < 10;
        assert(dec(v) =~= s);
    }
}

/// The value of a prefix of a digit string is at most that of the whole.
proof fn lemma_prefix_value(s: Seq<char>, k: int)
    requires
        0 <= k <= s.len(),
    ensures
        digits_value(s.take(k)) <= digits_value(s),
    decreases s.len() - k,
{
    if k < s.len() {
        lemma_prefix_value(s, k + 1);
        assert(s.take(k + 1).drop_last() =~= s.take(k));
    } else {
        assert(s.take(k) =~= s);
    }
}

/// The value of a digit character.
pub fn digit_value(c: char) -> (r: Option<u8>)
    ensures
        match r {
            Some(d) => digit_of(c) == Some(d as nat),
            None => digit_of(c) is None,
        },
{
    if c == '0' { Some(0) } else if c == '1' { Some(1) } else if c == '2' { Some(2) }
    else if c == '3' { Some(3) } else if c == '4' { Some(4) } else if c == '5' { Some(5) }
    else if c == '6' { Some(6) } else if c == '7' { Some(7) } else if c == '8' { Some(8) }
    else if c == '9' { Some(9) } else { None }
}

/// The absolute value of an integer.
pub open spec fn magnitude(v: int) -> nat {
    if v < 0 { (-v) as nat } else { v as nat }
}

/// Parses `t[start..end]` as the canonical decimal text of an integer between `lo` and `hi`.
pub fn parse_int(t: &Vec<char>, start: usize, end: usize, lo: i64, hi: i64) -> (r: Option<i64>)
    requires
        start <= end <= t.len(),
        -0x1_0000_0000 <= lo <= hi <= 0x1_0000_0000,
    ensures
        match r {
            Some(v) => lo <= v <= hi && int_text(v as int) == t@.subrange(start as int, end as int),
            None => forall|v: int| lo <= v <= hi ==> int_text(v) != t@.subrange(start as int, end as int),
        },
{
    let ghost sub = t@.subrange(start as int, end as int);
    let neg = start < end && t[start] == '-';
    let ds: usize = if neg { start + 1 } else { start };
    let ghost digits = t@.subrange(ds as int, end as int);
    proof {
        assert forall|v: int| lo <= v <= hi && int_text(v) == sub implies digits == dec(
            if v < 0 { -v } else { v } as nat,
        ) && (v < 0 <==> neg) by {
            let m: nat = if v < 0 { (-v) as nat } else { v as nat };
            lemma_dec(m);
            if v < 0 {
                assert(sub[0] == '-');
                assert(digits =~= sub.skip(1));
                assert(sub.skip(1) =~= dec(m));
            } else {
                assert(sub == dec(m));
                assert(sub[0] == dec(m)[0]);
                assert(digits =~= sub);
            }
        }
    }
    if ds == end {
        proof {
            assert forall|v: int| lo <= v <= hi implies int_text(v) != sub by {
                if int_text(v) == sub {
                    let m: nat = if v < 0 { (-v) as nat } else { v as nat };
                    lemma_dec(m);
                }
            }
        }
        return None;
    }
    if t[ds] == '0' && end - ds > 1 {
        proof {
            assert forall|v: int| lo <= v <= hi implies int_text(v) != sub by {
                if int_text(v) == sub {
                    let m: nat = if v < 0 { (-v) as nat } else { v as nat };
                    lemma_dec(m);
                    assert(digits[0] == t@[ds as int]);
                }
            }
        }
        return None;
    }
    let bound: u64 = if neg {
        if lo < 0 { (-lo) as u64 } else { 0 }
    } else {
        if hi >= 0 { hi as u64 } else { 0 }
    };
    proof {
        assert forall|v: int| lo <= v <= hi && int_text(v) == sub implies digits == dec(magnitude(v))
            && magnitude(v) <= bound by {
            let m: nat = if v < 0 { (-v) as nat } else { v as nat };
            assert(digits == dec(m) && (v < 0 <==> neg));
        }
    }
    let mut acc: u64 = 0;
    let mut i: usize = ds;
    while i < end
        invariant
            ds <= i <= end <= t.len(),
            ds < end,
            digits == t@.subrange(ds as int, end as int),
            bound <= 0x1_0000_0000,
            acc <= bound,
            acc == digits_value(t@.subrange(ds as int, i as int)),
            all_digits(t@.subrange(ds as int, i as int)),
            sub == t@.subrange(start as int, end as int),
            forall|v: int|
                lo <= v <= hi && int_text(v) == sub ==> digits == dec(magnitude(v)) && magnitude(v) <= bound,
        decreases end - i,
    {
        let c = t[i];
        let ghost before = t@.subrange(ds as int, i as int);
        assert(t@.subrange(ds as int, i as int + 1).drop_last() =~= before);
        assert(t@.subrange(ds as int, i as int + 1) =~= digits.take(i - ds + 1));
        assert(t@.subrange(ds as int, i as int + 1).last() == c);
        match digit_value(c) {
            None => {
                proof {
                    assert forall|v: int| lo <= v <= hi implies int_text(v) != sub by {
                        if int_text(v) == sub {
                            lemma_dec(magnitude(v));
                            assert(digits[i - ds] == c);
                            assert(digit_of(dec(magnitude(v))[i - ds]) is Some);
                        }
                    }
                }
                return None;
            },
            Some(d) => {
                acc = acc * 10 + d as u64;
                if acc > bound {
                    proof {
                        assert forall|v: int| lo <= v <= hi implies int_text(v) != sub by {
                            if int_text(v) == sub {
                                lemma_dec(magnitude(v));
                                lemma_prefix_value(digits, i - ds + 1);
                            }
                        }
                    }
                    return None;
                }
            },
        }
        i = i + 1;
        proof {
            let now = t@.subrange(ds as int, i as int);
            assert forall|j: int| 0 <= j < now.len() implies (#[trigger] digit_of(now[j])) is Some by {
                if j < now.len() - 1 {
                    assert(now[j] == before[j]);
                }
            }
        }
    }
    assert(t@.subrange(ds as int, i as int) =~= digits);
    if neg && acc == 0 {
        proof {
            assert forall|v: int| lo <= v <= hi implies int_text(v) != sub by {
                if int_text(v) == sub {
                    let m: nat = if v < 0 { (-v) as nat } else { v as nat };
                    lemma_dec(m);
                }
            }
        }
        return None;
    }
    let v: i64 = if neg { -(acc as i64) } else { acc as i64 };
    if v < lo || v > hi {
        proof {
            assert forall|w: int| lo <= w <= hi implies int_text(w) != sub by {
                if int_text(w) == sub {
                    let m: nat = if w < 0 { (-w) as nat } else { w as nat };
                    lemma_dec(m);
                }
            }
        }
        return None;
    }
    proof {
        assert(canonical_digits(digits));
        lemma_canonical_is_dec(digits);
        if neg {
            assert(sub =~= seq!['-'] + digits);
        } else {
            assert(sub =~= digits);
        }
    }
    Some(v)
}

} // verus!
