//! Character-level helpers on `str`/`String`, specified over `Seq<char>`.
use vstd::prelude::*;

verus! {

/// The character for a decimal digit `d` (0..=9).
pub open spec fn digit_char(d: int) -> char {
    (48 + d) as char
}

/// Decimal digits of `n`, without leading zeros ("0" for zero).
pub open spec fn decimal(n: nat) -> Seq<char>
    decreases n,
{
    if n < 10 {
        seq![digit_char(n as int)]
    } else {
        decimal(n / 10).push(digit_char((n % 10) as int))
    }
}

/// `n` in decimal, left-padded with '0' to at least `width` characters.
pub open spec fn zero_padded(n: nat, width: nat) -> Seq<char> {
    let d = decimal(n);
    if d.len() >= width {
        d
    } else {
        Seq::new((width - d.len()) as nat, |i: int| '0') + d
    }
}

/// Appends one character (std `String::push`).
#[verifier::external_body]
pub(crate) fn push_char(s: &mut String, c: char)
    ensures
        final(s)@ == old(s)@.push(c),
{
    s.push(c);
}

/// The characters of an optional `String`.
pub open spec fn opt_view(o: Option<String>) -> Option<Seq<char>> {
    match o {
        Some(s) => Some(s@),
        None => None,
    }
}

/// Appends the characters `t[from..to]`.
pub fn push_chars(s: &mut String, t: &str, from: usize, to: usize)
    requires
        from <= to <= t@.len(),
    ensures
        final(s)@ == old(s)@ + t@.subrange(from as int, to as int),
{
    let ghost start = s@;
    let mut i = from;
    while i < to
        invariant
            from <= i <= to,
            to <= t@.len(),
            s@ == start + t@.subrange(from as int, i as int),
        decreases to - i,
    {
        let c = t.get_char(i);
        push_char(s, c);
        assert(t@.subrange(from as int, i + 1) == t@.subrange(from as int, i as int).push(c));
        i = i + 1;
    }
}

/// The character of the decimal digit `d`.
pub fn digit(d: u8) -> (c: char)
    requires
        d < 10,
    ensures
        c == digit_char(d as int),
{
    match d {
        0 => '0',
        1 => '1',
        2 => '2',
        3 => '3',
        4 => '4',
        5 => '5',
        6 => '6',
        7 => '7',
        8 => '8',
        _ => '9',
    }
}

/// Ten to the power `k`.
pub open spec fn pow10(k: nat) -> nat
    decreases k,
{
    if k == 0 {
        1
    } else {
        10 * pow10((k - 1) as nat)
    }
}

/// A number below `10^k` (k >= 1) has at most `k` decimal digits.
pub proof fn lemma_decimal_len_bound(n: nat, k: nat)
    requires
        k >= 1,
        n < pow10(k),
    ensures
        decimal(n).len() <= k,
    decreases k,
{
    if n >= 10 {
        assert(k >= 2) by {
            if k == 1 {
                assert(pow10(1) == 10) by {
                    reveal_with_fuel(pow10, 2);
                }
            }
        }
        assert(n / 10 < pow10((k - 1) as nat)) by (nonlinear_arith)
            requires
                n < 10 * pow10((k - 1) as nat),
        ;
        lemma_decimal_len_bound(n / 10, (k - 1) as nat);
    }
}

/// Decimal digits are the characters '0' to '9'.
pub proof fn lemma_decimal_digits(n: nat)
    ensures
        forall|i: int| 0 <= i < decimal(n).len() ==> '0' <= #[trigger] decimal(n)[i] <= '9',
    decreases n,
{
    if n >= 10 {
        lemma_decimal_digits(n / 10);
        assert forall|i: int| 0 <= i < decimal(n).len() implies '0' <= #[trigger] decimal(n)[i] <= '9' by {
            if i < decimal(n / 10).len() {
                assert(decimal(n)[i] == decimal(n / 10)[i]);
            }
        }
    }
}

/// Number of decimal digits of `n`.
pub fn decimal_len(n: u64) -> (r: usize)
    ensures
        r == decimal(n as nat).len(),
        r <= 20,
    decreases n,
{
    proof {
        assert(pow10(20) == 100000000000000000000nat) by {
            reveal_with_fuel(pow10, 21);
        }
        lemma_decimal_len_bound(n as nat, 20);
    }
    if n < 10 {
        1
    } else {
        let k = decimal_len(n / 10);
        k + 1
    }
}

/// Appends the decimal digits of `n`.
pub fn push_decimal(s: &mut String, n: u64)
    ensures
        final(s)@ == old(s)@ + decimal(n as nat),
    decreases n,
{
    if n >= 10 {
        push_decimal(s, n / 10);
    }
    let c = digit((n % 10) as u8);
    push_char(s, c);
}

/// Appends `n` left-padded with '0' to at least `width` digits.
pub fn push_zero_padded(s: &mut String, n: u64, width: usize)
    ensures
        final(s)@ == old(s)@ + zero_padded(n as nat, width as nat),
{
    let len = decimal_len(n);
    let ghost start = s@;
    if len < width {
        let pad = width - len;
        let mut i: usize = 0;
        while i < pad
            invariant
                i <= pad,
                s@ == start + Seq::new(i as nat, |j: int| '0'),
            decreases pad - i,
        {
            push_char(s, '0');
            assert(Seq::new((i + 1) as nat, |j: int| '0') == Seq::new(i as nat, |j: int| '0').push('0'));
            i = i + 1;
        }
        push_decimal(s, n);
        assert(s@ == start + (Seq::new(pad as nat, |j: int| '0') + decimal(n as nat)));
    } else {
        push_decimal(s, n);
    }
}

/// Lexicographic order on character sequences: `a` sorts strictly before `b`.
/// For valid UTF-8 text this is the same order as byte-wise comparison of the
/// encodings, which is how `str` values are ordered.
pub open spec fn seq_lt(a: Seq<char>, b: Seq<char>) -> bool
    decreases a.len(),
{
    if a.len() == 0 {
        b.len() > 0
    } else if b.len() == 0 {
        false
    } else if (a[0] as u32) < (b[0] as u32) {
        true
    } else if a[0] == b[0] {
        seq_lt(a.drop_first(), b.drop_first())
    } else {
        false
    }
}

/// Whether two string slices hold the same characters.
pub fn str_eq(a: &str, b: &str) -> (r: bool)
    ensures
        r == (a@ == b@),
{
    let n = a.unicode_len();
    let m = b.unicode_len();
    if n != m {
        return false;
    }
    let mut i: usize = 0;
    while i < n
        invariant
            n == a@.len(),
            m == b@.len(),
            n == m,
            i <= n,
            a@.subrange(0, i as int) == b@.subrange(0, i as int),
        decreases n - i,
    {
        let x = a.get_char(i);
        let y = b.get_char(i);
        if x != y {
            assert(a@[i as int] != b@[i as int]);
            return false;
        }
        assert(a@.subrange(0, i + 1) == a@.subrange(0, i as int).push(x));
        assert(b@.subrange(0, i + 1) == b@.subrange(0, i as int).push(y));
        i = i + 1;
    }
    assert(a@.subrange(0, n as int) == a@);
    assert(b@.subrange(0, n as int) == b@);
    true
}

proof fn lemma_seq_lt_skip(a: Seq<char>, b: Seq<char>, i: int)
    requires
        0 <= i <= a.len(),
        i <= b.len(),
        a.subrange(0, i) == b.subrange(0, i),
    ensures
        seq_lt(a, b) == seq_lt(a.subrange(i, a.len() as int), b.subrange(i, b.len() as int)),
    decreases i,
{
    if i > 0 {
        assert(a[0] == a.subrange(0, i)[0]);
        assert(b[0] == b.subrange(0, i)[0]);
        assert(a.drop_first().subrange(0, i - 1) == b.drop_first().subrange(0, i - 1)) by {
            assert(a.drop_first().subrange(0, i - 1) == a.subrange(0, i).drop_first());
            assert(b.drop_first().subrange(0, i - 1) == b.subrange(0, i).drop_first());
        }
        lemma_seq_lt_skip(a.drop_first(), b.drop_first(), i - 1);
        assert(a.drop_first().subrange(i - 1, a.len() - 1) == a.subrange(i, a.len() as int));
        assert(b.drop_first().subrange(i - 1, b.len() - 1) == b.subrange(i, b.len() as int));
    } else {
        assert(a.subrange(0, a.len() as int) == a);
        assert(b.subrange(0, b.len() as int) == b);
    }
}

/// Whether `a` sorts strictly before `b` (see `seq_lt`).
pub fn str_lt(a: &str, b: &str) -> (r: bool)
    ensures
        r == seq_lt(a@, b@),
{
    let n = a.unicode_len();
    let m = b.unicode_len();
    let mut i: usize = 0;
    while i < n && i < m
        invariant
            n == a@.len(),
            m == b@.len(),
            i <= n,
            i <= m,
            a@.subrange(0, i as int) == b@.subrange(0, i as int),
        decreases n - i,
    {
        let x = a.get_char(i);
        let y = b.get_char(i);
        if x != y {
            proof {
                lemma_seq_lt_skip(a@, b@, i as int);
                let ra = a@.subrange(i as int, n as int);
                let rb = b@.subrange(i as int, m as int);
                assert(ra[0] == x && rb[0] == y);
            }
            return (x as u32) < (y as u32);
        }
        assert(a@.subrange(0, i + 1) == a@.subrange(0, i as int).push(x));
        assert(b@.subrange(0, i + 1) == b@.subrange(0, i as int).push(y));
        i = i + 1;
    }
    proof {
        lemma_seq_lt_skip(a@, b@, i as int);
    }
    i < m
}

/// What `String::from_utf8_lossy(bytes)` yields: the text of `bytes`, with
/// U+FFFD in place of each invalid sequence.
pub uninterp spec fn utf8_lossy(bytes: Seq<u8>) -> Seq<char>;

/// Calls std's `String::from_utf8_lossy`. Trusted: the result is the value named
/// by `utf8_lossy`, and on valid UTF-8 it is the decoded text. How invalid
/// sequences are replaced is not stated.
#[verifier::external_body]
pub(crate) fn from_utf8_lossy(bytes: &[u8]) -> (r: String)
    ensures
        r@ == utf8_lossy(bytes@),
        vstd::utf8::valid_utf8(bytes@) ==> r@ == vstd::utf8::decode_utf8(bytes@),
{
    String::from_utf8_lossy(bytes).into_owned()
}

/// Comparing two texts whose first parts have the same length: the first parts
/// decide, and only when they are equal do the second parts.
pub proof fn lemma_seq_lt_concat(x1: Seq<char>, x2: Seq<char>, y1: Seq<char>, y2: Seq<char>)
    requires
        x1.len() == y1.len(),
    ensures
        seq_lt(x1 + x2, y1 + y2) == (seq_lt(x1, y1) || (x1 == y1 && seq_lt(x2, y2))),
        (x1 + x2 == y1 + y2) == (x1 == y1 && x2 == y2),
    decreases x1.len(),
{
    if (x1 + x2 == y1 + y2) {
        assert(x1 =~= (x1 + x2).subrange(0, x1.len() as int));
        assert(y1 =~= (y1 + y2).subrange(0, y1.len() as int));
        assert(x2 =~= (x1 + x2).subrange(x1.len() as int, (x1 + x2).len() as int));
        assert(y2 =~= (y1 + y2).subrange(y1.len() as int, (y1 + y2).len() as int));
    }
    if x1.len() == 0 {
        assert(x1 + x2 =~= x2);
        assert(y1 + y2 =~= y2);
        assert(x1 =~= y1);
    } else {
        assert((x1 + x2)[0] == x1[0]);
        assert((y1 + y2)[0] == y1[0]);
        assert((x1 + x2).drop_first() =~= x1.drop_first() + x2);
        assert((y1 + y2).drop_first() =~= y1.drop_first() + y2);
        lemma_seq_lt_concat(x1.drop_first(), x2, y1.drop_first(), y2);
        if x1[0] == y1[0] {
            assert((x1 == y1) == (x1.drop_first() == y1.drop_first())) by {
                if x1.drop_first() == y1.drop_first() {
                    assert(x1 =~= seq![x1[0]] + x1.drop_first());
                    assert(y1 =~= seq![y1[0]] + y1.drop_first());
                }
            }
        } else {
            assert(x1 != y1);
        }
    }
}

} // verus!
