//! Character-level primitives shared by the document formats: scanning a
//! sequence of characters for prefixes, line ends and fields, and turning
//! unsigned numbers into decimal digits and back.
use vstd::prelude::*;
use vstd::arithmetic::div_mod::lemma_fundamental_div_mod;
use vstd::string::StrSliceExecFns;

verus! {

// ---------------------------------------------------------------------------
// Decimal digits
// ---------------------------------------------------------------------------

/// The character for one decimal digit.
pub open spec fn digit_char(d: int) -> char {
    if d == 0 { '0' }
    else if d == 1 { '1' }
    else if d == 2 { '2' }
    else if d == 3 { '3' }
    else if d == 4 { '4' }
    else if d == 5 { '5' }
    else if d == 6 { '6' }
    else if d == 7 { '7' }
    else if d == 8 { '8' }
    else { '9' }
}

pub open spec fn is_digit(c: char) -> bool {
    '0' as u32 <= c as u32 && c as u32 <= '9' as u32
}

pub open spec fn digit_val(c: char) -> int {
    c as u32 - '0' as u32
}

/// The decimal digits of `n`, most significant first, without leading zeros
/// (`0` itself is the single digit `0`).
pub open spec fn dec_of(n: nat) -> Seq<char>
    decreases n,
{
    if n < 10 {
        seq![digit_char(n as int)]
    } else {
        dec_of(n / 10).push(digit_char((n % 10) as int))
    }
}

/// The value of a digit string, most significant digit first.
pub open spec fn dec_val(s: Seq<char>) -> int
    decreases s.len(),
{
    if s.len() == 0 {
        0
    } else {
        dec_val(s.drop_last()) * 10 + digit_val(s.last())
    }
}

pub open spec fn all_digits(s: Seq<char>) -> bool {
    forall|i: int| 0 <= i < s.len() ==> is_digit(#[trigger] s[i])
}

/// Which digit strings denote a `u64`: at least one digit, no leading zero,
/// and a value that fits.
pub open spec fn parse_u64_spec(s: Seq<char>) -> Option<u64> {
    if s.len() >= 1 && all_digits(s) && (s[0] != '0' || s.len() == 1) && dec_val(s) <= u64::MAX {
        Some(dec_val(s) as u64)
    } else {
        None
    }
}

pub proof fn lemma_dec_val_nonneg(s: Seq<char>)
    requires
        all_digits(s),
    ensures
        dec_val(s) >= 0,
    decreases s.len(),
{
    if s.len() > 0 {
        assert(all_digits(s.drop_last()));
        lemma_dec_val_nonneg(s.drop_last());
    }
}

/// Once a digit prefix is already too large, the whole string is too large.
pub proof fn lemma_dec_val_prefix_le(s: Seq<char>, j: int)
    requires
        all_digits(s),
        0 <= j <= s.len(),
    ensures
        dec_val(s.subrange(0, j)) <= dec_val(s),
    decreases s.len() - j,
{
    if j < s.len() {
        let t = s.subrange(0, j + 1);
        assert(t.drop_last() =~= s.subrange(0, j));
        assert(all_digits(t.drop_last()));
        lemma_dec_val_nonneg(t.drop_last());
        assert(dec_val(t) == dec_val(s.subrange(0, j)) * 10 + digit_val(s[j]));
        lemma_dec_val_prefix_le(s, j + 1);
    } else {
        assert(s.subrange(0, j) =~= s);
    }
}

/// The digits of `n` read back as the value `n`, with no leading zero and no
/// line break among them.
pub proof fn lemma_dec_of_val(n: nat)
    ensures
        all_digits(dec_of(n)),
        dec_of(n).len() >= 1,
        dec_val(dec_of(n)) == n,
        n >= 1 ==> dec_of(n)[0] != '0',
        n < 10 ==> dec_of(n).len() == 1,
        forall|i: int| 0 <= i < dec_of(n).len() ==> #[trigger] dec_of(n)[i] != '\n',
    decreases n,
{
    assert forall|d: int| 0 <= d < 10 implies is_digit(digit_char(d)) && digit_val(digit_char(d)) == d
        && digit_char(d) != '\n' && (d >= 1 ==> digit_char(d) != '0') by {
    }
    if n < 10 {
        let s = dec_of(n);
        assert(s.drop_last() =~= Seq::<char>::empty());
        assert(dec_val(s.drop_last()) == 0);
        assert(dec_val(s) == digit_val(s.last()));
    } else {
        lemma_dec_of_val(n / 10);
        let s = dec_of(n);
        let q = dec_of(n / 10);
        let d = digit_char((n % 10) as int);
        assert(s == q.push(d));
        assert forall|i: int| 0 <= i < s.len() implies is_digit(#[trigger] s[i]) && s[i] != '\n' by {
            if i < q.len() {
                assert(s[i] == q[i]);
            } else {
                assert(s[i] == d);
            }
        }
        assert(s.drop_last() =~= q);
        assert(digit_val(s.last()) == n % 10);
        assert(dec_val(s) == dec_val(q) * 10 + (n % 10));
        assert(dec_val(q) == n / 10);
        lemma_fundamental_div_mod(n as int, 10);
        assert(n == 10 * (n as int / 10) + (n as int % 10));
        assert(n as int / 10 == (n / 10) as int);
        assert(dec_val(s) == n);
        assert(s[0] == q[0]);
    }
}

/// The digit string of a `u64` reads back as exactly that number.
pub proof fn lemma_dec_of_roundtrip(n: u64)
    ensures
        parse_u64_spec(dec_of(n as nat)) == Some(n),
{
    lemma_dec_of_val(n as nat);
}

/// One decimal digit as a string slice.
pub fn digit_str(d: u64) -> (r: &'static str)
    requires
        d < 10,
    ensures
        r@ =~= seq![digit_char(d as int)],
{
    let r = match d {
        0 => "0",
        1 => "1",
        2 => "2",
        3 => "3",
        4 => "4",
        5 => "5",
        6 => "6",
        7 => "7",
        8 => "8",
        _ => "9",
    };
    proof {
        reveal_strlit("0");
        reveal_strlit("1");
        reveal_strlit("2");
        reveal_strlit("3");
        reveal_strlit("4");
        reveal_strlit("5");
        reveal_strlit("6");
        reveal_strlit("7");
        reveal_strlit("8");
        reveal_strlit("9");
    }
    r
}

/// Appends the decimal digits of `n` to `out`.
pub fn push_dec(out: &mut String, n: u64)
    ensures
        final(out)@ == old(out)@ + dec_of(n as nat),
    decreases n,
{
    if n >= 10 {
        push_dec(out, n / 10);
    }
    let ghost mid = out@;
    out.append(digit_str(n % 10));
    proof {
        if n < 10 {
            assert(out@ =~= old(out)@ + dec_of(n as nat));
        } else {
            assert(mid == old(out)@ + dec_of((n / 10) as nat));
            assert(out@ =~= old(out)@ + dec_of(n as nat));
        }
    }
}

/// Reads the digit string `v[lo..hi]` as a `u64`, as `parse_u64_spec` does.
pub fn parse_u64_range(v: &Vec<char>, lo: usize, hi: usize) -> (r: Option<u64>)
    requires
        lo <= hi <= v.len(),
    ensures
        r == parse_u64_spec(v@.subrange(lo as int, hi as int)),
{
    let ghost s = v@.subrange(lo as int, hi as int);
    if lo == hi {
        return None;
    }
    if v[lo] == '0' && hi - lo > 1 {
        return None;
    }
    let mut acc: u128 = 0;
    let mut j: usize = lo;
    while j < hi
        invariant
            lo <= j <= hi <= v.len(),
            s == v@.subrange(lo as int, hi as int),
            all_digits(s.subrange(0, j - lo)),
            acc == dec_val(s.subrange(0, j - lo)),
            acc <= u64::MAX,
        decreases hi - j,
    {
        let c = v[j];
        let code = c as u32;
        proof {
            assert(s[j - lo] == c);
        }
        if code < '0' as u32 || code > '9' as u32 {
            proof {
                assert(!is_digit(s[j - lo]));
                assert(!all_digits(s));
            }
            return None;
        }
        let d: u128 = (code - '0' as u32) as u128;
        let next: u128 = acc * 10 + d;
        proof {
            let t = s.subrange(0, j - lo + 1);
            assert(t.drop_last() =~= s.subrange(0, j - lo));
            assert(t.last() == c);
            assert(all_digits(t));
            assert(dec_val(t) == next);
        }
        if next > u64::MAX as u128 {
            proof {
                if all_digits(s) {
                    lemma_dec_val_prefix_le(s, j - lo + 1);
                }
            }
            return None;
        }
        acc = next;
        j = j + 1;
    }
    proof {
        assert(s.subrange(0, (hi - lo) as int) =~= s);
        assert(s[0] == v@[lo as int]);
    }
    Some(acc as u64)
}

// ---------------------------------------------------------------------------
// Prefixes, lines and fields
// ---------------------------------------------------------------------------

/// The text is a single line: no line break anywhere in it.
pub open spec fn no_newline(s: Seq<char>) -> bool {
    forall|i: int| 0 <= i < s.len() ==> #[trigger] s[i] != '\n'
}

/// `p` occurs in `s` starting at position `i`.
pub open spec fn starts_with_at(s: Seq<char>, i: int, p: Seq<char>) -> bool {
    0 <= i && i + p.len() <= s.len() && s.subrange(i, i + p.len()) == p
}

/// Position of the first line break at or after `i`.
pub open spec fn find_nl(s: Seq<char>, i: int) -> Option<int>
    decreases s.len() - i,
{
    if i < 0 || i >= s.len() {
        None
    } else if s[i] == '\n' {
        Some(i)
    } else {
        find_nl(s, i + 1)
    }
}

pub proof fn lemma_find_nl_at(s: Seq<char>, i: int, k: int)
    requires
        0 <= i <= k < s.len(),
        s[k] == '\n',
        forall|j: int| i <= j < k ==> s[j] != '\n',
    ensures
        find_nl(s, i) == Some(k),
    decreases k - i,
{
    if i < k {
        lemma_find_nl_at(s, i + 1, k);
    }
}

/// Reading one line of the form `p`, a content without line breaks, and a
/// line break: the content and the position after the break.
pub open spec fn read_field(s: Seq<char>, i: int, p: Seq<char>) -> Option<(Seq<char>, int)> {
    if starts_with_at(s, i, p) {
        match find_nl(s, i + p.len()) {
            Some(k) => Some((s.subrange(i + p.len(), k), k + 1)),
            None => None,
        }
    } else {
        None
    }
}

/// On a suffix that begins with such a line, `read_field` returns exactly its
/// content and steps over it.
pub proof fn lemma_read_field_inv(s: Seq<char>, i: int, p: Seq<char>, c: Seq<char>, rest: Seq<char>)
    requires
        0 <= i <= s.len(),
        s.subrange(i, s.len() as int) == p + c + seq!['\n'] + rest,
        no_newline(c),
    ensures
        read_field(s, i, p) == Some((c, i + p.len() + c.len() + 1)),
        s.subrange(i + p.len() + c.len() + 1, s.len() as int) == rest,
{
    let suf = s.subrange(i, s.len() as int);
    let pl = p.len() as int;
    let cl = c.len() as int;
    assert(suf.len() == s.len() - i);
    assert(suf.len() == pl + cl + 1 + rest.len());
    let k = i + pl + cl;
    assert forall|j: int| 0 <= j < pl implies s.subrange(i, i + pl)[j] == p[j] by {
        assert(suf[j] == p[j]);
        assert(suf[j] == s[i + j]);
    }
    assert(s.subrange(i, i + pl) =~= p);
    assert(starts_with_at(s, i, p));
    assert(suf[pl + cl] == '\n');
    assert(s[k] == suf[pl + cl]);
    assert forall|j: int| i + pl <= j < k implies s[j] != '\n' by {
        assert(suf[j - i] == c[j - i - pl]);
        assert(s[j] == suf[j - i]);
    }
    lemma_find_nl_at(s, i + pl, k);
    assert forall|j: int| 0 <= j < cl implies s.subrange(i + pl, k)[j] == c[j] by {
        assert(suf[pl + j] == c[j]);
        assert(suf[pl + j] == s[i + pl + j]);
    }
    assert(s.subrange(i + pl, k) =~= c);
    assert forall|j: int| 0 <= j < rest.len() implies s.subrange(k + 1, s.len() as int)[j] == rest[j]
    by {
        assert(suf[pl + cl + 1 + j] == rest[j]);
        assert(suf[pl + cl + 1 + j] == s[k + 1 + j]);
    }
    assert(s.subrange(k + 1, s.len() as int) =~= rest);
}

pub fn starts_with_at_x(v: &Vec<char>, i: usize, p: &str) -> (b: bool)
    requires
        i <= v.len(),
    ensures
        b == starts_with_at(v@, i as int, p@),
{
    let n = p.unicode_len();
    if n > v.len() - i {
        return false;
    }
    let mut j: usize = 0;
    while j < n
        invariant
            0 <= j <= n,
            i + n <= v.len(),
            n == p@.len(),
            forall|k: int| 0 <= k < j ==> v@[i + k] == p@[k],
        decreases n - j,
    {
        if v[i + j] != p.get_char(j) {
            proof {
                assert(v@.subrange(i as int, i + p@.len())[j as int] != p@[j as int]);
            }
            return false;
        }
        j = j + 1;
    }
    proof {
        assert(v@.subrange(i as int, i + p@.len()) =~= p@);
    }
    true
}

pub fn find_nl_x(v: &Vec<char>, i: usize) -> (r: Option<usize>)
    requires
        i <= v.len(),
    ensures
        match r {
            Some(k) => i <= k < v.len() && find_nl(v@, i as int) == Some(k as int),
            None => find_nl(v@, i as int) is None,
        },
{
    let mut j: usize = i;
    while j < v.len()
        invariant
            i <= j <= v.len(),
            find_nl(v@, i as int) == find_nl(v@, j as int),
        decreases v.len() - j,
    {
        if v[j] == '\n' {
            return Some(j);
        }
        j = j + 1;
    }
    None
}

/// Executable mirror of `read_field`: on success, the content is
/// `v[a..k]` and parsing continues at `k + 1`.
pub fn read_field_x(v: &Vec<char>, i: usize, p: &str) -> (r: Option<(usize, usize)>)
    requires
        i <= v.len(),
    ensures
        match r {
            Some(ak) => ({
                let (a, k) = ak;
                &&& a == i + p@.len()
                &&& a <= k < v.len()
                &&& read_field(v@, i as int, p@) == Some((
                    v@.subrange(a as int, k as int),
                    k as int + 1,
                ))
            }),
            None => read_field(v@, i as int, p@) is None,
        },
{
    if !starts_with_at_x(v, i, p) {
        return None;
    }
    let a = i + p.unicode_len();
    match find_nl_x(v, a) {
        Some(k) => Some((a, k)),
        None => None,
    }
}

/// The characters `v[lo..hi]` are exactly the view of `p`.
pub fn range_eq_str(v: &Vec<char>, lo: usize, hi: usize, p: &str) -> (b: bool)
    requires
        lo <= hi <= v.len(),
    ensures
        b == (v@.subrange(lo as int, hi as int) == p@),
{
    let n = p.unicode_len();
    if hi - lo != n {
        proof {
            assert(v@.subrange(lo as int, hi as int).len() != p@.len());
        }
        return false;
    }
    let mut j: usize = 0;
    while j < n
        invariant
            0 <= j <= n,
            lo <= hi <= v.len(),
            hi - lo == n,
            n == p@.len(),
            forall|k: int| 0 <= k < j ==> v@[lo + k] == p@[k],
        decreases n - j,
    {
        if v[lo + j] != p.get_char(j) {
            proof {
                assert(v@.subrange(lo as int, hi as int)[j as int] != p@[j as int]);
            }
            return false;
        }
        j = j + 1;
    }
    proof {
        assert(v@.subrange(lo as int, hi as int) =~= p@);
    }
    true
}

/// Collects the characters of a string slice.
pub fn str_chars(s: &str) -> (v: Vec<char>)
    ensures
        v@ == s@,
{
    let n = s.unicode_len();
    let mut v: Vec<char> = Vec::new();
    let mut i: usize = 0;
    while i < n
        invariant
            0 <= i <= n,
            n == s@.len(),
            v@ == s@.subrange(0, i as int),
        decreases n - i,
    {
        v.push(s.get_char(i));
        proof {
            assert(v@ =~= s@.subrange(0, i + 1));
        }
        i = i + 1;
    }
    proof {
        assert(s@.subrange(0, n as int) =~= s@);
    }
    v
}

} // verus!
