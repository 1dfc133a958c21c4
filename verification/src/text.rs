//! Character-level string operations with their mathematical meaning.
//!
//! Every executable function here works on `&str`/`String` and is specified
//! over the `Seq<char>` view of its arguments.
use vstd::prelude::*;

verus! {

broadcast use vstd::string::group_string_axioms;

/// `s` with every trailing occurrence of `c` removed.
pub open spec fn trim_end_char(s: Seq<char>, c: char) -> Seq<char>
    decreases s.len(),
{
    if s.len() > 0 && s.last() == c {
        trim_end_char(s.drop_last(), c)
    } else {
        s
    }
}

/// `p` occurs in `s` as a contiguous block starting at `i`.
pub open spec fn occurs_at(s: Seq<char>, p: Seq<char>, i: int) -> bool {
    0 <= i && i + p.len() <= s.len() && s.subrange(i, i + p.len()) == p
}

/// `p` occurs somewhere in `s` (the empty pattern occurs everywhere).
pub open spec fn contains_seq(s: Seq<char>, p: Seq<char>) -> bool {
    exists|i: int| occurs_at(s, p, i)
}

/// Every non-overlapping occurrence of `from` in `s`, scanned left to right,
/// replaced by `to`.
pub open spec fn replace_all(s: Seq<char>, from: Seq<char>, to: Seq<char>) -> Seq<char>
    decreases s.len(),
{
    if s.len() == 0 || from.len() == 0 {
        s
    } else if occurs_at(s, from, 0) {
        to + replace_all(s.skip(from.len() as int), from, to)
    } else {
        seq![s[0]] + replace_all(s.skip(1), from, to)
    }
}

/// The ASCII lower-case code of a character; other characters keep their code.
pub open spec fn ascii_fold(c: char) -> int {
    if 'A' <= c && c <= 'Z' {
        c as int + 32
    } else {
        c as int
    }
}

/// Equality up to ASCII case.
pub open spec fn eq_ignore_ascii_case_seq(a: Seq<char>, b: Seq<char>) -> bool {
    a.len() == b.len() && forall|i: int| 0 <= i < a.len() ==> ascii_fold(a[i]) == ascii_fold(b[i])
}

/// The character of a digit value below sixteen (lower-case letters above nine).
pub open spec fn digit_char(d: nat) -> char {
    if d < 10 {
        ('0' as int + d) as char
    } else {
        ('a' as int + (d - 10)) as char
    }
}

/// The positional notation of `n` in base `b`, without leading zeros
/// (`0` is written as a single digit).
pub open spec fn in_base(n: nat, b: nat) -> Seq<char>
    recommends
        2 <= b <= 16,
    decreases n,
{
    if b < 2 || n < b {
        seq![digit_char(n)]
    } else {
        proof {
            assert(n / b < n) by (nonlinear_arith)
                requires
                    b >= 2,
                    n >= b,
            ;
        }
        in_base(n / b, b) + seq![digit_char(n % b)]
    }
}

/// Decimal notation of `n`.
pub open spec fn decimal(n: nat) -> Seq<char> {
    in_base(n, 10)
}

/// `0x` followed by the lower-case hexadecimal notation of `n`.
pub open spec fn hex_prefixed(n: nat) -> Seq<char> {
    seq!['0', 'x'] + in_base(n, 16)
}

/// The first `len` characters of `s` equal `p`'s characters from `start` on.
fn matches_at(s: &str, p: &str, start: usize, s_len: usize, p_len: usize) -> (res: bool)
    requires
        s_len == s@.len(),
        p_len == p@.len(),
        start <= s_len,
    ensures
        res == occurs_at(s@, p@, start as int),
{
    if p_len > s_len - start {
        return false;
    }
    let mut k: usize = 0;
    while k < p_len
        invariant
            p_len == p@.len(),
            s_len == s@.len(),
            start + p_len <= s_len,
            k <= p_len,
            forall|j: int| 0 <= j < k ==> s@[start + j] == p@[j],
        decreases p_len - k,
    {
        if s.get_char(start + k) != p.get_char(k) {
            assert(s@.subrange(start as int, start + p_len)[k as int] != p@[k as int]);
            return false;
        }
        k = k + 1;
    }
    assert(s@.subrange(start as int, start + p_len) =~= p@);
    true
}

/// Character-wise equality of two strings.
pub fn str_eq(a: &str, b: &str) -> (res: bool)
    ensures
        res == (a@ == b@),
{
    let a_len = a.unicode_len();
    let b_len = b.unicode_len();
    if a_len != b_len {
        return false;
    }
    let res = matches_at(a, b, 0, a_len, b_len);
    proof {
        if res {
            assert(a@ =~= a@.subrange(0, b@.len() as int));
        } else {
            if a@ == b@ {
                assert(a@.subrange(0, b@.len() as int) =~= b@);
            }
        }
    }
    res
}

/// Whether `p` occurs in `s` (as `str::contains` with a string pattern).
pub fn str_contains(s: &str, p: &str) -> (res: bool)
    ensures
        res == contains_seq(s@, p@),
{
    let s_len = s.unicode_len();
    let p_len = p.unicode_len();
    let mut i: usize = 0;
    while i < s_len
        invariant
            s_len == s@.len(),
            p_len == p@.len(),
            i <= s_len,
            forall|j: int| 0 <= j < i ==> !occurs_at(s@, p@, j),
        decreases s_len - i,
    {
        if matches_at(s, p, i, s_len, p_len) {
            return true;
        }
        i = i + 1;
    }
    if matches_at(s, p, s_len, s_len, p_len) {
        return true;
    }
    assert forall|j: int| !occurs_at(s@, p@, j) by {
        if occurs_at(s@, p@, j) {
            assert(j <= s_len);
        }
    }
    false
}

/// `s` without its trailing occurrences of `c` (as `str::trim_end_matches` with a
/// character pattern).
pub fn trim_end_matches_char(s: &str, c: char) -> (res: String)
    ensures
        res@ == trim_end_char(s@, c),
{
    let mut n = s.unicode_len();
    assert(s@.subrange(0, n as int) =~= s@);
    while n > 0 && s.get_char(n - 1) == c
        invariant
            n <= s@.len(),
            trim_end_char(s@, c) == trim_end_char(s@.subrange(0, n as int), c),
        decreases n,
    {
        assert(s@.subrange(0, n as int).drop_last() =~= s@.subrange(0, n - 1));
        n = n - 1;
    }
    let kept = s.substring_char(0, n);
    assert(s@.subrange(0, 0) =~= Seq::<char>::empty());
    String::from_str(kept)
}

pub proof fn lemma_occurs_at_skip(s: Seq<char>, p: Seq<char>, i: int, k: int)
    requires
        0 <= k <= i,
        k <= s.len(),
    ensures
        occurs_at(s, p, i) == occurs_at(s.skip(k), p, i - k),
{
    if occurs_at(s, p, i) {
        assert(s.skip(k).subrange(i - k, i - k + p.len()) =~= s.subrange(i, i + p.len()));
    }
    if occurs_at(s.skip(k), p, i - k) {
        assert(s.skip(k).subrange(i - k, i - k + p.len()) =~= s.subrange(i, i + p.len()));
    }
}

/// `s` with every non-overlapping occurrence of `from` replaced by `to`
/// (as `str::replace` with a non-empty pattern).
pub fn str_replace(s: &str, from: &str, to: &str) -> (res: String)
    requires
        from@.len() > 0,
    ensures
        res@ == replace_all(s@, from@, to@),
{
    let s_len = s.unicode_len();
    let f_len = from.unicode_len();
    let mut out = String::new();
    let mut i: usize = 0;
    assert(s@.skip(0) =~= s@);
    assert(out@ + replace_all(s@, from@, to@) =~= replace_all(s@, from@, to@));
    while i < s_len
        invariant
            s_len == s@.len(),
            f_len == from@.len(),
            f_len > 0,
            i <= s_len,
            out@ + replace_all(s@.skip(i as int), from@, to@) == replace_all(s@, from@, to@),
        decreases s_len - i,
    {
        let ghost rest = s@.skip(i as int);
        let hit = matches_at(s, from, i, s_len, f_len);
        proof {
            lemma_occurs_at_skip(s@, from@, i as int, i as int);
            assert(rest.len() > 0);
        }
        if hit {
            let ghost before = out@;
            out.append(to);
            proof {
                assert(rest.skip(f_len as int) =~= s@.skip(i + f_len));
                assert(out@ + replace_all(s@.skip(i + f_len), from@, to@) =~= before + (to@
                    + replace_all(rest.skip(f_len as int), from@, to@)));
            }
            i = i + f_len;
        } else {
            let one = s.substring_char(i, i + 1);
            let ghost before = out@;
            out.append(one);
            proof {
                assert(one@ =~= seq![rest[0]]);
                assert(rest.skip(1) =~= s@.skip(i + 1));
                assert(out@ + replace_all(s@.skip(i + 1), from@, to@) =~= before + (seq![rest[0]]
                    + replace_all(rest.skip(1), from@, to@)));
            }
            i = i + 1;
        }
    }
    proof {
        assert(s@.skip(i as int).len() == 0);
        assert(out@ + replace_all(s@.skip(i as int), from@, to@) =~= out@);
    }
    out
}

/// Equality up to ASCII case (as `str::eq_ignore_ascii_case`).
pub fn str_eq_ignore_ascii_case(a: &str, b: &str) -> (res: bool)
    ensures
        res == eq_ignore_ascii_case_seq(a@, b@),
{
    let a_len = a.unicode_len();
    let b_len = b.unicode_len();
    if a_len != b_len {
        return false;
    }
    let mut i: usize = 0;
    while i < a_len
        invariant
            a_len == a@.len(),
            b_len == b@.len(),
            a_len == b_len,
            i <= a_len,
            forall|j: int| 0 <= j < i ==> ascii_fold(a@[j]) == ascii_fold(b@[j]),
        decreases a_len - i,
    {
        let x = a.get_char(i);
        let y = b.get_char(i);
        let xv: u32 = if 'A' <= x && x <= 'Z' {
            x as u32 + 32
        } else {
            x as u32
        };
        let yv: u32 = if 'A' <= y && y <= 'Z' {
            y as u32 + 32
        } else {
            y as u32
        };
        if xv != yv {
            return false;
        }
        i = i + 1;
    }
    true
}

/// The one-character string of a digit value below sixteen.
fn digit_str(d: u32) -> (res: &'static str)
    requires
        d < 16,
    ensures
        res@ == seq![digit_char(d as nat)],
{
    let digits = "0123456789abcdef";
    proof {
        reveal_strlit("0123456789abcdef");
    }
    let res = digits.substring_char(d as usize, d as usize + 1);
    assert(res@ =~= seq![digit_char(d as nat)]);
    res
}

/// Notation of `n` in base `b` (two to sixteen), as `to_string` writes it for
/// base ten and `{:x}` for base sixteen.
pub fn u128_in_base(n: u128, b: u32) -> (res: String)
    requires
        2 <= b <= 16,
    ensures
        res@ == in_base(n as nat, b as nat),
    decreases n,
{
    if n < b as u128 {
        String::from_str(digit_str(n as u32))
    } else {
        assert(n / (b as u128) < n) by (nonlinear_arith)
            requires
                b >= 2,
                n >= b,
        ;
        let mut res = u128_in_base(n / b as u128, b);
        res.append(digit_str((n % b as u128) as u32));
        res
    }
}

/// Decimal notation of `n` (as `u128::to_string`).
pub fn decimal_string(n: u128) -> (res: String)
    ensures
        res@ == decimal(n as nat),
{
    u128_in_base(n, 10)
}

/// `0x` and the lower-case hexadecimal notation of `n` (as `format!("{:#x}", n)`).
pub fn hex_prefixed_string(n: u64) -> (res: String)
    ensures
        res@ == hex_prefixed(n as nat),
{
    let mut res = String::from_str("0x");
    proof {
        reveal_strlit("0x");
    }
    let digits = u128_in_base(n as u128, 16);
    res.append(digits.as_str());
    res
}

// ------------------------------------------------------------------------
// Laws
// ------------------------------------------------------------------------

/// Trimming leaves no trailing `c`.
pub proof fn lemma_trim_end_char_no_trailing(s: Seq<char>, c: char)
    ensures
        trim_end_char(s, c).len() > 0 ==> trim_end_char(s, c).last() != c,
    decreases s.len(),
{
    if s.len() > 0 && s.last() == c {
        lemma_trim_end_char_no_trailing(s.drop_last(), c);
    }
}

/// Trimming twice is trimming once.
pub proof fn lemma_trim_end_char_idempotent(s: Seq<char>, c: char)
    ensures
        trim_end_char(trim_end_char(s, c), c) == trim_end_char(s, c),
{
    lemma_trim_end_char_no_trailing(s, c);
}

/// Trimming removes a suffix made only of `c`.
pub proof fn lemma_trim_end_char_prefix(s: Seq<char>, c: char)
    ensures
        trim_end_char(s, c).len() <= s.len(),
        trim_end_char(s, c) == s.subrange(0, trim_end_char(s, c).len() as int),
        forall|i: int| trim_end_char(s, c).len() <= i < s.len() ==> #[trigger] s[i] == c,
    decreases s.len(),
{
    if s.len() > 0 && s.last() == c {
        lemma_trim_end_char_prefix(s.drop_last(), c);
        assert(s.drop_last().subrange(0, trim_end_char(s, c).len() as int) =~= s.subrange(
            0,
            trim_end_char(s, c).len() as int,
        ));
        assert forall|i: int| trim_end_char(s, c).len() <= i < s.len() implies #[trigger] s[i]
            == c by {
            if i < s.len() - 1 {
                assert(s[i] == s.drop_last()[i]);
            }
        }
    } else {
        assert(s.subrange(0, s.len() as int) =~= s);
    }
}

/// The value of a digit character (the inverse of [`digit_char`]).
pub open spec fn digit_value(c: char) -> int {
    if '0' <= c && c <= '9' {
        c as int - '0' as int
    } else {
        c as int - 'a' as int + 10
    }
}

/// The number that a sequence of digits writes in base `b`.
pub open spec fn value_in_base(s: Seq<char>, b: nat) -> int
    decreases s.len(),
{
    if s.len() == 0 {
        0
    } else {
        value_in_base(s.drop_last(), b) * b + digit_value(s.last())
    }
}

/// Reading back a digit gives its value.
proof fn lemma_digit_value(d: nat)
    requires
        d < 16,
    ensures
        digit_value(digit_char(d)) == d,
        d >= 1 ==> digit_char(d) != '0',
{
}

/// Reading back the notation of `n` in base `b` gives `n`; the notation is one
/// digit exactly when `n < b`, and starts with `0` only when `n` is zero.
pub proof fn lemma_in_base_value(n: nat, b: nat)
    requires
        2 <= b <= 16,
    ensures
        value_in_base(in_base(n, b), b) == n,
        in_base(n, b).len() > 0,
        in_base(n, b).len() == 1 <==> n < b,
        n >= 1 ==> in_base(n, b)[0] != '0',
    decreases n,
{
    if n < b {
        lemma_digit_value(n);
        assert(in_base(n, b).drop_last() =~= Seq::<char>::empty());
        assert(value_in_base(in_base(n, b).drop_last(), b) == 0);
        assert(value_in_base(in_base(n, b), b) == 0 * b + digit_value(digit_char(n)));
    } else {
        assert(n / b < n && n / b >= 1 && n % b < b) by (nonlinear_arith)
            requires
                b >= 2,
                n >= b,
        ;
        lemma_in_base_value(n / b, b);
        lemma_digit_value(n % b);
        let s = in_base(n, b);
        assert(s == in_base(n / b, b) + seq![digit_char(n % b)]);
        assert(s.drop_last() =~= in_base(n / b, b));
        assert(n == (n / b) * b + n % b) by (nonlinear_arith)
            requires
                b >= 2,
        ;
        assert(s[0] == in_base(n / b, b)[0]);
        assert(s.last() == digit_char(n % b));
        assert(value_in_base(s, b) == value_in_base(in_base(n / b, b), b) * b + digit_value(
            digit_char(n % b),
        ));
    }
}

/// Replacing a pattern that does not occur leaves the text unchanged.
pub proof fn lemma_replace_absent(s: Seq<char>, from: Seq<char>, to: Seq<char>)
    requires
        !contains_seq(s, from),
    ensures
        replace_all(s, from, to) == s,
    decreases s.len(),
{
    if s.len() > 0 && from.len() > 0 {
        assert(!occurs_at(s, from, 0));
        assert forall|i: int| !occurs_at(s.skip(1), from, i) by {
            if 0 <= i {
                lemma_occurs_at_skip(s, from, i + 1, 1);
            }
        }
        lemma_replace_absent(s.skip(1), from, to);
        assert(seq![s[0]] + s.skip(1) =~= s);
    }
}

/// No occurrence of `p` in `a + b` starts in `a` and ends in `b`.
pub open spec fn no_straddle(a: Seq<char>, b: Seq<char>, p: Seq<char>) -> bool {
    forall|i: int| 0 <= i < a.len() < i + p.len() ==> !#[trigger] occurs_at(a + b, p, i)
}

/// Replacing in a concatenation is replacing in each part, when no occurrence
/// of the pattern straddles the two.
pub proof fn lemma_replace_concat(a: Seq<char>, b: Seq<char>, from: Seq<char>, to: Seq<char>)
    requires
        from.len() > 0,
        no_straddle(a, b, from),
    ensures
        replace_all(a + b, from, to) == replace_all(a, from, to) + replace_all(b, from, to),
    decreases a.len(),
{
    let s = a + b;
    if a.len() == 0 {
        assert(s =~= b);
        assert(replace_all(a, from, to) =~= Seq::<char>::empty());
    } else {
        if occurs_at(s, from, 0) {
            assert(from.len() <= a.len());
            assert(a.subrange(0, from.len() as int) =~= s.subrange(0, from.len() as int));
            assert(occurs_at(a, from, 0));
            let a2 = a.skip(from.len() as int);
            assert(s.skip(from.len() as int) =~= a2 + b);
            assert forall|i: int| 0 <= i < a2.len() < i + from.len() implies !#[trigger] occurs_at(
                a2 + b,
                from,
                i,
            ) by {
                lemma_occurs_at_skip(s, from, i + from.len(), from.len() as int);
                assert(!occurs_at(s, from, i + from.len()));
            }
            lemma_replace_concat(a2, b, from, to);
            assert(replace_all(s, from, to) =~= to + replace_all(a2 + b, from, to));
            assert(replace_all(a, from, to) =~= to + replace_all(a2, from, to));
        } else {
            if occurs_at(a, from, 0) {
                assert(s.subrange(0, from.len() as int) =~= a.subrange(0, from.len() as int));
            }
            let a2 = a.skip(1);
            assert(s.skip(1) =~= a2 + b);
            assert forall|i: int| 0 <= i < a2.len() < i + from.len() implies !#[trigger] occurs_at(
                a2 + b,
                from,
                i,
            ) by {
                lemma_occurs_at_skip(s, from, i + 1, 1);
                assert(!occurs_at(s, from, i + 1));
            }
            lemma_replace_concat(a2, b, from, to);
            assert(s[0] == a[0]);
            assert(replace_all(s, from, to) =~= seq![s[0]] + replace_all(a2 + b, from, to));
            assert(replace_all(a, from, to) =~= seq![a[0]] + replace_all(a2, from, to));
        }
    }
}

/// A pattern holding no `c` never straddles `a + b` when `b` starts with `c`.
pub proof fn lemma_no_straddle_at_char(a: Seq<char>, b: Seq<char>, p: Seq<char>, c: char)
    requires
        b.len() > 0,
        b[0] == c,
        forall|k: int| 0 <= k < p.len() ==> p[k] != c,
    ensures
        no_straddle(a, b, p),
{
    assert forall|i: int| 0 <= i < a.len() < i + p.len() implies !#[trigger] occurs_at(a + b, p, i) by {
        if occurs_at(a + b, p, i) {
            let k = a.len() - i;
            assert((a + b).subrange(i, i + p.len())[k] == p[k]);
            assert((a + b)[a.len() as int] == c);
        }
    }
}

} // verus!
