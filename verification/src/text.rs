//! Verified utilities over `String` and `&str`, stated against their
//! `Seq<char>` views: substring search, splitting, joining, line
//! separation, and decimal conversion.

use vstd::prelude::*;
use vstd::string::StrSliceExecFns;
use vstd::string::StringExecFns;

use crate::occurs_at;

verus! {

/// Whether `needle` occurs anywhere in `hay`.
pub open spec fn contains_sub_spec(hay: Seq<char>, needle: Seq<char>) -> bool {
    exists|i: int| occurs_at(hay, needle, i)
}

/// First index `>= from` where `c` occurs, or `s.len()` when it does not.
pub open spec fn find_idx(s: Seq<char>, c: char, from: int) -> int
    decreases s.len() - from,
{
    if from < 0 || from >= s.len() {
        s.len() as int
    } else if s[from] == c {
        from
    } else {
        find_idx(s, c, from + 1)
    }
}

/// Last index `< upto` where `c` occurs, or `-1` when it does not.
pub open spec fn rfind_idx(s: Seq<char>, c: char, upto: int) -> int
    decreases upto,
{
    if upto <= 0 || upto > s.len() {
        -1
    } else if s[upto - 1] == c {
        upto - 1
    } else {
        rfind_idx(s, c, upto - 1)
    }
}

pub proof fn lemma_find_idx(s: Seq<char>, c: char, from: int)
    requires
        0 <= from <= s.len(),
    ensures
        from <= find_idx(s, c, from) <= s.len(),
        find_idx(s, c, from) < s.len() ==> s[find_idx(s, c, from)] == c,
        forall|j: int| from <= j < find_idx(s, c, from) ==> s[j] != c,
    decreases s.len() - from,
{
    if from < s.len() && s[from] != c {
        lemma_find_idx(s, c, from + 1);
    }
}

pub proof fn lemma_rfind_idx(s: Seq<char>, c: char, upto: int)
    requires
        0 <= upto <= s.len(),
    ensures
        -1 <= rfind_idx(s, c, upto) < upto,
        rfind_idx(s, c, upto) >= 0 ==> s[rfind_idx(s, c, upto)] == c,
        forall|j: int| rfind_idx(s, c, upto) < j < upto ==> s[j] != c,
    decreases upto,
{
    if upto > 0 && s[upto - 1] != c {
        lemma_rfind_idx(s, c, upto - 1);
    }
}

/// Whether the two string slices hold the same characters.
pub fn str_eq(a: &str, b: &str) -> (r: bool)
    ensures
        r == (a@ == b@),
{
    let alen = a.unicode_len();
    let blen = b.unicode_len();
    if alen != blen {
        return false;
    }
    let mut i: usize = 0;
    while i < alen
        invariant
            0 <= i <= alen,
            alen == a@.len(),
            alen == b@.len(),
            forall|j: int| 0 <= j < i ==> a@[j] == b@[j],
        decreases alen - i,
    {
        if a.get_char(i) != b.get_char(i) {
            return false;
        }
        i = i + 1;
    }
    proof {
        assert(a@ =~= b@);
    }
    true
}

/// Whether `p` is a prefix of `s`.
pub open spec fn is_prefix(s: Seq<char>, p: Seq<char>) -> bool {
    occurs_at(s, p, 0)
}

pub fn starts_with_str(s: &str, p: &str) -> (r: bool)
    ensures
        r == is_prefix(s@, p@),
{
    let slen = s.unicode_len();
    let plen = p.unicode_len();
    if plen > slen {
        proof {
            assert(!occurs_at(s@, p@, 0));
        }
        return false;
    }
    let head = s.substring_char(0, plen);
    str_eq(head, p)
}

/// First index at which `needle` occurs in `hay`, scanning left to right.
pub fn find_sub(hay: &str, needle: &str) -> (r: Option<usize>)
    ensures
        match r {
            Some(i) => occurs_at(hay@, needle@, i as int) && forall|j: int|
                0 <= j < i ==> !occurs_at(hay@, needle@, j),
            None => forall|j: int| !occurs_at(hay@, needle@, j),
        },
{
    let hlen = hay.unicode_len();
    let nlen = needle.unicode_len();
    if nlen > hlen {
        return None;
    }
    if nlen == 0 {
        proof {
            assert(hay@.subrange(0, 0) =~= needle@);
        }
        return Some(0);
    }
    let mut i: usize = 0;
    while i <= hlen - nlen
        invariant
            0 <= i,
            i <= hlen - nlen + 1,
            1 <= nlen <= hlen,
            hlen == hay@.len(),
            nlen == needle@.len(),
            forall|j: int| 0 <= j < i ==> !occurs_at(hay@, needle@, j),
        decreases hlen - i,
    {
        let window = hay.substring_char(i, i + nlen);
        if str_eq(window, needle) {
            return Some(i);
        }
        proof {
            assert(!occurs_at(hay@, needle@, i as int));
        }
        i = i + 1;
    }
    proof {
        assert(forall|j: int| j > hay@.len() - needle@.len() ==> !occurs_at(hay@, needle@, j));
    }
    None
}

pub fn contains_sub(hay: &str, needle: &str) -> (r: bool)
    ensures
        r == contains_sub_spec(hay@, needle@),
{
    match find_sub(hay, needle) {
        Some(i) => {
            proof {
                assert(occurs_at(hay@, needle@, i as int));
            }
            true
        },
        None => false,
    }
}

/// First index of `c` in `s` at or after `from`, returned as `s.len()` when
/// `c` does not occur there.
pub fn find_char_from(s: &str, c: char, from: usize) -> (r: usize)
    requires
        from <= s@.len(),
    ensures
        r == find_idx(s@, c, from as int),
        from <= r <= s@.len(),
        r < s@.len() ==> s@[r as int] == c,
        forall|j: int| from <= j < r ==> s@[j] != c,
{
    proof {
        lemma_find_idx(s@, c, from as int);
    }
    let slen = s.unicode_len();
    let mut i: usize = from;
    while i < slen
        invariant
            from <= i <= slen,
            slen == s@.len(),
            forall|j: int| from <= j < i ==> s@[j] != c,
        decreases slen - i,
    {
        if s.get_char(i) == c {
            proof {
                lemma_find_idx(s@, c, from as int);
                assert(find_idx(s@, c, from as int) == i);
            }
            return i;
        }
        i = i + 1;
    }
    proof {
        lemma_find_idx(s@, c, from as int);
        assert(find_idx(s@, c, from as int) == s@.len());
    }
    slen
}

pub fn find_char(s: &str, c: char) -> (r: usize)
    ensures
        r == find_idx(s@, c, 0),
        0 <= r <= s@.len(),
        r < s@.len() ==> s@[r as int] == c,
        forall|j: int| 0 <= j < r ==> s@[j] != c,
{
    find_char_from(s, c, 0)
}

pub fn rfind_char(s: &str, c: char) -> (r: Option<usize>)
    ensures
        match r {
            Some(i) => i == rfind_idx(s@, c, s@.len() as int) && i < s@.len() && s@[i as int]
                == c && forall|j: int| i < j < s@.len() ==> s@[j] != c,
            None => rfind_idx(s@, c, s@.len() as int) == -1 && forall|j: int|
                0 <= j < s@.len() ==> s@[j] != c,
        },
{
    proof {
        lemma_rfind_idx(s@, c, s@.len() as int);
    }
    let slen = s.unicode_len();
    let mut i: usize = slen;
    while i > 0
        invariant
            0 <= i <= slen,
            slen == s@.len(),
            forall|j: int| i <= j < slen ==> s@[j] != c,
        decreases i,
    {
        i = i - 1;
        if s.get_char(i) == c {
            proof {
                lemma_rfind_idx(s@, c, s@.len() as int);
                assert(rfind_idx(s@, c, s@.len() as int) == i);
            }
            return Some(i);
        }
    }
    proof {
        lemma_rfind_idx(s@, c, s@.len() as int);
    }
    None
}

/// `a + b` as a fresh `String`.
pub fn concat2(a: &str, b: &str) -> (r: String)
    ensures
        r@ == a@ + b@,
{
    let mut s = String::from_str(a);
    s.append(b);
    s
}

pub fn concat3(a: &str, b: &str, c: &str) -> (r: String)
    ensures
        r@ == a@ + b@ + c@,
{
    let mut s = String::from_str(a);
    s.append(b);
    s.append(c);
    s
}

/// The pieces of `s` between occurrences of `sep`, in order. A string
/// without `sep` yields itself as the single piece.
pub open spec fn split_spec(s: Seq<char>, sep: char) -> Seq<Seq<char>>
    decreases s.len(),
    via split_spec_decreases
{
    let i = find_idx(s, sep, 0);
    if i == s.len() {
        seq![s]
    } else {
        seq![s.take(i)] + split_spec(s.skip(i + 1), sep)
    }
}

#[via_fn]
proof fn split_spec_decreases(s: Seq<char>, sep: char) {
    lemma_find_idx(s, sep, 0);
}

pub fn split_on_char(s: &str, sep: char) -> (r: Vec<String>)
    ensures
        r.deep_view() == split_spec(s@, sep),
{
    let mut out: Vec<String> = Vec::new();
    let mut rest = s;
    proof {
        assert(out.deep_view() + split_spec(rest@, sep) == split_spec(s@, sep));
    }
    loop
        invariant
            out.deep_view() + split_spec(rest@, sep) == split_spec(s@, sep),
        decreases rest@.len(),
    {
        proof {
            lemma_find_idx(rest@, sep, 0);
        }
        let i = find_char(rest, sep);
        let rlen = rest.unicode_len();
        if i == rlen {
            let piece = String::from_str(rest);
            out.push(piece);
            proof {
                assert(split_spec(rest@, sep) == seq![rest@]);
                assert(out.deep_view() =~= split_spec(s@, sep));
            }
            return out;
        } else {
            let piece = String::from_str(rest.substring_char(0, i));
            let ghost prev = out.deep_view();
            out.push(piece);
            let next = rest.substring_char(i + 1, rlen);
            proof {
                assert(rest@.take(i as int) == rest@.subrange(0, i as int));
                assert(next@ == rest@.skip(i + 1));
                assert(out.deep_view() =~= prev + seq![rest@.take(i as int)]);
                assert(prev + split_spec(rest@, sep) == split_spec(s@, sep));
                assert(split_spec(rest@, sep) == seq![rest@.take(i as int)] + split_spec(
                    rest@.skip(i + 1),
                    sep,
                ));
                assert(out.deep_view() + split_spec(next@, sep) =~= split_spec(s@, sep));
            }
            rest = next;
        }
    }
}

/// The pieces joined with `sep` between consecutive pieces.
pub open spec fn join_spec(parts: Seq<Seq<char>>, sep: Seq<char>) -> Seq<char>
    decreases parts.len(),
{
    if parts.len() == 0 {
        Seq::empty()
    } else if parts.len() == 1 {
        parts[0]
    } else {
        parts[0] + sep + join_spec(parts.skip(1), sep)
    }
}

/// Appending one more piece extends the joined string by the separator and
/// that piece.
pub proof fn lemma_join_snoc(parts: Seq<Seq<char>>, x: Seq<char>, sep: Seq<char>)
    ensures
        join_spec(parts.push(x), sep) == if parts.len() == 0 {
            x
        } else {
            join_spec(parts, sep) + sep + x
        },
    decreases parts.len(),
{
    if parts.len() == 0 {
        assert(parts.push(x).len() == 1);
        assert(parts.push(x)[0] == x);
    } else {
        assert(parts.push(x).skip(1) =~= parts.skip(1).push(x));
        lemma_join_snoc(parts.skip(1), x, sep);
        if parts.len() == 1 {
            assert(parts.skip(1).len() == 0);
            assert(join_spec(parts.push(x), sep) == parts[0] + sep + x);
            assert(join_spec(parts, sep) == parts[0]);
        } else {
            assert(join_spec(parts.push(x), sep) == parts[0] + sep + (join_spec(parts.skip(1), sep)
                + sep + x));
            assert(join_spec(parts, sep) + sep + x == (parts[0] + sep + join_spec(
                parts.skip(1),
                sep,
            )) + sep + x);
            assert(parts[0] + sep + (join_spec(parts.skip(1), sep) + sep + x) =~= (parts[0] + sep
                + join_spec(parts.skip(1), sep)) + sep + x);
        }
    }
}

pub fn join_with(parts: &Vec<String>, sep: &str) -> (r: String)
    ensures
        r@ == join_spec(parts.deep_view(), sep@),
{
    let mut out = String::new();
    let mut i: usize = 0;
    while i < parts.len()
        invariant
            0 <= i <= parts@.len(),
            out@ == join_spec(parts.deep_view().take(i as int), sep@),
        decreases parts@.len() - i,
    {
        if i > 0 {
            out.append(sep);
        }
        out.append(parts[i].as_str());
        proof {
            let pv = parts.deep_view();
            assert(pv.take(i + 1) =~= pv.take(i as int).push(pv[i as int]));
            lemma_join_snoc(pv.take(i as int), pv[i as int], sep@);
            assert(pv[i as int] == parts@[i as int]@);
            if i == 0 {
                assert(out@ =~= Seq::<char>::empty() + parts@[i as int]@);
                assert(out@ == join_spec(pv.take(i + 1), sep@));
            } else {
                assert(out@ == join_spec(pv.take(i as int), sep@) + sep@ + pv[i as int]);
            }
        }
        i = i + 1;
    }
    proof {
        assert(parts.deep_view().take(parts@.len() as int) =~= parts.deep_view());
    }
    out
}

pub open spec fn is_digit_char(c: char) -> bool {
    '0' <= c <= '9'
}

pub open spec fn all_digits(s: Seq<char>) -> bool {
    forall|i: int| 0 <= i < s.len() ==> is_digit_char(#[trigger] s[i])
}

pub open spec fn digit_char(d: nat) -> char {
    if d == 0 {
        '0'
    } else if d == 1 {
        '1'
    } else if d == 2 {
        '2'
    } else if d == 3 {
        '3'
    } else if d == 4 {
        '4'
    } else if d == 5 {
        '5'
    } else if d == 6 {
        '6'
    } else if d == 7 {
        '7'
    } else if d == 8 {
        '8'
    } else {
        '9'
    }
}

pub open spec fn digit_val(c: char) -> nat {
    if c == '0' {
        0
    } else if c == '1' {
        1
    } else if c == '2' {
        2
    } else if c == '3' {
        3
    } else if c == '4' {
        4
    } else if c == '5' {
        5
    } else if c == '6' {
        6
    } else if c == '7' {
        7
    } else if c == '8' {
        8
    } else {
        9
    }
}

/// The number a string of decimal digits denotes.
pub open spec fn digits_val(s: Seq<char>) -> nat
    decreases s.len(),
{
    if s.len() == 0 {
        0
    } else {
        digits_val(s.drop_last()) * 10 + digit_val(s.last())
    }
}

/// The canonical (no leading zero) decimal form of `n`.
pub open spec fn dec_digits(n: nat) -> Seq<char>
    decreases n,
{
    if n < 10 {
        seq![digit_char(n)]
    } else {
        dec_digits(n / 10) + seq![digit_char(n % 10)]
    }
}

pub open spec fn pow10(k: nat) -> nat
    decreases k,
{
    if k == 0 {
        1
    } else {
        10 * pow10((k - 1) as nat)
    }
}

pub proof fn lemma_digits_val_bound(s: Seq<char>)
    ensures
        digits_val(s) < pow10(s.len()),
    decreases s.len(),
{
    if s.len() > 0 {
        lemma_digits_val_bound(s.drop_last());
        assert(digit_val(s.last()) <= 9);
        assert(pow10(s.len()) == 10 * pow10((s.len() - 1) as nat));
    }
}

pub proof fn lemma_digits_val_lower(s: Seq<char>)
    requires
        s.len() > 0,
        s[0] != '0',
        all_digits(s),
    ensures
        digits_val(s) >= pow10((s.len() - 1) as nat),
    decreases s.len(),
{
    if s.len() == 1 {
        assert(digits_val(s) == digits_val(s.drop_last()) * 10 + digit_val(s.last()));
        assert(s.drop_last().len() == 0);
        assert(digit_val(s[0]) >= 1);
    } else {
        assert(s.drop_last()[0] == s[0]);
        assert(all_digits(s.drop_last())) by {
            assert(forall|i: int|
                0 <= i < s.drop_last().len() ==> #[trigger] s.drop_last()[i] == s[i]);
        }
        lemma_digits_val_lower(s.drop_last());
        assert(pow10((s.len() - 1) as nat) == 10 * pow10((s.len() - 2) as nat));
    }
}

/// A leading zero does not change the denoted number.
pub proof fn lemma_digits_val_leading_zero(s: Seq<char>)
    requires
        s.len() > 0,
        s[0] == '0',
    ensures
        digits_val(s) == digits_val(s.skip(1)),
    decreases s.len(),
{
    if s.len() == 1 {
        assert(s.skip(1).len() == 0);
        assert(digits_val(s) == digits_val(s.drop_last()) * 10 + digit_val(s.last()));
    } else {
        assert(s.drop_last()[0] == '0');
        lemma_digits_val_leading_zero(s.drop_last());
        assert(s.drop_last().skip(1) =~= s.skip(1).drop_last());
        assert(s.skip(1).last() == s.last());
    }
}

pub proof fn lemma_dec_digits_roundtrip(n: nat)
    ensures
        dec_digits(n).len() > 0,
        all_digits(dec_digits(n)),
        digits_val(dec_digits(n)) == n,
        n >= 10 ==> dec_digits(n)[0] != '0',
        n < 10 ==> dec_digits(n) == seq![digit_char(n)],
    decreases n,
{
    if n < 10 {
        let s = dec_digits(n);
        assert(s.len() == 1);
        assert(s.drop_last().len() == 0);
        assert(digits_val(s.drop_last()) == 0);
        assert(s.last() == digit_char(n));
        assert(digits_val(s) == digits_val(s.drop_last()) * 10 + digit_val(s.last()));
        assert(digits_val(s) == digit_val(digit_char(n)));
    } else {
        lemma_dec_digits_roundtrip(n / 10);
        let p = dec_digits(n / 10);
        let s = dec_digits(n);
        assert(s == p + seq![digit_char(n % 10)]);
        assert(s.drop_last() =~= p);
        assert(s.last() == digit_char(n % 10));
        assert(digits_val(s) == digits_val(p) * 10 + digit_val(digit_char(n % 10)));
        assert(digit_val(digit_char(n % 10)) == n % 10);
        assert((n / 10) * 10 + n % 10 == n) by (nonlinear_arith);
        assert(s[0] == p[0]);
        assert(p[0] != '0') by {
            if n / 10 >= 10 {
            } else {
                assert(p == seq![digit_char((n / 10) as nat)]);
                assert(n / 10 >= 1);
            }
        }
        assert(forall|i: int| 0 <= i < s.len() ==> is_digit_char(#[trigger] s[i])) by {
            assert(forall|i: int| 0 <= i < p.len() ==> #[trigger] s[i] == p[i]);
        }
    }
}

pub proof fn lemma_digits_val_skip_zeros(s: Seq<char>, k: int)
    requires
        0 <= k <= s.len(),
        forall|i: int| 0 <= i < k ==> s[i] == '0',
    ensures
        digits_val(s) == digits_val(s.skip(k)),
    decreases k,
{
    if k > 0 {
        lemma_digits_val_leading_zero(s);
        assert(s.skip(1).skip(k - 1) =~= s.skip(k));
        assert(forall|i: int| 0 <= i < k - 1 ==> #[trigger] s.skip(1)[i] == s[i + 1]);
        lemma_digits_val_skip_zeros(s.skip(1), k - 1);
    } else {
        assert(s.skip(0) =~= s);
    }
}

proof fn lemma_pow10_19()
    ensures
        pow10(5) == 100000,
        pow10(10) == 10000000000,
        pow10(19) == 10000000000000000000,
{
    assert(pow10(0) == 1);
    assert(pow10(1) == 10);
    assert(pow10(2) == 100);
    assert(pow10(3) == 1000);
    assert(pow10(4) == 10000);
    assert(pow10(5) == 100000);
    assert(pow10(6) == 1000000);
    assert(pow10(7) == 10000000);
    assert(pow10(8) == 100000000);
    assert(pow10(9) == 1000000000);
    assert(pow10(10) == 10000000000);
    assert(pow10(11) == 100000000000);
    assert(pow10(12) == 1000000000000);
    assert(pow10(13) == 10000000000000);
    assert(pow10(14) == 100000000000000);
    assert(pow10(15) == 1000000000000000);
    assert(pow10(16) == 10000000000000000);
    assert(pow10(17) == 100000000000000000);
    assert(pow10(18) == 1000000000000000000);
    assert(pow10(19) == 10000000000000000000);
}

fn digit_str(d: u16) -> (r: &'static str)
    requires
        d < 10,
    ensures
        r@ == seq![digit_char(d as nat)],
{
    let r: &'static str = if d == 0 {
        "0"
    } else if d == 1 {
        "1"
    } else if d == 2 {
        "2"
    } else if d == 3 {
        "3"
    } else if d == 4 {
        "4"
    } else if d == 5 {
        "5"
    } else if d == 6 {
        "6"
    } else if d == 7 {
        "7"
    } else if d == 8 {
        "8"
    } else {
        "9"
    };
    proof {
        reveal_strlit("0");
        reveal_strlit("1");
        reveal_strlit("2");
        reveal_strlit("3");
        reveal_strlit("4");
        reveal_strlit("5");
        reveal_strlit("6");
        reveal_strlit("7");
        reveal_strlit("8");
        reveal_strlit("9");
        assert(r@ =~= seq![digit_char(d as nat)]);
    }
    r
}

fn digit_of(c: char) -> (r: u8)
    requires
        is_digit_char(c),
    ensures
        r as nat == digit_val(c),
        r <= 9,
{
    if c == '0' {
        0
    } else if c == '1' {
        1
    } else if c == '2' {
        2
    } else if c == '3' {
        3
    } else if c == '4' {
        4
    } else if c == '5' {
        5
    } else if c == '6' {
        6
    } else if c == '7' {
        7
    } else if c == '8' {
        8
    } else {
        9
    }
}

/// Renders `n` in canonical decimal form.
pub fn u16_to_dec(n: u16) -> (r: String)
    ensures
        r@ == dec_digits(n as nat),
    decreases n,
{
    if n < 10 {
        String::from_str(digit_str(n))
    } else {
        let mut s = u16_to_dec(n / 10);
        s.append(digit_str(n % 10));
        proof {
            assert(s@ =~= dec_digits((n / 10) as nat) + seq![digit_char((n % 10) as nat)]);
        }
        s
    }
}

/// Parses a decimal digit string whose value is at most `bound`; rejects
/// empty input, non-digits, and values over the bound.
fn parse_dec_le(s: &str, bound: u64) -> (r: Option<u64>)
    requires
        (bound as nat) < pow10(19),
    ensures
        match r {
            Some(v) => s@.len() > 0 && all_digits(s@) && digits_val(s@) == v as nat && v <= bound,
            None => s@.len() == 0 || !all_digits(s@) || digits_val(s@) > bound as nat,
        },
{
    proof {
        lemma_pow10_19();
    }
    let slen = s.unicode_len();
    if slen == 0 {
        return None;
    }
    // Every character must be a digit.
    let mut i: usize = 0;
    while i < slen
        invariant
            0 <= i <= slen,
            slen == s@.len(),
            forall|j: int| 0 <= j < i ==> is_digit_char(#[trigger] s@[j]),
        decreases slen - i,
    {
        let c = s.get_char(i);
        if !('0' <= c && c <= '9') {
            return None;
        }
        i = i + 1;
    }
    // Skip leading zeros.
    let mut z: usize = 0;
    while z < slen && s.get_char(z) == '0'
        invariant
            0 <= z <= slen,
            slen == s@.len(),
            forall|j: int| 0 <= j < z ==> s@[j] == '0',
        decreases slen - z,
    {
        z = z + 1;
    }
    proof {
        lemma_digits_val_skip_zeros(s@, z as int);
    }
    let ghost t = s@.skip(z as int);
    proof {
        assert(forall|j: int| 0 <= j < t.len() ==> #[trigger] t[j] == s@[j + z]);
        assert(all_digits(t));
    }
    if slen - z > 19 {
        proof {
            assert(t[0] != '0');
            lemma_digits_val_lower(t);
            vstd::arithmetic::power::lemma_pow_increases(10, 19, (t.len() - 1) as nat);
            assert(pow10((t.len() - 1) as nat) >= pow10(19)) by {
                lemma_pow10_monotone(19, (t.len() - 1) as nat);
            }
        }
        return None;
    }
    let mut acc: u64 = 0;
    let mut j: usize = z;
    while j < slen
        invariant
            z <= j <= slen,
            slen == s@.len(),
            slen - z <= 19,
            t == s@.skip(z as int),
            all_digits(s@),
            all_digits(t),
            acc as nat == digits_val(t.take(j - z)),
            (acc as nat) < pow10((j - z) as nat),
            pow10(19) == 10000000000000000000,
        decreases slen - j,
    {
        let c = s.get_char(j);
        let d = digit_of(c);
        proof {
            lemma_digits_val_bound(t.take(j - z));
            lemma_pow10_monotone((j - z) as nat, 18);
            lemma_pow10_19();
            assert(acc as nat <= pow10(18));
            assert(t.take(j + 1 - z).drop_last() =~= t.take(j - z));
            assert(t.take(j + 1 - z).last() == t[j - z]);
            assert(t[j - z] == s@[j as int]);
        }
        acc = acc * 10 + (d as u64);
        j = j + 1;
        proof {
            assert(acc as nat == digits_val(t.take(j - z)));
            lemma_digits_val_bound(t.take(j - z));
        }
    }
    proof {
        assert(t.take(slen - z) =~= t);
    }
    if acc <= bound {
        Some(acc)
    } else {
        None
    }
}

pub proof fn lemma_pow10_monotone(a: nat, b: nat)
    requires
        a <= b,
    ensures
        pow10(a) <= pow10(b),
    decreases b,
{
    if a < b {
        lemma_pow10_monotone(a, (b - 1) as nat);
        assert(pow10(b) == 10 * pow10((b - 1) as nat));
    }
}

pub fn parse_u16_str(s: &str) -> (r: Option<u16>)
    ensures
        match r {
            Some(v) => s@.len() > 0 && all_digits(s@) && digits_val(s@) == v as nat,
            None => s@.len() == 0 || !all_digits(s@) || digits_val(s@) > u16::MAX,
        },
{
    proof {
        lemma_pow10_19();
    }
    match parse_dec_le(s, 65535) {
        Some(v) => Some(v as u16),
        None => None,
    }
}

pub fn parse_u32_str(s: &str) -> (r: Option<u32>)
    ensures
        match r {
            Some(v) => s@.len() > 0 && all_digits(s@) && digits_val(s@) == v as nat,
            None => s@.len() == 0 || !all_digits(s@) || digits_val(s@) > u32::MAX,
        },
{
    proof {
        lemma_pow10_19();
    }
    match parse_dec_le(s, 4294967295) {
        Some(v) => Some(v as u32),
        None => None,
    }
}

/// The lines of `s`: pieces separated by `'\n'`, with one carriage return
/// dropped from the end of a piece that sits directly before the newline,
/// and no final empty piece after a trailing newline.
pub open spec fn lines_spec(s: Seq<char>) -> Seq<Seq<char>>
    decreases s.len(),
    via lines_spec_decreases
{
    if s.len() == 0 {
        Seq::empty()
    } else {
        let i = find_idx(s, '\n', 0);
        if i == s.len() {
            seq![s]
        } else {
            let line = if i > 0 && s[i - 1] == '\r' {
                s.take(i - 1)
            } else {
                s.take(i)
            };
            seq![line] + lines_spec(s.skip(i + 1))
        }
    }
}

#[via_fn]
proof fn lines_spec_decreases(s: Seq<char>) {
    lemma_find_idx(s, '\n', 0);
}

pub fn lines_of(s: &str) -> (r: Vec<String>)
    ensures
        r.deep_view() == lines_spec(s@),
{
    let mut out: Vec<String> = Vec::new();
    let mut rest = s;
    loop
        invariant
            out.deep_view() + lines_spec(rest@) == lines_spec(s@),
        decreases rest@.len(),
    {
        let rlen = rest.unicode_len();
        if rlen == 0 {
            proof {
                assert(out.deep_view() =~= lines_spec(s@));
            }
            return out;
        }
        proof {
            lemma_find_idx(rest@, '\n', 0);
        }
        let i = find_char(rest, '\n');
        if i == rlen {
            let piece = String::from_str(rest);
            out.push(piece);
            proof {
                assert(lines_spec(rest@) == seq![rest@]);
                assert(out.deep_view() =~= lines_spec(s@));
            }
            return out;
        }
        let stop = if i > 0 && rest.get_char(i - 1) == '\r' {
            i - 1
        } else {
            i
        };
        let piece = String::from_str(rest.substring_char(0, stop));
        let ghost prev = out.deep_view();
        out.push(piece);
        let next = rest.substring_char(i + 1, rlen);
        proof {
            assert(rest@.take(stop as int) == rest@.subrange(0, stop as int));
            assert(next@ == rest@.skip(i + 1));
            assert(out.deep_view() =~= prev + seq![rest@.take(stop as int)]);
            assert(lines_spec(rest@) == seq![rest@.take(stop as int)] + lines_spec(
                rest@.skip(i + 1),
            ));
            assert(out.deep_view() + lines_spec(next@) =~= lines_spec(s@));
        }
        rest = next;
    }
}


/// Whether one of the strings in `v` holds exactly the characters of `s`.
pub fn vec_contains_str(v: &Vec<String>, s: &str) -> (r: bool)
    ensures
        r == v.deep_view().contains(s@),
{
    let n = v.len();
    let mut i: usize = 0;
    while i < n
        invariant
            0 <= i <= n,
            n == v@.len(),
            forall|j: int| 0 <= j < i ==> v.deep_view()[j] != s@,
        decreases n - i,
    {
        proof {
            assert(v.deep_view()[i as int] == v@[i as int]@);
        }
        if str_eq(v[i].as_str(), s) {
            proof {
                assert(v.deep_view().contains(s@));
            }
            return true;
        }
        i = i + 1;
    }
    proof {
        if v.deep_view().contains(s@) {
            let j = choose|j: int| 0 <= j < v.deep_view().len() && v.deep_view()[j] == s@;
            assert(v.deep_view()[j] != s@);
        }
    }
    false
}

} // verus!
