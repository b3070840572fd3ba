//! Character-level text helpers: decimal rendering and parsing of integers,
//! searching for a character, and building strings from characters.

use vstd::prelude::*;
use vstd::string::*;

verus! {

/// The character of the decimal digit `d` (0 to 9).
pub open spec fn digit_char(d: int) -> char {
    (48 + d) as char
}

/// Whether `c` is one of `0` to `9`.
pub open spec fn is_digit_char(c: char) -> bool {
    48 <= (c as u32) && (c as u32) <= 57
}

/// The digits of `n` in base ten, most significant first, without sign or
/// leading zeros.
pub open spec fn decimal(n: nat) -> Seq<char>
    decreases n,
{
    if n < 10 {
        seq![digit_char(n as int)]
    } else {
        decimal(n / 10).push(digit_char((n % 10) as int))
    }
}

/// The text of an integer as Rust's `Display` writes it: a `-` before the
/// digits of a negative value.
pub open spec fn signed_decimal(v: int) -> Seq<char> {
    if v < 0 {
        seq!['-'] + decimal((-v) as nat)
    } else {
        decimal(v as nat)
    }
}

/// Whether every character of `s` is a decimal digit.
pub open spec fn all_digits(s: Seq<char>) -> bool {
    forall|i: int| 0 <= i < s.len() ==> #[trigger] is_digit_char(s[i])
}

/// The value of a run of decimal digits.
pub open spec fn digits_value(s: Seq<char>) -> nat
    decreases s.len(),
{
    if s.len() == 0 {
        0
    } else {
        digits_value(s.drop_last()) * 10 + ((s.last() as u32) as int - 48) as nat
    }
}

/// What `str::parse::<u32>` gives for `s`: an optional `+`, then one or more
/// digits whose value fits in a `u32`.
pub open spec fn parse_u32_text(s: Seq<char>) -> Option<u32> {
    let body = if s.len() > 0 && s[0] == '+' {
        s.drop_first()
    } else {
        s
    };
    if body.len() == 0 || !all_digits(body) || digits_value(body) > u32::MAX {
        None
    } else {
        Some(digits_value(body) as u32)
    }
}

/// `k` is the first position of `c` in `s`.
pub open spec fn is_first_index(s: Seq<char>, c: char, k: int) -> bool {
    &&& 0 <= k < s.len()
    &&& s[k] == c
    &&& forall|j: int| 0 <= j < k ==> s[j] != c
}

/// The first position of `c` in `s`, if `c` occurs.
pub open spec fn first_index_of(s: Seq<char>, c: char) -> Option<int> {
    if exists|k: int| is_first_index(s, c, k) {
        Some(choose|k: int| is_first_index(s, c, k))
    } else {
        None
    }
}

/// `s` cut at the first `c`: what stands before it and what stands after it.
pub open spec fn split_once(s: Seq<char>, c: char) -> Option<(Seq<char>, Seq<char>)> {
    match first_index_of(s, c) {
        Some(k) => Some((s.take(k), s.skip(k + 1))),
        None => None,
    }
}

/// There is no `c` in `s`.
pub open spec fn lacks_char(s: Seq<char>, c: char) -> bool {
    forall|i: int| 0 <= i < s.len() ==> s[i] != c
}

/// The first occurrence of a character is unique.
pub proof fn lemma_first_index_unique(s: Seq<char>, c: char, k: int)
    requires
        is_first_index(s, c, k),
    ensures
        first_index_of(s, c) == Some(k),
{
    let k2 = choose|k: int| is_first_index(s, c, k);
    assert(is_first_index(s, c, k2));
    if k2 < k {
        assert(s[k2] != c);
    }
    if k < k2 {
        assert(s[k] != c);
    }
}

/// A character that does not occur has no first index.
pub proof fn lemma_first_index_absent(s: Seq<char>, c: char)
    requires
        lacks_char(s, c),
    ensures
        first_index_of(s, c) is None,
{
    if exists|k: int| is_first_index(s, c, k) {
        let k = choose|k: int| is_first_index(s, c, k);
        assert(s[k] == c);
    }
}

/// Splitting `a + [c] + b` at its first `c`, where `a` holds no `c`, gives
/// back `a` and `b`.
pub proof fn lemma_split_once_concat(a: Seq<char>, c: char, b: Seq<char>)
    requires
        lacks_char(a, c),
    ensures
        split_once(a + seq![c] + b, c) == Some((a, b)),
{
    let s = a + seq![c] + b;
    assert(s[a.len() as int] == c);
    assert forall|j: int| 0 <= j < a.len() implies s[j] != c by {
        assert(s[j] == a[j]);
    }
    assert(is_first_index(s, c, a.len() as int));
    lemma_first_index_unique(s, c, a.len() as int);
    assert(s.take(a.len() as int) =~= a);
    assert(s.skip(a.len() as int + 1) =~= b);
}

/// The digits of a number are decimal digits.
pub proof fn lemma_decimal_all_digits(n: nat)
    ensures
        all_digits(decimal(n)),
        decimal(n).len() > 0,
        decimal(n)[0] != '+',
        decimal(n)[0] != '-',
    decreases n,
{
    if n >= 10 {
        lemma_decimal_all_digits(n / 10);
        let s = decimal(n);
        assert forall|i: int| 0 <= i < s.len() implies #[trigger] is_digit_char(s[i]) by {
            if i < s.len() - 1 {
                assert(s[i] == decimal(n / 10)[i]);
            }
        }
    }
}

/// Reading the digits of a number gives the number back.
pub proof fn lemma_decimal_value(n: nat)
    ensures
        digits_value(decimal(n)) == n,
    decreases n,
{
    let s = decimal(n);
    let d = (n % 10) as int;
    assert((digit_char(d) as u32) as int == 48 + d);
    if n >= 10 {
        lemma_decimal_value(n / 10);
        assert(s.drop_last() =~= decimal(n / 10));
        assert(s.last() == digit_char(d));
    } else {
        assert(s.drop_last() =~= Seq::<char>::empty());
        assert(s.last() == digit_char(d));
        assert(digits_value(s.drop_last()) == 0);
    }
    assert(digits_value(s) == digits_value(s.drop_last()) * 10 + ((s.last() as u32) as int - 48) as nat);
}

/// A number's decimal text holds no character but digits, so no `c` that is
/// not a digit.
pub proof fn lemma_decimal_lacks(n: nat, c: char)
    requires
        !is_digit_char(c),
    ensures
        lacks_char(decimal(n), c),
{
    lemma_decimal_all_digits(n);
    assert forall|i: int| 0 <= i < decimal(n).len() implies decimal(n)[i] != c by {
        assert(is_digit_char(decimal(n)[i]));
    }
}

/// Parsing the decimal text of a `u32` gives it back.
pub proof fn lemma_parse_decimal(n: u32)
    ensures
        parse_u32_text(decimal(n as nat)) == Some(n),
{
    lemma_decimal_all_digits(n as nat);
    lemma_decimal_value(n as nat);
}

/// A longer run of digits is worth at least as much as its prefix.
pub proof fn lemma_digits_value_prefix(s: Seq<char>, k: int)
    requires
        all_digits(s),
        0 <= k <= s.len(),
    ensures
        digits_value(s.take(k)) <= digits_value(s),
    decreases s.len(),
{
    if k < s.len() {
        let t = s.drop_last();
        assert forall|i: int| 0 <= i < t.len() implies #[trigger] is_digit_char(t[i]) by {
            assert(t[i] == s[i]);
        }
        lemma_digits_value_prefix(t, k);
        assert(t.take(k) =~= s.take(k));
    } else {
        assert(s.take(k) =~= s);
    }
}

/// Appends one character: `String::push`, whose documentation says that it
/// appends the given char to the end of the string.
#[verifier::external_body]
pub(crate) fn push_char(s: &mut String, c: char)
    ensures
        final(s)@ == old(s)@.push(c),
{
    s.push(c);
}

/// The character of digit `d`.
fn digit(d: u64) -> (c: char)
    requires
        d < 10,
    ensures
        c == digit_char(d as int),
{
    match d {
        0 => '0',
        1 => '1',
        2 => '2',
        3 => '3',
        4 => '4',
        5 => '5',
        6 => '6',
        7 => '7',
        8 => '8',
        _ => '9',
    }
}

/// Appends the decimal digits of `n` to `s`.
pub fn push_decimal(s: &mut String, n: u64)
    ensures
        final(s)@ == old(s)@ + decimal(n as nat),
    decreases n,
{
    if n >= 10 {
        push_decimal(s, n / 10);
    }
    let c = digit(n % 10);
    push_char(s, c);
    proof {
        if n >= 10 {
            assert(decimal(n as nat) == decimal((n / 10) as nat).push(digit_char((n % 10) as int)));
        }
    }
}

/// Appends the text of a signed value to `s`, as `Display` writes it.
pub fn push_signed_decimal(s: &mut String, v: i64)
    ensures
        final(s)@ == old(s)@ + signed_decimal(v as int),
{
    if v < 0 {
        push_char(s, '-');
        let magnitude: u64 = if v == i64::MIN {
            9223372036854775808u64
        } else {
            (-v) as u64
        };
        push_decimal(s, magnitude);
        assert(final(s)@ =~= old(s)@ + signed_decimal(v as int)) by {
            assert(old(s)@.push('-') + decimal(magnitude as nat) =~= old(s)@ + (seq!['-'] + decimal(magnitude as nat)));
        }
    } else {
        push_decimal(s, v as u64);
    }
}

/// Appends the characters of `t` to `s`.
pub fn push_chars(s: &mut String, t: &Vec<char>)
    ensures
        final(s)@ == old(s)@ + t@,
{
    let mut i: usize = 0;
    while i < t.len()
        invariant
            0 <= i <= t.len(),
            s@ == old(s)@ + t@.take(i as int),
        decreases t.len() - i,
    {
        push_char(s, t[i]);
        i = i + 1;
        assert(old(s)@ + t@.take(i as int) =~= (old(s)@ + t@.take(i - 1)).push(t@[i - 1]));
    }
    assert(t@.take(t.len() as int) =~= t@);
}

/// Appends `t` to `s`.
pub fn push_str(s: &mut String, t: &str)
    ensures
        final(s)@ == old(s)@ + t@,
{
    s.append(t);
}

/// A string of the characters `t`.
pub fn string_from_chars(t: &Vec<char>) -> (s: String)
    ensures
        s@ == t@,
{
    let mut s = String::new();
    push_chars(&mut s, t);
    assert(Seq::<char>::empty() + t@ =~= t@);
    s
}

/// The characters of `s`.
pub fn chars_of(s: &str) -> (v: Vec<char>)
    ensures
        v@ == s@,
{
    let n = s.unicode_len();
    let mut v: Vec<char> = Vec::new();
    let mut i: usize = 0;
    while i < n
        invariant
            n == s@.len(),
            0 <= i <= n,
            v@ == s@.take(i as int),
        decreases n - i,
    {
        let c = s.get_char(i);
        v.push(c);
        i = i + 1;
        assert(v@ =~= s@.take(i as int));
    }
    assert(s@.take(n as int) =~= s@);
    v
}

/// The decimal text of `n`.
pub fn decimal_string(n: u64) -> (s: String)
    ensures
        s@ == decimal(n as nat),
{
    let mut s = String::new();
    push_decimal(&mut s, n);
    assert(Seq::<char>::empty() + decimal(n as nat) =~= decimal(n as nat));
    s
}

/// The first position of `c` in `v[lo..hi]`, counted from the start of `v`.
pub fn find_char(v: &Vec<char>, lo: usize, hi: usize, c: char) -> (r: Option<usize>)
    requires
        lo <= hi <= v.len(),
    ensures
        match r {
            Some(k) => lo <= k < hi && v@[k as int] == c && forall|j: int|
                lo <= j < k ==> v@[j] != c,
            None => forall|j: int| lo <= j < hi ==> v@[j] != c,
        },
{
    let mut i = lo;
    while i < hi
        invariant
            lo <= i <= hi <= v.len(),
            forall|j: int| lo <= j < i ==> v@[j] != c,
        decreases hi - i,
    {
        if v[i] == c {
            return Some(i);
        }
        i = i + 1;
    }
    None
}

/// The first position of `c` in `v[lo..hi]`, in the terms of
/// `first_index_of`.
pub fn find_first(v: &Vec<char>, lo: usize, hi: usize, c: char) -> (r: Option<usize>)
    requires
        lo <= hi <= v.len(),
    ensures
        match first_index_of(v@.subrange(lo as int, hi as int), c) {
            Some(k) => r == Some((lo + k) as usize),
            None => r is None,
        },
{
    let r = find_char(v, lo, hi, c);
    let ghost s = v@.subrange(lo as int, hi as int);
    proof {
        match r {
            Some(k) => {
                assert(is_first_index(s, c, k - lo)) by {
                    assert forall|j: int| 0 <= j < k - lo implies s[j] != c by {
                        assert(s[j] == v@[lo + j]);
                    }
                }
                lemma_first_index_unique(s, c, k - lo);
            },
            None => {
                assert forall|i: int| 0 <= i < s.len() implies s[i] != c by {
                    assert(s[i] == v@[lo + i]);
                }
                lemma_first_index_absent(s, c);
            },
        }
    }
    r
}

/// Whether `v[lo..hi]` holds exactly the characters of `t`.
pub fn range_equals(v: &Vec<char>, lo: usize, hi: usize, t: &Vec<char>) -> (r: bool)
    requires
        lo <= hi <= v.len(),
    ensures
        r == (v@.subrange(lo as int, hi as int) == t@),
{
    if hi - lo != t.len() {
        assert(v@.subrange(lo as int, hi as int).len() != t@.len());
        return false;
    }
    let mut i: usize = 0;
    while i < t.len()
        invariant
            hi - lo == t.len(),
            lo <= hi <= v.len(),
            0 <= i <= t.len(),
            forall|j: int| 0 <= j < i ==> v@[lo + j] == t@[j],
        decreases t.len() - i,
    {
        if v[lo + i] != t[i] {
            assert(v@.subrange(lo as int, hi as int)[i as int] != t@[i as int]);
            return false;
        }
        i = i + 1;
    }
    assert(v@.subrange(lo as int, hi as int) =~= t@);
    true
}

/// What `str::parse::<u32>` gives for the characters `v[lo..hi]`.
pub fn parse_u32_range(v: &Vec<char>, lo: usize, hi: usize) -> (r: Option<u32>)
    requires
        lo <= hi <= v.len(),
    ensures
        r == parse_u32_text(v@.subrange(lo as int, hi as int)),
{
    let ghost s = v@.subrange(lo as int, hi as int);
    let mut start = lo;
    if lo < hi && v[lo] == '+' {
        start = lo + 1;
    }
    let ghost body = v@.subrange(start as int, hi as int);
    assert(body =~= (if s.len() > 0 && s[0] == '+' { s.drop_first() } else { s }));
    if start == hi {
        assert(body.len() == 0);
        return None;
    }
    let mut acc: u64 = 0;
    let mut i = start;
    while i < hi
        invariant
            lo <= start < hi <= v.len(),
            start <= i <= hi,
            body == v@.subrange(start as int, hi as int),
            s == v@.subrange(lo as int, hi as int),
            body == (if s.len() > 0 && s[0] == '+' { s.drop_first() } else { s }),
            all_digits(v@.subrange(start as int, i as int)),
            acc == digits_value(v@.subrange(start as int, i as int)),
            acc <= u32::MAX,
        decreases hi - i,
    {
        let c = v[i];
        let code = c as u32;
        if !(48 <= code && code <= 57) {
            assert(body[i - start] == c);
            assert(!is_digit_char(body[i - start]));
            assert(!all_digits(body));
            return None;
        }
        let d = (code - 48) as u64;
        let ghost prev = v@.subrange(start as int, i as int);
        let ghost next = v@.subrange(start as int, i + 1);
        assert(next.drop_last() =~= prev);
        assert forall|j: int| 0 <= j < next.len() implies #[trigger] is_digit_char(next[j]) by {
            if j < prev.len() {
                assert(next[j] == prev[j]);
            }
        }
        assert(next.last() == c);
        assert(((next.last() as u32) as int - 48) as nat == d);
        assert(digits_value(next) == digits_value(prev) * 10 + d);
        acc = acc * 10 + d;
        i = i + 1;
        if acc > 4294967295u64 {
            proof {
                if all_digits(body) {
                    lemma_digits_value_prefix(body, i - start);
                    assert(body.take(i - start) =~= next);
                    assert(digits_value(body) > u32::MAX);
                }
            }
            return None;
        }
    }
    assert(v@.subrange(start as int, i as int) =~= body);
    Some(acc as u32)
}

} // verus!
