//! Byte-level string helpers shared by the parsers.

use vstd::prelude::*;
use vstd::string::*;

verus! {

/// Whether `prefix` is a prefix of `s`.
pub open spec fn is_prefix<T>(s: Seq<T>, prefix: Seq<T>) -> bool {
    prefix.len() <= s.len() && s.subrange(0, prefix.len() as int) == prefix
}

/// The characters of a string slice, in order.
pub fn str_chars(s: &str) -> (r: Vec<char>)
    ensures
        r@ == s@,
{
    let n = s.unicode_len();
    let mut r: Vec<char> = Vec::new();
    let mut i: usize = 0;
    while i < n
        invariant
            n == s@.len(),
            i <= n,
            r@ == s@.subrange(0, i as int),
        decreases n - i,
    {
        r.push(s.get_char(i));
        i = i + 1;
        assert(r@ =~= s@.subrange(0, i as int));
    }
    assert(s@.subrange(0, n as int) =~= s@);
    r
}

/// Whether the characters of `s` starting at `pos` begin with `prefix`.
pub fn chars_have_prefix_at(s: &[char], pos: usize, prefix: &[char]) -> (r: bool)
    requires
        pos <= s@.len(),
    ensures
        r == is_prefix(s@.skip(pos as int), prefix@),
{
    if prefix.len() > s.len() - pos {
        return false;
    }
    let mut i: usize = 0;
    while i < prefix.len()
        invariant
            pos <= s@.len(),
            prefix.len() <= s.len() - pos,
            i <= prefix.len(),
            forall|j: int| 0 <= j < i ==> s@[pos + j] == prefix@[j],
        decreases prefix.len() - i,
    {
        if s[pos + i] != prefix[i] {
            assert(s@.skip(pos as int).subrange(0, prefix.len() as int)[i as int] != prefix@[i as int]);
            return false;
        }
        i = i + 1;
    }
    assert(s@.skip(pos as int).subrange(0, prefix.len() as int) =~= prefix@);
    true
}

/// The last position `p` in `from..s.len()` with `s[p] == c`.
pub open spec fn last_index_from(s: Seq<char>, from: int, c: char) -> Option<int>
    decreases s.len() - from,
{
    if from >= s.len() {
        None
    } else {
        match last_index_from(s, from + 1, c) {
            Some(p) => Some(p),
            None => if s[from] == c { Some(from) } else { None },
        }
    }
}

/// The last position of `c` in `s`, if any.
pub open spec fn last_index_of(s: Seq<char>, c: char) -> Option<int> {
    last_index_from(s, 0, c)
}

pub(crate) proof fn lemma_last_index_from_none_after(s: Seq<char>, from: int, c: char)
    requires
        0 <= from <= s.len(),
        forall|j: int| from <= j < s.len() ==> s[j] != c,
    ensures
        last_index_from(s, from, c) is None,
    decreases s.len() - from,
{
    if from < s.len() {
        lemma_last_index_from_none_after(s, from + 1, c);
    }
}

pub(crate) proof fn lemma_last_index_from_found(s: Seq<char>, from: int, p: int, c: char)
    requires
        0 <= from <= p < s.len(),
        s[p] == c,
        forall|j: int| p < j < s.len() ==> s[j] != c,
    ensures
        last_index_from(s, from, c) == Some(p),
    decreases s.len() - from,
{
    if from < p {
        lemma_last_index_from_found(s, from + 1, p, c);
    } else {
        lemma_last_index_from_none_after(s, p + 1, c);
    }
}

/// The last occurrence in `s` from `from` on, shifted to positions of `s.skip(from)`.
pub proof fn lemma_last_index_shift(s: Seq<char>, from: int, c: char)
    requires
        0 <= from <= s.len(),
    ensures
        match last_index_from(s, from, c) {
            Some(p) => from <= p < s.len() && last_index_of(s.skip(from), c) == Some(p - from),
            None => last_index_of(s.skip(from), c) is None,
        },
{
    lemma_last_index_shift_from(s, from, from, c);
}

proof fn lemma_last_index_shift_from(s: Seq<char>, from: int, k: int, c: char)
    requires
        0 <= from <= k <= s.len(),
    ensures
        match last_index_from(s, k, c) {
            Some(p) => k <= p < s.len() && last_index_from(s.skip(from), k - from, c) == Some(
                p - from,
            ),
            None => last_index_from(s.skip(from), k - from, c) is None,
        },
    decreases s.len() - k,
{
    if k < s.len() {
        lemma_last_index_shift_from(s, from, k + 1, c);
    }
}

/// The last position `p >= from` with `s[p] == c`.
pub fn find_last_from(s: &[char], from: usize, c: char) -> (r: Option<usize>)
    requires
        from <= s@.len(),
    ensures
        match r {
            Some(p) => last_index_from(s@, from as int, c) == Some(p as int),
            None => last_index_from(s@, from as int, c) is None,
        },
{
    let mut i: usize = s.len();
    while i > from
        invariant
            from <= i <= s@.len(),
            forall|j: int| i <= j < s@.len() ==> s@[j] != c,
        decreases i,
    {
        i = i - 1;
        if s[i] == c {
            proof { lemma_last_index_from_found(s@, from as int, i as int, c); }
            return Some(i);
        }
    }
    proof { lemma_last_index_from_none_after(s@, from as int, c); }
    None
}

/// Whether the characters of `s` starting at `pos` begin with those of `lit`.
pub fn chars_match_str_at(s: &[char], pos: usize, lit: &str) -> (r: bool)
    requires
        pos <= s@.len(),
    ensures
        r == is_prefix(s@.skip(pos as int), lit@),
{
    let n = lit.unicode_len();
    if n > s.len() - pos {
        return false;
    }
    let mut i: usize = 0;
    while i < n
        invariant
            pos <= s@.len(),
            n == lit@.len(),
            n <= s.len() - pos,
            i <= n,
            forall|j: int| 0 <= j < i ==> s@[pos + j] == lit@[j],
        decreases n - i,
    {
        if s[pos + i] != lit.get_char(i) {
            assert(s@.skip(pos as int).subrange(0, n as int)[i as int] != lit@[i as int]);
            return false;
        }
        i = i + 1;
    }
    assert(s@.skip(pos as int).subrange(0, n as int) =~= lit@);
    true
}

/// Equality of two string slices.
pub fn str_eq(a: &str, b: &str) -> (r: bool)
    ensures
        r == (a@ == b@),
{
    let n = a.unicode_len();
    if n != b.unicode_len() {
        return false;
    }
    let mut i: usize = 0;
    while i < n
        invariant
            n == a@.len(),
            n == b@.len(),
            i <= n,
            forall|j: int| 0 <= j < i ==> a@[j] == b@[j],
        decreases n - i,
    {
        if a.get_char(i) != b.get_char(i) {
            return false;
        }
        i = i + 1;
    }
    assert(a@ =~= b@);
    true
}

/// Concatenate three string slices into a new `String`.
pub fn concat3(a: &str, b: &str, c: &str) -> (r: String)
    ensures
        r@ == a@ + b@ + c@,
{
    let mut s = String::from_str(a);
    s.append(b);
    s.append(c);
    s
}

/// Equality of two byte slices.
pub fn bytes_eq(a: &[u8], b: &[u8]) -> (r: bool)
    ensures
        r == (a@ == b@),
{
    if a.len() != b.len() {
        return false;
    }
    let mut i: usize = 0;
    while i < a.len()
        invariant
            a.len() == b.len(),
            i <= a.len(),
            forall|j: int| 0 <= j < i ==> a@[j] == b@[j],
        decreases a.len() - i,
    {
        if a[i] != b[i] {
            return false;
        }
        i = i + 1;
    }
    assert(a@ =~= b@);
    true
}

/// Whether `x` occurs in `s`.
pub fn contains_byte(s: &[u8], x: u8) -> (r: bool)
    ensures
        r == s@.contains(x),
{
    let mut i: usize = 0;
    while i < s.len()
        invariant
            i <= s.len(),
            forall|j: int| 0 <= j < i ==> s@[j] != x,
        decreases s.len() - i,
    {
        if s[i] == x {
            assert(s@[i as int] == x);
            return true;
        }
        i = i + 1;
    }
    false
}

/// A fresh vector with the same contents as `s`.
pub fn copy_bytes(s: &[u8]) -> (r: Vec<u8>)
    ensures
        r@ == s@,
{
    let mut r: Vec<u8> = Vec::new();
    let mut i: usize = 0;
    while i < s.len()
        invariant
            i <= s.len(),
            r@ == s@.subrange(0, i as int),
        decreases s.len() - i,
    {
        r.push(s[i]);
        i = i + 1;
        assert(r@ =~= s@.subrange(0, i as int));
    }
    assert(s@.subrange(0, s@.len() as int) =~= s@);
    r
}

/// The one-character text of a decimal digit.
pub open spec fn digit_text(d: nat) -> Seq<char> {
    if d == 0 {
        "0"@
    } else if d == 1 {
        "1"@
    } else if d == 2 {
        "2"@
    } else if d == 3 {
        "3"@
    } else if d == 4 {
        "4"@
    } else if d == 5 {
        "5"@
    } else if d == 6 {
        "6"@
    } else if d == 7 {
        "7"@
    } else if d == 8 {
        "8"@
    } else {
        "9"@
    }
}

/// Decimal text of a natural number, without leading zeros.
pub open spec fn decimal_text(n: nat) -> Seq<char>
    decreases n,
{
    if n < 10 {
        digit_text(n)
    } else {
        decimal_text(n / 10) + digit_text(n % 10)
    }
}

/// Decimal text of an integer, with a leading `-` when negative.
pub open spec fn signed_decimal_text(n: int) -> Seq<char> {
    if n < 0 {
        "-"@ + decimal_text((-n) as nat)
    } else {
        decimal_text(n as nat)
    }
}

fn digit_str(d: u64) -> (r: &'static str)
    requires
        d < 10,
    ensures
        r@ == digit_text(d as nat),
{
    if d == 0 {
        "0"
    } else if d == 1 {
        "1"
    } else if d == 2 {
        "2"
    } else if d == 3 {
        "3"
    } else if d == 4 {
        "4"
    } else if d == 5 {
        "5"
    } else if d == 6 {
        "6"
    } else if d == 7 {
        "7"
    } else if d == 8 {
        "8"
    } else {
        "9"
    }
}

/// Decimal text of `n`.
pub fn decimal_string(n: u64) -> (r: String)
    ensures
        r@ == decimal_text(n as nat),
    decreases n,
{
    if n < 10 {
        String::from_str(digit_str(n))
    } else {
        let mut s = decimal_string(n / 10);
        s.append(digit_str(n % 10));
        s
    }
}

/// Decimal text of a signed `n`.
pub fn signed_decimal_string(n: i64) -> (r: String)
    requires
        n > i64::MIN,
    ensures
        r@ == signed_decimal_text(n as int),
{
    if n < 0 {
        let mut s = String::from_str("-");
        let d = decimal_string((-n) as u64);
        s.append(d.as_str());
        s
    } else {
        decimal_string(n as u64)
    }
}

} // verus!
