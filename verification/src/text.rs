//! Character and string helpers shared by the whole library: Unicode
//! whitespace, trimming, ASCII case folding, decimal formatting and parsing,
//! and small `String` builders, each with its mathematical specification.
use vstd::prelude::*;

verus! {

/// Unicode `White_Space`: the characters `char::is_whitespace` accepts.
pub open spec fn is_ws(c: char) -> bool {
    let u = c as u32;
    (9 <= u <= 13) || u == 32 || u == 0x85 || u == 0xa0 || u == 0x1680
        || (0x2000 <= u <= 0x200a) || u == 0x2028 || u == 0x2029 || u == 0x202f
        || u == 0x205f || u == 0x3000
}

/// Executable [`is_ws`].
pub fn is_whitespace(c: char) -> (r: bool)
    ensures
        r == is_ws(c),
{
    let u = c as u32;
    (9 <= u && u <= 13) || u == 32 || u == 0x85 || u == 0xa0 || u == 0x1680
        || (0x2000 <= u && u <= 0x200a) || u == 0x2028 || u == 0x2029 || u == 0x202f
        || u == 0x205f || u == 0x3000
}

/// `s` without leading whitespace.
pub open spec fn trim_start(s: Seq<char>) -> Seq<char>
    decreases s.len(),
{
    if s.len() > 0 && is_ws(s[0]) {
        trim_start(s.drop_first())
    } else {
        s
    }
}

/// `s` without trailing whitespace.
pub open spec fn trim_end(s: Seq<char>) -> Seq<char>
    decreases s.len(),
{
    if s.len() > 0 && is_ws(s.last()) {
        trim_end(s.drop_last())
    } else {
        s
    }
}

/// `s` without leading and trailing whitespace (`str::trim`).
pub open spec fn trim(s: Seq<char>) -> Seq<char> {
    trim_end(trim_start(s))
}

pub proof fn lemma_trim_start_skip(s: Seq<char>, k: int)
    requires
        0 <= k <= s.len(),
        forall|i: int| 0 <= i < k ==> is_ws(#[trigger] s[i]),
        k == s.len() || !is_ws(s[k]),
    ensures
        trim_start(s) == s.subrange(k, s.len() as int),
    decreases k,
{
    if k == 0 {
        assert(s.subrange(0, s.len() as int) =~= s);
    } else {
        assert(is_ws(s[0]));
        let t = s.drop_first();
        assert forall|i: int| 0 <= i < k - 1 implies is_ws(#[trigger] t[i]) by {
            assert(t[i] == s[i + 1]);
        }
        lemma_trim_start_skip(t, k - 1);
        assert(t.subrange(k - 1, t.len() as int) =~= s.subrange(k, s.len() as int));
    }
}

pub proof fn lemma_trim_end_take(s: Seq<char>, k: int)
    requires
        0 <= k <= s.len(),
        forall|i: int| k <= i < s.len() ==> is_ws(#[trigger] s[i]),
        k == 0 || !is_ws(s[k - 1]),
    ensures
        trim_end(s) == s.subrange(0, k),
    decreases s.len() - k,
{
    if k == s.len() {
        assert(s.subrange(0, k) =~= s);
    } else {
        assert(is_ws(s.last()));
        let t = s.drop_last();
        assert forall|i: int| k <= i < t.len() implies is_ws(#[trigger] t[i]) by {
            assert(t[i] == s[i]);
        }
        lemma_trim_end_take(t, k);
        assert(t.subrange(0, k) =~= s.subrange(0, k));
    }
}

/// The characters of `s`.
pub fn chars_of(s: &str) -> (v: Vec<char>)
    ensures
        v@ == s@,
{
    let n = s.unicode_len();
    let mut v: Vec<char> = Vec::new();
    let mut i: usize = 0;
    while i < n
        invariant
            n == s@.len(),
            i <= n,
            v@ == s@.subrange(0, i as int),
        decreases n - i,
    {
        v.push(s.get_char(i));
        i = i + 1;
        assert(v@ =~= s@.subrange(0, i as int));
    }
    assert(v@ =~= s@);
    v
}

/// Append one character to a `String` (`String::push`).
#[verifier::external_body]
pub(crate) fn push_char(s: &mut String, c: char)
    ensures
        final(s)@ == old(s)@.push(c),
{
    s.push(c)
}

/// A `String` holding exactly the characters of `v`.
pub fn string_of(v: &Vec<char>) -> (s: String)
    ensures
        s@ == v@,
{
    let mut s = String::new();
    let mut i: usize = 0;
    while i < v.len()
        invariant
            i <= v.len(),
            s@ == v@.subrange(0, i as int),
        decreases v.len() - i,
    {
        push_char(&mut s, v[i]);
        i = i + 1;
        assert(s@ =~= v@.subrange(0, i as int));
    }
    assert(s@ =~= v@);
    s
}

/// `s` with leading and trailing whitespace removed.
pub fn trimmed(s: &str) -> (r: String)
    ensures
        r@ == trim(s@),
{
    let v = chars_of(s);
    let n = v.len();
    let mut lo: usize = 0;
    while lo < n && is_whitespace(v[lo])
        invariant
            n == v@.len(),
            lo <= n,
            forall|i: int| 0 <= i < lo ==> is_ws(#[trigger] v@[i]),
        decreases n - lo,
    {
        lo = lo + 1;
    }
    proof {
        lemma_trim_start_skip(v@, lo as int);
    }
    let mut hi: usize = n;
    while hi > lo && is_whitespace(v[hi - 1])
        invariant
            n == v@.len(),
            lo <= hi <= n,
            forall|i: int| hi <= i < n ==> is_ws(#[trigger] v@[i]),
        decreases hi,
    {
        hi = hi - 1;
    }
    let ghost t = v@.subrange(lo as int, n as int);
    proof {
        assert forall|i: int| hi - lo <= i < t.len() implies is_ws(#[trigger] t[i]) by {
            assert(t[i] == v@[lo + i]);
        }
        if hi > lo {
            assert(t[hi - lo - 1] == v@[hi - 1]);
        }
        lemma_trim_end_take(t, hi - lo);
    }
    let mut out: Vec<char> = Vec::new();
    let mut i: usize = lo;
    while i < hi
        invariant
            lo <= i <= hi <= n,
            n == v@.len(),
            out@ == v@.subrange(lo as int, i as int),
        decreases hi - i,
    {
        out.push(v[i]);
        i = i + 1;
        assert(out@ =~= v@.subrange(lo as int, i as int));
    }
    assert(out@ =~= t.subrange(0, hi - lo));
    string_of(&out)
}

/// `s` with trailing whitespace removed.
pub fn trimmed_end(s: &str) -> (r: String)
    ensures
        r@ == trim_end(s@),
{
    let v = chars_of(s);
    let n = v.len();
    let mut hi: usize = n;
    while hi > 0 && is_whitespace(v[hi - 1])
        invariant
            n == v@.len(),
            hi <= n,
            forall|i: int| hi <= i < n ==> is_ws(#[trigger] v@[i]),
        decreases hi,
    {
        hi = hi - 1;
    }
    proof {
        lemma_trim_end_take(v@, hi as int);
    }
    let mut out: Vec<char> = Vec::new();
    let mut i: usize = 0;
    while i < hi
        invariant
            i <= hi <= n,
            n == v@.len(),
            out@ == v@.subrange(0, i as int),
        decreases hi - i,
    {
        out.push(v[i]);
        i = i + 1;
        assert(out@ =~= v@.subrange(0, i as int));
    }
    string_of(&out)
}

/// True when `s` is empty or all whitespace (`s.trim().is_empty()`).
pub fn is_blank(s: &str) -> (r: bool)
    ensures
        r == (trim(s@).len() == 0),
{
    let t = trimmed(s);
    t.as_str().unicode_len() == 0
}


// ---------------------------------------------------------------------------
// Comparison and case folding
// ---------------------------------------------------------------------------

/// ASCII lower-casing of one character (`char::to_ascii_lowercase`).
pub open spec fn lower(c: char) -> char {
    if 65 <= (c as u32) <= 90 {
        ((c as u32) + 32) as char
    } else {
        c
    }
}

/// ASCII lower-casing of a whole string (`str::to_ascii_lowercase`).
pub open spec fn lower_seq(s: Seq<char>) -> Seq<char> {
    s.map_values(|c: char| lower(c))
}

/// `a.eq_ignore_ascii_case(b)`.
pub open spec fn eq_ic(a: Seq<char>, b: Seq<char>) -> bool {
    lower_seq(a) == lower_seq(b)
}

/// Executable [`lower`].
pub fn lower_char(c: char) -> (r: char)
    ensures
        r == lower(c),
{
    if 'A' <= c && c <= 'Z' {
        let b = (c as u8) + 32;
        b as char
    } else {
        c
    }
}

/// `s.to_ascii_lowercase()`.
pub fn to_lower(s: &str) -> (r: String)
    ensures
        r@ == lower_seq(s@),
{
    let v = chars_of(s);
    let mut out = String::new();
    let mut i: usize = 0;
    while i < v.len()
        invariant
            i <= v.len(),
            v@ == s@,
            out@ == lower_seq(v@.subrange(0, i as int)),
        decreases v.len() - i,
    {
        push_char(&mut out, lower_char(v[i]));
        i = i + 1;
        assert(lower_seq(v@.subrange(0, i as int)) =~= lower_seq(v@.subrange(0, i - 1)).push(
            lower(v@[i - 1]),
        ));
    }
    assert(v@.subrange(0, v.len() as int) =~= v@);
    out
}

/// Character-wise equality of two character vectors.
pub fn chars_eq(a: &Vec<char>, b: &Vec<char>) -> (r: bool)
    ensures
        r == (a@ == b@),
{
    if a.len() != b.len() {
        return false;
    }
    let mut i: usize = 0;
    while i < a.len()
        invariant
            a.len() == b.len(),
            i <= a.len(),
            forall|j: int| 0 <= j < i ==> a@[j] == b@[j],
        decreases a.len() - i,
    {
        if a[i] != b[i] {
            return false;
        }
        i = i + 1;
    }
    assert(a@ =~= b@);
    true
}

/// `a == b` on string slices.
pub fn str_eq(a: &str, b: &str) -> (r: bool)
    ensures
        r == (a@ == b@),
{
    let va = chars_of(a);
    let vb = chars_of(b);
    chars_eq(&va, &vb)
}

/// `a.eq_ignore_ascii_case(b)`.
pub fn eq_ignore_case(a: &str, b: &str) -> (r: bool)
    ensures
        r == eq_ic(a@, b@),
{
    let la = to_lower(a);
    let lb = to_lower(b);
    str_eq(la.as_str(), lb.as_str())
}

/// `s` begins with `p`.
pub open spec fn has_prefix(s: Seq<char>, p: Seq<char>) -> bool {
    p.len() <= s.len() && s.subrange(0, p.len() as int) == p
}

/// `p` occurs in `s` starting at index `i`.
pub open spec fn occurs_at(s: Seq<char>, p: Seq<char>, i: int) -> bool {
    0 <= i && i + p.len() <= s.len() && s.subrange(i, i + p.len()) == p
}

/// `s.contains(p)` for a string pattern.
pub open spec fn has_sub(s: Seq<char>, p: Seq<char>) -> bool {
    exists|i: int| occurs_at(s, p, i)
}

/// Whether `p` occurs in `v` at position `i` (executable [`occurs_at`]).
pub fn matches_at(v: &Vec<char>, p: &Vec<char>, i: usize) -> (r: bool)
    ensures
        r == occurs_at(v@, p@, i as int),
{
    if i > v.len() || p.len() > v.len() - i {
        return false;
    }
    let mut k: usize = 0;
    while k < p.len()
        invariant
            i + p.len() <= v.len(),
            k <= p.len(),
            forall|j: int| 0 <= j < k ==> v@[i + j] == p@[j],
        decreases p.len() - k,
    {
        if v[i + k] != p[k] {
            assert(v@.subrange(i as int, i + p.len())[k as int] != p@[k as int]);
            return false;
        }
        k = k + 1;
    }
    assert(v@.subrange(i as int, i + p.len()) =~= p@);
    true
}

/// `s.starts_with(p)`.
pub fn starts_with(s: &str, p: &str) -> (r: bool)
    ensures
        r == has_prefix(s@, p@),
{
    let vs = chars_of(s);
    let vp = chars_of(p);
    matches_at(&vs, &vp, 0)
}

/// `s.contains(p)`.
pub fn contains_str(s: &str, p: &str) -> (r: bool)
    ensures
        r == has_sub(s@, p@),
{
    let vs = chars_of(s);
    let vp = chars_of(p);
    if vp.len() > vs.len() {
        assert(!has_sub(s@, p@));
        return false;
    }
    let last = vs.len() - vp.len();
    let mut i: usize = 0;
    loop
        invariant
            vp.len() <= vs.len(),
            last == vs.len() - vp.len(),
            vs@ == s@,
            vp@ == p@,
            i <= last,
            forall|j: int| 0 <= j < i ==> !occurs_at(s@, p@, j),
        ensures
            forall|j: int| 0 <= j <= last ==> !occurs_at(s@, p@, j),
        decreases last - i,
    {
        if matches_at(&vs, &vp, i) {
            return true;
        }
        if i == last {
            break;
        }
        i = i + 1;
    }
    assert forall|j: int| !occurs_at(s@, p@, j) by {
        if 0 <= j && j + p@.len() <= s@.len() {
            assert(j <= last);
        }
    }
    false
}

// ---------------------------------------------------------------------------
// Decimal formatting
// ---------------------------------------------------------------------------

/// The ASCII digit for `d < 10`.
pub open spec fn digit(d: nat) -> char {
    ((48 + d) as u32) as char
}

/// Decimal representation of `n` without leading zeros (`n.to_string()`).
pub open spec fn dec(n: nat) -> Seq<char>
    decreases n,
{
    if n < 10 {
        seq![digit(n)]
    } else {
        dec(n / 10).push(digit(n % 10))
    }
}

/// `n` copies of `'0'`.
pub open spec fn zeros(n: nat) -> Seq<char> {
    Seq::new(n, |i: int| '0')
}

/// `s` left-padded with zeros to at least `w` characters.
pub open spec fn pad0(s: Seq<char>, w: nat) -> Seq<char> {
    if s.len() >= w {
        s
    } else {
        zeros((w - s.len()) as nat) + s
    }
}

/// `format!("{:0w$}", n)` for a signed integer: the sign counts toward the width.
pub open spec fn fmt_int_pad(n: int, w: nat) -> Seq<char> {
    if n < 0 {
        seq!['-'] + pad0(dec((-n) as nat), if w >= 1 { (w - 1) as nat } else { 0 })
    } else {
        pad0(dec(n as nat), w)
    }
}

fn digit_char(d: u64) -> (c: char)
    requires
        d < 10,
    ensures
        c == digit(d as nat),
{
    let b = 48u8 + (d as u8);
    b as char
}

/// Append the decimal representation of `n`.
pub fn push_dec(s: &mut String, n: u64)
    ensures
        final(s)@ == old(s)@ + dec(n as nat),
    decreases n,
{
    if n >= 10 {
        push_dec(s, n / 10);
    }
    push_char(s, digit_char(n % 10));
    proof {
        if n >= 10 {
            assert(old(s)@ + dec((n / 10) as nat) + seq![digit((n % 10) as nat)] =~= old(s)@
                + dec(n as nat));
        } else {
            assert(old(s)@.push(digit((n % 10) as nat)) =~= old(s)@ + dec(n as nat));
        }
    }
}

fn digit_char_wide(d: u128) -> (c: char)
    requires
        d < 10,
    ensures
        c == digit(d as nat),
{
    let b = 48u8 + (d as u8);
    b as char
}

/// Append the decimal representation of a 128-bit `n`.
pub fn push_dec_wide(s: &mut String, n: u128)
    ensures
        final(s)@ == old(s)@ + dec(n as nat),
    decreases n,
{
    if n >= 10 {
        push_dec_wide(s, n / 10);
    }
    push_char(s, digit_char_wide(n % 10));
    proof {
        if n >= 10 {
            assert(old(s)@ + dec((n / 10) as nat) + seq![digit((n % 10) as nat)] =~= old(s)@
                + dec(n as nat));
        } else {
            assert(old(s)@.push(digit((n % 10) as nat)) =~= old(s)@ + dec(n as nat));
        }
    }
}

/// `n.to_string()`.
pub fn fmt_u64(n: u64) -> (r: String)
    ensures
        r@ == dec(n as nat),
{
    let mut s = String::new();
    push_dec(&mut s, n);
    assert(s@ =~= dec(n as nat));
    s
}

/// Append `n` zeros.
pub fn push_zeros(s: &mut String, n: usize)
    ensures
        final(s)@ == old(s)@ + zeros(n as nat),
{
    let mut i: usize = 0;
    while i < n
        invariant
            i <= n,
            s@ == old(s)@ + zeros(i as nat),
        decreases n - i,
    {
        push_char(s, '0');
        i = i + 1;
        assert(s@ =~= old(s)@ + zeros(i as nat));
    }
}

/// Append `n` in decimal, left-padded with zeros to `w` characters.
pub fn push_dec_pad(s: &mut String, n: u64, w: usize)
    ensures
        final(s)@ == old(s)@ + pad0(dec(n as nat), w as nat),
{
    let d = fmt_u64(n);
    let len = d.as_str().unicode_len();
    if len < w {
        push_zeros(s, w - len);
    }
    s.append(d.as_str());
    assert(s@ =~= old(s)@ + pad0(dec(n as nat), w as nat));
}

/// Append a signed integer formatted as `{:0w$}` (sign included in the width).
pub fn push_int_pad(s: &mut String, n: i64, w: usize)
    ensures
        final(s)@ == old(s)@ + fmt_int_pad(n as int, w as nat),
{
    if n < 0 {
        push_char(s, '-');
        let m: u64 = (0i128 - (n as i128)) as u64;
        let w1: usize = if w >= 1 { w - 1 } else { 0 };
        push_dec_pad(s, m, w1);
        assert(s@ =~= old(s)@ + fmt_int_pad(n as int, w as nat));
    } else {
        push_dec_pad(s, n as u64, w);
    }
}

/// Append `s2` (a `String`) to `s`.
pub fn push_string(s: &mut String, s2: &String)
    ensures
        final(s)@ == old(s)@ + s2@,
{
    s.append(s2.as_str());
}

/// A fresh copy of a string slice.
pub fn owned(s: &str) -> (r: String)
    ensures
        r@ == s@,
{
    String::from_str(s)
}


// ---------------------------------------------------------------------------
// UTF-8 byte prefixes, splitting and integer parsing
// ---------------------------------------------------------------------------

/// Number of bytes `c` takes in UTF-8.
pub open spec fn utf8_len(c: char) -> nat {
    if (c as u32) < 0x80 {
        1
    } else if (c as u32) < 0x800 {
        2
    } else if (c as u32) < 0x10000 {
        3
    } else {
        4
    }
}

/// Number of bytes `s` takes in UTF-8.
pub open spec fn byte_len(s: Seq<char>) -> nat
    decreases s.len(),
{
    if s.len() == 0 {
        0
    } else {
        byte_len(s.drop_last()) + utf8_len(s.last())
    }
}

/// `s.get(0..n)`: the prefix that is exactly `n` bytes long, if `n` falls on
/// a character boundary within `s`.
pub open spec fn byte_prefix(s: Seq<char>, n: nat) -> Option<Seq<char>> {
    if exists|k: int| 0 <= k <= s.len() && byte_len(s.take(k)) == n {
        Some(s.take(choose|k: int| 0 <= k <= s.len() && byte_len(s.take(k)) == n))
    } else {
        None
    }
}

proof fn lemma_byte_len_strict(s: Seq<char>, j: int, k: int)
    requires
        0 <= j < k <= s.len(),
    ensures
        byte_len(s.take(j)) < byte_len(s.take(k)),
    decreases k - j,
{
    assert(s.take(k).drop_last() =~= s.take(k - 1));
    if j < k - 1 {
        lemma_byte_len_strict(s, j, k - 1);
    }
}

/// The `n`-byte prefix of a sequence that starts with `p`, where `p` is `n`
/// bytes long, is `p`.
pub proof fn lemma_byte_prefix_of(p: Seq<char>, rest: Seq<char>, n: nat)
    requires
        byte_len(p) == n,
    ensures
        byte_prefix(p + rest, n) == Some(p),
{
    let s = p + rest;
    assert(s.take(p.len() as int) =~= p);
    assert(0 <= p.len() <= s.len() && byte_len(s.take(p.len() as int)) == n);
    let k = choose|k: int| 0 <= k <= s.len() && byte_len(s.take(k)) == n;
    if k < p.len() {
        lemma_byte_len_strict(s, k, p.len() as int);
    } else if k > p.len() {
        lemma_byte_len_strict(s, p.len() as int, k);
    }
}

/// A sequence shorter than `n` bytes has no `n`-byte prefix.
pub proof fn lemma_no_byte_prefix(s: Seq<char>, n: nat)
    requires
        byte_len(s) < n,
    ensures
        byte_prefix(s, n) is None,
{
    assert(s.take(s.len() as int) =~= s);
    assert forall|k: int| 0 <= k <= s.len() implies byte_len(#[trigger] s.take(k)) != n by {
        if k < s.len() {
            lemma_byte_len_strict(s, k, s.len() as int);
        }
    }
}

/// An ASCII sequence takes one byte per character.
pub proof fn lemma_ascii_byte_len(s: Seq<char>)
    requires
        forall|i: int| 0 <= i < s.len() ==> (#[trigger] s[i] as u32) < 0x80,
    ensures
        byte_len(s) == s.len(),
    decreases s.len(),
{
    if s.len() > 0 {
        let t = s.drop_last();
        assert forall|i: int| 0 <= i < t.len() implies (#[trigger] t[i] as u32) < 0x80 by {
            assert(t[i] == s[i]);
        }
        lemma_ascii_byte_len(t);
        assert((s[s.len() - 1] as u32) < 0x80);
    }
}

fn char_utf8_len(c: char) -> (r: usize)
    ensures
        r as nat == utf8_len(c),
{
    let u = c as u32;
    if u < 0x80 {
        1
    } else if u < 0x800 {
        2
    } else if u < 0x10000 {
        3
    } else {
        4
    }
}

/// `s.get(0..n)` on characters: the `n`-byte prefix, if any.
pub fn prefix_bytes(v: &Vec<char>, n: usize) -> (r: Option<Vec<char>>)
    ensures
        match byte_prefix(v@, n as nat) {
            Some(p) => r is Some && r->0@ == p,
            None => r is None,
        },
{
    let mut acc: u128 = 0;
    let mut k: usize = 0;
    while k < v.len() && acc < n as u128
        invariant
            k <= v.len(),
            acc as nat == byte_len(v@.take(k as int)),
            forall|j: int| 0 <= j < k ==> byte_len(#[trigger] v@.take(j)) < acc,
            forall|j: int| 0 <= j < k ==> byte_len(#[trigger] v@.take(j)) < n,
            acc <= n + 4,
        decreases v.len() - k,
    {
        assert(v@.take(k + 1).drop_last() =~= v@.take(k as int));
        acc = acc + char_utf8_len(v[k]) as u128;
        k = k + 1;
        assert forall|j: int| 0 <= j < k implies byte_len(#[trigger] v@.take(j)) < acc by {
            if j < k - 1 {
            }
        }
    }
    if acc == n as u128 {
        let mut out: Vec<char> = Vec::new();
        let mut i: usize = 0;
        while i < k
            invariant
                k <= v.len(),
                i <= k,
                out@ == v@.take(i as int),
            decreases k - i,
        {
            out.push(v[i]);
            i = i + 1;
            assert(out@ =~= v@.take(i as int));
        }
        proof {
            assert(byte_len(v@.take(k as int)) == n);
            let c = choose|j: int| 0 <= j <= v@.len() && byte_len(v@.take(j)) == n;
            if c < k {
                assert(byte_len(v@.take(c)) < acc);
            } else if c > k {
                lemma_byte_len_strict(v@, k as int, c);
            }
        }
        Some(out)
    } else {
        proof {
            assert forall|j: int| 0 <= j <= v@.len() implies byte_len(#[trigger] v@.take(j)) != n by {
                if j < k {
                } else if j > k {
                    lemma_byte_len_strict(v@, k as int, j);
                } else {
                }
            }
        }
        None
    }
}

/// `s.split(sep)` as a sequence of pieces (there is always at least one).
pub open spec fn split_char(s: Seq<char>, sep: char) -> Seq<Seq<char>>
    decreases s.len(),
{
    if s.len() == 0 {
        seq![Seq::<char>::empty()]
    } else {
        let r = split_char(s.drop_last(), sep);
        if s.last() == sep {
            r.push(Seq::<char>::empty())
        } else {
            r.update(r.len() - 1, r.last().push(s.last()))
        }
    }
}

pub proof fn lemma_split_nonempty(s: Seq<char>, sep: char)
    ensures
        split_char(s, sep).len() >= 1,
    decreases s.len(),
{
    if s.len() > 0 {
        lemma_split_nonempty(s.drop_last(), sep);
    }
}

/// `s.split(sep)` on characters.
pub fn split_on(v: &Vec<char>, sep: char) -> (r: Vec<Vec<char>>)
    ensures
        r@.len() == split_char(v@, sep).len(),
        forall|i: int| 0 <= i < r@.len() ==> #[trigger] r@[i]@ == split_char(v@, sep)[i],
{
    let mut pieces: Vec<Vec<char>> = Vec::new();
    let mut cur: Vec<char> = Vec::new();
    let mut i: usize = 0;
    while i < v.len()
        invariant
            i <= v.len(),
            pieces@.len() + 1 == split_char(v@.take(i as int), sep).len(),
            forall|j: int|
                0 <= j < pieces@.len() ==> #[trigger] pieces@[j]@ == split_char(
                    v@.take(i as int),
                    sep,
                )[j],
            cur@ == split_char(v@.take(i as int), sep).last(),
        decreases v.len() - i,
    {
        proof {
            lemma_split_nonempty(v@.take(i as int), sep);
            assert(v@.take(i + 1).drop_last() =~= v@.take(i as int));
        }
        if v[i] == sep {
            let done = cur;
            pieces.push(done);
            cur = Vec::new();
        } else {
            cur.push(v[i]);
        }
        i = i + 1;
    }
    pieces.push(cur);
    assert(v@.take(v.len() as int) =~= v@);
    pieces
}

/// The value of an ASCII digit string (most significant first).
pub open spec fn digits_value(s: Seq<char>) -> nat
    decreases s.len(),
{
    if s.len() == 0 {
        0
    } else {
        digits_value(s.drop_last()) * 10 + ((s.last() as u32) - 48) as nat
    }
}

/// Every character of `s` is an ASCII digit.
pub open spec fn all_digits(s: Seq<char>) -> bool {
    forall|i: int| 0 <= i < s.len() ==> 48 <= (#[trigger] s[i] as u32) <= 57
}

/// The unsigned magnitude `str::parse` reads: an optional `+`, then at least one
/// ASCII digit and nothing else.
pub open spec fn parse_unsigned(s: Seq<char>) -> Option<nat> {
    let body = if s.len() > 1 && s[0] == '+' { s.drop_first() } else { s };
    if body.len() > 0 && all_digits(body) {
        Some(digits_value(body))
    } else {
        None
    }
}

/// `s.parse::<i64>()` style: an optional sign, then at least one digit; the
/// value must lie in `[lo, hi]`.
pub open spec fn parse_signed(s: Seq<char>, lo: int, hi: int) -> Option<int> {
    if s.len() > 1 && s[0] == '-' {
        let body = s.drop_first();
        if all_digits(body) && lo <= -(digits_value(body) as int) <= hi {
            Some(-(digits_value(body) as int))
        } else {
            None
        }
    } else {
        match parse_unsigned(s) {
            Some(v) => if lo <= v <= hi { Some(v as int) } else { None },
            None => None,
        }
    }
}

/// `10^n`.
pub open spec fn pow10(n: nat) -> nat
    decreases n,
{
    if n == 0 {
        1
    } else {
        10 * pow10((n - 1) as nat)
    }
}

proof fn lemma_pow10_mono(a: nat, b: nat)
    requires
        a <= b,
    ensures
        pow10(a) <= pow10(b),
    decreases b,
{
    if a < b {
        lemma_pow10_mono(a, (b - 1) as nat);
    }
}

proof fn lemma_digits_value_bound(s: Seq<char>)
    requires
        all_digits(s),
    ensures
        digits_value(s) < pow10(s.len()),
    decreases s.len(),
{
    if s.len() > 0 {
        let t = s.drop_last();
        assert(all_digits(t)) by {
            assert forall|i: int| 0 <= i < t.len() implies 48 <= (#[trigger] t[i] as u32) <= 57 by {
                assert(t[i] == s[i]);
            }
        }
        assert(48 <= (s[s.len() - 1] as u32) <= 57);
        lemma_digits_value_bound(t);
        let p = pow10(t.len());
        assert(pow10(s.len()) == 10 * p);
        assert(digits_value(t) * 10 + 9 < 10 * p) by (nonlinear_arith)
            requires
                digits_value(t) < p,
        ;
    }
}

/// The decimal digits of `n`: at least one, all ASCII digits, reading back
/// as `n`; one for `n < 10`, at most two below 100 and four below 10000.
pub proof fn lemma_dec(n: nat)
    ensures
        all_digits(dec(n)),
        dec(n).len() >= 1,
        digits_value(dec(n)) == n,
        n < 10 ==> dec(n).len() == 1,
        n < 100 ==> dec(n).len() <= 2,
        n < 1000 ==> dec(n).len() <= 3,
        n < 10000 ==> dec(n).len() <= 4,
    decreases n,
{
    assert((digit(n % 10) as u32) == 48 + n % 10);
    if n < 10 {
        assert((digit(n) as u32) == 48 + n);
        let s1 = seq![digit(n)];
        assert(s1.drop_last() =~= Seq::<char>::empty());
        assert(digits_value(s1.drop_last()) == 0);
        assert(s1.last() == digit(n));
        assert(dec(n) == s1);
        assert(digits_value(s1) == n);
    }
    if n >= 10 {
        lemma_dec(n / 10);
        let t = dec(n / 10);
        let s = dec(n);
        assert(s.drop_last() =~= t);
        assert forall|i: int| 0 <= i < s.len() implies 48 <= (#[trigger] s[i] as u32) <= 57 by {
            if i < t.len() {
                assert(s[i] == t[i]);
            }
        }
        assert(s.last() == digit(n % 10));
        assert(digits_value(s) == digits_value(t) * 10 + ((s.last() as u32) - 48) as nat);
        assert(n == (n / 10) * 10 + n % 10);
    }
}

/// Leading zeros do not change the value of a digit string.
pub proof fn lemma_zeros_value(k: nat, s: Seq<char>)
    ensures
        all_digits(zeros(k)),
        digits_value(zeros(k) + s) == digits_value(s),
    decreases s.len(), k,
{
    if s.len() > 0 {
        lemma_zeros_value(k, s.drop_last());
        assert((zeros(k) + s).drop_last() =~= zeros(k) + s.drop_last());
    } else {
        assert(zeros(k) + s =~= zeros(k));
        if k > 0 {
            lemma_zeros_value((k - 1) as nat, s);
            assert(zeros(k).drop_last() =~= zeros((k - 1) as nat));
            assert(zeros((k - 1) as nat) + s =~= zeros((k - 1) as nat));
        }
    }
}

/// `n` padded with zeros to width `w` (at least its own length): `w`
/// ASCII digits reading back as `n`.
pub proof fn lemma_pad_dec(n: nat, w: nat)
    requires
        dec(n).len() <= w,
    ensures
        pad0(dec(n), w).len() == w,
        all_digits(pad0(dec(n), w)),
        digits_value(pad0(dec(n), w)) == n,
{
    lemma_dec(n);
    let z = (w - dec(n).len()) as nat;
    lemma_zeros_value(z, dec(n));
    if dec(n).len() < w {
        let p = zeros(z) + dec(n);
        assert forall|i: int| 0 <= i < p.len() implies 48 <= (#[trigger] p[i] as u32) <= 57 by {
            if i < z {
                assert(p[i] == '0');
            } else {
                assert(p[i] == dec(n)[i - z]);
            }
        }
    }
}

/// Splitting `s`, a separator, then `t` (no separator in `t`) gives the
/// pieces of `s` and then `t`.
pub proof fn lemma_split_append(s: Seq<char>, sep: char, t: Seq<char>)
    requires
        !t.contains(sep),
    ensures
        split_char(s + seq![sep] + t, sep) == split_char(s, sep).push(t),
    decreases t.len(),
{
    if t.len() == 0 {
        assert(t =~= Seq::<char>::empty());
        assert(s + seq![sep] + t =~= s.push(sep));
        assert((s + seq![sep] + t).drop_last() =~= s);
        assert((s + seq![sep] + t).last() == sep);
    } else {
        let u = t.drop_last();
        assert(!u.contains(sep)) by {
            if u.contains(sep) {
                let i = choose|i: int| 0 <= i < u.len() && u[i] == sep;
                assert(t[i] == sep);
            }
        }
        lemma_split_append(s, sep, u);
        assert((s + seq![sep] + t).drop_last() =~= s + seq![sep] + u);
        assert(t.last() != sep) by {
            assert(t[t.len() - 1] == t.last());
        }
        lemma_split_nonempty(s + seq![sep] + u, sep);
        assert((s + seq![sep] + t).last() == t.last());
        assert(split_char(s, sep).push(u).update(split_char(s, sep).len() as int, u.push(t.last()))
            =~= split_char(s, sep).push(t)) by {
            assert(u.push(t.last()) =~= t);
        }
    }
}

/// A sequence with no separator is one piece.
pub proof fn lemma_split_none(t: Seq<char>, sep: char)
    requires
        !t.contains(sep),
    ensures
        split_char(t, sep) == seq![t],
    decreases t.len(),
{
    if t.len() == 0 {
        assert(t =~= Seq::<char>::empty());
    } else {
        let u = t.drop_last();
        assert(!u.contains(sep)) by {
            if u.contains(sep) {
                let i = choose|i: int| 0 <= i < u.len() && u[i] == sep;
                assert(t[i] == sep);
            }
        }
        lemma_split_none(u, sep);
        assert(t.last() != sep) by {
            assert(t[t.len() - 1] == t.last());
        }
        assert(u.push(t.last()) =~= t);
        assert(split_char(t, sep) == split_char(u, sep).update(0, u.push(t.last())));
        assert(seq![u].update(0, u.push(t.last())) =~= seq![t]);
    }
}

/// Saturation bound used while reading digit runs.
pub open spec fn digit_cap() -> nat {
    0x1_0000_0000_0000_0000_0000nat
}

/// Parse a digit run (no sign) starting at `start`, saturating at
/// [`digit_cap`]; `None` when a non-digit occurs.
fn parse_digits(v: &Vec<char>, start: usize) -> (r: Option<u128>)
    requires
        start <= v.len(),
    ensures
        match r {
            Some(x) => all_digits(v@.skip(start as int)) && x as nat == (if digits_value(
                v@.skip(start as int),
            ) < digit_cap() {
                digits_value(v@.skip(start as int))
            } else {
                digit_cap()
            }),
            None => !all_digits(v@.skip(start as int)),
        },
{
    let cap: u128 = 0x1_0000_0000_0000_0000_0000;
    let mut acc: u128 = 0;
    let mut i: usize = start;
    while i < v.len()
        invariant
            start <= i <= v.len(),
            cap as nat == digit_cap(),
            all_digits(v@.subrange(start as int, i as int)),
            acc as nat == (if digits_value(v@.subrange(start as int, i as int)) < digit_cap() {
                digits_value(v@.subrange(start as int, i as int))
            } else {
                digit_cap()
            }),
        decreases v.len() - i,
    {
        let c = v[i];
        let u = c as u32;
        if !(48 <= u && u <= 57) {
            assert(v@.skip(start as int)[i - start] == c);
            assert(!(48 <= (v@.skip(start as int)[i - start] as u32) <= 57));
            return None;
        }
        proof {
            let t = v@.subrange(start as int, i as int);
            let w = v@.subrange(start as int, i + 1);
            assert(w.drop_last() =~= t);
            assert forall|j: int| 0 <= j < w.len() implies 48 <= (#[trigger] w[j] as u32) <= 57 by {
                if j < t.len() {
                    assert(w[j] == t[j]);
                }
            }
        }
        if acc < cap {
            acc = acc * 10 + (u - 48) as u128;
            if acc > cap {
                acc = cap;
            }
        }
        i = i + 1;
    }
    assert(v@.subrange(start as int, v.len() as int) =~= v@.skip(start as int));
    Some(acc)
}

/// `s.parse::<u32>()` (or `u64`, by `hi`): the value if `s` is an optional `+`
/// followed by digits whose value is at most `hi`.
pub open spec fn parse_nat_upto(s: Seq<char>, hi: nat) -> Option<nat> {
    match parse_unsigned(s) {
        Some(x) => if x <= hi { Some(x) } else { None },
        None => None,
    }
}

/// `s.parse::<u32>().ok()`.
pub fn parse_u32(v: &Vec<char>) -> (r: Option<u32>)
    ensures
        match parse_nat_upto(v@, u32::MAX as nat) {
            Some(x) => r == Some(x as u32),
            None => r is None,
        },
{
    let start: usize = if v.len() > 1 && v[0] == '+' { 1 } else { 0 };
    if start >= v.len() {
        return None;
    }
    proof {
        if start == 1 {
            assert(v@.skip(1) =~= v@.drop_first());
        } else {
            assert(v@.skip(0) =~= v@);
        }
    }
    match parse_digits(v, start) {
        Some(x) => {
            if x <= 0xffff_ffff {
                Some(x as u32)
            } else {
                None
            }
        },
        None => None,
    }
}

/// `s.parse::<i64>().ok()` restricted to `[i32::MIN, i32::MAX]` or the full
/// `i64` range, as chosen by `lo`/`hi`.
pub fn parse_int(v: &Vec<char>, lo: i64, hi: i64) -> (r: Option<i64>)
    requires
        lo <= 0 <= hi,
    ensures
        match parse_signed(v@, lo as int, hi as int) {
            Some(x) => r == Some(x as i64),
            None => r is None,
        },
{
    if v.len() > 1 && v[0] == '-' {
        assert(v@.skip(1) =~= v@.drop_first());
        match parse_digits(v, 1) {
            Some(x) => {
                if x <= 0x8000_0000_0000_0000 {
                    let neg: i128 = 0i128 - (x as i128);
                    if (lo as i128) <= neg {
                        return Some(neg as i64);
                    }
                }
                None
            },
            None => None,
        }
    } else {
        let start: usize = if v.len() > 1 && v[0] == '+' { 1 } else { 0 };
        if start >= v.len() {
            return None;
        }
        proof {
            if start == 1 {
                assert(v@.skip(1) =~= v@.drop_first());
            } else {
                assert(v@.skip(0) =~= v@);
            }
        }
        match parse_digits(v, start) {
            Some(x) => {
                if x <= (hi as u128) {
                    Some(x as i64)
                } else {
                    None
                }
            },
            None => None,
        }
    }
}


// ---------------------------------------------------------------------------
// Ordering, sorting and de-duplication of strings
// ---------------------------------------------------------------------------

/// Lexicographic `a <= b` by code point (the order `str`'s `Ord` gives, since
/// UTF-8 preserves code-point order).
pub open spec fn lex_le(a: Seq<char>, b: Seq<char>) -> bool
    decreases a.len(),
{
    if a.len() == 0 {
        true
    } else if b.len() == 0 {
        false
    } else if a[0] == b[0] {
        lex_le(a.drop_first(), b.drop_first())
    } else {
        (a[0] as u32) < (b[0] as u32)
    }
}

/// [`lex_le`] as a relation.
pub open spec fn lex_leq() -> spec_fn(Seq<char>, Seq<char>) -> bool {
    |a: Seq<char>, b: Seq<char>| lex_le(a, b)
}

proof fn lemma_char_u32_inj(a: char, b: char)
    requires
        (a as u32) == (b as u32),
    ensures
        a == b,
{
}

pub proof fn lemma_lex_refl(a: Seq<char>)
    ensures
        lex_le(a, a),
    decreases a.len(),
{
    if a.len() > 0 {
        lemma_lex_refl(a.drop_first());
    }
}

pub proof fn lemma_lex_antisym(a: Seq<char>, b: Seq<char>)
    requires
        lex_le(a, b),
        lex_le(b, a),
    ensures
        a == b,
    decreases a.len(),
{
    if a.len() == 0 {
        assert(b.len() == 0);
        assert(a =~= b);
    } else {
        assert(b.len() > 0);
        if a[0] == b[0] {
            lemma_lex_antisym(a.drop_first(), b.drop_first());
            assert(a =~= seq![a[0]] + a.drop_first());
            assert(b =~= seq![b[0]] + b.drop_first());
        } else {
            assert((a[0] as u32) < (b[0] as u32));
            assert((b[0] as u32) < (a[0] as u32));
        }
    }
}

pub proof fn lemma_lex_trans(a: Seq<char>, b: Seq<char>, c: Seq<char>)
    requires
        lex_le(a, b),
        lex_le(b, c),
    ensures
        lex_le(a, c),
    decreases a.len(),
{
    if a.len() > 0 {
        assert(b.len() > 0);
        assert(c.len() > 0);
        if a[0] == b[0] && b[0] == c[0] {
            lemma_lex_trans(a.drop_first(), b.drop_first(), c.drop_first());
        } else if a[0] == b[0] {
            assert((b[0] as u32) < (c[0] as u32));
        } else if b[0] == c[0] {
            assert((a[0] as u32) < (b[0] as u32));
        } else {
            assert((a[0] as u32) < (b[0] as u32));
            assert((b[0] as u32) < (c[0] as u32));
            if a[0] == c[0] {
            }
        }
    }
}

pub proof fn lemma_lex_total(a: Seq<char>, b: Seq<char>)
    ensures
        lex_le(a, b) || lex_le(b, a),
    decreases a.len(),
{
    if a.len() > 0 && b.len() > 0 {
        if a[0] == b[0] {
            lemma_lex_total(a.drop_first(), b.drop_first());
        } else if (a[0] as u32) == (b[0] as u32) {
            lemma_char_u32_inj(a[0], b[0]);
        }
    }
}

pub proof fn lemma_lex_total_ordering()
    ensures
        vstd::relations::total_ordering(lex_leq()),
{
    assert forall|a: Seq<char>| #[trigger] lex_leq()(a, a) by {
        lemma_lex_refl(a);
    }
    assert forall|a: Seq<char>, b: Seq<char>| #[trigger] lex_leq()(a, b) && #[trigger] lex_leq()(
        b,
        a,
    ) implies a == b by {
        lemma_lex_antisym(a, b);
    }
    assert forall|a: Seq<char>, b: Seq<char>, c: Seq<char>| #[trigger] lex_leq()(a, b)
        && #[trigger] lex_leq()(b, c) implies #[trigger] lex_leq()(a, c) by {
        lemma_lex_trans(a, b, c);
    }
    assert forall|a: Seq<char>, b: Seq<char>| #[trigger] lex_leq()(a, b) || #[trigger] lex_leq()(
        b,
        a,
    ) by {
        lemma_lex_total(a, b);
    }
}

/// Lexicographic `a <= b` on character vectors.
pub fn chars_le(a: &Vec<char>, b: &Vec<char>) -> (r: bool)
    ensures
        r == lex_le(a@, b@),
{
    let mut i: usize = 0;
    assert(a@.skip(0) =~= a@);
    assert(b@.skip(0) =~= b@);
    while i < a.len() && i < b.len() && a[i] == b[i]
        invariant
            i <= a@.len(),
            i <= b@.len(),
            lex_le(a@.skip(i as int), b@.skip(i as int)) == lex_le(a@, b@),
        decreases a.len() - i,
    {
        proof {
            assert(a@.skip(i as int).drop_first() =~= a@.skip(i + 1));
            assert(b@.skip(i as int).drop_first() =~= b@.skip(i + 1));
        }
        i = i + 1;
    }
    if i == a.len() {
        true
    } else if i == b.len() {
        false
    } else {
        (a[i] as u32) < (b[i] as u32)
    }
}

/// The character sequences of a sequence of strings.
pub open spec fn views(v: Seq<String>) -> Seq<Seq<char>> {
    v.map_values(|s: String| s@)
}

/// `v` sorted (`Vec::sort` on strings).
pub fn sort_strings(v: Vec<String>) -> (r: Vec<String>)
    ensures
        views(r@) == views(v@).sort_by(lex_leq()),
{
    let ghost leq = lex_leq();
    proof {
        lemma_lex_total_ordering();
    }
    let mut out: Vec<String> = Vec::new();
    let mut i: usize = 0;
    assert(views(out@) =~= views(v@.take(0)));
    while i < v.len()
        invariant
            i <= v@.len(),
            leq == lex_leq(),
            vstd::relations::total_ordering(leq),
            vstd::relations::sorted_by(views(out@), leq),
            views(out@).to_multiset() == views(v@.take(i as int)).to_multiset(),
        decreases v.len() - i,
    {
        let x = chars_of(v[i].as_str());
        let mut pos: usize = 0;
        while pos < out.len() && chars_le(&chars_of(out[pos].as_str()), &x)
            invariant
                pos <= out@.len(),
                forall|k: int| 0 <= k < pos ==> lex_le(#[trigger] out@[k]@, x@),
            decreases out.len() - pos,
        {
            pos = pos + 1;
        }
        let ghost old_out = views(out@);
        out.insert(pos, v[i].clone());
        proof {
            assert(views(out@) =~= old_out.insert(pos as int, x@));
            vstd::seq_lib::to_multiset_insert(old_out, pos as int, x@);
            assert(views(v@.take(i + 1)) =~= views(v@.take(i as int)).push(x@));
            vstd::seq_lib::to_multiset_build(views(v@.take(i as int)), x@);
            assert forall|a: int, b: int| 0 <= a < b < views(out@).len() implies #[trigger] leq(
                views(out@)[a],
                views(out@)[b],
            ) by {
                if pos < old_out.len() {
                    assert(!lex_le(old_out[pos as int], x@));
                    lemma_lex_total(old_out[pos as int], x@);
                }
                if a < pos && b == pos {
                    assert(lex_le(out@[a]@, x@));
                } else if a == pos && b > pos {
                    assert(lex_le(x@, old_out[pos as int]));
                    if b - 1 > pos {
                        assert(leq(old_out[pos as int], old_out[b - 1]));
                        lemma_lex_trans(x@, old_out[pos as int], old_out[b - 1]);
                    }
                } else if a < pos && b > pos {
                    assert(leq(old_out[a], old_out[b - 1]));
                } else if a > pos {
                    assert(leq(old_out[a - 1], old_out[b - 1]));
                }
            }
        }
        i = i + 1;
    }
    proof {
        assert(v@.take(v.len() as int) =~= v@);
        views(v@).lemma_sort_by_ensures(leq);
        vstd::seq_lib::lemma_sorted_unique(views(out@), views(v@).sort_by(leq), leq);
    }
    out
}

/// `s` with runs of equal neighbours collapsed to one (`Vec::dedup`).
pub open spec fn dedup_seq(s: Seq<Seq<char>>) -> Seq<Seq<char>>
    decreases s.len(),
{
    if s.len() <= 1 {
        s
    } else {
        let r = dedup_seq(s.drop_last());
        if s.last() == s[s.len() - 2] {
            r
        } else {
            r.push(s.last())
        }
    }
}

proof fn lemma_dedup_last(s: Seq<Seq<char>>)
    requires
        s.len() >= 1,
    ensures
        dedup_seq(s).len() >= 1,
        dedup_seq(s).last() == s.last(),
    decreases s.len(),
{
    if s.len() > 1 {
        lemma_dedup_last(s.drop_last());
    }
}

/// `v.dedup()`.
pub fn dedup_strings(v: Vec<String>) -> (r: Vec<String>)
    ensures
        views(r@) == dedup_seq(views(v@)),
{
    let mut out: Vec<String> = Vec::new();
    let mut i: usize = 0;
    while i < v.len()
        invariant
            i <= v@.len(),
            views(out@) == dedup_seq(views(v@.take(i as int))),
        decreases v.len() - i,
    {
        proof {
            assert(views(v@.take(i + 1)).drop_last() =~= views(v@.take(i as int)));
            if i >= 1 {
                lemma_dedup_last(views(v@.take(i as int)));
            }
        }
        if i == 0 || !str_eq(v[i].as_str(), v[i - 1].as_str()) {
            out.push(v[i].clone());
        }
        i = i + 1;
        assert(views(out@) =~= dedup_seq(views(v@.take(i as int))));
    }
    assert(v@.take(v.len() as int) =~= v@);
    out
}

/// `parts` joined with `sep` between neighbours (`[..].join(sep)`).
pub open spec fn join(parts: Seq<Seq<char>>, sep: Seq<char>) -> Seq<char>
    decreases parts.len(),
{
    if parts.len() == 0 {
        Seq::empty()
    } else if parts.len() == 1 {
        parts[0]
    } else {
        join(parts.drop_last(), sep) + sep + parts.last()
    }
}

/// `v.join(sep)`.
pub fn join_strings(v: &Vec<String>, sep: &str) -> (r: String)
    ensures
        r@ == join(views(v@), sep@),
{
    let mut out = String::new();
    let mut i: usize = 0;
    while i < v.len()
        invariant
            i <= v@.len(),
            out@ == join(views(v@.take(i as int)), sep@),
        decreases v.len() - i,
    {
        if i > 0 {
            out.append(sep);
        }
        out.append(v[i].as_str());
        i = i + 1;
        assert(views(v@.take(i as int)).drop_last() =~= views(v@.take(i - 1)));
    }
    assert(v@.take(v.len() as int) =~= v@);
    out
}

/// The trimmed, non-empty entries of `pieces`, in order.
pub open spec fn trimmed_nonempty(pieces: Seq<Seq<char>>) -> Seq<Seq<char>>
    decreases pieces.len(),
{
    if pieces.len() == 0 {
        Seq::empty()
    } else {
        let r = trimmed_nonempty(pieces.drop_last());
        if trim(pieces.last()).len() == 0 {
            r
        } else {
            r.push(trim(pieces.last()))
        }
    }
}

/// A list separated by `sep`: each entry trimmed, empty entries dropped.
pub open spec fn sep_list(s: Seq<char>, sep: char) -> Seq<Seq<char>> {
    trimmed_nonempty(split_char(s, sep))
}

/// A comma-separated list: each entry trimmed, empty entries dropped.
pub open spec fn comma_list(s: Seq<char>) -> Seq<Seq<char>> {
    sep_list(s, ',')
}

/// Split a list separated by `sep`, trimming each entry and dropping empty
/// ones.
pub fn split_trimmed(s: &str, sep: char) -> (r: Vec<String>)
    ensures
        views(r@) == sep_list(s@, sep),
{
    let v = chars_of(s);
    let pieces = split_on(&v, sep);
    let ghost ps = split_char(s@, sep);
    let mut out: Vec<String> = Vec::new();
    let mut i: usize = 0;
    while i < pieces.len()
        invariant
            v@ == s@,
            ps == split_char(v@, sep),
            pieces@.len() == ps.len(),
            forall|k: int| 0 <= k < pieces@.len() ==> #[trigger] pieces@[k]@ == ps[k],
            i <= pieces@.len(),
            views(out@) == trimmed_nonempty(ps.take(i as int)),
        decreases pieces.len() - i,
    {
        let piece = string_of(&pieces[i]);
        let t = trimmed(piece.as_str());
        assert(ps.take(i + 1).drop_last() =~= ps.take(i as int));
        if t.as_str().unicode_len() > 0 {
            let ghost before = views(out@);
            out.push(t);
            assert(views(out@) =~= before.push(trim(ps[i as int])));
        }
        i = i + 1;
    }
    assert(ps.take(pieces.len() as int) =~= ps);
    out
}

/// Split a comma-separated list, trimming each entry and dropping empty ones.
pub fn split_comma_list(s: &str) -> (r: Vec<String>)
    ensures
        views(r@) == comma_list(s@),
{
    split_trimmed(s, ',')
}


/// Each part of a join occurs in it; the result is where.
pub proof fn lemma_join_part(parts: Seq<Seq<char>>, sep: Seq<char>, k: int) -> (i: int)
    requires
        0 <= k < parts.len(),
    ensures
        occurs_at(join(parts, sep), parts[k], i),
    decreases parts.len(),
{
    if parts.len() == 1 {
        assert(join(parts, sep).subrange(0, parts[0].len() as int) =~= parts[0]);
        0
    } else {
        let front = join(parts.drop_last(), sep);
        let whole = join(parts, sep);
        assert(whole == front + sep + parts.last());
        if k == parts.len() - 1 {
            let i: int = (front.len() + sep.len()) as int;
            assert(whole.subrange(i, i + parts[k].len()) =~= parts[k]);
            i
        } else {
            let i = lemma_join_part(parts.drop_last(), sep, k);
            assert(parts.drop_last()[k] == parts[k]);
            assert(whole.subrange(i, i + parts[k].len()) =~= front.subrange(i, i + parts[k].len()));
            i
        }
    }
}

} // verus!
