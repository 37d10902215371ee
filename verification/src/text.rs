//! Character-level helpers on strings: the building blocks that the parsers
//! and formatters of this crate are verified against.

use vstd::prelude::*;

verus! {

/// Appends one character to a string (`String::push`).
#[verifier::external_body]
pub(crate) fn push_char(s: &mut String, c: char)
    ensures
        final(s)@ == old(s)@.push(c),
{
    s.push(c);
}

/// The views of a sequence of strings.
pub open spec fn strings_view(v: Seq<String>) -> Seq<Seq<char>> {
    v.map_values(|s: String| s@)
}

/// A string's view, lifted through `Option`.
pub open spec fn opt_view(o: Option<String>) -> Option<Seq<char>> {
    match o {
        Some(s) => Some(s@),
        None => None,
    }
}

/// The characters of a string slice, in order.
pub fn chars_of(s: &str) -> (v: Vec<char>)
    ensures
        v@ == s@,
{
    let mut v: Vec<char> = Vec::new();
    for c in it: s.chars()
        invariant
            v@ == it.seq().take(it.index() as int),
            it.seq() == s@,
    {
        v.push(c);
    }
    v
}

/// Builds a string from a sequence of characters.
pub fn string_of(v: &Vec<char>) -> (s: String)
    ensures
        s@ == v@,
{
    let mut s = String::new();
    for i in 0..v.len()
        invariant
            s@ == v@.take(i as int),
    {
        push_char(&mut s, v[i]);
        assert(v@.take(i + 1) =~= v@.take(i as int).push(v@[i as int]));
    }
    assert(v@.take(v.len() as int) =~= v@);
    s
}

/// Appends the characters of `v` to `s`.
pub fn push_all(s: &mut String, v: &Vec<char>)
    ensures
        final(s)@ == old(s)@ + v@,
{
    let ghost start = s@;
    for i in 0..v.len()
        invariant
            s@ == start + v@.take(i as int),
    {
        push_char(s, v[i]);
        assert(v@.take(i + 1) =~= v@.take(i as int).push(v@[i as int]));
    }
    assert(v@.take(v.len() as int) =~= v@);
}

/// Appends a string slice to `s`.
pub fn push_str(s: &mut String, t: &str)
    ensures
        final(s)@ == old(s)@ + t@,
{
    let v = chars_of(t);
    push_all(s, &v);
}

/// The concatenation of two string slices.
pub fn concat2(a: &str, b: &str) -> (s: String)
    ensures
        s@ == a@ + b@,
{
    let mut s = a.to_owned();
    push_str(&mut s, b);
    s
}

/// ASCII letter or digit.
pub open spec fn is_ascii_alnum(c: char) -> bool {
    ('a' <= c && c <= 'z') || ('A' <= c && c <= 'Z') || ('0' <= c && c <= '9')
}

pub fn ascii_alnum(c: char) -> (b: bool)
    ensures
        b == is_ascii_alnum(c),
{
    ('a' <= c && c <= 'z') || ('A' <= c && c <= 'Z') || ('0' <= c && c <= '9')
}

/// ASCII lower case of one character.
pub open spec fn ascii_lower(c: char) -> char {
    if 'A' <= c && c <= 'Z' {
        ((c as u32) + 32) as char
    } else {
        c
    }
}

/// ASCII lower case of a character sequence (`str::to_ascii_lowercase`).
pub open spec fn ascii_lower_seq(s: Seq<char>) -> Seq<char> {
    s.map_values(|c: char| ascii_lower(c))
}

pub fn to_ascii_lowercase(s: &str) -> (r: String)
    ensures
        r@ == ascii_lower_seq(s@),
{
    let v = chars_of(s);
    let mut out: Vec<char> = Vec::new();
    for i in 0..v.len()
        invariant
            v@ == s@,
            out@ == ascii_lower_seq(v@.take(i as int)),
    {
        let c = v[i];
        let l = if 'A' <= c && c <= 'Z' {
            ((c as u8) + 32) as char
        } else {
            c
        };
        assert(l == ascii_lower(c)) by {
            if 'A' <= c && c <= 'Z' {
                assert((c as u8) as u32 == c as u32);
            }
        }
        out.push(l);
        assert(ascii_lower_seq(v@.take(i + 1)) =~= ascii_lower_seq(v@.take(i as int)).push(
            ascii_lower(v@[i as int]),
        ));
    }
    assert(v@.take(v.len() as int) =~= v@);
    string_of(&out)
}

/// `s` with every leading `c` removed.
pub open spec fn trim_start_ch(s: Seq<char>, c: char) -> Seq<char>
    decreases s.len(),
{
    if s.len() > 0 && s[0] == c {
        trim_start_ch(s.drop_first(), c)
    } else {
        s
    }
}

/// `s` with every trailing `c` removed.
pub open spec fn trim_end_ch(s: Seq<char>, c: char) -> Seq<char>
    decreases s.len(),
{
    if s.len() > 0 && s.last() == c {
        trim_end_ch(s.drop_last(), c)
    } else {
        s
    }
}

/// `s` with `c` removed from both ends (`str::trim_matches` with a char).
pub open spec fn trim_ch(s: Seq<char>, c: char) -> Seq<char> {
    trim_end_ch(trim_start_ch(s, c), c)
}

/// The number of leading characters equal to `c`.
pub fn leading_count(v: &Vec<char>, lo: usize, hi: usize, c: char) -> (j: usize)
    requires
        lo <= hi <= v.len(),
    ensures
        lo <= j <= hi,
        v@.subrange(j as int, hi as int) == trim_start_ch(v@.subrange(lo as int, hi as int), c),
{
    let mut j = lo;
    while j < hi && v[j] == c
        invariant
            lo <= j <= hi <= v.len(),
            trim_start_ch(v@.subrange(lo as int, hi as int), c) == trim_start_ch(
                v@.subrange(j as int, hi as int),
                c,
            ),
        decreases hi - j,
    {
        assert(v@.subrange(j as int, hi as int).drop_first() =~= v@.subrange(j + 1, hi as int));
        j = j + 1;
    }
    j
}

/// The end of `v[lo..hi]` once trailing `c` are removed.
pub fn trailing_end(v: &Vec<char>, lo: usize, hi: usize, c: char) -> (k: usize)
    requires
        lo <= hi <= v.len(),
    ensures
        lo <= k <= hi,
        v@.subrange(lo as int, k as int) == trim_end_ch(v@.subrange(lo as int, hi as int), c),
{
    let mut k = hi;
    while k > lo && v[k - 1] == c
        invariant
            lo <= k <= hi <= v.len(),
            trim_end_ch(v@.subrange(lo as int, hi as int), c) == trim_end_ch(
                v@.subrange(lo as int, k as int),
                c,
            ),
        decreases k,
    {
        assert(v@.subrange(lo as int, k as int).drop_last() =~= v@.subrange(lo as int, k - 1));
        k = k - 1;
    }
    k
}

/// A copy of `v[lo..hi]`.
pub fn sub_vec(v: &Vec<char>, lo: usize, hi: usize) -> (r: Vec<char>)
    requires
        lo <= hi <= v.len(),
    ensures
        r@ == v@.subrange(lo as int, hi as int),
{
    let mut r: Vec<char> = Vec::new();
    let mut i = lo;
    while i < hi
        invariant
            lo <= i <= hi <= v.len(),
            r@ == v@.subrange(lo as int, i as int),
        decreases hi - i,
    {
        r.push(v[i]);
        assert(v@.subrange(lo as int, i + 1) =~= v@.subrange(lo as int, i as int).push(
            v@[i as int],
        ));
        i = i + 1;
    }
    r
}

/// `v` with `c` removed from both ends.
pub fn trim_vec(v: &Vec<char>, c: char) -> (r: Vec<char>)
    ensures
        r@ == trim_ch(v@, c),
{
    let j = leading_count(v, 0, v.len(), c);
    assert(v@.subrange(0, v.len() as int) =~= v@);
    let k = trailing_end(v, j, v.len(), c);
    sub_vec(v, j, k)
}

/// `v` with trailing `c` removed.
pub fn trim_end_vec(v: &Vec<char>, c: char) -> (r: Vec<char>)
    ensures
        r@ == trim_end_ch(v@, c),
{
    let k = trailing_end(v, 0, v.len(), c);
    assert(v@.subrange(0, v.len() as int) =~= v@);
    sub_vec(v, 0, k)
}

/// The code point of `c`.
pub fn char_code(c: char) -> (r: u32)
    ensures
        r == c as int,
{
    let r = c as u32;
    assert(0 <= c as int <= 0x10FFFF);
    r
}

/// A character with the Unicode `White_Space` property (`char::is_whitespace`).
pub open spec fn is_white(c: char) -> bool {
    let n = c as int;
    ||| 9 <= n <= 13
    ||| n == 32
    ||| n == 0x85
    ||| n == 0xA0
    ||| n == 0x1680
    ||| 0x2000 <= n <= 0x200A
    ||| n == 0x2028
    ||| n == 0x2029
    ||| n == 0x202F
    ||| n == 0x205F
    ||| n == 0x3000
}

/// Whether `c` is white space.
pub fn white(c: char) -> (r: bool)
    ensures
        r == is_white(c),
{
    let n = char_code(c);
    (9 <= n && n <= 13) || n == 32 || n == 0x85 || n == 0xA0 || n == 0x1680 || (0x2000 <= n && n
        <= 0x200A) || n == 0x2028 || n == 0x2029 || n == 0x202F || n == 0x205F || n == 0x3000
}

/// `s` without leading white space.
pub open spec fn trim_start_white(s: Seq<char>) -> Seq<char>
    decreases s.len(),
{
    if s.len() > 0 && is_white(s[0]) {
        trim_start_white(s.drop_first())
    } else {
        s
    }
}

/// `s` without trailing white space.
pub open spec fn trim_end_white(s: Seq<char>) -> Seq<char>
    decreases s.len(),
{
    if s.len() > 0 && is_white(s.last()) {
        trim_end_white(s.drop_last())
    } else {
        s
    }
}

/// `s` without white space at either end (`str::trim`).
pub open spec fn trim_white(s: Seq<char>) -> Seq<char> {
    trim_end_white(trim_start_white(s))
}

/// `v` without white space at either end.
pub fn trim_white_vec(v: &Vec<char>) -> (r: Vec<char>)
    ensures
        r@ == trim_white(v@),
{
    let n = v.len();
    let mut j: usize = 0;
    assert(v@.subrange(0, n as int) =~= v@);
    while j < n && white(v[j])
        invariant
            j <= n == v.len(),
            trim_start_white(v@) == trim_start_white(v@.subrange(j as int, n as int)),
        decreases n - j,
    {
        assert(v@.subrange(j as int, n as int).drop_first() =~= v@.subrange(j + 1, n as int));
        j = j + 1;
    }
    proof {
        assert(v@.subrange(0, n as int) =~= v@);
    }
    let mut k: usize = n;
    while k > j && white(v[k - 1])
        invariant
            j <= k <= n == v.len(),
            trim_start_white(v@) == trim_start_white(v@.subrange(j as int, n as int)),
            trim_white(v@) == trim_end_white(v@.subrange(j as int, k as int)),
        decreases k,
    {
        assert(v@.subrange(j as int, k as int).drop_last() =~= v@.subrange(j as int, k - 1));
        k = k - 1;
    }
    proof {
        if j < n {
            assert(!is_white(v@[j as int]));
            assert(v@.subrange(j as int, n as int)[0] == v@[j as int]);
        }
        assert(trim_start_white(v@.subrange(j as int, n as int)) == v@.subrange(j as int, n as int));
    }
    sub_vec(v, j, k)
}

/// `s` begins with `p`.
pub open spec fn has_prefix(s: Seq<char>, p: Seq<char>) -> bool {
    p.len() <= s.len() && s.subrange(0, p.len() as int) == p
}

/// Whether `v[lo..]` begins with `p`.
pub fn starts_with_at(v: &Vec<char>, lo: usize, p: &Vec<char>) -> (r: bool)
    requires
        lo <= v.len(),
    ensures
        r == has_prefix(v@.subrange(lo as int, v@.len() as int), p@),
{
    let ghost s = v@.subrange(lo as int, v@.len() as int);
    if p.len() > v.len() - lo {
        return false;
    }
    let mut i: usize = 0;
    while i < p.len()
        invariant
            i <= p.len() <= v.len() - lo,
            s == v@.subrange(lo as int, v@.len() as int),
            forall|j: int| 0 <= j < i ==> v@[lo + j] == p@[j],
        decreases p.len() - i,
    {
        if v[lo + i] != p[i] {
            assert(s.subrange(0, p@.len() as int)[i as int] != p@[i as int]);
            return false;
        }
        i = i + 1;
    }
    assert(s.subrange(0, p@.len() as int) =~= p@);
    true
}

/// `s` with every leading copy of `p` removed (`str::trim_start_matches`
/// with a non-empty string).
pub open spec fn strip_all_prefix(s: Seq<char>, p: Seq<char>) -> Seq<char>
    decreases s.len(),
{
    if p.len() > 0 && has_prefix(s, p) {
        strip_all_prefix(s.skip(p.len() as int), p)
    } else {
        s
    }
}

/// `v` with every leading copy of `p` removed.
pub fn strip_all_prefix_vec(v: &Vec<char>, p: &Vec<char>) -> (r: Vec<char>)
    ensures
        r@ == strip_all_prefix(v@, p@),
{
    let n = v.len();
    let mut lo: usize = 0;
    proof {
        assert(v@.subrange(0, n as int) =~= v@);
    }
    if p.len() == 0 {
        return sub_vec(v, 0, n);
    }
    while starts_with_at(v, lo, p)
        invariant
            lo <= n == v.len(),
            p@.len() > 0,
            strip_all_prefix(v@, p@) == strip_all_prefix(v@.subrange(lo as int, n as int), p@),
        decreases n - lo,
    {
        assert(v@.subrange(lo as int, n as int).skip(p@.len() as int) =~= v@.subrange(
            lo + p@.len(),
            n as int,
        ));
        lo = lo + p.len();
    }
    sub_vec(v, lo, n)
}

/// The pieces of `s` between occurrences of `sep` (`str::split` with a char).
pub open spec fn split_on(s: Seq<char>, sep: char) -> Seq<Seq<char>>
    decreases s.len(),
{
    if s.len() == 0 {
        seq![Seq::empty()]
    } else if s.last() == sep {
        split_on(s.drop_last(), sep).push(Seq::empty())
    } else {
        let p = split_on(s.drop_last(), sep);
        p.update(p.len() - 1, p.last().push(s.last()))
    }
}

/// There is always at least one piece.
pub proof fn lemma_split_nonempty(s: Seq<char>, sep: char)
    ensures
        split_on(s, sep).len() >= 1,
    decreases s.len(),
{
    if s.len() > 0 {
        lemma_split_nonempty(s.drop_last(), sep);
    }
}

/// The character vectors of `v` as sequences.
pub open spec fn pieces_view(v: Seq<Vec<char>>) -> Seq<Seq<char>> {
    v.map_values(|p: Vec<char>| p@)
}

/// Splits `v` at every `sep`.
pub fn split_vec(v: &Vec<char>, sep: char) -> (r: Vec<Vec<char>>)
    ensures
        pieces_view(r@) == split_on(v@, sep),
        r@.len() >= 1,
{
    let mut parts: Vec<Vec<char>> = Vec::new();
    let mut cur: Vec<char> = Vec::new();
    let n = v.len();
    proof {
        assert(v@.take(0) =~= Seq::<char>::empty());
        assert(pieces_view(parts@).push(cur@) =~= split_on(v@.take(0), sep));
    }
    for i in 0..n
        invariant
            n == v.len(),
            pieces_view(parts@).push(cur@) == split_on(v@.take(i as int), sep),
    {
        let c = v[i];
        assert(v@.take(i + 1).drop_last() =~= v@.take(i as int));
        assert(v@.take(i + 1).last() == c);
        if c == sep {
            let ghost before = parts@;
            parts.push(cur);
            cur = Vec::new();
            assert(pieces_view(parts@) =~= pieces_view(before).push(
                pieces_view(parts@)[before.len() as int],
            ));
            assert(pieces_view(parts@).push(cur@) =~= split_on(v@.take(i + 1), sep));
        } else {
            cur.push(c);
            assert(pieces_view(parts@).push(cur@) =~= split_on(v@.take(i + 1), sep));
        }
    }
    let ghost before = parts@;
    parts.push(cur);
    assert(v@.take(n as int) =~= v@);
    assert(pieces_view(parts@) =~= pieces_view(before).push(pieces_view(parts@)[before.len() as int]));
    parts
}

/// The position of the first `c` in `v`, or the length where there is none.
pub fn find_char(v: &Vec<char>, c: char) -> (r: usize)
    ensures
        r <= v.len(),
        forall|j: int| 0 <= j < r ==> v@[j] != c,
        r < v.len() ==> v@[r as int] == c,
{
    let mut i: usize = 0;
    while i < v.len() && v[i] != c
        invariant
            i <= v.len(),
            forall|j: int| 0 <= j < i ==> v@[j] != c,
        decreases v.len() - i,
    {
        i = i + 1;
    }
    i
}

/// `c` is an ASCII decimal digit.
pub open spec fn is_digit(c: char) -> bool {
    '0' <= c && c <= '9'
}

/// The value of a string of decimal digits.
pub open spec fn digits_value(s: Seq<char>) -> nat
    decreases s.len(),
{
    if s.len() == 0 {
        0
    } else {
        digits_value(s.drop_last()) * 10 + ((s.last() as int - 48) as nat)
    }
}

/// The magnitude a number's text gives once its sign is removed: `None`
/// where it is empty or holds anything but digits.
pub open spec fn magnitude_of(d: Seq<char>) -> Option<nat> {
    if d.len() > 0 && forall|i: int| 0 <= i < d.len() ==> is_digit(#[trigger] d[i]) {
        Some(digits_value(d))
    } else {
        None
    }
}

/// `u64::from_str`: an optional `+` and at least one decimal digit, with a
/// value that fits.
pub open spec fn parsed_u64(s: Seq<char>) -> Option<u64> {
    let d = if s.len() > 0 && s[0] == '+' {
        s.drop_first()
    } else {
        s
    };
    match magnitude_of(d) {
        Some(v) => if v <= u64::MAX {
            Some(v as u64)
        } else {
            None
        },
        None => None,
    }
}

/// `i64::from_str`: an optional `+` or `-` and at least one decimal digit,
/// with a value that fits.
pub open spec fn parsed_i64(s: Seq<char>) -> Option<i64> {
    let neg = s.len() > 0 && s[0] == '-';
    let d = if s.len() > 0 && (s[0] == '+' || s[0] == '-') {
        s.drop_first()
    } else {
        s
    };
    match magnitude_of(d) {
        Some(v) => if neg && v <= 0x8000_0000_0000_0000 {
            Some((-v) as i64)
        } else if !neg && v <= 0x7FFF_FFFF_FFFF_FFFF {
            Some(v as i64)
        } else {
            None
        },
        None => None,
    }
}

proof fn lemma_digits_value_grows(s: Seq<char>, k: int)
    requires
        0 <= k <= s.len(),
        forall|i: int| 0 <= i < s.len() ==> is_digit(#[trigger] s[i]),
    ensures
        digits_value(s) >= digits_value(s.take(k)),
    decreases s.len() - k,
{
    if k < s.len() {
        lemma_digits_value_grows(s, k + 1);
        assert(s.take(k + 1).drop_last() =~= s.take(k));
    } else {
        assert(s.take(k) =~= s);
    }
}

/// The magnitude of the digits `v[lo..]`, where it is a non-empty run of
/// digits that fits in a `u64`.
fn magnitude(v: &Vec<char>, lo: usize) -> (r: Option<u64>)
    requires
        lo <= v.len(),
    ensures
        match magnitude_of(v@.subrange(lo as int, v@.len() as int)) {
            Some(m) => if m <= u64::MAX {
                r == Some(m as u64)
            } else {
                r is None
            },
            None => r is None,
        },
{
    let ghost d = v@.subrange(lo as int, v@.len() as int);
    if lo == v.len() {
        return None;
    }
    let mut acc: u64 = 0;
    let mut i = lo;
    while i < v.len()
        invariant
            lo <= i <= v.len(),
            d == v@.subrange(lo as int, v@.len() as int),
            forall|j: int| 0 <= j < i - lo ==> is_digit(#[trigger] d[j]),
            acc == digits_value(d.take(i - lo)),
        decreases v.len() - i,
    {
        let c = v[i];
        if !('0' <= c && c <= '9') {
            assert(!is_digit(d[i - lo]));
            return None;
        }
        let dig = (char_code(c) - 48) as u64;
        assert(d.take(i - lo + 1).drop_last() =~= d.take(i - lo));
        assert(d.take(i - lo + 1).last() == c);
        let next = match acc.checked_mul(10) {
            Some(x) => x.checked_add(dig),
            None => None,
        };
        match next {
            Some(x) => {
                acc = x;
            },
            None => {
                proof {
                    if forall|j: int| 0 <= j < d.len() ==> is_digit(#[trigger] d[j]) {
                        lemma_digits_value_grows(d, i - lo + 1);
                    }
                }
                return None;
            },
        }
        i = i + 1;
    }
    assert(d.take(v.len() - lo) =~= d);
    Some(acc)
}

/// Reads an unsigned number as `u64::from_str` does.
pub fn parse_u64(v: &Vec<char>) -> (r: Option<u64>)
    ensures
        r == parsed_u64(v@),
{
    let lo: usize = if v.len() > 0 && v[0] == '+' {
        1
    } else {
        0
    };
    proof {
        if lo == 1 {
            assert(v@.subrange(1, v@.len() as int) =~= v@.drop_first());
        } else {
            assert(v@.subrange(0, v@.len() as int) =~= v@);
        }
    }
    magnitude(v, lo)
}

/// Reads a signed number as `i64::from_str` does.
pub fn parse_i64(v: &Vec<char>) -> (r: Option<i64>)
    ensures
        r == parsed_i64(v@),
{
    let neg = v.len() > 0 && v[0] == '-';
    let lo: usize = if v.len() > 0 && (v[0] == '+' || v[0] == '-') {
        1
    } else {
        0
    };
    proof {
        if lo == 1 {
            assert(v@.subrange(1, v@.len() as int) =~= v@.drop_first());
        } else {
            assert(v@.subrange(0, v@.len() as int) =~= v@);
        }
    }
    match magnitude(v, lo) {
        Some(m) => {
            if neg {
                if m <= 0x8000_0000_0000_0000u64 {
                    if m == 0x8000_0000_0000_0000u64 {
                        Some(i64::MIN)
                    } else {
                        Some(-(m as i64))
                    }
                } else {
                    None
                }
            } else if m <= 0x7FFF_FFFF_FFFF_FFFFu64 {
                Some(m as i64)
            } else {
                None
            }
        },
        None => None,
    }
}

} // verus!

verus! {

/// The decimal digit for `d < 10`.
pub open spec fn digit_char(d: nat) -> char {
    ((d + 48) as u32) as char
}

/// Decimal representation of a natural number, without leading zeros.
pub open spec fn decimal(n: nat) -> Seq<char>
    decreases n,
{
    if n < 10 {
        seq![digit_char(n)]
    } else {
        decimal(n / 10).push(digit_char(n % 10))
    }
}

/// Appends the decimal representation of `n` to `s`.
pub fn push_decimal(s: &mut String, n: u64)
    ensures
        final(s)@ == old(s)@ + decimal(n as nat),
    decreases n,
{
    let ghost start = s@;
    if n >= 10 {
        push_decimal(s, n / 10);
    }
    let d = (n % 10) as u8;
    let c = (d + 48u8) as char;
    assert(c == digit_char((n % 10) as nat)) by {
        assert((d + 48u8) as u32 == (n % 10) + 48);
    }
    push_char(s, c);
    if n >= 10 {
        assert(s@ =~= start + decimal(n as nat));
    } else {
        assert(s@ =~= start + decimal(n as nat));
    }
}

/// Decimal text of a number.
pub fn decimal_string(n: u64) -> (s: String)
    ensures
        s@ == decimal(n as nat),
{
    let mut s = String::new();
    push_decimal(&mut s, n);
    assert(s@ =~= decimal(n as nat));
    s
}

} // verus!

verus! {

/// Bytes in the UTF-8 encoding of one character.
pub open spec fn utf8_width(c: char) -> nat {
    if (c as u32) < 0x80 {
        1
    } else if (c as u32) < 0x800 {
        2
    } else if (c as u32) < 0x1_0000 {
        3
    } else {
        4
    }
}

/// Bytes in the UTF-8 encoding of a character sequence.
pub open spec fn utf8_len(s: Seq<char>) -> nat
    decreases s.len(),
{
    if s.len() == 0 {
        0
    } else {
        utf8_len(s.drop_last()) + utf8_width(s.last())
    }
}

/// Whether the UTF-8 encoding of `s` is longer than `limit` bytes.
pub fn utf8_len_exceeds(s: &str, limit: u64) -> (b: bool)
    requires
        limit < u64::MAX - 4,
    ensures
        b == (utf8_len(s@) > limit),
{
    let v = chars_of(s);
    let mut acc: u64 = 0;
    let mut i: usize = 0;
    while i < v.len()
        invariant
            v@ == s@,
            0 <= i <= v.len(),
            acc == utf8_len(v@.take(i as int)),
            acc <= limit,
            limit < u64::MAX - 4,
        decreases v.len() - i,
    {
        let c = v[i];
        let u = c as u32;
        let w: u64 = if u < 0x80 {
            1
        } else if u < 0x800 {
            2
        } else if u < 0x1_0000 {
            3
        } else {
            4
        };
        assert(v@.take(i + 1).drop_last() =~= v@.take(i as int));
        acc = acc + w;
        i = i + 1;
        if acc > limit {
            proof {
                lemma_utf8_len_prefix_le(v@, i as int);
            }
            return true;
        }
    }
    assert(v@.take(v.len() as int) =~= v@);
    false
}

/// A prefix never encodes to more bytes than the whole.
pub proof fn lemma_utf8_len_prefix_le(s: Seq<char>, k: int)
    requires
        0 <= k <= s.len(),
    ensures
        utf8_len(s.take(k)) <= utf8_len(s),
    decreases s.len() - k,
{
    if k < s.len() {
        lemma_utf8_len_prefix_le(s, k + 1);
        assert(s.take(k + 1).drop_last() =~= s.take(k));
    } else {
        assert(s.take(k) =~= s);
    }
}

} // verus!
