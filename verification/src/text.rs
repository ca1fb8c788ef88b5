//! Character-level text primitives shared by the iCalendar, vCard and XML
//! builders: the mathematical model of each operation is a spec function over
//! `Seq<char>`, and each executable function is proved against it.
use vstd::prelude::*;

verus! {

// ===================== Specifications =====================

/// `p` occurs in `s` starting at index `i`.
pub open spec fn occurs_at(s: Seq<char>, p: Seq<char>, i: int) -> bool {
    0 <= i && i + p.len() <= s.len() && s.subrange(i, i + p.len()) == p
}

/// `p` occurs somewhere in `s`.
pub open spec fn contains_seq(s: Seq<char>, p: Seq<char>) -> bool {
    exists|i: int| occurs_at(s, p, i)
}

/// Index of the first occurrence of `c` in `s`, if any.
pub open spec fn first_index_of(s: Seq<char>, c: char) -> Option<int>
    decreases s.len(),
{
    if s.len() == 0 {
        None
    } else if s[0] == c {
        Some(0)
    } else {
        match first_index_of(s.drop_first(), c) {
            Some(i) => Some(i + 1),
            None => None,
        }
    }
}

/// Index of the last occurrence of `c` in `s`, if any.
pub open spec fn last_index_of(s: Seq<char>, c: char) -> Option<int>
    decreases s.len(),
{
    if s.len() == 0 {
        None
    } else if s.last() == c {
        Some(s.len() - 1)
    } else {
        last_index_of(s.drop_last(), c)
    }
}

/// `s.split_once(c)`: the text before and after the first `c`.
pub open spec fn split_once(s: Seq<char>, c: char) -> Option<(Seq<char>, Seq<char>)> {
    match first_index_of(s, c) {
        Some(i) => Some((s.take(i), s.skip(i + 1))),
        None => None,
    }
}

/// `s.split(c).next()`: the text before the first `c`, or all of `s`.
pub open spec fn before_first(s: Seq<char>, c: char) -> Seq<char> {
    match first_index_of(s, c) {
        Some(i) => s.take(i),
        None => s,
    }
}

/// `s.split(c).next_back()`: the text after the last `c`, or all of `s`.
pub open spec fn after_last(s: Seq<char>, c: char) -> Seq<char> {
    match last_index_of(s, c) {
        Some(i) => s.skip(i + 1),
        None => s,
    }
}

/// Pieces of `s` between occurrences of `c` (`str::split`).
pub open spec fn split_on(s: Seq<char>, c: char) -> Seq<Seq<char>>
    decreases s.len(),
{
    match first_index_of(s, c) {
        Some(i) => if 0 <= i < s.len() {
            seq![s.take(i)].add(split_on(s.skip(i + 1), c))
        } else {
            seq![s]
        },
        None => seq![s],
    }
}

/// `char::is_whitespace`: the Unicode `White_Space` property.
pub open spec fn is_whitespace(c: char) -> bool {
    ||| ('\t' <= c && c <= '\r')
    ||| c == ' '
    ||| c == '\u{85}'
    ||| c == '\u{a0}'
    ||| c == '\u{1680}'
    ||| ('\u{2000}' <= c && c <= '\u{200a}')
    ||| c == '\u{2028}'
    ||| c == '\u{2029}'
    ||| c == '\u{202f}'
    ||| c == '\u{205f}'
    ||| c == '\u{3000}'
}

/// `s` without leading whitespace.
pub open spec fn trim_start(s: Seq<char>) -> Seq<char>
    decreases s.len(),
{
    if s.len() > 0 && is_whitespace(s[0]) {
        trim_start(s.drop_first())
    } else {
        s
    }
}

/// `s` without trailing whitespace.
pub open spec fn trim_end(s: Seq<char>) -> Seq<char>
    decreases s.len(),
{
    if s.len() > 0 && is_whitespace(s.last()) {
        trim_end(s.drop_last())
    } else {
        s
    }
}

/// `str::trim`.
pub open spec fn trim(s: Seq<char>) -> Seq<char> {
    trim_end(trim_start(s))
}

/// State of the line splitter after reading a prefix of the input: the lines
/// completed so far and the line being read.
pub open spec fn line_scan(s: Seq<char>) -> (Seq<Seq<char>>, Seq<char>)
    decreases s.len(),
{
    if s.len() == 0 {
        (seq![], seq![])
    } else {
        let (done, cur) = line_scan(s.drop_last());
        if s.last() == '\n' {
            (done.push(strip_cr(cur)), seq![])
        } else {
            (done, cur.push(s.last()))
        }
    }
}

/// A line ended by `\n` loses one trailing `\r`.
pub open spec fn strip_cr(line: Seq<char>) -> Seq<char> {
    if line.len() > 0 && line.last() == '\r' {
        line.drop_last()
    } else {
        line
    }
}

/// `str::lines`: lines ended by `\n` or `\r\n`; the last line's ending is optional.
pub open spec fn lines(s: Seq<char>) -> Seq<Seq<char>> {
    let (done, cur) = line_scan(s);
    if cur.len() > 0 {
        done.push(cur)
    } else {
        done
    }
}

/// ASCII decimal digit.
pub open spec fn is_digit(c: char) -> bool {
    '0' <= c && c <= '9'
}

/// `char::to_ascii_uppercase`.
pub open spec fn ascii_upper(c: char) -> char {
    if 'a' <= c && c <= 'z' {
        ((c as u32) - 32) as char
    } else {
        c
    }
}

/// `char::to_ascii_lowercase`.
pub open spec fn ascii_lower(c: char) -> char {
    if 'A' <= c && c <= 'Z' {
        ((c as u32) + 32) as char
    } else {
        c
    }
}

/// `str::to_ascii_uppercase`.
pub open spec fn upper_ascii(s: Seq<char>) -> Seq<char> {
    s.map_values(|c: char| ascii_upper(c))
}

/// Every character is ASCII.
pub open spec fn ascii_text(s: Seq<char>) -> bool {
    forall|i: int| 0 <= i < s.len() ==> (s[i] as u32) < 128
}

/// `str::to_ascii_lowercase`.
pub open spec fn lower_ascii(s: Seq<char>) -> Seq<char> {
    s.map_values(|c: char| ascii_lower(c))
}

/// `str::eq_ignore_ascii_case`.
pub open spec fn eq_ignore_ascii_case(a: Seq<char>, b: Seq<char>) -> bool {
    lower_ascii(a) == lower_ascii(b)
}

/// Number of bytes in the UTF-8 encoding of `c`.
pub open spec fn utf8_width(c: char) -> nat {
    if (c as u32) < 0x80 {
        1
    } else if (c as u32) < 0x800 {
        2
    } else if (c as u32) < 0x10000 {
        3
    } else {
        4
    }
}

/// Number of bytes in the UTF-8 encoding of `s` (`str::len`).
pub open spec fn byte_len(s: Seq<char>) -> nat
    decreases s.len(),
{
    if s.len() == 0 {
        0
    } else {
        byte_len(s.drop_last()) + utf8_width(s.last())
    }
}

/// Concatenation of `parts`, with `sep` between neighbours (`[..].join(sep)`).
pub open spec fn join(parts: Seq<Seq<char>>, sep: Seq<char>) -> Seq<char>
    decreases parts.len(),
{
    if parts.len() == 0 {
        seq![]
    } else if parts.len() == 1 {
        parts[0]
    } else {
        join(parts.drop_last(), sep) + sep + parts.last()
    }
}

/// Value of a string of decimal digits.
pub open spec fn digits_value(s: Seq<char>) -> nat
    decreases s.len(),
{
    if s.len() == 0 {
        0
    } else {
        digits_value(s.drop_last()) * 10 + ((s.last() as u32) - ('0' as u32)) as nat
    }
}

/// All characters of `s` are decimal digits.
pub open spec fn all_digits(s: Seq<char>) -> bool {
    forall|i: int| 0 <= i < s.len() ==> is_digit(#[trigger] s[i])
}

/// `u32::from_str`: an optional `+`, then one or more digits, in range.
pub open spec fn parse_u32(s: Seq<char>) -> Option<u32> {
    let body = if s.len() > 0 && s[0] == '+' { s.drop_first() } else { s };
    if body.len() > 0 && all_digits(body) && digits_value(body) <= u32::MAX {
        Some(digits_value(body) as u32)
    } else {
        None
    }
}

/// `i32::from_str`: an optional sign, then one or more digits, in range.
pub open spec fn parse_i32(s: Seq<char>) -> Option<i32> {
    let neg = s.len() > 0 && s[0] == '-';
    let body = if s.len() > 0 && (s[0] == '+' || s[0] == '-') { s.drop_first() } else { s };
    if body.len() > 0 && all_digits(body) {
        let v: int = if neg { -(digits_value(body) as int) } else { digits_value(body) as int };
        if i32::MIN <= v && v <= i32::MAX {
            Some(v as i32)
        } else {
            None
        }
    } else {
        None
    }
}

/// The decimal digit for `d < 10`.
pub open spec fn digit_char(d: nat) -> char {
    (('0' as u32) + d) as char
}

/// Decimal representation of `n` without leading zeros (`format!("{n}")`).
pub open spec fn decimal(n: nat) -> Seq<char>
    decreases n,
{
    if n < 10 {
        seq![digit_char(n)]
    } else {
        decimal(n / 10).push(digit_char(n % 10))
    }
}

/// Decimal representation of a signed integer.
pub open spec fn decimal_int(n: int) -> Seq<char> {
    if n < 0 {
        seq!['-'] + decimal((-n) as nat)
    } else {
        decimal(n as nat)
    }
}

/// The lowercase hexadecimal digit for `d < 16`.
pub open spec fn hex_digit(d: nat) -> char {
    if d < 10 {
        (('0' as u32) + d) as char
    } else {
        (('a' as u32) + (d - 10)) as char
    }
}

/// Lowercase hexadecimal representation of `n` without leading zeros (`format!("{n:x}")`).
pub open spec fn hex(n: nat) -> Seq<char>
    decreases n,
{
    if n < 16 {
        seq![hex_digit(n)]
    } else {
        hex(n / 16).push(hex_digit(n % 16))
    }
}

// ===================== Lemmas =====================

pub proof fn lemma_first_index_of(s: Seq<char>, c: char)
    ensures
        match first_index_of(s, c) {
            Some(i) => 0 <= i < s.len() && s[i] == c && forall|j: int| 0 <= j < i ==> s[j] != c,
            None => forall|j: int| 0 <= j < s.len() ==> s[j] != c,
        },
    decreases s.len(),
{
    if s.len() > 0 && s[0] != c {
        lemma_first_index_of(s.drop_first(), c);
        match first_index_of(s.drop_first(), c) {
            Some(i) => {
                assert forall|j: int| 0 <= j < i + 1 implies s[j] != c by {
                    if j > 0 {
                        assert(s[j] == s.drop_first()[j - 1]);
                    }
                }
            },
            None => {
                assert forall|j: int| 0 <= j < s.len() implies s[j] != c by {
                    if j > 0 {
                        assert(s[j] == s.drop_first()[j - 1]);
                    }
                }
            },
        }
    }
}

/// `first_index_of` is characterised by its defining property.
pub proof fn lemma_first_index_of_unique(s: Seq<char>, c: char, i: int)
    requires
        0 <= i <= s.len(),
        i < s.len() ==> s[i] == c,
        forall|j: int| 0 <= j < i ==> s[j] != c,
    ensures
        first_index_of(s, c) == (if i < s.len() { Some(i) } else { None::<int> }),
{
    lemma_first_index_of(s, c);
}

pub proof fn lemma_last_index_of(s: Seq<char>, c: char)
    ensures
        match last_index_of(s, c) {
            Some(i) => 0 <= i < s.len() && s[i] == c && forall|j: int| i < j < s.len() ==> s[j] != c,
            None => forall|j: int| 0 <= j < s.len() ==> s[j] != c,
        },
    decreases s.len(),
{
    if s.len() > 0 && s.last() != c {
        lemma_last_index_of(s.drop_last(), c);
        assert forall|j: int| 0 <= j < s.len() - 1 implies s[j] == s.drop_last()[j] by {}
    }
}

pub proof fn lemma_last_index_of_unique(s: Seq<char>, c: char, i: int)
    requires
        -1 <= i < s.len(),
        i >= 0 ==> s[i] == c,
        forall|j: int| i < j < s.len() ==> s[j] != c,
    ensures
        last_index_of(s, c) == (if i >= 0 { Some(i) } else { None::<int> }),
{
    lemma_last_index_of(s, c);
}

pub proof fn lemma_trim_start(s: Seq<char>) -> (k: int)
    ensures
        0 <= k <= s.len(),
        trim_start(s) == s.skip(k),
        forall|j: int| 0 <= j < k ==> is_whitespace(s[j]),
        k < s.len() ==> !is_whitespace(s[k]),
    decreases s.len(),
{
    if s.len() > 0 && is_whitespace(s[0]) {
        let k1 = lemma_trim_start(s.drop_first());
        assert(s.drop_first().skip(k1) == s.skip(k1 + 1));
        assert forall|j: int| 0 <= j < k1 + 1 implies is_whitespace(s[j]) by {
            if j > 0 {
                assert(s[j] == s.drop_first()[j - 1]);
            }
        }
        if k1 + 1 < s.len() {
            assert(s[k1 + 1] == s.drop_first()[k1]);
        }
        k1 + 1
    } else {
        assert(s.skip(0) == s);
        0
    }
}

pub proof fn lemma_trim_end(s: Seq<char>) -> (k: int)
    ensures
        0 <= k <= s.len(),
        trim_end(s) == s.take(k),
        forall|j: int| k <= j < s.len() ==> is_whitespace(s[j]),
        k > 0 ==> !is_whitespace(s[k - 1]),
    decreases s.len(),
{
    if s.len() > 0 && is_whitespace(s.last()) {
        let k1 = lemma_trim_end(s.drop_last());
        assert(s.drop_last().take(k1) == s.take(k1));
        assert forall|j: int| k1 <= j < s.len() implies is_whitespace(s[j]) by {
            if j < s.len() - 1 {
                assert(s[j] == s.drop_last()[j]);
            }
        }
        if k1 > 0 {
            assert(s[k1 - 1] == s.drop_last()[k1 - 1]);
        }
        k1
    } else {
        assert(s.take(s.len() as int) == s);
        s.len() as int
    }
}

pub proof fn lemma_byte_len_push(s: Seq<char>, c: char)
    ensures
        byte_len(s.push(c)) == byte_len(s) + utf8_width(c),
{
    assert(s.push(c).drop_last() == s);
}

pub proof fn lemma_byte_len_take_mono(s: Seq<char>, i: int, j: int)
    requires
        0 <= i <= j <= s.len(),
    ensures
        byte_len(s.take(i)) <= byte_len(s.take(j)),
    decreases j - i,
{
    if i < j {
        lemma_byte_len_take_mono(s, i, j - 1);
        assert(s.take(j) == s.take(j - 1).push(s[j - 1]));
        lemma_byte_len_push(s.take(j - 1), s[j - 1]);
    }
}

pub proof fn lemma_byte_len_ge_len(s: Seq<char>)
    ensures
        byte_len(s) >= s.len(),
    decreases s.len(),
{
    if s.len() > 0 {
        lemma_byte_len_ge_len(s.drop_last());
    }
}

pub proof fn lemma_byte_len_concat(a: Seq<char>, b: Seq<char>)
    ensures
        byte_len(a + b) == byte_len(a) + byte_len(b),
    decreases b.len(),
{
    if b.len() == 0 {
        assert(a + b == a);
    } else {
        lemma_byte_len_concat(a, b.drop_last());
        assert((a + b).drop_last() == a + b.drop_last());
    }
}

pub proof fn lemma_line_scan_take(s: Seq<char>, i: int)
    requires
        0 <= i < s.len(),
    ensures
        line_scan(s.take(i + 1)) == ({
            let (done, cur) = line_scan(s.take(i));
            if s[i] == '\n' {
                (done.push(strip_cr(cur)), Seq::<char>::empty())
            } else {
                (done, cur.push(s[i]))
            }
        }),
{
    assert(s.take(i + 1).drop_last() == s.take(i));
}

pub proof fn lemma_digits_value_push(s: Seq<char>, c: char)
    ensures
        digits_value(s.push(c)) == digits_value(s) * 10 + ((c as u32) - ('0' as u32)) as nat,
{
    assert(s.push(c).drop_last() == s);
}

// ===================== Executable functions =====================

/// The characters of `s`, in order.
pub fn chars_of(s: &str) -> (v: Vec<char>)
    ensures
        v@ == s@,
{
    let mut v: Vec<char> = Vec::new();
    for c in it: s.chars()
        invariant
            v@ == it.seq().take(it.index() as int),
    {
        v.push(c);
    }
    v
}

/// Appends one character to a string (`String::push`).
#[verifier::external_body]
pub fn push_char(s: &mut String, c: char)
    ensures
        final(s)@ == old(s)@.push(c),
{
    s.push(c);
}

/// Appends characters to a string.
pub fn push_chars(s: &mut String, cs: &Vec<char>)
    ensures
        final(s)@ == old(s)@ + cs@,
{
    let ghost start = s@;
    for i in 0..cs.len()
        invariant
            s@ == start + cs@.take(i as int),
    {
        push_char(s, cs[i]);
        assert(cs@.take(i + 1) == cs@.take(i as int).push(cs@[i as int]));
    }
    assert(cs@.take(cs.len() as int) == cs@);
}

/// A `String` holding the given characters.
pub fn string_of(cs: &Vec<char>) -> (s: String)
    ensures
        s@ == cs@,
{
    let mut s = String::new();
    push_chars(&mut s, cs);
    s
}

/// Appends the characters of `t` to `v`.
pub fn extend_str(v: &mut Vec<char>, t: &str)
    ensures
        final(v)@ == old(v)@ + t@,
{
    let cs = chars_of(t);
    extend_chars(v, &cs);
}

/// Appends `cs` to `v`.
pub fn extend_chars(v: &mut Vec<char>, cs: &Vec<char>)
    ensures
        final(v)@ == old(v)@ + cs@,
{
    let ghost start = v@;
    for i in 0..cs.len()
        invariant
            v@ == start + cs@.take(i as int),
    {
        v.push(cs[i]);
        assert(cs@.take(i + 1) == cs@.take(i as int).push(cs@[i as int]));
    }
    assert(cs@.take(cs.len() as int) == cs@);
}

/// `s[lo..hi]` as a new vector.
pub fn slice_chars(s: &Vec<char>, lo: usize, hi: usize) -> (r: Vec<char>)
    requires
        lo <= hi <= s.len(),
    ensures
        r@ == s@.subrange(lo as int, hi as int),
{
    let mut r: Vec<char> = Vec::new();
    let mut i = lo;
    while i < hi
        invariant
            lo <= i <= hi <= s.len(),
            r@ == s@.subrange(lo as int, i as int),
        decreases hi - i,
    {
        r.push(s[i]);
        assert(s@.subrange(lo as int, i + 1) == s@.subrange(lo as int, i as int).push(s@[i as int]));
        i = i + 1;
    }
    r
}

/// Character-wise equality of two vectors.
pub fn eq_chars(a: &Vec<char>, b: &Vec<char>) -> (r: bool)
    ensures
        r == (a@ == b@),
{
    if a.len() != b.len() {
        return false;
    }
    for i in 0..a.len()
        invariant
            a.len() == b.len(),
            forall|j: int| 0 <= j < i ==> a@[j] == b@[j],
    {
        if a[i] != b[i] {
            return false;
        }
    }
    assert(a@ =~= b@);
    true
}

/// `s` equals the literal `t`.
pub fn eq_str(s: &Vec<char>, t: &str) -> (r: bool)
    ensures
        r == (s@ == t@),
{
    let tc = chars_of(t);
    eq_chars(s, &tc)
}

/// `p` occurs in `s` at `at`.
pub fn matches_at(s: &Vec<char>, at: usize, p: &Vec<char>) -> (r: bool)
    ensures
        r == occurs_at(s@, p@, at as int),
{
    if at > s.len() || p.len() > s.len() - at {
        return false;
    }
    for i in 0..p.len()
        invariant
            at + p.len() <= s.len(),
            forall|j: int| 0 <= j < i ==> s@[at + j] == p@[j],
    {
        if s[at + i] != p[i] {
            return false;
        }
    }
    assert(s@.subrange(at as int, at + p.len()) =~= p@);
    true
}

/// `s.starts_with(t)`.
pub fn starts_with(s: &Vec<char>, t: &str) -> (r: bool)
    ensures
        r == t@.is_prefix_of(s@),
{
    let p = chars_of(t);
    let r = matches_at(s, 0, &p);
    proof {
        if r {
            assert(p@ =~= s@.subrange(0, p@.len() as int));
        }
    }
    r
}

/// `s.ends_with(t)`.
pub fn ends_with(s: &Vec<char>, t: &str) -> (r: bool)
    ensures
        r == t@.is_suffix_of(s@),
{
    let p = chars_of(t);
    if p.len() > s.len() {
        return false;
    }
    matches_at(s, s.len() - p.len(), &p)
}

/// `s.contains(t)`.
pub fn contains(s: &Vec<char>, t: &str) -> (r: bool)
    ensures
        r == contains_seq(s@, t@),
{
    let p = chars_of(t);
    for i in 0..s.len()
        invariant
            p@ == t@,
            forall|j: int| 0 <= j < i ==> !occurs_at(s@, p@, j),
    {
        if matches_at(s, i, &p) {
            return true;
        }
    }
    if matches_at(s, s.len(), &p) {
        return true;
    }
    assert forall|j: int| !occurs_at(s@, p@, j) by {
        if 0 <= j <= s.len() {
        }
    }
    false
}

/// Index of the first occurrence of `c`.
pub fn find_char(s: &Vec<char>, c: char) -> (r: Option<usize>)
    ensures
        match r {
            Some(i) => first_index_of(s@, c) == Some(i as int),
            None => first_index_of(s@, c) is None,
        },
{
    for i in 0..s.len()
        invariant
            forall|j: int| 0 <= j < i ==> s@[j] != c,
    {
        if s[i] == c {
            proof {
                lemma_first_index_of_unique(s@, c, i as int);
            }
            return Some(i);
        }
    }
    proof {
        lemma_first_index_of_unique(s@, c, s.len() as int);
    }
    None
}

/// Index of the last occurrence of `c`.
pub fn rfind_char(s: &Vec<char>, c: char) -> (r: Option<usize>)
    ensures
        match r {
            Some(i) => last_index_of(s@, c) == Some(i as int),
            None => last_index_of(s@, c) is None,
        },
{
    let mut i = s.len();
    while i > 0
        invariant
            i <= s.len(),
            forall|j: int| i <= j < s.len() ==> s@[j] != c,
        decreases i,
    {
        if s[i - 1] == c {
            proof {
                lemma_last_index_of_unique(s@, c, i - 1);
            }
            return Some(i - 1);
        }
        i = i - 1;
    }
    proof {
        lemma_last_index_of_unique(s@, c, -1);
    }
    None
}

/// `s.split_once(c)`.
pub fn split_once_char(s: &Vec<char>, c: char) -> (r: Option<(Vec<char>, Vec<char>)>)
    ensures
        match r {
            Some((a, b)) => split_once(s@, c) == Some((a@, b@)),
            None => split_once(s@, c) is None,
        },
{
    match find_char(s, c) {
        Some(i) => {
            proof {
                lemma_first_index_of(s@, c);
            }
            assert(i < s.len());
            let a = slice_chars(s, 0, i);
            let b = slice_chars(s, i + 1, s.len());
            assert(a@ == s@.take(i as int));
            assert(b@ == s@.skip(i + 1));
            Some((a, b))
        },
        None => None,
    }
}

/// `s.split(c).next()`.
pub fn before_first_char(s: &Vec<char>, c: char) -> (r: Vec<char>)
    ensures
        r@ == before_first(s@, c),
{
    match find_char(s, c) {
        Some(i) => {
            proof {
                lemma_first_index_of(s@, c);
            }
            let a = slice_chars(s, 0, i);
            a
        },
        None => s.clone(),
    }
}

/// `s.split(c).next_back()`.
pub fn after_last_char(s: &Vec<char>, c: char) -> (r: Vec<char>)
    ensures
        r@ == after_last(s@, c),
{
    match rfind_char(s, c) {
        Some(i) => {
            proof {
                lemma_last_index_of(s@, c);
            }
            assert(i < s.len());
            let b = slice_chars(s, i + 1, s.len());
            assert(b@ == s@.skip(i + 1));
            b
        },
        None => s.clone(),
    }
}

/// `char::is_whitespace`.
pub fn char_is_whitespace(c: char) -> (r: bool)
    ensures
        r == is_whitespace(c),
{
    ('\t' <= c && c <= '\r') || c == ' ' || c == '\u{85}' || c == '\u{a0}' || c == '\u{1680}'
        || ('\u{2000}' <= c && c <= '\u{200a}') || c == '\u{2028}' || c == '\u{2029}'
        || c == '\u{202f}' || c == '\u{205f}' || c == '\u{3000}'
}

/// `str::trim`.
pub fn trim_chars(s: &Vec<char>) -> (r: Vec<char>)
    ensures
        r@ == trim(s@),
{
    let ghost ks = lemma_trim_start(s@);
    let mut lo: usize = 0;
    while lo < s.len() && char_is_whitespace(s[lo])
        invariant
            lo <= s.len(),
            forall|j: int| 0 <= j < lo ==> is_whitespace(s@[j]),
        decreases s.len() - lo,
    {
        lo = lo + 1;
    }
    proof {
        assert(lo as int == ks) by {
            if (lo as int) < ks {
                assert(is_whitespace(s@[lo as int]));
            } else if ks < lo {
                assert(is_whitespace(s@[ks]));
            }
        }
    }
    let t = slice_chars(s, lo, s.len());
    assert(t@ == trim_start(s@));
    let ghost ke = lemma_trim_end(t@);
    let mut hi: usize = t.len();
    while hi > 0 && char_is_whitespace(t[hi - 1])
        invariant
            hi <= t.len(),
            forall|j: int| hi <= j < t.len() ==> is_whitespace(t@[j]),
        decreases hi,
    {
        hi = hi - 1;
    }
    proof {
        assert(hi as int == ke) by {
            if (hi as int) < ke {
                assert(is_whitespace(t@[ke - 1]));
            } else if ke < hi {
                assert(is_whitespace(t@[hi - 1]));
            }
        }
    }
    slice_chars(&t, 0, hi)
}

/// `str::lines`.
pub fn split_lines(s: &Vec<char>) -> (r: Vec<Vec<char>>)
    ensures
        r@.map_values(|l: Vec<char>| l@) == lines(s@),
{
    let mut done: Vec<Vec<char>> = Vec::new();
    let mut cur: Vec<char> = Vec::new();
    for i in 0..s.len()
        invariant
            line_scan(s@.take(i as int)) == (done@.map_values(|l: Vec<char>| l@), cur@),
    {
        proof {
            lemma_line_scan_take(s@, i as int);
        }
        let ghost d0 = done@;
        if s[i] == '\n' {
            let mut line = cur;
            if line.len() > 0 && line[line.len() - 1] == '\r' {
                line.pop();
            }
            done.push(line);
            cur = Vec::new();
            assert(done@.map_values(|l: Vec<char>| l@) =~= d0.map_values(|l: Vec<char>| l@).push(
                done@.last()@,
            ));
        } else {
            cur.push(s[i]);
        }
    }
    assert(s@.take(s.len() as int) == s@);
    if cur.len() > 0 {
        let ghost d0 = done@;
        done.push(cur);
        assert(done@.map_values(|l: Vec<char>| l@) =~= d0.map_values(|l: Vec<char>| l@).push(
            done@.last()@,
        ));
    }
    done
}

/// Decimal digits of `n` (`format!("{n}")`).
pub fn decimal_chars(n: u64) -> (r: Vec<char>)
    ensures
        r@ == decimal(n as nat),
    decreases n,
{
    if n < 10 {
        let d = char_from_digit(n as u32);
        let mut r: Vec<char> = Vec::new();
        r.push(d);
        r
    } else {
        let mut r = decimal_chars(n / 10);
        let d = char_from_digit((n % 10) as u32);
        r.push(d);
        r
    }
}

/// Signed decimal (`format!("{n}")` for `i64`).
pub fn decimal_int_chars(n: i64) -> (r: Vec<char>)
    ensures
        r@ == decimal_int(n as int),
{
    if n < 0 {
        let mag: u64 = if n == i64::MIN { 9223372036854775808u64 } else { (-n) as u64 };
        let mut r: Vec<char> = Vec::new();
        r.push('-');
        let d = decimal_chars(mag);
        extend_chars(&mut r, &d);
        r
    } else {
        decimal_chars(n as u64)
    }
}

/// The decimal digit character for `d < 10`.
pub fn char_from_digit(d: u32) -> (c: char)
    requires
        d < 10,
    ensures
        c == digit_char(d as nat),
{
    let c = (('0' as u32) + d) as u8 as char;
    c
}

/// Lowercase hexadecimal digits of `n` (`format!("{n:x}")`).
pub fn hex_chars(n: u64) -> (r: Vec<char>)
    ensures
        r@ == hex(n as nat),
    decreases n,
{
    if n < 16 {
        let mut r: Vec<char> = Vec::new();
        r.push(hex_digit_char(n as u32));
        r
    } else {
        let mut r = hex_chars(n / 16);
        r.push(hex_digit_char((n % 16) as u32));
        r
    }
}

fn hex_digit_char(d: u32) -> (c: char)
    requires
        d < 16,
    ensures
        c == hex_digit(d as nat),
{
    if d < 10 {
        (('0' as u32) + d) as u8 as char
    } else {
        (('a' as u32) + (d - 10)) as u8 as char
    }
}

/// `u32::from_str` on a character sequence.
pub fn parse_u32_chars(s: &Vec<char>) -> (r: Option<u32>)
    ensures
        r == parse_u32(s@),
{
    let start: usize = if s.len() > 0 && s[0] == '+' { 1 } else { 0 };
    let body = slice_chars(s, start, s.len());
    assert(body@ == (if s@.len() > 0 && s@[0] == '+' { s@.drop_first() } else { s@ }));
    if body.len() == 0 {
        return None;
    }
    let mut acc: u64 = 0;
    for i in 0..body.len()
        invariant
            body@ == (if s@.len() > 0 && s@[0] == '+' { s@.drop_first() } else { s@ }),
            body.len() > 0,
            acc <= u32::MAX,
            forall|j: int| 0 <= j < i ==> is_digit(body@[j]),
            acc == digits_value(body@.take(i as int)),
    {
        let c = body[i];
        if !('0' <= c && c <= '9') {
            assert(!is_digit(body@[i as int]));
            return None;
        }
        proof {
            assert(body@.take(i + 1) == body@.take(i as int).push(c));
            lemma_digits_value_push(body@.take(i as int), c);
        }
        acc = acc * 10 + ((c as u32) - ('0' as u32)) as u64;
        if acc > 0xffff_ffff {
            proof {
                lemma_digits_prefix_bound(body@, i + 1);
            }
            return None;
        }
    }
    assert(body@.take(body.len() as int) == body@);
    Some(acc as u32)
}

/// The value of a digit string is at least the value of any prefix.
pub proof fn lemma_digits_prefix_bound(s: Seq<char>, k: int)
    requires
        0 <= k <= s.len(),
    ensures
        digits_value(s.take(k)) <= digits_value(s) || !all_digits(s),
    decreases s.len() - k,
{
    if k < s.len() && all_digits(s) {
        lemma_digits_prefix_bound(s, k + 1);
        assert(s.take(k + 1) == s.take(k).push(s[k]));
        lemma_digits_value_push(s.take(k), s[k]);
        assert(is_digit(s[k]));
    } else if k == s.len() {
        assert(s.take(k) == s);
    }
}

/// `i32::from_str` on a character sequence.
pub fn parse_i32_chars(s: &Vec<char>) -> (r: Option<i32>)
    ensures
        r == parse_i32(s@),
{
    let neg = s.len() > 0 && s[0] == '-';
    let start: usize = if s.len() > 0 && (s[0] == '+' || s[0] == '-') { 1 } else { 0 };
    let body = slice_chars(s, start, s.len());
    assert(body@ == (if s@.len() > 0 && (s@[0] == '+' || s@[0] == '-') { s@.drop_first() } else { s@ }));
    if body.len() == 0 {
        return None;
    }
    let mut acc: u64 = 0;
    for i in 0..body.len()
        invariant
            body@ == (if s@.len() > 0 && (s@[0] == '+' || s@[0] == '-') { s@.drop_first() } else { s@ }),
            body.len() > 0,
            neg == (s@.len() > 0 && s@[0] == '-'),
            acc <= 0x8000_0000,
            forall|j: int| 0 <= j < i ==> is_digit(body@[j]),
            acc == digits_value(body@.take(i as int)),
    {
        let c = body[i];
        if !('0' <= c && c <= '9') {
            assert(!is_digit(body@[i as int]));
            return None;
        }
        proof {
            assert(body@.take(i + 1) == body@.take(i as int).push(c));
            lemma_digits_value_push(body@.take(i as int), c);
        }
        acc = acc * 10 + ((c as u32) - ('0' as u32)) as u64;
        if acc > 0x8000_0000 {
            proof {
                lemma_digits_prefix_bound(body@, i + 1);
                if all_digits(body@) {
                    assert(digits_value(body@) > 0x8000_0000);
                }
            }
            return None;
        }
    }
    assert(body@.take(body.len() as int) == body@);
    if neg {
        Some((-(acc as i64)) as i32)
    } else if acc > 0x7fff_ffff {
        None
    } else {
        Some(acc as i32)
    }
}


/// State of the word splitter after reading a prefix of the input.
pub open spec fn word_scan(s: Seq<char>) -> (Seq<Seq<char>>, Seq<char>)
    decreases s.len(),
{
    if s.len() == 0 {
        (seq![], seq![])
    } else {
        let (done, cur) = word_scan(s.drop_last());
        if is_whitespace(s.last()) {
            if cur.len() > 0 {
                (done.push(cur), seq![])
            } else {
                (done, seq![])
            }
        } else {
            (done, cur.push(s.last()))
        }
    }
}

/// `str::split_whitespace`: the maximal runs of non-whitespace characters.
pub open spec fn words(s: Seq<char>) -> Seq<Seq<char>> {
    let (done, cur) = word_scan(s);
    if cur.len() > 0 {
        done.push(cur)
    } else {
        done
    }
}

/// `str::split_whitespace`.
pub fn split_words(s: &Vec<char>) -> (r: Vec<Vec<char>>)
    ensures
        r@.map_values(|l: Vec<char>| l@) == words(s@),
{
    let mut done: Vec<Vec<char>> = Vec::new();
    let mut cur: Vec<char> = Vec::new();
    for i in 0..s.len()
        invariant
            word_scan(s@.take(i as int)) == (done@.map_values(|l: Vec<char>| l@), cur@),
    {
        assert(s@.take(i + 1).drop_last() == s@.take(i as int));
        let ghost d0 = done@;
        if char_is_whitespace(s[i]) {
            if cur.len() > 0 {
                done.push(cur);
                assert(done@.map_values(|l: Vec<char>| l@) =~= d0.map_values(|l: Vec<char>| l@).push(
                    done@.last()@,
                ));
            }
            cur = Vec::new();
        } else {
            cur.push(s[i]);
        }
    }
    assert(s@.take(s.len() as int) == s@);
    if cur.len() > 0 {
        let ghost d0 = done@;
        done.push(cur);
        assert(done@.map_values(|l: Vec<char>| l@) =~= d0.map_values(|l: Vec<char>| l@).push(
            done@.last()@,
        ));
    }
    done
}

/// Index of the first occurrence of the non-empty pattern `p` in `s`.
pub open spec fn find_seq(s: Seq<char>, p: Seq<char>) -> Option<int>
    decreases s.len(),
{
    if occurs_at(s, p, 0) {
        Some(0)
    } else if s.len() == 0 {
        None
    } else {
        match find_seq(s.drop_first(), p) {
            Some(i) => Some(i + 1),
            None => None,
        }
    }
}

pub proof fn lemma_find_seq(s: Seq<char>, p: Seq<char>)
    ensures
        match find_seq(s, p) {
            Some(i) => occurs_at(s, p, i) && forall|j: int| 0 <= j < i ==> !occurs_at(s, p, j),
            None => forall|j: int| !occurs_at(s, p, j),
        },
    decreases s.len(),
{
    if !occurs_at(s, p, 0) && s.len() > 0 {
        let t = s.drop_first();
        lemma_find_seq(t, p);
        assert forall|j: int| 1 <= j implies occurs_at(s, p, j) == occurs_at(t, p, j - 1) by {
            if 0 <= j - 1 && j - 1 + p.len() <= t.len() {
                assert(s.subrange(j, j + p.len()) == t.subrange(j - 1, j - 1 + p.len()));
            }
        }
        match find_seq(t, p) {
            Some(i) => {
                assert forall|j: int| 0 <= j < i + 1 implies !occurs_at(s, p, j) by {
                    if j >= 1 {
                        assert(occurs_at(s, p, j) == occurs_at(t, p, j - 1));
                    }
                }
                assert(occurs_at(s, p, i + 1) == occurs_at(t, p, i));
            },
            None => {
                assert forall|j: int| !occurs_at(s, p, j) by {
                    if j >= 1 {
                        assert(occurs_at(s, p, j) == occurs_at(t, p, j - 1));
                    }
                }
            },
        }
    } else if !occurs_at(s, p, 0) {
        assert forall|j: int| !occurs_at(s, p, j) by {
            if occurs_at(s, p, j) {
                assert(p.len() == 0 && j == 0);
            }
        }
    }
}

/// Index (into `s`) of the first occurrence of `p` at or after `from`.
pub fn find_from(s: &Vec<char>, from: usize, p: &Vec<char>) -> (r: Option<usize>)
    requires
        from <= s.len(),
    ensures
        match r {
            Some(i) => from <= i && find_seq(s@.skip(from as int), p@) == Some(i - from),
            None => find_seq(s@.skip(from as int), p@) is None,
        },
{
    let ghost t = s@.skip(from as int);
    for i in from..s.len()
        invariant
            from <= s.len(),
            t == s@.skip(from as int),
            forall|j: int| 0 <= j < i - from ==> !occurs_at(t, p@, j),
    {
        if matches_at(s, i, p) {
            assert(t.subrange(i - from, i - from + p@.len()) == s@.subrange(i as int, i + p@.len()));
            proof {
                lemma_find_seq(t, p@);
                assert(occurs_at(t, p@, i - from));
                match find_seq(t, p@) {
                    Some(k) => {
                        if k < i - from {
                            assert(!occurs_at(t, p@, k));
                        }
                    },
                    None => {},
                }
            }
            return Some(i);
        }
        assert(!occurs_at(t, p@, i - from)) by {
            if occurs_at(t, p@, i - from) {
                assert(t.subrange(i - from, i - from + p@.len()) == s@.subrange(i as int, i + p@.len()));
            }
        }
    }
    let i = s.len();
    if matches_at(s, i, p) {
        assert(t.subrange(i - from, i - from + p@.len()) == s@.subrange(i as int, i + p@.len()));
        proof {
            lemma_find_seq(t, p@);
            assert(occurs_at(t, p@, i - from));
            match find_seq(t, p@) {
                Some(k) => {
                    if k < i - from {
                        assert(!occurs_at(t, p@, k));
                    }
                },
                None => {},
            }
        }
        return Some(i);
    }
    assert(!occurs_at(t, p@, i - from)) by {
        if occurs_at(t, p@, i - from) {
            assert(t.subrange(i - from, i - from + p@.len()) == s@.subrange(i as int, i + p@.len()));
        }
    }
    proof {
        lemma_find_seq(t, p@);
        match find_seq(t, p@) {
            Some(k) => {
                assert(occurs_at(t, p@, k));
            },
            None => {},
        }
    }
    None
}


/// `str::trim_start_matches(p)` for a non-empty `p`: every leading copy of `p` removed.
pub open spec fn strip_all_prefix(s: Seq<char>, p: Seq<char>) -> Seq<char>
    decreases s.len(),
{
    if p.len() > 0 && p.is_prefix_of(s) {
        strip_all_prefix(s.skip(p.len() as int), p)
    } else {
        s
    }
}

/// `str::trim_end_matches(p)` for a non-empty `p`: every trailing copy of `p` removed.
pub open spec fn strip_all_suffix(s: Seq<char>, p: Seq<char>) -> Seq<char>
    decreases s.len(),
{
    if p.len() > 0 && p.is_suffix_of(s) {
        strip_all_suffix(s.take(s.len() - p.len()), p)
    } else {
        s
    }
}

/// `char::is_ascii_alphanumeric`.
pub open spec fn is_ascii_alnum(c: char) -> bool {
    ('0' <= c && c <= '9') || ('a' <= c && c <= 'z') || ('A' <= c && c <= 'Z')
}

/// `s.to_ascii_uppercase()` on characters.
pub fn upper_ascii_chars(s: &Vec<char>) -> (r: Vec<char>)
    ensures
        r@ == upper_ascii(s@),
{
    let mut r: Vec<char> = Vec::new();
    for i in 0..s.len()
        invariant
            r@ == upper_ascii(s@.take(i as int)),
    {
        let c = s[i];
        let u = if 'a' <= c && c <= 'z' {
            let code: u32 = c as u32 - 32;
            proof {
                assert(('A' as u32) <= code <= ('Z' as u32));
            }
            char_of_ascii(code)
        } else {
            c
        };
        r.push(u);
        assert(upper_ascii(s@.take(i + 1)) =~= upper_ascii(s@.take(i as int)).push(ascii_upper(c)));
    }
    assert(s@.take(s.len() as int) =~= s@);
    r
}

/// `s.to_ascii_lowercase()` on characters.
pub fn lower_ascii_chars(s: &Vec<char>) -> (r: Vec<char>)
    ensures
        r@ == lower_ascii(s@),
{
    let mut r: Vec<char> = Vec::new();
    for i in 0..s.len()
        invariant
            r@ == lower_ascii(s@.take(i as int)),
    {
        let c = s[i];
        let u = if 'A' <= c && c <= 'Z' {
            let code: u32 = c as u32 + 32;
            proof {
                assert(('a' as u32) <= code <= ('z' as u32));
            }
            char_of_ascii(code)
        } else {
            c
        };
        r.push(u);
        assert(lower_ascii(s@.take(i + 1)) =~= lower_ascii(s@.take(i as int)).push(ascii_lower(c)));
    }
    assert(s@.take(s.len() as int) =~= s@);
    r
}

/// The character with an ASCII code.
fn char_of_ascii(code: u32) -> (c: char)
    requires
        code < 128,
    ensures
        c == code as char,
{
    let b: u8 = code as u8;
    b as char
}

/// `s.trim_start_matches(p)` for a non-empty literal `p`.
pub fn strip_all_prefix_chars(s: &Vec<char>, p: &str) -> (r: Vec<char>)
    requires
        p@.len() > 0,
    ensures
        r@ == strip_all_prefix(s@, p@),
{
    let pv = chars_of(p);
    let n = pv.len();
    let mut i: usize = 0;
    assert(s@.skip(0) == s@);
    while n <= s.len() - i && matches_at(s, i, &pv)
        invariant
            i <= s.len(),
            pv@ == p@,
            n == p@.len(),
            n > 0,
            strip_all_prefix(s@.skip(i as int), p@) == strip_all_prefix(s@, p@),
        decreases s.len() - i,
    {
        assert(p@.is_prefix_of(s@.skip(i as int))) by {
            assert(s@.skip(i as int).subrange(0, n as int) == s@.subrange(i as int, i + n));
        }
        assert(s@.skip(i as int).skip(n as int) == s@.skip(i + n));
        i = i + n;
    }
    assert(!p@.is_prefix_of(s@.skip(i as int))) by {
        if p@.is_prefix_of(s@.skip(i as int)) {
            assert(s@.skip(i as int).subrange(0, n as int) == s@.subrange(i as int, i + n));
        }
    }
    slice_chars(s, i, s.len())
}

/// `s.trim_end_matches(p)` for a non-empty literal `p`.
pub fn strip_all_suffix_chars(s: &Vec<char>, p: &str) -> (r: Vec<char>)
    requires
        p@.len() > 0,
    ensures
        r@ == strip_all_suffix(s@, p@),
{
    let pv = chars_of(p);
    let n = pv.len();
    let mut j: usize = s.len();
    assert(s@.take(s.len() as int) == s@);
    while j >= n && matches_at(s, j - n, &pv)
        invariant
            j <= s.len(),
            pv@ == p@,
            n == p@.len(),
            n > 0,
            strip_all_suffix(s@.take(j as int), p@) == strip_all_suffix(s@, p@),
        decreases j,
    {
        assert(p@.is_suffix_of(s@.take(j as int))) by {
            assert(s@.take(j as int).subrange(j - n, j as int) == s@.subrange(j - n, j as int));
        }
        assert(s@.take(j as int).take(j - n) == s@.take(j - n));
        j = j - n;
    }
    assert(!p@.is_suffix_of(s@.take(j as int))) by {
        if p@.is_suffix_of(s@.take(j as int)) {
            assert(s@.take(j as int).subrange(j - n, j as int) == s@.subrange(j - n, j as int));
        }
    }
    assert(s@.take(j as int) == s@.subrange(0, j as int));
    slice_chars(s, 0, j)
}

/// `s.split(c)` into owned pieces.
pub fn split_chars(s: &Vec<char>, c: char) -> (r: Vec<Vec<char>>)
    ensures
        r@.map_values(|l: Vec<char>| l@) == split_on(s@, c),
    decreases s.len(),
{
    match find_char(s, c) {
        Some(i) => {
            proof {
                lemma_first_index_of(s@, c);
            }
            let head = slice_chars(s, 0, i);
            let tail = slice_chars(s, i + 1, s.len());
            assert(tail@ == s@.skip(i + 1));
            let rest = split_chars(&tail, c);
            let mut r: Vec<Vec<char>> = Vec::new();
            r.push(head);
            let ghost first = r@;
            let mut rest_mut = rest;
            r.append(&mut rest_mut);
            assert(r@.map_values(|l: Vec<char>| l@) =~= seq![s@.take(i as int)].add(
                split_on(s@.skip(i + 1), c),
            ));
            r
        },
        None => {
            let mut r: Vec<Vec<char>> = Vec::new();
            r.push(s.clone());
            assert(r@.map_values(|l: Vec<char>| l@) =~= seq![s@]);
            r
        },
    }
}



/// `parts.join(sep)` on characters.
pub fn join_chars(parts: &Vec<Vec<char>>, sep: &str) -> (r: Vec<char>)
    ensures
        r@ == join(parts@.map_values(|l: Vec<char>| l@), sep@),
{
    let ghost pv = parts@.map_values(|l: Vec<char>| l@);
    let mut out: Vec<char> = Vec::new();
    assert(pv.take(0) =~= Seq::<Seq<char>>::empty());
    for i in 0..parts.len()
        invariant
            pv == parts@.map_values(|l: Vec<char>| l@),
            out@ == join(pv.take(i as int), sep@),
    {
        assert(pv.take(i + 1).drop_last() =~= pv.take(i as int));
        assert(pv.take(i + 1).last() == parts@[i as int]@);
        if i > 0 {
            extend_str(&mut out, sep);
        } else {
            assert(pv.take(i + 1)[0] == parts@[i as int]@);
        }
        extend_chars(&mut out, &parts[i]);
    }
    assert(pv.take(parts.len() as int) =~= pv);
    out
}

/// Owned strings from character vectors.
pub fn strings_of(v: &Vec<Vec<char>>) -> (r: Vec<String>)
    ensures
        r@.map_values(|s: String| s@) == v@.map_values(|l: Vec<char>| l@),
{
    let mut r: Vec<String> = Vec::new();
    for i in 0..v.len()
        invariant
            r.len() == i,
            forall|j: int| 0 <= j < i ==> (#[trigger] r@[j])@ == v@[j]@,
    {
        r.push(string_of(&v[i]));
    }
    assert(r@.map_values(|s: String| s@) =~= v@.map_values(|l: Vec<char>| l@));
    r
}

/// The characters of owned strings.
pub fn chars_of_strings(v: &Vec<String>) -> (r: Vec<Vec<char>>)
    ensures
        r@.map_values(|l: Vec<char>| l@) == v@.map_values(|s: String| s@),
{
    let mut r: Vec<Vec<char>> = Vec::new();
    for i in 0..v.len()
        invariant
            r.len() == i,
            forall|j: int| 0 <= j < i ==> (#[trigger] r@[j])@ == v@[j]@,
    {
        r.push(chars_of(v[i].as_str()));
    }
    assert(r@.map_values(|l: Vec<char>| l@) =~= v@.map_values(|s: String| s@));
    r
}

/// What `str::to_lowercase` (full Unicode case mapping) yields.
pub uninterp spec fn unicode_lower(s: Seq<char>) -> Seq<char>;

/// Calls `str::to_lowercase`; the result is the named value `unicode_lower`
/// of the characters. On ASCII text the Unicode lowercase mapping is the
/// ASCII one (`A`-`Z` to `a`-`z`, every other character kept), so there the
/// result is `lower_ascii` of the text.
#[verifier::external_body]
pub(crate) fn to_lowercase(s: &str) -> (r: String)
    ensures
        r@ == unicode_lower(s@),
        ascii_text(s@) ==> r@ == lower_ascii(s@),
{
    s.to_lowercase()
}

/// `a < b` in the lexicographic order of characters, which for UTF-8 strings
/// is the order of `str`'s `Ord`.
pub open spec fn seq_lt(a: Seq<char>, b: Seq<char>) -> bool
    decreases a.len(),
{
    if a.len() == 0 {
        b.len() > 0
    } else if b.len() == 0 {
        false
    } else if a[0] != b[0] {
        a[0] < b[0]
    } else {
        seq_lt(a.drop_first(), b.drop_first())
    }
}

/// No text is below itself.
pub proof fn lemma_seq_lt_irreflexive(a: Seq<char>)
    ensures
        !seq_lt(a, a),
    decreases a.len(),
{
    if a.len() > 0 {
        lemma_seq_lt_irreflexive(a.drop_first());
    }
}

/// The order of texts is transitive.
pub proof fn lemma_seq_lt_transitive(a: Seq<char>, b: Seq<char>, c: Seq<char>)
    requires
        seq_lt(a, b),
        seq_lt(b, c),
    ensures
        seq_lt(a, c),
    decreases a.len(),
{
    if a.len() > 0 && b.len() > 0 && c.len() > 0 && a[0] == b[0] && b[0] == c[0] {
        lemma_seq_lt_transitive(a.drop_first(), b.drop_first(), c.drop_first());
    }
}

/// Any two different texts are ordered one way or the other.
pub proof fn lemma_seq_lt_total(a: Seq<char>, b: Seq<char>)
    ensures
        a == b || seq_lt(a, b) || seq_lt(b, a),
    decreases a.len(),
{
    if a.len() > 0 && b.len() > 0 && a[0] == b[0] {
        lemma_seq_lt_total(a.drop_first(), b.drop_first());
        if a.drop_first() == b.drop_first() {
            assert(a =~= seq![a[0]] + a.drop_first());
            assert(b =~= seq![b[0]] + b.drop_first());
        }
    } else if a.len() == 0 && b.len() == 0 {
        assert(a =~= b);
    }
}

/// `a < b` on characters.
pub fn chars_lt(a: &Vec<char>, b: &Vec<char>) -> (r: bool)
    ensures
        r == seq_lt(a@, b@),
{
    let mut i: usize = 0;
    assert(a@.skip(0) == a@);
    assert(b@.skip(0) == b@);
    while i < a.len() && i < b.len() && a[i] == b[i]
        invariant
            i <= a.len(),
            i <= b.len(),
            seq_lt(a@, b@) == seq_lt(a@.skip(i as int), b@.skip(i as int)),
        decreases a.len() - i,
    {
        assert(a@.skip(i as int).drop_first() == a@.skip(i + 1));
        assert(b@.skip(i as int).drop_first() == b@.skip(i + 1));
        i = i + 1;
    }
    if i == a.len() {
        i < b.len()
    } else if i == b.len() {
        false
    } else {
        a[i] < b[i]
    }
}

/// `str::eq_ignore_ascii_case` against a literal.
pub fn eq_ignore_case_str(a: &Vec<char>, b: &str) -> (r: bool)
    ensures
        r == eq_ignore_ascii_case(a@, b@),
{
    let la = lower_ascii_chars(a);
    let bc = chars_of(b);
    let lb = lower_ascii_chars(&bc);
    eq_chars(&la, &lb)
}

/// `s` holds no line feed: it stays on one line.
pub open spec fn single_line(s: Seq<char>) -> bool {
    forall|i: int| 0 <= i < s.len() ==> s[i] != '\n'
}

pub proof fn lemma_single_line_concat(a: Seq<char>, b: Seq<char>)
    requires
        single_line(a),
        single_line(b),
    ensures
        single_line(a + b),
{
    assert forall|i: int| 0 <= i < (a + b).len() implies (a + b)[i] != '\n' by {
        if i < a.len() {
            assert((a + b)[i] == a[i]);
        } else {
            assert((a + b)[i] == b[i - a.len()]);
        }
    }
}

pub proof fn lemma_decimal_single_line(n: nat)
    ensures
        single_line(decimal(n)),
        all_digits(decimal(n)),
    decreases n,
{
    if n >= 10 {
        lemma_decimal_single_line(n / 10);
    }
}

pub proof fn lemma_join_single_line(parts: Seq<Seq<char>>, sep: Seq<char>)
    requires
        single_line(sep),
        forall|i: int| 0 <= i < parts.len() ==> single_line(#[trigger] parts[i]),
    ensures
        single_line(join(parts, sep)),
    decreases parts.len(),
{
    if parts.len() == 0 {
    } else if parts.len() == 1 {
        assert(single_line(parts[0]));
    } else {
        let init = parts.drop_last();
        assert forall|i: int| 0 <= i < init.len() implies single_line(#[trigger] init[i]) by {
            assert(init[i] == parts[i]);
        }
        lemma_join_single_line(init, sep);
        assert(single_line(parts.last()));
        lemma_single_line_concat(join(init, sep), sep);
        lemma_single_line_concat(join(init, sep) + sep, parts.last());
    }
}

/// The decimal text of a number reads back as that number.
pub proof fn lemma_decimal_value(n: nat)
    ensures
        digits_value(decimal(n)) == n,
        decimal(n).len() > 0,
        all_digits(decimal(n)),
    decreases n,
{
    lemma_decimal_single_line(n);
    let d = n % 10;
    assert((digit_char(d) as u32) == 48 + d);
    if n >= 10 {
        lemma_decimal_value(n / 10);
        lemma_digits_value_push(decimal(n / 10), digit_char(d));
        assert(decimal(n) == decimal(n / 10).push(digit_char(d)));
    } else {
        assert(decimal(n) == seq![digit_char(n)]);
        assert(seq![digit_char(n)] =~= Seq::<char>::empty().push(digit_char(n)));
        lemma_digits_value_push(Seq::<char>::empty(), digit_char(n));
        assert(digits_value(Seq::<char>::empty()) == 0);
    }
}

/// `parse_i32` reads back the decimal text of a number in range.
pub proof fn lemma_parse_i32_decimal(n: nat)
    requires
        n <= i32::MAX,
    ensures
        parse_i32(decimal(n)) == Some(n as i32),
{
    lemma_decimal_value(n);
    let d = decimal(n);
    assert(is_digit(d[0]));
}

pub proof fn lemma_not_prefix(p: Seq<char>, t: Seq<char>, i: int)
    requires
        0 <= i < p.len(),
        i < t.len(),
        p[i] != t[i],
    ensures
        !p.is_prefix_of(t),
{
    if p.is_prefix_of(t) {
        assert(t.subrange(0, p.len() as int)[i] == t[i]);
    }
}

pub proof fn lemma_prefix_of_concat(p: Seq<char>, x: Seq<char>)
    ensures
        p.is_prefix_of(p + x),
{
    assert((p + x).subrange(0, p.len() as int) =~= p);
}

/// A text that neither starts nor ends with whitespace is its own trim.
pub proof fn lemma_trim_plain(s: Seq<char>)
    requires
        s.len() > 0,
        !is_whitespace(s[0]),
        !is_whitespace(s.last()),
    ensures
        trim(s) == s,
{
    assert(trim_start(s) == s);
}

/// Trimming keeps a prefix that starts and ends with non-whitespace.
pub proof fn lemma_trim_keeps_prefix(p: Seq<char>, x: Seq<char>)
    requires
        p.is_prefix_of(x),
        p.len() > 0,
        !is_whitespace(p[0]),
        !is_whitespace(p.last()),
    ensures
        p.is_prefix_of(trim(x)),
{
    assert(x[0] == p[0]);
    assert(trim_start(x) == x);
    let k = lemma_trim_end(x);
    assert(x[p.len() - 1] == p.last());
    assert(k >= p.len());
    assert(trim(x).subrange(0, p.len() as int) =~= x.subrange(0, p.len() as int));
}

pub proof fn lemma_literal_single_line(s: Seq<char>)
    requires
        forall|i: int| 0 <= i < s.len() ==> s[i] != '\n',
    ensures
        single_line(s),
{
}

} // verus!
