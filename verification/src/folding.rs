//! Content-line folding shared by iCalendar (RFC 5545 §3.1) and vCard
//! (RFC 6350 §3.2): a physical line holds at most 75 octets, continuation
//! lines start with one space, and UTF-8 sequences are never split.
use vstd::prelude::*;
use vstd::seq_lib::lemma_flatten_concat;
use crate::text::{
    is_whitespace,
    lemma_single_line_concat, single_line, line_scan, strip_cr,
    byte_len, extend_chars, extend_str, lemma_byte_len_ge_len, lemma_byte_len_push, lemma_byte_len_take_mono, lines,
    slice_chars, split_lines, utf8_width,
};

verus! {

/// Octets allowed on the first physical line of a folded line.
pub const FIRST_MAX: usize = 75;

/// Octets of content allowed on a continuation line (after the leading space).
pub const CONT_MAX: usize = 74;

/// Number of leading characters of `s` whose UTF-8 encoding fits in `n` octets.
pub open spec fn fit_count(s: Seq<char>, n: nat) -> nat
    decreases s.len(),
{
    if s.len() == 0 {
        0
    } else if utf8_width(s[0]) <= n {
        1 + fit_count(s.drop_first(), (n - utf8_width(s[0])) as nat)
    } else {
        0
    }
}

/// The continuation part of a folded line: chunks of at most 74 octets joined by CRLF + space.
pub open spec fn fold_rest(s: Seq<char>) -> Seq<char>
    decreases s.len(),
{
    if byte_len(s) <= CONT_MAX {
        s
    } else {
        let k = fit_count(s, CONT_MAX as nat);
        if 0 < k <= s.len() {
            s.take(k as int) + "\r\n "@ + fold_rest(s.skip(k as int))
        } else {
            s
        }
    }
}

/// A logical line folded into physical lines, ending in CRLF.
pub open spec fn fold(line: Seq<char>) -> Seq<char> {
    if byte_len(line) <= FIRST_MAX {
        line + "\r\n"@
    } else {
        let k = fit_count(line, FIRST_MAX as nat);
        line.take(k as int) + "\r\n "@ + fold_rest(line.skip(k as int)) + "\r\n"@
    }
}

/// Folds each line and concatenates the results.
pub open spec fn fold_all(lines: Seq<Seq<char>>) -> Seq<char>
    decreases lines.len(),
{
    if lines.len() == 0 {
        seq![]
    } else {
        fold_all(lines.drop_last()) + fold(lines.last())
    }
}

/// One step of unfolding: a line starting with a space or tab continues the
/// text so far; any other line starts a new logical line.
pub open spec fn unfold_step(acc: Seq<char>, line: Seq<char>) -> Seq<char> {
    if line.len() > 0 && (line[0] == ' ' || line[0] == '\t') {
        acc + line.drop_first()
    } else if acc.len() == 0 {
        line
    } else {
        acc.push('\n') + line
    }
}

/// Unfolds a sequence of physical lines.
pub open spec fn unfold_lines(ls: Seq<Seq<char>>) -> Seq<char>
    decreases ls.len(),
{
    if ls.len() == 0 {
        seq![]
    } else {
        unfold_step(unfold_lines(ls.drop_last()), ls.last())
    }
}

/// Unfolds raw content: logical lines separated by `\n`.
pub open spec fn unfold(raw: Seq<char>) -> Seq<char> {
    unfold_lines(lines(raw))
}

pub proof fn lemma_fit_count(s: Seq<char>, n: nat)
    ensures
        fit_count(s, n) <= s.len(),
        byte_len(s.take(fit_count(s, n) as int)) <= n,
        fit_count(s, n) < s.len() ==> byte_len(s.take(fit_count(s, n) as int + 1)) > n,
        s.len() > 0 && n >= 4 ==> fit_count(s, n) >= 1,
    decreases s.len(),
{
    if s.len() > 0 && utf8_width(s[0]) <= n {
        let w = utf8_width(s[0]);
        let rest = s.drop_first();
        lemma_fit_count(rest, (n - w) as nat);
        let k: int = fit_count(rest, (n - w) as nat) as int;
        lemma_byte_len_front(s.take(k + 1));
        assert(s.take(k + 1).drop_first() == rest.take(k));
        if k + 1 < s.len() {
            lemma_byte_len_front(s.take(k + 2));
            assert(s.take(k + 2).drop_first() == rest.take(k + 1));
        }
    } else if s.len() > 0 {
        assert(s.take(0).len() == 0);
        lemma_byte_len_front(s.take(1));
        assert(s.take(1).drop_first().len() == 0);
    } else {
        assert(s.take(0).len() == 0);
    }
}

/// The byte length of a non-empty sequence counts its first character first.
pub proof fn lemma_byte_len_front(s: Seq<char>)
    requires
        s.len() > 0,
    ensures
        byte_len(s) == utf8_width(s[0]) + byte_len(s.drop_first()),
    decreases s.len(),
{
    if s.len() > 1 {
        lemma_byte_len_front(s.drop_last());
        assert(s.drop_last().drop_first() == s.drop_first().drop_last());
        assert(s.drop_last()[0] == s[0]);
        assert(s.drop_first().last() == s.last());
    } else {
        assert(s.drop_first().len() == 0);
        assert(s.drop_last().len() == 0);
        assert(byte_len(s.drop_last()) == 0);
        assert(byte_len(s.drop_first()) == 0);
    }
}

/// Whether `s[lo..]` fits in `n` octets of UTF-8.
pub fn fits_in(s: &Vec<char>, lo: usize, n: usize) -> (r: bool)
    requires
        lo <= s.len(),
    ensures
        r == (byte_len(s@.skip(lo as int)) <= n),
{
    let ghost t = s@.skip(lo as int);
    let mut total: usize = 0;
    let mut i = lo;
    while i < s.len()
        invariant
            lo <= i <= s.len(),
            t == s@.skip(lo as int),
            total == byte_len(t.take(i - lo)),
            total <= n,
        decreases s.len() - i,
    {
        let w = char_width(s[i]);
        proof {
            assert(t.take(i - lo + 1) == t.take(i - lo).push(s@[i as int]));
            lemma_byte_len_push(t.take(i - lo), s@[i as int]);
        }
        if w > n - total {
            proof {
                lemma_byte_len_take_mono(t, i - lo + 1, t.len() as int);
                assert(t.take(t.len() as int) == t);
            }
            return false;
        }
        total = total + w;
        i = i + 1;
    }
    assert(t.take(i - lo) == t);
    true
}

/// `char::len_utf8`.
pub fn char_width(c: char) -> (w: usize)
    ensures
        w == utf8_width(c),
        1 <= w <= 4,
{
    if (c as u32) < 0x80 {
        1
    } else if (c as u32) < 0x800 {
        2
    } else if (c as u32) < 0x10000 {
        3
    } else {
        4
    }
}

/// Number of characters from `s[lo..]` that fit in `n` octets.
pub fn fit_count_of(s: &Vec<char>, lo: usize, n: usize) -> (k: usize)
    requires
        lo <= s.len(),
    ensures
        k == fit_count(s@.skip(lo as int), n as nat),
{
    let mut k: usize = 0;
    let mut budget = n;
    while lo + k < s.len() && char_width(s[lo + k]) <= budget
        invariant
            lo + k <= s.len(),
            budget <= n,
            fit_count(s@.skip(lo as int), n as nat) == k + fit_count(
                s@.skip(lo + k),
                budget as nat,
            ),
        decreases s.len() - lo - k,
    {
        let w = char_width(s[lo + k]);
        proof {
            let t = s@.skip(lo + k);
            assert(t[0] == s@[lo + k]);
            assert(t.drop_first() == s@.skip(lo + k + 1));
        }
        budget = budget - w;
        k = k + 1;
    }
    proof {
        let t = s@.skip(lo + k);
        if lo + k < s.len() {
            assert(t[0] == s@[lo + k]);
        } else {
            assert(t.len() == 0);
        }
    }
    k
}

/// Folds the continuation part `s[lo..]`, appending to `out`.
fn fold_rest_into(s: &Vec<char>, lo: usize, out: &mut Vec<char>)
    requires
        lo <= s.len(),
    ensures
        final(out)@ == old(out)@ + fold_rest(s@.skip(lo as int)),
    decreases s.len() - lo,
{
    let ghost rest = s@.skip(lo as int);
    if fits_in(s, lo, CONT_MAX) {
        let part = slice_chars(s, lo, s.len());
        extend_chars(out, &part);
    } else {
        let k = fit_count_of(s, lo, CONT_MAX);
        proof {
            lemma_fit_count(rest, CONT_MAX as nat);
            lemma_byte_len_ge_len(rest);
        }
        let part = slice_chars(s, lo, lo + k);
        assert(part@ == rest.take(k as int));
        extend_chars(out, &part);
        extend_str(out, "\r\n ");
        assert(rest.skip(k as int) == s@.skip(lo + k));
        fold_rest_into(s, lo + k, out);
        assert(fold_rest(rest) == rest.take(k as int) + "\r\n "@ + fold_rest(rest.skip(k as int)));
    }
}

/// Folds one logical line (as characters), appending the physical lines to `out`.
pub fn fold_into(line: &Vec<char>, out: &mut Vec<char>)
    ensures
        final(out)@ == old(out)@ + fold(line@),
{
    assert(line@.skip(0) == line@);
    if fits_in(line, 0, FIRST_MAX) {
        extend_chars(out, line);
        extend_str(out, "\r\n");
    } else {
        let k = fit_count_of(line, 0, FIRST_MAX);
        assert(line@.skip(0) == line@);
        proof {
            lemma_fit_count(line@, FIRST_MAX as nat);
        }
        let part = slice_chars(line, 0, k);
        extend_chars(out, &part);
        extend_str(out, "\r\n ");
        fold_rest_into(line, k, out);
        extend_str(out, "\r\n");
    }
}

/// Unfolds raw content: continuation lines (leading space or tab) are joined
/// to the previous line and logical lines are separated by `\n`.
pub fn unfold_chars(raw: &Vec<char>) -> (r: Vec<char>)
    ensures
        r@ == unfold(raw@),
{
    let ls = split_lines(raw);
    let ghost lv = ls@.map_values(|l: Vec<char>| l@);
    let mut result: Vec<char> = Vec::new();
    for i in 0..ls.len()
        invariant
            lv == ls@.map_values(|l: Vec<char>| l@),
            result@ == unfold_lines(lv.take(i as int)),
    {
        let line = &ls[i];
        proof {
            assert(lv.take(i + 1).drop_last() == lv.take(i as int));
            assert(lv[i as int] == line@);
        }
        if line.len() > 0 && (line[0] == ' ' || line[0] == '\t') {
            let tail = slice_chars(line, 1, line.len());
            assert(tail@ == line@.drop_first());
            extend_chars(&mut result, &tail);
        } else {
            if result.len() > 0 {
                result.push('\n');
            }
            extend_chars(&mut result, line);
        }
    }
    assert(lv.take(ls.len() as int) == lv);
    result
}


// ===================== Property values =====================

/// Escaping of one character in a TEXT property value (RFC 5545 §3.3.11, RFC 2426 §5).
pub open spec fn escape_char(c: char) -> Seq<char> {
    if c == '\\' {
        seq!['\\', '\\']
    } else if c == ';' {
        seq!['\\', ';']
    } else if c == ',' {
        seq!['\\', ',']
    } else if c == '\n' {
        seq!['\\', 'n']
    } else {
        seq![c]
    }
}

/// An escaped TEXT value: each character replaced by its escape.
pub open spec fn escape_text(s: Seq<char>) -> Seq<char> {
    s.flat_map(|c: char| escape_char(c))
}

/// The character that `\\c` stands for; `\\N` is recognised only when `upper_n`.
pub open spec fn unescaped(c: char, upper_n: bool) -> Option<char> {
    if c == '\\' {
        Some('\\')
    } else if c == ';' {
        Some(';')
    } else if c == ',' {
        Some(',')
    } else if c == 'n' || (upper_n && c == 'N') {
        Some('\n')
    } else {
        None
    }
}

/// An unescaped TEXT value: a backslash followed by an escapable character
/// becomes that character; any other backslash is kept.
pub open spec fn unescape_text(s: Seq<char>, upper_n: bool) -> Seq<char>
    decreases s.len(),
{
    if s.len() == 0 {
        seq![]
    } else if s[0] == '\\' && s.len() >= 2 && unescaped(s[1], upper_n) is Some {
        seq![unescaped(s[1], upper_n)->0] + unescape_text(s.skip(2), upper_n)
    } else {
        seq![s[0]] + unescape_text(s.skip(1), upper_n)
    }
}

proof fn lemma_escape_text_front(s: Seq<char>)
    requires
        s.len() > 0,
    ensures
        escape_text(s) == escape_char(s[0]) + escape_text(s.skip(1)),
{
    let f = |c: char| escape_char(c);
    assert(s.map_values(f).drop_first() == s.skip(1).map_values(f));
    assert(s.map_values(f).first() == escape_char(s[0]));
}

/// Unescaping undoes escaping, whichever spelling of newline is accepted.
pub proof fn lemma_unescape_escape(s: Seq<char>, upper_n: bool)
    ensures
        unescape_text(escape_text(s), upper_n) == s,
    decreases s.len(),
{
    if s.len() == 0 {
        assert(escape_text(s) == Seq::<char>::empty());
    } else {
        lemma_escape_text_front(s);
        lemma_unescape_escape(s.skip(1), upper_n);
        let e = escape_char(s[0]);
        let t = e + escape_text(s.skip(1));
        if e.len() == 2 {
            assert(t.skip(2) == escape_text(s.skip(1)));
        } else {
            assert(t.skip(1) == escape_text(s.skip(1)));
        }
        assert(s == seq![s[0]] + s.skip(1));
    }
}

/// Escapes a TEXT value.
pub fn escape_text_chars(s: &Vec<char>) -> (r: Vec<char>)
    ensures
        r@ == escape_text(s@),
{
    let mut out: Vec<char> = Vec::new();
    for i in 0..s.len()
        invariant
            out@ == escape_text(s@.take(i as int)),
    {
        let c = s[i];
        if c == '\\' {
            out.push('\\');
            out.push('\\');
        } else if c == ';' {
            out.push('\\');
            out.push(';');
        } else if c == ',' {
            out.push('\\');
            out.push(',');
        } else if c == '\n' {
            out.push('\\');
            out.push('n');
        } else {
            out.push(c);
        }
        proof {
            s@.lemma_flat_map_take_append(|c: char| escape_char(c), i as int);
        }
    }
    assert(s@.take(s.len() as int) == s@);
    out
}

/// Unescapes a TEXT value.
pub fn unescape_text_chars(s: &Vec<char>, upper_n: bool) -> (r: Vec<char>)
    ensures
        r@ == unescape_text(s@, upper_n),
{
    let mut out: Vec<char> = Vec::new();
    let mut i: usize = 0;
    assert(s@.skip(0) == s@);
    while i < s.len()
        invariant
            i <= s.len(),
            unescape_text(s@, upper_n) == out@ + unescape_text(s@.skip(i as int), upper_n),
        decreases s.len() - i,
    {
        let ghost t = s@.skip(i as int);
        let c = s[i];
        if c == '\\' && i + 1 < s.len() {
            let d = s[i + 1];
            let m: Option<char> = if d == '\\' {
                Some('\\')
            } else if d == ';' {
                Some(';')
            } else if d == ',' {
                Some(',')
            } else if d == 'n' || (upper_n && d == 'N') {
                Some('\n')
            } else {
                None
            };
            assert(t[0] == c && t[1] == d);
            match m {
                Some(x) => {
                    out.push(x);
                    assert(t.skip(2) == s@.skip(i + 2));
                    i = i + 2;
                },
                None => {
                    out.push(c);
                    assert(t.skip(1) == s@.skip(i + 1));
                    i = i + 1;
                },
            }
        } else {
            out.push(c);
            assert(t[0] == c);
            assert(t.skip(1) == s@.skip(i + 1));
            i = i + 1;
        }
    }
    assert(s@.skip(i as int).len() == 0);
    out
}

/// Removes every trailing occurrence of `c` (`str::trim_end_matches`).
pub open spec fn trim_end_char(s: Seq<char>, c: char) -> Seq<char>
    decreases s.len(),
{
    if s.len() > 0 && s.last() == c {
        trim_end_char(s.drop_last(), c)
    } else {
        s
    }
}

/// `str::trim_end_matches(c)`.
pub fn trim_end_char_chars(s: &Vec<char>, c: char) -> (r: Vec<char>)
    ensures
        r@ == trim_end_char(s@, c),
{
    let mut hi = s.len();
    assert(s@.take(s.len() as int) == s@);
    while hi > 0 && s[hi - 1] == c
        invariant
            hi <= s.len(),
            trim_end_char(s@, c) == trim_end_char(s@.take(hi as int), c),
        decreases hi,
    {
        assert(s@.take(hi as int).drop_last() == s@.take(hi - 1));
        hi = hi - 1;
    }
    if hi > 0 {
        assert(s@.take(hi as int).last() == s@[hi - 1]);
    }
    slice_chars(s, 0, hi)
}

/// An escaped TEXT value holds no line feed: escaping keeps a value on one
/// content line.
pub proof fn lemma_escape_text_single_line(s: Seq<char>)
    ensures
        single_line(escape_text(s)),
    decreases s.len(),
{
    if s.len() == 0 {
        assert(escape_text(s) =~= Seq::<char>::empty());
    } else {
        lemma_escape_text_front(s);
        lemma_escape_text_single_line(s.skip(1));
        lemma_single_line_concat(escape_char(s[0]), escape_text(s.skip(1)));
    }
}

// ===================== Folding round trip =====================

/// The continuation chunks of a folded line, in order (see `fold_rest`).
pub open spec fn chunks(r: Seq<char>) -> Seq<Seq<char>>
    decreases r.len(),
{
    if byte_len(r) <= CONT_MAX {
        seq![r]
    } else {
        let k = fit_count(r, CONT_MAX as nat);
        if 0 < k <= r.len() {
            seq![r.take(k as int)] + chunks(r.skip(k as int))
        } else {
            seq![r]
        }
    }
}

proof fn lemma_line_scan_no_newline(x: Seq<char>)
    requires
        single_line(x),
    ensures
        line_scan(x) == (Seq::<Seq<char>>::empty(), x),
    decreases x.len(),
{
    if x.len() > 0 {
        assert(single_line(x.drop_last()));
        lemma_line_scan_no_newline(x.drop_last());
        assert(x.drop_last().push(x.last()) =~= x);
    }
}

proof fn lemma_line_scan_concat(p: Seq<char>, q: Seq<char>)
    requires
        line_scan(p).1.len() == 0,
    ensures
        line_scan(p + q) == (line_scan(p).0 + line_scan(q).0, line_scan(q).1),
    decreases q.len(),
{
    if q.len() == 0 {
        assert(p + q =~= p);
        assert(line_scan(p).0 + line_scan(q).0 =~= line_scan(p).0);
        assert(line_scan(p).1 =~= Seq::<char>::empty());
    } else {
        lemma_line_scan_concat(p, q.drop_last());
        assert((p + q).drop_last() =~= p + q.drop_last());
        assert((p + q).last() == q.last());
        let (dp, _) = line_scan(p);
        let (dq, cq) = line_scan(q.drop_last());
        if q.last() == '\n' {
            assert(dp + dq.push(strip_cr(cq)) =~= (dp + dq).push(strip_cr(cq)));
        }
    }
}

/// The lines of a text that starts with a line `x` ended by CRLF: `x`, then
/// the lines of the rest.
pub proof fn lemma_lines_after_crlf(x: Seq<char>, y: Seq<char>)
    requires
        single_line(x),
    ensures
        lines(x + "\r\n"@ + y) == seq![x] + lines(y),
{
    reveal_strlit("\r\n");
    let xr = x.push('\r');
    assert(single_line(xr)) by {
        assert forall|i: int| 0 <= i < xr.len() implies xr[i] != '\n' by {
            if i < x.len() {
                assert(xr[i] == x[i]);
            }
        }
    }
    lemma_line_scan_no_newline(xr);
    let p = x + "\r\n"@;
    assert(p.drop_last() =~= xr);
    assert(p.last() == '\n');
    assert(strip_cr(xr) =~= x);
    assert(line_scan(p) == (seq![x], Seq::<char>::empty()));
    lemma_line_scan_concat(p, y);
    let (dy, cy) = line_scan(y);
    if cy.len() > 0 {
        assert((seq![x] + dy).push(cy) =~= seq![x] + dy.push(cy));
    }
}

proof fn lemma_single_line_sub(s: Seq<char>, lo: int, hi: int)
    requires
        single_line(s),
        0 <= lo <= hi <= s.len(),
    ensures
        single_line(s.subrange(lo, hi)),
{
    assert forall|i: int| 0 <= i < hi - lo implies s.subrange(lo, hi)[i] != '\n' by {
        assert(s.subrange(lo, hi)[i] == s[lo + i]);
    }
}

/// The physical lines of the continuation part: each chunk behind a space.
proof fn lemma_lines_of_rest(r: Seq<char>)
    requires
        single_line(r),
    ensures
        lines(" "@ + fold_rest(r) + "\r\n"@) == chunks(r).map_values(|c: Seq<char>| " "@ + c),
    decreases r.len(),
{
    reveal_strlit(" ");
    reveal_strlit("\r\n ");
    reveal_strlit("\r\n");
    let sp = " "@;
    if byte_len(r) <= CONT_MAX {
        assert(single_line(sp + r)) by {
            lemma_single_line_concat(sp, r);
        }
        lemma_lines_after_crlf(sp + r, Seq::<char>::empty());
        assert(sp + r + "\r\n"@ + Seq::<char>::empty() =~= sp + fold_rest(r) + "\r\n"@);
        assert(lines(Seq::<char>::empty()) =~= Seq::<Seq<char>>::empty());
        assert(chunks(r).map_values(|c: Seq<char>| " "@ + c) =~= seq![sp + r]);
    } else {
        let k = fit_count(r, CONT_MAX as nat);
        lemma_fit_count(r, CONT_MAX as nat);
        let head = r.take(k as int);
        let tail = r.skip(k as int);
        lemma_single_line_sub(r, 0, k as int);
        lemma_single_line_sub(r, k as int, r.len() as int);
        assert(head =~= r.subrange(0, k as int));
        assert(tail =~= r.subrange(k as int, r.len() as int));
        assert(r.len() > 0);
        assert(0 < k);
        assert(fold_rest(r) == head + "\r\n "@ + fold_rest(tail));
        lemma_lines_of_rest(tail);
        lemma_single_line_concat(sp, head);
        lemma_lines_after_crlf(sp + head, sp + fold_rest(tail) + "\r\n"@);
        let f = fold_rest(tail);
        assert("\r\n "@ =~= "\r\n"@ + sp);
        assert(sp + (head + ("\r\n"@ + sp) + f) + "\r\n"@ =~= (sp + head) + "\r\n"@ + (sp + f + "\r\n"@));
        assert(sp + fold_rest(r) + "\r\n"@ =~= (sp + head) + "\r\n"@ + (sp + fold_rest(tail) + "\r\n"@));
        assert(chunks(r) == seq![head] + chunks(tail));
        assert(chunks(r).map_values(|c: Seq<char>| " "@ + c) =~= seq![sp + head] + chunks(tail).map_values(
            |c: Seq<char>| " "@ + c,
        ));
    }
}

/// Concatenation of a list of texts.
pub open spec fn concat(parts: Seq<Seq<char>>) -> Seq<char>
    decreases parts.len(),
{
    if parts.len() == 0 {
        seq![]
    } else {
        concat(parts.drop_last()) + parts.last()
    }
}

proof fn lemma_concat_front(a: Seq<char>, rest: Seq<Seq<char>>)
    ensures
        concat(seq![a] + rest) == a + concat(rest),
    decreases rest.len(),
{
    assert(concat(Seq::<Seq<char>>::empty()) =~= Seq::<char>::empty());
    if rest.len() == 0 {
        assert(seq![a] + rest =~= seq![a]);
        assert(seq![a].drop_last() =~= Seq::<Seq<char>>::empty());
        assert(seq![a].last() == a);
        assert(a + concat(rest) =~= a);
    } else {
        lemma_concat_front(a, rest.drop_last());
        assert((seq![a] + rest).drop_last() =~= seq![a] + rest.drop_last());
        assert((seq![a] + rest).last() == rest.last());
        assert(a + concat(rest.drop_last()) + rest.last() =~= a + (concat(rest.drop_last()) + rest.last()));
    }
}

proof fn lemma_chunks_concat(r: Seq<char>)
    ensures
        concat(chunks(r)) == r,
    decreases r.len(),
{
    lemma_concat_front(r, Seq::<Seq<char>>::empty());
    assert(seq![r] + Seq::<Seq<char>>::empty() =~= seq![r]);
    assert(concat(Seq::<Seq<char>>::empty()) =~= Seq::<char>::empty());
    assert(r + Seq::<char>::empty() =~= r);
    if byte_len(r) > CONT_MAX {
        let k = fit_count(r, CONT_MAX as nat);
        lemma_fit_count(r, CONT_MAX as nat);
        if 0 < k <= r.len() {
            lemma_chunks_concat(r.skip(k as int));
            lemma_concat_front(r.take(k as int), chunks(r.skip(k as int)));
            assert(r.take(k as int) + r.skip(k as int) =~= r);
        }
    }
}

/// Continuation lines append their text after the leading space.
proof fn lemma_unfold_continuations(first: Seq<Seq<char>>, cs: Seq<Seq<char>>)
    ensures
        unfold_lines(first + cs.map_values(|c: Seq<char>| " "@ + c)) == unfold_lines(first) + concat(cs),
    decreases cs.len(),
{
    reveal_strlit(" ");
    if cs.len() == 0 {
        assert(first + cs.map_values(|c: Seq<char>| " "@ + c) =~= first);
        assert(unfold_lines(first) + concat(cs) =~= unfold_lines(first));
    } else {
        let init = cs.drop_last();
        lemma_unfold_continuations(first, init);
        let all = first + cs.map_values(|c: Seq<char>| " "@ + c);
        assert(all.drop_last() =~= first + init.map_values(|c: Seq<char>| " "@ + c));
        let l = all.last();
        assert(l == " "@ + cs.last());
        assert(l.len() > 0 && l[0] == ' ');
        assert(l.drop_first() =~= cs.last());
        assert(unfold_lines(first) + concat(init) + cs.last() =~= unfold_lines(first) + (concat(init) + cs.last()));
    }
}

/// Unfolding a folded line gives the line back, when it is one line that
/// does not itself begin like a continuation (with a space or a tab).
pub proof fn lemma_unfold_fold(line: Seq<char>)
    requires
        single_line(line),
        line.len() > 0 ==> line[0] != ' ' && line[0] != '\t',
    ensures
        unfold(fold(line)) == line,
{
    reveal_strlit("\r\n");
    reveal_strlit("\r\n ");
    reveal_strlit(" ");
    if byte_len(line) <= FIRST_MAX {
        lemma_lines_after_crlf(line, Seq::<char>::empty());
        assert(line + "\r\n"@ + Seq::<char>::empty() =~= fold(line));
        assert(lines(Seq::<char>::empty()) =~= Seq::<Seq<char>>::empty());
        assert(lines(fold(line)) =~= seq![line]);
        assert(seq![line].drop_last() =~= Seq::<Seq<char>>::empty());
        assert(unfold_lines(Seq::<Seq<char>>::empty()) =~= Seq::<char>::empty());
        assert(seq![line].last() == line);
    } else {
        let k = fit_count(line, FIRST_MAX as nat);
        lemma_fit_count(line, FIRST_MAX as nat);
        let head = line.take(k as int);
        let rest = line.skip(k as int);
        lemma_single_line_sub(line, 0, k as int);
        lemma_single_line_sub(line, k as int, line.len() as int);
        assert(head =~= line.subrange(0, k as int));
        assert(rest =~= line.subrange(k as int, line.len() as int));
        assert(fold(line) =~= head + "\r\n"@ + (" "@ + fold_rest(rest) + "\r\n"@));
        lemma_lines_after_crlf(head, " "@ + fold_rest(rest) + "\r\n"@);
        lemma_lines_of_rest(rest);
        lemma_unfold_continuations(seq![head], chunks(rest));
        assert(line.len() > 0);
        assert(k > 0);
        assert(seq![head].drop_last() =~= Seq::<Seq<char>>::empty());
        assert(unfold_lines(Seq::<Seq<char>>::empty()) =~= Seq::<char>::empty());
        assert(seq![head].last() == head);
        assert(head[0] == line[0]);
        assert(unfold_lines(seq![head]) == head);
        lemma_chunks_concat(rest);
        assert(head + rest =~= line);
    }
}

/// A line that folding and unfolding carry unchanged: one line, not empty,
/// not beginning like a continuation.
pub open spec fn content_line(l: Seq<char>) -> bool {
    single_line(l) && l.len() > 0 && l[0] != ' ' && l[0] != '\t'
}

/// The physical lines of a folded line, read after other lines, add the
/// line as one more logical line.
proof fn lemma_unfold_after_fold(prev: Seq<Seq<char>>, line: Seq<char>)
    requires
        content_line(line),
    ensures
        line_scan(fold(line)).1.len() == 0,
        unfold_lines(prev + lines(fold(line))) == unfold_step(unfold_lines(prev), line),
{
    reveal_strlit("\r\n");
    reveal_strlit("\r\n ");
    reveal_strlit(" ");
    let f = fold(line);
    let u = unfold_lines(prev);
    if byte_len(line) <= FIRST_MAX {
        assert(f.last() == '\n');
        lemma_lines_after_crlf(line, Seq::<char>::empty());
        assert(line + "\r\n"@ + Seq::<char>::empty() =~= f);
        assert(lines(Seq::<char>::empty()) =~= Seq::<Seq<char>>::empty());
        assert(lines(f) =~= seq![line]);
        assert((prev + seq![line]).drop_last() =~= prev);
        assert((prev + seq![line]).last() == line);
    } else {
        let k = fit_count(line, FIRST_MAX as nat);
        lemma_fit_count(line, FIRST_MAX as nat);
        let head = line.take(k as int);
        let rest = line.skip(k as int);
        lemma_single_line_sub(line, 0, k as int);
        lemma_single_line_sub(line, k as int, line.len() as int);
        assert(head =~= line.subrange(0, k as int));
        assert(rest =~= line.subrange(k as int, line.len() as int));
        let tail = " "@ + fold_rest(rest) + "\r\n"@;
        assert(f =~= head + "\r\n"@ + tail);
        assert(f.last() == '\n');
        lemma_lines_after_crlf(head, tail);
        lemma_lines_of_rest(rest);
        let cont = chunks(rest).map_values(|c: Seq<char>| " "@ + c);
        assert(lines(f) == seq![head] + cont);
        let first = prev + seq![head];
        lemma_unfold_continuations(first, chunks(rest));
        assert(prev + lines(f) =~= first + cont);
        assert(first.drop_last() =~= prev);
        assert(first.last() == head);
        assert(k > 0);
        assert(head[0] == line[0]);
        lemma_chunks_concat(rest);
        assert(head + rest =~= line);
        if u.len() == 0 {
            assert(unfold_step(u, head) + rest == unfold_step(u, line));
        } else {
            assert(u.push('\n') + head + rest =~= u.push('\n') + line);
        }
    }
}

/// Unfolding folded content lines gives the lines joined as logical lines.
proof fn lemma_unfold_fold_all(ls: Seq<Seq<char>>)
    requires
        forall|i: int| 0 <= i < ls.len() ==> content_line(#[trigger] ls[i]),
    ensures
        line_scan(fold_all(ls)).1.len() == 0,
        unfold(fold_all(ls)) == unfold_lines(ls),
    decreases ls.len(),
{
    if ls.len() == 0 {
        assert(lines(Seq::<char>::empty()) =~= Seq::<Seq<char>>::empty());
    } else {
        let init = ls.drop_last();
        let last = ls.last();
        assert forall|i: int| 0 <= i < init.len() implies content_line(#[trigger] init[i]) by {
            assert(init[i] == ls[i]);
        }
        assert(content_line(ls[ls.len() - 1]));
        lemma_unfold_fold_all(init);
        let before = fold_all(init);
        lemma_unfold_after_fold(lines(before), last);
        lemma_line_scan_concat(before, fold(last));
        assert(fold_all(ls) == before + fold(last));
        assert(lines(fold_all(ls)) == lines(before) + lines(fold(last)));
    }
}

/// Splitting logical lines joined by unfolding gives them back; a line
/// followed by another loses one trailing carriage return.
proof fn lemma_line_scan_unfold_lines(ls: Seq<Seq<char>>)
    requires
        ls.len() > 0,
        forall|i: int| 0 <= i < ls.len() ==> content_line(#[trigger] ls[i]),
    ensures
        line_scan(unfold_lines(ls)) == (ls.drop_last().map_values(|l: Seq<char>| strip_cr(l)), ls.last()),
    decreases ls.len(),
{
    let l = ls.last();
    assert(content_line(ls[ls.len() - 1]));
    lemma_line_scan_no_newline(l);
    if ls.len() == 1 {
        assert(ls.drop_last() =~= Seq::<Seq<char>>::empty());
        assert(unfold_lines(ls.drop_last()) =~= Seq::<char>::empty());
        assert(ls.drop_last().map_values(|l: Seq<char>| strip_cr(l)) =~= Seq::<Seq<char>>::empty());
    } else {
        let init = ls.drop_last();
        assert forall|i: int| 0 <= i < init.len() implies content_line(#[trigger] init[i]) by {
            assert(init[i] == ls[i]);
        }
        lemma_line_scan_unfold_lines(init);
        let u = unfold_lines(init);
        assert(content_line(init[init.len() - 1]));
        if u.len() == 0 {
            assert(line_scan(u).1 =~= Seq::<char>::empty());
        }
        let up = u.push('\n');
        assert(up.drop_last() =~= u);
        let m = init.map_values(|l: Seq<char>| strip_cr(l));
        assert(line_scan(up).0 =~= m);
        lemma_line_scan_concat(up, l);
        assert(unfold_lines(ls) == up + l);
        assert(m + Seq::<Seq<char>>::empty() =~= m);
    }
}

/// Reading back folded content lines: unfolding the folded text and splitting
/// it into lines gives the lines again, except that a line followed by
/// another loses one trailing carriage return (as `str::lines` drops it).
pub proof fn lemma_lines_of_folded(ls: Seq<Seq<char>>)
    requires
        ls.len() > 0,
        forall|i: int| 0 <= i < ls.len() ==> content_line(#[trigger] ls[i]),
    ensures
        lines(unfold(fold_all(ls))) == ls.drop_last().map_values(|l: Seq<char>| strip_cr(l)).push(ls.last()),
{
    lemma_unfold_fold_all(ls);
    lemma_line_scan_unfold_lines(ls);
    assert(content_line(ls[ls.len() - 1]));
}

/// An escaped text value keeps its end when the line is trimmed: it does not
/// end in whitespace other than a line feed (which is written as `\n`).
pub open spec fn text_end_ok(v: Seq<char>) -> bool {
    v.len() == 0 || v.last() == '\n' || !is_whitespace(v.last())
}

/// The escaped form of a text ends with the escape of its last character.
pub proof fn lemma_escape_text_push(s: Seq<char>, c: char)
    ensures
        escape_text(s.push(c)) == escape_text(s) + escape_char(c),
{
    let f = |x: char| escape_char(x);
    assert(s.push(c).map_values(f) =~= s.map_values(f) + seq![escape_char(c)]);
    lemma_flatten_concat(s.map_values(f), seq![escape_char(c)]);
    seq![escape_char(c)].lemma_flatten_one_element();
}

/// The escaped form of a value that `text_end_ok` accepts does not end in whitespace.
pub proof fn lemma_escape_text_end(v: Seq<char>)
    requires
        v.len() > 0,
        text_end_ok(v),
    ensures
        escape_text(v).len() > 0,
        !is_whitespace(escape_text(v).last()),
{
    lemma_escape_text_push(v.drop_last(), v.last());
    assert(v.drop_last().push(v.last()) =~= v);
}

pub proof fn lemma_escape_text_empty()
    ensures
        escape_text(Seq::<char>::empty()) == Seq::<char>::empty(),
{
    assert(escape_text(Seq::<char>::empty()) =~= Seq::<char>::empty());
}


/// Text without backslashes unescapes to itself.
pub proof fn lemma_unescape_plain_then(s: Seq<char>, y: Seq<char>, upper_n: bool)
    requires
        !s.contains('\\'),
    ensures
        unescape_text(s + y, upper_n) == s + unescape_text(y, upper_n),
    decreases s.len(),
{
    if s.len() == 0 {
        assert(s + y =~= y);
        assert(s + unescape_text(y, upper_n) =~= unescape_text(y, upper_n));
    } else {
        let rest = s.skip(1);
        assert(!rest.contains('\\')) by {
            if rest.contains('\\') {
                let i = choose|i: int| 0 <= i < rest.len() && rest[i] == '\\';
                assert(s[i + 1] == '\\');
            }
        }
        lemma_unescape_plain_then(rest, y, upper_n);
        assert(s[0] != '\\') by {
            if s[0] == '\\' {
                assert(s.contains('\\'));
            }
        }
        assert((s + y).skip(1) =~= rest + y);
        assert(s + unescape_text(y, upper_n) =~= seq![s[0]] + (rest + unescape_text(y, upper_n)));
    }
}


/// The pieces a line is folded into: the text of the first physical line,
/// then the content of each continuation line.
pub open spec fn fold_pieces(line: Seq<char>) -> Seq<Seq<char>> {
    if byte_len(line) <= FIRST_MAX {
        seq![line]
    } else {
        let k = fit_count(line, FIRST_MAX as nat);
        seq![line.take(k as int)] + chunks(line.skip(k as int))
    }
}

proof fn lemma_chunks_bounded(r: Seq<char>)
    ensures
        chunks(r).len() >= 1,
        forall|i: int| 0 <= i < chunks(r).len() ==> byte_len(#[trigger] chunks(r)[i]) <= CONT_MAX,
    decreases r.len(),
{
    if byte_len(r) > CONT_MAX {
        let k = fit_count(r, CONT_MAX as nat);
        lemma_fit_count(r, CONT_MAX as nat);
        if 0 < k <= r.len() {
            lemma_chunks_bounded(r.skip(k as int));
            let c = chunks(r);
            assert forall|i: int| 0 <= i < c.len() implies byte_len(#[trigger] c[i]) <= CONT_MAX by {
                if i > 0 {
                    assert(c[i] == chunks(r.skip(k as int))[i - 1]);
                }
            }
        } else {
            assert(r.len() == 0);
            assert(byte_len(r) == 0);
        }
    }
}

/// The continuation part written after the first line is each chunk behind CRLF and a space.
proof fn lemma_fold_rest_pieces(r: Seq<char>)
    ensures
        "\r\n "@ + fold_rest(r) == concat(chunks(r).map_values(|c: Seq<char>| "\r\n "@ + c)),
    decreases r.len(),
{
    let sep = "\r\n "@;
    lemma_concat_front(sep + r, Seq::<Seq<char>>::empty());
    assert(seq![sep + r] + Seq::<Seq<char>>::empty() =~= seq![sep + r]);
    assert(concat(Seq::<Seq<char>>::empty()) =~= Seq::<char>::empty());
    assert(sep + r + Seq::<char>::empty() =~= sep + r);
    if byte_len(r) <= CONT_MAX {
        assert(chunks(r).map_values(|c: Seq<char>| "\r\n "@ + c) =~= seq![sep + r]);
    } else {
        let k = fit_count(r, CONT_MAX as nat);
        lemma_fit_count(r, CONT_MAX as nat);
        if 0 < k <= r.len() {
            let tail = r.skip(k as int);
            lemma_fold_rest_pieces(tail);
            let mt = chunks(tail).map_values(|c: Seq<char>| "\r\n "@ + c);
            assert(chunks(r).map_values(|c: Seq<char>| "\r\n "@ + c) =~= seq![sep + r.take(k as int)] + mt);
            lemma_concat_front(sep + r.take(k as int), mt);
            assert(sep + fold_rest(r) =~= sep + r.take(k as int) + (sep + fold_rest(tail)));
        } else {
            assert(chunks(r).map_values(|c: Seq<char>| "\r\n "@ + c) =~= seq![sep + r]);
        }
    }
}

/// Folding keeps every physical line within 75 octets and never splits a
/// character: the folded text is the first piece, then each further piece
/// behind CRLF and a space, then CRLF; the first piece holds at most 75
/// octets, each further piece at most 74, and the pieces together are the
/// line.
pub proof fn lemma_fold_octets(line: Seq<char>)
    ensures
        fold_pieces(line).len() >= 1,
        fold(line) == fold_pieces(line)[0] + concat(
            fold_pieces(line).skip(1).map_values(|c: Seq<char>| "\r\n "@ + c),
        ) + "\r\n"@,
        concat(fold_pieces(line)) == line,
        byte_len(fold_pieces(line)[0]) <= FIRST_MAX,
        forall|i: int| 1 <= i < fold_pieces(line).len() ==> byte_len(#[trigger] fold_pieces(line)[i]) <= CONT_MAX,
{
    let p = fold_pieces(line);
    if byte_len(line) <= FIRST_MAX {
        assert(p.skip(1) =~= Seq::<Seq<char>>::empty());
        assert(p.skip(1).map_values(|c: Seq<char>| "\r\n "@ + c) =~= Seq::<Seq<char>>::empty());
        assert(concat(Seq::<Seq<char>>::empty()) =~= Seq::<char>::empty());
        assert(line + Seq::<char>::empty() =~= line);
        lemma_concat_front(line, Seq::<Seq<char>>::empty());
        assert(seq![line] + Seq::<Seq<char>>::empty() =~= seq![line]);
    } else {
        let k = fit_count(line, FIRST_MAX as nat);
        lemma_fit_count(line, FIRST_MAX as nat);
        let head = line.take(k as int);
        let rest = line.skip(k as int);
        lemma_chunks_bounded(rest);
        lemma_fold_rest_pieces(rest);
        lemma_chunks_concat(rest);
        assert(p.skip(1) =~= chunks(rest));
        lemma_concat_front(head, chunks(rest));
        assert(head + rest =~= line);
        assert forall|i: int| 1 <= i < p.len() implies byte_len(#[trigger] p[i]) <= CONT_MAX by {
            assert(p[i] == chunks(rest)[i - 1]);
        }
        assert(fold(line) =~= head + ("\r\n "@ + fold_rest(rest)) + "\r\n"@);
    }
}

} // verus!
