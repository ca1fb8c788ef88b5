//! vCard 3.0 reading and writing (RFC 2426 values, RFC 6350 §3.2 folding).
use std::hash::{Hash, Hasher};
use vstd::prelude::*;
use vstd::utf8::{decode_utf8, encode_utf8, valid_utf8};
use crate::carddav::{
    opt_view, Contact, ContactEmail, ContactModel, ContactPhone, EmailModel, PhoneModel,
};
use crate::folding::{
    escape_text, escape_text_chars, fold, fold_all, fold_into, trim_end_char, trim_end_char_chars,
    unescape_text, unescape_text_chars, unfold, unfold_chars,
};
use crate::text::{
    after_last, after_last_char, before_first, before_first_char, chars_of, contains, contains_seq,
    extend_chars, extend_str, find_from, find_seq, first_index_of, hex, hex_chars, join, lines,
    find_char, slice_chars, split_lines, split_on, split_once, split_once_char, split_words, starts_with,
    string_of, split_chars, trim, trim_chars, words, ascii_text, upper_ascii,
};

verus! {

// ===================== Outside results =====================

/// What `DefaultHasher` (SipHash with the fixed keys of `DefaultHasher::new`)
/// yields for a string. The algorithm is fixed for a given Rust release.
pub uninterp spec fn default_hash(s: Seq<char>) -> u64;

/// What `String::from_utf8_lossy` yields for bytes that are not valid UTF-8.
pub uninterp spec fn utf8_lossy(b: Seq<u8>) -> Seq<char>;

/// What `str::to_uppercase` (full Unicode case mapping) yields.
pub uninterp spec fn unicode_upper(s: Seq<char>) -> Seq<char>;

/// Stable hash of a string, used to derive an ID for contacts without UID.
/// Trusted: wraps `std::hash::Hash for str` fed into `DefaultHasher::new()`;
/// the result is the named value `default_hash` of the characters.
#[verifier::external_body]
pub fn hash_id(s: &str) -> (h: u64)
    ensures
        h == default_hash(s@),
{
    let mut hasher = std::collections::hash_map::DefaultHasher::new();
    s.hash(&mut hasher);
    hasher.finish()
}

/// Trusted: wraps `String::from_utf8_lossy`. Valid UTF-8 decodes exactly
/// (std documents this); for invalid input the result is the named value
/// `utf8_lossy` (replacement characters, not modelled here).
#[verifier::external_body]
fn string_from_utf8_lossy(b: &Vec<u8>) -> (s: String)
    ensures
        valid_utf8(b@) ==> s@ == decode_utf8(b@),
        !valid_utf8(b@) ==> s@ == utf8_lossy(b@),
{
    String::from_utf8_lossy(b).into_owned()
}

/// Trusted: wraps `str::to_uppercase`; the result is the named value
/// `unicode_upper`. On ASCII text the Unicode uppercase mapping is the ASCII
/// one (`a`-`z` to `A`-`Z`, every other character kept), so there the result
/// is `upper_ascii` of the text.
#[verifier::external_body]
fn to_uppercase(s: &str) -> (r: String)
    ensures
        r@ == unicode_upper(s@),
        ascii_text(s@) ==> r@ == upper_ascii(s@),
{
    s.to_uppercase()
}

// ===================== Specifications =====================

/// Quoted-printable hex digit (`char::to_digit(16)` on one byte).
pub open spec fn is_hex_byte(b: u8) -> bool {
    (48 <= b <= 57) || (65 <= b <= 70) || (97 <= b <= 102)
}

/// Value of a hex digit byte.
pub open spec fn hex_value(b: u8) -> nat {
    if 48 <= b <= 57 {
        (b - 48) as nat
    } else if 65 <= b <= 70 {
        (b - 55) as nat
    } else {
        (b - 87) as nat
    }
}

/// Quoted-printable decoding of bytes: `=XY` is the byte `0xXY`, `=` followed
/// by a line break is a soft break (dropped), any other `=` is kept.
pub open spec fn qp_decode(b: Seq<u8>) -> Seq<u8>
    decreases b.len(),
{
    if b.len() == 0 {
        seq![]
    } else if b[0] == 61 && 2 < b.len() {
        if b[1] == 13 || b[1] == 10 {
            if 2 < b.len() && b[2] == 10 {
                qp_decode(b.skip(3))
            } else {
                qp_decode(b.skip(2))
            }
        } else if is_hex_byte(b[1]) && is_hex_byte(b[2]) {
            seq![(hex_value(b[1]) * 16 + hex_value(b[2])) as u8] + qp_decode(b.skip(3))
        } else {
            seq![61u8] + qp_decode(b.skip(1))
        }
    } else {
        seq![b[0]] + qp_decode(b.skip(1))
    }
}

/// Text of quoted-printable decoded bytes (lossy for invalid UTF-8).
pub open spec fn qp_text(s: Seq<char>) -> Seq<char> {
    let b = qp_decode(encode_utf8(s));
    if valid_utf8(b) {
        decode_utf8(b)
    } else {
        utf8_lossy(b)
    }
}

/// `a/b/` + `id.vcf`: the resource path of a contact in an address book.
pub open spec fn contact_href(addressbook_href: Seq<char>, contact_id: Seq<char>) -> Seq<char> {
    trim_end_char(addressbook_href, '/') + "/"@ + contact_id + ".vcf"@
}

/// Components of the structured N property: (family, given, additional).
pub open spec fn n_components(name: Seq<char>) -> (Seq<char>, Seq<char>, Seq<char>) {
    let t = words(name);
    if t.len() == 0 {
        (seq![], seq![], seq![])
    } else if t.len() == 1 {
        (seq![], escape_text(t[0]), seq![])
    } else if t.len() == 2 {
        (escape_text(t[1]), escape_text(t[0]), seq![])
    } else {
        (
            escape_text(t.last()),
            escape_text(t[0]),
            escape_text(join(t.subrange(1, t.len() - 1), " "@)),
        )
    }
}

/// The N line for a full name.
pub open spec fn n_line(name: Seq<char>) -> Seq<char> {
    let (family, given, middle) = n_components(name);
    "N:"@ + family + ";"@ + given + ";"@ + middle + ";;"@
}

/// A property line with an optional TYPE parameter and a raw value.
pub open spec fn typed_line(prop: Seq<char>, label: Option<Seq<char>>, value: Seq<char>) -> Seq<char> {
    match label {
        Some(l) => prop + ";TYPE="@ + l + ":"@ + value,
        None => prop + ":"@ + value,
    }
}

/// One line for an optional escaped property.
pub open spec fn opt_line(prop: Seq<char>, value: Option<Seq<char>>) -> Seq<Seq<char>> {
    match value {
        Some(v) => seq![prop + ":"@ + escape_text(v)],
        None => seq![],
    }
}

/// The logical lines of a contact's vCard, in order.
pub open spec fn vcard_lines(c: ContactModel) -> Seq<Seq<char>> {
    seq!["BEGIN:VCARD"@, "VERSION:3.0"@, "UID:"@ + c.id, "FN:"@ + escape_text(c.name), n_line(c.name)]
        + c.emails.map_values(|e: EmailModel| typed_line("EMAIL"@, e.label, e.email))
        + c.phones.map_values(|p: PhoneModel| typed_line("TEL"@, p.label, p.number))
        + opt_line("ORG"@, c.organization)
        + opt_line("TITLE"@, c.title)
        + (match c.address {
            Some(street) => seq!["ADR:;;"@ + escape_text(street) + ";;;;;"@],
            None => seq![],
        })
        + opt_line("NOTE"@, c.notes)
        + seq!["END:VCARD"@]
}

/// The serialized vCard: each logical line folded and terminated by CRLF.
pub open spec fn vcard_text(c: ContactModel) -> Seq<char> {
    fold_all(vcard_lines(c))
}

/// Fields collected while reading the lines of a vCard.
pub struct VcardFields {
    pub id: Seq<char>,
    pub name: Seq<char>,
    pub emails: Seq<EmailModel>,
    pub phones: Seq<PhoneModel>,
    pub organization: Option<Seq<char>>,
    pub title: Option<Seq<char>>,
    pub notes: Option<Seq<char>>,
    pub address: Option<Seq<char>>,
}

/// The value of a property line: the text after the first `:`, quoted-printable
/// decoded when the line declares that encoding, otherwise unescaped.
pub open spec fn property_value(t: Seq<char>) -> Seq<char> {
    let value = match split_once(t, ':') {
        Some((_, v)) => v,
        None => seq![],
    };
    if contains_seq(unicode_upper(t), "ENCODING=QUOTED-PRINTABLE"@) {
        qp_text(value)
    } else {
        unescape_text(value, false)
    }
}

/// The TYPE parameter of a line: the text after the first `TYPE=` up to the
/// next `TYPE=` and then up to the first `:`.
pub open spec fn type_label(t: Seq<char>) -> Option<Seq<char>> {
    match find_seq(t, "TYPE="@) {
        Some(i) => {
            let rest = t.skip(i + 5);
            let seg = match find_seq(rest, "TYPE="@) {
                Some(j) => rest.take(j),
                None => rest,
            };
            Some(before_first(seg, ':'))
        },
        None => None,
    }
}

/// Effect of one (unfolded) vCard line on the collected fields.
pub open spec fn vcard_step(a: VcardFields, line: Seq<char>) -> VcardFields {
    let t = trim(line);
    let colon = first_index_of(t, ':') is Some;
    if "UID"@.is_prefix_of(t) && colon {
        VcardFields { id: property_value(t), ..a }
    } else if "FN"@.is_prefix_of(t) && colon {
        VcardFields { name: property_value(t), ..a }
    } else if "EMAIL"@.is_prefix_of(t) {
        let e = after_last(t, ':');
        if e.len() > 0 {
            VcardFields { emails: a.emails.push(EmailModel { email: e, label: type_label(t) }), ..a }
        } else {
            a
        }
    } else if "TEL"@.is_prefix_of(t) {
        let n = after_last(t, ':');
        if n.len() > 0 {
            VcardFields { phones: a.phones.push(PhoneModel { number: n, label: type_label(t) }), ..a }
        } else {
            a
        }
    } else if "ORG"@.is_prefix_of(t) && colon {
        VcardFields { organization: Some(property_value(t)), ..a }
    } else if "TITLE"@.is_prefix_of(t) && colon {
        VcardFields { title: Some(property_value(t)), ..a }
    } else if "NOTE"@.is_prefix_of(t) && colon {
        VcardFields { notes: Some(property_value(t)), ..a }
    } else if "ADR"@.is_prefix_of(t) && colon {
        let parts = split_on(property_value(t), ';');
        if parts.len() > 2 && trim(parts[2]).len() > 0 {
            VcardFields { address: Some(trim(parts[2])), ..a }
        } else {
            a
        }
    } else {
        a
    }
}

/// Fields collected from a sequence of lines.
pub open spec fn vcard_scan(ls: Seq<Seq<char>>) -> VcardFields
    decreases ls.len(),
{
    if ls.len() == 0 {
        VcardFields {
            id: seq![],
            name: seq![],
            emails: seq![],
            phones: seq![],
            organization: None,
            title: None,
            notes: None,
            address: None,
        }
    } else {
        vcard_step(vcard_scan(ls.drop_last()), ls.last())
    }
}

/// The contact a vCard describes: `None` without a full name; a missing UID is
/// replaced by the hex hash of the name.
pub open spec fn vcard_contact(
    raw: Seq<char>,
    href: Option<Seq<char>>,
    etag: Option<Seq<char>>,
) -> Option<ContactModel> {
    let a = vcard_scan(lines(unfold(raw)));
    if a.name.len() == 0 {
        None
    } else {
        Some(
            ContactModel {
                id: if a.id.len() == 0 {
                    hex(default_hash(a.name) as nat)
                } else {
                    a.id
                },
                name: a.name,
                emails: a.emails,
                phones: a.phones,
                organization: a.organization,
                title: a.title,
                notes: a.notes,
                address: a.address,
                href,
                etag,
            },
        )
    }
}

// ===================== Executable functions =====================

/// Unfold vCard lines per RFC 6350 §3.2: continuation lines start with a space or tab.
pub fn unfold_vcard(raw: &str) -> (r: String)
    ensures
        r@ == unfold(raw@),
{
    let cs = chars_of(raw);
    let u = unfold_chars(&cs);
    string_of(&u)
}

/// Decode a quoted-printable encoded value.
pub fn decode_qp(s: &str) -> (r: String)
    ensures
        r@ == qp_text(s@),
{
    let bytes = s.as_bytes();
    let ghost b = bytes@;
    assert(b == encode_utf8(s@));
    let mut out: Vec<u8> = Vec::new();
    let mut i: usize = 0;
    assert(b.skip(0) == b);
    while i < bytes.len()
        invariant
            i <= bytes.len(),
            b == bytes@,
            qp_decode(b) == out@ + qp_decode(b.skip(i as int)),
        decreases bytes.len() - i,
    {
        let ghost t = b.skip(i as int);
        if bytes[i] == 61 && bytes.len() - i > 2 {
            assert(t[0] == 61 && t[1] == bytes@[i + 1] && t[2] == bytes@[i + 2]);
            if bytes[i + 1] == 13 || bytes[i + 1] == 10 {
                if i + 2 < bytes.len() && bytes[i + 2] == 10 {
                    assert(t.skip(3) == b.skip(i + 3));
                    i = i + 3;
                } else {
                    assert(t.skip(2) == b.skip(i + 2));
                    i = i + 2;
                }
            } else if is_hex(bytes[i + 1]) && is_hex(bytes[i + 2]) {
                let hi = hex_val(bytes[i + 1]);
                let lo = hex_val(bytes[i + 2]);
                out.push((hi * 16 + lo) as u8);
                assert(t.skip(3) == b.skip(i + 3));
                i = i + 3;
            } else {
                out.push(61);
                assert(t.skip(1) == b.skip(i + 1));
                i = i + 1;
            }
        } else {
            assert(t[0] == bytes@[i as int]);
            out.push(bytes[i]);
            assert(t.skip(1) == b.skip(i + 1));
            i = i + 1;
        }
    }
    assert(b.skip(i as int).len() == 0);
    string_from_utf8_lossy(&out)
}

fn is_hex(b: u8) -> (r: bool)
    ensures
        r == is_hex_byte(b),
{
    (48 <= b && b <= 57) || (65 <= b && b <= 70) || (97 <= b && b <= 102)
}

fn hex_val(b: u8) -> (v: u32)
    requires
        is_hex_byte(b),
    ensures
        v == hex_value(b),
        v < 16,
{
    if 48 <= b && b <= 57 {
        (b - 48) as u32
    } else if 65 <= b && b <= 70 {
        (b - 55) as u32
    } else {
        (b - 87) as u32
    }
}

/// Escape special characters in a vCard property value per RFC 2426 §5.
pub fn escape_value(s: &str) -> (r: String)
    ensures
        r@ == escape_text(s@),
{
    let cs = chars_of(s);
    let e = escape_text_chars(&cs);
    string_of(&e)
}

/// Unescape backslash-escaped characters in a vCard property value per RFC 2426 §5.
pub fn unescape_value(s: &str) -> (r: String)
    ensures
        r@ == unescape_text(s@, false),
{
    let cs = chars_of(s);
    let e = unescape_text_chars(&cs, false);
    string_of(&e)
}

/// Fold a vCard property line at 75 octets per RFC 6350 §3.2.
pub fn fold_line(line: &str) -> (r: String)
    ensures
        r@ == fold(line@),
{
    let cs = chars_of(line);
    let mut out: Vec<char> = Vec::new();
    fold_into(&cs, &mut out);
    string_of(&out)
}

/// The resource path for a contact inside an address book.
pub fn build_contact_href(addressbook_href: &str, contact_id: &str) -> (r: String)
    ensures
        r@ == contact_href(addressbook_href@, contact_id@),
{
    let a = chars_of(addressbook_href);
    let mut out = trim_end_char_chars(&a, '/');
    out.push('/');
    proof {
        reveal_strlit("/");
    }
    extend_str(&mut out, contact_id);
    extend_str(&mut out, ".vcf");
    string_of(&out)
}


/// Characters of an optional string.
fn opt_chars(o: &Option<String>) -> (r: Option<Vec<char>>)
    ensures
        match r {
            Some(v) => opt_view(*o) == Some(v@),
            None => opt_view(*o) is None,
        },
{
    match o {
        Some(s) => Some(chars_of(s.as_str())),
        None => None,
    }
}

/// `parts[lo..hi]` joined with single spaces.
fn join_words(parts: &Vec<Vec<char>>, lo: usize, hi: usize) -> (r: Vec<char>)
    requires
        lo <= hi <= parts.len(),
    ensures
        r@ == join(parts@.map_values(|l: Vec<char>| l@).subrange(lo as int, hi as int), " "@),
{
    let ghost pv = parts@.map_values(|l: Vec<char>| l@);
    let mut out: Vec<char> = Vec::new();
    proof {
        reveal_strlit(" ");
    }
    let mut k = lo;
    while k < hi
        invariant
            lo <= k <= hi <= parts.len(),
            pv == parts@.map_values(|l: Vec<char>| l@),
            out@ == join(pv.subrange(lo as int, k as int), " "@),
            " "@ == seq![' '],
        decreases hi - k,
    {
        let ghost prev = pv.subrange(lo as int, k as int);
        assert(pv.subrange(lo as int, k + 1).drop_last() == prev);
        assert(pv.subrange(lo as int, k + 1).last() == parts@[k as int]@);
        if k > lo {
            out.push(' ');
        } else {
            assert(pv.subrange(lo as int, k + 1).len() == 1);
        }
        extend_chars(&mut out, &parts[k]);
        k = k + 1;
    }
    out
}

/// The N line for a full name.
fn build_n_line(name: &Vec<char>) -> (r: Vec<char>)
    ensures
        r@ == n_line(name@),
{
    let t = split_words(name);
    let ghost tv = t@.map_values(|l: Vec<char>| l@);
    let mut out = chars_of("N:");
    let mut family: Vec<char> = Vec::new();
    let mut given: Vec<char> = Vec::new();
    let mut middle: Vec<char> = Vec::new();
    if t.len() == 1 {
        given = escape_text_chars(&t[0]);
    } else if t.len() == 2 {
        family = escape_text_chars(&t[1]);
        given = escape_text_chars(&t[0]);
    } else if t.len() > 2 {
        family = escape_text_chars(&t[t.len() - 1]);
        given = escape_text_chars(&t[0]);
        let m = join_words(&t, 1, t.len() - 1);
        middle = escape_text_chars(&m);
        assert(tv.last() == t@[t.len() - 1]@);
    }
    assert(family@ == n_components(name@).0 && given@ == n_components(name@).1 && middle@
        == n_components(name@).2) by {
        if t.len() == 0 {
            assert(escape_text(Seq::<char>::empty()) =~= Seq::<char>::empty());
        }
    }
    extend_chars(&mut out, &family);
    extend_str(&mut out, ";");
    extend_chars(&mut out, &given);
    extend_str(&mut out, ";");
    extend_chars(&mut out, &middle);
    extend_str(&mut out, ";;");
    out
}

/// A property line with an optional TYPE parameter.
fn build_typed_line(prop: &str, label: &Option<String>, value: &String) -> (r: Vec<char>)
    ensures
        r@ == typed_line(prop@, opt_view(*label), value@),
{
    let mut out = chars_of(prop);
    match label {
        Some(l) => {
            extend_str(&mut out, ";TYPE=");
            extend_str(&mut out, l.as_str());
        },
        None => {},
    }
    extend_str(&mut out, ":");
    extend_str(&mut out, value.as_str());
    out
}

/// `prop:escaped(value)`.
fn build_escaped_line(prop: &str, value: &String) -> (r: Vec<char>)
    ensures
        r@ == prop@ + ":"@ + escape_text(value@),
{
    let mut out = chars_of(prop);
    extend_str(&mut out, ":");
    let v = chars_of(value.as_str());
    let e = escape_text_chars(&v);
    extend_chars(&mut out, &e);
    out
}

/// Folding a concatenation folds each part.
pub proof fn lemma_fold_all_concat(a: Seq<Seq<char>>, b: Seq<Seq<char>>)
    ensures
        fold_all(a + b) == fold_all(a) + fold_all(b),
    decreases b.len(),
{
    if b.len() == 0 {
        assert(a + b == a);
        assert(fold_all(b) == Seq::<char>::empty());
    } else {
        lemma_fold_all_concat(a, b.drop_last());
        assert((a + b).drop_last() == a + b.drop_last());
        assert((a + b).last() == b.last());
    }
}

proof fn lemma_fold_all_one(l: Seq<char>)
    ensures
        fold_all(seq![l]) == fold(l),
{
    assert(seq![l].drop_last() == Seq::<Seq<char>>::empty());
    assert(fold_all(Seq::<Seq<char>>::empty()) == Seq::<char>::empty());
    assert(Seq::<char>::empty() + fold(l) == fold(l));
}

/// Appends the folded lines of a list of typed entries.
fn emit_emails(emails: &Vec<ContactEmail>, out: &mut Vec<char>)
    ensures
        final(out)@ == old(out)@ + fold_all(
            emails@.map_values(|e: ContactEmail| e@).map_values(
                |e: EmailModel| typed_line("EMAIL"@, e.label, e.email),
            ),
        ),
{
    let ghost start = out@;
    let ghost ms = emails@.map_values(|e: ContactEmail| e@);
    let ghost ef = |e: EmailModel| typed_line("EMAIL"@, e.label, e.email);
    for i in 0..emails.len()
        invariant
            ms == emails@.map_values(|e: ContactEmail| e@),
            ef == (|e: EmailModel| typed_line("EMAIL"@, e.label, e.email)),
            out@ == start + fold_all(ms.take(i as int).map_values(ef)),
    {
        let e = &emails[i];
        let line = build_typed_line("EMAIL", &e.label, &e.email);
        fold_into(&line, out);
        proof {
            assert(ms.take(i + 1).map_values(ef) =~= ms.take(i as int).map_values(ef).push(line@));
            assert(ms.take(i + 1).map_values(ef).drop_last() =~= ms.take(i as int).map_values(ef));
        }
    }
    assert(ms.take(emails.len() as int) == ms);
}

/// Appends the folded lines of a list of phone entries.
fn emit_phones(phones: &Vec<ContactPhone>, out: &mut Vec<char>)
    ensures
        final(out)@ == old(out)@ + fold_all(
            phones@.map_values(|p: ContactPhone| p@).map_values(
                |p: PhoneModel| typed_line("TEL"@, p.label, p.number),
            ),
        ),
{
    let ghost start = out@;
    let ghost ms = phones@.map_values(|p: ContactPhone| p@);
    let ghost pf = |p: PhoneModel| typed_line("TEL"@, p.label, p.number);
    for i in 0..phones.len()
        invariant
            ms == phones@.map_values(|p: ContactPhone| p@),
            pf == (|p: PhoneModel| typed_line("TEL"@, p.label, p.number)),
            out@ == start + fold_all(ms.take(i as int).map_values(pf)),
    {
        let p = &phones[i];
        let line = build_typed_line("TEL", &p.label, &p.number);
        fold_into(&line, out);
        proof {
            assert(ms.take(i + 1).map_values(pf) =~= ms.take(i as int).map_values(pf).push(line@));
            assert(ms.take(i + 1).map_values(pf).drop_last() =~= ms.take(i as int).map_values(pf));
        }
    }
    assert(ms.take(phones.len() as int) == ms);
}

/// Appends the folded line of an optional escaped property.
fn emit_optional(prop: &str, value: &Option<String>, out: &mut Vec<char>)
    ensures
        final(out)@ == old(out)@ + fold_all(opt_line(prop@, opt_view(*value))),
{
    match value {
        Some(v) => {
            let line = build_escaped_line(prop, v);
            fold_into(&line, out);
            proof {
                lemma_fold_all_one(line@);
            }
        },
        None => {
            assert(fold_all(Seq::<Seq<char>>::empty()) == Seq::<char>::empty());
            assert(out@ + Seq::<char>::empty() == out@);
        },
    }
}

/// Appends the folded ADR line, if there is a street address.
fn emit_address(address: &Option<String>, out: &mut Vec<char>)
    ensures
        final(out)@ == old(out)@ + fold_all(
            match opt_view(*address) {
                Some(street) => seq!["ADR:;;"@ + escape_text(street) + ";;;;;"@],
                None => seq![],
            },
        ),
{
    match address {
        Some(street) => {
            let mut line = chars_of("ADR:;;");
            let sv = chars_of(street.as_str());
            let e = escape_text_chars(&sv);
            extend_chars(&mut line, &e);
            extend_str(&mut line, ";;;;;");
            fold_into(&line, out);
            proof {
                lemma_fold_all_one(line@);
            }
        },
        None => {
            assert(fold_all(Seq::<Seq<char>>::empty()) == Seq::<char>::empty());
            assert(out@ + Seq::<char>::empty() == out@);
        },
    }
}

/// Appends the five fixed leading lines.
fn emit_head(contact: &Contact, out: &mut Vec<char>)
    ensures
        final(out)@ == old(out)@ + fold_all(
            seq![
                "BEGIN:VCARD"@,
                "VERSION:3.0"@,
                "UID:"@ + contact.id@,
                "FN:"@ + escape_text(contact.name@),
                n_line(contact.name@),
            ],
        ),
{
    let ghost start = out@;
    let l1 = chars_of("BEGIN:VCARD");
    fold_into(&l1, out);
    let l2 = chars_of("VERSION:3.0");
    fold_into(&l2, out);
    let mut l3 = chars_of("UID:");
    extend_str(&mut l3, contact.id.as_str());
    fold_into(&l3, out);
    let l4 = build_escaped_line("FN", &contact.name);
    fold_into(&l4, out);
    let name = chars_of(contact.name.as_str());
    let l5 = build_n_line(&name);
    fold_into(&l5, out);
    proof {
        reveal_strlit("FN");
        reveal_strlit(":");
        reveal_strlit("FN:");
        assert("FN"@ + ":"@ =~= "FN:"@);
        let ls = seq![l1@, l2@, l3@, l4@, l5@];
        let s1 = seq![l1@];
        let s2 = seq![l1@, l2@];
        let s3 = seq![l1@, l2@, l3@];
        let s4 = seq![l1@, l2@, l3@, l4@];
        lemma_fold_all_one(l1@);
        assert(s2.drop_last() =~= s1);
        assert(fold_all(s2) == fold_all(s1) + fold(l2@));
        assert(s3.drop_last() =~= s2);
        assert(fold_all(s3) == fold_all(s2) + fold(l3@));
        assert(s4.drop_last() =~= s3);
        assert(fold_all(s4) == fold_all(s3) + fold(l4@));
        assert(ls.drop_last() =~= s4);
        assert(fold_all(ls) == fold_all(s4) + fold(l5@));
        assert(out@ =~= start + fold_all(ls));
    }
}

/// Serialize a Contact to a vCard 3.0 string: CRLF line endings, lines folded
/// at 75 octets, TEXT values escaped; the contact's `id` is the UID.
pub fn serialize_vcard(contact: &Contact) -> (r: String)
    ensures
        r@ == vcard_text(contact@),
{
    let ghost c = contact@;
    let mut out: Vec<char> = Vec::new();
    emit_head(contact, &mut out);
    emit_emails(&contact.emails, &mut out);
    emit_phones(&contact.phones, &mut out);
    emit_optional("ORG", &contact.organization, &mut out);
    emit_optional("TITLE", &contact.title, &mut out);
    emit_address(&contact.address, &mut out);
    emit_optional("NOTE", &contact.notes, &mut out);
    let le = chars_of("END:VCARD");
    fold_into(&le, &mut out);
    proof {
        let a = seq!["BEGIN:VCARD"@, "VERSION:3.0"@, "UID:"@ + c.id, "FN:"@ + escape_text(c.name), n_line(c.name)];
        let b = c.emails.map_values(|e: EmailModel| typed_line("EMAIL"@, e.label, e.email));
        let d = c.phones.map_values(|p: PhoneModel| typed_line("TEL"@, p.label, p.number));
        let e1 = opt_line("ORG"@, c.organization);
        let e2 = opt_line("TITLE"@, c.title);
        let e3 = match c.address {
            Some(street) => seq!["ADR:;;"@ + escape_text(street) + ";;;;;"@],
            None => seq![],
        };
        let e4 = opt_line("NOTE"@, c.notes);
        let e5 = seq!["END:VCARD"@];
        lemma_fold_all_concat(a, b);
        lemma_fold_all_concat(a + b, d);
        lemma_fold_all_concat(a + b + d, e1);
        lemma_fold_all_concat(a + b + d + e1, e2);
        lemma_fold_all_concat(a + b + d + e1 + e2, e3);
        lemma_fold_all_concat(a + b + d + e1 + e2 + e3, e4);
        lemma_fold_all_concat(a + b + d + e1 + e2 + e3 + e4, e5);
        lemma_fold_all_one(le@);
        assert(vcard_lines(c) == a + b + d + e1 + e2 + e3 + e4 + e5);
    }
    string_of(&out)
}


/// Characters of an optional character vector.
pub open spec fn opt_chars_view(o: Option<Vec<char>>) -> Option<Seq<char>> {
    match o {
        Some(v) => Some(v@),
        None => None,
    }
}

/// Fields collected while reading a vCard (executable form of `VcardFields`).
struct VcardAccum {
    id: Vec<char>,
    name: Vec<char>,
    emails: Vec<ContactEmail>,
    phones: Vec<ContactPhone>,
    organization: Option<Vec<char>>,
    title: Option<Vec<char>>,
    notes: Option<Vec<char>>,
    address: Option<Vec<char>>,
}

impl View for VcardAccum {
    type V = VcardFields;

    closed spec fn view(&self) -> VcardFields {
        VcardFields {
            id: self.id@,
            name: self.name@,
            emails: self.emails@.map_values(|e: ContactEmail| e@),
            phones: self.phones@.map_values(|p: ContactPhone| p@),
            organization: opt_chars_view(self.organization),
            title: opt_chars_view(self.title),
            notes: opt_chars_view(self.notes),
            address: opt_chars_view(self.address),
        }
    }
}

/// The value of a property line (see `property_value`).
fn property_value_of(t: &Vec<char>) -> (r: Vec<char>)
    ensures
        r@ == property_value(t@),
{
    let value = match split_once_char(t, ':') {
        Some((_, v)) => v,
        None => Vec::new(),
    };
    let ts = string_of(t);
    let upper = to_uppercase(ts.as_str());
    let uc = chars_of(upper.as_str());
    if contains(&uc, "ENCODING=QUOTED-PRINTABLE") {
        let vs = string_of(&value);
        let d = decode_qp(vs.as_str());
        chars_of(d.as_str())
    } else {
        unescape_text_chars(&value, false)
    }
}

/// The TYPE parameter of a line (see `type_label`).
fn type_label_of(t: &Vec<char>) -> (r: Option<Vec<char>>)
    ensures
        opt_chars_view(r) == type_label(t@),
{
    let pat = chars_of("TYPE=");
    proof {
        reveal_strlit("TYPE=");
    }
    match find_from(t, 0, &pat) {
        Some(i) => {
            assert(t@.skip(0) == t@);
            proof {
                crate::text::lemma_find_seq(t@, pat@);
            }
            assert(pat@.len() == 5);
            assert(find_seq(t@, pat@) == Some(i as int));
            assert(crate::text::occurs_at(t@, pat@, i as int));
            let n = t.len();
            assert(i + 5 <= n);
            let start = i + 5;
            let seg = match find_from(t, start, &pat) {
                Some(j) => {
                    proof {
                        crate::text::lemma_find_seq(t@.skip(start as int), pat@);
                    }
                    let s1 = slice_chars(t, start, j);
                    assert(s1@ == t@.skip(start as int).take(j - start));
                    s1
                },
                None => {
                    let s2 = slice_chars(t, start, t.len());
                    assert(s2@ == t@.skip(start as int));
                    s2
                },
            };
            Some(before_first_char(&seg, ':'))
        },
        None => {
            assert(t@.skip(0) == t@);
            None
        },
    }
}

/// Records an e-mail or phone line.
fn apply_typed(acc: &mut VcardAccum, t: &Vec<char>, is_email: bool)
    ensures
        final(acc)@ == (if is_email {
            let e = after_last(t@, ':');
            if e.len() > 0 {
                VcardFields { emails: old(acc)@.emails.push(EmailModel { email: e, label: type_label(t@) }), ..old(acc)@ }
            } else {
                old(acc)@
            }
        } else {
            let n = after_last(t@, ':');
            if n.len() > 0 {
                VcardFields { phones: old(acc)@.phones.push(PhoneModel { number: n, label: type_label(t@) }), ..old(acc)@ }
            } else {
                old(acc)@
            }
        }),
{
    let v = after_last_char(t, ':');
    if v.len() > 0 {
        let label = type_label_of(t);
        let ls: Option<String> = match label {
            Some(l) => Some(string_of(&l)),
            None => None,
        };
        let vs = string_of(&v);
        if is_email {
            let ghost before = acc.emails@;
            acc.emails.push(ContactEmail { email: vs, label: ls });
            assert(acc.emails@.map_values(|e: ContactEmail| e@) =~= before.map_values(
                |e: ContactEmail| e@,
            ).push(EmailModel { email: v@, label: type_label(t@) }));
        } else {
            let ghost before = acc.phones@;
            acc.phones.push(ContactPhone { number: vs, label: ls });
            assert(acc.phones@.map_values(|p: ContactPhone| p@) =~= before.map_values(
                |p: ContactPhone| p@,
            ).push(PhoneModel { number: v@, label: type_label(t@) }));
        }
    }
}

/// Records an ADR line.
fn apply_address(acc: &mut VcardAccum, t: &Vec<char>)
    ensures
        final(acc)@ == ({
            let parts = split_on(property_value(t@), ';');
            if parts.len() > 2 && trim(parts[2]).len() > 0 {
                VcardFields { address: Some(trim(parts[2])), ..old(acc)@ }
            } else {
                old(acc)@
            }
        }),
{
    let value = property_value_of(t);
    let parts = split_chars(&value, ';');
    if parts.len() > 2 {
        let street = trim_chars(&parts[2]);
        if street.len() > 0 {
            acc.address = Some(street);
        }
    }
}

/// Effect of one unfolded line on the collected fields (see `vcard_step`).
fn apply_vcard_line(acc: &mut VcardAccum, line: &Vec<char>)
    ensures
        final(acc)@ == vcard_step(old(acc)@, line@),
{
    let t = trim_chars(line);
    let colon = find_char(&t, ':').is_some();
    if starts_with(&t, "UID") && colon {
        acc.id = property_value_of(&t);
    } else if starts_with(&t, "FN") && colon {
        acc.name = property_value_of(&t);
    } else if starts_with(&t, "EMAIL") {
        apply_typed(acc, &t, true);
    } else if starts_with(&t, "TEL") {
        apply_typed(acc, &t, false);
    } else if starts_with(&t, "ORG") && colon {
        acc.organization = Some(property_value_of(&t));
    } else if starts_with(&t, "TITLE") && colon {
        acc.title = Some(property_value_of(&t));
    } else if starts_with(&t, "NOTE") && colon {
        acc.notes = Some(property_value_of(&t));
    } else if starts_with(&t, "ADR") && colon {
        apply_address(acc, &t);
    }
}

/// Parse a vCard string into a Contact: `None` unless it has a full name (FN).
pub fn parse_vcard(vcard_str: &str, href: Option<String>, etag: Option<String>) -> (r: Option<Contact>)
    ensures
        match r {
            Some(c) => vcard_contact(vcard_str@, opt_view(href), opt_view(etag)) == Some(c@),
            None => vcard_contact(vcard_str@, opt_view(href), opt_view(etag)) is None,
        },
{
    let raw = chars_of(vcard_str);
    let unfolded = unfold_chars(&raw);
    let ls = split_lines(&unfolded);
    let ghost lv = ls@.map_values(|l: Vec<char>| l@);
    let mut acc = VcardAccum {
        id: Vec::new(),
        name: Vec::new(),
        emails: Vec::new(),
        phones: Vec::new(),
        organization: None,
        title: None,
        notes: None,
        address: None,
    };
    assert(acc.emails@.map_values(|e: ContactEmail| e@) =~= Seq::<EmailModel>::empty());
    assert(acc.phones@.map_values(|p: ContactPhone| p@) =~= Seq::<PhoneModel>::empty());
    assert(acc@ =~= vcard_scan(lv.take(0)));
    for i in 0..ls.len()
        invariant
            lv == ls@.map_values(|l: Vec<char>| l@),
            acc@ == vcard_scan(lv.take(i as int)),
    {
        apply_vcard_line(&mut acc, &ls[i]);
        assert(lv.take(i + 1).drop_last() == lv.take(i as int));
    }
    assert(lv.take(ls.len() as int) == lv);
    if acc.name.len() == 0 {
        return None;
    }
    let name = string_of(&acc.name);
    let id = if acc.id.len() == 0 {
        let h = hash_id(name.as_str());
        let hx = hex_chars(h);
        string_of(&hx)
    } else {
        string_of(&acc.id)
    };
    let c = Contact {
        id,
        name,
        emails: acc.emails,
        phones: acc.phones,
        organization: opt_string(acc.organization),
        title: opt_string(acc.title),
        notes: opt_string(acc.notes),
        address: opt_string(acc.address),
        href,
        etag,
    };
    Some(c)
}

/// An optional `String` from optional characters.
pub fn opt_string(o: Option<Vec<char>>) -> (r: Option<String>)
    ensures
        opt_view(r) == opt_chars_view(o),
{
    match o {
        Some(v) => Some(string_of(&v)),
        None => None,
    }
}
} // verus!
