//! Reading a written vCard back: the text that `serialize_vcard` writes for a
//! contact is read by `parse_vcard` as the same contact.
use vstd::prelude::*;
use vstd::seq_lib::lemma_flatten_concat;
use crate::carddav::vcard::{
    n_components, n_line, opt_line, property_value, type_label, typed_line, unicode_upper, vcard_contact,
    vcard_lines, vcard_scan, vcard_step, vcard_text, VcardFields,
};
use crate::carddav::{ContactModel, EmailModel, PhoneModel};
use crate::folding::{
    content_line, escape_char, escape_text, lemma_escape_text_empty, lemma_escape_text_end,
    lemma_escape_text_single_line, lemma_lines_of_folded, lemma_unescape_plain_then, text_end_ok,
    unescape_text, unescaped, unfold,
};
use crate::text::{
    after_last, contains_seq, find_seq, first_index_of, is_whitespace, lemma_find_seq, lemma_first_index_of,
    lemma_first_index_of_unique, lemma_last_index_of_unique, lemma_literal_single_line, lemma_not_prefix,
    lemma_prefix_of_concat, lemma_single_line_concat, lemma_trim_keeps_prefix, lemma_trim_plain, lines,
    occurs_at, single_line, split_on, strip_cr, trim,
};

verus! {

// ===================== What reads back =====================

/// An e-mail address or phone number, written raw after the property name,
/// reads back unchanged: it stays on one line, is not empty, holds no `:` and
/// no `TYPE=`, and does not end in whitespace.
pub open spec fn raw_value_ok(v: Seq<char>) -> bool {
    &&& single_line(v)
    &&& v.len() > 0
    &&& !v.contains(':')
    &&& !contains_seq(v, "TYPE="@)
    &&& !is_whitespace(v.last())
}

/// A TYPE label reads back unchanged: it stays on one line and holds no `:`
/// and no `TYPE=`.
pub open spec fn label_ok(label: Option<Seq<char>>) -> bool {
    match label {
        Some(l) => single_line(l) && !l.contains(':') && !contains_seq(l, "TYPE="@),
        None => true,
    }
}


/// A property line that the reader does not take for quoted-printable.
pub open spec fn not_quoted_printable(line: Seq<char>) -> bool {
    !contains_seq(unicode_upper(line), "ENCODING=QUOTED-PRINTABLE"@)
}

/// An optional text property that reads back unchanged.
pub open spec fn opt_text_ok(prop: Seq<char>, value: Option<Seq<char>>) -> bool {
    match value {
        Some(v) => text_end_ok(v) && not_quoted_printable(prop + ":"@ + escape_text(v)),
        None => true,
    }
}

/// A street that reads back unchanged from the third ADR component: not
/// empty, already trimmed, without `;`.
pub open spec fn address_ok(address: Option<Seq<char>>) -> bool {
    match address {
        Some(s) => {
            &&& s.len() > 0
            &&& trim(s) == s
            &&& !s.contains(';')
            &&& not_quoted_printable("ADR:;;"@ + escape_text(s) + ";;;;;"@)
        },
        None => true,
    }
}

/// A contact whose vCard reads back as the same contact.
pub open spec fn vcard_readable(c: ContactModel) -> bool {
    &&& single_line(c.id)
    &&& c.name.len() > 0
    &&& text_end_ok(c.name)
    &&& not_quoted_printable("FN:"@ + escape_text(c.name))
    &&& forall|i: int|
        0 <= i < c.emails.len() ==> raw_value_ok(#[trigger] c.emails[i].email) && label_ok(c.emails[i].label)
    &&& forall|i: int|
        0 <= i < c.phones.len() ==> raw_value_ok(#[trigger] c.phones[i].number) && label_ok(c.phones[i].label)
    &&& opt_text_ok("ORG"@, c.organization)
    &&& opt_text_ok("TITLE"@, c.title)
    &&& opt_text_ok("NOTE"@, c.notes)
    &&& address_ok(c.address)
}

// ===================== Text facts =====================





/// An occurrence of `p` does not cover a position whose character `p` lacks.
proof fn lemma_occurrence_avoids(s: Seq<char>, p: Seq<char>, j: int, m: int)
    requires
        occurs_at(s, p, j),
        0 <= m < s.len(),
        !p.contains(s[m]),
    ensures
        m < j || j + p.len() <= m,
{
    if j <= m < j + p.len() {
        assert(s.subrange(j, j + p.len())[m - j] == s[m]);
        assert(p[m - j] == s[m]);
    }
}

/// No occurrence of `p` in `x + [c] + y` when `p` lacks `c` and occurs in neither part.
proof fn lemma_no_occurrence_around(x: Seq<char>, c: char, y: Seq<char>, p: Seq<char>)
    requires
        !p.contains(c),
        !contains_seq(x, p),
        !contains_seq(y, p),
    ensures
        !contains_seq(x + seq![c] + y, p),
{
    let s = x + seq![c] + y;
    assert forall|j: int| !occurs_at(s, p, j) by {
        if occurs_at(s, p, j) {
            assert(s[x.len() as int] == c);
            lemma_occurrence_avoids(s, p, j, x.len() as int);
            if j + p.len() <= x.len() {
                assert(s.subrange(j, j + p.len()) =~= x.subrange(j, j + p.len()));
                assert(occurs_at(x, p, j));
            } else {
                let j2 = j - x.len() - 1;
                assert(s.subrange(j, j + p.len()) =~= y.subrange(j2, j2 + p.len()));
                assert(occurs_at(y, p, j2));
            }
        }
    }
}




/// Unescaping an escaped text followed by more text gives the text back
/// followed by the unescaped rest.
proof fn lemma_unescape_escape_then(s: Seq<char>, y: Seq<char>, upper_n: bool)
    ensures
        unescape_text(escape_text(s) + y, upper_n) == s + unescape_text(y, upper_n),
    decreases s.len(),
{
    if s.len() == 0 {
        lemma_escape_text_empty();
        assert(escape_text(s) + y =~= y);
        assert(s + unescape_text(y, upper_n) =~= unescape_text(y, upper_n));
    } else {
        let rest = s.skip(1);
        assert(s =~= seq![s[0]].add(rest));
        assert(escape_text(s) == escape_char(s[0]) + escape_text(rest)) by {
            let f = |x: char| escape_char(x);
            assert(s.map_values(f) =~= seq![escape_char(s[0])] + rest.map_values(f));
            lemma_flatten_concat(seq![escape_char(s[0])], rest.map_values(f));
            seq![escape_char(s[0])].lemma_flatten_one_element();
        }
        lemma_unescape_escape_then(rest, y, upper_n);
        let e = escape_char(s[0]);
        let t = e + escape_text(rest) + y;
        assert(t =~= e + (escape_text(rest) + y));
        if e.len() == 2 {
            assert(t.skip(2) =~= escape_text(rest) + y);
            assert(unescaped(e[1], upper_n) == Some(s[0]));
        } else {
            assert(t.skip(1) =~= escape_text(rest) + y);
        }
        assert(s + unescape_text(y, upper_n) =~= seq![s[0]] + (rest + unescape_text(y, upper_n)));
    }
}


// ===================== Reading lines one after another =====================

/// The fields collected from more lines, starting from given fields.
pub open spec fn scan_more(a: VcardFields, ls: Seq<Seq<char>>) -> VcardFields
    decreases ls.len(),
{
    if ls.len() == 0 {
        a
    } else {
        vcard_step(scan_more(a, ls.drop_last()), ls.last())
    }
}

proof fn lemma_scan_more_concat(a: VcardFields, x: Seq<Seq<char>>, y: Seq<Seq<char>>)
    ensures
        scan_more(a, x + y) == scan_more(scan_more(a, x), y),
    decreases y.len(),
{
    if y.len() == 0 {
        assert(x + y =~= x);
    } else {
        lemma_scan_more_concat(a, x, y.drop_last());
        assert((x + y).drop_last() =~= x + y.drop_last());
        assert((x + y).last() == y.last());
    }
}

proof fn lemma_vcard_scan_more(ls: Seq<Seq<char>>)
    ensures
        vcard_scan(ls) == scan_more(vcard_scan(Seq::<Seq<char>>::empty()), ls),
    decreases ls.len(),
{
    if ls.len() > 0 {
        lemma_vcard_scan_more(ls.drop_last());
    }
}


// ===================== One line at a time =====================

/// No property name that the reader looks for starts the line.
spec fn no_keyword(t: Seq<char>) -> bool {
    &&& !"UID"@.is_prefix_of(t)
    &&& !"FN"@.is_prefix_of(t)
    &&& !"EMAIL"@.is_prefix_of(t)
    &&& !"TEL"@.is_prefix_of(t)
    &&& !"ORG"@.is_prefix_of(t)
    &&& !"TITLE"@.is_prefix_of(t)
    &&& !"NOTE"@.is_prefix_of(t)
    &&& !"ADR"@.is_prefix_of(t)
}

/// A line that names no property the reader looks for changes nothing.
proof fn lemma_step_other(a: VcardFields, t: Seq<char>)
    requires
        trim(t) == t,
        no_keyword(t),
    ensures
        vcard_step(a, t) == a,
{
}

/// The fixed lines (BEGIN, VERSION, END) and the N line change nothing.
proof fn lemma_fixed_lines(a: VcardFields, n: Seq<char>)
    requires
        n.len() > 2,
        n[0] == 'N',
        n[1] == ':',
        trim(n) == n,
    ensures
        vcard_step(a, "BEGIN:VCARD"@) == a,
        vcard_step(a, "VERSION:3.0"@) == a,
        vcard_step(a, "END:VCARD"@) == a,
        vcard_step(a, n) == a,
{
    reveal_strlit("BEGIN:VCARD");
    reveal_strlit("VERSION:3.0");
    reveal_strlit("END:VCARD");
    reveal_strlit("UID");
    reveal_strlit("FN");
    reveal_strlit("EMAIL");
    reveal_strlit("TEL");
    reveal_strlit("ORG");
    reveal_strlit("TITLE");
    reveal_strlit("NOTE");
    reveal_strlit("ADR");
    let b = "BEGIN:VCARD"@;
    let v = "VERSION:3.0"@;
    let e = "END:VCARD"@;
    lemma_trim_plain(b);
    lemma_trim_plain(v);
    lemma_trim_plain(e);
    let keys = seq!["UID"@, "FN"@, "EMAIL"@, "TEL"@, "ORG"@, "TITLE"@, "NOTE"@, "ADR"@];
    assert forall|i: int| 0 <= i < keys.len() implies !(#[trigger] keys[i]).is_prefix_of(b)
        && !keys[i].is_prefix_of(v) && !keys[i].is_prefix_of(n) by {
        lemma_not_prefix(keys[i], b, 0);
        lemma_not_prefix(keys[i], v, 0);
        if keys[i][0] == 'N' {
            lemma_not_prefix(keys[i], n, 1);
        } else {
            lemma_not_prefix(keys[i], n, 0);
        }
    }
    assert forall|i: int| 0 <= i < keys.len() implies !(#[trigger] keys[i]).is_prefix_of(e) by {
        if keys[i][0] == 'E' {
            lemma_not_prefix(keys[i], e, 1);
        } else {
            lemma_not_prefix(keys[i], e, 0);
        }
    }
    assert(keys[0] == "UID"@ && keys[1] == "FN"@ && keys[2] == "EMAIL"@ && keys[3] == "TEL"@);
    assert(keys[4] == "ORG"@ && keys[5] == "TITLE"@ && keys[6] == "NOTE"@ && keys[7] == "ADR"@);
    lemma_step_other(a, b);
    lemma_step_other(a, v);
    lemma_step_other(a, e);
    lemma_step_other(a, n);
}

/// A line `key:escaped` is its own trim, has its first `:` after the key, and
/// its value reads back as the unescaped text.
proof fn lemma_text_line(key: Seq<char>, v: Seq<char>)
    requires
        key.len() > 0,
        !key.contains(':'),
        !is_whitespace(key[0]),
        text_end_ok(v),
        not_quoted_printable(key + ":"@ + escape_text(v)),
    ensures
        ({
            let t = key + ":"@ + escape_text(v);
            &&& t.len() > 0
            &&& !is_whitespace(t.last())
            &&& trim(t) == t
            &&& first_index_of(t, ':') == Some(key.len() as int)
            &&& property_value(t) == v
            &&& key.is_prefix_of(t)
        }),
{
    reveal_strlit(":");
    let e = escape_text(v);
    let t = key + ":"@ + e;
    if v.len() > 0 {
        lemma_escape_text_end(v);
        assert(t.last() == e.last());
    } else {
        lemma_escape_text_empty();
        assert(t.last() == ':');
    }
    assert(t[0] == key[0]);
    lemma_trim_plain(t);
    assert forall|j: int| 0 <= j < key.len() implies t[j] != ':' by {
        assert(t[j] == key[j]);
        if key[j] == ':' {
            assert(key.contains(':'));
        }
    }
    lemma_first_index_of_unique(t, ':', key.len() as int);
    assert(t.skip(key.len() as int + 1) =~= e);
    crate::folding::lemma_unescape_escape(v, false);
    assert(t =~= key + (":"@ + e));
    lemma_prefix_of_concat(key, ":"@ + e);
}

proof fn lemma_literal_no_type(key: Seq<char>)
    requires
        key.len() <= 5,
        key.len() > 0,
        key[0] != 'T' || key.len() < 5,
    ensures
        !contains_seq(key, "TYPE="@),
{
    reveal_strlit("TYPE=");
    assert forall|j: int| !occurs_at(key, "TYPE="@, j) by {
        if occurs_at(key, "TYPE="@, j) {
            assert(j == 0);
            assert(key.subrange(0, 5)[0] == key[0]);
        }
    }
}

/// A line `key[;TYPE=label]:value` is its own trim, starts with the key, and
/// reads back its value and its label.
#[verifier::spinoff_prover]
#[verifier::rlimit(40)]
proof fn lemma_typed_line(key: Seq<char>, label: Option<Seq<char>>, v: Seq<char>)
    requires
        key.len() > 0,
        !key.contains(':'),
        !key.contains(';'),
        !contains_seq(key, "TYPE="@),
        !is_whitespace(key[0]),
        raw_value_ok(v),
        label_ok(label),
    ensures
        ({
            let t = crate::carddav::vcard::typed_line(key, label, v);
            &&& t.len() > 0
            &&& !is_whitespace(t.last())
            &&& trim(t) == t
            &&& key.is_prefix_of(t)
            &&& after_last(t, ':') == v
            &&& type_label(t) == label
        }),
{
    reveal_strlit(":");
    reveal_strlit(";TYPE=");
    reveal_strlit("TYPE=");
    let p = "TYPE="@;
    let t = crate::carddav::vcard::typed_line(key, label, v);
    assert(t.last() == v.last());
    assert(t[0] == key[0]);
    lemma_trim_plain(t);
    // the value follows the last colon
    let idx = t.len() - v.len() - 1;
    assert(t[idx] == ':');
    assert forall|j: int| idx < j < t.len() implies t[j] != ':' by {
        assert(t[j] == v[j - idx - 1]);
        if v[j - idx - 1] == ':' {
            assert(v.contains(':'));
        }
    }
    lemma_last_index_of_unique(t, ':', idx);
    assert(t.skip(idx + 1) =~= v);
    match label {
        Some(l) => {
            assert(t =~= key + (";TYPE="@ + l + ":"@ + v));
            lemma_prefix_of_concat(key, ";TYPE="@ + l + ":"@ + v);
            let i0: int = key.len() as int + 1;
            assert(t.subrange(i0, i0 + 5) =~= p);
            assert(occurs_at(t, p, i0));
            assert forall|j: int| 0 <= j < i0 implies !occurs_at(t, p, j) by {
                if occurs_at(t, p, j) {
                    assert(t[key.len() as int] == ';');
                    lemma_occurrence_avoids(t, p, j, key.len() as int);
                    assert(t.subrange(j, j + 5) =~= key.subrange(j, j + 5));
                    assert(occurs_at(key, p, j));
                }
            }
            lemma_find_seq(t, p);
            assert(find_seq(t, p) == Some(i0));
            let rest = t.skip(i0 + 5);
            assert(rest =~= l + seq![':'] + v);
            lemma_no_occurrence_around(l, ':', v, p);
            lemma_find_seq(rest, p);
            assert(find_seq(rest, p) is None);
            assert forall|j: int| 0 <= j < l.len() implies rest[j] != ':' by {
                assert(rest[j] == l[j]);
                if l[j] == ':' {
                    assert(l.contains(':'));
                }
            }
            lemma_first_index_of_unique(rest, ':', l.len() as int);
            assert(rest.take(l.len() as int) =~= l);
        },
        None => {
            assert(t =~= key + seq![':'] + v);
            assert(t =~= key + (seq![':'] + v));
            lemma_prefix_of_concat(key, seq![':'] + v);
            lemma_no_occurrence_around(key, ':', v, p);
            lemma_find_seq(t, p);
        },
    }
}

/// The UID line sets the ID and nothing else.
proof fn lemma_step_uid(a: VcardFields, id: Seq<char>)
    ensures
        vcard_step(a, strip_cr("UID:"@ + id)) == (VcardFields {
            id: property_value(trim(strip_cr("UID:"@ + id))),
            ..a
        }),
{
    reveal_strlit("UID:");
    reveal_strlit("UID");
    let y = "UID:"@ + id;
    let x = strip_cr(y);
    let p = "UID:"@;
    if y.last() == '\r' {
        assert(id.len() > 0);
        assert(x =~= y.drop_last());
    }
    assert(x.len() >= 4);
    assert(x.subrange(0, 4) =~= p);
    lemma_trim_keeps_prefix(p, x);
    let t = trim(x);
    assert(t.subrange(0, 3) =~= "UID"@);
    assert(t.subrange(0, 4)[3] == t[3]);
    assert(t[3] == ':');
    lemma_first_index_of(t, ':');
}

/// The FN line sets the name.
proof fn lemma_step_fn(a: VcardFields, name: Seq<char>)
    requires
        text_end_ok(name),
        not_quoted_printable("FN:"@ + escape_text(name)),
    ensures
        vcard_step(a, "FN:"@ + escape_text(name)) == (VcardFields { name, ..a }),
{
    reveal_strlit("FN:");
    reveal_strlit("FN");
    reveal_strlit(":");
    reveal_strlit("UID");
    assert("FN:"@ =~= "FN"@ + ":"@);
    let t = "FN"@ + ":"@ + escape_text(name);
    assert(t =~= "FN:"@ + escape_text(name));
    lemma_text_line("FN"@, name);
    lemma_not_prefix("UID"@, t, 0);
}

/// An EMAIL line appends the address with its label.
proof fn lemma_step_email(a: VcardFields, e: EmailModel)
    requires
        raw_value_ok(e.email),
        label_ok(e.label),
    ensures
        vcard_step(a, crate::carddav::vcard::typed_line("EMAIL"@, e.label, e.email)) == (VcardFields {
            emails: a.emails.push(e),
            ..a
        }),
{
    reveal_strlit("EMAIL");
    reveal_strlit("UID");
    reveal_strlit("FN");
    let key = "EMAIL"@;
    lemma_literal_no_type(key);
    assert(!key.contains(':') && !key.contains(';'));
    lemma_typed_line(key, e.label, e.email);
    let t = crate::carddav::vcard::typed_line(key, e.label, e.email);
    lemma_not_prefix("UID"@, t, 0);
    lemma_not_prefix("FN"@, t, 0);
}

/// A TEL line appends the number with its label.
proof fn lemma_step_tel(a: VcardFields, ph: PhoneModel)
    requires
        raw_value_ok(ph.number),
        label_ok(ph.label),
    ensures
        vcard_step(a, crate::carddav::vcard::typed_line("TEL"@, ph.label, ph.number)) == (VcardFields {
            phones: a.phones.push(ph),
            ..a
        }),
{
    reveal_strlit("TEL");
    reveal_strlit("UID");
    reveal_strlit("FN");
    reveal_strlit("EMAIL");
    let key = "TEL"@;
    lemma_literal_no_type(key);
    assert(!key.contains(':') && !key.contains(';'));
    lemma_typed_line(key, ph.label, ph.number);
    let t = crate::carddav::vcard::typed_line(key, ph.label, ph.number);
    lemma_not_prefix("UID"@, t, 0);
    lemma_not_prefix("FN"@, t, 0);
    lemma_not_prefix("EMAIL"@, t, 0);
}

/// The ORG line sets the organization.
proof fn lemma_step_org(a: VcardFields, v: Seq<char>)
    requires
        opt_text_ok("ORG"@, Some(v)),
    ensures
        vcard_step(a, "ORG"@ + ":"@ + escape_text(v)) == (VcardFields { organization: Some(v), ..a }),
{
    reveal_strlit("ORG");
    reveal_strlit("UID");
    reveal_strlit("FN");
    reveal_strlit("EMAIL");
    reveal_strlit("TEL");
    let t = "ORG"@ + ":"@ + escape_text(v);
    lemma_text_line("ORG"@, v);
    lemma_not_prefix("UID"@, t, 0);
    lemma_not_prefix("FN"@, t, 0);
    lemma_not_prefix("EMAIL"@, t, 0);
    lemma_not_prefix("TEL"@, t, 0);
}

/// The TITLE line sets the title.
proof fn lemma_step_title(a: VcardFields, v: Seq<char>)
    requires
        opt_text_ok("TITLE"@, Some(v)),
    ensures
        vcard_step(a, "TITLE"@ + ":"@ + escape_text(v)) == (VcardFields { title: Some(v), ..a }),
{
    reveal_strlit("TITLE");
    reveal_strlit("UID");
    reveal_strlit("FN");
    reveal_strlit("EMAIL");
    reveal_strlit("TEL");
    reveal_strlit("ORG");
    let t = "TITLE"@ + ":"@ + escape_text(v);
    lemma_text_line("TITLE"@, v);
    lemma_not_prefix("UID"@, t, 0);
    lemma_not_prefix("FN"@, t, 0);
    lemma_not_prefix("EMAIL"@, t, 0);
    lemma_not_prefix("TEL"@, t, 1);
    lemma_not_prefix("ORG"@, t, 0);
}

/// The NOTE line sets the notes.
proof fn lemma_step_note(a: VcardFields, v: Seq<char>)
    requires
        opt_text_ok("NOTE"@, Some(v)),
    ensures
        vcard_step(a, "NOTE"@ + ":"@ + escape_text(v)) == (VcardFields { notes: Some(v), ..a }),
{
    reveal_strlit("NOTE");
    reveal_strlit("UID");
    reveal_strlit("FN");
    reveal_strlit("EMAIL");
    reveal_strlit("TEL");
    reveal_strlit("ORG");
    reveal_strlit("TITLE");
    let t = "NOTE"@ + ":"@ + escape_text(v);
    lemma_text_line("NOTE"@, v);
    lemma_not_prefix("UID"@, t, 0);
    lemma_not_prefix("FN"@, t, 0);
    lemma_not_prefix("EMAIL"@, t, 0);
    lemma_not_prefix("TEL"@, t, 0);
    lemma_not_prefix("ORG"@, t, 0);
    lemma_not_prefix("TITLE"@, t, 0);
}

/// The ADR line sets the street from its third component.
proof fn lemma_step_adr(a: VcardFields, street: Seq<char>)
    requires
        address_ok(Some(street)),
    ensures
        vcard_step(a, "ADR:;;"@ + escape_text(street) + ";;;;;"@) == (VcardFields {
            address: Some(street),
            ..a
        }),
{
    reveal_strlit("ADR:;;");
    reveal_strlit(";;;;;");
    reveal_strlit(";;");
    reveal_strlit("ADR");
    reveal_strlit("UID");
    reveal_strlit("FN");
    reveal_strlit("EMAIL");
    reveal_strlit("TEL");
    reveal_strlit("ORG");
    reveal_strlit("TITLE");
    reveal_strlit("NOTE");
    let e = escape_text(street);
    let t = "ADR:;;"@ + e + ";;;;;"@;
    assert(t.last() == ';');
    assert(t[0] == 'A');
    lemma_trim_plain(t);
    assert(t.subrange(0, 3) =~= "ADR"@);
    lemma_first_index_of_unique(t, ':', 3);
    let value = t.skip(4);
    assert(value =~= ";;"@ + (e + ";;;;;"@));
    assert(!";;"@.contains('\\'));
    assert(!";;;;;"@.contains('\\'));
    lemma_unescape_plain_then(";;"@, e + ";;;;;"@, false);
    lemma_unescape_escape_then(street, ";;;;;"@, false);
    lemma_unescape_plain_then(";;;;;"@, Seq::<char>::empty(), false);
    assert(unescape_text(Seq::<char>::empty(), false) =~= Seq::<char>::empty());
    let u = ";;"@ + street + ";;;;;"@;
    assert(";;"@ + (street + (";;;;;"@ + Seq::<char>::empty())) =~= u);
    assert(property_value(t) == u);
    // the third component of `;;street;;;;;` is the street
    let u1 = u.skip(1);
    let u2 = u1.skip(1);
    lemma_first_index_of_unique(u, ';', 0);
    lemma_first_index_of_unique(u1, ';', 0);
    assert forall|j: int| 0 <= j < street.len() implies u2[j] != ';' by {
        assert(u2[j] == street[j]);
        if street[j] == ';' {
            assert(street.contains(';'));
        }
    }
    assert(u2[street.len() as int] == ';');
    lemma_first_index_of_unique(u2, ';', street.len() as int);
    assert(u2.take(street.len() as int) =~= street);
    let parts = split_on(u, ';');
    assert(parts == seq![u.take(0)].add(split_on(u1, ';')));
    assert(split_on(u1, ';') == seq![u1.take(0)].add(split_on(u2, ';')));
    assert(split_on(u2, ';') == seq![street].add(split_on(u2.skip(street.len() as int + 1), ';')));
    assert(parts[2] == street);
    lemma_not_prefix("UID"@, t, 0);
    lemma_not_prefix("FN"@, t, 0);
    lemma_not_prefix("EMAIL"@, t, 0);
    lemma_not_prefix("TEL"@, t, 0);
    lemma_not_prefix("ORG"@, t, 0);
    lemma_not_prefix("TITLE"@, t, 0);
    lemma_not_prefix("NOTE"@, t, 0);
}

// ===================== The lines of a written vCard =====================

/// Lines that fold and read back unchanged, each ending in non-whitespace.
spec fn tidy(ls: Seq<Seq<char>>) -> bool {
    forall|i: int| 0 <= i < ls.len() ==> content_line(#[trigger] ls[i]) && !is_whitespace(ls[i].last())
}

proof fn lemma_tidy_concat(x: Seq<Seq<char>>, y: Seq<Seq<char>>)
    requires
        tidy(x),
        tidy(y),
    ensures
        tidy(x + y),
{
    assert forall|i: int| 0 <= i < (x + y).len() implies content_line(#[trigger] (x + y)[i]) && !is_whitespace(
        (x + y)[i].last(),
    ) by {
        if i < x.len() {
            assert((x + y)[i] == x[i]);
        } else {
            assert((x + y)[i] == y[i - x.len()]);
        }
    }
}

/// Tidy lines keep their last character through `strip_cr`.
proof fn lemma_tidy_strip_cr(ls: Seq<Seq<char>>)
    requires
        tidy(ls),
    ensures
        ls.map_values(|l: Seq<char>| strip_cr(l)) == ls,
{
    assert forall|i: int| 0 <= i < ls.len() implies strip_cr(ls[i]) == ls[i] by {
        assert(content_line(ls[i]));
    }
    assert(ls.map_values(|l: Seq<char>| strip_cr(l)) =~= ls);
}


/// A typed line (EMAIL or TEL) is a tidy content line.
proof fn lemma_typed_line_tidy(key: Seq<char>, label: Option<Seq<char>>, v: Seq<char>)
    requires
        single_line(key),
        key.len() > 0,
        key[0] != ' ' && key[0] != '\t',
        raw_value_ok(v),
        label_ok(label),
    ensures
        content_line(typed_line(key, label, v)),
        !is_whitespace(typed_line(key, label, v).last()),
{
    reveal_strlit(":");
    reveal_strlit(";TYPE=");
    lemma_literal_single_line(":"@);
    lemma_literal_single_line(";TYPE="@);
    match label {
        Some(l) => {
            lemma_single_line_concat(key, ";TYPE="@);
            lemma_single_line_concat(key + ";TYPE="@, l);
            lemma_single_line_concat(key + ";TYPE="@ + l, ":"@);
            lemma_single_line_concat(key + ";TYPE="@ + l + ":"@, v);
        },
        None => {
            lemma_single_line_concat(key, ":"@);
            lemma_single_line_concat(key + ":"@, v);
        },
    }
    let t = typed_line(key, label, v);
    assert(t[0] == key[0]);
    assert(t.last() == v.last());
}

/// A `key:escaped` line is a tidy content line.
proof fn lemma_text_line_tidy(key: Seq<char>, v: Seq<char>)
    requires
        single_line(key),
        key.len() > 0,
        key[0] != ' ' && key[0] != '\t',
        !key.contains(':'),
        !is_whitespace(key[0]),
        text_end_ok(v),
        not_quoted_printable(key + ":"@ + escape_text(v)),
    ensures
        content_line(key + ":"@ + escape_text(v)),
        !is_whitespace((key + ":"@ + escape_text(v)).last()),
{
    reveal_strlit(":");
    lemma_literal_single_line(":"@);
    lemma_escape_text_single_line(v);
    lemma_single_line_concat(key, ":"@);
    lemma_single_line_concat(key + ":"@, escape_text(v));
    lemma_text_line(key, v);
    assert((key + ":"@ + escape_text(v))[0] == key[0]);
}

proof fn lemma_emails(a: VcardFields, es: Seq<EmailModel>)
    requires
        forall|i: int| 0 <= i < es.len() ==> raw_value_ok(#[trigger] es[i].email) && label_ok(es[i].label),
    ensures
        tidy(es.map_values(|e: EmailModel| typed_line("EMAIL"@, e.label, e.email))),
        scan_more(a, es.map_values(|e: EmailModel| typed_line("EMAIL"@, e.label, e.email)))
            == (VcardFields { emails: a.emails + es, ..a }),
    decreases es.len(),
{
    reveal_strlit("EMAIL");
    let m = es.map_values(|e: EmailModel| typed_line("EMAIL"@, e.label, e.email));
    lemma_literal_single_line("EMAIL"@);
    assert forall|i: int| 0 <= i < m.len() implies content_line(#[trigger] m[i]) && !is_whitespace(m[i].last()) by {
        assert(raw_value_ok(es[i].email));
        lemma_typed_line_tidy("EMAIL"@, es[i].label, es[i].email);
    }
    if es.len() == 0 {
        assert(a.emails + es =~= a.emails);
    } else {
        let init = es.drop_last();
        assert forall|i: int| 0 <= i < init.len() implies raw_value_ok(#[trigger] init[i].email) && label_ok(
            init[i].label,
        ) by {
            assert(init[i] == es[i]);
        }
        lemma_emails(a, init);
        assert(m.drop_last() =~= init.map_values(|e: EmailModel| typed_line("EMAIL"@, e.label, e.email)));
        let last = es.last();
        assert(raw_value_ok(es[es.len() - 1].email));
        lemma_step_email(VcardFields { emails: a.emails + init, ..a }, last);
        assert((a.emails + init).push(last) =~= a.emails + es);
    }
}

proof fn lemma_phones(a: VcardFields, ps: Seq<PhoneModel>)
    requires
        forall|i: int| 0 <= i < ps.len() ==> raw_value_ok(#[trigger] ps[i].number) && label_ok(ps[i].label),
    ensures
        tidy(ps.map_values(|p: PhoneModel| typed_line("TEL"@, p.label, p.number))),
        scan_more(a, ps.map_values(|p: PhoneModel| typed_line("TEL"@, p.label, p.number)))
            == (VcardFields { phones: a.phones + ps, ..a }),
    decreases ps.len(),
{
    reveal_strlit("TEL");
    let m = ps.map_values(|p: PhoneModel| typed_line("TEL"@, p.label, p.number));
    lemma_literal_single_line("TEL"@);
    assert forall|i: int| 0 <= i < m.len() implies content_line(#[trigger] m[i]) && !is_whitespace(m[i].last()) by {
        assert(raw_value_ok(ps[i].number));
        lemma_typed_line_tidy("TEL"@, ps[i].label, ps[i].number);
    }
    if ps.len() == 0 {
        assert(a.phones + ps =~= a.phones);
    } else {
        let init = ps.drop_last();
        assert forall|i: int| 0 <= i < init.len() implies raw_value_ok(#[trigger] init[i].number) && label_ok(
            init[i].label,
        ) by {
            assert(init[i] == ps[i]);
        }
        lemma_phones(a, init);
        assert(m.drop_last() =~= init.map_values(|p: PhoneModel| typed_line("TEL"@, p.label, p.number)));
        let last = ps.last();
        assert(raw_value_ok(ps[ps.len() - 1].number));
        lemma_step_tel(VcardFields { phones: a.phones + init, ..a }, last);
        assert((a.phones + init).push(last) =~= a.phones + ps);
    }
}

proof fn lemma_scan_one(a: VcardFields, l: Seq<char>)
    ensures
        scan_more(a, seq![l]) == vcard_step(a, l),
{
    let one = seq![l];
    assert(one.drop_last() =~= Seq::<Seq<char>>::empty());
    assert(one.last() == l);
    assert(scan_more(a, one.drop_last()) == a);
}

proof fn lemma_org(a: VcardFields, v: Option<Seq<char>>)
    requires
        opt_text_ok("ORG"@, v),
    ensures
        tidy(opt_line("ORG"@, v)),
        scan_more(a, opt_line("ORG"@, v)) == (match v {
            Some(_) => VcardFields { organization: v, ..a },
            None => a,
        }),
{
    reveal_strlit("ORG");
    lemma_literal_single_line("ORG"@);
    match v {
        Some(x) => {
            lemma_text_line_tidy("ORG"@, x);
            lemma_scan_one(a, "ORG"@ + ":"@ + escape_text(x));
            lemma_step_org(a, x);
        },
        None => {},
    }
}

proof fn lemma_title(a: VcardFields, v: Option<Seq<char>>)
    requires
        opt_text_ok("TITLE"@, v),
    ensures
        tidy(opt_line("TITLE"@, v)),
        scan_more(a, opt_line("TITLE"@, v)) == (match v {
            Some(_) => VcardFields { title: v, ..a },
            None => a,
        }),
{
    reveal_strlit("TITLE");
    lemma_literal_single_line("TITLE"@);
    match v {
        Some(x) => {
            lemma_text_line_tidy("TITLE"@, x);
            lemma_scan_one(a, "TITLE"@ + ":"@ + escape_text(x));
            lemma_step_title(a, x);
        },
        None => {},
    }
}

proof fn lemma_note(a: VcardFields, v: Option<Seq<char>>)
    requires
        opt_text_ok("NOTE"@, v),
    ensures
        tidy(opt_line("NOTE"@, v)),
        scan_more(a, opt_line("NOTE"@, v)) == (match v {
            Some(_) => VcardFields { notes: v, ..a },
            None => a,
        }),
{
    reveal_strlit("NOTE");
    lemma_literal_single_line("NOTE"@);
    match v {
        Some(x) => {
            lemma_text_line_tidy("NOTE"@, x);
            lemma_scan_one(a, "NOTE"@ + ":"@ + escape_text(x));
            lemma_step_note(a, x);
        },
        None => {},
    }
}

/// The ADR lines of a contact.
spec fn adr_lines(address: Option<Seq<char>>) -> Seq<Seq<char>> {
    match address {
        Some(street) => seq!["ADR:;;"@ + escape_text(street) + ";;;;;"@],
        None => seq![],
    }
}

proof fn lemma_adr(a: VcardFields, v: Option<Seq<char>>)
    requires
        address_ok(v),
    ensures
        tidy(adr_lines(v)),
        scan_more(a, adr_lines(v)) == (match v {
            Some(_) => VcardFields { address: v, ..a },
            None => a,
        }),
{
    reveal_strlit("ADR:;;");
    reveal_strlit(";;;;;");
    match v {
        Some(x) => {
            let t = "ADR:;;"@ + escape_text(x) + ";;;;;"@;
            lemma_literal_single_line("ADR:;;"@);
            lemma_literal_single_line(";;;;;"@);
            lemma_escape_text_single_line(x);
            lemma_single_line_concat("ADR:;;"@, escape_text(x));
            lemma_single_line_concat("ADR:;;"@ + escape_text(x), ";;;;;"@);
            assert(t[0] == 'A');
            assert(t.last() == ';');
            assert(adr_lines(v) =~= seq![t]);
            lemma_scan_one(a, t);
            lemma_step_adr(a, x);
        },
        None => {},
    }
}

/// The N line of a name: one line that starts with `N:` and ends with `;`.
proof fn lemma_n_line(name: Seq<char>)
    ensures
        content_line(n_line(name)),
        n_line(name).len() > 2,
        n_line(name)[0] == 'N',
        n_line(name)[1] == ':',
        n_line(name).last() == ';',
        trim(n_line(name)) == n_line(name),
{
    reveal_strlit("N:");
    reveal_strlit(";");
    reveal_strlit(";;");
    let (f, g, m) = n_components(name);
    let t = crate::text::words(name);
    lemma_escape_text_single_line(t[0]);
    lemma_escape_text_single_line(t[1]);
    lemma_escape_text_single_line(t.last());
    lemma_escape_text_single_line(crate::text::join(t.subrange(1, t.len() - 1), " "@));
    lemma_escape_text_single_line(Seq::<char>::empty());
    lemma_escape_text_empty();
    assert(single_line(f) && single_line(g) && single_line(m));
    lemma_literal_single_line("N:"@);
    lemma_literal_single_line(";"@);
    lemma_literal_single_line(";;"@);
    lemma_single_line_concat("N:"@, f);
    lemma_single_line_concat("N:"@ + f, ";"@);
    lemma_single_line_concat("N:"@ + f + ";"@, g);
    lemma_single_line_concat("N:"@ + f + ";"@ + g, ";"@);
    lemma_single_line_concat("N:"@ + f + ";"@ + g + ";"@, m);
    lemma_single_line_concat("N:"@ + f + ";"@ + g + ";"@ + m, ";;"@);
    let n = n_line(name);
    assert(n[0] == 'N');
    assert(n[1] == ':');
    assert(n.last() == ';');
    lemma_trim_plain(n);
}

proof fn lemma_scan_more_push(a: VcardFields, ls: Seq<Seq<char>>, l: Seq<char>)
    ensures
        scan_more(a, ls.push(l)) == vcard_step(scan_more(a, ls), l),
{
    assert(ls.push(l).drop_last() =~= ls);
}

// ===================== The law =====================

/// The property lines after the head (BEGIN, VERSION, UID, FN, N), before END.
spec fn property_lines(c: ContactModel) -> Seq<Seq<char>> {
    c.emails.map_values(|e: EmailModel| typed_line("EMAIL"@, e.label, e.email))
        + c.phones.map_values(|p: PhoneModel| typed_line("TEL"@, p.label, p.number))
        + opt_line("ORG"@, c.organization)
        + opt_line("TITLE"@, c.title)
        + adr_lines(c.address)
        + opt_line("NOTE"@, c.notes)
}

/// The head lines as they are read back (the UID line may lose a trailing CR).
spec fn head_read(c: ContactModel) -> Seq<Seq<char>> {
    seq!["BEGIN:VCARD"@, "VERSION:3.0"@, strip_cr("UID:"@ + c.id), "FN:"@ + escape_text(c.name), n_line(c.name)]
}

/// The fields read from the head lines.
spec fn head_fields(c: ContactModel) -> VcardFields {
    VcardFields {
        id: property_value(trim(strip_cr("UID:"@ + c.id))),
        name: c.name,
        ..vcard_scan(Seq::<Seq<char>>::empty())
    }
}

proof fn lemma_read_head(c: ContactModel)
    requires
        vcard_readable(c),
    ensures
        scan_more(vcard_scan(Seq::<Seq<char>>::empty()), head_read(c)) == head_fields(c),
{
    reveal_strlit("FN:");
    reveal_strlit("FN");
    reveal_strlit(":");
    let b = "BEGIN:VCARD"@;
    let v = "VERSION:3.0"@;
    let f = "FN:"@ + escape_text(c.name);
    let n = n_line(c.name);
    let su = strip_cr("UID:"@ + c.id);
    let a0 = vcard_scan(Seq::<Seq<char>>::empty());
    lemma_n_line(c.name);
    lemma_fixed_lines(a0, n);
    lemma_step_uid(a0, c.id);
    let a3 = VcardFields { id: property_value(trim(su)), ..a0 };
    assert(f =~= "FN"@ + ":"@ + escape_text(c.name));
    lemma_step_fn(a3, c.name);
    let a4 = head_fields(c);
    lemma_fixed_lines(a4, n);
    let h1 = seq![b];
    assert(head_read(c) =~= h1.push(v).push(su).push(f).push(n));
    lemma_scan_one(a0, b);
    lemma_scan_more_push(a0, h1, v);
    lemma_scan_more_push(a0, h1.push(v), su);
    lemma_scan_more_push(a0, h1.push(v).push(su), f);
    lemma_scan_more_push(a0, h1.push(v).push(su).push(f), n);
}

proof fn lemma_read_properties(c: ContactModel)
    requires
        vcard_readable(c),
    ensures
        tidy(property_lines(c)),
        scan_more(head_fields(c), property_lines(c)) == (VcardFields {
            emails: c.emails,
            phones: c.phones,
            organization: c.organization,
            title: c.title,
            address: c.address,
            notes: c.notes,
            ..head_fields(c)
        }),
{
    let em = c.emails.map_values(|e: EmailModel| typed_line("EMAIL"@, e.label, e.email));
    let ph = c.phones.map_values(|p: PhoneModel| typed_line("TEL"@, p.label, p.number));
    let org = opt_line("ORG"@, c.organization);
    let ti = opt_line("TITLE"@, c.title);
    let ad = adr_lines(c.address);
    let no = opt_line("NOTE"@, c.notes);
    let a4 = head_fields(c);
    lemma_emails(a4, c.emails);
    let a5 = VcardFields { emails: a4.emails + c.emails, ..a4 };
    lemma_phones(a5, c.phones);
    let a6 = VcardFields { phones: a5.phones + c.phones, ..a5 };
    lemma_org(a6, c.organization);
    let a7 = VcardFields { organization: c.organization, ..a6 };
    lemma_title(a7, c.title);
    let a8 = VcardFields { title: c.title, ..a7 };
    lemma_adr(a8, c.address);
    let a9 = VcardFields { address: c.address, ..a8 };
    lemma_note(a9, c.notes);
    lemma_scan_more_concat(a4, em, ph);
    lemma_scan_more_concat(a4, em + ph, org);
    lemma_scan_more_concat(a4, em + ph + org, ti);
    lemma_scan_more_concat(a4, em + ph + org + ti, ad);
    lemma_scan_more_concat(a4, em + ph + org + ti + ad, no);
    lemma_tidy_concat(em, ph);
    lemma_tidy_concat(em + ph, org);
    lemma_tidy_concat(em + ph + org, ti);
    lemma_tidy_concat(em + ph + org + ti, ad);
    lemma_tidy_concat(em + ph + org + ti + ad, no);
    assert(a4.emails + c.emails =~= c.emails);
    assert(a5.phones + c.phones =~= c.phones);
}

proof fn lemma_read_lines(c: ContactModel)
    requires
        vcard_readable(c),
    ensures
        lines(unfold(vcard_text(c))) == head_read(c) + property_lines(c) + seq!["END:VCARD"@],
{
    reveal_strlit("BEGIN:VCARD");
    reveal_strlit("VERSION:3.0");
    reveal_strlit("END:VCARD");
    reveal_strlit("UID:");
    reveal_strlit("FN:");
    reveal_strlit("FN");
    reveal_strlit(":");
    let b = "BEGIN:VCARD"@;
    let v = "VERSION:3.0"@;
    let e = "END:VCARD"@;
    let u = "UID:"@ + c.id;
    let f = "FN:"@ + escape_text(c.name);
    let head = seq![b, v, u, f, n_line(c.name)];
    let rest = property_lines(c);
    let l = vcard_lines(c);
    assert(l =~= head + rest + seq![e]);
    lemma_read_properties(c);
    lemma_n_line(c.name);
    lemma_literal_single_line(b);
    lemma_literal_single_line(v);
    lemma_literal_single_line(e);
    lemma_literal_single_line("UID:"@);
    lemma_single_line_concat("UID:"@, c.id);
    lemma_literal_single_line("FN"@);
    assert(f =~= "FN"@ + ":"@ + escape_text(c.name));
    lemma_text_line_tidy("FN"@, c.name);
    assert forall|i: int| 0 <= i < l.len() implies content_line(#[trigger] l[i]) by {
        if i >= 5 && i < 5 + rest.len() {
            assert(l[i] == rest[i - 5]);
        }
    }
    lemma_lines_of_folded(l);
    assert(l.drop_last() =~= head + rest);
    lemma_tidy_strip_cr(rest);
    assert forall|j: int| 0 <= j < rest.len() implies strip_cr(rest[j]) == rest[j] by {
        assert(rest.map_values(|l: Seq<char>| strip_cr(l))[j] == strip_cr(rest[j]));
    }
    assert(strip_cr(b) == b && strip_cr(v) == v && strip_cr(f) == f && strip_cr(n_line(c.name)) == n_line(c.name));
    assert(lines(unfold(vcard_text(c))) =~= head_read(c) + rest + seq![e]);
}

/// A UID, written as it is, that reads back unchanged: not empty, without a
/// backslash, without whitespace at its end, and not taken for quoted-printable.
pub open spec fn uid_ok(id: Seq<char>) -> bool {
    &&& id.len() > 0
    &&& !id.contains('\\')
    &&& !is_whitespace(id.last())
    &&& not_quoted_printable("UID:"@ + id)
}

proof fn lemma_uid_value(id: Seq<char>)
    ensures
        uid_ok(id) ==> property_value(trim(strip_cr("UID:"@ + id))) == id,
{
    reveal_strlit("UID:");
    if uid_ok(id) {
        let u = "UID:"@ + id;
        assert(u.last() == id.last());
        assert(strip_cr(u) == u);
        lemma_trim_plain(u);
        lemma_first_index_of_unique(u, ':', 3);
        assert(u.skip(4) =~= id);
        lemma_unescape_plain_then(id, Seq::<char>::empty(), false);
        assert(unescape_text(Seq::<char>::empty(), false) =~= Seq::<char>::empty());
        assert(id + Seq::<char>::empty() =~= id);
    }
}

/// Reading back what was written: the vCard that `serialize_vcard` writes
/// for a contact is read by `parse_vcard` as a contact with the same name,
/// the same e-mail addresses and phone numbers (with their labels, in order),
/// the same organization, title, notes and street, the href and ETag it was
/// read with, and the same ID when the UID reads back (`uid_ok`). This holds
/// for every contact whose values survive the format, as `vcard_readable`
/// describes.
pub proof fn lemma_vcard_round_trip(c: ContactModel, href: Option<Seq<char>>, etag: Option<Seq<char>>)
    requires
        vcard_readable(c),
    ensures
        vcard_contact(vcard_text(c), href, etag) is Some,
        ({
            let p = vcard_contact(vcard_text(c), href, etag)->0;
            &&& p.name == c.name
            &&& p.emails == c.emails
            &&& p.phones == c.phones
            &&& p.organization == c.organization
            &&& p.title == c.title
            &&& p.notes == c.notes
            &&& p.address == c.address
            &&& p.href == href
            &&& p.etag == etag
            &&& uid_ok(c.id) ==> p.id == c.id
        }),
{
    reveal_strlit("END:VCARD");
    lemma_uid_value(c.id);
    let ls = lines(unfold(vcard_text(c)));
    let a0 = vcard_scan(Seq::<Seq<char>>::empty());
    let hs = head_read(c);
    let rest = property_lines(c);
    let e = "END:VCARD"@;
    lemma_read_lines(c);
    lemma_read_head(c);
    lemma_read_properties(c);
    let a10 = scan_more(head_fields(c), rest);
    lemma_n_line(c.name);
    lemma_fixed_lines(a10, n_line(c.name));
    lemma_scan_one(a10, e);
    lemma_vcard_scan_more(ls);
    lemma_scan_more_concat(a0, hs + rest, seq![e]);
    lemma_scan_more_concat(a0, hs, rest);
}


/// A full-name line: trimmed, it starts with `FN` and holds a `:`.
pub open spec fn is_name_line(line: Seq<char>) -> bool {
    "FN"@.is_prefix_of(trim(line)) && first_index_of(trim(line), ':') is Some
}

/// The decoded value of the last full-name line, if there is one.
pub open spec fn last_name_value(ls: Seq<Seq<char>>) -> Option<Seq<char>>
    decreases ls.len(),
{
    if ls.len() == 0 {
        None
    } else if is_name_line(ls.last()) {
        Some(property_value(trim(ls.last())))
    } else {
        last_name_value(ls.drop_last())
    }
}

/// The name collected from lines is the value of the last full-name line,
/// or empty without one; and that last line is one of them with no
/// full-name line after it.
proof fn lemma_scan_name(ls: Seq<Seq<char>>)
    ensures
        vcard_scan(ls).name == match last_name_value(ls) {
            Some(v) => v,
            None => Seq::<char>::empty(),
        },
        last_name_value(ls) is None <==> forall|i: int| 0 <= i < ls.len() ==> !is_name_line(#[trigger] ls[i]),
        last_name_value(ls) matches Some(v) ==> exists|i: int|
            0 <= i < ls.len() && is_name_line(#[trigger] ls[i]) && v == property_value(trim(ls[i])) && forall|j: int|
                i < j < ls.len() ==> !is_name_line(#[trigger] ls[j]),
    decreases ls.len(),
{
    reveal_strlit("FN");
    reveal_strlit("UID");
    if ls.len() > 0 {
        let init = ls.drop_last();
        lemma_scan_name(init);
        let t = trim(ls.last());
        if "UID"@.is_prefix_of(t) {
            assert(t[0] == "UID"@[0]) by {
                assert(t.subrange(0, 3)[0] == t[0]);
            }
            lemma_not_prefix("FN"@, t, 0);
        }
        assert forall|i: int| 0 <= i < init.len() implies init[i] == ls[i] by {}
        if is_name_line(ls.last()) {
            assert(is_name_line(ls[ls.len() - 1]));
        } else {
            assert(ls[ls.len() - 1] == ls.last());
            if let Some(v) = last_name_value(init) {
                let i = choose|i: int|
                    0 <= i < init.len() && is_name_line(#[trigger] init[i]) && v == property_value(trim(init[i]))
                        && forall|j: int| i < j < init.len() ==> !is_name_line(#[trigger] init[j]);
                assert(is_name_line(ls[i]));
                assert forall|j: int| i < j < ls.len() implies !is_name_line(#[trigger] ls[j]) by {
                    if j < init.len() {
                        assert(init[j] == ls[j]);
                    }
                }
            }
        }
    }
}

/// When a vCard is read as a contact, in terms of its unfolded lines: exactly
/// when some line, trimmed, starts with `FN` and holds a `:`, and the last
/// such line has a non-empty decoded value, which is the contact's name.
pub proof fn lemma_vcard_found_by_name_line(raw: Seq<char>, href: Option<Seq<char>>, etag: Option<Seq<char>>)
    ensures
        vcard_contact(raw, href, etag) is Some <==> ((exists|i: int|
            0 <= i < lines(unfold(raw)).len() && is_name_line(#[trigger] lines(unfold(raw))[i]))
            && (last_name_value(lines(unfold(raw))) matches Some(v) && v.len() > 0)),
        vcard_contact(raw, href, etag) matches Some(c) ==> last_name_value(lines(unfold(raw))) == Some(c.name),
{
    let ls = lines(unfold(raw));
    lemma_scan_name(ls);
    if let Some(v) = last_name_value(ls) {
        let i = choose|i: int|
            0 <= i < ls.len() && is_name_line(#[trigger] ls[i]) && v == property_value(trim(ls[i])) && forall|j: int|
                i < j < ls.len() ==> !is_name_line(#[trigger] ls[j]);
        assert(is_name_line(ls[i]));
    }
}

/// When a vCard is read as a contact: exactly when the last FN line found
/// gives a non-empty name. The contact then has a non-empty ID, the one its
/// UID line gives or, without one, the hexadecimal hash of its name (so
/// reading the same text again gives the same ID), and the href and ETag it
/// was read with.
pub proof fn lemma_vcard_contact_id(raw: Seq<char>, href: Option<Seq<char>>, etag: Option<Seq<char>>)
    ensures
        vcard_contact(raw, href, etag) is Some <==> vcard_scan(lines(unfold(raw))).name.len() > 0,
        vcard_contact(raw, href, etag) matches Some(c) ==> {
            &&& c.id.len() > 0
            &&& c.name == vcard_scan(lines(unfold(raw))).name
            &&& c.href == href
            &&& c.etag == etag
            &&& vcard_scan(lines(unfold(raw))).id.len() == 0 ==> c.id == crate::text::hex(
                crate::carddav::vcard::default_hash(c.name) as nat,
            )
            &&& vcard_scan(lines(unfold(raw))).id.len() > 0 ==> c.id == vcard_scan(lines(unfold(raw))).id
        },
{
    let a = vcard_scan(lines(unfold(raw)));
    if a.name.len() > 0 && a.id.len() == 0 {
        let n = crate::carddav::vcard::default_hash(a.name) as nat;
        if n >= 16 {
            assert(crate::text::hex(n).len() > 0);
        }
    }
}

} // verus!
