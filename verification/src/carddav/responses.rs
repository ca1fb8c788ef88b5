//! Reading the answers of the CardDAV server.
use vstd::prelude::*;
use crate::carddav::{AddressBook, Contact, ContactModel, clone_emails, clone_opt, clone_phones, opt_view};
use crate::carddav::vcard::{parse_vcard, vcard_contact};
use crate::caldav::dav::{
    NOT_FOUND, PRECONDITION_FAILED, location_path_from, location_path_under, write_failure,
    write_failure_text,
};
use crate::caldav::responses::{text_or_empty, xml_error, xml_failure};
use crate::error::Error;
use crate::text::{
    chars_lt, chars_of, ends_with, extend_str, lemma_seq_lt_irreflexive, lemma_seq_lt_transitive,
    seq_lt, split_chars, split_on, string_of, to_lowercase,
    unicode_lower,
};
use crate::xml::{
    CARDDAV_NS, DAV_NS, XmlNodeModel, has_tag, is_tag, nodes_view, parse_xml, subtree_has, subtree_tag,
    subtree_text, text_in_subtree, well_nested, xml_document,
};

verus! {

/// Model of an address book.
pub struct AddressBookModel {
    pub href: Seq<char>,
    pub name: Seq<char>,
}

impl View for AddressBook {
    type V = AddressBookModel;

    open spec fn view(&self) -> AddressBookModel {
        AddressBookModel { href: self.href@, name: self.name@ }
    }
}

/// The last non-empty piece of a list (`rfind(|s| !s.is_empty())`).
pub open spec fn last_non_empty(pieces: Seq<Seq<char>>) -> Option<Seq<char>>
    decreases pieces.len(),
{
    if pieces.len() == 0 {
        None
    } else if pieces.last().len() > 0 {
        Some(pieces.last())
    } else {
        last_non_empty(pieces.drop_last())
    }
}

/// The address book a `response` element at node `i` describes, unless it
/// is not an address book, has no href, or is the user's home collection.
pub open spec fn addressbook_at(nodes: Seq<XmlNodeModel>, i: int, username: Seq<char>) -> Option<AddressBookModel> {
    let href = text_or_empty(subtree_text(nodes, i, DAV_NS@, "href"@));
    let is_addressbook = subtree_tag(nodes, i, CARDDAV_NS@, "addressbook"@) is Some;
    if !has_tag(nodes[i], DAV_NS@, "response"@) || !is_addressbook || href.len() == 0 {
        None
    } else if (username + "/"@).is_suffix_of(href) {
        None
    } else {
        let name = match subtree_text(nodes, i, DAV_NS@, "displayname"@) {
            Some(n) => n,
            None => match last_non_empty(split_on(href, '/')) {
                Some(s) => s,
                None => "Unknown"@,
            },
        };
        Some(AddressBookModel { href, name })
    }
}

/// The address books among nodes `0..k`, in order.
pub open spec fn addressbooks_in(nodes: Seq<XmlNodeModel>, k: int, username: Seq<char>) -> Seq<AddressBookModel>
    decreases k,
{
    if k <= 0 {
        seq![]
    } else {
        let rest = addressbooks_in(nodes, k - 1, username);
        match addressbook_at(nodes, k - 1, username) {
            Some(a) => rest.push(a),
            None => rest,
        }
    }
}

fn last_non_empty_of(pieces: &Vec<Vec<char>>) -> (r: Option<Vec<char>>)
    ensures
        crate::carddav::vcard::opt_chars_view(r) == last_non_empty(pieces@.map_values(|l: Vec<char>| l@)),
{
    let ghost pv = pieces@.map_values(|l: Vec<char>| l@);
    let mut k = pieces.len();
    assert(pv.take(k as int) =~= pv);
    while k > 0 && pieces[k - 1].len() == 0
        invariant
            k <= pieces.len(),
            pv == pieces@.map_values(|l: Vec<char>| l@),
            last_non_empty(pv) == last_non_empty(pv.take(k as int)),
        decreases k,
    {
        assert(pv.take(k as int).drop_last() =~= pv.take(k - 1));
        k = k - 1;
    }
    if k == 0 {
        None
    } else {
        assert(pv.take(k as int).last() == pieces@[k - 1]@);
        Some(pieces[k - 1].clone())
    }
}

/// Read the address books of a PROPFIND answer for the user `username`.
pub fn parse_addressbooks_response(xml: &str, username: &str) -> (r: Result<Vec<AddressBook>, Error>)
    ensures
        match xml_document(xml@) {
            Ok(nodes) => r matches Ok(v) && v@.map_values(|a: AddressBook| a@) == addressbooks_in(
                nodes,
                nodes.len() as int,
                username@,
            ),
            Err(e) => r matches Err(Error::Server(m)) && m@ == xml_failure(e),
        },
{
    let nodes = match parse_xml(xml) {
        Ok(n) => n,
        Err(e) => {
            return Err(xml_error(&e));
        },
    };
    let ghost nv = nodes_view(nodes@);
    let mut suffix: Vec<char> = Vec::new();
    extend_str(&mut suffix, username);
    extend_str(&mut suffix, "/");
    let suffix_s = string_of(&suffix);
    let mut books: Vec<AddressBook> = Vec::new();
    assert(books@.map_values(|a: AddressBook| a@) =~= Seq::<AddressBookModel>::empty());
    for i in 0..nodes.len()
        invariant
            nv == nodes_view(nodes@),
            well_nested(nv),
            suffix_s@ == username@ + "/"@,
            books@.map_values(|a: AddressBook| a@) == addressbooks_in(nv, i as int, username@),
    {
        assert(nv[i as int] == nodes@[i as int]@);
        if is_tag(&nodes[i], DAV_NS, "response") {
            let href = match text_in_subtree(&nodes, i, DAV_NS, "href") {
                Some(h) => h,
                None => String::new(),
            };
            let is_addressbook = subtree_has(&nodes, i, CARDDAV_NS, "addressbook");
            if is_addressbook && !href.as_str().is_empty() {
                let hc = chars_of(href.as_str());
                if !ends_with(&hc, suffix_s.as_str()) {
                    let name = match text_in_subtree(&nodes, i, DAV_NS, "displayname") {
                        Some(n) => n,
                        None => {
                            let pieces = split_chars(&hc, '/');
                            match last_non_empty_of(&pieces) {
                                Some(s) => string_of(&s),
                                None => "Unknown".to_string(),
                            }
                        },
                    };
                    let ghost before = books@;
                    let b = AddressBook { href, name };
                    books.push(b);
                    assert(books@.map_values(|a: AddressBook| a@) =~= before.map_values(|a: AddressBook| a@).push(
                        b@,
                    ));
                }
            }
        }
    }
    Ok(books)
}

// ===================== Contacts =====================

/// The contact a `response` element at node `i` carries, if its address data describes one.
pub open spec fn contact_at(nodes: Seq<XmlNodeModel>, i: int) -> Option<ContactModel> {
    if !has_tag(nodes[i], DAV_NS@, "response"@) {
        None
    } else {
        match subtree_text(nodes, i, CARDDAV_NS@, "address-data"@) {
            Some(t) => vcard_contact(
                t,
                subtree_text(nodes, i, DAV_NS@, "href"@),
                subtree_text(nodes, i, DAV_NS@, "getetag"@),
            ),
            None => None,
        }
    }
}

/// The contacts among nodes `0..k`, in document order.
pub open spec fn contacts_in(nodes: Seq<XmlNodeModel>, k: int) -> Seq<ContactModel>
    decreases k,
{
    if k <= 0 {
        seq![]
    } else {
        let rest = contacts_in(nodes, k - 1);
        match contact_at(nodes, k - 1) {
            Some(c) => rest.push(c),
            None => rest,
        }
    }
}

/// Where a contact goes among contacts sorted by lower-cased name: before
/// the first one whose key is greater.
pub open spec fn contact_position(sorted: Seq<ContactModel>, key: Seq<char>) -> int
    decreases sorted.len(),
{
    if sorted.len() == 0 {
        0
    } else if seq_lt(key, unicode_lower(sorted[0].name)) {
        0
    } else {
        1 + contact_position(sorted.drop_first(), key)
    }
}

/// The contacts stably sorted by lower-cased name.
pub open spec fn sort_contacts(cs: Seq<ContactModel>) -> Seq<ContactModel>
    decreases cs.len(),
{
    if cs.len() == 0 {
        seq![]
    } else {
        let sorted = sort_contacts(cs.drop_last());
        let x = cs.last();
        let k = contact_position(sorted, unicode_lower(x.name));
        sorted.take(k).push(x) + sorted.skip(k)
    }
}

/// Models of a list of contacts.
pub open spec fn contacts_view(v: Seq<Contact>) -> Seq<ContactModel> {
    v.map_values(|c: Contact| c@)
}

proof fn lemma_contact_position_bound(sorted: Seq<ContactModel>, key: Seq<char>)
    ensures
        0 <= contact_position(sorted, key) <= sorted.len(),
    decreases sorted.len(),
{
    if sorted.len() > 0 && !seq_lt(key, unicode_lower(sorted[0].name)) {
        lemma_contact_position_bound(sorted.drop_first(), key);
    }
}

fn find_contact_position(keys: &Vec<Vec<char>>, sorted: Ghost<Seq<ContactModel>>, key: &Vec<char>) -> (r: usize)
    requires
        keys@.len() == sorted@.len(),
        forall|j: int| 0 <= j < keys@.len() ==> (#[trigger] keys@[j])@ == unicode_lower(sorted@[j].name),
    ensures
        r as int == contact_position(sorted@, key@),
{
    let ghost s = sorted@;
    let mut p: usize = 0;
    assert(s.skip(0) == s);
    while p < keys.len() && !chars_lt(key, &keys[p])
        invariant
            p <= keys@.len(),
            keys@.len() == s.len(),
            forall|j: int| 0 <= j < keys@.len() ==> (#[trigger] keys@[j])@ == unicode_lower(s[j].name),
            contact_position(s, key@) == p + contact_position(s.skip(p as int), key@),
        decreases keys.len() - p,
    {
        assert(s.skip(p as int)[0] == s[p as int]);
        assert(s.skip(p as int).drop_first() == s.skip(p + 1));
        p = p + 1;
    }
    if p < keys.len() {
        assert(s.skip(p as int)[0] == s[p as int]);
    }
    p
}

/// Read the contacts of an addressbook-query REPORT answer, sorted by
/// lower-cased name.
pub fn parse_contacts_response(xml: &str) -> (r: Result<Vec<Contact>, Error>)
    ensures
        match xml_document(xml@) {
            Ok(nodes) => r matches Ok(v) && contacts_view(v@) == sort_contacts(contacts_in(nodes, nodes.len() as int)),
            Err(e) => r matches Err(Error::Server(m)) && m@ == xml_failure(e),
        },
{
    let nodes = match parse_xml(xml) {
        Ok(n) => n,
        Err(e) => {
            return Err(xml_error(&e));
        },
    };
    let ghost nv = nodes_view(nodes@);
    let mut found: Vec<Contact> = Vec::new();
    assert(contacts_view(found@) =~= Seq::<ContactModel>::empty());
    for i in 0..nodes.len()
        invariant
            nv == nodes_view(nodes@),
            well_nested(nv),
            contacts_view(found@) == contacts_in(nv, i as int),
    {
        assert(nv[i as int] == nodes@[i as int]@);
        if is_tag(&nodes[i], DAV_NS, "response") {
            match text_in_subtree(&nodes, i, CARDDAV_NS, "address-data") {
                Some(t) => {
                    let href = text_in_subtree(&nodes, i, DAV_NS, "href");
                    let etag = text_in_subtree(&nodes, i, DAV_NS, "getetag");
                    match parse_vcard(t.as_str(), href, etag) {
                        Some(c) => {
                            let ghost before = found@;
                            found.push(c);
                            assert(contacts_view(found@) =~= contacts_view(before).push(c@));
                        },
                        None => {},
                    }
                },
                None => {},
            }
        }
    }
    let ghost unsorted = contacts_view(found@);
    let mut sorted: Vec<Contact> = Vec::new();
    let mut keys: Vec<Vec<char>> = Vec::new();
    assert(unsorted.take(0) =~= Seq::<ContactModel>::empty());
    assert(contacts_view(sorted@) =~= Seq::<ContactModel>::empty());
    for i in 0..found.len()
        invariant
            unsorted == contacts_view(found@),
            contacts_view(sorted@) == sort_contacts(unsorted.take(i as int)),
            keys@.len() == sorted@.len(),
            forall|j: int| 0 <= j < keys@.len() ==> (#[trigger] keys@[j])@ == unicode_lower(sorted@[j]@.name),
    {
        assert(unsorted.take(i + 1).drop_last() =~= unsorted.take(i as int));
        assert(unsorted.take(i + 1).last() == found@[i as int]@);
        let f = &found[i];
        let c = Contact {
            id: f.id.clone(),
            name: f.name.clone(),
            emails: clone_emails(&f.emails),
            phones: clone_phones(&f.phones),
            organization: clone_opt(&f.organization),
            title: clone_opt(&f.title),
            notes: clone_opt(&f.notes),
            address: clone_opt(&f.address),
            href: clone_opt(&f.href),
            etag: clone_opt(&f.etag),
        };
        let key_s = to_lowercase(c.name.as_str());
        let key = chars_of(key_s.as_str());
        let ghost sv = contacts_view(sorted@);
        assert(forall|j: int| 0 <= j < keys@.len() ==> (#[trigger] keys@[j])@ == unicode_lower(sv[j].name));
        let p = find_contact_position(&keys, Ghost(sv), &key);
        proof {
            lemma_contact_position_bound(sv, key@);
        }
        let ghost old_sorted = sorted@;
        let ghost old_keys = keys@;
        sorted.insert(p, c);
        keys.insert(p, key);
        assert(contacts_view(sorted@) =~= sv.take(p as int).push(c@) + sv.skip(p as int));
        assert forall|j: int| 0 <= j < keys@.len() implies (#[trigger] keys@[j])@ == unicode_lower(sorted@[j]@.name) by {
            if j < p {
                assert(keys@[j] == old_keys[j]);
                assert(sorted@[j] == old_sorted[j]);
            } else if j > p {
                assert(keys@[j] == old_keys[j - 1]);
                assert(sorted@[j] == old_sorted[j - 1]);
            }
        }
    }
    assert(unsorted.take(found.len() as int) =~= unsorted);
    Ok(sorted)
}

// ===================== Writes =====================

/// HTTP 200 OK.
pub const OK: u16 = 200;

/// HTTP 201 Created.
pub const CREATED: u16 = 201;

/// HTTP 204 No Content.
pub const NO_CONTENT: u16 = 204;

/// The outcome of a contact write for the contact with id `id`: the
/// server's ETag on success (200, 201, 204), a conflict on 412 (with the
/// ETag sent and the server's), not found on 404, else the status and body.
pub open spec fn contact_write_result(
    id: Seq<char>,
    sent_etag: Option<Seq<char>>,
    status: u16,
    status_text: Seq<char>,
    server_etag: Option<Seq<char>>,
    body: Seq<char>,
    r: Result<Option<String>, Error>,
) -> bool {
    &&& status == OK || status == CREATED || status == NO_CONTENT ==> (r matches Ok(e) && opt_view(e)
        == server_etag)
    &&& status == PRECONDITION_FAILED ==> (r matches Err(Error::ContactConflict { id: i, sent_etag: s, server_etag: se })
        && i@ == id && s@ == match sent_etag {
        Some(e) => e,
        None => seq![],
    } && opt_view(se) == server_etag)
    &&& status == NOT_FOUND ==> (r matches Err(Error::ContactNotFound(i)) && i@ == id)
    &&& status != OK && status != CREATED && status != NO_CONTENT && status != PRECONDITION_FAILED && status
        != NOT_FOUND ==> (r matches Err(Error::Server(m)) && m@ == write_failure("CardDAV"@, id, status_text, body))
}

/// The outcome of a contact PUT: the new ETag on success (200, 201, 204),
/// otherwise the error for the status. `status_text` is how the status
/// prints, `server_etag` the response's ETag header.
pub fn map_write_response(
    contact: &Contact,
    sent_etag: Option<&str>,
    status: u16,
    status_text: &str,
    server_etag: Option<String>,
    body: &str,
) -> (r: Result<Option<String>, Error>)
    ensures
        contact_write_result(
            contact.id@,
            match sent_etag {
                Some(e) => Some(e@),
                None => None,
            },
            status,
            status_text@,
            opt_view(server_etag),
            body@,
            r,
        ),
{
    if status == OK || status == CREATED || status == NO_CONTENT {
        return Ok(server_etag);
    }
    if status == PRECONDITION_FAILED {
        let sent = match sent_etag {
            Some(e) => e.to_string(),
            None => String::new(),
        };
        Err(Error::ContactConflict { id: contact.id.clone(), sent_etag: sent, server_etag })
    } else if status == NOT_FOUND {
        Err(Error::ContactNotFound(contact.id.clone()))
    } else {
        Err(Error::Server(write_failure_text("CardDAV", &contact.id, status_text, body)))
    }
}

/// The origin of the CardDAV service.
pub const CARDDAV_BASE: &'static str = "https://carddav.fastmail.com";

/// The resource path of a `Location` response header from the CardDAV
/// server, if it names one.
pub fn extract_location_path(location: Option<String>) -> (r: Option<String>)
    ensures
        opt_view(r) == location_path_under(CARDDAV_BASE@, opt_view(location)),
{
    location_path_from(CARDDAV_BASE, location)
}

// ===================== Laws =====================

/// No contact's lower-cased name is below that of one listed ahead of it.
pub open spec fn ordered_by_name(s: Seq<ContactModel>) -> bool {
    forall|i: int, j: int| 0 <= i < j < s.len() ==> !seq_lt(unicode_lower(#[trigger] s[j].name), unicode_lower(#[trigger] s[i].name))
}

proof fn lemma_contact_position_spec(s: Seq<ContactModel>, key: Seq<char>)
    ensures
        forall|j: int| 0 <= j < contact_position(s, key) ==> !seq_lt(key, unicode_lower(#[trigger] s[j].name)),
        contact_position(s, key) < s.len() ==> seq_lt(key, unicode_lower(s[contact_position(s, key)].name)),
    decreases s.len(),
{
    lemma_contact_position_bound(s, key);
    if s.len() > 0 && !seq_lt(key, unicode_lower(s[0].name)) {
        lemma_contact_position_spec(s.drop_first(), key);
        lemma_contact_position_bound(s.drop_first(), key);
        assert forall|j: int| 0 <= j < contact_position(s, key) implies !seq_lt(key, unicode_lower(#[trigger] s[j].name)) by {
            if j > 0 {
                assert(s[j] == s.drop_first()[j - 1]);
            }
        }
        if contact_position(s, key) < s.len() {
            assert(s[contact_position(s, key)] == s.drop_first()[contact_position(s.drop_first(), key)]);
        }
    }
}

proof fn lemma_contact_insert_keeps_order(s: Seq<ContactModel>, x: ContactModel)
    requires
        ordered_by_name(s),
    ensures
        ordered_by_name(s.take(contact_position(s, unicode_lower(x.name))).push(x) + s.skip(contact_position(s, unicode_lower(x.name)))),
{
    let key = unicode_lower(x.name);
    let k = contact_position(s, key);
    lemma_contact_position_bound(s, key);
    lemma_contact_position_spec(s, key);
    let t = s.take(k).push(x) + s.skip(k);
    assert(t.len() == s.len() + 1);
    assert forall|i: int, j: int| 0 <= i < j < t.len() implies !seq_lt(unicode_lower(#[trigger] t[j].name), unicode_lower(#[trigger] t[i].name)) by {
        let vj = unicode_lower(t[j].name);
        if j < k {
            assert(t[i] == s[i] && t[j] == s[j]);
        } else if j == k {
            assert(t[i] == s[i]);
            assert(t[j] == x);
            assert(!seq_lt(key, unicode_lower(s[i].name)));
        } else if i < k {
            assert(t[i] == s[i]);
            assert(t[j] == s[j - 1]);
        } else if i == k {
            assert(t[i] == x);
            assert(t[j] == s[j - 1]);
            if seq_lt(vj, key) {
                lemma_seq_lt_transitive(vj, key, unicode_lower(s[k].name));
                if j - 1 == k {
                    lemma_seq_lt_irreflexive(vj);
                }
            }
        } else {
            assert(t[i] == s[i - 1]);
            assert(t[j] == s[j - 1]);
        }
    }
}

/// Listed contacts come in order of their lower-cased names.
pub proof fn lemma_sort_contacts_ordered(es: Seq<ContactModel>)
    ensures
        ordered_by_name(sort_contacts(es)),
    decreases es.len(),
{
    if es.len() > 0 {
        lemma_sort_contacts_ordered(es.drop_last());
        lemma_contact_insert_keeps_order(sort_contacts(es.drop_last()), es.last());
    }
}

/// Sorting contacts keeps every contact, each as often.
pub proof fn lemma_sort_contacts_permutes(es: Seq<ContactModel>)
    ensures
        sort_contacts(es).to_multiset() == es.to_multiset(),
    decreases es.len(),
{
    broadcast use vstd::seq_lib::group_to_multiset_ensures;
    if es.len() > 0 {
        let rest = es.drop_last();
        lemma_sort_contacts_permutes(rest);
        let sorted = sort_contacts(rest);
        let x = es.last();
        let k = contact_position(sorted, unicode_lower(x.name));
        lemma_contact_position_bound(sorted, unicode_lower(x.name));
        vstd::seq_lib::lemma_multiset_commutative(sorted.take(k).push(x), sorted.skip(k));
        vstd::seq_lib::lemma_multiset_commutative(sorted.take(k), sorted.skip(k));
        assert(sorted.take(k) + sorted.skip(k) =~= sorted);
        assert(es =~= rest.push(x));
    }
}

/// The PROPFIND body listing a user's address books.
pub const ADDRESSBOOKS_PROPFIND: &'static str = "<?xml version=\"1.0\" encoding=\"utf-8\"?>\n<d:propfind xmlns:d=\"DAV:\" xmlns:card=\"urn:ietf:params:xml:ns:carddav\">\n  <d:prop>\n    <d:displayname/>\n    <d:resourcetype/>\n  </d:prop>\n</d:propfind>";

/// The REPORT body listing the contacts of an address book.
pub const ADDRESSBOOK_QUERY: &'static str = "<?xml version=\"1.0\" encoding=\"utf-8\"?>\n<card:addressbook-query xmlns:d=\"DAV:\" xmlns:card=\"urn:ietf:params:xml:ns:carddav\">\n  <d:prop>\n    <d:getetag/>\n    <card:address-data/>\n  </d:prop>\n</card:addressbook-query>";

/// The address-book home of a user.
pub fn addressbook_home(username: &str) -> (r: String)
    ensures
        r@ == "/dav/addressbooks/user/"@ + username@ + "/"@,
{
    let mut v = chars_of("/dav/addressbooks/user/");
    extend_str(&mut v, username);
    extend_str(&mut v, "/");
    string_of(&v)
}

proof fn lemma_contacts_in_members(nodes: Seq<XmlNodeModel>, k: int)
    requires
        0 <= k <= nodes.len(),
    ensures
        forall|i: int|
            0 <= i < k && (#[trigger] contact_at(nodes, i)) is Some ==> contacts_in(nodes, k).contains(
                contact_at(nodes, i)->Some_0,
            ),
        forall|x: ContactModel|
            #[trigger] contacts_in(nodes, k).contains(x) ==> exists|i: int|
                0 <= i < k && #[trigger] contact_at(nodes, i) == Some(x),
    decreases k,
{
    if k > 0 {
        lemma_contacts_in_members(nodes, k - 1);
        let rest = contacts_in(nodes, k - 1);
        let all = contacts_in(nodes, k);
        assert forall|i: int| 0 <= i < k && (#[trigger] contact_at(nodes, i)) is Some implies all.contains(
            contact_at(nodes, i)->Some_0,
        ) by {
            if i < k - 1 {
                let e = contact_at(nodes, i)->Some_0;
                let x = choose|x: int| 0 <= x < rest.len() && rest[x] == e;
                assert(all[x] == rest[x]);
            } else {
                assert(all[rest.len() as int] == contact_at(nodes, i)->Some_0);
            }
        }
        assert forall|x: ContactModel| #[trigger] all.contains(x) implies exists|i: int|
            0 <= i < k && #[trigger] contact_at(nodes, i) == Some(x) by {
            let a = choose|a: int| 0 <= a < all.len() && all[a] == x;
            if a < rest.len() {
                assert(rest[a] == x);
                assert(rest.contains(x));
            } else {
                assert(contact_at(nodes, k - 1) == Some(x));
            }
        }
    }
}

/// The contact the address data of `response` node `i` describes, read with
/// that response's href and ETag.
pub open spec fn response_contact(nodes: Seq<XmlNodeModel>, i: int) -> Option<ContactModel> {
    vcard_contact(
        subtree_text(nodes, i, CARDDAV_NS@, "address-data"@)->Some_0,
        subtree_text(nodes, i, DAV_NS@, "href"@),
        subtree_text(nodes, i, DAV_NS@, "getetag"@),
    )
}

/// The contacts of a REPORT answer, as listed (sorted by name): every
/// `response` whose `address-data` describes a contact gives that contact,
/// with the response's href and ETag; and every contact listed is one so
/// given.
pub proof fn lemma_report_contacts(nodes: Seq<XmlNodeModel>)
    ensures
        forall|i: int|
            0 <= i < nodes.len() && has_tag(nodes[i], DAV_NS@, "response"@) && subtree_text(
                nodes,
                i,
                CARDDAV_NS@,
                "address-data"@,
            ) is Some && (#[trigger] response_contact(nodes, i)) is Some ==> sort_contacts(
                contacts_in(nodes, nodes.len() as int),
            ).contains(response_contact(nodes, i)->Some_0),
        forall|x: ContactModel|
            #[trigger] sort_contacts(contacts_in(nodes, nodes.len() as int)).contains(x) ==> exists|i: int|
                0 <= i < nodes.len() && has_tag(nodes[i], DAV_NS@, "response"@) && subtree_text(
                    nodes,
                    i,
                    CARDDAV_NS@,
                    "address-data"@,
                ) is Some && #[trigger] response_contact(nodes, i) == Some(x) && x.href == subtree_text(
                    nodes,
                    i,
                    DAV_NS@,
                    "href"@,
                ) && x.etag == subtree_text(nodes, i, DAV_NS@, "getetag"@),
{
    broadcast use vstd::seq_lib::group_to_multiset_ensures;
    let n = nodes.len() as int;
    lemma_contacts_in_members(nodes, n);
    let cs = contacts_in(nodes, n);
    lemma_sort_contacts_permutes(cs);
    let sorted = sort_contacts(cs);
    assert forall|i: int|
        0 <= i < nodes.len() && has_tag(nodes[i], DAV_NS@, "response"@) && subtree_text(
            nodes,
            i,
            CARDDAV_NS@,
            "address-data"@,
        ) is Some && (#[trigger] response_contact(nodes, i)) is Some implies sorted.contains(
        response_contact(nodes, i)->Some_0,
    ) by {
        assert(contact_at(nodes, i) == response_contact(nodes, i));
        let c = response_contact(nodes, i)->Some_0;
        assert(cs.contains(c));
        assert(cs.to_multiset().count(c) > 0);
    }
    assert forall|x: ContactModel| #[trigger] sorted.contains(x) implies exists|i: int|
        0 <= i < nodes.len() && has_tag(nodes[i], DAV_NS@, "response"@) && subtree_text(
            nodes,
            i,
            CARDDAV_NS@,
            "address-data"@,
        ) is Some && #[trigger] response_contact(nodes, i) == Some(x) && x.href == subtree_text(
            nodes,
            i,
            DAV_NS@,
            "href"@,
        ) && x.etag == subtree_text(nodes, i, DAV_NS@, "getetag"@) by {
        assert(sorted.to_multiset().count(x) > 0);
        assert(cs.contains(x));
        let i = choose|i: int| 0 <= i < n && #[trigger] contact_at(nodes, i) == Some(x);
        assert(subtree_text(nodes, i, CARDDAV_NS@, "address-data"@) is Some);
        assert(response_contact(nodes, i) == Some(x));
        crate::carddav::readback::lemma_vcard_contact_id(
            subtree_text(nodes, i, CARDDAV_NS@, "address-data"@)->Some_0,
            subtree_text(nodes, i, DAV_NS@, "href"@),
            subtree_text(nodes, i, DAV_NS@, "getetag"@),
        );
    }
}

proof fn lemma_addressbooks_in_members(nodes: Seq<XmlNodeModel>, k: int, username: Seq<char>)
    requires
        0 <= k <= nodes.len(),
    ensures
        forall|i: int|
            0 <= i < k && (#[trigger] addressbook_at(nodes, i, username)) is Some ==> addressbooks_in(
                nodes,
                k,
                username,
            ).contains(addressbook_at(nodes, i, username)->Some_0),
        forall|x: AddressBookModel|
            #[trigger] addressbooks_in(nodes, k, username).contains(x) ==> exists|i: int|
                0 <= i < k && #[trigger] addressbook_at(nodes, i, username) == Some(x),
    decreases k,
{
    if k > 0 {
        lemma_addressbooks_in_members(nodes, k - 1, username);
        let rest = addressbooks_in(nodes, k - 1, username);
        let all = addressbooks_in(nodes, k, username);
        assert forall|i: int| 0 <= i < k && (#[trigger] addressbook_at(nodes, i, username)) is Some implies all.contains(
            addressbook_at(nodes, i, username)->Some_0,
        ) by {
            if i < k - 1 {
                let e = addressbook_at(nodes, i, username)->Some_0;
                let x = choose|x: int| 0 <= x < rest.len() && rest[x] == e;
                assert(all[x] == rest[x]);
            } else {
                assert(all[rest.len() as int] == addressbook_at(nodes, i, username)->Some_0);
            }
        }
        assert forall|x: AddressBookModel| #[trigger] all.contains(x) implies exists|i: int|
            0 <= i < k && #[trigger] addressbook_at(nodes, i, username) == Some(x) by {
            let a = choose|a: int| 0 <= a < all.len() && all[a] == x;
            if a < rest.len() {
                assert(rest[a] == x);
                assert(rest.contains(x));
            } else {
                assert(addressbook_at(nodes, k - 1, username) == Some(x));
            }
        }
    }
}

/// A response that lists an address book other than the user's home: it is
/// a `response` with an `addressbook` resource type and a non-empty href
/// that does not end in `<username>/`.
pub open spec fn lists_addressbook(nodes: Seq<XmlNodeModel>, i: int, username: Seq<char>) -> bool {
    &&& has_tag(nodes[i], DAV_NS@, "response"@)
    &&& subtree_tag(nodes, i, CARDDAV_NS@, "addressbook"@) is Some
    &&& text_or_empty(subtree_text(nodes, i, DAV_NS@, "href"@)).len() > 0
    &&& !(username + "/"@).is_suffix_of(text_or_empty(subtree_text(nodes, i, DAV_NS@, "href"@)))
}

/// The address books of a PROPFIND answer: every response that lists an
/// address book other than the user's home gives one, with its href and its
/// display name (or, without one, the last non-empty piece of its href,
/// or `Unknown`); and every address book listed is one so given.
pub proof fn lemma_listed_addressbooks(nodes: Seq<XmlNodeModel>, username: Seq<char>)
    ensures
        forall|i: int|
            0 <= i < nodes.len() && #[trigger] lists_addressbook(nodes, i, username) ==> addressbooks_in(
                nodes,
                nodes.len() as int,
                username,
            ).contains(
                AddressBookModel {
                    href: text_or_empty(subtree_text(nodes, i, DAV_NS@, "href"@)),
                    name: match subtree_text(nodes, i, DAV_NS@, "displayname"@) {
                        Some(n) => n,
                        None => match last_non_empty(
                            split_on(text_or_empty(subtree_text(nodes, i, DAV_NS@, "href"@)), '/'),
                        ) {
                            Some(p) => p,
                            None => "Unknown"@,
                        },
                    },
                },
            ),
        forall|x: AddressBookModel|
            #[trigger] addressbooks_in(nodes, nodes.len() as int, username).contains(x) ==> exists|i: int|
                0 <= i < nodes.len() && #[trigger] lists_addressbook(nodes, i, username) && x.href == text_or_empty(
                    subtree_text(nodes, i, DAV_NS@, "href"@),
                ),
{
    let n = nodes.len() as int;
    lemma_addressbooks_in_members(nodes, n, username);
    let bs = addressbooks_in(nodes, n, username);
    assert forall|i: int| 0 <= i < nodes.len() && #[trigger] lists_addressbook(nodes, i, username) implies bs.contains(
        AddressBookModel {
            href: text_or_empty(subtree_text(nodes, i, DAV_NS@, "href"@)),
            name: match subtree_text(nodes, i, DAV_NS@, "displayname"@) {
                Some(n) => n,
                None => match last_non_empty(split_on(text_or_empty(subtree_text(nodes, i, DAV_NS@, "href"@)), '/')) {
                    Some(p) => p,
                    None => "Unknown"@,
                },
            },
        },
    ) by {
        assert(addressbook_at(nodes, i, username) is Some);
    }
    assert forall|x: AddressBookModel| #[trigger] bs.contains(x) implies exists|i: int|
        0 <= i < nodes.len() && #[trigger] lists_addressbook(nodes, i, username) && x.href == text_or_empty(
            subtree_text(nodes, i, DAV_NS@, "href"@),
        ) by {
        let i = choose|i: int| 0 <= i < n && #[trigger] addressbook_at(nodes, i, username) == Some(x);
        assert(lists_addressbook(nodes, i, username));
    }
}

} // verus!
