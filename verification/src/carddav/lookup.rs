//! Picking contacts out of what the address books hold, and what a contact
//! write leads to once the server has answered.
use vstd::prelude::*;
use crate::carddav::{
    AddressBook, Contact, ContactEmail, ContactGroup, ContactModel, clone_emails, clone_opt, clone_phones,
};
use crate::carddav::responses::{
    CARDDAV_BASE, contact_write_result, contacts_view, extract_location_path, map_write_response,
};
use crate::caldav::dav::location_path_under;
use crate::carddav::opt_view;
use crate::commands::{new_uuid_string, uuid_text};
use crate::error::Error;
use crate::text::{chars_of, contains, contains_seq, eq_chars, to_lowercase, unicode_lower};

verus! {

/// A copy of a contact.
pub fn clone_contact(f: &Contact) -> (r: Contact)
    ensures
        r@ == f@,
{
    let r = Contact {
        id: f.id.clone(),
        name: f.name.clone(),
        emails: clone_emails(&f.emails),
        phones: clone_phones(&f.phones),
        organization: clone_opt(&f.organization),
        title: clone_opt(&f.title),
        notes: clone_opt(&f.notes),
        address: clone_opt(&f.address),
        href: clone_opt(&f.href),
        etag: clone_opt(&f.etag),
    };
    r
}

// ===================== Search =====================

/// A contact matches a lower-cased query when its lower-cased name, one of
/// its lower-cased e-mail addresses or its lower-cased organization
/// contains it.
pub open spec fn contact_matches(c: ContactModel, q: Seq<char>) -> bool {
    ||| contains_seq(unicode_lower(c.name), q)
    ||| exists|k: int| 0 <= k < c.emails.len() && contains_seq(unicode_lower(#[trigger] c.emails[k].email), q)
    ||| (c.organization matches Some(o) && contains_seq(unicode_lower(o), q))
}

/// The contacts that match, in order.
pub open spec fn matching_contacts(cs: Seq<ContactModel>, q: Seq<char>) -> Seq<ContactModel>
    decreases cs.len(),
{
    if cs.len() == 0 {
        seq![]
    } else {
        let rest = matching_contacts(cs.drop_last(), q);
        if contact_matches(cs.last(), q) {
            rest.push(cs.last())
        } else {
            rest
        }
    }
}

fn lower_contains(s: &str, q: &Vec<char>) -> (r: bool)
    ensures
        r == contains_seq(unicode_lower(s@), q@),
{
    let l = chars_of(to_lowercase(s).as_str());
    let qs = crate::text::string_of(q);
    contains(&l, qs.as_str())
}

fn matches_query(c: &Contact, q: &Vec<char>) -> (r: bool)
    ensures
        r == contact_matches(c@, q@),
{
    if lower_contains(c.name.as_str(), q) {
        return true;
    }
    let ghost ev = c.emails@.map_values(|e: ContactEmail| e@);
    assert(c@.emails == ev);
    for k in 0..c.emails.len()
        invariant
            ev == c.emails@.map_values(|e: ContactEmail| e@),
            c@.emails == ev,
            forall|j: int| 0 <= j < k ==> !contains_seq(unicode_lower(#[trigger] ev[j].email), q@),
    {
        assert(ev[k as int] == c.emails@[k as int]@);
        if lower_contains(c.emails[k].email.as_str(), q) {
            assert(contains_seq(unicode_lower(c@.emails[k as int].email), q@));
            return true;
        }
    }
    match &c.organization {
        Some(o) => lower_contains(o.as_str(), q),
        None => false,
    }
}

/// The contacts whose name, an e-mail address or organization contains
/// the query, ignoring case.
pub fn search_contacts_in(contacts: &Vec<Contact>, query: &str) -> (r: Vec<Contact>)
    ensures
        contacts_view(r@) == matching_contacts(contacts_view(contacts@), unicode_lower(query@)),
{
    let q = chars_of(to_lowercase(query).as_str());
    let ghost cv = contacts_view(contacts@);
    let mut out: Vec<Contact> = Vec::new();
    assert(contacts_view(out@) =~= matching_contacts(cv.take(0), q@));
    for i in 0..contacts.len()
        invariant
            cv == contacts_view(contacts@),
            q@ == unicode_lower(query@),
            contacts_view(out@) == matching_contacts(cv.take(i as int), q@),
    {
        assert(cv.take(i + 1).drop_last() =~= cv.take(i as int));
        assert(cv.take(i + 1).last() == contacts@[i as int]@);
        if matches_query(&contacts[i], &q) {
            let ghost before = contacts_view(out@);
            out.push(clone_contact(&contacts[i]));
            assert(contacts_view(out@) =~= before.push(contacts@[i as int]@));
        }
    }
    assert(cv.take(contacts.len() as int) =~= cv);
    out
}

// ===================== Lookup =====================

/// Index of the first contact with the id.
pub open spec fn first_with_contact_id(cs: Seq<ContactModel>, id: Seq<char>) -> Option<int>
    decreases cs.len(),
{
    if cs.len() == 0 {
        None
    } else if cs[0].id == id {
        Some(0)
    } else {
        match first_with_contact_id(cs.drop_first(), id) {
            Some(k) => Some(k + 1),
            None => None,
        }
    }
}

/// The first contact with the id, or not found naming the id.
pub fn find_contact(contacts: &Vec<Contact>, contact_id: &str) -> (r: Result<Contact, Error>)
    ensures
        match first_with_contact_id(contacts_view(contacts@), contact_id@) {
            Some(k) => 0 <= k < contacts@.len() && (r matches Ok(c) && c@ == contacts@[k]@),
            None => r matches Err(Error::ContactNotFound(id)) && id@ == contact_id@,
        },
{
    let ghost cv = contacts_view(contacts@);
    let want = chars_of(contact_id);
    let mut i: usize = 0;
    assert(cv.skip(0) =~= cv);
    while i < contacts.len()
        invariant
            i <= contacts@.len(),
            cv == contacts_view(contacts@),
            want@ == contact_id@,
            first_with_contact_id(cv, contact_id@) == match first_with_contact_id(cv.skip(i as int), contact_id@) {
                Some(k) => Some(k + i),
                None => None,
            },
        decreases contacts.len() - i,
    {
        assert(cv.skip(i as int)[0] == cv[i as int]);
        assert(cv.skip(i as int).drop_first() =~= cv.skip(i + 1));
        assert(cv[i as int] == contacts@[i as int]@);
        let id = chars_of(contacts[i].id.as_str());
        if eq_chars(&id, &want) {
            return Ok(clone_contact(&contacts[i]));
        }
        i = i + 1;
    }
    assert(cv.skip(i as int) =~= Seq::<ContactModel>::empty());
    Err(Error::ContactNotFound(contact_id.to_string()))
}

/// The address book new contacts go to: the first one found.
pub fn first_addressbook_href(addressbooks: &Vec<AddressBook>) -> (r: Result<String, Error>)
    ensures
        addressbooks@.len() > 0 ==> (r matches Ok(h) && h@ == addressbooks@[0].href@),
        addressbooks@.len() == 0 ==> (r matches Err(Error::Server(m)) && m@ == "No CardDAV address books found"@),
{
    if addressbooks.len() > 0 {
        Ok(addressbooks[0].href.clone())
    } else {
        Err(Error::Server("No CardDAV address books found".to_string()))
    }
}

// ===================== Writes =====================

/// Where a new contact was stored and its ETag.
#[derive(Debug, Clone)]
pub struct ContactCreateResult {
    pub href: String,
    pub etag: Option<String>,
}

/// What the answer to creating a contact means: where it was stored (the
/// `Location` the server gave, or else where it was put) and its ETag, or
/// the write error.
pub fn contact_created(
    contact: &Contact,
    requested_href: String,
    status: u16,
    status_text: &str,
    location: Option<String>,
    server_etag: Option<String>,
    body: &str,
) -> (r: Result<ContactCreateResult, Error>)
    ensures
        exists|w: Result<Option<String>, Error>|
            contact_write_result(contact.id@, None, status, status_text@, opt_view(server_etag), body@, w)
                && match w {
                Ok(e) => r matches Ok(c) && opt_view(c.etag) == opt_view(e) && c.href@ == match location_path_under(
                    CARDDAV_BASE@,
                    opt_view(location),
                ) {
                    Some(p) => p,
                    None => requested_href@,
                },
                Err(e) => r == Err::<ContactCreateResult, Error>(e),
            },
{
    let w = map_write_response(contact, None, status, status_text, server_etag, body);
    match w {
        Ok(e) => {
            let href = match extract_location_path(location) {
                Some(p) => p,
                None => requested_href,
            };
            let r = Ok(ContactCreateResult { href, etag: e });
            r
        },
        Err(e) => Err(e),
    }
}

/// What the answer to updating a contact means: the new ETag (the server's,
/// else the contact's own, else the one sent), or the write error.
pub fn contact_updated(
    contact: &Contact,
    etag: &str,
    status: u16,
    status_text: &str,
    server_etag: Option<String>,
    body: &str,
) -> (r: Result<String, Error>)
    ensures
        exists|w: Result<Option<String>, Error>|
            contact_write_result(contact.id@, Some(etag@), status, status_text@, opt_view(server_etag), body@, w)
                && match w {
                Ok(e) => r matches Ok(t) && t@ == match opt_view(e) {
                    Some(x) => x,
                    None => match opt_view(contact.etag) {
                        Some(x) => x,
                        None => etag@,
                    },
                },
                Err(e) => r == Err::<String, Error>(e),
            },
{
    let w = map_write_response(contact, Some(etag), status, status_text, server_etag, body);
    match w {
        Ok(Some(t)) => Ok(t),
        Ok(None) => match &contact.etag {
            Some(t) => Ok(t.clone()),
            None => Ok(etag.to_string()),
        },
        Err(e) => Err(e),
    }
}

/// What the answer to deleting the contact `contact_id` means.
pub fn contact_deleted(
    contact_id: &str,
    href: &str,
    etag: &str,
    status: u16,
    status_text: &str,
    server_etag: Option<String>,
    body: &str,
) -> (r: Result<(), Error>)
    ensures
        exists|w: Result<Option<String>, Error>|
            contact_write_result(contact_id@, Some(etag@), status, status_text@, opt_view(server_etag), body@, w)
                && match w {
                Ok(_) => r is Ok,
                Err(e) => r == Err::<(), Error>(e),
            },
{
    let contact = Contact {
        id: contact_id.to_string(),
        name: String::new(),
        emails: Vec::new(),
        phones: Vec::new(),
        organization: None,
        title: None,
        notes: None,
        address: None,
        href: Some(href.to_string()),
        etag: Some(etag.to_string()),
    };
    match map_write_response(&contact, Some(etag), status, status_text, server_etag, body) {
        Ok(_) => Ok(()),
        Err(e) => Err(e),
    }
}

// ===================== Groups =====================

/// A new, empty group with a fresh random id.
pub fn new_group(name: &str) -> (r: ContactGroup)
    ensures
        uuid_text(r.id@),
        r.name@ == name@,
        r.member_uids@.len() == 0,
        r.href is None,
        r.etag is None,
{
    ContactGroup { id: new_uuid_string(), name: name.to_string(), member_uids: Vec::new(), href: None, etag: None }
}

/// What a group rename or delete is sent with: its href and ETag; not found
/// without an href, a conflict with nothing sent without an ETag, both
/// naming the group as the user gave it.
pub fn group_write_target(group: &ContactGroup, id_or_name: &str) -> (r: Result<(String, String), Error>)
    ensures
        match (group.href, group.etag) {
            (Some(h), Some(t)) => r matches Ok((x, y)) && x@ == h@ && y@ == t@,
            (None, _) => r matches Err(Error::GroupNotFound(id)) && id@ == id_or_name@,
            (Some(_), None) => r matches Err(Error::GroupConflict { id, sent_etag, server_etag }) && id@
                == id_or_name@ && sent_etag@ == Seq::<char>::empty() && server_etag is None,
        },
{
    let href = match &group.href {
        Some(h) => h.clone(),
        None => {
            return Err(Error::GroupNotFound(id_or_name.to_string()));
        },
    };
    match &group.etag {
        Some(t) => Ok((href, t.clone())),
        None => Err(Error::GroupConflict { id: id_or_name.to_string(), sent_etag: String::new(), server_etag: None }),
    }
}

/// After looking a group up by id: the group, `None` to look it up by name
/// when no group has that id, or any other error.
pub fn after_group_by_id(found: Result<ContactGroup, Error>) -> (r: Option<Result<ContactGroup, Error>>)
    ensures
        match found {
            Err(Error::GroupNotFound(_)) => r is None,
            other => r == Some(other),
        },
{
    match found {
        Err(Error::GroupNotFound(_)) => None,
        other => Some(other),
    }
}

/// What a contact update or delete is sent with: its href and ETag; not
/// found without an href, a conflict with nothing sent without an ETag, both
/// naming the contact as the user gave it.
pub fn contact_write_target(contact: &Contact, contact_id: &str) -> (r: Result<(String, String), Error>)
    ensures
        match (contact.href, contact.etag) {
            (Some(h), Some(t)) => r matches Ok((x, y)) && x@ == h@ && y@ == t@,
            (None, _) => r matches Err(Error::ContactNotFound(id)) && id@ == contact_id@,
            (Some(_), None) => r matches Err(Error::ContactConflict { id, sent_etag, server_etag }) && id@
                == contact_id@ && sent_etag@ == Seq::<char>::empty() && server_etag is None,
        },
{
    let href = match &contact.href {
        Some(h) => h.clone(),
        None => {
            return Err(Error::ContactNotFound(contact_id.to_string()));
        },
    };
    match &contact.etag {
        Some(t) => Ok((href, t.clone())),
        None => Err(Error::ContactConflict { id: contact_id.to_string(), sent_etag: String::new(), server_etag: None }),
    }
}

} // verus!
