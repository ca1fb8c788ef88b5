//! CardDAV contacts: the data model and the vCard 3.0 codec.
//!
//! The HTTP transport (PROPFIND / REPORT / PUT / DELETE) lives in the
//! application; this module holds everything it computes.
use vstd::prelude::*;

pub mod vcard;
pub mod responses;
pub mod lookup;
pub mod readback;

pub use vcard::{
    build_contact_href, decode_qp, escape_value, fold_line, hash_id, parse_vcard, serialize_vcard,
    unescape_value, unfold_vcard,
};


verus! {

/// A contact parsed from vCard.
#[derive(Debug, Clone, PartialEq, Eq)]
pub struct Contact {
    /// Unique ID (from the UID property).
    pub id: String,
    /// Full name (FN property).
    pub name: String,
    pub emails: Vec<ContactEmail>,
    pub phones: Vec<ContactPhone>,
    pub organization: Option<String>,
    pub title: Option<String>,
    pub notes: Option<String>,
    /// Street address (street component of ADR).
    pub address: Option<String>,
    /// Server-assigned resource URL; required for PUT/DELETE.
    pub href: Option<String>,
    /// HTTP ETag for optimistic concurrency control.
    pub etag: Option<String>,
}

#[derive(Debug, Clone, PartialEq, Eq)]
pub struct ContactEmail {
    pub email: String,
    pub label: Option<String>,
}

#[derive(Debug, Clone, PartialEq, Eq)]
pub struct ContactPhone {
    pub number: String,
    pub label: Option<String>,
}

/// Address book info.
#[derive(Debug, Clone)]
pub struct AddressBook {
    pub href: String,
    pub name: String,
}

#[derive(Debug, Clone, PartialEq, Eq)]
pub struct ContactCreateResult {
    pub href: String,
    pub etag: Option<String>,
}

/// Contact group (vCard KIND:group).
#[derive(Debug, Clone, PartialEq, Eq)]
pub struct ContactGroup {
    pub id: String,
    pub name: String,
    pub member_uids: Vec<String>,
    pub href: Option<String>,
    pub etag: Option<String>,
}

/// An optional string's characters.
pub open spec fn opt_view(o: Option<String>) -> Option<Seq<char>> {
    match o {
        Some(s) => Some(s@),
        None => None,
    }
}

/// Mathematical model of an e-mail entry.
pub struct EmailModel {
    pub email: Seq<char>,
    pub label: Option<Seq<char>>,
}

/// Mathematical model of a phone entry.
pub struct PhoneModel {
    pub number: Seq<char>,
    pub label: Option<Seq<char>>,
}

/// Mathematical model of a contact.
pub struct ContactModel {
    pub id: Seq<char>,
    pub name: Seq<char>,
    pub emails: Seq<EmailModel>,
    pub phones: Seq<PhoneModel>,
    pub organization: Option<Seq<char>>,
    pub title: Option<Seq<char>>,
    pub notes: Option<Seq<char>>,
    pub address: Option<Seq<char>>,
    pub href: Option<Seq<char>>,
    pub etag: Option<Seq<char>>,
}

impl View for ContactEmail {
    type V = EmailModel;

    open spec fn view(&self) -> EmailModel {
        EmailModel { email: self.email@, label: opt_view(self.label) }
    }
}

impl View for ContactPhone {
    type V = PhoneModel;

    open spec fn view(&self) -> PhoneModel {
        PhoneModel { number: self.number@, label: opt_view(self.label) }
    }
}

impl View for Contact {
    type V = ContactModel;

    open spec fn view(&self) -> ContactModel {
        ContactModel {
            id: self.id@,
            name: self.name@,
            emails: self.emails@.map_values(|e: ContactEmail| e@),
            phones: self.phones@.map_values(|p: ContactPhone| p@),
            organization: opt_view(self.organization),
            title: opt_view(self.title),
            notes: opt_view(self.notes),
            address: opt_view(self.address),
            href: opt_view(self.href),
            etag: opt_view(self.etag),
        }
    }
}

/// Copies an optional string, keeping its characters.
pub fn clone_opt(o: &Option<String>) -> (r: Option<String>)
    ensures
        opt_view(r) == opt_view(*o),
{
    match o {
        Some(s) => Some(s.clone()),
        None => None,
    }
}

/// Copies an e-mail entry.
pub fn clone_email(e: &ContactEmail) -> (r: ContactEmail)
    ensures
        r@ == e@,
{
    ContactEmail { email: e.email.clone(), label: clone_opt(&e.label) }
}

/// Copies a phone entry.
pub fn clone_phone(p: &ContactPhone) -> (r: ContactPhone)
    ensures
        r@ == p@,
{
    ContactPhone { number: p.number.clone(), label: clone_opt(&p.label) }
}

/// Copies a list of e-mail entries.
pub fn clone_emails(v: &Vec<ContactEmail>) -> (r: Vec<ContactEmail>)
    ensures
        r@.map_values(|e: ContactEmail| e@) == v@.map_values(|e: ContactEmail| e@),
{
    let mut r: Vec<ContactEmail> = Vec::new();
    for i in 0..v.len()
        invariant
            r.len() == i,
            forall|j: int| 0 <= j < i ==> (#[trigger] r@[j])@ == v@[j]@,
    {
        r.push(clone_email(&v[i]));
    }
    assert(r@.map_values(|e: ContactEmail| e@) =~= v@.map_values(|e: ContactEmail| e@));
    r
}

/// Copies a list of phone entries.
pub fn clone_phones(v: &Vec<ContactPhone>) -> (r: Vec<ContactPhone>)
    ensures
        r@.map_values(|p: ContactPhone| p@) == v@.map_values(|p: ContactPhone| p@),
{
    let mut r: Vec<ContactPhone> = Vec::new();
    for i in 0..v.len()
        invariant
            r.len() == i,
            forall|j: int| 0 <= j < i ==> (#[trigger] r@[j])@ == v@[j]@,
    {
        r.push(clone_phone(&v[i]));
    }
    assert(r@.map_values(|p: ContactPhone| p@) =~= v@.map_values(|p: ContactPhone| p@));
    r
}

} // verus!
