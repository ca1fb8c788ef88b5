//! New contacts from user input, and partial updates of stored ones.
use vstd::prelude::*;
use crate::carddav::{
    clone_emails, clone_opt, clone_phones, opt_view, Contact, ContactEmail, ContactModel, ContactPhone,
    EmailModel, PhoneModel,
};
use crate::commands::{new_uuid_string, uuid_text};

verus! {

/// Fields of a contact to create.
#[derive(Debug, Clone)]
pub struct ContactInput {
    pub name: String,
    pub email: Option<String>,
    pub phone: Option<String>,
    pub organization: Option<String>,
    pub title: Option<String>,
    pub address: Option<String>,
    pub notes: Option<String>,
}

/// Fields of a contact to replace; `None` keeps the stored value.
#[derive(Debug, Clone)]
pub struct ContactPatch {
    pub name: Option<String>,
    pub email: Option<String>,
    pub phone: Option<String>,
    pub organization: Option<String>,
    pub title: Option<String>,
    pub address: Option<String>,
    pub notes: Option<String>,
}

impl Default for ContactInput {
    fn default() -> (r: Self)
        ensures
            r.name@ == Seq::<char>::empty(),
            r.email is None,
            r.phone is None,
            r.organization is None,
            r.title is None,
            r.address is None,
            r.notes is None,
    {
        ContactInput {
            name: String::new(),
            email: None,
            phone: None,
            organization: None,
            title: None,
            address: None,
            notes: None,
        }
    }
}

impl Default for ContactPatch {
    fn default() -> (r: Self)
        ensures
            r.name is None,
            r.email is None,
            r.phone is None,
            r.organization is None,
            r.title is None,
            r.address is None,
            r.notes is None,
    {
        ContactPatch {
            name: None,
            email: None,
            phone: None,
            organization: None,
            title: None,
            address: None,
            notes: None,
        }
    }
}

/// The e-mail list of a contact built from an optional address (no label).
pub open spec fn emails_from(email: Option<Seq<char>>) -> Seq<EmailModel> {
    match email {
        Some(e) => seq![EmailModel { email: e, label: None }],
        None => seq![],
    }
}

/// The phone list of a contact built from an optional number (no label).
pub open spec fn phones_from(phone: Option<Seq<char>>) -> Seq<PhoneModel> {
    match phone {
        Some(p) => seq![PhoneModel { number: p, label: None }],
        None => seq![],
    }
}

/// The contact created from `input` under the id `id`, not yet stored.
pub open spec fn contact_from_input(input: ContactInput, id: Seq<char>) -> ContactModel {
    ContactModel {
        id,
        name: input.name@,
        emails: emails_from(opt_view(input.email)),
        phones: phones_from(opt_view(input.phone)),
        organization: opt_view(input.organization),
        title: opt_view(input.title),
        notes: opt_view(input.notes),
        address: opt_view(input.address),
        href: None,
        etag: None,
    }
}

/// The first present value.
pub open spec fn or_keep(new: Option<Seq<char>>, old: Option<Seq<char>>) -> Option<Seq<char>> {
    match new {
        Some(v) => Some(v),
        None => old,
    }
}

/// A stored contact with a patch applied: each supplied field replaces the
/// stored one (an e-mail or phone replaces the whole list); id, href and
/// ETag are kept.
pub open spec fn patched_contact(c: ContactModel, p: ContactPatch) -> ContactModel {
    ContactModel {
        id: c.id,
        name: match opt_view(p.name) {
            Some(n) => n,
            None => c.name,
        },
        emails: match opt_view(p.email) {
            Some(e) => seq![EmailModel { email: e, label: None }],
            None => c.emails,
        },
        phones: match opt_view(p.phone) {
            Some(n) => seq![PhoneModel { number: n, label: None }],
            None => c.phones,
        },
        organization: or_keep(opt_view(p.organization), c.organization),
        title: or_keep(opt_view(p.title), c.title),
        notes: or_keep(opt_view(p.notes), c.notes),
        address: or_keep(opt_view(p.address), c.address),
        href: c.href,
        etag: c.etag,
    }
}

fn emails_of(email: Option<String>) -> (r: Vec<ContactEmail>)
    ensures
        r@.map_values(|e: ContactEmail| e@) == emails_from(opt_view(email)),
{
    let mut v: Vec<ContactEmail> = Vec::new();
    match email {
        Some(e) => {
            v.push(ContactEmail { email: e, label: None });
        },
        None => {},
    }
    assert(v@.map_values(|e: ContactEmail| e@) =~= emails_from(opt_view(email)));
    v
}

fn phones_of(phone: Option<String>) -> (r: Vec<ContactPhone>)
    ensures
        r@.map_values(|p: ContactPhone| p@) == phones_from(opt_view(phone)),
{
    let mut v: Vec<ContactPhone> = Vec::new();
    match phone {
        Some(p) => {
            v.push(ContactPhone { number: p, label: None });
        },
        None => {},
    }
    assert(v@.map_values(|p: ContactPhone| p@) =~= phones_from(opt_view(phone)));
    v
}

/// The contact created from `input` under a given id.
pub fn build_contact_with_id(input: ContactInput, id: String) -> (r: Contact)
    ensures
        r@ == contact_from_input(input, id@),
{
    let ghost inp = input;
    Contact {
        id,
        name: input.name,
        emails: emails_of(input.email),
        phones: phones_of(input.phone),
        organization: input.organization,
        title: input.title,
        notes: input.notes,
        address: input.address,
        href: None,
        etag: None,
    }
}

/// The contact created from `input` under a fresh random UUID.
pub fn build_contact(input: ContactInput) -> (r: Contact)
    ensures
        r@ == contact_from_input(input, r.id@),
        uuid_text(r.id@),
{
    let id = new_uuid_string();
    build_contact_with_id(input, id)
}

/// Apply a patch to a stored contact.
pub fn apply_contact_patch(existing: &Contact, patch: ContactPatch) -> (r: Contact)
    ensures
        r@ == patched_contact(existing@, patch),
{
    let ghost p = patch;
    let emails = match patch.email {
        Some(email) => {
            let mut v: Vec<ContactEmail> = Vec::new();
            v.push(ContactEmail { email, label: None });
            assert(v@.map_values(|e: ContactEmail| e@) =~= seq![EmailModel { email: email@, label: None }]);
            v
        },
        None => clone_emails(&existing.emails),
    };
    let phones = match patch.phone {
        Some(number) => {
            let mut v: Vec<ContactPhone> = Vec::new();
            v.push(ContactPhone { number, label: None });
            assert(v@.map_values(|q: ContactPhone| q@) =~= seq![PhoneModel { number: number@, label: None }]);
            v
        },
        None => clone_phones(&existing.phones),
    };
    Contact {
        id: existing.id.clone(),
        name: match patch.name {
            Some(n) => n,
            None => existing.name.clone(),
        },
        emails,
        phones,
        organization: match patch.organization {
            Some(v) => Some(v),
            None => clone_opt(&existing.organization),
        },
        title: match patch.title {
            Some(v) => Some(v),
            None => clone_opt(&existing.title),
        },
        notes: match patch.notes {
            Some(v) => Some(v),
            None => clone_opt(&existing.notes),
        },
        address: match patch.address {
            Some(v) => Some(v),
            None => clone_opt(&existing.address),
        },
        href: clone_opt(&existing.href),
        etag: clone_opt(&existing.etag),
    }
}


/// The patch that changes nothing.
pub open spec fn empty_contact_patch() -> ContactPatch {
    ContactPatch {
        name: None,
        email: None,
        phone: None,
        organization: None,
        title: None,
        address: None,
        notes: None,
    }
}

/// An empty patch leaves a contact as it is.
pub proof fn lemma_empty_contact_patch(c: ContactModel)
    ensures
        patched_contact(c, empty_contact_patch()) == c,
{
}

/// Applying a patch a second time changes nothing more.
pub proof fn lemma_contact_patch_idempotent(c: ContactModel, p: ContactPatch)
    ensures
        patched_contact(patched_contact(c, p), p) == patched_contact(c, p),
{
}

/// A patch replaces exactly the fields it supplies: a supplied name, title,
/// organization, notes or address becomes the contact's; a supplied e-mail
/// or phone becomes its only e-mail or phone, without a label; every field
/// the patch leaves out, and the id, href and ETag, stay as stored.
pub proof fn lemma_contact_patch_fields(c: ContactModel, p: ContactPatch)
    ensures
        ({
            let r = patched_contact(c, p);
            &&& r.id == c.id && r.href == c.href && r.etag == c.etag
            &&& match p.name {
                Some(n) => r.name == n@,
                None => r.name == c.name,
            }
            &&& match p.email {
                Some(e) => r.emails.len() == 1 && r.emails[0].email == e@ && r.emails[0].label is None,
                None => r.emails == c.emails,
            }
            &&& match p.phone {
                Some(n) => r.phones.len() == 1 && r.phones[0].number == n@ && r.phones[0].label is None,
                None => r.phones == c.phones,
            }
            &&& match p.organization {
                Some(v) => r.organization == Some(v@),
                None => r.organization == c.organization,
            }
            &&& match p.title {
                Some(v) => r.title == Some(v@),
                None => r.title == c.title,
            }
            &&& match p.notes {
                Some(v) => r.notes == Some(v@),
                None => r.notes == c.notes,
            }
            &&& match p.address {
                Some(v) => r.address == Some(v@),
                None => r.address == c.address,
            }
        }),
{
}

/// A new contact carries every field of its input as given: the name, the
/// e-mail and phone (as its only one, unlabelled, when given; none
/// otherwise), organization, title, notes and address; its id is the one it
/// was created under, and it has no href or ETag yet.
pub proof fn lemma_contact_from_input_fields(input: ContactInput, id: Seq<char>)
    ensures
        ({
            let r = contact_from_input(input, id);
            &&& r.id == id && r.href is None && r.etag is None
            &&& r.name == input.name@
            &&& match input.email {
                Some(e) => r.emails.len() == 1 && r.emails[0].email == e@ && r.emails[0].label is None,
                None => r.emails.len() == 0,
            }
            &&& match input.phone {
                Some(n) => r.phones.len() == 1 && r.phones[0].number == n@ && r.phones[0].label is None,
                None => r.phones.len() == 0,
            }
            &&& r.organization == opt_view(input.organization) && r.title == opt_view(input.title)
            &&& r.notes == opt_view(input.notes) && r.address == opt_view(input.address)
            &&& (input.title matches Some(t) ==> r.title == Some(t@))
            &&& (input.organization matches Some(t) ==> r.organization == Some(t@))
            &&& (input.notes matches Some(t) ==> r.notes == Some(t@))
            &&& (input.address matches Some(t) ==> r.address == Some(t@))
        }),
{
}

} // verus!
