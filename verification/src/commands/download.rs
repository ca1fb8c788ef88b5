//! Naming downloaded attachments safely.
use vstd::prelude::*;
use crate::carddav::opt_view;
use crate::text::{
    chars_of, ends_with, eq_str, extend_str, first_index_of, last_index_of, lemma_first_index_of, split_on,
    string_of, to_lowercase, unicode_lower,
};

verus! {

/// A path component that names an entry of its directory: neither empty,
/// `.` nor `..`.
pub open spec fn plain_component(n: Seq<char>) -> bool {
    n.len() > 0 && n != "."@ && n != ".."@
}

/// A path that every platform reads alike: `/` is its only separator, and it
/// has no prefix (no `\`, no `:`, and it does not start with `//`).
pub open spec fn portable_path(raw: Seq<char>) -> bool {
    &&& forall|i: int| 0 <= i < raw.len() ==> raw[i] != '\\' && raw[i] != ':'
    &&& !(raw.len() >= 2 && raw[0] == '/' && raw[1] == '/')
}

/// The last of `parts` that is neither empty nor `.`.
pub open spec fn last_component(parts: Seq<Seq<char>>) -> Option<Seq<char>>
    decreases parts.len(),
{
    if parts.len() == 0 {
        None
    } else if parts.last().len() == 0 || parts.last() == "."@ {
        last_component(parts.drop_last())
    } else {
        Some(parts.last())
    }
}

/// The final component of a `/`-separated path: the last piece between `/`s
/// that is neither empty nor `.`; `None` when there is none or it is `..`.
pub open spec fn file_name_of(raw: Seq<char>) -> Option<Seq<char>> {
    match last_component(split_on(raw, '/')) {
        Some(p) => if p == ".."@ {
            None
        } else {
            Some(p)
        },
        None => None,
    }
}

/// The name an attachment is saved under, given the final component of the
/// name the server gave: that component, or `attachment` when there is none.
pub open spec fn name_or_attachment(file_name: Option<Seq<char>>) -> Seq<char> {
    match file_name {
        Some(n) => n,
        None => "attachment"@,
    }
}

/// What `std::path::Path::file_name` can give for a path: nothing, or a
/// plain component; on a `portable_path`, its final `/`-separated component.
pub open spec fn file_name_outcome(raw: Seq<char>, file_name: Option<Seq<char>>) -> bool {
    &&& file_name matches Some(n) ==> plain_component(n)
    &&& portable_path(raw) ==> file_name == file_name_of(raw)
}

/// `std::path::Path::file_name` on `raw` read as a path: its final
/// component, `None` when the path ends in `..` or has no final component.
/// Only normal components are returned, so the result is never empty, `.`
/// or `..`. On a `portable_path` every platform splits at `/` alone and
/// finds no prefix; repeated separators and `.` components are skipped, so
/// the result is `file_name_of(raw)`. Elsewhere which characters separate
/// components is the platform's (also `\` and prefixes such as `C:` or
/// `//server` on Windows), and nothing more is stated.
#[verifier::external_body]
fn path_file_name(raw: &str) -> (r: Option<String>)
    ensures
        r matches Some(n) ==> plain_component(n@),
        portable_path(raw@) ==> opt_view(r) == file_name_of(raw@),
{
    match std::path::Path::new(raw).file_name() {
        Some(n) => Some(n.to_string_lossy().to_string()),
        None => None,
    }
}

/// The name an attachment is saved under, given the final path component of
/// the name the server gave.
pub fn attachment_name(file_name: Option<String>) -> (r: String)
    ensures
        r@ == name_or_attachment(opt_view(file_name)),
{
    match file_name {
        Some(n) => n,
        None => "attachment".to_string(),
    }
}

/// The name an attachment is known by: the name the server gave, or its
/// blob id with `.bin` when it gave none.
pub fn attachment_filename(name: Option<String>, blob_id: &str) -> (r: String)
    ensures
        r@ == match opt_view(name) {
            Some(n) => n,
            None => blob_id@ + ".bin"@,
        },
{
    match name {
        Some(n) => n,
        None => {
            let mut out: Vec<char> = crate::text::chars_of(blob_id);
            crate::text::extend_str(&mut out, ".bin");
            crate::text::string_of(&out)
        },
    }
}

/// The stem of a file name (`Path::file_stem` on it): the part before its
/// last `.`, or the whole name when it has no `.` or only a leading one.
pub open spec fn stem_of(n: Seq<char>) -> Seq<char> {
    match last_index_of(n, '.') {
        Some(i) => if i == 0 {
            n
        } else {
            n.take(i)
        },
        None => n,
    }
}

/// `std::path::Path::file_stem` on `raw` read as a path: the stem of its
/// final component, `None` when it has none. On a `portable_path` that is
/// the stem of `file_name_of(raw)`; elsewhere which component is the
/// platform's, and nothing is stated.
#[verifier::external_body]
fn path_file_stem(raw: &str) -> (r: Option<String>)
    ensures
        portable_path(raw@) ==> opt_view(r) == match file_name_of(raw@) {
            Some(n) => Some(stem_of(n)),
            None => None,
        },
{
    match std::path::Path::new(raw).file_stem() {
        Some(n) => Some(n.to_string_lossy().to_string()),
        None => None,
    }
}

/// A resized image now in JPEG gets a `.jpg` name, unless its name already
/// ends in `.jpg` or `.jpeg` (in any case).
pub open spec fn needs_jpg_name(filename: Seq<char>, new_mime: Seq<char>) -> bool {
    new_mime == "image/jpeg"@ && !".jpg"@.is_suffix_of(unicode_lower(filename)) && !".jpeg"@.is_suffix_of(
        unicode_lower(filename),
    )
}

/// The name of a resized image given its stem as `Path::file_stem` read it:
/// the stem (or the whole name when there is none) with `.jpg`, where the
/// image became a JPEG under another name; the name unchanged otherwise.
pub open spec fn resized_name_with(filename: Seq<char>, new_mime: Seq<char>, stem: Option<Seq<char>>) -> Seq<char> {
    if needs_jpg_name(filename, new_mime) {
        match stem {
            Some(st) => st + ".jpg"@,
            None => filename + ".jpg"@,
        }
    } else {
        filename
    }
}

/// The name of an attachment after it was resized to `new_mime`: renamed to
/// `<stem>.jpg` when it became a JPEG under another name. On a
/// `portable_path` the stem is that of its last `/`-separated component.
pub fn resized_filename(filename: &str, new_mime: &str) -> (r: String)
    ensures
        exists|stem: Option<Seq<char>>| #![trigger resized_name_with(filename@, new_mime@, stem)]
            r@ == resized_name_with(filename@, new_mime@, stem),
        portable_path(filename@) ==> r@ == resized_name_with(
            filename@,
            new_mime@,
            match file_name_of(filename@) {
                Some(n) => Some(stem_of(n)),
                None => None,
            },
        ),
{
    let mime = chars_of(new_mime);
    let lower = to_lowercase(filename);
    let lc = chars_of(lower.as_str());
    if eq_str(&mime, "image/jpeg") && !ends_with(&lc, ".jpg") && !ends_with(&lc, ".jpeg") {
        let stem = path_file_stem(filename);
        let ghost sv = opt_view(stem);
        let mut out: Vec<char> = match stem {
            Some(st) => chars_of(st.as_str()),
            None => chars_of(filename),
        };
        extend_str(&mut out, ".jpg");
        let r = string_of(&out);
        assert(r@ == resized_name_with(filename@, new_mime@, sv));
        r
    } else {
        let r = string_of(&chars_of(filename));
        assert(r@ == resized_name_with(filename@, new_mime@, None));
        r
    }
}

/// Strips every directory component from a server-supplied file name: the
/// final component of the name read as a path, `attachment` when it has none.
/// On a `portable_path` that is its last `/`-separated piece that is neither
/// empty nor `.`, or `attachment` when that piece is `..` or there is none.
/// The result never leads out of the download directory: it is a plain
/// component.
pub fn safe_filename(raw: &str) -> (r: String)
    ensures
        exists|f: Option<Seq<char>>| file_name_outcome(raw@, f) && r@ == name_or_attachment(f),
        portable_path(raw@) ==> r@ == name_or_attachment(file_name_of(raw@)),
        plain_component(r@),
{
    proof {
        reveal_strlit(".");
        reveal_strlit("..");
        reveal_strlit("attachment");
    }
    let f = path_file_name(raw);
    let ghost fv = opt_view(f);
    let r = attachment_name(f);
    assert(file_name_outcome(raw@, fv) && r@ == name_or_attachment(fv));
    r
}

proof fn lemma_split_parts_free_of(s: Seq<char>, c: char)
    ensures
        forall|k: int, j: int|
            0 <= k < split_on(s, c).len() && 0 <= j < split_on(s, c)[k].len() ==> #[trigger] split_on(s, c)[k][j]
                != c,
    decreases s.len(),
{
    lemma_first_index_of(s, c);
    match first_index_of(s, c) {
        Some(i) => {
            lemma_split_parts_free_of(s.skip(i + 1), c);
            assert forall|k: int, j: int|
                0 <= k < split_on(s, c).len() && 0 <= j < split_on(s, c)[k].len() implies #[trigger] split_on(
                s,
                c,
            )[k][j] != c by {
                if k > 0 {
                    assert(split_on(s, c)[k] == split_on(s.skip(i + 1), c)[k - 1]);
                }
            }
        },
        None => {},
    }
}

proof fn lemma_last_component_in(parts: Seq<Seq<char>>)
    ensures
        match last_component(parts) {
            Some(p) => exists|k: int| 0 <= k < parts.len() && parts[k] == p,
            None => true,
        },
    decreases parts.len(),
{
    if parts.len() > 0 && (parts.last().len() == 0 || parts.last() == "."@) {
        lemma_last_component_in(parts.drop_last());
        if let Some(p) = last_component(parts.drop_last()) {
            let k = choose|k: int| 0 <= k < parts.drop_last().len() && parts.drop_last()[k] == p;
            assert(parts[k] == p);
        }
    } else if parts.len() > 0 {
        assert(parts[parts.len() - 1] == parts.last());
    }
}

/// The final component of a `/`-separated path holds no `/`.
pub proof fn lemma_file_name_has_no_slash(raw: Seq<char>)
    ensures
        file_name_of(raw) matches Some(n) ==> forall|i: int| 0 <= i < n.len() ==> #[trigger] n[i] != '/',
{
    let parts = split_on(raw, '/');
    lemma_split_parts_free_of(raw, '/');
    lemma_last_component_in(parts);
    if let Some(p) = last_component(parts) {
        let k = choose|k: int| 0 <= k < parts.len() && parts[k] == p;
        assert forall|i: int| 0 <= i < p.len() implies p[i] != '/' by {
            assert(split_on(raw, '/')[k][i] != '/');
        }
    }
}

} // verus!
