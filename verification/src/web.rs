//! Decisions of the HTTP server that do not touch the network or the disk.

use vstd::prelude::*;
use crate::text::{after_last, concat, replace_all, str_after_last, to_chars, replace_str, starts_with, str_eq, str_starts_with, str_strip_leading, strip_leading, substring};
use crate::json::{bool_member, json_bool_member};

verus! {

/// The file a request path asks for under the static directory, or `None`
/// for the index page: the path without its leading slashes.
pub open spec fn static_target(path: Seq<char>) -> Option<Seq<char>> {
    let p = strip_leading(path, '/');
    if p.len() == 0 { None } else { Some(p) }
}

/// The static file a request path asks for; `None` for the index page.
pub fn spa_target(path: &str) -> (r: Option<String>)
    ensures
        match r {
            Some(p) => static_target(path@) == Some(p@),
            None => static_target(path@) is None,
        },
{
    let p = str_strip_leading(path, '/');
    if p.unicode_len() == 0 {
        None
    } else {
        Some(p)
    }
}

/// The MIME type that `actix_files::file_extension_to_mime` gives for a
/// file name extension.
pub uninterp spec fn mime_of(ext: Seq<char>) -> Seq<char>;

/// The MIME type of a file name extension, matched without regard to case
/// (`actix_files::file_extension_to_mime`, written out with `to_string`).
/// Its documentation gives `application/octet-stream` for an empty
/// extension (and for one it does not know).
#[verifier::external_body]
pub(crate) fn mime_for_extension(ext: &str) -> (r: String)
    ensures
        r@ == mime_of(ext@),
        ext@.len() == 0 ==> r@ == "application/octet-stream"@,
{
    actix_files::file_extension_to_mime(ext).to_string()
}

/// The position of the last `.` of `s`.
pub open spec fn last_dot(s: Seq<char>) -> Option<int>
    decreases s.len(),
{
    if s.len() == 0 {
        None
    } else if s.last() == '.' {
        Some(s.len() - 1)
    } else {
        last_dot(s.drop_last())
    }
}

/// The extension of the file a relative path names, as `Path::extension`
/// reads it (empty when there is none): the text after the last `.` of the
/// last segment, unless that segment has no dot, is `..`, or has its only
/// dot in front. For a path that ends in `/`, `.` or `..` this is the
/// extension of that last piece of text; such a path never names a file.
pub open spec fn path_extension(path: Seq<char>) -> Seq<char> {
    let name = after_last(path, '/');
    match last_dot(name) {
        Some(i) => if i > 0 && name != ".."@ { name.skip(i + 1) } else { Seq::empty() },
        None => Seq::empty(),
    }
}

proof fn lemma_last_dot_take(s: Seq<char>, k: int)
    requires
        0 <= k <= s.len(),
        forall|j: int| k <= j < s.len() ==> s[j] != '.',
    ensures
        last_dot(s.take(k)) == last_dot(s),
    decreases s.len() - k,
{
    if k < s.len() {
        assert(s.drop_last().take(k) =~= s.take(k));
        lemma_last_dot_take(s.drop_last(), k);
    } else {
        assert(s.take(k) =~= s);
    }
}

/// The extension of the file that the relative path `target` names.
pub fn static_extension(target: &str) -> (r: String)
    ensures
        r@ == path_extension(target@),
{
    let name = str_after_last(target, '/');
    let v = to_chars(name.as_str());
    let n = v.len();
    let mut k: usize = n;
    while k > 0 && v[k - 1] != '.'
        invariant
            v@ == name@,
            n == name@.len(),
            k <= n,
            forall|j: int| k <= j < n ==> name@[j] != '.',
        decreases k,
    {
        k = k - 1;
    }
    proof {
        lemma_last_dot_take(name@, k as int);
        if k > 0 {
            assert(name@.take(k as int).last() == '.');
        }
    }
    if k <= 1 || str_eq(name.as_str(), "..") {
        proof {
            if k == 1 {
                assert(last_dot(name@) == Some(0int));
            }
        }
        String::new()
    } else {
        substring(name.as_str(), k, n)
    }
}

/// The content type a static file is served with: the MIME type of its
/// extension.
pub fn static_content_type(target: &str) -> (r: String)
    ensures
        r@ == mime_of(path_extension(target@)),
{
    let ext = static_extension(target);
    mime_for_extension(ext.as_str())
}

/// The marker script placed in the page head in debug mode.
pub open spec fn debug_head() -> Seq<char> {
    "<head><script>window.__DUCIA_DEBUG=true</script>"@
}

/// The index page with the debug marker after every `<head>`.
pub fn inject_debug_flag(html: &str) -> (r: String)
    ensures
        r@ == replace_all(html@, "<head>"@, debug_head()),
{
    proof {
        reveal_strlit("<head>");
    }
    replace_str(html, "<head>", "<head><script>window.__DUCIA_DEBUG=true</script>")
}

/// Whether debug mode is on: the `DUCIA_DEBUG` setting is exactly `true`.
pub fn debug_enabled(setting: Option<&str>) -> (r: bool)
    ensures
        r == (setting matches Some(s) && s@ == "true"@),
{
    match setting {
        Some(s) => str_eq(s, "true"),
        None => false,
    }
}

/// Among the directories from the working directory up to the root, the
/// first that holds a `config` directory.
pub fn project_root_index(has_config: &Vec<bool>) -> (r: Option<usize>)
    ensures
        match r {
            Some(i) => i < has_config@.len() && has_config@[i as int]
                && forall|j: int| 0 <= j < i ==> !has_config@[j],
            None => forall|j: int| 0 <= j < has_config@.len() ==> !has_config@[j],
        },
{
    let n = has_config.len();
    let mut i: usize = 0;
    while i < n
        invariant
            n == has_config@.len(),
            i <= n,
            forall|j: int| 0 <= j < i ==> !has_config@[j],
        decreases n - i,
    {
        if has_config[i] {
            return Some(i);
        }
        i = i + 1;
    }
    None
}

/// Whether `settings.json` (given as its text, if it could be read) selects
/// the database back end: its boolean member `use_database`, false when
/// missing.
pub fn use_database(settings_json: Option<&str>) -> (r: bool)
    ensures
        r == match settings_json {
            Some(t) => json_bool_member(t@, "use_database"@) == Some(true),
            None => false,
        },
{
    match settings_json {
        Some(t) => match bool_member(t, "use_database") {
            Some(b) => b,
            None => false,
        },
        None => false,
    }
}

/// The bearer token of an `Authorization` header; empty when the header is
/// missing or is not a bearer token.
pub fn bearer_token(authorization: Option<&str>) -> (r: String)
    ensures
        r@ == match authorization {
            Some(a) => if starts_with(a@, "Bearer "@) { a@.skip(7) } else { Seq::empty() },
            None => Seq::<char>::empty(),
        },
{
    match authorization {
        Some(a) => {
            if str_starts_with(a, "Bearer ") {
                proof {
                    reveal_strlit("Bearer ");
                }
                substring(a, 7, a.unicode_len())
            } else {
                String::new()
            }
        },
        None => String::new(),
    }
}

/// The file name that a document is shown with: `<id>.md`.
pub fn shown_file_name(id: &str) -> (r: String)
    ensures
        r@ == id@ + ".md"@,
{
    concat(id, ".md")
}

} // verus!
