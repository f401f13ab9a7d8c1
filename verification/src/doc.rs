//! Document model: metadata, full documents, requests and formats.

use vstd::prelude::*;
use crate::perm::{Identity, RoleConfig};
use crate::text::{ascii_without_upper, lemma_after_last_is, after_last, lowercase, str_after_last, str_eq, to_lowercase};

verus! {

/// Metadata of one document.
pub struct DocMeta {
    /// Unique identifier.
    pub id: String,
    /// Title.
    pub title: String,
    /// Name of the file that holds the content.
    pub file: String,
    /// Creation time, in milliseconds since the Unix epoch.
    pub created_at: u64,
    /// Marked deprecated.
    pub deprecated: bool,
    /// Soft-deleted.
    pub deleted: bool,
    /// Locked: only administrators may act on it.
    pub locked: bool,
}

impl Clone for DocMeta {
    fn clone(&self) -> (r: Self)
        ensures
            r == *self,
    {
        DocMeta {
            id: self.id.clone(),
            title: self.title.clone(),
            file: self.file.clone(),
            created_at: self.created_at,
            deprecated: self.deprecated,
            deleted: self.deleted,
            locked: self.locked,
        }
    }
}

/// Whether the deprecated mark of a document may be set to `deprecated` by
/// a caller (an administrator or not): an unlocked document may be changed;
/// a locked one only by an administrator, and a locked deprecated document
/// cannot be restored by anyone.
pub open spec fn deprecation_change_ok(locked: bool, currently_deprecated: bool, admin: bool, deprecated: bool) -> bool {
    !locked || (admin && !(currently_deprecated && !deprecated))
}

/// Decides whether the deprecated mark of a document may be set to
/// `deprecated`.
pub fn may_change_deprecation(locked: bool, currently_deprecated: bool, admin: bool, deprecated: bool) -> (r: bool)
    ensures
        r == deprecation_change_ok(locked, currently_deprecated, admin, deprecated),
{
    !locked || (admin && !(currently_deprecated && !deprecated))
}

/// A locked deprecated document stays deprecated: no caller may restore it.
pub proof fn lemma_locked_deprecated_stays(admin: bool)
    ensures
        !deprecation_change_ok(true, true, admin, false),
{
}

/// A change to the documents that a request asks for.
#[derive(Debug, Clone, Copy, PartialEq, Eq, Structural)]
pub enum DocOperation {
    /// Creating a document.
    Create,
    /// Setting or clearing the deprecated mark.
    SetDeprecated,
    /// Soft-deleting a document.
    Delete,
    /// Locking or unlocking a document.
    SetLock,
}

/// The permission an operation needs, or `None` for the ones kept to
/// administrators.
pub open spec fn required_permission(op: DocOperation) -> Option<Seq<char>> {
    match op {
        DocOperation::Create => Some("doc:write"@),
        DocOperation::SetDeprecated => Some("doc:deprecate"@),
        DocOperation::Delete => Some("doc:delete"@),
        DocOperation::SetLock => None,
    }
}

/// Whether `identity` may perform `op` under the role table `cfg`: it holds
/// the permission the operation needs (with everything its roles grant or
/// inherit, or the wildcard), or, for locking, it is an administrator.
pub open spec fn operation_allowed(cfg: RoleConfig, identity: Identity, op: DocOperation) -> bool {
    match required_permission(op) {
        Some(p) => cfg.resolved(identity.permission_views(), identity.role_views()).contains("*"@)
            || cfg.resolved(identity.permission_views(), identity.role_views()).contains(p),
        None => identity.role_views().contains("admin"@),
    }
}

/// Creating a document needs `doc:write`, deprecating needs
/// `doc:deprecate`, deleting needs `doc:delete` (each also granted by `*`,
/// and counted with everything the roles grant or inherit), and locking is
/// for administrators.
pub proof fn lemma_operation_permissions(cfg: RoleConfig, identity: Identity)
    ensures
        operation_allowed(cfg, identity, DocOperation::Create)
            == (cfg.resolved(identity.permission_views(), identity.role_views()).contains("*"@)
            || cfg.resolved(identity.permission_views(), identity.role_views()).contains("doc:write"@)),
        operation_allowed(cfg, identity, DocOperation::SetDeprecated)
            == (cfg.resolved(identity.permission_views(), identity.role_views()).contains("*"@)
            || cfg.resolved(identity.permission_views(), identity.role_views()).contains("doc:deprecate"@)),
        operation_allowed(cfg, identity, DocOperation::Delete)
            == (cfg.resolved(identity.permission_views(), identity.role_views()).contains("*"@)
            || cfg.resolved(identity.permission_views(), identity.role_views()).contains("doc:delete"@)),
        operation_allowed(cfg, identity, DocOperation::SetLock) == identity.role_views().contains("admin"@),
{
}

/// A role that grants `doc:write` lets its holders create documents, even
/// when it grants nothing else.
pub proof fn lemma_writer_may_create(cfg: RoleConfig, identity: Identity, role: Seq<char>)
    requires
        identity.role_views().contains(role),
        cfg.own_permissions(role).contains("doc:write"@),
    ensures
        operation_allowed(cfg, identity, DocOperation::Create),
{
    crate::perm::lemma_own_role_granted(&cfg, identity.permission_views(), identity.role_views(), role, "doc:write"@);
}

/// Decides whether `identity` may perform `op`.
pub fn may_perform(cfg: &RoleConfig, identity: &Identity, op: DocOperation) -> (r: bool)
    ensures
        r == operation_allowed(*cfg, *identity, op),
        op == DocOperation::Create ==> r == (cfg.resolved(identity.permission_views(), identity.role_views()).contains("*"@)
            || cfg.resolved(identity.permission_views(), identity.role_views()).contains("doc:write"@)),
        op == DocOperation::SetDeprecated ==> r == (cfg.resolved(identity.permission_views(), identity.role_views()).contains("*"@)
            || cfg.resolved(identity.permission_views(), identity.role_views()).contains("doc:deprecate"@)),
        op == DocOperation::Delete ==> r == (cfg.resolved(identity.permission_views(), identity.role_views()).contains("*"@)
            || cfg.resolved(identity.permission_views(), identity.role_views()).contains("doc:delete"@)),
        op == DocOperation::SetLock ==> r == identity.role_views().contains("admin"@),
{
    match op {
        DocOperation::Create => cfg.permits(identity, "doc:write"),
        DocOperation::SetDeprecated => cfg.permits(identity, "doc:deprecate"),
        DocOperation::Delete => cfg.permits(identity, "doc:delete"),
        DocOperation::SetLock => identity.is_admin(),
    }
}

/// A document with its content.
pub struct DocFull {
    pub id: String,
    pub title: String,
    pub content: String,
    pub created_at: u64,
    pub deprecated: bool,
    pub locked: bool,
}

impl DocFull {
    /// The full document made of `meta`, read under the identifier `id`,
    /// and its `content`.
    pub fn from_meta(id: &str, meta: DocMeta, content: String) -> (r: DocFull)
        ensures
            r.id@ == id@,
            r.title == meta.title,
            r.content == content,
            r.created_at == meta.created_at,
            r.deprecated == meta.deprecated,
            r.locked == meta.locked,
    {
        DocFull {
            id: String::from_str(id),
            title: meta.title,
            content,
            created_at: meta.created_at,
            deprecated: meta.deprecated,
            locked: meta.locked,
        }
    }
}

/// A request to create a document.
pub struct CreateDocRequest {
    pub title: String,
    pub content: String,
}

/// A request to set or clear the deprecated mark.
pub struct DeprecatedRequest {
    pub deprecated: bool,
}

/// A request to lock or unlock a document.
pub struct LockRequest {
    pub locked: bool,
}

/// The document formats the framework knows.
#[derive(Debug, Clone, Copy, PartialEq, Eq, Structural)]
pub enum DocFormat {
    Markdown,
    PlainText,
    Html,
}

/// The format that a lowercase file extension names; Markdown when it names
/// none.
pub open spec fn format_of_extension(ext: Seq<char>) -> DocFormat {
    if ext == "md"@ || ext == "markdown"@ {
        DocFormat::Markdown
    } else if ext == "txt"@ {
        DocFormat::PlainText
    } else if ext == "html"@ || ext == "htm"@ {
        DocFormat::Html
    } else {
        DocFormat::Markdown
    }
}

/// The format of a file name: that of its lowercased extension (the part
/// after its last `.`, or the whole name when it has none).
pub open spec fn format_of_filename(name: Seq<char>) -> DocFormat {
    format_of_extension(lowercase(after_last(name, '.')))
}

/// The file extension that stands for a format.
pub open spec fn extension_of(f: DocFormat) -> Seq<char> {
    match f {
        DocFormat::Markdown => "md"@,
        DocFormat::PlainText => "txt"@,
        DocFormat::Html => "html"@,
    }
}

/// The name by which clients call a format.
pub open spec fn label_of(f: DocFormat) -> Seq<char> {
    match f {
        DocFormat::Markdown => "markdown"@,
        DocFormat::PlainText => "plaintext"@,
        DocFormat::Html => "html"@,
    }
}

impl DocFormat {
    /// The format named by a lowercase extension.
    pub fn from_extension(ext: &str) -> (r: DocFormat)
        ensures
            r == format_of_extension(ext@),
    {
        if str_eq(ext, "md") || str_eq(ext, "markdown") {
            DocFormat::Markdown
        } else if str_eq(ext, "txt") {
            DocFormat::PlainText
        } else if str_eq(ext, "html") || str_eq(ext, "htm") {
            DocFormat::Html
        } else {
            DocFormat::Markdown
        }
    }

    /// The format of a file, inferred from its extension.
    pub fn from_filename(name: &str) -> (r: DocFormat)
        ensures
            r == format_of_filename(name@),
            ascii_without_upper(after_last(name@, '.')) ==> r == format_of_extension(after_last(name@, '.')),
    {
        let ext = str_after_last(name, '.');
        let lower = to_lowercase(ext.as_str());
        DocFormat::from_extension(lower.as_str())
    }

    /// The file extension of the format.
    pub fn extension(&self) -> (r: &'static str)
        ensures
            r@ == extension_of(*self),
    {
        match self {
            DocFormat::Markdown => "md",
            DocFormat::PlainText => "txt",
            DocFormat::Html => "html",
        }
    }

    /// The client-facing name of the format.
    pub fn label(&self) -> (r: String)
        ensures
            r@ == label_of(*self),
    {
        match self {
            DocFormat::Markdown => String::from_str("markdown"),
            DocFormat::PlainText => String::from_str("plaintext"),
            DocFormat::Html => String::from_str("html"),
        }
    }
}

/// Reading back the extension of a format gives the format again.
pub proof fn lemma_extension_round_trip(f: DocFormat)
    ensures
        format_of_extension(extension_of(f)) == f,
{
    reveal_strlit("md");
    reveal_strlit("markdown");
    reveal_strlit("txt");
    reveal_strlit("html");
    reveal_strlit("htm");
    assert("md"@.len() == 2 && "txt"@.len() == 3 && "htm"@.len() == 3);
    assert("markdown"@.len() == 8 && "html"@.len() == 4);
    assert("txt"@[0] == 't' && "htm"@[0] == 'h');
    match f {
        DocFormat::Markdown => {}
        DocFormat::PlainText => {
            assert("txt"@ != "md"@);
            assert("txt"@ != "markdown"@);
        }
        DocFormat::Html => {
            assert("html"@ != "md"@);
            assert("html"@ != "markdown"@);
            assert("html"@ != "txt"@);
        }
    }
}

/// The name `doc.<ext>`, with `ext` the extension of a format, reads back
/// as that format: its extension is the text after the last `.`, and it is
/// lowercase ASCII, which lowercasing leaves as it is.
pub proof fn lemma_filename_round_trip(f: DocFormat)
    ensures
        after_last("doc."@ + extension_of(f), '.') == extension_of(f),
        ascii_without_upper(extension_of(f)),
        format_of_extension(extension_of(f)) == f,
{
    reveal_strlit("doc.");
    reveal_strlit("md");
    reveal_strlit("txt");
    reveal_strlit("html");
    lemma_extension_round_trip(f);
    let e = extension_of(f);
    assert(forall|i: int| 0 <= i < e.len() ==> e[i] != '.');
    lemma_after_last_is("doc."@ + e, '.', 4);
    assert(("doc."@ + e).skip(4) =~= e);
}

/// The client-facing name of the format of a file: `markdown`, `plaintext`
/// or `html`, always agreeing with `DocFormat::from_filename`.
pub fn detect_format(filename: &str) -> (r: String)
    ensures
        r@ == label_of(format_of_filename(filename@)),
{
    DocFormat::from_filename(filename).label()
}

} // verus!
