//! The standalone back end: a document index kept in `docs.json` in
//! the configuration directory, without locking, and the decisions of its
//! request handlers.

use vstd::prelude::*;
use std::path::PathBuf;
use crate::keyed::{find_key, has_key, insert, lookup, unique_keys};
use crate::text::{concat, decimal, u64_to_decimal};
use crate::json::{json_str_member, str_member};

verus! {

/// Metadata of one document.
pub struct DocMeta {
    pub title: String,
    pub file: String,
    pub created_at: u64,
    pub deprecated: bool,
    pub deleted: bool,
}

impl Clone for DocMeta {
    fn clone(&self) -> (r: Self)
        ensures
            r == *self,
    {
        DocMeta {
            title: self.title.clone(),
            file: self.file.clone(),
            created_at: self.created_at,
            deprecated: self.deprecated,
            deleted: self.deleted,
        }
    }
}

/// The document index: the next identifier and the documents by identifier.
pub struct DocsMap {
    pub next_id: u64,
    pub docs: Vec<(String, DocMeta)>,
}

/// A request to create a document.
pub struct CreateDocReq {
    pub title: String,
    pub content: String,
}

/// A request to set or clear the deprecated mark.
pub struct DeprecatedReq {
    pub deprecated: bool,
}

/// The directories the handlers work in.
pub struct AppState {
    /// Holds `site.json`, `sequence.json` and `docs.json`.
    pub config_dir: PathBuf,
    /// Holds the document contents.
    pub docs_dir: PathBuf,
}

/// One listed document.
pub struct DocSummary {
    pub id: String,
    pub title: String,
    pub created_at: u64,
}

/// What a request for one document finds.
pub enum GetOutcome {
    /// No such document.
    NotFound,
    /// The document was deleted.
    Gone,
    /// The document.
    Found(DocMeta),
}

/// The listed documents (neither deleted nor deprecated) of `entries`.
pub open spec fn summaries(entries: Seq<(String, DocMeta)>) -> Seq<(Seq<char>, Seq<char>, u64)>
    decreases entries.len(),
{
    if entries.len() == 0 {
        Seq::empty()
    } else {
        let rest = summaries(entries.drop_last());
        let e = entries.last();
        if !e.1.deleted && !e.1.deprecated {
            rest.push((e.0@, e.1.title@, e.1.created_at))
        } else {
            rest
        }
    }
}

/// The name of the content file of document `id`.
pub open spec fn standalone_file_name(id: nat) -> Seq<char> {
    decimal(id) + ".md"@
}

impl DocsMap {
    pub open spec fn entry(&self, id: Seq<char>) -> Option<DocMeta> {
        lookup(self.docs@, id)
    }

    /// The index of a site without documents.
    pub fn empty() -> (r: DocsMap)
        ensures
            r.next_id == 1,
            r.docs@.len() == 0,
    {
        DocsMap { next_id: 1, docs: Vec::new() }
    }

    /// The listed documents, in index order.
    pub fn list(&self) -> (r: Vec<DocSummary>)
        ensures
            r@.map_values(|s: DocSummary| (s.id@, s.title@, s.created_at)) == summaries(self.docs@),
    {
        let n = self.docs.len();
        let mut out: Vec<DocSummary> = Vec::new();
        let mut i: usize = 0;
        while i < n
            invariant
                n == self.docs@.len(),
                i <= n,
                out@.map_values(|s: DocSummary| (s.id@, s.title@, s.created_at)) == summaries(self.docs@.take(i as int)),
            decreases n - i,
        {
            let e = &self.docs[i];
            let ghost before = out@;
            proof {
                assert(self.docs@.take(i + 1).drop_last() =~= self.docs@.take(i as int));
                assert(self.docs@.take(i + 1).last() == self.docs@[i as int]);
            }
            if !e.1.deleted && !e.1.deprecated {
                out.push(DocSummary { id: e.0.clone(), title: e.1.title.clone(), created_at: e.1.created_at });
                assert(out@.map_values(|s: DocSummary| (s.id@, s.title@, s.created_at)) =~= before.map_values(
                    |s: DocSummary| (s.id@, s.title@, s.created_at),
                ).push((e.0@, e.1.title@, e.1.created_at)));
            }
            i = i + 1;
        }
        assert(self.docs@.take(n as int) =~= self.docs@);
        out
    }

    /// Looks up document `id`: unknown, deleted, or found.
    pub fn get(&self, id: &str) -> (r: GetOutcome)
        ensures
            match self.entry(id@) {
                None => r is NotFound,
                Some(m) => if m.deleted { r is Gone } else { r == GetOutcome::Found(m) },
            },
    {
        match find_key(&self.docs, id) {
            None => GetOutcome::NotFound,
            Some(i) => {
                if self.docs[i].1.deleted {
                    GetOutcome::Gone
                } else {
                    GetOutcome::Found(self.docs[i].1.clone())
                }
            },
        }
    }

    /// Sets the deprecated mark of document `id`; refused (nothing changes)
    /// when the document is unknown or deleted.
    pub fn set_deprecated(&mut self, id: &str, deprecated: bool) -> (ok: bool)
        ensures
            ok == (old(self).entry(id@) matches Some(m) && !m.deleted),
            ok ==> final(self).entry(id@) == Some(DocMeta { deprecated, ..old(self).entry(id@).unwrap() }),
            !ok ==> final(self).docs@ == old(self).docs@,
            final(self).next_id == old(self).next_id,
            forall|k: Seq<char>| k != id@ ==> #[trigger] final(self).entry(k) == old(self).entry(k),
            unique_keys(old(self).docs@) ==> unique_keys(final(self).docs@),
    {
        match find_key(&self.docs, id) {
            None => false,
            Some(i) => {
                if self.docs[i].1.deleted {
                    false
                } else {
                    let key = self.docs[i].0.clone();
                    let mut meta = self.docs[i].1.clone();
                    meta.deprecated = deprecated;
                    proof {
                        crate::keyed::lemma_lookup_replace(self.docs@, i as int, (key, meta));
                    }
                    self.docs.set(i, (key, meta));
                    true
                }
            },
        }
    }

    /// Marks document `id` deleted; refused when it is unknown.
    pub fn delete(&mut self, id: &str) -> (ok: bool)
        ensures
            ok == has_key(old(self).docs@, id@),
            ok ==> final(self).entry(id@) == Some(DocMeta { deleted: true, ..old(self).entry(id@).unwrap() }),
            !ok ==> final(self).docs@ == old(self).docs@,
            final(self).next_id == old(self).next_id,
            forall|k: Seq<char>| k != id@ ==> #[trigger] final(self).entry(k) == old(self).entry(k),
            unique_keys(old(self).docs@) ==> unique_keys(final(self).docs@),
    {
        match find_key(&self.docs, id) {
            None => false,
            Some(i) => {
                let key = self.docs[i].0.clone();
                let mut meta = self.docs[i].1.clone();
                meta.deleted = true;
                proof {
                    crate::keyed::lemma_lookup_replace(self.docs@, i as int, (key, meta));
                }
                self.docs.set(i, (key, meta));
                true
            },
        }
    }

    /// The content file name of the next document.
    pub fn next_file_name(&self) -> (r: String)
        ensures
            r@ == standalone_file_name(self.next_id as nat),
    {
        let id = u64_to_decimal(self.next_id);
        concat(id.as_str(), ".md")
    }

    /// Records a new document under the next identifier and returns that
    /// identifier.
    pub fn upload(&mut self, title: String, created_at: u64) -> (id: String)
        requires
            old(self).next_id < u64::MAX,
        ensures
            id@ == decimal(old(self).next_id as nat),
            final(self).entry(id@) == Some(DocMeta {
                title,
                file: final(self).entry(id@).unwrap().file,
                created_at,
                deprecated: false,
                deleted: false,
            }),
            final(self).entry(id@).unwrap().file@ == standalone_file_name(old(self).next_id as nat),
            final(self).next_id == old(self).next_id + 1,
            forall|k: Seq<char>| k != id@ ==> #[trigger] final(self).entry(k) == old(self).entry(k),
            unique_keys(old(self).docs@) ==> unique_keys(final(self).docs@),
    {
        let file = self.next_file_name();
        let id = u64_to_decimal(self.next_id);
        let meta = DocMeta { title, file, created_at, deprecated: false, deleted: false };
        insert(&mut self.docs, id.clone(), meta);
        self.next_id = self.next_id + 1;
        id
    }
}

/// The site name from `site.json` (given as its text, if it could be read),
/// or the built-in default.
pub fn load_site_name(site_json: Option<&str>) -> (r: String)
    ensures
        r@ == match site_json {
            Some(t) => match json_str_member(t@, "name"@) {
                Some(n) => n,
                None => "25 电科 3 班待办事项清单"@,
            },
            None => "25 电科 3 班待办事项清单"@,
        },
{
    match site_json {
        Some(t) => match str_member(t, "name") {
            Some(n) => n,
            None => String::from_str("25 电科 3 班待办事项清单"),
        },
        None => String::from_str("25 电科 3 班待办事项清单"),
    }
}

/// The content of a document as read from its file, or a placeholder when
/// it could not be read.
pub fn doc_content_or_placeholder(content: Option<String>) -> (r: String)
    ensures
        r@ == match content {
            Some(c) => c@,
            None => "# 文档内容丢失"@,
        },
{
    match content {
        Some(c) => c,
        None => String::from_str("# 文档内容丢失"),
    }
}

} // verus!
