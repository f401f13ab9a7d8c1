//! The file-system storage back end: its document index (`docs.json`) and
//! the decisions it makes on it. Reading and writing the files is left to
//! the caller; everything computed between a read and a write is here.

use vstd::prelude::*;
use std::path::PathBuf;
use crate::doc::{DocFormat, DocMeta, extension_of};
use crate::keyed::{find_key, has_key, insert, lookup, unique_keys};
use crate::text::{all_digits, concat, decimal, digits_value, is_digit, parse_i64, parse_i64_str, u64_to_decimal};
use crate::json::{json_str_member, str_member};

verus! {

#[verifier::external_type_specification]
#[verifier::external_body]
pub struct ExPathBuf(PathBuf);

/// The document index: the next identifier to hand out and the metadata of
/// every document, keyed by identifier.
pub struct DocsMap {
    pub next_id: u64,
    pub docs: Vec<(String, DocMeta)>,
}

/// `meta` with the flags that are given replaced.
pub open spec fn with_flags(meta: DocMeta, deprecated: Option<bool>, deleted: Option<bool>, locked: Option<bool>) -> DocMeta {
    DocMeta {
        deprecated: match deprecated { Some(v) => v, None => meta.deprecated },
        deleted: match deleted { Some(v) => v, None => meta.deleted },
        locked: match locked { Some(v) => v, None => meta.locked },
        ..meta
    }
}

/// Setting flags changes exactly the flags given: one given as `Some(v)`
/// becomes `v`, one given as `None` keeps its stored value, and the title,
/// file, identifier and creation time stay as they are.
pub proof fn lemma_flags_given_only(meta: DocMeta, deprecated: Option<bool>, deleted: Option<bool>, locked: Option<bool>)
    ensures
        deprecated is None ==> with_flags(meta, deprecated, deleted, locked).deprecated == meta.deprecated,
        deleted is None ==> with_flags(meta, deprecated, deleted, locked).deleted == meta.deleted,
        locked is None ==> with_flags(meta, deprecated, deleted, locked).locked == meta.locked,
        deprecated matches Some(v) ==> with_flags(meta, deprecated, deleted, locked).deprecated == v,
        deleted matches Some(v) ==> with_flags(meta, deprecated, deleted, locked).deleted == v,
        locked matches Some(v) ==> with_flags(meta, deprecated, deleted, locked).locked == v,
        with_flags(meta, deprecated, deleted, locked).id == meta.id,
        with_flags(meta, deprecated, deleted, locked).title == meta.title,
        with_flags(meta, deprecated, deleted, locked).file == meta.file,
        with_flags(meta, deprecated, deleted, locked).created_at == meta.created_at,
{
}

/// A document is listed when it is not deprecated, and not deleted unless
/// deleted documents are asked for.
pub open spec fn is_listed(meta: DocMeta, include_deleted: bool) -> bool {
    !meta.deprecated && (include_deleted || !meta.deleted)
}

/// Whether `meta` is shown in a list that includes deleted documents or not.
pub fn shows_in_list(meta: &DocMeta, include_deleted: bool) -> (r: bool)
    ensures
        r == is_listed(*meta, include_deleted),
{
    !meta.deprecated && (include_deleted || !meta.deleted)
}

/// The listed documents of `entries`, in order, each carrying its key as
/// its identifier.
pub open spec fn listed(entries: Seq<(String, DocMeta)>, include_deleted: bool) -> Seq<DocMeta>
    decreases entries.len(),
{
    if entries.len() == 0 {
        Seq::empty()
    } else {
        let rest = listed(entries.drop_last(), include_deleted);
        let e = entries.last();
        if is_listed(e.1, include_deleted) {
            rest.push(DocMeta { id: e.0, ..e.1 })
        } else {
            rest
        }
    }
}

/// The file name of the content of document `id`: `<id>.md`.
pub open spec fn content_file_name(id: nat) -> Seq<char> {
    decimal(id) + "."@ + extension_of(DocFormat::Markdown)
}

/// The database row of document `id`: the number it writes, or row 0 (which
/// no document has) when it writes none that fits an `i64`.
pub open spec fn row_id_of(id: Seq<char>) -> i64 {
    match parse_i64(id) {
        Some(v) => v,
        None => 0,
    }
}

/// The database row that a document identifier names.
pub fn row_id(id: &str) -> (r: i64)
    ensures
        r == row_id_of(id@),
{
    match parse_i64_str(id) {
        Some(v) => v,
        None => 0,
    }
}

/// Different documents have different content files.
pub proof fn lemma_content_files_distinct(a: nat, b: nat)
    requires
        a != b,
    ensures
        content_file_name(a) != content_file_name(b),
{
    if content_file_name(a) == content_file_name(b) {
        let tail = "."@ + extension_of(DocFormat::Markdown);
        assert(content_file_name(a) == decimal(a) + tail);
        lemma_decimal_len(a);
        lemma_decimal_len(b);
        let la = decimal(a).len() as int;
        let lb = decimal(b).len() as int;
        assert((decimal(a) + tail).len() == (decimal(b) + tail).len());
        assert(la == lb);
        assert(decimal(a) =~= (decimal(a) + tail).take(la));
        assert(decimal(b) =~= (decimal(b) + tail).take(lb));
        assert(decimal(a) + tail == decimal(b) + tail);
        assert(decimal(a) == decimal(b));
        lemma_decimal_injective(a, b);
    }
}

/// The file name of the content of document `id`.
pub fn content_file(id: u64) -> (r: String)
    ensures
        r@ == content_file_name(id as nat),
{
    let digits = u64_to_decimal(id);
    let with_dot = concat(digits.as_str(), ".");
    concat(with_dot.as_str(), DocFormat::Markdown.extension())
}

/// With unique keys, the list shows a document with identifier `k` exactly
/// when the index holds one under `k` that is listed (not deprecated, and
/// not deleted unless deleted documents are asked for), and then shows it with the stored metadata.
pub proof fn lemma_listed_iff_stored(entries: Seq<(String, DocMeta)>, k: Seq<char>, include_deleted: bool)
    requires
        unique_keys(entries),
    ensures
        (exists|i: int| 0 <= i < listed(entries, include_deleted).len() && #[trigger] listed(entries, include_deleted)[i].id@ == k)
            <==> (lookup(entries, k) matches Some(m) && is_listed(m, include_deleted)),
        forall|i: int| 0 <= i < listed(entries, include_deleted).len() && #[trigger] listed(entries, include_deleted)[i].id@ == k
            ==> lookup(entries, k) == Some(DocMeta { id: lookup(entries, k).unwrap().id, ..listed(entries, include_deleted)[i] }),
    decreases entries.len(),
{
    if entries.len() == 0 {
        assert(!has_key(entries, k));
    } else {
        let p = entries.drop_last();
        let e = entries.last();
        crate::keyed::lemma_lookup_drop_last(entries, k);
        lemma_listed_iff_stored(p, k, include_deleted);
        let lp = listed(p, include_deleted);
        let ls = listed(entries, include_deleted);
        if is_listed(e.1, include_deleted) {
            assert(ls == lp.push(DocMeta { id: e.0, ..e.1 }));
        } else {
            assert(ls == lp);
        }
        if e.0@ == k {
            assert(lookup(p, k) is None);
            assert forall|i: int| 0 <= i < lp.len() implies lp[i].id@ != k by {}
            if is_listed(e.1, include_deleted) {
                assert(ls[lp.len() as int].id@ == k);
            }
        } else {
            assert forall|i: int| 0 <= i < ls.len() && #[trigger] ls[i].id@ == k implies 0 <= i < lp.len() && ls[i] == lp[i] by {
                if is_listed(e.1, include_deleted) && i == lp.len() {
                    assert(ls[i].id == e.0);
                }
            }
            if exists|i: int| 0 <= i < lp.len() && #[trigger] lp[i].id@ == k {
                let i = choose|i: int| 0 <= i < lp.len() && #[trigger] lp[i].id@ == k;
                if is_listed(e.1, include_deleted) {
                    assert(ls[i] == lp[i]);
                }
            }
        }
    }
}

/// Decimal representations of different numbers differ, so documents created
/// one after the other get different identifiers.
pub proof fn lemma_decimal_injective(a: nat, b: nat)
    requires
        decimal(a) == decimal(b),
    ensures
        a == b,
    decreases a,
{
    lemma_decimal_len(a);
    lemma_decimal_len(b);
    if a < 10 && b < 10 {
        assert(decimal(a) == seq![crate::text::digit_char(a)]);
        assert(decimal(b) == seq![crate::text::digit_char(b)]);
        assert(decimal(a)[0] == decimal(b)[0]);
        assert(decimal(a)[0] == crate::text::digit_char(a));
        assert(decimal(b)[0] == crate::text::digit_char(b));
        lemma_digit_injective(a, b);
    } else if a >= 10 && b >= 10 {
        assert(decimal(a).drop_last() =~= decimal(a / 10));
        assert(decimal(b).drop_last() =~= decimal(b / 10));
        assert(decimal(a) == decimal(a / 10).push(crate::text::digit_char(a % 10)));
        assert(decimal(b) == decimal(b / 10).push(crate::text::digit_char(b % 10)));
        assert(decimal(a).last() == decimal(b).last());
        assert(decimal(a).last() == crate::text::digit_char(a % 10));
        assert(decimal(b).last() == crate::text::digit_char(b % 10));
        lemma_decimal_injective(a / 10, b / 10);
        lemma_digit_injective(a % 10, b % 10);
        assert(a == (a / 10) * 10 + a % 10) by (nonlinear_arith);
        assert(b == (b / 10) * 10 + b % 10) by (nonlinear_arith);
    }
}

proof fn lemma_digit_injective(x: nat, y: nat)
    requires
        x < 10,
        y < 10,
        crate::text::digit_char(x) == crate::text::digit_char(y),
    ensures
        x == y,
{
    assert(x == 0 || x == 1 || x == 2 || x == 3 || x == 4 || x == 5 || x == 6 || x == 7 || x == 8 || x == 9);
    assert(y == 0 || y == 1 || y == 2 || y == 3 || y == 4 || y == 5 || y == 6 || y == 7 || y == 8 || y == 9);
}

proof fn lemma_decimal_len(n: nat)
    ensures
        decimal(n).len() >= 1,
        n < 10 <==> decimal(n).len() == 1,
    decreases n,
{
    if n >= 10 {
        lemma_decimal_len(n / 10);
    }
}

/// `id` reads as a number below `next_id` (as `str::parse::<u64>` reads
/// it: decimal digits, leading zeros allowed, after an optional `+`).
pub open spec fn issued_before(id: Seq<char>, next_id: u64) -> bool {
    let d = if id.len() > 0 && id[0] == '+' { id.drop_first() } else { id };
    d.len() > 0 && all_digits(d) && digits_value(d) < next_id
}

/// The decimal form of `n` is made of digits and is worth `n`.
pub proof fn lemma_decimal_value(n: nat)
    ensures
        decimal(n).len() > 0,
        all_digits(decimal(n)),
        digits_value(decimal(n)) == n,
    decreases n,
{
    if n < 10 {
        assert(decimal(n) == seq![crate::text::digit_char(n)]);
        assert(decimal(n).drop_last() =~= Seq::<char>::empty());
        assert(n == 0 || n == 1 || n == 2 || n == 3 || n == 4 || n == 5 || n == 6 || n == 7 || n == 8 || n == 9);
        assert(decimal(n).last() as int - '0' as int == n);
        assert(digits_value(Seq::<char>::empty()) == 0);
        assert(digits_value(decimal(n)) == 10 * digits_value(decimal(n).drop_last()) + (decimal(n).last() as int - '0' as int));
    } else {
        lemma_decimal_value(n / 10);
        let d = decimal(n);
        assert(d == decimal(n / 10).push(crate::text::digit_char(n % 10)));
        assert(d.drop_last() =~= decimal(n / 10));
        let r = n % 10;
        assert(r == 0 || r == 1 || r == 2 || r == 3 || r == 4 || r == 5 || r == 6 || r == 7 || r == 8 || r == 9);
        assert(d.last() as int - '0' as int == r);
        assert(n == (n / 10) * 10 + n % 10) by (nonlinear_arith);
        assert(digits_value(d) == 10 * digits_value(d.drop_last()) + (d.last() as int - '0' as int));
        assert forall|i: int| 0 <= i < d.len() implies is_digit(#[trigger] d[i]) by {
            if i < d.len() - 1 {
                assert(d[i] == decimal(n / 10)[i]);
            }
        }
    }
}

impl DocsMap {
    /// The metadata stored under identifier `id`.
    pub open spec fn entry(&self, id: Seq<char>) -> Option<DocMeta> {
        lookup(self.docs@, id)
    }

    /// The index is sound: no identifier appears twice, and each is the
    /// decimal form of a number below `next_id`.
    pub open spec fn index_ok(&self) -> bool {
        &&& unique_keys(self.docs@)
        &&& forall|i: int| 0 <= i < self.docs@.len() ==> #[trigger] issued_before(self.docs@[i].0@, self.next_id)
    }

    /// The index of a site with no documents yet: identifiers start at 1.
    pub fn empty() -> (r: DocsMap)
        ensures
            r.next_id == 1,
            r.docs@.len() == 0,
            r.index_ok(),
    {
        DocsMap { next_id: 1, docs: Vec::new() }
    }

    /// The documents that are not deprecated, and not deleted unless
    /// `include_deleted`, each with its key as identifier.
    pub fn list_docs(&self, include_deleted: bool) -> (r: Vec<DocMeta>)
        ensures
            r@ == listed(self.docs@, include_deleted),
    {
        let n = self.docs.len();
        let mut out: Vec<DocMeta> = Vec::new();
        let mut i: usize = 0;
        while i < n
            invariant
                n == self.docs@.len(),
                i <= n,
                out@ == listed(self.docs@.take(i as int), include_deleted),
            decreases n - i,
        {
            let e = &self.docs[i];
            proof {
                assert(self.docs@.take(i + 1).drop_last() =~= self.docs@.take(i as int));
                assert(self.docs@.take(i + 1).last() == self.docs@[i as int]);
            }
            if shows_in_list(&e.1, include_deleted) {
                let m = DocMeta {
                    id: e.0.clone(),
                    title: e.1.title.clone(),
                    file: e.1.file.clone(),
                    created_at: e.1.created_at,
                    deprecated: e.1.deprecated,
                    deleted: e.1.deleted,
                    locked: e.1.locked,
                };
                out.push(m);
            }
            i = i + 1;
        }
        assert(self.docs@.take(n as int) =~= self.docs@);
        out
    }

    /// The metadata of document `id`, unless it is unknown or deleted.
    pub fn get_doc(&self, id: &str) -> (r: Option<DocMeta>)
        ensures
            r == match self.entry(id@) {
                Some(m) => if m.deleted { None } else { Some(m) },
                None => None,
            },
    {
        match find_key(&self.docs, id) {
            Some(i) => {
                if self.docs[i].1.deleted {
                    None
                } else {
                    Some(self.docs[i].1.clone())
                }
            },
            None => None,
        }
    }

    /// The file name that the next created document will use.
    pub fn next_file_name(&self) -> (r: String)
        ensures
            r@ == content_file_name(self.next_id as nat),
    {
        content_file(self.next_id)
    }

    /// Records a new document titled `title`, created at `created_at`,
    /// under the next identifier, whose content lives in
    /// `next_file_name()`; the identifier after it becomes the next one.
    pub fn create_doc(&mut self, title: String, created_at: u64) -> (meta: DocMeta)
        requires
            old(self).next_id < u64::MAX,
        ensures
            meta.id@ == decimal(old(self).next_id as nat),
            meta.title == title,
            meta.file@ == content_file_name(old(self).next_id as nat),
            meta.created_at == created_at,
            !meta.deprecated,
            !meta.deleted,
            !meta.locked,
            final(self).next_id == old(self).next_id + 1,
            final(self).entry(meta.id@) == Some(meta),
            forall|k: Seq<char>| k != meta.id@ ==> #[trigger] final(self).entry(k) == old(self).entry(k),
            unique_keys(old(self).docs@) ==> unique_keys(final(self).docs@),
            (forall|i: int| 0 <= i < old(self).docs@.len() ==> #[trigger] issued_before(old(self).docs@[i].0@, old(self).next_id))
                ==> !has_key(old(self).docs@, meta.id@),
            old(self).index_ok() ==> final(self).index_ok(),
    {
        proof {
            lemma_decimal_value(self.next_id as nat);
            let dn = decimal(self.next_id as nat);
            if (forall|i: int| 0 <= i < self.docs@.len() ==> #[trigger] issued_before(self.docs@[i].0@, self.next_id))
                && has_key(self.docs@, dn) {
                let i = choose|i: int| 0 <= i < self.docs@.len() && self.docs@[i].0@ == dn;
                assert(issued_before(self.docs@[i].0@, self.next_id));
                assert(is_digit(dn[0]));
            }
        }
        let ghost old_docs = self.docs@;
        let ghost old_next = self.next_id;
        let file = self.next_file_name();
        let id = u64_to_decimal(self.next_id);
        let meta = DocMeta {
            id: id.clone(),
            title,
            file,
            created_at,
            deprecated: false,
            deleted: false,
            locked: false,
        };
        insert(&mut self.docs, id, meta.clone());
        self.next_id = self.next_id + 1;
        proof {
            if unique_keys(old_docs) && forall|i: int| 0 <= i < old_docs.len() ==> #[trigger] issued_before(old_docs[i].0@, old_next) {
                assert forall|i: int| 0 <= i < self.docs@.len() implies #[trigger] issued_before(self.docs@[i].0@, self.next_id) by {
                    if i < old_docs.len() {
                        assert(issued_before(old_docs[i].0@, old_next));
                        assert(old_docs[i] == self.docs@[i]);
                    } else {
                        assert(decimal(old_next as nat) == self.docs@[i].0@);
                        assert(is_digit(decimal(old_next as nat)[0]));
                    }
                }
            }
        }
        meta
    }

    /// Sets the flags that are given on document `id`; reports whether the
    /// document exists (when it does not, nothing changes).
    pub fn update_meta(
        &mut self,
        id: &str,
        deprecated: Option<bool>,
        deleted: Option<bool>,
        locked: Option<bool>,
    ) -> (found: bool)
        ensures
            found == has_key(old(self).docs@, id@),
            final(self).next_id == old(self).next_id,
            found ==> final(self).entry(id@) == Some(with_flags(old(self).entry(id@).unwrap(), deprecated, deleted, locked)),
            found && deprecated is None ==> final(self).entry(id@).unwrap().deprecated == old(self).entry(id@).unwrap().deprecated,
            found && deleted is None ==> final(self).entry(id@).unwrap().deleted == old(self).entry(id@).unwrap().deleted,
            found && locked is None ==> final(self).entry(id@).unwrap().locked == old(self).entry(id@).unwrap().locked,
            found && deprecated is Some ==> final(self).entry(id@).unwrap().deprecated == deprecated.unwrap(),
            found && deleted is Some ==> final(self).entry(id@).unwrap().deleted == deleted.unwrap(),
            found && locked is Some ==> final(self).entry(id@).unwrap().locked == locked.unwrap(),
            !found ==> final(self).docs@ == old(self).docs@,
            forall|k: Seq<char>| k != id@ ==> #[trigger] final(self).entry(k) == old(self).entry(k),
            unique_keys(old(self).docs@) ==> unique_keys(final(self).docs@),
            old(self).index_ok() ==> final(self).index_ok(),
    {
        match find_key(&self.docs, id) {
            Some(i) => {
                let key = self.docs[i].0.clone();
                let mut meta = self.docs[i].1.clone();
                if let Some(v) = deprecated {
                    meta.deprecated = v;
                }
                if let Some(v) = deleted {
                    meta.deleted = v;
                }
                if let Some(v) = locked {
                    meta.locked = v;
                }
                let ghost old_docs = self.docs@;
                proof {
                    crate::keyed::lemma_lookup_replace(self.docs@, i as int, (key, meta));
                }
                self.docs.set(i, (key, meta));
                proof {
                    assert forall|j: int| 0 <= j < self.docs@.len() implies self.docs@[j].0@ == old_docs[j].0@ by {}
                    if forall|j: int| 0 <= j < old_docs.len() ==> #[trigger] issued_before(old_docs[j].0@, self.next_id) {
                        assert forall|j: int| 0 <= j < self.docs@.len() implies #[trigger] issued_before(self.docs@[j].0@, self.next_id) by {
                            assert(issued_before(old_docs[j].0@, self.next_id));
                        }
                    }
                }
                true
            },
            None => false,
        }
    }
}

/// The file-system storage back end: a configuration directory (holding
/// `site.json`), a data directory (holding the index `docs.json`) and a
/// directory of document contents.
pub struct FsStorage {
    config_dir: PathBuf,
    data_dir: PathBuf,
    docs_dir: PathBuf,
}

impl FsStorage {
    /// The storage over the three directories.
    pub fn with_dirs(config_dir: PathBuf, data_dir: PathBuf, docs_dir: PathBuf) -> (r: FsStorage)
        ensures
            r.config_dir() == config_dir,
            r.data_dir() == data_dir,
            r.docs_dir() == docs_dir,
    {
        FsStorage { config_dir, data_dir, docs_dir }
    }

    pub closed spec fn config_dir(&self) -> PathBuf {
        self.config_dir
    }

    pub closed spec fn data_dir(&self) -> PathBuf {
        self.data_dir
    }

    pub closed spec fn docs_dir(&self) -> PathBuf {
        self.docs_dir
    }

    /// The configuration directory.
    pub fn config_path(&self) -> (r: &PathBuf)
        ensures
            *r == self.config_dir(),
    {
        &self.config_dir
    }

    /// The data directory.
    pub fn data_path(&self) -> (r: &PathBuf)
        ensures
            *r == self.data_dir(),
    {
        &self.data_dir
    }

    /// The directory of document contents.
    pub fn docs_path(&self) -> (r: &PathBuf)
        ensures
            *r == self.docs_dir(),
    {
        &self.docs_dir
    }

    /// Whether the index must be copied from the configuration directory:
    /// the data directory has none yet and the configuration one has one.
    pub fn should_migrate_index(data_index_exists: bool, config_index_exists: bool) -> (r: bool)
        ensures
            r == (!data_index_exists && config_index_exists),
    {
        !data_index_exists && config_index_exists
    }

    /// The current time in milliseconds since the Unix epoch (the clock's
    /// reading, of which nothing is promised), or `None` when the clock reads
    /// earlier than the epoch.
    pub fn now_ms() -> Option<u64> {
        crate::clock::now_ms()
    }

    /// The index as read from `docs.json` (when it could be read and
    /// parsed), or an empty one.
    pub fn index_or_empty(parsed: Option<DocsMap>) -> (r: DocsMap)
        ensures
            parsed is Some ==> r == parsed.unwrap(),
            parsed is None ==> r.next_id == 1 && r.docs@.len() == 0,
    {
        match parsed {
            Some(m) => m,
            None => DocsMap::empty(),
        }
    }

    /// The site name: the string member `name` of `site.json` (given as its
    /// text, when it could be read), or `Ducia Listing`.
    pub fn site_name_from(site_json: Option<&str>) -> (r: String)
        ensures
            r@ == match site_json {
                Some(t) => match json_str_member(t@, "name"@) {
                    Some(n) => n,
                    None => "Ducia Listing"@,
                },
                None => "Ducia Listing"@,
            },
    {
        match site_json {
            Some(t) => match str_member(t, "name") {
                Some(n) => n,
                None => String::from_str("Ducia Listing"),
            },
            None => String::from_str("Ducia Listing"),
        }
    }
}

} // verus!
