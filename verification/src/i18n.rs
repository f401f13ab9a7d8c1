//! Locale packs and locale selection.
//!
//! A locale pack maps message keys to texts. The manager holds the packs by
//! locale code, the display names of locales (from the `@meta.name` entry
//! of their pack) and the default locale.

use vstd::prelude::*;
use crate::keyed::{find_key, has_key, insert, keys_of, lookup, unique_keys};
use crate::json::{json_string_map, json_value, json_value_text, pair_views, parse_string_map};
use crate::text::{
    before_char, concat, lowercase, replace_all, replace_str, split_char,
    starts_with, str_before_char, str_eq, str_starts_with, substring, to_chars, to_lowercase, trim,
    trim_ws, lemma_first_index_is, lemma_replace_absent,
};

verus! {

/// A locale code such as `zh-CN`.
pub type Locale = String;

/// Message key to text.
pub type LocalePack = Vec<(String, String)>;

/// A locale, its display name and its text direction.
pub struct LocaleInfo {
    pub code: String,
    pub name: String,
    pub dir: String,
}

/// The first key of `s`, in order, whose lowercase form begins with `p`.
pub open spec fn first_prefix_key<V>(s: Seq<(String, V)>, p: Seq<char>) -> Option<Seq<char>>
    decreases s.len(),
{
    if s.len() == 0 {
        None
    } else if starts_with(lowercase(s[0].0@), p) {
        Some(s[0].0@)
    } else {
        first_prefix_key(s.drop_first(), p)
    }
}

/// The first position of `keys` whose string begins with `p`.
pub open spec fn first_prefix_index(keys: Seq<String>, p: Seq<char>) -> Option<int>
    decreases keys.len(),
{
    if keys.len() == 0 {
        None
    } else if starts_with(keys[0]@, p) {
        Some(0)
    } else {
        match first_prefix_index(keys.drop_first(), p) {
            Some(i) => Some(i + 1),
            None => None,
        }
    }
}

/// The text of every `{{name}}` placeholder of `params` replaced by its
/// value, one parameter after the other in order.
pub open spec fn apply_params(text: Seq<char>, params: Seq<(&str, &str)>) -> Seq<char>
    decreases params.len(),
{
    if params.len() == 0 {
        text
    } else {
        apply_params(
            replace_all(text, "{{"@ + params[0].0@ + "}}"@, params[0].1@),
            params.drop_first(),
        )
    }
}

/// The position of the first string of `keys` that begins with `prefix`.
pub fn first_with_prefix(keys: &Vec<String>, prefix: &str) -> (r: Option<usize>)
    ensures
        match r {
            Some(i) => first_prefix_index(keys@, prefix@) == Some(i as int),
            None => first_prefix_index(keys@, prefix@) is None,
        },
{
    let n = keys.len();
    let mut i: usize = 0;
    assert(keys@.skip(0) =~= keys@);
    while i < n
        invariant
            n == keys@.len(),
            i <= n,
            first_prefix_index(keys@, prefix@) == match first_prefix_index(keys@.skip(i as int), prefix@) {
                Some(j) => Some(j + i),
                None => None,
            },
        decreases n - i,
    {
        let ghost rest = keys@.skip(i as int);
        assert(rest[0] == keys@[i as int]);
        assert(rest.drop_first() =~= keys@.skip(i + 1));
        if str_starts_with(keys[i].as_str(), prefix) {
            return Some(i);
        }
        i = i + 1;
    }
    assert(keys@.skip(n as int).len() == 0);
    None
}

/// The answer to a request for the pack file of a locale.
pub enum PackReply {
    /// The pack, as compact JSON text.
    Pack(String),
    /// The file is not JSON.
    Invalid,
    /// There is no such file (or it could not be read).
    Missing,
}

/// The answer to a request for a locale's pack file, given its text when
/// it could be read: the pack when the text is JSON, else `Invalid`.
pub fn locale_pack_reply(content: Option<&str>) -> (r: PackReply)
    ensures
        content is None ==> r is Missing,
        content matches Some(t) ==> match json_value_text(t@) {
            Some(s) => r matches PackReply::Pack(p) && p@ == s,
            None => r is Invalid,
        },
{
    match content {
        None => PackReply::Missing,
        Some(t) => match json_value(t) {
            Some(s) => PackReply::Pack(s),
            None => PackReply::Invalid,
        },
    }
}

/// The locale code of a file of the locale directory: the name without its
/// extension, when the extension is `json` (as `Path::extension` and
/// `Path::file_stem` split it: a name that is only a dot and an extension,
/// such as `.json`, has none).
pub open spec fn locale_code(file_name: Seq<char>) -> Option<Seq<char>> {
    if file_name.len() > 5 && file_name.skip(file_name.len() - 5) == ".json"@ {
        Some(file_name.take(file_name.len() - 5))
    } else {
        None
    }
}

/// The locale code that the locale file `file_name` holds the pack of, or
/// `None` when the file is not a locale file.
pub fn locale_code_of(file_name: &str) -> (r: Option<String>)
    ensures
        match r {
            Some(c) => locale_code(file_name@) == Some(c@),
            None => locale_code(file_name@) is None,
        },
{
    let n = file_name.unicode_len();
    if n > 5 {
        let ext = substring(file_name, n - 5, n);
        if str_eq(ext.as_str(), ".json") {
            return Some(substring(file_name, 0, n - 5));
        }
    }
    None
}

/// The locale manager: packs by locale code (each code once) and the
/// default locale. A locale's display name is the `@meta.name` entry of its
/// pack.
pub struct I18nManager {
    default_locale: Locale,
    packs: Vec<(Locale, LocalePack)>,
}

impl I18nManager {
    /// No locale code is held twice.
    #[verifier::type_invariant]
    spec fn codes_unique(&self) -> bool {
        unique_keys(self.packs@)
    }

    pub closed spec fn default_spec(&self) -> Seq<char> {
        self.default_locale@
    }

    /// The packs, by locale code, in the order they were added.
    pub closed spec fn packs_spec(&self) -> Seq<(String, LocalePack)> {
        self.packs@
    }

    /// The display name of a locale whose pack is `pack`: its `@meta.name`
    /// entry, or the code itself.
    pub open spec fn display_name(code: Seq<char>, pack: LocalePack) -> Seq<char> {
        match lookup(pack@, "@meta.name"@) {
            Some(n) => n@,
            None => code,
        }
    }

    /// Whether a pack is held for locale `code`.
    pub open spec fn has_pack(&self, code: Seq<char>) -> bool {
        has_key(self.packs_spec(), code)
    }

    /// The text of `key` in the pack of `locale`.
    pub open spec fn message(&self, locale: Seq<char>, key: Seq<char>) -> Option<Seq<char>> {
        match lookup(self.packs_spec(), locale) {
            Some(p) => match lookup(p@, key) {
                Some(t) => Some(t@),
                None => None,
            },
            None => None,
        }
    }

    /// The text of `key` for `locale`: from its pack, else from the default
    /// locale's pack, else `[key]`.
    pub open spec fn localized(&self, locale: Seq<char>, key: Seq<char>) -> Seq<char> {
        match self.message(locale, key) {
            Some(t) => t,
            None => match self.message(self.default_spec(), key) {
                Some(t) => t,
                None => "["@ + key + "]"@,
            },
        }
    }

    /// The locale a requested language selects: itself when a pack exists
    /// for it, else the first locale whose lowercase code begins with the
    /// lowercase language.
    pub open spec fn pick(&self, lang: Seq<char>) -> Option<Seq<char>> {
        if self.has_pack(lang) {
            Some(lang)
        } else {
            first_prefix_key(self.packs_spec(), lowercase(lang))
        }
    }

    /// The first of the `Accept-Language` parts (each cut at its first `;`
    /// and trimmed) that selects a locale.
    pub open spec fn first_accepted(&self, parts: Seq<Seq<char>>) -> Option<Seq<char>>
        decreases parts.len(),
    {
        if parts.len() == 0 {
            None
        } else {
            match self.pick(trim_ws(before_char(parts[0], ';'))) {
                Some(l) => Some(l),
                None => self.first_accepted(parts.drop_first()),
            }
        }
    }

    /// The locale for a request: the query language if it selects one, else
    /// the first language of the `Accept-Language` header that does, else
    /// the default locale.
    pub open spec fn resolution(&self, query: Option<Seq<char>>, accept: Option<Seq<char>>) -> Seq<char> {
        let from_query = match query {
            Some(q) => self.pick(q),
            None => None,
        };
        match from_query {
            Some(l) => l,
            None => {
                let from_header = match accept {
                    Some(h) => self.first_accepted(split_char(h, ',')),
                    None => None,
                };
                match from_header {
                    Some(l) => l,
                    None => self.default_spec(),
                }
            },
        }
    }

    /// A manager with no packs yet and the given default locale.
    pub fn new(default_locale: &str) -> (r: I18nManager)
        ensures
            r.default_spec() == default_locale@,
            r.packs_spec().len() == 0,
    {
        I18nManager { default_locale: String::from_str(default_locale), packs: Vec::new() }
    }

    /// Adds (or replaces) the pack of locale `code`; its `@meta.name` entry,
    /// if any, is the locale's display name. A new code is added after the
    /// others; a known one keeps its place.
    pub fn add_pack(&mut self, code: String, pack: LocalePack)
        ensures
            final(self).default_spec() == old(self).default_spec(),
            lookup(final(self).packs_spec(), code@) == Some(pack),
            forall|k: Seq<char>| k != code@ ==> #[trigger] lookup(final(self).packs_spec(), k) == lookup(old(self).packs_spec(), k),
            has_key(old(self).packs_spec(), code@) ==> keys_of(final(self).packs_spec()) == keys_of(old(self).packs_spec()),
            !has_key(old(self).packs_spec(), code@) ==> keys_of(final(self).packs_spec()) == keys_of(old(self).packs_spec()).push(code@),
    {
        proof {
            use_type_invariant(&*self);
        }
        let ghost before = self.packs@;
        let mut packs: Vec<(Locale, LocalePack)> = Vec::new();
        std::mem::swap(&mut packs, &mut self.packs);
        let ghost code_view = code@;
        insert(&mut packs, code, pack);
        proof {
            if !has_key(before, code_view) {
                assert(keys_of(packs@) =~= keys_of(before).push(code_view));
            }
        }
        self.packs = packs;
    }

    /// Adds the pack of locale `code` held in `text`, a JSON object of
    /// strings; text that is not such an object is skipped. Reports whether
    /// the pack was added.
    pub fn load_pack(&mut self, code: String, text: &str) -> (loaded: bool)
        ensures
            loaded == (json_string_map(text@) is Some),
            final(self).default_spec() == old(self).default_spec(),
            loaded ==> (lookup(final(self).packs_spec(), code@) matches Some(p)
                && Some(pair_views(p@)) == json_string_map(text@)),
            loaded ==> forall|k: Seq<char>| k != code@ ==> #[trigger] lookup(final(self).packs_spec(), k) == lookup(old(self).packs_spec(), k),
            loaded && has_key(old(self).packs_spec(), code@) ==> keys_of(final(self).packs_spec()) == keys_of(old(self).packs_spec()),
            loaded && !has_key(old(self).packs_spec(), code@) ==> keys_of(final(self).packs_spec()) == keys_of(old(self).packs_spec()).push(code@),
            !loaded ==> final(self).packs_spec() == old(self).packs_spec(),
    {
        match parse_string_map(text) {
            Some(pack) => {
                self.add_pack(code, pack);
                true
            },
            None => false,
        }
    }

    /// The first locale whose lowercase code begins with the lowercase
    /// `prefix`.
    pub fn find_by_prefix(&self, prefix: &str) -> (r: Option<String>)
        ensures
            match r {
                Some(s) => first_prefix_key(self.packs_spec(), lowercase(prefix@)) == Some(s@),
                None => first_prefix_key(self.packs_spec(), lowercase(prefix@)) is None,
            },
    {
        let lower_prefix = to_lowercase(prefix);
        let n = self.packs.len();
        let mut lowered: Vec<String> = Vec::new();
        let mut i: usize = 0;
        while i < n
            invariant
                n == self.packs@.len(),
                i <= n,
                lowered@.len() == i,
                forall|j: int| 0 <= j < i ==> #[trigger] lowered@[j]@ == lowercase(self.packs@[j].0@),
            decreases n - i,
        {
            lowered.push(to_lowercase(self.packs[i].0.as_str()));
            i = i + 1;
        }
        proof {
            self.lemma_prefix_index(lowered@, lower_prefix@, 0);
            assert(lowered@.skip(0) =~= lowered@);
            assert(self.packs@.skip(0) =~= self.packs@);
        }
        match first_with_prefix(&lowered, lower_prefix.as_str()) {
            Some(j) => Some(self.packs[j].0.clone()),
            None => None,
        }
    }

    proof fn lemma_prefix_index(&self, lowered: Seq<String>, p: Seq<char>, i: int)
        requires
            lowered.len() == self.packs@.len(),
            forall|j: int| 0 <= j < lowered.len() ==> #[trigger] lowered[j]@ == lowercase(self.packs@[j].0@),
            0 <= i <= lowered.len(),
        ensures
            match first_prefix_index(lowered.skip(i), p) {
                Some(j) => 0 <= j < lowered.len() - i
                    && first_prefix_key(self.packs@.skip(i), p) == Some(self.packs@[j + i].0@),
                None => first_prefix_key(self.packs@.skip(i), p) is None,
            },
        decreases lowered.len() - i,
    {
        let ls = lowered.skip(i);
        let ps = self.packs@.skip(i);
        if i < lowered.len() {
            assert(ls[0] == lowered[i]);
            assert(ps[0] == self.packs@[i]);
            assert(ls.drop_first() =~= lowered.skip(i + 1));
            assert(ps.drop_first() =~= self.packs@.skip(i + 1));
            self.lemma_prefix_index(lowered, p, i + 1);
        } else {
            assert(ls.len() == 0);
            assert(ps.len() == 0);
        }
    }

    /// The locale a requested language selects, if any: the language itself
    /// when it has a pack, else the first locale it is a prefix of.
    pub fn pick_locale(&self, lang: &str) -> (r: Option<String>)
        ensures
            match r {
                Some(s) => self.pick(lang@) == Some(s@),
                None => self.pick(lang@) is None,
            },
    {
        match find_key(&self.packs, lang) {
            Some(_) => Some(String::from_str(lang)),
            None => self.find_by_prefix(lang),
        }
    }

    /// The locale for a request, from the `lang` query parameter, the
    /// `Accept-Language` header, or the default.
    pub fn resolve(&self, query_lang: Option<&str>, accept_lang: Option<&str>) -> (r: String)
        ensures
            r@ == self.resolution(
                match query_lang { Some(q) => Some(q@), None => None },
                match accept_lang { Some(a) => Some(a@), None => None },
            ),
    {
        if let Some(lang) = query_lang {
            if let Some(l) = self.pick_locale(lang) {
                return l;
            }
        }
        if let Some(header) = accept_lang {
            let v = to_chars(header);
            let n = v.len();
            let mut start: usize = 0;
            let mut more = true;
            assert(header@.skip(0) =~= header@);
            while more
                invariant
                    v@ == header@,
                    n == header@.len(),
                    accept_lang == Some(header),
                    match query_lang {
                        Some(q) => self.pick(q@) is None,
                        None => true,
                    },
                    start <= n,
                    self.first_accepted(split_char(header@, ',')) == if more {
                        self.first_accepted(split_char(header@.skip(start as int), ','))
                    } else {
                        None
                    },
                decreases n + 1 - start - (if more { 0int } else { 1int }),
            {
                let mut end: usize = start;
                while end < n && v[end] != ','
                    invariant
                        v@ == header@,
                        n == header@.len(),
                        start <= end <= n,
                        forall|j: int| start <= j < end ==> header@[j] != ',',
                    decreases n - end,
                {
                    end = end + 1;
                }
                let ghost t = header@.skip(start as int);
                let ghost parts = split_char(t, ',');
                proof {
                    lemma_first_index_is(t, ',', (end - start) as int);
                    assert(t.take((end - start) as int) =~= header@.subrange(start as int, end as int));
                    if end < n {
                        assert(t.skip((end - start) as int + 1) =~= header@.skip(end + 1));
                    }
                }
                proof {
                    let k = (end - start) as int;
                    if end < n {
                        assert(parts == seq![t.take(k)] + split_char(t.skip(k + 1), ','));
                        assert(parts.drop_first() =~= split_char(header@.skip(end + 1), ','));
                    } else {
                        assert(parts == seq![t]);
                        assert(t =~= header@.subrange(start as int, end as int));
                        assert(parts.drop_first() =~= Seq::<Seq<char>>::empty());
                    }
                    assert(parts[0] == header@.subrange(start as int, end as int));
                }
                let part = substring(header, start, end);
                let cut = str_before_char(part.as_str(), ';');
                let lang = trim(cut.as_str());
                if let Some(l) = self.pick_locale(lang.as_str()) {
                    return l;
                }
                assert(self.first_accepted(parts) == self.first_accepted(parts.drop_first()));
                if end == n {
                    more = false;
                } else {
                    start = end + 1;
                }
            }
        }
        self.default_locale.clone()
    }

    /// The text of `key` for `locale`, falling back to the default locale
    /// and then to `[key]`.
    pub fn t(&self, locale: &str, key: &str) -> (r: String)
        ensures
            r@ == self.localized(locale@, key@),
    {
        if let Some(i) = find_key(&self.packs, locale) {
            if let Some(j) = find_key(&self.packs[i].1, key) {
                return self.packs[i].1[j].1.clone();
            }
        }
        if let Some(i) = find_key(&self.packs, self.default_locale.as_str()) {
            if let Some(j) = find_key(&self.packs[i].1, key) {
                return self.packs[i].1[j].1.clone();
            }
        }
        let open = concat("[", key);
        concat(open.as_str(), "]")
    }

    /// The text of `key` for `locale` with each `{{name}}` placeholder of
    /// `params` replaced by its value.
    pub fn tf(&self, locale: &str, key: &str, params: &Vec<(&str, &str)>) -> (r: String)
        ensures
            r@ == apply_params(self.localized(locale@, key@), params@),
    {
        let mut text = self.t(locale, key);
        let n = params.len();
        let mut i: usize = 0;
        assert(params@.skip(0) =~= params@);
        while i < n
            invariant
                n == params@.len(),
                i <= n,
                apply_params(self.localized(locale@, key@), params@) == apply_params(text@, params@.skip(i as int)),
            decreases n - i,
        {
            let (k, v) = params[i];
            let open = concat("{{", k);
            let pattern = concat(open.as_str(), "}}");
            proof {
                reveal_strlit("{{");
                assert(pattern@.len() > 0);
                assert(params@.skip(i as int)[0] == params@[i as int]);
                assert(params@.skip(i as int).drop_first() =~= params@.skip(i + 1));
            }
            text = replace_str(text.as_str(), pattern.as_str(), v);
            i = i + 1;
        }
        text
    }

    /// The text direction of a locale whose pack is `pack`: its `@meta.dir`
    /// entry, or `ltr`.
    pub open spec fn text_direction(pack: LocalePack) -> Seq<char> {
        match lookup(pack@, "@meta.dir"@) {
            Some(d) => d@,
            None => "ltr"@,
        }
    }

    /// `info` describes the `i`-th locale: its code, display name (the
    /// `@meta.name` entry of its pack, or the code itself when it has none)
    /// and text direction.
    pub open spec fn describes(&self, info: LocaleInfo, i: int) -> bool {
        &&& info.code@ == self.packs_spec()[i].0@
        &&& info.name@ == Self::display_name(self.packs_spec()[i].0@, self.packs_spec()[i].1)
        &&& info.dir@ == Self::text_direction(self.packs_spec()[i].1)
    }

    /// Every locale with a pack, once each, with its display name (its code
    /// when it has none) and text direction (`ltr` when it has none).
    pub fn available_locales(&self) -> (r: Vec<LocaleInfo>)
        ensures
            r@.len() == self.packs_spec().len(),
            forall|i: int| 0 <= i < r@.len() ==> #[trigger] self.describes(r@[i], i),
            forall|i: int, j: int| 0 <= i < j < r@.len() ==> r@[i].code@ != r@[j].code@,
    {
        proof {
            use_type_invariant(self);
        }
        let n = self.packs.len();
        let mut out: Vec<LocaleInfo> = Vec::new();
        let mut i: usize = 0;
        while i < n
            invariant
                n == self.packs@.len(),
                i <= n,
                out@.len() == i,
                unique_keys(self.packs@),
                forall|j: int| 0 <= j < i ==> #[trigger] self.describes(out@[j], j),
            decreases n - i,
        {
            let code = self.packs[i].0.clone();
            let name = match find_key(&self.packs[i].1, "@meta.name") {
                Some(j) => self.packs[i].1[j].1.clone(),
                None => code.clone(),
            };
            let dir = match find_key(&self.packs[i].1, "@meta.dir") {
                Some(j) => self.packs[i].1[j].1.clone(),
                None => String::from_str("ltr"),
            };
            let ghost old_out = out@;
            out.push(LocaleInfo { code, name, dir });
            assert forall|j: int| 0 <= j < i + 1 implies #[trigger] self.describes(out@[j], j) by {
                if j < i {
                    assert(out@[j] == old_out[j]);
                }
            }
            i = i + 1;
        }
        assert forall|i: int, j: int| 0 <= i < j < out@.len() implies out@[i].code@ != out@[j].code@ by {
            assert(self.describes(out@[i], i));
            assert(self.describes(out@[j], j));
        }
        out
    }

    /// The default locale.
    pub fn default_locale(&self) -> (r: &str)
        ensures
            r@ == self.default_spec(),
    {
        self.default_locale.as_str()
    }
}

/// The header parts are tried in order: when no part before `k` selects a
/// locale and part `k` (cut at its first `;` and trimmed) selects `l`, the
/// header selects `l`, whatever the later parts are.
pub proof fn lemma_first_selecting_part_wins(m: &I18nManager, parts: Seq<Seq<char>>, k: int, l: Seq<char>)
    requires
        0 <= k < parts.len(),
        forall|j: int| 0 <= j < k ==> m.pick(trim_ws(before_char(#[trigger] parts[j], ';'))) is None,
        m.pick(trim_ws(before_char(parts[k], ';'))) == Some(l),
    ensures
        m.first_accepted(parts) == Some(l),
    decreases k,
{
    if k > 0 {
        let rest = parts.drop_first();
        assert(m.pick(trim_ws(before_char(parts[0], ';'))) is None);
        assert forall|j: int| 0 <= j < k - 1 implies m.pick(trim_ws(before_char(#[trigger] rest[j], ';'))) is None by {
            assert(rest[j] == parts[j + 1]);
        }
        assert(rest[k - 1] == parts[k]);
        lemma_first_selecting_part_wins(m, rest, k - 1, l);
    }
}

/// A header none of whose parts selects a locale selects none.
pub proof fn lemma_no_selecting_part(m: &I18nManager, parts: Seq<Seq<char>>)
    requires
        forall|j: int| 0 <= j < parts.len() ==> m.pick(trim_ws(before_char(#[trigger] parts[j], ';'))) is None,
    ensures
        m.first_accepted(parts) is None,
    decreases parts.len(),
{
    if parts.len() > 0 {
        let rest = parts.drop_first();
        assert(m.pick(trim_ws(before_char(parts[0], ';'))) is None);
        assert forall|j: int| 0 <= j < rest.len() implies m.pick(trim_ws(before_char(#[trigger] rest[j], ';'))) is None by {
            assert(rest[j] == parts[j + 1]);
        }
        lemma_no_selecting_part(m, rest);
    }
}

/// A query language that selects a locale decides the request's locale;
/// otherwise, when the first part of the `Accept-Language` header selects a
/// locale `l`, the request gets `l`, whatever the later parts are; and when
/// neither selects one, the default locale.
pub proof fn lemma_resolution_order(m: &I18nManager, query: Option<Seq<char>>, header: Seq<char>, l: Seq<char>)
    ensures
        forall|q: Seq<char>, ql: Seq<char>| query == Some(q) && m.pick(q) == Some(ql)
            ==> m.resolution(query, Some(header)) == ql,
        (match query { Some(q) => m.pick(q) is None, None => true })
            && m.pick(trim_ws(before_char(split_char(header, ',')[0], ';'))) == Some(l)
            ==> m.resolution(query, Some(header)) == l,
        (match query { Some(q) => m.pick(q) is None, None => true })
            && (forall|j: int| 0 <= j < split_char(header, ',').len()
                ==> m.pick(trim_ws(before_char(#[trigger] split_char(header, ',')[j], ';'))) is None)
            ==> m.resolution(query, Some(header)) == m.default_spec(),
{
    let parts = split_char(header, ',');
    assert(parts.len() > 0);
    if m.pick(trim_ws(before_char(parts[0], ';'))) == Some(l) {
        lemma_first_selecting_part_wins(m, parts, 0, l);
    }
    if forall|j: int| 0 <= j < parts.len() ==> m.pick(trim_ws(before_char(#[trigger] parts[j], ';'))) is None {
        lemma_no_selecting_part(m, parts);
    }
}

/// Text without `{{` holds no placeholder: filling in any parameters leaves
/// it as it is.
pub proof fn lemma_placeholder_free_unchanged(text: Seq<char>, params: Seq<(&str, &str)>)
    requires
        forall|i: int| 0 <= i < text.len() ==> !starts_with(#[trigger] text.skip(i), "{{"@),
    ensures
        apply_params(text, params) == text,
    decreases params.len(),
{
    if params.len() > 0 {
        let pat = "{{"@ + params[0].0@ + "}}"@;
        reveal_strlit("{{");
        reveal_strlit("}}");
        assert forall|i: int| 0 <= i < text.len() implies !starts_with(#[trigger] text.skip(i), pat) by {
            if starts_with(text.skip(i), pat) {
                assert(text.skip(i).take(2) =~= pat.take(2));
                assert(pat.take(2) =~= "{{"@);
                assert(starts_with(text.skip(i), "{{"@));
            }
        }
        lemma_replace_absent(text, pat, params[0].1@);
        lemma_placeholder_free_unchanged(text, params.drop_first());
    }
}

/// A locale found by prefix is one that has a pack.
pub proof fn lemma_prefix_key_present<V>(s: Seq<(String, V)>, p: Seq<char>)
    ensures
        first_prefix_key(s, p) matches Some(k) ==> has_key(s, k),
    decreases s.len(),
{
    if s.len() > 0 && !starts_with(lowercase(s[0].0@), p) {
        lemma_prefix_key_present(s.drop_first(), p);
        if let Some(k) = first_prefix_key(s.drop_first(), p) {
            let i = choose|i: int| 0 <= i < s.drop_first().len() && s.drop_first()[i].0@ == k;
            assert(s[i + 1].0@ == k);
        }
    }
}

/// Every locale picked from the header parts has a pack.
proof fn lemma_first_accepted_present(m: &I18nManager, parts: Seq<Seq<char>>)
    ensures
        m.first_accepted(parts) matches Some(l) ==> m.has_pack(l),
    decreases parts.len(),
{
    if parts.len() > 0 {
        lemma_prefix_key_present(m.packs_spec(), lowercase(trim_ws(before_char(parts[0], ';'))));
        lemma_first_accepted_present(m, parts.drop_first());
    }
}

/// The locale chosen for a request is one that has a pack, or the default
/// locale; a query language that has a pack of its own is chosen as is.
pub proof fn lemma_resolution_known(m: &I18nManager, query: Option<Seq<char>>, accept: Option<Seq<char>>)
    ensures
        m.has_pack(m.resolution(query, accept)) || m.resolution(query, accept) == m.default_spec(),
        forall|q: Seq<char>| query == Some(q) && m.has_pack(q) ==> m.resolution(query, accept) == q,
{
    if let Some(q) = query {
        lemma_prefix_key_present(m.packs_spec(), lowercase(q));
    }
    if let Some(h) = accept {
        lemma_first_accepted_present(m, split_char(h, ','));
    }
}

/// A text stored in the pack of a locale is what that locale reads.
pub proof fn lemma_stored_text_read(m: &I18nManager, locale: Seq<char>, pack: LocalePack, key: Seq<char>, text: String)
    requires
        lookup(m.packs_spec(), locale) == Some(pack),
        lookup(pack@, key) == Some(text),
    ensures
        m.localized(locale, key) == text@,
{
}

/// A key that no pack of the locale or of the default locale holds reads as
/// `[key]`.
pub proof fn lemma_missing_key_placeholder(m: &I18nManager, locale: Seq<char>, key: Seq<char>)
    requires
        m.message(locale, key) is None,
        m.message(m.default_spec(), key) is None,
    ensures
        m.localized(locale, key) == "["@ + key + "]"@,
{
}

} // verus!
