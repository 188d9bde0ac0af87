//! The versioned template service: a read-through record cache in front of
//! the store, with cascading invalidation on every mutation.

use vstd::prelude::*;
use crate::codec::{decode_template, encode_template, spec_decode, spec_encode};
use crate::error::AppError;
use crate::jsoncheck::{is_json_object, json_object_keys};
use crate::keys::{rkey_prefix, spec_rkey_prefix, spec_tkey_exact, spec_tkey_latest, tkey_exact,
    tkey_latest};
use crate::kv::{has_prefix, kv_del, kv_del_prefix, kv_lookup, kv_set, KvCache, KvView};
use crate::models::template::{CreateTemplateRequest, Template, TemplateType, TemplateView};
use crate::store::{deactivate, find_exact, find_latest, max_version, store_inv, TemplateStore};

verus! {

/// Whether content passes its type's validation: HTML must be non-empty,
/// a push source must itself be the text of a JSON object.
pub open spec fn content_valid(t: TemplateType, c: Seq<char>) -> bool {
    match t {
        TemplateType::EmailHtml => c.len() > 0,
        TemplateType::PushJson => json_object_keys(c) is Some,
    }
}

/// What an exact or unversioned get resolves to in the store.
pub open spec fn resolve(
    rows: Seq<TemplateView>,
    code: Seq<char>,
    language: Seq<char>,
    version: Option<i32>,
) -> Option<TemplateView> {
    match version {
        Some(v) => find_exact(rows, code, language, v as int),
        None => find_latest(rows, code, language),
    }
}

/// The record cache key a get consults.
pub open spec fn get_key(code: Seq<char>, language: Seq<char>, version: Option<i32>) -> Seq<
    char,
> {
    match version {
        Some(v) => spec_tkey_exact(code, v as int, language),
        None => spec_tkey_latest(code, language),
    }
}

/// The cache after one `(code, version, language)` invalidation: the exact
/// key, the latest key, and every rendered-output key of the triple are
/// gone.
pub open spec fn spec_invalidate(
    cv: KvView,
    code: Seq<char>,
    version: int,
    language: Seq<char>,
) -> KvView {
    kv_del_prefix(
        kv_del(kv_del(cv, spec_tkey_exact(code, version, language)), spec_tkey_latest(code, language)),
        spec_rkey_prefix(code, version, language),
    )
}

/// Whether a soft delete of `(code, version)` sweeps this cache key: it is
/// an exact, latest, or rendered-output key of one of the affected
/// languages.
pub open spec fn swept_by_delete(
    k: Seq<char>,
    rows: Seq<TemplateView>,
    code: Seq<char>,
    version: int,
) -> bool {
    exists|i: int|
        0 <= i < rows.len() && (#[trigger] rows[i]).template_code == code && rows[i].version
            == version && (k == spec_tkey_exact(code, version, rows[i].language) || k
            == spec_tkey_latest(code, rows[i].language) || has_prefix(
            k,
            spec_rkey_prefix(code, version, rows[i].language),
        ))
}

/// Whether one of the first `n` reported languages sweeps this cache key.
pub open spec fn swept_upto(
    k: Seq<char>,
    code: Seq<char>,
    version: int,
    langs: Seq<String>,
    n: int,
) -> bool {
    exists|l: int|
        0 <= l < n && (k == spec_tkey_exact(code, version, (#[trigger] langs[l])@) || k
            == spec_tkey_latest(code, langs[l]@) || has_prefix(
            k,
            spec_rkey_prefix(code, version, langs[l]@),
        ))
}

/// The versioned template repository behind its read-through cache.
pub struct TemplateService {
    store: TemplateStore,
    cache_ttl_secs: u64,
}

impl TemplateService {
    /// The stored rows.
    pub closed spec fn spec_store(&self) -> Seq<TemplateView> {
        self.store@
    }

    /// The row identifier the next create will assign.
    pub closed spec fn spec_next_id(&self) -> u64 {
        self.store.spec_next_id()
    }

    /// The TTL each cached record entry is written with.
    pub closed spec fn spec_ttl(&self) -> u64 {
        self.cache_ttl_secs
    }

    pub open spec fn wf(&self) -> bool {
        store_inv(self.spec_store())
    }

    /// A service over an empty store, caching records for
    /// `template_cache_ttl_secs`.
    pub fn new(template_cache_ttl_secs: u64) -> (r: TemplateService)
        ensures
            r.wf(),
            r.spec_store() == Seq::<TemplateView>::empty(),
            r.spec_next_id() == 0,
            r.spec_ttl() == template_cache_ttl_secs,
    {
        TemplateService { store: TemplateStore::new(), cache_ttl_secs: template_cache_ttl_secs }
    }

    /// Type-specific content validation.
    pub fn validate_content(template_type: &TemplateType, content: &str) -> (r: Result<
        (),
        AppError,
    >)
        ensures
            match r {
                Ok(()) => content_valid(*template_type, content@),
                Err(e) => !content_valid(*template_type, content@) && e matches
                    AppError::InvalidContent(_),
            },
    {
        match template_type {
            TemplateType::EmailHtml => {
                if content.unicode_len() == 0 {
                    Err(AppError::InvalidContent(String::from_str("Content cannot be empty")))
                } else {
                    Ok(())
                }
            },
            TemplateType::PushJson => {
                if is_json_object(content) {
                    Ok(())
                } else {
                    Err(
                        AppError::InvalidContent(
                            String::from_str("Push template must be a JSON object"),
                        ),
                    )
                }
            },
        }
    }

    /// Removes the record keys and the rendered-output keys of one
    /// `(code, version, language)` from the cache.
    fn invalidate_template_cache(
        &self,
        cache: &mut KvCache,
        template_code: &str,
        version: i32,
        language: &str,
    )
        requires
            old(cache).wf(),
        ensures
            final(cache).wf(),
            final(cache)@ == spec_invalidate(
                old(cache)@,
                template_code@,
                version as int,
                language@,
            ),
    {
        let k1 = tkey_exact(template_code, version, language);
        cache.del(k1.as_str());
        let k2 = tkey_latest(template_code, language);
        cache.del(k2.as_str());
        let p = rkey_prefix(template_code, version, language);
        cache.del_prefix(p.as_str());
    }

    /// Whether a create for `(code, language)` has room: the version
    /// counter and the row-identifier counter are below their types'
    /// ceilings.  Callers outside verified code check this before
    /// `create_template`.
    pub fn can_create(&self, template_code: &str, language: &str) -> (r: bool)
        requires
            self.wf(),
        ensures
            r == (max_version(self.spec_store(), template_code@, language@) < i32::MAX
                && self.spec_next_id() < u64::MAX),
    {
        self.store.max_version_for(template_code, language) < i32::MAX && self.store.next_id()
            < u64::MAX
    }

    /// Creates the next version of `(code, language)` — validation, then
    /// version allocation and the row append in the store's serialization
    /// point, then cache invalidation of the new version's keys and the
    /// pair's "latest" entry.
    pub fn create_template(&mut self, cache: &mut KvCache, req: CreateTemplateRequest, now: u64)
        -> (r: Result<Template, AppError>)
        requires
            old(self).wf(),
            old(cache).wf(),
            max_version(old(self).spec_store(), req.template_code@, req.language@) < i32::MAX,
            old(self).spec_next_id() < u64::MAX,
        ensures
            final(self).wf(),
            final(cache).wf(),
            final(self).spec_ttl() == old(self).spec_ttl(),
            match r {
                Ok(t) => {
                    &&& TemplateType::spec_from_str(req.template_type@) matches Some(tt)
                        && content_valid(tt, req.content@)
                    &&& t@.version == max_version(
                        old(self).spec_store(),
                        req.template_code@,
                        req.language@,
                    ) + 1
                    &&& t@.id == old(self).spec_next_id()
                    &&& t@.template_code == req.template_code@
                    &&& t@.template_type == req.template_type@
                    &&& t@.language == req.language@
                    &&& t@.content == req.content@
                    &&& t@.created_at == now
                    &&& t@.is_active
                    &&& t@.created_by is None
                    &&& t@.updated_at is None
                    &&& t@.meta == match req.meta {
                        Some(m) => Some(m@),
                        None => None,
                    }
                    &&& final(self).spec_store() == old(self).spec_store().push(t@)
                    &&& final(self).spec_next_id() == old(self).spec_next_id() + 1
                    &&& final(cache)@ == spec_invalidate(
                        old(cache)@,
                        req.template_code@,
                        t@.version,
                        req.language@,
                    )
                },
                Err(e) => {
                    &&& final(self).spec_store() == old(self).spec_store()
                    &&& final(self).spec_next_id() == old(self).spec_next_id()
                    &&& final(cache)@ == old(cache)@
                    &&& match e {
                        AppError::InvalidTemplateType => TemplateType::spec_from_str(
                            req.template_type@,
                        ) is None,
                        AppError::InvalidContent(_) => TemplateType::spec_from_str(
                            req.template_type@,
                        ) matches Some(tt) && !content_valid(tt, req.content@),
                        _ => false,
                    }
                },
            },
    {
        let CreateTemplateRequest { template_code, template_type, language, content, meta } = req;
        let ttype = match TemplateType::from_str(template_type.as_str()) {
            None => {
                return Err(AppError::InvalidTemplateType);
            },
            Some(t) => t,
        };
        match Self::validate_content(&ttype, content.as_str()) {
            Err(e) => {
                return Err(e);
            },
            Ok(()) => {},
        }
        proof {
            reveal_strlit("email_html");
            reveal_strlit("push_json");
            assert(ttype.spec_str() == template_type@);
        }
        let t = self.store.create(
            template_code.as_str(),
            ttype.as_str(),
            language.as_str(),
            content.as_str(),
            meta,
            now,
        );
        self.invalidate_template_cache(cache, template_code.as_str(), t.version, language.as_str());
        Ok(t)
    }

    /// Resolves a template — exact version, or the highest active one —
    /// through the read-through cache.  A cache hit that decodes answers
    /// directly; anything else falls through to the store, and a store hit
    /// repopulates the cache entry best-effort with the configured TTL.
    pub fn get_template(
        &self,
        cache: &mut KvCache,
        template_code: &str,
        language: Option<&str>,
        version: Option<i32>,
        now: u64,
    ) -> (r: Result<Template, AppError>)
        requires
            self.wf(),
            old(cache).wf(),
        ensures
            final(cache).wf(),
            ({
                let lang = match language {
                    Some(l) => l@,
                    None => "en"@,
                };
                let key = get_key(template_code@, lang, version);
                let cached_record = match kv_lookup(old(cache)@, key, now) {
                    Some(c) => spec_decode(c),
                    None => None,
                };
                match cached_record {
                    Some(tv) => r matches Ok(t) && t@ == tv && final(cache)@ == old(cache)@,
                    None => match resolve(self.spec_store(), template_code@, lang, version) {
                        None => r matches Err(e) && e == AppError::TemplateNotFound
                            && final(cache)@ == old(cache)@,
                        Some(row) => r matches Ok(t) && t@ == row && final(cache)@ == kv_set(
                            old(cache)@,
                            key,
                            spec_encode(row),
                            self.spec_ttl(),
                            now,
                        ),
                    },
                }
            }),
    {
        let lang = match language {
            Some(l) => l,
            None => "en",
        };
        let key = match version {
            Some(v) => tkey_exact(template_code, v, lang),
            None => tkey_latest(template_code, lang),
        };
        match cache.get(key.as_str(), now) {
            Some(cached) => {
                match decode_template(cached.as_str()) {
                    Some(t) => {
                        return Ok(t);
                    },
                    None => {},
                }
            },
            None => {},
        }
        let found = match version {
            Some(v) => self.store.get_exact(template_code, lang, v),
            None => self.store.get_latest(template_code, lang),
        };
        match found {
            None => Err(AppError::TemplateNotFound),
            Some(row) => {
                proof {
                    let rows = self.spec_store();
                    match version {
                        Some(v) => {
                            crate::store::lemma_find_exact_in_rows(
                                rows,
                                template_code@,
                                lang@,
                                v as int,
                                row@,
                            );
                        },
                        None => {
                            crate::store::lemma_max_version_nonneg(rows, template_code@, lang@);
                            crate::store::lemma_find_exact_in_rows(
                                rows,
                                template_code@,
                                lang@,
                                crate::store::max_active_version(rows, template_code@, lang@),
                                row@,
                            );
                        },
                    }
                    let i = choose|i: int| 0 <= i < rows.len() && rows[i] == row@;
                    assert(rows[i].version >= 1);
                }
                let enc = encode_template(&row);
                cache.set_ex(key.as_str(), enc.as_str(), self.cache_ttl_secs, now);
                Ok(row)
            },
        }
    }

    /// Marks every row of `(code, version)` inactive across all languages,
    /// then sweeps, for each affected language, the exact and latest record
    /// keys and every rendered-output key — so neither a stale record entry
    /// nor a stale rendered output survives the deletion.
    #[verifier::rlimit(60)]
    pub fn soft_delete(&mut self, cache: &mut KvCache, template_code: &str, version: i32) -> (r:
        Result<(), AppError>)
        requires
            old(self).wf(),
            old(cache).wf(),
        ensures
            final(self).wf(),
            final(cache).wf(),
            final(self).spec_ttl() == old(self).spec_ttl(),
            final(self).spec_next_id() == old(self).spec_next_id(),
            ({
                let rows0 = old(self).spec_store();
                let had = exists|i: int|
                    0 <= i < rows0.len() && (#[trigger] rows0[i]).template_code == template_code@
                        && rows0[i].version == version;
                match r {
                    Ok(()) => {
                        &&& had
                        &&& final(self).spec_store() == deactivate(
                            rows0,
                            template_code@,
                            version as int,
                        )
                        &&& final(cache)@.available == old(cache)@.available
                        &&& (old(cache)@.available ==> final(cache)@.entries == Map::new(
                            |k: Seq<char>|
                                old(cache)@.entries.dom().contains(k) && !swept_by_delete(
                                    k,
                                    rows0,
                                    template_code@,
                                    version as int,
                                ),
                            |k: Seq<char>| old(cache)@.entries[k],
                        ))
                        &&& (!old(cache)@.available ==> final(cache)@ == old(cache)@)
                    },
                    Err(e) => {
                        &&& !had
                        &&& e == AppError::TemplateNotFound
                        &&& final(self).spec_store() == rows0
                        &&& final(cache)@ == old(cache)@
                    },
                }
            }),
    {
        let ghost rows0 = self.spec_store();
        let ghost cv0 = old(cache)@;
        let langs = self.store.soft_delete(template_code, version);
        if langs.len() == 0 {
            proof {
                assert(self.spec_store() =~= rows0);
            }
            return Err(AppError::TemplateNotFound);
        }
        let mut li: usize = 0;
        while li < langs.len()
            invariant
                li <= langs@.len(),
                cache.wf(),
                cv0 == old(cache)@,
                cache@.available == cv0.available,
                !cv0.available ==> cache@ == cv0,
                cv0.available ==> cache@.entries == Map::new(
                    |k: Seq<char>|
                        cv0.entries.dom().contains(k) && !swept_upto(
                            k,
                            template_code@,
                            version as int,
                            langs@,
                            li as int,
                        ),
                    |k: Seq<char>| cv0.entries[k],
                ),
            decreases langs@.len() - li,
        {
            let ghost cvi = cache@;
            self.invalidate_template_cache(cache, template_code, version, langs[li].as_str());
            proof {
                let code = template_code@;
                let v = version as int;
                let lng = langs@[li as int]@;
                let k1 = spec_tkey_exact(code, v, lng);
                let k2 = spec_tkey_latest(code, lng);
                let p = spec_rkey_prefix(code, v, lng);
                if cv0.available {
                    assert forall|k: Seq<char>|
                        swept_upto(k, code, v, langs@, li as int + 1) == (swept_upto(
                            k,
                            code,
                            v,
                            langs@,
                            li as int,
                        ) || k == k1 || k == k2 || has_prefix(k, p)) by {
                        if swept_upto(k, code, v, langs@, li as int + 1) {
                            let l = choose|l: int|
                                0 <= l < li as int + 1 && (k == spec_tkey_exact(
                                    code,
                                    v,
                                    (#[trigger] langs@[l])@,
                                ) || k == spec_tkey_latest(code, langs@[l]@) || has_prefix(
                                    k,
                                    spec_rkey_prefix(code, v, langs@[l]@),
                                ));
                            if l < li as int {
                                assert(swept_upto(k, code, v, langs@, li as int));
                            }
                        }
                        if swept_upto(k, code, v, langs@, li as int) {
                            let l = choose|l: int|
                                0 <= l < li as int && (k == spec_tkey_exact(
                                    code,
                                    v,
                                    (#[trigger] langs@[l])@,
                                ) || k == spec_tkey_latest(code, langs@[l]@) || has_prefix(
                                    k,
                                    spec_rkey_prefix(code, v, langs@[l]@),
                                ));
                            assert(0 <= l < li as int + 1);
                        }
                        if k == k1 || k == k2 || has_prefix(k, p) {
                            assert(langs@[li as int]@ == lng);
                            assert(swept_upto(k, code, v, langs@, li as int + 1));
                        }
                    }
                    assert(cache@.entries =~= Map::new(
                        |k: Seq<char>|
                            cv0.entries.dom().contains(k) && !swept_upto(
                                k,
                                code,
                                v,
                                langs@,
                                li as int + 1,
                            ),
                        |k: Seq<char>| cv0.entries[k],
                    ));
                }
            }
            li += 1;
        }
        proof {
            let code = template_code@;
            let v = version as int;
            if cv0.available {
                assert forall|k: Seq<char>|
                    swept_upto(k, code, v, langs@, langs@.len() as int) == swept_by_delete(
                        k,
                        rows0,
                        code,
                        v,
                    ) by {
                    if swept_upto(k, code, v, langs@, langs@.len() as int) {
                        let l = choose|l: int|
                            0 <= l < langs@.len() && (k == spec_tkey_exact(
                                code,
                                v,
                                (#[trigger] langs@[l])@,
                            ) || k == spec_tkey_latest(code, langs@[l]@) || has_prefix(
                                k,
                                spec_rkey_prefix(code, v, langs@[l]@),
                            ));
                        let i = choose|i: int|
                            0 <= i < rows0.len() && (#[trigger] rows0[i]).template_code == code
                                && rows0[i].version == version && rows0[i].language == langs@[l]@;
                        assert(swept_by_delete(k, rows0, code, v));
                    }
                    if swept_by_delete(k, rows0, code, v) {
                        let i = choose|i: int|
                            0 <= i < rows0.len() && (#[trigger] rows0[i]).template_code == code
                                && rows0[i].version == v && (k == spec_tkey_exact(
                                code,
                                v,
                                rows0[i].language,
                            ) || k == spec_tkey_latest(code, rows0[i].language) || has_prefix(
                                k,
                                spec_rkey_prefix(code, v, rows0[i].language),
                            ));
                        let l = choose|l: int|
                            0 <= l < langs@.len() && (#[trigger] langs@[l])@ == rows0[i].language;
                        assert(swept_upto(k, code, v, langs@, langs@.len() as int));
                    }
                }
                assert(cache@.entries =~= Map::new(
                    |k: Seq<char>|
                        cv0.entries.dom().contains(k) && !swept_by_delete(k, rows0, code, v),
                    |k: Seq<char>| cv0.entries[k],
                ));
            }
        }
        Ok(())
    }

    /// Every version of one code, version descending then language
    /// ascending, soft-deleted rows included for version history.
    pub fn get_versions(&self, template_code: &str) -> (r: Result<Vec<Template>, AppError>)
        ensures
            match r {
                Ok(ts) => {
                    &&& ts@.map_values(|t: Template| t@).to_multiset()
                        == crate::store::matching_rows(
                        self.spec_store(),
                        template_code@,
                    ).to_multiset()
                    &&& forall|a: int, b: int|
                        0 <= a < b < ts@.len() ==> crate::store::row_before(ts@[a]@, ts@[b]@)
                },
                Err(_) => false,
            },
    {
        Ok(self.store.list_for_code(template_code))
    }
}

/// After a create of row `t` for `(code, language)`, a get of the returned
/// version — and an unversioned get — resolve to `t`: the store finds it,
/// and the create's invalidation removed both the exact and the "latest"
/// record cache keys, so no cached record written earlier can answer in
/// their place.
pub proof fn lemma_create_then_get(
    rows: Seq<TemplateView>,
    cv: KvView,
    t: TemplateView,
    code: Seq<char>,
    language: Seq<char>,
    now: u64,
)
    requires
        store_inv(rows),
        t.template_code == code,
        t.language == language,
        t.is_active,
        t.version == max_version(rows, code, language) + 1,
        t.version <= i32::MAX,
    ensures
        resolve(rows.push(t), code, language, Some(t.version as i32)) == Some(t),
        resolve(rows.push(t), code, language, None) == Some(t),
        kv_lookup(
            spec_invalidate(cv, code, t.version, language),
            get_key(code, language, Some(t.version as i32)),
            now,
        ) is None,
        kv_lookup(
            spec_invalidate(cv, code, t.version, language),
            get_key(code, language, None),
            now,
        ) is None,
{
    crate::store::lemma_created_row_resolves(rows, code, language, t);
    let cv1 = spec_invalidate(cv, code, t.version, language);
    let k1 = spec_tkey_exact(code, t.version, language);
    let k2 = spec_tkey_latest(code, language);
    if cv.available {
        assert(!cv1.entries.dom().contains(k1));
        assert(!cv1.entries.dom().contains(k2));
    }
}

/// After a soft delete of `(code, version)`, a get of that exact version
/// fails in every language the version existed in: the store row is now
/// inactive, and the delete swept the exact record key, so even a cache
/// entry written before the deletion cannot resurrect the record.
pub proof fn lemma_soft_delete_then_get(
    rows: Seq<TemplateView>,
    cv: KvView,
    cache1: KvView,
    code: Seq<char>,
    version: int,
    language: Seq<char>,
    now: u64,
    i: int,
)
    requires
        0 <= i < rows.len(),
        rows[i].template_code == code,
        rows[i].version == version,
        rows[i].language == language,
        cache1.available == cv.available,
        cv.available ==> cache1.entries == Map::new(
            |k: Seq<char>| cv.entries.dom().contains(k) && !swept_by_delete(k, rows, code, version),
            |k: Seq<char>| cv.entries[k],
        ),
        !cv.available ==> cache1 == cv,
    ensures
        find_exact(deactivate(rows, code, version), code, language, version) is None,
        kv_lookup(cache1, spec_tkey_exact(code, version, language), now) is None,
{
    crate::store::lemma_deactivated_row_hidden(rows, code, language, version);
    let k = spec_tkey_exact(code, version, language);
    assert(swept_by_delete(k, rows, code, version)) by {
        assert(rows[i].template_code == code && rows[i].version == version && k == spec_tkey_exact(
            code,
            version,
            rows[i].language,
        ));
    }
    if cv.available {
        assert(!cache1.entries.dom().contains(k));
    }
}

} // verus!
