//! The durable versioned template repository.
//!
//! Rows are only ever appended or deactivated, never removed.  For each
//! `(template_code, language)` pair the store keeps the version invariant:
//! versions start at 1, are assigned exactly once, and form a contiguous
//! ascending range — the allocation `max + 1` runs inside the store's single
//! point of serialization, so two concurrent creates cannot share a version.

use vstd::prelude::*;
use crate::models::template::{Template, TemplateView};
use crate::text::{lemma_lex_lt_total, lex_lt, str_eq};

verus! {

/// Whether a row belongs to `(code, language)`.
pub open spec fn row_in_group(r: TemplateView, code: Seq<char>, language: Seq<char>) -> bool {
    r.template_code == code && r.language == language
}

/// The greatest version ever assigned in `(code, language)`; 0 when none.
pub open spec fn max_version(rows: Seq<TemplateView>, code: Seq<char>, language: Seq<char>) -> int
    decreases rows.len(),
{
    if rows.len() == 0 {
        0
    } else {
        let m = max_version(rows.drop_last(), code, language);
        if row_in_group(rows.last(), code, language) && rows.last().version > m {
            rows.last().version
        } else {
            m
        }
    }
}

/// An active row with this exact identity.
pub open spec fn is_exact(
    r: TemplateView,
    code: Seq<char>,
    language: Seq<char>,
    version: int,
) -> bool {
    row_in_group(r, code, language) && r.version == version && r.is_active
}

/// The first active row with this exact identity.
pub open spec fn find_exact(
    rows: Seq<TemplateView>,
    code: Seq<char>,
    language: Seq<char>,
    version: int,
) -> Option<TemplateView>
    decreases rows.len(),
{
    if rows.len() == 0 {
        None
    } else if is_exact(rows[0], code, language, version) {
        Some(rows[0])
    } else {
        find_exact(rows.drop_first(), code, language, version)
    }
}

/// The greatest version among the active rows of `(code, language)`.
pub open spec fn max_active_version(
    rows: Seq<TemplateView>,
    code: Seq<char>,
    language: Seq<char>,
) -> int
    decreases rows.len(),
{
    if rows.len() == 0 {
        0
    } else {
        let m = max_active_version(rows.drop_last(), code, language);
        if row_in_group(rows.last(), code, language) && rows.last().is_active
            && rows.last().version > m {
            rows.last().version
        } else {
            m
        }
    }
}

/// The active row "latest" resolves to: the one carrying the greatest active
/// version, if any row of the pair is active.
pub open spec fn find_latest(
    rows: Seq<TemplateView>,
    code: Seq<char>,
    language: Seq<char>,
) -> Option<TemplateView> {
    if max_active_version(rows, code, language) >= 1 {
        find_exact(rows, code, language, max_active_version(rows, code, language))
    } else {
        None
    }
}

/// The store's version invariant: versions are at least 1, assigned at most
/// once per `(code, language)`, and downward closed — so they are exactly
/// `1 ..= max`.
pub open spec fn store_inv(rows: Seq<TemplateView>) -> bool {
    &&& forall|i: int| 0 <= i < rows.len() ==> (#[trigger] rows[i]).version >= 1
    &&& forall|i: int, j: int|
        0 <= i < j < rows.len() && row_in_group(#[trigger] rows[i], rows[j].template_code, rows[j].language)
            ==> rows[i].version != (#[trigger] rows[j]).version
    &&& forall|i: int|
        0 <= i < rows.len() && (#[trigger] rows[i]).version > 1 ==> exists|j: int|
            0 <= j < rows.len() && row_in_group(#[trigger] rows[j], rows[i].template_code,
            rows[i].language) && rows[j].version == rows[i].version - 1
}

/// Every row of a group is bounded by the group's maximum.
pub proof fn lemma_max_version_bound(
    rows: Seq<TemplateView>,
    code: Seq<char>,
    language: Seq<char>,
    i: int,
)
    requires
        0 <= i < rows.len(),
        row_in_group(rows[i], code, language),
    ensures
        rows[i].version <= max_version(rows, code, language),
    decreases rows.len(),
{
    if i == rows.len() - 1 {
    } else {
        assert(rows.drop_last()[i] == rows[i]);
        lemma_max_version_bound(rows.drop_last(), code, language, i);
    }
}

/// A positive maximum is attained by some row of the group.
pub proof fn lemma_max_version_attained(
    rows: Seq<TemplateView>,
    code: Seq<char>,
    language: Seq<char>,
)
    requires
        max_version(rows, code, language) >= 1,
    ensures
        exists|j: int|
            0 <= j < rows.len() && row_in_group(#[trigger] rows[j], code, language)
                && rows[j].version == max_version(rows, code, language),
    decreases rows.len(),
{
    let m = max_version(rows, code, language);
    if rows.len() > 0 {
        if row_in_group(rows.last(), code, language) && rows.last().version == m {
            assert(rows[rows.len() - 1].version == m);
        } else {
            lemma_max_version_attained(rows.drop_last(), code, language);
            let j = choose|j: int|
                0 <= j < rows.drop_last().len() && row_in_group(
                    #[trigger] rows.drop_last()[j],
                    code,
                    language,
                ) && rows.drop_last()[j].version == m;
            assert(rows[j] == rows.drop_last()[j]);
        }
    }
}

/// Maxima never go below zero.
pub proof fn lemma_max_version_nonneg(
    rows: Seq<TemplateView>,
    code: Seq<char>,
    language: Seq<char>,
)
    ensures
        max_version(rows, code, language) >= 0,
        max_active_version(rows, code, language) >= 0,
    decreases rows.len(),
{
    if rows.len() > 0 {
        lemma_max_version_nonneg(rows.drop_last(), code, language);
    }
}

/// The active maximum never exceeds the overall maximum.
pub proof fn lemma_max_active_le_max(
    rows: Seq<TemplateView>,
    code: Seq<char>,
    language: Seq<char>,
)
    ensures
        max_active_version(rows, code, language) <= max_version(rows, code, language),
    decreases rows.len(),
{
    if rows.len() > 0 {
        lemma_max_active_le_max(rows.drop_last(), code, language);
    }
}

/// Under the invariant, the versions present in a group are exactly
/// `1 ..= max` — no gaps, no duplicates.
pub proof fn lemma_versions_contiguous(
    rows: Seq<TemplateView>,
    code: Seq<char>,
    language: Seq<char>,
    v: int,
)
    requires
        store_inv(rows),
        1 <= v <= max_version(rows, code, language),
    ensures
        exists|j: int|
            0 <= j < rows.len() && row_in_group(#[trigger] rows[j], code, language)
                && rows[j].version == v,
    decreases max_version(rows, code, language) - v,
{
    let m = max_version(rows, code, language);
    if v == m {
        lemma_max_version_attained(rows, code, language);
    } else {
        lemma_versions_contiguous(rows, code, language, v + 1);
        let j = choose|j: int|
            0 <= j < rows.len() && row_in_group(#[trigger] rows[j], code, language)
                && rows[j].version == v + 1;
        assert(rows[j].version > 1);
        let k = choose|k: int|
            0 <= k < rows.len() && row_in_group(#[trigger] rows[k], rows[j].template_code,
            rows[j].language) && rows[k].version == rows[j].version - 1;
        assert(row_in_group(rows[k], code, language) && rows[k].version == v);
    }
}

/// A found row is one of the rows.
pub proof fn lemma_find_exact_in_rows(
    rows: Seq<TemplateView>,
    code: Seq<char>,
    language: Seq<char>,
    version: int,
    t: TemplateView,
)
    requires
        find_exact(rows, code, language, version) == Some(t),
    ensures
        exists|i: int| 0 <= i < rows.len() && rows[i] == t,
        is_exact(t, code, language, version),
    decreases rows.len(),
{
    if rows.len() > 0 {
        if is_exact(rows[0], code, language, version) {
            assert(rows[0] == t);
        } else {
            lemma_find_exact_in_rows(rows.drop_first(), code, language, version, t);
            let i = choose|i: int| 0 <= i < rows.drop_first().len() && rows.drop_first()[i] == t;
            assert(rows[i + 1] == t);
        }
    }
}

/// When no earlier row matches, the appended row is found.
pub proof fn lemma_find_exact_push(
    rows: Seq<TemplateView>,
    code: Seq<char>,
    language: Seq<char>,
    version: int,
    t: TemplateView,
)
    requires
        forall|i: int| 0 <= i < rows.len() ==> !is_exact(#[trigger] rows[i], code, language,
        version),
        is_exact(t, code, language, version),
    ensures
        find_exact(rows.push(t), code, language, version) == Some(t),
    decreases rows.len(),
{
    let r2 = rows.push(t);
    if rows.len() == 0 {
        assert(r2[0] == t);
    } else {
        assert(!is_exact(r2[0], code, language, version));
        assert(r2.drop_first() =~= rows.drop_first().push(t));
        assert forall|i: int| 0 <= i < rows.drop_first().len() implies !is_exact(
            #[trigger] rows.drop_first()[i],
            code,
            language,
            version,
        ) by {
            assert(rows.drop_first()[i] == rows[i + 1]);
        }
        lemma_find_exact_push(rows.drop_first(), code, language, version, t);
    }
}

/// When no row matches at all, nothing is found.
pub proof fn lemma_find_exact_none(
    rows: Seq<TemplateView>,
    code: Seq<char>,
    language: Seq<char>,
    version: int,
)
    requires
        forall|i: int| 0 <= i < rows.len() ==> !is_exact(#[trigger] rows[i], code, language,
        version),
    ensures
        find_exact(rows, code, language, version) is None,
    decreases rows.len(),
{
    if rows.len() > 0 {
        assert forall|i: int| 0 <= i < rows.drop_first().len() implies !is_exact(
            #[trigger] rows.drop_first()[i],
            code,
            language,
            version,
        ) by {
            assert(rows.drop_first()[i] == rows[i + 1]);
        }
        lemma_find_exact_none(rows.drop_first(), code, language, version);
    }
}

/// After a create, both an exact get of the new version and an unversioned
/// get resolve to the created row.
#[verifier::rlimit(60)]
pub proof fn lemma_created_row_resolves(
    rows: Seq<TemplateView>,
    code: Seq<char>,
    language: Seq<char>,
    t: TemplateView,
)
    requires
        store_inv(rows),
        row_in_group(t, code, language),
        t.is_active,
        t.version == max_version(rows, code, language) + 1,
    ensures
        find_exact(rows.push(t), code, language, t.version) == Some(t),
        find_latest(rows.push(t), code, language) == Some(t),
        max_active_version(rows.push(t), code, language) == t.version,
{
    let r2 = rows.push(t);
    assert forall|i: int| 0 <= i < rows.len() implies !is_exact(#[trigger] rows[i], code,
    language, t.version) by {
        if row_in_group(rows[i], code, language) {
            lemma_max_version_bound(rows, code, language, i);
        }
    }
    lemma_find_exact_push(rows, code, language, t.version, t);
    assert(r2.drop_last() =~= rows);
    lemma_max_active_le_max(rows, code, language);
    lemma_max_version_nonneg(rows, code, language);
    assert(max_active_version(r2, code, language) == t.version);
    assert(t.version >= 1);
    assert(find_latest(r2, code, language) == find_exact(r2, code, language, t.version));
}

/// The rows after `soft_delete(code, version)`: matching rows across every
/// language are marked inactive, nothing else changes.
pub open spec fn deactivate(rows: Seq<TemplateView>, code: Seq<char>, version: int) -> Seq<
    TemplateView,
> {
    Seq::new(
        rows.len(),
        |i: int|
            if rows[i].template_code == code && rows[i].version == version {
                TemplateView { is_active: false, ..rows[i] }
            } else {
                rows[i]
            },
    )
}

/// After `soft_delete(code, version)`, an exact get of that version finds
/// nothing, in any language.
pub proof fn lemma_deactivated_row_hidden(
    rows: Seq<TemplateView>,
    code: Seq<char>,
    language: Seq<char>,
    version: int,
)
    ensures
        find_exact(deactivate(rows, code, version), code, language, version) is None,
{
    let r2 = deactivate(rows, code, version);
    assert forall|i: int| 0 <= i < r2.len() implies !is_exact(#[trigger] r2[i], code, language,
    version) by {
        if rows[i].template_code == code && rows[i].version == version {
            assert(!r2[i].is_active);
        } else {
            assert(r2[i] == rows[i]);
        }
    }
    lemma_find_exact_none(r2, code, language, version);
}

/// The rows of one code, in storage order.
pub open spec fn matching_rows(rows: Seq<TemplateView>, code: Seq<char>) -> Seq<TemplateView>
    decreases rows.len(),
{
    if rows.len() == 0 {
        Seq::empty()
    } else if rows.last().template_code == code {
        matching_rows(rows.drop_last(), code) + seq![rows.last()]
    } else {
        matching_rows(rows.drop_last(), code)
    }
}

/// The listing order: version descending, then language ascending.
pub open spec fn row_before(a: TemplateView, b: TemplateView) -> bool {
    a.version > b.version || (a.version == b.version && (lex_lt(a.language, b.language)
        || a.language == b.language))
}

/// `row_before` is total.
pub proof fn lemma_row_before_total(a: TemplateView, b: TemplateView)
    ensures
        row_before(a, b) || row_before(b, a),
{
    if a.version == b.version && a.language != b.language {
        lemma_lex_lt_total(a.language, b.language);
    }
}

/// `row_before` is transitive.
pub proof fn lemma_row_before_trans(a: TemplateView, b: TemplateView, c: TemplateView)
    requires
        row_before(a, b),
        row_before(b, c),
    ensures
        row_before(a, c),
{
    if a.version == b.version && b.version == c.version {
        if lex_lt(a.language, b.language) && lex_lt(b.language, c.language) {
            crate::text::lemma_lex_lt_trans(a.language, b.language, c.language);
        }
    }
}

/// Whether the vector holds a string with this view.
fn vec_contains_str(v: &Vec<String>, s: &str) -> (b: bool)
    ensures
        b == exists|l: int| 0 <= l < v@.len() && (#[trigger] v@[l])@ == s@,
{
    let mut l: usize = 0;
    while l < v.len()
        invariant
            l <= v.len(),
            forall|q: int| 0 <= q < l ==> (#[trigger] v@[q])@ != s@,
        decreases v.len() - l,
    {
        if str_eq(v[l].as_str(), s) {
            assert(v@[l as int]@ == s@);
            return true;
        }
        l += 1;
    }
    false
}

/// The listing order, decided on the records themselves.
fn row_before_exec(a: &Template, b: &Template) -> (r: bool)
    ensures
        r == row_before(a@, b@),
{
    if a.version > b.version {
        true
    } else if a.version == b.version {
        crate::text::str_cmp(a.language.as_str(), b.language.as_str()) <= 0
    } else {
        false
    }
}

/// The versioned template repository.
pub struct TemplateStore {
    rows: Vec<Template>,
    next_id: u64,
}

impl View for TemplateStore {
    type V = Seq<TemplateView>;

    open spec fn view(&self) -> Seq<TemplateView> {
        self.spec_rows()
    }
}

impl TemplateStore {
    /// The stored rows, as mathematical records.
    pub closed spec fn spec_rows(&self) -> Seq<TemplateView> {
        self.rows@.map_values(|t: Template| t@)
    }

    /// The identifier the next created row will get.
    pub closed spec fn spec_next_id(&self) -> u64 {
        self.next_id
    }

    pub open spec fn wf(&self) -> bool {
        store_inv(self@)
    }

    /// An empty repository.
    pub fn new() -> (r: TemplateStore)
        ensures
            r.wf(),
            r@ == Seq::<TemplateView>::empty(),
            r.spec_next_id() == 0,
    {
        let r = TemplateStore { rows: Vec::new(), next_id: 0 };
        proof {
            assert(r.spec_rows() =~= Seq::empty());
        }
        r
    }

    /// The row identifier the next create will assign.
    pub fn next_id(&self) -> (n: u64)
        ensures
            n == self.spec_next_id(),
    {
        self.next_id
    }

    /// The greatest version ever assigned in `(code, language)`.
    pub fn max_version_for(&self, code: &str, language: &str) -> (v: i32)
        requires
            self.wf(),
        ensures
            v == max_version(self@, code@, language@),
            v >= 0,
    {
        let mut m: i32 = 0;
        let mut i: usize = 0;
        while i < self.rows.len()
            invariant
                i <= self.rows.len(),
                self.wf(),
                m == max_version(self@.take(i as int), code@, language@),
                m >= 0,
            decreases self.rows.len() - i,
        {
            let r = &self.rows[i];
            if str_eq(r.template_code.as_str(), code) && str_eq(r.language.as_str(), language)
                && r.version > m {
                m = r.version;
            }
            proof {
                assert(self@.take(i as int + 1).drop_last() =~= self@.take(i as int));
                assert(self@.take(i as int + 1).last() == self@[i as int]);
                assert(self@[i as int].version >= 1);
            }
            i += 1;
        }
        proof {
            assert(self@.take(self.rows@.len() as int) =~= self@);
        }
        m
    }

    /// Appends a freshly created row: the next version of its pair, active,
    /// stamped with `now`.
    pub fn create(
        &mut self,
        code: &str,
        template_type: &str,
        language: &str,
        content: &str,
        meta: Option<String>,
        now: u64,
    ) -> (t: Template)
        requires
            old(self).wf(),
            max_version(old(self)@, code@, language@) < i32::MAX,
            old(self).spec_next_id() < u64::MAX,
        ensures
            final(self).wf(),
            t@.version == max_version(old(self)@, code@, language@) + 1,
            t@.id == old(self).spec_next_id(),
            t@.template_code == code@,
            t@.template_type == template_type@,
            t@.language == language@,
            t@.content == content@,
            t@.created_by is None,
            t@.created_at == now,
            t@.updated_at is None,
            t@.is_active,
            t@.meta == match meta {
                Some(m) => Some(m@),
                None => None,
            },
            final(self)@ == old(self)@.push(t@),
            final(self).spec_next_id() == old(self).spec_next_id() + 1,
            max_version(final(self)@, code@, language@) == t@.version,
    {
        let version: i32 = self.max_version_for(code, language) + 1;
        let t = Template {
            id: self.next_id,
            template_code: code.to_owned(),
            version,
            template_type: template_type.to_owned(),
            language: language.to_owned(),
            content: content.to_owned(),
            created_by: None,
            created_at: now,
            updated_at: None,
            is_active: true,
            meta,
        };
        let record = t.clone_record();
        let ghost rows0 = self.spec_rows();
        self.rows.push(t);
        self.next_id = self.next_id + 1;
        proof {
            let rows1 = self.spec_rows();
            assert(rows1 =~= rows0.push(record@));
            let m0 = max_version(rows0, code@, language@);
            assert(rows1.drop_last() =~= rows0);
            assert(max_version(rows1, code@, language@) == m0 + 1);
            assert(store_inv(rows1)) by {
                assert forall|i: int| 0 <= i < rows1.len() implies (#[trigger] rows1[i]).version
                    >= 1 by {
                    if i < rows0.len() {
                        assert(rows1[i] == rows0[i]);
                    }
                }
                assert forall|i: int, j: int|
                    0 <= i < j < rows1.len() && row_in_group(#[trigger] rows1[i],
                    rows1[j].template_code, rows1[j].language) implies rows1[i].version
                    != (#[trigger] rows1[j]).version by {
                    if j == rows1.len() - 1 {
                        assert(rows1[i] == rows0[i]);
                        assert(rows1[j] == record@);
                        if row_in_group(rows0[i], code@, language@) {
                            lemma_max_version_bound(rows0, code@, language@, i);
                        }
                    } else {
                        assert(rows1[i] == rows0[i] && rows1[j] == rows0[j]);
                    }
                }
                assert forall|i: int|
                    0 <= i < rows1.len() && (#[trigger] rows1[i]).version > 1 implies exists|
                    j: int,
                |
                    0 <= j < rows1.len() && row_in_group(#[trigger] rows1[j],
                    rows1[i].template_code, rows1[i].language) && rows1[j].version == rows1[i].version
                        - 1 by {
                    if i < rows0.len() {
                        assert(rows1[i] == rows0[i]);
                        let j = choose|j: int|
                            0 <= j < rows0.len() && row_in_group(#[trigger] rows0[j],
                            rows0[i].template_code, rows0[i].language) && rows0[j].version
                                == rows0[i].version - 1;
                        assert(rows1[j] == rows0[j]);
                    } else {
                        assert(rows1[i] == record@);
                        if record@.version > 1 {
                            assert(m0 >= 1);
                            lemma_max_version_attained(rows0, code@, language@);
                            let j = choose|j: int|
                                0 <= j < rows0.len() && row_in_group(#[trigger] rows0[j], code@,
                                language@) && rows0[j].version == m0;
                            assert(rows1[j] == rows0[j]);
                        }
                    }
                }
            }
        }
        record
    }

    /// Fetches the active row with this exact identity.
    pub fn get_exact(&self, code: &str, language: &str, version: i32) -> (r: Option<Template>)
        ensures
            match r {
                Some(t) => find_exact(self@, code@, language@, version as int) == Some(t@),
                None => find_exact(self@, code@, language@, version as int) is None,
            },
    {
        let mut i: usize = 0;
        proof {
            assert(self@.skip(0) =~= self@);
        }
        while i < self.rows.len()
            invariant
                i <= self.rows.len(),
                find_exact(self@, code@, language@, version as int) == find_exact(
                    self@.skip(i as int),
                    code@,
                    language@,
                    version as int,
                ),
            decreases self.rows.len() - i,
        {
            let r = &self.rows[i];
            proof {
                assert(self@.skip(i as int)[0] == self@[i as int]);
                assert(self@.skip(i as int).drop_first() =~= self@.skip(i as int + 1));
            }
            if str_eq(r.template_code.as_str(), code) && str_eq(r.language.as_str(), language)
                && r.version == version && r.is_active {
                return Some(r.clone_record());
            }
            i += 1;
        }
        proof {
            assert(self@.skip(self.rows@.len() as int).len() == 0);
        }
        None
    }

    /// The greatest active version of `(code, language)`; 0 when none.
    pub fn max_active_version_for(&self, code: &str, language: &str) -> (v: i32)
        ensures
            v == max_active_version(self@, code@, language@),
    {
        let mut m: i32 = 0;
        let mut i: usize = 0;
        while i < self.rows.len()
            invariant
                i <= self.rows.len(),
                m == max_active_version(self@.take(i as int), code@, language@),
                m >= 0,
                m <= i32::MAX,
            decreases self.rows.len() - i,
        {
            let r = &self.rows[i];
            if str_eq(r.template_code.as_str(), code) && str_eq(r.language.as_str(), language)
                && r.is_active && r.version > m {
                m = r.version;
            }
            proof {
                assert(self@.take(i as int + 1).drop_last() =~= self@.take(i as int));
                assert(self@.take(i as int + 1).last() == self@[i as int]);
            }
            i += 1;
        }
        proof {
            assert(self@.take(self.rows@.len() as int) =~= self@);
        }
        m
    }

    /// Marks every row of `(code, version)` inactive, across all languages,
    /// and reports the languages of the rows that matched.
    #[verifier::rlimit(100)]
    #[verifier::spinoff_prover]
    pub fn soft_delete(&mut self, code: &str, version: i32) -> (langs: Vec<String>)
        requires
            old(self).wf(),
        ensures
            final(self).wf(),
            final(self)@ == deactivate(old(self)@, code@, version as int),
            final(self).spec_next_id() == old(self).spec_next_id(),
            forall|l: int|
                0 <= l < langs@.len() ==> exists|i: int|
                    0 <= i < old(self)@.len() && (#[trigger] old(self)@[i]).template_code == code@
                        && old(self)@[i].version == version && old(self)@[i].language == (
                    #[trigger] langs@[l])@,
            forall|i: int|
                0 <= i < old(self)@.len() && (#[trigger] old(self)@[i]).template_code == code@
                    && old(self)@[i].version == version ==> exists|l: int|
                    0 <= l < langs@.len() && (#[trigger] langs@[l])@ == old(self)@[i].language,
            (langs@.len() > 0) == (exists|i: int|
                0 <= i < old(self)@.len() && (#[trigger] old(self)@[i]).template_code == code@
                    && old(self)@[i].version == version),
    {
        let ghost rows0 = self.spec_rows();
        let ghost target = deactivate(rows0, code@, version as int);
        let mut langs: Vec<String> = Vec::new();
        let mut i: usize = 0;
        while i < self.rows.len()
            invariant
                i <= self.rows.len(),
                self.rows@.len() == rows0.len(),
                self.spec_next_id() == old(self).spec_next_id(),
                target == deactivate(rows0, code@, version as int),
                forall|k: int| 0 <= k < i ==> self.spec_rows()[k] == target[k],
                forall|k: int| i <= k < rows0.len() ==> self.spec_rows()[k] == rows0[k],
                forall|l: int|
                    0 <= l < langs@.len() ==> exists|k: int|
                        0 <= k < i && (#[trigger] rows0[k]).template_code == code@
                            && rows0[k].version == version && rows0[k].language == (
                        #[trigger] langs@[l])@,
                forall|k: int|
                    0 <= k < i && (#[trigger] rows0[k]).template_code == code@
                        && rows0[k].version == version ==> exists|l: int|
                        0 <= l < langs@.len() && (#[trigger] langs@[l])@ == rows0[k].language,
                (langs@.len() > 0) == (exists|k: int|
                    0 <= k < i && (#[trigger] rows0[k]).template_code == code@
                        && rows0[k].version == version),
            decreases self.rows.len() - i,
        {
            let matches = str_eq(self.rows[i].template_code.as_str(), code)
                && self.rows[i].version == version;
            if matches {
                let mut t = self.rows[i].clone_record();
                t.is_active = false;
                let lang = t.language.clone();
                let ghost rows_before = self.spec_rows();
                self.rows.set(i, t);
                proof {
                    assert forall|k: int| 0 <= k < rows0.len() implies self.spec_rows()[k] == (
                    if k == i {
                        target[i as int]
                    } else {
                        rows_before[k]
                    }) by {
                        if k == i {
                            assert(self.rows@[k] == t);
                        } else {
                            assert(self.rows@[k] == self.rows@.update(i as int, t)[k]);
                        }
                    }
                }
                if !vec_contains_str(&langs, lang.as_str()) {
                    let ghost langs0 = langs@;
                    langs.push(lang);
                    proof {
                        assert forall|l: int| 0 <= l < langs@.len() implies exists|k: int|
                            0 <= k < i + 1 && (#[trigger] rows0[k]).template_code == code@
                                && rows0[k].version == version && rows0[k].language == (
                            #[trigger] langs@[l])@ by {
                            if l < langs0.len() {
                                assert(langs@[l] == langs0[l]);
                                let k = choose|k: int|
                                    0 <= k < i && (#[trigger] rows0[k]).template_code == code@
                                        && rows0[k].version == version && rows0[k].language
                                        == langs0[l]@;
                                assert(rows0[k].language == langs@[l]@);
                            } else {
                                assert(langs@[l]@ == rows0[i as int].language);
                            }
                        }
                        assert forall|k: int|
                            0 <= k < i + 1 && (#[trigger] rows0[k]).template_code == code@
                                && rows0[k].version == version implies exists|l: int|
                            0 <= l < langs@.len() && (#[trigger] langs@[l])@ == rows0[
                                k
                            ].language by {
                            if k < i {
                                let l0 = choose|l0: int|
                                    0 <= l0 < langs0.len() && (#[trigger] langs0[l0])@ == rows0[
                                        k
                                    ].language;
                                assert(langs@[l0] == langs0[l0]);
                                assert(langs@[l0]@ == rows0[k].language);
                            } else {
                                assert(langs@[langs0.len() as int]@ == rows0[i as int].language);
                            }
                        }
                        assert(rows0[i as int].template_code == code@);
                    }
                } else {
                    proof {
                        let l = choose|l: int|
                            0 <= l < langs@.len() && (#[trigger] langs@[l])@ == rows0[
                                i as int
                            ].language;
                        assert(langs@[l]@ == rows0[i as int].language);
                        assert forall|k: int|
                            0 <= k < i + 1 && (#[trigger] rows0[k]).template_code == code@
                                && rows0[k].version == version implies exists|lx: int|
                            0 <= lx < langs@.len() && (#[trigger] langs@[lx])@ == rows0[
                                k
                            ].language by {
                            if k == i {
                                assert(langs@[l]@ == rows0[k].language);
                            }
                        }
                        assert(rows0[i as int].template_code == code@);
                    }
                }
            } else {
                proof {
                    assert(!(rows0[i as int].template_code == code@ && rows0[i as int].version
                        == version));
                }
            }
            i += 1;
        }
        proof {
            assert(self.spec_rows() =~= target);
            assert(store_inv(self.spec_rows())) by {
                let rows1 = self.spec_rows();
                assert forall|k: int| 0 <= k < rows1.len() implies ((#[trigger] rows1[k]).version
                    == rows0[k].version && rows1[k].template_code == rows0[k].template_code
                    && rows1[k].language == rows0[k].language) by {}
                assert forall|k: int|
                    0 <= k < rows1.len() && (#[trigger] rows1[k]).version > 1 implies exists|j: int|
                    0 <= j < rows1.len() && row_in_group(#[trigger] rows1[j],
                    rows1[k].template_code, rows1[k].language) && rows1[j].version == rows1[k].version
                        - 1 by {
                    let j = choose|j: int|
                        0 <= j < rows0.len() && row_in_group(#[trigger] rows0[j],
                        rows0[k].template_code, rows0[k].language) && rows0[j].version == rows0[k].version
                            - 1;
                    assert(row_in_group(rows1[j], rows1[k].template_code, rows1[k].language)
                        && rows1[j].version == rows1[k].version - 1);
                }
            }
        }
        langs
    }

    /// Every row of one code — active and inactive, for version history —
    /// ordered by version descending, then language ascending.
    pub fn list_for_code(&self, code: &str) -> (r: Vec<Template>)
        ensures
            r@.map_values(|t: Template| t@).to_multiset() == matching_rows(
                self@,
                code@,
            ).to_multiset(),
            forall|a: int, b: int| 0 <= a < b < r@.len() ==> row_before(r@[a]@, r@[b]@),
            forall|a: int| 0 <= a < r@.len() ==> (#[trigger] r@[a])@.template_code == code@,
    {
        let mut out: Vec<Template> = Vec::new();
        let mut i: usize = 0;
        proof {
            assert(self@.take(0) =~= Seq::<TemplateView>::empty());
            assert(out@.map_values(|t: Template| t@) =~= Seq::<TemplateView>::empty());
            assert(matching_rows(self@.take(0), code@) == Seq::<TemplateView>::empty());
        }
        while i < self.rows.len()
            invariant
                i <= self.rows.len(),
                out@.map_values(|t: Template| t@).to_multiset() == matching_rows(
                    self@.take(i as int),
                    code@,
                ).to_multiset(),
                forall|a: int, b: int| 0 <= a < b < out@.len() ==> row_before(out@[a]@, out@[b]@),
                forall|a: int| 0 <= a < out@.len() ==> (#[trigger] out@[a])@.template_code == code@,
            decreases self.rows.len() - i,
        {
            let ghost tprev = self@.take(i as int);
            let is_match = str_eq(self.rows[i].template_code.as_str(), code);
            if is_match {
                let x = self.rows[i].clone_record();
                let mut p: usize = 0;
                while p < out.len() && row_before_exec(&out[p], &x)
                    invariant
                        p <= out.len(),
                        i < self.rows@.len(),
                        x@ == self@[i as int],
                        forall|q: int| 0 <= q < p ==> row_before(out@[q]@, x@),
                    decreases out.len() - p,
                {
                    p += 1;
                }
                let ghost out0 = out@;
                proof {
                    if p < out0.len() {
                        assert(!row_before(out0[p as int]@, x@));
                        lemma_row_before_total(out0[p as int]@, x@);
                        assert(row_before(x@, out0[p as int]@));
                    }
                }
                out.insert(p, x);
                proof {
                    let outv0 = out0.map_values(|t: Template| t@);
                    let outv1 = out@.map_values(|t: Template| t@);
                    assert(out@ =~= out0.insert(p as int, x));
                    assert(outv1 =~= outv0.insert(p as int, x@));
                    vstd::seq_lib::to_multiset_insert(outv0, p as int, x@);
                    assert forall|a: int, b: int| 0 <= a < b < out@.len() implies row_before(
                        out@[a]@,
                        out@[b]@,
                    ) by {
                        let pi = p as int;
                        if a < pi && b == pi {
                        } else if a == pi && b > pi {
                            assert(out@[b] == out0[b - 1]);
                            assert(pi <= b - 1 < out0.len());
                            if b - 1 == pi {
                                assert(row_before(x@, out0[pi]@));
                            } else {
                                assert(row_before(out0[pi]@, out0[b - 1]@));
                                lemma_row_before_trans(x@, out0[pi]@, out0[b - 1]@);
                            }
                        } else if a < pi && b > pi {
                            assert(out@[a] == out0[a] && out@[b] == out0[b - 1]);
                            if b - 1 == a {
                                assert(false);
                            } else {
                                assert(row_before(out0[a]@, out0[b - 1]@));
                            }
                        } else if a > pi {
                            assert(out@[a] == out0[a - 1] && out@[b] == out0[b - 1]);
                            assert(row_before(out0[a - 1]@, out0[b - 1]@));
                        } else {
                            assert(out@[a] == out0[a] && out@[b] == out0[b]);
                        }
                    }
                }
            }
            proof {
                let tnext = self@.take(i as int + 1);
                assert(tnext.drop_last() =~= tprev);
                assert(tnext.last() == self@[i as int]);
                if is_match {
                    assert(matching_rows(tnext, code@) == matching_rows(tprev, code@) + seq![
                        self@[i as int],
                    ]);
                    assert(matching_rows(tprev, code@) + seq![self@[i as int]]
                        =~= matching_rows(tprev, code@).push(self@[i as int]));
                    vstd::seq_lib::to_multiset_build(matching_rows(tprev, code@), self@[i as int]);
                } else {
                    assert(matching_rows(tnext, code@) == matching_rows(tprev, code@));
                }
            }
            i += 1;
        }
        proof {
            assert(self@.take(self.rows@.len() as int) =~= self@);
        }
        out
    }

    /// Fetches the row "latest" resolves to for `(code, language)`.
    pub fn get_latest(&self, code: &str, language: &str) -> (r: Option<Template>)
        ensures
            match r {
                Some(t) => find_latest(self@, code@, language@) == Some(t@),
                None => find_latest(self@, code@, language@) is None,
            },
    {
        let m = self.max_active_version_for(code, language);
        if m < 1 {
            None
        } else {
            self.get_exact(code, language, m)
        }
    }
}

} // verus!
