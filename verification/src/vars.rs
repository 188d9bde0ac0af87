//! The variable mapping a render request carries.
//!
//! Entries are kept strictly sorted by key, so a mapping has exactly one
//! representation: two mappings that hold the same pairs — whatever order
//! they were inserted in — are equal, serialize to the same canonical text,
//! and therefore fingerprint identically.

use vstd::prelude::*;
use crate::assoc::{lemma_pairs_to_map_index, lemma_pairs_to_map_dom, lemma_pairs_to_map_insert_at,
    lemma_pairs_to_map_remove, lemma_pairs_to_map_update, pairs_to_map, unique_keys};
use crate::text::{i64_to_string, int_str, json_escape, json_escape_str, lemma_lex_lt_asymm,
    lemma_lex_lt_total, lemma_lex_lt_trans, lex_lt, str_cmp, str_eq};

verus! {

/// A value a template variable can take.
#[derive(Debug, Clone, PartialEq, Eq)]
pub enum VarValue {
    Str(String),
    Int(i64),
    Bool(bool),
}

/// The mathematical value of a `VarValue`.
pub ghost enum VarValueView {
    Str(Seq<char>),
    Int(int),
    Bool(bool),
}

impl View for VarValue {
    type V = VarValueView;

    open spec fn view(&self) -> VarValueView {
        match self {
            VarValue::Str(s) => VarValueView::Str(s@),
            VarValue::Int(n) => VarValueView::Int(*n as int),
            VarValue::Bool(b) => VarValueView::Bool(*b),
        }
    }
}

/// The text a value interpolates as, before any escaping.
pub open spec fn value_display(v: VarValueView) -> Seq<char> {
    match v {
        VarValueView::Str(s) => s,
        VarValueView::Int(n) => int_str(n),
        VarValueView::Bool(b) => if b {
            "true"@
        } else {
            "false"@
        },
    }
}

/// The canonical JSON fragment for a value.
pub open spec fn value_canon(v: VarValueView) -> Seq<char> {
    match v {
        VarValueView::Str(s) => seq!['"'] + json_escape(s) + seq!['"'],
        VarValueView::Int(n) => int_str(n),
        VarValueView::Bool(b) => if b {
            "true"@
        } else {
            "false"@
        },
    }
}

/// The canonical JSON fragment for one key-value pair.
pub open spec fn entry_canon(p: (Seq<char>, VarValueView)) -> Seq<char> {
    seq!['"'] + json_escape(p.0) + seq!['"', ':'] + value_canon(p.1)
}

/// The comma-separated canonical body for a sequence of pairs.
pub open spec fn entries_canon(s: Seq<(Seq<char>, VarValueView)>) -> Seq<char>
    decreases s.len(),
{
    if s.len() == 0 {
        Seq::empty()
    } else if s.len() == 1 {
        entry_canon(s[0])
    } else {
        entries_canon(s.drop_last()) + seq![','] + entry_canon(s.last())
    }
}

/// The canonical serialization of a mapping with the given sorted entries.
pub open spec fn map_canon(s: Seq<(Seq<char>, VarValueView)>) -> Seq<char> {
    seq!['{'] + entries_canon(s) + seq!['}']
}

/// Keys strictly ascending in `lex_lt`.
pub open spec fn entries_sorted(s: Seq<(Seq<char>, VarValueView)>) -> bool {
    forall|i: int, j: int| 0 <= i < j < s.len() ==> lex_lt(s[i].0, s[j].0)
}

/// A variable mapping with a canonical internal order.
#[derive(Debug, Clone, PartialEq, Eq)]
pub struct VarMap {
    entries: Vec<(String, VarValue)>,
}

impl View for VarMap {
    type V = Map<Seq<char>, VarValueView>;

    open spec fn view(&self) -> Map<Seq<char>, VarValueView> {
        pairs_to_map(self.entry_views())
    }
}

impl VarMap {
    /// The entries as mathematical pairs, in storage order.
    pub closed spec fn entry_views(&self) -> Seq<(Seq<char>, VarValueView)> {
        self.entries@.map_values(|p: (String, VarValue)| (p.0@, p.1@))
    }

    /// Entries are strictly sorted by key.
    pub open spec fn wf(&self) -> bool {
        entries_sorted(self.entry_views())
    }

    /// Sorted entries have pairwise distinct keys.
    pub proof fn lemma_wf_unique(&self)
        requires
            self.wf(),
        ensures
            unique_keys(self.entry_views()),
    {
        let e = self.entry_views();
        assert forall|i: int, j: int| 0 <= i < j < e.len() implies e[i].0 != e[j].0 by {
            lemma_lex_lt_asymm(e[i].0, e[j].0);
        }
    }

    /// The empty mapping.
    pub fn new() -> (r: VarMap)
        ensures
            r.wf(),
            r@ == Map::<Seq<char>, VarValueView>::empty(),
    {
        let r = VarMap { entries: Vec::new() };
        proof {
            assert(r.entry_views() =~= Seq::empty());
        }
        r
    }

    /// How many variables the mapping holds.
    pub fn len(&self) -> (n: usize)
        ensures
            n == self.entry_views().len(),
    {
        self.entries.len()
    }

    /// Binds `key` to `value`, replacing any earlier binding.
    pub fn insert(&mut self, key: String, value: VarValue)
        requires
            old(self).wf(),
        ensures
            final(self).wf(),
            final(self)@ == old(self)@.insert(key@, value@),
    {
        let ghost e0 = self.entry_views();
        let mut i: usize = 0;
        while i < self.entries.len() && str_cmp(self.entries[i].0.as_str(), key.as_str()) < 0
            invariant
                self == old(self),
                i <= self.entries.len(),
                forall|j: int| 0 <= j < i ==> lex_lt(self.entry_views()[j].0, key@),
            decreases self.entries.len() - i,
        {
            i += 1;
        }
        proof {
            self.lemma_wf_unique();
        }
        if i < self.entries.len() && str_eq(self.entries[i].0.as_str(), key.as_str()) {
            let ghost kv = self.entry_views()[i as int].0;
            self.entries.set(i, (key, value));
            proof {
                assert(self.entry_views() =~= e0.update(i as int, (kv, value@)));
                lemma_pairs_to_map_update(e0, i as int, value@);
                assert(entries_sorted(self.entry_views())) by {
                    assert forall|a: int, b: int|
                        0 <= a < b < self.entry_views().len() implies lex_lt(
                        self.entry_views()[a].0,
                        self.entry_views()[b].0,
                    ) by {
                        assert(self.entry_views()[a].0 == e0[a].0);
                        assert(self.entry_views()[b].0 == e0[b].0);
                    }
                }
                assert(final(self)@ == old(self)@.insert(key@, value@));
            }
        } else {
            proof {
                if i < e0.len() {
                    assert(!lex_lt(e0[i as int].0, key@));
                    assert(e0[i as int].0 != key@);
                    lemma_lex_lt_total(e0[i as int].0, key@);
                    assert(lex_lt(key@, e0[i as int].0));
                }
                assert forall|j: int| 0 <= j < e0.len() implies e0[j].0 != key@ by {
                    if j < i {
                        lemma_lex_lt_asymm(e0[j].0, key@);
                    } else if j == i {
                    } else {
                        assert(lex_lt(e0[i as int].0, e0[j].0));
                        lemma_lex_lt_trans(key@, e0[i as int].0, e0[j].0);
                        lemma_lex_lt_asymm(key@, e0[j].0);
                    }
                }
            }
            self.entries.insert(i, (key, value));
            proof {
                let ia = i as int;
                assert(self.entry_views() =~= e0.insert(ia, (key@, value@)));
                lemma_pairs_to_map_insert_at(e0, ia, key@, value@);
                let e1 = self.entry_views();
                assert forall|j: int| ia <= j < e0.len() implies lex_lt(key@, e0[j].0) by {
                    if j > ia {
                        assert(lex_lt(e0[ia].0, e0[j].0));
                        lemma_lex_lt_trans(key@, e0[ia].0, e0[j].0);
                    }
                }
                assert(entries_sorted(e1)) by {
                    assert forall|a: int, b: int| 0 <= a < b < e1.len() implies lex_lt(
                        e1[a].0,
                        e1[b].0,
                    ) by {
                        if a < ia {
                            assert(e1[a].0 == e0[a].0);
                            if b < ia {
                                assert(e1[b].0 == e0[b].0);
                            } else if b == ia {
                                assert(e1[b].0 == key@);
                            } else {
                                assert(e1[b].0 == e0[b - 1].0);
                                assert(b - 1 >= ia > a);
                                assert(lex_lt(e0[a].0, e0[b - 1].0));
                            }
                        } else if a == ia {
                            assert(e1[a].0 == key@);
                            assert(e1[b].0 == e0[b - 1].0);
                            assert(ia <= b - 1 < e0.len());
                        } else {
                            assert(e1[a].0 == e0[a - 1].0);
                            assert(e1[b].0 == e0[b - 1].0);
                            assert(lex_lt(e0[a - 1].0, e0[b - 1].0));
                        }
                    }
                }
                assert(final(self)@ == old(self)@.insert(key@, value@));
            }
        }
    }

    /// Looks a variable up by name.
    pub fn get(&self, key: &str) -> (r: Option<&VarValue>)
        requires
            self.wf(),
        ensures
            match r {
                Some(v) => self@.contains_key(key@) && v@ == self@[key@],
                None => !self@.contains_key(key@),
            },
    {
        proof {
            self.lemma_wf_unique();
            lemma_pairs_to_map_dom(self.entry_views());
        }
        let mut i: usize = 0;
        while i < self.entries.len()
            invariant
                i <= self.entries.len(),
                self.wf(),
                unique_keys(self.entry_views()),
                forall|j: int| 0 <= j < i ==> self.entry_views()[j].0 != key@,
            decreases self.entries.len() - i,
        {
            if str_eq(self.entries[i].0.as_str(), key) {
                proof {
                    lemma_pairs_to_map_index(self.entry_views(), i as int);
                }
                return Some(&self.entries[i].1);
            }
            i += 1;
        }
        proof {
            lemma_pairs_to_map_dom(self.entry_views());
        }
        None
    }
}

impl VarMap {
    /// The canonical serialization: keys in sorted order, JSON syntax.
    pub fn canonical_string(&self) -> (r: String)
        ensures
            r@ == map_canon(self.entry_views()),
    {
        proof {
            reveal_strlit("{");
            reveal_strlit("}");
            reveal_strlit(",");
            reveal_strlit("\"");
            reveal_strlit("\":");
            reveal_strlit("true");
            reveal_strlit("false");
            assert("{"@ =~= seq!['{']);
            assert("}"@ =~= seq!['}']);
            assert(","@ =~= seq![',']);
            assert("\""@ =~= seq!['"']);
            assert("\":"@ =~= seq!['"', ':']);
        }
        let ghost e = self.entry_views();
        let mut out = "{".to_owned();
        let mut i: usize = 0;
        while i < self.entries.len()
            invariant
                i <= self.entries.len(),
                e == self.entry_views(),
                out@ == seq!['{'] + entries_canon(e.take(i as int)),
            decreases self.entries.len() - i,
        {
            proof {
                reveal_strlit("{");
                reveal_strlit("}");
                reveal_strlit(",");
                reveal_strlit("\"");
                reveal_strlit("\":");
                reveal_strlit("true");
                reveal_strlit("false");
                assert("{"@ =~= seq!['{']);
                assert("}"@ =~= seq!['}']);
                assert(","@ =~= seq![',']);
                assert("\""@ =~= seq!['"']);
                assert("\":"@ =~= seq!['"', ':']);
            }
            let ghost sep: Seq<char> = if i == 0 {
                Seq::empty()
            } else {
                seq![',']
            };
            let ghost t0 = e.take(i as int);
            let ghost p = e[i as int];
            if i > 0 {
                out.append(",");
            }
            proof {
                assert(out@ =~= seq!['{'] + entries_canon(t0) + sep);
            }
            out.append("\"");
            proof {
                assert(out@ =~= seq!['{'] + entries_canon(t0) + sep + seq!['"']);
            }
            let ek = json_escape_str(self.entries[i].0.as_str());
            proof {
                assert(ek@ == json_escape(p.0));
            }
            out.append(ek.as_str());
            out.append("\":");
            let ghost head = seq!['{'] + entries_canon(t0) + sep + seq!['"'] + json_escape(p.0)
                + seq!['"', ':'];
            proof {
                assert(p == (self.entries@[i as int].0@, self.entries@[i as int].1@));
                assert(out@ =~= head);
            }
            match &self.entries[i].1 {
                VarValue::Str(s) => {
                    out.append("\"");
                    let es = json_escape_str(s.as_str());
                    out.append(es.as_str());
                    out.append("\"");
                    proof {
                        assert(value_canon(p.1) == seq!['"'] + json_escape(s@) + seq!['"']);
                        assert(out@ =~= head + value_canon(p.1));
                    }
                },
                VarValue::Int(n) => {
                    let ns = i64_to_string(*n);
                    out.append(ns.as_str());
                    proof {
                        assert(out@ =~= head + value_canon(p.1));
                    }
                },
                VarValue::Bool(b) => {
                    if *b {
                        out.append("true");
                    } else {
                        out.append("false");
                    }
                    proof {
                        assert(out@ =~= head + value_canon(p.1));
                    }
                },
            }
            proof {
                let t1 = e.take(i as int + 1);
                assert(t1.drop_last() =~= t0);
                assert(t1.last() == p);
                assert(out@ =~= seq!['{'] + entries_canon(t0) + sep + entry_canon(p));
                if i == 0 {
                    assert(t1.len() == 1);
                    assert(t1[0] == p);
                    assert(entries_canon(t1) == entry_canon(p));
                    assert(entries_canon(t0) == Seq::<char>::empty());
                } else {
                    assert(entries_canon(t1) == entries_canon(t0) + seq![','] + entry_canon(p));
                }
                assert(out@ =~= seq!['{'] + entries_canon(t1));
            }
            i += 1;
        }
        out.append("}");
        proof {
            assert(e.take(self.entries@.len() as int) =~= e);
            assert(out@ =~= map_canon(e));
        }
        out
    }
}

/// Two sorted entry sequences that denote the same map are equal: the sorted
/// representation is canonical.
pub proof fn lemma_sorted_entries_canonical(
    e1: Seq<(Seq<char>, VarValueView)>,
    e2: Seq<(Seq<char>, VarValueView)>,
)
    requires
        entries_sorted(e1),
        entries_sorted(e2),
        unique_keys(e1),
        unique_keys(e2),
        pairs_to_map(e1) == pairs_to_map(e2),
    ensures
        e1 == e2,
    decreases e1.len(),
{
    lemma_pairs_to_map_dom(e1);
    lemma_pairs_to_map_dom(e2);
    if e1.len() == 0 {
        if e2.len() > 0 {
            assert(pairs_to_map(e2).dom().contains(e2[0].0));
        }
        assert(e2 =~= e1);
    } else {
        if e2.len() == 0 {
            assert(pairs_to_map(e1).dom().contains(e1[0].0));
            assert(false);
        }
        let k1 = e1.last().0;
        let k2 = e2.last().0;
        // The last key of a sorted sequence is its maximum; equal domains
        // force the maxima to agree.
        assert(pairs_to_map(e1).dom().contains(k2)) by {
            assert(e2[e2.len() - 1].0 == k2);
        }
        assert(pairs_to_map(e2).dom().contains(k1)) by {
            assert(e1[e1.len() - 1].0 == k1);
        }
        if k1 != k2 {
            let i1 = choose|i: int| 0 <= i < e1.len() && e1[i].0 == k2;
            assert(i1 < e1.len() - 1);
            assert(lex_lt(k2, k1));
            let i2 = choose|i: int| 0 <= i < e2.len() && e2[i].0 == k1;
            assert(i2 < e2.len() - 1);
            assert(lex_lt(k1, k2));
            lemma_lex_lt_asymm(k1, k2);
            assert(false);
        }
        lemma_pairs_to_map_index(e1, e1.len() - 1);
        lemma_pairs_to_map_index(e2, e2.len() - 1);
        assert(e1.last().1 == e2.last().1);
        lemma_pairs_to_map_remove(e1, e1.len() - 1);
        lemma_pairs_to_map_remove(e2, e2.len() - 1);
        assert(e1.remove(e1.len() - 1) =~= e1.drop_last());
        assert(e2.remove(e2.len() - 1) =~= e2.drop_last());
        assert(entries_sorted(e1.drop_last()));
        assert(entries_sorted(e2.drop_last()));
        assert(pairs_to_map(e1.drop_last()) == pairs_to_map(e2.drop_last()));
        lemma_sorted_entries_canonical(e1.drop_last(), e2.drop_last());
        assert(e1.len() == e2.len()) by {
            assert(e1.drop_last().len() == e1.len() - 1);
            assert(e2.drop_last().len() == e2.len() - 1);
        }
        assert forall|j: int| 0 <= j < e1.len() implies e1[j] == e2[j] by {
            if j < e1.len() - 1 {
                assert(e1[j] == e1.drop_last()[j]);
                assert(e2[j] == e2.drop_last()[j]);
            } else {
                assert(e1[j] == e1.last());
                assert(e2[j] == e2.last());
                assert(e1.last().0 == e2.last().0);
            }
        }
        assert(e1 =~= e2);
    }
}

/// Structurally identical mappings serialize to the same canonical text,
/// whatever order their entries were inserted in.
pub proof fn lemma_canonical_text_deterministic(v1: VarMap, v2: VarMap)
    requires
        v1.wf(),
        v2.wf(),
        v1@ == v2@,
    ensures
        map_canon(v1.entry_views()) == map_canon(v2.entry_views()),
{
    v1.lemma_wf_unique();
    v2.lemma_wf_unique();
    lemma_sorted_entries_canonical(v1.entry_views(), v2.entry_views());
}

} // verus!
