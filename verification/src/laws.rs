//! The library's general laws, stated over the same models its contracts
//! use and proved once and for all: how folded merges treat each leaf
//! field, what the missing-property report may contain, and when
//! finalization tells two mirrors apart.

use vstd::prelude::*;

use crate::finish::spec_finalize;
use crate::finish::spec_finalize_entry;
use crate::finish::lemma_spec_finalize;
use crate::finish::spec_missing;
use crate::finish::spec_missing_field;
use crate::finish::spec_prefixed;
use crate::finish::lemma_missing_zero;
use crate::merge::spec_merge;
use crate::merge::spec_merge_entry;
use crate::merge::lemma_merge_entries_index;
use crate::merge::lemma_merge_wf;
use crate::mirror::SpecEntry;
use crate::mirror::SpecMirror;
use crate::mirror::spec_empty_entry;
use crate::mirror::spec_empty_mirror;
use crate::mirror::spec_mirror_empty;
use crate::mirror::lemma_spec_empty_mirror;
use crate::mirror::wf_entry;
use crate::mirror::wf_mirror;
use crate::shape::SpecField;
use crate::shape::SpecFieldKind;
use crate::shape::SpecShape;
use crate::shape::wf_field;
use crate::shape::wf_shape;

verus! {

/// A path through a shape to one leaf field, as field indices: each step
/// but the last descends into a nested field, and the last names a leaf.
pub open spec fn valid_leaf_path(s: SpecShape, p: Seq<int>) -> bool
    decreases p.len(),
{
    &&& p.len() > 0
    &&& 0 <= p[0] < s.fields.len()
    &&& match s.fields[p[0]].kind {
        SpecFieldKind::Leaf(_) => p.len() == 1,
        SpecFieldKind::Nested(sub) => p.len() > 1 && valid_leaf_path(sub, p.drop_first()),
    }
}

/// A leaf path whose final leaf field is required (not optional).
pub open spec fn valid_required_leaf_path(s: SpecShape, p: Seq<int>) -> bool
    decreases p.len(),
{
    &&& p.len() > 0
    &&& 0 <= p[0] < s.fields.len()
    &&& match s.fields[p[0]].kind {
        SpecFieldKind::Leaf(_) => p.len() == 1 && !s.fields[p[0]].optional,
        SpecFieldKind::Nested(sub) => p.len() > 1 && valid_required_leaf_path(sub, p.drop_first()),
    }
}

/// The entry a mirror holds at a leaf path. Descending past an absent
/// nested field, or out of range, yields absence.
pub open spec fn leaf_at(m: SpecMirror, p: Seq<int>) -> SpecEntry
    decreases p.len(),
{
    if p.len() == 0 || !(0 <= p[0] < m.entries.len()) {
        SpecEntry::Absent
    } else if p.len() == 1 {
        m.entries[p[0]]
    } else {
        match m.entries[p[0]] {
            SpecEntry::Nested(mm) => leaf_at(mm, p.drop_first()),
            _ => SpecEntry::Absent,
        }
    }
}

/// At a valid leaf path of a well-formed mirror the entry is a present
/// leaf value or absent, never a nested mirror.
proof fn lemma_leaf_at_wf(s: SpecShape, m: SpecMirror, p: Seq<int>)
    requires
        wf_mirror(m, s),
        valid_leaf_path(s, p),
    ensures
        leaf_at(m, p) is Leaf || leaf_at(m, p) is Absent,
    decreases p.len(),
{
    let i = p[0];
    assert(wf_entry(m.entries[i], s.fields[i]));
    match s.fields[i].kind {
        SpecFieldKind::Leaf(_) => {},
        SpecFieldKind::Nested(sub) => {
            match m.entries[i] {
                SpecEntry::Nested(mm) => {
                    lemma_leaf_at_wf(sub, mm, p.drop_first());
                },
                _ => {},
            }
        },
    }
}

/// A required-leaf path is in particular a leaf path.
proof fn lemma_required_path_is_leaf_path(s: SpecShape, p: Seq<int>)
    requires
        valid_required_leaf_path(s, p),
    ensures
        valid_leaf_path(s, p),
    decreases p.len(),
{
    match s.fields[p[0]].kind {
        SpecFieldKind::Leaf(_) => {},
        SpecFieldKind::Nested(sub) => {
            lemma_required_path_is_leaf_path(sub, p.drop_first());
        },
    }
}

/// The all-absent mirror holds absence at every leaf path.
proof fn lemma_leaf_at_empty(s: SpecShape, p: Seq<int>)
    requires
        valid_leaf_path(s, p),
    ensures
        leaf_at(spec_empty_mirror(s), p) is Absent,
    decreases p.len(),
{
    lemma_spec_empty_mirror(s);
    let i = p[0];
    match s.fields[i].kind {
        SpecFieldKind::Leaf(_) => {},
        SpecFieldKind::Nested(sub) => {
            if !s.fields[i].optional {
                lemma_leaf_at_empty(sub, p.drop_first());
            }
        },
    }
}

/// Two complete mirrors of one shape that finalize to the same strict
/// configuration agree at every required leaf field; so two complete
/// mirrors that differ in any required field produce different finalized
/// configurations.
pub proof fn lemma_finalize_injective(s: SpecShape, m1: SpecMirror, m2: SpecMirror)
    requires
        wf_shape(s),
        wf_mirror(m1, s),
        wf_mirror(m2, s),
        spec_missing(s, m1).len() == 0,
        spec_missing(s, m2).len() == 0,
        spec_finalize(s, m1) == spec_finalize(s, m2),
    ensures
        forall|p: Seq<int>|
            #[trigger] valid_required_leaf_path(s, p) ==> leaf_at(m1, p) == leaf_at(m2, p),
    decreases s,
{
    lemma_spec_finalize(s, m1);
    lemma_spec_finalize(s, m2);
    lemma_missing_zero(s, m1, s.fields.len() as int);
    lemma_missing_zero(s, m2, s.fields.len() as int);
    assert forall|p: Seq<int>| #[trigger] valid_required_leaf_path(s, p) implies leaf_at(m1, p)
        == leaf_at(m2, p) by {
        let i = p[0];
        let f = s.fields[i];
        assert(wf_field(f));
        assert(wf_entry(m1.entries[i], f));
        assert(wf_entry(m2.entries[i], f));
        assert(spec_finalize_entry(f, m1.entries[i]) == spec_finalize_entry(f, m2.entries[i]));
        assert(spec_missing_field(f, m1.entries[i]).len() == 0);
        assert(spec_missing_field(f, m2.entries[i]).len() == 0);
        match f.kind {
            SpecFieldKind::Leaf(_) => {
                if f.optional {
                    assert(leaf_at(m1, p) == m1.entries[i]);
                    assert(leaf_at(m2, p) == m2.entries[i]);
                    lemma_finalize_optional_leaf(f, m1.entries[i], m2.entries[i]);
                } else {
                    assert(m1.entries[i] is Leaf);
                    assert(m2.entries[i] is Leaf);
                    assert(m1.entries[i]->Leaf_0 == m2.entries[i]->Leaf_0);
                }
            },
            SpecFieldKind::Nested(sub) => {
                let rest = p.drop_first();
                match (m1.entries[i], m2.entries[i]) {
                    (SpecEntry::Nested(a), SpecEntry::Nested(b)) => {
                        lemma_required_path_is_leaf_path(sub, rest);
                        if f.optional && spec_mirror_empty(a) {
                            assert(leaf_at(m1, p) is Absent) by {
                                lemma_leaf_at_all_absent(sub, a, rest);
                            }
                            if spec_mirror_empty(b) {
                                assert(leaf_at(m2, p) is Absent) by {
                                    lemma_leaf_at_all_absent(sub, b, rest);
                                }
                            } else {
                                assert(spec_finalize_entry(f, m2.entries[i])
                                    ->OptionalNested_0 is Some);
                                assert(false);
                            }
                        } else if f.optional && spec_mirror_empty(b) {
                            assert(spec_finalize_entry(f, m1.entries[i])
                                ->OptionalNested_0 is Some);
                            assert(false);
                        } else {
                            assert(spec_prefixed(f.name, spec_missing(sub, a)).len() == 0);
                            assert(spec_prefixed(f.name, spec_missing(sub, b)).len() == 0);
                            assert(spec_finalize(s, m1) == spec_finalize(s, m2));
                            if f.optional {
                                assert(spec_finalize(sub, a) == spec_finalize(sub, b));
                            } else {
                                assert(spec_finalize(sub, a) == spec_finalize(sub, b));
                            }
                            lemma_finalize_injective(sub, a, b);
                            assert(valid_required_leaf_path(sub, rest));
                        }
                    },
                    (SpecEntry::Absent, SpecEntry::Nested(b)) => {
                        lemma_required_path_is_leaf_path(sub, rest);
                        assert(f.optional);
                        assert(spec_finalize_entry(f, m1.entries[i])->OptionalNested_0 is None);
                        if spec_mirror_empty(b) {
                            lemma_leaf_at_all_absent(sub, b, rest);
                        } else {
                            assert(spec_finalize_entry(f, m2.entries[i])
                                ->OptionalNested_0 is Some);
                            assert(false);
                        }
                    },
                    (SpecEntry::Nested(a), SpecEntry::Absent) => {
                        lemma_required_path_is_leaf_path(sub, rest);
                        assert(f.optional);
                        assert(spec_finalize_entry(f, m2.entries[i])->OptionalNested_0 is None);
                        if spec_mirror_empty(a) {
                            lemma_leaf_at_all_absent(sub, a, rest);
                        } else {
                            assert(spec_finalize_entry(f, m1.entries[i])
                                ->OptionalNested_0 is Some);
                            assert(false);
                        }
                    },
                    _ => {},
                }
            },
        }
    }
}

/// Equal finalized values of one optional leaf field come from entries
/// equal at that field.
proof fn lemma_finalize_optional_leaf(f: SpecField, a: SpecEntry, b: SpecEntry)
    requires
        f.kind is Leaf,
        f.optional,
        wf_entry(a, f),
        wf_entry(b, f),
        spec_finalize_entry(f, a) == spec_finalize_entry(f, b),
    ensures
        a == b,
{
}

/// Every field of the shape, recursively, uses the default replace merge
/// policy.
pub open spec fn all_replace(s: SpecShape) -> bool
    decreases s,
{
    forall|i: int|
        0 <= i < s.fields.len() ==> ((#[trigger] s.fields[i]).merge is Replace && (
        s.fields[i].kind matches SpecFieldKind::Nested(sub) ==> all_replace(sub)))
}

/// Under the default replace policy everywhere, merging never fails.
proof fn lemma_merge_replace_ok(s: SpecShape, a: SpecMirror, b: SpecMirror)
    requires
        wf_shape(s),
        all_replace(s),
        wf_mirror(a, s),
        wf_mirror(b, s),
    ensures
        spec_merge(s, a, b) is Ok,
    decreases s, s.fields.len() as int + 1,
{
    lemma_merge_replace_ok_upto(s, a, b, s.fields.len() as int);
}

proof fn lemma_merge_replace_ok_upto(s: SpecShape, a: SpecMirror, b: SpecMirror, n: int)
    requires
        wf_shape(s),
        all_replace(s),
        wf_mirror(a, s),
        wf_mirror(b, s),
        0 <= n <= s.fields.len(),
    ensures
        crate::merge::spec_merge_entries(s, a, b, n) is Ok,
    decreases s, n,
{
    if n > 0 {
        lemma_merge_replace_ok_upto(s, a, b, n - 1);
        let f = s.fields[n - 1];
        assert(wf_field(f));
        assert(wf_entry(a.entries[n - 1], f));
        assert(wf_entry(b.entries[n - 1], f));
        match f.kind {
            SpecFieldKind::Leaf(_) => {
                assert(spec_merge_entry(f, a.entries[n - 1], b.entries[n - 1]) is Ok);
            },
            SpecFieldKind::Nested(sub) => {
                match (a.entries[n - 1], b.entries[n - 1]) {
                    (SpecEntry::Nested(ma), SpecEntry::Nested(mb)) => {
                        lemma_merge_replace_ok(sub, ma, mb);
                    },
                    _ => {},
                }
                assert(spec_merge_entry(f, a.entries[n - 1], b.entries[n - 1]) is Ok);
            },
        }
    }
}

/// After one merge under the default replace policy, each leaf field holds
/// the incoming value where that is present, and the current one
/// otherwise, independent of every other field.
pub proof fn lemma_merge_leaf_override(s: SpecShape, a: SpecMirror, b: SpecMirror, p: Seq<int>)
    requires
        wf_shape(s),
        all_replace(s),
        wf_mirror(a, s),
        wf_mirror(b, s),
        valid_leaf_path(s, p),
    ensures
        spec_merge(s, a, b) matches Ok(mm) && leaf_at(mm, p) == (if leaf_at(b, p) is Leaf {
            leaf_at(b, p)
        } else {
            leaf_at(a, p)
        }),
    decreases p.len(),
{
    lemma_merge_replace_ok(s, a, b);
    lemma_merge_entries_index(s, a, b, s.fields.len() as int);
    let mm = spec_merge(s, a, b)->Ok_0;
    let i = p[0];
    let f = s.fields[i];
    assert(wf_field(f));
    assert(wf_entry(a.entries[i], f));
    assert(wf_entry(b.entries[i], f));
    assert(f.merge is Replace && (f.kind matches SpecFieldKind::Nested(sub) ==> all_replace(sub)));
    assert(spec_merge_entry(f, a.entries[i], b.entries[i]) matches Ok(e) && mm.entries[i] == e);
    match f.kind {
        SpecFieldKind::Leaf(_) => {},
        SpecFieldKind::Nested(sub) => {
            let rest = p.drop_first();
            match (a.entries[i], b.entries[i]) {
                (SpecEntry::Nested(ma), SpecEntry::Nested(mb)) => {
                    lemma_merge_leaf_override(sub, ma, mb, rest);
                },
                (SpecEntry::Absent, SpecEntry::Nested(mb)) => {
                    lemma_leaf_at_wf(sub, mb, rest);
                },
                _ => {},
            }
        },
    }
}

/// What folding a sequence of mirrors into the empty mirror yields: each
/// source merged in order, left to right.
pub open spec fn fold_merge(s: SpecShape, ps: Seq<SpecMirror>) -> Result<SpecMirror, Seq<char>>
    decreases ps.len(),
{
    if ps.len() == 0 {
        Ok(spec_empty_mirror(s))
    } else {
        match fold_merge(s, ps.drop_last()) {
            Err(e) => Err(e),
            Ok(acc) => spec_merge(s, acc, ps.last()),
        }
    }
}

/// The last present value a sequence of mirrors holds at a leaf path, or
/// absence if none of them holds one.
pub open spec fn spec_last_set(ps: Seq<SpecMirror>, p: Seq<int>) -> SpecEntry
    decreases ps.len(),
{
    if ps.len() == 0 {
        SpecEntry::Absent
    } else if leaf_at(ps.last(), p) is Leaf {
        leaf_at(ps.last(), p)
    } else {
        spec_last_set(ps.drop_last(), p)
    }
}

/// Folding any sequence of mirrors into the empty mirror, under the
/// default replace policy everywhere, succeeds and leaves each leaf field
/// holding the last value any source supplied for it — later present
/// values override earlier ones, per field, independent of every other
/// field.
pub proof fn lemma_fold_merge_last_wins(s: SpecShape, ps: Seq<SpecMirror>, p: Seq<int>)
    requires
        wf_shape(s),
        all_replace(s),
        forall|i: int| 0 <= i < ps.len() ==> wf_mirror(#[trigger] ps[i], s),
        valid_leaf_path(s, p),
    ensures
        fold_merge(s, ps) matches Ok(acc) && wf_mirror(acc, s) && leaf_at(acc, p) == spec_last_set(
            ps,
            p,
        ),
    decreases ps.len(),
{
    if ps.len() == 0 {
        crate::mirror::lemma_empty_mirror_wf(s);
        lemma_leaf_at_empty(s, p);
    } else {
        let front = ps.drop_last();
        assert(forall|i: int| 0 <= i < front.len() ==> wf_mirror(#[trigger] front[i], s)) by {
            assert(forall|i: int| 0 <= i < front.len() ==> front[i] == ps[i]);
        }
        lemma_fold_merge_last_wins(s, front, p);
        let acc = fold_merge(s, front)->Ok_0;
        assert(wf_mirror(ps.last(), s));
        lemma_merge_leaf_override(s, acc, ps.last(), p);
        lemma_merge_wf(s, acc, ps.last());
    }
}

/// The dotted name of the field a leaf path leads to.
pub open spec fn path_name(s: SpecShape, p: Seq<int>) -> Seq<char>
    decreases p.len(),
{
    if p.len() == 0 || !(0 <= p[0] < s.fields.len()) {
        arbitrary()
    } else if p.len() == 1 {
        s.fields[p[0]].name
    } else {
        match s.fields[p[0]].kind {
            SpecFieldKind::Nested(sub) => crate::util::spec_dotted(
                s.fields[p[0]].name,
                path_name(sub, p.drop_first()),
            ),
            SpecFieldKind::Leaf(_) => s.fields[p[0]].name,
        }
    }
}

/// Whether a reported name is the dotted path of some required leaf field
/// that the mirror holds no value for.
pub open spec fn is_required_missing_report(s: SpecShape, m: SpecMirror, name: Seq<char>) -> bool {
    exists|p: Seq<int>|
        #[trigger] valid_required_leaf_path(s, p) && name == path_name(s, p) && leaf_at(
            m,
            p,
        ) is Absent
}

/// Every path the missing-property report holds names a required leaf
/// field that is absent: the report never names an optional field, and
/// never names a nested field itself, only leaf paths beneath it.
pub proof fn lemma_missing_only_required_leaves(s: SpecShape, m: SpecMirror)
    requires
        wf_shape(s),
        wf_mirror(m, s),
    ensures
        forall|k: int|
            0 <= k < spec_missing(s, m).len() ==> is_required_missing_report(
                s,
                m,
                #[trigger] spec_missing(s, m)[k],
            ),
    decreases s,
{
    lemma_missing_upto_paths(s, m, s.fields.len() as int);
    assert(spec_missing(s, m) == crate::finish::spec_missing_upto(s, m, s.fields.len() as int));
    assert forall|k: int| 0 <= k < spec_missing(s, m).len() implies is_required_missing_report(
        s,
        m,
        spec_missing(s, m)[k],
    ) by {
        assert(is_required_missing_report(
            s,
            m,
            crate::finish::spec_missing_upto(s, m, s.fields.len() as int)[k],
        ));
    }
}

proof fn lemma_missing_upto_paths(s: SpecShape, m: SpecMirror, n: int)
    requires
        wf_shape(s),
        wf_mirror(m, s),
        0 <= n <= s.fields.len(),
    ensures
        forall|k: int|
            0 <= k < crate::finish::spec_missing_upto(s, m, n).len() ==> is_required_missing_report(
                s,
                m,
                #[trigger] crate::finish::spec_missing_upto(s, m, n)[k],
            ),
    decreases s, n,
{
    if n > 0 {
        lemma_missing_upto_paths(s, m, n - 1);
        let i = n - 1;
        let f = s.fields[i];
        let e = m.entries[i];
        let pre = crate::finish::spec_missing_upto(s, m, i);
        let part = spec_missing_field(f, e);
        assert(crate::finish::spec_missing_upto(s, m, n) == pre + part);
        assert(wf_field(f));
        assert(wf_entry(e, f));
        assert forall|k: int|
            0 <= k < crate::finish::spec_missing_upto(s, m, n).len() implies is_required_missing_report(
            s,
            m,
            crate::finish::spec_missing_upto(s, m, n)[k],
        ) by {
            if k < pre.len() {
                assert(crate::finish::spec_missing_upto(s, m, n)[k] == pre[k]);
            } else {
                let k2 = k - pre.len();
                assert(crate::finish::spec_missing_upto(s, m, n)[k] == part[k2]);
                match f.kind {
                    SpecFieldKind::Leaf(_) => {
                        let p = seq![i];
                        assert(valid_required_leaf_path(s, p));
                        assert(path_name(s, p) == f.name);
                        assert(leaf_at(m, p) is Absent);
                        assert(part[k2] == f.name);
                    },
                    SpecFieldKind::Nested(sub) => {
                        let mm = e->Nested_0;
                        assert(part == spec_prefixed(f.name, spec_missing(sub, mm)));
                        assert(part[k2] == crate::util::spec_dotted(
                            f.name,
                            spec_missing(sub, mm)[k2],
                        ));
                        lemma_missing_only_required_leaves(sub, mm);
                        assert(is_required_missing_report(sub, mm, spec_missing(sub, mm)[k2]));
                        let p2 = choose|p2: Seq<int>|
                            #[trigger] valid_required_leaf_path(sub, p2) && spec_missing(sub, mm)[k2]
                                == path_name(sub, p2) && leaf_at(mm, p2) is Absent;
                        let p = seq![i] + p2;
                        assert(p.drop_first() =~= p2);
                        assert(valid_required_leaf_path(s, p));
                        assert(path_name(s, p) == crate::util::spec_dotted(
                            f.name,
                            path_name(sub, p2),
                        ));
                        assert(leaf_at(m, p) == leaf_at(mm, p2));
                    },
                }
            }
        }
    }
}

/// A mirror in canonical form: no optional nested field holds a present
/// but empty mirror (such a mirror serializes like the absent form, so
/// only the absent form round-trips), recursively.
pub open spec fn spec_canonical(s: SpecShape, m: SpecMirror) -> bool
    decreases m,
{
    forall|i: int|
        0 <= i < m.entries.len() ==> spec_canonical_entry(
            s.fields[i],
            #[trigger] m.entries[i],
        )
}

pub open spec fn spec_canonical_entry(f: SpecField, e: SpecEntry) -> bool
    decreases e,
{
    match e {
        SpecEntry::Nested(mm) => {
            &&& (f.optional ==> !spec_mirror_empty(mm))
            &&& (f.kind matches SpecFieldKind::Nested(sub) ==> spec_canonical(sub, mm))
        },
        _ => true,
    }
}

/// The empty mirror is canonical.
pub proof fn lemma_empty_canonical(s: SpecShape)
    ensures
        spec_canonical(s, spec_empty_mirror(s)),
    decreases s,
{
    lemma_spec_empty_mirror(s);
    assert forall|i: int| 0 <= i < spec_empty_mirror(s).entries.len() implies spec_canonical_entry(
        s.fields[i],
        spec_empty_mirror(s).entries[i],
    ) by {
        match s.fields[i].kind {
            SpecFieldKind::Leaf(_) => {},
            SpecFieldKind::Nested(sub) => {
                if !s.fields[i].optional {
                    lemma_empty_canonical(sub);
                }
            },
        }
    }
}

/// The defaults mirror is canonical: an optional nested field holds its
/// nested defaults only when they are not empty.
pub proof fn lemma_defaults_canonical(s: SpecShape)
    ensures
        spec_canonical(s, crate::mirror::spec_defaults(s)),
    decreases s,
{
    crate::mirror::lemma_spec_defaults(s);
    assert forall|i: int|
        0 <= i < crate::mirror::spec_defaults(s).entries.len() implies spec_canonical_entry(
        s.fields[i],
        crate::mirror::spec_defaults(s).entries[i],
    ) by {
        match s.fields[i].kind {
            SpecFieldKind::Leaf(_) => {},
            SpecFieldKind::Nested(sub) => {
                lemma_defaults_canonical(sub);
            },
        }
    }
}

/// A mirror bound from the environment is canonical: an optional nested
/// field is bound present only when something beneath it was.
pub proof fn lemma_from_env_canonical(
    s: SpecShape,
    env: Map<Seq<char>, Seq<char>>,
    prefix: Option<Seq<char>>,
)
    requires
        wf_shape(s),
        crate::env::spec_from_env(s, env, prefix) is Ok,
    ensures
        spec_canonical(s, crate::env::spec_from_env(s, env, prefix)->Ok_0),
    decreases s,
{
    let inherited = match prefix {
        Some(p) => p,
        None => Seq::empty(),
    };
    let cp = crate::env::spec_container_prefix(s, inherited);
    let mm = crate::env::spec_from_env(s, env, prefix)->Ok_0;
    crate::env::lemma_env_entries_index(s, env, cp, s.fields.len() as int);
    assert forall|i: int| 0 <= i < mm.entries.len() implies spec_canonical_entry(
        s.fields[i],
        #[trigger] mm.entries[i],
    ) by {
        let f = s.fields[i];
        assert(wf_field(f));
        let skip = crate::env::spec_skip_field(s, f);
        if skip {
            match f.kind {
                SpecFieldKind::Leaf(_) => {},
                SpecFieldKind::Nested(sub) => {
                    if !f.optional {
                        lemma_empty_canonical(sub);
                    }
                },
            }
        } else {
            match f.kind {
                SpecFieldKind::Leaf(_) => {},
                SpecFieldKind::Nested(sub) => {
                    let key = crate::env::spec_field_key(f, cp);
                    let np = crate::env::spec_nested_prefix(key);
                    if crate::env::spec_from_env(sub, env, Some(np)) is Ok {
                        lemma_from_env_canonical(sub, env, Some(np));
                    }
                },
            }
        }
    }
}

/// Merging cannot erase a field that already holds a value.
proof fn lemma_merge_nonempty(s: SpecShape, a: SpecMirror, b: SpecMirror)
    requires
        wf_shape(s),
        wf_mirror(a, s),
        wf_mirror(b, s),
        spec_merge(s, a, b) is Ok,
        !spec_mirror_empty(a),
    ensures
        !spec_mirror_empty(spec_merge(s, a, b)->Ok_0),
    decreases s,
{
    lemma_merge_entries_index(s, a, b, s.fields.len() as int);
    let mm = spec_merge(s, a, b)->Ok_0;
    let i = choose|i: int|
        0 <= i < a.entries.len() && !crate::mirror::spec_entry_empty(#[trigger] a.entries[i]);
    assert(wf_field(s.fields[i]));
    lemma_merge_entry_nonempty(s.fields[i], a.entries[i], b.entries[i]);
    assert(!crate::mirror::spec_entry_empty(mm.entries[i]));
}

/// Merging one field cannot erase a current value.
proof fn lemma_merge_entry_nonempty(f: SpecField, x: SpecEntry, y: SpecEntry)
    requires
        wf_field(f),
        wf_entry(x, f),
        wf_entry(y, f),
        spec_merge_entry(f, x, y) is Ok,
        !crate::mirror::spec_entry_empty(x),
    ensures
        !crate::mirror::spec_entry_empty(spec_merge_entry(f, x, y)->Ok_0),
    decreases f,
{
    match f.kind {
        SpecFieldKind::Leaf(_) => {},
        SpecFieldKind::Nested(sub) => {
            if f.merge is Replace {
                match (x, y) {
                    (SpecEntry::Nested(ma), SpecEntry::Nested(mb)) => {
                        lemma_merge_nonempty(sub, ma, mb);
                    },
                    _ => {},
                }
            }
        },
    }
}

/// A merge of two canonical mirrors is canonical: round-tripping through
/// the serialized form therefore also covers every single merge of
/// canonical sources.
pub proof fn lemma_merge_canonical(s: SpecShape, a: SpecMirror, b: SpecMirror)
    requires
        wf_shape(s),
        wf_mirror(a, s),
        wf_mirror(b, s),
        spec_canonical(s, a),
        spec_canonical(s, b),
        spec_merge(s, a, b) is Ok,
    ensures
        spec_canonical(s, spec_merge(s, a, b)->Ok_0),
    decreases s,
{
    lemma_merge_entries_index(s, a, b, s.fields.len() as int);
    let mm = spec_merge(s, a, b)->Ok_0;
    assert forall|i: int| 0 <= i < mm.entries.len() implies spec_canonical_entry(
        s.fields[i],
        #[trigger] mm.entries[i],
    ) by {
        let f = s.fields[i];
        assert(wf_field(f));
        assert(wf_entry(a.entries[i], f));
        assert(wf_entry(b.entries[i], f));
        assert(spec_canonical_entry(f, a.entries[i]));
        assert(spec_canonical_entry(f, b.entries[i]));
        match f.kind {
            SpecFieldKind::Leaf(_) => {},
            SpecFieldKind::Nested(sub) => {
                if f.merge is Replace {
                    match (a.entries[i], b.entries[i]) {
                        (SpecEntry::Nested(ma), SpecEntry::Nested(mb)) => {
                            lemma_merge_canonical(sub, ma, mb);
                            if f.optional {
                                lemma_merge_nonempty(sub, ma, mb);
                            }
                        },
                        _ => {},
                    }
                }
            },
        }
    }
}

/// The only empty canonical well-formed mirror of a shape is the all-absent
/// one.
proof fn lemma_empty_canonical_unique(s: SpecShape, m: SpecMirror)
    requires
        wf_shape(s),
        wf_mirror(m, s),
        spec_canonical(s, m),
        spec_mirror_empty(m),
    ensures
        m == spec_empty_mirror(s),
    decreases s,
{
    lemma_spec_empty_mirror(s);
    assert forall|i: int| 0 <= i < m.entries.len() implies m.entries[i] == spec_empty_mirror(
        s,
    ).entries[i] by {
        let f = s.fields[i];
        assert(wf_field(f));
        assert(wf_entry(m.entries[i], f));
        assert(crate::mirror::spec_entry_empty(m.entries[i]));
        match f.kind {
            SpecFieldKind::Leaf(_) => {},
            SpecFieldKind::Nested(sub) => {
                match m.entries[i] {
                    SpecEntry::Nested(mm) => {
                        assert(!f.optional);
                        lemma_empty_canonical_unique(sub, mm);
                    },
                    _ => {},
                }
            },
        }
    }
    assert(m.entries =~= spec_empty_mirror(s).entries);
    assert(m =~= spec_empty_mirror(s));
}

/// Finding a key in two runs of pairs looks left first.
proof fn lemma_find_concat(a: Seq<(Seq<char>, crate::raw::SpecRaw)>, b: Seq<(Seq<char>, crate::raw::SpecRaw)>, k: Seq<char>)
    ensures
        crate::raw::spec_find_key(a + b, k) == (match crate::raw::spec_find_key(a, k) {
            Some(v) => Some(v),
            None => crate::raw::spec_find_key(b, k),
        }),
    decreases a.len(),
{
    if a.len() == 0 {
        assert(a + b =~= b);
    } else {
        assert((a + b).drop_first() =~= a.drop_first() + b);
        assert((a + b)[0] == a[0]);
        lemma_find_concat(a.drop_first(), b, k);
    }
}

/// One field's serialized pairs hold at most one pair, keyed by the
/// field's own name.
proof fn lemma_to_raw_field_shape(f: SpecField, e: SpecEntry)
    ensures
        crate::raw::spec_to_raw_field(f, e).len() <= 1,
        crate::raw::spec_to_raw_field(f, e).len() == 1 ==> crate::raw::spec_to_raw_field(f, e)[0].0
            == f.name,
{
}

/// A key that no field before `n` bears is not found among their pairs.
proof fn lemma_find_none_other(s: SpecShape, m: SpecMirror, n: int, k: Seq<char>)
    requires
        0 <= n <= s.fields.len(),
        n <= m.entries.len(),
        forall|j: int| 0 <= j < n ==> (#[trigger] s.fields[j]).name != k,
    ensures
        crate::raw::spec_find_key(crate::raw::spec_to_raw_fields(s, m, n), k) is None,
    decreases n,
{
    if n > 0 {
        lemma_find_none_other(s, m, n - 1, k);
        let pre = crate::raw::spec_to_raw_fields(s, m, n - 1);
        let part = crate::raw::spec_to_raw_field(s.fields[n - 1], m.entries[n - 1]);
        assert(crate::raw::spec_to_raw_fields(s, m, n) == pre + part);
        lemma_to_raw_field_shape(s.fields[n - 1], m.entries[n - 1]);
        lemma_find_concat(pre, part, k);
        assert(s.fields[n - 1].name != k);
        if part.len() == 1 {
            assert(part[0].0 != k);
            assert(part.drop_first() =~= Seq::<(Seq<char>, crate::raw::SpecRaw)>::empty());
            assert(crate::raw::spec_find_key(part.drop_first(), k) is None);
            assert(crate::raw::spec_find_key(part, k) is None);
        } else {
            assert(part =~= Seq::<(Seq<char>, crate::raw::SpecRaw)>::empty());
            assert(crate::raw::spec_find_key(part, k) is None);
        }
    } else {
        assert(crate::raw::spec_to_raw_fields(s, m, 0) =~= Seq::<
            (Seq<char>, crate::raw::SpecRaw),
        >::empty());
    }
}

/// Finding a field's name among the serialized pairs of the first `n`
/// fields yields exactly that field's own contribution.
proof fn lemma_find_own_field(s: SpecShape, m: SpecMirror, i: int, n: int)
    requires
        wf_shape(s),
        i < n <= s.fields.len(),
        0 <= i,
        n <= m.entries.len(),
    ensures
        crate::raw::spec_find_key(crate::raw::spec_to_raw_fields(s, m, n), s.fields[i].name) == (
        if crate::raw::spec_to_raw_field(s.fields[i], m.entries[i]).len() == 0 {
            None
        } else {
            Some(crate::raw::spec_to_raw_field(s.fields[i], m.entries[i])[0].1)
        }),
    decreases n,
{
    let k = s.fields[i].name;
    let pre = crate::raw::spec_to_raw_fields(s, m, n - 1);
    let part = crate::raw::spec_to_raw_field(s.fields[n - 1], m.entries[n - 1]);
    assert(crate::raw::spec_to_raw_fields(s, m, n) == pre + part);
    lemma_to_raw_field_shape(s.fields[n - 1], m.entries[n - 1]);
    lemma_find_concat(pre, part, k);
    if part.len() == 1 {
        assert(part.drop_first() =~= Seq::<(Seq<char>, crate::raw::SpecRaw)>::empty());
    } else {
        assert(part =~= Seq::<(Seq<char>, crate::raw::SpecRaw)>::empty());
    }
    if n - 1 == i {
        assert(forall|j: int| 0 <= j < i ==> (#[trigger] s.fields[j]).name != k);
        lemma_find_none_other(s, m, i, k);
        assert(crate::raw::spec_find_key(pre, k) is None);
        let own = crate::raw::spec_to_raw_field(s.fields[i], m.entries[i]);
        if own.len() == 1 {
            assert(own[0].0 == k);
            assert(crate::raw::spec_find_key(own, k) == Some(own[0].1));
        }
    } else {
        lemma_find_own_field(s, m, i, n - 1);
        assert(s.fields[n - 1].name != k);
        if part.len() == 1 {
            assert(part[0].0 != k);
            assert(part.drop_first() =~= Seq::<(Seq<char>, crate::raw::SpecRaw)>::empty());
            assert(crate::raw::spec_find_key(part.drop_first(), k) is None);
            assert(crate::raw::spec_find_key(part, k) is None);
        }
    }
}

/// Every key among the serialized pairs of the first `n` fields is some
/// field's name.
proof fn lemma_to_raw_keys_known(s: SpecShape, m: SpecMirror, n: int)
    requires
        0 <= n <= s.fields.len(),
        n <= m.entries.len(),
    ensures
        forall|a: int|
            0 <= a < crate::raw::spec_to_raw_fields(s, m, n).len() ==> exists|j: int|
                0 <= j < s.fields.len() && (#[trigger] s.fields[j]).name == (
                #[trigger] crate::raw::spec_to_raw_fields(s, m, n)[a]).0,
    decreases n,
{
    if n > 0 {
        lemma_to_raw_keys_known(s, m, n - 1);
        let pre = crate::raw::spec_to_raw_fields(s, m, n - 1);
        let part = crate::raw::spec_to_raw_field(s.fields[n - 1], m.entries[n - 1]);
        lemma_to_raw_field_shape(s.fields[n - 1], m.entries[n - 1]);
        assert forall|a: int|
            0 <= a < crate::raw::spec_to_raw_fields(s, m, n).len() implies exists|j: int|
            0 <= j < s.fields.len() && (#[trigger] s.fields[j]).name == (
            #[trigger] crate::raw::spec_to_raw_fields(s, m, n)[a]).0 by {
            if a < pre.len() {
                assert(crate::raw::spec_to_raw_fields(s, m, n)[a] == pre[a]);
            } else {
                assert(crate::raw::spec_to_raw_fields(s, m, n)[a] == part[a - pre.len()]);
                assert(s.fields[n - 1].name == part[0].0);
            }
        }
    }
}

/// A serialized leaf value reads back as itself under its declared type.
proof fn lemma_value_round_trip(v: crate::value::SpecValue, ty: crate::value::Ty)
    requires
        crate::value::spec_value_matches(v, ty),
    ensures
        crate::raw::spec_raw_to_value(crate::raw::spec_value_to_raw(v), ty) == Some(v),
{
    match v {
        crate::value::SpecValue::Atom(_) => {},
        crate::value::SpecValue::List(l) => {
            let at = ty->List_0;
            let raws = l.map_values(|a: crate::value::SpecAtom| crate::raw::spec_atom_to_raw(a));
            assert forall|i: int| 0 <= i < raws.len() implies crate::raw::spec_raw_to_atom(
                #[trigger] raws[i],
                at,
            ) == Some(l[i]) by {
                assert(crate::value::spec_atom_matches(l[i], at));
            }
            assert(raws.map_values(
                |e: crate::raw::SpecRaw| crate::raw::spec_raw_to_atom(e, at)->Some_0,
            ) =~= l);
        },
    }
}

/// A serialized leaf value is never `null`.
proof fn lemma_value_to_raw_not_null(v: crate::value::SpecValue)
    ensures
        !(crate::raw::spec_value_to_raw(v) is Null),
{
}

/// Serializing a canonical mirror and reading the result back yields the
/// same mirror: the structured form loses nothing, for every mirror the
/// library's own operations produce.
pub proof fn lemma_raw_round_trip(s: SpecShape, m: SpecMirror)
    requires
        wf_shape(s),
        wf_mirror(m, s),
        spec_canonical(s, m),
    ensures
        crate::raw::spec_of_raw(s, crate::raw::spec_to_raw(s, m)) == Some(m),
    decreases s,
{
    let n = s.fields.len() as int;
    let pairs = crate::raw::spec_to_raw_fields(s, m, n);
    assert(crate::raw::spec_to_raw(s, m) == crate::raw::SpecRaw::Object(pairs));
    lemma_to_raw_keys_known(s, m, n);
    assert(crate::raw::spec_known_keys(s, pairs));
    assert forall|i: int| 0 <= i < n implies crate::raw::spec_of_raw_entry(s.fields[i], pairs)
        == Some(#[trigger] m.entries[i]) by {
        let f = s.fields[i];
        let e = m.entries[i];
        assert(wf_field(f));
        assert(wf_entry(e, f));
        assert(spec_canonical_entry(f, e));
        lemma_find_own_field(s, m, i, n);
        lemma_to_raw_field_shape(f, e);
        let part = crate::raw::spec_to_raw_field(f, e);
        match f.kind {
            SpecFieldKind::Leaf(ty) => {
                match e {
                    SpecEntry::Leaf(v) => {
                        assert(part[0].1 == crate::raw::spec_value_to_raw(v));
                        lemma_value_to_raw_not_null(v);
                        lemma_value_round_trip(v, ty);
                    },
                    _ => {
                        assert(part.len() == 0);
                        assert(crate::mirror::spec_empty_entry(f) == SpecEntry::Absent);
                    },
                }
            },
            SpecFieldKind::Nested(sub) => {
                match e {
                    SpecEntry::Nested(mm) => {
                        if spec_mirror_empty(mm) {
                            assert(!f.optional);
                            assert(part.len() == 0);
                            lemma_empty_canonical_unique(sub, mm);
                            assert(crate::mirror::spec_empty_entry(f) == SpecEntry::Nested(
                                spec_empty_mirror(sub),
                            ));
                        } else {
                            assert(part[0].1 == crate::raw::spec_to_raw(sub, mm));
                            lemma_raw_round_trip(sub, mm);
                        }
                    },
                    _ => {
                        assert(f.optional);
                        assert(part.len() == 0);
                        assert(crate::mirror::spec_empty_entry(f) == SpecEntry::Absent);
                    },
                }
            },
        }
    }
    lemma_of_raw_entries_all(s, pairs, m, n);
    assert(crate::raw::spec_of_raw_entries(s, pairs, n) matches Some(es) && es =~= m.entries);
    assert(crate::raw::spec_of_raw(s, crate::raw::spec_to_raw(s, m)) matches Some(mm) && mm
        =~= m);
}

/// If every field reads back its own entry, reading all fields yields all
/// entries.
proof fn lemma_of_raw_entries_all(
    s: SpecShape,
    pairs: Seq<(Seq<char>, crate::raw::SpecRaw)>,
    m: SpecMirror,
    n: int,
)
    requires
        0 <= n <= s.fields.len(),
        n <= m.entries.len(),
        forall|i: int|
            0 <= i < n ==> crate::raw::spec_of_raw_entry(s.fields[i], pairs) == Some(
                #[trigger] m.entries[i],
            ),
    ensures
        crate::raw::spec_of_raw_entries(s, pairs, n) matches Some(es) && es.len() == n && forall|
            i: int,
        | 0 <= i < n ==> es[i] == #[trigger] m.entries[i],
    decreases n,
{
    if n > 0 {
        lemma_of_raw_entries_all(s, pairs, m, n - 1);
        assert(crate::raw::spec_of_raw_entry(s.fields[n - 1], pairs) == Some(m.entries[n - 1]));
    }
}

/// An empty mirror holds absence at every leaf path.
proof fn lemma_leaf_at_all_absent(s: SpecShape, m: SpecMirror, p: Seq<int>)
    requires
        wf_mirror(m, s),
        spec_mirror_empty(m),
        valid_leaf_path(s, p),
    ensures
        leaf_at(m, p) is Absent,
    decreases p.len(),
{
    let i = p[0];
    assert(crate::mirror::spec_entry_empty(m.entries[i]));
    match s.fields[i].kind {
        SpecFieldKind::Leaf(_) => {},
        SpecFieldKind::Nested(sub) => {
            match m.entries[i] {
                SpecEntry::Nested(mm) => {
                    lemma_leaf_at_all_absent(sub, mm, p.drop_first());
                },
                _ => {},
            }
        },
    }
}

} // verus!
