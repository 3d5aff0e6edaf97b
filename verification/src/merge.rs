//! The merge engine: deep-merges two mirrors of one shape, field by field,
//! in declaration order, applying each field's merge policy.
//!
//! The default policy for a leaf field keeps the current value unless the
//! incoming one is present; nested mirrors are merged recursively, so later
//! sources override earlier ones only for the fields they actually specify.
//! The append policy concatenates two present lists instead; applying it
//! where both sides are present but not lists fails with a [`MergeError`]
//! carrying the full field path.

use vstd::prelude::*;

use crate::error::MergeError;
use crate::mirror::Entry;
use crate::mirror::Mirror;
use crate::mirror::SpecEntry;
use crate::mirror::SpecMirror;
use crate::mirror::lemma_mirror_view;
use crate::mirror::wf_entry;
use crate::mirror::wf_mirror;
use crate::shape::FieldDesc;
use crate::shape::MergePolicy;
use crate::shape::Shape;
use crate::shape::SpecField;
use crate::shape::SpecFieldKind;
use crate::shape::SpecShape;
use crate::shape::lemma_shape_view;
use crate::shape::wf_field;
use crate::shape::wf_shape;
use crate::util::join_path;
use crate::util::spec_dotted;
use crate::value::SpecValue;
use crate::value::FieldValue;
use crate::value::clone_string;

verus! {

/// What merging one field yields: the merged entry, or the dotted path of
/// the field where a policy failed.
pub open spec fn spec_merge_entry(f: SpecField, a: SpecEntry, b: SpecEntry) -> Result<
    SpecEntry,
    Seq<char>,
>
    decreases f,
{
    match f.merge {
        MergePolicy::Append => match (a, b) {
            (x, SpecEntry::Absent) => Ok(x),
            (SpecEntry::Absent, y) => Ok(y),
            (SpecEntry::Leaf(SpecValue::List(x)), SpecEntry::Leaf(SpecValue::List(y))) => Ok(
                SpecEntry::Leaf(SpecValue::List(x + y)),
            ),
            _ => Err(f.name),
        },
        MergePolicy::Replace => match f.kind {
            SpecFieldKind::Leaf(_) => Ok(
                if b is Absent {
                    a
                } else {
                    b
                },
            ),
            SpecFieldKind::Nested(sub) => match (a, b) {
                (SpecEntry::Nested(ma), SpecEntry::Nested(mb)) => match spec_merge(sub, ma, mb) {
                    Ok(mm) => Ok(SpecEntry::Nested(mm)),
                    Err(p) => Err(spec_dotted(f.name, p)),
                },
                (x, SpecEntry::Absent) => Ok(x),
                (SpecEntry::Absent, y) => Ok(y),
                _ => Ok(a),
            },
        },
    }
}

pub open spec fn spec_merge_entries(s: SpecShape, a: SpecMirror, b: SpecMirror, n: int) -> Result<
    Seq<SpecEntry>,
    Seq<char>,
>
    decreases s, n,
        via spec_merge_entries_decreases
{
    if n <= 0 {
        Ok(Seq::empty())
    } else {
        match spec_merge_entries(s, a, b, n - 1) {
            Err(p) => Err(p),
            Ok(pre) => {
                if n - 1 < s.fields.len() && n - 1 < a.entries.len() && n - 1 < b.entries.len() {
                    match spec_merge_entry(s.fields[n - 1], a.entries[n - 1], b.entries[n - 1]) {
                        Ok(e) => Ok(pre.push(e)),
                        Err(p) => Err(p),
                    }
                } else {
                    Ok(pre.push(arbitrary()))
                }
            },
        }
    }
}

#[via_fn]
proof fn spec_merge_entries_decreases(s: SpecShape, a: SpecMirror, b: SpecMirror, n: int) {
    broadcast use vstd::seq::axiom_seq_index_decreases;

    if n > 0 && n - 1 < s.fields.len() {
        assert(decreases_to!(s => s.fields));
        assert(decreases_to!(s.fields => s.fields[n - 1]));
    }
}

/// What merging two mirrors of one shape yields: the merged mirror, or the
/// dotted path of the first field, in declaration order, whose merge policy
/// failed.
pub open spec fn spec_merge(s: SpecShape, a: SpecMirror, b: SpecMirror) -> Result<
    SpecMirror,
    Seq<char>,
>
    decreases s, s.fields.len() as int + 1,
{
    match spec_merge_entries(s, a, b, s.fields.len() as int) {
        Ok(es) => Ok(SpecMirror { entries: es }),
        Err(p) => Err(p),
    }
}

/// Once some prefix of the fields fails to merge, every longer prefix fails
/// the same way.
proof fn lemma_merge_entries_err_mono(s: SpecShape, a: SpecMirror, b: SpecMirror, m: int, n: int)
    requires
        0 <= m <= n,
        spec_merge_entries(s, a, b, m) is Err,
    ensures
        spec_merge_entries(s, a, b, n) == spec_merge_entries(s, a, b, m),
    decreases n - m,
{
    if n > m {
        lemma_merge_entries_err_mono(s, a, b, m, n - 1);
    }
}

/// A successful merge of the first `n` fields merged each of them
/// successfully, in order.
pub proof fn lemma_merge_entries_index(s: SpecShape, a: SpecMirror, b: SpecMirror, n: int)
    requires
        0 <= n <= s.fields.len(),
        n <= a.entries.len(),
        n <= b.entries.len(),
        spec_merge_entries(s, a, b, n) is Ok,
    ensures
        spec_merge_entries(s, a, b, n)->Ok_0.len() == n,
        forall|i: int|
            #![trigger s.fields[i]]
            #![trigger spec_merge_entries(s, a, b, n)->Ok_0[i]]
            0 <= i < n ==> (spec_merge_entry(s.fields[i], a.entries[i], b.entries[i]) matches Ok(e)
                && spec_merge_entries(s, a, b, n)->Ok_0[i] == e),
    decreases n,
{
    if n > 0 {
        lemma_merge_entries_index(s, a, b, n - 1);
    }
}

/// A successful merge of two well-formed mirrors of a well-formed shape is
/// well formed.
pub proof fn lemma_merge_wf(s: SpecShape, a: SpecMirror, b: SpecMirror)
    requires
        wf_shape(s),
        wf_mirror(a, s),
        wf_mirror(b, s),
        spec_merge(s, a, b) is Ok,
    ensures
        wf_mirror(spec_merge(s, a, b)->Ok_0, s),
    decreases s,
{
    let mm = spec_merge(s, a, b)->Ok_0;
    lemma_merge_entries_index(s, a, b, s.fields.len() as int);
    assert forall|i: int| 0 <= i < mm.entries.len() implies wf_entry(
        #[trigger] mm.entries[i],
        s.fields[i],
    ) by {
        assert(wf_field(s.fields[i]));
        lemma_merge_entry_wf(s.fields[i], a.entries[i], b.entries[i]);
    }
}

/// A successful merge of one field's two well-formed entries is well formed.
proof fn lemma_merge_entry_wf(f: SpecField, a: SpecEntry, b: SpecEntry)
    requires
        wf_field(f),
        wf_entry(a, f),
        wf_entry(b, f),
        spec_merge_entry(f, a, b) is Ok,
    ensures
        wf_entry(spec_merge_entry(f, a, b)->Ok_0, f),
    decreases f,
{
    match f.kind {
        SpecFieldKind::Leaf(_) => {},
        SpecFieldKind::Nested(sub) => {
            if f.merge is Replace && a is Nested && b is Nested {
                lemma_merge_wf(sub, a->Nested_0, b->Nested_0);
            }
        },
    }
}

/// Merges one field's incoming entry into its current one, per the field's
/// policy.
fn merge_entry(f: &FieldDesc, left: &Entry, right: Entry) -> (r: Result<Entry, MergeError>)
    requires
        wf_field(f@),
        wf_entry(left@, f@),
        wf_entry(right@, f@),
    ensures
        match r {
            Ok(e) => spec_merge_entry(f@, left@, right@) matches Ok(se) && e@ == se,
            Err(me) => spec_merge_entry(f@, left@, right@) matches Err(p) && me.field@ == p
                && me.message@ == "append merge policy needs two list values"@,
        },
    decreases *f,
{
    match f.merge {
        MergePolicy::Append => {
            match (left, right) {
                (l, Entry::Absent) => Ok(l.duplicate_entry()),
                (Entry::Absent, y) => Ok(y),
                (Entry::Leaf(lv), Entry::Leaf(rv)) => {
                    let l = lv.duplicate();
                    match (l, rv) {
                        (FieldValue::List(mut x), FieldValue::List(mut y)) => {
                            proof {
                                assert(left@->Leaf_0->List_0 =~= lv@->List_0);
                            }
                            x.append(&mut y);
                            let e = Entry::Leaf(FieldValue::List(x));
                            proof {
                                assert(e@->Leaf_0->List_0 =~= left@->Leaf_0->List_0
                                    + right@->Leaf_0->List_0);
                                assert(e@ == spec_merge_entry(f@, left@, right@)->Ok_0);
                            }
                            Ok(e)
                        },
                        _ => Err(
                            MergeError {
                                field: clone_string(&f.name),
                                message: String::from_str(
                                    "append merge policy needs two list values",
                                ),
                            },
                        ),
                    }
                },
                _ => Err(
                    MergeError {
                        field: clone_string(&f.name),
                        message: String::from_str("append merge policy needs two list values"),
                    },
                ),
            }
        },
        MergePolicy::Replace => {
            match &f.kind {
                crate::shape::FieldKind::Leaf(_) => {
                    if matches!(right, Entry::Absent) {
                        Ok(left.duplicate_entry())
                    } else {
                        Ok(right)
                    }
                },
                crate::shape::FieldKind::Nested(sub) => {
                    match (left, right) {
                        (Entry::Nested(la), Entry::Nested(rb)) => {
                            let mut acc = la.duplicate();
                            proof {
                                broadcast use vstd::std_specs::vec::axiom_vec_decreases_to_view;
                                broadcast use vstd::seq::axiom_seq_index_decreases;

                                assert(decreases_to!(*f => f.kind));
                            }
                            match acc.merge(sub, *rb) {
                                Ok(()) => Ok(Entry::Nested(Box::new(acc))),
                                Err(e) => Err(
                                    MergeError {
                                        field: join_path(f.name.as_str(), e.field.as_str()),
                                        message: e.message,
                                    },
                                ),
                            }
                        },
                        (l, Entry::Absent) => Ok(l.duplicate_entry()),
                        (Entry::Absent, y) => Ok(y),
                        (l, _) => Ok(l.duplicate_entry()),
                    }
                },
            }
        },
    }
}

impl Entry {
    /// A deep copy whose model is the same as this one's.
    pub fn duplicate_entry(&self) -> (r: Entry)
        ensures
            r@ == self@,
    {
        match self {
            Entry::Absent => Entry::Absent,
            Entry::Leaf(v) => Entry::Leaf(v.duplicate()),
            Entry::Nested(m) => Entry::Nested(Box::new(m.duplicate())),
        }
    }
}

impl Mirror {
    /// Deep-merges `other` into this mirror, field by field in declaration
    /// order, per each field's merge policy. On failure this mirror is left
    /// unchanged and the error names the full path of the first field whose
    /// policy failed.
    #[verifier::loop_isolation(false)]
    pub fn merge(&mut self, shape: &Shape, other: Mirror) -> (r: Result<(), MergeError>)
        requires
            wf_shape(shape@),
            wf_mirror(old(self)@, shape@),
            wf_mirror(other@, shape@),
        ensures
            match r {
                Ok(_) => {
                    &&& spec_merge(shape@, old(self)@, other@) matches Ok(mm) && final(self)@ == mm
                    &&& wf_mirror(final(self)@, shape@)
                },
                Err(e) => {
                    &&& spec_merge(shape@, old(self)@, other@) matches Err(p) && e.field@ == p
                    &&& e.message@ == "append merge policy needs two list values"@
                    &&& final(self)@ == old(self)@
                },
            },
        decreases *shape,
    {
        let ghost s = shape@;
        let ghost ga = self@;
        let ghost gb = other@;
        proof {
            lemma_shape_view(*shape);
            lemma_mirror_view(*self);
            lemma_mirror_view(other);
        }
        let n = shape.fields.len();
        let mut rest = other.entries;
        let ghost oents = rest@;
        let mut out: Vec<Entry> = Vec::new();
        let mut i: usize = 0;
        while i < n
            invariant
                wf_shape(s),
                wf_mirror(ga, s),
                wf_mirror(gb, s),
                s == shape@,
                ga == self@,
                *self == *old(self),
                n == shape.fields@.len(),
                i <= n,
                n == self.entries@.len(),
                n == oents.len(),
                rest@ =~= oents.subrange(i as int, n as int),
                forall|j: int| 0 <= j < n ==> gb.entries[j] == (#[trigger] oents[j])@,
                out@.len() == i as int,
                spec_merge_entries(s, ga, gb, i as int) matches Ok(pre) && pre.len() == i as int
                    && forall|j: int| 0 <= j < i as int ==> pre[j] == (#[trigger] out@[j])@,
            decreases n - i,
        {
            proof {
                lemma_shape_view(*shape);
                lemma_mirror_view(*self);
            }
            let f = &shape.fields[i];
            let e = rest.remove(0);
            proof {
                assert(e@ == gb.entries[i as int]);
                assert(wf_field(f@));
                assert(wf_entry(self@.entries[i as int], f@));
                assert(wf_entry(e@, f@));
            }
            match merge_entry(f, &self.entries[i], e) {
                Ok(me) => {
                    out.push(me);
                },
                Err(err) => {
                    proof {
                        assert(spec_merge_entries(s, ga, gb, i + 1) matches Err(p) && p
                            == err.field@);
                        lemma_merge_entries_err_mono(s, ga, gb, i + 1, n as int);
                        assert(spec_merge(s, ga, gb) matches Err(p) && p == err.field@);
                    }
                    return Err(err);
                },
            }
            i = i + 1;
        }
        self.entries = out;
        proof {
            lemma_mirror_view(*self);
            assert(spec_merge_entries(s, ga, gb, n as int) matches Ok(pre) && self@.entries
                =~= pre);
            assert(spec_merge(s, ga, gb) matches Ok(mm) && self@ =~= mm);
            lemma_merge_wf(s, ga, gb);
        }
        Ok(())
    }
}

/// Appends an incoming list to the current one instead of replacing it: the
/// utility behind the append merge policy, usable on its own.
pub fn append_vec<T>(left: &mut Option<Vec<T>>, right: Option<Vec<T>>) -> (r: Result<
    (),
    std::convert::Infallible,
>)
    ensures
        r is Ok,
        match right {
            None => *final(left) == *old(left),
            Some(rv) => match *old(left) {
                None => *final(left) matches Some(v) && v@ == rv@,
                Some(lv) => *final(left) matches Some(v) && v@ == lv@ + rv@,
            },
        },
{
    if let Some(left_vec) = left.as_mut() {
        if let Some(mut right_vec) = right {
            left_vec.append(&mut right_vec);
        }
    } else if let Some(right_vec) = right {
        *left = Some(right_vec);
    }
    Ok(())
}

} // verus!
