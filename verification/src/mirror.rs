//! The deep-partial mirror of a configuration shape: every leaf field is
//! present or absent, and every nested field is itself a mirror.
//!
//! Plain empty construction ([`Mirror::new_empty`]) and construction with the
//! shape's declared defaults ([`Mirror::defaults`]) are distinct operations:
//! the empty mirror is all-absent regardless of any declared defaults.
//!
//! An optional nested field is represented `Absent` when the source never
//! mentioned it; a present-but-empty nested mirror also counts as empty and
//! contributes no missing properties.

use vstd::prelude::*;

use crate::shape::Shape;
use crate::shape::FieldKind;
use crate::shape::SpecField;
use crate::shape::SpecFieldKind;
use crate::shape::SpecShape;
use crate::shape::lemma_shape_view;
use crate::shape::wf_field;
use crate::shape::wf_shape;
use crate::value::SpecValue;
use crate::value::FieldValue;
use crate::value::spec_value_matches;

verus! {

/// The state of one field inside a mirror.
#[derive(Debug, PartialEq)]
pub enum Entry {
    /// The field has no value yet.
    Absent,
    /// A present leaf value.
    Leaf(FieldValue),
    /// The mirror of a nested field.
    Nested(Box<Mirror>),
}

/// The deep-partial mirror of a configuration shape, one entry per field, in
/// declaration order.
#[derive(Debug, PartialEq)]
pub struct Mirror {
    pub entries: Vec<Entry>,
}

/// Mathematical model of an [`Entry`].
#[verifier::ext_equal]
pub enum SpecEntry {
    Absent,
    Leaf(SpecValue),
    Nested(SpecMirror),
}

/// Mathematical model of a [`Mirror`].
#[verifier::ext_equal]
pub struct SpecMirror {
    pub entries: Seq<SpecEntry>,
}

pub open spec fn entry_view(e: Entry) -> SpecEntry
    decreases e,
{
    match e {
        Entry::Absent => SpecEntry::Absent,
        Entry::Leaf(v) => SpecEntry::Leaf(v@),
        Entry::Nested(b) => SpecEntry::Nested(mirror_view(*b)),
    }
}

pub open spec fn entries_view(m: Mirror, n: int) -> Seq<SpecEntry>
    decreases m, n,
        via entries_view_decreases
{
    if n <= 0 {
        Seq::empty()
    } else {
        entries_view(m, n - 1).push(
            if n - 1 < m.entries@.len() {
                entry_view(m.entries@[n - 1])
            } else {
                arbitrary()
            },
        )
    }
}

#[via_fn]
proof fn entries_view_decreases(m: Mirror, n: int) {
    broadcast use vstd::std_specs::vec::axiom_vec_decreases_to_view;
    broadcast use vstd::seq::axiom_seq_index_decreases;

    if n > 0 && n - 1 < m.entries@.len() {
        assert(decreases_to!(m => m.entries));
        assert(decreases_to!(m.entries => m.entries@));
        assert(decreases_to!(m.entries@ => m.entries@[n - 1]));
    }
}

pub open spec fn mirror_view(m: Mirror) -> SpecMirror
    decreases m, m.entries@.len() as int + 1,
{
    SpecMirror { entries: entries_view(m, m.entries@.len() as int) }
}

impl View for Entry {
    type V = SpecEntry;

    open spec fn view(&self) -> SpecEntry {
        entry_view(*self)
    }
}

impl View for Mirror {
    type V = SpecMirror;

    open spec fn view(&self) -> SpecMirror {
        mirror_view(*self)
    }
}

/// The model of a mirror has one entry model per entry, in order.
pub broadcast proof fn lemma_mirror_view(m: Mirror)
    ensures
        (#[trigger] mirror_view(m)).entries.len() == m.entries@.len(),
        forall|i: int|
            #![trigger mirror_view(m).entries[i]]
            #![trigger m.entries@[i]]
            0 <= i < m.entries@.len() ==> mirror_view(m).entries[i] == entry_view(m.entries@[i]),
{
    lemma_entries_view(m, m.entries@.len() as int);
}

proof fn lemma_entries_view(m: Mirror, n: int)
    requires
        0 <= n <= m.entries@.len(),
    ensures
        entries_view(m, n).len() == n,
        forall|i: int| 0 <= i < n ==> entries_view(m, n)[i] == entry_view(#[trigger] m.entries@[i]),
    decreases n,
{
    if n > 0 {
        lemma_entries_view(m, n - 1);
    }
}

/// A mirror entry fits its field declaration: a leaf entry is absent or
/// holds a value of the declared type; a nested entry mirrors the nested
/// shape, and may be absent only when the nested field is optional.
pub open spec fn wf_entry(e: SpecEntry, f: SpecField) -> bool
    decreases e,
{
    match f.kind {
        SpecFieldKind::Leaf(ty) => match e {
            SpecEntry::Absent => true,
            SpecEntry::Leaf(v) => spec_value_matches(v, ty),
            SpecEntry::Nested(_) => false,
        },
        SpecFieldKind::Nested(sub) => match e {
            SpecEntry::Absent => f.optional,
            SpecEntry::Leaf(_) => false,
            SpecEntry::Nested(mm) => wf_mirror(mm, sub),
        },
    }
}

/// A mirror structurally fits its shape: one entry per field, each fitting
/// its field declaration.
pub open spec fn wf_mirror(m: SpecMirror, s: SpecShape) -> bool
    decreases m,
{
    &&& m.entries.len() == s.fields.len()
    &&& forall|i: int|
        0 <= i < m.entries.len() ==> wf_entry(#[trigger] m.entries[i], s.fields[i])
}

/// Whether an entry holds no value, recursively.
pub open spec fn spec_entry_empty(e: SpecEntry) -> bool
    decreases e,
{
    match e {
        SpecEntry::Absent => true,
        SpecEntry::Leaf(_) => false,
        SpecEntry::Nested(mm) => spec_mirror_empty(mm),
    }
}

/// Whether a mirror holds no value at all, recursively.
pub open spec fn spec_mirror_empty(m: SpecMirror) -> bool
    decreases m,
{
    forall|i: int| 0 <= i < m.entries.len() ==> spec_entry_empty(#[trigger] m.entries[i])
}

/// The all-absent mirror of a shape: leaf fields and optional nested fields
/// are absent, and a non-optional nested field holds the empty mirror of its
/// nested shape.
pub open spec fn spec_empty_mirror(s: SpecShape) -> SpecMirror
    decreases s, s.fields.len() as int + 1,
{
    SpecMirror { entries: spec_empty_entries(s, s.fields.len() as int) }
}

pub open spec fn spec_empty_entries(s: SpecShape, n: int) -> Seq<SpecEntry>
    decreases s, n,
        via spec_empty_entries_decreases
{
    if n <= 0 {
        Seq::empty()
    } else {
        spec_empty_entries(s, n - 1).push(
            if n - 1 < s.fields.len() {
                spec_empty_entry(s.fields[n - 1])
            } else {
                arbitrary()
            },
        )
    }
}

#[via_fn]
proof fn spec_empty_entries_decreases(s: SpecShape, n: int) {
    broadcast use vstd::seq::axiom_seq_index_decreases;

    if n > 0 && n - 1 < s.fields.len() {
        assert(decreases_to!(s => s.fields));
        assert(decreases_to!(s.fields => s.fields[n - 1]));
    }
}

/// The empty mirror has one entry per field, each the field's empty entry.
pub broadcast proof fn lemma_spec_empty_mirror(s: SpecShape)
    ensures
        (#[trigger] spec_empty_mirror(s)).entries.len() == s.fields.len(),
        forall|i: int|
            #![trigger spec_empty_mirror(s).entries[i]]
            #![trigger s.fields[i]]
            0 <= i < s.fields.len() ==> spec_empty_mirror(s).entries[i] == spec_empty_entry(
                s.fields[i],
            ),
{
    lemma_spec_empty_entries(s, s.fields.len() as int);
}

proof fn lemma_spec_empty_entries(s: SpecShape, n: int)
    requires
        0 <= n <= s.fields.len(),
    ensures
        spec_empty_entries(s, n).len() == n,
        forall|i: int|
            0 <= i < n ==> spec_empty_entries(s, n)[i] == spec_empty_entry(#[trigger] s.fields[i]),
    decreases n,
{
    if n > 0 {
        lemma_spec_empty_entries(s, n - 1);
    }
}

pub open spec fn spec_empty_entry(f: SpecField) -> SpecEntry
    decreases f,
{
    match f.kind {
        SpecFieldKind::Leaf(_) => SpecEntry::Absent,
        SpecFieldKind::Nested(sub) => if f.optional {
            SpecEntry::Absent
        } else {
            SpecEntry::Nested(spec_empty_mirror(sub))
        },
    }
}

/// The mirror holding every declared static default: a leaf field with a
/// declared default is present with it, a nested field holds its nested
/// defaults (an optional nested field only when those are not empty), and
/// everything else is absent.
pub open spec fn spec_defaults(s: SpecShape) -> SpecMirror
    decreases s, s.fields.len() as int + 1,
{
    SpecMirror { entries: spec_default_entries(s, s.fields.len() as int) }
}

pub open spec fn spec_default_entries(s: SpecShape, n: int) -> Seq<SpecEntry>
    decreases s, n,
        via spec_default_entries_decreases
{
    if n <= 0 {
        Seq::empty()
    } else {
        spec_default_entries(s, n - 1).push(
            if n - 1 < s.fields.len() {
                spec_default_entry(s.fields[n - 1])
            } else {
                arbitrary()
            },
        )
    }
}

#[via_fn]
proof fn spec_default_entries_decreases(s: SpecShape, n: int) {
    broadcast use vstd::seq::axiom_seq_index_decreases;

    if n > 0 && n - 1 < s.fields.len() {
        assert(decreases_to!(s => s.fields));
        assert(decreases_to!(s.fields => s.fields[n - 1]));
    }
}

/// The defaults mirror has one entry per field, each the field's default
/// entry.
pub broadcast proof fn lemma_spec_defaults(s: SpecShape)
    ensures
        (#[trigger] spec_defaults(s)).entries.len() == s.fields.len(),
        forall|i: int|
            #![trigger spec_defaults(s).entries[i]]
            #![trigger s.fields[i]]
            0 <= i < s.fields.len() ==> spec_defaults(s).entries[i] == spec_default_entry(
                s.fields[i],
            ),
{
    lemma_spec_default_entries(s, s.fields.len() as int);
}

proof fn lemma_spec_default_entries(s: SpecShape, n: int)
    requires
        0 <= n <= s.fields.len(),
    ensures
        spec_default_entries(s, n).len() == n,
        forall|i: int|
            0 <= i < n ==> spec_default_entries(s, n)[i] == spec_default_entry(
                #[trigger] s.fields[i],
            ),
    decreases n,
{
    if n > 0 {
        lemma_spec_default_entries(s, n - 1);
    }
}

pub open spec fn spec_default_entry(f: SpecField) -> SpecEntry
    decreases f,
{
    match f.kind {
        SpecFieldKind::Leaf(_) => match f.default {
            Some(v) => SpecEntry::Leaf(v),
            None => SpecEntry::Absent,
        },
        SpecFieldKind::Nested(sub) => {
            let d = spec_defaults(sub);
            if f.optional && spec_mirror_empty(d) {
                SpecEntry::Absent
            } else {
                SpecEntry::Nested(d)
            }
        },
    }
}

/// Whether any field of the shape, recursively, declares a static default.
pub open spec fn spec_has_default(s: SpecShape) -> bool
    decreases s,
{
    exists|i: int| 0 <= i < s.fields.len() && spec_field_has_default(#[trigger] s.fields[i])
}

pub open spec fn spec_field_has_default(f: SpecField) -> bool
    decreases f,
{
    match f.kind {
        SpecFieldKind::Leaf(_) => f.default is Some,
        SpecFieldKind::Nested(sub) => spec_has_default(sub),
    }
}

impl Mirror {
    /// The empty mirror of a shape: every field absent. This never carries
    /// the shape's declared defaults; see [`Mirror::defaults`] for those.
    pub fn new_empty(shape: &Shape) -> (m: Mirror)
        ensures
            m@ == spec_empty_mirror(shape@),
        decreases *shape,
    {
        proof {
            lemma_shape_view(*shape);
        }
        let n = shape.fields.len();
        let mut entries: Vec<Entry> = Vec::new();
        let mut i: usize = 0;
        while i < n
            invariant
                n == shape.fields@.len(),
                i <= n,
                entries@.len() == i as int,
                forall|j: int|
                    0 <= j < i as int ==> entry_view(#[trigger] entries@[j]) == spec_empty_entry(
                        shape@.fields[j],
                    ),
            decreases n - i,
        {
            proof {
                lemma_shape_view(*shape);
            }
            let e = match &shape.fields[i].kind {
                FieldKind::Leaf(_) => Entry::Absent,
                FieldKind::Nested(sub) => {
                    if shape.fields[i].optional {
                        Entry::Absent
                    } else {
                        proof {
                            broadcast use vstd::std_specs::vec::axiom_vec_decreases_to_view;
                            broadcast use vstd::seq::axiom_seq_index_decreases;

                            assert(decreases_to!(*shape => shape.fields));
                            assert(decreases_to!(shape.fields => shape.fields@));
                            assert(decreases_to!(shape.fields@ => shape.fields@[i as int]));
                        }
                        Entry::Nested(Box::new(Mirror::new_empty(sub)))
                    }
                },
            };
            entries.push(e);
            i = i + 1;
        }
        let m = Mirror { entries };
        proof {
            lemma_mirror_view(m);
            lemma_spec_empty_mirror(shape@);
            assert(m@.entries =~= spec_empty_mirror(shape@).entries);
        }
        m
    }

    /// The mirror holding every static default the shape declares, and
    /// nothing else.
    pub fn defaults(shape: &Shape) -> (m: Mirror)
        ensures
            m@ == spec_defaults(shape@),
        decreases *shape,
    {
        proof {
            lemma_shape_view(*shape);
        }
        let n = shape.fields.len();
        let mut entries: Vec<Entry> = Vec::new();
        let mut i: usize = 0;
        while i < n
            invariant
                n == shape.fields@.len(),
                i <= n,
                entries@.len() == i as int,
                forall|j: int|
                    0 <= j < i as int ==> entry_view(#[trigger] entries@[j]) == spec_default_entry(
                        shape@.fields[j],
                    ),
            decreases n - i,
        {
            proof {
                lemma_shape_view(*shape);
            }
            let f = &shape.fields[i];
            let e = match &f.kind {
                FieldKind::Leaf(_) => match &f.default {
                    Some(v) => Entry::Leaf(v.duplicate()),
                    None => Entry::Absent,
                },
                FieldKind::Nested(sub) => {
                    proof {
                        broadcast use vstd::std_specs::vec::axiom_vec_decreases_to_view;
                        broadcast use vstd::seq::axiom_seq_index_decreases;

                        assert(decreases_to!(*shape => shape.fields));
                        assert(decreases_to!(shape.fields => shape.fields@));
                        assert(decreases_to!(shape.fields@ => shape.fields@[i as int]));
                    }
                    let d = Mirror::defaults(sub);
                    if f.optional && d.is_empty() {
                        Entry::Absent
                    } else {
                        Entry::Nested(Box::new(d))
                    }
                },
            };
            entries.push(e);
            i = i + 1;
        }
        let m = Mirror { entries };
        proof {
            lemma_mirror_view(m);
            lemma_spec_defaults(shape@);
            assert(m@.entries =~= spec_defaults(shape@).entries);
        }
        m
    }

    /// Decides whether this mirror structurally fits the given shape: one
    /// entry per field, each absent or holding a value of the field's
    /// declared type, nested mirrors fitting their nested shapes. Lets a
    /// caller with hand-built state establish what the engine operations
    /// expect.
    pub fn check(&self, shape: &Shape) -> (r: bool)
        ensures
            r == wf_mirror(self@, shape@),
        decreases *self,
    {
        proof {
            lemma_shape_view(*shape);
            lemma_mirror_view(*self);
        }
        let n = shape.fields.len();
        if self.entries.len() != n {
            return false;
        }
        let mut i: usize = 0;
        while i < n
            invariant
                n == shape.fields@.len(),
                n == self.entries@.len(),
                i <= n,
                forall|j: int|
                    0 <= j < i as int ==> wf_entry(#[trigger] self@.entries[j], shape@.fields[j]),
            decreases n - i,
        {
            proof {
                lemma_shape_view(*shape);
                lemma_mirror_view(*self);
            }
            let ok = match (&self.entries[i], &shape.fields[i].kind) {
                (Entry::Absent, FieldKind::Leaf(_)) => true,
                (Entry::Leaf(v), FieldKind::Leaf(ty)) => crate::value::value_matches(v, *ty),
                (Entry::Nested(_), FieldKind::Leaf(_)) => false,
                (Entry::Absent, FieldKind::Nested(_)) => shape.fields[i].optional,
                (Entry::Leaf(_), FieldKind::Nested(_)) => false,
                (Entry::Nested(mm), FieldKind::Nested(sub)) => {
                    proof {
                        broadcast use vstd::std_specs::vec::axiom_vec_decreases_to_view;
                        broadcast use vstd::seq::axiom_seq_index_decreases;

                        assert(decreases_to!(*self => self.entries));
                        assert(decreases_to!(self.entries => self.entries@));
                        assert(decreases_to!(self.entries@ => self.entries@[i as int]));
                    }
                    mm.check(sub)
                },
            };
            if !ok {
                return false;
            }
            i = i + 1;
        }
        true
    }

    /// A deep copy whose model is the same as this one's.
    pub fn duplicate(&self) -> (r: Mirror)
        ensures
            r@ == self@,
        decreases *self,
    {
        proof {
            lemma_mirror_view(*self);
        }
        let n = self.entries.len();
        let mut entries: Vec<Entry> = Vec::new();
        let mut i: usize = 0;
        while i < n
            invariant
                n == self.entries@.len(),
                i <= n,
                entries@.len() == i as int,
                forall|j: int|
                    0 <= j < i as int ==> entry_view(#[trigger] entries@[j]) == self@.entries[j],
            decreases n - i,
        {
            proof {
                lemma_mirror_view(*self);
            }
            let e = match &self.entries[i] {
                Entry::Absent => Entry::Absent,
                Entry::Leaf(v) => Entry::Leaf(v.duplicate()),
                Entry::Nested(sub) => {
                    proof {
                        broadcast use vstd::std_specs::vec::axiom_vec_decreases_to_view;
                        broadcast use vstd::seq::axiom_seq_index_decreases;

                        assert(decreases_to!(*self => self.entries));
                        assert(decreases_to!(self.entries => self.entries@));
                        assert(decreases_to!(self.entries@ => self.entries@[i as int]));
                    }
                    Entry::Nested(Box::new(sub.duplicate()))
                },
            };
            entries.push(e);
            i = i + 1;
        }
        let m = Mirror { entries };
        proof {
            lemma_mirror_view(m);
            assert(m@.entries =~= self@.entries);
        }
        m
    }

    /// Whether this mirror holds no value at all, recursively: a nested
    /// mirror counts as absent only when it is itself empty.
    pub fn is_empty(&self) -> (r: bool)
        ensures
            r == spec_mirror_empty(self@),
        decreases *self,
    {
        proof {
            lemma_mirror_view(*self);
        }
        let n = self.entries.len();
        let mut i: usize = 0;
        while i < n
            invariant
                n == self.entries@.len(),
                i <= n,
                forall|j: int| 0 <= j < i as int ==> spec_entry_empty(#[trigger] self@.entries[j]),
            decreases n - i,
        {
            proof {
                lemma_mirror_view(*self);
            }
            match &self.entries[i] {
                Entry::Absent => {},
                Entry::Leaf(_) => {
                    return false;
                },
                Entry::Nested(sub) => {
                    proof {
                        broadcast use vstd::std_specs::vec::axiom_vec_decreases_to_view;
                        broadcast use vstd::seq::axiom_seq_index_decreases;

                        assert(decreases_to!(*self => self.entries));
                        assert(decreases_to!(self.entries => self.entries@));
                        assert(decreases_to!(self.entries@ => self.entries@[i as int]));
                    }
                    if !sub.is_empty() {
                        return false;
                    }
                },
            }
            i = i + 1;
        }
        true
    }
}

/// The empty mirror of a shape fits the shape.
pub broadcast proof fn lemma_empty_mirror_wf(s: SpecShape)
    ensures
        #[trigger] wf_mirror(spec_empty_mirror(s), s),
    decreases s,
{
    lemma_spec_empty_mirror(s);
    assert forall|i: int| 0 <= i < s.fields.len() implies wf_entry(
        #[trigger] spec_empty_mirror(s).entries[i],
        s.fields[i],
    ) by {
        lemma_spec_empty_mirror(s);
        match s.fields[i].kind {
            SpecFieldKind::Leaf(_) => {},
            SpecFieldKind::Nested(sub) => {
                if !s.fields[i].optional {
                    lemma_empty_mirror_wf(sub);
                }
            },
        }
    }
}

/// The defaults mirror of a well-formed shape fits the shape.
pub broadcast proof fn lemma_defaults_wf(s: SpecShape)
    requires
        wf_shape(s),
    ensures
        #[trigger] wf_mirror(spec_defaults(s), s),
    decreases s,
{
    lemma_spec_defaults(s);
    assert forall|i: int| 0 <= i < s.fields.len() implies wf_entry(
        #[trigger] spec_defaults(s).entries[i],
        s.fields[i],
    ) by {
        lemma_spec_defaults(s);
        assert(wf_field(s.fields[i]));
        match s.fields[i].kind {
            SpecFieldKind::Leaf(_) => {},
            SpecFieldKind::Nested(sub) => {
                lemma_defaults_wf(sub);
            },
        }
    }
}

/// The defaults mirror is empty exactly when no field of the shape,
/// recursively, declares a static default.
pub proof fn lemma_defaults_empty_iff(s: SpecShape)
    ensures
        spec_mirror_empty(spec_defaults(s)) <==> !spec_has_default(s),
    decreases s,
{
    lemma_spec_defaults(s);
    assert forall|i: int| 0 <= i < s.fields.len() implies (spec_entry_empty(
        #[trigger] spec_defaults(s).entries[i],
    ) <==> !spec_field_has_default(s.fields[i])) by {
        lemma_spec_defaults(s);
        match s.fields[i].kind {
            SpecFieldKind::Leaf(_) => {},
            SpecFieldKind::Nested(sub) => {
                lemma_defaults_empty_iff(sub);
            },
        }
    }
    if spec_has_default(s) {
        let i = choose|i: int|
            0 <= i < s.fields.len() && spec_field_has_default(#[trigger] s.fields[i]);
        assert(!spec_entry_empty(spec_defaults(s).entries[i]));
    }
}

} // verus!
