//! The structured form a mirror serializes to and deserializes from: a
//! neutral tree of nulls, booleans, integers, strings, lists and key/value
//! maps, the common shape of the supported text formats.
//!
//! Serialization omits absent leaf fields and empty nested mirrors entirely.
//! Deserialization rejects unknown keys unless the shape opts into ignoring
//! them, reads a missing nested key as the empty nested mirror, and reads
//! `null` as absence only for optional fields.

use vstd::prelude::*;

use crate::mirror::Entry;
use crate::mirror::Mirror;
use crate::mirror::SpecEntry;
use crate::mirror::SpecMirror;
use crate::mirror::lemma_mirror_view;
use crate::mirror::spec_empty_entry;
use crate::mirror::spec_mirror_empty;
use crate::mirror::wf_entry;
use crate::mirror::wf_mirror;
use crate::shape::FieldKind;
use crate::shape::Shape;
use crate::shape::SpecField;
use crate::shape::SpecFieldKind;
use crate::shape::SpecShape;
use crate::shape::lemma_shape_view;
use crate::shape::wf_field;
use crate::shape::wf_shape;
use crate::util::str_eq;
use crate::value::Atom;
use crate::value::AtomTy;
use crate::value::SpecAtom;
use crate::value::SpecValue;
use crate::value::Ty;
use crate::value::FieldValue;
use crate::value::clone_string;
use crate::value::spec_value_matches;

verus! {

/// A neutral structured value: what any of the supported text formats
/// parses into, and what a mirror serializes to.
#[derive(Debug, PartialEq)]
pub enum Raw {
    Null,
    Bool(bool),
    Int(i64),
    Str(String),
    List(Vec<Raw>),
    Object(Vec<(String, Raw)>),
}

/// Mathematical model of a [`Raw`].
#[verifier::ext_equal]
pub enum SpecRaw {
    Null,
    Bool(bool),
    Int(int),
    Str(Seq<char>),
    List(Seq<SpecRaw>),
    Object(Seq<(Seq<char>, SpecRaw)>),
}

pub open spec fn raw_view(r: Raw) -> SpecRaw
    decreases r, 1int,
{
    match r {
        Raw::Null => SpecRaw::Null,
        Raw::Bool(b) => SpecRaw::Bool(b),
        Raw::Int(i) => SpecRaw::Int(i as int),
        Raw::Str(s) => SpecRaw::Str(s@),
        Raw::List(l) => SpecRaw::List(raws_view(l, l@.len() as int)),
        Raw::Object(m) => SpecRaw::Object(pairs_view(m, m@.len() as int)),
    }
}

pub open spec fn raws_view(l: Vec<Raw>, n: int) -> Seq<SpecRaw>
    decreases l, n,
        via raws_view_decreases
{
    if n <= 0 {
        Seq::empty()
    } else {
        raws_view(l, n - 1).push(
            if n - 1 < l@.len() {
                raw_view(l@[n - 1])
            } else {
                arbitrary()
            },
        )
    }
}

#[via_fn]
proof fn raws_view_decreases(l: Vec<Raw>, n: int) {
    broadcast use vstd::std_specs::vec::axiom_vec_decreases_to_view;
    broadcast use vstd::seq::axiom_seq_index_decreases;

    if n > 0 && n - 1 < l@.len() {
        assert(decreases_to!(l => l@));
        assert(decreases_to!(l@ => l@[n - 1]));
    }
}

pub open spec fn pairs_view(m: Vec<(String, Raw)>, n: int) -> Seq<(Seq<char>, SpecRaw)>
    decreases m, n,
        via pairs_view_decreases
{
    if n <= 0 {
        Seq::empty()
    } else {
        pairs_view(m, n - 1).push(
            if n - 1 < m@.len() {
                (m@[n - 1].0@, raw_view(m@[n - 1].1))
            } else {
                arbitrary()
            },
        )
    }
}

#[via_fn]
proof fn pairs_view_decreases(m: Vec<(String, Raw)>, n: int) {
    broadcast use vstd::std_specs::vec::axiom_vec_decreases_to_view;
    broadcast use vstd::seq::axiom_seq_index_decreases;

    if n > 0 && n - 1 < m@.len() {
        assert(decreases_to!(m => m@));
        assert(decreases_to!(m@ => m@[n - 1]));
        assert(decreases_to!(m@[n - 1] => m@[n - 1].1));
    }
}

impl View for Raw {
    type V = SpecRaw;

    open spec fn view(&self) -> SpecRaw {
        raw_view(*self)
    }
}

/// The model of a list of raw values has one element model each, in order.
pub broadcast proof fn lemma_raws_view(l: Vec<Raw>)
    ensures
        (#[trigger] raws_view(l, l@.len() as int)).len() == l@.len(),
        forall|i: int|
            #![trigger raws_view(l, l@.len() as int)[i]]
            #![trigger l@[i]]
            0 <= i < l@.len() ==> raws_view(l, l@.len() as int)[i] == raw_view(l@[i]),
{
    lemma_raws_view_upto(l, l@.len() as int);
}

proof fn lemma_raws_view_upto(l: Vec<Raw>, n: int)
    requires
        0 <= n <= l@.len(),
    ensures
        raws_view(l, n).len() == n,
        forall|i: int| 0 <= i < n ==> raws_view(l, n)[i] == raw_view(#[trigger] l@[i]),
    decreases n,
{
    if n > 0 {
        lemma_raws_view_upto(l, n - 1);
    }
}

/// The model of a list of key/value pairs has one pair model each, in
/// order.
pub broadcast proof fn lemma_pairs_view(m: Vec<(String, Raw)>)
    ensures
        (#[trigger] pairs_view(m, m@.len() as int)).len() == m@.len(),
        forall|i: int|
            #![trigger pairs_view(m, m@.len() as int)[i]]
            #![trigger m@[i]]
            0 <= i < m@.len() ==> pairs_view(m, m@.len() as int)[i] == (
            m@[i].0@,
            raw_view(m@[i].1),
            ),
{
    lemma_pairs_view_upto(m, m@.len() as int);
}

proof fn lemma_pairs_view_upto(m: Vec<(String, Raw)>, n: int)
    requires
        0 <= n <= m@.len(),
    ensures
        pairs_view(m, n).len() == n,
        forall|i: int|
            0 <= i < n ==> pairs_view(m, n)[i] == ((#[trigger] m@[i]).0@, raw_view(m@[i].1)),
    decreases n,
{
    if n > 0 {
        lemma_pairs_view_upto(m, n - 1);
    }
}

/// The raw form of one scalar.
pub open spec fn spec_atom_to_raw(a: SpecAtom) -> SpecRaw {
    match a {
        SpecAtom::Str(s) => SpecRaw::Str(s),
        SpecAtom::Int(i) => SpecRaw::Int(i),
        SpecAtom::Bool(b) => SpecRaw::Bool(b),
    }
}

/// The raw form of one leaf value.
pub open spec fn spec_value_to_raw(v: SpecValue) -> SpecRaw {
    match v {
        SpecValue::Atom(a) => spec_atom_to_raw(a),
        SpecValue::List(l) => SpecRaw::List(l.map_values(|a: SpecAtom| spec_atom_to_raw(a))),
    }
}

/// The key/value pairs one field contributes to the serialized form: none
/// for an absent leaf or an absent or empty nested mirror, else one pair
/// under the field's name.
pub open spec fn spec_to_raw_field(f: SpecField, e: SpecEntry) -> Seq<(Seq<char>, SpecRaw)>
    decreases f,
{
    match f.kind {
        SpecFieldKind::Leaf(_) => match e {
            SpecEntry::Leaf(v) => seq![(f.name, spec_value_to_raw(v))],
            _ => Seq::empty(),
        },
        SpecFieldKind::Nested(sub) => match e {
            SpecEntry::Nested(mm) => if spec_mirror_empty(mm) {
                Seq::empty()
            } else {
                seq![(f.name, spec_to_raw(sub, mm))]
            },
            _ => Seq::empty(),
        },
    }
}

pub open spec fn spec_to_raw_fields(s: SpecShape, m: SpecMirror, n: int) -> Seq<
    (Seq<char>, SpecRaw),
>
    decreases s, n,
        via spec_to_raw_fields_decreases
{
    if n <= 0 {
        Seq::empty()
    } else {
        spec_to_raw_fields(s, m, n - 1) + (
        if n - 1 < s.fields.len() && n - 1 < m.entries.len() {
            spec_to_raw_field(s.fields[n - 1], m.entries[n - 1])
        } else {
            Seq::empty()
        })
    }
}

#[via_fn]
proof fn spec_to_raw_fields_decreases(s: SpecShape, m: SpecMirror, n: int) {
    broadcast use vstd::seq::axiom_seq_index_decreases;

    if n > 0 && n - 1 < s.fields.len() {
        assert(decreases_to!(s => s.fields));
        assert(decreases_to!(s.fields => s.fields[n - 1]));
    }
}

/// The serialized form of a mirror: a map with one pair per present field,
/// in declaration order; absent leaf fields and empty nested mirrors are
/// omitted entirely.
pub open spec fn spec_to_raw(s: SpecShape, m: SpecMirror) -> SpecRaw
    decreases s, s.fields.len() as int + 1,
{
    SpecRaw::Object(spec_to_raw_fields(s, m, s.fields.len() as int))
}

proof fn lemma_to_raw_fields_step(s: SpecShape, m: SpecMirror, i: int)
    requires
        0 <= i < s.fields.len(),
        i < m.entries.len(),
    ensures
        spec_to_raw_fields(s, m, i + 1) == spec_to_raw_fields(s, m, i) + spec_to_raw_field(
            s.fields[i],
            m.entries[i],
        ),
{
}

impl Mirror {
    /// The serialized form of this mirror: a map holding every present
    /// field under its name; absent leaf fields and empty nested mirrors
    /// are omitted, so the empty mirror serializes to the empty map.
    #[verifier::loop_isolation(false)]
    pub fn to_raw(&self, shape: &Shape) -> (r: Raw)
        requires
            wf_shape(shape@),
            wf_mirror(self@, shape@),
        ensures
            r@ == spec_to_raw(shape@, self@),
        decreases *shape,
    {
        let ghost s = shape@;
        let ghost gm = self@;
        proof {
            lemma_shape_view(*shape);
            lemma_mirror_view(*self);
        }
        let n = shape.fields.len();
        let mut pairs: Vec<(String, Raw)> = Vec::new();
        let mut i: usize = 0;
        while i < n
            invariant
                i <= n,
                pairs_view(pairs, pairs@.len() as int) =~= spec_to_raw_fields(s, gm, i as int),
            decreases n - i,
        {
            proof {
                lemma_pairs_view(pairs);
            }
            let f = &shape.fields[i];
            let ghost sf = s.fields[i as int];
            let ghost ge = gm.entries[i as int];
            let ghost prev = pairs@;
            match &self.entries[i] {
                Entry::Absent => {
                    proof {
                        lemma_to_raw_fields_step(s, gm, i as int);
                        assert(spec_to_raw_fields(s, gm, i as int) + Seq::<
                            (Seq<char>, SpecRaw),
                        >::empty() =~= spec_to_raw_fields(s, gm, i as int));
                    }
                },
                Entry::Leaf(v) => {
                    pairs.push((clone_string(&f.name), value_to_raw(v)));
                    proof {
                        lemma_pairs_view(pairs);
                        lemma_to_raw_fields_step(s, gm, i as int);
                        assert(pairs_view(pairs, pairs@.len() as int) =~= spec_to_raw_fields(
                            s,
                            gm,
                            i + 1,
                        ));
                    }
                },
                Entry::Nested(mm) => {
                    proof {
                        broadcast use
                            vstd::std_specs::vec::axiom_vec_decreases_to_view,
                            vstd::seq::axiom_seq_index_decreases;

                        assert(decreases_to!(*shape => shape.fields));
                        assert(decreases_to!(shape.fields => shape.fields@));
                        assert(decreases_to!(shape.fields@ => shape.fields@[i as int]));
                    }
                    let sub = match &f.kind {
                        FieldKind::Nested(sub) => sub,
                        FieldKind::Leaf(_) => {
                            proof {
                                assert(false);
                            }
                            unreached()
                        },
                    };
                    if mm.is_empty() {
                        proof {
                            lemma_to_raw_fields_step(s, gm, i as int);
                            assert(spec_to_raw_fields(s, gm, i as int) + Seq::<
                                (Seq<char>, SpecRaw),
                            >::empty() =~= spec_to_raw_fields(s, gm, i as int));
                        }
                    } else {
                        let sr = mm.to_raw(sub);
                        pairs.push((clone_string(&f.name), sr));
                        proof {
                            lemma_pairs_view(pairs);
                            lemma_to_raw_fields_step(s, gm, i as int);
                            assert(pairs_view(pairs, pairs@.len() as int) =~= spec_to_raw_fields(
                                s,
                                gm,
                                i + 1,
                            ));
                        }
                    }
                },
            }
            i = i + 1;
        }
        let r = Raw::Object(pairs);
        proof {
            assert(r@ == SpecRaw::Object(pairs_view(pairs, pairs@.len() as int)));
            assert(pairs_view(pairs, pairs@.len() as int) =~= spec_to_raw_fields(s, gm, n as int));
        }
        r
    }
}

/// Serializes one leaf value.
fn value_to_raw(v: &FieldValue) -> (r: Raw)
    ensures
        r@ == spec_value_to_raw(v@),
{
    match v {
        FieldValue::Atom(a) => atom_to_raw(a),
        FieldValue::List(l) => {
            let mut out: Vec<Raw> = Vec::new();
            let mut i: usize = 0;
            while i < l.len()
                invariant
                    i <= l@.len(),
                    out@.len() == i as int,
                    forall|j: int|
                        0 <= j < i as int ==> raw_view(#[trigger] out@[j]) == spec_atom_to_raw(
                            l@[j]@,
                        ),
                decreases l@.len() - i,
            {
                out.push(atom_to_raw(&l[i]));
                i = i + 1;
            }
            let r = Raw::List(out);
            proof {
                lemma_raws_view(out);
                assert(r@->List_0 =~= spec_value_to_raw(v@)->List_0);
            }
            r
        },
    }
}

/// Serializes one scalar.
fn atom_to_raw(a: &Atom) -> (r: Raw)
    ensures
        r@ == spec_atom_to_raw(a@),
{
    match a {
        Atom::Str(s) => Raw::Str(clone_string(s)),
        Atom::Int(i) => Raw::Int(*i),
        Atom::Bool(b) => Raw::Bool(*b),
    }
}

/// The scalar a raw value reads as, for the given scalar type.
pub open spec fn spec_raw_to_atom(rv: SpecRaw, at: AtomTy) -> Option<SpecAtom> {
    match (rv, at) {
        (SpecRaw::Str(s), AtomTy::Str) => Some(SpecAtom::Str(s)),
        (SpecRaw::Int(i), AtomTy::Int) => if i64::MIN <= i <= i64::MAX {
            Some(SpecAtom::Int(i))
        } else {
            None
        },
        (SpecRaw::Bool(b), AtomTy::Bool) => Some(SpecAtom::Bool(b)),
        _ => None,
    }
}

/// The leaf value a raw value reads as, for the given leaf type.
pub open spec fn spec_raw_to_value(rv: SpecRaw, ty: Ty) -> Option<SpecValue> {
    match ty {
        Ty::Atom(at) => match spec_raw_to_atom(rv, at) {
            Some(a) => Some(SpecValue::Atom(a)),
            None => None,
        },
        Ty::List(at) => match rv {
            SpecRaw::List(l) => {
                if forall|i: int| 0 <= i < l.len() ==> spec_raw_to_atom(#[trigger] l[i], at) is Some {
                    Some(SpecValue::List(l.map_values(|e: SpecRaw| spec_raw_to_atom(e, at)->Some_0)))
                } else {
                    None
                }
            },
            _ => None,
        },
    }
}

/// The value of the first pair with the given key, if any.
pub open spec fn spec_find_key(pairs: Seq<(Seq<char>, SpecRaw)>, k: Seq<char>) -> Option<SpecRaw>
    decreases pairs.len(),
{
    if pairs.len() == 0 {
        None
    } else if pairs[0].0 == k {
        Some(pairs[0].1)
    } else {
        spec_find_key(pairs.drop_first(), k)
    }
}

proof fn lemma_find_key_scan(pairs: Seq<(Seq<char>, SpecRaw)>, k: Seq<char>, i: int)
    requires
        0 <= i <= pairs.len(),
        forall|j: int| 0 <= j < i ==> (#[trigger] pairs[j]).0 != k,
    ensures
        spec_find_key(pairs, k) == spec_find_key(pairs.skip(i), k),
    decreases i,
{
    if i > 0 {
        lemma_find_key_scan(pairs, k, i - 1);
        assert(pairs.skip(i - 1).drop_first() =~= pairs.skip(i));
        assert(pairs.skip(i - 1)[0] == pairs[i - 1]);
    } else {
        assert(pairs.skip(0) =~= pairs);
    }
}

/// Whether every key of the map names some field of the shape.
pub open spec fn spec_known_keys(s: SpecShape, pairs: Seq<(Seq<char>, SpecRaw)>) -> bool {
    forall|i: int|
        0 <= i < pairs.len() ==> exists|j: int|
            0 <= j < s.fields.len() && (#[trigger] s.fields[j]).name == (#[trigger] pairs[i]).0
}

/// The mirror entry one field reads from a serialized map: a missing key
/// reads as the field's empty entry, `null` as absence (only for an
/// optional field), and a present value through the field's leaf type or
/// nested shape. A value that fits neither reads as nothing.
pub open spec fn spec_of_raw_entry(f: SpecField, pairs: Seq<(Seq<char>, SpecRaw)>) -> Option<
    SpecEntry,
>
    decreases f,
{
    match spec_find_key(pairs, f.name) {
        None => Some(spec_empty_entry(f)),
        Some(rv) => {
            if rv is Null {
                if f.optional {
                    Some(SpecEntry::Absent)
                } else {
                    None
                }
            } else {
                match f.kind {
                    SpecFieldKind::Leaf(ty) => match spec_raw_to_value(rv, ty) {
                        Some(v) => Some(SpecEntry::Leaf(v)),
                        None => None,
                    },
                    SpecFieldKind::Nested(sub) => match spec_of_raw(sub, rv) {
                        Some(mm) => Some(SpecEntry::Nested(mm)),
                        None => None,
                    },
                }
            }
        },
    }
}

pub open spec fn spec_of_raw_entries(
    s: SpecShape,
    pairs: Seq<(Seq<char>, SpecRaw)>,
    n: int,
) -> Option<Seq<SpecEntry>>
    decreases s, n,
        via spec_of_raw_entries_decreases
{
    if n <= 0 {
        Some(Seq::empty())
    } else {
        match spec_of_raw_entries(s, pairs, n - 1) {
            None => None,
            Some(pre) => {
                if n - 1 < s.fields.len() {
                    match spec_of_raw_entry(s.fields[n - 1], pairs) {
                        Some(e) => Some(pre.push(e)),
                        None => None,
                    }
                } else {
                    Some(pre.push(arbitrary()))
                }
            },
        }
    }
}

#[via_fn]
proof fn spec_of_raw_entries_decreases(s: SpecShape, pairs: Seq<(Seq<char>, SpecRaw)>, n: int) {
    broadcast use vstd::seq::axiom_seq_index_decreases;

    if n > 0 && n - 1 < s.fields.len() {
        assert(decreases_to!(s => s.fields));
        assert(decreases_to!(s.fields => s.fields[n - 1]));
    }
}

/// The mirror a raw value reads as for a shape: the value must be a map,
/// its keys must all be known unless the shape ignores unknown ones, and
/// every field reads its entry from the map.
pub open spec fn spec_of_raw(s: SpecShape, r: SpecRaw) -> Option<SpecMirror>
    decreases s, s.fields.len() as int + 1,
{
    match r {
        SpecRaw::Object(pairs) => {
            if !s.allow_unknown && !spec_known_keys(s, pairs) {
                None
            } else {
                match spec_of_raw_entries(s, pairs, s.fields.len() as int) {
                    Some(es) => Some(SpecMirror { entries: es }),
                    None => None,
                }
            }
        },
        _ => None,
    }
}

proof fn lemma_of_raw_entries_none_mono(
    s: SpecShape,
    pairs: Seq<(Seq<char>, SpecRaw)>,
    m: int,
    n: int,
)
    requires
        0 <= m <= n,
        spec_of_raw_entries(s, pairs, m) is None,
    ensures
        spec_of_raw_entries(s, pairs, n) is None,
    decreases n - m,
{
    if n > m {
        lemma_of_raw_entries_none_mono(s, pairs, m, n - 1);
    }
}

/// A successful read of a well-formed shape is well formed.
pub proof fn lemma_of_raw_wf(s: SpecShape, r: SpecRaw)
    requires
        wf_shape(s),
        spec_of_raw(s, r) is Some,
    ensures
        wf_mirror(spec_of_raw(s, r)->Some_0, s),
    decreases s,
{
    let pairs = r->Object_0;
    let mm = spec_of_raw(s, r)->Some_0;
    lemma_of_raw_entries_index(s, pairs, s.fields.len() as int);
    assert forall|i: int| 0 <= i < mm.entries.len() implies wf_entry(
        #[trigger] mm.entries[i],
        s.fields[i],
    ) by {
        assert(wf_field(s.fields[i]));
        lemma_of_raw_entry_wf(s.fields[i], pairs);
    }
}

proof fn lemma_of_raw_entries_index(s: SpecShape, pairs: Seq<(Seq<char>, SpecRaw)>, n: int)
    requires
        0 <= n <= s.fields.len(),
        spec_of_raw_entries(s, pairs, n) is Some,
    ensures
        spec_of_raw_entries(s, pairs, n)->Some_0.len() == n,
        forall|i: int|
            #![trigger s.fields[i]]
            #![trigger spec_of_raw_entries(s, pairs, n)->Some_0[i]]
            0 <= i < n ==> (spec_of_raw_entry(s.fields[i], pairs) matches Some(e)
                && spec_of_raw_entries(s, pairs, n)->Some_0[i] == e),
    decreases n,
{
    if n > 0 {
        lemma_of_raw_entries_index(s, pairs, n - 1);
    }
}

proof fn lemma_of_raw_entry_wf(f: SpecField, pairs: Seq<(Seq<char>, SpecRaw)>)
    requires
        wf_field(f),
        spec_of_raw_entry(f, pairs) is Some,
    ensures
        wf_entry(spec_of_raw_entry(f, pairs)->Some_0, f),
    decreases f,
{
    match spec_find_key(pairs, f.name) {
        None => {
            match f.kind {
                SpecFieldKind::Leaf(_) => {},
                SpecFieldKind::Nested(sub) => {
                    if !f.optional {
                        crate::mirror::lemma_empty_mirror_wf(sub);
                    }
                },
            }
        },
        Some(rv) => {
            if !(rv is Null) {
                match f.kind {
                    SpecFieldKind::Leaf(ty) => {
                        lemma_raw_to_value_matches(rv, ty);
                    },
                    SpecFieldKind::Nested(sub) => {
                        if spec_of_raw(sub, rv) is Some {
                            lemma_of_raw_wf(sub, rv);
                        }
                    },
                }
            }
        },
    }
}

/// What a raw value reads as fits the type it was read for.
proof fn lemma_raw_to_value_matches(rv: SpecRaw, ty: Ty)
    ensures
        spec_raw_to_value(rv, ty) matches Some(v) ==> spec_value_matches(v, ty),
{
}

/// Reads one scalar of the given type out of a raw value.
fn raw_to_atom(rv: &Raw, at: AtomTy) -> (r: Option<Atom>)
    ensures
        match r {
            Some(a) => spec_raw_to_atom(rv@, at) == Some(a@),
            None => spec_raw_to_atom(rv@, at) is None,
        },
{
    match (rv, at) {
        (Raw::Str(s), AtomTy::Str) => Some(Atom::Str(clone_string(s))),
        (Raw::Int(i), AtomTy::Int) => Some(Atom::Int(*i)),
        (Raw::Bool(b), AtomTy::Bool) => Some(Atom::Bool(*b)),
        _ => None,
    }
}

/// Reads one leaf value of the given type out of a raw value.
#[verifier::loop_isolation(false)]
fn raw_to_value(rv: &Raw, ty: Ty) -> (r: Option<FieldValue>)
    ensures
        match r {
            Some(v) => spec_raw_to_value(rv@, ty) == Some(v@),
            None => spec_raw_to_value(rv@, ty) is None,
        },
{
    match ty {
        Ty::Atom(at) => match raw_to_atom(rv, at) {
            Some(a) => Some(FieldValue::Atom(a)),
            None => None,
        },
        Ty::List(at) => match rv {
            Raw::List(l) => {
                proof {
                    lemma_raws_view(*l);
                }
                let ghost sl = rv@->List_0;
                let mut out: Vec<Atom> = Vec::new();
                let mut i: usize = 0;
                while i < l.len()
                    invariant
                        i <= l@.len(),
                        sl.len() == l@.len(),
                        out@.len() == i as int,
                        forall|j: int|
                            0 <= j < i as int ==> spec_raw_to_atom(sl[j], at) == Some(
                                (#[trigger] out@[j])@,
                            ),
                    decreases l@.len() - i,
                {
                    match raw_to_atom(&l[i], at) {
                        Some(a) => {
                            out.push(a);
                        },
                        None => {
                            proof {
                                assert(spec_raw_to_atom(sl[i as int], at) is None);
                            }
                            return None;
                        },
                    }
                    i = i + 1;
                }
                let v = FieldValue::List(out);
                proof {
                    assert forall|j: int| 0 <= j < sl.len() implies spec_raw_to_atom(
                        #[trigger] sl[j],
                        at,
                    ) is Some by {
                        assert(spec_raw_to_atom(sl[j], at) == Some((out@[j])@));
                    }
                    assert(v@->List_0 =~= sl.map_values(
                        |e: SpecRaw| spec_raw_to_atom(e, at)->Some_0,
                    ));
                }
                Some(v)
            },
            _ => None,
        },
    }
}

impl Mirror {
    /// Reads a mirror of a shape out of a serialized raw value: the value
    /// must be a map, unknown keys are rejected unless the shape opts into
    /// ignoring them, a missing key leaves its field empty, and `null`
    /// stands for absence only on optional fields.
    #[verifier::loop_isolation(false)]
    #[verifier::rlimit(60)]
    pub fn from_raw(shape: &Shape, raw: &Raw) -> (r: Result<Mirror, String>)
        requires
            wf_shape(shape@),
        ensures
            match r {
                Ok(m) => spec_of_raw(shape@, raw@) == Some(m@) && wf_mirror(m@, shape@),
                Err(_) => spec_of_raw(shape@, raw@) is None,
            },
        decreases *shape,
    {
        let ghost s = shape@;
        proof {
            lemma_shape_view(*shape);
        }
        let pairs = match raw {
            Raw::Object(pairs) => pairs,
            _ => {
                return Err(String::from_str("expected a map of fields"));
            },
        };
        proof {
            lemma_pairs_view(*pairs);
        }
        let ghost gp = raw@->Object_0;
        let np = pairs.len();
        if !shape.allow_unknown {
            let mut i: usize = 0;
            while i < np
                invariant
                    i <= np,
                    forall|a: int|
                        0 <= a < i as int ==> exists|b: int|
                            0 <= b < s.fields.len() && (#[trigger] s.fields[b]).name == (
                            #[trigger] gp[a]).0,
                decreases np - i,
            {
                let mut known = false;
                let mut j: usize = 0;
                while j < shape.fields.len()
                    invariant
                        j <= shape.fields@.len(),
                        known ==> exists|b: int|
                            0 <= b < s.fields.len() && (#[trigger] s.fields[b]).name == gp[
                                i as int].0,
                        !known ==> forall|b: int|
                            0 <= b < j as int ==> (#[trigger] s.fields[b]).name != gp[i as int].0,
                    decreases shape.fields@.len() - j,
                {
                    if str_eq(shape.fields[j].name.as_str(), pairs[i].0.as_str()) {
                        proof {
                            assert(s.fields[j as int].name == gp[i as int].0);
                        }
                        known = true;
                    }
                    j = j + 1;
                }
                if !known {
                    proof {
                        assert(!spec_known_keys(s, gp)) by {
                            assert(forall|b: int|
                                0 <= b < s.fields.len() ==> (#[trigger] s.fields[b]).name != gp[
                                    i as int].0);
                        }
                    }
                    return Err(String::from_str("unknown field in serialized configuration"));
                }
                i = i + 1;
            }
            proof {
                assert(spec_known_keys(s, gp));
            }
        }
        let n = shape.fields.len();
        let mut entries: Vec<Entry> = Vec::new();
        let mut i: usize = 0;
        while i < n
            invariant
                i <= n,
                entries@.len() == i as int,
                spec_of_raw_entries(s, gp, i as int) matches Some(pre) && pre.len() == i as int
                    && forall|j: int| 0 <= j < i as int ==> pre[j] == (#[trigger] entries@[j])@,
            decreases n - i,
        {
            let f = &shape.fields[i];
            let ghost sf = s.fields[i as int];
            let mut found_at: Option<usize> = None;
            let mut j: usize = 0;
            while j < np
                invariant
                    j <= np,
                    match found_at {
                        Some(k) => k < j && (k as int) < np as int && gp[k as int].0 == sf.name
                            && forall|a: int| 0 <= a < k as int ==> (#[trigger] gp[a]).0
                            != sf.name,
                        None => forall|a: int| 0 <= a < j as int ==> (#[trigger] gp[a]).0
                            != sf.name,
                    },
                decreases np - j,
            {
                if matches!(found_at, None) && str_eq(pairs[j].0.as_str(), f.name.as_str()) {
                    found_at = Some(j);
                }
                j = j + 1;
            }
            let found: Option<&Raw> = match found_at {
                Some(k) => Some(&pairs[k].1),
                None => None,
            };
            proof {
                match found_at {
                    Some(k) => {
                        lemma_find_key_scan(gp, sf.name, k as int);
                        assert(gp.skip(k as int)[0] == gp[k as int]);
                        assert(spec_find_key(gp, sf.name) == Some(gp[k as int].1));
                    },
                    None => {
                        lemma_find_key_scan(gp, sf.name, np as int);
                        assert(gp.skip(np as int).len() == 0);
                        assert(spec_find_key(gp, sf.name) is None);
                    },
                }
            }
            let e: Entry;
            match found {
                None => {
                    match &f.kind {
                        FieldKind::Leaf(_) => {
                            e = Entry::Absent;
                        },
                        FieldKind::Nested(sub) => {
                            if f.optional {
                                e = Entry::Absent;
                            } else {
                                proof {
                                    broadcast use
                                        vstd::std_specs::vec::axiom_vec_decreases_to_view,
                                        vstd::seq::axiom_seq_index_decreases;

                                    assert(decreases_to!(*shape => shape.fields));
                                    assert(decreases_to!(shape.fields => shape.fields@));
                                    assert(decreases_to!(shape.fields@ => shape.fields@[
                                        i as int]));
                                }
                                e = Entry::Nested(Box::new(Mirror::new_empty(sub)));
                            }
                        },
                    }
                },
                Some(rv) => {
                    if matches!(rv, Raw::Null) {
                        if f.optional {
                            e = Entry::Absent;
                        } else {
                            proof {
                                assert(spec_of_raw_entry(sf, gp) is None);
                                lemma_of_raw_entries_none_mono(s, gp, i + 1, n as int);
                            }
                            return Err(
                                String::from_str("null given for a field that is not optional"),
                            );
                        }
                    } else {
                        match &f.kind {
                            FieldKind::Leaf(ty) => {
                                match raw_to_value(rv, *ty) {
                                    Some(v) => {
                                        e = Entry::Leaf(v);
                                    },
                                    None => {
                                        proof {
                                            assert(spec_of_raw_entry(sf, gp) is None);
                                            lemma_of_raw_entries_none_mono(s, gp, i + 1, n as int);
                                        }
                                        return Err(
                                            String::from_str(
                                                "value does not fit the field's declared type",
                                            ),
                                        );
                                    },
                                }
                            },
                            FieldKind::Nested(sub) => {
                                proof {
                                    broadcast use
                                        vstd::std_specs::vec::axiom_vec_decreases_to_view,
                                        vstd::seq::axiom_seq_index_decreases;

                                    assert(decreases_to!(*shape => shape.fields));
                                    assert(decreases_to!(shape.fields => shape.fields@));
                                    assert(decreases_to!(shape.fields@ => shape.fields@[
                                        i as int]));
                                }
                                match Mirror::from_raw(sub, rv) {
                                    Ok(mm) => {
                                        e = Entry::Nested(Box::new(mm));
                                    },
                                    Err(msg) => {
                                        proof {
                                            assert(spec_of_raw_entry(sf, gp) is None);
                                            lemma_of_raw_entries_none_mono(s, gp, i + 1, n as int);
                                        }
                                        return Err(msg);
                                    },
                                }
                            },
                        }
                    }
                },
            }
            entries.push(e);
            i = i + 1;
        }
        let m = Mirror { entries };
        proof {
            lemma_mirror_view(m);
            assert(spec_of_raw_entries(s, gp, n as int) matches Some(pre) && m@.entries =~= pre);
            assert(spec_of_raw(s, raw@) == Some(m@));
            lemma_of_raw_wf(s, raw@);
        }
        Ok(m)
    }
}

} // verus!
