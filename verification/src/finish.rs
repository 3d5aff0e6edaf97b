//! The completeness checker and the finalizer: reporting every required
//! field still absent from a mirror, and converting a complete mirror into
//! the strict configuration value.
//!
//! An absent optional nested field, or a present but empty one, contributes
//! no missing properties and finalizes to an absent nested configuration.

use vstd::prelude::*;

use crate::error::FromPartialError;
use crate::mirror::Entry;
use crate::mirror::Mirror;
use crate::mirror::SpecEntry;
use crate::mirror::SpecMirror;
use crate::mirror::lemma_mirror_view;
use crate::mirror::spec_mirror_empty;
use crate::mirror::wf_entry;
use crate::mirror::wf_mirror;
use crate::shape::FieldKind;
use crate::shape::Shape;
use crate::shape::SpecField;
use crate::shape::SpecFieldKind;
use crate::shape::SpecShape;
use crate::shape::lemma_shape_view;
use crate::shape::wf_field;
use crate::shape::wf_shape;
use crate::util::join_path;
use crate::util::spec_dotted;
use crate::value::SpecValue;
use crate::value::FieldValue;
use crate::value::clone_string;

verus! {

/// The characters of each reported path, as a sequence of sequences.
pub open spec fn paths_view(v: Seq<String>) -> Seq<Seq<char>> {
    crate::util::strings_view(v)
}

/// Each path of a nested report, prefixed with the enclosing field's name.
pub open spec fn spec_prefixed(name: Seq<char>, paths: Seq<Seq<char>>) -> Seq<Seq<char>> {
    paths.map_values(|p: Seq<char>| spec_dotted(name, p))
}

/// The missing-property paths one field contributes: a required leaf that is
/// absent reports its own name; a nested field reports its nested mirror's
/// missing paths below its name, except an optional nested field whose
/// mirror is absent or empty, which reports nothing. Optional leaf fields
/// are never reported.
pub open spec fn spec_missing_field(f: SpecField, e: SpecEntry) -> Seq<Seq<char>>
    decreases f,
{
    match f.kind {
        SpecFieldKind::Leaf(_) => if !f.optional && e is Absent {
            seq![f.name]
        } else {
            Seq::empty()
        },
        SpecFieldKind::Nested(sub) => match e {
            SpecEntry::Nested(mm) => if f.optional && spec_mirror_empty(mm) {
                Seq::empty()
            } else {
                spec_prefixed(f.name, spec_missing(sub, mm))
            },
            _ => Seq::empty(),
        },
    }
}

pub open spec fn spec_missing_upto(s: SpecShape, m: SpecMirror, n: int) -> Seq<Seq<char>>
    decreases s, n,
        via spec_missing_upto_decreases
{
    if n <= 0 {
        Seq::empty()
    } else {
        spec_missing_upto(s, m, n - 1) + (
        if n - 1 < s.fields.len() && n - 1 < m.entries.len() {
            spec_missing_field(s.fields[n - 1], m.entries[n - 1])
        } else {
            Seq::empty()
        })
    }
}

#[via_fn]
proof fn spec_missing_upto_decreases(s: SpecShape, m: SpecMirror, n: int) {
    broadcast use vstd::seq::axiom_seq_index_decreases;

    if n > 0 && n - 1 < s.fields.len() {
        assert(decreases_to!(s => s.fields));
        assert(decreases_to!(s.fields => s.fields[n - 1]));
    }
}

/// The full dotted paths of every required field absent from the mirror, in
/// field declaration order, depth first.
pub open spec fn spec_missing(s: SpecShape, m: SpecMirror) -> Seq<Seq<char>>
    decreases s, s.fields.len() as int + 1,
{
    spec_missing_upto(s, m, s.fields.len() as int)
}

/// One step of the field-by-field missing report: the report over the first
/// `i + 1` fields is the report over the first `i`, followed by field `i`'s
/// contribution.
proof fn lemma_missing_step(s: SpecShape, m: SpecMirror, i: int)
    requires
        0 <= i < s.fields.len(),
        i < m.entries.len(),
    ensures
        spec_missing_upto(s, m, i + 1) == spec_missing_upto(s, m, i) + spec_missing_field(
            s.fields[i],
            m.entries[i],
        ),
{
}

/// A field that contributes nothing leaves the report unchanged.
proof fn lemma_missing_step_none(s: SpecShape, m: SpecMirror, i: int)
    requires
        0 <= i < s.fields.len(),
        i < m.entries.len(),
        spec_missing_field(s.fields[i], m.entries[i]).len() == 0,
    ensures
        spec_missing_upto(s, m, i + 1) == spec_missing_upto(s, m, i),
{
    lemma_missing_step(s, m, i);
    assert(spec_missing_field(s.fields[i], m.entries[i]) =~= Seq::<Seq<char>>::empty());
    assert(spec_missing_upto(s, m, i) + Seq::<Seq<char>>::empty() =~= spec_missing_upto(s, m, i));
}

/// If a mirror has no missing properties, no single field contributes any.
pub proof fn lemma_missing_zero(s: SpecShape, m: SpecMirror, n: int)
    requires
        0 <= n <= s.fields.len(),
        spec_missing_upto(s, m, n).len() == 0,
    ensures
        forall|i: int|
            0 <= i < n && i < m.entries.len() ==> spec_missing_field(
                #[trigger] s.fields[i],
                m.entries[i],
            ).len() == 0,
    decreases n,
{
    if n > 0 {
        lemma_missing_zero(s, m, n - 1);
    }
}

impl Mirror {
    /// The full dotted path of every required field that is still absent
    /// from this mirror, in declaration order, depth first.
    #[verifier::loop_isolation(false)]
    pub fn list_missing_properties(&self, shape: &Shape) -> (r: Vec<String>)
        requires
            wf_shape(shape@),
            wf_mirror(self@, shape@),
        ensures
            paths_view(r@) == spec_missing(shape@, self@),
        decreases *shape,
    {
        let ghost s = shape@;
        let ghost gm = self@;
        proof {
            lemma_shape_view(*shape);
            lemma_mirror_view(*self);
        }
        let n = shape.fields.len();
        let mut out: Vec<String> = Vec::new();
        let mut i: usize = 0;
        while i < n
            invariant
                i <= n,
                paths_view(out@) =~= spec_missing_upto(s, gm, i as int),
            decreases n - i,
        {
            let f = &shape.fields[i];
            let ghost sf = s.fields[i as int];
            let ghost ge = gm.entries[i as int];
            match &f.kind {
                FieldKind::Leaf(_) => {
                    if !f.optional && matches!(self.entries[i], Entry::Absent) {
                        out.push(clone_string(&f.name));
                        proof {
                            lemma_missing_step(s, gm, i as int);
                            assert(spec_missing_field(sf, ge) == seq![sf.name]);
                            assert(paths_view(out@) =~= spec_missing_upto(s, gm, i as int) + seq![
                                sf.name,
                            ]);
                        }
                    } else {
                        proof {
                            assert(spec_missing_field(sf, ge) =~= Seq::<Seq<char>>::empty());
                            lemma_missing_step_none(s, gm, i as int);
                        }
                    }
                },
                FieldKind::Nested(sub) => {
                    match &self.entries[i] {
                        Entry::Nested(mm) => {
                            if f.optional && mm.is_empty() {
                                proof {
                                    assert(spec_missing_field(sf, ge)
                                        =~= Seq::<Seq<char>>::empty());
                                    lemma_missing_step_none(s, gm, i as int);
                                }
                            } else {
                                proof {
                                    broadcast use
                                        vstd::std_specs::vec::axiom_vec_decreases_to_view,
                                        vstd::seq::axiom_seq_index_decreases;

                                    assert(decreases_to!(*shape => shape.fields));
                                    assert(decreases_to!(shape.fields => shape.fields@));
                                    assert(decreases_to!(shape.fields@ => shape.fields@[
                                        i as int]));
                                }
                                let subs = mm.list_missing_properties(sub);
                                let ghost subspec = spec_missing(sf.kind->Nested_0, ge->Nested_0);
                                let mut j: usize = 0;
                                while j < subs.len()
                                    invariant
                                        j <= subs@.len(),
                                        paths_view(subs@) == subspec,
                                        paths_view(out@) =~= spec_missing_upto(s, gm, i as int)
                                            + spec_prefixed(sf.name, subspec).take(j as int),
                                    decreases subs@.len() - j,
                                {
                                    let ghost prev = out@;
                                    out.push(join_path(f.name.as_str(), subs[j].as_str()));
                                    proof {
                                        let d = spec_dotted(sf.name, subspec[j as int]);
                                        let a = spec_missing_upto(s, gm, i as int);
                                        let t = spec_prefixed(sf.name, subspec);
                                        assert(subspec[j as int] == subs@[j as int]@);
                                        assert(out@ == prev.push(out@.last()));
                                        assert(paths_view(out@) =~= paths_view(prev).push(d));
                                        assert(t.take(j + 1) =~= t.take(j as int).push(d));
                                        assert((a + t.take(j as int)).push(d) =~= a + t.take(
                                            j as int,
                                        ).push(d));
                                        assert(paths_view(out@) == a + t.take(j + 1));
                                    }
                                    j = j + 1;
                                }
                                proof {
                                    assert(spec_prefixed(sf.name, subspec).take(subs@.len() as int)
                                        =~= spec_prefixed(sf.name, subspec));
                                    lemma_missing_step(s, gm, i as int);
                                    assert(spec_missing_field(sf, ge) == spec_prefixed(
                                        sf.name,
                                        subspec,
                                    ));
                                    assert(paths_view(out@) == spec_missing_upto(s, gm, i + 1));
                                }
                            }
                        },
                        _ => {
                            proof {
                                assert(spec_missing_field(sf, ge) =~= Seq::<Seq<char>>::empty());
                                lemma_missing_step_none(s, gm, i as int);
                            }
                        },
                    }
                },
            }
            i = i + 1;
        }
        out
    }
}

/// One field of the strict configuration value.
#[derive(Debug, PartialEq)]
pub enum ConfEntry {
    /// A required leaf's value.
    Required(FieldValue),
    /// An optional leaf's value, absent when no source supplied one.
    Optional(Option<FieldValue>),
    /// A required nested configuration.
    Nested(Box<Conf>),
    /// An optional nested configuration, absent when no source supplied any
    /// of its fields.
    OptionalNested(Option<Box<Conf>>),
}

/// The strict configuration value a complete mirror finalizes to: one entry
/// per field, in declaration order.
#[derive(Debug, PartialEq)]
pub struct Conf {
    pub entries: Vec<ConfEntry>,
}

/// Mathematical model of a [`ConfEntry`].
#[verifier::ext_equal]
pub enum SpecConfEntry {
    Required(SpecValue),
    Optional(Option<SpecValue>),
    Nested(SpecConf),
    OptionalNested(Option<SpecConf>),
}

/// Mathematical model of a [`Conf`].
#[verifier::ext_equal]
pub struct SpecConf {
    pub entries: Seq<SpecConfEntry>,
}

pub open spec fn conf_entry_view(e: ConfEntry) -> SpecConfEntry
    decreases e,
{
    match e {
        ConfEntry::Required(v) => SpecConfEntry::Required(v@),
        ConfEntry::Optional(o) => SpecConfEntry::Optional(
            match o {
                Some(v) => Some(v@),
                None => None,
            },
        ),
        ConfEntry::Nested(c) => SpecConfEntry::Nested(conf_view(*c)),
        ConfEntry::OptionalNested(o) => SpecConfEntry::OptionalNested(
            match o {
                Some(c) => Some(conf_view(*c)),
                None => None,
            },
        ),
    }
}

pub open spec fn conf_entries_view(c: Conf, n: int) -> Seq<SpecConfEntry>
    decreases c, n,
        via conf_entries_view_decreases
{
    if n <= 0 {
        Seq::empty()
    } else {
        conf_entries_view(c, n - 1).push(
            if n - 1 < c.entries@.len() {
                conf_entry_view(c.entries@[n - 1])
            } else {
                arbitrary()
            },
        )
    }
}

#[via_fn]
proof fn conf_entries_view_decreases(c: Conf, n: int) {
    broadcast use vstd::std_specs::vec::axiom_vec_decreases_to_view;
    broadcast use vstd::seq::axiom_seq_index_decreases;

    if n > 0 && n - 1 < c.entries@.len() {
        assert(decreases_to!(c => c.entries));
        assert(decreases_to!(c.entries => c.entries@));
        assert(decreases_to!(c.entries@ => c.entries@[n - 1]));
    }
}

pub open spec fn conf_view(c: Conf) -> SpecConf
    decreases c, c.entries@.len() as int + 1,
{
    SpecConf { entries: conf_entries_view(c, c.entries@.len() as int) }
}

impl View for ConfEntry {
    type V = SpecConfEntry;

    open spec fn view(&self) -> SpecConfEntry {
        conf_entry_view(*self)
    }
}

impl View for Conf {
    type V = SpecConf;

    open spec fn view(&self) -> SpecConf {
        conf_view(*self)
    }
}

/// The model of a configuration has one entry model per entry, in order.
pub broadcast proof fn lemma_conf_view(c: Conf)
    ensures
        (#[trigger] conf_view(c)).entries.len() == c.entries@.len(),
        forall|i: int|
            #![trigger conf_view(c).entries[i]]
            #![trigger c.entries@[i]]
            0 <= i < c.entries@.len() ==> conf_view(c).entries[i] == conf_entry_view(
                c.entries@[i],
            ),
{
    lemma_conf_entries_view(c, c.entries@.len() as int);
}

proof fn lemma_conf_entries_view(c: Conf, n: int)
    requires
        0 <= n <= c.entries@.len(),
    ensures
        conf_entries_view(c, n).len() == n,
        forall|i: int|
            0 <= i < n ==> conf_entries_view(c, n)[i] == conf_entry_view(
                #[trigger] c.entries@[i],
            ),
    decreases n,
{
    if n > 0 {
        lemma_conf_entries_view(c, n - 1);
    }
}

/// What one complete field finalizes to: a leaf unwraps its value (an
/// optional leaf to an absent value when no source supplied one), a nested
/// field finalizes its mirror recursively, and an optional nested field
/// whose mirror is absent or empty finalizes to an absent configuration.
pub open spec fn spec_finalize_entry(f: SpecField, e: SpecEntry) -> SpecConfEntry
    decreases f,
{
    match f.kind {
        SpecFieldKind::Leaf(_) => {
            if f.optional {
                SpecConfEntry::Optional(
                    match e {
                        SpecEntry::Leaf(v) => Some(v),
                        _ => None,
                    },
                )
            } else {
                match e {
                    SpecEntry::Leaf(v) => SpecConfEntry::Required(v),
                    _ => arbitrary(),
                }
            }
        },
        SpecFieldKind::Nested(sub) => {
            if f.optional {
                SpecConfEntry::OptionalNested(
                    match e {
                        SpecEntry::Nested(mm) => if spec_mirror_empty(mm) {
                            None
                        } else {
                            Some(spec_finalize(sub, mm))
                        },
                        _ => None,
                    },
                )
            } else {
                match e {
                    SpecEntry::Nested(mm) => SpecConfEntry::Nested(spec_finalize(sub, mm)),
                    _ => arbitrary(),
                }
            }
        },
    }
}

pub open spec fn spec_finalize_entries(s: SpecShape, m: SpecMirror, n: int) -> Seq<SpecConfEntry>
    decreases s, n,
        via spec_finalize_entries_decreases
{
    if n <= 0 {
        Seq::empty()
    } else {
        spec_finalize_entries(s, m, n - 1).push(
            if n - 1 < s.fields.len() && n - 1 < m.entries.len() {
                spec_finalize_entry(s.fields[n - 1], m.entries[n - 1])
            } else {
                arbitrary()
            },
        )
    }
}

#[via_fn]
proof fn spec_finalize_entries_decreases(s: SpecShape, m: SpecMirror, n: int) {
    broadcast use vstd::seq::axiom_seq_index_decreases;

    if n > 0 && n - 1 < s.fields.len() {
        assert(decreases_to!(s => s.fields));
        assert(decreases_to!(s.fields => s.fields[n - 1]));
    }
}

/// The strict configuration a complete mirror finalizes to.
pub open spec fn spec_finalize(s: SpecShape, m: SpecMirror) -> SpecConf
    decreases s, s.fields.len() as int + 1,
{
    SpecConf { entries: spec_finalize_entries(s, m, s.fields.len() as int) }
}

/// The finalized configuration has one entry per field, each the field's
/// finalized entry.
pub broadcast proof fn lemma_spec_finalize(s: SpecShape, m: SpecMirror)
    ensures
        (#[trigger] spec_finalize(s, m)).entries.len() == s.fields.len(),
        forall|i: int|
            #![trigger spec_finalize(s, m).entries[i]]
            #![trigger s.fields[i]]
            0 <= i < s.fields.len() && i < m.entries.len() ==> spec_finalize(s, m).entries[i]
                == spec_finalize_entry(s.fields[i], m.entries[i]),
{
    lemma_spec_finalize_entries(s, m, s.fields.len() as int);
}

proof fn lemma_spec_finalize_entries(s: SpecShape, m: SpecMirror, n: int)
    requires
        0 <= n <= s.fields.len(),
    ensures
        spec_finalize_entries(s, m, n).len() == n,
        forall|i: int|
            0 <= i < n && i < m.entries.len() ==> spec_finalize_entries(s, m, n)[i]
                == spec_finalize_entry(#[trigger] s.fields[i], m.entries[i]),
    decreases n,
{
    if n > 0 {
        lemma_spec_finalize_entries(s, m, n - 1);
    }
}

impl Conf {
    /// Converts a complete mirror into the strict configuration value. If
    /// any required field is absent, fails with the full list of missing
    /// field paths, in discovery order.
    #[verifier::loop_isolation(false)]
    pub fn from_partial(shape: &Shape, partial: Mirror) -> (r: Result<Conf, FromPartialError>)
        requires
            wf_shape(shape@),
            wf_mirror(partial@, shape@),
        ensures
            match r {
                Ok(c) => spec_missing(shape@, partial@).len() == 0 && c@ == spec_finalize(
                    shape@,
                    partial@,
                ),
                Err(e) => spec_missing(shape@, partial@).len() > 0 && paths_view(
                    e.missing_properties@,
                ) == spec_missing(shape@, partial@),
            },
        decreases *shape,
    {
        let ghost s = shape@;
        let ghost gm = partial@;
        proof {
            lemma_shape_view(*shape);
            lemma_mirror_view(partial);
            lemma_spec_finalize(s, gm);
        }
        let missing = partial.list_missing_properties(shape);
        if missing.len() > 0 {
            return Err(FromPartialError { missing_properties: missing });
        }
        proof {
            lemma_missing_zero(s, gm, s.fields.len() as int);
        }
        let n = shape.fields.len();
        let mut rest = partial.entries;
        let ghost pents = rest@;
        let mut out: Vec<ConfEntry> = Vec::new();
        let mut i: usize = 0;
        while i < n
            invariant
                i <= n,
                rest@ =~= pents.subrange(i as int, n as int),
                out@.len() == i as int,
                forall|j: int|
                    0 <= j < i as int ==> (#[trigger] out@[j])@ == spec_finalize_entry(
                        s.fields[j],
                        gm.entries[j],
                    ),
            decreases n - i,
        {
            let f = &shape.fields[i];
            let ghost sf = s.fields[i as int];
            let ghost ge = gm.entries[i as int];
            let e = rest.remove(0);
            proof {
                assert(e@ == ge);
                assert(wf_field(sf));
                assert(wf_entry(ge, sf));
                assert(spec_missing_field(sf, ge).len() == 0);
            }
            let ce = match &f.kind {
                FieldKind::Leaf(_) => {
                    if f.optional {
                        match e {
                            Entry::Leaf(v) => ConfEntry::Optional(Some(v)),
                            _ => ConfEntry::Optional(None),
                        }
                    } else {
                        match e {
                            Entry::Leaf(v) => ConfEntry::Required(v),
                            _ => {
                                proof {
                                    assert(ge is Absent);
                                    assert(spec_missing_field(sf, ge).len() == 1);
                                    assert(false);
                                }
                                unreached()
                            },
                        }
                    }
                },
                FieldKind::Nested(sub) => {
                    proof {
                        broadcast use
                            vstd::std_specs::vec::axiom_vec_decreases_to_view,
                            vstd::seq::axiom_seq_index_decreases;

                        assert(decreases_to!(*shape => shape.fields));
                        assert(decreases_to!(shape.fields => shape.fields@));
                        assert(decreases_to!(shape.fields@ => shape.fields@[i as int]));
                    }
                    match e {
                        Entry::Nested(mm) => {
                            if f.optional && mm.is_empty() {
                                ConfEntry::OptionalNested(None)
                            } else {
                                proof {
                                    assert(spec_prefixed(
                                        sf.name,
                                        spec_missing(sf.kind->Nested_0, ge->Nested_0),
                                    ).len() == 0);
                                    assert(spec_missing(sf.kind->Nested_0, ge->Nested_0).len()
                                        == 0);
                                }
                                match Conf::from_partial(sub, *mm) {
                                    Ok(c) => {
                                        if f.optional {
                                            ConfEntry::OptionalNested(Some(Box::new(c)))
                                        } else {
                                            ConfEntry::Nested(Box::new(c))
                                        }
                                    },
                                    Err(_) => {
                                        proof {
                                            assert(false);
                                        }
                                        unreached()
                                    },
                                }
                            }
                        },
                        _ => {
                            proof {
                                assert(sf.optional);
                            }
                            ConfEntry::OptionalNested(None)
                        },
                    }
                },
            };
            out.push(ce);
            i = i + 1;
        }
        let c = Conf { entries: out };
        proof {
            lemma_conf_view(c);
            assert(c@.entries =~= spec_finalize(s, gm).entries);
        }
        Ok(c)
    }
}

} // verus!
