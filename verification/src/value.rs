//! The scalar and collection values a configuration field can hold, and the
//! semantic types a field descriptor can declare for them.

use vstd::prelude::*;

verus! {

/// The semantic type of a single scalar (non-collection) value.
#[derive(Debug, Clone, Copy, PartialEq, Eq)]
pub enum AtomTy {
    Str,
    Int,
    Bool,
}

/// The semantic type a leaf field declares: one scalar, or a list of scalars.
#[derive(Debug, Clone, Copy, PartialEq, Eq)]
pub enum Ty {
    Atom(AtomTy),
    List(AtomTy),
}

/// One scalar value.
#[derive(Debug, Clone, PartialEq, Eq)]
pub enum Atom {
    Str(String),
    Int(i64),
    Bool(bool),
}

/// One value a leaf field can hold: a scalar, or a list of scalars.
#[derive(Debug, Clone, PartialEq, Eq)]
pub enum FieldValue {
    Atom(Atom),
    List(Vec<Atom>),
}

/// Mathematical model of an [`Atom`].
#[verifier::ext_equal]
pub enum SpecAtom {
    Str(Seq<char>),
    Int(int),
    Bool(bool),
}

/// Mathematical model of a [`FieldValue`].
#[verifier::ext_equal]
pub enum SpecValue {
    Atom(SpecAtom),
    List(Seq<SpecAtom>),
}

impl View for Atom {
    type V = SpecAtom;

    open spec fn view(&self) -> SpecAtom {
        match *self {
            Atom::Str(s) => SpecAtom::Str(s@),
            Atom::Int(i) => SpecAtom::Int(i as int),
            Atom::Bool(b) => SpecAtom::Bool(b),
        }
    }
}

impl View for FieldValue {
    type V = SpecValue;

    open spec fn view(&self) -> SpecValue {
        match *self {
            FieldValue::Atom(a) => SpecValue::Atom(a@),
            FieldValue::List(l) => SpecValue::List(Seq::new(l@.len(), |i: int| l@[i]@)),
        }
    }
}

/// Whether a scalar model value is of the given scalar type.
pub open spec fn spec_atom_matches(a: SpecAtom, ty: AtomTy) -> bool {
    match a {
        SpecAtom::Str(_) => ty is Str,
        SpecAtom::Int(i) => ty is Int && i64::MIN <= i <= i64::MAX,
        SpecAtom::Bool(_) => ty is Bool,
    }
}

/// Whether a model value is of the given leaf type.
pub open spec fn spec_value_matches(v: SpecValue, ty: Ty) -> bool {
    match v {
        SpecValue::Atom(a) => ty matches Ty::Atom(at) && spec_atom_matches(a, at),
        SpecValue::List(l) => ty matches Ty::List(at) && forall|i: int|
            0 <= i < l.len() ==> spec_atom_matches(#[trigger] l[i], at),
    }
}

/// Whether a scalar value is of the given scalar type.
pub fn atom_matches(a: &Atom, ty: AtomTy) -> (r: bool)
    ensures
        r == spec_atom_matches(a@, ty),
{
    match a {
        Atom::Str(_) => matches!(ty, AtomTy::Str),
        Atom::Int(_) => matches!(ty, AtomTy::Int),
        Atom::Bool(_) => matches!(ty, AtomTy::Bool),
    }
}

/// Whether a value is of the given leaf type.
pub fn value_matches(v: &FieldValue, ty: Ty) -> (r: bool)
    ensures
        r == spec_value_matches(v@, ty),
{
    match v {
        FieldValue::Atom(a) => {
            proof {
                assert(v@ == SpecValue::Atom(a@));
            }
            match ty {
                Ty::Atom(at) => {
                    let r = atom_matches(a, at);
                    proof {
                        assert(r == spec_atom_matches(a@, at));
                        assert(spec_atom_matches(a@, at) == spec_value_matches(v@, ty));
                    }
                    r
                },
                Ty::List(_) => false,
            }
        },
        FieldValue::List(l) => match ty {
            Ty::Atom(_) => false,
            Ty::List(at) => {
                let mut i: usize = 0;
                let mut ok = true;
                while i < l.len()
                    invariant
                        i <= l@.len(),
                        ok == forall|j: int|
                            0 <= j < i as int ==> spec_atom_matches(#[trigger] l@[j]@, at),
                    decreases l@.len() - i,
                {
                    if !atom_matches(&l[i], at) {
                        ok = false;
                    }
                    i = i + 1;
                }
                proof {
                    assert(forall|j: int| 0 <= j < l@.len() ==> #[trigger] v@->List_0[j] == l@[j]@);
                    assert(forall|j: int| 0 <= j < l@.len() ==> #[trigger] l@[j]@ == v@->List_0[j]);
                }
                ok
            },
        },
    }
}

impl Atom {
    /// A deep copy whose model is the same as this one's.
    pub fn duplicate(&self) -> (r: Atom)
        ensures
            r@ == self@,
    {
        match self {
            Atom::Str(s) => Atom::Str(clone_string(s)),
            Atom::Int(i) => Atom::Int(*i),
            Atom::Bool(b) => Atom::Bool(*b),
        }
    }
}

impl FieldValue {
    /// A deep copy whose model is the same as this one's.
    pub fn duplicate(&self) -> (r: FieldValue)
        ensures
            r@ == self@,
    {
        match self {
            FieldValue::Atom(a) => FieldValue::Atom(a.duplicate()),
            FieldValue::List(l) => {
                let mut out: Vec<Atom> = Vec::new();
                let mut i: usize = 0;
                while i < l.len()
                    invariant
                        i <= l@.len(),
                        out@.len() == i as int,
                        forall|j: int| 0 <= j < i as int ==> out@[j]@ == l@[j]@,
                    decreases l@.len() - i,
                {
                    out.push(l[i].duplicate());
                    i = i + 1;
                }
                let r = FieldValue::List(out);
                proof {
                    assert(r@ =~= self@);
                }
                r
            },
        }
    }
}

/// A copy of a string with the same characters.
pub fn clone_string(s: &String) -> (r: String)
    ensures
        r@ == s@,
{
    String::from_str(s.as_str())
}

} // verus!
