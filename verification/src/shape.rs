//! The static description of a configuration shape: an ordered table of field
//! descriptors, consulted by every engine operation.
//!
//! A shape is fixed at definition time. Case conventions for field names are
//! also applied at definition time: `name` holds the field's effective
//! (possibly renamed) identifier, and `env_name` holds the base segment used
//! to derive the field's environment key (conventionally the
//! screaming-snake-case form of the declared or renamed identifier, see
//! [`crate::inflect::Inflection`]).

use vstd::prelude::*;

use crate::value::SpecValue;
use crate::value::Ty;
use crate::value::FieldValue;
use crate::value::spec_value_matches;

verus! {

/// How two values of one field are merged: the default (a present incoming
/// value replaces the current one) or list append.
#[derive(Debug, Clone, Copy, PartialEq, Eq)]
pub enum MergePolicy {
    Replace,
    Append,
}

/// How an environment string is parsed for one field: the scalar type's
/// standard reading, or a comma-separated list.
#[derive(Debug, Clone, Copy, PartialEq, Eq)]
pub enum ParsePolicy {
    Standard,
    CommaSeparated,
}

/// What a field holds: a leaf of a declared type, or a nested shape.
#[derive(Debug, PartialEq)]
pub enum FieldKind {
    Leaf(Ty),
    Nested(Box<Shape>),
}

/// The static declaration of one field of a configuration shape.
#[derive(Debug, PartialEq)]
pub struct FieldDesc {
    /// The field's effective name: identifies it in serialized text and in
    /// reported field paths.
    pub name: String,
    /// The base segment of the field's derived environment key.
    pub env_name: String,
    /// Whether the field's final type permits absence.
    pub optional: bool,
    /// The static default value, if one is declared (leaf fields only).
    pub default: Option<FieldValue>,
    /// An explicit environment-key format overriding the derived one. A
    /// `{}` substitution point, if present, is filled with the effective
    /// prefix; without one the key is this literal.
    pub env: Option<String>,
    /// Whether the field is excluded from environment binding.
    pub skip_env: bool,
    /// For a nested field: derive environment keys without an extra segment
    /// for this field.
    pub flatten: bool,
    /// The field's merge policy.
    pub merge: MergePolicy,
    /// The field's environment-string parse policy.
    pub parse: ParsePolicy,
    /// Leaf type or nested shape.
    pub kind: FieldKind,
}

/// The static declaration of a configuration shape.
#[derive(Debug, PartialEq)]
pub struct Shape {
    pub fields: Vec<FieldDesc>,
    /// The environment-prefix format for this shape. A `{}` substitution
    /// point, if present, is filled with the inherited prefix; without one
    /// the prefix is this literal. Absent means "inherit the prefix as is".
    pub env_prefix: Option<String>,
    /// Exclude every field of this shape from environment binding, except
    /// fields that declare an explicit environment key.
    pub skip_env: bool,
    /// Ignore unknown fields when reading serialized text, instead of
    /// rejecting them.
    pub allow_unknown: bool,
}

/// Mathematical model of a [`FieldKind`].
#[verifier::ext_equal]
pub enum SpecFieldKind {
    Leaf(Ty),
    Nested(SpecShape),
}

/// Mathematical model of a [`FieldDesc`].
#[verifier::ext_equal]
pub struct SpecField {
    pub name: Seq<char>,
    pub env_name: Seq<char>,
    pub optional: bool,
    pub default: Option<SpecValue>,
    pub env: Option<Seq<char>>,
    pub skip_env: bool,
    pub flatten: bool,
    pub merge: MergePolicy,
    pub parse: ParsePolicy,
    pub kind: SpecFieldKind,
}

/// Mathematical model of a [`Shape`].
#[verifier::ext_equal]
pub struct SpecShape {
    pub fields: Seq<SpecField>,
    pub env_prefix: Option<Seq<char>>,
    pub skip_env: bool,
    pub allow_unknown: bool,
}

pub open spec fn field_view(f: FieldDesc) -> SpecField
    decreases f,
{
    SpecField {
        name: f.name@,
        env_name: f.env_name@,
        optional: f.optional,
        default: match f.default {
            Some(v) => Some(v@),
            None => None,
        },
        env: match f.env {
            Some(e) => Some(e@),
            None => None,
        },
        skip_env: f.skip_env,
        flatten: f.flatten,
        merge: f.merge,
        parse: f.parse,
        kind: match f.kind {
            FieldKind::Leaf(ty) => SpecFieldKind::Leaf(ty),
            FieldKind::Nested(b) => SpecFieldKind::Nested(shape_view(*b)),
        },
    }
}

pub open spec fn fields_view(s: Shape, n: int) -> Seq<SpecField>
    decreases s, n,
        via fields_view_decreases
{
    if n <= 0 {
        Seq::empty()
    } else {
        fields_view(s, n - 1).push(
            if n - 1 < s.fields@.len() {
                field_view(s.fields@[n - 1])
            } else {
                arbitrary()
            },
        )
    }
}

#[via_fn]
proof fn fields_view_decreases(s: Shape, n: int) {
    broadcast use vstd::std_specs::vec::axiom_vec_decreases_to_view;
    broadcast use vstd::seq::axiom_seq_index_decreases;

    if n > 0 && n - 1 < s.fields@.len() {
        assert(decreases_to!(s => s.fields));
        assert(decreases_to!(s.fields => s.fields@));
        assert(decreases_to!(s.fields@ => s.fields@[n - 1]));
    }
}

pub open spec fn shape_view(s: Shape) -> SpecShape
    decreases s, s.fields@.len() as int + 1,
{
    SpecShape {
        fields: fields_view(s, s.fields@.len() as int),
        env_prefix: match s.env_prefix {
            Some(p) => Some(p@),
            None => None,
        },
        skip_env: s.skip_env,
        allow_unknown: s.allow_unknown,
    }
}

impl View for FieldDesc {
    type V = SpecField;

    open spec fn view(&self) -> SpecField {
        field_view(*self)
    }
}

impl View for Shape {
    type V = SpecShape;

    open spec fn view(&self) -> SpecShape {
        shape_view(*self)
    }
}

/// The model of a shape has one field model per declared field, in order.
pub broadcast proof fn lemma_shape_view(s: Shape)
    ensures
        (#[trigger] shape_view(s)).fields.len() == s.fields@.len(),
        forall|i: int|
            #![trigger shape_view(s).fields[i]]
            #![trigger s.fields@[i]]
            0 <= i < s.fields@.len() ==> shape_view(s).fields[i] == field_view(s.fields@[i]),
{
    lemma_fields_view(s, s.fields@.len() as int);
}

proof fn lemma_fields_view(s: Shape, n: int)
    requires
        0 <= n <= s.fields@.len(),
    ensures
        fields_view(s, n).len() == n,
        forall|i: int| 0 <= i < n ==> fields_view(s, n)[i] == field_view(#[trigger] s.fields@[i]),
    decreases n,
{
    if n > 0 {
        lemma_fields_view(s, n - 1);
    }
}

/// A field declaration is well formed: no conflicting environment
/// declarations, defaults only on leaf fields and of the declared type,
/// flattening only on nested fields, and any nested shape well formed.
pub open spec fn wf_field(f: SpecField) -> bool
    decreases f,
{
    &&& !(f.skip_env && f.env is Some)
    &&& match f.kind {
        SpecFieldKind::Leaf(ty) => {
            &&& !f.flatten
            &&& (f.default matches Some(v) ==> spec_value_matches(v, ty))
        },
        SpecFieldKind::Nested(sub) => {
            &&& f.default is None
            &&& wf_shape(sub)
        },
    }
}

/// A shape declaration is well formed: no conflicting environment
/// declarations at the shape level, pairwise distinct field names, and every
/// field well formed.
pub open spec fn wf_shape(s: SpecShape) -> bool
    decreases s,
{
    &&& !(s.skip_env && s.env_prefix is Some)
    &&& forall|i: int, j: int|
        0 <= i < j < s.fields.len() ==> (#[trigger] s.fields[i]).name != (
        #[trigger] s.fields[j]).name
    &&& forall|i: int| 0 <= i < s.fields.len() ==> wf_field(#[trigger] s.fields[i])
}

impl Shape {
    /// Decides whether this shape declaration is well formed. Conflicting
    /// declarations (an explicit environment key together with environment
    /// exclusion, on a field or on the shape) are static definition errors,
    /// reported here before any binding is attempted.
    pub fn check(&self) -> (r: bool)
        ensures
            r == wf_shape(self@),
        decreases *self,
    {
        proof {
            lemma_shape_view(*self);
        }
        if self.skip_env && self.env_prefix.is_some() {
            return false;
        }
        let n = self.fields.len();
        let mut i: usize = 0;
        while i < n
            invariant
                n == self.fields@.len(),
                i <= n,
                forall|a: int, b: int|
                    0 <= a < b < i as int ==> (#[trigger] self@.fields[a]).name != (
                    #[trigger] self@.fields[b]).name,
                forall|a: int| 0 <= a < i as int ==> wf_field(#[trigger] self@.fields[a]),
            decreases n - i,
        {
            proof {
                lemma_shape_view(*self);
            }
            let f = &self.fields[i];
            if f.skip_env && f.env.is_some() {
                return false;
            }
            match &f.kind {
                FieldKind::Leaf(ty) => {
                    if f.flatten {
                        return false;
                    }
                    if let Some(d) = &f.default {
                        if !crate::value::value_matches(d, *ty) {
                            return false;
                        }
                    }
                },
                FieldKind::Nested(sub) => {
                    if f.default.is_some() {
                        return false;
                    }
                    proof {
                        broadcast use vstd::std_specs::vec::axiom_vec_decreases_to_view;
                        broadcast use vstd::seq::axiom_seq_index_decreases;

                        assert(decreases_to!(*self => self.fields));
                        assert(decreases_to!(self.fields => self.fields@));
                        assert(decreases_to!(self.fields@ => self.fields@[i as int]));
                    }
                    if !sub.check() {
                        return false;
                    }
                },
            }
            let mut j: usize = 0;
            while j < i
                invariant
                    n == self.fields@.len(),
                    j <= i < n,
                    forall|b: int|
                        0 <= b < j as int ==> (#[trigger] self@.fields[b]).name
                            != self@.fields[i as int].name,
                decreases i - j,
            {
                proof {
                    lemma_shape_view(*self);
                }
                if crate::util::str_eq(self.fields[j].name.as_str(), self.fields[i].name.as_str())
                {
                    return false;
                }
                j = j + 1;
            }
            i = i + 1;
        }
        true
    }
}

} // verus!
