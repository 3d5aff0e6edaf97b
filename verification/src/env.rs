//! The environment binding engine: deriving a mirror purely from an
//! environment-like key/value provider, given the shape's key-naming scheme
//! (prefixes, per-field overrides, nesting flattening).
//!
//! Every key is computed from the shape alone: the effective prefix fills
//! the `{}` substitution point of a declared prefix format (a format without
//! one is a fixed literal), and each field's key is its declared format or
//! the prefix followed by its base segment. A nested field extends the
//! prefix with its own key and a `_` separator, unless flattened.

use vstd::prelude::*;

use crate::error::FromEnvError;
use crate::mirror::Entry;
use crate::mirror::Mirror;
use crate::mirror::SpecEntry;
use crate::mirror::SpecMirror;
use crate::mirror::lemma_mirror_view;
use crate::mirror::spec_mirror_empty;
use crate::mirror::wf_entry;
use crate::mirror::wf_mirror;
use crate::parse::spec_comma_separated;
use crate::parse::spec_parse_atom;
use crate::shape::FieldDesc;
use crate::shape::FieldKind;
use crate::shape::ParsePolicy;
use crate::shape::Shape;
use crate::shape::SpecField;
use crate::shape::SpecFieldKind;
use crate::shape::SpecShape;
use crate::shape::lemma_shape_view;
use crate::shape::wf_field;
use crate::shape::wf_shape;
use crate::util::join_path;
use crate::util::spec_dotted;
use crate::util::str_eq;
use crate::value::Atom;
use crate::value::SpecValue;
use crate::value::Ty;
use crate::value::FieldValue;
use crate::value::clone_string;
use crate::value::spec_value_matches;

verus! {

/// Whether positions `j` and `j + 1` of a string hold a `{}` substitution
/// point.
pub open spec fn spec_pair_at(s: Seq<char>, j: int) -> bool {
    0 <= j < s.len() - 1 && s[j] == '{' && s[j + 1] == '}'
}

/// The position of the first `{}` substitution point, or a negative value
/// if there is none.
pub open spec fn spec_first_subst(s: Seq<char>) -> int
    decreases s.len(),
{
    if s.len() < 2 {
        -1
    } else if s[0] == '{' && s[1] == '}' {
        0
    } else {
        let r = spec_first_subst(s.drop_first());
        if r < 0 {
            -1
        } else {
            r + 1
        }
    }
}

/// Whether a format string holds a `{}` substitution point.
pub open spec fn spec_has_subst(s: Seq<char>) -> bool {
    spec_first_subst(s) >= 0
}

/// The first substitution point, if any, is one, and nothing before it is
/// one.
pub proof fn lemma_first_subst(s: Seq<char>)
    ensures
        spec_first_subst(s) >= 0 ==> spec_pair_at(s, spec_first_subst(s)) && forall|j: int|
            0 <= j < spec_first_subst(s) ==> !spec_pair_at(s, j),
        spec_first_subst(s) < 0 ==> forall|j: int| !spec_pair_at(s, j),
    decreases s.len(),
{
    if s.len() >= 2 && !(s[0] == '{' && s[1] == '}') {
        lemma_first_subst(s.drop_first());
        let r = spec_first_subst(s.drop_first());
        assert forall|j: int| 1 <= j < s.len() - 1 implies (spec_pair_at(s, j) == spec_pair_at(
            s.drop_first(),
            j - 1,
        )) by {
            assert(s.drop_first()[j - 1] == s[j]);
            assert(s.drop_first()[j] == s[j + 1]);
        }
        if r >= 0 {
            assert(spec_pair_at(s, r + 1));
        }
    }
}

/// Whether a format string contains a `{}` substitution point, which an
/// effective prefix would fill.
#[verifier::loop_isolation(false)]
pub fn fmt_has_prefix(fmt: &str) -> (r: bool)
    ensures
        r == spec_has_subst(fmt@),
{
    let len = fmt.unicode_len();
    proof {
        lemma_first_subst(fmt@);
    }
    if len < 2 {
        return false;
    }
    let mut i: usize = 0;
    while i + 1 < len
        invariant
            i < len,
            len == fmt@.len(),
            forall|j: int| 0 <= j < i as int ==> !spec_pair_at(fmt@, j),
        decreases len - i,
    {
        if fmt.get_char(i) == '{' && fmt.get_char(i + 1) == '}' {
            proof {
                assert(spec_pair_at(fmt@, i as int));
            }
            return true;
        }
        proof {
            assert(!spec_pair_at(fmt@, i as int));
        }
        i = i + 1;
    }
    proof {
        assert(forall|j: int| !spec_pair_at(fmt@, j));
    }
    false
}

/// A format with its first substitution point filled by the given text; a
/// format without one stands as it is.
pub open spec fn spec_fill(fmt: Seq<char>, arg: Seq<char>) -> Seq<char> {
    let i = spec_first_subst(fmt);
    if i < 0 {
        fmt
    } else {
        fmt.take(i) + arg + fmt.skip(i + 2)
    }
}

/// Fills the first `{}` substitution point of a format with the given text.
#[verifier::loop_isolation(false)]
pub fn fill_fmt(fmt: &str, arg: &str) -> (r: String)
    ensures
        r@ == spec_fill(fmt@, arg@),
{
    let len = fmt.unicode_len();
    proof {
        lemma_first_subst(fmt@);
    }
    if len < 2 {
        return String::from_str(fmt);
    }
    let mut i: usize = 0;
    while i + 1 < len
        invariant
            i < len,
            forall|j: int| 0 <= j < i as int ==> !spec_pair_at(fmt@, j),
        decreases len - i,
    {
        if fmt.get_char(i) == '{' && fmt.get_char(i + 1) == '}' {
            proof {
                assert(spec_pair_at(fmt@, i as int));
                assert(spec_first_subst(fmt@) == i as int);
            }
            let mut out = String::from_str(fmt.substring_char(0, i));
            out.append(arg);
            out.append(fmt.substring_char(i + 2, len));
            proof {
                assert(out@ =~= spec_fill(fmt@, arg@));
            }
            return out;
        }
        proof {
            assert(!spec_pair_at(fmt@, i as int));
        }
        i = i + 1;
    }
    proof {
        assert(forall|j: int| !spec_pair_at(fmt@, j));
        if spec_first_subst(fmt@) >= 0 {
            assert(spec_pair_at(fmt@, spec_first_subst(fmt@)));
        }
    }
    String::from_str(fmt)
}

/// The effective prefix of a shape: its declared prefix format with any
/// substitution point filled by the inherited prefix; a declared format
/// without one is a fixed literal; no declared format inherits the prefix
/// unchanged.
pub open spec fn spec_container_prefix(s: SpecShape, inherited: Seq<char>) -> Seq<char> {
    match s.env_prefix {
        Some(f) => if spec_has_subst(f) {
            spec_fill(f, inherited)
        } else {
            f
        },
        None => inherited,
    }
}

fn container_prefix(shape: &Shape, inherited: &str) -> (r: String)
    ensures
        r@ == spec_container_prefix(shape@, inherited@),
{
    proof {
        lemma_shape_view(*shape);
    }
    match &shape.env_prefix {
        Some(f) => {
            if fmt_has_prefix(f.as_str()) {
                fill_fmt(f.as_str(), inherited)
            } else {
                clone_string(f)
            }
        },
        None => String::from_str(inherited),
    }
}

/// The environment key of one field: its declared key format with any
/// substitution point filled by the effective prefix (a declared format
/// without one is a fixed literal); with no declared format, the effective
/// prefix followed by the field's base segment, or the prefix alone for a
/// flattened field.
pub open spec fn spec_field_key(f: SpecField, cp: Seq<char>) -> Seq<char> {
    match f.env {
        Some(fmt) => if spec_has_subst(fmt) {
            spec_fill(fmt, cp)
        } else {
            fmt
        },
        None => if f.flatten {
            cp
        } else {
            cp + f.env_name
        },
    }
}

fn field_key(f: &FieldDesc, cp: &str) -> (r: String)
    ensures
        r@ == spec_field_key(f@, cp@),
{
    match &f.env {
        Some(fmt) => {
            if fmt_has_prefix(fmt.as_str()) {
                fill_fmt(fmt.as_str(), cp)
            } else {
                clone_string(fmt)
            }
        },
        None => {
            if f.flatten {
                String::from_str(cp)
            } else {
                let mut k = String::from_str(cp);
                k.append(f.env_name.as_str());
                k
            }
        },
    }
}

/// Whether a field is excluded from environment binding: a shape-level
/// exclusion spares only fields that declare an explicit key; otherwise the
/// field's own declaration decides.
pub open spec fn spec_skip_field(s: SpecShape, f: SpecField) -> bool {
    if s.skip_env {
        f.env is None
    } else {
        f.skip_env
    }
}

/// The prefix handed to a nested shape: the nested field's key, with a `_`
/// separator appended unless it is empty or already ends with one.
pub open spec fn spec_nested_prefix(key: Seq<char>) -> Seq<char> {
    if key.len() > 0 && key.last() != '_' {
        key + seq!['_']
    } else {
        key
    }
}

fn nested_prefix(key: String) -> (r: String)
    ensures
        r@ == spec_nested_prefix(key@),
{
    let len = key.as_str().unicode_len();
    if len == 0 {
        return key;
    }
    let last = key.as_str().get_char(len - 1);
    if last == '_' {
        key
    } else {
        let mut k = key;
        k.append("_");
        proof {
            reveal_strlit("_");
            assert(k@ =~= spec_nested_prefix(key@));
        }
        k
    }
}

/// The value an environment string denotes for one leaf field, under the
/// field's parse policy and declared type. The standard policy reads one
/// scalar; the comma-separated policy reads a list. A policy that does not
/// fit the declared type denotes nothing.
pub open spec fn spec_parse_env_value(f: SpecField, s: Seq<char>) -> Option<SpecValue> {
    match f.kind {
        SpecFieldKind::Leaf(ty) => match f.parse {
            ParsePolicy::Standard => match ty {
                Ty::Atom(at) => match spec_parse_atom(at, s) {
                    Some(a) => Some(SpecValue::Atom(a)),
                    None => None,
                },
                Ty::List(_) => None,
            },
            ParsePolicy::CommaSeparated => match ty {
                Ty::List(at) => match spec_comma_separated(at, s) {
                    Some(l) => Some(SpecValue::List(l)),
                    None => None,
                },
                Ty::Atom(_) => None,
            },
        },
        SpecFieldKind::Nested(_) => None,
    }
}

fn parse_env_value(f: &FieldDesc, s: &str) -> (r: Option<FieldValue>)
    requires
        f@.kind is Leaf,
    ensures
        match r {
            Some(v) => spec_parse_env_value(f@, s@) == Some(v@),
            None => spec_parse_env_value(f@, s@) is None,
        },
{
    let ty = match &f.kind {
        FieldKind::Leaf(ty) => *ty,
        FieldKind::Nested(_) => {
            proof {
                assert(false);
            }
            unreached()
        },
    };
    match f.parse {
        ParsePolicy::Standard => match ty {
            Ty::Atom(at) => match crate::parse::parse_atom(at, s) {
                Some(a) => Some(FieldValue::Atom(a)),
                None => None,
            },
            Ty::List(_) => None,
        },
        ParsePolicy::CommaSeparated => match ty {
            Ty::List(at) => match crate::parse::comma_separated(s, at) {
                Ok(Some(l)) => {
                    let v = FieldValue::List(l);
                    proof {
                        assert(v@->List_0 =~= spec_comma_separated(at, s@)->Some_0);
                    }
                    Some(v)
                },
                Ok(None) => None,
                Err(_) => None,
            },
            Ty::Atom(_) => None,
        },
    }
}

/// A source of environment variables. The model is the mapping of keys the
/// provider will answer with a value; a fallible provider may also fail on
/// any key (for a value that is not valid text, say), and an infallible one
/// never does.
pub trait EnvProvider {
    spec fn env_model(&self) -> Map<Seq<char>, Seq<char>>;

    spec fn fallible(&self) -> bool;

    /// Reads one variable. Absence of the key is a success carrying
    /// nothing.
    fn get(&self, key: &str) -> (r: Result<Option<String>, String>)
        ensures
            match r {
                Ok(Some(v)) => self.env_model().dom().contains(key@) && self.env_model()[key@]
                    == v@,
                Ok(None) => !self.env_model().dom().contains(key@),
                Err(_) => self.fallible(),
            },
    ;
}

/// The value of the first entry with the given key, if any.
pub open spec fn spec_lookup(entries: Seq<(String, String)>, k: Seq<char>) -> Option<Seq<char>>
    decreases entries.len(),
{
    if entries.len() == 0 {
        None
    } else if entries[0].0@ == k {
        Some(entries[0].1@)
    } else {
        spec_lookup(entries.drop_first(), k)
    }
}

proof fn lemma_lookup_scan(entries: Seq<(String, String)>, k: Seq<char>, i: int)
    requires
        0 <= i <= entries.len(),
        forall|j: int| 0 <= j < i ==> (#[trigger] entries[j]).0@ != k,
    ensures
        spec_lookup(entries, k) == spec_lookup(entries.skip(i), k),
    decreases i,
{
    if i > 0 {
        lemma_lookup_scan(entries, k, i - 1);
        assert(entries.skip(i - 1).drop_first() =~= entries.skip(i));
        assert(entries.skip(i - 1)[0] == entries[i - 1]);
    } else {
        assert(entries.skip(0) =~= entries);
    }
}

/// An in-memory environment provider: a list of key/value entries, the
/// first entry with a key answering for it. It never fails.
#[derive(Debug, PartialEq, Eq)]
pub struct MapEnv {
    pub entries: Vec<(String, String)>,
}

impl EnvProvider for MapEnv {
    open spec fn env_model(&self) -> Map<Seq<char>, Seq<char>> {
        Map::new(
            |k: Seq<char>| spec_lookup(self.entries@, k) is Some,
            |k: Seq<char>| spec_lookup(self.entries@, k)->Some_0,
        )
    }

    open spec fn fallible(&self) -> bool {
        false
    }

    #[verifier::loop_isolation(false)]
    fn get(&self, key: &str) -> (r: Result<Option<String>, String>) {
        let n = self.entries.len();
        let mut i: usize = 0;
        while i < n
            invariant
                i <= n,
                forall|j: int| 0 <= j < i as int ==> (#[trigger] self.entries@[j]).0@ != key@,
            decreases n - i,
        {
            if str_eq(self.entries[i].0.as_str(), key) {
                proof {
                    lemma_lookup_scan(self.entries@, key@, i as int);
                    assert(self.entries@.skip(i as int)[0] == self.entries@[i as int]);
                }
                return Ok(Some(clone_string(&self.entries[i].1)));
            }
            i = i + 1;
        }
        proof {
            lemma_lookup_scan(self.entries@, key@, n as int);
            assert(self.entries@.skip(n as int).len() == 0);
        }
        Ok(None)
    }
}

/// An environment binding failure: the key that was read and the dotted
/// path of the field it was read for.
pub struct SpecEnvError {
    pub key: Seq<char>,
    pub field: Seq<char>,
}

/// What binding one field from the environment yields: an absent entry for
/// an excluded field or an absent key, the parsed value for a present key,
/// a recursively bound mirror for a nested field (absent for an optional
/// nested field bound empty), or the first binding failure.
pub open spec fn spec_env_entry(
    f: SpecField,
    env: Map<Seq<char>, Seq<char>>,
    cp: Seq<char>,
    skip: bool,
) -> Result<SpecEntry, SpecEnvError>
    decreases f,
{
    if skip {
        Ok(crate::mirror::spec_empty_entry(f))
    } else {
        match f.kind {
            SpecFieldKind::Leaf(_) => {
                let key = spec_field_key(f, cp);
                if !env.dom().contains(key) {
                    Ok(SpecEntry::Absent)
                } else {
                    match spec_parse_env_value(f, env[key]) {
                        Some(v) => Ok(SpecEntry::Leaf(v)),
                        None => Err(SpecEnvError { key, field: f.name }),
                    }
                }
            },
            SpecFieldKind::Nested(sub) => {
                let key = spec_field_key(f, cp);
                let np = spec_nested_prefix(key);
                match spec_from_env(sub, env, Some(np)) {
                    Ok(mm) => Ok(
                        if f.optional && spec_mirror_empty(mm) {
                            SpecEntry::Absent
                        } else {
                            SpecEntry::Nested(mm)
                        },
                    ),
                    Err(e) => Err(
                        SpecEnvError { key: e.key, field: spec_dotted(f.name, e.field) },
                    ),
                }
            },
        }
    }
}

pub open spec fn spec_env_entries(
    s: SpecShape,
    env: Map<Seq<char>, Seq<char>>,
    cp: Seq<char>,
    n: int,
) -> Result<Seq<SpecEntry>, SpecEnvError>
    decreases s, n,
        via spec_env_entries_decreases
{
    if n <= 0 {
        Ok(Seq::empty())
    } else {
        match spec_env_entries(s, env, cp, n - 1) {
            Err(e) => Err(e),
            Ok(pre) => {
                if n - 1 < s.fields.len() {
                    match spec_env_entry(
                        s.fields[n - 1],
                        env,
                        cp,
                        spec_skip_field(s, s.fields[n - 1]),
                    ) {
                        Ok(e) => Ok(pre.push(e)),
                        Err(e) => Err(e),
                    }
                } else {
                    Ok(pre.push(arbitrary()))
                }
            },
        }
    }
}

#[via_fn]
proof fn spec_env_entries_decreases(
    s: SpecShape,
    env: Map<Seq<char>, Seq<char>>,
    cp: Seq<char>,
    n: int,
) {
    broadcast use vstd::seq::axiom_seq_index_decreases;

    if n > 0 && n - 1 < s.fields.len() {
        assert(decreases_to!(s => s.fields));
        assert(decreases_to!(s.fields => s.fields[n - 1]));
    }
}

/// What binding a whole shape from the environment yields, given the
/// provider's model and an inherited prefix: one entry per field in
/// declaration order, or the first field's binding failure.
pub open spec fn spec_from_env(
    s: SpecShape,
    env: Map<Seq<char>, Seq<char>>,
    prefix: Option<Seq<char>>,
) -> Result<SpecMirror, SpecEnvError>
    decreases s, s.fields.len() as int + 1,
{
    let inherited = match prefix {
        Some(p) => p,
        None => Seq::empty(),
    };
    let cp = spec_container_prefix(s, inherited);
    match spec_env_entries(s, env, cp, s.fields.len() as int) {
        Ok(es) => Ok(SpecMirror { entries: es }),
        Err(e) => Err(e),
    }
}

proof fn lemma_env_entries_err_mono(
    s: SpecShape,
    env: Map<Seq<char>, Seq<char>>,
    cp: Seq<char>,
    m: int,
    n: int,
)
    requires
        0 <= m <= n,
        spec_env_entries(s, env, cp, m) is Err,
    ensures
        spec_env_entries(s, env, cp, n) == spec_env_entries(s, env, cp, m),
    decreases n - m,
{
    if n > m {
        lemma_env_entries_err_mono(s, env, cp, m, n - 1);
    }
}

pub proof fn lemma_env_entries_index(
    s: SpecShape,
    env: Map<Seq<char>, Seq<char>>,
    cp: Seq<char>,
    n: int,
)
    requires
        0 <= n <= s.fields.len(),
        spec_env_entries(s, env, cp, n) is Ok,
    ensures
        spec_env_entries(s, env, cp, n)->Ok_0.len() == n,
        forall|i: int|
            #![trigger s.fields[i]]
            #![trigger spec_env_entries(s, env, cp, n)->Ok_0[i]]
            0 <= i < n ==> (spec_env_entry(s.fields[i], env, cp, spec_skip_field(s, s.fields[i]))
                matches Ok(e) && spec_env_entries(s, env, cp, n)->Ok_0[i] == e),
    decreases n,
{
    if n > 0 {
        lemma_env_entries_index(s, env, cp, n - 1);
    }
}

/// A successful environment binding of a well-formed shape is well formed.
pub proof fn lemma_from_env_wf(
    s: SpecShape,
    env: Map<Seq<char>, Seq<char>>,
    prefix: Option<Seq<char>>,
)
    requires
        wf_shape(s),
        spec_from_env(s, env, prefix) is Ok,
    ensures
        wf_mirror(spec_from_env(s, env, prefix)->Ok_0, s),
    decreases s,
{
    let inherited = match prefix {
        Some(p) => p,
        None => Seq::empty(),
    };
    let cp = spec_container_prefix(s, inherited);
    let mm = spec_from_env(s, env, prefix)->Ok_0;
    lemma_env_entries_index(s, env, cp, s.fields.len() as int);
    assert forall|i: int| 0 <= i < mm.entries.len() implies wf_entry(
        #[trigger] mm.entries[i],
        s.fields[i],
    ) by {
        assert(wf_field(s.fields[i]));
        lemma_env_entry_wf(s.fields[i], env, cp, spec_skip_field(s, s.fields[i]));
    }
}

proof fn lemma_env_entry_wf(
    f: SpecField,
    env: Map<Seq<char>, Seq<char>>,
    cp: Seq<char>,
    skip: bool,
)
    requires
        wf_field(f),
        spec_env_entry(f, env, cp, skip) is Ok,
    ensures
        wf_entry(spec_env_entry(f, env, cp, skip)->Ok_0, f),
    decreases f,
{
    if skip {
        match f.kind {
            SpecFieldKind::Leaf(_) => {},
            SpecFieldKind::Nested(sub) => {
                if !f.optional {
                    crate::mirror::lemma_empty_mirror_wf(sub);
                }
            },
        }
    } else {
        match f.kind {
            SpecFieldKind::Leaf(ty) => {
                let key = spec_field_key(f, cp);
                if env.dom().contains(key) {
                    lemma_parse_env_value_matches(f, env[key]);
                }
            },
            SpecFieldKind::Nested(sub) => {
                let key = spec_field_key(f, cp);
                let np = spec_nested_prefix(key);
                if spec_from_env(sub, env, Some(np)) is Ok {
                    lemma_from_env_wf(sub, env, Some(np));
                }
            },
        }
    }
}

/// What an environment string parses to for a leaf field fits the field's
/// declared type.
proof fn lemma_parse_env_value_matches(f: SpecField, s: Seq<char>)
    requires
        f.kind is Leaf,
    ensures
        spec_parse_env_value(f, s) matches Some(v) ==> spec_value_matches(v, f.kind->Leaf_0),
{
    let ty = f.kind->Leaf_0;
    match ty {
        Ty::Atom(at) => {},
        Ty::List(at) => {
            if f.parse is CommaSeparated && spec_comma_separated(at, s) is Some {
                let l = spec_comma_separated(at, s)->Some_0;
                if s.len() != 0 {
                    let pieces = crate::parse::spec_split_commas(s);
                    assert(forall|i: int|
                        0 <= i < l.len() ==> l[i] == spec_parse_atom(
                            at,
                            #[trigger] pieces[i],
                        )->Some_0);
                }
            }
        },
    }
}

impl Mirror {
    /// Builds a mirror purely from an environment provider: for each field,
    /// computes its key, queries the provider, and parses what is present;
    /// an absent key leaves the field absent. A nested shape is bound
    /// recursively under its extended prefix, and failures are tagged with
    /// the key, the full field path and a message.
    #[verifier::loop_isolation(false)]
    pub fn from_env_with_provider_and_optional_prefix<E: EnvProvider>(
        shape: &Shape,
        env: &E,
        prefix: Option<&str>,
    ) -> (r: Result<Mirror, FromEnvError>)
        requires
            wf_shape(shape@),
        ensures
            match r {
                Ok(m) => spec_from_env(
                    shape@,
                    env.env_model(),
                    match prefix {
                        Some(p) => Some(p@),
                        None => None,
                    },
                ) == Ok::<SpecMirror, SpecEnvError>(m@) && wf_mirror(m@, shape@),
                Err(e) => env.fallible() || (spec_from_env(
                    shape@,
                    env.env_model(),
                    match prefix {
                        Some(p) => Some(p@),
                        None => None,
                    },
                ) matches Err(se) && e.key@ == se.key && e.field@ == se.field),
            },
        decreases *shape,
    {
        let ghost s = shape@;
        let ghost genv = env.env_model();
        let ghost gprefix: Option<Seq<char>> = match prefix {
            Some(p) => Some(p@),
            None => None,
        };
        proof {
            lemma_shape_view(*shape);
        }
        let inherited: &str = match prefix {
            Some(p) => p,
            None => "",
        };
        proof {
            reveal_strlit("");
            assert(inherited@ == (match gprefix {
                Some(p) => p,
                None => Seq::<char>::empty(),
            }));
        }
        let cp = container_prefix(shape, inherited);
        let ghost gcp = cp@;
        let n = shape.fields.len();
        let mut entries: Vec<Entry> = Vec::new();
        let mut i: usize = 0;
        while i < n
            invariant
                i <= n,
                entries@.len() == i as int,
                spec_env_entries(s, genv, gcp, i as int) matches Ok(pre) && pre.len() == i as int
                    && forall|j: int| 0 <= j < i as int ==> pre[j] == (#[trigger] entries@[j])@,
            decreases n - i,
        {
            let f = &shape.fields[i];
            let ghost sf = s.fields[i as int];
            let ghost gskip = spec_skip_field(s, sf);
            proof {
                assert(wf_field(sf));
            }
            let skip = if shape.skip_env {
                f.env.is_none()
            } else {
                f.skip_env
            };
            let e: Entry;
            if skip {
                match &f.kind {
                    FieldKind::Leaf(_) => {
                        e = Entry::Absent;
                    },
                    FieldKind::Nested(sub) => {
                        if f.optional {
                            e = Entry::Absent;
                        } else {
                            proof {
                                broadcast use
                                    vstd::std_specs::vec::axiom_vec_decreases_to_view,
                                    vstd::seq::axiom_seq_index_decreases;

                                assert(decreases_to!(*shape => shape.fields));
                                assert(decreases_to!(shape.fields => shape.fields@));
                                assert(decreases_to!(shape.fields@ => shape.fields@[i as int]));
                            }
                            e = Entry::Nested(Box::new(Mirror::new_empty(sub)));
                        }
                    },
                }
            } else {
                match &f.kind {
                    FieldKind::Leaf(_) => {
                        let key = field_key(f, cp.as_str());
                        match env.get(key.as_str()) {
                            Err(msg) => {
                                return Err(
                                    FromEnvError {
                                        key,
                                        field: clone_string(&f.name),
                                        message: msg,
                                    },
                                );
                            },
                            Ok(None) => {
                                e = Entry::Absent;
                            },
                            Ok(Some(raw)) => {
                                match parse_env_value(f, raw.as_str()) {
                                    Some(v) => {
                                        e = Entry::Leaf(v);
                                    },
                                    None => {
                                        proof {
                                            assert(spec_env_entry(sf, genv, gcp, gskip)
                                                matches Err(se) && se.key == key@ && se.field
                                                == sf.name);
                                            assert(spec_env_entries(s, genv, gcp, i + 1)
                                                is Err);
                                            lemma_env_entries_err_mono(
                                                s,
                                                genv,
                                                gcp,
                                                i + 1,
                                                n as int,
                                            );
                                        }
                                        return Err(
                                            FromEnvError {
                                                key,
                                                field: clone_string(&f.name),
                                                message: String::from_str(
                                                    "cannot parse environment value for this field",
                                                ),
                                            },
                                        );
                                    },
                                }
                            },
                        }
                    },
                    FieldKind::Nested(sub) => {
                        let key = field_key(f, cp.as_str());
                        let np = nested_prefix(key);
                        proof {
                            broadcast use
                                vstd::std_specs::vec::axiom_vec_decreases_to_view,
                                vstd::seq::axiom_seq_index_decreases;

                            assert(decreases_to!(*shape => shape.fields));
                            assert(decreases_to!(shape.fields => shape.fields@));
                            assert(decreases_to!(shape.fields@ => shape.fields@[i as int]));
                        }
                        match Mirror::from_env_with_provider_and_optional_prefix(
                            sub,
                            env,
                            Some(np.as_str()),
                        ) {
                            Ok(mm) => {
                                if f.optional && mm.is_empty() {
                                    e = Entry::Absent;
                                } else {
                                    e = Entry::Nested(Box::new(mm));
                                }
                            },
                            Err(err) => {
                                proof {
                                    if !env.fallible() {
                                        assert(spec_env_entry(sf, genv, gcp, gskip) is Err);
                                        assert(spec_env_entries(s, genv, gcp, i + 1) is Err);
                                        lemma_env_entries_err_mono(s, genv, gcp, i + 1, n as int);
                                    }
                                }
                                return Err(
                                    FromEnvError {
                                        key: err.key,
                                        field: join_path(f.name.as_str(), err.field.as_str()),
                                        message: err.message,
                                    },
                                );
                            },
                        }
                    },
                }
            }
            entries.push(e);
            i = i + 1;
        }
        let m = Mirror { entries };
        proof {
            lemma_mirror_view(m);
            assert(spec_env_entries(s, genv, gcp, n as int) matches Ok(pre) && m@.entries =~= pre);
            assert(spec_from_env(s, genv, gprefix) == Ok::<SpecMirror, SpecEnvError>(m@));
            lemma_from_env_wf(s, genv, gprefix);
        }
        Ok(m)
    }

    /// Binds from the environment under the given prefix.
    pub fn from_env_with_provider_and_prefix<E: EnvProvider>(
        shape: &Shape,
        env: &E,
        prefix: &str,
    ) -> (r: Result<Mirror, FromEnvError>)
        requires
            wf_shape(shape@),
        ensures
            match r {
                Ok(m) => spec_from_env(shape@, env.env_model(), Some(prefix@)) == Ok::<
                    SpecMirror,
                    SpecEnvError,
                >(m@) && wf_mirror(m@, shape@),
                Err(e) => env.fallible() || (spec_from_env(shape@, env.env_model(), Some(prefix@))
                    matches Err(se) && e.key@ == se.key && e.field@ == se.field),
            },
    {
        Mirror::from_env_with_provider_and_optional_prefix(shape, env, Some(prefix))
    }

    /// Binds from the environment with no prefix.
    pub fn from_env_with_provider<E: EnvProvider>(shape: &Shape, env: &E) -> (r: Result<
        Mirror,
        FromEnvError,
    >)
        requires
            wf_shape(shape@),
        ensures
            match r {
                Ok(m) => spec_from_env(shape@, env.env_model(), None) == Ok::<
                    SpecMirror,
                    SpecEnvError,
                >(m@) && wf_mirror(m@, shape@),
                Err(e) => env.fallible() || (spec_from_env(shape@, env.env_model(), None)
                    matches Err(se) && e.key@ == se.key && e.field@ == se.field),
            },
    {
        Mirror::from_env_with_provider_and_optional_prefix(shape, env, None)
    }
}

} // verus!
