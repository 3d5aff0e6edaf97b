//! Reading configuration text in the supported formats into the neutral
//! [`Raw`] form. The format parsers themselves are outside collaborators;
//! this module only converts what they hand back, value by value.
//!
//! What a piece of text parses to is a function of its characters alone, so
//! each format's reading is given a name (`json_raw_of` and its kin), and
//! every contract downstream speaks of that name exactly. The names carry
//! the library's own restrictions: numbers must be signed 64-bit integers,
//! keys must be strings, and nesting is bounded.

use vstd::prelude::*;

use crate::raw::Raw;
use crate::raw::SpecRaw;
use crate::raw::lemma_raws_view;
use crate::raw::lemma_pairs_view;
use crate::raw::raws_view;
use crate::raw::pairs_view;
use crate::raw::raw_view;

verus! {

/// List of known configuration text formats.
#[derive(Debug, Clone, Copy, PartialEq, Eq)]
pub enum Format {
    Json,
    Jsonc,
    Toml,
    Yaml,
}

/// How deep a parsed document may nest before conversion gives up; matches
/// the recursion limit of the JSON parser relied on.
pub const MAX_DEPTH: u32 = 128;

#[verifier::external_type_specification]
#[verifier::external_body]
pub struct ExJsonValue(serde_json::Value);

#[verifier::external_type_specification]
#[verifier::external_body]
pub struct ExJsonNumber(serde_json::Number);

#[verifier::external_type_specification]
#[verifier::external_body]
pub struct ExTomlValue(toml::Value);

#[verifier::external_type_specification]
#[verifier::external_body]
pub struct ExYamlValue(serde_yaml::Value);

#[verifier::external_type_specification]
#[verifier::external_body]
pub struct ExYamlNumber(serde_yaml::Number);

/// The raw value JSON text denotes under this library's restrictions, or
/// nothing where the text does not parse or breaks one.
pub uninterp spec fn json_raw_of(s: Seq<char>) -> Result<SpecRaw, ()>;

/// The raw value JSON-with-comments text denotes, likewise.
pub uninterp spec fn jsonc_raw_of(s: Seq<char>) -> Result<SpecRaw, ()>;

/// The raw value TOML text denotes, likewise.
pub uninterp spec fn toml_raw_of(s: Seq<char>) -> Result<SpecRaw, ()>;

/// The raw value YAML text denotes, likewise.
pub uninterp spec fn yaml_raw_of(s: Seq<char>) -> Result<SpecRaw, ()>;

/// The raw value a parsed JSON value converts to within the given nesting
/// budget.
pub uninterp spec fn json_value_raw(v: serde_json::Value, depth: int) -> Result<SpecRaw, ()>;

/// The signed 64-bit integer a parsed JSON number is, if it is one.
pub uninterp spec fn json_num_val(n: serde_json::Number) -> Option<int>;

/// The raw value a parsed TOML value converts to within the given nesting
/// budget.
pub uninterp spec fn toml_value_raw(v: toml::Value, depth: int) -> Result<SpecRaw, ()>;

/// The raw value a parsed YAML value converts to within the given nesting
/// budget.
pub uninterp spec fn yaml_value_raw(v: serde_yaml::Value, depth: int) -> Result<SpecRaw, ()>;

/// The signed 64-bit integer a parsed YAML number is, if it is one.
pub uninterp spec fn yaml_num_val(n: serde_yaml::Number) -> Option<int>;

/// The characters of a parsed YAML value that is a string, or nothing.
pub uninterp spec fn yaml_str_of(v: serde_yaml::Value) -> Option<Seq<char>>;

/// A list of converted children, combined: the whole list if every child
/// converted, else nothing.
pub open spec fn combine_list(rs: Seq<Result<SpecRaw, ()>>) -> Result<SpecRaw, ()> {
    if forall|i: int| 0 <= i < rs.len() ==> (#[trigger] rs[i]) is Ok {
        Ok(SpecRaw::List(rs.map_values(|r: Result<SpecRaw, ()>| r->Ok_0)))
    } else {
        Err(())
    }
}

/// Converted key/value pairs, combined: the whole map if every value
/// converted, else nothing.
pub open spec fn combine_object(keys: Seq<Seq<char>>, rs: Seq<Result<SpecRaw, ()>>) -> Result<
    SpecRaw,
    (),
> {
    if forall|i: int| 0 <= i < rs.len() ==> (#[trigger] rs[i]) is Ok {
        Ok(SpecRaw::Object(Seq::new(rs.len(), |i: int| (keys[i], rs[i]->Ok_0))))
    } else {
        Err(())
    }
}

/// Converted key/value pairs whose keys must themselves be strings: the
/// whole map if every key is a string and every value converted, else
/// nothing.
pub open spec fn combine_keyed_object(
    keys: Seq<Option<Seq<char>>>,
    rs: Seq<Result<SpecRaw, ()>>,
) -> Result<SpecRaw, ()> {
    if (forall|i: int| 0 <= i < keys.len() ==> (#[trigger] keys[i]) is Some) && (forall|i: int|
        0 <= i < rs.len() ==> (#[trigger] rs[i]) is Ok) {
        Ok(SpecRaw::Object(Seq::new(rs.len(), |i: int| (keys[i]->0, rs[i]->Ok_0))))
    } else {
        Err(())
    }
}

/// One level of a parsed JSON document, children still unconverted.
pub enum JsonNode {
    Null,
    Bool(bool),
    Num(serde_json::Number),
    Str(String),
    List(Vec<serde_json::Value>),
    Obj(Vec<(String, serde_json::Value)>),
}

/// One level of a parsed TOML document, children still unconverted. Floats
/// and datetimes are recognized but carry no value this library can hold.
pub enum TomlNode {
    Str(String),
    Int(i64),
    Float,
    Bool(bool),
    Datetime,
    List(Vec<toml::Value>),
    Table(Vec<(String, toml::Value)>),
}

/// One level of a parsed YAML document, children still unconverted.
pub enum YamlNode {
    Null,
    Bool(bool),
    Num(serde_yaml::Number),
    Str(String),
    List(Vec<serde_yaml::Value>),
    Obj(Vec<(serde_yaml::Value, serde_yaml::Value)>),
    Tagged,
}

/// Relies on serde_json::from_str: parses JSON text into a JSON value; the
/// parse is a function of the text alone.
#[verifier::external_body]
fn json_parse(code: &str) -> (r: Result<serde_json::Value, String>)
    ensures
        match r {
            Ok(v) => json_raw_of(code@) == json_value_raw(v, MAX_DEPTH as int),
            Err(_) => json_raw_of(code@) is Err,
        },
{
    serde_json::from_str::<serde_json::Value>(code).map_err(|e| e.to_string())
}

/// Relies on serde_json::from_reader and json_comments::StripComments:
/// parses JSON text with comments stripped into a JSON value; the parse is
/// a function of the text alone.
#[verifier::external_body]
fn jsonc_parse(code: &str) -> (r: Result<serde_json::Value, String>)
    ensures
        match r {
            Ok(v) => jsonc_raw_of(code@) == json_value_raw(v, MAX_DEPTH as int),
            Err(_) => jsonc_raw_of(code@) is Err,
        },
{
    let reader = json_comments::StripComments::new(code.as_bytes());
    serde_json::from_reader::<_, serde_json::Value>(reader).map_err(|e| e.to_string())
}

/// Relies on serde_json::Value being the given enum: tells its variants
/// apart, moving each payload out. Scalars convert regardless of the
/// budget; lists and maps convert their children under a budget one less.
#[verifier::external_body]
fn json_shallow(v: serde_json::Value) -> (r: JsonNode)
    ensures
        match r {
            JsonNode::Null => forall|d: int| #[trigger] json_value_raw(v, d) == Ok::<SpecRaw, ()>(
                SpecRaw::Null,
            ),
            JsonNode::Bool(b) => forall|d: int| #[trigger] json_value_raw(v, d) == Ok::<
                SpecRaw,
                (),
            >(SpecRaw::Bool(b)),
            JsonNode::Num(n) => forall|d: int| #[trigger] json_value_raw(v, d) == (
            match json_num_val(n) {
                Some(i) => Ok(SpecRaw::Int(i)),
                None => Err(()),
            }),
            JsonNode::Str(s) => forall|d: int| #[trigger] json_value_raw(v, d) == Ok::<
                SpecRaw,
                (),
            >(SpecRaw::Str(s@)),
            JsonNode::List(items) => forall|d: int| #[trigger] json_value_raw(v, d) == (if d < 1 {
                Err(())
            } else {
                combine_list(
                    Seq::new(items@.len() as nat, |i: int| json_value_raw(items@[i], d - 1)),
                )
            }),
            JsonNode::Obj(pairs) => forall|d: int| #[trigger] json_value_raw(v, d) == (if d < 1 {
                Err(())
            } else {
                combine_object(
                    Seq::new(pairs@.len() as nat, |i: int| pairs@[i].0@),
                    Seq::new(pairs@.len() as nat, |i: int| json_value_raw(pairs@[i].1, d - 1)),
                )
            }),
        },
{
    match v {
        serde_json::Value::Null => JsonNode::Null,
        serde_json::Value::Bool(b) => JsonNode::Bool(b),
        serde_json::Value::Number(n) => JsonNode::Num(n),
        serde_json::Value::String(s) => JsonNode::Str(s),
        serde_json::Value::Array(a) => JsonNode::List(a),
        serde_json::Value::Object(m) => JsonNode::Obj(m.into_iter().collect()),
    }
}

/// Relies on serde_json::Number::as_i64: the number as a signed 64-bit
/// integer, if it is one.
#[verifier::external_body]
fn json_num_i64(n: &serde_json::Number) -> (r: Option<i64>)
    ensures
        match r {
            Some(i) => json_num_val(*n) == Some(i as int),
            None => json_num_val(*n) is None,
        },
{
    n.as_i64()
}

/// Relies on toml::from_str: parses TOML text into a TOML value; the parse
/// is a function of the text alone.
#[verifier::external_body]
fn toml_parse(code: &str) -> (r: Result<toml::Value, String>)
    ensures
        match r {
            Ok(v) => toml_raw_of(code@) == toml_value_raw(v, MAX_DEPTH as int),
            Err(_) => toml_raw_of(code@) is Err,
        },
{
    toml::from_str::<toml::Value>(code).map_err(|e| e.to_string())
}

/// Relies on toml::Value being the given enum: tells its variants apart,
/// moving each payload out. Floats and datetimes are values this library
/// does not hold, so they convert to nothing.
#[verifier::external_body]
fn toml_shallow(v: toml::Value) -> (r: TomlNode)
    ensures
        match r {
            TomlNode::Str(s) => forall|d: int| #[trigger] toml_value_raw(v, d) == Ok::<
                SpecRaw,
                (),
            >(SpecRaw::Str(s@)),
            TomlNode::Int(i) => forall|d: int| #[trigger] toml_value_raw(v, d) == Ok::<
                SpecRaw,
                (),
            >(SpecRaw::Int(i as int)),
            TomlNode::Float => forall|d: int| #[trigger] toml_value_raw(v, d) is Err,
            TomlNode::Bool(b) => forall|d: int| #[trigger] toml_value_raw(v, d) == Ok::<
                SpecRaw,
                (),
            >(SpecRaw::Bool(b)),
            TomlNode::Datetime => forall|d: int| #[trigger] toml_value_raw(v, d) is Err,
            TomlNode::List(items) => forall|d: int| #[trigger] toml_value_raw(v, d) == (if d < 1 {
                Err(())
            } else {
                combine_list(
                    Seq::new(items@.len() as nat, |i: int| toml_value_raw(items@[i], d - 1)),
                )
            }),
            TomlNode::Table(pairs) => forall|d: int| #[trigger] toml_value_raw(v, d) == (if d < 1 {
                Err(())
            } else {
                combine_object(
                    Seq::new(pairs@.len() as nat, |i: int| pairs@[i].0@),
                    Seq::new(pairs@.len() as nat, |i: int| toml_value_raw(pairs@[i].1, d - 1)),
                )
            }),
        },
{
    match v {
        toml::Value::String(s) => TomlNode::Str(s),
        toml::Value::Integer(i) => TomlNode::Int(i),
        toml::Value::Float(_) => TomlNode::Float,
        toml::Value::Boolean(b) => TomlNode::Bool(b),
        toml::Value::Datetime(_) => TomlNode::Datetime,
        toml::Value::Array(a) => TomlNode::List(a),
        toml::Value::Table(t) => TomlNode::Table(t.into_iter().collect()),
    }
}

/// Relies on serde_yaml::from_str: parses YAML text into a YAML value; the
/// parse is a function of the text alone.
#[verifier::external_body]
fn yaml_parse(code: &str) -> (r: Result<serde_yaml::Value, String>)
    ensures
        match r {
            Ok(v) => yaml_raw_of(code@) == yaml_value_raw(v, MAX_DEPTH as int),
            Err(_) => yaml_raw_of(code@) is Err,
        },
{
    serde_yaml::from_str::<serde_yaml::Value>(code).map_err(|e| e.to_string())
}

/// Relies on serde_yaml::Value being the given enum: tells its variants
/// apart, moving each payload out. Mapping keys must themselves be
/// strings; tagged values convert to nothing.
#[verifier::external_body]
fn yaml_shallow(v: serde_yaml::Value) -> (r: YamlNode)
    ensures
        match r {
            YamlNode::Null => yaml_str_of(v) is None && forall|d: int| #[trigger] yaml_value_raw(
                v,
                d,
            ) == Ok::<SpecRaw, ()>(SpecRaw::Null),
            YamlNode::Bool(b) => yaml_str_of(v) is None && forall|d: int| #[trigger] yaml_value_raw(
                v,
                d,
            ) == Ok::<SpecRaw, ()>(SpecRaw::Bool(b)),
            YamlNode::Num(n) => yaml_str_of(v) is None && forall|d: int| #[trigger] yaml_value_raw(
                v,
                d,
            ) == (match yaml_num_val(n) {
                Some(i) => Ok(SpecRaw::Int(i)),
                None => Err(()),
            }),
            YamlNode::Str(s) => yaml_str_of(v) == Some(s@) && forall|d: int|
                #[trigger] yaml_value_raw(v, d) == Ok::<SpecRaw, ()>(SpecRaw::Str(s@)),
            YamlNode::List(items) => yaml_str_of(v) is None && forall|d: int|
                #[trigger] yaml_value_raw(v, d) == (if d < 1 {
                    Err(())
                } else {
                    combine_list(
                        Seq::new(items@.len() as nat, |i: int| yaml_value_raw(items@[i], d - 1)),
                    )
                }),
            YamlNode::Obj(pairs) => yaml_str_of(v) is None && forall|d: int|
                #[trigger] yaml_value_raw(v, d) == (if d < 1 {
                    Err(())
                } else {
                    combine_keyed_object(
                        Seq::new(pairs@.len() as nat, |i: int| yaml_str_of(pairs@[i].0)),
                        Seq::new(pairs@.len() as nat, |i: int| yaml_value_raw(pairs@[i].1, d - 1)),
                    )
                }),
            YamlNode::Tagged => yaml_str_of(v) is None && forall|d: int| #[trigger] yaml_value_raw(
                v,
                d,
            ) is Err,
        },
{
    match v {
        serde_yaml::Value::Null => YamlNode::Null,
        serde_yaml::Value::Bool(b) => YamlNode::Bool(b),
        serde_yaml::Value::Number(n) => YamlNode::Num(n),
        serde_yaml::Value::String(s) => YamlNode::Str(s),
        serde_yaml::Value::Sequence(a) => YamlNode::List(a),
        serde_yaml::Value::Mapping(m) => YamlNode::Obj(m.into_iter().collect()),
        serde_yaml::Value::Tagged(_) => YamlNode::Tagged,
    }
}

/// Relies on serde_yaml::Number::as_i64: the number as a signed 64-bit
/// integer, if it is one.
#[verifier::external_body]
fn yaml_num_i64(n: &serde_yaml::Number) -> (r: Option<i64>)
    ensures
        match r {
            Some(i) => yaml_num_val(*n) == Some(i as int),
            None => yaml_num_val(*n) is None,
        },
{
    n.as_i64()
}

#[verifier::loop_isolation(false)]
fn raw_of_json(v: serde_json::Value, depth: u32) -> (r: Result<Raw, String>)
    ensures
        match r {
            Ok(rw) => json_value_raw(v, depth as int) == Ok::<SpecRaw, ()>(rw@),
            Err(_) => json_value_raw(v, depth as int) is Err,
        },
    decreases depth,
{
    match json_shallow(v) {
        JsonNode::Null => Ok(Raw::Null),
        JsonNode::Bool(b) => Ok(Raw::Bool(b)),
        JsonNode::Num(n) => match json_num_i64(&n) {
            Some(i) => Ok(Raw::Int(i)),
            None => Err(String::from_str("number is not a signed 64-bit integer")),
        },
        JsonNode::Str(s) => Ok(Raw::Str(s)),
        JsonNode::List(items) => {
            if depth == 0 {
                return Err(String::from_str("configuration text nests too deeply"));
            }
            let ghost orig = items@;
            let ghost convs = Seq::new(orig.len(), |i: int| json_value_raw(orig[i], depth - 1));
            let mut out: Vec<Raw> = Vec::new();
            let mut items = items;
            let ghost mut k: int = 0;
            while items.len() > 0
                invariant
                    k + items@.len() == orig.len(),
                    items@ =~= orig.skip(k),
                    out@.len() == k,
                    forall|j: int|
                        0 <= j < k ==> convs[j] == Ok::<SpecRaw, ()>(
                            raw_view(#[trigger] out@[j]),
                        ),
                decreases items.len(),
            {
                let item = items.remove(0);
                proof {
                    assert(item == orig[k]);
                }
                match raw_of_json(item, depth - 1) {
                    Ok(rv) => {
                        out.push(rv);
                        proof {
                            k = k + 1;
                        }
                    },
                    Err(e) => {
                        proof {
                            assert(convs[k] is Err);
                        }
                        return Err(e);
                    },
                }
            }
            let r = Raw::List(out);
            proof {
                lemma_raws_view(out);
                assert(combine_list(convs) == Ok::<SpecRaw, ()>(r@)) by {
                    assert forall|i: int| 0 <= i < convs.len() implies (#[trigger] convs[i])
                        is Ok by {
                        assert(convs[i] == Ok::<SpecRaw, ()>(raw_view(out@[i])));
                    }
                    assert(convs.map_values(|c: Result<SpecRaw, ()>| c->Ok_0) =~= raws_view(
                        out,
                        out@.len() as int,
                    ));
                }
            }
            Ok(r)
        },
        JsonNode::Obj(pairs) => {
            if depth == 0 {
                return Err(String::from_str("configuration text nests too deeply"));
            }
            let ghost orig = pairs@;
            let ghost keys = Seq::new(orig.len(), |i: int| orig[i].0@);
            let ghost convs = Seq::new(orig.len(), |i: int| json_value_raw(orig[i].1, depth - 1));
            let mut out: Vec<(String, Raw)> = Vec::new();
            let mut pairs = pairs;
            let ghost mut k: int = 0;
            while pairs.len() > 0
                invariant
                    k + pairs@.len() == orig.len(),
                    pairs@ =~= orig.skip(k),
                    out@.len() == k,
                    forall|j: int|
                        0 <= j < k ==> (#[trigger] out@[j]).0@ == keys[j] && convs[j]
                            == Ok::<SpecRaw, ()>(raw_view(out@[j].1)),
                decreases pairs.len(),
            {
                let (key, pv) = pairs.remove(0);
                proof {
                    assert((key, pv) == orig[k]);
                }
                match raw_of_json(pv, depth - 1) {
                    Ok(rv) => {
                        out.push((key, rv));
                        proof {
                            k = k + 1;
                        }
                    },
                    Err(e) => {
                        proof {
                            assert(convs[k] is Err);
                        }
                        return Err(e);
                    },
                }
            }
            let r = Raw::Object(out);
            proof {
                lemma_pairs_view(out);
                assert(combine_object(keys, convs) == Ok::<SpecRaw, ()>(r@)) by {
                    assert forall|i: int| 0 <= i < convs.len() implies (#[trigger] convs[i])
                        is Ok by {
                        assert(convs[i] == Ok::<SpecRaw, ()>(raw_view(out@[i].1)));
                    }
                    assert(Seq::new(convs.len(), |i: int| (keys[i], convs[i]->Ok_0)) =~= pairs_view(
                        out,
                        out@.len() as int,
                    ));
                }
            }
            Ok(r)
        },
    }
}

#[verifier::loop_isolation(false)]
fn raw_of_toml(v: toml::Value, depth: u32) -> (r: Result<Raw, String>)
    ensures
        match r {
            Ok(rw) => toml_value_raw(v, depth as int) == Ok::<SpecRaw, ()>(rw@),
            Err(_) => toml_value_raw(v, depth as int) is Err,
        },
    decreases depth,
{
    match toml_shallow(v) {
        TomlNode::Str(s) => Ok(Raw::Str(s)),
        TomlNode::Int(i) => Ok(Raw::Int(i)),
        TomlNode::Float => Err(String::from_str("floating-point values are not supported")),
        TomlNode::Bool(b) => Ok(Raw::Bool(b)),
        TomlNode::Datetime => Err(String::from_str("datetime values are not supported")),
        TomlNode::List(items) => {
            if depth == 0 {
                return Err(String::from_str("configuration text nests too deeply"));
            }
            let ghost orig = items@;
            let ghost convs = Seq::new(orig.len(), |i: int| toml_value_raw(orig[i], depth - 1));
            let mut out: Vec<Raw> = Vec::new();
            let mut items = items;
            let ghost mut k: int = 0;
            while items.len() > 0
                invariant
                    k + items@.len() == orig.len(),
                    items@ =~= orig.skip(k),
                    out@.len() == k,
                    forall|j: int|
                        0 <= j < k ==> convs[j] == Ok::<SpecRaw, ()>(
                            raw_view(#[trigger] out@[j]),
                        ),
                decreases items.len(),
            {
                let item = items.remove(0);
                proof {
                    assert(item == orig[k]);
                }
                match raw_of_toml(item, depth - 1) {
                    Ok(rv) => {
                        out.push(rv);
                        proof {
                            k = k + 1;
                        }
                    },
                    Err(e) => {
                        proof {
                            assert(convs[k] is Err);
                        }
                        return Err(e);
                    },
                }
            }
            let r = Raw::List(out);
            proof {
                lemma_raws_view(out);
                assert(combine_list(convs) == Ok::<SpecRaw, ()>(r@)) by {
                    assert forall|i: int| 0 <= i < convs.len() implies (#[trigger] convs[i])
                        is Ok by {
                        assert(convs[i] == Ok::<SpecRaw, ()>(raw_view(out@[i])));
                    }
                    assert(convs.map_values(|c: Result<SpecRaw, ()>| c->Ok_0) =~= raws_view(
                        out,
                        out@.len() as int,
                    ));
                }
            }
            Ok(r)
        },
        TomlNode::Table(pairs) => {
            if depth == 0 {
                return Err(String::from_str("configuration text nests too deeply"));
            }
            let ghost orig = pairs@;
            let ghost keys = Seq::new(orig.len(), |i: int| orig[i].0@);
            let ghost convs = Seq::new(orig.len(), |i: int| toml_value_raw(orig[i].1, depth - 1));
            let mut out: Vec<(String, Raw)> = Vec::new();
            let mut pairs = pairs;
            let ghost mut k: int = 0;
            while pairs.len() > 0
                invariant
                    k + pairs@.len() == orig.len(),
                    pairs@ =~= orig.skip(k),
                    out@.len() == k,
                    forall|j: int|
                        0 <= j < k ==> (#[trigger] out@[j]).0@ == keys[j] && convs[j]
                            == Ok::<SpecRaw, ()>(raw_view(out@[j].1)),
                decreases pairs.len(),
            {
                let (key, pv) = pairs.remove(0);
                proof {
                    assert((key, pv) == orig[k]);
                }
                match raw_of_toml(pv, depth - 1) {
                    Ok(rv) => {
                        out.push((key, rv));
                        proof {
                            k = k + 1;
                        }
                    },
                    Err(e) => {
                        proof {
                            assert(convs[k] is Err);
                        }
                        return Err(e);
                    },
                }
            }
            let r = Raw::Object(out);
            proof {
                lemma_pairs_view(out);
                assert(combine_object(keys, convs) == Ok::<SpecRaw, ()>(r@)) by {
                    assert forall|i: int| 0 <= i < convs.len() implies (#[trigger] convs[i])
                        is Ok by {
                        assert(convs[i] == Ok::<SpecRaw, ()>(raw_view(out@[i].1)));
                    }
                    assert(Seq::new(convs.len(), |i: int| (keys[i], convs[i]->Ok_0)) =~= pairs_view(
                        out,
                        out@.len() as int,
                    ));
                }
            }
            Ok(r)
        },
    }
}

#[verifier::loop_isolation(false)]
fn raw_of_yaml(v: serde_yaml::Value, depth: u32) -> (r: Result<Raw, String>)
    ensures
        match r {
            Ok(rw) => yaml_value_raw(v, depth as int) == Ok::<SpecRaw, ()>(rw@),
            Err(_) => yaml_value_raw(v, depth as int) is Err,
        },
    decreases depth,
{
    match yaml_shallow(v) {
        YamlNode::Null => Ok(Raw::Null),
        YamlNode::Bool(b) => Ok(Raw::Bool(b)),
        YamlNode::Num(n) => match yaml_num_i64(&n) {
            Some(i) => Ok(Raw::Int(i)),
            None => Err(String::from_str("number is not a signed 64-bit integer")),
        },
        YamlNode::Str(s) => Ok(Raw::Str(s)),
        YamlNode::List(items) => {
            if depth == 0 {
                return Err(String::from_str("configuration text nests too deeply"));
            }
            let ghost orig = items@;
            let ghost convs = Seq::new(orig.len(), |i: int| yaml_value_raw(orig[i], depth - 1));
            let mut out: Vec<Raw> = Vec::new();
            let mut items = items;
            let ghost mut k: int = 0;
            while items.len() > 0
                invariant
                    k + items@.len() == orig.len(),
                    items@ =~= orig.skip(k),
                    out@.len() == k,
                    forall|j: int|
                        0 <= j < k ==> convs[j] == Ok::<SpecRaw, ()>(
                            raw_view(#[trigger] out@[j]),
                        ),
                decreases items.len(),
            {
                let item = items.remove(0);
                proof {
                    assert(item == orig[k]);
                }
                match raw_of_yaml(item, depth - 1) {
                    Ok(rv) => {
                        out.push(rv);
                        proof {
                            k = k + 1;
                        }
                    },
                    Err(e) => {
                        proof {
                            assert(convs[k] is Err);
                        }
                        return Err(e);
                    },
                }
            }
            let r = Raw::List(out);
            proof {
                lemma_raws_view(out);
                assert(combine_list(convs) == Ok::<SpecRaw, ()>(r@)) by {
                    assert forall|i: int| 0 <= i < convs.len() implies (#[trigger] convs[i])
                        is Ok by {
                        assert(convs[i] == Ok::<SpecRaw, ()>(raw_view(out@[i])));
                    }
                    assert(convs.map_values(|c: Result<SpecRaw, ()>| c->Ok_0) =~= raws_view(
                        out,
                        out@.len() as int,
                    ));
                }
            }
            Ok(r)
        },
        YamlNode::Obj(pairs) => {
            if depth == 0 {
                return Err(String::from_str("configuration text nests too deeply"));
            }
            let ghost orig = pairs@;
            let ghost keys = Seq::new(orig.len(), |i: int| yaml_str_of(orig[i].0));
            let ghost convs = Seq::new(orig.len(), |i: int| yaml_value_raw(orig[i].1, depth - 1));
            let mut out: Vec<(String, Raw)> = Vec::new();
            let mut pairs = pairs;
            let ghost mut k: int = 0;
            while pairs.len() > 0
                invariant
                    k + pairs@.len() == orig.len(),
                    pairs@ =~= orig.skip(k),
                    out@.len() == k,
                    forall|j: int|
                        0 <= j < k ==> keys[j] == Some((#[trigger] out@[j]).0@) && convs[j]
                            == Ok::<SpecRaw, ()>(raw_view(out@[j].1)),
                decreases pairs.len(),
            {
                let (kv, pv) = pairs.remove(0);
                proof {
                    assert((kv, pv) == orig[k]);
                }
                let key = match yaml_shallow(kv) {
                    YamlNode::Str(s) => s,
                    _ => {
                        proof {
                            assert(keys[k] is None);
                        }
                        return Err(String::from_str("mapping keys must be strings"));
                    },
                };
                match raw_of_yaml(pv, depth - 1) {
                    Ok(rv) => {
                        out.push((key, rv));
                        proof {
                            k = k + 1;
                        }
                    },
                    Err(e) => {
                        proof {
                            assert(convs[k] is Err);
                        }
                        return Err(e);
                    },
                }
            }
            let r = Raw::Object(out);
            proof {
                lemma_pairs_view(out);
                assert(combine_keyed_object(keys, convs) == Ok::<SpecRaw, ()>(r@)) by {
                    assert forall|i: int| 0 <= i < keys.len() implies (#[trigger] keys[i])
                        is Some by {
                        assert(keys[i] == Some((out@[i]).0@));
                    }
                    assert forall|i: int| 0 <= i < convs.len() implies (#[trigger] convs[i])
                        is Ok by {
                        assert(convs[i] == Ok::<SpecRaw, ()>(raw_view(out@[i].1)));
                    }
                    assert(Seq::new(convs.len(), |i: int| (keys[i]->0, convs[i]->Ok_0))
                        =~= pairs_view(out, out@.len() as int));
                }
            }
            Ok(r)
        },
        YamlNode::Tagged => Err(String::from_str("tagged values are not supported")),
    }
}

/// The raw value configuration text of the given format denotes, or
/// nothing.
pub open spec fn spec_text_raw(format: Format, s: Seq<char>) -> Result<SpecRaw, ()> {
    match format {
        Format::Json => json_raw_of(s),
        Format::Jsonc => jsonc_raw_of(s),
        Format::Toml => toml_raw_of(s),
        Format::Yaml => yaml_raw_of(s),
    }
}

/// Parses configuration text of the given format into the neutral raw
/// form: exactly the raw value the text denotes under the library's
/// restrictions, or a message saying why there is none.
pub fn parse_text(code: &str, format: Format) -> (r: Result<Raw, String>)
    ensures
        match r {
            Ok(rw) => spec_text_raw(format, code@) == Ok::<SpecRaw, ()>(rw@),
            Err(_) => spec_text_raw(format, code@) is Err,
        },
{
    match format {
        Format::Json => match json_parse(code) {
            Ok(v) => raw_of_json(v, MAX_DEPTH),
            Err(e) => Err(e),
        },
        Format::Jsonc => match jsonc_parse(code) {
            Ok(v) => raw_of_json(v, MAX_DEPTH),
            Err(e) => Err(e),
        },
        Format::Toml => match toml_parse(code) {
            Ok(v) => raw_of_toml(v, MAX_DEPTH),
            Err(e) => Err(e),
        },
        Format::Yaml => match yaml_parse(code) {
            Ok(v) => raw_of_yaml(v, MAX_DEPTH),
            Err(e) => Err(e),
        },
    }
}

} // verus!
