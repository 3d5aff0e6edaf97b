//! Reading scalar values out of environment strings: the standard readings
//! for each scalar type, and the comma-separated list reading.

use vstd::prelude::*;

use crate::value::Atom;
use crate::value::AtomTy;
use crate::value::SpecAtom;

verus! {

/// Whether a character is a decimal digit.
pub open spec fn spec_is_digit(c: char) -> bool {
    48 <= c as u32 <= 57
}

/// The numeric value of a decimal digit.
pub open spec fn spec_digit_val(c: char) -> int {
    c as u32 - 48
}

/// Whether every character of a sequence is a decimal digit.
pub open spec fn spec_all_digits(s: Seq<char>) -> bool {
    forall|i: int| 0 <= i < s.len() ==> spec_is_digit(#[trigger] s[i])
}

/// The integer a sequence of decimal digits denotes.
pub open spec fn spec_dec_val(s: Seq<char>) -> int
    decreases s.len(),
{
    if s.len() == 0 {
        0
    } else {
        spec_dec_val(s.drop_last()) * 10 + spec_digit_val(s.last())
    }
}

/// The signed 64-bit integer a string denotes: an optional sign followed by
/// at least one decimal digit, within range. Anything else denotes nothing.
pub open spec fn spec_parse_int(s: Seq<char>) -> Option<int> {
    let signed = s.len() > 0 && (s[0] == '-' || s[0] == '+');
    let body = if signed {
        s.drop_first()
    } else {
        s
    };
    if body.len() == 0 || !spec_all_digits(body) {
        None
    } else {
        let v = if signed && s[0] == '-' {
            -spec_dec_val(body)
        } else {
            spec_dec_val(body)
        };
        if i64::MIN <= v <= i64::MAX {
            Some(v)
        } else {
            None
        }
    }
}

/// A digit string denotes a nonnegative value.
proof fn lemma_dec_val_nonneg(s: Seq<char>)
    requires
        spec_all_digits(s),
    ensures
        spec_dec_val(s) >= 0,
    decreases s.len(),
{
    if s.len() > 0 {
        assert(spec_all_digits(s.drop_last()));
        lemma_dec_val_nonneg(s.drop_last());
    }
}

/// Extending a digit string cannot shrink the value it denotes.
proof fn lemma_dec_val_prefix_le(s: Seq<char>, n: int)
    requires
        spec_all_digits(s),
        0 <= n <= s.len(),
    ensures
        spec_dec_val(s.take(n)) <= spec_dec_val(s),
    decreases s.len() - n,
{
    if n < s.len() {
        lemma_dec_val_prefix_le(s, n + 1);
        assert(spec_all_digits(s.take(n + 1)));
        lemma_dec_val_nonneg(s.take(n + 1));
        assert(s.take(n + 1).drop_last() =~= s.take(n));
        assert(spec_dec_val(s.take(n)) * 10 >= spec_dec_val(s.take(n))) by {
            lemma_dec_val_nonneg(s.take(n));
        }
        assert(spec_dec_val(s.take(n)) <= spec_dec_val(s.take(n + 1)));
    } else {
        assert(s.take(n) =~= s);
    }
}

/// Reads a signed 64-bit integer from a string, exactly when the string
/// denotes one.
#[verifier::loop_isolation(false)]
pub fn parse_i64(s: &str) -> (r: Option<i64>)
    ensures
        match r {
            Some(v) => spec_parse_int(s@) == Some(v as int),
            None => spec_parse_int(s@) is None,
        },
{
    let len = s.unicode_len();
    let mut start: usize = 0;
    let mut negative = false;
    if len > 0 {
        let c0 = s.get_char(0);
        if c0 == '-' {
            negative = true;
            start = 1;
        } else if c0 == '+' {
            start = 1;
        }
    }
    if start >= len {
        return None;
    }
    let ghost body = if start == 1 {
        s@.drop_first()
    } else {
        s@
    };
    proof {
        assert(body =~= s@.subrange(start as int, len as int));
    }
    let mut acc: i64 = 0;
    let mut i: usize = start;
    while i < len
        invariant
            start <= i <= len,
            spec_all_digits(s@.subrange(start as int, i as int)),
            acc == -spec_dec_val(s@.subrange(start as int, i as int)),
        decreases len - i,
    {
        let c = s.get_char(i);
        let cu = c as u32;
        if cu < 48 || cu > 57 {
            proof {
                assert(body[i - start] == s@[i as int]);
                assert(!spec_all_digits(body));
            }
            return None;
        }
        let d = (cu - 48) as i64;
        proof {
            assert(spec_is_digit(s@[i as int]));
            lemma_dec_val_nonneg(s@.subrange(start as int, i as int));
        }
        let acc10 = match acc.checked_mul(10) {
            Some(x) => x,
            None => {
                proof {
                    lemma_int_too_big(s@, start as int, i as int, len as int);
                }
                return None;
            },
        };
        let next = match acc10.checked_sub(d) {
            Some(x) => x,
            None => {
                proof {
                    lemma_int_too_big(s@, start as int, i as int, len as int);
                }
                return None;
            },
        };
        proof {
            assert(s@.subrange(start as int, i + 1).drop_last() =~= s@.subrange(
                start as int,
                i as int,
            ));
        }
        acc = next;
        i = i + 1;
    }
    proof {
        assert(s@.subrange(start as int, len as int) =~= body);
    }
    if negative {
        Some(acc)
    } else {
        if acc == i64::MIN {
            return None;
        }
        Some(-acc)
    }
}

/// If the digits seen so far already denote more than the 64-bit range can
/// hold, the whole string denotes no 64-bit integer.
proof fn lemma_int_too_big(s: Seq<char>, start: int, i: int, len: int)
    requires
        0 <= start <= i < len == s.len(),
        (start == 1) == (s[0] == '-' || s[0] == '+'),
        start == 0 || start == 1,
        spec_all_digits(s.subrange(start, i)),
        spec_is_digit(s[i]),
        spec_dec_val(s.subrange(start, i)) * 10 + spec_digit_val(s[i]) > 0x8000_0000_0000_0000,
    ensures
        spec_parse_int(s) is None,
{
    let body = if start == 1 {
        s.drop_first()
    } else {
        s
    };
    assert(body =~= s.subrange(start, len));
    if spec_all_digits(body) {
        assert(s.subrange(start, i + 1).last() == s[i]);
        assert(s.subrange(start, i + 1).drop_last() =~= s.subrange(start, i));
        assert(spec_dec_val(s.subrange(start, i + 1)) > 0x8000_0000_0000_0000);
        assert(body.take(i - start + 1) =~= s.subrange(start, i + 1));
        lemma_dec_val_prefix_le(body, i - start + 1);
        assert(spec_dec_val(body) > 0x8000_0000_0000_0000);
        if start == 1 && s[0] == '-' {
            assert(-spec_dec_val(body) < i64::MIN);
        } else {
            assert(spec_dec_val(body) > i64::MAX);
        }
    }
}

/// The boolean a string denotes: exactly `true` or `false`.
pub open spec fn spec_parse_bool(s: Seq<char>) -> Option<bool> {
    if s == "true"@ {
        Some(true)
    } else if s == "false"@ {
        Some(false)
    } else {
        None
    }
}

/// Reads a boolean from a string, exactly when the string denotes one.
pub fn parse_bool(s: &str) -> (r: Option<bool>)
    ensures
        r == spec_parse_bool(s@),
{
    if crate::util::str_eq(s, "true") {
        Some(true)
    } else if crate::util::str_eq(s, "false") {
        Some(false)
    } else {
        None
    }
}

/// The scalar a string denotes under the standard reading for each scalar
/// type: any string is a string, integers and booleans as above.
pub open spec fn spec_parse_atom(ty: AtomTy, s: Seq<char>) -> Option<SpecAtom> {
    match ty {
        AtomTy::Str => Some(SpecAtom::Str(s)),
        AtomTy::Int => match spec_parse_int(s) {
            Some(v) => Some(SpecAtom::Int(v)),
            None => None,
        },
        AtomTy::Bool => match spec_parse_bool(s) {
            Some(b) => Some(SpecAtom::Bool(b)),
            None => None,
        },
    }
}

/// Reads one scalar of the given type from a string, exactly when the
/// string denotes one.
pub fn parse_atom(ty: AtomTy, s: &str) -> (r: Option<Atom>)
    ensures
        match r {
            Some(a) => spec_parse_atom(ty, s@) == Some(a@),
            None => spec_parse_atom(ty, s@) is None,
        },
{
    match ty {
        AtomTy::Str => Some(Atom::Str(String::from_str(s))),
        AtomTy::Int => match parse_i64(s) {
            Some(v) => Some(Atom::Int(v)),
            None => None,
        },
        AtomTy::Bool => match parse_bool(s) {
            Some(b) => Some(Atom::Bool(b)),
            None => None,
        },
    }
}

/// The position of the first comma, or a negative value if there is none.
pub open spec fn spec_first_comma(s: Seq<char>) -> int
    decreases s.len(),
{
    if s.len() == 0 {
        -1
    } else if s[0] == ',' {
        0
    } else {
        let r = spec_first_comma(s.drop_first());
        if r < 0 {
            -1
        } else {
            r + 1
        }
    }
}

/// The first comma, if any, is a comma, is inside the string, and nothing
/// before it is a comma.
pub proof fn lemma_first_comma(s: Seq<char>)
    ensures
        spec_first_comma(s) >= 0 ==> 0 <= spec_first_comma(s) < s.len() && s[spec_first_comma(s)]
            == ',' && forall|j: int| 0 <= j < spec_first_comma(s) ==> s[j] != ',',
        spec_first_comma(s) < 0 ==> forall|j: int| 0 <= j < s.len() ==> s[j] != ',',
    decreases s.len(),
{
    if s.len() > 0 && s[0] != ',' {
        lemma_first_comma(s.drop_first());
        let r = spec_first_comma(s.drop_first());
        if r >= 0 {
            assert(s[r + 1] == s.drop_first()[r]);
            assert forall|j: int| 0 <= j < r + 1 implies s[j] != ',' by {
                if j > 0 {
                    assert(s.drop_first()[j - 1] == s[j]);
                }
            }
        } else {
            assert forall|j: int| 0 <= j < s.len() implies s[j] != ',' by {
                if j > 0 {
                    assert(s.drop_first()[j - 1] == s[j]);
                }
            }
        }
    }
}

/// The comma-separated pieces of a string. A string without commas is one
/// piece; an empty piece stays an (empty) piece.
pub open spec fn spec_split_commas(s: Seq<char>) -> Seq<Seq<char>>
    decreases s.len(),
        via spec_split_commas_decreases
{
    let i = spec_first_comma(s);
    if i < 0 {
        seq![s]
    } else {
        seq![s.take(i)] + spec_split_commas(s.skip(i + 1))
    }
}

#[via_fn]
proof fn spec_split_commas_decreases(s: Seq<char>) {
    lemma_first_comma(s);
}

/// Splits a string at its commas.
#[verifier::loop_isolation(false)]
pub fn split_commas(s: &str) -> (r: Vec<String>)
    ensures
        crate::util::strings_view(r@) == spec_split_commas(s@),
    decreases s@.len(),
{
    let len = s.unicode_len();
    let mut i: usize = 0;
    while i < len
        invariant
            i <= len,
            forall|j: int| 0 <= j < i as int ==> s@[j] != ',',
        decreases len - i,
    {
        if s.get_char(i) == ',' {
            proof {
                lemma_first_comma(s@);
                assert(spec_first_comma(s@) == i as int);
            }
            let head = s.substring_char(0, i);
            let tail = s.substring_char(i + 1, len);
            let mut out: Vec<String> = Vec::new();
            out.push(String::from_str(head));
            let mut rest = split_commas(tail);
            let ghost restv = rest@;
            out.append(&mut rest);
            proof {
                assert(s@.take(i as int) == head@);
                assert(tail@ == s@.skip(i + 1));
                assert(crate::util::strings_view(out@) =~= seq![s@.take(i as int)]
                    + crate::util::strings_view(restv));
            }
            return out;
        }
        i = i + 1;
    }
    proof {
        lemma_first_comma(s@);
        if spec_first_comma(s@) >= 0 {
            assert(s@[spec_first_comma(s@)] != ',');
            assert(false);
        }
    }
    let mut out: Vec<String> = Vec::new();
    out.push(String::from_str(s));
    proof {
        assert(crate::util::strings_view(out@) =~= seq![s@]);
    }
    out
}

/// The list of scalars a comma-separated string denotes for the given
/// scalar type: nothing at all if any piece fails its standard reading, and
/// the empty list for the empty string.
pub open spec fn spec_comma_separated(ty: AtomTy, s: Seq<char>) -> Option<Seq<SpecAtom>> {
    if s.len() == 0 {
        Some(Seq::empty())
    } else {
        let pieces = spec_split_commas(s);
        if forall|i: int| 0 <= i < pieces.len() ==> spec_parse_atom(ty, #[trigger] pieces[i]) is Some {
            Some(pieces.map_values(|p: Seq<char>| spec_parse_atom(ty, p)->Some_0))
        } else {
            None
        }
    }
}

/// The error a failing list piece is reported with.
pub open spec fn spec_list_item_error(piece: Seq<char>) -> Seq<char> {
    "cannot parse list item: "@ + piece
}

/// Reads a list of scalars of the given type from a comma-separated string:
/// the reading behind the comma-separated parse policy, usable on its own.
/// An empty string reads as the empty list; the first piece that fails its
/// scalar reading fails the whole string, and names itself in the error.
#[verifier::loop_isolation(false)]
pub fn comma_separated(value: &str, ty: AtomTy) -> (r: Result<Option<Vec<Atom>>, String>)
    ensures
        match r {
            Ok(o) => o matches Some(v) && spec_comma_separated(ty, value@) matches Some(sv) && v@
                .map_values(|a: Atom| a@) =~= sv,
            Err(e) => {
                &&& spec_comma_separated(ty, value@) is None
                &&& value@.len() != 0
                &&& exists|k: int|
                    0 <= k < spec_split_commas(value@).len() && spec_parse_atom(
                        ty,
                        #[trigger] spec_split_commas(value@)[k],
                    ) is None && (forall|j: int|
                        0 <= j < k ==> spec_parse_atom(
                            ty,
                            #[trigger] spec_split_commas(value@)[j],
                        ) is Some) && e@ == spec_list_item_error(spec_split_commas(value@)[k])
            },
        },
{
    if value.unicode_len() == 0 {
        let r: Vec<Atom> = Vec::new();
        proof {
            assert(r@.map_values(|a: Atom| a@) =~= Seq::<SpecAtom>::empty());
        }
        return Ok(Some(r));
    }
    let pieces = split_commas(value);
    let ghost sp = spec_split_commas(value@);
    let mut out: Vec<Atom> = Vec::new();
    let mut i: usize = 0;
    while i < pieces.len()
        invariant
            i <= pieces@.len(),
            crate::util::strings_view(pieces@) == sp,
            out@.len() == i as int,
            forall|j: int|
                0 <= j < i as int ==> spec_parse_atom(ty, sp[j]) == Some((#[trigger] out@[j])@),
        decreases pieces@.len() - i,
    {
        match parse_atom(ty, pieces[i].as_str()) {
            Some(a) => {
                out.push(a);
            },
            None => {
                let mut msg = String::from_str("cannot parse list item: ");
                msg.append(pieces[i].as_str());
                proof {
                    assert(sp[i as int] == pieces@[i as int]@);
                    assert(spec_parse_atom(ty, sp[i as int]) is None);
                    assert(msg@ == spec_list_item_error(sp[i as int]));
                    assert forall|j: int| 0 <= j < i as int implies spec_parse_atom(
                        ty,
                        #[trigger] sp[j],
                    ) is Some by {
                        assert(spec_parse_atom(ty, sp[j]) == Some((out@[j])@));
                    }
                }
                return Err(msg);
            },
        }
        i = i + 1;
    }
    proof {
        assert forall|j: int| 0 <= j < sp.len() implies spec_parse_atom(
            ty,
            #[trigger] sp[j],
        ) is Some by {
            assert(spec_parse_atom(ty, sp[j]) == Some((out@[j])@));
        }
        assert(out@.map_values(|a: Atom| a@) =~= sp.map_values(
            |p: Seq<char>| spec_parse_atom(ty, p)->Some_0,
        ));
    }
    Ok(Some(out))
}

} // verus!
