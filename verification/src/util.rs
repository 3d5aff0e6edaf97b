//! Small merge helpers shared by the merge engine.

use vstd::prelude::*;

verus! {

/// The characters of each string in a list, as a sequence of sequences.
pub open spec fn strings_view(v: Seq<String>) -> Seq<Seq<char>> {
    v.map_values(|s: String| s@)
}

/// The dotted join of two path segments, as sequences of characters.
pub open spec fn spec_dotted(a: Seq<char>, b: Seq<char>) -> Seq<char> {
    a + seq!['.'] + b
}

/// Joins a field name and a path below it into one dotted path.
pub fn join_path(a: &str, b: &str) -> (r: String)
    ensures
        r@ == spec_dotted(a@, b@),
{
    let mut s = String::from_str(a);
    s.append(".");
    s.append(b);
    proof {
        reveal_strlit(".");
        assert(s@ =~= spec_dotted(a@, b@));
    }
    s
}

/// Whether two string slices hold the same characters.
pub fn str_eq(a: &str, b: &str) -> (r: bool)
    ensures
        r == (a@ == b@),
{
    let la = a.unicode_len();
    let lb = b.unicode_len();
    if la != lb {
        return false;
    }
    let mut i: usize = 0;
    while i < la
        invariant
            la == a@.len(),
            lb == b@.len(),
            la == lb,
            i <= la,
            forall|j: int| 0 <= j < i as int ==> a@[j] == b@[j],
        decreases la - i,
    {
        if a.get_char(i) != b.get_char(i) {
            return false;
        }
        i = i + 1;
    }
    proof {
        assert(a@ =~= b@);
    }
    true
}

/// Default merge policy for a leaf field: a present incoming value replaces
/// the current one; an absent incoming value leaves the current one untouched.
pub fn merge_flat<T>(left: &mut Option<T>, right: Option<T>) -> (r: Result<
    (),
    std::convert::Infallible,
>)
    ensures
        r is Ok,
        *final(left) == (if right is Some {
            right
        } else {
            *old(left)
        }),
{
    if let Some(right) = right {
        *left = Some(right);
    }
    Ok(())
}

} // verus!
