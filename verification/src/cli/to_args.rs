//! Command-line arguments as texts, and how they are shown on one line.

use vstd::prelude::*;
use vstd::string::StringExecFns;

verus! {

/// Whether the strings `v` are the texts `t`, one for one.
pub open spec fn strings_are(v: Seq<String>, t: Seq<Seq<char>>) -> bool {
    &&& v.len() == t.len()
    &&& forall|i: int| 0 <= i < v.len() ==> (#[trigger] v[i])@ == t[i]
}

/// The texts `parts` behind `first`, each with a space before it.
pub open spec fn space_joined(first: Seq<char>, parts: Seq<Seq<char>>) -> Seq<char>
    decreases parts.len(),
{
    if parts.len() == 0 {
        first
    } else {
        space_joined(first, parts.drop_last()) + " "@ + parts.last()
    }
}

/// `first` and the strings `parts` on one line, with a space between each
/// two.
pub fn join_with_spaces(first: &str, parts: &Vec<String>) -> (r: String)
    ensures
        forall|t: Seq<Seq<char>>| strings_are(parts@, t) ==> r@ == #[trigger] space_joined(first@, t),
{
    let mut r = String::from_str(first);
    let mut i: usize = 0;
    while i < parts.len()
        invariant
            i <= parts.len(),
            forall|t: Seq<Seq<char>>|
                strings_are(parts@, t) ==> r@ == #[trigger] space_joined(first@, t.take(i as int)),
        decreases parts.len() - i,
    {
        let ghost before = r@;
        r.append(" ");
        r.append(parts[i].as_str());
        proof {
            assert forall|t: Seq<Seq<char>>| strings_are(parts@, t) implies r@
                == #[trigger] space_joined(first@, t.take(i + 1)) by {
                assert(t.take(i + 1).drop_last() =~= t.take(i as int));
                assert(t.take(i + 1).last() == t[i as int]);
                assert(before == space_joined(first@, t.take(i as int)));
            }
        }
        i += 1;
    }
    proof {
        assert forall|t: Seq<Seq<char>>| strings_are(parts@, t) implies r@ == #[trigger] space_joined(
            first@,
            t,
        ) by {
            assert(t.take(parts.len() as int) =~= t);
            assert(r@ == space_joined(first@, t.take(parts.len() as int)));
        }
    }
    r
}

} // verus!
