//! Decides, for one file name and one date, whether to rename and to what.

use vstd::prelude::*;
use crate::date::Date;

verus! {

/// Whether `s` begins with `prefix`.
pub fn starts_with(s: &Vec<u8>, prefix: &Vec<u8>) -> (r: bool)
    ensures
        r == prefix@.is_prefix_of(s@),
{
    if prefix.len() > s.len() {
        return false;
    }
    let mut i: usize = 0;
    while i < prefix.len()
        invariant
            i <= prefix@.len() <= s@.len(),
            forall|j: int| 0 <= j < i ==> s@[j] == prefix@[j],
        decreases prefix@.len() - i,
    {
        if s[i] != prefix[i] {
            return false;
        }
        i = i + 1;
    }
    proof {
        assert(prefix@ =~= s@.subrange(0, prefix@.len() as int));
    }
    true
}

/// The name a file gets when the date prefix is added: `YYYY-MM-DD__<name>`.
pub open spec fn renamed(d: Date, name: Seq<u8>) -> Seq<u8> {
    d.iso() + seq![95u8, 95u8] + name
}

/// What is to happen to a file named `name` whose modification date is `d`:
/// nothing when the name already starts with the date, otherwise a rename
/// to `renamed(d, name)`.
pub open spec fn spec_plan(d: Date, name: Seq<u8>) -> Option<Seq<u8>> {
    if d.iso().is_prefix_of(name) {
        None
    } else {
        Some(renamed(d, name))
    }
}

/// Decides whether a file named `name`, last modified on date `d`, is to be
/// renamed, and returns the new name when it is.
pub fn plan_rename(d: &Date, name: &Vec<u8>) -> (r: Option<Vec<u8>>)
    requires
        d.wf(),
    ensures
        match r {
            None => spec_plan(*d, name@) is None,
            Some(n) => spec_plan(*d, name@) == Some(n@),
        },
{
    let prefix = d.to_iso();
    if starts_with(name, &prefix) {
        None
    } else {
        let mut out = prefix;
        out.push(95);
        out.push(95);
        let mut i: usize = 0;
        while i < name.len()
            invariant
                i <= name@.len(),
                out@ == d.iso() + seq![95u8, 95u8] + name@.subrange(0, i as int),
            decreases name@.len() - i,
        {
            out.push(name[i]);
            proof {
                assert(name@.subrange(0, i as int).push(name@[i as int]) =~= name@.subrange(
                    0,
                    i as int + 1,
                ));
            }
            i = i + 1;
        }
        proof {
            assert(name@.subrange(0, name@.len() as int) =~= name@);
        }
        Some(out)
    }
}

/// Renaming settles after one step: a name that a rename produced already
/// carries its date prefix, so planning the same date again changes nothing.
pub proof fn lemma_plan_settles(d: Date, name: Seq<u8>)
    ensures
        spec_plan(d, renamed(d, name)) is None,
{
    assert(d.iso() =~= renamed(d, name).subrange(0, d.iso().len() as int));
}

} // verus!
