//! Collects the matches of a list of glob patterns, each already expanded,
//! into one list of paths, and notes which patterns matched nothing.

use vstd::prelude::*;

verus! {

/// The byte strings a list of byte vectors holds.
pub open spec fn views_of(vs: Seq<Vec<u8>>) -> Seq<Seq<u8>> {
    vs.map_values(|p: Vec<u8>| p@)
}

/// The view of one pattern's expansion: nothing when the pattern failed to
/// parse, else its matches as byte strings, in the order they were found.
pub open spec fn view_exp(e: Option<Vec<Vec<u8>>>) -> Option<Seq<Seq<u8>>> {
    match e {
        None => None,
        Some(v) => Some(views_of(v@)),
    }
}

/// The views of a whole list of expansions.
pub open spec fn exps_of(es: Seq<Option<Vec<Vec<u8>>>>) -> Seq<Option<Seq<Seq<u8>>>> {
    es.map_values(|e: Option<Vec<Vec<u8>>>| view_exp(e))
}

/// The concatenation, in argument order, of the matches of each pattern
/// that parsed; a failed pattern contributes nothing.
pub open spec fn spec_collect(es: Seq<Option<Seq<Seq<u8>>>>) -> Seq<Seq<u8>>
    decreases es.len(),
{
    if es.len() == 0 {
        Seq::empty()
    } else {
        spec_collect(es.drop_last()) + (match es.last() {
            Some(m) => m,
            None => Seq::empty(),
        })
    }
}

/// Whether one expansion parsed but matched nothing: the case that earns
/// a warning.
pub open spec fn matched_nothing(e: Option<Vec<Vec<u8>>>) -> bool {
    match e {
        Some(v) => v@.len() == 0,
        None => false,
    }
}

/// The collection is empty exactly when every pattern either failed to
/// parse or matched nothing.
pub proof fn lemma_collect_empty(es: Seq<Option<Seq<Seq<u8>>>>)
    ensures
        spec_collect(es).len() == 0 <==> (forall|i: int|
            0 <= i < es.len() ==> (match #[trigger] es[i] {
                Some(m) => m.len() == 0,
                None => true,
            })),
    decreases es.len(),
{
    if es.len() > 0 {
        lemma_collect_empty(es.drop_last());
        assert(forall|i: int| 0 <= i < es.len() - 1 ==> es.drop_last()[i] == es[i]);
    }
}

/// Copies a byte string.
fn copy_bytes(v: &Vec<u8>) -> (r: Vec<u8>)
    ensures
        r@ == v@,
{
    let mut r: Vec<u8> = Vec::new();
    let mut i: usize = 0;
    while i < v.len()
        invariant
            i <= v@.len(),
            r@ == v@.subrange(0, i as int),
        decreases v@.len() - i,
    {
        r.push(v[i]);
        proof {
            assert(v@.subrange(0, i as int).push(v@[i as int]) =~= v@.subrange(
                0,
                i as int + 1,
            ));
        }
        i = i + 1;
    }
    proof {
        assert(v@.subrange(0, v@.len() as int) =~= v@);
    }
    r
}

/// Concatenates, in argument order, the matches of each pattern that
/// parsed, and reports for each pattern whether it parsed but matched
/// nothing. Matches are kept as they come: no deduplication, no reordering.
pub fn collect_paths(expansions: &Vec<Option<Vec<Vec<u8>>>>) -> (r: (Vec<Vec<u8>>, Vec<bool>))
    ensures
        views_of(r.0@) == spec_collect(exps_of(expansions@)),
        r.1@.len() == expansions@.len(),
        forall|i: int| 0 <= i < expansions@.len() ==> r.1@[i] == matched_nothing(expansions@[i]),
{
    let ghost es = exps_of(expansions@);
    let mut out: Vec<Vec<u8>> = Vec::new();
    let mut flags: Vec<bool> = Vec::new();
    let mut i: usize = 0;
    while i < expansions.len()
        invariant
            i <= expansions@.len(),
            es == exps_of(expansions@),
            views_of(out@) == spec_collect(es.take(i as int)),
            flags@.len() == i,
            forall|k: int| 0 <= k < i ==> flags@[k] == matched_nothing(expansions@[k]),
        decreases expansions@.len() - i,
    {
        proof {
            assert(es[i as int] == view_exp(expansions@[i as int]));
        }
        match &expansions[i] {
            None => {
                flags.push(false);
            },
            Some(v) => {
                flags.push(v.len() == 0);
                let mut j: usize = 0;
                while j < v.len()
                    invariant
                        j <= v@.len(),
                        es == exps_of(expansions@),
                        i < expansions@.len(),
                        expansions@[i as int] == Some(*v),
                        views_of(out@) == spec_collect(es.take(i as int)) + views_of(v@).take(
                            j as int,
                        ),
                    decreases v@.len() - j,
                {
                    let b = copy_bytes(&v[j]);
                    let ghost prev = out@;
                    out.push(b);
                    proof {
                        assert(views_of(out@) =~= views_of(prev).push(b@));
                        assert(b@ == views_of(v@)[j as int]);
                        assert(views_of(out@) =~= spec_collect(es.take(i as int)) + views_of(
                            v@,
                        ).take(j as int + 1));
                    }
                    j = j + 1;
                }
                proof {
                    assert(views_of(v@).take(v@.len() as int) =~= views_of(v@));
                }
            },
        }
        proof {
            assert(es.take(i as int + 1).drop_last() =~= es.take(i as int));
            assert(es.take(i as int + 1).last() == es[i as int]);
            assert(views_of(out@) =~= spec_collect(es.take(i as int + 1)));
        }
        i = i + 1;
    }
    proof {
        assert(es.take(es.len() as int) =~= es);
    }
    (out, flags)
}

} // verus!
