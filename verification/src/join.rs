//! The joiner: the staged combination step that both compilers parse their
//! declaration bodies through.
//!
//! A declaration body is a run of items separated by commas or semicolons,
//! with a trailing separator tolerated. The joiner matches one fragment (a
//! maximal separator-free run of tokens), then recurses on the remainder,
//! and combines the results. It guarantees that fragments are produced
//! strictly left to right, that every non-separator token lands in exactly
//! one fragment, and that no fragment is skipped or duplicated; an empty
//! fragment anywhere but after the final item is a grammar error, reported
//! with its position.

use vstd::prelude::*;

use crate::token::Token;

verus! {

/// A half-open range `[start, end)` of token positions holding one body item.
pub struct Fragment {
    pub start: usize,
    pub end: usize,
}

/// The position of the first separator token at or after `lo` (and before
/// `hi`), or `hi` if there is none.
pub open spec fn spec_find_separator(toks: Seq<Token>, lo: int, hi: int) -> int
    decreases hi - lo,
{
    if lo >= hi {
        hi
    } else if toks[lo].spec_is_separator() {
        lo
    } else {
        spec_find_separator(toks, lo + 1, hi)
    }
}

/// How the token range `[lo, hi)` splits into separator-delimited fragments:
/// the fragment ranges in order, or the position of an illegal empty
/// fragment (a separator with no item before it).
pub open spec fn spec_split(toks: Seq<Token>, lo: int, hi: int) -> Result<Seq<(int, int)>, int>
    decreases hi - lo,
    via spec_split_decreases
{
    if lo >= hi {
        Ok(Seq::empty())
    } else if toks[lo].spec_is_separator() {
        Err(lo)
    } else {
        let sep = spec_find_separator(toks, lo, hi);
        if sep >= hi {
            Ok(seq![(lo, hi)])
        } else if sep + 1 == hi {
            Ok(seq![(lo, sep)])
        } else {
            match spec_split(toks, sep + 1, hi) {
                Ok(rest) => Ok(seq![(lo, sep)] + rest),
                Err(p) => Err(p),
            }
        }
    }
}

/// The first separator stands no earlier than the start of the search.
proof fn lemma_find_separator_lb(toks: Seq<Token>, lo: int, hi: int)
    requires
        lo <= hi,
    ensures
        spec_find_separator(toks, lo, hi) >= lo,
    decreases hi - lo,
{
    if lo >= hi {
    } else if toks[lo].spec_is_separator() {
    } else {
        lemma_find_separator_lb(toks, lo + 1, hi);
    }
}

#[via_fn]
proof fn spec_split_decreases(toks: Seq<Token>, lo: int, hi: int) {
    if lo < hi && !toks[lo].spec_is_separator() {
        lemma_find_separator_lb(toks, lo, hi);
    }
}

pub fn find_separator(toks: &Vec<Token>, lo: usize, hi: usize) -> (r: usize)
    requires
        lo <= hi <= toks@.len(),
    ensures
        r == spec_find_separator(toks@, lo as int, hi as int),
        lo <= r <= hi,
        forall|i: int| lo <= i < r ==> !(#[trigger] toks@[i]).spec_is_separator(),
        r < hi ==> toks@[r as int].spec_is_separator(),
    decreases hi - lo,
{
    if lo >= hi {
        hi
    } else if toks[lo].is_separator() {
        lo
    } else {
        find_separator(toks, lo + 1, hi)
    }
}

/// Split the token range `[lo, hi)` into its body-item fragments, reporting
/// the position of an illegal empty fragment as the error.
pub fn split_fragments(toks: &Vec<Token>, lo: usize, hi: usize) -> (r: Result<Vec<Fragment>, usize>)
    requires
        lo <= hi <= toks@.len(),
    ensures
        (match r {
            Ok(frs) => {
                &&& spec_split(toks@, lo as int, hi as int) == Ok::<_, int>(
                    frs@.map_values(|f: Fragment| (f.start as int, f.end as int)),
                )
                &&& forall|k: int|
                    0 <= k < frs@.len() ==> lo <= (#[trigger] frs@[k]).start < frs@[k].end <= hi
            },
            Err(p) => spec_split(toks@, lo as int, hi as int) == Err::<Seq<(int, int)>, _>(
                p as int,
            ),
        }),
    decreases hi - lo,
{
    if lo >= hi {
        let frs: Vec<Fragment> = Vec::new();
        assert(frs@.map_values(|f: Fragment| (f.start as int, f.end as int)) =~= Seq::<(
            int,
            int,
        )>::empty());
        Ok(frs)
    } else if toks[lo].is_separator() {
        Err(lo)
    } else {
        let sep = find_separator(toks, lo, hi);
        if sep >= hi {
            let mut frs: Vec<Fragment> = Vec::new();
            frs.push(Fragment { start: lo, end: hi });
            assert(frs@.map_values(|f: Fragment| (f.start as int, f.end as int)) =~= seq![
                (lo as int, hi as int),
            ]);
            Ok(frs)
        } else if sep + 1 == hi {
            let mut frs: Vec<Fragment> = Vec::new();
            frs.push(Fragment { start: lo, end: sep });
            assert(frs@.map_values(|f: Fragment| (f.start as int, f.end as int)) =~= seq![
                (lo as int, sep as int),
            ]);
            Ok(frs)
        } else {
            match split_fragments(toks, sep + 1, hi) {
                Ok(rest) => {
                    let mut frs: Vec<Fragment> = Vec::new();
                    frs.push(Fragment { start: lo, end: sep });
                    let mut k: usize = 0;
                    while k < rest.len()
                        invariant
                            k <= rest@.len(),
                            frs@.len() == k + 1,
                            frs@[0] == (Fragment { start: lo, end: sep }),
                            forall|j: int| 0 <= j < k ==> frs@[j + 1] == rest@[j],
                        decreases rest@.len() - k,
                    {
                        frs.push(Fragment { start: rest[k].start, end: rest[k].end });
                        k += 1;
                    }
                    proof {
                        let m = |f: Fragment| (f.start as int, f.end as int);
                        assert(frs@.map_values(m) =~= seq![(lo as int, sep as int)]
                            + rest@.map_values(m));
                        assert forall|j: int| 0 <= j < frs@.len() implies lo <= (
                        #[trigger] frs@[j]).start < frs@[j].end <= hi by {
                            if j > 0 {
                                assert(frs@[j] == rest@[j - 1]);
                            }
                        }
                    }
                    Ok(frs)
                },
                Err(p) => Err(p),
            }
        }
    }
}

/// The joiner's guarantee, stated of the fragment ranges it yields: every
/// fragment lies inside the split range and is nonempty, fragments come
/// strictly left to right with exactly one separator between two
/// neighbours, no fragment holds a separator, and every position of the
/// range that lies in no fragment is a separator standing between or after
/// the fragments. Nothing is skipped and nothing is duplicated.
pub proof fn lemma_split_covers(toks: Seq<Token>, lo: int, hi: int, frs: Seq<(int, int)>)
    requires
        0 <= lo <= hi <= toks.len(),
        spec_split(toks, lo, hi) == Ok::<_, int>(frs),
    ensures
        forall|k: int| 0 <= k < frs.len() ==> lo <= #[trigger] frs[k].0 < frs[k].1 <= hi,
        forall|k: int| 0 <= k < frs.len() - 1 ==> #[trigger] frs[k].1 + 1 == frs[k + 1].0,
        frs.len() > 0 ==> frs[0].0 == lo,
        forall|k: int, i: int|
            0 <= k < frs.len() && (#[trigger] frs[k]).0 <= i < frs[k].1 ==> !(
            #[trigger] toks[i]).spec_is_separator(),
        forall|i: int|
            lo <= i < hi && (forall|k: int|
                0 <= k < frs.len() ==> !(#[trigger] frs[k].0 <= i && i < frs[k].1))
                ==> (#[trigger] toks[i]).spec_is_separator(),
    decreases hi - lo,
{
    if lo >= hi {
    } else if toks[lo].spec_is_separator() {
    } else {
        let sep = spec_find_separator(toks, lo, hi);
        lemma_find_separator(toks, lo, hi);
        if sep >= hi {
        } else if sep + 1 == hi {
        } else {
            let rest = spec_split(toks, sep + 1, hi)->Ok_0;
            lemma_split_covers(toks, sep + 1, hi, rest);
            assert forall|i: int|
                lo <= i < hi && (forall|k: int|
                    0 <= k < frs.len() ==> !(#[trigger] frs[k].0 <= i && i < frs[k].1))
                implies toks[i].spec_is_separator() by {
                if i == sep {
                } else if i < sep {
                    assert(frs[0].0 <= i && i < frs[0].1);
                } else {
                    assert forall|k: int| 0 <= k < rest.len() implies !(#[trigger] rest[k].0 <= i
                        && i < rest[k].1) by {
                        assert(frs[k + 1] == rest[k]);
                    }
                }
            }
        }
    }
}

/// Every position strictly before the first separator holds a non-separator
/// token, and the found position holds a separator unless it is `hi`.
pub proof fn lemma_find_separator(toks: Seq<Token>, lo: int, hi: int)
    requires
        0 <= lo <= hi <= toks.len(),
    ensures
        lo <= spec_find_separator(toks, lo, hi) <= hi,
        forall|i: int|
            lo <= i < spec_find_separator(toks, lo, hi) ==> !(
            #[trigger] toks[i]).spec_is_separator(),
        spec_find_separator(toks, lo, hi) < hi ==> toks[spec_find_separator(
            toks,
            lo,
            hi,
        )].spec_is_separator(),
    decreases hi - lo,
{
    if lo >= hi {
    } else if toks[lo].spec_is_separator() {
    } else {
        lemma_find_separator(toks, lo + 1, hi);
    }
}

} // verus!
