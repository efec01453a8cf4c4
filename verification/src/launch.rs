//! Launcher handoff: turn command-line flag occurrences into the ordered
//! option list.
//!
//! An argument parser reports the occurrences of each flag grouped by flag
//! name, with each occurrence carrying its position on the command line.
//! The launcher restores the operator's left-to-right order by a stable sort
//! on those positions, then parses every raw value against its registry
//! entry.  The resulting order is the order the options are later applied in,
//! which matters when the library's behaviour depends on apply order.

use vstd::prelude::*;

use crate::error::DecodeError;
use crate::error::DecodeErrorV;
use crate::options::Meta;
use crate::options::MetaV;
use crate::options::SetOption;
use crate::options::SetOptionV;
use crate::options::spec_parse_value;

verus! {

/// One occurrence of a flag on the command line: the registry entry it
/// names, the raw value given, and the occurrence's position.
pub struct FlagOccurrence {
    pub meta: Meta,
    pub value: Vec<u8>,
    pub index: usize,
}

/// Mathematical model of `FlagOccurrence`.
pub struct FlagOccurrenceV {
    pub meta: MetaV,
    pub value: Seq<u8>,
    pub index: usize,
}

impl View for FlagOccurrence {
    type V = FlagOccurrenceV;

    open spec fn view(&self) -> FlagOccurrenceV {
        FlagOccurrenceV { meta: self.meta@, value: self.value@, index: self.index }
    }
}

/// The views of a sequence of occurrences.
pub open spec fn occs_view(s: Seq<FlagOccurrence>) -> Seq<FlagOccurrenceV> {
    Seq::new(s.len(), |i: int| s[i]@)
}

/// Insert an occurrence behind every earlier element whose position does
/// not exceed its own: a stable insertion.
pub open spec fn spec_insert_occ(s: Seq<FlagOccurrenceV>, x: FlagOccurrenceV) -> Seq<
    FlagOccurrenceV,
>
    decreases s.len(),
{
    if s.len() == 0 {
        seq![x]
    } else if s.last().index > x.index {
        spec_insert_occ(s.drop_last(), x).push(s.last())
    } else {
        s.push(x)
    }
}

/// Stable insertion sort of occurrences by command-line position: equal
/// positions keep their input order.
pub open spec fn spec_sort_occ(s: Seq<FlagOccurrenceV>) -> Seq<FlagOccurrenceV>
    decreases s.len(),
{
    if s.len() == 0 {
        Seq::empty()
    } else {
        spec_insert_occ(spec_sort_occ(s.drop_last()), s.last())
    }
}

/// Occurrences sorted by position, each parsed against its registry entry,
/// first error first.
pub open spec fn spec_parse_sorted(s: Seq<FlagOccurrenceV>) -> Result<
    Seq<SetOptionV>,
    DecodeErrorV,
>
    decreases s.len(),
{
    if s.len() == 0 {
        Ok(Seq::empty())
    } else {
        match spec_parse_sorted(s.drop_last()) {
            Err(e) => Err(e),
            Ok(parsed) => match spec_parse_value(s.last().meta, s.last().value) {
                Err(e) => Err(e),
                Ok(o) => Ok(parsed.push(o)),
            },
        }
    }
}

/// What the launcher makes of a bag of flag occurrences: the occurrences in
/// command-line order, parsed.
pub open spec fn spec_collect_options(s: Seq<FlagOccurrenceV>) -> Result<
    Seq<SetOptionV>,
    DecodeErrorV,
> {
    spec_parse_sorted(spec_sort_occ(s))
}

/// Inserting at the position the loop found is what the stable insertion
/// does.
proof fn lemma_insert_occ_at(s: Seq<FlagOccurrenceV>, x: FlagOccurrenceV, j: int)
    requires
        0 <= j <= s.len(),
        forall|m: int| j <= m < s.len() ==> (#[trigger] s[m]).index > x.index,
        j > 0 ==> s[j - 1].index <= x.index,
    ensures
        spec_insert_occ(s, x) == s.take(j) + seq![x] + s.skip(j),
    decreases s.len(),
{
    if s.len() == 0 {
        assert(s.take(j) + seq![x] + s.skip(j) =~= seq![x]);
    } else if j == s.len() {
        assert(s.take(j) + seq![x] + s.skip(j) =~= s.push(x));
    } else {
        lemma_insert_occ_at(s.drop_last(), x, j);
        assert(s.drop_last().take(j) =~= s.take(j));
        assert(s.drop_last().skip(j) =~= s.skip(j).drop_last());
        assert((s.take(j) + seq![x] + s.skip(j).drop_last()).push(s.last()) =~= s.take(j) + seq![
            x,
        ] + s.skip(j));
    }
}

/// Sort occurrences by command-line position; occurrences with equal
/// positions keep their relative input order.
pub fn sort_occurrences(occurrences: Vec<FlagOccurrence>) -> (r: Vec<FlagOccurrence>)
    ensures
        occs_view(r@) == spec_sort_occ(occs_view(occurrences@)),
{
    let ghost input = occurrences@;
    let mut rest = occurrences;
    let mut sorted: Vec<FlagOccurrence> = Vec::new();
    let ghost mut taken: int = 0;
    proof {
        assert(occs_view(sorted@) =~= spec_sort_occ(occs_view(input.take(0))));
    }
    while rest.len() > 0
        invariant
            0 <= taken <= input.len(),
            rest@ =~= input.skip(taken),
            occs_view(sorted@) == spec_sort_occ(occs_view(input.take(taken))),
        decreases rest@.len(),
    {
        let x = rest.remove(0);
        proof {
            assert(x@ == input[taken]@);
            assert(rest@ =~= input.skip(taken + 1));
        }
        let ghost before = occs_view(sorted@);
        let mut j: usize = sorted.len();
        while j > 0 && sorted[j - 1].index > x.index
            invariant
                j <= sorted@.len(),
                forall|m: int|
                    j <= m < sorted@.len() ==> (#[trigger] occs_view(sorted@)[m]).index > x@.index,
            decreases j,
        {
            j = j - 1;
            assert(occs_view(sorted@)[j as int].index > x@.index);
        }
        proof {
            lemma_insert_occ_at(before, x@, j as int);
        }
        sorted.insert(j, x);
        proof {
            assert(occs_view(sorted@) =~= before.take(j as int) + seq![x@] + before.skip(j as int));
            assert(occs_view(input.take(taken + 1)).drop_last() =~= occs_view(input.take(taken)));
            assert(occs_view(input.take(taken + 1)).last() == input[taken]@);
        }
        proof {
            taken = taken + 1;
        }
    }
    proof {
        assert(input.take(taken) =~= input);
    }
    sorted
}

/// Occurrences stand in command-line order: positions never decrease.
pub open spec fn spec_ordered_by_position(s: Seq<FlagOccurrenceV>) -> bool {
    forall|i: int, j: int| 0 <= i <= j < s.len() ==> (#[trigger] s[i]).index <= (#[trigger] s[j]).index
}

/// A stable insertion keeps the sequence ordered and adds exactly the new
/// occurrence.
proof fn lemma_insert_occ_props(s: Seq<FlagOccurrenceV>, x: FlagOccurrenceV)
    requires
        spec_ordered_by_position(s),
    ensures
        spec_ordered_by_position(spec_insert_occ(s, x)),
        spec_insert_occ(s, x).to_multiset() == s.to_multiset().insert(x),
        forall|k: int|
            0 <= k < spec_insert_occ(s, x).len() ==> (#[trigger] spec_insert_occ(s, x)[k]) == x
                || s.contains(spec_insert_occ(s, x)[k]),
    decreases s.len(),
{
    broadcast use vstd::seq_lib::group_to_multiset_ensures;

    let r = spec_insert_occ(s, x);
    if s.len() == 0 {
        assert(r =~= s.push(x));
    } else if s.last().index > x.index {
        assert(spec_ordered_by_position(s.drop_last()));
        lemma_insert_occ_props(s.drop_last(), x);
        let inner = spec_insert_occ(s.drop_last(), x);
        assert(s.drop_last().push(s.last()) =~= s);
        assert forall|k: int| 0 <= k < r.len() implies (#[trigger] r[k]) == x || s.contains(
            r[k],
        ) by {
            if k < inner.len() {
                assert(r[k] == inner[k]);
                if inner[k] != x {
                    let m = choose|m: int| 0 <= m < s.drop_last().len() && s.drop_last()[m]
                        == inner[k];
                    assert(s[m] == inner[k]);
                }
            } else {
                assert(r[k] == s.last());
            }
        }
        assert forall|i: int, j: int| 0 <= i <= j < r.len() implies (#[trigger] r[i]).index <= (
        #[trigger] r[j]).index by {
            if j < inner.len() {
            } else {
                assert(r[j] == s.last());
                if i < inner.len() {
                    if r[i] == x {
                    } else {
                        let m = choose|m: int| 0 <= m < s.drop_last().len() && s.drop_last()[m]
                            == r[i];
                        assert(s[m] == r[i]);
                        assert(s[m].index <= s.last().index);
                    }
                }
            }
        }
        assert(r.to_multiset() =~= s.to_multiset().insert(x)) by {
            assert(r == inner.push(s.last()));
            assert(inner.to_multiset() == s.drop_last().to_multiset().insert(x));
            assert(s.to_multiset() == s.drop_last().to_multiset().insert(s.last()));
        }
    } else {
        assert(r == s.push(x));
        assert forall|i: int, j: int| 0 <= i <= j < r.len() implies (#[trigger] r[i]).index <= (
        #[trigger] r[j]).index by {
            if j == s.len() {
                if i < s.len() {
                    assert(r[i].index <= s.last().index);
                }
            }
        }
    }
}

/// The launcher's ordering law: sorting the reported occurrences yields a
/// sequence in command-line order that holds exactly the occurrences that
/// were reported, no more and no fewer.
pub proof fn lemma_sort_occ_ordered(s: Seq<FlagOccurrenceV>)
    ensures
        spec_ordered_by_position(spec_sort_occ(s)),
        spec_sort_occ(s).to_multiset() == s.to_multiset(),
    decreases s.len(),
{
    broadcast use vstd::seq_lib::group_to_multiset_ensures;

    if s.len() == 0 {
    } else {
        lemma_sort_occ_ordered(s.drop_last());
        lemma_insert_occ_props(spec_sort_occ(s.drop_last()), s.last());
        assert(s.drop_last().push(s.last()) =~= s);
        assert(s.to_multiset() == s.drop_last().to_multiset().insert(s.last()));
    }
}

/// An error met at some prefix of the occurrences is the error of the whole
/// sequence.
proof fn lemma_parse_sorted_prefix_err(s: Seq<FlagOccurrenceV>, j: int, e: DecodeErrorV)
    requires
        0 <= j <= s.len(),
        spec_parse_sorted(s.take(j)) == Err::<Seq<SetOptionV>, DecodeErrorV>(e),
    ensures
        spec_parse_sorted(s) == Err::<Seq<SetOptionV>, DecodeErrorV>(e),
    decreases s.len(),
{
    if j == s.len() {
        assert(s.take(j) =~= s);
    } else {
        assert(s.drop_last().take(j) =~= s.take(j));
        lemma_parse_sorted_prefix_err(s.drop_last(), j, e);
    }
}

/// Turn the flag occurrences of one command line into the option list, in
/// the operator's left-to-right order; the first value that does not parse
/// aborts with its error.
pub fn collect_options(occurrences: Vec<FlagOccurrence>) -> (r: Result<Vec<SetOption>, DecodeError>)
    ensures
        match (r, spec_collect_options(occs_view(occurrences@))) {
            (Ok(v), Ok(sv)) => crate::codec::opts_view(v@) == sv,
            (Err(e), Err(ev)) => e@ == ev,
            _ => false,
        },
{
    let ghost input = occs_view(occurrences@);
    let sorted = sort_occurrences(occurrences);
    let mut out: Vec<SetOption> = Vec::new();
    let mut i: usize = 0;
    proof {
        assert(crate::codec::opts_view(out@) =~= Seq::<SetOptionV>::empty());
        assert(occs_view(sorted@).take(0) =~= Seq::<FlagOccurrenceV>::empty());
    }
    while i < sorted.len()
        invariant
            i <= sorted@.len(),
            occs_view(sorted@) == spec_sort_occ(input),
            input == occs_view(occurrences@),
            spec_parse_sorted(occs_view(sorted@).take(i as int)) == Ok::<
                Seq<SetOptionV>,
                DecodeErrorV,
            >(crate::codec::opts_view(out@)),
        decreases sorted@.len() - i,
    {
        let ghost svs = occs_view(sorted@);
        proof {
            assert(svs.take(i + 1).drop_last() =~= svs.take(i as int));
            assert(svs.take(i + 1).last() == svs[i as int]);
        }
        match SetOption::parse_value(sorted[i].meta, sorted[i].value.as_slice()) {
            Ok(o) => {
                let ghost before = crate::codec::opts_view(out@);
                out.push(o);
                proof {
                    assert(crate::codec::opts_view(out@) =~= before.push(o@));
                }
            },
            Err(e) => {
                proof {
                    lemma_parse_sorted_prefix_err(svs, i + 1, e@);
                }
                return Err(e);
            },
        }
        i = i + 1;
    }
    proof {
        assert(occs_view(sorted@).take(i as int) =~= occs_view(sorted@));
    }
    Ok(out)
}

} // verus!
