//! The preload chain: the ordered, colon-joined list of modules the dynamic
//! loader loads ahead of a program's own dependencies.
//!
//! The launcher prepends the interception module's path to whatever chain the
//! parent environment already carries.  On the other side, the interception
//! module can strip exactly its own path back out of the chain, so that
//! children of the target command are not themselves intercepted.

use vstd::prelude::*;

verus! {

/// The chain with `shim` prepended: `shim` alone when there was no prior
/// chain, otherwise `shim`, a colon, then the unmodified prior chain.
pub open spec fn spec_prepend_preload(shim: Seq<u8>, prior: Option<Seq<u8>>) -> Seq<u8> {
    match prior {
        None => shim,
        Some(p) => shim + seq![58u8] + p,
    }
}

/// Split a chain on colons.
pub open spec fn spec_split_colons(s: Seq<u8>) -> Seq<Seq<u8>>
    decreases s.len(),
{
    if s.len() == 0 {
        seq![Seq::<u8>::empty()]
    } else if s[0] == 58 {
        seq![Seq::<u8>::empty()] + spec_split_colons(s.drop_first())
    } else {
        let rest = spec_split_colons(s.drop_first());
        seq![seq![s[0]] + rest[0]] + rest.drop_first()
    }
}

/// Join chain entries with colons.
pub open spec fn spec_join_colons(parts: Seq<Seq<u8>>) -> Seq<u8>
    decreases parts.len(),
{
    if parts.len() == 0 {
        Seq::empty()
    } else if parts.len() == 1 {
        parts[0]
    } else {
        spec_join_colons(parts.drop_last()) + seq![58u8] + parts.last()
    }
}

/// The entries with every occurrence of `marker` removed.
pub open spec fn spec_remove_entry(parts: Seq<Seq<u8>>, marker: Seq<u8>) -> Seq<Seq<u8>>
    decreases parts.len(),
{
    if parts.len() == 0 {
        Seq::empty()
    } else {
        let rest = spec_remove_entry(parts.drop_last(), marker);
        if parts.last() == marker {
            rest
        } else {
            rest.push(parts.last())
        }
    }
}

/// The chain with every entry equal to `marker` removed.
pub open spec fn spec_strip_preload(chain: Seq<u8>, marker: Seq<u8>) -> Seq<u8> {
    spec_join_colons(spec_remove_entry(spec_split_colons(chain), marker))
}

/// Build the preload chain for the target process: the interception
/// module's path, then any prior chain after a colon separator.
pub fn build_preload_chain(shim: &[u8], prior: Option<&Vec<u8>>) -> (r: Vec<u8>)
    ensures
        r@ == spec_prepend_preload(
            shim@,
            match prior {
                Some(p) => Some(p@),
                None => None::<Seq<u8>>,
            },
        ),
{
    let mut out: Vec<u8> = Vec::new();
    out.extend_from_slice(shim);
    match prior {
        Some(p) => {
            out.push(58);
            out.extend_from_slice(p.as_slice());
            proof {
                assert(out@ =~= shim@ + seq![58u8] + p@);
            }
        },
        None => {
            proof {
                assert(out@ =~= shim@);
            }
        },
    }
    out
}

/// Splitting always yields at least one entry.
proof fn lemma_split_colons_nonempty(s: Seq<u8>)
    ensures
        spec_split_colons(s).len() >= 1,
    decreases s.len(),
{
    if s.len() > 0 {
        lemma_split_colons_nonempty(s.drop_first());
    }
}

/// A colon-free byte string splits into exactly itself.
proof fn lemma_split_colons_plain(s: Seq<u8>)
    requires
        forall|k: int| 0 <= k < s.len() ==> (#[trigger] s[k]) != 58,
    ensures
        spec_split_colons(s) == seq![s],
    decreases s.len(),
{
    if s.len() == 0 {
        assert(spec_split_colons(s) =~~= seq![s]);
    } else {
        lemma_split_colons_plain(s.drop_first());
        let rest = spec_split_colons(s.drop_first());
        assert(seq![s[0]] + rest[0] =~= s);
        assert(spec_split_colons(s) =~~= seq![s]);
    }
}

/// Splitting distributes over a colon.
proof fn lemma_split_colons_concat(a: Seq<u8>, b: Seq<u8>)
    ensures
        spec_split_colons(a + seq![58u8] + b) == spec_split_colons(a) + spec_split_colons(b),
    decreases a.len(),
{
    let s = a + seq![58u8] + b;
    if a.len() == 0 {
        assert(s[0] == 58);
        assert(s.drop_first() =~= b);
        assert(spec_split_colons(s) =~= seq![Seq::<u8>::empty()] + spec_split_colons(b));
        assert(spec_split_colons(a) =~= seq![Seq::<u8>::empty()]);
        assert(spec_split_colons(s) =~= spec_split_colons(a) + spec_split_colons(b));
    } else {
        lemma_split_colons_concat(a.drop_first(), b);
        lemma_split_colons_nonempty(a.drop_first());
        assert(s[0] == a[0]);
        assert(s.drop_first() =~= a.drop_first() + seq![58u8] + b);
        let ra = spec_split_colons(a.drop_first());
        let rb = spec_split_colons(b);
        if a[0] == 58 {
            assert(spec_split_colons(s) =~= seq![Seq::<u8>::empty()] + (ra + rb));
            assert(spec_split_colons(a) =~= seq![Seq::<u8>::empty()] + ra);
            assert((seq![Seq::<u8>::empty()] + ra) + rb =~= seq![Seq::<u8>::empty()] + (ra + rb));
        } else {
            assert(spec_split_colons(s) =~= seq![seq![a[0]] + ra[0]] + (ra.drop_first() + rb));
            assert(spec_split_colons(a) =~= seq![seq![a[0]] + ra[0]] + ra.drop_first());
            assert((seq![seq![a[0]] + ra[0]] + ra.drop_first()) + rb =~= seq![seq![a[0]] + ra[0]]
                + (ra.drop_first() + rb));
        }
    }
}

/// Joining a leading entry onto further entries.
proof fn lemma_join_colons_cons(a: Seq<u8>, t: Seq<Seq<u8>>)
    ensures
        spec_join_colons(seq![a] + t) == if t.len() == 0 {
            a
        } else {
            a + seq![58u8] + spec_join_colons(t)
        },
    decreases t.len(),
{
    if t.len() == 0 {
        assert(seq![a] + t =~= seq![a]);
    } else if t.len() == 1 {
        assert((seq![a] + t).drop_last() =~= seq![a]);
        assert((seq![a] + t).last() == t[0]);
        assert(spec_join_colons(seq![a] + t) == spec_join_colons(seq![a]) + seq![58u8] + t[0]);
    } else {
        lemma_join_colons_cons(a, t.drop_last());
        assert((seq![a] + t).drop_last() =~= seq![a] + t.drop_last());
        assert((seq![a] + t).last() == t.last());
        assert((a + seq![58u8] + spec_join_colons(t.drop_last())) + seq![58u8] + t.last() =~= a
            + seq![58u8] + (spec_join_colons(t.drop_last()) + seq![58u8] + t.last()));
    }
}

/// Joining undoes splitting.
proof fn lemma_join_split_colons(s: Seq<u8>)
    ensures
        spec_join_colons(spec_split_colons(s)) == s,
    decreases s.len(),
{
    if s.len() == 0 {
    } else if s[0] == 58 {
        lemma_join_split_colons(s.drop_first());
        lemma_split_colons_nonempty(s.drop_first());
        lemma_join_colons_cons(Seq::<u8>::empty(), spec_split_colons(s.drop_first()));
        assert(Seq::<u8>::empty() + seq![58u8] + s.drop_first() =~= s);
    } else {
        lemma_join_split_colons(s.drop_first());
        lemma_split_colons_nonempty(s.drop_first());
        let r = spec_split_colons(s.drop_first());
        lemma_join_colons_cons(seq![s[0]] + r[0], r.drop_first());
        if r.len() == 1 {
            assert(r =~= seq![r[0]]);
            assert(spec_join_colons(r) == r[0]);
            assert(seq![s[0]] + r[0] =~= s);
        } else {
            lemma_join_colons_cons(r[0], r.drop_first());
            assert(seq![r[0]] + r.drop_first() =~= r);
            assert(spec_join_colons(r) == r[0] + seq![58u8] + spec_join_colons(r.drop_first()));
            assert((seq![s[0]] + r[0]) + seq![58u8] + spec_join_colons(r.drop_first()) =~= seq![
                s[0],
            ] + (r[0] + seq![58u8] + spec_join_colons(r.drop_first())));
            assert(seq![s[0]] + spec_join_colons(r) =~= s);
        }
    }
}

/// Removal distributes over concatenation of entry sequences.
proof fn lemma_remove_entry_concat(a: Seq<Seq<u8>>, b: Seq<Seq<u8>>, marker: Seq<u8>)
    ensures
        spec_remove_entry(a + b, marker) == spec_remove_entry(a, marker) + spec_remove_entry(
            b,
            marker,
        ),
    decreases b.len(),
{
    if b.len() == 0 {
        assert(a + b =~= a);
        assert(spec_remove_entry(a, marker) + spec_remove_entry(b, marker) =~= spec_remove_entry(
            a,
            marker,
        ));
    } else {
        lemma_remove_entry_concat(a, b.drop_last(), marker);
        assert((a + b).drop_last() =~= a + b.drop_last());
        assert((a + b).last() == b.last());
    }
}

/// Removal leaves a sequence without the marker untouched.
proof fn lemma_remove_entry_absent(parts: Seq<Seq<u8>>, marker: Seq<u8>)
    requires
        forall|j: int| 0 <= j < parts.len() ==> (#[trigger] parts[j]) != marker,
    ensures
        spec_remove_entry(parts, marker) == parts,
    decreases parts.len(),
{
    if parts.len() == 0 {
        assert(spec_remove_entry(parts, marker) =~= parts);
    } else {
        lemma_remove_entry_absent(parts.drop_last(), marker);
        assert(parts.drop_last().push(parts.last()) =~= parts);
    }
}

/// Prepending the interception module's path and then removing it restores
/// the prior chain exactly, whenever the path is a single entry (no colon)
/// and the prior chain does not itself carry that entry.
pub proof fn lemma_preload_round_trip(shim: Seq<u8>, prior: Seq<u8>)
    requires
        forall|k: int| 0 <= k < shim.len() ==> (#[trigger] shim[k]) != 58,
        forall|j: int|
            0 <= j < spec_split_colons(prior).len() ==> (#[trigger] spec_split_colons(prior)[j])
                != shim,
    ensures
        spec_strip_preload(spec_prepend_preload(shim, Some(prior)), shim) == prior,
{
    let chain = shim + seq![58u8] + prior;
    lemma_split_colons_concat(shim, prior);
    lemma_split_colons_plain(shim);
    let segs = spec_split_colons(chain);
    assert(segs == seq![shim] + spec_split_colons(prior));
    lemma_remove_entry_concat(seq![shim], spec_split_colons(prior), shim);
    assert(spec_remove_entry(seq![shim], shim) =~= Seq::<Seq<u8>>::empty()) by {
        assert(seq![shim].drop_last() =~= Seq::<Seq<u8>>::empty());
        assert(spec_remove_entry(Seq::<Seq<u8>>::empty(), shim) =~= Seq::<Seq<u8>>::empty());
        assert(seq![shim].last() == shim);
    }
    lemma_remove_entry_absent(spec_split_colons(prior), shim);
    assert(spec_remove_entry(segs, shim) =~= spec_split_colons(prior));
    lemma_join_split_colons(prior);
}

/// Are two byte strings equal?
fn eq_bytes(a: &[u8], b: &[u8]) -> (r: bool)
    ensures
        r == (a@ == b@),
{
    if a.len() != b.len() {
        proof {
            assert(a@ != b@);
        }
        return false;
    }
    let mut i: usize = 0;
    while i < a.len()
        invariant
            a@.len() == b@.len(),
            i <= a@.len(),
            forall|j: int| 0 <= j < i ==> a@[j] == b@[j],
        decreases a@.len() - i,
    {
        if a[i] != b[i] {
            return false;
        }
        i = i + 1;
    }
    proof {
        assert(a@ =~= b@);
    }
    true
}

/// The entries of the prefix that the cursor at `p` has fully passed.
pub open spec fn spec_prefix_entries(s: Seq<u8>, p: int) -> Seq<Seq<u8>> {
    if p == 0 {
        Seq::empty()
    } else {
        spec_split_colons(s.take(p - 1))
    }
}

/// Completing the colon-free entry that spans `p..j` extends the passed
/// prefix by exactly that entry.
proof fn lemma_colon_entry_step(s: Seq<u8>, p: int, j: int)
    requires
        0 <= p <= j <= s.len(),
        p == 0 || s[p - 1] == 58,
        forall|k: int| p <= k < j ==> (#[trigger] s[k]) != 58,
    ensures
        spec_split_colons(s.take(j)) == spec_prefix_entries(s, p) + seq![s.subrange(p, j)],
{
    let seg = s.subrange(p, j);
    assert(forall|k: int| 0 <= k < seg.len() ==> (#[trigger] seg[k]) != 58);
    lemma_split_colons_plain(seg);
    if p == 0 {
        assert(s.take(j) =~= seg);
        assert(spec_prefix_entries(s, p) + seq![seg] =~= seq![seg]);
    } else {
        assert(s.take(p - 1) + seq![58u8] + seg =~= s.take(j));
        lemma_split_colons_concat(s.take(p - 1), seg);
    }
}

/// Remove every entry equal to `marker` from a colon-joined chain.  The
/// entries kept stay in their order; what remains is joined with colons
/// again.
pub fn strip_preload_entry(chain: &[u8], marker: &[u8]) -> (r: Vec<u8>)
    ensures
        r@ == spec_strip_preload(chain@, marker@),
{
    let mut out: Vec<u8> = Vec::new();
    let mut kept: bool = false;
    let mut seg_start: usize = 0;
    let mut i: usize = 0;
    while i < chain.len()
        invariant
            seg_start <= i <= chain@.len(),
            seg_start == 0 || chain@[seg_start - 1] == 58,
            forall|k: int| seg_start <= k < i ==> (#[trigger] chain@[k]) != 58,
            kept == (spec_remove_entry(
                spec_prefix_entries(chain@, seg_start as int),
                marker@,
            ).len() > 0),
            out@ == spec_join_colons(
                spec_remove_entry(spec_prefix_entries(chain@, seg_start as int), marker@),
            ),
        decreases chain@.len() - i,
    {
        if chain[i] == 58 {
            let entry = &chain[seg_start..i];
            let ghost prefix = spec_remove_entry(
                spec_prefix_entries(chain@, seg_start as int),
                marker@,
            );
            proof {
                lemma_colon_entry_step(chain@, seg_start as int, i as int);
                assert((spec_prefix_entries(chain@, seg_start as int) + seq![
                    entry@,
                ]).drop_last() =~= spec_prefix_entries(chain@, seg_start as int));
                assert((spec_prefix_entries(chain@, seg_start as int) + seq![entry@]).last()
                    == entry@);
            }
            if !eq_bytes(entry, marker) {
                if kept {
                    out.push(58);
                }
                out.extend_from_slice(entry);
                proof {
                    assert((prefix.push(entry@)).drop_last() =~= prefix);
                    if prefix.len() == 0 {
                        assert(prefix.push(entry@) =~= seq![entry@]);
                        assert(out@ =~= entry@);
                    } else {
                        assert(out@ =~= spec_join_colons(prefix) + seq![58u8] + entry@);
                    }
                }
                kept = true;
            }
            seg_start = i + 1;
        }
        i = i + 1;
    }
    let entry = &chain[seg_start..chain.len()];
    let ghost prefix = spec_remove_entry(spec_prefix_entries(chain@, seg_start as int), marker@);
    proof {
        lemma_colon_entry_step(chain@, seg_start as int, chain@.len() as int);
        assert(chain@.take(chain@.len() as int) =~= chain@);
        assert((spec_prefix_entries(chain@, seg_start as int) + seq![entry@]).drop_last()
            =~= spec_prefix_entries(chain@, seg_start as int));
        assert((spec_prefix_entries(chain@, seg_start as int) + seq![entry@]).last() == entry@);
    }
    if !eq_bytes(entry, marker) {
        if kept {
            out.push(58);
        }
        out.extend_from_slice(entry);
        proof {
            assert((prefix.push(entry@)).drop_last() =~= prefix);
            if prefix.len() == 0 {
                assert(prefix.push(entry@) =~= seq![entry@]);
                assert(out@ =~= entry@);
            } else {
                assert(out@ =~= spec_join_colons(prefix) + seq![58u8] + entry@);
            }
        }
    }
    out
}

} // verus!
