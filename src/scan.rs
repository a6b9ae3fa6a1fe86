use vstd::prelude::*;
use rayon::iter::{IndexedParallelIterator, IntoParallelRefIterator, ParallelIterator};
use crate::error::MemoryError;
use crate::pattern::{
    PatternToken, TokenModel, tokens_view, match_offsets, find_all_occurrences,
    lemma_match_offsets, parse_pattern, parse_spec, wildcard_pattern, law_wildcard_identity,
};

verus! {

/// The contents read from one region, with the address they start at.
#[derive(Debug, Clone)]
pub struct RegionBytes {
    pub base: usize,
    pub bytes: Vec<u8>,
}

/// The absolute addresses at which `pat` matches the bytes read from `base`.
/// Bytes that would run past the end of the address space make the region
/// count as unreadable.
pub open spec fn region_addresses(base: usize, bytes: Seq<u8>, pat: Seq<TokenModel>) -> Seq<int> {
    if base + bytes.len() <= usize::MAX {
        match_offsets(bytes, pat).map_values(|o: int| base + o)
    } else {
        seq![]
    }
}

/// The matches of every region, regions in order, addresses increasing within each.
pub open spec fn all_addresses(chunks: Seq<RegionBytes>, pat: Seq<TokenModel>) -> Seq<int>
    decreases chunks.len(),
{
    if chunks.len() == 0 {
        seq![]
    } else {
        all_addresses(chunks.drop_last(), pat) + region_addresses(
            chunks.last().base,
            chunks.last().bytes@,
            pat,
        )
    }
}

pub open spec fn as_ints(s: Seq<usize>) -> Seq<int> {
    s.map_values(|a: usize| a as int)
}

/// Every absolute address at which `pattern` matches the bytes read from `base`.
pub fn region_hits(base: usize, bytes: &[u8], pattern: &[PatternToken]) -> (r: Vec<usize>)
    ensures
        as_ints(r@) == region_addresses(base, bytes@, tokens_view(pattern@)),
{
    let mut out: Vec<usize> = Vec::new();
    if bytes.len() > usize::MAX - base {
        assert(as_ints(out@) =~= seq![]);
        return out;
    }
    let offsets = find_all_occurrences(bytes, pattern);
    let ghost pv = tokens_view(pattern@);
    let ghost m = match_offsets(bytes@, pv);
    proof {
        lemma_match_offsets(bytes@, pv);
    }
    let mut k: usize = 0;
    while k < offsets.len()
        invariant
            k <= offsets.len(),
            base + bytes.len() <= usize::MAX,
            as_ints(offsets@) == m,
            m == match_offsets(bytes@, pv),
            forall|i: int| #[trigger] m.contains(i) ==> i + pv.len() <= bytes.len(),
            as_ints(out@) == m.take(k as int).map_values(|o: int| base + o),
        decreases offsets.len() - k,
    {
        assert(m[k as int] == offsets@[k as int] as int);
        assert(m.contains(m[k as int]));
        let ghost before = out@;
        out.push(base + offsets[k]);
        assert(m.take(k + 1) =~= m.take(k as int).push(m[k as int]));
        assert(as_ints(out@) =~= as_ints(before).push(base + m[k as int]));
        assert(m.take(k + 1).map_values(|o: int| base + o) =~= m.take(k as int).map_values(
            |o: int| base + o,
        ).push(base + m[k as int]));
        k = k + 1;
    }
    assert(m.take(m.len() as int) =~= m);
    out
}

/// Relies on rayon's `par_iter().map(..).collect_into_vec(..)`: the map runs
/// on every element of the slice, and each result is stored at the position
/// of its element.
#[verifier::external_body]
fn par_region_hits(chunks: &Vec<RegionBytes>, pattern: &Vec<PatternToken>) -> (r: Vec<Vec<usize>>)
    ensures
        r@.len() == chunks@.len(),
        forall|i: int|
            0 <= i < chunks@.len() ==> as_ints(#[trigger] r@[i]@) == region_addresses(
                chunks@[i].base,
                chunks@[i].bytes@,
                tokens_view(pattern@),
            ),
{
    let mut out: Vec<Vec<usize>> = Vec::new();
    chunks.par_iter().map(|c| region_hits(c.base, &c.bytes, pattern)).collect_into_vec(&mut out);
    out
}

/// Searches every region for `pattern`, the regions in parallel, and returns
/// the matching absolute addresses: regions in their given order, addresses
/// increasing within each region, overlapping matches included.
pub fn scan_regions(chunks: &Vec<RegionBytes>, pattern: &Vec<PatternToken>) -> (r: Vec<usize>)
    ensures
        as_ints(r@) == all_addresses(chunks@, tokens_view(pattern@)),
{
    let per_region = par_region_hits(chunks, pattern);
    let ghost pv = tokens_view(pattern@);
    let mut out: Vec<usize> = Vec::new();
    let mut i: usize = 0;
    while i < per_region.len()
        invariant
            i <= per_region.len(),
            per_region@.len() == chunks@.len(),
            pv == tokens_view(pattern@),
            forall|j: int|
                0 <= j < chunks@.len() ==> as_ints(#[trigger] per_region@[j]@) == region_addresses(
                    chunks@[j].base,
                    chunks@[j].bytes@,
                    pv,
                ),
            as_ints(out@) == all_addresses(chunks@.take(i as int), pv),
        decreases per_region.len() - i,
    {
        let hits = &per_region[i];
        let ghost before = out@;
        let mut k: usize = 0;
        while k < hits.len()
            invariant
                k <= hits.len(),
                out@ == before + hits@.take(k as int),
            decreases hits.len() - k,
        {
            out.push(hits[k]);
            assert(hits@.take(k + 1) =~= hits@.take(k as int).push(hits@[k as int]));
            k = k + 1;
        }
        assert(hits@.take(hits.len() as int) =~= hits@);
        assert(chunks@.take(i + 1).drop_last() =~= chunks@.take(i as int));
        assert(as_ints(before + hits@) =~= as_ints(before) + as_ints(hits@));
        i = i + 1;
    }
    assert(chunks@.take(chunks@.len() as int) =~= chunks@);
    out
}

/// Compiles `pattern_text` and searches the regions read for it: the
/// computing part of an array-of-bytes query.
pub fn search_pattern(chunks: &Vec<RegionBytes>, pattern_text: &[u8]) -> (r: Result<
    Vec<usize>,
    MemoryError,
>)
    ensures
        match parse_spec(pattern_text@) {
            Some(pat) => r is Ok && as_ints(r->Ok_0@) == all_addresses(chunks@, pat),
            None => r == Err::<Vec<usize>, MemoryError>(MemoryError::MalformedPattern),
        },
{
    match parse_pattern(pattern_text) {
        Ok(pattern) => Ok(scan_regions(chunks, &pattern)),
        Err(e) => Err(e),
    }
}

/// A scan for `k > 0` wildcards reports, for a region read from `base`, every
/// address from `base` to `base + len - k`, where `len` is the number of
/// bytes read.
pub proof fn law_scan_wildcard_identity(base: usize, bytes: Seq<u8>, k: nat)
    requires
        k > 0,
        k <= bytes.len(),
        base + bytes.len() <= usize::MAX,
    ensures
        region_addresses(base, bytes, wildcard_pattern(k)) == Seq::new(
            (bytes.len() - k + 1) as nat,
            |i: int| base + i,
        ),
{
    law_wildcard_identity(bytes, k);
    assert(region_addresses(base, bytes, wildcard_pattern(k)) =~= Seq::new(
        (bytes.len() - k + 1) as nat,
        |i: int| base + i,
    ));
}

/// For each region, every address from its base to `base + len - k`, where
/// `len` is the number of bytes read; nothing for a region shorter than `k`.
pub open spec fn every_window_start(chunks: Seq<RegionBytes>, k: nat) -> Seq<int>
    decreases chunks.len(),
{
    if chunks.len() == 0 {
        seq![]
    } else {
        every_window_start(chunks.drop_last(), k) + if k <= chunks.last().bytes@.len() {
            Seq::new(
                (chunks.last().bytes@.len() - k + 1) as nat,
                |i: int| chunks.last().base + i,
            )
        } else {
            seq![]
        }
    }
}

/// A scan for a pattern of `k > 0` wildcards reports every start address of
/// every region that fits `k` bytes: regions in order, addresses increasing.
pub proof fn law_scan_all_wildcards(chunks: Seq<RegionBytes>, pat: Seq<TokenModel>)
    requires
        pat.len() > 0,
        forall|j: int| 0 <= j < pat.len() ==> #[trigger] pat[j] == TokenModel::Wildcard,
        forall|c: int|
            0 <= c < chunks.len() ==> #[trigger] chunks[c].base + chunks[c].bytes@.len()
                <= usize::MAX,
    ensures
        all_addresses(chunks, pat) == every_window_start(chunks, pat.len()),
    decreases chunks.len(),
{
    if chunks.len() > 0 {
        let init = chunks.drop_last();
        assert forall|c: int| 0 <= c < init.len() implies #[trigger] init[c].base
            + init[c].bytes@.len() <= usize::MAX by {
            assert(init[c] == chunks[c]);
        }
        law_scan_all_wildcards(init, pat);
        assert(pat =~= wildcard_pattern(pat.len()));
        let last = chunks.last();
        assert(last.base + last.bytes@.len() <= usize::MAX) by {
            assert(chunks[chunks.len() - 1] == last);
        }
        if pat.len() <= last.bytes@.len() {
            law_scan_wildcard_identity(last.base, last.bytes@, pat.len());
        } else {
            assert(region_addresses(last.base, last.bytes@, pat) =~= seq![]);
        }
    }
}

} // verus!
