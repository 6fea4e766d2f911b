//! The CPU cores on which benchmarks run: one logical CPU for each physical
//! core, never core 0, which is left to the system.
//!
//! The operating system lists one directory per logical CPU, named `cpu`
//! and a number, and tells for each which logical CPUs share its physical
//! core. Of each such group the CPU with the lowest number is used.

use crate::text::{parse_usize, to_chars, trim, trimmed, unsigned_within};
use vstd::prelude::*;
use vstd::string::*;

verus! {

/// One entry of the directory of CPUs.
#[derive(Debug, Clone)]
pub struct CpuEntry {
    /// The entry's name.
    pub name: String,
    /// What the entry tells of the CPUs that share its physical core, where
    /// that could be read.
    pub siblings: Option<String>,
}

/// A logical CPU that may run benchmarks, with the group of CPUs that share
/// its physical core.
pub struct Candidate {
    /// Number of the CPU.
    pub number: usize,
    /// The group, without surrounding white space.
    pub group: String,
}

/// The number of the CPU that an entry of this name stands for: the name is
/// `cpu` followed by a number.
pub open spec fn cpu_number(name: Seq<char>) -> Option<usize> {
    if name.len() >= 3 && name[0] == 'c' && name[1] == 'p' && name[2] == 'u' {
        match unsigned_within(name.skip(3), usize::MAX as nat) {
            Some(number) => if name[3] == '+' {
                None
            } else {
                Some(number as usize)
            },
            None => None,
        }
    } else {
        None
    }
}

/// What an entry contributes: its CPU's number and group, where the entry
/// names a CPU other than core 0 and its group could be read.
pub open spec fn candidate_of(entry: CpuEntry) -> Option<(usize, Seq<char>)> {
    match (cpu_number(entry.name@), entry.siblings) {
        (Some(number), Some(siblings)) => if number != 0 {
            Some((number, trimmed(siblings@)))
        } else {
            None
        },
        _ => None,
    }
}

/// `sorted` with `item` put before the first candidate of a higher number.
pub open spec fn inserted(sorted: Seq<(usize, Seq<char>)>, item: (usize, Seq<char>)) -> Seq<
    (usize, Seq<char>),
>
    decreases sorted.len(),
{
    if sorted.len() == 0 {
        seq![item]
    } else if sorted.last().0 <= item.0 {
        sorted.push(item)
    } else {
        inserted(sorted.drop_last(), item).push(sorted.last())
    }
}

/// The candidates of the entries in ascending order of their numbers;
/// candidates of one number keep the order of the entries.
pub open spec fn candidates_of(entries: Seq<CpuEntry>) -> Seq<(usize, Seq<char>)>
    decreases entries.len(),
{
    if entries.len() == 0 {
        Seq::empty()
    } else {
        let earlier = candidates_of(entries.drop_last());
        match candidate_of(entries.last()) {
            Some(item) => inserted(earlier, item),
            None => earlier,
        }
    }
}

/// Whether the group of candidate `at` occurs among the candidates before
/// it.
pub open spec fn group_seen(candidates: Seq<(usize, Seq<char>)>, at: int) -> bool {
    exists|earlier: int| 0 <= earlier < at && candidates[earlier].1 == candidates[at].1
}

/// The numbers of the candidates that are the first of their group.
pub open spec fn first_of_groups(candidates: Seq<(usize, Seq<char>)>) -> Seq<usize>
    decreases candidates.len(),
{
    if candidates.len() == 0 {
        Seq::empty()
    } else {
        let earlier = first_of_groups(candidates.drop_last());
        if group_seen(candidates, candidates.len() - 1) {
            earlier
        } else {
            earlier.push(candidates.last().0)
        }
    }
}

/// The physical cores among the entries: for each group of CPUs that share
/// a core the lowest CPU, in ascending order.
pub open spec fn physical_cores(entries: Seq<CpuEntry>) -> Seq<usize> {
    first_of_groups(candidates_of(entries))
}

/// The cores that benchmarks run on: those detected, or core 1 alone where
/// detection failed or found none.
pub open spec fn usable_cores(detected: Option<Seq<usize>>) -> Seq<usize> {
    match detected {
        Some(cores) => if cores.len() > 0 {
            cores
        } else {
            seq![1usize]
        },
        None => seq![1usize],
    }
}

/// Whether numbers ascend.
pub open spec fn ascending(numbers: Seq<usize>) -> bool {
    forall|i: int, j: int| 0 <= i < j < numbers.len() ==> numbers[i] <= numbers[j]
}

/// Whether candidates ascend by number.
pub open spec fn candidates_ascend(candidates: Seq<(usize, Seq<char>)>) -> bool {
    forall|i: int, j: int| 0 <= i < j < candidates.len() ==> candidates[i].0 <= candidates[j].0
}

/// The views of candidates.
pub open spec fn candidate_views(candidates: Seq<Candidate>) -> Seq<(usize, Seq<char>)> {
    candidates.map_values(|c: Candidate| (c.number, c.group@))
}

/// Inserting keeps the order, adds one candidate, and lets no number be
/// zero where none was.
pub proof fn lemma_inserted(sorted: Seq<(usize, Seq<char>)>, item: (usize, Seq<char>))
    requires
        candidates_ascend(sorted),
    ensures
        candidates_ascend(inserted(sorted, item)),
        inserted(sorted, item).len() == sorted.len() + 1,
        forall|i: int|
            0 <= i < inserted(sorted, item).len() ==> (#[trigger] inserted(sorted, item)[i]) == item
                || sorted.contains(inserted(sorted, item)[i]),
    decreases sorted.len(),
{
    let out = inserted(sorted, item);
    if sorted.len() == 0 {
    } else if sorted.last().0 <= item.0 {
        assert forall|i: int, j: int| 0 <= i < j < out.len() implies out[i].0 <= out[j].0 by {
            if j == out.len() - 1 {
                assert(out[i] == sorted[i]);
                if i < sorted.len() - 1 {
                    assert(sorted[i].0 <= sorted[sorted.len() - 1].0);
                }
            } else {
                assert(out[i] == sorted[i] && out[j] == sorted[j]);
            }
        }
        assert forall|i: int| 0 <= i < out.len() implies (#[trigger] out[i]) == item
            || sorted.contains(out[i]) by {
            if i < sorted.len() {
                assert(out[i] == sorted[i]);
            }
        }
    } else {
        let front = sorted.drop_last();
        assert(candidates_ascend(front)) by {
            assert forall|i: int, j: int| 0 <= i < j < front.len() implies front[i].0
                <= front[j].0 by {
                assert(front[i] == sorted[i] && front[j] == sorted[j]);
            }
        }
        lemma_inserted(front, item);
        let inner = inserted(front, item);
        assert forall|i: int| 0 <= i < out.len() implies (#[trigger] out[i]) == item
            || sorted.contains(out[i]) by {
            if i < inner.len() {
                assert(out[i] == inner[i]);
                if inner[i] != item {
                    let k = choose|k: int| 0 <= k < front.len() && front[k] == inner[i];
                    assert(sorted[k] == out[i]);
                }
            } else {
                assert(out[i] == sorted[sorted.len() - 1]);
            }
        }
        assert forall|i: int, j: int| 0 <= i < j < out.len() implies out[i].0 <= out[j].0 by {
            if j == out.len() - 1 {
                assert(out[i] == inner[i]);
                if inner[i] == item {
                } else {
                    let k = choose|k: int| 0 <= k < front.len() && front[k] == inner[i];
                    assert(sorted[k].0 <= sorted[sorted.len() - 1].0);
                }
            } else {
                assert(out[i] == inner[i] && out[j] == inner[j]);
            }
        }
    }
}

/// The candidates of any entries ascend, and none is core 0.
pub proof fn lemma_candidates(entries: Seq<CpuEntry>)
    ensures
        candidates_ascend(candidates_of(entries)),
        forall|i: int|
            0 <= i < candidates_of(entries).len() ==> (#[trigger] candidates_of(entries)[i]).0 != 0,
    decreases entries.len(),
{
    if entries.len() > 0 {
        let earlier = candidates_of(entries.drop_last());
        lemma_candidates(entries.drop_last());
        match candidate_of(entries.last()) {
            Some(item) => {
                lemma_inserted(earlier, item);
                let out = inserted(earlier, item);
                assert forall|i: int| 0 <= i < out.len() implies (#[trigger] out[i]).0 != 0 by {
                    if out[i] != item {
                        let k = choose|k: int| 0 <= k < earlier.len() && earlier[k] == out[i];
                        assert(earlier[k].0 != 0);
                    }
                }
            },
            None => {},
        }
    }
}

/// The first of the groups ascend where the candidates do, and each is the
/// number of a candidate.
pub proof fn lemma_first_of_groups(candidates: Seq<(usize, Seq<char>)>)
    requires
        candidates_ascend(candidates),
    ensures
        ascending(first_of_groups(candidates)),
        forall|i: int|
            0 <= i < first_of_groups(candidates).len() ==> exists|k: int|
                0 <= k < candidates.len() && candidates[k].0 == #[trigger] first_of_groups(
                    candidates,
                )[i],
    decreases candidates.len(),
{
    if candidates.len() > 0 {
        let front = candidates.drop_last();
        assert(candidates_ascend(front)) by {
            assert forall|i: int, j: int| 0 <= i < j < front.len() implies front[i].0
                <= front[j].0 by {
                assert(front[i] == candidates[i] && front[j] == candidates[j]);
            }
        }
        lemma_first_of_groups(front);
        let inner = first_of_groups(front);
        let out = first_of_groups(candidates);
        assert forall|i: int| 0 <= i < out.len() implies exists|k: int|
            0 <= k < candidates.len() && candidates[k].0 == #[trigger] out[i] by {
            if i < inner.len() {
                assert(out[i] == inner[i]);
                let k = choose|k: int| 0 <= k < front.len() && front[k].0 == inner[i];
                assert(candidates[k].0 == out[i]);
            } else {
                assert(candidates[candidates.len() - 1].0 == out[i]);
            }
        }
        assert forall|i: int, j: int| 0 <= i < j < out.len() implies out[i] <= out[j] by {
            if j < inner.len() {
                assert(out[i] == inner[i] && out[j] == inner[j]);
            } else {
                assert(out[i] == inner[i]);
                let k = choose|k: int| 0 <= k < front.len() && front[k].0 == inner[i];
                assert(candidates[k].0 <= candidates[candidates.len() - 1].0);
            }
        }
    }
}

/// The physical cores ascend and core 0 is not among them.
pub proof fn lemma_physical_cores(entries: Seq<CpuEntry>)
    ensures
        ascending(physical_cores(entries)),
        forall|i: int| 0 <= i < physical_cores(entries).len() ==> #[trigger] physical_cores(
            entries,
        )[i] != 0,
{
    lemma_candidates(entries);
    lemma_first_of_groups(candidates_of(entries));
    let candidates = candidates_of(entries);
    let cores = physical_cores(entries);
    assert forall|i: int| 0 <= i < cores.len() implies #[trigger] cores[i] != 0 by {
        let k = choose|k: int| 0 <= k < candidates.len() && candidates[k].0 == cores[i];
        assert(candidates[k].0 != 0);
    }
}

/// The usable cores are never empty; they ascend and leave out core 0 where
/// the detected cores do.
pub proof fn lemma_usable_cores(detected: Option<Seq<usize>>)
    requires
        detected is Some ==> ascending(detected->Some_0) && forall|i: int|
            0 <= i < detected->Some_0.len() ==> #[trigger] detected->Some_0[i] != 0,
    ensures
        usable_cores(detected).len() > 0,
        ascending(usable_cores(detected)),
        forall|i: int| 0 <= i < usable_cores(detected).len() ==> #[trigger] usable_cores(
            detected,
        )[i] != 0,
{
}

/// The number of the CPU that an entry of this name stands for.
pub fn parse_cpu_name(name: &str) -> (number: Option<usize>)
    ensures
        number == cpu_number(name@),
{
    let chars = to_chars(name);
    if chars.len() >= 3 && chars[0] == 'c' && chars[1] == 'p' && chars[2] == 'u' {
        if chars.len() > 3 && chars[3] == '+' {
            proof {
                assert(name@.skip(3)[0] == '+');
            }
            return None;
        }
        let digits = name.substring_char(3, chars.len());
        proof {
            assert(digits@ =~= name@.skip(3));
            if name@.len() > 3 {
                assert(name@.skip(3)[0] == name@[3]);
            }
        }
        parse_usize(digits)
    } else {
        None
    }
}

/// Puts `item` before the first candidate of a higher number.
fn insert_candidate(sorted: &mut Vec<Candidate>, item: Candidate)
    ensures
        candidate_views(final(sorted)@) == inserted(
            candidate_views(old(sorted)@),
            (item.number, item.group@),
        ),
{
    let ghost before = candidate_views(sorted@);
    let ghost view = (item.number, item.group@);
    let mut at: usize = sorted.len();
    proof {
        assert(before.take(before.len() as int) =~= before);
        assert(inserted(before, view) + before.skip(before.len() as int) =~= inserted(
            before,
            view,
        ));
    }
    while at > 0 && sorted[at - 1].number > item.number
        invariant
            at <= sorted@.len(),
            sorted@ == old(sorted)@,
            before == candidate_views(sorted@),
            view == (item.number, item.group@),
            inserted(before, view) == inserted(before.take(at as int), view) + before.skip(
                at as int,
            ),
        decreases at,
    {
        proof {
            let prefix = before.take(at as int);
            assert(prefix.last() == before[at - 1]);
            assert(prefix.drop_last() =~= before.take(at - 1));
            assert(inserted(prefix, view) == inserted(before.take(at - 1), view).push(
                before[at - 1],
            ));
            assert(inserted(before.take(at - 1), view).push(before[at - 1]) + before.skip(
                at as int,
            ) =~= inserted(before.take(at - 1), view) + before.skip(at - 1));
        }
        at -= 1;
    }
    proof {
        let prefix = before.take(at as int);
        if at > 0 {
            assert(prefix.last() == before[at - 1]);
        }
        assert(inserted(prefix, view) == prefix.push(view)) by {
            if at == 0 {
                assert(prefix.len() == 0);
                assert(prefix.push(view) =~= seq![view]);
            }
        }
        assert(before.take(before.len() as int) =~= before);
        assert(before.skip(before.len() as int) =~= Seq::<(usize, Seq<char>)>::empty());
    }
    sorted.insert(at, item);
    proof {
        assert(candidate_views(sorted@) =~= before.take(at as int).push(view) + before.skip(
            at as int,
        ));
    }
}

/// The candidates of the entries in ascending order of their numbers.
fn collect_candidates(entries: &Vec<CpuEntry>) -> (candidates: Vec<Candidate>)
    ensures
        candidate_views(candidates@) == candidates_of(entries@),
{
    let mut candidates: Vec<Candidate> = Vec::new();
    let mut i: usize = 0;
    proof {
        assert(candidate_views(candidates@) =~= Seq::<(usize, Seq<char>)>::empty());
        assert(entries@.take(0) =~= Seq::<CpuEntry>::empty());
    }
    while i < entries.len()
        invariant
            i <= entries@.len(),
            candidate_views(candidates@) == candidates_of(entries@.take(i as int)),
        decreases entries@.len() - i,
    {
        proof {
            assert(entries@.take(i + 1).drop_last() =~= entries@.take(i as int));
            assert(entries@.take(i + 1).last() == entries@[i as int]);
        }
        match parse_cpu_name(entries[i].name.as_str()) {
            Some(number) => {
                if number != 0 {
                    match &entries[i].siblings {
                        Some(siblings) => {
                            let group = trim(siblings.as_str());
                            insert_candidate(&mut candidates, Candidate { number, group });
                        },
                        None => {},
                    }
                }
            },
            None => {},
        }
        i += 1;
    }
    proof {
        assert(entries@.take(i as int) =~= entries@);
    }
    candidates
}

/// Whether the group of candidate `at` occurs among the candidates before
/// it.
fn seen_before(candidates: &Vec<Candidate>, at: usize) -> (seen: bool)
    requires
        at < candidates@.len(),
    ensures
        seen == group_seen(candidate_views(candidates@), at as int),
{
    let ghost views = candidate_views(candidates@);
    let mut k: usize = 0;
    while k < at
        invariant
            k <= at < candidates@.len(),
            views == candidate_views(candidates@),
            forall|earlier: int| 0 <= earlier < k ==> views[earlier].1 != views[at as int].1,
        decreases at - k,
    {
        if candidates[k].group == candidates[at].group {
            assert(views[k as int].1 == views[at as int].1);
            return true;
        }
        k += 1;
    }
    false
}

/// The physical cores among the entries of the directory of CPUs: for each
/// group of CPUs that share a core the lowest CPU other than core 0, in
/// ascending order.
pub fn detect_physical_cores(entries: &Vec<CpuEntry>) -> (cores: Vec<usize>)
    ensures
        cores@ == physical_cores(entries@),
        ascending(cores@),
        forall|i: int| 0 <= i < cores@.len() ==> #[trigger] cores@[i] != 0,
{
    let candidates = collect_candidates(entries);
    let ghost views = candidate_views(candidates@);
    let mut cores: Vec<usize> = Vec::new();
    let mut i: usize = 0;
    proof {
        assert(views.take(0) =~= Seq::<(usize, Seq<char>)>::empty());
    }
    while i < candidates.len()
        invariant
            i <= candidates@.len(),
            views == candidate_views(candidates@),
            cores@ == first_of_groups(views.take(i as int)),
        decreases candidates@.len() - i,
    {
        proof {
            let prefix = views.take(i + 1);
            assert(prefix.drop_last() =~= views.take(i as int));
            assert(prefix.last() == views[i as int]);
            assert(group_seen(prefix, i as int) == group_seen(views, i as int)) by {
                if group_seen(views, i as int) {
                    let e = choose|e: int| 0 <= e < i && views[e].1 == views[i as int].1;
                    assert(prefix[e].1 == prefix[i as int].1);
                }
                if group_seen(prefix, i as int) {
                    let e = choose|e: int| 0 <= e < i && prefix[e].1 == prefix[i as int].1;
                    assert(views[e].1 == views[i as int].1);
                }
            }
        }
        if !seen_before(&candidates, i) {
            cores.push(candidates[i].number);
        }
        i += 1;
    }
    proof {
        assert(views.take(i as int) =~= views);
        lemma_physical_cores(entries@);
    }
    cores
}

/// The cores that benchmarks run on: those detected, or core 1 alone where
/// detection failed or found none.
pub fn get_usable_cores(detected: Option<Vec<usize>>) -> (cores: Vec<usize>)
    ensures
        cores@ == usable_cores(
            match detected {
                Some(found) => Some(found@),
                None => None,
            },
        ),
        cores@.len() > 0,
{
    match detected {
        Some(found) => {
            if found.len() > 0 {
                found
            } else {
                let mut cores: Vec<usize> = Vec::new();
                cores.push(1);
                assert(cores@ =~= seq![1usize]);
                cores
            }
        },
        None => {
            let mut cores: Vec<usize> = Vec::new();
            cores.push(1);
            assert(cores@ =~= seq![1usize]);
            cores
        },
    }
}

/// The cores of a run: the first `jobs` usable cores where a number of jobs
/// is given, else all usable cores, and core 1 alone where that leaves none.
pub open spec fn selected_cores(available: Seq<usize>, jobs: Option<usize>) -> Seq<usize> {
    let taken = match jobs {
        Some(count) => if count < available.len() {
            available.take(count as int)
        } else {
            available
        },
        None => available,
    };
    if taken.len() > 0 {
        taken
    } else {
        seq![1usize]
    }
}

/// The cores of a run in parallel.
pub fn select_cores(available: Vec<usize>, jobs: Option<usize>) -> (cores: Vec<usize>)
    ensures
        cores@ == selected_cores(available@, jobs),
        cores@.len() > 0,
{
    let mut cores = available;
    match jobs {
        Some(count) => {
            if count < cores.len() {
                cores.truncate(count);
                assert(cores@ =~= available@.take(count as int));
            }
        },
        None => {},
    }
    if cores.len() == 0 {
        cores.push(1);
        assert(cores@ =~= seq![1usize]);
    }
    cores
}

} // verus!
