//! The scan: which directory entries are processed, and what is kept of the
//! outcomes that the workers report.

use crate::file::{
    is_supported_extension, outcome_view, supported_extension, CommentView, FileData,
    FileDataView, ProcessingError, ProcessingErrorView,
};
use vstd::multiset::Multiset;
use vstd::prelude::*;

verus! {

/// Whether an entry of the walk is processed: it is a regular file and the
/// extension of its name is supported. `is_file` is `None` where the entry's
/// metadata could not be read, `extension` is `None` where the name has none.
pub open spec fn candidate(is_file: Option<bool>, extension: Option<Seq<char>>) -> bool {
    &&& is_file == Some(true)
    &&& extension matches Some(extension) && supported_extension(extension)
}

/// The view of an extension, if any.
pub open spec fn extension_view(extension: Option<&str>) -> Option<Seq<char>> {
    match extension {
        Some(extension) => Some(extension@),
        None => None,
    }
}

/// Whether an entry of the walk is handed to a worker.
pub fn is_candidate(is_file: Option<bool>, extension: Option<&str>) -> (submit: bool)
    ensures
        submit == candidate(is_file, extension_view(extension)),
{
    match is_file {
        Some(true) => match extension {
            Some(extension) => is_supported_extension(extension),
            None => false,
        },
        _ => false,
    }
}

/// What a scan found: the records of the files that were processed, and the
/// failures of the others, each in the order the outcomes arrived.
#[derive(Debug)]
pub struct ScanReport {
    pub records: Vec<FileData>,
    pub failures: Vec<ProcessingError>,
}

/// The views of a sequence of outcomes.
pub open spec fn outcome_views(outcomes: Seq<Result<FileData, ProcessingError>>) -> Seq<
    Result<FileDataView, ProcessingErrorView>,
> {
    outcomes.map_values(|outcome: Result<FileData, ProcessingError>| outcome_view(outcome))
}

/// The records among `outcomes`, in order.
pub open spec fn successes(outcomes: Seq<Result<FileDataView, ProcessingErrorView>>) -> Seq<
    FileDataView,
> {
    outcomes.filter_map(
        |outcome: Result<FileDataView, ProcessingErrorView>|
            match outcome {
                Ok(record) => Some(record),
                Err(_) => None,
            },
    )
}

/// The failures among `outcomes`, in order.
pub open spec fn failures(outcomes: Seq<Result<FileDataView, ProcessingErrorView>>) -> Seq<
    ProcessingErrorView,
> {
    outcomes.filter_map(
        |outcome: Result<FileDataView, ProcessingErrorView>|
            match outcome {
                Ok(_) => None,
                Err(error) => Some(error),
            },
    )
}

/// Parts the outcomes that the workers reported into records and failures,
/// each kept in the order of arrival. A failure costs its own file only:
/// every record is kept.
pub fn search_source(outcomes: Vec<Result<FileData, ProcessingError>>) -> (report: ScanReport)
    ensures
        report.records.deep_view() == successes(outcome_views(outcomes@)),
        report.failures.deep_view() == failures(outcome_views(outcomes@)),
{
    let ghost all = outcome_views(outcomes@);
    let ghost keep = |outcome: Result<FileDataView, ProcessingErrorView>|
        match outcome {
            Ok(record) => Some(record),
            Err(_) => None,
        };
    let ghost drop = |outcome: Result<FileDataView, ProcessingErrorView>|
        match outcome {
            Ok(_) => None,
            Err(error) => Some(error),
        };
    let mut records: Vec<FileData> = Vec::new();
    let mut failed: Vec<ProcessingError> = Vec::new();
    proof {
        assert(records.deep_view() =~= all.take(0).filter_map(keep));
        assert(failed.deep_view() =~= all.take(0).filter_map(drop));
    }
    for outcome in it: outcomes
        invariant
            all == outcome_views(it.seq()),
            keep == |outcome: Result<FileDataView, ProcessingErrorView>|
                match outcome {
                    Ok(record) => Some(record),
                    Err(_) => None,
                },
            drop == |outcome: Result<FileDataView, ProcessingErrorView>|
                match outcome {
                    Ok(_) => None,
                    Err(error) => Some(error),
                },
            records.deep_view() == all.take(it.index() as int).filter_map(keep),
            failed.deep_view() == all.take(it.index() as int).filter_map(drop),
    {
        let ghost kept = records.deep_view();
        let ghost dropped = failed.deep_view();
        proof {
            all.lemma_filter_map_take_succ(keep, it.index() as int);
            all.lemma_filter_map_take_succ(drop, it.index() as int);
            assert(all[it.index() as int] == outcome_view(outcome));
        }
        match outcome {
            Ok(record) => {
                records.push(record);
                proof {
                    assert(records.deep_view() =~= kept + seq![record@]);
                    assert(dropped + Seq::<ProcessingErrorView>::empty() =~= dropped);
                }
            },
            Err(error) => {
                failed.push(error);
                proof {
                    assert(failed.deep_view() =~= dropped + seq![error@]);
                    assert(kept + Seq::<FileDataView>::empty() =~= kept);
                }
            },
        }
    }
    proof {
        assert(all.take(all.len() as int) =~= all);
    }
    ScanReport { records, failures: failed }
}

/// Every outcome is either kept as a record or reported as a failure.
pub proof fn lemma_every_outcome_is_counted(outcomes: Seq<Result<FileDataView, ProcessingErrorView>>)
    ensures
        successes(outcomes).len() + failures(outcomes).len() == outcomes.len(),
    decreases outcomes.len(),
{
    if outcomes.len() > 0 {
        lemma_every_outcome_is_counted(outcomes.drop_last());
    }
}

/// The records of two runs of outcomes, one after the other, are the records
/// of the first followed by those of the second.
pub proof fn lemma_successes_of_concat(
    first: Seq<Result<FileDataView, ProcessingErrorView>>,
    second: Seq<Result<FileDataView, ProcessingErrorView>>,
)
    ensures
        successes(first + second) == successes(first) + successes(second),
    decreases second.len(),
{
    if second.len() == 0 {
        assert(first + second =~= first);
        assert(successes(first) + successes(second) =~= successes(first));
    } else {
        lemma_successes_of_concat(first, second.drop_last());
        assert((first + second).drop_last() =~= first + second.drop_last());
        assert((first + second).last() == second.last());
        match second.last() {
            Ok(record) => {
                assert(successes(first + second) =~= successes(first) + successes(second));
            },
            Err(_) => {},
        }
    }
}

/// A file that fails costs no other file its record: with the failure taken
/// out of the outcomes, wherever it stood, the records are the same.
pub proof fn lemma_failure_costs_no_record(
    outcomes: Seq<Result<FileDataView, ProcessingErrorView>>,
    position: int,
    error: ProcessingErrorView,
)
    requires
        0 <= position <= outcomes.len(),
    ensures
        successes(outcomes.insert(position, Err(error))) == successes(outcomes),
{
    let before = outcomes.take(position);
    let after = outcomes.skip(position);
    let failed = seq![Err::<FileDataView, ProcessingErrorView>(error)];
    assert(outcomes =~= before + after);
    assert(outcomes.insert(position, Err(error)) =~= (before + failed) + after);
    lemma_successes_of_concat(before, after);
    lemma_successes_of_concat(before + failed, after);
    lemma_successes_of_concat(before, failed);
    assert(successes(failed) =~= Seq::<FileDataView>::empty()) by {
        assert(failed.drop_last() =~= Seq::<Result<FileDataView, ProcessingErrorView>>::empty());
        assert(successes(failed.drop_last()) =~= Seq::<FileDataView>::empty());
    }
    assert(successes(before) + successes(failed) =~= successes(before));
}

/// How often a record stands among the successes: as often as its outcome
/// stands among the outcomes.
proof fn lemma_count_of_record(
    outcomes: Seq<Result<FileDataView, ProcessingErrorView>>,
    record: FileDataView,
)
    ensures
        successes(outcomes).to_multiset().count(record) == outcomes.to_multiset().count(
            Ok(record),
        ),
    decreases outcomes.len(),
{
    broadcast use vstd::multiset::group_multiset_axioms;

    if outcomes.len() == 0 {
        assert(outcomes.to_multiset() =~= Multiset::empty()) by {
            outcomes.to_multiset_ensures();
            vstd::seq_lib::to_multiset_len(outcomes);
        }
        assert(successes(outcomes).to_multiset() =~= Multiset::empty()) by {
            vstd::seq_lib::to_multiset_len(successes(outcomes));
        }
    } else {
        let before = outcomes.drop_last();
        let last = outcomes.last();
        lemma_count_of_record(before, record);
        assert(outcomes =~= before.push(last));
        vstd::seq_lib::to_multiset_build(before, last);
        match last {
            Ok(kept) => {
                assert(successes(outcomes) =~= successes(before).push(kept));
                vstd::seq_lib::to_multiset_build(successes(before), kept);
            },
            Err(_) => {},
        }
    }
}

/// The records of a scan do not depend on the order in which the workers
/// report: outcomes that differ in order alone give records that differ in
/// order alone.
pub proof fn lemma_records_whatever_the_order(
    one: Seq<Result<FileDataView, ProcessingErrorView>>,
    other: Seq<Result<FileDataView, ProcessingErrorView>>,
)
    requires
        one.to_multiset() == other.to_multiset(),
    ensures
        successes(one).to_multiset() == successes(other).to_multiset(),
{
    assert forall|record: FileDataView|
        successes(one).to_multiset().count(record) == successes(other).to_multiset().count(
            record,
        ) by {
        lemma_count_of_record(one, record);
        lemma_count_of_record(other, record);
    }
    assert(successes(one).to_multiset() =~= successes(other).to_multiset());
}

/// Mapping two runs of items, one after the other, to sequences and joining
/// them gives what the first run gives followed by what the second gives.
pub proof fn lemma_flat_map_of_concat<A, B>(first: Seq<A>, second: Seq<A>, f: spec_fn(A) -> Seq<B>)
    ensures
        (first + second).flat_map(f) == first.flat_map(f) + second.flat_map(f),
{
    assert((first + second).map_values(f) =~= first.map_values(f) + second.map_values(f));
    vstd::seq_lib::lemma_flatten_concat(first.map_values(f), second.map_values(f));
}

/// What is made of the items of a sequence, item by item, does not depend on
/// their order but for its own order.
pub proof fn lemma_flat_map_whatever_the_order<A, B>(
    one: Seq<A>,
    other: Seq<A>,
    f: spec_fn(A) -> Seq<B>,
)
    requires
        one.to_multiset() == other.to_multiset(),
    ensures
        one.flat_map(f).to_multiset() == other.flat_map(f).to_multiset(),
    decreases one.len(),
{
    broadcast use vstd::multiset::group_multiset_axioms;

    one.to_multiset_ensures();
    other.to_multiset_ensures();
    if one.len() == 0 {
        assert(one =~= other);
    } else {
        let last = one.last();
        assert(one[one.len() - 1] == last);
        assert(one.contains(last));
        assert(other.to_multiset().count(last) > 0);
        assert(other.contains(last));
        let at = choose|at: int| 0 <= at < other.len() && other[at] == last;
        let rest = one.drop_last();
        let others = other.remove(at);
        assert(rest =~= one.remove(one.len() - 1));
        assert(rest.to_multiset() =~= one.to_multiset().remove(last));
        assert(others.to_multiset() =~= other.to_multiset().remove(last));
        lemma_flat_map_whatever_the_order(rest, others, f);

        let front = other.take(at);
        let back = other.skip(at + 1);
        let single = seq![last];
        assert(one =~= rest + single);
        assert(other =~= (front + single) + back);
        assert(others =~= front + back);
        lemma_flat_map_of_concat(rest, single, f);
        lemma_flat_map_of_concat(front + single, back, f);
        lemma_flat_map_of_concat(front, single, f);
        lemma_flat_map_of_concat(front, back, f);

        let made = single.flat_map(f);
        vstd::seq_lib::lemma_multiset_commutative(rest.flat_map(f), made);
        vstd::seq_lib::lemma_multiset_commutative(front.flat_map(f) + made, back.flat_map(f));
        vstd::seq_lib::lemma_multiset_commutative(front.flat_map(f), made);
        vstd::seq_lib::lemma_multiset_commutative(front.flat_map(f), back.flat_map(f));
        assert(one.flat_map(f).to_multiset() =~= other.flat_map(f).to_multiset());
    }
}

/// The comments of `files`, file after file.
pub open spec fn all_comments(files: Seq<FileDataView>) -> Seq<CommentView> {
    files.flat_map(|file: FileDataView| file.comments)
}

/// The comments of a scan do not depend on the order in which the workers
/// report: records that differ in order alone hold the same comments, each as
/// often.
pub proof fn lemma_comments_whatever_the_order(one: Seq<FileDataView>, other: Seq<FileDataView>)
    requires
        one.to_multiset() == other.to_multiset(),
    ensures
        all_comments(one).to_multiset() == all_comments(other).to_multiset(),
{
    lemma_flat_map_whatever_the_order(one, other, |file: FileDataView| file.comments);
}

} // verus!
