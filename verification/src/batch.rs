use vstd::prelude::*;
use crate::model::{Asset, Item};

verus! {

/// Why one asset failed to download. Carried per asset; a failure here never
/// aborts the other fetches of the batch.
#[derive(Debug)]
pub enum FetchError {
    /// The asset's href could not be parsed as an absolute URL. Holds the href.
    InvalidUrl(String),
    /// The asset's URL offers no path segments to derive a file name from.
    /// Holds the href.
    NoFileName(String),
    /// The transport failed or the server answered with a non-success status.
    /// Holds the underlying message.
    HttpError(String),
    /// Creating or writing the destination file failed. Holds the message.
    IoError(String),
}

impl FetchError {
    /// What `message` returns, as a sequence of characters.
    pub open spec fn spec_message(self) -> Seq<char> {
        match self {
            FetchError::InvalidUrl(href) => "invalid URL: "@ + href@,
            FetchError::NoFileName(href) => "no file name: "@ + href@,
            FetchError::HttpError(m) => m@,
            FetchError::IoError(m) => m@,
        }
    }

    /// The failure rendered as text, for the batch report.
    pub fn message(&self) -> (m: String)
        ensures
            m@ == self.spec_message(),
    {
        match self {
            FetchError::InvalidUrl(href) => String::from_str("invalid URL: ").concat(
                href.as_str(),
            ),
            FetchError::NoFileName(href) => String::from_str("no file name: ").concat(
                href.as_str(),
            ),
            FetchError::HttpError(m) => m.clone(),
            FetchError::IoError(m) => m.clone(),
        }
    }
}

/// The terminal state one fetch task reached. Transient: it exists only
/// between the join of the tasks and the settling of the batch.
pub enum DownloadOutcome {
    /// The asset landed on disk; its href already points at the local file.
    Success { key: String, asset: Asset },
    /// The fetch failed; the asset is handed back as it was before.
    Failure { key: String, asset: Asset, error: FetchError },
    /// The task running a fetch failed on its own, before the fetch could
    /// report anything; no key is known for it.
    TaskFailure { message: String },
}

/// One failure kept for reporting after the batch settles.
pub struct FailureRecord {
    /// The failed asset's key, when the failure is tied to one.
    pub key: Option<String>,
    /// What went wrong, rendered as text.
    pub message: String,
}

impl View for FailureRecord {
    type V = (Option<Seq<char>>, Seq<char>);

    open spec fn view(&self) -> (Option<Seq<char>>, Seq<char>) {
        (
            match self.key {
                Some(k) => Some(k@),
                None => None,
            },
            self.message@,
        )
    }
}

/// The views of a sequence of failure records.
pub open spec fn records_view(records: Seq<FailureRecord>) -> Seq<(Option<Seq<char>>, Seq<char>)> {
    records.map_values(|r: FailureRecord| r@)
}

/// The (key, asset) pairs of the successful outcomes, in order.
pub open spec fn successes_of(outcomes: Seq<DownloadOutcome>) -> Seq<(String, Asset)>
    decreases outcomes.len(),
{
    if outcomes.len() == 0 {
        Seq::empty()
    } else {
        let rest = successes_of(outcomes.drop_last());
        match outcomes.last() {
            DownloadOutcome::Success { key, asset } => rest.push((key, asset)),
            _ => rest,
        }
    }
}

/// The failure records of the failed outcomes, by view, in order.
pub open spec fn failures_of(outcomes: Seq<DownloadOutcome>) -> Seq<(Option<Seq<char>>, Seq<char>)>
    decreases outcomes.len(),
{
    if outcomes.len() == 0 {
        Seq::empty()
    } else {
        let rest = failures_of(outcomes.drop_last());
        match outcomes.last() {
            DownloadOutcome::Success { .. } => rest,
            DownloadOutcome::Failure { key, asset: _, error } => rest.push(
                (Some(key@), error.spec_message()),
            ),
            DownloadOutcome::TaskFailure { message } => rest.push((None, message@)),
        }
    }
}

/// Some successful outcome among the first `k` carries this key.
pub open spec fn success_key_before(outcomes: Seq<DownloadOutcome>, k: int, key: Seq<char>) -> bool {
    exists|j: int|
        0 <= j < k && #[trigger] outcomes[j] is Success && outcomes[j]->Success_key@ == key
}

/// No two successful outcomes share an asset key.
pub open spec fn distinct_success_keys(outcomes: Seq<DownloadOutcome>) -> bool {
    forall|i: int, j: int|
        0 <= i < j < outcomes.len() && outcomes[i] is Success && outcomes[j] is Success
            ==> outcomes[i]->Success_key@ != outcomes[j]->Success_key@
}

/// Settle the batch: merge every successful asset back into the Item's
/// mapping under its original key, and keep one record per failure. The
/// Item's mapping was drained when the batch fanned out, so it starts empty;
/// afterwards it holds exactly the successful assets, in outcome order, and
/// never an asset whose download failed.
pub fn apply_outcomes(item: &mut Item, outcomes: Vec<DownloadOutcome>) -> (failures: Vec<
    FailureRecord,
>)
    requires
        old(item).assets@.len() == 0,
        distinct_success_keys(outcomes@),
    ensures
        final(item).assets@ == successes_of(outcomes@),
        final(item).wf(),
        records_view(failures@) == failures_of(outcomes@),
        final(item).id == old(item).id,
        final(item).base_href == old(item).base_href,
        final(item).links == old(item).links,
{
    let ghost all: Seq<DownloadOutcome> = outcomes@;
    let mut remaining = outcomes;
    let mut failures: Vec<FailureRecord> = Vec::new();
    let ghost mut k: int = 0;
    proof {
        assert(all.skip(0) =~= all);
        assert(all.take(0) =~= Seq::<DownloadOutcome>::empty());
        assert(records_view(failures@) =~= failures_of(all.take(0)));
    }
    while remaining.len() > 0
        invariant
            0 <= k <= all.len(),
            remaining@ == all.skip(k),
            distinct_success_keys(all),
            item.assets@ == successes_of(all.take(k)),
            records_view(failures@) == failures_of(all.take(k)),
            forall|i: int|
                0 <= i < item.assets@.len() ==> success_key_before(
                    all,
                    k,
                    #[trigger] item.assets@[i].0@,
                ),
            item.wf(),
            item.id == old(item).id,
            item.base_href == old(item).base_href,
            item.links == old(item).links,
        decreases remaining@.len(),
    {
        let outcome = remaining.remove(0);
        proof {
            assert(all.skip(k)[0] == all[k]);
            assert(remaining@ == all.skip(k + 1));
            assert(all.take(k + 1).drop_last() =~= all.take(k));
            assert(all.take(k + 1).last() == all[k]);
        }
        match outcome {
            DownloadOutcome::Success { key, asset } => {
                proof {
                    assert(all[k] is Success && all[k]->Success_key@ == key@);
                    assert forall|i: int| 0 <= i < item.assets@.len() implies item.assets@[i].0@
                        != key@ by {
                        let j = choose|j: int|
                            0 <= j < k && #[trigger] all[j] is Success && all[j]->Success_key@
                                == item.assets@[i].0@;
                        assert(all[j]->Success_key@ != all[k]->Success_key@);
                    }
                }
                item.assets.push((key, asset));
                proof {
                    assert forall|i: int| 0 <= i < item.assets@.len() implies success_key_before(
                        all,
                        k + 1,
                        #[trigger] item.assets@[i].0@,
                    ) by {
                        if i == item.assets@.len() - 1 {
                            assert(0 <= k < k + 1 && all[k] is Success && all[k]->Success_key@
                                == item.assets@[i].0@);
                        }
                    }
                }
            },
            DownloadOutcome::Failure { key, asset: _, error } => {
                let record = FailureRecord { key: Some(key), message: error.message() };
                failures.push(record);
                proof {
                    assert(records_view(failures@) =~= failures_of(all.take(k + 1)));
                }
            },
            DownloadOutcome::TaskFailure { message } => {
                let record = FailureRecord { key: None, message };
                failures.push(record);
                proof {
                    assert(records_view(failures@) =~= failures_of(all.take(k + 1)));
                }
            },
        }
        proof {
            k = k + 1;
        }
    }
    proof {
        assert(all.take(k) =~= all);
    }
    failures
}

/// The three-way outcome of a settled batch. The tie-break: a batch with at
/// least one success is never fatal, but unless every fetch succeeded its
/// failures are still surfaced. A batch without failures — even one with no
/// assets at all — is a full success.
#[derive(Clone, Copy, PartialEq, Eq, Structural, Debug)]
pub enum BatchStatus {
    /// Every attempted fetch succeeded.
    FullSuccess,
    /// At least one fetch succeeded and at least one failed.
    PartialSuccess,
    /// At least one fetch failed and none succeeded.
    TotalFailure,
}

/// What `classify` returns, by the two counts of a settled batch.
pub open spec fn spec_classify(n_success: int, n_failure: int) -> BatchStatus {
    if n_success == 0 && n_failure > 0 {
        BatchStatus::TotalFailure
    } else if n_failure == 0 {
        BatchStatus::FullSuccess
    } else {
        BatchStatus::PartialSuccess
    }
}

/// Classify a settled batch by how many assets landed and how many failed.
pub fn classify(n_success: usize, n_failure: usize) -> (status: BatchStatus)
    ensures
        status == spec_classify(n_success as int, n_failure as int),
{
    if n_success == 0 && n_failure > 0 {
        BatchStatus::TotalFailure
    } else if n_failure == 0 {
        BatchStatus::FullSuccess
    } else {
        BatchStatus::PartialSuccess
    }
}

/// What `download_exit_code` returns: 1 when the batch wholly failed or the
/// finalized Item could not be persisted, 0 otherwise. Partial success still
/// exits 0; a failed save is fatal even when every download succeeded.
pub open spec fn spec_download_exit_code(status: BatchStatus, saved: bool) -> int {
    if status is TotalFailure || !saved {
        1
    } else {
        0
    }
}

/// The exit code of the whole download operation.
pub fn download_exit_code(status: BatchStatus, saved: bool) -> (code: i32)
    ensures
        code as int == spec_download_exit_code(status, saved),
{
    match status {
        BatchStatus::TotalFailure => 1,
        _ => if saved {
            0
        } else {
            1
        },
    }
}

/// What `failure_line` returns: the key-tagged message, prefixed as a
/// warning or as an error.
pub open spec fn spec_failure_line(record: (Option<Seq<char>>, Seq<char>), warn: bool) -> Seq<
    char,
> {
    let body = match record.0 {
        Some(key) => key + ": "@ + record.1,
        None => record.1,
    };
    if warn {
        "WARN: "@ + body
    } else {
        "ERR: "@ + body
    }
}

/// One report line for one failure: its key when one is known, then the
/// message. Failures print as warnings when some sibling download succeeded
/// and as errors when none did.
pub fn failure_line(record: &FailureRecord, warn: bool) -> (line: String)
    ensures
        line@ == spec_failure_line(record@, warn),
{
    let mut s = if warn {
        String::from_str("WARN: ")
    } else {
        String::from_str("ERR: ")
    };
    match &record.key {
        Some(key) => {
            s.append(key.as_str());
            s.append(": ");
            s.append(record.message.as_str());
        },
        None => {
            s.append(record.message.as_str());
        },
    }
    proof {
        assert(s@ =~= spec_failure_line(record@, warn));
    }
    s
}

/// The whole failure report: one line per record, in order, none dropped.
pub fn failure_lines(records: &Vec<FailureRecord>, warn: bool) -> (lines: Vec<String>)
    ensures
        lines@.len() == records@.len(),
        forall|i: int|
            0 <= i < records@.len() ==> #[trigger] lines@[i]@ == spec_failure_line(
                records@[i]@,
                warn,
            ),
{
    let mut lines: Vec<String> = Vec::new();
    let mut i: usize = 0;
    while i < records.len()
        invariant
            0 <= i <= records@.len(),
            lines@.len() == i,
            forall|j: int|
                0 <= j < i ==> #[trigger] lines@[j]@ == spec_failure_line(records@[j]@, warn),
        decreases records@.len() - i,
    {
        let line = failure_line(&records[i], warn);
        lines.push(line);
        i = i + 1;
    }
    lines
}

/// Law: a settled batch accounts for every task. Each outcome becomes either
/// a merged asset or a failure record, so none is lost, none is counted
/// twice, and no task is left pending once the batch settles.
pub proof fn lemma_outcomes_partition(outcomes: Seq<DownloadOutcome>)
    ensures
        successes_of(outcomes).len() + failures_of(outcomes).len() == outcomes.len(),
    decreases outcomes.len(),
{
    if outcomes.len() > 0 {
        lemma_outcomes_partition(outcomes.drop_last());
    }
}

/// Law: when every download of a batch succeeds, the settled Item holds
/// exactly one asset per outcome — under the outcome's key, with the
/// outcome's rewritten asset — no failure record remains, and the batch is a
/// full success, exiting 0 once the Item is persisted. When every success
/// carries a local `./<file>` href, so does every merged asset.
pub proof fn lemma_full_success(outcomes: Seq<DownloadOutcome>)
    requires
        forall|i: int| 0 <= i < outcomes.len() ==> outcomes[i] is Success,
    ensures
        successes_of(outcomes).len() == outcomes.len(),
        forall|i: int|
            0 <= i < outcomes.len() ==> successes_of(outcomes)[i] == (
                outcomes[i]->Success_key,
                outcomes[i]->Success_asset,
            ),
        failures_of(outcomes).len() == 0,
        spec_classify(outcomes.len() as int, 0) is FullSuccess,
        spec_download_exit_code(spec_classify(outcomes.len() as int, 0), true) == 0,
        (forall|i: int|
            0 <= i < outcomes.len() ==> crate::fetch::is_local_href(
                #[trigger] outcomes[i]->Success_asset.href@,
            )) ==> (forall|i: int|
            0 <= i < successes_of(outcomes).len() ==> crate::fetch::is_local_href(
                #[trigger] successes_of(outcomes)[i].1.href@,
            )),
    decreases outcomes.len(),
{
    if outcomes.len() > 0 {
        let prefix = outcomes.drop_last();
        assert(forall|i: int| 0 <= i < prefix.len() ==> prefix[i] == outcomes[i]);
        lemma_full_success(prefix);
        assert(outcomes[outcomes.len() - 1] is Success);
        assert forall|i: int| 0 <= i < outcomes.len() implies successes_of(outcomes)[i] == (
            outcomes[i]->Success_key,
            outcomes[i]->Success_asset,
        ) by {
            if i < outcomes.len() - 1 {
                assert(successes_of(prefix)[i] == (prefix[i]->Success_key, prefix[i]->Success_asset));
            }
        }
    }
}

/// One outcome at position `f` failed and every other one succeeded: the
/// successes are one fewer than the outcomes and the single failure record
/// carries the failed key and its message.
proof fn lemma_single_failure_shape(outcomes: Seq<DownloadOutcome>, f: int)
    requires
        0 <= f < outcomes.len(),
        outcomes[f] is Failure,
        forall|i: int| 0 <= i < outcomes.len() && i != f ==> outcomes[i] is Success,
    ensures
        successes_of(outcomes).len() == outcomes.len() - 1,
        failures_of(outcomes) == seq![
            (Some(outcomes[f]->Failure_key@), outcomes[f]->Failure_error.spec_message()),
        ],
    decreases outcomes.len(),
{
    let prefix = outcomes.drop_last();
    assert(forall|i: int| 0 <= i < prefix.len() ==> prefix[i] == outcomes[i]);
    if f == outcomes.len() - 1 {
        lemma_full_success(prefix);
        assert(failures_of(outcomes) =~= seq![
            (Some(outcomes[f]->Failure_key@), outcomes[f]->Failure_error.spec_message()),
        ]);
    } else {
        lemma_single_failure_shape(prefix, f);
        assert(outcomes[outcomes.len() - 1] is Success);
        assert(failures_of(outcomes) == failures_of(prefix));
    }
}

/// Law: when exactly one fetch of a batch of two or more fails and the rest
/// succeed, the settled Item holds one asset fewer than the batch had tasks,
/// exactly one failure record remains — carrying the failed key — its report
/// line is a warning naming that key, and the batch is a partial success,
/// exiting 0 once the Item is persisted.
pub proof fn lemma_single_failure(outcomes: Seq<DownloadOutcome>, f: int)
    requires
        outcomes.len() >= 2,
        0 <= f < outcomes.len(),
        outcomes[f] is Failure,
        forall|i: int| 0 <= i < outcomes.len() && i != f ==> outcomes[i] is Success,
    ensures
        successes_of(outcomes).len() == outcomes.len() - 1,
        failures_of(outcomes) == seq![
            (Some(outcomes[f]->Failure_key@), outcomes[f]->Failure_error.spec_message()),
        ],
        spec_classify(outcomes.len() - 1, 1) is PartialSuccess,
        spec_download_exit_code(spec_classify(outcomes.len() - 1, 1), true) == 0,
        spec_failure_line(failures_of(outcomes)[0], true) == "WARN: "@
            + outcomes[f]->Failure_key@ + ": "@ + outcomes[f]->Failure_error.spec_message(),
{
    lemma_single_failure_shape(outcomes, f);
    assert(spec_failure_line(failures_of(outcomes)[0], true) =~= "WARN: "@
        + outcomes[f]->Failure_key@ + ": "@ + outcomes[f]->Failure_error.spec_message());
}

/// Law: the settled metadata is a function of what was read and of how the
/// batch went. Re-running a download that reads the same Item, reaches the
/// same outcomes and persists to the same path settles the same asset
/// mapping, the same failure records and the same finalized links. Whether
/// the asset files themselves come out byte-identical lies with the sources,
/// outside the library.
pub proof fn lemma_rerun_settles_alike(
    first: Seq<DownloadOutcome>,
    second: Seq<DownloadOutcome>,
    first_links: Seq<(Seq<char>, Seq<char>)>,
    second_links: Seq<(Seq<char>, Seq<char>)>,
    base: Option<Seq<char>>,
    path: Seq<char>,
)
    requires
        first == second,
        first_links == second_links,
    ensures
        successes_of(first) == successes_of(second),
        failures_of(first) == failures_of(second),
        crate::links::spec_finalized(first_links, base, path) == crate::links::spec_finalized(
            second_links,
            base,
            path,
        ),
{
}

/// Law: when no fetch of a non-empty batch succeeds, the settled Item keeps
/// no asset at all — its metadata never points at an asset that failed to
/// download — one record per failure remains, and the batch is a total
/// failure, exiting 1 whether or not the Item was persisted.
pub proof fn lemma_total_failure(outcomes: Seq<DownloadOutcome>)
    requires
        outcomes.len() > 0,
        forall|i: int| 0 <= i < outcomes.len() ==> !(outcomes[i] is Success),
    ensures
        successes_of(outcomes).len() == 0,
        failures_of(outcomes).len() == outcomes.len(),
        spec_classify(0, outcomes.len() as int) is TotalFailure,
        spec_download_exit_code(spec_classify(0, outcomes.len() as int), true) == 1,
        spec_download_exit_code(spec_classify(0, outcomes.len() as int), false) == 1,
    decreases outcomes.len(),
{
    let prefix = outcomes.drop_last();
    assert(forall|i: int| 0 <= i < prefix.len() ==> prefix[i] == outcomes[i]);
    if outcomes.len() > 1 {
        lemma_total_failure(prefix);
    } else {
        assert(prefix.len() == 0);
        assert(successes_of(prefix).len() == 0);
        assert(failures_of(prefix).len() == 0);
    }
    assert(!(outcomes[outcomes.len() - 1] is Success));
    assert(outcomes.last() == outcomes[outcomes.len() - 1]);
}

} // verus!
