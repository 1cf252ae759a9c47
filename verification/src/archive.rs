use crate::codec::decode::decode_history;
use crate::codec::encode::{empty_history, encode_history, encode_latest};
use crate::codec::grammar::decode_history_spec;
use crate::codec::layout::{
    ascending_entries, empty_history_text, history_text, record_pretty_text,
};
use crate::codec::listing::{ascending, lemma_entries_below_lists};
use crate::codec::roundtrip::lemma_history_round_trip;
use crate::domain::{history_view, DeployHistory, DeploymentRecord, RecordView};
use crate::error::ArchiveError;
use crate::http::LiveDeploymentInfo;
use crate::version::{deployment_record_spec, get_deployment_record};
use vstd::prelude::*;

verus! {

/// What one run leaves to be written for a tuple.
#[derive(Debug)]
pub struct ArchiveUpdate {
    /// The new text of the history artifact, or `None` where the artifact
    /// stays as it is because the deployment is known already.
    pub history: Option<String>,
    /// The new text of the latest-deployment artifact, written in any case.
    pub latest: String,
}

/// What an update holds, as plain values.
pub struct UpdateView {
    pub history: Option<Seq<char>>,
    pub latest: Seq<char>,
}

impl View for ArchiveUpdate {
    type V = UpdateView;

    open spec fn view(&self) -> UpdateView {
        UpdateView {
            history: match self.history {
                Some(text) => Some(text@),
                None => None,
            },
            latest: self.latest@,
        }
    }
}

/// Whether the history artifact of a tuple has yet to be created: it is
/// absent or empty.
pub open spec fn must_create(stored: Option<Seq<char>>) -> bool {
    stored is None || stored.unwrap().len() == 0
}

/// The text of the history artifact once the tuple has one.
pub open spec fn initialized(stored: Option<Seq<char>>) -> Seq<char> {
    if must_create(stored) {
        empty_history_text()
    } else {
        stored.unwrap()
    }
}

/// A history after a record has come in: a record whose change list is known
/// changes nothing, any other is added under its change list.
pub open spec fn merge_spec(m: Map<u64, RecordView>, r: RecordView) -> Map<u64, RecordView> {
    if m.contains_key(r.change_list) {
        m
    } else {
        m.insert(r.change_list, r)
    }
}

/// A history after the records of `rs` have come in one after the other.
pub open spec fn merge_all(m: Map<u64, RecordView>, rs: Seq<RecordView>) -> Map<u64, RecordView>
    decreases rs.len(),
{
    if rs.len() == 0 {
        m
    } else {
        merge_spec(merge_all(m, rs.drop_last()), rs.last())
    }
}

/// What is to be written once the record `r` has come in for the history `m`.
pub open spec fn update_spec(m: Map<u64, RecordView>, r: RecordView) -> UpdateView {
    UpdateView {
        history: if m.contains_key(r.change_list) {
            None
        } else {
            Some(history_text(m.insert(r.change_list, r)))
        },
        latest: record_pretty_text(r),
    }
}

/// One run for one tuple, from the text of its history artifact and the
/// fetched payload: the artifact is read first, then the payload is parsed,
/// then the two are merged.
pub open spec fn check_deployment_spec(
    stored: Seq<char>,
    version: Seq<char>,
    client_version_upload: Seq<char>,
    bootstrapper_version: Seq<char>,
) -> Result<UpdateView, ArchiveError> {
    match decode_history_spec(stored) {
        None => Err(ArchiveError::CorruptArchive),
        Some(m) => match deployment_record_spec(
            version,
            client_version_upload,
            bootstrapper_version,
        ) {
            Err(e) => Err(e),
            Ok(r) => Ok(update_spec(m, r)),
        },
    }
}

/// The text of the history artifact after a run that ended in `update`.
pub open spec fn artifact_after(stored: Seq<char>, update: UpdateView) -> Seq<char> {
    match update.history {
        Some(text) => text,
        None => stored,
    }
}

/// The first step of a run: a tuple whose history artifact is absent or empty
/// gets the empty history. The result holds the artifact's text from now on,
/// and whether it has to be written.
pub fn initialize_history(stored: Option<String>) -> (r: (String, bool))
    ensures
        r.1 == must_create(
            match stored {
                Some(text) => Some(text@),
                None => None,
            },
        ),
        r.0@ == initialized(
            match stored {
                Some(text) => Some(text@),
                None => None,
            },
        ),
{
    match stored {
        Some(text) => {
            if text.as_str().is_empty() {
                (empty_history(), true)
            } else {
                (text, false)
            }
        },
        None => (empty_history(), true),
    }
}

/// Merges a record into a history. A known change list is authoritative: the
/// record that the history holds for it stays, whatever the new one says.
pub fn merge_record(history: &mut DeployHistory, record: DeploymentRecord) -> (added: bool)
    ensures
        added == !history_view(*old(history)).contains_key(record.change_list),
        history_view(*final(history)) == merge_spec(history_view(*old(history)), record@),
{
    let ghost before = history_view(*history);
    let ghost view = record@;
    if history.contains_key(&record.change_list) {
        false
    } else {
        history.insert(record.change_list, record);
        assert(history_view(*history) =~= before.insert(view.change_list, view));
        true
    }
}

/// Decides what a run writes once the history is loaded and the record
/// parsed, and merges the record into the history.
pub fn plan_update(history: &mut DeployHistory, record: DeploymentRecord) -> (update:
    ArchiveUpdate)
    ensures
        update@ == update_spec(history_view(*old(history)), record@),
        history_view(*final(history)) == merge_spec(history_view(*old(history)), record@),
{
    let latest = encode_latest(&record);
    if merge_record(history, record) {
        ArchiveUpdate { history: Some(encode_history(history)), latest }
    } else {
        ArchiveUpdate { history: None, latest }
    }
}

/// One run for one tuple, from the text of its history artifact and the
/// fetched payload. On an error nothing is to be written.
pub fn check_deployment(stored: &str, info: LiveDeploymentInfo) -> (r: Result<
    ArchiveUpdate,
    ArchiveError,
>)
    ensures
        match check_deployment_spec(
            stored@,
            info.version@,
            info.client_version_upload@,
            info.bootstrapper_version@,
        ) {
            Ok(update) => r matches Ok(planned) && planned@ == update,
            Err(e) => r matches Err(failed) && failed == e,
        },
{
    let mut history = match decode_history(stored) {
        Ok(history) => history,
        Err(e) => {
            return Err(e);
        },
    };
    let record = match get_deployment_record(info) {
        Ok(record) => record,
        Err(e) => {
            return Err(e);
        },
    };
    Ok(plan_update(&mut history, record))
}

/// A merge adds at most the one key of the record, and a key that was there
/// keeps its record.
pub proof fn lemma_merge_adds_one_key(m: Map<u64, RecordView>, r: RecordView)
    ensures
        merge_spec(m, r).dom() == m.dom().insert(r.change_list),
        forall|k: u64| #[trigger] m.contains_key(k) ==> merge_spec(m, r)[k] == m[k],
        !m.contains_key(r.change_list) ==> merge_spec(m, r)[r.change_list] == r,
        m.dom().finite() && !m.contains_key(r.change_list) ==> merge_spec(m, r).dom().len()
            == m.dom().len() + 1,
        m.contains_key(r.change_list) ==> merge_spec(m, r) == m,
{
    assert(merge_spec(m, r).dom() =~= m.dom().insert(r.change_list));
}

/// After any sequence of merges every record that the history held at first
/// is still there, unchanged, and every key that came in holds a record.
pub proof fn lemma_merges_keep_records(m: Map<u64, RecordView>, rs: Seq<RecordView>)
    ensures
        forall|k: u64|
            #[trigger] m.contains_key(k) ==> merge_all(m, rs).contains_key(k) && merge_all(
                m,
                rs,
            )[k] == m[k],
        forall|i: int|
            0 <= i < rs.len() ==> merge_all(m, rs).contains_key((#[trigger] rs[i]).change_list),
    decreases rs.len(),
{
    if rs.len() > 0 {
        let front = rs.drop_last();
        lemma_merges_keep_records(m, front);
        lemma_merge_adds_one_key(merge_all(m, front), rs.last());
        assert forall|k: u64| #[trigger] m.contains_key(k) implies merge_all(m, rs).contains_key(k)
            && merge_all(m, rs)[k] == m[k] by {
            assert(merge_all(m, front).contains_key(k) && merge_all(m, front)[k] == m[k]);
        }
        assert forall|i: int| 0 <= i < rs.len() implies merge_all(m, rs).contains_key(
            (#[trigger] rs[i]).change_list,
        ) by {
            if i < front.len() {
                assert(front[i] == rs[i]);
            }
        }
    }
}

/// Of two records with one change list that come in, the first stays.
pub proof fn lemma_first_record_stays(m: Map<u64, RecordView>, a: RecordView, b: RecordView)
    requires
        a.change_list == b.change_list,
    ensures
        merge_spec(merge_spec(m, a), b) == merge_spec(m, a),
{
}

/// A second run with the payload of the first leaves the history artifact as
/// the first run left it, and writes the same latest deployment again.
pub proof fn lemma_second_run_changes_nothing(
    stored: Seq<char>,
    version: Seq<char>,
    client_version_upload: Seq<char>,
    bootstrapper_version: Seq<char>,
)
    requires
        check_deployment_spec(stored, version, client_version_upload, bootstrapper_version) is Ok,
    ensures
        ({
            let first = check_deployment_spec(
                stored,
                version,
                client_version_upload,
                bootstrapper_version,
            ).unwrap();
            let left = artifact_after(stored, first);
            let second = check_deployment_spec(
                left,
                version,
                client_version_upload,
                bootstrapper_version,
            );
            &&& second == Ok::<UpdateView, ArchiveError>(
                UpdateView { history: None, latest: first.latest },
            )
            &&& artifact_after(left, second.unwrap()) == left
        }),
{
    let m = decode_history_spec(stored).unwrap();
    let r = deployment_record_spec(version, client_version_upload, bootstrapper_version).unwrap();
    if !m.contains_key(r.change_list) {
        lemma_history_round_trip(m.insert(r.change_list, r));
    }
}

/// A run on the artifact that a run has written finds the history that the
/// run had merged.
pub proof fn lemma_written_history_is_read(m: Map<u64, RecordView>, r: RecordView)
    ensures
        update_spec(m, r).history matches Some(text) ==> decode_history_spec(text) == Some(
            merge_spec(m, r),
        ),
{
    if !m.contains_key(r.change_list) {
        lemma_history_round_trip(m.insert(r.change_list, r));
    }
}

/// The keys of a written history ascend strictly, so that none stands twice.
pub proof fn lemma_written_keys_ascend(m: Map<u64, RecordView>)
    ensures
        ascending(ascending_entries(m)),
{
    lemma_entries_below_lists(m, 0x1_0000_0000_0000_0000);
}

} // verus!
