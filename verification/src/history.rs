//! The local history of replies: keeping the most recent entries and
//! picking an entry to replay.
use std::time::{Duration, SystemTime, SystemTimeError};
use vstd::prelude::*;

verus! {

/// One stored exchange.
#[derive(Debug, Clone)]
pub struct HistoryEntry {
    pub timestamp: u64,
    pub model: String,
    pub preset_name: String,
    pub user_input: String,
    pub response: String,
}

/// Why no entry can be replayed, or no timestamp taken.
#[derive(Debug)]
pub enum HistoryError {
    /// Replay positions count from 1.
    ZeroIndex,
    /// Nothing is stored.
    Empty,
    /// Fewer entries are stored than the position asks for; holds how many.
    TooFew(usize),
    /// The system clock reads a time before 1970.
    ClockBeforeEpoch,
}

/// The history that is kept after `all` when at most `max` entries are
/// kept: the last `max` of them, in order.
pub open spec fn kept_entries(all: Seq<HistoryEntry>, max: nat) -> Seq<HistoryEntry> {
    if all.len() > max {
        all.skip(all.len() - max)
    } else {
        all
    }
}

/// Adds `entry` to the stored `entries` and keeps only the most recent
/// `max_entries`. With a limit of zero nothing is to be written: `None`.
pub fn append_entry(entries: Vec<HistoryEntry>, entry: HistoryEntry, max_entries: usize) -> (r:
    Option<Vec<HistoryEntry>>)
    ensures
        max_entries == 0 ==> r is None,
        max_entries > 0 ==> (r matches Some(v) && v@ == kept_entries(
            entries@.push(entry),
            max_entries as nat,
        )),
        r matches Some(v) ==> v.len() <= max_entries && v@.last() == entry,
{
    let mut entries = entries;
    entries.push(entry);
    if max_entries == 0 {
        return None;
    }
    if entries.len() > max_entries {
        let start = entries.len() - max_entries;
        let ghost all = entries@;
        let kept = entries.split_off(start);
        assert(kept@ == all.skip(start as int));
        return Some(kept);
    }
    Some(entries)
}

/// Refuses replay position 0 before any history is read: positions count
/// from 1.
pub fn check_replay_offset(offset: usize) -> (r: Result<(), HistoryError>)
    ensures
        offset == 0 ==> (r matches Err(e) && e is ZeroIndex),
        offset > 0 ==> r is Ok,
{
    if offset == 0 {
        Err(HistoryError::ZeroIndex)
    } else {
        Ok(())
    }
}

/// The entry `offset` places back from the most recent (1 is the last).
pub fn replay_entry(entries: Vec<HistoryEntry>, offset: usize) -> (r: Result<
    HistoryEntry,
    HistoryError,
>)
    ensures
        offset == 0 ==> r matches Err(HistoryError::ZeroIndex),
        offset > 0 && entries.len() == 0 ==> r matches Err(HistoryError::Empty),
        offset > 0 && entries.len() > 0 && offset > entries.len() ==> (r matches Err(
            HistoryError::TooFew(n),
        ) && n == entries.len()),
        0 < offset <= entries.len() ==> r == Ok::<HistoryEntry, HistoryError>(
            entries@[entries.len() - offset],
        ),
{
    check_replay_offset(offset)?;
    if entries.len() == 0 {
        return Err(HistoryError::Empty);
    }
    if offset > entries.len() {
        return Err(HistoryError::TooFew(entries.len()));
    }
    let index = entries.len() - offset;
    let mut entries = entries;
    Ok(entries.swap_remove(index))
}

/// The response of the entry `offset` places back from the most recent.
pub fn replay_response(entries: Vec<HistoryEntry>, offset: usize) -> (r: Result<
    String,
    HistoryError,
>)
    ensures
        offset == 0 ==> r matches Err(HistoryError::ZeroIndex),
        offset > 0 && entries.len() == 0 ==> r matches Err(HistoryError::Empty),
        offset > 0 && entries.len() > 0 && offset > entries.len() ==> (r matches Err(
            HistoryError::TooFew(n),
        ) && n == entries.len()),
        0 < offset <= entries.len() ==> (r matches Ok(text) && text@ == entries@[entries.len()
            - offset].response@),
{
    match replay_entry(entries, offset) {
        Ok(entry) => Ok(entry.response),
        Err(e) => Err(e),
    }
}

/// After an exchange is recorded (with a limit above zero), replaying
/// position `offset` gives the `offset`-th most recent of all exchanges, the
/// new one first, for every position that the kept history still holds; in
/// particular position 1 replays the exchange just recorded.
pub proof fn law_replay_after_append(
    entries: Seq<HistoryEntry>,
    entry: HistoryEntry,
    max: nat,
    offset: int,
)
    requires
        max > 0,
        1 <= offset <= entries.len() + 1,
        offset <= max,
    ensures
        ({
            let kept = kept_entries(entries.push(entry), max);
            &&& offset <= kept.len()
            &&& kept[kept.len() - offset] == entries.push(entry)[entries.len() + 1 - offset]
            &&& offset == 1 ==> kept[kept.len() - 1] == entry
        }),
{
}

/// `std::time::SystemTime::now`: the current time. Nothing is claimed of it.
#[verifier::external_body]
fn system_now() -> SystemTime {
    SystemTime::now()
}

/// `SystemTime::duration_since(UNIX_EPOCH)`: the time elapsed since 1970, or
/// an error for an earlier time. Nothing is claimed of either.
#[verifier::external_body]
fn since_unix_epoch(t: &SystemTime) -> Result<Duration, SystemTimeError> {
    t.duration_since(std::time::UNIX_EPOCH)
}

/// `Duration::as_secs`: the whole seconds of a duration. Nothing is claimed of it.
#[verifier::external_body]
fn whole_seconds(d: &Duration) -> u64 {
    d.as_secs()
}

#[verifier::external_type_specification]
#[verifier::external_body]
pub struct ExSystemTime(SystemTime);

#[verifier::external_type_specification]
#[verifier::external_body]
pub struct ExSystemTimeError(SystemTimeError);

/// Seconds since 1970 by the system clock; an error when the clock reads an
/// earlier time. What the clock reads is not stated.
pub fn now_timestamp() -> (r: Result<u64, HistoryError>)
    ensures
        r matches Err(e) ==> e is ClockBeforeEpoch,
{
    let now = system_now();
    match since_unix_epoch(&now) {
        Ok(d) => Ok(whole_seconds(&d)),
        Err(_) => Err(HistoryError::ClockBeforeEpoch),
    }
}

} // verus!
