//! The per-attachment download state machine and its display strings.
//!
//! The decisions live here as pure functions: which items a run starts,
//! how a state advances on progress, and what an outcome leaves behind.
//! The embedding application performs the transfers and feeds the
//! events back in.
//!
//! Re-run policy: a run re-attempts every selected item, whether it is
//! still pending, ended in error, or already completed — a completed
//! item downloads again and lands under a fresh name by the storage
//! layer's collision rule. Only items found on disk at creation time
//! (`AlreadyOnDisk`) and items currently in flight are never started.

use vstd::prelude::*;

use crate::jira::Attachment;
use crate::text::{spec_dec, u64_to_dec};

verus! {

/// The lifecycle of one attachment download.
///
/// `AlreadyOnDisk` is terminal and assigned only at item creation, when
/// the target file is found on disk before any attempt.
#[derive(Debug, Clone)]
pub enum FileState {
    Pending,
    Downloading { downloaded: u64, total: u64 },
    Done,
    AlreadyOnDisk,
    Error(String),
}

/// The displayed percentage: hundredths of the declared total, capped
/// at `u64::MAX`. Never used when the total is 0.
pub open spec fn spec_percent(downloaded: u64, total: u64) -> int {
    let p = downloaded as int * 100 / total as int;
    if p > u64::MAX {
        u64::MAX as int
    } else {
        p
    }
}

/// The short status text shown beside an item.
pub open spec fn spec_label(s: FileState) -> Seq<char> {
    match s {
        FileState::Pending => "Pending"@,
        FileState::Downloading { downloaded, total } => {
            if total > 0 {
                spec_dec(spec_percent(downloaded, total) as nat) + "%"@
            } else {
                // A total of 0 signals indeterminate progress: it is
                // never divided, the byte count is shown instead.
                spec_dec(downloaded as nat) + " B"@
            }
        },
        FileState::Done => "Done \u{2713}"@,
        FileState::AlreadyOnDisk => "On disk \u{2713}"@,
        FileState::Error(e) => "Error: "@ + e@,
    }
}

impl FileState {
    /// The short status text shown beside an item.
    pub fn label(&self) -> (r: String)
        ensures
            r@ == spec_label(*self),
    {
        match self {
            FileState::Pending => "Pending".to_owned(),
            FileState::Downloading { downloaded, total } => {
                if *total > 0 {
                    let p128 = (*downloaded as u128) * 100 / (*total as u128);
                    let p: u64 = if p128 > u64::MAX as u128 {
                        u64::MAX
                    } else {
                        p128 as u64
                    };
                    let mut r = u64_to_dec(p);
                    r.append("%");
                    r
                } else {
                    let mut r = u64_to_dec(*downloaded);
                    r.append(" B");
                    r
                }
            },
            FileState::Done => "Done \u{2713}".to_owned(),
            FileState::AlreadyOnDisk => "On disk \u{2713}".to_owned(),
            FileState::Error(e) => {
                let mut r = "Error: ".to_owned();
                r.append(e.as_str());
                r
            },
        }
    }
}

/// One attachment of the currently viewed issue, with its download
/// state and selection mark.
#[derive(Debug, Clone)]
pub struct DownloadItem {
    pub attachment: Attachment,
    pub state: FileState,
    pub selected: bool,
}

impl DownloadItem {
    /// A fresh item: pending and selected.
    pub fn new(attachment: Attachment) -> (r: DownloadItem)
        ensures
            r.attachment == attachment,
            r.state is Pending,
            r.selected == true,
    {
        DownloadItem { attachment, state: FileState::Pending, selected: true }
    }

    /// The item's state, by value.
    pub fn current_state(&self) -> (r: FileState)
        ensures
            r == self.state,
    {
        match &self.state {
            FileState::Pending => FileState::Pending,
            FileState::Downloading { downloaded, total } => FileState::Downloading {
                downloaded: *downloaded,
                total: *total,
            },
            FileState::Done => FileState::Done,
            FileState::AlreadyOnDisk => FileState::AlreadyOnDisk,
            FileState::Error(e) => FileState::Error(e.clone()),
        }
    }
}

/// A run starts the items that are selected and not in flight and not
/// already on disk: `Pending`, `Error` and `Done` states are (re)tried.
pub open spec fn spec_should_start(item: DownloadItem) -> bool {
    item.selected && match item.state {
        FileState::Pending => true,
        FileState::Error(_) => true,
        FileState::Done => true,
        _ => false,
    }
}

/// Whether a run starts this item.
pub fn should_start(item: &DownloadItem) -> (r: bool)
    ensures
        r == spec_should_start(*item),
{
    item.selected && match &item.state {
        FileState::Pending => true,
        FileState::Error(_) => true,
        FileState::Done => true,
        _ => false,
    }
}

/// The indices a run starts, in order.
pub open spec fn spec_start_plan(items: Seq<DownloadItem>) -> Seq<int>
    decreases items.len(),
{
    if items.len() == 0 {
        Seq::empty()
    } else {
        let rest = spec_start_plan(items.drop_last());
        if spec_should_start(items.last()) {
            rest.push(items.len() - 1)
        } else {
            rest
        }
    }
}

/// Lists the indices of the items a run starts.
pub fn start_plan(items: &Vec<DownloadItem>) -> (r: Vec<usize>)
    ensures
        r@.map_values(|u: usize| u as int) == spec_start_plan(items@),
{
    let n = items.len();
    let mut r: Vec<usize> = Vec::new();
    let mut i: usize = 0;
    proof {
        assert(items@.take(0).len() == 0);
    }
    while i < n
        invariant
            n == items@.len(),
            i <= n,
            r@.map_values(|u: usize| u as int) == spec_start_plan(items@.take(i as int)),
        decreases n - i,
    {
        proof {
            assert(items@.take(i + 1 as int).drop_last() =~= items@.take(i as int));
            assert(items@.take(i + 1 as int).last() == items@[i as int]);
        }
        if should_start(&items[i]) {
            r.push(i);
            proof {
                assert(r@.map_values(|u: usize| u as int) =~= r@.drop_last().map_values(
                    |u: usize| u as int,
                ).push(i as int));
            }
        }
        i = i + 1;
    }
    proof {
        assert(items@.take(n as int) =~= items@);
    }
    r
}

/// Marks an item as started: in flight with no bytes received, the
/// declared size taken from the attachment until the transfer reports
/// its own total.
pub fn begin_download(item: &mut DownloadItem)
    ensures
        final(item).state == (FileState::Downloading {
            downloaded: 0,
            total: old(item).attachment.size,
        }),
        final(item).attachment == old(item).attachment,
        final(item).selected == old(item).selected,
{
    item.state = FileState::Downloading { downloaded: 0, total: item.attachment.size };
}

/// Records transfer progress: the received byte count and the declared
/// total (0 when the server did not declare one).
pub fn record_progress(item: &mut DownloadItem, downloaded: u64, total: u64)
    ensures
        final(item).state == (FileState::Downloading { downloaded, total }),
        final(item).attachment == old(item).attachment,
        final(item).selected == old(item).selected,
{
    item.state = FileState::Downloading { downloaded, total };
}

/// Records the end of one attempt: `Done` on success, `Error` with the
/// transport or storage message otherwise. Never leaves the item
/// pending or in flight.
pub fn apply_outcome(item: &mut DownloadItem, outcome: &Result<(), String>)
    ensures
        final(item).state == spec_outcome_state(*outcome),
        final(item).state is Done || final(item).state is Error,
        final(item).attachment == old(item).attachment,
        final(item).selected == old(item).selected,
{
    match outcome {
        Ok(_) => {
            item.state = FileState::Done;
        },
        Err(e) => {
            item.state = FileState::Error(e.clone());
        },
    }
}


/// One complete run over the items: every item the run starts (see
/// `spec_should_start`) ends `Done` or `Error` according to its
/// outcome; every other item is untouched. In particular no selected
/// item that was not already in flight is left `Pending` or
/// `Downloading`: it ends `Done`, `Error`, or stays `AlreadyOnDisk`.
///
/// The embedding application runs the transfers concurrently; this is
/// the run's net effect on the item list, with `outcomes[i]` the result
/// of item `i`'s transfer-and-store attempt (ignored for items the run
/// does not start).
pub fn run_all(items: &mut Vec<DownloadItem>, outcomes: &Vec<Result<(), String>>)
    requires
        outcomes@.len() == old(items)@.len(),
    ensures
        final(items)@.len() == old(items)@.len(),
        forall|i: int|
            0 <= i < old(items)@.len() && spec_should_start(#[trigger] old(items)@[i])
                ==> final(items)@[i].state == spec_outcome_state(outcomes@[i])
                && final(items)@[i].attachment == old(items)@[i].attachment
                && final(items)@[i].selected == old(items)@[i].selected,
        forall|i: int|
            0 <= i < old(items)@.len() && !spec_should_start(#[trigger] old(items)@[i])
                ==> final(items)@[i] == old(items)@[i],
        forall|i: int|
            0 <= i < old(items)@.len() && old(items)@[i].selected && !((#[trigger] old(items)@[i]).state is Downloading)
                ==> {
                ||| final(items)@[i].state is Done
                ||| final(items)@[i].state is Error
                ||| (old(items)@[i].state is AlreadyOnDisk && final(items)@[i] == old(items)@[i])
            },
{
    let n = items.len();
    let mut i: usize = 0;
    while i < n
        invariant
            n == old(items)@.len(),
            outcomes@.len() == n,
            items@.len() == n,
            i <= n,
            forall|t: int|
                0 <= t < i && spec_should_start(#[trigger] old(items)@[t]) ==> items@[t].state
                    == spec_outcome_state(outcomes@[t]) && items@[t].attachment == old(
                    items,
                )@[t].attachment && items@[t].selected == old(items)@[t].selected,
            forall|t: int|
                0 <= t < i && !spec_should_start(#[trigger] old(items)@[t]) ==> items@[t] == old(
                    items,
                )@[t],
            forall|t: int| i <= t < n ==> items@[t] == old(items)@[t],
        decreases n - i,
    {
        if should_start(&items[i]) {
            apply_outcome(&mut items[i], &outcomes[i]);
        }
        i = i + 1;
    }
}

/// The state an outcome leaves behind.
pub open spec fn spec_outcome_state(outcome: Result<(), String>) -> FileState {
    match outcome {
        Result::Ok(_) => FileState::Done,
        Result::Err(e) => FileState::Error(e),
    }
}

/// A size rendered with one decimal in the binary unit it falls in,
/// rounding half up: bytes below 1024, then KB, MB, GB.
pub open spec fn spec_format_size(bytes: u64) -> Seq<char> {
    if bytes >= 1073741824 {
        spec_size_scaled(bytes as int, 1073741824) + " GB"@
    } else if bytes >= 1048576 {
        spec_size_scaled(bytes as int, 1048576) + " MB"@
    } else if bytes >= 1024 {
        spec_size_scaled(bytes as int, 1024) + " KB"@
    } else {
        spec_dec(bytes as nat) + " B"@
    }
}

/// `bytes / unit` with one decimal, half up: `int.frac`.
pub open spec fn spec_size_scaled(bytes: int, unit: int) -> Seq<char> {
    let tenths = (bytes * 10 + unit / 2) / unit;
    spec_dec((tenths / 10) as nat) + "."@ + spec_dec((tenths % 10) as nat)
}

fn size_scaled(bytes: u64, unit: u64) -> (r: String)
    requires
        1024 <= unit,
    ensures
        r@ == spec_size_scaled(bytes as int, unit as int),
{
    let num: u128 = (bytes as u128) * 10 + (unit as u128) / 2;
    let tenths128: u128 = num / (unit as u128);
    proof {
        vstd::arithmetic::div_mod::lemma_fundamental_div_mod(num as int, unit as int);
        vstd::arithmetic::div_mod::lemma_mod_bound(num as int, unit as int);
        assert(tenths128 as int == num as int / (unit as int));
        assert(tenths128 as int * (unit as int) <= num as int) by (nonlinear_arith)
            requires
                num as int == (unit as int) * (tenths128 as int) + (num as int % (unit as int)),
                0 <= num as int % (unit as int),
        ;
        assert(tenths128 as int * 1024 <= tenths128 as int * (unit as int))
            by (nonlinear_arith)
            requires
                tenths128 >= 0,
                unit >= 1024,
        ;
        assert(num as int <= u64::MAX as int * 11);
        assert(tenths128 as int <= u64::MAX as int) by (nonlinear_arith)
            requires
                tenths128 as int * 1024 <= u64::MAX as int * 11,
                tenths128 >= 0,
        ;
    }
    let tenths: u64 = tenths128 as u64;
    let mut r = u64_to_dec(tenths / 10);
    r.append(".");
    r.append(u64_to_dec(tenths % 10).as_str());
    r
}

/// Renders a byte count for display: `532 B`, `1.5 KB`, `2.0 MB`,
/// `1.1 GB`.
pub fn format_size(bytes: u64) -> (r: String)
    ensures
        r@ == spec_format_size(bytes),
{
    if bytes >= 1073741824 {
        let mut r = size_scaled(bytes, 1073741824);
        r.append(" GB");
        r
    } else if bytes >= 1048576 {
        let mut r = size_scaled(bytes, 1048576);
        r.append(" MB");
        r
    } else if bytes >= 1024 {
        let mut r = size_scaled(bytes, 1024);
        r.append(" KB");
        r
    } else {
        let mut r = u64_to_dec(bytes);
        r.append(" B");
        r
    }
}

/// An elapsed time rendered in its largest whole unit: seconds,
/// minutes, hours, or days.
pub open spec fn spec_format_duration(secs: u64) -> Seq<char> {
    if secs < 60 {
        spec_dec(secs as nat) + "s ago"@
    } else if secs < 3600 {
        spec_dec((secs / 60) as nat) + "m ago"@
    } else if secs < 86400 {
        spec_dec((secs / 3600) as nat) + "h ago"@
    } else {
        spec_dec((secs / 86400) as nat) + "d ago"@
    }
}

/// Renders a time distance, e.g. `42s ago`, `3h ago`.
pub fn format_duration(secs: u64) -> (r: String)
    ensures
        r@ == spec_format_duration(secs),
{
    if secs < 60 {
        let mut r = u64_to_dec(secs);
        r.append("s ago");
        r
    } else if secs < 3600 {
        let mut r = u64_to_dec(secs / 60);
        r.append("m ago");
        r
    } else if secs < 86400 {
        let mut r = u64_to_dec(secs / 3600);
        r.append("h ago");
        r
    } else {
        let mut r = u64_to_dec(secs / 86400);
        r.append("d ago");
        r
    }
}


/// An exact copy of an attachment descriptor.
fn clone_attachment(a: &Attachment) -> (r: Attachment)
    ensures
        r == *a,
{
    Attachment {
        id: a.id.clone(),
        filename: a.filename.clone(),
        size: a.size,
        created: a.created,
        content: a.content.clone(),
        mime_type: a.mime_type.clone(),
    }
}

/// Builds the item list for a freshly fetched issue: one item per
/// attachment, pending and selected, except that an attachment already
/// found on disk starts `AlreadyOnDisk` and deselected. `on_disk[i]`
/// says whether attachment `i`'s exact target path exists.
pub fn make_download_items(attachments: &Vec<Attachment>, on_disk: &Vec<bool>) -> (r: Vec<
    DownloadItem,
>)
    requires
        attachments@.len() == on_disk@.len(),
    ensures
        r@.len() == attachments@.len(),
        forall|i: int|
            0 <= i < r@.len() ==> (#[trigger] r@[i]).attachment == attachments@[i] && if on_disk@[i] {
                r@[i].state is AlreadyOnDisk && !r@[i].selected
            } else {
                r@[i].state is Pending && r@[i].selected
            },
{
    let n = attachments.len();
    let mut r: Vec<DownloadItem> = Vec::new();
    let mut i: usize = 0;
    while i < n
        invariant
            n == attachments@.len(),
            n == on_disk@.len(),
            i <= n,
            r@.len() == i,
            forall|t: int|
                0 <= t < i ==> (#[trigger] r@[t]).attachment == attachments@[t] && if on_disk@[t] {
                    r@[t].state is AlreadyOnDisk && !r@[t].selected
                } else {
                    r@[t].state is Pending && r@[t].selected
                },
        decreases n - i,
    {
        let a = clone_attachment(&attachments[i]);
        let item = if on_disk[i] {
            DownloadItem { attachment: a, state: FileState::AlreadyOnDisk, selected: false }
        } else {
            DownloadItem { attachment: a, state: FileState::Pending, selected: true }
        };
        r.push(item);
        i = i + 1;
    }
    r
}

} // verus!
