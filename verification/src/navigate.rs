//! From a cached rank to a place on disk, and what to do where it has gone.
use crate::clock::{is_moment, moment_failed, timestamped_event};
use crate::error::{refuse, CliError};
use crate::journal::{
    cleanup_entry_at, entries_of, navigation_target_label, target_label, CleanupJournalEntry,
};
use crate::numbers::{decimal, decimal_text, parse_usize};
use crate::cli::word_number;
use crate::prune::{prune_cached_entry, prune_result, pruned, NavigationTarget, PruneResult};
use crate::snapshot::{SizedEntry, Snapshot};
use crate::text::{lower, push_text, same_text, texts, to_lower};
use crate::paths::{parent, parent_of, PathStyle};
use vstd::prelude::*;

verus! {

// ---------------------------------------------------------------------------
// Ranks
// ---------------------------------------------------------------------------

/// The refusal of a rank that is not there.
pub open spec fn rank_refused(index: nat, len: nat, label: Seq<char>) -> Option<Seq<char>> {
    if len == 0 {
        Some("no cached "@ + label + " entries"@)
    } else if index == 0 || index > len {
        Some(label + " number must be between 1 and "@ + decimal(len))
    } else {
        None
    }
}

/// The place of a rank, which counts from one.
pub fn checked_one_based_index(one_based_index: usize, len: usize, label: &str) -> (r: Result<
    usize,
    CliError,
>)
    ensures
        match rank_refused(one_based_index as nat, len as nat, label@) {
            Some(message) => r matches Err(e) && e.says(message),
            None => r == Ok::<usize, CliError>((one_based_index - 1) as usize),
        },
{
    if len == 0 {
        return Err(
            CliError::Message("no cached ".to_owned().concat(label).concat(" entries")),
        );
    }
    if one_based_index == 0 || one_based_index > len {
        return Err(
            CliError::Message(
                label.to_owned().concat(" number must be between 1 and ").concat(
                    decimal_text(len as u64).as_str(),
                ),
            ),
        );
    }
    Ok(one_based_index - 1)
}

/// How many entries of a list are shown.
pub open spec fn shown_count(len: nat, limit: nat) -> nat {
    if len < limit {
        len
    } else {
        limit
    }
}

/// The cached entry of a rank, among those that are shown.
pub fn cached_navigation_entry(
    snapshot: &Snapshot,
    target: NavigationTarget,
    one_based_index: usize,
    limit: usize,
) -> (r: Result<SizedEntry, CliError>)
    ensures
        ({
            let list = entries_of(*snapshot, target);
            match rank_refused(
                one_based_index as nat,
                shown_count(list.len(), limit as nat),
                target_label(target),
            ) {
                Some(message) => r matches Err(e) && e.says(message),
                None => r == Ok::<SizedEntry, CliError>(list[one_based_index - 1]),
            }
        }),
{
    let list = match target {
        NavigationTarget::File => &snapshot.largest_files,
        NavigationTarget::Folder => &snapshot.largest_folders,
    };
    let shown: usize = if list.len() < limit {
        list.len()
    } else {
        limit
    };
    match checked_one_based_index(one_based_index, shown, navigation_target_label(target)) {
        Ok(index) => Ok(list[index].clone()),
        Err(e) => Err(e),
    }
}

/// The place of a typed rank in a list of choices.
pub fn parse_one_based_index(value: &str, len: usize) -> (r: Result<usize, CliError>)
    ensures
        match word_number(value@) {
            None => r matches Err(e) && e.says("selection must be a number"@),
            Some(n) => if n == 0 || n > len {
                r matches Err(e) && e.says(
                    "selection must be between 1 and "@ + decimal(len as nat),
                )
            } else {
                r == Ok::<usize, CliError>((n - 1) as usize)
            },
        },
{
    match parse_usize(value) {
        None => Err(refuse("selection must be a number")),
        Some(n) => {
            if n == 0 || n > len {
                return Err(
                    CliError::Message(
                        "selection must be between 1 and ".to_owned().concat(
                            decimal_text(len as u64).as_str(),
                        ),
                    ),
                );
            }
            Ok(n - 1)
        },
    }
}

// ---------------------------------------------------------------------------
// Places
// ---------------------------------------------------------------------------

/// Where the file browser is to open, and what is said of it.
#[derive(Debug, PartialEq, Eq)]
pub struct NavigationPath {
    pub path: String,
    pub select_file: bool,
    pub message: String,
}

impl NavigationPath {
    /// This is where the file browser is to open.
    pub open spec fn leads(self, path: Seq<char>, select_file: bool, message: Seq<char>) -> bool {
        &&& self.path@ == path
        &&& self.select_file == select_file
        &&& self.message@ == message
    }
}

/// Where to go for an entry. `found` says whether it is there as what it was,
/// `parent_found` whether the folder above it is: a file that has gone leads to
/// its folder.
pub fn navigation_for_entry(
    style: PathStyle,
    entry: &SizedEntry,
    target: NavigationTarget,
    found: bool,
    parent_found: bool,
) -> (r: Result<NavigationPath, CliError>)
    ensures
        match target {
            NavigationTarget::File => match parent(style, entry.path@) {
                None => r matches Err(e) && e.says(
                    "cached file has no containing folder: "@ + entry.path@,
                ),
                Some(above) => if found {
                    r matches Ok(n) && n.leads(
                        entry.path@,
                        true,
                        "Opening Explorer and selecting "@ + entry.path@,
                    )
                } else if parent_found {
                    r matches Ok(n) && n.leads(
                        above,
                        false,
                        "Opening containing folder "@ + above + "; cached file was not found at "@
                            + entry.path@,
                    )
                } else {
                    r matches Err(e) && e.says(
                        "cached file and containing folder no longer exist: "@ + entry.path@,
                    )
                },
            },
            NavigationTarget::Folder => if found {
                r matches Ok(n) && n.leads(
                    entry.path@,
                    false,
                    "Opening Explorer at "@ + entry.path@,
                )
            } else {
                r matches Err(e) && e.says("cached folder no longer exists: "@ + entry.path@)
            },
        },
{
    let path = entry.path.as_str();
    match target {
        NavigationTarget::File => match parent_of(style, path) {
            None => Err(
                CliError::Message("cached file has no containing folder: ".to_owned().concat(path)),
            ),
            Some(above) => {
                if found {
                    Ok(
                        NavigationPath {
                            path: entry.path.clone(),
                            select_file: true,
                            message: "Opening Explorer and selecting ".to_owned().concat(path),
                        },
                    )
                } else if parent_found {
                    let message = "Opening containing folder ".to_owned().concat(
                        above.as_str(),
                    ).concat("; cached file was not found at ").concat(path);
                    Ok(NavigationPath { path: above, select_file: false, message })
                } else {
                    Err(
                        CliError::Message(
                            "cached file and containing folder no longer exist: ".to_owned().concat(
                                path,
                            ),
                        ),
                    )
                }
            },
        },
        NavigationTarget::Folder => {
            if !found {
                return Err(
                    CliError::Message("cached folder no longer exists: ".to_owned().concat(path)),
                );
            }
            Ok(
                NavigationPath {
                    path: entry.path.clone(),
                    select_file: false,
                    message: "Opening Explorer at ".to_owned().concat(path),
                },
            )
        },
    }
}

/// The arguments of Explorer: the path stands in quotes.
pub fn explorer_args_for_navigation(navigation: &NavigationPath) -> (r: Vec<String>)
    ensures
        texts(r@) == seq![
            if navigation.select_file {
                "/select,\""@ + navigation.path@ + "\""@
            } else {
                "/e,\""@ + navigation.path@ + "\""@
            },
        ],
{
    let head = if navigation.select_file {
        "/select,\""
    } else {
        "/e,\""
    };
    let mut args: Vec<String> = Vec::new();
    push_text(&mut args, head.to_owned().concat(navigation.path.as_str()).concat("\""));
    assert(texts(args@) =~= seq![head@ + navigation.path@ + "\""@]);
    args
}

// ---------------------------------------------------------------------------
// Opening
// ---------------------------------------------------------------------------

/// Whether an entry is missing: it is not there as what it was.
pub fn entry_is_missing(found: bool) -> (r: bool)
    ensures
        r == !found,
{
    !found
}

/// What opening an entry amounts to.
#[derive(Debug, Clone, Copy, PartialEq, Eq, Structural)]
pub enum OpenPlan {
    /// Open the file browser.
    Launch,
    /// Offer to take the missing entry out of the cache; open unless it was.
    OfferThenLaunch,
    /// Say why it cannot be opened, and offer to take it out of the cache.
    Offer,
    /// Say why it cannot be opened.
    Fail,
}

/// What opening an entry amounts to: where someone can answer, a missing entry
/// is offered for removal first.
pub fn open_plan(navigable: bool, found: bool, interactive: bool) -> (r: OpenPlan)
    ensures
        r == match (navigable, interactive && !found) {
            (true, false) => OpenPlan::Launch,
            (true, true) => OpenPlan::OfferThenLaunch,
            (false, true) => OpenPlan::Offer,
            (false, false) => OpenPlan::Fail,
        },
{
    let offer = interactive && entry_is_missing(found);
    if navigable {
        if offer {
            OpenPlan::OfferThenLaunch
        } else {
            OpenPlan::Launch
        }
    } else if offer {
        OpenPlan::Offer
    } else {
        OpenPlan::Fail
    }
}

/// The answer is yes.
pub open spec fn affirmed(answer: Seq<char>) -> bool {
    lower(answer) == "y"@ || lower(answer) == "yes"@
}

/// Whether the answer is yes.
pub fn is_yes(answer: &str) -> (r: bool)
    ensures
        r == affirmed(answer@),
{
    let word = to_lower(answer);
    same_text(word.as_str(), "y") || same_text(word.as_str(), "yes")
}

/// What is said before a missing entry is offered for removal.
pub open spec fn offer_text(target: NavigationTarget) -> Seq<Seq<char>> {
    let head = seq![
        ""@,
        "Missing cached "@ + target_label(target) + " detected."@,
        "Warning: this only edits the saved dscan11 snapshot."@,
        "It does not delete anything from disk and it does not rescan the drive."@,
    ];
    match target {
        NavigationTarget::File => head,
        NavigationTarget::Folder => head.push(
            "Folder category totals may stay approximate until the next full scan."@,
        ),
    }
}

/// What is said before a missing entry is offered for removal.
pub fn offer_lines(target: NavigationTarget) -> (r: Vec<String>)
    ensures
        texts(r@) == offer_text(target),
{
    let mut out: Vec<String> = Vec::new();
    push_text(&mut out, "".to_owned());
    push_text(
        &mut out,
        "Missing cached ".to_owned().concat(navigation_target_label(target)).concat(" detected."),
    );
    push_text(&mut out, "Warning: this only edits the saved dscan11 snapshot.".to_owned());
    push_text(
        &mut out,
        "It does not delete anything from disk and it does not rescan the drive.".to_owned(),
    );
    if let NavigationTarget::Folder = target {
        push_text(
            &mut out,
            "Folder category totals may stay approximate until the next full scan.".to_owned(),
        );
    }
    assert(texts(out@) =~= offer_text(target));
    out
}

/// The question whether to remove a missing entry.
pub fn offer_prompt(target: NavigationTarget) -> (r: String)
    ensures
        r@ == "Remove this missing "@ + target_label(target)
            + " from the scan cache? [y/N]: "@,
{
    "Remove this missing ".to_owned().concat(navigation_target_label(target)).concat(
        " from the scan cache? [y/N]: ",
    )
}

/// What came of the offer to remove a missing entry.
pub enum PruneOffer {
    Declined,
    NoMatch,
    Removed { record: CleanupJournalEntry, result: PruneResult },
}

/// What came of the offer, given the answer and the time of a removal.
pub open spec fn offer_outcome(
    before: Snapshot,
    target: NavigationTarget,
    entry: SizedEntry,
    answer: Seq<char>,
    after: Snapshot,
    r: PruneOffer,
) -> bool {
    let result = prune_result(before.cache(), target, entry);
    if !affirmed(answer) {
        r is Declined && after == before
    } else {
        &&& after.same_scan(&before)
        &&& after.cache() == pruned(before.cache(), target, entry)
        &&& if result.removed_files == 0 && result.removed_folders == 0 {
            r is NoMatch
        } else {
            r matches PruneOffer::Removed { record, result: counted } && counted == result
                && record.records(target, entry, result, record.timestamp) && is_moment(
                record.timestamp,
            )
        }
    }
}

/// Takes a missing entry out of the cache where the answer is yes. Nothing is
/// recorded where nothing matched, or where the clock cannot be read.
pub fn offer_prune_missing_entry(
    snapshot: &mut Snapshot,
    target: NavigationTarget,
    entry: &SizedEntry,
    answer: &str,
) -> (r: Result<PruneOffer, CliError>)
    requires
        old(snapshot).wf(),
    ensures
        final(snapshot).wf(),
        match r {
            Ok(offer) => offer_outcome(
                *old(snapshot),
                target,
                *entry,
                answer@,
                *final(snapshot),
                offer,
            ),
            Err(e) => {
                &&& moment_failed(e)
                &&& affirmed(answer@)
                &&& ({
                    let result = prune_result(old(snapshot).cache(), target, *entry);
                    result.removed_files > 0 || result.removed_folders > 0
                })
                &&& final(snapshot).same_scan(old(snapshot))
                &&& final(snapshot).cache() == pruned(old(snapshot).cache(), target, *entry)
            },
        },
{
    if !is_yes(answer) {
        return Ok(PruneOffer::Declined);
    }
    let result = prune_cached_entry(snapshot, target, entry);
    if result.removed_files == 0 && result.removed_folders == 0 {
        return Ok(PruneOffer::NoMatch);
    }
    match timestamped_event() {
        Ok(timestamp) => Ok(
            PruneOffer::Removed {
                record: cleanup_entry_at(target, entry, &result, timestamp),
                result,
            },
        ),
        Err(e) => Err(e),
    }
}

/// What is said after the offer; `path` is where the snapshot was saved.
pub open spec fn offer_reply(offer: PruneOffer, path: Seq<char>) -> Seq<Seq<char>> {
    match offer {
        PruneOffer::Declined => seq!["Cache unchanged."@],
        PruneOffer::NoMatch => seq!["No matching cached entry was found; cache unchanged."@],
        PruneOffer::Removed { result, .. } => seq![
            "Tracked removal of "@ + decimal(result.removed_files as nat) + " file(s) and "@
                + decimal(result.removed_folders as nat) + " folder(s)."@,
            "Saved updated cache snapshot: "@ + path,
        ],
    }
}

/// What is said after the offer.
pub fn offer_reply_lines(offer: &PruneOffer, path: &str) -> (r: Vec<String>)
    ensures
        texts(r@) == offer_reply(*offer, path@),
{
    let mut out: Vec<String> = Vec::new();
    match offer {
        PruneOffer::Declined => {
            push_text(&mut out, "Cache unchanged.".to_owned());
        },
        PruneOffer::NoMatch => {
            push_text(
                &mut out,
                "No matching cached entry was found; cache unchanged.".to_owned(),
            );
        },
        PruneOffer::Removed { result, .. } => {
            push_text(
                &mut out,
                "Tracked removal of ".to_owned().concat(
                    decimal_text(result.removed_files as u64).as_str(),
                ).concat(" file(s) and ").concat(
                    decimal_text(result.removed_folders as u64).as_str(),
                ).concat(" folder(s)."),
            );
            push_text(&mut out, "Saved updated cache snapshot: ".to_owned().concat(path));
        },
    }
    assert(texts(out@) =~= offer_reply(*offer, path@));
    out
}

} // verus!
