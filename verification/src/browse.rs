//! The interactive browser: menus, choices and the lists they lead to.
use crate::audit::copy_first;
use crate::cli::word_number;
use crate::error::CliError;
use crate::journal::{navigation_target_label, target_label};
use crate::navigate::{
    affirmed, checked_one_based_index, is_yes, parse_one_based_index, rank_refused, shown_count,
};
use crate::numbers::{decimal, parse_usize};
use crate::prune::{at_or_under, inside, path_is_under, split_outside, NavigationTarget};
use crate::scan::first_entries;
use crate::snapshot::{opt_text, SizedEntry, Snapshot};
use crate::sums::lemma_filter_take;
use crate::text::{
    is_white, lower, push_text, same_text, split_words, texts, to_lower, trim, trim_back,
    trim_front, trim_text, words,
};
use crate::table::opt_str;
use crate::views::{
    category_choice_lines, category_choices, entries_table, entry_details, folder_choice_lines,
    folder_choices, folders_view, main_menu, main_menu_lines, print_entry_details, print_entry_refs,
    print_folders, print_summary, summary_head, summary_table,
};
use vstd::prelude::*;

verus! {

/// What is typed, without white space around it and in lower case.
pub open spec fn choice_of(line: Seq<char>) -> Seq<char> {
    lower(trim(line))
}

/// What is typed, without white space around it and in lower case.
pub fn typed_choice(line: &str) -> (r: String)
    ensures
        r@ == choice_of(line@),
{
    to_lower(trim_text(line).as_str())
}

fn one_of(word: &str, a: &str, b: &str, c: &str) -> (r: bool)
    ensures
        r == (word@ == a@ || word@ == b@ || word@ == c@),
{
    same_text(word, a) || same_text(word, b) || same_text(word, c)
}

/// The word ends the program.
pub open spec fn quits(word: Seq<char>) -> bool {
    word == "q"@ || word == "exit"@ || word == "quit"@
}

/// Whether the word ends the program.
pub fn is_quit_choice(value: &str) -> (r: bool)
    ensures
        r == quits(value@),
{
    one_of(value, "q", "exit", "quit")
}

/// The word goes back.
pub open spec fn goes_back(word: Seq<char>) -> bool {
    word == ""@ || word == "b"@ || word == "back"@
}

fn is_back_choice(value: &str) -> (r: bool)
    ensures
        r == goes_back(value@),
{
    one_of(value, "", "b", "back")
}

// ---------------------------------------------------------------------------
// The main menu
// ---------------------------------------------------------------------------

/// What the main menu leads to.
#[derive(Debug, Clone, Copy, PartialEq, Eq, Structural)]
pub enum MainChoice {
    Files,
    Folders,
    Categories,
    Leave,
}

/// What a word leads to from the main menu.
pub open spec fn main_choice_of(word: Seq<char>) -> Option<MainChoice> {
    if word == "1"@ || word == "files"@ {
        Some(MainChoice::Files)
    } else if word == "2"@ || word == "folders"@ {
        Some(MainChoice::Folders)
    } else if word == "3"@ || word == "categories"@ {
        Some(MainChoice::Categories)
    } else if word == ""@ || quits(word) {
        Some(MainChoice::Leave)
    } else {
        None
    }
}

/// What a typed line leads to from the main menu.
pub fn main_choice(line: &str) -> (r: Result<MainChoice, CliError>)
    ensures
        match main_choice_of(choice_of(line@)) {
            Some(choice) => r == Ok::<MainChoice, CliError>(choice),
            None => r matches Err(e) && e.says(
                "unknown browse choice `"@ + choice_of(line@) + "`"@,
            ),
        },
{
    let word = typed_choice(line);
    let w = word.as_str();
    if same_text(w, "1") || same_text(w, "files") {
        return Ok(MainChoice::Files);
    }
    if same_text(w, "2") || same_text(w, "folders") {
        return Ok(MainChoice::Folders);
    }
    if same_text(w, "3") || same_text(w, "categories") {
        return Ok(MainChoice::Categories);
    }
    if same_text(w, "") || is_quit_choice(w) {
        return Ok(MainChoice::Leave);
    }
    Err(CliError::Message("unknown browse choice `".to_owned().concat(w).concat("`")))
}

// ---------------------------------------------------------------------------
// Folders and categories
// ---------------------------------------------------------------------------

/// What a numbered menu leads to: back, out, or to the entry at a place.
#[derive(Debug, Clone, Copy, PartialEq, Eq, Structural)]
pub enum MenuChoice {
    Back,
    Quit,
    Pick(usize),
}

/// What a typed line leads to in a menu of `len` entries.
pub fn menu_choice(line: &str, len: usize) -> (r: Result<MenuChoice, CliError>)
    ensures
        ({
            let word = choice_of(line@);
            if goes_back(word) {
                r == Ok::<MenuChoice, CliError>(MenuChoice::Back)
            } else if quits(word) {
                r == Ok::<MenuChoice, CliError>(MenuChoice::Quit)
            } else {
                match word_number(word) {
                    None => r matches Err(e) && e.says("selection must be a number"@),
                    Some(n) => if n == 0 || n > len {
                        r matches Err(e) && e.says(
                            "selection must be between 1 and "@ + decimal(len as nat),
                        )
                    } else {
                        r == Ok::<MenuChoice, CliError>(MenuChoice::Pick((n - 1) as usize))
                    },
                }
            }
        }),
{
    let word = typed_choice(line);
    if is_back_choice(word.as_str()) {
        return Ok(MenuChoice::Back);
    }
    if is_quit_choice(word.as_str()) {
        return Ok(MenuChoice::Quit);
    }
    match parse_one_based_index(word.as_str(), len) {
        Ok(index) => Ok(MenuChoice::Pick(index)),
        Err(e) => Err(e),
    }
}

/// The folders inside a folder, the folder itself left out.
pub open spec fn inner_folders(list: Seq<SizedEntry>, folder: Seq<char>) -> Seq<SizedEntry> {
    list.filter(|e: SizedEntry| e.path@ != folder && at_or_under(e.path@, folder))
}

/// The files of a category.
pub open spec fn category_files_of(list: Seq<SizedEntry>, category: Seq<char>) -> Seq<SizedEntry> {
    list.filter(|e: SizedEntry| opt_text(e.category) == Some(category))
}

/// What is cached inside a folder: files and folders, at most `limit` of each.
pub fn drill_down(snapshot: &Snapshot, folder: &str, limit: usize) -> (r: (
    Vec<SizedEntry>,
    Vec<SizedEntry>,
))
    ensures
        r.0@ == first_entries(inside(snapshot.largest_files@, folder@), limit as nat),
        r.1@ == first_entries(inner_folders(snapshot.largest_folders@, folder@), limit as nat),
{
    let (_, files) = split_outside(&snapshot.largest_files, folder);
    let list = &snapshot.largest_folders;
    let ghost keep = |e: SizedEntry| e.path@ != folder@ && at_or_under(e.path@, folder@);
    let mut folders: Vec<SizedEntry> = Vec::new();
    proof {
        reveal(Seq::filter);
    }
    for i in 0..list.len()
        invariant
            keep == (|e: SizedEntry| e.path@ != folder@ && at_or_under(e.path@, folder@)),
            folders@ == list@.take(i as int).filter(keep),
    {
        proof {
            lemma_filter_take(list@, i as int, keep);
        }
        let entry = &list[i];
        if !same_text(entry.path.as_str(), folder) && path_is_under(entry.path.as_str(), folder) {
            folders.push(entry.clone());
        }
    }
    assert(list@.take(list@.len() as int) == list@);
    (copy_first(&files, limit), copy_first(&folders, limit))
}

/// The cached files of a category, at most `limit`.
pub fn category_files(snapshot: &Snapshot, category: &str, limit: usize) -> (r: Vec<SizedEntry>)
    ensures
        r@ == first_entries(category_files_of(snapshot.largest_files@, category@), limit as nat),
{
    let list = &snapshot.largest_files;
    let ghost keep = |e: SizedEntry| opt_text(e.category) == Some(category@);
    let mut files: Vec<SizedEntry> = Vec::new();
    proof {
        reveal(Seq::filter);
    }
    for i in 0..list.len()
        invariant
            keep == (|e: SizedEntry| opt_text(e.category) == Some(category@)),
            files@ == list@.take(i as int).filter(keep),
    {
        proof {
            lemma_filter_take(list@, i as int, keep);
        }
        let entry = &list[i];
        if let Some(name) = &entry.category {
            if same_text(name.as_str(), category) {
                files.push(entry.clone());
            }
        }
    }
    assert(list@.take(list@.len() as int) == list@);
    copy_first(&files, limit)
}

/// Whether nothing is cached inside a folder.
pub fn cached_drilldown_entries_are_empty(files: &[SizedEntry], folders: &[SizedEntry]) -> (r: bool)
    ensures
        r == (files@.len() == 0 && folders@.len() == 0),
{
    files.len() == 0 && folders.len() == 0
}

// ---------------------------------------------------------------------------
// Lists
// ---------------------------------------------------------------------------

/// The question below a list of entries.
pub open spec fn detail_prompt_text(files_empty: bool, folders_empty: bool) -> Seq<char> {
    if files_empty {
        "Choose 1=view folder details, 2=back, or q=exit: "@
    } else if folders_empty {
        "Choose 1=view file details, 2=back, or q=exit: "@
    } else {
        "Choose 1=view file details, 2=view folder details, 3=back, or q=exit: "@
    }
}

/// The question below a list of entries.
pub fn print_detail_menu_prompt(files_empty: bool, folders_empty: bool) -> (r: &'static str)
    ensures
        r@ == detail_prompt_text(files_empty, folders_empty),
{
    if files_empty {
        "Choose 1=view folder details, 2=back, or q=exit: "
    } else if folders_empty {
        "Choose 1=view file details, 2=back, or q=exit: "
    } else {
        "Choose 1=view file details, 2=view folder details, 3=back, or q=exit: "
    }
}

/// The kind of entry that a word asks details of.
pub open spec fn detail_kind(word: Seq<char>, files_empty: bool, folders_empty: bool) -> Option<
    NavigationTarget,
> {
    if word == "1"@ {
        if files_empty {
            Some(NavigationTarget::Folder)
        } else {
            Some(NavigationTarget::File)
        }
    } else if word == "2"@ && !files_empty && !folders_empty {
        Some(NavigationTarget::Folder)
    } else {
        None
    }
}

/// A typed rank, refused under its label.
pub fn detail_menu_index(value: &str, label: &str) -> (r: Result<usize, CliError>)
    ensures
        match word_number(value@) {
            Some(n) => r == Ok::<usize, CliError>(n),
            None => r matches Err(e) && e.says(label@ + " number must be a positive integer"@),
        },
{
    match parse_usize(value) {
        Some(n) => Ok(n),
        None => Err(
            CliError::Message(label.to_owned().concat(" number must be a positive integer")),
        ),
    }
}

/// What a choice below a list of entries says: the kind of entry and its rank,
/// no rank where it is still to be asked for; nothing where it says neither.
pub fn parse_detail_menu_choice(value: &str, files_empty: bool, folders_empty: bool) -> (r: Result<
    Option<(NavigationTarget, Option<usize>)>,
    CliError,
>)
    ensures
        ({
            let parts = words(value@);
            let kind = if parts.len() == 0 {
                None
            } else {
                detail_kind(parts[0], files_empty, folders_empty)
            };
            match kind {
                None => r matches Ok(None),
                Some(target) => if parts.len() < 2 {
                    r matches Ok(Some((t, None))) && t == target
                } else {
                    match word_number(parts[1]) {
                        Some(n) => r matches Ok(Some((t, Some(m)))) && t == target && m == n,
                        None => r matches Err(e) && e.says(
                            target_label(target) + " number must be a positive integer"@,
                        ),
                    }
                },
            }
        }),
{
    let parts = split_words(value);
    let ghost all = words(value@);
    assert(all.len() == parts@.len());
    if parts.len() == 0 {
        return Ok(None);
    }
    assert(all[0] == parts@[0]@);
    let action = parts[0].as_str();
    let target = if same_text(action, "1") {
        if files_empty {
            NavigationTarget::Folder
        } else {
            NavigationTarget::File
        }
    } else if same_text(action, "2") && !files_empty && !folders_empty {
        NavigationTarget::Folder
    } else {
        return Ok(None);
    };
    if parts.len() < 2 {
        return Ok(Some((target, None)));
    }
    assert(all[1] == parts@[1]@);
    match detail_menu_index(parts[1].as_str(), navigation_target_label(target)) {
        Ok(n) => Ok(Some((target, Some(n)))),
        Err(e) => Err(e),
    }
}

/// The word goes back from a list.
pub open spec fn leaves_list(word: Seq<char>, files_empty: bool, folders_empty: bool) -> bool {
    goes_back(word) || if files_empty || folders_empty {
        word == "2"@
    } else {
        word == "3"@
    }
}

/// Whether the word goes back from a list.
pub fn is_detail_back_choice(value: &str, files_empty: bool, folders_empty: bool) -> (r: bool)
    ensures
        r == leaves_list(value@, files_empty, folders_empty),
{
    is_back_choice(value) || if files_empty || folders_empty {
        same_text(value, "2")
    } else {
        same_text(value, "3")
    }
}

/// What a list of entries leads to.
#[derive(Debug, Clone, Copy, PartialEq, Eq, Structural)]
pub enum ListChoice {
    Back,
    Quit,
    Details(NavigationTarget, usize),
    AskNumber(NavigationTarget),
}

/// What a typed line leads to below a list of entries.
pub fn list_choice(line: &str, files_empty: bool, folders_empty: bool) -> (r: Result<
    ListChoice,
    CliError,
>)
    ensures
        ({
            let word = choice_of(line@);
            let parts = words(word);
            let kind = if parts.len() == 0 {
                None
            } else {
                detail_kind(parts[0], files_empty, folders_empty)
            };
            if quits(word) {
                r == Ok::<ListChoice, CliError>(ListChoice::Quit)
            } else if leaves_list(word, files_empty, folders_empty) {
                r == Ok::<ListChoice, CliError>(ListChoice::Back)
            } else {
                match kind {
                    None => r matches Err(e) && e.says(
                        "unknown details choice `"@ + trim(line@) + "`"@,
                    ),
                    Some(target) => if parts.len() < 2 {
                        r == Ok::<ListChoice, CliError>(ListChoice::AskNumber(target))
                    } else {
                        match word_number(parts[1]) {
                            Some(n) => r == Ok::<ListChoice, CliError>(
                                ListChoice::Details(target, n),
                            ),
                            None => r matches Err(e) && e.says(
                                target_label(target) + " number must be a positive integer"@,
                            ),
                        }
                    },
                }
            }
        }),
{
    let word = typed_choice(line);
    if is_quit_choice(word.as_str()) {
        return Ok(ListChoice::Quit);
    }
    if is_detail_back_choice(word.as_str(), files_empty, folders_empty) {
        return Ok(ListChoice::Back);
    }
    match parse_detail_menu_choice(word.as_str(), files_empty, folders_empty) {
        Err(e) => Err(e),
        Ok(None) => Err(
            CliError::Message(
                "unknown details choice `".to_owned().concat(trim_text(line).as_str()).concat("`"),
            ),
        ),
        Ok(Some((target, number))) => match number {
            Some(n) => Ok(ListChoice::Details(target, n)),
            None => Ok(ListChoice::AskNumber(target)),
        },
    }
}

// ---------------------------------------------------------------------------
// Details
// ---------------------------------------------------------------------------

/// What the details of an entry lead to.
#[derive(Debug, Clone, Copy, PartialEq, Eq, Structural)]
pub enum DetailChoice {
    Open,
    Back,
    Quit,
}

/// What a typed line leads to below the details of an entry.
pub fn detail_choice(line: &str) -> (r: Result<DetailChoice, CliError>)
    ensures
        ({
            let word = choice_of(line@);
            if word == "1"@ || word == "open"@ {
                r == Ok::<DetailChoice, CliError>(DetailChoice::Open)
            } else if goes_back(word) || word == "2"@ {
                r == Ok::<DetailChoice, CliError>(DetailChoice::Back)
            } else if quits(word) {
                r == Ok::<DetailChoice, CliError>(DetailChoice::Quit)
            } else {
                r matches Err(e) && e.says("unknown detail choice `"@ + word + "`"@)
            }
        }),
{
    let word = typed_choice(line);
    let w = word.as_str();
    if same_text(w, "1") || same_text(w, "open") {
        return Ok(DetailChoice::Open);
    }
    if is_back_choice(w) || same_text(w, "2") {
        return Ok(DetailChoice::Back);
    }
    if is_quit_choice(w) {
        return Ok(DetailChoice::Quit);
    }
    Err(CliError::Message("unknown detail choice `".to_owned().concat(w).concat("`")))
}

// ---------------------------------------------------------------------------
// Screens
// ---------------------------------------------------------------------------

/// Lists of files and folders under a title.
#[derive(Debug, PartialEq, Eq)]
pub struct EntryLists {
    pub title: String,
    pub files: Vec<SizedEntry>,
    pub folders: Vec<SizedEntry>,
}

/// What the lists hold.
pub struct ListsView {
    pub title: Seq<char>,
    pub files: Seq<SizedEntry>,
    pub folders: Seq<SizedEntry>,
}

impl View for EntryLists {
    type V = ListsView;

    open spec fn view(&self) -> ListsView {
        ListsView { title: self.title@, files: self.files@, folders: self.folders@ }
    }
}

/// What the browser shows.
#[derive(Debug, PartialEq, Eq)]
pub enum Screen {
    /// The main menu.
    Main,
    /// The folders to choose from.
    Folders,
    /// The categories to choose from.
    Categories,
    /// Lists of entries.
    Lists(EntryLists),
    /// The question for the rank of an entry in the lists.
    Number(EntryLists, NavigationTarget),
    /// The details of an entry of the lists.
    Details(EntryLists, SizedEntry, NavigationTarget),
    /// A folder of which nothing else is cached.
    Empty(SizedEntry),
}

/// What a screen holds.
pub enum ScreenView {
    Main,
    Folders,
    Categories,
    Lists(ListsView),
    Number(ListsView, NavigationTarget),
    Details(ListsView, SizedEntry, NavigationTarget),
    Empty(SizedEntry),
}

impl View for Screen {
    type V = ScreenView;

    open spec fn view(&self) -> ScreenView {
        match self {
            Screen::Main => ScreenView::Main,
            Screen::Folders => ScreenView::Folders,
            Screen::Categories => ScreenView::Categories,
            Screen::Lists(lists) => ScreenView::Lists(lists@),
            Screen::Number(lists, kind) => ScreenView::Number(lists@, *kind),
            Screen::Details(lists, entry, kind) => ScreenView::Details(lists@, *entry, *kind),
            Screen::Empty(entry) => ScreenView::Empty(*entry),
        }
    }
}

/// What comes of an answer.
#[derive(Debug, PartialEq, Eq)]
pub enum Step {
    /// Show a screen.
    Show(Screen),
    /// Open the entry of the screen, then go on as `after_open` says.
    Open(Screen),
    /// Leave the browser.
    Leave,
    /// End the program.
    Quit,
}

/// What comes of an answer.
pub enum StepView {
    Show(ScreenView),
    Open(ScreenView),
    Leave,
    Quit,
}

impl View for Step {
    type V = StepView;

    open spec fn view(&self) -> StepView {
        match self {
            Step::Show(screen) => StepView::Show(screen@),
            Step::Open(screen) => StepView::Open(screen@),
            Step::Leave => StepView::Leave,
            Step::Quit => StepView::Quit,
        }
    }
}

/// The screen asks nothing: after it the main menu comes again.
pub open spec fn asks_nothing(screen: ScreenView, snapshot: Snapshot) -> bool {
    match screen {
        ScreenView::Folders => snapshot.largest_folders@.len() == 0,
        ScreenView::Categories => snapshot.categories@.len() == 0,
        ScreenView::Lists(lists) => lists.files.len() == 0 && lists.folders.len() == 0,
        _ => false,
    }
}

/// Whether the screen asks nothing.
pub fn needs_no_answer(screen: &Screen, snapshot: &Snapshot) -> (r: bool)
    ensures
        r == asks_nothing(screen@, *snapshot),
{
    match screen {
        Screen::Folders => snapshot.largest_folders.len() == 0,
        Screen::Categories => snapshot.categories.len() == 0,
        Screen::Lists(lists) => cached_drilldown_entries_are_empty(
            lists.files.as_slice(),
            lists.folders.as_slice(),
        ),
        _ => false,
    }
}

/// The entries of a kind in the lists.
pub open spec fn listed(lists: ListsView, kind: NavigationTarget) -> Seq<SizedEntry> {
    match kind {
        NavigationTarget::File => lists.files,
        NavigationTarget::Folder => lists.folders,
    }
}

/// The details of the entry of a rank.
pub open spec fn ranked_details(lists: ListsView, kind: NavigationTarget, rank: usize) -> Result<
    StepView,
    Seq<char>,
> {
    let list = listed(lists, kind);
    match rank_refused(rank as nat, list.len(), target_label(kind)) {
        Some(message) => Err(message),
        None => Ok(StepView::Show(ScreenView::Details(lists, list[rank - 1], kind))),
    }
}

/// The place that a word picks in a menu of `len` entries.
pub open spec fn picked(word: Seq<char>, len: nat) -> Result<int, Seq<char>> {
    match word_number(word) {
        None => Err("selection must be a number"@),
        Some(n) => if n == 0 || n > len {
            Err("selection must be between 1 and "@ + decimal(len))
        } else {
            Ok(n - 1)
        },
    }
}

/// What a folder leads to: what is cached inside it, or that nothing is.
pub open spec fn folder_step(snapshot: Snapshot, limit: nat, folder: SizedEntry) -> StepView {
    let files = first_entries(inside(snapshot.largest_files@, folder.path@), limit);
    let folders = first_entries(inner_folders(snapshot.largest_folders@, folder.path@), limit);
    if files.len() == 0 && folders.len() == 0 {
        StepView::Show(ScreenView::Empty(folder))
    } else {
        StepView::Show(
            ScreenView::Lists(
                ListsView {
                    title: "Cached top-N entries under "@ + folder.path@,
                    files,
                    folders,
                },
            ),
        )
    }
}

/// What an answer leads to.
pub open spec fn browse_step_of(
    screen: ScreenView,
    snapshot: Snapshot,
    limit: nat,
    line: Seq<char>,
) -> Result<StepView, Seq<char>> {
    let word = choice_of(line);
    match screen {
        ScreenView::Main => match main_choice_of(word) {
            None => Err("unknown browse choice `"@ + word + "`"@),
            Some(MainChoice::Files) => Ok(
                StepView::Show(
                    ScreenView::Lists(
                        ListsView {
                            title: "Cached files"@,
                            files: first_entries(snapshot.largest_files@, limit),
                            folders: Seq::empty(),
                        },
                    ),
                ),
            ),
            Some(MainChoice::Folders) => Ok(StepView::Show(ScreenView::Folders)),
            Some(MainChoice::Categories) => Ok(StepView::Show(ScreenView::Categories)),
            Some(MainChoice::Leave) => Ok(StepView::Leave),
        },
        ScreenView::Folders => if goes_back(word) {
            Ok(StepView::Show(ScreenView::Main))
        } else if quits(word) {
            Ok(StepView::Quit)
        } else {
            match picked(word, shown_count(snapshot.largest_folders@.len(), limit)) {
                Err(message) => Err(message),
                Ok(pick) => Ok(
                    folder_step(snapshot, limit, snapshot.largest_folders@[pick]),
                ),
            }
        },
        ScreenView::Categories => if goes_back(word) {
            Ok(StepView::Show(ScreenView::Main))
        } else if quits(word) {
            Ok(StepView::Quit)
        } else {
            match picked(word, shown_count(snapshot.categories@.len(), limit)) {
                Err(message) => Err(message),
                Ok(pick) => {
                    let name = snapshot.categories@[pick].name@;
                    Ok(
                        StepView::Show(
                            ScreenView::Lists(
                                ListsView {
                                    title: "Cached top-N files in category "@ + name,
                                    files: first_entries(
                                        category_files_of(snapshot.largest_files@, name),
                                        limit,
                                    ),
                                    folders: Seq::empty(),
                                },
                            ),
                        ),
                    )
                },
            }
        },
        ScreenView::Lists(lists) => {
            let files_empty = lists.files.len() == 0;
            let folders_empty = lists.folders.len() == 0;
            let parts = words(word);
            let kind = if parts.len() == 0 {
                None
            } else {
                detail_kind(parts[0], files_empty, folders_empty)
            };
            if quits(word) {
                Ok(StepView::Quit)
            } else if leaves_list(word, files_empty, folders_empty) {
                Ok(StepView::Show(ScreenView::Main))
            } else {
                match kind {
                    None => Err("unknown details choice `"@ + trim(line) + "`"@),
                    Some(target) => if parts.len() < 2 {
                        Ok(StepView::Show(ScreenView::Number(lists, target)))
                    } else {
                        match word_number(parts[1]) {
                            Some(n) => ranked_details(lists, target, n),
                            None => Err(
                                target_label(target) + " number must be a positive integer"@,
                            ),
                        }
                    },
                }
            }
        },
        ScreenView::Number(lists, kind) => match word_number(trim(line)) {
            Some(n) => ranked_details(lists, kind, n),
            None => Err(target_label(kind) + " number must be a positive integer"@),
        },
        ScreenView::Details(lists, entry, kind) => if word == "1"@ || word == "open"@ {
            Ok(StepView::Open(screen))
        } else if goes_back(word) || word == "2"@ {
            Ok(StepView::Show(ScreenView::Lists(lists)))
        } else if quits(word) {
            Ok(StepView::Quit)
        } else {
            Err("unknown detail choice `"@ + word + "`"@)
        },
        ScreenView::Empty(entry) => if affirmed(trim(line)) {
            Ok(StepView::Open(screen))
        } else {
            Ok(StepView::Show(ScreenView::Main))
        },
    }
}

/// A step is what was meant.
pub open spec fn steps(r: Result<Step, CliError>, meant: Result<StepView, Seq<char>>) -> bool {
    match meant {
        Ok(view) => r matches Ok(step) && step@ == view,
        Err(message) => r matches Err(e) && e.says(message),
    }
}

fn show_ranked(
    lists: EntryLists,
    kind: NavigationTarget,
    rank: usize,
) -> (r: Result<Step, CliError>)
    ensures
        steps(r, ranked_details(lists@, kind, rank)),
{
    let list = match kind {
        NavigationTarget::File => &lists.files,
        NavigationTarget::Folder => &lists.folders,
    };
    match checked_one_based_index(rank, list.len(), navigation_target_label(kind)) {
        Ok(index) => {
            let entry = list[index].clone();
            Ok(Step::Show(Screen::Details(lists, entry, kind)))
        },
        Err(e) => Err(e),
    }
}

fn show_folder(snapshot: &Snapshot, limit: usize, folder: &SizedEntry) -> (r: Step)
    ensures
        r@ == folder_step(*snapshot, limit as nat, *folder),
{
    let (files, folders) = drill_down(snapshot, folder.path.as_str(), limit);
    if cached_drilldown_entries_are_empty(files.as_slice(), folders.as_slice()) {
        return Step::Show(Screen::Empty(folder.clone()));
    }
    let title = "Cached top-N entries under ".to_owned().concat(folder.path.as_str());
    Step::Show(Screen::Lists(EntryLists { title, files, folders }))
}

/// What an answer leads to.
pub fn browse_step(screen: Screen, snapshot: &Snapshot, limit: usize, line: &str) -> (r: Result<
    Step,
    CliError,
>)
    ensures
        steps(r, browse_step_of(screen@, *snapshot, limit as nat, line@)),
{
    match screen {
        Screen::Main => match main_choice(line) {
            Err(e) => Err(e),
            Ok(MainChoice::Files) => {
                let files = copy_first(&snapshot.largest_files, limit);
                let folders: Vec<SizedEntry> = Vec::new();
                Ok(
                    Step::Show(
                        Screen::Lists(
                            EntryLists { title: "Cached files".to_owned(), files, folders },
                        ),
                    ),
                )
            },
            Ok(MainChoice::Folders) => Ok(Step::Show(Screen::Folders)),
            Ok(MainChoice::Categories) => Ok(Step::Show(Screen::Categories)),
            Ok(MainChoice::Leave) => Ok(Step::Leave),
        },
        Screen::Folders => {
            let shown: usize = if snapshot.largest_folders.len() < limit {
                snapshot.largest_folders.len()
            } else {
                limit
            };
            match menu_choice(line, shown) {
                Err(e) => Err(e),
                Ok(MenuChoice::Back) => Ok(Step::Show(Screen::Main)),
                Ok(MenuChoice::Quit) => Ok(Step::Quit),
                Ok(MenuChoice::Pick(index)) => Ok(
                    show_folder(snapshot, limit, &snapshot.largest_folders[index]),
                ),
            }
        },
        Screen::Categories => {
            let shown: usize = if snapshot.categories.len() < limit {
                snapshot.categories.len()
            } else {
                limit
            };
            match menu_choice(line, shown) {
                Err(e) => Err(e),
                Ok(MenuChoice::Back) => Ok(Step::Show(Screen::Main)),
                Ok(MenuChoice::Quit) => Ok(Step::Quit),
                Ok(MenuChoice::Pick(index)) => {
                    let name = snapshot.categories[index].name.as_str();
                    let files = category_files(snapshot, name, limit);
                    let folders: Vec<SizedEntry> = Vec::new();
                    let title = "Cached top-N files in category ".to_owned().concat(name);
                    Ok(Step::Show(Screen::Lists(EntryLists { title, files, folders })))
                },
            }
        },
        Screen::Lists(lists) => match list_choice(
            line,
            lists.files.len() == 0,
            lists.folders.len() == 0,
        ) {
            Err(e) => Err(e),
            Ok(ListChoice::Back) => Ok(Step::Show(Screen::Main)),
            Ok(ListChoice::Quit) => Ok(Step::Quit),
            Ok(ListChoice::Details(kind, rank)) => show_ranked(lists, kind, rank),
            Ok(ListChoice::AskNumber(kind)) => Ok(Step::Show(Screen::Number(lists, kind))),
        },
        Screen::Number(lists, kind) => match detail_menu_index(
            trim_text(line).as_str(),
            navigation_target_label(kind),
        ) {
            Err(e) => Err(e),
            Ok(rank) => show_ranked(lists, kind, rank),
        },
        Screen::Details(lists, entry, kind) => match detail_choice(line) {
            Err(e) => Err(e),
            Ok(DetailChoice::Open) => Ok(Step::Open(Screen::Details(lists, entry, kind))),
            Ok(DetailChoice::Back) => Ok(Step::Show(Screen::Lists(lists))),
            Ok(DetailChoice::Quit) => Ok(Step::Quit),
        },
        Screen::Empty(entry) => if is_yes(trim_text(line).as_str()) {
            Ok(Step::Open(Screen::Empty(entry)))
        } else {
            Ok(Step::Show(Screen::Main))
        },
    }
}

/// What came of opening an entry.
#[derive(Debug, PartialEq, Eq)]
pub enum OpenOutcome {
    /// The file browser was opened.
    Launched,
    /// The missing entry was taken out of the cache.
    Removed,
    /// It could not be opened, and stays in the cache.
    Kept,
    /// It could not be opened, and nothing was offered.
    Failed(String),
}

/// The screen after an entry was opened, or not: a removed entry leads back to
/// the main menu, one that stays to its list. Where nobody can answer, a
/// failure is the end.
pub open spec fn after_open_of(
    screen: ScreenView,
    outcome: OpenOutcome,
    interactive: bool,
) -> Result<ScreenView, Seq<char>> {
    match outcome {
        OpenOutcome::Failed(message) if !interactive || screen is Empty => Err(message@),
        OpenOutcome::Launched => Ok(
            if screen is Empty {
                ScreenView::Main
            } else {
                screen
            },
        ),
        OpenOutcome::Removed => Ok(ScreenView::Main),
        _ => Ok(
            match screen {
                ScreenView::Details(lists, _, _) => ScreenView::Lists(lists),
                _ => ScreenView::Main,
            },
        ),
    }
}

/// The screen after an entry was opened, or not.
pub fn after_open(screen: Screen, outcome: OpenOutcome, interactive: bool) -> (r: Result<
    Screen,
    CliError,
>)
    ensures
        match after_open_of(screen@, outcome, interactive) {
            Ok(view) => r matches Ok(next) && next@ == view,
            Err(message) => r matches Err(e) && e.says(message),
        },
{
    let empty = matches!(screen, Screen::Empty(_));
    match outcome {
        OpenOutcome::Failed(message) => {
            if !interactive || empty {
                return Err(CliError::Message(message));
            }
        },
        OpenOutcome::Launched => {
            return Ok(
                if empty {
                    Screen::Main
                } else {
                    screen
                },
            );
        },
        OpenOutcome::Removed => {
            return Ok(Screen::Main);
        },
        OpenOutcome::Kept => {},
    }
    match screen {
        Screen::Details(lists, _, _) => Ok(Screen::Lists(lists)),
        _ => Ok(Screen::Main),
    }
}

/// The question below a screen.
pub open spec fn prompt_text(screen: ScreenView) -> Seq<char> {
    match screen {
        ScreenView::Main => "Choose 1=files, 2=folders, 3=categories, or q=exit: "@,
        ScreenView::Folders => "Folder number to drill into, b=back, or q=exit: "@,
        ScreenView::Categories => "Category number to show cached files, b=back, or q=exit: "@,
        ScreenView::Lists(lists) => detail_prompt_text(
            lists.files.len() == 0,
            lists.folders.len() == 0,
        ),
        ScreenView::Number(_, kind) => "Which "@ + target_label(kind)
            + " do you want details for? "@,
        ScreenView::Details(_, _, _) => "Choose 1=open, 2=back, or q=exit: "@,
        ScreenView::Empty(_) => "Open this folder in Explorer? [y/N]: "@,
    }
}

/// The question below a screen.
pub fn screen_prompt(screen: &Screen) -> (r: String)
    ensures
        r@ == prompt_text(screen@),
{
    match screen {
        Screen::Main => "Choose 1=files, 2=folders, 3=categories, or q=exit: ".to_owned(),
        Screen::Folders => "Folder number to drill into, b=back, or q=exit: ".to_owned(),
        Screen::Categories => "Category number to show cached files, b=back, or q=exit: ".to_owned(),
        Screen::Lists(lists) => print_detail_menu_prompt(
            lists.files.len() == 0,
            lists.folders.len() == 0,
        ).to_owned(),
        Screen::Number(_, kind) => "Which ".to_owned().concat(
            navigation_target_label(*kind),
        ).concat(" do you want details for? "),
        Screen::Details(_, _, _) => "Choose 1=open, 2=back, or q=exit: ".to_owned(),
        Screen::Empty(_) => "Open this folder in Explorer? [y/N]: ".to_owned(),
    }
}

/// The word `back` leads out of every list and menu, and from details to the
/// list they belong to.
pub proof fn law_back_leads_out(screen: ScreenView, snapshot: Snapshot, limit: nat)
    requires
        screen is Folders || screen is Categories || screen is Lists || screen is Details,
    ensures
        browse_step_of(screen, snapshot, limit, "back"@) == Ok::<StepView, Seq<char>>(
            StepView::Show(
                match screen {
                    ScreenView::Details(lists, _, _) => ScreenView::Lists(lists),
                    _ => ScreenView::Main,
                },
            ),
        ),
{
    reveal_strlit("back");
    reveal_strlit("1");
    reveal_strlit("open");
    reveal_strlit("q");
    reveal_strlit("exit");
    reveal_strlit("quit");
    let line = "back"@;
    assert("back"@[0] == 'b');
    assert("back"@[3] == 'k');
    assert("open"@[0] == 'o');
    assert("exit"@[0] == 'e');
    assert("quit"@[0] == 'q');
    assert(trim(line) == line) by {
        let white = |c: char| is_white(c);
        assert(trim_front(line, white) == line);
        assert(trim_back(line, white) == line);
    }
    assert("back"@[1] == 'a' && "back"@[2] == 'c');
    assert(lower(line) =~= line);
    assert(choice_of(line) == "back"@);
}

// ---------------------------------------------------------------------------
// Screens as text
// ---------------------------------------------------------------------------

/// Lists of entries as text.
pub open spec fn lists_text(lists: ListsView, limit: nat, columns: Option<Seq<char>>) -> Seq<
    Seq<char>,
> {
    let title = seq![lists.title];
    let files = if lists.files.len() == 0 {
        Seq::empty()
    } else {
        seq!["Files:"@] + entries_table(lists.files, NavigationTarget::File, limit, columns)
    };
    let folders = if lists.folders.len() == 0 {
        Seq::empty()
    } else {
        seq!["Folders:"@] + entries_table(lists.folders, NavigationTarget::Folder, limit, columns)
    };
    let nothing = if lists.files.len() == 0 && lists.folders.len() == 0 {
        seq!["No cached entries."@]
    } else {
        Seq::empty()
    };
    title + files + folders + nothing
}

/// A screen as text; `found` says of an entry whether it is there.
pub open spec fn screen_text(
    screen: ScreenView,
    snapshot: Snapshot,
    limit: nat,
    columns: Option<Seq<char>>,
    found: bool,
) -> Seq<Seq<char>> {
    match screen {
        ScreenView::Main => main_menu(snapshot),
        ScreenView::Folders => folders_view(snapshot, limit, columns)
            + if snapshot.largest_folders@.len() == 0 {
            Seq::empty()
        } else {
            folder_choices(snapshot, limit)
        },
        ScreenView::Categories => summary_head(snapshot) + summary_table(snapshot, limit, columns)
            + if snapshot.categories@.len() == 0 {
            Seq::empty()
        } else {
            category_choices(snapshot, limit)
        },
        ScreenView::Lists(lists) => lists_text(lists, limit, columns),
        ScreenView::Number(_, _) => Seq::empty(),
        ScreenView::Details(_, entry, kind) => entry_details(entry, kind, found),
        ScreenView::Empty(_) => seq![
            "No cached entries under this folder."@,
            "This can happen when the folder is large but its individual files are below the retained top-N list."@,
        ],
    }
}

fn lists_lines(lists: &EntryLists, limit: usize, columns: Option<&str>) -> (r: Vec<String>)
    ensures
        texts(r@) == lists_text(lists@, limit as nat, opt_str(columns)),
{
    let mut out: Vec<String> = Vec::new();
    push_text(&mut out, lists.title.clone());
    let ghost title = seq![lists.title@];
    assert(texts(out@) =~= title);
    if lists.files.len() > 0 {
        push_text(&mut out, "Files:".to_owned());
        print_entry_refs(&mut out, &lists.files, NavigationTarget::File, limit, columns);
    }
    if lists.folders.len() > 0 {
        push_text(&mut out, "Folders:".to_owned());
        print_entry_refs(&mut out, &lists.folders, NavigationTarget::Folder, limit, columns);
    }
    if lists.files.len() == 0 && lists.folders.len() == 0 {
        push_text(&mut out, "No cached entries.".to_owned());
    }
    assert(texts(out@) =~= lists_text(lists@, limit as nat, opt_str(columns)));
    out
}

/// The lines of a screen.
pub fn screen_lines(
    screen: &Screen,
    snapshot: &Snapshot,
    limit: usize,
    columns: Option<&str>,
    found: bool,
) -> (r: Vec<String>)
    ensures
        texts(r@) == screen_text(screen@, *snapshot, limit as nat, opt_str(columns), found),
{
    match screen {
        Screen::Main => main_menu_lines(snapshot),
        Screen::Folders => {
            let mut out = print_folders(snapshot, limit, columns);
            let ghost start = texts(out@);
            if snapshot.largest_folders.len() > 0 {
                let mut more = folder_choice_lines(snapshot, limit);
                let ghost rest = texts(more@);
                out.append(&mut more);
                assert(texts(out@) =~= start + rest);
            }
            assert(texts(out@) =~= screen_text(
                screen@,
                *snapshot,
                limit as nat,
                opt_str(columns),
                found,
            ));
            out
        },
        Screen::Categories => {
            let mut out = print_summary(snapshot, limit, columns);
            let ghost start = texts(out@);
            if snapshot.categories.len() > 0 {
                let mut more = category_choice_lines(snapshot, limit);
                let ghost rest = texts(more@);
                out.append(&mut more);
                assert(texts(out@) =~= start + rest);
            }
            assert(texts(out@) =~= screen_text(
                screen@,
                *snapshot,
                limit as nat,
                opt_str(columns),
                found,
            ));
            out
        },
        Screen::Lists(lists) => lists_lines(lists, limit, columns),
        Screen::Number(_, _) => {
            let out: Vec<String> = Vec::new();
            assert(texts(out@) =~= Seq::<Seq<char>>::empty());
            out
        },
        Screen::Details(_, entry, kind) => print_entry_details(entry, *kind, found),
        Screen::Empty(_) => {
            let mut out: Vec<String> = Vec::new();
            push_text(&mut out, "No cached entries under this folder.".to_owned());
            push_text(
                &mut out,
                "This can happen when the folder is large but its individual files are below the retained top-N list.".to_owned(),
            );
            assert(texts(out@) =~= screen_text(
                screen@,
                *snapshot,
                limit as nat,
                opt_str(columns),
                found,
            ));
            out
        },
    }
}

} // verus!
