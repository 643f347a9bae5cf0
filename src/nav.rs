//! The navigation state machine: the open collection, the cursor into it,
//! the chain of sibling archives, and the alert and deletion gates.
use vstd::prelude::*;

use crate::collection::{
    archive_files, is_visible_file, lemma_sort_permutes, image_entries, image_files, image_names, listed_archives, listed_images,
    sort_spec, views, ListedFile,
};
use crate::names::is_image_name;
use crate::text::same_text;

verus! {

/// Why an action failed.
#[derive(PartialEq, Eq, Structural, Clone, Copy, Debug)]
pub enum Failure {
    /// The path to open does not exist.
    NotFound,
    /// A directory or archive could not be listed.
    Unreadable,
    /// An image could not be decoded.
    DecodeFailed,
    /// An image's format is not one the viewer decodes.
    UnsupportedFormat,
    /// A file could not be removed.
    DeleteFailed,
    /// Entries inside an archive cannot be deleted.
    ArchiveEntryUndeletable,
}

/// A status message for the user.
#[derive(PartialEq, Eq, Structural, Clone, Copy, Debug)]
pub enum Notice {
    /// A directory was opened and holds images.
    OpenedDirectory,
    /// A directory was opened and holds no images.
    NoImagesInDirectory,
    /// A single image was opened.
    OpenedImage,
    /// An archive was opened and holds images.
    OpenedArchive,
    /// An archive was opened and holds no images.
    NoImagesInArchive,
    /// The cursor is at the last image of an archive; moving forward
    /// again opens the next archive.
    LastImage,
    /// The archive chain has no archive after the open one.
    NoMoreArchives,
    /// The next archive of the chain was opened.
    LoadedNextArchive,
    /// An image file was deleted.
    Deleted,
    /// An image file was deleted and the collection is now empty.
    NoMoreImages,
    /// An action failed.
    Failed(Failure),
}

/// Seconds a notice about a failure stays on screen.
pub const FAILURE_SECONDS: u32 = 5;

/// Seconds any other notice stays on screen.
pub const NOTICE_SECONDS: u32 = 3;

impl Notice {
    /// How long the notice is shown, in seconds.
    pub fn seconds(&self) -> (r: u32)
        ensures
            r == (if self is Failed {
                FAILURE_SECONDS
            } else {
                NOTICE_SECONDS
            }),
    {
        match self {
            Notice::Failed(_) => FAILURE_SECONDS,
            _ => NOTICE_SECONDS,
        }
    }
}

/// What the caller is to do after a transition.
#[derive(PartialEq, Eq, Structural, Clone, Copy, Debug)]
pub enum Step {
    /// Nothing to load.
    Stay,
    /// Load and show the entry at this position of the collection.
    Show(usize),
    /// Open the archive at this position of the archive chain, then hand its
    /// member names to `Navigator::enter_archive`.
    OpenArchive(usize),
    /// Remove the file of the entry at this position, then report the
    /// outcome to `Navigator::finish_delete`.
    Remove(usize),
}

/// The navigation state: what is open and where the cursor stands.
pub struct Navigator {
    /// The collection: image names in natural order. In directory mode these
    /// are file names within the open directory; in archive mode, member
    /// names within the open archive.
    pub entries: Vec<String>,
    /// The cursor into `entries`.
    pub index: usize,
    /// Whether the collection comes from an archive.
    pub in_archive: bool,
    /// The archive chain: archive file names beside the open archive, in
    /// natural order.
    pub archives: Vec<String>,
    /// Position of the open archive in the chain.
    pub archive_index: usize,
    /// Whether the last-image alert is up.
    pub alert: bool,
    /// The entry awaiting confirmation of its deletion.
    pub pending_delete: Option<usize>,
    /// The latest status message.
    pub notice: Option<Notice>,
}

/// The mathematical model of a `Navigator`.
pub struct NavState {
    pub entries: Seq<Seq<char>>,
    pub index: nat,
    pub in_archive: bool,
    pub archives: Seq<Seq<char>>,
    pub archive_index: nat,
    pub alert: bool,
    pub pending_delete: Option<nat>,
    pub notice: Option<Notice>,
}

impl View for Navigator {
    type V = NavState;

    open spec fn view(&self) -> NavState {
        NavState {
            entries: views(self.entries@),
            index: self.index as nat,
            in_archive: self.in_archive,
            archives: views(self.archives@),
            archive_index: self.archive_index as nat,
            alert: self.alert,
            pending_delete: match self.pending_delete {
                Some(i) => Some(i as nat),
                None => None,
            },
            notice: self.notice,
        }
    }
}

impl NavState {
    /// The cursor points into the collection when it is non-empty, the
    /// chain position into the chain when it is non-empty, and a pending
    /// deletion at an entry.
    pub open spec fn wf(self) -> bool {
        &&& (if self.entries.len() == 0 {
            self.index == 0
        } else {
            self.index < self.entries.len()
        })
        &&& (if self.archives.len() == 0 {
            self.archive_index == 0
        } else {
            self.archive_index < self.archives.len()
        })
        &&& (self.pending_delete matches Some(i) ==> i < self.entries.len())
    }
}

/// Position of the first `x` in `s`, if any.
pub open spec fn find(s: Seq<Seq<char>>, x: Seq<char>) -> Option<nat>
    decreases s.len(),
{
    if s.len() == 0 {
        None
    } else if s[0] == x {
        Some(0)
    } else {
        match find(s.drop_first(), x) {
            Some(i) => Some(i + 1),
            None => None,
        }
    }
}

/// `find`, with zero where `x` is absent.
pub open spec fn position_or_first(s: Seq<Seq<char>>, x: Seq<char>) -> nat {
    match find(s, x) {
        Some(i) => i,
        None => 0,
    }
}

/// The step that shows the first entry of a fresh collection, if any.
pub open spec fn show_first(entries: Seq<Seq<char>>) -> Step {
    if entries.len() > 0 {
        Step::Show(0)
    } else {
        Step::Stay
    }
}

/// Opening a directory: its images become the collection, the cursor goes
/// to the first, and the chain, alert and pending deletion are cleared.
pub open spec fn on_open_directory(listing: Seq<ListedFile>) -> (NavState, Step) {
    let entries = sort_spec(listed_images(listing));
    (
        NavState {
            entries,
            index: 0,
            in_archive: false,
            archives: Seq::empty(),
            archive_index: 0,
            alert: false,
            pending_delete: None,
            notice: Some(
                if entries.len() > 0 {
                    Notice::OpenedDirectory
                } else {
                    Notice::NoImagesInDirectory
                },
            ),
        },
        show_first(entries),
    )
}

/// Opening one image: the images of its directory become the collection
/// and the cursor goes to the image (to the first where it is not listed).
pub open spec fn on_open_image(listing: Seq<ListedFile>, name: Seq<char>) -> NavState {
    let entries = sort_spec(listed_images(listing));
    NavState {
        entries,
        index: position_or_first(entries, name),
        in_archive: false,
        archives: Seq::empty(),
        archive_index: 0,
        alert: false,
        pending_delete: None,
        notice: Some(Notice::OpenedImage),
    }
}

/// Opening an archive: its image members become the collection, the cursor
/// goes to the first, and the archives beside it become the chain.
pub open spec fn on_open_archive(
    siblings: Seq<ListedFile>,
    name: Seq<char>,
    members: Seq<Seq<char>>,
) -> (NavState, Step) {
    let entries = sort_spec(image_names(members));
    let archives = sort_spec(listed_archives(siblings));
    (
        NavState {
            entries,
            index: 0,
            in_archive: true,
            archives,
            archive_index: position_or_first(archives, name),
            alert: false,
            pending_delete: None,
            notice: Some(
                if entries.len() > 0 {
                    Notice::OpenedArchive
                } else {
                    Notice::NoImagesInArchive
                },
            ),
        },
        show_first(entries),
    )
}

/// Moving forward. At the last entry of a directory nothing happens. At the
/// last entry of an archive the first call raises the alert; the next asks
/// for the following archive of the chain, or tells that there is none.
pub open spec fn on_next(s: NavState) -> (NavState, Step) {
    let n = s.entries.len();
    if n == 0 {
        (s, Step::Stay)
    } else if s.index + 1 < n {
        (NavState { index: s.index + 1, alert: false, ..s }, Step::Show((s.index + 1) as usize))
    } else if !s.in_archive {
        (s, Step::Stay)
    } else if !s.alert {
        (NavState { alert: true, notice: Some(Notice::LastImage), ..s }, Step::Stay)
    } else if s.archive_index + 1 < s.archives.len() {
        (NavState { alert: false, ..s }, Step::OpenArchive((s.archive_index + 1) as usize))
    } else {
        (NavState { alert: false, notice: Some(Notice::NoMoreArchives), ..s }, Step::Stay)
    }
}

/// Entering the archive at chain position `position` with the given
/// members, after `on_next` asked for it.
pub open spec fn on_enter_archive(s: NavState, position: nat, members: Seq<Seq<char>>) -> (
    NavState,
    Step,
) {
    if s.in_archive && position < s.archives.len() {
        let entries = sort_spec(image_names(members));
        (
            NavState {
                entries,
                index: 0,
                archive_index: position,
                alert: false,
                pending_delete: None,
                notice: Some(Notice::LoadedNextArchive),
                ..s
            },
            show_first(entries),
        )
    } else {
        (s, Step::Stay)
    }
}

/// Moving back: clears the alert and wraps from the first entry to the last.
pub open spec fn on_previous(s: NavState) -> (NavState, Step) {
    let n = s.entries.len();
    if n == 0 {
        (s, Step::Stay)
    } else {
        let i = if s.index == 0 {
            (n - 1) as nat
        } else {
            (s.index - 1) as nat
        };
        (NavState { index: i, alert: false, ..s }, Step::Show(i as usize))
    }
}

/// Jumping to the first entry.
pub open spec fn on_first(s: NavState) -> (NavState, Step) {
    if s.entries.len() == 0 {
        (s, Step::Stay)
    } else {
        (NavState { index: 0, ..s }, Step::Show(0))
    }
}

/// Jumping to the last entry.
pub open spec fn on_last(s: NavState) -> (NavState, Step) {
    let n = s.entries.len();
    if n == 0 {
        (s, Step::Stay)
    } else {
        (NavState { index: (n - 1) as nat, ..s }, Step::Show((n - 1) as usize))
    }
}

/// Asking to delete the current entry.
pub open spec fn on_request_delete(s: NavState) -> NavState {
    if s.entries.len() == 0 {
        s
    } else {
        NavState { pending_delete: Some(s.index), ..s }
    }
}

/// Confirming the pending deletion: refused inside an archive, otherwise a
/// request to remove the entry's file.
pub open spec fn on_confirm_delete(s: NavState) -> (NavState, Step) {
    match s.pending_delete {
        None => (s, Step::Stay),
        Some(i) => if s.in_archive {
            (
                NavState {
                    pending_delete: None,
                    notice: Some(Notice::Failed(Failure::ArchiveEntryUndeletable)),
                    ..s
                },
                Step::Stay,
            )
        } else {
            (s, Step::Remove(i as usize))
        },
    }
}

/// Completing a deletion whose file removal succeeded (`removed`) or
/// failed: on success the entry leaves the collection and the cursor is
/// clamped; either way nothing stays pending.
pub open spec fn on_finish_delete(s: NavState, removed: bool) -> (NavState, Step) {
    match s.pending_delete {
        None => (s, Step::Stay),
        Some(i) => if s.in_archive {
            (s, Step::Stay)
        } else if !removed {
            (
                NavState {
                    pending_delete: None,
                    notice: Some(Notice::Failed(Failure::DeleteFailed)),
                    ..s
                },
                Step::Stay,
            )
        } else {
            let rest = s.entries.remove(i as int);
            if rest.len() == 0 {
                (
                    NavState {
                        entries: rest,
                        index: 0,
                        pending_delete: None,
                        notice: Some(Notice::NoMoreImages),
                        ..s
                    },
                    Step::Stay,
                )
            } else {
                let k = if i < rest.len() {
                    i
                } else {
                    (rest.len() - 1) as nat
                };
                (
                    NavState {
                        entries: rest,
                        index: k,
                        pending_delete: None,
                        notice: Some(Notice::Deleted),
                        ..s
                    },
                    Step::Show(k as usize),
                )
            }
        },
    }
}

/// The state before anything is opened.
pub open spec fn empty_state() -> NavState {
    NavState {
        entries: Seq::empty(),
        index: 0,
        in_archive: false,
        archives: Seq::empty(),
        archive_index: 0,
        alert: false,
        pending_delete: None,
        notice: None,
    }
}

proof fn lemma_find(s: Seq<Seq<char>>, x: Seq<char>, i: int)
    requires
        0 <= i <= s.len(),
        forall|k: int| 0 <= k < i ==> s[k] != x,
    ensures
        i < s.len() && s[i] == x ==> find(s, x) == Some(i as nat),
        i == s.len() ==> find(s, x) is None,
    decreases i,
{
    if i > 0 {
        let t = s.drop_first();
        assert forall|k: int| 0 <= k < i - 1 implies t[k] != x by {
            assert(t[k] == s[k + 1]);
        }
        lemma_find(t, x, i - 1);
        if i < s.len() {
            assert(t[i - 1] == s[i]);
        }
    }
}

/// Position of the first name in `v` equal to `x`.
fn find_name(v: &Vec<String>, x: &str) -> (r: Option<usize>)
    ensures
        r matches Some(i) ==> find(views(v@), x@) == Some(i as nat),
        r is None ==> find(views(v@), x@) is None,
{
    let mut i: usize = 0;
    while i < v.len()
        invariant
            i <= v.len(),
            forall|k: int| 0 <= k < i ==> views(v@)[k] != x@,
        decreases v.len() - i,
    {
        if same_text(v[i].as_str(), x) {
            proof {
                lemma_find(views(v@), x@, i as int);
            }
            return Some(i);
        }
        i += 1;
    }
    proof {
        lemma_find(views(v@), x@, i as int);
    }
    None
}

impl Navigator {
    /// A navigator with nothing open.
    pub fn new() -> (r: Navigator)
        ensures
            r@ == empty_state(),
            r@.wf(),
    {
        let r = Navigator {
            entries: Vec::new(),
            index: 0,
            in_archive: false,
            archives: Vec::new(),
            archive_index: 0,
            alert: false,
            pending_delete: None,
            notice: None,
        };
        assert(r@.entries =~= Seq::empty());
        assert(r@.archives =~= Seq::empty());
        r
    }

    /// The entry under the cursor, if the collection is not empty.
    pub fn current(&self) -> (r: Option<&String>)
        requires
            self@.wf(),
        ensures
            r matches Some(e) ==> self@.entries.len() > 0 && e@ == self@.entries[self@.index as int],
            r is None ==> self@.entries.len() == 0,
    {
        if self.index < self.entries.len() {
            Some(&self.entries[self.index])
        } else {
            None
        }
    }

    /// Opens a directory, given its listing.
    pub fn open_directory(&mut self, listing: &Vec<ListedFile>) -> (r: Step)
        ensures
            final(self)@ == on_open_directory(listing@).0,
            r == on_open_directory(listing@).1,
            final(self)@.wf(),
    {
        let entries = image_files(listing);
        let found = entries.len() > 0;
        self.entries = entries;
        self.index = 0;
        self.in_archive = false;
        self.archives = Vec::new();
        self.archive_index = 0;
        self.alert = false;
        self.pending_delete = None;
        self.notice = Some(
            if found {
                Notice::OpenedDirectory
            } else {
                Notice::NoImagesInDirectory
            },
        );
        assert(self@.archives =~= Seq::empty());
        if found {
            Step::Show(0)
        } else {
            Step::Stay
        }
    }

    /// Opens one image, given the listing of its directory and its name
    /// there. The caller shows the image itself.
    pub fn open_image(&mut self, listing: &Vec<ListedFile>, name: &str)
        ensures
            final(self)@ == on_open_image(listing@, name@),
            final(self)@.wf(),
    {
        let entries = image_files(listing);
        let index = match find_name(&entries, name) {
            Some(i) => i,
            None => 0,
        };
        proof {
            if find(views(entries@), name@) is Some {
                lemma_find_bound(views(entries@), name@);
            }
        }
        self.entries = entries;
        self.index = index;
        self.in_archive = false;
        self.archives = Vec::new();
        self.archive_index = 0;
        self.alert = false;
        self.pending_delete = None;
        self.notice = Some(Notice::OpenedImage);
        assert(self@.archives =~= Seq::empty());
    }

    /// Opens an archive, given the listing of the directory that holds it,
    /// its name there, and the names of its members.
    pub fn open_archive(&mut self, siblings: &Vec<ListedFile>, name: &str, members: &Vec<String>) -> (r: Step)
        ensures
            final(self)@ == on_open_archive(siblings@, name@, views(members@)).0,
            r == on_open_archive(siblings@, name@, views(members@)).1,
            final(self)@.wf(),
    {
        let entries = image_entries(members);
        let archives = archive_files(siblings);
        let position = match find_name(&archives, name) {
            Some(i) => i,
            None => 0,
        };
        proof {
            if find(views(archives@), name@) is Some {
                lemma_find_bound(views(archives@), name@);
            }
        }
        let found = entries.len() > 0;
        self.entries = entries;
        self.index = 0;
        self.in_archive = true;
        self.archives = archives;
        self.archive_index = position;
        self.alert = false;
        self.pending_delete = None;
        self.notice = Some(
            if found {
                Notice::OpenedArchive
            } else {
                Notice::NoImagesInArchive
            },
        );
        if found {
            Step::Show(0)
        } else {
            Step::Stay
        }
    }
}

impl Navigator {
    /// Moves forward (see `on_next`).
    pub fn next(&mut self) -> (r: Step)
        requires
            old(self)@.wf(),
        ensures
            final(self)@ == on_next(old(self)@).0,
            r == on_next(old(self)@).1,
            final(self)@.wf(),
    {
        let n = self.entries.len();
        if n == 0 {
            Step::Stay
        } else if self.index + 1 < n {
            self.index = self.index + 1;
            self.alert = false;
            Step::Show(self.index)
        } else if !self.in_archive {
            Step::Stay
        } else if !self.alert {
            self.alert = true;
            self.notice = Some(Notice::LastImage);
            Step::Stay
        } else if self.archives.len() > 0 && self.archive_index < self.archives.len() - 1 {
            self.alert = false;
            Step::OpenArchive(self.archive_index + 1)
        } else {
            self.alert = false;
            self.notice = Some(Notice::NoMoreArchives);
            Step::Stay
        }
    }

    /// Enters the archive at chain position `position`, given its member
    /// names, after `next` asked for it (see `on_enter_archive`).
    pub fn enter_archive(&mut self, position: usize, members: &Vec<String>) -> (r: Step)
        requires
            old(self)@.wf(),
        ensures
            final(self)@ == on_enter_archive(old(self)@, position as nat, views(members@)).0,
            r == on_enter_archive(old(self)@, position as nat, views(members@)).1,
            final(self)@.wf(),
    {
        if self.in_archive && position < self.archives.len() {
            let entries = image_entries(members);
            let found = entries.len() > 0;
            self.entries = entries;
            self.index = 0;
            self.archive_index = position;
            self.alert = false;
            self.pending_delete = None;
            self.notice = Some(Notice::LoadedNextArchive);
            if found {
                Step::Show(0)
            } else {
                Step::Stay
            }
        } else {
            Step::Stay
        }
    }

    /// Moves back, wrapping from the first entry to the last (see
    /// `on_previous`).
    pub fn previous(&mut self) -> (r: Step)
        requires
            old(self)@.wf(),
        ensures
            final(self)@ == on_previous(old(self)@).0,
            r == on_previous(old(self)@).1,
            final(self)@.wf(),
    {
        let n = self.entries.len();
        if n == 0 {
            return Step::Stay;
        }
        self.index = if self.index == 0 {
            n - 1
        } else {
            self.index - 1
        };
        self.alert = false;
        Step::Show(self.index)
    }

    /// Jumps to the first entry.
    pub fn first(&mut self) -> (r: Step)
        requires
            old(self)@.wf(),
        ensures
            final(self)@ == on_first(old(self)@).0,
            r == on_first(old(self)@).1,
            final(self)@.wf(),
    {
        if self.entries.len() == 0 {
            return Step::Stay;
        }
        self.index = 0;
        Step::Show(0)
    }

    /// Jumps to the last entry.
    pub fn last(&mut self) -> (r: Step)
        requires
            old(self)@.wf(),
        ensures
            final(self)@ == on_last(old(self)@).0,
            r == on_last(old(self)@).1,
            final(self)@.wf(),
    {
        let n = self.entries.len();
        if n == 0 {
            return Step::Stay;
        }
        self.index = n - 1;
        Step::Show(n - 1)
    }

    /// Takes down the last-image alert.
    pub fn dismiss_alert(&mut self)
        requires
            old(self)@.wf(),
        ensures
            final(self)@ == (NavState { alert: false, ..old(self)@ }),
            final(self)@.wf(),
    {
        self.alert = false;
    }

    /// Records a failure as the current notice.
    pub fn report(&mut self, failure: Failure)
        requires
            old(self)@.wf(),
        ensures
            final(self)@ == (NavState { notice: Some(Notice::Failed(failure)), ..old(self)@ }),
            final(self)@.wf(),
    {
        self.notice = Some(Notice::Failed(failure));
    }

    /// Marks the current entry for deletion, awaiting confirmation.
    pub fn request_delete(&mut self)
        requires
            old(self)@.wf(),
        ensures
            final(self)@ == on_request_delete(old(self)@),
            final(self)@.wf(),
    {
        if self.entries.len() > 0 {
            self.pending_delete = Some(self.index);
        }
    }

    /// Drops the pending deletion.
    pub fn cancel_delete(&mut self)
        requires
            old(self)@.wf(),
        ensures
            final(self)@ == (NavState { pending_delete: None, ..old(self)@ }),
            final(self)@.wf(),
    {
        self.pending_delete = None;
    }

    /// Confirms the pending deletion (see `on_confirm_delete`).
    pub fn confirm_delete(&mut self) -> (r: Step)
        requires
            old(self)@.wf(),
        ensures
            final(self)@ == on_confirm_delete(old(self)@).0,
            r == on_confirm_delete(old(self)@).1,
            final(self)@.wf(),
    {
        match self.pending_delete {
            None => Step::Stay,
            Some(i) => {
                if self.in_archive {
                    self.pending_delete = None;
                    self.notice = Some(Notice::Failed(Failure::ArchiveEntryUndeletable));
                    Step::Stay
                } else {
                    Step::Remove(i)
                }
            },
        }
    }

    /// Completes the pending deletion once the file's removal succeeded
    /// (`removed`) or failed (see `on_finish_delete`).
    pub fn finish_delete(&mut self, removed: bool) -> (r: Step)
        requires
            old(self)@.wf(),
        ensures
            final(self)@ == on_finish_delete(old(self)@, removed).0,
            r == on_finish_delete(old(self)@, removed).1,
            final(self)@.wf(),
    {
        let i = match self.pending_delete {
            None => {
                return Step::Stay;
            },
            Some(i) => i,
        };
        if self.in_archive {
            return Step::Stay;
        }
        self.pending_delete = None;
        if !removed {
            self.notice = Some(Notice::Failed(Failure::DeleteFailed));
            return Step::Stay;
        }
        let ghost before = self.entries@;
        self.entries.remove(i);
        assert(views(self.entries@) =~= views(before).remove(i as int));
        let n = self.entries.len();
        if n == 0 {
            self.index = 0;
            self.notice = Some(Notice::NoMoreImages);
            Step::Stay
        } else {
            self.index = if i < n {
                i
            } else {
                n - 1
            };
            self.notice = Some(Notice::Deleted);
            Step::Show(self.index)
        }
    }
}

proof fn lemma_find_bound(s: Seq<Seq<char>>, x: Seq<char>)
    ensures
        find(s, x) matches Some(i) ==> i < s.len(),
    decreases s.len(),
{
    if s.len() > 0 && s[0] != x {
        lemma_find_bound(s.drop_first(), x);
    }
}

proof fn lemma_no_listed_images(listing: Seq<ListedFile>)
    requires
        forall|i: int|
            0 <= i < listing.len() ==> !(is_visible_file(#[trigger] listing[i]) && is_image_name(
                listing[i].name@,
            )),
    ensures
        listed_images(listing).len() == 0,
    decreases listing.len(),
{
    if listing.len() > 0 {
        let t = listing.drop_last();
        assert forall|i: int| 0 <= i < t.len() implies !(is_visible_file(#[trigger] t[i])
            && is_image_name(t[i].name@)) by {
            assert(t[i] == listing[i]);
        }
        lemma_no_listed_images(t);
        assert(listing.last() == listing[listing.len() - 1]);
    }
}

/// Opening a directory that holds no visible image file gives an empty
/// collection and the notice that no images were found, not a failure.
pub proof fn lemma_open_directory_without_images(listing: Seq<ListedFile>)
    requires
        forall|i: int|
            0 <= i < listing.len() ==> !(is_visible_file(#[trigger] listing[i]) && is_image_name(
                listing[i].name@,
            )),
    ensures
        on_open_directory(listing).0.entries.len() == 0,
        on_open_directory(listing).0.notice == Some(Notice::NoImagesInDirectory),
        on_open_directory(listing).1 == Step::Stay,
{
    lemma_no_listed_images(listing);
}

/// The state after `k` forward moves.
pub open spec fn next_times(s: NavState, k: nat) -> NavState
    decreases k,
{
    if k == 0 {
        s
    } else {
        on_next(next_times(s, (k - 1) as nat)).0
    }
}

/// In a directory, forward moves stop at the last entry: after `k` of
/// them the cursor stands at `min(index + k, n - 1)` over the same
/// collection, and at the last entry a move changes nothing and raises no
/// alert.
pub proof fn lemma_next_in_directory(s: NavState, k: nat)
    requires
        s.wf(),
        !s.in_archive,
        s.entries.len() > 0,
    ensures
        next_times(s, k).index == if s.index + k < s.entries.len() {
            s.index + k
        } else {
            (s.entries.len() - 1) as nat
        },
        next_times(s, k).entries == s.entries,
        !next_times(s, k).in_archive,
        s.index == s.entries.len() - 1 ==> on_next(s) == (s, Step::Stay),
    decreases k,
{
    if k > 0 {
        lemma_next_in_directory(s, (k - 1) as nat);
    }
}

/// At the last entry of an archive, a first forward move raises the alert
/// and keeps the cursor; a second one asks for the next archive of the
/// chain, whose images then become the collection with the cursor at the
/// first, or, where the chain has no next archive, tells so and leaves the
/// collection and cursor as they were.
pub proof fn lemma_next_at_archive_end(s: NavState, members: Seq<Seq<char>>)
    requires
        s.wf(),
        s.in_archive,
        s.entries.len() > 0,
        s.index == s.entries.len() - 1,
        !s.alert,
    ensures
        on_next(s).1 == Step::Stay,
        on_next(s).0 == (NavState { alert: true, notice: Some(Notice::LastImage), ..s }),
        s.archive_index + 1 < s.archives.len() ==> ({
            let second = on_next(on_next(s).0);
            let entered = on_enter_archive(second.0, (s.archive_index + 1) as nat, members).0;
            &&& second.1 == Step::OpenArchive((s.archive_index + 1) as usize)
            &&& entered.entries == sort_spec(image_names(members))
            &&& entered.index == 0
            &&& entered.archive_index == s.archive_index + 1
            &&& !entered.alert
        }),
        s.archive_index + 1 >= s.archives.len() ==> on_next(on_next(s).0) == (NavState {
            notice: Some(Notice::NoMoreArchives),
            ..s
        }, Step::Stay),
{
}

/// Moving back from the first entry wraps to the last.
pub proof fn lemma_previous_wraps(s: NavState)
    requires
        s.wf(),
        s.entries.len() > 0,
        s.index == 0,
    ensures
        on_previous(s).0.index == s.entries.len() - 1,
        on_previous(s).1 == Step::Show((s.entries.len() - 1) as usize),
        !on_previous(s).0.alert,
{
}

/// In a directory, asking to delete the current entry and confirming asks
/// for that entry's file to be removed; once it is, exactly that entry
/// leaves the collection and the cursor is clamped into range.
pub proof fn lemma_delete_in_directory(s: NavState)
    requires
        s.wf(),
        !s.in_archive,
        s.entries.len() > 0,
    ensures
        ({
            let asked = on_request_delete(s);
            let confirmed = on_confirm_delete(asked);
            let done = on_finish_delete(confirmed.0, true).0;
            &&& confirmed.1 == Step::Remove(s.index as usize)
            &&& done.entries == s.entries.remove(s.index as int)
            &&& done.index == if s.index < done.entries.len() || done.entries.len() == 0 {
                s.index
            } else {
                (done.entries.len() - 1) as nat
            }
            &&& done.pending_delete is None
            &&& done.wf()
        }),
{
}

/// In an archive, confirming a deletion asks for no file to be removed: it
/// reports that archive entries cannot be deleted and changes nothing else.
pub proof fn lemma_delete_in_archive(s: NavState)
    requires
        s.wf(),
        s.in_archive,
        s.entries.len() > 0,
    ensures
        on_confirm_delete(on_request_delete(s)) == (NavState {
            pending_delete: None,
            notice: Some(Notice::Failed(Failure::ArchiveEntryUndeletable)),
            ..s
        }, Step::Stay),
{
}

proof fn lemma_listed_images_are_images(l: Seq<ListedFile>)
    ensures
        forall|i: int|
            0 <= i < listed_images(l).len() ==> is_image_name(#[trigger] listed_images(l)[i]),
    decreases l.len(),
{
    if l.len() > 0 {
        let r = listed_images(l.drop_last());
        lemma_listed_images_are_images(l.drop_last());
        assert forall|i: int| 0 <= i < listed_images(l).len() implies is_image_name(
            #[trigger] listed_images(l)[i],
        ) by {
            if i < r.len() {
                assert(listed_images(l)[i] == r[i]);
            }
        }
    }
}

proof fn lemma_image_names_are_images(s: Seq<Seq<char>>)
    ensures
        forall|i: int| 0 <= i < image_names(s).len() ==> is_image_name(#[trigger] image_names(s)[i]),
    decreases s.len(),
{
    if s.len() > 0 {
        let r = image_names(s.drop_last());
        lemma_image_names_are_images(s.drop_last());
        assert forall|i: int| 0 <= i < image_names(s).len() implies is_image_name(
            #[trigger] image_names(s)[i],
        ) by {
            if i < r.len() {
                assert(image_names(s)[i] == r[i]);
            }
        }
    }
}

proof fn lemma_sorted_images(s: Seq<Seq<char>>)
    requires
        forall|i: int| 0 <= i < s.len() ==> is_image_name(#[trigger] s[i]),
    ensures
        forall|i: int| 0 <= i < sort_spec(s).len() ==> is_image_name(#[trigger] sort_spec(s)[i]),
{
    broadcast use vstd::seq_lib::group_to_multiset_ensures;

    lemma_sort_permutes(s);
    assert forall|i: int| 0 <= i < sort_spec(s).len() implies is_image_name(
        #[trigger] sort_spec(s)[i],
    ) by {
        let x = sort_spec(s)[i];
        assert(sort_spec(s).contains(x));
        assert(sort_spec(s).to_multiset().count(x) > 0);
        assert(s.contains(x));
    }
}

/// A collection opened from a directory, an image's directory or an
/// archive holds image names only.
pub proof fn lemma_collection_holds_images(
    listing: Seq<ListedFile>,
    name: Seq<char>,
    siblings: Seq<ListedFile>,
    members: Seq<Seq<char>>,
)
    ensures
        forall|i: int|
            0 <= i < on_open_directory(listing).0.entries.len() ==> is_image_name(
                #[trigger] on_open_directory(listing).0.entries[i],
            ),
        forall|i: int|
            0 <= i < on_open_image(listing, name).entries.len() ==> is_image_name(
                #[trigger] on_open_image(listing, name).entries[i],
            ),
        forall|i: int|
            0 <= i < on_open_archive(siblings, name, members).0.entries.len() ==> is_image_name(
                #[trigger] on_open_archive(siblings, name, members).0.entries[i],
            ),
{
    lemma_listed_images_are_images(listing);
    lemma_sorted_images(listed_images(listing));
    lemma_image_names_are_images(members);
    lemma_sorted_images(image_names(members));
}

} // verus!
