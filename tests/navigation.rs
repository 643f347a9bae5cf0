use manga_reader::collection::ListedFile;
use manga_reader::nav::{Failure, Navigator, Notice, Step};

fn files(names: &[&str]) -> Vec<ListedFile> {
    names
        .iter()
        .map(|n| ListedFile { name: n.to_string(), is_file: true, attributes: 0 })
        .collect()
}

fn strings(names: &[&str]) -> Vec<String> {
    names.iter().map(|s| s.to_string()).collect()
}

#[test]
fn open_directory_end_to_end() {
    let mut nav = Navigator::new();
    let step = nav.open_directory(&files(&["img1.png", "img2.png", "img10.png", "IMG3.PNG"]));
    assert_eq!(nav.entries, strings(&["img1.png", "img2.png", "IMG3.PNG", "img10.png"]));
    assert_eq!(step, Step::Show(0));
    assert_eq!(nav.index, 0);
    assert_eq!(nav.notice, Some(Notice::OpenedDirectory));
    assert_eq!(nav.next(), Step::Show(1));
    assert_eq!(nav.next(), Step::Show(2));
    assert_eq!(nav.next(), Step::Show(3));
    assert_eq!(nav.index, 3);
    assert_eq!(nav.current().map(|s| s.as_str()), Some("img10.png"));
    assert_eq!(nav.next(), Step::Stay);
    assert_eq!(nav.index, 3);
    assert!(!nav.alert);
}

#[test]
fn open_directory_without_images() {
    let mut nav = Navigator::new();
    let step = nav.open_directory(&files(&["notes.txt", "readme.md"]));
    assert_eq!(step, Step::Stay);
    assert!(nav.entries.is_empty());
    assert_eq!(nav.notice, Some(Notice::NoImagesInDirectory));
    assert_eq!(nav.current(), None);
    assert_eq!(nav.next(), Step::Stay);
    assert_eq!(nav.previous(), Step::Stay);
    assert_eq!(nav.first(), Step::Stay);
    assert_eq!(nav.last(), Step::Stay);
}

#[test]
fn next_in_directory_never_passes_the_end() {
    let mut nav = Navigator::new();
    nav.open_directory(&files(&["a.png", "b.png", "c.png"]));
    for _ in 0..10 {
        nav.next();
        assert!(nav.index <= 2);
    }
    assert_eq!(nav.index, 2);
    assert!(!nav.alert);
}

#[test]
fn previous_wraps_to_last() {
    let mut nav = Navigator::new();
    nav.open_directory(&files(&["a.png", "b.png", "c.png"]));
    assert_eq!(nav.previous(), Step::Show(2));
    assert_eq!(nav.index, 2);
    assert_eq!(nav.previous(), Step::Show(1));
}

#[test]
fn first_and_last_jump() {
    let mut nav = Navigator::new();
    nav.open_directory(&files(&["a.png", "b.png", "c.png"]));
    assert_eq!(nav.last(), Step::Show(2));
    assert_eq!(nav.first(), Step::Show(0));
}

#[test]
fn open_image_finds_its_position() {
    let mut nav = Navigator::new();
    nav.open_image(&files(&["page3.jpg", "page1.jpg", "page2.jpg"]), "page2.jpg");
    assert_eq!(nav.index, 1);
    assert_eq!(nav.notice, Some(Notice::OpenedImage));
    nav.open_image(&files(&["page3.jpg", "page1.jpg"]), "gone.jpg");
    assert_eq!(nav.index, 0);
}

#[test]
fn two_archives_chain() {
    let mut nav = Navigator::new();
    let siblings = files(&["vol2.cbz", "vol1.cbz", "cover.jpg"]);
    let step = nav.open_archive(&siblings, "vol1.cbz", &strings(&["page1.png", "page3.png", "page2.png"]));
    assert_eq!(step, Step::Show(0));
    assert_eq!(nav.archives, strings(&["vol1.cbz", "vol2.cbz"]));
    assert_eq!(nav.archive_index, 0);
    assert_eq!(nav.next(), Step::Show(1));
    assert_eq!(nav.next(), Step::Show(2));
    assert_eq!(nav.next(), Step::Stay);
    assert!(nav.alert);
    assert_eq!(nav.notice, Some(Notice::LastImage));
    assert_eq!(nav.index, 2);
    let step = nav.next();
    assert_eq!(step, Step::OpenArchive(1));
    assert!(!nav.alert);
    let step = nav.enter_archive(1, &strings(&["a.png", "b.png"]));
    assert_eq!(step, Step::Show(0));
    assert_eq!(nav.index, 0);
    assert_eq!(nav.entries.len(), 2);
    assert_eq!(nav.archive_index, 1);
    assert_eq!(nav.notice, Some(Notice::LoadedNextArchive));
}

#[test]
fn last_archive_has_no_successor() {
    let mut nav = Navigator::new();
    nav.open_archive(&files(&["vol1.cbz", "vol2.cbz"]), "vol2.cbz", &strings(&["a.png", "b.png"]));
    assert_eq!(nav.archive_index, 1);
    nav.next();
    assert_eq!(nav.next(), Step::Stay);
    assert!(nav.alert);
    assert_eq!(nav.next(), Step::Stay);
    assert!(!nav.alert);
    assert_eq!(nav.notice, Some(Notice::NoMoreArchives));
    assert_eq!(nav.index, 1);
    assert_eq!(nav.entries, strings(&["a.png", "b.png"]));
}

#[test]
fn previous_clears_alert() {
    let mut nav = Navigator::new();
    nav.open_archive(&files(&["vol1.cbz"]), "vol1.cbz", &strings(&["a.png"]));
    assert_eq!(nav.next(), Step::Stay);
    assert!(nav.alert);
    assert_eq!(nav.previous(), Step::Show(0));
    assert!(!nav.alert);
    nav.next();
    nav.dismiss_alert();
    assert!(!nav.alert);
}

#[test]
fn delete_in_directory() {
    let mut nav = Navigator::new();
    nav.open_directory(&files(&["a.png", "b.png", "c.png"]));
    nav.last();
    nav.request_delete();
    assert_eq!(nav.pending_delete, Some(2));
    assert_eq!(nav.confirm_delete(), Step::Remove(2));
    assert_eq!(nav.finish_delete(true), Step::Show(1));
    assert_eq!(nav.entries, strings(&["a.png", "b.png"]));
    assert_eq!(nav.index, 1);
    assert_eq!(nav.pending_delete, None);
    assert_eq!(nav.notice, Some(Notice::Deleted));
    nav.first();
    nav.request_delete();
    assert_eq!(nav.confirm_delete(), Step::Remove(0));
    assert_eq!(nav.finish_delete(true), Step::Show(0));
    assert_eq!(nav.entries, strings(&["b.png"]));
    nav.request_delete();
    nav.confirm_delete();
    assert_eq!(nav.finish_delete(true), Step::Stay);
    assert!(nav.entries.is_empty());
    assert_eq!(nav.notice, Some(Notice::NoMoreImages));
}

#[test]
fn failed_delete_keeps_collection() {
    let mut nav = Navigator::new();
    nav.open_directory(&files(&["a.png", "b.png"]));
    nav.request_delete();
    assert_eq!(nav.confirm_delete(), Step::Remove(0));
    assert_eq!(nav.finish_delete(false), Step::Stay);
    assert_eq!(nav.entries.len(), 2);
    assert_eq!(nav.pending_delete, None);
    assert_eq!(nav.notice, Some(Notice::Failed(Failure::DeleteFailed)));
}

#[test]
fn cancelled_delete_does_nothing() {
    let mut nav = Navigator::new();
    nav.open_directory(&files(&["a.png", "b.png"]));
    nav.request_delete();
    nav.cancel_delete();
    assert_eq!(nav.confirm_delete(), Step::Stay);
    assert_eq!(nav.entries.len(), 2);
}

#[test]
fn delete_in_archive_is_refused() {
    let mut nav = Navigator::new();
    nav.open_archive(&files(&["vol1.cbz"]), "vol1.cbz", &strings(&["a.png", "b.png"]));
    nav.request_delete();
    assert_eq!(nav.confirm_delete(), Step::Stay);
    assert_eq!(nav.pending_delete, None);
    assert_eq!(nav.entries.len(), 2);
    assert_eq!(nav.notice, Some(Notice::Failed(Failure::ArchiveEntryUndeletable)));
}

#[test]
fn notices_have_durations() {
    assert_eq!(Notice::LastImage.seconds(), 3);
    assert_eq!(Notice::Failed(Failure::NotFound).seconds(), 5);
    let mut nav = Navigator::new();
    nav.report(Failure::Unreadable);
    assert_eq!(nav.notice, Some(Notice::Failed(Failure::Unreadable)));
}

#[test]
fn archive_outside_chain_starts_at_first_position() {
    let mut nav = Navigator::new();
    let step = nav.open_archive(&files(&["vol1.cbz", "vol2.cbz"]), "other.cbz", &strings(&["b.png", "a.txt"]));
    assert_eq!(step, Step::Show(0));
    assert_eq!(nav.archive_index, 0);
    assert_eq!(nav.entries, strings(&["b.png"]));
    assert_eq!(nav.enter_archive(5, &strings(&["x.png"])), Step::Stay);
    assert_eq!(nav.entries, strings(&["b.png"]));
}

#[test]
fn archive_without_images() {
    let mut nav = Navigator::new();
    let step = nav.open_archive(&files(&["vol1.cbz"]), "vol1.cbz", &strings(&["readme.txt"]));
    assert_eq!(step, Step::Stay);
    assert!(nav.entries.is_empty());
    assert_eq!(nav.notice, Some(Notice::NoImagesInArchive));
}
