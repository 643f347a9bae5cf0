use std::cmp::Ordering;

use manga_reader::collection::{archive_files, image_entries, image_files, sort_names, ListedFile};
use manga_reader::names::{extension, is_archive_file, is_image_file};
use manga_reader::natural::natural_sort;

fn strings(names: &[&str]) -> Vec<String> {
    names.iter().map(|s| s.to_string()).collect()
}

fn file(name: &str) -> ListedFile {
    ListedFile { name: name.to_string(), is_file: true, attributes: 0 }
}

#[test]
fn digit_runs_compare_by_value() {
    assert_eq!(natural_sort("page2", "page10"), Ordering::Less);
    assert_eq!(natural_sort("page10", "page2"), Ordering::Greater);
    assert_eq!(natural_sort("page02", "page2"), Ordering::Equal);
    assert_eq!(natural_sort("page002", "page10"), Ordering::Less);
}

#[test]
fn letters_compare_without_case() {
    assert_eq!(natural_sort("B.png", "b.png"), Ordering::Equal);
    assert_eq!(natural_sort("IMG3.PNG", "img10.png"), Ordering::Less);
    assert_eq!(natural_sort("Ä.png", "ä.png"), Ordering::Equal);
    assert_eq!(natural_sort("abc", "abd"), Ordering::Less);
}

#[test]
fn shorter_prefix_sorts_first() {
    assert_eq!(natural_sort("", ""), Ordering::Equal);
    assert_eq!(natural_sort("", "a"), Ordering::Less);
    assert_eq!(natural_sort("page", "page1"), Ordering::Less);
    assert_eq!(natural_sort("page1", "page"), Ordering::Greater);
}

#[test]
fn overlong_digit_run_counts_as_zero() {
    // 20 digits: beyond 64 bits
    assert_eq!(natural_sort("a99999999999999999999", "a0"), Ordering::Equal);
    assert_eq!(natural_sort("a99999999999999999999", "a1"), Ordering::Less);
    assert_eq!(natural_sort("a18446744073709551615", "a18446744073709551614"), Ordering::Greater);
}

#[test]
fn digit_against_letter_compares_characters() {
    assert_eq!(natural_sort("1", "a"), Ordering::Less);
    assert_eq!(natural_sort("a1", "a_"), Ordering::Less);
    assert_eq!(natural_sort("x-1", "x1"), Ordering::Less);
}

#[test]
fn comparator_is_a_total_order_on_samples() {
    let names = ["img1.png", "IMG1.png", "img01.png", "img10.png", "img2.png", "a", "A1", "a10b", "a10a", "", "z9", "Z09x"];
    for a in names {
        assert_eq!(natural_sort(a, a), Ordering::Equal);
        for b in names {
            assert_eq!(natural_sort(b, a), natural_sort(a, b).reverse());
            for c in names {
                if natural_sort(a, b) != Ordering::Greater && natural_sort(b, c) != Ordering::Greater {
                    assert_ne!(natural_sort(a, c), Ordering::Greater);
                }
            }
        }
    }
}

#[test]
fn sorting_twice_changes_nothing() {
    let names = strings(&["img10.png", "b.png", "img2.png", "B.png", "img1.png", "IMG3.PNG"]);
    let once = sort_names(&names);
    assert_eq!(once, strings(&["b.png", "B.png", "img1.png", "img2.png", "IMG3.PNG", "img10.png"]));
    let twice = sort_names(&once);
    assert_eq!(twice, once);
}

#[test]
fn sort_keeps_equal_names_in_order() {
    let names = strings(&["x02", "X2", "x2"]);
    assert_eq!(sort_names(&names), names);
    assert_eq!(sort_names(&Vec::new()), Vec::<String>::new());
}

#[test]
fn extensions_are_found() {
    assert_eq!(extension("archive.tar.gz"), Some("gz"));
    assert_eq!(extension("dir.d/page"), None);
    assert_eq!(extension(".png"), None);
    assert_eq!(extension("a."), Some(""));
    assert_eq!(extension("chapter/01.JPG"), Some("JPG"));
}

#[test]
fn image_and_archive_names() {
    assert!(is_image_file("x.PNG"));
    assert!(is_image_file("a/b.jpeg"));
    assert!(is_image_file("c.WebP"));
    assert!(is_image_file("d.gif"));
    assert!(is_image_file("e.jpg"));
    assert!(!is_image_file(".png"));
    assert!(!is_image_file("x.txt"));
    assert!(!is_image_file("png"));
    assert!(is_archive_file("vol1.CBZ"));
    assert!(is_archive_file("vol2.zip"));
    assert!(!is_archive_file("vol3.rar"));
}

#[test]
fn directory_listing_keeps_visible_images() {
    let listing = vec![
        file("img10.png"),
        file("notes.txt"),
        ListedFile { name: "hidden.png".to_string(), is_file: true, attributes: 2 },
        ListedFile { name: "system.png".to_string(), is_file: true, attributes: 4 },
        ListedFile { name: "sub.png".to_string(), is_file: false, attributes: 0 },
        ListedFile { name: "archived.png".to_string(), is_file: true, attributes: 32 },
        file("img2.png"),
    ];
    assert_eq!(image_files(&listing), strings(&["archived.png", "img2.png", "img10.png"]));
}

#[test]
fn archives_beside_are_listed_in_order() {
    let listing = vec![file("vol10.cbz"), file("vol2.zip"), file("cover.png"), file("vol1.CBZ")];
    assert_eq!(archive_files(&listing), strings(&["vol1.CBZ", "vol2.zip", "vol10.cbz"]));
}

#[test]
fn archive_members_keep_images() {
    let members = strings(&["ch1/page10.jpg", "ch1/", "ch1/page2.jpg", "info.txt", "ch1/page1.JPEG"]);
    assert_eq!(image_entries(&members), strings(&["ch1/page1.JPEG", "ch1/page2.jpg", "ch1/page10.jpg"]));
}

#[test]
fn unequal_runs_decide_after_common_start() {
    assert_eq!(natural_sort("vol 7x", "vol 12a"), Ordering::Less);
    assert_eq!(natural_sort("ch-300.png", "ch-21zzz"), Ordering::Greater);
    assert_eq!(natural_sort("9", "10"), Ordering::Less);
}

#[test]
fn leading_zeros_compare_equal() {
    assert_eq!(natural_sort("img007.png", "img7.png"), Ordering::Equal);
    assert_eq!(natural_sort("img7.png", "img0007.png"), Ordering::Equal);
    assert_eq!(natural_sort("007", "7"), Ordering::Equal);
}

#[test]
fn ascii_case_changes_keep_every_result() {
    let names = ["Page2.png", "page10.PNG", "COVER.jpg", "a1b", "A1B2", "x"];
    for a in names {
        for b in names {
            assert_eq!(natural_sort(&a.to_ascii_uppercase(), &b.to_ascii_lowercase()), natural_sort(a, b));
        }
    }
}

#[test]
fn sorted_names_are_ordered_pairwise() {
    let names = strings(&["z1", "a10", "A2", "a02", "b", "10", "9", "_", "a2x"]);
    let sorted = sort_names(&names);
    for i in 0..sorted.len() {
        for j in i + 1..sorted.len() {
            assert_ne!(natural_sort(&sorted[i], &sorted[j]), Ordering::Greater);
        }
    }
}
