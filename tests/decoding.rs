use std::io::{Cursor, Write};

use manga_reader::archive::{archive_members, member_bytes};
use manga_reader::nav::Failure;
use manga_reader::picture::{decode_as, decode_file, decode_member, format_for, load_member, PictureFormat};

fn png_bytes() -> Vec<u8> {
    let img = image::RgbaImage::from_raw(2, 1, vec![255, 0, 0, 255, 0, 0, 255, 128]).unwrap();
    let mut out = Cursor::new(Vec::new());
    img.write_to(&mut out, image::ImageFormat::Png).unwrap();
    out.into_inner()
}

fn zip_bytes(members: &[(&str, &[u8])]) -> Vec<u8> {
    let mut writer = zip::ZipWriter::new(Cursor::new(Vec::new()));
    let options = zip::write::SimpleFileOptions::default().compression_method(zip::CompressionMethod::Stored);
    for (name, data) in members {
        writer.start_file(*name, options).unwrap();
        writer.write_all(data).unwrap();
    }
    writer.finish().unwrap().into_inner()
}

#[test]
fn formats_ignore_extension_case() {
    assert_eq!(format_for("a.jpg"), Some(PictureFormat::Jpeg));
    assert_eq!(format_for("a.jpeg"), Some(PictureFormat::Jpeg));
    assert_eq!(format_for("a.png"), Some(PictureFormat::Png));
    assert_eq!(format_for("a.webp"), Some(PictureFormat::WebP));
    assert_eq!(format_for("a.gif"), Some(PictureFormat::Gif));
    assert_eq!(format_for("a.PNG"), Some(PictureFormat::Png));
    assert_eq!(format_for("a.JpEg"), Some(PictureFormat::Jpeg));
    assert_eq!(format_for("a.bmp"), None);
    assert_eq!(format_for("a"), None);
}

#[test]
fn png_decodes_to_rgba() {
    let bytes = png_bytes();
    let p = decode_file(&bytes).unwrap();
    assert_eq!((p.width, p.height), (2, 1));
    assert_eq!(p.rgba, vec![255, 0, 0, 255, 0, 0, 255, 128]);
    let q = decode_as(&bytes, PictureFormat::Png).unwrap();
    assert_eq!(q.rgba, p.rgba);
}

#[test]
fn garbage_does_not_decode() {
    assert!(matches!(decode_file(b"not an image"), Err(Failure::DecodeFailed)));
    assert!(matches!(decode_as(&png_bytes(), PictureFormat::Gif), Err(Failure::DecodeFailed)));
}

#[test]
fn member_format_comes_from_its_name() {
    let bytes = png_bytes();
    assert_eq!(decode_member("page1.PNG", &bytes).unwrap().width, 2);
    assert!(matches!(decode_member("page1.txt", &bytes), Err(Failure::UnsupportedFormat)));
    assert_eq!(decode_member("page1.png", &bytes).unwrap().width, 2);
}

#[test]
fn archive_members_are_listed_in_order() {
    let png = png_bytes();
    let archive = zip_bytes(&[("page10.png", &png), ("notes.txt", b"hi"), ("page2.png", &png)]);
    let names = archive_members(&archive).unwrap();
    assert_eq!(names, vec!["page10.png".to_string(), "notes.txt".to_string(), "page2.png".to_string()]);
    assert_eq!(member_bytes(&archive, "notes.txt").unwrap(), b"hi".to_vec());
    assert!(matches!(member_bytes(&archive, "absent.png"), Err(Failure::Unreadable)));
}

#[test]
fn non_archive_is_unreadable() {
    assert!(matches!(archive_members(b"plain bytes"), Err(Failure::Unreadable)));
}

#[test]
fn archive_member_loads_as_picture() {
    let png = png_bytes();
    let archive = zip_bytes(&[("page1.png", &png), ("page2.PNG", &png), ("notes.txt", b"hi")]);
    let p = load_member(&archive, "page1.png").unwrap();
    assert_eq!((p.width, p.height), (2, 1));
    assert_eq!(load_member(&archive, "page2.PNG").unwrap().width, 2);
    assert!(matches!(load_member(&archive, "page3.png"), Err(Failure::Unreadable)));
    assert!(matches!(load_member(&archive, "notes.txt"), Err(Failure::UnsupportedFormat)));
}
