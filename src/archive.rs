//! Reading comic archives held in memory: the names of their members and
//! the bytes of one member.
use vstd::prelude::*;

use crate::collection::views;
use crate::nav::Failure;

verus! {

#[verifier::external_type_specification]
#[verifier::external_body]
pub struct ExZipError(zip::result::ZipError);

/// What `zip::ZipArchive` lists for an archive: its member names in the
/// order of its central directory, or `None` where the bytes are no
/// readable archive.
pub uninterp spec fn zip_member_names(archive: Seq<u8>) -> Option<Seq<Seq<char>>>;

/// What `zip::ZipArchive` extracts for the member of the given name, or
/// `None` where the archive or the member cannot be read.
pub uninterp spec fn zip_member_bytes(archive: Seq<u8>, name: Seq<char>) -> Option<Seq<u8>>;

/// Relies on `zip::ZipArchive::new` and `ZipArchive::file_names`: the member
/// names of the archive in `archive`, which depend on those bytes alone.
#[verifier::external_body]
fn zip_names(archive: &[u8]) -> (r: Result<Vec<String>, zip::result::ZipError>)
    ensures
        r matches Ok(v) ==> zip_member_names(archive@) == Some(views(v@)),
        r is Err ==> zip_member_names(archive@) is None,
{
    let archive = zip::ZipArchive::new(std::io::Cursor::new(archive))?;
    Ok(archive.file_names().map(String::from).collect())
}

/// Relies on `zip::ZipArchive::new`, `ZipArchive::by_name` and reading the
/// member to its end: the member's uncompressed bytes, which depend on the
/// archive's bytes and the name alone.
#[verifier::external_body]
fn zip_member(archive: &[u8], name: &str) -> (r: Result<Vec<u8>, zip::result::ZipError>)
    ensures
        r matches Ok(v) ==> zip_member_bytes(archive@, name@) == Some(v@),
        r is Err ==> zip_member_bytes(archive@, name@) is None,
{
    let mut archive = zip::ZipArchive::new(std::io::Cursor::new(archive))?;
    let mut member = archive.by_name(name)?;
    let mut out = Vec::new();
    std::io::Read::read_to_end(&mut member, &mut out)?;
    Ok(out)
}

/// The member names of an archive, or `Unreadable`.
pub fn archive_members(archive: &[u8]) -> (r: Result<Vec<String>, Failure>)
    ensures
        match zip_member_names(archive@) {
            Some(names) => r matches Ok(v) && views(v@) == names,
            None => r == Err::<Vec<String>, Failure>(Failure::Unreadable),
        },
{
    match zip_names(archive) {
        Ok(v) => Ok(v),
        Err(_) => Err(Failure::Unreadable),
    }
}

/// The bytes of the member `name` of an archive, or `Unreadable`.
pub fn member_bytes(archive: &[u8], name: &str) -> (r: Result<Vec<u8>, Failure>)
    ensures
        match zip_member_bytes(archive@, name@) {
            Some(bytes) => r matches Ok(v) && v@ == bytes,
            None => r == Err::<Vec<u8>, Failure>(Failure::Unreadable),
        },
{
    match zip_member(archive, name) {
        Ok(v) => Ok(v),
        Err(_) => Err(Failure::Unreadable),
    }
}

} // verus!
