//! Zip archives in memory.
use vstd::prelude::*;
use vstd::utf8::*;
use std::io::Cursor;
use std::io::Read;
use std::io::Write;

verus! {

/// `zip::ZipArchive`, an archive opened for reading.
#[verifier::external_type_specification]
#[verifier::external_body]
#[verifier::reject_recursive_types(R)]
pub struct ExZipArchive<R>(zip::ZipArchive<R>);

/// `std::io::Cursor`, bytes with a position.
#[verifier::external_type_specification]
#[verifier::external_body]
#[verifier::reject_recursive_types(T)]
pub struct ExCursor<T>(std::io::Cursor<T>);

/// What the directory of an archive says of a member.
#[derive(Debug)]
pub struct MemberHeader {
    /// A file, neither a directory nor a symbolic link.
    pub is_file: bool,
    /// The name in the archive.
    pub name: String,
    /// The last component of the path; nothing where the path would leave the archive's root.
    pub base: Option<String>,
    /// The uncompressed size in bytes.
    pub size: u64,
}

/// What the directory of an archive says of a member.
#[verifier::ext_equal]
pub struct HeaderView {
    pub is_file: bool,
    pub name: Seq<char>,
    pub base: Option<Seq<char>>,
    pub size: u64,
}

impl View for MemberHeader {
    type V = HeaderView;

    open spec fn view(&self) -> HeaderView {
        HeaderView {
            is_file: self.is_file,
            name: self.name@,
            base: match self.base {
                Some(base) => Some(base@),
                None => None,
            },
            size: self.size,
        }
    }
}

/// A member: what opening it gives, and what reading it gives; each an error text where it fails.
pub struct MemberView {
    pub header: Result<HeaderView, Seq<char>>,
    pub data: Result<Seq<u8>, Seq<char>>,
}

/// What `zip::ZipArchive::new` finds in a byte string: the members, or the text of the error.
pub uninterp spec fn zip_members(bytes: Seq<u8>) -> Result<Seq<MemberView>, Seq<char>>;

/// The members of an opened archive, in the order of its directory.
pub uninterp spec fn archive_members(archive: zip::ZipArchive<std::io::Cursor<Vec<u8>>>) -> Seq<
    MemberView,
>;

/// Opens an archive with `zip::ZipArchive::new`; the bytes determine the members or the error.
#[verifier::external_body]
pub(crate) fn open_archive(bytes: &[u8]) -> (r: Result<
    zip::ZipArchive<std::io::Cursor<Vec<u8>>>,
    String,
>)
    ensures
        match r {
            Ok(archive) => zip_members(bytes@) == Result::<Seq<MemberView>, Seq<char>>::Ok(
                archive_members(archive),
            ),
            Err(msg) => zip_members(bytes@) == Result::<Seq<MemberView>, Seq<char>>::Err(msg@),
        },
{
    zip::ZipArchive::new(Cursor::new(bytes.to_vec())).map_err(|e| e.to_string())
}

/// The number of members, by `zip::ZipArchive::len`.
#[verifier::external_body]
pub(crate) fn archive_len(archive: &zip::ZipArchive<std::io::Cursor<Vec<u8>>>) -> (n: usize)
    ensures
        n == archive_members(*archive).len(),
{
    archive.len()
}

/// Opens a member with `zip::ZipArchive::by_index` and reads `is_file`, `name`, `size` and the
/// file name of `enclosed_name`; the archive stays as it was.
#[verifier::external_body]
pub(crate) fn member_header(
    archive: &mut zip::ZipArchive<std::io::Cursor<Vec<u8>>>,
    i: usize,
) -> (r: Result<MemberHeader, String>)
    requires
        i < archive_members(*old(archive)).len(),
    ensures
        archive_members(*final(archive)) == archive_members(*old(archive)),
        match r {
            Ok(h) => archive_members(*old(archive))[i as int].header == Result::<
                HeaderView,
                Seq<char>,
            >::Ok(h@),
            Err(msg) => archive_members(*old(archive))[i as int].header == Result::<
                HeaderView,
                Seq<char>,
            >::Err(msg@),
        },
{
    let file = archive.by_index(i).map_err(|e| e.to_string())?;
    let base = file.enclosed_name().map(
        |p| p.file_name().and_then(|n| n.to_str()).unwrap_or_default().to_string(),
    );
    Ok(MemberHeader { is_file: file.is_file(), name: file.name().to_string(), base, size: file.size() })
}

/// Opens a member with `zip::ZipArchive::by_index` and reads it to its end; the archive stays as
/// it was.
#[verifier::external_body]
pub(crate) fn member_data(
    archive: &mut zip::ZipArchive<std::io::Cursor<Vec<u8>>>,
    i: usize,
) -> (r: Result<Vec<u8>, String>)
    requires
        i < archive_members(*old(archive)).len(),
    ensures
        archive_members(*final(archive)) == archive_members(*old(archive)),
        match r {
            Ok(data) => archive_members(*old(archive))[i as int].data == Result::<
                Seq<u8>,
                Seq<char>,
            >::Ok(data@),
            Err(msg) => archive_members(*old(archive))[i as int].data == Result::<
                Seq<u8>,
                Seq<char>,
            >::Err(msg@),
        },
{
    let mut data = Vec::new();
    let mut file = archive.by_index(i).map_err(|e| e.to_string())?;
    file.read_to_end(&mut data).map_err(|e| e.to_string())?;
    Ok(data)
}

/// An archive being written into memory: a `zip::ZipWriter`.
#[verifier::external_body]
pub struct ArchiveWriter {
    inner: zip::ZipWriter<std::io::Cursor<Vec<u8>>>,
}

/// The members written so far: names and contents.
pub uninterp spec fn written_members(w: ArchiveWriter) -> Seq<(Seq<char>, Seq<u8>)>;

/// A new archive, by `zip::ZipWriter::new`: nothing is written.
#[verifier::external_body]
pub(crate) fn new_archive() -> (w: ArchiveWriter)
    ensures
        written_members(w) == Seq::<(Seq<char>, Seq<u8>)>::empty(),
{
    ArchiveWriter { inner: zip::ZipWriter::new(Cursor::new(Vec::new())) }
}

/// Whether a name is that of one of the members.
pub open spec fn has_member(members: Seq<(Seq<char>, Seq<u8>)>, name: Seq<char>) -> bool {
    exists|i: int| 0 <= i < members.len() && (#[trigger] members[i]).0 == name
}

/// What `zip::ZipWriter` says where it cannot add a member behind those that are written.
pub uninterp spec fn write_fault(
    members: Seq<(Seq<char>, Seq<u8>)>,
    name: Seq<char>,
    content: Seq<u8>,
) -> Option<Seq<char>>;

/// Writes a member with `zip::ZipWriter::start_file` (deflated, otherwise the default options) and
/// `write_all`. The writer refuses a second member of the same name, names that do not fit in 16
/// bits and contents that do not fit in 32 bits. An error is handed on as its text; the members so
/// far and the new one determine whether there is one, and on which there is none is left unsaid.
#[verifier::external_body]
pub(crate) fn write_member(w: &mut ArchiveWriter, name: &str, content: &[u8]) -> (r: Result<
    (),
    String,
>)
    requires
        !has_member(written_members(*old(w)), name@),
        encode_utf8(name@).len() <= 0xffff,
        content@.len() <= 0xffff_ffff,
    ensures
        match r {
            Ok(_) => {
                &&& write_fault(written_members(*old(w)), name@, content@) is None
                &&& written_members(*final(w)) == written_members(*old(w)).push((name@, content@))
            },
            Err(msg) => write_fault(written_members(*old(w)), name@, content@) == Some(msg@),
        },
{
    let options = zip::write::SimpleFileOptions::default().compression_method(
        zip::CompressionMethod::Deflated,
    );
    w.inner.start_file(name, options).map_err(|e| e.to_string())?;
    w.inner.write_all(content).map_err(|e| e.to_string())
}

/// A name that is a path of one component everywhere: ASCII letters and digits with `.`, `-` and
/// `_` between them.
pub open spec fn plain_name(name: Seq<char>) -> bool {
    &&& name.len() > 0
    &&& plain_char(name[0])
    &&& forall|i: int|
        0 <= i < name.len() ==> plain_char(#[trigger] name[i]) || name[i] == '.' || name[i] == '-'
            || name[i] == '_'
}

/// An ASCII letter or digit.
pub open spec fn plain_char(c: char) -> bool {
    'a' <= c <= 'z' || 'A' <= c <= 'Z' || '0' <= c <= '9'
}

/// What reading gives for a written member with a plain name.
pub open spec fn read_back(member: (Seq<char>, Seq<u8>)) -> MemberView {
    MemberView {
        header: Ok(
            HeaderView {
                is_file: true,
                name: member.0,
                base: Some(member.0),
                size: member.1.len() as u64,
            },
        ),
        data: Ok(member.1),
    }
}

/// Reading the bytes gives the written members back, in order, where their names are plain.
pub open spec fn reads_back(bytes: Seq<u8>, members: Seq<(Seq<char>, Seq<u8>)>) -> bool {
    (forall|i: int| 0 <= i < members.len() ==> plain_name((#[trigger] members[i]).0))
        ==> zip_members(bytes) == Result::<Seq<MemberView>, Seq<char>>::Ok(
        Seq::new(members.len(), |i: int| read_back(members[i])),
    )
}

/// What `zip::ZipWriter::finish` says where it cannot close an archive of these members.
pub uninterp spec fn finish_fault(members: Seq<(Seq<char>, Seq<u8>)>) -> Option<Seq<char>>;

/// The bytes of the archive, by `zip::ZipWriter::finish`. Reading gives the written members back,
/// in order, where their names are plain; the bytes themselves, which hold a time, are left
/// unsaid. The members determine whether there is an error, and on which there is none is left
/// unsaid.
#[verifier::external_body]
pub(crate) fn finish_archive(w: ArchiveWriter) -> (r: Result<Vec<u8>, String>)
    ensures
        match r {
            Ok(bytes) => finish_fault(written_members(w)) is None && reads_back(
                bytes@,
                written_members(w),
            ),
            Err(msg) => finish_fault(written_members(w)) == Some(msg@),
        },
{
    w.inner.finish().map(|c| c.into_inner()).map_err(|e| e.to_string())
}

} // verus!
