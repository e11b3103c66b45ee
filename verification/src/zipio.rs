//! The container format boundary.
//!
//! The container is read and written by the `zip` crate over in-memory
//! byte buffers. Verified code sees a container only through the trusted
//! items below, whose contracts speak of one model: the ordered sequence
//! of entries a byte string parses to, each entry a triple of its decoded
//! name bytes, its uncompressed size, and its raw record (compression
//! method, CRC, sizes and compressed bytes, taken as one opaque blob).

use vstd::prelude::*;

verus! {

/// One entry of a container, as a mathematical value: decoded name bytes,
/// uncompressed size, and the raw record copied verbatim on a rebuild.
pub type EntryModel = (Seq<u8>, nat, Seq<u8>);

#[verifier::external_type_specification]
#[verifier::external_body]
#[verifier::reject_recursive_types(T)]
pub struct ExCursor<T>(std::io::Cursor<T>);

#[verifier::external_type_specification]
#[verifier::external_body]
#[verifier::reject_recursive_types(R)]
pub struct ExZipArchive<R>(zip::ZipArchive<R>);

/// A container being written. It owns a `zip::ZipWriter` over an in-memory
/// buffer; `zip::ZipWriter`'s own generic bounds keep Verus from declaring
/// the type directly, so the writer is held opaque in this struct instead.
#[verifier::external_body]
pub struct ContainerWriter {
    inner: zip::ZipWriter<std::io::Cursor<Vec<u8>>>,
}

#[verifier::external_type_specification]
#[verifier::external_body]
pub struct ExZipError(zip::result::ZipError);

/// The entries a byte string parses to when read as a container.
pub uninterp spec fn container_entries(bytes: Seq<u8>) -> Seq<EntryModel>;

/// Whether a byte string parses as a container at all: reading the central
/// directory of an in-memory buffer is deterministic in the bytes, so
/// success is a function of them.
pub uninterp spec fn opens(bytes: Seq<u8>) -> bool;

/// The bytes an open reader reads from: the buffer handed to
/// `zip::ZipArchive::new`, which the reader owns unchanged.
pub uninterp spec fn source_of(a: zip::ZipArchive<std::io::Cursor<Vec<u8>>>) -> Seq<u8>;

/// Whether the raw record of entry `i` of the container these bytes hold
/// can be located and read: over an in-memory buffer this is deterministic
/// in the bytes and the index.
pub uninterp spec fn entry_readable(bytes: Seq<u8>, i: int) -> bool;

/// Whether a writer holding exactly these entries finishes into a
/// container. Every writer of this crate starts empty and grows only by
/// successful raw copies, so its state — and with it the success of
/// `finish` over an in-memory buffer — is a function of the entries
/// appended.
pub uninterp spec fn finishes(entries: Seq<EntryModel>) -> bool;

/// The entries an open reader enumerates.
pub uninterp spec fn reader_entries(a: zip::ZipArchive<std::io::Cursor<Vec<u8>>>) -> Seq<
    EntryModel,
>;

/// The entries appended to a writer so far.
pub uninterp spec fn writer_entries(w: ContainerWriter) -> Seq<EntryModel>;

/// Relies on `zip::ZipArchive::new` over an in-memory cursor: reading the
/// central directory is deterministic in the bytes, so whether it succeeds
/// and what the opened reader enumerates are both functions of the bytes,
/// and the reader keeps reading from that same buffer.
#[verifier::external_body]
pub(crate) fn open_container(bytes: Vec<u8>) -> (r: Result<
    zip::ZipArchive<std::io::Cursor<Vec<u8>>>,
    zip::result::ZipError,
>)
    ensures
        r is Ok <==> opens(bytes@),
        r matches Ok(a) ==> reader_entries(a) == container_entries(bytes@) && source_of(a)
            == bytes@,
{
    zip::ZipArchive::new(std::io::Cursor::new(bytes))
}

/// Relies on `zip::ZipArchive::len`: the number of entries enumerated.
#[verifier::external_body]
pub(crate) fn container_len(a: &zip::ZipArchive<std::io::Cursor<Vec<u8>>>) -> (n: usize)
    ensures
        n == reader_entries(*a).len(),
{
    a.len()
}

/// Relies on `zip::ZipArchive::by_index_raw`, `ZipFile::name` and
/// `ZipFile::size`: the decoded name and uncompressed size of entry `i`,
/// read without touching its compressed stream and without changing what
/// the reader enumerates or reads from. `by_index_raw` only locates the
/// entry's local record in the buffer, so over an in-memory cursor its
/// success is a function of the container bytes and the index; the name
/// and size accessors cannot fail.
#[verifier::external_body]
pub(crate) fn entry_meta(a: &mut zip::ZipArchive<std::io::Cursor<Vec<u8>>>, i: usize) -> (r:
    Result<(Vec<u8>, u64), zip::result::ZipError>)
    requires
        i < reader_entries(*old(a)).len(),
    ensures
        reader_entries(*final(a)) == reader_entries(*old(a)),
        source_of(*final(a)) == source_of(*old(a)),
        r is Ok <==> entry_readable(source_of(*old(a)), i as int),
        r matches Ok(m) ==> m.0@ == reader_entries(*old(a))[i as int].0 && m.1 as nat
            == reader_entries(*old(a))[i as int].1,
{
    let f = a.by_index_raw(i)?;
    Ok((f.name().as_bytes().to_vec(), f.size()))
}

/// Relies on `zip::ZipWriter::new` over an empty in-memory buffer: a fresh
/// writer with no entries appended.
#[verifier::external_body]
pub(crate) fn new_writer() -> (w: ContainerWriter)
    ensures
        writer_entries(w) == Seq::<EntryModel>::empty(),
{
    ContainerWriter { inner: zip::ZipWriter::new(std::io::Cursor::new(Vec::new())) }
}

/// Relies on `zip::ZipArchive::by_index_raw` and
/// `zip::ZipWriter::raw_copy_file`: on success entry `i` is appended to the
/// writer with its name, sizes, CRC, compression method and compressed
/// bytes unchanged. On failure the writer gains no entry: over an
/// in-memory buffer a failure can only arise while locating the source
/// record or on a duplicate name, both checked before anything is written.
#[verifier::external_body]
pub(crate) fn copy_entry_raw(
    a: &mut zip::ZipArchive<std::io::Cursor<Vec<u8>>>,
    i: usize,
    w: &mut ContainerWriter,
) -> (r: Result<(), zip::result::ZipError>)
    requires
        i < reader_entries(*old(a)).len(),
    ensures
        reader_entries(*final(a)) == reader_entries(*old(a)),
        r matches Ok(u) ==> writer_entries(*final(w)) == writer_entries(*old(w)).push(
            reader_entries(*old(a))[i as int],
        ),
        r matches Err(e) ==> writer_entries(*final(w)) == writer_entries(*old(w)),
{
    let f = a.by_index_raw(i)?;
    w.inner.raw_copy_file(f)
}

/// Relies on `zip::ZipWriter::finish` and `std::io::Cursor::into_inner`:
/// the finished bytes form a container that opens and parses back to
/// exactly the entries appended, in order. Whether finishing succeeds is a
/// function of the writer's state, which the appended entries determine
/// (see `finishes`).
#[verifier::external_body]
pub(crate) fn finish_writer(w: ContainerWriter) -> (r: Result<Vec<u8>, zip::result::ZipError>)
    ensures
        r is Ok <==> finishes(writer_entries(w)),
        r matches Ok(out) ==> opens(out@) && container_entries(out@) == writer_entries(w),
{
    Ok(w.inner.finish()?.into_inner())
}

} // verus!
