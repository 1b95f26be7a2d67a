//! Offered files as a clipboard object: the list at once, the contents of each file when they are
//! asked for.
use crate::bytes::{order_of_one, put_u32, u32_to_ne_bytes, ByteOrder};
use crate::clipsync::descriptor::{group_descriptor, pack_file_group};
use crate::clipsync::manifest::{Entry, Manifest};
use crate::clipsync::stream::{new_com_stream, NetStream, PullerModel};
use vstd::prelude::*;

verus! {

/// Data in a block of memory.
pub const TYMED_HGLOBAL: u32 = 1;

/// Data in a stream.
pub const TYMED_ISTREAM: u32 = 4;

/// The data itself, rather than an icon or a print.
pub const DVASPECT_CONTENT: u32 = 1;

/// Pasting copies.
pub const DROPEFFECT_COPY: u32 = 1;

/// Formats are listed for reading.
pub const DATADIR_GET: u32 = 1;

/// A format in which data can be had.
#[derive(Clone, Copy, Debug, PartialEq, Eq, Structural)]
pub struct FormatEtc {
    pub cf: u16,
    pub aspect: u32,
    pub lindex: i32,
    pub tymed: u32,
}

/// Why data cannot be had.
#[derive(Clone, Copy, Debug, PartialEq, Eq, Structural)]
pub enum DataError {
    /// Not in this format.
    Format,
    /// Not for this entry.
    Index,
}

/// The data that was asked for.
pub enum DataReply {
    Bytes(Vec<u8>),
    Stream(NetStream),
}

/// An offer of files on the clipboard, with the numbers of its three formats.
pub struct FileDataObject {
    pub manifest: Manifest,
    pub target: String,
    pub key: Vec<u8>,
    pub async_mode: bool,
    pub operating: bool,
    pub cf_descriptor: u16,
    pub cf_contents: u16,
    pub cf_dropeffect: u16,
    /// The order of the bytes of numbers in memory.
    pub order: ByteOrder,
}

/// Puts an offer together, given the numbers under which its formats are registered. Its data are in
/// the order of the machine, whichever that is.
pub fn new_file_data_object(
    manifest: Manifest,
    target: String,
    key: Vec<u8>,
    cf_descriptor: u16,
    cf_contents: u16,
    cf_dropeffect: u16,
) -> (o: FileDataObject)
    ensures
        o == (FileDataObject {
            manifest: manifest,
            target: target,
            key: key,
            async_mode: false,
            operating: false,
            cf_descriptor: cf_descriptor,
            cf_contents: cf_contents,
            cf_dropeffect: cf_dropeffect,
            order: o.order,
        }),
{
    let one: [u8; 4] = u32_to_ne_bytes(1);
    FileDataObject {
        manifest: manifest,
        target: target,
        key: key,
        async_mode: false,
        operating: false,
        cf_descriptor: cf_descriptor,
        cf_contents: cf_contents,
        cf_dropeffect: cf_dropeffect,
        order: order_of_one(&one),
    }
}

/// A format for all entries together.
pub open spec fn whole(cf: u16, tymed: u32) -> FormatEtc {
    FormatEtc { cf: cf, aspect: DVASPECT_CONTENT, lindex: -1i32, tymed: tymed }
}

/// A format for the data itself.
pub fn make_formatetc(cf: u16, tymed: u32, lindex: i32) -> (f: FormatEtc)
    ensures
        f == (FormatEtc { cf: cf, aspect: DVASPECT_CONTENT, lindex: lindex, tymed: tymed }),
{
    FormatEtc { cf: cf, aspect: DVASPECT_CONTENT, lindex: lindex, tymed: tymed }
}

/// What becomes of a request for the contents of an entry: only files have contents.
pub open spec fn contents_of(entries: Seq<Entry>, lindex: i32) -> Result<Entry, DataError> {
    if lindex < 0 || lindex >= entries.len() {
        Err(DataError::Index)
    } else if entries[lindex as int].is_dir {
        Err(DataError::Format)
    } else {
        Ok(entries[lindex as int])
    }
}

impl FileDataObject {
    /// The three formats: the list, the contents of a file, and that pasting copies.
    pub fn formats(&self) -> (out: Vec<FormatEtc>)
        ensures
            out@ == seq![
                whole(self.cf_descriptor, TYMED_HGLOBAL),
                whole(self.cf_contents, TYMED_ISTREAM),
                whole(self.cf_dropeffect, TYMED_HGLOBAL),
            ],
    {
        let mut out: Vec<FormatEtc> = Vec::new();
        out.push(make_formatetc(self.cf_descriptor, TYMED_HGLOBAL, -1));
        out.push(make_formatetc(self.cf_contents, TYMED_ISTREAM, -1));
        out.push(make_formatetc(self.cf_dropeffect, TYMED_HGLOBAL, -1));
        assert(out@ =~= seq![
            whole(self.cf_descriptor, TYMED_HGLOBAL),
            whole(self.cf_contents, TYMED_ISTREAM),
            whole(self.cf_dropeffect, TYMED_HGLOBAL),
        ]);
        out
    }

    /// Gives data in a format, and for one entry where the contents of a file are asked for.
    pub fn get_data(&self, cf: u16, lindex: i32) -> (r: Result<DataReply, DataError>)
        ensures
            if cf == self.cf_descriptor {
                r matches Ok(DataReply::Bytes(b)) && b@ == group_descriptor(
                    self.manifest.entries@,
                    self.order,
                )
            } else if cf == self.cf_dropeffect {
                r matches Ok(DataReply::Bytes(b)) && b@ == self.order.bytes(
                    DROPEFFECT_COPY as nat,
                    4,
                )
            } else if cf == self.cf_contents {
                match contents_of(self.manifest.entries@, lindex) {
                    Ok(e) => r matches Ok(DataReply::Stream(s)) && s.size == e.size && s.puller@
                        == (PullerModel {
                        target: self.target@,
                        key: self.key@,
                        session_id: self.manifest.session_id,
                        file_id: e.file_id,
                        offset: 0,
                        connected: false,
                    }),
                    Err(why) => r matches Err(w) && w == why,
                }
            } else {
                r matches Err(w) && w == DataError::Format
            },
            cf == self.cf_contents && cf != self.cf_descriptor && cf != self.cf_dropeffect && 0
                <= lindex < self.manifest.entries@.len()
                && !self.manifest.entries@[lindex as int].is_dir ==> (
            r matches Ok(DataReply::Stream(s)) && s.size
                == self.manifest.entries@[lindex as int].size && s.puller@.file_id
                == self.manifest.entries@[lindex as int].file_id && s.puller@.session_id
                == self.manifest.session_id && s.puller@.offset == 0),
    {
        if cf == self.cf_descriptor {
            Ok(DataReply::Bytes(pack_file_group(&self.manifest, self.order)))
        } else if cf == self.cf_dropeffect {
            let mut effect: Vec<u8> = Vec::new();
            put_u32(&mut effect, DROPEFFECT_COPY, self.order);
            assert(effect@ =~= self.order.bytes(DROPEFFECT_COPY as nat, 4));
            Ok(DataReply::Bytes(effect))
        } else if cf == self.cf_contents {
            if lindex < 0 || lindex as usize >= self.manifest.entries.len() {
                return Err(DataError::Index);
            }
            let e: &Entry = &self.manifest.entries[lindex as usize];
            if e.is_dir {
                return Err(DataError::Format);
            }
            Ok(
                DataReply::Stream(
                    new_com_stream(
                        self.target.clone(),
                        vstd::slice::slice_to_vec(self.key.as_slice()),
                        self.manifest.session_id,
                        e.file_id,
                        e.size,
                    ),
                ),
            )
        } else {
            Err(DataError::Format)
        }
    }

    /// Can data be had in a format?
    pub fn query_get_data(&self, cf: u16) -> (b: bool)
        ensures
            b == (cf == self.cf_descriptor || cf == self.cf_contents || cf == self.cf_dropeffect),
    {
        cf == self.cf_descriptor || cf == self.cf_contents || cf == self.cf_dropeffect
    }

    /// Lists the formats, for reading only.
    pub fn enum_format_etc(&self, direction: u32) -> (r: Option<FormatEnumerator>)
        ensures
            r is Some == (direction == DATADIR_GET),
            r matches Some(e) ==> e.wf() && e.pos == 0 && e.formats@ == seq![
                whole(self.cf_descriptor, TYMED_HGLOBAL),
                whole(self.cf_contents, TYMED_ISTREAM),
                whole(self.cf_dropeffect, TYMED_HGLOBAL),
            ],
    {
        if direction == DATADIR_GET {
            Some(FormatEnumerator { formats: self.formats(), pos: 0 })
        } else {
            None
        }
    }
}

/// A cursor over the formats of an offer.
pub struct FormatEnumerator {
    pub formats: Vec<FormatEtc>,
    pub pos: usize,
}

impl FormatEnumerator {
    /// The cursor is not beyond the end.
    pub open spec fn wf(self) -> bool {
        self.pos <= self.formats@.len()
    }

    /// The cursor after `n` formats more, or at the end.
    pub open spec fn ahead(self, n: u32) -> int {
        if self.pos + n < self.formats@.len() {
            self.pos + n
        } else {
            self.formats@.len() as int
        }
    }

    /// The next `celt` formats, as far as there are any, and whether there were enough.
    pub fn next(&mut self, celt: u32) -> (r: (Vec<FormatEtc>, bool))
        requires
            old(self).wf(),
        ensures
            final(self).wf(),
            final(self).formats@ == old(self).formats@,
            final(self).pos == old(self).ahead(celt),
            r.0@ == old(self).formats@.subrange(old(self).pos as int, old(self).ahead(celt)),
            r.1 == (r.0@.len() == celt),
    {
        let ghost start = self.pos as int;
        let mut out: Vec<FormatEtc> = Vec::new();
        let mut fetched: u32 = 0;
        while fetched < celt && self.pos < self.formats.len()
            invariant
                fetched <= celt,
                self.formats@ == old(self).formats@,
                start == old(self).pos,
                self.pos == start + fetched,
                self.pos <= self.formats@.len(),
                out@ == self.formats@.subrange(start, self.pos as int),
            decreases celt - fetched,
        {
            out.push(self.formats[self.pos]);
            self.pos = self.pos + 1;
            fetched = fetched + 1;
            assert(self.formats@.subrange(start, self.pos as int) =~= self.formats@.subrange(
                start,
                self.pos - 1,
            ).push(self.formats@[self.pos - 1]));
        }
        (out, fetched == celt)
    }

    /// Leaves out some formats.
    pub fn skip(&mut self, celt: u32)
        requires
            old(self).wf(),
        ensures
            final(self).wf(),
            final(self).formats@ == old(self).formats@,
            final(self).pos == old(self).ahead(celt),
    {
        let left: usize = self.formats.len() - self.pos;
        if (celt as u64) < left as u64 {
            self.pos = self.pos + celt as usize;
        } else {
            self.pos = self.formats.len();
        }
    }

    /// Starts over.
    pub fn reset(&mut self)
        ensures
            final(self).wf(),
            final(self).formats@ == old(self).formats@,
            final(self).pos == 0,
    {
        self.pos = 0;
    }

    /// A second cursor at the same place.
    pub fn duplicate(&self) -> (e: FormatEnumerator)
        ensures
            e.formats@ == self.formats@,
            e.pos == self.pos,
    {
        FormatEnumerator {
            formats: vstd::slice::slice_to_vec(self.formats.as_slice()),
            pos: self.pos,
        }
    }
}

/// Every format that is listed can be had, as far as asking tells.
pub proof fn law_listed_formats_are_known(o: FileDataObject, i: int)
    requires
        0 <= i < 3,
    ensures
        ({
            let listed = seq![
                whole(o.cf_descriptor, TYMED_HGLOBAL),
                whole(o.cf_contents, TYMED_ISTREAM),
                whole(o.cf_dropeffect, TYMED_HGLOBAL),
            ];
            listed[i].cf == o.cf_descriptor || listed[i].cf == o.cf_contents || listed[i].cf
                == o.cf_dropeffect
        }),
{
}

/// Contents are given for files of the list and for nothing else.
pub proof fn law_contents_are_of_listed_files(entries: Seq<Entry>, lindex: i32, e: Entry)
    requires
        contents_of(entries, lindex) == Ok::<Entry, DataError>(e),
    ensures
        entries.contains(e),
        !e.is_dir,
{
    assert(entries[lindex as int] == e);
}

/// The contents that are given are those of the entry at that very index. A directory has none, and
/// an index that no entry has is refused as such.
pub proof fn law_contents_are_of_the_entry_asked_for(entries: Seq<Entry>, lindex: i32)
    ensures
        0 <= lindex < entries.len() && !entries[lindex as int].is_dir ==> contents_of(
            entries,
            lindex,
        ) == Ok::<Entry, DataError>(entries[lindex as int]),
        0 <= lindex < entries.len() && entries[lindex as int].is_dir ==> contents_of(
            entries,
            lindex,
        ) == Err::<Entry, DataError>(DataError::Format),
        !(0 <= lindex < entries.len()) ==> contents_of(entries, lindex) == Err::<Entry, DataError>(
            DataError::Index,
        ),
{
}

/// A format is listed for the data of the whole offer, under its own number and in its own medium.
pub proof fn law_formats_are_of_the_whole(cf: u16)
    ensures
        whole(cf, TYMED_HGLOBAL) == (FormatEtc { cf: cf, aspect: 1, lindex: -1i32, tymed: 1 }),
        whole(cf, TYMED_ISTREAM) == (FormatEtc { cf: cf, aspect: 1, lindex: -1i32, tymed: 4 }),
{
}

/// The cursor moves ahead by as many formats as asked for, and no further than the end.
pub proof fn law_cursor_moves_to_the_end_at_most(e: FormatEnumerator, n: u32)
    requires
        e.wf(),
    ensures
        e.ahead(n) <= e.formats@.len(),
        e.ahead(n) <= e.pos + n,
        e.ahead(n) == e.pos + n || e.ahead(n) == e.formats@.len(),
{
}

} // verus!
