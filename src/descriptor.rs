//! File metadata lists: FILEDESCRIPTORW records and the count-prefixed FileGroupDescriptorW list.

use vstd::prelude::*;
use crate::bytes_le::{le_u32, le_u64, u32_le, read_u32_le, read_u64_le, push_u32_le};
use crate::error::{ClipboardError, ClipboardResult, format_error};
use crate::utf16::{
    utf16_encode, utf16_valid, le_units, units_le, until_null, null_index, lemma_null_index,
    read_units, decode_utf16_units, chars_of, encode_chars, push_units,
};

verus! {

/// Size in bytes of one FILEDESCRIPTORW record.
pub const DESCRIPTOR_SIZE: usize = 592;

/// Offset of the file name field inside a record.
pub const NAME_OFFSET: usize = 72;

/// Size in bytes of the file name field (260 UTF-16 code units).
pub const NAME_FIELD_SIZE: usize = 520;

/// Longest file name written into a record, in code units; one more unit is left for the terminator.
pub const MAX_NAME_UNITS: usize = 259;

/// Attribute value of a directory.
pub const FILE_ATTRIBUTE_DIRECTORY: u32 = 0x10;

/// Attribute value of an ordinary file.
pub const FILE_ATTRIBUTE_NORMAL: u32 = 0x80;

/// The flag word of a file descriptor: which optional fields are present.
#[derive(Debug, Clone, Copy, PartialEq, Eq)]
pub struct FileDescriptorFlags(u32);

impl View for FileDescriptorFlags {
    type V = u32;

    closed spec fn view(&self) -> u32 {
        self.0
    }
}

impl FileDescriptorFlags {
    /// File attributes are present.
    pub const ATTRIBUTES: u32 = 0x00000001;

    /// File size is present.
    pub const FILESIZE: u32 = 0x00000040;

    /// Write time is present.
    pub const WRITESTIME: u32 = 0x00000020;

    /// Creation time is present.
    pub const CREATETIME: u32 = 0x00000002;

    /// Access time is present.
    pub const ACCESSTIME: u32 = 0x00000010;

    /// Wraps a raw flag word.
    pub fn from_raw(flags: u32) -> (r: Self)
        ensures
            r@ == flags,
    {
        FileDescriptorFlags(flags)
    }

    /// The raw flag word.
    pub fn raw(&self) -> (r: u32)
        ensures
            r == self@,
    {
        self.0
    }

    /// Whether any bit of `flag` is set.
    pub fn has_flag(&self, flag: u32) -> (r: bool)
        ensures
            r == (self@ & flag != 0),
    {
        (self.0 & flag) != 0
    }
}

/// Metadata of one file offered for transfer.
#[derive(Debug, Clone)]
pub struct FileDescriptor {
    /// Which optional fields are present.
    pub flags: FileDescriptorFlags,
    /// File attributes.
    pub attributes: u32,
    /// Creation time in 100 ns ticks, present when the creation-time flag is set.
    pub creation_time: Option<u64>,
    /// Last access time, present when the access-time flag is set.
    pub access_time: Option<u64>,
    /// Last write time, present when the write-time flag is set.
    pub write_time: Option<u64>,
    /// Size in bytes, present when the file-size flag is set.
    pub size: Option<u64>,
    /// The file name.
    pub name: String,
}

/// What a file entry of a list to be offered carries: its name, and what the file system says of it.
#[derive(Debug, Clone)]
pub struct FileEntry {
    /// The file name, without directories.
    pub name: String,
    /// Whether the entry is a directory.
    pub is_dir: bool,
    /// The size in bytes.
    pub size: u64,
}

/// `Some(v)` when `present`, else `None`.
pub open spec fn field_if(present: bool, v: int) -> Option<u64> {
    if present {
        Some(v as u64)
    } else {
        None
    }
}

/// Whether some bit of `bit` is set in the flag word of the record at `off`.
pub open spec fn record_flag(b: Seq<u8>, off: int, bit: u32) -> bool {
    (le_u32(b, off) as u32) & bit != 0
}

/// The code units of the file name of the record at `off`, up to its terminator.
pub open spec fn record_name_units(b: Seq<u8>, off: int) -> Seq<u16> {
    until_null(le_units(b.subrange(off + 72, off + 592)))
}

/// `d` holds the fields of the record at `off`, with the optional fields present exactly when flagged.
pub open spec fn describes(d: FileDescriptor, b: Seq<u8>, off: int) -> bool {
    &&& d.flags@ == le_u32(b, off) as u32
    &&& d.attributes == le_u32(b, off + 36) as u32
    &&& d.creation_time == field_if(
        record_flag(b, off, FileDescriptorFlags::CREATETIME),
        le_u64(b, off + 40),
    )
    &&& d.access_time == field_if(
        record_flag(b, off, FileDescriptorFlags::ACCESSTIME),
        le_u64(b, off + 48),
    )
    &&& d.write_time == field_if(
        record_flag(b, off, FileDescriptorFlags::WRITESTIME),
        le_u64(b, off + 56),
    )
    &&& d.size == field_if(
        record_flag(b, off, FileDescriptorFlags::FILESIZE),
        le_u32(b, off + 64) * 4294967296 + le_u32(b, off + 68),
    )
    &&& utf16_encode(d.name@) == record_name_units(b, off)
}

/// The record at `off` can be read: its name is valid UTF-16.
pub open spec fn record_readable(b: Seq<u8>, off: int) -> bool {
    utf16_valid(record_name_units(b, off))
}

/// The `k`-th record of a count-prefixed list can be read.
pub open spec fn list_record_readable(b: Seq<u8>, k: int) -> bool {
    record_readable(b, 4 + 592 * k)
}

/// A character that file names on the peer's side may not hold.
pub open spec fn is_forbidden_name_char(c: char) -> bool {
    c == '<' || c == '>' || c == ':' || c == '"' || c == '/' || c == '\\' || c == '|' || c == '?'
        || c == '*' || (c as u32) < 0x20
}

/// A file name with each forbidden character replaced by `_`.
pub open spec fn sanitized_name(s: Seq<char>) -> Seq<char> {
    s.map_values(|c: char| if is_forbidden_name_char(c) { '_' } else { c })
}

/// `n` zero bytes.
pub open spec fn zeros(n: nat) -> Seq<u8> {
    Seq::new(n, |i: int| 0u8)
}

/// The code units written into the name field for a name: the sanitized name, cut to 259 units.
pub open spec fn record_name_field(name: Seq<char>) -> Seq<u16> {
    let u = utf16_encode(sanitized_name(name));
    if u.len() <= 259 {
        u
    } else {
        u.take(259)
    }
}

/// The record built for a file entry: only the file-size flag is set.
pub open spec fn record_bytes(name: Seq<char>, is_dir: bool, size: u64) -> Seq<u8> {
    let units = record_name_field(name);
    u32_le(FileDescriptorFlags::FILESIZE as int) + zeros(32) + u32_le(
        if is_dir {
            FILE_ATTRIBUTE_DIRECTORY as int
        } else {
            FILE_ATTRIBUTE_NORMAL as int
        },
    ) + zeros(24) + u32_le(size as int / 4294967296) + u32_le(size as int % 4294967296)
        + units_le(units) + zeros((520 - 2 * units.len()) as nat)
}

/// The records of a list of entries, one after the other.
pub open spec fn records_of(entries: Seq<FileEntry>) -> Seq<u8>
    decreases entries.len(),
{
    if entries.len() == 0 {
        seq![]
    } else {
        records_of(entries.drop_last()) + record_bytes(
            entries.last().name@,
            entries.last().is_dir,
            entries.last().size,
        )
    }
}

fn push_zeros(out: &mut Vec<u8>, n: usize)
    ensures
        final(out)@ == old(out)@ + zeros(n as nat),
{
    let mut i: usize = 0;
    while i < n
        invariant
            i <= n,
            out@ == old(out)@ + zeros(i as nat),
        decreases n - i,
    {
        out.push(0u8);
        i = i + 1;
        assert(out@ =~= old(out)@ + zeros(i as nat));
    }
}

/// Replaces each forbidden character of a file name with `_`.
pub fn sanitize_filename(name: &str) -> (r: Vec<char>)
    ensures
        r@ == sanitized_name(name@),
{
    let cs = chars_of(name);
    let mut r: Vec<char> = Vec::new();
    let mut i: usize = 0;
    while i < cs.len()
        invariant
            i <= cs@.len(),
            cs@ == name@,
            r@ == sanitized_name(cs@.take(i as int)),
        decreases cs@.len() - i,
    {
        let c = cs[i];
        let v = c as u32;
        if c == '<' || c == '>' || c == ':' || c == '"' || c == '/' || c == '\\' || c == '|' || c
            == '?' || c == '*' || v < 0x20 {
            r.push('_');
        } else {
            r.push(c);
        }
        i = i + 1;
        assert(r@ =~= sanitized_name(cs@.take(i as int)));
    }
    assert(cs@.take(i as int) =~= cs@);
    r
}

impl FileDescriptor {
    /// Parses one FILEDESCRIPTORW record from the start of `data`.
    pub fn parse(data: &[u8]) -> (r: ClipboardResult<FileDescriptor>)
        ensures
            data@.len() < 592 ==> r matches Err(ClipboardError::FormatConversion(_)),
            data@.len() >= 592 ==> (r is Ok <==> record_readable(data@, 0)),
            data@.len() >= 592 && !record_readable(data@, 0) ==> r == Err::<
                FileDescriptor,
                ClipboardError,
            >(ClipboardError::InvalidUtf16),
            r matches Ok(d) ==> describes(d, data@, 0),
    {
        if data.len() < DESCRIPTOR_SIZE {
            return Err(format_error("FILEDESCRIPTORW record too small"));
        }
        Self::parse_at(data, 0)
    }

    /// Parses the record at `data[off..off + 592]`.
    fn parse_at(data: &[u8], off: usize) -> (r: ClipboardResult<FileDescriptor>)
        requires
            off + 592 <= data.len(),
        ensures
            r is Ok <==> record_readable(data@, off as int),
            r is Err ==> r == Err::<FileDescriptor, ClipboardError>(ClipboardError::InvalidUtf16),
            r matches Ok(d) ==> describes(d, data@, off as int),
    {
        let flags = FileDescriptorFlags::from_raw(read_u32_le(data, off));
        let attributes = read_u32_le(data, off + 36);
        let creation_time = if flags.has_flag(FileDescriptorFlags::CREATETIME) {
            Some(read_u64_le(data, off + 40))
        } else {
            None
        };
        let access_time = if flags.has_flag(FileDescriptorFlags::ACCESSTIME) {
            Some(read_u64_le(data, off + 48))
        } else {
            None
        };
        let write_time = if flags.has_flag(FileDescriptorFlags::WRITESTIME) {
            Some(read_u64_le(data, off + 56))
        } else {
            None
        };
        let size = if flags.has_flag(FileDescriptorFlags::FILESIZE) {
            let size_high = read_u32_le(data, off + 64) as u64;
            let size_low = read_u32_le(data, off + 68) as u64;
            Some(size_high * 4294967296 + size_low)
        } else {
            None
        };
        let name = match Self::parse_utf16_filename(data, off + NAME_OFFSET, NAME_FIELD_SIZE) {
            Ok(name) => name,
            Err(e) => {
                return Err(e);
            },
        };
        Ok(FileDescriptor { flags, attributes, creation_time, access_time, write_time, size, name })
    }

    /// Decodes the null-terminated UTF-16LE name held in `data[start..start + len]`.
    fn parse_utf16_filename(data: &[u8], start: usize, len: usize) -> (r: ClipboardResult<String>)
        requires
            start + len <= data@.len(),
        ensures
            len % 2 != 0 ==> r == Err::<String, ClipboardError>(ClipboardError::InvalidUtf16),
            len % 2 == 0 ==> (r is Ok <==> utf16_valid(
                until_null(le_units(data@.subrange(start as int, start + len))),
            )),
            r is Err ==> r == Err::<String, ClipboardError>(ClipboardError::InvalidUtf16),
            r matches Ok(s) ==> utf16_encode(s@) == until_null(
                le_units(data@.subrange(start as int, start + len)),
            ),
    {
        if len % 2 != 0 {
            return Err(ClipboardError::InvalidUtf16);
        }
        let units = read_units(data, start, len / 2);
        let ghost w = data@.subrange(start as int, start + len);
        assert(data@.subrange(start as int, start + 2 * (len / 2)) == w);
        proof {
            lemma_null_index(units@);
        }
        let mut k: usize = 0;
        while k < units.len() && units[k] != 0
            invariant
                k <= units@.len(),
                forall|j: int| 0 <= j < k ==> units@[j] != 0,
                0 <= null_index(units@) <= units@.len(),
                null_index(units@) < units@.len() ==> units@[null_index(units@)] == 0,
                forall|j: int| 0 <= j < null_index(units@) ==> units@[j] != 0,
            decreases units@.len() - k,
        {
            k = k + 1;
        }
        assert(k == null_index(units@));
        let mut named: Vec<u16> = Vec::new();
        let mut i: usize = 0;
        while i < k
            invariant
                i <= k <= units@.len(),
                named@ == units@.take(i as int),
            decreases k - i,
        {
            named.push(units[i]);
            i = i + 1;
            assert(named@ =~= units@.take(i as int));
        }
        match decode_utf16_units(named.as_slice()) {
            Some(s) => Ok(s),
            None => Err(ClipboardError::InvalidUtf16),
        }
    }

    /// Parses a FileGroupDescriptorW list: a little-endian count, then that many records.
    pub fn parse_list(data: &[u8]) -> (r: ClipboardResult<Vec<FileDescriptor>>)
        ensures
            data@.len() < 4 ==> r matches Err(ClipboardError::FormatConversion(_)),
            data@.len() >= 4 && data@.len() < 4 + 592 * le_u32(data@, 0) ==> r matches Err(
                ClipboardError::FormatConversion(_),
            ),
            data@.len() >= 4 && data@.len() >= 4 + 592 * le_u32(data@, 0) ==> {
                &&& r is Ok <==> forall|k: int|
                    0 <= k < le_u32(data@, 0) ==> #[trigger] list_record_readable(data@, k)
                &&& r is Err ==> r == Err::<Vec<FileDescriptor>, ClipboardError>(
                    ClipboardError::InvalidUtf16,
                )
            },
            r matches Ok(v) ==> v@.len() == le_u32(data@, 0) && forall|k: int|
                0 <= k < v@.len() ==> describes(#[trigger] v@[k], data@, 4 + 592 * k),
    {
        if data.len() < 4 {
            return Err(format_error("FileGroupDescriptorW too small for count"));
        }
        let count = read_u32_le(data, 0) as usize;
        if count == 0 {
            return Ok(Vec::new());
        }
        if count > (data.len() - 4) / DESCRIPTOR_SIZE {
            return Err(format_error("FileGroupDescriptorW too small for its count"));
        }
        assert(4 + 592 * count <= data@.len());
        let mut descriptors: Vec<FileDescriptor> = Vec::new();
        let mut i: usize = 0;
        while i < count
            invariant
                count == le_u32(data@, 0),
                4 + 592 * count <= data.len(),
                i <= count,
                descriptors@.len() == i,
                forall|k: int| 0 <= k < i ==> #[trigger] list_record_readable(data@, k),
                forall|k: int|
                    0 <= k < i ==> describes(#[trigger] descriptors@[k], data@, 4 + 592 * k),
            decreases count - i,
        {
            assert(4 + 592 * i + 592 <= 4 + 592 * count) by (nonlinear_arith)
                requires
                    i < count,
            ;
            let offset = 4 + i * DESCRIPTOR_SIZE;
            match Self::parse_at(data, offset) {
                Ok(d) => descriptors.push(d),
                Err(e) => {
                    assert(!list_record_readable(data@, i as int));
                    return Err(e);
                },
            }
            i = i + 1;
        }
        Ok(descriptors)
    }

    /// Builds the FILEDESCRIPTORW record for one file entry.
    pub fn build(entry: &FileEntry) -> (r: Vec<u8>)
        ensures
            r@ == record_bytes(entry.name@, entry.is_dir, entry.size),
            r@.len() == 592,
    {
        let mut data: Vec<u8> = Vec::new();
        push_u32_le(&mut data, FileDescriptorFlags::FILESIZE);
        push_zeros(&mut data, 32);
        let attributes: u32 = if entry.is_dir {
            FILE_ATTRIBUTE_DIRECTORY
        } else {
            FILE_ATTRIBUTE_NORMAL
        };
        push_u32_le(&mut data, attributes);
        push_zeros(&mut data, 24);
        push_u32_le(&mut data, (entry.size / 4294967296) as u32);
        push_u32_le(&mut data, (entry.size % 4294967296) as u32);
        let name = sanitize_filename(entry.name.as_str());
        let all_units = encode_chars(name.as_slice());
        let mut units: Vec<u16> = Vec::new();
        let n = if all_units.len() <= MAX_NAME_UNITS {
            all_units.len()
        } else {
            MAX_NAME_UNITS
        };
        let mut i: usize = 0;
        while i < n
            invariant
                i <= n <= all_units@.len(),
                units@ == all_units@.take(i as int),
            decreases n - i,
        {
            units.push(all_units[i]);
            i = i + 1;
            assert(units@ =~= all_units@.take(i as int));
        }
        assert(all_units@.take(n as int) == record_name_field(entry.name@)) by {
            assert(all_units@.take(all_units@.len() as int) =~= all_units@);
        }
        push_units(&mut data, units.as_slice());
        push_zeros(&mut data, NAME_FIELD_SIZE - 2 * n);
        data
    }

    /// Builds a FileGroupDescriptorW list: the count, then one record per entry.
    pub fn build_list(entries: &[FileEntry]) -> (r: Vec<u8>)
        ensures
            r@ == u32_le((entries@.len() as u32) as int) + records_of(entries@),
    {
        let count = entries.len() as u32;
        let mut data: Vec<u8> = Vec::new();
        push_u32_le(&mut data, count);
        let ghost head = data@;
        let mut i: usize = 0;
        while i < entries.len()
            invariant
                i <= entries@.len(),
                data@ == head + records_of(entries@.take(i as int)),
            decreases entries@.len() - i,
        {
            let rec = Self::build(&entries[i]);
            let mut j: usize = 0;
            let ghost before = data@;
            while j < rec.len()
                invariant
                    j <= rec@.len(),
                    data@ == before + rec@.take(j as int),
                decreases rec@.len() - j,
            {
                data.push(rec[j]);
                j = j + 1;
                assert(data@ =~= before + rec@.take(j as int));
            }
            assert(entries@.take(i + 1).drop_last() =~= entries@.take(i as int));
            assert(rec@.take(j as int) =~= rec@);
            i = i + 1;
            assert(data@ =~= head + records_of(entries@.take(i as int)));
        }
        assert(entries@.take(i as int) =~= entries@);
        data
    }
}

/// Builds a FileGroupDescriptorW list from file entries.
pub fn build_file_group_descriptor_w(entries: &[FileEntry]) -> (r: Vec<u8>)
    ensures
        r@ == u32_le((entries@.len() as u32) as int) + records_of(entries@),
{
    FileDescriptor::build_list(entries)
}

} // verus!
