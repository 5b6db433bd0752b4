use std::sync::Arc;
use vstd::prelude::*;

use crate::buffer::sat_sub;
use crate::ext::{assign_slice, min_int};
use crate::sink::SinkId;

verus! {

/// The result of a read operation triggered by a loadable.
#[derive(Debug, Clone, Copy, PartialEq, Eq, Structural)]
pub enum ReadResult {
    /// There is more data to read. Number is the number of bytes read.
    More(usize),
    /// End of stream reached. Number is the number of bytes read.
    End(usize),
}

/// Represents the outcome of ingesting a loadable
pub struct Ingest<L> {
    /// The length that the ingestion has calculated the audio is
    pub expected_length: Option<usize>,
    pub loader: L,
}

/// Represents a request to load into a sink
pub struct LoadRequest<L> {
    /// The sink whose write reference was taken for the load
    pub sink_id: SinkId,
    /// The loader associated with the sink
    pub loader: Arc<L>,
    /// The offset in samples to load from
    pub offset: usize,
    /// The preferred amount of samples to load
    pub amount: usize,
}

/// A position to seek to, as `std::io::SeekFrom` describes it.
#[derive(Debug, Clone, Copy)]
pub enum SeekFrom {
    Start(u64),
    End(i64),
    Current(i64),
}

/// The most bytes a read asks to have preloaded.
pub const MAX_CHUNK_SIZE: usize = 50000000;

/// The fewest bytes a preload asks for, where that many are left.
pub const MIN_CHUNK_SIZE: usize = 3000000;

/// The buffering and offsets of a loadable that reads from a network stream.
/// If the stream supports byte ranges, it can be seeked.
///
/// The loaded bytes are the bytes of the stream that end before `loaded_bytes_offset`;
/// reads go on from `read_offset` within them.
pub struct LoadableNetworkStream {
    url: String,
    length: Option<usize>,
    supports_byte_ranges: bool,
    read_offset: usize,
    /// A cache of bytes that are preloaded to prevent spamming the network.
    /// This is because the ingestion may request very small amounts of data at a time.
    loaded_bytes: Vec<u8>,
    loaded_bytes_offset: usize,
}

impl LoadableNetworkStream {
    pub closed spec fn spec_url(&self) -> String {
        self.url
    }

    /// The address of the stream.
    pub fn url(&self) -> (url: &String)
        ensures
            *url == self.spec_url(),
    {
        &self.url
    }

    pub closed spec fn spec_length(&self) -> Option<usize> {
        self.length
    }

    pub closed spec fn spec_ranged(&self) -> bool {
        self.supports_byte_ranges
    }

    pub closed spec fn spec_read_offset(&self) -> usize {
        self.read_offset
    }

    pub closed spec fn spec_loaded(&self) -> Seq<u8> {
        self.loaded_bytes@
    }

    pub closed spec fn spec_load_offset(&self) -> usize {
        self.loaded_bytes_offset
    }

    /// The length of the stream, or the largest one if it is unknown.
    pub open spec fn spec_normal_len(&self) -> int {
        match self.spec_length() {
            Some(length) => length as int,
            None => usize::MAX as int,
        }
    }

    /// The absolute offset of the first loaded byte.
    pub open spec fn spec_load_start(&self) -> int {
        sat_sub(self.spec_load_offset() as int, self.spec_loaded().len() as int)
    }

    /// Creates the stream of the given address, before its length is known.
    pub fn new(url: String) -> (stream: Self)
        ensures
            stream.spec_url() == url,
            stream.spec_length() is None,
            !stream.spec_ranged(),
            stream.spec_read_offset() == 0,
            stream.spec_loaded() == Seq::<u8>::empty(),
            stream.spec_load_offset() == 0,
    {
        LoadableNetworkStream {
            url,
            length: None,
            supports_byte_ranges: false,
            read_offset: 0,
            loaded_bytes: Vec::new(),
            loaded_bytes_offset: 0,
        }
    }

    /// Records what the stream's headers said: whether it serves byte ranges, and its length.
    pub fn setup(&mut self, supports_byte_ranges: bool, length: Option<usize>)
        ensures
            final(self).spec_ranged() == supports_byte_ranges,
            final(self).spec_length() == length,
            final(self).spec_read_offset() == old(self).spec_read_offset(),
            final(self).spec_loaded() == old(self).spec_loaded(),
            final(self).spec_load_offset() == old(self).spec_load_offset(),
            final(self).spec_url() == old(self).spec_url(),
    {
        self.supports_byte_ranges = supports_byte_ranges;
        self.length = length;
    }

    /// The length of the stream, or the largest one if it is unknown.
    pub fn normal_len(&self) -> (length: usize)
        ensures
            length == self.spec_normal_len(),
    {
        match self.length {
            Some(length) => length,
            None => usize::MAX,
        }
    }

    pub fn loaded_length(&self) -> (length: usize)
        ensures
            length == self.spec_loaded().len(),
    {
        self.loaded_bytes.len()
    }

    pub fn absolute_load_start_offset(&self) -> (offset: usize)
        ensures
            offset == self.spec_load_start(),
    {
        self.loaded_bytes_offset.saturating_sub(self.loaded_length())
    }

    pub fn absolute_read_offset(&self) -> (offset: usize)
        requires
            self.spec_load_start() + self.spec_read_offset() <= usize::MAX,
        ensures
            offset == self.spec_load_start() + self.spec_read_offset(),
    {
        self.absolute_load_start_offset() + self.read_offset
    }

    /// How many bytes have to be loaded before `requested_amount` bytes can be read,
    /// if any: at least the minimum chunk size where that many are left, and no more
    /// than are left.
    pub fn preload_amount(&self, requested_amount: usize) -> (amount: Option<usize>)
        requires
            self.spec_read_offset() + requested_amount <= usize::MAX,
        ensures
            ({
                let remaining = sat_sub(self.spec_normal_len(), self.spec_load_offset() as int);
                let wanted = if requested_amount >= MIN_CHUNK_SIZE { requested_amount as int } else { MIN_CHUNK_SIZE as int };
                if self.spec_read_offset() + requested_amount <= self.spec_loaded().len() || remaining == 0 {
                    amount is None
                } else {
                    amount == Some(min_int(wanted, remaining) as usize)
                }
            }),
    {
        let new_read_offset = self.read_offset + requested_amount;
        let remaining_bytes = self.normal_len().saturating_sub(self.loaded_bytes_offset);

        // Skip preloading if we have enough data for the read, or if there's no more data to read
        if new_read_offset <= self.loaded_bytes.len() || remaining_bytes == 0 {
            return None;
        }

        // Preload at least MIN_CHUNK_SIZE if possible, but not more than the remaining bytes
        let wanted = if requested_amount >= MIN_CHUNK_SIZE { requested_amount } else { MIN_CHUNK_SIZE };
        Some(if wanted <= remaining_bytes { wanted } else { remaining_bytes })
    }

    /// The byte range to load `amount` bytes from the load offset: its first and
    /// last byte, and whether the request asks for the range.
    pub fn load_range(&self, amount: usize) -> (range: (usize, usize, bool))
        requires
            self.spec_load_offset() + amount <= usize::MAX,
        ensures
            range.0 == self.spec_load_offset(),
            range.1 == sat_sub(min_int(self.spec_load_offset() + amount, self.spec_normal_len()), 1),
            range.2 == self.spec_ranged(),
    {
        let start = self.loaded_bytes_offset;
        let normal = self.normal_len();
        let until = if start + amount <= normal { start + amount } else { normal };
        (start, until.saturating_sub(1), self.supports_byte_ranges)
    }

    /// Adds the bytes loaded up to `end`, the last byte of the range asked for.
    pub fn finish_load(&mut self, end: usize, new_bytes: &[u8])
        requires
            end < usize::MAX,
        ensures
            final(self).spec_loaded() == old(self).spec_loaded() + new_bytes@,
            final(self).spec_load_offset() == end + 1,
            final(self).spec_read_offset() == old(self).spec_read_offset(),
            final(self).spec_length() == old(self).spec_length(),
            final(self).spec_ranged() == old(self).spec_ranged(),
            final(self).spec_url() == old(self).spec_url(),
    {
        let mut index: usize = 0;
        let ghost before = self.loaded_bytes@;
        while index < new_bytes.len()
            invariant
                index <= new_bytes@.len(),
                self.loaded_bytes@ == before + new_bytes@.take(index as int),
                self.read_offset == old(self).spec_read_offset(),
                self.length == old(self).spec_length(),
                self.supports_byte_ranges == old(self).spec_ranged(),
                self.url == old(self).spec_url(),
            decreases new_bytes@.len() - index,
        {
            self.loaded_bytes.push(new_bytes[index]);
            index = index + 1;
            assert(self.loaded_bytes@ =~= before + new_bytes@.take(index as int));
        }
        assert(new_bytes@.take(new_bytes@.len() as int) =~= new_bytes@);
        self.loaded_bytes_offset = end + 1;
    }

    /// The absolute offset a seek goes to, with the casts of the platform's integers.
    pub open spec fn seek_target(&self, seek: SeekFrom) -> usize {
        match seek {
            SeekFrom::Current(increment) => (((self.spec_load_start() + self.spec_read_offset()) as usize
                as i64) + increment) as usize,
            SeekFrom::Start(offset) => offset as usize,
            SeekFrom::End(increment) => (((self.spec_normal_len() as usize) as i64) + increment) as usize,
        }
    }

    /// The seek does not overflow the signed offsets it computes with.
    pub open spec fn can_seek(&self, seek: SeekFrom) -> bool {
        &&& self.spec_load_start() + self.spec_read_offset() <= usize::MAX
        &&& match seek {
            SeekFrom::Current(increment) => i64::MIN <= ((self.spec_load_start() + self.spec_read_offset()) as usize
                as i64) + increment <= i64::MAX,
            SeekFrom::Start(_) => true,
            SeekFrom::End(increment) => i64::MIN <= ((self.spec_normal_len() as usize) as i64) + increment
                <= i64::MAX,
        }
    }

    /// Returns true if the seek can be computed without overflowing its offsets.
    pub fn can_seek_to(&self, seek: SeekFrom) -> (possible: bool)
        ensures
            possible == self.can_seek(seek),
    {
        let start = self.absolute_load_start_offset();
        let absolute_read_offset = match start.checked_add(self.read_offset) {
            Some(offset) => offset,
            None => return false,
        };
        match seek {
            SeekFrom::Current(increment) => (absolute_read_offset as i64).checked_add(increment).is_some(),
            SeekFrom::Start(_) => true,
            SeekFrom::End(increment) => (self.normal_len() as i64).checked_add(increment).is_some(),
        }
    }

    /// Returns the offset of the next read within the loaded bytes.
    pub fn read_offset(&self) -> (offset: usize)
        ensures
            offset == self.spec_read_offset(),
    {
        self.read_offset
    }

    /// Returns the absolute offset of the end of the loaded bytes.
    pub fn load_offset(&self) -> (offset: usize)
        ensures
            offset == self.spec_load_offset(),
    {
        self.loaded_bytes_offset
    }

    /// Seeks to a position: within the loaded bytes only the read offset moves,
    /// elsewhere the loaded bytes are dropped and loading starts over from the new
    /// position, kept within the stream's length. Returns that kept position.
    pub fn seek(&mut self, seek: SeekFrom) -> (position: usize)
        requires
            old(self).can_seek(seek),
        ensures
            ({
                let target = old(self).seek_target(seek) as int;
                let start = old(self).spec_load_start();
                let end = old(self).spec_load_offset() as int;
                &&& position == min_int(target, old(self).spec_normal_len())
                &&& (target < start || target > end) ==> {
                    &&& final(self).spec_read_offset() == 0
                    &&& final(self).spec_loaded() == Seq::<u8>::empty()
                    &&& final(self).spec_load_offset() == position
                }
                &&& !(target < start || target > end) ==> {
                    &&& final(self).spec_read_offset() == target - start
                    &&& final(self).spec_loaded() == old(self).spec_loaded()
                    &&& final(self).spec_load_offset() == old(self).spec_load_offset()
                }
            }),
            // The next read starts at the absolute position sought, if it lies within the stream.
            old(self).seek_target(seek) <= old(self).spec_normal_len() ==> final(self).spec_load_start()
                + final(self).spec_read_offset() == old(self).seek_target(seek),
            final(self).spec_length() == old(self).spec_length(),
            final(self).spec_ranged() == old(self).spec_ranged(),
            final(self).spec_url() == old(self).spec_url(),
    {
        let absolute_read_offset = self.absolute_read_offset();
        let absolute_load_start_offset = self.absolute_load_start_offset();
        let absolute_load_end_offset = self.loaded_bytes_offset;
        let normal_len = self.normal_len();

        let new_absolute_read_offset = match seek {
            SeekFrom::Current(increment) => (absolute_read_offset as i64 + increment) as usize,
            SeekFrom::Start(offset) => offset as usize,
            SeekFrom::End(increment) => (normal_len as i64 + increment) as usize,
        };

        let safe_new_offset = if new_absolute_read_offset <= normal_len {
            new_absolute_read_offset
        } else {
            normal_len
        };
        let safe_new_relative_read_offset = new_absolute_read_offset.saturating_sub(absolute_load_start_offset);

        // Reset the loaded bytes if the seek is outside the current loaded range.
        if new_absolute_read_offset < absolute_load_start_offset
            || new_absolute_read_offset > absolute_load_end_offset {
            self.read_offset = 0;
            self.loaded_bytes = Vec::new();
            self.loaded_bytes_offset = safe_new_offset;
        } else {
            self.read_offset = safe_new_relative_read_offset;
        }

        safe_new_offset
    }

    /// Reads the loaded bytes from the read offset into the buffer. The read is
    /// at its end when it cannot fill the buffer.
    pub fn read(&mut self, buf: &mut [u8]) -> (result: ReadResult)
        requires
            old(self).spec_read_offset() + old(buf)@.len() <= usize::MAX,
        ensures
            ({
                let loaded = old(self).spec_loaded();
                let start = min_int(old(self).spec_read_offset() as int, loaded.len() as int);
                let available = loaded.skip(start);
                let amount = min_int(available.len() as int, old(buf)@.len() as int);
                &&& final(buf)@ == available.take(amount) + old(buf)@.skip(amount)
                &&& final(self).spec_read_offset() == old(self).spec_read_offset() + amount
                &&& result == if amount == old(buf)@.len() {
                    ReadResult::More(amount as usize)
                } else {
                    ReadResult::End(amount as usize)
                }
            }),
            final(self).spec_loaded() == old(self).spec_loaded(),
            final(self).spec_load_offset() == old(self).spec_load_offset(),
            final(self).spec_length() == old(self).spec_length(),
            final(self).spec_ranged() == old(self).spec_ranged(),
            final(self).spec_url() == old(self).spec_url(),
    {
        let read_offset = self.read_offset;
        let loaded_length = self.loaded_bytes.len();
        let safe_read_start = if read_offset <= loaded_length { read_offset } else { loaded_length };
        let read_bytes = vstd::slice::slice_subrange(self.loaded_bytes.as_slice(), safe_read_start, loaded_length);

        let amount_written = assign_slice(read_bytes, buf);
        proof {
            assert(read_bytes@ =~= self.loaded_bytes@.skip(safe_read_start as int));
        }
        self.read_offset = read_offset + amount_written;

        if amount_written == buf.len() {
            ReadResult::More(amount_written)
        } else {
            ReadResult::End(amount_written)
        }
    }
}

} // verus!
