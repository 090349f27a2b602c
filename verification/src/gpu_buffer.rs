//! The host's copy of a device buffer, and what an upload asks of the device.

use vstd::prelude::*;

verus! {

/// The largest size of an element in bytes: with it twice the bytes of
/// as many elements as 32 bits can number still fit 64 bits.
pub const MAX_ELEMENT_SIZE: u64 = 0x8000_0000;

/// The work that the device does for one upload.
#[derive(Clone, Copy, Debug, PartialEq, Eq, Structural)]
pub struct Upload {
    /// The size in bytes of a new, larger buffer that takes the place of
    /// the old one; `None` where the old one has room.
    pub new_capacity_bytes: Option<u64>,
    /// Number of bytes to copy from the start of the old buffer to the new one.
    pub copy_bytes: u64,
    /// Offset in bytes at which the new items are written.
    pub write_offset: u64,
    /// Number of items to write, the last ones of the host's copy.
    pub write_len: usize,
}

/// The upload after `added` items were appended to a buffer that now holds
/// `len` items of `elem_size` bytes and has room for `capacity_bytes`
/// bytes: a buffer of twice the needed size where the room is too small,
/// which takes over the old items, and the new items behind the old ones.
pub open spec fn upload_of(len: int, added: int, elem_size: int, capacity_bytes: int) -> Upload {
    let needed = len * elem_size;
    let kept = (len - added) * elem_size;
    if needed > capacity_bytes {
        Upload {
            new_capacity_bytes: Some((2 * needed) as u64),
            copy_bytes: kept as u64,
            write_offset: kept as u64,
            write_len: added as usize,
        }
    } else {
        Upload {
            new_capacity_bytes: None,
            copy_bytes: 0,
            write_offset: kept as u64,
            write_len: added as usize,
        }
    }
}

/// The size of the buffer after an upload.
pub open spec fn capacity_after(upload: Upload, capacity_bytes: u64) -> u64 {
    match upload.new_capacity_bytes {
        Some(bytes) => bytes,
        None => capacity_bytes,
    }
}

/// A buffer of the device and the host's copy of what it holds.
pub struct GpuBuffer<T> {
    data: Vec<T>,
    capacity_bytes: u64,
    elem_size: u64,
}

impl<T: Copy> GpuBuffer<T> {
    /// The host's copy of the items.
    pub closed spec fn view(&self) -> Seq<T> {
        self.data@
    }

    /// Size of the device buffer in bytes.
    pub closed spec fn capacity(&self) -> u64 {
        self.capacity_bytes
    }

    /// Size of one item in bytes.
    pub closed spec fn element_size(&self) -> u64 {
        self.elem_size
    }

    /// The items fit the device buffer and can be numbered with 32 bits.
    pub open spec fn well_formed(&self) -> bool {
        &&& 1 <= self.element_size() <= MAX_ELEMENT_SIZE
        &&& self@.len() <= u32::MAX
        &&& self@.len() * self.element_size() <= self.capacity()
    }

    /// A buffer with room for `capacity` items of `elem_size` bytes, which
    /// holds `data`.  An item of no size counts as one byte.
    pub fn new(data: Vec<T>, capacity: usize, elem_size: usize) -> (buffer: Self)
        requires
            data.len() <= capacity <= u32::MAX,
            elem_size <= MAX_ELEMENT_SIZE,
        ensures
            buffer.well_formed(),
            buffer@ == data@,
            buffer.element_size() == if elem_size == 0 {
                1
            } else {
                elem_size as int
            },
            buffer.capacity() == capacity * buffer.element_size(),
    {
        let elem_size: u64 = if elem_size == 0 {
            1
        } else {
            elem_size as u64
        };
        assert(capacity * elem_size <= 0xFFFF_FFFF * 0x8000_0000) by (nonlinear_arith)
            requires
                0 <= capacity <= 0xFFFF_FFFF,
                0 <= elem_size <= 0x8000_0000,
        ;
        assert(data.len() * elem_size <= capacity * elem_size) by (nonlinear_arith)
            requires
                data.len() <= capacity,
                elem_size >= 0,
        ;
        GpuBuffer { data, capacity_bytes: capacity as u64 * elem_size, elem_size }
    }

    /// Appends `value` and says what to upload.
    pub fn push(&mut self, value: T) -> (upload: Upload)
        requires
            old(self).well_formed(),
            old(self)@.len() < u32::MAX,
        ensures
            final(self).well_formed(),
            final(self)@ == old(self)@.push(value),
            final(self).element_size() == old(self).element_size(),
            upload == upload_of(
                final(self)@.len() as int,
                1,
                old(self).element_size() as int,
                old(self).capacity() as int,
            ),
            final(self).capacity() == capacity_after(upload, old(self).capacity()),
    {
        self.data.push(value);
        self.upload(1)
    }

    /// Appends `values` and says what to upload.
    pub fn push_all(&mut self, values: &Vec<T>) -> (upload: Upload)
        requires
            old(self).well_formed(),
            old(self)@.len() + values.len() <= u32::MAX,
        ensures
            final(self).well_formed(),
            final(self)@ == old(self)@ + values@,
            final(self).element_size() == old(self).element_size(),
            upload == upload_of(
                final(self)@.len() as int,
                values.len() as int,
                old(self).element_size() as int,
                old(self).capacity() as int,
            ),
            final(self).capacity() == capacity_after(upload, old(self).capacity()),
    {
        let mut i: usize = 0;
        while i < values.len()
            invariant
                i <= values.len(),
                self.data@ == old(self).data@ + values@.take(i as int),
                self.capacity_bytes == old(self).capacity_bytes,
                self.elem_size == old(self).elem_size,
            decreases values.len() - i,
        {
            let value: T = values[i];
            self.data.push(value);
            assert(values@.take(i + 1) =~= values@.take(i as int).push(values[i as int]));
            i += 1;
        }
        assert(values@.take(values.len() as int) =~= values@);
        self.upload(values.len())
    }

    /// Number of items.
    pub fn len(&self) -> (len: usize)
        ensures
            len == self@.len(),
    {
        self.data.len()
    }

    /// What the device does after `total_elems_added` items were appended
    /// to the host's copy; takes over the size of a new buffer.
    fn upload(&mut self, total_elems_added: usize) -> (upload: Upload)
        requires
            1 <= old(self).elem_size <= MAX_ELEMENT_SIZE,
            total_elems_added <= old(self).data.len() <= u32::MAX,
            (old(self).data.len() - total_elems_added) * old(self).elem_size
                <= old(self).capacity_bytes,
        ensures
            final(self).data == old(self).data,
            final(self).elem_size == old(self).elem_size,
            upload == upload_of(
                old(self).data.len() as int,
                total_elems_added as int,
                old(self).elem_size as int,
                old(self).capacity_bytes as int,
            ),
            final(self).capacity_bytes == capacity_after(upload, old(self).capacity_bytes),
            final(self).data.len() * final(self).elem_size <= final(self).capacity_bytes,
    {
        let elem_size: u64 = self.elem_size;
        let len: u64 = self.data.len() as u64;
        let kept: u64 = (self.data.len() - total_elems_added) as u64;
        assert(len * elem_size <= 0xFFFF_FFFF * 0x8000_0000 && kept * elem_size <= len * elem_size)
            by (nonlinear_arith)
            requires
                0 <= kept <= len <= 0xFFFF_FFFF,
                0 <= elem_size <= 0x8000_0000,
        ;
        let needed_bytes: u64 = len * elem_size;
        let current_capacity: u64 = self.capacity_bytes;
        let slice_start_bytes: u64 = kept * elem_size;
        if needed_bytes > current_capacity {
            // need a bigger buffer: double the capacity
            let new_capacity_bytes: u64 = needed_bytes * 2;
            self.capacity_bytes = new_capacity_bytes;
            Upload {
                new_capacity_bytes: Some(new_capacity_bytes),
                copy_bytes: slice_start_bytes,
                write_offset: slice_start_bytes,
                write_len: total_elems_added,
            }
        } else {
            Upload {
                new_capacity_bytes: None,
                copy_bytes: 0,
                write_offset: slice_start_bytes,
                write_len: total_elems_added,
            }
        }
    }

    /// Replaces the item at `index`.  The whole buffer is written again.
    pub fn replace_elem(&mut self, new_data: T, index: usize)
        requires
            old(self).well_formed(),
            index < old(self)@.len(),
        ensures
            final(self).well_formed(),
            final(self)@ == old(self)@.update(index as int, new_data),
            final(self).capacity() == old(self).capacity(),
            final(self).element_size() == old(self).element_size(),
    {
        self.data.set(index, new_data);
    }

    /// The host's copy of the items.
    pub fn data(&self) -> (data: &Vec<T>)
        ensures
            data@ == self@,
    {
        &self.data
    }

    /// Size of the device buffer in bytes.
    pub fn capacity_bytes(&self) -> (bytes: u64)
        ensures
            bytes == self.capacity(),
    {
        self.capacity_bytes
    }
}

/// An upload never shrinks the buffer, copies no more than the old buffer
/// held, and leaves room for all items.
pub proof fn lemma_upload_fits(len: int, added: int, elem_size: int, capacity_bytes: int)
    requires
        0 <= added <= len <= u32::MAX,
        1 <= elem_size <= MAX_ELEMENT_SIZE,
        (len - added) * elem_size <= capacity_bytes <= u64::MAX,
    ensures
        capacity_after(upload_of(len, added, elem_size, capacity_bytes), capacity_bytes as u64)
            >= capacity_bytes,
        capacity_after(upload_of(len, added, elem_size, capacity_bytes), capacity_bytes as u64)
            >= len * elem_size,
        upload_of(len, added, elem_size, capacity_bytes).copy_bytes <= capacity_bytes,
        upload_of(len, added, elem_size, capacity_bytes).write_offset + added * elem_size == len
            * elem_size,
{
    assert(len * elem_size <= 0xFFFF_FFFF * 0x8000_0000 && 0 <= (len - added) * elem_size <= len
        * elem_size && (len - added) * elem_size + added * elem_size == len * elem_size)
        by (nonlinear_arith)
        requires
            0 <= added <= len <= 0xFFFF_FFFF,
            0 <= elem_size <= 0x8000_0000,
    ;
}

} // verus!
