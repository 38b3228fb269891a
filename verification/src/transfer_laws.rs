//! What comes back from a device of what was put onto it.

use vstd::prelude::*;

use crate::opencl::{Buffer, BufferRequest, Memory, Program, Stream, Transfer};

verus! {

/// A buffer is made from `s`, its beginning is overwritten by `w`, be it with or without waiting or on
/// a stream, and then some elements are read from it: they are those of `w`, followed by those of `s`
/// that were not overwritten. `layout` gives the bytes of an element, and `found` is what the read
/// leaves in the place of `data`.
pub proof fn transfers_give_back<T>(
    layout: spec_fn(T) -> Seq<u8>,
    memory: Memory,
    program: &Program,
    stream: &Stream,
    buffer: &Buffer<T>,
    request: BufferRequest<T>,
    s: &[T],
    made: Transfer,
    w: &[T],
    wrote: Transfer,
    data: &[T],
    read: Transfer,
    found: Seq<T>,
)
    requires
        crate::opencl::is_layout(layout),
        s@.len() * vstd::layout::size_of::<T>() <= usize::MAX,
        w@.len() <= s@.len(),
        data@.len() <= s@.len(),
        call_ensures(Program::create_buffer_from_slice::<T>, (program, s), request),
        buffer.spec_len() == request.spec_len(),
        memory[buffer.spec_handle()].len() == request.spec_bytes(),
        call_ensures(Program::write_from_buffer::<T>, (program, buffer, s), made),
        call_ensures(Program::write_from_buffer::<T>, (program, buffer, w), wrote) || call_ensures(
            Program::write_from_buffer_async::<T>,
            (program, buffer, w),
            wrote,
        ) || call_ensures(
            Program::write_from_buffer_on_stream::<T>,
            (program, buffer, w, stream),
            wrote,
        ),
        call_ensures(Program::read_into_buffer::<T>, (program, buffer, data), read),
        found.len() == data@.len(),
        crate::opencl::bytes_of(layout, found) == crate::opencl::memory_read(
            crate::opencl::memory_after_write(
                crate::opencl::memory_after_write(
                    memory,
                    made,
                    crate::opencl::bytes_of(layout, s@),
                ),
                wrote,
                crate::opencl::bytes_of(layout, w@),
            ),
            read,
        ),
    ensures
        buffer.spec_len() == s@.len(),
        made.blocking && read.blocking,
        found == (w@ + s@.skip(w@.len() as int)).take(data@.len() as int),
{
    let h = buffer.spec_handle();
    let waiting = crate::opencl::transfer_of::<T>(None, h, w@.len(), true);
    assert(wrote.handle == waiting.handle && wrote.bytes == waiting.bytes);
    crate::opencl::read_gives_back_writes::<T>(layout, memory, h, s@, w@, found);
}

/// Data that is written without waiting is not waited for, and data that is written on a stream goes
/// through that stream and no other.
pub proof fn writes_without_waiting<T>(
    program: &Program,
    stream: &Stream,
    buffer: &Buffer<T>,
    data: &[T],
    later: Transfer,
    on_stream: Transfer,
)
    requires
        call_ensures(Program::write_from_buffer_async::<T>, (program, buffer, data), later),
        call_ensures(
            Program::write_from_buffer_on_stream::<T>,
            (program, buffer, data, stream),
            on_stream,
        ),
    ensures
        !later.blocking && !on_stream.blocking,
        later.queue is None,
        on_stream.queue == Some(stream.handle),
        later.bytes == on_stream.bytes,
        later.handle == buffer.spec_handle() && on_stream.handle == buffer.spec_handle(),
{
}

} // verus!
