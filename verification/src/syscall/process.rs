//! Process management syscalls

use crate::config::{FAILURE, PAGE_SIZE};
use crate::mm::{
    MapPermission, PageTable, PageTableEntry, PageTableState, StoreSpec, UserWrite,
};
use crate::word::{to_signed, to_word_bytes};
use vstd::prelude::*;

verus! {

/// Whether user mode may read, or write, all of a range.
pub fn user_range_is_accessible(
    page_table: &PageTable,
    start: usize,
    len: usize,
    writable: bool,
) -> (accessible: bool)
    requires
        crate::mm::range_in_reach(page_table@.entries, start as int, len as int, writable),
    ensures
        accessible == crate::mm::range_accessible(
            page_table@.entries,
            start as int,
            len as int,
            writable,
        ),
        len == 0 ==> accessible,
        accessible && len > 0 ==> start + len <= usize::MAX,
        forall|vpn: usize|
            #![trigger page_table@.entries.contains_key(vpn)]
            #![trigger page_table@.entries[vpn]]
            accessible && len > 0 && start / 4096 <= vpn && vpn * 4096 < start + len
                ==> page_table@.entries.contains_key(vpn) && page_table@.entries[vpn].valid
                && page_table@.entries[vpn].flags.u && (writable ==> page_table@.entries[vpn].flags.w)
                && (!writable ==> page_table@.entries[vpn].flags.r),
        len > 0 && start + len <= usize::MAX && !accessible ==> exists|vpn: usize|
            #![trigger page_table@.entries.contains_key(vpn)]
            #![trigger page_table@.entries[vpn]]
            start / 4096 <= vpn && vpn * 4096 < start + len && !(
            page_table@.entries.contains_key(vpn) && page_table@.entries[vpn].valid
                && page_table@.entries[vpn].flags.u && (writable ==> page_table@.entries[vpn].flags.w)
                && (!writable ==> page_table@.entries[vpn].flags.r)),
{
    proof {
        crate::mm::law_range_is_accessible_by_pages(page_table@.entries, start, len, writable);
    }
    if len == 0 {
        return true;
    }
    let end: usize = match start.checked_add(len) {
        Some(end) => end,
        None => return false,
    };
    let mut cur: usize = start;
    while cur < end
        invariant
            start <= cur <= end,
            end == start + len,
            crate::mm::range_in_reach(page_table@.entries, start as int, len as int, writable),
            forall|a: int|
                start <= a < cur ==> #[trigger] crate::mm::byte_accessible(
                    page_table@.entries,
                    a,
                    writable,
                ),
            cur < end ==> cur == start || cur % PAGE_SIZE == 0,
        decreases end - cur,
    {
        let vpn: usize = cur / PAGE_SIZE;
        let pte: PageTableEntry = match page_table.translate(vpn) {
            Some(pte) => pte,
            None => {
                assert(!crate::mm::byte_accessible(page_table@.entries, cur as int, writable));
                return false;
            },
        };
        if !pte.valid || !pte.flags.u || (writable && !pte.flags.w) || (!writable && !pte.flags.r) {
            assert(!crate::mm::byte_accessible(page_table@.entries, cur as int, writable));
            return false;
        }
        assert forall|a: int| cur <= a < (vpn + 1) * PAGE_SIZE && a < end implies #[trigger]
            crate::mm::byte_accessible(page_table@.entries, a, writable) by {
            assert(a / PAGE_SIZE as int == vpn);
        }
        assert((vpn + 1) * PAGE_SIZE <= usize::MAX);
        let next_page: usize = (vpn + 1) * PAGE_SIZE;
        cur = if next_page < end {
            next_page
        } else {
            end
        };
    }
    true
}

/// Whether [`user_range_is_accessible`] can be asked about a range.
pub fn user_range_is_in_reach(
    page_table: &PageTable,
    start: usize,
    len: usize,
    writable: bool,
) -> (in_reach: bool)
    ensures
        in_reach == crate::mm::range_in_reach(page_table@.entries, start as int, len as int, writable),
{
    let last_page: usize = usize::MAX - PAGE_SIZE + 1;
    if len == 0 {
        return true;
    }
    let end: usize = match start.checked_add(len) {
        Some(end) => end,
        None => return true,
    };
    if end <= last_page {
        return true;
    }
    assert(last_page % PAGE_SIZE == 0);
    if start < last_page && !user_range_is_accessible(
        page_table,
        start,
        last_page - start,
        writable,
    ) {
        return true;
    }
    let permitted: bool = match page_table.translate(last_page / PAGE_SIZE) {
        Some(pte) => pte.valid && pte.flags.u && (if writable {
            pte.flags.w
        } else {
            pte.flags.r
        }),
        None => false,
    };
    proof {
        assert forall|a: int| last_page <= a < end implies #[trigger] crate::mm::byte_accessible(
            page_table@.entries,
            a,
            writable,
        ) == permitted by {
            assert(a / PAGE_SIZE as int == last_page / PAGE_SIZE);
        }
        assert(crate::mm::byte_accessible(page_table@.entries, end - 1, writable) == permitted);
    }
    !permitted
}

/// A point in time.
#[derive(Clone, Copy, PartialEq, Eq, Structural, Debug)]
pub struct TimeVal {
    /// Whole seconds.
    pub sec: usize,
    /// Microseconds of the current second.
    pub usec: usize,
}

impl TimeVal {
    /// The value as it lies in memory.
    pub open spec fn bytes(self) -> Seq<u8> {
        crate::word::word_bytes(self.sec) + crate::word::word_bytes(self.usec)
    }

    /// The time `now_us` microseconds after the start.
    pub open spec fn of_us(now_us: usize) -> TimeVal {
        TimeVal { sec: now_us / 1_000_000, usec: now_us % 1_000_000 }
    }

    /// The time `now_us` microseconds after the start.
    pub fn from_us(now_us: usize) -> (time: Self)
        ensures
            time == TimeVal::of_us(now_us),
            time.usec < 1_000_000,
            time.sec * 1_000_000 + time.usec == now_us,
    {
        TimeVal { sec: now_us / 1_000_000, usec: now_us % 1_000_000 }
    }

    /// The value as it lies in memory.
    pub fn to_bytes(&self) -> (bytes: Vec<u8>)
        ensures
            bytes@ == self.bytes(),
            bytes@.len() == 2 * vstd::layout::size_of::<usize>(),
            crate::word::le_value(bytes@.take(vstd::layout::size_of::<usize>() as int)) == self.sec,
            crate::word::le_value(bytes@.skip(vstd::layout::size_of::<usize>() as int))
                == self.usec,
    {
        proof {
            crate::word::law_word_round_trip(self.sec);
            crate::word::law_word_round_trip(self.usec);
        }
        let mut bytes: Vec<u8> = to_word_bytes(self.sec);
        let mut usec: Vec<u8> = to_word_bytes(self.usec);
        let ghost first = bytes@;
        let ghost second = usec@;
        bytes.append(&mut usec);
        assert(bytes@.take(first.len() as int) =~= first);
        assert(bytes@.skip(first.len() as int) =~= second);
        bytes
    }
}

/// No microsecond is lost: a time is at most a second's worth of microseconds past its seconds,
/// and the two make up the time it was taken from. Both are read back from the bytes of the time,
/// a word each.
pub proof fn law_time_is_exact(now_us: usize)
    ensures
        TimeVal::of_us(now_us).usec < 1_000_000,
        TimeVal::of_us(now_us).sec * 1_000_000 + TimeVal::of_us(now_us).usec == now_us,
        ({
            let word = vstd::layout::size_of::<usize>() as int;
            let bytes = TimeVal::of_us(now_us).bytes();
            let sec = crate::word::le_value(bytes.subrange(0, word));
            let usec = crate::word::le_value(bytes.subrange(word, 2 * word));
            &&& bytes.len() == 2 * word
            &&& sec * 1_000_000 + usec == now_us
            &&& 0 <= usec < 1_000_000
            &&& forall|i: int|
                0 <= i < word ==> #[trigger] bytes[i] == (now_us as int / 1_000_000
                    / vstd::arithmetic::power::pow(256, i as nat)) % 256
            &&& forall|i: int|
                0 <= i < word ==> #[trigger] bytes[word + i] == (now_us as int % 1_000_000
                    / vstd::arithmetic::power::pow(256, i as nat)) % 256
        }),
{
    let word = vstd::layout::size_of::<usize>() as int;
    let time = TimeVal::of_us(now_us);
    let bytes = time.bytes();
    crate::word::law_word_round_trip(time.sec);
    crate::word::law_word_round_trip(time.usec);
    crate::word::law_word_bytes_are_digits(time.sec);
    crate::word::law_word_bytes_are_digits(time.usec);
    assert(bytes.subrange(0, word) =~= crate::word::word_bytes(time.sec));
    assert(bytes.subrange(word, 2 * word) =~= crate::word::word_bytes(time.usec));
    assert forall|i: int| 0 <= i < word implies #[trigger] bytes[i] == (now_us as int / 1_000_000
        / vstd::arithmetic::power::pow(256, i as nat)) % 256 by {
        assert(bytes[i] == crate::word::word_bytes(time.sec)[i]);
    }
    assert forall|i: int| 0 <= i < word implies #[trigger] bytes[word + i] == (now_us as int
        % 1_000_000 / vstd::arithmetic::power::pow(256, i as nat)) % 256 by {
        assert(bytes[word + i] == crate::word::word_bytes(time.usec)[i]);
    }
}

/// Time never runs backwards: of two times that are stored, the later one has the later second, or
/// the same second and the later microsecond.
pub proof fn law_time_is_ordered(earlier: usize, later: usize)
    requires
        earlier < later,
    ensures
        ({
            let word = vstd::layout::size_of::<usize>() as int;
            let a = TimeVal::of_us(earlier).bytes();
            let b = TimeVal::of_us(later).bytes();
            let sec_a = crate::word::le_value(a.subrange(0, word));
            let sec_b = crate::word::le_value(b.subrange(0, word));
            let usec_a = crate::word::le_value(a.subrange(word, 2 * word));
            let usec_b = crate::word::le_value(b.subrange(word, 2 * word));
            sec_a < sec_b || sec_a == sec_b && usec_a < usec_b
        }),
{
    law_time_is_exact(earlier);
    law_time_is_exact(later);
}

/// The permission that a port number of `mmap` stands for: its three lowest bits allow reading,
/// writing and executing, at least one is set, and no other is.
pub open spec fn port_permission(port: usize) -> Option<MapPermission> {
    if 1 <= port <= 7 {
        Some(
            MapPermission {
                r: port % 2 == 1,
                w: port / 2 % 2 == 1,
                x: port / 4 % 2 == 1,
                u: true,
            },
        )
    } else {
        None
    }
}

/// Decodes a port number of `mmap`.
pub fn mmap_permission(port: usize) -> (permission: Option<MapPermission>)
    ensures
        permission == port_permission(port),
        permission is Some <==> port != 0 && port & !7usize == 0,
        permission matches Some(p) ==> {
            &&& p.r <==> port & 1usize != 0
            &&& p.w <==> port & 2usize != 0
            &&& p.x <==> port & 4usize != 0
            &&& p.u
        },
{
    assert((port & !0x7usize != 0) == (port > 7)) by (bit_vector);
    assert((port & 0x1usize != 0) == (port % 2 == 1)) by (bit_vector);
    assert((port & 0x2usize != 0) == (port / 2 % 2 == 1)) by (bit_vector);
    assert((port & 0x4usize != 0) == (port / 4 % 2 == 1)) by (bit_vector);
    if port & !0x7usize != 0 || port == 0 {
        return None;
    }
    let mut permission = MapPermission { r: false, w: false, x: false, u: true };
    if port & 0x1usize != 0 {
        permission.r = true;
    }
    if port & 0x2usize != 0 {
        permission.w = true;
    }
    if port & 0x4usize != 0 {
        permission.x = true;
    }
    Some(permission)
}

/// The rights that a port number gives are its three lowest bits, each for itself: the number can
/// be read back from them. User mode always gets them, and other numbers give none.
pub proof fn law_port_is_read_back(port: usize)
    ensures
        port_permission(port) is Some <==> 0 < port < 8,
        port_permission(port) matches Some(p) ==> {
            &&& port == (if p.r {
                1int
            } else {
                0
            }) + (if p.w {
                2int
            } else {
                0
            }) + (if p.x {
                4int
            } else {
                0
            })
            &&& p.u
        },
{
}

/// What the scheduler does at the end of a call.
#[derive(Clone, Copy, PartialEq, Eq, Structural, Debug)]
pub enum SchedStep {
    /// Other tasks run; when this one runs again, the call returns the result.
    Suspend {
        /// The result of the call.
        result: isize,
    },
    /// The task ends with the exit code, and the call never returns.
    Exit {
        /// The exit code of the task.
        code: i32,
    },
}

/// task exits and submit an exit code
pub fn sys_exit(exit_code: i32) -> (step: SchedStep)
    ensures
        step == (SchedStep::Exit { code: exit_code }),
{
    SchedStep::Exit { code: exit_code }
}

/// current task gives up resources for other tasks
pub fn sys_yield() -> (step: SchedStep)
    ensures
        step == (SchedStep::Suspend { result: 0 }),
{
    SchedStep::Suspend { result: 0 }
}

/// How `get_time` goes on.
pub enum TimeStep {
    /// The call returns.
    Return(isize),
    /// The bytes are stored in the user's address space, and [`sys_get_time_done`] ends the call.
    Store(UserWrite),
}

/// Write the current time into a user `TimeVal`.
pub fn sys_get_time(page_table: &PageTable, ts: usize, _tz: usize, now_us: usize) -> (step: TimeStep)
    requires
        crate::mm::range_in_reach(
            page_table@.entries,
            ts as int,
            2 * crate::word::word_size() as int,
            true,
        ),
    ensures
        match step {
            TimeStep::Return(code) => code == FAILURE && !crate::mm::range_accessible(
                page_table@.entries,
                ts as int,
                2 * crate::word::word_size() as int,
                true,
            ),
            TimeStep::Store(write) => {
                &&& crate::mm::range_accessible(
                    page_table@.entries,
                    ts as int,
                    2 * crate::word::word_size() as int,
                    true,
                )
                &&& write.token == page_table@.token
                &&& write.addr == ts
                &&& write.bytes@ == TimeVal::of_us(now_us).bytes()
                &&& ({
                    let word = vstd::layout::size_of::<usize>() as int;
                    let sec = crate::word::le_value(write.bytes@.subrange(0, word));
                    let usec = crate::word::le_value(write.bytes@.subrange(word, 2 * word));
                    &&& write.bytes@.len() == 2 * word
                    &&& sec * 1_000_000 + usec == now_us
                    &&& 0 <= usec < 1_000_000
                })
            },
        },
{
    proof {
        law_time_is_exact(now_us);
    }
    broadcast use vstd::layout::layout_of_primitives;

    let size: usize = 2 * core::mem::size_of::<usize>();
    if !user_range_is_accessible(page_table, ts, size, true) {
        return TimeStep::Return(FAILURE);
    }
    let time_val = TimeVal::from_us(now_us);
    TimeStep::Store(UserWrite { token: page_table.token(), addr: ts, bytes: time_val.to_bytes() })
}

/// The result of `get_time` once the time is stored.
pub fn sys_get_time_done() -> (code: isize)
    ensures
        code == 0,
{
    0
}

/// How `trace` goes on.
#[derive(Clone, Copy, PartialEq, Eq, Structural, Debug)]
pub enum TraceStep {
    /// The call returns.
    Return(isize),
    /// The byte at the user address is read and handed to [`sys_trace_read`].
    ReadByte {
        /// Token of the address space.
        token: usize,
        /// Where the byte is.
        addr: usize,
    },
    /// The byte is stored at the user address, and [`sys_trace_written`] ends the call.
    WriteByte {
        /// Token of the address space.
        token: usize,
        /// Where the byte goes.
        addr: usize,
        /// The byte.
        value: u8,
    },
}

/// The first step of `trace`, given the page table of the task and how often it has made the
/// syscall asked about, if that is counted.
pub open spec fn trace_start(
    table: PageTableState,
    trace_request: usize,
    id: usize,
    data: usize,
    count: Option<usize>,
) -> TraceStep {
    if trace_request == 0 && crate::mm::range_accessible(table.entries, id as int, 1, false) {
        TraceStep::ReadByte { token: table.token, addr: id }
    } else if trace_request == 1 && crate::mm::range_accessible(
        table.entries,
        id as int,
        1,
        true,
    ) {
        TraceStep::WriteByte { token: table.token, addr: id, value: (data % 256) as u8 }
    } else if trace_request == 2 && count is Some {
        TraceStep::Return(crate::word::signed(count->0) as isize)
    } else {
        TraceStep::Return(FAILURE)
    }
}

/// Read/write a user byte or query syscall invocation counts.
///
/// `count` is how often the current task has made syscall `id`, if that is counted.
pub fn sys_trace(
    page_table: &PageTable,
    trace_request: usize,
    id: usize,
    data: usize,
    count: Option<usize>,
) -> (step: TraceStep)
    requires
        trace_request <= 1 ==> crate::mm::range_in_reach(
            page_table@.entries,
            id as int,
            1,
            trace_request == 1,
        ),
    ensures
        step == trace_start(page_table@, trace_request, id, data, count),
        ({
            let vpn = id / 4096;
            let mapped = id < usize::MAX && page_table@.entries.contains_key(vpn)
                && page_table@.entries[vpn].valid && page_table@.entries[vpn].flags.u;
            &&& step is ReadByte <==> trace_request == 0 && mapped && page_table@.entries[vpn].flags.r
            &&& step is WriteByte <==> trace_request == 1 && mapped
                && page_table@.entries[vpn].flags.w
            &&& step matches TraceStep::ReadByte { token, addr } ==> token == page_table@.token
                && addr == id
            &&& step matches TraceStep::WriteByte { token, addr, value } ==> token
                == page_table@.token && addr == id && (data - value) % 256 == 0
            &&& step matches TraceStep::Return(code) ==> code == if trace_request == 2
                && count is Some {
                crate::word::signed(count->0)
            } else {
                -1
            }
        }),
{
    proof {
        crate::mm::law_byte_is_accessible_by_page(page_table@.entries, id, false);
        crate::mm::law_byte_is_accessible_by_page(page_table@.entries, id, true);
    }
    match trace_request {
        0 => {
            if !user_range_is_accessible(page_table, id, 1, false) {
                return TraceStep::Return(FAILURE);
            }
            TraceStep::ReadByte { token: page_table.token(), addr: id }
        },
        1 => {
            if !user_range_is_accessible(page_table, id, 1, true) {
                return TraceStep::Return(FAILURE);
            }
            TraceStep::WriteByte { token: page_table.token(), addr: id, value: (data % 256) as u8 }
        },
        2 => match count {
            Some(count) => TraceStep::Return(to_signed(count)),
            None => TraceStep::Return(FAILURE),
        },
        _ => TraceStep::Return(FAILURE),
    }
}

/// The result of a `trace` call that has read a byte.
pub fn sys_trace_read(byte: u8) -> (code: isize)
    ensures
        code == byte,
{
    byte as isize
}

/// The result of a `trace` call that has written a byte.
pub fn sys_trace_written() -> (code: isize)
    ensures
        code == 0,
{
    0
}

/// Where a byte of a task may be read and written, what `trace` writes at an address it reads back
/// there, up to the lowest byte of the data, and no other byte changes.
pub proof fn law_trace_reads_what_it_wrote(
    mem: spec_fn(int) -> u8,
    table: PageTableState,
    addr: usize,
    data: usize,
    other: usize,
    count: Option<usize>,
)
    requires
        crate::mm::range_accessible(table.entries, addr as int, 1, false),
        crate::mm::range_accessible(table.entries, addr as int, 1, true),
    ensures
        ({
            let value = (data % 256) as u8;
            let after = crate::mm::store(
                mem,
                StoreSpec { token: table.token, addr: addr as int, bytes: seq![value] },
            );
            &&& trace_start(table, 1, addr, data, count) == (TraceStep::WriteByte {
                token: table.token,
                addr,
                value,
            })
            &&& trace_start(table, 0, addr, other, count) == (TraceStep::ReadByte {
                token: table.token,
                addr,
            })
            &&& after(addr as int) == data % 256
            &&& forall|a: int| a != addr ==> #[trigger] after(a) == mem(a)
        }),
{
}

/// How `mmap` goes on.
#[derive(Clone, Copy, PartialEq, Eq, Structural, Debug)]
pub enum MapStep {
    /// The call returns.
    Return(isize),
    /// The pages of the range are mapped, and [`sys_mmap_done`] is told whether that worked.
    MapPages {
        /// Start of the range.
        start: usize,
        /// Bytes of the range.
        len: usize,
        /// What the pages may be used for.
        permission: MapPermission,
    },
}

/// Map anonymous user pages.
pub fn sys_mmap(start: usize, len: usize, port: usize) -> (step: MapStep)
    ensures
        step == if start % PAGE_SIZE != 0 || port_permission(port) is None {
            MapStep::Return(FAILURE)
        } else if len == 0 {
            MapStep::Return(0)
        } else {
            MapStep::MapPages { start, len, permission: port_permission(port)->0 }
        },
        step is MapPages <==> start % 4096 == 0 && port != 0 && port & !7usize == 0 && len > 0,
        step matches MapStep::MapPages { start: from, len: bytes, permission: p } ==> {
            &&& from == start && bytes == len
            &&& p.r <==> port & 1usize != 0
            &&& p.w <==> port & 2usize != 0
            &&& p.x <==> port & 4usize != 0
            &&& p.u
        },
        step matches MapStep::Return(code) ==> code == if start % 4096 == 0 && port != 0 && port
            & !7usize == 0 {
            0
        } else {
            -1int
        },
{
    proof {
        assert((port & !7usize == 0) == (port <= 7)) by (bit_vector);
        assert((port & 1usize != 0) == (port % 2 == 1)) by (bit_vector);
        assert((port & 2usize != 0) == (port / 2 % 2 == 1)) by (bit_vector);
        assert((port & 4usize != 0) == (port / 4 % 2 == 1)) by (bit_vector);
    }
    if start % PAGE_SIZE != 0 {
        return MapStep::Return(FAILURE);
    }
    let permission: MapPermission = match mmap_permission(port) {
        Some(permission) => permission,
        None => return MapStep::Return(FAILURE),
    };
    if len == 0 {
        return MapStep::Return(0);
    }
    MapStep::MapPages { start, len, permission }
}

/// The result of `mmap`, given whether the pages were mapped.
pub fn sys_mmap_done(mapped: bool) -> (code: isize)
    ensures
        code == if mapped {
            0
        } else {
            FAILURE
        },
{
    if mapped {
        0
    } else {
        FAILURE
    }
}

/// How `munmap` goes on.
#[derive(Clone, Copy, PartialEq, Eq, Structural, Debug)]
pub enum UnmapStep {
    /// The call returns.
    Return(isize),
    /// The pages of the range are unmapped, and [`sys_munmap_done`] is told whether that worked.
    UnmapPages {
        /// Start of the range.
        start: usize,
        /// Bytes of the range.
        len: usize,
    },
}

/// Unmap anonymous user pages.
pub fn sys_munmap(start: usize, len: usize) -> (step: UnmapStep)
    ensures
        step == if start % PAGE_SIZE != 0 {
            UnmapStep::Return(FAILURE)
        } else if len == 0 {
            UnmapStep::Return(0)
        } else {
            UnmapStep::UnmapPages { start, len }
        },
        step is UnmapPages <==> start % 4096 == 0 && len > 0,
        step matches UnmapStep::UnmapPages { start: from, len: bytes } ==> from == start && bytes
            == len,
        step matches UnmapStep::Return(code) ==> code == if start % 4096 == 0 {
            0
        } else {
            -1int
        },
{
    if start % PAGE_SIZE != 0 {
        return UnmapStep::Return(FAILURE);
    }
    if len == 0 {
        return UnmapStep::Return(0);
    }
    UnmapStep::UnmapPages { start, len }
}

/// The result of `munmap`, given whether the pages were unmapped.
pub fn sys_munmap_done(unmapped: bool) -> (code: isize)
    ensures
        code == if unmapped {
            0
        } else {
            FAILURE
        },
{
    if unmapped {
        0
    } else {
        FAILURE
    }
}

/// A change of the data segment, which the kernel makes before [`sys_sbrk_done`].
#[derive(Clone, Copy, PartialEq, Eq, Structural, Debug)]
pub struct BrkChange {
    /// By how many bytes the segment grows, or shrinks if negative.
    pub size: i32,
}

/// change data segment size
pub fn sys_sbrk(size: i32) -> (change: BrkChange)
    ensures
        change.size == size,
{
    BrkChange { size }
}

/// The result of `sbrk`: where the segment ended before, if the change was made.
pub fn sys_sbrk_done(old_brk: Option<usize>) -> (code: isize)
    ensures
        code == match old_brk {
            Some(brk) => crate::word::signed(brk),
            None => FAILURE as int,
        },
        old_brk is None ==> code + 1 == 0,
        old_brk matches Some(brk) ==> code == brk || code + usize::MAX + 1 == brk,
{
    match old_brk {
        Some(brk) => to_signed(brk),
        None => FAILURE,
    }
}

} // verus!
