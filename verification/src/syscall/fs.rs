//! File and filesystem-related system calls.

use vstd::prelude::*;

verus! {

/// An open file in a descriptor table, with the access it was opened for.
pub struct OpenFile<F> {
    /// the file object
    pub file: F,
    /// whether it may be read
    pub readable: bool,
    /// whether it may be written
    pub writable: bool,
}

/// Descriptor `fd` names an open file of `table`.
pub open spec fn fd_open<F>(table: Seq<Option<F>>, fd: int) -> bool {
    0 <= fd < table.len() && table[fd] is Some
}

/// The lowest free descriptor of `table`, or the next one past its end
/// when none is free.
pub open spec fn lowest_free_fd<F>(table: Seq<Option<F>>, fd: int) -> bool {
    &&& 0 <= fd <= table.len()
    &&& fd < table.len() ==> table[fd] is None
    &&& forall|k: int| 0 <= k < fd ==> #[trigger] table[k] is Some
}

/// Finds the lowest free descriptor, growing the table by one free slot
/// when every descriptor is taken.
fn alloc_fd<F>(fd_table: &mut Vec<Option<F>>) -> (fd: usize)
    requires
        old(fd_table).len() < usize::MAX,
    ensures
        lowest_free_fd(old(fd_table)@, fd as int),
        fd < final(fd_table).len(),
        final(fd_table)[fd as int] is None,
        fd < old(fd_table).len() ==> final(fd_table)@ == old(fd_table)@,
        fd == old(fd_table).len() ==> final(fd_table)@ == old(fd_table)@.push(None),
{
    let n = fd_table.len();
    for fd in 0..n
        invariant
            n == fd_table.len(),
            forall|k: int| 0 <= k < fd ==> #[trigger] fd_table@[k] is Some,
    {
        if fd_table[fd].is_none() {
            return fd;
        }
    }
    fd_table.push(None);
    n
}

/// The file to write to through descriptor `fd`: an error `-1` when `fd`
/// is past the table, free, or not open for writing.
pub fn sys_write<F>(fd_table: &Vec<Option<OpenFile<F>>>, fd: usize) -> (res: Result<&F, isize>)
    ensures
        match res {
            Ok(file) => {
                &&& fd_open(fd_table@, fd as int)
                &&& fd_table@[fd as int]->Some_0.writable
                &&& *file == fd_table@[fd as int]->Some_0.file
            },
            Err(code) => {
                &&& code == -1
                &&& !(fd_open(fd_table@, fd as int) && fd_table@[fd as int]->Some_0.writable)
            },
        },
{
    if fd >= fd_table.len() {
        return Err(-1);
    }
    match &fd_table[fd] {
        Some(entry) => {
            if !entry.writable {
                return Err(-1);
            }
            Ok(&entry.file)
        },
        None => Err(-1),
    }
}

/// The file to read from through descriptor `fd`: an error `-1` when `fd`
/// is past the table, free, or not open for reading.
pub fn sys_read<F>(fd_table: &Vec<Option<OpenFile<F>>>, fd: usize) -> (res: Result<&F, isize>)
    ensures
        match res {
            Ok(file) => {
                &&& fd_open(fd_table@, fd as int)
                &&& fd_table@[fd as int]->Some_0.readable
                &&& *file == fd_table@[fd as int]->Some_0.file
            },
            Err(code) => {
                &&& code == -1
                &&& !(fd_open(fd_table@, fd as int) && fd_table@[fd as int]->Some_0.readable)
            },
        },
{
    if fd >= fd_table.len() {
        return Err(-1);
    }
    match &fd_table[fd] {
        Some(entry) => {
            if !entry.readable {
                return Err(-1);
            }
            Ok(&entry.file)
        },
        None => Err(-1),
    }
}

/// Installs the file that opening the path gave (if any) at the lowest
/// free descriptor and returns that descriptor; `-1` when the path could
/// not be opened, with the table unchanged.
pub fn sys_open<F>(fd_table: &mut Vec<Option<F>>, opened: Option<F>) -> (res: isize)
    requires
        old(fd_table).len() < isize::MAX,
    ensures
        opened is None ==> res == -1 && final(fd_table)@ == old(fd_table)@,
        opened is Some ==> {
            &&& 0 <= res
            &&& lowest_free_fd(old(fd_table)@, res as int)
            &&& final(fd_table)@ == (if res < old(fd_table).len() { old(fd_table)@ } else { old(fd_table)@.push(None) }).update(res as int, opened)
        },
{
    match opened {
        Some(inode) => {
            let fd = alloc_fd(fd_table);
            fd_table[fd] = Some(inode);
            fd as isize
        },
        None => -1,
    }
}

/// Frees descriptor `fd`: `0` when it named an open file, `-1` (and no
/// change) when it is past the table or already free.
pub fn sys_close<F>(fd_table: &mut Vec<Option<F>>, fd: usize) -> (res: isize)
    ensures
        fd_open(old(fd_table)@, fd as int) ==> res == 0 && final(fd_table)@ == old(fd_table)@.update(fd as int, None),
        !fd_open(old(fd_table)@, fd as int) ==> res == -1 && final(fd_table)@ == old(fd_table)@,
{
    if fd >= fd_table.len() {
        return -1;
    }
    if fd_table[fd].is_none() {
        return -1;
    }
    fd_table[fd] = None;
    0
}

/// The file whose status descriptor `fd` asks for: an error `-1` when `fd`
/// is past the table, is one of the three standard streams, or is free.
pub fn sys_fstat<F>(fd_table: &Vec<Option<F>>, fd: usize) -> (res: Result<&F, isize>)
    ensures
        match res {
            Ok(file) => {
                &&& fd_open(fd_table@, fd as int)
                &&& fd > 2
                &&& *file == fd_table@[fd as int]->Some_0
            },
            Err(code) => code == -1 && !(fd_open(fd_table@, fd as int) && fd > 2),
        },
{
    if fd >= fd_table.len() {
        return Err(-1);
    }
    if fd == 0 || fd == 1 || fd == 2 {
        return Err(-1);
    }
    match &fd_table[fd] {
        Some(file) => Ok(file),
        None => Err(-1),
    }
}

/// Copies `bytes` to the start of the first buffer, or, when the first is
/// shorter, fills the first buffer and puts the rest at the start of the
/// second. Nothing else of the buffers changes.
pub fn copy_to_buffers(buffers: &mut Vec<Vec<u8>>, bytes: &Vec<u8>)
    requires
        old(buffers).len() >= 1,
        old(buffers)@[0].len() < bytes.len() ==> {
            &&& old(buffers).len() >= 2
            &&& old(buffers)@[1].len() >= bytes.len() - old(buffers)@[0].len()
        },
    ensures
        final(buffers).len() == old(buffers).len(),
        forall|b: int| 0 <= b < final(buffers).len() ==> (#[trigger] final(buffers)@[b]).len() == old(buffers)@[b].len(),
        old(buffers)@[0].len() >= bytes.len() ==> {
            &&& final(buffers)@[0]@ == bytes@ + old(buffers)@[0]@.skip(bytes.len() as int)
            &&& forall|b: int| 1 <= b < final(buffers).len() ==> #[trigger] final(buffers)@[b] == old(buffers)@[b]
        },
        old(buffers)@[0].len() < bytes.len() ==> {
            let first = old(buffers)@[0].len() as int;
            &&& final(buffers)@[0]@ == bytes@.take(first)
            &&& final(buffers)@[1]@ == bytes@.skip(first) + old(buffers)@[1]@.skip(bytes.len() - first)
            &&& forall|b: int| 2 <= b < final(buffers).len() ==> #[trigger] final(buffers)@[b] == old(buffers)@[b]
        },
{
    let n = bytes.len();
    let first = buffers[0].len();
    if first < n {
        for k in 0..first
            invariant
                n == bytes.len(),
                first == old(buffers)@[0].len(),
                first < n,
                old(buffers).len() >= 1,
                buffers.len() == old(buffers).len(),
                buffers@[0].len() == first,
                forall|m: int| 0 <= m < k ==> #[trigger] buffers@[0]@[m] == bytes@[m],
                forall|b: int| 1 <= b < buffers.len() ==> #[trigger] buffers@[b] == old(buffers)@[b],
        {
            let x = bytes[k];
            buffers[0][k] = x;
        }
        assert(buffers@[0]@ =~= bytes@.take(first as int));
        let ghost buf0 = buffers@[0];
        for k in first..n
            invariant
                n == bytes.len(),
                first == old(buffers)@[0].len(),
                first < n,
                buffers.len() == old(buffers).len(),
                old(buffers).len() >= 2,
                old(buffers)@[1].len() >= n - first,
                buffers@[0] == buf0,
                buffers@[1].len() == old(buffers)@[1].len(),
                forall|m: int| 0 <= m < k - first ==> #[trigger] buffers@[1]@[m] == bytes@[m + first],
                forall|m: int| k - first <= m < buffers@[1].len() ==> #[trigger] buffers@[1]@[m] == old(buffers)@[1]@[m],
                forall|b: int| 2 <= b < buffers.len() ==> #[trigger] buffers@[b] == old(buffers)@[b],
        {
            let x = bytes[k];
            buffers[1][k - first] = x;
        }
        assert(buffers@[1]@ =~= bytes@.skip(first as int) + old(buffers)@[1]@.skip(n - first));
    } else {
        for k in 0..n
            invariant
                n == bytes.len(),
                first == old(buffers)@[0].len(),
                n <= first,
                old(buffers).len() >= 1,
                buffers.len() == old(buffers).len(),
                buffers@[0].len() == first,
                forall|m: int| 0 <= m < k ==> #[trigger] buffers@[0]@[m] == bytes@[m],
                forall|m: int| k <= m < first ==> #[trigger] buffers@[0]@[m] == old(buffers)@[0]@[m],
                forall|b: int| 1 <= b < buffers.len() ==> #[trigger] buffers@[b] == old(buffers)@[b],
        {
            let x = bytes[k];
            buffers[0][k] = x;
        }
        assert(buffers@[0]@ =~= bytes@ + old(buffers)@[0]@.skip(n as int));
    }
}

/// Closing the descriptor that opening a file has just returned frees it
/// again: the table is as before, save for the free slot that opening may
/// have added at its end.
pub proof fn law_close_undoes_open<F>(table: Seq<Option<F>>, file: F, fd: int)
    requires
        lowest_free_fd(table, fd),
    ensures
        ({
            let grown = if fd < table.len() { table } else { table.push(None) };
            let opened = grown.update(fd, Some(file));
            &&& fd_open(opened, fd)
            &&& opened.update(fd, None) == grown
        }),
{
    let grown = if fd < table.len() { table } else { table.push(None) };
    assert(grown[fd] is None);
    assert(grown.update(fd, Some(file)).update(fd, None) =~= grown);
}

} // verus!
