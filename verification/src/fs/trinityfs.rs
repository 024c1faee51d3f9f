//! TrinityFS: a small journaling filesystem core (superblock, inodes, journal).
use vstd::prelude::*;
use vstd::string::StringSliceAdditionalSpecFns;

verus! {

/// Block size (4 KiB).
pub const BLOCK_SIZE: u64 = 4096;
/// Maximum filename length.
pub const MAX_FILENAME_LEN: usize = 256;
/// Maximum path length.
pub const MAX_PATH_LEN: usize = 512;
/// Number of inodes.
pub const INODE_COUNT: usize = 1024;
/// Number of journal slots.
pub const JOURNAL_SLOTS: usize = 100;

/// Filesystem superblock.
pub struct Superblock {
    pub magic: u32,
    pub version: u32,
    pub total_blocks: u64,
    pub block_size: u64,
    pub inode_count: u64,
    pub free_block_count: u64,
    pub root_inode: u64,
    pub journal_start: u64,
    pub journal_blocks: u64,
}

impl Superblock {
    /// Superblock of a fresh filesystem; the last 100 blocks hold the journal.
    pub fn new(total_blocks: u64) -> (sb: Self)
        requires
            total_blocks >= 100,
        ensures
            sb.magic == 0x5452494E,
            sb.version == 1,
            sb.total_blocks == total_blocks,
            sb.block_size == BLOCK_SIZE,
            sb.inode_count == 1024,
            sb.free_block_count == total_blocks - 100,
            sb.root_inode == 0,
            sb.journal_start == total_blocks - 100,
            sb.journal_blocks == 100,
    {
        Superblock {
            magic: 0x5452494E,
            version: 1,
            total_blocks,
            block_size: BLOCK_SIZE,
            inode_count: 1024,
            free_block_count: total_blocks - 100,
            root_inode: 0,
            journal_start: total_blocks - 100,
            journal_blocks: 100,
        }
    }
}

/// File types.
#[derive(Debug, Clone, Copy, PartialEq, Eq, Structural)]
pub enum FileType {
    Regular,
    Directory,
    Symlink,
}

/// Inode (file metadata).
#[derive(Clone, Copy)]
pub struct Inode {
    pub inode_num: u64,
    pub size: u64,
    pub block_count: u64,
    pub first_block: u64,
    pub file_type: FileType,
    pub permissions: u16,
    pub uid: u32,
    pub gid: u32,
    pub created: u64,
    pub modified: u64,
    pub accessed: u64,
}

impl Inode {
    /// An unused inode.
    pub fn empty() -> (i: Self)
        ensures
            i == (Inode {
                inode_num: 0,
                size: 0,
                block_count: 0,
                first_block: 0,
                file_type: FileType::Regular,
                permissions: 0,
                uid: 0,
                gid: 0,
                created: 0,
                modified: 0,
                accessed: 0,
            }),
    {
        Inode {
            inode_num: 0,
            size: 0,
            block_count: 0,
            first_block: 0,
            file_type: FileType::Regular,
            permissions: 0,
            uid: 0,
            gid: 0,
            created: 0,
            modified: 0,
            accessed: 0,
        }
    }
}

/// Directory entry.
pub struct DirEntry {
    pub inode: u64,
    pub entry_type: u8,
    pub name_len: u8,
    pub name: [u8; 256],
}

#[verifier::external_body]
fn str_from_utf8(bytes: &[u8]) -> (r: Result<&str, ()>)
    ensures
        r is Ok <==> vstd::utf8::valid_utf8(bytes@),
        r matches Ok(s) ==> s.spec_bytes() == bytes@,
{
    core::str::from_utf8(bytes).map_err(|_e| ())
}

impl DirEntry {
    /// An empty entry.
    pub fn new() -> (e: Self)
        ensures
            e.inode == 0,
            e.entry_type == 0,
            e.name_len == 0,
            e.name@ == Seq::new(256, |i: int| 0u8),
    {
        let e = DirEntry { inode: 0, entry_type: 0, name_len: 0, name: [0; 256] };
        assert(e.name@ =~= Seq::new(256, |i: int| 0u8));
        e
    }

    /// Stores a name, truncated to 256 bytes. The length byte keeps the low eight bits
    /// of the stored length.
    pub fn set_name(&mut self, name: &str)
        ensures
            ({
                let bytes = name.spec_bytes();
                let len = if bytes.len() < 256 { bytes.len() as int } else { 256 };
                &&& final(self).name@.subrange(0, len) == bytes.subrange(0, len)
                &&& final(self).name@.subrange(len, 256) == old(self).name@.subrange(len, 256)
                &&& final(self).name_len == len % 256
            }),
            final(self).inode == old(self).inode,
            final(self).entry_type == old(self).entry_type,
    {
        let bytes = name.as_bytes();
        let len = if bytes.len() < MAX_FILENAME_LEN { bytes.len() } else { MAX_FILENAME_LEN };
        let mut i: usize = 0;
        while i < len
            invariant
                0 <= i <= len,
                len <= 256,
                len <= bytes@.len(),
                bytes@ == name.spec_bytes(),
                self.inode == old(self).inode,
                self.entry_type == old(self).entry_type,
                self.name_len == old(self).name_len,
                forall|j: int| 0 <= j < i ==> self.name@[j] == bytes@[j],
                forall|j: int| i <= j < 256 ==> self.name@[j] == old(self).name@[j],
            decreases len - i,
        {
            self.name[i] = bytes[i];
            i = i + 1;
        }
        self.name_len = (len % 256) as u8;
        proof {
            assert(self.name@.subrange(0, len as int) =~= bytes@.subrange(0, len as int));
            assert(self.name@.subrange(len as int, 256) =~= old(self).name@.subrange(len as int, 256));
        }
    }

    /// The stored name; the empty string when its bytes are not valid UTF-8.
    pub fn name(&self) -> (r: &str)
        ensures
            ({
                let stored = self.name@.subrange(0, self.name_len as int);
                if vstd::utf8::valid_utf8(stored) {
                    r.spec_bytes() == stored
                } else {
                    r.spec_bytes() == Seq::<u8>::empty()
                }
            }),
    {
        let len = self.name_len as usize;
        let stored = vstd::slice::slice_subrange(vstd::array::array_as_slice(&self.name), 0, len);
        match str_from_utf8(stored) {
            Ok(s) => s,
            Err(_) => {
                let e = "";
                proof {
                    reveal_strlit("");
                }
                e
            },
        }
    }
}

/// File flags.
#[derive(Debug, Clone, Copy)]
pub struct FileFlags {
    pub read: bool,
    pub write: bool,
    pub append: bool,
}

impl FileFlags {
    pub fn new(read: bool, write: bool, append: bool) -> (f: Self)
        ensures
            f.read == read,
            f.write == write,
            f.append == append,
    {
        FileFlags { read, write, append }
    }
}

/// File handle.
pub struct File {
    pub inode: Inode,
    pub position: u64,
    pub flags: FileFlags,
}

/// Journal entry types.
#[derive(Debug, Clone, Copy, PartialEq, Eq, Structural)]
pub enum JournalEntryType {
    Metadata,
    Data,
    Commit,
}

/// Journal entry for crash recovery.
#[derive(Clone, Copy)]
pub struct JournalEntry {
    pub transaction_id: u64,
    pub entry_type: JournalEntryType,
    pub block_number: u64,
    pub data: [u8; 4096],
    pub checksum: u32,
}

/// Filesystem error.
#[derive(Debug, Clone, Copy, PartialEq, Eq, Structural)]
pub enum FsError {
    NotFound,
    PermissionDenied,
    OutOfSpace,
    InvalidPath,
    IoError,
}

/// Sum of the first `n` bytes of `s`.
pub open spec fn byte_sum(s: Seq<u8>, n: nat) -> nat
    decreases n,
{
    if n == 0 { 0 } else { byte_sum(s, (n - 1) as nat) + s[n - 1] as nat }
}

/// Checksum of a byte sequence: the byte sum modulo 2^32.
pub open spec fn checksum_of(s: Seq<u8>) -> u32 {
    (byte_sum(s, s.len()) % 0x1_0000_0000) as u32
}

/// The journal block image of `data`: its first 4096 bytes, zero-padded.
pub open spec fn journal_image(data: Seq<u8>) -> Seq<u8> {
    Seq::new(4096, |i: int| if i < data.len() { data[i] } else { 0u8 })
}

/// The filesystem driver state.
pub struct TrinityFS {
    superblock: Superblock,
    inodes: Vec<Inode>,
    free_blocks: Vec<u64>,
    journal: Vec<JournalEntry>,
    next_transaction_id: u64,
}

/// Whether a path names the root directory.
pub open spec fn is_root_path(path: Seq<u8>) -> bool {
    path.len() == 0 || path == seq![0x2Fu8]
}

impl TrinityFS {
    pub closed spec fn wf(&self) -> bool {
        &&& self.inodes@.len() == 1024
        &&& self.free_blocks@.len() == 1024
        &&& self.journal@.len() == 100
    }

    pub closed spec fn inodes(&self) -> Seq<Inode> {
        self.inodes@
    }

    pub closed spec fn free_blocks(&self) -> Seq<u64> {
        self.free_blocks@
    }

    pub closed spec fn journal(&self) -> Seq<JournalEntry> {
        self.journal@
    }

    pub closed spec fn next_transaction(&self) -> u64 {
        self.next_transaction_id
    }

    pub closed spec fn spec_superblock(&self) -> Superblock {
        self.superblock
    }

    /// A filesystem of `total_blocks` blocks with empty inodes, bitmap and journal.
    pub fn new(total_blocks: u64) -> (fs: Self)
        requires
            total_blocks >= 100,
        ensures
            fs.wf(),
            fs.next_transaction() == 1,
            fs.spec_superblock().total_blocks == total_blocks,
            forall|i: int| 0 <= i < 1024 ==> fs.free_blocks()[i] == 0,
            forall|i: int| 0 <= i < 1024 ==> (#[trigger] fs.inodes()[i]).size == 0,
    {
        let mut inodes: Vec<Inode> = Vec::new();
        let mut free_blocks: Vec<u64> = Vec::new();
        let mut i: usize = 0;
        while i < INODE_COUNT
            invariant
                0 <= i <= 1024,
                inodes@.len() == i,
                free_blocks@.len() == i,
                forall|j: int| 0 <= j < i ==> free_blocks@[j] == 0,
                forall|j: int| 0 <= j < i ==> (#[trigger] inodes@[j]).size == 0,
            decreases 1024 - i,
        {
            inodes.push(Inode::empty());
            free_blocks.push(0);
            i = i + 1;
        }
        let mut journal: Vec<JournalEntry> = Vec::new();
        let mut k: usize = 0;
        while k < JOURNAL_SLOTS
            invariant
                0 <= k <= 100,
                journal@.len() == k,
            decreases 100 - k,
        {
            journal.push(
                JournalEntry {
                    transaction_id: 0,
                    entry_type: JournalEntryType::Metadata,
                    block_number: 0,
                    data: [0; 4096],
                    checksum: 0,
                },
            );
            k = k + 1;
        }
        TrinityFS {
            superblock: Superblock::new(total_blocks),
            inodes,
            free_blocks,
            journal,
            next_transaction_id: 1,
        }
    }

    /// Creates the root directory inode and marks blocks 0 and 1 used.
    pub fn init(&mut self)
        requires
            old(self).wf(),
        ensures
            final(self).wf(),
            final(self).inodes() == old(self).inodes().update(
                0,
                Inode {
                    inode_num: 0,
                    size: BLOCK_SIZE,
                    block_count: 1,
                    first_block: 1,
                    file_type: FileType::Directory,
                    permissions: 0o755,
                    uid: 0,
                    gid: 0,
                    created: 0,
                    modified: 0,
                    accessed: 0,
                },
            ),
            final(self).free_blocks() == old(self).free_blocks().update(0, old(self).free_blocks()[0] | 3),
            final(self).journal() == old(self).journal(),
            final(self).next_transaction() == old(self).next_transaction(),
    {
        self.inodes.set(
            0,
            Inode {
                inode_num: 0,
                size: BLOCK_SIZE,
                block_count: 1,
                first_block: 1,
                file_type: FileType::Directory,
                permissions: 0o755,
                uid: 0,
                gid: 0,
                created: 0,
                modified: 0,
                accessed: 0,
            },
        );
        let b = self.free_blocks[0] | 3;
        self.free_blocks.set(0, b);
    }

    /// Resolves a path to an inode number; only the root directory exists.
    pub fn lookup_path(&self, path: &str) -> (r: Result<u64, FsError>)
        ensures
            is_root_path(path.spec_bytes()) ==> r == Ok::<u64, FsError>(0),
            !is_root_path(path.spec_bytes()) ==> r == Err::<u64, FsError>(FsError::NotFound),
    {
        let bytes = path.as_bytes();
        if bytes.len() == 0 || (bytes.len() == 1 && bytes[0] == 0x2F) {
            proof {
                if bytes@.len() == 1 {
                    assert(bytes@ =~= seq![0x2Fu8]);
                }
            }
            return Ok(0);
        }
        Err(FsError::NotFound)
    }

    /// Opens a file at position 0.
    pub fn open(&self, path: &str, flags: FileFlags) -> (r: Result<File, FsError>)
        requires
            self.wf(),
        ensures
            is_root_path(path.spec_bytes()) ==> (r matches Ok(f) && f.inode == self.inodes()[0]
                && f.position == 0 && f.flags == flags),
            !is_root_path(path.spec_bytes()) ==> (r matches Err(e) && e == FsError::NotFound),
    {
        let inode_num = match self.lookup_path(path) {
            Ok(n) => n,
            Err(e) => {
                return Err(e);
            },
        };
        let inode = self.inodes[inode_num as usize];
        Ok(File { inode, position: 0, flags })
    }

    /// Reads from a file into `buffer`. Reads return zero bytes.
    pub fn read(&self, file: &mut File, buffer: &mut [u8]) -> (r: Result<usize, FsError>)
        ensures
            !old(file).flags.read ==> r == Err::<usize, FsError>(FsError::PermissionDenied)
                && *final(file) == *old(file) && final(buffer)@ == old(buffer)@,
            old(file).flags.read && old(file).position >= old(file).inode.size ==> r == Ok::<usize, FsError>(0)
                && *final(file) == *old(file) && final(buffer)@ == old(buffer)@,
            old(file).flags.read && old(file).position < old(file).inode.size ==> {
                let remaining = (old(file).inode.size - old(file).position) as u64;
                let n = if old(buffer)@.len() < remaining as usize { old(buffer)@.len() as int } else { remaining as usize as int };
                &&& r == Ok::<usize, FsError>(n as usize)
                &&& final(buffer)@.len() == old(buffer)@.len()
                &&& forall|i: int| 0 <= i < n ==> final(buffer)@[i] == 0
                &&& forall|i: int| n <= i < old(buffer)@.len() ==> final(buffer)@[i] == old(buffer)@[i]
                &&& final(file).position == old(file).position + n
                &&& final(file).inode == old(file).inode
                &&& final(file).flags == old(file).flags
            },
    {
        if !file.flags.read {
            return Err(FsError::PermissionDenied);
        }
        if file.position >= file.inode.size {
            return Ok(0);
        }
        let remaining = file.inode.size - file.position;
        let to_read = if buffer.len() < remaining as usize { buffer.len() } else { remaining as usize };
        let mut i: usize = 0;
        while i < to_read
            invariant
                0 <= i <= to_read,
                to_read <= buffer@.len(),
                buffer@.len() == old(buffer)@.len(),
                forall|j: int| 0 <= j < i ==> buffer@[j] == 0,
                forall|j: int| i <= j < buffer@.len() ==> buffer@[j] == old(buffer)@[j],
            decreases to_read - i,
        {
            buffer[i] = 0;
            i = i + 1;
        }
        file.position = file.position + to_read as u64;
        Ok(to_read)
    }

    /// Sum of the bytes of `data`, wrapping at 2^32.
    pub fn calculate_checksum(&self, data: &[u8]) -> (r: u32)
        ensures
            r == checksum_of(data@),
    {
        let mut sum: u32 = 0;
        let mut i: usize = 0;
        while i < data.len()
            invariant
                0 <= i <= data@.len(),
                sum == byte_sum(data@, i as nat) % 0x1_0000_0000,
            decreases data@.len() - i,
        {
            proof {
                assert((i + 1) as nat - 1 == i);
            }
            sum = sum.wrapping_add(data[i] as u32);
            i = i + 1;
        }
        sum
    }

    /// Records a data write of `data` to `block` in the next journal slot.
    fn journal_write(&mut self, block: u64, data: &[u8]) -> (r: Result<(), FsError>)
        requires
            old(self).wf(),
            old(self).next_transaction() < u64::MAX,
        ensures
            final(self).wf(),
            r is Ok,
            final(self).next_transaction() == old(self).next_transaction() + 1,
            final(self).inodes() == old(self).inodes(),
            final(self).free_blocks() == old(self).free_blocks(),
            ({
                let slot = (old(self).next_transaction() % 100) as int;
                let image = journal_image(data@);
                &&& final(self).journal() == old(self).journal().update(
                    slot,
                    JournalEntry {
                        transaction_id: old(self).next_transaction(),
                        entry_type: JournalEntryType::Data,
                        block_number: block,
                        data: final(self).journal()[slot].data,
                        checksum: checksum_of(image),
                    },
                )
                &&& final(self).journal()[slot].data@ == image
            }),
    {
        let entry_index = (self.next_transaction_id % 100) as usize;
        let mut entry_data = [0u8; 4096];
        let copy_len = if data.len() < 4096 { data.len() } else { 4096 };
        let mut i: usize = 0;
        while i < copy_len
            invariant
                0 <= i <= copy_len,
                copy_len <= 4096,
                copy_len == if data@.len() < 4096 { data@.len() as usize } else { 4096usize },
                forall|j: int| 0 <= j < i ==> entry_data@[j] == data@[j],
                forall|j: int| i <= j < 4096 ==> entry_data@[j] == 0,
            decreases copy_len - i,
        {
            entry_data[i] = data[i];
            i = i + 1;
        }
        proof {
            assert(entry_data@ =~= journal_image(data@));
        }
        let checksum = self.calculate_checksum(&entry_data);
        self.journal.set(
            entry_index,
            JournalEntry {
                transaction_id: self.next_transaction_id,
                entry_type: JournalEntryType::Data,
                block_number: block,
                data: entry_data,
                checksum,
            },
        );
        self.next_transaction_id = self.next_transaction_id + 1;
        Ok(())
    }

    /// Writes `data` to a file: journals it, then grows the file and advances the position.
    pub fn write(&mut self, file: &mut File, data: &[u8]) -> (r: Result<usize, FsError>)
        requires
            old(self).wf(),
            old(self).next_transaction() < u64::MAX,
            old(file).inode.size + data@.len() <= u64::MAX,
            old(file).position + data@.len() <= u64::MAX,
        ensures
            final(self).wf(),
            !old(file).flags.write ==> r == Err::<usize, FsError>(FsError::PermissionDenied)
                && *final(self) == *old(self) && *final(file) == *old(file),
            old(file).flags.write ==> {
                let slot = (old(self).next_transaction() % 100) as int;
                &&& r == Ok::<usize, FsError>(data@.len() as usize)
                &&& final(file).inode.size == old(file).inode.size + data@.len()
                &&& final(file).position == old(file).position + data@.len()
                &&& final(self).next_transaction() == old(self).next_transaction() + 1
                &&& final(self).journal()[slot].transaction_id == old(self).next_transaction()
                &&& final(self).journal()[slot].block_number == old(file).inode.first_block
                &&& final(self).journal()[slot].data@ == journal_image(data@)
                &&& final(self).journal()[slot].checksum == checksum_of(journal_image(data@))
            },
    {
        if !file.flags.write {
            return Err(FsError::PermissionDenied);
        }
        match self.journal_write(file.inode.first_block, data) {
            Ok(_) => {},
            Err(e) => {
                return Err(e);
            },
        }
        file.inode.size = file.inode.size + data.len() as u64;
        file.position = file.position + data.len() as u64;
        Ok(data.len())
    }

    /// Closes a file.
    pub fn close(&self, file: &File) -> (r: Result<(), FsError>)
        ensures
            r is Ok,
    {
        Ok(())
    }

    /// Replays committed journal transactions on mount.
    pub fn replay_journal(&mut self) -> (r: Result<(), FsError>)
        ensures
            r is Ok,
            *final(self) == *old(self),
    {
        Ok(())
    }
}

} // verus!
