//! ELF64 binary loader: header validation and program-header loading.
use vstd::prelude::*;
use crate::le::{get_u16, get_u32, get_u64, le16, le32, le64, lemma_le_bounds};

verus! {

/// ELF class: 64-bit objects.
pub const ELFCLASS64: u8 = 2;
/// ELF data encoding: little endian.
pub const ELFDATA2LSB: u8 = 1;
/// ELF OS/ABI: System V.
pub const ELFOSABI_NONE: u8 = 0;
/// ELF type: executable.
pub const ET_EXEC: u16 = 2;
/// ELF type: shared object.
pub const ET_DYN: u16 = 3;
/// ELF machine: x86_64.
pub const EM_X86_64: u16 = 62;
/// Program header type of a loadable segment.
pub const PT_LOAD: u32 = 1;
/// Size in bytes of an ELF64 file header.
pub const ELF64_HEADER_SIZE: usize = 64;
/// Size in bytes of an ELF64 program header.
pub const ELF64_PHDR_SIZE: usize = 56;
/// Page size used for segment rounding.
pub const PAGE_SIZE: u64 = 4096;

/// ELF64 file header.
#[derive(Debug, Clone, Copy)]
pub struct Elf64Header {
    pub e_ident: [u8; 16],
    pub e_type: u16,
    pub e_machine: u16,
    pub e_version: u32,
    pub e_entry: u64,
    pub e_phoff: u64,
    pub e_shoff: u64,
    pub e_flags: u32,
    pub e_ehsize: u16,
    pub e_phentsize: u16,
    pub e_phnum: u16,
    pub e_shentsize: u16,
    pub e_shnum: u16,
    pub e_shstrndx: u16,
}

/// ELF64 program header.
#[derive(Debug, Clone, Copy)]
pub struct Elf64ProgramHeader {
    pub p_type: u32,
    pub p_flags: u32,
    pub p_offset: u64,
    pub p_vaddr: u64,
    pub p_paddr: u64,
    pub p_filesz: u64,
    pub p_memsz: u64,
    pub p_align: u64,
}

/// ELF loading error.
#[derive(Debug, Clone, Copy, PartialEq, Eq, Structural)]
pub enum ElfError {
    TooSmall,
    BadMagic,
    WrongClass,
    WrongEndian,
    WrongArch,
    WrongType,
    InvalidHeader,
    InvalidProgramHeader,
    SegmentOutOfBounds,
    InvalidAlignment,
}

/// Loaded segment.
#[derive(Debug, Clone, Copy)]
pub struct LoadedSegment {
    pub vaddr: u64,
    pub memsz: u64,
    pub filesz: u64,
    pub flags: u32,
}

/// Loaded ELF program.
#[derive(Debug)]
pub struct LoadedElf {
    pub entry: u64,
    pub segments: Vec<LoadedSegment>,
}

/// The header that the first 64 bytes of `s` encode.
pub open spec fn header_of(s: Seq<u8>) -> Elf64Header {
    Elf64Header {
        e_ident: arbitrary(),
        e_type: le16(s, 16) as u16,
        e_machine: le16(s, 18) as u16,
        e_version: le32(s, 20) as u32,
        e_entry: le64(s, 24) as u64,
        e_phoff: le64(s, 32) as u64,
        e_shoff: le64(s, 40) as u64,
        e_flags: le32(s, 48) as u32,
        e_ehsize: le16(s, 52) as u16,
        e_phentsize: le16(s, 54) as u16,
        e_phnum: le16(s, 56) as u16,
        e_shentsize: le16(s, 58) as u16,
        e_shnum: le16(s, 60) as u16,
        e_shstrndx: le16(s, 62) as u16,
    }
}

/// `h` is the header that the first 64 bytes of `s` encode.
pub open spec fn decodes_header(s: Seq<u8>, h: Elf64Header) -> bool {
    &&& h.e_ident@ == s.subrange(0, 16)
    &&& h.e_type == le16(s, 16)
    &&& h.e_machine == le16(s, 18)
    &&& h.e_version == le32(s, 20)
    &&& h.e_entry == le64(s, 24)
    &&& h.e_phoff == le64(s, 32)
    &&& h.e_shoff == le64(s, 40)
    &&& h.e_flags == le32(s, 48)
    &&& h.e_ehsize == le16(s, 52)
    &&& h.e_phentsize == le16(s, 54)
    &&& h.e_phnum == le16(s, 56)
    &&& h.e_shentsize == le16(s, 58)
    &&& h.e_shnum == le16(s, 60)
    &&& h.e_shstrndx == le16(s, 62)
}

/// `p` is the program header that the 56 bytes of `s` at `off` encode.
pub open spec fn decodes_phdr(s: Seq<u8>, off: int, p: Elf64ProgramHeader) -> bool {
    &&& p.p_type == le32(s, off)
    &&& p.p_flags == le32(s, off + 4)
    &&& p.p_offset == le64(s, off + 8)
    &&& p.p_vaddr == le64(s, off + 16)
    &&& p.p_paddr == le64(s, off + 24)
    &&& p.p_filesz == le64(s, off + 32)
    &&& p.p_memsz == le64(s, off + 40)
    &&& p.p_align == le64(s, off + 48)
}

impl Elf64Header {
    /// Decodes the file header stored little-endian in the first 64 bytes of `data`.
    pub fn from_bytes(data: &[u8]) -> (h: Elf64Header)
        requires
            data@.len() >= 64,
        ensures
            decodes_header(data@, h),
    {
        let mut e_ident = [0u8; 16];
        let mut i: usize = 0;
        while i < 16
            invariant
                0 <= i <= 16,
                data@.len() >= 64,
                forall|j: int| 0 <= j < i ==> e_ident@[j] == data@[j],
            decreases 16 - i,
        {
            e_ident[i] = data[i];
            i = i + 1;
        }
        assert(e_ident@ =~= data@.subrange(0, 16));
        Elf64Header {
            e_ident,
            e_type: get_u16(data, 16),
            e_machine: get_u16(data, 18),
            e_version: get_u32(data, 20),
            e_entry: get_u64(data, 24),
            e_phoff: get_u64(data, 32),
            e_shoff: get_u64(data, 40),
            e_flags: get_u32(data, 48),
            e_ehsize: get_u16(data, 52),
            e_phentsize: get_u16(data, 54),
            e_phnum: get_u16(data, 56),
            e_shentsize: get_u16(data, 58),
            e_shnum: get_u16(data, 60),
            e_shstrndx: get_u16(data, 62),
        }
    }
}

impl Elf64ProgramHeader {
    /// Decodes the program header stored little-endian at `off` in `data`.
    pub fn from_bytes(data: &[u8], off: usize) -> (p: Elf64ProgramHeader)
        requires
            off + 56 <= data.len(),
        ensures
            decodes_phdr(data@, off as int, p),
    {
        Elf64ProgramHeader {
            p_type: get_u32(data, off),
            p_flags: get_u32(data, off + 4),
            p_offset: get_u64(data, off + 8),
            p_vaddr: get_u64(data, off + 16),
            p_paddr: get_u64(data, off + 24),
            p_filesz: get_u64(data, off + 32),
            p_memsz: get_u64(data, off + 40),
            p_align: get_u64(data, off + 48),
        }
    }
}

/// The verdict of header validation on an identification block and header fields.
pub open spec fn header_check(ident: Seq<u8>, e_type: u16, e_machine: u16) -> Result<(), ElfError> {
    if !(ident[0] == 0x7f && ident[1] == 0x45 && ident[2] == 0x4c && ident[3] == 0x46) {
        Err(ElfError::BadMagic)
    } else if ident[4] != ELFCLASS64 {
        Err(ElfError::WrongClass)
    } else if ident[5] != ELFDATA2LSB {
        Err(ElfError::WrongEndian)
    } else if ident[6] != 1 {
        Err(ElfError::InvalidHeader)
    } else if e_type != ET_EXEC && e_type != ET_DYN {
        Err(ElfError::WrongType)
    } else if e_machine != EM_X86_64 {
        Err(ElfError::WrongArch)
    } else {
        Ok(())
    }
}

/// Validates the identification and type fields of an ELF header.
pub fn validate_elf(data: &[u8], header: &Elf64Header) -> (r: Result<(), ElfError>)
    ensures
        r == header_check(header.e_ident@, header.e_type, header.e_machine),
{
    let id = &header.e_ident;
    if !(id[0] == 0x7f && id[1] == 0x45 && id[2] == 0x4c && id[3] == 0x46) {
        return Err(ElfError::BadMagic);
    }
    if id[4] != ELFCLASS64 {
        return Err(ElfError::WrongClass);
    }
    if id[5] != ELFDATA2LSB {
        return Err(ElfError::WrongEndian);
    }
    if id[6] != 1 {
        return Err(ElfError::InvalidHeader);
    }
    if header.e_type != ET_EXEC && header.e_type != ET_DYN {
        return Err(ElfError::WrongType);
    }
    if header.e_machine != EM_X86_64 {
        return Err(ElfError::WrongArch);
    }
    Ok(())
}

/// Outcome of one program header during loading.
pub enum PhdrStep {
    Skip,
    Load(LoadedSegment),
    Fail(ElfError),
}

/// What loading does with the program header `p` of a file of `len` bytes.
pub open spec fn phdr_step(p: Elf64ProgramHeader, len: int) -> PhdrStep {
    if p.p_type != PT_LOAD {
        PhdrStep::Skip
    } else if p.p_offset + p.p_filesz > u64::MAX {
        PhdrStep::Fail(ElfError::SegmentOutOfBounds)
    } else if p.p_offset + p.p_filesz > len {
        PhdrStep::Fail(ElfError::SegmentOutOfBounds)
    } else if p.p_align != 0 && p.p_vaddr % p.p_align != 0 {
        PhdrStep::Fail(ElfError::InvalidAlignment)
    } else {
        PhdrStep::Load(
            LoadedSegment { vaddr: p.p_vaddr, memsz: p.p_memsz, filesz: p.p_filesz, flags: p.p_flags },
        )
    }
}

/// `seg` is what a loadable program header `p` of a file of `len` bytes
/// describes: a PT_LOAD entry whose file bytes lie inside the file and whose
/// address respects its alignment, with the same address, sizes and flags.
pub open spec fn header_loads(p: Elf64ProgramHeader, seg: LoadedSegment, len: int) -> bool {
    &&& p.p_type == PT_LOAD
    &&& p.p_offset + p.p_filesz <= len
    &&& (p.p_align == 0 || p.p_vaddr % p.p_align == 0)
    &&& seg.vaddr == p.p_vaddr
    &&& seg.memsz == p.p_memsz
    &&& seg.filesz == p.p_filesz
    &&& seg.flags == p.p_flags
}

/// Loading one program header: a loaded segment copies the header's
/// address, file and memory sizes and flags; a PT_LOAD header whose bytes fit
/// in the file and whose address is aligned is loaded; any other header
/// type is skipped.
pub proof fn law_phdr_step_copies_header(p: Elf64ProgramHeader, len: int)
    ensures
        phdr_step(p, len) matches PhdrStep::Load(seg) ==> header_loads(p, seg, len),
        p.p_type != PT_LOAD ==> phdr_step(p, len) is Skip,
        p.p_type == PT_LOAD && p.p_offset + p.p_filesz <= len && len <= u64::MAX && (p.p_align == 0 || p.p_vaddr % p.p_align == 0)
            ==> phdr_step(p, len) is Load,
{
}

/// The program header that the bytes of `s` at `off` encode.
pub open spec fn phdr_at(s: Seq<u8>, off: int) -> Elf64ProgramHeader {
    Elf64ProgramHeader {
        p_type: le32(s, off) as u32,
        p_flags: le32(s, off + 4) as u32,
        p_offset: le64(s, off + 8) as u64,
        p_vaddr: le64(s, off + 16) as u64,
        p_paddr: le64(s, off + 24) as u64,
        p_filesz: le64(s, off + 32) as u64,
        p_memsz: le64(s, off + 40) as u64,
        p_align: le64(s, off + 48) as u64,
    }
}

/// Segments loaded from the first `n` program headers of table `phoff`, or the first error.
pub open spec fn segments_upto(s: Seq<u8>, phoff: int, n: nat) -> Result<Seq<LoadedSegment>, ElfError>
    decreases n,
{
    if n == 0 {
        Ok(Seq::empty())
    } else {
        match segments_upto(s, phoff, (n - 1) as nat) {
            Err(e) => Err(e),
            Ok(segs) => match phdr_step(phdr_at(s, phoff + (n - 1) * 56), s.len() as int) {
                PhdrStep::Skip => Ok(segs),
                PhdrStep::Load(seg) => Ok(segs.push(seg)),
                PhdrStep::Fail(e) => Err(e),
            },
        }
    }
}

/// The result of loading the ELF file `s`: the entry point and segments, or the error.
pub open spec fn load_result(s: Seq<u8>) -> Result<(u64, Seq<LoadedSegment>), ElfError> {
    if s.len() < 64 {
        Err(ElfError::TooSmall)
    } else {
        let h = header_of(s);
        match header_check(s.subrange(0, 16), h.e_type, h.e_machine) {
            Err(e) => Err(e),
            Ok(_) => if h.e_phentsize != 56 {
                Err(ElfError::InvalidProgramHeader)
            } else if h.e_phoff + h.e_phnum * 56 > u64::MAX {
                Err(ElfError::InvalidHeader)
            } else if h.e_phoff + h.e_phnum * 56 > s.len() {
                Err(ElfError::SegmentOutOfBounds)
            } else {
                match segments_upto(s, h.e_phoff as int, h.e_phnum as nat) {
                    Err(e) => Err(e),
                    Ok(segs) => Ok((h.e_entry, segs)),
                }
            },
        }
    }
}

/// `seg` is loaded from one of the program headers of the ELF file `s`.
pub open spec fn loaded_from_table(s: Seq<u8>, seg: LoadedSegment) -> bool {
    exists|i: int|
        0 <= i < header_of(s).e_phnum && #[trigger] header_loads(header_entry(s, header_of(s).e_phoff as int, i), seg, s.len() as int)
}

/// Program header `i` of the table at `phoff`.
pub open spec fn header_entry(s: Seq<u8>, phoff: int, i: int) -> Elf64ProgramHeader {
    phdr_at(s, phoff + i * 56)
}

proof fn lemma_segment_from_header(s: Seq<u8>, phoff: int, n: nat, segs: Seq<LoadedSegment>, k: int)
    requires
        segments_upto(s, phoff, n) == Ok::<Seq<LoadedSegment>, ElfError>(segs),
        0 <= k < segs.len(),
    ensures
        exists|i: int| 0 <= i < n && #[trigger] header_loads(header_entry(s, phoff, i), segs[k], s.len() as int),
    decreases n,
{
    if n == 0 {
        assert(segments_upto(s, phoff, 0) == Ok::<Seq<LoadedSegment>, ElfError>(Seq::empty()));
    } else {
        let m = (n - 1) as nat;
        lemma_segments_step(s, phoff, m);
        assert(m + 1 == n);
        let p = header_entry(s, phoff, m as int);
        assert(p == phdr_at(s, phoff + m * 56));
        law_phdr_step_copies_header(p, s.len() as int);
        match segments_upto(s, phoff, m) {
            Err(_) => {},
            Ok(prev) => {
                match phdr_step(p, s.len() as int) {
                    PhdrStep::Skip => {
                        assert(segs == prev);
                        lemma_segment_from_header(s, phoff, m, prev, k);
                    },
                    PhdrStep::Load(seg) => {
                        assert(segs == prev.push(seg));
                        if k < prev.len() {
                            lemma_segment_from_header(s, phoff, m, prev, k);
                            assert(segs[k] == prev[k]);
                        } else {
                            assert(segs[k] == seg);
                            assert(header_loads(header_entry(s, phoff, m as int), segs[k], s.len() as int));
                        }
                    },
                    PhdrStep::Fail(_) => {},
                }
            },
        }
    }
}

/// Every segment a successful load returns comes from one of the file's
/// program headers: a PT_LOAD entry inside the file, with the segment's
/// address, file size, memory size and flags copied from it.
pub proof fn law_loaded_segments_copy_headers(s: Seq<u8>, entry: u64, segs: Seq<LoadedSegment>)
    requires
        load_result(s) == Ok::<(u64, Seq<LoadedSegment>), ElfError>((entry, segs)),
    ensures
        forall|k: int| 0 <= k < segs.len() ==> loaded_from_table(s, #[trigger] segs[k]),
{
    let h = header_of(s);
    assert(segments_upto(s, h.e_phoff as int, h.e_phnum as nat) == Ok::<Seq<LoadedSegment>, ElfError>(segs));
    assert forall|k: int| 0 <= k < segs.len() implies loaded_from_table(s, #[trigger] segs[k]) by {
        lemma_segment_from_header(s, h.e_phoff as int, h.e_phnum as nat, segs, k);
    }
}

proof fn lemma_segments_step(s: Seq<u8>, phoff: int, i: nat)
    ensures
        segments_upto(s, phoff, i + 1) == match segments_upto(s, phoff, i) {
            Err(e) => Err(e),
            Ok(segs) => match phdr_step(phdr_at(s, phoff + i * 56), s.len() as int) {
                PhdrStep::Skip => Ok(segs),
                PhdrStep::Load(seg) => Ok(segs.push(seg)),
                PhdrStep::Fail(e) => Err(e),
            },
        },
{
    assert((i + 1) as nat - 1 == i);
}

proof fn lemma_segments_error_sticks(s: Seq<u8>, phoff: int, k: nat, m: nat)
    requires
        k <= m,
        segments_upto(s, phoff, k) is Err,
    ensures
        segments_upto(s, phoff, m) == segments_upto(s, phoff, k),
    decreases m - k,
{
    if k < m {
        lemma_segments_error_sticks(s, phoff, k, (m - 1) as nat);
        lemma_segments_step(s, phoff, (m - 1) as nat);
    }
}

/// Decides what loading does with one program header.
pub fn classify_phdr(ph: &Elf64ProgramHeader, len: usize) -> (r: PhdrStep)
    ensures
        r == phdr_step(*ph, len as int),
        r matches PhdrStep::Load(seg) ==> header_loads(*ph, seg, len as int),
        ph.p_type != PT_LOAD ==> r is Skip,
{
    proof {
        law_phdr_step_copies_header(*ph, len as int);
    }
    if ph.p_type != PT_LOAD {
        return PhdrStep::Skip;
    }
    let segment_end = match ph.p_offset.checked_add(ph.p_filesz) {
        Some(v) => v,
        None => {
            return PhdrStep::Fail(ElfError::SegmentOutOfBounds);
        },
    };
    if segment_end > len as u64 {
        return PhdrStep::Fail(ElfError::SegmentOutOfBounds);
    }
    if ph.p_align != 0 && (ph.p_vaddr % ph.p_align) != 0 {
        return PhdrStep::Fail(ElfError::InvalidAlignment);
    }
    PhdrStep::Load(
        LoadedSegment { vaddr: ph.p_vaddr, memsz: ph.p_memsz, filesz: ph.p_filesz, flags: ph.p_flags },
    )
}

proof fn lemma_phdr_decoded(s: Seq<u8>, off: int, p: Elf64ProgramHeader)
    requires
        decodes_phdr(s, off, p),
    ensures
        p == phdr_at(s, off),
{
    lemma_le_bounds(s, off);
    lemma_le_bounds(s, off + 4);
    lemma_le_bounds(s, off + 8);
    lemma_le_bounds(s, off + 16);
    lemma_le_bounds(s, off + 24);
    lemma_le_bounds(s, off + 32);
    lemma_le_bounds(s, off + 40);
    lemma_le_bounds(s, off + 48);
}

/// Validates and loads an ELF binary held in `data`.
pub fn load_elf(data: &[u8]) -> (r: Result<LoadedElf, ElfError>)
    ensures
        match (r, load_result(data@)) {
            (Ok(elf), Ok((entry, segs))) => elf.entry == entry && elf.segments@ == segs,
            (Err(e1), Err(e2)) => e1 == e2,
            _ => false,
        },
        r matches Ok(elf) ==> forall|k: int| 0 <= k < elf.segments@.len() ==> loaded_from_table(data@, #[trigger] elf.segments@[k]),
{
    if data.len() < ELF64_HEADER_SIZE {
        return Err(ElfError::TooSmall);
    }
    let header = Elf64Header::from_bytes(data);
    proof {
        assert(header.e_type == header_of(data@).e_type);
    }
    match validate_elf(data, &header) {
        Err(e) => {
            return Err(e);
        },
        Ok(_) => {},
    }
    if header.e_phentsize as usize != ELF64_PHDR_SIZE {
        return Err(ElfError::InvalidProgramHeader);
    }
    let table = (header.e_phnum as u64) * (header.e_phentsize as u64);
    let ph_end = match header.e_phoff.checked_add(table) {
        Some(v) => v,
        None => {
            return Err(ElfError::InvalidHeader);
        },
    };
    if ph_end > data.len() as u64 {
        return Err(ElfError::SegmentOutOfBounds);
    }
    let ghost s = data@;
    let ghost phoff = header.e_phoff as int;
    let mut segments: Vec<LoadedSegment> = Vec::new();
    let n = header.e_phnum as usize;
    proof {
        let h = header_of(s);
        lemma_le_bounds(s, 16);
        lemma_le_bounds(s, 18);
        lemma_le_bounds(s, 24);
        lemma_le_bounds(s, 32);
        lemma_le_bounds(s, 54);
        lemma_le_bounds(s, 56);
        assert(h.e_phoff == header.e_phoff);
        assert(h.e_phnum == header.e_phnum);
        assert(h.e_phentsize == header.e_phentsize);
        assert(h.e_entry == header.e_entry);
        assert(s.subrange(0, 16) == header.e_ident@);
        assert(load_result(s) == match segments_upto(s, phoff, n as nat) {
            Err(e) => Err(e),
            Ok(segs) => Ok((header.e_entry, segs)),
        });
    }
    let mut i: usize = 0;
    while i < n
        invariant
            0 <= i <= n,
            n == header.e_phnum,
            s == data@,
            phoff == header.e_phoff,
            phoff + n * 56 <= data.len(),
            segments_upto(s, phoff, i as nat) == Ok::<Seq<LoadedSegment>, ElfError>(segments@),
            load_result(s) == match segments_upto(s, phoff, n as nat) {
                Err(e) => Err(e),
                Ok(segs) => Ok((header.e_entry, segs)),
            },
        decreases n - i,
    {
        let ph_offset = header.e_phoff as usize + i * ELF64_PHDR_SIZE;
        let ph = Elf64ProgramHeader::from_bytes(data, ph_offset);
        proof {
            lemma_phdr_decoded(s, ph_offset as int, ph);
            lemma_segments_step(s, phoff, i as nat);
            assert(ph_offset as int == phoff + i * 56);
            assert(ph == phdr_at(s, phoff + i * 56));
        }
        match classify_phdr(&ph, data.len()) {
            PhdrStep::Skip => {},
            PhdrStep::Load(seg) => {
                segments.push(seg);
            },
            PhdrStep::Fail(e) => {
                proof {
                    lemma_segments_error_sticks(s, phoff, (i + 1) as nat, n as nat);
                }
                return Err(e);
            },
        }
        i = i + 1;
    }
    proof {
        law_loaded_segments_copy_headers(data@, header.e_entry, segments@);
    }
    Ok(LoadedElf { entry: header.e_entry, segments })
}

/// Start of the page that holds `vaddr`.
pub open spec fn page_floor(vaddr: int) -> int {
    (vaddr / 4096) * 4096
}

/// Smallest page boundary at or above `addr`.
pub open spec fn page_ceil(addr: int) -> int {
    if addr % 4096 == 0 {
        addr
    } else {
        (addr / 4096 + 1) * 4096
    }
}

/// Calculates the page-aligned start of a segment.
pub fn segment_start(vaddr: u64) -> (r: u64)
    ensures
        r == page_floor(vaddr as int),
{
    (vaddr / 4096) * 4096
}

/// Calculates the page-aligned end of a segment, rounded up.
pub fn segment_end(vaddr: u64, memsz: u64) -> (r: u64)
    requires
        vaddr + memsz <= u64::MAX,
        page_ceil(vaddr + memsz) <= u64::MAX,
    ensures
        r == page_ceil(vaddr + memsz),
{
    let end = vaddr + memsz;
    if end % 4096 == 0 {
        end
    } else {
        ((end / 4096) + 1) * 4096
    }
}

} // verus!
