use kernel::ai::network::RuntimeBudget;
use kernel::boot::{validate_boot_context, BootContext, MemoryRegion};
use kernel::bootloader::MULTIBOOT2_MAGIC;
use kernel::elf::{
    segment_end, segment_start, validate_elf, Elf64Header, ElfError, ELFCLASS64, ELFDATA2LSB,
    ELFOSABI_NONE, EM_X86_64, ET_EXEC,
};
use kernel::fs::trinityfs::{DirEntry, FileFlags, Superblock, BLOCK_SIZE};
use kernel::gdt::{Descriptor, Gdt};
use kernel::heap::{heap_stats, init_heap, HeapState};
use kernel::idt::{Idt, IdtEntry};
use kernel::interrupts::PageFaultInfo;
use kernel::keyboard::{Key, KeyboardBuffer};

const ELF_MAGIC: [u8; 4] = [0x7F, b'E', b'L', b'F'];

#[test]
fn test_runtime_budget() {
    let budget = RuntimeBudget::new(1024 * 1024, 1000000, 1000);
    assert_eq!(budget.max_memory, 1024 * 1024);
    assert_eq!(budget.max_operations, 1000000);
}

#[test]
fn test_valid_memory_region() {
    let regions = [MemoryRegion { start: 0x100000, len: 0x10000, usable: true }];
    let ctx = BootContext { memory_map: &regions, framebuffer: None, physical_memory_offset: None };
    assert!(validate_boot_context(&ctx).is_ok());
}

#[test]
fn test_overflow_detection() {
    let regions = [MemoryRegion { start: u64::MAX, len: 1, usable: true }];
    let ctx = BootContext { memory_map: &regions, framebuffer: None, physical_memory_offset: None };
    assert!(validate_boot_context(&ctx).is_err());
}

#[test]
fn test_multiboot_magic() {
    assert_eq!(MULTIBOOT2_MAGIC, 0x36D76289);
}

#[test]
fn test_segment_alignment() {
    assert_eq!(segment_start(0x1000), 0x1000);
    assert_eq!(segment_start(0x1234), 0x1000);
    assert_eq!(segment_start(0x2000), 0x2000);

    assert_eq!(segment_end(0x1000, 0x100), 0x2000);
    assert_eq!(segment_end(0x1000, 0x1000), 0x2000);
    assert_eq!(segment_end(0x1000, 0x1001), 0x3000);
}

#[test]
fn test_minimal_elf_validation() {
    let mut data = [0u8; 64];
    data[0..4].copy_from_slice(&ELF_MAGIC);
    data[4] = ELFCLASS64;
    data[5] = ELFDATA2LSB;
    data[6] = 1;
    data[7] = ELFOSABI_NONE;
    data[16] = ET_EXEC as u8;
    data[17] = (ET_EXEC >> 8) as u8;
    data[18] = EM_X86_64 as u8;
    data[19] = (EM_X86_64 >> 8) as u8;
    data[20..24].copy_from_slice(&1u32.to_le_bytes());
    data[24..32].copy_from_slice(&0x1000u64.to_le_bytes());
    data[32..40].copy_from_slice(&64u64.to_le_bytes());
    data[54..56].copy_from_slice(&64u16.to_le_bytes());
    data[56..58].copy_from_slice(&1u16.to_le_bytes());
    let header = Elf64Header::from_bytes(&data);
    assert!(validate_elf(&data, &header).is_ok());
}

#[test]
fn test_bad_magic() {
    let data = [0u8; 64];
    let header = Elf64Header::from_bytes(&data);
    assert_eq!(validate_elf(&data, &header), Err(ElfError::BadMagic));
}

#[test]
fn test_wrong_class() {
    let mut data = [0u8; 64];
    data[0..4].copy_from_slice(&ELF_MAGIC);
    data[4] = 1;
    let header = Elf64Header::from_bytes(&data);
    assert_eq!(validate_elf(&data, &header), Err(ElfError::WrongClass));
}

#[test]
fn test_wrong_arch() {
    let mut data = [0u8; 64];
    data[0..4].copy_from_slice(&ELF_MAGIC);
    data[4] = ELFCLASS64;
    data[5] = ELFDATA2LSB;
    data[6] = 1;
    data[16] = ET_EXEC as u8;
    data[18] = 3;
    let header = Elf64Header::from_bytes(&data);
    assert_eq!(validate_elf(&data, &header), Err(ElfError::WrongArch));
}

#[test]
fn test_superblock_creation() {
    let sb = Superblock::new(10000);
    assert_eq!(sb.magic, 0x5452494E);
    assert_eq!(sb.total_blocks, 10000);
    assert_eq!(sb.block_size, BLOCK_SIZE);
}

#[test]
fn test_dir_entry() {
    let mut entry = DirEntry::new();
    entry.set_name("test.txt");
    assert_eq!(entry.name(), "test.txt");
    assert_eq!(entry.name_len, 8);
}

#[test]
fn test_file_flags() {
    let flags = FileFlags::new(true, true, false);
    assert!(flags.read);
    assert!(flags.write);
    assert!(!flags.append);
}

#[test]
fn test_descriptor_creation() {
    let code = Descriptor::code_segment(0);
    assert_ne!(code.access, 0);
    let data = Descriptor::data_segment(3);
    assert_ne!(data.access, 0);
}

#[test]
fn test_heap_initialization() {
    let mut heap = HeapState::new();
    init_heap(&mut heap, 0x10000, 0x100000);
    let stats = heap_stats(&heap);
    assert_eq!(stats.start, 0x10000);
    assert_eq!(stats.size, 0x100000);
}

#[test]
fn test_idt_size() {
    assert_eq!(core::mem::size_of::<Idt>(), 4096);
}

#[test]
fn test_idt_entry_creation() {
    let entry = IdtEntry::new(0xDEADBEEF, 0x08, 0x8E);
    assert_ne!(entry.offset_low, 0);
}

#[test]
fn test_page_fault_info_parsing() {
    let info = PageFaultInfo::from_error_code(0b110, 0xDEADBEEF);
    assert!(!info.present);
    assert!(info.write);
    assert!(info.user);
    assert!(!info.instruction_fetch);
    assert_eq!(info.address, 0xDEADBEEF);
}

#[test]
fn test_keyboard_buffer() {
    let mut buffer = KeyboardBuffer::new();
    assert_eq!(buffer.len(), 0);
    buffer.push(Key::A);
    assert_eq!(buffer.len(), 1);
    let key = buffer.pop();
    assert_eq!(key, Some(Key::A));
    assert_eq!(buffer.len(), 0);
}

#[test]
fn test_key_to_char() {
    assert_eq!(Key::A.to_char(), Some('a'));
    assert_eq!(Key::Space.to_char(), Some(' '));
    assert_eq!(Key::Enter.to_char(), Some('\n'));
    assert_eq!(Key::ArrowUp.to_char(), None);
}

#[test]
fn star_value_places_each_selector() {
    let star = kernel::arch::star_value(0x08, 0x10, 0x1B, 0x23);
    assert_eq!(star, 0x001B_0008_0010_0023);
}

#[test]
fn test_gdt_size() {
    assert_eq!(core::mem::size_of::<Gdt>(), 6 * 8 + 16);
}
