use byteos::bringup::{CardState, SdCaps};
use byteos::registry::{check_position, PositionError, MAX_POSITION};
use byteos::transfer::push_word;
use byteos::uart::{print, uart_write, Console, Uart};
use byteos::vfs::{
    DirEntry, FileSystem, FileType, INodeInterface, MMapFlags, Metadata, OpenFlags, SeekFrom,
    VfsError, MAP_ANONYOMUS, MAP_FIXED, MAP_PRIVATE, MAP_SHARED, O_ACCMODE, O_CREAT,
    O_DIRECTORY, O_RDONLY, O_RDWR, O_WRONLY,
};
use std::cell::RefCell;
use std::sync::Arc;

struct Line {
    out: RefCell<Vec<Vec<u8>>>,
    inits: RefCell<u32>,
}

impl Uart for Line {
    fn read(&self, _buffer: &mut [u8]) -> usize {
        0
    }

    fn write(&self, data: &[u8]) -> usize {
        self.out.borrow_mut().push(data.to_vec());
        data.len()
    }

    fn flush(&self) {}

    fn init(&self) {
        *self.inits.borrow_mut() += 1;
    }
}

#[test]
fn print_sends_the_bytes_of_the_text_in_one_piece() {
    let line = Line { out: RefCell::new(Vec::new()), inits: RefCell::new(0) };
    let mut console = Console::new(line);
    print(&mut console, "[kernel] welcome\n");
    print(&mut console, "");
    print(&mut console, "h\u{e9}");
    uart_write(&mut console, &[0, 255, 7]);
    let line = console.into_inner();
    assert_eq!(*line.inits.borrow(), 1);
    assert_eq!(
        *line.out.borrow(),
        vec![b"[kernel] welcome\n".to_vec(), vec![], vec![b'h', 0xC3, 0xA9], vec![0, 255, 7]]
    );
}

struct Bare;

impl INodeInterface for Bare {}

struct Disk;

static DISK: Disk = Disk;

impl FileSystem for Disk {
    type Root = Bare;

    fn root_dir(&'static self) -> Arc<Bare> {
        Arc::new(Bare)
    }

    fn name(&self) -> &str {
        "disk"
    }
}

#[test]
fn a_node_refuses_what_it_does_not_implement() {
    let mut node = Bare;
    let mut buffer = [0u8; 4];
    assert!(matches!(node.metadata(), Err(VfsError::NotSupported)));
    assert!(matches!(node.read(&mut buffer), Err(VfsError::NotFile)));
    assert!(matches!(node.write(&buffer), Err(VfsError::NotFile)));
    assert!(matches!(node.seek(SeekFrom::SET(0)), Err(VfsError::NotFile)));
    assert!(matches!(node.seek(SeekFrom::CURRENT(-1)), Err(VfsError::NotFile)));
    assert!(matches!(node.seek(SeekFrom::END(1)), Err(VfsError::NotFile)));
    assert!(matches!(node.mkdir("a"), Err(VfsError::NotDir)));
    assert!(matches!(node.rmdir("a"), Err(VfsError::NotDir)));
    assert!(matches!(node.remove("a"), Err(VfsError::NotDir)));
    assert!(matches!(node.touch("a"), Err(VfsError::NotDir)));
    assert!(matches!(node.read_dir(), Err(VfsError::NotDir)));
    assert!(matches!(node.lookup("a"), Err(VfsError::NotDir)));
    assert!(matches!(
        node.open("a", OpenFlags::from_bits_truncate(O_DIRECTORY)),
        Err(VfsError::NotDir)
    ));
    assert!(matches!(node.ioctl(1, 2), Err(VfsError::NotSupported)));
    assert!(matches!(node.truncate(0), Err(VfsError::NotSupported)));
    assert!(matches!(node.fcntl(1, 2), Err(VfsError::NotSupported)));
    assert!(matches!(node.flush(), Err(VfsError::NotSupported)));
    assert!(matches!(node.resolve_link(), Err(VfsError::NotSupported)));
    assert!(matches!(node.link("a", Arc::new(Bare)), Err(VfsError::NotSupported)));
    assert!(matches!(node.unlink("a"), Err(VfsError::NotSupported)));
    assert!(matches!(
        node.mmap(0, 4096, MMapFlags::from_bits_truncate(MAP_SHARED)),
        Err(VfsError::NotSupported)
    ));
    assert_eq!(buffer, [0u8; 4]);
}

#[test]
fn a_file_system_hands_out_its_root() {
    let mut root = DISK.root_dir();
    assert_eq!(DISK.name(), "disk");
    assert!(Arc::get_mut(&mut root).unwrap().flush().is_err());
}

#[test]
fn open_flags() {
    let f = OpenFlags::from_bits_truncate(O_RDWR | O_CREAT | 0x8000_0000);
    assert_eq!(f.bits(), 0x13);
    assert!(f.contains(OpenFlags::from_bits_truncate(O_CREAT)));
    assert!(f.contains(OpenFlags::from_bits_truncate(O_RDONLY)));
    assert!(!f.contains(OpenFlags::from_bits_truncate(O_WRONLY)));
    assert!(!f.contains(OpenFlags::from_bits_truncate(O_DIRECTORY)));
    assert!(f.contains(OpenFlags::empty()));
    assert_eq!(OpenFlags::empty().bits(), 0);
    assert_eq!(OpenFlags::from_bits_truncate(usize::MAX).bits(), 0x1F_FFFF);
    assert_eq!(O_ACCMODE, 7);
}

#[test]
fn mmap_flags() {
    let f = MMapFlags::from_bits_truncate(MAP_PRIVATE | MAP_FIXED | 0x100);
    assert_eq!(f.bits(), 0x5);
    assert!(f.contains(MMapFlags::from_bits_truncate(MAP_FIXED)));
    assert!(!f.contains(MMapFlags::from_bits_truncate(MAP_ANONYOMUS)));
}

#[test]
fn vfs_data_types() {
    let meta = Metadata { inode: 3, file_type: FileType::Directory, size: 0, childrens: 2 };
    let copy = meta;
    assert_eq!(copy.inode, 3);
    assert_eq!(copy.file_type, FileType::Directory);
    assert!(FileType::File != FileType::Link);
    let entry = DirEntry { filename: String::from("busybox"), len: 7, file_type: FileType::File };
    assert_eq!(entry.filename, "busybox");
    assert_eq!(entry.len, 7);
    assert_eq!(format!("{:?}", VfsError::StorageFull), "StorageFull");
    assert_eq!(format!("{:?}", FileType::Socket), "Socket");
    assert_eq!(format!("{:?}", SeekFrom::END(-4)), "END(-4)");
}

#[test]
fn card_states_are_ordered() {
    let states = [
        CardState::Absent,
        CardState::Detected,
        CardState::PowerConfigured,
        CardState::ClockStable,
        CardState::VoltageNegotiated,
        CardState::Identified,
        CardState::Selected,
        CardState::Ready,
    ];
    for (i, s) in states.iter().enumerate() {
        assert_eq!(s.order() as usize, i);
        if i + 1 < states.len() {
            assert_eq!(s.next(), states[i + 1]);
        }
    }
    assert_eq!(CardState::Ready.next(), CardState::Ready);
}

#[test]
fn capability_block_sizes() {
    let caps = |c1: u32| SdCaps { capabilities1: c1, capabilities2: 0, host_control: 0 };
    assert_eq!(caps(0x0000_0000).max_block_size(), 512);
    assert_eq!(caps(0x0001_0000).max_block_size(), 1024);
    assert_eq!(caps(0x0002_0000).max_block_size(), 2048);
    assert_eq!(caps(0x0003_0000).max_block_size(), 2048);
    assert_eq!(caps(0xFFFC_FFFF).max_block_size(), 512);
}

#[test]
fn push_word_is_little_endian() {
    let mut buffer = vec![9u8];
    push_word(&mut buffer, 0x0403_0201);
    push_word(&mut buffer, 0xFF00_00FE);
    assert_eq!(buffer, vec![9, 1, 2, 3, 4, 0xFE, 0, 0, 0xFF]);
}

#[test]
fn positions_up_to_the_maximum_are_taken() {
    assert_eq!(MAX_POSITION, 9999);
    assert_eq!(check_position(0), Ok(0));
    assert_eq!(check_position(9999), Ok(9999));
    assert_eq!(check_position(10000), Err(PositionError::TooLarge));
    assert_eq!(check_position(usize::MAX), Err(PositionError::TooLarge));
}
