use kernel::{FsError, InodeType, Kernel};

#[test]
fn new_kernel_holds_only_the_root() {
    let k = Kernel::new();
    assert_eq!(k.next_inode_id(), 1);
    assert_eq!(k.next_fd(), 3);
    assert_eq!(k.next_pid(), 1);
    let root = k.inode(0).unwrap();
    assert_eq!(root.id, 0);
    assert_eq!(root.inode_type, InodeType::Directory);
    assert_eq!(root.name, "/");
    assert!(root.data.is_empty());
    assert!(root.children.is_empty());
    assert_eq!(root.parent, None);
    assert!(k.inode(1).is_none());
    assert_eq!(k.list_directory(0), Ok(vec![]));
}

#[test]
fn empty_and_slash_only_paths_are_the_root() {
    let k = Kernel::new();
    assert_eq!(k.get_inode(""), Ok(0));
    assert_eq!(k.get_inode("/"), Ok(0));
    assert_eq!(k.get_inode("////"), Ok(0));
}

#[test]
fn create_inode_hands_out_ids_in_order() {
    let mut k = Kernel::new();
    assert_eq!(k.create_inode(0, "a".to_string(), InodeType::Directory), Ok(1));
    assert_eq!(k.create_inode(1, "b".to_string(), InodeType::File), Ok(2));
    assert_eq!(k.create_inode(0, "c".to_string(), InodeType::File), Ok(3));
    assert_eq!(k.next_inode_id(), 4);
    let b = k.inode(2).unwrap();
    assert_eq!(b.id, 2);
    assert_eq!(b.inode_type, InodeType::File);
    assert_eq!(b.name, "b");
    assert_eq!(b.parent, Some(1));
    assert!(b.data.is_empty());
    assert!(b.children.is_empty());
    assert_eq!(k.inode(1).unwrap().children, vec![("b".to_string(), 2)]);
}

#[test]
fn create_inode_under_unknown_parent_fails_and_changes_nothing() {
    let mut k = Kernel::new();
    assert_eq!(k.create_inode(7, "a".to_string(), InodeType::File), Err(FsError::ParentNotFound));
    assert_eq!(k.next_inode_id(), 1);
    assert!(k.inode(1).is_none());
    assert_eq!(k.list_directory(0), Ok(vec![]));
}

#[test]
fn create_inode_under_file_fails_and_changes_nothing() {
    let mut k = Kernel::new();
    assert_eq!(k.create_inode(0, "f".to_string(), InodeType::File), Ok(1));
    assert_eq!(k.create_inode(1, "a".to_string(), InodeType::File), Err(FsError::NotADirectory));
    assert_eq!(k.next_inode_id(), 2);
    assert!(k.inode(2).is_none());
    assert!(k.inode(1).unwrap().children.is_empty());
}

#[test]
fn create_inode_replaces_entry_and_keeps_old_inode() {
    let mut k = Kernel::new();
    assert_eq!(k.create_inode(0, "a".to_string(), InodeType::Directory), Ok(1));
    assert_eq!(k.create_inode(0, "a".to_string(), InodeType::File), Ok(2));
    assert_eq!(k.get_inode("/a"), Ok(2));
    assert_eq!(k.list_directory(0), Ok(vec!["a".to_string()]));
    let old = k.inode(1).unwrap();
    assert_eq!(old.name, "a");
    assert_eq!(old.parent, Some(0));
}

#[test]
fn get_inode_walks_the_tree() {
    let mut k = Kernel::new();
    assert_eq!(k.create_inode(0, "a".to_string(), InodeType::Directory), Ok(1));
    assert_eq!(k.create_inode(1, "b".to_string(), InodeType::Directory), Ok(2));
    assert_eq!(k.create_inode(2, "c".to_string(), InodeType::File), Ok(3));
    assert_eq!(k.get_inode("/a"), Ok(1));
    assert_eq!(k.get_inode("a/b"), Ok(2));
    assert_eq!(k.get_inode("/a/b/c"), Ok(3));
    assert_eq!(k.get_inode("//a///b//c/"), Ok(3));
}

#[test]
fn get_inode_is_repeatable() {
    let mut k = Kernel::new();
    assert_eq!(k.create_inode(0, "a".to_string(), InodeType::Directory), Ok(1));
    assert_eq!(k.create_inode(1, "b".to_string(), InodeType::File), Ok(2));
    let first = k.get_inode("/a/b");
    assert_eq!(first, Ok(2));
    assert_eq!(k.get_inode("/a/b"), first);
    let fd = k.open_file(2, "w").unwrap();
    assert_eq!(k.write_file(fd, &[1, 2, 3]), Ok(3));
    assert_eq!(k.read_file(fd, 2), Ok(vec![1, 2]));
    assert_eq!(k.close_file(fd), Ok(()));
    assert_eq!(k.get_inode("/a/b"), first);
}

#[test]
fn get_inode_names_the_first_missing_component() {
    let mut k = Kernel::new();
    assert_eq!(k.create_inode(0, "a".to_string(), InodeType::Directory), Ok(1));
    assert_eq!(k.create_inode(1, "f".to_string(), InodeType::File), Ok(2));
    assert_eq!(k.get_inode("/x"), Err(FsError::PathComponentNotFound("x".to_string())));
    assert_eq!(k.get_inode("/a/y/z"), Err(FsError::PathComponentNotFound("y".to_string())));
    assert_eq!(k.get_inode("/a/f/z"), Err(FsError::PathComponentNotFound("z".to_string())));
    assert_eq!(k.get_inode("/A"), Err(FsError::PathComponentNotFound("A".to_string())));
    assert_eq!(k.get_inode("/a /f"), Err(FsError::PathComponentNotFound("a ".to_string())));
}

#[test]
fn walk_follows_components_from_the_root() {
    let mut k = Kernel::new();
    assert_eq!(k.create_inode(0, "a".to_string(), InodeType::Directory), Ok(1));
    assert_eq!(k.create_inode(1, "b".to_string(), InodeType::File), Ok(2));
    assert_eq!(k.walk(&vec![]), Ok(0));
    assert_eq!(k.walk(&vec!["a".to_string()]), Ok(1));
    assert_eq!(k.walk(&vec!["a".to_string(), "b".to_string()]), Ok(2));
    assert_eq!(
        k.walk(&vec!["a".to_string(), "b".to_string(), "c".to_string()]),
        Err(FsError::PathComponentNotFound("c".to_string()))
    );
    assert_eq!(
        k.walk(&vec!["".to_string()]),
        Err(FsError::PathComponentNotFound("".to_string()))
    );
}

#[test]
fn append_grows_content_of_files_and_directories() {
    let mut k = Kernel::new();
    assert_eq!(k.create_inode(0, "f".to_string(), InodeType::File), Ok(1));
    assert_eq!(k.append(1, &[1, 2]), Ok(2));
    assert_eq!(k.append(1, &[]), Ok(0));
    assert_eq!(k.append(1, &[3]), Ok(1));
    assert_eq!(k.read_file_content(1), Ok(vec![1, 2, 3]));
    assert_eq!(k.append(0, &[9]), Ok(1));
    assert_eq!(k.read_file_content(0), Ok(vec![9]));
    assert_eq!(k.append(2, &[1]), Err(FsError::NotFound));
}

#[test]
fn open_file_needs_an_inode() {
    let mut k = Kernel::new();
    assert_eq!(k.open_file(5, "r"), Err(FsError::InvalidInode));
    assert_eq!(k.next_fd(), 3);
    assert_eq!(k.open_file(0, "r"), Ok(3));
    assert_eq!(k.open_file(0, "w"), Ok(4));
    assert_eq!(k.next_fd(), 5);
}

#[test]
fn read_file_returns_slices_up_to_the_end() {
    let mut k = Kernel::new();
    assert_eq!(k.create_inode(0, "f".to_string(), InodeType::File), Ok(1));
    let fd = k.open_file(1, "r").unwrap();
    assert_eq!(k.write_file(fd, &[10, 20, 30, 40, 50]), Ok(5));
    assert_eq!(k.read_file(fd, 0), Ok(vec![]));
    assert_eq!(k.read_file(fd, 3), Ok(vec![10, 20, 30]));
    assert_eq!(k.read_file(fd, 3), Ok(vec![40, 50]));
    assert_eq!(k.read_file(fd, 3), Ok(vec![]));
    assert_eq!(k.read_file(fd, usize::MAX), Ok(vec![]));
    assert_eq!(k.write_file(fd, &[60]), Ok(1));
    assert_eq!(k.read_file(fd, usize::MAX), Ok(vec![60]));
}

#[test]
fn read_file_with_huge_size_does_not_overflow() {
    let mut k = Kernel::new();
    assert_eq!(k.create_inode(0, "f".to_string(), InodeType::File), Ok(1));
    let fd = k.open_file(1, "r").unwrap();
    assert_eq!(k.write_file(fd, &[1, 2, 3]), Ok(3));
    assert_eq!(k.read_file(fd, 1), Ok(vec![1]));
    assert_eq!(k.read_file(fd, usize::MAX), Ok(vec![2, 3]));
}

#[test]
fn descriptor_operations_need_an_open_handle() {
    let mut k = Kernel::new();
    assert_eq!(k.read_file(3, 1), Err(FsError::BadDescriptor));
    assert_eq!(k.write_file(3, &[1]), Err(FsError::BadDescriptor));
    assert_eq!(k.close_file(3), Err(FsError::BadDescriptor));
    let fd = k.open_file(0, "r").unwrap();
    assert_eq!(k.close_file(fd), Ok(()));
    assert_eq!(k.read_file(fd, 1), Err(FsError::BadDescriptor));
    assert_eq!(k.write_file(fd, &[1]), Err(FsError::BadDescriptor));
    assert_eq!(k.close_file(fd), Err(FsError::BadDescriptor));
}

#[test]
fn write_file_of_nothing_writes_nothing() {
    let mut k = Kernel::new();
    let fd = k.open_file(0, "w").unwrap();
    assert_eq!(k.write_file(fd, &[]), Ok(0));
    assert_eq!(k.read_file_content(0), Ok(vec![]));
}

#[test]
fn read_file_content_gives_all_bytes() {
    let mut k = Kernel::new();
    assert_eq!(k.create_inode(0, "f".to_string(), InodeType::File), Ok(1));
    let fd = k.open_file(1, "w").unwrap();
    assert_eq!(k.write_file(fd, &[0, 255, 7]), Ok(3));
    assert_eq!(k.write_file(fd, &[8]), Ok(1));
    assert_eq!(k.read_file_content(1), Ok(vec![0, 255, 7, 8]));
    assert_eq!(k.read_file_content(0), Ok(vec![]));
    assert_eq!(k.read_file_content(2), Err(FsError::NotFound));
}

#[test]
fn list_directory_needs_a_directory() {
    let mut k = Kernel::new();
    assert_eq!(k.create_inode(0, "f".to_string(), InodeType::File), Ok(1));
    assert_eq!(k.create_inode(0, "d".to_string(), InodeType::Directory), Ok(2));
    assert_eq!(k.list_directory(1), Err(FsError::NotADirectory));
    assert_eq!(k.list_directory(9), Err(FsError::NotFound));
    assert_eq!(k.list_directory(2), Ok(vec![]));
    let mut names = k.list_directory(0).unwrap();
    names.sort();
    assert_eq!(names, vec!["d".to_string(), "f".to_string()]);
}

#[test]
fn descriptor_records_mode_as_given() {
    let mut k = Kernel::new();
    assert_eq!(k.open_file(0, "rw+"), Ok(3));
    assert_eq!(k.write_file(3, &[1]), Ok(1));
    assert_eq!(k.read_file(3, 1), Ok(vec![1]));
}

#[test]
fn create_process_and_uptime() {
    let mut k = Kernel::new();
    assert_eq!(k.get_uptime_ms(), 0);
    assert_eq!(k.create_process(0), 1);
    assert_eq!(k.create_process(0), 2);
    k.set_time(50);
    assert_eq!(k.get_uptime_ms(), 0);
    k.start(100);
    assert_eq!(k.get_uptime_ms(), 0);
    k.set_time(350);
    assert_eq!(k.get_uptime_ms(), 250);
    k.set_time(99);
    assert_eq!(k.get_uptime_ms(), 0);
}

#[test]
fn error_messages() {
    assert_eq!(FsError::NotFound.message(), "Inode not found");
    assert_eq!(FsError::ParentNotFound.message(), "Parent inode not found");
    assert_eq!(FsError::NotADirectory.message(), "Not a directory");
    assert_eq!(
        FsError::PathComponentNotFound("etc".to_string()).message(),
        "Path component not found: etc"
    );
    assert_eq!(FsError::InternalInconsistency.message(), "Inode not found during traversal");
    assert_eq!(FsError::InvalidInode.message(), "Inode not found");
    assert_eq!(FsError::BadDescriptor.message(), "File descriptor not found");
    assert_eq!(FsError::InvalidInput.message(), "Invalid input");
}
