use posix_fs::classify;
use posix_fs::fifo_mode;
use posix_fs::file_type;
use posix_fs::Error;
use posix_fs::ErrorKind;
use posix_fs::FileType;
use posix_fs::Metadata;
use posix_fs::PosixPath;

fn metadata(mode: u32) -> Metadata {
    Metadata {
        mode,
        uid: 1000,
        gid: 100,
        size: 4096,
        device: 2049,
        device_type: 0,
        accessed: 1_700_000_003,
        modified: 1_700_000_002,
        changed: 1_700_000_001,
    }
}

#[test]
fn regular_file_carries_nothing() {
    assert_eq!(classify(metadata(0o100644)), Some(FileType::Regular));
    assert_eq!(classify(metadata(0o104755)), Some(FileType::Regular));
}

#[test]
fn directory_carries_its_metadata() {
    let probed = metadata(0o040755);
    assert_eq!(classify(probed), Some(FileType::Directory(probed)));
    match classify(metadata(0o041777)) {
        Some(FileType::Directory(carried)) => {
            assert_eq!(carried.mode, 0o041777);
            assert_eq!(carried.uid, 1000);
            assert_eq!(carried.gid, 100);
            assert_eq!(carried.size, 4096);
            assert_eq!(carried.device, 2049);
            assert_eq!(carried.modified, 1_700_000_002);
        }
        other => panic!("unexpected type {:?}", other),
    }
}

#[test]
fn symlink_carries_nothing() {
    assert_eq!(classify(metadata(0o120777)), Some(FileType::Symlink));
}

#[test]
fn fifo_carries_its_metadata() {
    let probed = metadata(0o010644);
    assert_eq!(classify(probed), Some(FileType::Fifo(probed)));
}

#[test]
fn socket_carries_nothing() {
    assert_eq!(classify(metadata(0o140755)), Some(FileType::Socket));
}

#[test]
fn character_device_carries_its_metadata() {
    let mut probed = metadata(0o020620);
    probed.device_type = 34816;
    assert_eq!(classify(probed), Some(FileType::CharacterDevice(probed)));
}

#[test]
fn block_device_carries_its_metadata() {
    let mut probed = metadata(0o060660);
    probed.device_type = 2048;
    assert_eq!(classify(probed), Some(FileType::BlockDevice(probed)));
}

#[test]
fn type_bits_of_no_known_type_are_not_classified() {
    assert_eq!(classify(metadata(0)), None);
    assert_eq!(classify(metadata(0o644)), None);
    assert_eq!(classify(metadata(0o030000)), None);
    assert_eq!(classify(metadata(0o050000)), None);
    assert_eq!(classify(metadata(0o070000)), None);
    assert_eq!(classify(metadata(0o110000)), None);
    assert_eq!(classify(metadata(0o130000)), None);
    assert_eq!(classify(metadata(0o150000)), None);
    assert_eq!(classify(metadata(0o160000)), None);
    assert_eq!(classify(metadata(0o170000)), None);
}

#[test]
fn permission_bits_do_not_change_the_type() {
    for permissions in [0u32, 0o1, 0o644, 0o755, 0o7777, 0o4000, 0o2000, 0o1000] {
        assert_eq!(classify(metadata(0o100000 | permissions)), Some(FileType::Regular));
        assert_eq!(classify(metadata(0o120000 | permissions)), Some(FileType::Symlink));
        assert_eq!(classify(metadata(0o140000 | permissions)), Some(FileType::Socket));
        let fifo = metadata(0o010000 | permissions);
        assert_eq!(classify(fifo), Some(FileType::Fifo(fifo)));
    }
}

#[test]
fn bits_above_the_mode_do_not_change_the_type() {
    assert_eq!(classify(metadata(0o1_100644)), Some(FileType::Regular));
    let directory = metadata(0xffff_0000 | 0o040700);
    assert_eq!(classify(directory), Some(FileType::Directory(directory)));
}

#[test]
fn each_created_entry_is_classified_as_what_it_is() {
    let fifo = metadata(0o010600);
    let directory = metadata(0o040700);
    let regular = metadata(0o100600);
    let symlink = metadata(0o120777);
    let socket = metadata(0o140700);
    let path = PosixPath::parse(b"/tmp/entry");
    assert_eq!(file_type(&path, Ok(fifo)).unwrap(), FileType::Fifo(fifo));
    assert_eq!(file_type(&path, Ok(directory)).unwrap(), FileType::Directory(directory));
    assert_eq!(file_type(&path, Ok(regular)).unwrap(), FileType::Regular);
    assert_eq!(file_type(&path, Ok(symlink)).unwrap(), FileType::Symlink);
    assert_eq!(file_type(&path, Ok(socket)).unwrap(), FileType::Socket);
}

#[test]
fn failure_to_probe_comes_back_with_the_path() {
    let path = PosixPath::parse(b"/tmp/missing");
    let error = file_type(&path, Err("No such file or directory (os error 2)".to_string()))
        .unwrap_err();
    assert_eq!(error.kind(), ErrorKind::Os);
    assert_eq!(error.message(), "/tmp/missing: No such file or directory (os error 2)");
}

#[test]
fn fifo_mode_keeps_the_permission_bits_only() {
    assert_eq!(fifo_mode(0o010644), 0o644);
    assert_eq!(fifo_mode(0o100755), 0o755);
    assert_eq!(fifo_mode(0o017777), 0o7777);
    assert_eq!(fifo_mode(0o170000), 0);
    assert_eq!(fifo_mode(0), 0);
    assert_eq!(fifo_mode(u32::MAX), 0o7777);
    assert_eq!(fifo_mode(0o4755), 0o4755);
    assert_eq!(fifo_mode(0o600), 0o600);
}

#[test]
fn fifo_mode_of_a_probed_fifo_creates_a_fifo_of_the_same_permissions() {
    match classify(metadata(0o010640)) {
        Some(FileType::Fifo(probed)) => {
            let mode = fifo_mode(probed.mode);
            assert_eq!(mode, 0o640);
            assert_eq!(fifo_mode(mode), mode);
            assert_eq!(classify(metadata(0o010000 | mode)), Some(FileType::Fifo(metadata(0o010640))));
        }
        other => panic!("unexpected type {:?}", other),
    }
}

#[test]
fn error_new_keeps_the_message() {
    let error = Error::new("something failed".to_string());
    assert_eq!(error.kind(), ErrorKind::Other);
    assert_eq!(error.message(), "something failed");
}

#[test]
fn error_constructors_build_their_messages() {
    let error = Error::empty_path();
    assert_eq!(error.kind(), ErrorKind::EmptyPath);
    assert_eq!(error.message(), "Empty file path provided as an argument");
    let error = Error::os("a/b", "Permission denied (os error 13)");
    assert_eq!(error.kind(), ErrorKind::Os);
    assert_eq!(error.message(), "a/b: Permission denied (os error 13)");
    let error = Error::inconsistent("a/b");
    assert_eq!(error.kind(), ErrorKind::Inconsistent);
    assert_eq!(error.message(), "a/b: an unknown error occurred while processing this path");
    assert_eq!(Error::os("", "").message(), ": ");
}
