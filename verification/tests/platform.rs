use gstshm2::platform::posix_file::{FileAction, FileEvent, PosixFileBackend};
use gstshm2::platform::windows_ivshmem::{ctl_code, DeviceAction, DeviceEvent, IvshmemMapping};
use gstshm2::platform::windows_ivshmem::{WindowsIvshmemBackend, IOCTL_IVSHMEM_RELEASE_MMAP};
use gstshm2::platform::windows_ivshmem::{IOCTL_IVSHMEM_REQUEST_MMAP, IOCTL_IVSHMEM_REQUEST_SIZE};
use gstshm2::platform::windows_named::{ViewAction, ViewEvent, WindowsNamedBackend};
use gstshm2::platform::{resolve_backend, BackendKind, ShmError};

fn words(s: &str) -> String {
    s.to_string()
}

#[test]
fn errors_have_words() {
    assert_eq!(ShmError::Io(words("gone")).message(), "io error: gone");
    assert_eq!(ShmError::InvalidConfig("x").message(), "invalid config: x");
    assert_eq!(ShmError::Protocol("y").message(), "protocol error: y");
    assert_eq!(ShmError::Exhausted.message(), "allocator exhausted");
    assert_eq!(ShmError::RingFull.message(), "ring full");
    assert_eq!(ShmError::RingEmpty.message(), "ring empty");
    assert_eq!(ShmError::NoConsumer.message(), "no consumer connected");
    assert_eq!(
        ShmError::InvalidBackendSpec(words("z")).message(),
        "invalid backend spec: z"
    );
    assert_eq!(ShmError::UnsupportedBackend("w").message(), "unsupported backend: w");
}

#[test]
fn a_path_selects_its_backend() {
    let cases = [
        ("shm:///dev/shm/gst-shm2-demo", BackendKind::PosixFile, "/dev/shm/gst-shm2-demo"),
        ("/dev/shm/gst-shm2-demo", BackendKind::PosixFile, "/dev/shm/gst-shm2-demo"),
        ("winshm://Local/gst-shm2-demo", BackendKind::WindowsNamed, "Local\\gst-shm2-demo"),
        ("winshm://Global/gst-shm2-demo", BackendKind::WindowsNamed, "Global\\gst-shm2-demo"),
        ("ivshmem://PCI\\VEN_1AF4", BackendKind::WindowsIvshmem, "PCI\\VEN_1AF4"),
    ];
    for (path, kind, name) in cases {
        let s = resolve_backend(path).unwrap();
        assert_eq!(s.kind, kind);
        assert_eq!(s.name, name);
    }
    assert!(matches!(
        resolve_backend("http://host/path"),
        Err(ShmError::InvalidBackendSpec(_))
    ));
}

#[test]
fn a_file_is_created_step_by_step() {
    let b = PosixFileBackend;
    assert!(matches!(b.begin_create("/x", 10), FileAction::Open));
    let to = Some(10);
    assert!(matches!(b.open_internal(to, FileEvent::Opened), FileAction::Truncate(10)));
    assert!(matches!(b.open_internal(to, FileEvent::Truncated), FileAction::Stat));
    assert!(matches!(b.open_internal(to, FileEvent::Sized(10)), FileAction::MapWhole(10)));
    assert!(matches!(
        b.open_internal(to, FileEvent::Mapped { null: false }),
        FileAction::Finish
    ));
    assert!(matches!(b.begin_open("/x"), FileAction::Open));
    assert!(matches!(b.open_internal(None, FileEvent::Opened), FileAction::Stat));
}

#[test]
fn a_file_is_refused_with_words() {
    let b = PosixFileBackend;
    match b.begin_create("/x", 0) {
        FileAction::Fail { close, error } => {
            assert!(!close);
            assert_eq!(error.message(), "invalid config: size must be non-zero");
        }
        other => panic!("{other:?}"),
    }
    match b.begin_open("/x\0y") {
        FileAction::Fail { close, error } => {
            assert!(!close);
            assert_eq!(error.message(), "invalid config: path contains embedded NUL byte");
        }
        other => panic!("{other:?}"),
    }
    match b.open_internal(None, FileEvent::Sized(0)) {
        FileAction::Fail { close, error } => {
            assert!(close);
            assert_eq!(
                error.message(),
                "invalid config: shared file is empty; expected initialized region"
            );
        }
        other => panic!("{other:?}"),
    }
    match b.open_internal(None, FileEvent::Mapped { null: true }) {
        FileAction::Fail { close, error } => {
            assert!(!close);
            assert_eq!(error.message(), "protocol error: mmap returned null pointer");
        }
        other => panic!("{other:?}"),
    }
}

#[test]
fn a_file_that_was_opened_is_closed_on_failure() {
    let b = PosixFileBackend;
    let cases = [
        (FileEvent::OpenFailed(words("e")), false),
        (FileEvent::TruncateFailed(words("e")), true),
        (FileEvent::StatFailed(words("e")), true),
        (FileEvent::MapFailed(words("e")), true),
    ];
    for (event, closes) in cases {
        match b.open_internal(Some(1), event) {
            FileAction::Fail { close, error } => {
                assert_eq!(close, closes);
                assert_eq!(error.message(), "io error: e");
            }
            other => panic!("{other:?}"),
        }
    }
}

#[test]
fn a_named_object_gets_its_size_in_two_halves() {
    let b = WindowsNamedBackend;
    let q = b.create_request("ab", 0x1234_5678_9abc).unwrap();
    assert_eq!(q.size_hi, 0x1234);
    assert_eq!(q.size_lo, 0x5678_9abc);
    assert_eq!(((q.size_hi as u64) << 32) | q.size_lo as u64, 0x1234_5678_9abc);
    assert_eq!(q.name, vec![97, 98, 0]);
    assert_eq!(
        b.create_request("ab", 0).unwrap_err().message(),
        "invalid config: size must be non-zero"
    );
    assert_eq!(
        b.create_request("", 1).unwrap_err().message(),
        "invalid config: named mapping object cannot be empty"
    );
    assert_eq!(
        b.open_request("").unwrap_err().message(),
        "invalid config: named mapping object cannot be empty"
    );
}

#[test]
fn names_become_utf16() {
    assert_eq!(WindowsNamedBackend::to_utf16("a\u{20ac}"), vec![0x61, 0x20ac, 0]);
    assert_eq!(WindowsIvshmemBackend::to_utf16("\u{1f600}"), vec![0xd83d, 0xde00, 0]);
    assert_eq!(WindowsNamedBackend::to_utf16(""), vec![0]);
}

#[test]
fn a_view_is_undone_where_it_is_of_no_use() {
    let b = WindowsNamedBackend;
    assert!(matches!(
        b.map_and_wrap(ViewEvent::Queried { answered: true, region_size: 9 }),
        ViewAction::Finish(9)
    ));
    assert!(matches!(
        b.map_and_wrap(ViewEvent::NoObject(words("e"))),
        ViewAction::Fail { unmap: false, close: false, error: ShmError::Io(_) }
    ));
    assert!(matches!(
        b.map_and_wrap(ViewEvent::NoView(words("e"))),
        ViewAction::Fail { unmap: false, close: true, error: ShmError::Io(_) }
    ));
    for (answered, region_size) in [(false, 9), (true, 0)] {
        match b.map_and_wrap(ViewEvent::Queried { answered, region_size }) {
            ViewAction::Fail { unmap, close, error } => {
                assert!(unmap && close);
                assert_eq!(
                    error.message(),
                    "protocol error: VirtualQuery failed for named shared memory view"
                );
            }
            other => panic!("{other:?}"),
        }
    }
}

#[test]
fn device_targets_become_interface_paths() {
    let full = "\\\\?\\PCI#VEN_1AF4&DEV_1110&SUBSYS_11001AF4&REV_01#3&11583659&0&88#{df576976-569d-4672-95a0-f57e4ea0b210}";
    let n = |s: &str| WindowsIvshmemBackend::normalize_target(s);
    assert_eq!(
        n("PCI\\VEN_1AF4&DEV_1110&SUBSYS_11001AF4&REV_01\\3&11583659&0&88").unwrap(),
        full
    );
    assert_eq!(
        n("pci/VEN_1AF4&DEV_1110&SUBSYS_11001AF4&REV_01/3&11583659&0&88").unwrap(),
        full.replacen("PCI", "pci", 1)
    );
    assert_eq!(n(full).unwrap(), full);
    assert_eq!(n("//./ivshmem0").unwrap(), "\\\\.\\ivshmem0");
    assert_eq!(n("PCI#x#{guid}").unwrap(), "\\\\?\\PCI#x#{guid}");
    assert_eq!(
        n("").unwrap_err().message(),
        "invalid config: ivshmem device target cannot be empty"
    );
    assert_eq!(
        n("USB\\x").unwrap_err().message(),
        "invalid backend spec: ivshmem target must be PCI instance id or full interface path"
    );
}

#[test]
fn control_codes_are_those_of_the_device() {
    assert_eq!(ctl_code(0x22, 0x801, 0, 0), IOCTL_IVSHMEM_REQUEST_SIZE);
    assert_eq!(ctl_code(0x22, 0x802, 0, 0), IOCTL_IVSHMEM_REQUEST_MMAP);
    assert_eq!(ctl_code(0x22, 0x803, 0, 0), IOCTL_IVSHMEM_RELEASE_MMAP);
    assert_eq!(ctl_code(1, 1, 1, 1), 0x1_4005);
}

#[test]
fn a_device_is_asked_in_turn() {
    let b = WindowsIvshmemBackend;
    let m = |size, null| IvshmemMapping { size, null };
    assert!(matches!(b.open(0, DeviceEvent::Opened), DeviceAction::RequestSize));
    assert!(matches!(
        b.open(0, DeviceEvent::SizeTold { bytes_ret: 8, size: 5 }),
        DeviceAction::RequestMap(5)
    ));
    assert!(matches!(
        b.open(5, DeviceEvent::MapTold { bytes_ret: 32, expected: 32, mapping: m(5, false) }),
        DeviceAction::Finish(5)
    ));
    assert!(matches!(
        b.open(0, DeviceEvent::NoDevice(words("e"))),
        DeviceAction::Fail { release: false, close: false, error: ShmError::Io(_) }
    ));
    for event in [DeviceEvent::SizeFailed(words("e")), DeviceEvent::MapFailed(words("e"))] {
        assert!(matches!(
            b.open(0, event),
            DeviceAction::Fail { release: false, close: true, error: ShmError::Io(_) }
        ));
    }
    assert_eq!(
        b.create().message(),
        "unsupported backend: ivshmem backend is attach-only; use open() from reader side"
    );
}

#[test]
fn a_device_that_breaks_the_protocol_is_let_go() {
    let b = WindowsIvshmemBackend;
    let m = |size, null| IvshmemMapping { size, null };
    let cases = [
        (DeviceEvent::SizeTold { bytes_ret: 4, size: 5 }, false, "invalid ivshmem size response"),
        (DeviceEvent::SizeTold { bytes_ret: 8, size: 0 }, false, "invalid ivshmem size response"),
        (
            DeviceEvent::MapTold { bytes_ret: 31, expected: 32, mapping: m(5, false) },
            false,
            "invalid ivshmem mmap response size",
        ),
        (
            DeviceEvent::MapTold { bytes_ret: 32, expected: 32, mapping: m(5, true) },
            false,
            "ivshmem driver returned null/zero mapping",
        ),
        (
            DeviceEvent::MapTold { bytes_ret: 32, expected: 32, mapping: m(0, false) },
            false,
            "ivshmem driver returned null/zero mapping",
        ),
        (
            DeviceEvent::MapTold { bytes_ret: 32, expected: 32, mapping: m(6, false) },
            true,
            "ivshmem size mismatch between size/mmap ioctls",
        ),
    ];
    for (event, releases, reason) in cases {
        match b.open(5, event) {
            DeviceAction::Fail { release, close, error: ShmError::Protocol(s) } => {
                assert_eq!(release, releases);
                assert!(close);
                assert_eq!(s, reason);
            }
            other => panic!("{other:?}"),
        }
    }
}
