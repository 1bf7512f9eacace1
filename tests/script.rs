use lpirs::hex::hex_dump;
use lpirs::seek_io::{
    PrintMode, ScriptAction, ScriptError, ScriptEvent, ScriptReport, ScriptRun, SeekMode,
};
use nix::fcntl::{open, OFlag};
use nix::sys::stat::{fstat, Mode};
use nix::unistd::{self, close, lseek, read, unlink, Whence};

/// Runs a script on an in-memory file, as a well-behaved system would.
fn run_in_memory(file: &mut Vec<u8>, ops: Vec<SeekMode>) -> Vec<ScriptReport> {
    let mut run = ScriptRun::new(ops);
    let mut pos: usize = 0;
    let mut reports = Vec::new();
    loop {
        let event = match run.action() {
            ScriptAction::Write(bytes) => {
                if file.len() < pos + bytes.len() {
                    file.resize(pos + bytes.len(), 0);
                }
                file[pos..pos + bytes.len()].copy_from_slice(&bytes);
                pos += bytes.len();
                ScriptEvent::Wrote(bytes.len())
            }
            ScriptAction::Read(count) => {
                let start = pos.min(file.len());
                let end = (pos + count).min(file.len());
                pos += end - start;
                ScriptEvent::ReadBytes(file[start..end].to_vec())
            }
            ScriptAction::Seek(offset) => {
                pos = offset as usize;
                ScriptEvent::Sought(offset)
            }
            ScriptAction::Close => return reports,
        };
        reports.push(run.complete(event).unwrap());
    }
}

/// A sparse in-memory file: its length and the bytes written, by offset.
struct SparseFile {
    len: u64,
    bytes: std::collections::BTreeMap<u64, u8>,
}

/// Runs a script on a sparse in-memory file, as a well-behaved system would.
fn run_sparse(file: &mut SparseFile, ops: Vec<SeekMode>) -> Vec<ScriptReport> {
    let mut run = ScriptRun::new(ops);
    let mut pos: u64 = 0;
    let mut reports = Vec::new();
    loop {
        let event = match run.action() {
            ScriptAction::Write(bytes) => {
                for (i, b) in bytes.iter().enumerate() {
                    file.bytes.insert(pos + i as u64, *b);
                }
                pos += bytes.len() as u64;
                file.len = file.len.max(pos);
                ScriptEvent::Wrote(bytes.len())
            }
            ScriptAction::Read(count) => {
                let end = (pos + count as u64).min(file.len).max(pos);
                let got: Vec<u8> =
                    (pos..end).map(|i| *file.bytes.get(&i).unwrap_or(&0)).collect();
                pos = end;
                ScriptEvent::ReadBytes(got)
            }
            ScriptAction::Seek(offset) => {
                pos = offset as u64;
                ScriptEvent::Sought(offset)
            }
            ScriptAction::Close => return reports,
        };
        reports.push(run.complete(event).unwrap());
    }
}

#[test]
fn create_huge_file_with_big_hole() {
    let mut file = SparseFile { len: 0, bytes: std::collections::BTreeMap::new() };

    run_sparse(
        &mut file,
        vec![SeekMode::Seek(1000000000000000), SeekMode::Write("abc".to_string())],
    );
    assert_eq!(file.len, 1000000000000003);

    let reports = run_sparse(
        &mut file,
        vec![SeekMode::Seek(100000), SeekMode::Read(5, PrintMode::Hex)],
    );
    match &reports[1] {
        ScriptReport::Hex(dump) => assert_eq!(dump, "[0x00, 0x00, 0x00, 0x00, 0x00]"),
        _ => panic!("expected a hex dump"),
    }

    let reports = run_sparse(
        &mut file,
        vec![SeekMode::Seek(1000000000000000), SeekMode::Read(10, PrintMode::Unicode)],
    );
    match &reports[1] {
        ScriptReport::Text(bytes) => assert_eq!(bytes, b"abc"),
        _ => panic!("expected text"),
    }
    assert_eq!(file.len, 1000000000000003);
}

#[test]
fn script_on_existing_content_overwrites_in_place() {
    let mut file = b"hello world".to_vec();
    run_in_memory(&mut file, vec![SeekMode::Seek(6), SeekMode::Write("W".to_string())]);
    assert_eq!(file, b"hello World".to_vec());
}

/// Runs a script on a real file through the system calls.
fn run_on_disk(path: &str, ops: Vec<SeekMode>) -> Vec<ScriptReport> {
    let fd = open(path, OFlag::O_CREAT | OFlag::O_RDWR, Mode::all()).unwrap();
    let mut run = ScriptRun::new(ops);
    let mut reports = Vec::new();
    loop {
        let event = match run.action() {
            ScriptAction::Write(bytes) => ScriptEvent::Wrote(unistd::write(fd, &bytes).unwrap()),
            ScriptAction::Read(count) => {
                let mut buf = vec![0u8; count];
                let n = read(fd, &mut buf[..]).unwrap();
                buf.truncate(n);
                ScriptEvent::ReadBytes(buf)
            }
            ScriptAction::Seek(offset) => {
                ScriptEvent::Sought(lseek(fd, offset, Whence::SeekSet).unwrap())
            }
            ScriptAction::Close => break,
        };
        reports.push(run.complete(event).unwrap());
    }
    close(fd).unwrap();
    reports
}

fn file_size(path: &str) -> i64 {
    let fd = open(path, OFlag::O_RDONLY, Mode::empty()).unwrap();
    let size = fstat(fd).unwrap().st_size;
    close(fd).unwrap();
    size
}

#[test]
fn seek_past_end_on_disk_makes_hole() {
    let file_path = "/tmp/lpirs_file_with_hole";
    unlink(file_path).ok();

    run_on_disk(file_path, vec![SeekMode::Seek(1000000), SeekMode::Write("abc".to_string())]);
    assert_eq!(file_size(file_path), 1000003);

    let reports = run_on_disk(
        file_path,
        vec![SeekMode::Seek(100000), SeekMode::Read(5, PrintMode::Hex)],
    );
    match &reports[1] {
        ScriptReport::Hex(dump) => assert_eq!(dump, "[0x00, 0x00, 0x00, 0x00, 0x00]"),
        _ => panic!("expected a hex dump"),
    }

    let reports = run_on_disk(
        file_path,
        vec![SeekMode::Seek(1000000), SeekMode::Read(10, PrintMode::Unicode)],
    );
    match &reports[1] {
        ScriptReport::Text(bytes) => assert_eq!(bytes, b"abc"),
        _ => panic!("expected text"),
    }
    unlink(file_path).ok();
}

#[test]
fn script_write_seek_write_leaves_zero_gap() {
    let mut file = Vec::new();
    let reports = run_in_memory(
        &mut file,
        vec![
            SeekMode::Write("abcde".to_string()),
            SeekMode::Seek(10),
            SeekMode::Write("z".to_string()),
        ],
    );
    assert_eq!(file, vec![0x61, 0x62, 0x63, 0x64, 0x65, 0, 0, 0, 0, 0, 0x7A]);
    assert!(matches!(reports[0], ScriptReport::Wrote(5)));
    assert!(matches!(reports[1], ScriptReport::Sought(10)));
    assert!(matches!(reports[2], ScriptReport::Wrote(1)));
}

#[test]
fn script_write_seek_write_on_disk() {
    let path = "/tmp/lpirs_script_s2";
    unlink(path).ok();
    run_on_disk(
        path,
        vec![
            SeekMode::Write("abcde".to_string()),
            SeekMode::Seek(10),
            SeekMode::Write("z".to_string()),
        ],
    );
    let fd = open(path, OFlag::O_RDONLY, Mode::empty()).unwrap();
    let mut buf = vec![0u8; 64];
    let n = read(fd, &mut buf).unwrap();
    close(fd).unwrap();
    assert_eq!(&buf[..n], &[0x61, 0x62, 0x63, 0x64, 0x65, 0, 0, 0, 0, 0, 0x7A]);
    unlink(path).ok();
}

#[test]
fn script_runs_are_deterministic() {
    let ops = || {
        vec![
            SeekMode::Write("hello".to_string()),
            SeekMode::Seek(2),
            SeekMode::Read(2, PrintMode::Hex),
            SeekMode::Write("XY".to_string()),
            SeekMode::Seek(20),
            SeekMode::Write("tail".to_string()),
        ]
    };
    let mut first = Vec::new();
    let mut second = Vec::new();
    run_in_memory(&mut first, ops());
    run_in_memory(&mut second, ops());
    assert_eq!(first, second);
    assert_eq!(&first[..6], b"hellXY");
    assert_eq!(first.len(), 24);
}

#[test]
fn script_seek_past_end_makes_zeros() {
    let mut file = Vec::new();
    run_in_memory(&mut file, vec![SeekMode::Seek(100000), SeekMode::Write("abc".to_string())]);
    assert_eq!(file.len(), 100003);
    assert!(file[..100000].iter().all(|b| *b == 0));
    assert_eq!(&file[100000..], b"abc");
}

#[test]
fn script_read_reports() {
    let mut file = b"hello".to_vec();
    let reports = run_in_memory(
        &mut file,
        vec![
            SeekMode::Read(3, PrintMode::Unicode),
            SeekMode::Read(10, PrintMode::Hex),
            SeekMode::Read(4, PrintMode::Hex),
        ],
    );
    match &reports[0] {
        ScriptReport::Text(bytes) => assert_eq!(bytes, b"hel"),
        _ => panic!("expected text"),
    }
    match &reports[1] {
        ScriptReport::Hex(dump) => assert_eq!(dump, "[0x6C, 0x6F]"),
        _ => panic!("expected a hex dump"),
    }
    assert!(matches!(reports[2], ScriptReport::Eof));
}

#[test]
fn script_refuses_events_that_do_not_fit() {
    let mut run = ScriptRun::new(vec![SeekMode::Write("ab".to_string()), SeekMode::Seek(4)]);
    assert_eq!(run.complete(ScriptEvent::Wrote(3)).err(), Some(ScriptError::UnexpectedEvent));
    assert_eq!(run.complete(ScriptEvent::Sought(4)).err(), Some(ScriptError::UnexpectedEvent));
    assert!(matches!(run.complete(ScriptEvent::Wrote(2)), Ok(ScriptReport::Wrote(2))));
    assert_eq!(run.complete(ScriptEvent::Sought(5)).err(), Some(ScriptError::UnexpectedEvent));
    assert!(matches!(run.complete(ScriptEvent::Sought(4)), Ok(ScriptReport::Sought(4))));
    assert!(matches!(run.action(), ScriptAction::Close));
    assert_eq!(run.complete(ScriptEvent::Sought(4)).err(), Some(ScriptError::Finished));
}

#[test]
fn script_write_action_carries_utf8_bytes() {
    let run = ScriptRun::new(vec![SeekMode::Write("é!".to_string())]);
    match run.action() {
        ScriptAction::Write(bytes) => assert_eq!(bytes, vec![0xC3, 0xA9, 0x21]),
        _ => panic!("expected a write"),
    }
}

#[test]
fn hex_dump_renders_bytes() {
    assert_eq!(hex_dump(&[]), "[]");
    assert_eq!(hex_dump(&[0x00, 0x0F, 0xA5, 0xFF]), "[0x00, 0x0F, 0xA5, 0xFF]");
}
