//! Replacing a file as a whole, step by step on a model of two names.

use transformer::atomic_write::{directory, temp_ending, temp_name, Reply, Stage, WriteEnd, ATTEMPTS};

/// A directory of two names.
struct Disk {
    dest: Option<Vec<u8>>,
    temp: Option<Vec<u8>>,
}

/// Runs a write whose steps come to the given replies.
fn run(disk: &mut Disk, content: &[u8], mut reply: impl FnMut(Stage) -> Reply) -> WriteEnd {
    let mut stage = Stage::start();
    loop {
        let answer = reply(stage);
        match stage {
            Stage::Opening { .. } if answer == Reply::Done => disk.temp = Some(vec![]),
            Stage::Writing if answer == Reply::Done => disk.temp = Some(content.to_vec()),
            Stage::Writing => disk.temp = Some(content[..content.len() / 2].to_vec()),
            Stage::Renaming if answer == Reply::Done => disk.dest = disk.temp.take(),
            Stage::Removing if answer == Reply::Done => disk.temp = None,
            Stage::Finished(end) => return end,
            _ => {}
        }
        stage = stage.after(answer);
    }
}

#[test]
fn replaces_an_existing_file_and_leaves_no_temporaries() {
    let mut disk = Disk { dest: Some(b"old".to_vec()), temp: None };
    assert_eq!(run(&mut disk, b"new content", |_| Reply::Done), WriteEnd::Replaced);
    assert_eq!(disk.dest.unwrap(), b"new content");
    assert!(disk.temp.is_none());
}

#[test]
fn failure_after_partial_write_keeps_the_previous_file() {
    let mut disk = Disk { dest: Some(b"old".to_vec()), temp: None };
    let end = run(&mut disk, b"half written", |stage| match stage {
        Stage::Writing => Reply::Failed,
        _ => Reply::Done,
    });
    assert_eq!(end, WriteEnd::Failed);
    assert_eq!(disk.dest.unwrap(), b"old");
    assert!(disk.temp.is_none());
}

#[test]
fn failure_on_the_first_write_leaves_nothing_behind() {
    let mut disk = Disk { dest: None, temp: None };
    let end = run(&mut disk, b"partial", |stage| match stage {
        Stage::Writing => Reply::Failed,
        _ => Reply::Done,
    });
    assert_eq!(end, WriteEnd::Failed);
    assert!(disk.dest.is_none(), "назначение не должно появиться");
    assert!(disk.temp.is_none());
}

#[test]
fn failures_after_the_write_keep_the_previous_file_too() {
    for bad in [Stage::Syncing, Stage::Renaming] {
        let mut disk = Disk { dest: Some(b"old".to_vec()), temp: None };
        let end = run(&mut disk, b"new", |stage| if stage == bad { Reply::Failed } else { Reply::Done });
        assert_eq!(end, WriteEnd::Failed);
        assert_eq!(disk.dest.unwrap(), b"old");
        assert!(disk.temp.is_none());
    }
}

#[test]
fn names_are_tried_a_limited_number_of_times() {
    let mut disk = Disk { dest: Some(b"old".to_vec()), temp: None };
    let mut tries = 0;
    let end = run(&mut disk, b"new", |_| {
        tries += 1;
        Reply::Exists
    });
    assert_eq!(end, WriteEnd::NoFreeName);
    assert_eq!(tries, ATTEMPTS + 1);
    assert_eq!(ATTEMPTS, 32);
    assert_eq!(Stage::start().after(Reply::Failed), Stage::Finished(WriteEnd::Failed));
}

#[test]
fn writes_next_to_the_destination_even_without_a_directory_component() {
    assert_eq!(directory(Some("")), ".");
    assert_eq!(directory(None), ".");
    assert_eq!(directory(Some("a/b")), "a/b");
}

#[test]
fn temporary_names_are_of_the_process_and_the_call() {
    assert_eq!(temp_name("data.bin", 42, 7), ".data.bin.tmp42-7");
    assert_eq!(temp_ending(42, 7), ".tmp42-7");
}
