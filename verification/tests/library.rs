use cargo_cleaner::cli::{Args, Level};
use cargo_cleaner::output::CleanOutput;
use cargo_cleaner::results::{process_results, FileResult, Summary};
use cargo_cleaner::traverse::{select_manifests, DirectoryEntry, EntryKind};
use cargo_cleaner::parse_args;

fn entry(path: &str, name: &str, kind: EntryKind, depth: usize) -> DirectoryEntry {
    DirectoryEntry { path: path.to_string(), name: name.to_string(), kind, depth }
}

#[test]
fn parse_count_and_total() {
    let r = CleanOutput::parse(b"Removed 12 files, 3.4MB total");
    assert_eq!(r, Some(CleanOutput { files_removed: 12, bytes_removed: 3_400_000 }));
}

#[test]
fn parse_count_without_total() {
    let r = CleanOutput::parse(b"Removed 0 files");
    assert_eq!(r, Some(CleanOutput { files_removed: 0, bytes_removed: 0 }));
}

#[test]
fn parse_unrelated_text() {
    assert_eq!(CleanOutput::parse(b"nothing to report here"), None);
    assert_eq!(CleanOutput::parse(b""), None);
    assert_eq!(CleanOutput::parse(b"Removed  files"), None);
    assert_eq!(CleanOutput::parse(b"Removedd 3 files"), None);
}

#[test]
fn parse_embedded_in_noise() {
    let text = b"warning: something\nRemoved 3 files, 1KB total\ndone\n";
    let r = CleanOutput::parse(text);
    assert_eq!(r, Some(CleanOutput { files_removed: 3, bytes_removed: 1000 }));
}

#[test]
fn parse_takes_first_occurrence() {
    let text = b"Removed 1 files, 2MB total; Removed 9 files, 9MB total";
    let r = CleanOutput::parse(text);
    assert_eq!(r, Some(CleanOutput { files_removed: 1, bytes_removed: 2_000_000 }));
}

#[test]
fn parse_size_unit_variants() {
    let r = CleanOutput::parse(b"Removed 7 files, 1.5GB total");
    assert_eq!(r, Some(CleanOutput { files_removed: 7, bytes_removed: 1_500_000_000 }));
    let r = CleanOutput::parse(b"Removed 7 files, 2KiB total");
    assert_eq!(r, Some(CleanOutput { files_removed: 7, bytes_removed: 2048 }));
}

#[test]
fn parse_unreadable_size_counts_zero_bytes() {
    let r = CleanOutput::parse(b"Removed 5 files, 12QQX total");
    assert_eq!(r, Some(CleanOutput { files_removed: 5, bytes_removed: 0 }));
}

#[test]
fn parse_incomplete_total_clause() {
    let r = CleanOutput::parse(b"Removed 5 files, 3.4MB");
    assert_eq!(r, Some(CleanOutput { files_removed: 5, bytes_removed: 0 }));
}

#[test]
fn parse_count_at_limits() {
    let r = CleanOutput::parse(b"Removed 4294967295 files");
    assert_eq!(r, Some(CleanOutput { files_removed: u32::MAX, bytes_removed: 0 }));
    assert_eq!(CleanOutput::parse(b"Removed 4294967296 files"), None);
}

#[test]
fn parse_is_idempotent() {
    let text: &[u8] = b"Removed 12 files, 3.4MB total";
    let first = CleanOutput::parse(text);
    let second = CleanOutput::parse(text);
    assert_eq!(first, second);
    let noise: &[u8] = b"no summary line";
    assert_eq!(CleanOutput::parse(noise), CleanOutput::parse(noise));
}

#[test]
fn accumulation_is_order_insensitive() {
    let deltas = [
        CleanOutput { files_removed: 1, bytes_removed: 10 },
        CleanOutput { files_removed: 2, bytes_removed: 20 },
        CleanOutput { files_removed: 3, bytes_removed: 30 },
    ];
    let orders: [[usize; 3]; 6] =
        [[0, 1, 2], [0, 2, 1], [1, 0, 2], [1, 2, 0], [2, 0, 1], [2, 1, 0]];
    for order in orders.iter() {
        let mut acc = CleanOutput::zero();
        for &k in order.iter() {
            acc.add_assign(deltas[k]);
        }
        assert_eq!(acc, CleanOutput { files_removed: 6, bytes_removed: 60 });
    }
}

fn three_mixed_results() -> Vec<FileResult> {
    vec![
        FileResult::CmdErr {
            manifest_path: "a/Cargo.toml".to_string(),
            err: "spawn failed".to_string(),
        },
        FileResult::Completed {
            manifest_path: "b/Cargo.toml".to_string(),
            stderr: b"error: no such subcommand".to_vec(),
            exit_succeeded: false,
        },
        FileResult::Completed {
            manifest_path: "c/Cargo.toml".to_string(),
            stderr: b"Removed 12 files, 3.4MB total".to_vec(),
            exit_succeeded: true,
        },
    ]
}

#[test]
fn partial_failure_tolerance() {
    let summary = process_results(three_mixed_results()).unwrap();
    assert_eq!(
        summary,
        Summary {
            files_removed: 12,
            bytes_removed: 3_400_000,
            manifests_seen: 3,
            manifests_succeeded: 1,
        }
    );
}

#[test]
fn processing_order_does_not_change_summary() {
    let mut reversed = three_mixed_results();
    reversed.reverse();
    assert_eq!(process_results(three_mixed_results()), process_results(reversed));
}

#[test]
fn process_results_of_nothing() {
    let summary = process_results(Vec::new()).unwrap();
    assert_eq!(
        summary,
        Summary { files_removed: 0, bytes_removed: 0, manifests_seen: 0, manifests_succeeded: 0 }
    );
}

#[test]
fn successful_exit_with_unparseable_text_counts_as_succeeded() {
    let results = vec![FileResult::Completed {
        manifest_path: "x/Cargo.toml".to_string(),
        stderr: b"nothing cleaned".to_vec(),
        exit_succeeded: true,
    }];
    let summary = process_results(results).unwrap();
    assert_eq!(
        summary,
        Summary { files_removed: 0, bytes_removed: 0, manifests_seen: 1, manifests_succeeded: 1 }
    );
}

#[test]
fn depth_bound_is_honored() {
    let mut entries = Vec::new();
    for depth in 0..6usize {
        entries.push(entry("d/Cargo.toml", "Cargo.toml", EntryKind::File, depth));
    }
    let picked = select_manifests(&entries, Some(2));
    assert_eq!(picked.len(), 3);
    for e in picked.iter() {
        assert!(e.depth <= 2);
    }
    let unbounded = select_manifests(&entries, None);
    assert_eq!(unbounded.len(), 6);
}

#[test]
fn both_casings_and_nothing_else() {
    let entries = vec![
        entry("r/Cargo.toml", "Cargo.toml", EntryKind::File, 1),
        entry("r/sub/cargo.toml", "cargo.toml", EntryKind::File, 2),
        entry("r/Cargo.Toml", "Cargo.Toml", EntryKind::File, 1),
        entry("r/Cargo.toml.bak", "Cargo.toml.bak", EntryKind::File, 1),
        entry("r/dir/Cargo.toml", "Cargo.toml", EntryKind::Dir, 1),
        entry("r/link/Cargo.toml", "Cargo.toml", EntryKind::Symlink, 1),
    ];
    let picked = select_manifests(&entries, None);
    assert_eq!(picked.len(), 2);
    assert_eq!(picked[0].path, "r/Cargo.toml");
    assert_eq!(picked[1].path, "r/sub/cargo.toml");
}

#[test]
fn parse_args_applies_defaults() {
    let a: Args = parse_args(None, None, false, false, None);
    assert_eq!(a.dir, ".");
    assert_eq!(a.log, Level::Info);
    assert!(!a.timings);
    assert!(!a.skip_processing);
    assert_eq!(a.max_depth, None);
}

#[test]
fn parse_args_keeps_given_values() {
    let a: Args = parse_args(Some("/tmp/work".to_string()), Some(Level::Debug), true, true, Some(4));
    assert_eq!(a.dir, "/tmp/work");
    assert_eq!(a.log, Level::Debug);
    assert!(a.timings);
    assert!(a.skip_processing);
    assert_eq!(a.max_depth, Some(4));
}
