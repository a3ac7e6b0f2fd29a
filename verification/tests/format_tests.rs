use gazpacho::calendar::{civil_from_days, date_of_timestamp, format_rfc3339, CivilDate};
use gazpacho::config::{Compression, ZstdCompression};
use gazpacho::destination::{Destination, DestinationLocal, DestinationSsh};
use gazpacho::ensured::{ensure_plan, parent_dir, EnsuredError, SavePlan};
use gazpacho::task_manager::steps::get_snapshot_name;
use gazpacho::text::{pad2, replace_slashes, str_eq, u64_to_dec};
use gazpacho::zfs_manager::{get_datasets_for_task, snapshot_full_name, snapshot_names, snapshots_to_create};

const NOW: u64 = 1717200000; // 2024-06-01T00:00:00Z

#[test]
fn epoch_is_day_zero() {
    let d = civil_from_days(0);
    assert_eq!(d, CivilDate { year: 1970, month: 1, day: 1 });
}

#[test]
fn dates_of_known_timestamps() {
    assert_eq!(date_of_timestamp(NOW), CivilDate { year: 2024, month: 6, day: 1 });
    // 2024 is a leap year: 2024-02-29 exists.
    assert_eq!(date_of_timestamp(1709164800), CivilDate { year: 2024, month: 2, day: 29 });
    // The last second of 2024-06-01 is still 2024-06-01.
    assert_eq!(date_of_timestamp(NOW + 86399), CivilDate { year: 2024, month: 6, day: 1 });
    assert_eq!(date_of_timestamp(NOW + 86400), CivilDate { year: 2024, month: 6, day: 2 });
}

#[test]
fn rfc3339_rendering() {
    assert_eq!(format_rfc3339(0), "1970-01-01T00:00:00Z");
    assert_eq!(format_rfc3339(NOW), "2024-06-01T00:00:00Z");
    assert_eq!(format_rfc3339(NOW + 86399), "2024-06-01T23:59:59Z");
    assert_eq!(format_rfc3339(1717804801), "2024-06-08T00:00:01Z");
}

#[test]
fn decimal_formatting() {
    assert_eq!(u64_to_dec(0), "0");
    assert_eq!(u64_to_dec(7), "7");
    assert_eq!(u64_to_dec(1717200000), "1717200000");
    assert_eq!(pad2(3), "03");
    assert_eq!(pad2(12), "12");
}

#[test]
fn dataset_paths_become_file_stems() {
    assert_eq!(replace_slashes("z/db"), "z_db");
    assert_eq!(replace_slashes("z/usr/ports"), "z_usr_ports");
    assert_eq!(replace_slashes("plain"), "plain");
}

#[test]
fn string_equality_is_by_characters() {
    assert!(str_eq("abc", "abc"));
    assert!(!str_eq("abc", "abd"));
    assert!(!str_eq("abc", "ab"));
}

#[test]
fn snapshot_label_of_a_run() {
    assert_eq!(get_snapshot_name(NOW), "gazpacho-20240601-1717200000");
}

#[test]
fn snapshot_names_share_the_label() {
    assert_eq!(snapshot_full_name("z/db", "lbl"), "z/db@lbl");
    let names = snapshot_names(
        &vec![String::from("z/db"), String::from("z/home")],
        "gazpacho-20240601-1717200000",
    );
    assert_eq!(
        names,
        vec![
            String::from("z/db@gazpacho-20240601-1717200000"),
            String::from("z/home@gazpacho-20240601-1717200000"),
        ]
    );
}

#[test]
fn existing_snapshots_are_skipped() {
    let names = vec![String::from("z/db@l"), String::from("z/home@l")];
    let to_create = snapshots_to_create(names.clone(), &vec![false, true]);
    assert_eq!(to_create, vec![String::from("z/db@l")]);
    // Taking the same label twice leaves nothing to create the second time.
    let again = snapshots_to_create(names, &vec![true, true]);
    assert!(again.is_empty());
}

#[test]
fn dataset_filtering_uses_the_regex() {
    let filesystems = vec![String::from("z/db"), String::from("z/home"), String::from("z/var")];
    let volumes = vec![String::from("z/swap")];
    let matched = get_datasets_for_task(filesystems, volumes, "^z/db$|^z/home$");
    assert_eq!(matched, vec![String::from("z/db"), String::from("z/home")]);
}

#[test]
fn filesystems_come_before_volumes() {
    let filesystems = vec![String::from("z/fs")];
    let volumes = vec![String::from("z/vol")];
    let matched = get_datasets_for_task(filesystems, volumes, "^z/");
    assert_eq!(matched, vec![String::from("z/fs"), String::from("z/vol")]);
}

#[test]
fn invalid_filter_matches_nothing() {
    let filesystems = vec![String::from("z/db")];
    let matched = get_datasets_for_task(filesystems, Vec::new(), "(unclosed");
    assert!(matched.is_empty());
}

fn local_destination(folder: &str) -> Destination {
    Destination {
        parallelism: 1,
        chmod: 0o600,
        chmod_dir: 0o700,
        ssh: None,
        local: Some(DestinationLocal { folder: String::from(folder) }),
    }
}

#[test]
fn local_plan_has_the_dated_layout() {
    let dst = local_destination("/tmp/bk");
    let plan = ensure_plan(&dst, "z/db", &None, NOW).unwrap();
    match plan {
        SavePlan::Local(p) => {
            assert_eq!(p.dir, "/tmp/bk/2024/06/01");
            assert_eq!(p.file_path, "/tmp/bk/2024/06/01/20240601-1717200000-z_db.zfs");
        },
        SavePlan::Sftp(_) => panic!("expected a local plan"),
    }
}

#[test]
fn compressed_streams_get_the_zst_extension() {
    let dst = local_destination("/tmp/bk");
    let compression = Some(Compression { zstd: ZstdCompression { level: 3, workers: 1 } });
    let plan = ensure_plan(&dst, "z/home", &compression, NOW).unwrap();
    assert_eq!(
        plan.file_path(),
        "/tmp/bk/2024/06/01/20240601-1717200000-z_home.zfs.zst"
    );
}

#[test]
fn sftp_plan_builds_the_directory_chain() {
    let dst = Destination {
        parallelism: 2,
        chmod: 0o600,
        chmod_dir: 0o700,
        ssh: Some(DestinationSsh {
            username: String::from("backup"),
            identity_file: String::from("/home/backup/.ssh/id_rsa"),
            folder: String::from("/mnt/eden/backups"),
            host: String::from("192.168.86.13:22"),
        }),
        local: None,
    };
    let plan = ensure_plan(&dst, "z/db", &None, NOW).unwrap();
    match plan {
        SavePlan::Sftp(p) => {
            assert_eq!(p.root_parent.as_deref(), Some("/mnt/eden"));
            assert_eq!(
                p.dirs,
                vec![
                    String::from("/mnt/eden/backups"),
                    String::from("/mnt/eden/backups/2024"),
                    String::from("/mnt/eden/backups/2024/06"),
                    String::from("/mnt/eden/backups/2024/06/01"),
                ]
            );
            assert_eq!(
                p.file_path,
                "/mnt/eden/backups/2024/06/01/20240601-1717200000-z_db.zfs"
            );
            assert_eq!(p.chmod, 0o600);
            assert_eq!(p.chmod_dir, 0o700);
        },
        SavePlan::Local(_) => panic!("expected an sftp plan"),
    }
}

#[test]
fn a_destination_needs_exactly_one_kind() {
    let none = Destination { parallelism: 1, chmod: 0o600, chmod_dir: 0o700, ssh: None, local: None };
    assert!(matches!(
        ensure_plan(&none, "z/db", &None, NOW),
        Err(EnsuredError::MissingConfiguration)
    ));
    let both = Destination {
        parallelism: 1,
        chmod: 0o600,
        chmod_dir: 0o700,
        ssh: Some(DestinationSsh {
            username: String::new(),
            identity_file: String::new(),
            folder: String::from("/a"),
            host: String::new(),
        }),
        local: Some(DestinationLocal { folder: String::from("/b") }),
    };
    assert!(matches!(
        ensure_plan(&both, "z/db", &None, NOW),
        Err(EnsuredError::DuplicateConfiguration)
    ));
}

#[test]
fn parent_of_a_path() {
    assert_eq!(parent_dir("/mnt/eden/backups").as_deref(), Some("/mnt/eden"));
    assert_eq!(parent_dir("/top").as_deref(), Some(""));
    assert!(parent_dir("relative").is_none());
}

#[test]
fn the_last_representable_second() {
    let limit = gazpacho::calendar::TIMESTAMP_LIMIT;
    assert_eq!(format_rfc3339(limit - 1), "9999-12-31T23:59:59Z");
}
